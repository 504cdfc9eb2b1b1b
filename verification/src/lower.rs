//! Lowering of the mid-level IR to a stratified LIR program.
//!
//! Each conjunction becomes a relational plan: positive scans form a join,
//! guards become filters, assignments become extends, negated scans become
//! anti-joins and aggregates become aggregate nodes; a final projection keeps
//! the target columns. Disjunctions give one rule per clause. Rules are then
//! grouped into strata by the strongly connected components of the predicate
//! dependency graph, and a cycle through negation or aggregation is an error.

use vstd::prelude::*;
use crate::text::{decimal, views, seq_less, copy_strings, str_eq, str_less, push_decimal};
use crate::mir::{MirProgram, MirPredicate, MirParam, MirBody, MirAtom, MirScan, MirTerm, MirConst, MirGuard,
    MirAssign, MirArithExpr, MirAggregate, MirTypeCheck, MirCompOp, MirArithOp, MirAggFunction, mir_comparison_holds,
    mir_arith_value, mir_agg_keyword};
use crate::lir::{LirProgram, LirStratum, LirRule, LirPlan, LirAtom, LirBinding, LirFilter,
    LirOperand, LirExpr, LirArithOp, LirCompOp, LirAggFunction, LirValue, lir_comparison_holds, lir_arith_value};
use crate::pretty::agg_text;
use crate::scc::{strongly_connected_components, graph_ok, member, member_upto, successors_earlier, disjoint_components, components_in_range,
    components_connected, reaches, is_path, is_edge, lemma_walk_stays_upto, lemma_components_maximal};

verus! {

/// Lowering failure.
#[derive(Debug)]
pub enum LowerError {
    /// The predicates of a component depend on each other through negation
    /// or aggregation.
    NegationCycle(Vec<String>),
}

/// Name of the `k`-th fresh variable.
pub open spec fn fresh_name(k: nat) -> Seq<char> {
    seq!['_', 'l', 'i', 'r'] + decimal(k)
}

/// `v` is the lowering of constant `c`.
pub open spec fn const_ok(c: MirConst, v: LirValue) -> bool {
    match c {
        MirConst::Int(a) => v == LirValue::Int(a),
        MirConst::Float(a) => v matches LirValue::Float(b) && b@ == a@,
        MirConst::String(a) => v matches LirValue::String(b) && b@ == a@,
        MirConst::Bool(a) => v == LirValue::Bool(a),
    }
}

/// `o` is the lowering of term `t` as an operand.
pub open spec fn operand_ok(t: MirTerm, o: LirOperand) -> bool {
    match t {
        MirTerm::Var(n) => o matches LirOperand::Column(m) && m@ == n@,
        MirTerm::Const(c) => o matches LirOperand::Literal(v) && const_ok(c, v),
        MirTerm::Wildcard => o matches LirOperand::Column(m) && m@ == seq!['_'],
    }
}

/// The comparison operator corresponding to a MIR one.
pub open spec fn comp_op_of(op: MirCompOp) -> LirCompOp {
    match op {
        MirCompOp::Eq => LirCompOp::Eq,
        MirCompOp::Ne => LirCompOp::Ne,
        MirCompOp::Lt => LirCompOp::Lt,
        MirCompOp::Le => LirCompOp::Le,
        MirCompOp::Gt => LirCompOp::Gt,
        MirCompOp::Ge => LirCompOp::Ge,
    }
}

/// The arithmetic operator corresponding to a MIR one.
pub open spec fn arith_op_of(op: MirArithOp) -> LirArithOp {
    match op {
        MirArithOp::Add => LirArithOp::Add,
        MirArithOp::Sub => LirArithOp::Sub,
        MirArithOp::Mul => LirArithOp::Mul,
        MirArithOp::Div => LirArithOp::Div,
        MirArithOp::Mod => LirArithOp::Mod,
    }
}

/// Lowering keeps what operators mean: the filter a guard lowers to keeps
/// exactly the rows whose values the guard accepts, a lowered arithmetic
/// expression computes the same value, and a lowered aggregate is the
/// aggregate function of the same QL keyword.
pub proof fn lemma_lowered_operators_keep_meaning(c: MirCompOp, op: MirArithOp, f: MirAggFunction, a: int, b: int)
    ensures
        lir_comparison_holds(comp_op_of(c), a, b) == mir_comparison_holds(c, a, b),
        lir_arith_value(arith_op_of(op), a, b) == mir_arith_value(op, a, b),
        agg_text(agg_fn_of(f)) == mir_agg_keyword(f),
{
}

/// The aggregate function corresponding to a MIR one.
pub open spec fn agg_fn_of(f: MirAggFunction) -> LirAggFunction {
    match f {
        MirAggFunction::Count => LirAggFunction::Count,
        MirAggFunction::Sum => LirAggFunction::Sum,
        MirAggFunction::Min => LirAggFunction::Min,
        MirAggFunction::Max => LirAggFunction::Max,
        MirAggFunction::Avg => LirAggFunction::Avg,
        MirAggFunction::Concat => LirAggFunction::Concat,
        MirAggFunction::Rank => LirAggFunction::Rank,
        MirAggFunction::StrictCount => LirAggFunction::StrictCount,
        MirAggFunction::StrictSum => LirAggFunction::StrictSum,
        MirAggFunction::StrictConcat => LirAggFunction::StrictConcat,
        MirAggFunction::Any => LirAggFunction::Any,
    }
}

/// Number of wildcard terms.
pub open spec fn wildcards(args: Seq<MirTerm>) -> nat
    decreases args.len(),
{
    if args.len() == 0 {
        0
    } else {
        wildcards(args.drop_last()) + if args.last() is Wildcard { 1nat } else { 0nat }
    }
}

/// `b` is the binding for term `t`, where `k` numbers the next fresh variable.
pub open spec fn binding_ok(t: MirTerm, b: LirBinding, k: nat) -> bool {
    match t {
        MirTerm::Var(n) => b matches LirBinding::Var(m) && m@ == n@,
        MirTerm::Const(c) => b matches LirBinding::Const(v) && const_ok(c, v),
        MirTerm::Wildcard => b matches LirBinding::Var(m) && m@ == fresh_name(k),
    }
}

/// `a` is the atom for scan `s` when fresh variables are numbered from `k`:
/// each wildcard gets the next fresh variable, left to right.
pub open spec fn scan_ok(s: MirScan, a: LirAtom, k: nat) -> bool {
    &&& a.relation@ == s.predicate@
    &&& a.bindings@.len() == s.args@.len()
    &&& forall|i: int|
        0 <= i < s.args@.len() ==> binding_ok(
            #[trigger] s.args@[i],
            a.bindings@[i],
            k + wildcards(s.args@.take(i)),
        )
}

/// Variable names bound by a list of bindings, in order.
pub open spec fn binding_vars(bs: Seq<LirBinding>) -> Seq<Seq<char>>
    decreases bs.len(),
{
    if bs.len() == 0 {
        Seq::empty()
    } else {
        let rest = binding_vars(bs.drop_last());
        match bs.last() {
            LirBinding::Var(n) => rest.push(n@),
            LirBinding::Const(_) => rest,
        }
    }
}

/// All variable occurrences of a list of atoms, atom by atom.
pub open spec fn atoms_vars(atoms: Seq<LirAtom>) -> Seq<Seq<char>>
    decreases atoms.len(),
{
    if atoms.len() == 0 {
        Seq::empty()
    } else {
        atoms_vars(atoms.drop_last()) + binding_vars(atoms.last().bindings@)
    }
}

/// First occurrences of a sequence, in order.
pub open spec fn dedup(s: Seq<Seq<char>>) -> Seq<Seq<char>>
    decreases s.len(),
{
    if s.len() == 0 {
        Seq::empty()
    } else {
        let d = dedup(s.drop_last());
        if d.contains(s.last()) {
            d
        } else {
            d.push(s.last())
        }
    }
}

/// Number of atoms that bind variable `x`.
pub open spec fn var_count(atoms: Seq<LirAtom>, x: Seq<char>) -> nat
    decreases atoms.len(),
{
    if atoms.len() == 0 {
        0
    } else {
        var_count(atoms.drop_last(), x) + if binding_vars(atoms.last().bindings@).contains(x) {
            1nat
        } else {
            0nat
        }
    }
}

/// In the join order, `x` comes before `y`: it occurs in more atoms, or in as
/// many and is smaller by name.
pub open spec fn order_before(atoms: Seq<LirAtom>, x: Seq<char>, y: Seq<char>) -> bool {
    var_count(atoms, x) > var_count(atoms, y) || (var_count(atoms, x) == var_count(atoms, y)
        && seq_less(x, y))
}

/// Columns produced by a plan.
pub open spec fn plan_cols(p: LirPlan) -> Seq<Seq<char>>
    decreases p,
{
    match p {
        LirPlan::Scan { bindings, .. } => binding_vars(bindings@),
        LirPlan::WcoJoin { project, .. } => views(project@),
        LirPlan::Filter { input, .. } => plan_cols(*input),
        LirPlan::Project { columns, .. } => views(columns@),
        LirPlan::Union { inputs } => if inputs@.len() > 0 {
            plan_cols(inputs@[0])
        } else {
            Seq::empty()
        },
        LirPlan::AntiJoin { positive, .. } => plan_cols(*positive),
        LirPlan::Aggregate { group_by, result_column, .. } => views(group_by@).push(result_column@),
        LirPlan::Extend { input, column, .. } => plan_cols(*input).push(column@),
        LirPlan::Constant { columns, .. } => views(columns@),
    }
}


fn lower_const(c: &MirConst) -> (v: LirValue)
    ensures
        const_ok(*c, v),
{
    match c {
        MirConst::Int(a) => LirValue::Int(*a),
        MirConst::Float(a) => LirValue::Float(a.clone()),
        MirConst::String(a) => LirValue::String(a.clone()),
        MirConst::Bool(b) => LirValue::Bool(*b),
    }
}

fn lower_operand(t: &MirTerm) -> (o: LirOperand)
    ensures
        operand_ok(*t, o),
{
    match t {
        MirTerm::Var(n) => {
            let m = n.clone();
            let o = LirOperand::Column(m);
            assert(operand_ok(*t, o));
            o
        },
        MirTerm::Const(c) => LirOperand::Literal(lower_const(c)),
        MirTerm::Wildcard => {
            let s = crate::text::copy_str("_");
            proof {
                reveal_strlit("_");
            }
            assert(s@ =~= seq!['_']);
            LirOperand::Column(s)
        },
    }
}

fn lower_comp_op(op: MirCompOp) -> (r: LirCompOp)
    ensures
        r == comp_op_of(op),
{
    match op {
        MirCompOp::Eq => LirCompOp::Eq,
        MirCompOp::Ne => LirCompOp::Ne,
        MirCompOp::Lt => LirCompOp::Lt,
        MirCompOp::Le => LirCompOp::Le,
        MirCompOp::Gt => LirCompOp::Gt,
        MirCompOp::Ge => LirCompOp::Ge,
    }
}

fn lower_arith_op(op: MirArithOp) -> (r: LirArithOp)
    ensures
        r == arith_op_of(op),
{
    match op {
        MirArithOp::Add => LirArithOp::Add,
        MirArithOp::Sub => LirArithOp::Sub,
        MirArithOp::Mul => LirArithOp::Mul,
        MirArithOp::Div => LirArithOp::Div,
        MirArithOp::Mod => LirArithOp::Mod,
    }
}

fn lower_agg_function(f: MirAggFunction) -> (r: LirAggFunction)
    ensures
        r == agg_fn_of(f),
{
    match f {
        MirAggFunction::Count => LirAggFunction::Count,
        MirAggFunction::Sum => LirAggFunction::Sum,
        MirAggFunction::Min => LirAggFunction::Min,
        MirAggFunction::Max => LirAggFunction::Max,
        MirAggFunction::Avg => LirAggFunction::Avg,
        MirAggFunction::Concat => LirAggFunction::Concat,
        MirAggFunction::Rank => LirAggFunction::Rank,
        MirAggFunction::StrictCount => LirAggFunction::StrictCount,
        MirAggFunction::StrictSum => LirAggFunction::StrictSum,
        MirAggFunction::StrictConcat => LirAggFunction::StrictConcat,
        MirAggFunction::Any => LirAggFunction::Any,
    }
}

/// `e` is the lowering of arithmetic expression `a`.
pub open spec fn expr_ok(a: MirArithExpr, e: LirExpr) -> bool {
    operand_ok(a.left, e.left) && e.op == arith_op_of(a.op) && operand_ok(a.right, e.right)
}

fn lower_arith_expr(a: &MirArithExpr) -> (e: LirExpr)
    ensures
        expr_ok(*a, e),
{
    LirExpr { left: lower_operand(&a.left), op: lower_arith_op(a.op), right: lower_operand(&a.right) }
}

/// The next fresh variable name.
fn fresh_var(counter: &mut u32) -> (r: String)
    requires
        *old(counter) < u32::MAX,
    ensures
        r@ == fresh_name(*old(counter) as nat),
        *final(counter) == *old(counter) + 1,
{
    let mut s = String::new();
    s.append("_lir");
    push_decimal(&mut s, *counter as u64);
    proof {
        reveal_strlit("_lir");
    }
    assert(s@ =~= fresh_name(*old(counter) as nat));
    *counter = *counter + 1;
    s
}

proof fn lemma_wildcards_take(args: Seq<MirTerm>, i: int)
    requires
        0 <= i < args.len(),
    ensures
        wildcards(args.take(i + 1)) == wildcards(args.take(i)) + if args[i] is Wildcard { 1nat } else { 0nat },
        wildcards(args.take(i)) <= wildcards(args),
{
    assert(args.take(i + 1).drop_last() =~= args.take(i));
    lemma_wildcards_prefix(args, i);
}

proof fn lemma_wildcards_prefix(args: Seq<MirTerm>, i: int)
    requires
        0 <= i <= args.len(),
    ensures
        wildcards(args.take(i)) <= wildcards(args),
    decreases args.len() - i,
{
    if i < args.len() {
        lemma_wildcards_prefix(args, i + 1);
        assert(args.take(i + 1).drop_last() =~= args.take(i));
    } else {
        assert(args.take(i) =~= args);
    }
}

/// Lowers a scan to an atom, numbering its wildcards from `*counter`.
fn lower_scan(counter: &mut u32, scan: &MirScan) -> (a: LirAtom)
    requires
        *old(counter) + wildcards(scan.args@) <= u32::MAX,
    ensures
        scan_ok(*scan, a, *old(counter) as nat),
        *final(counter) == *old(counter) + wildcards(scan.args@),
{
    let ghost c0 = *counter as nat;
    let mut bindings: Vec<LirBinding> = Vec::new();
    let mut i: usize = 0;
    while i < scan.args.len()
        invariant
            i <= scan.args@.len(),
            bindings@.len() == i,
            *counter == c0 + wildcards(scan.args@.take(i as int)),
            c0 + wildcards(scan.args@) <= u32::MAX,
            forall|j: int|
                0 <= j < i ==> binding_ok(#[trigger] scan.args@[j], bindings@[j], c0 + wildcards(scan.args@.take(j))),
        decreases scan.args@.len() - i,
    {
        proof {
            lemma_wildcards_take(scan.args@, i as int);
            lemma_wildcards_prefix(scan.args@, i as int + 1);
        }
        let b = match &scan.args[i] {
            MirTerm::Var(name) => LirBinding::Var(name.clone()),
            MirTerm::Const(c) => LirBinding::Const(lower_const(c)),
            MirTerm::Wildcard => LirBinding::Var(fresh_var(counter)),
        };
        bindings.push(b);
        i = i + 1;
    }
    assert(scan.args@.take(scan.args@.len() as int) =~= scan.args@);
    LirAtom { relation: scan.predicate.clone(), bindings }
}

/// Variable names of a binding list, in order.
fn binding_var_names(bs: &Vec<LirBinding>) -> (r: Vec<String>)
    ensures
        views(r@) == binding_vars(bs@),
{
    let mut r: Vec<String> = Vec::new();
    let mut i: usize = 0;
    while i < bs.len()
        invariant
            i <= bs@.len(),
            views(r@) == binding_vars(bs@.take(i as int)),
        decreases bs@.len() - i,
    {
        proof {
            assert(bs@.take(i + 1).drop_last() =~= bs@.take(i as int));
        }
        match &bs[i] {
            LirBinding::Var(n) => {
                r.push(n.clone());
                proof {
                    assert(views(r@) =~= binding_vars(bs@.take(i + 1)));
                }
            },
            LirBinding::Const(_) => {},
        }
        i = i + 1;
    }
    assert(bs@.take(bs@.len() as int) =~= bs@);
    r
}

/// Whether `x` occurs (by content) in `v`.
fn contains_name(v: &Vec<String>, x: &str) -> (r: bool)
    ensures
        r == views(v@).contains(x@),
{
    let mut i: usize = 0;
    while i < v.len()
        invariant
            i <= v@.len(),
            forall|j: int| 0 <= j < i ==> v@[j]@ != x@,
        decreases v@.len() - i,
    {
        if str_eq(v[i].as_str(), x) {
            assert(views(v@)[i as int] == x@);
            return true;
        }
        i = i + 1;
    }
    proof {
        if views(v@).contains(x@) {
            let j = choose|j: int| 0 <= j < views(v@).len() && views(v@)[j] == x@;
            assert(v@[j]@ == x@);
        }
    }
    false
}

proof fn lemma_dedup_push(s: Seq<Seq<char>>, x: Seq<char>)
    ensures
        dedup(s.push(x)) == if dedup(s).contains(x) { dedup(s) } else { dedup(s).push(x) },
{
    assert(s.push(x).drop_last() =~= s);
}

proof fn lemma_dedup_contains(s: Seq<Seq<char>>, x: Seq<char>)
    ensures
        dedup(s).contains(x) == s.contains(x),
        dedup(s).no_duplicates(),
    decreases s.len(),
{
    if s.len() > 0 {
        lemma_dedup_contains(s.drop_last(), x);
        lemma_dedup_contains(s.drop_last(), s.last());
        assert(s =~= s.drop_last().push(s.last()));
        if s.contains(x) && !s.drop_last().contains(x) {
            assert(x == s.last());
        }
        if s.drop_last().contains(x) {
            let i = choose|i: int| 0 <= i < s.drop_last().len() && s.drop_last()[i] == x;
            assert(s[i] == x);
        }
        let d = dedup(s.drop_last());
        if !d.contains(s.last()) {
            assert(d.push(s.last()).last() == s.last());
            if d.push(s.last()).contains(x) && x != s.last() {
                let i = choose|i: int| 0 <= i < d.push(s.last()).len() && d.push(s.last())[i] == x;
                assert(d[i] == x);
            }
            if d.contains(x) {
                let i = choose|i: int| 0 <= i < d.len() && d[i] == x;
                assert(d.push(s.last())[i] == x);
            }
        }
    }
}

/// All variables of the atoms, each once, in order of first occurrence.
fn collect_all_variables(atoms: &Vec<LirAtom>) -> (r: Vec<String>)
    ensures
        views(r@) == dedup(atoms_vars(atoms@)),
{
    let mut vars: Vec<String> = Vec::new();
    let mut a: usize = 0;
    while a < atoms.len()
        invariant
            a <= atoms@.len(),
            views(vars@) == dedup(atoms_vars(atoms@.take(a as int))),
        decreases atoms@.len() - a,
    {
        let names = binding_var_names(&atoms[a].bindings);
        let ghost base = atoms_vars(atoms@.take(a as int));
        let mut k: usize = 0;
        while k < names.len()
            invariant
                a < atoms@.len(),
                k <= names@.len(),
                views(names@) == binding_vars(atoms@[a as int].bindings@),
                views(vars@) == dedup(base + views(names@).take(k as int)),
            decreases names@.len() - k,
        {
            proof {
                lemma_dedup_push(base + views(names@).take(k as int), names@[k as int]@);
                assert(base + views(names@).take(k + 1) =~= (base + views(names@).take(k as int)).push(names@[k as int]@));
            }
            if !contains_name(&vars, names[k].as_str()) {
                vars.push(names[k].clone());
                proof {
                    assert(views(vars@) =~= views(vars@.drop_last()).push(names@[k as int]@));
                }
            }
            k = k + 1;
        }
        proof {
            assert(atoms@.take(a + 1).drop_last() =~= atoms@.take(a as int));
            assert(views(names@).take(names@.len() as int) =~= views(names@));
        }
        a = a + 1;
    }
    assert(atoms@.take(atoms@.len() as int) =~= atoms@);
    vars
}


proof fn lemma_order_before_total(atoms: Seq<LirAtom>, a: Seq<char>, b: Seq<char>)
    ensures
        a != b ==> order_before(atoms, a, b) || order_before(atoms, b, a),
        !(order_before(atoms, a, b) && order_before(atoms, b, a)),
        !order_before(atoms, a, a),
{
    crate::text::lemma_seq_less_total(a, b);
}

proof fn lemma_order_before_trans(atoms: Seq<LirAtom>, a: Seq<char>, b: Seq<char>, c: Seq<char>)
    requires
        order_before(atoms, a, b),
        order_before(atoms, b, c),
    ensures
        order_before(atoms, a, c),
{
    if var_count(atoms, a) == var_count(atoms, b) && var_count(atoms, b) == var_count(atoms, c) {
        crate::text::lemma_seq_less_trans(a, b, c);
    }
}

/// Number of the atoms that bind variable `x`.
fn count_binding_atoms(atoms: &Vec<LirAtom>, x: &str) -> (r: usize)
    ensures
        r == var_count(atoms@, x@),
{
    let mut c: usize = 0;
    let mut a: usize = 0;
    while a < atoms.len()
        invariant
            a <= atoms@.len(),
            c == var_count(atoms@.take(a as int), x@),
            c <= a,
        decreases atoms@.len() - a,
    {
        let names = binding_var_names(&atoms[a].bindings);
        proof {
            assert(atoms@.take(a + 1).drop_last() =~= atoms@.take(a as int));
        }
        if contains_name(&names, x) {
            c = c + 1;
        }
        a = a + 1;
    }
    assert(atoms@.take(atoms@.len() as int) =~= atoms@);
    c
}

/// The variable order of a join: every variable of the atoms once, those
/// bound by more atoms first, ties broken by name.
fn compute_variable_order(atoms: &Vec<LirAtom>) -> (r: Vec<String>)
    ensures
        views(r@).no_duplicates(),
        forall|x: Seq<char>| views(r@).contains(x) <==> atoms_vars(atoms@).contains(x),
        forall|i: int, j: int|
            0 <= i < j < r@.len() ==> order_before(atoms@, #[trigger] r@[i]@, #[trigger] r@[j]@),
{
    let vars = collect_all_variables(atoms);
    proof {
        lemma_dedup_contains(atoms_vars(atoms@), seq![]);
    }
    let mut out: Vec<String> = Vec::new();
    let mut counts: Vec<usize> = Vec::new();
    let mut i: usize = 0;
    while i < vars.len()
        invariant
            i <= vars@.len(),
            views(vars@) == dedup(atoms_vars(atoms@)),
            views(vars@).no_duplicates(),
            counts@.len() == out@.len(),
            forall|j: int| 0 <= j < out@.len() ==> #[trigger] counts@[j] == var_count(atoms@, out@[j]@),
            forall|x: Seq<char>| views(out@).contains(x) <==> views(vars@).take(i as int).contains(x),
            views(out@).no_duplicates(),
            forall|a: int, b: int|
                0 <= a < b < out@.len() ==> order_before(atoms@, #[trigger] out@[a]@, #[trigger] out@[b]@),
        decreases vars@.len() - i,
    {
        let v = &vars[i];
        let cv = count_binding_atoms(atoms, v.as_str());
        let mut k: usize = 0;
        while k < out.len() && (counts[k] > cv || (counts[k] == cv && str_less(out[k].as_str(), v.as_str())))
            invariant
                k <= out@.len(),
                counts@.len() == out@.len(),
                forall|j: int| 0 <= j < out@.len() ==> #[trigger] counts@[j] == var_count(atoms@, out@[j]@),
                cv == var_count(atoms@, v@),
                forall|j: int| 0 <= j < k ==> order_before(atoms@, #[trigger] out@[j]@, v@),
            decreases out@.len() - k,
        {
            k = k + 1;
        }
        let ghost before = views(out@);
        assert(forall|x: Seq<char>| before.contains(x) <==> views(vars@).take(i as int).contains(x));
        proof {
            assert(!views(out@).contains(v@)) by {
                if views(out@).contains(v@) {
                    let j = choose|j: int| 0 <= j < views(out@).len() && views(out@)[j] == v@;
                    assert(views(vars@).take(i as int).contains(v@));
                    let m = choose|m: int| 0 <= m < i && views(vars@)[m] == v@;
                    assert(views(vars@)[i as int] == v@);
                }
            }
            if k < out@.len() {
                assert(!order_before(atoms@, out@[k as int]@, v@));
                assert(out@[k as int]@ != v@) by {
                    assert(views(out@)[k as int] == out@[k as int]@);
                }
                lemma_order_before_total(atoms@, out@[k as int]@, v@);
            }
        }
        out.insert(k, v.clone());
        counts.insert(k, cv);
        proof {
            let w = views(out@);
            assert(w =~= before.insert(k as int, v@));
            assert forall|a: int, b: int|
                0 <= a < b < out@.len() implies order_before(atoms@, #[trigger] out@[a]@, #[trigger] out@[b]@) by {
                assert(w[a] == out@[a]@ && w[b] == out@[b]@);
                if a < k && b == k {
                } else if a < k && b > k {
                } else if a == k && b > k {
                    if b - 1 > k {
                        lemma_order_before_trans(atoms@, v@, before[k as int], before[b - 1]);
                    }
                } else if a > k {
                }
            }
            assert(w.no_duplicates()) by {
                assert forall|a: int, b: int| 0 <= a < b < w.len() implies w[a] != w[b] by {
                    lemma_order_before_total(atoms@, w[a], w[b]);
                }
            }
            assert forall|x: Seq<char>| w.contains(x) <==> views(vars@).take(i + 1).contains(x) by {
                let t1 = views(vars@).take(i + 1);
                let t0 = views(vars@).take(i as int);
                assert(t1 =~= t0.push(v@));
                assert(t1[i as int] == v@);
                if t1.contains(x) && x != v@ {
                    let m = choose|m: int| 0 <= m < t1.len() && t1[m] == x;
                    assert(t0[m] == x);
                    assert(before.contains(x));
                }
                if t0.contains(x) {
                    let m = choose|m: int| 0 <= m < t0.len() && t0[m] == x;
                    assert(t1[m] == x);
                }
                if before.contains(x) {
                    let j = choose|j: int| 0 <= j < before.len() && before[j] == x;
                    if j < k {
                        assert(w[j] == x);
                    } else {
                        assert(w[j + 1] == x);
                    }
                }
                if x == v@ {
                    assert(w[k as int] == x);
                }
                if w.contains(x) {
                    let j = choose|j: int| 0 <= j < w.len() && w[j] == x;
                    if j < k {
                        assert(before[j] == x);
                    } else if j > k {
                        assert(before[j - 1] == x);
                    }
                }
            }
        }
        i = i + 1;
    }
    proof {
        assert(views(vars@).take(vars@.len() as int) =~= views(vars@));
        assert forall|x: Seq<char>| views(out@).contains(x) <==> atoms_vars(atoms@).contains(x) by {
            lemma_dedup_contains(atoms_vars(atoms@), x);
        }
    }
    out
}


/// The columns a plan produces.
fn collect_plan_columns(plan: &LirPlan) -> (r: Vec<String>)
    ensures
        views(r@) == plan_cols(*plan),
    decreases plan,
{
    match plan {
        LirPlan::Scan { bindings, .. } => binding_var_names(bindings),
        LirPlan::WcoJoin { project, .. } => copy_strings(project),
        LirPlan::Filter { input, .. } => collect_plan_columns(input),
        LirPlan::Project { columns, .. } => copy_strings(columns),
        LirPlan::Union { inputs } => {
            if inputs.len() > 0 {
                collect_plan_columns(&inputs[0])
            } else {
                let r: Vec<String> = Vec::new();
                assert(views(r@) =~= Seq::<Seq<char>>::empty());
                r
            }
        },
        LirPlan::AntiJoin { positive, .. } => collect_plan_columns(positive),
        LirPlan::Aggregate { group_by, result_column, .. } => {
            let mut c = copy_strings(group_by);
            c.push(result_column.clone());
            assert(views(c@) =~= views(group_by@).push(result_column@));
            c
        },
        LirPlan::Extend { input, column, .. } => {
            let mut c = collect_plan_columns(input);
            let ghost before = views(c@);
            c.push(column.clone());
            assert(views(c@) =~= before.push(column@));
            c
        },
        LirPlan::Constant { columns, .. } => copy_strings(columns),
    }
}


/// The parts of a conjunction that `f` picks, in order.
pub open spec fn pick<T>(atoms: Seq<MirAtom>, f: spec_fn(MirAtom) -> Option<T>) -> Seq<T>
    decreases atoms.len(),
{
    if atoms.len() == 0 {
        Seq::empty()
    } else {
        let r = pick(atoms.drop_last(), f);
        match f(atoms.last()) {
            Some(x) => r.push(x),
            None => r,
        }
    }
}

pub open spec fn scan_of_picker() -> spec_fn(MirAtom) -> Option<MirScan> {
    |a: MirAtom| scan_of(a)
}

pub open spec fn scan_of(a: MirAtom) -> Option<MirScan> {
    match a {
        MirAtom::Scan(s) => Some(s),
        _ => None,
    }
}

pub open spec fn neg_scan_of_picker() -> spec_fn(MirAtom) -> Option<MirScan> {
    |a: MirAtom| neg_scan_of(a)
}

pub open spec fn neg_scan_of(a: MirAtom) -> Option<MirScan> {
    match a {
        MirAtom::NegScan(s) => Some(s),
        _ => None,
    }
}

pub open spec fn guard_of_picker() -> spec_fn(MirAtom) -> Option<MirGuard> {
    |a: MirAtom| guard_of(a)
}

pub open spec fn guard_of(a: MirAtom) -> Option<MirGuard> {
    match a {
        MirAtom::Guard(g) => Some(g),
        _ => None,
    }
}

pub open spec fn assign_of_picker() -> spec_fn(MirAtom) -> Option<MirAssign> {
    |a: MirAtom| assign_of(a)
}

pub open spec fn assign_of(a: MirAtom) -> Option<MirAssign> {
    match a {
        MirAtom::Assign(x) => Some(x),
        _ => None,
    }
}

pub open spec fn aggregate_of_picker() -> spec_fn(MirAtom) -> Option<MirAggregate> {
    |a: MirAtom| aggregate_of(a)
}

pub open spec fn aggregate_of(a: MirAtom) -> Option<MirAggregate> {
    match a {
        MirAtom::Aggregate(x) => Some(x),
        _ => None,
    }
}

pub open spec fn type_check_of_picker() -> spec_fn(MirAtom) -> Option<MirTypeCheck> {
    |a: MirAtom| type_check_of(a)
}

pub open spec fn type_check_of(a: MirAtom) -> Option<MirTypeCheck> {
    match a {
        MirAtom::TypeCheck(x) => Some(x),
        _ => None,
    }
}

/// Positive scans of a conjunction.
pub open spec fn pos_scans(atoms: Seq<MirAtom>) -> Seq<MirScan> {
    pick(atoms, scan_of_picker())
}

/// Negated scans of a conjunction.
pub open spec fn neg_scans(atoms: Seq<MirAtom>) -> Seq<MirScan> {
    pick(atoms, neg_scan_of_picker())
}

/// Guards of a conjunction.
pub open spec fn guards(atoms: Seq<MirAtom>) -> Seq<MirGuard> {
    pick(atoms, guard_of_picker())
}

/// Assignments of a conjunction.
pub open spec fn assigns(atoms: Seq<MirAtom>) -> Seq<MirAssign> {
    pick(atoms, assign_of_picker())
}

/// Aggregates of a conjunction.
pub open spec fn aggregates(atoms: Seq<MirAtom>) -> Seq<MirAggregate> {
    pick(atoms, aggregate_of_picker())
}

/// Type checks of a conjunction.
pub open spec fn type_checks(atoms: Seq<MirAtom>) -> Seq<MirTypeCheck> {
    pick(atoms, type_check_of_picker())
}

/// Number of wildcards in a list of scans.
pub open spec fn scans_wildcards(ss: Seq<MirScan>) -> nat
    decreases ss.len(),
{
    if ss.len() == 0 {
        0
    } else {
        scans_wildcards(ss.drop_last()) + wildcards(ss.last().args@)
    }
}

/// Fresh variables a conjunction consumes: its positive, then its negated scans.
pub open spec fn conj_wildcards(atoms: Seq<MirAtom>) -> nat {
    scans_wildcards(pos_scans(atoms)) + scans_wildcards(neg_scans(atoms))
}

proof fn lemma_pick_step<T>(atoms: Seq<MirAtom>, i: int, f: spec_fn(MirAtom) -> Option<T>)
    requires
        0 <= i < atoms.len(),
    ensures
        pick(atoms.take(i + 1), f) == match f(atoms[i]) {
            Some(x) => pick(atoms.take(i), f).push(x),
            None => pick(atoms.take(i), f),
        },
{
    assert(atoms.take(i + 1).drop_last() =~= atoms.take(i));
}

proof fn lemma_pick_split<T>(atoms: Seq<MirAtom>, i: int, f: spec_fn(MirAtom) -> Option<T>)
    requires
        0 <= i <= atoms.len(),
    ensures
        pick(atoms, f) == pick(atoms.take(i), f) + pick(atoms.skip(i), f),
    decreases atoms.len(),
{
    if i == atoms.len() {
        assert(atoms.take(i) =~= atoms);
        assert(atoms.skip(i) =~= Seq::<MirAtom>::empty());
        assert(pick(atoms, f) + Seq::<T>::empty() =~= pick(atoms, f));
    } else {
        lemma_pick_split(atoms.drop_last(), i, f);
        assert(atoms.drop_last().take(i) =~= atoms.take(i));
        assert(atoms.skip(i).drop_last() =~= atoms.drop_last().skip(i));
        assert(atoms.skip(i).last() == atoms.last());
        let a = pick(atoms.take(i), f);
        let b = pick(atoms.drop_last().skip(i), f);
        match f(atoms.last()) {
            Some(x) => {
                assert((a + b).push(x) =~= a + b.push(x));
            },
            None => {},
        }
    }
}

proof fn lemma_pick_whole<T>(atoms: Seq<MirAtom>, f: spec_fn(MirAtom) -> Option<T>)
    ensures
        pick(atoms.take(atoms.len() as int), f) == pick(atoms, f),
{
    assert(atoms.take(atoms.len() as int) =~= atoms);
}

proof fn lemma_scans_wildcards_concat(a: Seq<MirScan>, b: Seq<MirScan>)
    ensures
        scans_wildcards(a + b) == scans_wildcards(a) + scans_wildcards(b),
    decreases b.len(),
{
    if b.len() == 0 {
        assert(a + b =~= a);
    } else {
        lemma_scans_wildcards_concat(a, b.drop_last());
        assert((a + b).drop_last() =~= a + b.drop_last());
    }
}

proof fn lemma_scans_wildcards_push(a: Seq<MirScan>, s: MirScan)
    ensures
        scans_wildcards(a.push(s)) == scans_wildcards(a) + wildcards(s.args@),
{
    assert(a.push(s).drop_last() =~= a);
}

proof fn lemma_prefix_wildcards(atoms: Seq<MirAtom>, i: int, f: spec_fn(MirAtom) -> Option<MirScan>)
    requires
        0 <= i <= atoms.len(),
    ensures
        scans_wildcards(pick(atoms.take(i), f)) <= scans_wildcards(pick(atoms, f)),
{
    lemma_pick_split(atoms, i, f);
    lemma_scans_wildcards_concat(pick(atoms.take(i), f), pick(atoms.skip(i), f));
}


/// `a` is the atom a type check becomes: a scan of the class's
/// characteristic predicate on the checked variable.
pub open spec fn type_check_atom_ok(tc: MirTypeCheck, a: LirAtom) -> bool {
    &&& a.relation@ == tc.type_predicate@
    &&& a.bindings@.len() == 1
    &&& a.bindings@[0] matches LirBinding::Var(n) && n@ == tc.var@
}

/// `a` are the join atoms of the positive scans followed by the type checks,
/// the wildcards numbered from `k` left to right.
pub open spec fn join_atoms_ok(scans: Seq<MirScan>, tcs: Seq<MirTypeCheck>, k: nat, a: Seq<LirAtom>) -> bool {
    &&& a.len() == scans.len() + tcs.len()
    &&& forall|i: int|
        0 <= i < scans.len() ==> scan_ok(#[trigger] scans[i], a[i], k + scans_wildcards(scans.take(i)))
    &&& forall|j: int| 0 <= j < tcs.len() ==> type_check_atom_ok(#[trigger] tcs[j], a[scans.len() + j])
}

/// `vo` is the variable order of a join over `a`: each variable once, in
/// `order_before` order.
pub open spec fn var_order_ok(a: Seq<LirAtom>, vo: Seq<Seq<char>>) -> bool {
    &&& vo.no_duplicates()
    &&& forall|x: Seq<char>| vo.contains(x) <==> atoms_vars(a).contains(x)
    &&& forall|i: int, j: int| 0 <= i < j < vo.len() ==> order_before(a, #[trigger] vo[i], #[trigger] vo[j])
}

/// `p` joins the atoms `a`: a one-row constant with no columns when there
/// are none, a scan when there is one, and a worst-case optimal join that
/// keeps every variable otherwise.
pub open spec fn join_plan_ok(a: Seq<LirAtom>, p: LirPlan) -> bool {
    if a.len() == 0 {
        p matches LirPlan::Constant { columns, rows } && columns@.len() == 0 && rows@.len() == 1
            && rows@[0]@.len() == 0
    } else if a.len() == 1 {
        p matches LirPlan::Scan { relation, bindings } && relation == a[0].relation && bindings
            == a[0].bindings
    } else {
        p matches LirPlan::WcoJoin { atoms, variable_order, project } && atoms@ == a && var_order_ok(
            a,
            views(variable_order@),
        ) && views(project@) == dedup(atoms_vars(a))
    }
}

/// Builds the join of the given atoms.
fn build_join_plan(atoms: Vec<LirAtom>) -> (p: LirPlan)
    ensures
        join_plan_ok(atoms@, p),
{
    if atoms.len() == 0 {
        let mut rows: Vec<Vec<LirValue>> = Vec::new();
        rows.push(Vec::new());
        return LirPlan::Constant { columns: Vec::new(), rows };
    }
    if atoms.len() == 1 {
        let ghost a0 = atoms@[0];
        let mut atoms = atoms;
        let atom = atoms.pop().unwrap();
        assert(atom == a0);
        return LirPlan::Scan { relation: atom.relation, bindings: atom.bindings };
    }
    let variable_order = compute_variable_order(&atoms);
    let project = collect_all_variables(&atoms);
    proof {
        assert forall|i: int, j: int| 0 <= i < j < views(variable_order@).len() implies order_before(
            atoms@,
            #[trigger] views(variable_order@)[i],
            #[trigger] views(variable_order@)[j],
        ) by {
            assert(views(variable_order@)[i] == variable_order@[i]@);
            assert(views(variable_order@)[j] == variable_order@[j]@);
        }
    }
    LirPlan::WcoJoin { atoms, variable_order, project }
}

/// Removes `n` layers of filters, extends and anti-joins from the top of a
/// plan.
pub open spec fn peel(p: LirPlan, n: nat) -> LirPlan
    decreases n,
{
    if n == 0 {
        p
    } else {
        match p {
            LirPlan::Filter { input, .. } => peel(*input, (n - 1) as nat),
            LirPlan::Extend { input, .. } => peel(*input, (n - 1) as nat),
            LirPlan::AntiJoin { positive, .. } => peel(*positive, (n - 1) as nat),
            _ => p,
        }
    }
}

proof fn lemma_peel_add(p: LirPlan, a: nat, b: nat)
    ensures
        peel(p, a + b) == peel(peel(p, a), b),
    decreases a,
{
    if a > 0 {
        match p {
            LirPlan::Filter { input, .. } => {
                lemma_peel_add(*input, (a - 1) as nat, b);
                assert((a + b - 1) as nat == (a - 1) as nat + b);
            },
            LirPlan::Extend { input, .. } => {
                lemma_peel_add(*input, (a - 1) as nat, b);
                assert((a + b - 1) as nat == (a - 1) as nat + b);
            },
            LirPlan::AntiJoin { positive, .. } => {
                lemma_peel_add(*positive, (a - 1) as nat, b);
                assert((a + b - 1) as nat == (a - 1) as nat + b);
            },
            _ => {
                lemma_peel_fixed(p, b);
            },
        }
    }
}

proof fn lemma_peel_fixed(p: LirPlan, n: nat)
    requires
        !(p is Filter || p is Extend || p is AntiJoin),
    ensures
        peel(p, n) == p,
{
}

/// `f` is the filter condition of guard `g`.
pub open spec fn guard_ok(g: MirGuard, f: LirFilter) -> bool {
    f matches LirFilter::Comparison { left, op, right } && operand_ok(g.left, left) && op == comp_op_of(g.op)
        && operand_ok(g.right, right)
}

/// The top `gs.len()` layers of `p` are filters for the guards, the last
/// guard outermost.
pub open spec fn filters_ok(p: LirPlan, gs: Seq<MirGuard>) -> bool
    decreases gs.len(),
{
    if gs.len() == 0 {
        true
    } else {
        p matches LirPlan::Filter { input, condition } && guard_ok(gs.last(), condition) && filters_ok(
            *input,
            gs.drop_last(),
        )
    }
}

/// The top `asg.len()` layers of `p` compute the assigned columns, the last
/// assignment outermost.
pub open spec fn extends_ok(p: LirPlan, asg: Seq<MirAssign>) -> bool
    decreases asg.len(),
{
    if asg.len() == 0 {
        true
    } else {
        p matches LirPlan::Extend { input, column, expr } && column@ == asg.last().result_var@ && expr_ok(
            asg.last().expr,
            expr,
        ) && extends_ok(*input, asg.drop_last())
    }
}

/// The elements of `s` that occur in `t`, in order.
pub open spec fn keep_in(s: Seq<Seq<char>>, t: Seq<Seq<char>>) -> Seq<Seq<char>>
    decreases s.len(),
{
    if s.len() == 0 {
        Seq::empty()
    } else if t.contains(s.last()) {
        keep_in(s.drop_last(), t).push(s.last())
    } else {
        keep_in(s.drop_last(), t)
    }
}

/// `p` is the anti-join of `positive` with negated scan `neg`, whose
/// wildcards are numbered from `k`: the negative side scans the relation and
/// the key is the negated scan's variables that the positive side produces.
pub open spec fn anti_join_ok(p: LirPlan, positive: LirPlan, neg: MirScan, k: nat) -> bool {
    p matches LirPlan::AntiJoin { positive: pp, negative, key_columns } && *pp == positive
        && (*negative matches LirPlan::Scan { relation, bindings } && scan_ok(
        neg,
        LirAtom { relation, bindings },
        k,
    ) && views(key_columns@) == keep_in(binding_vars(bindings@), plan_cols(positive)))
}

/// The top `negs.len()` layers of `p` are anti-joins for the negated scans,
/// the last outermost, with wildcards numbered from `k` in scan order.
pub open spec fn anti_joins_ok(p: LirPlan, negs: Seq<MirScan>, k: nat) -> bool
    decreases negs.len(),
{
    if negs.len() == 0 {
        true
    } else {
        p matches LirPlan::AntiJoin { positive, .. } && anti_join_ok(
            p,
            *positive,
            negs.last(),
            k + scans_wildcards(negs.drop_last()),
        ) && anti_joins_ok(*positive, negs.drop_last(), k)
    }
}

/// `p` is the plan of aggregate `agg`: its function over a scan of the
/// sub-predicate binding the group-by columns and the aggregated variable.
pub open spec fn aggregate_ok(p: LirPlan, agg: MirAggregate) -> bool {
    p matches LirPlan::Aggregate { input, group_by, function, agg_column, result_column }
        && views(group_by@) == views(agg.group_by@) && function == agg_fn_of(agg.function)
        && agg_column@ == agg.agg_var@ && result_column@ == agg.result_var@
        && (*input matches LirPlan::Scan { relation, bindings } && relation@ == agg.sub_predicate@
        && bindings@.len() == agg.group_by@.len() + 1 && binding_vars(bindings@) == views(
        agg.group_by@,
    ).push(agg.agg_var@))
}

fn lower_guard(g: &MirGuard) -> (f: LirFilter)
    ensures
        guard_ok(*g, f),
{
    LirFilter::Comparison { left: lower_operand(&g.left), op: lower_comp_op(g.op), right: lower_operand(&g.right) }
}

/// The names of `s` that occur in `t`, in order.
fn keep_names_in(s: &Vec<String>, t: &Vec<String>) -> (r: Vec<String>)
    ensures
        views(r@) == keep_in(views(s@), views(t@)),
{
    let mut r: Vec<String> = Vec::new();
    let mut i: usize = 0;
    while i < s.len()
        invariant
            i <= s@.len(),
            views(r@) == keep_in(views(s@).take(i as int), views(t@)),
        decreases s@.len() - i,
    {
        proof {
            assert(views(s@).take(i + 1).drop_last() =~= views(s@).take(i as int));
            assert(views(s@).take(i + 1).last() == s@[i as int]@);
        }
        if contains_name(t, s[i].as_str()) {
            let ghost before = views(r@);
            r.push(s[i].clone());
            assert(views(r@) =~= before.push(s@[i as int]@));
        }
        i = i + 1;
    }
    assert(views(s@).take(s@.len() as int) =~= views(s@));
    r
}

/// Anti-join of `positive` with the negated scan `neg`.
fn build_anti_join(counter: &mut u32, positive: LirPlan, neg: &MirScan) -> (p: LirPlan)
    requires
        *old(counter) + wildcards(neg.args@) <= u32::MAX,
    ensures
        anti_join_ok(p, positive, *neg, *old(counter) as nat),
        *final(counter) == *old(counter) + wildcards(neg.args@),
{
    let neg_atom = lower_scan(counter, neg);
    let pos_vars = collect_plan_columns(&positive);
    let neg_vars = binding_var_names(&neg_atom.bindings);
    let key_columns = keep_names_in(&neg_vars, &pos_vars);
    let LirAtom { relation, bindings } = neg_atom;
    let negative = LirPlan::Scan { relation, bindings };
    LirPlan::AntiJoin { positive: Box::new(positive), negative: Box::new(negative), key_columns }
}

/// The plan of an aggregate. The plan built so far is not joined in: such a
/// join is only formed between two scans, and an aggregate plan is not a
/// scan, so the aggregate plan stands alone.
fn build_aggregate(input: LirPlan, agg: &MirAggregate) -> (p: LirPlan)
    ensures
        aggregate_ok(p, *agg),
{
    let mut bindings: Vec<LirBinding> = Vec::new();
    let mut i: usize = 0;
    while i < agg.group_by.len()
        invariant
            i <= agg.group_by@.len(),
            bindings@.len() == i,
            binding_vars(bindings@) == views(agg.group_by@).take(i as int),
        decreases agg.group_by@.len() - i,
    {
        let ghost before = bindings@;
        bindings.push(LirBinding::Var(agg.group_by[i].clone()));
        proof {
            assert(bindings@.drop_last() =~= before);
            assert(views(agg.group_by@).take(i + 1) =~= views(agg.group_by@).take(i as int).push(
                agg.group_by@[i as int]@,
            ));
        }
        i = i + 1;
    }
    let ghost before = bindings@;
    bindings.push(LirBinding::Var(agg.agg_var.clone()));
    proof {
        assert(bindings@.drop_last() =~= before);
        assert(views(agg.group_by@).take(agg.group_by@.len() as int) =~= views(agg.group_by@));
    }
    let sub_scan = LirPlan::Scan { relation: agg.sub_predicate.clone(), bindings };
    LirPlan::Aggregate {
        input: Box::new(sub_scan),
        group_by: copy_strings(&agg.group_by),
        function: lower_agg_function(agg.function),
        agg_column: agg.agg_var.clone(),
        result_column: agg.result_var.clone(),
    }
}


/// `p` is the plan of a conjunction before its final projection, with
/// fresh variables numbered from `k`: the last aggregate's plan when there
/// are aggregates, and otherwise anti-joins over extends over filters over
/// the join of the positive scans and type checks.
pub open spec fn layers_ok(atoms: Seq<MirAtom>, k: nat, p: LirPlan) -> bool {
    let pos = pos_scans(atoms);
    let negs = neg_scans(atoms);
    let gs = guards(atoms);
    let asg = assigns(atoms);
    let aggs = aggregates(atoms);
    if aggs.len() > 0 {
        aggregate_ok(p, aggs.last())
    } else {
        &&& anti_joins_ok(p, negs, k + scans_wildcards(pos))
        &&& extends_ok(peel(p, negs.len()), asg)
        &&& filters_ok(peel(p, negs.len() + asg.len()), gs)
        &&& join_plan_ok_for(pos, type_checks(atoms), k, peel(p, negs.len() + asg.len() + gs.len()))
    }
}

/// `p` joins the atoms of the given scans and type checks.
pub open spec fn join_plan_ok_for(scans: Seq<MirScan>, tcs: Seq<MirTypeCheck>, k: nat, p: LirPlan) -> bool {
    let n = scans.len() + tcs.len();
    if n == 0 {
        join_plan_ok(Seq::empty(), p)
    } else if n == 1 {
        p matches LirPlan::Scan { relation, bindings } && join_atoms_ok(
            scans,
            tcs,
            k,
            seq![LirAtom { relation, bindings }],
        )
    } else {
        p matches LirPlan::WcoJoin { atoms, .. } && join_atoms_ok(scans, tcs, k, atoms@) && join_plan_ok(
            atoms@,
            p,
        )
    }
}

/// Some column of `s` is not in `t`.
pub open spec fn has_extra(s: Seq<Seq<char>>, t: Seq<Seq<char>>) -> bool {
    exists|i: int| 0 <= i < s.len() && !t.contains(#[trigger] s[i])
}

/// `p` is the plan of a conjunction for target columns `cols`: the layered
/// plan, under a projection onto `cols` exactly when it produces a column
/// outside them.
pub open spec fn conj_ok(atoms: Seq<MirAtom>, cols: Seq<Seq<char>>, k: nat, p: LirPlan) -> bool {
    ||| p matches LirPlan::Project { input, columns } && views(columns@) == cols && layers_ok(
        atoms,
        k,
        *input,
    ) && has_extra(plan_cols(*input), cols)
    ||| layers_ok(atoms, k, p) && !has_extra(plan_cols(p), cols)
}

/// Whether some name of `s` is not in `t`.
fn any_outside(s: &Vec<String>, t: &Vec<String>) -> (r: bool)
    ensures
        r == has_extra(views(s@), views(t@)),
{
    let mut i: usize = 0;
    while i < s.len()
        invariant
            i <= s@.len(),
            forall|j: int| 0 <= j < i ==> views(t@).contains(#[trigger] views(s@)[j]),
        decreases s@.len() - i,
    {
        if !contains_name(t, s[i].as_str()) {
            assert(!views(t@).contains(views(s@)[i as int]));
            return true;
        }
        i = i + 1;
    }
    false
}


/// Lowers a conjunction to a plan for the given target columns, numbering
/// its wildcards from `*counter`.
fn lower_conjunction(counter: &mut u32, atoms: &Vec<MirAtom>, target_columns: &Vec<String>) -> (p: LirPlan)
    requires
        *old(counter) + conj_wildcards(atoms@) <= u32::MAX,
    ensures
        conj_ok(atoms@, views(target_columns@), *old(counter) as nat, p),
        *final(counter) == *old(counter) + conj_wildcards(atoms@),
{
    let ghost k0 = *counter as nat;
    let ghost pos = pos_scans(atoms@);
    let ghost tcs = type_checks(atoms@);
    let n = atoms.len();
    // Positive scans become join atoms.
    let mut lir_atoms: Vec<LirAtom> = Vec::new();
    let mut i: usize = 0;
    while i < n
        invariant
            n == atoms@.len(),
            i <= n,
            pos == pos_scans(atoms@),
            k0 + conj_wildcards(atoms@) <= u32::MAX,
            *counter == k0 + scans_wildcards(pos_scans(atoms@.take(i as int))),
            lir_atoms@.len() == pos_scans(atoms@.take(i as int)).len(),
            forall|j: int|
                0 <= j < lir_atoms@.len() ==> scan_ok(
                    #[trigger] pos_scans(atoms@.take(i as int))[j],
                    lir_atoms@[j],
                    k0 + scans_wildcards(pos_scans(atoms@.take(i as int)).take(j)),
                ),
        decreases n - i,
    {
        proof {
            lemma_pick_step(atoms@, i as int, scan_of_picker());
            lemma_prefix_wildcards(atoms@, i + 1, scan_of_picker());
        }
        let ghost before = pos_scans(atoms@.take(i as int));
        match &atoms[i] {
            MirAtom::Scan(sc) => {
                proof {
                    lemma_scans_wildcards_push(before, *sc);
                }
                let a = lower_scan(counter, sc);
                lir_atoms.push(a);
                proof {
                    let after = pos_scans(atoms@.take(i + 1));
                    assert(after == before.push(*sc));
                    assert forall|j: int| 0 <= j < lir_atoms@.len() implies scan_ok(
                        #[trigger] after[j],
                        lir_atoms@[j],
                        k0 + scans_wildcards(after.take(j)),
                    ) by {
                        assert(after.take(j) =~= if j < before.len() { before.take(j) } else { before });
                        if j < before.len() {
                            assert(after[j] == before[j]);
                        }
                    }
                }
            },
            _ => {},
        }
        i = i + 1;
    }
    proof {
        lemma_pick_whole(atoms@, scan_of_picker());
    }
    let ghost kn = *counter as nat;
    // Type checks become scans of the characteristic predicates.
    let ghost scan_atoms = lir_atoms@;
    i = 0;
    while i < n
        invariant
            n == atoms@.len(),
            i <= n,
            tcs == type_checks(atoms@),
            lir_atoms@.len() == scan_atoms.len() + type_checks(atoms@.take(i as int)).len(),
            forall|j: int| 0 <= j < scan_atoms.len() ==> #[trigger] lir_atoms@[j] == scan_atoms[j],
            forall|j: int|
                0 <= j < type_checks(atoms@.take(i as int)).len() ==> type_check_atom_ok(
                    #[trigger] type_checks(atoms@.take(i as int))[j],
                    lir_atoms@[scan_atoms.len() + j],
                ),
        decreases n - i,
    {
        proof {
            lemma_pick_step(atoms@, i as int, type_check_of_picker());
        }
        match &atoms[i] {
            MirAtom::TypeCheck(tc) => {
                let mut bindings: Vec<LirBinding> = Vec::new();
                bindings.push(LirBinding::Var(tc.var.clone()));
                lir_atoms.push(LirAtom { relation: tc.type_predicate.clone(), bindings });
            },
            _ => {},
        }
        i = i + 1;
    }
    proof {
        lemma_pick_whole(atoms@, type_check_of_picker());
        assert(join_atoms_ok(pos, tcs, k0, lir_atoms@));
    }
    let ghost all_atoms = lir_atoms@;
    let mut plan = build_join_plan(lir_atoms);
    let ghost joined = plan;
    proof {
        if all_atoms.len() == 1 {
            assert(all_atoms =~= seq![all_atoms[0]]);
        }
        assert(join_plan_ok_for(pos, tcs, k0, joined));
    }
    // Guards become filters.
    i = 0;
    while i < n
        invariant
            n == atoms@.len(),
            i <= n,
            filters_ok(plan, guards(atoms@.take(i as int))),
            peel(plan, guards(atoms@.take(i as int)).len()) == joined,
        decreases n - i,
    {
        proof {
            lemma_pick_step(atoms@, i as int, guard_of_picker());
        }
        let ghost before = guards(atoms@.take(i as int));
        match &atoms[i] {
            MirAtom::Guard(g) => {
                let condition = lower_guard(g);
                plan = LirPlan::Filter { input: Box::new(plan), condition };
                proof {
                    assert(before.push(*g).drop_last() =~= before);
                }
            },
            _ => {},
        }
        i = i + 1;
    }
    proof {
        lemma_pick_whole(atoms@, guard_of_picker());
    }
    let ghost filtered = plan;
    // Assignments become extends.
    i = 0;
    while i < n
        invariant
            n == atoms@.len(),
            i <= n,
            extends_ok(plan, assigns(atoms@.take(i as int))),
            peel(plan, assigns(atoms@.take(i as int)).len()) == filtered,
        decreases n - i,
    {
        proof {
            lemma_pick_step(atoms@, i as int, assign_of_picker());
        }
        let ghost before = assigns(atoms@.take(i as int));
        match &atoms[i] {
            MirAtom::Assign(a) => {
                let expr = lower_arith_expr(&a.expr);
                plan = LirPlan::Extend { input: Box::new(plan), column: a.result_var.clone(), expr };
                proof {
                    assert(before.push(*a).drop_last() =~= before);
                }
            },
            _ => {},
        }
        i = i + 1;
    }
    proof {
        lemma_pick_whole(atoms@, assign_of_picker());
    }
    let ghost extended = plan;
    // Negated scans become anti-joins.
    i = 0;
    while i < n
        invariant
            n == atoms@.len(),
            i <= n,
            kn == k0 + scans_wildcards(pos),
            k0 + conj_wildcards(atoms@) <= u32::MAX,
            pos == pos_scans(atoms@),
            *counter == kn + scans_wildcards(neg_scans(atoms@.take(i as int))),
            anti_joins_ok(plan, neg_scans(atoms@.take(i as int)), kn),
            peel(plan, neg_scans(atoms@.take(i as int)).len()) == extended,
        decreases n - i,
    {
        proof {
            lemma_pick_step(atoms@, i as int, neg_scan_of_picker());
            lemma_prefix_wildcards(atoms@, i + 1, neg_scan_of_picker());
        }
        let ghost before = neg_scans(atoms@.take(i as int));
        match &atoms[i] {
            MirAtom::NegScan(sc) => {
                proof {
                    lemma_scans_wildcards_push(before, *sc);
                }
                let ghost old_plan = plan;
                plan = build_anti_join(counter, plan, sc);
                proof {
                    assert(before.push(*sc).drop_last() =~= before);
                    assert(plan matches LirPlan::AntiJoin { positive, .. } && *positive == old_plan);
                }
            },
            _ => {},
        }
        i = i + 1;
    }
    proof {
        lemma_pick_whole(atoms@, neg_scan_of_picker());
    }
    let ghost anti_joined = plan;
    // Aggregates replace the plan by their own.
    i = 0;
    while i < n
        invariant
            n == atoms@.len(),
            i <= n,
            aggregates(atoms@.take(i as int)).len() > 0 ==> aggregate_ok(
                plan,
                aggregates(atoms@.take(i as int)).last(),
            ),
            aggregates(atoms@.take(i as int)).len() == 0 ==> plan == anti_joined,
        decreases n - i,
    {
        proof {
            lemma_pick_step(atoms@, i as int, aggregate_of_picker());
        }
        match &atoms[i] {
            MirAtom::Aggregate(a) => {
                plan = build_aggregate(plan, a);
            },
            _ => {},
        }
        i = i + 1;
    }
    proof {
        lemma_pick_whole(atoms@, aggregate_of_picker());
        let nn = neg_scans(atoms@).len();
        let na = assigns(atoms@).len();
        let ng = guards(atoms@).len();
        lemma_peel_add(anti_joined, nn, na);
        lemma_peel_add(anti_joined, nn + na, ng);
        assert(layers_ok(atoms@, k0, plan));
    }
    let available = collect_plan_columns(&plan);
    if any_outside(&available, target_columns) {
        LirPlan::Project { input: Box::new(plan), columns: copy_strings(target_columns) }
    } else {
        plan
    }
}


/// Parameter names of a predicate, in order.
pub open spec fn param_names(ps: Seq<MirParam>) -> Seq<Seq<char>> {
    ps.map_values(|p: MirParam| p.name@)
}

/// Fresh variables consumed by a list of clauses.
pub open spec fn clauses_wildcards(cl: Seq<Vec<MirAtom>>) -> nat
    decreases cl.len(),
{
    if cl.len() == 0 {
        0
    } else {
        clauses_wildcards(cl.drop_last()) + conj_wildcards(cl.last()@)
    }
}

/// Fresh variables consumed by a predicate.
pub open spec fn pred_wildcards(p: MirPredicate) -> nat {
    match p.body {
        MirBody::Abstract => 0,
        MirBody::Conjunction(atoms) => conj_wildcards(atoms@),
        MirBody::Disjunction(cl) => clauses_wildcards(cl@),
    }
}

/// `r` is the rule of predicate `p` for the conjunction `atoms`.
pub open spec fn rule_ok(r: LirRule, p: MirPredicate, atoms: Seq<MirAtom>, k: nat) -> bool {
    &&& r.target@ == p.name@
    &&& views(r.target_columns@) == param_names(p.params@)
    &&& conj_ok(atoms, param_names(p.params@), k, r.body)
}

/// `rules` are the rules of predicate `p` with fresh variables numbered
/// from `k`: none for an abstract predicate, one per clause otherwise.
pub open spec fn pred_rules_ok(p: MirPredicate, k: nat, rules: Seq<LirRule>) -> bool {
    match p.body {
        MirBody::Abstract => rules.len() == 0,
        MirBody::Conjunction(atoms) => rules.len() == 1 && rule_ok(rules[0], p, atoms@, k),
        MirBody::Disjunction(cl) => rules.len() == cl@.len() && forall|i: int|
            0 <= i < cl@.len() ==> rule_ok(#[trigger] rules[i], p, cl@[i]@, k + clauses_wildcards(cl@.take(i))),
    }
}

/// Number of rules a predicate lowers to.
pub open spec fn pred_rule_count(p: MirPredicate) -> nat {
    match p.body {
        MirBody::Abstract => 0,
        MirBody::Conjunction(_) => 1,
        MirBody::Disjunction(cl) => cl@.len(),
    }
}

/// Number of rules a list of predicates lowers to.
pub open spec fn preds_rule_count(ps: Seq<MirPredicate>) -> nat
    decreases ps.len(),
{
    if ps.len() == 0 {
        0
    } else {
        preds_rule_count(ps.drop_last()) + pred_rule_count(ps.last())
    }
}

/// Fresh variables consumed by a list of predicates.
pub open spec fn preds_wildcards(ps: Seq<MirPredicate>) -> nat
    decreases ps.len(),
{
    if ps.len() == 0 {
        0
    } else {
        preds_wildcards(ps.drop_last()) + pred_wildcards(ps.last())
    }
}

/// `rules` are the rules of the predicates, predicate by predicate, with
/// fresh variables numbered from zero across the whole program.
pub open spec fn lowering_ok(ps: Seq<MirPredicate>, rules: Seq<LirRule>) -> bool {
    &&& rules.len() == preds_rule_count(ps)
    &&& forall|i: int|
        0 <= i < ps.len() ==> pred_rules_ok(
            #[trigger] ps[i],
            preds_wildcards(ps.take(i)),
            rules.subrange(preds_rule_count(ps.take(i)) as int, preds_rule_count(ps.take(i + 1)) as int),
        )
}

proof fn lemma_clauses_prefix(cl: Seq<Vec<MirAtom>>, i: int)
    requires
        0 <= i <= cl.len(),
    ensures
        clauses_wildcards(cl.take(i)) <= clauses_wildcards(cl),
    decreases cl.len() - i,
{
    if i < cl.len() {
        lemma_clauses_prefix(cl, i + 1);
        assert(cl.take(i + 1).drop_last() =~= cl.take(i));
    } else {
        assert(cl.take(i) =~= cl);
    }
}

/// Lowers one predicate to its rules.
fn lower_predicate(counter: &mut u32, pred: &MirPredicate) -> (rules: Vec<LirRule>)
    requires
        *old(counter) + pred_wildcards(*pred) <= u32::MAX,
    ensures
        pred_rules_ok(*pred, *old(counter) as nat, rules@),
        *final(counter) == *old(counter) + pred_wildcards(*pred),
{
    let ghost k0 = *counter as nat;
    let mut rules: Vec<LirRule> = Vec::new();
    match &pred.body {
        MirBody::Abstract => {},
        MirBody::Conjunction(atoms) => {
            let target_columns = param_name_list(&pred.params);
            let body = lower_conjunction(counter, atoms, &target_columns);
            rules.push(LirRule { target: pred.name.clone(), target_columns, body });
        },
        MirBody::Disjunction(clauses) => {
            let mut i: usize = 0;
            while i < clauses.len()
                invariant
                    i <= clauses@.len(),
                    pred.body == MirBody::Disjunction(*clauses),
                    k0 + clauses_wildcards(clauses@) <= u32::MAX,
                    *counter == k0 + clauses_wildcards(clauses@.take(i as int)),
                    rules@.len() == i,
                    forall|j: int|
                        0 <= j < i ==> rule_ok(#[trigger] rules@[j], *pred, clauses@[j]@, k0 + clauses_wildcards(clauses@.take(j))),
                decreases clauses@.len() - i,
            {
                proof {
                    assert(clauses@.take(i + 1).drop_last() =~= clauses@.take(i as int));
                    lemma_clauses_prefix(clauses@, i + 1);
                }
                let target_columns = param_name_list(&pred.params);
                let body = lower_conjunction(counter, &clauses[i], &target_columns);
                rules.push(LirRule { target: pred.name.clone(), target_columns, body });
                i = i + 1;
            }
            assert(clauses@.take(clauses@.len() as int) =~= clauses@);
        },
    }
    rules
}

/// The parameter names of a predicate.
fn param_name_list(params: &Vec<MirParam>) -> (r: Vec<String>)
    ensures
        views(r@) == param_names(params@),
{
    let mut r: Vec<String> = Vec::new();
    let mut i: usize = 0;
    while i < params.len()
        invariant
            i <= params@.len(),
            views(r@) == param_names(params@.take(i as int)),
        decreases params@.len() - i,
    {
        let ghost before = views(r@);
        r.push(params[i].name.clone());
        assert(views(r@) =~= before.push(params@[i as int].name@));
        assert(param_names(params@.take(i + 1)) =~= param_names(params@.take(i as int)).push(params@[i as int].name@));
        i = i + 1;
    }
    assert(params@.take(params@.len() as int) =~= params@);
    r
}

proof fn lemma_preds_prefix(ps: Seq<MirPredicate>, i: int)
    requires
        0 <= i <= ps.len(),
    ensures
        preds_wildcards(ps.take(i)) <= preds_wildcards(ps),
    decreases ps.len() - i,
{
    if i < ps.len() {
        lemma_preds_prefix(ps, i + 1);
        assert(ps.take(i + 1).drop_last() =~= ps.take(i));
    } else {
        assert(ps.take(i) =~= ps);
    }
}

/// The rules of predicate `j` sit at their place in `all`.
spec fn placed_ok(ps: Seq<MirPredicate>, all: Seq<LirRule>, j: int) -> bool {
    pred_rules_ok(
        ps[j],
        preds_wildcards(ps.take(j)),
        all.subrange(preds_rule_count(ps.take(j)) as int, preds_rule_count(ps.take(j + 1)) as int),
    )
}

proof fn lemma_count_mono(ps: Seq<MirPredicate>, a: int, b: int)
    requires
        0 <= a <= b <= ps.len(),
    ensures
        preds_rule_count(ps.take(a)) <= preds_rule_count(ps.take(b)),
    decreases b - a,
{
    if a < b {
        lemma_count_mono(ps, a, b - 1);
        assert(ps.take(b).drop_last() =~= ps.take(b - 1));
    }
}

/// Lowers every predicate, in order, with one fresh-variable numbering.
fn lower_rules(mir: &MirProgram) -> (rules: Vec<LirRule>)
    requires
        preds_wildcards(mir.predicates@) <= u32::MAX,
    ensures
        lowering_ok(mir.predicates@, rules@),
{
    let ghost ps = mir.predicates@;
    let mut counter: u32 = 0;
    let mut all: Vec<LirRule> = Vec::new();
    let mut i: usize = 0;
    while i < mir.predicates.len()
        invariant
            ps == mir.predicates@,
            i <= ps.len(),
            preds_wildcards(ps) <= u32::MAX,
            counter == preds_wildcards(ps.take(i as int)),
            all@.len() == preds_rule_count(ps.take(i as int)),
            forall|j: int| 0 <= j < i ==> #[trigger] placed_ok(ps, all@, j),
        decreases ps.len() - i,
    {
        proof {
            assert(ps.take(i + 1).drop_last() =~= ps.take(i as int));
            lemma_preds_prefix(ps, i + 1);
        }
        let ghost before = all@;
        let rules = lower_predicate(&mut counter, &mir.predicates[i]);
        let ghost new_rules = rules@;
        let mut rules = rules;
        all.append(&mut rules);
        proof {
            assert(all@ == before + new_rules);
            assert forall|j: int| 0 <= j < i + 1 implies #[trigger] placed_ok(ps, all@, j) by {
                let lo = preds_rule_count(ps.take(j)) as int;
                let hi = preds_rule_count(ps.take(j + 1)) as int;
                if j < i {
                    assert(placed_ok(ps, before, j));
                    lemma_count_mono(ps, j + 1, i as int);
                    lemma_count_mono(ps, j, j + 1);
                    assert(all@.subrange(lo, hi) =~= before.subrange(lo, hi));
                } else {
                    assert(all@.subrange(lo, hi) =~= new_rules);
                }
            }
        }
        i = i + 1;
    }
    proof {
        assert(ps.take(ps.len() as int) =~= ps);
        assert forall|j: int| 0 <= j < ps.len() implies pred_rules_ok(
            #[trigger] ps[j],
            preds_wildcards(ps.take(j)),
            all@.subrange(preds_rule_count(ps.take(j)) as int, preds_rule_count(ps.take(j + 1)) as int),
        ) by {
            assert(placed_ok(ps, all@, j));
        }
    }
    all
}


/// The dependency an atom creates on a relation: scans and type checks
/// depend positively, negated scans and aggregates negatively.
pub open spec fn atom_dep(a: MirAtom) -> Option<(Seq<char>, bool)> {
    match a {
        MirAtom::Scan(s) => Some((s.predicate@, false)),
        MirAtom::NegScan(s) => Some((s.predicate@, true)),
        MirAtom::Aggregate(g) => Some((g.sub_predicate@, true)),
        MirAtom::TypeCheck(tc) => Some((tc.type_predicate@, false)),
        MirAtom::Guard(_) => None,
        MirAtom::Assign(_) => None,
    }
}

/// The relation of a dependency.
pub open spec fn dep_target(d: Option<(Seq<char>, bool)>) -> Seq<char> {
    match d {
        Some((t, _)) => t,
        None => Seq::empty(),
    }
}

/// Whether a dependency is negative.
pub open spec fn dep_negative(d: Option<(Seq<char>, bool)>) -> bool {
    match d {
        Some((_, g)) => g,
        None => false,
    }
}

/// The conjunctions of a body.
pub open spec fn body_clauses(b: MirBody) -> Seq<Seq<MirAtom>> {
    match b {
        MirBody::Abstract => Seq::empty(),
        MirBody::Conjunction(atoms) => seq![atoms@],
        MirBody::Disjunction(cl) => cl@.map_values(|c: Vec<MirAtom>| c@),
    }
}

/// A predicate named `x` has, in one of its clauses, an atom that depends on
/// `y`, negatively when `neg` holds.
pub open spec fn depends(ps: Seq<MirPredicate>, x: Seq<char>, y: Seq<char>, neg: bool) -> bool {
    exists|i: int, c: int, a: int|
        0 <= i < ps.len() && ps[i].name@ == x && 0 <= c < body_clauses(ps[i].body).len() && 0 <= a
            < body_clauses(ps[i].body)[c].len() && #[trigger] atom_dep(body_clauses(ps[i].body)[c][a]) == Some(
            (y, neg),
        )
}

/// Target names of a list of rules, in order.
pub open spec fn targets_of(rules: Seq<LirRule>) -> Seq<Seq<char>> {
    rules.map_values(|r: LirRule| r.target@)
}

/// The distinct rule targets, in order of first occurrence.
fn target_names(rules: &Vec<LirRule>) -> (names: Vec<String>)
    ensures
        views(names@).no_duplicates(),
        forall|x: Seq<char>| views(names@).contains(x) <==> targets_of(rules@).contains(x),
{
    let mut names: Vec<String> = Vec::new();
    let mut i: usize = 0;
    while i < rules.len()
        invariant
            i <= rules@.len(),
            views(names@).no_duplicates(),
            forall|x: Seq<char>| views(names@).contains(x) <==> targets_of(rules@).take(i as int).contains(x),
        decreases rules@.len() - i,
    {
        let ghost before = views(names@);
        let ghost t0 = targets_of(rules@).take(i as int);
        let ghost t1 = targets_of(rules@).take(i + 1);
        proof {
            assert(t1 =~= t0.push(rules@[i as int].target@));
            assert(forall|x: Seq<char>| before.contains(x) <==> t0.contains(x));
        }
        if !contains_name(&names, rules[i].target.as_str()) {
            names.push(rules[i].target.clone());
            proof {
                let w = views(names@);
                assert(w =~= before.push(rules@[i as int].target@));
                assert forall|a: int, b: int| 0 <= a < b < w.len() implies w[a] != w[b] by {
                    if b == w.len() - 1 {
                        assert(before[a] == w[a]);
                    }
                }
            }
        }
        proof {
            let w = views(names@);
            assert forall|x: Seq<char>| w.contains(x) <==> t1.contains(x) by {
                if t1.contains(x) {
                    let m = choose|m: int| 0 <= m < t1.len() && t1[m] == x;
                    if m < t0.len() {
                        assert(t0[m] == x);
                        assert(before.contains(x));
                        let q = choose|q: int| 0 <= q < before.len() && before[q] == x;
                        assert(w[q] == x);
                    } else {
                        assert(x == rules@[i as int].target@);
                        if !before.contains(x) {
                            assert(w[w.len() - 1] == x);
                        } else {
                            let q = choose|q: int| 0 <= q < before.len() && before[q] == x;
                            assert(w[q] == x);
                        }
                    }
                }
                if w.contains(x) {
                    let q = choose|q: int| 0 <= q < w.len() && w[q] == x;
                    if q < before.len() {
                        assert(before[q] == x);
                        assert(before.contains(x));
                        assert(t0.contains(x));
                        let m = choose|m: int| 0 <= m < t0.len() && t0[m] == x;
                        assert(t1[m] == x);
                    } else {
                        assert(t1[i as int] == x);
                    }
                }
            }
        }
        i = i + 1;
    }
    assert(targets_of(rules@).take(rules@.len() as int) =~= targets_of(rules@));
    names
}

/// The position of `x` among `names`.
fn find_name(names: &Vec<String>, x: &str) -> (r: Option<usize>)
    ensures
        match r {
            Some(i) => i < names@.len() && names@[i as int]@ == x@,
            None => !views(names@).contains(x@),
        },
{
    let mut i: usize = 0;
    while i < names.len()
        invariant
            i <= names@.len(),
            forall|j: int| 0 <= j < i ==> names@[j]@ != x@,
        decreases names@.len() - i,
    {
        if str_eq(names[i].as_str(), x) {
            return Some(i);
        }
        i = i + 1;
    }
    proof {
        if views(names@).contains(x@) {
            let j = choose|j: int| 0 <= j < views(names@).len() && views(names@)[j] == x@;
            assert(names@[j]@ == x@);
        }
    }
    None
}


/// Appends to `row`/`negs` the position and kind of each dependency of
/// `atoms` on a relation among `names`.
fn push_atom_deps(atoms: &Vec<MirAtom>, names: &Vec<String>, row: &mut Vec<usize>, negs: &mut Vec<bool>)
    requires
        old(row)@.len() == old(negs)@.len(),
    ensures
        final(row)@.len() == final(negs)@.len(),
        final(row)@.len() >= old(row)@.len(),
        final(row)@.subrange(0, old(row)@.len() as int) == old(row)@,
        final(negs)@.subrange(0, old(negs)@.len() as int) == old(negs)@,
        forall|k: int|
            old(row)@.len() <= k < final(row)@.len() ==> #[trigger] final(row)@[k] < names@.len() && exists|a: int|
                0 <= a < atoms@.len() && atom_dep(atoms@[a]) == Some((names@[final(row)@[k] as int]@, final(negs)@[k])),
        forall|a: int|
            0 <= a < atoms@.len() && (#[trigger] atom_dep(atoms@[a])) is Some && views(names@).contains(
                dep_target(atom_dep(atoms@[a])),
            ) ==> exists|k: int|
                old(row)@.len() <= k < final(row)@.len() && names@[final(row)@[k] as int]@ == dep_target(atom_dep(atoms@[a]))
                    && final(negs)@[k] == dep_negative(atom_dep(atoms@[a])),
{
    let ghost r0 = row@;
    let ghost g0 = negs@;
    let mut i: usize = 0;
    while i < atoms.len()
        invariant
            i <= atoms@.len(),
            row@.len() == negs@.len(),
            row@.len() >= r0.len(),
            row@.subrange(0, r0.len() as int) == r0,
            negs@.subrange(0, g0.len() as int) == g0,
            r0.len() == g0.len(),
            forall|k: int|
                r0.len() <= k < row@.len() ==> #[trigger] row@[k] < names@.len() && exists|a: int|
                    0 <= a < atoms@.len() && atom_dep(atoms@[a]) == Some((names@[row@[k] as int]@, negs@[k])),
            forall|a: int|
                0 <= a < i && (#[trigger] atom_dep(atoms@[a])) is Some && views(names@).contains(
                    dep_target(atom_dep(atoms@[a])),
                ) ==> exists|k: int|
                    r0.len() <= k < row@.len() && names@[row@[k] as int]@ == dep_target(atom_dep(atoms@[a]))
                        && negs@[k] == dep_negative(atom_dep(atoms@[a])),
        decreases atoms@.len() - i,
    {
        let dep: Option<(&String, bool)> = match &atoms[i] {
            MirAtom::Scan(sc) => Some((&sc.predicate, false)),
            MirAtom::NegScan(sc) => Some((&sc.predicate, true)),
            MirAtom::Aggregate(g) => Some((&g.sub_predicate, true)),
            MirAtom::TypeCheck(tc) => Some((&tc.type_predicate, false)),
            MirAtom::Guard(_) => None,
            MirAtom::Assign(_) => None,
        };
        proof {
            match dep {
                Some((d, g)) => assert(atom_dep(atoms@[i as int]) == Some((d@, g))),
                None => assert(atom_dep(atoms@[i as int]) is None),
            }
        }
        if let Some((d, g)) = dep {
            if let Some(j) = find_name(names, d.as_str()) {
                let ghost rb = row@;
                let ghost gb = negs@;
                row.push(j);
                negs.push(g);
                proof {
                    assert(row@.subrange(0, r0.len() as int) =~= rb.subrange(0, r0.len() as int));
                    assert(negs@.subrange(0, g0.len() as int) =~= gb.subrange(0, g0.len() as int));
                    assert forall|k: int| r0.len() <= k < row@.len() implies #[trigger] row@[k] < names@.len()
                        && exists|a: int| 0 <= a < atoms@.len() && atom_dep(atoms@[a]) == Some(
                        (names@[row@[k] as int]@, negs@[k]),
                    ) by {
                        if k < rb.len() {
                            assert(row@[k] == rb[k] && negs@[k] == gb[k]);
                        } else {
                            assert(atom_dep(atoms@[i as int]) == Some((names@[row@[k] as int]@, negs@[k])));
                        }
                    }
                    assert forall|a: int|
                        0 <= a < i + 1 && (#[trigger] atom_dep(atoms@[a])) is Some && views(names@).contains(
                            dep_target(atom_dep(atoms@[a])),
                        ) implies exists|k: int|
                        r0.len() <= k < row@.len() && names@[row@[k] as int]@ == dep_target(atom_dep(atoms@[a]))
                            && negs@[k] == dep_negative(atom_dep(atoms@[a])) by {
                        if a < i {
                            let k = choose|k: int|
                                r0.len() <= k < rb.len() && names@[rb[k] as int]@ == dep_target(atom_dep(atoms@[a]))
                                    && gb[k] == dep_negative(atom_dep(atoms@[a]));
                            assert(row@[k] == rb[k] && negs@[k] == gb[k]);
                        } else {
                            assert(row@[rb.len() as int] == j);
                        }
                    }
                }
            } else {
                proof {
                    assert forall|a: int|
                        0 <= a < i + 1 && (#[trigger] atom_dep(atoms@[a])) is Some && views(names@).contains(
                            dep_target(atom_dep(atoms@[a])),
                        ) implies exists|k: int|
                        r0.len() <= k < row@.len() && names@[row@[k] as int]@ == dep_target(atom_dep(atoms@[a]))
                            && negs@[k] == dep_negative(atom_dep(atoms@[a])) by {
                        if a == i {
                            assert(!views(names@).contains(d@));
                        }
                    }
                }
            }
        }
        i = i + 1;
    }
}


/// The dependency of atom `a` of clause `c` of predicate `i`.
pub open spec fn dep_at(ps: Seq<MirPredicate>, i: int, c: int, a: int) -> Option<(Seq<char>, bool)> {
    atom_dep(body_clauses(ps[i].body)[c][a])
}

/// Edges of a dependency row: each entry is a dependency of `x`.
pub open spec fn row_sound(ps: Seq<MirPredicate>, names: Seq<String>, x: Seq<char>, row: Seq<usize>, negs: Seq<bool>) -> bool {
    &&& row.len() == negs.len()
    &&& forall|k: int| 0 <= k < row.len() ==> #[trigger] row[k] < names.len() && depends(ps, x, names[row[k] as int]@, negs[k])
}

/// Every dependency of `x` on a relation among `names` is an entry of the row.
pub open spec fn row_complete(ps: Seq<MirPredicate>, names: Seq<String>, x: Seq<char>, row: Seq<usize>, negs: Seq<bool>) -> bool {
    forall|y: Seq<char>, g: bool|
        depends(ps, x, y, g) && views(names).contains(y) ==> exists|k: int|
            0 <= k < row.len() && names[row[k] as int]@ == y && negs[k] == g
}

/// The dependencies of the predicates named `x`, as positions in `names`
/// with their kinds, in the order the predicates, clauses and atoms come.
fn dependency_row(mir: &MirProgram, names: &Vec<String>, x: &str) -> (r: (Vec<usize>, Vec<bool>))
    ensures
        row_sound(mir.predicates@, names@, x@, r.0@, r.1@),
        row_complete(mir.predicates@, names@, x@, r.0@, r.1@),
{
    let ghost ps = mir.predicates@;
    let mut row: Vec<usize> = Vec::new();
    let mut negs: Vec<bool> = Vec::new();
    let mut i: usize = 0;
    while i < mir.predicates.len()
        invariant
            ps == mir.predicates@,
            i <= ps.len(),
            row_sound(ps, names@, x@, row@, negs@),
            forall|pi: int, c: int, a: int|
                0 <= pi < i && ps[pi].name@ == x@ && 0 <= c < body_clauses(ps[pi].body).len() && 0 <= a
                    < body_clauses(ps[pi].body)[c].len() && (#[trigger] dep_at(ps, pi, c, a)) is Some
                    && views(names@).contains(dep_target(dep_at(ps, pi, c, a))) ==> exists|k: int|
                    0 <= k < row@.len() && names@[row@[k] as int]@ == dep_target(dep_at(ps, pi, c, a)) && negs@[k]
                        == dep_negative(dep_at(ps, pi, c, a)),
        decreases ps.len() - i,
    {
        let pred = &mir.predicates[i];
        if str_eq(pred.name.as_str(), x) {
            let ghost cls = body_clauses(pred.body);
            let ghost r_start = row@;
            let ghost g_start = negs@;
            match &pred.body {
                MirBody::Abstract => {},
                MirBody::Conjunction(atoms) => {
                    let ghost rb = row@;
                    let ghost gb = negs@;
                    push_atom_deps(atoms, names, &mut row, &mut negs);
                    proof {
                        assert(cls[0] == atoms@);
                        assert forall|k: int| 0 <= k < row@.len() implies #[trigger] row@[k] < names@.len()
                            && depends(ps, x@, names@[row@[k] as int]@, negs@[k]) by {
                            if k < rb.len() {
                                assert(row@.subrange(0, rb.len() as int)[k] == row@[k]);
                                assert(negs@.subrange(0, gb.len() as int)[k] == negs@[k]);
                            } else {
                                let a = choose|a: int|
                                    0 <= a < atoms@.len() && atom_dep(atoms@[a]) == Some((names@[row@[k] as int]@, negs@[k]));
                                assert(dep_at(ps, i as int, 0, a) == atom_dep(atoms@[a]));
                            }
                        }
                    }
                },
                MirBody::Disjunction(clauses) => {
                    let mut c: usize = 0;
                    while c < clauses.len()
                        invariant
                            ps == mir.predicates@,
                            i < ps.len(),
                            ps[i as int].name@ == x@,
                            ps[i as int].body == MirBody::Disjunction(*clauses),
                            cls == body_clauses(ps[i as int].body),
                            c <= clauses@.len(),
                            row@.len() >= r_start.len(),
                            r_start.len() == g_start.len(),
                            row@.subrange(0, r_start.len() as int) == r_start,
                            negs@.subrange(0, g_start.len() as int) == g_start,
                            row_sound(ps, names@, x@, row@, negs@),
                            forall|cc: int, a: int|
                                0 <= cc < c && 0 <= a < cls[cc].len() && (#[trigger] dep_at(ps, i as int, cc, a)) is Some
                                    && views(names@).contains(dep_target(dep_at(ps, i as int, cc, a))) ==> exists|k: int|
                                    0 <= k < row@.len() && names@[row@[k] as int]@ == dep_target(dep_at(ps, i as int, cc, a))
                                        && negs@[k] == dep_negative(dep_at(ps, i as int, cc, a)),
                        decreases clauses@.len() - c,
                    {
                        let ghost rb = row@;
                        let ghost gb = negs@;
                        push_atom_deps(&clauses[c], names, &mut row, &mut negs);
                        proof {
                            assert(cls[c as int] == clauses@[c as int]@);
                            assert(row@.subrange(0, r_start.len() as int) =~= rb.subrange(0, r_start.len() as int)) by {
                                assert forall|q: int| 0 <= q < r_start.len() implies row@[q] == rb[q] by {
                                    assert(row@.subrange(0, rb.len() as int)[q] == row@[q]);
                                }
                            }
                            assert(negs@.subrange(0, g_start.len() as int) =~= gb.subrange(0, g_start.len() as int)) by {
                                assert forall|q: int| 0 <= q < g_start.len() implies negs@[q] == gb[q] by {
                                    assert(negs@.subrange(0, gb.len() as int)[q] == negs@[q]);
                                }
                            }
                            assert forall|k: int| 0 <= k < row@.len() implies #[trigger] row@[k] < names@.len()
                                && depends(ps, x@, names@[row@[k] as int]@, negs@[k]) by {
                                if k < rb.len() {
                                    assert(row@.subrange(0, rb.len() as int)[k] == row@[k]);
                                    assert(negs@.subrange(0, gb.len() as int)[k] == negs@[k]);
                                } else {
                                    let a = choose|a: int|
                                        0 <= a < clauses@[c as int]@.len() && atom_dep(clauses@[c as int]@[a]) == Some(
                                            (names@[row@[k] as int]@, negs@[k]),
                                        );
                                    assert(dep_at(ps, i as int, c as int, a) == atom_dep(clauses@[c as int]@[a]));
                                }
                            }
                            assert forall|cc: int, a: int|
                                0 <= cc < c + 1 && 0 <= a < cls[cc].len() && (#[trigger] dep_at(ps, i as int, cc, a)) is Some
                                    && views(names@).contains(dep_target(dep_at(ps, i as int, cc, a))) implies exists|k: int|
                                    0 <= k < row@.len() && names@[row@[k] as int]@ == dep_target(dep_at(ps, i as int, cc, a))
                                        && negs@[k] == dep_negative(dep_at(ps, i as int, cc, a)) by {
                                if cc < c {
                                    let k = choose|k: int|
                                        0 <= k < rb.len() && names@[rb[k] as int]@ == dep_target(dep_at(ps, i as int, cc, a))
                                            && gb[k] == dep_negative(dep_at(ps, i as int, cc, a));
                                    assert(row@.subrange(0, rb.len() as int)[k] == row@[k]);
                                    assert(negs@.subrange(0, gb.len() as int)[k] == negs@[k]);
                                } else {
                                    assert(dep_at(ps, i as int, cc, a) == atom_dep(clauses@[c as int]@[a]));
                                }
                            }
                        }
                        c = c + 1;
                    }
                },
            }
            proof {
                assert forall|pi: int, c: int, a: int|
                    0 <= pi < i + 1 && ps[pi].name@ == x@ && 0 <= c < body_clauses(ps[pi].body).len() && 0 <= a
                        < body_clauses(ps[pi].body)[c].len() && (#[trigger] dep_at(ps, pi, c, a)) is Some
                        && views(names@).contains(dep_target(dep_at(ps, pi, c, a))) implies exists|k: int|
                        0 <= k < row@.len() && names@[row@[k] as int]@ == dep_target(dep_at(ps, pi, c, a)) && negs@[k]
                            == dep_negative(dep_at(ps, pi, c, a)) by {
                    if pi < i {
                        let k = choose|k: int|
                            0 <= k < r_start.len() && names@[r_start[k] as int]@ == dep_target(dep_at(ps, pi, c, a))
                                && g_start[k] == dep_negative(dep_at(ps, pi, c, a));
                        assert(row@.subrange(0, r_start.len() as int)[k] == row@[k]);
                        assert(negs@.subrange(0, g_start.len() as int)[k] == negs@[k]);
                    } else {
                        match pred.body {
                            MirBody::Abstract => {},
                            MirBody::Conjunction(atoms) => {
                                assert(c == 0);
                                assert(dep_at(ps, pi, c, a) == atom_dep(atoms@[a]));
                            },
                            MirBody::Disjunction(clauses) => {},
                        }
                    }
                }
            }
        } else {
            proof {
                assert forall|pi: int, c: int, a: int|
                    0 <= pi < i + 1 && ps[pi].name@ == x@ && 0 <= c < body_clauses(ps[pi].body).len() && 0 <= a
                        < body_clauses(ps[pi].body)[c].len() && (#[trigger] dep_at(ps, pi, c, a)) is Some
                        && views(names@).contains(dep_target(dep_at(ps, pi, c, a))) implies exists|k: int|
                        0 <= k < row@.len() && names@[row@[k] as int]@ == dep_target(dep_at(ps, pi, c, a)) && negs@[k]
                            == dep_negative(dep_at(ps, pi, c, a)) by {
                    assert(pi != i);
                }
            }
        }
        i = i + 1;
    }
    proof {
        assert forall|y: Seq<char>, g: bool| depends(ps, x@, y, g) && views(names@).contains(y) implies exists|k: int|
            0 <= k < row@.len() && names@[row@[k] as int]@ == y && negs@[k] == g by {
            let (pi, c, a) = choose|pi: int, c: int, a: int|
                0 <= pi < ps.len() && ps[pi].name@ == x@ && 0 <= c < body_clauses(ps[pi].body).len() && 0 <= a
                    < body_clauses(ps[pi].body)[c].len() && #[trigger] atom_dep(body_clauses(ps[pi].body)[c][a]) == Some(
                    (y, g),
                );
            assert(dep_at(ps, pi, c, a) == Some((y, g)));
        }
    }
    (row, negs)
}


/// Whether an edge marked negative joins two nodes of the component.
fn negative_inside(comp: &Vec<usize>, adj: &Vec<Vec<usize>>, negk: &Vec<Vec<bool>>) -> (r: bool)
    requires
        adj@.len() == negk@.len(),
        forall|u: int| 0 <= u < adj@.len() ==> (#[trigger] adj@[u])@.len() == negk@[u]@.len(),
        forall|j: int| 0 <= j < comp@.len() ==> #[trigger] comp@[j] < adj@.len(),
    ensures
        r == exists|j: int, k: int|
            0 <= j < comp@.len() && 0 <= k < adj@[comp@[j] as int]@.len() && negk@[comp@[j] as int]@[k]
                && comp@.contains(#[trigger] adj@[comp@[j] as int]@[k]),
{
    let mut j: usize = 0;
    while j < comp.len()
        invariant
            j <= comp@.len(),
            adj@.len() == negk@.len(),
            forall|u: int| 0 <= u < adj@.len() ==> (#[trigger] adj@[u])@.len() == negk@[u]@.len(),
            forall|q: int| 0 <= q < comp@.len() ==> #[trigger] comp@[q] < adj@.len(),
            forall|jj: int, k: int|
                0 <= jj < j && 0 <= k < adj@[comp@[jj] as int]@.len() && negk@[comp@[jj] as int]@[k] ==> !comp@.contains(
                    #[trigger] adj@[comp@[jj] as int]@[k],
                ),
        decreases comp@.len() - j,
    {
        let u = comp[j];
        let row = &adj[u];
        let kinds = &negk[u];
        let mut k: usize = 0;
        while k < row.len()
            invariant
                j < comp@.len(),
                u == comp@[j as int],
                u < adj@.len(),
                row@ == adj@[u as int]@,
                kinds@ == negk@[u as int]@,
                row@.len() == kinds@.len(),
                k <= row@.len(),
                forall|kk: int| 0 <= kk < k && kinds@[kk] ==> !comp@.contains(#[trigger] row@[kk]),
            decreases row@.len() - k,
        {
            if kinds[k] {
                let w = row[k];
                let mut q: usize = 0;
                while q < comp.len()
                    invariant
                        q <= comp@.len(),
                        forall|qq: int| 0 <= qq < q ==> comp@[qq] != w,
                        j < comp@.len(),
                        u == comp@[j as int],
                        u < adj@.len(),
                        row@ == adj@[u as int]@,
                        kinds@ == negk@[u as int]@,
                        k < row@.len(),
                        row@.len() == kinds@.len(),
                        kinds@[k as int],
                        w == row@[k as int],
                    decreases comp@.len() - q,
                {
                    if comp[q] == w {
                        assert(comp@[q as int] == adj@[comp@[j as int] as int]@[k as int]);
                        assert(comp@.contains(adj@[comp@[j as int] as int]@[k as int]));
                        return true;
                    }
                    q = q + 1;
                }
            }
            k = k + 1;
        }
        j = j + 1;
    }
    false
}

/// The names of the nodes of a component, in its order.
fn component_names(comp: &Vec<usize>, names: &Vec<String>) -> (r: Vec<String>)
    requires
        forall|j: int| 0 <= j < comp@.len() ==> #[trigger] comp@[j] < names@.len(),
    ensures
        r@.len() == comp@.len(),
        forall|j: int| 0 <= j < comp@.len() ==> (#[trigger] r@[j])@ == names@[comp@[j] as int]@,
{
    let mut r: Vec<String> = Vec::new();
    let mut j: usize = 0;
    while j < comp.len()
        invariant
            j <= comp@.len(),
            r@.len() == j,
            forall|q: int| 0 <= q < comp@.len() ==> #[trigger] comp@[q] < names@.len(),
            forall|q: int| 0 <= q < j ==> (#[trigger] r@[q])@ == names@[comp@[q] as int]@,
        decreases comp@.len() - j,
    {
        r.push(names[comp[j]].clone());
        j = j + 1;
    }
    r
}



/// `x` depends on `y`, positively or negatively.
pub open spec fn dep_edge(ps: Seq<MirPredicate>, x: Seq<char>, y: Seq<char>) -> bool {
    exists|g: bool| #[trigger] depends(ps, x, y, g)
}

/// A nonempty walk along dependencies among the rule targets.
pub open spec fn dep_path(ps: Seq<MirPredicate>, all: Seq<LirRule>, p: Seq<Seq<char>>) -> bool {
    &&& p.len() > 0
    &&& forall|i: int| 0 <= i < p.len() ==> targets_of(all).contains(#[trigger] p[i])
    &&& forall|i: int| 0 <= i < p.len() - 1 ==> #[trigger] dep_edge(ps, p[i], p[i + 1])
}

/// `x` reaches `y` along dependencies among the rule targets.
pub open spec fn dep_reaches(ps: Seq<MirPredicate>, all: Seq<LirRule>, x: Seq<char>, y: Seq<char>) -> bool {
    exists|p: Seq<Seq<char>>| #[trigger] dep_path(ps, all, p) && p[0] == x && p.last() == y
}

/// `x` and `y` lie in one strongly connected component of the dependency
/// graph over the rule targets.
pub open spec fn same_scc(ps: Seq<MirPredicate>, all: Seq<LirRule>, x: Seq<char>, y: Seq<char>) -> bool {
    dep_reaches(ps, all, x, y) && dep_reaches(ps, all, y, x)
}

/// `t` is exactly one strongly connected component of the dependency graph
/// over the rule targets.
pub open spec fn is_component(ps: Seq<MirPredicate>, all: Seq<LirRule>, t: Set<Seq<char>>) -> bool {
    &&& exists|x: Seq<char>| #[trigger] t.contains(x)
    &&& forall|x: Seq<char>| #[trigger] t.contains(x) ==> targets_of(all).contains(x)
    &&& forall|x: Seq<char>, y: Seq<char>| #[trigger] t.contains(x) && #[trigger] t.contains(y) ==> same_scc(ps, all, x, y)
    &&& forall|x: Seq<char>, y: Seq<char>| #[trigger] t.contains(x) && #[trigger] same_scc(ps, all, x, y) ==> t.contains(y)
}

/// Two of the names depend on each other negatively.
pub open spec fn negative_within(ps: Seq<MirPredicate>, ns: Seq<Seq<char>>) -> bool {
    exists|a: int, b: int| 0 <= a < ns.len() && 0 <= b < ns.len() && #[trigger] depends(ps, ns[a], ns[b], true)
}

/// Target names of a stratum's rules.
pub open spec fn stratum_targets(st: LirStratum) -> Set<Seq<char>> {
    targets_of(st.rules@).to_set()
}

/// The rules of `all` whose target is in `t`, in order.
pub open spec fn rules_for(all: Seq<LirRule>, t: Set<Seq<char>>) -> Seq<LirRule>
    decreases all.len(),
{
    if all.len() == 0 {
        Seq::empty()
    } else if t.contains(all.last().target@) {
        rules_for(all.drop_last(), t).push(all.last())
    } else {
        rules_for(all.drop_last(), t)
    }
}

/// Some stratum defines `x`.
pub open spec fn in_some_stratum(strata: Seq<LirStratum>, x: Seq<char>) -> bool {
    exists|i: int| 0 <= i < strata.len() && #[trigger] stratum_targets(strata[i]).contains(x)
}

/// `strata` stratify the rules `all` of the predicates `ps`: each stratum
/// holds, in order, all the rules of a set of targets, and that set is
/// exactly one strongly connected component of the dependency graph; the
/// sets are disjoint and cover every rule; a dependency leads into the same
/// or an earlier stratum, and a negative one into an earlier stratum; a
/// stratum is recursive when it defines several relations or one that
/// depends positively on itself.
pub open spec fn strata_ok(ps: Seq<MirPredicate>, all: Seq<LirRule>, strata: Seq<LirStratum>) -> bool {
    &&& forall|i: int| 0 <= i < strata.len() ==> is_component(ps, all, stratum_targets(#[trigger] strata[i]))
    &&& forall|i: int|
        0 <= i < strata.len() ==> (#[trigger] strata[i]).rules@.len() > 0 && strata[i].rules@ == rules_for(
            all,
            stratum_targets(strata[i]),
        )
    &&& forall|r: int| 0 <= r < all.len() ==> #[trigger] in_some_stratum(strata, all[r].target@)
    &&& forall|i: int, j: int, x: Seq<char>|
        0 <= i < j < strata.len() ==> !(#[trigger] stratum_targets(strata[i]).contains(x)
            && #[trigger] stratum_targets(strata[j]).contains(x))
    &&& forall|i: int, j: int, x: Seq<char>, y: Seq<char>, g: bool|
        0 <= i < strata.len() && 0 <= j < strata.len() && #[trigger] stratum_targets(strata[i]).contains(x)
            && #[trigger] stratum_targets(strata[j]).contains(y) && #[trigger] depends(ps, x, y, g) ==> j <= i && (
        g ==> j < i)
    &&& forall|i: int|
        0 <= i < strata.len() ==> (#[trigger] strata[i]).recursive == ((exists|x: Seq<char>, y: Seq<char>|
            stratum_targets(strata[i]).contains(x) && stratum_targets(strata[i]).contains(y) && x != y) || (exists|
            x: Seq<char>,
        | stratum_targets(strata[i]).contains(x) && depends(ps, x, x, false)))
}

/// A cycle of dependencies among defined relations that passes through a
/// negative dependency: `cycle[0] -> cycle[1] -> ... -> cycle[m - 1] ->
/// cycle[0]`, the kind of the dependency leaving `cycle[i]` being
/// `kinds[i]`, one of them negative.
pub open spec fn negation_cycle(ps: Seq<MirPredicate>, all: Seq<LirRule>, cycle: Seq<Seq<char>>, kinds: Seq<bool>) -> bool {
    &&& cycle.len() > 0
    &&& kinds.len() == cycle.len()
    &&& forall|i: int| 0 <= i < cycle.len() ==> targets_of(all).contains(#[trigger] cycle[i])
    &&& forall|i: int| 0 <= i < cycle.len() - 1 ==> #[trigger] depends(ps, cycle[i], cycle[i + 1], kinds[i])
    &&& depends(ps, cycle[cycle.len() - 1], cycle[0], kinds[cycle.len() - 1])
    &&& exists|i: int| 0 <= i < kinds.len() && #[trigger] kinds[i]
}

/// The names of a negation cycle error: distinct rule targets making up
/// exactly one strongly connected component of the dependency graph, two of
/// which depend on each other negatively; among them lies a cycle of
/// dependencies through a negative one.
pub open spec fn cycle_names_ok(ps: Seq<MirPredicate>, all: Seq<LirRule>, ns: Seq<Seq<char>>) -> bool {
    &&& ns.len() > 0
    &&& is_component(ps, all, ns.to_set())
    &&& negative_within(ps, ns)
    &&& ns.no_duplicates()
    &&& forall|j: int| 0 <= j < ns.len() ==> targets_of(all).contains(#[trigger] ns[j])
    &&& cycle_names_cycle(ps, all, ns)
}

proof fn lemma_rules_for_targets(all: Seq<LirRule>, t: Set<Seq<char>>, x: Seq<char>)
    ensures
        targets_of(rules_for(all, t)).contains(x) <==> t.contains(x) && targets_of(all).contains(x),
    decreases all.len(),
{
    if all.len() > 0 {
        lemma_rules_for_targets(all.drop_last(), t, x);
        let a = targets_of(all);
        let d = targets_of(all.drop_last());
        assert(a =~= d.push(all.last().target@));
        let rd = rules_for(all.drop_last(), t);
        if t.contains(all.last().target@) {
            assert(targets_of(rd.push(all.last())) =~= targets_of(rd).push(all.last().target@));
        }
        if d.contains(x) {
            let q = choose|q: int| 0 <= q < d.len() && d[q] == x;
            assert(a[q] == x);
        }
        if a.contains(x) && x != all.last().target@ {
            let q = choose|q: int| 0 <= q < a.len() && a[q] == x;
            assert(d[q] == x);
        }
        if targets_of(rd).contains(x) && t.contains(all.last().target@) {
            let q = choose|q: int| 0 <= q < targets_of(rd).len() && targets_of(rd)[q] == x;
            assert(targets_of(rd.push(all.last()))[q] == x);
        }
        if t.contains(all.last().target@) && targets_of(rd.push(all.last())).contains(x) && x != all.last().target@ {
            let q = choose|q: int| 0 <= q < targets_of(rd.push(all.last())).len() && targets_of(rd.push(all.last()))[q] == x;
            assert(targets_of(rd)[q] == x);
        }
        if t.contains(all.last().target@) && x == all.last().target@ {
            assert(targets_of(rd.push(all.last()))[rd.len() as int] == x);
        }
        assert(a[a.len() - 1] == all.last().target@);
    }
}

proof fn lemma_rules_for_step(all: Seq<LirRule>, t: Set<Seq<char>>, i: int)
    requires
        0 <= i < all.len(),
    ensures
        rules_for(all.take(i + 1), t) == if t.contains(all[i].target@) {
            rules_for(all.take(i), t).push(all[i])
        } else {
            rules_for(all.take(i), t)
        },
{
    assert(all.take(i + 1).drop_last() =~= all.take(i));
}


/// Names of the nodes of component `c`.
spec fn comp_set(sccs: Seq<Vec<usize>>, names: Seq<String>, c: int) -> Set<Seq<char>> {
    Set::new(|x: Seq<char>| exists|j: int| 0 <= j < sccs[c]@.len() && names[sccs[c]@[j] as int]@ == x)
}

proof fn lemma_distinct_len(names: Seq<Seq<char>>, t: Seq<Seq<char>>)
    requires
        names.no_duplicates(),
        forall|x: Seq<char>| names.contains(x) ==> t.contains(x),
    ensures
        names.len() <= t.len(),
{
    names.unique_seq_to_set();
    t.lemma_cardinality_of_set();
    assert(names.to_set().subset_of(t.to_set()));
    vstd::set_lib::lemma_len_subset(names.to_set(), t.to_set());
}

/// The component of each node.
fn component_of_nodes(sccs: &Vec<Vec<usize>>, n: usize) -> (cf: Vec<usize>)
    requires
        components_in_range(sccs@, n as int),
        disjoint_components(sccs@),
    ensures
        cf@.len() == n,
        forall|c: int, j: int| 0 <= c < sccs@.len() && 0 <= j < sccs@[c]@.len() ==> #[trigger] cf@[sccs@[c]@[j] as int] == c,
{
    let mut cf: Vec<usize> = Vec::new();
    let mut u: usize = 0;
    while u < n
        invariant
            u <= n,
            cf@.len() == u,
        decreases n - u,
    {
        cf.push(0);
        u = u + 1;
    }
    let mut c: usize = 0;
    while c < sccs.len()
        invariant
            c <= sccs@.len(),
            cf@.len() == n,
            components_in_range(sccs@, n as int),
            disjoint_components(sccs@),
            forall|cc: int, j: int| 0 <= cc < c && 0 <= j < sccs@[cc]@.len() ==> #[trigger] cf@[sccs@[cc]@[j] as int] == cc,
        decreases sccs@.len() - c,
    {
        let comp = &sccs[c];
        let mut j: usize = 0;
        while j < comp.len()
            invariant
                c < sccs@.len(),
                comp@ == sccs@[c as int]@,
                j <= comp@.len(),
                cf@.len() == n,
                components_in_range(sccs@, n as int),
                disjoint_components(sccs@),
                forall|cc: int, jj: int| 0 <= cc < c && 0 <= jj < sccs@[cc]@.len() ==> #[trigger] cf@[sccs@[cc]@[jj] as int] == cc,
                forall|jj: int| 0 <= jj < j ==> #[trigger] cf@[comp@[jj] as int] == c,
            decreases comp@.len() - j,
        {
            assert(sccs@[c as int]@[j as int] < n);
            let ghost before = cf@;
            cf.set(comp[j], c);
            proof {
                assert forall|cc: int, jj: int| 0 <= cc < c && 0 <= jj < sccs@[cc]@.len() implies #[trigger] cf@[sccs@[cc]@[jj] as int] == cc by {
                    assert(sccs@[cc]@[jj] != sccs@[c as int]@[j as int]);
                }
                assert forall|jj: int| 0 <= jj < j + 1 implies #[trigger] cf@[comp@[jj] as int] == c by {
                    if jj < j {
                        assert(comp@[jj] != comp@[j as int]);
                    }
                }
            }
            j = j + 1;
        }
        c = c + 1;
    }
    cf
}

/// The dependency graph over the rule targets `names`.
spec fn graph_built(
    ps: Seq<MirPredicate>,
    all: Seq<LirRule>,
    names: Seq<String>,
    adj: Seq<Vec<usize>>,
    negk: Seq<Vec<bool>>,
) -> bool {
    &&& views(names).no_duplicates()
    &&& forall|x: Seq<char>| views(names).contains(x) <==> targets_of(all).contains(x)
    &&& adj.len() == names.len()
    &&& negk.len() == names.len()
    &&& forall|v: int|
        0 <= v < adj.len() ==> row_sound(ps, names, names[v]@, (#[trigger] adj[v])@, negk[v]@) && row_complete(
            ps,
            names,
            names[v]@,
            adj[v]@,
            negk[v]@,
        )
}

/// No component contains an edge marked negative between two of its nodes.
spec fn no_negative_inside(sccs: Seq<Vec<usize>>, adj: Seq<Vec<usize>>, negk: Seq<Vec<bool>>) -> bool {
    forall|cc: int, j: int, k: int|
        0 <= cc < sccs.len() && 0 <= j < sccs[cc]@.len() && 0 <= k < adj[sccs[cc]@[j] as int]@.len()
            && negk[sccs[cc]@[j] as int]@[k] ==> !sccs[cc]@.contains(#[trigger] adj[sccs[cc]@[j] as int]@[k])
}

proof fn lemma_name_index(names: Seq<String>, a: int, b: int)
    requires
        views(names).no_duplicates(),
        0 <= a < names.len(),
        0 <= b < names.len(),
        names[a]@ == names[b]@,
    ensures
        a == b,
{
    assert(views(names)[a] == names[a]@);
    assert(views(names)[b] == names[b]@);
}

proof fn lemma_same_node(sccs: Seq<Vec<usize>>, i: int, a: int, j: int, b: int)
    requires
        disjoint_components(sccs),
        0 <= i < sccs.len(),
        0 <= j < sccs.len(),
        0 <= a < sccs[i]@.len(),
        0 <= b < sccs[j]@.len(),
        sccs[i]@[a] == sccs[j]@[b],
    ensures
        i == j,
{
    if i < j {
        assert(sccs[i]@[a] != sccs[j]@[b]);
    } else if j < i {
        assert(sccs[j]@[b] != sccs[i]@[a]);
    }
}

proof fn lemma_deps_order(
    ps: Seq<MirPredicate>,
    all: Seq<LirRule>,
    names: Seq<String>,
    adj: Seq<Vec<usize>>,
    negk: Seq<Vec<bool>>,
    sccs: Seq<Vec<usize>>,
    i: int,
    j: int,
    x: Seq<char>,
    y: Seq<char>,
    g: bool,
)
    requires
        graph_built(ps, all, names, adj, negk),
        components_in_range(sccs, names.len() as int),
        disjoint_components(sccs),
        successors_earlier(sccs, adj),
        no_negative_inside(sccs, adj, negk),
        0 <= i < sccs.len(),
        0 <= j < sccs.len(),
        comp_set(sccs, names, i).contains(x),
        comp_set(sccs, names, j).contains(y),
        depends(ps, x, y, g),
    ensures
        j <= i,
        g ==> j < i,
{
    let a = choose|a: int| 0 <= a < sccs[i]@.len() && names[sccs[i]@[a] as int]@ == x;
    let b = choose|b: int| 0 <= b < sccs[j]@.len() && names[sccs[j]@[b] as int]@ == y;
    let u = sccs[i]@[a] as int;
    let w = sccs[j]@[b] as int;
    assert(row_complete(ps, names, names[u]@, adj[u]@, negk[u]@));
    assert(views(names)[w] == names[w]@);
    let k = choose|k: int| 0 <= k < adj[u]@.len() && names[adj[u]@[k] as int]@ == y && negk[u]@[k] == g;
    assert(row_sound(ps, names, names[u]@, adj[u]@, negk[u]@));
    lemma_name_index(names, adj[u]@[k] as int, w);
    assert(member_upto(sccs, adj[sccs[i]@[a] as int]@[k] as int, i));
    let (m, l) = choose|m: int, l: int| 0 <= m <= i && 0 <= l < sccs[m]@.len() && sccs[m]@[l] == w;
    lemma_same_node(sccs, m, l, j, b);
    if g && j == i {
        assert(sccs[i]@[b] == adj[sccs[i]@[a] as int]@[k]);
        assert(sccs[i]@.contains(adj[sccs[i]@[a] as int]@[k]));
    }
}

proof fn lemma_comp_set_disjoint(names: Seq<String>, sccs: Seq<Vec<usize>>, i: int, j: int, x: Seq<char>)
    requires
        views(names).no_duplicates(),
        components_in_range(sccs, names.len() as int),
        disjoint_components(sccs),
        0 <= i < sccs.len(),
        0 <= j < sccs.len(),
        comp_set(sccs, names, i).contains(x),
        comp_set(sccs, names, j).contains(x),
    ensures
        i == j,
{
    let a = choose|a: int| 0 <= a < sccs[i]@.len() && names[sccs[i]@[a] as int]@ == x;
    let b = choose|b: int| 0 <= b < sccs[j]@.len() && names[sccs[j]@[b] as int]@ == x;
    lemma_name_index(names, sccs[i]@[a] as int, sccs[j]@[b] as int);
    lemma_same_node(sccs, i, a, j, b);
}

/// Whether node `u` has a positive edge to itself.
fn positive_self_edge(adj: &Vec<Vec<usize>>, negk: &Vec<Vec<bool>>, u: usize) -> (r: bool)
    requires
        u < adj@.len(),
        adj@.len() == negk@.len(),
        adj@[u as int]@.len() == negk@[u as int]@.len(),
    ensures
        r == exists|k: int| 0 <= k < adj@[u as int]@.len() && adj@[u as int]@[k] == u && !negk@[u as int]@[k],
{
    let row = &adj[u];
    let kinds = &negk[u];
    let mut k: usize = 0;
    while k < row.len()
        invariant
            row@ == adj@[u as int]@,
            kinds@ == negk@[u as int]@,
            row@.len() == kinds@.len(),
            k <= row@.len(),
            forall|kk: int| 0 <= kk < k ==> !(row@[kk] == u && !kinds@[kk]),
        decreases row@.len() - k,
    {
        if row[k] == u && !kinds[k] {
            return true;
        }
        k = k + 1;
    }
    false
}

proof fn lemma_recursive_flag(
    ps: Seq<MirPredicate>,
    all: Seq<LirRule>,
    names: Seq<String>,
    adj: Seq<Vec<usize>>,
    negk: Seq<Vec<bool>>,
    sccs: Seq<Vec<usize>>,
    i: int,
    st: LirStratum,
)
    requires
        graph_built(ps, all, names, adj, negk),
        components_in_range(sccs, names.len() as int),
        disjoint_components(sccs),
        0 <= i < sccs.len(),
        stratum_targets(st) == comp_set(sccs, names, i),
        st.recursive == (sccs[i]@.len() > 1 || exists|k: int|
            0 <= k < adj[sccs[i]@[0] as int]@.len() && adj[sccs[i]@[0] as int]@[k] == sccs[i]@[0] && !negk[sccs[i]@[0] as int]@[k]),
    ensures
        st.recursive == ((exists|x: Seq<char>, y: Seq<char>|
            stratum_targets(st).contains(x) && stratum_targets(st).contains(y) && x != y) || (exists|x: Seq<char>|
            stratum_targets(st).contains(x) && depends(ps, x, x, false))),
{
    let t = comp_set(sccs, names, i);
    let u = sccs[i]@[0] as int;
    assert(t.contains(names[u]@));
    assert(row_sound(ps, names, names[u]@, adj[u]@, negk[u]@));
    assert(row_complete(ps, names, names[u]@, adj[u]@, negk[u]@));
    if sccs[i]@.len() > 1 {
        let w = sccs[i]@[1] as int;
        assert(t.contains(names[w]@));
        if names[u]@ == names[w]@ {
            lemma_name_index(names, u, w);
        }
    } else {
        assert forall|x: Seq<char>| t.contains(x) implies x == names[u]@ by {
            let a = choose|a: int| 0 <= a < sccs[i]@.len() && names[sccs[i]@[a] as int]@ == x;
        }
        if exists|k: int| 0 <= k < adj[u]@.len() && adj[u]@[k] == u && !negk[u]@[k] {
            let k = choose|k: int| 0 <= k < adj[u]@.len() && adj[u]@[k] == u && !negk[u]@[k];
            assert(depends(ps, names[u]@, names[adj[u]@[k] as int]@, negk[u]@[k]));
        }
        if exists|x: Seq<char>| t.contains(x) && depends(ps, x, x, false) {
            assert(depends(ps, names[u]@, names[u]@, false));
            assert(views(names)[u] == names[u]@);
            let k = choose|k: int| 0 <= k < adj[u]@.len() && names[adj[u]@[k] as int]@ == names[u]@ && negk[u]@[k] == false;
            lemma_name_index(names, adj[u]@[k] as int, u);
        }
    }
}

/// Groups the rules into strata along the strongly connected components of
/// the dependency graph of their targets, and refuses a component that
/// depends on itself through negation or aggregation.
/// The kind of a dependency edge from `a` to `b` of the graph.
spec fn edge_kind(adj: Seq<Vec<usize>>, negk: Seq<Vec<bool>>, a: int, b: int) -> bool {
    negk[a]@[choose|kk: int| 0 <= kk < adj[a]@.len() && #[trigger] adj[a]@[kk] == b]
}

proof fn lemma_path_suffix(adj: Seq<Vec<usize>>, p: Seq<int>, t: int)
    requires
        is_path(adj, p),
        0 <= t < p.len(),
    ensures
        reaches(adj, p[t], p.last()),
{
    let q = p.subrange(t, p.len() as int);
    assert forall|i: int| 0 <= i < q.len() - 1 implies #[trigger] is_edge(adj, q[i], q[i + 1]) by {
        assert(q[i] == p[t + i] && q[i + 1] == p[t + i + 1]);
        assert(is_edge(adj, p[t + i], p[(t + i) + 1]));
    }
    assert(is_path(adj, q));
    assert(q[0] == p[t] && q.last() == p.last());
}

/// A negative edge inside a strongly connected component closes a cycle of
/// dependencies through negation, all of whose relations are named by the
/// component.
proof fn lemma_component_cycle(
    ps: Seq<MirPredicate>,
    all: Seq<LirRule>,
    names: Seq<String>,
    adj: Seq<Vec<usize>>,
    negk: Seq<Vec<bool>>,
    sccs: Seq<Vec<usize>>,
    c: int,
    j: int,
    k: int,
    ns: Seq<Seq<char>>,
)
    requires
        graph_built(ps, all, names, adj, negk),
        successors_earlier(sccs, adj),
        disjoint_components(sccs),
        components_connected(sccs, adj),
        components_in_range(sccs, names.len() as int),
        0 <= c < sccs.len(),
        0 <= j < sccs[c]@.len(),
        0 <= k < adj[sccs[c]@[j] as int]@.len(),
        negk[sccs[c]@[j] as int]@[k],
        sccs[c]@.contains(adj[sccs[c]@[j] as int]@[k]),
        ns.len() == sccs[c]@.len(),
        forall|q: int| 0 <= q < ns.len() ==> #[trigger] ns[q] == names[sccs[c]@[q] as int]@,
    ensures
        cycle_names_cycle(ps, all, ns),
{
    let comp = sccs[c]@;
    let uj = comp[j] as int;
    let w = adj[uj]@[k] as int;
    let qw = choose|q: int| 0 <= q < comp.len() && comp[q] == w;
    assert(reaches(adj, comp[qw] as int, comp[j] as int));
    let p = choose|p: Seq<int>| #[trigger] is_path(adj, p) && p[0] == w && p.last() == uj;
    assert(member_upto(sccs, p[0], c)) by {
        assert(sccs[c]@[qw] == w);
    }
    assert forall|t: int| 0 <= t < p.len() implies exists|l: int| 0 <= l < comp.len() && comp[l] == #[trigger] p[t] by {
        lemma_walk_stays_upto(sccs, adj, p, c, t);
        let (m, l) = choose|m: int, l: int| 0 <= m <= c && 0 <= l < sccs[m]@.len() && sccs[m]@[l] == p[t];
        if m < c {
            lemma_path_suffix(adj, p, t);
            lemma_components_maximal(sccs, adj, m, l, c, j);
            assert(false);
        }
        assert(comp[l] == p[t]);
    }
    let n = p.len();
    let cycle = Seq::new(n, |t: int| names[p[t]]@);
    let kinds = Seq::new(n, |t: int| if t < n - 1 { edge_kind(adj, negk, p[t], p[t + 1]) } else { true });
    assert forall|t: int| 0 <= t < n implies 0 <= #[trigger] p[t] < names.len() && ns.contains(cycle[t]) by {
        let l = choose|l: int| 0 <= l < comp.len() && comp[l] == p[t];
        assert(sccs[c]@[l] < names.len());
        assert(ns[l] == names[comp[l] as int]@);
    }
    assert forall|t: int| 0 <= t < n implies targets_of(all).contains(#[trigger] cycle[t]) by {
        assert(0 <= p[t] < names.len());
        assert(views(names)[p[t]] == names[p[t]]@);
        assert(views(names).contains(cycle[t]));
    }
    assert forall|t: int| 0 <= t < n - 1 implies #[trigger] depends(ps, cycle[t], cycle[t + 1], kinds[t]) by {
        assert(is_edge(adj, p[t], p[t + 1]));
        let a = p[t];
        let kk = choose|kk: int| 0 <= kk < adj[a]@.len() && #[trigger] adj[a]@[kk] == p[t + 1];
        assert(0 <= a < names.len());
        assert(row_sound(ps, names, names[a]@, adj[a]@, negk[a]@));
        assert(depends(ps, names[a]@, names[adj[a]@[kk] as int]@, negk[a]@[kk]));
    }
    assert(row_sound(ps, names, names[uj]@, adj[uj]@, negk[uj]@));
    assert(depends(ps, cycle[n - 1], cycle[0], kinds[n - 1]));
    assert(kinds[n - 1]);
    assert(negation_cycle(ps, all, cycle, kinds));
}


/// The position of a rule target among `names`.
spec fn name_index(names: Seq<String>, x: Seq<char>) -> int {
    choose|i: int| 0 <= i < names.len() && names[i]@ == x
}

proof fn lemma_name_index_of(
    ps: Seq<MirPredicate>,
    all: Seq<LirRule>,
    names: Seq<String>,
    adj: Seq<Vec<usize>>,
    negk: Seq<Vec<bool>>,
    x: Seq<char>,
)
    requires
        graph_built(ps, all, names, adj, negk),
        targets_of(all).contains(x),
    ensures
        0 <= name_index(names, x) < names.len(),
        names[name_index(names, x)]@ == x,
{
    assert(views(names).contains(x));
    let i = choose|i: int| 0 <= i < views(names).len() && views(names)[i] == x;
    assert(names[i]@ == x);
}

/// A walk in the dependency graph is a walk along dependencies among the
/// rule targets.
proof fn lemma_graph_path_deps(
    ps: Seq<MirPredicate>,
    all: Seq<LirRule>,
    names: Seq<String>,
    adj: Seq<Vec<usize>>,
    negk: Seq<Vec<bool>>,
    p: Seq<int>,
)
    requires
        graph_built(ps, all, names, adj, negk),
        is_path(adj, p),
        0 <= p[0] < names.len(),
    ensures
        dep_path(ps, all, Seq::new(p.len(), |t: int| names[p[t]]@)),
{
    assert forall|t: int| 0 <= t < p.len() implies 0 <= #[trigger] p[t] < names.len() by {
        if t > 0 {
            assert(is_edge(adj, p[t - 1], p[(t - 1) + 1]));
            let a = p[t - 1];
            let kk = choose|kk: int| 0 <= kk < adj[a]@.len() && adj[a]@[kk] == p[t];
            assert(row_sound(ps, names, names[a]@, adj[a]@, negk[a]@));
        }
    }
    let q = Seq::new(p.len(), |t: int| names[p[t]]@);
    assert forall|t: int| 0 <= t < q.len() implies targets_of(all).contains(#[trigger] q[t]) by {
        assert(0 <= p[t] < names.len());
        assert(views(names)[p[t]] == names[p[t]]@);
        assert(views(names).contains(q[t]));
    }
    assert forall|t: int| 0 <= t < q.len() - 1 implies #[trigger] dep_edge(ps, q[t], q[t + 1]) by {
        assert(is_edge(adj, p[t], p[t + 1]));
        let a = p[t];
        let kk = choose|kk: int| 0 <= kk < adj[a]@.len() && #[trigger] adj[a]@[kk] == p[t + 1];
        assert(row_sound(ps, names, names[a]@, adj[a]@, negk[a]@));
        assert(depends(ps, names[a]@, names[adj[a]@[kk] as int]@, negk[a]@[kk]));
    }
}

proof fn lemma_graph_reaches_deps(
    ps: Seq<MirPredicate>,
    all: Seq<LirRule>,
    names: Seq<String>,
    adj: Seq<Vec<usize>>,
    negk: Seq<Vec<bool>>,
    a: int,
    b: int,
)
    requires
        graph_built(ps, all, names, adj, negk),
        reaches(adj, a, b),
        0 <= a < names.len(),
    ensures
        dep_reaches(ps, all, names[a]@, names[b]@),
{
    let p = choose|p: Seq<int>| #[trigger] is_path(adj, p) && p[0] == a && p.last() == b;
    lemma_graph_path_deps(ps, all, names, adj, negk, p);
    let q = Seq::new(p.len(), |t: int| names[p[t]]@);
    assert(q[0] == names[a]@);
    assert(q.last() == names[b]@);
}

/// A walk along dependencies among the rule targets is a walk in the
/// dependency graph.
proof fn lemma_deps_graph(
    ps: Seq<MirPredicate>,
    all: Seq<LirRule>,
    names: Seq<String>,
    adj: Seq<Vec<usize>>,
    negk: Seq<Vec<bool>>,
    x: Seq<char>,
    y: Seq<char>,
)
    requires
        graph_built(ps, all, names, adj, negk),
        dep_reaches(ps, all, x, y),
    ensures
        reaches(adj, name_index(names, x), name_index(names, y)),
{
    let q = choose|q: Seq<Seq<char>>| #[trigger] dep_path(ps, all, q) && q[0] == x && q.last() == y;
    let p = Seq::new(q.len(), |t: int| name_index(names, q[t]));
    assert forall|t: int| 0 <= t < q.len() implies 0 <= #[trigger] p[t] < names.len() && names[p[t]]@ == q[t] by {
        lemma_name_index_of(ps, all, names, adj, negk, q[t]);
    }
    assert forall|t: int| 0 <= t < p.len() - 1 implies #[trigger] is_edge(adj, p[t], p[t + 1]) by {
        assert(dep_edge(ps, q[t], q[t + 1]));
        let g = choose|g: bool| #[trigger] depends(ps, q[t], q[t + 1], g);
        assert(0 <= p[t] < names.len() && names[p[t]]@ == q[t]);
        assert(0 <= p[t + 1] < names.len() && names[p[t + 1]]@ == q[t + 1]);
        assert(row_complete(ps, names, names[p[t]]@, adj[p[t]]@, negk[p[t]]@));
        assert(views(names)[p[t + 1]] == q[t + 1]);
        assert(views(names).contains(q[t + 1]));
        let k = choose|k: int| 0 <= k < adj[p[t]]@.len() && names[adj[p[t]]@[k] as int]@ == q[t + 1] && negk[p[t]]@[k] == g;
        assert(row_sound(ps, names, names[p[t]]@, adj[p[t]]@, negk[p[t]]@));
        lemma_name_index(names, adj[p[t]]@[k] as int, p[t + 1]);
    }
    assert(is_path(adj, p));
}

/// Each component found over the dependency graph is exactly one strongly
/// connected component of the dependencies among the rule targets.
proof fn lemma_comp_exact(
    ps: Seq<MirPredicate>,
    all: Seq<LirRule>,
    names: Seq<String>,
    adj: Seq<Vec<usize>>,
    negk: Seq<Vec<bool>>,
    sccs: Seq<Vec<usize>>,
    c: int,
)
    requires
        graph_built(ps, all, names, adj, negk),
        components_in_range(sccs, names.len() as int),
        disjoint_components(sccs),
        successors_earlier(sccs, adj),
        components_connected(sccs, adj),
        forall|v: int| 0 <= v < names.len() ==> #[trigger] member(sccs, v),
        0 <= c < sccs.len(),
    ensures
        is_component(ps, all, comp_set(sccs, names, c)),
{
    let t = comp_set(sccs, names, c);
    assert(t.contains(names[sccs[c]@[0] as int]@));
    assert forall|x: Seq<char>| #[trigger] t.contains(x) implies targets_of(all).contains(x) by {
        let j = choose|j: int| 0 <= j < sccs[c]@.len() && names[sccs[c]@[j] as int]@ == x;
        let u = sccs[c]@[j] as int;
        assert(views(names)[u] == names[u]@);
        assert(views(names).contains(x));
    }
    assert forall|x: Seq<char>, y: Seq<char>| #[trigger] t.contains(x) && #[trigger] t.contains(y) implies same_scc(
        ps,
        all,
        x,
        y,
    ) by {
        let j = choose|j: int| 0 <= j < sccs[c]@.len() && names[sccs[c]@[j] as int]@ == x;
        let k = choose|k: int| 0 <= k < sccs[c]@.len() && names[sccs[c]@[k] as int]@ == y;
        assert(reaches(adj, sccs[c]@[j] as int, sccs[c]@[k] as int));
        assert(reaches(adj, sccs[c]@[k] as int, sccs[c]@[j] as int));
        lemma_graph_reaches_deps(ps, all, names, adj, negk, sccs[c]@[j] as int, sccs[c]@[k] as int);
        lemma_graph_reaches_deps(ps, all, names, adj, negk, sccs[c]@[k] as int, sccs[c]@[j] as int);
    }
    assert forall|x: Seq<char>, y: Seq<char>| #[trigger] t.contains(x) && #[trigger] same_scc(ps, all, x, y) implies t.contains(
        y,
    ) by {
        let j = choose|j: int| 0 <= j < sccs[c]@.len() && names[sccs[c]@[j] as int]@ == x;
        let a = sccs[c]@[j] as int;
        lemma_deps_graph(ps, all, names, adj, negk, x, y);
        lemma_deps_graph(ps, all, names, adj, negk, y, x);
        let yp = choose|p: Seq<Seq<char>>| #[trigger] dep_path(ps, all, p) && p[0] == x && p.last() == y;
        assert(targets_of(all).contains(yp[yp.len() - 1]));
        lemma_name_index_of(ps, all, names, adj, negk, y);
        assert(targets_of(all).contains(x)) by {
            assert(views(names)[a] == names[a]@);
            assert(views(names).contains(x));
        }
        lemma_name_index_of(ps, all, names, adj, negk, x);
        lemma_name_index(names, name_index(names, x), a);
        let b = name_index(names, y);
        assert(member(sccs, b));
        let (m, l) = choose|m: int, l: int| 0 <= m < sccs.len() && 0 <= l < sccs[m]@.len() && sccs[m]@[l] == b;
        if c < m {
            lemma_components_maximal(sccs, adj, c, j, m, l);
        } else if m < c {
            lemma_components_maximal(sccs, adj, m, l, c, j);
        }
        assert(m == c);
        assert(names[sccs[c]@[l] as int]@ == y);
    }
}

/// Some cycle of dependencies through negation lies among the names.
pub open spec fn cycle_names_cycle(ps: Seq<MirPredicate>, all: Seq<LirRule>, ns: Seq<Seq<char>>) -> bool {
    exists|cycle: Seq<Seq<char>>, kinds: Seq<bool>|
        #[trigger] negation_cycle(ps, all, cycle, kinds) && forall|i: int| 0 <= i < cycle.len() ==> ns.contains(
            #[trigger] cycle[i],
        )
}

fn stratify_rules(rules: Vec<LirRule>, mir: &MirProgram) -> (r: Result<Vec<LirStratum>, LowerError>)
    requires
        rules@.len() < usize::MAX,
    ensures
        match r {
            Ok(strata) => strata_ok(mir.predicates@, rules@, strata@),
            Err(LowerError::NegationCycle(ns)) => cycle_names_ok(mir.predicates@, rules@, views(ns@)),
        },
{
    let ghost ps = mir.predicates@;
    let ghost all = rules@;
    let names = target_names(&rules);
    let n = names.len();
    proof {
        lemma_distinct_len(views(names@), targets_of(all));
    }
    // Dependency graph over the targets.
    let mut adj: Vec<Vec<usize>> = Vec::new();
    let mut negk: Vec<Vec<bool>> = Vec::new();
    let mut u: usize = 0;
    while u < n
        invariant
            ps == mir.predicates@,
            n == names@.len(),
            u <= n,
            adj@.len() == u,
            negk@.len() == u,
            forall|v: int|
                0 <= v < u ==> row_sound(ps, names@, names@[v]@, (#[trigger] adj@[v])@, negk@[v]@) && row_complete(
                    ps,
                    names@,
                    names@[v]@,
                    adj@[v]@,
                    negk@[v]@,
                ),
        decreases n - u,
    {
        let (row, kinds) = dependency_row(mir, &names, names[u].as_str());
        adj.push(row);
        negk.push(kinds);
        proof {
            assert(adj@[u as int] == row && negk@[u as int] == kinds);
        }
        u = u + 1;
    }
    proof {
        assert(graph_built(ps, all, names@, adj@, negk@));
    }
    let mut roots: Vec<usize> = Vec::new();
    u = 0;
    while u < n
        invariant
            u <= n,
            roots@.len() == u,
            forall|v: int| 0 <= v < u ==> #[trigger] roots@[v] == v,
        decreases n - u,
    {
        roots.push(u);
        u = u + 1;
    }
    proof {
        assert forall|a: int, k: int| 0 <= a < adj@.len() && 0 <= k < adj@[a]@.len() implies (#[trigger] adj@[a]@[k]) < adj@.len() by {
            assert(row_sound(ps, names@, names@[a]@, adj@[a]@, negk@[a]@));
        }
        assert(graph_ok(adj@));
    }
    let sccs = strongly_connected_components(&adj, &roots);
    proof {
        assert forall|v: int| 0 <= v < n implies #[trigger] member(sccs@, v) by {
            assert(roots@[v] == v);
        }
        assert forall|cc: int| 0 <= cc < sccs@.len() implies #[trigger] is_component(ps, all, comp_set(sccs@, names@, cc)) by {
            lemma_comp_exact(ps, all, names@, adj@, negk@, sccs@, cc);
        }
    }
    // A negative edge inside a component is a cycle through negation.
    let mut c: usize = 0;
    while c < sccs.len()
        invariant
            ps == mir.predicates@,
            all == rules@,
            c <= sccs@.len(),
            n == names@.len(),
            graph_built(ps, all, names@, adj@, negk@),
            components_in_range(sccs@, n as int),
            disjoint_components(sccs@),
            successors_earlier(sccs@, adj@),
            components_connected(sccs@, adj@),
            forall|cc: int| 0 <= cc < sccs@.len() ==> #[trigger] is_component(ps, all, comp_set(sccs@, names@, cc)),
            forall|cc: int, j: int, k: int|
                0 <= cc < c && 0 <= j < sccs@[cc]@.len() && 0 <= k < adj@[sccs@[cc]@[j] as int]@.len()
                    && negk@[sccs@[cc]@[j] as int]@[k] ==> !sccs@[cc]@.contains(#[trigger] adj@[sccs@[cc]@[j] as int]@[k]),
        decreases sccs@.len() - c,
    {
        proof {
            assert(sccs@[c as int]@.len() > 0);
            assert forall|v: int| 0 <= v < adj@.len() implies (#[trigger] adj@[v])@.len() == negk@[v]@.len() by {
                assert(row_sound(ps, names@, names@[v]@, adj@[v]@, negk@[v]@));
            }
        }
        if negative_inside(&sccs[c], &adj, &negk) {
            let ns = component_names(&sccs[c], &names);
            proof {
                let comp = sccs@[c as int]@;
                let (j, k) = choose|j: int, k: int|
                    0 <= j < comp.len() && 0 <= k < adj@[comp[j] as int]@.len() && negk@[comp[j] as int]@[k]
                        && comp.contains(#[trigger] adj@[comp[j] as int]@[k]);
                let w = adj@[comp[j] as int]@[k];
                let q = choose|q: int| 0 <= q < comp.len() && comp[q] == w;
                let uj = comp[j] as int;
                assert(row_sound(ps, names@, names@[uj]@, adj@[uj]@, negk@[uj]@));
                assert(views(ns@)[j] == names@[comp[j] as int]@);
                assert(views(ns@)[q] == names@[comp[q] as int]@);
                assert(depends(ps, views(ns@)[j], views(ns@)[q], true));
                assert forall|a: int| 0 <= a < views(ns@).len() implies targets_of(all).contains(#[trigger] views(ns@)[a]) by {
                    assert(views(ns@)[a] == names@[comp[a] as int]@);
                    assert(views(names@)[comp[a] as int] == names@[comp[a] as int]@);
                    assert(views(names@).contains(views(ns@)[a]));
                }
                assert forall|a: int, b: int| 0 <= a < b < views(ns@).len() implies views(ns@)[a] != views(ns@)[b] by {
                    assert(comp[a] != comp[b]);
                    assert(views(names@)[comp[a] as int] == names@[comp[a] as int]@);
                    assert(views(names@)[comp[b] as int] == names@[comp[b] as int]@);
                }
                assert forall|a: int| 0 <= a < views(ns@).len() implies #[trigger] views(ns@)[a] == names@[sccs@[c as int]@[a] as int]@ by {
                    assert(views(ns@)[a] == names@[comp[a] as int]@);
                }
                lemma_component_cycle(ps, all, names@, adj@, negk@, sccs@, c as int, j, k, views(ns@));
                assert(depends(ps, views(ns@)[j], views(ns@)[q], true));
                assert(negative_within(ps, views(ns@)));
                assert(views(ns@).to_set() =~= comp_set(sccs@, names@, c as int)) by {
                    assert forall|x: Seq<char>| views(ns@).to_set().contains(x) implies comp_set(sccs@, names@, c as int).contains(x) by {
                        let a = choose|a: int| 0 <= a < views(ns@).len() && views(ns@)[a] == x;
                        assert(views(ns@)[a] == names@[comp[a] as int]@);
                    }
                    assert forall|x: Seq<char>| comp_set(sccs@, names@, c as int).contains(x) implies views(ns@).to_set().contains(x) by {
                        let a = choose|a: int| 0 <= a < comp.len() && names@[comp[a] as int]@ == x;
                        assert(views(ns@)[a] == names@[comp[a] as int]@);
                        assert(views(ns@).contains(x));
                    }
                }
                assert(is_component(ps, all, comp_set(sccs@, names@, c as int)));
            }
            return Err(LowerError::NegationCycle(ns));
        }
        c = c + 1;
    }
    let cf = component_of_nodes(&sccs, n);
    // The stratum of each rule is the component of its target.
    let mut keys: Vec<usize> = Vec::new();
    let mut tix: Vec<usize> = Vec::new();
    let mut i: usize = 0;
    while i < rules.len()
        invariant
            i <= rules@.len(),
            all == rules@,
            keys@.len() == i,
            tix@.len() == i,
            cf@.len() == n,
            n == names@.len(),
            graph_built(ps, all, names@, adj@, negk@),
            forall|q: int|
                0 <= q < i ==> #[trigger] tix@[q] < n && names@[tix@[q] as int]@ == all[q].target@ && keys@[q] == cf@[tix@[q] as int],
        decreases rules@.len() - i,
    {
        proof {
            assert(targets_of(all)[i as int] == all[i as int].target@);
            assert(targets_of(all).contains(all[i as int].target@));
        }
        match find_name(&names, rules[i].target.as_str()) {
            Some(t) => {
                keys.push(cf[t]);
                tix.push(t);
            },
            None => {
                proof {
                    assert(false);
                }
            },
        }
        i = i + 1;
    }
    let ghost keys_v = keys@;
    let ghost tix_v = tix@;
    let ghost cf_v = cf@;
    proof {
        assert forall|q: int, cc: int| 0 <= q < all.len() && 0 <= cc < sccs@.len() implies keys_v[q] < sccs@.len()
            && (keys_v[q] == cc <==> #[trigger] comp_set(sccs@, names@, cc).contains(#[trigger] all[q].target@)) by {
            let t = tix_v[q] as int;
            assert(member(sccs@, t));
            let (c1, j) = choose|c1: int, j: int| 0 <= c1 < sccs@.len() && 0 <= j < sccs@[c1]@.len() && sccs@[c1]@[j] == t;
            assert(cf_v[sccs@[c1]@[j] as int] == c1);
            assert(comp_set(sccs@, names@, c1).contains(all[q].target@));
            if comp_set(sccs@, names@, cc).contains(all[q].target@) {
                lemma_comp_set_disjoint(names@, sccs@, c1, cc, all[q].target@);
            }
        }
    }
    proof {
        assert forall|q: int| 0 <= q < all.len() implies #[trigger] keys_v[q] < sccs@.len() by {
            let t = tix_v[q] as int;
            assert(member(sccs@, t));
            let (c1, j) = choose|c1: int, j: int| 0 <= c1 < sccs@.len() && 0 <= j < sccs@[c1]@.len() && sccs@[c1]@[j] == t;
            assert(cf_v[sccs@[c1]@[j] as int] == c1);
        }
    }
    // Move the rules into slots from which each stratum takes its own.
    let mut rest = rules;
    let mut slots: Vec<Option<LirRule>> = Vec::new();
    while rest.len() > 0
        invariant
            slots@.len() + rest@.len() == all.len(),
            forall|q: int| 0 <= q < slots@.len() ==> #[trigger] slots@[q] == Some(all[q]),
            forall|q: int| 0 <= q < rest@.len() ==> #[trigger] rest@[q] == all[slots@.len() + q],
        decreases rest@.len(),
    {
        let r = rest.remove(0);
        slots.push(Some(r));
    }
    let mut strata: Vec<LirStratum> = Vec::new();
    let mut c: usize = 0;
    while c < sccs.len()
        invariant
            ps == mir.predicates@,
            c <= sccs@.len(),
            keys@ == keys_v,
            keys_v.len() == all.len(),
            slots@.len() == all.len(),
            n == names@.len(),
            graph_built(ps, all, names@, adj@, negk@),
            components_in_range(sccs@, n as int),
            disjoint_components(sccs@),
            forall|cc: int| 0 <= cc < sccs@.len() ==> #[trigger] is_component(ps, all, comp_set(sccs@, names@, cc)),
            forall|q: int| 0 <= q < all.len() ==> #[trigger] keys_v[q] < sccs@.len(),
            forall|q: int, cc: int| 0 <= q < all.len() && 0 <= cc < sccs@.len() ==> (keys_v[q] == cc <==> #[trigger] comp_set(
                sccs@,
                names@,
                cc,
            ).contains(#[trigger] all[q].target@)),
            forall|q: int| 0 <= q < all.len() ==> #[trigger] slots@[q] == if keys_v[q] < c { None } else { Some(all[q]) },
            strata@.len() == c,
            forall|cc: int|
                0 <= cc < c ==> (#[trigger] strata@[cc]).rules@ == rules_for(all, comp_set(sccs@, names@, cc))
                    && stratum_targets(strata@[cc]) == comp_set(sccs@, names@, cc) && strata@[cc].rules@.len() > 0
                    && strata@[cc].recursive == (sccs@[cc]@.len() > 1 || exists|k: int|
                    0 <= k < adj@[sccs@[cc]@[0] as int]@.len() && adj@[sccs@[cc]@[0] as int]@[k] == sccs@[cc]@[0]
                        && !negk@[sccs@[cc]@[0] as int]@[k]),
        decreases sccs@.len() - c,
    {
        let ghost t = comp_set(sccs@, names@, c as int);
        let mut st_rules: Vec<LirRule> = Vec::new();
        let mut q: usize = 0;
        while q < slots.len()
            invariant
                c < sccs@.len(),
                keys@ == keys_v,
                keys_v.len() == all.len(),
                slots@.len() == all.len(),
                q <= all.len(),
                t == comp_set(sccs@, names@, c as int),
                forall|p: int| 0 <= p < all.len() ==> #[trigger] keys_v[p] < sccs@.len(),
                forall|p: int, cc: int| 0 <= p < all.len() && 0 <= cc < sccs@.len() ==> (keys_v[p] == cc <==> #[trigger] comp_set(
                    sccs@,
                    names@,
                    cc,
                ).contains(#[trigger] all[p].target@)),
                forall|p: int|
                    0 <= p < all.len() ==> #[trigger] slots@[p] == if keys_v[p] < c || (keys_v[p] == c && p < q) {
                        None
                    } else {
                        Some(all[p])
                    },
                st_rules@ == rules_for(all.take(q as int), t),
            decreases all.len() - q,
        {
            proof {
                lemma_rules_for_step(all, t, q as int);
                assert(keys_v[q as int] == c <==> t.contains(all[q as int].target@));
            }
            if keys[q] == c {
                let taken = slots.remove(q);
                slots.insert(q, None);
                match taken {
                    Some(r) => {
                        st_rules.push(r);
                    },
                    None => {
                        proof {
                            assert(false);
                        }
                    },
                }
            }
            q = q + 1;
        }
        proof {
            assert(all.take(all.len() as int) =~= all);
            assert(stratum_targets(LirStratum { rules: st_rules, recursive: false }) =~= t) by {
                assert forall|x: Seq<char>| targets_of(st_rules@).to_set().contains(x) <==> t.contains(x) by {
                    lemma_rules_for_targets(all, t, x);
                    if t.contains(x) {
                        let a = choose|a: int| 0 <= a < sccs@[c as int]@.len() && names@[sccs@[c as int]@[a] as int]@ == x;
                        assert(views(names@)[sccs@[c as int]@[a] as int] == x);
                        assert(views(names@).contains(x));
                    }
                }
            }
            let u0 = sccs@[c as int]@[0] as int;
            assert(views(names@)[u0] == names@[u0]@);
            assert(t.contains(names@[u0]@));
            lemma_rules_for_targets(all, t, names@[u0]@);
            assert(st_rules@.len() > 0);
        }
        let comp = &sccs[c];
        proof {
            assert(row_sound(ps, names@, names@[comp@[0] as int]@, adj@[comp@[0] as int]@, negk@[comp@[0] as int]@));
        }
        let recursive = if comp.len() > 1 {
            true
        } else {
            positive_self_edge(&adj, &negk, comp[0])
        };
        if st_rules.len() > 0 {
            strata.push(LirStratum { rules: st_rules, recursive });
        }
        c = c + 1;
    }
    proof {
        assert(no_negative_inside(sccs@, adj@, negk@));
        let st = strata@;
        assert forall|i: int| 0 <= i < st.len() implies is_component(ps, all, stratum_targets(#[trigger] st[i])) by {
            assert(stratum_targets(st[i]) == comp_set(sccs@, names@, i));
        }
        assert forall|i: int| 0 <= i < st.len() implies (#[trigger] st[i]).rules@.len() > 0 && st[i].rules@ == rules_for(
            all,
            stratum_targets(st[i]),
        ) by {}
        assert forall|r: int| 0 <= r < all.len() implies #[trigger] in_some_stratum(st, all[r].target@) by {
            let i = keys_v[r] as int;
            assert(comp_set(sccs@, names@, i).contains(all[r].target@));
            assert(stratum_targets(st[i]).contains(all[r].target@));
        }
        assert forall|i: int, j: int, x: Seq<char>|
            0 <= i < j < st.len() implies !(#[trigger] stratum_targets(st[i]).contains(x)
                && #[trigger] stratum_targets(st[j]).contains(x)) by {
            if stratum_targets(st[i]).contains(x) && stratum_targets(st[j]).contains(x) {
                lemma_comp_set_disjoint(names@, sccs@, i, j, x);
            }
        }
        assert forall|i: int, j: int, x: Seq<char>, y: Seq<char>, g: bool|
            0 <= i < st.len() && 0 <= j < st.len() && #[trigger] stratum_targets(st[i]).contains(x)
                && #[trigger] stratum_targets(st[j]).contains(y) && #[trigger] depends(ps, x, y, g) implies j <= i && (
            g ==> j < i) by {
            lemma_deps_order(ps, all, names@, adj@, negk@, sccs@, i, j, x, y, g);
        }
        assert forall|i: int| 0 <= i < st.len() implies (#[trigger] st[i]).recursive == ((exists|x: Seq<char>, y: Seq<char>|
            stratum_targets(st[i]).contains(x) && stratum_targets(st[i]).contains(y) && x != y) || (exists|
            x: Seq<char>,
        | stratum_targets(st[i]).contains(x) && depends(ps, x, x, false))) by {
            lemma_recursive_flag(ps, all, names@, adj@, negk@, sccs@, i, st[i]);
        }
        assert(strata_ok(ps, all, st));
    }
    Ok(strata)
}



/// Lowers a MIR program to a stratified LIR program: every predicate is
/// lowered to its rules (`lowering_ok`), and the rules are grouped into
/// strata (`strata_ok`), unless some component of the dependency graph
/// depends on itself through negation or aggregation, which is refused with
/// the names of that component.
pub fn lower_mir(mir: &MirProgram) -> (r: Result<LirProgram, LowerError>)
    requires
        preds_wildcards(mir.predicates@) <= u32::MAX,
        preds_rule_count(mir.predicates@) < usize::MAX,
    ensures
        exists|all: Seq<LirRule>|
            lowering_ok(mir.predicates@, all) && match r {
                Ok(p) => strata_ok(mir.predicates@, all, p.strata@),
                Err(LowerError::NegationCycle(ns)) => cycle_names_ok(mir.predicates@, all, views(ns@)),
            },
{
    let all_rules = lower_rules(mir);
    let ghost all = all_rules@;
    match stratify_rules(all_rules, mir) {
        Ok(strata) => {
            let p = LirProgram { strata };
            assert(lowering_ok(mir.predicates@, all) && strata_ok(mir.predicates@, all, p.strata@));
            Ok(p)
        },
        Err(e) => {
            assert(lowering_ok(mir.predicates@, all));
            Err(e)
        },
    }
}

/// A stratification admits no cycle of dependencies among defined relations
/// that passes through a negative dependency (`negation_cycle`): along every
/// dependency the stratum index does not grow, and along a negative one it
/// falls.
pub proof fn lemma_negation_cycle_unstratifiable(
    ps: Seq<MirPredicate>,
    all: Seq<LirRule>,
    strata: Seq<LirStratum>,
    cycle: Seq<Seq<char>>,
    kinds: Seq<bool>,
)
    requires
        negation_cycle(ps, all, cycle, kinds),
    ensures
        !strata_ok(ps, all, strata),
{
    if strata_ok(ps, all, strata) {
        let m = cycle.len() as int;
        let level = |x: Seq<char>| choose|i: int| 0 <= i < strata.len() && stratum_targets(strata[i]).contains(x);
        assert forall|i: int| 0 <= i < m implies 0 <= #[trigger] level(cycle[i]) < strata.len() && stratum_targets(
            strata[level(cycle[i])],
        ).contains(cycle[i]) by {
            let r = choose|r: int| 0 <= r < targets_of(all).len() && targets_of(all)[r] == cycle[i];
            assert(all[r].target@ == cycle[i]);
            assert(in_some_stratum(strata, all[r].target@));
        }
        assert forall|i: int| 0 <= i < m - 1 implies #[trigger] level(cycle[i + 1]) <= level(cycle[i]) && (kinds[i]
            ==> level(cycle[i + 1]) < level(cycle[i])) by {
            assert(depends(ps, cycle[i], cycle[i + 1], kinds[i]));
            assert(stratum_targets(strata[level(cycle[i])]).contains(cycle[i]));
            assert(stratum_targets(strata[level(cycle[i + 1])]).contains(cycle[i + 1]));
        }
        assert(stratum_targets(strata[level(cycle[m - 1])]).contains(cycle[m - 1]));
        assert(stratum_targets(strata[level(cycle[0])]).contains(cycle[0]));
        let k = choose|i: int| 0 <= i < kinds.len() && kinds[i];
        lemma_levels_chain(cycle, level, 0, m - 1);
        if k < m - 1 {
            lemma_levels_chain(cycle, level, 0, k);
            lemma_levels_chain(cycle, level, k + 1, m - 1);
        }
    }
}

/// A refusal for a negation cycle is never spurious: the rules then admit
/// no stratification at all.
pub proof fn lemma_refusal_unstratifiable(
    ps: Seq<MirPredicate>,
    all: Seq<LirRule>,
    ns: Seq<Seq<char>>,
    strata: Seq<LirStratum>,
)
    requires
        cycle_names_ok(ps, all, ns),
    ensures
        !strata_ok(ps, all, strata),
{
    let (cycle, kinds) = choose|cycle: Seq<Seq<char>>, kinds: Seq<bool>|
        #[trigger] negation_cycle(ps, all, cycle, kinds) && forall|i: int| 0 <= i < cycle.len() ==> ns.contains(
            #[trigger] cycle[i],
        );
    lemma_negation_cycle_unstratifiable(ps, all, strata, cycle, kinds);
}

proof fn lemma_levels_chain(cycle: Seq<Seq<char>>, level: spec_fn(Seq<char>) -> int, a: int, b: int)
    requires
        0 <= a <= b < cycle.len(),
        forall|i: int| 0 <= i < cycle.len() - 1 ==> #[trigger] level(cycle[i + 1]) <= level(cycle[i]),
    ensures
        level(cycle[b]) <= level(cycle[a]),
    decreases b - a,
{
    if a < b {
        lemma_levels_chain(cycle, level, a, b - 1);
        assert(level(cycle[(b - 1) + 1]) <= level(cycle[b - 1]));
    }
}

} // verus!
