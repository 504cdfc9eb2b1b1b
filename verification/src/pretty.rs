//! Human-readable rendering of LIR programs.

use vstd::prelude::*;
use crate::text::{views, join, decimal, signed_decimal, push_decimal, push_signed_decimal, push_joined, push_char};
use crate::lir::{LirProgram, LirStratum, LirRule, LirPlan, LirAtom, LirBinding, LirFilter, LirOperand,
    LirArithOp, LirCompOp, LirAggFunction, LirValue};

verus! {

/// Symbol of an arithmetic operator.
pub open spec fn arith_text(op: LirArithOp) -> Seq<char> {
    match op {
        LirArithOp::Add => "+"@,
        LirArithOp::Sub => "-"@,
        LirArithOp::Mul => "*"@,
        LirArithOp::Div => "/"@,
        LirArithOp::Mod => "%"@,
    }
}

/// Symbol of a comparison operator.
pub open spec fn comp_text(op: LirCompOp) -> Seq<char> {
    match op {
        LirCompOp::Eq => "="@,
        LirCompOp::Ne => "!="@,
        LirCompOp::Lt => "<"@,
        LirCompOp::Le => "<="@,
        LirCompOp::Gt => ">"@,
        LirCompOp::Ge => ">="@,
    }
}

/// Name of an aggregate function.
pub open spec fn agg_text(f: LirAggFunction) -> Seq<char> {
    match f {
        LirAggFunction::Count => "count"@,
        LirAggFunction::Sum => "sum"@,
        LirAggFunction::Min => "min"@,
        LirAggFunction::Max => "max"@,
        LirAggFunction::Avg => "avg"@,
        LirAggFunction::Concat => "concat"@,
        LirAggFunction::Rank => "rank"@,
        LirAggFunction::StrictCount => "strictcount"@,
        LirAggFunction::StrictSum => "strictsum"@,
        LirAggFunction::StrictConcat => "strictconcat"@,
        LirAggFunction::Any => "any"@,
    }
}

/// Text of a value: a string in double quotes, a float as its rendering.
pub open spec fn value_text(v: LirValue) -> Seq<char> {
    match v {
        LirValue::Int(i) => signed_decimal(i as int),
        LirValue::Float(s) => s@,
        LirValue::String(s) => seq!['"'] + s@ + seq!['"'],
        LirValue::Bool(b) => if b { "true"@ } else { "false"@ },
    }
}

/// Text of a binding.
pub open spec fn binding_text(b: LirBinding) -> Seq<char> {
    match b {
        LirBinding::Var(n) => n@,
        LirBinding::Const(v) => value_text(v),
    }
}

/// Texts of the bindings, joined by `, `.
pub open spec fn bindings_text(bs: Seq<LirBinding>) -> Seq<char> {
    join(bs.map_values(|b: LirBinding| binding_text(b)), ", "@)
}

/// Text of an operand.
pub open spec fn operand_text(o: LirOperand) -> Seq<char> {
    match o {
        LirOperand::Column(n) => n@,
        LirOperand::Literal(v) => value_text(v),
    }
}

/// Text of a filter condition; a conjunction joins its parts with ` AND `.
pub open spec fn filter_text(f: LirFilter) -> Seq<char>
    decreases f, 0nat,
{
    match f {
        LirFilter::Comparison { left, op, right } => operand_text(left) + seq![' '] + comp_text(op) + seq![' ']
            + operand_text(right),
        LirFilter::And(cs) => filters_text(cs@, cs@.len()),
    }
}

/// The first `k` conditions joined by ` AND `.
pub open spec fn filters_text(cs: Seq<LirFilter>, k: nat) -> Seq<char>
    decreases cs, k,
{
    if k == 0 || k > cs.len() {
        Seq::empty()
    } else if k == 1 {
        filter_text(cs[0])
    } else {
        filters_text(cs, (k - 1) as nat) + " AND "@ + filter_text(cs[k - 1])
    }
}

/// Two spaces per level of indentation.
pub open spec fn pad(n: nat) -> Seq<char>
    decreases n,
{
    if n == 0 {
        Seq::empty()
    } else {
        pad((n - 1) as nat) + seq![' ', ' ']
    }
}

/// Lines of a join atom.
pub open spec fn atom_line(a: LirAtom, indent: nat) -> Seq<char> {
    pad(indent) + seq![' ', ' '] + a.relation@ + seq!['('] + bindings_text(a.bindings@) + ")\n"@
}

/// Lines of the first `k` atoms.
pub open spec fn atoms_lines(atoms: Seq<LirAtom>, indent: nat, k: nat) -> Seq<char>
    decreases k,
{
    if k == 0 || k > atoms.len() {
        Seq::empty()
    } else {
        atoms_lines(atoms, indent, (k - 1) as nat) + atom_line(atoms[k - 1], indent)
    }
}

/// The first line of a plan node, without its indentation.
#[verifier::opaque]
pub open spec fn node_line(p: LirPlan) -> Seq<char> {
    match p {
        LirPlan::Scan { relation, bindings } => "Scan "@ + relation@ + seq!['('] + bindings_text(bindings@) + ")\n"@,
        LirPlan::WcoJoin { variable_order, project, .. } => "WcoJoin order=["@ + join(views(variable_order@), ", "@)
            + "] project=["@ + join(views(project@), ", "@) + "]\n"@,
        LirPlan::Filter { condition, .. } => "Filter "@ + filter_text(condition) + seq!['\n'],
        LirPlan::Project { columns, .. } => "Project ["@ + join(views(columns@), ", "@) + "]\n"@,
        LirPlan::Union { inputs } => "Union ("@ + decimal(inputs@.len()) + " branches)\n"@,
        LirPlan::AntiJoin { key_columns, .. } => "AntiJoin on ["@ + join(views(key_columns@), ", "@) + "]\n"@,
        LirPlan::Aggregate { group_by, function, agg_column, result_column, .. } => "Aggregate "@
            + result_column@ + " = "@ + agg_text(function) + seq!['('] + agg_column@ + ") group_by=["@ + join(
            views(group_by@),
            ", "@,
        ) + "]\n"@,
        LirPlan::Extend { column, expr, .. } => "Extend "@ + column@ + " = "@ + operand_text(expr.left) + seq![' ']
            + arith_text(expr.op) + seq![' '] + operand_text(expr.right) + seq!['\n'],
        LirPlan::Constant { columns, rows } => "Constant ["@ + join(views(columns@), ", "@) + "] ("@ + decimal(
            rows@.len(),
        ) + " rows)\n"@,
    }
}

/// Lines of a plan at the given indentation: its node's line, then the
/// lines of its inputs indented below it (an anti-join labels its two
/// sides).
pub open spec fn plan_text(p: LirPlan, indent: nat) -> Seq<char>
    decreases p, 0nat,
{
    let pd = pad(indent);
    pd + node_line(p) + match p {
        LirPlan::WcoJoin { atoms, .. } => atoms_lines(atoms@, indent, atoms@.len()),
        LirPlan::Filter { input, .. } => plan_text(*input, indent + 1),
        LirPlan::Project { input, .. } => plan_text(*input, indent + 1),
        LirPlan::Union { inputs } => plans_text(inputs@, indent + 1, inputs@.len()),
        LirPlan::AntiJoin { positive, negative, .. } => pd + "  positive:\n"@ + plan_text(*positive, indent + 2) + pd
            + "  negative:\n"@ + plan_text(*negative, indent + 2),
        LirPlan::Aggregate { input, .. } => plan_text(*input, indent + 1),
        LirPlan::Extend { input, .. } => plan_text(*input, indent + 1),
        _ => Seq::empty(),
    }
}

/// Lines of the first `k` plans.
pub open spec fn plans_text(ps: Seq<LirPlan>, indent: nat, k: nat) -> Seq<char>
    decreases ps, k,
{
    if k == 0 || k > ps.len() {
        Seq::empty()
    } else {
        plans_text(ps, indent, (k - 1) as nat) + plan_text(ps[k - 1], indent)
    }
}

/// Lines of a rule: `target(columns) ←` and its plan below.
pub open spec fn rule_text(r: LirRule) -> Seq<char> {
    r.target@ + seq!['('] + join(views(r.target_columns@), ", "@) + ") ←\n"@ + plan_text(r.body, 1)
}

/// Lines of the first `k` rules, each followed by a blank line.
pub open spec fn rules_text(rs: Seq<LirRule>, k: nat) -> Seq<char>
    decreases k,
{
    if k == 0 || k > rs.len() {
        Seq::empty()
    } else {
        rules_text(rs, (k - 1) as nat) + rule_text(rs[k - 1]) + seq!['\n']
    }
}

/// Header and rules of stratum number `i`.
pub open spec fn stratum_text(s: LirStratum, i: nat) -> Seq<char> {
    "--- stratum "@ + decimal(i) + " ("@ + (if s.recursive { "recursive"@ } else { "non-recursive"@ }) + ") ---\n"@
        + rules_text(s.rules@, s.rules@.len())
}

/// Text of the first `k` strata.
pub open spec fn strata_text(ss: Seq<LirStratum>, k: nat) -> Seq<char>
    decreases k,
{
    if k == 0 || k > ss.len() {
        Seq::empty()
    } else {
        strata_text(ss, (k - 1) as nat) + stratum_text(ss[k - 1], (k - 1) as nat)
    }
}

/// Text of a program.
pub open spec fn program_text(p: LirProgram) -> Seq<char> {
    strata_text(p.strata@, p.strata@.len())
}


/// How far below its first line a plan's deepest line is indented.
pub open spec fn plan_depth(p: LirPlan) -> nat
    decreases p, 0nat,
{
    match p {
        LirPlan::Filter { input, .. } => 1 + plan_depth(*input),
        LirPlan::Project { input, .. } => 1 + plan_depth(*input),
        LirPlan::Union { inputs } => 1 + plans_depth(inputs@, inputs@.len()),
        LirPlan::AntiJoin { positive, negative, .. } => 2 + if plan_depth(*positive) >= plan_depth(*negative) {
            plan_depth(*positive)
        } else {
            plan_depth(*negative)
        },
        LirPlan::Aggregate { input, .. } => 1 + plan_depth(*input),
        LirPlan::Extend { input, .. } => 1 + plan_depth(*input),
        _ => 0,
    }
}

/// The greatest depth among the first `k` plans.
pub open spec fn plans_depth(ps: Seq<LirPlan>, k: nat) -> nat
    decreases ps, k,
{
    if k == 0 || k > ps.len() {
        0
    } else {
        let a = plans_depth(ps, (k - 1) as nat);
        let b = plan_depth(ps[k - 1]);
        if a >= b { a } else { b }
    }
}

impl LirArithOp {
    /// The operator's symbol.
    pub fn to_text(&self) -> (r: String)
        ensures
            r@ == arith_text(*self),
    {
        let s = match self {
            LirArithOp::Add => "+",
            LirArithOp::Sub => "-",
            LirArithOp::Mul => "*",
            LirArithOp::Div => "/",
            LirArithOp::Mod => "%",
        };
        crate::text::copy_str(s)
    }
}

impl LirCompOp {
    /// The operator's symbol.
    pub fn to_text(&self) -> (r: String)
        ensures
            r@ == comp_text(*self),
    {
        let s = match self {
            LirCompOp::Eq => "=",
            LirCompOp::Ne => "!=",
            LirCompOp::Lt => "<",
            LirCompOp::Le => "<=",
            LirCompOp::Gt => ">",
            LirCompOp::Ge => ">=",
        };
        crate::text::copy_str(s)
    }
}

impl LirAggFunction {
    /// The function's name.
    pub fn to_text(&self) -> (r: String)
        ensures
            r@ == agg_text(*self),
    {
        let s = match self {
            LirAggFunction::Count => "count",
            LirAggFunction::Sum => "sum",
            LirAggFunction::Min => "min",
            LirAggFunction::Max => "max",
            LirAggFunction::Avg => "avg",
            LirAggFunction::Concat => "concat",
            LirAggFunction::Rank => "rank",
            LirAggFunction::StrictCount => "strictcount",
            LirAggFunction::StrictSum => "strictsum",
            LirAggFunction::StrictConcat => "strictconcat",
            LirAggFunction::Any => "any",
        };
        crate::text::copy_str(s)
    }
}

impl LirValue {
    /// The value's text.
    pub fn to_text(&self) -> (r: String)
        ensures
            r@ == value_text(*self),
    {
        let mut out = String::new();
        push_value(&mut out, self);
        out
    }
}

fn push_value(out: &mut String, v: &LirValue)
    ensures
        final(out)@ == old(out)@ + value_text(*v),
{
    match v {
        LirValue::Int(i) => push_signed_decimal(out, *i),
        LirValue::Float(s) => out.append(s.as_str()),
        LirValue::String(s) => {
            push_char(out, '"');
            out.append(s.as_str());
            push_char(out, '"');
            assert(out@ =~= old(out)@ + value_text(*v));
        },
        LirValue::Bool(b) => {
            if *b {
                out.append("true");
            } else {
                out.append("false");
            }
        },
    }
}

fn push_bindings(out: &mut String, bs: &Vec<LirBinding>)
    ensures
        final(out)@ == old(out)@ + bindings_text(bs@),
{
    let mut texts: Vec<String> = Vec::new();
    let mut i: usize = 0;
    while i < bs.len()
        invariant
            i <= bs@.len(),
            views(texts@) == bs@.take(i as int).map_values(|b: LirBinding| binding_text(b)),
        decreases bs@.len() - i,
    {
        let t = match &bs[i] {
            LirBinding::Var(n) => n.clone(),
            LirBinding::Const(v) => v.to_text(),
        };
        let ghost before = views(texts@);
        texts.push(t);
        proof {
            assert(views(texts@) =~= before.push(binding_text(bs@[i as int])));
            assert(bs@.take(i + 1).map_values(|b: LirBinding| binding_text(b)) =~= bs@.take(i as int).map_values(
                |b: LirBinding| binding_text(b),
            ).push(binding_text(bs@[i as int])));
        }
        i = i + 1;
    }
    assert(bs@.take(bs@.len() as int) =~= bs@);
    push_joined(out, &texts, ", ");
}

fn push_operand(out: &mut String, o: &LirOperand)
    ensures
        final(out)@ == old(out)@ + operand_text(*o),
{
    match o {
        LirOperand::Column(n) => out.append(n.as_str()),
        LirOperand::Literal(v) => push_value(out, v),
    }
}

fn push_filter(out: &mut String, f: &LirFilter)
    ensures
        final(out)@ == old(out)@ + filter_text(*f),
    decreases f, 0nat,
{
    match f {
        LirFilter::Comparison { left, op, right } => {
            push_operand(out, left);
            push_char(out, ' ');
            let t = op.to_text();
            out.append(t.as_str());
            push_char(out, ' ');
            push_operand(out, right);
            assert(out@ =~= old(out)@ + filter_text(*f));
        },
        LirFilter::And(cs) => {
            let mut i: usize = 0;
            while i < cs.len()
                invariant
                    i <= cs@.len(),
                    *f == LirFilter::And(*cs),
                    out@ == old(out)@ + filters_text(cs@, i as nat),
                decreases cs@.len() - i,
            {
                let ghost before = out@;
                if i > 0 {
                    out.append(" AND ");
                }
                proof {
                    assert((*f)->And_0 == *cs);
                    assert(decreases_to!(*f => (*f)->And_0));
                    assert(decreases_to!(*cs => cs@));
                    assert(decreases_to!(cs@ => cs@[i as int]));
                }
                push_filter(out, &cs[i]);
                proof {
                    if i == 0 {
                        assert(out@ =~= old(out)@ + filters_text(cs@, 1));
                    } else {
                        assert(out@ =~= old(out)@ + filters_text(cs@, (i + 1) as nat));
                    }
                }
                i = i + 1;
            }
        },
    }
}

fn push_pad(out: &mut String, n: usize)
    ensures
        final(out)@ == old(out)@ + pad(n as nat),
{
    let mut i: usize = 0;
    while i < n
        invariant
            i <= n,
            out@ == old(out)@ + pad(i as nat),
        decreases n - i,
    {
        out.append("  ");
        proof {
            reveal_strlit("  ");
            assert("  "@ == seq![' ', ' ']);
        }
        assert(out@ =~= old(out)@ + pad((i + 1) as nat));
        i = i + 1;
    }
}



proof fn lemma_plans_depth(ps: Seq<LirPlan>, k: nat, i: int)
    requires
        0 <= i < k <= ps.len(),
    ensures
        plan_depth(ps[i]) <= plans_depth(ps, k),
    decreases k,
{
    if i < k - 1 {
        lemma_plans_depth(ps, (k - 1) as nat, i);
    }
}

fn push_atoms(out: &mut String, atoms: &Vec<LirAtom>, indent: usize)
    ensures
        final(out)@ == old(out)@ + atoms_lines(atoms@, indent as nat, atoms@.len()),
{
    let mut i: usize = 0;
    while i < atoms.len()
        invariant
            i <= atoms@.len(),
            out@ == old(out)@ + atoms_lines(atoms@, indent as nat, i as nat),
        decreases atoms@.len() - i,
    {
        let ghost before = out@;
        push_pad(out, indent);
        push_char(out, ' ');
        push_char(out, ' ');
        out.append(atoms[i].relation.as_str());
        push_char(out, '(');
        push_bindings(out, &atoms[i].bindings);
        out.append(")\n");
        assert(out@ =~= before + atom_line(atoms@[i as int], indent as nat));
        i = i + 1;
    }
}

fn push_node_line(out: &mut String, p: &LirPlan)
    ensures
        final(out)@ == old(out)@ + node_line(*p),
{
    reveal(node_line);
    match p {
        LirPlan::Scan { relation, bindings } => {
            out.append("Scan ");
            out.append(relation.as_str());
            push_char(out, '(');
            push_bindings(out, bindings);
            out.append(")\n");
        },
        LirPlan::WcoJoin { variable_order, project, .. } => {
            out.append("WcoJoin order=[");
            push_joined(out, variable_order, ", ");
            out.append("] project=[");
            push_joined(out, project, ", ");
            out.append("]\n");
        },
        LirPlan::Filter { condition, .. } => {
            out.append("Filter ");
            push_filter(out, condition);
            push_char(out, '\n');
        },
        LirPlan::Project { columns, .. } => {
            out.append("Project [");
            push_joined(out, columns, ", ");
            out.append("]\n");
        },
        LirPlan::Union { inputs } => {
            out.append("Union (");
            push_decimal(out, inputs.len() as u64);
            out.append(" branches)\n");
        },
        LirPlan::AntiJoin { key_columns, .. } => {
            out.append("AntiJoin on [");
            push_joined(out, key_columns, ", ");
            out.append("]\n");
        },
        LirPlan::Aggregate { group_by, function, agg_column, result_column, .. } => {
            out.append("Aggregate ");
            out.append(result_column.as_str());
            out.append(" = ");
            let f = function.to_text();
            out.append(f.as_str());
            push_char(out, '(');
            out.append(agg_column.as_str());
            out.append(") group_by=[");
            push_joined(out, group_by, ", ");
            out.append("]\n");
        },
        LirPlan::Extend { column, expr, .. } => {
            out.append("Extend ");
            out.append(column.as_str());
            out.append(" = ");
            push_operand(out, &expr.left);
            push_char(out, ' ');
            let o = expr.op.to_text();
            out.append(o.as_str());
            push_char(out, ' ');
            push_operand(out, &expr.right);
            push_char(out, '\n');
        },
        LirPlan::Constant { columns, rows } => {
            out.append("Constant [");
            push_joined(out, columns, ", ");
            out.append("] (");
            push_decimal(out, rows.len() as u64);
            out.append(" rows)\n");
        },
    }
    assert(out@ =~= old(out)@ + node_line(*p));
}

fn push_plan(out: &mut String, p: &LirPlan, indent: usize)
    requires
        indent + plan_depth(*p) <= usize::MAX,
    ensures
        final(out)@ == old(out)@ + plan_text(*p, indent as nat),
    decreases p, 0nat,
{
    push_pad(out, indent);
    push_node_line(out, p);
    let ghost head = out@;
    match p {
        LirPlan::WcoJoin { atoms, .. } => {
            push_atoms(out, atoms, indent);
        },
        LirPlan::Filter { input, .. } => {
            push_plan(out, input, indent + 1);
        },
        LirPlan::Project { input, .. } => {
            push_plan(out, input, indent + 1);
        },
        LirPlan::Union { inputs } => {
            let mut i: usize = 0;
            while i < inputs.len()
                invariant
                    i <= inputs@.len(),
                    *p == (LirPlan::Union { inputs: *inputs }),
                    indent + plan_depth(*p) <= usize::MAX,
                    out@ == head + plans_text(inputs@, (indent + 1) as nat, i as nat),
                decreases inputs@.len() - i,
            {
                proof {
                    lemma_plans_depth(inputs@, inputs@.len(), i as int);
                    assert((*p)->inputs == *inputs);
                    assert(decreases_to!(*p => (*p)->inputs));
                    assert(decreases_to!(*inputs => inputs@));
                    assert(decreases_to!(inputs@ => inputs@[i as int]));
                }
                push_plan(out, &inputs[i], indent + 1);
                i = i + 1;
            }
        },
        LirPlan::AntiJoin { positive, negative, .. } => {
            push_pad(out, indent);
            out.append("  positive:\n");
            push_plan(out, positive, indent + 2);
            push_pad(out, indent);
            out.append("  negative:\n");
            push_plan(out, negative, indent + 2);
        },
        LirPlan::Aggregate { input, .. } => {
            push_plan(out, input, indent + 1);
        },
        LirPlan::Extend { input, .. } => {
            push_plan(out, input, indent + 1);
        },
        _ => {},
    }
    assert(out@ =~= old(out)@ + plan_text(*p, indent as nat));
}

/// The depth of every rule's plan leaves room for its indentation.
pub open spec fn printable(p: LirProgram) -> bool {
    forall|i: int, j: int|
        0 <= i < p.strata@.len() && 0 <= j < p.strata@[i].rules@.len() ==> 1 + plan_depth(
            #[trigger] p.strata@[i].rules@[j].body,
        ) <= usize::MAX
}

/// The text of a program (`program_text`): for each stratum a header
/// naming its number and kind, then each rule with its plan, indented two
/// spaces per level, and a blank line.
pub fn pretty_print(program: &LirProgram) -> (r: String)
    requires
        printable(*program),
    ensures
        r@ == program_text(*program),
{
    let mut out = String::new();
    let mut i: usize = 0;
    while i < program.strata.len()
        invariant
            i <= program.strata@.len(),
            printable(*program),
            out@ == strata_text(program.strata@, i as nat),
        decreases program.strata@.len() - i,
    {
        let stratum = &program.strata[i];
        let ghost before = out@;
        out.append("--- stratum ");
        push_decimal(&mut out, i as u64);
        out.append(" (");
        if stratum.recursive {
            out.append("recursive");
        } else {
            out.append("non-recursive");
        }
        out.append(") ---\n");
        let ghost head = out@;
        let mut j: usize = 0;
        while j < stratum.rules.len()
            invariant
                i < program.strata@.len(),
                *stratum == program.strata@[i as int],
                printable(*program),
                j <= stratum.rules@.len(),
                out@ == head + rules_text(stratum.rules@, j as nat),
            decreases stratum.rules@.len() - j,
        {
            let rule = &stratum.rules[j];
            let ghost rb = out@;
            out.append(rule.target.as_str());
            push_char(&mut out, '(');
            push_joined(&mut out, &rule.target_columns, ", ");
            out.append(") ←\n");
            assert(1 + plan_depth(program.strata@[i as int].rules@[j as int].body) <= usize::MAX);
            push_plan(&mut out, &rule.body, 1);
            push_char(&mut out, '\n');
            assert(out@ =~= rb + rule_text(stratum.rules@[j as int]) + seq!['\n']);
            j = j + 1;
        }
        assert(out@ =~= before + stratum_text(program.strata@[i as int], i as nat));
        i = i + 1;
    }
    out
}

} // verus!
