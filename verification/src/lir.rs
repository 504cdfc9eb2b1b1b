//! The low-level intermediate representation: a stratified sequence of
//! relational-algebra rules, with worst-case optimal join as the core join.

use vstd::prelude::*;
use crate::text::{seq_less, str_less, str_eq, copy_str};

verus! {

/// A complete LIR program: an ordered list of strata, evaluated in order.
#[derive(Debug)]
pub struct LirProgram {
    pub strata: Vec<LirStratum>,
}

/// A group of rules evaluated together; recursive strata need a fixpoint.
#[derive(Debug)]
pub struct LirStratum {
    pub rules: Vec<LirRule>,
    pub recursive: bool,
}

/// A rule `target(columns) <- body`.
#[derive(Debug)]
pub struct LirRule {
    /// Target relation name.
    pub target: String,
    /// Columns in the target relation, in order.
    pub target_columns: Vec<String>,
    /// The relational algebra plan that produces tuples.
    pub body: LirPlan,
}

/// A relational algebra plan.
#[derive(Debug)]
pub enum LirPlan {
    /// Scan a base or derived relation, binding its columns by position.
    Scan { relation: String, bindings: Vec<LirBinding> },
    /// Worst-case optimal join over several atoms, projected to `project`.
    WcoJoin { atoms: Vec<LirAtom>, variable_order: Vec<String>, project: Vec<String> },
    /// Keep only tuples satisfying a condition.
    Filter { input: Box<LirPlan>, condition: LirFilter },
    /// Keep only the named columns.
    Project { input: Box<LirPlan>, columns: Vec<String> },
    /// Combine results from several sub-plans.
    Union { inputs: Vec<LirPlan> },
    /// Tuples of `positive` with no match in `negative` on `key_columns`.
    AntiJoin { positive: Box<LirPlan>, negative: Box<LirPlan>, key_columns: Vec<String> },
    /// Group-by and aggregate.
    Aggregate {
        input: Box<LirPlan>,
        group_by: Vec<String>,
        function: LirAggFunction,
        agg_column: String,
        result_column: String,
    },
    /// Compute a new column from existing ones.
    Extend { input: Box<LirPlan>, column: String, expr: LirExpr },
    /// A literal inline relation.
    Constant { columns: Vec<String>, rows: Vec<Vec<LirValue>> },
}

/// An atom of a WCO join: a relation scan with column bindings.
#[derive(Debug, Clone)]
pub struct LirAtom {
    pub relation: String,
    pub bindings: Vec<LirBinding>,
}

/// A column binding: a variable, or a constant the column must equal.
#[derive(Debug, Clone)]
pub enum LirBinding {
    Var(String),
    Const(LirValue),
}

/// A filter condition on tuples.
#[derive(Debug)]
pub enum LirFilter {
    Comparison { left: LirOperand, op: LirCompOp, right: LirOperand },
    And(Vec<LirFilter>),
}

/// An operand in a filter or expression.
#[derive(Debug, Clone)]
pub enum LirOperand {
    Column(String),
    Literal(LirValue),
}

/// An arithmetic expression of an `Extend` node.
#[derive(Debug, Clone)]
pub struct LirExpr {
    pub left: LirOperand,
    pub op: LirArithOp,
    pub right: LirOperand,
}

/// Arithmetic operators.
#[derive(Debug, Clone, Copy, PartialEq, Eq, Structural)]
pub enum LirArithOp {
    Add,
    Sub,
    Mul,
    Div,
    Mod,
}

/// Comparison operators.
#[derive(Debug, Clone, Copy, PartialEq, Eq, Structural)]
pub enum LirCompOp {
    Eq,
    Ne,
    Lt,
    Le,
    Gt,
    Ge,
}

/// Aggregate functions.
#[derive(Debug, Clone, Copy, PartialEq, Eq, Structural)]
pub enum LirAggFunction {
    Count,
    Sum,
    Min,
    Max,
    Avg,
    Concat,
    Rank,
    StrictCount,
    StrictSum,
    StrictConcat,
    Any,
}

/// A literal value. A float is held as the text its `Display` rendering
/// gives, which is all that the IR reads of it.
#[derive(Debug, Clone, PartialEq)]
pub enum LirValue {
    Int(i64),
    Float(String),
    String(String),
    Bool(bool),
}

/// The names of the rule targets of a program, stratum by stratum.
pub open spec fn rule_targets(p: LirProgram) -> Seq<Seq<char>> {
    p.strata@.map_values(|s: LirStratum| s.rules@.map_values(|r: LirRule| r.target@)).flatten()
}

/// Total number of rules of a program.
pub open spec fn total_rules(p: LirProgram) -> int {
    rule_targets(p).len() as int
}

/// The sequence is strictly increasing in lexicographic order.
pub open spec fn strictly_sorted(s: Seq<Seq<char>>) -> bool {
    forall|i: int, j: int| 0 <= i < j < s.len() ==> seq_less(#[trigger] s[i], #[trigger] s[j])
}

/// The views of a sequence of string slices.
pub open spec fn str_views(v: Seq<&str>) -> Seq<Seq<char>> {
    v.map_values(|s: &str| s@)
}

impl LirProgram {
    /// All relation names defined by this program, sorted and without repeats.
    pub fn defined_relations(&self) -> (names: Vec<&str>)
        ensures
            strictly_sorted(str_views(names@)),
            forall|x: Seq<char>| rule_targets(*self).contains(x) <==> str_views(names@).contains(x),
    {
        let ghost all = rule_targets(*self);
        let mut names: Vec<&str> = Vec::new();
        let mut i: usize = 0;
        while i < self.strata.len()
            invariant
                i <= self.strata@.len(),
                all == rule_targets(*self),
                strictly_sorted(str_views(names@)),
                forall|x: Seq<char>| str_views(names@).contains(x) <==> exists|a: int, b: int|
                    0 <= a < i && 0 <= b < self.strata@[a].rules@.len() && self.strata@[a].rules@[b].target@ == x,
            decreases self.strata@.len() - i,
        {
            let rules = &self.strata[i].rules;
            let mut j: usize = 0;
            while j < rules.len()
                invariant
                    i < self.strata@.len(),
                    rules@ == self.strata@[i as int].rules@,
                    j <= rules@.len(),
                    strictly_sorted(str_views(names@)),
                    forall|x: Seq<char>| str_views(names@).contains(x) <==> (exists|a: int, b: int|
                        0 <= a < i && 0 <= b < self.strata@[a].rules@.len() && self.strata@[a].rules@[b].target@ == x)
                        || (exists|b: int| 0 <= b < j && rules@[b].target@ == x),
                decreases rules@.len() - j,
            {
                let ghost before = str_views(names@);
                insert_sorted(&mut names, rules[j].target.as_str());
                proof {
                    let t = rules@[j as int].target@;
                    assert forall|x: Seq<char>| str_views(names@).contains(x) <==> (exists|a: int, b: int|
                        0 <= a < i && 0 <= b < self.strata@[a].rules@.len() && self.strata@[a].rules@[b].target@ == x)
                        || (exists|b: int| 0 <= b < j + 1 && rules@[b].target@ == x) by {
                        if x == t {
                            assert(rules@[j as int].target@ == x);
                        }
                        if exists|b: int| 0 <= b < j + 1 && rules@[b].target@ == x {
                            let b = choose|b: int| 0 <= b < j + 1 && rules@[b].target@ == x;
                            if b < j {
                                assert(exists|b: int| 0 <= b < j && rules@[b].target@ == x);
                            }
                        }
                    }
                }
                j = j + 1;
            }
            proof {
                assert forall|x: Seq<char>| str_views(names@).contains(x) <==> exists|a: int, b: int|
                    0 <= a < i + 1 && 0 <= b < self.strata@[a].rules@.len() && self.strata@[a].rules@[b].target@ == x by {
                    if exists|a: int, b: int| 0 <= a < i + 1 && 0 <= b < self.strata@[a].rules@.len() && self.strata@[a].rules@[b].target@ == x {
                        let (a, b) = choose|a: int, b: int| 0 <= a < i + 1 && 0 <= b < self.strata@[a].rules@.len() && self.strata@[a].rules@[b].target@ == x;
                        if a == i {
                            assert(rules@[b].target@ == x);
                        }
                    }
                }
            }
            i = i + 1;
        }
        proof {
            lemma_rule_targets(*self);
        }
        names
    }

    /// Total number of rules across all strata.
    pub fn rule_count(&self) -> (r: usize)
        requires
            total_rules(*self) <= usize::MAX,
        ensures
            r == total_rules(*self),
    {
        let mut total: usize = 0;
        let mut i: usize = 0;
        while i < self.strata.len()
            invariant
                i <= self.strata@.len(),
                total == rules_before(*self, i as int),
                total_rules(*self) <= usize::MAX,
            decreases self.strata@.len() - i,
        {
            proof {
                lemma_rules_before_mono(*self, i as int + 1, self.strata@.len() as int);
                lemma_rules_before_all(*self);
            }
            total = total + self.strata[i].rules.len();
            i = i + 1;
        }
        proof {
            lemma_rules_before_all(*self);
        }
        total
    }
}

/// Number of rules in the first `k` strata.
pub open spec fn rules_before(p: LirProgram, k: int) -> int
    decreases k,
{
    if k <= 0 {
        0
    } else {
        rules_before(p, k - 1) + p.strata@[k - 1].rules@.len()
    }
}

proof fn lemma_rules_before_mono(p: LirProgram, a: int, b: int)
    requires
        0 <= a <= b,
    ensures
        rules_before(p, a) <= rules_before(p, b),
    decreases b - a,
{
    if a < b {
        lemma_rules_before_mono(p, a, b - 1);
    }
}

proof fn lemma_flat_len(s: Seq<Seq<Seq<char>>>, k: int)
    requires
        0 <= k <= s.len(),
    ensures
        s.take(k).flatten().len() == sum_lens(s, k),
    decreases k,
{
    if k > 0 {
        lemma_flat_len(s, k - 1);
        assert(s.take(k).drop_last() =~= s.take(k - 1));
        s.take(k).lemma_flatten_and_flatten_alt_are_equivalent();
        s.take(k - 1).lemma_flatten_and_flatten_alt_are_equivalent();
    } else {
        assert(s.take(0) =~= Seq::<Seq<Seq<char>>>::empty());
    }
}

spec fn sum_lens(s: Seq<Seq<Seq<char>>>, k: int) -> int
    decreases k,
{
    if k <= 0 {
        0
    } else {
        sum_lens(s, k - 1) + s[k - 1].len()
    }
}

proof fn lemma_sum_lens(p: LirProgram, k: int)
    requires
        0 <= k <= p.strata@.len(),
    ensures
        sum_lens(p.strata@.map_values(|s: LirStratum| s.rules@.map_values(|r: LirRule| r.target@)), k)
            == rules_before(p, k),
    decreases k,
{
    if k > 0 {
        lemma_sum_lens(p, k - 1);
    }
}

proof fn lemma_rules_before_all(p: LirProgram)
    ensures
        rules_before(p, p.strata@.len() as int) == total_rules(p),
{
    let s = p.strata@.map_values(|s: LirStratum| s.rules@.map_values(|r: LirRule| r.target@));
    lemma_flat_len(s, s.len() as int);
    assert(s.take(s.len() as int) =~= s);
    lemma_sum_lens(p, p.strata@.len() as int);
}

proof fn lemma_rule_targets(p: LirProgram)
    ensures
        forall|x: Seq<char>| rule_targets(p).contains(x) <==> exists|a: int, b: int|
            0 <= a < p.strata@.len() && 0 <= b < p.strata@[a].rules@.len() && p.strata@[a].rules@[b].target@ == x,
{
    let s = p.strata@.map_values(|s: LirStratum| s.rules@.map_values(|r: LirRule| r.target@));
    assert forall|x: Seq<char>| rule_targets(p).contains(x) <==> exists|a: int, b: int|
        0 <= a < p.strata@.len() && 0 <= b < p.strata@[a].rules@.len() && p.strata@[a].rules@[b].target@ == x by {
        lemma_flatten_contains(s, x);
        if exists|a: int, b: int| 0 <= a < p.strata@.len() && 0 <= b < p.strata@[a].rules@.len() && p.strata@[a].rules@[b].target@ == x {
            let (a, b) = choose|a: int, b: int| 0 <= a < p.strata@.len() && 0 <= b < p.strata@[a].rules@.len() && p.strata@[a].rules@[b].target@ == x;
            assert(s[a][b] == x);
        }
    }
}

proof fn lemma_flatten_contains(s: Seq<Seq<Seq<char>>>, x: Seq<char>)
    ensures
        s.flatten().contains(x) <==> exists|a: int, b: int| 0 <= a < s.len() && 0 <= b < s[a].len() && s[a][b] == x,
    decreases s.len(),
{
    if s.len() > 0 {
        lemma_flatten_contains(s.drop_first(), x);
        assert(s.flatten() == s[0] + s.drop_first().flatten());
        if exists|a: int, b: int| 0 <= a < s.len() && 0 <= b < s[a].len() && s[a][b] == x {
            let (a, b) = choose|a: int, b: int| 0 <= a < s.len() && 0 <= b < s[a].len() && s[a][b] == x;
            if a == 0 {
                assert((s[0] + s.drop_first().flatten())[b] == x);
            } else {
                assert(s.drop_first()[a - 1][b] == x);
                let k = choose|k: int| 0 <= k < s.drop_first().flatten().len() && s.drop_first().flatten()[k] == x;
                assert((s[0] + s.drop_first().flatten())[s[0].len() + k] == x);
            }
        }
        if s.flatten().contains(x) {
            let k = choose|k: int| 0 <= k < s.flatten().len() && s.flatten()[k] == x;
            if k < s[0].len() {
                assert(s[0][k] == x);
            } else {
                assert(s.drop_first().flatten()[k - s[0].len()] == x);
                let (a, b) = choose|a: int, b: int| 0 <= a < s.drop_first().len() && 0 <= b < s.drop_first()[a].len() && s.drop_first()[a][b] == x;
                assert(s[a + 1][b] == x);
            }
        }
    }
}

/// Inserts `t` into the strictly sorted `names`, unless it is already there.
fn insert_sorted<'a>(names: &mut Vec<&'a str>, t: &'a str)
    requires
        strictly_sorted(str_views(old(names)@)),
    ensures
        strictly_sorted(str_views(final(names)@)),
        forall|x: Seq<char>| str_views(final(names)@).contains(x) <==> (str_views(old(names)@).contains(x) || x == t@),
{
    let mut k: usize = 0;
    while k < names.len() && str_less(names[k], t)
        invariant
            k <= names@.len(),
            forall|i: int| 0 <= i < k ==> seq_less(#[trigger] names@[i]@, t@),
        decreases names@.len() - k,
    {
        k = k + 1;
    }
    let ghost v = str_views(names@);
    if k < names.len() && str_eq(names[k], t) {
        assert(v[k as int] == t@);
        return;
    }
    proof {
        if k < names@.len() {
            crate::text::lemma_seq_less_total(names@[k as int]@, t@);
        }
    }
    names.insert(k, t);
    proof {
        let w = str_views(names@);
        assert(w =~= v.insert(k as int, t@));
        assert forall|i: int, j: int| 0 <= i < j < w.len() implies seq_less(#[trigger] w[i], #[trigger] w[j]) by {
            if j < k {
            } else if i < k && j == k {
            } else if i < k && j > k {
                if j - 1 > k {
                    crate::text::lemma_seq_less_trans(v[i], v[k as int], v[j - 1]);
                }
            } else if i == k {
                if j - 1 > k {
                    crate::text::lemma_seq_less_trans(t@, v[k as int], v[j - 1]);
                }
            }
        }
        assert forall|x: Seq<char>| w.contains(x) <==> (v.contains(x) || x == t@) by {
            if v.contains(x) {
                let i = choose|i: int| 0 <= i < v.len() && v[i] == x;
                if i < k {
                    assert(w[i] == x);
                } else {
                    assert(w[i + 1] == x);
                }
            }
            if x == t@ {
                assert(w[k as int] == x);
            }
            if w.contains(x) {
                let i = choose|i: int| 0 <= i < w.len() && w[i] == x;
                if i < k {
                    assert(v[i] == x);
                } else if i > k {
                    assert(v[i - 1] == x);
                }
            }
        }
    }
}

impl LirBinding {
    /// Binding of a column to the named variable.
    pub fn var(name: &str) -> (r: LirBinding)
        ensures
            r matches LirBinding::Var(n) && n@ == name@,
    {
        LirBinding::Var(copy_str(name))
    }

    /// Binding of a column to an integer constant.
    pub fn integer(v: i64) -> (r: LirBinding)
        ensures
            r == LirBinding::Const(LirValue::Int(v)),
    {
        LirBinding::Const(LirValue::Int(v))
    }

    /// The variable name if this is a variable binding.
    pub fn as_var(&self) -> (r: Option<&str>)
        ensures
            match self {
                LirBinding::Var(n) => r matches Some(s) && s@ == n@,
                LirBinding::Const(_) => r is None,
            },
    {
        match self {
            LirBinding::Var(name) => Some(name.as_str()),
            LirBinding::Const(_) => None,
        }
    }
}

/// Whether a comparison filter with the operator `op` keeps a row whose
/// compared values are the integers `a` and `b`.
pub open spec fn lir_comparison_holds(op: LirCompOp, a: int, b: int) -> bool {
    match op {
        LirCompOp::Eq => a == b,
        LirCompOp::Ne => a != b,
        LirCompOp::Lt => a < b,
        LirCompOp::Le => a <= b,
        LirCompOp::Gt => a > b,
        LirCompOp::Ge => a >= b,
    }
}

/// The value an arithmetic expression with the operator `op` computes for
/// two integer values.
pub open spec fn lir_arith_value(op: LirArithOp, a: int, b: int) -> int {
    match op {
        LirArithOp::Add => a + b,
        LirArithOp::Sub => a - b,
        LirArithOp::Mul => a * b,
        LirArithOp::Div => a / b,
        LirArithOp::Mod => a % b,
    }
}

} // verus!
