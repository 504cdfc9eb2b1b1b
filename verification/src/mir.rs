//! The mid-level IR consumed by the lowering to LIR: named predicates whose
//! bodies are conjunctions or disjunctions of flat atoms.

use vstd::prelude::*;
use crate::text::copy_str;

verus! {

/// A program: a list of predicates.
#[derive(Debug)]
pub struct MirProgram {
    pub predicates: Vec<MirPredicate>,
}

/// A named predicate with its parameters and body.
#[derive(Debug)]
pub struct MirPredicate {
    pub name: String,
    pub params: Vec<MirParam>,
    pub body: MirBody,
    pub is_abstract: bool,
}

/// A predicate parameter.
#[derive(Debug)]
pub struct MirParam {
    pub name: String,
    pub ty: MirType,
}

/// The type of a parameter.
#[derive(Debug, Clone, Copy, PartialEq, Eq, Structural)]
pub enum MirType {
    Boolean,
    Int,
    Float,
    String,
    Date,
}

/// The body of a predicate.
#[derive(Debug)]
pub enum MirBody {
    /// No body (abstract predicate).
    Abstract,
    /// A single conjunction of atoms.
    Conjunction(Vec<MirAtom>),
    /// A disjunction of conjunctions.
    Disjunction(Vec<Vec<MirAtom>>),
}

/// A flat atom of a conjunction.
#[derive(Debug)]
pub enum MirAtom {
    Scan(MirScan),
    NegScan(MirScan),
    Guard(MirGuard),
    Assign(MirAssign),
    Aggregate(MirAggregate),
    TypeCheck(MirTypeCheck),
}

/// A scan of a relation with argument terms.
#[derive(Debug)]
pub struct MirScan {
    pub predicate: String,
    pub args: Vec<MirTerm>,
}

/// A term: a variable, a constant, or a don't-care.
#[derive(Debug)]
pub enum MirTerm {
    Var(String),
    Const(MirConst),
    Wildcard,
}

/// A constant. A float is held as the text its `Display` rendering gives.
#[derive(Debug)]
pub enum MirConst {
    Int(i64),
    Float(String),
    String(String),
    Bool(bool),
}

/// A comparison between two terms.
#[derive(Debug)]
pub struct MirGuard {
    pub left: MirTerm,
    pub op: MirCompOp,
    pub right: MirTerm,
}

/// Comparison operators.
#[derive(Debug, Clone, Copy, PartialEq, Eq, Structural)]
pub enum MirCompOp {
    Eq,
    Ne,
    Lt,
    Le,
    Gt,
    Ge,
}

/// `result_var = expr`.
#[derive(Debug)]
pub struct MirAssign {
    pub result_var: String,
    pub expr: MirArithExpr,
}

/// A binary arithmetic expression.
#[derive(Debug)]
pub struct MirArithExpr {
    pub left: MirTerm,
    pub op: MirArithOp,
    pub right: MirTerm,
}

/// Arithmetic operators.
#[derive(Debug, Clone, Copy, PartialEq, Eq, Structural)]
pub enum MirArithOp {
    Add,
    Sub,
    Mul,
    Div,
    Mod,
}

/// An aggregation over a separately lowered sub-predicate.
#[derive(Debug)]
pub struct MirAggregate {
    pub sub_predicate: String,
    pub group_by: Vec<String>,
    pub agg_var: String,
    pub result_var: String,
    pub function: MirAggFunction,
}

/// Aggregate functions.
#[derive(Debug, Clone, Copy, PartialEq, Eq, Structural)]
pub enum MirAggFunction {
    Count,
    Sum,
    Min,
    Max,
    Avg,
    Concat,
    Rank,
    StrictCount,
    StrictSum,
    StrictConcat,
    Any,
}

/// Membership of a variable in a class: a scan of its characteristic predicate.
#[derive(Debug)]
pub struct MirTypeCheck {
    pub var: String,
    pub type_predicate: String,
}

impl MirPredicate {
    /// A predicate whose body is the conjunction of `atoms`.
    pub fn new(name: &str, params: Vec<MirParam>, atoms: Vec<MirAtom>) -> (r: MirPredicate)
        ensures
            r.name@ == name@,
            r.params == params,
            r.body == MirBody::Conjunction(atoms),
            !r.is_abstract,
    {
        MirPredicate { name: copy_str(name), params, body: MirBody::Conjunction(atoms), is_abstract: false }
    }

    /// An abstract predicate: parameters and no body.
    pub fn abstract_pred(name: &str, params: Vec<MirParam>) -> (r: MirPredicate)
        ensures
            r.name@ == name@,
            r.params == params,
            r.body == MirBody::Abstract,
            r.is_abstract,
    {
        MirPredicate { name: copy_str(name), params, body: MirBody::Abstract, is_abstract: true }
    }
}

impl MirParam {
    /// A parameter with the given name and type.
    pub fn new(name: &str, ty: MirType) -> (r: MirParam)
        ensures
            r.name@ == name@,
            r.ty == ty,
    {
        MirParam { name: copy_str(name), ty }
    }
}

impl MirScan {
    /// A scan of `predicate` with the given arguments.
    pub fn new(predicate: &str, args: Vec<MirTerm>) -> (r: MirScan)
        ensures
            r.predicate@ == predicate@,
            r.args == args,
    {
        MirScan { predicate: copy_str(predicate), args }
    }
}

impl MirTerm {
    /// The variable `name`.
    pub fn var(name: &str) -> (r: MirTerm)
        ensures
            r matches MirTerm::Var(n) && n@ == name@,
    {
        MirTerm::Var(copy_str(name))
    }

    /// The integer constant `v`.
    pub fn integer(v: i64) -> (r: MirTerm)
        ensures
            r == MirTerm::Const(MirConst::Int(v)),
    {
        MirTerm::Const(MirConst::Int(v))
    }
}

/// What a guard with the comparison `op` says of two integer values.
pub open spec fn mir_comparison_holds(op: MirCompOp, a: int, b: int) -> bool {
    match op {
        MirCompOp::Eq => a == b,
        MirCompOp::Ne => a != b,
        MirCompOp::Lt => a < b,
        MirCompOp::Le => a <= b,
        MirCompOp::Gt => a > b,
        MirCompOp::Ge => a >= b,
    }
}

/// The value an arithmetic expression with the operator `op` gives for two
/// integer values.
pub open spec fn mir_arith_value(op: MirArithOp, a: int, b: int) -> int {
    match op {
        MirArithOp::Add => a + b,
        MirArithOp::Sub => a - b,
        MirArithOp::Mul => a * b,
        MirArithOp::Div => a / b,
        MirArithOp::Mod => a % b,
    }
}

/// The QL keyword of an aggregate function.
pub open spec fn mir_agg_keyword(f: MirAggFunction) -> Seq<char> {
    match f {
        MirAggFunction::Count => "count"@,
        MirAggFunction::Sum => "sum"@,
        MirAggFunction::Min => "min"@,
        MirAggFunction::Max => "max"@,
        MirAggFunction::Avg => "avg"@,
        MirAggFunction::Concat => "concat"@,
        MirAggFunction::Rank => "rank"@,
        MirAggFunction::StrictCount => "strictcount"@,
        MirAggFunction::StrictSum => "strictsum"@,
        MirAggFunction::StrictConcat => "strictconcat"@,
        MirAggFunction::Any => "any"@,
    }
}

} // verus!
