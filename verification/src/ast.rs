//! The syntax tree of a QL source file, as declaration collection and name
//! resolution read it: the parts of each declaration, formula and
//! expression that decide what a name refers to and what type an
//! expression has.

use vstd::prelude::*;
use crate::diagnostics::Span;
use crate::resolve::{AggKind, BinOp, CompOp};
use crate::types::PrimitiveType;

verus! {

/// A name as written, with where it stands.
#[derive(Debug)]
pub struct Ident {
    pub name: String,
    pub span: Span,
}

/// A type as written.
#[derive(Debug)]
pub struct TypeExpr {
    pub kind: TypeExprKind,
    pub span: Span,
}

/// The forms a written type takes.
#[derive(Debug)]
pub enum TypeExprKind {
    /// `int`, `string`, ...
    Primitive(PrimitiveType),
    /// `@name`, a database entity type.
    Database(String),
    /// A class or other named type.
    ClassName(Ident),
    /// `Module::Type`.
    ModuleAccess(Ident, Ident),
}

/// A variable declaration: a type and a name.
#[derive(Debug)]
pub struct VarDecl {
    pub ty: TypeExpr,
    pub name: Ident,
    pub span: Span,
}

/// A literal; of a float only its kind matters here.
#[derive(Debug)]
pub enum Literal {
    Int(i64),
    Float,
    String(String),
    Bool(bool),
}

/// An `order by` item.
#[derive(Debug)]
pub struct OrderItem {
    pub expr: Expr,
}

/// An expression.
#[derive(Debug)]
pub struct Expr {
    pub kind: ExprKind,
    pub span: Span,
}

/// The forms of an expression.
#[derive(Debug)]
pub enum ExprKind {
    Literal(Literal),
    Variable(Ident),
    This,
    Result,
    /// `_`.
    DontCare,
    BinaryOp { lhs: Box<Expr>, op: BinOp, rhs: Box<Expr> },
    UnaryOp { operand: Box<Expr> },
    /// `name(args)`.
    Call { name: Ident, args: Vec<Expr> },
    /// `receiver.name(args)`.
    MemberCall { receiver: Box<Expr>, name: Ident, args: Vec<Expr> },
    /// `Qualifier::name(args)`.
    QualifiedCall { args: Vec<Expr> },
    /// `Type(args)`.
    TypeCall { args: Vec<Expr> },
    /// `expr.(Type)`.
    PostfixCast { expr: Box<Expr>, ty: TypeExpr },
    /// `(Type)expr`.
    PrefixCast { ty: TypeExpr, expr: Box<Expr> },
    /// `[low .. high]`.
    Range { low: Box<Expr>, high: Box<Expr> },
    /// `[e1, e2, ...]`.
    SetLiteral { elements: Vec<Expr> },
    /// `kind(vars | guard | expr, separator order by ...)`.
    Aggregation {
        kind: AggKind,
        vars: Vec<VarDecl>,
        guard: Option<Box<Formula>>,
        expr: Option<Box<Expr>>,
        separator: Option<Box<Expr>>,
        order_by: Vec<OrderItem>,
    },
    /// `rank[index](vars | guard | expr order by ...)`.
    RankExpr {
        index: Box<Expr>,
        vars: Vec<VarDecl>,
        guard: Option<Box<Formula>>,
        expr: Box<Expr>,
        order_by: Vec<OrderItem>,
    },
    /// `any(vars | guard | expr)`.
    AnyExpr { vars: Vec<VarDecl>, guard: Option<Box<Formula>>, expr: Option<Box<Expr>> },
    /// `super.name(args)`.
    Super { args: Vec<Expr> },
    Paren(Box<Expr>),
    /// A formula used as a boolean expression.
    FormulaExpr(Box<Formula>),
}

/// A formula.
#[derive(Debug)]
pub struct Formula {
    pub kind: FormulaKind,
    pub span: Span,
}

/// The forms of a formula.
#[derive(Debug)]
pub enum FormulaKind {
    Conjunction { lhs: Box<Formula>, rhs: Box<Formula> },
    Disjunction { lhs: Box<Formula>, rhs: Box<Formula> },
    Negation { inner: Box<Formula> },
    Implies { lhs: Box<Formula>, rhs: Box<Formula> },
    IfThenElse { cond: Box<Formula>, then: Box<Formula>, else_: Box<Formula> },
    Comparison { lhs: Box<Expr>, op: CompOp, rhs: Box<Expr> },
    InstanceOf { expr: Box<Expr>, ty: TypeExpr },
    InRange { expr: Box<Expr>, range: Box<Expr> },
    Exists { vars: Vec<VarDecl>, guard: Option<Box<Formula>>, body: Box<Formula> },
    /// `exists(expr)`.
    ExistsExpr { expr: Box<Expr> },
    Forall { vars: Vec<VarDecl>, guard: Box<Formula>, body: Box<Formula> },
    Forex { vars: Vec<VarDecl>, guard: Box<Formula>, body: Box<Formula> },
    PredicateCall { name: Ident, args: Vec<Expr> },
    MemberCall { receiver: Box<Expr>, name: Ident, args: Vec<Expr> },
    QualifiedCall { args: Vec<Expr> },
    /// `any()`.
    AnyCall,
    /// `none()`.
    NoneCall,
    Paren { inner: Box<Formula> },
    /// An expression used as a formula.
    ExprFormula(Box<Expr>),
}

/// The head of a predicate.
#[derive(Debug)]
pub struct PredicateHead {
    pub name: Ident,
    pub params: Vec<VarDecl>,
    pub result_type: Option<TypeExpr>,
    pub span: Span,
}

/// A predicate declaration.
#[derive(Debug)]
pub struct Predicate {
    pub head: PredicateHead,
    pub body: Option<Formula>,
    pub span: Span,
}

/// A member of a class.
#[derive(Debug)]
pub enum ClassMember {
    CharacteristicPredicate { name: Ident, body: Formula, span: Span },
    MemberPredicate(Predicate),
    Field { ty: TypeExpr, name: Ident, span: Span },
}

/// A class declaration.
#[derive(Debug)]
pub struct ClassDecl {
    pub name: Ident,
    pub supertypes: Vec<TypeExpr>,
    pub instanceof: Vec<TypeExpr>,
    pub members: Vec<ClassMember>,
    pub span: Span,
}

/// A selected expression, with its optional `as` label.
#[derive(Debug)]
pub struct SelectExpr {
    pub expr: Expr,
    pub label: Option<String>,
    pub span: Span,
}

/// A `from ... where ... select ...` query.
#[derive(Debug)]
pub struct Select {
    pub from: Vec<VarDecl>,
    pub where_clause: Option<Formula>,
    pub select_exprs: Vec<SelectExpr>,
    pub order_by: Vec<OrderItem>,
}

/// A type parameter of a parameterized module.
#[derive(Debug)]
pub struct TypeParam {
    pub name: Ident,
}

/// An explicit module.
#[derive(Debug)]
pub struct ModuleDecl {
    pub name: Ident,
    pub type_params: Vec<TypeParam>,
    pub members: Vec<ModuleMember>,
    pub span: Span,
}

/// A branch of a newtype.
#[derive(Debug)]
pub struct NewtypeBranch {
    pub name: Ident,
    pub params: Vec<VarDecl>,
    pub body: Option<Formula>,
    pub span: Span,
}

/// A newtype declaration.
#[derive(Debug)]
pub struct NewtypeDecl {
    pub name: Ident,
    pub branches: Vec<NewtypeBranch>,
    pub span: Span,
}

/// `class Name = Target;`.
#[derive(Debug)]
pub struct TypeAliasDecl {
    pub name: Ident,
    pub target: TypeExpr,
    pub span: Span,
}

/// `module Name = Target;`.
#[derive(Debug)]
pub struct ModuleAliasDecl {
    pub name: Ident,
    pub span: Span,
}

/// `predicate name = Target::path/arity;`: the target's path parts.
#[derive(Debug)]
pub struct PredicateAliasDecl {
    pub name: Ident,
    pub target_parts: Vec<String>,
    pub target_arity: u32,
    pub span: Span,
}

/// A member of a module or file.
#[derive(Debug)]
pub enum ModuleMember {
    Predicate(Predicate),
    Class(ClassDecl),
    Select(Select),
    Module(ModuleDecl),
    Newtype(NewtypeDecl),
    TypeAlias(TypeAliasDecl),
    ModuleAlias(ModuleAliasDecl),
    PredicateAlias(PredicateAliasDecl),
    Import,
    Signature,
}

/// A parsed source file.
#[derive(Debug)]
pub struct SourceFile {
    pub members: Vec<ModuleMember>,
}

} // verus!
