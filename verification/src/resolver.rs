//! Name resolution and type checking of a file: the walk over its syntax
//! tree that binds variables in scopes, resolves each reference to its
//! declaration, gives each expression its type and reports what does not
//! resolve or type check.
//!
//! The meaning of the walk is stated as functions from a resolution state
//! to the next one (`st_expr`, `st_formula`, `st_member`, ...); each step
//! of the walk is proved to compute exactly that.

use vstd::prelude::*;
use crate::ast::{
    ClassDecl, ClassMember, Expr, ExprKind, Formula, FormulaKind, Literal, ModuleMember, NewtypeBranch, OrderItem,
    Predicate, Select, SelectExpr, SourceFile, TypeExpr, TypeExprKind, TypeParam, VarDecl,
};
use crate::def::{DefId, FileId, LocalDefId};
use crate::diagnostics::{Diagnostic, Severity, Span};
use crate::namespace::{
    chain_module, chain_predicate, chain_type, find_named, PredicateV, lookup_module, lookup_predicate, lookup_type, named_map,
    ModuleNamespaces,
};
use crate::resolve::{
    aggregation_type, alias_view, binary_op_error, binary_op_type, chase_alias, comparison_error, lookup_in, Binding,
    ResolvedRef, ScopeStack, check_binary_op, check_comparison_types, aggregation_result_type, resolve_type_alias,
};
use crate::text::{copy_str, decimal, push_decimal, str_eq};
use crate::types::{display_name_spec, is_numeric_spec, PrimitiveType, Type, TypeV};

verus! {

/// A diagnostic as its severity, message, span, file and number of notes.
pub type DiagV = (Severity, Seq<char>, Span, FileId, nat);

/// The view of a diagnostic.
pub open spec fn diag_view(d: Diagnostic) -> DiagV {
    (d.severity, d.message@, d.span, d.file, d.notes@.len())
}

/// What name resolution sees of a module's namespaces: its types,
/// predicates (by name and arity) and modules.
pub type NsView = (Map<Seq<char>, DefId>, Map<(Seq<char>, usize), PredicateV>, Map<Seq<char>, DefId>);

/// The view of a module's namespaces.
pub open spec fn ns_view(n: ModuleNamespaces) -> NsView {
    (n.types(), n.predicates(), n.modules())
}

/// What resolution does not change: the file, the namespaces searched in
/// order (the file's own, the imported, the builtin, the project-wide),
/// the exported types of the files, and the alias entries.
pub struct ResolveCtx {
    pub file: FileId,
    pub chain: Seq<NsView>,
    pub exported: Seq<(FileId, Map<Seq<char>, DefId>)>,
    pub aliases: Seq<(DefId, TypeV)>,
}

/// The first namespace of `ch` whose types bind `name` gives its binding.
pub open spec fn vchain_type(ch: Seq<NsView>, name: Seq<char>) -> Option<DefId>
    decreases ch.len(),
{
    if ch.len() == 0 {
        None
    } else if ch[0].0.dom().contains(name) {
        Some(ch[0].0[name])
    } else {
        vchain_type(ch.drop_first(), name)
    }
}

/// The first namespace of `ch` whose modules bind `name` gives its
/// binding.
pub open spec fn vchain_module(ch: Seq<NsView>, name: Seq<char>) -> Option<DefId>
    decreases ch.len(),
{
    if ch.len() == 0 {
        None
    } else if ch[0].2.dom().contains(name) {
        Some(ch[0].2[name])
    } else {
        vchain_module(ch.drop_first(), name)
    }
}

/// The first namespace of `ch` whose predicates bind `name` with this
/// arity gives its binding.
pub open spec fn vchain_predicate(ch: Seq<NsView>, name: Seq<char>, arity: usize) -> Option<PredicateV>
    decreases ch.len(),
{
    if ch.len() == 0 {
        None
    } else if ch[0].1.dom().contains((name, arity)) {
        Some(ch[0].1[(name, arity)])
    } else {
        vchain_predicate(ch.drop_first(), name, arity)
    }
}

/// The views of a chain of namespaces.
pub open spec fn chain_views(ch: Seq<&ModuleNamespaces>) -> Seq<NsView> {
    ch.map_values(|n: &ModuleNamespaces| ns_view(*n))
}

/// Looking up in a chain of namespaces is looking up in their views.
proof fn lemma_chain_views(ch: Seq<&ModuleNamespaces>, name: Seq<char>, arity: usize)
    ensures
        chain_type(ch, name) == vchain_type(chain_views(ch), name),
        chain_module(ch, name) == vchain_module(chain_views(ch), name),
        chain_predicate(ch, name, arity) == vchain_predicate(chain_views(ch), name, arity),
    decreases ch.len(),
{
    if ch.len() > 0 {
        assert(chain_views(ch.drop_first()) =~= chain_views(ch).drop_first());
        lemma_chain_views(ch.drop_first(), name, arity);
    }
}

/// The state of resolution: the variable scopes, the next local number,
/// the module type parameters in scope, whether inside a parameterized
/// module (a depth) or a class, and what has been produced.
pub struct ResolveState {
    pub frames: Seq<Seq<Binding>>,
    pub next: int,
    pub tparams: Seq<(String, DefId)>,
    pub in_param: int,
    pub in_class: bool,
    pub res: Seq<(Span, ResolvedRef)>,
    pub tys: Seq<(Span, TypeV)>,
    pub diags: Seq<DiagV>,
}

// ---------------------------------------------------------------------------
// Messages
// ---------------------------------------------------------------------------

pub open spec fn undefined_type_msg(n: Seq<char>) -> Seq<char> {
    "undefined type `"@ + n + "`"@
}

pub open spec fn undefined_pred_msg(n: Seq<char>, arity: nat) -> Seq<char> {
    "undefined predicate `"@ + n + "` with arity "@ + decimal(arity)
}

pub open spec fn undefined_var_msg(n: Seq<char>) -> Seq<char> {
    "undefined variable `"@ + n + "`"@
}

pub open spec fn this_msg() -> Seq<char> {
    "`this` used outside of class context"@
}

pub open spec fn result_msg() -> Seq<char> {
    "`result` used outside of a predicate with result type"@
}

pub open spec fn unary_msg(t: TypeV) -> Seq<char> {
    "unary operator requires numeric type, got `"@ + display_name_spec(t) + "`"@
}

pub open spec fn no_result_msg(n: Seq<char>) -> Seq<char> {
    "predicate `"@ + n + "` has no result type; cannot use in expression context"@
}

pub open spec fn range_msg(l: TypeV, h: TypeV) -> Seq<char> {
    "range bounds have different types: `"@ + display_name_spec(l) + "` vs `"@ + display_name_spec(h) + "`"@
}

// ---------------------------------------------------------------------------
// Steps
// ---------------------------------------------------------------------------

/// Reports an error of this file.
pub open spec fn err(c: ResolveCtx, s: ResolveState, span: Span, msg: Seq<char>) -> ResolveState {
    ResolveState { diags: s.diags.push((Severity::Error, msg, span, c.file, 0)), ..s }
}

/// Records that the reference at `span` resolved to `id`.
pub open spec fn note_res(s: ResolveState, span: Span, id: DefId) -> ResolveState {
    ResolveState { res: s.res.push((span, ResolvedRef::Def(id))), ..s }
}

/// Opens an empty innermost scope.
pub open spec fn push_scope(s: ResolveState) -> ResolveState {
    ResolveState { frames: s.frames.push(Seq::empty()), ..s }
}

/// Closes the innermost scope, if any.
pub open spec fn pop_scope(s: ResolveState) -> ResolveState {
    if s.frames.len() > 0 {
        ResolveState { frames: s.frames.drop_last(), ..s }
    } else {
        s
    }
}

/// A new declaration of this file.
pub open spec fn fresh(c: ResolveCtx, s: ResolveState) -> (ResolveState, DefId) {
    let id = DefId { file: c.file, local: LocalDefId(s.next as u32) };
    (ResolveState { next: s.next + 1, ..s }, id)
}

/// Declares a variable in the innermost scope, if there is one.
pub open spec fn define(c: ResolveCtx, s: ResolveState, name: Seq<char>, t: TypeV) -> (ResolveState, DefId) {
    let (s1, id) = fresh(c, s);
    let frames = if s.frames.len() > 0 {
        s.frames.update(s.frames.len() - 1, s.frames.last().push((name, id, t)))
    } else {
        s.frames
    };
    (ResolveState { frames, ..s1 }, id)
}

/// The type bound to a name: a module type parameter in scope first, then
/// the namespaces in order.
pub open spec fn find_type(c: ResolveCtx, s: ResolveState, name: Seq<char>) -> Option<DefId> {
    if named_map(s.tparams).dom().contains(name) {
        Some(named_map(s.tparams)[name])
    } else {
        vchain_type(c.chain, name)
    }
}

/// The exported types of a file: the first entry for it.
pub open spec fn exported_of(ex: Seq<(FileId, Map<Seq<char>, DefId>)>, f: FileId) -> Option<Map<Seq<char>, DefId>>
    decreases ex.len(),
{
    if ex.len() == 0 {
        None
    } else if ex[0].0 == f {
        Some(ex[0].1)
    } else {
        exported_of(ex.drop_first(), f)
    }
}

/// A type after following alias entries.
pub open spec fn chase(c: ResolveCtx, t: TypeV) -> TypeV {
    chase_alias(t, c.aliases, 10)
}

/// Resolution of a written type.
pub open spec fn st_type(c: ResolveCtx, s: ResolveState, te: TypeExpr) -> (ResolveState, TypeV) {
    match te.kind {
        TypeExprKind::Primitive(p) => (s, TypeV::Primitive(p)),
        TypeExprKind::Database(n) => (s, TypeV::DbEntity(n@)),
        TypeExprKind::ClassName(u) => match find_type(c, s, u.name@) {
            Some(d) => (note_res(s, u.span, d), TypeV::Class(d)),
            None => (if s.in_param == 0 { err(c, s, u.span, undefined_type_msg(u.name@)) } else { s }, TypeV::Error),
        },
        TypeExprKind::ModuleAccess(m, t) => match vchain_module(c.chain, m.name@) {
            Some(md) => {
                let s1 = note_res(s, m.span, md);
                match exported_of(c.exported, md.file) {
                    Some(tys) => if tys.dom().contains(t.name@) {
                        (note_res(s1, t.span, tys[t.name@]), TypeV::Class(tys[t.name@]))
                    } else {
                        (s1, TypeV::Error)
                    },
                    None => (s1, TypeV::Error),
                }
            },
            None => (s, TypeV::Error),
        },
    }
}

/// Resolution of a list of written types, in order.
pub open spec fn st_types(c: ResolveCtx, s: ResolveState, ts: Seq<TypeExpr>) -> ResolveState
    decreases ts.len(),
{
    if ts.len() == 0 {
        s
    } else {
        st_type(c, st_types(c, s, ts.drop_last()), ts.last()).0
    }
}

/// Declaration of variables in order, each with its resolved type; also
/// the type of the last one (the error type when there is none).
pub open spec fn st_vars(c: ResolveCtx, s: ResolveState, vs: Seq<VarDecl>) -> (ResolveState, TypeV)
    decreases vs.len(),
{
    if vs.len() == 0 {
        (s, TypeV::Error)
    } else {
        let s0 = st_vars(c, s, vs.drop_last()).0;
        let (s1, t) = st_type(c, s0, vs.last().ty);
        (define(c, s1, vs.last().name.name@, t).0, t)
    }
}

/// After the arguments of a call: the predicate of that name and arity is
/// what the name resolves to, else an error (unless inside a parameterized
/// module).
pub open spec fn pcall_tail(c: ResolveCtx, s: ResolveState, name: Seq<char>, span: Span, arity: usize) -> ResolveState {
    match vchain_predicate(c.chain, name, arity) {
        Some(p) => note_res(s, span, p.0),
        None => if s.in_param == 0 { err(c, s, span, undefined_pred_msg(name, arity as nat)) } else { s },
    }
}

/// The type of a literal.
pub open spec fn literal_type(l: Literal) -> TypeV {
    match l {
        Literal::Int(_) => TypeV::Primitive(PrimitiveType::Int),
        Literal::Float => TypeV::Primitive(PrimitiveType::Float),
        Literal::String(_) => TypeV::Primitive(PrimitiveType::String),
        Literal::Bool(_) => TypeV::Primitive(PrimitiveType::Boolean),
    }
}

/// Resolution of an expression: its type, recorded for its span.
pub open spec fn st_expr(c: ResolveCtx, s: ResolveState, e: Expr) -> (ResolveState, TypeV)
    decreases e, 1nat,
{
    let (s1, t) = st_inner(c, s, e);
    (ResolveState { tys: s1.tys.push((e.span, t)), ..s1 }, t)
}

/// Resolution of a list of expressions in order.
pub open spec fn st_exprs(c: ResolveCtx, s: ResolveState, es: Seq<Expr>) -> ResolveState
    decreases es, 0nat,
{
    if es.len() == 0 {
        s
    } else {
        st_expr(c, st_exprs(c, s, es.drop_last()), es.last()).0
    }
}

/// Resolution of the elements of a set literal: the type of the first
/// element whose type is no error.
pub open spec fn st_set(c: ResolveCtx, s: ResolveState, es: Seq<Expr>) -> (ResolveState, TypeV)
    decreases es, 0nat,
{
    if es.len() == 0 {
        (s, TypeV::Error)
    } else {
        let (s0, r0) = st_set(c, s, es.drop_last());
        let (s1, t) = st_expr(c, s0, es.last());
        (s1, if r0 == TypeV::Error { t } else { r0 })
    }
}

/// Resolution of `order by` items in order.
pub open spec fn st_orders(c: ResolveCtx, s: ResolveState, os: Seq<OrderItem>) -> ResolveState
    decreases os, 0nat,
{
    if os.len() == 0 {
        s
    } else {
        st_expr(c, st_orders(c, s, os.drop_last()), os.last().expr).0
    }
}

/// Resolution of an optional guard.
pub open spec fn st_guard(c: ResolveCtx, s: ResolveState, g: Option<Box<Formula>>) -> ResolveState
    decreases g, 0nat,
{
    match g {
        Some(f) => st_formula(c, s, *f),
        None => s,
    }
}

/// Resolution of an optional expression, with the error type when absent.
pub open spec fn st_opt_expr(c: ResolveCtx, s: ResolveState, e: Option<Box<Expr>>, absent: TypeV) -> (ResolveState, TypeV)
    decreases e, 0nat,
{
    match e {
        Some(x) => st_expr(c, s, *x),
        None => (s, absent),
    }
}

/// Resolution of an expression without recording its type.
pub open spec fn st_inner(c: ResolveCtx, s: ResolveState, e: Expr) -> (ResolveState, TypeV)
    decreases e, 0nat,
{
    match e.kind {
        ExprKind::Literal(l) => (s, literal_type(l)),
        ExprKind::Variable(u) => if u.name@ == "super"@ {
            match lookup_in(s.frames, "this"@) {
                Some(b) => (s, b.1),
                None => (s, TypeV::Error),
            }
        } else {
            match lookup_in(s.frames, u.name@) {
                Some(b) => (note_res(s, u.span, b.0), b.1),
                None => match vchain_predicate(c.chain, u.name@, 0) {
                    Some(p) => (note_res(s, u.span, p.0), match p.1 {
                        Some(t) => t,
                        None => TypeV::Error,
                    }),
                    None => if s.in_class {
                        (s, TypeV::Error)
                    } else {
                        (err(c, s, u.span, undefined_var_msg(u.name@)), TypeV::Error)
                    },
                },
            }
        },
        ExprKind::This => match lookup_in(s.frames, "this"@) {
            Some(b) => (s, b.1),
            None => (err(c, s, e.span, this_msg()), TypeV::Error),
        },
        ExprKind::Result => match lookup_in(s.frames, "result"@) {
            Some(b) => (s, b.1),
            None => (err(c, s, e.span, result_msg()), TypeV::Error),
        },
        ExprKind::DontCare => (s, TypeV::Error),
        ExprKind::BinaryOp { lhs, op, rhs } => {
            let (s1, lt) = st_expr(c, s, *lhs);
            let (s2, rt) = st_expr(c, s1, *rhs);
            let l = chase(c, lt);
            let r = chase(c, rt);
            (match binary_op_error(l, r, op) {
                Some(m) => err(c, s2, e.span, m),
                None => s2,
            }, binary_op_type(l, r, op))
        },
        ExprKind::UnaryOp { operand } => {
            let (s1, t) = st_expr(c, s, *operand);
            let r = chase(c, t);
            (if !is_numeric_spec(r) && r != TypeV::Error { err(c, s1, e.span, unary_msg(t)) } else { s1 }, t)
        },
        ExprKind::Call { name, args } => {
            let s1 = st_exprs(c, s, args@);
            let arity = args@.len() as usize;
            match vchain_predicate(c.chain, name.name@, arity) {
                Some(p) => {
                    let s2 = note_res(s1, name.span, p.0);
                    match p.1 {
                        Some(t) => (s2, t),
                        None => (err(c, s2, name.span, no_result_msg(name.name@)), TypeV::Error),
                    }
                },
                None => (if s1.in_param == 0 {
                    err(c, s1, name.span, undefined_pred_msg(name.name@, arity as nat))
                } else {
                    s1
                }, TypeV::Error),
            }
        },
        ExprKind::MemberCall { receiver, args, .. } => {
            let s1 = st_expr(c, s, *receiver).0;
            (st_exprs(c, s1, args@), TypeV::Error)
        },
        ExprKind::QualifiedCall { args } => (st_exprs(c, s, args@), TypeV::Error),
        ExprKind::TypeCall { args } => (st_exprs(c, s, args@), TypeV::Error),
        ExprKind::PostfixCast { expr, ty } => st_type(c, st_expr(c, s, *expr).0, ty),
        ExprKind::PrefixCast { ty, expr } => st_type(c, st_expr(c, s, *expr).0, ty),
        ExprKind::Range { low, high } => {
            let (s1, lt) = st_expr(c, s, *low);
            let (s2, ht) = st_expr(c, s1, *high);
            (if lt != ht && lt != TypeV::Error && ht != TypeV::Error { err(c, s2, e.span, range_msg(lt, ht)) } else { s2 }, lt)
        },
        ExprKind::SetLiteral { elements } => st_set(c, s, elements@),
        ExprKind::Aggregation { kind, vars, guard, expr, separator, order_by } => {
            let s2 = st_vars(c, push_scope(s), vars@).0;
            let s3 = st_guard(c, s2, guard);
            let (s4, et) = st_opt_expr(c, s3, expr, TypeV::Error);
            let s5 = st_opt_expr(c, s4, separator, TypeV::Error).0;
            let s6 = st_orders(c, s5, order_by@);
            (pop_scope(s6), aggregation_type(Some(kind), et))
        },
        ExprKind::RankExpr { index, vars, guard, expr, order_by } => {
            let s1 = st_expr(c, s, *index).0;
            let s3 = st_vars(c, push_scope(s1), vars@).0;
            let s4 = st_guard(c, s3, guard);
            let (s5, t) = st_expr(c, s4, *expr);
            let s6 = st_orders(c, s5, order_by@);
            (pop_scope(s6), t)
        },
        ExprKind::AnyExpr { vars, guard, expr } => {
            let (s2, vt) = st_vars(c, push_scope(s), vars@);
            let s3 = st_guard(c, s2, guard);
            let (s4, t) = st_opt_expr(c, s3, expr, vt);
            (pop_scope(s4), t)
        },
        ExprKind::Super { args } => (st_exprs(c, s, args@), TypeV::Error),
        ExprKind::Paren(inner) => st_expr(c, s, *inner),
        ExprKind::FormulaExpr(f) => (st_formula(c, s, *f), TypeV::Primitive(PrimitiveType::Boolean)),
    }
}

/// Resolution of a formula.
pub open spec fn st_formula(c: ResolveCtx, s: ResolveState, f: Formula) -> ResolveState
    decreases f, 0nat,
{
    match f.kind {
        FormulaKind::Conjunction { lhs, rhs } => st_formula(c, st_formula(c, s, *lhs), *rhs),
        FormulaKind::Disjunction { lhs, rhs } => st_formula(c, st_formula(c, s, *lhs), *rhs),
        FormulaKind::Negation { inner } => st_formula(c, s, *inner),
        FormulaKind::Implies { lhs, rhs } => st_formula(c, st_formula(c, s, *lhs), *rhs),
        FormulaKind::IfThenElse { cond, then, else_ } => st_formula(
            c,
            st_formula(c, st_formula(c, s, *cond), *then),
            *else_,
        ),
        FormulaKind::Comparison { lhs, op, rhs } => {
            let (s1, lt) = st_expr(c, s, *lhs);
            let (s2, rt) = st_expr(c, s1, *rhs);
            match comparison_error(lt, rt) {
                Some(m) => err(c, s2, f.span, m),
                None => s2,
            }
        },
        FormulaKind::InstanceOf { expr, ty } => st_type(c, st_expr(c, s, *expr).0, ty).0,
        FormulaKind::InRange { expr, range } => st_expr(c, st_expr(c, s, *expr).0, *range).0,
        FormulaKind::Exists { vars, guard, body } => {
            let s2 = st_vars(c, push_scope(s), vars@).0;
            pop_scope(st_formula(c, st_guard(c, s2, guard), *body))
        },
        FormulaKind::ExistsExpr { expr } => st_expr(c, s, *expr).0,
        FormulaKind::Forall { vars, guard, body } => {
            let s2 = st_vars(c, push_scope(s), vars@).0;
            pop_scope(st_formula(c, st_formula(c, s2, *guard), *body))
        },
        FormulaKind::Forex { vars, guard, body } => {
            let s2 = st_vars(c, push_scope(s), vars@).0;
            pop_scope(st_formula(c, st_formula(c, s2, *guard), *body))
        },
        FormulaKind::PredicateCall { name, args } => pcall_tail(
            c,
            st_exprs(c, s, args@),
            name.name@,
            name.span,
            args@.len() as usize,
        ),
        FormulaKind::MemberCall { receiver, args, .. } => st_exprs(c, st_expr(c, s, *receiver).0, args@),
        FormulaKind::QualifiedCall { args } => st_exprs(c, s, args@),
        FormulaKind::AnyCall => s,
        FormulaKind::NoneCall => s,
        FormulaKind::Paren { inner } => st_formula(c, s, *inner),
        FormulaKind::ExprFormula(e) => st_bridge(c, s, *e),
    }
}

/// Resolution of an expression used as a formula: a call or a bare name
/// is a predicate call; a name bound as a variable resolves to it.
pub open spec fn st_bridge(c: ResolveCtx, s: ResolveState, e: Expr) -> ResolveState
    decreases e, 2nat,
{
    match e.kind {
        ExprKind::Call { name, args } => pcall_tail(c, st_exprs(c, s, args@), name.name@, name.span, args@.len() as usize),
        ExprKind::MemberCall { receiver, args, .. } => st_exprs(c, st_expr(c, s, *receiver).0, args@),
        ExprKind::QualifiedCall { args } => st_exprs(c, s, args@),
        ExprKind::Variable(u) => match lookup_in(s.frames, u.name@) {
            Some(b) => note_res(s, u.span, b.0),
            None => pcall_tail(c, s, u.name@, u.span, 0),
        },
        _ => st_expr(c, s, e).0,
    }
}



// ---------------------------------------------------------------------------
// How many declarations resolution numbers
// ---------------------------------------------------------------------------

/// The variables an expression declares (in its aggregations and
/// quantifiers).
pub open spec fn count_expr(e: Expr) -> int
    decreases e, 0nat,
{
    match e.kind {
        ExprKind::BinaryOp { lhs, rhs, .. } => count_expr(*lhs) + count_expr(*rhs),
        ExprKind::UnaryOp { operand } => count_expr(*operand),
        ExprKind::Call { args, .. } => count_exprs(args@),
        ExprKind::MemberCall { receiver, args, .. } => count_expr(*receiver) + count_exprs(args@),
        ExprKind::QualifiedCall { args } => count_exprs(args@),
        ExprKind::TypeCall { args } => count_exprs(args@),
        ExprKind::PostfixCast { expr, .. } => count_expr(*expr),
        ExprKind::PrefixCast { expr, .. } => count_expr(*expr),
        ExprKind::Range { low, high } => count_expr(*low) + count_expr(*high),
        ExprKind::SetLiteral { elements } => count_exprs(elements@),
        ExprKind::Aggregation { vars, guard, expr, separator, order_by, .. } => vars@.len() + count_guard(guard)
            + count_opt(expr) + count_opt(separator) + count_orders(order_by@),
        ExprKind::RankExpr { index, vars, guard, expr, order_by } => count_expr(*index) + vars@.len() + count_guard(
            guard,
        ) + count_expr(*expr) + count_orders(order_by@),
        ExprKind::AnyExpr { vars, guard, expr } => vars@.len() + count_guard(guard) + count_opt(expr),
        ExprKind::Super { args } => count_exprs(args@),
        ExprKind::Paren(inner) => count_expr(*inner),
        ExprKind::FormulaExpr(f) => count_formula(*f),
        _ => 0,
    }
}

pub open spec fn count_exprs(es: Seq<Expr>) -> int
    decreases es, 0nat,
{
    if es.len() == 0 {
        0
    } else {
        count_exprs(es.drop_last()) + count_expr(es.last())
    }
}

pub open spec fn count_orders(os: Seq<OrderItem>) -> int
    decreases os, 0nat,
{
    if os.len() == 0 {
        0
    } else {
        count_orders(os.drop_last()) + count_expr(os.last().expr)
    }
}

pub open spec fn count_guard(g: Option<Box<Formula>>) -> int
    decreases g, 0nat,
{
    match g {
        Some(f) => count_formula(*f),
        None => 0,
    }
}

pub open spec fn count_opt(e: Option<Box<Expr>>) -> int
    decreases e, 0nat,
{
    match e {
        Some(x) => count_expr(*x),
        None => 0,
    }
}

/// The variables a formula declares.
pub open spec fn count_formula(f: Formula) -> int
    decreases f, 0nat,
{
    match f.kind {
        FormulaKind::Conjunction { lhs, rhs } => count_formula(*lhs) + count_formula(*rhs),
        FormulaKind::Disjunction { lhs, rhs } => count_formula(*lhs) + count_formula(*rhs),
        FormulaKind::Negation { inner } => count_formula(*inner),
        FormulaKind::Implies { lhs, rhs } => count_formula(*lhs) + count_formula(*rhs),
        FormulaKind::IfThenElse { cond, then, else_ } => count_formula(*cond) + count_formula(*then) + count_formula(
            *else_,
        ),
        FormulaKind::Comparison { lhs, rhs, .. } => count_expr(*lhs) + count_expr(*rhs),
        FormulaKind::InstanceOf { expr, .. } => count_expr(*expr),
        FormulaKind::InRange { expr, range } => count_expr(*expr) + count_expr(*range),
        FormulaKind::Exists { vars, guard, body } => vars@.len() + count_guard(guard) + count_formula(*body),
        FormulaKind::ExistsExpr { expr } => count_expr(*expr),
        FormulaKind::Forall { vars, guard, body } => vars@.len() + count_formula(*guard) + count_formula(*body),
        FormulaKind::Forex { vars, guard, body } => vars@.len() + count_formula(*guard) + count_formula(*body),
        FormulaKind::PredicateCall { args, .. } => count_exprs(args@),
        FormulaKind::MemberCall { receiver, args, .. } => count_expr(*receiver) + count_exprs(args@),
        FormulaKind::QualifiedCall { args } => count_exprs(args@),
        FormulaKind::Paren { inner } => count_formula(*inner),
        FormulaKind::ExprFormula(e) => count_bridge(*e),
        _ => 0,
    }
}

/// The variables an expression used as a formula declares.
pub open spec fn count_bridge(e: Expr) -> int
    decreases e, 1nat,
{
    match e.kind {
        ExprKind::Call { args, .. } => count_exprs(args@),
        ExprKind::MemberCall { receiver, args, .. } => count_expr(*receiver) + count_exprs(args@),
        ExprKind::QualifiedCall { args } => count_exprs(args@),
        ExprKind::Variable(_) => 0,
        _ => count_expr(e),
    }
}

/// The variables a predicate declares after its parameters.
pub open spec fn count_pred_rest(p: Predicate) -> int {
    (if p.head.result_type is Some { 1int } else { 0int }) + match p.body {
        Some(b) => count_formula(b),
        None => 0,
    }
}

/// The number of fields among class members.
pub open spec fn count_fields(ms: Seq<ClassMember>) -> int
    decreases ms.len(),
{
    if ms.len() == 0 {
        0
    } else {
        count_fields(ms.drop_last()) + if ms.last() is Field { 1int } else { 0int }
    }
}

/// The variables a class member declares, with `nf` fields in the class.
pub open spec fn count_class_member(nf: int, m: ClassMember) -> int {
    match m {
        ClassMember::CharacteristicPredicate { body, .. } => 1 + nf + count_formula(body),
        ClassMember::MemberPredicate(p) => 1 + nf + p.head.params@.len() + count_pred_rest(p),
        ClassMember::Field { .. } => 0,
    }
}

pub open spec fn count_class_members(nf: int, ms: Seq<ClassMember>) -> int
    decreases ms.len(),
{
    if ms.len() == 0 {
        0
    } else {
        count_class_members(nf, ms.drop_last()) + count_class_member(nf, ms.last())
    }
}

pub open spec fn count_selects(es: Seq<SelectExpr>) -> int
    decreases es.len(),
{
    if es.len() == 0 {
        0
    } else {
        count_selects(es.drop_last()) + count_expr(es.last().expr) + if es.last().label is Some { 1int } else { 0int }
    }
}

pub open spec fn count_select(sel: Select) -> int {
    sel.from@.len() + match sel.where_clause {
        Some(w) => count_formula(w),
        None => 0,
    } + count_selects(sel.select_exprs@) + count_orders(sel.order_by@)
}

pub open spec fn count_branches(bs: Seq<NewtypeBranch>) -> int
    decreases bs.len(),
{
    if bs.len() == 0 {
        0
    } else {
        count_branches(bs.drop_last()) + match bs.last().body {
            Some(b) => bs.last().params@.len() + count_formula(b),
            None => 0,
        }
    }
}

/// The declarations resolution numbers in a module member: its variables
/// and module type parameters.
pub open spec fn count_member(m: ModuleMember) -> int
    decreases m, 0nat,
{
    match m {
        ModuleMember::Predicate(p) => p.head.params@.len() + count_pred_rest(p),
        ModuleMember::Class(cl) => count_class_members(count_fields(cl.members@), cl.members@),
        ModuleMember::Select(sel) => count_select(sel),
        ModuleMember::Module(md) => md.type_params@.len() + count_members(md.members@),
        ModuleMember::Newtype(nt) => count_branches(nt.branches@),
        _ => 0,
    }
}

pub open spec fn count_members(ms: Seq<ModuleMember>) -> int
    decreases ms, 0nat,
{
    if ms.len() == 0 {
        0
    } else {
        count_members(ms.drop_last()) + count_member(ms.last())
    }
}

// ---------------------------------------------------------------------------
// What the steps keep
// ---------------------------------------------------------------------------

/// `t` keeps what `s` had produced, and every diagnostic added is an
/// error of the resolved file without notes.
pub open spec fn adds_only(c: ResolveCtx, s: ResolveState, t: ResolveState) -> bool {
    &&& s.res.len() <= t.res.len()
    &&& s.tys.len() <= t.tys.len()
    &&& s.diags.len() <= t.diags.len()
    &&& forall|i: int| 0 <= i < s.res.len() ==> #[trigger] t.res[i] == s.res[i]
    &&& forall|i: int| 0 <= i < s.tys.len() ==> #[trigger] t.tys[i] == s.tys[i]
    &&& forall|i: int| 0 <= i < s.diags.len() ==> #[trigger] t.diags[i] == s.diags[i]
    &&& forall|i: int| s.diags.len() <= i < t.diags.len() ==> (#[trigger] t.diags[i]).0 == Severity::Error
        && t.diags[i].3 == c.file && t.diags[i].4 == 0
}

/// `t` follows `s` without a change of scopes, type parameters, depth or
/// class context, and numbers no fewer declarations.
pub open spec fn kept(s: ResolveState, t: ResolveState) -> bool {
    &&& t.frames == s.frames
    &&& t.next >= s.next
    &&& t.tparams == s.tparams
    &&& t.in_param == s.in_param
    &&& t.in_class == s.in_class
}

/// Like `kept`, but the innermost scope may have gained variables.
pub open spec fn kept_outer(s: ResolveState, t: ResolveState) -> bool {
    &&& t.frames.len() == s.frames.len()
    &&& t.frames.drop_last() == s.frames.drop_last()
    &&& t.next >= s.next
    &&& t.tparams == s.tparams
    &&& t.in_param == s.in_param
    &&& t.in_class == s.in_class
}

proof fn lemma_type_kept(c: ResolveCtx, s: ResolveState, te: TypeExpr)
    ensures
        adds_only(c, s, st_type(c, s, te).0),
        kept(s, st_type(c, s, te).0),
        st_type(c, s, te).0.next == s.next,
{
}

proof fn lemma_types_kept(c: ResolveCtx, s: ResolveState, ts: Seq<TypeExpr>)
    ensures
        adds_only(c, s, st_types(c, s, ts)),
        kept(s, st_types(c, s, ts)),
        st_types(c, s, ts).next == s.next,
    decreases ts.len(),
{
    if ts.len() > 0 {
        lemma_types_kept(c, s, ts.drop_last());
        lemma_type_kept(c, st_types(c, s, ts.drop_last()), ts.last());
    }
}

proof fn lemma_vars_kept(c: ResolveCtx, s: ResolveState, vs: Seq<VarDecl>)
    requires
        s.frames.len() > 0,
    ensures
        adds_only(c, s, st_vars(c, s, vs).0),
        kept_outer(s, st_vars(c, s, vs).0),
        st_vars(c, s, vs).0.next == s.next + vs.len(),
    decreases vs.len(),
{
    if vs.len() > 0 {
        lemma_vars_kept(c, s, vs.drop_last());
        let s0 = st_vars(c, s, vs.drop_last()).0;
        lemma_type_kept(c, s0, vs.last().ty);
        let s1 = st_type(c, s0, vs.last().ty).0;
        let s2 = define(c, s1, vs.last().name.name@, st_type(c, s0, vs.last().ty).1).0;
        assert(s2.frames.drop_last() =~= s1.frames.drop_last());
    }
}

proof fn lemma_vars_prefix(c: ResolveCtx, s: ResolveState, vs: Seq<VarDecl>, k: int)
    requires
        0 <= k <= vs.len(),
    ensures
        st_vars(c, s, vs.take(k)).0.next <= st_vars(c, s, vs).0.next,
    decreases vs.len(),
{
    if k < vs.len() {
        assert(vs.drop_last().take(k) =~= vs.take(k));
        lemma_vars_prefix(c, s, vs.drop_last(), k);
    } else {
        assert(vs.take(k) =~= vs);
    }
}

proof fn lemma_scoped_kept(s: ResolveState, s2: ResolveState, s3: ResolveState)
    requires
        kept_outer(push_scope(s), s2),
        kept(s2, s3),
    ensures
        kept(s, pop_scope(s3)),
{
    assert(push_scope(s).frames.drop_last() =~= s.frames);
}

/// Resolving an expression keeps what was produced and adds only errors
/// of the file; it leaves the scopes, the module type parameters, the
/// depth and the class context as they were; and it numbers exactly
/// `count_expr(e)` new declarations, whatever the namespaces.
pub proof fn lemma_expr_kept(c: ResolveCtx, s: ResolveState, e: Expr)
    ensures
        adds_only(c, s, st_expr(c, s, e).0),
        st_expr(c, s, e).0.next == s.next + count_expr(e),
        kept(s, st_expr(c, s, e).0),
    decreases e, 2nat,
{
    lemma_inner_kept(c, s, e);
}

proof fn lemma_exprs_kept(c: ResolveCtx, s: ResolveState, es: Seq<Expr>)
    ensures
        adds_only(c, s, st_exprs(c, s, es)),
        st_exprs(c, s, es).next == s.next + count_exprs(es),
        kept(s, st_exprs(c, s, es)),
    decreases es, 0nat,
{
    if es.len() > 0 {
        lemma_exprs_kept(c, s, es.drop_last());
        lemma_expr_kept(c, st_exprs(c, s, es.drop_last()), es.last());
    }
}

proof fn lemma_set_kept(c: ResolveCtx, s: ResolveState, es: Seq<Expr>)
    ensures
        adds_only(c, s, st_set(c, s, es).0),
        st_set(c, s, es).0.next == s.next + count_exprs(es),
        kept(s, st_set(c, s, es).0),
    decreases es, 0nat,
{
    if es.len() > 0 {
        lemma_set_kept(c, s, es.drop_last());
        lemma_expr_kept(c, st_set(c, s, es.drop_last()).0, es.last());
    }
}

proof fn lemma_orders_kept(c: ResolveCtx, s: ResolveState, os: Seq<OrderItem>)
    ensures
        adds_only(c, s, st_orders(c, s, os)),
        st_orders(c, s, os).next == s.next + count_orders(os),
        kept(s, st_orders(c, s, os)),
    decreases os, 0nat,
{
    if os.len() > 0 {
        lemma_orders_kept(c, s, os.drop_last());
        lemma_expr_kept(c, st_orders(c, s, os.drop_last()), os.last().expr);
    }
}

proof fn lemma_guard_kept(c: ResolveCtx, s: ResolveState, g: Option<Box<Formula>>)
    ensures
        adds_only(c, s, st_guard(c, s, g)),
        st_guard(c, s, g).next == s.next + count_guard(g),
        kept(s, st_guard(c, s, g)),
    decreases g, 0nat,
{
    match g {
        Some(f) => lemma_formula_kept(c, s, *f),
        None => {},
    }
}

proof fn lemma_opt_kept(c: ResolveCtx, s: ResolveState, e: Option<Box<Expr>>, absent: TypeV)
    ensures
        adds_only(c, s, st_opt_expr(c, s, e, absent).0),
        st_opt_expr(c, s, e, absent).0.next == s.next + count_opt(e),
        kept(s, st_opt_expr(c, s, e, absent).0),
    decreases e, 0nat,
{
    match e {
        Some(x) => lemma_expr_kept(c, s, *x),
        None => {},
    }
}

#[verifier::spinoff_prover]
proof fn lemma_inner_kept(c: ResolveCtx, s: ResolveState, e: Expr)
    ensures
        adds_only(c, s, st_inner(c, s, e).0),
        st_inner(c, s, e).0.next == s.next + count_expr(e),
        kept(s, st_inner(c, s, e).0),
    decreases e, 1nat,
{
    match e.kind {
        ExprKind::BinaryOp { lhs, op, rhs } => {
            lemma_expr_kept(c, s, *lhs);
            lemma_expr_kept(c, st_expr(c, s, *lhs).0, *rhs);
        },
        ExprKind::UnaryOp { operand } => lemma_expr_kept(c, s, *operand),
        ExprKind::Call { name, args } => lemma_exprs_kept(c, s, args@),
        ExprKind::MemberCall { receiver, args, .. } => {
            lemma_expr_kept(c, s, *receiver);
            lemma_exprs_kept(c, st_expr(c, s, *receiver).0, args@);
        },
        ExprKind::QualifiedCall { args } => lemma_exprs_kept(c, s, args@),
        ExprKind::TypeCall { args } => lemma_exprs_kept(c, s, args@),
        ExprKind::PostfixCast { expr, ty } => {
            lemma_expr_kept(c, s, *expr);
            lemma_type_kept(c, st_expr(c, s, *expr).0, ty);
        },
        ExprKind::PrefixCast { ty, expr } => {
            lemma_expr_kept(c, s, *expr);
            lemma_type_kept(c, st_expr(c, s, *expr).0, ty);
        },
        ExprKind::Range { low, high } => {
            lemma_expr_kept(c, s, *low);
            lemma_expr_kept(c, st_expr(c, s, *low).0, *high);
        },
        ExprKind::SetLiteral { elements } => lemma_set_kept(c, s, elements@),
        ExprKind::Aggregation { .. } => lemma_binder_kept(c, s, e),
        ExprKind::RankExpr { .. } => lemma_binder_kept(c, s, e),
        ExprKind::AnyExpr { .. } => lemma_binder_kept(c, s, e),
        ExprKind::Super { args } => lemma_exprs_kept(c, s, args@),
        ExprKind::Paren(inner) => lemma_expr_kept(c, s, *inner),
        ExprKind::FormulaExpr(f) => lemma_formula_kept(c, s, *f),
        _ => {},
    }
}

proof fn lemma_binder_kept(c: ResolveCtx, s: ResolveState, e: Expr)
    requires
        e.kind is Aggregation || e.kind is RankExpr || e.kind is AnyExpr,
    ensures
        adds_only(c, s, st_inner(c, s, e).0),
        st_inner(c, s, e).0.next == s.next + count_expr(e),
        kept(s, st_inner(c, s, e).0),
    decreases e, 0nat,
{
    match e.kind {
        ExprKind::Aggregation { kind, vars, guard, expr, separator, order_by } => {
            lemma_vars_kept(c, push_scope(s), vars@);
            let s2 = st_vars(c, push_scope(s), vars@).0;
            lemma_guard_kept(c, s2, guard);
            let s3 = st_guard(c, s2, guard);
            lemma_opt_kept(c, s3, expr, TypeV::Error);
            let s4 = st_opt_expr(c, s3, expr, TypeV::Error).0;
            lemma_opt_kept(c, s4, separator, TypeV::Error);
            let s5 = st_opt_expr(c, s4, separator, TypeV::Error).0;
            lemma_orders_kept(c, s5, order_by@);
            lemma_scoped_kept(s, s2, st_orders(c, s5, order_by@));
        },
        ExprKind::RankExpr { index, vars, guard, expr, order_by } => {
            lemma_expr_kept(c, s, *index);
            let s1 = st_expr(c, s, *index).0;
            lemma_vars_kept(c, push_scope(s1), vars@);
            let s3 = st_vars(c, push_scope(s1), vars@).0;
            lemma_guard_kept(c, s3, guard);
            let s4 = st_guard(c, s3, guard);
            lemma_expr_kept(c, s4, *expr);
            let s5 = st_expr(c, s4, *expr).0;
            lemma_orders_kept(c, s5, order_by@);
            lemma_scoped_kept(s1, s3, st_orders(c, s5, order_by@));
        },
        ExprKind::AnyExpr { vars, guard, expr } => {
            lemma_vars_kept(c, push_scope(s), vars@);
            let (s2, vt) = st_vars(c, push_scope(s), vars@);
            lemma_guard_kept(c, s2, guard);
            let s3 = st_guard(c, s2, guard);
            lemma_opt_kept(c, s3, expr, vt);
            lemma_scoped_kept(s, s2, st_opt_expr(c, s3, expr, vt).0);
        },
        _ => {},
    }
}

/// Resolving a formula keeps what was produced and adds only errors of the
/// file; it leaves the scopes, the module type parameters, the depth and
/// the class context as they were; and it numbers exactly
/// `count_formula(f)` new declarations, whatever the namespaces.
pub proof fn lemma_formula_kept(c: ResolveCtx, s: ResolveState, f: Formula)
    ensures
        adds_only(c, s, st_formula(c, s, f)),
        st_formula(c, s, f).next == s.next + count_formula(f),
        kept(s, st_formula(c, s, f)),
    decreases f, 0nat,
{
    match f.kind {
        FormulaKind::Conjunction { lhs, rhs } => {
            lemma_formula_kept(c, s, *lhs);
            lemma_formula_kept(c, st_formula(c, s, *lhs), *rhs);
        },
        FormulaKind::Disjunction { lhs, rhs } => {
            lemma_formula_kept(c, s, *lhs);
            lemma_formula_kept(c, st_formula(c, s, *lhs), *rhs);
        },
        FormulaKind::Negation { inner } => lemma_formula_kept(c, s, *inner),
        FormulaKind::Implies { lhs, rhs } => {
            lemma_formula_kept(c, s, *lhs);
            lemma_formula_kept(c, st_formula(c, s, *lhs), *rhs);
        },
        FormulaKind::IfThenElse { cond, then, else_ } => {
            lemma_formula_kept(c, s, *cond);
            let s1 = st_formula(c, s, *cond);
            lemma_formula_kept(c, s1, *then);
            lemma_formula_kept(c, st_formula(c, s1, *then), *else_);
        },
        FormulaKind::Comparison { lhs, op, rhs } => {
            lemma_expr_kept(c, s, *lhs);
            lemma_expr_kept(c, st_expr(c, s, *lhs).0, *rhs);
        },
        FormulaKind::InstanceOf { expr, ty } => {
            lemma_expr_kept(c, s, *expr);
            lemma_type_kept(c, st_expr(c, s, *expr).0, ty);
        },
        FormulaKind::InRange { expr, range } => {
            lemma_expr_kept(c, s, *expr);
            lemma_expr_kept(c, st_expr(c, s, *expr).0, *range);
        },
        FormulaKind::Exists { vars, guard, body } => {
            lemma_vars_kept(c, push_scope(s), vars@);
            let s2 = st_vars(c, push_scope(s), vars@).0;
            lemma_guard_kept(c, s2, guard);
            lemma_formula_kept(c, st_guard(c, s2, guard), *body);
            lemma_scoped_kept(s, s2, st_formula(c, st_guard(c, s2, guard), *body));
        },
        FormulaKind::ExistsExpr { expr } => lemma_expr_kept(c, s, *expr),
        FormulaKind::Forall { vars, guard, body } => {
            lemma_vars_kept(c, push_scope(s), vars@);
            let s2 = st_vars(c, push_scope(s), vars@).0;
            lemma_formula_kept(c, s2, *guard);
            lemma_formula_kept(c, st_formula(c, s2, *guard), *body);
            lemma_scoped_kept(s, s2, st_formula(c, st_formula(c, s2, *guard), *body));
        },
        FormulaKind::Forex { vars, guard, body } => {
            lemma_vars_kept(c, push_scope(s), vars@);
            let s2 = st_vars(c, push_scope(s), vars@).0;
            lemma_formula_kept(c, s2, *guard);
            lemma_formula_kept(c, st_formula(c, s2, *guard), *body);
            lemma_scoped_kept(s, s2, st_formula(c, st_formula(c, s2, *guard), *body));
        },
        FormulaKind::PredicateCall { name, args } => lemma_exprs_kept(c, s, args@),
        FormulaKind::MemberCall { receiver, args, .. } => {
            lemma_expr_kept(c, s, *receiver);
            lemma_exprs_kept(c, st_expr(c, s, *receiver).0, args@);
        },
        FormulaKind::QualifiedCall { args } => lemma_exprs_kept(c, s, args@),
        FormulaKind::Paren { inner } => lemma_formula_kept(c, s, *inner),
        FormulaKind::ExprFormula(e) => lemma_bridge_kept(c, s, *e),
        _ => {},
    }
}

proof fn lemma_bridge_kept(c: ResolveCtx, s: ResolveState, e: Expr)
    ensures
        adds_only(c, s, st_bridge(c, s, e)),
        st_bridge(c, s, e).next == s.next + count_bridge(e),
        kept(s, st_bridge(c, s, e)),
    decreases e, 3nat,
{
    match e.kind {
        ExprKind::Call { name, args } => lemma_exprs_kept(c, s, args@),
        ExprKind::MemberCall { receiver, args, .. } => {
            lemma_expr_kept(c, s, *receiver);
            lemma_exprs_kept(c, st_expr(c, s, *receiver).0, args@);
        },
        ExprKind::QualifiedCall { args } => lemma_exprs_kept(c, s, args@),
        ExprKind::Variable(u) => {},
        _ => lemma_expr_kept(c, s, e),
    }
}

proof fn lemma_exprs_prefix(c: ResolveCtx, s: ResolveState, es: Seq<Expr>, k: int)
    requires
        0 <= k <= es.len(),
    ensures
        st_exprs(c, s, es.take(k)).next <= st_exprs(c, s, es).next,
    decreases es.len(),
{
    if k < es.len() {
        assert(es.drop_last().take(k) =~= es.take(k));
        lemma_exprs_prefix(c, s, es.drop_last(), k);
        lemma_expr_kept(c, st_exprs(c, s, es.drop_last()), es.last());
    } else {
        assert(es.take(k) =~= es);
    }
}

proof fn lemma_set_prefix(c: ResolveCtx, s: ResolveState, es: Seq<Expr>, k: int)
    requires
        0 <= k <= es.len(),
    ensures
        st_set(c, s, es.take(k)).0.next <= st_set(c, s, es).0.next,
    decreases es.len(),
{
    if k < es.len() {
        assert(es.drop_last().take(k) =~= es.take(k));
        lemma_set_prefix(c, s, es.drop_last(), k);
        lemma_expr_kept(c, st_set(c, s, es.drop_last()).0, es.last());
    } else {
        assert(es.take(k) =~= es);
    }
}

proof fn lemma_orders_prefix(c: ResolveCtx, s: ResolveState, os: Seq<OrderItem>, k: int)
    requires
        0 <= k <= os.len(),
    ensures
        st_orders(c, s, os.take(k)).next <= st_orders(c, s, os).next,
    decreases os.len(),
{
    if k < os.len() {
        assert(os.drop_last().take(k) =~= os.take(k));
        lemma_orders_prefix(c, s, os.drop_last(), k);
        lemma_expr_kept(c, st_orders(c, s, os.drop_last()), os.last().expr);
    } else {
        assert(os.take(k) =~= os);
    }
}



// ---------------------------------------------------------------------------
// Declarations
// ---------------------------------------------------------------------------

/// Resolution of a predicate: its parameters and `result` are variables
/// of a scope in which its body is resolved.
pub open spec fn st_predicate(c: ResolveCtx, s: ResolveState, p: Predicate) -> ResolveState {
    let s2 = st_vars(c, push_scope(s), p.head.params@).0;
    pop_scope(st_pred_rest(c, s2, p))
}

/// The `result` variable and the body of a predicate, after its
/// parameters.
pub open spec fn st_pred_rest(c: ResolveCtx, s: ResolveState, p: Predicate) -> ResolveState {
    let s3 = match p.head.result_type {
        Some(te) => {
            let (sa, t) = st_type(c, s, te);
            define(c, sa, "result"@, t).0
        },
        None => s,
    };
    match p.body {
        Some(b) => st_formula(c, s3, b),
        None => s3,
    }
}

/// The fields of a class with their resolved types, in order.
pub open spec fn st_fields(c: ResolveCtx, s: ResolveState, ms: Seq<ClassMember>) -> (ResolveState, Seq<(Seq<char>, TypeV)>)
    decreases ms.len(),
{
    if ms.len() == 0 {
        (s, Seq::empty())
    } else {
        let (s0, fs) = st_fields(c, s, ms.drop_last());
        match ms.last() {
            ClassMember::Field { ty, name, .. } => {
                let (s1, t) = st_type(c, s0, ty);
                (s1, fs.push((name.name@, t)))
            },
            _ => (s0, fs),
        }
    }
}

/// Declares variables with given names and types, in order.
pub open spec fn define_all(c: ResolveCtx, s: ResolveState, fs: Seq<(Seq<char>, TypeV)>) -> ResolveState
    decreases fs.len(),
{
    if fs.len() == 0 {
        s
    } else {
        define(c, define_all(c, s, fs.drop_last()), fs.last().0, fs.last().1).0
    }
}

/// Entering a member of a class: a scope, the class context, `this` and
/// the class's fields.
pub open spec fn enter_class(c: ResolveCtx, s: ResolveState, ct: TypeV, fs: Seq<(Seq<char>, TypeV)>) -> ResolveState {
    let s1 = ResolveState { in_class: true, ..push_scope(s) };
    define_all(c, define(c, s1, "this"@, ct).0, fs)
}

/// Leaving a member of a class.
pub open spec fn leave_class(s: ResolveState) -> ResolveState {
    pop_scope(ResolveState { in_class: false, ..s })
}

/// Resolution of a class member.
pub open spec fn st_class_member(
    c: ResolveCtx,
    s: ResolveState,
    ct: TypeV,
    fs: Seq<(Seq<char>, TypeV)>,
    m: ClassMember,
) -> ResolveState {
    match m {
        ClassMember::CharacteristicPredicate { body, .. } => leave_class(st_formula(c, enter_class(c, s, ct, fs), body)),
        ClassMember::MemberPredicate(p) => {
            let s2 = st_vars(c, enter_class(c, s, ct, fs), p.head.params@).0;
            leave_class(st_pred_rest(c, s2, p))
        },
        ClassMember::Field { .. } => s,
    }
}

/// Resolution of class members in order.
pub open spec fn st_class_members(
    c: ResolveCtx,
    s: ResolveState,
    ct: TypeV,
    fs: Seq<(Seq<char>, TypeV)>,
    ms: Seq<ClassMember>,
) -> ResolveState
    decreases ms.len(),
{
    if ms.len() == 0 {
        s
    } else {
        st_class_member(c, st_class_members(c, s, ct, fs, ms.drop_last()), ct, fs, ms.last())
    }
}

/// The type of the class of this name (the error type if it is unbound).
pub open spec fn class_type(c: ResolveCtx, s: ResolveState, name: Seq<char>) -> TypeV {
    match find_type(c, s, name) {
        Some(d) => TypeV::Class(d),
        None => TypeV::Error,
    }
}

/// Resolution of a class: its supertypes, then each member with `this`
/// and the fields in scope.
pub open spec fn st_class(c: ResolveCtx, s: ResolveState, cl: ClassDecl) -> ResolveState {
    let s2 = st_types(c, st_types(c, s, cl.supertypes@), cl.instanceof@);
    let ct = class_type(c, s2, cl.name.name@);
    let (s3, fs) = st_fields(c, s2, cl.members@);
    st_class_members(c, s3, ct, fs, cl.members@)
}

/// The `from` variables of a query: declared, and their names resolved to
/// them.
pub open spec fn st_from(c: ResolveCtx, s: ResolveState, vs: Seq<VarDecl>) -> ResolveState
    decreases vs.len(),
{
    if vs.len() == 0 {
        s
    } else {
        let s0 = st_from(c, s, vs.drop_last());
        let (s1, t) = st_type(c, s0, vs.last().ty);
        let (s2, id) = define(c, s1, vs.last().name.name@, t);
        note_res(s2, vs.last().name.span, id)
    }
}

/// The selected expressions; a label becomes a variable of the type of its
/// expression.
pub open spec fn st_selects(c: ResolveCtx, s: ResolveState, es: Seq<SelectExpr>) -> ResolveState
    decreases es.len(),
{
    if es.len() == 0 {
        s
    } else {
        let s0 = st_selects(c, s, es.drop_last());
        let (s1, t) = st_expr(c, s0, es.last().expr);
        match es.last().label {
            Some(l) => define(c, s1, l@, t).0,
            None => s1,
        }
    }
}

/// Resolution of a query, in a scope of its own.
pub open spec fn st_select(c: ResolveCtx, s: ResolveState, sel: Select) -> ResolveState {
    let s2 = st_from(c, push_scope(s), sel.from@);
    let s3 = match sel.where_clause {
        Some(w) => st_formula(c, s2, w),
        None => s2,
    };
    pop_scope(st_orders(c, st_selects(c, s3, sel.select_exprs@), sel.order_by@))
}

/// Resolution of newtype branches: a branch with a body gets a scope with
/// its parameters.
pub open spec fn st_branches(c: ResolveCtx, s: ResolveState, bs: Seq<NewtypeBranch>) -> ResolveState
    decreases bs.len(),
{
    if bs.len() == 0 {
        s
    } else {
        let s0 = st_branches(c, s, bs.drop_last());
        match bs.last().body {
            Some(b) => pop_scope(st_formula(c, st_vars(c, push_scope(s0), bs.last().params@).0, b)),
            None => s0,
        }
    }
}

/// Brings module type parameters into scope, each with a new declaration.
pub open spec fn st_tparams(c: ResolveCtx, s: ResolveState, ps: Seq<TypeParam>) -> ResolveState
    decreases ps.len(),
{
    if ps.len() == 0 {
        s
    } else {
        let (s1, id) = fresh(c, st_tparams(c, s, ps.drop_last()));
        ResolveState { tparams: s1.tparams.push((ps.last().name.name, id)), ..s1 }
    }
}

/// Resolution of a module member.
pub open spec fn st_member(c: ResolveCtx, s: ResolveState, m: ModuleMember) -> ResolveState
    decreases m, 0nat,
{
    match m {
        ModuleMember::Predicate(p) => st_predicate(c, s, p),
        ModuleMember::Class(cl) => st_class(c, s, cl),
        ModuleMember::Select(sel) => st_select(c, s, sel),
        ModuleMember::Module(md) => if md.type_params@.len() > 0 {
            let s1 = st_tparams(c, s, md.type_params@);
            let s3 = st_members(c, ResolveState { in_param: s1.in_param + 1, ..s1 }, md.members@);
            ResolveState { tparams: s.tparams, in_param: s3.in_param - 1, ..s3 }
        } else {
            st_members(c, s, md.members@)
        },
        ModuleMember::Newtype(nt) => st_branches(c, s, nt.branches@),
        _ => s,
    }
}

/// Resolution of module members in order.
pub open spec fn st_members(c: ResolveCtx, s: ResolveState, ms: Seq<ModuleMember>) -> ResolveState
    decreases ms, 0nat,
{
    if ms.len() == 0 {
        s
    } else {
        st_member(c, st_members(c, s, ms.drop_last()), ms.last())
    }
}

// Declarations only add to what resolution numbers, and leave the depth of
// parameterized modules as it was.

pub open spec fn grows(s: ResolveState, t: ResolveState) -> bool {
    t.next >= s.next && t.in_param == s.in_param
}

proof fn lemma_define_all_grows(c: ResolveCtx, s: ResolveState, fs: Seq<(Seq<char>, TypeV)>)
    ensures
        adds_only(c, s, define_all(c, s, fs)),
        grows(s, define_all(c, s, fs)),
        define_all(c, s, fs).next == s.next + fs.len(),
        s.frames.len() > 0 ==> define_all(c, s, fs).frames.len() == s.frames.len(),
    decreases fs.len(),
{
    if fs.len() > 0 {
        lemma_define_all_grows(c, s, fs.drop_last());
    }
}

proof fn lemma_define_all_prefix(c: ResolveCtx, s: ResolveState, fs: Seq<(Seq<char>, TypeV)>, k: int)
    requires
        0 <= k <= fs.len(),
    ensures
        define_all(c, s, fs.take(k)).next <= define_all(c, s, fs).next,
{
    lemma_define_all_grows(c, s, fs.take(k));
    lemma_define_all_grows(c, s, fs);
}

proof fn lemma_fields_grows(c: ResolveCtx, s: ResolveState, ms: Seq<ClassMember>)
    ensures
        adds_only(c, s, st_fields(c, s, ms).0),
        st_fields(c, s, ms).1.len() == count_fields(ms),
        st_fields(c, s, ms).0.next == s.next,
        st_fields(c, s, ms).0.in_param == s.in_param,
    decreases ms.len(),
{
    if ms.len() > 0 {
        lemma_fields_grows(c, s, ms.drop_last());
    }
}

proof fn lemma_pred_rest_grows(c: ResolveCtx, s: ResolveState, p: Predicate)
    requires
        s.frames.len() > 0,
    ensures
        adds_only(c, s, st_pred_rest(c, s, p)),
        st_pred_rest(c, s, p).next == s.next + count_pred_rest(p),
        grows(s, st_pred_rest(c, s, p)),
        st_pred_rest(c, s, p).frames.len() == s.frames.len(),
{
    let s3 = match p.head.result_type {
        Some(te) => {
            let (sa, t) = st_type(c, s, te);
            define(c, sa, "result"@, t).0
        },
        None => s,
    };
    match p.body {
        Some(b) => lemma_formula_kept(c, s3, b),
        None => {},
    }
}

proof fn lemma_enter_class_grows(c: ResolveCtx, s: ResolveState, ct: TypeV, fs: Seq<(Seq<char>, TypeV)>)
    ensures
        adds_only(c, s, enter_class(c, s, ct, fs)),
        enter_class(c, s, ct, fs).next == s.next + 1 + fs.len(),
        grows(s, enter_class(c, s, ct, fs)),
        enter_class(c, s, ct, fs).frames.len() == s.frames.len() + 1,
{
    let s1 = ResolveState { in_class: true, ..push_scope(s) };
    lemma_define_all_grows(c, define(c, s1, "this"@, ct).0, fs);
}

proof fn lemma_class_member_grows(c: ResolveCtx, s: ResolveState, ct: TypeV, fs: Seq<(Seq<char>, TypeV)>, m: ClassMember)
    ensures
        adds_only(c, s, st_class_member(c, s, ct, fs, m)),
        st_class_member(c, s, ct, fs, m).next == s.next + count_class_member(fs.len() as int, m),
        grows(s, st_class_member(c, s, ct, fs, m)),
{
    lemma_enter_class_grows(c, s, ct, fs);
    let e = enter_class(c, s, ct, fs);
    match m {
        ClassMember::CharacteristicPredicate { body, .. } => lemma_formula_kept(c, e, body),
        ClassMember::MemberPredicate(p) => {
            lemma_vars_kept(c, e, p.head.params@);
            lemma_pred_rest_grows(c, st_vars(c, e, p.head.params@).0, p);
        },
        _ => {},
    }
}

proof fn lemma_class_members_grows(c: ResolveCtx, s: ResolveState, ct: TypeV, fs: Seq<(Seq<char>, TypeV)>, ms: Seq<ClassMember>)
    ensures
        adds_only(c, s, st_class_members(c, s, ct, fs, ms)),
        st_class_members(c, s, ct, fs, ms).next == s.next + count_class_members(fs.len() as int, ms),
        grows(s, st_class_members(c, s, ct, fs, ms)),
    decreases ms.len(),
{
    if ms.len() > 0 {
        lemma_class_members_grows(c, s, ct, fs, ms.drop_last());
        lemma_class_member_grows(c, st_class_members(c, s, ct, fs, ms.drop_last()), ct, fs, ms.last());
    }
}

proof fn lemma_class_members_prefix(c: ResolveCtx, s: ResolveState, ct: TypeV, fs: Seq<(Seq<char>, TypeV)>, ms: Seq<ClassMember>, k: int)
    requires
        0 <= k <= ms.len(),
    ensures
        st_class_members(c, s, ct, fs, ms.take(k)).next <= st_class_members(c, s, ct, fs, ms).next,
    decreases ms.len(),
{
    if k < ms.len() {
        assert(ms.drop_last().take(k) =~= ms.take(k));
        lemma_class_members_prefix(c, s, ct, fs, ms.drop_last(), k);
        lemma_class_member_grows(c, st_class_members(c, s, ct, fs, ms.drop_last()), ct, fs, ms.last());
    } else {
        assert(ms.take(k) =~= ms);
    }
}

proof fn lemma_class_grows(c: ResolveCtx, s: ResolveState, cl: ClassDecl)
    ensures
        adds_only(c, s, st_class(c, s, cl)),
        st_class(c, s, cl).next == s.next + count_class_members(count_fields(cl.members@), cl.members@),
        grows(s, st_class(c, s, cl)),
{
    lemma_types_kept(c, s, cl.supertypes@);
    let s1 = st_types(c, s, cl.supertypes@);
    lemma_types_kept(c, s1, cl.instanceof@);
    let s2 = st_types(c, s1, cl.instanceof@);
    lemma_fields_grows(c, s2, cl.members@);
    let ct = class_type(c, s2, cl.name.name@);
    let (s3, fs) = st_fields(c, s2, cl.members@);
    lemma_class_members_grows(c, s3, ct, fs, cl.members@);
}

proof fn lemma_from_grows(c: ResolveCtx, s: ResolveState, vs: Seq<VarDecl>)
    ensures
        adds_only(c, s, st_from(c, s, vs)),
        st_from(c, s, vs).next == s.next + vs.len(),
        grows(s, st_from(c, s, vs)),
        s.frames.len() > 0 ==> st_from(c, s, vs).frames.len() == s.frames.len(),
    decreases vs.len(),
{
    if vs.len() > 0 {
        lemma_from_grows(c, s, vs.drop_last());
    }
}

proof fn lemma_from_prefix(c: ResolveCtx, s: ResolveState, vs: Seq<VarDecl>, k: int)
    requires
        0 <= k <= vs.len(),
    ensures
        st_from(c, s, vs.take(k)).next <= st_from(c, s, vs).next,
    decreases vs.len(),
{
    if k < vs.len() {
        assert(vs.drop_last().take(k) =~= vs.take(k));
        lemma_from_prefix(c, s, vs.drop_last(), k);
    } else {
        assert(vs.take(k) =~= vs);
    }
}

proof fn lemma_selects_grows(c: ResolveCtx, s: ResolveState, es: Seq<SelectExpr>)
    ensures
        adds_only(c, s, st_selects(c, s, es)),
        st_selects(c, s, es).next == s.next + count_selects(es),
        grows(s, st_selects(c, s, es)),
    decreases es.len(),
{
    if es.len() > 0 {
        lemma_selects_grows(c, s, es.drop_last());
        lemma_expr_kept(c, st_selects(c, s, es.drop_last()), es.last().expr);
    }
}

proof fn lemma_selects_prefix(c: ResolveCtx, s: ResolveState, es: Seq<SelectExpr>, k: int)
    requires
        0 <= k <= es.len(),
    ensures
        st_selects(c, s, es.take(k)).next <= st_selects(c, s, es).next,
    decreases es.len(),
{
    if k < es.len() {
        assert(es.drop_last().take(k) =~= es.take(k));
        lemma_selects_prefix(c, s, es.drop_last(), k);
        lemma_expr_kept(c, st_selects(c, s, es.drop_last()), es.last().expr);
    } else {
        assert(es.take(k) =~= es);
    }
}

proof fn lemma_select_grows(c: ResolveCtx, s: ResolveState, sel: Select)
    ensures
        adds_only(c, s, st_select(c, s, sel)),
        st_select(c, s, sel).next == s.next + count_select(sel),
        grows(s, st_select(c, s, sel)),
{
    lemma_from_grows(c, push_scope(s), sel.from@);
    let s2 = st_from(c, push_scope(s), sel.from@);
    let s3 = match sel.where_clause {
        Some(w) => st_formula(c, s2, w),
        None => s2,
    };
    match sel.where_clause {
        Some(w) => lemma_formula_kept(c, s2, w),
        None => {},
    }
    lemma_selects_grows(c, s3, sel.select_exprs@);
    lemma_orders_kept(c, st_selects(c, s3, sel.select_exprs@), sel.order_by@);
}

proof fn lemma_branch_grows(c: ResolveCtx, s: ResolveState, b: NewtypeBranch)
    ensures
        adds_only(c, s, match b.body {
            Some(f) => pop_scope(st_formula(c, st_vars(c, push_scope(s), b.params@).0, f)),
            None => s,
        }),
        (match b.body {
            Some(f) => pop_scope(st_formula(c, st_vars(c, push_scope(s), b.params@).0, f)),
            None => s,
        }).next == s.next + match b.body {
            Some(f) => b.params@.len() + count_formula(f),
            None => 0,
        },
        grows(s, match b.body {
            Some(f) => pop_scope(st_formula(c, st_vars(c, push_scope(s), b.params@).0, f)),
            None => s,
        }),
{
    match b.body {
        Some(f) => {
            lemma_vars_kept(c, push_scope(s), b.params@);
            lemma_formula_kept(c, st_vars(c, push_scope(s), b.params@).0, f);
        },
        None => {},
    }
}

proof fn lemma_branches_grows(c: ResolveCtx, s: ResolveState, bs: Seq<NewtypeBranch>)
    ensures
        adds_only(c, s, st_branches(c, s, bs)),
        st_branches(c, s, bs).next == s.next + count_branches(bs),
        grows(s, st_branches(c, s, bs)),
    decreases bs.len(),
{
    if bs.len() > 0 {
        lemma_branches_grows(c, s, bs.drop_last());
        lemma_branch_grows(c, st_branches(c, s, bs.drop_last()), bs.last());
    }
}

proof fn lemma_branches_prefix(c: ResolveCtx, s: ResolveState, bs: Seq<NewtypeBranch>, k: int)
    requires
        0 <= k <= bs.len(),
    ensures
        st_branches(c, s, bs.take(k)).next <= st_branches(c, s, bs).next,
    decreases bs.len(),
{
    if k < bs.len() {
        assert(bs.drop_last().take(k) =~= bs.take(k));
        lemma_branches_prefix(c, s, bs.drop_last(), k);
        lemma_branch_grows(c, st_branches(c, s, bs.drop_last()), bs.last());
    } else {
        assert(bs.take(k) =~= bs);
    }
}

proof fn lemma_tparams_grows(c: ResolveCtx, s: ResolveState, ps: Seq<TypeParam>)
    ensures
        adds_only(c, s, st_tparams(c, s, ps)),
        grows(s, st_tparams(c, s, ps)),
        st_tparams(c, s, ps).next == s.next + ps.len(),
    decreases ps.len(),
{
    if ps.len() > 0 {
        lemma_tparams_grows(c, s, ps.drop_last());
    }
}

proof fn lemma_predicate_grows(c: ResolveCtx, s: ResolveState, p: Predicate)
    ensures
        adds_only(c, s, st_predicate(c, s, p)),
        st_predicate(c, s, p).next == s.next + p.head.params@.len() + count_pred_rest(p),
        grows(s, st_predicate(c, s, p)),
{
    lemma_vars_kept(c, push_scope(s), p.head.params@);
    lemma_pred_rest_grows(c, st_vars(c, push_scope(s), p.head.params@).0, p);
}

proof fn lemma_member_grows(c: ResolveCtx, s: ResolveState, m: ModuleMember)
    ensures
        adds_only(c, s, st_member(c, s, m)),
        st_member(c, s, m).next == s.next + count_member(m),
        grows(s, st_member(c, s, m)),
    decreases m, 0nat,
{
    match m {
        ModuleMember::Predicate(p) => lemma_predicate_grows(c, s, p),
        ModuleMember::Class(cl) => lemma_class_grows(c, s, cl),
        ModuleMember::Select(sel) => lemma_select_grows(c, s, sel),
        ModuleMember::Module(md) => if md.type_params@.len() > 0 {
            lemma_tparams_grows(c, s, md.type_params@);
            let s1 = st_tparams(c, s, md.type_params@);
            lemma_members_grows(c, ResolveState { in_param: s1.in_param + 1, ..s1 }, md.members@);
        } else {
            lemma_members_grows(c, s, md.members@);
        },
        ModuleMember::Newtype(nt) => lemma_branches_grows(c, s, nt.branches@),
        _ => {},
    }
}

/// Resolving module members keeps what was produced and adds only errors
/// of the file; it leaves the depth of parameterized modules as it was;
/// and it numbers exactly `count_members(ms)` new declarations, whatever
/// the namespaces.
pub proof fn lemma_members_grows(c: ResolveCtx, s: ResolveState, ms: Seq<ModuleMember>)
    ensures
        adds_only(c, s, st_members(c, s, ms)),
        st_members(c, s, ms).next == s.next + count_members(ms),
        grows(s, st_members(c, s, ms)),
    decreases ms, 0nat,
{
    if ms.len() > 0 {
        lemma_members_grows(c, s, ms.drop_last());
        lemma_member_grows(c, st_members(c, s, ms.drop_last()), ms.last());
    }
}

/// Resolution numbers no negative count of declarations.
pub proof fn lemma_count_members_nonneg(ms: Seq<ModuleMember>)
    ensures
        count_members(ms) >= 0,
{
    let c: ResolveCtx = vstd::pervasive::arbitrary();
    let s: ResolveState = vstd::pervasive::arbitrary();
    lemma_members_grows(c, s, ms);
}

proof fn lemma_members_prefix(c: ResolveCtx, s: ResolveState, ms: Seq<ModuleMember>, k: int)
    requires
        0 <= k <= ms.len(),
    ensures
        st_members(c, s, ms.take(k)).next <= st_members(c, s, ms).next,
    decreases ms.len(),
{
    if k < ms.len() {
        assert(ms.drop_last().take(k) =~= ms.take(k));
        lemma_members_prefix(c, s, ms.drop_last(), k);
        lemma_member_grows(c, st_members(c, s, ms.drop_last()), ms.last());
    } else {
        assert(ms.take(k) =~= ms);
    }
}

// ---------------------------------------------------------------------------
// The resolver
// ---------------------------------------------------------------------------

/// Resolves names and checks types in one file.
pub struct NameResolver<'a> {
    file_id: FileId,
    /// The file's own, the imported, the builtin and the project-wide
    /// namespaces, searched in that order.
    chain: Vec<&'a ModuleNamespaces>,
    /// Every file's exported namespaces (for `Module::Type`).
    exported_ns: &'a Vec<(FileId, ModuleNamespaces)>,
    /// The alias entries of the file's own, the imported and the
    /// project-wide namespaces, in that order.
    aliases: Vec<(DefId, Type)>,
    scopes: ScopeStack,
    /// Inside a member or characteristic predicate: an unresolved name may
    /// be an inherited field, so it is not reported.
    in_class_context: bool,
    /// Module type parameters in scope; a later entry of a name wins.
    module_type_params: Vec<(String, DefId)>,
    /// How deep inside parameterized modules; there unresolved predicates
    /// and types may come from the module's parameters.
    in_parameterized_module: u32,
    pub name_resolutions: Vec<(Span, ResolvedRef)>,
    pub expr_types: Vec<(Span, Type)>,
    pub diagnostics: Vec<Diagnostic>,
}

/// The exported types of each file.
pub open spec fn exported_views(ex: Seq<(FileId, ModuleNamespaces)>) -> Seq<(FileId, Map<Seq<char>, DefId>)> {
    ex.map_values(|e: (FileId, ModuleNamespaces)| (e.0, e.1.types()))
}

/// A message made of a text, a name and a text.
fn msg3(a: &str, n: &str, b: &str) -> (r: String)
    ensures
        r@ == a@ + n@ + b@,
{
    let mut r = copy_str(a);
    r.append(n);
    r.append(b);
    r
}

impl<'a> NameResolver<'a> {
    /// What resolution does not change.
    pub closed spec fn ctx(&self) -> ResolveCtx {
        ResolveCtx {
            file: self.file_id,
            chain: chain_views(self.chain@),
            exported: exported_views(self.exported_ns@),
            aliases: alias_view(self.aliases@),
        }
    }

    /// The state of resolution.
    pub closed spec fn state(&self) -> ResolveState {
        ResolveState {
            frames: self.scopes.frames(),
            next: self.scopes.next_local() as int,
            tparams: self.module_type_params@,
            in_param: self.in_parameterized_module as int,
            in_class: self.in_class_context,
            res: self.name_resolutions@,
            tys: self.expr_types@.map_values(|p: (Span, Type)| (p.0, p.1@)),
            diags: self.diagnostics@.map_values(|d: Diagnostic| diag_view(d)),
        }
    }

    /// The scopes number declarations of the resolver's file.
    pub closed spec fn inv(&self) -> bool {
        self.scopes.file() == self.file_id
    }

    /// A resolver for file `file_id` over these namespaces, numbering new
    /// declarations from `next_local_id`.
    pub fn new(
        file_id: FileId,
        local_ns: &'a ModuleNamespaces,
        imported_ns: &'a ModuleNamespaces,
        builtin_ns: &'a ModuleNamespaces,
        project_ns: &'a ModuleNamespaces,
        exported_ns: &'a Vec<(FileId, ModuleNamespaces)>,
        next_local_id: u32,
    ) -> (r: NameResolver<'a>)
        ensures
            r.inv(),
            r.ctx() == (ResolveCtx {
                file: file_id,
                chain: seq![ns_view(*local_ns), ns_view(*imported_ns), ns_view(*builtin_ns), ns_view(*project_ns)],
                exported: exported_views(exported_ns@),
                aliases: local_ns.type_aliases() + imported_ns.type_aliases() + project_ns.type_aliases(),
            }),
            r.state() == (ResolveState {
                frames: Seq::empty(),
                next: next_local_id as int,
                tparams: Seq::empty(),
                in_param: 0,
                in_class: false,
                res: Seq::empty(),
                tys: Seq::empty(),
                diags: Seq::empty(),
            }),
    {
        let mut chain: Vec<&'a ModuleNamespaces> = Vec::new();
        chain.push(local_ns);
        chain.push(imported_ns);
        chain.push(builtin_ns);
        chain.push(project_ns);
        let mut aliases = local_ns.alias_entries();
        let mut more = imported_ns.alias_entries();
        let ghost a0 = aliases@;
        let ghost a1 = more@;
        aliases.append(&mut more);
        let mut last = project_ns.alias_entries();
        let ghost a2 = last@;
        aliases.append(&mut last);
        assert(aliases@ == a0 + a1 + a2);
        assert(alias_view(a0 + a1 + a2) =~= alias_view(a0) + alias_view(a1) + alias_view(a2));
        let r = NameResolver {
            file_id,
            chain,
            exported_ns,
            aliases,
            scopes: ScopeStack::new(file_id, next_local_id),
            in_class_context: false,
            module_type_params: Vec::new(),
            in_parameterized_module: 0,
            name_resolutions: Vec::new(),
            expr_types: Vec::new(),
            diagnostics: Vec::new(),
        };
        assert(r.chain@ =~= seq![local_ns, imported_ns, builtin_ns, project_ns]);
        assert(chain_views(r.chain@) =~= seq![ns_view(*local_ns), ns_view(*imported_ns), ns_view(*builtin_ns), ns_view(*project_ns)]);
        assert(r.state().tys =~= Seq::<(Span, TypeV)>::empty());
        assert(r.state().diags =~= Seq::<DiagV>::empty());
        r
    }

    /// A resolver over a collector's namespaces and empty others,
    /// numbering after the collector's declarations.
    pub fn new_single_file(
        file_id: FileId,
        collector: &'a crate::collect::DeclarationCollector,
        empty1: &'a ModuleNamespaces,
        empty2: &'a ModuleNamespaces,
        empty_project: &'a ModuleNamespaces,
        empty_exported: &'a Vec<(FileId, ModuleNamespaces)>,
    ) -> (r: NameResolver<'a>)
        ensures
            r.inv(),
            r.ctx() == (ResolveCtx {
                file: file_id,
                chain: seq![ns_view(collector.ns()), ns_view(*empty1), ns_view(*empty2), ns_view(*empty_project)],
                exported: exported_views(empty_exported@),
                aliases: collector.ns().type_aliases() + empty1.type_aliases() + empty_project.type_aliases(),
            }),
            r.state() == (ResolveState {
                frames: Seq::empty(),
                next: collector.state().next,
                tparams: Seq::empty(),
                in_param: 0,
                in_class: false,
                res: Seq::empty(),
                tys: Seq::empty(),
                diags: Seq::empty(),
            }),
    {
        let n = collector.next_local_id();
        NameResolver::new(file_id, collector.namespaces(), empty1, empty2, empty_project, empty_exported, n)
    }

    /// The next local number and the depth are machine integers.
    pub proof fn lemma_state_bounds(&self)
        ensures
            0 <= self.state().next <= u32::MAX,
            0 <= self.state().in_param <= u32::MAX,
    {
    }

    /// What resolution produced: the name resolutions, the expression
    /// types and the diagnostics.
    pub fn take_results(self) -> (r: (Vec<(Span, ResolvedRef)>, Vec<(Span, Type)>, Vec<Diagnostic>))
        ensures
            r.0@ == self.state().res,
            r.1@.map_values(|p: (Span, Type)| (p.0, p.1@)) == self.state().tys,
            r.2@.map_values(|d: Diagnostic| diag_view(d)) == self.state().diags,
    {
        (self.name_resolutions, self.expr_types, self.diagnostics)
    }

    // -- recording --

    fn error(&mut self, span: Span, msg: String)
        ensures
            final(self).state() == err(old(self).ctx(), old(self).state(), span, msg@),
            final(self).ctx() == old(self).ctx(),
            final(self).inv() == old(self).inv(),
    {
        let d = Diagnostic { severity: Severity::Error, message: msg, span, file: self.file_id, notes: Vec::new() };
        let ghost before = self.diagnostics@;
        self.diagnostics.push(d);
        assert(self.diagnostics@.map_values(|d: Diagnostic| diag_view(d)) =~= before.map_values(
            |d: Diagnostic| diag_view(d),
        ).push((Severity::Error, msg@, span, self.file_id, 0)));
    }

    fn note(&mut self, span: Span, id: DefId)
        ensures
            final(self).state() == note_res(old(self).state(), span, id),
            final(self).ctx() == old(self).ctx(),
            final(self).inv() == old(self).inv(),
    {
        self.name_resolutions.push((span, ResolvedRef::Def(id)));
    }

    fn record_type(&mut self, span: Span, t: &Type)
        ensures
            final(self).state() == (ResolveState { tys: old(self).state().tys.push((span, t@)), ..old(self).state() }),
            final(self).ctx() == old(self).ctx(),
            final(self).inv() == old(self).inv(),
    {
        let ghost before = self.expr_types@;
        self.expr_types.push((span, t.copy()));
        assert(self.expr_types@.map_values(|p: (Span, Type)| (p.0, p.1@)) =~= before.map_values(
            |p: (Span, Type)| (p.0, p.1@),
        ).push((span, t@)));
    }

    fn push_scope(&mut self)
        ensures
            final(self).state() == push_scope(old(self).state()),
            final(self).ctx() == old(self).ctx(),
            final(self).inv() == old(self).inv(),
    {
        self.scopes.push_scope();
    }

    fn pop_scope(&mut self)
        ensures
            final(self).state() == pop_scope(old(self).state()),
            final(self).ctx() == old(self).ctx(),
            final(self).inv() == old(self).inv(),
    {
        self.scopes.pop_scope();
    }

    fn define_var(&mut self, name: &str, ty: Type) -> (id: DefId)
        requires
            old(self).inv(),
            old(self).state().next < u32::MAX,
        ensures
            (final(self).state(), id) == define(old(self).ctx(), old(self).state(), name@, ty@),
            final(self).ctx() == old(self).ctx(),
            final(self).inv(),
    {
        self.scopes.define_var(name, ty)
    }

    fn fresh_def(&mut self) -> (id: DefId)
        requires
            old(self).inv(),
            old(self).state().next < u32::MAX,
        ensures
            (final(self).state(), id) == fresh(old(self).ctx(), old(self).state()),
            final(self).ctx() == old(self).ctx(),
            final(self).inv(),
    {
        self.scopes.fresh_def()
    }

    // -- lookups --

    fn find_type(&self, name: &str) -> (r: Option<DefId>)
        ensures
            r == find_type(self.ctx(), self.state(), name@),
    {
        proof { lemma_chain_views(self.chain@, name@, 0); }
        match find_named(&self.module_type_params, name) {
            Some(d) => Some(d),
            None => lookup_type(&self.chain, name),
        }
    }

    fn exported_type(&self, f: FileId, name: &str) -> (r: Option<DefId>)
        ensures
            match exported_of(self.ctx().exported, f) {
                Some(tys) => r == (if tys.dom().contains(name@) { Some(tys[name@]) } else { None }),
                None => r is None,
            },
    {
        let ex = self.exported_ns;
        let ghost ev = exported_views(ex@);
        let mut i: usize = 0;
        assert(ev.skip(0) =~= ev);
        while i < ex.len()
            invariant
                i <= ex@.len(),
                ev == exported_views(ex@),
                ev == self.ctx().exported,
                exported_of(ev, f) == exported_of(ev.skip(i as int), f),
            decreases ex@.len() - i,
        {
            assert(ev.skip(i as int).drop_first() =~= ev.skip(i + 1));
            assert(ev.skip(i as int)[0] == ev[i as int]);
            if ex[i].0 == f {
                return ex[i].1.get_type(name);
            }
            i = i + 1;
        }
        None
    }

    // -- types and variables --

    fn resolve_type_expr(&mut self, te: &TypeExpr) -> (r: Type)
        ensures
            (final(self).state(), r@) == st_type(old(self).ctx(), old(self).state(), *te),
            final(self).ctx() == old(self).ctx(),
            final(self).inv() == old(self).inv(),
    {
        match &te.kind {
            TypeExprKind::Primitive(p) => Type::Primitive(*p),
            TypeExprKind::Database(name) => Type::DbEntity(name.clone()),
            TypeExprKind::ClassName(upper) => match self.find_type(upper.name.as_str()) {
                Some(d) => {
                    self.note(upper.span, d);
                    Type::Class(d)
                },
                None => {
                    if self.in_parameterized_module == 0 {
                        let m = msg3("undefined type `", upper.name.as_str(), "`");
                        self.error(upper.span, m);
                    }
                    Type::Error
                },
            },
            TypeExprKind::ModuleAccess(module, ty_name) => {
                proof { lemma_chain_views(self.chain@, module.name@, 0); }
                match lookup_module(&self.chain, module.name.as_str()) {
                    Some(md) => {
                        self.note(module.span, md);
                        match self.exported_type(md.file, ty_name.name.as_str()) {
                            Some(td) => {
                                self.note(ty_name.span, td);
                                Type::Class(td)
                            },
                            None => Type::Error,
                        }
                    },
                    None => Type::Error,
                }
            },
        }
    }

    fn resolve_types(&mut self, ts: &Vec<TypeExpr>)
        ensures
            final(self).state() == st_types(old(self).ctx(), old(self).state(), ts@),
            final(self).ctx() == old(self).ctx(),
            final(self).inv() == old(self).inv(),
    {
        let ghost s0 = self.state();
        let ghost c = self.ctx();
        let ghost v = self.inv();
        let mut i: usize = 0;
        assert(ts@.take(0) =~= Seq::<TypeExpr>::empty());
        while i < ts.len()
            invariant
                i <= ts@.len(),
                self.ctx() == c,
                self.inv() == v,
                self.state() == st_types(c, s0, ts@.take(i as int)),
            decreases ts@.len() - i,
        {
            assert(ts@.take(i + 1).drop_last() =~= ts@.take(i as int));
            assert(ts@.take(i + 1).last() == ts@[i as int]);
            self.resolve_type_expr(&ts[i]);
            i = i + 1;
        }
        assert(ts@.take(i as int) =~= ts@);
    }

    /// Declares variables in order; gives the type of the last one.
    fn resolve_vars(&mut self, vs: &Vec<VarDecl>) -> (r: Type)
        requires
            old(self).inv(),
            st_vars(old(self).ctx(), old(self).state(), vs@).0.next <= u32::MAX,
        ensures
            (final(self).state(), r@) == st_vars(old(self).ctx(), old(self).state(), vs@),
            final(self).ctx() == old(self).ctx(),
            final(self).inv(),
    {
        let ghost s0 = self.state();
        let ghost c = self.ctx();
        let mut last = Type::Error;
        let mut i: usize = 0;
        assert(vs@.take(0) =~= Seq::<VarDecl>::empty());
        while i < vs.len()
            invariant
                i <= vs@.len(),
                self.ctx() == c,
                self.inv(),
                (self.state(), last@) == st_vars(c, s0, vs@.take(i as int)),
                st_vars(c, s0, vs@).0.next <= u32::MAX,
            decreases vs@.len() - i,
        {
            proof {
                assert(vs@.take(i + 1).drop_last() =~= vs@.take(i as int));
                assert(vs@.take(i + 1).last() == vs@[i as int]);
                lemma_vars_prefix(c, s0, vs@, i + 1);
                lemma_type_kept(c, self.state(), vs@[i as int].ty);
            }
            let t = self.resolve_type_expr(&vs[i].ty);
            let t2 = t.copy();
            self.define_var(vs[i].name.name.as_str(), t);
            last = t2;
            i = i + 1;
        }
        assert(vs@.take(i as int) =~= vs@);
        last
    }
}

/// `undefined predicate `name` with arity n`.
fn undefined_pred_message(name: &str, arity: usize) -> (r: String)
    ensures
        r@ == undefined_pred_msg(name@, arity as nat),
{
    let mut m = msg3("undefined predicate `", name, "` with arity ");
    push_decimal(&mut m, arity as u64);
    m
}

/// A message naming a type between two texts.
fn msg_type(a: &str, t: &Type, b: &str) -> (r: String)
    ensures
        r@ == a@ + display_name_spec(t@) + b@,
{
    let n = t.display_name();
    msg3(a, n.as_str(), b)
}

impl<'a> NameResolver<'a> {
    // -- predicate calls --

    fn resolve_call_tail(&mut self, name: &str, span: Span, arity: usize)
        ensures
            final(self).state() == pcall_tail(old(self).ctx(), old(self).state(), name@, span, arity),
            final(self).ctx() == old(self).ctx(),
            final(self).inv() == old(self).inv(),
    {
        proof { lemma_chain_views(self.chain@, name@, arity); }
        match lookup_predicate(&self.chain, name, arity) {
            Some(info) => {
                let d = info.def_id;
                self.note(span, d);
            },
            None => {
                if self.in_parameterized_module == 0 {
                    let m = undefined_pred_message(name, arity);
                    self.error(span, m);
                }
            },
        }
    }

    // -- expressions --

    fn resolve_expr(&mut self, e: &Expr) -> (r: Type)
        requires
            old(self).inv(),
            st_expr(old(self).ctx(), old(self).state(), *e).0.next <= u32::MAX,
        ensures
            (final(self).state(), r@) == st_expr(old(self).ctx(), old(self).state(), *e),
            final(self).ctx() == old(self).ctx(),
            final(self).inv(),
        decreases *e, 3nat,
    {
        let t = self.resolve_expr_inner(e);
        self.record_type(e.span, &t);
        t
    }

    fn resolve_exprs(&mut self, es: &Vec<Expr>)
        requires
            old(self).inv(),
            st_exprs(old(self).ctx(), old(self).state(), es@).next <= u32::MAX,
        ensures
            final(self).state() == st_exprs(old(self).ctx(), old(self).state(), es@),
            final(self).ctx() == old(self).ctx(),
            final(self).inv(),
        decreases *es, 0nat,
    {
        let ghost s0 = self.state();
        let ghost c = self.ctx();
        let mut i: usize = 0;
        assert(es@.take(0) =~= Seq::<Expr>::empty());
        while i < es.len()
            invariant
                i <= es@.len(),
                self.ctx() == c,
                self.inv(),
                self.state() == st_exprs(c, s0, es@.take(i as int)),
                st_exprs(c, s0, es@).next <= u32::MAX,
            decreases es@.len() - i,
        {
            proof {
                assert(es@.take(i + 1).drop_last() =~= es@.take(i as int));
                assert(es@.take(i + 1).last() == es@[i as int]);
                lemma_exprs_prefix(c, s0, es@, i + 1);
            }
            self.resolve_expr(&es[i]);
            i = i + 1;
        }
        assert(es@.take(i as int) =~= es@);
    }

    fn resolve_set(&mut self, es: &Vec<Expr>) -> (r: Type)
        requires
            old(self).inv(),
            st_set(old(self).ctx(), old(self).state(), es@).0.next <= u32::MAX,
        ensures
            (final(self).state(), r@) == st_set(old(self).ctx(), old(self).state(), es@),
            final(self).ctx() == old(self).ctx(),
            final(self).inv(),
        decreases *es, 0nat,
    {
        let ghost s0 = self.state();
        let ghost c = self.ctx();
        let mut result = Type::Error;
        let mut i: usize = 0;
        assert(es@.take(0) =~= Seq::<Expr>::empty());
        while i < es.len()
            invariant
                i <= es@.len(),
                self.ctx() == c,
                self.inv(),
                (self.state(), result@) == st_set(c, s0, es@.take(i as int)),
                st_set(c, s0, es@).0.next <= u32::MAX,
            decreases es@.len() - i,
        {
            proof {
                assert(es@.take(i + 1).drop_last() =~= es@.take(i as int));
                assert(es@.take(i + 1).last() == es@[i as int]);
                lemma_set_prefix(c, s0, es@, i + 1);
            }
            let t = self.resolve_expr(&es[i]);
            if result.is_error() {
                result = t;
            }
            i = i + 1;
        }
        assert(es@.take(i as int) =~= es@);
        result
    }

    fn resolve_orders(&mut self, os: &Vec<OrderItem>)
        requires
            old(self).inv(),
            st_orders(old(self).ctx(), old(self).state(), os@).next <= u32::MAX,
        ensures
            final(self).state() == st_orders(old(self).ctx(), old(self).state(), os@),
            final(self).ctx() == old(self).ctx(),
            final(self).inv(),
        decreases *os, 0nat,
    {
        let ghost s0 = self.state();
        let ghost c = self.ctx();
        let mut i: usize = 0;
        assert(os@.take(0) =~= Seq::<OrderItem>::empty());
        while i < os.len()
            invariant
                i <= os@.len(),
                self.ctx() == c,
                self.inv(),
                self.state() == st_orders(c, s0, os@.take(i as int)),
                st_orders(c, s0, os@).next <= u32::MAX,
            decreases os@.len() - i,
        {
            proof {
                assert(os@.take(i + 1).drop_last() =~= os@.take(i as int));
                assert(os@.take(i + 1).last() == os@[i as int]);
                lemma_orders_prefix(c, s0, os@, i + 1);
            }
            self.resolve_expr(&os[i].expr);
            i = i + 1;
        }
        assert(os@.take(i as int) =~= os@);
    }

    fn resolve_guard(&mut self, g: &Option<Box<Formula>>)
        requires
            old(self).inv(),
            st_guard(old(self).ctx(), old(self).state(), *g).next <= u32::MAX,
        ensures
            final(self).state() == st_guard(old(self).ctx(), old(self).state(), *g),
            final(self).ctx() == old(self).ctx(),
            final(self).inv(),
        decreases *g, 0nat,
    {
        match g {
            Some(f) => self.resolve_formula(f),
            None => {},
        }
    }

    fn resolve_opt_expr(&mut self, e: &Option<Box<Expr>>, absent: Type) -> (r: Type)
        requires
            old(self).inv(),
            st_opt_expr(old(self).ctx(), old(self).state(), *e, absent@).0.next <= u32::MAX,
        ensures
            (final(self).state(), r@) == st_opt_expr(old(self).ctx(), old(self).state(), *e, absent@),
            final(self).ctx() == old(self).ctx(),
            final(self).inv(),
        decreases *e, 0nat,
    {
        match e {
            Some(x) => self.resolve_expr(x),
            None => absent,
        }
    }

    fn resolve_expr_inner(&mut self, e: &Expr) -> (r: Type)
        requires
            old(self).inv(),
            st_inner(old(self).ctx(), old(self).state(), *e).0.next <= u32::MAX,
        ensures
            (final(self).state(), r@) == st_inner(old(self).ctx(), old(self).state(), *e),
            final(self).ctx() == old(self).ctx(),
            final(self).inv(),
        decreases *e, 2nat,
    {
        match &e.kind {
            ExprKind::Literal(lit) => match lit {
                Literal::Int(_) => Type::Primitive(PrimitiveType::Int),
                Literal::Float => Type::Primitive(PrimitiveType::Float),
                Literal::String(_) => Type::Primitive(PrimitiveType::String),
                Literal::Bool(_) => Type::Primitive(PrimitiveType::Boolean),
            },
            ExprKind::Variable(_) => self.resolve_name_expr(e),
            ExprKind::This => self.resolve_name_expr(e),
            ExprKind::Result => self.resolve_name_expr(e),
            ExprKind::DontCare => Type::Error,
            ExprKind::BinaryOp { .. } => self.resolve_operator_expr(e),
            ExprKind::UnaryOp { .. } => self.resolve_operator_expr(e),
            ExprKind::Range { .. } => self.resolve_operator_expr(e),
            ExprKind::Call { .. } => self.resolve_call_expr(e),
            ExprKind::MemberCall { .. } => self.resolve_call_expr(e),
            ExprKind::QualifiedCall { .. } => self.resolve_call_expr(e),
            ExprKind::TypeCall { .. } => self.resolve_call_expr(e),
            ExprKind::Super { .. } => self.resolve_call_expr(e),
            ExprKind::PostfixCast { expr, ty } => {
                proof { lemma_type_kept(self.ctx(), st_expr(self.ctx(), self.state(), **expr).0, *ty); }
                self.resolve_expr(expr);
                self.resolve_type_expr(ty)
            },
            ExprKind::PrefixCast { ty, expr } => {
                proof { lemma_type_kept(self.ctx(), st_expr(self.ctx(), self.state(), **expr).0, *ty); }
                self.resolve_expr(expr);
                self.resolve_type_expr(ty)
            },
            ExprKind::SetLiteral { elements } => self.resolve_set(elements),
            ExprKind::Aggregation { .. } => self.resolve_binder_expr(e),
            ExprKind::RankExpr { .. } => self.resolve_binder_expr(e),
            ExprKind::AnyExpr { .. } => self.resolve_binder_expr(e),
            ExprKind::Paren(inner) => self.resolve_expr(inner),
            ExprKind::FormulaExpr(f) => {
                self.resolve_formula(f);
                Type::Primitive(PrimitiveType::Boolean)
            },
        }
    }

    /// Variables, `this` and `result`.
    fn resolve_name_expr(&mut self, e: &Expr) -> (r: Type)
        requires
            e.kind is Variable || e.kind is This || e.kind is Result,
        ensures
            (final(self).state(), r@) == st_inner(old(self).ctx(), old(self).state(), *e),
            final(self).ctx() == old(self).ctx(),
            final(self).inv() == old(self).inv(),
    {
        match &e.kind {
            ExprKind::Variable(lower) => {
                if str_eq(lower.name.as_str(), "super") {
                    match self.scopes.lookup_var("this") {
                        Some((_id, ty)) => ty,
                        None => Type::Error,
                    }
                } else {
                    proof { lemma_chain_views(self.chain@, lower.name@, 0); }
                    match self.scopes.lookup_var(lower.name.as_str()) {
                        Some((id, ty)) => {
                            self.note(lower.span, id);
                            ty
                        },
                        None => match lookup_predicate(&self.chain, lower.name.as_str(), 0) {
                            Some(info) => {
                                let rt = match &info.result_type {
                                    Some(t) => t.copy(),
                                    None => Type::Error,
                                };
                                let d = info.def_id;
                                self.note(lower.span, d);
                                rt
                            },
                            None => {
                                if self.in_class_context {
                                    Type::Error
                                } else {
                                    let m = msg3("undefined variable `", lower.name.as_str(), "`");
                                    self.error(lower.span, m);
                                    Type::Error
                                }
                            },
                        },
                    }
                }
            },
            ExprKind::This => match self.scopes.lookup_var("this") {
                Some((_id, ty)) => ty,
                None => {
                    self.error(e.span, copy_str("`this` used outside of class context"));
                    Type::Error
                },
            },
            _ => match self.scopes.lookup_var("result") {
                Some((_id, ty)) => ty,
                None => {
                    self.error(e.span, copy_str("`result` used outside of a predicate with result type"));
                    Type::Error
                },
            },
        }
    }

    /// Binary and unary operators and ranges.
    fn resolve_operator_expr(&mut self, e: &Expr) -> (r: Type)
        requires
            old(self).inv(),
            e.kind is BinaryOp || e.kind is UnaryOp || e.kind is Range,
            st_inner(old(self).ctx(), old(self).state(), *e).0.next <= u32::MAX,
        ensures
            (final(self).state(), r@) == st_inner(old(self).ctx(), old(self).state(), *e),
            final(self).ctx() == old(self).ctx(),
            final(self).inv(),
        decreases *e, 1nat,
    {
        let ghost c = self.ctx();
        let ghost s0 = self.state();
        match &e.kind {
            ExprKind::BinaryOp { lhs, op, rhs } => {
                proof { lemma_expr_kept(c, st_expr(c, s0, **lhs).0, **rhs); }
                let lt = self.resolve_expr(lhs);
                let rt = self.resolve_expr(rhs);
                let (ty, msg) = check_binary_op(&lt, &rt, *op, &self.aliases);
                match msg {
                    Some(m) => self.error(e.span, m),
                    None => {},
                }
                ty
            },
            ExprKind::UnaryOp { operand } => {
                let t = self.resolve_expr(operand);
                let r = resolve_type_alias(&t, &self.aliases);
                if !r.is_numeric() && !r.is_error() {
                    let m = msg_type("unary operator requires numeric type, got `", &t, "`");
                    self.error(e.span, m);
                }
                t
            },
            _ => match &e.kind {
                ExprKind::Range { low, high } => {
                    proof { lemma_expr_kept(c, st_expr(c, s0, **low).0, **high); }
                    let lt = self.resolve_expr(low);
                    let ht = self.resolve_expr(high);
                    if !lt.same_as(&ht) && !lt.is_error() && !ht.is_error() {
                        let mut m = msg_type("range bounds have different types: `", &lt, "` vs `");
                        let hn = ht.display_name();
                        m.append(hn.as_str());
                        m.append("`");
                        self.error(e.span, m);
                    }
                    lt
                },
                _ => Type::Error,
            },
        }
    }

    /// Calls of every kind.
    fn resolve_call_expr(&mut self, e: &Expr) -> (r: Type)
        requires
            old(self).inv(),
            e.kind is Call || e.kind is MemberCall || e.kind is QualifiedCall || e.kind is TypeCall || e.kind is Super,
            st_inner(old(self).ctx(), old(self).state(), *e).0.next <= u32::MAX,
        ensures
            (final(self).state(), r@) == st_inner(old(self).ctx(), old(self).state(), *e),
            final(self).ctx() == old(self).ctx(),
            final(self).inv(),
        decreases *e, 1nat,
    {
        let ghost c = self.ctx();
        let ghost s0 = self.state();
        match &e.kind {
            ExprKind::Call { name, args } => {
                let arity = args.len();
                self.resolve_exprs(args);
                proof { lemma_chain_views(self.chain@, name.name@, arity); }
                match lookup_predicate(&self.chain, name.name.as_str(), arity) {
                    Some(info) => {
                        let d = info.def_id;
                        let rt = match &info.result_type {
                            Some(t) => Some(t.copy()),
                            None => None,
                        };
                        self.note(name.span, d);
                        match rt {
                            Some(t) => t,
                            None => {
                                let m = msg3(
                                    "predicate `",
                                    name.name.as_str(),
                                    "` has no result type; cannot use in expression context",
                                );
                                self.error(name.span, m);
                                Type::Error
                            },
                        }
                    },
                    None => {
                        if self.in_parameterized_module == 0 {
                            let m = undefined_pred_message(name.name.as_str(), arity);
                            self.error(name.span, m);
                        }
                        Type::Error
                    },
                }
            },
            ExprKind::MemberCall { receiver, args, .. } => {
                proof { lemma_exprs_kept(c, st_expr(c, s0, **receiver).0, args@); }
                self.resolve_expr(receiver);
                self.resolve_exprs(args);
                Type::Error
            },
            ExprKind::QualifiedCall { args } => {
                self.resolve_exprs(args);
                Type::Error
            },
            ExprKind::TypeCall { args } => {
                self.resolve_exprs(args);
                Type::Error
            },
            ExprKind::Super { args } => {
                self.resolve_exprs(args);
                Type::Error
            },
            _ => Type::Error,
        }
    }

    /// Aggregations, `rank` and `any`: their variables live in a scope of
    /// their own.
    fn resolve_binder_expr(&mut self, e: &Expr) -> (r: Type)
        requires
            old(self).inv(),
            e.kind is Aggregation || e.kind is RankExpr || e.kind is AnyExpr,
            st_inner(old(self).ctx(), old(self).state(), *e).0.next <= u32::MAX,
        ensures
            (final(self).state(), r@) == st_inner(old(self).ctx(), old(self).state(), *e),
            final(self).ctx() == old(self).ctx(),
            final(self).inv(),
        decreases *e, 1nat,
    {
        let ghost c = self.ctx();
        let ghost s0 = self.state();
        match &e.kind {
            ExprKind::Aggregation { kind, vars, guard, expr, separator, order_by } => {
                proof {
                    let s2 = st_vars(c, push_scope(s0), vars@).0;
                    lemma_guard_kept(c, s2, *guard);
                    let s3 = st_guard(c, s2, *guard);
                    lemma_opt_kept(c, s3, *expr, TypeV::Error);
                    let s4 = st_opt_expr(c, s3, *expr, TypeV::Error).0;
                    lemma_opt_kept(c, s4, *separator, TypeV::Error);
                    let s5 = st_opt_expr(c, s4, *separator, TypeV::Error).0;
                    lemma_orders_kept(c, s5, order_by@);
                }
                self.push_scope();
                self.resolve_vars(vars);
                self.resolve_guard(guard);
                let et = self.resolve_opt_expr(expr, Type::Error);
                self.resolve_opt_expr(separator, Type::Error);
                self.resolve_orders(order_by);
                self.pop_scope();
                aggregation_result_type(Some(*kind), &et)
            },
            ExprKind::RankExpr { index, vars, guard, expr, order_by } => {
                proof {
                    let s1 = st_expr(c, s0, **index).0;
                    lemma_vars_kept(c, push_scope(s1), vars@);
                    let s3 = st_vars(c, push_scope(s1), vars@).0;
                    lemma_guard_kept(c, s3, *guard);
                    let s4 = st_guard(c, s3, *guard);
                    lemma_expr_kept(c, s4, **expr);
                    let s5 = st_expr(c, s4, **expr).0;
                    lemma_orders_kept(c, s5, order_by@);
                }
                self.resolve_expr(index);
                self.push_scope();
                self.resolve_vars(vars);
                self.resolve_guard(guard);
                let t = self.resolve_expr(expr);
                self.resolve_orders(order_by);
                self.pop_scope();
                t
            },
            ExprKind::AnyExpr { vars, guard, expr } => {
                proof {
                    let (s2, vt) = st_vars(c, push_scope(s0), vars@);
                    lemma_guard_kept(c, s2, *guard);
                    let s3 = st_guard(c, s2, *guard);
                    lemma_opt_kept(c, s3, *expr, vt);
                }
                self.push_scope();
                let vt = self.resolve_vars(vars);
                self.resolve_guard(guard);
                let t = self.resolve_opt_expr(expr, vt);
                self.pop_scope();
                t
            },
            _ => Type::Error,
        }
    }

    // -- formulas --

    fn resolve_formula(&mut self, f: &Formula)
        requires
            old(self).inv(),
            st_formula(old(self).ctx(), old(self).state(), *f).next <= u32::MAX,
        ensures
            final(self).state() == st_formula(old(self).ctx(), old(self).state(), *f),
            final(self).ctx() == old(self).ctx(),
            final(self).inv(),
        decreases *f, 0nat,
    {
        let ghost c = self.ctx();
        let ghost s0 = self.state();
        match &f.kind {
            FormulaKind::Conjunction { lhs, rhs } => {
                proof { lemma_formula_kept(c, st_formula(c, s0, **lhs), **rhs); }
                self.resolve_formula(lhs);
                self.resolve_formula(rhs);
            },
            FormulaKind::Disjunction { lhs, rhs } => {
                proof { lemma_formula_kept(c, st_formula(c, s0, **lhs), **rhs); }
                self.resolve_formula(lhs);
                self.resolve_formula(rhs);
            },
            FormulaKind::Negation { inner } => self.resolve_formula(inner),
            FormulaKind::Implies { lhs, rhs } => {
                proof { lemma_formula_kept(c, st_formula(c, s0, **lhs), **rhs); }
                self.resolve_formula(lhs);
                self.resolve_formula(rhs);
            },
            FormulaKind::IfThenElse { cond, then, else_ } => {
                proof {
                    let s1 = st_formula(c, s0, **cond);
                    lemma_formula_kept(c, s1, **then);
                    lemma_formula_kept(c, st_formula(c, s1, **then), **else_);
                }
                self.resolve_formula(cond);
                self.resolve_formula(then);
                self.resolve_formula(else_);
            },
            FormulaKind::Comparison { lhs, op, rhs } => {
                proof { lemma_expr_kept(c, st_expr(c, s0, **lhs).0, **rhs); }
                let lt = self.resolve_expr(lhs);
                let rt = self.resolve_expr(rhs);
                match check_comparison_types(&lt, &rt, *op) {
                    Some(m) => self.error(f.span, m),
                    None => {},
                }
            },
            FormulaKind::InstanceOf { expr, ty } => {
                self.resolve_expr(expr);
                self.resolve_type_expr(ty);
            },
            FormulaKind::InRange { expr, range } => {
                proof { lemma_expr_kept(c, st_expr(c, s0, **expr).0, **range); }
                self.resolve_expr(expr);
                self.resolve_expr(range);
            },
            FormulaKind::Exists { vars, guard, body } => {
                proof {
                    let s2 = st_vars(c, push_scope(s0), vars@).0;
                    lemma_guard_kept(c, s2, *guard);
                    lemma_formula_kept(c, st_guard(c, s2, *guard), **body);
                }
                self.push_scope();
                self.resolve_vars(vars);
                self.resolve_guard(guard);
                self.resolve_formula(body);
                self.pop_scope();
            },
            FormulaKind::ExistsExpr { expr } => {
                self.resolve_expr(expr);
            },
            FormulaKind::Forall { vars, guard, body } => {
                proof {
                    let s2 = st_vars(c, push_scope(s0), vars@).0;
                    lemma_formula_kept(c, s2, **guard);
                    lemma_formula_kept(c, st_formula(c, s2, **guard), **body);
                }
                self.push_scope();
                self.resolve_vars(vars);
                self.resolve_formula(guard);
                self.resolve_formula(body);
                self.pop_scope();
            },
            FormulaKind::Forex { vars, guard, body } => {
                proof {
                    let s2 = st_vars(c, push_scope(s0), vars@).0;
                    lemma_formula_kept(c, s2, **guard);
                    lemma_formula_kept(c, st_formula(c, s2, **guard), **body);
                }
                self.push_scope();
                self.resolve_vars(vars);
                self.resolve_formula(guard);
                self.resolve_formula(body);
                self.pop_scope();
            },
            FormulaKind::PredicateCall { name, args } => {
                let arity = args.len();
                self.resolve_exprs(args);
                self.resolve_call_tail(name.name.as_str(), name.span, arity);
            },
            FormulaKind::MemberCall { receiver, args, .. } => {
                proof { lemma_exprs_kept(c, st_expr(c, s0, **receiver).0, args@); }
                self.resolve_expr(receiver);
                self.resolve_exprs(args);
            },
            FormulaKind::QualifiedCall { args } => {
                self.resolve_exprs(args);
            },
            FormulaKind::AnyCall => {},
            FormulaKind::NoneCall => {},
            FormulaKind::Paren { inner } => self.resolve_formula(inner),
            FormulaKind::ExprFormula(e) => self.resolve_bridge_expr_formula(e),
        }
    }

    fn resolve_bridge_expr_formula(&mut self, e: &Expr)
        requires
            old(self).inv(),
            st_bridge(old(self).ctx(), old(self).state(), *e).next <= u32::MAX,
        ensures
            final(self).state() == st_bridge(old(self).ctx(), old(self).state(), *e),
            final(self).ctx() == old(self).ctx(),
            final(self).inv(),
        decreases *e, 4nat,
    {
        let ghost c = self.ctx();
        let ghost s0 = self.state();
        match &e.kind {
            ExprKind::Call { name, args } => {
                let arity = args.len();
                self.resolve_exprs(args);
                self.resolve_call_tail(name.name.as_str(), name.span, arity);
            },
            ExprKind::MemberCall { receiver, args, .. } => {
                proof { lemma_exprs_kept(c, st_expr(c, s0, **receiver).0, args@); }
                self.resolve_expr(receiver);
                self.resolve_exprs(args);
            },
            ExprKind::QualifiedCall { args } => {
                self.resolve_exprs(args);
            },
            ExprKind::Variable(lower) => match self.scopes.lookup_var(lower.name.as_str()) {
                Some((id, _ty)) => self.note(lower.span, id),
                None => self.resolve_call_tail(lower.name.as_str(), lower.span, 0),
            },
            _ => {
                self.resolve_expr(e);
            },
        }
    }
}

/// The fields of a class as names and types.
pub open spec fn fields_view(v: Seq<(String, Type)>) -> Seq<(Seq<char>, TypeV)> {
    v.map_values(|p: (String, Type)| (p.0@, p.1@))
}

/// A copy of the module type parameters.
fn copy_params(v: &Vec<(String, DefId)>) -> (r: Vec<(String, DefId)>)
    ensures
        r@ == v@,
{
    let mut r: Vec<(String, DefId)> = Vec::new();
    let mut i: usize = 0;
    while i < v.len()
        invariant
            i <= v@.len(),
            r@ == v@.take(i as int),
        decreases v@.len() - i,
    {
        r.push((v[i].0.clone(), v[i].1));
        assert(r@ =~= v@.take(i + 1));
        i = i + 1;
    }
    assert(v@.take(i as int) =~= v@);
    r
}

impl<'a> NameResolver<'a> {
    /// Resolves every member of a file.
    pub fn resolve_source_file(&mut self, sf: &SourceFile)
        requires
            old(self).inv(),
            old(self).state().in_param <= old(self).state().next,
            old(self).state().next + count_members(sf.members@) <= u32::MAX,
        ensures
            final(self).state() == st_members(old(self).ctx(), old(self).state(), sf.members@),
            final(self).ctx() == old(self).ctx(),
            final(self).inv(),
    {
        proof { lemma_members_grows(self.ctx(), self.state(), sf.members@); }
        self.resolve_members(&sf.members);
    }

    fn resolve_members(&mut self, ms: &Vec<ModuleMember>)
        requires
            old(self).inv(),
            old(self).state().in_param <= old(self).state().next,
            st_members(old(self).ctx(), old(self).state(), ms@).next <= u32::MAX,
        ensures
            final(self).state() == st_members(old(self).ctx(), old(self).state(), ms@),
            final(self).ctx() == old(self).ctx(),
            final(self).inv(),
        decreases *ms, 0nat,
    {
        let ghost s0 = self.state();
        let ghost c = self.ctx();
        let mut i: usize = 0;
        assert(ms@.take(0) =~= Seq::<ModuleMember>::empty());
        while i < ms.len()
            invariant
                i <= ms@.len(),
                self.ctx() == c,
                self.inv(),
                s0.in_param <= s0.next,
                self.state() == st_members(c, s0, ms@.take(i as int)),
                st_members(c, s0, ms@).next <= u32::MAX,
            decreases ms@.len() - i,
        {
            proof {
                assert(ms@.take(i + 1).drop_last() =~= ms@.take(i as int));
                assert(ms@.take(i + 1).last() == ms@[i as int]);
                lemma_members_prefix(c, s0, ms@, i + 1);
                lemma_members_grows(c, s0, ms@.take(i as int));
            }
            self.resolve_member(&ms[i]);
            i = i + 1;
        }
        assert(ms@.take(i as int) =~= ms@);
    }

    fn resolve_member(&mut self, m: &ModuleMember)
        requires
            old(self).inv(),
            old(self).state().in_param <= old(self).state().next,
            st_member(old(self).ctx(), old(self).state(), *m).next <= u32::MAX,
        ensures
            final(self).state() == st_member(old(self).ctx(), old(self).state(), *m),
            final(self).ctx() == old(self).ctx(),
            final(self).inv(),
        decreases *m, 0nat,
    {
        let ghost s0 = self.state();
        let ghost c = self.ctx();
        match m {
            ModuleMember::Predicate(p) => self.resolve_predicate(p),
            ModuleMember::Class(cl) => self.resolve_class(cl),
            ModuleMember::Select(sel) => self.resolve_select(sel),
            ModuleMember::Module(md) => {
                if md.type_params.len() > 0 {
                    proof {
                        lemma_tparams_grows(c, s0, md.type_params@);
                        let s1 = st_tparams(c, s0, md.type_params@);
                        lemma_members_grows(c, ResolveState { in_param: s1.in_param + 1, ..s1 }, md.members@);
                    }
                    let saved = copy_params(&self.module_type_params);
                    let mut i: usize = 0;
                    assert(md.type_params@.take(0) =~= Seq::<TypeParam>::empty());
                    while i < md.type_params.len()
                        invariant
                            i <= md.type_params@.len(),
                            self.ctx() == c,
                            self.inv(),
                            self.state() == st_tparams(c, s0, md.type_params@.take(i as int)),
                            st_tparams(c, s0, md.type_params@).next <= u32::MAX,
                            st_tparams(c, s0, md.type_params@).next == s0.next + md.type_params@.len(),
                        decreases md.type_params@.len() - i,
                    {
                        proof {
                            assert(md.type_params@.take(i + 1).drop_last() =~= md.type_params@.take(i as int));
                            assert(md.type_params@.take(i + 1).last() == md.type_params@[i as int]);
                            lemma_tparams_grows(c, s0, md.type_params@.take(i as int));
                        }
                        let id = self.fresh_def();
                        self.module_type_params.push((md.type_params[i].name.name.clone(), id));
                        i = i + 1;
                    }
                    assert(md.type_params@.take(i as int) =~= md.type_params@);
                    self.in_parameterized_module = self.in_parameterized_module + 1;
                    self.resolve_members(&md.members);
                    self.module_type_params = saved;
                    self.in_parameterized_module = self.in_parameterized_module - 1;
                } else {
                    self.resolve_members(&md.members);
                }
            },
            ModuleMember::Newtype(nt) => self.resolve_branches(&nt.branches),
            _ => {},
        }
    }

    fn resolve_predicate(&mut self, p: &Predicate)
        requires
            old(self).inv(),
            st_predicate(old(self).ctx(), old(self).state(), *p).next <= u32::MAX,
        ensures
            final(self).state() == st_predicate(old(self).ctx(), old(self).state(), *p),
            final(self).ctx() == old(self).ctx(),
            final(self).inv(),
    {
        let ghost c = self.ctx();
        let ghost s0 = self.state();
        proof {
            lemma_vars_kept(c, push_scope(s0), p.head.params@);
            lemma_pred_rest_grows(c, st_vars(c, push_scope(s0), p.head.params@).0, *p);
        }
        self.push_scope();
        self.resolve_vars(&p.head.params);
        self.resolve_pred_rest(p);
        self.pop_scope();
    }

    fn resolve_pred_rest(&mut self, p: &Predicate)
        requires
            old(self).inv(),
            st_pred_rest(old(self).ctx(), old(self).state(), *p).next <= u32::MAX,
        ensures
            final(self).state() == st_pred_rest(old(self).ctx(), old(self).state(), *p),
            final(self).ctx() == old(self).ctx(),
            final(self).inv(),
    {
        let ghost c = self.ctx();
        let ghost s0 = self.state();
        proof {
            let pp = *p;
            let s3 = match pp.head.result_type {
                Some(te) => {
                    let (sa, t) = st_type(c, s0, te);
                    define(c, sa, "result"@, t).0
                },
                None => s0,
            };
            match pp.body {
                Some(b) => lemma_formula_kept(c, s3, b),
                None => {},
            }
        }
        match &p.head.result_type {
            Some(te) => {
                let t = self.resolve_type_expr(te);
                self.define_var("result", t);
            },
            None => {},
        }
        match &p.body {
            Some(b) => self.resolve_formula(b),
            None => {},
        }
    }

    // -- classes --

    fn resolve_fields(&mut self, ms: &Vec<ClassMember>) -> (r: Vec<(String, Type)>)
        ensures
            (final(self).state(), fields_view(r@)) == st_fields(old(self).ctx(), old(self).state(), ms@),
            final(self).ctx() == old(self).ctx(),
            final(self).inv() == old(self).inv(),
    {
        let ghost s0 = self.state();
        let ghost c = self.ctx();
        let ghost v = self.inv();
        let mut r: Vec<(String, Type)> = Vec::new();
        let mut i: usize = 0;
        assert(ms@.take(0) =~= Seq::<ClassMember>::empty());
        assert(fields_view(r@) =~= Seq::<(Seq<char>, TypeV)>::empty());
        while i < ms.len()
            invariant
                i <= ms@.len(),
                self.ctx() == c,
                self.inv() == v,
                (self.state(), fields_view(r@)) == st_fields(c, s0, ms@.take(i as int)),
            decreases ms@.len() - i,
        {
            assert(ms@.take(i + 1).drop_last() =~= ms@.take(i as int));
            assert(ms@.take(i + 1).last() == ms@[i as int]);
            match &ms[i] {
                ClassMember::Field { ty, name, .. } => {
                    let t = self.resolve_type_expr(ty);
                    let ghost before = r@;
                    r.push((name.name.clone(), t));
                    assert(fields_view(r@) =~= fields_view(before).push((name.name@, t@)));
                },
                _ => {},
            }
            i = i + 1;
        }
        assert(ms@.take(i as int) =~= ms@);
        r
    }

    fn define_fields(&mut self, fs: &Vec<(String, Type)>)
        requires
            old(self).inv(),
            define_all(old(self).ctx(), old(self).state(), fields_view(fs@)).next <= u32::MAX,
        ensures
            final(self).state() == define_all(old(self).ctx(), old(self).state(), fields_view(fs@)),
            final(self).ctx() == old(self).ctx(),
            final(self).inv(),
    {
        let ghost s0 = self.state();
        let ghost c = self.ctx();
        let ghost fv = fields_view(fs@);
        let mut i: usize = 0;
        assert(fv.take(0) =~= Seq::<(Seq<char>, TypeV)>::empty());
        while i < fs.len()
            invariant
                i <= fs@.len(),
                fv == fields_view(fs@),
                self.ctx() == c,
                self.inv(),
                self.state() == define_all(c, s0, fv.take(i as int)),
                define_all(c, s0, fv).next <= u32::MAX,
            decreases fs@.len() - i,
        {
            proof {
                assert(fv.take(i + 1).drop_last() =~= fv.take(i as int));
                assert(fv.take(i + 1).last() == fv[i as int]);
                lemma_define_all_prefix(c, s0, fv, i + 1);
            }
            let t = fs[i].1.copy();
            self.define_var(fs[i].0.as_str(), t);
            i = i + 1;
        }
        assert(fv.take(i as int) =~= fv);
    }

    fn enter_class(&mut self, ct: &Type, fs: &Vec<(String, Type)>)
        requires
            old(self).inv(),
            enter_class(old(self).ctx(), old(self).state(), ct@, fields_view(fs@)).next <= u32::MAX,
        ensures
            final(self).state() == enter_class(old(self).ctx(), old(self).state(), ct@, fields_view(fs@)),
            final(self).ctx() == old(self).ctx(),
            final(self).inv(),
    {
        let ghost c = self.ctx();
        let ghost s0 = self.state();
        proof {
            let s1 = ResolveState { in_class: true, ..push_scope(s0) };
            lemma_define_all_grows(c, define(c, s1, "this"@, ct@).0, fields_view(fs@));
        }
        self.push_scope();
        self.in_class_context = true;
        self.define_var("this", ct.copy());
        self.define_fields(fs);
    }

    fn leave_class(&mut self)
        ensures
            final(self).state() == leave_class(old(self).state()),
            final(self).ctx() == old(self).ctx(),
            final(self).inv() == old(self).inv(),
    {
        self.in_class_context = false;
        self.pop_scope();
    }

    fn resolve_class_member(&mut self, ct: &Type, fs: &Vec<(String, Type)>, m: &ClassMember)
        requires
            old(self).inv(),
            st_class_member(old(self).ctx(), old(self).state(), ct@, fields_view(fs@), *m).next <= u32::MAX,
        ensures
            final(self).state() == st_class_member(old(self).ctx(), old(self).state(), ct@, fields_view(fs@), *m),
            final(self).ctx() == old(self).ctx(),
            final(self).inv(),
    {
        let ghost c = self.ctx();
        let ghost s0 = self.state();
        proof {
            lemma_enter_class_grows(c, s0, ct@, fields_view(fs@));
        }
        match m {
            ClassMember::CharacteristicPredicate { body, .. } => {
                proof { lemma_formula_kept(c, enter_class(c, s0, ct@, fields_view(fs@)), *body); }
                self.enter_class(ct, fs);
                self.resolve_formula(body);
                self.leave_class();
            },
            ClassMember::MemberPredicate(p) => {
                proof {
                    let e = enter_class(c, s0, ct@, fields_view(fs@));
                    lemma_vars_kept(c, e, p.head.params@);
                    lemma_pred_rest_grows(c, st_vars(c, e, p.head.params@).0, *p);
                }
                self.enter_class(ct, fs);
                self.resolve_vars(&p.head.params);
                self.resolve_pred_rest(p);
                self.leave_class();
            },
            ClassMember::Field { .. } => {},
        }
    }

    fn resolve_class(&mut self, cl: &ClassDecl)
        requires
            old(self).inv(),
            st_class(old(self).ctx(), old(self).state(), *cl).next <= u32::MAX,
        ensures
            final(self).state() == st_class(old(self).ctx(), old(self).state(), *cl),
            final(self).ctx() == old(self).ctx(),
            final(self).inv(),
    {
        let ghost c = self.ctx();
        self.resolve_types(&cl.supertypes);
        self.resolve_types(&cl.instanceof);
        let ct = match self.find_type(cl.name.name.as_str()) {
            Some(d) => Type::Class(d),
            None => Type::Error,
        };
        let fields = self.resolve_fields(&cl.members);
        let ghost s3 = self.state();
        let ghost fv = fields_view(fields@);
        let mut i: usize = 0;
        assert(cl.members@.take(0) =~= Seq::<ClassMember>::empty());
        while i < cl.members.len()
            invariant
                i <= cl.members@.len(),
                self.ctx() == c,
                self.inv(),
                fv == fields_view(fields@),
                self.state() == st_class_members(c, s3, ct@, fv, cl.members@.take(i as int)),
                st_class_members(c, s3, ct@, fv, cl.members@).next <= u32::MAX,
            decreases cl.members@.len() - i,
        {
            proof {
                assert(cl.members@.take(i + 1).drop_last() =~= cl.members@.take(i as int));
                assert(cl.members@.take(i + 1).last() == cl.members@[i as int]);
                lemma_class_members_prefix(c, s3, ct@, fv, cl.members@, i + 1);
            }
            self.resolve_class_member(&ct, &fields, &cl.members[i]);
            i = i + 1;
        }
        assert(cl.members@.take(i as int) =~= cl.members@);
    }

    // -- queries --

    fn resolve_from(&mut self, vs: &Vec<VarDecl>)
        requires
            old(self).inv(),
            st_from(old(self).ctx(), old(self).state(), vs@).next <= u32::MAX,
        ensures
            final(self).state() == st_from(old(self).ctx(), old(self).state(), vs@),
            final(self).ctx() == old(self).ctx(),
            final(self).inv(),
    {
        let ghost s0 = self.state();
        let ghost c = self.ctx();
        let mut i: usize = 0;
        assert(vs@.take(0) =~= Seq::<VarDecl>::empty());
        while i < vs.len()
            invariant
                i <= vs@.len(),
                self.ctx() == c,
                self.inv(),
                self.state() == st_from(c, s0, vs@.take(i as int)),
                st_from(c, s0, vs@).next <= u32::MAX,
            decreases vs@.len() - i,
        {
            proof {
                assert(vs@.take(i + 1).drop_last() =~= vs@.take(i as int));
                assert(vs@.take(i + 1).last() == vs@[i as int]);
                lemma_from_prefix(c, s0, vs@, i + 1);
            }
            let t = self.resolve_type_expr(&vs[i].ty);
            let id = self.define_var(vs[i].name.name.as_str(), t);
            self.note(vs[i].name.span, id);
            i = i + 1;
        }
        assert(vs@.take(i as int) =~= vs@);
    }

    fn resolve_selects(&mut self, es: &Vec<SelectExpr>)
        requires
            old(self).inv(),
            st_selects(old(self).ctx(), old(self).state(), es@).next <= u32::MAX,
        ensures
            final(self).state() == st_selects(old(self).ctx(), old(self).state(), es@),
            final(self).ctx() == old(self).ctx(),
            final(self).inv(),
    {
        let ghost s0 = self.state();
        let ghost c = self.ctx();
        let mut i: usize = 0;
        assert(es@.take(0) =~= Seq::<SelectExpr>::empty());
        while i < es.len()
            invariant
                i <= es@.len(),
                self.ctx() == c,
                self.inv(),
                self.state() == st_selects(c, s0, es@.take(i as int)),
                st_selects(c, s0, es@).next <= u32::MAX,
            decreases es@.len() - i,
        {
            proof {
                assert(es@.take(i + 1).drop_last() =~= es@.take(i as int));
                assert(es@.take(i + 1).last() == es@[i as int]);
                lemma_selects_prefix(c, s0, es@, i + 1);
                lemma_expr_kept(c, self.state(), es@[i as int].expr);
            }
            let t = self.resolve_expr(&es[i].expr);
            match &es[i].label {
                Some(l) => {
                    self.define_var(l.as_str(), t);
                },
                None => {},
            }
            i = i + 1;
        }
        assert(es@.take(i as int) =~= es@);
    }

    fn resolve_select(&mut self, sel: &Select)
        requires
            old(self).inv(),
            st_select(old(self).ctx(), old(self).state(), *sel).next <= u32::MAX,
        ensures
            final(self).state() == st_select(old(self).ctx(), old(self).state(), *sel),
            final(self).ctx() == old(self).ctx(),
            final(self).inv(),
    {
        let ghost c = self.ctx();
        let ghost s0 = self.state();
        proof {
            let ss = *sel;
            lemma_from_grows(c, push_scope(s0), sel.from@);
            let s2 = st_from(c, push_scope(s0), sel.from@);
            let s3 = match ss.where_clause {
                Some(w) => st_formula(c, s2, w),
                None => s2,
            };
            match ss.where_clause {
                Some(w) => lemma_formula_kept(c, s2, w),
                None => {},
            }
            lemma_selects_grows(c, s3, sel.select_exprs@);
            lemma_orders_kept(c, st_selects(c, s3, sel.select_exprs@), sel.order_by@);
        }
        self.push_scope();
        self.resolve_from(&sel.from);
        match &sel.where_clause {
            Some(w) => self.resolve_formula(w),
            None => {},
        }
        self.resolve_selects(&sel.select_exprs);
        self.resolve_orders(&sel.order_by);
        self.pop_scope();
    }

    // -- newtypes --

    fn resolve_branches(&mut self, bs: &Vec<NewtypeBranch>)
        requires
            old(self).inv(),
            st_branches(old(self).ctx(), old(self).state(), bs@).next <= u32::MAX,
        ensures
            final(self).state() == st_branches(old(self).ctx(), old(self).state(), bs@),
            final(self).ctx() == old(self).ctx(),
            final(self).inv(),
    {
        let ghost s0 = self.state();
        let ghost c = self.ctx();
        let mut i: usize = 0;
        assert(bs@.take(0) =~= Seq::<NewtypeBranch>::empty());
        while i < bs.len()
            invariant
                i <= bs@.len(),
                self.ctx() == c,
                self.inv(),
                self.state() == st_branches(c, s0, bs@.take(i as int)),
                st_branches(c, s0, bs@).next <= u32::MAX,
            decreases bs@.len() - i,
        {
            proof {
                assert(bs@.take(i + 1).drop_last() =~= bs@.take(i as int));
                assert(bs@.take(i + 1).last() == bs@[i as int]);
                lemma_branches_prefix(c, s0, bs@, i + 1);
            }
            match &bs[i].body {
                Some(b) => {
                    proof {
                        lemma_vars_kept(c, push_scope(self.state()), bs@[i as int].params@);
                        lemma_formula_kept(c, st_vars(c, push_scope(self.state()), bs@[i as int].params@).0, *b);
                    }
                    self.push_scope();
                    self.resolve_vars(&bs[i].params);
                    self.resolve_formula(b);
                    self.pop_scope();
                },
                None => {},
            }
            i = i + 1;
        }
        assert(bs@.take(i as int) =~= bs@);
    }
}
} // verus!
