//! The decisions of name resolution and type checking that do not depend on
//! the shape of the syntax tree: the stack of variable scopes, what a
//! reference resolved to, type aliases, and the typing rules of arithmetic,
//! comparisons and aggregations.

use vstd::prelude::*;
use crate::def::{DefId, FileId, LocalDefId};
use crate::types::{Type, TypeV, PrimitiveType, is_numeric_spec, numeric_result_spec, display_name_spec};
use crate::text::copy_str;

verus! {

/// What a name reference resolved to.
#[derive(Clone, Debug)]
pub enum ResolvedRef {
    /// A user-defined declaration.
    Def(DefId),
    /// A builtin operation (such as a string method).
    Builtin(String),
    /// Failed to resolve (the error is already reported).
    Unresolved,
}

/// Binary arithmetic operators.
#[derive(Clone, Copy, Debug, PartialEq, Eq, Structural)]
pub enum BinOp {
    Add,
    Sub,
    Mul,
    Div,
    Mod,
}

/// Comparison operators.
#[derive(Clone, Copy, Debug, PartialEq, Eq, Structural)]
pub enum CompOp {
    Eq,
    Ne,
    Lt,
    Le,
    Gt,
    Ge,
}

/// Aggregation kinds.
#[derive(Clone, Copy, Debug, PartialEq, Eq, Structural)]
pub enum AggKind {
    Count,
    StrictCount,
    Rank,
    Sum,
    StrictSum,
    Avg,
    Min,
    Max,
    Unique,
    Any,
    Concat,
    StrictConcat,
}

/// A variable bound in a scope.
pub struct ScopeVar {
    pub name: String,
    pub def_id: DefId,
    pub ty: Type,
}

/// A bound variable as its name, declaration and type.
pub type Binding = (Seq<char>, DefId, TypeV);

/// The variables of a scope, in order of definition.
pub open spec fn frame_view(f: Seq<ScopeVar>) -> Seq<Binding> {
    f.map_values(|v: ScopeVar| (v.name@, v.def_id, v.ty@))
}

/// The latest binding of `name` in a scope.
pub open spec fn find_in_frame(f: Seq<Binding>, name: Seq<char>) -> Option<(DefId, TypeV)>
    decreases f.len(),
{
    if f.len() == 0 {
        None
    } else if f.last().0 == name {
        Some((f.last().1, f.last().2))
    } else {
        find_in_frame(f.drop_last(), name)
    }
}

/// The binding of `name` that is visible: the innermost scope that binds
/// it, and there its latest binding.
pub open spec fn lookup_in(fs: Seq<Seq<Binding>>, name: Seq<char>) -> Option<(DefId, TypeV)>
    decreases fs.len(),
{
    if fs.len() == 0 {
        None
    } else {
        match find_in_frame(fs.last(), name) {
            Some(b) => Some(b),
            None => lookup_in(fs.drop_last(), name),
        }
    }
}

/// The stack of variable scopes of the file being resolved, with the next
/// local declaration number to give out.
pub struct ScopeStack {
    frames: Vec<Vec<ScopeVar>>,
    file: FileId,
    next_local: u32,
}

impl ScopeStack {
    /// The scopes, outermost first.
    pub closed spec fn frames(&self) -> Seq<Seq<Binding>> {
        self.frames@.map_values(|f: Vec<ScopeVar>| frame_view(f@))
    }

    /// The file whose declarations this stack numbers.
    pub closed spec fn file(&self) -> FileId {
        self.file
    }

    /// The next local declaration number.
    pub closed spec fn next_local(&self) -> u32 {
        self.next_local
    }

    /// No scope, numbering from `next_local`.
    pub fn new(file: FileId, next_local: u32) -> (r: ScopeStack)
        ensures
            r.frames() == Seq::<Seq<Binding>>::empty(),
            r.file() == file,
            r.next_local() == next_local,
    {
        let r = ScopeStack { frames: Vec::new(), file, next_local };
        assert(r.frames() =~= Seq::<Seq<Binding>>::empty());
        r
    }

    /// Opens an empty innermost scope.
    pub fn push_scope(&mut self)
        ensures
            final(self).frames() == old(self).frames().push(Seq::empty()),
            final(self).file() == old(self).file(),
            final(self).next_local() == old(self).next_local(),
    {
        self.frames.push(Vec::new());
        assert(frame_view(self.frames@.last()@) =~= Seq::<Binding>::empty());
        assert(self.frames() =~= old(self).frames().push(Seq::empty()));
    }

    /// Closes the innermost scope, if any.
    pub fn pop_scope(&mut self)
        ensures
            old(self).frames().len() > 0 ==> final(self).frames() == old(self).frames().drop_last(),
            old(self).frames().len() == 0 ==> final(self).frames() == old(self).frames(),
            final(self).file() == old(self).file(),
            final(self).next_local() == old(self).next_local(),
    {
        if self.frames.len() > 0 {
            self.frames.pop();
            assert(self.frames() =~= old(self).frames().drop_last());
        }
    }

    /// A new declaration of this file, with the next local number.
    pub fn fresh_def(&mut self) -> (id: DefId)
        requires
            old(self).next_local() < u32::MAX,
        ensures
            id == (DefId { file: old(self).file(), local: LocalDefId(old(self).next_local()) }),
            final(self).next_local() == old(self).next_local() + 1,
            final(self).frames() == old(self).frames(),
            final(self).file() == old(self).file(),
    {
        let id = DefId { file: self.file, local: LocalDefId(self.next_local) };
        self.next_local = self.next_local + 1;
        id
    }

    /// Declares a variable: it gets a fresh declaration and is bound in
    /// the innermost scope, when there is one.
    pub fn define_var(&mut self, name: &str, ty: Type) -> (id: DefId)
        requires
            old(self).next_local() < u32::MAX,
        ensures
            id == (DefId { file: old(self).file(), local: LocalDefId(old(self).next_local()) }),
            final(self).next_local() == old(self).next_local() + 1,
            final(self).file() == old(self).file(),
            old(self).frames().len() > 0 ==> final(self).frames() == old(self).frames().update(
                old(self).frames().len() - 1,
                old(self).frames().last().push((name@, id, ty@)),
            ),
            old(self).frames().len() == 0 ==> final(self).frames() == old(self).frames(),
    {
        let id = self.fresh_def();
        let n = self.frames.len();
        if n > 0 {
            let ghost before = self.frames@;
            let mut last = self.frames.pop().unwrap();
            let ghost last_before = last@;
            last.push(ScopeVar { name: copy_str(name), def_id: id, ty });
            self.frames.push(last);
            proof {
                assert(frame_view(last@) =~= frame_view(last_before).push((name@, id, ty@)));
                assert(self.frames() =~= old(self).frames().update(
                    old(self).frames().len() - 1,
                    old(self).frames().last().push((name@, id, ty@)),
                ));
            }
        }
        id
    }

    /// The visible binding of `name`.
    pub fn lookup_var(&self, name: &str) -> (r: Option<(DefId, Type)>)
        ensures
            match r {
                Some((id, ty)) => lookup_in(self.frames(), name@) == Some((id, ty@)),
                None => lookup_in(self.frames(), name@) is None,
            },
    {
        let mut i = self.frames.len();
        assert(self.frames().take(i as int) =~= self.frames());
        while i > 0
            invariant
                i <= self.frames@.len(),
                lookup_in(self.frames(), name@) == lookup_in(self.frames().take(i as int), name@),
            decreases i,
        {
            let frame = &self.frames[i - 1];
            let ghost fs = self.frames().take(i as int);
            assert(fs.last() == frame_view(frame@));
            assert(fs.drop_last() =~= self.frames().take(i - 1));
            let mut j = frame.len();
            assert(frame_view(frame@).take(j as int) =~= frame_view(frame@));
            while j > 0
                invariant
                    j <= frame@.len(),
                    fs.len() > 0,
                    fs.last() == frame_view(frame@),
                    lookup_in(self.frames(), name@) == lookup_in(fs, name@),
                    lookup_in(fs, name@) == match find_in_frame(frame_view(frame@), name@) {
                        Some(b) => Some(b),
                        None => lookup_in(fs.drop_last(), name@),
                    },
                    find_in_frame(frame_view(frame@), name@) == find_in_frame(frame_view(frame@).take(j as int), name@),
                decreases j,
            {
                let ghost f = frame_view(frame@).take(j as int);
                assert(f.drop_last() =~= frame_view(frame@).take(j - 1));
                if crate::text::str_eq(frame[j - 1].name.as_str(), name) {
                    let t = frame[j - 1].ty.copy();
                    proof {
                        assert(f.last() == frame_view(frame@)[j - 1]);
                        assert(frame_view(frame@)[j - 1] == (frame@[j - 1].name@, frame@[j - 1].def_id, frame@[j - 1].ty@));
                    }
                    assert(find_in_frame(f, name@) == Some((frame@[j - 1].def_id, frame@[j - 1].ty@)));
                    return Some((frame[j - 1].def_id, t));
                }
                j = j - 1;
            }
            i = i - 1;
        }
        None
    }
}

/// A variable defined in the innermost scope is what its name now looks up.
pub proof fn lemma_define_then_lookup(fs: Seq<Seq<Binding>>, name: Seq<char>, id: DefId, ty: TypeV)
    requires
        fs.len() > 0,
    ensures
        lookup_in(fs.update(fs.len() - 1, fs.last().push((name, id, ty))), name) == Some((id, ty)),
{
    let g = fs.update(fs.len() - 1, fs.last().push((name, id, ty)));
    assert(g.last() == fs.last().push((name, id, ty)));
}

/// Defining a variable leaves the lookup of every other name unchanged.
pub proof fn lemma_define_other_unchanged(fs: Seq<Seq<Binding>>, name: Seq<char>, id: DefId, ty: TypeV, other: Seq<char>)
    requires
        fs.len() > 0,
        other != name,
    ensures
        lookup_in(fs.update(fs.len() - 1, fs.last().push((name, id, ty))), other) == lookup_in(fs, other),
{
    let g = fs.update(fs.len() - 1, fs.last().push((name, id, ty)));
    assert(g.last().drop_last() =~= fs.last());
    assert(g.drop_last() =~= fs.drop_last());
}

/// Closing a scope just opened restores every lookup.
pub proof fn lemma_push_pop_scope(fs: Seq<Seq<Binding>>, name: Seq<char>)
    ensures
        fs.push(Seq::empty()).drop_last() == fs,
        lookup_in(fs.push(Seq::empty()), name) == lookup_in(fs, name),
{
    assert(fs.push(Seq::empty()).drop_last() =~= fs);
}

/// The type an alias declaration stands for: the first entry for `d`.
pub open spec fn alias_of(aliases: Seq<(DefId, TypeV)>, d: DefId) -> Option<TypeV>
    decreases aliases.len(),
{
    if aliases.len() == 0 {
        None
    } else if aliases[0].0 == d {
        Some(aliases[0].1)
    } else {
        alias_of(aliases.drop_first(), d)
    }
}

/// A type after following at most `n` alias steps from a class type.
pub open spec fn chase_alias(t: TypeV, aliases: Seq<(DefId, TypeV)>, n: nat) -> TypeV
    decreases n,
{
    if n == 0 {
        t
    } else {
        match t {
            TypeV::Class(d) => match alias_of(aliases, d) {
                Some(u) => chase_alias(u, aliases, (n - 1) as nat),
                None => t,
            },
            _ => t,
        }
    }
}

/// Looking a declaration up in concatenated alias entries finds it in the
/// first part when it is there, else in the second: a table made of the
/// file's own, the imported and the project-wide entries searches them in
/// that order.
pub proof fn lemma_alias_of_concat(a: Seq<(DefId, TypeV)>, b: Seq<(DefId, TypeV)>, d: DefId)
    ensures
        alias_of(a + b, d) == match alias_of(a, d) {
            Some(t) => Some(t),
            None => alias_of(b, d),
        },
    decreases a.len(),
{
    if a.len() == 0 {
        assert(a + b =~= b);
    } else {
        assert((a + b)[0] == a[0]);
        assert((a + b).drop_first() =~= a.drop_first() + b);
        lemma_alias_of_concat(a.drop_first(), b, d);
    }
}

/// The views of a list of alias entries.
pub open spec fn alias_view(v: Seq<(DefId, Type)>) -> Seq<(DefId, TypeV)> {
    v.map_values(|e: (DefId, Type)| (e.0, e.1@))
}

pub(crate) fn find_alias(aliases: &Vec<(DefId, Type)>, d: DefId) -> (r: Option<Type>)
    ensures
        match r {
            Some(t) => alias_of(alias_view(aliases@), d) == Some(t@),
            None => alias_of(alias_view(aliases@), d) is None,
        },
{
    let mut i: usize = 0;
    assert(alias_view(aliases@).skip(0) =~= alias_view(aliases@));
    while i < aliases.len()
        invariant
            i <= aliases@.len(),
            alias_of(alias_view(aliases@), d) == alias_of(alias_view(aliases@).skip(i as int), d),
        decreases aliases@.len() - i,
    {
        let ghost rest = alias_view(aliases@).skip(i as int);
        assert(rest.drop_first() =~= alias_view(aliases@).skip(i + 1));
        if aliases[i].0 == d {
            return Some(aliases[i].1.copy());
        }
        i = i + 1;
    }
    None
}

/// Follows a class type through the alias declarations `aliases` (looked
/// up in order, the first entry for a class winning), at most ten steps.
pub fn resolve_type_alias(ty: &Type, aliases: &Vec<(DefId, Type)>) -> (r: Type)
    ensures
        r@ == chase_alias(ty@, alias_view(aliases@), 10),
{
    let mut current = ty.copy();
    let mut steps: usize = 0;
    while steps < 10
        invariant
            steps <= 10,
            chase_alias(ty@, alias_view(aliases@), 10) == chase_alias(current@, alias_view(aliases@), (10 - steps) as nat),
        decreases 10 - steps,
    {
        let next = match &current {
            Type::Class(d) => find_alias(aliases, *d),
            _ => None,
        };
        match next {
            Some(t) => {
                current = t;
            },
            None => {
                return current;
            },
        }
        steps = steps + 1;
    }
    current
}

/// `string`.
pub open spec fn string_type() -> TypeV {
    TypeV::Primitive(PrimitiveType::String)
}

/// The type of `lt op rt`: `+` with a string side is string concatenation;
/// otherwise two numbers give their numeric result and anything else the
/// error type.
pub open spec fn binary_op_type(lt: TypeV, rt: TypeV, op: BinOp) -> TypeV {
    if op == BinOp::Add && (lt == string_type() || rt == string_type()) {
        string_type()
    } else if is_numeric_spec(lt) && is_numeric_spec(rt) {
        numeric_result_spec(lt, rt)
    } else {
        TypeV::Error
    }
}

/// The error `lt op rt` reports: none when it is well typed or a side is
/// already the error type.
pub open spec fn binary_op_error(lt: TypeV, rt: TypeV, op: BinOp) -> Option<Seq<char>> {
    if binary_op_type(lt, rt, op) != TypeV::Error || lt == TypeV::Error || rt == TypeV::Error {
        None
    } else if op == BinOp::Add {
        Some("operator `+` not defined for `"@ + display_name_spec(lt) + "` and `"@ + display_name_spec(rt) + "`"@)
    } else {
        Some("arithmetic operator not defined for `"@ + display_name_spec(lt) + "` and `"@ + display_name_spec(rt)
            + "`"@)
    }
}

/// The optional message as characters.
pub open spec fn message_view(m: Option<String>) -> Option<Seq<char>> {
    match m {
        Some(s) => Some(s@),
        None => None,
    }
}

/// Type checks `lt op rt` after following aliases: the result type and
/// the error to report, if any.
pub fn check_binary_op(lt: &Type, rt: &Type, op: BinOp, aliases: &Vec<(DefId, Type)>) -> (r: (Type, Option<String>))
    ensures
        ({
            let l = chase_alias(lt@, alias_view(aliases@), 10);
            let t = chase_alias(rt@, alias_view(aliases@), 10);
            r.0@ == binary_op_type(l, t, op) && message_view(r.1) == binary_op_error(l, t, op)
        }),
{
    let l = resolve_type_alias(lt, aliases);
    let t = resolve_type_alias(rt, aliases);
    let string = Type::Primitive(PrimitiveType::String);
    if op == BinOp::Add && (l.same_as(&string) || t.same_as(&string)) {
        return (string, None);
    }
    if l.is_numeric() && t.is_numeric() {
        let res = l.numeric_result(&t);
        return (res, None);
    }
    if l.is_error() || t.is_error() {
        return (Type::Error, None);
    }
    let mut msg = String::new();
    if op == BinOp::Add {
        msg.append("operator `+` not defined for `");
    } else {
        msg.append("arithmetic operator not defined for `");
    }
    let ln = l.display_name();
    msg.append(ln.as_str());
    msg.append("` and `");
    let tn = t.display_name();
    msg.append(tn.as_str());
    msg.append("`");
    (Type::Error, Some(msg))
}

/// Whether values of two primitive types can be compared.
pub open spec fn comparable(a: PrimitiveType, b: PrimitiveType) -> bool {
    ||| (a == PrimitiveType::Int || a == PrimitiveType::Float) && (b == PrimitiveType::Int || b
        == PrimitiveType::Float)
    ||| a == b && (a == PrimitiveType::String || a == PrimitiveType::Boolean || a == PrimitiveType::Date)
}

/// The error a comparison of `lt` with `rt` reports: only two primitive
/// types that cannot be compared give one.
pub open spec fn comparison_error(lt: TypeV, rt: TypeV) -> Option<Seq<char>> {
    match (lt, rt) {
        (TypeV::Primitive(a), TypeV::Primitive(b)) => if comparable(a, b) {
            None
        } else {
            Some("cannot compare `"@ + display_name_spec(lt) + "` with `"@ + display_name_spec(rt) + "`"@)
        },
        _ => None,
    }
}

/// Type checks a comparison: the error to report, if any.
pub fn check_comparison_types(lt: &Type, rt: &Type, _op: CompOp) -> (r: Option<String>)
    ensures
        message_view(r) == comparison_error(lt@, rt@),
{
    match (lt, rt) {
        (Type::Primitive(a), Type::Primitive(b)) => {
            let num_a = matches!(a, PrimitiveType::Int | PrimitiveType::Float);
            let num_b = matches!(b, PrimitiveType::Int | PrimitiveType::Float);
            let same_plain = *a == *b && matches!(a, PrimitiveType::String | PrimitiveType::Boolean | PrimitiveType::Date);
            if (num_a && num_b) || same_plain {
                None
            } else {
                let mut msg = String::new();
                msg.append("cannot compare `");
                let ln = lt.display_name();
                msg.append(ln.as_str());
                msg.append("` with `");
                let tn = rt.display_name();
                msg.append(tn.as_str());
                msg.append("`");
                Some(msg)
            }
        },
        _ => None,
    }
}

/// The type of an aggregation of kind `kind` over values of type `t`; an
/// expression that is no aggregation has the error type.
pub open spec fn aggregation_type(kind: Option<AggKind>, t: TypeV) -> TypeV {
    match kind {
        None => TypeV::Error,
        Some(k) => match k {
            AggKind::Count | AggKind::StrictCount | AggKind::Rank => TypeV::Primitive(PrimitiveType::Int),
            AggKind::Sum | AggKind::StrictSum => if is_numeric_spec(t) {
                t
            } else {
                TypeV::Primitive(PrimitiveType::Int)
            },
            AggKind::Avg => TypeV::Primitive(PrimitiveType::Float),
            AggKind::Min | AggKind::Max | AggKind::Unique | AggKind::Any => t,
            AggKind::Concat | AggKind::StrictConcat => string_type(),
        },
    }
}

/// The result type of an aggregation.
pub fn aggregation_result_type(kind: Option<AggKind>, expr_ty: &Type) -> (r: Type)
    ensures
        r@ == aggregation_type(kind, expr_ty@),
{
    match kind {
        None => Type::Error,
        Some(k) => match k {
            AggKind::Count | AggKind::StrictCount | AggKind::Rank => Type::Primitive(PrimitiveType::Int),
            AggKind::Sum | AggKind::StrictSum => {
                if expr_ty.is_numeric() {
                    expr_ty.copy()
                } else {
                    Type::Primitive(PrimitiveType::Int)
                }
            },
            AggKind::Avg => Type::Primitive(PrimitiveType::Float),
            AggKind::Min | AggKind::Max | AggKind::Unique | AggKind::Any => expr_ty.copy(),
            AggKind::Concat | AggKind::StrictConcat => Type::Primitive(PrimitiveType::String),
        },
    }
}

} // verus!
