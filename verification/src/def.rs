//! Identifiers for files and declarations.

use vstd::prelude::*;
use crate::diagnostics::Span;

verus! {

/// Identifies a source file in the project.
#[derive(Clone, Copy, Debug, PartialEq, Eq, Hash, Structural)]
pub struct FileId(pub u32);

/// Identifies a declaration within a file.
#[derive(Clone, Copy, Debug, PartialEq, Eq, Hash, Structural)]
pub struct LocalDefId(pub u32);

/// Globally unique identifier for any declaration.
#[derive(Clone, Copy, Debug, PartialEq, Eq, Hash, Structural)]
pub struct DefId {
    pub file: FileId,
    pub local: LocalDefId,
}

/// What kind of thing a `DefId` refers to.
#[derive(Clone, Copy, Debug, PartialEq, Eq, Structural)]
pub enum DefKind {
    /// A non-member predicate.
    Predicate,
    /// A member predicate (in a class).
    MemberPredicate,
    /// A characteristic predicate.
    CharPredicate,
    /// A class declaration.
    Class,
    /// A class field.
    Field,
    /// An explicit module.
    Module,
    /// A newtype declaration.
    Newtype,
    /// A newtype branch.
    NewtypeBranch,
    /// A variable (parameter, quantifier-bound, from-clause).
    Variable,
    /// A type alias.
    TypeAlias,
    /// A module alias.
    ModuleAlias,
    /// A predicate alias.
    PredicateAlias,
}

/// A declaration: its identifier, kind, name and where it stands.
#[derive(Debug)]
pub struct DefInfo {
    pub id: DefId,
    pub kind: DefKind,
    pub name: String,
    pub span: Span,
}

/// The text `DefId(<file>.<local>)` that identifies a declaration in messages.
pub open spec fn def_id_text(id: DefId) -> Seq<char> {
    seq!['D', 'e', 'f', 'I', 'd', '('] + crate::text::decimal(id.file.0 as nat) + seq!['.']
        + crate::text::decimal(id.local.0 as nat) + seq![')']
}

impl DefId {
    /// Renders the identifier as `DefId(<file>.<local>)`.
    pub fn to_text(&self) -> (r: String)
        ensures
            r@ == def_id_text(*self),
    {
        let mut s = String::new();
        s.append("DefId(");
        crate::text::push_decimal(&mut s, self.file.0 as u64);
        s.append(".");
        crate::text::push_decimal(&mut s, self.local.0 as u64);
        s.append(")");
        proof {
            reveal_strlit("DefId(");
            reveal_strlit(".");
            reveal_strlit(")");
        }
        assert(s@ =~= def_id_text(*self));
        s
    }
}

} // verus!
