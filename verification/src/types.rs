//! Resolved types of the high-level IR.

use vstd::prelude::*;
use crate::def::{DefId, def_id_text};

verus! {

/// The primitive types of QL.
#[derive(Clone, Copy, Debug, PartialEq, Eq, Hash, Structural)]
pub enum PrimitiveType {
    Boolean,
    Int,
    Float,
    String,
    Date,
}

/// A resolved type.
#[derive(Clone, Debug, PartialEq, Eq, Hash)]
pub enum Type {
    /// Primitive: boolean, int, float, string, date.
    Primitive(PrimitiveType),
    /// A class type, referring to its declaration.
    Class(DefId),
    /// A database entity type (from a dbscheme).
    DbEntity(String),
    /// A newtype branch.
    NewtypeBranch(DefId),
    /// Error type (produced on type errors to prevent cascading).
    Error,
}

/// Mathematical value of a type: the entity name is taken by its characters.
pub enum TypeV {
    Primitive(PrimitiveType),
    Class(DefId),
    DbEntity(Seq<char>),
    NewtypeBranch(DefId),
    Error,
}

impl View for Type {
    type V = TypeV;

    open spec fn view(&self) -> TypeV {
        match self {
            Type::Primitive(p) => TypeV::Primitive(*p),
            Type::Class(d) => TypeV::Class(*d),
            Type::DbEntity(n) => TypeV::DbEntity(n@),
            Type::NewtypeBranch(d) => TypeV::NewtypeBranch(*d),
            Type::Error => TypeV::Error,
        }
    }
}

/// Whether a type is numeric (int or float).
pub open spec fn is_numeric_spec(t: TypeV) -> bool {
    t == TypeV::Primitive(PrimitiveType::Int) || t == TypeV::Primitive(PrimitiveType::Float)
}

/// Result type of a binary arithmetic operation.
pub open spec fn numeric_result_spec(a: TypeV, b: TypeV) -> TypeV {
    if a == TypeV::Primitive(PrimitiveType::Float) || b == TypeV::Primitive(PrimitiveType::Float) {
        TypeV::Primitive(PrimitiveType::Float)
    } else if a == TypeV::Primitive(PrimitiveType::Int) && b == TypeV::Primitive(PrimitiveType::Int) {
        TypeV::Primitive(PrimitiveType::Int)
    } else {
        TypeV::Error
    }
}

/// The name of a primitive type as written in QL.
pub open spec fn primitive_name(p: PrimitiveType) -> Seq<char> {
    match p {
        PrimitiveType::Boolean => seq!['b', 'o', 'o', 'l', 'e', 'a', 'n'],
        PrimitiveType::Int => seq!['i', 'n', 't'],
        PrimitiveType::Float => seq!['f', 'l', 'o', 'a', 't'],
        PrimitiveType::String => seq!['s', 't', 'r', 'i', 'n', 'g'],
        PrimitiveType::Date => seq!['d', 'a', 't', 'e'],
    }
}

/// Human-readable rendering of a type.
pub open spec fn display_name_spec(t: TypeV) -> Seq<char> {
    match t {
        TypeV::Primitive(p) => primitive_name(p),
        TypeV::Class(id) => seq!['c', 'l', 'a', 's', 's', '('] + def_id_text(id) + seq![')'],
        TypeV::DbEntity(n) => seq!['@'] + n,
        TypeV::NewtypeBranch(id) => seq!['n', 'e', 'w', 't', 'y', 'p', 'e', '_', 'b', 'r', 'a', 'n',
            'c', 'h', '('] + def_id_text(id) + seq![')'],
        TypeV::Error => seq!['<', 'e', 'r', 'r', 'o', 'r', '>'],
    }
}

/// Appends the name of a primitive type.
pub fn push_primitive_name(out: &mut String, p: PrimitiveType)
    ensures
        final(out)@ == old(out)@ + primitive_name(p),
{
    match p {
        PrimitiveType::Boolean => {
            out.append("boolean");
            proof { reveal_strlit("boolean"); }
        },
        PrimitiveType::Int => {
            out.append("int");
            proof { reveal_strlit("int"); }
        },
        PrimitiveType::Float => {
            out.append("float");
            proof { reveal_strlit("float"); }
        },
        PrimitiveType::String => {
            out.append("string");
            proof { reveal_strlit("string"); }
        },
        PrimitiveType::Date => {
            out.append("date");
            proof { reveal_strlit("date"); }
        },
    }
    assert(out@ =~= old(out)@ + primitive_name(p));
}

impl Type {
    /// Returns true if this type is numeric (int or float).
    pub fn is_numeric(&self) -> (r: bool)
        ensures
            r == is_numeric_spec(self@),
    {
        match self {
            Type::Primitive(PrimitiveType::Int) => true,
            Type::Primitive(PrimitiveType::Float) => true,
            _ => false,
        }
    }

    /// Returns the result type of a binary arithmetic operation.
    pub fn numeric_result(&self, other: &Type) -> (r: Type)
        ensures
            r@ == numeric_result_spec(self@, other@),
    {
        let sf = matches!(self, Type::Primitive(PrimitiveType::Float));
        let of = matches!(other, Type::Primitive(PrimitiveType::Float));
        let si = matches!(self, Type::Primitive(PrimitiveType::Int));
        let oi = matches!(other, Type::Primitive(PrimitiveType::Int));
        if sf || of {
            Type::Primitive(PrimitiveType::Float)
        } else if si && oi {
            Type::Primitive(PrimitiveType::Int)
        } else {
            Type::Error
        }
    }

    /// Human-readable name of the type.
    pub fn display_name(&self) -> (r: String)
        ensures
            r@ == display_name_spec(self@),
    {
        let mut s = String::new();
        match self {
            Type::Primitive(p) => {
                push_primitive_name(&mut s, *p);
            },
            Type::Class(id) => {
                s.append("class(");
                let t = id.to_text();
                s.append(t.as_str());
                s.append(")");
                proof {
                    reveal_strlit("class(");
                    reveal_strlit(")");
                }
            },
            Type::DbEntity(n) => {
                s.append("@");
                s.append(n.as_str());
                proof { reveal_strlit("@"); }
            },
            Type::NewtypeBranch(id) => {
                s.append("newtype_branch(");
                let t = id.to_text();
                s.append(t.as_str());
                s.append(")");
                proof {
                    reveal_strlit("newtype_branch(");
                    reveal_strlit(")");
                }
            },
            Type::Error => {
                s.append("<error>");
                proof { reveal_strlit("<error>"); }
            },
        }
        assert(s@ =~= display_name_spec(self@));
        s
    }

    /// Structural equality of types (entity names compared by content).
    pub fn same_as(&self, other: &Type) -> (r: bool)
        ensures
            r == (self@ == other@),
    {
        match (self, other) {
            (Type::Primitive(a), Type::Primitive(b)) => *a == *b,
            (Type::Class(a), Type::Class(b)) => *a == *b,
            (Type::DbEntity(a), Type::DbEntity(b)) => *a == *b,
            (Type::NewtypeBranch(a), Type::NewtypeBranch(b)) => *a == *b,
            (Type::Error, Type::Error) => true,
            _ => false,
        }
    }

    /// Whether this is the error type.
    pub fn is_error(&self) -> (r: bool)
        ensures
            r == (self@ == TypeV::Error),
    {
        matches!(self, Type::Error)
    }

    /// A copy of the type.
    pub fn copy(&self) -> (r: Type)
        ensures
            r@ == self@,
    {
        match self {
            Type::Primitive(p) => Type::Primitive(*p),
            Type::Class(d) => Type::Class(*d),
            Type::DbEntity(n) => Type::DbEntity(n.clone()),
            Type::NewtypeBranch(d) => Type::NewtypeBranch(*d),
            Type::Error => Type::Error,
        }
    }
}

} // verus!
