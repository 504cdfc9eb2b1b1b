//! The builtin types and predicates: member predicates of the primitive
//! types and a few global predicates, each with a declaration in the
//! builtin file.

use vstd::prelude::*;
use crate::def::{DefId, DefKind, FileId, LocalDefId, DefInfo};
use crate::diagnostics::{Span, dummy_span};
use crate::namespace::{ModuleNamespaces, PredicateInfo, PredicateV, result_view};
use crate::types::{Type, TypeV, PrimitiveType};
use crate::text::copy_str;

verus! {

/// The file number of builtin declarations.
pub open spec fn builtin_file_spec() -> FileId {
    FileId(0xffff_ffffu32)
}

/// The file of builtin declarations.
pub fn builtin_file() -> (r: FileId)
    ensures
        r == builtin_file_spec(),
{
    FileId(0xffff_ffffu32)
}

/// A builtin predicate: its key (a member predicate's is the type's name,
/// `::` and the predicate's name), arity, result type and kind, in the
/// order of registration.
pub type BuiltinEntry = (Seq<char>, usize, Option<TypeV>, DefKind);

/// The builtin predicates, member predicates first.
pub open spec fn builtin_entries() -> Seq<BuiltinEntry> {
    seq![
        ("string"@ + "::"@ + "length"@, 0usize, Some(TypeV::Primitive(PrimitiveType::Int)), DefKind::MemberPredicate),
        ("string"@ + "::"@ + "charAt"@, 1usize, Some(TypeV::Primitive(PrimitiveType::String)), DefKind::MemberPredicate),
        ("string"@ + "::"@ + "indexOf"@, 1usize, Some(TypeV::Primitive(PrimitiveType::Int)), DefKind::MemberPredicate),
        ("string"@ + "::"@ + "substring"@, 2usize, Some(TypeV::Primitive(PrimitiveType::String)), DefKind::MemberPredicate),
        ("string"@ + "::"@ + "toUpperCase"@, 0usize, Some(TypeV::Primitive(PrimitiveType::String)), DefKind::MemberPredicate),
        ("string"@ + "::"@ + "toLowerCase"@, 0usize, Some(TypeV::Primitive(PrimitiveType::String)), DefKind::MemberPredicate),
        ("string"@ + "::"@ + "trim"@, 0usize, Some(TypeV::Primitive(PrimitiveType::String)), DefKind::MemberPredicate),
        ("string"@ + "::"@ + "replaceAll"@, 2usize, Some(TypeV::Primitive(PrimitiveType::String)), DefKind::MemberPredicate),
        ("string"@ + "::"@ + "regexpMatch"@, 1usize, None, DefKind::MemberPredicate),
        ("string"@ + "::"@ + "regexpFind"@, 3usize, Some(TypeV::Primitive(PrimitiveType::String)), DefKind::MemberPredicate),
        ("string"@ + "::"@ + "regexpReplaceAll"@, 2usize, Some(TypeV::Primitive(PrimitiveType::String)), DefKind::MemberPredicate),
        ("string"@ + "::"@ + "regexpCapture"@, 2usize, Some(TypeV::Primitive(PrimitiveType::String)), DefKind::MemberPredicate),
        ("string"@ + "::"@ + "splitAt"@, 1usize, Some(TypeV::Primitive(PrimitiveType::String)), DefKind::MemberPredicate),
        ("string"@ + "::"@ + "splitAt"@, 2usize, Some(TypeV::Primitive(PrimitiveType::String)), DefKind::MemberPredicate),
        ("string"@ + "::"@ + "prefix"@, 1usize, Some(TypeV::Primitive(PrimitiveType::String)), DefKind::MemberPredicate),
        ("string"@ + "::"@ + "suffix"@, 1usize, Some(TypeV::Primitive(PrimitiveType::String)), DefKind::MemberPredicate),
        ("string"@ + "::"@ + "matches"@, 1usize, None, DefKind::MemberPredicate),
        ("string"@ + "::"@ + "toInt"@, 0usize, Some(TypeV::Primitive(PrimitiveType::Int)), DefKind::MemberPredicate),
        ("string"@ + "::"@ + "toFloat"@, 0usize, Some(TypeV::Primitive(PrimitiveType::Float)), DefKind::MemberPredicate),
        ("string"@ + "::"@ + "toString"@, 0usize, Some(TypeV::Primitive(PrimitiveType::String)), DefKind::MemberPredicate),
        ("string"@ + "::"@ + "isLowercase"@, 0usize, None, DefKind::MemberPredicate),
        ("string"@ + "::"@ + "isUppercase"@, 0usize, None, DefKind::MemberPredicate),
        ("int"@ + "::"@ + "toString"@, 0usize, Some(TypeV::Primitive(PrimitiveType::String)), DefKind::MemberPredicate),
        ("int"@ + "::"@ + "abs"@, 0usize, Some(TypeV::Primitive(PrimitiveType::Int)), DefKind::MemberPredicate),
        ("int"@ + "::"@ + "minimum"@, 1usize, Some(TypeV::Primitive(PrimitiveType::Int)), DefKind::MemberPredicate),
        ("int"@ + "::"@ + "maximum"@, 1usize, Some(TypeV::Primitive(PrimitiveType::Int)), DefKind::MemberPredicate),
        ("int"@ + "::"@ + "bitAnd"@, 1usize, Some(TypeV::Primitive(PrimitiveType::Int)), DefKind::MemberPredicate),
        ("int"@ + "::"@ + "bitOr"@, 1usize, Some(TypeV::Primitive(PrimitiveType::Int)), DefKind::MemberPredicate),
        ("int"@ + "::"@ + "bitXor"@, 1usize, Some(TypeV::Primitive(PrimitiveType::Int)), DefKind::MemberPredicate),
        ("int"@ + "::"@ + "bitNot"@, 0usize, Some(TypeV::Primitive(PrimitiveType::Int)), DefKind::MemberPredicate),
        ("int"@ + "::"@ + "bitShiftLeft"@, 1usize, Some(TypeV::Primitive(PrimitiveType::Int)), DefKind::MemberPredicate),
        ("int"@ + "::"@ + "bitShiftRight"@, 1usize, Some(TypeV::Primitive(PrimitiveType::Int)), DefKind::MemberPredicate),
        ("int"@ + "::"@ + "bitShiftRightSigned"@, 1usize, Some(TypeV::Primitive(PrimitiveType::Int)), DefKind::MemberPredicate),
        ("int"@ + "::"@ + "toFloat"@, 0usize, Some(TypeV::Primitive(PrimitiveType::Float)), DefKind::MemberPredicate),
        ("float"@ + "::"@ + "toString"@, 0usize, Some(TypeV::Primitive(PrimitiveType::String)), DefKind::MemberPredicate),
        ("float"@ + "::"@ + "abs"@, 0usize, Some(TypeV::Primitive(PrimitiveType::Float)), DefKind::MemberPredicate),
        ("float"@ + "::"@ + "floor"@, 0usize, Some(TypeV::Primitive(PrimitiveType::Int)), DefKind::MemberPredicate),
        ("float"@ + "::"@ + "ceil"@, 0usize, Some(TypeV::Primitive(PrimitiveType::Int)), DefKind::MemberPredicate),
        ("float"@ + "::"@ + "sqrt"@, 0usize, Some(TypeV::Primitive(PrimitiveType::Float)), DefKind::MemberPredicate),
        ("float"@ + "::"@ + "log"@, 0usize, Some(TypeV::Primitive(PrimitiveType::Float)), DefKind::MemberPredicate),
        ("float"@ + "::"@ + "minimum"@, 1usize, Some(TypeV::Primitive(PrimitiveType::Float)), DefKind::MemberPredicate),
        ("float"@ + "::"@ + "maximum"@, 1usize, Some(TypeV::Primitive(PrimitiveType::Float)), DefKind::MemberPredicate),
        ("boolean"@ + "::"@ + "toString"@, 0usize, Some(TypeV::Primitive(PrimitiveType::String)), DefKind::MemberPredicate),
        ("boolean"@ + "::"@ + "booleanNot"@, 0usize, Some(TypeV::Primitive(PrimitiveType::Boolean)), DefKind::MemberPredicate),
        ("boolean"@ + "::"@ + "booleanAnd"@, 1usize, Some(TypeV::Primitive(PrimitiveType::Boolean)), DefKind::MemberPredicate),
        ("boolean"@ + "::"@ + "booleanOr"@, 1usize, Some(TypeV::Primitive(PrimitiveType::Boolean)), DefKind::MemberPredicate),
        ("boolean"@ + "::"@ + "booleanXor"@, 1usize, Some(TypeV::Primitive(PrimitiveType::Boolean)), DefKind::MemberPredicate),
        ("underlyingElement"@, 1usize, Some(TypeV::Error), DefKind::Predicate),
        ("mkElement"@, 1usize, Some(TypeV::Error), DefKind::Predicate),
        ("unreachable"@, 0usize, None, DefKind::Predicate),
        ("none"@, 0usize, None, DefKind::Predicate),
        ("any"@, 0usize, None, DefKind::Predicate),
        ("toUrl"@, 5usize, Some(TypeV::Primitive(PrimitiveType::String)), DefKind::Predicate),
        ("toUrl"@, 6usize, Some(TypeV::Primitive(PrimitiveType::String)), DefKind::Predicate),
        ("unresolveElement"@, 1usize, Some(TypeV::Error), DefKind::Predicate),
    ]
}

/// The declaration of the `k`-th builtin.
pub open spec fn builtin_id(k: int) -> DefId {
    DefId { file: builtin_file_spec(), local: LocalDefId(k as u32) }
}

/// The predicate namespace after registering the first `k` builtins: each
/// key and arity bound to its declaration, result type and arity.
pub open spec fn builtin_preds(e: Seq<BuiltinEntry>, k: int) -> Map<(Seq<char>, usize), PredicateV>
    decreases k,
{
    if k <= 0 || k > e.len() {
        Map::empty()
    } else {
        builtin_preds(e, k - 1).insert((e[k - 1].0, e[k - 1].1), (builtin_id(k - 1), e[k - 1].2, e[k - 1].1))
    }
}

/// A declaration as its identifier, kind, name and span.
pub open spec fn def_info_view(d: DefInfo) -> (DefId, DefKind, Seq<char>, Span) {
    (d.id, d.kind, d.name@, d.span)
}

/// The declarations of the first `k` builtins.
pub open spec fn builtin_defs(e: Seq<BuiltinEntry>, k: int) -> Seq<(DefId, DefKind, Seq<char>, Span)> {
    Seq::new(k as nat, |i: int| (builtin_id(i), e[i].3, e[i].0, dummy_span()))
}

/// The builtin namespace and declarations.
pub struct Builtins {
    /// The namespace holding the builtin predicates.
    pub namespaces: ModuleNamespaces,
    /// The declarations of the builtins.
    pub defs: Vec<DefInfo>,
}

struct BuiltinAlloc {
    next: u32,
    defs: Vec<DefInfo>,
}

impl BuiltinAlloc {
    fn allocate(&mut self, kind: DefKind, name: String) -> (id: DefId)
        requires
            old(self).next < u32::MAX,
        ensures
            id == (DefId { file: builtin_file_spec(), local: LocalDefId(old(self).next) }),
            final(self).next == old(self).next + 1,
            final(self).defs@.map_values(|d: DefInfo| def_info_view(d)) == old(self).defs@.map_values(
                |d: DefInfo| def_info_view(d),
            ).push((id, kind, name@, dummy_span())),
    {
        let id = DefId { file: builtin_file(), local: LocalDefId(self.next) };
        self.next = self.next + 1;
        let ghost before = self.defs@;
        let ghost nm = name@;
        self.defs.push(DefInfo { id, kind, name, span: Span::dummy() });
        assert(self.defs@.map_values(|d: DefInfo| def_info_view(d)) =~= before.map_values(|d: DefInfo| def_info_view(d)).push(
            (id, kind, nm, dummy_span()),
        ));
        id
    }
}

fn member_table() -> (r: Vec<(&'static str, &'static str, usize, Option<Type>)>)
    ensures
        r@.len() == 47,
        forall|i: int| 0 <= i < 47 ==> {
            let (t, p, a, res) = #[trigger] r@[i];
            builtin_entries()[i] == (t@ + "::"@ + p@, a, result_view(res), DefKind::MemberPredicate)
        },
{
    let r = vec![
        ("string", "length", 0usize, Some(Type::Primitive(PrimitiveType::Int))),
        ("string", "charAt", 1usize, Some(Type::Primitive(PrimitiveType::String))),
        ("string", "indexOf", 1usize, Some(Type::Primitive(PrimitiveType::Int))),
        ("string", "substring", 2usize, Some(Type::Primitive(PrimitiveType::String))),
        ("string", "toUpperCase", 0usize, Some(Type::Primitive(PrimitiveType::String))),
        ("string", "toLowerCase", 0usize, Some(Type::Primitive(PrimitiveType::String))),
        ("string", "trim", 0usize, Some(Type::Primitive(PrimitiveType::String))),
        ("string", "replaceAll", 2usize, Some(Type::Primitive(PrimitiveType::String))),
        ("string", "regexpMatch", 1usize, None),
        ("string", "regexpFind", 3usize, Some(Type::Primitive(PrimitiveType::String))),
        ("string", "regexpReplaceAll", 2usize, Some(Type::Primitive(PrimitiveType::String))),
        ("string", "regexpCapture", 2usize, Some(Type::Primitive(PrimitiveType::String))),
        ("string", "splitAt", 1usize, Some(Type::Primitive(PrimitiveType::String))),
        ("string", "splitAt", 2usize, Some(Type::Primitive(PrimitiveType::String))),
        ("string", "prefix", 1usize, Some(Type::Primitive(PrimitiveType::String))),
        ("string", "suffix", 1usize, Some(Type::Primitive(PrimitiveType::String))),
        ("string", "matches", 1usize, None),
        ("string", "toInt", 0usize, Some(Type::Primitive(PrimitiveType::Int))),
        ("string", "toFloat", 0usize, Some(Type::Primitive(PrimitiveType::Float))),
        ("string", "toString", 0usize, Some(Type::Primitive(PrimitiveType::String))),
        ("string", "isLowercase", 0usize, None),
        ("string", "isUppercase", 0usize, None),
        ("int", "toString", 0usize, Some(Type::Primitive(PrimitiveType::String))),
        ("int", "abs", 0usize, Some(Type::Primitive(PrimitiveType::Int))),
        ("int", "minimum", 1usize, Some(Type::Primitive(PrimitiveType::Int))),
        ("int", "maximum", 1usize, Some(Type::Primitive(PrimitiveType::Int))),
        ("int", "bitAnd", 1usize, Some(Type::Primitive(PrimitiveType::Int))),
        ("int", "bitOr", 1usize, Some(Type::Primitive(PrimitiveType::Int))),
        ("int", "bitXor", 1usize, Some(Type::Primitive(PrimitiveType::Int))),
        ("int", "bitNot", 0usize, Some(Type::Primitive(PrimitiveType::Int))),
        ("int", "bitShiftLeft", 1usize, Some(Type::Primitive(PrimitiveType::Int))),
        ("int", "bitShiftRight", 1usize, Some(Type::Primitive(PrimitiveType::Int))),
        ("int", "bitShiftRightSigned", 1usize, Some(Type::Primitive(PrimitiveType::Int))),
        ("int", "toFloat", 0usize, Some(Type::Primitive(PrimitiveType::Float))),
        ("float", "toString", 0usize, Some(Type::Primitive(PrimitiveType::String))),
        ("float", "abs", 0usize, Some(Type::Primitive(PrimitiveType::Float))),
        ("float", "floor", 0usize, Some(Type::Primitive(PrimitiveType::Int))),
        ("float", "ceil", 0usize, Some(Type::Primitive(PrimitiveType::Int))),
        ("float", "sqrt", 0usize, Some(Type::Primitive(PrimitiveType::Float))),
        ("float", "log", 0usize, Some(Type::Primitive(PrimitiveType::Float))),
        ("float", "minimum", 1usize, Some(Type::Primitive(PrimitiveType::Float))),
        ("float", "maximum", 1usize, Some(Type::Primitive(PrimitiveType::Float))),
        ("boolean", "toString", 0usize, Some(Type::Primitive(PrimitiveType::String))),
        ("boolean", "booleanNot", 0usize, Some(Type::Primitive(PrimitiveType::Boolean))),
        ("boolean", "booleanAnd", 1usize, Some(Type::Primitive(PrimitiveType::Boolean))),
        ("boolean", "booleanOr", 1usize, Some(Type::Primitive(PrimitiveType::Boolean))),
        ("boolean", "booleanXor", 1usize, Some(Type::Primitive(PrimitiveType::Boolean))),
    ];
    assert(r@.len() == 47);
    r
}

fn global_table() -> (r: Vec<(&'static str, usize, Option<Type>)>)
    ensures
        r@.len() == 8,
        forall|i: int| 0 <= i < 8 ==> {
            let (p, a, res) = #[trigger] r@[i];
            builtin_entries()[47 + i] == (p@, a, result_view(res), DefKind::Predicate)
        },
{
    let r = vec![
        ("underlyingElement", 1usize, Some(Type::Error)),
        ("mkElement", 1usize, Some(Type::Error)),
        ("unreachable", 0usize, None),
        ("none", 0usize, None),
        ("any", 0usize, None),
        ("toUrl", 5usize, Some(Type::Primitive(PrimitiveType::String))),
        ("toUrl", 6usize, Some(Type::Primitive(PrimitiveType::String))),
        ("unresolveElement", 1usize, Some(Type::Error)),
    ];
    r
}

fn copy_result(r: &Option<Type>) -> (o: Option<Type>)
    ensures
        result_view(o) == result_view(*r),
{
    match r {
        Some(t) => Some(t.copy()),
        None => None,
    }
}

fn register(
    alloc: &mut BuiltinAlloc,
    ns: &mut ModuleNamespaces,
    key: String,
    arity: usize,
    result_type: Option<Type>,
    kind: DefKind,
)
    requires
        old(alloc).next < u32::MAX,
    ensures
        final(alloc).next == old(alloc).next + 1,
        final(alloc).defs@.map_values(|d: DefInfo| def_info_view(d)) == old(alloc).defs@.map_values(
            |d: DefInfo| def_info_view(d),
        ).push((DefId { file: builtin_file_spec(), local: LocalDefId(old(alloc).next) }, kind, key@, dummy_span())),
        final(ns).predicates() == old(ns).predicates().insert(
            (key@, arity),
            (DefId { file: builtin_file_spec(), local: LocalDefId(old(alloc).next) }, result_view(result_type), arity),
        ),
        final(ns).types() == old(ns).types(),
        final(ns).modules() == old(ns).modules(),
{
    let name = copy_str(key.as_str());
    let id = alloc.allocate(kind, name);
    let ghost rv = result_view(result_type);
    let info = PredicateInfo { def_id: id, result_type, arity };
    assert(info.v() == (id, rv, arity));
    ns.insert_predicate(key.as_str(), arity, info);
}

impl Builtins {
    /// The builtins: each entry of `builtin_entries`, in order, gets the
    /// next declaration of the builtin file and is bound under its key and
    /// arity in the predicate namespace.
    pub fn new() -> (r: Builtins)
        ensures
            r.namespaces.predicates() == builtin_preds(builtin_entries(), 55),
            r.namespaces.types() == Map::<Seq<char>, DefId>::empty(),
            r.namespaces.modules() == Map::<Seq<char>, DefId>::empty(),
            r.defs@.map_values(|d: DefInfo| def_info_view(d)) == builtin_defs(builtin_entries(), 55),
    {
        let mut alloc = BuiltinAlloc { next: 0, defs: Vec::new() };
        let mut ns = ModuleNamespaces::new();
        assert(alloc.defs@.map_values(|d: DefInfo| def_info_view(d)) =~= builtin_defs(builtin_entries(), 0));
        let members = member_table();
        let mut i: usize = 0;
        while i < members.len()
            invariant
                members@.len() == 47,
                forall|q: int| 0 <= q < 47 ==> {
                    let (t, p, a, res) = #[trigger] members@[q];
                    builtin_entries()[q] == (t@ + "::"@ + p@, a, result_view(res), DefKind::MemberPredicate)
                },
                i <= 47,
                alloc.next == i,
                ns.predicates() == builtin_preds(builtin_entries(), i as int),
                ns.types() == Map::<Seq<char>, DefId>::empty(),
                ns.modules() == Map::<Seq<char>, DefId>::empty(),
                alloc.defs@.map_values(|d: DefInfo| def_info_view(d)) == builtin_defs(builtin_entries(), i as int),
            decreases 47 - i,
        {
            let entry = &members[i];
            let mut key = copy_str(entry.0);
            key.append("::");
            key.append(entry.1);
            let res = copy_result(&entry.3);
            let ghost e = builtin_entries()[i as int];
            assert(e == (entry.0@ + "::"@ + entry.1@, entry.2, result_view(entry.3), DefKind::MemberPredicate));
            register(&mut alloc, &mut ns, key, entry.2, res, DefKind::MemberPredicate);
            assert(alloc.defs@.map_values(|d: DefInfo| def_info_view(d)) =~= builtin_defs(builtin_entries(), i + 1));
            i = i + 1;
        }
        let globals = global_table();
        let mut j: usize = 0;
        while j < globals.len()
            invariant
                globals@.len() == 8,
                forall|q: int| 0 <= q < 8 ==> {
                    let (p, a, res) = #[trigger] globals@[q];
                    builtin_entries()[47 + q] == (p@, a, result_view(res), DefKind::Predicate)
                },
                j <= 8,
                alloc.next == 47 + j,
                ns.predicates() == builtin_preds(builtin_entries(), 47 + j),
                ns.types() == Map::<Seq<char>, DefId>::empty(),
                ns.modules() == Map::<Seq<char>, DefId>::empty(),
                alloc.defs@.map_values(|d: DefInfo| def_info_view(d)) == builtin_defs(builtin_entries(), 47 + j),
            decreases 8 - j,
        {
            let entry = &globals[j];
            let key = copy_str(entry.0);
            let res = copy_result(&entry.2);
            let ghost e = builtin_entries()[47 + j];
            assert(e == (entry.0@, entry.1, result_view(entry.2), DefKind::Predicate));
            register(&mut alloc, &mut ns, key, entry.1, res, DefKind::Predicate);
            assert(alloc.defs@.map_values(|d: DefInfo| def_info_view(d)) =~= builtin_defs(builtin_entries(), 47 + j + 1));
            j = j + 1;
        }
        Builtins { namespaces: ns, defs: alloc.defs }
    }
}

} // verus!
