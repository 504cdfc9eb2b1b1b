//! Declaration collection: the walk over a file's syntax tree that gives
//! every declaration a `DefId` and binds its name in the file's
//! namespaces.

use vstd::prelude::*;
use crate::ast::{ClassDecl, ClassMember, ModuleMember, NewtypeBranch, Predicate, SourceFile, TypeExpr, TypeExprKind};
use crate::def::{DefId, DefInfo, DefKind, FileId, LocalDefId};
use crate::diagnostics::Span;
use crate::namespace::{ModuleNamespaces, PredicateInfo, PredicateV};
use crate::resolve::alias_of;
use crate::text::copy_str;
use crate::types::{Type, TypeV};

verus! {

/// A declaration as its identifier, kind, name and span.
pub type DefV = (DefId, DefKind, Seq<char>, Span);

/// The view of a declaration record.
pub open spec fn def_view(d: DefInfo) -> DefV {
    (d.id, d.kind, d.name@, d.span)
}

/// What collection has produced so far: the next local number, the
/// declarations in order, and the namespaces.
pub struct CollectState {
    pub next: int,
    pub defs: Seq<DefV>,
    pub types: Map<Seq<char>, DefId>,
    pub preds: Map<(Seq<char>, usize), PredicateV>,
    pub modules: Map<Seq<char>, DefId>,
    pub aliases: Seq<(DefId, TypeV)>,
}

/// Collection of a file starts with nothing.
pub open spec fn collect_start() -> CollectState {
    CollectState {
        next: 0,
        defs: Seq::empty(),
        types: Map::empty(),
        preds: Map::empty(),
        modules: Map::empty(),
        aliases: Seq::empty(),
    }
}

/// The declarations are numbered in order: the `i`-th one recorded is
/// local number `i` of the file, and the next number follows the last.
pub open spec fn numbered(file: FileId, s: CollectState) -> bool {
    &&& s.defs.len() == s.next
    &&& forall|i: int| 0 <= i < s.defs.len() ==> (#[trigger] s.defs[i]).0 == (DefId { file, local: LocalDefId(i as u32) })
}

/// A primitive written type, as a type; `None` for any other.
pub open spec fn simple_type(te: TypeExpr) -> Option<TypeV> {
    match te.kind {
        TypeExprKind::Primitive(p) => Some(TypeV::Primitive(p)),
        _ => None,
    }
}

/// The type a written type has without name resolution: primitives and
/// database types as written, named types the error type.
pub open spec fn simple_type_expr(te: TypeExpr) -> TypeV {
    match te.kind {
        TypeExprKind::Primitive(p) => TypeV::Primitive(p),
        TypeExprKind::Database(name) => TypeV::DbEntity(name@),
        _ => TypeV::Error,
    }
}

/// A new declaration: the next local number of `file`, recorded with
/// its kind, name and span.
pub open spec fn alloc_next(file: FileId, s: CollectState, kind: DefKind, name: Seq<char>, span: Span) -> (CollectState, DefId) {
    let id = DefId { file, local: LocalDefId(s.next as u32) };
    (CollectState { next: s.next + 1, defs: s.defs.push((id, kind, name, span)), ..s }, id)
}

/// The result type recorded for a predicate with this written result.
pub open spec fn result_of(rt: Option<TypeExpr>) -> Option<TypeV> {
    match rt {
        Some(te) => Some(simple_type_expr(te)),
        None => None,
    }
}

/// Collection of a predicate: bound by its name and arity.
pub open spec fn coll_predicate(file: FileId, s: CollectState, p: Predicate) -> CollectState {
    let arity = p.head.params@.len() as usize;
    let (s1, id) = alloc_next(file, s, DefKind::Predicate, p.head.name.name@, p.span);
    CollectState { preds: s1.preds.insert((p.head.name.name@, arity), (id, result_of(p.head.result_type), arity)), ..s1 }
}

/// The primitive type a class stands for through its supertypes: the
/// first supertype that is a primitive, or a name bound to a declaration
/// that stands for one.
pub open spec fn supertype_alias(s: CollectState, sups: Seq<TypeExpr>) -> Option<TypeV>
    decreases sups.len(),
{
    if sups.len() == 0 {
        None
    } else {
        match simple_type(sups[0]) {
            Some(t) => Some(t),
            None => {
                let via_name = match sups[0].kind {
                    TypeExprKind::ClassName(n) => if s.types.dom().contains(n.name@) {
                        alias_of(s.aliases, s.types[n.name@])
                    } else {
                        None
                    },
                    _ => None,
                };
                match via_name {
                    Some(t) => Some(t),
                    None => supertype_alias(s, sups.subrange(1, sups.len() as int)),
                }
            },
        }
    }
}

/// The predicate-namespace key of a member predicate: `Class::name`.
pub open spec fn member_key(class: Seq<char>, pred: Seq<char>) -> Seq<char> {
    class + "::"@ + pred
}

/// Collection of one class member.
pub open spec fn coll_class_member(file: FileId, s: CollectState, class: Seq<char>, m: ClassMember) -> CollectState {
    match m {
        ClassMember::CharacteristicPredicate { name, span, .. } => alloc_next(file, s, DefKind::CharPredicate, name.name@, span).0,
        ClassMember::MemberPredicate(p) => {
            let arity = p.head.params@.len() as usize;
            let (s1, id) = alloc_next(file, s, DefKind::MemberPredicate, p.head.name.name@, p.span);
            CollectState {
                preds: s1.preds.insert((member_key(class, p.head.name.name@), arity), (id, result_of(p.head.result_type), arity)),
                ..s1
            }
        },
        ClassMember::Field { name, span, .. } => alloc_next(file, s, DefKind::Field, name.name@, span).0,
    }
}

/// Collection of class members in order.
pub open spec fn coll_class_members(file: FileId, s: CollectState, class: Seq<char>, ms: Seq<ClassMember>) -> CollectState
    decreases ms.len(),
{
    if ms.len() == 0 {
        s
    } else {
        coll_class_member(file, coll_class_members(file, s, class, ms.drop_last()), class, ms.last())
    }
}

/// Collection of a class: the class is bound as a type, recorded as
/// standing for the primitive its supertypes give, and its members follow.
pub open spec fn coll_class(file: FileId, s: CollectState, c: ClassDecl) -> CollectState {
    let (s1, id) = alloc_next(file, s, DefKind::Class, c.name.name@, c.span);
    let s2 = CollectState { types: s1.types.insert(c.name.name@, id), ..s1 };
    let s3 = match supertype_alias(s2, c.supertypes@) {
        Some(t) => CollectState { aliases: seq![(id, t)] + s2.aliases, ..s2 },
        None => s2,
    };
    coll_class_members(file, s3, c.name.name@, c.members@)
}

/// Collection of newtype branches: each bound as a type.
pub open spec fn coll_branches(file: FileId, s: CollectState, bs: Seq<NewtypeBranch>) -> CollectState
    decreases bs.len(),
{
    if bs.len() == 0 {
        s
    } else {
        let s0 = coll_branches(file, s, bs.drop_last());
        let (s1, id) = alloc_next(file, s0, DefKind::NewtypeBranch, bs.last().name.name@, bs.last().span);
        CollectState { types: s1.types.insert(bs.last().name.name@, id), ..s1 }
    }
}

/// The result type a predicate alias gets: its target's, when the target
/// is found here with one; otherwise the error type for a qualified
/// target, and none for a plain one.
pub open spec fn alias_result(s: CollectState, parts: Seq<String>, own: Seq<char>, arity: usize) -> Option<TypeV> {
    let target = if parts.len() > 0 { parts.last()@ } else { own };
    let found = if s.preds.dom().contains((target, arity)) { s.preds[(target, arity)].1 } else { None };
    match found {
        Some(t) => Some(t),
        None => if parts.len() > 1 { Some(TypeV::Error) } else { None },
    }
}

/// Collection of a module member.
pub open spec fn coll_member(file: FileId, s: CollectState, m: ModuleMember) -> CollectState
    decreases m,
{
    match m {
        ModuleMember::Predicate(p) => coll_predicate(file, s, p),
        ModuleMember::Class(c) => coll_class(file, s, c),
        ModuleMember::Module(md) => {
            let (s1, id) = alloc_next(file, s, DefKind::Module, md.name.name@, md.span);
            let s2 = CollectState { modules: s1.modules.insert(md.name.name@, id), ..s1 };
            coll_members(file, s2, md.members@)
        },
        ModuleMember::Newtype(nt) => {
            let (s1, id) = alloc_next(file, s, DefKind::Newtype, nt.name.name@, nt.span);
            let s2 = CollectState { types: s1.types.insert(nt.name.name@, id), ..s1 };
            coll_branches(file, s2, nt.branches@)
        },
        ModuleMember::TypeAlias(ta) => {
            let (s1, id) = alloc_next(file, s, DefKind::TypeAlias, ta.name.name@, ta.span);
            let s2 = CollectState { types: s1.types.insert(ta.name.name@, id), ..s1 };
            match simple_type(ta.target) {
                Some(t) => CollectState { aliases: seq![(id, t)] + s2.aliases, ..s2 },
                None => s2,
            }
        },
        ModuleMember::ModuleAlias(ma) => {
            let (s1, id) = alloc_next(file, s, DefKind::ModuleAlias, ma.name.name@, ma.span);
            CollectState { modules: s1.modules.insert(ma.name.name@, id), ..s1 }
        },
        ModuleMember::PredicateAlias(pa) => {
            let arity = pa.target_arity as usize;
            let (s1, id) = alloc_next(file, s, DefKind::PredicateAlias, pa.name.name@, pa.span);
            let rt = alias_result(s1, pa.target_parts@, pa.name.name@, arity);
            CollectState { preds: s1.preds.insert((pa.name.name@, arity), (id, rt, arity)), ..s1 }
        },
        _ => s,
    }
}

/// Collection of module members in order.
pub open spec fn coll_members(file: FileId, s: CollectState, ms: Seq<ModuleMember>) -> CollectState
    decreases ms,
{
    if ms.len() == 0 {
        s
    } else {
        coll_member(file, coll_members(file, s, ms.drop_last()), ms.last())
    }
}

/// The declarations collection gives a `DefId`: each predicate, class
/// (with each of its members), module, newtype (with each branch) and
/// alias.
pub open spec fn decl_count(m: ModuleMember) -> int
    decreases m,
{
    match m {
        ModuleMember::Predicate(_) => 1,
        ModuleMember::Class(cl) => 1 + cl.members@.len() as int,
        ModuleMember::Module(md) => 1 + decl_counts(md.members@),
        ModuleMember::Newtype(nt) => 1 + nt.branches@.len() as int,
        ModuleMember::TypeAlias(_) => 1,
        ModuleMember::ModuleAlias(_) => 1,
        ModuleMember::PredicateAlias(_) => 1,
        _ => 0,
    }
}

/// The declarations of a list of members.
pub open spec fn decl_counts(ms: Seq<ModuleMember>) -> int
    decreases ms,
{
    if ms.len() == 0 {
        0
    } else {
        decl_counts(ms.drop_last()) + decl_count(ms.last())
    }
}

/// Walks a file's syntax tree, giving each declaration a `DefId` and
/// binding it in the file's namespaces.
pub struct DeclarationCollector {
    file_id: FileId,
    next_local: u32,
    defs: Vec<DefInfo>,
    pub namespaces: ModuleNamespaces,
}

impl DeclarationCollector {
    /// The file whose declarations are collected.
    pub closed spec fn file(&self) -> FileId {
        self.file_id
    }

    /// The namespaces collected into.
    pub closed spec fn ns(&self) -> ModuleNamespaces {
        self.namespaces
    }

    /// The namespaces collected into.
    pub fn namespaces(&self) -> (r: &ModuleNamespaces)
        ensures
            *r == self.ns(),
    {
        &self.namespaces
    }

    /// The collected namespaces are those the state describes.
    pub proof fn lemma_ns_state(&self)
        ensures
            self.ns().types() == self.state().types,
            self.ns().predicates() == self.state().preds,
            self.ns().modules() == self.state().modules,
            self.ns().type_aliases() == self.state().aliases,
    {
    }

    /// What has been collected.
    pub closed spec fn state(&self) -> CollectState {
        CollectState {
            next: self.next_local as int,
            defs: self.defs@.map_values(|d: DefInfo| def_view(d)),
            types: self.namespaces.types(),
            preds: self.namespaces.predicates(),
            modules: self.namespaces.modules(),
            aliases: self.namespaces.type_aliases(),
        }
    }

    /// Nothing collected yet, numbering from zero.
    pub fn new(file_id: FileId) -> (r: DeclarationCollector)
        ensures
            r.file() == file_id,
            r.state() == (CollectState {
                next: 0,
                defs: Seq::empty(),
                types: Map::empty(),
                preds: Map::empty(),
                modules: Map::empty(),
                aliases: Seq::empty(),
            }),
    {
        let r = DeclarationCollector { file_id, next_local: 0, defs: Vec::new(), namespaces: ModuleNamespaces::new() };
        assert(r.state().defs =~= Seq::<DefV>::empty());
        r
    }

    /// The next local number is a machine integer.
    pub proof fn lemma_state_bounds(&self)
        ensures
            0 <= self.state().next <= u32::MAX,
    {
    }

    /// The next local declaration number.
    pub fn next_local_id(&self) -> (r: u32)
        ensures
            r == self.state().next,
    {
        self.next_local
    }

    fn alloc_def(&mut self, kind: DefKind, name: &str, span: Span) -> (id: DefId)
        requires
            old(self).state().next < u32::MAX,
        ensures
            (final(self).state(), id) == alloc_next(old(self).file(), old(self).state(), kind, name@, span),
            final(self).file() == old(self).file(),
    {
        let id = DefId { file: self.file_id, local: LocalDefId(self.next_local) };
        self.next_local = self.next_local + 1;
        let ghost before = self.defs@;
        self.defs.push(DefInfo { id, kind, name: copy_str(name), span });
        assert(self.defs@.map_values(|d: DefInfo| def_view(d)) =~= before.map_values(|d: DefInfo| def_view(d)).push(
            (id, kind, name@, span),
        ));
        id
    }

    /// Collects every member of a file.
    pub fn collect_source_file(&mut self, sf: &SourceFile)
        requires
            old(self).state().next + decl_counts(sf.members@) <= u32::MAX,
        ensures
            final(self).state() == coll_members(old(self).file(), old(self).state(), sf.members@),
            final(self).state().next == old(self).state().next + decl_counts(sf.members@),
            final(self).file() == old(self).file(),
    {
        proof { lemma_members_grow(self.file(), self.state(), sf.members@); }
        self.collect_members(&sf.members);
    }

    fn collect_members(&mut self, ms: &Vec<ModuleMember>)
        requires
            coll_members(old(self).file(), old(self).state(), ms@).next <= u32::MAX,
        ensures
            final(self).state() == coll_members(old(self).file(), old(self).state(), ms@),
            final(self).file() == old(self).file(),
        decreases ms,
    {
        let ghost s0 = self.state();
        let ghost file = self.file();
        let mut i: usize = 0;
        assert(ms@.take(0) =~= Seq::<ModuleMember>::empty());
        while i < ms.len()
            invariant
                i <= ms@.len(),
                self.file() == file,
                self.state() == coll_members(file, s0, ms@.take(i as int)),
                coll_members(file, s0, ms@).next <= u32::MAX,
            decreases ms@.len() - i,
        {
            proof {
                assert(ms@.take(i + 1).drop_last() =~= ms@.take(i as int));
                assert(ms@.take(i + 1).last() == ms@[i as int]);
                lemma_members_prefix(file, s0, ms@, i + 1);
            }
            assert(decreases_to!(ms => ms@[i as int]));
            self.collect_member(&ms[i]);
            i = i + 1;
        }
        assert(ms@.take(i as int) =~= ms@);
    }

    fn collect_member(&mut self, m: &ModuleMember)
        requires
            coll_member(old(self).file(), old(self).state(), *m).next <= u32::MAX,
        ensures
            final(self).state() == coll_member(old(self).file(), old(self).state(), *m),
            final(self).file() == old(self).file(),
        decreases m,
    {
        let ghost s0 = self.state();
        let ghost file = self.file();
        match m {
            ModuleMember::Predicate(p) => {
                proof { lemma_member_grows(file, s0, *m); }
                self.collect_predicate(p);
            },
            ModuleMember::Class(c) => {
                self.collect_class(c);
            },
            ModuleMember::Module(md) => {
                proof { lemma_member_grows(file, s0, *m); }
                let id = self.alloc_def(DefKind::Module, md.name.name.as_str(), md.span);
                self.namespaces.insert_module(md.name.name.as_str(), id);
                self.collect_members(&md.members);
            },
            ModuleMember::Newtype(nt) => {
                let ghost s1 = alloc_next(file, s0, DefKind::Newtype, nt.name.name@, nt.span).0;
                proof {
                    lemma_branches_grow(file, CollectState { types: s1.types.insert(nt.name.name@, s1.defs.last().0), ..s1 }, nt.branches@);
                }
                let id = self.alloc_def(DefKind::Newtype, nt.name.name.as_str(), nt.span);
                self.namespaces.insert_type(nt.name.name.as_str(), id);
                self.collect_branches(&nt.branches);
            },
            ModuleMember::TypeAlias(ta) => {
                let id = self.alloc_def(DefKind::TypeAlias, ta.name.name.as_str(), ta.span);
                self.namespaces.insert_type(ta.name.name.as_str(), id);
                match resolve_simple_type(&ta.target) {
                    Some(t) => {
                        self.namespaces.insert_type_alias(id, t);
                    },
                    None => {},
                }
            },
            ModuleMember::ModuleAlias(ma) => {
                let id = self.alloc_def(DefKind::ModuleAlias, ma.name.name.as_str(), ma.span);
                self.namespaces.insert_module(ma.name.name.as_str(), id);
            },
            ModuleMember::PredicateAlias(pa) => {
                let arity = pa.target_arity as usize;
                let id = self.alloc_def(DefKind::PredicateAlias, pa.name.name.as_str(), pa.span);
                let n = pa.target_parts.len();
                let target: &str = if n > 0 { pa.target_parts[n - 1].as_str() } else { pa.name.name.as_str() };
                let found: Option<Type> = match self.namespaces.get_predicate(target, arity) {
                    Some(info) => match &info.result_type {
                        Some(t) => Some(t.copy()),
                        None => None,
                    },
                    None => None,
                };
                let result_type = match found {
                    Some(t) => Some(t),
                    None => if n > 1 { Some(Type::Error) } else { None },
                };
                let info = PredicateInfo { def_id: id, result_type, arity };
                self.namespaces.insert_predicate(pa.name.name.as_str(), arity, info);
            },
            _ => {},
        }
    }

    fn collect_branches(&mut self, bs: &Vec<NewtypeBranch>)
        requires
            coll_branches(old(self).file(), old(self).state(), bs@).next <= u32::MAX,
        ensures
            final(self).state() == coll_branches(old(self).file(), old(self).state(), bs@),
            final(self).file() == old(self).file(),
    {
        let ghost s0 = self.state();
        let ghost file = self.file();
        let mut i: usize = 0;
        assert(bs@.take(0) =~= Seq::<NewtypeBranch>::empty());
        while i < bs.len()
            invariant
                i <= bs@.len(),
                self.file() == file,
                self.state() == coll_branches(file, s0, bs@.take(i as int)),
                coll_branches(file, s0, bs@).next <= u32::MAX,
            decreases bs@.len() - i,
        {
            proof {
                assert(bs@.take(i + 1).drop_last() =~= bs@.take(i as int));
                assert(bs@.take(i + 1).last() == bs@[i as int]);
                lemma_branches_prefix(file, s0, bs@, i + 1);
            }
            let b = &bs[i];
            let id = self.alloc_def(DefKind::NewtypeBranch, b.name.name.as_str(), b.span);
            self.namespaces.insert_type(b.name.name.as_str(), id);
            i = i + 1;
        }
        assert(bs@.take(i as int) =~= bs@);
    }

    fn collect_predicate(&mut self, p: &Predicate)
        requires
            old(self).state().next < u32::MAX,
        ensures
            final(self).state() == coll_predicate(old(self).file(), old(self).state(), *p),
            final(self).file() == old(self).file(),
    {
        let arity = p.head.params.len();
        let id = self.alloc_def(DefKind::Predicate, p.head.name.name.as_str(), p.span);
        let result_type = match &p.head.result_type {
            Some(te) => Some(resolve_type_expr_simple(te)),
            None => None,
        };
        let info = PredicateInfo { def_id: id, result_type, arity };
        self.namespaces.insert_predicate(p.head.name.name.as_str(), arity, info);
    }

    fn supertype_alias_of(&self, sups: &Vec<TypeExpr>) -> (r: Option<Type>)
        ensures
            match r {
                Some(t) => supertype_alias(self.state(), sups@) == Some(t@),
                None => supertype_alias(self.state(), sups@) is None,
            },
    {
        let mut i: usize = 0;
        assert(sups@.skip(0) =~= sups@);
        while i < sups.len()
            invariant
                i <= sups@.len(),
                supertype_alias(self.state(), sups@) == supertype_alias(self.state(), sups@.skip(i as int)),
            decreases sups@.len() - i,
        {
            let ghost rest = sups@.skip(i as int);
            assert(rest.subrange(1, rest.len() as int) =~= sups@.skip(i + 1));
            assert(rest[0] == sups@[i as int]);
            match resolve_simple_type(&sups[i]) {
                Some(t) => {
                    return Some(t);
                },
                None => {},
            }
            match &sups[i].kind {
                TypeExprKind::ClassName(n) => match self.namespaces.get_type(n.name.as_str()) {
                    Some(d) => match self.namespaces.get_type_alias(d) {
                        Some(t) => {
                            return Some(t);
                        },
                        None => {},
                    },
                    None => {},
                },
                _ => {},
            }
            i = i + 1;
        }
        None
    }

    fn collect_class(&mut self, c: &ClassDecl)
        requires
            coll_class(old(self).file(), old(self).state(), *c).next <= u32::MAX,
        ensures
            final(self).state() == coll_class(old(self).file(), old(self).state(), *c),
            final(self).file() == old(self).file(),
    {
        let ghost s0 = self.state();
        let ghost file = self.file();
        proof { lemma_class_grows(file, s0, *c); }
        let id = self.alloc_def(DefKind::Class, c.name.name.as_str(), c.span);
        self.namespaces.insert_type(c.name.name.as_str(), id);
        let sup = self.supertype_alias_of(&c.supertypes);
        match sup {
            Some(t) => {
                self.namespaces.insert_type_alias(id, t);
            },
            None => {},
        }
        let ghost s3 = self.state();
        let mut i: usize = 0;
        assert(c.members@.take(0) =~= Seq::<ClassMember>::empty());
        while i < c.members.len()
            invariant
                i <= c.members@.len(),
                self.file() == file,
                self.state() == coll_class_members(file, s3, c.name.name@, c.members@.take(i as int)),
                coll_class_members(file, s3, c.name.name@, c.members@).next <= u32::MAX,
            decreases c.members@.len() - i,
        {
            proof {
                assert(c.members@.take(i + 1).drop_last() =~= c.members@.take(i as int));
                assert(c.members@.take(i + 1).last() == c.members@[i as int]);
                lemma_class_members_prefix(file, s3, c.name.name@, c.members@, i + 1);
            }
            match &c.members[i] {
                ClassMember::CharacteristicPredicate { name, span, .. } => {
                    self.alloc_def(DefKind::CharPredicate, name.name.as_str(), *span);
                },
                ClassMember::MemberPredicate(p) => {
                    let arity = p.head.params.len();
                    let pid = self.alloc_def(DefKind::MemberPredicate, p.head.name.name.as_str(), p.span);
                    let result_type = match &p.head.result_type {
                        Some(te) => Some(resolve_type_expr_simple(te)),
                        None => None,
                    };
                    let mut key = copy_str(c.name.name.as_str());
                    key.append("::");
                    key.append(p.head.name.name.as_str());
                    proof { reveal_strlit("::"); }
                    assert(key@ =~= member_key(c.name.name@, p.head.name.name@));
                    let info = PredicateInfo { def_id: pid, result_type, arity };
                    self.namespaces.insert_predicate(key.as_str(), arity, info);
                },
                ClassMember::Field { name, span, .. } => {
                    self.alloc_def(DefKind::Field, name.name.as_str(), *span);
                },
            }
            i = i + 1;
        }
        assert(c.members@.take(i as int) =~= c.members@);
    }

    /// The declarations collected, in order.
    pub fn into_defs(self) -> (r: Vec<DefInfo>)
        ensures
            r@.map_values(|d: DefInfo| def_view(d)) == self.state().defs,
    {
        self.defs
    }
}

/// The type of a primitive written type.
fn resolve_simple_type(te: &TypeExpr) -> (r: Option<Type>)
    ensures
        match r {
            Some(t) => simple_type(*te) == Some(t@),
            None => simple_type(*te) is None,
        },
{
    match &te.kind {
        TypeExprKind::Primitive(p) => Some(Type::Primitive(*p)),
        _ => None,
    }
}

/// The type a written type has without name resolution (for predicate
/// result types during collection).
pub fn resolve_type_expr_simple(te: &TypeExpr) -> (r: Type)
    ensures
        r@ == simple_type_expr(*te),
{
    match &te.kind {
        TypeExprKind::Primitive(p) => Type::Primitive(*p),
        TypeExprKind::Database(name) => Type::DbEntity(name.clone()),
        TypeExprKind::ClassName(_) => Type::Error,
        TypeExprKind::ModuleAccess(_, _) => Type::Error,
    }
}

// Collection only ever adds declarations: the next local number never
// decreases.

proof fn lemma_class_members_grow(file: FileId, s: CollectState, class: Seq<char>, ms: Seq<ClassMember>)
    ensures
        coll_class_members(file, s, class, ms).next == s.next + ms.len(),
        coll_class_members(file, s, class, ms).next >= s.next,
    decreases ms.len(),
{
    if ms.len() > 0 {
        lemma_class_members_grow(file, s, class, ms.drop_last());
    }
}

proof fn lemma_class_members_prefix(file: FileId, s: CollectState, class: Seq<char>, ms: Seq<ClassMember>, k: int)
    requires
        0 <= k <= ms.len(),
    ensures
        coll_class_members(file, s, class, ms).next >= coll_class_members(file, s, class, ms.take(k)).next,
    decreases ms.len(),
{
    if k < ms.len() {
        assert(ms.drop_last().take(k) =~= ms.take(k));
        lemma_class_members_prefix(file, s, class, ms.drop_last(), k);
    } else {
        assert(ms.take(k) =~= ms);
    }
}

proof fn lemma_class_grows(file: FileId, s: CollectState, c: ClassDecl)
    ensures
        coll_class(file, s, c).next == s.next + 1 + c.members@.len(),
        coll_class(file, s, c).next >= s.next + 1,
{
    let (s1, id) = alloc_next(file, s, DefKind::Class, c.name.name@, c.span);
    let s2 = CollectState { types: s1.types.insert(c.name.name@, id), ..s1 };
    let s3 = match supertype_alias(s2, c.supertypes@) {
        Some(t) => CollectState { aliases: seq![(id, t)] + s2.aliases, ..s2 },
        None => s2,
    };
    lemma_class_members_grow(file, s3, c.name.name@, c.members@);
}

proof fn lemma_branches_grow(file: FileId, s: CollectState, bs: Seq<NewtypeBranch>)
    ensures
        coll_branches(file, s, bs).next == s.next + bs.len(),
        coll_branches(file, s, bs).next >= s.next,
    decreases bs.len(),
{
    if bs.len() > 0 {
        lemma_branches_grow(file, s, bs.drop_last());
    }
}

proof fn lemma_branches_prefix(file: FileId, s: CollectState, bs: Seq<NewtypeBranch>, k: int)
    requires
        0 <= k <= bs.len(),
    ensures
        coll_branches(file, s, bs).next >= coll_branches(file, s, bs.take(k)).next,
    decreases bs.len(),
{
    if k < bs.len() {
        assert(bs.drop_last().take(k) =~= bs.take(k));
        lemma_branches_prefix(file, s, bs.drop_last(), k);
    } else {
        assert(bs.take(k) =~= bs);
    }
}

proof fn lemma_member_grows(file: FileId, s: CollectState, m: ModuleMember)
    ensures
        coll_member(file, s, m).next == s.next + decl_count(m),
        coll_member(file, s, m).next >= s.next,
        m is Predicate || m is Class || m is Module || m is Newtype || m is TypeAlias || m is ModuleAlias
            || m is PredicateAlias ==> coll_member(file, s, m).next >= s.next + 1,
    decreases m,
{
    match m {
        ModuleMember::Class(c) => lemma_class_grows(file, s, c),
        ModuleMember::Module(md) => {
            let (s1, id) = alloc_next(file, s, DefKind::Module, md.name.name@, md.span);
            let s2 = CollectState { modules: s1.modules.insert(md.name.name@, id), ..s1 };
            lemma_members_grow(file, s2, md.members@);
        },
        ModuleMember::Newtype(nt) => {
            let (s1, id) = alloc_next(file, s, DefKind::Newtype, nt.name.name@, nt.span);
            let s2 = CollectState { types: s1.types.insert(nt.name.name@, id), ..s1 };
            lemma_branches_grow(file, s2, nt.branches@);
        },
        _ => {},
    }
}

proof fn lemma_members_grow(file: FileId, s: CollectState, ms: Seq<ModuleMember>)
    ensures
        coll_members(file, s, ms).next == s.next + decl_counts(ms),
        coll_members(file, s, ms).next >= s.next,
    decreases ms,
{
    if ms.len() > 0 {
        lemma_members_grow(file, s, ms.drop_last());
        lemma_member_grows(file, coll_members(file, s, ms.drop_last()), ms.last());
    }
}

proof fn lemma_class_members_numbered(file: FileId, s: CollectState, class: Seq<char>, ms: Seq<ClassMember>)
    requires
        numbered(file, s),
        s.next + ms.len() <= u32::MAX,
    ensures
        numbered(file, coll_class_members(file, s, class, ms)),
    decreases ms.len(),
{
    if ms.len() > 0 {
        lemma_class_members_numbered(file, s, class, ms.drop_last());
        lemma_class_members_grow(file, s, class, ms.drop_last());
    }
}

proof fn lemma_branches_numbered(file: FileId, s: CollectState, bs: Seq<NewtypeBranch>)
    requires
        numbered(file, s),
        s.next + bs.len() <= u32::MAX,
    ensures
        numbered(file, coll_branches(file, s, bs)),
    decreases bs.len(),
{
    if bs.len() > 0 {
        lemma_branches_numbered(file, s, bs.drop_last());
        lemma_branches_grow(file, s, bs.drop_last());
    }
}

proof fn lemma_member_numbered(file: FileId, s: CollectState, m: ModuleMember)
    requires
        numbered(file, s),
        s.next + decl_count(m) <= u32::MAX,
    ensures
        numbered(file, coll_member(file, s, m)),
    decreases m,
{
    match m {
        ModuleMember::Class(c) => {
            let (s1, id) = alloc_next(file, s, DefKind::Class, c.name.name@, c.span);
            let s2 = CollectState { types: s1.types.insert(c.name.name@, id), ..s1 };
            let s3 = match supertype_alias(s2, c.supertypes@) {
                Some(t) => CollectState { aliases: seq![(id, t)] + s2.aliases, ..s2 },
                None => s2,
            };
            lemma_class_members_numbered(file, s3, c.name.name@, c.members@);
        },
        ModuleMember::Module(md) => {
            let (s1, id) = alloc_next(file, s, DefKind::Module, md.name.name@, md.span);
            let s2 = CollectState { modules: s1.modules.insert(md.name.name@, id), ..s1 };
            lemma_members_numbered(file, s2, md.members@);
        },
        ModuleMember::Newtype(nt) => {
            let (s1, id) = alloc_next(file, s, DefKind::Newtype, nt.name.name@, nt.span);
            let s2 = CollectState { types: s1.types.insert(nt.name.name@, id), ..s1 };
            lemma_branches_numbered(file, s2, nt.branches@);
        },
        _ => {},
    }
}

proof fn lemma_members_numbered(file: FileId, s: CollectState, ms: Seq<ModuleMember>)
    requires
        numbered(file, s),
        s.next + decl_counts(ms) <= u32::MAX,
    ensures
        numbered(file, coll_members(file, s, ms)),
    decreases ms,
{
    if ms.len() > 0 {
        lemma_decl_counts_nonneg(ms.drop_last());
        lemma_members_grow(file, s, ms.drop_last());
        lemma_member_grows(file, coll_members(file, s, ms.drop_last()), ms.last());
        lemma_members_numbered(file, s, ms.drop_last());
        lemma_member_numbered(file, coll_members(file, s, ms.drop_last()), ms.last());
    }
}

/// Every declaration of a file gets its own number: collected from the
/// start, the `i`-th declaration is local number `i` of the file.
pub proof fn lemma_collect_numbering(file: FileId, ms: Seq<ModuleMember>)
    requires
        decl_counts(ms) <= u32::MAX,
    ensures
        numbered(file, coll_members(file, collect_start(), ms)),
        coll_members(file, collect_start(), ms).defs.len() == decl_counts(ms),
{
    lemma_members_numbered(file, collect_start(), ms);
    lemma_members_grow(file, collect_start(), ms);
}

/// Collection counts no negative number of declarations.
pub proof fn lemma_decl_counts_nonneg(ms: Seq<ModuleMember>)
    ensures
        decl_counts(ms) >= 0,
{
    let s: CollectState = vstd::pervasive::arbitrary();
    lemma_members_grow(FileId(0), s, ms);
}

proof fn lemma_members_prefix(file: FileId, s: CollectState, ms: Seq<ModuleMember>, k: int)
    requires
        0 <= k <= ms.len(),
    ensures
        coll_members(file, s, ms).next >= coll_members(file, s, ms.take(k)).next,
    decreases ms.len(),
{
    if k < ms.len() {
        assert(ms.drop_last().take(k) =~= ms.take(k));
        lemma_members_prefix(file, s, ms.drop_last(), k);
        lemma_member_grows(file, coll_members(file, s, ms.drop_last()), ms.last());
    } else {
        assert(ms.take(k) =~= ms);
    }
}

} // verus!
