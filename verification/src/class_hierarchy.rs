//! The classes of a project and their supertypes, with the lookups of
//! member predicates and fields that walk up the hierarchy. The walks stop
//! twenty levels up, so that a cycle of supertypes cannot hang them.

use vstd::prelude::*;
use crate::def::DefId;
use crate::types::{Type, TypeV};
use crate::namespace::{PredicateInfo, PredicateV};
use crate::text::str_eq;

verus! {

/// A class: its supertypes, its member predicates and its fields.
#[derive(Debug)]
pub struct ClassInfo {
    pub def_id: DefId,
    /// Supertypes, as resolved from the supertype names.
    pub supertypes: Vec<DefId>,
    /// Supertype names as written.
    pub supertype_names: Vec<String>,
    /// Member predicates declared in the class, by name and arity; the
    /// first entry of a name and arity counts.
    pub member_predicates: Vec<((String, usize), PredicateInfo)>,
    /// Fields declared in the class; the first entry of a name counts.
    pub fields: Vec<(String, Type)>,
}

/// The class hierarchy of a project.
pub struct ClassHierarchy {
    classes: Vec<ClassInfo>,
    name_to_def: Vec<(String, Vec<DefId>)>,
}

/// The first class of the list declared as `d`.
pub open spec fn class_in(cs: Seq<ClassInfo>, d: DefId) -> Option<ClassInfo>
    decreases cs.len(),
{
    if cs.len() == 0 {
        None
    } else if cs[0].def_id == d {
        Some(cs[0])
    } else {
        class_in(cs.drop_first(), d)
    }
}

/// The first member predicate of a class with this name and arity.
pub open spec fn own_member(ps: Seq<((String, usize), PredicateInfo)>, name: Seq<char>, arity: usize) -> Option<
    PredicateV,
>
    decreases ps.len(),
{
    if ps.len() == 0 {
        None
    } else if ps[0].0.0@ == name && ps[0].0.1 == arity {
        Some(ps[0].1.v())
    } else {
        own_member(ps.drop_first(), name, arity)
    }
}

/// The type of the first field of a class with this name.
pub open spec fn own_field(fs: Seq<(String, Type)>, name: Seq<char>) -> Option<TypeV>
    decreases fs.len(),
{
    if fs.len() == 0 {
        None
    } else if fs[0].0@ == name {
        Some(fs[0].1@)
    } else {
        own_field(fs.drop_first(), name)
    }
}

/// The member predicate `name`/`arity` of class `d` at `depth` levels up:
/// its own, else the first found among its supertypes in order, each
/// searched the same way; nothing beyond twenty levels.
pub open spec fn member_in(cs: Seq<ClassInfo>, d: DefId, name: Seq<char>, arity: usize, depth: nat) -> Option<PredicateV>
    decreases 22 - depth, 0nat, 0nat,
{
    if depth > 20 {
        None
    } else {
        match class_in(cs, d) {
            None => None,
            Some(info) => match own_member(info.member_predicates@, name, arity) {
                Some(p) => Some(p),
                None => member_in_supers(cs, info.supertypes@, name, arity, depth + 1),
            },
        }
    }
}

/// The first member predicate found among the classes `sups`.
pub open spec fn member_in_supers(cs: Seq<ClassInfo>, sups: Seq<DefId>, name: Seq<char>, arity: usize, depth: nat) -> Option<
    PredicateV,
>
    decreases 22 - depth, 1nat, sups.len(),
{
    if sups.len() == 0 {
        None
    } else {
        match member_in(cs, sups[0], name, arity, depth) {
            Some(p) => Some(p),
            None => member_in_supers(cs, sups.drop_first(), name, arity, depth),
        }
    }
}

/// The field `name` of class `d`, searched as member predicates are.
pub open spec fn field_in(cs: Seq<ClassInfo>, d: DefId, name: Seq<char>, depth: nat) -> Option<TypeV>
    decreases 22 - depth, 0nat, 0nat,
{
    if depth > 20 {
        None
    } else {
        match class_in(cs, d) {
            None => None,
            Some(info) => match own_field(info.fields@, name) {
                Some(t) => Some(t),
                None => field_in_supers(cs, info.supertypes@, name, depth + 1),
            },
        }
    }
}

/// The first field found among the classes `sups`.
pub open spec fn field_in_supers(cs: Seq<ClassInfo>, sups: Seq<DefId>, name: Seq<char>, depth: nat) -> Option<TypeV>
    decreases 22 - depth, 1nat, sups.len(),
{
    if sups.len() == 0 {
        None
    } else {
        match field_in(cs, sups[0], name, depth) {
            Some(t) => Some(t),
            None => field_in_supers(cs, sups.drop_first(), name, depth),
        }
    }
}

/// A field as its name and type.
pub type FieldV = (Seq<char>, TypeV);

/// Whether a field of this name is among `acc`.
pub open spec fn has_field(acc: Seq<FieldV>, name: Seq<char>) -> bool {
    exists|i: int| 0 <= i < acc.len() && acc[i].0 == name
}

/// `acc` with each field of `fs` whose name it lacks added, in order.
pub open spec fn add_fields(acc: Seq<FieldV>, fs: Seq<(String, Type)>) -> Seq<FieldV>
    decreases fs.len(),
{
    if fs.len() == 0 {
        acc
    } else {
        let next = if has_field(acc, fs[0].0@) {
            acc
        } else {
            acc.push((fs[0].0@, fs[0].1@))
        };
        add_fields(next, fs.drop_first())
    }
}

/// `acc` with the fields of class `d` added: first those of its
/// supertypes, in order, then its own; nothing beyond twenty levels.
pub open spec fn fields_in(cs: Seq<ClassInfo>, d: DefId, acc: Seq<FieldV>, depth: nat) -> Seq<FieldV>
    decreases 22 - depth, 0nat, 0nat,
{
    if depth > 20 {
        acc
    } else {
        match class_in(cs, d) {
            None => acc,
            Some(info) => add_fields(fields_in_supers(cs, info.supertypes@, acc, depth + 1), info.fields@),
        }
    }
}

/// `acc` with the fields of each of the classes `sups` added in turn.
pub open spec fn fields_in_supers(cs: Seq<ClassInfo>, sups: Seq<DefId>, acc: Seq<FieldV>, depth: nat) -> Seq<FieldV>
    decreases 22 - depth, 1nat, sups.len(),
{
    if sups.len() == 0 {
        acc
    } else {
        fields_in_supers(cs, sups.drop_first(), fields_in(cs, sups[0], acc, depth), depth)
    }
}

/// The names listed for a name.
pub open spec fn defs_named(m: Seq<(String, Vec<DefId>)>, name: Seq<char>) -> Seq<DefId>
    decreases m.len(),
{
    if m.len() == 0 {
        Seq::empty()
    } else if m.last().0@ == name {
        m.last().1@
    } else {
        defs_named(m.drop_last(), name)
    }
}

impl ClassHierarchy {
    /// The registered classes.
    pub closed spec fn classes(&self) -> Seq<ClassInfo> {
        self.classes@
    }

    /// The declarations registered under `name`, in order.
    pub closed spec fn names(&self, name: Seq<char>) -> Seq<DefId> {
        defs_named(self.name_to_def@, name)
    }

    /// No two classes have the same declaration, and no name is listed
    /// twice.
    pub closed spec fn wf(&self) -> bool {
        &&& forall|i: int, j: int| 0 <= i < j < self.classes@.len() ==> self.classes@[i].def_id != self.classes@[j].def_id
        &&& forall|i: int, j: int| 0 <= i < j < self.name_to_def@.len() ==> self.name_to_def@[i].0@ != self.name_to_def@[j].0@
    }

    /// An empty hierarchy.
    pub fn new() -> (r: ClassHierarchy)
        ensures
            r.wf(),
            r.classes() == Seq::<ClassInfo>::empty(),
            forall|n: Seq<char>| r.names(n) == Seq::<DefId>::empty(),
    {
        ClassHierarchy { classes: Vec::new(), name_to_def: Vec::new() }
    }

    /// The class declared as `d`.
    pub fn get(&self, d: DefId) -> (r: Option<&ClassInfo>)
        ensures
            match r {
                Some(c) => class_in(self.classes(), d) == Some(*c),
                None => class_in(self.classes(), d) is None,
            },
    {
        let mut i: usize = 0;
        assert(self.classes@.skip(0) =~= self.classes@);
        while i < self.classes.len()
            invariant
                i <= self.classes@.len(),
                class_in(self.classes@, d) == class_in(self.classes@.skip(i as int), d),
            decreases self.classes@.len() - i,
        {
            assert(self.classes@.skip(i as int).drop_first() =~= self.classes@.skip(i + 1));
            assert(self.classes@.skip(i as int)[0] == self.classes@[i as int]);
            if self.classes[i].def_id == d {
                return Some(&self.classes[i]);
            }
            i = i + 1;
        }
        None
    }
}

proof fn lemma_class_in_index(cs: Seq<ClassInfo>, i: int)
    requires
        0 <= i < cs.len(),
        forall|j: int| 0 <= j < i ==> cs[j].def_id != cs[i].def_id,
    ensures
        class_in(cs, cs[i].def_id) == Some(cs[i]),
    decreases i,
{
    if i > 0 {
        let t = cs.drop_first();
        assert forall|j: int| 0 <= j < i - 1 implies #[trigger] t[j].def_id != t[i - 1].def_id by {
            assert(t[j] == cs[j + 1]);
        }
        lemma_class_in_index(cs.drop_first(), i - 1);
    }
}

proof fn lemma_class_in_absent(cs: Seq<ClassInfo>, d: DefId)
    requires
        forall|j: int| 0 <= j < cs.len() ==> cs[j].def_id != d,
    ensures
        class_in(cs, d) is None,
    decreases cs.len(),
{
    if cs.len() > 0 {
        assert forall|j: int| 0 <= j < cs.len() - 1 implies cs.drop_first()[j].def_id != d by {
            assert(cs.drop_first()[j] == cs[j + 1]);
        }
        lemma_class_in_absent(cs.drop_first(), d);
    }
}

proof fn lemma_class_in_other(cs: Seq<ClassInfo>, i: int, c: ClassInfo, d: DefId)
    requires
        0 <= i < cs.len(),
        c.def_id == cs[i].def_id,
        d != c.def_id,
    ensures
        class_in(cs.update(i, c), d) == class_in(cs, d),
    decreases cs.len(),
{
    if cs[0].def_id != d && i > 0 {
        assert(cs.update(i, c).drop_first() =~= cs.drop_first().update(i - 1, c));
        lemma_class_in_other(cs.drop_first(), i - 1, c, d);
    } else if i == 0 {
        assert(cs.update(i, c).drop_first() =~= cs.drop_first());
    }
}

proof fn lemma_class_in_push(cs: Seq<ClassInfo>, c: ClassInfo, d: DefId)
    requires
        forall|j: int| 0 <= j < cs.len() ==> cs[j].def_id != c.def_id,
    ensures
        class_in(cs.push(c), d) == if d == c.def_id {
            Some(c)
        } else {
            class_in(cs, d)
        },
    decreases cs.len(),
{
    let p = cs.push(c);
    if cs.len() > 0 {
        assert(p.drop_first() =~= cs.drop_first().push(c));
        assert forall|j: int| 0 <= j < cs.len() - 1 implies cs.drop_first()[j].def_id != c.def_id by {
            assert(cs.drop_first()[j] == cs[j + 1]);
        }
        lemma_class_in_push(cs.drop_first(), c, d);
        assert(p[0] == cs[0]);
        if cs[0].def_id == d {
            assert(cs[0].def_id != c.def_id);
            assert(class_in(p, d) == Some(cs[0]));
            assert(class_in(cs, d) == Some(cs[0]));
        } else {
            assert(class_in(p, d) == class_in(p.drop_first(), d));
            assert(class_in(cs, d) == class_in(cs.drop_first(), d));
        }
    } else {
        assert(p.drop_first() =~= Seq::<ClassInfo>::empty());
        assert(p[0] == c);
        assert(class_in(cs, d) is None);
        if d != c.def_id {
            assert(class_in(p, d) == class_in(p.drop_first(), d));
        }
    }
}

impl ClassHierarchy {
    /// Registers a class, replacing one of the same declaration.
    pub fn register_class(&mut self, info: ClassInfo)
        requires
            old(self).wf(),
        ensures
            final(self).wf(),
            forall|d: DefId| class_in(final(self).classes(), d) == if d == info.def_id {
                Some(info)
            } else {
                class_in(old(self).classes(), d)
            },
            forall|n: Seq<char>| final(self).names(n) == old(self).names(n),
    {
        let mut i: usize = 0;
        while i < self.classes.len()
            invariant
                i <= self.classes@.len(),
                self.classes@ == old(self).classes@,
                self.name_to_def@ == old(self).name_to_def@,
                old(self).wf(),
                forall|j: int| 0 <= j < i ==> self.classes@[j].def_id != info.def_id,
            decreases self.classes@.len() - i,
        {
            if self.classes[i].def_id == info.def_id {
                let ghost before = self.classes@;
                let ghost d0 = info.def_id;
                let ghost c = info;
                self.classes.set(i, info);
                proof {
                    assert(self.classes@ == before.update(i as int, c));
                    assert forall|d: DefId| class_in(self.classes@, d) == if d == d0 {
                        Some(c)
                    } else {
                        class_in(before, d)
                    } by {
                        if d == d0 {
                            assert forall|j: int| 0 <= j < i implies self.classes@[j].def_id != self.classes@[i as int].def_id by {
                                assert(self.classes@[j] == before[j]);
                            }
                            lemma_class_in_index(self.classes@, i as int);
                        } else {
                            lemma_class_in_other(before, i as int, c, d);
                        }
                    }
                    assert forall|a: int, b: int| 0 <= a < b < self.classes@.len() implies self.classes@[a].def_id
                        != self.classes@[b].def_id by {
                        assert(self.classes@[a].def_id == before[a].def_id);
                        assert(self.classes@[b].def_id == before[b].def_id);
                    }
                }
                return;
            }
            i = i + 1;
        }
        let ghost before = self.classes@;
        let ghost c = info;
        self.classes.push(info);
        proof {
            assert forall|d: DefId| class_in(self.classes@, d) == if d == c.def_id {
                Some(c)
            } else {
                class_in(before, d)
            } by {
                lemma_class_in_push(before, c, d);
            }
            assert forall|a: int, b: int| 0 <= a < b < self.classes@.len() implies self.classes@[a].def_id
                != self.classes@[b].def_id by {
                if b < before.len() {
                    assert(self.classes@[a] == before[a]);
                    assert(self.classes@[b] == before[b]);
                } else {
                    assert(self.classes@[a] == before[a]);
                }
            }
        }
    }

    /// Lists `def_id` under `name`.
    pub fn register_name(&mut self, name: String, def_id: DefId)
        requires
            old(self).wf(),
        ensures
            final(self).wf(),
            final(self).names(name@) == old(self).names(name@).push(def_id),
            forall|n: Seq<char>| n != name@ ==> final(self).names(n) == old(self).names(n),
            final(self).classes() == old(self).classes(),
    {
        let mut i: usize = 0;
        while i < self.name_to_def.len()
            invariant
                i <= self.name_to_def@.len(),
                self.name_to_def@ == old(self).name_to_def@,
                self.classes@ == old(self).classes@,
                old(self).wf(),
                forall|j: int| 0 <= j < i ==> self.name_to_def@[j].0@ != name@,
            decreases self.name_to_def@.len() - i,
        {
            if str_eq(self.name_to_def[i].0.as_str(), name.as_str()) {
                let ghost before = self.name_to_def@;
                let mut entry = self.name_to_def.remove(i);
                entry.1.push(def_id);
                self.name_to_def.insert(i, entry);
                proof {
                    assert(self.name_to_def@ =~= before.update(i as int, entry));
                    assert forall|n: Seq<char>| #[trigger] defs_named(self.name_to_def@, n) == if n == name@ {
                        defs_named(before, n).push(def_id)
                    } else {
                        defs_named(before, n)
                    } by {
                        lemma_defs_named_update(before, i as int, entry, n);
                    }
                    assert forall|a: int, b: int| 0 <= a < b < self.name_to_def@.len() implies self.name_to_def@[a].0@
                        != self.name_to_def@[b].0@ by {
                        assert(self.name_to_def@[a].0@ == before[a].0@);
                        assert(self.name_to_def@[b].0@ == before[b].0@);
                    }
                    assert(self.names(name@) == old(self).names(name@).push(def_id));
                }
                return;
            }
            i = i + 1;
        }
        let ghost before = self.name_to_def@;
        let mut v: Vec<DefId> = Vec::new();
        v.push(def_id);
        let ghost entry = (name, v);
        self.name_to_def.push((name, v));
        proof {
            assert(self.name_to_def@.drop_last() =~= before);
            lemma_defs_named_absent(before, entry.0@);
            assert forall|a: int, b: int| 0 <= a < b < self.name_to_def@.len() implies self.name_to_def@[a].0@
                != self.name_to_def@[b].0@ by {
                assert(self.name_to_def@[a] == before[a]);
                if b < before.len() {
                    assert(self.name_to_def@[b] == before[b]);
                }
            }
        }
    }
}

proof fn lemma_defs_named_absent(m: Seq<(String, Vec<DefId>)>, name: Seq<char>)
    requires
        forall|j: int| 0 <= j < m.len() ==> m[j].0@ != name,
    ensures
        defs_named(m, name) == Seq::<DefId>::empty(),
    decreases m.len(),
{
    if m.len() > 0 {
        lemma_defs_named_absent(m.drop_last(), name);
    }
}

proof fn lemma_defs_named_update(m: Seq<(String, Vec<DefId>)>, i: int, e: (String, Vec<DefId>), n: Seq<char>)
    requires
        0 <= i < m.len(),
        e.0@ == m[i].0@,
        e.1@ == m[i].1@.push(e.1@.last()),
        e.1@.len() > 0,
        forall|a: int, b: int| 0 <= a < b < m.len() ==> m[a].0@ != m[b].0@,
    ensures
        defs_named(m.update(i, e), n) == if n == e.0@ {
            defs_named(m, n).push(e.1@.last())
        } else {
            defs_named(m, n)
        },
    decreases m.len(),
{
    let u = m.update(i, e);
    if i < m.len() - 1 {
        assert(u.drop_last() =~= m.drop_last().update(i, e));
        assert(m.drop_last()[i] == m[i]);
        lemma_defs_named_update(m.drop_last(), i, e, n);
    } else {
        assert(u.drop_last() =~= m.drop_last());
        if n == e.0@ {
        }
    }
}

fn own_member_lookup<'a>(ps: &'a Vec<((String, usize), PredicateInfo)>, name: &str, arity: usize) -> (r: Option<
    &'a PredicateInfo,
>)
    ensures
        match r {
            Some(p) => own_member(ps@, name@, arity) == Some(p.v()),
            None => own_member(ps@, name@, arity) is None,
        },
{
    let mut i: usize = 0;
    assert(ps@.skip(0) =~= ps@);
    while i < ps.len()
        invariant
            i <= ps@.len(),
            own_member(ps@, name@, arity) == own_member(ps@.skip(i as int), name@, arity),
        decreases ps@.len() - i,
    {
        assert(ps@.skip(i as int).drop_first() =~= ps@.skip(i + 1));
        assert(ps@.skip(i as int)[0] == ps@[i as int]);
        if ps[i].0.1 == arity && str_eq(ps[i].0.0.as_str(), name) {
            return Some(&ps[i].1);
        }
        i = i + 1;
    }
    None
}

fn own_field_lookup<'a>(fs: &'a Vec<(String, Type)>, name: &str) -> (r: Option<&'a Type>)
    ensures
        match r {
            Some(t) => own_field(fs@, name@) == Some(t@),
            None => own_field(fs@, name@) is None,
        },
{
    let mut i: usize = 0;
    assert(fs@.skip(0) =~= fs@);
    while i < fs.len()
        invariant
            i <= fs@.len(),
            own_field(fs@, name@) == own_field(fs@.skip(i as int), name@),
        decreases fs@.len() - i,
    {
        assert(fs@.skip(i as int).drop_first() =~= fs@.skip(i + 1));
        assert(fs@.skip(i as int)[0] == fs@[i as int]);
        if str_eq(fs[i].0.as_str(), name) {
            return Some(&fs[i].1);
        }
        i = i + 1;
    }
    None
}

/// The fields of a list as names and types.
pub open spec fn fields_view(v: Seq<(String, Type)>) -> Seq<FieldV> {
    v.map_values(|f: (String, Type)| (f.0@, f.1@))
}

impl ClassHierarchy {
    /// The member predicate `name`/`arity` of the class `class_def` or,
    /// failing that, the first found up its supertypes, depth first in
    /// the order of the supertypes, at most twenty levels up.
    pub fn lookup_member_predicate(&self, class_def: DefId, name: &str, arity: usize) -> (r: Option<&PredicateInfo>)
        ensures
            match r {
                Some(p) => member_in(self.classes(), class_def, name@, arity, 0) == Some(p.v()),
                None => member_in(self.classes(), class_def, name@, arity, 0) is None,
            },
    {
        self.member_at(class_def, name, arity, 0)
    }

    fn member_at(&self, d: DefId, name: &str, arity: usize, depth: usize) -> (r: Option<&PredicateInfo>)
        requires
            depth <= 21,
        ensures
            match r {
                Some(p) => member_in(self.classes(), d, name@, arity, depth as nat) == Some(p.v()),
                None => member_in(self.classes(), d, name@, arity, depth as nat) is None,
            },
        decreases 22 - depth,
    {
        if depth > 20 {
            return None;
        }
        let info = match self.get(d) {
            Some(i) => i,
            None => {
                return None;
            },
        };
        if let Some(p) = own_member_lookup(&info.member_predicates, name, arity) {
            return Some(p);
        }
        let sups = &info.supertypes;
        let mut k: usize = 0;
        assert(sups@.skip(0) =~= sups@);
        while k < sups.len()
            invariant
                depth <= 20,
                k <= sups@.len(),
                member_in(self.classes(), d, name@, arity, depth as nat) == member_in_supers(
                    self.classes(),
                    sups@,
                    name@,
                    arity,
                    (depth + 1) as nat,
                ),
                member_in_supers(self.classes(), sups@, name@, arity, (depth + 1) as nat) == member_in_supers(
                    self.classes(),
                    sups@.skip(k as int),
                    name@,
                    arity,
                    (depth + 1) as nat,
                ),
            decreases sups@.len() - k,
        {
            assert(sups@.skip(k as int).drop_first() =~= sups@.skip(k + 1));
            assert(sups@.skip(k as int)[0] == sups@[k as int]);
            if let Some(p) = self.member_at(sups[k], name, arity, depth + 1) {
                return Some(p);
            }
            k = k + 1;
        }
        None
    }

    /// The field `name` of the class `class_def` or, failing that, the
    /// first found up its supertypes, searched as member predicates are.
    pub fn lookup_field(&self, class_def: DefId, name: &str) -> (r: Option<&Type>)
        ensures
            match r {
                Some(t) => field_in(self.classes(), class_def, name@, 0) == Some(t@),
                None => field_in(self.classes(), class_def, name@, 0) is None,
            },
    {
        self.field_at(class_def, name, 0)
    }

    fn field_at(&self, d: DefId, name: &str, depth: usize) -> (r: Option<&Type>)
        requires
            depth <= 21,
        ensures
            match r {
                Some(t) => field_in(self.classes(), d, name@, depth as nat) == Some(t@),
                None => field_in(self.classes(), d, name@, depth as nat) is None,
            },
        decreases 22 - depth,
    {
        if depth > 20 {
            return None;
        }
        let info = match self.get(d) {
            Some(i) => i,
            None => {
                return None;
            },
        };
        if let Some(t) = own_field_lookup(&info.fields, name) {
            return Some(t);
        }
        let sups = &info.supertypes;
        let mut k: usize = 0;
        assert(sups@.skip(0) =~= sups@);
        while k < sups.len()
            invariant
                depth <= 20,
                k <= sups@.len(),
                field_in(self.classes(), d, name@, depth as nat) == field_in_supers(
                    self.classes(),
                    sups@,
                    name@,
                    (depth + 1) as nat,
                ),
                field_in_supers(self.classes(), sups@, name@, (depth + 1) as nat) == field_in_supers(
                    self.classes(),
                    sups@.skip(k as int),
                    name@,
                    (depth + 1) as nat,
                ),
            decreases sups@.len() - k,
        {
            assert(sups@.skip(k as int).drop_first() =~= sups@.skip(k + 1));
            assert(sups@.skip(k as int)[0] == sups@[k as int]);
            if let Some(t) = self.field_at(sups[k], name, depth + 1) {
                return Some(t);
            }
            k = k + 1;
        }
        None
    }

    /// All fields of a class with those it inherits: those of its
    /// supertypes first, depth first, then its own; of fields with the same
    /// name the first one found is kept.
    pub fn all_fields(&self, class_def: DefId) -> (r: Vec<(String, Type)>)
        ensures
            fields_view(r@) == fields_in(self.classes(), class_def, Seq::empty(), 0),
    {
        let mut result: Vec<(String, Type)> = Vec::new();
        assert(fields_view(result@) =~= Seq::<FieldV>::empty());
        self.collect_fields(class_def, &mut result, 0);
        result
    }

    fn collect_fields(&self, d: DefId, result: &mut Vec<(String, Type)>, depth: usize)
        requires
            depth <= 21,
        ensures
            fields_view(final(result)@) == fields_in(self.classes(), d, fields_view(old(result)@), depth as nat),
        decreases 22 - depth,
    {
        if depth > 20 {
            return;
        }
        let info = match self.get(d) {
            Some(i) => i,
            None => {
                return;
            },
        };
        let sups = &info.supertypes;
        let ghost start = fields_view(result@);
        let mut k: usize = 0;
        assert(sups@.skip(0) =~= sups@);
        while k < sups.len()
            invariant
                depth <= 20,
                k <= sups@.len(),
                fields_in_supers(self.classes(), sups@, start, (depth + 1) as nat) == fields_in_supers(
                    self.classes(),
                    sups@.skip(k as int),
                    fields_view(result@),
                    (depth + 1) as nat,
                ),
            decreases sups@.len() - k,
        {
            assert(sups@.skip(k as int).drop_first() =~= sups@.skip(k + 1));
            assert(sups@.skip(k as int)[0] == sups@[k as int]);
            self.collect_fields(sups[k], result, depth + 1);
            k = k + 1;
        }
        assert(sups@.skip(k as int) =~= Seq::<DefId>::empty());
        let fs = &info.fields;
        let ghost mid = fields_view(result@);
        let mut j: usize = 0;
        assert(fs@.skip(0) =~= fs@);
        while j < fs.len()
            invariant
                j <= fs@.len(),
                add_fields(mid, fs@) == add_fields(fields_view(result@), fs@.skip(j as int)),
            decreases fs@.len() - j,
        {
            assert(fs@.skip(j as int).drop_first() =~= fs@.skip(j + 1));
            assert(fs@.skip(j as int)[0] == fs@[j as int]);
            let ghost acc = fields_view(result@);
            let mut present = false;
            let mut q: usize = 0;
            while q < result.len()
                invariant
                    q <= result@.len(),
                    acc == fields_view(result@),
                    j < fs@.len(),
                    present == exists|a: int| 0 <= a < q && acc[a].0 == fs@[j as int].0@,
                decreases result@.len() - q,
            {
                assert(acc[q as int] == (result@[q as int].0@, result@[q as int].1@));
                if str_eq(result[q].0.as_str(), fs[j].0.as_str()) {
                    present = true;
                }
                q = q + 1;
            }
            assert(present == has_field(acc, fs@[j as int].0@));
            if !present {
                let n = fs[j].0.clone();
                let t = fs[j].1.copy();
                result.push((n, t));
                assert(fields_view(result@) =~= acc.push((fs@[j as int].0@, fs@[j as int].1@)));
            }
            j = j + 1;
        }
        assert(fs@.skip(j as int) =~= Seq::<(String, Type)>::empty());
    }
}

/// The declarations given for the names, those without one dropped.
pub open spec fn somes(outs: Seq<Option<DefId>>) -> Seq<DefId>
    decreases outs.len(),
{
    if outs.len() == 0 {
        Seq::empty()
    } else {
        match outs.last() {
            Some(d) => somes(outs.drop_last()).push(d),
            None => somes(outs.drop_last()),
        }
    }
}

/// `lookup` may give `out` for the name `n`.
pub open spec fn looks_up<F: Fn(&str) -> Option<DefId>>(lookup: F, n: Seq<char>, out: Option<DefId>) -> bool {
    exists|s: &str| s@ == n && lookup.ensures((s,), out)
}

/// `sups` is what `lookup` gives for the names, those it does not find
/// dropped.
pub open spec fn resolved_by<F: Fn(&str) -> Option<DefId>>(lookup: F, names: Seq<String>, sups: Seq<DefId>) -> bool {
    exists|outs: Seq<Option<DefId>>|
        outs.len() == names.len() && (forall|j: int| 0 <= j < names.len() ==> looks_up(lookup, names[j]@, #[trigger] outs[j]))
            && sups == somes(outs)
}

fn resolve_names<F: Fn(&str) -> Option<DefId>>(names: &Vec<String>, lookup: &F) -> (r: Vec<DefId>)
    requires
        forall|s: &str| lookup.requires((s,)),
    ensures
        resolved_by(*lookup, names@, r@),
{
    let mut r: Vec<DefId> = Vec::new();
    let ghost mut outs: Seq<Option<DefId>> = Seq::empty();
    let mut j: usize = 0;
    while j < names.len()
        invariant
            j <= names@.len(),
            forall|s: &str| lookup.requires((s,)),
            outs.len() == j,
            forall|a: int| 0 <= a < j ==> looks_up(*lookup, names@[a]@, #[trigger] outs[a]),
            r@ == somes(outs),
        decreases names@.len() - j,
    {
        let o = lookup(names[j].as_str());
        proof {
            assert(looks_up(*lookup, names@[j as int]@, o));
            let before = outs;
            outs = outs.push(o);
            assert(outs.drop_last() =~= before);
            assert forall|a: int| 0 <= a < j + 1 implies looks_up(*lookup, names@[a]@, #[trigger] outs[a]) by {
                if a < j {
                    assert(outs[a] == before[a]);
                }
            }
        }
        if let Some(d) = o {
            r.push(d);
        }
        j = j + 1;
    }
    r
}

impl ClassHierarchy {
    /// Sets the supertypes of every class to what `lookup` gives for its
    /// supertype names, in order, names it does not find dropped.
    pub fn resolve_supertypes<F: Fn(&str) -> Option<DefId>>(&mut self, lookup: F)
        requires
            old(self).wf(),
            forall|s: &str| lookup.requires((s,)),
        ensures
            final(self).wf(),
            final(self).classes().len() == old(self).classes().len(),
            forall|i: int|
                0 <= i < final(self).classes().len() ==> {
                    let c = #[trigger] final(self).classes()[i];
                    let o = old(self).classes()[i];
                    &&& c.def_id == o.def_id
                    &&& c.supertype_names == o.supertype_names
                    &&& c.member_predicates == o.member_predicates
                    &&& c.fields == o.fields
                    &&& resolved_by(lookup, o.supertype_names@, c.supertypes@)
                },
            forall|n: Seq<char>| final(self).names(n) == old(self).names(n),
    {
        let mut i: usize = 0;
        while i < self.classes.len()
            invariant
                i <= self.classes@.len(),
                self.classes@.len() == old(self).classes@.len(),
                self.name_to_def@ == old(self).name_to_def@,
                old(self).wf(),
                forall|s: &str| lookup.requires((s,)),
                forall|a: int| i <= a < self.classes@.len() ==> #[trigger] self.classes@[a] == old(self).classes@[a],
                forall|a: int|
                    0 <= a < i ==> {
                        let c = #[trigger] self.classes@[a];
                        let o = old(self).classes@[a];
                        &&& c.def_id == o.def_id
                        &&& c.supertype_names == o.supertype_names
                        &&& c.member_predicates == o.member_predicates
                        &&& c.fields == o.fields
                        &&& resolved_by(lookup, o.supertype_names@, c.supertypes@)
                    },
            decreases self.classes@.len() - i,
        {
            let sups = resolve_names(&self.classes[i].supertype_names, &lookup);
            let ghost before = self.classes@;
            let mut info = self.classes.remove(i);
            info.supertypes = sups;
            self.classes.insert(i, info);
            proof {
                assert(self.classes@ =~= before.update(i as int, info));
                assert(before[i as int] == old(self).classes@[i as int]);
            }
            i = i + 1;
        }
        proof {
            assert forall|a: int, b: int| 0 <= a < b < self.classes@.len() implies self.classes@[a].def_id
                != self.classes@[b].def_id by {
                assert(self.classes@[a].def_id == old(self).classes@[a].def_id);
                assert(self.classes@[b].def_id == old(self).classes@[b].def_id);
            }
        }
    }
}

} // verus!
