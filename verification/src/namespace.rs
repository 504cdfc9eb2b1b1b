//! The namespaces of a module: its types, predicates and modules by name,
//! and the lookups that search several namespaces in turn.

use vstd::prelude::*;
use crate::def::DefId;
use crate::types::{Type, TypeV};
use crate::text::{str_eq, copy_str};
use crate::resolve::{alias_of, alias_view, find_alias};

verus! {

/// What name resolution needs to know of a predicate.
#[derive(Debug)]
pub struct PredicateInfo {
    pub def_id: DefId,
    /// `None` for a predicate without result; otherwise its result type.
    pub result_type: Option<Type>,
    /// Number of parameters, the result not counted.
    pub arity: usize,
}

/// A predicate as its declaration, result type and arity.
pub type PredicateV = (DefId, Option<TypeV>, usize);

/// The view of a result type.
pub open spec fn result_view(t: Option<Type>) -> Option<TypeV> {
    match t {
        Some(t) => Some(t@),
        None => None,
    }
}

impl PredicateInfo {
    /// The predicate as its declaration, result type and arity.
    pub open spec fn v(&self) -> PredicateV {
        (self.def_id, result_view(self.result_type), self.arity)
    }

    /// A copy of the information.
    pub fn copy(&self) -> (r: PredicateInfo)
        ensures
            r.v() == self.v(),
    {
        let result_type = match &self.result_type {
            Some(t) => Some(t.copy()),
            None => None,
        };
        PredicateInfo { def_id: self.def_id, result_type, arity: self.arity }
    }
}

/// The map a list of named entries stands for: a later entry of a name
/// replaces an earlier one.
pub open spec fn named_map(s: Seq<(String, DefId)>) -> Map<Seq<char>, DefId>
    decreases s.len(),
{
    if s.len() == 0 {
        Map::empty()
    } else {
        named_map(s.drop_last()).insert(s.last().0@, s.last().1)
    }
}

/// The map a list of predicate entries stands for, keyed by name and
/// arity: a later entry replaces an earlier one.
pub open spec fn pred_map(s: Seq<(String, usize, PredicateInfo)>) -> Map<(Seq<char>, usize), PredicateV>
    decreases s.len(),
{
    if s.len() == 0 {
        Map::empty()
    } else {
        pred_map(s.drop_last()).insert((s.last().0@, s.last().1), s.last().2.v())
    }
}

/// The namespaces of a module.
pub struct ModuleNamespaces {
    types: Vec<(String, DefId)>,
    predicates: Vec<(String, usize, PredicateInfo)>,
    modules: Vec<(String, DefId)>,
    /// The primitive type each alias or primitive-extending class stands
    /// for, the latest entry of a declaration first.
    type_aliases: Vec<(DefId, Type)>,
}

pub(crate) fn find_named(s: &Vec<(String, DefId)>, name: &str) -> (r: Option<DefId>)
    ensures
        match r {
            Some(d) => named_map(s@).dom().contains(name@) && named_map(s@)[name@] == d,
            None => !named_map(s@).dom().contains(name@),
        },
{
    let mut i = s.len();
    assert(s@.take(i as int) =~= s@);
    while i > 0
        invariant
            i <= s@.len(),
            named_map(s@.take(i as int)).dom().contains(name@) == named_map(s@).dom().contains(name@),
            named_map(s@.take(i as int)).dom().contains(name@) ==> named_map(s@.take(i as int))[name@] == named_map(
                s@,
            )[name@],
        decreases i,
    {
        assert(s@.take(i as int).drop_last() =~= s@.take(i - 1));
        assert(s@.take(i as int).last() == s@[i - 1]);
        if str_eq(s[i - 1].0.as_str(), name) {
            return Some(s[i - 1].1);
        }
        i = i - 1;
    }
    None
}

impl ModuleNamespaces {
    /// The type namespace.
    pub closed spec fn types(&self) -> Map<Seq<char>, DefId> {
        named_map(self.types@)
    }

    /// The predicate namespace, keyed by name and arity.
    pub closed spec fn predicates(&self) -> Map<(Seq<char>, usize), PredicateV> {
        pred_map(self.predicates@)
    }

    /// The module namespace.
    pub closed spec fn modules(&self) -> Map<Seq<char>, DefId> {
        named_map(self.modules@)
    }

    /// The alias entries, the one that counts for a declaration first.
    pub closed spec fn type_aliases(&self) -> Seq<(DefId, TypeV)> {
        alias_view(self.type_aliases@)
    }

    /// Empty namespaces.
    pub fn new() -> (r: ModuleNamespaces)
        ensures
            r.types() == Map::<Seq<char>, DefId>::empty(),
            r.predicates() == Map::<(Seq<char>, usize), PredicateV>::empty(),
            r.modules() == Map::<Seq<char>, DefId>::empty(),
            r.type_aliases() == Seq::<(DefId, TypeV)>::empty(),
    {
        let r = ModuleNamespaces { types: Vec::new(), predicates: Vec::new(), modules: Vec::new(), type_aliases: Vec::new() };
        assert(r.type_aliases() =~= Seq::<(DefId, TypeV)>::empty());
        r
    }

    /// Records that declaration `id` stands for type `ty`, replacing an
    /// earlier entry of `id`.
    pub fn insert_type_alias(&mut self, id: DefId, ty: Type)
        ensures
            final(self).type_aliases() == seq![(id, ty@)] + old(self).type_aliases(),
            alias_of(final(self).type_aliases(), id) == Some(ty@),
            final(self).types() == old(self).types(),
            final(self).predicates() == old(self).predicates(),
            final(self).modules() == old(self).modules(),
    {
        self.type_aliases.insert(0, (id, ty));
        assert(self.type_aliases() =~= seq![(id, ty@)] + old(self).type_aliases());
    }

    /// The type declaration `id` stands for, if it is an alias.
    pub fn get_type_alias(&self, id: DefId) -> (r: Option<Type>)
        ensures
            match r {
                Some(t) => alias_of(self.type_aliases(), id) == Some(t@),
                None => alias_of(self.type_aliases(), id) is None,
            },
    {
        find_alias(&self.type_aliases, id)
    }

    /// A copy of the alias entries.
    pub fn alias_entries(&self) -> (r: Vec<(DefId, Type)>)
        ensures
            alias_view(r@) == self.type_aliases(),
    {
        let mut r: Vec<(DefId, Type)> = Vec::new();
        let mut i: usize = 0;
        while i < self.type_aliases.len()
            invariant
                i <= self.type_aliases@.len(),
                r@.len() == i,
                forall|k: int| 0 <= k < i ==> #[trigger] r@[k].0 == self.type_aliases@[k].0 && r@[k].1@ == self.type_aliases@[k].1@,
            decreases self.type_aliases@.len() - i,
        {
            let t = self.type_aliases[i].1.copy();
            r.push((self.type_aliases[i].0, t));
            i = i + 1;
        }
        assert(alias_view(r@) =~= alias_view(self.type_aliases@)) by {
            assert forall|k: int| 0 <= k < r@.len() implies alias_view(r@)[k] == alias_view(self.type_aliases@)[k] by {
                assert(r@[k].0 == self.type_aliases@[k].0);
            }
        }
        r
    }

    /// Binds a type name, replacing an earlier binding.
    pub fn insert_type(&mut self, name: &str, id: DefId)
        ensures
            final(self).types() == old(self).types().insert(name@, id),
            final(self).predicates() == old(self).predicates(),
            final(self).modules() == old(self).modules(),
            final(self).type_aliases() == old(self).type_aliases(),
    {
        let ghost before = self.types@;
        self.types.push((copy_str(name), id));
        assert(self.types@.drop_last() =~= before);
    }

    /// Binds a module name, replacing an earlier binding.
    pub fn insert_module(&mut self, name: &str, id: DefId)
        ensures
            final(self).modules() == old(self).modules().insert(name@, id),
            final(self).types() == old(self).types(),
            final(self).predicates() == old(self).predicates(),
            final(self).type_aliases() == old(self).type_aliases(),
    {
        let ghost before = self.modules@;
        self.modules.push((copy_str(name), id));
        assert(self.modules@.drop_last() =~= before);
    }

    /// Binds a predicate by name and arity, replacing an earlier binding.
    pub fn insert_predicate(&mut self, name: &str, arity: usize, info: PredicateInfo)
        ensures
            final(self).predicates() == old(self).predicates().insert((name@, arity), info.v()),
            final(self).types() == old(self).types(),
            final(self).modules() == old(self).modules(),
            final(self).type_aliases() == old(self).type_aliases(),
    {
        let ghost before = self.predicates@;
        self.predicates.push((copy_str(name), arity, info));
        assert(self.predicates@.drop_last() =~= before);
    }

    /// The type bound to `name`.
    pub fn get_type(&self, name: &str) -> (r: Option<DefId>)
        ensures
            match r {
                Some(d) => self.types().dom().contains(name@) && self.types()[name@] == d,
                None => !self.types().dom().contains(name@),
            },
    {
        find_named(&self.types, name)
    }

    /// The module bound to `name`.
    pub fn get_module(&self, name: &str) -> (r: Option<DefId>)
        ensures
            match r {
                Some(d) => self.modules().dom().contains(name@) && self.modules()[name@] == d,
                None => !self.modules().dom().contains(name@),
            },
    {
        find_named(&self.modules, name)
    }

    /// The predicate bound to `name` with `arity` parameters.
    pub fn get_predicate(&self, name: &str, arity: usize) -> (r: Option<&PredicateInfo>)
        ensures
            match r {
                Some(p) => self.predicates().dom().contains((name@, arity)) && self.predicates()[(name@, arity)]
                    == p.v(),
                None => !self.predicates().dom().contains((name@, arity)),
            },
    {
        let s = &self.predicates;
        let mut i = s.len();
        assert(s@.take(i as int) =~= s@);
        while i > 0
            invariant
                s == &self.predicates,
                i <= s@.len(),
                pred_map(s@.take(i as int)).dom().contains((name@, arity)) == pred_map(s@).dom().contains(
                    (name@, arity),
                ),
                pred_map(s@.take(i as int)).dom().contains((name@, arity)) ==> pred_map(s@.take(i as int))[(
                    name@,
                    arity,
                )] == pred_map(s@)[(name@, arity)],
            decreases i,
        {
            assert(s@.take(i as int).drop_last() =~= s@.take(i - 1));
            assert(s@.take(i as int).last() == s@[i - 1]);
            if s[i - 1].1 == arity && str_eq(s[i - 1].0.as_str(), name) {
                return Some(&s[i - 1].2);
            }
            i = i - 1;
        }
        None
    }
}

/// The first namespace of `chain` whose types bind `name` gives its
/// binding.
pub open spec fn chain_type(chain: Seq<&ModuleNamespaces>, name: Seq<char>) -> Option<DefId>
    decreases chain.len(),
{
    if chain.len() == 0 {
        None
    } else if chain[0].types().dom().contains(name) {
        Some(chain[0].types()[name])
    } else {
        chain_type(chain.drop_first(), name)
    }
}

/// The first namespace of `chain` whose modules bind `name` gives its
/// binding.
pub open spec fn chain_module(chain: Seq<&ModuleNamespaces>, name: Seq<char>) -> Option<DefId>
    decreases chain.len(),
{
    if chain.len() == 0 {
        None
    } else if chain[0].modules().dom().contains(name) {
        Some(chain[0].modules()[name])
    } else {
        chain_module(chain.drop_first(), name)
    }
}

/// The first namespace of `chain` whose predicates bind `name` with this
/// arity gives its binding.
pub open spec fn chain_predicate(chain: Seq<&ModuleNamespaces>, name: Seq<char>, arity: usize) -> Option<PredicateV>
    decreases chain.len(),
{
    if chain.len() == 0 {
        None
    } else if chain[0].predicates().dom().contains((name, arity)) {
        Some(chain[0].predicates()[(name, arity)])
    } else {
        chain_predicate(chain.drop_first(), name, arity)
    }
}

/// Looks a type up in the namespaces in order (for name resolution: the
/// file's own, the imported, the builtin, the project-wide ones).
pub fn lookup_type(chain: &Vec<&ModuleNamespaces>, name: &str) -> (r: Option<DefId>)
    ensures
        r == chain_type(chain@, name@),
{
    let mut i: usize = 0;
    assert(chain@.skip(0) =~= chain@);
    while i < chain.len()
        invariant
            i <= chain@.len(),
            chain_type(chain@, name@) == chain_type(chain@.skip(i as int), name@),
        decreases chain@.len() - i,
    {
        assert(chain@.skip(i as int).drop_first() =~= chain@.skip(i + 1));
        assert(chain@.skip(i as int)[0] == chain@[i as int]);
        match chain[i].get_type(name) {
            Some(d) => {
                return Some(d);
            },
            None => {},
        }
        i = i + 1;
    }
    None
}

/// Looks a module up in the namespaces in order.
pub fn lookup_module(chain: &Vec<&ModuleNamespaces>, name: &str) -> (r: Option<DefId>)
    ensures
        r == chain_module(chain@, name@),
{
    let mut i: usize = 0;
    assert(chain@.skip(0) =~= chain@);
    while i < chain.len()
        invariant
            i <= chain@.len(),
            chain_module(chain@, name@) == chain_module(chain@.skip(i as int), name@),
        decreases chain@.len() - i,
    {
        assert(chain@.skip(i as int).drop_first() =~= chain@.skip(i + 1));
        assert(chain@.skip(i as int)[0] == chain@[i as int]);
        match chain[i].get_module(name) {
            Some(d) => {
                return Some(d);
            },
            None => {},
        }
        i = i + 1;
    }
    None
}

/// Looks a predicate up by name and arity in the namespaces in order.
pub fn lookup_predicate<'a>(chain: &Vec<&'a ModuleNamespaces>, name: &str, arity: usize) -> (r: Option<&'a PredicateInfo>)
    ensures
        match r {
            Some(p) => chain_predicate(chain@, name@, arity) == Some(p.v()),
            None => chain_predicate(chain@, name@, arity) is None,
        },
{
    let mut i: usize = 0;
    assert(chain@.skip(0) =~= chain@);
    while i < chain.len()
        invariant
            i <= chain@.len(),
            chain_predicate(chain@, name@, arity) == chain_predicate(chain@.skip(i as int), name@, arity),
        decreases chain@.len() - i,
    {
        assert(chain@.skip(i as int).drop_first() =~= chain@.skip(i + 1));
        assert(chain@.skip(i as int)[0] == chain@[i as int]);
        let ns: &'a ModuleNamespaces = chain[i];
        match ns.get_predicate(name, arity) {
            Some(p) => {
                return Some(p);
            },
            None => {},
        }
        i = i + 1;
    }
    None
}

} // verus!
