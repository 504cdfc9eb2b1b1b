//! Building the index of a workspace: its own packs, the packs they need
//! from the directories above it, and the QL files under each import root.
//!
//! What lies on disk reaches this module through the caller's closures:
//! one lists the packs found above the workspace, the other the QL files
//! under a directory.

use vstd::prelude::*;
use crate::text::{views, str_eq, copy_strings};
use crate::paths::{components, render, parent_comps, path_components, render_components};
use crate::project::{QlPack, FileInfo, ProjectIndex, pack_names_of, file_paths_of, missing_deps, keep_out, opt_view,
    root_pack, ql_source_path, is_ql_source_path, parent_components};

verus! {

/// The packs of a list, keeping the first pack of each name.
pub open spec fn first_of_each_name(ps: Seq<QlPack>) -> Seq<QlPack>
    decreases ps.len(),
{
    if ps.len() == 0 {
        Seq::empty()
    } else {
        let r = first_of_each_name(ps.drop_last());
        if pack_names_of(r).contains(ps.last().name@) {
            r
        } else {
            r.push(ps.last())
        }
    }
}

/// The roots of a list of packs.
pub open spec fn roots_of(ps: Seq<QlPack>) -> Seq<Seq<char>> {
    ps.map_values(|p: QlPack| p.root@)
}

/// The import roots of a discovered index (`roots`, as `discover` gives
/// them for `packs`): there is at least one; the root of every pack is one
/// of them; and when the packs stand in distinct directories, no root
/// occurs twice.
pub proof fn lemma_discovered_roots(packs: Seq<QlPack>, workspace_root: Seq<char>, roots: Seq<Seq<char>>)
    requires
        roots == (if packs.len() == 0 {
            seq![workspace_root]
        } else {
            roots_of(packs)
        }),
    ensures
        roots.len() > 0,
        forall|i: int| 0 <= i < packs.len() ==> roots.contains(#[trigger] packs[i].root@),
        (forall|i: int, j: int| 0 <= i < j < packs.len() ==> #[trigger] packs[i].root@ != #[trigger] packs[j].root@)
            ==> roots.no_duplicates(),
{
    if packs.len() > 0 {
        assert forall|i: int| 0 <= i < packs.len() implies roots.contains(#[trigger] packs[i].root@) by {
            assert(roots[i] == packs[i].root@);
        }
    }
    if forall|i: int, j: int| 0 <= i < j < packs.len() ==> #[trigger] packs[i].root@ != #[trigger] packs[j].root@ {
        if packs.len() > 0 {
            assert forall|i: int, j: int| 0 <= i < roots.len() && 0 <= j < roots.len() && i != j implies roots[i] != roots[j] by {
                if i < j {
                    assert(packs[i].root@ != packs[j].root@);
                } else {
                    assert(packs[j].root@ != packs[i].root@);
                }
            }
        }
    }
}

/// How many directories above the workspace are searched for the packs it
/// needs.
pub const PARENT_LEVELS: usize = 5;

/// The ancestors of a path with components `c`, nearest first, at most
/// `n` of them, each by its components.
pub open spec fn ancestors(c: Seq<Seq<char>>, n: nat) -> Seq<Seq<Seq<char>>>
    decreases n,
{
    if n == 0 {
        Seq::empty()
    } else {
        match parent_comps(c) {
            Some(p) => seq![p] + ancestors(p, (n - 1) as nat),
            None => Seq::empty(),
        }
    }
}

/// The directories searched for packs above the workspace at `root`: its
/// ancestors (`Path::parent` taken again and again), nearest first, at
/// most `PARENT_LEVELS` of them.
pub open spec fn parent_search_dirs_of(root: Seq<char>) -> Seq<Seq<char>> {
    render_all(ancestors(components(root), PARENT_LEVELS as nat))
}

/// The texts of a list of component lists.
pub open spec fn render_all(a: Seq<Seq<Seq<char>>>) -> Seq<Seq<char>> {
    a.map_values(|c: Seq<Seq<char>>| render(c))
}

/// The last of the ancestors `a` of `c0`, or `c0` itself when there are
/// none.
pub open spec fn last_or(c0: Seq<Seq<char>>, a: Seq<Seq<Seq<char>>>) -> Seq<Seq<char>> {
    if a.len() == 0 { c0 } else { a.last() }
}

/// The first `k + n` ancestors are the first `k` followed, when there are
/// `k` of them, by `n` ancestors of the last one.
proof fn lemma_ancestors_split(c0: Seq<Seq<char>>, k: nat, n: nat)
    ensures
        ancestors(c0, k + n) == ancestors(c0, k) + (if ancestors(c0, k).len() == k {
            ancestors(last_or(c0, ancestors(c0, k)), n)
        } else {
            Seq::empty()
        }),
    decreases k,
{
    if k == 0 {
        assert(ancestors(c0, 0) =~= Seq::<Seq<Seq<char>>>::empty());
        assert(ancestors(c0, 0) + ancestors(c0, n) =~= ancestors(c0, n));
    } else {
        match parent_comps(c0) {
            Some(p) => {
                lemma_ancestors_split(p, (k - 1) as nat, n);
                assert((k - 1) as nat + n == (k + n - 1) as nat);
                let a = ancestors(p, (k - 1) as nat);
                assert(ancestors(c0, k) == seq![p] + a);
                assert(ancestors(c0, k + n) == seq![p] + ancestors(p, (k + n - 1) as nat));
                assert(last_or(c0, seq![p] + a) == last_or(p, a));
                if a.len() == k - 1 {
                    assert(seq![p] + (a + ancestors(last_or(p, a), n)) =~= (seq![p] + a) + ancestors(last_or(p, a), n));
                } else {
                    assert(seq![p] + (a + Seq::<Seq<Seq<char>>>::empty()) =~= (seq![p] + a) + Seq::<Seq<Seq<char>>>::empty());
                }
            },
            None => {
                assert(ancestors(c0, k) + Seq::<Seq<Seq<char>>>::empty() =~= ancestors(c0, k + n));
            },
        }
    }
}

/// The directories searched for packs above the workspace at
/// `workspace_root`, nearest first (`parent_search_dirs_of`).
pub fn parent_search_dirs(workspace_root: &str) -> (r: Vec<String>)
    ensures
        views(r@) == parent_search_dirs_of(workspace_root@),
{
    let mut c = path_components(workspace_root);
    let ghost c0 = views(c@);
    let mut out: Vec<String> = Vec::new();
    let mut k: usize = 0;
    assert(ancestors(c0, 0) =~= Seq::<Seq<Seq<char>>>::empty());
    assert(views(out@) =~= render_all(ancestors(c0, 0)));
    while k < PARENT_LEVELS
        invariant
            c0 == components(workspace_root@),
            k <= PARENT_LEVELS,
            ancestors(c0, k as nat).len() == k,
            views(c@) == last_or(c0, ancestors(c0, k as nat)),
            views(out@) == render_all(ancestors(c0, k as nat)),
        decreases PARENT_LEVELS - k,
    {
        proof {
            lemma_ancestors_split(c0, k as nat, 1);
            lemma_ancestors_split(c0, k as nat, (PARENT_LEVELS - k) as nat);
        }
        match parent_components(&c) {
            Some(p) => {
                let d = render_components(&p);
                let ghost before = views(out@);
                out.push(d);
                proof {
                    let a = ancestors(c0, k as nat);
                    assert(ancestors(views(c@), 1) == seq![views(p@)] + ancestors(views(p@), 0));
                    assert(ancestors(c0, (k + 1) as nat) =~= a.push(views(p@)));
                    assert(render_all(a.push(views(p@))) =~= render_all(a).push(render(views(p@))));
                    assert(views(out@) =~= render_all(ancestors(c0, (k + 1) as nat)));
                }
                c = p;
            },
            None => {
                proof {
                    assert(k as nat + (PARENT_LEVELS - k) as nat == PARENT_LEVELS as nat);
                    assert(ancestors(views(c@), (PARENT_LEVELS - k) as nat) =~= Seq::<Seq<Seq<char>>>::empty());
                    assert(ancestors(c0, PARENT_LEVELS as nat) =~= ancestors(c0, k as nat));
                }
                return out;
            },
        }
        k = k + 1;
    }
    out
}

/// A directory holds at most one pack: packs standing at the same root
/// have the same name.
pub open spec fn one_pack_per_root(ps: Seq<QlPack>) -> bool {
    forall|i: int, j: int|
        #![trigger ps[i], ps[j]]
        0 <= i < ps.len() && 0 <= j < ps.len() && ps[i].root@ == ps[j].root@ ==> ps[i].name@ == ps[j].name@
}

/// The import roots of an index that `discover` built (`r`, from the
/// local packs `local` and the packs `parent_packs` lists above the
/// workspace) are pairwise distinct whenever no directory holds two packs
/// of different names among the local packs and those `parent_packs` may
/// list.
pub proof fn lemma_discovered_roots_distinct<P: Fn() -> Vec<QlPack>>(
    local: Seq<QlPack>,
    parent_packs: P,
    workspace_root: Seq<char>,
    r: ProjectIndex,
)
    requires
        r.wf(),
        needed_closure(first_of_each_name(local), r.packs(), parent_packs),
        r.roots() == (if r.packs().len() == 0 {
            seq![workspace_root]
        } else {
            roots_of(r.packs())
        }),
        one_pack_per_root(local),
        forall|a: Seq<QlPack>| fetched(parent_packs, a) ==> one_pack_per_root(local + a),
    ensures
        r.roots().no_duplicates(),
{
    r.lemma_wf_distinct();
    let ps = r.packs();
    let pre = first_of_each_name(local);
    lemma_first_names(local);
    if ps.len() > 0 {
        let src: Seq<QlPack> = if ps == pre && missing_deps(pre, pack_names_of(pre)).len() == 0 {
            local
        } else {
            let a = choose|a: Seq<QlPack>|
                #![trigger first_of_each_name(a)]
                fetched(parent_packs, a) && (forall|k: int|
                    pre.len() <= k < ps.len() ==> first_of_each_name(a).contains(#[trigger] ps[k])) && deps_settled(ps, a);
            lemma_first_names(a);
            assert forall|k: int| 0 <= k < ps.len() implies (local + a).contains(#[trigger] ps[k]) by {
                if k < pre.len() {
                    assert(ps.subrange(0, pre.len() as int)[k] == ps[k]);
                    assert(pre[k] == ps[k]);
                    assert(pre.contains(pre[k]));
                    assert(local.contains(pre[k]));
                    let m = choose|m: int| 0 <= m < local.len() && local[m] == pre[k];
                    assert((local + a)[m] == local[m]);
                } else {
                    assert(first_of_each_name(a).contains(ps[k]));
                    assert(a.contains(ps[k]));
                    let m = choose|m: int| 0 <= m < a.len() && a[m] == ps[k];
                    assert((local + a)[local.len() + m] == a[m]);
                }
            }
            local + a
        };
        assert(one_pack_per_root(src));
        assert forall|k: int| 0 <= k < ps.len() implies src.contains(#[trigger] ps[k]) by {
            if ps == pre && missing_deps(pre, pack_names_of(pre)).len() == 0 {
                assert(pre.contains(pre[k]));
            }
        }
        let roots = r.roots();
        assert forall|i: int, j: int| 0 <= i < roots.len() && 0 <= j < roots.len() && i != j implies roots[i]
            != roots[j] by {
            assert(roots[i] == ps[i].root@);
            assert(roots[j] == ps[j].root@);
            if roots[i] == roots[j] {
                assert(src.contains(ps[i]));
                assert(src.contains(ps[j]));
                let mi = choose|m: int| 0 <= m < src.len() && src[m] == ps[i];
                let mj = choose|m: int| 0 <= m < src.len() && src[m] == ps[j];
                assert(src[mi].root@ == src[mj].root@);
                assert(pack_names_of(ps)[i] == pack_names_of(ps)[j]);
            }
        }
    }
}

/// Each pack from position `n` on is named as a dependency by a pack
/// before it.
pub open spec fn each_needed(ps: Seq<QlPack>, n: int) -> bool {
    forall|k: int|
        #![trigger ps[k]]
        n <= k < ps.len() ==> exists|j: int|
            0 <= j < k && #[trigger] views(ps[j].dependencies@).contains(ps[k].name@)
}

/// No dependency the packs still miss is the name of a pack in `a`.
pub open spec fn deps_settled(ps: Seq<QlPack>, a: Seq<QlPack>) -> bool {
    forall|d: Seq<char>| #[trigger] missing_deps(ps, pack_names_of(ps)).contains(d) ==> !pack_names_of(a).contains(d)
}

/// `parent_packs` may return the packs `a`.
pub open spec fn fetched<P: Fn() -> Vec<QlPack>>(parent_packs: P, a: Seq<QlPack>) -> bool {
    exists|v: Vec<QlPack>| parent_packs.ensures((), v) && v@ == a
}

proof fn lemma_first_names(ps: Seq<QlPack>)
    ensures
        pack_names_of(first_of_each_name(ps)).no_duplicates(),
        forall|x: QlPack| first_of_each_name(ps).contains(x) ==> ps.contains(x),
        forall|n: Seq<char>| pack_names_of(ps).contains(n) ==> pack_names_of(first_of_each_name(ps)).contains(n),
    decreases ps.len(),
{
    if ps.len() > 0 {
        let q = ps.drop_last();
        lemma_first_names(q);
        let r = first_of_each_name(q);
        assert forall|x: QlPack| first_of_each_name(ps).contains(x) implies ps.contains(x) by {
            let f = first_of_each_name(ps);
            let i = choose|i: int| 0 <= i < f.len() && f[i] == x;
            if i < r.len() {
                assert(r[i] == x);
                assert(r.contains(x));
                assert(q.contains(x));
                let k = choose|k: int| 0 <= k < q.len() && q[k] == x;
                assert(ps[k] == x);
            } else {
                assert(x == ps.last());
                assert(ps[ps.len() - 1] == x);
            }
        }
        assert forall|n: Seq<char>| pack_names_of(ps).contains(n) implies pack_names_of(
            first_of_each_name(ps),
        ).contains(n) by {
            let k = choose|k: int| 0 <= k < ps.len() && pack_names_of(ps)[k] == n;
            let l = ps.last();
            if k < ps.len() - 1 {
                assert(q[k] == ps[k]);
                assert(pack_names_of(q)[k] == n);
                assert(pack_names_of(q).contains(n));
                assert(pack_names_of(r).contains(n));
                let m = choose|m: int| 0 <= m < pack_names_of(r).len() && pack_names_of(r)[m] == n;
                if !pack_names_of(r).contains(l.name@) {
                    assert(pack_names_of(r.push(l))[m] == n);
                    assert(pack_names_of(r.push(l)).contains(n));
                }
            } else {
                assert(n == l.name@);
                if !pack_names_of(r).contains(l.name@) {
                    assert(pack_names_of(r.push(l))[r.len() as int] == n);
                    assert(pack_names_of(r.push(l)).contains(n));
                }
            }
        }
        if !pack_names_of(r).contains(ps.last().name@) {
            assert(pack_names_of(r.push(ps.last())) =~= pack_names_of(r).push(ps.last().name@));
        }
    }
}

proof fn lemma_missing_named(ps: Seq<QlPack>, known: Seq<Seq<char>>, d: Seq<char>)
    requires
        missing_deps(ps, known).contains(d),
    ensures
        !known.contains(d),
        exists|j: int| 0 <= j < ps.len() && #[trigger] views(ps[j].dependencies@).contains(d),
    decreases ps.len(),
{
    let q = ps.drop_last();
    let tail = keep_out(views(ps.last().dependencies@), known);
    if missing_deps(q, known).contains(d) {
        lemma_missing_named(q, known, d);
        let j = choose|j: int| 0 <= j < q.len() && #[trigger] views(q[j].dependencies@).contains(d);
        assert(views(ps[j].dependencies@).contains(d));
    } else {
        let k = choose|k: int| 0 <= k < missing_deps(ps, known).len() && missing_deps(ps, known)[k] == d;
        assert(missing_deps(ps, known) == missing_deps(q, known) + tail);
        assert(tail[k - missing_deps(q, known).len()] == d);
        lemma_keep_out(views(ps.last().dependencies@), known, d);
        assert(views(ps[ps.len() - 1].dependencies@).contains(d));
    }
}

proof fn lemma_keep_out(s: Seq<Seq<char>>, t: Seq<Seq<char>>, d: Seq<char>)
    requires
        keep_out(s, t).contains(d),
    ensures
        s.contains(d),
        !t.contains(d),
    decreases s.len(),
{
    let q = s.drop_last();
    if keep_out(q, t).contains(d) {
        lemma_keep_out(q, t, d);
        let k = choose|k: int| 0 <= k < q.len() && q[k] == d;
        assert(s[k] == d);
    } else {
        assert(d == s.last());
        assert(s[s.len() - 1] == d);
    }
}

/// Whether a pack of this name is among `ps`.
fn has_named(ps: &Vec<QlPack>, name: &str) -> (r: bool)
    ensures
        r == pack_names_of(ps@).contains(name@),
{
    let mut i: usize = 0;
    while i < ps.len()
        invariant
            i <= ps@.len(),
            forall|j: int| 0 <= j < i ==> ps@[j].name@ != name@,
        decreases ps@.len() - i,
    {
        if str_eq(ps[i].name.as_str(), name) {
            assert(pack_names_of(ps@)[i as int] == name@);
            return true;
        }
        i = i + 1;
    }
    proof {
        if pack_names_of(ps@).contains(name@) {
            let j = choose|j: int| 0 <= j < pack_names_of(ps@).len() && pack_names_of(ps@)[j] == name@;
            assert(ps@[j].name@ == name@);
        }
    }
    false
}

/// The packs, keeping the first of each name.
fn first_of_each(ps: Vec<QlPack>) -> (r: Vec<QlPack>)
    ensures
        r@ == first_of_each_name(ps@),
{
    let ghost all = ps@;
    let n = ps.len();
    let mut rest = ps;
    let mut r: Vec<QlPack> = Vec::new();
    let mut k: usize = 0;
    while rest.len() > 0
        invariant
            k + rest@.len() == all.len(),
            all.len() == n,
            rest@ == all.skip(k as int),
            r@ == first_of_each_name(all.take(k as int)),
        decreases rest@.len(),
    {
        let p = rest.remove(0);
        proof {
            assert(p == all[k as int]);
            assert(all.take(k + 1).drop_last() =~= all.take(k as int));
            assert(all.take(k + 1).last() == p);
            assert(rest@ =~= all.skip(k + 1));
        }
        if !has_named(&r, p.name.as_str()) {
            r.push(p);
        }
        k = k + 1;
    }
    assert(all.take(k as int) =~= all);
    r
}

/// Removes the pack of this name from `avail`, whose names are distinct,
/// and returns it.
fn take_named(avail: &mut Vec<QlPack>, name: &str) -> (r: Option<QlPack>)
    ensures
        match r {
            Some(p) => p.name@ == name@ && exists|k: int|
                0 <= k < old(avail)@.len() && old(avail)@[k] == p && final(avail)@ == old(avail)@.remove(k),
            None => !pack_names_of(old(avail)@).contains(name@) && final(avail)@ == old(avail)@,
        },
{
    let mut i: usize = 0;
    while i < avail.len()
        invariant
            i <= avail@.len(),
            avail@ == old(avail)@,
            forall|j: int| 0 <= j < i ==> avail@[j].name@ != name@,
        decreases avail@.len() - i,
    {
        if str_eq(avail[i].name.as_str(), name) {
            let p = avail.remove(i);
            return Some(p);
        }
        i = i + 1;
    }
    proof {
        if pack_names_of(avail@).contains(name@) {
            let j = choose|j: int| 0 <= j < pack_names_of(avail@).len() && pack_names_of(avail@)[j] == name@;
            assert(avail@[j].name@ == name@);
        }
    }
    None
}

/// The packs `ps` extend `pre` with what the dependencies of `pre` need
/// from the packs found above the workspace: nothing when `pre` misses no
/// dependency; otherwise packs of `parent_packs`'s list, the first of each
/// name, each named as a dependency by a pack before it, until no missing
/// dependency names a pack of that list.
pub open spec fn needed_closure<P: Fn() -> Vec<QlPack>>(pre: Seq<QlPack>, ps: Seq<QlPack>, parent_packs: P) -> bool {
    ||| ps == pre && missing_deps(pre, pack_names_of(pre)).len() == 0
    ||| {
        &&& missing_deps(pre, pack_names_of(pre)).len() > 0
        &&& pre.len() <= ps.len()
        &&& ps.subrange(0, pre.len() as int) == pre
        &&& each_needed(ps, pre.len() as int)
        &&& exists|a: Seq<QlPack>|
            #![trigger first_of_each_name(a)]
            fetched(parent_packs, a) && (forall|k: int|
                pre.len() <= k < ps.len() ==> first_of_each_name(a).contains(#[trigger] ps[k])) && deps_settled(ps, a)
    }
}

/// Adds to the index the packs its packs need from those `parent_packs`
/// lists, which it calls only when a dependency is missing.
#[verifier::spinoff_prover]
#[verifier::rlimit(40)]
fn add_needed_packs<P: Fn() -> Vec<QlPack>>(idx: &mut ProjectIndex, parent_packs: P)
    requires
        old(idx).wf(),
        old(idx).roots() == roots_of(old(idx).packs()),
        parent_packs.requires(()),
    ensures
        final(idx).wf(),
        final(idx).roots() == roots_of(final(idx).packs()),
        final(idx).files() == old(idx).files(),
        needed_closure(old(idx).packs(), final(idx).packs(), parent_packs),
{
    let ghost pre = idx.packs();
    let needed0 = idx.missing_dependencies();
    if needed0.len() == 0 {
        assert(missing_deps(pre, pack_names_of(pre)).len() == 0);
        return;
    }
    let raw = parent_packs();
    let ghost a = raw@;
    assert(fetched(parent_packs, a));
    let ghost fa = first_of_each_name(a);
    proof {
        lemma_first_names(a);
    }
    let mut avail = first_of_each(raw);
    let mut needed = needed0;
    assert(pre.subrange(0, pre.len() as int) =~= pre);
    loop
        invariant
            idx.wf(),
            idx.roots() == roots_of(idx.packs()),
            idx.files() == old(idx).files(),
            pre == old(idx).packs(),
            fetched(parent_packs, a),
            fa == first_of_each_name(a),
            forall|n: Seq<char>| pack_names_of(a).contains(n) ==> pack_names_of(fa).contains(n),
            missing_deps(pre, pack_names_of(pre)).len() > 0,
            pre.len() <= idx.packs().len(),
            idx.packs().subrange(0, pre.len() as int) == pre,
            each_needed(idx.packs(), pre.len() as int),
            forall|k: int| pre.len() <= k < idx.packs().len() ==> fa.contains(#[trigger] idx.packs()[k]),
            forall|x: QlPack| avail@.contains(x) ==> fa.contains(x),
            pack_names_of(avail@).no_duplicates(),
            forall|x: QlPack| #[trigger] fa.contains(x) ==> avail@.contains(x) || pack_names_of(idx.packs()).contains(x.name@),
            views(needed@) == missing_deps(idx.packs(), pack_names_of(idx.packs())),
        ensures
            idx.wf(),
            idx.roots() == roots_of(idx.packs()),
            idx.files() == old(idx).files(),
            pre.len() <= idx.packs().len(),
            idx.packs().subrange(0, pre.len() as int) == pre,
            each_needed(idx.packs(), pre.len() as int),
            forall|k: int| pre.len() <= k < idx.packs().len() ==> fa.contains(#[trigger] idx.packs()[k]),
            deps_settled(idx.packs(), a),
        decreases avail@.len(),
    {
        let ghost start = idx.packs();
        let ghost start_avail = avail@;
        let mut found_any = false;
        let mut i: usize = 0;
        while i < needed.len()
            invariant
                idx.wf(),
                idx.roots() == roots_of(idx.packs()),
                idx.files() == old(idx).files(),
                fa == first_of_each_name(a),
                i <= needed@.len(),
                pre.len() <= start.len(),
                start.subrange(0, pre.len() as int) == pre,
                start.len() <= idx.packs().len(),
                idx.packs().subrange(0, start.len() as int) == start,
                each_needed(idx.packs(), pre.len() as int),
                forall|k: int| pre.len() <= k < idx.packs().len() ==> fa.contains(#[trigger] idx.packs()[k]),
                forall|x: QlPack| avail@.contains(x) ==> fa.contains(x),
                pack_names_of(avail@).no_duplicates(),
                forall|x: QlPack| #[trigger] fa.contains(x) ==> avail@.contains(x) || pack_names_of(idx.packs()).contains(x.name@),
                views(needed@) == missing_deps(start, pack_names_of(start)),
                avail@.len() <= start_avail.len(),
                found_any ==> avail@.len() < start_avail.len(),
                !found_any ==> avail@ == start_avail && idx.packs() == start,
                !found_any ==> forall|j: int| 0 <= j < i ==> !pack_names_of(avail@).contains(#[trigger] needed@[j]@),
            decreases needed@.len() - i,
        {
            let ghost packs_before = idx.packs();
            let ghost avail_before = avail@;
            match take_named(&mut avail, needed[i].as_str()) {
                Some(p) => {
                    let ghost k = choose|k: int|
                        0 <= k < avail_before.len() && avail_before[k] == p && avail@ == avail_before.remove(k);
                    proof {
                        assert(avail_before.contains(p));
                        assert(fa.contains(p));
                        assert(views(needed@)[i as int] == p.name@);
                        assert(missing_deps(start, pack_names_of(start)).contains(p.name@));
                        lemma_missing_named(start, pack_names_of(start), p.name@);
                        assert forall|x: QlPack| avail@.contains(x) implies fa.contains(x) by {
                            let m = choose|m: int| 0 <= m < avail@.len() && avail@[m] == x;
                            if m < k {
                                assert(avail_before[m] == x);
                            } else {
                                assert(avail_before[m + 1] == x);
                            }
                            assert(avail_before.contains(x));
                        }
                        assert(pack_names_of(avail@) =~= pack_names_of(avail_before).remove(k));
                        assert forall|x: QlPack| avail_before.contains(x) && x != p implies avail@.contains(x) by {
                            let m = choose|m: int| 0 <= m < avail_before.len() && avail_before[m] == x;
                            if m < k {
                                assert(avail@[m] == x);
                            } else {
                                assert(m != k);
                                assert(avail@[m - 1] == x);
                            }
                        }
                    }
                    let ghost pname = p.name@;
                    let added = idx.add_pack(p);
                    proof {
                        let ps = idx.packs();
                        assert(pack_names_of(ps).contains(pname)) by {
                            if added {
                                assert(pack_names_of(ps)[packs_before.len() as int] == pname);
                            }
                        }
                        assert forall|n: Seq<char>| pack_names_of(packs_before).contains(n) implies pack_names_of(
                            ps,
                        ).contains(n) by {
                            let m = choose|m: int| 0 <= m < packs_before.len() && pack_names_of(packs_before)[m] == n;
                            assert(ps[m] == packs_before[m]);
                            assert(pack_names_of(ps)[m] == n);
                        }
                        assert(ps.subrange(0, start.len() as int) =~= start) by {
                            assert forall|m: int| 0 <= m < start.len() implies ps[m] == start[m] by {
                                assert(packs_before[m] == start[m]);
                            }
                        }
                        assert(ps.subrange(0, pre.len() as int) =~= pre) by {
                            assert forall|m: int| 0 <= m < pre.len() implies ps[m] == pre[m] by {
                                assert(start[m] == pre[m]);
                            }
                        }
                        assert forall|q: int| #![trigger ps[q]] pre.len() <= q < ps.len() implies exists|j: int|
                            0 <= j < q && #[trigger] views(ps[j].dependencies@).contains(ps[q].name@) by {
                            if q < packs_before.len() {
                                assert(ps[q] == packs_before[q]);
                                let j = choose|j: int|
                                    0 <= j < q && #[trigger] views(packs_before[j].dependencies@).contains(
                                        packs_before[q].name@,
                                    );
                                assert(ps[j] == packs_before[j]);
                            } else {
                                let j = choose|j: int|
                                    0 <= j < start.len() && #[trigger] views(start[j].dependencies@).contains(pname);
                                assert(ps[j] == start[j]);
                            }
                        }
                        assert forall|q: int| pre.len() <= q < ps.len() implies fa.contains(#[trigger] ps[q]) by {
                            if q < packs_before.len() {
                                assert(ps[q] == packs_before[q]);
                            }
                        }
                        assert forall|x: QlPack| #[trigger] fa.contains(x) implies avail@.contains(x) || pack_names_of(
                            ps,
                        ).contains(x.name@) by {
                            if x == p {
                            } else if avail_before.contains(x) {
                            } else {
                                assert(pack_names_of(packs_before).contains(x.name@));
                            }
                        }
                    }
                    found_any = true;
                },
                None => {
                    proof {
                        if !found_any {
                            assert forall|j: int| 0 <= j < i + 1 implies !pack_names_of(avail@).contains(
                                #[trigger] needed@[j]@,
                            ) by {
                                if j == i {
                                }
                            }
                        }
                    }
                },
            }
            i = i + 1;
        }
        if !found_any {
            proof {
                assert forall|d: Seq<char>| #[trigger] missing_deps(idx.packs(), pack_names_of(idx.packs())).contains(
                    d,
                ) implies !pack_names_of(a).contains(d) by {
                    let j = choose|j: int| 0 <= j < views(needed@).len() && views(needed@)[j] == d;
                    assert(needed@[j]@ == d);
                    assert(!pack_names_of(avail@).contains(d));
                    lemma_missing_named(idx.packs(), pack_names_of(idx.packs()), d);
                    if pack_names_of(a).contains(d) {
                        assert(pack_names_of(fa).contains(d));
                        let m = choose|m: int| 0 <= m < fa.len() && pack_names_of(fa)[m] == d;
                        let x = fa[m];
                        assert(fa.contains(x));
                        if avail@.contains(x) {
                            let q = choose|q: int| 0 <= q < avail@.len() && avail@[q] == x;
                            assert(pack_names_of(avail@)[q] == d);
                        }
                    }
                }
            }
            break;
        }
        needed = idx.missing_dependencies();
        if needed.len() == 0 {
            break;
        }
    }
}

/// A recorded file: its path and the name of its pack.
pub type FileEntry = (Seq<char>, Option<Seq<char>>);

/// The recorded files as paths and pack names.
pub open spec fn entries(fs: Seq<FileInfo>) -> Seq<FileEntry> {
    fs.map_values(|f: FileInfo| (f.path@, opt_view(f.pack)))
}

/// Position of the last entry for the path `p`, or -1 when there is none.
pub open spec fn entry_index(e: Seq<FileEntry>, p: Seq<char>) -> int
    decreases e.len(),
{
    if e.len() == 0 {
        -1
    } else if e.last().0 == p {
        e.len() - 1
    } else {
        entry_index(e.drop_last(), p)
    }
}

/// Records `p` with the pack `pk`: a path recorded before gets the new
/// pack in its place, a new path comes last.
pub open spec fn record_one(e: Seq<FileEntry>, p: Seq<char>, pk: Option<Seq<char>>) -> Seq<FileEntry> {
    let i = entry_index(e, p);
    if i >= 0 {
        e.update(i, (p, pk))
    } else {
        e.push((p, pk))
    }
}

proof fn lemma_entry_index(e: Seq<FileEntry>, p: Seq<char>)
    ensures
        -1 <= entry_index(e, p) < e.len(),
        entry_index(e, p) >= 0 ==> e[entry_index(e, p)].0 == p,
        forall|j: int| entry_index(e, p) < j < e.len() ==> e[j].0 != p,
    decreases e.len(),
{
    if e.len() > 0 && e.last().0 != p {
        lemma_entry_index(e.drop_last(), p);
        assert forall|j: int| entry_index(e, p) < j < e.len() implies e[j].0 != p by {
            if j < e.len() - 1 {
                assert(e.drop_last()[j] == e[j]);
            }
        }
    }
}

/// Records the paths in order, all with the pack `pk`.
pub open spec fn record_many(e: Seq<FileEntry>, ps: Seq<Seq<char>>, pk: Option<Seq<char>>) -> Seq<FileEntry>
    decreases ps.len(),
{
    if ps.len() == 0 {
        e
    } else {
        record_one(record_many(e, ps.drop_last(), pk), ps.last(), pk)
    }
}

/// Records the files of each directory in turn, each with its pack.
pub open spec fn record_dirs(e: Seq<FileEntry>, lists: Seq<Seq<Seq<char>>>, pks: Seq<Option<Seq<char>>>) -> Seq<
    FileEntry,
>
    decreases lists.len(),
{
    if lists.len() == 0 || pks.len() != lists.len() {
        e
    } else {
        record_many(record_dirs(e, lists.drop_last(), pks.drop_last()), lists.last(), pks.last())
    }
}

/// The QL source files among listed files, each given by its path as
/// listed and its canonical path: the canonical paths of those whose listed
/// path has the extension `ql` or `qll`, in order.
pub open spec fn kept_files(v: Seq<(String, String)>) -> Seq<Seq<char>>
    decreases v.len(),
{
    if v.len() == 0 {
        Seq::empty()
    } else {
        let r = kept_files(v.drop_last());
        if ql_source_path(v.last().0@) {
            r.push(v.last().1@)
        } else {
            r
        }
    }
}

/// `list_files` may list, under the directory `dir`, files among which the
/// QL source files are `fs` (`kept_files`).
pub open spec fn lists_files<Q: Fn(&str) -> Vec<(String, String)>>(list_files: Q, dir: Seq<char>, fs: Seq<Seq<char>>) -> bool {
    exists|s: &str, v: Vec<(String, String)>| s@ == dir && list_files.ensures((s,), v) && kept_files(v@) == fs
}

/// The pack of each root: the first pack found there.
pub open spec fn root_packs(ps: Seq<QlPack>, roots: Seq<Seq<char>>) -> Seq<Option<Seq<char>>> {
    roots.map_values(|r: Seq<char>| root_pack(ps, r))
}

fn clone_name(o: &Option<String>) -> (r: Option<String>)
    ensures
        opt_view(r) == opt_view(*o),
{
    match o {
        Some(s) => Some(s.clone()),
        None => None,
    }
}

/// Records the QL source files among those `ql_files` lists under each
/// import root, in the order of the roots, with the pack of the root.
fn record_root_files<Q: Fn(&str) -> Vec<(String, String)>>(idx: &mut ProjectIndex, ql_files: Q)
    requires
        old(idx).wf(),
        forall|s: &str| ql_files.requires((s,)),
    ensures
        final(idx).wf(),
        final(idx).packs() == old(idx).packs(),
        final(idx).roots() == old(idx).roots(),
        exists|lists: Seq<Seq<Seq<char>>>|
            lists.len() == old(idx).roots().len() && (forall|i: int|
                0 <= i < lists.len() ==> lists_files(ql_files, old(idx).roots()[i], #[trigger] lists[i]))
                && entries(final(idx).files()) == record_dirs(
                entries(old(idx).files()),
                lists,
                root_packs(old(idx).packs(), old(idx).roots()),
            ),
{
    let roots = copy_strings(idx.import_roots());
    let ghost rs = idx.roots();
    let ghost packs = idx.packs();
    let ghost e0 = entries(idx.files());
    let ghost mut lists: Seq<Seq<Seq<char>>> = Seq::empty();
    let mut i: usize = 0;
    while i < roots.len()
        invariant
            idx.wf(),
            idx.packs() == packs,
            idx.roots() == rs,
            packs == old(idx).packs(),
            rs == old(idx).roots(),
            e0 == entries(old(idx).files()),
            views(roots@) == rs,
            forall|s: &str| ql_files.requires((s,)),
            i <= roots@.len(),
            lists.len() == i,
            forall|j: int| 0 <= j < i ==> lists_files(ql_files, rs[j], #[trigger] lists[j]),
            entries(idx.files()) == record_dirs(e0, lists, root_packs(packs, rs).take(i as int)),
        decreases roots@.len() - i,
    {
        let pk = idx.pack_for_root(roots[i].as_str());
        let fs = ql_files(roots[i].as_str());
        let ghost listed = fs@;
        let ghost base = entries(idx.files());
        proof {
            assert(lists_files(ql_files, rs[i as int], kept_files(listed)));
        }
        let n = fs.len();
        let mut rest = fs;
        let mut k: usize = 0;
        while rest.len() > 0
            invariant
                idx.wf(),
                idx.packs() == packs,
                idx.roots() == rs,
                k + rest@.len() == listed.len(),
                listed.len() == n,
                rest@ == listed.skip(k as int),
                entries(idx.files()) == record_many(base, kept_files(listed.take(k as int)), opt_view(pk)),
            decreases rest@.len(),
        {
            let ghost old_rest = rest@;
            let (raw, f) = rest.remove(0);
            let ghost before = idx.files();
            let ghost fp = f@;
            proof {
                assert(listed.skip(k as int)[0] == listed[k as int]);
                assert(old_rest[0] == listed[k as int]);
                assert(rest@ =~= listed.skip(k + 1));
                assert(listed.take(k + 1).drop_last() =~= listed.take(k as int));
                assert(listed.take(k + 1).last() == listed[k as int]);
            }
            if !is_ql_source_path(raw.as_str()) {
                assert(kept_files(listed.take(k + 1)) == kept_files(listed.take(k as int)));
                k = k + 1;
                continue;
            }
            proof {
                let kk = kept_files(listed.take(k + 1));
                assert(kk == kept_files(listed.take(k as int)).push(fp));
                assert(kk.drop_last() =~= kept_files(listed.take(k as int)));
            }
            let pack = clone_name(&pk);
            proof {
                idx.lemma_wf_distinct();
            }
            idx.record_file(f, pack);
            proof {
                let e = entries(before);
                let e2 = entries(idx.files());
                lemma_entry_index(e, fp);
                assert forall|c: int| 0 <= c < e.len() implies e[c].0 == file_paths_of(before)[c] by {}
                if file_paths_of(before).contains(fp) {
                    let m = choose|m: int|
                        0 <= m < before.len() && before[m].path@ == fp && idx.files() == before.update(
                            m,
                            FileInfo { path: f, pack },
                        );
                    assert(e[m].0 == fp);
                    let c = entry_index(e, fp);
                    if c != m {
                        assert(file_paths_of(before)[c] == file_paths_of(before)[m]);
                    }
                    assert(e2 =~= e.update(m, (fp, opt_view(pk))));
                } else {
                    if entry_index(e, fp) >= 0 {
                        assert(file_paths_of(before)[entry_index(e, fp)] == fp);
                    }
                    assert(e2 =~= e.push((fp, opt_view(pk))));
                }
                assert(record_many(base, kept_files(listed.take(k + 1)), opt_view(pk)) == record_one(
                    record_many(base, kept_files(listed.take(k as int)), opt_view(pk)),
                    fp,
                    opt_view(pk),
                ));
            }
            k = k + 1;
        }
        proof {
            assert(listed.take(k as int) =~= listed);
            let old_lists = lists;
            lists = lists.push(kept_files(listed));
            assert(lists.drop_last() =~= old_lists);
            let pks = root_packs(packs, rs);
            assert(pks.take(i + 1).drop_last() =~= pks.take(i as int));
            assert(pks.take(i + 1).last() == root_pack(packs, rs[i as int]));
        }
        i = i + 1;
    }
    assert(root_packs(packs, rs).take(i as int) =~= root_packs(packs, rs));
}

impl ProjectIndex {
    /// Builds the index of a workspace. `local_packs` are the packs found
    /// under `workspace_root`, in the order of the search; the first pack of
    /// each name is kept. When their dependencies name packs that are not
    /// among them, `parent_packs` is asked, once, for the packs found in the
    /// directories above, and the needed ones are added until none of the
    /// missing dependencies is among them. With no pack at all the
    /// workspace root is the only import root. Last, `ql_files` lists the
    /// files under each import root, each by its path as listed and its
    /// canonical path; of these, the files whose listed path has the
    /// extension `ql` or `qll` are recorded by their canonical path, with the
    /// pack of that root (`kept_files`).
    pub fn discover<P: Fn() -> Vec<QlPack>, Q: Fn(&str) -> Vec<(String, String)>>(
        workspace_root: &str,
        local_packs: Vec<QlPack>,
        parent_packs: P,
        ql_files: Q,
    ) -> (r: ProjectIndex)
        requires
            parent_packs.requires(()),
            forall|s: &str| ql_files.requires((s,)),
        ensures
            r.wf(),
            needed_closure(first_of_each_name(local_packs@), r.packs(), parent_packs),
            r.roots() == if r.packs().len() == 0 {
                seq![workspace_root@]
            } else {
                roots_of(r.packs())
            },
            exists|lists: Seq<Seq<Seq<char>>>|
                lists.len() == r.roots().len() && (forall|i: int|
                    0 <= i < lists.len() ==> lists_files(ql_files, r.roots()[i], #[trigger] lists[i]))
                    && entries(r.files()) == record_dirs(Seq::empty(), lists, root_packs(r.packs(), r.roots())),
    {
        let mut idx = ProjectIndex::new();
        let ghost all = local_packs@;
        let n = local_packs.len();
        let mut rest = local_packs;
        let mut k: usize = 0;
        assert(roots_of(idx.packs()) =~= idx.roots());
        while rest.len() > 0
            invariant
                k + rest@.len() == all.len(),
                all.len() == n,
                rest@ == all.skip(k as int),
                idx.wf(),
                idx.packs() == first_of_each_name(all.take(k as int)),
                idx.roots() == roots_of(idx.packs()),
                idx.files() == Seq::<FileInfo>::empty(),
            decreases rest@.len(),
        {
            let p = rest.remove(0);
            proof {
                assert(p == all[k as int]);
                assert(all.take(k + 1).drop_last() =~= all.take(k as int));
                assert(all.take(k + 1).last() == p);
                assert(rest@ =~= all.skip(k + 1));
            }
            let ghost before = idx.packs();
            let added = idx.add_pack(p);
            proof {
                if added {
                    assert(roots_of(before.push(p)) =~= roots_of(before).push(p.root@));
                }
            }
            k = k + 1;
        }
        assert(all.take(k as int) =~= all);
        add_needed_packs(&mut idx, parent_packs);
        let ghost ps = idx.packs();
        idx.ensure_import_root(workspace_root);
        proof {
            if ps.len() == 0 {
                assert(roots_of(ps) =~= Seq::<Seq<char>>::empty());
            } else {
                assert(roots_of(ps).len() > 0);
            }
        }
        assert(entries(idx.files()) =~= Seq::<FileEntry>::empty());
        record_root_files(&mut idx, ql_files);
        idx
    }
}

} // verus!
