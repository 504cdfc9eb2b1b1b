//! The import graph between source files, and the order in which files are
//! processed: each group of mutually importing files after the files its
//! members import.

use vstd::prelude::*;
use crate::def::FileId;
use crate::diagnostics::Span;
use crate::scc::{strongly_connected_components, member, member_upto, reaches, reached, is_path, is_edge};

verus! {

/// An import of one file by another.
#[derive(Debug)]
pub struct ImportEdge {
    /// The imported file.
    pub target: FileId,
    /// The path of the imported file, for messages.
    pub target_path: String,
    /// The import path's segments.
    pub import_path: Vec<String>,
    /// Whether the import is private.
    pub is_private: bool,
    /// The alias the import gives the module, if any.
    pub alias: Option<String>,
    /// Where the import stands.
    pub span: Span,
}

/// An import whose file was not found.
#[derive(Debug)]
pub struct UnresolvedImport {
    pub from_file: FileId,
    pub import_path: Vec<String>,
    pub span: Span,
}

/// The imports of each file, who imports each file, the imports that were
/// not found, and the processing order.
pub struct ModuleGraph {
    imports: Vec<(FileId, Vec<ImportEdge>)>,
    imported_by: Vec<(FileId, Vec<FileId>)>,
    unresolved: Vec<UnresolvedImport>,
    topo_order: Vec<Vec<FileId>>,
}

/// The list stored for key `f` in a list of keyed lists, or none.
pub open spec fn list_for<T>(m: Seq<(FileId, Vec<T>)>, f: FileId) -> Seq<T>
    decreases m.len(),
{
    if m.len() == 0 {
        Seq::empty()
    } else if m.last().0 == f {
        m.last().1@
    } else {
        list_for(m.drop_last(), f)
    }
}

/// The keys of a list of keyed lists are distinct and their lists are not
/// empty.
pub open spec fn keyed_ok<T>(m: Seq<(FileId, Vec<T>)>) -> bool {
    &&& forall|i: int, j: int| 0 <= i < j < m.len() ==> m[i].0 != m[j].0
    &&& forall|i: int| 0 <= i < m.len() ==> (#[trigger] m[i]).1@.len() > 0
}

/// The number of lists' elements, over the first `k` entries.
pub open spec fn total_len<T>(m: Seq<(FileId, Vec<T>)>, k: int) -> nat
    decreases k,
{
    if k <= 0 || k > m.len() {
        0
    } else {
        total_len(m, k - 1) + m[k - 1].1@.len()
    }
}

/// `f` occurs in the order.
pub open spec fn in_order(order: Seq<Seq<FileId>>, f: FileId) -> bool {
    exists|i: int, j: int| 0 <= i < order.len() && 0 <= j < order[i].len() && order[i][j] == f
}

/// `f` occurs in one of the first `i + 1` groups of the order.
pub open spec fn in_order_upto(order: Seq<Seq<FileId>>, f: FileId, i: int) -> bool {
    exists|m: int, l: int| 0 <= m <= i && 0 <= l < order[m].len() && order[m][l] == f
}

/// No file occurs twice in the order, and no group is empty.
pub open spec fn order_distinct(order: Seq<Seq<FileId>>) -> bool {
    &&& forall|i: int| 0 <= i < order.len() ==> (#[trigger] order[i]).len() > 0
    &&& forall|i: int, j: int, k: int| 0 <= i < order.len() && 0 <= j < k < order[i].len() ==> order[i][j] != order[i][k]
    &&& forall|i: int, j: int, k: int, l: int|
        0 <= i < k < order.len() && 0 <= j < order[i].len() && 0 <= l < order[k].len() ==> #[trigger] order[i][j]
            != #[trigger] order[k][l]
}

/// Every file imported by a member of a group of the order lies in that
/// group or an earlier one.
pub open spec fn imports_before_importers(order: Seq<Seq<FileId>>, imports: spec_fn(FileId) -> Seq<ImportEdge>) -> bool {
    forall|i: int, j: int, k: int|
        0 <= i < order.len() && 0 <= j < order[i].len() && 0 <= k < imports(order[i][j]).len() ==> in_order_upto(
            order,
            #[trigger] imports(order[i][j])[k].target,
            i,
        )
}

/// `f` imports `g`.
pub open spec fn imports_file(imports: spec_fn(FileId) -> Seq<ImportEdge>, f: FileId, g: FileId) -> bool {
    exists|k: int| 0 <= k < imports(f).len() && #[trigger] imports(f)[k].target == g
}

/// `p` is a chain of files each importing the next.
pub open spec fn import_walk(imports: spec_fn(FileId) -> Seq<ImportEdge>, p: Seq<FileId>) -> bool {
    p.len() > 0 && forall|i: int| 0 <= i < p.len() - 1 ==> #[trigger] imports_file(imports, p[i], p[i + 1])
}

/// `f` imports `g`, directly or through other files, or is `g`.
pub open spec fn imports_reach(imports: spec_fn(FileId) -> Seq<ImportEdge>, f: FileId, g: FileId) -> bool {
    exists|p: Seq<FileId>| #[trigger] import_walk(imports, p) && p[0] == f && p.last() == g
}

/// `g` is reached, through imports, from one of `files`.
pub open spec fn reached_from(imports: spec_fn(FileId) -> Seq<ImportEdge>, files: Seq<FileId>, g: FileId) -> bool {
    exists|q: int| 0 <= q < files.len() && #[trigger] imports_reach(imports, files[q], g)
}

/// Every file of the order is reached, through imports, from one of
/// `files`.
pub open spec fn order_reached(
    order: Seq<Seq<FileId>>,
    imports: spec_fn(FileId) -> Seq<ImportEdge>,
    files: Seq<FileId>,
) -> bool {
    forall|i: int, j: int|
        0 <= i < order.len() && 0 <= j < order[i].len() ==> reached_from(imports, files, #[trigger] order[i][j])
}

/// The files of each group of the order import each other, directly or
/// not.
pub open spec fn groups_connected(order: Seq<Seq<FileId>>, imports: spec_fn(FileId) -> Seq<ImportEdge>) -> bool {
    forall|i: int, j: int, k: int|
        0 <= i < order.len() && 0 <= j < order[i].len() && 0 <= k < order[i].len() ==> imports_reach(
            imports,
            #[trigger] order[i][j],
            #[trigger] order[i][k],
        )
}

proof fn lemma_walk_upto(order: Seq<Seq<FileId>>, imports: spec_fn(FileId) -> Seq<ImportEdge>, p: Seq<FileId>, i: int, t: int)
    requires
        imports_before_importers(order, imports),
        import_walk(imports, p),
        0 <= i < order.len(),
        in_order_upto(order, p[0], i),
        0 <= t < p.len(),
    ensures
        in_order_upto(order, p[t], i),
    decreases t,
{
    if t > 0 {
        lemma_walk_upto(order, imports, p, i, t - 1);
        let (m, l) = choose|m: int, l: int| 0 <= m <= i && 0 <= l < order[m].len() && order[m][l] == p[t - 1];
        assert(imports_file(imports, p[t - 1], p[(t - 1) + 1]));
        let k = choose|k: int| 0 <= k < imports(p[t - 1]).len() && #[trigger] imports(p[t - 1])[k].target == p[t];
        assert(in_order_upto(order, imports(order[m][l])[k].target, m));
        let (m2, l2) = choose|m2: int, l2: int| 0 <= m2 <= m && 0 <= l2 < order[m2].len() && order[m2][l2] == p[t];
    }
}

/// Groups are maximal: no file of a group imports, directly or not, a file
/// of a later group; files that import each other share a group.
pub proof fn lemma_groups_maximal(
    order: Seq<Seq<FileId>>,
    imports: spec_fn(FileId) -> Seq<ImportEdge>,
    i: int,
    j: int,
    k: int,
    l: int,
)
    requires
        imports_before_importers(order, imports),
        order_distinct(order),
        0 <= i < k < order.len(),
        0 <= j < order[i].len(),
        0 <= l < order[k].len(),
    ensures
        !imports_reach(imports, order[i][j], order[k][l]),
{
    if imports_reach(imports, order[i][j], order[k][l]) {
        let p = choose|p: Seq<FileId>| #[trigger] import_walk(imports, p) && p[0] == order[i][j] && p.last() == order[k][l];
        assert(in_order_upto(order, p[0], i));
        lemma_walk_upto(order, imports, p, i, p.len() - 1);
        let (m, q) = choose|m: int, q: int| 0 <= m <= i && 0 <= q < order[m].len() && order[m][q] == p.last();
        assert(order[m][q] != order[k][l]);
    }
}

impl ModuleGraph {
    /// The imports of `f`, in the order they were added.
    pub closed spec fn imports_of(&self, f: FileId) -> Seq<ImportEdge> {
        list_for(self.imports@, f)
    }

    /// The files that import `f`, one entry per import, in order.
    pub closed spec fn importers_of(&self, f: FileId) -> Seq<FileId> {
        list_for(self.imported_by@, f)
    }

    /// The imports that were not found.
    pub closed spec fn unresolved(&self) -> Seq<UnresolvedImport> {
        self.unresolved@
    }

    /// The processing order last computed.
    pub closed spec fn order(&self) -> Seq<Seq<FileId>> {
        self.topo_order@.map_values(|g: Vec<FileId>| g@)
    }

    /// The number of resolved imports.
    pub closed spec fn edge_total(&self) -> nat {
        total_len(self.imports@, self.imports@.len() as int)
    }

    /// Keys are distinct and lists not empty.
    pub closed spec fn wf(&self) -> bool {
        keyed_ok(self.imports@) && keyed_ok(self.imported_by@)
    }

    /// A graph with no imports.
    pub fn new() -> (r: ModuleGraph)
        ensures
            r.wf(),
            forall|f: FileId| r.imports_of(f) == Seq::<ImportEdge>::empty(),
            forall|f: FileId| r.importers_of(f) == Seq::<FileId>::empty(),
            r.unresolved() == Seq::<UnresolvedImport>::empty(),
            r.order() == Seq::<Seq<FileId>>::empty(),
            r.edge_total() == 0,
    {
        let r = ModuleGraph { imports: Vec::new(), imported_by: Vec::new(), unresolved: Vec::new(), topo_order: Vec::new() };
        assert(r.order() =~= Seq::<Seq<FileId>>::empty());
        r
    }
}

proof fn lemma_list_for_key<T>(m: Seq<(FileId, Vec<T>)>, i: int)
    requires
        keyed_ok(m),
        0 <= i < m.len(),
    ensures
        list_for(m, m[i].0) == m[i].1@,
    decreases m.len(),
{
    if i < m.len() - 1 {
        assert(m.drop_last()[i] == m[i]);
        lemma_list_for_key(m.drop_last(), i);
    }
}

proof fn lemma_list_for_absent<T>(m: Seq<(FileId, Vec<T>)>, f: FileId)
    requires
        forall|i: int| 0 <= i < m.len() ==> m[i].0 != f,
    ensures
        list_for(m, f) == Seq::<T>::empty(),
    decreases m.len(),
{
    if m.len() > 0 {
        lemma_list_for_absent(m.drop_last(), f);
    }
}

proof fn lemma_list_for_update<T>(m: Seq<(FileId, Vec<T>)>, i: int, v: Vec<T>, f: FileId)
    requires
        keyed_ok(m),
        0 <= i < m.len(),
        f != m[i].0,
    ensures
        list_for(m.update(i, (m[i].0, v)), f) == list_for(m, f),
    decreases m.len(),
{
    let n = m.update(i, (m[i].0, v));
    if i < m.len() - 1 {
        assert(n.drop_last() =~= m.drop_last().update(i, (m[i].0, v)));
        assert(m.drop_last()[i] == m[i]);
        if m.last().0 != f {
            lemma_list_for_update(m.drop_last(), i, v, f);
        }
    } else {
        assert(n.drop_last() =~= m.drop_last());
    }
}

proof fn lemma_total_update<T>(m: Seq<(FileId, Vec<T>)>, i: int, v: Vec<T>, k: int)
    requires
        0 <= i < m.len(),
        0 <= k <= m.len(),
    ensures
        total_len(m.update(i, (m[i].0, v)), k) == if i < k {
            total_len(m, k) - m[i].1@.len() + v@.len()
        } else {
            total_len(m, k) as int
        },
    decreases k,
{
    if k > 0 {
        lemma_total_update(m, i, v, k - 1);
    }
}

proof fn lemma_total_push<T>(m: Seq<(FileId, Vec<T>)>, e: (FileId, Vec<T>), k: int)
    requires
        0 <= k <= m.len(),
    ensures
        total_len(m.push(e), k) == total_len(m, k),
    decreases k,
{
    if k > 0 {
        lemma_total_push(m, e, k - 1);
    }
}

/// Appends `x` to the list of key `f`, starting a list when there is none.
fn push_keyed<T>(m: &mut Vec<(FileId, Vec<T>)>, f: FileId, x: T)
    requires
        keyed_ok(old(m)@),
    ensures
        keyed_ok(final(m)@),
        list_for(final(m)@, f) == list_for(old(m)@, f).push(x),
        forall|g: FileId| g != f ==> list_for(final(m)@, g) == list_for(old(m)@, g),
        total_len(final(m)@, final(m)@.len() as int) == total_len(old(m)@, old(m)@.len() as int) + 1,
{
    let mut i: usize = 0;
    while i < m.len()
        invariant
            i <= m@.len(),
            m@ == old(m)@,
            keyed_ok(m@),
            forall|j: int| 0 <= j < i ==> m@[j].0 != f,
        decreases m@.len() - i,
    {
        if m[i].0 == f {
            let ghost before = m@;
            let mut entry = m.remove(i);
            entry.1.push(x);
            m.insert(i, entry);
            proof {
                assert(m@ =~= before.update(i as int, (f, entry.1)));
                lemma_list_for_key(before, i as int);
                assert forall|a: int, b: int| 0 <= a < b < m@.len() implies m@[a].0 != m@[b].0 by {
                    assert(m@[a].0 == before[a].0);
                    assert(m@[b].0 == before[b].0);
                }
                assert forall|a: int| 0 <= a < m@.len() implies (#[trigger] m@[a]).1@.len() > 0 by {
                    if a != i {
                        assert(m@[a] == before[a]);
                    }
                }
                lemma_list_for_key(m@, i as int);
                assert forall|g: FileId| g != f implies list_for(m@, g) == list_for(before, g) by {
                    lemma_list_for_update(before, i as int, entry.1, g);
                }
                lemma_total_update(before, i as int, entry.1, before.len() as int);
            }
            return;
        }
        i = i + 1;
    }
    let ghost before = m@;
    let mut v: Vec<T> = Vec::new();
    v.push(x);
    m.push((f, v));
    proof {
        lemma_list_for_absent(before, f);
        assert(m@.drop_last() =~= before);
        assert forall|a: int, b: int| 0 <= a < b < m@.len() implies m@[a].0 != m@[b].0 by {
            if b < before.len() {
                assert(m@[a] == before[a]);
                assert(m@[b] == before[b]);
            } else {
                assert(m@[a] == before[a]);
            }
        }
        assert forall|a: int| 0 <= a < m@.len() implies (#[trigger] m@[a]).1@.len() > 0 by {
            if a < before.len() {
                assert(m@[a] == before[a]);
            }
        }
        lemma_total_push(before, (f, v), before.len() as int);
    }
}

impl ModuleGraph {
    /// Records that `from` imports `edge.target`.
    pub fn add_edge(&mut self, from: FileId, edge: ImportEdge)
        requires
            old(self).wf(),
        ensures
            final(self).wf(),
            final(self).imports_of(from) == old(self).imports_of(from).push(edge),
            forall|f: FileId| f != from ==> final(self).imports_of(f) == old(self).imports_of(f),
            final(self).importers_of(edge.target) == old(self).importers_of(edge.target).push(from),
            forall|f: FileId| f != edge.target ==> final(self).importers_of(f) == old(self).importers_of(f),
            final(self).edge_total() == old(self).edge_total() + 1,
            final(self).unresolved() == old(self).unresolved(),
            final(self).order() == old(self).order(),
    {
        let target = edge.target;
        push_keyed(&mut self.imported_by, target, from);
        push_keyed(&mut self.imports, from, edge);
    }

    /// Records an import whose file was not found.
    pub fn add_unresolved(&mut self, unresolved: UnresolvedImport)
        ensures
            final(self).unresolved() == old(self).unresolved().push(unresolved),
            forall|f: FileId| final(self).imports_of(f) == old(self).imports_of(f),
            forall|f: FileId| final(self).importers_of(f) == old(self).importers_of(f),
            final(self).edge_total() == old(self).edge_total(),
            final(self).order() == old(self).order(),
            final(self).wf() == old(self).wf(),
    {
        self.unresolved.push(unresolved);
    }

    /// The imports of `file`, in the order they were added.
    pub fn file_imports(&self, file: FileId) -> (r: &[ImportEdge])
        requires
            self.wf(),
        ensures
            r@ == self.imports_of(file),
    {
        let mut i: usize = 0;
        while i < self.imports.len()
            invariant
                i <= self.imports@.len(),
                keyed_ok(self.imports@),
                forall|j: int| 0 <= j < i ==> self.imports@[j].0 != file,
            decreases self.imports@.len() - i,
        {
            if self.imports[i].0 == file {
                proof {
                    lemma_list_for_key(self.imports@, i as int);
                }
                return self.imports[i].1.as_slice();
            }
            i = i + 1;
        }
        proof {
            lemma_list_for_absent(self.imports@, file);
        }
        &[]
    }

    /// The number of resolved imports.
    pub fn total_edge_count(&self) -> (r: usize)
        requires
            self.edge_total() <= usize::MAX,
        ensures
            r == self.edge_total(),
    {
        let mut total: usize = 0;
        let mut i: usize = 0;
        while i < self.imports.len()
            invariant
                i <= self.imports@.len(),
                total == total_len(self.imports@, i as int),
                total_len(self.imports@, self.imports@.len() as int) <= usize::MAX,
            decreases self.imports@.len() - i,
        {
            proof {
                lemma_total_mono(self.imports@, i + 1, self.imports@.len() as int);
            }
            total = total + self.imports[i].1.len();
            i = i + 1;
        }
        total
    }

    /// The processing order: groups of files, dependencies first.
    pub fn processing_order(&self) -> (r: &Vec<Vec<FileId>>)
        ensures
            r@.map_values(|g: Vec<FileId>| g@) == self.order(),
    {
        &self.topo_order
    }
}

proof fn lemma_total_mono<T>(m: Seq<(FileId, Vec<T>)>, a: int, b: int)
    requires
        0 <= a <= b <= m.len(),
    ensures
        total_len(m, a) <= total_len(m, b),
    decreases b - a,
{
    if a < b {
        lemma_total_mono(m, a, b - 1);
    }
}

proof fn lemma_list_for_some<T>(m: Seq<(FileId, Vec<T>)>, f: FileId)
    requires
        list_for(m, f).len() > 0,
    ensures
        exists|i: int| 0 <= i < m.len() && m[i].0 == f && #[trigger] m[i].1@ == list_for(m, f),
    decreases m.len(),
{
    if m.last().0 != f {
        lemma_list_for_some(m.drop_last(), f);
        let i = choose|i: int| 0 <= i < m.drop_last().len() && m.drop_last()[i].0 == f && #[trigger] m.drop_last()[i].1@
            == list_for(m.drop_last(), f);
        assert(m[i] == m.drop_last()[i]);
    } else {
        assert(m[m.len() - 1].1@ == list_for(m, f));
    }
}

proof fn lemma_lift_walk(
    adj: Seq<Vec<usize>>,
    nodes: Seq<FileId>,
    imports: spec_fn(FileId) -> Seq<ImportEdge>,
    u1: int,
    u2: int,
)
    requires
        adj.len() == nodes.len(),
        forall|a: int|
            0 <= a < adj.len() ==> (#[trigger] adj[a])@.len() == imports(nodes[a]).len() && forall|k: int|
                0 <= k < adj[a]@.len() ==> adj[a]@[k] < nodes.len() && nodes[adj[a]@[k] as int] == imports(nodes[a])[k].target,
        0 <= u2 < nodes.len(),
        reaches(adj, u1, u2),
    ensures
        imports_reach(imports, nodes[u1], nodes[u2]),
{
    let p = choose|p: Seq<int>| #[trigger] is_path(adj, p) && p[0] == u1 && p.last() == u2;
    assert forall|i: int| 0 <= i < p.len() implies 0 <= #[trigger] p[i] < nodes.len() by {
        if i < p.len() - 1 {
            assert(is_edge(adj, p[i], p[i + 1]));
        }
    }
    let q = Seq::new(p.len(), |i: int| nodes[p[i]]);
    assert forall|i: int| 0 <= i < q.len() - 1 implies #[trigger] imports_file(imports, q[i], q[i + 1]) by {
        assert(is_edge(adj, p[i], p[i + 1]));
        let a = p[i];
        let k = choose|k: int| 0 <= k < adj[a]@.len() && #[trigger] adj[a]@[k] == p[i + 1];
        assert(0 <= a < adj.len());
        assert(nodes[adj[a]@[k] as int] == imports(nodes[a])[k].target);
        assert(imports(q[i])[k].target == q[i + 1]);
    }
    assert(q.len() > 0);
    assert(import_walk(imports, q));
    assert(q[0] == nodes[u1] && q.last() == nodes[u2]);
}

fn node_index(nodes: &Vec<FileId>, f: FileId) -> (r: Option<usize>)
    ensures
        match r {
            Some(i) => i < nodes@.len() && nodes@[i as int] == f,
            None => !nodes@.contains(f),
        },
{
    let mut i: usize = 0;
    while i < nodes.len()
        invariant
            i <= nodes@.len(),
            forall|j: int| 0 <= j < i ==> nodes@[j] != f,
        decreases nodes@.len() - i,
    {
        if nodes[i] == f {
            return Some(i);
        }
        i = i + 1;
    }
    None
}

fn add_node(nodes: &mut Vec<FileId>, f: FileId)
    requires
        old(nodes)@.no_duplicates(),
    ensures
        final(nodes)@.no_duplicates(),
        final(nodes)@.contains(f),
        forall|g: FileId| old(nodes)@.contains(g) ==> final(nodes)@.contains(g),
        final(nodes)@.len() <= old(nodes)@.len() + 1,
{
    match node_index(nodes, f) {
        Some(i) => {
            assert(nodes@[i as int] == f);
        },
        None => {
            let ghost before = nodes@;
            nodes.push(f);
            proof {
                assert(nodes@[before.len() as int] == f);
                assert forall|g: FileId| before.contains(g) implies nodes@.contains(g) by {
                    let j = choose|j: int| 0 <= j < before.len() && before[j] == g;
                    assert(nodes@[j] == g);
                }
            }
        },
    }
}

impl ModuleGraph {
    /// Computes the processing order of the files `all_files` and of the
    /// files they import, directly or not, with Tarjan's algorithm: each
    /// group holds files that import each other, and every file imported by
    /// a member of a group lies in that group or an earlier one. No file
    /// occurs twice.
    pub fn compute_topo_order(&mut self, all_files: &Vec<FileId>)
        requires
            old(self).wf(),
            all_files@.len() + old(self).edge_total() < usize::MAX,
        ensures
            final(self).wf(),
            forall|f: FileId| final(self).imports_of(f) == old(self).imports_of(f),
            forall|f: FileId| final(self).importers_of(f) == old(self).importers_of(f),
            final(self).unresolved() == old(self).unresolved(),
            final(self).edge_total() == old(self).edge_total(),
            order_distinct(final(self).order()),
            forall|i: int| 0 <= i < all_files@.len() ==> in_order(final(self).order(), #[trigger] all_files@[i]),
            imports_before_importers(final(self).order(), |f: FileId| final(self).imports_of(f)),
            groups_connected(final(self).order(), |f: FileId| final(self).imports_of(f)),
            order_reached(final(self).order(), |f: FileId| final(self).imports_of(f), all_files@),
    {
        let mut nodes: Vec<FileId> = Vec::new();
        let mut i: usize = 0;
        while i < all_files.len()
            invariant
                i <= all_files@.len(),
                nodes@.no_duplicates(),
                nodes@.len() <= i,
                forall|j: int| 0 <= j < i ==> nodes@.contains(#[trigger] all_files@[j]),
            decreases all_files@.len() - i,
        {
            add_node(&mut nodes, all_files[i]);
            i = i + 1;
        }
        let mut e: usize = 0;
        while e < self.imports.len()
            invariant
                e <= self.imports@.len(),
                nodes@.no_duplicates(),
                nodes@.len() <= all_files@.len() + total_len(self.imports@, e as int),
                all_files@.len() + total_len(self.imports@, self.imports@.len() as int) < usize::MAX,
                forall|j: int| 0 <= j < all_files@.len() ==> nodes@.contains(#[trigger] all_files@[j]),
                forall|a: int, b: int|
                    0 <= a < e && 0 <= b < self.imports@[a].1@.len() ==> nodes@.contains(
                        #[trigger] self.imports@[a].1@[b].target,
                    ),
            decreases self.imports@.len() - e,
        {
            let edges = &self.imports[e].1;
            let mut k: usize = 0;
            while k < edges.len()
                invariant
                    e < self.imports@.len(),
                    edges@ == self.imports@[e as int].1@,
                    k <= edges@.len(),
                    nodes@.no_duplicates(),
                    nodes@.len() <= all_files@.len() + total_len(self.imports@, e as int) + k,
                    forall|j: int| 0 <= j < all_files@.len() ==> nodes@.contains(#[trigger] all_files@[j]),
                    forall|a: int, b: int|
                        0 <= a < e && 0 <= b < self.imports@[a].1@.len() ==> nodes@.contains(
                            #[trigger] self.imports@[a].1@[b].target,
                        ),
                    forall|b: int| 0 <= b < k ==> nodes@.contains(#[trigger] edges@[b].target),
                decreases edges@.len() - k,
            {
                add_node(&mut nodes, edges[k].target);
                k = k + 1;
            }
            proof {
                lemma_total_mono(self.imports@, e + 1, self.imports@.len() as int);
            }
            e = e + 1;
        }
        let ghost ns = nodes@;
        let mut adj: Vec<Vec<usize>> = Vec::new();
        let mut u: usize = 0;
        while u < nodes.len()
            invariant
                ns == nodes@,
                u <= nodes@.len(),
                adj@.len() == u,
                keyed_ok(self.imports@),
                self.wf(),
                forall|a: int, b: int|
                    0 <= a < self.imports@.len() && 0 <= b < self.imports@[a].1@.len() ==> nodes@.contains(
                        #[trigger] self.imports@[a].1@[b].target,
                    ),
                forall|a: int|
                    0 <= a < u ==> (#[trigger] adj@[a])@.len() == self.imports_of(nodes@[a]).len() && forall|k: int|
                        0 <= k < adj@[a]@.len() ==> adj@[a]@[k] < nodes@.len() && nodes@[adj@[a]@[k] as int]
                            == self.imports_of(nodes@[a])[k].target,
            decreases nodes@.len() - u,
        {
            let es = self.file_imports(nodes[u]);
            let mut row: Vec<usize> = Vec::new();
            let mut k: usize = 0;
            while k < es.len()
                invariant
                    ns == nodes@,
                    u < nodes@.len(),
                    es@ == self.imports_of(nodes@[u as int]),
                    keyed_ok(self.imports@),
                    forall|a: int, b: int|
                        0 <= a < self.imports@.len() && 0 <= b < self.imports@[a].1@.len() ==> nodes@.contains(
                            #[trigger] self.imports@[a].1@[b].target,
                        ),
                    k <= es@.len(),
                    row@.len() == k,
                    forall|q: int| 0 <= q < k ==> row@[q] < nodes@.len() && nodes@[#[trigger] row@[q] as int] == es@[q].target,
                decreases es@.len() - k,
            {
                proof {
                    lemma_list_for_some(self.imports@, nodes@[u as int]);
                    let a = choose|a: int| 0 <= a < self.imports@.len() && self.imports@[a].0 == nodes@[u as int] && #[trigger] self.imports@[a].1@ == list_for(self.imports@, nodes@[u as int]);
                    assert(self.imports@[a].1@[k as int] == es@[k as int]);
                    assert(nodes@.contains(self.imports@[a].1@[k as int].target));
                }
                let w = node_index(&nodes, es[k].target);
                row.push(w.unwrap());
                k = k + 1;
            }
            adj.push(row);
            proof {
                assert forall|a: int|
                    0 <= a < u + 1 implies (#[trigger] adj@[a])@.len() == self.imports_of(nodes@[a]).len() && forall|k: int|
                        0 <= k < adj@[a]@.len() ==> adj@[a]@[k] < nodes@.len() && nodes@[adj@[a]@[k] as int]
                            == self.imports_of(nodes@[a])[k].target by {
                    if a == u {
                        assert forall|k: int| 0 <= k < adj@[a]@.len() implies adj@[a]@[k] < nodes@.len() && nodes@[adj@[a]@[k] as int]
                            == self.imports_of(nodes@[a])[k].target by {
                            assert(row@[k] == adj@[a]@[k]);
                        }
                    }
                }
            }
            u = u + 1;
        }
        let mut roots: Vec<usize> = Vec::new();
        let mut r: usize = 0;
        while r < all_files.len()
            invariant
                ns == nodes@,
                r <= all_files@.len(),
                roots@.len() == r,
                forall|j: int| 0 <= j < all_files@.len() ==> nodes@.contains(#[trigger] all_files@[j]),
                forall|q: int| 0 <= q < r ==> roots@[q] < nodes@.len() && nodes@[#[trigger] roots@[q] as int] == all_files@[q],
            decreases all_files@.len() - r,
        {
            assert(nodes@.contains(all_files@[r as int]));
            let w = node_index(&nodes, all_files[r]);
            roots.push(w.unwrap());
            r = r + 1;
        }
        proof {
            assert(forall|q: int| 0 <= q < roots@.len() ==> #[trigger] roots@[q] < adj@.len());
        }
        let sccs = strongly_connected_components(&adj, &roots);
        let mut order: Vec<Vec<FileId>> = Vec::new();
        let mut g: usize = 0;
        while g < sccs.len()
            invariant
                g <= sccs@.len(),
                order@.len() == g,
                forall|a: int, b: int| 0 <= a < sccs@.len() && 0 <= b < sccs@[a]@.len() ==> sccs@[a]@[b] < nodes@.len(),
                forall|a: int|
                    0 <= a < g ==> (#[trigger] order@[a])@.len() == sccs@[a]@.len() && forall|b: int|
                        0 <= b < order@[a]@.len() ==> order@[a]@[b] == nodes@[sccs@[a]@[b] as int],
            decreases sccs@.len() - g,
        {
            let comp = &sccs[g];
            let mut group: Vec<FileId> = Vec::new();
            let mut b: usize = 0;
            while b < comp.len()
                invariant
                    g < sccs@.len(),
                    comp@ == sccs@[g as int]@,
                    forall|a: int, b: int| 0 <= a < sccs@.len() && 0 <= b < sccs@[a]@.len() ==> sccs@[a]@[b] < nodes@.len(),
                    b <= comp@.len(),
                    group@.len() == b,
                    forall|q: int| 0 <= q < b ==> group@[q] == nodes@[#[trigger] comp@[q] as int],
                decreases comp@.len() - b,
            {
                assert(comp@[b as int] == sccs@[g as int]@[b as int]);
                group.push(nodes[comp[b]]);
                b = b + 1;
            }
            order.push(group);
            proof {
                assert forall|a: int|
                    0 <= a < g + 1 implies (#[trigger] order@[a])@.len() == sccs@[a]@.len() && forall|b: int|
                        0 <= b < order@[a]@.len() ==> order@[a]@[b] == nodes@[sccs@[a]@[b] as int] by {
                    if a == g {
                        assert forall|b: int| 0 <= b < order@[a]@.len() implies order@[a]@[b] == nodes@[sccs@[a]@[b] as int] by {
                            assert(group@[b] == nodes@[comp@[b] as int]);
                        }
                    }
                }
            }
            g = g + 1;
        }
        self.topo_order = order;
        proof {
            let ord = self.order();
            assert(ord.len() == sccs@.len());
            assert forall|a: int, b: int| 0 <= a < ord.len() && 0 <= b < ord[a].len() implies #[trigger] ord[a][b]
                == nodes@[sccs@[a]@[b] as int] by {
                assert(ord[a] == order@[a]@);
            }
            assert forall|a: int| 0 <= a < ord.len() implies (#[trigger] ord[a]).len() > 0 by {
                assert(ord[a] == order@[a]@);
            }
            assert forall|a: int, b: int, c: int| 0 <= a < ord.len() && 0 <= b < c < ord[a].len() implies ord[a][b]
                != ord[a][c] by {
                assert(ord[a][b] == nodes@[sccs@[a]@[b] as int]);
                assert(ord[a][c] == nodes@[sccs@[a]@[c] as int]);
                assert(sccs@[a]@[b] != sccs@[a]@[c]);
            }
            assert forall|a: int, b: int, c: int, d: int|
                0 <= a < c < ord.len() && 0 <= b < ord[a].len() && 0 <= d < ord[c].len() implies #[trigger] ord[a][b]
                    != #[trigger] ord[c][d] by {
                assert(ord[a][b] == nodes@[sccs@[a]@[b] as int]);
                assert(ord[c][d] == nodes@[sccs@[c]@[d] as int]);
                assert(sccs@[a]@[b] != sccs@[c]@[d]);
            }
            assert forall|i: int| 0 <= i < all_files@.len() implies in_order(ord, #[trigger] all_files@[i]) by {
                assert(member(sccs@, roots@[i] as int));
                let (a, b) = choose|a: int, b: int| 0 <= a < sccs@.len() && 0 <= b < sccs@[a]@.len() && sccs@[a]@[b] == roots@[i] as int;
                assert(ord[a][b] == nodes@[roots@[i] as int]);
            }
            let imp = |f: FileId| self.imports_of(f);
            assert forall|i: int, j: int, k: int|
                0 <= i < ord.len() && 0 <= j < ord[i].len() && 0 <= k < imp(ord[i][j]).len() implies in_order_upto(
                    ord,
                    #[trigger] imp(ord[i][j])[k].target,
                    i,
                ) by {
                let v = sccs@[i]@[j];
                assert(ord[i][j] == nodes@[v as int]);
                assert(adj@[v as int]@.len() == self.imports_of(nodes@[v as int]).len());
                assert(member_upto(sccs@, adj@[v as int]@[k] as int, i));
                let (m, l) = choose|m: int, l: int| 0 <= m <= i && 0 <= l < sccs@[m]@.len() && sccs@[m]@[l] == adj@[v as int]@[k] as int;
                assert(ord[m][l] == nodes@[sccs@[m]@[l] as int]);
            }
            assert forall|i: int, j: int, k: int|
                0 <= i < ord.len() && 0 <= j < ord[i].len() && 0 <= k < ord[i].len() implies imports_reach(
                imp,
                #[trigger] ord[i][j],
                #[trigger] ord[i][k],
            ) by {
                let a = sccs@[i]@[j] as int;
                let b = sccs@[i]@[k] as int;
                assert(ord[i][j] == nodes@[a] && ord[i][k] == nodes@[b]);
                assert(reaches(adj@, a, b));
                lemma_lift_walk(adj@, nodes@, imp, a, b);
            }
            assert forall|i: int, j: int| 0 <= i < ord.len() && 0 <= j < ord[i].len() implies reached_from(
                imp,
                all_files@,
                #[trigger] ord[i][j],
            ) by {
                let v = sccs@[i]@[j] as int;
                assert(ord[i][j] == nodes@[v]);
                assert(member(sccs@, v));
                assert(reached(adj@, roots@, v));
                let q = choose|q: int| 0 <= q < roots@.len() && #[trigger] reaches(adj@, roots@[q] as int, v);
                lemma_lift_walk(adj@, nodes@, imp, roots@[q] as int, v);
                assert(nodes@[roots@[q] as int] == all_files@[q]);
                assert(imports_reach(imp, all_files@[q], ord[i][j]));
            }
            assert(order_reached(ord, imp, all_files@));
        }
    }
}

} // verus!
