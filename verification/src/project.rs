//! QL packs, their discovery decisions, and the resolution of import paths
//! to the files that may hold them.
//!
//! Walking directories and testing whether files exist is left to the
//! caller: the index decides which directories to search, which files to
//! record and, for an import, which candidate files to try and in which
//! order.

use vstd::prelude::*;
use crate::text::{chars_of, string_of, str_eq, views, join, copy_str, copy_strings, has_prefix, trim,
    trim_chars, trim_char_chars, starts_with_chars, sub_chars, trim_char};
use crate::paths::{components, path_components, join_path, join_paths, render, render_components,
    parent_comps, path_starts_with, starts_with_path, split_on, split_str, same_components};

verus! {

/// A QL pack, described by a `qlpack.yml` file.
#[derive(Debug)]
pub struct QlPack {
    /// Pack name, such as `codeql/cpp-all`.
    pub name: String,
    /// Directory holding `qlpack.yml`; it is an import root.
    pub root: String,
    /// Names of the packs this one depends on.
    pub dependencies: Vec<String>,
    /// Whether this is a library pack.
    pub is_library: bool,
    /// The dbscheme file, relative to the root, if given.
    pub dbscheme: Option<String>,
}

/// A discovered `.ql` or `.qll` file.
#[derive(Debug)]
pub struct FileInfo {
    pub path: String,
    /// The pack whose root the file was found under.
    pub pack: Option<String>,
}

/// The packs of a workspace, its import roots and its QL files.
pub struct ProjectIndex {
    packs: Vec<QlPack>,
    import_roots: Vec<String>,
    files: Vec<FileInfo>,
}

/// Names of a list of packs.
pub open spec fn pack_names_of(ps: Seq<QlPack>) -> Seq<Seq<char>> {
    ps.map_values(|p: QlPack| p.name@)
}

/// Paths of a list of files.
pub open spec fn file_paths_of(fs: Seq<FileInfo>) -> Seq<Seq<char>> {
    fs.map_values(|f: FileInfo| f.path@)
}

impl ProjectIndex {
    /// The packs, in order of discovery.
    pub closed spec fn packs(&self) -> Seq<QlPack> {
        self.packs@
    }

    /// The import roots, in order.
    pub closed spec fn roots(&self) -> Seq<Seq<char>> {
        views(self.import_roots@)
    }

    /// The recorded files, in order of first recording.
    pub closed spec fn files(&self) -> Seq<FileInfo> {
        self.files@
    }

    /// Pack names and file paths are distinct.
    pub closed spec fn wf(&self) -> bool {
        &&& pack_names_of(self.packs@).no_duplicates()
        &&& file_paths_of(self.files@).no_duplicates()
    }

    /// A well-formed index has distinct pack names and distinct file paths.
    pub proof fn lemma_wf_distinct(&self)
        requires
            self.wf(),
        ensures
            pack_names_of(self.packs()).no_duplicates(),
            file_paths_of(self.files()).no_duplicates(),
    {
    }

    /// An index with no packs, roots or files.
    pub fn new() -> (r: ProjectIndex)
        ensures
            r.wf(),
            r.packs() == Seq::<QlPack>::empty(),
            r.roots() == Seq::<Seq<char>>::empty(),
            r.files() == Seq::<FileInfo>::empty(),
    {
        let r = ProjectIndex { packs: Vec::new(), import_roots: Vec::new(), files: Vec::new() };
        assert(pack_names_of(r.packs@) =~= Seq::<Seq<char>>::empty());
        assert(file_paths_of(r.files@) =~= Seq::<Seq<char>>::empty());
        assert(r.roots() =~= Seq::<Seq<char>>::empty());
        r
    }

    /// Whether a pack of this name is known.
    pub fn has_pack(&self, name: &str) -> (r: bool)
        ensures
            r == pack_names_of(self.packs()).contains(name@),
    {
        let mut i: usize = 0;
        while i < self.packs.len()
            invariant
                i <= self.packs@.len(),
                forall|j: int| 0 <= j < i ==> self.packs@[j].name@ != name@,
            decreases self.packs@.len() - i,
        {
            if str_eq(self.packs[i].name.as_str(), name) {
                assert(pack_names_of(self.packs())[i as int] == name@);
                return true;
            }
            i = i + 1;
        }
        proof {
            if pack_names_of(self.packs()).contains(name@) {
                let j = choose|j: int| 0 <= j < pack_names_of(self.packs()).len() && pack_names_of(self.packs())[j] == name@;
                assert(self.packs@[j].name@ == name@);
            }
        }
        false
    }

    /// Adds a pack unless one of that name is known; its root becomes an
    /// import root. Returns whether it was added.
    pub fn add_pack(&mut self, pack: QlPack) -> (added: bool)
        requires
            old(self).wf(),
        ensures
            final(self).wf(),
            added == !pack_names_of(old(self).packs()).contains(pack.name@),
            added ==> final(self).packs() == old(self).packs().push(pack) && final(self).roots() == old(
                self,
            ).roots().push(pack.root@),
            !added ==> final(self).packs() == old(self).packs() && final(self).roots() == old(self).roots(),
            final(self).files() == old(self).files(),
    {
        if self.has_pack(pack.name.as_str()) {
            return false;
        }
        let ghost before = self.packs@;
        let ghost roots_before = self.roots();
        let root = pack.root.clone();
        self.import_roots.push(root);
        self.packs.push(pack);
        proof {
            assert(pack_names_of(self.packs@) =~= pack_names_of(before).push(pack.name@));
            assert(self.roots() =~= roots_before.push(pack.root@));
        }
        true
    }

    /// Makes `root` the only import root when there is none.
    pub fn ensure_import_root(&mut self, root: &str)
        requires
            old(self).wf(),
        ensures
            final(self).wf(),
            final(self).packs() == old(self).packs(),
            final(self).files() == old(self).files(),
            old(self).roots().len() == 0 ==> final(self).roots() == seq![root@],
            old(self).roots().len() > 0 ==> final(self).roots() == old(self).roots(),
    {
        if self.import_roots.len() == 0 {
            self.import_roots.push(copy_str(root));
            assert(self.roots() =~= seq![root@]);
        }
    }

    /// Records a file under its path; a path recorded before gets the new
    /// pack.
    pub fn record_file(&mut self, path: String, pack: Option<String>)
        requires
            old(self).wf(),
        ensures
            final(self).wf(),
            final(self).packs() == old(self).packs(),
            final(self).roots() == old(self).roots(),
            file_paths_of(old(self).files()).contains(path@) ==> exists|i: int|
                0 <= i < old(self).files().len() && old(self).files()[i].path@ == path@ && final(self).files()
                    == old(self).files().update(i, FileInfo { path, pack }),
            !file_paths_of(old(self).files()).contains(path@) ==> final(self).files() == old(self).files().push(
                FileInfo { path, pack },
            ),
    {
        let mut i: usize = 0;
        while i < self.files.len()
            invariant
                i <= self.files@.len(),
                forall|j: int| 0 <= j < i ==> self.files@[j].path@ != path@,
                old(self).wf(),
                self.packs == old(self).packs,
                self.import_roots == old(self).import_roots,
                self.files == old(self).files,
            decreases self.files@.len() - i,
        {
            if str_eq(self.files[i].path.as_str(), path.as_str()) {
                let ghost before = self.files@;
                let info = FileInfo { path, pack };
                self.files.set(i, info);
                proof {
                    assert(file_paths_of(self.files@) =~= file_paths_of(before));
                    assert(before[i as int].path@ == path@);
                    assert(file_paths_of(before)[i as int] == path@);
                }
                return;
            }
            i = i + 1;
        }
        let ghost before = self.files@;
        proof {
            if file_paths_of(before).contains(path@) {
                let j = choose|j: int| 0 <= j < file_paths_of(before).len() && file_paths_of(before)[j] == path@;
                assert(before[j].path@ == path@);
            }
        }
        self.files.push(FileInfo { path, pack });
        proof {
            assert(file_paths_of(self.files@) =~= file_paths_of(before).push(path@));
        }
    }

    /// Dependencies of the known packs that are not known packs themselves,
    /// pack by pack, in order.
    pub fn missing_dependencies(&self) -> (r: Vec<String>)
        ensures
            views(r@) == missing_deps(self.packs(), pack_names_of(self.packs())),
    {
        let mut r: Vec<String> = Vec::new();
        let mut i: usize = 0;
        while i < self.packs.len()
            invariant
                i <= self.packs@.len(),
                views(r@) == missing_deps(self.packs@.take(i as int), pack_names_of(self.packs@)),
            decreases self.packs@.len() - i,
        {
            let deps = &self.packs[i].dependencies;
            let ghost base = views(r@);
            let mut k: usize = 0;
            while k < deps.len()
                invariant
                    i < self.packs@.len(),
                    deps@ == self.packs@[i as int].dependencies@,
                    k <= deps@.len(),
                    views(r@) == base + keep_out(views(deps@).take(k as int), pack_names_of(self.packs@)),
                decreases deps@.len() - k,
            {
                proof {
                    assert(views(deps@).take(k + 1).drop_last() =~= views(deps@).take(k as int));
                    assert(views(deps@).take(k + 1).last() == deps@[k as int]@);
                }
                if !self.has_pack(deps[k].as_str()) {
                    let ghost prev = views(r@);
                    r.push(deps[k].clone());
                    assert(views(r@) =~= prev.push(deps@[k as int]@));
                }
                k = k + 1;
            }
            proof {
                assert(views(deps@).take(deps@.len() as int) =~= views(deps@));
                assert(self.packs@.take(i + 1).drop_last() =~= self.packs@.take(i as int));
            }
            i = i + 1;
        }
        assert(self.packs@.take(self.packs@.len() as int) =~= self.packs@);
        r
    }

    /// Name of the first pack whose root is the path `root`.
    pub fn pack_for_root(&self, root: &str) -> (r: Option<String>)
        ensures
            opt_view(r) == root_pack(self.packs(), root@),
    {
        let target = path_components(root);
        let mut i: usize = 0;
        while i < self.packs.len()
            invariant
                i <= self.packs@.len(),
                views(target@) == components(root@),
                root_pack(self.packs@.take(i as int), root@) is None,
            decreases self.packs@.len() - i,
        {
            assert(self.packs@.take(i + 1).drop_last() =~= self.packs@.take(i as int));
            let c = path_components(self.packs[i].root.as_str());
            if same_components(&c, &target) {
                proof { lemma_root_pack_prefix(self.packs@, i as int, root@); }
                return Some(self.packs[i].name.clone());
            }
            i = i + 1;
        }
        assert(self.packs@.take(self.packs@.len() as int) =~= self.packs@);
        None
    }

    /// All recorded file paths.
    pub fn all_files(&self) -> (r: Vec<&str>)
        ensures
            r@.len() == self.files().len(),
            forall|i: int| 0 <= i < r@.len() ==> (#[trigger] r@[i])@ == self.files()[i].path@,
    {
        let mut r: Vec<&str> = Vec::new();
        let mut i: usize = 0;
        while i < self.files.len()
            invariant
                i <= self.files@.len(),
                r@.len() == i,
                forall|j: int| 0 <= j < i ==> (#[trigger] r@[j])@ == self.files@[j].path@,
            decreases self.files@.len() - i,
        {
            r.push(self.files[i].path.as_str());
            i = i + 1;
        }
        r
    }

    /// The import roots.
    pub fn import_roots(&self) -> (r: &Vec<String>)
        ensures
            views(r@) == self.roots(),
    {
        &self.import_roots
    }

    /// Number of recorded files.
    pub fn file_count(&self) -> (r: usize)
        ensures
            r == self.files().len(),
    {
        self.files.len()
    }

    /// Number of known packs.
    pub fn pack_count(&self) -> (r: usize)
        ensures
            r == self.packs().len(),
    {
        self.packs.len()
    }

    /// Names of the known packs.
    pub fn pack_names(&self) -> (r: Vec<&str>)
        ensures
            r@.len() == self.packs().len(),
            forall|i: int| 0 <= i < r@.len() ==> (#[trigger] r@[i])@ == self.packs()[i].name@,
    {
        let mut r: Vec<&str> = Vec::new();
        let mut i: usize = 0;
        while i < self.packs.len()
            invariant
                i <= self.packs@.len(),
                r@.len() == i,
                forall|j: int| 0 <= j < i ==> (#[trigger] r@[j])@ == self.packs@[j].name@,
            decreases self.packs@.len() - i,
        {
            r.push(self.packs[i].name.as_str());
            i = i + 1;
        }
        r
    }
}

/// The view of an optional string.
pub open spec fn opt_view(o: Option<String>) -> Option<Seq<char>> {
    match o {
        Some(s) => Some(s@),
        None => None,
    }
}

/// Name of the first pack whose root is the path `root`.
pub open spec fn root_pack(ps: Seq<QlPack>, root: Seq<char>) -> Option<Seq<char>>
    decreases ps.len(),
{
    if ps.len() == 0 {
        None
    } else {
        match root_pack(ps.drop_last(), root) {
            Some(n) => Some(n),
            None => if components(ps.last().root@) == components(root) {
                Some(ps.last().name@)
            } else {
                None
            },
        }
    }
}

/// Once the first `i` packs have no pack at `root` and the next one is
/// there, the first `i + 1` and all packs give its name.
proof fn lemma_root_pack_prefix(ps: Seq<QlPack>, i: int, root: Seq<char>)
    requires
        0 <= i < ps.len(),
        root_pack(ps.take(i), root) is None,
        components(ps[i].root@) == components(root),
    ensures
        root_pack(ps, root) == Some(ps[i].name@),
    decreases ps.len(),
{
    if ps.len() == i + 1 {
        assert(ps.drop_last() =~= ps.take(i));
    } else {
        assert(ps.drop_last().take(i) =~= ps.take(i));
        lemma_root_pack_prefix(ps.drop_last(), i, root);
    }
}

/// The elements of `s` that do not occur in `t`, in order.
pub open spec fn keep_out(s: Seq<Seq<char>>, t: Seq<Seq<char>>) -> Seq<Seq<char>>
    decreases s.len(),
{
    if s.len() == 0 {
        Seq::empty()
    } else if t.contains(s.last()) {
        keep_out(s.drop_last(), t)
    } else {
        keep_out(s.drop_last(), t).push(s.last())
    }
}

/// Dependencies of the packs, in order, that are not among `known`.
pub open spec fn missing_deps(ps: Seq<QlPack>, known: Seq<Seq<char>>) -> Seq<Seq<char>>
    decreases ps.len(),
{
    if ps.len() == 0 {
        Seq::empty()
    } else {
        missing_deps(ps.drop_last(), known) + keep_out(views(ps.last().dependencies@), known)
    }
}

/// A directory name the pack search does not enter.
pub open spec fn skipped_pack_dir(name: Seq<char>) -> bool {
    has_prefix(name, seq!['.']) || name == "node_modules"@ || name == "target"@ || name == "ql-packs"@
}

/// The names among `ds` that the pack search enters, in their order.
pub open spec fn searched_dirs(ds: Seq<Seq<char>>) -> Seq<Seq<char>>
    decreases ds.len(),
{
    if ds.len() == 0 {
        Seq::empty()
    } else if skipped_pack_dir(ds.last()) {
        searched_dirs(ds.drop_last())
    } else {
        searched_dirs(ds.drop_last()).push(ds.last())
    }
}

/// One step of the pack search in a directory: a directory that holds a
/// `qlpack.yml` is a pack and the search stops there (`None`); otherwise
/// it goes on into the subdirectories named `subdirs` that it does not
/// skip, in their order.
pub fn pack_search_step(has_qlpack: bool, subdirs: &Vec<String>) -> (r: Option<Vec<String>>)
    ensures
        r is None <==> has_qlpack,
        r matches Some(v) ==> views(v@) == searched_dirs(views(subdirs@)),
{
    if has_qlpack {
        return None;
    }
    let mut out: Vec<String> = Vec::new();
    let mut i: usize = 0;
    while i < subdirs.len()
        invariant
            i <= subdirs@.len(),
            views(out@) == searched_dirs(views(subdirs@).take(i as int)),
        decreases subdirs@.len() - i,
    {
        let ghost before = out@;
        assert(views(subdirs@).take(i + 1).drop_last() =~= views(subdirs@).take(i as int));
        assert(views(subdirs@).take(i + 1).last() == subdirs@[i as int]@);
        if !skip_pack_search_dir(subdirs[i].as_str()) {
            out.push(copy_str(subdirs[i].as_str()));
            assert(views(out@) =~= views(before).push(subdirs@[i as int]@));
        }
        i = i + 1;
    }
    assert(views(subdirs@).take(subdirs@.len() as int) =~= views(subdirs@));
    Some(out)
}

/// Whether the pack search skips a directory of this name.
pub fn skip_pack_search_dir(name: &str) -> (r: bool)
    ensures
        r == skipped_pack_dir(name@),
{
    let cs = chars_of(name);
    let dot = cs.len() > 0 && cs[0] == '.';
    assert(dot == has_prefix(name@, seq!['.'])) by {
        if cs@.len() > 0 {
            assert(name@.take(1) =~= seq![name@[0]]);
            if name@[0] == '.' {
                assert(name@.take(1) =~= seq!['.']);
            }
            if name@.take(1) == seq!['.'] {
                assert(name@.take(1)[0] == '.');
            }
        }
    }
    dot || str_eq(name, "node_modules") || str_eq(name, "target") || str_eq(name, "ql-packs")
}

/// Whether the search for QL files skips a directory of this name.
pub fn skip_source_dir(name: &str) -> (r: bool)
    ensures
        r == (has_prefix(name@, seq!['.']) || name@ == "node_modules"@ || name@ == "target"@ || name@
            == "test"@ || name@ == "upgrades"@),
{
    let cs = chars_of(name);
    let dot = cs.len() > 0 && cs[0] == '.';
    assert(dot == has_prefix(name@, seq!['.'])) by {
        if cs@.len() > 0 {
            assert(name@.take(1) =~= seq![name@[0]]);
            if name@[0] == '.' {
                assert(name@.take(1) =~= seq!['.']);
            }
            if name@.take(1) == seq!['.'] {
                assert(name@.take(1)[0] == '.');
            }
        }
    }
    dot || str_eq(name, "node_modules") || str_eq(name, "target") || str_eq(name, "test") || str_eq(
        name,
        "upgrades",
    )
}

/// Whether a file extension marks a QL source file.
pub fn is_ql_extension(ext: &str) -> (r: bool)
    ensures
        r == (ext@ == "ql"@ || ext@ == "qll"@),
{
    str_eq(ext, "ql") || str_eq(ext, "qll")
}

/// Position of the last `.` before position `i` in the last component of
/// `p` (the text after its last `/`), if there is one.
pub open spec fn last_dot_before(p: Seq<char>, i: int) -> Option<int>
    decreases i,
{
    if i <= 0 || i > p.len() {
        None
    } else if p[i - 1] == '/' {
        None
    } else if p[i - 1] == '.' {
        Some(i - 1)
    } else {
        last_dot_before(p, i - 1)
    }
}

/// The extension of a listed file path, as `Path::extension` documents it:
/// the part of the file name (the text after the last `/`) after its last
/// `.`; none when the name has no `.`, or only a leading one.
pub open spec fn path_extension(p: Seq<char>) -> Option<Seq<char>> {
    match last_dot_before(p, p.len() as int) {
        Some(d) => if d == 0 || p[d - 1] == '/' { None } else { Some(p.skip(d + 1)) },
        None => None,
    }
}

/// Whether a listed file path names a QL source file: its extension is
/// `ql` or `qll`.
pub open spec fn ql_source_path(p: Seq<char>) -> bool {
    match path_extension(p) {
        Some(e) => e == "ql"@ || e == "qll"@,
        None => false,
    }
}

/// Whether a listed file path names a QL source file (`ql_source_path`).
pub fn is_ql_source_path(path: &str) -> (r: bool)
    ensures
        r == ql_source_path(path@),
{
    let cs = chars_of(path);
    let mut i: usize = cs.len();
    while i > 0
        invariant
            cs@ == path@,
            i <= cs@.len(),
            last_dot_before(cs@, cs@.len() as int) == last_dot_before(cs@, i as int),
        decreases i,
    {
        if cs[i - 1] == '/' {
            return false;
        }
        if cs[i - 1] == '.' {
            if i - 1 == 0 || cs[i - 2] == '/' {
                return false;
            }
            let ext = sub_chars(cs.as_slice(), i, cs.len());
            let e = string_of(ext.as_slice());
            proof {
                assert(cs@.subrange(i as int, cs@.len() as int) =~= cs@.skip(i as int));
            }
            return is_ql_extension(e.as_str());
        }
        i = i - 1;
    }
    false
}


/// Byte length of a path text (`OsStr::len`).
pub open spec fn byte_len(s: Seq<char>) -> nat {
    vstd::utf8::encode_utf8(s).len()
}

/// Index of the longest import root, among the first `n`, that the path
/// lies under; the first such root wins a tie.
pub open spec fn best_root(roots: Seq<Seq<char>>, file: Seq<char>, n: int) -> Option<int>
    decreases n,
{
    if n <= 0 {
        None
    } else {
        let b = best_root(roots, file, n - 1);
        if path_starts_with(file, roots[n - 1]) && (b is None || byte_len(roots[n - 1]) > byte_len(roots[b->0])) {
            Some(n - 1)
        } else {
            b
        }
    }
}

proof fn lemma_best_root_range(roots: Seq<Seq<char>>, file: Seq<char>, n: int)
    ensures
        best_root(roots, file, n) matches Some(b) ==> 0 <= b < n,
    decreases n,
{
    if n > 0 {
        lemma_best_root_range(roots, file, n - 1);
    }
}

/// The pack root of a file: the longest import root it lies under.
pub open spec fn pack_root_of(roots: Seq<Seq<char>>, file: Seq<char>) -> Option<Seq<char>> {
    match best_root(roots, file, roots.len() as int) {
        Some(i) => Some(roots[i]),
        None => None,
    }
}

/// The pack of a file: the one with the longest root it lies under.
pub open spec fn pack_of(packs: Seq<QlPack>, file: Seq<char>) -> Option<Seq<char>> {
    match best_root(packs.map_values(|p: QlPack| p.root@), file, packs.len() as int) {
        Some(i) => Some(packs[i].name@),
        None => None,
    }
}

/// Index of the best root in `roots`.
fn best_root_index(roots: &Vec<String>, file: &str) -> (r: Option<usize>)
    ensures
        match best_root(views(roots@), file@, roots@.len() as int) {
            Some(i) => r matches Some(x) && x as int == i,
            None => r is None,
        },
{
    let mut best: Option<usize> = None;
    let mut best_len: usize = 0;
    let mut i: usize = 0;
    while i < roots.len()
        invariant
            i <= roots@.len(),
            match best_root(views(roots@), file@, i as int) {
                Some(b) => best matches Some(x) && x as int == b && best_len == byte_len(roots@[b]@),
                None => best is None,
            },
        decreases roots@.len() - i,
    {
        let root = roots[i].as_str();
        let blen = root.as_bytes().len();
        proof {
            assert(views(roots@)[i as int] == roots@[i as int]@);
            lemma_best_root_range(views(roots@), file@, i as int);
            assert(blen == byte_len(root@));
            if let Some(b) = best_root(views(roots@), file@, i as int) {
                assert(views(roots@)[b] == roots@[b]@);
            }
        }
        if starts_with_path(file, root) && (best.is_none() || blen > best_len) {
            best = Some(i);
            best_len = blen;
        }
        i = i + 1;
    }
    best
}

impl ProjectIndex {
    /// The pack root of a file: the longest import root it lies under.
    pub fn find_pack_root(&self, file: &str) -> (r: Option<&str>)
        ensures
            match pack_root_of(self.roots(), file@) {
                Some(p) => r matches Some(s) && s@ == p,
                None => r is None,
            },
    {
        proof {
            lemma_best_root_range(self.roots(), file@, self.roots().len() as int);
            assert(self.roots().len() == self.import_roots@.len());
            assert(self.roots() == views(self.import_roots@));
        }
        match best_root_index(&self.import_roots, file) {
            Some(i) => {
                assert(best_root(self.roots(), file@, self.roots().len() as int) == Some(i as int));
                assert(pack_root_of(self.roots(), file@) == Some(self.roots()[i as int]));
                assert(self.roots()[i as int] == self.import_roots@[i as int]@);
                let s = self.import_roots[i].as_str();
                assert(s@ == self.roots()[i as int]);
                Some(s)
            },
            None => {
                assert(best_root(self.roots(), file@, self.roots().len() as int) is None);
                None
            },
        }
    }

    /// The name of the pack of a file: the pack with the longest root it lies
    /// under.
    pub fn find_pack_name(&self, file: &str) -> (r: Option<String>)
        ensures
            match pack_of(self.packs(), file@) {
                Some(n) => r matches Some(s) && s@ == n,
                None => r is None,
            },
    {
        let mut roots: Vec<String> = Vec::new();
        let mut i: usize = 0;
        while i < self.packs.len()
            invariant
                i <= self.packs@.len(),
                roots@.len() == i,
                forall|j: int| 0 <= j < i ==> (#[trigger] roots@[j])@ == self.packs@[j].root@,
            decreases self.packs@.len() - i,
        {
            roots.push(self.packs[i].root.clone());
            i = i + 1;
        }
        assert(views(roots@) =~= self.packs@.map_values(|p: QlPack| p.root@));
        proof {
            lemma_best_root_range(views(roots@), file@, roots@.len() as int);
        }
        match best_root_index(&roots, file) {
            Some(i) => Some(self.packs[i].name.clone()),
            None => None,
        }
    }
}


/// The file an import path names, relative to a directory: its segments
/// joined by `/`, with the `.qll` extension.
pub open spec fn import_file(ip: Seq<Seq<char>>) -> Seq<char> {
    join(ip, seq!['/']) + seq!['.', 'q', 'l', 'l']
}

/// Candidates from walking up from the directory with components `dc`: the
/// import file in each ancestor, stopping after the pack root.
pub open spec fn walk_up(dc: Seq<Seq<char>>, rel: Seq<char>, pack_root: Option<Seq<char>>) -> Seq<Seq<char>>
    decreases dc.len(),
{
    match parent_comps(dc) {
        None => Seq::empty(),
        Some(pc) => seq![join_path(render(pc), rel)] + if pack_root matches Some(r) && pc == components(r) {
            Seq::empty()
        } else {
            walk_up(pc, rel, pack_root)
        },
    }
}

/// The candidates of a dependency pack named `d` with root `root`.
pub open spec fn dep_pack_candidates(root: Seq<char>, d: Seq<char>, ip: Seq<Seq<char>>) -> Seq<Seq<char>> {
    let segs = split_on(d, '/');
    let rel = import_file(ip);
    (if ip.len() > segs.len() && ip.take(segs.len() as int) == segs {
        seq![join_path(root, rel), join_path(root, import_file(ip.skip(segs.len() as int)))]
    } else {
        Seq::empty()
    }) + (if segs.len() == 2 && ip[0] == segs[1] {
        seq![join_path(root, import_file(seq![segs[0]] + ip))]
    } else {
        Seq::empty()
    })
}

/// Index of the first pack named `d`.
pub open spec fn pack_named(ps: Seq<QlPack>, d: Seq<char>) -> Option<int> {
    if exists|i: int| 0 <= i < ps.len() && ps[i].name@ == d {
        Some(choose|i: int| 0 <= i < ps.len() && ps[i].name@ == d && forall|j: int| 0 <= j < i ==> ps[j].name@ != d)
    } else {
        None
    }
}

/// Candidates through the dependency packs `ds`, in order.
pub open spec fn deps_candidates(ps: Seq<QlPack>, ds: Seq<Seq<char>>, ip: Seq<Seq<char>>) -> Seq<Seq<char>>
    decreases ds.len(),
{
    if ds.len() == 0 {
        Seq::empty()
    } else {
        deps_candidates(ps, ds.drop_last(), ip) + match pack_named(ps, ds.last()) {
            Some(i) => dep_pack_candidates(ps[i].root@, ds.last(), ip),
            None => Seq::empty(),
        }
    }
}

/// Candidates next to the importing file, and for a one-segment import in
/// the directory of that name there.
pub open spec fn near_candidates(ip: Seq<Seq<char>>, from: Seq<char>) -> Seq<Seq<char>> {
    let rel = import_file(ip);
    match parent_comps(components(from)) {
        Some(pc) => seq![join_path(render(pc), rel)] + if ip.len() == 1 {
            seq![join_path(join_path(render(pc), ip[0]), rel)]
        } else {
            Seq::empty()
        },
        None => Seq::empty(),
    }
}

/// Candidates in the ancestors of the importing file's directory, up to the
/// pack root, for imports of at most two segments.
pub open spec fn ancestor_candidates(roots: Seq<Seq<char>>, ip: Seq<Seq<char>>, from: Seq<char>) -> Seq<Seq<char>> {
    if ip.len() <= 2 {
        match parent_comps(components(from)) {
            Some(pc) => walk_up(pc, import_file(ip), pack_root_of(roots, from)),
            None => Seq::empty(),
        }
    } else {
        Seq::empty()
    }
}

/// The candidate under the pack root.
pub open spec fn pack_root_candidates(roots: Seq<Seq<char>>, ip: Seq<Seq<char>>, from: Seq<char>) -> Seq<Seq<char>> {
    match pack_root_of(roots, from) {
        Some(r) => seq![join_path(r, import_file(ip))],
        None => Seq::empty(),
    }
}

/// The dependency packs searched: those of the importing file's pack, or
/// all packs when it is in none.
pub open spec fn dependency_names_of(packs: Seq<QlPack>, from: Seq<char>) -> Seq<Seq<char>> {
    match pack_of(packs, from) {
        Some(n) => match pack_named(packs, n) {
            Some(i) => views(packs[i].dependencies@),
            None => Seq::empty(),
        },
        None => pack_names_of(packs),
    }
}

/// The files an import may resolve to, in the order they are tried:
/// 1. next to the importing file (and, for a one-segment import, in the
///    directory of that name there);
/// 2. for imports of at most two segments, in each ancestor directory up to
///    the pack root;
/// 3. under the pack root;
/// 4. under each import root;
/// 5. through the dependency packs of the importing file's pack (all packs
///    when it is in none) whose name begins the import path, or whose last
///    name segment is the import's first;
/// 6. under each pack root.
#[verifier::opaque]
pub open spec fn import_candidates_of(
    packs: Seq<QlPack>,
    roots: Seq<Seq<char>>,
    ip: Seq<Seq<char>>,
    from: Seq<char>,
) -> Seq<Seq<char>> {
    if ip.len() == 0 {
        Seq::empty()
    } else {
        near_candidates(ip, from) + ancestor_candidates(roots, ip, from) + pack_root_candidates(roots, ip, from)
            + roots.map_values(|r: Seq<char>| join_path(r, import_file(ip))) + deps_candidates(
            packs,
            dependency_names_of(packs, from),
            ip,
        ) + packs.map_values(|p: QlPack| join_path(p.root@, import_file(ip)))
    }
}

/// The import file of an import path.
fn import_file_text(ip: &Vec<String>) -> (r: String)
    ensures
        r@ == import_file(views(ip@)),
{
    let mut r = String::new();
    let ghost r0 = r@;
    crate::text::push_joined(&mut r, ip, "/");
    let ghost r1 = r@;
    r.append(".qll");
    proof {
        reveal_strlit("/");
        reveal_strlit(".qll");
        assert("/"@ == seq!['/']);
        assert(".qll"@ == seq!['.', 'q', 'l', 'l']);
        assert(r0 == Seq::<char>::empty());
        assert(r1 == r0 + join(views(ip@), "/"@));
        assert(r@ == r1 + ".qll"@);
    }
    assert(r@ =~= import_file(views(ip@)));
    r
}

/// Appends `join_path(base, rel)`.
fn push_candidate(out: &mut Vec<String>, base: &str, rel: &str)
    ensures
        views(final(out)@) == views(old(out)@).push(join_path(base@, rel@)),
{
    let c = join_paths(base, rel);
    let ghost before = views(out@);
    out.push(c);
    assert(views(out@) =~= before.push(join_path(base@, rel@)));
}

/// The components of the parent, if there is one (`parent_comps`).
pub(crate) fn parent_components(c: &Vec<String>) -> (r: Option<Vec<String>>)
    ensures
        match parent_comps(views(c@)) {
            Some(p) => r matches Some(v) && views(v@) == p,
            None => r is None,
        },
{
    let n = c.len();
    if n == 0 || str_eq(c[n - 1].as_str(), "/") {
        proof {
            reveal_strlit("/");
            assert("/"@ == seq!['/']);
            if n > 0 {
                assert(views(c@).last() == c@[n - 1]@);
            }
        }
        return None;
    }
    proof {
        reveal_strlit("/");
        assert("/"@ == seq!['/']);
        assert(views(c@).last() == c@[n - 1]@);
    }
    let mut up: Vec<String> = Vec::new();
    let mut k: usize = 0;
    while k < n - 1
        invariant
            n == c@.len(),
            n > 0,
            k <= n - 1,
            views(up@) == views(c@).take(k as int),
        decreases n - 1 - k,
    {
        let ghost before = views(up@);
        up.push(c[k].clone());
        proof {
            assert(views(up@) =~= before.push(c@[k as int]@));
            assert(views(c@).take(k + 1) =~= views(c@).take(k as int).push(views(c@)[k as int]));
        }
        k = k + 1;
    }
    assert(views(up@) =~= views(c@).drop_last());
    Some(up)
}

/// Appends the candidates of walking up from the directory with
/// components `dc` (`walk_up`); `root_comps` are the components of the pack
/// root, if any.
fn push_walk_up(out: &mut Vec<String>, dc: Vec<String>, rel: &str, root_comps: &Option<Vec<String>>, Ghost(pr): Ghost<Option<Seq<char>>>)
    requires
        match pr {
            Some(r) => *root_comps matches Some(c) && views(c@) == components(r),
            None => *root_comps is None,
        },
    ensures
        views(final(out)@) == views(old(out)@) + walk_up(views(dc@), rel@, pr),
{
    let ghost start = views(out@);
    let ghost full = walk_up(views(dc@), rel@, pr);
    let mut dc = dc;
    loop
        invariant_except_break
            views(out@) + walk_up(views(dc@), rel@, pr) == start + full,
        invariant
            match pr {
                Some(r) => *root_comps matches Some(c) && views(c@) == components(r),
                None => *root_comps is None,
            },
        ensures
            views(out@) == start + full,
        decreases dc@.len(),
    {
        match parent_components(&dc) {
            None => {
                assert(views(out@) + Seq::<Seq<char>>::empty() =~= views(out@));
                break;
            },
            Some(up) => {
                let up_text = render_components(&up);
                let ghost before = views(out@);
                push_candidate(out, up_text.as_str(), rel);
                let stop = match root_comps {
                    Some(c) => same_components(&up, c),
                    None => false,
                };
                if stop {
                    assert(before + walk_up(views(dc@), rel@, pr) =~= views(out@));
                    break;
                }
                assert(before + walk_up(views(dc@), rel@, pr) =~= views(out@) + walk_up(views(up@), rel@, pr));
                dc = up;
            },
        }
    }
}

/// Appends `join_path(r, rel)` for each root `r`.
fn push_under_each(out: &mut Vec<String>, roots: &Vec<String>, rel: &str)
    ensures
        views(final(out)@) == views(old(out)@) + views(roots@).map_values(|r: Seq<char>| join_path(r, rel@)),
{
    let ghost start = views(out@);
    let mut k: usize = 0;
    while k < roots.len()
        invariant
            k <= roots@.len(),
            views(out@) == start + views(roots@).take(k as int).map_values(|r: Seq<char>| join_path(r, rel@)),
        decreases roots@.len() - k,
    {
        push_candidate(out, roots[k].as_str(), rel);
        proof {
            assert(views(roots@)[k as int] == roots@[k as int]@);
            assert(views(roots@).take(k + 1).map_values(|r: Seq<char>| join_path(r, rel@)) =~= views(roots@).take(
                k as int,
            ).map_values(|r: Seq<char>| join_path(r, rel@)).push(join_path(roots@[k as int]@, rel@)));
        }
        k = k + 1;
    }
    assert(views(roots@).take(roots@.len() as int) =~= views(roots@));
}

impl ProjectIndex {
    /// Position of the first pack named `d`.
    fn pack_index(&self, d: &str) -> (r: Option<usize>)
        ensures
            match pack_named(self.packs(), d@) {
                Some(i) => r matches Some(x) && x as int == i && x < self.packs().len(),
                None => r is None,
            },
    {
        let mut i: usize = 0;
        while i < self.packs.len()
            invariant
                i <= self.packs@.len(),
                forall|j: int| 0 <= j < i ==> self.packs@[j].name@ != d@,
            decreases self.packs@.len() - i,
        {
            if str_eq(self.packs[i].name.as_str(), d) {
                proof {
                    let c = choose|c: int|
                        0 <= c < self.packs@.len() && self.packs@[c].name@ == d@ && forall|j: int|
                            0 <= j < c ==> self.packs@[j].name@ != d@;
                    if c < i {
                    } else if c > i {
                        assert(self.packs@[i as int].name@ != d@);
                    }
                }
                return Some(i);
            }
            i = i + 1;
        }
        None
    }

    /// The dependency packs searched for an import from `from_file`: those
    /// of its pack, or all packs when it is in none.
    fn dependency_names(&self, from_file: &str) -> (r: Vec<String>)
        ensures
            views(r@) == dependency_names_of(self.packs(), from_file@),
    {
        match self.find_pack_name(from_file) {
            Some(name) => match self.pack_index(name.as_str()) {
                Some(i) => copy_strings(&self.packs[i].dependencies),
                None => {
                    let r: Vec<String> = Vec::new();
                    assert(views(r@) =~= Seq::<Seq<char>>::empty());
                    r
                },
            },
            None => {
                let mut all: Vec<String> = Vec::new();
                let mut j: usize = 0;
                while j < self.packs.len()
                    invariant
                        j <= self.packs@.len(),
                        views(all@) == pack_names_of(self.packs@).take(j as int),
                    decreases self.packs@.len() - j,
                {
                    let ghost before = views(all@);
                    all.push(self.packs[j].name.clone());
                    proof {
                        assert(views(all@) =~= before.push(self.packs@[j as int].name@));
                        assert(pack_names_of(self.packs@).take(j + 1) =~= pack_names_of(self.packs@).take(j as int).push(
                            self.packs@[j as int].name@,
                        ));
                    }
                    j = j + 1;
                }
                assert(pack_names_of(self.packs@).take(self.packs@.len() as int) =~= pack_names_of(self.packs@));
                all
            },
        }
    }

    /// Appends the candidates through the dependency packs `ds`
    /// (`deps_candidates`).
    fn push_deps_candidates(&self, out: &mut Vec<String>, ds: &Vec<String>, import_path: &Vec<String>)
        requires
            import_path@.len() > 0,
        ensures
            views(final(out)@) == views(old(out)@) + deps_candidates(self.packs(), views(ds@), views(import_path@)),
    {
        let ghost start = views(out@);
        let ghost ip = views(import_path@);
        let mut k: usize = 0;
        while k < ds.len()
            invariant
                k <= ds@.len(),
                ip == views(import_path@),
                ip.len() > 0,
                views(out@) == start + deps_candidates(self.packs(), views(ds@).take(k as int), ip),
            decreases ds@.len() - k,
        {
            proof {
                assert(views(ds@).take(k + 1).drop_last() =~= views(ds@).take(k as int));
                assert(views(ds@).take(k + 1).last() == ds@[k as int]@);
            }
            let d = ds[k].as_str();
            let ghost prev = views(out@);
            let ghost ps = self.packs();
            match self.pack_index(d) {
                Some(pi) => {
                    let root = self.packs[pi].root.as_str();
                    push_dep_candidates(out, root, d, import_path);
                    assert(views(out@) == prev + dep_pack_candidates(ps[pi as int].root@, d@, ip));
                },
                None => {
                    assert(views(out@) =~= prev + Seq::<Seq<char>>::empty());
                },
            }
            proof {
                assert(deps_candidates(ps, views(ds@).take(k + 1), ip) == deps_candidates(ps, views(ds@).take(k as int), ip)
                    + match pack_named(ps, d@) {
                    Some(i) => dep_pack_candidates(ps[i].root@, d@, ip),
                    None => Seq::empty(),
                });
                assert(views(out@) =~= start + deps_candidates(ps, views(ds@).take(k + 1), ip));
            }
            k = k + 1;
        }
        assert(views(ds@).take(ds@.len() as int) =~= views(ds@));
    }

    /// The files an import may resolve to, in the order they are tried
    /// (`import_candidates_of`).
    #[verifier::rlimit(40)]
    pub fn import_candidates(&self, import_path: &Vec<String>, from_file: &str) -> (r: Vec<String>)
        ensures
            views(r@) == import_candidates_of(self.packs(), self.roots(), views(import_path@), from_file@),
    {
        reveal(import_candidates_of);
        let mut out: Vec<String> = Vec::new();
        if import_path.len() == 0 {
            assert(views(out@) =~= Seq::<Seq<char>>::empty());
            return out;
        }
        let ghost ip = views(import_path@);
        let rel = import_file_text(import_path);
        let fc = path_components(from_file);
        let pack_root = self.find_pack_root(from_file);
        let parent = parent_components(&fc);
        let ghost s0 = views(out@);
        // next to the importing file
        match &parent {
            Some(pc) => {
                let ptext = render_components(pc);
                push_candidate(&mut out, ptext.as_str(), rel.as_str());
                if import_path.len() == 1 {
                    let dir = join_paths(ptext.as_str(), import_path[0].as_str());
                    push_candidate(&mut out, dir.as_str(), rel.as_str());
                    assert(ip[0] == import_path@[0]@);
                }
            },
            None => {},
        }
        let ghost s1 = views(out@);
        assert(s1 == s0 + near_candidates(ip, from_file@));
        // ancestors up to the pack root
        if import_path.len() <= 2 {
            match &parent {
                Some(pc) => {
                    let root_comps: Option<Vec<String>> = match pack_root {
                        Some(r) => Some(path_components(r)),
                        None => None,
                    };
                    push_walk_up(&mut out, copy_strings(pc), rel.as_str(), &root_comps, Ghost(pack_root_of(self.roots(), from_file@)));
                },
                None => {},
            }
        }
        let ghost s2 = views(out@);
        assert(s2 =~= s1 + ancestor_candidates(self.roots(), ip, from_file@));
        // the pack root
        if let Some(r) = pack_root {
            push_candidate(&mut out, r, rel.as_str());
        }
        let ghost s3 = views(out@);
        assert(s3 =~= s2 + pack_root_candidates(self.roots(), ip, from_file@));
        // each import root
        push_under_each(&mut out, &self.import_roots, rel.as_str());
        let ghost s4 = views(out@);
        // the dependency packs
        let ds = self.dependency_names(from_file);
        self.push_deps_candidates(&mut out, &ds, import_path);
        let ghost s5 = views(out@);
        // each pack root
        let mut k: usize = 0;
        while k < self.packs.len()
            invariant
                k <= self.packs@.len(),
                views(out@) == s5 + self.packs@.take(k as int).map_values(|p: QlPack| join_path(p.root@, rel@)),
            decreases self.packs@.len() - k,
        {
            push_candidate(&mut out, self.packs[k].root.as_str(), rel.as_str());
            proof {
                assert(self.packs@.take(k + 1).map_values(|p: QlPack| join_path(p.root@, rel@)) =~= self.packs@.take(
                    k as int,
                ).map_values(|p: QlPack| join_path(p.root@, rel@)).push(join_path(self.packs@[k as int].root@, rel@)));
            }
            k = k + 1;
        }
        assert(self.packs@.take(self.packs@.len() as int) =~= self.packs@);
        assert(s4 == s3 + self.roots().map_values(|r: Seq<char>| join_path(r, import_file(ip))));
        assert(s5 == s4 + deps_candidates(self.packs(), dependency_names_of(self.packs(), from_file@), ip));
        assert(views(out@) == s5 + self.packs().map_values(|p: QlPack| join_path(p.root@, import_file(ip))));
        assert(views(out@) =~= import_candidates_of(self.packs(), self.roots(), ip, from_file@));
        out
    }
}

/// Appends the candidates of the dependency pack named `d` with root
/// `root` (`dep_pack_candidates`).
fn push_dep_candidates(out: &mut Vec<String>, root: &str, d: &str, import_path: &Vec<String>)
    requires
        import_path@.len() > 0,
    ensures
        views(final(out)@) == views(old(out)@) + dep_pack_candidates(root@, d@, views(import_path@)),
{
    let ghost ip = views(import_path@);
    let segs = split_str(d, '/');
    let ns = segs.len();
    let ghost before = views(out@);
    let mut prefix = import_path.len() > ns;
    if prefix {
        let mut i: usize = 0;
        while i < ns
            invariant
                ns == segs@.len(),
                ns < import_path@.len(),
                i <= ns,
                prefix ==> forall|j: int| 0 <= j < i ==> segs@[j]@ == import_path@[j]@,
                !prefix ==> exists|j: int| 0 <= j < i && segs@[j]@ != import_path@[j]@,
            decreases ns - i,
        {
            if !str_eq(segs[i].as_str(), import_path[i].as_str()) {
                prefix = false;
            }
            i = i + 1;
        }
        proof {
            if prefix {
                assert(ip.take(ns as int) =~= views(segs@));
            } else {
                let j = choose|j: int| 0 <= j < ns && segs@[j]@ != import_path@[j]@;
                assert(ip.take(ns as int)[j] != views(segs@)[j]);
            }
        }
    }
    assert(prefix == (ip.len() > views(segs@).len() && ip.take(views(segs@).len() as int) == views(segs@)));
    if prefix {
        let rel = import_file_text(import_path);
        push_candidate(out, root, rel.as_str());
        let mut suffix: Vec<String> = Vec::new();
        let mut i: usize = ns;
        while i < import_path.len()
            invariant
                ns <= i <= import_path@.len(),
                views(suffix@) == ip.subrange(ns as int, i as int),
                ip == views(import_path@),
            decreases import_path@.len() - i,
        {
            let ghost b = views(suffix@);
            suffix.push(import_path[i].clone());
            proof {
                assert(views(suffix@) =~= b.push(import_path@[i as int]@));
                assert(ip.subrange(ns as int, i + 1) =~= ip.subrange(ns as int, i as int).push(ip[i as int]));
            }
            i = i + 1;
        }
        assert(views(suffix@) =~= ip.skip(ns as int));
        let srel = import_file_text(&suffix);
        push_candidate(out, root, srel.as_str());
    }
    if ns == 2 && str_eq(import_path[0].as_str(), segs[1].as_str()) {
        let mut full: Vec<String> = Vec::new();
        full.push(segs[0].clone());
        let mut i: usize = 0;
        while i < import_path.len()
            invariant
                i <= import_path@.len(),
                ns == 2,
                ns == segs@.len(),
                views(full@) == seq![segs@[0]@] + ip.take(i as int),
                ip == views(import_path@),
            decreases import_path@.len() - i,
        {
            let ghost b = views(full@);
            full.push(import_path[i].clone());
            proof {
                assert(views(full@) =~= b.push(import_path@[i as int]@));
                assert(ip.take(i + 1) =~= ip.take(i as int).push(ip[i as int]));
            }
            i = i + 1;
        }
        assert(ip.take(ip.len() as int) =~= ip);
        let frel = import_file_text(&full);
        push_candidate(out, root, frel.as_str());
        proof {
            assert(views(segs@)[0] == segs@[0]@);
            assert(views(segs@)[1] == segs@[1]@);
        }
    } else {
        proof {
            if ns == 2 {
                assert(views(segs@)[1] == segs@[1]@);
            }
        }
    }
    assert(views(out@) =~= before + dep_pack_candidates(root@, d@, ip));
}


/// The closure `present` may answer `b` for the path `p`.
pub open spec fn answers<F: Fn(&str) -> bool>(present: F, p: Seq<char>, b: bool) -> bool {
    exists|s: &str| s@ == p && present.ensures((s,), b)
}

/// The elements of `c` whose outcome is `true`, in order.
pub open spec fn select(c: Seq<Seq<char>>, outcomes: Seq<bool>) -> Seq<Seq<char>>
    decreases c.len(),
{
    if c.len() == 0 || outcomes.len() != c.len() {
        Seq::empty()
    } else {
        let r = select(c.drop_last(), outcomes.drop_last());
        if outcomes.last() {
            r.push(c.last())
        } else {
            r
        }
    }
}

/// The dbscheme files the packs name, each under its pack root, in order.
pub open spec fn dbscheme_candidates(ps: Seq<QlPack>) -> Seq<Seq<char>>
    decreases ps.len(),
{
    if ps.len() == 0 {
        Seq::empty()
    } else {
        dbscheme_candidates(ps.drop_last()) + match ps.last().dbscheme {
            Some(d) => seq![join_path(ps.last().root@, d@)],
            None => Seq::empty(),
        }
    }
}

impl ProjectIndex {
    /// Resolves an import to the first of its candidate files
    /// (`import_candidates_of`) that `present` reports as existing.
    pub fn resolve_import<F: Fn(&str) -> bool>(&self, import_path: &Vec<String>, from_file: &str, present: F) -> (r: Option<String>)
        requires
            forall|s: &str| present.requires((s,)),
        ensures
            ({
                let c = import_candidates_of(self.packs(), self.roots(), views(import_path@), from_file@);
                match r {
                    Some(p) => exists|i: int|
                        0 <= i < c.len() && p@ == c[i] && answers(present, c[i], true) && forall|j: int|
                            0 <= j < i ==> answers(present, #[trigger] c[j], false),
                    None => forall|j: int| 0 <= j < c.len() ==> answers(present, #[trigger] c[j], false),
                }
            }),
    {
        let candidates = self.import_candidates(import_path, from_file);
        let ghost c = views(candidates@);
        let mut i: usize = 0;
        while i < candidates.len()
            invariant
                i <= candidates@.len(),
                c == views(candidates@),
                c == import_candidates_of(self.packs(), self.roots(), views(import_path@), from_file@),
                forall|s: &str| present.requires((s,)),
                forall|j: int| 0 <= j < i ==> answers(present, #[trigger] c[j], false),
            decreases candidates@.len() - i,
        {
            let s = candidates[i].as_str();
            let found = present(s);
            assert(c[i as int] == s@);
            if found {
                assert(answers(present, c[i as int], true));
                let p = candidates[i].clone();
                assert(p@ == c[i as int]);
                return Some(p);
            }
            assert(answers(present, c[i as int], false));
            i = i + 1;
        }
        None
    }

    /// The dbscheme files of the packs that `present` reports as existing.
    pub fn dbscheme_paths<F: Fn(&str) -> bool>(&self, present: F) -> (r: Vec<String>)
        requires
            forall|s: &str| present.requires((s,)),
        ensures
            exists|outcomes: Seq<bool>|
                outcomes.len() == dbscheme_candidates(self.packs()).len() && (forall|i: int|
                    0 <= i < outcomes.len() ==> answers(present, dbscheme_candidates(self.packs())[i], #[trigger] outcomes[i]))
                    && views(r@) == select(dbscheme_candidates(self.packs()), outcomes),
    {
        let mut r: Vec<String> = Vec::new();
        let ghost mut outcomes: Seq<bool> = Seq::empty();
        let mut k: usize = 0;
        while k < self.packs.len()
            invariant
                k <= self.packs@.len(),
                forall|s: &str| present.requires((s,)),
                outcomes.len() == dbscheme_candidates(self.packs@.take(k as int)).len(),
                forall|i: int|
                    0 <= i < outcomes.len() ==> answers(present, dbscheme_candidates(self.packs@.take(k as int))[i], #[trigger] outcomes[i]),
                views(r@) == select(dbscheme_candidates(self.packs@.take(k as int)), outcomes),
            decreases self.packs@.len() - k,
        {
            let ghost prev_c = dbscheme_candidates(self.packs@.take(k as int));
            proof {
                assert(self.packs@.take(k + 1).drop_last() =~= self.packs@.take(k as int));
            }
            match &self.packs[k].dbscheme {
                Some(d) => {
                    let c = join_paths(self.packs[k].root.as_str(), d.as_str());
                    let found = present(c.as_str());
                    let ghost new_c = prev_c.push(c@);
                    assert(dbscheme_candidates(self.packs@.take(k + 1)) =~= new_c);
                    let ghost prev_out = outcomes;
                    proof {
                        outcomes = outcomes.push(found);
                        assert(new_c.drop_last() =~= prev_c);
                        assert(outcomes.drop_last() =~= prev_out);
                        assert forall|i: int| 0 <= i < outcomes.len() implies answers(present, new_c[i], #[trigger] outcomes[i]) by {
                            if i < prev_out.len() {
                                assert(new_c[i] == prev_c[i]);
                                assert(outcomes[i] == prev_out[i]);
                            } else {
                                assert(answers(present, c@, found));
                            }
                        }
                    }
                    if found {
                        let ghost before = views(r@);
                        r.push(c);
                        assert(views(r@) =~= before.push(new_c.last()));
                    }
                },
                None => {
                    assert(dbscheme_candidates(self.packs@.take(k + 1)) =~= prev_c);
                },
            }
            k = k + 1;
        }
        assert(self.packs@.take(self.packs@.len() as int) =~= self.packs@);
        let ghost cands = dbscheme_candidates(self.packs());
        assert(outcomes.len() == cands.len() && (forall|i: int|
            0 <= i < outcomes.len() ==> answers(present, cands[i], #[trigger] outcomes[i])) && views(r@) == select(cands, outcomes));
        r
    }
}


/// A line without one trailing carriage return.
pub open spec fn strip_cr(p: Seq<char>) -> Seq<char> {
    if p.len() > 0 && p.last() == '\r' {
        p.drop_last()
    } else {
        p
    }
}

/// The lines of a text (`str::lines`): split at `\n`, a `\r` before a `\n`
/// removed, and no empty line after a final `\n`.
pub open spec fn lines_of(s: Seq<char>) -> Seq<Seq<char>> {
    let pieces = split_on(s, '\n');
    let body = pieces.take(pieces.len() - 1).map_values(|p: Seq<char>| strip_cr(p));
    if pieces.last().len() == 0 {
        body
    } else {
        body.push(pieces.last())
    }
}

/// What the reading of a `qlpack.yml` has gathered: the name, the
/// dependencies, whether it is a library, the dbscheme, and whether the
/// dependencies section is open.
pub struct PackText {
    pub name: Option<Seq<char>>,
    pub deps: Seq<Seq<char>>,
    pub library: bool,
    pub dbscheme: Option<Seq<char>>,
    pub in_deps: bool,
}

/// A quoted value: trimmed, then without surrounding double, then single
/// quotes.
pub open spec fn unquote(v: Seq<char>) -> Seq<char> {
    trim_char(trim_char(trim(v), '"'), '\'')
}

/// Reading one line of a `qlpack.yml`.
pub open spec fn pack_step(st: PackText, line: Seq<char>) -> PackText {
    let t = trim(line);
    if has_prefix(t, "dependencies:"@) {
        let rest = trim(t.skip(13));
        PackText { in_deps: !(rest == "null"@ || rest == "~"@), ..st }
    } else {
        let indented = has_prefix(line, seq![' ']) || has_prefix(line, seq!['\t']);
        let dep = trim(split_on(t, ':')[0]);
        let deps = if st.in_deps && indented && dep.len() > 0 && !has_prefix(dep, seq!['#']) {
            st.deps.push(dep)
        } else {
            st.deps
        };
        let in_deps = st.in_deps && indented;
        if has_prefix(t, "name:"@) {
            PackText { name: Some(unquote(t.skip(5))), deps, in_deps, ..st }
        } else if has_prefix(t, "library:"@) {
            PackText { library: trim(t.skip(8)) == "true"@, deps, in_deps, ..st }
        } else if has_prefix(t, "dbscheme:"@) {
            let v = unquote(t.skip(9));
            PackText { dbscheme: if v.len() > 0 { Some(v) } else { st.dbscheme }, deps, in_deps, ..st }
        } else {
            PackText { deps, in_deps, ..st }
        }
    }
}

/// Reading the lines in order, from nothing gathered.
pub open spec fn pack_fold(lines: Seq<Seq<char>>) -> PackText
    decreases lines.len(),
{
    if lines.len() == 0 {
        PackText { name: None, deps: Seq::empty(), library: false, dbscheme: None, in_deps: false }
    } else {
        pack_step(pack_fold(lines.drop_last()), lines.last())
    }
}



proof fn lemma_split_first(s: Seq<char>, c: char)
    ensures
        split_on(s, c).len() >= 1,
        (split_on(s, c).len() == 1) <==> (forall|j: int| 0 <= j < s.len() ==> s[j] != c),
        split_on(s, c)[0].len() <= s.len(),
        split_on(s, c)[0] == s.take(split_on(s, c)[0].len() as int),
        forall|j: int| 0 <= j < split_on(s, c)[0].len() ==> s[j] != c,
        split_on(s, c)[0].len() < s.len() ==> s[split_on(s, c)[0].len() as int] == c,
    decreases s.len(),
{
    if s.len() > 0 {
        let d = s.drop_last();
        lemma_split_first(d, c);
        let r = split_on(d, c);
        let pd = r[0];
        assert forall|j: int| 0 <= j < d.len() implies s[j] == d[j] by {}
        if s.last() == c {
            assert(split_on(s, c) == r.push(Seq::empty()));
            assert(split_on(s, c)[0] == pd);
            assert(s[s.len() - 1] == c);
            if pd.len() == d.len() {
                assert(s[pd.len() as int] == c);
            } else {
                assert(s[pd.len() as int] == d[pd.len() as int]);
            }
            assert(s.take(pd.len() as int) =~= d.take(pd.len() as int));
        } else {
            let t = split_on(s, c);
            assert(t == r.update(r.len() - 1, r.last().push(s.last())));
            if r.len() == 1 {
                if pd.len() < d.len() {
                    assert(d[pd.len() as int] == c);
                }
                assert(pd =~= d);
                assert(t[0] =~= s);
                assert(s.take(s.len() as int) =~= s);
                assert forall|j: int| 0 <= j < s.len() implies s[j] != c by {
                    if j < d.len() {
                        assert(s[j] == d[j]);
                    }
                }
            } else {
                assert(t[0] == pd);
                if pd.len() == d.len() {
                    assert(pd =~= d);
                    let j = choose|j: int| 0 <= j < d.len() && d[j] == c;
                    assert(false);
                }
                assert(s[pd.len() as int] == d[pd.len() as int]);
                assert(s.take(pd.len() as int) =~= d.take(pd.len() as int));
                let j = choose|j: int| 0 <= j < d.len() && d[j] == c;
                assert(s[j] == c);
            }
        }
    }
}

/// The first piece of `s` before a `c` (`split(c).next()`).
fn first_piece(s: &[char], c: char) -> (r: Vec<char>)
    ensures
        r@ == split_on(s@, c)[0],
{
    let mut k: usize = 0;
    while k < s.len() && s[k] != c
        invariant
            k <= s@.len(),
            forall|j: int| 0 <= j < k ==> s@[j] != c,
        decreases s@.len() - k,
    {
        k = k + 1;
    }
    proof {
        lemma_split_first(s@, c);
        let p = split_on(s@, c)[0];
        if p.len() < k {
            assert(s@[p.len() as int] == c);
        } else if p.len() > k {
            assert(s@[k as int] != c);
        }
    }
    sub_chars(s, 0, k)
}

/// Reading state of a `qlpack.yml`.
struct PackReader {
    name: Option<Vec<char>>,
    deps: Vec<String>,
    library: bool,
    dbscheme: Option<Vec<char>>,
    in_deps: bool,
}

impl PackReader {
    spec fn text(&self) -> PackText {
        PackText {
            name: match self.name {
                Some(n) => Some(n@),
                None => None,
            },
            deps: views(self.deps@),
            library: self.library,
            dbscheme: match self.dbscheme {
                Some(d) => Some(d@),
                None => None,
            },
            in_deps: self.in_deps,
        }
    }

    /// Reads one line.
    fn step(&mut self, line: &[char])
        ensures
            final(self).text() == pack_step(old(self).text(), line@),
    {
        let t = trim_chars(line);
        let kw_deps = chars_of("dependencies:");
        let kw_name = chars_of("name:");
        let kw_lib = chars_of("library:");
        let kw_db = chars_of("dbscheme:");
        proof {
            reveal_strlit("dependencies:");
            reveal_strlit("name:");
            reveal_strlit("library:");
            reveal_strlit("dbscheme:");
        }
        if starts_with_chars(t.as_slice(), kw_deps.as_slice()) {
            let rest_raw = sub_chars(t.as_slice(), 13, t.len());
            let rest = trim_chars(rest_raw.as_slice());
            let null = chars_of("null");
            let tilde = chars_of("~");
            proof {
                reveal_strlit("null");
                reveal_strlit("~");
                assert(rest_raw@ =~= t@.skip(13));
            }
            self.in_deps = !(crate::text::chars_eq(rest.as_slice(), null.as_slice()) || crate::text::chars_eq(
                rest.as_slice(),
                tilde.as_slice(),
            ));
            return;
        }
        let sp = chars_of(" ");
        let tab = chars_of("\t");
        let hash = chars_of("#");
        proof {
            reveal_strlit(" ");
            reveal_strlit("\t");
            reveal_strlit("#");
            assert(" "@ == seq![' ']);
            assert("\t"@ == seq!['\t']);
            assert("#"@ == seq!['#']);
        }
        let indented = starts_with_chars(line, sp.as_slice()) || starts_with_chars(line, tab.as_slice());
        let piece = first_piece(t.as_slice(), ':');
        let dep = trim_chars(piece.as_slice());
        let ghost st = old(self).text();
        let ghost tt = trim(line@);
        assert(t@ == tt);
        assert(!has_prefix(tt, "dependencies:"@));
        assert(indented == (has_prefix(line@, seq![' ']) || has_prefix(line@, seq!['\t'])));
        assert(dep@ == trim(split_on(tt, ':')[0]));
        if self.in_deps && indented && dep.len() > 0 && !starts_with_chars(dep.as_slice(), hash.as_slice()) {
            let ghost before = views(self.deps@);
            self.deps.push(string_of(dep.as_slice()));
            assert(views(self.deps@) =~= before.push(dep@));
        }
        self.in_deps = self.in_deps && indented;
        if starts_with_chars(t.as_slice(), kw_name.as_slice()) {
            let v = sub_chars(t.as_slice(), 5, t.len());
            assert(v@ =~= t@.skip(5));
            let v1 = trim_chars(v.as_slice());
            let v2 = trim_char_chars(v1.as_slice(), '"');
            let v3 = trim_char_chars(v2.as_slice(), '\'');
            self.name = Some(v3);
        } else if starts_with_chars(t.as_slice(), kw_lib.as_slice()) {
            let v = sub_chars(t.as_slice(), 8, t.len());
            assert(v@ =~= t@.skip(8));
            let v1 = trim_chars(v.as_slice());
            let tru = chars_of("true");
            proof {
                reveal_strlit("true");
            }
            self.library = crate::text::chars_eq(v1.as_slice(), tru.as_slice());
        } else if starts_with_chars(t.as_slice(), kw_db.as_slice()) {
            let v = sub_chars(t.as_slice(), 9, t.len());
            assert(v@ =~= t@.skip(9));
            let v1 = trim_chars(v.as_slice());
            let v2 = trim_char_chars(v1.as_slice(), '"');
            let v3 = trim_char_chars(v2.as_slice(), '\'');
            if v3.len() > 0 {
                self.dbscheme = Some(v3);
            }
        }
    }
}

/// Reads the text of a `qlpack.yml` found in directory `root`: the pack's
/// name, dependencies, library flag and dbscheme (`pack_fold` over the
/// lines). A file without a name gives no pack.
pub fn parse_qlpack(content: &str, root: String) -> (r: Option<QlPack>)
    ensures
        ({
            let st = pack_fold(lines_of(content@));
            match st.name {
                None => r is None,
                Some(n) => r matches Some(p) && p.name@ == n && p.root@ == root@ && views(p.dependencies@)
                    == st.deps && p.is_library == st.library && match st.dbscheme {
                    None => p.dbscheme is None,
                    Some(d) => p.dbscheme matches Some(x) && x@ == d,
                },
            }
        }),
{
    let pieces = split_str(content, '\n');
    let ghost ps = split_on(content@, '\n');
    proof {
        crate::paths::lemma_split_nonempty(content@, '\n');
    }
    let n = pieces.len();
    let mut rd = PackReader { name: None, deps: Vec::new(), library: false, dbscheme: None, in_deps: false };
    assert(views(rd.deps@) =~= Seq::<Seq<char>>::empty());
    let mut i: usize = 0;
    while i + 1 < n
        invariant
            n == pieces@.len(),
            n >= 1,
            views(pieces@) == ps,
            i + 1 <= n,
            rd.text() == pack_fold(ps.take(i as int).map_values(|p: Seq<char>| strip_cr(p))),
        decreases n - i,
    {
        let raw = chars_of(pieces[i].as_str());
        let line: Vec<char> = if raw.len() > 0 && raw[raw.len() - 1] == '\r' {
            sub_chars(raw.as_slice(), 0, raw.len() - 1)
        } else {
            raw
        };
        proof {
            assert(ps[i as int] == pieces@[i as int]@);
            assert(line@ =~= strip_cr(ps[i as int]));
            let m = ps.take(i + 1).map_values(|p: Seq<char>| strip_cr(p));
            assert(m.drop_last() =~= ps.take(i as int).map_values(|p: Seq<char>| strip_cr(p)));
            assert(m.last() == strip_cr(ps[i as int]));
        }
        rd.step(line.as_slice());
        i = i + 1;
    }
    let last = chars_of(pieces[n - 1].as_str());
    proof {
        assert(ps[n - 1] == pieces@[n - 1]@);
        assert(ps.take(ps.len() - 1) =~= ps.take(i as int));
    }
    if last.len() > 0 {
        rd.step(last.as_slice());
        proof {
            let body = ps.take(ps.len() - 1).map_values(|p: Seq<char>| strip_cr(p));
            assert(body.push(ps.last()).drop_last() =~= body);
        }
    }
    match rd.name {
        None => None,
        Some(nm) => Some(QlPack {
            name: string_of(nm.as_slice()),
            root,
            dependencies: rd.deps,
            is_library: rd.library,
            dbscheme: match rd.dbscheme {
                Some(d) => Some(string_of(d.as_slice())),
                None => None,
            },
        }),
    }
}

} // verus!
