//! Ownership of source texts and the mapping from byte offsets to lines and
//! columns.

use vstd::prelude::*;
use vstd::utf8::{is_char_boundary, valid_utf8, encode_utf8, decode_utf8};
use vstd::string::StringSliceAdditionalSpecFns;
use crate::def::FileId;
use crate::diagnostics::{Span, Diagnostic, DiagnosticNote, dummy_span, severity_word, push_severity_word};
use crate::text::{push_decimal, decimal};

verus! {

/// Byte offsets at which the lines of `b` start: 0, then one past each
/// newline byte.
pub open spec fn line_starts_of(b: Seq<u8>) -> Seq<int>
    decreases b.len(),
{
    if b.len() == 0 {
        seq![0]
    } else {
        let r = line_starts_of(b.drop_last());
        if b.last() == 10u8 {
            r.push(b.len() as int)
        } else {
            r
        }
    }
}

/// Strictly increasing, starting at 0.
pub open spec fn starts_ok(s: Seq<int>) -> bool {
    &&& s.len() > 0
    &&& s[0] == 0
    &&& forall|i: int, j: int| 0 <= i < j < s.len() ==> s[i] < s[j]
}

/// Index of the line holding `off`: the last start, among the first `n`,
/// that is at most `off`.
pub open spec fn last_start_at_most(s: Seq<int>, off: int, n: int) -> int
    decreases n,
{
    if n <= 1 {
        0
    } else if s[n - 1] <= off {
        n - 1
    } else {
        last_start_at_most(s, off, n - 1)
    }
}

proof fn lemma_last_start_range(s: Seq<int>, off: int, n: int)
    requires
        1 <= n,
    ensures
        0 <= last_start_at_most(s, off, n) < n,
    decreases n,
{
    if n > 1 {
        lemma_last_start_range(s, off, n - 1);
    }
}

/// One-based line and column of byte offset `off`.
pub open spec fn line_col(s: Seq<int>, off: int) -> (int, int) {
    let i = last_start_at_most(s, off, s.len() as int);
    (i + 1, off - s[i] + 1)
}

proof fn lemma_line_starts(b: Seq<u8>)
    ensures
        starts_ok(line_starts_of(b)),
        forall|i: int| 0 <= i < line_starts_of(b).len() ==> 0 <= #[trigger] line_starts_of(b)[i] <= b.len(),
    decreases b.len(),
{
    if b.len() > 0 {
        lemma_line_starts(b.drop_last());
    }
}

/// Line starts of a text.
pub fn compute_line_starts(source: &str) -> (r: Vec<usize>)
    ensures
        r@.len() == line_starts_of(source.spec_bytes()).len(),
        forall|i: int| 0 <= i < r@.len() ==> r@[i] as int == #[trigger] line_starts_of(source.spec_bytes())[i],
{
    let bytes = source.as_bytes();
    let mut starts: Vec<usize> = Vec::new();
    starts.push(0);
    let mut i: usize = 0;
    while i < bytes.len()
        invariant
            i <= bytes@.len(),
            bytes@ == source.spec_bytes(),
            starts@.len() == line_starts_of(bytes@.take(i as int)).len(),
            forall|k: int| 0 <= k < starts@.len() ==> starts@[k] as int == #[trigger] line_starts_of(bytes@.take(i as int))[k],
        decreases bytes@.len() - i,
    {
        proof {
            assert(bytes@.take(i + 1).drop_last() =~= bytes@.take(i as int));
        }
        if bytes[i] == 10u8 {
            starts.push(i + 1);
        }
        i = i + 1;
    }
    assert(bytes@.take(bytes@.len() as int) =~= bytes@);
    starts
}

proof fn lemma_last_start(s: Seq<int>, off: int, n: int, lo: int)
    requires
        starts_ok(s),
        0 <= lo < n <= s.len(),
        s[lo] <= off,
        lo + 1 == n || off < s[lo + 1],
    ensures
        last_start_at_most(s, off, n) == lo,
    decreases n,
{
    if n > lo + 1 {
        assert(s[lo + 1] <= s[n - 1]) by {
            if lo + 1 < n - 1 {
                assert(s[lo + 1] < s[n - 1]);
            }
        }
        lemma_last_start(s, off, n - 1, lo);
    }
}

/// One-based line and column of byte offset `offset`, given the line starts.
pub fn offset_to_line_col(line_starts: &[usize], offset: usize) -> (r: (usize, usize))
    requires
        starts_ok(line_starts@.map_values(|x: usize| x as int)),
        offset < usize::MAX,
    ensures
        r.0 as int == line_col(line_starts@.map_values(|x: usize| x as int), offset as int).0,
        r.1 as int == line_col(line_starts@.map_values(|x: usize| x as int), offset as int).1,
{
    let ghost s = line_starts@.map_values(|x: usize| x as int);
    let mut lo: usize = 0;
    let mut hi: usize = line_starts.len();
    // the last start at most `offset` lies in [lo, hi)
    while hi - lo > 1
        invariant
            s == line_starts@.map_values(|x: usize| x as int),
            starts_ok(s),
            0 <= lo < hi <= line_starts@.len(),
            line_starts@[lo as int] <= offset,
            hi == line_starts@.len() || offset < line_starts@[hi as int],
        decreases hi - lo,
    {
        let mid = lo + (hi - lo) / 2;
        if line_starts[mid] <= offset {
            lo = mid;
        } else {
            hi = mid;
        }
    }
    proof {
        assert(s[lo as int] == line_starts@[lo as int] as int);
        if lo + 1 < line_starts@.len() {
            assert(s[lo + 1] == line_starts@[lo + 1] as int);
        }
        lemma_last_start(s, offset as int, s.len() as int, lo as int);
    }
    let col = offset - line_starts[lo] + 1;
    (lo + 1, col)
}


/// The position after an ASCII byte of a valid UTF-8 text is a character
/// boundary.
proof fn lemma_after_ascii_boundary(bytes: Seq<u8>, i: int)
    requires
        valid_utf8(bytes),
        0 < i <= bytes.len(),
        bytes[i - 1] < 0x80,
    ensures
        is_char_boundary(bytes, i),
    decreases bytes.len(),
{
    let k = vstd::utf8::length_of_first_scalar(bytes);
    let tail = vstd::utf8::pop_first_scalar(bytes);
    assert(1 <= k <= 4 && k <= bytes.len());
    assert(tail.len() == bytes.len() - k);
    reveal_with_fuel(is_char_boundary, 2);
    if i - 1 >= k {
        assert(tail[i - k - 1] == bytes[i - 1]);
        lemma_after_ascii_boundary(tail, i - k);
    } else {
        assert(i == k);
    }
}

/// The position of an ASCII byte of a valid UTF-8 text is a character
/// boundary.
proof fn lemma_ascii_boundary(bytes: Seq<u8>, i: int)
    requires
        valid_utf8(bytes),
        0 <= i < bytes.len(),
        bytes[i] < 0x80,
    ensures
        is_char_boundary(bytes, i),
{
    vstd::utf8::is_char_boundary_iff_not_is_continuation_byte(bytes, i);
}


/// Whether a registry holds a file with path `p`.
pub open spec fn has_path(files: Seq<(Seq<char>, Seq<char>)>, p: Seq<char>) -> bool {
    exists|i: int| 0 <= i < files.len() && #[trigger] files[i].0 == p
}

/// No two registered files share a path.
pub open spec fn paths_distinct(files: Seq<(Seq<char>, Seq<char>)>) -> bool {
    forall|i: int, j: int| 0 <= i < files.len() && 0 <= j < files.len() && #[trigger] files[i].0 == #[trigger] files[j].0 ==> i == j
}

/// The registry after registering `source` under `path`: unchanged when the
/// path is known, else with the file appended.
pub open spec fn register(
    files: Seq<(Seq<char>, Seq<char>)>,
    path: Seq<char>,
    source: Seq<char>,
) -> Seq<(Seq<char>, Seq<char>)> {
    if has_path(files, path) {
        files
    } else {
        files.push((path, source))
    }
}

/// The registry after registering each `(path, source)` of `calls` in turn,
/// starting empty.
pub open spec fn registered(calls: Seq<(Seq<char>, Seq<char>)>) -> Seq<(Seq<char>, Seq<char>)>
    decreases calls.len(),
{
    if calls.len() == 0 {
        Seq::empty()
    } else {
        register(registered(calls.drop_last()), calls.last().0, calls.last().1)
    }
}

/// The paths of a list of registrations.
pub open spec fn paths_of(calls: Seq<(Seq<char>, Seq<char>)>) -> Seq<Seq<char>> {
    calls.map_values(|c: (Seq<char>, Seq<char>)| c.0)
}

/// Registering keeps paths distinct, and the registered paths are those
/// registered, as a set.
pub proof fn lemma_registered_paths(calls: Seq<(Seq<char>, Seq<char>)>)
    ensures
        paths_distinct(registered(calls)),
        paths_of(registered(calls)).to_set() == paths_of(calls).to_set(),
    decreases calls.len(),
{
    if calls.len() > 0 {
        let d = calls.drop_last();
        lemma_registered_paths(d);
        let r0 = registered(d);
        let (p, t) = calls.last();
        assert(paths_of(calls) =~= paths_of(d).push(p));
        paths_of(d).lemma_push_to_set_commute(p);
        paths_of(r0).lemma_push_to_set_commute(p);
        if has_path(r0, p) {
            let i = choose|i: int| 0 <= i < r0.len() && #[trigger] r0[i].0 == p;
            assert(paths_of(r0)[i] == p);
            assert(paths_of(r0).to_set().contains(p));
            assert(paths_of(calls).to_set() =~= paths_of(d).to_set().insert(p));
        } else {
            assert(paths_of(r0.push((p, t))) =~= paths_of(r0).push(p));
            assert(paths_of(calls).to_set() =~= paths_of(d).to_set().insert(p));
            assert(paths_of(r0.push((p, t))).to_set() =~= paths_of(r0).to_set().insert(p));
            let r = r0.push((p, t));
            assert forall|i: int, j: int| 0 <= i < r.len() && 0 <= j < r.len() && #[trigger] r[i].0 == #[trigger] r[j].0 implies i == j by {
                if i < r0.len() && j == r0.len() {
                    assert(r0[i].0 == p);
                } else if j < r0.len() && i == r0.len() {
                    assert(r0[j].0 == p);
                } else if i < r0.len() && j < r0.len() {
                    assert(r0[i].0 == r0[j].0);
                }
            }
        }
    }
}

/// However often a path is registered, one file stands for each distinct
/// path: the number of files is the number of distinct paths registered.
pub proof fn lemma_registered_count(calls: Seq<(Seq<char>, Seq<char>)>)
    ensures
        registered(calls).len() == paths_of(calls).to_set().len(),
{
    lemma_registered_paths(calls);
    let r = registered(calls);
    assert(paths_of(r).no_duplicates()) by {
        assert forall|i: int, j: int| 0 <= i < j < paths_of(r).len() implies paths_of(r)[i] != paths_of(r)[j] by {
            assert(paths_of(r)[i] == r[i].0 && paths_of(r)[j] == r[j].0);
        }
    }
    paths_of(r).unique_seq_to_set();
}

/// The first registration of a path is the one that counts: its text stays
/// the file's text whatever is registered later.
pub proof fn lemma_registered_first_text(calls: Seq<(Seq<char>, Seq<char>)>, k: int)
    requires
        0 <= k < calls.len(),
        forall|j: int| 0 <= j < k ==> calls[j].0 != calls[k].0,
    ensures
        exists|i: int| 0 <= i < registered(calls).len() && #[trigger] registered(calls)[i] == calls[k],
    decreases calls.len(),
{
    let d = calls.drop_last();
    let r0 = registered(d);
    if k < calls.len() - 1 {
        lemma_registered_first_text(d, k);
        let i = choose|i: int| 0 <= i < r0.len() && #[trigger] r0[i] == d[k];
        assert(registered(calls)[i] == calls[k]);
    } else {
        lemma_registered_paths(d);
        if has_path(r0, calls[k].0) {
            let i = choose|i: int| 0 <= i < r0.len() && #[trigger] r0[i].0 == calls[k].0;
            assert(paths_of(r0)[i] == calls[k].0);
            assert(paths_of(r0).to_set().contains(calls[k].0));
            assert(paths_of(d).to_set().contains(calls[k].0));
            let j = choose|j: int| 0 <= j < paths_of(d).len() && paths_of(d)[j] == calls[k].0;
            assert(calls[j].0 == calls[k].0);
        }
        assert(registered(calls)[r0.len() as int] == calls[k]);
    }
}

/// The registry `files` after registering each `(path, source)` of `calls`
/// in turn.
pub open spec fn registered_from(
    files: Seq<(Seq<char>, Seq<char>)>,
    calls: Seq<(Seq<char>, Seq<char>)>,
) -> Seq<(Seq<char>, Seq<char>)>
    decreases calls.len(),
{
    if calls.len() == 0 {
        files
    } else {
        register(registered_from(files, calls.drop_last()), calls.last().0, calls.last().1)
    }
}

/// Registering keeps the paths of a registry distinct.
pub proof fn lemma_register_distinct(files: Seq<(Seq<char>, Seq<char>)>, path: Seq<char>, source: Seq<char>)
    requires
        paths_distinct(files),
    ensures
        paths_distinct(register(files, path, source)),
{
    if !has_path(files, path) {
        let r = files.push((path, source));
        assert forall|i: int, j: int| 0 <= i < r.len() && 0 <= j < r.len() && #[trigger] r[i].0 == #[trigger] r[j].0 implies i
            == j by {
            if i < files.len() && j == files.len() {
                assert(files[i].0 == path);
            } else if j < files.len() && i == files.len() {
                assert(files[j].0 == path);
            } else if i < files.len() && j < files.len() {
                assert(files[i].0 == files[j].0);
            }
        }
    }
}

/// The first registration of a path keeps its id and its text: once
/// `source` is registered under a new `path` in a registry with distinct
/// paths, then whatever is registered after it, the file at the id the
/// path got (the registry's former length) is still `(path, source)`, and
/// no other file has that path, so a later lookup or registration of the
/// path gives that id again.
pub proof fn lemma_first_registration_kept(
    files: Seq<(Seq<char>, Seq<char>)>,
    path: Seq<char>,
    source: Seq<char>,
    later: Seq<(Seq<char>, Seq<char>)>,
)
    requires
        paths_distinct(files),
        !has_path(files, path),
    ensures
        files.len() < registered_from(register(files, path, source), later).len(),
        registered_from(register(files, path, source), later)[files.len() as int] == (path, source),
        paths_distinct(registered_from(register(files, path, source), later)),
        forall|j: int|
            0 <= j < registered_from(register(files, path, source), later).len() && #[trigger] registered_from(
                register(files, path, source),
                later,
            )[j].0 == path ==> j == files.len(),
    decreases later.len(),
{
    let r1 = register(files, path, source);
    lemma_register_distinct(files, path, source);
    if later.len() == 0 {
        assert(r1[files.len() as int] == (path, source));
    } else {
        let d = later.drop_last();
        lemma_first_registration_kept(files, path, source, d);
        let r0 = registered_from(r1, d);
        let (q, t) = later.last();
        lemma_register_distinct(r0, q, t);
        let r = registered_from(r1, later);
        assert(r == register(r0, q, t));
        if !has_path(r0, q) {
            assert(r0[files.len() as int].0 == path);
            assert(q != path);
            assert(r[files.len() as int] == r0[files.len() as int]);
        }
    }
}

/// A human-readable source location.
#[derive(Clone, Debug, PartialEq, Eq)]
pub struct SourceLocation {
    pub file: FileId,
    pub path: String,
    /// One-based line.
    pub line: usize,
    /// One-based column, counted in bytes.
    pub column: usize,
}

impl SourceLocation {
    /// `path:line:column`.
    pub fn to_text(&self) -> (r: String)
        ensures
            r@ == self.path@ + seq![':'] + decimal(self.line as nat) + seq![':'] + decimal(self.column as nat),
    {
        let mut r = String::new();
        r.append(self.path.as_str());
        r.append(":");
        push_decimal(&mut r, self.line as u64);
        r.append(":");
        push_decimal(&mut r, self.column as u64);
        proof {
            reveal_strlit(":");
        }
        r
    }
}

struct FileEntry {
    path: String,
    source: String,
    /// Byte offsets of the start of each line.
    line_starts: Vec<usize>,
}

/// Owns all source texts, by path, and maps offsets to lines and columns.
pub struct SourceManager {
    files: Vec<FileEntry>,
}

impl View for SourceManager {
    /// Path and text of each registered file, in order of registration.
    type V = Seq<(Seq<char>, Seq<char>)>;

    closed spec fn view(&self) -> Seq<(Seq<char>, Seq<char>)> {
        self.files@.map_values(|f: FileEntry| (f.path@, f.source@))
    }
}

/// The bytes of a text.
pub open spec fn bytes_of(text: Seq<char>) -> Seq<u8> {
    encode_utf8(text)
}

impl SourceManager {
    /// Paths are distinct, the line starts are those of each text, and every
    /// index fits in a file id.
    pub closed spec fn wf(&self) -> bool {
        &&& self.files@.len() <= u32::MAX
        &&& forall|i: int, j: int|
            0 <= i < j < self.files@.len() ==> self.files@[i].path@ != self.files@[j].path@
        &&& forall|i: int|
            0 <= i < self.files@.len() ==> {
                let f = #[trigger] self.files@[i];
                &&& f.line_starts@.len() == line_starts_of(bytes_of(f.source@)).len()
                &&& forall|k: int|
                    0 <= k < f.line_starts@.len() ==> f.line_starts@[k] as int == #[trigger] line_starts_of(
                        bytes_of(f.source@),
                    )[k]
            }
    }

    /// Paths of a well-formed registry are distinct.
    pub proof fn lemma_paths_distinct(&self)
        requires
            self.wf(),
        ensures
            paths_distinct(self@),
    {
        assert forall|i: int, j: int| 0 <= i < self@.len() && 0 <= j < self@.len() && #[trigger] self@[i].0 == #[trigger] self@[j].0 implies i == j by {
            assert(self@[i].0 == self.files@[i].path@);
            assert(self@[j].0 == self.files@[j].path@);
        }
    }

    /// An empty registry.
    pub fn new() -> (r: SourceManager)
        ensures
            r.wf(),
            r@ == Seq::<(Seq<char>, Seq<char>)>::empty(),
    {
        let r = SourceManager { files: Vec::new() };
        assert(r@ =~= Seq::<(Seq<char>, Seq<char>)>::empty());
        r
    }

    /// Registers a source file and returns its id; a path registered before
    /// keeps its id and text.
    pub fn add_file(&mut self, path: String, source: String) -> (id: FileId)
        requires
            old(self).wf(),
            old(self)@.len() < u32::MAX,
        ensures
            final(self).wf(),
            final(self)@ == register(old(self)@, path@, source@),
            paths_distinct(final(self)@),
            id.0 < final(self)@.len(),
            final(self)@[id.0 as int].0 == path@,
            has_path(old(self)@, path@) ==> final(self)@ == old(self)@ && id.0 < old(self)@.len() && old(
                self,
            )@[id.0 as int].0 == path@,
            !has_path(old(self)@, path@) ==> final(self)@ == old(self)@.push((path@, source@)) && id.0
                == old(self)@.len(),
    {
        proof { self.lemma_paths_distinct(); }
        match self.get_file_id(path.as_str()) {
            Some(id) => id,
            None => {
                let id = FileId(self.files.len() as u32);
                let line_starts = compute_line_starts(source.as_str());
                let ghost before = self.files@;
                self.files.push(FileEntry { path, source, line_starts });
                proof {
                    assert(self@ =~= old(self)@.push((path@, source@)));
                    assert forall|i: int, j: int| 0 <= i < j < self.files@.len() implies self.files@[i].path@
                        != self.files@[j].path@ by {
                        if j == before.len() {
                            assert(old(self)@[i].0 == before[i].path@);
                        }
                    }
                }
                proof { self.lemma_paths_distinct(); }
                id
            },
        }
    }

    /// The id of the file registered under `path`.
    pub fn get_file_id(&self, path: &str) -> (r: Option<FileId>)
        requires
            self.wf(),
        ensures
            match r {
                Some(id) => id.0 < self@.len() && self@[id.0 as int].0 == path@ && forall|j: int|
                    0 <= j < self@.len() && #[trigger] self@[j].0 == path@ ==> j == id.0,
                None => !has_path(self@, path@),
            },
    {
        proof { self.lemma_paths_distinct(); }
        let mut i: usize = 0;
        while i < self.files.len()
            invariant
                self.wf(),
                i <= self.files@.len(),
                forall|j: int| 0 <= j < i ==> self.files@[j].path@ != path@,
            decreases self.files@.len() - i,
        {
            if crate::text::str_eq(self.files[i].path.as_str(), path) {
                assert(self@[i as int].0 == self.files@[i as int].path@);
                return Some(FileId(i as u32));
            }
            i = i + 1;
        }
        proof {
            if has_path(self@, path@) {
                let j = choose|j: int| 0 <= j < self@.len() && #[trigger] self@[j].0 == path@;
                assert(self@[j].0 == self.files@[j].path@);
            }
        }
        None
    }

    /// The text of a file.
    pub fn source(&self, id: FileId) -> (r: &str)
        requires
            id.0 < self@.len(),
        ensures
            r@ == self@[id.0 as int].1,
    {
        self.files[id.0 as usize].source.as_str()
    }

    /// The path of a file.
    pub fn path(&self, id: FileId) -> (r: &str)
        requires
            id.0 < self@.len(),
        ensures
            r@ == self@[id.0 as int].0,
    {
        self.files[id.0 as usize].path.as_str()
    }

    /// Number of registered files.
    pub fn file_count(&self) -> (r: usize)
        ensures
            r == self@.len(),
    {
        self.files.len()
    }

    /// All file ids, in order.
    pub fn file_ids(&self) -> (r: Vec<FileId>)
        requires
            self.wf(),
        ensures
            r@.len() == self@.len(),
            forall|i: int| 0 <= i < r@.len() ==> #[trigger] r@[i] == FileId(i as u32),
    {
        let mut r: Vec<FileId> = Vec::new();
        let mut i: usize = 0;
        while i < self.files.len()
            invariant
                self.wf(),
                i <= self.files@.len(),
                r@.len() == i,
                forall|j: int| 0 <= j < i ==> #[trigger] r@[j] == FileId(j as u32),
            decreases self.files@.len() - i,
        {
            r.push(FileId(i as u32));
            i = i + 1;
        }
        r
    }

    proof fn lemma_starts(&self, i: int)
        requires
            self.wf(),
            0 <= i < self.files@.len(),
        ensures
            self.files@[i].line_starts@.map_values(|x: usize| x as int) == line_starts_of(
                bytes_of(self.files@[i].source@),
            ),
            starts_ok(line_starts_of(bytes_of(self.files@[i].source@))),
            forall|k: int|
                0 <= k < line_starts_of(bytes_of(self.files@[i].source@)).len() ==> 0 <= #[trigger] line_starts_of(
                    bytes_of(self.files@[i].source@),
                )[k] <= bytes_of(self.files@[i].source@).len(),
    {
        let f = self.files@[i];
        assert(f.line_starts@.map_values(|x: usize| x as int) =~= line_starts_of(bytes_of(f.source@)));
        lemma_line_starts(bytes_of(f.source@));
    }

    /// The location of the start of a span.
    pub fn location(&self, file: FileId, span: Span) -> (loc: SourceLocation)
        requires
            self.wf(),
            file.0 < self@.len(),
            span.start < usize::MAX,
        ensures
            loc.file == file,
            loc.path@ == self@[file.0 as int].0,
            loc.line as int == line_col(line_starts_of(bytes_of(self@[file.0 as int].1)), span.start as int).0,
            loc.column as int == line_col(line_starts_of(bytes_of(self@[file.0 as int].1)), span.start as int).1,
    {
        let entry = &self.files[file.0 as usize];
        proof {
            self.lemma_starts(file.0 as int);
        }
        let (line, column) = offset_to_line_col(entry.line_starts.as_slice(), span.start);
        SourceLocation { file, path: entry.path.clone(), line, column }
    }

    /// The text of a span, its ends cut to the length of the text.
    pub fn span_text(&self, file: FileId, span: Span) -> (r: &str)
        requires
            self.wf(),
            file.0 < self@.len(),
            ({
                let b = bytes_of(self@[file.0 as int].1);
                let a = if span.start < b.len() { span.start as int } else { b.len() as int };
                let e = if span.end < b.len() { span.end as int } else { b.len() as int };
                a <= e && is_char_boundary(b, a) && is_char_boundary(b, e)
            }),
        ensures
            ({
                let b = bytes_of(self@[file.0 as int].1);
                let a = if span.start < b.len() { span.start as int } else { b.len() as int };
                let e = if span.end < b.len() { span.end as int } else { b.len() as int };
                r.spec_bytes() == b.subrange(a, e)
            }),
    {
        let source = self.files[file.0 as usize].source.as_str();
        let ghost b = source.spec_bytes();
        assert(b == bytes_of(self@[file.0 as int].1));
        let len = source.as_bytes().len();
        let start = if span.start < len { span.start } else { len };
        let end = if span.end < len { span.end } else { len };
        assert(start as int == (if span.start < b.len() { span.start as int } else { b.len() as int }));
        assert(end as int == (if span.end < b.len() { span.end as int } else { b.len() as int }));
        slice_bytes(source, start, end)
    }

    /// The line holding the start of a span, without its line break.
    pub fn line_text(&self, file: FileId, span: Span) -> (r: &str)
        requires
            self.wf(),
            file.0 < self@.len(),
            span.start < usize::MAX,
        ensures
            ({
                let b = bytes_of(self@[file.0 as int].1);
                let s = line_starts_of(b);
                let line = line_col(s, span.start as int).0;
                let lo = s[line - 1];
                let hi = if line < s.len() { s[line] } else { b.len() as int };
                r.spec_bytes() == trim_line_end(b.subrange(lo, hi))
            }),
    {
        let entry = &self.files[file.0 as usize];
        proof {
            self.lemma_starts(file.0 as int);
        }
        let (line, _) = offset_to_line_col(entry.line_starts.as_slice(), span.start);
        proof {
            lemma_last_start_range(line_starts_of(bytes_of(self@[file.0 as int].1)), span.start as int, line_starts_of(bytes_of(self@[file.0 as int].1)).len() as int);
        }
        let source = entry.source.as_str();
        let bytes = source.as_bytes();
        let ghost b = bytes@;
        let ghost s = line_starts_of(b);
        assert(b == bytes_of(self@[file.0 as int].1));
        let line_start = entry.line_starts[line - 1];
        let line_end = if line < entry.line_starts.len() {
            entry.line_starts[line]
        } else {
            bytes.len()
        };
        assert(entry.line_starts@.map_values(|x: usize| x as int)[line - 1] == line_start as int);
        assert(s[line - 1] == line_start as int);
        assert(line_start <= line_end) by {
            if line < entry.line_starts@.len() {
                assert(entry.line_starts@.map_values(|x: usize| x as int)[line as int] == line_end as int);
                assert(s[line as int] == line_end as int);
            }
        }
        let mut e = line_end;
        while e > line_start && bytes[e - 1] == 10u8
            invariant
                line_start <= e <= line_end <= b.len(),
                bytes@ == b,
                forall|k: int| e <= k < line_end ==> b[k] == 10u8 || b[k] == 13u8,
                trim_line_end(b.subrange(line_start as int, line_end as int)) == trim_cr(
                    strip_trailing(b.subrange(line_start as int, e as int), 10u8),
                ),
            decreases e,
        {
            assert(b.subrange(line_start as int, e - 1) =~= b.subrange(line_start as int, e as int).drop_last());
            e = e - 1;
        }
        assert(strip_trailing(b.subrange(line_start as int, e as int), 10u8) =~= b.subrange(line_start as int, e as int));
        while e > line_start && bytes[e - 1] == 13u8
            invariant
                line_start <= e <= line_end <= b.len(),
                bytes@ == b,
                forall|k: int| e <= k < line_end ==> b[k] == 10u8 || b[k] == 13u8,
                trim_line_end(b.subrange(line_start as int, line_end as int)) == strip_trailing(
                    b.subrange(line_start as int, e as int),
                    13u8,
                ),
            decreases e,
        {
            assert(b.subrange(line_start as int, e - 1) =~= b.subrange(line_start as int, e as int).drop_last());
            e = e - 1;
        }
        assert(strip_trailing(b.subrange(line_start as int, e as int), 13u8) =~= b.subrange(line_start as int, e as int));
        proof {
            vstd::utf8::encode_utf8_valid_utf8(source@);
            vstd::utf8::is_char_boundary_start_end_of_seq(b);
            if line_start > 0 {
                lemma_starts_after_newline(b, (line - 1) as int);
                lemma_after_ascii_boundary(b, line_start as int);
            }
            if e < b.len() {
                if e == line_end && line < entry.line_starts@.len() {
                    assert(entry.line_starts@.map_values(|x: usize| x as int)[line as int] == line_end as int);
                    assert(s[line as int] == line_end as int);
                    lemma_starts_after_newline(b, line as int);
                    lemma_after_ascii_boundary(b, e as int);
                } else {
                    assert(b[e as int] == 10u8 || b[e as int] == 13u8);
                    lemma_ascii_boundary(b, e as int);
                }
            }
        }
        slice_bytes(source, line_start, e)
    }
}

/// `s` without its trailing bytes `x`.
pub open spec fn strip_trailing(s: Seq<u8>, x: u8) -> Seq<u8>
    decreases s.len(),
{
    if s.len() > 0 && s.last() == x {
        strip_trailing(s.drop_last(), x)
    } else {
        s
    }
}

/// A line without its trailing newlines, then its trailing carriage returns.
pub open spec fn trim_cr(s: Seq<u8>) -> Seq<u8> {
    strip_trailing(s, 13u8)
}

/// A line without its trailing newlines, then its trailing carriage returns.
pub open spec fn trim_line_end(s: Seq<u8>) -> Seq<u8> {
    trim_cr(strip_trailing(s, 10u8))
}

/// Every line start but the first follows a newline byte.
proof fn lemma_starts_after_newline(b: Seq<u8>, k: int)
    requires
        0 < k < line_starts_of(b).len(),
    ensures
        0 < line_starts_of(b)[k] <= b.len(),
        b[line_starts_of(b)[k] - 1] == 10u8,
    decreases b.len(),
{
    lemma_line_starts(b);
    if b.len() > 0 {
        let d = b.drop_last();
        if k < line_starts_of(d).len() {
            lemma_starts_after_newline(d, k);
        }
    }
}

/// The bytes `start..end` of a text, both ends being character boundaries.
fn slice_bytes(text: &str, start: usize, end: usize) -> (r: &str)
    requires
        start <= end <= text.spec_bytes().len(),
        is_char_boundary(text.spec_bytes(), start as int),
        is_char_boundary(text.spec_bytes(), end as int),
    ensures
        r.spec_bytes() == text.spec_bytes().subrange(start as int, end as int),
{
    let ghost b = text.spec_bytes();
    proof {
        vstd::utf8::encode_utf8_valid_utf8(text@);
    }
    let (left, _) = text.split_at(end);
    let ghost lb = left.spec_bytes();
    proof {
        vstd::utf8::valid_utf8_split(b, end as int);
        if start < end {
            vstd::utf8::is_char_boundary_iff_not_is_continuation_byte(b, start as int);
            vstd::utf8::is_char_boundary_iff_not_is_continuation_byte(lb, start as int);
            assert(lb[start as int] == b[start as int]);
        } else {
            vstd::utf8::is_char_boundary_start_end_of_seq(lb);
        }
    }
    let (_, mid) = left.split_at(start);
    assert(mid.spec_bytes() =~= b.subrange(start as int, end as int));
    mid
}

/// The text of the line holding byte `off` of `text`, without its line
/// break.
pub open spec fn line_chars(text: Seq<char>, off: int) -> Seq<char> {
    let b = bytes_of(text);
    let s = line_starts_of(b);
    let line = line_col(s, off).0;
    let lo = s[line - 1];
    let hi = if line < s.len() {
        s[line]
    } else {
        b.len() as int
    };
    decode_utf8(trim_line_end(b.subrange(lo, hi)))
}

/// `n` times the character `c`.
pub open spec fn repeat_char(c: char, n: nat) -> Seq<char> {
    Seq::new(n, |i: int| c)
}

/// `path:line:column` of byte `off` of a file.
pub open spec fn location_text(file: (Seq<char>, Seq<char>), off: int) -> Seq<char> {
    let lc = line_col(line_starts_of(bytes_of(file.1)), off);
    file.0 + seq![':'] + decimal(lc.0 as nat) + seq![':'] + decimal(lc.1 as nat)
}

/// The location line, the source line and its underline of a span.
pub open spec fn context_text(file: (Seq<char>, Seq<char>), span: Span) -> Seq<char> {
    let lc = line_col(line_starts_of(bytes_of(file.1)), span.start as int);
    let num = decimal(lc.0 as nat);
    let pad = repeat_char(' ', num.len());
    let lt = line_chars(file.1, span.start as int);
    let offset: int = if lc.1 > 0 {
        lc.1 - 1
    } else {
        0
    };
    let width: int = if span.end - span.start > 1 {
        span.end - span.start
    } else {
        1
    };
    let room: int = if bytes_of(lt).len() > offset {
        bytes_of(lt).len() - offset
    } else {
        0
    };
    let marks: int = if width < room {
        width
    } else {
        room
    };
    " --> "@ + location_text(file, span.start as int) + seq!['\n'] + pad + " |\n"@ + num + " | "@ + lt + seq!['\n']
        + pad + " | "@ + repeat_char(' ', offset as nat) + repeat_char('^', marks as nat) + seq!['\n']
}

/// The line of a note.
pub open spec fn note_text(files: Seq<(Seq<char>, Seq<char>)>, n: DiagnosticNote) -> Seq<char> {
    " = note: "@ + n.message@ + if n.span != dummy_span() {
        " ("@ + location_text(files[n.file.0 as int], n.span.start as int) + seq![')']
    } else {
        Seq::empty()
    } + seq!['\n']
}

/// The lines of the first `k` notes.
pub open spec fn notes_text(files: Seq<(Seq<char>, Seq<char>)>, ns: Seq<DiagnosticNote>, k: nat) -> Seq<char>
    decreases k,
{
    if k == 0 || k > ns.len() {
        Seq::empty()
    } else {
        notes_text(files, ns, (k - 1) as nat) + note_text(files, ns[k - 1])
    }
}

/// A diagnostic with its source context: `severity: message`, then, for a
/// real span, its location and the source line with the span underlined,
/// then one line per note.
pub open spec fn diagnostic_text(files: Seq<(Seq<char>, Seq<char>)>, d: Diagnostic) -> Seq<char> {
    severity_word(d.severity) + ": "@ + d.message@ + seq!['\n'] + if d.span != dummy_span() {
        context_text(files[d.file.0 as int], d.span)
    } else {
        Seq::empty()
    } + notes_text(files, d.notes@, d.notes@.len())
}

fn push_repeated(out: &mut String, c: char, n: usize)
    ensures
        final(out)@ == old(out)@ + repeat_char(c, n as nat),
{
    let mut i: usize = 0;
    while i < n
        invariant
            i <= n,
            out@ == old(out)@ + repeat_char(c, i as nat),
        decreases n - i,
    {
        crate::text::push_char(out, c);
        assert(out@ =~= old(out)@ + repeat_char(c, (i + 1) as nat));
        i = i + 1;
    }
}

impl SourceManager {
    fn push_location(&self, out: &mut String, file: FileId, span: Span)
        requires
            self.wf(),
            file.0 < self@.len(),
            span.start < usize::MAX,
        ensures
            final(out)@ == old(out)@ + location_text(self@[file.0 as int], span.start as int),
    {
        let loc = self.location(file, span);
        let t = loc.to_text();
        out.append(t.as_str());
    }

    #[verifier::spinoff_prover]
    #[verifier::rlimit(80)]
    fn push_context(&self, out: &mut String, file: FileId, span: Span)
        requires
            self.wf(),
            file.0 < self@.len(),
            span.start <= span.end,
            span.start < usize::MAX,
        ensures
            final(out)@ == old(out)@ + context_text(self@[file.0 as int], span),
    {
        proof {
            reveal_strlit("\n");
            assert("\n"@ == seq!['\n']);
        }
        let ghost head = out@;
        let loc = self.location(file, span);
        out.append(" --> ");
        let lt_text = loc.to_text();
        out.append(lt_text.as_str());
        out.append("\n");
        let mut num = String::new();
        push_decimal(&mut num, loc.line as u64);
        let digits = crate::text::chars_of(num.as_str());
        let w = digits.len();
        push_repeated(out, ' ', w);
        out.append(" |\n");
        out.append(num.as_str());
        out.append(" | ");
        let lt = self.line_text(file, span);
        proof {
            vstd::utf8::encode_utf8_decode_utf8(lt@);
        }
        out.append(lt);
        out.append("\n");
        push_repeated(out, ' ', w);
        out.append(" | ");
        let offset = if loc.column > 0 {
            loc.column - 1
        } else {
            0
        };
        push_repeated(out, ' ', offset);
        let width = if span.end - span.start > 1 {
            span.end - span.start
        } else {
            1
        };
        let line_len = lt.as_bytes().len();
        let room = if line_len > offset {
            line_len - offset
        } else {
            0
        };
        let marks = if width < room {
            width
        } else {
            room
        };
        push_repeated(out, '^', marks);
        out.append("\n");
        proof {
            let f = self@[file.0 as int];
            let lc = line_col(line_starts_of(bytes_of(f.1)), span.start as int);
            assert(lt_text@ == location_text(f, span.start as int));
            assert(num@ == decimal(lc.0 as nat));
            assert(w == decimal(lc.0 as nat).len());
            assert(lt@ == line_chars(f.1, span.start as int));
            assert(offset as int == (if lc.1 > 0 { lc.1 - 1 } else { 0 }));
            assert(line_len == bytes_of(lt@).len());
            assert(out@ =~= head + context_text(f, span));
        }
    }

    /// A diagnostic with its source context (`diagnostic_text`), such as
    /// `error: undefined variable` followed by ` --> file.ql:5:12`, the
    /// source line and a line of `^` under the span.
    pub fn format_diagnostic(&self, diag: &Diagnostic) -> (r: String)
        requires
            self.wf(),
            diag.span != dummy_span() ==> diag.file.0 < self@.len() && diag.span.start <= diag.span.end
                && diag.span.start < usize::MAX,
            forall|i: int|
                0 <= i < diag.notes@.len() && (#[trigger] diag.notes@[i]).span != dummy_span() ==> diag.notes@[i].file.0
                    < self@.len() && diag.notes@[i].span.start < usize::MAX,
        ensures
            r@ == diagnostic_text(self@, *diag),
    {
        proof {
            reveal_strlit("\n");
            assert("\n"@ == seq!['\n']);
        }
        let mut out = String::new();
        push_severity_word(&mut out, diag.severity);
        out.append(": ");
        out.append(diag.message.as_str());
        out.append("\n");
        let ghost head = out@;
        if diag.span != Span::dummy() {
            self.push_context(&mut out, diag.file, diag.span);
        }
        let ghost mid = out@;
        let mut i: usize = 0;
        while i < diag.notes.len()
            invariant
                self.wf(),
                i <= diag.notes@.len(),
                forall|q: int|
                    0 <= q < diag.notes@.len() && (#[trigger] diag.notes@[q]).span != dummy_span() ==> diag.notes@[q].file.0
                        < self@.len() && diag.notes@[q].span.start < usize::MAX,
                out@ == mid + notes_text(self@, diag.notes@, i as nat),
            decreases diag.notes@.len() - i,
        {
            let note = &diag.notes[i];
            let ghost before = out@;
            out.append(" = note: ");
            out.append(note.message.as_str());
            if note.span != Span::dummy() {
                out.append(" (");
                self.push_location(&mut out, note.file, note.span);
                crate::text::push_char(&mut out, ')');
            }
            crate::text::push_char(&mut out, '\n');
            assert(out@ =~= before + note_text(self@, diag.notes@[i as int]));
            i = i + 1;
        }
        out
    }
}

} // verus!
