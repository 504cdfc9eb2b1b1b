//! The results of analysing files: per file its declarations, name
//! resolutions, expression types and diagnostics, and the diagnostics that
//! belong to no file.

use vstd::prelude::*;
use crate::ast::SourceFile;
use crate::collect::{coll_members, collect_start, decl_counts, def_view, CollectState, DeclarationCollector};
use crate::def::{DefInfo, DefId, FileId};
use crate::diagnostics::{dummy_span, Diagnostic, Severity, Span};
use crate::namespace::ModuleNamespaces;
use crate::resolve::ResolvedRef;
use crate::resolver::{
    count_members, diag_view, exported_views, st_members, NameResolver, NsView, ResolveCtx, ResolveState,
};
use crate::text::copy_str;
use crate::types::Type;

verus! {

/// What the analysis of one file produced.
pub struct FileAnalysis {
    /// The syntax tree.
    pub ast: SourceFile,
    /// The source text.
    pub source: String,
    /// The file path.
    pub path: String,
    /// The declarations of the file.
    pub defs: Vec<DefInfo>,
    /// What each reference resolved to, by its span.
    pub name_resolution: Vec<(Span, ResolvedRef)>,
    /// The type of each expression, by its span.
    pub expr_types: Vec<(Span, Type)>,
    /// The diagnostics of the file.
    pub diagnostics: Vec<Diagnostic>,
}

/// The result of an analysis.
pub struct HirDatabase {
    pub files: Vec<FileAnalysis>,
    pub diagnostics: Vec<Diagnostic>,
}

/// Resolution starts with no scope and nothing produced, numbering from
/// `next`.
pub open spec fn resolve_start(next: int) -> ResolveState {
    ResolveState {
        frames: Seq::empty(),
        next,
        tparams: Seq::empty(),
        in_param: 0,
        in_class: false,
        res: Seq::empty(),
        tys: Seq::empty(),
        diags: Seq::empty(),
    }
}

/// Namespaces that bind nothing, as resolution sees them.
pub open spec fn empty_view() -> NsView {
    (Map::empty(), Map::empty(), Map::empty())
}

/// The context of resolving a single file: file 0, its collected
/// namespaces searched first, then three empty ones, no exported types,
/// and the collected alias entries.
pub open spec fn single_file_ctx(cs: CollectState) -> ResolveCtx {
    ResolveCtx {
        file: FileId(0),
        chain: seq![(cs.types, cs.preds, cs.modules), empty_view(), empty_view(), empty_view()],
        exported: Seq::empty(),
        aliases: cs.aliases,
    }
}

/// The diagnostic reported for a file that did not parse.
pub open spec fn parse_error_diag(e: Seq<char>) -> crate::resolver::DiagV {
    (Severity::Error, "Parse error: "@ + e, dummy_span(), FileId(0), 0)
}

/// Analyses a single file given what parsing it gave: the syntax tree, or
/// the rendering of the parse error. A parse error is the database's only
/// diagnostic. Otherwise the file's declarations are collected, then its
/// names resolved and its expressions typed against those declarations
/// alone.
pub fn analyze_single_file(parsed: Result<SourceFile, String>, source: &str, path: &str) -> (r: HirDatabase)
    requires
        parsed matches Ok(sf) ==> decl_counts(sf.members@) + count_members(sf.members@) <= u32::MAX,
    ensures
        match parsed {
            Err(e) => {
                &&& r.files@.len() == 0
                &&& r.diagnostics@.len() == 1
                &&& diag_view(r.diagnostics@[0]) == parse_error_diag(e@)
            },
            Ok(sf) => {
                let cs = coll_members(FileId(0), collect_start(), sf.members@);
                let f = r.files@[0];
                &&& r.diagnostics@.len() == 0
                &&& r.files@.len() == 1
                &&& f.ast == sf
                &&& f.source@ == source@
                &&& f.path@ == path@
                &&& f.defs@.map_values(|d: DefInfo| def_view(d)) == cs.defs
                &&& {
                    let rs = st_members(single_file_ctx(cs), resolve_start(cs.next), sf.members@);
                    &&& f.name_resolution@ == rs.res
                    &&& f.expr_types@.map_values(|p: (Span, Type)| (p.0, p.1@)) == rs.tys
                    &&& f.diagnostics@.map_values(|d: Diagnostic| diag_view(d)) == rs.diags
                }
            },
        },
{
    match parsed {
        Err(e) => {
            let mut m = copy_str("Parse error: ");
            m.append(e.as_str());
            let d = Diagnostic { severity: Severity::Error, message: m, span: Span::dummy(), file: FileId(0), notes: Vec::new() };
            let mut diagnostics: Vec<Diagnostic> = Vec::new();
            diagnostics.push(d);
            HirDatabase { files: Vec::new(), diagnostics }
        },
        Ok(ast) => {
            let file_id = FileId(0);
            let mut collector = DeclarationCollector::new(file_id);
            proof {
                crate::collect::lemma_decl_counts_nonneg(ast.members@);
                crate::resolver::lemma_count_members_nonneg(ast.members@);
            }
            collector.collect_source_file(&ast);

            let ghost cs = collector.state();
            proof { collector.lemma_ns_state(); }
            let empty1 = ModuleNamespaces::new();
            let empty2 = ModuleNamespaces::new();
            let empty_project = ModuleNamespaces::new();
            let empty_exported: Vec<(FileId, ModuleNamespaces)> = Vec::new();
            let mut resolver = NameResolver::new_single_file(file_id, &collector, &empty1, &empty2, &empty_project, &empty_exported);
            let ghost c = resolver.ctx();
            proof { resolver.lemma_state_bounds(); }
            assert(c.aliases =~= cs.aliases);
            assert(exported_views(empty_exported@) =~= Seq::<(FileId, Map<Seq<char>, DefId>)>::empty());
            assert(c == single_file_ctx(cs));
            resolver.resolve_source_file(&ast);
            let ghost rs = resolver.state();
            let (name_resolution, expr_types, diagnostics) = resolver.take_results();
            let defs = collector.into_defs();
            let analysis = FileAnalysis {
                ast,
                source: copy_str(source),
                path: copy_str(path),
                defs,
                name_resolution,
                expr_types,
                diagnostics,
            };
            let mut files: Vec<FileAnalysis> = Vec::new();
            files.push(analysis);
            HirDatabase { files, diagnostics: Vec::new() }
        },
    }
}

/// The errors among diagnostics, in order.
pub open spec fn errors_of(ds: Seq<Diagnostic>) -> Seq<Diagnostic>
    decreases ds.len(),
{
    if ds.len() == 0 {
        Seq::empty()
    } else if ds.last().severity == Severity::Error {
        errors_of(ds.drop_last()).push(ds.last())
    } else {
        errors_of(ds.drop_last())
    }
}

/// The diagnostics of the first `k` files, file by file.
pub open spec fn file_diagnostics(fs: Seq<FileAnalysis>, k: int) -> Seq<Diagnostic>
    decreases k,
{
    if k <= 0 || k > fs.len() {
        Seq::empty()
    } else {
        file_diagnostics(fs, k - 1) + fs[k - 1].diagnostics@
    }
}

/// The errors among the diagnostics `ds` appended to `out`.
fn push_errors<'a>(out: &mut Vec<&'a Diagnostic>, ds: &'a Vec<Diagnostic>)
    ensures
        final(out)@.map_values(|d: &Diagnostic| *d) == old(out)@.map_values(|d: &Diagnostic| *d) + errors_of(ds@),
{
    let mut i: usize = 0;
    while i < ds.len()
        invariant
            i <= ds@.len(),
            out@.map_values(|d: &Diagnostic| *d) == old(out)@.map_values(|d: &Diagnostic| *d) + errors_of(ds@.take(i as int)),
        decreases ds@.len() - i,
    {
        assert(ds@.take(i + 1).drop_last() =~= ds@.take(i as int));
        assert(ds@.take(i + 1).last() == ds@[i as int]);
        let ghost before = out@;
        if ds[i].severity == Severity::Error {
            out.push(&ds[i]);
            assert(out@.map_values(|d: &Diagnostic| *d) =~= before.map_values(|d: &Diagnostic| *d).push(ds@[i as int]));
        }
        i = i + 1;
    }
    assert(ds@.take(ds@.len() as int) =~= ds@);
}

impl HirDatabase {
    /// The error diagnostics: first those that belong to no file, then
    /// those of each file in turn.
    pub fn all_errors(&self) -> (r: Vec<&Diagnostic>)
        ensures
            r@.map_values(|d: &Diagnostic| *d) == errors_of(
                self.diagnostics@ + file_diagnostics(self.files@, self.files@.len() as int),
            ),
    {
        let mut out: Vec<&Diagnostic> = Vec::new();
        assert(out@.map_values(|d: &Diagnostic| *d) =~= Seq::<Diagnostic>::empty());
        push_errors(&mut out, &self.diagnostics);
        let mut i: usize = 0;
        while i < self.files.len()
            invariant
                i <= self.files@.len(),
                out@.map_values(|d: &Diagnostic| *d) == errors_of(self.diagnostics@) + errors_of(
                    file_diagnostics(self.files@, i as int),
                ),
            decreases self.files@.len() - i,
        {
            let ghost before = out@.map_values(|d: &Diagnostic| *d);
            push_errors(&mut out, &self.files[i].diagnostics);
            proof {
                lemma_errors_concat(file_diagnostics(self.files@, i as int), self.files@[i as int].diagnostics@);
                assert(file_diagnostics(self.files@, i + 1) == file_diagnostics(self.files@, i as int)
                    + self.files@[i as int].diagnostics@);
            }
            i = i + 1;
        }
        proof {
            lemma_errors_concat(self.diagnostics@, file_diagnostics(self.files@, self.files@.len() as int));
        }
        out
    }

    /// Whether no diagnostic is an error.
    pub fn is_ok(&self) -> (r: bool)
        ensures
            r == (errors_of(self.diagnostics@ + file_diagnostics(self.files@, self.files@.len() as int)).len() == 0),
    {
        let errors = self.all_errors();
        errors.len() == 0
    }
}

/// The errors of two lists are those of the first, then those of the
/// second.
pub proof fn lemma_errors_concat(a: Seq<Diagnostic>, b: Seq<Diagnostic>)
    ensures
        errors_of(a + b) == errors_of(a) + errors_of(b),
    decreases b.len(),
{
    if b.len() == 0 {
        assert(a + b =~= a);
        assert(errors_of(a) + errors_of(b) =~= errors_of(a));
    } else {
        lemma_errors_concat(a, b.drop_last());
        assert((a + b).drop_last() =~= a + b.drop_last());
        assert((a + b).last() == b.last());
        if b.last().severity == Severity::Error {
            assert(errors_of(a) + errors_of(b) =~= (errors_of(a) + errors_of(b.drop_last())).push(b.last()));
        }
    }
}

} // verus!
