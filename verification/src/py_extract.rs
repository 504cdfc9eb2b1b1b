//! The Python extraction walk over syntax trees: modules, functions,
//! classes and their decorators, parameters, imports, statements and
//! expressions, each with its location, recorded in a fact log.

use vstd::prelude::*;
use crate::syntax::SyntaxNode;
use crate::extractors::{ExprClass, py_expr_class, py_stmt_kind, classify_py_expression, py_statement_kind,
    str_starts_with};
use crate::js_extract::{FactLog, LogView, alloc_id, location_of, row, ent, num, txt, next_index, field_index,
    first_named, field_text, entity_pair, entity_text_entity, ent_num_ent_num, field_pos, first_named_pos,
    field_text_of, next_pos, ValueView, FactValue, FactView, values_view};
use crate::text::{copy_str, str_eq, chars_of, string_of, trim, trim_chars, trim_start_char, trim_start_char_chars,
    has_prefix, starts_with_chars};

verus! {

fn vals2(a: FactValue, b: FactValue) -> (r: Vec<FactValue>)
    ensures
        values_view(r@) == seq![a@, b@],
{
    let mut r: Vec<FactValue> = Vec::new();
    r.push(a);
    r.push(b);
    assert(values_view(r@) =~= seq![a@, b@]);
    r
}

fn vals3(a: FactValue, b: FactValue, c: FactValue) -> (r: Vec<FactValue>)
    ensures
        values_view(r@) == seq![a@, b@, c@],
{
    let mut r: Vec<FactValue> = Vec::new();
    r.push(a);
    r.push(b);
    r.push(c);
    assert(values_view(r@) =~= seq![a@, b@, c@]);
    r
}

fn vals4(a: FactValue, b: FactValue, c: FactValue, d: FactValue) -> (r: Vec<FactValue>)
    ensures
        values_view(r@) == seq![a@, b@, c@, d@],
{
    let mut r: Vec<FactValue> = Vec::new();
    r.push(a);
    r.push(b);
    r.push(c);
    r.push(d);
    assert(values_view(r@) =~= seq![a@, b@, c@, d@]);
    r
}

fn vals5(a: FactValue, b: FactValue, c: FactValue, d: FactValue, e: FactValue) -> (r: Vec<FactValue>)
    ensures
        values_view(r@) == seq![a@, b@, c@, d@, e@],
{
    let mut r: Vec<FactValue> = Vec::new();
    r.push(a);
    r.push(b);
    r.push(c);
    r.push(d);
    r.push(e);
    assert(values_view(r@) =~= seq![a@, b@, c@, d@, e@]);
    r
}

fn text_value(s: &str) -> (r: FactValue)
    ensures
        r@ == txt(s@),
{
    FactValue::Str(copy_str(s))
}

/// The text of the child of `n` under field `f`, if there is one.
pub open spec fn field_opt_text(n: SyntaxNode, f: Seq<char>) -> Option<Seq<char>> {
    let k = field_index(n.children@, f, 0);
    if 0 <= k < n.children@.len() {
        Some(n.children@[k].text@)
    } else {
        None
    }
}

fn field_opt_text_of(n: &SyntaxNode, f: &str) -> (r: Option<String>)
    ensures
        match r {
            Some(s) => field_opt_text(*n, f@) == Some(s@),
            None => field_opt_text(*n, f@) is None,
        },
{
    let k = field_pos(&n.children, f);
    if k < n.children.len() {
        Some(copy_str(n.children[k].text.as_str()))
    } else {
        None
    }
}

/// The text of the first child of `n`, or `dflt` when it has none.
pub open spec fn first_child_text(n: SyntaxNode, dflt: Seq<char>) -> Seq<char> {
    if n.children@.len() > 0 {
        n.children@[0].text@
    } else {
        dflt
    }
}

fn first_child_text_of(n: &SyntaxNode, dflt: &str) -> (r: String)
    ensures
        r@ == first_child_text(*n, dflt@),
{
    if n.children.len() > 0 {
        copy_str(n.children[0].text.as_str())
    } else {
        copy_str(dflt)
    }
}

/// `s` without every leading occurrence of `p`.
pub open spec fn strip_prefixes(s: Seq<char>, p: Seq<char>) -> Seq<char>
    decreases s.len(),
{
    if p.len() > 0 && has_prefix(s, p) {
        strip_prefixes(s.skip(p.len() as int), p)
    } else {
        s
    }
}

pub(crate) fn strip_prefixes_of(s: &str, p: &str) -> (r: String)
    ensures
        r@ == strip_prefixes(s@, p@),
{
    let cs = chars_of(s);
    let ps = chars_of(p);
    let mut rest: Vec<char> = cs;
    while ps.len() > 0 && starts_with_chars(rest.as_slice(), ps.as_slice())
        invariant
            ps@ == p@,
            strip_prefixes(rest@, p@) == strip_prefixes(s@, p@),
        decreases rest@.len(),
    {
        let ghost before = rest@;
        let mut next: Vec<char> = Vec::new();
        let mut j: usize = ps.len();
        while j < rest.len()
            invariant
                ps@.len() <= j <= rest@.len(),
                rest@ == before,
                next@ == before.subrange(ps@.len() as int, j as int),
            decreases rest@.len() - j,
        {
            next.push(rest[j]);
            assert(before.subrange(ps@.len() as int, j + 1) =~= before.subrange(ps@.len() as int, j as int).push(
                before[j as int],
            ));
            j = j + 1;
        }
        assert(next@ =~= before.skip(p@.len() as int));
        rest = next;
    }
    string_of(rest.as_slice())
}

/// The comment `n`: its row with its text and its location.
pub open spec fn py_comment_facts(log: LogView, file: u64, n: SyntaxNode) -> LogView {
    let c = log.0;
    let l1 = alloc_id(log);
    let loc = l1.0;
    let l2 = location_of(l1, file, n);
    let l3 = row(l2, "py_comments"@, seq![ent(c), txt(n.text@), ent(loc)]);
    row(l3, "hasLocation"@, seq![ent(c), ent(loc)])
}

/// Emits the comment `node` (`py_comment_facts`).
pub fn extract_py_comment(facts: &mut FactLog, file_id: u64, node: &SyntaxNode)
    ensures
        final(facts)@ == py_comment_facts(old(facts)@, file_id, *node),
{
    let c = facts.fresh_id();
    let loc = facts.emit_location(file_id, node);
    facts.emit("py_comments", vals3(FactValue::Entity(c), text_value(node.text.as_str()), FactValue::Entity(loc)));
    facts.emit("hasLocation", entity_pair(c, loc));
}

/// A parameter named `name` at position `idx` of the function `f`, of kind
/// `kind`, with its location, its default text and its annotation text
/// when it has them.
pub open spec fn param_row_facts(
    log: LogView,
    file: u64,
    f: u64,
    n: SyntaxNode,
    name: Seq<char>,
    idx: i64,
    kind: i64,
    default: Option<Seq<char>>,
    ann: Option<Seq<char>>,
) -> LogView {
    let p = log.0;
    let l1 = alloc_id(log);
    let loc = l1.0;
    let l2 = location_of(l1, file, n);
    let l3 = row(l2, "py_parameters"@, seq![ent(p), txt(name), num(idx), ent(f), num(kind)]);
    let l4 = row(l3, "hasLocation"@, seq![ent(p), ent(loc)]);
    let l5 = match default {
        Some(d) => row(l4, "py_parameter_defaults"@, seq![ent(p), txt(d)]),
        None => l4,
    };
    match ann {
        Some(a) => row(l5, "py_parameter_annotations"@, seq![ent(p), txt(a)]),
        None => l5,
    }
}

fn emit_parameter(
    facts: &mut FactLog,
    file_id: u64,
    f: u64,
    n: &SyntaxNode,
    name: &str,
    idx: i64,
    kind: i64,
    default: Option<String>,
    ann: Option<String>,
)
    ensures
        final(facts)@ == param_row_facts(
            old(facts)@,
            file_id,
            f,
            *n,
            name@,
            idx,
            kind,
            match default { Some(d) => Some(d@), None => None },
            match ann { Some(a) => Some(a@), None => None },
        ),
{
    let p = facts.fresh_id();
    let loc = facts.emit_location(file_id, n);
    facts.emit(
        "py_parameters",
        vals5(FactValue::Entity(p), text_value(name), FactValue::Int(idx), FactValue::Entity(f), FactValue::Int(kind)),
    );
    facts.emit("hasLocation", entity_pair(p, loc));
    match default {
        Some(d) => facts.emit("py_parameter_defaults", vals2(FactValue::Entity(p), text_value(d.as_str()))),
        None => {},
    }
    match ann {
        Some(a) => facts.emit("py_parameter_annotations", vals2(FactValue::Entity(p), text_value(a.as_str()))),
        None => {},
    }
}

/// The parameters among `cs[i]`, ... of the function `f`, from position
/// `idx` on: plain, default, typed and typed default parameters are
/// positional; `*args` and `**kwargs` are named by their first child (or
/// `*`, `**`); the bare `*` and `/` separators are parameters too.
pub open spec fn py_params_from(log: LogView, file: u64, f: u64, cs: Seq<SyntaxNode>, i: int, idx: i64) -> LogView
    decreases cs.len() - i,
{
    if 0 <= i < cs.len() {
        let c = cs[i];
        let k = c.kind@;
        if k == "identifier"@ {
            py_params_from(param_row_facts(log, file, f, c, c.text@, idx, 0, None, None), file, f, cs, i + 1, next_index(idx))
        } else if k == "default_parameter"@ {
            py_params_from(
                param_row_facts(log, file, f, c, field_text(c, "name"@), idx, 0, field_opt_text(c, "value"@), None),
                file, f, cs, i + 1, next_index(idx))
        } else if k == "typed_parameter"@ {
            py_params_from(
                param_row_facts(log, file, f, c, first_child_text(c, Seq::empty()), idx, 0, None, field_opt_text(c, "type"@)),
                file, f, cs, i + 1, next_index(idx))
        } else if k == "typed_default_parameter"@ {
            py_params_from(
                param_row_facts(log, file, f, c, field_text(c, "name"@), idx, 0, field_opt_text(c, "value"@), field_opt_text(c, "type"@)),
                file, f, cs, i + 1, next_index(idx))
        } else if k == "list_splat_pattern"@ {
            py_params_from(param_row_facts(log, file, f, c, first_child_text(c, "*"@), idx, 2, None, None), file, f, cs, i + 1, next_index(idx))
        } else if k == "dictionary_splat_pattern"@ {
            py_params_from(param_row_facts(log, file, f, c, first_child_text(c, "**"@), idx, 3, None, None), file, f, cs, i + 1, next_index(idx))
        } else if k == "keyword_separator"@ {
            py_params_from(param_row_facts(log, file, f, c, "*"@, idx, 5, None, None), file, f, cs, i + 1, next_index(idx))
        } else if k == "positional_separator"@ {
            py_params_from(param_row_facts(log, file, f, c, "/"@, idx, 4, None, None), file, f, cs, i + 1, next_index(idx))
        } else {
            py_params_from(log, file, f, cs, i + 1, idx)
        }
    } else {
        log
    }
}

/// Emits the parameters `params` of the function `func_id`
/// (`py_params_from`).
pub fn extract_parameters(facts: &mut FactLog, file_id: u64, func_id: u64, params: &SyntaxNode)
    ensures
        final(facts)@ == py_params_from(old(facts)@, file_id, func_id, params.children@, 0, 0),
{
    let cs = &params.children;
    let ghost start = facts@;
    let mut i: usize = 0;
    let mut idx: i64 = 0;
    while i < cs.len()
        invariant
            cs@ == params.children@,
            i <= cs@.len(),
            py_params_from(facts@, file_id, func_id, cs@, i as int, idx) == py_params_from(start, file_id, func_id, cs@, 0, 0),
        decreases cs@.len() - i,
    {
        let c = &cs[i];
        let k = c.kind.as_str();
        if str_eq(k, "identifier") {
            emit_parameter(facts, file_id, func_id, c, c.text.as_str(), idx, 0, None, None);
            idx = next_pos(idx);
        } else if str_eq(k, "default_parameter") {
            let name = field_text_of(c, "name");
            emit_parameter(facts, file_id, func_id, c, name.as_str(), idx, 0, field_opt_text_of(c, "value"), None);
            idx = next_pos(idx);
        } else if str_eq(k, "typed_parameter") {
            proof {
                reveal_strlit("");
                assert(""@ =~= Seq::<char>::empty());
            }
            let name = first_child_text_of(c, "");
            emit_parameter(facts, file_id, func_id, c, name.as_str(), idx, 0, None, field_opt_text_of(c, "type"));
            idx = next_pos(idx);
        } else if str_eq(k, "typed_default_parameter") {
            let name = field_text_of(c, "name");
            emit_parameter(
                facts, file_id, func_id, c, name.as_str(), idx, 0, field_opt_text_of(c, "value"), field_opt_text_of(c, "type"),
            );
            idx = next_pos(idx);
        } else if str_eq(k, "list_splat_pattern") {
            let name = first_child_text_of(c, "*");
            emit_parameter(facts, file_id, func_id, c, name.as_str(), idx, 2, None, None);
            idx = next_pos(idx);
        } else if str_eq(k, "dictionary_splat_pattern") {
            let name = first_child_text_of(c, "**");
            emit_parameter(facts, file_id, func_id, c, name.as_str(), idx, 3, None, None);
            idx = next_pos(idx);
        } else if str_eq(k, "keyword_separator") {
            emit_parameter(facts, file_id, func_id, c, "*", idx, 5, None, None);
            idx = next_pos(idx);
        } else if str_eq(k, "positional_separator") {
            emit_parameter(facts, file_id, func_id, c, "/", idx, 4, None, None);
            idx = next_pos(idx);
        }
        i = i + 1;
    }
}

/// The base classes among `cs[i]`, ... of the class `c`: each named child
/// other than a comment, by its text, from position `idx` on.
pub open spec fn bases_from(log: LogView, c: u64, cs: Seq<SyntaxNode>, i: int, idx: i64) -> LogView
    decreases cs.len() - i,
{
    if 0 <= i < cs.len() {
        if cs[i].named && cs[i].kind@ != "comment"@ {
            bases_from(row(log, "py_base_classes"@, seq![ent(c), num(idx), txt(cs[i].text@)]), c, cs, i + 1, next_index(idx))
        } else {
            bases_from(log, c, cs, i + 1, idx)
        }
    } else {
        log
    }
}

/// The children of a superclass list that name base classes: the named
/// ones other than comments.
pub open spec fn base_class_nodes(cs: Seq<SyntaxNode>) -> Seq<SyntaxNode> {
    cs.filter(|n: SyntaxNode| n.named && n.kind@ != "comment"@)
}

/// The `py_base_classes` rows of the class `c` for the base class nodes
/// `bs`, numbered from `first` on.
pub open spec fn base_class_rows(c: u64, bs: Seq<SyntaxNode>, first: int) -> Seq<FactView> {
    Seq::new(bs.len(), |j: int| FactView::Row("py_base_classes"@, seq![ent(c), num((first + j) as i64), txt(bs[j].text@)]))
}

proof fn lemma_bases_from(log: LogView, c: u64, cs: Seq<SyntaxNode>, i: int, idx: i64)
    requires
        0 <= i <= cs.len(),
        0 <= idx,
        idx + base_class_nodes(cs.skip(i)).len() <= i64::MAX,
    ensures
        bases_from(log, c, cs, i, idx) == (log.0, log.1 + base_class_rows(c, base_class_nodes(cs.skip(i)), idx as int)),
    decreases cs.len() - i,
{
    let pred = |n: SyntaxNode| n.named && n.kind@ != "comment"@;
    if i < cs.len() {
        let x = cs[i];
        let rest = cs.skip(i + 1);
        assert(cs.skip(i) =~= seq![x] + rest);
        Seq::filter_distributes_over_add(seq![x], rest, pred);
        let one = seq![x].filter(pred);
        reveal_with_fuel(Seq::<SyntaxNode>::filter, 2);
        assert(seq![x].drop_last() =~= Seq::<SyntaxNode>::empty());
        assert(Seq::<SyntaxNode>::empty().filter(pred) =~= Seq::<SyntaxNode>::empty());
        assert(base_class_nodes(cs.skip(i)) == one + base_class_nodes(rest));
        if pred(x) {
            assert(one =~= seq![x]);
            assert(base_class_nodes(cs.skip(i)).len() == 1 + base_class_nodes(rest).len());
            assert(next_index(idx) == idx + 1);
            let l1 = row(log, "py_base_classes"@, seq![ent(c), num(idx), txt(x.text@)]);
            lemma_bases_from(l1, c, cs, i + 1, (idx + 1) as i64);
            assert(l1.1 + base_class_rows(c, base_class_nodes(rest), idx + 1) =~= log.1 + base_class_rows(
                c,
                base_class_nodes(cs.skip(i)),
                idx as int,
            ));
        } else {
            assert(one =~= Seq::<SyntaxNode>::empty());
            assert(base_class_nodes(cs.skip(i)) =~= base_class_nodes(rest));
            lemma_bases_from(log, c, cs, i + 1, idx);
        }
    } else {
        assert(cs.skip(i) =~= Seq::<SyntaxNode>::empty());
        reveal_with_fuel(Seq::<SyntaxNode>::filter, 1);
        assert(base_class_nodes(cs.skip(i)) =~= Seq::<SyntaxNode>::empty());
        assert(log.1 + base_class_rows(c, Seq::<SyntaxNode>::empty(), idx as int) =~= log.1);
    }
}

/// The base classes of a class are the named children of its superclass
/// list other than comments: each, in order, gets a `py_base_classes` row
/// with the class, its position among them and its text, and nothing else
/// is recorded.
pub proof fn lemma_base_classes_recorded(log: LogView, c: u64, cs: Seq<SyntaxNode>)
    requires
        base_class_nodes(cs).len() <= i64::MAX,
    ensures
        bases_from(log, c, cs, 0, 0) == (log.0, log.1 + base_class_rows(c, base_class_nodes(cs), 0)),
{
    assert(cs.skip(0) =~= cs);
    lemma_bases_from(log, c, cs, 0, 0);
}

fn extract_base_classes(facts: &mut FactLog, class_id: u64, node: &SyntaxNode)
    ensures
        final(facts)@ == bases_from(old(facts)@, class_id, node.children@, 0, 0),
{
    let cs = &node.children;
    let ghost start = facts@;
    let mut i: usize = 0;
    let mut idx: i64 = 0;
    while i < cs.len()
        invariant
            cs@ == node.children@,
            i <= cs@.len(),
            bases_from(facts@, class_id, cs@, i as int, idx) == bases_from(start, class_id, cs@, 0, 0),
        decreases cs@.len() - i,
    {
        if cs[i].named && !str_eq(cs[i].kind.as_str(), "comment") {
            facts.emit("py_base_classes", vals3(FactValue::Entity(class_id), FactValue::Int(idx), text_value(cs[i].text.as_str())));
            idx = next_pos(idx);
        }
        i = i + 1;
    }
}

/// The names imported by the parts `cs[i]`, ... of an import statement
/// `imp`, from position `k` on: a dotted name with an empty alias, an
/// aliased import with its alias; with `from`, a wildcard import names `*`
/// and dotted or relative names (the module) are no imported names.
pub open spec fn import_names_from(log: LogView, imp: u64, cs: Seq<SyntaxNode>, i: int, k: i64, from: bool) -> LogView
    decreases cs.len() - i,
{
    if 0 <= i < cs.len() {
        let c = cs[i];
        if !from && c.kind@ == "dotted_name"@ {
            import_names_from(row(log, "py_import_names"@, seq![ent(imp), num(k), txt(c.text@), txt(Seq::empty())]), imp, cs, i + 1, next_index(k), from)
        } else if from && c.kind@ == "wildcard_import"@ {
            import_names_from(row(log, "py_import_names"@, seq![ent(imp), num(k), txt("*"@), txt(Seq::empty())]), imp, cs, i + 1, next_index(k), from)
        } else if c.kind@ == "aliased_import"@ {
            import_names_from(
                row(log, "py_import_names"@, seq![ent(imp), num(k), txt(field_text(c, "name"@)), txt(field_text(c, "alias"@))]),
                imp, cs, i + 1, next_index(k), from)
        } else {
            import_names_from(log, imp, cs, i + 1, k, from)
        }
    } else {
        log
    }
}

/// The import statement `n` at position `idx` of `scope` (a `from` import
/// when `from`): its row with the module (for a plain import the text
/// after the leading `import `s, trimmed; for a `from` import its
/// `module_name`), its location, and the names it imports.
pub open spec fn py_import_facts(log: LogView, file: u64, scope: u64, n: SyntaxNode, idx: i64, from: bool) -> LogView {
    let i = log.0;
    let l1 = alloc_id(log);
    let loc = l1.0;
    let l2 = location_of(l1, file, n);
    let module = if from { field_text(n, "module_name"@) } else { trim(strip_prefixes(n.text@, "import "@)) };
    let l3 = row(l2, "py_imports"@, seq![ent(i), num(if from { 1 } else { 0 }), txt(module), ent(scope), num(idx)]);
    let l4 = row(l3, "hasLocation"@, seq![ent(i), ent(loc)]);
    import_names_from(l4, i, n.children@, 0, 0, from)
}

/// Emits the import statement `node` (`py_import_facts`).
pub fn extract_py_import(facts: &mut FactLog, file_id: u64, scope_id: u64, node: &SyntaxNode, idx: i64, from: bool)
    ensures
        final(facts)@ == py_import_facts(old(facts)@, file_id, scope_id, *node, idx, from),
{
    let i = facts.fresh_id();
    let loc = facts.emit_location(file_id, node);
    let module = if from {
        field_text_of(node, "module_name")
    } else {
        let stripped = strip_prefixes_of(node.text.as_str(), "import ");
        let cs = chars_of(stripped.as_str());
        let t = trim_chars(cs.as_slice());
        string_of(t.as_slice())
    };
    facts.emit(
        "py_imports",
        vals5(FactValue::Entity(i), FactValue::Int(if from { 1 } else { 0 }), text_value(module.as_str()), FactValue::Entity(scope_id), FactValue::Int(idx)),
    );
    facts.emit("hasLocation", entity_pair(i, loc));
    let cs = &node.children;
    let ghost start = facts@;
    let mut j: usize = 0;
    let mut k: i64 = 0;
    proof {
        reveal_strlit("");
        assert(""@ =~= Seq::<char>::empty());
    }
    while j < cs.len()
        invariant
            cs@ == node.children@,
            j <= cs@.len(),
            ""@ == Seq::<char>::empty(),
            import_names_from(facts@, i, cs@, j as int, k, from) == import_names_from(start, i, cs@, 0, 0, from),
        decreases cs@.len() - j,
    {
        let c = &cs[j];
        let ck = c.kind.as_str();
        if !from && str_eq(ck, "dotted_name") {
            facts.emit("py_import_names", vals4(FactValue::Entity(i), FactValue::Int(k), text_value(c.text.as_str()), text_value("")));
            k = next_pos(k);
        } else if from && str_eq(ck, "wildcard_import") {
            facts.emit("py_import_names", vals4(FactValue::Entity(i), FactValue::Int(k), text_value("*"), text_value("")));
            k = next_pos(k);
        } else if str_eq(ck, "aliased_import") {
            let name = field_text_of(c, "name");
            let alias = field_text_of(c, "alias");
            facts.emit("py_import_names", vals4(FactValue::Entity(i), FactValue::Int(k), text_value(name.as_str()), text_value(alias.as_str())));
            k = next_pos(k);
        }
        j = j + 1;
    }
}

/// An item of a module or a block at position `idx` of `scope`:
/// definitions and imports always take the position, a comment is recorded
/// and takes none, anything else takes it when it is a statement.
pub open spec fn top_level_facts(log: LogView, file: u64, scope: u64, n: SyntaxNode, idx: i64) -> (LogView, bool)
    decreases n, 3int,
{
    let k = n.kind@;
    if k == "function_definition"@ {
        (py_function_facts(log, file, scope, n, idx, false).0, true)
    } else if k == "class_definition"@ {
        (py_class_facts(log, file, scope, n, idx).0, true)
    } else if k == "decorated_definition"@ {
        (decorated_facts(log, file, scope, n, idx), true)
    } else if k == "import_statement"@ {
        (py_import_facts(log, file, scope, n, idx, false), true)
    } else if k == "import_from_statement"@ {
        (py_import_facts(log, file, scope, n, idx, true), true)
    } else if k == "comment"@ {
        (py_comment_facts(log, file, n), false)
    } else {
        let (l, r) = py_stmt_facts(log, file, scope, n, idx);
        (l, r is Some)
    }
}

/// The named children among `cs[i]`, ... as items of `scope`
/// (`top_level_facts`), from position `idx` on.
pub open spec fn suite_from(log: LogView, file: u64, scope: u64, cs: Seq<SyntaxNode>, i: int, idx: i64) -> LogView
    decreases cs, cs.len() - i,
{
    if 0 <= i < cs.len() {
        if cs[i].named {
            let (l, b) = top_level_facts(log, file, scope, cs[i], idx);
            suite_from(l, file, scope, cs, i + 1, if b { next_index(idx) } else { idx })
        } else {
            suite_from(log, file, scope, cs, i + 1, idx)
        }
    } else {
        log
    }
}

/// The block `b` of `scope`: its named children as items from position 0
/// on.
pub open spec fn suite_facts(log: LogView, file: u64, scope: u64, b: SyntaxNode) -> LogView
    decreases b, 2int,
{
    suite_from(log, file, scope, b.children@, 0, 0)
}

/// The block under field `f` of `n`, if there is one.
pub open spec fn field_suite(log: LogView, file: u64, scope: u64, n: SyntaxNode, f: Seq<char>) -> LogView
    decreases n, 0int,
{
    let k = field_index(n.children@, f, 0);
    if 0 <= k < n.children@.len() {
        suite_facts(log, file, scope, n.children@[k])
    } else {
        log
    }
}

/// The function `n` at position `idx` of `scope`: its row with its name,
/// for an async one a mark, its location, its nesting in `scope`, its
/// parameters and its body; and its id.
pub open spec fn py_function_facts(log: LogView, file: u64, scope: u64, n: SyntaxNode, idx: i64, is_async: bool) -> (LogView, u64)
    decreases n, 2int,
{
    let f = log.0;
    let l1 = alloc_id(log);
    let loc = l1.0;
    let l2 = location_of(l1, file, n);
    let l3 = row(l2, "py_Functions"@, seq![ent(f), txt(field_text(n, "name"@)), ent(scope), num(idx)]);
    let l4 = if is_async { row(l3, "py_function_is_async"@, seq![ent(f)]) } else { l3 };
    let l5 = row(l4, "hasLocation"@, seq![ent(f), ent(loc)]);
    let l6 = row(l5, "py_scope_nesting"@, seq![ent(f), ent(scope)]);
    let p = field_index(n.children@, "parameters"@, 0);
    let l7 = if 0 <= p < n.children@.len() {
        py_params_from(l6, file, f, n.children@[p].children@, 0, 0)
    } else {
        l6
    };
    (field_suite(l7, file, f, n, "body"@), f)
}

/// The class `n` at position `idx` of `scope`: its row with its name, its
/// location, its nesting in `scope`, its base classes and its body; and
/// its id.
pub open spec fn py_class_facts(log: LogView, file: u64, scope: u64, n: SyntaxNode, idx: i64) -> (LogView, u64)
    decreases n, 2int,
{
    let c = log.0;
    let l1 = alloc_id(log);
    let loc = l1.0;
    let l2 = location_of(l1, file, n);
    let l3 = row(l2, "py_Classes"@, seq![ent(c), txt(field_text(n, "name"@)), ent(scope), num(idx)]);
    let l4 = row(l3, "hasLocation"@, seq![ent(c), ent(loc)]);
    let l5 = row(l4, "py_scope_nesting"@, seq![ent(c), ent(scope)]);
    let s = field_index(n.children@, "superclasses"@, 0);
    let l6 = if 0 <= s < n.children@.len() {
        bases_from(l5, c, n.children@[s].children@, 0, 0)
    } else {
        l5
    };
    (field_suite(l6, file, c, n, "body"@), c)
}

/// The position of the last function or class definition among `cs[i]`,
/// ..., or `found` when there is none.
pub open spec fn last_definition(cs: Seq<SyntaxNode>, i: int, found: int) -> int
    decreases cs.len() - i,
{
    if 0 <= i < cs.len() {
        let d = cs[i].kind@ == "function_definition"@ || cs[i].kind@ == "class_definition"@;
        last_definition(cs, i + 1, if d { i } else { found })
    } else {
        found
    }
}

proof fn lemma_last_definition(cs: Seq<SyntaxNode>, i: int, found: int)
    requires
        0 <= i <= cs.len(),
        found == cs.len() || 0 <= found < i,
    ensures
        last_definition(cs, i, found) == cs.len() || 0 <= last_definition(cs, i, found) < cs.len(),
    decreases cs.len() - i,
{
    if i < cs.len() {
        let d = cs[i].kind@ == "function_definition"@ || cs[i].kind@ == "class_definition"@;
        lemma_last_definition(cs, i + 1, if d { i } else { found });
    }
}

/// The decorators among `cs[i]`, ... of the definition `def`, from
/// position `k` on: each with its text after the leading `@`s, trimmed,
/// and its location.
pub open spec fn py_decorators_from(log: LogView, file: u64, def: u64, cs: Seq<SyntaxNode>, i: int, k: i64) -> LogView
    decreases cs.len() - i,
{
    if 0 <= i < cs.len() {
        if cs[i].kind@ == "decorator"@ {
            let d = log.0;
            let l1 = alloc_id(log);
            let loc = l1.0;
            let l2 = location_of(l1, file, cs[i]);
            let l3 = row(l2, "py_decorators"@, seq![ent(d), ent(def), num(k), txt(trim(trim_start_char(cs[i].text@, '@')))]);
            let l4 = row(l3, "hasLocation"@, seq![ent(d), ent(loc)]);
            py_decorators_from(l4, file, def, cs, i + 1, next_index(k))
        } else {
            py_decorators_from(log, file, def, cs, i + 1, k)
        }
    } else {
        log
    }
}

/// The decorated definition `n` at position `idx` of `scope`: its last
/// function or class definition (a function is async when `n` begins with
/// `@` and the function with `async `), then its decorators; nothing when
/// it holds no definition.
pub open spec fn decorated_facts(log: LogView, file: u64, scope: u64, n: SyntaxNode, idx: i64) -> LogView
    decreases n, 2int,
{
    let cs = n.children@;
    let d = last_definition(cs, 0, cs.len() as int);
    if 0 <= d < cs.len() {
        let (l, def) = if cs[d].kind@ == "function_definition"@ {
            let is_async = has_prefix(n.text@, "@"@) && has_prefix(cs[d].text@, "async "@);
            py_function_facts(log, file, scope, cs[d], idx, is_async)
        } else {
            py_class_facts(log, file, scope, cs[d], idx)
        };
        py_decorators_from(l, file, def, cs, 0, 0)
    } else {
        log
    }
}

/// The statement `n` at position `idx` of `scope`: for a statement kind
/// (`py_stmt_kind`) its row with its location, what its parts emit
/// (`py_stmt_body_facts`), and its id; for another node nothing.
pub open spec fn py_stmt_facts(log: LogView, file: u64, scope: u64, n: SyntaxNode, idx: i64) -> (LogView, Option<u64>)
    decreases n, 2int,
{
    match py_stmt_kind(n.kind@) {
        Some(k) => {
            let s = log.0;
            let l1 = alloc_id(log);
            let loc = l1.0;
            let l2 = location_of(l1, file, n);
            let l3 = row(l2, "py_stmts"@, seq![ent(s), num(k), ent(scope), num(idx)]);
            let l4 = row(l3, "hasLocation"@, seq![ent(s), ent(loc)]);
            (py_stmt_body_facts(l4, file, scope, n, s), Some(s))
        },
        None => (log, None),
    }
}

/// The expression under field `f` of `n`, if there is one.
pub open spec fn py_field_expr(log: LogView, file: u64, parent: u64, n: SyntaxNode, f: Seq<char>, idx: i64) -> LogView
    decreases n, 0int,
{
    let k = field_index(n.children@, f, 0);
    if 0 <= k < n.children@.len() {
        py_expr_facts(log, file, parent, n.children@[k], idx).0
    } else {
        log
    }
}

/// Every named child of `n` as an expression at position 0.
pub open spec fn py_named_zero(log: LogView, file: u64, parent: u64, n: SyntaxNode) -> LogView
    decreases n, 0int,
{
    named_zero_from(log, file, parent, n.children@, 0)
}

pub open spec fn named_zero_from(log: LogView, file: u64, parent: u64, cs: Seq<SyntaxNode>, i: int) -> LogView
    decreases cs, cs.len() - i,
{
    if 0 <= i < cs.len() {
        let l = if cs[i].named { py_expr_facts(log, file, parent, cs[i], 0).0 } else { log };
        named_zero_from(l, file, parent, cs, i + 1)
    } else {
        log
    }
}

/// The named children of `n` as expressions at positions `first`,
/// `first + 1`, ... (each named child takes a position).
pub open spec fn py_named_seq(log: LogView, file: u64, parent: u64, n: SyntaxNode, first: i64) -> LogView
    decreases n, 0int,
{
    named_seq_from(log, file, parent, n.children@, 0, first)
}

pub open spec fn named_seq_from(log: LogView, file: u64, parent: u64, cs: Seq<SyntaxNode>, i: int, idx: i64) -> LogView
    decreases cs, cs.len() - i,
{
    if 0 <= i < cs.len() {
        if cs[i].named {
            named_seq_from(py_expr_facts(log, file, parent, cs[i], idx).0, file, parent, cs, i + 1, next_index(idx))
        } else {
            named_seq_from(log, file, parent, cs, i + 1, idx)
        }
    } else {
        log
    }
}

/// The first named child of `n` as an expression at position 0.
pub open spec fn py_first_named(log: LogView, file: u64, parent: u64, n: SyntaxNode) -> LogView
    decreases n, 0int,
{
    let c = first_named(n.children@, 0);
    if 0 <= c < n.children@.len() {
        py_expr_facts(log, file, parent, n.children@[c], 0).0
    } else {
        log
    }
}

/// The parts of an expression statement `s`: nested assignments give
/// their parts (`assignment_facts`), other named children are expressions
/// at positions from `idx` on.
pub open spec fn expr_stmt_parts_from(log: LogView, file: u64, s: u64, cs: Seq<SyntaxNode>, i: int, idx: i64) -> LogView
    decreases cs, cs.len() - i,
{
    if 0 <= i < cs.len() {
        if cs[i].named {
            if cs[i].kind@ == "assignment"@ || cs[i].kind@ == "augmented_assignment"@ {
                expr_stmt_parts_from(assignment_facts(log, file, s, cs[i]), file, s, cs, i + 1, idx)
            } else {
                expr_stmt_parts_from(py_expr_facts(log, file, s, cs[i], idx).0, file, s, cs, i + 1, next_index(idx))
            }
        } else {
            expr_stmt_parts_from(log, file, s, cs, i + 1, idx)
        }
    } else {
        log
    }
}

/// The identifiers among `cs[i]`, ... named by a `global` or `nonlocal`
/// statement, each a variable of `scope` with its location.
pub open spec fn declared_vars_from(log: LogView, file: u64, scope: u64, cs: Seq<SyntaxNode>, i: int) -> LogView
    decreases cs.len() - i,
{
    if 0 <= i < cs.len() {
        if cs[i].kind@ == "identifier"@ {
            let v = log.0;
            let l1 = row(alloc_id(log), "py_variables"@, seq![ent(v), txt(cs[i].text@), ent(scope)]);
            let loc = l1.0;
            let l2 = location_of(l1, file, cs[i]);
            let l3 = row(l2, "hasLocation"@, seq![ent(v), ent(loc)]);
            declared_vars_from(l3, file, scope, cs, i + 1)
        } else {
            declared_vars_from(log, file, scope, cs, i + 1)
        }
    } else {
        log
    }
}

/// The parts of an assignment `n` under `parent`: its left side at
/// position 0 (an identifier also a variable of `parent`) and its right
/// side at position 1.
pub open spec fn assignment_facts(log: LogView, file: u64, parent: u64, n: SyntaxNode) -> LogView
    decreases n, 1int,
{
    let lk = field_index(n.children@, "left"@, 0);
    let l1 = if 0 <= lk < n.children@.len() {
        let left = n.children@[lk];
        let la = py_expr_facts(log, file, parent, left, 0).0;
        if left.kind@ == "identifier"@ {
            let v = la.0;
            row(alloc_id(la), "py_variables"@, seq![ent(v), txt(left.text@), ent(parent)])
        } else {
            la
        }
    } else {
        log
    };
    py_field_expr(l1, file, parent, n, "right"@, 1)
}

/// What the parts of the statement `n`, whose id is `s`, emit; nested
/// blocks are items of `scope`.
pub open spec fn py_stmt_body_facts(log: LogView, file: u64, scope: u64, n: SyntaxNode, s: u64) -> LogView
    decreases n, 1int,
{
    let k = n.kind@;
    if k == "expression_statement"@ {
        expr_stmt_parts_from(log, file, s, n.children@, 0, 0)
    } else if k == "assignment"@ || k == "augmented_assignment"@ {
        assignment_facts(log, file, s, n)
    } else if k == "return_statement"@ || k == "raise_statement"@ {
        py_named_zero(log, file, s, n)
    } else if k == "if_statement"@ {
        let l1 = py_field_expr(log, file, s, n, "condition"@, 0);
        let l2 = field_suite(l1, file, scope, n, "consequence"@);
        field_suite(l2, file, scope, n, "alternative"@)
    } else if k == "for_statement"@ {
        let l1 = py_field_expr(log, file, s, n, "left"@, 0);
        let l2 = py_field_expr(l1, file, s, n, "right"@, 1);
        field_suite(l2, file, scope, n, "body"@)
    } else if k == "while_statement"@ {
        field_suite(py_field_expr(log, file, s, n, "condition"@, 0), file, scope, n, "body"@)
    } else if k == "with_statement"@ || k == "try_statement"@ {
        field_suite(log, file, scope, n, "body"@)
    } else if k == "assert_statement"@ || k == "delete_statement"@ {
        py_named_seq(log, file, s, n, 0)
    } else if k == "global_statement"@ || k == "nonlocal_statement"@ {
        declared_vars_from(log, file, scope, n.children@, 0)
    } else {
        log
    }
}

/// The literal node kinds whose text is recorded as a value.
pub open spec fn py_literal(k: Seq<char>) -> bool {
    k == "integer"@ || k == "float"@ || k == "string"@ || k == "none"@ || k == "true"@ || k == "false"@
}

/// The expression `n` at position `idx` under `parent`: parentheses stand
/// for their first named child; a node of an expression kind
/// (`py_expr_class`) gives its row with its location, the name of an
/// identifier, the text of a literal, and what its parts emit
/// (`py_expr_body_facts`), and its id; another node nothing.
pub open spec fn py_expr_facts(log: LogView, file: u64, parent: u64, n: SyntaxNode, idx: i64) -> (LogView, Option<u64>)
    decreases n, 2int,
{
    match py_expr_class(n.kind@) {
        ExprClass::Unwrap => {
            let c = first_named(n.children@, 0);
            if 0 <= c < n.children@.len() {
                py_expr_facts(log, file, parent, n.children@[c], idx)
            } else {
                (log, None)
            }
        },
        ExprClass::Kind(ek) => {
            let e = log.0;
            let l1 = alloc_id(log);
            let loc = l1.0;
            let l2 = location_of(l1, file, n);
            let l3 = row(l2, "py_exprs"@, seq![ent(e), num(ek), ent(parent), num(idx)]);
            let l4 = row(l3, "hasLocation"@, seq![ent(e), ent(loc)]);
            let l5 = if n.kind@ == "identifier"@ { row(l4, "py_expr_names"@, seq![ent(e), txt(n.text@)]) } else { l4 };
            let l6 = if py_literal(n.kind@) { row(l5, "py_expr_values"@, seq![ent(e), txt(n.text@)]) } else { l5 };
            (py_expr_body_facts(l6, file, n, e), Some(e))
        },
        _ => (log, None),
    }
}

/// The arguments of a call: the named children of `a` from position 1 on.
pub open spec fn py_args_facts(log: LogView, file: u64, e: u64, n: SyntaxNode) -> LogView
    decreases n, 0int,
{
    let a = field_index(n.children@, "arguments"@, 0);
    if 0 <= a < n.children@.len() {
        py_named_seq(log, file, e, n.children@[a], 1)
    } else {
        log
    }
}

/// What the parts of the expression `n`, whose id is `e`, emit.
pub open spec fn py_expr_body_facts(log: LogView, file: u64, n: SyntaxNode, e: u64) -> LogView
    decreases n, 1int,
{
    let k = n.kind@;
    if k == "call"@ {
        py_args_facts(py_field_expr(log, file, e, n, "function"@, 0), file, e, n)
    } else if k == "attribute"@ {
        let l1 = py_field_expr(log, file, e, n, "object"@, 0);
        match field_opt_text(n, "attribute"@) {
            Some(t) => row(l1, "py_expr_names"@, seq![ent(e), txt(t)]),
            None => l1,
        }
    } else if k == "binary_operator"@ || k == "boolean_operator"@ {
        py_field_expr(py_field_expr(log, file, e, n, "left"@, 0), file, e, n, "right"@, 1)
    } else if k == "unary_operator"@ {
        py_field_expr(log, file, e, n, "argument"@, 0)
    } else if k == "comparison_operator"@ || k == "conditional_expression"@ || k == "list"@ || k == "tuple"@
        || k == "set"@ || k == "dictionary"@ || k == "slice"@ || k == "concatenated_string"@ {
        py_named_seq(log, file, e, n, 0)
    } else if k == "subscript"@ {
        py_field_expr(py_field_expr(log, file, e, n, "value"@, 0), file, e, n, "subscript"@, 1)
    } else if k == "starred_expression"@ || k == "await"@ || k == "yield"@ {
        py_first_named(log, file, e, n)
    } else if k == "named_expression"@ {
        py_field_expr(py_field_expr(log, file, e, n, "name"@, 0), file, e, n, "value"@, 1)
    } else if k == "lambda"@ {
        py_field_expr(log, file, e, n, "body"@, 0)
    } else if k == "pair"@ {
        py_field_expr(py_field_expr(log, file, e, n, "key"@, 0), file, e, n, "value"@, 1)
    } else if k == "keyword_argument"@ {
        let l1 = match field_opt_text(n, "name"@) {
            Some(t) => row(log, "py_expr_names"@, seq![ent(e), txt(t)]),
            None => log,
        };
        py_field_expr(l1, file, e, n, "value"@, 0)
    } else {
        log
    }
}

/// The module `root` of the file `file`: its row with the name `<module>`,
/// its location, and its named children as items of the module from
/// position 0 on.
pub open spec fn py_module_facts(log: LogView, file: u64, root: SyntaxNode) -> LogView {
    let m = log.0;
    let l1 = row(alloc_id(log), "py_Modules"@, seq![ent(m), num(0), txt("<module>"@), ent(file)]);
    let loc = l1.0;
    let l2 = location_of(l1, file, root);
    let l3 = row(l2, "hasLocation"@, seq![ent(m), ent(loc)]);
    suite_from(l3, file, m, root.children@, 0, 0)
}

/// Emits the item `node` at position `idx` of `scope_id` and says whether
/// it took the position (`top_level_facts`).
pub fn extract_top_level(facts: &mut FactLog, file_id: u64, scope_id: u64, node: &SyntaxNode, idx: i64) -> (r: bool)
    ensures
        (final(facts)@, r) == top_level_facts(old(facts)@, file_id, scope_id, *node, idx),
    decreases node, 3int,
{
    let k = node.kind.as_str();
    if str_eq(k, "function_definition") {
        extract_py_function(facts, file_id, scope_id, node, idx, false);
        true
    } else if str_eq(k, "class_definition") {
        extract_py_class(facts, file_id, scope_id, node, idx);
        true
    } else if str_eq(k, "decorated_definition") {
        extract_decorated_definition(facts, file_id, scope_id, node, idx);
        true
    } else if str_eq(k, "import_statement") {
        extract_py_import(facts, file_id, scope_id, node, idx, false);
        true
    } else if str_eq(k, "import_from_statement") {
        extract_py_import(facts, file_id, scope_id, node, idx, true);
        true
    } else if str_eq(k, "comment") {
        extract_py_comment(facts, file_id, node);
        false
    } else {
        let r = extract_py_stmt(facts, file_id, scope_id, node, idx);
        r.is_some()
    }
}

/// Emits the named children of the block `body` as items of `scope_id`
/// (`suite_facts`).
pub fn extract_body(facts: &mut FactLog, file_id: u64, scope_id: u64, body: &SyntaxNode)
    ensures
        final(facts)@ == suite_facts(old(facts)@, file_id, scope_id, *body),
    decreases body, 2int,
{
    let cs = &body.children;
    let ghost start = facts@;
    let mut i: usize = 0;
    let mut idx: i64 = 0;
    while i < cs.len()
        invariant
            cs@ == body.children@,
            i <= cs@.len(),
            suite_from(facts@, file_id, scope_id, cs@, i as int, idx) == suite_from(start, file_id, scope_id, cs@, 0, 0),
        decreases cs@.len() - i,
    {
        if cs[i].named {
            let b = extract_top_level(facts, file_id, scope_id, &cs[i], idx);
            if b {
                idx = next_pos(idx);
            }
        }
        i = i + 1;
    }
}

fn extract_field_suite(facts: &mut FactLog, file_id: u64, scope_id: u64, node: &SyntaxNode, f: &str)
    ensures
        final(facts)@ == field_suite(old(facts)@, file_id, scope_id, *node, f@),
    decreases node, 0int,
{
    let k = field_pos(&node.children, f);
    if k < node.children.len() {
        extract_body(facts, file_id, scope_id, &node.children[k]);
    }
}

/// Emits the function `node` at position `idx` of `scope_id` and returns
/// its id (`py_function_facts`).
pub fn extract_py_function(facts: &mut FactLog, file_id: u64, scope_id: u64, node: &SyntaxNode, idx: i64, is_async: bool) -> (r: u64)
    ensures
        (final(facts)@, r) == py_function_facts(old(facts)@, file_id, scope_id, *node, idx, is_async),
    decreases node, 2int,
{
    let name = field_text_of(node, "name");
    let f = facts.fresh_id();
    let loc = facts.emit_location(file_id, node);
    facts.emit("py_Functions", vals4(FactValue::Entity(f), text_value(name.as_str()), FactValue::Entity(scope_id), FactValue::Int(idx)));
    if is_async {
        let mut v: Vec<FactValue> = Vec::new();
        v.push(FactValue::Entity(f));
        assert(values_view(v@) =~= seq![ent(f)]);
        facts.emit("py_function_is_async", v);
    }
    facts.emit("hasLocation", entity_pair(f, loc));
    facts.emit("py_scope_nesting", entity_pair(f, scope_id));
    let p = field_pos(&node.children, "parameters");
    if p < node.children.len() {
        extract_parameters(facts, file_id, f, &node.children[p]);
    }
    extract_field_suite(facts, file_id, f, node, "body");
    f
}

/// Emits the class `node` at position `idx` of `scope_id` and returns its
/// id (`py_class_facts`).
pub fn extract_py_class(facts: &mut FactLog, file_id: u64, scope_id: u64, node: &SyntaxNode, idx: i64) -> (r: u64)
    ensures
        (final(facts)@, r) == py_class_facts(old(facts)@, file_id, scope_id, *node, idx),
    decreases node, 2int,
{
    let name = field_text_of(node, "name");
    let c = facts.fresh_id();
    let loc = facts.emit_location(file_id, node);
    facts.emit("py_Classes", vals4(FactValue::Entity(c), text_value(name.as_str()), FactValue::Entity(scope_id), FactValue::Int(idx)));
    facts.emit("hasLocation", entity_pair(c, loc));
    facts.emit("py_scope_nesting", entity_pair(c, scope_id));
    let sc = field_pos(&node.children, "superclasses");
    if sc < node.children.len() {
        extract_base_classes(facts, c, &node.children[sc]);
    }
    extract_field_suite(facts, file_id, c, node, "body");
    c
}

fn last_definition_pos(cs: &Vec<SyntaxNode>) -> (r: usize)
    ensures
        r == last_definition(cs@, 0, cs@.len() as int),
        r <= cs@.len(),
{
    let mut i: usize = 0;
    let mut found: usize = cs.len();
    proof {
        lemma_last_definition(cs@, 0, cs@.len() as int);
    }
    while i < cs.len()
        invariant
            i <= cs@.len(),
            found == cs@.len() || found < i,
            last_definition(cs@, i as int, found as int) == last_definition(cs@, 0, cs@.len() as int),
        decreases cs@.len() - i,
    {
        if str_eq(cs[i].kind.as_str(), "function_definition") || str_eq(cs[i].kind.as_str(), "class_definition") {
            found = i;
        }
        i = i + 1;
    }
    found
}

fn trimmed_decorator_text(text: &str) -> (r: String)
    ensures
        r@ == trim(trim_start_char(text@, '@')),
{
    let cs = chars_of(text);
    let a = trim_start_char_chars(cs.as_slice(), '@');
    let b = trim_chars(a.as_slice());
    string_of(b.as_slice())
}

/// Emits the decorated definition `node` at position `idx` of `scope_id`
/// (`decorated_facts`).
pub fn extract_decorated_definition(facts: &mut FactLog, file_id: u64, scope_id: u64, node: &SyntaxNode, idx: i64)
    ensures
        final(facts)@ == decorated_facts(old(facts)@, file_id, scope_id, *node, idx),
    decreases node, 2int,
{
    let cs = &node.children;
    let d = last_definition_pos(cs);
    if d < cs.len() {
        let def = if str_eq(cs[d].kind.as_str(), "function_definition") {
            let is_async = str_starts_with(node.text.as_str(), "@") && str_starts_with(cs[d].text.as_str(), "async ");
            extract_py_function(facts, file_id, scope_id, &cs[d], idx, is_async)
        } else {
            extract_py_class(facts, file_id, scope_id, &cs[d], idx)
        };
        let ghost start = facts@;
        let mut i: usize = 0;
        let mut k: i64 = 0;
        while i < cs.len()
            invariant
                cs@ == node.children@,
                i <= cs@.len(),
                py_decorators_from(facts@, file_id, def, cs@, i as int, k) == py_decorators_from(start, file_id, def, cs@, 0, 0),
            decreases cs@.len() - i,
        {
            let c = &cs[i];
            if str_eq(c.kind.as_str(), "decorator") {
                let dd = facts.fresh_id();
                let loc = facts.emit_location(file_id, c);
                let t = trimmed_decorator_text(c.text.as_str());
                facts.emit("py_decorators", vals4(FactValue::Entity(dd), FactValue::Entity(def), FactValue::Int(k), text_value(t.as_str())));
                facts.emit("hasLocation", entity_pair(dd, loc));
                k = next_pos(k);
            }
            i = i + 1;
        }
    }
}

/// Emits the statement `node` at position `idx` of `scope_id` and returns
/// its id (`py_stmt_facts`).
pub fn extract_py_stmt(facts: &mut FactLog, file_id: u64, scope_id: u64, node: &SyntaxNode, idx: i64) -> (r: Option<u64>)
    ensures
        (final(facts)@, r) == py_stmt_facts(old(facts)@, file_id, scope_id, *node, idx),
    decreases node, 2int,
{
    match py_statement_kind(node) {
        Some(k) => {
            let s = facts.fresh_id();
            let loc = facts.emit_location(file_id, node);
            facts.emit("py_stmts", ent_num_ent_num(s, k, scope_id, idx));
            facts.emit("hasLocation", entity_pair(s, loc));
            extract_py_stmt_body(facts, file_id, scope_id, node, s);
            Some(s)
        },
        None => None,
    }
}

fn extract_expr_stmt_parts(facts: &mut FactLog, file_id: u64, s: u64, node: &SyntaxNode)
    ensures
        final(facts)@ == expr_stmt_parts_from(old(facts)@, file_id, s, node.children@, 0, 0),
{
    let cs = &node.children;
    let ghost start = facts@;
    let mut i: usize = 0;
    let mut idx: i64 = 0;
    while i < cs.len()
        invariant
            cs@ == node.children@,
            i <= cs@.len(),
            expr_stmt_parts_from(facts@, file_id, s, cs@, i as int, idx) == expr_stmt_parts_from(start, file_id, s, cs@, 0, 0),
        decreases cs@.len() - i,
    {
        let c = &cs[i];
        if c.named {
            if str_eq(c.kind.as_str(), "assignment") || str_eq(c.kind.as_str(), "augmented_assignment") {
                extract_assignment_children(facts, file_id, s, c);
            } else {
                extract_py_expr(facts, file_id, s, c, idx);
                idx = next_pos(idx);
            }
        }
        i = i + 1;
    }
}

fn extract_declared_vars(facts: &mut FactLog, file_id: u64, scope_id: u64, node: &SyntaxNode)
    ensures
        final(facts)@ == declared_vars_from(old(facts)@, file_id, scope_id, node.children@, 0),
{
    let cs = &node.children;
    let ghost start = facts@;
    let mut i: usize = 0;
    while i < cs.len()
        invariant
            cs@ == node.children@,
            i <= cs@.len(),
            declared_vars_from(facts@, file_id, scope_id, cs@, i as int) == declared_vars_from(start, file_id, scope_id, cs@, 0),
        decreases cs@.len() - i,
    {
        let c = &cs[i];
        if str_eq(c.kind.as_str(), "identifier") {
            let v = facts.fresh_id();
            facts.emit("py_variables", entity_text_entity(v, c.text.as_str(), scope_id));
            let loc = facts.emit_location(file_id, c);
            facts.emit("hasLocation", entity_pair(v, loc));
        }
        i = i + 1;
    }
}

fn extract_py_stmt_body(facts: &mut FactLog, file_id: u64, scope_id: u64, node: &SyntaxNode, s: u64)
    ensures
        final(facts)@ == py_stmt_body_facts(old(facts)@, file_id, scope_id, *node, s),
    decreases node, 1int,
{
    let k = node.kind.as_str();
    if str_eq(k, "expression_statement") {
        extract_expr_stmt_parts(facts, file_id, s, node);
    } else if str_eq(k, "assignment") || str_eq(k, "augmented_assignment") {
        extract_assignment_children(facts, file_id, s, node);
    } else if str_eq(k, "return_statement") || str_eq(k, "raise_statement") {
        extract_named_zero(facts, file_id, s, node);
    } else if str_eq(k, "if_statement") {
        extract_py_field_expr(facts, file_id, s, node, "condition", 0);
        extract_field_suite(facts, file_id, scope_id, node, "consequence");
        extract_field_suite(facts, file_id, scope_id, node, "alternative");
    } else if str_eq(k, "for_statement") {
        extract_py_field_expr(facts, file_id, s, node, "left", 0);
        extract_py_field_expr(facts, file_id, s, node, "right", 1);
        extract_field_suite(facts, file_id, scope_id, node, "body");
    } else if str_eq(k, "while_statement") {
        extract_py_field_expr(facts, file_id, s, node, "condition", 0);
        extract_field_suite(facts, file_id, scope_id, node, "body");
    } else if str_eq(k, "with_statement") || str_eq(k, "try_statement") {
        extract_field_suite(facts, file_id, scope_id, node, "body");
    } else if str_eq(k, "assert_statement") || str_eq(k, "delete_statement") {
        extract_named_seq(facts, file_id, s, node, 0);
    } else if str_eq(k, "global_statement") || str_eq(k, "nonlocal_statement") {
        extract_declared_vars(facts, file_id, scope_id, node);
    }
}

/// Emits the parts of the assignment `node` under `parent_id`
/// (`assignment_facts`).
pub fn extract_assignment_children(facts: &mut FactLog, file_id: u64, parent_id: u64, node: &SyntaxNode)
    ensures
        final(facts)@ == assignment_facts(old(facts)@, file_id, parent_id, *node),
    decreases node, 1int,
{
    let lk = field_pos(&node.children, "left");
    if lk < node.children.len() {
        let left = &node.children[lk];
        extract_py_expr(facts, file_id, parent_id, left, 0);
        if str_eq(left.kind.as_str(), "identifier") {
            let v = facts.fresh_id();
            facts.emit("py_variables", entity_text_entity(v, left.text.as_str(), parent_id));
        }
    }
    extract_py_field_expr(facts, file_id, parent_id, node, "right", 1);
}

fn extract_py_field_expr(facts: &mut FactLog, file_id: u64, parent_id: u64, node: &SyntaxNode, f: &str, idx: i64)
    ensures
        final(facts)@ == py_field_expr(old(facts)@, file_id, parent_id, *node, f@, idx),
    decreases node, 0int,
{
    let k = field_pos(&node.children, f);
    if k < node.children.len() {
        extract_py_expr(facts, file_id, parent_id, &node.children[k], idx);
    }
}

fn extract_named_zero(facts: &mut FactLog, file_id: u64, parent_id: u64, node: &SyntaxNode)
    ensures
        final(facts)@ == py_named_zero(old(facts)@, file_id, parent_id, *node),
    decreases node, 0int,
{
    let cs = &node.children;
    let ghost start = facts@;
    let mut i: usize = 0;
    while i < cs.len()
        invariant
            cs@ == node.children@,
            i <= cs@.len(),
            named_zero_from(facts@, file_id, parent_id, cs@, i as int) == named_zero_from(start, file_id, parent_id, cs@, 0),
        decreases cs@.len() - i,
    {
        if cs[i].named {
            extract_py_expr(facts, file_id, parent_id, &cs[i], 0);
        }
        i = i + 1;
    }
}

fn extract_named_seq(facts: &mut FactLog, file_id: u64, parent_id: u64, node: &SyntaxNode, first: i64)
    ensures
        final(facts)@ == py_named_seq(old(facts)@, file_id, parent_id, *node, first),
    decreases node, 0int,
{
    let cs = &node.children;
    let ghost start = facts@;
    let mut i: usize = 0;
    let mut idx: i64 = first;
    while i < cs.len()
        invariant
            cs@ == node.children@,
            i <= cs@.len(),
            named_seq_from(facts@, file_id, parent_id, cs@, i as int, idx) == named_seq_from(start, file_id, parent_id, cs@, 0, first),
        decreases cs@.len() - i,
    {
        if cs[i].named {
            extract_py_expr(facts, file_id, parent_id, &cs[i], idx);
            idx = next_pos(idx);
        }
        i = i + 1;
    }
}

fn extract_py_first_named(facts: &mut FactLog, file_id: u64, parent_id: u64, node: &SyntaxNode)
    ensures
        final(facts)@ == py_first_named(old(facts)@, file_id, parent_id, *node),
    decreases node, 0int,
{
    let c = first_named_pos(&node.children);
    if c < node.children.len() {
        extract_py_expr(facts, file_id, parent_id, &node.children[c], 0);
    }
}

fn extract_py_args(facts: &mut FactLog, file_id: u64, e: u64, node: &SyntaxNode)
    ensures
        final(facts)@ == py_args_facts(old(facts)@, file_id, e, *node),
    decreases node, 0int,
{
    let a = field_pos(&node.children, "arguments");
    if a < node.children.len() {
        extract_named_seq(facts, file_id, e, &node.children[a], 1);
    }
}

fn emit_name_of_field(facts: &mut FactLog, e: u64, node: &SyntaxNode, f: &str)
    ensures
        final(facts)@ == match field_opt_text(*node, f@) {
            Some(t) => row(old(facts)@, "py_expr_names"@, seq![ent(e), txt(t)]),
            None => old(facts)@,
        },
{
    match field_opt_text_of(node, f) {
        Some(t) => facts.emit("py_expr_names", vals2(FactValue::Entity(e), text_value(t.as_str()))),
        None => {},
    }
}

/// Emits the expression `node` at position `idx` under `parent_id` and
/// returns its id (`py_expr_facts`).
pub fn extract_py_expr(facts: &mut FactLog, file_id: u64, parent_id: u64, node: &SyntaxNode, idx: i64) -> (r: Option<u64>)
    ensures
        (final(facts)@, r) == py_expr_facts(old(facts)@, file_id, parent_id, *node, idx),
    decreases node, 2int,
{
    match classify_py_expression(node) {
        ExprClass::Unwrap => {
            let c = first_named_pos(&node.children);
            if c < node.children.len() {
                extract_py_expr(facts, file_id, parent_id, &node.children[c], idx)
            } else {
                None
            }
        },
        ExprClass::Kind(ek) => {
            let e = facts.fresh_id();
            let loc = facts.emit_location(file_id, node);
            facts.emit("py_exprs", ent_num_ent_num(e, ek, parent_id, idx));
            facts.emit("hasLocation", entity_pair(e, loc));
            let k = node.kind.as_str();
            if str_eq(k, "identifier") {
                facts.emit("py_expr_names", vals2(FactValue::Entity(e), text_value(node.text.as_str())));
            }
            if str_eq(k, "integer") || str_eq(k, "float") || str_eq(k, "string") || str_eq(k, "none") || str_eq(k, "true")
                || str_eq(k, "false") {
                facts.emit("py_expr_values", vals2(FactValue::Entity(e), text_value(node.text.as_str())));
            }
            extract_py_expr_body(facts, file_id, node, e);
            Some(e)
        },
        _ => None,
    }
}

fn extract_py_expr_body(facts: &mut FactLog, file_id: u64, node: &SyntaxNode, e: u64)
    ensures
        final(facts)@ == py_expr_body_facts(old(facts)@, file_id, *node, e),
    decreases node, 1int,
{
    let k = node.kind.as_str();
    if str_eq(k, "call") {
        extract_py_field_expr(facts, file_id, e, node, "function", 0);
        extract_py_args(facts, file_id, e, node);
    } else if str_eq(k, "attribute") {
        extract_py_field_expr(facts, file_id, e, node, "object", 0);
        emit_name_of_field(facts, e, node, "attribute");
    } else if str_eq(k, "binary_operator") || str_eq(k, "boolean_operator") {
        extract_py_field_expr(facts, file_id, e, node, "left", 0);
        extract_py_field_expr(facts, file_id, e, node, "right", 1);
    } else if str_eq(k, "unary_operator") {
        extract_py_field_expr(facts, file_id, e, node, "argument", 0);
    } else if str_eq(k, "comparison_operator") || str_eq(k, "conditional_expression") || str_eq(k, "list") || str_eq(k, "tuple")
        || str_eq(k, "set") || str_eq(k, "dictionary") || str_eq(k, "slice") || str_eq(k, "concatenated_string") {
        extract_named_seq(facts, file_id, e, node, 0);
    } else if str_eq(k, "subscript") {
        extract_py_field_expr(facts, file_id, e, node, "value", 0);
        extract_py_field_expr(facts, file_id, e, node, "subscript", 1);
    } else if str_eq(k, "starred_expression") || str_eq(k, "await") || str_eq(k, "yield") {
        extract_py_first_named(facts, file_id, e, node);
    } else if str_eq(k, "named_expression") {
        extract_py_field_expr(facts, file_id, e, node, "name", 0);
        extract_py_field_expr(facts, file_id, e, node, "value", 1);
    } else if str_eq(k, "lambda") {
        extract_py_field_expr(facts, file_id, e, node, "body", 0);
    } else if str_eq(k, "pair") {
        extract_py_field_expr(facts, file_id, e, node, "key", 0);
        extract_py_field_expr(facts, file_id, e, node, "value", 1);
    } else if str_eq(k, "keyword_argument") {
        emit_name_of_field(facts, e, node, "name");
        extract_py_field_expr(facts, file_id, e, node, "value", 0);
    }
}

/// Emits the module `root` of the file `file_id` (`py_module_facts`).
pub fn extract_module(facts: &mut FactLog, file_id: u64, root: &SyntaxNode)
    ensures
        final(facts)@ == py_module_facts(old(facts)@, file_id, *root),
{
    let m = facts.fresh_id();
    facts.emit("py_Modules", vals4(FactValue::Entity(m), FactValue::Int(0), text_value("<module>"), FactValue::Entity(file_id)));
    let loc = facts.emit_location(file_id, root);
    facts.emit("hasLocation", entity_pair(m, loc));
    extract_body(facts, file_id, m, root);
}

} // verus!
