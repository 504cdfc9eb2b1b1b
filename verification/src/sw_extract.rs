//! The Swift extraction walk over syntax trees: imports, type
//! declarations with their modifiers, attributes, inheritance, generics
//! and bodies, functions, initializers, subscripts, properties, statements
//! and expressions, each with its location, recorded in a fact log.

use vstd::prelude::*;
use crate::syntax::{SyntaxNode, type_keyword_from, declaration_name, extension_type_from, pattern_name,
    type_annotation, annotation_text, kind_count, find_type_keyword, find_declaration_name,
    find_extension_type_name, find_pattern_name, find_type_annotation, extract_type_annotation_text,
    count_preceding_siblings_of_kind};
use crate::extractors::{ExprClass, swift_expr_class, swift_stmt_kind, classify_swift_expression,
    swift_statement_kind, swift_modifier, is_swift_modifier};
use crate::js_extract::{FactLog, LogView, alloc_id, location_of, row, ent, num, txt, next_index, field_index,
    first_named, entity_pair, field_pos, first_named_pos, next_pos,
    FactValue, values_view, decorator_name, decorator_name_of};
use crate::py_extract::{strip_prefixes, strip_prefixes_of};
use crate::text::{copy_str, str_eq, chars_of, string_of, trim, trim_chars, str_contains, contains_sub};

verus! {

fn sv(s: &str) -> (r: FactValue)
    ensures
        r@ == txt(s@),
{
    FactValue::Str(copy_str(s))
}

fn sv2(a: FactValue, b: FactValue) -> (r: Vec<FactValue>)
    ensures
        values_view(r@) == seq![a@, b@],
{
    let mut r: Vec<FactValue> = Vec::new();
    r.push(a);
    r.push(b);
    assert(values_view(r@) =~= seq![a@, b@]);
    r
}

fn sv3(a: FactValue, b: FactValue, c: FactValue) -> (r: Vec<FactValue>)
    ensures
        values_view(r@) == seq![a@, b@, c@],
{
    let mut r: Vec<FactValue> = Vec::new();
    r.push(a);
    r.push(b);
    r.push(c);
    assert(values_view(r@) =~= seq![a@, b@, c@]);
    r
}

fn sv4(a: FactValue, b: FactValue, c: FactValue, d: FactValue) -> (r: Vec<FactValue>)
    ensures
        values_view(r@) == seq![a@, b@, c@, d@],
{
    let mut r: Vec<FactValue> = Vec::new();
    r.push(a);
    r.push(b);
    r.push(c);
    r.push(d);
    assert(values_view(r@) =~= seq![a@, b@, c@, d@]);
    r
}

/// An entity at the next id with a row of `relation` (the id, then
/// `vals`) and its location at `n`.
pub open spec fn sw_located(log: LogView, file: u64, n: SyntaxNode, relation: Seq<char>, vals: Seq<crate::js_extract::ValueView>) -> LogView {
    let x = log.0;
    let l1 = alloc_id(log);
    let loc = l1.0;
    let l2 = location_of(l1, file, n);
    let l3 = row(l2, relation, seq![ent(x)] + vals);
    row(l3, "hasLocation"@, seq![ent(x), ent(loc)])
}

fn sw_emit_located(facts: &mut FactLog, file_id: u64, n: &SyntaxNode, relation: &str, rest: Vec<FactValue>) -> (x: u64)
    ensures
        x == old(facts)@.0,
        final(facts)@ == sw_located(old(facts)@, file_id, *n, relation@, values_view(rest@)),
{
    let x = facts.fresh_id();
    let loc = facts.emit_location(file_id, n);
    let mut vs: Vec<FactValue> = Vec::new();
    vs.push(FactValue::Entity(x));
    let mut rest = rest;
    let ghost all = rest@;
    let mut taken: Vec<FactValue> = Vec::new();
    assert(values_view(vs@) =~= seq![ent(x)] + values_view(all).take(0));
    let mut i: usize = 0;
    let n: usize = rest.len();
    while rest.len() > 0
        invariant
            n == all.len(),
            i + rest@.len() == all.len(),
            rest@ == all.skip(i as int),
            values_view(vs@) =~= seq![ent(x)] + values_view(all).take(i as int),
        decreases rest@.len(),
    {
        let v = rest.remove(0);
        let ghost before = vs@;
        assert(v == all[i as int]);
        vs.push(v);
        assert(values_view(vs@) =~= values_view(before).push(all[i as int]@));
        assert(values_view(all).take(i + 1) =~= values_view(all).take(i as int).push(all[i as int]@));
        assert(rest@ =~= all.skip(i + 1));
        i = i + 1;
    }
    assert(values_view(all).take(all.len() as int) =~= values_view(all));
    facts.emit(relation, vs);
    facts.emit("hasLocation", entity_pair(x, loc));
    x
}

// ---------------------------------------------------------------------------
// Leaves
// ---------------------------------------------------------------------------

/// The comment `n`: its row with its text and its location.
pub open spec fn sw_comment_facts(log: LogView, file: u64, n: SyntaxNode) -> LogView {
    let c = log.0;
    let l1 = alloc_id(log);
    let loc = l1.0;
    let l2 = location_of(l1, file, n);
    row(l2, "swift_comments"@, seq![ent(c), txt(n.text@), ent(loc)])
}

fn extract_sw_comment(facts: &mut FactLog, file_id: u64, node: &SyntaxNode)
    ensures
        final(facts)@ == sw_comment_facts(old(facts)@, file_id, *node),
{
    let c = facts.fresh_id();
    let loc = facts.emit_location(file_id, node);
    facts.emit("swift_comments", sv3(FactValue::Entity(c), sv(node.text.as_str()), FactValue::Entity(loc)));
}

/// Whether an import names a single declaration (`import class ...` and
/// the like) rather than a module.
pub open spec fn type_import(t: Seq<char>) -> bool {
    ||| contains_sub(t, "import class "@) ||| contains_sub(t, "import struct "@) ||| contains_sub(t, "import enum "@)
    ||| contains_sub(t, "import protocol "@) ||| contains_sub(t, "import func "@) ||| contains_sub(t, "import var "@)
    ||| contains_sub(t, "import let "@) ||| contains_sub(t, "import typealias "@)
}

/// The path an import names: its text without the leading `import `s and
/// then the leading declaration keywords, in turn, trimmed.
pub open spec fn import_path_text(t: Seq<char>) -> Seq<char> {
    let a = strip_prefixes(t, "import "@);
    let b = strip_prefixes(a, "class "@);
    let c = strip_prefixes(b, "struct "@);
    let d = strip_prefixes(c, "enum "@);
    let e = strip_prefixes(d, "protocol "@);
    let f = strip_prefixes(e, "func "@);
    let g = strip_prefixes(f, "var "@);
    let h = strip_prefixes(g, "let "@);
    trim(strip_prefixes(h, "typealias "@))
}

/// The import `n`: its row with its path and kind, then its location.
pub open spec fn sw_import_facts(log: LogView, file: u64, n: SyntaxNode) -> LogView {
    let i = log.0;
    let l1 = row(alloc_id(log), "swift_imports"@, seq![ent(i), txt(import_path_text(n.text@)), num(if type_import(n.text@) { 1 } else { 0 })]);
    let loc = l1.0;
    let l2 = location_of(l1, file, n);
    row(l2, "hasLocation"@, seq![ent(i), ent(loc)])
}

fn extract_sw_import(facts: &mut FactLog, file_id: u64, node: &SyntaxNode)
    ensures
        final(facts)@ == sw_import_facts(old(facts)@, file_id, *node),
{
    let t = node.text.as_str();
    let kind: i64 = if str_contains(t, "import class ") || str_contains(t, "import struct ") || str_contains(t, "import enum ")
        || str_contains(t, "import protocol ") || str_contains(t, "import func ") || str_contains(t, "import var ")
        || str_contains(t, "import let ") || str_contains(t, "import typealias ") {
        1
    } else {
        0
    };
    let a = strip_prefixes_of(t, "import ");
    let b = strip_prefixes_of(a.as_str(), "class ");
    let c = strip_prefixes_of(b.as_str(), "struct ");
    let d = strip_prefixes_of(c.as_str(), "enum ");
    let e = strip_prefixes_of(d.as_str(), "protocol ");
    let f = strip_prefixes_of(e.as_str(), "func ");
    let g = strip_prefixes_of(f.as_str(), "var ");
    let h = strip_prefixes_of(g.as_str(), "let ");
    let k = strip_prefixes_of(h.as_str(), "typealias ");
    let path = string_of(trim_chars(chars_of(k.as_str()).as_slice()).as_slice());
    let i = facts.fresh_id();
    facts.emit("swift_imports", sv3(FactValue::Entity(i), sv(path.as_str()), FactValue::Int(kind)));
    let loc = facts.emit_location(file_id, node);
    facts.emit("hasLocation", entity_pair(i, loc));
}

/// A modifier `m` of `parent`: its trimmed text, when that is a Swift
/// modifier, recorded with a link from `parent`.
pub open spec fn modifier_facts(log: LogView, m: SyntaxNode, parent: u64) -> LogView {
    let t = trim(m.text@);
    if t.len() > 0 && swift_modifier(t) {
        let id = log.0;
        let l1 = row(alloc_id(log), "swift_modifiers"@, seq![ent(id), txt(t)]);
        row(l1, "swift_hasModifier"@, seq![ent(parent), ent(id)])
    } else {
        log
    }
}

fn emit_modifier(facts: &mut FactLog, m: &SyntaxNode, parent_id: u64)
    ensures
        final(facts)@ == modifier_facts(old(facts)@, *m, parent_id),
{
    let t = string_of(trim_chars(chars_of(m.text.as_str()).as_slice()).as_slice());
    if chars_of(t.as_str()).len() > 0 && is_swift_modifier(t.as_str()) {
        let id = facts.fresh_id();
        facts.emit("swift_modifiers", sv2(FactValue::Entity(id), sv(t.as_str())));
        facts.emit("swift_hasModifier", entity_pair(parent_id, id));
    }
}

/// The kinds of the modifiers inside a `modifiers` node.
pub open spec fn modifier_kind(k: Seq<char>) -> bool {
    ||| k == "modifier"@ ||| k == "property_modifier"@ ||| k == "member_modifier"@ ||| k == "function_modifier"@
    ||| k == "visibility_modifier"@ ||| k == "ownership_modifier"@ ||| k == "inheritance_modifier"@
}

pub open spec fn modifiers_children_from(log: LogView, cs: Seq<SyntaxNode>, i: int, parent: u64) -> LogView
    decreases cs.len() - i,
{
    if 0 <= i < cs.len() {
        let l = if modifier_kind(cs[i].kind@) { modifier_facts(log, cs[i], parent) } else { log };
        modifiers_children_from(l, cs, i + 1, parent)
    } else {
        log
    }
}

/// The modifiers of `n` among `cs[i]`, ...: a `modifiers` node gives its
/// modifiers and ends the search; a lone `modifier` gives itself.
pub open spec fn modifiers_on_from(log: LogView, cs: Seq<SyntaxNode>, i: int, parent: u64) -> LogView
    decreases cs.len() - i,
{
    if 0 <= i < cs.len() {
        if cs[i].kind@ == "modifiers"@ {
            modifiers_children_from(log, cs[i].children@, 0, parent)
        } else {
            let l = if cs[i].kind@ == "modifier"@ { modifier_facts(log, cs[i], parent) } else { log };
            modifiers_on_from(l, cs, i + 1, parent)
        }
    } else {
        log
    }
}

fn extract_modifiers_on(facts: &mut FactLog, node: &SyntaxNode, parent_id: u64)
    ensures
        final(facts)@ == modifiers_on_from(old(facts)@, node.children@, 0, parent_id),
{
    let cs = &node.children;
    let ghost start = facts@;
    let mut i: usize = 0;
    while i < cs.len()
        invariant
            cs@ == node.children@,
            start == old(facts)@,
            i <= cs@.len(),
            modifiers_on_from(facts@, cs@, i as int, parent_id) == modifiers_on_from(start, cs@, 0, parent_id),
        decreases cs@.len() - i,
    {
        let c = &cs[i];
        if str_eq(c.kind.as_str(), "modifiers") {
            let ms = &c.children;
            let ghost s2 = facts@;
            let mut j: usize = 0;
            while j < ms.len()
                invariant
                    ms@ == c.children@,
                    start == old(facts)@,
                    i < cs@.len(),
                    cs@ == node.children@,
                    cs@[i as int].kind@ == "modifiers"@,
                    cs@[i as int].children@ == ms@,
                    modifiers_on_from(s2, cs@, i as int, parent_id) == modifiers_on_from(start, cs@, 0, parent_id),
                    j <= ms@.len(),
                    modifiers_children_from(facts@, ms@, j as int, parent_id) == modifiers_children_from(s2, ms@, 0, parent_id),
                decreases ms@.len() - j,
            {
                let k = ms[j].kind.as_str();
                if str_eq(k, "modifier") || str_eq(k, "property_modifier") || str_eq(k, "member_modifier") || str_eq(
                    k,
                    "function_modifier",
                ) || str_eq(k, "visibility_modifier") || str_eq(k, "ownership_modifier") || str_eq(k, "inheritance_modifier") {
                    emit_modifier(facts, &ms[j], parent_id);
                }
                j = j + 1;
            }
            assert(modifiers_on_from(s2, cs@, i as int, parent_id) == modifiers_children_from(s2, ms@, 0, parent_id));
            assert(modifiers_children_from(facts@, ms@, ms@.len() as int, parent_id) == facts@);
            return;
        }
        if str_eq(c.kind.as_str(), "modifier") {
            emit_modifier(facts, c, parent_id);
        }
        i = i + 1;
    }
}

/// An attribute `a` of `parent`: its name (the text after the leading `@`s
/// up to a parenthesis, trimmed), when not empty, with its location.
pub open spec fn attribute_facts(log: LogView, file: u64, a: SyntaxNode, parent: u64) -> LogView {
    let name = trim(decorator_name(a.text@));
    if name.len() > 0 { sw_located(log, file, a, "swift_attributes"@, seq![txt(name), ent(parent)]) } else { log }
}

fn emit_attribute(facts: &mut FactLog, file_id: u64, a: &SyntaxNode, parent_id: u64)
    ensures
        final(facts)@ == attribute_facts(old(facts)@, file_id, *a, parent_id),
{
    let d = decorator_name_of(a.text.as_str());
    let name = string_of(trim_chars(chars_of(d.as_str()).as_slice()).as_slice());
    if chars_of(name.as_str()).len() > 0 {
        sw_emit_located(facts, file_id, a, "swift_attributes", sv2(sv(name.as_str()), FactValue::Entity(parent_id)));
    }
}

pub open spec fn attrs_in_from(log: LogView, file: u64, cs: Seq<SyntaxNode>, i: int, parent: u64) -> LogView
    decreases cs.len() - i,
{
    if 0 <= i < cs.len() {
        let l = if cs[i].kind@ == "attribute"@ { attribute_facts(log, file, cs[i], parent) } else { log };
        attrs_in_from(l, file, cs, i + 1, parent)
    } else {
        log
    }
}

/// The attributes among `cs[i]`, ... of `parent`, and those inside a
/// `modifiers` node among them.
pub open spec fn attrs_on_from(log: LogView, file: u64, cs: Seq<SyntaxNode>, i: int, parent: u64) -> LogView
    decreases cs.len() - i,
{
    if 0 <= i < cs.len() {
        let l1 = if cs[i].kind@ == "attribute"@ { attribute_facts(log, file, cs[i], parent) } else { log };
        let l2 = if cs[i].kind@ == "modifiers"@ { attrs_in_from(l1, file, cs[i].children@, 0, parent) } else { l1 };
        attrs_on_from(l2, file, cs, i + 1, parent)
    } else {
        log
    }
}

fn extract_attributes_on(facts: &mut FactLog, file_id: u64, node: &SyntaxNode, parent_id: u64)
    ensures
        final(facts)@ == attrs_on_from(old(facts)@, file_id, node.children@, 0, parent_id),
{
    let cs = &node.children;
    let ghost start = facts@;
    let mut i: usize = 0;
    while i < cs.len()
        invariant
            cs@ == node.children@,
            i <= cs@.len(),
            attrs_on_from(facts@, file_id, cs@, i as int, parent_id) == attrs_on_from(start, file_id, cs@, 0, parent_id),
        decreases cs@.len() - i,
    {
        let c = &cs[i];
        if str_eq(c.kind.as_str(), "attribute") {
            emit_attribute(facts, file_id, c, parent_id);
        }
        if str_eq(c.kind.as_str(), "modifiers") {
            let ms = &c.children;
            let ghost s2 = facts@;
            let mut j: usize = 0;
            while j < ms.len()
                invariant
                    ms@ == c.children@,
                    j <= ms@.len(),
                    attrs_in_from(facts@, file_id, ms@, j as int, parent_id) == attrs_in_from(s2, file_id, ms@, 0, parent_id),
                decreases ms@.len() - j,
            {
                if str_eq(ms[j].kind.as_str(), "attribute") {
                    emit_attribute(facts, file_id, &ms[j], parent_id);
                }
                j = j + 1;
            }
        }
        i = i + 1;
    }
}

/// Whether a kind ends with `_declaration`.
pub open spec fn declaration_kind(k: Seq<char>) -> bool {
    k.len() >= 12 && k.subrange(k.len() - 12, k.len() as int) == "_declaration"@
}

fn is_declaration_kind(k: &str) -> (r: bool)
    ensures
        r == declaration_kind(k@),
{
    let cs = chars_of(k);
    let suffix = chars_of("_declaration");
    proof {
        reveal_strlit("_declaration");
    }
    if cs.len() < 12 {
        return false;
    }
    let n: usize = cs.len();
    let start = n - 12;
    let mut j: usize = 0;
    while j < 12
        invariant
            n == cs@.len(),
            cs@ == k@,
            suffix@ == "_declaration"@,
            suffix@.len() == 12,
            cs@.len() >= 12,
            start == cs@.len() - 12,
            j <= 12,
            forall|m: int| 0 <= m < j ==> cs@[start + m] == suffix@[m],
        decreases 12 - j,
    {
        if cs[start + j] != suffix[j] {
            assert(cs@.subrange(start as int, cs@.len() as int)[j as int] != "_declaration"@[j as int]);
            return false;
        }
        j = j + 1;
    }
    assert(cs@.subrange(start as int, cs@.len() as int) =~= "_declaration"@);
    true
}

/// The supertypes named by an inheritance node `c` of `t`: for an
/// inheritance specifier, each named child other than `,` and `:`, by
/// position; another node by its whole text at position 0.
pub open spec fn inh_spec_facts(log: LogView, c: SyntaxNode, t: u64) -> LogView {
    if c.kind@ == "inheritance_specifier"@ {
        inh_from(log, c.children@, 0, t, 0)
    } else if c.text@.len() > 0 {
        row(log, "swift_type_inheritance"@, seq![ent(t), txt(c.text@), num(0)])
    } else {
        log
    }
}

pub open spec fn inh_from(log: LogView, cs: Seq<SyntaxNode>, i: int, t: u64, idx: i64) -> LogView
    decreases cs.len() - i,
{
    if 0 <= i < cs.len() {
        let c = cs[i];
        if c.named && c.kind@ != ","@ && c.text@.len() > 0 && c.text@ != ":"@ {
            inh_from(row(log, "swift_type_inheritance"@, seq![ent(t), txt(c.text@), num(idx)]), cs, i + 1, t, next_index(idx))
        } else {
            inh_from(log, cs, i + 1, t, idx)
        }
    } else {
        log
    }
}

fn extract_inheritance_specifier(facts: &mut FactLog, c: &SyntaxNode, t: u64)
    ensures
        final(facts)@ == inh_spec_facts(old(facts)@, *c, t),
{
    if str_eq(c.kind.as_str(), "inheritance_specifier") {
        let cs = &c.children;
        let ghost start = facts@;
        let mut i: usize = 0;
        let mut idx: i64 = 0;
        while i < cs.len()
            invariant
                cs@ == c.children@,
                i <= cs@.len(),
                inh_from(facts@, cs@, i as int, t, idx) == inh_from(start, cs@, 0, t, 0),
            decreases cs@.len() - i,
        {
            let x = &cs[i];
            if x.named && !str_eq(x.kind.as_str(), ",") && chars_of(x.text.as_str()).len() > 0 && !str_eq(x.text.as_str(), ":") {
                facts.emit("swift_type_inheritance", sv3(FactValue::Entity(t), sv(x.text.as_str()), FactValue::Int(idx)));
                idx = next_pos(idx);
            }
            i = i + 1;
        }
    } else if chars_of(c.text.as_str()).len() > 0 {
        facts.emit("swift_type_inheritance", sv3(FactValue::Entity(t), sv(c.text.as_str()), FactValue::Int(0)));
    }
}

/// The inheritance of the type declaration `n` (id `t`) from its children
/// `cs[i]`, ...: a specifier, type identifier or user type is read when
/// `n` is a specifier or a declaration, and a specifier once more.
pub open spec fn inheritance_from(log: LogView, n: SyntaxNode, cs: Seq<SyntaxNode>, i: int, t: u64) -> LogView
    decreases cs.len() - i,
{
    if 0 <= i < cs.len() {
        let c = cs[i];
        let k = c.kind@;
        let l1 = if (k == "inheritance_specifier"@ || k == "type_identifier"@ || k == "user_type"@) && (n.kind@
            == "inheritance_specifier"@ || declaration_kind(n.kind@)) {
            inh_spec_facts(log, c, t)
        } else {
            log
        };
        let l2 = if k == "inheritance_specifier"@ { inh_spec_facts(l1, c, t) } else { l1 };
        inheritance_from(l2, n, cs, i + 1, t)
    } else {
        log
    }
}

fn extract_inheritance(facts: &mut FactLog, node: &SyntaxNode, t: u64)
    ensures
        final(facts)@ == inheritance_from(old(facts)@, *node, node.children@, 0, t),
{
    let cs = &node.children;
    let own = str_eq(node.kind.as_str(), "inheritance_specifier") || is_declaration_kind(node.kind.as_str());
    let ghost start = facts@;
    let mut i: usize = 0;
    while i < cs.len()
        invariant
            cs@ == node.children@,
            own == (node.kind@ == "inheritance_specifier"@ || declaration_kind(node.kind@)),
            i <= cs@.len(),
            inheritance_from(facts@, *node, cs@, i as int, t) == inheritance_from(start, *node, cs@, 0, t),
        decreases cs@.len() - i,
    {
        let c = &cs[i];
        let k = c.kind.as_str();
        if (str_eq(k, "inheritance_specifier") || str_eq(k, "type_identifier") || str_eq(k, "user_type")) && own {
            extract_inheritance_specifier(facts, c, t);
        }
        if str_eq(k, "inheritance_specifier") {
            extract_inheritance_specifier(facts, c, t);
        }
        i = i + 1;
    }
}

/// The name of a type parameter node: a type parameter's first child (or
/// its own text when it has none), an identifier's text.
pub open spec fn generic_name(c: SyntaxNode) -> Seq<char> {
    if c.kind@ == "type_parameter"@ {
        if c.children@.len() > 0 { c.children@[0].text@ } else { c.text@ }
    } else {
        c.text@
    }
}

pub open spec fn type_params_from(log: LogView, file: u64, cs: Seq<SyntaxNode>, i: int, parent: u64, idx: i64) -> LogView
    decreases cs.len() - i,
{
    if 0 <= i < cs.len() {
        let c = cs[i];
        if (c.kind@ == "type_parameter"@ || c.kind@ == "simple_identifier"@) && generic_name(c).len() > 0 {
            let l = sw_located(log, file, c, "swift_generics"@, seq![txt(generic_name(c)), num(idx), ent(parent)]);
            type_params_from(l, file, cs, i + 1, parent, next_index(idx))
        } else {
            type_params_from(log, file, cs, i + 1, parent, idx)
        }
    } else {
        log
    }
}

/// The generic parameters of `parent` in each `type_parameters` child
/// among `cs[i]`, ..., each list numbered from 0.
pub open spec fn generics_from(log: LogView, file: u64, cs: Seq<SyntaxNode>, i: int, parent: u64) -> LogView
    decreases cs.len() - i,
{
    if 0 <= i < cs.len() {
        let l = if cs[i].kind@ == "type_parameters"@ { type_params_from(log, file, cs[i].children@, 0, parent, 0) } else { log };
        generics_from(l, file, cs, i + 1, parent)
    } else {
        log
    }
}

fn extract_generic_parameters(facts: &mut FactLog, file_id: u64, node: &SyntaxNode, parent_id: u64)
    ensures
        final(facts)@ == generics_from(old(facts)@, file_id, node.children@, 0, parent_id),
{
    let cs = &node.children;
    let ghost start = facts@;
    let mut i: usize = 0;
    while i < cs.len()
        invariant
            cs@ == node.children@,
            i <= cs@.len(),
            generics_from(facts@, file_id, cs@, i as int, parent_id) == generics_from(start, file_id, cs@, 0, parent_id),
        decreases cs@.len() - i,
    {
        if str_eq(cs[i].kind.as_str(), "type_parameters") {
            let ps = &cs[i].children;
            let ghost s2 = facts@;
            let mut j: usize = 0;
            let mut idx: i64 = 0;
            while j < ps.len()
                invariant
                    ps@ == cs@[i as int].children@,
                    j <= ps@.len(),
                    type_params_from(facts@, file_id, ps@, j as int, parent_id, idx) == type_params_from(s2, file_id, ps@, 0, parent_id, 0),
                decreases ps@.len() - j,
            {
                let c = &ps[j];
                let name = if str_eq(c.kind.as_str(), "type_parameter") {
                    if c.children.len() > 0 { copy_str(c.children[0].text.as_str()) } else { copy_str(c.text.as_str()) }
                } else {
                    copy_str(c.text.as_str())
                };
                if (str_eq(c.kind.as_str(), "type_parameter") || str_eq(c.kind.as_str(), "simple_identifier")) && chars_of(name.as_str()).len() > 0 {
                    sw_emit_located(facts, file_id, c, "swift_generics", sv3(sv(name.as_str()), FactValue::Int(idx), FactValue::Entity(parent_id)));
                    idx = next_pos(idx);
                }
                j = j + 1;
            }
        }
        i = i + 1;
    }
}

/// The where clauses and type constraints among `cs[i]`, ... of `parent`,
/// each by its text with its location.
pub open spec fn where_from(log: LogView, file: u64, cs: Seq<SyntaxNode>, i: int, parent: u64) -> LogView
    decreases cs.len() - i,
{
    if 0 <= i < cs.len() {
        let k = cs[i].kind@;
        let l = if k == "type_constraint"@ || k == "where_clause"@ || k == "generic_where_clause"@ {
            sw_located(log, file, cs[i], "swift_where_clauses"@, seq![txt(cs[i].text@), ent(parent)])
        } else {
            log
        };
        where_from(l, file, cs, i + 1, parent)
    } else {
        log
    }
}

fn extract_where_clause(facts: &mut FactLog, file_id: u64, node: &SyntaxNode, parent_id: u64)
    ensures
        final(facts)@ == where_from(old(facts)@, file_id, node.children@, 0, parent_id),
{
    let cs = &node.children;
    let ghost start = facts@;
    let mut i: usize = 0;
    while i < cs.len()
        invariant
            cs@ == node.children@,
            i <= cs@.len(),
            where_from(facts@, file_id, cs@, i as int, parent_id) == where_from(start, file_id, cs@, 0, parent_id),
        decreases cs@.len() - i,
    {
        let k = cs[i].kind.as_str();
        if str_eq(k, "type_constraint") || str_eq(k, "where_clause") || str_eq(k, "generic_where_clause") {
            sw_emit_located(facts, file_id, &cs[i], "swift_where_clauses", sv2(sv(cs[i].text.as_str()), FactValue::Entity(parent_id)));
        }
        i = i + 1;
    }
}

/// A parameter `p`'s name and type: its last identifier and the text of
/// its last type annotation (`unknown` when it has none).
pub open spec fn param_parts_from(cs: Seq<SyntaxNode>, i: int, name: Seq<char>, ty: Seq<char>) -> (Seq<char>, Seq<char>)
    decreases cs.len() - i,
{
    if 0 <= i < cs.len() {
        if cs[i].kind@ == "simple_identifier"@ {
            param_parts_from(cs, i + 1, cs[i].text@, ty)
        } else if cs[i].kind@ == "type_annotation"@ {
            param_parts_from(cs, i + 1, name, annotation_text(cs[i].text@))
        } else {
            param_parts_from(cs, i + 1, name, ty)
        }
    } else {
        (name, ty)
    }
}

/// A parameter `p` at the `pos`-th place among the parameters of its
/// parent, of `callable`: with a non-empty name, its row with its name,
/// type and place, and its location.
pub open spec fn single_param_facts(log: LogView, file: u64, p: SyntaxNode, pos: nat, callable: u64) -> LogView {
    let (name, ty) = param_parts_from(p.children@, 0, Seq::empty(), "unknown"@);
    if name.len() == 0 {
        log
    } else {
        sw_located(log, file, p, "swift_params"@, seq![txt(name), txt(ty), num(pos as i64), ent(callable)])
    }
}

/// The parameters of `callable` found under `n`: each `parameter` child,
/// and those inside parameter clauses and nested function declarations.
pub open spec fn sw_params_facts(log: LogView, file: u64, n: SyntaxNode, callable: u64) -> LogView
    decreases n, 1int,
{
    sw_params_from(log, file, n.children@, 0, callable)
}

pub open spec fn sw_params_from(log: LogView, file: u64, cs: Seq<SyntaxNode>, i: int, callable: u64) -> LogView
    decreases cs, cs.len() - i,
{
    if 0 <= i < cs.len() {
        let l = if cs[i].kind@ == "parameter"@ {
            single_param_facts(log, file, cs[i], kind_count(cs, "parameter"@, i), callable)
        } else if cs[i].kind@ == "parameter_clause"@ || cs[i].kind@ == "function_declaration"@ {
            sw_params_facts(log, file, cs[i], callable)
        } else {
            log
        };
        sw_params_from(l, file, cs, i + 1, callable)
    } else {
        log
    }
}

fn extract_single_param(facts: &mut FactLog, file_id: u64, parent: &SyntaxNode, i: usize, callable: u64)
    requires
        i < parent.children@.len(),
    ensures
        final(facts)@ == single_param_facts(
            old(facts)@,
            file_id,
            parent.children@[i as int],
            kind_count(parent.children@, "parameter"@, i as int),
            callable,
        ),
{
    let p = &parent.children[i];
    let cs = &p.children;
    let mut name = String::new();
    let mut ty = copy_str("unknown");
    let mut j: usize = 0;
    while j < cs.len()
        invariant
            cs@ == p.children@,
            j <= cs@.len(),
            param_parts_from(cs@, j as int, name@, ty@) == param_parts_from(cs@, 0, Seq::empty(), "unknown"@),
        decreases cs@.len() - j,
    {
        if str_eq(cs[j].kind.as_str(), "simple_identifier") {
            name = copy_str(cs[j].text.as_str());
        } else if str_eq(cs[j].kind.as_str(), "type_annotation") {
            ty = extract_type_annotation_text(&cs[j]);
        }
        j = j + 1;
    }
    if chars_of(name.as_str()).len() == 0 {
        return;
    }
    let pos = count_preceding_siblings_of_kind(Some(parent), i, "parameter");
    #[verifier::truncate]
    let pos64 = pos as i64;
    sw_emit_located(facts, file_id, p, "swift_params", sv4(sv(name.as_str()), sv(ty.as_str()), FactValue::Int(pos64), FactValue::Entity(callable)));
}

fn extract_sw_parameters(facts: &mut FactLog, file_id: u64, node: &SyntaxNode, callable: u64)
    ensures
        final(facts)@ == sw_params_facts(old(facts)@, file_id, *node, callable),
    decreases node, 1int,
{
    let cs = &node.children;
    let ghost start = facts@;
    let mut i: usize = 0;
    while i < cs.len()
        invariant
            cs@ == node.children@,
            i <= cs@.len(),
            sw_params_from(facts@, file_id, cs@, i as int, callable) == sw_params_from(start, file_id, cs@, 0, callable),
        decreases cs@.len() - i,
    {
        let k = cs[i].kind.as_str();
        if str_eq(k, "parameter") {
            extract_single_param(facts, file_id, node, i, callable);
        } else if str_eq(k, "parameter_clause") || str_eq(k, "function_declaration") {
            extract_sw_parameters(facts, file_id, &cs[i], callable);
        }
        i = i + 1;
    }
}

/// The name a property or local variable declaration binds, searched among
/// `cs[i]`, ...: a pattern or identifier other than `let` and `var` by its
/// text, else the name inside a binding, typed or plain pattern.
pub open spec fn binding_name_from(cs: Seq<SyntaxNode>, i: int) -> Option<Seq<char>>
    decreases cs.len() - i,
{
    if 0 <= i < cs.len() {
        let c = cs[i];
        let t = c.text@;
        if (c.kind@ == "pattern"@ || c.kind@ == "simple_identifier"@) && t.len() > 0 && t != "let"@ && t != "var"@ {
            Some(t)
        } else if (c.kind@ == "value_binding_pattern"@ || c.kind@ == "typed_pattern"@ || c.kind@ == "pattern"@)
            && pattern_name(c) is Some {
            pattern_name(c)
        } else {
            binding_name_from(cs, i + 1)
        }
    } else {
        None
    }
}

/// The name a declaration `n` binds: `binding_name_from`, else its `name`
/// child's text when not empty.
pub open spec fn binding_name(n: SyntaxNode) -> Option<Seq<char>> {
    match binding_name_from(n.children@, 0) {
        Some(t) => Some(t),
        None => {
            let k = field_index(n.children@, "name"@, 0);
            if 0 <= k < n.children@.len() && n.children@[k].text@.len() > 0 { Some(n.children@[k].text@) } else { None }
        },
    }
}

fn binding_name_of(n: &SyntaxNode) -> (r: Option<String>)
    ensures
        match r {
            Some(s) => binding_name(*n) == Some(s@),
            None => binding_name(*n) is None,
        },
{
    let cs = &n.children;
    let mut i: usize = 0;
    while i < cs.len()
        invariant
            cs@ == n.children@,
            i <= cs@.len(),
            binding_name_from(cs@, 0) == binding_name_from(cs@, i as int),
        decreases cs@.len() - i,
    {
        let c = &cs[i];
        let k = c.kind.as_str();
        let t = c.text.as_str();
        if (str_eq(k, "pattern") || str_eq(k, "simple_identifier")) && chars_of(t).len() > 0 && !str_eq(t, "let") && !str_eq(t, "var") {
            return Some(copy_str(t));
        }
        if str_eq(k, "value_binding_pattern") || str_eq(k, "typed_pattern") || str_eq(k, "pattern") {
            match find_pattern_name(c) {
                Some(s) => {
                    return Some(s);
                },
                None => {},
            }
        }
        i = i + 1;
    }
    let k = field_pos(&n.children, "name");
    if k < n.children.len() && chars_of(n.children[k].text.as_str()).len() > 0 {
        Some(copy_str(n.children[k].text.as_str()))
    } else {
        None
    }
}

/// The type text of a declaration: its type annotation, or `unknown`.
pub open spec fn type_text(n: SyntaxNode) -> Seq<char> {
    match type_annotation(n) {
        Some(t) => t,
        None => "unknown"@,
    }
}

fn type_text_of(n: &SyntaxNode) -> (r: String)
    ensures
        r@ == type_text(*n),
{
    match find_type_annotation(n) {
        Some(t) => t,
        None => copy_str("unknown"),
    }
}

/// The property `n` of `parent`: its row with its name and type, its
/// location, its modifiers and attributes; nothing when it binds no name.
pub open spec fn sw_property_facts(log: LogView, file: u64, n: SyntaxNode, parent: u64) -> LogView {
    match binding_name(n) {
        Some(name) => {
            let p = log.0;
            let l1 = sw_located(log, file, n, "swift_properties"@, seq![txt(name), txt(type_text(n)), ent(parent)]);
            attrs_on_from(modifiers_on_from(l1, n.children@, 0, p), file, n.children@, 0, p)
        },
        None => log,
    }
}

fn extract_property(facts: &mut FactLog, file_id: u64, node: &SyntaxNode, parent_id: u64)
    ensures
        final(facts)@ == sw_property_facts(old(facts)@, file_id, *node, parent_id),
{
    match binding_name_of(node) {
        Some(name) => {
            let ty = type_text_of(node);
            let p = sw_emit_located(facts, file_id, node, "swift_properties", sv3(sv(name.as_str()), sv(ty.as_str()), FactValue::Entity(parent_id)));
            extract_modifiers_on(facts, node, p);
            extract_attributes_on(facts, file_id, node, p);
        },
        None => {},
    }
}

/// The local variable `n` under `parent`: its row with its name and type
/// and its location; nothing when it binds no name.
pub open spec fn sw_local_var_facts(log: LogView, file: u64, n: SyntaxNode, parent: u64) -> LogView {
    match binding_name(n) {
        Some(name) => sw_located(log, file, n, "swift_local_vars"@, seq![txt(name), txt(type_text(n)), ent(parent)]),
        None => log,
    }
}

fn extract_local_var(facts: &mut FactLog, file_id: u64, node: &SyntaxNode, parent_id: u64)
    ensures
        final(facts)@ == sw_local_var_facts(old(facts)@, file_id, *node, parent_id),
{
    match binding_name_of(node) {
        Some(name) => {
            let ty = type_text_of(node);
            sw_emit_located(facts, file_id, node, "swift_local_vars", sv3(sv(name.as_str()), sv(ty.as_str()), FactValue::Entity(parent_id)));
        },
        None => {},
    }
}

/// The cases an enum entry `e` of `enum_id` names: each identifier other
/// than `case`, with its location.
pub open spec fn cases_from(log: LogView, file: u64, cs: Seq<SyntaxNode>, i: int, enum_id: u64) -> LogView
    decreases cs.len() - i,
{
    if 0 <= i < cs.len() {
        let c = cs[i];
        let l = if c.kind@ == "simple_identifier"@ && c.text@.len() > 0 && c.text@ != "case"@ {
            sw_located(log, file, c, "swift_enum_cases"@, seq![txt(c.text@), ent(enum_id)])
        } else {
            log
        };
        cases_from(l, file, cs, i + 1, enum_id)
    } else {
        log
    }
}

fn extract_enum_entry(facts: &mut FactLog, file_id: u64, node: &SyntaxNode, enum_id: u64)
    ensures
        final(facts)@ == cases_from(old(facts)@, file_id, node.children@, 0, enum_id),
{
    let cs = &node.children;
    let ghost start = facts@;
    let mut i: usize = 0;
    while i < cs.len()
        invariant
            cs@ == node.children@,
            i <= cs@.len(),
            cases_from(facts@, file_id, cs@, i as int, enum_id) == cases_from(start, file_id, cs@, 0, enum_id),
        decreases cs@.len() - i,
    {
        let c = &cs[i];
        if str_eq(c.kind.as_str(), "simple_identifier") && chars_of(c.text.as_str()).len() > 0 && !str_eq(c.text.as_str(), "case") {
            sw_emit_located(facts, file_id, c, "swift_enum_cases", sv2(sv(c.text.as_str()), FactValue::Entity(enum_id)));
        }
        i = i + 1;
    }
}


// ---------------------------------------------------------------------------
// The walk over declarations, statements and expressions.

/// The relation that records a type declaration of the given sort: class
/// (0), struct (1), enum (2), protocol (3) or extension (4).
pub open spec fn type_relation(which: u8) -> Seq<char> {
    if which == 1 { "swift_structs"@ }
    else if which == 2 { "swift_enums"@ }
    else if which == 3 { "swift_protocols"@ }
    else if which == 4 { "swift_extensions"@ }
    else { "swift_classes"@ }
}

/// The name recorded for a type declaration: the extended type's name for
/// an extension, the declared name otherwise.
pub open spec fn sw_type_name(n: SyntaxNode, which: u8) -> Seq<char> {
    if which == 4 { extension_type_from(n.children@, 0, false) } else { declaration_name(n) }
}

/// The sort of type a `class_declaration` declares, by its keyword.
pub open spec fn keyword_sort(w: Seq<char>) -> u8 {
    if w == "struct"@ { 1 }
    else if w == "enum"@ { 2 }
    else if w == "protocol"@ { 3 }
    else if w == "extension"@ { 4 }
    else { 0 }
}

/// Every named node among `cs[i]`, ... as an item of `parent`.
pub open spec fn named_items_from(log: LogView, file: u64, cs: Seq<SyntaxNode>, i: int, parent: u64) -> LogView
    decreases cs, cs.len() - i,
{
    if 0 <= i < cs.len() {
        let l = if cs[i].named { sw_top_level_facts(log, file, cs[i], parent) } else { log };
        named_items_from(l, file, cs, i + 1, parent)
    } else {
        log
    }
}

/// The named children of `b` as items of `parent`.
pub open spec fn sw_body_items_facts(log: LogView, file: u64, b: SyntaxNode, parent: u64) -> LogView
    decreases b, 0int,
{
    named_items_from(log, file, b.children@, 0, parent)
}

/// An item of `parent`: a declaration by its kind, a comment, or else a
/// statement or expression.
pub open spec fn sw_top_level_facts(log: LogView, file: u64, n: SyntaxNode, parent: u64) -> LogView
    decreases n, 6int,
{
    let k = n.kind@;
    if k == "import_declaration"@ {
        sw_import_facts(log, file, n)
    } else if k == "class_declaration"@ {
        sw_type_decl_facts(log, file, n, parent, keyword_sort(type_keyword_from(n.children@, 0)))
    } else if k == "struct_declaration"@ {
        sw_type_decl_facts(log, file, n, parent, 1)
    } else if k == "enum_declaration"@ {
        sw_type_decl_facts(log, file, n, parent, 2)
    } else if k == "protocol_declaration"@ {
        sw_type_decl_facts(log, file, n, parent, 3)
    } else if k == "extension_declaration"@ {
        sw_type_decl_facts(log, file, n, parent, 4)
    } else if k == "actor_declaration"@ {
        sw_type_decl_facts(log, file, n, parent, 0)
    } else if k == "function_declaration"@ || k == "protocol_function_declaration"@ {
        sw_function_facts(log, file, n, parent)
    } else if k == "init_declaration"@ {
        sw_callable_facts(log, file, n, parent, true)
    } else if k == "deinit_declaration"@ {
        log
    } else if k == "subscript_declaration"@ {
        sw_callable_facts(log, file, n, parent, false)
    } else if k == "property_declaration"@ || k == "protocol_property_declaration"@ {
        sw_property_facts(log, file, n, parent)
    } else if k == "typealias_declaration"@ {
        log
    } else if k == "comment"@ || k == "multiline_comment"@ {
        sw_comment_facts(log, file, n)
    } else {
        sw_stmt_or_expr_facts(log, file, n, parent)
    }
}

/// A type declaration `n` of the given sort in `parent`, when it has a
/// name: its row and location, modifiers, attributes and inheritance; for
/// classes, structs and enums its generic parameters and where clauses,
/// for extensions its where clauses; then its body (the cases and members
/// of an enum).
pub open spec fn sw_type_decl_facts(log: LogView, file: u64, n: SyntaxNode, parent: u64, which: u8) -> LogView
    decreases n, 5int,
{
    let name = sw_type_name(n, which);
    if name.len() == 0 {
        log
    } else {
        let cs = n.children@;
        let t = log.0;
        let l1 = sw_located(log, file, n, type_relation(which), seq![txt(name), ent(parent)]);
        let l2 = attrs_on_from(modifiers_on_from(l1, cs, 0, t), file, cs, 0, t);
        let l3 = inheritance_from(l2, n, cs, 0, t);
        let l4 = if which <= 2 {
            where_from(generics_from(l3, file, cs, 0, t), file, cs, 0, t)
        } else if which == 4 {
            where_from(l3, file, cs, 0, t)
        } else {
            l3
        };
        if which == 2 { sw_enum_body_facts(l4, file, n, t) } else { sw_type_body_facts(l4, file, n, t) }
    }
}

/// The members in the class, enum or protocol bodies among `cs[i]`, ...
pub open spec fn type_body_from(log: LogView, file: u64, cs: Seq<SyntaxNode>, i: int, t: u64) -> LogView
    decreases cs, cs.len() - i,
{
    if 0 <= i < cs.len() {
        let k = cs[i].kind@;
        let l = if k == "class_body"@ || k == "enum_class_body"@ || k == "protocol_body"@ {
            sw_body_items_facts(log, file, cs[i], t)
        } else {
            log
        };
        type_body_from(l, file, cs, i + 1, t)
    } else {
        log
    }
}

/// The members of the type `t` declared by `n`.
pub open spec fn sw_type_body_facts(log: LogView, file: u64, n: SyntaxNode, t: u64) -> LogView
    decreases n, 4int,
{
    type_body_from(log, file, n.children@, 0, t)
}

/// The cases and members of the enum `e` among `cs[i]`, ...: nested bodies
/// are searched in turn, entries give their cases, other named nodes are
/// members.
pub open spec fn enum_body_from(log: LogView, file: u64, cs: Seq<SyntaxNode>, i: int, e: u64) -> LogView
    decreases cs, cs.len() - i,
{
    if 0 <= i < cs.len() {
        let c = cs[i];
        let l = if c.kind@ == "enum_class_body"@ || c.kind@ == "class_body"@ {
            sw_enum_body_facts(log, file, c, e)
        } else if c.kind@ == "enum_entry"@ {
            cases_from(log, file, c.children@, 0, e)
        } else if c.named {
            sw_top_level_facts(log, file, c, e)
        } else {
            log
        };
        enum_body_from(l, file, cs, i + 1, e)
    } else {
        log
    }
}

/// The cases and members of the enum `e` declared by `n`.
pub open spec fn sw_enum_body_facts(log: LogView, file: u64, n: SyntaxNode, e: u64) -> LogView
    decreases n, 4int,
{
    enum_body_from(log, file, n.children@, 0, e)
}

/// The function `n` in `parent`, when it has a name: its row and location,
/// modifiers, attributes, generic parameters, where clauses, parameters and
/// body.
pub open spec fn sw_function_facts(log: LogView, file: u64, n: SyntaxNode, parent: u64) -> LogView
    decreases n, 5int,
{
    let name = declaration_name(n);
    if name.len() == 0 {
        log
    } else {
        let cs = n.children@;
        let f = log.0;
        let l1 = sw_located(log, file, n, "swift_functions"@, seq![txt(name), ent(parent)]);
        let l2 = attrs_on_from(modifiers_on_from(l1, cs, 0, f), file, cs, 0, f);
        let l3 = where_from(generics_from(l2, file, cs, 0, f), file, cs, 0, f);
        sw_function_body_facts(sw_params_facts(l3, file, n, f), file, n, f)
    }
}

/// An initializer (`init` true) or a subscript `n` in `parent`: its row and
/// location, modifiers, for an initializer its attributes, then its
/// parameters and body.
pub open spec fn sw_callable_facts(log: LogView, file: u64, n: SyntaxNode, parent: u64, init: bool) -> LogView
    decreases n, 5int,
{
    let cs = n.children@;
    let f = log.0;
    let rel = if init { "swift_initializers"@ } else { "swift_subscripts"@ };
    let l1 = sw_located(log, file, n, rel, seq![ent(parent)]);
    let l2 = modifiers_on_from(l1, cs, 0, f);
    let l3 = if init { attrs_on_from(l2, file, cs, 0, f) } else { l2 };
    sw_function_body_facts(sw_params_facts(l3, file, n, f), file, n, f)
}

/// The statements of the body of `f` among `cs[i]`, ...: a `function_body`
/// is walked once, a `statements` node twice.
pub open spec fn fn_body_from(log: LogView, file: u64, cs: Seq<SyntaxNode>, i: int, f: u64) -> LogView
    decreases cs, cs.len() - i,
{
    if 0 <= i < cs.len() {
        let c = cs[i];
        let l1 = if c.kind@ == "function_body"@ || c.kind@ == "statements"@ {
            sw_statements_facts(log, file, c, f)
        } else {
            log
        };
        let l2 = if c.kind@ == "statements"@ { sw_statements_facts(l1, file, c, f) } else { l1 };
        fn_body_from(l2, file, cs, i + 1, f)
    } else {
        log
    }
}

/// The body of the function `f` declared by `n`.
pub open spec fn sw_function_body_facts(log: LogView, file: u64, n: SyntaxNode, f: u64) -> LogView
    decreases n, 4int,
{
    fn_body_from(log, file, n.children@, 0, f)
}

/// The named nodes among `cs[i]`, ... in a block of `parent`, from position
/// `idx` on: nested blocks are walked in place, statements take a
/// position, anything else is an item.
pub open spec fn statements_from(log: LogView, file: u64, cs: Seq<SyntaxNode>, i: int, parent: u64, idx: i64) -> LogView
    decreases cs, cs.len() - i,
{
    if 0 <= i < cs.len() {
        let c = cs[i];
        if !c.named {
            statements_from(log, file, cs, i + 1, parent, idx)
        } else if c.kind@ == "statements"@ {
            statements_from(sw_statements_facts(log, file, c, parent), file, cs, i + 1, parent, idx)
        } else {
            let (l, r) = sw_stmt_facts(log, file, c, parent, idx);
            if r is Some {
                statements_from(l, file, cs, i + 1, parent, next_index(idx))
            } else {
                statements_from(sw_top_level_facts(l, file, c, parent), file, cs, i + 1, parent, idx)
            }
        }
    } else {
        log
    }
}

/// The block `n` of `parent`, from position 0 on.
pub open spec fn sw_statements_facts(log: LogView, file: u64, n: SyntaxNode, parent: u64) -> LogView
    decreases n, 3int,
{
    statements_from(log, file, n.children@, 0, parent, 0)
}

/// An item that is no declaration: a statement at position 0 if it is one,
/// else an expression at position 0.
pub open spec fn sw_stmt_or_expr_facts(log: LogView, file: u64, n: SyntaxNode, parent: u64) -> LogView
    decreases n, 5int,
{
    let (l, r) = sw_stmt_facts(log, file, n, parent, 0);
    if r is Some { l } else { sw_expr_facts(l, file, n, parent, 0).0 }
}

/// Statements whose parts are walked as a block.
pub open spec fn block_stmt_kind(k: Seq<char>) -> bool {
    ||| k == "if_statement"@ ||| k == "guard_statement"@ ||| k == "for_statement"@ ||| k == "for_in_statement"@
    ||| k == "while_statement"@ ||| k == "repeat_while_statement"@ ||| k == "do_statement"@ ||| k == "defer_statement"@
}

/// Statements whose named parts are expressions at position 0.
pub open spec fn transfer_stmt_kind(k: Seq<char>) -> bool {
    k == "return_statement"@ || k == "throw_statement"@ || k == "control_transfer_statement"@
}

/// The statement `n` at position `idx` of `parent`: a property declaration
/// is a local variable and no statement; a statement gets its row and
/// location and then its parts, and its id is returned.
pub open spec fn sw_stmt_facts(log: LogView, file: u64, n: SyntaxNode, parent: u64, idx: i64) -> (LogView, Option<u64>)
    decreases n, 4int,
{
    if n.kind@ == "property_declaration"@ {
        (sw_local_var_facts(log, file, n, parent), None)
    } else {
        match swift_stmt_kind(n.kind@, n.text@) {
            None => (log, None),
            Some(k) => {
                let s = log.0;
                let l1 = sw_located(log, file, n, "swift_stmts"@, seq![num(k), ent(parent), num(idx)]);
                let l2 = if block_stmt_kind(n.kind@) {
                    sw_stmt_children_facts(l1, file, n, s)
                } else if n.kind@ == "switch_statement"@ {
                    sw_switch_facts(l1, file, n, s)
                } else if transfer_stmt_kind(n.kind@) {
                    sw_exprs_zero_facts(l1, file, n, s)
                } else if k == 12 {
                    sw_expr_facts(l1, file, n, s, 0).0
                } else {
                    l1
                };
                (l2, Some(s))
            },
        }
    }
}

/// The parts among `cs[i]`, ... of a block-like node under `parent`, from
/// position `idx` on: nested blocks and catch clauses are walked in place,
/// statements take a position, other nodes are expressions at the current
/// one.
pub open spec fn stmt_children_from(log: LogView, file: u64, cs: Seq<SyntaxNode>, i: int, parent: u64, idx: i64) -> LogView
    decreases cs, cs.len() - i,
{
    if 0 <= i < cs.len() {
        let c = cs[i];
        if !c.named {
            stmt_children_from(log, file, cs, i + 1, parent, idx)
        } else if c.kind@ == "statements"@ || c.kind@ == "function_body"@ {
            stmt_children_from(sw_statements_facts(log, file, c, parent), file, cs, i + 1, parent, idx)
        } else if c.kind@ == "catch_clause"@ {
            stmt_children_from(sw_stmt_children_facts(log, file, c, parent), file, cs, i + 1, parent, idx)
        } else {
            let (l, r) = sw_stmt_facts(log, file, c, parent, idx);
            if r is Some {
                stmt_children_from(l, file, cs, i + 1, parent, next_index(idx))
            } else {
                stmt_children_from(sw_expr_facts(l, file, c, parent, idx).0, file, cs, i + 1, parent, idx)
            }
        }
    } else {
        log
    }
}

/// The parts of `n` under `parent`, from position 0 on.
pub open spec fn sw_stmt_children_facts(log: LogView, file: u64, n: SyntaxNode, parent: u64) -> LogView
    decreases n, 1int,
{
    stmt_children_from(log, file, n.children@, 0, parent, 0)
}

/// The entries among `cs[i]`, ... of a switch statement `parent`.
pub open spec fn switch_from(log: LogView, file: u64, cs: Seq<SyntaxNode>, i: int, parent: u64) -> LogView
    decreases cs, cs.len() - i,
{
    if 0 <= i < cs.len() {
        let l = if cs[i].kind@ == "switch_entry"@ { sw_stmt_children_facts(log, file, cs[i], parent) } else { log };
        switch_from(l, file, cs, i + 1, parent)
    } else {
        log
    }
}

/// The entries of the switch statement `parent` written `n`.
pub open spec fn sw_switch_facts(log: LogView, file: u64, n: SyntaxNode, parent: u64) -> LogView
    decreases n, 1int,
{
    switch_from(log, file, n.children@, 0, parent)
}

/// The named nodes among `cs[i]`, ... as expressions of `parent`, from
/// position `idx` on; a position is taken by each one that is an
/// expression.
pub open spec fn exprs_seq_from(log: LogView, file: u64, cs: Seq<SyntaxNode>, i: int, parent: u64, idx: i64) -> LogView
    decreases cs, cs.len() - i,
{
    if 0 <= i < cs.len() {
        if cs[i].named {
            let (l, r) = sw_expr_facts(log, file, cs[i], parent, idx);
            exprs_seq_from(l, file, cs, i + 1, parent, if r is Some { next_index(idx) } else { idx })
        } else {
            exprs_seq_from(log, file, cs, i + 1, parent, idx)
        }
    } else {
        log
    }
}

/// The named children of `n` as expressions of `parent` from position 0 on.
pub open spec fn sw_exprs_seq_facts(log: LogView, file: u64, n: SyntaxNode, parent: u64) -> LogView
    decreases n, 0int,
{
    exprs_seq_from(log, file, n.children@, 0, parent, 0)
}

/// The named nodes among `cs[i]`, ... as expressions of `parent`, each at
/// position 0.
pub open spec fn exprs_zero_from(log: LogView, file: u64, cs: Seq<SyntaxNode>, i: int, parent: u64) -> LogView
    decreases cs, cs.len() - i,
{
    if 0 <= i < cs.len() {
        let l = if cs[i].named { sw_expr_facts(log, file, cs[i], parent, 0).0 } else { log };
        exprs_zero_from(l, file, cs, i + 1, parent)
    } else {
        log
    }
}

/// The named children of `n` as expressions of `parent`, each at position 0.
pub open spec fn sw_exprs_zero_facts(log: LogView, file: u64, n: SyntaxNode, parent: u64) -> LogView
    decreases n, 0int,
{
    exprs_zero_from(log, file, n.children@, 0, parent)
}

/// Expressions whose named children are expressions in order.
pub open spec fn seq_expr_kind(k: Seq<char>) -> bool {
    ||| k == "call_expression"@ ||| k == "navigation_expression"@ ||| k == "infix_expression"@
    ||| k == "ternary_expression"@ ||| k == "subscript_expression"@ ||| k == "array_literal"@
    ||| k == "dictionary_literal"@ ||| k == "tuple_expression"@
}

/// Expressions whose named children are each an expression at position 0.
pub open spec fn zero_expr_kind(k: Seq<char>) -> bool {
    ||| k == "prefix_expression"@ ||| k == "postfix_expression"@ ||| k == "try_expression"@ ||| k == "await_expression"@
}

/// Expressions whose first named child is their operand.
pub open spec fn operand_expr_kind(k: Seq<char>) -> bool {
    k == "is_expression"@ || k == "check_expression"@ || k == "as_expression"@
}

/// The expression `n` at position `idx` of `parent`: a parenthesized one
/// is its first named child; an expression of a known kind gets its row
/// and location and then its parts, and its id is returned.
pub open spec fn sw_expr_facts(log: LogView, file: u64, n: SyntaxNode, parent: u64, idx: i64) -> (LogView, Option<u64>)
    decreases n, 2int,
{
    let cs = n.children@;
    match swift_expr_class(n.kind@, n.text@) {
        ExprClass::Kind(k) => {
            let x = log.0;
            let l1 = sw_located(log, file, n, "swift_exprs"@, seq![num(k), ent(parent), num(idx)]);
            let kd = n.kind@;
            let l2 = if seq_expr_kind(kd) {
                sw_exprs_seq_facts(l1, file, n, x)
            } else if zero_expr_kind(kd) {
                sw_exprs_zero_facts(l1, file, n, x)
            } else if operand_expr_kind(kd) {
                let c = first_named(cs, 0);
                if 0 <= c < cs.len() { sw_expr_facts(l1, file, cs[c], x, 0).0 } else { l1 }
            } else if kd == "lambda_literal"@ || kd == "closure_expression"@ {
                sw_stmt_children_facts(l1, file, n, x)
            } else {
                l1
            };
            (l2, Some(x))
        },
        ExprClass::Unwrap => {
            let c = first_named(cs, 0);
            if 0 <= c < cs.len() { sw_expr_facts(log, file, cs[c], parent, idx) } else { (log, None) }
        },
        _ => (log, None),
    }
}


/// Emits the named children of `b` as items of `parent_id`
/// (`sw_body_items_facts`).
fn extract_sw_body_items(facts: &mut FactLog, file_id: u64, b: &SyntaxNode, parent_id: u64)
    ensures
        final(facts)@ == sw_body_items_facts(old(facts)@, file_id, *b, parent_id),
    decreases b, 0int,
{
    let cs = &b.children;
    let ghost start = facts@;
    let mut i: usize = 0;
    while i < cs.len()
        invariant
            cs@ == b.children@,
            i <= cs@.len(),
            named_items_from(facts@, file_id, cs@, i as int, parent_id) == named_items_from(start, file_id, cs@, 0, parent_id),
        decreases cs@.len() - i,
    {
        if cs[i].named {
            extract_sw_top_level(facts, file_id, &cs[i], parent_id);
        }
        i = i + 1;
    }
}

/// Emits the facts of a Swift source file whose syntax tree is `root`:
/// each named child is an item of the file.
pub fn extract_source_file(facts: &mut FactLog, file_id: u64, root: &SyntaxNode)
    ensures
        final(facts)@ == sw_body_items_facts(old(facts)@, file_id, *root, file_id),
{
    extract_sw_body_items(facts, file_id, root, file_id);
}

/// Emits the item `node` of `parent_id` (`sw_top_level_facts`).
pub fn extract_sw_top_level(facts: &mut FactLog, file_id: u64, node: &SyntaxNode, parent_id: u64)
    ensures
        final(facts)@ == sw_top_level_facts(old(facts)@, file_id, *node, parent_id),
    decreases node, 6int,
{
    let k = node.kind.as_str();
    if str_eq(k, "import_declaration") {
        extract_sw_import(facts, file_id, node);
    } else if str_eq(k, "class_declaration") {
        let w = find_type_keyword(node);
        let ws = w.as_str();
        let which: u8 = if str_eq(ws, "struct") { 1 } else if str_eq(ws, "enum") { 2 } else if str_eq(ws, "protocol") { 3 } else if str_eq(ws, "extension") { 4 } else { 0 };
        extract_sw_type_decl(facts, file_id, node, parent_id, which);
    } else if str_eq(k, "struct_declaration") {
        extract_sw_type_decl(facts, file_id, node, parent_id, 1);
    } else if str_eq(k, "enum_declaration") {
        extract_sw_type_decl(facts, file_id, node, parent_id, 2);
    } else if str_eq(k, "protocol_declaration") {
        extract_sw_type_decl(facts, file_id, node, parent_id, 3);
    } else if str_eq(k, "extension_declaration") {
        extract_sw_type_decl(facts, file_id, node, parent_id, 4);
    } else if str_eq(k, "actor_declaration") {
        extract_sw_type_decl(facts, file_id, node, parent_id, 0);
    } else if str_eq(k, "function_declaration") || str_eq(k, "protocol_function_declaration") {
        extract_sw_function(facts, file_id, node, parent_id);
    } else if str_eq(k, "init_declaration") {
        extract_sw_callable(facts, file_id, node, parent_id, true);
    } else if str_eq(k, "deinit_declaration") {
    } else if str_eq(k, "subscript_declaration") {
        extract_sw_callable(facts, file_id, node, parent_id, false);
    } else if str_eq(k, "property_declaration") || str_eq(k, "protocol_property_declaration") {
        extract_property(facts, file_id, node, parent_id);
    } else if str_eq(k, "typealias_declaration") {
    } else if str_eq(k, "comment") || str_eq(k, "multiline_comment") {
        extract_sw_comment(facts, file_id, node);
    } else {
        extract_sw_stmt_or_expr(facts, file_id, node, parent_id);
    }
}

/// Emits the type declaration `node` of the given sort
/// (`sw_type_decl_facts`).
fn extract_sw_type_decl(facts: &mut FactLog, file_id: u64, node: &SyntaxNode, parent_id: u64, which: u8)
    ensures
        final(facts)@ == sw_type_decl_facts(old(facts)@, file_id, *node, parent_id, which),
    decreases node, 5int,
{
    let name = if which == 4 { find_extension_type_name(node) } else { find_declaration_name(node) };
    if chars_of(name.as_str()).len() == 0 {
        return;
    }
    let relation = if which == 1 { "swift_structs" } else if which == 2 { "swift_enums" } else if which == 3 {
        "swift_protocols"
    } else if which == 4 { "swift_extensions" } else { "swift_classes" };
    let t = sw_emit_located(facts, file_id, node, relation, sv2(sv(name.as_str()), FactValue::Entity(parent_id)));
    extract_modifiers_on(facts, node, t);
    extract_attributes_on(facts, file_id, node, t);
    extract_inheritance(facts, node, t);
    if which <= 2 {
        extract_generic_parameters(facts, file_id, node, t);
        extract_where_clause(facts, file_id, node, t);
    } else if which == 4 {
        extract_where_clause(facts, file_id, node, t);
    }
    if which == 2 {
        extract_sw_enum_body(facts, file_id, node, t);
    } else {
        extract_sw_type_body(facts, file_id, node, t);
    }
}

/// Emits the members of the type `t` declared by `node`
/// (`sw_type_body_facts`).
fn extract_sw_type_body(facts: &mut FactLog, file_id: u64, node: &SyntaxNode, t: u64)
    ensures
        final(facts)@ == sw_type_body_facts(old(facts)@, file_id, *node, t),
    decreases node, 4int,
{
    let cs = &node.children;
    let ghost start = facts@;
    let mut i: usize = 0;
    while i < cs.len()
        invariant
            cs@ == node.children@,
            i <= cs@.len(),
            type_body_from(facts@, file_id, cs@, i as int, t) == type_body_from(start, file_id, cs@, 0, t),
        decreases cs@.len() - i,
    {
        let k = cs[i].kind.as_str();
        if str_eq(k, "class_body") || str_eq(k, "enum_class_body") || str_eq(k, "protocol_body") {
            extract_sw_body_items(facts, file_id, &cs[i], t);
        }
        i = i + 1;
    }
}

/// Emits the cases and members of the enum `e` declared by `node`
/// (`sw_enum_body_facts`).
fn extract_sw_enum_body(facts: &mut FactLog, file_id: u64, node: &SyntaxNode, e: u64)
    ensures
        final(facts)@ == sw_enum_body_facts(old(facts)@, file_id, *node, e),
    decreases node, 4int,
{
    let cs = &node.children;
    let ghost start = facts@;
    let mut i: usize = 0;
    while i < cs.len()
        invariant
            cs@ == node.children@,
            i <= cs@.len(),
            enum_body_from(facts@, file_id, cs@, i as int, e) == enum_body_from(start, file_id, cs@, 0, e),
        decreases cs@.len() - i,
    {
        let c = &cs[i];
        let k = c.kind.as_str();
        if str_eq(k, "enum_class_body") || str_eq(k, "class_body") {
            extract_sw_enum_body(facts, file_id, c, e);
        } else if str_eq(k, "enum_entry") {
            extract_enum_entry(facts, file_id, c, e);
        } else if c.named {
            extract_sw_top_level(facts, file_id, c, e);
        }
        i = i + 1;
    }
}

/// Emits the function `node` of `parent_id` (`sw_function_facts`).
fn extract_sw_function(facts: &mut FactLog, file_id: u64, node: &SyntaxNode, parent_id: u64)
    ensures
        final(facts)@ == sw_function_facts(old(facts)@, file_id, *node, parent_id),
    decreases node, 5int,
{
    let name = find_declaration_name(node);
    if chars_of(name.as_str()).len() == 0 {
        return;
    }
    let f = sw_emit_located(facts, file_id, node, "swift_functions", sv2(sv(name.as_str()), FactValue::Entity(parent_id)));
    extract_modifiers_on(facts, node, f);
    extract_attributes_on(facts, file_id, node, f);
    extract_generic_parameters(facts, file_id, node, f);
    extract_where_clause(facts, file_id, node, f);
    extract_sw_parameters(facts, file_id, node, f);
    extract_sw_function_body(facts, file_id, node, f);
}

/// Emits the initializer (`init`) or subscript `node` of `parent_id`
/// (`sw_callable_facts`).
fn extract_sw_callable(facts: &mut FactLog, file_id: u64, node: &SyntaxNode, parent_id: u64, init: bool)
    ensures
        final(facts)@ == sw_callable_facts(old(facts)@, file_id, *node, parent_id, init),
    decreases node, 5int,
{
    let mut v: Vec<FactValue> = Vec::new();
    v.push(FactValue::Entity(parent_id));
    assert(values_view(v@) =~= seq![ent(parent_id)]);
    let f = if init {
        sw_emit_located(facts, file_id, node, "swift_initializers", v)
    } else {
        sw_emit_located(facts, file_id, node, "swift_subscripts", v)
    };
    extract_modifiers_on(facts, node, f);
    if init {
        extract_attributes_on(facts, file_id, node, f);
    }
    extract_sw_parameters(facts, file_id, node, f);
    extract_sw_function_body(facts, file_id, node, f);
}

/// Emits the body of the function `f` declared by `node`
/// (`sw_function_body_facts`).
fn extract_sw_function_body(facts: &mut FactLog, file_id: u64, node: &SyntaxNode, f: u64)
    ensures
        final(facts)@ == sw_function_body_facts(old(facts)@, file_id, *node, f),
    decreases node, 4int,
{
    let cs = &node.children;
    let ghost start = facts@;
    let mut i: usize = 0;
    while i < cs.len()
        invariant
            cs@ == node.children@,
            i <= cs@.len(),
            fn_body_from(facts@, file_id, cs@, i as int, f) == fn_body_from(start, file_id, cs@, 0, f),
        decreases cs@.len() - i,
    {
        let c = &cs[i];
        let k = c.kind.as_str();
        if str_eq(k, "function_body") || str_eq(k, "statements") {
            extract_sw_statements(facts, file_id, c, f);
        }
        if str_eq(k, "statements") {
            extract_sw_statements(facts, file_id, c, f);
        }
        i = i + 1;
    }
}

/// Emits the block `node` of `parent_id` (`sw_statements_facts`).
pub fn extract_sw_statements(facts: &mut FactLog, file_id: u64, node: &SyntaxNode, parent_id: u64)
    ensures
        final(facts)@ == sw_statements_facts(old(facts)@, file_id, *node, parent_id),
    decreases node, 3int,
{
    let cs = &node.children;
    let ghost start = facts@;
    let mut i: usize = 0;
    let mut idx: i64 = 0;
    while i < cs.len()
        invariant
            cs@ == node.children@,
            i <= cs@.len(),
            statements_from(facts@, file_id, cs@, i as int, parent_id, idx) == statements_from(start, file_id, cs@, 0, parent_id, 0),
        decreases cs@.len() - i,
    {
        let c = &cs[i];
        if c.named {
            if str_eq(c.kind.as_str(), "statements") {
                extract_sw_statements(facts, file_id, c, parent_id);
            } else {
                let r = extract_sw_stmt(facts, file_id, c, parent_id, idx);
                if r.is_some() {
                    idx = next_pos(idx);
                } else {
                    extract_sw_top_level(facts, file_id, c, parent_id);
                }
            }
        }
        i = i + 1;
    }
}

/// Emits the item `node` of `parent_id` that is no declaration
/// (`sw_stmt_or_expr_facts`).
fn extract_sw_stmt_or_expr(facts: &mut FactLog, file_id: u64, node: &SyntaxNode, parent_id: u64)
    ensures
        final(facts)@ == sw_stmt_or_expr_facts(old(facts)@, file_id, *node, parent_id),
    decreases node, 5int,
{
    let r = extract_sw_stmt(facts, file_id, node, parent_id, 0);
    if r.is_none() {
        extract_sw_expr(facts, file_id, node, parent_id, 0);
    }
}

/// Emits the statement `node` at position `idx` of `parent_id` and returns
/// its id (`sw_stmt_facts`).
pub fn extract_sw_stmt(facts: &mut FactLog, file_id: u64, node: &SyntaxNode, parent_id: u64, idx: i64) -> (r: Option<u64>)
    ensures
        (final(facts)@, r) == sw_stmt_facts(old(facts)@, file_id, *node, parent_id, idx),
    decreases node, 4int,
{
    let k = node.kind.as_str();
    if str_eq(k, "property_declaration") {
        extract_local_var(facts, file_id, node, parent_id);
        return None;
    }
    match swift_statement_kind(node) {
        None => None,
        Some(sk) => {
            let s = sw_emit_located(facts, file_id, node, "swift_stmts", sv3(FactValue::Int(sk), FactValue::Entity(parent_id), FactValue::Int(idx)));
            if str_eq(k, "if_statement") || str_eq(k, "guard_statement") || str_eq(k, "for_statement") || str_eq(k, "for_in_statement")
                || str_eq(k, "while_statement") || str_eq(k, "repeat_while_statement") || str_eq(k, "do_statement") || str_eq(k, "defer_statement") {
                extract_sw_stmt_children(facts, file_id, node, s);
            } else if str_eq(k, "switch_statement") {
                extract_sw_switch_entries(facts, file_id, node, s);
            } else if str_eq(k, "return_statement") || str_eq(k, "throw_statement") || str_eq(k, "control_transfer_statement") {
                extract_sw_exprs_zero(facts, file_id, node, s);
            } else if sk == 12 {
                extract_sw_expr(facts, file_id, node, s, 0);
            }
            Some(s)
        },
    }
}

/// Emits the parts of `node` under `parent_id` (`sw_stmt_children_facts`).
fn extract_sw_stmt_children(facts: &mut FactLog, file_id: u64, node: &SyntaxNode, parent_id: u64)
    ensures
        final(facts)@ == sw_stmt_children_facts(old(facts)@, file_id, *node, parent_id),
    decreases node, 1int,
{
    let cs = &node.children;
    let ghost start = facts@;
    let mut i: usize = 0;
    let mut idx: i64 = 0;
    while i < cs.len()
        invariant
            cs@ == node.children@,
            i <= cs@.len(),
            stmt_children_from(facts@, file_id, cs@, i as int, parent_id, idx) == stmt_children_from(start, file_id, cs@, 0, parent_id, 0),
        decreases cs@.len() - i,
    {
        let c = &cs[i];
        if c.named {
            let k = c.kind.as_str();
            if str_eq(k, "statements") || str_eq(k, "function_body") {
                extract_sw_statements(facts, file_id, c, parent_id);
            } else if str_eq(k, "catch_clause") {
                extract_sw_stmt_children(facts, file_id, c, parent_id);
            } else {
                let r = extract_sw_stmt(facts, file_id, c, parent_id, idx);
                if r.is_some() {
                    idx = next_pos(idx);
                } else {
                    extract_sw_expr(facts, file_id, c, parent_id, idx);
                }
            }
        }
        i = i + 1;
    }
}

/// Emits the entries of the switch statement `parent_id` written `node`
/// (`sw_switch_facts`).
fn extract_sw_switch_entries(facts: &mut FactLog, file_id: u64, node: &SyntaxNode, parent_id: u64)
    ensures
        final(facts)@ == sw_switch_facts(old(facts)@, file_id, *node, parent_id),
    decreases node, 1int,
{
    let cs = &node.children;
    let ghost start = facts@;
    let mut i: usize = 0;
    while i < cs.len()
        invariant
            cs@ == node.children@,
            i <= cs@.len(),
            switch_from(facts@, file_id, cs@, i as int, parent_id) == switch_from(start, file_id, cs@, 0, parent_id),
        decreases cs@.len() - i,
    {
        if str_eq(cs[i].kind.as_str(), "switch_entry") {
            extract_sw_stmt_children(facts, file_id, &cs[i], parent_id);
        }
        i = i + 1;
    }
}

/// Emits the named children of `node` as expressions of `parent_id` in
/// order (`sw_exprs_seq_facts`).
fn extract_sw_exprs_seq(facts: &mut FactLog, file_id: u64, node: &SyntaxNode, parent_id: u64)
    ensures
        final(facts)@ == sw_exprs_seq_facts(old(facts)@, file_id, *node, parent_id),
    decreases node, 0int,
{
    let cs = &node.children;
    let ghost start = facts@;
    let mut i: usize = 0;
    let mut idx: i64 = 0;
    while i < cs.len()
        invariant
            cs@ == node.children@,
            i <= cs@.len(),
            exprs_seq_from(facts@, file_id, cs@, i as int, parent_id, idx) == exprs_seq_from(start, file_id, cs@, 0, parent_id, 0),
        decreases cs@.len() - i,
    {
        if cs[i].named {
            let r = extract_sw_expr(facts, file_id, &cs[i], parent_id, idx);
            if r.is_some() {
                idx = next_pos(idx);
            }
        }
        i = i + 1;
    }
}

/// Emits the named children of `node` as expressions of `parent_id`, each
/// at position 0 (`sw_exprs_zero_facts`).
fn extract_sw_exprs_zero(facts: &mut FactLog, file_id: u64, node: &SyntaxNode, parent_id: u64)
    ensures
        final(facts)@ == sw_exprs_zero_facts(old(facts)@, file_id, *node, parent_id),
    decreases node, 0int,
{
    let cs = &node.children;
    let ghost start = facts@;
    let mut i: usize = 0;
    while i < cs.len()
        invariant
            cs@ == node.children@,
            i <= cs@.len(),
            exprs_zero_from(facts@, file_id, cs@, i as int, parent_id) == exprs_zero_from(start, file_id, cs@, 0, parent_id),
        decreases cs@.len() - i,
    {
        if cs[i].named {
            extract_sw_expr(facts, file_id, &cs[i], parent_id, 0);
        }
        i = i + 1;
    }
}

/// Emits the expression `node` at position `idx` of `parent_id` and
/// returns its id (`sw_expr_facts`).
pub fn extract_sw_expr(facts: &mut FactLog, file_id: u64, node: &SyntaxNode, parent_id: u64, idx: i64) -> (r: Option<u64>)
    ensures
        (final(facts)@, r) == sw_expr_facts(old(facts)@, file_id, *node, parent_id, idx),
    decreases node, 2int,
{
    let cs = &node.children;
    match classify_swift_expression(node) {
        ExprClass::Kind(ek) => {
            let x = sw_emit_located(facts, file_id, node, "swift_exprs", sv3(FactValue::Int(ek), FactValue::Entity(parent_id), FactValue::Int(idx)));
            let k = node.kind.as_str();
            if str_eq(k, "call_expression") || str_eq(k, "navigation_expression") || str_eq(k, "infix_expression")
                || str_eq(k, "ternary_expression") || str_eq(k, "subscript_expression") || str_eq(k, "array_literal")
                || str_eq(k, "dictionary_literal") || str_eq(k, "tuple_expression") {
                extract_sw_exprs_seq(facts, file_id, node, x);
            } else if str_eq(k, "prefix_expression") || str_eq(k, "postfix_expression") || str_eq(k, "try_expression")
                || str_eq(k, "await_expression") {
                extract_sw_exprs_zero(facts, file_id, node, x);
            } else if str_eq(k, "is_expression") || str_eq(k, "check_expression") || str_eq(k, "as_expression") {
                let c = first_named_pos(cs);
                if c < cs.len() {
                    extract_sw_expr(facts, file_id, &cs[c], x, 0);
                }
            } else if str_eq(k, "lambda_literal") || str_eq(k, "closure_expression") {
                extract_sw_stmt_children(facts, file_id, node, x);
            }
            Some(x)
        },
        ExprClass::Unwrap => {
            let c = first_named_pos(cs);
            if c < cs.len() {
                extract_sw_expr(facts, file_id, &cs[c], parent_id, idx)
            } else {
                None
            }
        },
        _ => None,
    }
}

} // verus!
