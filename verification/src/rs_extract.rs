//! The Rust extraction walk over syntax trees: modules, functions,
//! structs, enums, traits, impls and the other items with their
//! attributes, generics and parameters, statements and expressions, each
//! with its location, recorded in a fact log.

use vstd::prelude::*;
use crate::syntax::SyntaxNode;
use crate::extractors::{ExprClass, rust_expr_class, rust_stmt_kind, classify_rust_expression, rust_statement_kind,
    attribute_name, attribute_text_ok, extract_attribute_name};
use crate::js_extract::{FactLog, LogView, alloc_id, location_of, row, ent, num, txt, next_index, field_index,
    first_named, field_text, entity_pair, entity_text_entity, ent_num_ent_num, field_pos, first_named_pos,
    field_text_of, next_pos, FactValue, FactView, values_view, field_child_text, lemma_field_text_is_field_child_text};
use crate::py_extract::{strip_prefixes, strip_prefixes_of};
use crate::text::{copy_str, str_eq, chars_of, string_of, trim, trim_chars, trim_end_char, trim_end_char_chars,
    decimal, push_decimal};

verus! {

fn text_v(s: &str) -> (r: FactValue)
    ensures
        r@ == txt(s@),
{
    FactValue::Str(copy_str(s))
}

fn vals3(a: FactValue, b: FactValue, c: FactValue) -> (r: Vec<FactValue>)
    ensures
        values_view(r@) == seq![a@, b@, c@],
{
    let mut r: Vec<FactValue> = Vec::new();
    r.push(a);
    r.push(b);
    r.push(c);
    assert(values_view(r@) =~= seq![a@, b@, c@]);
    r
}

fn vals4(a: FactValue, b: FactValue, c: FactValue, d: FactValue) -> (r: Vec<FactValue>)
    ensures
        values_view(r@) == seq![a@, b@, c@, d@],
{
    let mut r: Vec<FactValue> = Vec::new();
    r.push(a);
    r.push(b);
    r.push(c);
    r.push(d);
    assert(values_view(r@) =~= seq![a@, b@, c@, d@]);
    r
}

fn vals5(a: FactValue, b: FactValue, c: FactValue, d: FactValue, e: FactValue) -> (r: Vec<FactValue>)
    ensures
        values_view(r@) == seq![a@, b@, c@, d@, e@],
{
    let mut r: Vec<FactValue> = Vec::new();
    r.push(a);
    r.push(b);
    r.push(c);
    r.push(d);
    r.push(e);
    assert(values_view(r@) =~= seq![a@, b@, c@, d@, e@]);
    r
}

// ---------------------------------------------------------------------------
// The inputs the walk takes
// ---------------------------------------------------------------------------

/// A node the walk can take: an attribute's text can have its brackets cut
/// off (`attribute_text_ok`); cutting them off a shorter text fails.
pub open spec fn rs_node_ok(n: SyntaxNode) -> bool {
    (n.kind@ == "attribute_item"@ || n.kind@ == "inner_attribute_item"@) ==> attribute_text_ok(n.text@)
}

/// Every node of the tree rooted at `n` is one the walk can take.
pub open spec fn rs_tree_ok(n: SyntaxNode) -> bool
    decreases n, 1int,
{
    rs_node_ok(n) && rs_forest_ok(n.children@, 0)
}

/// Every tree rooted at `cs[i]`, `cs[i + 1]`, ... is one the walk can
/// take.
pub open spec fn rs_forest_ok(cs: Seq<SyntaxNode>, i: int) -> bool
    decreases cs, cs.len() - i,
{
    if 0 <= i < cs.len() {
        rs_tree_ok(cs[i]) && rs_forest_ok(cs, i + 1)
    } else {
        true
    }
}

proof fn lemma_rs_forest_ok(cs: Seq<SyntaxNode>, i: int)
    requires
        0 <= i,
        rs_forest_ok(cs, i),
    ensures
        forall|j: int| i <= j < cs.len() ==> #[trigger] rs_tree_ok(cs[j]),
    decreases cs.len() - i,
{
    if i < cs.len() {
        lemma_rs_forest_ok(cs, i + 1);
    }
}

/// A node the walk takes, and every child of it, can be taken.
pub proof fn lemma_rs_tree_ok(n: SyntaxNode)
    requires
        rs_tree_ok(n),
    ensures
        rs_node_ok(n),
        forall|i: int| 0 <= i < n.children@.len() ==> #[trigger] rs_tree_ok(n.children@[i]),
{
    lemma_rs_forest_ok(n.children@, 0);
}

// ---------------------------------------------------------------------------
// Leaf items
// ---------------------------------------------------------------------------

/// The text under field `f` of `n`, or `dflt` when there is no such child.
pub open spec fn field_text_or(n: SyntaxNode, f: Seq<char>, dflt: Seq<char>) -> Seq<char> {
    let k = field_index(n.children@, f, 0);
    if 0 <= k < n.children@.len() { n.children@[k].text@ } else { dflt }
}

fn field_text_or_of(n: &SyntaxNode, f: &str, dflt: &str) -> (r: String)
    ensures
        r@ == field_text_or(*n, f@, dflt@),
{
    let k = field_pos(&n.children, f);
    if k < n.children.len() { copy_str(n.children[k].text.as_str()) } else { copy_str(dflt) }
}

/// A row of `relation` for the entity at the next id with the values
/// `vals` after it, and its location at `n`.
pub open spec fn located_row(log: LogView, file: u64, n: SyntaxNode, relation: Seq<char>, vals: Seq<crate::js_extract::ValueView>) -> LogView {
    let x = log.0;
    let l1 = alloc_id(log);
    let loc = l1.0;
    let l2 = location_of(l1, file, n);
    let l3 = row(l2, relation, seq![ent(x)] + vals);
    row(l3, "hasLocation"@, seq![ent(x), ent(loc)])
}

fn emit_located(facts: &mut FactLog, file_id: u64, n: &SyntaxNode, relation: &str, rest: Vec<FactValue>) -> (x: u64)
    ensures
        x == old(facts)@.0,
        final(facts)@ == located_row(old(facts)@, file_id, *n, relation@, values_view(rest@)),
{
    let x = facts.fresh_id();
    let loc = facts.emit_location(file_id, n);
    let mut vs: Vec<FactValue> = Vec::new();
    vs.push(FactValue::Entity(x));
    let mut i: usize = 0;
    while i < rest.len()
        invariant
            i <= rest@.len(),
            values_view(vs@) =~= seq![ent(x)] + values_view(rest@).take(i as int),
        decreases rest@.len() - i,
    {
        let v = copy_value(&rest[i]);
        let ghost before = vs@;
        vs.push(v);
        assert(values_view(vs@) =~= values_view(before).push(rest@[i as int]@));
        assert(values_view(rest@).take(i + 1) =~= values_view(rest@).take(i as int).push(rest@[i as int]@));
        assert(values_view(vs@) =~= seq![ent(x)] + values_view(rest@).take(i + 1));
        i = i + 1;
    }
    assert(values_view(rest@).take(rest@.len() as int) =~= values_view(rest@));
    facts.emit(relation, vs);
    facts.emit("hasLocation", entity_pair(x, loc));
    x
}

fn copy_value(v: &FactValue) -> (r: FactValue)
    ensures
        r@ == v@,
{
    match v {
        FactValue::Entity(e) => FactValue::Entity(*e),
        FactValue::Int(i) => FactValue::Int(*i),
        FactValue::Str(s) => FactValue::Str(copy_str(s.as_str())),
    }
}

fn one(a: FactValue) -> (r: Vec<FactValue>)
    ensures
        values_view(r@) == seq![a@],
{
    let mut r: Vec<FactValue> = Vec::new();
    r.push(a);
    assert(values_view(r@) =~= seq![a@]);
    r
}

fn two(a: FactValue, b: FactValue) -> (r: Vec<FactValue>)
    ensures
        values_view(r@) == seq![a@, b@],
{
    let mut r: Vec<FactValue> = Vec::new();
    r.push(a);
    r.push(b);
    assert(values_view(r@) =~= seq![a@, b@]);
    r
}

fn three(a: FactValue, b: FactValue, c: FactValue) -> (r: Vec<FactValue>)
    ensures
        values_view(r@) == seq![a@, b@, c@],
{
    vals3(a, b, c)
}

fn four(a: FactValue, b: FactValue, c: FactValue, d: FactValue) -> (r: Vec<FactValue>)
    ensures
        values_view(r@) == seq![a@, b@, c@, d@],
{
    vals4(a, b, c, d)
}

/// The comment `n`: its row with its text and its location.
pub open spec fn rs_comment_facts(log: LogView, file: u64, n: SyntaxNode) -> LogView {
    let c = log.0;
    let l1 = alloc_id(log);
    let loc = l1.0;
    let l2 = location_of(l1, file, n);
    row(l2, "rs_comments"@, seq![ent(c), txt(n.text@), ent(loc)])
}

fn extract_rs_comment(facts: &mut FactLog, file_id: u64, node: &SyntaxNode)
    ensures
        final(facts)@ == rs_comment_facts(old(facts)@, file_id, *node),
{
    let c = facts.fresh_id();
    let loc = facts.emit_location(file_id, node);
    facts.emit("rs_comments", vals3(FactValue::Entity(c), text_v(node.text.as_str()), FactValue::Entity(loc)));
}

/// The attribute `n` of `parent`: its name (`attribute_name`) with its
/// location.
pub open spec fn rs_attribute_facts(log: LogView, file: u64, n: SyntaxNode, parent: u64) -> LogView {
    located_row(log, file, n, "rs_attributes"@, seq![txt(attribute_name(n.text@)), ent(parent)])
}

fn extract_attribute(facts: &mut FactLog, file_id: u64, node: &SyntaxNode, parent_id: u64)
    requires
        attribute_text_ok(node.text@),
    ensures
        final(facts)@ == rs_attribute_facts(old(facts)@, file_id, *node, parent_id),
{
    let name = extract_attribute_name(node.text.as_str());
    emit_located(facts, file_id, node, "rs_attributes", two(text_v(name.as_str()), FactValue::Entity(parent_id)));
}

/// The attributes among `cs[i]`, ... of `item`.
pub open spec fn attributes_from(log: LogView, file: u64, cs: Seq<SyntaxNode>, i: int, item: u64) -> LogView
    decreases cs.len() - i,
{
    if 0 <= i < cs.len() {
        let l = if cs[i].kind@ == "attribute_item"@ || cs[i].kind@ == "inner_attribute_item"@ {
            rs_attribute_facts(log, file, cs[i], item)
        } else {
            log
        };
        attributes_from(l, file, cs, i + 1, item)
    } else {
        log
    }
}

fn extract_preceding_attributes(facts: &mut FactLog, file_id: u64, item_id: u64, node: &SyntaxNode)
    requires
        rs_tree_ok(*node),
    ensures
        final(facts)@ == attributes_from(old(facts)@, file_id, node.children@, 0, item_id),
{
    proof {
        lemma_rs_tree_ok(*node);
    }
    let cs = &node.children;
    let ghost start = facts@;
    let mut i: usize = 0;
    while i < cs.len()
        invariant
            cs@ == node.children@,
            forall|j: int| 0 <= j < cs@.len() ==> #[trigger] rs_tree_ok(cs@[j]),
            i <= cs@.len(),
            attributes_from(facts@, file_id, cs@, i as int, item_id) == attributes_from(start, file_id, cs@, 0, item_id),
        decreases cs@.len() - i,
    {
        let c = &cs[i];
        if str_eq(c.kind.as_str(), "attribute_item") || str_eq(c.kind.as_str(), "inner_attribute_item") {
            proof {
                lemma_rs_tree_ok(cs@[i as int]);
            }
            extract_attribute(facts, file_id, c, item_id);
        }
        i = i + 1;
    }
}

/// A named item recorded in `relation` under `parent`, with its location;
/// nothing when it has no name.
pub open spec fn named_item_facts(log: LogView, file: u64, n: SyntaxNode, parent: u64, relation: Seq<char>) -> LogView {
    let name = field_text(n, "name"@);
    if name.len() == 0 { log } else { located_row(log, file, n, relation, seq![txt(name), ent(parent)]) }
}

fn extract_named_item(facts: &mut FactLog, file_id: u64, node: &SyntaxNode, parent_id: u64, relation: &str)
    ensures
        final(facts)@ == named_item_facts(old(facts)@, file_id, *node, parent_id, relation@),
{
    let name = field_text_of(node, "name");
    if chars_of(name.as_str()).len() > 0 {
        emit_located(facts, file_id, node, relation, two(text_v(name.as_str()), FactValue::Entity(parent_id)));
    }
}

/// A const or static item with a name: its row with its type text (or
/// `unknown`) and its location.
pub open spec fn rs_const_facts(log: LogView, file: u64, n: SyntaxNode, parent: u64) -> LogView {
    let name = field_text(n, "name"@);
    if name.len() == 0 {
        log
    } else {
        located_row(log, file, n, "rs_consts"@, seq![txt(name), txt(field_text_or(n, "type"@, "unknown"@)), ent(parent)])
    }
}

fn extract_const(facts: &mut FactLog, file_id: u64, node: &SyntaxNode, parent_id: u64)
    ensures
        final(facts)@ == rs_const_facts(old(facts)@, file_id, *node, parent_id),
{
    let name = field_text_of(node, "name");
    if chars_of(name.as_str()).len() > 0 {
        let ty = field_text_or_of(node, "type", "unknown");
        emit_located(facts, file_id, node, "rs_consts", three(text_v(name.as_str()), text_v(ty.as_str()), FactValue::Entity(parent_id)));
    }
}

/// The position of the first child that names what a `use` declaration
/// brings in, or `cs.len()`.
pub open spec fn use_target(cs: Seq<SyntaxNode>, i: int) -> int
    decreases cs.len() - i,
{
    if 0 <= i < cs.len() {
        let k = cs[i].kind@;
        if k == "use_as_clause"@ || k == "scoped_identifier"@ || k == "identifier"@ || k == "scoped_use_list"@
            || k == "use_wildcard"@ || k == "use_list"@ {
            i
        } else {
            use_target(cs, i + 1)
        }
    } else {
        cs.len() as int
    }
}

/// The `use` declaration `n`: its path and alias (a `use ... as` clause
/// gives both; another path is the text of its node; failing both, the
/// declaration's text without `use `s before and `;`s after, trimmed),
/// with its location.
pub open spec fn rs_use_facts(log: LogView, file: u64, n: SyntaxNode, parent: u64) -> LogView {
    let t = use_target(n.children@, 0);
    let (path, alias) = if 0 <= t < n.children@.len() {
        let c = n.children@[t];
        if c.kind@ == "use_as_clause"@ {
            (field_text(c, "path"@), field_text(c, "alias"@))
        } else {
            (c.text@, Seq::empty())
        }
    } else {
        (trim(trim_end_char(strip_prefixes(n.text@, "use "@), ';')), Seq::empty())
    };
    located_row(log, file, n, "rs_use_decls"@, seq![txt(path), txt(alias), ent(parent)])
}

fn use_target_pos(cs: &Vec<SyntaxNode>) -> (r: usize)
    ensures
        r == use_target(cs@, 0),
        r <= cs@.len(),
{
    let mut i: usize = 0;
    while i < cs.len()
        invariant
            i <= cs@.len(),
            use_target(cs@, 0) == use_target(cs@, i as int),
        decreases cs@.len() - i,
    {
        let k = cs[i].kind.as_str();
        if str_eq(k, "use_as_clause") || str_eq(k, "scoped_identifier") || str_eq(k, "identifier") || str_eq(
            k,
            "scoped_use_list",
        ) || str_eq(k, "use_wildcard") || str_eq(k, "use_list") {
            return i;
        }
        i = i + 1;
    }
    i
}

fn extract_use(facts: &mut FactLog, file_id: u64, node: &SyntaxNode, parent_id: u64)
    ensures
        final(facts)@ == rs_use_facts(old(facts)@, file_id, *node, parent_id),
{
    proof {
        reveal_strlit("");
        assert(""@ =~= Seq::<char>::empty());
    }
    let t = use_target_pos(&node.children);
    let (path, alias) = if t < node.children.len() {
        let c = &node.children[t];
        if str_eq(c.kind.as_str(), "use_as_clause") {
            (field_text_of(c, "path"), field_text_of(c, "alias"))
        } else {
            (copy_str(c.text.as_str()), copy_str(""))
        }
    } else {
        let a = strip_prefixes_of(node.text.as_str(), "use ");
        let b = trim_end_char_chars(chars_of(a.as_str()).as_slice(), ';');
        let c = trim_chars(b.as_slice());
        (string_of(c.as_slice()), copy_str(""))
    };
    emit_located(facts, file_id, node, "rs_use_decls", three(text_v(path.as_str()), text_v(alias.as_str()), FactValue::Entity(parent_id)));
}

/// The impl block head `n`: its row with its type and trait texts (or the
/// empty text) and its location.
pub open spec fn rs_impl_head(log: LogView, file: u64, n: SyntaxNode, parent: u64) -> LogView {
    located_row(log, file, n, "rs_impls"@, seq![txt(field_text(n, "type"@)), txt(field_text(n, "trait"@)), ent(parent)])
}

/// The `rs_impls` row of an impl block names the implemented type by the
/// text of its `type` child and the trait by the text of its `trait` child
/// (each empty when absent), under the block's own id and its parent; the
/// row follows the block's location.
pub proof fn lemma_impl_row(log: LogView, file: u64, n: SyntaxNode, parent: u64)
    ensures
        rs_impl_head(log, file, n, parent).1.len() == log.1.len() + 3,
        rs_impl_head(log, file, n, parent).1[log.1.len() as int + 1] == FactView::Row(
            "rs_impls"@,
            seq![ent(log.0), txt(field_child_text(n, "type"@)), txt(field_child_text(n, "trait"@)), ent(parent)],
        ),
{
    lemma_field_text_is_field_child_text(n, "type"@);
    lemma_field_text_is_field_child_text(n, "trait"@);
    let vals = seq![ent(log.0), txt(field_child_text(n, "type"@)), txt(field_child_text(n, "trait"@)), ent(parent)];
    assert(seq![ent(log.0)] + seq![txt(field_text(n, "type"@)), txt(field_text(n, "trait"@)), ent(parent)] =~= vals);
}

// ---------------------------------------------------------------------------
// Fields, variants, generics and parameters
// ---------------------------------------------------------------------------

/// The named field declarations among `cs[i]`, ... of `owner`, each with
/// its type text (or `unknown`) and its location.
pub open spec fn struct_fields_from(log: LogView, file: u64, cs: Seq<SyntaxNode>, i: int, owner: u64) -> LogView
    decreases cs.len() - i,
{
    if 0 <= i < cs.len() {
        let c = cs[i];
        let name = field_text(c, "name"@);
        let l = if c.kind@ == "field_declaration"@ && name.len() > 0 {
            located_row(log, file, c, "rs_fields"@, seq![txt(name), txt(field_text_or(c, "type"@, "unknown"@)), ent(owner)])
        } else {
            log
        };
        struct_fields_from(l, file, cs, i + 1, owner)
    } else {
        log
    }
}

fn extract_struct_fields(facts: &mut FactLog, file_id: u64, owner: u64, body: &SyntaxNode)
    ensures
        final(facts)@ == struct_fields_from(old(facts)@, file_id, body.children@, 0, owner),
{
    let cs = &body.children;
    let ghost start = facts@;
    let mut i: usize = 0;
    while i < cs.len()
        invariant
            cs@ == body.children@,
            i <= cs@.len(),
            struct_fields_from(facts@, file_id, cs@, i as int, owner) == struct_fields_from(start, file_id, cs@, 0, owner),
        decreases cs@.len() - i,
    {
        let c = &cs[i];
        let name = field_text_of(c, "name");
        if str_eq(c.kind.as_str(), "field_declaration") && chars_of(name.as_str()).len() > 0 {
            let ty = field_text_or_of(c, "type", "unknown");
            emit_located(facts, file_id, c, "rs_fields", three(text_v(name.as_str()), text_v(ty.as_str()), FactValue::Entity(owner)));
        }
        i = i + 1;
    }
}

/// The field declarations among `cs[i]`, ... of a variant `owner`: a
/// field without a name is named by its position `k` among them.
pub open spec fn variant_fields_from(log: LogView, file: u64, cs: Seq<SyntaxNode>, i: int, owner: u64, k: nat) -> LogView
    decreases cs.len() - i,
{
    if 0 <= i < cs.len() {
        let c = cs[i];
        if c.kind@ == "field_declaration"@ {
            let l = located_row(log, file, c, "rs_fields"@, seq![txt(field_text_or(c, "name"@, decimal(k))), txt(field_text_or(c, "type"@, "unknown"@)), ent(owner)]);
            variant_fields_from(l, file, cs, i + 1, owner, k + 1)
        } else {
            variant_fields_from(log, file, cs, i + 1, owner, k)
        }
    } else {
        log
    }
}

fn extract_variant_fields(facts: &mut FactLog, file_id: u64, owner: u64, body: &SyntaxNode)
    ensures
        final(facts)@ == variant_fields_from(old(facts)@, file_id, body.children@, 0, owner, 0),
{
    let cs = &body.children;
    let ghost start = facts@;
    let mut i: usize = 0;
    let mut k: usize = 0;
    while i < cs.len()
        invariant
            cs@ == body.children@,
            i <= cs@.len(),
            k <= i,
            variant_fields_from(facts@, file_id, cs@, i as int, owner, k as nat) == variant_fields_from(start, file_id, cs@, 0, owner, 0),
        decreases cs@.len() - i,
    {
        let c = &cs[i];
        if str_eq(c.kind.as_str(), "field_declaration") {
            let mut dflt = String::new();
            push_decimal(&mut dflt, k as u64);
            assert(dflt@ =~= decimal(k as nat));
            let name = field_text_or_of(c, "name", dflt.as_str());
            let ty = field_text_or_of(c, "type", "unknown");
            emit_located(facts, file_id, c, "rs_fields", three(text_v(name.as_str()), text_v(ty.as_str()), FactValue::Entity(owner)));
            k = k + 1;
        }
        i = i + 1;
    }
}

/// The named variants among `cs[i]`, ... of the enum `owner`, each with
/// its location and its fields.
pub open spec fn variants_from(log: LogView, file: u64, cs: Seq<SyntaxNode>, i: int, owner: u64) -> LogView
    decreases cs.len() - i,
{
    if 0 <= i < cs.len() {
        let c = cs[i];
        let name = field_text(c, "name"@);
        let l = if c.kind@ == "enum_variant"@ && name.len() > 0 {
            let v = log.0;
            let l1 = located_row(log, file, c, "rs_enum_variants"@, seq![txt(name), ent(owner)]);
            let b = field_index(c.children@, "body"@, 0);
            if 0 <= b < c.children@.len() { variant_fields_from(l1, file, c.children@[b].children@, 0, v, 0) } else { l1 }
        } else {
            log
        };
        variants_from(l, file, cs, i + 1, owner)
    } else {
        log
    }
}

fn extract_enum_variants(facts: &mut FactLog, file_id: u64, owner: u64, body: &SyntaxNode)
    ensures
        final(facts)@ == variants_from(old(facts)@, file_id, body.children@, 0, owner),
{
    let cs = &body.children;
    let ghost start = facts@;
    let mut i: usize = 0;
    while i < cs.len()
        invariant
            cs@ == body.children@,
            i <= cs@.len(),
            variants_from(facts@, file_id, cs@, i as int, owner) == variants_from(start, file_id, cs@, 0, owner),
        decreases cs@.len() - i,
    {
        let c = &cs[i];
        let name = field_text_of(c, "name");
        if str_eq(c.kind.as_str(), "enum_variant") && chars_of(name.as_str()).len() > 0 {
            let v = emit_located(facts, file_id, c, "rs_enum_variants", two(text_v(name.as_str()), FactValue::Entity(owner)));
            let b = field_pos(&c.children, "body");
            if b < c.children.len() {
                extract_variant_fields(facts, file_id, v, &c.children[b]);
            }
        }
        i = i + 1;
    }
}

/// The kinds that name a trait bound directly.
pub open spec fn bound_kind(k: Seq<char>) -> bool {
    k == "type_identifier"@ || k == "scoped_type_identifier"@ || k == "generic_type"@ || k == "scoped_identifier"@
}

fn is_bound_kind(k: &str) -> (r: bool)
    ensures
        r == bound_kind(k@),
{
    str_eq(k, "type_identifier") || str_eq(k, "scoped_type_identifier") || str_eq(k, "generic_type") || str_eq(k, "scoped_identifier")
}

/// A trait bound named `name` of the generic `g`, at `n`.
pub open spec fn bound_facts(log: LogView, file: u64, n: SyntaxNode, name: Seq<char>, g: u64) -> LogView {
    located_row(log, file, n, "rs_trait_bounds"@, seq![txt(name), ent(g)])
}

/// The bounds named among `cs[i]`, ... (the children of a compound bound),
/// and whether one was found.
pub open spec fn inner_bounds_from(log: LogView, file: u64, cs: Seq<SyntaxNode>, i: int, g: u64, found: bool) -> (LogView, bool)
    decreases cs.len() - i,
{
    if 0 <= i < cs.len() {
        if bound_kind(cs[i].kind@) {
            inner_bounds_from(bound_facts(log, file, cs[i], cs[i].text@, g), file, cs, i + 1, g, true)
        } else {
            inner_bounds_from(log, file, cs, i + 1, g, found)
        }
    } else {
        (log, found)
    }
}

/// The bounds among `cs[i]`, ... of a bounds list of the generic `g`: a
/// bound name directly; another named child (not a lifetime, not `+`, not
/// empty) gives the bound names among its children, or itself when it
/// holds none.
pub open spec fn bounds_from(log: LogView, file: u64, cs: Seq<SyntaxNode>, i: int, g: u64) -> LogView
    decreases cs.len() - i,
{
    if 0 <= i < cs.len() {
        let c = cs[i];
        let l = if bound_kind(c.kind@) {
            bound_facts(log, file, c, c.text@, g)
        } else if c.named && c.kind@ != "lifetime"@ && c.text@.len() > 0 && c.text@ != "+"@ {
            let (l1, found) = inner_bounds_from(log, file, c.children@, 0, g, false);
            if !found && c.kind@ != "+"@ { bound_facts(l1, file, c, c.text@, g) } else { l1 }
        } else {
            log
        };
        bounds_from(l, file, cs, i + 1, g)
    } else {
        log
    }
}

fn extract_trait_bounds(facts: &mut FactLog, file_id: u64, g: u64, node: &SyntaxNode)
    ensures
        final(facts)@ == bounds_from(old(facts)@, file_id, node.children@, 0, g),
{
    let cs = &node.children;
    let ghost start = facts@;
    let mut i: usize = 0;
    while i < cs.len()
        invariant
            cs@ == node.children@,
            i <= cs@.len(),
            bounds_from(facts@, file_id, cs@, i as int, g) == bounds_from(start, file_id, cs@, 0, g),
        decreases cs@.len() - i,
    {
        let c = &cs[i];
        if is_bound_kind(c.kind.as_str()) {
            emit_located(facts, file_id, c, "rs_trait_bounds", two(text_v(c.text.as_str()), FactValue::Entity(g)));
        } else if c.named && !str_eq(c.kind.as_str(), "lifetime") && chars_of(c.text.as_str()).len() > 0 && !str_eq(
            c.text.as_str(),
            "+",
        ) {
            let ics = &c.children;
            let ghost inner_start = facts@;
            let mut j: usize = 0;
            let mut found = false;
            while j < ics.len()
                invariant
                    ics@ == c.children@,
                    j <= ics@.len(),
                    inner_bounds_from(facts@, file_id, ics@, j as int, g, found) == inner_bounds_from(inner_start, file_id, ics@, 0, g, false),
                decreases ics@.len() - j,
            {
                if is_bound_kind(ics[j].kind.as_str()) {
                    emit_located(facts, file_id, &ics[j], "rs_trait_bounds", two(text_v(ics[j].text.as_str()), FactValue::Entity(g)));
                    found = true;
                }
                j = j + 1;
            }
            if !found && !str_eq(c.kind.as_str(), "+") {
                emit_located(facts, file_id, c, "rs_trait_bounds", two(text_v(c.text.as_str()), FactValue::Entity(g)));
            }
        }
        i = i + 1;
    }
}

/// The position of the first child of kind `trait_bounds` from `i` on.
pub open spec fn bounds_children_from(log: LogView, file: u64, cs: Seq<SyntaxNode>, i: int, g: u64) -> LogView
    decreases cs.len() - i,
{
    if 0 <= i < cs.len() {
        let l = if cs[i].kind@ == "trait_bounds"@ { bounds_from(log, file, cs[i].children@, 0, g) } else { log };
        bounds_children_from(l, file, cs, i + 1, g)
    } else {
        log
    }
}

/// The name of a constrained type parameter: its `left` child, else its
/// first child when that is a type identifier, else the empty text.
pub open spec fn constrained_name(c: SyntaxNode) -> Seq<char> {
    let l = field_index(c.children@, "left"@, 0);
    if 0 <= l < c.children@.len() {
        c.children@[l].text@
    } else if c.children@.len() > 0 && c.children@[0].kind@ == "type_identifier"@ {
        c.children@[0].text@
    } else {
        Seq::empty()
    }
}

/// The type parameters among `cs[i]`, ... of `parent`, from position `idx`
/// on: each named one with its location and its bounds.
pub open spec fn generics_from(log: LogView, file: u64, cs: Seq<SyntaxNode>, i: int, parent: u64, idx: i64) -> LogView
    decreases cs.len() - i,
{
    if 0 <= i < cs.len() {
        let c = cs[i];
        if c.kind@ == "type_parameter"@ && field_text(c, "name"@).len() > 0 {
            let g = log.0;
            let l1 = located_row(log, file, c, "rs_generics"@, seq![txt(field_text(c, "name"@)), num(idx), ent(parent)]);
            let b = field_index(c.children@, "bounds"@, 0);
            let l2 = if 0 <= b < c.children@.len() { bounds_from(l1, file, c.children@[b].children@, 0, g) } else { l1 };
            generics_from(l2, file, cs, i + 1, parent, next_index(idx))
        } else if c.kind@ == "constrained_type_parameter"@ && constrained_name(c).len() > 0 {
            let g = log.0;
            let l1 = located_row(log, file, c, "rs_generics"@, seq![txt(constrained_name(c)), num(idx), ent(parent)]);
            let b = field_index(c.children@, "bounds"@, 0);
            let l2 = if 0 <= b < c.children@.len() {
                bounds_from(l1, file, c.children@[b].children@, 0, g)
            } else {
                bounds_children_from(l1, file, c.children@, 0, g)
            };
            generics_from(l2, file, cs, i + 1, parent, next_index(idx))
        } else {
            generics_from(log, file, cs, i + 1, parent, idx)
        }
    } else {
        log
    }
}

fn constrained_name_of(c: &SyntaxNode) -> (r: String)
    ensures
        r@ == constrained_name(*c),
{
    let l = field_pos(&c.children, "left");
    if l < c.children.len() {
        copy_str(c.children[l].text.as_str())
    } else if c.children.len() > 0 && str_eq(c.children[0].kind.as_str(), "type_identifier") {
        copy_str(c.children[0].text.as_str())
    } else {
        String::new()
    }
}

fn extract_type_parameters(facts: &mut FactLog, file_id: u64, parent_id: u64, node: &SyntaxNode)
    ensures
        final(facts)@ == generics_from(old(facts)@, file_id, node.children@, 0, parent_id, 0),
{
    let cs = &node.children;
    let ghost start = facts@;
    let mut i: usize = 0;
    let mut idx: i64 = 0;
    while i < cs.len()
        invariant
            cs@ == node.children@,
            i <= cs@.len(),
            generics_from(facts@, file_id, cs@, i as int, parent_id, idx) == generics_from(start, file_id, cs@, 0, parent_id, 0),
        decreases cs@.len() - i,
    {
        let c = &cs[i];
        let tname = field_text_of(c, "name");
        let cname = constrained_name_of(c);
        if str_eq(c.kind.as_str(), "type_parameter") && chars_of(tname.as_str()).len() > 0 {
            let g = emit_located(facts, file_id, c, "rs_generics", three(text_v(tname.as_str()), FactValue::Int(idx), FactValue::Entity(parent_id)));
            let b = field_pos(&c.children, "bounds");
            if b < c.children.len() {
                extract_trait_bounds(facts, file_id, g, &c.children[b]);
            }
            idx = next_pos(idx);
        } else if str_eq(c.kind.as_str(), "constrained_type_parameter") && chars_of(cname.as_str()).len() > 0 {
            let g = emit_located(facts, file_id, c, "rs_generics", three(text_v(cname.as_str()), FactValue::Int(idx), FactValue::Entity(parent_id)));
            let b = field_pos(&c.children, "bounds");
            if b < c.children.len() {
                extract_trait_bounds(facts, file_id, g, &c.children[b]);
            } else {
                let ccs = &c.children;
                let ghost s2 = facts@;
                let mut j: usize = 0;
                while j < ccs.len()
                    invariant
                        ccs@ == c.children@,
                        j <= ccs@.len(),
                        bounds_children_from(facts@, file_id, ccs@, j as int, g) == bounds_children_from(s2, file_id, ccs@, 0, g),
                    decreases ccs@.len() - j,
                {
                    if str_eq(ccs[j].kind.as_str(), "trait_bounds") {
                        extract_trait_bounds(facts, file_id, g, &ccs[j]);
                    }
                    j = j + 1;
                }
            }
            idx = next_pos(idx);
        }
        i = i + 1;
    }
}

/// The parameters among `cs[i]`, ... of the function `f`, from position
/// `idx` on: a parameter with a pattern gives its pattern text and type
/// text (or `unknown`); `self` gives its text as type.
pub open spec fn rs_params_from(log: LogView, file: u64, cs: Seq<SyntaxNode>, i: int, f: u64, idx: i64) -> LogView
    decreases cs.len() - i,
{
    if 0 <= i < cs.len() {
        let c = cs[i];
        if c.kind@ == "parameter"@ && field_text(c, "pattern"@).len() > 0 {
            let l = located_row(log, file, c, "rs_params"@, seq![txt(field_text(c, "pattern"@)), txt(field_text_or(c, "type"@, "unknown"@)), num(idx), ent(f)]);
            rs_params_from(l, file, cs, i + 1, f, next_index(idx))
        } else if c.kind@ == "self_parameter"@ {
            let l = located_row(log, file, c, "rs_params"@, seq![txt("self"@), txt(c.text@), num(idx), ent(f)]);
            rs_params_from(l, file, cs, i + 1, f, next_index(idx))
        } else {
            rs_params_from(log, file, cs, i + 1, f, idx)
        }
    } else {
        log
    }
}

fn extract_rs_parameters(facts: &mut FactLog, file_id: u64, f: u64, params: &SyntaxNode)
    ensures
        final(facts)@ == rs_params_from(old(facts)@, file_id, params.children@, 0, f, 0),
{
    let cs = &params.children;
    let ghost start = facts@;
    let mut i: usize = 0;
    let mut idx: i64 = 0;
    while i < cs.len()
        invariant
            cs@ == params.children@,
            i <= cs@.len(),
            rs_params_from(facts@, file_id, cs@, i as int, f, idx) == rs_params_from(start, file_id, cs@, 0, f, 0),
        decreases cs@.len() - i,
    {
        let c = &cs[i];
        let pat = field_text_of(c, "pattern");
        if str_eq(c.kind.as_str(), "parameter") && chars_of(pat.as_str()).len() > 0 {
            let ty = field_text_or_of(c, "type", "unknown");
            emit_located(facts, file_id, c, "rs_params", four(text_v(pat.as_str()), text_v(ty.as_str()), FactValue::Int(idx), FactValue::Entity(f)));
            idx = next_pos(idx);
        } else if str_eq(c.kind.as_str(), "self_parameter") {
            emit_located(facts, file_id, c, "rs_params", four(text_v("self"), text_v(c.text.as_str()), FactValue::Int(idx), FactValue::Entity(f)));
            idx = next_pos(idx);
        }
        i = i + 1;
    }
}

// ---------------------------------------------------------------------------
// Items, statements and expressions
// ---------------------------------------------------------------------------

/// The item kinds a statement position hands to the item extraction.
pub open spec fn rs_item_kind(k: Seq<char>) -> bool {
    ||| k == "function_item"@ ||| k == "struct_item"@ ||| k == "enum_item"@ ||| k == "trait_item"@
    ||| k == "impl_item"@ ||| k == "mod_item"@ ||| k == "use_declaration"@ ||| k == "const_item"@
    ||| k == "static_item"@ ||| k == "type_item"@ ||| k == "macro_definition"@ ||| k == "attribute_item"@
    ||| k == "inner_attribute_item"@ ||| k == "line_comment"@ ||| k == "block_comment"@
}

fn is_rs_item_kind(k: &str) -> (r: bool)
    ensures
        r == rs_item_kind(k@),
{
    str_eq(k, "function_item") || str_eq(k, "struct_item") || str_eq(k, "enum_item") || str_eq(k, "trait_item")
        || str_eq(k, "impl_item") || str_eq(k, "mod_item") || str_eq(k, "use_declaration") || str_eq(k, "const_item")
        || str_eq(k, "static_item") || str_eq(k, "type_item") || str_eq(k, "macro_definition") || str_eq(
        k,
        "attribute_item",
    ) || str_eq(k, "inner_attribute_item") || str_eq(k, "line_comment") || str_eq(k, "block_comment")
}

/// The loop and branch kinds an expression statement takes as statements.
pub open spec fn rs_compound_kind(k: Seq<char>) -> bool {
    k == "if_expression"@ || k == "match_expression"@ || k == "loop_expression"@ || k == "while_expression"@
        || k == "for_expression"@
}

/// The item `n` under `parent`.
pub open spec fn rs_item_facts(log: LogView, file: u64, n: SyntaxNode, parent: u64) -> LogView
    decreases n, 3int,
{
    let k = n.kind@;
    if k == "mod_item"@ {
        rs_module_facts(log, file, n, parent)
    } else if k == "function_item"@ {
        rs_function_facts(log, file, n, parent)
    } else if k == "struct_item"@ {
        rs_struct_facts(log, file, n, parent)
    } else if k == "enum_item"@ {
        rs_enum_facts(log, file, n, parent)
    } else if k == "trait_item"@ {
        rs_trait_facts(log, file, n, parent)
    } else if k == "impl_item"@ {
        rs_impl_facts(log, file, n, parent)
    } else if k == "type_item"@ {
        named_item_facts(log, file, n, parent, "rs_type_aliases"@)
    } else if k == "const_item"@ || k == "static_item"@ {
        rs_const_facts(log, file, n, parent)
    } else if k == "use_declaration"@ {
        rs_use_facts(log, file, n, parent)
    } else if k == "macro_definition"@ {
        named_item_facts(log, file, n, parent, "rs_macros"@)
    } else if k == "attribute_item"@ || k == "inner_attribute_item"@ {
        rs_attribute_facts(log, file, n, parent)
    } else if k == "line_comment"@ || k == "block_comment"@ {
        rs_comment_facts(log, file, n)
    } else if k == "expression_statement"@ {
        rs_expr_stmt_facts(log, file, n, parent)
    } else if k == "let_declaration"@ {
        rs_let_facts(log, file, n, parent)
    } else {
        log
    }
}

/// The generics under the `type_parameters` field of `n`, if any.
pub open spec fn field_generics(log: LogView, file: u64, n: SyntaxNode, owner: u64) -> LogView {
    let t = field_index(n.children@, "type_parameters"@, 0);
    if 0 <= t < n.children@.len() { generics_from(log, file, n.children@[t].children@, 0, owner, 0) } else { log }
}

/// A module with a name: its row with its location, its attributes, and
/// the items of its body.
pub open spec fn rs_module_facts(log: LogView, file: u64, n: SyntaxNode, parent: u64) -> LogView
    decreases n, 2int,
{
    let name = field_text(n, "name"@);
    if name.len() == 0 {
        log
    } else {
        let m = log.0;
        let l1 = attributes_from(located_row(log, file, n, "rs_modules"@, seq![txt(name), ent(parent)]), file, n.children@, 0, m);
        let b = field_index(n.children@, "body"@, 0);
        if 0 <= b < n.children@.len() { rs_block_items(l1, file, n.children@[b], m) } else { l1 }
    }
}

/// A function with a name: its row with its location, its attributes,
/// generics and parameters, and the statements of its body when that is a
/// block.
pub open spec fn rs_function_facts(log: LogView, file: u64, n: SyntaxNode, parent: u64) -> LogView
    decreases n, 2int,
{
    let name = field_text(n, "name"@);
    if name.len() == 0 {
        log
    } else {
        let f = log.0;
        let l1 = attributes_from(located_row(log, file, n, "rs_functions"@, seq![txt(name), ent(parent)]), file, n.children@, 0, f);
        let l2 = field_generics(l1, file, n, f);
        let p = field_index(n.children@, "parameters"@, 0);
        let l3 = if 0 <= p < n.children@.len() { rs_params_from(l2, file, n.children@[p].children@, 0, f, 0) } else { l2 };
        let b = field_index(n.children@, "body"@, 0);
        if 0 <= b < n.children@.len() && n.children@[b].kind@ == "block"@ {
            rs_block_stmts(l3, file, n.children@[b], f)
        } else {
            l3
        }
    }
}

/// A struct with a name: its row with its location, its attributes,
/// generics and fields.
pub open spec fn rs_struct_facts(log: LogView, file: u64, n: SyntaxNode, parent: u64) -> LogView {
    let name = field_text(n, "name"@);
    if name.len() == 0 {
        log
    } else {
        let s = log.0;
        let l1 = attributes_from(located_row(log, file, n, "rs_structs"@, seq![txt(name), ent(parent)]), file, n.children@, 0, s);
        let l2 = field_generics(l1, file, n, s);
        let b = field_index(n.children@, "body"@, 0);
        if 0 <= b < n.children@.len() { struct_fields_from(l2, file, n.children@[b].children@, 0, s) } else { l2 }
    }
}

/// An enum with a name: its row with its location, its attributes,
/// generics and variants.
pub open spec fn rs_enum_facts(log: LogView, file: u64, n: SyntaxNode, parent: u64) -> LogView {
    let name = field_text(n, "name"@);
    if name.len() == 0 {
        log
    } else {
        let e = log.0;
        let l1 = attributes_from(located_row(log, file, n, "rs_enums"@, seq![txt(name), ent(parent)]), file, n.children@, 0, e);
        let l2 = field_generics(l1, file, n, e);
        let b = field_index(n.children@, "body"@, 0);
        if 0 <= b < n.children@.len() { variants_from(l2, file, n.children@[b].children@, 0, e) } else { l2 }
    }
}

/// A trait with a name: its row with its location, its attributes,
/// generics and associated items.
pub open spec fn rs_trait_facts(log: LogView, file: u64, n: SyntaxNode, parent: u64) -> LogView
    decreases n, 2int,
{
    let name = field_text(n, "name"@);
    if name.len() == 0 {
        log
    } else {
        let t = log.0;
        let l1 = attributes_from(located_row(log, file, n, "rs_traits"@, seq![txt(name), ent(parent)]), file, n.children@, 0, t);
        let l2 = field_generics(l1, file, n, t);
        let b = field_index(n.children@, "body"@, 0);
        if 0 <= b < n.children@.len() { rs_assoc_items(l2, file, n.children@[b], t, true) } else { l2 }
    }
}

/// An impl block: its row with its location, its attributes, generics and
/// associated items.
pub open spec fn rs_impl_facts(log: LogView, file: u64, n: SyntaxNode, parent: u64) -> LogView
    decreases n, 2int,
{
    let i = log.0;
    let l1 = attributes_from(rs_impl_head(log, file, n, parent), file, n.children@, 0, i);
    let l2 = field_generics(l1, file, n, i);
    let b = field_index(n.children@, "body"@, 0);
    if 0 <= b < n.children@.len() { rs_assoc_items(l2, file, n.children@[b], i, false) } else { l2 }
}

/// The associated items of a trait (when `of_trait`, where function
/// signatures count as functions) or impl body `b` of `owner`.
pub open spec fn rs_assoc_items(log: LogView, file: u64, b: SyntaxNode, owner: u64, of_trait: bool) -> LogView
    decreases b, 2int,
{
    assoc_from(log, file, b.children@, 0, owner, of_trait)
}

pub open spec fn assoc_from(log: LogView, file: u64, cs: Seq<SyntaxNode>, i: int, owner: u64, of_trait: bool) -> LogView
    decreases cs, cs.len() - i,
{
    if 0 <= i < cs.len() {
        let c = cs[i];
        let k = c.kind@;
        let l = if k == "function_item"@ || (of_trait && k == "function_signature_item"@) {
            rs_function_facts(log, file, c, owner)
        } else if k == "type_item"@ {
            named_item_facts(log, file, c, owner, "rs_type_aliases"@)
        } else if k == "const_item"@ {
            rs_const_facts(log, file, c, owner)
        } else if k == "attribute_item"@ {
            rs_attribute_facts(log, file, c, owner)
        } else if k == "line_comment"@ || k == "block_comment"@ {
            rs_comment_facts(log, file, c)
        } else {
            log
        };
        assoc_from(l, file, cs, i + 1, owner, of_trait)
    } else {
        log
    }
}

/// The named children of `b` as items under `parent`.
pub open spec fn rs_block_items(log: LogView, file: u64, b: SyntaxNode, parent: u64) -> LogView
    decreases b, 2int,
{
    items_from(log, file, b.children@, 0, parent)
}

pub open spec fn items_from(log: LogView, file: u64, cs: Seq<SyntaxNode>, i: int, parent: u64) -> LogView
    decreases cs, cs.len() - i,
{
    if 0 <= i < cs.len() {
        let l = if cs[i].named { rs_item_facts(log, file, cs[i], parent) } else { log };
        items_from(l, file, cs, i + 1, parent)
    } else {
        log
    }
}

/// The named children of the block `b` as statements under `parent`, the
/// statements taking the positions from 0 on.
pub open spec fn rs_block_stmts(log: LogView, file: u64, b: SyntaxNode, parent: u64) -> LogView
    decreases b, 0int,
{
    stmts_from(log, file, b.children@, 0, parent, 0)
}

pub open spec fn stmts_from(log: LogView, file: u64, cs: Seq<SyntaxNode>, i: int, parent: u64, idx: i64) -> LogView
    decreases cs, cs.len() - i,
{
    if 0 <= i < cs.len() {
        if cs[i].named {
            let (l, r) = rs_stmt_facts(log, file, cs[i], parent, idx);
            stmts_from(l, file, cs, i + 1, parent, if r is Some { next_index(idx) } else { idx })
        } else {
            stmts_from(log, file, cs, i + 1, parent, idx)
        }
    } else {
        log
    }
}

/// A `let` declaration `n` under `parent`: a variable for a non-empty
/// pattern with its type text (or `unknown`) and location, then its value
/// at position 0.
pub open spec fn rs_let_facts(log: LogView, file: u64, n: SyntaxNode, parent: u64) -> LogView
    decreases n, 1int,
{
    let name = field_text(n, "pattern"@);
    let l1 = if name.len() > 0 {
        located_row(log, file, n, "rs_local_vars"@, seq![txt(name), txt(field_text_or(n, "type"@, "unknown"@)), ent(parent)])
    } else {
        log
    };
    rs_field_expr(l1, file, n, "value"@, parent, 0)
}

/// An expression statement `n` under `parent`: each named child at
/// position 0, loops and branches as statements, the rest as expressions.
pub open spec fn rs_expr_stmt_facts(log: LogView, file: u64, n: SyntaxNode, parent: u64) -> LogView
    decreases n, 0int,
{
    expr_stmt_from(log, file, n.children@, 0, parent)
}

pub open spec fn expr_stmt_from(log: LogView, file: u64, cs: Seq<SyntaxNode>, i: int, parent: u64) -> LogView
    decreases cs, cs.len() - i,
{
    if 0 <= i < cs.len() {
        let l = if cs[i].named {
            if rs_compound_kind(cs[i].kind@) {
                rs_stmt_facts(log, file, cs[i], parent, 0).0
            } else {
                rs_expr_facts(log, file, cs[i], parent, 0).0
            }
        } else {
            log
        };
        expr_stmt_from(l, file, cs, i + 1, parent)
    } else {
        log
    }
}

/// The statement `n` at position `idx` under `parent`: for a statement
/// kind (`rust_stmt_kind`) its row with its location, what its parts emit,
/// and its id; an item is handed to the item extraction; anything else is
/// an expression.
pub open spec fn rs_stmt_facts(log: LogView, file: u64, n: SyntaxNode, parent: u64, idx: i64) -> (LogView, Option<u64>)
    decreases n, 4int,
{
    match rust_stmt_kind(n.kind@) {
        Some(k) => {
            let s = log.0;
            let l1 = located_row(log, file, n, "rs_stmts"@, seq![num(k), ent(parent), num(idx)]);
            (rs_stmt_body_facts(l1, file, n, s), Some(s))
        },
        None => if rs_item_kind(n.kind@) {
            (rs_item_facts(log, file, n, parent), None)
        } else {
            rs_expr_facts(log, file, n, parent, idx)
        },
    }
}

/// The expression under field `f` of `n`, if there is one.
pub open spec fn rs_field_expr(log: LogView, file: u64, n: SyntaxNode, f: Seq<char>, parent: u64, idx: i64) -> LogView
    decreases n, 0int,
{
    let k = field_index(n.children@, f, 0);
    if 0 <= k < n.children@.len() { rs_expr_facts(log, file, n.children@[k], parent, idx).0 } else { log }
}

/// The block under field `f` of `n`, if there is one, as statements under
/// `parent`.
pub open spec fn rs_field_block(log: LogView, file: u64, n: SyntaxNode, f: Seq<char>, parent: u64) -> LogView
    decreases n, 0int,
{
    let k = field_index(n.children@, f, 0);
    if 0 <= k < n.children@.len() { rs_block_stmts(log, file, n.children@[k], parent) } else { log }
}

/// The named children of an `else` clause `e`, each a statement at
/// position 1.
pub open spec fn rs_else_clause(log: LogView, file: u64, e: SyntaxNode, s: u64) -> LogView
    decreases e, 0int,
{
    else_from(log, file, e.children@, 0, s)
}

pub open spec fn else_from(log: LogView, file: u64, cs: Seq<SyntaxNode>, i: int, s: u64) -> LogView
    decreases cs, cs.len() - i,
{
    if 0 <= i < cs.len() {
        let l = if cs[i].named { rs_stmt_facts(log, file, cs[i], s, 1).0 } else { log };
        else_from(l, file, cs, i + 1, s)
    } else {
        log
    }
}

/// The value of the arm `a` at position `idx`.
pub open spec fn rs_arm_value(log: LogView, file: u64, a: SyntaxNode, s: u64, idx: i64) -> LogView
    decreases a, 1int,
{
    rs_field_expr(log, file, a, "value"@, s, idx)
}

/// The arms of a match body `b`: the value of the `k`-th arm at position
/// `k + 1`.
pub open spec fn rs_arms(log: LogView, file: u64, b: SyntaxNode, s: u64) -> LogView
    decreases b, 0int,
{
    arms_from(log, file, b.children@, 0, s, 0)
}

pub open spec fn arms_from(log: LogView, file: u64, cs: Seq<SyntaxNode>, i: int, s: u64, k: i64) -> LogView
    decreases cs, cs.len() - i,
{
    if 0 <= i < cs.len() {
        if cs[i].kind@ == "match_arm"@ {
            arms_from(rs_arm_value(log, file, cs[i], s, next_index(k)), file, cs, i + 1, s, next_index(k))
        } else {
            arms_from(log, file, cs, i + 1, s, k)
        }
    } else {
        log
    }
}

/// The named children among `cs[i]`, ... other than `return`, each an
/// expression at position 0.
pub open spec fn returned_from(log: LogView, file: u64, cs: Seq<SyntaxNode>, i: int, s: u64) -> LogView
    decreases cs, cs.len() - i,
{
    if 0 <= i < cs.len() {
        let l = if cs[i].named && cs[i].kind@ != "return"@ { rs_expr_facts(log, file, cs[i], s, 0).0 } else { log };
        returned_from(l, file, cs, i + 1, s)
    } else {
        log
    }
}

/// What the parts of the statement `n`, whose id is `s`, emit.
pub open spec fn rs_stmt_body_facts(log: LogView, file: u64, n: SyntaxNode, s: u64) -> LogView
    decreases n, 3int,
{
    let k = n.kind@;
    if k == "let_declaration"@ {
        rs_let_facts(log, file, n, s)
    } else if k == "expression_statement"@ {
        rs_expr_stmt_facts(log, file, n, s)
    } else if k == "return_expression"@ {
        returned_from(log, file, n.children@, 0, s)
    } else if k == "if_expression"@ {
        let l1 = rs_field_expr(log, file, n, "condition"@, s, 0);
        let l2 = rs_field_block(l1, file, n, "consequence"@, s);
        let a = field_index(n.children@, "alternative"@, 0);
        if 0 <= a < n.children@.len() {
            let alt = n.children@[a];
            if alt.kind@ == "block"@ {
                rs_block_stmts(l2, file, alt, s)
            } else if alt.kind@ == "else_clause"@ {
                rs_else_clause(l2, file, alt, s)
            } else {
                rs_stmt_facts(l2, file, alt, s, 1).0
            }
        } else {
            l2
        }
    } else if k == "match_expression"@ {
        let l1 = rs_field_expr(log, file, n, "value"@, s, 0);
        let b = field_index(n.children@, "body"@, 0);
        if 0 <= b < n.children@.len() { rs_arms(l1, file, n.children@[b], s) } else { l1 }
    } else if k == "loop_expression"@ {
        rs_field_block(log, file, n, "body"@, s)
    } else if k == "while_expression"@ {
        rs_field_block(rs_field_expr(log, file, n, "condition"@, s, 0), file, n, "body"@, s)
    } else if k == "for_expression"@ {
        let p = field_index(n.children@, "pattern"@, 0);
        let l1 = if 0 <= p < n.children@.len() && n.children@[p].text@.len() > 0 {
            located_row(log, file, n.children@[p], "rs_local_vars"@, seq![txt(n.children@[p].text@), txt("unknown"@), ent(s)])
        } else {
            log
        };
        rs_field_block(rs_field_expr(l1, file, n, "value"@, s, 0), file, n, "body"@, s)
    } else if k == "block"@ {
        rs_block_stmts(log, file, n, s)
    } else {
        log
    }
}

/// The expression `n` at position `idx` under `parent`: parentheses stand
/// for their first named child, a cast for its value; an expression kind
/// (`rust_expr_class`) gives its row with its location, what its parts
/// emit, and its id; another node nothing.
pub open spec fn rs_expr_facts(log: LogView, file: u64, n: SyntaxNode, parent: u64, idx: i64) -> (LogView, Option<u64>)
    decreases n, 2int,
{
    match rust_expr_class(n.kind@) {
        ExprClass::Unwrap => {
            let c = first_named(n.children@, 0);
            if 0 <= c < n.children@.len() { rs_expr_facts(log, file, n.children@[c], parent, idx) } else { (log, None) }
        },
        ExprClass::ValueField => {
            let v = field_index(n.children@, "value"@, 0);
            if 0 <= v < n.children@.len() { rs_expr_facts(log, file, n.children@[v], parent, idx) } else { (log, None) }
        },
        ExprClass::Kind(ek) => {
            let e = log.0;
            let l1 = located_row(log, file, n, "rs_exprs"@, seq![num(ek), ent(parent), num(idx)]);
            (rs_expr_body_facts(l1, file, n, e), Some(e))
        },
        _ => (log, None),
    }
}

/// The named children of `n` as expressions from position `first` on.
pub open spec fn rs_named_exprs(log: LogView, file: u64, n: SyntaxNode, parent: u64, first: i64) -> LogView
    decreases n, 0int,
{
    named_exprs_from(log, file, n.children@, 0, parent, first)
}

pub open spec fn named_exprs_from(log: LogView, file: u64, cs: Seq<SyntaxNode>, i: int, parent: u64, idx: i64) -> LogView
    decreases cs, cs.len() - i,
{
    if 0 <= i < cs.len() {
        if cs[i].named {
            named_exprs_from(rs_expr_facts(log, file, cs[i], parent, idx).0, file, cs, i + 1, parent, next_index(idx))
        } else {
            named_exprs_from(log, file, cs, i + 1, parent, idx)
        }
    } else {
        log
    }
}

/// The first named child of `n` as an expression at position 0.
pub open spec fn rs_first_named(log: LogView, file: u64, n: SyntaxNode, parent: u64) -> LogView
    decreases n, 0int,
{
    let c = first_named(n.children@, 0);
    if 0 <= c < n.children@.len() { rs_expr_facts(log, file, n.children@[c], parent, 0).0 } else { log }
}

/// The field initializers of a struct expression body `b` that have a
/// value, the values taking the positions from 0 on.
pub open spec fn rs_inits(log: LogView, file: u64, b: SyntaxNode, e: u64) -> LogView
    decreases b, 0int,
{
    inits_from(log, file, b.children@, 0, e, 0)
}

pub open spec fn inits_from(log: LogView, file: u64, cs: Seq<SyntaxNode>, i: int, e: u64, idx: i64) -> LogView
    decreases cs, cs.len() - i,
{
    if 0 <= i < cs.len() {
        let v = field_index(cs[i].children@, "value"@, 0);
        if cs[i].kind@ == "field_initializer"@ && 0 <= v < cs[i].children@.len() {
            inits_from(rs_field_expr(log, file, cs[i], "value"@, e, idx), file, cs, i + 1, e, next_index(idx))
        } else {
            inits_from(log, file, cs, i + 1, e, idx)
        }
    } else {
        log
    }
}

/// What the parts of the expression `n`, whose id is `e`, emit.
pub open spec fn rs_expr_body_facts(log: LogView, file: u64, n: SyntaxNode, e: u64) -> LogView
    decreases n, 1int,
{
    let k = n.kind@;
    if k == "call_expression"@ {
        let l1 = rs_field_expr(log, file, n, "function"@, e, 0);
        let a = field_index(n.children@, "arguments"@, 0);
        if 0 <= a < n.children@.len() { rs_named_exprs(l1, file, n.children@[a], e, 1) } else { l1 }
    } else if k == "field_expression"@ || k == "reference_expression"@ {
        rs_field_expr(log, file, n, "value"@, e, 0)
    } else if k == "index_expression"@ || k == "tuple_expression"@ || k == "array_expression"@ || k == "range_expression"@ {
        rs_named_exprs(log, file, n, e, 0)
    } else if k == "binary_expression"@ || k == "assignment_expression"@ || k == "compound_assignment_expr"@ {
        rs_field_expr(rs_field_expr(log, file, n, "left"@, e, 0), file, n, "right"@, e, 1)
    } else if k == "unary_expression"@ || k == "try_expression"@ || k == "await_expression"@ || k == "return_expression"@ {
        rs_first_named(log, file, n, e)
    } else if k == "closure_expression"@ {
        rs_field_expr(log, file, n, "body"@, e, 0)
    } else if k == "if_expression"@ {
        rs_field_block(rs_field_expr(log, file, n, "condition"@, e, 0), file, n, "consequence"@, e)
    } else if k == "match_expression"@ {
        rs_field_expr(log, file, n, "value"@, e, 0)
    } else if k == "block"@ {
        rs_block_stmts(log, file, n, e)
    } else if k == "struct_expression"@ {
        let b = field_index(n.children@, "body"@, 0);
        if 0 <= b < n.children@.len() { rs_inits(log, file, n.children@[b], e) } else { log }
    } else {
        log
    }
}

/// The source file `root` of the file `file`: its named children as items
/// of the file.
pub open spec fn rs_source_file_facts(log: LogView, file: u64, root: SyntaxNode) -> LogView {
    items_from(log, file, root.children@, 0, file)
}

fn extract_field_generics(facts: &mut FactLog, file_id: u64, node: &SyntaxNode, owner: u64)
    ensures
        final(facts)@ == field_generics(old(facts)@, file_id, *node, owner),
{
    let t = field_pos(&node.children, "type_parameters");
    if t < node.children.len() {
        extract_type_parameters(facts, file_id, owner, &node.children[t]);
    }
}

/// Emits the item `node` under `parent_id` (`rs_item_facts`).
pub fn extract_item(facts: &mut FactLog, file_id: u64, parent_id: u64, node: &SyntaxNode)
    requires
        rs_tree_ok(*node),
    ensures
        final(facts)@ == rs_item_facts(old(facts)@, file_id, *node, parent_id),
    decreases node, 3int,
{
    proof {
        lemma_rs_tree_ok(*node);
    }
    let k = node.kind.as_str();
    if str_eq(k, "mod_item") {
        extract_rs_module(facts, file_id, parent_id, node);
    } else if str_eq(k, "function_item") {
        extract_rs_function(facts, file_id, parent_id, node);
    } else if str_eq(k, "struct_item") {
        extract_struct(facts, file_id, parent_id, node);
    } else if str_eq(k, "enum_item") {
        extract_enum(facts, file_id, parent_id, node);
    } else if str_eq(k, "trait_item") {
        extract_trait(facts, file_id, parent_id, node);
    } else if str_eq(k, "impl_item") {
        extract_impl(facts, file_id, parent_id, node);
    } else if str_eq(k, "type_item") {
        extract_named_item(facts, file_id, node, parent_id, "rs_type_aliases");
    } else if str_eq(k, "const_item") || str_eq(k, "static_item") {
        extract_const(facts, file_id, node, parent_id);
    } else if str_eq(k, "use_declaration") {
        extract_use(facts, file_id, node, parent_id);
    } else if str_eq(k, "macro_definition") {
        extract_named_item(facts, file_id, node, parent_id, "rs_macros");
    } else if str_eq(k, "attribute_item") || str_eq(k, "inner_attribute_item") {
        extract_attribute(facts, file_id, node, parent_id);
    } else if str_eq(k, "line_comment") || str_eq(k, "block_comment") {
        extract_rs_comment(facts, file_id, node);
    } else if str_eq(k, "expression_statement") {
        extract_expression_statement(facts, file_id, parent_id, node);
    } else if str_eq(k, "let_declaration") {
        extract_let_declaration(facts, file_id, parent_id, node);
    }
}

fn extract_rs_module(facts: &mut FactLog, file_id: u64, parent_id: u64, node: &SyntaxNode)
    requires
        rs_tree_ok(*node),
    ensures
        final(facts)@ == rs_module_facts(old(facts)@, file_id, *node, parent_id),
    decreases node, 2int,
{
    proof {
        lemma_rs_tree_ok(*node);
    }
    let name = field_text_of(node, "name");
    if chars_of(name.as_str()).len() == 0 {
        return;
    }
    let m = emit_located(facts, file_id, node, "rs_modules", two(text_v(name.as_str()), FactValue::Entity(parent_id)));
    extract_preceding_attributes(facts, file_id, m, node);
    let b = field_pos(&node.children, "body");
    if b < node.children.len() {
        extract_block_items(facts, file_id, m, &node.children[b]);
    }
}

fn extract_rs_function(facts: &mut FactLog, file_id: u64, parent_id: u64, node: &SyntaxNode)
    requires
        rs_tree_ok(*node),
    ensures
        final(facts)@ == rs_function_facts(old(facts)@, file_id, *node, parent_id),
    decreases node, 2int,
{
    proof {
        lemma_rs_tree_ok(*node);
    }
    let name = field_text_of(node, "name");
    if chars_of(name.as_str()).len() == 0 {
        return;
    }
    let f = emit_located(facts, file_id, node, "rs_functions", two(text_v(name.as_str()), FactValue::Entity(parent_id)));
    extract_preceding_attributes(facts, file_id, f, node);
    extract_field_generics(facts, file_id, node, f);
    let p = field_pos(&node.children, "parameters");
    if p < node.children.len() {
        extract_rs_parameters(facts, file_id, f, &node.children[p]);
    }
    let b = field_pos(&node.children, "body");
    if b < node.children.len() && str_eq(node.children[b].kind.as_str(), "block") {
        extract_block_stmts(facts, file_id, f, &node.children[b]);
    }
}

fn extract_struct(facts: &mut FactLog, file_id: u64, parent_id: u64, node: &SyntaxNode)
    requires
        rs_tree_ok(*node),
    ensures
        final(facts)@ == rs_struct_facts(old(facts)@, file_id, *node, parent_id),
{
    let name = field_text_of(node, "name");
    if chars_of(name.as_str()).len() == 0 {
        return;
    }
    let s = emit_located(facts, file_id, node, "rs_structs", two(text_v(name.as_str()), FactValue::Entity(parent_id)));
    extract_preceding_attributes(facts, file_id, s, node);
    extract_field_generics(facts, file_id, node, s);
    let b = field_pos(&node.children, "body");
    if b < node.children.len() {
        extract_struct_fields(facts, file_id, s, &node.children[b]);
    }
}

fn extract_enum(facts: &mut FactLog, file_id: u64, parent_id: u64, node: &SyntaxNode)
    requires
        rs_tree_ok(*node),
    ensures
        final(facts)@ == rs_enum_facts(old(facts)@, file_id, *node, parent_id),
{
    let name = field_text_of(node, "name");
    if chars_of(name.as_str()).len() == 0 {
        return;
    }
    let e = emit_located(facts, file_id, node, "rs_enums", two(text_v(name.as_str()), FactValue::Entity(parent_id)));
    extract_preceding_attributes(facts, file_id, e, node);
    extract_field_generics(facts, file_id, node, e);
    let b = field_pos(&node.children, "body");
    if b < node.children.len() {
        extract_enum_variants(facts, file_id, e, &node.children[b]);
    }
}

fn extract_trait(facts: &mut FactLog, file_id: u64, parent_id: u64, node: &SyntaxNode)
    requires
        rs_tree_ok(*node),
    ensures
        final(facts)@ == rs_trait_facts(old(facts)@, file_id, *node, parent_id),
    decreases node, 2int,
{
    proof {
        lemma_rs_tree_ok(*node);
    }
    let name = field_text_of(node, "name");
    if chars_of(name.as_str()).len() == 0 {
        return;
    }
    let t = emit_located(facts, file_id, node, "rs_traits", two(text_v(name.as_str()), FactValue::Entity(parent_id)));
    extract_preceding_attributes(facts, file_id, t, node);
    extract_field_generics(facts, file_id, node, t);
    let b = field_pos(&node.children, "body");
    if b < node.children.len() {
        extract_assoc_items(facts, file_id, t, &node.children[b], true);
    }
}

fn extract_impl(facts: &mut FactLog, file_id: u64, parent_id: u64, node: &SyntaxNode)
    requires
        rs_tree_ok(*node),
    ensures
        final(facts)@ == rs_impl_facts(old(facts)@, file_id, *node, parent_id),
    decreases node, 2int,
{
    proof {
        lemma_rs_tree_ok(*node);
    }
    let ty = field_text_of(node, "type");
    let tr = field_text_of(node, "trait");
    let i = emit_located(facts, file_id, node, "rs_impls", three(text_v(ty.as_str()), text_v(tr.as_str()), FactValue::Entity(parent_id)));
    extract_preceding_attributes(facts, file_id, i, node);
    extract_field_generics(facts, file_id, node, i);
    let b = field_pos(&node.children, "body");
    if b < node.children.len() {
        extract_assoc_items(facts, file_id, i, &node.children[b], false);
    }
}

fn extract_assoc_items(facts: &mut FactLog, file_id: u64, owner: u64, body: &SyntaxNode, of_trait: bool)
    requires
        rs_tree_ok(*body),
    ensures
        final(facts)@ == rs_assoc_items(old(facts)@, file_id, *body, owner, of_trait),
    decreases body, 2int,
{
    proof {
        lemma_rs_tree_ok(*body);
    }
    let cs = &body.children;
    let ghost start = facts@;
    let mut i: usize = 0;
    while i < cs.len()
        invariant
            cs@ == body.children@,
            rs_tree_ok(*body),
            i <= cs@.len(),
            assoc_from(facts@, file_id, cs@, i as int, owner, of_trait) == assoc_from(start, file_id, cs@, 0, owner, of_trait),
        decreases cs@.len() - i,
    {
        proof {
            lemma_rs_tree_ok(*body);
            lemma_rs_tree_ok(cs@[i as int]);
        }
        let c = &cs[i];
        let k = c.kind.as_str();
        if str_eq(k, "function_item") || (of_trait && str_eq(k, "function_signature_item")) {
            extract_rs_function(facts, file_id, owner, c);
        } else if str_eq(k, "type_item") {
            extract_named_item(facts, file_id, c, owner, "rs_type_aliases");
        } else if str_eq(k, "const_item") {
            extract_const(facts, file_id, c, owner);
        } else if str_eq(k, "attribute_item") {
            extract_attribute(facts, file_id, c, owner);
        } else if str_eq(k, "line_comment") || str_eq(k, "block_comment") {
            extract_rs_comment(facts, file_id, c);
        }
        i = i + 1;
    }
}

fn extract_block_items(facts: &mut FactLog, file_id: u64, parent_id: u64, body: &SyntaxNode)
    requires
        rs_tree_ok(*body),
    ensures
        final(facts)@ == rs_block_items(old(facts)@, file_id, *body, parent_id),
    decreases body, 2int,
{
    let cs = &body.children;
    let ghost start = facts@;
    let mut i: usize = 0;
    while i < cs.len()
        invariant
            cs@ == body.children@,
            rs_tree_ok(*body),
            i <= cs@.len(),
            items_from(facts@, file_id, cs@, i as int, parent_id) == items_from(start, file_id, cs@, 0, parent_id),
        decreases cs@.len() - i,
    {
        proof {
            lemma_rs_tree_ok(*body);
        }
        if cs[i].named {
            extract_item(facts, file_id, parent_id, &cs[i]);
        }
        i = i + 1;
    }
}

/// Emits the named children of the block `block` as statements under
/// `parent_id` (`rs_block_stmts`).
pub fn extract_block_stmts(facts: &mut FactLog, file_id: u64, parent_id: u64, block: &SyntaxNode)
    requires
        rs_tree_ok(*block),
    ensures
        final(facts)@ == rs_block_stmts(old(facts)@, file_id, *block, parent_id),
    decreases block, 0int,
{
    let cs = &block.children;
    let ghost start = facts@;
    let mut i: usize = 0;
    let mut idx: i64 = 0;
    while i < cs.len()
        invariant
            cs@ == block.children@,
            rs_tree_ok(*block),
            i <= cs@.len(),
            stmts_from(facts@, file_id, cs@, i as int, parent_id, idx) == stmts_from(start, file_id, cs@, 0, parent_id, 0),
        decreases cs@.len() - i,
    {
        proof {
            lemma_rs_tree_ok(*block);
        }
        if cs[i].named {
            let r = extract_rs_stmt(facts, file_id, &cs[i], parent_id, idx);
            if r.is_some() {
                idx = next_pos(idx);
            }
        }
        i = i + 1;
    }
}

/// Emits the `let` declaration `node` under `parent_id` (`rs_let_facts`).
pub fn extract_let_declaration(facts: &mut FactLog, file_id: u64, parent_id: u64, node: &SyntaxNode)
    requires
        rs_tree_ok(*node),
    ensures
        final(facts)@ == rs_let_facts(old(facts)@, file_id, *node, parent_id),
    decreases node, 1int,
{
    let name = field_text_of(node, "pattern");
    if chars_of(name.as_str()).len() > 0 {
        let ty = field_text_or_of(node, "type", "unknown");
        emit_located(facts, file_id, node, "rs_local_vars", three(text_v(name.as_str()), text_v(ty.as_str()), FactValue::Entity(parent_id)));
    }
    extract_rs_field_expr(facts, file_id, node, "value", parent_id, 0);
}

/// Emits the expression statement `node` under `parent_id`
/// (`rs_expr_stmt_facts`).
pub fn extract_expression_statement(facts: &mut FactLog, file_id: u64, parent_id: u64, node: &SyntaxNode)
    requires
        rs_tree_ok(*node),
    ensures
        final(facts)@ == rs_expr_stmt_facts(old(facts)@, file_id, *node, parent_id),
    decreases node, 0int,
{
    let cs = &node.children;
    let ghost start = facts@;
    let mut i: usize = 0;
    while i < cs.len()
        invariant
            cs@ == node.children@,
            rs_tree_ok(*node),
            i <= cs@.len(),
            expr_stmt_from(facts@, file_id, cs@, i as int, parent_id) == expr_stmt_from(start, file_id, cs@, 0, parent_id),
        decreases cs@.len() - i,
    {
        proof {
            lemma_rs_tree_ok(*node);
        }
        let c = &cs[i];
        if c.named {
            let k = c.kind.as_str();
            if str_eq(k, "if_expression") || str_eq(k, "match_expression") || str_eq(k, "loop_expression") || str_eq(
                k,
                "while_expression",
            ) || str_eq(k, "for_expression") {
                extract_rs_stmt(facts, file_id, c, parent_id, 0);
            } else {
                extract_rs_expr(facts, file_id, c, parent_id, 0);
            }
        }
        i = i + 1;
    }
}

/// Emits the statement `node` at position `idx` under `parent_id` and
/// returns its id (`rs_stmt_facts`).
pub fn extract_rs_stmt(facts: &mut FactLog, file_id: u64, node: &SyntaxNode, parent_id: u64, idx: i64) -> (r: Option<u64>)
    requires
        rs_tree_ok(*node),
    ensures
        (final(facts)@, r) == rs_stmt_facts(old(facts)@, file_id, *node, parent_id, idx),
    decreases node, 4int,
{
    match rust_statement_kind(node) {
        Some(k) => {
            let s = emit_located(facts, file_id, node, "rs_stmts", three(FactValue::Int(k), FactValue::Entity(parent_id), FactValue::Int(idx)));
            extract_rs_stmt_body(facts, file_id, node, s);
            Some(s)
        },
        None => {
            if is_rs_item_kind(node.kind.as_str()) {
                extract_item(facts, file_id, parent_id, node);
                None
            } else {
                extract_rs_expr(facts, file_id, node, parent_id, idx)
            }
        },
    }
}

fn extract_rs_field_expr(facts: &mut FactLog, file_id: u64, node: &SyntaxNode, f: &str, parent_id: u64, idx: i64)
    requires
        rs_tree_ok(*node),
    ensures
        final(facts)@ == rs_field_expr(old(facts)@, file_id, *node, f@, parent_id, idx),
    decreases node, 0int,
{
    proof {
        lemma_rs_tree_ok(*node);
    }
    let k = field_pos(&node.children, f);
    if k < node.children.len() {
        extract_rs_expr(facts, file_id, &node.children[k], parent_id, idx);
    }
}

fn extract_rs_field_block(facts: &mut FactLog, file_id: u64, node: &SyntaxNode, f: &str, parent_id: u64)
    requires
        rs_tree_ok(*node),
    ensures
        final(facts)@ == rs_field_block(old(facts)@, file_id, *node, f@, parent_id),
    decreases node, 0int,
{
    proof {
        lemma_rs_tree_ok(*node);
    }
    let k = field_pos(&node.children, f);
    if k < node.children.len() {
        extract_block_stmts(facts, file_id, parent_id, &node.children[k]);
    }
}

fn extract_else_clause(facts: &mut FactLog, file_id: u64, e: &SyntaxNode, s: u64)
    requires
        rs_tree_ok(*e),
    ensures
        final(facts)@ == rs_else_clause(old(facts)@, file_id, *e, s),
    decreases e, 0int,
{
    let cs = &e.children;
    let ghost start = facts@;
    let mut i: usize = 0;
    while i < cs.len()
        invariant
            cs@ == e.children@,
            rs_tree_ok(*e),
            i <= cs@.len(),
            else_from(facts@, file_id, cs@, i as int, s) == else_from(start, file_id, cs@, 0, s),
        decreases cs@.len() - i,
    {
        proof {
            lemma_rs_tree_ok(*e);
        }
        if cs[i].named {
            extract_rs_stmt(facts, file_id, &cs[i], s, 1);
        }
        i = i + 1;
    }
}

fn extract_arm_value(facts: &mut FactLog, file_id: u64, a: &SyntaxNode, s: u64, idx: i64)
    requires
        rs_tree_ok(*a),
    ensures
        final(facts)@ == rs_arm_value(old(facts)@, file_id, *a, s, idx),
    decreases a, 1int,
{
    extract_rs_field_expr(facts, file_id, a, "value", s, idx);
}

fn extract_arms(facts: &mut FactLog, file_id: u64, b: &SyntaxNode, s: u64)
    requires
        rs_tree_ok(*b),
    ensures
        final(facts)@ == rs_arms(old(facts)@, file_id, *b, s),
    decreases b, 0int,
{
    let cs = &b.children;
    let ghost start = facts@;
    let mut i: usize = 0;
    let mut k: i64 = 0;
    while i < cs.len()
        invariant
            cs@ == b.children@,
            rs_tree_ok(*b),
            i <= cs@.len(),
            arms_from(facts@, file_id, cs@, i as int, s, k) == arms_from(start, file_id, cs@, 0, s, 0),
        decreases cs@.len() - i,
    {
        proof {
            lemma_rs_tree_ok(*b);
        }
        if str_eq(cs[i].kind.as_str(), "match_arm") {
            let nk = next_pos(k);
            extract_arm_value(facts, file_id, &cs[i], s, nk);
            k = nk;
        }
        i = i + 1;
    }
}

fn extract_rs_stmt_body(facts: &mut FactLog, file_id: u64, node: &SyntaxNode, s: u64)
    requires
        rs_tree_ok(*node),
    ensures
        final(facts)@ == rs_stmt_body_facts(old(facts)@, file_id, *node, s),
    decreases node, 3int,
{
    proof {
        lemma_rs_tree_ok(*node);
    }
    let k = node.kind.as_str();
    if str_eq(k, "let_declaration") {
        extract_let_declaration(facts, file_id, s, node);
    } else if str_eq(k, "expression_statement") {
        extract_expression_statement(facts, file_id, s, node);
    } else if str_eq(k, "return_expression") {
        let cs = &node.children;
        let ghost start = facts@;
        let mut i: usize = 0;
        while i < cs.len()
            invariant
                cs@ == node.children@,
                rs_tree_ok(*node),
                i <= cs@.len(),
                returned_from(facts@, file_id, cs@, i as int, s) == returned_from(start, file_id, cs@, 0, s),
            decreases cs@.len() - i,
        {
            proof {
                lemma_rs_tree_ok(*node);
            }
            if cs[i].named && !str_eq(cs[i].kind.as_str(), "return") {
                extract_rs_expr(facts, file_id, &cs[i], s, 0);
            }
            i = i + 1;
        }
    } else if str_eq(k, "if_expression") {
        extract_rs_field_expr(facts, file_id, node, "condition", s, 0);
        extract_rs_field_block(facts, file_id, node, "consequence", s);
        let a = field_pos(&node.children, "alternative");
        if a < node.children.len() {
            let alt = &node.children[a];
            if str_eq(alt.kind.as_str(), "block") {
                extract_block_stmts(facts, file_id, s, alt);
            } else if str_eq(alt.kind.as_str(), "else_clause") {
                extract_else_clause(facts, file_id, alt, s);
            } else {
                extract_rs_stmt(facts, file_id, alt, s, 1);
            }
        }
    } else if str_eq(k, "match_expression") {
        extract_rs_field_expr(facts, file_id, node, "value", s, 0);
        let b = field_pos(&node.children, "body");
        if b < node.children.len() {
            extract_arms(facts, file_id, &node.children[b], s);
        }
    } else if str_eq(k, "loop_expression") {
        extract_rs_field_block(facts, file_id, node, "body", s);
    } else if str_eq(k, "while_expression") {
        extract_rs_field_expr(facts, file_id, node, "condition", s, 0);
        extract_rs_field_block(facts, file_id, node, "body", s);
    } else if str_eq(k, "for_expression") {
        let p = field_pos(&node.children, "pattern");
        if p < node.children.len() && chars_of(node.children[p].text.as_str()).len() > 0 {
            emit_located(
                facts, file_id, &node.children[p], "rs_local_vars",
                three(text_v(node.children[p].text.as_str()), text_v("unknown"), FactValue::Entity(s)),
            );
        }
        extract_rs_field_expr(facts, file_id, node, "value", s, 0);
        extract_rs_field_block(facts, file_id, node, "body", s);
    } else if str_eq(k, "block") {
        extract_block_stmts(facts, file_id, s, node);
    }
}

/// Emits the expression `node` at position `idx` under `parent_id` and
/// returns its id (`rs_expr_facts`).
pub fn extract_rs_expr(facts: &mut FactLog, file_id: u64, node: &SyntaxNode, parent_id: u64, idx: i64) -> (r: Option<u64>)
    requires
        rs_tree_ok(*node),
    ensures
        (final(facts)@, r) == rs_expr_facts(old(facts)@, file_id, *node, parent_id, idx),
    decreases node, 2int,
{
    proof {
        lemma_rs_tree_ok(*node);
    }
    match classify_rust_expression(node) {
        ExprClass::Unwrap => {
            let c = first_named_pos(&node.children);
            if c < node.children.len() {
                extract_rs_expr(facts, file_id, &node.children[c], parent_id, idx)
            } else {
                None
            }
        },
        ExprClass::ValueField => {
            let v = field_pos(&node.children, "value");
            if v < node.children.len() {
                extract_rs_expr(facts, file_id, &node.children[v], parent_id, idx)
            } else {
                None
            }
        },
        ExprClass::Kind(ek) => {
            let e = emit_located(facts, file_id, node, "rs_exprs", three(FactValue::Int(ek), FactValue::Entity(parent_id), FactValue::Int(idx)));
            extract_rs_expr_body(facts, file_id, node, e);
            Some(e)
        },
        _ => None,
    }
}

fn extract_rs_named_exprs(facts: &mut FactLog, file_id: u64, node: &SyntaxNode, parent_id: u64, first: i64)
    requires
        rs_tree_ok(*node),
    ensures
        final(facts)@ == rs_named_exprs(old(facts)@, file_id, *node, parent_id, first),
    decreases node, 0int,
{
    let cs = &node.children;
    let ghost start = facts@;
    let mut i: usize = 0;
    let mut idx: i64 = first;
    while i < cs.len()
        invariant
            cs@ == node.children@,
            rs_tree_ok(*node),
            i <= cs@.len(),
            named_exprs_from(facts@, file_id, cs@, i as int, parent_id, idx) == named_exprs_from(start, file_id, cs@, 0, parent_id, first),
        decreases cs@.len() - i,
    {
        proof {
            lemma_rs_tree_ok(*node);
        }
        if cs[i].named {
            extract_rs_expr(facts, file_id, &cs[i], parent_id, idx);
            idx = next_pos(idx);
        }
        i = i + 1;
    }
}

fn extract_rs_first_named(facts: &mut FactLog, file_id: u64, node: &SyntaxNode, parent_id: u64)
    requires
        rs_tree_ok(*node),
    ensures
        final(facts)@ == rs_first_named(old(facts)@, file_id, *node, parent_id),
    decreases node, 0int,
{
    proof {
        lemma_rs_tree_ok(*node);
    }
    let c = first_named_pos(&node.children);
    if c < node.children.len() {
        extract_rs_expr(facts, file_id, &node.children[c], parent_id, 0);
    }
}

fn extract_inits(facts: &mut FactLog, file_id: u64, b: &SyntaxNode, e: u64)
    requires
        rs_tree_ok(*b),
    ensures
        final(facts)@ == rs_inits(old(facts)@, file_id, *b, e),
    decreases b, 0int,
{
    let cs = &b.children;
    let ghost start = facts@;
    let mut i: usize = 0;
    let mut idx: i64 = 0;
    while i < cs.len()
        invariant
            cs@ == b.children@,
            rs_tree_ok(*b),
            i <= cs@.len(),
            inits_from(facts@, file_id, cs@, i as int, e, idx) == inits_from(start, file_id, cs@, 0, e, 0),
        decreases cs@.len() - i,
    {
        proof {
            lemma_rs_tree_ok(*b);
        }
        let c = &cs[i];
        let v = field_pos(&c.children, "value");
        if str_eq(c.kind.as_str(), "field_initializer") && v < c.children.len() {
            extract_rs_field_expr(facts, file_id, c, "value", e, idx);
            idx = next_pos(idx);
        }
        i = i + 1;
    }
}

fn extract_rs_expr_body(facts: &mut FactLog, file_id: u64, node: &SyntaxNode, e: u64)
    requires
        rs_tree_ok(*node),
    ensures
        final(facts)@ == rs_expr_body_facts(old(facts)@, file_id, *node, e),
    decreases node, 1int,
{
    proof {
        lemma_rs_tree_ok(*node);
    }
    let k = node.kind.as_str();
    if str_eq(k, "call_expression") {
        extract_rs_field_expr(facts, file_id, node, "function", e, 0);
        let a = field_pos(&node.children, "arguments");
        if a < node.children.len() {
            extract_rs_named_exprs(facts, file_id, &node.children[a], e, 1);
        }
    } else if str_eq(k, "field_expression") || str_eq(k, "reference_expression") {
        extract_rs_field_expr(facts, file_id, node, "value", e, 0);
    } else if str_eq(k, "index_expression") || str_eq(k, "tuple_expression") || str_eq(k, "array_expression") || str_eq(
        k,
        "range_expression",
    ) {
        extract_rs_named_exprs(facts, file_id, node, e, 0);
    } else if str_eq(k, "binary_expression") || str_eq(k, "assignment_expression") || str_eq(k, "compound_assignment_expr") {
        extract_rs_field_expr(facts, file_id, node, "left", e, 0);
        extract_rs_field_expr(facts, file_id, node, "right", e, 1);
    } else if str_eq(k, "unary_expression") || str_eq(k, "try_expression") || str_eq(k, "await_expression") || str_eq(
        k,
        "return_expression",
    ) {
        extract_rs_first_named(facts, file_id, node, e);
    } else if str_eq(k, "closure_expression") {
        extract_rs_field_expr(facts, file_id, node, "body", e, 0);
    } else if str_eq(k, "if_expression") {
        extract_rs_field_expr(facts, file_id, node, "condition", e, 0);
        extract_rs_field_block(facts, file_id, node, "consequence", e);
    } else if str_eq(k, "match_expression") {
        extract_rs_field_expr(facts, file_id, node, "value", e, 0);
    } else if str_eq(k, "block") {
        extract_block_stmts(facts, file_id, e, node);
    } else if str_eq(k, "struct_expression") {
        let b = field_pos(&node.children, "body");
        if b < node.children.len() {
            extract_inits(facts, file_id, &node.children[b], e);
        }
    }
}

/// Emits the source file `root` of the file `file_id`
/// (`rs_source_file_facts`).
pub fn extract_source_file(facts: &mut FactLog, file_id: u64, root: &SyntaxNode)
    requires
        rs_tree_ok(*root),
    ensures
        final(facts)@ == rs_source_file_facts(old(facts)@, file_id, *root),
{
    let cs = &root.children;
    let ghost start = facts@;
    let mut i: usize = 0;
    while i < cs.len()
        invariant
            cs@ == root.children@,
            rs_tree_ok(*root),
            i <= cs@.len(),
            items_from(facts@, file_id, cs@, i as int, file_id) == items_from(start, file_id, cs@, 0, file_id),
        decreases cs@.len() - i,
    {
        proof {
            lemma_rs_tree_ok(*root);
        }
        if cs[i].named {
            extract_item(facts, file_id, file_id, &cs[i]);
        }
        i = i + 1;
    }
}

} // verus!
