//! The Ruby extraction walk over syntax trees: modules, classes, methods,
//! blocks and their parameters, `require` calls, statements and
//! expressions, each with its location, recorded in a fact log.

use vstd::prelude::*;
use crate::syntax::{SyntaxNode, field_child, require_call, is_require_call, string_content, extract_string_content};
use crate::extractors::{ExprClass, ruby_expr_class, ruby_stmt_kind, classify_ruby_expression, ruby_statement_kind};
use crate::js_extract::{FactLog, LogView, alloc_id, location_of, row, ent, num, txt, next_index, field_index,
    first_named, field_text, entity_pair, entity_text_entity, ent_num_ent_num, field_pos, first_named_pos,
    field_text_of, next_pos, FactValue, FactView, values_view, field_child_text, lemma_field_text_is_field_child_text};
use crate::text::{copy_str, str_eq, chars_of};

verus! {

fn rvals(vs: Vec<FactValue>) -> (r: Vec<FactValue>)
    ensures
        r@ == vs@,
{
    vs
}

fn text_val(s: &str) -> (r: FactValue)
    ensures
        r@ == txt(s@),
{
    FactValue::Str(copy_str(s))
}

fn vals2(a: FactValue, b: FactValue) -> (r: Vec<FactValue>)
    ensures
        values_view(r@) == seq![a@, b@],
{
    let mut r: Vec<FactValue> = Vec::new();
    r.push(a);
    r.push(b);
    assert(values_view(r@) =~= seq![a@, b@]);
    rvals(r)
}

fn vals3(a: FactValue, b: FactValue, c: FactValue) -> (r: Vec<FactValue>)
    ensures
        values_view(r@) == seq![a@, b@, c@],
{
    let mut r: Vec<FactValue> = Vec::new();
    r.push(a);
    r.push(b);
    r.push(c);
    assert(values_view(r@) =~= seq![a@, b@, c@]);
    r
}

fn vals4(a: FactValue, b: FactValue, c: FactValue, d: FactValue) -> (r: Vec<FactValue>)
    ensures
        values_view(r@) == seq![a@, b@, c@, d@],
{
    let mut r: Vec<FactValue> = Vec::new();
    r.push(a);
    r.push(b);
    r.push(c);
    r.push(d);
    assert(values_view(r@) =~= seq![a@, b@, c@, d@]);
    r
}

fn vals5(a: FactValue, b: FactValue, c: FactValue, d: FactValue, e: FactValue) -> (r: Vec<FactValue>)
    ensures
        values_view(r@) == seq![a@, b@, c@, d@, e@],
{
    let mut r: Vec<FactValue> = Vec::new();
    r.push(a);
    r.push(b);
    r.push(c);
    r.push(d);
    r.push(e);
    assert(values_view(r@) =~= seq![a@, b@, c@, d@, e@]);
    r
}

// ---------------------------------------------------------------------------
// The inputs the walk takes
// ---------------------------------------------------------------------------

/// The node kinds a parameter list may hold: plain, optional, splat,
/// hash splat, keyword and block parameters.
pub open spec fn rb_param_kind(k: Seq<char>) -> bool {
    ||| k == "identifier"@ ||| k == "optional_parameter"@ ||| k == "splat_parameter"@
    ||| k == "hash_splat_parameter"@ ||| k == "keyword_parameter"@ ||| k == "block_parameter"@
}

/// The first child of kind `string` among `cs[i]`, ...
pub open spec fn first_string(cs: Seq<SyntaxNode>, i: int) -> int
    decreases cs.len() - i,
{
    if 0 <= i < cs.len() {
        if cs[i].kind@ == "string"@ { i } else { first_string(cs, i + 1) }
    } else {
        cs.len() as int
    }
}

/// The string that a `require` call names, searched among the arguments
/// `cs[i]`, ...: the first string inside an argument list, or an argument
/// that is a string itself.
pub open spec fn require_string_from(cs: Seq<SyntaxNode>, i: int) -> Option<SyntaxNode>
    decreases cs.len() - i,
{
    if 0 <= i < cs.len() {
        let c = cs[i];
        if c.kind@ == "argument_list"@ {
            let k = first_string(c.children@, 0);
            if 0 <= k < c.children@.len() { Some(c.children@[k]) } else { require_string_from(cs, i + 1) }
        } else if c.kind@ == "string"@ {
            Some(c)
        } else {
            require_string_from(cs, i + 1)
        }
    } else {
        None
    }
}

/// The string that the call `n` requires, if any.
pub open spec fn require_string(n: SyntaxNode) -> Option<SyntaxNode> {
    let a = field_index(n.children@, "arguments"@, 0);
    if 0 <= a < n.children@.len() {
        require_string_from(n.children@[a].children@, 0)
    } else {
        None
    }
}

/// A node the walk can take: a `require` call does not name a string that
/// is a lone quote (cutting its quotes off would fail), and a node with a
/// `parameters` child holds only parameters there (a list that holds
/// anything else, such as its parentheses, is never left by the
/// parameter extraction).
pub open spec fn rb_node_ok(n: SyntaxNode) -> bool {
    &&& (n.kind@ == "call"@ && require_call(n)) ==> match require_string(n) {
        Some(s) => s.text@ != seq!['"'] && s.text@ != seq!['\''],
        None => true,
    }
    &&& {
        let p = field_index(n.children@, "parameters"@, 0);
        0 <= p < n.children@.len() ==> forall|j: int|
            0 <= j < n.children@[p].children@.len() ==> rb_param_kind(#[trigger] n.children@[p].children@[j].kind@)
    }
}

/// Every node of the tree rooted at `n` is one the walk can take.
pub open spec fn rb_tree_ok(n: SyntaxNode) -> bool
    decreases n, 1int,
{
    rb_node_ok(n) && rb_forest_ok(n.children@, 0)
}

/// Every tree rooted at `cs[i]`, `cs[i + 1]`, ... is one the walk can
/// take.
pub open spec fn rb_forest_ok(cs: Seq<SyntaxNode>, i: int) -> bool
    decreases cs, cs.len() - i,
{
    if 0 <= i < cs.len() {
        rb_tree_ok(cs[i]) && rb_forest_ok(cs, i + 1)
    } else {
        true
    }
}

proof fn lemma_rb_forest_ok(cs: Seq<SyntaxNode>, i: int)
    requires
        0 <= i,
        rb_forest_ok(cs, i),
    ensures
        forall|j: int| i <= j < cs.len() ==> #[trigger] rb_tree_ok(cs[j]),
    decreases cs.len() - i,
{
    if i < cs.len() {
        lemma_rb_forest_ok(cs, i + 1);
    }
}

/// A node the walk takes, and every child of it, can be taken.
pub proof fn lemma_rb_tree_ok(n: SyntaxNode)
    requires
        rb_tree_ok(n),
    ensures
        rb_node_ok(n),
        forall|i: int| 0 <= i < n.children@.len() ==> #[trigger] rb_tree_ok(n.children@[i]),
{
    lemma_rb_forest_ok(n.children@, 0);
}

fn is_rb_param_kind(k: &str) -> (r: bool)
    ensures
        r == rb_param_kind(k@),
{
    str_eq(k, "identifier") || str_eq(k, "optional_parameter") || str_eq(k, "splat_parameter") || str_eq(
        k,
        "hash_splat_parameter",
    ) || str_eq(k, "keyword_parameter") || str_eq(k, "block_parameter")
}

fn rb_node_supported(n: &SyntaxNode) -> (r: bool)
    ensures
        r == rb_node_ok(*n),
{
    proof {
        reveal_strlit("\"");
        reveal_strlit("'");
        assert("\""@ =~= seq!['"']);
        assert("'"@ =~= seq!['\'']);
    }
    let mut req_ok = true;
    if str_eq(n.kind.as_str(), "call") && is_require_call(n) {
        match require_string_of(n) {
            Some(s) => {
                let t = s.text.as_str();
                if str_eq(t, "\"") || str_eq(t, "'") {
                    req_ok = false;
                }
            },
            None => {},
        }
    }
    let p = field_pos(&n.children, "parameters");
    if p < n.children.len() {
        let ps = &n.children[p].children;
        let mut j: usize = 0;
        while j < ps.len()
            invariant
                p < n.children@.len(),
                p == field_index(n.children@, "parameters"@, 0),
                ps@ == n.children@[p as int].children@,
                j <= ps@.len(),
                forall|m: int| 0 <= m < j ==> rb_param_kind(#[trigger] ps@[m].kind@),
            decreases ps@.len() - j,
        {
            if !is_rb_param_kind(ps[j].kind.as_str()) {
                return false;
            }
            j = j + 1;
        }
    }
    assert(req_ok == ((n.kind@ == "call"@ && require_call(*n)) ==> match require_string(*n) {
        Some(s) => s.text@ != seq!['"'] && s.text@ != seq!['\''],
        None => true,
    }));
    req_ok
}

/// Whether the walk can take the tree rooted at `node` (`rb_tree_ok`): a
/// caller tests a tree with it before extracting it.
pub fn rb_tree_supported(node: &SyntaxNode) -> (r: bool)
    ensures
        r == rb_tree_ok(*node),
    decreases node,
{
    if !rb_node_supported(node) {
        return false;
    }
    let cs = &node.children;
    let mut i: usize = 0;
    while i < cs.len()
        invariant
            cs@ == node.children@,
            i <= cs@.len(),
            rb_forest_ok(cs@, 0) == rb_forest_ok(cs@, i as int),
        decreases cs@.len() - i,
    {
        if !rb_tree_supported(&cs[i]) {
            return false;
        }
        i = i + 1;
    }
    true
}

// ---------------------------------------------------------------------------
// Leaves
// ---------------------------------------------------------------------------

/// The comment `n`: its row with its text and its location.
pub open spec fn rb_comment_facts(log: LogView, file: u64, n: SyntaxNode) -> LogView {
    let c = log.0;
    let l1 = alloc_id(log);
    let loc = l1.0;
    let l2 = location_of(l1, file, n);
    row(l2, "rb_comments"@, seq![ent(c), txt(n.text@), ent(loc)])
}

/// Emits the comment `node` (`rb_comment_facts`).
pub fn extract_rb_comment(facts: &mut FactLog, file_id: u64, node: &SyntaxNode)
    ensures
        final(facts)@ == rb_comment_facts(old(facts)@, file_id, *node),
{
    let c = facts.fresh_id();
    let loc = facts.emit_location(file_id, node);
    facts.emit("rb_comments", vals3(FactValue::Entity(c), text_val(node.text.as_str()), FactValue::Entity(loc)));
}

/// The name and kind of a parameter node.
pub open spec fn rb_param(c: SyntaxNode) -> (Seq<char>, i64) {
    let k = c.kind@;
    if k == "identifier"@ {
        (c.text@, 0)
    } else if k == "optional_parameter"@ {
        (field_text(c, "name"@), 1)
    } else if k == "splat_parameter"@ {
        (if 0 <= field_index(c.children@, "name"@, 0) < c.children@.len() { field_text(c, "name"@) } else { "*"@ }, 2)
    } else if k == "hash_splat_parameter"@ {
        (if 0 <= field_index(c.children@, "name"@, 0) < c.children@.len() { field_text(c, "name"@) } else { "**"@ }, 3)
    } else if k == "keyword_parameter"@ {
        (field_text(c, "name"@), 3)
    } else {
        (field_text(c, "name"@), 4)
    }
}

/// What a parameter is recorded as, by its node: a plain identifier is a
/// required parameter (kind 0) named by its text; an optional parameter
/// (kind 1), a keyword parameter (kind 3) and a block parameter (kind 4)
/// are named by their `name` child; a splat (kind 2) and a hash splat
/// (kind 3) are named by their `name` child when they have one, and
/// otherwise `*` and `**`.
pub proof fn lemma_rb_parameter_names(c: SyntaxNode)
    ensures
        c.kind@ == "identifier"@ ==> rb_param(c) == (c.text@, 0i64),
        c.kind@ == "optional_parameter"@ ==> rb_param(c) == (field_child_text(c, "name"@), 1i64),
        c.kind@ == "splat_parameter"@ ==> rb_param(c) == (match field_child(c.children@, "name"@) {
            Some(x) => x.text@,
            None => "*"@,
        }, 2i64),
        c.kind@ == "hash_splat_parameter"@ ==> rb_param(c) == (match field_child(c.children@, "name"@) {
            Some(x) => x.text@,
            None => "**"@,
        }, 3i64),
        c.kind@ == "keyword_parameter"@ ==> rb_param(c) == (field_child_text(c, "name"@), 3i64),
        c.kind@ == "block_parameter"@ ==> rb_param(c) == (field_child_text(c, "name"@), 4i64),
{
    reveal_strlit("identifier");
    reveal_strlit("optional_parameter");
    reveal_strlit("splat_parameter");
    reveal_strlit("hash_splat_parameter");
    reveal_strlit("keyword_parameter");
    reveal_strlit("block_parameter");
    lemma_field_text_is_field_child_text(c, "name"@);
    let k = c.kind@;
    if k == "optional_parameter"@ {
        assert(k.len() == 18);
    } else if k == "splat_parameter"@ {
        assert(k.len() == 15 && k[0] == 's');
    } else if k == "hash_splat_parameter"@ {
        assert(k.len() == 20);
    } else if k == "keyword_parameter"@ {
        assert(k.len() == 17);
    } else if k == "block_parameter"@ {
        assert(k.len() == 15 && k[0] == 'b');
    }
}

/// The parameters among `cs[i]`, ... of `callable`, from position `idx` on:
/// each with a non-empty name is recorded with its kind and location.
pub open spec fn rb_params_from(log: LogView, file: u64, callable: u64, cs: Seq<SyntaxNode>, i: int, idx: i64) -> LogView
    decreases cs.len() - i,
{
    if 0 <= i < cs.len() {
        let (name, kind) = rb_param(cs[i]);
        if name.len() > 0 {
            let p = log.0;
            let l1 = alloc_id(log);
            let loc = l1.0;
            let l2 = location_of(l1, file, cs[i]);
            let l3 = row(l2, "rb_params"@, seq![ent(p), txt(name), num(kind), num(idx), ent(callable)]);
            let l4 = row(l3, "hasLocation"@, seq![ent(p), ent(loc)]);
            rb_params_from(l4, file, callable, cs, i + 1, next_index(idx))
        } else {
            rb_params_from(log, file, callable, cs, i + 1, idx)
        }
    } else {
        log
    }
}

fn rb_param_of(c: &SyntaxNode) -> (r: (String, i64))
    ensures
        (r.0@, r.1) == rb_param(*c),
{
    let k = c.kind.as_str();
    if str_eq(k, "identifier") {
        (copy_str(c.text.as_str()), 0)
    } else if str_eq(k, "optional_parameter") {
        (field_text_of(c, "name"), 1)
    } else if str_eq(k, "splat_parameter") {
        if field_pos(&c.children, "name") < c.children.len() { (field_text_of(c, "name"), 2) } else { (copy_str("*"), 2) }
    } else if str_eq(k, "hash_splat_parameter") {
        if field_pos(&c.children, "name") < c.children.len() { (field_text_of(c, "name"), 3) } else { (copy_str("**"), 3) }
    } else if str_eq(k, "keyword_parameter") {
        (field_text_of(c, "name"), 3)
    } else {
        (field_text_of(c, "name"), 4)
    }
}

/// Emits the parameters `params` of `callable_id` (`rb_params_from`).
pub fn extract_rb_parameters(facts: &mut FactLog, file_id: u64, callable_id: u64, params: &SyntaxNode)
    requires
        forall|j: int| 0 <= j < params.children@.len() ==> rb_param_kind(#[trigger] params.children@[j].kind@),
    ensures
        final(facts)@ == rb_params_from(old(facts)@, file_id, callable_id, params.children@, 0, 0),
{
    let cs = &params.children;
    let ghost start = facts@;
    let mut i: usize = 0;
    let mut idx: i64 = 0;
    while i < cs.len()
        invariant
            cs@ == params.children@,
            i <= cs@.len(),
            rb_params_from(facts@, file_id, callable_id, cs@, i as int, idx) == rb_params_from(start, file_id, callable_id, cs@, 0, 0),
        decreases cs@.len() - i,
    {
        let c = &cs[i];
        let (name, kind) = rb_param_of(c);
        if chars_of(name.as_str()).len() > 0 {
            let p = facts.fresh_id();
            let loc = facts.emit_location(file_id, c);
            facts.emit(
                "rb_params",
                vals5(FactValue::Entity(p), text_val(name.as_str()), FactValue::Int(kind), FactValue::Int(idx), FactValue::Entity(callable_id)),
            );
            facts.emit("hasLocation", entity_pair(p, loc));
            idx = next_pos(idx);
        }
        i = i + 1;
    }
}

/// The `require` of the call `n`: the path its string names, without its
/// quotes, with the call's location; nothing when it names no string.
pub open spec fn rb_require_facts(log: LogView, file: u64, n: SyntaxNode) -> LogView {
    match require_string(n) {
        Some(s) => {
            let r = log.0;
            let l1 = alloc_id(log);
            let loc = l1.0;
            let l2 = location_of(l1, file, n);
            let l3 = row(l2, "rb_requires"@, seq![ent(r), txt(string_content(s.text@))]);
            row(l3, "hasLocation"@, seq![ent(r), ent(loc)])
        },
        None => log,
    }
}

fn first_string_pos(cs: &Vec<SyntaxNode>) -> (r: usize)
    ensures
        r == first_string(cs@, 0),
        r <= cs@.len(),
{
    let mut i: usize = 0;
    while i < cs.len()
        invariant
            i <= cs@.len(),
            first_string(cs@, 0) == first_string(cs@, i as int),
        decreases cs@.len() - i,
    {
        if str_eq(cs[i].kind.as_str(), "string") {
            return i;
        }
        i = i + 1;
    }
    i
}

fn require_string_of(n: &SyntaxNode) -> (r: Option<&SyntaxNode>)
    ensures
        match r {
            Some(s) => require_string(*n) == Some(*s),
            None => require_string(*n) is None,
        },
{
    let a = field_pos(&n.children, "arguments");
    if a >= n.children.len() {
        return None;
    }
    let cs = &n.children[a].children;
    let mut i: usize = 0;
    while i < cs.len()
        invariant
            a < n.children@.len(),
            cs@ == n.children@[a as int].children@,
            i <= cs@.len(),
            require_string(*n) == require_string_from(cs@, i as int),
        decreases cs@.len() - i,
    {
        let c = &cs[i];
        if str_eq(c.kind.as_str(), "argument_list") {
            let k = first_string_pos(&c.children);
            if k < c.children.len() {
                return Some(&c.children[k]);
            }
        } else if str_eq(c.kind.as_str(), "string") {
            return Some(c);
        }
        i = i + 1;
    }
    None
}

/// Emits the `require` of the call `node` (`rb_require_facts`).
pub fn extract_require(facts: &mut FactLog, file_id: u64, node: &SyntaxNode)
    requires
        match require_string(*node) {
            Some(s) => s.text@ != seq!['"'] && s.text@ != seq!['\''],
            None => true,
        },
    ensures
        final(facts)@ == rb_require_facts(old(facts)@, file_id, *node),
{
    match require_string_of(node) {
        Some(s) => {
            let path = extract_string_content(s.text.as_str());
            let r = facts.fresh_id();
            let loc = facts.emit_location(file_id, node);
            facts.emit("rb_requires", vals2(FactValue::Entity(r), text_val(path.as_str())));
            facts.emit("hasLocation", entity_pair(r, loc));
        },
        None => {},
    }
}

// ---------------------------------------------------------------------------
// The walk
// ---------------------------------------------------------------------------

/// A node of a body at position `idx` under `parent`: definitions,
/// comments, calls (with their `require`), and otherwise a statement or,
/// when it is none, an expression.
pub open spec fn rb_node_facts(log: LogView, file: u64, n: SyntaxNode, parent: u64, idx: i64) -> LogView
    decreases n, 3int,
{
    let k = n.kind@;
    if k == "module"@ {
        rb_module_facts(log, file, n, parent)
    } else if k == "class"@ {
        rb_class_facts(log, file, n, parent)
    } else if k == "singleton_class"@ {
        rb_singleton_class_facts(log, file, n, parent)
    } else if k == "method"@ {
        rb_method_facts(log, file, n, parent, "rb_methods"@)
    } else if k == "singleton_method"@ {
        rb_method_facts(log, file, n, parent, "rb_singleton_methods"@)
    } else if k == "comment"@ {
        rb_comment_facts(log, file, n)
    } else if k == "call"@ {
        let l = if require_call(n) { rb_require_facts(log, file, n) } else { log };
        rb_expr_facts(l, file, n, parent, idx).0
    } else {
        let (l, r) = rb_stmt_facts(log, file, n, parent, idx);
        if r is Some { l } else { rb_expr_facts(l, file, n, parent, idx).0 }
    }
}

/// The named children among `cs[i]`, ... as nodes of a body under
/// `parent`, each taking a position from `idx` on.
pub open spec fn rb_body_from(log: LogView, file: u64, cs: Seq<SyntaxNode>, i: int, parent: u64, idx: i64) -> LogView
    decreases cs, cs.len() - i,
{
    if 0 <= i < cs.len() {
        if cs[i].named {
            rb_body_from(rb_node_facts(log, file, cs[i], parent, idx), file, cs, i + 1, parent, next_index(idx))
        } else {
            rb_body_from(log, file, cs, i + 1, parent, idx)
        }
    } else {
        log
    }
}

/// The body `b` under `parent`.
pub open spec fn rb_body_facts(log: LogView, file: u64, b: SyntaxNode, parent: u64) -> LogView
    decreases b, 2int,
{
    rb_body_from(log, file, b.children@, 0, parent, 0)
}

/// The body under field `f` of `n`, if there is one.
pub open spec fn rb_field_body(log: LogView, file: u64, n: SyntaxNode, f: Seq<char>, parent: u64) -> LogView
    decreases n, 0int,
{
    let k = field_index(n.children@, f, 0);
    if 0 <= k < n.children@.len() { rb_body_facts(log, file, n.children@[k], parent) } else { log }
}

/// The parameters under the `parameters` field of `n`, if any.
pub open spec fn rb_field_params(log: LogView, file: u64, n: SyntaxNode, callable: u64) -> LogView {
    let p = field_index(n.children@, "parameters"@, 0);
    if 0 <= p < n.children@.len() { rb_params_from(log, file, callable, n.children@[p].children@, 0, 0) } else { log }
}

/// A module with a name: its row with its location, then its body.
pub open spec fn rb_module_facts(log: LogView, file: u64, n: SyntaxNode, parent: u64) -> LogView
    decreases n, 2int,
{
    let name = field_text(n, "name"@);
    if name.len() == 0 {
        log
    } else {
        let m = log.0;
        let l1 = alloc_id(log);
        let loc = l1.0;
        let l2 = location_of(l1, file, n);
        let l3 = row(l2, "rb_modules"@, seq![ent(m), txt(name), ent(parent)]);
        let l4 = row(l3, "hasLocation"@, seq![ent(m), ent(loc)]);
        rb_field_body(l4, file, n, "body"@, m)
    }
}

/// A class with a name: its row with its superclass text (or the empty
/// text) and its location, then its body.
pub open spec fn rb_class_facts(log: LogView, file: u64, n: SyntaxNode, parent: u64) -> LogView
    decreases n, 2int,
{
    let name = field_text(n, "name"@);
    if name.len() == 0 {
        log
    } else {
        let c = log.0;
        let l1 = alloc_id(log);
        let loc = l1.0;
        let l2 = location_of(l1, file, n);
        let l3 = row(l2, "rb_classes"@, seq![ent(c), txt(name), ent(parent), txt(field_text(n, "superclass"@))]);
        let l4 = row(l3, "hasLocation"@, seq![ent(c), ent(loc)]);
        rb_field_body(l4, file, n, "body"@, c)
    }
}

/// A singleton class: a class named `<<self>>` with no superclass, its
/// location, then its body.
pub open spec fn rb_singleton_class_facts(log: LogView, file: u64, n: SyntaxNode, parent: u64) -> LogView
    decreases n, 2int,
{
    let c = log.0;
    let l1 = alloc_id(log);
    let loc = l1.0;
    let l2 = location_of(l1, file, n);
    let l3 = row(l2, "rb_classes"@, seq![ent(c), txt("<<self>>"@), ent(parent), txt(Seq::empty())]);
    let l4 = row(l3, "hasLocation"@, seq![ent(c), ent(loc)]);
    rb_field_body(l4, file, n, "body"@, c)
}

/// A method with a name, recorded in `relation`: its row with its
/// location, its parameters, then its body.
pub open spec fn rb_method_facts(log: LogView, file: u64, n: SyntaxNode, parent: u64, relation: Seq<char>) -> LogView
    decreases n, 2int,
{
    let name = field_text(n, "name"@);
    if name.len() == 0 {
        log
    } else {
        let m = log.0;
        let l1 = alloc_id(log);
        let loc = l1.0;
        let l2 = location_of(l1, file, n);
        let l3 = row(l2, relation, seq![ent(m), txt(name), ent(parent)]);
        let l4 = row(l3, "hasLocation"@, seq![ent(m), ent(loc)]);
        rb_field_body(rb_field_params(l4, file, n, m), file, n, "body"@, m)
    }
}

/// A block `b` of the call `parent`: its row with its location, its
/// parameters, then its body.
pub open spec fn rb_block_facts(log: LogView, file: u64, b: SyntaxNode, parent: u64) -> LogView
    decreases b, 2int,
{
    let k = log.0;
    let l1 = alloc_id(log);
    let loc = l1.0;
    let l2 = location_of(l1, file, b);
    let l3 = row(l2, "rb_blocks"@, seq![ent(k), ent(parent)]);
    let l4 = row(l3, "hasLocation"@, seq![ent(k), ent(loc)]);
    rb_field_body(rb_field_params(l4, file, b, k), file, b, "body"@, k)
}

/// The statement `n` at position `idx` under `parent`: for a statement
/// kind (`ruby_stmt_kind`) its row with its location, what its parts emit,
/// and its id; for another node nothing.
pub open spec fn rb_stmt_facts(log: LogView, file: u64, n: SyntaxNode, parent: u64, idx: i64) -> (LogView, Option<u64>)
    decreases n, 2int,
{
    match ruby_stmt_kind(n.kind@) {
        Some(k) => {
            let s = log.0;
            let l1 = alloc_id(log);
            let loc = l1.0;
            let l2 = location_of(l1, file, n);
            let l3 = row(l2, "rb_stmts"@, seq![ent(s), num(k), ent(parent), num(idx)]);
            let l4 = row(l3, "hasLocation"@, seq![ent(s), ent(loc)]);
            (rb_stmt_body_facts(l4, file, n, s), Some(s))
        },
        None => (log, None),
    }
}

/// The expression under field `f` of `n`, if there is one.
pub open spec fn rb_field_expr(log: LogView, file: u64, n: SyntaxNode, f: Seq<char>, parent: u64, idx: i64) -> LogView
    decreases n, 0int,
{
    let k = field_index(n.children@, f, 0);
    if 0 <= k < n.children@.len() { rb_expr_facts(log, file, n.children@[k], parent, idx).0 } else { log }
}

/// The node under field `f` of `n` as a node of a body, if there is one.
pub open spec fn rb_field_node(log: LogView, file: u64, n: SyntaxNode, f: Seq<char>, parent: u64, idx: i64) -> LogView
    decreases n, 0int,
{
    let k = field_index(n.children@, f, 0);
    if 0 <= k < n.children@.len() { rb_node_facts(log, file, n.children@[k], parent, idx) } else { log }
}

/// The children of a case among `cs[i]`, ...: each `when` and `else` is a
/// statement, from position `idx` on.
pub open spec fn rb_case_from(log: LogView, file: u64, cs: Seq<SyntaxNode>, i: int, s: u64, idx: i64) -> LogView
    decreases cs, cs.len() - i,
{
    if 0 <= i < cs.len() {
        if cs[i].kind@ == "when"@ || cs[i].kind@ == "else"@ {
            rb_case_from(rb_stmt_facts(log, file, cs[i], s, idx).0, file, cs, i + 1, s, next_index(idx))
        } else {
            rb_case_from(log, file, cs, i + 1, s, idx)
        }
    } else {
        log
    }
}

/// The named children of a `begin` among `cs[i]`, ...: its `rescue`,
/// `ensure` and `else` parts as statements, the others as nodes of a body,
/// from position `idx` on.
pub open spec fn rb_begin_from(log: LogView, file: u64, cs: Seq<SyntaxNode>, i: int, s: u64, idx: i64) -> LogView
    decreases cs, cs.len() - i,
{
    if 0 <= i < cs.len() {
        if cs[i].named {
            let k = cs[i].kind@;
            let l = if k == "rescue"@ || k == "ensure"@ || k == "else"@ {
                rb_stmt_facts(log, file, cs[i], s, idx).0
            } else {
                rb_node_facts(log, file, cs[i], s, idx)
            };
            rb_begin_from(l, file, cs, i + 1, s, next_index(idx))
        } else {
            rb_begin_from(log, file, cs, i + 1, s, idx)
        }
    } else {
        log
    }
}

/// The named children among `cs[i]`, ... as expressions under `parent`,
/// each taking a position from `idx` on.
pub open spec fn rb_exprs_from(log: LogView, file: u64, cs: Seq<SyntaxNode>, i: int, parent: u64, idx: i64) -> LogView
    decreases cs, cs.len() - i,
{
    if 0 <= i < cs.len() {
        if cs[i].named {
            rb_exprs_from(rb_expr_facts(log, file, cs[i], parent, idx).0, file, cs, i + 1, parent, next_index(idx))
        } else {
            rb_exprs_from(log, file, cs, i + 1, parent, idx)
        }
    } else {
        log
    }
}

/// The named children of `n` as expressions under `parent`, from position
/// `first` on.
pub open spec fn rb_named_exprs(log: LogView, file: u64, n: SyntaxNode, parent: u64, first: i64) -> LogView
    decreases n, 0int,
{
    rb_exprs_from(log, file, n.children@, 0, parent, first)
}

/// What the parts of the statement `n`, whose id is `s`, emit.
pub open spec fn rb_stmt_body_facts(log: LogView, file: u64, n: SyntaxNode, s: u64) -> LogView
    decreases n, 1int,
{
    let k = n.kind@;
    if k == "if"@ || k == "unless"@ {
        let l1 = rb_field_expr(log, file, n, "condition"@, s, 0);
        let l2 = rb_field_body(l1, file, n, "consequence"@, s);
        rb_field_node(l2, file, n, "alternative"@, s, 1)
    } else if k == "while"@ || k == "until"@ {
        rb_field_body(rb_field_expr(log, file, n, "condition"@, s, 0), file, n, "body"@, s)
    } else if k == "for"@ {
        rb_field_body(log, file, n, "body"@, s)
    } else if k == "case"@ {
        rb_case_from(rb_field_expr(log, file, n, "value"@, s, 0), file, n.children@, 0, s, 1)
    } else if k == "begin"@ {
        rb_begin_from(log, file, n.children@, 0, s, 0)
    } else if k == "rescue"@ || k == "ensure"@ || k == "when"@ || k == "else"@ {
        rb_body_from(log, file, n.children@, 0, s, 0)
    } else if k == "return"@ || k == "break"@ || k == "next"@ || k == "yield"@ {
        rb_named_exprs(log, file, n, s, 0)
    } else if k == "if_modifier"@ || k == "unless_modifier"@ || k == "while_modifier"@ || k == "until_modifier"@ {
        rb_field_expr(rb_field_expr(log, file, n, "body"@, s, 0), file, n, "condition"@, s, 1)
    } else {
        log
    }
}

/// The expression `n` at position `idx` under `parent`: parenthesized
/// statements give each named child in their place from position `idx`
/// on; an expression kind (`ruby_expr_class`) gives its row with its
/// location, a local variable for an identifier, a constant (at the
/// assignment's location) for an assignment to a constant, what its parts
/// emit, and its id; another node nothing.
pub open spec fn rb_expr_facts(log: LogView, file: u64, n: SyntaxNode, parent: u64, idx: i64) -> (LogView, Option<u64>)
    decreases n, 2int,
{
    match ruby_expr_class(n.kind@) {
        ExprClass::EachNamed => (rb_exprs_from(log, file, n.children@, 0, parent, idx), None),
        ExprClass::Kind(ek) => {
            let e = log.0;
            let l1 = alloc_id(log);
            let loc = l1.0;
            let l2 = location_of(l1, file, n);
            let l3 = row(l2, "rb_exprs"@, seq![ent(e), num(ek), ent(parent), num(idx)]);
            let l4 = row(l3, "hasLocation"@, seq![ent(e), ent(loc)]);
            let l5 = if n.kind@ == "identifier"@ {
                let v = l4.0;
                row(alloc_id(l4), "rb_local_vars"@, seq![ent(v), txt(n.text@), ent(parent)])
            } else {
                l4
            };
            let lk = field_index(n.children@, "left"@, 0);
            let l6 = if n.kind@ == "assignment"@ && 0 <= lk < n.children@.len() && n.children@[lk].kind@ == "constant"@ {
                let c = l5.0;
                let la = alloc_id(l5);
                let cloc = la.0;
                let lb = location_of(la, file, n);
                let lc = row(lb, "rb_constants"@, seq![ent(c), txt(n.children@[lk].text@), ent(parent)]);
                row(lc, "hasLocation"@, seq![ent(c), ent(cloc)])
            } else {
                l5
            };
            (rb_expr_body_facts(l6, file, n, e), Some(e))
        },
        _ => (log, None),
    }
}

/// The first named child of `n` as an expression at position 0.
pub open spec fn rb_first_named(log: LogView, file: u64, n: SyntaxNode, parent: u64) -> LogView
    decreases n, 0int,
{
    let c = first_named(n.children@, 0);
    if 0 <= c < n.children@.len() { rb_expr_facts(log, file, n.children@[c], parent, 0).0 } else { log }
}

/// The interpolations among `cs[i]`, ... of a string, each an expression
/// from position `idx` on.
pub open spec fn rb_interpolations_from(log: LogView, file: u64, cs: Seq<SyntaxNode>, i: int, parent: u64, idx: i64) -> LogView
    decreases cs, cs.len() - i,
{
    if 0 <= i < cs.len() {
        if cs[i].kind@ == "interpolation"@ {
            rb_interpolations_from(rb_expr_facts(log, file, cs[i], parent, idx).0, file, cs, i + 1, parent, next_index(idx))
        } else {
            rb_interpolations_from(log, file, cs, i + 1, parent, idx)
        }
    } else {
        log
    }
}

/// The position of the first child of kind `block` or `do_block`, or
/// `cs.len()`.
pub open spec fn first_block(cs: Seq<SyntaxNode>, i: int) -> int
    decreases cs.len() - i,
{
    if 0 <= i < cs.len() {
        if cs[i].kind@ == "block"@ || cs[i].kind@ == "do_block"@ { i } else { first_block(cs, i + 1) }
    } else {
        cs.len() as int
    }
}

/// The details of the call `n`, whose id is `e`: its receiver at position
/// 0, its row with its text, its receiver (the call itself when it has
/// none or it is no expression) and its method name, its arguments from
/// position 1 on, and its block (under `block`, else its first block
/// child).
pub open spec fn rb_call_facts(log: LogView, file: u64, n: SyntaxNode, e: u64) -> LogView
    decreases n, 0int,
{
    let r = field_index(n.children@, "receiver"@, 0);
    let (l1, rid) = if 0 <= r < n.children@.len() {
        let (l, o) = rb_expr_facts(log, file, n.children@[r], e, 0);
        (l, match o { Some(x) => x, None => e })
    } else {
        (log, e)
    };
    let l2 = row(l1, "rb_calls"@, seq![ent(e), txt(n.text@), ent(rid), txt(field_text(n, "method"@))]);
    let a = field_index(n.children@, "arguments"@, 0);
    let l3 = if 0 <= a < n.children@.len() { rb_named_exprs(l2, file, n.children@[a], e, 1) } else { l2 };
    let b = field_index(n.children@, "block"@, 0);
    if 0 <= b < n.children@.len() {
        rb_block_facts(l3, file, n.children@[b], e)
    } else {
        let d = first_block(n.children@, 0);
        if 0 <= d < n.children@.len() { rb_block_facts(l3, file, n.children@[d], e) } else { l3 }
    }
}

/// What the parts of the expression `n`, whose id is `e`, emit.
pub open spec fn rb_expr_body_facts(log: LogView, file: u64, n: SyntaxNode, e: u64) -> LogView
    decreases n, 1int,
{
    let k = n.kind@;
    if k == "call"@ {
        rb_call_facts(log, file, n, e)
    } else if k == "binary"@ || k == "assignment"@ || k == "operator_assignment"@ {
        rb_field_expr(rb_field_expr(log, file, n, "left"@, e, 0), file, n, "right"@, e, 1)
    } else if k == "unary"@ {
        rb_field_expr(log, file, n, "operand"@, e, 0)
    } else if k == "conditional"@ {
        let l1 = rb_field_expr(log, file, n, "condition"@, e, 0);
        let l2 = rb_field_expr(l1, file, n, "consequence"@, e, 1);
        rb_field_expr(l2, file, n, "alternative"@, e, 2)
    } else if k == "element_reference"@ || k == "array"@ || k == "hash"@ || k == "range"@ {
        rb_named_exprs(log, file, n, e, 0)
    } else if k == "pair"@ {
        rb_field_expr(rb_field_expr(log, file, n, "key"@, e, 0), file, n, "value"@, e, 1)
    } else if k == "splat_argument"@ || k == "block_argument"@ {
        rb_first_named(log, file, n, e)
    } else if k == "lambda"@ {
        rb_field_body(rb_field_params(log, file, n, e), file, n, "body"@, e)
    } else if k == "string"@ {
        rb_interpolations_from(log, file, n.children@, 0, e, 0)
    } else {
        log
    }
}

/// The program `root` of the file `file`: its named children as nodes of a
/// body under the file, each taking a position from 0 on.
pub open spec fn rb_program_facts(log: LogView, file: u64, root: SyntaxNode) -> LogView {
    rb_body_from(log, file, root.children@, 0, file, 0)
}

fn extract_rb_field_params(facts: &mut FactLog, file_id: u64, node: &SyntaxNode, callable_id: u64)
    requires
        rb_node_ok(*node),
    ensures
        final(facts)@ == rb_field_params(old(facts)@, file_id, *node, callable_id),
{
    let p = field_pos(&node.children, "parameters");
    if p < node.children.len() {
        extract_rb_parameters(facts, file_id, callable_id, &node.children[p]);
    }
}

/// Emits the node `node` of a body at position `idx` under `parent_id`
/// (`rb_node_facts`).
pub fn extract_node(facts: &mut FactLog, file_id: u64, node: &SyntaxNode, parent_id: u64, idx: i64)
    requires
        rb_tree_ok(*node),
    ensures
        final(facts)@ == rb_node_facts(old(facts)@, file_id, *node, parent_id, idx),
    decreases node, 3int,
{
    proof {
        lemma_rb_tree_ok(*node);
    }
    let k = node.kind.as_str();
    if str_eq(k, "module") {
        extract_rb_module(facts, file_id, node, parent_id);
    } else if str_eq(k, "class") {
        extract_rb_class(facts, file_id, node, parent_id);
    } else if str_eq(k, "singleton_class") {
        extract_singleton_class(facts, file_id, node, parent_id);
    } else if str_eq(k, "method") {
        extract_rb_method(facts, file_id, node, parent_id, "rb_methods");
    } else if str_eq(k, "singleton_method") {
        extract_rb_method(facts, file_id, node, parent_id, "rb_singleton_methods");
    } else if str_eq(k, "comment") {
        extract_rb_comment(facts, file_id, node);
    } else if str_eq(k, "call") {
        if is_require_call(node) {
            extract_require(facts, file_id, node);
        }
        extract_rb_expr(facts, file_id, node, parent_id, idx);
    } else {
        let r = extract_rb_stmt(facts, file_id, node, parent_id, idx);
        if r.is_none() {
            extract_rb_expr(facts, file_id, node, parent_id, idx);
        }
    }
}

/// Emits the named children of the body `body` under `parent_id`
/// (`rb_body_facts`).
pub fn extract_rb_body(facts: &mut FactLog, file_id: u64, body: &SyntaxNode, parent_id: u64)
    requires
        rb_tree_ok(*body),
    ensures
        final(facts)@ == rb_body_facts(old(facts)@, file_id, *body, parent_id),
    decreases body, 2int,
{
    proof {
        lemma_rb_tree_ok(*body);
    }
    let cs = &body.children;
    let ghost start = facts@;
    let mut i: usize = 0;
    let mut idx: i64 = 0;
    while i < cs.len()
        invariant
            cs@ == body.children@,
            rb_tree_ok(*body),
            i <= cs@.len(),
            rb_body_from(facts@, file_id, cs@, i as int, parent_id, idx) == rb_body_from(start, file_id, cs@, 0, parent_id, 0),
        decreases cs@.len() - i,
    {
        proof {
            lemma_rb_tree_ok(*body);
        }
        if cs[i].named {
            extract_node(facts, file_id, &cs[i], parent_id, idx);
            idx = next_pos(idx);
        }
        i = i + 1;
    }
}

fn extract_rb_field_body(facts: &mut FactLog, file_id: u64, node: &SyntaxNode, f: &str, parent_id: u64)
    requires
        rb_tree_ok(*node),
    ensures
        final(facts)@ == rb_field_body(old(facts)@, file_id, *node, f@, parent_id),
    decreases node, 0int,
{
    proof {
        lemma_rb_tree_ok(*node);
    }
    let k = field_pos(&node.children, f);
    if k < node.children.len() {
        extract_rb_body(facts, file_id, &node.children[k], parent_id);
    }
}

fn extract_rb_module(facts: &mut FactLog, file_id: u64, node: &SyntaxNode, parent_id: u64)
    requires
        rb_tree_ok(*node),
    ensures
        final(facts)@ == rb_module_facts(old(facts)@, file_id, *node, parent_id),
    decreases node, 2int,
{
    proof {
        lemma_rb_tree_ok(*node);
    }
    let name = field_text_of(node, "name");
    if chars_of(name.as_str()).len() == 0 {
        return;
    }
    let m = facts.fresh_id();
    let loc = facts.emit_location(file_id, node);
    facts.emit("rb_modules", entity_text_entity(m, name.as_str(), parent_id));
    facts.emit("hasLocation", entity_pair(m, loc));
    extract_rb_field_body(facts, file_id, node, "body", m);
}

fn extract_rb_class(facts: &mut FactLog, file_id: u64, node: &SyntaxNode, parent_id: u64)
    requires
        rb_tree_ok(*node),
    ensures
        final(facts)@ == rb_class_facts(old(facts)@, file_id, *node, parent_id),
    decreases node, 2int,
{
    proof {
        lemma_rb_tree_ok(*node);
    }
    let name = field_text_of(node, "name");
    if chars_of(name.as_str()).len() == 0 {
        return;
    }
    let sup = field_text_of(node, "superclass");
    let c = facts.fresh_id();
    let loc = facts.emit_location(file_id, node);
    facts.emit("rb_classes", vals4(FactValue::Entity(c), text_val(name.as_str()), FactValue::Entity(parent_id), text_val(sup.as_str())));
    facts.emit("hasLocation", entity_pair(c, loc));
    extract_rb_field_body(facts, file_id, node, "body", c);
}

fn extract_singleton_class(facts: &mut FactLog, file_id: u64, node: &SyntaxNode, parent_id: u64)
    requires
        rb_tree_ok(*node),
    ensures
        final(facts)@ == rb_singleton_class_facts(old(facts)@, file_id, *node, parent_id),
    decreases node, 2int,
{
    proof {
        lemma_rb_tree_ok(*node);
    }
    let c = facts.fresh_id();
    let loc = facts.emit_location(file_id, node);
    proof {
        reveal_strlit("");
        assert(""@ =~= Seq::<char>::empty());
    }
    facts.emit("rb_classes", vals4(FactValue::Entity(c), text_val("<<self>>"), FactValue::Entity(parent_id), text_val("")));
    facts.emit("hasLocation", entity_pair(c, loc));
    extract_rb_field_body(facts, file_id, node, "body", c);
}

fn extract_rb_method(facts: &mut FactLog, file_id: u64, node: &SyntaxNode, parent_id: u64, relation: &str)
    requires
        rb_tree_ok(*node),
    ensures
        final(facts)@ == rb_method_facts(old(facts)@, file_id, *node, parent_id, relation@),
    decreases node, 2int,
{
    proof {
        lemma_rb_tree_ok(*node);
    }
    let name = field_text_of(node, "name");
    if chars_of(name.as_str()).len() == 0 {
        return;
    }
    let m = facts.fresh_id();
    let loc = facts.emit_location(file_id, node);
    facts.emit(relation, entity_text_entity(m, name.as_str(), parent_id));
    facts.emit("hasLocation", entity_pair(m, loc));
    extract_rb_field_params(facts, file_id, node, m);
    extract_rb_field_body(facts, file_id, node, "body", m);
}

/// Emits the block `node` of the call `parent_id` (`rb_block_facts`).
pub fn extract_block(facts: &mut FactLog, file_id: u64, node: &SyntaxNode, parent_id: u64)
    requires
        rb_tree_ok(*node),
    ensures
        final(facts)@ == rb_block_facts(old(facts)@, file_id, *node, parent_id),
    decreases node, 2int,
{
    proof {
        lemma_rb_tree_ok(*node);
    }
    let k = facts.fresh_id();
    let loc = facts.emit_location(file_id, node);
    facts.emit("rb_blocks", entity_pair(k, parent_id));
    facts.emit("hasLocation", entity_pair(k, loc));
    extract_rb_field_params(facts, file_id, node, k);
    extract_rb_field_body(facts, file_id, node, "body", k);
}

/// Emits the statement `node` at position `idx` under `parent_id` and
/// returns its id (`rb_stmt_facts`).
pub fn extract_rb_stmt(facts: &mut FactLog, file_id: u64, node: &SyntaxNode, parent_id: u64, idx: i64) -> (r: Option<u64>)
    requires
        rb_tree_ok(*node),
    ensures
        (final(facts)@, r) == rb_stmt_facts(old(facts)@, file_id, *node, parent_id, idx),
    decreases node, 2int,
{
    proof {
        lemma_rb_tree_ok(*node);
    }
    match ruby_statement_kind(node) {
        Some(k) => {
            let s = facts.fresh_id();
            let loc = facts.emit_location(file_id, node);
            facts.emit("rb_stmts", ent_num_ent_num(s, k, parent_id, idx));
            facts.emit("hasLocation", entity_pair(s, loc));
            extract_rb_stmt_body(facts, file_id, node, s);
            Some(s)
        },
        None => None,
    }
}

fn extract_rb_field_expr(facts: &mut FactLog, file_id: u64, node: &SyntaxNode, f: &str, parent_id: u64, idx: i64)
    requires
        rb_tree_ok(*node),
    ensures
        final(facts)@ == rb_field_expr(old(facts)@, file_id, *node, f@, parent_id, idx),
    decreases node, 0int,
{
    proof {
        lemma_rb_tree_ok(*node);
    }
    let k = field_pos(&node.children, f);
    if k < node.children.len() {
        extract_rb_expr(facts, file_id, &node.children[k], parent_id, idx);
    }
}

fn extract_rb_field_node(facts: &mut FactLog, file_id: u64, node: &SyntaxNode, f: &str, parent_id: u64, idx: i64)
    requires
        rb_tree_ok(*node),
    ensures
        final(facts)@ == rb_field_node(old(facts)@, file_id, *node, f@, parent_id, idx),
    decreases node, 0int,
{
    proof {
        lemma_rb_tree_ok(*node);
    }
    let k = field_pos(&node.children, f);
    if k < node.children.len() {
        extract_node(facts, file_id, &node.children[k], parent_id, idx);
    }
}

fn extract_rb_case(facts: &mut FactLog, file_id: u64, node: &SyntaxNode, s: u64)
    requires
        rb_tree_ok(*node),
    ensures
        final(facts)@ == rb_case_from(old(facts)@, file_id, node.children@, 0, s, 1),
    decreases node, 0int,
{
    proof {
        lemma_rb_tree_ok(*node);
    }
    let cs = &node.children;
    let ghost start = facts@;
    let mut i: usize = 0;
    let mut idx: i64 = 1;
    while i < cs.len()
        invariant
            cs@ == node.children@,
            rb_tree_ok(*node),
            i <= cs@.len(),
            rb_case_from(facts@, file_id, cs@, i as int, s, idx) == rb_case_from(start, file_id, cs@, 0, s, 1),
        decreases cs@.len() - i,
    {
        proof {
            lemma_rb_tree_ok(*node);
        }
        if str_eq(cs[i].kind.as_str(), "when") || str_eq(cs[i].kind.as_str(), "else") {
            extract_rb_stmt(facts, file_id, &cs[i], s, idx);
            idx = next_pos(idx);
        }
        i = i + 1;
    }
}

fn extract_rb_begin(facts: &mut FactLog, file_id: u64, node: &SyntaxNode, s: u64)
    requires
        rb_tree_ok(*node),
    ensures
        final(facts)@ == rb_begin_from(old(facts)@, file_id, node.children@, 0, s, 0),
    decreases node, 0int,
{
    proof {
        lemma_rb_tree_ok(*node);
    }
    let cs = &node.children;
    let ghost start = facts@;
    let mut i: usize = 0;
    let mut idx: i64 = 0;
    while i < cs.len()
        invariant
            cs@ == node.children@,
            rb_tree_ok(*node),
            i <= cs@.len(),
            rb_begin_from(facts@, file_id, cs@, i as int, s, idx) == rb_begin_from(start, file_id, cs@, 0, s, 0),
        decreases cs@.len() - i,
    {
        proof {
            lemma_rb_tree_ok(*node);
        }
        let c = &cs[i];
        if c.named {
            let k = c.kind.as_str();
            if str_eq(k, "rescue") || str_eq(k, "ensure") || str_eq(k, "else") {
                extract_rb_stmt(facts, file_id, c, s, idx);
            } else {
                extract_node(facts, file_id, c, s, idx);
            }
            idx = next_pos(idx);
        }
        i = i + 1;
    }
}

fn extract_rb_body_children(facts: &mut FactLog, file_id: u64, node: &SyntaxNode, s: u64)
    requires
        rb_tree_ok(*node),
    ensures
        final(facts)@ == rb_body_from(old(facts)@, file_id, node.children@, 0, s, 0),
    decreases node, 0int,
{
    proof {
        lemma_rb_tree_ok(*node);
    }
    let cs = &node.children;
    let ghost start = facts@;
    let mut i: usize = 0;
    let mut idx: i64 = 0;
    while i < cs.len()
        invariant
            cs@ == node.children@,
            rb_tree_ok(*node),
            i <= cs@.len(),
            rb_body_from(facts@, file_id, cs@, i as int, s, idx) == rb_body_from(start, file_id, cs@, 0, s, 0),
        decreases cs@.len() - i,
    {
        proof {
            lemma_rb_tree_ok(*node);
        }
        if cs[i].named {
            extract_node(facts, file_id, &cs[i], s, idx);
            idx = next_pos(idx);
        }
        i = i + 1;
    }
}

fn extract_rb_named_exprs(facts: &mut FactLog, file_id: u64, node: &SyntaxNode, parent_id: u64, first: i64)
    requires
        rb_tree_ok(*node),
    ensures
        final(facts)@ == rb_named_exprs(old(facts)@, file_id, *node, parent_id, first),
    decreases node, 0int,
{
    proof {
        lemma_rb_tree_ok(*node);
    }
    let cs = &node.children;
    let ghost start = facts@;
    let mut i: usize = 0;
    let mut idx: i64 = first;
    while i < cs.len()
        invariant
            cs@ == node.children@,
            rb_tree_ok(*node),
            i <= cs@.len(),
            rb_exprs_from(facts@, file_id, cs@, i as int, parent_id, idx) == rb_exprs_from(start, file_id, cs@, 0, parent_id, first),
        decreases cs@.len() - i,
    {
        proof {
            lemma_rb_tree_ok(*node);
        }
        if cs[i].named {
            extract_rb_expr(facts, file_id, &cs[i], parent_id, idx);
            idx = next_pos(idx);
        }
        i = i + 1;
    }
}

fn extract_rb_stmt_body(facts: &mut FactLog, file_id: u64, node: &SyntaxNode, s: u64)
    requires
        rb_tree_ok(*node),
    ensures
        final(facts)@ == rb_stmt_body_facts(old(facts)@, file_id, *node, s),
    decreases node, 1int,
{
    proof {
        lemma_rb_tree_ok(*node);
    }
    let k = node.kind.as_str();
    if str_eq(k, "if") || str_eq(k, "unless") {
        extract_rb_field_expr(facts, file_id, node, "condition", s, 0);
        extract_rb_field_body(facts, file_id, node, "consequence", s);
        extract_rb_field_node(facts, file_id, node, "alternative", s, 1);
    } else if str_eq(k, "while") || str_eq(k, "until") {
        extract_rb_field_expr(facts, file_id, node, "condition", s, 0);
        extract_rb_field_body(facts, file_id, node, "body", s);
    } else if str_eq(k, "for") {
        extract_rb_field_body(facts, file_id, node, "body", s);
    } else if str_eq(k, "case") {
        extract_rb_field_expr(facts, file_id, node, "value", s, 0);
        extract_rb_case(facts, file_id, node, s);
    } else if str_eq(k, "begin") {
        extract_rb_begin(facts, file_id, node, s);
    } else if str_eq(k, "rescue") || str_eq(k, "ensure") || str_eq(k, "when") || str_eq(k, "else") {
        extract_rb_body_children(facts, file_id, node, s);
    } else if str_eq(k, "return") || str_eq(k, "break") || str_eq(k, "next") || str_eq(k, "yield") {
        extract_rb_named_exprs(facts, file_id, node, s, 0);
    } else if str_eq(k, "if_modifier") || str_eq(k, "unless_modifier") || str_eq(k, "while_modifier") || str_eq(
        k,
        "until_modifier",
    ) {
        extract_rb_field_expr(facts, file_id, node, "body", s, 0);
        extract_rb_field_expr(facts, file_id, node, "condition", s, 1);
    }
}

/// Emits the expression `node` at position `idx` under `parent_id` and
/// returns its id (`rb_expr_facts`).
pub fn extract_rb_expr(facts: &mut FactLog, file_id: u64, node: &SyntaxNode, parent_id: u64, idx: i64) -> (r: Option<u64>)
    requires
        rb_tree_ok(*node),
    ensures
        (final(facts)@, r) == rb_expr_facts(old(facts)@, file_id, *node, parent_id, idx),
    decreases node, 2int,
{
    proof {
        lemma_rb_tree_ok(*node);
    }
    match classify_ruby_expression(node) {
        ExprClass::EachNamed => {
            let cs = &node.children;
            let ghost start = facts@;
            let mut i: usize = 0;
            let mut k: i64 = idx;
            while i < cs.len()
                invariant
                    cs@ == node.children@,
                    rb_tree_ok(*node),
                    i <= cs@.len(),
                    rb_exprs_from(facts@, file_id, cs@, i as int, parent_id, k) == rb_exprs_from(start, file_id, cs@, 0, parent_id, idx),
                decreases cs@.len() - i,
            {
                proof {
                    lemma_rb_tree_ok(*node);
                }
                if cs[i].named {
                    extract_rb_expr(facts, file_id, &cs[i], parent_id, k);
                    k = next_pos(k);
                }
                i = i + 1;
            }
            None
        },
        ExprClass::Kind(ek) => {
            let e = facts.fresh_id();
            let loc = facts.emit_location(file_id, node);
            facts.emit("rb_exprs", ent_num_ent_num(e, ek, parent_id, idx));
            facts.emit("hasLocation", entity_pair(e, loc));
            if str_eq(node.kind.as_str(), "identifier") {
                let v = facts.fresh_id();
                facts.emit("rb_local_vars", entity_text_entity(v, node.text.as_str(), parent_id));
            }
            let lk = field_pos(&node.children, "left");
            if str_eq(node.kind.as_str(), "assignment") && lk < node.children.len() && str_eq(node.children[lk].kind.as_str(), "constant") {
                let c = facts.fresh_id();
                let cloc = facts.emit_location(file_id, node);
                facts.emit("rb_constants", entity_text_entity(c, node.children[lk].text.as_str(), parent_id));
                facts.emit("hasLocation", entity_pair(c, cloc));
            }
            extract_rb_expr_body(facts, file_id, node, e);
            Some(e)
        },
        _ => None,
    }
}

fn extract_rb_first_named(facts: &mut FactLog, file_id: u64, node: &SyntaxNode, parent_id: u64)
    requires
        rb_tree_ok(*node),
    ensures
        final(facts)@ == rb_first_named(old(facts)@, file_id, *node, parent_id),
    decreases node, 0int,
{
    proof {
        lemma_rb_tree_ok(*node);
    }
    let c = first_named_pos(&node.children);
    if c < node.children.len() {
        extract_rb_expr(facts, file_id, &node.children[c], parent_id, 0);
    }
}

fn first_block_pos(cs: &Vec<SyntaxNode>) -> (r: usize)
    ensures
        r == first_block(cs@, 0),
        r <= cs@.len(),
{
    let mut i: usize = 0;
    while i < cs.len()
        invariant
            i <= cs@.len(),
            first_block(cs@, 0) == first_block(cs@, i as int),
        decreases cs@.len() - i,
    {
        if str_eq(cs[i].kind.as_str(), "block") || str_eq(cs[i].kind.as_str(), "do_block") {
            return i;
        }
        i = i + 1;
    }
    i
}

/// Emits the details of the call `node`, whose id is `e` (`rb_call_facts`).
pub fn extract_call_details(facts: &mut FactLog, file_id: u64, node: &SyntaxNode, e: u64)
    requires
        rb_tree_ok(*node),
    ensures
        final(facts)@ == rb_call_facts(old(facts)@, file_id, *node, e),
    decreases node, 0int,
{
    proof {
        lemma_rb_tree_ok(*node);
    }
    let method = field_text_of(node, "method");
    let r = field_pos(&node.children, "receiver");
    let rid = if r < node.children.len() {
        match extract_rb_expr(facts, file_id, &node.children[r], e, 0) {
            Some(x) => x,
            None => e,
        }
    } else {
        e
    };
    facts.emit("rb_calls", vals4(FactValue::Entity(e), text_val(node.text.as_str()), FactValue::Entity(rid), text_val(method.as_str())));
    let a = field_pos(&node.children, "arguments");
    if a < node.children.len() {
        extract_rb_named_exprs(facts, file_id, &node.children[a], e, 1);
    }
    let b = field_pos(&node.children, "block");
    if b < node.children.len() {
        extract_block(facts, file_id, &node.children[b], e);
    } else {
        let d = first_block_pos(&node.children);
        if d < node.children.len() {
            extract_block(facts, file_id, &node.children[d], e);
        }
    }
}

fn extract_rb_expr_body(facts: &mut FactLog, file_id: u64, node: &SyntaxNode, e: u64)
    requires
        rb_tree_ok(*node),
    ensures
        final(facts)@ == rb_expr_body_facts(old(facts)@, file_id, *node, e),
    decreases node, 1int,
{
    proof {
        lemma_rb_tree_ok(*node);
    }
    let k = node.kind.as_str();
    if str_eq(k, "call") {
        extract_call_details(facts, file_id, node, e);
    } else if str_eq(k, "binary") || str_eq(k, "assignment") || str_eq(k, "operator_assignment") {
        extract_rb_field_expr(facts, file_id, node, "left", e, 0);
        extract_rb_field_expr(facts, file_id, node, "right", e, 1);
    } else if str_eq(k, "unary") {
        extract_rb_field_expr(facts, file_id, node, "operand", e, 0);
    } else if str_eq(k, "conditional") {
        extract_rb_field_expr(facts, file_id, node, "condition", e, 0);
        extract_rb_field_expr(facts, file_id, node, "consequence", e, 1);
        extract_rb_field_expr(facts, file_id, node, "alternative", e, 2);
    } else if str_eq(k, "element_reference") || str_eq(k, "array") || str_eq(k, "hash") || str_eq(k, "range") {
        extract_rb_named_exprs(facts, file_id, node, e, 0);
    } else if str_eq(k, "pair") {
        extract_rb_field_expr(facts, file_id, node, "key", e, 0);
        extract_rb_field_expr(facts, file_id, node, "value", e, 1);
    } else if str_eq(k, "splat_argument") || str_eq(k, "block_argument") {
        extract_rb_first_named(facts, file_id, node, e);
    } else if str_eq(k, "lambda") {
        extract_rb_field_params(facts, file_id, node, e);
        extract_rb_field_body(facts, file_id, node, "body", e);
    } else if str_eq(k, "string") {
        let cs = &node.children;
        let ghost start = facts@;
        let mut i: usize = 0;
        let mut idx: i64 = 0;
        while i < cs.len()
            invariant
                cs@ == node.children@,
                rb_tree_ok(*node),
                i <= cs@.len(),
                rb_interpolations_from(facts@, file_id, cs@, i as int, e, idx) == rb_interpolations_from(start, file_id, cs@, 0, e, 0),
            decreases cs@.len() - i,
        {
            proof {
                lemma_rb_tree_ok(*node);
            }
            if str_eq(cs[i].kind.as_str(), "interpolation") {
                extract_rb_expr(facts, file_id, &cs[i], e, idx);
                idx = next_pos(idx);
            }
            i = i + 1;
        }
    }
}

/// Emits the program `root` of the file `file_id` (`rb_program_facts`).
pub fn extract_rb_program(facts: &mut FactLog, file_id: u64, root: &SyntaxNode)
    requires
        rb_tree_ok(*root),
    ensures
        final(facts)@ == rb_program_facts(old(facts)@, file_id, *root),
{
    proof {
        lemma_rb_tree_ok(*root);
    }
    let cs = &root.children;
    let ghost start = facts@;
    let mut i: usize = 0;
    let mut idx: i64 = 0;
    while i < cs.len()
        invariant
            cs@ == root.children@,
            rb_tree_ok(*root),
            i <= cs@.len(),
            rb_body_from(facts@, file_id, cs@, i as int, file_id, idx) == rb_body_from(start, file_id, cs@, 0, file_id, 0),
        decreases cs@.len() - i,
    {
        proof {
            lemma_rb_tree_ok(*root);
        }
        if cs[i].named {
            extract_node(facts, file_id, &cs[i], file_id, idx);
            idx = next_pos(idx);
        }
        i = i + 1;
    }
}

} // verus!
