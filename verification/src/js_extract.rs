//! The parts of the JavaScript and TypeScript extraction walk that bind
//! names: a function's parameters, the names inside destructuring patterns,
//! and TypeScript type annotations. The facts they emit, and the entity ids
//! they allocate, are recorded in a fact log.

use vstd::prelude::*;
use crate::syntax::{SyntaxNode, field_child, find_field, module_syntax, has_module_syntax};
use crate::extractors::{ExprClass, js_expr_class, js_stmt_kind, classify_js_expression, js_statement_kind};
use crate::text::{copy_str, str_eq, chars_of, string_of, trim_char, trim_char_chars, trim_start_char,
    trim_start_char_chars, first_index_of, find_char, join, views, push_joined, has_prefix};
use crate::extractors::str_starts_with;

verus! {

/// A value in a fact row.
pub enum FactValue {
    Entity(u64),
    Int(i64),
    Str(String),
}

/// A value in a fact row, as the contracts see it.
pub enum ValueView {
    Entity(u64),
    Int(i64),
    Str(Seq<char>),
}

impl View for FactValue {
    type V = ValueView;

    open spec fn view(&self) -> ValueView {
        match self {
            FactValue::Entity(e) => ValueView::Entity(*e),
            FactValue::Int(i) => ValueView::Int(*i),
            FactValue::Str(s) => ValueView::Str(s@),
        }
    }
}

/// The views of a row's values.
pub open spec fn values_view(vs: Seq<FactValue>) -> Seq<ValueView> {
    Seq::new(vs.len(), |i: int| vs[i]@)
}

/// An entry of the fact log: a row of a relation, or the location of a
/// node, recorded under a fresh entity id.
pub enum Fact {
    Row { relation: String, values: Vec<FactValue> },
    Location { id: u64, file: u64, start_row: u64, start_col: u64, end_row: u64, end_col: u64 },
}

/// An entry of the fact log, as the contracts see it.
pub enum FactView {
    Row(Seq<char>, Seq<ValueView>),
    Location(u64, u64, u64, u64, u64, u64),
}

impl View for Fact {
    type V = FactView;

    open spec fn view(&self) -> FactView {
        match self {
            Fact::Row { relation, values } => FactView::Row(relation@, values_view(values@)),
            Fact::Location { id, file, start_row, start_col, end_row, end_col } => FactView::Location(
                *id,
                *file,
                *start_row,
                *start_col,
                *end_row,
                *end_col,
            ),
        }
    }
}

/// The views of the log's entries.
pub open spec fn facts_view(fs: Seq<Fact>) -> Seq<FactView> {
    Seq::new(fs.len(), |i: int| fs[i]@)
}

/// What the walk has emitted: the next entity id to hand out, and the
/// entries in the order they were emitted.
pub struct FactLog {
    next_id: u64,
    facts: Vec<Fact>,
}

/// A fact log as the contracts see it: the next id and the entries.
pub type LogView = (u64, Seq<FactView>);

impl View for FactLog {
    type V = LogView;

    closed spec fn view(&self) -> LogView {
        (self.next_id, facts_view(self.facts@))
    }
}

/// The id after `id`: ids are handed out in increasing order, and after
/// the largest `u64` the count starts again from 0.
pub open spec fn next_after(id: u64) -> u64 {
    if id == u64::MAX {
        0
    } else {
        (id + 1) as u64
    }
}

/// The log after an id is handed out.
pub open spec fn alloc_id(log: LogView) -> LogView {
    (next_after(log.0), log.1)
}

/// The log with one more entry.
pub open spec fn with_fact(log: LogView, f: FactView) -> LogView {
    (log.0, log.1.push(f))
}

/// The log after the location of `n` in `file` is recorded under the next
/// id.
pub open spec fn location_of(log: LogView, file: u64, n: SyntaxNode) -> LogView {
    (
        next_after(log.0),
        log.1.push(FactView::Location(log.0, file, n.start_row, n.start_col, n.end_row, n.end_col)),
    )
}

impl FactLog {
    /// An empty log whose first id is 0.
    pub fn new() -> (r: FactLog)
        ensures
            r@ == (0u64, Seq::<FactView>::empty()),
    {
        let r = FactLog { next_id: 0, facts: Vec::new() };
        assert(facts_view(r.facts@) =~= Seq::<FactView>::empty());
        r
    }

    /// The next id to be handed out.
    pub fn next_id(&self) -> (r: u64)
        ensures
            r == self@.0,
    {
        self.next_id
    }

    /// The entries, in the order they were emitted.
    pub fn facts(&self) -> (r: &Vec<Fact>)
        ensures
            facts_view(r@) == self@.1,
    {
        &self.facts
    }

    /// Hands out the next id.
    pub fn fresh_id(&mut self) -> (id: u64)
        ensures
            id == old(self)@.0,
            final(self)@ == alloc_id(old(self)@),
    {
        let id = self.next_id;
        self.next_id = if id == u64::MAX {
            0
        } else {
            id + 1
        };
        id
    }

    fn push_fact(&mut self, f: Fact)
        ensures
            final(self)@ == with_fact(old(self)@, f@),
    {
        let ghost old_facts = self.facts@;
        self.facts.push(f);
        assert(facts_view(self.facts@) =~= facts_view(old_facts).push(f@));
    }

    /// Emits a row of `relation`.
    pub fn emit(&mut self, relation: &str, values: Vec<FactValue>)
        ensures
            final(self)@ == with_fact(old(self)@, FactView::Row(relation@, values_view(values@))),
    {
        let f = Fact::Row { relation: copy_str(relation), values };
        self.push_fact(f);
    }

    /// Records the location of `node` in `file` under the next id, and
    /// returns that id.
    pub fn emit_location(&mut self, file: u64, node: &SyntaxNode) -> (id: u64)
        ensures
            id == old(self)@.0,
            final(self)@ == location_of(old(self)@, file, *node),
    {
        let id = self.fresh_id();
        let f = Fact::Location {
            id,
            file,
            start_row: node.start_row,
            start_col: node.start_col,
            end_row: node.end_row,
            end_col: node.end_col,
        };
        self.push_fact(f);
        id
    }
}

/// The row naming a variable `n` of `scope`, with its location.
pub open spec fn variable_facts(log: LogView, file: u64, n: SyntaxNode, scope: u64) -> LogView {
    let v = log.0;
    let l1 = with_fact(
        alloc_id(log),
        FactView::Row("variables"@, seq![ValueView::Entity(v), ValueView::Str(n.text@), ValueView::Entity(scope)]),
    );
    let loc = l1.0;
    let l2 = location_of(l1, file, n);
    with_fact(l2, FactView::Row("hasLocation"@, seq![ValueView::Entity(v), ValueView::Entity(loc)]))
}

/// The row of a TypeScript type annotation `n` of the entity `parent`,
/// with its location.
pub open spec fn type_annotation_facts(log: LogView, file: u64, n: SyntaxNode, parent: u64) -> LogView {
    let a = log.0;
    let l1 = alloc_id(log);
    let loc = l1.0;
    let l2 = location_of(l1, file, n);
    let l3 = with_fact(
        l2,
        FactView::Row("type_annotations"@, seq![ValueView::Entity(a), ValueView::Entity(parent), ValueView::Str(n.text@)]),
    );
    with_fact(l3, FactView::Row("hasLocation"@, seq![ValueView::Entity(a), ValueView::Entity(loc)]))
}

pub(crate) fn entity_pair(a: u64, b: u64) -> (r: Vec<FactValue>)
    ensures
        values_view(r@) == seq![ValueView::Entity(a), ValueView::Entity(b)],
{
    let mut r: Vec<FactValue> = Vec::new();
    r.push(FactValue::Entity(a));
    r.push(FactValue::Entity(b));
    assert(values_view(r@) =~= seq![ValueView::Entity(a), ValueView::Entity(b)]);
    r
}

pub(crate) fn entity_text_entity(a: u64, t: &str, b: u64) -> (r: Vec<FactValue>)
    ensures
        values_view(r@) == seq![ValueView::Entity(a), ValueView::Str(t@), ValueView::Entity(b)],
{
    let mut r: Vec<FactValue> = Vec::new();
    r.push(FactValue::Entity(a));
    r.push(FactValue::Str(copy_str(t)));
    r.push(FactValue::Entity(b));
    assert(values_view(r@) =~= seq![ValueView::Entity(a), ValueView::Str(t@), ValueView::Entity(b)]);
    r
}

pub(crate) fn entities_text(a: u64, b: u64, t: &str) -> (r: Vec<FactValue>)
    ensures
        values_view(r@) == seq![ValueView::Entity(a), ValueView::Entity(b), ValueView::Str(t@)],
{
    let mut r: Vec<FactValue> = Vec::new();
    r.push(FactValue::Entity(a));
    r.push(FactValue::Entity(b));
    r.push(FactValue::Str(copy_str(t)));
    assert(values_view(r@) =~= seq![ValueView::Entity(a), ValueView::Entity(b), ValueView::Str(t@)]);
    r
}

/// Emits the variable named by `node` in `scope`, with its location.
pub fn extract_variable(facts: &mut FactLog, file_id: u64, node: &SyntaxNode, scope_id: u64)
    ensures
        final(facts)@ == variable_facts(old(facts)@, file_id, *node, scope_id),
{
    let var_id = facts.fresh_id();
    facts.emit("variables", entity_text_entity(var_id, node.text.as_str(), scope_id));
    let loc = facts.emit_location(file_id, node);
    facts.emit("hasLocation", entity_pair(var_id, loc));
}

/// Emits the TypeScript type annotation `node` of the entity `parent_id`,
/// with its location.
pub fn extract_type_annotation(facts: &mut FactLog, file_id: u64, node: &SyntaxNode, parent_id: u64)
    ensures
        final(facts)@ == type_annotation_facts(old(facts)@, file_id, *node, parent_id),
{
    let ann_id = facts.fresh_id();
    let loc = facts.emit_location(file_id, node);
    facts.emit("type_annotations", entities_text(ann_id, parent_id, node.text.as_str()));
    facts.emit("hasLocation", entity_pair(ann_id, loc));
}

/// The kinds of pattern nodes in which variable names are searched.
pub open spec fn pattern_kind(k: Seq<char>) -> bool {
    ||| k == "array_pattern"@
    ||| k == "object_pattern"@
    ||| k == "pair_pattern"@
    ||| k == "assignment_pattern"@
    ||| k == "rest_pattern"@
    ||| k == "shorthand_property_identifier_pattern"@
}

fn is_pattern_kind(k: &str) -> (r: bool)
    ensures
        r == pattern_kind(k@),
{
    str_eq(k, "array_pattern") || str_eq(k, "object_pattern") || str_eq(k, "pair_pattern") || str_eq(
        k,
        "assignment_pattern",
    ) || str_eq(k, "rest_pattern") || str_eq(k, "shorthand_property_identifier_pattern")
}

/// The variables bound by the destructuring pattern `n`: every identifier
/// among its children, and those of the patterns among them, in order.
pub open spec fn pattern_vars(log: LogView, file: u64, n: SyntaxNode, scope: u64) -> LogView
    decreases n, 0int,
{
    pattern_vars_from(log, file, n.children@, 0, scope)
}

/// The variables bound by `cs[i]`, `cs[i + 1]`, ... in turn.
pub open spec fn pattern_vars_from(log: LogView, file: u64, cs: Seq<SyntaxNode>, i: int, scope: u64) -> LogView
    decreases cs, cs.len() - i,
{
    if 0 <= i < cs.len() {
        let c = cs[i];
        let l = if c.kind@ == "identifier"@ {
            variable_facts(log, file, c, scope)
        } else if pattern_kind(c.kind@) {
            pattern_vars(log, file, c, scope)
        } else {
            log
        };
        pattern_vars_from(l, file, cs, i + 1, scope)
    } else {
        log
    }
}

/// Emits the variables bound by the destructuring pattern `node`
/// (`pattern_vars`).
pub fn extract_pattern_vars(facts: &mut FactLog, file_id: u64, node: &SyntaxNode, scope_id: u64)
    ensures
        final(facts)@ == pattern_vars(old(facts)@, file_id, *node, scope_id),
    decreases node,
{
    let cs = &node.children;
    let ghost start = facts@;
    let mut i: usize = 0;
    while i < cs.len()
        invariant
            cs@ == node.children@,
            i <= cs@.len(),
            pattern_vars_from(facts@, file_id, cs@, i as int, scope_id) == pattern_vars_from(start, file_id, cs@, 0, scope_id),
        decreases cs@.len() - i,
    {
        let c = &cs[i];
        if str_eq(c.kind.as_str(), "identifier") {
            extract_variable(facts, file_id, c, scope_id);
        } else if is_pattern_kind(c.kind.as_str()) {
            extract_pattern_vars(facts, file_id, c, scope_id);
        }
        i = i + 1;
    }
}

/// The variables named by the identifiers among `cs[i]`, `cs[i + 1]`, ...
/// (the children of a rest parameter).
pub open spec fn rest_vars_from(log: LogView, file: u64, cs: Seq<SyntaxNode>, i: int, scope: u64) -> LogView
    decreases cs.len() - i,
{
    if 0 <= i < cs.len() {
        let l = if cs[i].kind@ == "identifier"@ {
            variable_facts(log, file, cs[i], scope)
        } else {
            log
        };
        rest_vars_from(l, file, cs, i + 1, scope)
    } else {
        log
    }
}

/// The variable named by the field `f` of `c`, when that field holds an
/// identifier.
pub open spec fn field_variable_facts(log: LogView, file: u64, c: SyntaxNode, f: Seq<char>, scope: u64) -> LogView {
    match field_child(c.children@, f) {
        Some(x) => if x.kind@ == "identifier"@ {
            variable_facts(log, file, x, scope)
        } else {
            log
        },
        None => log,
    }
}

/// What one child `c` of a parameter list emits: an identifier, a default
/// parameter whose left side is an identifier, and each identifier of a
/// rest parameter bind a variable of `scope`; a destructuring pattern binds
/// its variables (`pattern_vars`); in TypeScript a required or optional
/// parameter binds its pattern when that is an identifier, and its type
/// annotation belongs to the function `func`. Other children emit nothing.
pub open spec fn param_facts(log: LogView, file: u64, c: SyntaxNode, func: u64, scope: u64, ts: bool) -> LogView {
    if c.kind@ == "identifier"@ {
        variable_facts(log, file, c, scope)
    } else if c.kind@ == "assignment_pattern"@ {
        field_variable_facts(log, file, c, "left"@, scope)
    } else if c.kind@ == "rest_pattern"@ {
        rest_vars_from(log, file, c.children@, 0, scope)
    } else if c.kind@ == "array_pattern"@ || c.kind@ == "object_pattern"@ {
        pattern_vars(log, file, c, scope)
    } else if (c.kind@ == "required_parameter"@ || c.kind@ == "optional_parameter"@) && ts {
        let l = field_variable_facts(log, file, c, "pattern"@, scope);
        match field_child(c.children@, "type"@) {
            Some(t) => type_annotation_facts(l, file, t, func),
            None => l,
        }
    } else {
        log
    }
}

/// What the children `cs[i]`, `cs[i + 1]`, ... of a parameter list emit in
/// turn.
pub open spec fn params_from(
    log: LogView,
    file: u64,
    cs: Seq<SyntaxNode>,
    i: int,
    func: u64,
    scope: u64,
    ts: bool,
) -> LogView
    decreases cs.len() - i,
{
    if 0 <= i < cs.len() {
        params_from(param_facts(log, file, cs[i], func, scope, ts), file, cs, i + 1, func, scope, ts)
    } else {
        log
    }
}

/// What the parameter list `params` of the function `func`, whose scope is
/// `scope`, emits: its children in order (`param_facts`).
pub open spec fn function_params_facts(
    log: LogView,
    file: u64,
    params: SyntaxNode,
    func: u64,
    scope: u64,
    ts: bool,
) -> LogView {
    params_from(log, file, params.children@, 0, func, scope, ts)
}

fn extract_field_variable(facts: &mut FactLog, file_id: u64, c: &SyntaxNode, f: &str, scope_id: u64)
    ensures
        final(facts)@ == field_variable_facts(old(facts)@, file_id, *c, f@, scope_id),
{
    match find_field(&c.children, f) {
        Some(x) => {
            if str_eq(x.kind.as_str(), "identifier") {
                extract_variable(facts, file_id, x, scope_id);
            }
        },
        None => {},
    }
}

fn extract_rest_vars(facts: &mut FactLog, file_id: u64, c: &SyntaxNode, scope_id: u64)
    ensures
        final(facts)@ == rest_vars_from(old(facts)@, file_id, c.children@, 0, scope_id),
{
    let cs = &c.children;
    let ghost start = facts@;
    let mut i: usize = 0;
    while i < cs.len()
        invariant
            cs@ == c.children@,
            i <= cs@.len(),
            rest_vars_from(facts@, file_id, cs@, i as int, scope_id) == rest_vars_from(start, file_id, cs@, 0, scope_id),
        decreases cs@.len() - i,
    {
        if str_eq(cs[i].kind.as_str(), "identifier") {
            extract_variable(facts, file_id, &cs[i], scope_id);
        }
        i = i + 1;
    }
}

/// Emits what the parameter list `params` of the function `func_id`, whose
/// scope is `func_scope_id`, binds (`function_params_facts`).
pub fn extract_function_params(
    facts: &mut FactLog,
    file_id: u64,
    params: &SyntaxNode,
    func_id: u64,
    func_scope_id: u64,
    is_typescript: bool,
)
    ensures
        final(facts)@ == function_params_facts(old(facts)@, file_id, *params, func_id, func_scope_id, is_typescript),
{
    let cs = &params.children;
    let ghost start = facts@;
    let mut i: usize = 0;
    while i < cs.len()
        invariant
            cs@ == params.children@,
            i <= cs@.len(),
            params_from(facts@, file_id, cs@, i as int, func_id, func_scope_id, is_typescript) == params_from(
                start,
                file_id,
                cs@,
                0,
                func_id,
                func_scope_id,
                is_typescript,
            ),
        decreases cs@.len() - i,
    {
        let c = &cs[i];
        let k = c.kind.as_str();
        if str_eq(k, "identifier") {
            extract_variable(facts, file_id, c, func_scope_id);
        } else if str_eq(k, "assignment_pattern") {
            extract_field_variable(facts, file_id, c, "left", func_scope_id);
        } else if str_eq(k, "rest_pattern") {
            extract_rest_vars(facts, file_id, c, func_scope_id);
        } else if str_eq(k, "array_pattern") || str_eq(k, "object_pattern") {
            extract_pattern_vars(facts, file_id, c, func_scope_id);
        } else if (str_eq(k, "required_parameter") || str_eq(k, "optional_parameter")) && is_typescript {
            extract_field_variable(facts, file_id, c, "pattern", func_scope_id);
            match find_field(&c.children, "type") {
                Some(t) => extract_type_annotation(facts, file_id, t, func_id),
                None => {},
            }
        }
        i = i + 1;
    }
}

pub(crate) fn ent_num(a: u64, i: i64) -> (r: Vec<FactValue>)
    ensures
        values_view(r@) == seq![ValueView::Entity(a), ValueView::Int(i)],
{
    let mut r: Vec<FactValue> = Vec::new();
    r.push(FactValue::Entity(a));
    r.push(FactValue::Int(i));
    assert(values_view(r@) =~= seq![ValueView::Entity(a), ValueView::Int(i)]);
    r
}

pub(crate) fn text_ent(t: &str, a: u64) -> (r: Vec<FactValue>)
    ensures
        values_view(r@) == seq![ValueView::Str(t@), ValueView::Entity(a)],
{
    let mut r: Vec<FactValue> = Vec::new();
    r.push(FactValue::Str(copy_str(t)));
    r.push(FactValue::Entity(a));
    assert(values_view(r@) =~= seq![ValueView::Str(t@), ValueView::Entity(a)]);
    r
}

pub(crate) fn ent_num_ent_num(a: u64, i: i64, b: u64, j: i64) -> (r: Vec<FactValue>)
    ensures
        values_view(r@) == seq![ValueView::Entity(a), ValueView::Int(i), ValueView::Entity(b), ValueView::Int(j)],
{
    let mut r: Vec<FactValue> = Vec::new();
    r.push(FactValue::Entity(a));
    r.push(FactValue::Int(i));
    r.push(FactValue::Entity(b));
    r.push(FactValue::Int(j));
    assert(values_view(r@) =~= seq![ValueView::Entity(a), ValueView::Int(i), ValueView::Entity(b), ValueView::Int(j)]);
    r
}

pub(crate) fn ents_nums(a: u64, b: u64, i: i64, j: i64) -> (r: Vec<FactValue>)
    ensures
        values_view(r@) == seq![ValueView::Entity(a), ValueView::Entity(b), ValueView::Int(i), ValueView::Int(j)],
{
    let mut r: Vec<FactValue> = Vec::new();
    r.push(FactValue::Entity(a));
    r.push(FactValue::Entity(b));
    r.push(FactValue::Int(i));
    r.push(FactValue::Int(j));
    assert(values_view(r@) =~= seq![ValueView::Entity(a), ValueView::Entity(b), ValueView::Int(i), ValueView::Int(j)]);
    r
}

pub(crate) fn ent_num_ent_text(a: u64, i: i64, b: u64, t: &str) -> (r: Vec<FactValue>)
    ensures
        values_view(r@) == seq![ValueView::Entity(a), ValueView::Int(i), ValueView::Entity(b), ValueView::Str(t@)],
{
    let mut r: Vec<FactValue> = Vec::new();
    r.push(FactValue::Entity(a));
    r.push(FactValue::Int(i));
    r.push(FactValue::Entity(b));
    r.push(FactValue::Str(copy_str(t)));
    assert(values_view(r@) =~= seq![ValueView::Entity(a), ValueView::Int(i), ValueView::Entity(b), ValueView::Str(t@)]);
    r
}

pub(crate) fn ents_texts(a: u64, b: u64, s: &str, t: &str) -> (r: Vec<FactValue>)
    ensures
        values_view(r@) == seq![ValueView::Entity(a), ValueView::Entity(b), ValueView::Str(s@), ValueView::Str(t@)],
{
    let mut r: Vec<FactValue> = Vec::new();
    r.push(FactValue::Entity(a));
    r.push(FactValue::Entity(b));
    r.push(FactValue::Str(copy_str(s)));
    r.push(FactValue::Str(copy_str(t)));
    assert(values_view(r@) =~= seq![ValueView::Entity(a), ValueView::Entity(b), ValueView::Str(s@), ValueView::Str(t@)]);
    r
}

/// The position of the first child from `i` on that stands under field
/// `f`, or `cs.len()` when there is none.
pub open spec fn field_index(cs: Seq<SyntaxNode>, f: Seq<char>, i: int) -> int
    decreases cs.len() - i,
{
    if i < 0 || i >= cs.len() {
        cs.len() as int
    } else if cs[i].field matches Some(g) && g@ == f {
        i
    } else {
        field_index(cs, f, i + 1)
    }
}

/// The position of the first named child from `i` on, or `cs.len()`.
pub open spec fn first_named(cs: Seq<SyntaxNode>, i: int) -> int
    decreases cs.len() - i,
{
    if i < 0 || i >= cs.len() {
        cs.len() as int
    } else if cs[i].named {
        i
    } else {
        first_named(cs, i + 1)
    }
}

proof fn lemma_field_index_range(cs: Seq<SyntaxNode>, f: Seq<char>, i: int)
    requires
        0 <= i,
    ensures
        i <= field_index(cs, f, i) <= cs.len() || field_index(cs, f, i) == cs.len(),
        0 <= field_index(cs, f, i) <= cs.len(),
    decreases cs.len() - i,
{
    if 0 <= i < cs.len() {
        lemma_field_index_range(cs, f, i + 1);
    }
}

/// The text of the first child of `n` standing under field `f`, or the
/// empty text when there is none.
pub open spec fn field_child_text(n: SyntaxNode, f: Seq<char>) -> Seq<char> {
    match field_child(n.children@, f) {
        Some(c) => c.text@,
        None => Seq::empty(),
    }
}

proof fn lemma_field_index_child(cs: Seq<SyntaxNode>, f: Seq<char>, i: int)
    requires
        0 <= i <= cs.len(),
    ensures
        match field_child(cs.skip(i), f) {
            Some(c) => i <= field_index(cs, f, i) < cs.len() && cs[field_index(cs, f, i)] == c,
            None => field_index(cs, f, i) == cs.len(),
        },
    decreases cs.len() - i,
{
    if i < cs.len() {
        assert(cs.skip(i)[0] == cs[i]);
        assert(cs.skip(i).drop_first() =~= cs.skip(i + 1));
        if !(cs[i].field matches Some(g) && g@ == f) {
            lemma_field_index_child(cs, f, i + 1);
        }
    } else {
        assert(cs.skip(i).len() == 0);
    }
}

/// The position a walk finds for a field is that of the first child
/// standing under it: `field_text` is the text of that child, or empty.
pub proof fn lemma_field_text_is_field_child_text(n: SyntaxNode, f: Seq<char>)
    ensures
        field_text(n, f) == field_child_text(n, f),
        (0 <= field_index(n.children@, f, 0) < n.children@.len()) == (field_child(n.children@, f) is Some),
{
    lemma_field_index_child(n.children@, f, 0);
    assert(n.children@.skip(0) =~= n.children@);
}

pub(crate) fn field_pos(cs: &Vec<SyntaxNode>, f: &str) -> (r: usize)
    ensures
        r == field_index(cs@, f@, 0),
        r <= cs@.len(),
{
    let mut i: usize = 0;
    while i < cs.len()
        invariant
            i <= cs@.len(),
            field_index(cs@, f@, 0) == field_index(cs@, f@, i as int),
        decreases cs@.len() - i,
    {
        match &cs[i].field {
            Some(g) => {
                if str_eq(g.as_str(), f) {
                    return i;
                }
            },
            None => {},
        }
        i = i + 1;
    }
    i
}

pub(crate) fn first_named_pos(cs: &Vec<SyntaxNode>) -> (r: usize)
    ensures
        r == first_named(cs@, 0),
        r <= cs@.len(),
{
    let mut i: usize = 0;
    while i < cs.len()
        invariant
            i <= cs@.len(),
            first_named(cs@, 0) == first_named(cs@, i as int),
        decreases cs@.len() - i,
    {
        if cs[i].named {
            return i;
        }
        i = i + 1;
    }
    i
}

/// The text of the child of `n` under field `f`, or the empty text.
pub open spec fn field_text(n: SyntaxNode, f: Seq<char>) -> Seq<char> {
    let k = field_index(n.children@, f, 0);
    if 0 <= k < n.children@.len() {
        n.children@[k].text@
    } else {
        Seq::empty()
    }
}

pub(crate) fn field_text_of(n: &SyntaxNode, f: &str) -> (r: String)
    ensures
        r@ == field_text(*n, f@),
{
    let k = field_pos(&n.children, f);
    if k < n.children.len() {
        copy_str(n.children[k].text.as_str())
    } else {
        String::new()
    }
}

/// The row of the comment `n` inside the entity `parent`, with its
/// location: a line comment when its text begins with `//`, a block
/// comment otherwise.
pub open spec fn comment_facts(log: LogView, file: u64, n: SyntaxNode, parent: u64) -> LogView {
    let c = log.0;
    let l1 = alloc_id(log);
    let loc = l1.0;
    let l2 = location_of(l1, file, n);
    let kind: i64 = if has_prefix(n.text@, "//"@) { 0 } else { 1 };
    let l3 = with_fact(
        l2,
        FactView::Row("comments"@, seq![ValueView::Entity(c), ValueView::Int(kind), ValueView::Entity(parent), ValueView::Str(n.text@)]),
    );
    with_fact(l3, FactView::Row("hasLocation"@, seq![ValueView::Entity(c), ValueView::Entity(loc)]))
}

/// Emits the comment `node` inside the entity `parent_id` (`comment_facts`).
pub fn extract_comment(facts: &mut FactLog, file_id: u64, node: &SyntaxNode, parent_id: u64)
    ensures
        final(facts)@ == comment_facts(old(facts)@, file_id, *node, parent_id),
{
    let c = facts.fresh_id();
    let loc = facts.emit_location(file_id, node);
    let kind: i64 = if str_starts_with(node.text.as_str(), "//") { 0 } else { 1 };
    facts.emit("comments", ent_num_ent_text(c, kind, parent_id, node.text.as_str()));
    facts.emit("hasLocation", entity_pair(c, loc));
}

/// The row of `relation` for a named TypeScript declaration `n` (an
/// interface, an enum or a type alias) of the statement `parent`, with its
/// location.
pub open spec fn named_decl_facts(log: LogView, file: u64, n: SyntaxNode, parent: u64, relation: Seq<char>) -> LogView {
    let d = log.0;
    let l1 = alloc_id(log);
    let loc = l1.0;
    let l2 = location_of(l1, file, n);
    let l3 = with_fact(
        l2,
        FactView::Row(relation, seq![ValueView::Entity(d), ValueView::Str(field_text(n, "name"@)), ValueView::Entity(parent)]),
    );
    with_fact(l3, FactView::Row("hasLocation"@, seq![ValueView::Entity(d), ValueView::Entity(loc)]))
}

/// Emits a named TypeScript declaration (`named_decl_facts`).
fn extract_named_decl(facts: &mut FactLog, file_id: u64, node: &SyntaxNode, parent_id: u64, relation: &str)
    ensures
        final(facts)@ == named_decl_facts(old(facts)@, file_id, *node, parent_id, relation@),
{
    let name = field_text_of(node, "name");
    let d = facts.fresh_id();
    let loc = facts.emit_location(file_id, node);
    facts.emit(relation, entity_text_entity(d, name.as_str(), parent_id));
    facts.emit("hasLocation", entity_pair(d, loc));
}

/// The name of a decorator: its text without the leading `@`s, up to its
/// first parenthesis.
pub open spec fn decorator_name(text: Seq<char>) -> Seq<char> {
    let t = trim_start_char(text, '@');
    match first_index_of(t, '(') {
        Some(i) => t.take(i),
        None => t,
    }
}

pub(crate) fn decorator_name_of(text: &str) -> (r: String)
    ensures
        r@ == decorator_name(text@),
{
    let cs = chars_of(text);
    let t = trim_start_char_chars(cs.as_slice(), '@');
    match find_char(t.as_slice(), '(') {
        Some(i) => {
            let ghost tv = t@;
            let mut out: Vec<char> = Vec::new();
            let mut j: usize = 0;
            while j < i
                invariant
                    t@ == tv,
                    i < tv.len(),
                    j <= i,
                    out@ == tv.take(j as int),
                decreases i - j,
            {
                out.push(t[j]);
                assert(tv.take(j + 1) =~= tv.take(j as int).push(tv[j as int]));
                j = j + 1;
            }
            string_of(out.as_slice())
        },
        None => {
            assert(first_index_of(t@, '(') is None);
            string_of(t.as_slice())
        },
    }
}

/// The decorators among `cs[i]`, `cs[i + 1]`, ..., each a row of the
/// entity `parent` with its location.
pub open spec fn decorators_from(log: LogView, file: u64, cs: Seq<SyntaxNode>, i: int, parent: u64) -> LogView
    decreases cs.len() - i,
{
    if 0 <= i < cs.len() {
        let c = cs[i];
        let l = if c.kind@ == "decorator"@ {
            let d = log.0;
            let l1 = alloc_id(log);
            let loc = l1.0;
            let l2 = location_of(l1, file, c);
            let l3 = with_fact(
                l2,
                FactView::Row("decorators"@, seq![ValueView::Entity(d), ValueView::Str(decorator_name(c.text@)), ValueView::Entity(parent)]),
            );
            with_fact(l3, FactView::Row("hasLocation"@, seq![ValueView::Entity(d), ValueView::Entity(loc)]))
        } else {
            log
        };
        decorators_from(l, file, cs, i + 1, parent)
    } else {
        log
    }
}

/// Emits the decorators among the children of `node` (`decorators_from`).
pub fn extract_decorators(facts: &mut FactLog, file_id: u64, node: &SyntaxNode, parent_id: u64)
    ensures
        final(facts)@ == decorators_from(old(facts)@, file_id, node.children@, 0, parent_id),
{
    let cs = &node.children;
    let ghost start = facts@;
    let mut i: usize = 0;
    while i < cs.len()
        invariant
            cs@ == node.children@,
            i <= cs@.len(),
            decorators_from(facts@, file_id, cs@, i as int, parent_id) == decorators_from(start, file_id, cs@, 0, parent_id),
        decreases cs@.len() - i,
    {
        let c = &cs[i];
        if str_eq(c.kind.as_str(), "decorator") {
            let name = decorator_name_of(c.text.as_str());
            let d = facts.fresh_id();
            let loc = facts.emit_location(file_id, c);
            facts.emit("decorators", entity_text_entity(d, name.as_str(), parent_id));
            facts.emit("hasLocation", entity_pair(d, loc));
        }
        i = i + 1;
    }
}

/// The names that the import specifiers among `cs[i]`, `cs[i + 1]`, ...
/// bring in, appended to `acc`.
pub open spec fn specifier_names(acc: Seq<Seq<char>>, cs: Seq<SyntaxNode>, i: int) -> Seq<Seq<char>>
    decreases cs.len() - i,
{
    if 0 <= i < cs.len() {
        let k = field_index(cs[i].children@, "name"@, 0);
        let a = if cs[i].kind@ == "import_specifier"@ && 0 <= k < cs[i].children@.len() {
            acc.push(cs[i].children@[k].text@)
        } else {
            acc
        };
        specifier_names(a, cs, i + 1)
    } else {
        acc
    }
}

/// The names that the parts `cs[i]`, `cs[i + 1]`, ... of an import clause
/// bring in, appended to `acc`: a default import, each named import, and a
/// namespace import by its whole text.
pub open spec fn clause_names(acc: Seq<Seq<char>>, cs: Seq<SyntaxNode>, i: int) -> Seq<Seq<char>>
    decreases cs.len() - i,
{
    if 0 <= i < cs.len() {
        let c = cs[i];
        let a = if c.kind@ == "identifier"@ {
            acc.push(c.text@)
        } else if c.kind@ == "named_imports"@ {
            specifier_names(acc, c.children@, 0)
        } else if c.kind@ == "namespace_import"@ {
            acc.push(c.text@)
        } else {
            acc
        };
        clause_names(a, cs, i + 1)
    } else {
        acc
    }
}

/// The names that the import clauses among `cs[i]`, `cs[i + 1]`, ... bring
/// in, appended to `acc`.
pub open spec fn import_names(acc: Seq<Seq<char>>, cs: Seq<SyntaxNode>, i: int) -> Seq<Seq<char>>
    decreases cs.len() - i,
{
    if 0 <= i < cs.len() {
        let a = if cs[i].kind@ == "import_clause"@ {
            clause_names(acc, cs[i].children@, 0)
        } else {
            acc
        };
        import_names(a, cs, i + 1)
    } else {
        acc
    }
}

/// The module an import statement names: the text of its `source` child
/// without the surrounding quotes, or the empty text.
pub open spec fn import_path(n: SyntaxNode) -> Seq<char> {
    let k = field_index(n.children@, "source"@, 0);
    if 0 <= k < n.children@.len() {
        trim_char(trim_char(n.children@[k].text@, '\''), '"')
    } else {
        Seq::empty()
    }
}

/// The row of the import statement `n` of the statement `parent`, with its
/// location: the names it brings in, joined by `, ` (its module when it
/// names none), and its module.
pub open spec fn import_facts(log: LogView, file: u64, n: SyntaxNode, parent: u64) -> LogView {
    let i = log.0;
    let l1 = alloc_id(log);
    let loc = l1.0;
    let l2 = location_of(l1, file, n);
    let path = import_path(n);
    let names = import_names(Seq::empty(), n.children@, 0);
    let name = if names.len() == 0 { path } else { join(names, ", "@) };
    let l3 = with_fact(
        l2,
        FactView::Row("imports"@, seq![ValueView::Entity(i), ValueView::Entity(parent), ValueView::Str(name), ValueView::Str(path)]),
    );
    with_fact(l3, FactView::Row("hasLocation"@, seq![ValueView::Entity(i), ValueView::Entity(loc)]))
}

fn import_path_of(n: &SyntaxNode) -> (r: String)
    ensures
        r@ == import_path(*n),
{
    let k = field_pos(&n.children, "source");
    if k < n.children.len() {
        let t = chars_of(n.children[k].text.as_str());
        let a = trim_char_chars(t.as_slice(), '\'');
        let b = trim_char_chars(a.as_slice(), '"');
        string_of(b.as_slice())
    } else {
        String::new()
    }
}

fn push_specifier_names(names: &mut Vec<String>, n: &SyntaxNode)
    ensures
        views(final(names)@) == specifier_names(views(old(names)@), n.children@, 0),
{
    let cs = &n.children;
    let ghost start = views(names@);
    let mut i: usize = 0;
    while i < cs.len()
        invariant
            cs@ == n.children@,
            i <= cs@.len(),
            specifier_names(views(names@), cs@, i as int) == specifier_names(start, cs@, 0),
        decreases cs@.len() - i,
    {
        let c = &cs[i];
        if str_eq(c.kind.as_str(), "import_specifier") {
            let k = field_pos(&c.children, "name");
            if k < c.children.len() {
                let ghost before = names@;
                names.push(copy_str(c.children[k].text.as_str()));
                assert(views(names@) =~= views(before).push(c.children@[k as int].text@));
            }
        }
        i = i + 1;
    }
}

fn push_clause_names(names: &mut Vec<String>, n: &SyntaxNode)
    ensures
        views(final(names)@) == clause_names(views(old(names)@), n.children@, 0),
{
    let cs = &n.children;
    let ghost start = views(names@);
    let mut i: usize = 0;
    while i < cs.len()
        invariant
            cs@ == n.children@,
            i <= cs@.len(),
            clause_names(views(names@), cs@, i as int) == clause_names(start, cs@, 0),
        decreases cs@.len() - i,
    {
        let c = &cs[i];
        let k = c.kind.as_str();
        if str_eq(k, "identifier") || (!str_eq(k, "named_imports") && str_eq(k, "namespace_import")) {
            let ghost before = names@;
            names.push(copy_str(c.text.as_str()));
            assert(views(names@) =~= views(before).push(c.text@));
        } else if str_eq(k, "named_imports") {
            push_specifier_names(names, c);
        }
        i = i + 1;
    }
}

/// Emits the import statement `node` of the statement `parent_id`
/// (`import_facts`).
pub fn extract_import(facts: &mut FactLog, file_id: u64, node: &SyntaxNode, parent_id: u64)
    ensures
        final(facts)@ == import_facts(old(facts)@, file_id, *node, parent_id),
{
    let id = facts.fresh_id();
    let loc = facts.emit_location(file_id, node);
    let path = import_path_of(node);
    let mut names: Vec<String> = Vec::new();
    let cs = &node.children;
    let mut i: usize = 0;
    assert(views(names@) =~= Seq::<Seq<char>>::empty());
    while i < cs.len()
        invariant
            cs@ == node.children@,
            i <= cs@.len(),
            import_names(views(names@), cs@, i as int) == import_names(Seq::empty(), cs@, 0),
        decreases cs@.len() - i,
    {
        if str_eq(cs[i].kind.as_str(), "import_clause") {
            push_clause_names(&mut names, &cs[i]);
        }
        i = i + 1;
    }
    let name = if names.len() == 0 {
        copy_str(path.as_str())
    } else {
        let mut s = String::new();
        push_joined(&mut s, &names, ", ");
        assert(s@ =~= join(views(names@), ", "@));
        s
    };
    facts.emit("imports", ents_texts(id, parent_id, name.as_str(), path.as_str()));
    facts.emit("hasLocation", entity_pair(id, loc));
}

// ---------------------------------------------------------------------------
// The statement and expression walk
// ---------------------------------------------------------------------------

/// The log with a row of `relation`.
pub open spec fn row(log: LogView, relation: Seq<char>, vals: Seq<ValueView>) -> LogView {
    with_fact(log, FactView::Row(relation, vals))
}

pub open spec fn ent(x: u64) -> ValueView {
    ValueView::Entity(x)
}

pub open spec fn num(x: i64) -> ValueView {
    ValueView::Int(x)
}

pub open spec fn txt(s: Seq<char>) -> ValueView {
    ValueView::Str(s)
}

/// The position after `i` among the children of a node: positions count
/// in `i64`, and after the largest one the count goes on from the
/// smallest.
pub open spec fn next_index(i: i64) -> i64 {
    if i == i64::MAX {
        i64::MIN
    } else {
        (i + 1) as i64
    }
}

pub(crate) fn next_pos(i: i64) -> (r: i64)
    ensures
        r == next_index(i),
{
    if i == i64::MAX {
        i64::MIN
    } else {
        i + 1
    }
}

/// The node kinds whose text is recorded as a literal of their expression.
pub open spec fn literal_node(k: Seq<char>) -> bool {
    ||| k == "identifier"@ ||| k == "this"@ ||| k == "super"@ ||| k == "undefined"@
    ||| k == "null"@ ||| k == "true"@ ||| k == "false"@ ||| k == "number"@
    ||| k == "string"@ ||| k == "string_fragment"@ ||| k == "regex"@
}

fn is_literal_node(k: &str) -> (r: bool)
    ensures
        r == literal_node(k@),
{
    str_eq(k, "identifier") || str_eq(k, "this") || str_eq(k, "super") || str_eq(k, "undefined") || str_eq(
        k,
        "null",
    ) || str_eq(k, "true") || str_eq(k, "false") || str_eq(k, "number") || str_eq(k, "string") || str_eq(
        k,
        "string_fragment",
    ) || str_eq(k, "regex")
}

/// The declarations that an export statement extracts as statements; its
/// other named children are extracted as expressions.
pub open spec fn export_decl(k: Seq<char>, ts: bool) -> bool {
    ||| k == "function_declaration"@ ||| k == "generator_function_declaration"@
    ||| k == "class_declaration"@ ||| k == "variable_declaration"@ ||| k == "lexical_declaration"@
    ||| ts && k == "interface_declaration"@ ||| ts && k == "type_alias_declaration"@
    ||| ts && k == "enum_declaration"@
}

fn is_export_decl(k: &str, ts: bool) -> (r: bool)
    ensures
        r == export_decl(k@, ts),
{
    str_eq(k, "function_declaration") || str_eq(k, "generator_function_declaration") || str_eq(
        k,
        "class_declaration",
    ) || str_eq(k, "variable_declaration") || str_eq(k, "lexical_declaration") || (ts && str_eq(
        k,
        "interface_declaration",
    )) || (ts && str_eq(k, "type_alias_declaration")) || (ts && str_eq(k, "enum_declaration"))
}

/// The label `lb` of the labeled statement `s`: an expression of kind 0
/// with its location and its text as literal.
pub open spec fn label_facts(log: LogView, file: u64, lb: SyntaxNode, s: u64) -> LogView {
    let id = log.0;
    let l1 = row(alloc_id(log), "exprs"@, seq![ent(id), num(0), ent(s), num(0)]);
    let loc = l1.0;
    let l2 = location_of(l1, file, lb);
    let l3 = row(l2, "hasLocation"@, seq![ent(id), ent(loc)]);
    row(l3, "literals"@, seq![txt(lb.text@), ent(id)])
}

/// The variable that a declarator binds to the identifier `x`, and the
/// expression of kind 78 under the declarator `d` that declares it; both
/// share the identifier's location.
pub open spec fn binding_facts(log: LogView, file: u64, x: SyntaxNode, d: u64, scope: u64) -> LogView {
    let v = log.0;
    let l1 = row(alloc_id(log), "variables"@, seq![ent(v), txt(x.text@), ent(scope)]);
    let vloc = l1.0;
    let l2 = location_of(l1, file, x);
    let l3 = row(l2, "hasLocation"@, seq![ent(v), ent(vloc)]);
    let vd = l3.0;
    let l4 = row(alloc_id(l3), "exprs"@, seq![ent(vd), num(78), ent(d), num(0)]);
    let l5 = row(l4, "hasLocation"@, seq![ent(vd), ent(vloc)]);
    row(l5, "literals"@, seq![txt(x.text@), ent(vd)])
}

/// A shorthand property `c` at position `idx` of the object `parent`: the
/// property and, under it, an expression of kind 79 that names it, both at
/// the property's location.
pub open spec fn shorthand_facts(log: LogView, file: u64, c: SyntaxNode, parent: u64, idx: i64) -> LogView {
    let p = log.0;
    let l1 = alloc_id(log);
    let loc = l1.0;
    let l2 = location_of(l1, file, c);
    let l3 = row(l2, "properties"@, seq![ent(p), ent(parent), num(idx), num(0)]);
    let l4 = row(l3, "hasLocation"@, seq![ent(p), ent(loc)]);
    let nm = l4.0;
    let l5 = row(alloc_id(l4), "exprs"@, seq![ent(nm), num(79), ent(p), num(0)]);
    let l6 = row(l5, "hasLocation"@, seq![ent(nm), ent(loc)]);
    row(l6, "literals"@, seq![txt(c.text@), ent(nm)])
}

/// The statement `n` at position `index` under `parent`, in `scope`: for a
/// node that is a statement (`js_stmt_kind`), its row with its location,
/// then what its parts emit (`stmt_body_facts`), and its id; for another
/// node nothing.
pub open spec fn stmt_facts(
    log: LogView,
    file: u64,
    n: SyntaxNode,
    parent: u64,
    scope: u64,
    index: i64,
    ts: bool,
) -> (LogView, Option<u64>)
    decreases n, 4int,
{
    match js_stmt_kind(n.kind@, n.text@, ts) {
        Some(k) => {
            let s = log.0;
            let l1 = alloc_id(log);
            let loc = l1.0;
            let l2 = location_of(l1, file, n);
            let l3 = row(l2, "stmts"@, seq![ent(s), num(k), ent(parent), num(index)]);
            let l4 = row(l3, "hasLocation"@, seq![ent(s), ent(loc)]);
            (stmt_body_facts(l4, file, n, s, scope, ts), Some(s))
        },
        None => (log, None),
    }
}

/// A statement or, for a comment, the comment's row.
pub open spec fn stmt_or_decl_facts(
    log: LogView,
    file: u64,
    n: SyntaxNode,
    parent: u64,
    scope: u64,
    index: i64,
    ts: bool,
) -> (LogView, Option<u64>)
    decreases n, 5int,
{
    if n.kind@ == "comment"@ {
        (comment_facts(log, file, n, parent), None)
    } else {
        stmt_facts(log, file, n, parent, scope, index, ts)
    }
}

/// A declaration taken as a statement, anything else as an expression (the
/// head of a `for` loop).
pub open spec fn expr_or_stmt_facts(
    log: LogView,
    file: u64,
    n: SyntaxNode,
    parent: u64,
    scope: u64,
    index: i64,
    ts: bool,
) -> LogView
    decreases n, 5int,
{
    if n.kind@ == "variable_declaration"@ || n.kind@ == "lexical_declaration"@ {
        stmt_facts(log, file, n, parent, scope, index, ts).0
    } else {
        expr_facts(log, file, n, parent, scope, index, ts).0
    }
}

/// The expression under field `f` of `n`, if there is one.
pub open spec fn field_expr(
    log: LogView,
    file: u64,
    n: SyntaxNode,
    f: Seq<char>,
    parent: u64,
    scope: u64,
    index: i64,
    ts: bool,
) -> LogView
    decreases n, 0int,
{
    let k = field_index(n.children@, f, 0);
    if 0 <= k < n.children@.len() {
        expr_facts(log, file, n.children@[k], parent, scope, index, ts).0
    } else {
        log
    }
}

/// The statement under field `f` of `n`, if there is one.
pub open spec fn field_stmt(
    log: LogView,
    file: u64,
    n: SyntaxNode,
    f: Seq<char>,
    parent: u64,
    scope: u64,
    index: i64,
    ts: bool,
) -> LogView
    decreases n, 0int,
{
    let k = field_index(n.children@, f, 0);
    if 0 <= k < n.children@.len() {
        stmt_facts(log, file, n.children@[k], parent, scope, index, ts).0
    } else {
        log
    }
}

/// The declaration or expression under field `f` of `n`, if there is one.
pub open spec fn field_expr_or_stmt(
    log: LogView,
    file: u64,
    n: SyntaxNode,
    f: Seq<char>,
    parent: u64,
    scope: u64,
    index: i64,
    ts: bool,
) -> LogView
    decreases n, 0int,
{
    let k = field_index(n.children@, f, 0);
    if 0 <= k < n.children@.len() {
        expr_or_stmt_facts(log, file, n.children@[k], parent, scope, index, ts)
    } else {
        log
    }
}

/// The expression that is the first named child of `n`, at position 0.
pub open spec fn first_named_expr(log: LogView, file: u64, n: SyntaxNode, parent: u64, scope: u64, ts: bool) -> LogView
    decreases n, 0int,
{
    let c = first_named(n.children@, 0);
    if 0 <= c < n.children@.len() {
        expr_facts(log, file, n.children@[c], parent, scope, 0, ts).0
    } else {
        log
    }
}

/// What the parts of the statement `n`, whose id is `s`, emit.
pub open spec fn stmt_body_facts(log: LogView, file: u64, n: SyntaxNode, s: u64, scope: u64, ts: bool) -> LogView
    decreases n, 3int,
{
    let k = n.kind@;
    if k == "expression_statement"@ {
        expr_stmt_from(log, file, n.children@, 0, s, scope, ts)
    } else if k == "if_statement"@ {
        let l1 = field_expr(log, file, n, "condition"@, s, scope, 0, ts);
        let l2 = field_stmt(l1, file, n, "consequence"@, s, scope, 0, ts);
        field_stmt(l2, file, n, "alternative"@, s, scope, 1, ts)
    } else if k == "for_statement"@ {
        let l1 = field_expr_or_stmt(log, file, n, "initializer"@, s, scope, 0, ts);
        let l2 = field_expr(l1, file, n, "condition"@, s, scope, 1, ts);
        let l3 = field_expr(l2, file, n, "increment"@, s, scope, 2, ts);
        field_stmt(l3, file, n, "body"@, s, scope, 3, ts)
    } else if k == "for_in_statement"@ {
        let l1 = field_expr_or_stmt(log, file, n, "left"@, s, scope, 0, ts);
        let l2 = field_expr(l1, file, n, "right"@, s, scope, 1, ts);
        field_stmt(l2, file, n, "body"@, s, scope, 2, ts)
    } else if k == "while_statement"@ {
        let l1 = field_expr(log, file, n, "condition"@, s, scope, 0, ts);
        field_stmt(l1, file, n, "body"@, s, scope, 1, ts)
    } else if k == "do_statement"@ {
        let l1 = field_stmt(log, file, n, "body"@, s, scope, 0, ts);
        field_expr(l1, file, n, "condition"@, s, scope, 1, ts)
    } else if k == "switch_statement"@ {
        let l1 = field_expr(log, file, n, "value"@, s, scope, 0, ts);
        let b = field_index(n.children@, "body"@, 0);
        if 0 <= b < n.children@.len() {
            case_list_facts(l1, file, n.children@[b], s, scope, ts)
        } else {
            l1
        }
    } else if k == "switch_case"@ || k == "switch_default"@ {
        let l1 = if k == "switch_case"@ {
            field_expr(log, file, n, "value"@, s, scope, 0, ts)
        } else {
            log
        };
        case_body_from(l1, file, n.children@, 0, k, field_index(n.children@, "value"@, 0), s, scope, 1, ts)
    } else if k == "return_statement"@ || k == "throw_statement"@ {
        first_named_expr(log, file, n, s, scope, ts)
    } else if k == "try_statement"@ {
        let l1 = field_stmt(log, file, n, "body"@, s, scope, 0, ts);
        let l2 = field_stmt(l1, file, n, "handler"@, s, scope, 1, ts);
        field_stmt(l2, file, n, "finalizer"@, s, scope, 2, ts)
    } else if k == "catch_clause"@ {
        let p = field_index(n.children@, "parameter"@, 0);
        let l1 = if 0 <= p < n.children@.len() {
            variable_facts(log, file, n.children@[p], scope)
        } else {
            log
        };
        field_stmt(l1, file, n, "body"@, s, scope, 0, ts)
    } else if k == "with_statement"@ {
        let l1 = field_expr(log, file, n, "object"@, s, scope, 0, ts);
        field_stmt(l1, file, n, "body"@, s, scope, 1, ts)
    } else if k == "labeled_statement"@ {
        let lb = field_index(n.children@, "label"@, 0);
        let l1 = if 0 <= lb < n.children@.len() {
            label_facts(log, file, n.children@[lb], s)
        } else {
            log
        };
        field_stmt(l1, file, n, "body"@, s, scope, 1, ts)
    } else if k == "variable_declaration"@ || k == "lexical_declaration"@ {
        var_decl_facts(log, file, n, s, scope, ts)
    } else if k == "statement_block"@ {
        let b = log.0;
        let l1 = row(alloc_id(log), "scopes"@, seq![ent(b), num(4)]);
        block_from(l1, file, n.children@, 0, s, b, 0, ts)
    } else if k == "function_declaration"@ || k == "generator_function_declaration"@ {
        function_facts(log, file, n, scope, true, ts)
    } else if k == "class_declaration"@ {
        class_facts(log, file, n, s, scope, true, ts)
    } else if k == "import_statement"@ {
        import_facts(log, file, n, s)
    } else if k == "export_statement"@ {
        export_facts(log, file, n, s, scope, ts)
    } else if ts && k == "interface_declaration"@ {
        named_decl_facts(log, file, n, s, "interfaces"@)
    } else if ts && k == "type_alias_declaration"@ {
        named_decl_facts(log, file, n, s, "type_aliases"@)
    } else if ts && k == "enum_declaration"@ {
        named_decl_facts(log, file, n, s, "enums"@)
    } else {
        log
    }
}

/// The named children other than comments among `cs[i]`, ... of an
/// expression statement `s`, each as an expression at position 0.
pub open spec fn expr_stmt_from(log: LogView, file: u64, cs: Seq<SyntaxNode>, i: int, s: u64, scope: u64, ts: bool) -> LogView
    decreases cs, cs.len() - i,
{
    if 0 <= i < cs.len() {
        let l = if cs[i].named && cs[i].kind@ != "comment"@ {
            expr_facts(log, file, cs[i], s, scope, 0, ts).0
        } else {
            log
        };
        expr_stmt_from(l, file, cs, i + 1, s, scope, ts)
    } else {
        log
    }
}

/// The named children among `cs[i]`, ... of a block, each a statement or a
/// comment; the statements take the positions from `idx` on.
pub open spec fn block_from(
    log: LogView,
    file: u64,
    cs: Seq<SyntaxNode>,
    i: int,
    parent: u64,
    scope: u64,
    idx: i64,
    ts: bool,
) -> LogView
    decreases cs, cs.len() - i,
{
    if 0 <= i < cs.len() {
        if cs[i].named {
            let (l, r) = stmt_or_decl_facts(log, file, cs[i], parent, scope, idx, ts);
            block_from(l, file, cs, i + 1, parent, scope, if r is Some { next_index(idx) } else { idx }, ts)
        } else {
            block_from(log, file, cs, i + 1, parent, scope, idx, ts)
        }
    } else {
        log
    }
}

/// The cases in the body `b` of the switch statement `s`.
pub open spec fn case_list_facts(log: LogView, file: u64, b: SyntaxNode, s: u64, scope: u64, ts: bool) -> LogView
    decreases b, 0int,
{
    case_list_from(log, file, b.children@, 0, s, scope, 0, ts)
}

/// The named children among `cs[i]`, ..., each a statement; the statements
/// take the positions from `idx` on.
pub open spec fn case_list_from(
    log: LogView,
    file: u64,
    cs: Seq<SyntaxNode>,
    i: int,
    s: u64,
    scope: u64,
    idx: i64,
    ts: bool,
) -> LogView
    decreases cs, cs.len() - i,
{
    if 0 <= i < cs.len() {
        if cs[i].named {
            let (l, r) = stmt_facts(log, file, cs[i], s, scope, idx, ts);
            case_list_from(l, file, cs, i + 1, s, scope, if r is Some { next_index(idx) } else { idx }, ts)
        } else {
            case_list_from(log, file, cs, i + 1, s, scope, idx, ts)
        }
    } else {
        log
    }
}

/// The statements of a case of kind `kind` whose value child stands at
/// `vk`: its named children among `cs[i]`, ... other than comments, nested
/// cases of the same kind and the value, from position `idx` on.
pub open spec fn case_body_from(
    log: LogView,
    file: u64,
    cs: Seq<SyntaxNode>,
    i: int,
    kind: Seq<char>,
    vk: int,
    s: u64,
    scope: u64,
    idx: i64,
    ts: bool,
) -> LogView
    decreases cs, cs.len() - i,
{
    if 0 <= i < cs.len() {
        if cs[i].named && cs[i].kind@ != "comment"@ && cs[i].kind@ != kind && i != vk {
            let (l, r) = stmt_facts(log, file, cs[i], s, scope, idx, ts);
            case_body_from(l, file, cs, i + 1, kind, vk, s, scope, if r is Some { next_index(idx) } else { idx }, ts)
        } else {
            case_body_from(log, file, cs, i + 1, kind, vk, s, scope, idx, ts)
        }
    } else {
        log
    }
}

/// The declarators of the declaration `n` of the statement `s`
/// (`declarators_from`).
pub open spec fn var_decl_facts(log: LogView, file: u64, n: SyntaxNode, s: u64, scope: u64, ts: bool) -> LogView
    decreases n, 2int,
{
    declarators_from(log, file, n.children@, 0, s, scope, 0, ts)
}

/// The declarators among `cs[i]`, ..., from position `idx` on.
pub open spec fn declarators_from(
    log: LogView,
    file: u64,
    cs: Seq<SyntaxNode>,
    i: int,
    s: u64,
    scope: u64,
    idx: i64,
    ts: bool,
) -> LogView
    decreases cs, cs.len() - i,
{
    if 0 <= i < cs.len() {
        if cs[i].kind@ == "variable_declarator"@ {
            let l = declarator_facts(log, file, cs[i], s, scope, idx, ts);
            declarators_from(l, file, cs, i + 1, s, scope, next_index(idx), ts)
        } else {
            declarators_from(log, file, cs, i + 1, s, scope, idx, ts)
        }
    } else {
        log
    }
}

/// The declarator `c` at position `idx` of the statement `s`: an
/// expression of kind 64 with its location; an identifier name binds a
/// variable (`binding_facts`), a pattern name is an expression at
/// position 0; in TypeScript its type annotation; its initializer at
/// position 1.
pub open spec fn declarator_facts(log: LogView, file: u64, c: SyntaxNode, s: u64, scope: u64, idx: i64, ts: bool) -> LogView
    decreases c, 1int,
{
    let d = log.0;
    let l1 = alloc_id(log);
    let loc = l1.0;
    let l2 = location_of(l1, file, c);
    let l3 = row(l2, "exprs"@, seq![ent(d), num(64), ent(s), num(idx)]);
    let l4 = row(l3, "hasLocation"@, seq![ent(d), ent(loc)]);
    let nm = field_index(c.children@, "name"@, 0);
    let l5 = if 0 <= nm < c.children@.len() {
        let x = c.children@[nm];
        if x.kind@ == "identifier"@ {
            binding_facts(l4, file, x, d, scope)
        } else if x.kind@ == "array_pattern"@ || x.kind@ == "object_pattern"@ {
            expr_facts(l4, file, x, d, scope, 0, ts).0
        } else {
            l4
        }
    } else {
        l4
    };
    let t = field_index(c.children@, "type"@, 0);
    let l6 = if ts && 0 <= t < c.children@.len() {
        type_annotation_facts(l5, file, c.children@[t], d)
    } else {
        l5
    };
    field_expr(l6, file, c, "value"@, d, scope, 1, ts)
}

/// The expression `n` at position `index` under `parent`: a parenthesized
/// or optional-chain node stands for its first named child; a node of an
/// expression kind (`js_expr_class`) gives its row with its location, its
/// text as literal for a name or a literal, then what its parts emit
/// (`expr_body_facts`), and its id; another node nothing.
pub open spec fn expr_facts(
    log: LogView,
    file: u64,
    n: SyntaxNode,
    parent: u64,
    scope: u64,
    index: i64,
    ts: bool,
) -> (LogView, Option<u64>)
    decreases n, 4int,
{
    match js_expr_class(n) {
        ExprClass::Unwrap => {
            let c = first_named(n.children@, 0);
            if 0 <= c < n.children@.len() {
                expr_facts(log, file, n.children@[c], parent, scope, index, ts)
            } else {
                (log, None)
            }
        },
        ExprClass::Kind(ek) => {
            let e = log.0;
            let l1 = alloc_id(log);
            let loc = l1.0;
            let l2 = location_of(l1, file, n);
            let l3 = row(l2, "exprs"@, seq![ent(e), num(ek), ent(parent), num(index)]);
            let l4 = row(l3, "hasLocation"@, seq![ent(e), ent(loc)]);
            let l5 = if literal_node(n.kind@) {
                row(l4, "literals"@, seq![txt(n.text@), ent(e)])
            } else {
                l4
            };
            (expr_body_facts(l5, file, n, e, scope, ts), Some(e))
        },
        _ => (log, None),
    }
}

/// The argument list `a` of a call or `new` expression `e`, from position
/// 1 on.
pub open spec fn arg_list_facts(log: LogView, file: u64, a: SyntaxNode, e: u64, scope: u64, ts: bool) -> LogView
    decreases a, 0int,
{
    expr_list_from(log, file, a.children@, 0, e, scope, 1, ts)
}

/// The arguments of the call or `new` expression `n`, if it has some.
pub open spec fn args_of(log: LogView, file: u64, n: SyntaxNode, e: u64, scope: u64, ts: bool) -> LogView
    decreases n, 0int,
{
    let a = field_index(n.children@, "arguments"@, 0);
    if 0 <= a < n.children@.len() {
        arg_list_facts(log, file, n.children@[a], e, scope, ts)
    } else {
        log
    }
}

/// The named children among `cs[i]`, ..., each an expression; the
/// expressions take the positions from `idx` on.
pub open spec fn expr_list_from(
    log: LogView,
    file: u64,
    cs: Seq<SyntaxNode>,
    i: int,
    parent: u64,
    scope: u64,
    idx: i64,
    ts: bool,
) -> LogView
    decreases cs, cs.len() - i,
{
    if 0 <= i < cs.len() {
        if cs[i].named {
            let (l, r) = expr_facts(log, file, cs[i], parent, scope, idx, ts);
            expr_list_from(l, file, cs, i + 1, parent, scope, if r is Some { next_index(idx) } else { idx }, ts)
        } else {
            expr_list_from(log, file, cs, i + 1, parent, scope, idx, ts)
        }
    } else {
        log
    }
}

/// What the parts of the expression `n`, whose id is `e`, emit.
pub open spec fn expr_body_facts(log: LogView, file: u64, n: SyntaxNode, e: u64, scope: u64, ts: bool) -> LogView
    decreases n, 3int,
{
    let k = n.kind@;
    if k == "call_expression"@ {
        args_of(field_expr(log, file, n, "function"@, e, scope, 0, ts), file, n, e, scope, ts)
    } else if k == "new_expression"@ {
        args_of(field_expr(log, file, n, "constructor"@, e, scope, 0, ts), file, n, e, scope, ts)
    } else if k == "member_expression"@ {
        field_expr(field_expr(log, file, n, "object"@, e, scope, 0, ts), file, n, "property"@, e, scope, 1, ts)
    } else if k == "subscript_expression"@ {
        field_expr(field_expr(log, file, n, "object"@, e, scope, 0, ts), file, n, "index"@, e, scope, 1, ts)
    } else if k == "assignment_expression"@ || k == "augmented_assignment_expression"@ || k == "binary_expression"@
        || k == "sequence_expression"@ {
        field_expr(field_expr(log, file, n, "left"@, e, scope, 0, ts), file, n, "right"@, e, scope, 1, ts)
    } else if k == "unary_expression"@ || k == "update_expression"@ {
        field_expr(log, file, n, "argument"@, e, scope, 0, ts)
    } else if k == "ternary_expression"@ {
        let l1 = field_expr(log, file, n, "condition"@, e, scope, 0, ts);
        let l2 = field_expr(l1, file, n, "consequence"@, e, scope, 1, ts);
        field_expr(l2, file, n, "alternative"@, e, scope, 2, ts)
    } else if k == "yield_expression"@ || k == "await_expression"@ || k == "spread_element"@ {
        first_named_expr(log, file, n, e, scope, ts)
    } else if k == "tagged_template_expression"@ {
        field_expr(field_expr(log, file, n, "function"@, e, scope, 0, ts), file, n, "arguments"@, e, scope, 1, ts)
    } else if k == "template_string"@ || k == "array"@ || k == "array_pattern"@ {
        expr_list_from(log, file, n.children@, 0, e, scope, 0, ts)
    } else if k == "object"@ || k == "object_pattern"@ {
        object_props_facts(log, file, n, e, scope, ts)
    } else if k == "function"@ || k == "generator_function"@ {
        function_facts(log, file, n, scope, false, ts)
    } else if k == "arrow_function"@ {
        arrow_facts(log, file, n, scope, ts)
    } else if k == "class"@ {
        class_facts(log, file, n, e, scope, false, ts)
    } else {
        log
    }
}

/// The properties of the object or object pattern `n`, whose id is
/// `parent` (`props_from`).
pub open spec fn object_props_facts(log: LogView, file: u64, n: SyntaxNode, parent: u64, scope: u64, ts: bool) -> LogView
    decreases n, 2int,
{
    props_from(log, file, n.children@, 0, parent, scope, 0, ts)
}

/// The properties among `cs[i]`, ..., from position `idx` on: a pair
/// (`pair_facts`), a shorthand property (`shorthand_facts`), a spread
/// element (an expression) and a method (`method_facts`) each take a
/// position; other children emit nothing.
pub open spec fn props_from(
    log: LogView,
    file: u64,
    cs: Seq<SyntaxNode>,
    i: int,
    parent: u64,
    scope: u64,
    idx: i64,
    ts: bool,
) -> LogView
    decreases cs, cs.len() - i,
{
    if 0 <= i < cs.len() {
        let k = cs[i].kind@;
        if k == "pair"@ || k == "pair_pattern"@ {
            props_from(pair_facts(log, file, cs[i], parent, scope, idx, ts), file, cs, i + 1, parent, scope, next_index(idx), ts)
        } else if k == "shorthand_property_identifier"@ || k == "shorthand_property_identifier_pattern"@ {
            props_from(shorthand_facts(log, file, cs[i], parent, idx), file, cs, i + 1, parent, scope, next_index(idx), ts)
        } else if k == "spread_element"@ {
            props_from(expr_facts(log, file, cs[i], parent, scope, idx, ts).0, file, cs, i + 1, parent, scope, next_index(idx), ts)
        } else if k == "method_definition"@ {
            props_from(method_facts(log, file, cs[i], parent, scope, idx, ts), file, cs, i + 1, parent, scope, next_index(idx), ts)
        } else {
            props_from(log, file, cs, i + 1, parent, scope, idx, ts)
        }
    } else {
        log
    }
}

/// The pair `c` at position `idx` of the object `parent`: the property
/// with its location, its key at position 0 and its value at position 1.
pub open spec fn pair_facts(log: LogView, file: u64, c: SyntaxNode, parent: u64, scope: u64, idx: i64, ts: bool) -> LogView
    decreases c, 1int,
{
    let p = log.0;
    let l1 = alloc_id(log);
    let loc = l1.0;
    let l2 = location_of(l1, file, c);
    let l3 = row(l2, "properties"@, seq![ent(p), ent(parent), num(idx), num(0)]);
    let l4 = row(l3, "hasLocation"@, seq![ent(p), ent(loc)]);
    field_expr(field_expr(l4, file, c, "key"@, p, scope, 0, ts), file, c, "value"@, p, scope, 1, ts)
}

/// The function `n` in `scope` (a declaration when `decl`): its row with
/// its name and location, a function scope, for a named declaration a
/// variable of `scope`, its parameters, in TypeScript its return type, and
/// its body at position 0.
pub open spec fn function_facts(log: LogView, file: u64, n: SyntaxNode, scope: u64, decl: bool, ts: bool) -> LogView
    decreases n, 2int,
{
    let name = field_text(n, "name"@);
    let f = log.0;
    let l1 = alloc_id(log);
    let loc = l1.0;
    let l2 = location_of(l1, file, n);
    let l3 = row(l2, "functions"@, seq![ent(f), txt(name), ent(scope)]);
    let l4 = row(l3, "hasLocation"@, seq![ent(f), ent(loc)]);
    let fs = l4.0;
    let l5 = row(alloc_id(l4), "scopes"@, seq![ent(fs), num(1)]);
    let l6 = if decl && name.len() > 0 {
        let v = l5.0;
        row(alloc_id(l5), "variables"@, seq![ent(v), txt(name), ent(scope)])
    } else {
        l5
    };
    let p = field_index(n.children@, "parameters"@, 0);
    let l7 = if 0 <= p < n.children@.len() {
        function_params_facts(l6, file, n.children@[p], f, fs, ts)
    } else {
        l6
    };
    let r = field_index(n.children@, "return_type"@, 0);
    let l8 = if ts && 0 <= r < n.children@.len() {
        type_annotation_facts(l7, file, n.children@[r], f)
    } else {
        l7
    };
    field_stmt(l8, file, n, "body"@, f, fs, 0, ts)
}

/// The arrow function `n` in `scope`: its row with an empty name and its
/// location, a function scope, its parameters (a list, or one identifier
/// under `parameters` or `parameter`), in TypeScript its return type, and
/// its body (a block as a statement, else an expression) at position 0.
pub open spec fn arrow_facts(log: LogView, file: u64, n: SyntaxNode, scope: u64, ts: bool) -> LogView
    decreases n, 2int,
{
    let f = log.0;
    let l1 = alloc_id(log);
    let loc = l1.0;
    let l2 = location_of(l1, file, n);
    let l3 = row(l2, "functions"@, seq![ent(f), txt(Seq::empty()), ent(scope)]);
    let l4 = row(l3, "hasLocation"@, seq![ent(f), ent(loc)]);
    let fs = l4.0;
    let l5 = row(alloc_id(l4), "scopes"@, seq![ent(fs), num(1)]);
    let p = field_index(n.children@, "parameters"@, 0);
    let l6 = if 0 <= p < n.children@.len() {
        let pc = n.children@[p];
        if pc.kind@ == "formal_parameters"@ {
            function_params_facts(l5, file, pc, f, fs, ts)
        } else if pc.kind@ == "identifier"@ {
            variable_facts(l5, file, pc, fs)
        } else {
            l5
        }
    } else {
        l5
    };
    let q = field_index(n.children@, "parameter"@, 0);
    let l7 = if 0 <= q < n.children@.len() && n.children@[q].kind@ == "identifier"@ {
        variable_facts(l6, file, n.children@[q], fs)
    } else {
        l6
    };
    let r = field_index(n.children@, "return_type"@, 0);
    let l8 = if ts && 0 <= r < n.children@.len() {
        type_annotation_facts(l7, file, n.children@[r], f)
    } else {
        l7
    };
    let b = field_index(n.children@, "body"@, 0);
    if 0 <= b < n.children@.len() {
        if n.children@[b].kind@ == "statement_block"@ {
            stmt_facts(l8, file, n.children@[b], f, fs, 0, ts).0
        } else {
            expr_facts(l8, file, n.children@[b], f, fs, 0, ts).0
        }
    } else {
        l8
    }
}

/// The class `n` under `parent` (a declaration when `decl`): its row with
/// its name and location, a class scope, for a named declaration a variable
/// of `scope`, for a TypeScript declaration its decorators, and its body.
pub open spec fn class_facts(log: LogView, file: u64, n: SyntaxNode, parent: u64, scope: u64, decl: bool, ts: bool) -> LogView
    decreases n, 2int,
{
    let name = field_text(n, "name"@);
    let c = log.0;
    let l1 = alloc_id(log);
    let loc = l1.0;
    let l2 = location_of(l1, file, n);
    let l3 = row(l2, "classes"@, seq![ent(c), txt(name), ent(parent)]);
    let l4 = row(l3, "hasLocation"@, seq![ent(c), ent(loc)]);
    let cs = l4.0;
    let l5 = row(alloc_id(l4), "scopes"@, seq![ent(cs), num(8)]);
    let l6 = if decl && name.len() > 0 {
        let v = l5.0;
        row(alloc_id(l5), "variables"@, seq![ent(v), txt(name), ent(scope)])
    } else {
        l5
    };
    let l7 = if decl && ts {
        decorators_from(l6, file, n.children@, 0, c)
    } else {
        l6
    };
    let b = field_index(n.children@, "body"@, 0);
    if 0 <= b < n.children@.len() {
        class_body_facts(l7, file, n.children@[b], c, cs, ts)
    } else {
        l7
    }
}

/// The members of the class body `b` of the class `c`, whose scope is
/// `cs` (`members_from`).
pub open spec fn class_body_facts(log: LogView, file: u64, b: SyntaxNode, c: u64, cs: u64, ts: bool) -> LogView
    decreases b, 2int,
{
    members_from(log, file, b.children@, 0, c, cs, 0, ts)
}

/// The members among `ms[i]`, ..., from position `idx` on: methods
/// (`method_facts`) and fields (`field_def_facts`) take a position,
/// comments are recorded, other children emit nothing.
pub open spec fn members_from(
    log: LogView,
    file: u64,
    ms: Seq<SyntaxNode>,
    i: int,
    c: u64,
    cs: u64,
    idx: i64,
    ts: bool,
) -> LogView
    decreases ms, ms.len() - i,
{
    if 0 <= i < ms.len() {
        let k = ms[i].kind@;
        if k == "method_definition"@ {
            members_from(method_facts(log, file, ms[i], c, cs, idx, ts), file, ms, i + 1, c, cs, next_index(idx), ts)
        } else if k == "field_definition"@ || k == "public_field_definition"@ {
            members_from(field_def_facts(log, file, ms[i], c, cs, idx, ts), file, ms, i + 1, c, cs, next_index(idx), ts)
        } else if k == "comment"@ {
            members_from(comment_facts(log, file, ms[i], c), file, ms, i + 1, c, cs, idx, ts)
        } else {
            members_from(log, file, ms, i + 1, c, cs, idx, ts)
        }
    } else {
        log
    }
}

/// The kind of property a method is by its text: a getter, a setter, or a
/// plain value.
pub open spec fn method_prop_kind(text: Seq<char>) -> i64 {
    if has_prefix(text, "get "@) || has_prefix(text, "static get "@) {
        1
    } else if has_prefix(text, "set "@) || has_prefix(text, "static set "@) {
        2
    } else {
        0
    }
}

/// Getters and setters are told apart by how a method is written: one
/// written `get ...` or `static get ...` is a getter property (kind 1), one
/// written `set ...` or `static set ...` a setter (kind 2), any other a
/// plain value (kind 0).
pub proof fn lemma_method_property_kinds(text: Seq<char>)
    ensures
        has_prefix(text, "get "@) || has_prefix(text, "static get "@) ==> method_prop_kind(text) == 1,
        has_prefix(text, "set "@) || has_prefix(text, "static set "@) ==> method_prop_kind(text) == 2,
        !(has_prefix(text, "get "@) || has_prefix(text, "static get "@) || has_prefix(text, "set "@) || has_prefix(
            text,
            "static set "@,
        )) ==> method_prop_kind(text) == 0,
{
    reveal_strlit("get ");
    reveal_strlit("set ");
    reveal_strlit("static get ");
    reveal_strlit("static set ");
    if has_prefix(text, "set "@) {
        assert(text[0] == text.take(4)[0]);
        assert(text[0] == 's');
        if has_prefix(text, "get "@) {
            assert(text.take(4)[0] == 'g');
        }
        if has_prefix(text, "static get "@) {
            assert(text[1] == text.take(4)[1]);
            assert(text[1] == text.take(11)[1]);
            assert(text.take(11)[1] == 't');
        }
    }
    if has_prefix(text, "static set "@) {
        assert(text[0] == text.take(11)[0]);
        assert(text[7] == text.take(11)[7]);
        if has_prefix(text, "get "@) {
            assert(text[0] == text.take(4)[0]);
        }
        if has_prefix(text, "static get "@) {
            assert(text.take(11)[7] == 'g');
        }
    }
}

/// The method `m` at position `idx` of `parent`, in `scope`: the property
/// with its location, the function with its name and the same location, a
/// function scope, in TypeScript its decorators, its parameters, in
/// TypeScript its return type, and its body at position 0.
pub open spec fn method_facts(log: LogView, file: u64, m: SyntaxNode, parent: u64, scope: u64, idx: i64, ts: bool) -> LogView
    decreases m, 1int,
{
    let name = field_text(m, "name"@);
    let p = log.0;
    let l1 = alloc_id(log);
    let loc = l1.0;
    let l2 = location_of(l1, file, m);
    let l3 = row(l2, "properties"@, seq![ent(p), ent(parent), num(idx), num(method_prop_kind(m.text@))]);
    let l4 = row(l3, "hasLocation"@, seq![ent(p), ent(loc)]);
    let f = l4.0;
    let l5 = alloc_id(l4);
    let floc = l5.0;
    let l6 = location_of(l5, file, m);
    let l7 = row(l6, "functions"@, seq![ent(f), txt(name), ent(scope)]);
    let l8 = row(l7, "hasLocation"@, seq![ent(f), ent(floc)]);
    let fs = l8.0;
    let l9 = row(alloc_id(l8), "scopes"@, seq![ent(fs), num(1)]);
    let l10 = if ts {
        decorators_from(l9, file, m.children@, 0, f)
    } else {
        l9
    };
    let pp = field_index(m.children@, "parameters"@, 0);
    let l11 = if 0 <= pp < m.children@.len() {
        function_params_facts(l10, file, m.children@[pp], f, fs, ts)
    } else {
        l10
    };
    let r = field_index(m.children@, "return_type"@, 0);
    let l12 = if ts && 0 <= r < m.children@.len() {
        type_annotation_facts(l11, file, m.children@[r], f)
    } else {
        l11
    };
    field_stmt(l12, file, m, "body"@, f, fs, 0, ts)
}

/// The field `d` at position `idx` of `parent`: the property with its
/// location, its name at position 0, in TypeScript its type annotation,
/// and its value at position 1.
pub open spec fn field_def_facts(log: LogView, file: u64, d: SyntaxNode, parent: u64, scope: u64, idx: i64, ts: bool) -> LogView
    decreases d, 1int,
{
    let p = log.0;
    let l1 = alloc_id(log);
    let loc = l1.0;
    let l2 = location_of(l1, file, d);
    let l3 = row(l2, "properties"@, seq![ent(p), ent(parent), num(idx), num(0)]);
    let l4 = row(l3, "hasLocation"@, seq![ent(p), ent(loc)]);
    let l5 = field_expr(l4, file, d, "property"@, p, scope, 0, ts);
    let t = field_index(d.children@, "type"@, 0);
    let l6 = if ts && 0 <= t < d.children@.len() {
        type_annotation_facts(l5, file, d.children@[t], p)
    } else {
        l5
    };
    field_expr(l6, file, d, "value"@, p, scope, 1, ts)
}

/// The export statement `n` of the statement `s`: the export with its
/// location, then its named children from position 0 on
/// (`export_from`).
pub open spec fn export_facts(log: LogView, file: u64, n: SyntaxNode, s: u64, scope: u64, ts: bool) -> LogView
    decreases n, 2int,
{
    let x = log.0;
    let l1 = alloc_id(log);
    let loc = l1.0;
    let l2 = location_of(l1, file, n);
    let l3 = row(l2, "exports"@, seq![ent(x), ent(s)]);
    let l4 = row(l3, "hasLocation"@, seq![ent(x), ent(loc)]);
    export_from(l4, file, n.children@, 0, s, scope, 0, ts)
}

/// The named children among `cs[i]`, ..., each taking a position from
/// `idx` on: a declaration (`export_decl`) as a statement, anything else as
/// an expression.
pub open spec fn export_from(
    log: LogView,
    file: u64,
    cs: Seq<SyntaxNode>,
    i: int,
    s: u64,
    scope: u64,
    idx: i64,
    ts: bool,
) -> LogView
    decreases cs, cs.len() - i,
{
    if 0 <= i < cs.len() {
        if cs[i].named {
            let l = if export_decl(cs[i].kind@, ts) {
                stmt_facts(log, file, cs[i], s, scope, idx, ts).0
            } else {
                expr_facts(log, file, cs[i], s, scope, idx, ts).0
            };
            export_from(l, file, cs, i + 1, s, scope, next_index(idx), ts)
        } else {
            export_from(log, file, cs, i + 1, s, scope, idx, ts)
        }
    } else {
        log
    }
}

/// The program `root`: its top level (a module when it holds an import or
/// an export statement, else a script) with its location, the global or
/// module scope, then its named children as statements or comments from
/// position 0 on.
pub open spec fn program_facts(log: LogView, file: u64, root: SyntaxNode, ts: bool) -> LogView {
    let m = module_syntax(root);
    let t = log.0;
    let l1 = row(alloc_id(log), "toplevels"@, seq![ent(t), num(if m { 1 } else { 0 })]);
    let loc = l1.0;
    let l2 = location_of(l1, file, root);
    let l3 = row(l2, "hasLocation"@, seq![ent(t), ent(loc)]);
    let sc = l3.0;
    let l4 = row(alloc_id(l3), "scopes"@, seq![ent(sc), num(if m { 3 } else { 0 })]);
    block_from(l4, file, root.children@, 0, t, sc, 0, ts)
}

fn extract_label(facts: &mut FactLog, file_id: u64, lb: &SyntaxNode, s: u64)
    ensures
        final(facts)@ == label_facts(old(facts)@, file_id, *lb, s),
{
    let id = facts.fresh_id();
    facts.emit("exprs", ent_num_ent_num(id, 0, s, 0));
    let loc = facts.emit_location(file_id, lb);
    facts.emit("hasLocation", entity_pair(id, loc));
    facts.emit("literals", text_ent(lb.text.as_str(), id));
}

fn extract_binding(facts: &mut FactLog, file_id: u64, x: &SyntaxNode, d: u64, scope_id: u64)
    ensures
        final(facts)@ == binding_facts(old(facts)@, file_id, *x, d, scope_id),
{
    let v = facts.fresh_id();
    facts.emit("variables", entity_text_entity(v, x.text.as_str(), scope_id));
    let vloc = facts.emit_location(file_id, x);
    facts.emit("hasLocation", entity_pair(v, vloc));
    let vd = facts.fresh_id();
    facts.emit("exprs", ent_num_ent_num(vd, 78, d, 0));
    facts.emit("hasLocation", entity_pair(vd, vloc));
    facts.emit("literals", text_ent(x.text.as_str(), vd));
}

fn extract_shorthand(facts: &mut FactLog, file_id: u64, c: &SyntaxNode, parent_id: u64, idx: i64)
    ensures
        final(facts)@ == shorthand_facts(old(facts)@, file_id, *c, parent_id, idx),
{
    let p = facts.fresh_id();
    let loc = facts.emit_location(file_id, c);
    facts.emit("properties", ents_nums(p, parent_id, idx, 0));
    facts.emit("hasLocation", entity_pair(p, loc));
    let nm = facts.fresh_id();
    facts.emit("exprs", ent_num_ent_num(nm, 79, p, 0));
    facts.emit("hasLocation", entity_pair(nm, loc));
    facts.emit("literals", text_ent(c.text.as_str(), nm));
}

/// Emits the statement `node` at position `index` under `parent_id`, in
/// `scope_id`, and returns its id (`stmt_facts`).
pub fn extract_stmt(
    facts: &mut FactLog,
    file_id: u64,
    node: &SyntaxNode,
    parent_id: u64,
    scope_id: u64,
    index: i64,
    is_typescript: bool,
) -> (r: Option<u64>)
    ensures
        (final(facts)@, r) == stmt_facts(old(facts)@, file_id, *node, parent_id, scope_id, index, is_typescript),
    decreases node, 4int,
{
    match js_statement_kind(node, is_typescript) {
        Some(k) => {
            let s = facts.fresh_id();
            let loc = facts.emit_location(file_id, node);
            facts.emit("stmts", ent_num_ent_num(s, k, parent_id, index));
            facts.emit("hasLocation", entity_pair(s, loc));
            extract_stmt_body(facts, file_id, node, s, scope_id, is_typescript);
            Some(s)
        },
        None => None,
    }
}

/// Emits a statement or, for a comment, the comment
/// (`stmt_or_decl_facts`).
pub fn extract_stmt_or_decl(
    facts: &mut FactLog,
    file_id: u64,
    node: &SyntaxNode,
    parent_id: u64,
    scope_id: u64,
    index: i64,
    is_typescript: bool,
) -> (r: Option<u64>)
    ensures
        (final(facts)@, r) == stmt_or_decl_facts(old(facts)@, file_id, *node, parent_id, scope_id, index, is_typescript),
    decreases node, 5int,
{
    if str_eq(node.kind.as_str(), "comment") {
        extract_comment(facts, file_id, node, parent_id);
        None
    } else {
        extract_stmt(facts, file_id, node, parent_id, scope_id, index, is_typescript)
    }
}

/// Emits a declaration as a statement, anything else as an expression
/// (`expr_or_stmt_facts`).
pub fn extract_expr_or_stmt(
    facts: &mut FactLog,
    file_id: u64,
    node: &SyntaxNode,
    parent_id: u64,
    scope_id: u64,
    index: i64,
    is_typescript: bool,
)
    ensures
        final(facts)@ == expr_or_stmt_facts(old(facts)@, file_id, *node, parent_id, scope_id, index, is_typescript),
    decreases node, 5int,
{
    if str_eq(node.kind.as_str(), "variable_declaration") || str_eq(node.kind.as_str(), "lexical_declaration") {
        extract_stmt(facts, file_id, node, parent_id, scope_id, index, is_typescript);
    } else {
        extract_expr(facts, file_id, node, parent_id, scope_id, index, is_typescript);
    }
}

fn extract_field_expr(
    facts: &mut FactLog,
    file_id: u64,
    node: &SyntaxNode,
    f: &str,
    parent_id: u64,
    scope_id: u64,
    index: i64,
    ts: bool,
)
    ensures
        final(facts)@ == field_expr(old(facts)@, file_id, *node, f@, parent_id, scope_id, index, ts),
    decreases node, 0int,
{
    let k = field_pos(&node.children, f);
    if k < node.children.len() {
        extract_expr(facts, file_id, &node.children[k], parent_id, scope_id, index, ts);
    }
}

fn extract_field_stmt(
    facts: &mut FactLog,
    file_id: u64,
    node: &SyntaxNode,
    f: &str,
    parent_id: u64,
    scope_id: u64,
    index: i64,
    ts: bool,
)
    ensures
        final(facts)@ == field_stmt(old(facts)@, file_id, *node, f@, parent_id, scope_id, index, ts),
    decreases node, 0int,
{
    let k = field_pos(&node.children, f);
    if k < node.children.len() {
        extract_stmt(facts, file_id, &node.children[k], parent_id, scope_id, index, ts);
    }
}

fn extract_field_expr_or_stmt(
    facts: &mut FactLog,
    file_id: u64,
    node: &SyntaxNode,
    f: &str,
    parent_id: u64,
    scope_id: u64,
    index: i64,
    ts: bool,
)
    ensures
        final(facts)@ == field_expr_or_stmt(old(facts)@, file_id, *node, f@, parent_id, scope_id, index, ts),
    decreases node, 0int,
{
    let k = field_pos(&node.children, f);
    if k < node.children.len() {
        extract_expr_or_stmt(facts, file_id, &node.children[k], parent_id, scope_id, index, ts);
    }
}

fn extract_first_named_expr(facts: &mut FactLog, file_id: u64, node: &SyntaxNode, parent_id: u64, scope_id: u64, ts: bool)
    ensures
        final(facts)@ == first_named_expr(old(facts)@, file_id, *node, parent_id, scope_id, ts),
    decreases node, 0int,
{
    let c = first_named_pos(&node.children);
    if c < node.children.len() {
        extract_expr(facts, file_id, &node.children[c], parent_id, scope_id, 0, ts);
    }
}

fn extract_case_list(facts: &mut FactLog, file_id: u64, b: &SyntaxNode, s: u64, scope_id: u64, ts: bool)
    ensures
        final(facts)@ == case_list_facts(old(facts)@, file_id, *b, s, scope_id, ts),
    decreases b, 0int,
{
    let cs = &b.children;
    let ghost start = facts@;
    let mut i: usize = 0;
    let mut idx: i64 = 0;
    while i < cs.len()
        invariant
            cs@ == b.children@,
            i <= cs@.len(),
            case_list_from(facts@, file_id, cs@, i as int, s, scope_id, idx, ts) == case_list_from(start, file_id, cs@, 0, s, scope_id, 0, ts),
        decreases cs@.len() - i,
    {
        if cs[i].named {
            let r = extract_stmt(facts, file_id, &cs[i], s, scope_id, idx, ts);
            if r.is_some() {
                idx = next_pos(idx);
            }
        }
        i = i + 1;
    }
}

fn extract_case_body(facts: &mut FactLog, file_id: u64, node: &SyntaxNode, s: u64, scope_id: u64, ts: bool)
    ensures
        final(facts)@ == case_body_from(old(facts)@, file_id, node.children@, 0, node.kind@, field_index(node.children@, "value"@, 0), s, scope_id, 1, ts),
    decreases node, 0int,
{
    let cs = &node.children;
    let vk = field_pos(cs, "value");
    let ghost start = facts@;
    let mut i: usize = 0;
    let mut idx: i64 = 1;
    while i < cs.len()
        invariant
            cs@ == node.children@,
            i <= cs@.len(),
            vk == field_index(cs@, "value"@, 0),
            case_body_from(facts@, file_id, cs@, i as int, node.kind@, vk as int, s, scope_id, idx, ts)
                == case_body_from(start, file_id, cs@, 0, node.kind@, vk as int, s, scope_id, 1, ts),
        decreases cs@.len() - i,
    {
        let c = &cs[i];
        if c.named && !str_eq(c.kind.as_str(), "comment") && !str_eq(c.kind.as_str(), node.kind.as_str()) && i != vk {
            let r = extract_stmt(facts, file_id, c, s, scope_id, idx, ts);
            if r.is_some() {
                idx = next_pos(idx);
            }
        }
        i = i + 1;
    }
}

fn extract_block(facts: &mut FactLog, file_id: u64, node: &SyntaxNode, parent_id: u64, scope_id: u64, ts: bool)
    ensures
        final(facts)@ == block_from(old(facts)@, file_id, node.children@, 0, parent_id, scope_id, 0, ts),
    decreases node, 0int,
{
    let cs = &node.children;
    let ghost start = facts@;
    let mut i: usize = 0;
    let mut idx: i64 = 0;
    while i < cs.len()
        invariant
            cs@ == node.children@,
            i <= cs@.len(),
            block_from(facts@, file_id, cs@, i as int, parent_id, scope_id, idx, ts) == block_from(start, file_id, cs@, 0, parent_id, scope_id, 0, ts),
        decreases cs@.len() - i,
    {
        if cs[i].named {
            let r = extract_stmt_or_decl(facts, file_id, &cs[i], parent_id, scope_id, idx, ts);
            if r.is_some() {
                idx = next_pos(idx);
            }
        }
        i = i + 1;
    }
}

fn extract_expr_stmt_children(facts: &mut FactLog, file_id: u64, node: &SyntaxNode, s: u64, scope_id: u64, ts: bool)
    ensures
        final(facts)@ == expr_stmt_from(old(facts)@, file_id, node.children@, 0, s, scope_id, ts),
    decreases node, 0int,
{
    let cs = &node.children;
    let ghost start = facts@;
    let mut i: usize = 0;
    while i < cs.len()
        invariant
            cs@ == node.children@,
            i <= cs@.len(),
            expr_stmt_from(facts@, file_id, cs@, i as int, s, scope_id, ts) == expr_stmt_from(start, file_id, cs@, 0, s, scope_id, ts),
        decreases cs@.len() - i,
    {
        if cs[i].named && !str_eq(cs[i].kind.as_str(), "comment") {
            extract_expr(facts, file_id, &cs[i], s, scope_id, 0, ts);
        }
        i = i + 1;
    }
}

fn extract_stmt_body(facts: &mut FactLog, file_id: u64, node: &SyntaxNode, s: u64, scope_id: u64, ts: bool)
    ensures
        final(facts)@ == stmt_body_facts(old(facts)@, file_id, *node, s, scope_id, ts),
    decreases node, 3int,
{
    let k = node.kind.as_str();
    if str_eq(k, "expression_statement") {
        extract_expr_stmt_children(facts, file_id, node, s, scope_id, ts);
    } else if str_eq(k, "if_statement") {
        extract_field_expr(facts, file_id, node, "condition", s, scope_id, 0, ts);
        extract_field_stmt(facts, file_id, node, "consequence", s, scope_id, 0, ts);
        extract_field_stmt(facts, file_id, node, "alternative", s, scope_id, 1, ts);
    } else if str_eq(k, "for_statement") {
        extract_field_expr_or_stmt(facts, file_id, node, "initializer", s, scope_id, 0, ts);
        extract_field_expr(facts, file_id, node, "condition", s, scope_id, 1, ts);
        extract_field_expr(facts, file_id, node, "increment", s, scope_id, 2, ts);
        extract_field_stmt(facts, file_id, node, "body", s, scope_id, 3, ts);
    } else if str_eq(k, "for_in_statement") {
        extract_field_expr_or_stmt(facts, file_id, node, "left", s, scope_id, 0, ts);
        extract_field_expr(facts, file_id, node, "right", s, scope_id, 1, ts);
        extract_field_stmt(facts, file_id, node, "body", s, scope_id, 2, ts);
    } else if str_eq(k, "while_statement") {
        extract_field_expr(facts, file_id, node, "condition", s, scope_id, 0, ts);
        extract_field_stmt(facts, file_id, node, "body", s, scope_id, 1, ts);
    } else if str_eq(k, "do_statement") {
        extract_field_stmt(facts, file_id, node, "body", s, scope_id, 0, ts);
        extract_field_expr(facts, file_id, node, "condition", s, scope_id, 1, ts);
    } else if str_eq(k, "switch_statement") {
        extract_field_expr(facts, file_id, node, "value", s, scope_id, 0, ts);
        let b = field_pos(&node.children, "body");
        if b < node.children.len() {
            extract_case_list(facts, file_id, &node.children[b], s, scope_id, ts);
        }
    } else if str_eq(k, "switch_case") || str_eq(k, "switch_default") {
        if str_eq(k, "switch_case") {
            extract_field_expr(facts, file_id, node, "value", s, scope_id, 0, ts);
        }
        extract_case_body(facts, file_id, node, s, scope_id, ts);
    } else if str_eq(k, "return_statement") || str_eq(k, "throw_statement") {
        extract_first_named_expr(facts, file_id, node, s, scope_id, ts);
    } else if str_eq(k, "try_statement") {
        extract_field_stmt(facts, file_id, node, "body", s, scope_id, 0, ts);
        extract_field_stmt(facts, file_id, node, "handler", s, scope_id, 1, ts);
        extract_field_stmt(facts, file_id, node, "finalizer", s, scope_id, 2, ts);
    } else if str_eq(k, "catch_clause") {
        let p = field_pos(&node.children, "parameter");
        if p < node.children.len() {
            extract_variable(facts, file_id, &node.children[p], scope_id);
        }
        extract_field_stmt(facts, file_id, node, "body", s, scope_id, 0, ts);
    } else if str_eq(k, "with_statement") {
        extract_field_expr(facts, file_id, node, "object", s, scope_id, 0, ts);
        extract_field_stmt(facts, file_id, node, "body", s, scope_id, 1, ts);
    } else if str_eq(k, "labeled_statement") {
        let lb = field_pos(&node.children, "label");
        if lb < node.children.len() {
            extract_label(facts, file_id, &node.children[lb], s);
        }
        extract_field_stmt(facts, file_id, node, "body", s, scope_id, 1, ts);
    } else if str_eq(k, "variable_declaration") || str_eq(k, "lexical_declaration") {
        extract_var_declaration(facts, file_id, node, s, scope_id, ts);
    } else if str_eq(k, "statement_block") {
        let b = facts.fresh_id();
        facts.emit("scopes", ent_num(b, 4));
        extract_block(facts, file_id, node, s, b, ts);
    } else if str_eq(k, "function_declaration") || str_eq(k, "generator_function_declaration") {
        extract_function(facts, file_id, node, scope_id, true, ts);
    } else if str_eq(k, "class_declaration") {
        extract_class(facts, file_id, node, s, scope_id, true, ts);
    } else if str_eq(k, "import_statement") {
        extract_import(facts, file_id, node, s);
    } else if str_eq(k, "export_statement") {
        extract_export(facts, file_id, node, s, scope_id, ts);
    } else if ts && str_eq(k, "interface_declaration") {
        extract_named_decl(facts, file_id, node, s, "interfaces");
    } else if ts && str_eq(k, "type_alias_declaration") {
        extract_named_decl(facts, file_id, node, s, "type_aliases");
    } else if ts && str_eq(k, "enum_declaration") {
        extract_named_decl(facts, file_id, node, s, "enums");
    }
}

/// Emits the declarators of the declaration `node` of the statement
/// `stmt_id` (`var_decl_facts`).
pub fn extract_var_declaration(
    facts: &mut FactLog,
    file_id: u64,
    node: &SyntaxNode,
    stmt_id: u64,
    scope_id: u64,
    is_typescript: bool,
)
    ensures
        final(facts)@ == var_decl_facts(old(facts)@, file_id, *node, stmt_id, scope_id, is_typescript),
    decreases node, 2int,
{
    let cs = &node.children;
    let ghost start = facts@;
    let mut i: usize = 0;
    let mut idx: i64 = 0;
    while i < cs.len()
        invariant
            cs@ == node.children@,
            i <= cs@.len(),
            declarators_from(facts@, file_id, cs@, i as int, stmt_id, scope_id, idx, is_typescript)
                == declarators_from(start, file_id, cs@, 0, stmt_id, scope_id, 0, is_typescript),
        decreases cs@.len() - i,
    {
        if str_eq(cs[i].kind.as_str(), "variable_declarator") {
            extract_declarator(facts, file_id, &cs[i], stmt_id, scope_id, idx, is_typescript);
            idx = next_pos(idx);
        }
        i = i + 1;
    }
}

fn extract_declarator(facts: &mut FactLog, file_id: u64, c: &SyntaxNode, s: u64, scope_id: u64, idx: i64, ts: bool)
    ensures
        final(facts)@ == declarator_facts(old(facts)@, file_id, *c, s, scope_id, idx, ts),
    decreases c, 1int,
{
    let d = facts.fresh_id();
    let loc = facts.emit_location(file_id, c);
    facts.emit("exprs", ent_num_ent_num(d, 64, s, idx));
    facts.emit("hasLocation", entity_pair(d, loc));
    let nm = field_pos(&c.children, "name");
    if nm < c.children.len() {
        let x = &c.children[nm];
        if str_eq(x.kind.as_str(), "identifier") {
            extract_binding(facts, file_id, x, d, scope_id);
        } else if str_eq(x.kind.as_str(), "array_pattern") || str_eq(x.kind.as_str(), "object_pattern") {
            extract_expr(facts, file_id, x, d, scope_id, 0, ts);
        }
    }
    let t = field_pos(&c.children, "type");
    if ts && t < c.children.len() {
        extract_type_annotation(facts, file_id, &c.children[t], d);
    }
    extract_field_expr(facts, file_id, c, "value", d, scope_id, 1, ts);
}

/// Emits the expression `node` at position `index` under `parent_id`, in
/// `scope_id`, and returns its id (`expr_facts`).
pub fn extract_expr(
    facts: &mut FactLog,
    file_id: u64,
    node: &SyntaxNode,
    parent_id: u64,
    scope_id: u64,
    index: i64,
    is_typescript: bool,
) -> (r: Option<u64>)
    ensures
        (final(facts)@, r) == expr_facts(old(facts)@, file_id, *node, parent_id, scope_id, index, is_typescript),
    decreases node, 4int,
{
    match classify_js_expression(node) {
        ExprClass::Unwrap => {
            let c = first_named_pos(&node.children);
            if c < node.children.len() {
                extract_expr(facts, file_id, &node.children[c], parent_id, scope_id, index, is_typescript)
            } else {
                None
            }
        },
        ExprClass::Kind(ek) => {
            let e = facts.fresh_id();
            let loc = facts.emit_location(file_id, node);
            facts.emit("exprs", ent_num_ent_num(e, ek, parent_id, index));
            facts.emit("hasLocation", entity_pair(e, loc));
            if is_literal_node(node.kind.as_str()) {
                facts.emit("literals", text_ent(node.text.as_str(), e));
            }
            extract_expr_body(facts, file_id, node, e, scope_id, is_typescript);
            Some(e)
        },
        _ => None,
    }
}

fn extract_arg_list(facts: &mut FactLog, file_id: u64, a: &SyntaxNode, e: u64, scope_id: u64, ts: bool)
    ensures
        final(facts)@ == arg_list_facts(old(facts)@, file_id, *a, e, scope_id, ts),
    decreases a, 1int,
{
    extract_expr_list(facts, file_id, a, e, scope_id, 1, ts);
}

fn extract_args(facts: &mut FactLog, file_id: u64, node: &SyntaxNode, e: u64, scope_id: u64, ts: bool)
    ensures
        final(facts)@ == args_of(old(facts)@, file_id, *node, e, scope_id, ts),
    decreases node, 0int,
{
    let a = field_pos(&node.children, "arguments");
    if a < node.children.len() {
        extract_arg_list(facts, file_id, &node.children[a], e, scope_id, ts);
    }
}

fn extract_expr_list(facts: &mut FactLog, file_id: u64, node: &SyntaxNode, parent_id: u64, scope_id: u64, first: i64, ts: bool)
    ensures
        final(facts)@ == expr_list_from(old(facts)@, file_id, node.children@, 0, parent_id, scope_id, first, ts),
    decreases node, 0int,
{
    let cs = &node.children;
    let ghost start = facts@;
    let mut i: usize = 0;
    let mut idx: i64 = first;
    while i < cs.len()
        invariant
            cs@ == node.children@,
            i <= cs@.len(),
            expr_list_from(facts@, file_id, cs@, i as int, parent_id, scope_id, idx, ts) == expr_list_from(start, file_id, cs@, 0, parent_id, scope_id, first, ts),
        decreases cs@.len() - i,
    {
        if cs[i].named {
            let r = extract_expr(facts, file_id, &cs[i], parent_id, scope_id, idx, ts);
            if r.is_some() {
                idx = next_pos(idx);
            }
        }
        i = i + 1;
    }
}

fn extract_expr_body(facts: &mut FactLog, file_id: u64, node: &SyntaxNode, e: u64, scope_id: u64, ts: bool)
    ensures
        final(facts)@ == expr_body_facts(old(facts)@, file_id, *node, e, scope_id, ts),
    decreases node, 3int,
{
    let k = node.kind.as_str();
    if str_eq(k, "call_expression") {
        extract_field_expr(facts, file_id, node, "function", e, scope_id, 0, ts);
        extract_args(facts, file_id, node, e, scope_id, ts);
    } else if str_eq(k, "new_expression") {
        extract_field_expr(facts, file_id, node, "constructor", e, scope_id, 0, ts);
        extract_args(facts, file_id, node, e, scope_id, ts);
    } else if str_eq(k, "member_expression") {
        extract_field_expr(facts, file_id, node, "object", e, scope_id, 0, ts);
        extract_field_expr(facts, file_id, node, "property", e, scope_id, 1, ts);
    } else if str_eq(k, "subscript_expression") {
        extract_field_expr(facts, file_id, node, "object", e, scope_id, 0, ts);
        extract_field_expr(facts, file_id, node, "index", e, scope_id, 1, ts);
    } else if str_eq(k, "assignment_expression") || str_eq(k, "augmented_assignment_expression") || str_eq(
        k,
        "binary_expression",
    ) || str_eq(k, "sequence_expression") {
        extract_field_expr(facts, file_id, node, "left", e, scope_id, 0, ts);
        extract_field_expr(facts, file_id, node, "right", e, scope_id, 1, ts);
    } else if str_eq(k, "unary_expression") || str_eq(k, "update_expression") {
        extract_field_expr(facts, file_id, node, "argument", e, scope_id, 0, ts);
    } else if str_eq(k, "ternary_expression") {
        extract_field_expr(facts, file_id, node, "condition", e, scope_id, 0, ts);
        extract_field_expr(facts, file_id, node, "consequence", e, scope_id, 1, ts);
        extract_field_expr(facts, file_id, node, "alternative", e, scope_id, 2, ts);
    } else if str_eq(k, "yield_expression") || str_eq(k, "await_expression") || str_eq(k, "spread_element") {
        extract_first_named_expr(facts, file_id, node, e, scope_id, ts);
    } else if str_eq(k, "tagged_template_expression") {
        extract_field_expr(facts, file_id, node, "function", e, scope_id, 0, ts);
        extract_field_expr(facts, file_id, node, "arguments", e, scope_id, 1, ts);
    } else if str_eq(k, "template_string") || str_eq(k, "array") || str_eq(k, "array_pattern") {
        extract_expr_list(facts, file_id, node, e, scope_id, 0, ts);
    } else if str_eq(k, "object") || str_eq(k, "object_pattern") {
        extract_object_properties(facts, file_id, node, e, scope_id, ts);
    } else if str_eq(k, "function") || str_eq(k, "generator_function") {
        extract_function(facts, file_id, node, scope_id, false, ts);
    } else if str_eq(k, "arrow_function") {
        extract_arrow_function(facts, file_id, node, scope_id, ts);
    } else if str_eq(k, "class") {
        extract_class(facts, file_id, node, e, scope_id, false, ts);
    }
}

/// Emits the properties of the object or object pattern `node`, whose id
/// is `parent_id` (`object_props_facts`).
pub fn extract_object_properties(
    facts: &mut FactLog,
    file_id: u64,
    node: &SyntaxNode,
    parent_id: u64,
    scope_id: u64,
    is_typescript: bool,
)
    ensures
        final(facts)@ == object_props_facts(old(facts)@, file_id, *node, parent_id, scope_id, is_typescript),
    decreases node, 2int,
{
    let cs = &node.children;
    let ghost start = facts@;
    let mut i: usize = 0;
    let mut idx: i64 = 0;
    while i < cs.len()
        invariant
            cs@ == node.children@,
            i <= cs@.len(),
            props_from(facts@, file_id, cs@, i as int, parent_id, scope_id, idx, is_typescript)
                == props_from(start, file_id, cs@, 0, parent_id, scope_id, 0, is_typescript),
        decreases cs@.len() - i,
    {
        let c = &cs[i];
        let k = c.kind.as_str();
        if str_eq(k, "pair") || str_eq(k, "pair_pattern") {
            extract_pair(facts, file_id, c, parent_id, scope_id, idx, is_typescript);
            idx = next_pos(idx);
        } else if str_eq(k, "shorthand_property_identifier") || str_eq(k, "shorthand_property_identifier_pattern") {
            extract_shorthand(facts, file_id, c, parent_id, idx);
            idx = next_pos(idx);
        } else if str_eq(k, "spread_element") {
            extract_expr(facts, file_id, c, parent_id, scope_id, idx, is_typescript);
            idx = next_pos(idx);
        } else if str_eq(k, "method_definition") {
            extract_method_definition(facts, file_id, c, parent_id, scope_id, idx, is_typescript);
            idx = next_pos(idx);
        }
        i = i + 1;
    }
}

fn extract_pair(facts: &mut FactLog, file_id: u64, c: &SyntaxNode, parent_id: u64, scope_id: u64, idx: i64, ts: bool)
    ensures
        final(facts)@ == pair_facts(old(facts)@, file_id, *c, parent_id, scope_id, idx, ts),
    decreases c, 1int,
{
    let p = facts.fresh_id();
    let loc = facts.emit_location(file_id, c);
    facts.emit("properties", ents_nums(p, parent_id, idx, 0));
    facts.emit("hasLocation", entity_pair(p, loc));
    extract_field_expr(facts, file_id, c, "key", p, scope_id, 0, ts);
    extract_field_expr(facts, file_id, c, "value", p, scope_id, 1, ts);
}

/// Emits the function `node` in `scope_id`, a declaration when `decl`
/// (`function_facts`).
pub fn extract_function(facts: &mut FactLog, file_id: u64, node: &SyntaxNode, scope_id: u64, decl: bool, is_typescript: bool)
    ensures
        final(facts)@ == function_facts(old(facts)@, file_id, *node, scope_id, decl, is_typescript),
    decreases node, 2int,
{
    let name = field_text_of(node, "name");
    let f = facts.fresh_id();
    let loc = facts.emit_location(file_id, node);
    facts.emit("functions", entity_text_entity(f, name.as_str(), scope_id));
    facts.emit("hasLocation", entity_pair(f, loc));
    let fs = facts.fresh_id();
    facts.emit("scopes", ent_num(fs, 1));
    if decl && chars_of(name.as_str()).len() > 0 {
        let v = facts.fresh_id();
        facts.emit("variables", entity_text_entity(v, name.as_str(), scope_id));
    }
    let p = field_pos(&node.children, "parameters");
    if p < node.children.len() {
        extract_function_params(facts, file_id, &node.children[p], f, fs, is_typescript);
    }
    let r = field_pos(&node.children, "return_type");
    if is_typescript && r < node.children.len() {
        extract_type_annotation(facts, file_id, &node.children[r], f);
    }
    extract_field_stmt(facts, file_id, node, "body", f, fs, 0, is_typescript);
}

/// Emits the arrow function `node` in `scope_id` (`arrow_facts`).
pub fn extract_arrow_function(facts: &mut FactLog, file_id: u64, node: &SyntaxNode, scope_id: u64, is_typescript: bool)
    ensures
        final(facts)@ == arrow_facts(old(facts)@, file_id, *node, scope_id, is_typescript),
    decreases node, 2int,
{
    let f = facts.fresh_id();
    let loc = facts.emit_location(file_id, node);
    proof {
        reveal_strlit("");
        assert(""@ =~= Seq::<char>::empty());
    }
    facts.emit("functions", entity_text_entity(f, "", scope_id));
    facts.emit("hasLocation", entity_pair(f, loc));
    let fs = facts.fresh_id();
    facts.emit("scopes", ent_num(fs, 1));
    let p = field_pos(&node.children, "parameters");
    if p < node.children.len() {
        let pc = &node.children[p];
        if str_eq(pc.kind.as_str(), "formal_parameters") {
            extract_function_params(facts, file_id, pc, f, fs, is_typescript);
        } else if str_eq(pc.kind.as_str(), "identifier") {
            extract_variable(facts, file_id, pc, fs);
        }
    }
    let q = field_pos(&node.children, "parameter");
    if q < node.children.len() && str_eq(node.children[q].kind.as_str(), "identifier") {
        extract_variable(facts, file_id, &node.children[q], fs);
    }
    let r = field_pos(&node.children, "return_type");
    if is_typescript && r < node.children.len() {
        extract_type_annotation(facts, file_id, &node.children[r], f);
    }
    let b = field_pos(&node.children, "body");
    if b < node.children.len() {
        if str_eq(node.children[b].kind.as_str(), "statement_block") {
            extract_stmt(facts, file_id, &node.children[b], f, fs, 0, is_typescript);
        } else {
            extract_expr(facts, file_id, &node.children[b], f, fs, 0, is_typescript);
        }
    }
}

/// Emits the class `node` under `parent_id`, a declaration when `decl`
/// (`class_facts`).
pub fn extract_class(
    facts: &mut FactLog,
    file_id: u64,
    node: &SyntaxNode,
    parent_id: u64,
    scope_id: u64,
    decl: bool,
    is_typescript: bool,
)
    ensures
        final(facts)@ == class_facts(old(facts)@, file_id, *node, parent_id, scope_id, decl, is_typescript),
    decreases node, 2int,
{
    let name = field_text_of(node, "name");
    let c = facts.fresh_id();
    let loc = facts.emit_location(file_id, node);
    facts.emit("classes", entity_text_entity(c, name.as_str(), parent_id));
    facts.emit("hasLocation", entity_pair(c, loc));
    let cs = facts.fresh_id();
    facts.emit("scopes", ent_num(cs, 8));
    if decl && chars_of(name.as_str()).len() > 0 {
        let v = facts.fresh_id();
        facts.emit("variables", entity_text_entity(v, name.as_str(), scope_id));
    }
    if decl && is_typescript {
        extract_decorators(facts, file_id, node, c);
    }
    let b = field_pos(&node.children, "body");
    if b < node.children.len() {
        extract_class_body(facts, file_id, &node.children[b], c, cs, is_typescript);
    }
}

/// Emits the members of the class body `body` of the class `class_id`
/// (`class_body_facts`).
pub fn extract_class_body(
    facts: &mut FactLog,
    file_id: u64,
    body: &SyntaxNode,
    class_id: u64,
    class_scope_id: u64,
    is_typescript: bool,
)
    ensures
        final(facts)@ == class_body_facts(old(facts)@, file_id, *body, class_id, class_scope_id, is_typescript),
    decreases body, 2int,
{
    let ms = &body.children;
    let ghost start = facts@;
    let mut i: usize = 0;
    let mut idx: i64 = 0;
    while i < ms.len()
        invariant
            ms@ == body.children@,
            i <= ms@.len(),
            members_from(facts@, file_id, ms@, i as int, class_id, class_scope_id, idx, is_typescript)
                == members_from(start, file_id, ms@, 0, class_id, class_scope_id, 0, is_typescript),
        decreases ms@.len() - i,
    {
        let m = &ms[i];
        let k = m.kind.as_str();
        if str_eq(k, "method_definition") {
            extract_method_definition(facts, file_id, m, class_id, class_scope_id, idx, is_typescript);
            idx = next_pos(idx);
        } else if str_eq(k, "field_definition") || str_eq(k, "public_field_definition") {
            extract_field_definition(facts, file_id, m, class_id, class_scope_id, idx, is_typescript);
            idx = next_pos(idx);
        } else if str_eq(k, "comment") {
            extract_comment(facts, file_id, m, class_id);
        }
        i = i + 1;
    }
}

fn method_kind_of(text: &str) -> (r: i64)
    ensures
        r == method_prop_kind(text@),
{
    if str_starts_with(text, "get ") || str_starts_with(text, "static get ") {
        1
    } else if str_starts_with(text, "set ") || str_starts_with(text, "static set ") {
        2
    } else {
        0
    }
}

/// Emits the method `node` at position `index` of `parent_id`
/// (`method_facts`).
pub fn extract_method_definition(
    facts: &mut FactLog,
    file_id: u64,
    node: &SyntaxNode,
    parent_id: u64,
    scope_id: u64,
    index: i64,
    is_typescript: bool,
)
    ensures
        final(facts)@ == method_facts(old(facts)@, file_id, *node, parent_id, scope_id, index, is_typescript),
    decreases node, 1int,
{
    let name = field_text_of(node, "name");
    let pk = method_kind_of(node.text.as_str());
    let p = facts.fresh_id();
    let loc = facts.emit_location(file_id, node);
    facts.emit("properties", ents_nums(p, parent_id, index, pk));
    facts.emit("hasLocation", entity_pair(p, loc));
    let f = facts.fresh_id();
    let floc = facts.emit_location(file_id, node);
    facts.emit("functions", entity_text_entity(f, name.as_str(), scope_id));
    facts.emit("hasLocation", entity_pair(f, floc));
    let fs = facts.fresh_id();
    facts.emit("scopes", ent_num(fs, 1));
    if is_typescript {
        extract_decorators(facts, file_id, node, f);
    }
    let pp = field_pos(&node.children, "parameters");
    if pp < node.children.len() {
        extract_function_params(facts, file_id, &node.children[pp], f, fs, is_typescript);
    }
    let r = field_pos(&node.children, "return_type");
    if is_typescript && r < node.children.len() {
        extract_type_annotation(facts, file_id, &node.children[r], f);
    }
    extract_field_stmt(facts, file_id, node, "body", f, fs, 0, is_typescript);
}

/// Emits the field `node` at position `index` of `parent_id`
/// (`field_def_facts`).
pub fn extract_field_definition(
    facts: &mut FactLog,
    file_id: u64,
    node: &SyntaxNode,
    parent_id: u64,
    scope_id: u64,
    index: i64,
    is_typescript: bool,
)
    ensures
        final(facts)@ == field_def_facts(old(facts)@, file_id, *node, parent_id, scope_id, index, is_typescript),
    decreases node, 1int,
{
    let p = facts.fresh_id();
    let loc = facts.emit_location(file_id, node);
    facts.emit("properties", ents_nums(p, parent_id, index, 0));
    facts.emit("hasLocation", entity_pair(p, loc));
    extract_field_expr(facts, file_id, node, "property", p, scope_id, 0, is_typescript);
    let t = field_pos(&node.children, "type");
    if is_typescript && t < node.children.len() {
        extract_type_annotation(facts, file_id, &node.children[t], p);
    }
    extract_field_expr(facts, file_id, node, "value", p, scope_id, 1, is_typescript);
}

/// Emits the export statement `node` of the statement `stmt_id`
/// (`export_facts`).
pub fn extract_export(facts: &mut FactLog, file_id: u64, node: &SyntaxNode, stmt_id: u64, scope_id: u64, is_typescript: bool)
    ensures
        final(facts)@ == export_facts(old(facts)@, file_id, *node, stmt_id, scope_id, is_typescript),
    decreases node, 2int,
{
    let x = facts.fresh_id();
    let loc = facts.emit_location(file_id, node);
    facts.emit("exports", entity_pair(x, stmt_id));
    facts.emit("hasLocation", entity_pair(x, loc));
    let cs = &node.children;
    let ghost start = facts@;
    let mut i: usize = 0;
    let mut idx: i64 = 0;
    while i < cs.len()
        invariant
            cs@ == node.children@,
            i <= cs@.len(),
            export_from(facts@, file_id, cs@, i as int, stmt_id, scope_id, idx, is_typescript)
                == export_from(start, file_id, cs@, 0, stmt_id, scope_id, 0, is_typescript),
        decreases cs@.len() - i,
    {
        let c = &cs[i];
        if c.named {
            if is_export_decl(c.kind.as_str(), is_typescript) {
                extract_stmt(facts, file_id, c, stmt_id, scope_id, idx, is_typescript);
            } else {
                extract_expr(facts, file_id, c, stmt_id, scope_id, idx, is_typescript);
            }
            idx = next_pos(idx);
        }
        i = i + 1;
    }
}

/// Emits the program `root` of the file `file_id` (`program_facts`).
pub fn extract_program(facts: &mut FactLog, file_id: u64, root: &SyntaxNode, is_typescript: bool)
    ensures
        final(facts)@ == program_facts(old(facts)@, file_id, *root, is_typescript),
{
    let m = has_module_syntax(root);
    let t = facts.fresh_id();
    facts.emit("toplevels", ent_num(t, if m { 1 } else { 0 }));
    let loc = facts.emit_location(file_id, root);
    facts.emit("hasLocation", entity_pair(t, loc));
    let sc = facts.fresh_id();
    facts.emit("scopes", ent_num(sc, if m { 3 } else { 0 }));
    extract_block(facts, file_id, root, t, sc, is_typescript);
}

} // verus!
