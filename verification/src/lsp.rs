//! Editor diagnostics: positions in a document and the rendering of parse
//! failures as a range and a message.

use vstd::prelude::*;
use vstd::string::StringSliceAdditionalSpecFns;
use vstd::utf8::is_char_boundary;
use crate::text::{chars_of, string_of, str_eq, copy_str, views, join, trim_char, trim_char_chars,
    push_joined};

verus! {

/// A zero-based line and byte column in a document.
#[derive(Clone, Copy, Debug, PartialEq, Eq, Structural)]
pub struct Position {
    pub line: u32,
    pub character: u32,
}

/// A range between two positions.
#[derive(Clone, Copy, Debug, PartialEq, Eq, Structural)]
pub struct Range {
    pub start: Position,
    pub end: Position,
}

/// Why a document failed to parse, with byte offsets into it.
#[derive(Debug)]
pub enum ParseFailure {
    /// A token that fits no rule, and the tokens that would have.
    UnrecognizedToken { start: usize, end: usize, expected: Vec<String> },
    /// The end of the document where more was needed.
    UnrecognizedEof { location: usize, expected: Vec<String> },
    /// Text that is no token.
    InvalidToken { location: usize },
    /// A token after a complete document.
    ExtraToken { start: usize, end: usize },
    /// A lexical error, by its message.
    User { error: String },
}

/// Number of newline bytes in `b`.
pub open spec fn newlines(b: Seq<u8>) -> nat
    decreases b.len(),
{
    if b.len() == 0 {
        0
    } else {
        newlines(b.drop_last()) + if b.last() == 10u8 { 1nat } else { 0nat }
    }
}

/// Offset just after the last newline byte of `b`, or 0.
pub open spec fn last_line_start(b: Seq<u8>) -> nat
    decreases b.len(),
{
    if b.len() == 0 {
        0
    } else if b.last() == 10u8 {
        b.len()
    } else {
        last_line_start(b.drop_last())
    }
}

/// The offset cut to the length of the text.
pub open spec fn clamp(offset: usize, len: nat) -> nat {
    if offset < len { offset as nat } else { len }
}

/// The position of a byte offset (cut to the text's length): the newlines
/// before it, and its distance from the last of them; both are kept to 32
/// bits as the protocol's numbers are.
pub open spec fn position_of(b: Seq<u8>, offset: usize) -> Position {
    let o = clamp(offset, b.len());
    let before = b.take(o as int);
    Position { line: newlines(before) as u32, character: (o - last_line_start(before)) as u32 }
}

proof fn lemma_last_line_start(b: Seq<u8>)
    ensures
        last_line_start(b) <= b.len(),
    decreases b.len(),
{
    if b.len() > 0 {
        lemma_last_line_start(b.drop_last());
    }
}

/// The position of a byte offset (`position_of`).
pub fn offset_to_position(text: &str, offset: usize) -> (p: Position)
    requires
        is_char_boundary(text.spec_bytes(), clamp(offset, text.spec_bytes().len()) as int),
    ensures
        p == position_of(text.spec_bytes(), offset),
{
    let bytes = text.as_bytes();
    let o = if offset < bytes.len() { offset } else { bytes.len() };
    let mut count: usize = 0;
    let mut start: usize = 0;
    let mut i: usize = 0;
    while i < o
        invariant
            o <= bytes@.len(),
            i <= o,
            count == newlines(bytes@.take(i as int)),
            start == last_line_start(bytes@.take(i as int)),
            count <= i,
        decreases o - i,
    {
        proof {
            assert(bytes@.take(i + 1).drop_last() =~= bytes@.take(i as int));
        }
        if bytes[i] == 10u8 {
            count = count + 1;
            start = i + 1;
        }
        i = i + 1;
    }
    proof {
        lemma_last_line_start(bytes@.take(o as int));
    }
    Position { line: count as u32, character: (o - start) as u32 }
}

/// The reader-facing name of an expected token: without quotes, and with
/// the grammar's terminal names spelt out.
pub open spec fn token_label(s: Seq<char>) -> Seq<char> {
    let t = trim_char(s, '"');
    if t == "upper_ident"@ {
        "type name"@
    } else if t == "lower_ident"@ {
        "identifier"@
    } else if t == "int_lit"@ {
        "integer"@
    } else if t == "float_lit"@ {
        "number"@
    } else if t == "string_lit"@ {
        "string"@
    } else {
        t
    }
}

/// A list of expected tokens as text: "something" for none, the one, "a, b
/// or c" for up to five, and the first four then ", ..." for more.
pub open spec fn expected_text(e: Seq<Seq<char>>) -> Seq<char> {
    let c = e.map_values(|s: Seq<char>| token_label(s));
    if c.len() == 0 {
        "something"@
    } else if c.len() == 1 {
        c[0]
    } else if c.len() <= 5 {
        join(c.drop_last(), ", "@) + " or "@ + c.last()
    } else {
        join(c.take(4), ", "@) + ", ..."@
    }
}

fn token_label_of(s: &str) -> (r: String)
    ensures
        r@ == token_label(s@),
{
    let raw = chars_of(s);
    let t = trim_char_chars(raw.as_slice(), '"');
    let ts = string_of(t.as_slice());
    let tv = ts.as_str();
    if str_eq(tv, "upper_ident") {
        copy_str("type name")
    } else if str_eq(tv, "lower_ident") {
        copy_str("identifier")
    } else if str_eq(tv, "int_lit") {
        copy_str("integer")
    } else if str_eq(tv, "float_lit") {
        copy_str("number")
    } else if str_eq(tv, "string_lit") {
        copy_str("string")
    } else {
        ts
    }
}

/// The expected tokens as text (`expected_text`).
pub fn format_expected(expected: &Vec<String>) -> (r: String)
    ensures
        r@ == expected_text(views(expected@)),
{
    let ghost e = views(expected@);
    let ghost c = e.map_values(|s: Seq<char>| token_label(s));
    let mut cleaned: Vec<String> = Vec::new();
    let mut i: usize = 0;
    while i < expected.len()
        invariant
            i <= expected@.len(),
            e == views(expected@),
            c == e.map_values(|s: Seq<char>| token_label(s)),
            views(cleaned@) == c.take(i as int),
        decreases expected@.len() - i,
    {
        let ghost before = views(cleaned@);
        cleaned.push(token_label_of(expected[i].as_str()));
        proof {
            assert(views(cleaned@) =~= before.push(token_label(expected@[i as int]@)));
            assert(c.take(i + 1) =~= c.take(i as int).push(c[i as int]));
            assert(c[i as int] == token_label(e[i as int]));
        }
        i = i + 1;
    }
    assert(c.take(c.len() as int) =~= c);
    let n = cleaned.len();
    if n == 0 {
        copy_str("something")
    } else if n == 1 {
        cleaned[0].clone()
    } else if n <= 5 {
        let mut head: Vec<String> = Vec::new();
        let mut k: usize = 0;
        while k < n - 1
            invariant
                n == cleaned@.len(),
                1 < n,
                k <= n - 1,
                views(head@) == views(cleaned@).take(k as int),
            decreases n - 1 - k,
        {
            let ghost before = views(head@);
            head.push(cleaned[k].clone());
            proof {
                assert(views(head@) =~= before.push(cleaned@[k as int]@));
                assert(views(cleaned@).take(k + 1) =~= views(cleaned@).take(k as int).push(views(cleaned@)[k as int]));
            }
            k = k + 1;
        }
        assert(views(head@) =~= c.drop_last());
        let mut r = String::new();
        push_joined(&mut r, &head, ", ");
        r.append(" or ");
        r.append(cleaned[n - 1].as_str());
        proof {
            assert(views(cleaned@)[n - 1] == cleaned@[n - 1]@);
        }
        r
    } else {
        let mut head: Vec<String> = Vec::new();
        let mut k: usize = 0;
        while k < 4
            invariant
                n == cleaned@.len(),
                5 < n,
                k <= 4,
                views(head@) == views(cleaned@).take(k as int),
            decreases 4 - k,
        {
            let ghost before = views(head@);
            head.push(cleaned[k].clone());
            proof {
                assert(views(head@) =~= before.push(cleaned@[k as int]@));
                assert(views(cleaned@).take(k + 1) =~= views(cleaned@).take(k as int).push(views(cleaned@)[k as int]));
            }
            k = k + 1;
        }
        let mut r = String::new();
        push_joined(&mut r, &head, ", ");
        r.append(", ...");
        r
    }
}

/// The range and message of a parse failure. A token gives its own range,
/// a single location an empty range there, and a lexical error the start
/// of the document.
pub open spec fn failure_report(b: Seq<u8>, err: ParseFailure) -> (Range, Seq<char>) {
    match err {
        ParseFailure::UnrecognizedToken { start, end, expected } => (
            Range { start: position_of(b, start), end: position_of(b, end) },
            "unexpected token; expected "@ + expected_text(views(expected@)),
        ),
        ParseFailure::UnrecognizedEof { location, expected } => (
            Range { start: position_of(b, location), end: position_of(b, location) },
            "unexpected end of file; expected "@ + expected_text(views(expected@)),
        ),
        ParseFailure::InvalidToken { location } => (
            Range { start: position_of(b, location), end: position_of(b, location) },
            "invalid token"@,
        ),
        ParseFailure::ExtraToken { start, end } => (
            Range { start: position_of(b, start), end: position_of(b, end) },
            "extra token"@,
        ),
        ParseFailure::User { error } => (
            Range { start: Position { line: 0, character: 0 }, end: Position { line: 0, character: 0 } },
            "lexical error: "@ + error@,
        ),
    }
}

/// The byte offsets a failure refers to fall on character boundaries (once
/// cut to the text's length).
pub open spec fn failure_offsets_ok(b: Seq<u8>, err: ParseFailure) -> bool {
    match err {
        ParseFailure::UnrecognizedToken { start, end, .. } => is_char_boundary(b, clamp(start, b.len()) as int)
            && is_char_boundary(b, clamp(end, b.len()) as int),
        ParseFailure::UnrecognizedEof { location, .. } => is_char_boundary(b, clamp(location, b.len()) as int),
        ParseFailure::InvalidToken { location } => is_char_boundary(b, clamp(location, b.len()) as int),
        ParseFailure::ExtraToken { start, end } => is_char_boundary(b, clamp(start, b.len()) as int)
            && is_char_boundary(b, clamp(end, b.len()) as int),
        ParseFailure::User { .. } => true,
    }
}

/// The range and message of a parse failure (`failure_report`).
pub fn parse_error_to_range_and_message(text: &str, err: &ParseFailure) -> (r: (Range, String))
    requires
        failure_offsets_ok(text.spec_bytes(), *err),
    ensures
        r.0 == failure_report(text.spec_bytes(), *err).0,
        r.1@ == failure_report(text.spec_bytes(), *err).1,
{
    match err {
        ParseFailure::UnrecognizedToken { start, end, expected } => {
            let s = offset_to_position(text, *start);
            let e = offset_to_position(text, *end);
            let mut m = copy_str("unexpected token; expected ");
            let x = format_expected(expected);
            m.append(x.as_str());
            (Range { start: s, end: e }, m)
        },
        ParseFailure::UnrecognizedEof { location, expected } => {
            let p = offset_to_position(text, *location);
            let mut m = copy_str("unexpected end of file; expected ");
            let x = format_expected(expected);
            m.append(x.as_str());
            (Range { start: p, end: p }, m)
        },
        ParseFailure::InvalidToken { location } => {
            let p = offset_to_position(text, *location);
            (Range { start: p, end: p }, copy_str("invalid token"))
        },
        ParseFailure::ExtraToken { start, end } => {
            let s = offset_to_position(text, *start);
            let e = offset_to_position(text, *end);
            (Range { start: s, end: e }, copy_str("extra token"))
        },
        ParseFailure::User { error } => {
            let p = Position { line: 0, character: 0 };
            let mut m = copy_str("lexical error: ");
            m.append(error.as_str());
            (Range { start: p, end: p }, m)
        },
    }
}

/// A diagnostic of an open document.
#[derive(Debug)]
pub struct DocumentDiagnostic {
    pub range: Range,
    /// Always an error: the server reports parse failures only.
    pub is_error: bool,
    /// The tool that reports it.
    pub source: String,
    pub message: String,
}

/// The diagnostics of a document given how parsing it went: none when it
/// parsed, else one error at the failure's range with its message, from
/// `ocql`.
pub fn diagnose(text: &str, failure: Option<&ParseFailure>) -> (r: Vec<DocumentDiagnostic>)
    requires
        failure matches Some(e) ==> failure_offsets_ok(text.spec_bytes(), *e),
    ensures
        failure is None ==> r@.len() == 0,
        failure matches Some(e) ==> {
            &&& r@.len() == 1
            &&& r@[0].range == failure_report(text.spec_bytes(), *e).0
            &&& r@[0].message@ == failure_report(text.spec_bytes(), *e).1
            &&& r@[0].is_error
            &&& r@[0].source@ == "ocql"@
        },
{
    match failure {
        None => Vec::new(),
        Some(e) => {
            let (range, message) = parse_error_to_range_and_message(text, e);
            let mut r: Vec<DocumentDiagnostic> = Vec::new();
            r.push(DocumentDiagnostic { range, is_error: true, source: copy_str("ocql"), message });
            r
        },
    }
}

/// A notification from the editor about a document.
pub enum DocumentEvent {
    /// A document was opened with this text.
    Opened { uri: String, text: String },
    /// A document changed; with full synchronisation the last change holds
    /// the whole text, and there may be none.
    Changed { uri: String, last_text: Option<String> },
    /// A document was closed.
    Closed { uri: String },
}

/// What the server does about a notification.
pub enum DocumentAction {
    /// Parse this text and publish its diagnostics for the document.
    Diagnose { uri: String, text: String },
    /// Publish an empty list of diagnostics for the document.
    Clear { uri: String },
    /// Nothing.
    Nothing,
}

/// The texts of the open documents, by their identifiers.
pub struct OpenDocuments {
    docs: Vec<(String, String)>,
}

/// The map a list of documents stands for; a later entry of an identifier
/// replaces an earlier one.
pub open spec fn docs_map(s: Seq<(String, String)>) -> Map<Seq<char>, Seq<char>>
    decreases s.len(),
{
    if s.len() == 0 {
        Map::empty()
    } else {
        docs_map(s.drop_last()).insert(s.last().0@, s.last().1@)
    }
}

/// The entries of a list of documents whose identifier is not `uri`, in
/// order.
pub open spec fn without_uri(s: Seq<(String, String)>, uri: Seq<char>) -> Seq<(String, String)>
    decreases s.len(),
{
    if s.len() == 0 {
        Seq::empty()
    } else if s.last().0@ == uri {
        without_uri(s.drop_last(), uri)
    } else {
        without_uri(s.drop_last(), uri).push(s.last())
    }
}

proof fn lemma_without_uri(s: Seq<(String, String)>, uri: Seq<char>)
    ensures
        docs_map(without_uri(s, uri)) == docs_map(s).remove(uri),
    decreases s.len(),
{
    if s.len() > 0 {
        let rest = s.drop_last();
        lemma_without_uri(rest, uri);
        if s.last().0@ == uri {
            assert(docs_map(s).remove(uri) =~= docs_map(rest).remove(uri));
        } else {
            let kept = without_uri(rest, uri);
            assert(kept.push(s.last()).drop_last() =~= kept);
            assert(docs_map(without_uri(s, uri)) == docs_map(kept).insert(s.last().0@, s.last().1@));
            assert(docs_map(without_uri(s, uri)) =~= docs_map(s).remove(uri));
        }
    } else {
        assert(docs_map(without_uri(s, uri)) =~= docs_map(s).remove(uri));
    }
}

impl OpenDocuments {
    /// The open documents' texts by identifier.
    pub closed spec fn texts(&self) -> Map<Seq<char>, Seq<char>> {
        docs_map(self.docs@)
    }

    /// No document open.
    pub fn new() -> (r: OpenDocuments)
        ensures
            r.texts() == Map::<Seq<char>, Seq<char>>::empty(),
    {
        OpenDocuments { docs: Vec::new() }
    }

    /// Records what a notification says of a document and answers what to
    /// do: an opened or changed document is stored and diagnosed, a closed
    /// one dropped and its diagnostics cleared; a change without text does
    /// nothing.
    pub fn handle(&mut self, event: DocumentEvent) -> (r: DocumentAction)
        ensures
            match event {
                DocumentEvent::Opened { uri, text } => {
                    &&& final(self).texts() == old(self).texts().insert(uri@, text@)
                    &&& r matches DocumentAction::Diagnose { uri: u, text: t } && u@ == uri@ && t@ == text@
                },
                DocumentEvent::Changed { uri, last_text } => match last_text {
                    Some(text) => {
                        &&& final(self).texts() == old(self).texts().insert(uri@, text@)
                        &&& r matches DocumentAction::Diagnose { uri: u, text: t } && u@ == uri@ && t@ == text@
                    },
                    None => final(self).texts() == old(self).texts() && r is Nothing,
                },
                DocumentEvent::Closed { uri } => {
                    &&& final(self).texts() == old(self).texts().remove(uri@)
                    &&& r matches DocumentAction::Clear { uri: u } && u@ == uri@
                },
            },
    {
        match event {
            DocumentEvent::Opened { uri, text } => {
                let u = copy_str(uri.as_str());
                let t = copy_str(text.as_str());
                let ghost before = self.docs@;
                self.docs.push((uri, text));
                assert(self.docs@.drop_last() =~= before);
                DocumentAction::Diagnose { uri: u, text: t }
            },
            DocumentEvent::Changed { uri, last_text } => match last_text {
                Some(text) => {
                    let u = copy_str(uri.as_str());
                    let t = copy_str(text.as_str());
                    let ghost before = self.docs@;
                    self.docs.push((uri, text));
                    assert(self.docs@.drop_last() =~= before);
                    DocumentAction::Diagnose { uri: u, text: t }
                },
                None => DocumentAction::Nothing,
            },
            DocumentEvent::Closed { uri } => {
                let ghost before = self.docs@;
                let mut rest: Vec<(String, String)> = Vec::new();
                std::mem::swap(&mut rest, &mut self.docs);
                let n = rest.len();
                let mut kept: Vec<(String, String)> = Vec::new();
                let mut i: usize = 0;
                while rest.len() > 0
                    invariant
                        i + rest@.len() == before.len(),
                        before.len() == n,
                        rest@ == before.skip(i as int),
                        kept@ == without_uri(before.take(i as int), uri@),
                    decreases rest@.len(),
                {
                    let e = rest.remove(0);
                    proof {
                        assert(e == before[i as int]);
                        assert(before.take(i + 1).drop_last() =~= before.take(i as int));
                        assert(before.take(i + 1).last() == e);
                        assert(rest@ =~= before.skip(i + 1));
                    }
                    if !str_eq(e.0.as_str(), uri.as_str()) {
                        kept.push(e);
                    }
                    i = i + 1;
                }
                assert(before.take(i as int) =~= before);
                proof {
                    lemma_without_uri(before, uri@);
                }
                self.docs = kept;
                DocumentAction::Clear { uri }
            },
        }
    }
}

} // verus!
