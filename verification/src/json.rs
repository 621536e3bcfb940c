//! JSON documents as spans: every scalar member that is reached through
//! objects alone, named by its dotted path and located by byte offsets.

use crate::bytes::{
    byte_in_class, in_class, is_digit, lemma_run_end, matches_exact, run_end, skip_run, ByteClass,
    BACKSLASH, COLON, COMMA, DOT, QUOTE,
};
use crate::error::ParseError;
use crate::span::{span, Span};
use vstd::prelude::*;

verus! {

/// Deepest nesting of objects and arrays that is accepted.
pub const MAX_DEPTH: usize = 128;

pub const MINUS: u8 = 45;

pub const OPEN_BRACE: u8 = 123;

pub const CLOSE_BRACE: u8 = 125;

pub const OPEN_BRACKET: u8 = 91;

pub const CLOSE_BRACKET: u8 = 93;

/// Where a scalar member stands.
#[derive(Clone, Copy, Debug, PartialEq, Eq, Structural)]
pub struct FieldSpans {
    /// The member's name, between its quotes.
    pub key: Span,
    /// The value: a string's content between its quotes, or the whole
    /// number, `true`, `false` or `null`.
    pub value: Span,
    /// The value is a string, so a quote stands on either side of it.
    pub quoted: bool,
}

/// A scalar member with its dotted path.
#[derive(Debug)]
pub struct JsonField {
    /// The names from the root down, joined by dots, as they are written in
    /// the document.
    pub path: Vec<u8>,
    pub spans: FieldSpans,
}

pub struct JsonFieldView {
    pub path: Seq<u8>,
    pub spans: FieldSpans,
}

impl View for JsonField {
    type V = JsonFieldView;

    open spec fn view(&self) -> JsonFieldView {
        JsonFieldView { path: self.path@, spans: self.spans }
    }
}

/// The scalar members of a document, in the order in which they are written.
#[derive(Debug)]
pub struct JsonSpans {
    pub fields: Vec<JsonField>,
}

impl View for JsonSpans {
    type V = Seq<JsonFieldView>;

    open spec fn view(&self) -> Seq<JsonFieldView> {
        field_views(self.fields@)
    }
}

pub open spec fn field_views(fields: Seq<JsonField>) -> Seq<JsonFieldView> {
    fields.map_values(|f: JsonField| f@)
}

pub open spec fn is_hex(b: u8) -> bool {
    is_digit(b) || 65 <= b <= 70 || 97 <= b <= 102
}

/// The byte behind a backslash in the two-byte escapes: `"\/bfnrt`.
pub open spec fn is_simple_escape(b: u8) -> bool {
    b == QUOTE || b == BACKSLASH || b == 47 || b == 98 || b == 102 || b == 110 || b == 114 || b
        == 116
}

/// End of the whitespace that starts at `pos`.
pub open spec fn skip_space(s: Seq<u8>, pos: int) -> int {
    run_end(s, ByteClass::JsonSpace, pos, s.len() as int)
}

/// Offset of the quote that closes the string whose content starts at `pos`.
pub open spec fn string_close(s: Seq<u8>, pos: int) -> Option<int>
    decreases s.len() - pos,
{
    if pos < 0 || pos >= s.len() {
        None
    } else if s[pos] == QUOTE {
        Some(pos)
    } else if s[pos] == BACKSLASH {
        if pos + 1 < s.len() && is_simple_escape(s[pos + 1]) {
            string_close(s, pos + 2)
        } else if pos + 5 < s.len() && s[pos + 1] == 117 && is_hex(s[pos + 2]) && is_hex(s[pos + 3])
            && is_hex(s[pos + 4]) && is_hex(s[pos + 5]) {
            string_close(s, pos + 6)
        } else {
            None
        }
    } else if s[pos] < 32 {
        None
    } else {
        string_close(s, pos + 1)
    }
}

/// End of the fraction that may start at `pos`.
pub open spec fn fraction_end(s: Seq<u8>, pos: int) -> Option<int> {
    if 0 <= pos < s.len() && s[pos] == DOT {
        let e = run_end(s, ByteClass::Digit, pos + 1, s.len() as int);
        if e == pos + 1 {
            None
        } else {
            Some(e)
        }
    } else {
        Some(pos)
    }
}

/// End of the exponent that may start at `pos`.
pub open spec fn exponent_end(s: Seq<u8>, pos: int) -> Option<int> {
    if 0 <= pos < s.len() && (s[pos] == 101 || s[pos] == 69) {
        let d = if pos + 1 < s.len() && (s[pos + 1] == 43 || s[pos + 1] == MINUS) {
            pos + 2
        } else {
            pos + 1
        };
        let e = run_end(s, ByteClass::Digit, d, s.len() as int);
        if e == d {
            None
        } else {
            Some(e)
        }
    } else {
        Some(pos)
    }
}

/// End of the number that starts at `pos`.
pub open spec fn number_end(s: Seq<u8>, pos: int) -> Option<int> {
    let d = if 0 <= pos < s.len() && s[pos] == MINUS {
        pos + 1
    } else {
        pos
    };
    let e = run_end(s, ByteClass::Digit, d, s.len() as int);
    if d < 0 || e == d || (s[d] == 48 && e > d + 1) {
        None
    } else {
        match fraction_end(s, e) {
            None => None,
            Some(f) => exponent_end(s, f),
        }
    }
}

/// End of `true`, `false` or `null` at `pos`.
pub open spec fn literal_end(s: Seq<u8>, pos: int) -> Option<int> {
    if 0 <= pos && pos + 4 <= s.len() && s[pos] == 116 && s[pos + 1] == 114 && s[pos + 2] == 117
        && s[pos + 3] == 101 {
        Some(pos + 4)
    } else if 0 <= pos && pos + 4 <= s.len() && s[pos] == 110 && s[pos + 1] == 117 && s[pos + 2]
        == 108 && s[pos + 3] == 108 {
        Some(pos + 4)
    } else if 0 <= pos && pos + 5 <= s.len() && s[pos] == 102 && s[pos + 1] == 97 && s[pos + 2]
        == 108 && s[pos + 3] == 115 && s[pos + 4] == 101 {
        Some(pos + 5)
    } else {
        None
    }
}

/// The scalar that starts at `pos`: its span, whether it is a string, and the
/// offset behind it.
pub open spec fn scalar_at(s: Seq<u8>, pos: int) -> Option<(Span, bool, int)> {
    if pos < 0 || pos >= s.len() {
        None
    } else if s[pos] == QUOTE {
        match string_close(s, pos + 1) {
            Some(c) => Some((span(pos + 1, c), true, c + 1)),
            None => None,
        }
    } else if s[pos] == MINUS || is_digit(s[pos]) {
        match number_end(s, pos) {
            Some(e) => Some((span(pos, e), false, e)),
            None => None,
        }
    } else {
        match literal_end(s, pos) {
            Some(e) => Some((span(pos, e), false, e)),
            None => None,
        }
    }
}

/// Path prefix for the members of the object named `key` under `prefix`.
pub open spec fn child_prefix(prefix: Option<Seq<u8>>, key: Seq<u8>) -> Option<Seq<u8>> {
    match prefix {
        Some(p) => Some(p + key + seq![DOT]),
        None => None,
    }
}

/// The value that starts at `pos`, nested at most `depth` deep: the scalar
/// members below it, and the offset behind it. `prefix` is what the paths of
/// its members begin with; there is none inside an array.
pub open spec fn value_fields(s: Seq<u8>, pos: int, depth: nat, prefix: Option<Seq<u8>>) -> Option<
    (Seq<JsonFieldView>, int),
>
    decreases depth, 0nat, 0nat,
{
    if pos < 0 || pos >= s.len() {
        None
    } else if s[pos] == OPEN_BRACE {
        let p = skip_space(s, pos + 1);
        if depth == 0 {
            None
        } else if p < s.len() && s[p] == CLOSE_BRACE {
            Some((Seq::empty(), p + 1))
        } else {
            members(s, p, (depth - 1) as nat, prefix)
        }
    } else if s[pos] == OPEN_BRACKET {
        let p = skip_space(s, pos + 1);
        if depth == 0 {
            None
        } else if p < s.len() && s[p] == CLOSE_BRACKET {
            Some((Seq::empty(), p + 1))
        } else {
            match elements(s, p, (depth - 1) as nat) {
                Some(e) => Some((Seq::empty(), e)),
                None => None,
            }
        }
    } else {
        match scalar_at(s, pos) {
            Some((_, _, e)) => Some((Seq::empty(), e)),
            None => None,
        }
    }
}

/// The member `"name" : value` at `pos`: the scalar members it adds, and the
/// offset behind its value. A scalar value adds the member itself, if it has
/// a path; an object adds what it holds.
pub open spec fn member_at(s: Seq<u8>, pos: int, depth: nat, prefix: Option<Seq<u8>>) -> Option<
    (Seq<JsonFieldView>, int),
>
    decreases depth, 1nat, 0nat,
{
    if pos < 0 || pos >= s.len() || s[pos] != QUOTE {
        None
    } else {
        match string_close(s, pos + 1) {
            None => None,
            Some(close) => {
                let key = span(pos + 1, close);
                let colon = skip_space(s, close + 1);
                let v = skip_space(s, colon + 1);
                if colon >= s.len() || s[colon] != COLON {
                    None
                } else {
                    match value_fields(s, v, depth, child_prefix(prefix, key.of(s))) {
                        None => None,
                        Some((inner, e)) => match (prefix, scalar_at(s, v)) {
                            (Some(p), Some((value, quoted, _))) => Some(
                                (
                                    seq![
                                        JsonFieldView {
                                            path: p + key.of(s),
                                            spans: FieldSpans { key, value, quoted },
                                        },
                                    ],
                                    e,
                                ),
                            ),
                            _ => Some((inner, e)),
                        },
                    }
                }
            },
        }
    }
}

/// The members of an object from `pos` to its closing brace.
pub open spec fn members(s: Seq<u8>, pos: int, depth: nat, prefix: Option<Seq<u8>>) -> Option<
    (Seq<JsonFieldView>, int),
>
    decreases depth, 2nat, s.len() - pos,
{
    match member_at(s, pos, depth, prefix) {
        None => None,
        Some((first, e)) => {
            let n = skip_space(s, e);
            let m = skip_space(s, n + 1);
            if n < 0 || n >= s.len() {
                None
            } else if s[n] == CLOSE_BRACE {
                Some((first, n + 1))
            } else if s[n] == COMMA && pos < m <= s.len() {
                match members(s, m, depth, prefix) {
                    Some((rest, end)) => Some((first + rest, end)),
                    None => None,
                }
            } else {
                None
            }
        },
    }
}

/// The elements of an array from `pos` to its closing bracket: the offset
/// behind the bracket.
pub open spec fn elements(s: Seq<u8>, pos: int, depth: nat) -> Option<int>
    decreases depth, 2nat, s.len() - pos,
{
    match value_fields(s, pos, depth, None) {
        None => None,
        Some((_, e)) => {
            let n = skip_space(s, e);
            let m = skip_space(s, n + 1);
            if n < 0 || n >= s.len() {
                None
            } else if s[n] == CLOSE_BRACKET {
                Some(n + 1)
            } else if s[n] == COMMA && pos < m <= s.len() {
                elements(s, m, depth)
            } else {
                None
            }
        },
    }
}

/// The scalar members of the document `s`: whitespace, one value,
/// whitespace.
pub open spec fn json_fields(s: Seq<u8>) -> Option<Seq<JsonFieldView>> {
    match value_fields(s, skip_space(s, 0), MAX_DEPTH as nat, Some(Seq::empty())) {
        Some((fields, e)) => if skip_space(s, e) == s.len() {
            Some(fields)
        } else {
            None
        },
        None => None,
    }
}

/// `f` with its spans moved right by `offset`.
pub open spec fn shift_field(f: JsonFieldView, offset: int) -> JsonFieldView {
    JsonFieldView {
        path: f.path,
        spans: FieldSpans {
            key: span(f.spans.key.start + offset, f.spans.key.end + offset),
            value: span(f.spans.value.start + offset, f.spans.value.end + offset),
            quoted: f.spans.quoted,
        },
    }
}

pub open spec fn shift_fields(fields: Seq<JsonFieldView>, offset: int) -> Seq<JsonFieldView> {
    fields.map_values(|f: JsonFieldView| shift_field(f, offset))
}

/// The first of `fields` from `from` on whose path is `path`.
pub open spec fn lookup(fields: Seq<JsonFieldView>, path: Seq<u8>, from: int) -> Option<FieldSpans>
    decreases fields.len() - from,
{
    if from < 0 || from >= fields.len() {
        None
    } else if fields[from].path == path {
        Some(fields[from].spans)
    } else {
        lookup(fields, path, from + 1)
    }
}

pub open spec fn prefix_view(prefix: Option<Vec<u8>>) -> Option<Seq<u8>> {
    match prefix {
        Some(p) => Some(p@),
        None => None,
    }
}

/// What a parsing step hands back, against what the grammar says: on
/// success the end offset, and the fields added to `before`, moved by `base`.
pub open spec fn step_matches(
    result: Option<usize>,
    expected: Option<(Seq<JsonFieldView>, int)>,
    before: Seq<JsonFieldView>,
    after: Seq<JsonFieldView>,
    base: int,
    len: int,
) -> bool {
    match expected {
        Some((fields, end)) => result == Some(end as usize) && 0 <= end <= len && after == before
            + shift_fields(fields, base),
        None => result is None,
    }
}

/// Without a prefix a value has no named members.
pub proof fn lemma_no_prefix_no_fields(s: Seq<u8>, pos: int, depth: nat)
    ensures
        match value_fields(s, pos, depth, None) {
            Some((fields, _)) => fields == Seq::<JsonFieldView>::empty(),
            None => true,
        },
    decreases depth, 0nat, 0nat,
{
    if 0 <= pos < s.len() && s[pos] == OPEN_BRACE && depth > 0 {
        lemma_no_prefix_no_members(s, skip_space(s, pos + 1), (depth - 1) as nat);
    }
}

/// Without a prefix a member is not named.
pub proof fn lemma_no_prefix_no_member(s: Seq<u8>, pos: int, depth: nat)
    ensures
        match member_at(s, pos, depth, None) {
            Some((fields, _)) => fields == Seq::<JsonFieldView>::empty(),
            None => true,
        },
    decreases depth, 1nat, 0nat,
{
    if 0 <= pos < s.len() && s[pos] == QUOTE {
        match string_close(s, pos + 1) {
            None => {},
            Some(close) => {
                let colon = skip_space(s, close + 1);
                lemma_no_prefix_no_fields(s, skip_space(s, colon + 1), depth);
            },
        }
    }
}

/// Without a prefix the members of an object are not named.
pub proof fn lemma_no_prefix_no_members(s: Seq<u8>, pos: int, depth: nat)
    ensures
        match members(s, pos, depth, None) {
            Some((fields, _)) => fields == Seq::<JsonFieldView>::empty(),
            None => true,
        },
    decreases depth, 2nat, s.len() - pos,
{
    lemma_no_prefix_no_member(s, pos, depth);
    match member_at(s, pos, depth, None) {
        None => {},
        Some((first, e)) => {
            let n = skip_space(s, e);
            let m = skip_space(s, n + 1);
            if 0 <= n < s.len() && s[n] == COMMA && pos < m <= s.len() {
                lemma_no_prefix_no_members(s, m, depth);
                match members(s, m, depth, None) {
                    Some((rest, _)) => {
                        assert(first + rest =~= Seq::<JsonFieldView>::empty());
                    },
                    None => {},
                }
            }
        },
    }
}

/// The closing quote lies at or behind `pos`, inside `s`.
pub proof fn lemma_string_close(s: Seq<u8>, pos: int)
    ensures
        match string_close(s, pos) {
            Some(close) => 0 <= pos <= close < s.len() && s[close] == QUOTE,
            None => true,
        },
    decreases s.len() - pos,
{
    if 0 <= pos < s.len() && s[pos] != QUOTE {
        if s[pos] == BACKSLASH {
            if pos + 1 < s.len() && is_simple_escape(s[pos + 1]) {
                lemma_string_close(s, pos + 2);
            } else if pos + 5 < s.len() {
                lemma_string_close(s, pos + 6);
            }
        } else if s[pos] >= 32 {
            lemma_string_close(s, pos + 1);
        }
    }
}

/// A scalar lies between `pos` and its end; a string has a quote on either
/// side of its span, and any other scalar is not empty.
pub proof fn lemma_scalar_at(s: Seq<u8>, pos: int)
    requires
        s.len() <= usize::MAX,
    ensures
        match scalar_at(s, pos) {
            Some((value, quoted, end)) => {
                &&& 0 <= pos <= value.start <= value.end <= end <= s.len()
                &&& s[pos] != OPEN_BRACE && s[pos] != OPEN_BRACKET
                &&& quoted ==> value.start == pos + 1 && value.end + 1 == end && s[pos] == QUOTE
                    && s[value.end as int] == QUOTE
                &&& !quoted ==> value.start == pos && value.end == end && pos < end
            },
            None => true,
        },
{
    if 0 <= pos < s.len() {
        let len = s.len() as int;
        if s[pos] == QUOTE {
            lemma_string_close(s, pos + 1);
        } else if s[pos] == MINUS || is_digit(s[pos]) {
            let d = if s[pos] == MINUS {
                pos + 1
            } else {
                pos
            };
            lemma_run_end(s, ByteClass::Digit, d, len);
            let e = run_end(s, ByteClass::Digit, d, len);
            if e < len {
                lemma_run_end(s, ByteClass::Digit, e + 1, len);
            }
            match fraction_end(s, e) {
                None => {},
                Some(f) => {
                    if f < len {
                        lemma_run_end(s, ByteClass::Digit, f + 1, len);
                        if f + 1 < len {
                            lemma_run_end(s, ByteClass::Digit, f + 2, len);
                        }
                    }
                },
            }
        }
    }
}

/// The path of `f` ends with its name as `s` spells it.
pub open spec fn named_by_key(s: Seq<u8>, f: JsonFieldView) -> bool {
    let key = f.spans.key.of(s);
    f.path.len() >= key.len() && f.path.subrange(f.path.len() - key.len(), f.path.len() as int)
        == key
}

/// Between the quote that closes the name of `f` and its value stand one
/// colon and whitespace, nothing else.
pub open spec fn separated(s: Seq<u8>, f: JsonFieldView) -> bool {
    let from = f.spans.key.end + 1;
    let to = f.spans.value.start - if f.spans.quoted {
        1int
    } else {
        0int
    };
    exists|colon: int|
        from <= colon < to && #[trigger] s[colon] == COLON && forall|i: int|
            from <= i < to && i != colon ==> in_class(ByteClass::JsonSpace, #[trigger] s[i])
}

/// The member `f` is written in `s[lo..hi]`: a quote, the name, a quote, then
/// behind the colon the value, a string between its quotes.
pub open spec fn field_in(s: Seq<u8>, f: JsonFieldView, lo: int, hi: int) -> bool {
    let key = f.spans.key;
    let value = f.spans.value;
    &&& 0 <= lo < key.start <= key.end
    &&& key.end + 2 <= value.start <= value.end <= hi <= s.len()
    &&& s[key.start - 1] == QUOTE
    &&& s[key.end as int] == QUOTE
    &&& f.spans.quoted ==> key.end + 3 <= value.start && value.end < hi && s[value.start - 1]
        == QUOTE && s[value.end as int] == QUOTE
    &&& !f.spans.quoted ==> value.start < value.end
    &&& named_by_key(s, f)
    &&& separated(s, f)
}

pub open spec fn fields_in(s: Seq<u8>, fields: Seq<JsonFieldView>, lo: int, hi: int) -> bool {
    forall|i: int| 0 <= i < fields.len() ==> field_in(s, #[trigger] fields[i], lo, hi)
}

/// The members below a value are written inside it.
pub proof fn lemma_value_fields_in(s: Seq<u8>, pos: int, depth: nat, prefix: Option<Seq<u8>>)
    requires
        s.len() <= usize::MAX,
    ensures
        match value_fields(s, pos, depth, prefix) {
            Some((fields, end)) => 0 <= pos < end <= s.len() && fields_in(s, fields, pos, end),
            None => true,
        },
    decreases depth, 0nat, 0nat,
{
    if 0 <= pos < s.len() {
        let len = s.len() as int;
        lemma_run_end(s, ByteClass::JsonSpace, pos + 1, len);
        let p = skip_space(s, pos + 1);
        if s[pos] == OPEN_BRACE {
            if depth > 0 && !(p < s.len() && s[p] == CLOSE_BRACE) {
                lemma_members_in(s, p, (depth - 1) as nat, prefix);
            }
        } else if s[pos] == OPEN_BRACKET {
            if depth > 0 && !(p < s.len() && s[p] == CLOSE_BRACKET) {
                lemma_elements_end(s, p, (depth - 1) as nat);
            }
        } else {
            lemma_scalar_at(s, pos);
        }
    }
}

/// What a member adds is written inside it.
pub proof fn lemma_member_in(s: Seq<u8>, pos: int, depth: nat, prefix: Option<Seq<u8>>)
    requires
        s.len() <= usize::MAX,
    ensures
        match member_at(s, pos, depth, prefix) {
            Some((fields, end)) => 0 <= pos < end <= s.len() && fields_in(s, fields, pos, end),
            None => true,
        },
    decreases depth, 1nat, 0nat,
{
    if 0 <= pos < s.len() && s[pos] == QUOTE {
        let len = s.len() as int;
        lemma_string_close(s, pos + 1);
        match string_close(s, pos + 1) {
            None => {},
            Some(close) => {
                let key = span(pos + 1, close);
                lemma_run_end(s, ByteClass::JsonSpace, close + 1, len);
                let colon = skip_space(s, close + 1);
                if colon < s.len() && s[colon] == COLON {
                    lemma_run_end(s, ByteClass::JsonSpace, colon + 1, len);
                    let v = skip_space(s, colon + 1);
                    lemma_value_fields_in(s, v, depth, child_prefix(prefix, key.of(s)));
                    lemma_scalar_at(s, v);
                    match (prefix, scalar_at(s, v)) {
                        (Some(p), Some((value, quoted, _))) => {
                            let f = JsonFieldView {
                                path: p + key.of(s),
                                spans: FieldSpans { key, value, quoted },
                            };
                            let name = key.of(s);
                            assert(f.path.subrange(f.path.len() - name.len(), f.path.len() as int)
                                =~= name);
                            assert(separated(s, f));
                        },
                        _ => {},
                    }
                }
            },
        }
    }
}

/// The members of an object are written before its closing brace.
pub proof fn lemma_members_in(s: Seq<u8>, pos: int, depth: nat, prefix: Option<Seq<u8>>)
    requires
        s.len() <= usize::MAX,
    ensures
        match members(s, pos, depth, prefix) {
            Some((fields, end)) => 0 <= pos < end <= s.len() && fields_in(s, fields, pos, end),
            None => true,
        },
    decreases depth, 2nat, s.len() - pos,
{
    lemma_member_in(s, pos, depth, prefix);
    match member_at(s, pos, depth, prefix) {
        None => {},
        Some((first, e)) => {
            let len = s.len() as int;
            lemma_run_end(s, ByteClass::JsonSpace, e, len);
            let n = skip_space(s, e);
            let m = skip_space(s, n + 1);
            if 0 <= n < s.len() && s[n] == COMMA && pos < m <= s.len() {
                lemma_run_end(s, ByteClass::JsonSpace, n + 1, len);
                lemma_members_in(s, m, depth, prefix);
                match members(s, m, depth, prefix) {
                    Some((rest, end)) => {
                        let all = first + rest;
                        assert forall|i: int| 0 <= i < all.len() implies field_in(
                            s,
                            #[trigger] all[i],
                            pos,
                            end,
                        ) by {
                            if i < first.len() {
                                assert(field_in(s, first[i], pos, e));
                            } else {
                                assert(field_in(s, rest[i - first.len()], m, end));
                            }
                        }
                    },
                    None => {},
                }
            }
        },
    }
}

/// An array ends behind where it starts, inside `s`.
pub proof fn lemma_elements_end(s: Seq<u8>, pos: int, depth: nat)
    requires
        s.len() <= usize::MAX,
    ensures
        match elements(s, pos, depth) {
            Some(end) => 0 <= pos < end <= s.len(),
            None => true,
        },
    decreases depth, 2nat, s.len() - pos,
{
    lemma_value_fields_in(s, pos, depth, None);
    match value_fields(s, pos, depth, None) {
        None => {},
        Some((_, e)) => {
            let len = s.len() as int;
            lemma_run_end(s, ByteClass::JsonSpace, e, len);
            let n = skip_space(s, e);
            let m = skip_space(s, n + 1);
            if 0 <= n < s.len() && s[n] == COMMA && pos < m <= s.len() {
                lemma_elements_end(s, m, depth);
            }
        },
    }
}

/// Every scalar member of a document is written in it, its name in quotes.
pub proof fn lemma_json_fields_in(s: Seq<u8>)
    requires
        s.len() <= usize::MAX,
    ensures
        match json_fields(s) {
            Some(fields) => fields_in(s, fields, 0, s.len() as int),
            None => true,
        },
{
    let start = skip_space(s, 0);
    lemma_run_end(s, ByteClass::JsonSpace, 0, s.len() as int);
    lemma_value_fields_in(s, start, MAX_DEPTH as nat, Some(Seq::empty()));
    match value_fields(s, start, MAX_DEPTH as nat, Some(Seq::empty())) {
        Some((fields, end)) => {
            assert forall|i: int| 0 <= i < fields.len() implies field_in(
                s,
                #[trigger] fields[i],
                0,
                s.len() as int,
            ) by {
                assert(field_in(s, fields[i], start, end));
            }
        },
        None => {},
    }
}

/// What `lookup` finds is the first of `fields` with that path.
pub proof fn lemma_lookup(fields: Seq<JsonFieldView>, path: Seq<u8>, from: int)
    requires
        0 <= from,
    ensures
        match lookup(fields, path, from) {
            Some(spans) => exists|i: int|
                from <= i < fields.len() && (#[trigger] fields[i]).path == path && fields[i].spans
                    == spans && forall|j: int|
                    from <= j < i ==> (#[trigger] fields[j]).path != path,
            None => forall|j: int| from <= j < fields.len() ==> (#[trigger] fields[j]).path != path,
        },
    decreases fields.len() - from,
{
    if from < fields.len() {
        if fields[from].path == path {
            assert(fields[from].spans == lookup(fields, path, from).unwrap());
        } else {
            lemma_lookup(fields, path, from + 1);
            match lookup(fields, path, from + 1) {
                Some(spans) => {
                    let i = choose|i: int|
                        from + 1 <= i < fields.len() && (#[trigger] fields[i]).path == path
                            && fields[i].spans == spans && forall|j: int|
                            from + 1 <= j < i ==> (#[trigger] fields[j]).path != path;
                    assert(from <= i < fields.len() && fields[i].path == path && fields[i].spans
                        == spans && forall|j: int|
                        from <= j < i ==> (#[trigger] fields[j]).path != path);
                },
                None => {},
            }
        }
    }
}

fn hex_digit(b: u8) -> (r: bool)
    ensures
        r == is_hex(b),
{
    (48 <= b && b <= 57) || (65 <= b && b <= 70) || (97 <= b && b <= 102)
}

fn simple_escape(b: u8) -> (r: bool)
    ensures
        r == is_simple_escape(b),
{
    b == QUOTE || b == BACKSLASH || b == 47 || b == 98 || b == 102 || b == 110 || b == 114 || b
        == 116
}

fn scan_string(bytes: &[u8], pos: usize) -> (r: Option<usize>)
    requires
        pos <= bytes.len(),
    ensures
        match r {
            Some(close) => string_close(bytes@, pos as int) == Some(close as int) && pos <= close
                < bytes.len(),
            None => string_close(bytes@, pos as int) is None,
        },
{
    let len: usize = bytes.len();
    let mut i: usize = pos;
    loop
        invariant
            pos <= i <= len,
            len == bytes.len(),
            string_close(bytes@, pos as int) == string_close(bytes@, i as int),
        decreases len - i,
    {
        if i >= len {
            return None;
        }
        let b: u8 = bytes[i];
        if b == QUOTE {
            return Some(i);
        } else if b == BACKSLASH {
            if len - i >= 2 && simple_escape(bytes[i + 1]) {
                i = i + 2;
            } else if len - i >= 6 && bytes[i + 1] == 117 && hex_digit(bytes[i + 2]) && hex_digit(
                bytes[i + 3],
            ) && hex_digit(bytes[i + 4]) && hex_digit(bytes[i + 5]) {
                i = i + 6;
            } else {
                return None;
            }
        } else if b < 32 {
            return None;
        } else {
            i = i + 1;
        }
    }
}

fn scan_number(bytes: &[u8], pos: usize) -> (r: Option<usize>)
    requires
        pos < bytes.len(),
    ensures
        match r {
            Some(end) => number_end(bytes@, pos as int) == Some(end as int) && pos < end
                <= bytes.len(),
            None => number_end(bytes@, pos as int) is None,
        },
{
    let len: usize = bytes.len();
    let d: usize = if bytes[pos] == MINUS {
        pos + 1
    } else {
        pos
    };
    let e: usize = skip_run(bytes, ByteClass::Digit, d, len);
    if e == d {
        return None;
    }
    if bytes[d] == 48 && e > d + 1 {
        return None;
    }
    let f: usize = if e < len && bytes[e] == DOT {
        let q: usize = skip_run(bytes, ByteClass::Digit, e + 1, len);
        if q == e + 1 {
            return None;
        }
        q
    } else {
        e
    };
    if f < len && (bytes[f] == 101 || bytes[f] == 69) {
        let x: usize = if len - f >= 2 && (bytes[f + 1] == 43 || bytes[f + 1] == MINUS) {
            f + 2
        } else {
            f + 1
        };
        let q: usize = skip_run(bytes, ByteClass::Digit, x, len);
        if q == x {
            return None;
        }
        Some(q)
    } else {
        Some(f)
    }
}

fn scan_literal(bytes: &[u8], pos: usize) -> (r: Option<usize>)
    requires
        pos <= bytes.len(),
    ensures
        match r {
            Some(end) => literal_end(bytes@, pos as int) == Some(end as int) && pos < end
                <= bytes.len(),
            None => literal_end(bytes@, pos as int) is None,
        },
{
    let left: usize = bytes.len() - pos;
    if left >= 4 && bytes[pos] == 116 && bytes[pos + 1] == 114 && bytes[pos + 2] == 117 && bytes[pos
        + 3] == 101 {
        Some(pos + 4)
    } else if left >= 4 && bytes[pos] == 110 && bytes[pos + 1] == 117 && bytes[pos + 2] == 108
        && bytes[pos + 3] == 108 {
        Some(pos + 4)
    } else if left >= 5 && bytes[pos] == 102 && bytes[pos + 1] == 97 && bytes[pos + 2] == 108
        && bytes[pos + 3] == 115 && bytes[pos + 4] == 101 {
        Some(pos + 5)
    } else {
        None
    }
}

fn scan_scalar(bytes: &[u8], pos: usize) -> (r: Option<(Span, bool, usize)>)
    requires
        pos <= bytes.len(),
    ensures
        match r {
            Some((value, quoted, end)) => scalar_at(bytes@, pos as int) == Some(
                (value, quoted, end as int),
            ) && pos <= value.start <= value.end <= end <= bytes.len() && pos < end,
            None => scalar_at(bytes@, pos as int) is None,
        },
{
    if pos >= bytes.len() {
        return None;
    }
    let b: u8 = bytes[pos];
    if b == QUOTE {
        match scan_string(bytes, pos + 1) {
            Some(close) => Some((Span { start: pos + 1, end: close }, true, close + 1)),
            None => None,
        }
    } else if b == MINUS || byte_in_class(ByteClass::Digit, b) {
        match scan_number(bytes, pos) {
            Some(end) => Some((Span { start: pos, end }, false, end)),
            None => None,
        }
    } else {
        match scan_literal(bytes, pos) {
            Some(end) => Some((Span { start: pos, end }, false, end)),
            None => None,
        }
    }
}

/// Appends `bytes[from..to]` to `path`.
fn extend_path(path: &mut Vec<u8>, bytes: &[u8], from: usize, to: usize)
    requires
        from <= to <= bytes.len(),
    ensures
        final(path)@ == old(path)@ + bytes@.subrange(from as int, to as int),
{
    let ghost before = path@;
    let mut i: usize = from;
    while i < to
        invariant
            from <= i <= to <= bytes.len(),
            path@ == before + bytes@.subrange(from as int, i as int),
        decreases to - i,
    {
        path.push(bytes[i]);
        i = i + 1;
        assert(path@ =~= before + bytes@.subrange(from as int, i as int));
    }
}

/// The path `prefix` followed by `bytes[from..to]`.
fn join_path(prefix: &Vec<u8>, bytes: &[u8], from: usize, to: usize) -> (path: Vec<u8>)
    requires
        from <= to <= bytes.len(),
    ensures
        path@ == prefix@ + bytes@.subrange(from as int, to as int),
{
    let mut path: Vec<u8> = Vec::new();
    extend_path(&mut path, prefix.as_slice(), 0, prefix.len());
    assert(path@ =~= prefix@);
    extend_path(&mut path, bytes, from, to);
    path
}

fn make_child_prefix(prefix: &Option<Vec<u8>>, bytes: &[u8], from: usize, to: usize) -> (child:
    Option<Vec<u8>>)
    requires
        from <= to <= bytes.len(),
    ensures
        prefix_view(child) == child_prefix(
            prefix_view(*prefix),
            bytes@.subrange(from as int, to as int),
        ),
{
    match prefix {
        Some(p) => {
            let mut path = join_path(p, bytes, from, to);
            path.push(DOT);
            assert(path@ =~= p@ + bytes@.subrange(from as int, to as int) + seq![DOT]);
            Some(path)
        },
        None => None,
    }
}

fn parse_value(
    bytes: &[u8],
    pos: usize,
    depth: usize,
    prefix: &Option<Vec<u8>>,
    base: usize,
    out: &mut Vec<JsonField>,
) -> (r: Option<usize>)
    requires
        pos <= bytes.len(),
        base + bytes.len() <= usize::MAX,
    ensures
        step_matches(
            r,
            value_fields(bytes@, pos as int, depth as nat, prefix_view(*prefix)),
            field_views(old(out)@),
            field_views(final(out)@),
            base as int,
            bytes.len() as int,
        ),
        r matches Some(end) ==> pos < end,
    decreases depth, 0nat,
{
    let len: usize = bytes.len();
    let ghost before = field_views(out@);
    assert(before + shift_fields(Seq::empty(), base as int) =~= before);
    if pos >= len {
        return None;
    }
    let b: u8 = bytes[pos];
    if b == OPEN_BRACE {
        let p: usize = skip_run(bytes, ByteClass::JsonSpace, pos + 1, len);
        if depth == 0 {
            None
        } else if p < len && bytes[p] == CLOSE_BRACE {
            Some(p + 1)
        } else {
            parse_members(bytes, p, depth - 1, prefix, base, out)
        }
    } else if b == OPEN_BRACKET {
        let p: usize = skip_run(bytes, ByteClass::JsonSpace, pos + 1, len);
        if depth == 0 {
            None
        } else if p < len && bytes[p] == CLOSE_BRACKET {
            Some(p + 1)
        } else {
            parse_elements(bytes, p, depth - 1, base, out)
        }
    } else {
        match scan_scalar(bytes, pos) {
            Some((_, _, end)) => Some(end),
            None => None,
        }
    }
}

fn parse_member(
    bytes: &[u8],
    pos: usize,
    depth: usize,
    prefix: &Option<Vec<u8>>,
    base: usize,
    out: &mut Vec<JsonField>,
) -> (r: Option<usize>)
    requires
        pos <= bytes.len(),
        base + bytes.len() <= usize::MAX,
    ensures
        step_matches(
            r,
            member_at(bytes@, pos as int, depth as nat, prefix_view(*prefix)),
            field_views(old(out)@),
            field_views(final(out)@),
            base as int,
            bytes.len() as int,
        ),
        r matches Some(end) ==> pos < end,
    decreases depth, 1nat,
{
    let len: usize = bytes.len();
    let ghost s = bytes@;
    let ghost before = field_views(out@);
    if pos >= len || bytes[pos] != QUOTE {
        return None;
    }
    let close: usize = match scan_string(bytes, pos + 1) {
        None => {
            return None;
        },
        Some(close) => close,
    };
    let colon: usize = skip_run(bytes, ByteClass::JsonSpace, close + 1, len);
    if colon >= len || bytes[colon] != COLON {
        return None;
    }
    let v: usize = skip_run(bytes, ByteClass::JsonSpace, colon + 1, len);
    let ghost key = span(pos + 1, close as int);
    match scan_scalar(bytes, v) {
        Some((value, quoted, end)) => {
            match prefix {
                Some(p) => {
                    let path = join_path(p, bytes, pos + 1, close);
                    let field = JsonField {
                        path,
                        spans: FieldSpans {
                            key: Span { start: base + pos + 1, end: base + close },
                            value: Span { start: base + value.start, end: base + value.end },
                            quoted,
                        },
                    };
                    proof {
                        let own = seq![
                            JsonFieldView {
                                path: p@ + key.of(s),
                                spans: FieldSpans { key, value, quoted },
                            },
                        ];
                        assert(field@ == shift_field(own[0], base as int));
                        assert(field_views(out@.push(field)) =~= before + shift_fields(
                            own,
                            base as int,
                        ));
                    }
                    out.push(field);
                },
                None => {
                    assert(before + shift_fields(Seq::empty(), base as int) =~= before);
                },
            }
            Some(end)
        },
        None => {
            let child = make_child_prefix(prefix, bytes, pos + 1, close);
            parse_value(bytes, v, depth, &child, base, out)
        },
    }
}

fn parse_members(
    bytes: &[u8],
    pos: usize,
    depth: usize,
    prefix: &Option<Vec<u8>>,
    base: usize,
    out: &mut Vec<JsonField>,
) -> (r: Option<usize>)
    requires
        pos <= bytes.len(),
        base + bytes.len() <= usize::MAX,
    ensures
        step_matches(
            r,
            members(bytes@, pos as int, depth as nat, prefix_view(*prefix)),
            field_views(old(out)@),
            field_views(final(out)@),
            base as int,
            bytes.len() as int,
        ),
        r matches Some(end) ==> pos < end,
    decreases depth, 2nat,
{
    let len: usize = bytes.len();
    let ghost s = bytes@;
    let ghost before = field_views(out@);
    let ghost pv = prefix_view(*prefix);
    let ghost mut acc: Seq<JsonFieldView> = Seq::empty();
    let mut at: usize = pos;
    assert(before + shift_fields(acc, base as int) =~= before);
    assert(acc + Seq::<JsonFieldView>::empty() =~= acc);
    loop
        invariant
            pos <= at <= len,
            len == bytes.len(),
            s == bytes@,
            base + len <= usize::MAX,
            pv == prefix_view(*prefix),
            before == field_views(old(out)@),
            field_views(out@) == before + shift_fields(acc, base as int),
            match members(s, at as int, depth as nat, pv) {
                Some((rest, end)) => members(s, pos as int, depth as nat, pv) == Some(
                    (acc + rest, end),
                ),
                None => members(s, pos as int, depth as nat, pv) is None,
            },
        decreases len - at,
    {
        let ghost mid = field_views(out@);
        let e: usize = match parse_member(bytes, at, depth, prefix, base, out) {
            None => {
                return None;
            },
            Some(e) => e,
        };
        let ghost first = member_at(s, at as int, depth as nat, pv).unwrap().0;
        assert(field_views(out@) =~= before + shift_fields(acc + first, base as int));
        let n: usize = skip_run(bytes, ByteClass::JsonSpace, e, len);
        if n >= len {
            return None;
        }
        if bytes[n] == CLOSE_BRACE {
            return Some(n + 1);
        }
        if bytes[n] != COMMA {
            return None;
        }
        let m: usize = skip_run(bytes, ByteClass::JsonSpace, n + 1, len);
        proof {
            match members(s, m as int, depth as nat, pv) {
                Some((rest, end)) => {
                    assert(acc + (first + rest) =~= (acc + first) + rest);
                },
                None => {},
            }
            acc = acc + first;
        }
        at = m;
    }
}

fn parse_elements(
    bytes: &[u8],
    pos: usize,
    depth: usize,
    base: usize,
    out: &mut Vec<JsonField>,
) -> (r: Option<usize>)
    requires
        pos <= bytes.len(),
        base + bytes.len() <= usize::MAX,
    ensures
        step_matches(
            r,
            match elements(bytes@, pos as int, depth as nat) {
                Some(e) => Some((Seq::empty(), e)),
                None => None,
            },
            field_views(old(out)@),
            field_views(final(out)@),
            base as int,
            bytes.len() as int,
        ),
        r matches Some(end) ==> pos < end,
    decreases depth, 2nat,
{
    let len: usize = bytes.len();
    let ghost s = bytes@;
    let ghost before = field_views(out@);
    let unnamed: Option<Vec<u8>> = None;
    let mut at: usize = pos;
    assert(before + shift_fields(Seq::empty(), base as int) =~= before);
    loop
        invariant
            pos <= at <= len,
            len == bytes.len(),
            s == bytes@,
            base + len <= usize::MAX,
            unnamed is None,
            before == field_views(old(out)@),
            field_views(out@) == before,
            before + shift_fields(Seq::empty(), base as int) == before,
            elements(s, pos as int, depth as nat) == elements(s, at as int, depth as nat),
        decreases len - at,
    {
        proof {
            lemma_no_prefix_no_fields(s, at as int, depth as nat);
        }
        let e: usize = match parse_value(bytes, at, depth, &unnamed, base, out) {
            None => {
                return None;
            },
            Some(e) => e,
        };
        let n: usize = skip_run(bytes, ByteClass::JsonSpace, e, len);
        if n >= len {
            return None;
        }
        if bytes[n] == CLOSE_BRACKET {
            return Some(n + 1);
        }
        if bytes[n] != COMMA {
            return None;
        }
        let m: usize = skip_run(bytes, ByteClass::JsonSpace, n + 1, len);
        at = m;
    }
}

/// Parses `bytes` as one JSON document that stands at `base_offset` in a
/// transcript, so that the spans it reports are offsets into the transcript.
///
/// Succeeds exactly when `bytes` is whitespace, one value nested no deeper
/// than `MAX_DEPTH`, and whitespace.
pub fn parse_json(bytes: &[u8], base_offset: usize) -> (r: Result<JsonSpans, ParseError>)
    requires
        base_offset + bytes.len() <= usize::MAX,
    ensures
        match r {
            Ok(document) => json_fields(bytes@) is Some && document@ == shift_fields(
                json_fields(bytes@).unwrap(),
                base_offset as int,
            ),
            Err(e) => e == ParseError::MalformedJson && json_fields(bytes@) is None,
        },
{
    let len: usize = bytes.len();
    let start: usize = skip_run(bytes, ByteClass::JsonSpace, 0, len);
    let root: Option<Vec<u8>> = Some(Vec::new());
    let mut fields: Vec<JsonField> = Vec::new();
    assert(field_views(fields@) =~= Seq::<JsonFieldView>::empty());
    match parse_value(bytes, start, MAX_DEPTH, &root, base_offset, &mut fields) {
        None => Err(ParseError::MalformedJson),
        Some(end) => {
            if skip_run(bytes, ByteClass::JsonSpace, end, len) == len {
                let ghost found = json_fields(bytes@).unwrap();
                assert(Seq::<JsonFieldView>::empty() + shift_fields(found, base_offset as int)
                    =~= shift_fields(found, base_offset as int));
                Ok(JsonSpans { fields })
            } else {
                Err(ParseError::MalformedJson)
            }
        },
    }
}

impl JsonSpans {
    /// Looks up the scalar member at the dotted `path`; of several members
    /// with that path, the first.
    pub fn get(&self, path: &[u8]) -> (r: Result<FieldSpans, ParseError>)
        ensures
            match r {
                Ok(spans) => lookup(self@, path@, 0) == Some(spans),
                Err(e) => e == ParseError::MissingField && lookup(self@, path@, 0) is None,
            },
    {
        let mut i: usize = 0;
        while i < self.fields.len()
            invariant
                0 <= i <= self.fields.len(),
                lookup(self@, path@, 0) == lookup(self@, path@, i as int),
            decreases self.fields.len() - i,
        {
            let field = &self.fields[i];
            assert(self@[i as int] == field@);
            if matches_exact(field.path.as_slice(), 0, field.path.len(), path) {
                assert(field.path@.subrange(0, field.path@.len() as int) =~= field.path@);
                return Ok(field.spans);
            }
            assert(field.path@.subrange(0, field.path@.len() as int) =~= field.path@);
            i = i + 1;
        }
        Err(ParseError::MissingField)
    }
}

} // verus!
