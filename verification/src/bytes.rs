//! Byte classes of the HTTP/1.1 and JSON grammars, and scanning over them.

use vstd::prelude::*;
use vstd::string::StringSliceAdditionalSpecFns;
use vstd::utf8::encode_utf8_decode_utf8;

verus! {

pub const HTAB: u8 = 9;

pub const LF: u8 = 10;

pub const CR: u8 = 13;

pub const SPACE: u8 = 32;

pub const QUOTE: u8 = 34;

pub const COMMA: u8 = 44;

pub const DOT: u8 = 46;

pub const COLON: u8 = 58;

pub const BACKSLASH: u8 = 92;

/// The sets of bytes that the grammars are built from.
#[derive(Clone, Copy, Debug, PartialEq, Eq, Structural)]
pub enum ByteClass {
    /// `tchar`: the bytes of a method or a field name.
    Token,
    /// `0` to `9`.
    Digit,
    /// Space and horizontal tab.
    Blank,
    /// Bytes of a field value or reason phrase: tab, space, visible ASCII and
    /// everything above ASCII.
    Text,
    /// Visible ASCII: `!` to `~`.
    Visible,
    /// JSON whitespace: space, tab, line feed, carriage return.
    JsonSpace,
}

pub open spec fn is_digit(b: u8) -> bool {
    48 <= b <= 57
}

pub open spec fn is_alpha(b: u8) -> bool {
    65 <= b <= 90 || 97 <= b <= 122
}

/// `tchar` of RFC 9110: letters, digits and ``!#$%&'*+-.^_`|~``.
pub open spec fn is_token(b: u8) -> bool {
    is_digit(b) || is_alpha(b) || b == 33 || (35 <= b <= 39) || b == 42 || b == 43 || b == 45 || b
        == 46 || b == 94 || b == 95 || b == 96 || b == 124 || b == 126
}

pub open spec fn in_class(class: ByteClass, b: u8) -> bool {
    match class {
        ByteClass::Token => is_token(b),
        ByteClass::Digit => is_digit(b),
        ByteClass::Blank => b == SPACE || b == HTAB,
        ByteClass::Text => b == HTAB || (32 <= b && b != 127),
        ByteClass::Visible => 33 <= b <= 126,
        ByteClass::JsonSpace => b == SPACE || b == HTAB || b == LF || b == CR,
    }
}

/// End of the longest run of `class` bytes that starts at `from` and stays
/// below `to`.
pub open spec fn run_end(s: Seq<u8>, class: ByteClass, from: int, to: int) -> int
    decreases to - from,
{
    if from < to && in_class(class, s[from]) {
        run_end(s, class, from + 1, to)
    } else {
        from
    }
}

/// Start of the run of blanks that ends at `to`, not reaching below `from`.
pub open spec fn blank_tail(s: Seq<u8>, from: int, to: int) -> int
    decreases to - from,
{
    if from < to && in_class(ByteClass::Blank, s[to - 1]) {
        blank_tail(s, from, to - 1)
    } else {
        to
    }
}

/// Index of the first CR LF pair at or after `from`.
pub open spec fn line_end(s: Seq<u8>, from: int) -> Option<int>
    decreases s.len() - from,
{
    if from < 0 || from + 1 >= s.len() {
        None
    } else if s[from] == CR && s[from + 1] == LF {
        Some(from)
    } else {
        line_end(s, from + 1)
    }
}

/// ASCII lower case of `b`.
pub open spec fn lower(b: u8) -> u8 {
    if 65 <= b <= 90 {
        (b + 32) as u8
    } else {
        b
    }
}

/// `a` and `b` are the same up to ASCII case.
pub open spec fn eq_ignore_case(a: Seq<u8>, b: Seq<u8>) -> bool {
    a.len() == b.len() && forall|i: int| 0 <= i < a.len() ==> lower(#[trigger] a[i]) == lower(b[i])
}

/// Value of the decimal digits in `s[from..to]`.
pub open spec fn decimal(s: Seq<u8>, from: int, to: int) -> nat
    decreases to - from,
{
    if from >= to {
        0
    } else {
        (decimal(s, from, to - 1) * 10 + (s[to - 1] - 48)) as nat
    }
}

/// `run_end` is the one index that closes a run of `class` bytes.
pub proof fn lemma_run_end(s: Seq<u8>, class: ByteClass, from: int, to: int)
    requires
        from <= to,
    ensures
        from <= run_end(s, class, from, to) <= to,
        forall|i: int| from <= i < run_end(s, class, from, to) ==> in_class(class, #[trigger] s[i]),
        run_end(s, class, from, to) < to ==> !in_class(class, s[run_end(s, class, from, to)]),
    decreases to - from,
{
    if from < to && in_class(class, s[from]) {
        lemma_run_end(s, class, from + 1, to);
    }
}

/// `blank_tail` is the one index where the trailing blanks begin.
pub proof fn lemma_blank_tail(s: Seq<u8>, from: int, to: int)
    requires
        from <= to,
    ensures
        from <= blank_tail(s, from, to) <= to,
        forall|i: int|
            blank_tail(s, from, to) <= i < to ==> in_class(ByteClass::Blank, #[trigger] s[i]),
        from < blank_tail(s, from, to) ==> !in_class(
            ByteClass::Blank,
            s[blank_tail(s, from, to) - 1],
        ),
    decreases to - from,
{
    if from < to && in_class(ByteClass::Blank, s[to - 1]) {
        lemma_blank_tail(s, from, to - 1);
    }
}

/// `line_end` finds the first CR LF pair, if there is one.
pub proof fn lemma_line_end(s: Seq<u8>, from: int)
    requires
        0 <= from,
    ensures
        match line_end(s, from) {
            Some(e) => {
                &&& from <= e
                &&& e + 1 < s.len()
                &&& s[e] == CR
                &&& s[e + 1] == LF
                &&& forall|i: int| from <= i < e ==> !(#[trigger] s[i] == CR && s[i + 1] == LF)
            },
            None => forall|i: int|
                from <= i && i + 1 < s.len() ==> !(#[trigger] s[i] == CR && s[i + 1] == LF),
        },
    decreases s.len() - from,
{
    if from + 1 < s.len() && !(s[from] == CR && s[from + 1] == LF) {
        lemma_line_end(s, from + 1);
    }
}

/// A longer run of digits has no smaller value.
pub proof fn lemma_decimal_grows(s: Seq<u8>, from: int, mid: int, to: int)
    requires
        from <= mid <= to,
        forall|i: int| from <= i < to ==> is_digit(#[trigger] s[i]),
    ensures
        decimal(s, from, mid) <= decimal(s, from, to),
    decreases to - mid,
{
    if mid < to {
        lemma_decimal_grows(s, from, mid, to - 1);
        assert(is_digit(s[to - 1]));
    }
}

pub fn byte_in_class(class: ByteClass, b: u8) -> (r: bool)
    ensures
        r == in_class(class, b),
{
    match class {
        ByteClass::Token => {
            (48 <= b && b <= 57) || (65 <= b && b <= 90) || (97 <= b && b <= 122) || b == 33 || (35
                <= b && b <= 39) || b == 42 || b == 43 || b == 45 || b == 46 || b == 94 || b == 95
                || b == 96 || b == 124 || b == 126
        },
        ByteClass::Digit => 48 <= b && b <= 57,
        ByteClass::Blank => b == SPACE || b == HTAB,
        ByteClass::Text => b == HTAB || (32 <= b && b != 127),
        ByteClass::Visible => 33 <= b && b <= 126,
        ByteClass::JsonSpace => b == SPACE || b == HTAB || b == LF || b == CR,
    }
}

/// Skips the run of `class` bytes that starts at `from`.
pub fn skip_run(bytes: &[u8], class: ByteClass, from: usize, to: usize) -> (end: usize)
    requires
        from <= to <= bytes.len(),
    ensures
        end == run_end(bytes@, class, from as int, to as int),
        from <= end <= to,
{
    let mut i: usize = from;
    while i < to && byte_in_class(class, bytes[i])
        invariant
            from <= i <= to <= bytes.len(),
            run_end(bytes@, class, from as int, to as int) == run_end(
                bytes@,
                class,
                i as int,
                to as int,
            ),
        decreases to - i,
    {
        i = i + 1;
    }
    i
}

/// Backs up over the blanks that end at `to`.
pub fn trim_blank_tail(bytes: &[u8], from: usize, to: usize) -> (start: usize)
    requires
        from <= to <= bytes.len(),
    ensures
        start == blank_tail(bytes@, from as int, to as int),
        from <= start <= to,
{
    let mut i: usize = to;
    while from < i && byte_in_class(ByteClass::Blank, bytes[i - 1])
        invariant
            from <= i <= to <= bytes.len(),
            blank_tail(bytes@, from as int, to as int) == blank_tail(bytes@, from as int, i as int),
        decreases i - from,
    {
        i = i - 1;
    }
    i
}

/// Finds the first CR LF pair at or after `from`.
pub fn find_line_end(bytes: &[u8], from: usize) -> (end: Option<usize>)
    requires
        from <= bytes.len(),
    ensures
        match end {
            Some(e) => line_end(bytes@, from as int) == Some(e as int) && from <= e && e + 2
                <= bytes.len(),
            None => line_end(bytes@, from as int) is None,
        },
{
    let mut i: usize = from;
    while bytes.len() - i >= 2
        invariant
            from <= i <= bytes.len(),
            line_end(bytes@, from as int) == line_end(bytes@, i as int),
        decreases bytes.len() - i,
    {
        if bytes[i] == CR && bytes[i + 1] == LF {
            return Some(i);
        }
        i = i + 1;
    }
    None
}

/// Reads the decimal number in `bytes[from..to]`, unless it is over `limit`.
pub fn read_decimal(bytes: &[u8], from: usize, to: usize, limit: u64) -> (value: Option<u64>)
    requires
        from <= to <= bytes.len(),
        run_end(bytes@, ByteClass::Digit, from as int, to as int) == to,
    ensures
        value == if decimal(bytes@, from as int, to as int) <= limit {
            Some(decimal(bytes@, from as int, to as int) as u64)
        } else {
            None
        },
{
    proof {
        lemma_run_end(bytes@, ByteClass::Digit, from as int, to as int);
    }
    let mut acc: u64 = 0;
    let mut i: usize = from;
    while i < to
        invariant
            from <= i <= to <= bytes.len(),
            forall|k: int| from <= k < to ==> is_digit(#[trigger] bytes@[k]),
            acc == decimal(bytes@, from as int, i as int),
            acc <= limit,
        decreases to - i,
    {
        assert(is_digit(bytes@[i as int]));
        let d: u64 = (bytes[i] - 48) as u64;
        proof {
            lemma_decimal_grows(bytes@, from as int, i + 1, to as int);
        }
        if acc > limit / 10 {
            return None;
        }
        if d > limit || acc * 10 > limit - d {
            return None;
        }
        acc = acc * 10 + d;
        i = i + 1;
    }
    Some(acc)
}

/// The number that `s` spells in decimal digits behind an optional `+`, if
/// it is at most `limit`.
pub open spec fn number_of(s: Seq<u8>, limit: u64) -> Option<u64> {
    let d: int = if s.len() > 0 && s[0] == 43 {
        1
    } else {
        0
    };
    if d < s.len() && run_end(s, ByteClass::Digit, d, s.len() as int) == s.len() && decimal(
        s,
        d,
        s.len() as int,
    ) <= limit {
        Some(decimal(s, d, s.len() as int) as u64)
    } else {
        None
    }
}

/// Reads `text` as a decimal number of at most `limit`.
pub fn parse_number(text: &str, limit: u64) -> (value: Option<u64>)
    ensures
        value == number_of(text.spec_bytes(), limit),
{
    let bytes = text.as_bytes();
    let len: usize = bytes.len();
    let d: usize = if len > 0 && bytes[0] == 43 {
        1
    } else {
        0
    };
    if d >= len || skip_run(bytes, ByteClass::Digit, d, len) != len {
        return None;
    }
    read_decimal(bytes, d, len, limit)
}

/// Whether two strings are the same.
pub fn str_eq(a: &str, b: &str) -> (r: bool)
    ensures
        r == (a@ == b@),
{
    let x = a.as_bytes();
    let y = b.as_bytes();
    let r = matches_exact(x, 0, x.len(), y);
    proof {
        assert(x@.subrange(0, x@.len() as int) =~= x@);
        encode_utf8_decode_utf8(a@);
        encode_utf8_decode_utf8(b@);
    }
    r
}

pub fn to_lower(b: u8) -> (r: u8)
    ensures
        r == lower(b),
{
    if 65 <= b && b <= 90 {
        b + 32
    } else {
        b
    }
}

/// Compares `bytes[from..to]` with `name`, ignoring ASCII case.
pub fn matches_ignore_case(bytes: &[u8], from: usize, to: usize, name: &[u8]) -> (r: bool)
    requires
        from <= to <= bytes.len(),
    ensures
        r == eq_ignore_case(bytes@.subrange(from as int, to as int), name@),
{
    if to - from != name.len() {
        return false;
    }
    let ghost a = bytes@.subrange(from as int, to as int);
    let mut i: usize = 0;
    while i < name.len()
        invariant
            from <= to <= bytes.len(),
            to - from == name.len(),
            0 <= i <= name.len(),
            a == bytes@.subrange(from as int, to as int),
            forall|k: int| 0 <= k < i ==> lower(#[trigger] a[k]) == lower(name@[k]),
        decreases name.len() - i,
    {
        if to_lower(bytes[from + i]) != to_lower(name[i]) {
            assert(lower(a[i as int]) != lower(name@[i as int]));
            return false;
        }
        i = i + 1;
    }
    true
}

/// Compares `bytes[from..to]` with `other`, byte for byte.
pub fn matches_exact(bytes: &[u8], from: usize, to: usize, other: &[u8]) -> (r: bool)
    requires
        from <= to <= bytes.len(),
    ensures
        r == (bytes@.subrange(from as int, to as int) == other@),
{
    if to - from != other.len() {
        return false;
    }
    let ghost a = bytes@.subrange(from as int, to as int);
    let mut i: usize = 0;
    while i < other.len()
        invariant
            from <= to <= bytes.len(),
            to - from == other.len(),
            0 <= i <= other.len(),
            a == bytes@.subrange(from as int, to as int),
            forall|k: int| 0 <= k < i ==> #[trigger] a[k] == other@[k],
        decreases other.len() - i,
    {
        if bytes[from + i] != other[i] {
            assert(a[i as int] != other@[i as int]);
            return false;
        }
        i = i + 1;
    }
    assert(a =~= other@);
    true
}

} // verus!
