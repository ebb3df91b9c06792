use vstd::prelude::*;

use crate::headers::is_digit;
use crate::json::{JVal, JsonValue};
use crate::outside::char_from_u32;

verus! {

// =========================================================================
// The flat wire form: one JSON object whose values are scalars (strings,
// numbers, booleans, null) — metadata and payload fields at one shared
// nesting depth, no deeper structures. This module defines the text of
// that form (the printer), reads it back (the parser), and proves that
// reading inverts writing.
// =========================================================================
// ---- character classes and scanning ----
/// True when the character is JSON whitespace.
pub open spec fn is_ws(c: char) -> bool {
    c == ' ' || c == '\n' || c == '\r' || c == '\t'
}

/// The first position at or after `i` that does not hold whitespace.
pub open spec fn ws_end(s: Seq<char>, i: int) -> int
    decreases s.len() - i,
{
    if i < 0 || i >= s.len() {
        i
    } else if is_ws(s[i]) {
        ws_end(s, i + 1)
    } else {
        i
    }
}

proof fn lemma_ws_end(s: Seq<char>, i: int)
    requires
        0 <= i <= s.len(),
    ensures
        i <= ws_end(s, i) <= s.len(),
        forall|j: int| i <= j < ws_end(s, i) ==> is_ws(#[trigger] s[j]),
        ws_end(s, i) < s.len() ==> !is_ws(s[ws_end(s, i)]),
    decreases s.len() - i,
{
    if i < s.len() && is_ws(s[i]) {
        lemma_ws_end(s, i + 1);
    }
}

/// The first position at or after `i` that does not hold a digit.
pub open spec fn digits_end(s: Seq<char>, i: int) -> int
    decreases s.len() - i,
{
    if i < 0 || i >= s.len() {
        i
    } else if is_digit(s[i]) {
        digits_end(s, i + 1)
    } else {
        i
    }
}

proof fn lemma_digits_end(s: Seq<char>, i: int)
    requires
        0 <= i <= s.len(),
    ensures
        i <= digits_end(s, i) <= s.len(),
        forall|j: int| i <= j < digits_end(s, i) ==> is_digit(#[trigger] s[j]),
        digits_end(s, i) < s.len() ==> !is_digit(s[digits_end(s, i)]),
    decreases s.len() - i,
{
    if i < s.len() && is_digit(s[i]) {
        lemma_digits_end(s, i + 1);
    }
}

/// True when the character can occur in a number literal.
pub open spec fn is_num_char(c: char) -> bool {
    is_digit(c) || c == '-' || c == '+' || c == '.' || c == 'e' || c == 'E'
}

/// The first position at or after `i` that does not hold a number character.
pub open spec fn num_end(s: Seq<char>, i: int) -> int
    decreases s.len() - i,
{
    if i < 0 || i >= s.len() {
        i
    } else if is_num_char(s[i]) {
        num_end(s, i + 1)
    } else {
        i
    }
}

proof fn lemma_num_end(s: Seq<char>, i: int)
    requires
        0 <= i <= s.len(),
    ensures
        i <= num_end(s, i) <= s.len(),
        forall|j: int| i <= j < num_end(s, i) ==> is_num_char(#[trigger] s[j]),
        num_end(s, i) < s.len() ==> !is_num_char(s[num_end(s, i)]),
    decreases s.len() - i,
{
    if i < s.len() && is_num_char(s[i]) {
        lemma_num_end(s, i + 1);
    }
}

// ---- the number-literal grammar ----
/// True when the text is one JSON number literal: an optional minus sign, an
/// integer part without a leading zero, an optional fraction, an optional
/// exponent.
pub open spec fn is_num_lit(t: Seq<char>) -> bool {
    let i0: int = if t.len() > 0 && t[0] == '-' {
        1
    } else {
        0
    };
    if i0 >= t.len() || !is_digit(t[i0]) {
        false
    } else {
        let i1: int = if t[i0] == '0' {
            i0 + 1
        } else {
            digits_end(t, i0)
        };
        let i2: int = if i1 < t.len() && t[i1] == '.' {
            if i1 + 1 < t.len() && is_digit(t[i1 + 1]) {
                digits_end(t, i1 + 1)
            } else {
                -1
            }
        } else {
            i1
        };
        if i2 < 0 {
            false
        } else {
            let i3: int = if i2 < t.len() && (t[i2] == 'e' || t[i2] == 'E') {
                let j: int = if i2 + 1 < t.len() && (t[i2 + 1] == '+' || t[i2 + 1] == '-') {
                    i2 + 2
                } else {
                    i2 + 1
                };
                if j < t.len() && is_digit(t[j]) {
                    digits_end(t, j)
                } else {
                    -1
                }
            } else {
                i2
            };
            i3 == t.len()
        }
    }
}

/// Every character of a number literal is a number character.
pub proof fn lemma_num_lit_chars(t: Seq<char>)
    requires
        is_num_lit(t),
    ensures
        forall|j: int| 0 <= j < t.len() ==> is_num_char(#[trigger] t[j]),
        t.len() > 0,
{
    let i0: int = if t.len() > 0 && t[0] == '-' {
        1
    } else {
        0
    };
    let i1: int = if t[i0] == '0' {
        i0 + 1
    } else {
        digits_end(t, i0)
    };
    lemma_digits_end(t, i0);
    assert(i0 <= i1 <= t.len()) by {
        if t[i0] != '0' {
            lemma_digits_end(t, i0);
        }
    }
    assert forall|j: int| i0 <= j < i1 implies is_digit(#[trigger] t[j]) by {
        if t[i0] != '0' {
            lemma_digits_end(t, i0);
        }
    }
    let i2: int = if i1 < t.len() && t[i1] == '.' {
        if i1 + 1 < t.len() && is_digit(t[i1 + 1]) {
            digits_end(t, i1 + 1)
        } else {
            -1
        }
    } else {
        i1
    };
    if i1 < t.len() && t[i1] == '.' {
        lemma_digits_end(t, i1 + 1);
    }
    let i3: int = if i2 < t.len() && (t[i2] == 'e' || t[i2] == 'E') {
        let j: int = if i2 + 1 < t.len() && (t[i2 + 1] == '+' || t[i2 + 1] == '-') {
            i2 + 2
        } else {
            i2 + 1
        };
        if j < t.len() && is_digit(t[j]) {
            digits_end(t, j)
        } else {
            -1
        }
    } else {
        i2
    };
    if i2 < t.len() && (t[i2] == 'e' || t[i2] == 'E') {
        let j: int = if i2 + 1 < t.len() && (t[i2 + 1] == '+' || t[i2 + 1] == '-') {
            i2 + 2
        } else {
            i2 + 1
        };
        if j < t.len() && is_digit(t[j]) {
            lemma_digits_end(t, j);
        }
    }
}

// ---- printing ----
/// The hexadecimal digit for a value below sixteen, in lower case.
pub open spec fn hex_digit(n: int) -> char {
    if n < 10 {
        ((0x30 + n) as char)
    } else {
        ((0x61 + n - 10) as char)
    }
}

/// How one character of a string value is written: a quote or a backslash is
/// escaped, a control character becomes a `\u` escape, anything else stands
/// as itself.
pub open spec fn esc_char(c: char) -> Seq<char> {
    if c == '"' {
        seq!['\\', '"']
    } else if c == '\\' {
        seq!['\\', '\\']
    } else if 0 <= c as int && (c as int) < 0x20 {
        seq!['\\', 'u', '0', '0', hex_digit((c as int) / 16), hex_digit((c as int) % 16)]
    } else {
        seq![c]
    }
}

/// The written content of a string value, character by character.
pub open spec fn print_str_body(s: Seq<char>) -> Seq<char>
    decreases s.len(),
{
    if s.len() == 0 {
        Seq::empty()
    } else {
        esc_char(s[0]) + print_str_body(s.drop_first())
    }
}

/// A written string value: the escaped content between quotes.
pub open spec fn print_string(s: Seq<char>) -> Seq<char> {
    seq!['"'] + print_str_body(s) + seq!['"']
}

/// True when the value is a scalar the flat form can hold, with a valid
/// number literal where it is a number.
pub open spec fn scalar_ok(v: JVal) -> bool {
    match v {
        JVal::Null => true,
        JVal::Bool(_) => true,
        JVal::Num(t) => is_num_lit(t),
        JVal::Str(_) => true,
        JVal::Arr(_) => false,
        JVal::Obj(_) => false,
    }
}

/// A written scalar value. Only meaningful when `scalar_ok` holds.
pub open spec fn print_scalar(v: JVal) -> Seq<char> {
    match v {
        JVal::Null => seq!['n', 'u', 'l', 'l'],
        JVal::Bool(b) => if b {
            seq!['t', 'r', 'u', 'e']
        } else {
            seq!['f', 'a', 'l', 's', 'e']
        },
        JVal::Num(t) => t,
        JVal::Str(s) => print_string(s),
        JVal::Arr(_) => Seq::empty(),
        JVal::Obj(_) => Seq::empty(),
    }
}

/// One written field: the quoted key, a colon, the scalar value.
pub open spec fn print_field(k: Seq<char>, v: JVal) -> Seq<char> {
    print_string(k) + seq![':'] + print_scalar(v)
}

/// The written continuation of a field list: a comma before each field.
pub open spec fn print_fields_rest(fs: Seq<(Seq<char>, JVal)>) -> Seq<char>
    decreases fs.len(),
{
    if fs.len() == 0 {
        Seq::empty()
    } else {
        seq![','] + print_field(fs[0].0, fs[0].1) + print_fields_rest(fs.drop_first())
    }
}


// ---- parsing: character values ----
/// Hexadecimal value of a character, or a negative number when it is none.
pub open spec fn hex_val(c: char) -> int {
    if is_digit(c) {
        c as int - 0x30
    } else if 'a' <= c && c <= 'f' {
        c as int - 0x61 + 10
    } else if 'A' <= c && c <= 'F' {
        c as int - 0x41 + 10
    } else {
        -1
    }
}

/// Combined value of the four hexadecimal characters at `i`, or a negative
/// number when any of them is not hexadecimal.
pub open spec fn hex4_val(s: Seq<char>, i: int) -> int {
    if hex_val(s[i]) < 0 || hex_val(s[i + 1]) < 0 || hex_val(s[i + 2]) < 0 || hex_val(
        s[i + 3],
    ) < 0 {
        -1
    } else {
        hex_val(s[i]) * 4096 + hex_val(s[i + 1]) * 256 + hex_val(s[i + 2]) * 16 + hex_val(
            s[i + 3],
        )
    }
}

/// The character a short escape stands for, if the escape is known.
pub open spec fn unescape_char(c: char) -> Option<char> {
    if c == '"' {
        Some('"')
    } else if c == '\\' {
        Some('\\')
    } else if c == '/' {
        Some('/')
    } else if c == 'b' {
        Some((0x08 as char))
    } else if c == 'f' {
        Some((0x0C as char))
    } else if c == 'n' {
        Some('\n')
    } else if c == 'r' {
        Some('\r')
    } else if c == 't' {
        Some('\t')
    } else {
        None
    }
}

// ---- parsing: the grammar ----
/// Reads a string's content from inside the quotes through the closing
/// quote; yields the unescaped content and the position after the quote.
pub open spec fn parse_str_body(s: Seq<char>, i: int) -> Option<(Seq<char>, int)>
    decreases s.len() - i,
{
    if i < 0 || i >= s.len() {
        None
    } else if s[i] == '"' {
        Some((Seq::empty(), i + 1))
    } else if s[i] == '\\' {
        if i + 1 >= s.len() {
            None
        } else if s[i + 1] == 'u' {
            if i + 6 > s.len() {
                None
            } else {
                let h = hex4_val(s, i + 2);
                if h < 0 || (0xD800 <= h && h < 0xE000) {
                    None
                } else {
                    match parse_str_body(s, i + 6) {
                        Some(p) => Some((seq![(h as char)] + p.0, p.1)),
                        None => None,
                    }
                }
            }
        } else {
            match unescape_char(s[i + 1]) {
                Some(c) => match parse_str_body(s, i + 2) {
                    Some(p) => Some((seq![c] + p.0, p.1)),
                    None => None,
                },
                None => None,
            }
        }
    } else {
        match parse_str_body(s, i + 1) {
            Some(p) => Some((seq![s[i]] + p.0, p.1)),
            None => None,
        }
    }
}

/// Reads a quoted string at `i`.
pub open spec fn parse_string(s: Seq<char>, i: int) -> Option<(Seq<char>, int)> {
    if 0 <= i && i < s.len() && s[i] == '"' {
        parse_str_body(s, i + 1)
    } else {
        None
    }
}

/// Reads a number literal at `i`: the longest run of number characters,
/// accepted only when it is a valid literal.
pub open spec fn parse_number(s: Seq<char>, i: int) -> Option<(Seq<char>, int)> {
    if 0 <= i && i <= s.len() {
        let e = num_end(s, i);
        let t = s.subrange(i, e);
        if is_num_lit(t) {
            Some((t, e))
        } else {
            None
        }
    } else {
        None
    }
}

/// Reads one scalar value at `i`.
pub open spec fn parse_scalar(s: Seq<char>, i: int) -> Option<(JVal, int)> {
    if i < 0 || i >= s.len() {
        None
    } else if s[i] == '"' {
        match parse_string(s, i) {
            Some(p) => Some((JVal::Str(p.0), p.1)),
            None => None,
        }
    } else if s[i] == 't' {
        if i + 4 <= s.len() && s.subrange(i, i + 4) == seq!['t', 'r', 'u', 'e'] {
            Some((JVal::Bool(true), i + 4))
        } else {
            None
        }
    } else if s[i] == 'f' {
        if i + 5 <= s.len() && s.subrange(i, i + 5) == seq!['f', 'a', 'l', 's', 'e'] {
            Some((JVal::Bool(false), i + 5))
        } else {
            None
        }
    } else if s[i] == 'n' {
        if i + 4 <= s.len() && s.subrange(i, i + 4) == seq!['n', 'u', 'l', 'l'] {
            Some((JVal::Null, i + 4))
        } else {
            None
        }
    } else if s[i] == '-' || is_digit(s[i]) {
        match parse_number(s, i) {
            Some(p) => Some((JVal::Num(p.0), p.1)),
            None => None,
        }
    } else {
        None
    }
}

/// Reads one `"key": value` member whose key starts at `i`.
pub open spec fn parse_pair(s: Seq<char>, i: int) -> Option<((Seq<char>, JVal), int)> {
    match parse_string(s, i) {
        None => None,
        Some(k) => {
            let j2 = ws_end(s, k.1);
            if j2 < s.len() && s[j2] == ':' {
                let j3 = ws_end(s, j2 + 1);
                match parse_scalar(s, j3) {
                    Some(v) => Some(((k.0, v.0), v.1)),
                    None => None,
                }
            } else {
                None
            }
        },
    }
}

// ---- advancement: every successful read moves forward and stays in range ----
proof fn lemma_parse_str_body_advances(s: Seq<char>, i: int)
    ensures
        parse_str_body(s, i) matches Some(p) ==> i < p.1 <= s.len() && 0 <= i,
    decreases s.len() - i,
{
    if 0 <= i && i < s.len() {
        if s[i] == '"' {
        } else if s[i] == '\\' {
            if i + 1 < s.len() {
                if s[i + 1] == 'u' {
                    if i + 6 <= s.len() {
                        lemma_parse_str_body_advances(s, i + 6);
                    }
                } else {
                    lemma_parse_str_body_advances(s, i + 2);
                }
            }
        } else {
            lemma_parse_str_body_advances(s, i + 1);
        }
    }
}

proof fn lemma_parse_string_advances(s: Seq<char>, i: int)
    ensures
        parse_string(s, i) matches Some(p) ==> i < p.1 <= s.len() && 0 <= i,
{
    if 0 <= i && i < s.len() && s[i] == '"' {
        lemma_parse_str_body_advances(s, i + 1);
    }
}

proof fn lemma_parse_number_advances(s: Seq<char>, i: int)
    ensures
        parse_number(s, i) matches Some(p) ==> i < p.1 <= s.len() && 0 <= i,
{
    if 0 <= i && i <= s.len() {
        lemma_num_end(s, i);
        let e = num_end(s, i);
        let t = s.subrange(i, e);
        if is_num_lit(t) {
            lemma_num_lit_chars(t);
        }
    }
}

proof fn lemma_parse_scalar_advances(s: Seq<char>, i: int)
    ensures
        parse_scalar(s, i) matches Some(p) ==> i < p.1 <= s.len() && 0 <= i,
{
    if 0 <= i && i < s.len() {
        if s[i] == '"' {
            lemma_parse_string_advances(s, i);
        } else if s[i] == '-' || is_digit(s[i]) {
            lemma_parse_number_advances(s, i);
        }
    }
}

proof fn lemma_parse_pair_advances(s: Seq<char>, i: int)
    ensures
        parse_pair(s, i) matches Some(p) ==> i < p.1 <= s.len() && 0 <= i,
{
    lemma_parse_string_advances(s, i);
    match parse_string(s, i) {
        None => {},
        Some(k) => {
            lemma_ws_end(s, k.1);
            let j2 = ws_end(s, k.1);
            if j2 < s.len() && s[j2] == ':' {
                lemma_ws_end(s, j2 + 1);
                lemma_parse_scalar_advances(s, ws_end(s, j2 + 1));
            }
        },
    }
}

/// Reads the members of an object from the first key through the closing
/// brace; at least one member.
pub open spec fn parse_members(s: Seq<char>, i: int) -> Option<
    (Seq<(Seq<char>, JVal)>, int),
>
    decreases s.len() - i via parse_members_decreases
{
    match parse_pair(s, i) {
        None => None,
        Some(p) => {
            let j2 = ws_end(s, p.1);
            if j2 < s.len() && s[j2] == ',' {
                let j3 = ws_end(s, j2 + 1);
                match parse_members(s, j3) {
                    Some(q) => Some((seq![p.0] + q.0, q.1)),
                    None => None,
                }
            } else if j2 < s.len() && s[j2] == '}' {
                Some((seq![p.0], j2 + 1))
            } else {
                None
            }
        },
    }
}

#[via_fn]
proof fn parse_members_decreases(s: Seq<char>, i: int) {
    lemma_parse_pair_advances(s, i);
    match parse_pair(s, i) {
        None => {},
        Some(p) => {
            lemma_ws_end(s, p.1);
            let j2 = ws_end(s, p.1);
            if j2 < s.len() && s[j2] == ',' {
                lemma_ws_end(s, j2 + 1);
            }
        },
    }
}

proof fn lemma_parse_members_advances(s: Seq<char>, i: int)
    ensures
        parse_members(s, i) matches Some(p) ==> i < p.1 <= s.len() && 0 <= i,
    decreases s.len() - i,
{
    lemma_parse_pair_advances(s, i);
    match parse_pair(s, i) {
        None => {},
        Some(p) => {
            lemma_ws_end(s, p.1);
            let j2 = ws_end(s, p.1);
            if j2 < s.len() && s[j2] == ',' {
                lemma_ws_end(s, j2 + 1);
                lemma_parse_members_advances(s, ws_end(s, j2 + 1));
            }
        },
    }
}

/// Reads one whole flat object starting at or after `i`, leading whitespace
/// allowed; yields the fields and the position after the closing brace.
pub open spec fn parse_object(s: Seq<char>, i: int) -> Option<(Seq<(Seq<char>, JVal)>, int)> {
    if 0 <= i && i <= s.len() {
        let a = ws_end(s, i);
        if a < s.len() && s[a] == '{' {
            let b = ws_end(s, a + 1);
            if b < s.len() && s[b] == '}' {
                Some((Seq::empty(), b + 1))
            } else {
                parse_members(s, b)
            }
        } else {
            None
        }
    } else {
        None
    }
}

proof fn lemma_parse_object_advances(s: Seq<char>, i: int)
    ensures
        parse_object(s, i) matches Some(p) ==> i < p.1 <= s.len() && 0 <= i,
{
    if 0 <= i && i <= s.len() {
        lemma_ws_end(s, i);
        let a = ws_end(s, i);
        if a < s.len() && s[a] == '{' {
            lemma_ws_end(s, a + 1);
            let b = ws_end(s, a + 1);
            if !(b < s.len() && s[b] == '}') {
                lemma_parse_members_advances(s, b);
            }
        }
    }
}

/// The fields of one flat object: keys in order, each with its value.
pub type WireFields = Seq<(Seq<char>, JVal)>;

/// Reads one whole text as a flat object: nothing but whitespace may follow.
pub open spec fn parse_flat(s: Seq<char>) -> Option<WireFields> {
    match parse_object(s, 0) {
        None => None,
        Some(p) => {
            if ws_end(s, p.1) == s.len() {
                Some(p.0)
            } else {
                None
            }
        },
    }
}


// ---- reading inverts writing ----
proof fn lemma_hex_digit_val(n: int)
    requires
        0 <= n < 16,
    ensures
        hex_val(hex_digit(n)) == n,
{
    if n < 10 {
        assert(hex_digit(n) as int == 0x30 + n);
        assert(is_digit(hex_digit(n)));
    } else {
        assert(hex_digit(n) as int == 0x61 + n - 10);
        assert(!is_digit(hex_digit(n)));
        assert('a' <= hex_digit(n) && hex_digit(n) <= 'f');
    }
}

proof fn lemma_parse_str_body_print(s: Seq<char>, t: Seq<char>, i: int)
    requires
        0 <= i,
        i + print_str_body(t).len() + 1 <= s.len(),
        s.subrange(i, i + print_str_body(t).len()) == print_str_body(t),
        s[i + print_str_body(t).len()] == '"',
    ensures
        parse_str_body(s, i) == Some((t, i + print_str_body(t).len() + 1)),
    decreases t.len(),
{
    let p = print_str_body(t);
    if t.len() == 0 {
        assert(p.len() == 0);
        assert(s[i] == '"');
        assert(parse_str_body(s, i) == Some((Seq::<char>::empty(), i + 1)));
        assert(t =~= Seq::<char>::empty());
    } else {
        let c = t[0];
        let e = esc_char(c);
        let rest = print_str_body(t.drop_first());
        assert(p == e + rest);
        assert(p.len() == e.len() + rest.len());
        assert forall|k: int| 0 <= k < p.len() implies #[trigger] s[i + k] == p[k] by {
            assert(s.subrange(i, i + p.len())[k] == s[i + k]);
        }
        assert forall|k: int| 0 <= k < e.len() implies #[trigger] s[i + k] == e[k] by {
            assert(p[k] == (e + rest)[k]);
        }
        assert(s[i + 0] == p[0]);
        assert(p[0] == (e + rest)[0]);
        assert((e + rest)[0] == e[0]);
        if e.len() > 1 {
            assert((e + rest)[1] == e[1]);
        }
        let i2 = i + e.len();
        assert(s.subrange(i2, i2 + rest.len()) =~= rest) by {
            assert forall|k: int| 0 <= k < rest.len() implies s.subrange(
                i2,
                i2 + rest.len(),
            )[k] == rest[k] by {
                assert(s.subrange(i2, i2 + rest.len())[k] == s[i2 + k]);
                assert(s[i2 + k] == p[e.len() + k as int]);
                assert(p[e.len() + k as int] == (e + rest)[e.len() + k]);
            }
        }
        assert(s[i2 + rest.len()] == '"');
        lemma_parse_str_body_print(s, t.drop_first(), i2);
        if c == '"' {
            assert(e == seq!['\\', '"']);
            assert(s[i] == '\\');
            assert(s[i + 1] == p[1]);
            assert(s[i + 1] == '"');
            assert(unescape_char('"') == Some('"'));
            assert(parse_str_body(s, i) == Some((seq![c] + t.drop_first(), i + p.len() + 1)));
            assert(seq![c] + t.drop_first() =~= t);
        } else if c == '\\' {
            assert(e == seq!['\\', '\\']);
            assert(s[i] == '\\');
            assert(s[i + 1] == p[1]);
            assert(s[i + 1] == '\\');
            assert(unescape_char('\\') == Some('\\'));
            assert(parse_str_body(s, i) == Some((seq![c] + t.drop_first(), i + p.len() + 1)));
            assert(seq![c] + t.drop_first() =~= t);
        } else if 0 <= c as int && (c as int) < 0x20 {
            let hi = (c as int) / 16;
            let lo = (c as int) % 16;
            assert(e == seq!['\\', 'u', '0', '0', hex_digit(hi), hex_digit(lo)]);
            assert((e + rest)[2] == e[2]);
            assert((e + rest)[3] == e[3]);
            assert((e + rest)[4] == e[4]);
            assert((e + rest)[5] == e[5]);
            assert(s[i] == '\\');
            assert(s[i + 1] == p[1]);
            assert(s[i + 1] == 'u');
            assert(s[i + 2] == p[2]);
            assert(s[i + 2] == '0');
            assert(s[i + 3] == p[3]);
            assert(s[i + 3] == '0');
            assert(s[i + 4] == p[4]);
            assert(s[i + 4] == hex_digit(hi));
            assert(s[i + 5] == p[5]);
            assert(s[i + 5] == hex_digit(lo));
            assert(0 <= hi < 16 && 0 <= lo < 16);
            lemma_hex_digit_val(hi);
            lemma_hex_digit_val(lo);
            assert(hex_val('0') == 0);
            let h = hex4_val(s, i + 2);
            assert(h == hi * 16 + lo);
            assert(h == c as int);
            assert(0 <= h < 0x20);
            assert((h as char) == c);
            assert(parse_str_body(s, i) == Some((seq![c] + t.drop_first(), i + p.len() + 1)));
            assert(seq![c] + t.drop_first() =~= t);
        } else {
            assert(e == seq![c]);
            assert(s[i] == c);
            assert(c != '"' && c != '\\');
            assert(parse_str_body(s, i) == Some((seq![c] + t.drop_first(), i + p.len() + 1)));
            assert(seq![c] + t.drop_first() =~= t);
        }
    }
}

proof fn lemma_parse_string_print(s: Seq<char>, x: Seq<char>, i: int)
    requires
        0 <= i,
        i + print_string(x).len() <= s.len(),
        s.subrange(i, i + print_string(x).len()) == print_string(x),
    ensures
        parse_string(s, i) == Some((x, i + print_string(x).len())),
{
    let p = print_string(x);
    let body = print_str_body(x);
    assert(p == seq!['"'] + body + seq!['"']);
    assert(p.len() == body.len() + 2);
    assert forall|k: int| 0 <= k < p.len() implies #[trigger] s[i + k] == p[k] by {
        assert(s.subrange(i, i + p.len())[k] == s[i + k]);
    }
    assert(s[i + 0] == p[0]);
    assert(s[i] == p[0]);
    assert(p[0] == (seq!['"'] + body + seq!['"'])[0]);
    assert(p[0] == '"');
    assert(s.subrange(i + 1, i + 1 + body.len()) =~= body) by {
        assert forall|k: int| 0 <= k < body.len() implies s.subrange(
            i + 1,
            i + 1 + body.len(),
        )[k] == body[k] by {
            assert(s.subrange(i + 1, i + 1 + body.len())[k] == s[i + 1 + k]);
            assert(s[i + 1 + k] == p[1 + k]);
            assert(p[1 + k] == (seq!['"'] + body + seq!['"'])[1 + k]);
        }
    }
    let q: int = 1 + body.len() as int;
    assert(s[i + q] == p[q]);
    assert(p[q] == (seq!['"'] + body + seq!['"'])[q]);
    assert(p[q] == '"');
    assert(s[i + 1 + body.len()] == '"');
    lemma_parse_str_body_print(s, x, i + 1);
}

proof fn lemma_num_end_exact(s: Seq<char>, i: int, e: int)
    requires
        0 <= i <= e <= s.len(),
        forall|j: int| i <= j < e ==> is_num_char(#[trigger] s[j]),
        e == s.len() || !is_num_char(s[e]),
    ensures
        num_end(s, i) == e,
    decreases e - i,
{
    if i < e {
        lemma_num_end_exact(s, i + 1, e);
    }
}

proof fn lemma_num_lit_first(t: Seq<char>)
    requires
        is_num_lit(t),
    ensures
        t.len() > 0,
        t[0] == '-' || is_digit(t[0]),
{
    lemma_num_lit_chars(t);
}

proof fn lemma_parse_number_print(s: Seq<char>, t: Seq<char>, i: int)
    requires
        0 <= i,
        is_num_lit(t),
        i + t.len() <= s.len(),
        s.subrange(i, i + t.len()) == t,
        i + t.len() == s.len() || !is_num_char(s[i + t.len()]),
    ensures
        parse_number(s, i) == Some((t, i + t.len())),
{
    lemma_num_lit_chars(t);
    assert forall|k: int| 0 <= k < t.len() implies #[trigger] s[i + k] == t[k] by {
        assert(s.subrange(i, i + t.len())[k] == s[i + k]);
    }
    assert forall|j: int| i <= j < i + t.len() implies is_num_char(#[trigger] s[j]) by {
        assert(s[j] == t[j - i]);
    }
    lemma_num_end_exact(s, i, i + t.len());
    assert(s.subrange(i, num_end(s, i)) == t);
}

/// The first written character of a scalar is never whitespace.
proof fn lemma_print_scalar_first(v: JVal)
    requires
        scalar_ok(v),
    ensures
        print_scalar(v).len() > 0,
        !is_ws(print_scalar(v)[0]),
{
    match v {
        JVal::Null => {},
        JVal::Bool(b) => {},
        JVal::Num(t) => {
            lemma_num_lit_first(t);
            assert(print_scalar(v)[0] == t[0]);
        },
        JVal::Str(x) => {
            assert(print_scalar(v)[0] == '"');
        },
        JVal::Arr(_) => {},
        JVal::Obj(_) => {},
    }
}

proof fn lemma_parse_scalar_print(s: Seq<char>, v: JVal, i: int)
    requires
        0 <= i,
        scalar_ok(v),
        i + print_scalar(v).len() <= s.len(),
        s.subrange(i, i + print_scalar(v).len()) == print_scalar(v),
        i + print_scalar(v).len() == s.len() || s[i + print_scalar(v).len()] == ','
            || s[i + print_scalar(v).len()] == '}',
    ensures
        parse_scalar(s, i) == Some((v, i + print_scalar(v).len())),
{
    let p = print_scalar(v);
    assert forall|k: int| 0 <= k < p.len() implies #[trigger] s[i + k] == p[k] by {
        assert(s.subrange(i, i + p.len())[k] == s[i + k]);
    }
    assert(s[i + 0] == p[0]);
    assert(s[i] == p[0]);
    match v {
        JVal::Null => {
            assert(s[i] == 'n');
            assert(s.subrange(i, i + 4) =~= seq!['n', 'u', 'l', 'l']);
        },
        JVal::Bool(b) => {
            if b {
                assert(s[i] == 't');
                assert(s.subrange(i, i + 4) =~= seq!['t', 'r', 'u', 'e']);
            } else {
                assert(s[i] == 'f');
                assert(s.subrange(i, i + 5) =~= seq!['f', 'a', 'l', 's', 'e']);
            }
        },
        JVal::Num(t) => {
            lemma_num_lit_first(t);
            assert(s[i] == t[0]);
            assert(s[i] != '"' && s[i] != 't' && s[i] != 'f' && s[i] != 'n');
            assert(!is_num_char(',') && !is_num_char('}'));
            lemma_parse_number_print(s, t, i);
        },
        JVal::Str(x) => {
            assert(p[0] == (seq!['"'] + print_str_body(x) + seq!['"'])[0]);
            assert(s[i] == '"');
            lemma_parse_string_print(s, x, i);
        },
        JVal::Arr(_) => {},
        JVal::Obj(_) => {},
    }
}

proof fn lemma_ws_end_at(s: Seq<char>, i: int)
    requires
        0 <= i <= s.len(),
        i == s.len() || !is_ws(s[i]),
    ensures
        ws_end(s, i) == i,
{
}

proof fn lemma_parse_pair_print(s: Seq<char>, k: Seq<char>, v: JVal, i: int)
    requires
        0 <= i,
        scalar_ok(v),
        i + print_field(k, v).len() <= s.len(),
        s.subrange(i, i + print_field(k, v).len()) == print_field(k, v),
        i + print_field(k, v).len() == s.len() || s[i + print_field(k, v).len()] == ',' || s[i
            + print_field(k, v).len()] == '}',
    ensures
        parse_pair(s, i) == Some(((k, v), i + print_field(k, v).len())),
{
    let p = print_field(k, v);
    let ks = print_string(k);
    let vs = print_scalar(v);
    assert(p == ks + seq![':'] + vs);
    assert(p.len() == ks.len() + 1 + vs.len());
    assert forall|q: int| 0 <= q < p.len() implies #[trigger] s[i + q] == p[q] by {
        assert(s.subrange(i, i + p.len())[q] == s[i + q]);
    }
    assert(s.subrange(i, i + ks.len()) =~= ks) by {
        assert forall|q: int| 0 <= q < ks.len() implies s.subrange(i, i + ks.len())[q]
            == ks[q] by {
            assert(s.subrange(i, i + ks.len())[q] == s[i + q]);
            assert(p[q] == (ks + seq![':'] + vs)[q]);
        }
    }
    lemma_parse_string_print(s, k, i);
    let j = i + ks.len();
    assert(s[j] == p[ks.len() as int]);
    assert(p[ks.len() as int] == (ks + seq![':'] + vs)[ks.len() as int]);
    assert(s[j] == ':');
    lemma_ws_end_at(s, j);
    let j3 = j + 1;
    assert(s.subrange(j3, j3 + vs.len()) =~= vs) by {
        assert forall|q: int| 0 <= q < vs.len() implies s.subrange(j3, j3 + vs.len())[q]
            == vs[q] by {
            assert(s.subrange(j3, j3 + vs.len())[q] == s[j3 + q]);
            assert(s[j3 + q] == p[ks.len() + 1 + q]);
            assert(p[ks.len() + 1 + q] == (ks + seq![':'] + vs)[ks.len() + 1 + q]);
        }
    }
    lemma_print_scalar_first(v);
    assert(s[j3] == vs[0]) by {
        assert(s.subrange(j3, j3 + vs.len())[0] == s[j3]);
    }
    lemma_ws_end_at(s, j3);
    lemma_parse_scalar_print(s, v, j3);
    assert(parse_pair(s, i) == Some(((k, v), i + p.len())));
}

/// The written members of a nonempty field list, from the first key through
/// the closing brace.
pub open spec fn print_members(fs: Seq<(Seq<char>, JVal)>) -> Seq<char> {
    print_field(fs[0].0, fs[0].1) + print_fields_rest(fs.drop_first()) + seq!['}']
}

/// True when every value in the field list is a printable scalar.
pub open spec fn fields_ok(fs: Seq<(Seq<char>, JVal)>) -> bool {
    forall|j: int| 0 <= j < fs.len() ==> scalar_ok(#[trigger] fs[j].1)
}

proof fn lemma_parse_members_print(s: Seq<char>, fs: Seq<(Seq<char>, JVal)>, i: int)
    requires
        0 <= i,
        fs.len() > 0,
        fields_ok(fs),
        i + print_members(fs).len() <= s.len(),
        s.subrange(i, i + print_members(fs).len()) == print_members(fs),
    ensures
        parse_members(s, i) == Some((fs, i + print_members(fs).len())),
    decreases fs.len(),
{
    let p = print_members(fs);
    let f0 = print_field(fs[0].0, fs[0].1);
    let rest = print_fields_rest(fs.drop_first());
    assert(p == f0 + rest + seq!['}']);
    assert(p.len() == f0.len() + rest.len() + 1);
    assert forall|q: int| 0 <= q < p.len() implies #[trigger] s[i + q] == p[q] by {
        assert(s.subrange(i, i + p.len())[q] == s[i + q]);
    }
    assert(s.subrange(i, i + f0.len()) =~= f0) by {
        assert forall|q: int| 0 <= q < f0.len() implies s.subrange(i, i + f0.len())[q]
            == f0[q] by {
            assert(s.subrange(i, i + f0.len())[q] == s[i + q]);
            assert(p[q] == (f0 + rest + seq!['}'])[q]);
        }
    }
    let j = i + f0.len();
    assert(s[j] == p[f0.len() as int]);
    if fs.len() == 1 {
        assert(rest.len() == 0);
        assert(p[f0.len() as int] == (f0 + rest + seq!['}'])[f0.len() as int]);
        assert(s[j] == '}');
        assert(scalar_ok(fs[0].1));
        lemma_parse_pair_print(s, fs[0].0, fs[0].1, i);
        lemma_ws_end_at(s, j);
        assert(parse_members(s, i) == Some((seq![fs[0]], j + 1)));
        assert(seq![fs[0]] =~= fs);
    } else {
        let fs1 = fs.drop_first();
        assert(fs1.len() > 0);
        assert(rest == seq![','] + print_field(fs1[0].0, fs1[0].1) + print_fields_rest(
            fs1.drop_first(),
        ));
        assert(rest.len() > 0);
        assert(rest[0] == ',');
        assert(p[f0.len() as int] == (f0 + rest + seq!['}'])[f0.len() as int]);
        assert(s[j] == ',');
        assert(scalar_ok(fs[0].1));
        lemma_parse_pair_print(s, fs[0].0, fs[0].1, i);
        lemma_ws_end_at(s, j);
        // the members text of the remaining fields starts right after the comma
        let p1 = print_members(fs1);
        assert(p1 == print_field(fs1[0].0, fs1[0].1) + print_fields_rest(fs1.drop_first())
            + seq!['}']);
        assert(p =~= f0 + seq![','] + p1);
        assert(s.subrange(j + 1, j + 1 + p1.len()) =~= p1) by {
            assert forall|q: int| 0 <= q < p1.len() implies s.subrange(
                j + 1,
                j + 1 + p1.len(),
            )[q] == p1[q] by {
                assert(s.subrange(j + 1, j + 1 + p1.len())[q] == s[j + 1 + q]);
                assert(s[j + 1 + q] == p[f0.len() + 1 + q]);
                assert(p[f0.len() + 1 + q] == (f0 + seq![','] + p1)[f0.len() + 1 + q]);
            }
        }
        assert(fields_ok(fs1)) by {
            assert(forall|q: int|
                0 <= q < fs1.len() ==> #[trigger] fs1[q].1 == fs[q + 1].1);
        }
        lemma_parse_members_print(s, fs1, j + 1);
        assert(s[j + 1] == p1[0]) by {
            assert(s.subrange(j + 1, j + 1 + p1.len())[0] == s[j + 1]);
        }
        assert(p1[0] == print_field(fs1[0].0, fs1[0].1)[0]);
        assert(print_field(fs1[0].0, fs1[0].1)[0] == '"') by {
            assert(print_field(fs1[0].0, fs1[0].1) == print_string(fs1[0].0) + seq![':']
                + print_scalar(fs1[0].1));
            assert(print_string(fs1[0].0)[0] == '"');
        }
        lemma_ws_end_at(s, j + 1);
        assert(parse_members(s, i) == Some((seq![fs[0]] + fs1, i + p.len())));
        assert(seq![fs[0]] + fs1 =~= fs);
    }
}

/// The whole written object for a nonempty field list.
pub open spec fn print_object(fs: Seq<(Seq<char>, JVal)>) -> Seq<char> {
    seq!['{'] + print_members(fs)
}

/// Reading the written object yields the field list back: the flat wire
/// form loses nothing.
pub proof fn lemma_parse_flat_print(fs: Seq<(Seq<char>, JVal)>)
    requires
        fs.len() > 0,
        fields_ok(fs),
    ensures
        parse_flat(print_object(fs)) == Some(fs),
{
    let s = print_object(fs);
    let p = print_members(fs);
    assert(s == seq!['{'] + p);
    assert(s.len() == p.len() + 1);
    assert(s[0] == '{');
    lemma_ws_end_at(s, 0);
    let f0 = print_field(fs[0].0, fs[0].1);
    assert(p[0] == f0[0]) by {
        assert(p == f0 + print_fields_rest(fs.drop_first()) + seq!['}']);
    }
    assert(f0[0] == '"') by {
        assert(f0 == print_string(fs[0].0) + seq![':'] + print_scalar(fs[0].1));
        assert(print_string(fs[0].0)[0] == '"');
    }
    assert(s[1] == p[0]);
    lemma_ws_end_at(s, 1);
    assert(s.subrange(1, 1 + p.len() as int) =~= p) by {
        assert forall|q: int| 0 <= q < p.len() implies s.subrange(1, 1 + p.len() as int)[q]
            == p[q] by {
            assert(s.subrange(1, 1 + p.len() as int)[q] == s[1 + q]);
            assert(s[1 + q] == (seq!['{'] + p)[1 + q]);
        }
    }
    lemma_parse_members_print(s, fs, 1);
    lemma_ws_end_at(s, s.len() as int);
    assert(parse_flat(s) == Some(fs));
}


// ---- writing, executably ----
fn hex_digit_exec(n: u32) -> (r: char)
    requires
        n < 16,
    ensures
        r == hex_digit(n as int),
{
    if n < 10 {
        let o = char_from_u32(0x30 + n);
        proof {
            assert(o is Some);
            assert(((0x30 + n) as char) == ((0x30 + n as int) as char));
        }
        o.unwrap()
    } else {
        let o = char_from_u32(0x61 + n - 10);
        proof {
            assert(o is Some);
            assert(((0x61 + n - 10) as char) == ((0x61 + n as int - 10) as char));
        }
        o.unwrap()
    }
}

fn esc_char_exec(c: char, out: &mut Vec<char>)
    ensures
        final(out)@ == old(out)@ + esc_char(c),
{
    if c == '"' {
        out.push('\\');
        out.push('"');
        proof {
            assert(final(out)@ =~= old(out)@ + esc_char(c));
        }
    } else if c == '\\' {
        out.push('\\');
        out.push('\\');
        proof {
            assert(final(out)@ =~= old(out)@ + esc_char(c));
        }
    } else if (c as u32) < 0x20 {
        let u = c as u32;
        proof {
            assert(u as int == c as int);
            assert(0 <= c as int && (c as int) < 0x20);
        }
        out.push('\\');
        out.push('u');
        out.push('0');
        out.push('0');
        out.push(hex_digit_exec(u / 16));
        out.push(hex_digit_exec(u % 16));
        proof {
            assert(u / 16 == (c as int) / 16 && u % 16 == (c as int) % 16);
            assert(final(out)@ =~= old(out)@ + esc_char(c));
        }
    } else {
        out.push(c);
        proof {
            assert(final(out)@ =~= old(out)@ + esc_char(c));
        }
    }
}

proof fn lemma_print_str_body_take(s: Seq<char>, i: int)
    requires
        0 <= i < s.len(),
    ensures
        print_str_body(s.take(i + 1)) == print_str_body(s.take(i)) + esc_char(s[i]),
    decreases i,
{
    if i == 0 {
        assert(s.take(1) =~= seq![s[0]]);
        assert(s.take(1).drop_first() =~= Seq::<char>::empty());
        assert(s.take(0) =~= Seq::<char>::empty());
        assert(s.take(1)[0] == s[0]);
        assert(print_str_body(s.take(1)) == esc_char(s.take(1)[0]) + print_str_body(
            s.take(1).drop_first(),
        ));
        assert(print_str_body(Seq::<char>::empty()) == Seq::<char>::empty());
        assert(esc_char(s[0]) + Seq::<char>::empty() =~= esc_char(s[0]));
        assert(print_str_body(s.take(1)) =~= esc_char(s[0]));
        assert(print_str_body(s.take(0)) + esc_char(s[0]) =~= esc_char(s[0]));
    } else {
        let s1 = s.drop_first();
        lemma_print_str_body_take(s1, i - 1);
        assert(s.take(i + 1).drop_first() =~= s1.take(i));
        assert(s.take(i).drop_first() =~= s1.take(i - 1));
        assert(s.take(i + 1)[0] == s[0]);
        assert(s.take(i)[0] == s[0]);
        assert(s1[i - 1] == s[i]);
        assert(print_str_body(s.take(i + 1)) == esc_char(s[0]) + print_str_body(s1.take(i)));
        assert(print_str_body(s.take(i)) == esc_char(s[0]) + print_str_body(s1.take(i - 1)));
        assert(esc_char(s[0]) + (print_str_body(s1.take(i - 1)) + esc_char(s1[i - 1])) =~= (
        esc_char(s[0]) + print_str_body(s1.take(i - 1))) + esc_char(s1[i - 1]));
    }
}

/// Writes one string value, quotes and escapes included.
pub fn print_string_exec(x: &str, out: &mut Vec<char>)
    ensures
        final(out)@ == old(out)@ + print_string(x@),
{
    let cs = crate::outside::chars_of(x);
    out.push('"');
    let ghost mid = out@;
    let n = cs.len();
    let mut i: usize = 0;
    while i < n
        invariant
            cs@ == x@,
            n == x@.len(),
            0 <= i <= n,
            out@ == mid + print_str_body(x@.take(i as int)),
        decreases n - i,
    {
        proof {
            assert(x@.take(0) =~= Seq::<char>::empty());
            lemma_print_str_body_take(x@, i as int);
        }
        esc_char_exec(cs[i], out);
        proof {
            assert(mid + print_str_body(x@.take(i as int)) + esc_char(x@[i as int]) =~= mid
                + (print_str_body(x@.take(i as int)) + esc_char(x@[i as int])));
        }
        i = i + 1;
    }
    proof {
        assert(x@.take(0) =~= Seq::<char>::empty());
        assert(x@.take(n as int) =~= x@);
    }
    out.push('"');
    proof {
        assert(final(out)@ =~= old(out)@ + print_string(x@));
    }
}

/// Checks that a text is a valid number literal.
fn is_num_lit_exec(t: &str) -> (r: bool)
    ensures
        r == is_num_lit(t@),
{
    let cs = crate::outside::chars_of(t);
    let n = cs.len();
    let i0: usize = if n > 0 && cs[0] == '-' {
        1
    } else {
        0
    };
    if i0 >= n {
        return false;
    }
    let c0 = cs[i0];
    if !(c0 >= '0' && c0 <= '9') {
        proof {
            assert(!is_digit(t@[i0 as int]));
        }
        return false;
    }
    let i1: usize = if c0 == '0' {
        i0 + 1
    } else {
        digits_end_exec(&cs, i0)
    };
    proof {
        lemma_digits_end(t@, i0 as int);
    }
    let i2: usize = if i1 < n && cs[i1] == '.' {
        if i1 + 1 < n && cs[i1 + 1] >= '0' && cs[i1 + 1] <= '9' {
            digits_end_exec(&cs, i1 + 1)
        } else {
            return false;
        }
    } else {
        i1
    };
    proof {
        if i1 < n && t@[i1 as int] == '.' {
            lemma_digits_end(t@, i1 as int + 1);
        }
    }
    let i3: usize = if i2 < n && (cs[i2] == 'e' || cs[i2] == 'E') {
        let j: usize = if i2 + 1 < n && (cs[i2 + 1] == '+' || cs[i2 + 1] == '-') {
            i2 + 2
        } else {
            i2 + 1
        };
        if j < n && cs[j] >= '0' && cs[j] <= '9' {
            digits_end_exec(&cs, j)
        } else {
            return false;
        }
    } else {
        i2
    };
    i3 == n
}

/// Scans past decimal digits.
fn digits_end_exec(cs: &Vec<char>, i: usize) -> (r: usize)
    requires
        i <= cs@.len(),
    ensures
        r == digits_end(cs@, i as int),
        i <= r <= cs@.len(),
{
    proof {
        lemma_digits_end(cs@, i as int);
    }
    let n = cs.len();
    let mut j = i;
    while j < n && cs[j] >= '0' && cs[j] <= '9'
        invariant
            i <= j <= n,
            n == cs@.len(),
            digits_end(cs@, i as int) == digits_end(cs@, j as int),
        decreases n - j,
    {
        j = j + 1;
    }
    j
}


// ---- reading, executably ----
fn is_ws_exec(c: char) -> (r: bool)
    ensures
        r == is_ws(c),
{
    c == ' ' || c == '\n' || c == '\r' || c == '\t'
}

fn ws_end_exec(cs: &Vec<char>, i: usize) -> (r: usize)
    requires
        i <= cs@.len(),
    ensures
        r == ws_end(cs@, i as int),
        i <= r <= cs@.len(),
{
    proof {
        lemma_ws_end(cs@, i as int);
    }
    let n = cs.len();
    let mut j = i;
    while j < n && is_ws_exec(cs[j])
        invariant
            i <= j <= n,
            n == cs@.len(),
            ws_end(cs@, i as int) == ws_end(cs@, j as int),
        decreases n - j,
    {
        j = j + 1;
    }
    j
}

fn is_num_char_exec(c: char) -> (r: bool)
    ensures
        r == is_num_char(c),
{
    (c >= '0' && c <= '9') || c == '-' || c == '+' || c == '.' || c == 'e' || c == 'E'
}

fn num_end_exec(cs: &Vec<char>, i: usize) -> (r: usize)
    requires
        i <= cs@.len(),
    ensures
        r == num_end(cs@, i as int),
        i <= r <= cs@.len(),
{
    proof {
        lemma_num_end(cs@, i as int);
    }
    let n = cs.len();
    let mut j = i;
    while j < n && is_num_char_exec(cs[j])
        invariant
            i <= j <= n,
            n == cs@.len(),
            num_end(cs@, i as int) == num_end(cs@, j as int),
        decreases n - j,
    {
        j = j + 1;
    }
    j
}

fn hex_val_exec(c: char) -> (r: Option<u32>)
    ensures
        match r {
            Some(h) => hex_val(c) == h as int && h < 16,
            None => hex_val(c) < 0,
        },
{
    if c >= '0' && c <= '9' {
        Some(c as u32 - 0x30)
    } else if c >= 'a' && c <= 'f' {
        Some(c as u32 - 0x61 + 10)
    } else if c >= 'A' && c <= 'F' {
        Some(c as u32 - 0x41 + 10)
    } else {
        None
    }
}

/// Reads a string's content from inside the quotes through the closing quote.
fn parse_str_body_exec(cs: &Vec<char>, start: usize) -> (r: Option<(Vec<char>, usize)>)
    requires
        start <= cs@.len(),
    ensures
        match r {
            Some(p) => parse_str_body(cs@, start as int) == Some((p.0@, p.1 as int)) && p.1
                <= cs@.len(),
            None => parse_str_body(cs@, start as int) is None,
        },
{
    let n = cs.len();
    let mut i = start;
    let mut acc: Vec<char> = Vec::new();
    proof {
        assert(acc@ + Seq::<char>::empty() =~= Seq::<char>::empty());
    }
    loop
        invariant
            i <= n,
            n == cs@.len(),
            match parse_str_body(cs@, i as int) {
                Some(p) => parse_str_body(cs@, start as int) == Some((acc@ + p.0, p.1)),
                None => parse_str_body(cs@, start as int) is None,
            },
        decreases n - i,
    {
        if i >= n {
            return None;
        }
        let c = cs[i];
        if c == '"' {
            proof {
                assert(parse_str_body(cs@, i as int) == Some(
                    (Seq::<char>::empty(), i as int + 1),
                ));
                assert(acc@ + Seq::<char>::empty() =~= acc@);
            }
            return Some((acc, i + 1));
        } else if c == '\\' {
            if i + 1 >= n {
                return None;
            }
            let e = cs[i + 1];
            if e == 'u' {
                if n - i < 6 {
                    return None;
                }
                let h0 = hex_val_exec(cs[i + 2]);
                let h1 = hex_val_exec(cs[i + 3]);
                let h2 = hex_val_exec(cs[i + 4]);
                let h3 = hex_val_exec(cs[i + 5]);
                match (h0, h1, h2, h3) {
                    (Some(a), Some(b), Some(cc), Some(d)) => {
                        let h: u32 = a * 4096 + b * 256 + cc * 16 + d;
                        proof {
                            assert(h as int == hex4_val(cs@, i as int + 2));
                        }
                        if 0xD800 <= h && h < 0xE000 {
                            return None;
                        }
                        let oc = char_from_u32(h);
                        proof {
                            assert(oc is Some);
                        }
                        let ghost old_acc = acc@;
                        acc.push(oc.unwrap());
                        proof {
                            assert(acc@ == old_acc + seq![((h as int) as char)]);
                            assert forall|p0: Seq<char>|
                                true implies old_acc + (seq![((h as int) as char)] + p0) =~= acc@
                                + p0 by {}
                        }
                        i = i + 6;
                    },
                    _ => {
                        return None;
                    },
                }
            } else {
                let uc: char = if e == '"' {
                    '"'
                } else if e == '\\' {
                    '\\'
                } else if e == '/' {
                    '/'
                } else if e == 'b' {
                    let o = char_from_u32(0x08);
                    proof {
                        assert(o is Some);
                        assert(((0x08 as u32) as char) == (0x08 as char));
                    }
                    o.unwrap()
                } else if e == 'f' {
                    let o = char_from_u32(0x0C);
                    proof {
                        assert(o is Some);
                        assert(((0x0C as u32) as char) == (0x0C as char));
                    }
                    o.unwrap()
                } else if e == 'n' {
                    '\n'
                } else if e == 'r' {
                    '\r'
                } else if e == 't' {
                    '\t'
                } else {
                    return None;
                };
                proof {
                    assert(unescape_char(e) == Some(uc));
                }
                let ghost old_acc = acc@;
                acc.push(uc);
                proof {
                    assert forall|p0: Seq<char>| true implies old_acc + (seq![uc] + p0) =~= acc@
                        + p0 by {}
                }
                i = i + 2;
            }
        } else {
            let ghost old_acc = acc@;
            acc.push(c);
            proof {
                assert forall|p0: Seq<char>| true implies old_acc + (seq![c] + p0) =~= acc@
                    + p0 by {}
            }
            i = i + 1;
        }
    }
}

/// Reads a quoted string at `i`.
fn parse_string_exec(cs: &Vec<char>, i: usize) -> (r: Option<(Vec<char>, usize)>)
    requires
        i <= cs@.len(),
    ensures
        match r {
            Some(p) => parse_string(cs@, i as int) == Some((p.0@, p.1 as int)) && p.1
                <= cs@.len(),
            None => parse_string(cs@, i as int) is None,
        },
{
    if i < cs.len() && cs[i] == '"' {
        parse_str_body_exec(cs, i + 1)
    } else {
        None
    }
}

/// Reads a number literal at `i`.
fn parse_number_exec(cs: &Vec<char>, i: usize) -> (r: Option<(String, usize)>)
    requires
        i <= cs@.len(),
    ensures
        match r {
            Some(p) => parse_number(cs@, i as int) == Some((p.0@, p.1 as int)) && p.1
                <= cs@.len(),
            None => parse_number(cs@, i as int) is None,
        },
{
    let e = num_end_exec(cs, i);
    let mut t: Vec<char> = Vec::new();
    let mut k = i;
    while k < e
        invariant
            i <= k <= e <= cs@.len(),
            t@ == cs@.subrange(i as int, k as int),
        decreases e - k,
    {
        t.push(cs[k]);
        proof {
            assert(cs@.subrange(i as int, k as int).push(cs@[k as int]) =~= cs@.subrange(
                i as int,
                k as int + 1,
            ));
        }
        k = k + 1;
    }
    proof {
        assert(cs@.subrange(i as int, i as int) =~= Seq::<char>::empty());
    }
    let ts = crate::outside::string_from_chars(&t);
    if is_num_lit_exec(ts.as_str()) {
        Some((ts, e))
    } else {
        None
    }
}

/// Reads one scalar value at `i`.
fn parse_scalar_exec(cs: &Vec<char>, i: usize) -> (r: Option<(JsonValue, usize)>)
    requires
        i <= cs@.len(),
    ensures
        match r {
            Some(p) => parse_scalar(cs@, i as int) == Some((p.0@, p.1 as int)) && p.1
                <= cs@.len(),
            None => parse_scalar(cs@, i as int) is None,
        },
{
    let n = cs.len();
    if i >= n {
        return None;
    }
    let c = cs[i];
    if c == '"' {
        match parse_string_exec(cs, i) {
            Some((v, j)) => Some((JsonValue::Str(crate::outside::string_from_chars(&v)), j)),
            None => None,
        }
    } else if c == 't' {
        if n - i >= 4 && cs[i + 1] == 'r' && cs[i + 2] == 'u' && cs[i + 3] == 'e' {
            proof {
                assert(cs@.subrange(i as int, i as int + 4) =~= seq!['t', 'r', 'u', 'e']);
            }
            Some((JsonValue::Bool(true), i + 4))
        } else {
            proof {
                if i as int + 4 <= n {
                    let sub = cs@.subrange(i as int, i as int + 4);
                    assert(sub[0] == cs@[i as int]);
                    assert(sub[1] == cs@[i as int + 1]);
                    assert(sub[2] == cs@[i as int + 2]);
                    assert(sub[3] == cs@[i as int + 3]);
                    assert(sub != seq!['t', 'r', 'u', 'e']);
                }
            }
            None
        }
    } else if c == 'f' {
        if n - i >= 5 && cs[i + 1] == 'a' && cs[i + 2] == 'l' && cs[i + 3] == 's' && cs[i + 4]
            == 'e' {
            proof {
                assert(cs@.subrange(i as int, i as int + 5) =~= seq!['f', 'a', 'l', 's', 'e']);
            }
            Some((JsonValue::Bool(false), i + 5))
        } else {
            proof {
                if i as int + 5 <= n {
                    let sub = cs@.subrange(i as int, i as int + 5);
                    assert(sub[0] == cs@[i as int]);
                    assert(sub[1] == cs@[i as int + 1]);
                    assert(sub[2] == cs@[i as int + 2]);
                    assert(sub[3] == cs@[i as int + 3]);
                    assert(sub[4] == cs@[i as int + 4]);
                    assert(sub != seq!['f', 'a', 'l', 's', 'e']);
                }
            }
            None
        }
    } else if c == 'n' {
        if n - i >= 4 && cs[i + 1] == 'u' && cs[i + 2] == 'l' && cs[i + 3] == 'l' {
            proof {
                assert(cs@.subrange(i as int, i as int + 4) =~= seq!['n', 'u', 'l', 'l']);
            }
            Some((JsonValue::Null, i + 4))
        } else {
            proof {
                if i as int + 4 <= n {
                    let sub = cs@.subrange(i as int, i as int + 4);
                    assert(sub[0] == cs@[i as int]);
                    assert(sub[1] == cs@[i as int + 1]);
                    assert(sub[2] == cs@[i as int + 2]);
                    assert(sub[3] == cs@[i as int + 3]);
                    assert(sub != seq!['n', 'u', 'l', 'l']);
                }
            }
            None
        }
    } else if c == '-' || (c >= '0' && c <= '9') {
        proof {
            assert(c == '-' || is_digit(c));
        }
        match parse_number_exec(cs, i) {
            Some((t, j)) => Some((JsonValue::Number(t), j)),
            None => None,
        }
    } else {
        proof {
            assert(!is_digit(cs@[i as int]));
        }
        None
    }
}

/// Reads one `"key": value` member whose key starts at `i`.
fn parse_pair_exec(cs: &Vec<char>, i: usize) -> (r: Option<((String, JsonValue), usize)>)
    requires
        i <= cs@.len(),
    ensures
        match r {
            Some(p) => parse_pair(cs@, i as int) == Some(((p.0.0@, p.0.1@), p.1 as int)) && p.1
                <= cs@.len(),
            None => parse_pair(cs@, i as int) is None,
        },
{
    match parse_string_exec(cs, i) {
        None => None,
        Some((kv, j)) => {
            let j2 = ws_end_exec(cs, j);
            if j2 < cs.len() && cs[j2] == ':' {
                let j3 = ws_end_exec(cs, j2 + 1);
                match parse_scalar_exec(cs, j3) {
                    Some((v, j4)) => Some(
                        ((crate::outside::string_from_chars(&kv), v), j4),
                    ),
                    None => None,
                }
            } else {
                None
            }
        },
    }
}

/// Reads the members of an object from the first key through the closing
/// brace.
fn parse_members_exec(cs: &Vec<char>, start: usize) -> (r: Option<
    (Vec<(String, JsonValue)>, usize),
>)
    requires
        start <= cs@.len(),
    ensures
        match r {
            Some(p) => parse_members(cs@, start as int) == Some(
                (crate::json::fields_view(p.0@), p.1 as int),
            ) && p.1 <= cs@.len(),
            None => parse_members(cs@, start as int) is None,
        },
{
    let n = cs.len();
    let mut i = start;
    let mut acc: Vec<(String, JsonValue)> = Vec::new();
    loop
        invariant
            i <= n,
            n == cs@.len(),
            match parse_members(cs@, i as int) {
                Some(p) => parse_members(cs@, start as int) == Some(
                    (crate::json::fields_view(acc@) + p.0, p.1),
                ),
                None => parse_members(cs@, start as int) is None,
            },
        decreases n - i,
    {
        proof {
            crate::json::lemma_fields_view_index(acc@);
        }
        match parse_pair_exec(cs, i) {
            None => {
                return None;
            },
            Some((kv, j)) => {
                let ghost kvv = (kv.0@, kv.1@);
                let j2 = ws_end_exec(cs, j);
                proof {
                    lemma_parse_pair_advances(cs@, i as int);
                }
                if j2 < n && cs[j2] == ',' {
                    let j3 = ws_end_exec(cs, j2 + 1);
                    let ghost old_acc = acc@;
                    acc.push(kv);
                    proof {
                        crate::json::lemma_fields_view_index(acc@);
                        crate::json::lemma_fields_view_index(old_acc);
                        assert(crate::json::fields_view(acc@) =~= crate::json::fields_view(
                            old_acc,
                        ) + seq![kvv]);
                        assert forall|q0: Seq<(Seq<char>, JVal)>|
                            true implies crate::json::fields_view(old_acc) + (seq![kvv] + q0)
                            =~= crate::json::fields_view(acc@) + q0 by {}
                    }
                    i = j3;
                } else if j2 < n && cs[j2] == '}' {
                    let ghost old_acc = acc@;
                    acc.push(kv);
                    proof {
                        crate::json::lemma_fields_view_index(acc@);
                        crate::json::lemma_fields_view_index(old_acc);
                        assert(crate::json::fields_view(acc@) =~= crate::json::fields_view(
                            old_acc,
                        ) + seq![kvv]);
                        assert(parse_members(cs@, i as int) == Some((seq![kvv], j2 as int + 1)));
                    }
                    return Some((acc, j2 + 1));
                } else {
                    return None;
                }
            },
        }
    }
}

/// Reads one whole flat object starting at or after `i`.
fn parse_object_exec(cs: &Vec<char>, i: usize) -> (r: Option<
    (Vec<(String, JsonValue)>, usize),
>)
    requires
        i <= cs@.len(),
    ensures
        match r {
            Some(p) => parse_object(cs@, i as int) == Some(
                (crate::json::fields_view(p.0@), p.1 as int),
            ) && p.1 <= cs@.len(),
            None => parse_object(cs@, i as int) is None,
        },
{
    let a = ws_end_exec(cs, i);
    if a < cs.len() && cs[a] == '{' {
        let b = ws_end_exec(cs, a + 1);
        if b < cs.len() && cs[b] == '}' {
            let out: Vec<(String, JsonValue)> = Vec::new();
            proof {
                assert(crate::json::fields_view(out@) =~= Seq::<(Seq<char>, JVal)>::empty());
            }
            Some((out, b + 1))
        } else {
            proof {
                lemma_parse_members_advances(cs@, b as int);
            }
            parse_members_exec(cs, b)
        }
    } else {
        None
    }
}

/// Reads a whole text as one flat object: nothing but whitespace may follow.
pub fn parse_flat_exec(s: &str) -> (r: Option<Vec<(String, JsonValue)>>)
    ensures
        match r {
            Some(v) => parse_flat(s@) == Some(crate::json::fields_view(v@)),
            None => parse_flat(s@) is None,
        },
{
    let cs = crate::outside::chars_of(s);
    match parse_object_exec(&cs, 0) {
        None => None,
        Some((fs, j)) => {
            let e = ws_end_exec(&cs, j);
            if e == cs.len() {
                Some(fs)
            } else {
                None
            }
        },
    }
}


// ---- the batch shape: one object holding an array of flat objects ----
/// Reads flat objects, comma-separated, through the closing bracket.
pub open spec fn parse_obj_list(s: Seq<char>, i: int) -> Option<(Seq<WireFields>, int)>
    decreases s.len() - i via parse_obj_list_decreases
{
    match parse_object(s, i) {
        None => None,
        Some(p) => {
            let j2 = ws_end(s, p.1);
            if j2 < s.len() && s[j2] == ',' {
                match parse_obj_list(s, j2 + 1) {
                    Some(q) => Some((seq![p.0] + q.0, q.1)),
                    None => None,
                }
            } else if j2 < s.len() && s[j2] == ']' {
                Some((seq![p.0], j2 + 1))
            } else {
                None
            }
        },
    }
}

#[via_fn]
proof fn parse_obj_list_decreases(s: Seq<char>, i: int) {
    lemma_parse_object_advances(s, i);
    match parse_object(s, i) {
        None => {},
        Some(p) => {
            lemma_ws_end(s, p.1);
        },
    }
}

proof fn lemma_parse_obj_list_advances(s: Seq<char>, i: int)
    ensures
        parse_obj_list(s, i) matches Some(p) ==> i < p.1 <= s.len() && 0 <= i,
    decreases s.len() - i,
{
    lemma_parse_object_advances(s, i);
    match parse_object(s, i) {
        None => {},
        Some(p) => {
            lemma_ws_end(s, p.1);
            let j2 = ws_end(s, p.1);
            if j2 < s.len() && s[j2] == ',' {
                lemma_parse_obj_list_advances(s, j2 + 1);
            }
        },
    }
}

/// Reads one member's value: the keyed member holds the array of flat
/// objects, any other member holds a scalar that is read and dropped.
pub open spec fn parse_member_value(s: Seq<char>, i: int, keyed: bool) -> Option<
    (Option<Seq<WireFields>>, int),
> {
    if keyed {
        if 0 <= i && i < s.len() && s[i] == '[' {
            let j = ws_end(s, i + 1);
            if j < s.len() && s[j] == ']' {
                Some((Some(Seq::empty()), j + 1))
            } else {
                match parse_obj_list(s, i + 1) {
                    Some(q) => Some((Some(q.0), q.1)),
                    None => None,
                }
            }
        } else {
            None
        }
    } else {
        match parse_scalar(s, i) {
            Some(v) => Some((None, v.1)),
            None => None,
        }
    }
}

proof fn lemma_parse_member_value_advances(s: Seq<char>, i: int, keyed: bool)
    ensures
        parse_member_value(s, i, keyed) matches Some(p) ==> i < p.1 <= s.len() && 0 <= i,
{
    if keyed {
        if 0 <= i && i < s.len() && s[i] == '[' {
            lemma_ws_end(s, i + 1);
            lemma_parse_obj_list_advances(s, i + 1);
        }
    } else {
        lemma_parse_scalar_advances(s, i);
    }
}

/// Reads an object's members looking for the member named `key`, whose value
/// must be an array of flat objects; every other member must hold a scalar,
/// which is ignored. A repeated `key` member is refused.
pub open spec fn parse_batch_members(s: Seq<char>, i: int, key: Seq<char>) -> Option<
    (Option<Seq<WireFields>>, int),
>
    decreases s.len() - i via parse_batch_members_decreases
{
    match parse_string(s, i) {
        None => None,
        Some(k) => {
            let j2 = ws_end(s, k.1);
            if j2 < s.len() && s[j2] == ':' {
                let j3 = ws_end(s, j2 + 1);
                match parse_member_value(s, j3, k.0 == key) {
                    None => None,
                    Some(fv) => {
                        let j5 = ws_end(s, fv.1);
                        if j5 < s.len() && s[j5] == ',' {
                            match parse_batch_members(s, ws_end(s, j5 + 1), key) {
                                None => None,
                                Some(rest) => {
                                    if fv.0 is Some && rest.0 is Some {
                                        None
                                    } else if fv.0 is Some {
                                        Some((fv.0, rest.1))
                                    } else {
                                        Some((rest.0, rest.1))
                                    }
                                },
                            }
                        } else if j5 < s.len() && s[j5] == '}' {
                            Some((fv.0, j5 + 1))
                        } else {
                            None
                        }
                    },
                }
            } else {
                None
            }
        },
    }
}

#[via_fn]
proof fn parse_batch_members_decreases(s: Seq<char>, i: int, key: Seq<char>) {
    lemma_parse_string_advances(s, i);
    match parse_string(s, i) {
        None => {},
        Some(k) => {
            lemma_ws_end(s, k.1);
            let j2 = ws_end(s, k.1);
            if j2 < s.len() && s[j2] == ':' {
                lemma_ws_end(s, j2 + 1);
                let j3 = ws_end(s, j2 + 1);
                lemma_parse_member_value_advances(s, j3, k.0 == key);
                match parse_member_value(s, j3, k.0 == key) {
                    None => {},
                    Some(fv) => {
                        lemma_ws_end(s, fv.1);
                        let j5 = ws_end(s, fv.1);
                        if j5 < s.len() && s[j5] == ',' {
                            lemma_ws_end(s, j5 + 1);
                        }
                    },
                }
            }
        },
    }
}

/// Reads a whole text as one object that holds, under `key`, an array of
/// flat objects; nothing but whitespace may follow. Members other than `key`
/// are read and ignored; the `key` member is required.
pub open spec fn parse_keyed_array(s: Seq<char>, key: Seq<char>) -> Option<Seq<WireFields>> {
    let a = ws_end(s, 0);
    if a < s.len() && s[a] == '{' {
        let b = ws_end(s, a + 1);
        match parse_batch_members(s, b, key) {
            Some(p) => {
                if p.0 is Some && ws_end(s, p.1) == s.len() {
                    p.0
                } else {
                    None
                }
            },
            None => None,
        }
    } else {
        None
    }
}

/// The models of a row of parsed objects.
pub open spec fn objs_view(vs: Seq<Vec<(String, JsonValue)>>) -> Seq<WireFields> {
    Seq::new(vs.len(), |i: int| crate::json::fields_view(vs[i]@))
}

fn parse_obj_list_exec(cs: &Vec<char>, start: usize) -> (r: Option<
    (Vec<Vec<(String, JsonValue)>>, usize),
>)
    requires
        start <= cs@.len(),
    ensures
        match r {
            Some(p) => parse_obj_list(cs@, start as int) == Some(
                (objs_view(p.0@), p.1 as int),
            ) && p.1 <= cs@.len(),
            None => parse_obj_list(cs@, start as int) is None,
        },
{
    let n = cs.len();
    let mut i = start;
    let mut acc: Vec<Vec<(String, JsonValue)>> = Vec::new();
    loop
        invariant
            i <= n,
            n == cs@.len(),
            match parse_obj_list(cs@, i as int) {
                Some(p) => parse_obj_list(cs@, start as int) == Some(
                    (objs_view(acc@) + p.0, p.1),
                ),
                None => parse_obj_list(cs@, start as int) is None,
            },
        decreases n - i,
    {
        match parse_object_exec(cs, i) {
            None => {
                return None;
            },
            Some((fs, j)) => {
                let ghost fsv = crate::json::fields_view(fs@);
                proof {
                    lemma_parse_object_advances(cs@, i as int);
                }
                let j2 = ws_end_exec(cs, j);
                if j2 < n && cs[j2] == ',' {
                    let ghost old_acc = acc@;
                    acc.push(fs);
                    proof {
                        assert(objs_view(acc@) =~= objs_view(old_acc) + seq![fsv]);
                        assert forall|q0: Seq<WireFields>| true implies objs_view(old_acc) + (
                        seq![fsv] + q0) =~= objs_view(acc@) + q0 by {}
                    }
                    i = j2 + 1;
                } else if j2 < n && cs[j2] == ']' {
                    let ghost old_acc = acc@;
                    acc.push(fs);
                    proof {
                        assert(objs_view(acc@) =~= objs_view(old_acc) + seq![fsv]);
                        assert(parse_obj_list(cs@, i as int) == Some(
                            (seq![fsv], j2 as int + 1),
                        ));
                    }
                    return Some((acc, j2 + 1));
                } else {
                    return None;
                }
            },
        }
    }
}

fn parse_member_value_exec(cs: &Vec<char>, i: usize, keyed: bool) -> (r: Option<
    (Option<Vec<Vec<(String, JsonValue)>>>, usize),
>)
    requires
        i <= cs@.len(),
    ensures
        match r {
            Some(p) => {
                &&& p.1 <= cs@.len()
                &&& match p.0 {
                    Some(vs) => parse_member_value(cs@, i as int, keyed) == Some(
                        (Some(objs_view(vs@)), p.1 as int),
                    ),
                    None => parse_member_value(cs@, i as int, keyed) == Some(
                        (None::<Seq<WireFields>>, p.1 as int),
                    ),
                }
            },
            None => parse_member_value(cs@, i as int, keyed) is None,
        },
{
    if keyed {
        if i < cs.len() && cs[i] == '[' {
            let j = ws_end_exec(cs, i + 1);
            if j < cs.len() && cs[j] == ']' {
                let out: Vec<Vec<(String, JsonValue)>> = Vec::new();
                proof {
                    assert(objs_view(out@) =~= Seq::<WireFields>::empty());
                }
                Some((Some(out), j + 1))
            } else {
                match parse_obj_list_exec(cs, i + 1) {
                    Some((vs, j4)) => Some((Some(vs), j4)),
                    None => None,
                }
            }
        } else {
            None
        }
    } else {
        match parse_scalar_exec(cs, i) {
            Some((_v, j)) => Some((None, j)),
            None => None,
        }
    }
}

fn parse_batch_members_exec(cs: &Vec<char>, start: usize, key: &String) -> (r: Option<
    (Option<Vec<Vec<(String, JsonValue)>>>, usize),
>)
    requires
        start <= cs@.len(),
    ensures
        match r {
            Some(p) => {
                &&& p.1 <= cs@.len()
                &&& match p.0 {
                    Some(vs) => parse_batch_members(cs@, start as int, key@) == Some(
                        (Some(objs_view(vs@)), p.1 as int),
                    ),
                    None => parse_batch_members(cs@, start as int, key@) == Some(
                        (None::<Seq<WireFields>>, p.1 as int),
                    ),
                }
            },
            None => parse_batch_members(cs@, start as int, key@) is None,
        },
    decreases cs@.len() - start,
{
    match parse_string_exec(cs, start) {
        None => None,
        Some((kv, j)) => {
            let j2 = ws_end_exec(cs, j);
            if j2 < cs.len() && cs[j2] == ':' {
                let j3 = ws_end_exec(cs, j2 + 1);
                let ks = crate::outside::string_from_chars(&kv);
                let keyed = ks.eq(key);
                match parse_member_value_exec(cs, j3, keyed) {
                    None => None,
                    Some((found, j4)) => {
                        let j5 = ws_end_exec(cs, j4);
                        proof {
                            lemma_parse_string_advances(cs@, start as int);
                            lemma_ws_end(cs@, j as int);
                            lemma_ws_end(cs@, j2 as int + 1);
                            lemma_parse_member_value_advances(cs@, j3 as int, keyed);
                            lemma_ws_end(cs@, j4 as int);
                        }
                        if j5 < cs.len() && cs[j5] == ',' {
                            let j6 = ws_end_exec(cs, j5 + 1);
                            proof {
                                lemma_ws_end(cs@, j5 as int + 1);
                            }
                            match parse_batch_members_exec(cs, j6, key) {
                                None => None,
                                Some((rest, end)) => match (found, rest) {
                                    (Some(_), Some(_)) => None,
                                    (Some(vs), None) => Some((Some(vs), end)),
                                    (None, rest2) => Some((rest2, end)),
                                },
                            }
                        } else if j5 < cs.len() && cs[j5] == '}' {
                            Some((found, j5 + 1))
                        } else {
                            None
                        }
                    },
                }
            } else {
                None
            }
        },
    }
}

/// Reads a whole text as one object holding, under `key`, an array of flat
/// objects.
pub fn parse_keyed_array_exec(s: &str, key: &String) -> (r: Option<
    Vec<Vec<(String, JsonValue)>>,
>)
    ensures
        match r {
            Some(vs) => parse_keyed_array(s@, key@) == Some(objs_view(vs@)),
            None => parse_keyed_array(s@, key@) is None,
        },
{
    let cs = crate::outside::chars_of(s);
    let a = ws_end_exec(&cs, 0);
    if a < cs.len() && cs[a] == '{' {
        let b = ws_end_exec(&cs, a + 1);
        match parse_batch_members_exec(&cs, b, key) {
            Some((Some(vs), j)) => {
                let e = ws_end_exec(&cs, j);
                if e == cs.len() {
                    Some(vs)
                } else {
                    None
                }
            },
            _ => None,
        }
    } else {
        None
    }
}


// ---- writing scalars and fields, executably ----
/// Checks that a value is a scalar the flat form can hold.
pub fn scalar_ok_exec(v: &JsonValue) -> (r: bool)
    ensures
        r == scalar_ok(v@),
{
    match v {
        JsonValue::Null => true,
        JsonValue::Bool(_) => true,
        JsonValue::Number(t) => is_num_lit_exec(t.as_str()),
        JsonValue::Str(_) => true,
        JsonValue::Array(_) => false,
        JsonValue::Object(_) => false,
    }
}

/// Writes one scalar value.
pub fn print_scalar_exec(v: &JsonValue, out: &mut Vec<char>)
    requires
        scalar_ok(v@),
    ensures
        final(out)@ == old(out)@ + print_scalar(v@),
{
    match v {
        JsonValue::Null => {
            out.push('n');
            out.push('u');
            out.push('l');
            out.push('l');
            proof {
                assert(final(out)@ =~= old(out)@ + print_scalar(v@));
            }
        },
        JsonValue::Bool(b) => {
            if *b {
                out.push('t');
                out.push('r');
                out.push('u');
                out.push('e');
            } else {
                out.push('f');
                out.push('a');
                out.push('l');
                out.push('s');
                out.push('e');
            }
            proof {
                assert(final(out)@ =~= old(out)@ + print_scalar(v@));
            }
        },
        JsonValue::Number(t) => {
            let cs = crate::outside::chars_of(t.as_str());
            let n = cs.len();
            let mut i: usize = 0;
            while i < n
                invariant
                    cs@ == t@,
                    n == t@.len(),
                    0 <= i <= n,
                    out@ == old(out)@ + t@.take(i as int),
                decreases n - i,
            {
                out.push(cs[i]);
                proof {
                    assert((old(out)@ + t@.take(i as int)).push(t@[i as int]) =~= old(out)@
                        + t@.take(i as int + 1));
                }
                i = i + 1;
            }
            proof {
                assert(t@.take(0) =~= Seq::<char>::empty());
                assert(old(out)@ + t@.take(0) =~= old(out)@);
                assert(t@.take(n as int) =~= t@);
            }
        },
        JsonValue::Str(x) => {
            print_string_exec(x.as_str(), out);
        },
        JsonValue::Array(_) => {
            proof {
                assert(false);
            }
        },
        JsonValue::Object(_) => {
            proof {
                assert(false);
            }
        },
    }
}

/// Writes one field: the quoted key, a colon, the scalar value.
pub fn print_field_exec(k: &str, v: &JsonValue, out: &mut Vec<char>)
    requires
        scalar_ok(v@),
    ensures
        final(out)@ == old(out)@ + print_field(k@, v@),
{
    print_string_exec(k, out);
    out.push(':');
    print_scalar_exec(v, out);
    proof {
        assert(final(out)@ =~= old(out)@ + print_field(k@, v@));
    }
}

/// Appending a field to the list appends its written form.
pub proof fn lemma_print_fields_rest_take(fs: Seq<(Seq<char>, JVal)>, i: int)
    requires
        0 <= i < fs.len(),
    ensures
        print_fields_rest(fs.take(i + 1)) == print_fields_rest(fs.take(i)) + (seq![',']
            + print_field(fs[i].0, fs[i].1)),
    decreases i,
{
    if i == 0 {
        assert(fs.take(1) =~= seq![fs[0]]);
        assert(fs.take(1).drop_first() =~= Seq::<(Seq<char>, JVal)>::empty());
        assert(fs.take(0) =~= Seq::<(Seq<char>, JVal)>::empty());
        assert(fs.take(1)[0] == fs[0]);
        assert(print_fields_rest(fs.take(1)) == seq![','] + print_field(fs[0].0, fs[0].1)
            + print_fields_rest(fs.take(1).drop_first()));
        assert(print_fields_rest(Seq::<(Seq<char>, JVal)>::empty())
            == Seq::<char>::empty());
        assert(print_fields_rest(fs.take(1)) =~= print_fields_rest(fs.take(0)) + (seq![',']
            + print_field(fs[0].0, fs[0].1)));
    } else {
        let fs1 = fs.drop_first();
        lemma_print_fields_rest_take(fs1, i - 1);
        assert(fs.take(i + 1).drop_first() =~= fs1.take(i));
        assert(fs.take(i).drop_first() =~= fs1.take(i - 1));
        assert(fs.take(i + 1)[0] == fs[0]);
        assert(fs.take(i)[0] == fs[0]);
        assert(fs1[i - 1] == fs[i]);
        let head = seq![','] + print_field(fs[0].0, fs[0].1);
        assert(print_fields_rest(fs.take(i + 1)) == head + print_fields_rest(fs1.take(i)));
        assert(print_fields_rest(fs.take(i)) == head + print_fields_rest(fs1.take(i - 1)));
        assert(head + (print_fields_rest(fs1.take(i - 1)) + (seq![','] + print_field(
            fs[i].0,
            fs[i].1,
        ))) =~= (head + print_fields_rest(fs1.take(i - 1))) + (seq![','] + print_field(
            fs[i].0,
            fs[i].1,
        )));
    }
}

} // verus!
