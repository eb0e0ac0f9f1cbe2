//! A lenient reader for flat JSON objects, and the writer of JSON string literals.
//!
//! The reader walks the entries of one object in order and stops at the first place
//! where the text is not an entry. Fields it does not know, nested values and
//! trailing rubbish never make a message unreadable: a field is found if the entries
//! up to it are well formed.
use vstd::prelude::*;
use vstd::utf8::*;
use crate::text::{bytes_eq, chars_of, decode_scalar};

verus! {

pub const QUOTE: u8 = 0x22;

pub const BACKSLASH: u8 = 0x5c;

pub const COMMA: u8 = 0x2c;

pub const COLON: u8 = 0x3a;

pub const BRACE_OPEN: u8 = 0x7b;

pub const BRACE_CLOSE: u8 = 0x7d;

pub const BRACKET_OPEN: u8 = 0x5b;

pub const BRACKET_CLOSE: u8 = 0x5d;

// ---------- what the entries of an object are ----------

/// JSON white space.
pub open spec fn is_ws(b: u8) -> bool {
    b == 0x20 || b == 0x09 || b == 0x0d || b == 0x0a
}

/// The first position from `i` on that holds no white space.
pub open spec fn past_ws(s: Seq<u8>, i: int) -> Option<int>
    decreases s.len() - i,
{
    if i >= s.len() {
        None
    } else if is_ws(s[i]) {
        past_ws(s, i + 1)
    } else {
        Some(i)
    }
}

/// The position of the quote that closes a string whose inner bytes start at `j`. A
/// backslash takes the byte after it along.
pub open spec fn closing_quote(s: Seq<u8>, j: int) -> Option<int>
    decreases s.len() - j,
{
    if j >= s.len() {
        None
    } else if s[j] == BACKSLASH {
        if j + 2 <= s.len() {
            closing_quote(s, j + 2)
        } else {
            None
        }
    } else if s[j] == QUOTE {
        Some(j)
    } else {
        closing_quote(s, j + 1)
    }
}

/// The end of a nested object or array, from `j` on at nesting `depth`: brackets of
/// the given kind are matched, those inside strings do not count.
pub open spec fn nested_end(s: Seq<u8>, j: int, open: u8, close: u8, depth: int) -> Option<int>
    decreases s.len() - j,
{
    if j >= s.len() {
        None
    } else if s[j] == QUOTE {
        match closing_quote(s, j + 1) {
            Some(q) => if j < q < s.len() {
                nested_end(s, q + 1, open, close, depth)
            } else {
                None
            },
            None => None,
        }
    } else if s[j] == open {
        nested_end(s, j + 1, open, close, depth + 1)
    } else if s[j] == close {
        if depth == 1 {
            Some(j + 1)
        } else {
            nested_end(s, j + 1, open, close, depth - 1)
        }
    } else {
        nested_end(s, j + 1, open, close, depth)
    }
}

/// A byte that can stand in a number.
pub open spec fn is_number_byte(b: u8) -> bool {
    (0x30 <= b <= 0x39) || b == 0x2d || b == 0x2b || b == 0x2e || b == 0x65 || b == 0x45
}

/// The end of the longest run of number bytes from `j` on.
pub open spec fn number_end(s: Seq<u8>, j: int) -> int
    decreases s.len() - j,
{
    if j < s.len() && is_number_byte(s[j]) {
        number_end(s, j + 1)
    } else {
        j
    }
}

/// `true`, `false` and `null` as bytes.
pub open spec fn true_bytes() -> Seq<u8> {
    seq![0x74u8, 0x72u8, 0x75u8, 0x65u8]
}

pub open spec fn false_bytes() -> Seq<u8> {
    seq![0x66u8, 0x61u8, 0x6cu8, 0x73u8, 0x65u8]
}

pub open spec fn null_bytes() -> Seq<u8> {
    seq![0x6eu8, 0x75u8, 0x6cu8, 0x6cu8]
}

/// Whether `word` stands at position `i`.
pub open spec fn word_at(s: Seq<u8>, i: int, word: Seq<u8>) -> bool {
    i + word.len() <= s.len() && s.subrange(i, i + word.len()) == word
}

/// The end of the value that starts at `i`.
pub open spec fn value_end(s: Seq<u8>, i: int) -> Option<int> {
    if i >= s.len() {
        None
    } else if s[i] == QUOTE {
        match closing_quote(s, i + 1) {
            Some(q) => Some(q + 1),
            None => None,
        }
    } else if s[i] == BRACE_OPEN {
        nested_end(s, i, BRACE_OPEN, BRACE_CLOSE, 0)
    } else if s[i] == BRACKET_OPEN {
        nested_end(s, i, BRACKET_OPEN, BRACKET_CLOSE, 0)
    } else if s[i] == 0x74 {
        if word_at(s, i, true_bytes()) {
            Some(i + 4)
        } else {
            None
        }
    } else if s[i] == 0x66 {
        if word_at(s, i, false_bytes()) {
            Some(i + 5)
        } else {
            None
        }
    } else if s[i] == 0x6e {
        if word_at(s, i, null_bytes()) {
            Some(i + 4)
        } else {
            None
        }
    } else if number_end(s, i) > i {
        Some(number_end(s, i))
    } else {
        None
    }
}

/// One entry of an object: where the key's inner bytes and the value lie.
pub struct Entry {
    pub key_from: int,
    pub key_to: int,
    pub from: int,
    pub to: int,
}

/// The entry that starts at or after `i`, if there is a well-formed one.
pub open spec fn entry_at(s: Seq<u8>, i: int) -> Option<Entry> {
    match past_ws(s, i) {
        Some(j) => if s[j] != QUOTE {
            None
        } else {
            match closing_quote(s, j + 1) {
                Some(q) => match past_ws(s, q + 1) {
                    Some(k) => if s[k] != COLON {
                        None
                    } else {
                        match past_ws(s, k + 1) {
                            Some(v) => match value_end(s, v) {
                                Some(e) => Some(
                                    Entry { key_from: j + 1, key_to: q, from: v, to: e },
                                ),
                                None => None,
                            },
                            None => None,
                        }
                    },
                    None => None,
                },
                None => None,
            }
        },
        None => None,
    }
}

/// The raw value of the first entry named `key`, looking from entry position `i` on.
pub open spec fn value_from(s: Seq<u8>, i: int, key: Seq<u8>) -> Option<Seq<u8>>
    decreases s.len() - i,
{
    match entry_at(s, i) {
        Some(e) => if s.subrange(e.key_from, e.key_to) == key {
            Some(s.subrange(e.from, e.to))
        } else {
            match past_ws(s, e.to) {
                Some(k) => if i <= k < s.len() && s[k] == COMMA {
                    value_from(s, k + 1, key)
                } else {
                    None
                },
                None => None,
            }
        },
        None => None,
    }
}

/// The raw bytes of field `key` of the object in `s`.
pub open spec fn raw_field(s: Seq<u8>, key: Seq<u8>) -> Option<Seq<u8>> {
    match past_ws(s, 0) {
        Some(i) => if s[i] == BRACE_OPEN {
            value_from(s, i + 1, key)
        } else {
            None
        },
        None => None,
    }
}

// ---------- what the bytes of a string mean ----------

/// The value of a hexadecimal digit.
pub open spec fn hex_value(b: u8) -> Option<int> {
    if 0x30 <= b <= 0x39 {
        Some(b - 0x30)
    } else if 0x61 <= b <= 0x66 {
        Some(b - 0x61 + 10)
    } else if 0x41 <= b <= 0x46 {
        Some(b - 0x41 + 10)
    } else {
        None
    }
}

/// The number written by the four hexadecimal digits at `s[i..i + 4]`.
pub open spec fn hex4(s: Seq<u8>, i: int) -> Option<int> {
    if i + 4 > s.len() {
        None
    } else {
        match (hex_value(s[i]), hex_value(s[i + 1]), hex_value(s[i + 2]), hex_value(s[i + 3])) {
            (Some(a), Some(b), Some(c), Some(d)) => Some(a * 4096 + b * 256 + c * 16 + d),
            _ => None,
        }
    }
}

/// The character of a `\uXXXX` escape. Halves of surrogate pairs become U+FFFD.
pub open spec fn code_unit_char(v: int) -> char {
    if 0xd800 <= v < 0xe000 {
        '\u{fffd}'
    } else {
        v as char
    }
}

/// The escape sequence that `s` starts with: its character and its length.
pub open spec fn escape_at(s: Seq<u8>) -> Option<(char, int)> {
    if s.len() < 2 || s[0] != BACKSLASH {
        None
    } else if s[1] == QUOTE {
        Some(('"', 2))
    } else if s[1] == BACKSLASH {
        Some(('\\', 2))
    } else if s[1] == 0x2f {
        Some(('/', 2))
    } else if s[1] == 0x62 {
        Some(('\u{8}', 2))
    } else if s[1] == 0x66 {
        Some(('\u{c}', 2))
    } else if s[1] == 0x6e {
        Some(('\n', 2))
    } else if s[1] == 0x72 {
        Some(('\r', 2))
    } else if s[1] == 0x74 {
        Some(('\t', 2))
    } else if s[1] == 0x75 {
        match hex4(s, 2) {
            Some(v) => Some((code_unit_char(v), 6)),
            None => None,
        }
    } else {
        None
    }
}

/// The text that the inner bytes of a JSON string stand for. Escapes are resolved,
/// UTF-8 is kept, a broken escape counts as literal bytes, and bytes that are not
/// part of any UTF-8 scalar are dropped.
pub open spec fn unescaped(s: Seq<u8>) -> Seq<char>
    decreases s.len(),
{
    if s.len() == 0 {
        Seq::empty()
    } else {
        match escape_at(s) {
            Some((c, n)) => seq![c] + unescaped(s.skip(n)),
            None => if valid_first_scalar(s) {
                seq![decode_first_scalar(s) as char] + unescaped(pop_first_scalar(s))
            } else {
                unescaped(s.skip(1))
            },
        }
    }
}

/// Field `key` as a string.
pub open spec fn string_field(s: Seq<u8>, key: Seq<u8>) -> Option<Seq<char>> {
    match raw_field(s, key) {
        Some(raw) => if raw.len() > 0 && raw[0] == QUOTE {
            Some(unescaped(raw.subrange(1, raw.len() - 1)))
        } else {
            None
        },
        None => None,
    }
}

pub open spec fn is_digit(b: u8) -> bool {
    0x30 <= b <= 0x39
}

/// The value of a run of decimal digits.
pub open spec fn digits_value(d: Seq<u8>) -> nat
    decreases d.len(),
{
    if d.len() == 0 {
        0
    } else {
        digits_value(d.drop_last()) * 10 + (d.last() - 0x30) as nat
    }
}

/// The digits of an unsigned number, without the one plus sign it may carry.
pub open spec fn unsigned_digits(raw: Seq<u8>) -> Seq<u8> {
    if raw.len() > 0 && raw[0] == 0x2b {
        raw.skip(1)
    } else {
        raw
    }
}

/// The bytes read as an unsigned decimal number that fits in 32 bits.
pub open spec fn unsigned_number(raw: Seq<u8>) -> Option<u32> {
    let d = unsigned_digits(raw);
    if d.len() > 0 && (forall|i: int| 0 <= i < d.len() ==> is_digit(#[trigger] d[i]))
        && digits_value(d) <= u32::MAX {
        Some(digits_value(d) as u32)
    } else {
        None
    }
}

/// Field `key` as an unsigned number.
pub open spec fn u32_field(s: Seq<u8>, key: Seq<u8>) -> Option<u32> {
    match raw_field(s, key) {
        Some(raw) => unsigned_number(raw),
        None => None,
    }
}

/// Field `key` as a boolean.
pub open spec fn bool_field(s: Seq<u8>, key: Seq<u8>) -> Option<bool> {
    match raw_field(s, key) {
        Some(raw) => if raw == true_bytes() {
            Some(true)
        } else if raw == false_bytes() {
            Some(false)
        } else {
            None
        },
        None => None,
    }
}

// ---------- the scanner ----------

/// Positions found by the scanner never run backwards or past the end.
pub proof fn lemma_past_ws(s: Seq<u8>, i: int)
    requires
        0 <= i,
    ensures
        past_ws(s, i) matches Some(j) ==> i <= j < s.len(),
    decreases s.len() - i,
{
    if i < s.len() && is_ws(s[i]) {
        lemma_past_ws(s, i + 1);
    }
}

pub proof fn lemma_closing_quote(s: Seq<u8>, j: int)
    requires
        0 <= j,
    ensures
        closing_quote(s, j) matches Some(q) ==> j <= q < s.len() && s[q] == QUOTE,
    decreases s.len() - j,
{
    if j < s.len() {
        if s[j] == BACKSLASH {
            if j + 2 <= s.len() {
                lemma_closing_quote(s, j + 2);
            }
        } else if s[j] != QUOTE {
            lemma_closing_quote(s, j + 1);
        }
    }
}

proof fn lemma_nested_end(s: Seq<u8>, j: int, open: u8, close: u8, depth: int)
    requires
        0 <= j,
    ensures
        nested_end(s, j, open, close, depth) matches Some(e) ==> j < e <= s.len(),
    decreases s.len() - j,
{
    if j < s.len() {
        if s[j] == QUOTE {
            lemma_closing_quote(s, j + 1);
            if let Some(q) = closing_quote(s, j + 1) {
                lemma_nested_end(s, q + 1, open, close, depth);
            }
        } else if s[j] == open {
            lemma_nested_end(s, j + 1, open, close, depth + 1);
        } else if s[j] == close {
            lemma_nested_end(s, j + 1, open, close, depth - 1);
        } else {
            lemma_nested_end(s, j + 1, open, close, depth);
        }
    }
}

proof fn lemma_number_end(s: Seq<u8>, j: int)
    requires
        0 <= j <= s.len(),
    ensures
        j <= number_end(s, j) <= s.len(),
    decreases s.len() - j,
{
    if j < s.len() && is_number_byte(s[j]) {
        lemma_number_end(s, j + 1);
    }
}

pub proof fn lemma_value_end(s: Seq<u8>, i: int)
    requires
        0 <= i,
    ensures
        value_end(s, i) matches Some(e) ==> i < e <= s.len(),
        i < s.len() && s[i] == QUOTE && value_end(s, i) is Some ==> value_end(s, i)->0 >= i + 2
            && closing_quote(s, i + 1) == Some(value_end(s, i)->0 - 1),
{
    if i < s.len() {
        lemma_closing_quote(s, i + 1);
        lemma_nested_end(s, i, BRACE_OPEN, BRACE_CLOSE, 0);
        lemma_nested_end(s, i, BRACKET_OPEN, BRACKET_CLOSE, 0);
        lemma_number_end(s, i);
    }
}

fn skip_ws(payload: &[u8], start: usize) -> (r: Option<usize>)
    ensures
        r matches Some(j) ==> past_ws(payload@, start as int) == Some(j as int) && start <= j
            < payload@.len(),
        r is None ==> past_ws(payload@, start as int) is None,
{
    let mut i: usize = start;
    while i < payload.len()
        invariant
            start <= i,
            past_ws(payload@, start as int) == past_ws(payload@, i as int),
        decreases payload@.len() - i,
    {
        let b = payload[i];
        if b == 0x20 || b == 0x09 || b == 0x0d || b == 0x0a {
            i = i + 1;
        } else {
            return Some(i);
        }
    }
    None
}

/// The position of the quote that closes the string opened at `i`.
fn scan_string(payload: &[u8], i: usize) -> (r: Option<usize>)
    requires
        i < payload@.len(),
        payload@[i as int] == QUOTE,
    ensures
        r matches Some(q) ==> closing_quote(payload@, i + 1) == Some(q as int) && i < q
            < payload@.len(),
        r is None ==> closing_quote(payload@, i + 1) is None,
{
    let n = payload.len();
    let mut j: usize = i + 1;
    while j < n
        invariant
            n == payload@.len(),
            i < j <= n,
            closing_quote(payload@, i + 1) == closing_quote(payload@, j as int),
        decreases payload@.len() - j,
    {
        let b = payload[j];
        if b == BACKSLASH {
            if n - j < 2 {
                return None;
            }
            j = j + 2;
        } else if b == QUOTE {
            return Some(j);
        } else {
            j = j + 1;
        }
    }
    None
}

/// The end of the object or array that opens at `i`.
fn scan_nested(payload: &[u8], i: usize, close: u8) -> (r: Option<usize>)
    requires
        i < payload@.len(),
        payload@[i as int] != QUOTE,
        close != payload@[i as int],
    ensures
        r matches Some(e) ==> nested_end(payload@, i as int, payload@[i as int], close, 0) == Some(
            e as int,
        ) && i < e <= payload@.len(),
        r is None ==> nested_end(payload@, i as int, payload@[i as int], close, 0) is None,
{
    let open = payload[i];
    let mut depth: usize = 1;
    let mut j: usize = i + 1;
    while j < payload.len()
        invariant
            i < j <= payload@.len(),
            open == payload@[i as int],
            open != close,
            1 <= depth <= j - i,
            nested_end(payload@, i as int, open, close, 0) == nested_end(
                payload@,
                j as int,
                open,
                close,
                depth as int,
            ),
        decreases payload@.len() - j,
    {
        let b = payload[j];
        if b == QUOTE {
            match scan_string(payload, j) {
                Some(q) => {
                    j = q + 1;
                },
                None => {
                    return None;
                },
            }
        } else {
            if b == open {
                depth = depth + 1;
            } else if b == close {
                depth = depth - 1;
                if depth == 0 {
                    return Some(j + 1);
                }
            }
            j = j + 1;
        }
    }
    None
}

fn has_word(payload: &[u8], i: usize, word: &[u8]) -> (r: bool)
    requires
        i <= payload@.len(),
    ensures
        r == word_at(payload@, i as int, word@),
{
    if payload.len() - i < word.len() {
        return false;
    }
    bytes_eq(&payload[i..i + word.len()], word)
}

/// The end of the value that starts at `i`.
fn scan_value(payload: &[u8], i: usize) -> (r: Option<usize>)
    requires
        i < payload@.len(),
    ensures
        r matches Some(e) ==> value_end(payload@, i as int) == Some(e as int) && i < e
            <= payload@.len(),
        r is None ==> value_end(payload@, i as int) is None,
{
    let b = payload[i];
    if b == QUOTE {
        match scan_string(payload, i) {
            Some(q) => Some(q + 1),
            None => None,
        }
    } else if b == BRACE_OPEN {
        scan_nested(payload, i, BRACE_CLOSE)
    } else if b == BRACKET_OPEN {
        scan_nested(payload, i, BRACKET_CLOSE)
    } else if b == 0x74 {
        let word: [u8; 4] = [0x74, 0x72, 0x75, 0x65];
        assert(word@ =~= true_bytes());
        if has_word(payload, i, &word) {
            Some(i + 4)
        } else {
            None
        }
    } else if b == 0x66 {
        let word: [u8; 5] = [0x66, 0x61, 0x6c, 0x73, 0x65];
        assert(word@ =~= false_bytes());
        if has_word(payload, i, &word) {
            Some(i + 5)
        } else {
            None
        }
    } else if b == 0x6e {
        let word: [u8; 4] = [0x6e, 0x75, 0x6c, 0x6c];
        assert(word@ =~= null_bytes());
        if has_word(payload, i, &word) {
            Some(i + 4)
        } else {
            None
        }
    } else {
        let mut j: usize = i;
        while j < payload.len() && number_byte(payload[j])
            invariant
                i <= j <= payload@.len(),
                number_end(payload@, i as int) == number_end(payload@, j as int),
            decreases payload@.len() - j,
        {
            j = j + 1;
        }
        if j > i {
            Some(j)
        } else {
            None
        }
    }
}

fn number_byte(b: u8) -> (r: bool)
    ensures
        r == is_number_byte(b),
{
    (0x30 <= b && b <= 0x39) || b == 0x2d || b == 0x2b || b == 0x2e || b == 0x65 || b == 0x45
}

/// The raw bytes of field `key`: of the first entry with that name, quotes and escapes
/// of a string value kept.
pub fn json_raw<'a>(payload: &'a [u8], key: &[u8]) -> (r: Option<&'a [u8]>)
    ensures
        r matches Some(v) ==> raw_field(payload@, key@) == Some(v@) && v@.len() > 0,
        r is None ==> raw_field(payload@, key@) is None,
        r matches Some(v) ==> v@[0] == QUOTE ==> v@.len() >= 2,
{
    let mut i: usize = match skip_ws(payload, 0) {
        Some(i) => if payload[i] == BRACE_OPEN {
            i + 1
        } else {
            return None;
        },
        None => {
            return None;
        },
    };
    loop
        invariant
            0 <= i <= payload@.len(),
            raw_field(payload@, key@) == value_from(payload@, i as int, key@),
        decreases payload@.len() - i,
    {
        let j = match skip_ws(payload, i) {
            Some(j) => j,
            None => {
                return None;
            },
        };
        if payload[j] != QUOTE {
            return None;
        }
        let q = match scan_string(payload, j) {
            Some(q) => q,
            None => {
                return None;
            },
        };
        let k = match skip_ws(payload, q + 1) {
            Some(k) => k,
            None => {
                return None;
            },
        };
        if payload[k] != COLON {
            return None;
        }
        let from = match skip_ws(payload, k + 1) {
            Some(v) => v,
            None => {
                return None;
            },
        };
        let to = match scan_value(payload, from) {
            Some(e) => e,
            None => {
                return None;
            },
        };
        proof {
            lemma_value_end(payload@, from as int);
        }
        if bytes_eq(&payload[j + 1..q], key) {
            return Some(&payload[from..to]);
        }
        match skip_ws(payload, to) {
            Some(k2) => if payload[k2] == COMMA {
                i = k2 + 1;
            } else {
                return None;
            },
            None => {
                return None;
            },
        }
    }
}

fn hex_digit(b: u8) -> (r: Option<u32>)
    ensures
        r matches Some(v) ==> hex_value(b) == Some(v as int) && v < 16,
        r is None ==> hex_value(b) is None,
{
    if 0x30 <= b && b <= 0x39 {
        Some((b - 0x30) as u32)
    } else if 0x61 <= b && b <= 0x66 {
        Some((b - 0x61) as u32 + 10)
    } else if 0x41 <= b && b <= 0x46 {
        Some((b - 0x41) as u32 + 10)
    } else {
        None
    }
}

/// The number in the four hexadecimal digits at `s[i..i + 4]`.
fn parse_u16_hex(s: &[u8], i: usize) -> (r: Option<u32>)
    requires
        i <= s@.len(),
    ensures
        r matches Some(v) ==> hex4(s@, i as int) == Some(v as int) && v < 0x10000,
        r is None ==> hex4(s@, i as int) is None,
{
    if s.len() - i < 4 {
        return None;
    }
    match (hex_digit(s[i]), hex_digit(s[i + 1]), hex_digit(s[i + 2]), hex_digit(s[i + 3])) {
        (Some(a), Some(b), Some(c), Some(d)) => Some(a * 4096 + b * 256 + c * 16 + d),
        _ => None,
    }
}

/// The escape sequence at `s[i..]`: its character and its length.
fn scan_escape(s: &[u8], i: usize) -> (r: Option<(char, usize)>)
    requires
        i < s@.len(),
    ensures
        r matches Some((c, n)) ==> escape_at(s@.skip(i as int)) == Some((c, n as int)) && 2 <= n
            <= s@.len() - i,
        r is None ==> escape_at(s@.skip(i as int)) is None,
{
    let ghost t = s@.skip(i as int);
    if s.len() - i < 2 || s[i] != BACKSLASH {
        return None;
    }
    let b = s[i + 1];
    assert(b == t[1]);
    if b == QUOTE {
        Some(('"', 2))
    } else if b == BACKSLASH {
        Some(('\\', 2))
    } else if b == 0x2f {
        Some(('/', 2))
    } else if b == 0x62 {
        Some(('\u{8}', 2))
    } else if b == 0x66 {
        Some(('\u{c}', 2))
    } else if b == 0x6e {
        Some(('\n', 2))
    } else if b == 0x72 {
        Some(('\r', 2))
    } else if b == 0x74 {
        Some(('\t', 2))
    } else if b == 0x75 {
        assert(hex4(s@, i + 2) == hex4(t, 2));
        match parse_u16_hex(s, i + 2) {
            Some(v) => if 0xd800 <= v && v < 0xe000 {
                Some(('\u{fffd}', 6))
            } else {
                match char::from_u32(v) {
                    Some(c) => {
                        proof {
                            char_u32_cast(c, v);
                        }
                        Some((c, 6))
                    },
                    None => None,
                }
            },
            None => None,
        }
    } else {
        None
    }
}

/// Resolves the escapes in the inner bytes of a JSON string.
pub fn unescape(s: &[u8]) -> (out: String)
    ensures
        out@ == unescaped(s@),
{
    let mut out = String::new();
    let mut i: usize = 0;
    assert(s@.skip(0) =~= s@);
    while i < s.len()
        invariant
            i <= s@.len(),
            out@ + unescaped(s@.skip(i as int)) =~= unescaped(s@),
        decreases s@.len() - i,
    {
        let ghost t = s@.skip(i as int);
        let ghost before = out@;
        match scan_escape(s, i) {
            Some((c, n)) => {
                out.push(c);
                assert(t.skip(n as int) =~= s@.skip(i + n));
                assert(out@ + unescaped(s@.skip(i + n)) =~= before + (seq![c] + unescaped(
                    t.skip(n as int),
                )));
                i = i + n;
            },
            None => {
                match decode_scalar(s, i) {
                    Some((c, n)) => {
                        out.push(c);
                        assert(pop_first_scalar(t) =~= s@.skip(i + n));
                        assert(out@ + unescaped(s@.skip(i + n)) =~= before + (seq![c] + unescaped(
                            pop_first_scalar(t),
                        )));
                        i = i + n;
                    },
                    None => {
                        assert(t.skip(1) =~= s@.skip(i + 1));
                        i = i + 1;
                    },
                }
            },
        }
    }
    assert(s@.skip(i as int) =~= Seq::<u8>::empty());
    assert(out@ =~= unescaped(s@));
    out
}

/// Field `key` as a string, escapes resolved.
pub fn json_string(payload: &[u8], key: &[u8]) -> (r: Option<String>)
    ensures
        r matches Some(v) ==> string_field(payload@, key@) == Some(v@),
        r is None ==> string_field(payload@, key@) is None,
{
    match json_raw(payload, key) {
        Some(raw) => if raw[0] != QUOTE {
            None
        } else {
            Some(unescape(&raw[1..raw.len() - 1]))
        },
        None => None,
    }
}

proof fn lemma_digits_value_grows(d: Seq<u8>, i: int)
    requires
        0 <= i <= d.len(),
        forall|k: int| 0 <= k < d.len() ==> is_digit(#[trigger] d[k]),
    ensures
        digits_value(d.take(i)) <= digits_value(d),
    decreases d.len() - i,
{
    if i == d.len() {
        assert(d.take(i) =~= d);
    } else {
        lemma_digits_value_grows(d, i + 1);
        assert(d.take(i + 1).drop_last() =~= d.take(i));
    }
}

/// The bytes read as an unsigned decimal number of 32 bits.
fn parse_u32(raw: &[u8]) -> (r: Option<u32>)
    ensures
        r == unsigned_number(raw@),
{
    let start: usize = if raw.len() > 0 && raw[0] == 0x2b {
        1
    } else {
        0
    };
    let ghost d = unsigned_digits(raw@);
    assert(start == 1 ==> d =~= raw@.skip(1));
    if raw.len() == start {
        return None;
    }
    let mut v: u64 = 0;
    let mut i: usize = start;
    assert(d.take(0) =~= Seq::<u8>::empty());
    while i < raw.len()
        invariant
            start <= i <= raw@.len(),
            start <= 1,
            d.len() == raw@.len() - start,
            forall|k: int| 0 <= k < d.len() ==> d[k] == raw@[k + start],
            forall|k: int| 0 <= k < i - start ==> is_digit(#[trigger] d[k]),
            v == digits_value(d.take(i - start)),
            v <= u32::MAX,
            d == unsigned_digits(raw@),
        decreases raw@.len() - i,
    {
        let b = raw[i];
        assert(d[i - start] == b);
        if !(0x30 <= b && b <= 0x39) {
            return None;
        }
        v = v * 10 + (b - 0x30) as u64;
        assert(d.take(i + 1 - start).drop_last() =~= d.take(i - start));
        if v > 0xffff_ffff {
            proof {
                if forall|k: int| 0 <= k < d.len() ==> is_digit(#[trigger] d[k]) {
                    lemma_digits_value_grows(d, i + 1 - start);
                }
            }
            return None;
        }
        i = i + 1;
    }
    assert(d.take(d.len() as int) =~= d);
    Some(v as u32)
}

/// Field `key` as an unsigned number; `None` where it is missing or is no such number.
pub fn json_u32(payload: &[u8], key: &[u8]) -> (r: Option<u32>)
    ensures
        r == u32_field(payload@, key@),
{
    match json_raw(payload, key) {
        Some(raw) => parse_u32(raw),
        None => None,
    }
}

/// Field `key` as a boolean.
pub fn json_bool(payload: &[u8], key: &[u8]) -> (r: Option<bool>)
    ensures
        r == bool_field(payload@, key@),
{
    match json_raw(payload, key) {
        Some(raw) => {
            let yes: [u8; 4] = [0x74, 0x72, 0x75, 0x65];
            let no: [u8; 5] = [0x66, 0x61, 0x6c, 0x73, 0x65];
            assert(yes@ =~= true_bytes());
            assert(no@ =~= false_bytes());
            if bytes_eq(raw, &yes) {
                Some(true)
            } else if bytes_eq(raw, &no) {
                Some(false)
            } else {
                None
            }
        },
        None => None,
    }
}

// ---------- the writer of string literals ----------

/// The lower-case hexadecimal digit with value `d`.
pub open spec fn hex_char(d: int) -> char {
    if d < 10 {
        ('0' as int + d) as char
    } else {
        ('a' as int + d - 10) as char
    }
}

/// How one character is written inside a JSON string: quotes, backslashes and control
/// characters are escaped, everything else stands for itself.
pub open spec fn escaped_char(c: char) -> Seq<char> {
    if c == '"' {
        seq!['\\', '"']
    } else if c == '\\' {
        seq!['\\', '\\']
    } else if c == '\n' {
        seq!['\\', 'n']
    } else if c == '\r' {
        seq!['\\', 'r']
    } else if c == '\t' {
        seq!['\\', 't']
    } else if (c as int) < 0x20 {
        seq!['\\', 'u', '0', '0', hex_char(c as int / 16), hex_char(c as int % 16)]
    } else {
        seq![c]
    }
}

/// How a text is written between the quotes of a JSON string.
pub open spec fn escaped(t: Seq<char>) -> Seq<char>
    decreases t.len(),
{
    if t.len() == 0 {
        Seq::empty()
    } else {
        escaped_char(t[0]) + escaped(t.drop_first())
    }
}

/// A text as a JSON string, quotes and all.
pub open spec fn literal(t: Seq<char>) -> Seq<char> {
    seq!['"'] + escaped(t) + seq!['"']
}

fn push_hex_digit(out: &mut String, d: u32)
    requires
        d < 16,
    ensures
        final(out)@ == old(out)@.push(hex_char(d as int)),
{
    let c = if d < 10 {
        (48 + d) as u8 as char
    } else {
        (87 + d) as u8 as char
    };
    out.push(c);
}

fn push_escaped_char(out: &mut String, c: char)
    ensures
        final(out)@ == old(out)@ + escaped_char(c),
{
    let ghost before = out@;
    if c == '"' {
        out.push('\\');
        out.push('"');
    } else if c == '\\' {
        out.push('\\');
        out.push('\\');
    } else if c == '\n' {
        out.push('\\');
        out.push('n');
    } else if c == '\r' {
        out.push('\\');
        out.push('r');
    } else if c == '\t' {
        out.push('\\');
        out.push('t');
    } else if (c as u32) < 0x20 {
        out.push('\\');
        out.push('u');
        out.push('0');
        out.push('0');
        push_hex_digit(out, c as u32 / 16);
        push_hex_digit(out, c as u32 % 16);
    } else {
        out.push(c);
    }
    assert(out@ =~= before + escaped_char(c));
}

/// Appends a text as a JSON string literal, quotes and all.
pub fn append_json_string(out: &mut String, s: &str)
    ensures
        final(out)@ == old(out)@ + literal(s@),
{
    let ghost before = out@;
    out.push('"');
    let chars = chars_of(s);
    let mut i: usize = 0;
    assert(s@.skip(0) =~= s@);
    while i < chars.len()
        invariant
            chars@ == s@,
            i <= s@.len(),
            out@ + escaped(s@.skip(i as int)) =~= before + seq!['"'] + escaped(s@),
        decreases s@.len() - i,
    {
        let ghost prev = out@;
        push_escaped_char(out, chars[i]);
        assert(s@.skip(i as int).drop_first() =~= s@.skip(i + 1));
        assert(prev + (escaped_char(s@[i as int]) + escaped(s@.skip(i + 1))) =~= out@ + escaped(
            s@.skip(i + 1),
        ));
        i = i + 1;
    }
    assert(s@.skip(i as int) =~= Seq::<char>::empty());
    assert(out@ =~= before + seq!['"'] + escaped(s@));
    out.push('"');
    assert(out@ =~= before + literal(s@));
}

} // verus!
