//! What holds of reading and writing JSON together: a text that was written reads back as
//! itself, a number too, and fields that nobody asks for do not matter.
use vstd::prelude::*;
use vstd::utf8::*;
use crate::json::{
    BACKSLASH, BRACE_CLOSE, BRACE_OPEN, BRACKET_CLOSE, BRACKET_OPEN, COLON, COMMA, QUOTE,
};
use crate::{json, text};

verus! {

proof fn lemma_wide_bytes_2(c: u32)
    by (bit_vector)
    requires
        has_width_2_encoding(c),
    ensures
        leading_byte_width_2(c) >= 0x80,
        last_continuation_byte(c) >= 0x80,
{
}

proof fn lemma_wide_bytes_3(c: u32)
    by (bit_vector)
    requires
        has_width_3_encoding(c),
    ensures
        leading_byte_width_3(c) >= 0x80,
        second_last_continuation_byte(c) >= 0x80,
        last_continuation_byte(c) >= 0x80,
{
}

proof fn lemma_wide_bytes_4(c: u32)
    by (bit_vector)
    requires
        has_width_4_encoding(c),
    ensures
        leading_byte_width_4(c) >= 0x80,
        third_last_continuation_byte(c) >= 0x80,
        second_last_continuation_byte(c) >= 0x80,
        last_continuation_byte(c) >= 0x80,
{
}

proof fn lemma_narrow_byte(c: u32)
    by (bit_vector)
    requires
        has_width_1_encoding(c),
    ensures
        leading_byte_width_1(c) == c,
{
}

/// The bytes of a character that needs no escape hold no quote and no backslash.
proof fn lemma_plain_bytes(c: char)
    requires
        c != '"',
        c != '\\',
    ensures
        forall|k: int|
            0 <= k < encode_scalar(c as u32).len() ==> #[trigger] encode_scalar(c as u32)[k]
                != QUOTE && encode_scalar(c as u32)[k] != BACKSLASH,
        encode_scalar(c as u32).len() > 0,
{
    char_is_scalar(c);
    let u = c as u32;
    if has_width_1_encoding(u) {
        lemma_narrow_byte(u);
    } else if has_width_2_encoding(u) {
        lemma_wide_bytes_2(u);
    } else if has_width_3_encoding(u) {
        lemma_wide_bytes_3(u);
    } else {
        lemma_wide_bytes_4(u);
    }
}

proof fn lemma_encode_one(c: char)
    ensures
        encode_utf8(seq![c]) == encode_scalar(c as u32),
{
    let t = seq![c];
    assert(t.drop_first() =~= Seq::<char>::empty());
    assert(encode_utf8(Seq::<char>::empty()) =~= Seq::<u8>::empty());
    assert(encode_utf8(t) =~= encode_scalar(c as u32));
}

/// A hexadecimal digit is one plain byte that reads back as its value.
proof fn lemma_hex_char(d: int)
    requires
        0 <= d < 16,
    ensures
        json::hex_value(json::hex_char(d) as u8) == Some(d),
        json::hex_char(d) as u8 != QUOTE,
        json::hex_char(d) as u8 != BACKSLASH,
{
    if d < 10 {
        assert(json::hex_char(d) as int == 48 + d);
        assert(json::hex_char(d) as u8 == 48 + d);
    } else {
        assert(json::hex_char(d) as int == 87 + d);
        assert(json::hex_char(d) as u8 == 87 + d);
    }
}

/// Only control characters are written as a code.
proof fn lemma_control_code(c: char)
    requires
        json::escaped_char(c).len() == 6,
    ensures
        0 <= c as int,
        (c as int) < 0x20,
{
}

/// The bytes of an escape sequence.
proof fn lemma_escape_bytes(c: char)
    requires
        json::escaped_char(c).len() > 1,
    ensures
        encode_utf8(json::escaped_char(c)) == Seq::new(
            json::escaped_char(c).len(),
            |i: int| json::escaped_char(c)[i] as u8,
        ),
{
    text::lemma_encode_ascii(json::escaped_char(c));
}

/// Resolving the escapes gives back the text that was escaped.
pub proof fn lemma_unescape_escape(t: Seq<char>)
    ensures
        json::unescaped(encode_utf8(json::escaped(t))) == t,
    decreases t.len(),
{
    let s = encode_utf8(json::escaped(t));
    if t.len() == 0 {
        assert(s =~= Seq::<u8>::empty());
        assert(json::unescaped(s) =~= t);
    } else {
        let c = t[0];
        let rest = t.drop_first();
        lemma_unescape_escape(rest);
        text::lemma_encode_concat(json::escaped_char(c), json::escaped(rest));
        let head = encode_utf8(json::escaped_char(c));
        let tail = encode_utf8(json::escaped(rest));
        assert(s == head + tail);
        assert(seq![c] + rest =~= t);
        if json::escaped_char(c).len() > 1 {
            lemma_escape_bytes(c);
            assert(json::escaped_char(c)[0] == '\\');
            assert(s[0] == BACKSLASH);
            assert(s[1] == json::escaped_char(c)[1] as u8);
            if json::escaped_char(c).len() == 6 {
                lemma_control_code(c);
                lemma_hex_char(c as int / 16);
                lemma_hex_char(c as int % 16);
                assert(s[2] == 0x30 && s[3] == 0x30);
                assert(s[4] == json::hex_char(c as int / 16) as u8);
                assert(s[5] == json::hex_char(c as int % 16) as u8);
                assert(json::hex_value(s[2]) == Some(0int));
                assert(json::hex_value(s[4]) == Some(c as int / 16));
                assert(json::hex_value(s[5]) == Some(c as int % 16));
                assert(json::hex4(s, 2) == Some(c as int));
                assert(json::escape_at(s) == Some((c, 6int)));
                assert(s.skip(6) =~= tail);
            } else {
                assert(json::escape_at(s) == Some((c, 2int)));
                assert(s.skip(2) =~= tail);
            }
        } else {
            lemma_encode_one(c);
            lemma_plain_bytes(c);
            assert(json::escaped(t) =~= seq![c] + json::escaped(rest));
            encode_utf8_first_scalar(json::escaped(t));
            char_u32_cast(c, decode_first_scalar(s));
            assert(s[0] == head[0]);
            assert(json::escape_at(s) is None);
            assert(pop_first_scalar(s) =~= tail);
        }
    }
}

/// A run without quotes and backslashes does not move the closing quote.
proof fn lemma_plain_run(s: Seq<u8>, j: int, m: int)
    requires
        0 <= j <= m <= s.len(),
        forall|k: int| j <= k < m ==> #[trigger] s[k] != QUOTE && s[k] != BACKSLASH,
    ensures
        json::closing_quote(s, j) == json::closing_quote(s, m),
    decreases m - j,
{
    if j < m {
        assert(s[j] != QUOTE);
        lemma_plain_run(s, j + 1, m);
    }
}

/// An escaped text runs up to the quote that follows it.
pub proof fn lemma_escaped_closes(s: Seq<u8>, j: int, t: Seq<char>)
    requires
        0 <= j,
        j + encode_utf8(json::escaped(t)).len() < s.len(),
        s.subrange(j, j + encode_utf8(json::escaped(t)).len()) == encode_utf8(json::escaped(t)),
        s[j + encode_utf8(json::escaped(t)).len()] == QUOTE,
    ensures
        json::closing_quote(s, j) == Some(j + encode_utf8(json::escaped(t)).len()),
    decreases t.len(),
{
    let e = encode_utf8(json::escaped(t));
    if t.len() == 0 {
        assert(e =~= Seq::<u8>::empty());
    } else {
        let c = t[0];
        let rest = t.drop_first();
        text::lemma_encode_concat(json::escaped_char(c), json::escaped(rest));
        let head = encode_utf8(json::escaped_char(c));
        let tail = encode_utf8(json::escaped(rest));
        let m = j + head.len();
        assert(e == head + tail);
        assert forall|k: int| 0 <= k < e.len() implies s[j + k] == #[trigger] e[k] by {
            assert(s.subrange(j, j + e.len())[k] == s[j + k]);
        }
        assert(s.subrange(m, m + tail.len()) =~= tail) by {
            assert forall|k: int| 0 <= k < tail.len() implies s[m + k] == tail[k] by {
                assert(e[head.len() + k] == tail[k]);
                assert(s[j + (head.len() + k)] == e[head.len() + k]);
            }
        }
        lemma_escaped_closes(s, m, rest);
        assert forall|k: int| 0 <= k < head.len() implies s[j + k] == #[trigger] head[k] by {
            assert(e[k] == head[k]);
        }
        if json::escaped_char(c).len() > 1 {
            lemma_escape_bytes(c);
            assert(head[0] == BACKSLASH);
            assert(s[j + 0] == head[0]);
            assert(json::closing_quote(s, j) == json::closing_quote(s, j + 2));
            if json::escaped_char(c).len() == 6 {
                lemma_control_code(c);
                lemma_hex_char(c as int / 16);
                lemma_hex_char(c as int % 16);
            }
            assert forall|k: int| j + 2 <= k < m implies #[trigger] s[k] != QUOTE && s[k]
                != BACKSLASH by {
                assert(s[j + (k - j)] == head[k - j]);
                assert(head[k - j] == json::escaped_char(c)[k - j] as u8);
            }
            lemma_plain_run(s, j + 2, m);
        } else {
            lemma_encode_one(c);
            lemma_plain_bytes(c);
            assert forall|k: int| j <= k < m implies #[trigger] s[k] != QUOTE && s[k]
                != BACKSLASH by {
                assert(s[j + (k - j)] == head[k - j]);
            }
            lemma_plain_run(s, j, m);
        }
    }
}

/// A decimal number reads back as itself.
pub proof fn lemma_decimal_reads_back(n: nat)
    ensures
        is_ascii_chars(text::decimal(n)),
        ({
            let d = encode_utf8(text::decimal(n));
            &&& d.len() > 0
            &&& d.len() == text::decimal(n).len()
            &&& forall|i: int| 0 <= i < d.len() ==> json::is_digit(#[trigger] d[i])
            &&& json::digits_value(d) == n
        }),
    decreases n,
{
    let t = text::decimal(n);
    if n < 10 {
        assert(is_ascii_chars(t));
        text::lemma_encode_ascii(t);
        let d = encode_utf8(t);
        assert(d.drop_last() =~= Seq::<u8>::empty());
        assert(json::digits_value(d.drop_last()) == 0);
    } else {
        lemma_decimal_reads_back(n / 10);
        let front = text::decimal(n / 10);
        let last = text::digit_char((n % 10) as int);
        assert(t =~= front + seq![last]);
        assert(is_ascii_chars(t));
        text::lemma_encode_ascii(t);
        text::lemma_encode_ascii(front);
        let d = encode_utf8(t);
        assert(d.drop_last() =~= encode_utf8(front));
        assert(d.last() == last as u8);
        assert forall|i: int| 0 <= i < d.len() implies json::is_digit(#[trigger] d[i]) by {
            if i < d.len() - 1 {
                assert(d[i] == encode_utf8(front)[i]);
            }
        }
    }
}

/// A run of digits is the whole of a number.
pub proof fn lemma_number_run(s: Seq<u8>, i: int, e: int)
    requires
        0 <= i <= e < s.len(),
        forall|k: int| i <= k < e ==> json::is_digit(#[trigger] s[k]),
        !json::is_number_byte(s[e]),
    ensures
        json::number_end(s, i) == e,
    decreases e - i,
{
    if i < e {
        assert(json::is_digit(s[i]));
        lemma_number_run(s, i + 1, e);
    }
}

/// Whether `x` stands in `s` at position `i`, byte by byte.
pub open spec fn stands_at(s: Seq<u8>, i: int, x: Seq<u8>) -> bool {
    &&& 0 <= i
    &&& i + x.len() <= s.len()
    &&& forall|k: int| 0 <= k < x.len() ==> s[i + k] == #[trigger] x[k]
}

/// Bytes that can stand between quotes as they are.
pub open spec fn plain(k: Seq<u8>) -> bool {
    forall|i: int| 0 <= i < k.len() ==> #[trigger] k[i] != QUOTE && k[i] != BACKSLASH
}

/// A quoted name, a colon and a value make an entry.
pub proof fn lemma_entry(s: Seq<u8>, i: int, name: Seq<u8>, end: int)
    requires
        0 <= i,
        plain(name),
        stands_at(s, i + 1, name),
        i + name.len() + 3 < s.len(),
        s[i] == QUOTE,
        s[i + 1 + name.len()] == QUOTE,
        s[i + 2 + name.len()] == COLON,
        !json::is_ws(s[i + 3 + name.len()]),
        json::value_end(s, i + 3 + name.len()) == Some(end),
    ensures
        json::entry_at(s, i) == Some(
            json::Entry {
                key_from: i + 1,
                key_to: i + 1 + name.len(),
                from: i + 3 + name.len(),
                to: end,
            },
        ),
        s.subrange(i + 1, i + 1 + name.len()) == name,
{
    let q = i + 1 + name.len();
    assert forall|k: int| i + 1 <= k < q implies #[trigger] s[k] != QUOTE && s[k] != BACKSLASH by {
        assert(s[(i + 1) + (k - i - 1)] == name[k - i - 1]);
    }
    lemma_plain_run(s, i + 1, q);
    assert(json::closing_quote(s, q) == Some(q));
    assert(json::past_ws(s, i) == Some(i));
    assert(json::past_ws(s, q + 1) == Some(q + 1));
    assert(json::past_ws(s, q + 2) == Some(q + 2));
    assert(s.subrange(i + 1, q) =~= name) by {
        assert forall|k: int| 0 <= k < name.len() implies s.subrange(i + 1, q)[k] == name[k] by {
            assert(s[(i + 1) + k] == name[k]);
        }
    }
}

/// A string literal is a value that reads back as its text.
pub proof fn lemma_literal_value(s: Seq<u8>, i: int, t: Seq<char>)
    requires
        stands_at(s, i, encode_utf8(json::literal(t))),
    ensures
        s[i] == QUOTE,
        json::value_end(s, i) == Some(i + encode_utf8(json::literal(t)).len()),
        encode_utf8(json::literal(t)).len() >= 2,
        ({
            let raw = s.subrange(i, i + encode_utf8(json::literal(t)).len());
            json::unescaped(raw.subrange(1, raw.len() - 1)) == t
        }),
{
    let e = encode_utf8(json::escaped(t));
    let lit = encode_utf8(json::literal(t));
    text::lemma_encode_concat(seq!['"'] + json::escaped(t), seq!['"']);
    text::lemma_encode_concat(seq!['"'], json::escaped(t));
    text::lemma_encode_ascii(seq!['"']);
    assert(lit =~= seq![QUOTE] + e + seq![QUOTE]);
    assert(s[i + 0] == lit[0]);
    assert(s.subrange(i + 1, i + 1 + e.len()) =~= e) by {
        assert forall|k: int| 0 <= k < e.len() implies s[i + 1 + k] == e[k] by {
            assert(lit[k + 1] == e[k]);
            assert(s[i + (k + 1)] == lit[k + 1]);
        }
    }
    assert(s[i + (1 + e.len())] == lit[1 + e.len() as int]);
    lemma_escaped_closes(s, i + 1, t);
    let raw = s.subrange(i, i + lit.len());
    assert(raw.subrange(1, raw.len() - 1) =~= e) by {
        assert forall|k: int| 0 <= k < e.len() implies raw.subrange(1, raw.len() - 1)[k] == e[k] by {
            assert(s.subrange(i + 1, i + 1 + e.len())[k] == s[i + 1 + k]);
        }
    }
    lemma_unescape_escape(t);
}

/// A decimal number is a value that reads back as itself.
pub proof fn lemma_decimal_value(s: Seq<u8>, i: int, n: u32)
    requires
        stands_at(s, i, encode_utf8(text::decimal(n as nat))),
        i + encode_utf8(text::decimal(n as nat)).len() < s.len(),
        !json::is_number_byte(s[i + encode_utf8(text::decimal(n as nat)).len()]),
    ensures
        json::is_digit(s[i]),
        json::value_end(s, i) == Some(i + encode_utf8(text::decimal(n as nat)).len()),
        json::unsigned_number(s.subrange(i, i + encode_utf8(text::decimal(n as nat)).len())) == Some(n),
{
    let d = encode_utf8(text::decimal(n as nat));
    lemma_decimal_reads_back(n as nat);
    assert forall|k: int| i <= k < i + d.len() implies json::is_digit(#[trigger] s[k]) by {
        assert(s[i + (k - i)] == d[k - i]);
    }
    lemma_number_run(s, i, (i + d.len()) as int);
    assert(s.subrange(i, i + d.len()) =~= d) by {
        assert forall|k: int| 0 <= k < d.len() implies s.subrange(i, i + d.len())[k] == d[k] by {
            assert(s[i + k] == d[k]);
        }
    }
    assert(json::is_digit(d[0]));
}

/// The middle of three parts stands where the first part ends.
proof fn lemma_stands_between(a: Seq<u8>, x: Seq<u8>, b: Seq<u8>)
    ensures
        stands_at(a + x + b, a.len() as int, x),
{
    let s = a + x + b;
    assert forall|k: int| 0 <= k < x.len() implies s[a.len() + k] == #[trigger] x[k] by {
        assert((a + x)[a.len() + k] == x[k]);
    }
}

/// A field name that is written as it is.
pub open spec fn is_name(name: Seq<char>) -> bool {
    &&& is_ascii_chars(name)
    &&& forall|i: int| 0 <= i < name.len() ==> #[trigger] name[i] != '"' && name[i] != '\\'
}

/// A field name, quoted, with its colon.
pub open spec fn label(name: Seq<char>) -> Seq<char> {
    seq!['"'] + name + seq!['"', ':']
}

/// An object with one string field and one number field, in this order.
pub open spec fn string_and_number(
    name: Seq<char>,
    t: Seq<char>,
    number_name: Seq<char>,
    n: u32,
) -> Seq<char> {
    seq!['{'] + label(name) + json::literal(t) + seq![','] + label(number_name) + text::decimal(n as nat)
        + seq!['}']
}

proof fn lemma_label_bytes(name: Seq<char>)
    requires
        is_name(name),
    ensures
        encode_utf8(label(name)) == seq![QUOTE] + encode_utf8(name) + seq![QUOTE, COLON],
        plain(encode_utf8(name)),
        encode_utf8(name) == Seq::new(name.len(), |i: int| name[i] as u8),
{
    text::lemma_encode_concat(seq!['"'] + name, seq!['"', ':']);
    text::lemma_encode_concat(seq!['"'], name);
    text::lemma_encode_ascii(seq!['"']);
    text::lemma_encode_ascii(seq!['"', ':']);
    text::lemma_encode_ascii(name);
    assert(encode_utf8(seq!['"']) =~= seq![QUOTE]);
    assert(encode_utf8(seq!['"', ':']) =~= seq![QUOTE, COLON]);
    let k = encode_utf8(name);
    assert forall|i: int| 0 <= i < k.len() implies #[trigger] k[i] != QUOTE && k[i] != BACKSLASH by {
        assert(name[i] != '"' && name[i] != '\\');
        assert(k[i] == name[i] as u8);
    }
}

/// A label at position `i` followed by a value makes an entry there.
proof fn lemma_labelled(s: Seq<u8>, i: int, name: Seq<char>, end: int)
    requires
        is_name(name),
        stands_at(s, i, encode_utf8(label(name))),
        i + encode_utf8(label(name)).len() < s.len(),
        !json::is_ws(s[i + encode_utf8(label(name)).len()]),
        json::value_end(s, i + encode_utf8(label(name)).len()) == Some(end),
    ensures
        json::entry_at(s, i) matches Some(e) && s.subrange(e.key_from, e.key_to) == encode_utf8(name)
            && e.from == i + encode_utf8(label(name)).len() && e.to == end,
{
    lemma_label_bytes(name);
    let k = encode_utf8(name);
    let f = encode_utf8(label(name));
    assert(s[i + 0] == f[0]);
    assert(s[i + (1 + k.len())] == f[1 + k.len() as int]);
    assert(s[i + (2 + k.len())] == f[2 + k.len() as int]);
    assert forall|j: int| 0 <= j < k.len() implies s[(i + 1) + j] == #[trigger] k[j] by {
        assert(s[i + (j + 1)] == f[j + 1]);
        assert(f[j + 1] == k[j]);
    }
    lemma_entry(s, i, k, end);
}

/// The two fields of an object with a string and a number read back as what was written.
pub proof fn lemma_string_and_number(name: Seq<char>, t: Seq<char>, number_name: Seq<char>, n: u32)
    requires
        is_name(name),
        is_name(number_name),
        name != number_name,
    ensures
        json::string_field(
            encode_utf8(string_and_number(name, t, number_name, n)),
            encode_utf8(name),
        ) == Some(t),
        json::u32_field(
            encode_utf8(string_and_number(name, t, number_name, n)),
            encode_utf8(number_name),
        ) == Some(n),
{
    let open = encode_utf8(seq!['{']);
    let f1 = encode_utf8(label(name));
    let l = encode_utf8(json::literal(t));
    let comma = encode_utf8(seq![',']);
    let f2 = encode_utf8(label(number_name));
    let d = encode_utf8(text::decimal(n as nat));
    let close = encode_utf8(seq!['}']);
    let s = encode_utf8(string_and_number(name, t, number_name, n));
    let c1 = seq!['{'] + label(name);
    let c2 = c1 + json::literal(t);
    let c3 = c2 + seq![','];
    let c4 = c3 + label(number_name);
    let c5 = c4 + text::decimal(n as nat);
    text::lemma_encode_concat(seq!['{'], label(name));
    text::lemma_encode_concat(c1, json::literal(t));
    text::lemma_encode_concat(c2, seq![',']);
    text::lemma_encode_concat(c3, label(number_name));
    text::lemma_encode_concat(c4, text::decimal(n as nat));
    text::lemma_encode_concat(c5, seq!['}']);
    text::lemma_encode_ascii(seq!['{']);
    text::lemma_encode_ascii(seq![',']);
    text::lemma_encode_ascii(seq!['}']);
    let rest1 = l + comma + f2 + d + close;
    let rest2 = comma + f2 + d + close;
    let rest3 = f2 + d + close;
    let rest4 = d + close;
    assert(s =~= open + f1 + rest1);
    assert(s =~= (open + f1) + l + rest2);
    assert(s =~= (open + f1 + l) + comma + rest3);
    assert(s =~= (open + f1 + l + comma) + f2 + rest4);
    assert(s =~= (open + f1 + l + comma + f2) + d + close);
    lemma_stands_between(open, f1, rest1);
    lemma_stands_between(open + f1, l, rest2);
    lemma_stands_between(open + f1 + l, comma, rest3);
    lemma_stands_between(open + f1 + l + comma, f2, rest4);
    lemma_stands_between(open + f1 + l + comma + f2, d, close);
    let v1 = 1 + f1.len();
    let e1 = v1 + l.len();
    let i2 = e1 + 1;
    let v2 = i2 + f2.len();
    let e2 = v2 + d.len();
    assert(s[0] == BRACE_OPEN);
    lemma_literal_value(s, v1 as int, t);
    lemma_labelled(s, 1, name, e1 as int);
    assert(s[e1 as int] == comma[0]);
    assert(s[e2 as int] == close[0]);
    lemma_decimal_value(s, v2 as int, n);
    lemma_labelled(s, i2 as int, number_name, e2 as int);
    lemma_label_bytes(name);
    lemma_label_bytes(number_name);
    assert(encode_utf8(name) != encode_utf8(number_name)) by {
        if encode_utf8(name) == encode_utf8(number_name) {
            assert forall|i: int| 0 <= i < name.len() implies name[i] == number_name[i] by {
                assert(encode_utf8(name)[i] == name[i] as u8);
                assert(encode_utf8(number_name)[i] == number_name[i] as u8);
            }
            assert(name =~= number_name);
        }
    }
    assert(json::past_ws(s, 0) == Some(0int));
    assert(json::past_ws(s, e1 as int) == Some(e1 as int));
    assert(json::value_from(s, i2 as int, encode_utf8(number_name)) == Some(
        s.subrange(v2 as int, e2 as int),
    ));
    assert(json::value_from(s, 1, encode_utf8(number_name)) == json::value_from(
        s,
        i2 as int,
        encode_utf8(number_name),
    ));
}

// ---------- fields do not depend on what stands before them ----------

spec fn shifted(o: Option<int>, d: int) -> Option<int> {
    match o {
        Some(j) => Some(j + d),
        None => None,
    }
}

proof fn lemma_shift_ws(p: Seq<u8>, s: Seq<u8>, i: int)
    requires
        0 <= i,
    ensures
        json::past_ws(p + s, i + p.len()) == shifted(json::past_ws(s, i), p.len() as int),
    decreases s.len() - i,
{
    if i < s.len() {
        assert((p + s)[i + p.len()] == s[i]);
        if json::is_ws(s[i]) {
            lemma_shift_ws(p, s, i + 1);
        }
    }
}

proof fn lemma_shift_quote(p: Seq<u8>, s: Seq<u8>, j: int)
    requires
        0 <= j,
    ensures
        json::closing_quote(p + s, j + p.len()) == shifted(json::closing_quote(s, j), p.len() as int),
    decreases s.len() - j,
{
    if j < s.len() {
        assert((p + s)[j + p.len()] == s[j]);
        if s[j] == BACKSLASH {
            if j + 2 <= s.len() {
                lemma_shift_quote(p, s, j + 2);
            }
        } else if s[j] != QUOTE {
            lemma_shift_quote(p, s, j + 1);
        }
    }
}

proof fn lemma_shift_nested(p: Seq<u8>, s: Seq<u8>, j: int, open: u8, close: u8, depth: int)
    requires
        0 <= j,
    ensures
        json::nested_end(p + s, j + p.len(), open, close, depth) == shifted(
            json::nested_end(s, j, open, close, depth),
            p.len() as int,
        ),
    decreases s.len() - j,
{
    if j < s.len() {
        assert((p + s)[j + p.len()] == s[j]);
        if s[j] == QUOTE {
            lemma_shift_quote(p, s, j + 1);
            json::lemma_closing_quote(s, j + 1);
            if let Some(q) = json::closing_quote(s, j + 1) {
                lemma_shift_nested(p, s, q + 1, open, close, depth);
            }
        } else if s[j] == open {
            lemma_shift_nested(p, s, j + 1, open, close, depth + 1);
        } else if s[j] == close {
            lemma_shift_nested(p, s, j + 1, open, close, depth - 1);
        } else {
            lemma_shift_nested(p, s, j + 1, open, close, depth);
        }
    }
}

proof fn lemma_shift_number(p: Seq<u8>, s: Seq<u8>, j: int)
    requires
        0 <= j,
    ensures
        json::number_end(p + s, j + p.len()) == json::number_end(s, j) + p.len(),
    decreases s.len() - j,
{
    if j < s.len() {
        assert((p + s)[j + p.len()] == s[j]);
        if json::is_number_byte(s[j]) {
            lemma_shift_number(p, s, j + 1);
        }
    }
}

proof fn lemma_shift_word(p: Seq<u8>, s: Seq<u8>, i: int, word: Seq<u8>)
    requires
        0 <= i,
    ensures
        json::word_at(p + s, i + p.len(), word) == json::word_at(s, i, word),
{
    if i + word.len() <= s.len() {
        assert((p + s).subrange(i + p.len(), i + p.len() + word.len()) =~= s.subrange(
            i,
            i + word.len(),
        ));
    }
}

proof fn lemma_shift_value(p: Seq<u8>, s: Seq<u8>, i: int)
    requires
        0 <= i,
    ensures
        json::value_end(p + s, i + p.len()) == shifted(json::value_end(s, i), p.len() as int),
{
    if i < s.len() {
        assert((p + s)[i + p.len()] == s[i]);
        lemma_shift_quote(p, s, i + 1);
        lemma_shift_nested(p, s, i, BRACE_OPEN, BRACE_CLOSE, 0);
        lemma_shift_nested(p, s, i, BRACKET_OPEN, BRACKET_CLOSE, 0);
        lemma_shift_number(p, s, i);
        lemma_shift_word(p, s, i, json::true_bytes());
        lemma_shift_word(p, s, i, json::false_bytes());
        lemma_shift_word(p, s, i, json::null_bytes());
    }
}

proof fn lemma_shift_entry(p: Seq<u8>, s: Seq<u8>, i: int)
    requires
        0 <= i,
    ensures
        json::entry_at(s, i) is None ==> json::entry_at(p + s, i + p.len()) is None,
        json::entry_at(s, i) matches Some(e) ==> {
            &&& json::entry_at(p + s, i + p.len()) == Some(
                json::Entry {
                    key_from: e.key_from + p.len(),
                    key_to: e.key_to + p.len(),
                    from: e.from + p.len(),
                    to: e.to + p.len(),
                },
            )
            &&& i < e.key_from <= e.key_to < e.from < e.to <= s.len()
        },
{
    lemma_shift_ws(p, s, i);
    json::lemma_past_ws(s, i);
    if let Some(j) = json::past_ws(s, i) {
        assert((p + s)[j + p.len()] == s[j]);
        lemma_shift_quote(p, s, j + 1);
        json::lemma_closing_quote(s, j + 1);
        if let Some(q) = json::closing_quote(s, j + 1) {
            lemma_shift_ws(p, s, q + 1);
            json::lemma_past_ws(s, q + 1);
            if let Some(k) = json::past_ws(s, q + 1) {
                assert((p + s)[k + p.len()] == s[k]);
                lemma_shift_ws(p, s, k + 1);
                json::lemma_past_ws(s, k + 1);
                if let Some(v) = json::past_ws(s, k + 1) {
                    lemma_shift_value(p, s, v);
                    json::lemma_value_end(s, v);
                }
            }
        }
    }
}

proof fn lemma_shift_from(p: Seq<u8>, s: Seq<u8>, i: int, key: Seq<u8>)
    requires
        0 <= i,
    ensures
        json::value_from(p + s, i + p.len(), key) == json::value_from(s, i, key),
    decreases s.len() - i,
{
    lemma_shift_entry(p, s, i);
    if let Some(e) = json::entry_at(s, i) {
        let d = p.len() as int;
        assert((p + s).subrange(e.key_from + d, e.key_to + d) =~= s.subrange(e.key_from, e.key_to));
        assert((p + s).subrange(e.from + d, e.to + d) =~= s.subrange(e.from, e.to));
        lemma_shift_ws(p, s, e.to);
        json::lemma_past_ws(s, e.to);
        if let Some(k) = json::past_ws(s, e.to) {
            assert((p + s)[k + d] == s[k]);
            if s[k] == COMMA {
                lemma_shift_from(p, s, k + 1, key);
            }
        }
    }
}

/// A field that nobody asks for does not matter: an object reads the same with a further
/// field in front, be its value a string, a number, a word, an object or an array.
pub proof fn law_unknown_field_is_ignored(
    name: Seq<char>,
    value: Seq<u8>,
    rest: Seq<u8>,
    key: Seq<u8>,
)
    requires
        is_name(name),
        key != encode_utf8(name),
        value.len() > 0,
        !json::is_ws(value[0]),
        json::value_end(value + seq![COMMA] + rest, 0) == Some(value.len() as int),
    ensures
        json::raw_field(
            seq![BRACE_OPEN] + encode_utf8(label(name)) + value + seq![COMMA] + rest,
            key,
        ) == json::raw_field(seq![BRACE_OPEN] + rest, key),
{
    let open = seq![BRACE_OPEN];
    let f = encode_utf8(label(name));
    let pre = open + f + value + seq![COMMA];
    let s = pre + rest;
    let tail = value + seq![COMMA] + rest;
    assert(s =~= open + f + tail);
    assert(s =~= (open + f) + tail);
    lemma_stands_between(open, f, tail);
    let v = 1 + f.len();
    let e = v + value.len();
    lemma_shift_value(open + f, tail, 0);
    assert(s[v as int] == value[0]);
    lemma_labelled(s, 1, name, e as int);
    assert(s[e as int] == COMMA);
    assert(json::past_ws(s, e as int) == Some(e as int));
    assert(s[0] == BRACE_OPEN);
    assert(json::past_ws(s, 0) == Some(0int));
    assert(pre.len() == e + 1);
    lemma_shift_from(pre, rest, 0, key);
    assert(json::value_from(s, 1, key) == json::value_from(s, (e + 1) as int, key));
    let m = open + rest;
    assert(m[0] == BRACE_OPEN);
    assert(json::past_ws(m, 0) == Some(0int));
    lemma_shift_from(open, rest, 0, key);
}

/// A text written as a string literal is such a value.
pub proof fn law_literal_is_a_value(t: Seq<char>, rest: Seq<u8>)
    ensures
        ({
            let value = encode_utf8(json::literal(t));
            &&& value.len() > 0
            &&& value[0] == QUOTE
            &&& json::value_end(value + seq![COMMA] + rest, 0) == Some(value.len() as int)
        }),
{
    let value = encode_utf8(json::literal(t));
    let s = value + seq![COMMA] + rest;
    assert(s =~= Seq::<u8>::empty() + value + (seq![COMMA] + rest));
    lemma_stands_between(Seq::<u8>::empty(), value, seq![COMMA] + rest);
    lemma_literal_value(s, 0, t);
}

// ---------- fields of an object ----------

/// A value that ends where it should, whatever comes behind it.
pub open spec fn whole_value(v: Seq<u8>) -> bool {
    &&& v.len() > 0
    &&& !json::is_ws(v[0])
    &&& forall|tail: Seq<u8>|
        tail.len() > 0 && (blank_byte(tail[0]) || tail[0] == COMMA || tail[0] == BRACE_CLOSE)
            ==> #[trigger] json::value_end(v + tail, 0) == Some(v.len() as int)
}

/// A space, a tab, or the end of a line.
pub open spec fn blank_byte(b: u8) -> bool {
    b == 0x20 || b == 0x09 || b == 0x0a || b == 0x0d
}

pub open spec fn all_blank(s: Seq<u8>) -> bool {
    forall|i: int| 0 <= i < s.len() ==> blank_byte(#[trigger] s[i])
}

/// A field of an object as it is written, with the white space around its parts.
pub struct Field {
    pub name: Seq<char>,
    pub value: Seq<u8>,
    pub before_name: Seq<u8>,
    pub before_colon: Seq<u8>,
    pub before_value: Seq<u8>,
    pub behind: Seq<u8>,
}

pub open spec fn good_field(f: Field) -> bool {
    &&& is_name(f.name)
    &&& whole_value(f.value)
    &&& all_blank(f.before_name)
    &&& all_blank(f.before_colon)
    &&& all_blank(f.before_value)
    &&& all_blank(f.behind)
}

/// A name with its quotes and its colon.
pub open spec fn name_part(f: Field) -> Seq<u8> {
    f.before_name + seq![QUOTE] + encode_utf8(f.name) + seq![QUOTE] + f.before_colon + seq![COLON]
}

/// A value with the white space around it.
pub open spec fn value_part(f: Field) -> Seq<u8> {
    f.before_value + f.value + f.behind
}

pub open spec fn field_bytes(f: Field) -> Seq<u8> {
    name_part(f) + value_part(f)
}

/// Fields one behind the other, with commas between them.
pub open spec fn fields_bytes(fs: Seq<Field>) -> Seq<u8>
    decreases fs.len(),
{
    if fs.len() == 0 {
        Seq::empty()
    } else if fs.len() == 1 {
        field_bytes(fs[0])
    } else {
        field_bytes(fs[0]) + seq![COMMA] + fields_bytes(fs.drop_first())
    }
}

/// An object as it is written, with what stands before and behind it.
pub open spec fn object_bytes(lead: Seq<u8>, fs: Seq<Field>, rest: Seq<u8>) -> Seq<u8> {
    lead + seq![BRACE_OPEN] + fields_bytes(fs) + seq![BRACE_CLOSE] + rest
}

/// The value of the first field with a name.
pub open spec fn first_value(fs: Seq<Field>, name: Seq<char>) -> Option<Seq<u8>>
    decreases fs.len(),
{
    if fs.len() == 0 {
        None
    } else if fs[0].name == name {
        Some(fs[0].value)
    } else {
        first_value(fs.drop_first(), name)
    }
}

proof fn lemma_blank_run(s: Seq<u8>, i: int, j: int)
    requires
        0 <= i <= j < s.len(),
        forall|k: int| i <= k < j ==> blank_byte(#[trigger] s[k]),
        !blank_byte(s[j]),
    ensures
        json::past_ws(s, i) == Some(j),
    decreases j - i,
{
    if i < j {
        assert(blank_byte(s[i]));
        lemma_blank_run(s, i + 1, j);
    }
}

proof fn lemma_names_apart(a: Seq<char>, b: Seq<char>)
    requires
        is_name(a),
        is_name(b),
    ensures
        encode_utf8(a) == encode_utf8(b) ==> a == b,
{
    lemma_label_bytes(a);
    lemma_label_bytes(b);
    if encode_utf8(a) == encode_utf8(b) {
        assert forall|i: int| 0 <= i < a.len() implies a[i] == b[i] by {
            assert(encode_utf8(a)[i] == a[i] as u8);
            assert(encode_utf8(b)[i] == b[i] as u8);
        }
        assert(a =~= b);
    }
}

proof fn lemma_blank_at(s: Seq<u8>, i: int, x: Seq<u8>)
    requires
        stands_at(s, i, x),
        all_blank(x),
    ensures
        forall|k: int| i <= k < i + x.len() ==> blank_byte(#[trigger] s[k]),
{
    assert forall|k: int| i <= k < i + x.len() implies blank_byte(#[trigger] s[k]) by {
        assert(s[i + (k - i)] == x[k - i]);
    }
}

#[verifier::spinoff_prover]
proof fn lemma_name_part(s: Seq<u8>, pre: Seq<u8>, f: Field, post: Seq<u8>)
    requires
        good_field(f),
        s == pre + name_part(f) + post,
    ensures
        ({
            let i0 = (pre.len() + f.before_name.len()) as int;
            let i1 = i0 + 1 + encode_utf8(f.name).len();
            let i2 = i1 + 1 + f.before_colon.len();
            &&& i2 + 1 == pre.len() + name_part(f).len()
            &&& i2 < s.len()
            &&& json::past_ws(s, pre.len() as int) == Some(i0)
            &&& s[i0] == QUOTE
            &&& json::closing_quote(s, i0 + 1) == Some(i1)
            &&& json::past_ws(s, i1 + 1) == Some(i2)
            &&& s[i2] == COLON
            &&& s.subrange(i0 + 1, i1) == encode_utf8(f.name)
        }),
{
    let n = encode_utf8(f.name);
    let i0 = (pre.len() + f.before_name.len()) as int;
    let i1 = i0 + 1 + n.len();
    let i2 = i1 + 1 + f.before_colon.len();
    let part = name_part(f);
    assert(stands_at(s, pre.len() as int, part)) by {
        lemma_stands_between(pre, part, post);
    }
    assert forall|k: int| 0 <= k < f.before_name.len() implies s[pre.len() + k]
        == #[trigger] f.before_name[k] by {
        assert(part[k] == f.before_name[k]);
    }
    lemma_blank_at(s, pre.len() as int, f.before_name);
    assert(part[f.before_name.len() as int] == QUOTE);
    assert(s[i0] == part[f.before_name.len() as int]);
    lemma_blank_run(s, pre.len() as int, i0);
    assert forall|k: int| 0 <= k < n.len() implies s[(i0 + 1) + k] == #[trigger] n[k] by {
        assert(part[f.before_name.len() + 1 + k] == n[k]);
        assert(s[pre.len() + (f.before_name.len() + 1 + k)] == part[f.before_name.len() + 1 + k]);
    }
    lemma_label_bytes(f.name);
    assert forall|k: int| i0 + 1 <= k < i1 implies #[trigger] s[k] != QUOTE && s[k] != BACKSLASH by {
        assert(s[(i0 + 1) + (k - i0 - 1)] == n[k - i0 - 1]);
    }
    assert(part[i1 - pre.len()] == QUOTE);
    assert(s[pre.len() + (i1 - pre.len())] == part[i1 - pre.len()]);
    lemma_plain_run(s, i0 + 1, i1);
    assert(json::closing_quote(s, i1) == Some(i1));
    assert forall|k: int| 0 <= k < f.before_colon.len() implies s[(i1 + 1) + k]
        == #[trigger] f.before_colon[k] by {
        assert(part[(i1 + 1 - pre.len()) + k] == f.before_colon[k]);
        assert(s[pre.len() + ((i1 + 1 - pre.len()) + k)] == part[(i1 + 1 - pre.len()) + k]);
    }
    lemma_blank_at(s, i1 + 1, f.before_colon);
    assert(part[i2 - pre.len()] == COLON);
    assert(s[pre.len() + (i2 - pre.len())] == part[i2 - pre.len()]);
    lemma_blank_run(s, i1 + 1, i2);
    assert(s.subrange(i0 + 1, i1) =~= n) by {
        assert forall|k: int| 0 <= k < n.len() implies s.subrange(i0 + 1, i1)[k] == n[k] by {
            assert(s[(i0 + 1) + k] == n[k]);
        }
    }
}

#[verifier::spinoff_prover]
proof fn lemma_value_part(s: Seq<u8>, pre: Seq<u8>, f: Field, post: Seq<u8>)
    requires
        good_field(f),
        s == pre + value_part(f) + post,
        post.len() > 0,
        post[0] == COMMA || post[0] == BRACE_CLOSE,
    ensures
        ({
            let i3 = (pre.len() + f.before_value.len()) as int;
            let i4 = i3 + f.value.len();
            let i5 = i4 + f.behind.len();
            &&& i5 == pre.len() + value_part(f).len()
            &&& i5 < s.len()
            &&& json::past_ws(s, pre.len() as int) == Some(i3)
            &&& json::value_end(s, i3) == Some(i4)
            &&& json::past_ws(s, i4) == Some(i5)
            &&& s[i5] == post[0]
            &&& s.subrange(i3, i4) == f.value
        }),
{
    let i3 = (pre.len() + f.before_value.len()) as int;
    let i4 = i3 + f.value.len();
    let i5 = i4 + f.behind.len();
    let p7 = pre + f.before_value;
    let r8 = f.behind + post;
    let r7 = f.value + r8;
    assert(s =~= p7 + r7);
    assert(s =~= pre + f.before_value + r7);
    lemma_stands_between(pre, f.before_value, r7);
    lemma_blank_at(s, pre.len() as int, f.before_value);
    assert(s[i3] == f.value[0]);
    lemma_blank_run(s, pre.len() as int, i3);
    let p8 = p7 + f.value;
    assert(s =~= p8 + f.behind + post);
    lemma_stands_between(p8, f.behind, post);
    lemma_blank_at(s, i4, f.behind);
    assert(s[i5] == post[0]);
    lemma_blank_run(s, i4, i5);
    assert(r8[0] == (if f.behind.len() > 0 {
        f.behind[0]
    } else {
        post[0]
    }));
    assert(json::value_end(f.value + r8, 0) == Some(f.value.len() as int));
    lemma_shift_value(p7, r7, 0);
    assert(s.subrange(i3, i4) =~= f.value);
}

/// A field is the entry that starts where it stands.
#[verifier::spinoff_prover]
proof fn lemma_field_at(s: Seq<u8>, pre: Seq<u8>, f: Field, post: Seq<u8>)
    requires
        good_field(f),
        s == pre + field_bytes(f) + post,
        post.len() > 0,
        post[0] == COMMA || post[0] == BRACE_CLOSE,
    ensures
        json::entry_at(s, pre.len() as int) matches Some(e) && {
            &&& s.subrange(e.key_from, e.key_to) == encode_utf8(f.name)
            &&& s.subrange(e.from, e.to) == f.value
            &&& json::past_ws(s, e.to) == Some((pre.len() + field_bytes(f).len()) as int)
        },
        s[(pre.len() + field_bytes(f).len()) as int] == post[0],
{
    assert(s =~= pre + name_part(f) + (value_part(f) + post));
    assert(s =~= (pre + name_part(f)) + value_part(f) + post);
    lemma_name_part(s, pre, f, value_part(f) + post);
    lemma_value_part(s, pre + name_part(f), f, post);
}

proof fn lemma_lookup(s: Seq<u8>, pre: Seq<u8>, fs: Seq<Field>, rest: Seq<u8>, name: Seq<char>)
    requires
        fs.len() > 0,
        forall|i: int| 0 <= i < fs.len() ==> good_field(#[trigger] fs[i]),
        is_name(name),
        s == pre + fields_bytes(fs) + (seq![BRACE_CLOSE] + rest),
    ensures
        json::value_from(s, pre.len() as int, encode_utf8(name)) == first_value(fs, name),
    decreases fs.len(),
{
    let f = fs[0];
    let more = fs.drop_first();
    assert(good_field(f));
    lemma_names_apart(f.name, name);
    if fs.len() == 1 {
        let post = seq![BRACE_CLOSE] + rest;
        lemma_field_at(s, pre, f, post);
        assert(more =~= Seq::<Field>::empty());
    } else {
        let post = seq![COMMA] + fields_bytes(more) + (seq![BRACE_CLOSE] + rest);
        assert(s =~= pre + field_bytes(f) + post);
        lemma_field_at(s, pre, f, post);
        let pre2 = pre + field_bytes(f) + seq![COMMA];
        assert(s =~= pre2 + fields_bytes(more) + (seq![BRACE_CLOSE] + rest));
        assert forall|i: int| 0 <= i < more.len() implies good_field(#[trigger] more[i]) by {
            assert(good_field(fs[i + 1]));
        }
        lemma_lookup(s, pre2, more, rest, name);
    }
}

/// A field is found wherever in an object it stands and whatever stands around it: other
/// fields, white space between the parts, and anything behind the object. Of two fields with
/// one name the first counts, and a field that is not there is not found.
pub proof fn law_field_is_found(
    lead: Seq<u8>,
    fs: Seq<Field>,
    rest: Seq<u8>,
    name: Seq<char>,
)
    requires
        all_blank(lead),
        fs.len() > 0,
        forall|i: int| 0 <= i < fs.len() ==> good_field(#[trigger] fs[i]),
        is_name(name),
    ensures
        json::raw_field(object_bytes(lead, fs, rest), encode_utf8(name)) == first_value(fs, name),
{
    let s = object_bytes(lead, fs, rest);
    let pre = lead + seq![BRACE_OPEN];
    assert(s =~= pre + fields_bytes(fs) + (seq![BRACE_CLOSE] + rest));
    assert(s =~= Seq::<u8>::empty() + lead + (seq![BRACE_OPEN] + fields_bytes(fs) + (seq![
        BRACE_CLOSE,
    ] + rest)));
    lemma_stands_between(
        Seq::<u8>::empty(),
        lead,
        seq![BRACE_OPEN] + fields_bytes(fs) + (seq![BRACE_CLOSE] + rest),
    );
    lemma_blank_at(s, 0, lead);
    assert(s[lead.len() as int] == BRACE_OPEN);
    lemma_blank_run(s, 0, lead.len() as int);
    lemma_lookup(s, pre, fs, rest, name);
}

/// A text that was written as a string is a value, and reads back as the text.
pub proof fn law_string_value(t: Seq<char>)
    ensures
        whole_value(encode_utf8(json::literal(t))),
        ({
            let raw = encode_utf8(json::literal(t));
            &&& raw.len() >= 2
            &&& raw[0] == QUOTE
            &&& json::unescaped(raw.subrange(1, raw.len() - 1)) == t
        }),
{
    let raw = encode_utf8(json::literal(t));
    assert forall|tail: Seq<u8>|
        tail.len() > 0 && (blank_byte(tail[0]) || tail[0] == COMMA || tail[0] == BRACE_CLOSE) implies
        #[trigger] json::value_end(raw + tail, 0) == Some(raw.len() as int) by {
        let s = raw + tail;
        assert(s =~= Seq::<u8>::empty() + raw + tail);
        lemma_stands_between(Seq::<u8>::empty(), raw, tail);
        lemma_literal_value(s, 0, t);
    }
    assert(raw =~= Seq::<u8>::empty() + raw + Seq::<u8>::empty());
    lemma_stands_between(Seq::<u8>::empty(), raw, Seq::<u8>::empty());
    lemma_literal_value(raw, 0, t);
    assert(raw.subrange(0, raw.len() as int) =~= raw);
}

/// The bytes of a boolean.
pub open spec fn flag_bytes(b: bool) -> Seq<u8> {
    if b {
        seq![0x74u8, 0x72u8, 0x75u8, 0x65u8]
    } else {
        seq![0x66u8, 0x61u8, 0x6cu8, 0x73u8, 0x65u8]
    }
}

/// `true` and `false` are values.
pub proof fn law_flag_value(b: bool)
    ensures
        whole_value(flag_bytes(b)),
{
    let raw = flag_bytes(b);
    assert forall|tail: Seq<u8>|
        tail.len() > 0 && (blank_byte(tail[0]) || tail[0] == COMMA || tail[0] == BRACE_CLOSE) implies
        #[trigger] json::value_end(raw + tail, 0) == Some(raw.len() as int) by {
        let s = raw + tail;
        assert(s.subrange(0, raw.len() as int) =~= raw);
    }
}

/// A decimal number is a value, and reads back as the number.
pub proof fn law_number_value(n: u32)
    ensures
        whole_value(encode_utf8(text::decimal(n as nat))),
        json::unsigned_number(encode_utf8(text::decimal(n as nat))) == Some(n),
{
    let raw = encode_utf8(text::decimal(n as nat));
    lemma_decimal_reads_back(n as nat);
    assert(json::is_digit(raw[0]));
    assert forall|tail: Seq<u8>|
        tail.len() > 0 && (blank_byte(tail[0]) || tail[0] == COMMA || tail[0] == BRACE_CLOSE) implies
        #[trigger] json::value_end(raw + tail, 0) == Some(raw.len() as int) by {
        let s = raw + tail;
        assert(s =~= Seq::<u8>::empty() + raw + tail);
        lemma_stands_between(Seq::<u8>::empty(), raw, tail);
        lemma_decimal_value(s, 0, n);
    }
    let s = raw + seq![COMMA];
    assert(s =~= Seq::<u8>::empty() + raw + seq![COMMA]);
    lemma_stands_between(Seq::<u8>::empty(), raw, seq![COMMA]);
    lemma_decimal_value(s, 0, n);
    assert(s.subrange(0, raw.len() as int) =~= raw);
}

/// An object or an array around a string is one value: brackets in the string do not count.
pub proof fn law_nested_value(t: Seq<char>)
    ensures
        whole_value(seq![BRACE_OPEN] + encode_utf8(json::literal(t)) + seq![BRACE_CLOSE]),
        whole_value(seq![BRACKET_OPEN] + encode_utf8(json::literal(t)) + seq![BRACKET_CLOSE]),
{
    lemma_nested_value(t, BRACE_OPEN, BRACE_CLOSE);
    lemma_nested_value(t, BRACKET_OPEN, BRACKET_CLOSE);
}

proof fn lemma_nested_value(t: Seq<char>, open: u8, close: u8)
    requires
        (open == BRACE_OPEN && close == BRACE_CLOSE) || (open == BRACKET_OPEN && close
            == BRACKET_CLOSE),
    ensures
        whole_value(seq![open] + encode_utf8(json::literal(t)) + seq![close]),
{
    let lit = encode_utf8(json::literal(t));
    let raw = seq![open] + lit + seq![close];
    assert forall|tail: Seq<u8>|
        tail.len() > 0 && (blank_byte(tail[0]) || tail[0] == COMMA || tail[0] == BRACE_CLOSE) implies
        #[trigger] json::value_end(raw + tail, 0) == Some(raw.len() as int) by {
        let s = raw + tail;
        assert(s =~= seq![open] + lit + (seq![close] + tail));
        lemma_stands_between(seq![open], lit, seq![close] + tail);
        lemma_literal_value(s, 1, t);
        let q = lit.len() as int;
        assert(s[0] == open);
        assert(s[1] == QUOTE);
        assert(json::closing_quote(s, 2) == Some(q));
        assert(s[q + 1] == close);
        assert(json::nested_end(s, q + 1, open, close, 1) == Some(q + 2));
        assert(json::nested_end(s, 1, open, close, 1) == Some(q + 2));
        assert(json::nested_end(s, 0, open, close, 0) == Some(q + 2));
    }
}

/// A code of four hexadecimal digits stands for the character with that code. Half of a
/// surrogate pair, which is no character, shows as the replacement character.
pub proof fn law_code_escape(a: int, b: int, c: int, d: int, tail: Seq<u8>)
    requires
        0 <= a < 16,
        0 <= b < 16,
        0 <= c < 16,
        0 <= d < 16,
    ensures
        ({
            let s = seq![
                BACKSLASH,
                0x75u8,
                json::hex_char(a) as u8,
                json::hex_char(b) as u8,
                json::hex_char(c) as u8,
                json::hex_char(d) as u8,
            ] + tail;
            let code = a * 4096 + b * 256 + c * 16 + d;
            &&& code < 0xd800 || 0xe000 <= code ==> json::unescaped(s) == seq![code as char]
                + json::unescaped(tail)
            &&& 0xd800 <= code < 0xe000 ==> json::unescaped(s) == seq!['\u{fffd}']
                + json::unescaped(tail)
        }),
{
    let s = seq![
        BACKSLASH,
        0x75u8,
        json::hex_char(a) as u8,
        json::hex_char(b) as u8,
        json::hex_char(c) as u8,
        json::hex_char(d) as u8,
    ] + tail;
    lemma_hex_char(a);
    lemma_hex_char(b);
    lemma_hex_char(c);
    lemma_hex_char(d);
    assert(s.skip(6) =~= tail);
    assert(json::hex4(s, 2) == Some(a * 4096 + b * 256 + c * 16 + d));
}

/// The short escapes: a quote, a backslash, a slash, and the control characters that have one.
pub proof fn law_short_escapes(tail: Seq<u8>)
    ensures
        json::unescaped(seq![BACKSLASH, 0x22u8] + tail) == seq!['"'] + json::unescaped(tail),
        json::unescaped(seq![BACKSLASH, 0x5cu8] + tail) == seq!['\\'] + json::unescaped(tail),
        json::unescaped(seq![BACKSLASH, 0x2fu8] + tail) == seq!['/'] + json::unescaped(tail),
        json::unescaped(seq![BACKSLASH, 0x62u8] + tail) == seq!['\u{8}'] + json::unescaped(tail),
        json::unescaped(seq![BACKSLASH, 0x66u8] + tail) == seq!['\u{c}'] + json::unescaped(tail),
        json::unescaped(seq![BACKSLASH, 0x6eu8] + tail) == seq!['\n'] + json::unescaped(tail),
        json::unescaped(seq![BACKSLASH, 0x72u8] + tail) == seq!['\r'] + json::unescaped(tail),
        json::unescaped(seq![BACKSLASH, 0x74u8] + tail) == seq!['\t'] + json::unescaped(tail),
{
    assert((seq![BACKSLASH, 0x22u8] + tail).skip(2) =~= tail);
    assert((seq![BACKSLASH, 0x5cu8] + tail).skip(2) =~= tail);
    assert((seq![BACKSLASH, 0x2fu8] + tail).skip(2) =~= tail);
    assert((seq![BACKSLASH, 0x62u8] + tail).skip(2) =~= tail);
    assert((seq![BACKSLASH, 0x66u8] + tail).skip(2) =~= tail);
    assert((seq![BACKSLASH, 0x6eu8] + tail).skip(2) =~= tail);
    assert((seq![BACKSLASH, 0x72u8] + tail).skip(2) =~= tail);
    assert((seq![BACKSLASH, 0x74u8] + tail).skip(2) =~= tail);
}

proof fn lemma_encode_cons(c: char, rest: Seq<char>)
    ensures
        encode_utf8(seq![c] + rest) == encode_scalar(c as u32) + encode_utf8(rest),
{
    lemma_encode_one(c);
    text::lemma_encode_concat(seq![c], rest);
}

/// Text without a backslash reads as it stands, in whatever script.
pub proof fn law_plain_text_reads_as_is(t: Seq<char>)
    requires
        forall|i: int| 0 <= i < t.len() ==> #[trigger] t[i] != '\\' && t[i] != '"',
    ensures
        json::unescaped(encode_utf8(t)) == t,
    decreases t.len(),
{
    let s = encode_utf8(t);
    if t.len() == 0 {
        assert(s =~= Seq::<u8>::empty());
        assert(json::unescaped(s) =~= t);
    } else {
        let c = t[0];
        let rest = t.drop_first();
        assert(c != '\\' && c != '"');
        assert forall|i: int| 0 <= i < rest.len() implies #[trigger] rest[i] != '\\' && rest[i]
            != '"' by {
            assert(t[i + 1] != '\\');
        }
        law_plain_text_reads_as_is(rest);
        assert(seq![c] + rest =~= t);
        lemma_encode_cons(c, rest);
        lemma_plain_bytes(c);
        encode_utf8_first_scalar(t);
        char_u32_cast(c, decode_first_scalar(s));
        assert(s[0] == encode_scalar(c as u32)[0]);
        assert(json::escape_at(s) is None);
        assert(pop_first_scalar(s) =~= encode_utf8(rest));
    }
}

/// A number is read where it fits 32 bits, with or without a plus sign; anything that holds
/// another byte than a digit is no number.
pub proof fn law_number_reading(n: nat, raw: Seq<u8>, i: int)
    requires
        0 <= i < raw.len(),
        !json::is_digit(raw[i]),
        i > 0 || raw[0] != 0x2b,
    ensures
        ({
            let d = encode_utf8(text::decimal(n));
            &&& n <= u32::MAX ==> json::unsigned_number(d) == Some(n as u32)
            &&& n <= u32::MAX ==> json::unsigned_number(seq![0x2bu8] + d) == Some(n as u32)
            &&& n > u32::MAX ==> json::unsigned_number(d) is None
        }),
        json::unsigned_number(raw) is None,
{
    lemma_decimal_reads_back(n);
    let d = encode_utf8(text::decimal(n));
    assert(json::is_digit(d[0]));
    assert((seq![0x2bu8] + d).skip(1) =~= d);
    let u = json::unsigned_digits(raw);
    if raw[0] == 0x2b {
        assert(u[i - 1] == raw[i]);
    } else {
        assert(u[i] == raw[i]);
    }
}

/// A field without any white space.
pub open spec fn compact(name: Seq<char>, value: Seq<u8>) -> Field {
    Field {
        name,
        value,
        before_name: Seq::empty(),
        before_colon: Seq::empty(),
        before_value: Seq::empty(),
        behind: Seq::empty(),
    }
}

/// An object of two fields without any white space is its parts in a row.
pub proof fn lemma_compact_pair(a: Seq<char>, av: Seq<char>, b: Seq<char>, bv: Seq<char>)
    requires
        is_name(a),
        is_name(b),
    ensures
        object_bytes(
            Seq::empty(),
            seq![compact(a, encode_utf8(av)), compact(b, encode_utf8(bv))],
            Seq::empty(),
        ) == encode_utf8(seq!['{'] + label(a) + av + seq![','] + label(b) + bv + seq!['}']),
{
    let fa = compact(a, encode_utf8(av));
    let fb = compact(b, encode_utf8(bv));
    let fs = seq![fa, fb];
    lemma_compact_field(a, encode_utf8(av));
    lemma_compact_field(b, encode_utf8(bv));
    assert(fs.drop_first() =~= seq![fb]);
    assert(fields_bytes(seq![fb]) == field_bytes(fb));
    assert(fields_bytes(fs) == field_bytes(fa) + seq![COMMA] + field_bytes(fb));
    let c1 = seq!['{'] + label(a);
    let c2 = c1 + av;
    let c3 = c2 + seq![','];
    let c4 = c3 + label(b);
    let c5 = c4 + bv;
    text::lemma_encode_concat(seq!['{'], label(a));
    text::lemma_encode_concat(c1, av);
    text::lemma_encode_concat(c2, seq![',']);
    text::lemma_encode_concat(c3, label(b));
    text::lemma_encode_concat(c4, bv);
    text::lemma_encode_concat(c5, seq!['}']);
    text::lemma_encode_ascii(seq!['{']);
    text::lemma_encode_ascii(seq![',']);
    text::lemma_encode_ascii(seq!['}']);
    assert(encode_utf8(seq!['{']) =~= seq![BRACE_OPEN]);
    assert(encode_utf8(seq![',']) =~= seq![COMMA]);
    assert(encode_utf8(seq!['}']) =~= seq![BRACE_CLOSE]);
    assert(object_bytes(Seq::empty(), fs, Seq::empty()) =~= encode_utf8(c5 + seq!['}']));
}

proof fn lemma_compact_field(name: Seq<char>, value: Seq<u8>)
    requires
        is_name(name),
    ensures
        field_bytes(compact(name, value)) == encode_utf8(label(name)) + value,
{
    lemma_label_bytes(name);
    let f = compact(name, value);
    assert(name_part(f) =~= encode_utf8(label(name)));
    assert(value_part(f) =~= value);
}

/// A field is read as what it is: a text is no number and no flag, a number is no text and no
/// flag, and a flag is no text and no number.
pub proof fn law_values_are_not_mixed_up(s: Seq<u8>, key: Seq<u8>, t: Seq<char>, n: u32, b: bool)
    ensures
        json::raw_field(s, key) == Some(encode_utf8(json::literal(t))) ==> json::string_field(s, key)
            == Some(t) && json::u32_field(s, key) is None && json::bool_field(s, key) is None,
        json::raw_field(s, key) == Some(encode_utf8(text::decimal(n as nat))) ==> json::u32_field(
            s,
            key,
        ) == Some(n) && json::string_field(s, key) is None && json::bool_field(s, key) is None,
        json::raw_field(s, key) == Some(flag_bytes(b)) ==> json::bool_field(s, key) == Some(b)
            && json::string_field(s, key) is None && json::u32_field(s, key) is None,
        json::raw_field(s, key) is None ==> json::string_field(s, key) is None && json::u32_field(
            s,
            key,
        ) is None && json::bool_field(s, key) is None,
{
    law_string_value(t);
    law_number_value(n);
    lemma_decimal_reads_back(n as nat);
    let lit = encode_utf8(json::literal(t));
    let num = encode_utf8(text::decimal(n as nat));
    assert(json::is_digit(num[0]));
    assert(!json::is_digit(lit[0]));
    assert(json::unsigned_digits(lit)[0] == lit[0]);
    assert(json::true_bytes()[0] == 0x74);
    assert(json::false_bytes()[0] == 0x66);
    assert(flag_bytes(true) =~= json::true_bytes());
    assert(flag_bytes(false) =~= json::false_bytes());
    let f = flag_bytes(b);
    assert(!json::is_digit(f[0]));
    assert(json::unsigned_digits(f)[0] == f[0]);
}

/// What does not begin with an object has no fields.
pub proof fn law_no_object_no_field(lead: Seq<u8>, x: u8, rest: Seq<u8>, key: Seq<u8>)
    requires
        all_blank(lead),
        !blank_byte(x),
        x != BRACE_OPEN,
    ensures
        json::raw_field(lead + seq![x] + rest, key) is None,
{
    let s = lead + seq![x] + rest;
    assert(s =~= Seq::<u8>::empty() + lead + (seq![x] + rest));
    lemma_stands_between(Seq::<u8>::empty(), lead, seq![x] + rest);
    lemma_blank_at(s, 0, lead);
    assert(s[lead.len() as int] == x);
    lemma_blank_run(s, 0, lead.len() as int);
}

/// A number is written without zeros in front: only nothing begins with a zero.
pub proof fn law_no_leading_zero(n: nat)
    ensures
        text::decimal(n).len() > 0,
        text::decimal(n)[0] == '0' ==> n == 0 && text::decimal(n).len() == 1,
    decreases n,
{
    if n >= 10 {
        law_no_leading_zero(n / 10);
        assert(text::decimal(n)[0] == text::decimal(n / 10)[0]);
    }
}

} // verus!
