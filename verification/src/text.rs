//! Strings as sequences of characters: conversions, decimal numbers, and the UTF-8
//! decoding of single scalars.
use vstd::prelude::*;
use vstd::utf8::*;

verus! {

/// `String::push` appends one character.
pub assume_specification[ String::push ](s: &mut String, c: char)
    ensures
        final(s)@ == old(s)@.push(c),
;

/// `String::push_str` appends the characters of the slice.
pub assume_specification[ String::push_str ](s: &mut String, t: &str)
    ensures
        final(s)@ == old(s)@ + t@,
;

/// `String::clear` leaves the empty string.
pub assume_specification[ String::clear ](s: &mut String)
    ensures
        final(s)@ == Seq::<char>::empty(),
;

/// `char::from_u32` gives the character with the given code, which exists exactly
/// for the Unicode scalar values.
pub assume_specification[ char::from_u32 ](i: u32) -> (c: Option<char>)
    ensures
        c is Some <==> is_scalar(i),
        c is Some ==> c->0 as u32 == i,
;

/// The characters of a string slice.
pub fn chars_of(s: &str) -> (v: Vec<char>)
    ensures
        v@ == s@,
{
    let mut v: Vec<char> = Vec::new();
    for c in it: s.chars()
        invariant
            it.seq() == s@,
            v@ == s@.take(it.index() as int),
    {
        v.push(c);
    }
    assert(s@.take(s@.len() as int) =~= s@);
    v
}

/// The string made of the characters `chars[from..to]`.
pub fn string_of(chars: &[char], from: usize, to: usize) -> (s: String)
    requires
        from <= to <= chars@.len(),
    ensures
        s@ == chars@.subrange(from as int, to as int),
{
    let mut s = String::new();
    let mut i: usize = from;
    assert(chars@.subrange(from as int, from as int) =~= Seq::<char>::empty());
    while i < to
        invariant
            from <= i <= to <= chars@.len(),
            s@ == chars@.subrange(from as int, i as int),
        decreases to - i,
    {
        s.push(chars[i]);
        assert(chars@.subrange(from as int, i + 1) =~= chars@.subrange(from as int, i as int).push(
            chars@[i as int],
        ));
        i = i + 1;
    }
    s
}

/// Whether a string equals a literal.
pub fn is_text(s: &String, lit: &str) -> (r: bool)
    ensures
        r == (s@ == lit@),
{
    *s == lit.to_owned()
}

/// Whether two byte slices hold the same bytes.
pub fn bytes_eq(a: &[u8], b: &[u8]) -> (r: bool)
    ensures
        r == (a@ == b@),
{
    if a.len() != b.len() {
        return false;
    }
    let mut i: usize = 0;
    while i < a.len()
        invariant
            i <= a@.len(),
            a@.len() == b@.len(),
            forall|k: int| 0 <= k < i ==> a@[k] == b@[k],
        decreases a@.len() - i,
    {
        if a[i] != b[i] {
            return false;
        }
        i = i + 1;
    }
    assert(a@ =~= b@);
    true
}

// ---------- decimal numbers ----------

/// The decimal digit with value `d`.
pub open spec fn digit_char(d: int) -> char {
    ('0' as int + d) as char
}

/// `n` in decimal, without leading zeros.
pub open spec fn decimal(n: nat) -> Seq<char>
    decreases n,
{
    if n < 10 {
        seq![digit_char(n as int)]
    } else {
        decimal(n / 10).push(digit_char((n % 10) as int))
    }
}

fn push_digit(out: &mut String, d: u32)
    requires
        d < 10,
    ensures
        final(out)@ == old(out)@.push(digit_char(d as int)),
{
    let c = (48 + d) as u8 as char;
    out.push(c);
}

/// Appends `n` in decimal.
pub fn push_decimal(out: &mut String, n: u32)
    ensures
        final(out)@ == old(out)@ + decimal(n as nat),
    decreases n,
{
    if n < 10 {
        push_digit(out, n);
    } else {
        push_decimal(out, n / 10);
        push_digit(out, n % 10);
    }
    assert(out@ =~= old(out)@ + decimal(n as nat));
}

// ---------- UTF-8 ----------

/// The first UTF-8 scalar of `s[i..]`, with its length in bytes; `None` where the
/// bytes there do not start a well-formed scalar.
pub fn decode_scalar(s: &[u8], i: usize) -> (r: Option<(char, usize)>)
    requires
        i < s@.len(),
    ensures
        r is Some <==> valid_first_scalar(s@.skip(i as int)),
        r matches Some((c, n)) ==> c == decode_first_scalar(s@.skip(i as int)) as char && n
            == length_of_first_scalar(s@.skip(i as int)) && 1 <= n <= s@.len() - i,
{
    let ghost t = s@.skip(i as int);
    let left = s.len() - i;
    let b0 = s[i];
    let (code, n): (u32, usize) = if b0 <= 0x7f {
        ((b0 & 0x7f) as u32, 1)
    } else if 0xc0 <= b0 && b0 <= 0xdf {
        if left < 2 || !is_tail(s[i + 1]) {
            return None;
        }
        ((((b0 & 0x1f) as u32) << 6) | ((s[i + 1] & 0x3f) as u32), 2)
    } else if 0xe0 <= b0 && b0 <= 0xef {
        if left < 3 || !is_tail(s[i + 1]) || !is_tail(s[i + 2]) {
            return None;
        }
        (
            (((b0 & 0x0f) as u32) << 12) | (((s[i + 1] & 0x3f) as u32) << 6) | ((s[i + 2]
                & 0x3f) as u32),
            3,
        )
    } else if 0xf0 <= b0 && b0 <= 0xf7 {
        if left < 4 || !is_tail(s[i + 1]) || !is_tail(s[i + 2]) || !is_tail(s[i + 3]) {
            return None;
        }
        (
            (((b0 & 0x07) as u32) << 18) | (((s[i + 1] & 0x3f) as u32) << 12) | (((s[i + 2]
                & 0x3f) as u32) << 6) | ((s[i + 3] & 0x3f) as u32),
            4,
        )
    } else {
        return None;
    };
    assert(code == decode_first_codepoint(t));
    assert(n == length_of_first_codepoint(t));
    if (n == 2 && code < 0x80) || (n == 3 && code < 0x800) || (n == 4 && (code < 0x10000 || code
        > 0x10ffff)) || (0xd800 <= code && code <= 0xdfff) {
        return None;
    }
    proof {
        let w = b0;
        if n == 1 {
            assert((w & 0x7f) as u32 <= 0x7f) by (bit_vector);
        } else if n == 2 {
            let b1 = s@[i + 1];
            assert(((((w & 0x1f) as u32) << 6) | ((b1 & 0x3f) as u32)) <= 0x7ff) by (bit_vector);
        } else if n == 3 {
            let b1 = s@[i + 1];
            let b2 = s@[i + 2];
            assert(((((w & 0x0f) as u32) << 12) | (((b1 & 0x3f) as u32) << 6) | ((b2
                & 0x3f) as u32)) <= 0xffff) by (bit_vector);
        }
    }
    match char::from_u32(code) {
        Some(c) => {
            proof {
                char_u32_cast(c, code);
            }
            Some((c, n))
        },
        None => None,
    }
}

fn is_tail(b: u8) -> (r: bool)
    ensures
        r == is_continuation_byte(b),
{
    0x80 <= b && b <= 0xbf
}

/// The encoding of two texts in a row is the two encodings in a row.
pub proof fn lemma_encode_concat(a: Seq<char>, b: Seq<char>)
    ensures
        encode_utf8(a + b) == encode_utf8(a) + encode_utf8(b),
    decreases a.len(),
{
    if a.len() == 0 {
        assert(a + b =~= b);
        assert(encode_utf8(a) =~= Seq::<u8>::empty());
        assert(encode_utf8(a) + encode_utf8(b) =~= encode_utf8(b));
    } else {
        lemma_encode_concat(a.drop_first(), b);
        assert((a + b).drop_first() =~= a.drop_first() + b);
        assert(encode_utf8(a + b) =~= encode_utf8(a) + encode_utf8(b));
    }
}

/// ASCII text is encoded one byte a character.
pub proof fn lemma_encode_ascii(t: Seq<char>)
    requires
        is_ascii_chars(t),
    ensures
        encode_utf8(t) == Seq::new(t.len(), |i: int| t[i] as u8),
{
    is_ascii_chars_encode_utf8(t);
    assert(encode_utf8(t) =~= Seq::new(t.len(), |i: int| t[i] as u8));
}

} // verus!
