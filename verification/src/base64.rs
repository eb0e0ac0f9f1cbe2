//! Base64: the lenient decoder for audio payloads and the encoder for short keys.
use vstd::prelude::*;
use crate::text;

verus! {

/// The value of a character of the base64 alphabet.
pub open spec fn sextet(c: u8) -> Option<int> {
    if 0x41 <= c <= 0x5a {
        Some(c - 0x41)
    } else if 0x61 <= c <= 0x7a {
        Some(c - 0x61 + 26)
    } else if 0x30 <= c <= 0x39 {
        Some(c - 0x30 + 52)
    } else if c == 0x2b {
        Some(62)
    } else if c == 0x2f {
        Some(63)
    } else {
        None
    }
}

/// The values of the alphabet characters in `s`; padding and everything else that is
/// not in the alphabet is passed over.
pub open spec fn sextets(s: Seq<u8>) -> Seq<int>
    decreases s.len(),
{
    if s.len() == 0 {
        Seq::empty()
    } else {
        match sextet(s.last()) {
            Some(v) => sextets(s.drop_last()).push(v),
            None => sextets(s.drop_last()),
        }
    }
}

/// The bytes that a run of 6-bit values spells, most significant bits first. Bits that
/// do not fill a byte at the end are dropped.
pub open spec fn packed(v: Seq<int>) -> Seq<u8>
    decreases v.len(),
{
    if v.len() < 2 {
        Seq::empty()
    } else if v.len() == 2 {
        seq![(v[0] * 4 + v[1] / 16) as u8]
    } else if v.len() == 3 {
        seq![(v[0] * 4 + v[1] / 16) as u8, (v[1] % 16 * 16 + v[2] / 4) as u8]
    } else {
        seq![
            (v[0] * 4 + v[1] / 16) as u8,
            (v[1] % 16 * 16 + v[2] / 4) as u8,
            (v[2] % 4 * 64 + v[3]) as u8,
        ] + packed(v.skip(4))
    }
}

/// What decoding `s` gives.
pub open spec fn decoded(s: Seq<u8>) -> Seq<u8> {
    packed(sextets(s))
}

/// Bits of the last value that no byte has taken yet.
spec fn leftover(v: Seq<int>) -> int {
    if v.len() % 4 == 0 {
        0
    } else if v.len() % 4 == 1 {
        v.last()
    } else if v.len() % 4 == 2 {
        v.last() % 16
    } else {
        v.last() % 4
    }
}

/// One more value completes one more byte, except where it opens a new group.
proof fn lemma_packed_push(v: Seq<int>, x: int)
    requires
        0 <= x < 64,
        forall|i: int| 0 <= i < v.len() ==> 0 <= #[trigger] v[i] < 64,
    ensures
        v.len() % 4 == 0 ==> packed(v.push(x)) == packed(v),
        v.len() % 4 == 1 ==> packed(v.push(x)) == packed(v).push((leftover(v) * 4 + x / 16) as u8),
        v.len() % 4 == 2 ==> packed(v.push(x)) == packed(v).push((leftover(v) * 16 + x / 4) as u8),
        v.len() % 4 == 3 ==> packed(v.push(x)) == packed(v).push((leftover(v) * 64 + x) as u8),
    decreases v.len(),
{
    let w = v.push(x);
    if v.len() < 4 {
        assert(w.skip(4) =~= Seq::<int>::empty() || w.len() < 4);
        assert(packed(Seq::<int>::empty()) =~= Seq::<u8>::empty());
        if v.len() == 1 {
            assert(packed(w) =~= packed(v).push((leftover(v) * 4 + x / 16) as u8));
        } else if v.len() == 2 {
            assert(packed(w) =~= packed(v).push((leftover(v) * 16 + x / 4) as u8));
        } else if v.len() == 3 {
            assert(packed(w) =~= packed(v).push((leftover(v) * 64 + x) as u8));
        } else {
            assert(packed(w) =~= packed(v));
        }
    } else {
        lemma_packed_push(v.skip(4), x);
        assert(w.skip(4) =~= v.skip(4).push(x));
        let head = seq![
            (v[0] * 4 + v[1] / 16) as u8,
            (v[1] % 16 * 16 + v[2] / 4) as u8,
            (v[2] % 4 * 64 + v[3]) as u8,
        ];
        assert(packed(v) == head + packed(v.skip(4)));
        assert(packed(w) == head + packed(w.skip(4)));
        if v.len() % 4 != 0 {
            assert(v.skip(4).last() == v.last());
        }
        assert(leftover(v.skip(4)) == leftover(v));
        let tail = packed(v.skip(4));
        assert forall|b: u8| #[trigger] (head + tail.push(b)) == (head + tail).push(b) by {
            assert((head + tail.push(b)) =~= (head + tail).push(b));
        }
    }
}

proof fn lemma_sextets_range(s: Seq<u8>)
    ensures
        forall|i: int| 0 <= i < sextets(s).len() ==> 0 <= #[trigger] sextets(s)[i] < 64,
    decreases s.len(),
{
    if s.len() > 0 {
        lemma_sextets_range(s.drop_last());
        let front = sextets(s.drop_last());
        assert forall|i: int| 0 <= i < sextets(s).len() implies 0 <= #[trigger] sextets(s)[i]
            < 64 by {
            if i < front.len() {
                assert(sextets(s)[i] == front[i]);
            }
        }
    }
}

fn sextet_of(c: u8) -> (r: Option<u32>)
    ensures
        r matches Some(v) ==> sextet(c) == Some(v as int) && v < 64,
        r is None ==> sextet(c) is None,
{
    if 0x41 <= c && c <= 0x5a {
        Some((c - 0x41) as u32)
    } else if 0x61 <= c && c <= 0x7a {
        Some((c - 0x61) as u32 + 26)
    } else if 0x30 <= c && c <= 0x39 {
        Some((c - 0x30) as u32 + 52)
    } else if c == 0x2b {
        Some(62)
    } else if c == 0x2f {
        Some(63)
    } else {
        None
    }
}

/// Number of bits that are not part of a byte yet, after `n` values.
spec fn open_bits(n: nat) -> int {
    (8 - 2 * (n % 4)) % 8
}

/// Decodes base64, appending the bytes to `out`. Padding, white space and any other
/// character outside the alphabet are skipped.
pub fn decode_base64(input: &[u8], out: &mut Vec<u8>)
    ensures
        final(out)@ == old(out)@ + decoded(input@),
{
    let ghost before = out@;
    // `acc` holds the `bits` bits that are not part of a byte yet.
    let mut acc: u32 = 0;
    let mut bits: u32 = 0;
    let mut i: usize = 0;
    assert(input@.take(0) =~= Seq::<u8>::empty());
    assert(packed(Seq::<int>::empty()) =~= Seq::<u8>::empty());
    while i < input.len()
        invariant
            i <= input@.len(),
            out@ =~= before + decoded(input@.take(i as int)),
            acc == leftover(sextets(input@.take(i as int))),
            bits == open_bits(sextets(input@.take(i as int)).len()),
        decreases input@.len() - i,
    {
        let ghost seen = input@.take(i as int);
        let ghost v = sextets(seen);
        let ghost prev = out@;
        proof {
            assert(input@.take(i + 1).drop_last() =~= seen);
            assert(input@.take(i + 1).last() == input@[i as int]);
            lemma_sextets_range(seen);
        }
        match sextet_of(input[i]) {
            Some(x) => {
                proof {
                    lemma_packed_push(v, x as int);
                    assert(v.push(x as int).last() == x);
                }
                if bits == 0 {
                    acc = x;
                    bits = 6;
                } else if bits == 6 {
                    out.push((acc * 4 + x / 16) as u8);
                    acc = x % 16;
                    bits = 4;
                } else if bits == 4 {
                    out.push((acc * 16 + x / 4) as u8);
                    acc = x % 4;
                    bits = 2;
                } else {
                    out.push((acc * 64 + x) as u8);
                    acc = 0;
                    bits = 0;
                }
            },
            None => {},
        }
        i = i + 1;
    }
    assert(input@.take(input@.len() as int) =~= input@);
}

// ---------- encoding ----------

/// The alphabet character with value `v`.
pub open spec fn symbol(v: int) -> char {
    if v < 26 {
        ('A' as int + v) as char
    } else if v < 52 {
        ('a' as int + v - 26) as char
    } else if v < 62 {
        ('0' as int + v - 52) as char
    } else if v == 62 {
        '+'
    } else {
        '/'
    }
}

/// The base64 text of `d`, padded to full groups of four.
pub open spec fn encoded(d: Seq<u8>) -> Seq<char>
    decreases d.len(),
{
    if d.len() == 0 {
        Seq::empty()
    } else if d.len() == 1 {
        seq![symbol(d[0] as int / 4), symbol(d[0] as int % 4 * 16), '=', '=']
    } else if d.len() == 2 {
        seq![
            symbol(d[0] as int / 4),
            symbol(d[0] as int % 4 * 16 + d[1] as int / 16),
            symbol(d[1] as int % 16 * 4),
            '=',
        ]
    } else {
        seq![
            symbol(d[0] as int / 4),
            symbol(d[0] as int % 4 * 16 + d[1] as int / 16),
            symbol(d[1] as int % 16 * 4 + d[2] as int / 64),
            symbol(d[2] as int % 64),
        ] + encoded(d.skip(3))
    }
}

fn symbol_of(v: u8) -> (c: char)
    requires
        v < 64,
    ensures
        c == symbol(v as int),
{
    if v < 26 {
        (65 + v) as char
    } else if v < 52 {
        (97 + (v - 26)) as char
    } else if v < 62 {
        (48 + (v - 52)) as char
    } else if v == 62 {
        '+'
    } else {
        '/'
    }
}

/// Writes the base64 text of `data` into `out`, in place of what `out` held.
pub fn b64_encode_short(data: &[u8], out: &mut String)
    ensures
        final(out)@ == encoded(data@),
{
    out.clear();
    let n = data.len();
    let mut i: usize = 0;
    assert(data@.skip(0) =~= data@);
    while n - i >= 3
        invariant
            n == data@.len(),
            i <= n,
            out@ + encoded(data@.skip(i as int)) =~= encoded(data@),
        decreases n - i,
    {
        let ghost prev = out@;
        let ghost rest = data@.skip(i as int);
        out.push(symbol_of(data[i] / 4));
        out.push(symbol_of(data[i] % 4 * 16 + data[i + 1] / 16));
        out.push(symbol_of(data[i + 1] % 16 * 4 + data[i + 2] / 64));
        out.push(symbol_of(data[i + 2] % 64));
        assert(rest.skip(3) =~= data@.skip(i + 3));
        assert(out@ + encoded(data@.skip(i + 3)) =~= prev + encoded(rest));
        i = i + 3;
    }
    let ghost prev = out@;
    let ghost rest = data@.skip(i as int);
    if n - i == 1 {
        out.push(symbol_of(data[i] / 4));
        out.push(symbol_of(data[i] % 4 * 16));
        out.push('=');
        out.push('=');
    } else if n - i == 2 {
        out.push(symbol_of(data[i] / 4));
        out.push(symbol_of(data[i] % 4 * 16 + data[i + 1] / 16));
        out.push(symbol_of(data[i + 1] % 16 * 4));
        out.push('=');
    }
    assert(out@ =~= prev + encoded(rest));
}

// ---------- reading back what was written ----------

proof fn lemma_sextets_concat(a: Seq<u8>, b: Seq<u8>)
    ensures
        sextets(a + b) == sextets(a) + sextets(b),
    decreases b.len(),
{
    if b.len() == 0 {
        assert(a + b =~= a);
        assert(sextets(a) + sextets(b) =~= sextets(a));
    } else {
        lemma_sextets_concat(a, b.drop_last());
        assert((a + b).drop_last() =~= a + b.drop_last());
        assert((a + b).last() == b.last());
        assert(sextets(a + b) =~= sextets(a) + sextets(b));
    }
}

proof fn lemma_sextets_group(w: int, x: int, y: int, z: int, n: int)
    requires
        0 <= w < 64,
        0 <= x < 64,
        0 <= y < 64,
        0 <= z < 64,
        2 <= n <= 4,
    ensures
        ({
            let g = seq![
                symbol(w) as u8,
                symbol(x) as u8,
                if n > 2 {
                    symbol(y) as u8
                } else {
                    '=' as u8
                },
                if n > 3 {
                    symbol(z) as u8
                } else {
                    '=' as u8
                },
            ];
            sextets(g) == seq![w, x, y, z].take(n)
        }),
{
    let g = seq![
        symbol(w) as u8,
        symbol(x) as u8,
        if n > 2 {
            symbol(y) as u8
        } else {
            '=' as u8
        },
        if n > 3 {
            symbol(z) as u8
        } else {
            '=' as u8
        },
    ];
    let g3 = g.drop_last();
    let g2 = g3.drop_last();
    let g1 = g2.drop_last();
    let g0 = g1.drop_last();
    assert(sextets(g0) =~= Seq::<int>::empty());
    assert(sextets(g1) =~= seq![w]);
    assert(sextets(g2) =~= seq![w, x]);
    assert(sextets(g3) =~= if n > 2 {
        seq![w, x, y]
    } else {
        seq![w, x]
    });
    assert(sextets(g) =~= seq![w, x, y, z].take(n));
}

/// Law: decoding gives back what was encoded.
pub proof fn law_decode_encode(d: Seq<u8>)
    ensures
        decoded(vstd::utf8::encode_utf8(encoded(d))) == d,
    decreases d.len(),
{
    let bytes = vstd::utf8::encode_utf8(encoded(d));
    if d.len() == 0 {
        assert(bytes =~= Seq::<u8>::empty());
        assert(decoded(bytes) =~= d);
    } else {
        let n: int = if d.len() >= 3 {
            4
        } else {
            (d.len() + 1) as int
        };
        let d1: int = if d.len() > 1 {
            d[1] as int
        } else {
            0
        };
        let d2: int = if d.len() > 2 {
            d[2] as int
        } else {
            0
        };
        let w = d[0] as int / 4;
        let x = d[0] as int % 4 * 16 + d1 / 16;
        let y = d1 % 16 * 4 + d2 / 64;
        let z = d2 % 64;
        let head = seq![
            symbol(w),
            symbol(x),
            if n > 2 {
                symbol(y)
            } else {
                '='
            },
            if n > 3 {
                symbol(z)
            } else {
                '='
            },
        ];
        let rest = if d.len() >= 3 {
            d.skip(3)
        } else {
            Seq::<u8>::empty()
        };
        assert(encoded(Seq::<u8>::empty()) =~= Seq::<char>::empty());
        assert(encoded(d) =~= head + encoded(rest));
        text::lemma_encode_concat(head, encoded(rest));
        text::lemma_encode_ascii(head);
        let hb = vstd::utf8::encode_utf8(head);
        let rb = vstd::utf8::encode_utf8(encoded(rest));
        let g = seq![
            symbol(w) as u8,
            symbol(x) as u8,
            if n > 2 {
                symbol(y) as u8
            } else {
                '=' as u8
            },
            if n > 3 {
                symbol(z) as u8
            } else {
                '=' as u8
            },
        ];
        assert(hb =~= g);
        lemma_sextets_group(w, x, y, z, n);
        lemma_sextets_concat(hb, rb);
        law_decode_encode(rest);
        let v = sextets(bytes);
        assert(v == seq![w, x, y, z].take(n) + sextets(rb));
        if n == 4 {
            assert(v.skip(4) =~= sextets(rb));
            assert(v[0] == w && v[1] == x && v[2] == y && v[3] == z);
            assert(packed(v) =~= d);
        } else {
            assert(rb =~= Seq::<u8>::empty());
            assert(packed(v) =~= d);
        }
    }
}

/// The alphabet in its order: the capitals, the small letters, the digits, plus and slash.
/// Each character stands for the number of its place, and no other character for any.
pub proof fn law_alphabet(c: u8)
    ensures
        sextet(0x41) == Some(0int) && sextet(0x5a) == Some(25int) && sextet(0x61) == Some(26int)
            && sextet(0x7a) == Some(51int) && sextet(0x30) == Some(52int) && sextet(0x39) == Some(
            61int,
        ) && sextet(0x2b) == Some(62int) && sextet(0x2f) == Some(63int),
        (0x41 <= c < 0x5a || 0x61 <= c < 0x7a || 0x30 <= c < 0x39) ==> sextet((c + 1) as u8) is Some
            && sextet((c + 1) as u8)->0 == sextet(c)->0 + 1,
        sextet(c) is Some <==> (0x41 <= c <= 0x5a || 0x61 <= c <= 0x7a || 0x30 <= c <= 0x39 || c
            == 0x2b || c == 0x2f),
{
}

/// The writer uses the characters of the reader.
pub proof fn law_symbols(v: int)
    requires
        0 <= v < 64,
    ensures
        sextet(symbol(v) as u8) == Some(v),
        (symbol(v) as int) < 128,
{
}

/// Padding, white space and anything else outside the alphabet is passed over wherever it
/// stands.
pub proof fn law_others_are_skipped(a: Seq<u8>, x: u8, b: Seq<u8>)
    requires
        !(0x41 <= x <= 0x5a || 0x61 <= x <= 0x7a || 0x30 <= x <= 0x39 || x == 0x2b || x == 0x2f),
    ensures
        decoded(a + seq![x] + b) == decoded(a + b),
{
    let one = seq![x];
    lemma_sextets_concat(a + one, b);
    lemma_sextets_concat(a, one);
    lemma_sextets_concat(a, b);
    assert(one.drop_last() =~= Seq::<u8>::empty());
    assert(sextets(Seq::<u8>::empty()) =~= Seq::<int>::empty());
    assert(sextets(one) =~= Seq::<int>::empty());
    assert(sextets(a) + sextets(one) =~= sextets(a));
}

proof fn lemma_packed_concat(v: Seq<int>, w: Seq<int>)
    requires
        v.len() % 4 == 0,
    ensures
        packed(v + w) == packed(v) + packed(w),
    decreases v.len(),
{
    if v.len() == 0 {
        assert(v + w =~= w);
        assert(packed(v) + packed(w) =~= packed(w));
    } else {
        lemma_packed_concat(v.skip(4), w);
        assert((v + w).skip(4) =~= v.skip(4) + w);
        assert(packed(v + w) =~= packed(v) + packed(w));
    }
}

/// Whole groups of four can be decoded one after another: two texts in a row, the first of
/// them whole, give their bytes in a row. Four characters give three bytes.
pub proof fn law_groups(a: Seq<u8>, b: Seq<u8>)
    requires
        sextets(a).len() % 4 == 0,
    ensures
        decoded(a + b) == decoded(a) + decoded(b),
        decoded(a).len() == sextets(a).len() / 4 * 3,
{
    lemma_sextets_concat(a, b);
    lemma_packed_concat(sextets(a), sextets(b));
    lemma_packed_len(sextets(a));
}

proof fn lemma_packed_len(v: Seq<int>)
    requires
        v.len() % 4 == 0,
    ensures
        packed(v).len() == v.len() / 4 * 3,
    decreases v.len(),
{
    if v.len() > 0 {
        lemma_packed_len(v.skip(4));
    }
}

/// Four characters of the alphabet spell the three bytes of one number of twenty-four bits,
/// the highest bits first.
pub proof fn law_group_of_four(p: u8, q: u8, r: u8, s: u8)
    requires
        sextet(p) is Some,
        sextet(q) is Some,
        sextet(r) is Some,
        sextet(s) is Some,
    ensures
        ({
            let d = decoded(seq![p, q, r, s]);
            &&& d.len() == 3
            &&& d[0] * 65536 + d[1] * 256 + d[2] == sextet(p)->0 * 262144 + sextet(q)->0 * 4096
                + sextet(r)->0 * 64 + sextet(s)->0
        }),
{
    let t = seq![p, q, r, s];
    let t3 = t.drop_last();
    let t2 = t3.drop_last();
    let t1 = t2.drop_last();
    let t0 = t1.drop_last();
    assert(sextets(t0) =~= Seq::<int>::empty());
    assert(sextets(t1) =~= seq![sextet(p)->0]);
    assert(sextets(t2) =~= seq![sextet(p)->0, sextet(q)->0]);
    assert(sextets(t3) =~= seq![sextet(p)->0, sextet(q)->0, sextet(r)->0]);
    let v = sextets(t);
    assert(v =~= seq![sextet(p)->0, sextet(q)->0, sextet(r)->0, sextet(s)->0]);
    assert(v.skip(4) =~= Seq::<int>::empty());
    assert(packed(v.skip(4)) =~= Seq::<u8>::empty());
}

} // verus!
