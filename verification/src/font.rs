//! The 14-pixel Chinese bitmap font: how wide a text is, and which pixels it sets.
use vstd::prelude::*;
use crate::text::{chars_of, string_of};

verus! {

/// Longest text that the font decoder measures in one call. A glyph advances the pen by
/// at most 4096 pixels, and the decoder adds the advances up in 32 bits.
pub const MAX_TEXT_CHARS: usize = 500000;

/// No text is wider than this, nor any more negative.
pub const WIDEST: i128 = 0x100000000000000000000;

/// How far a character advances the pen, in pixels.
pub uninterp spec fn glyph_advance(c: char) -> int;

/// The foreground pixels of a text drawn from the origin, as far as they lie left of the
/// limit, in drawing order.
pub uninterp spec fn text_pixels(t: Seq<char>, x_limit: i32) -> Seq<(i32, i32)>;

/// The width of a text: the advances of its characters, added up.
pub open spec fn width(t: Seq<char>) -> int
    decreases t.len(),
{
    if t.len() == 0 {
        0
    } else {
        width(t.drop_last()) + glyph_advance(t.last())
    }
}

/// Width of a text in pixels: `Font::text_width` on the bundled `efont_cn_14` font. It
/// adds up one advance per character, which depends on the character alone; a
/// character without a glyph counts with the width of the widest one. The decoder
/// refuses glyphs that advance by more than 4096 pixels either way.
#[verifier::external_body]
pub fn text_width(s: &str) -> (w: i32)
    requires
        s@.len() <= MAX_TEXT_CHARS,
    ensures
        s@.len() == 1 ==> w == glyph_advance(s@[0]),
        w == width(s@),
        -4096 * s@.len() <= w <= 4096 * s@.len(),
{
    lovyangfx_fonts::fonts::efont_cn_14().text_width(s)
}

fn push_pixel(v: &mut Vec<(i32, i32)>, x: i32, y: i32)
    ensures
        final(v)@ == old(v)@.push((x, y)),
{
    v.push((x, y));
}

/// The foreground pixels of a text: `Font::for_each_pixel` on the bundled `efont_cn_14`
/// font, which calls its plotter once per pixel. Which pixels a text sets is named
/// here. Of each it is known that it lies between the origin and the limit, and within
/// a few thousand pixels of the text line: glyph sizes and offsets are at most 4096.
#[verifier::external_body]
pub fn for_each_pixel(s: &str, x_limit: i32) -> (v: Vec<(i32, i32)>)
    requires
        s@.len() <= MAX_TEXT_CHARS,
    ensures
        v@ == text_pixels(s@, x_limit),
        forall|i: int|
            0 <= i < v@.len() ==> 0 <= (#[trigger] v@[i]).0 < x_limit && -10000 < v@[i].1 < 10000,
{
    let mut v: Vec<(i32, i32)> = Vec::new();
    lovyangfx_fonts::fonts::efont_cn_14().for_each_pixel(s, x_limit, |x, y| push_pixel(&mut v, x, y));
    v
}

/// Widths add up.
pub proof fn lemma_width_concat(a: Seq<char>, b: Seq<char>)
    ensures
        width(a + b) == width(a) + width(b),
    decreases b.len(),
{
    if b.len() == 0 {
        assert(a + b =~= a);
    } else {
        lemma_width_concat(a, b.drop_last());
        assert((a + b).drop_last() =~= a + b.drop_last());
        assert((a + b).last() == b.last());
    }
}

/// The width of a text of any length.
pub fn measured_width(s: &str) -> (w: i128)
    ensures
        w == width(s@),
        -WIDEST <= w <= WIDEST,
{
    let chars = chars_of(s);
    let n: usize = chars.len();
    if n <= MAX_TEXT_CHARS {
        return text_width(s) as i128;
    }
    let mut w: i128 = 0;
    let mut i: usize = 0;
    assert(s@.take(0) =~= Seq::<char>::empty());
    while i < n
        invariant
            i <= n == s@.len(),
            chars@ == s@,
            w == width(s@.take(i as int)),
            -4096 * i <= w <= 4096 * i,
        decreases n - i,
    {
        let k = if n - i < MAX_TEXT_CHARS {
            n - i
        } else {
            MAX_TEXT_CHARS
        };
        let part = string_of(chars.as_slice(), i, i + k);
        proof {
            lemma_width_concat(s@.take(i as int), part@);
            assert(s@.take(i + k) =~= s@.take(i as int) + part@);
        }
        w = w + text_width(part.as_str()) as i128;
        i = i + k;
    }
    assert(s@.take(n as int) =~= s@);
    w
}

/// The advances of the characters of a text, one by one.
pub open spec fn advances(t: Seq<char>) -> Seq<int> {
    Seq::new(t.len(), |i: int| glyph_advance(t[i]))
}

/// Measures each character by itself.
pub fn char_widths(chars: &[char]) -> (v: Vec<i32>)
    ensures
        v@.len() == chars@.len(),
        forall|i: int| 0 <= i < v@.len() ==> #[trigger] v@[i] == glyph_advance(chars@[i]),
        forall|i: int| 0 <= i < v@.len() ==> -4096 <= #[trigger] v@[i] <= 4096,
{
    let mut v: Vec<i32> = Vec::new();
    let n = chars.len();
    let mut i: usize = 0;
    while i < n
        invariant
            i <= n == chars@.len(),
            v@.len() == i,
            forall|k: int| 0 <= k < i ==> #[trigger] v@[k] == glyph_advance(chars@[k]),
            forall|k: int| 0 <= k < i ==> -4096 <= #[trigger] v@[k] <= 4096,
        decreases n - i,
    {
        let one = string_of(chars, i, i + 1);
        v.push(text_width(one.as_str()));
        i = i + 1;
    }
    v
}

} // verus!
