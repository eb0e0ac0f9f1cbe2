//! Breaking subtitle text: into lines that fit the screen, and into the units that the
//! typewriter reveals one at a time.
use vstd::prelude::*;
use crate::font;
use crate::font::char_widths;
use crate::text::{chars_of, string_of};

verus! {

/// Pixels available to the text of one line.
pub const SUB_W: i32 = 232;

// ---------- lines ----------

/// Where the line that starts at `i` ends, having reached `j` with width `acc`: at a line
/// break, at the end of the text, or before the first character that no longer fits. A
/// line takes at least one character, however wide.
pub open spec fn line_end(t: Seq<char>, w: Seq<int>, i: int, j: int, acc: int) -> int
    decreases t.len() - j,
{
    if j >= t.len() || t[j] == '\n' || (j > i && acc + w[j] > SUB_W) {
        j
    } else {
        line_end(t, w, i, j + 1, acc + w[j])
    }
}

/// The lines of the text from `i` on. A line break ends a line and belongs to none; the
/// last line may be empty.
pub open spec fn lines_from(t: Seq<char>, w: Seq<int>, i: int) -> Seq<Seq<char>>
    decreases t.len() - i,
{
    let e = line_end(t, w, i, i, 0);
    if !(i <= e < t.len()) {
        seq![t.subrange(i, t.len() as int)]
    } else if t[e] == '\n' {
        seq![t.subrange(i, e)] + lines_from(t, w, e + 1)
    } else if e > i {
        seq![t.subrange(i, e)] + lines_from(t, w, e)
    } else {
        Seq::empty()
    }
}

/// A text of characters with the given widths, broken into lines.
pub open spec fn wrapped(t: Seq<char>, w: Seq<int>) -> Seq<Seq<char>> {
    lines_from(t, w, 0)
}

/// The views of a list of strings.
pub open spec fn texts(v: Seq<String>) -> Seq<Seq<char>> {
    v.map_values(|s: String| s@)
}

/// Widths as numbers.
pub open spec fn as_ints(w: Seq<i32>) -> Seq<int> {
    w.map_values(|x: i32| x as int)
}

proof fn lemma_line_end(t: Seq<char>, w: Seq<int>, i: int, j: int, acc: int)
    requires
        0 <= i <= j <= t.len(),
    ensures
        j <= line_end(t, w, i, j, acc) <= t.len(),
        j == i && i < t.len() && t[i] != '\n' ==> line_end(t, w, i, j, acc) > i,
        forall|k: int| j <= k < line_end(t, w, i, j, acc) ==> #[trigger] t[k] != '\n',
    decreases t.len() - j,
{
    if !(j >= t.len() || t[j] == '\n' || (j > i && acc + w[j] > SUB_W)) {
        lemma_line_end(t, w, i, j + 1, acc + w[j]);
    }
}

/// Breaks a text whose characters have the given widths into lines.
pub fn wrap_measured(chars: &[char], widths: &[i32]) -> (out: Vec<String>)
    requires
        widths@.len() == chars@.len(),
    ensures
        texts(out@) == wrapped(chars@, as_ints(widths@)),
        out@.len() >= 1,
{
    let ghost t = chars@;
    let ghost w = as_ints(widths@);
    let n = chars.len();
    let mut out: Vec<String> = Vec::new();
    let mut i: usize = 0;
    assert(texts(out@) + lines_from(t, w, 0) =~= wrapped(t, w));
    loop
        invariant_except_break
            texts(out@) + lines_from(t, w, i as int) == wrapped(t, w),
        invariant
            t == chars@,
            w == as_ints(widths@),
            n == t.len() == widths@.len(),
            i <= n,
        ensures
            texts(out@) == wrapped(t, w),
            out@.len() >= 1,
        decreases n - i,
    {
        let ghost before = out@;
        let mut j: usize = i;
        let mut acc: i128 = 0;
        while j < n && chars[j] != '\n' && !(j > i && acc + widths[j] as i128 > SUB_W as i128)
            invariant
                t == chars@,
                w == as_ints(widths@),
                n == t.len() == widths@.len(),
                i <= j <= n,
                -0x80000000 * (j - i) <= acc <= 0x80000000 * (j - i),
                line_end(t, w, i as int, i as int, 0) == line_end(
                    t,
                    w,
                    i as int,
                    j as int,
                    acc as int,
                ),
            decreases n - j,
        {
            acc = acc + widths[j] as i128;
            j = j + 1;
        }
        proof {
            lemma_line_end(t, w, i as int, i as int, 0);
            assert(line_end(t, w, i as int, i as int, 0) == j);
        }
        let line = string_of(chars, i, j);
        out.push(line);
        assert(texts(out@) =~= texts(before).push(line@));
        if j >= n {
            assert(lines_from(t, w, i as int) =~= seq![t.subrange(i as int, t.len() as int)]);
            assert(texts(out@) =~= texts(before) + lines_from(t, w, i as int));
            break;
        }
        let next: usize = if chars[j] == '\n' {
            j + 1
        } else {
            j
        };
        assert(texts(out@) + lines_from(t, w, next as int) =~= texts(before) + lines_from(
            t,
            w,
            i as int,
        ));
        i = next;
    }
    out
}

/// The lines of a text in the subtitle font.
pub open spec fn subtitle_lines(t: Seq<char>) -> Seq<Seq<char>> {
    wrapped(t, font::advances(t))
}

/// Breaks a text into lines by its width in the subtitle font.
pub fn wrap_to_lines(s: &str) -> (out: Vec<String>)
    ensures
        texts(out@) == subtitle_lines(s@),
        out@.len() >= 1,
{
    let chars = chars_of(s);
    let widths = char_widths(chars.as_slice());
    assert(as_ints(widths@) =~= font::advances(s@));
    wrap_measured(chars.as_slice(), widths.as_slice())
}

/// All lines in a row.
pub open spec fn unwrapped(lines: Seq<Seq<char>>) -> Seq<char>
    decreases lines.len(),
{
    if lines.len() == 0 {
        Seq::empty()
    } else {
        lines[0] + unwrapped(lines.drop_first())
    }
}

/// A text without its line breaks.
pub open spec fn without_breaks(t: Seq<char>) -> Seq<char>
    decreases t.len(),
{
    if t.len() == 0 {
        Seq::empty()
    } else if t[0] == '\n' {
        without_breaks(t.drop_first())
    } else {
        seq![t[0]] + without_breaks(t.drop_first())
    }
}

proof fn lemma_without_breaks_run(t: Seq<char>, e: int)
    requires
        0 <= e <= t.len(),
        forall|k: int| 0 <= k < e ==> #[trigger] t[k] != '\n',
    ensures
        without_breaks(t) == t.take(e) + without_breaks(t.skip(e)),
    decreases e,
{
    if e == 0 {
        assert(t.skip(0) =~= t);
        assert(t.take(0) + without_breaks(t) =~= without_breaks(t));
    } else {
        assert(t[0] != '\n');
        assert forall|k: int| 0 <= k < e - 1 implies #[trigger] t.drop_first()[k] != '\n' by {
            assert(t[k + 1] != '\n');
        }
        lemma_without_breaks_run(t.drop_first(), e - 1);
        assert(t.drop_first().skip(e - 1) =~= t.skip(e));
        assert(seq![t[0]] + t.drop_first().take(e - 1) =~= t.take(e));
        assert(without_breaks(t) =~= t.take(e) + without_breaks(t.skip(e)));
    }
}

proof fn lemma_unwrapped_push_front(l: Seq<char>, more: Seq<Seq<char>>)
    ensures
        unwrapped(seq![l] + more) == l + unwrapped(more),
{
    assert((seq![l] + more).drop_first() =~= more);
}

proof fn lemma_lines_keep_text(t: Seq<char>, w: Seq<int>, i: int)
    requires
        0 <= i <= t.len(),
    ensures
        unwrapped(lines_from(t, w, i)) == without_breaks(t.skip(i)),
    decreases t.len() - i,
{
    let e = line_end(t, w, i, i, 0);
    lemma_line_end(t, w, i, i, 0);
    let rest = t.skip(i);
    assert forall|k: int| 0 <= k < e - i implies #[trigger] rest[k] != '\n' by {
        assert(t[i + k] != '\n');
    }
    lemma_without_breaks_run(rest, e - i);
    assert(rest.take(e - i) =~= t.subrange(i, e));
    assert(rest.skip(e - i) =~= t.skip(e));
    if e >= t.len() {
        let line = t.subrange(i, t.len() as int);
        lemma_unwrapped_push_front(line, Seq::empty());
        assert(seq![line] + Seq::<Seq<char>>::empty() =~= seq![line]);
        assert(t.skip(e) =~= Seq::<char>::empty());
    } else if t[e] == '\n' {
        lemma_lines_keep_text(t, w, e + 1);
        lemma_unwrapped_push_front(t.subrange(i, e), lines_from(t, w, e + 1));
        assert(t.skip(e)[0] == '\n');
        assert(t.skip(e).drop_first() =~= t.skip(e + 1));
    } else {
        lemma_lines_keep_text(t, w, e);
        lemma_unwrapped_push_front(t.subrange(i, e), lines_from(t, w, e));
    }
}

/// Wrapping loses nothing and adds nothing: the lines in a row are the text without its
/// line breaks.
pub proof fn law_wrap_keeps_text(t: Seq<char>, w: Seq<int>)
    ensures
        unwrapped(wrapped(t, w)) == without_breaks(t),
{
    lemma_lines_keep_text(t, w, 0);
    assert(t.skip(0) =~= t);
}

/// The sum of widths of `t[i..j]`.
pub open spec fn span(w: Seq<int>, i: int, j: int) -> int
    decreases j - i,
{
    if j <= i {
        0
    } else {
        span(w, i, j - 1) + w[j - 1]
    }
}

proof fn lemma_line_fits(t: Seq<char>, w: Seq<int>, i: int, j: int, acc: int)
    requires
        0 <= i <= j <= t.len(),
        acc == span(w, i, j),
        acc <= SUB_W || j - i <= 1,
    ensures
        ({
            let e = line_end(t, w, i, j, acc);
            span(w, i, e) <= SUB_W || e - i <= 1
        }),
    decreases t.len() - j,
{
    if !(j >= t.len() || t[j] == '\n' || (j > i && acc + w[j] > SUB_W)) {
        lemma_line_fits(t, w, i, j + 1, acc + w[j]);
    }
}

/// Whether a line is a stretch of the text that fits the screen, or a single character
/// that does not.
pub open spec fn fits(t: Seq<char>, w: Seq<int>, line: Seq<char>) -> bool {
    exists|i: int, e: int| #[trigger] is_fitting_span(t, w, i, e) && line == t.subrange(i, e)
}

pub open spec fn is_fitting_span(t: Seq<char>, w: Seq<int>, i: int, e: int) -> bool {
    0 <= i <= e <= t.len() && (span(w, i, e) <= SUB_W || e - i <= 1)
}

proof fn lemma_lines_fit(t: Seq<char>, w: Seq<int>, i: int, k: int)
    requires
        0 <= i <= t.len(),
        0 <= k < lines_from(t, w, i).len(),
    ensures
        fits(t, w, lines_from(t, w, i)[k]),
    decreases t.len() - i,
{
    let e = line_end(t, w, i, i, 0);
    lemma_line_end(t, w, i, i, 0);
    lemma_line_fits(t, w, i, i, 0);
    let end = if e < t.len() {
        e
    } else {
        t.len() as int
    };
    assert(is_fitting_span(t, w, i, end));
    if k > 0 {
        if e < t.len() && t[e] == '\n' {
            lemma_lines_fit(t, w, e + 1, k - 1);
            assert(lines_from(t, w, i)[k] == lines_from(t, w, e + 1)[k - 1]);
        } else if e < t.len() {
            lemma_lines_fit(t, w, e, k - 1);
            assert(lines_from(t, w, i)[k] == lines_from(t, w, e)[k - 1]);
        }
    }
}

/// No line is wider than the screen, unless it is one single character.
pub proof fn law_lines_fit(t: Seq<char>, w: Seq<int>, k: int)
    requires
        0 <= k < wrapped(t, w).len(),
    ensures
        fits(t, w, wrapped(t, w)[k]),
{
    lemma_lines_fit(t, w, 0, k);
}

// ---------- units ----------

/// A visible ASCII character.
pub open spec fn is_graphic(c: char) -> bool {
    '!' <= c && c <= '~'
}

/// The end of the run of spaces from `i` on.
pub open spec fn spaces_end(t: Seq<char>, i: int) -> int
    decreases t.len() - i,
{
    if i < t.len() && t[i] == ' ' {
        spaces_end(t, i + 1)
    } else {
        i
    }
}

/// The end of the run of visible ASCII characters from `i` on.
pub open spec fn word_end(t: Seq<char>, i: int) -> int
    decreases t.len() - i,
{
    if i < t.len() && is_graphic(t[i]) {
        word_end(t, i + 1)
    } else {
        i
    }
}

/// Length of the next unit that the typewriter reveals: a word with its punctuation and
/// the spaces around it, or any other single character with the spaces before it.
pub open spec fn unit_len(t: Seq<char>) -> int {
    let i = spaces_end(t, 0);
    if i >= t.len() {
        i
    } else if is_graphic(t[i]) {
        spaces_end(t, word_end(t, i))
    } else {
        i + 1
    }
}

/// Length of the next unit of a text.
pub fn next_unit(chars: &[char]) -> (k: usize)
    ensures
        k == unit_len(chars@),
        k <= chars@.len(),
        chars@.len() > 0 ==> k > 0,
{
    let ghost t = chars@;
    let n = chars.len();
    let i = skip_spaces(chars, 0);
    if i >= n {
        return i;
    }
    let c = chars[i];
    if !('!' <= c && c <= '~') {
        return i + 1;
    }
    let mut j: usize = i;
    while j < n && '!' <= chars[j] && chars[j] <= '~'
        invariant
            i <= j <= n == t.len(),
            t == chars@,
            word_end(t, i as int) == word_end(t, j as int),
            j == i ==> is_graphic(t[i as int]),
            i < n,
        decreases n - j,
    {
        j = j + 1;
    }
    assert(j > i);
    skip_spaces(chars, j)
}

fn skip_spaces(chars: &[char], from: usize) -> (k: usize)
    requires
        from <= chars@.len(),
    ensures
        k == spaces_end(chars@, from as int),
        from <= k <= chars@.len(),
{
    let n = chars.len();
    let mut i: usize = from;
    while i < n && chars[i] == ' '
        invariant
            from <= i <= n == chars@.len(),
            spaces_end(chars@, from as int) == spaces_end(chars@, i as int),
        decreases n - i,
    {
        i = i + 1;
    }
    i
}

/// A unit is never empty and never runs past the text, so that revealing comes to an end.
pub proof fn law_unit_progress(t: Seq<char>)
    ensures
        0 <= unit_len(t) <= t.len(),
        t.len() > 0 ==> unit_len(t) > 0,
{
    lemma_spaces_end(t, 0);
    let i = spaces_end(t, 0);
    if i < t.len() && is_graphic(t[i]) {
        lemma_word_end(t, i);
        lemma_spaces_end(t, word_end(t, i));
    }
}

proof fn lemma_spaces_end(t: Seq<char>, i: int)
    requires
        0 <= i <= t.len(),
    ensures
        i <= spaces_end(t, i) <= t.len(),
        i < t.len() && t[i] == ' ' ==> spaces_end(t, i) > i,
    decreases t.len() - i,
{
    if i < t.len() && t[i] == ' ' {
        lemma_spaces_end(t, i + 1);
    }
}

proof fn lemma_word_end(t: Seq<char>, i: int)
    requires
        0 <= i <= t.len(),
    ensures
        i <= word_end(t, i) <= t.len(),
        i < t.len() && is_graphic(t[i]) ==> word_end(t, i) > i,
    decreases t.len() - i,
{
    if i < t.len() && is_graphic(t[i]) {
        lemma_word_end(t, i + 1);
    }
}

/// There is always a line, if an empty one.
pub proof fn law_some_line(t: Seq<char>, w: Seq<int>)
    ensures
        wrapped(t, w).len() > 0,
{
    lemma_line_end(t, w, 0, 0, 0);
}

proof fn lemma_line_end_reason(t: Seq<char>, w: Seq<int>, i: int, j: int, acc: int)
    requires
        0 <= i <= j <= t.len(),
        acc == span(w, i, j),
    ensures
        ({
            let e = line_end(t, w, i, j, acc);
            &&& e < t.len() && t[e] != '\n' ==> e > i && span(w, i, e) + w[e] > SUB_W
        }),
    decreases t.len() - j,
{
    if !(j >= t.len() || t[j] == '\n' || (j > i && acc + w[j] > SUB_W)) {
        lemma_line_end_reason(t, w, i, j + 1, acc + w[j]);
    }
}

/// Whether a line ends where it should: it is the stretch of the text from `i` to `e`, and it
/// ends with the text, at a line break, or because the next character would not fit.
pub open spec fn ends_well(t: Seq<char>, w: Seq<int>, i: int, e: int) -> bool {
    &&& 0 <= i <= e <= t.len()
    &&& e == t.len() || t[e] == '\n' || (e > i && span(w, i, e) + w[e] > 232)
    &&& span(w, i, e) <= 232 || e - i <= 1
    &&& forall|k: int| i <= k < e ==> #[trigger] t[k] != '\n'
}

/// Where the line behind one that ends at `e` starts: a line break is passed over.
pub open spec fn next_start(t: Seq<char>, e: int) -> int {
    if e < t.len() && t[e] == '\n' {
        e + 1
    } else {
        e
    }
}

/// Whether lines are the stretches of a text from `i` on, one behind the other up to its end,
/// each ending where it should.
pub open spec fn are_lines(t: Seq<char>, w: Seq<int>, i: int, lines: Seq<Seq<char>>) -> bool
    decreases lines.len(),
{
    if lines.len() == 0 {
        false
    } else {
        let e = i + lines[0].len();
        &&& ends_well(t, w, i, e)
        &&& lines[0] == t.subrange(i, e)
        &&& if e == t.len() {
            lines.len() == 1
        } else {
            are_lines(t, w, next_start(t, e), lines.drop_first())
        }
    }
}

proof fn lemma_are_lines(t: Seq<char>, w: Seq<int>, i: int)
    requires
        0 <= i <= t.len(),
    ensures
        are_lines(t, w, i, lines_from(t, w, i)),
    decreases t.len() - i,
{
    let e = line_end(t, w, i, i, 0);
    lemma_line_end(t, w, i, i, 0);
    lemma_line_fits(t, w, i, i, 0);
    lemma_line_end_reason(t, w, i, i, 0);
    let lines = lines_from(t, w, i);
    if e >= t.len() {
        assert(lines[0].len() == e - i);
    } else {
        let next = next_start(t, e);
        lemma_are_lines(t, w, next);
        assert(lines =~= seq![t.subrange(i, e)] + lines_from(t, w, next));
        assert(lines.drop_first() =~= lines_from(t, w, next));
        assert(lines[0] == t.subrange(i, e));
    }
}

/// Lines are as long as they can be: each goes on to a line break, to the end of the text, or
/// to where the next character would no longer fit the screen; the next line starts there.
pub proof fn law_lines_are_full(t: Seq<char>, w: Seq<int>)
    ensures
        are_lines(t, w, 0, wrapped(t, w)),
{
    lemma_are_lines(t, w, 0);
}

/// Widths are measured in the subtitle font, character by character.
pub proof fn law_subtitle_lines_fit(t: Seq<char>)
    ensures
        are_lines(t, font::advances(t), 0, subtitle_lines(t)),
        forall|i: int| 0 <= i < t.len() ==> #[trigger] font::advances(t)[i] == font::glyph_advance(t[i]),
{
    law_lines_are_full(t, font::advances(t));
}

proof fn lemma_spaces_run(t: Seq<char>, i: int)
    requires
        0 <= i <= t.len(),
    ensures
        i <= spaces_end(t, i) <= t.len(),
        forall|k: int| i <= k < spaces_end(t, i) ==> #[trigger] t[k] == ' ',
        spaces_end(t, i) < t.len() ==> t[spaces_end(t, i)] != ' ',
    decreases t.len() - i,
{
    if i < t.len() && t[i] == ' ' {
        lemma_spaces_run(t, i + 1);
    }
}

proof fn lemma_word_run(t: Seq<char>, i: int)
    requires
        0 <= i <= t.len(),
    ensures
        i <= word_end(t, i) <= t.len(),
        forall|k: int| i <= k < word_end(t, i) ==> '!' <= #[trigger] t[k] <= '~',
        word_end(t, i) < t.len() ==> !('!' <= t[word_end(t, i)] <= '~'),
    decreases t.len() - i,
{
    if i < t.len() && is_graphic(t[i]) {
        lemma_word_run(t, i + 1);
    }
}

/// What a unit is made of, `i` spaces first. Where a visible ASCII character follows, it is
/// the whole word that begins there, with all spaces behind it; otherwise it is the one
/// character that follows, of whatever kind.
pub proof fn law_unit_shape(t: Seq<char>, i: int)
    requires
        0 <= i < t.len(),
        forall|k: int| 0 <= k < i ==> #[trigger] t[k] == ' ',
        t[i] != ' ',
    ensures
        !('!' <= t[i] <= '~') ==> unit_len(t) == i + 1,
        '!' <= t[i] <= '~' ==> {
            let e = unit_len(t);
            &&& e > i
            &&& e < t.len() ==> t[e] != ' '
            &&& exists|j: int|
                i < j <= e && (forall|k: int| i <= k < j ==> '!' <= #[trigger] t[k] <= '~') && (
                forall|k: int| j <= k < e ==> #[trigger] t[k] == ' ') && (j < t.len() ==> !('!'
                    <= #[trigger] t[j] <= '~'))
        },
{
    lemma_spaces_run(t, 0);
    let s = spaces_end(t, 0);
    if s < i {
        assert(t[s] == ' ');
    }
    if s > i {
        assert(t[i] == ' ');
    }
    assert(s == i);
    if is_graphic(t[i]) {
        lemma_word_run(t, i);
        lemma_word_end(t, i);
        let j = word_end(t, i);
        lemma_spaces_run(t, j);
        if j < t.len() {
            assert(!('!' <= t[j] <= '~'));
        }
        assert(i < j <= unit_len(t));
        assert forall|k: int| j <= k < unit_len(t) implies #[trigger] t[k] == ' ' by {}
    }
}

/// A text of spaces alone is one unit.
pub proof fn law_spaces_are_one_unit(t: Seq<char>)
    requires
        forall|k: int| 0 <= k < t.len() ==> #[trigger] t[k] == ' ',
    ensures
        unit_len(t) == t.len(),
{
    lemma_spaces_run(t, 0);
    let s = spaces_end(t, 0);
    if s < t.len() {
        assert(t[s] == ' ');
    }
}

} // verus!
