//! The subtitle model: a typewriter over a streamed reply, the lines already shown, and
//! what the status bar says.
//!
//! Reply text is queued as it arrives and revealed at a fixed pace. When the whole reply
//! is known, it is reconciled with what was queued: only what is missing is added. An
//! interruption settles what has arrived at once.
use vstd::prelude::*;
use crate::config::TYPE_INTERVAL_MS;
use crate::font::{measured_width, WIDEST};
use crate::text::{chars_of, string_of};
use crate::wrap::{next_unit, wrap_to_lines, SUB_W};
use crate::{font, wrap};

verus! {

/// Lines kept.
pub const MAX_HISTORY_LINES: usize = 80;

/// Colour of what the user said.
pub const USER_COLOR: u16 = 0x07e0;

/// Colour of the reply.
pub const AI_COLOR: u16 = 0x07ff;

/// How long the volume stays in the status bar after a change.
pub const VOLUME_SHOWN_MS: u32 = 1500;

/// What the status bar shows.
#[derive(Debug, Default, Clone, Copy, PartialEq, Eq, Structural)]
pub enum DisplayState {
    #[default]
    Idle,
    Listening,
    Playing,
    Offline,
}

/// The word for a state.
pub open spec fn state_word(s: DisplayState) -> Seq<char> {
    match s {
        DisplayState::Idle => "IDLE"@,
        DisplayState::Listening => "LISTEN"@,
        DisplayState::Playing => "PLAY"@,
        DisplayState::Offline => "OFFLINE"@,
    }
}

/// The colour of that word.
pub open spec fn state_color(s: DisplayState) -> u16 {
    match s {
        DisplayState::Idle => 0xffff,
        DisplayState::Listening => 0x67f4,
        DisplayState::Playing => 0xff0c,
        DisplayState::Offline => 0xf98c,
    }
}

impl DisplayState {
    pub fn as_str(&self) -> (s: &'static str)
        ensures
            s@ == state_word(*self),
    {
        match self {
            DisplayState::Idle => "IDLE",
            DisplayState::Listening => "LISTEN",
            DisplayState::Playing => "PLAY",
            DisplayState::Offline => "OFFLINE",
        }
    }

    pub fn color(&self) -> (c: u16)
        ensures
            c == state_color(*self),
    {
        match self {
            DisplayState::Idle => 0xffff,
            DisplayState::Listening => 0x67f4,
            DisplayState::Playing => 0xff0c,
            DisplayState::Offline => 0xf98c,
        }
    }
}

/// A finished line.
#[derive(Debug, Clone, PartialEq)]
pub struct SubtitleLine {
    pub text: String,
    pub color: u16,
}

/// A finished line, its text as characters.
pub struct LineView {
    pub text: Seq<char>,
    pub color: u16,
}

impl View for SubtitleLine {
    type V = LineView;

    open spec fn view(&self) -> LineView {
        LineView { text: self.text@, color: self.color }
    }
}

/// A list of finished lines.
pub open spec fn line_views(h: Seq<SubtitleLine>) -> Seq<LineView> {
    h.map_values(|l: SubtitleLine| l@)
}

/// What is on the screen and what still has to be typed.
#[verifier::ext_equal]
pub struct DisplayView {
    pub state: DisplayState,
    pub volume: i32,
    pub history: Seq<LineView>,
    /// Text that has not been revealed.
    pub rest: Seq<char>,
    /// The line being typed.
    pub cur: Seq<char>,
    pub color: u16,
    /// Pieces of a reply are arriving.
    pub streaming: bool,
    /// All text of that reply so far.
    pub queued: Seq<char>,
    pub last_type_ms: u32,
    /// Until when the volume is shown; 0 for not at all.
    pub volume_until_ms: u32,
    /// Battery level in percent, once it is known.
    pub batt_level: Option<u8>,
    pub batt_charging: bool,
}

// ---------- what each step does ----------

/// The last lines of a list, as many as are kept.
pub open spec fn recent(h: Seq<LineView>) -> Seq<LineView> {
    if h.len() > MAX_HISTORY_LINES {
        h.skip(h.len() - MAX_HISTORY_LINES)
    } else {
        h
    }
}

/// A line as it is kept: an empty one shows as a blank.
pub open spec fn shown_line(t: Seq<char>, color: u16) -> LineView {
    LineView {
        text: if t.len() == 0 {
            seq![' ']
        } else {
            t
        },
        color,
    }
}

/// The history after a text has been added in lines that fit.
pub open spec fn with_text(h: Seq<LineView>, t: Seq<char>, color: u16) -> Seq<LineView> {
    recent(h + wrap::subtitle_lines(t).map_values(|l: Seq<char>| shown_line(l, color)))
}

/// What is being typed settles at once.
pub open spec fn settled(v: DisplayView) -> DisplayView {
    if v.rest.len() == 0 && v.cur.len() == 0 {
        DisplayView { streaming: false, queued: Seq::empty(), ..v }
    } else {
        DisplayView {
            streaming: false,
            queued: Seq::empty(),
            history: with_text(v.history, v.cur + v.rest, v.color),
            rest: Seq::empty(),
            cur: Seq::empty(),
            ..v
        }
    }
}

/// A whole reply is to be typed.
pub open spec fn typing_whole(v: DisplayView, t: Seq<char>) -> DisplayView {
    DisplayView { rest: t, color: AI_COLOR, ..settled(v) }
}

/// A reply is to be typed as it arrives.
pub open spec fn stream_opened(v: DisplayView) -> DisplayView {
    DisplayView { color: AI_COLOR, streaming: true, ..settled(v) }
}

/// A piece of a reply has arrived.
pub open spec fn with_delta(v: DisplayView, d: Seq<char>) -> DisplayView {
    if d.len() == 0 {
        v
    } else {
        let s = if v.streaming {
            v
        } else {
            stream_opened(v)
        };
        DisplayView { rest: s.rest + d, queued: s.queued + d, ..s }
    }
}

/// The whole text of the reply is known.
pub open spec fn with_full_text(v: DisplayView, full: Seq<char>) -> DisplayView {
    if v.streaming && v.queued.is_prefix_of(full) {
        DisplayView {
            rest: v.rest + full.skip(v.queued.len() as int),
            streaming: false,
            queued: Seq::empty(),
            ..v
        }
    } else {
        typing_whole(v, full)
    }
}

/// A user line has been added.
pub open spec fn with_user_line(v: DisplayView, t: Seq<char>) -> DisplayView {
    let s = settled(v);
    DisplayView { history: with_text(s.history, "我:"@ + t, USER_COLOR), ..s }
}

/// Whether the typewriter is due.
pub open spec fn type_due(v: DisplayView, now_ms: u32) -> bool {
    v.rest.len() > 0 && now_ms.wrapping_sub(v.last_type_ms) >= TYPE_INTERVAL_MS
}

/// A unit is set on the line being typed. A line break ends that line; a unit that does
/// not fit starts a new one.
pub open spec fn with_unit(v: DisplayView, unit: Seq<char>, cur_w: int, unit_w: int) -> DisplayView {
    if unit.last() == '\n' {
        DisplayView {
            history: with_text(v.history, v.cur, v.color),
            cur: Seq::empty(),
            ..v
        }
    } else if cur_w + unit_w > SUB_W && v.cur.len() > 0 {
        DisplayView { history: with_text(v.history, v.cur, v.color), cur: unit, ..v }
    } else {
        DisplayView { cur: v.cur + unit, ..v }
    }
}

/// One step of the typewriter at a given time.
pub open spec fn typed(v: DisplayView, now_ms: u32) -> DisplayView {
    if !type_due(v, now_ms) {
        v
    } else {
        let k = wrap::unit_len(v.rest);
        let unit = v.rest.take(k);
        with_unit(
            DisplayView { last_type_ms: now_ms, rest: v.rest.skip(k), ..v },
            unit,
            font::width(v.cur),
            font::width(unit),
        )
    }
}

/// Whether the typewriter has something on the line or ahead of it.
pub open spec fn typing(v: DisplayView) -> bool {
    v.rest.len() > 0 || v.cur.len() > 0
}

// ---------- the model ----------

/// The subtitle model.
#[derive(Debug)]
pub struct Display {
    state: DisplayState,
    volume: i32,
    history: Vec<SubtitleLine>,
    typing_rest: String,
    cur_line: String,
    cur_color: u16,
    stream_mode: bool,
    stream_queued: String,
    last_type_ms: u32,
    volume_until_ms: u32,
    batt_level: Option<u8>,
    batt_charging: bool,
}

impl View for Display {
    type V = DisplayView;

    closed spec fn view(&self) -> DisplayView {
        DisplayView {
            state: self.state,
            volume: self.volume,
            history: line_views(self.history@),
            rest: self.typing_rest@,
            cur: self.cur_line@,
            color: self.cur_color,
            streaming: self.stream_mode,
            queued: self.stream_queued@,
            last_type_ms: self.last_type_ms,
            volume_until_ms: self.volume_until_ms,
            batt_level: self.batt_level,
            batt_charging: self.batt_charging,
        }
    }
}

/// What always holds: the volume is a percentage, no more lines are kept than there is
/// room for, and while a reply streams in, what is still on the way to the screen is the
/// tail of what has arrived.
pub open spec fn wf_view(v: DisplayView) -> bool {
    &&& 0 <= v.volume <= 100
    &&& v.history.len() <= MAX_HISTORY_LINES
    &&& v.streaming ==> (v.cur + v.rest).is_suffix_of(v.queued)
    &&& v.batt_level matches Some(l) ==> l <= 100
}

impl Display {
    pub open spec fn wf(&self) -> bool {
        wf_view(self@)
    }

    pub fn new() -> (d: Self)
        ensures
            d.wf(),
            d@ == (DisplayView {
                state: DisplayState::Idle,
                volume: 80,
                history: Seq::empty(),
                rest: Seq::empty(),
                cur: Seq::empty(),
                color: AI_COLOR,
                streaming: false,
                queued: Seq::empty(),
                last_type_ms: 0,
                volume_until_ms: 0,
                batt_level: None,
                batt_charging: false,
            }),
    {
        let d = Display {
            state: DisplayState::Idle,
            volume: 80,
            history: Vec::new(),
            typing_rest: String::new(),
            cur_line: String::new(),
            cur_color: AI_COLOR,
            stream_mode: false,
            stream_queued: String::new(),
            last_type_ms: 0,
            volume_until_ms: 0,
            batt_level: None,
            batt_charging: false,
        };
        assert(d@.history =~= Seq::<LineView>::empty());
        d
    }

    // ---------- the status bar ----------

    pub fn set_state(&mut self, state: DisplayState)
        requires
            old(self).wf(),
        ensures
            final(self).wf(),
            final(self)@ == (DisplayView { state, ..old(self)@ }),
    {
        self.state = state;
    }

    pub fn state(&self) -> (s: DisplayState)
        ensures
            s == self@.state,
    {
        self.state
    }

    /// Sets the volume and shows it for a while. Nothing happens where it is the same.
    pub fn set_volume(&mut self, volume: i32, now_ms: u32)
        requires
            old(self).wf(),
        ensures
            final(self).wf(),
            final(self)@ == with_volume(old(self)@, volume, now_ms),
    {
        let v: i32 = if volume < 0 {
            0
        } else if volume > 100 {
            100
        } else {
            volume
        };
        if v == self.volume {
            return;
        }
        self.volume = v;
        self.volume_until_ms = now_ms.wrapping_add(VOLUME_SHOWN_MS);
    }

    pub fn volume_until_ms(&self) -> (t: u32)
        ensures
            t == self@.volume_until_ms,
    {
        self.volume_until_ms
    }

    pub fn volume(&self) -> (v: i32)
        ensures
            v == self@.volume,
    {
        self.volume
    }

    /// Takes over a battery reading.
    pub fn set_battery(&mut self, level: Option<u8>, charging: bool)
        requires
            old(self).wf(),
            level matches Some(l) ==> l <= 100,
        ensures
            final(self).wf(),
            final(self)@ == (DisplayView {
                batt_level: level,
                batt_charging: charging,
                ..old(self)@
            }),
    {
        self.batt_level = level;
        self.batt_charging = charging;
    }

    pub fn batt_level(&self) -> (l: Option<u8>)
        ensures
            l == self@.batt_level,
    {
        self.batt_level
    }

    pub fn batt_charging(&self) -> (c: bool)
        ensures
            c == self@.batt_charging,
    {
        self.batt_charging
    }

    // ---------- subtitles ----------

    /// Adds a text to the history, in lines that fit.
    fn push_line(&mut self, text: &str, color: u16)
        ensures
            final(self)@ == (DisplayView {
                history: with_text(old(self)@.history, text@, color),
                ..old(self)@
            }),
            final(self)@.history.len() <= MAX_HISTORY_LINES,
    {
        let lines = wrap_to_lines(text);
        let n = lines.len();
        let ghost h = line_views(self.history@);
        let ghost kept = wrap::subtitle_lines(text@).map_values(
            |l: Seq<char>| shown_line(l, color),
        );
        let mut i: usize = 0;
        assert(h + kept.take(0) =~= h);
        while i < n
            invariant
                i <= n == lines@.len(),
                wrap::texts(lines@) == wrap::subtitle_lines(text@),
                kept == wrap::subtitle_lines(text@).map_values(
                    |l: Seq<char>| shown_line(l, color),
                ),
                line_views(self.history@) == h + kept.take(i as int),
                self@ == (DisplayView { history: line_views(self.history@), ..old(self)@ }),
            decreases n - i,
        {
            let line = if lines[i].as_str().is_empty() {
                " ".to_owned()
            } else {
                lines[i].clone()
            };
            let ghost before = self.history@;
            proof {
                reveal_strlit(" ");
                assert(wrap::texts(lines@)[i as int] == lines@[i as int]@);
                assert(" "@ =~= seq![' ']);
            }
            self.history.push(SubtitleLine { text: line, color });
            proof {
                assert(line_views(self.history@) =~= line_views(before).push(
                    LineView { text: line@, color },
                ));
                assert(kept.take(i + 1) =~= kept.take(i as int).push(kept[i as int]));
                assert(line_views(self.history@) =~= h + kept.take(i + 1));
            }
            i = i + 1;
        }
        let ghost all = line_views(self.history@);
        assert(kept.take(n as int) =~= kept);
        assert(all.skip(0) =~= all);
        let ghost mut dropped: int = 0;
        while self.history.len() > MAX_HISTORY_LINES
            invariant
                all == h + kept,
                0 <= dropped <= all.len(),
                line_views(self.history@) == all.skip(dropped),
                dropped > 0 ==> self.history@.len() >= MAX_HISTORY_LINES,
                self@ == (DisplayView { history: line_views(self.history@), ..old(self)@ }),
            decreases self.history@.len(),
        {
            let ghost before = self.history@;
            self.history.remove(0);
            proof {
                assert(self.history@ =~= before.skip(1));
                assert(line_views(self.history@) =~= line_views(before).skip(1));
                assert(all.skip(dropped).skip(1) =~= all.skip(dropped + 1));
                dropped = dropped + 1;
            }
        }
        assert(line_views(self.history@) =~= recent(all));
    }

    /// What the user said, shown at once. A reply still being typed settles first.
    pub fn add_user_line(&mut self, text: &str)
        requires
            old(self).wf(),
        ensures
            final(self).wf(),
            final(self)@ == with_user_line(old(self)@, text@),
    {
        self.flush_typing();
        let mut line = "我:".to_owned();
        line.push_str(text);
        self.push_line(line.as_str(), USER_COLOR);
    }

    /// Types a whole reply.
    pub fn begin_reply_typewriter(&mut self, text: &str)
        requires
            old(self).wf(),
        ensures
            final(self).wf(),
            final(self)@ == typing_whole(old(self)@, text@),
    {
        self.flush_typing();
        self.typing_rest = text.to_owned();
        self.cur_line.clear();
        self.cur_color = AI_COLOR;
        self.stream_mode = false;
        self.stream_queued.clear();
    }

    /// Prepares for a reply that arrives in pieces.
    pub fn begin_reply_stream(&mut self)
        requires
            old(self).wf(),
        ensures
            final(self).wf(),
            final(self)@ == stream_opened(old(self)@),
    {
        self.flush_typing();
        self.typing_rest.clear();
        self.cur_line.clear();
        self.cur_color = AI_COLOR;
        self.stream_queued.clear();
        self.stream_mode = true;
        assert(self@.cur + self@.rest =~= Seq::<char>::empty());
    }

    /// A piece of a reply, to be revealed in its turn.
    pub fn append_reply_delta(&mut self, delta: &str)
        requires
            old(self).wf(),
        ensures
            final(self).wf(),
            final(self)@ == with_delta(old(self)@, delta@),
    {
        if delta.is_empty() {
            return;
        }
        if !self.stream_mode {
            self.begin_reply_stream();
        }
        let ghost v = self@;
        self.typing_rest.push_str(delta);
        self.stream_queued.push_str(delta);
        proof {
            lemma_suffix_grows(v.cur + v.rest, v.queued, delta@);
            assert(v.cur + (v.rest + delta@) =~= (v.cur + v.rest) + delta@);
        }
    }

    /// The whole reply is known. Where it continues what has arrived, only the difference
    /// is queued; otherwise all of it is typed anew.
    pub fn set_reply_full_text(&mut self, full: &str)
        requires
            old(self).wf(),
        ensures
            final(self).wf(),
            final(self)@ == with_full_text(old(self)@, full@),
    {
        if self.stream_mode {
            let have = chars_of(self.stream_queued.as_str());
            let all = chars_of(full);
            if is_prefix(have.as_slice(), all.as_slice()) {
                let n = all.len();
                let missing = string_of(all.as_slice(), have.len(), n);
                assert(missing@ =~= full@.skip(have@.len() as int));
                self.typing_rest.push_str(missing.as_str());
                self.stream_mode = false;
                self.stream_queued.clear();
                return;
            }
        }
        self.begin_reply_typewriter(full);
    }

    /// Settles what is being typed: all of it goes to the history.
    pub fn flush_typing(&mut self)
        requires
            old(self).wf(),
        ensures
            final(self).wf(),
            final(self)@ == settled(old(self)@),
    {
        self.stream_mode = false;
        self.stream_queued.clear();
        if self.typing_rest.as_str().is_empty() && self.cur_line.as_str().is_empty() {
            return;
        }
        let mut rest = self.cur_line.clone();
        rest.push_str(self.typing_rest.as_str());
        self.cur_line.clear();
        self.typing_rest.clear();
        let color = self.cur_color;
        self.push_line(rest.as_str(), color);
    }

    /// Empties the screen.
    pub fn clear_chat(&mut self)
        requires
            old(self).wf(),
        ensures
            final(self).wf(),
            final(self)@ == (DisplayView {
                history: Seq::empty(),
                rest: Seq::empty(),
                cur: Seq::empty(),
                streaming: false,
                queued: Seq::empty(),
                ..old(self)@
            }),
    {
        self.history.clear();
        self.typing_rest.clear();
        self.cur_line.clear();
        self.stream_mode = false;
        self.stream_queued.clear();
        assert(self@.history =~= Seq::<LineView>::empty());
    }

    /// Sets a unit on the line being typed, given how wide the line and the unit are.
    pub fn place_unit(&mut self, unit: &str, cur_w: i128, unit_w: i128)
        requires
            unit@.len() > 0,
            -WIDEST <= cur_w <= WIDEST,
            -WIDEST <= unit_w <= WIDEST,
        ensures
            final(self)@ == with_unit(old(self)@, unit@, cur_w as int, unit_w as int),
            old(self)@.history.len() <= MAX_HISTORY_LINES ==> final(self)@.history.len()
                <= MAX_HISTORY_LINES,
    {
        let chars = chars_of(unit);
        let color = self.cur_color;
        let line = self.cur_line.clone();
        if chars[chars.len() - 1] == '\n' {
            self.push_line(line.as_str(), color);
            self.cur_line.clear();
            return;
        }
        if cur_w + unit_w > SUB_W as i128 && !line.as_str().is_empty() {
            self.push_line(line.as_str(), color);
            self.cur_line.clear();
        }
        self.cur_line.push_str(unit);
        assert(self@.cur =~= with_unit(old(self)@, unit@, cur_w as int, unit_w as int).cur);
    }

    /// One step of the typewriter. A reply is revealed at the pace of speech: one Chinese
    /// character or one word at a time.
    pub fn tick(&mut self, now_ms: u32)
        requires
            old(self).wf(),
        ensures
            final(self).wf(),
            final(self)@ == typed(old(self)@, now_ms),
    {
        if self.typing_rest.as_str().is_empty() {
            return;
        }
        if now_ms.wrapping_sub(self.last_type_ms) < TYPE_INTERVAL_MS {
            return;
        }
        self.last_type_ms = now_ms;
        let chars = chars_of(self.typing_rest.as_str());
        let k = next_unit(chars.as_slice());
        let n = chars.len();
        let unit = string_of(chars.as_slice(), 0, k);
        self.typing_rest = string_of(chars.as_slice(), k, n);
        let cur_w = measured_width(self.cur_line.as_str());
        let unit_w = measured_width(unit.as_str());
        proof {
            assert(unit@ =~= old(self)@.rest.take(k as int));
            assert(self@.rest =~= old(self)@.rest.skip(k as int));
        }
        let ghost v = self@;
        self.place_unit(unit.as_str(), cur_w, unit_w);
        proof {
            if v.streaming {
                lemma_typing_keeps_tail(old(self)@, now_ms);
            }
        }
    }

    // ---------- for the screen ----------

    pub fn history(&self) -> (h: &[SubtitleLine])
        ensures
            line_views(h@) == self@.history,
    {
        self.history.as_slice()
    }

    pub fn cur_line(&self) -> (s: &str)
        ensures
            s@ == self@.cur,
    {
        self.cur_line.as_str()
    }

    pub fn cur_color(&self) -> (c: u16)
        ensures
            c == self@.color,
    {
        self.cur_color
    }

    pub fn is_typing(&self) -> (r: bool)
        ensures
            r == typing(self@),
    {
        !self.typing_rest.as_str().is_empty() || !self.cur_line.as_str().is_empty()
    }
}

impl Default for Display {
    /// A model in which nothing is set: silent, and with a colour of zero.
    fn default() -> (d: Self)
        ensures
            d.wf(),
            d@ == (DisplayView {
                state: DisplayState::Idle,
                volume: 0,
                history: Seq::empty(),
                rest: Seq::empty(),
                cur: Seq::empty(),
                color: 0,
                streaming: false,
                queued: Seq::empty(),
                last_type_ms: 0,
                volume_until_ms: 0,
                batt_level: None,
                batt_charging: false,
            }),
    {
        let d = Display {
            state: DisplayState::Idle,
            volume: 0,
            history: Vec::new(),
            typing_rest: String::new(),
            cur_line: String::new(),
            cur_color: 0,
            stream_mode: false,
            stream_queued: String::new(),
            last_type_ms: 0,
            volume_until_ms: 0,
            batt_level: None,
            batt_charging: false,
        };
        assert(d@.history =~= Seq::<LineView>::empty());
        d
    }
}

/// The model after a volume change.
pub open spec fn with_volume(v: DisplayView, volume: i32, now_ms: u32) -> DisplayView {
    let clamped: i32 = if volume < 0 {
        0
    } else if volume > 100 {
        100
    } else {
        volume
    };
    if clamped == v.volume {
        v
    } else {
        DisplayView {
            volume: clamped,
            volume_until_ms: now_ms.wrapping_add(VOLUME_SHOWN_MS),
            ..v
        }
    }
}

fn is_prefix(a: &[char], b: &[char]) -> (r: bool)
    ensures
        r == a@.is_prefix_of(b@),
{
    if a.len() > b.len() {
        return false;
    }
    let mut i: usize = 0;
    while i < a.len()
        invariant
            i <= a@.len() <= b@.len(),
            forall|k: int| 0 <= k < i ==> a@[k] == b@[k],
        decreases a@.len() - i,
    {
        if a[i] != b[i] {
            return false;
        }
        i = i + 1;
    }
    assert(a@ =~= b@.subrange(0, a@.len() as int));
    true
}

proof fn lemma_suffix_grows(a: Seq<char>, b: Seq<char>, d: Seq<char>)
    requires
        a.is_suffix_of(b),
    ensures
        (a + d).is_suffix_of(b + d),
{
    assert(a =~= b.subrange(b.len() - a.len(), b.len() as int));
    assert(a + d =~= (b + d).subrange((b + d).len() - (a + d).len(), (b + d).len() as int));
}

proof fn lemma_suffix_of_suffix(a: Seq<char>, b: Seq<char>, c: Seq<char>)
    requires
        a.is_suffix_of(b),
        b.is_suffix_of(c),
    ensures
        a.is_suffix_of(c),
{
    assert(a =~= c.subrange(c.len() - a.len(), c.len() as int)) by {
        assert(b =~= c.subrange(c.len() - b.len(), c.len() as int));
        assert(a =~= b.subrange(b.len() - a.len(), b.len() as int));
    }
}

proof fn lemma_typing_keeps_tail(v: DisplayView, now_ms: u32)
    requires
        v.streaming,
        (v.cur + v.rest).is_suffix_of(v.queued),
    ensures
        (typed(v, now_ms).cur + typed(v, now_ms).rest).is_suffix_of(v.queued),
{
    law_typing_loses_nothing(v, now_ms);
    let w = typed(v, now_ms);
    let cut = typed_off(v, now_ms);
    assert((w.cur + w.rest).is_suffix_of(v.cur + v.rest)) by {
        assert(w.cur + w.rest =~= (v.cur + v.rest).subrange(
            (v.cur + v.rest).len() - (w.cur + w.rest).len(),
            (v.cur + v.rest).len() as int,
        ));
    }
    lemma_suffix_of_suffix(w.cur + w.rest, v.cur + v.rest, v.queued);
}

// ---------- laws of the model ----------

/// What leaves the typewriter for the history in one step: nothing, the line being typed,
/// or that line with the line break that ended it.
pub open spec fn typed_off(v: DisplayView, now_ms: u32) -> Seq<char> {
    let unit = v.rest.take(wrap::unit_len(v.rest));
    if !type_due(v, now_ms) {
        Seq::empty()
    } else if unit.last() == '\n' {
        v.cur + unit
    } else if font::width(v.cur) + font::width(unit) > SUB_W && v.cur.len() > 0 {
        v.cur
    } else {
        Seq::empty()
    }
}

/// Typing loses nothing: the text ahead of the screen is what went to the history in this
/// step followed by what is still ahead. What went to the history is there.
pub proof fn law_typing_loses_nothing(v: DisplayView, now_ms: u32)
    ensures
        v.cur + v.rest == typed_off(v, now_ms) + (typed(v, now_ms).cur + typed(v, now_ms).rest),
        typed_off(v, now_ms).len() == 0 ==> typed(v, now_ms).history == v.history,
        typed_off(v, now_ms).len() > 0 ==> typed(v, now_ms).history == with_text(
            v.history,
            v.cur,
            v.color,
        ),
{
    wrap::law_unit_progress(v.rest);
    let w = typed(v, now_ms);
    let unit = v.rest.take(wrap::unit_len(v.rest));
    if type_due(v, now_ms) {
        assert(unit + v.rest.skip(wrap::unit_len(v.rest)) =~= v.rest);
    }
    assert(v.cur + v.rest =~= typed_off(v, now_ms) + (w.cur + w.rest));
}

/// Text is revealed at a fixed pace: every step takes at least one character off what is
/// ahead, and the next step is due once the interval has passed.
pub proof fn law_typing_pace(v: DisplayView, now_ms: u32, passed_ms: u32)
    requires
        type_due(v, now_ms),
    ensures
        typed(v, now_ms).rest.len() < v.rest.len(),
        typed(v, now_ms).rest.len() > 0 ==> (type_due(
            typed(v, now_ms),
            now_ms.wrapping_add(passed_ms),
        ) <==> passed_ms >= TYPE_INTERVAL_MS),
{
    wrap::law_unit_progress(v.rest);
}

/// A reply whose whole text continues its pieces is completed, not repeated: what is then
/// ahead of the screen is exactly the tail of the whole text behind what was already
/// shown of the pieces.
pub proof fn law_full_text_completes(v: DisplayView, full: Seq<char>)
    requires
        wf_view(v),
        v.streaming,
        v.queued.is_prefix_of(full),
    ensures
        ({
            let w = with_full_text(v, full);
            let shown = v.queued.len() - (v.cur + v.rest).len();
            &&& w.cur + w.rest == full.skip(shown)
            &&& w.history == v.history
            &&& !w.streaming
        }),
{
    let w = with_full_text(v, full);
    let shown = v.queued.len() - (v.cur + v.rest).len();
    assert(v.cur + v.rest =~= v.queued.subrange(shown, v.queued.len() as int));
    assert(v.queued =~= full.subrange(0, v.queued.len() as int));
    assert forall|i: int| 0 <= i < full.len() - shown implies (w.cur + w.rest)[i] == full.skip(
        shown,
    )[i] by {
        if i < (v.cur + v.rest).len() {
            assert((w.cur + w.rest)[i] == (v.cur + v.rest)[i]);
            assert((v.cur + v.rest)[i] == v.queued[shown + i]);
        }
    }
    assert(w.cur + w.rest =~= full.skip(shown));
}

/// A reply that arrives in pieces, none of it revealed yet, is typed as the pieces in a
/// row.
pub proof fn law_pieces_add_up(v: DisplayView, a: Seq<char>, b: Seq<char>)
    ensures
        with_delta(with_delta(v, a), b) == with_delta(v, a + b),
{
    if a.len() == 0 {
        assert(a + b =~= b);
    } else if b.len() == 0 {
        assert(a + b =~= a);
    } else {
        let s = if v.streaming {
            v
        } else {
            stream_opened(v)
        };
        assert(s.rest + a + b =~= s.rest + (a + b));
        assert(s.queued + a + b =~= s.queued + (a + b));
    }
}

/// Settling leaves nothing behind, and doing it again changes nothing.
pub proof fn law_settling_is_final(v: DisplayView)
    ensures
        !typing(settled(v)),
        !settled(v).streaming,
        settled(settled(v)) == settled(v),
{
}

/// The history never holds more lines than are kept, whatever is added.
pub proof fn law_history_bounded(h: Seq<LineView>, t: Seq<char>, color: u16)
    ensures
        with_text(h, t, color).len() <= MAX_HISTORY_LINES,
{
}

/// Whether finished lines show the given texts in the given colour, an empty text as a
/// blank.
pub open spec fn shows(added: Seq<LineView>, lines: Seq<Seq<char>>, color: u16) -> bool {
    &&& added.len() == lines.len()
    &&& forall|i: int|
        0 <= i < added.len() ==> (#[trigger] added[i]).color == color && added[i].text == (
        if lines[i].len() == 0 {
            seq![' ']
        } else {
            lines[i]
        })
}

/// Whether a history is the end of a list of lines: all of them up to eighty, otherwise the
/// last eighty.
pub open spec fn keeps_last(h: Seq<LineView>, all: Seq<LineView>) -> bool {
    &&& h.is_suffix_of(all)
    &&& h.len() == (if all.len() <= 80 {
        all.len()
    } else {
        80
    })
}

/// Whether a history is another one with a text added behind it: whole and in order, in
/// lines of the given colour, of which the last eighty are kept. In a row the lines are the
/// text without its line breaks.
pub open spec fn adds_text(
    before: Seq<LineView>,
    after: Seq<LineView>,
    t: Seq<char>,
    color: u16,
) -> bool {
    exists|lines: Seq<Seq<char>>, added: Seq<LineView>|
        {
            &&& #[trigger] shows(added, lines, color)
            &&& wrap::unwrapped(lines) == wrap::without_breaks(t)
            &&& lines.len() > 0
            &&& #[trigger] keeps_last(after, before + added)
        }
}

/// A text that goes to the history goes there whole and in order, behind what is there, in
/// lines that fit the screen: the lines in a row are the text without its line breaks. Only
/// the oldest lines give way.
pub proof fn law_history_keeps_text(h: Seq<LineView>, t: Seq<char>, color: u16)
    ensures
        adds_text(h, with_text(h, t, color), t, color),
{
    let lines = wrap::subtitle_lines(t);
    let added = lines.map_values(|l: Seq<char>| shown_line(l, color));
    wrap::law_wrap_keeps_text(t, font::advances(t));
    wrap::law_some_line(t, font::advances(t));
    assert(shows(added, lines, color));
    let all = h + added;
    let kept = with_text(h, t, color);
    assert(kept == recent(all));
    assert(kept =~= all.subrange(all.len() - kept.len(), all.len() as int));
    assert(keeps_last(kept, all));
}

/// Settling loses nothing: where anything is being typed, the lines that it adds to the
/// history are, in a row, the line being typed followed by the text that was still ahead,
/// without line breaks, in the colour of that text. Where nothing is, the history stays.
pub proof fn law_settling_loses_nothing(v: DisplayView)
    ensures
        v.cur.len() > 0 || v.rest.len() > 0 ==> adds_text(
            v.history,
            settled(v).history,
            v.cur + v.rest,
            v.color,
        ),
        v.cur.len() == 0 && v.rest.len() == 0 ==> settled(v).history == v.history,
        settled(v).cur.len() == 0 && settled(v).rest.len() == 0 && settled(v).queued.len() == 0,
        !settled(v).streaming,
        settled(v).state == v.state && settled(v).volume == v.volume && settled(v).volume_until_ms
            == v.volume_until_ms && settled(v).batt_level == v.batt_level && settled(
            v,
        ).batt_charging == v.batt_charging && settled(v).last_type_ms == v.last_type_ms,
{
    if v.cur.len() > 0 || v.rest.len() > 0 {
        law_history_keeps_text(v.history, v.cur + v.rest, v.color);
    }
}

/// What the user said stands last, marked as the user's and in the user's colour, behind what
/// was being typed, which has settled.
pub proof fn law_user_line(v: DisplayView, t: Seq<char>)
    ensures
        ({
            let w = with_user_line(v, t);
            &&& adds_text(settled(v).history, w.history, "我:"@ + t, 0x07e0)
            &&& w.cur.len() == 0 && w.rest.len() == 0 && !w.streaming
            &&& w.state == v.state && w.volume == v.volume && w.color == v.color
        }),
{
    law_history_keeps_text(settled(v).history, "我:"@ + t, USER_COLOR);
}

/// A piece of a reply goes behind the text that is ahead of the screen; the first piece of a
/// reply settles what was there before, and is in the colour of replies. An empty piece is
/// none.
pub proof fn law_piece_is_queued(v: DisplayView, d: Seq<char>)
    ensures
        d.len() == 0 ==> with_delta(v, d) == v,
        d.len() > 0 && v.streaming ==> {
            let w = with_delta(v, d);
            &&& w.cur == v.cur
            &&& w.rest == v.rest + d
            &&& w.history == v.history
            &&& w.streaming && w.color == v.color && w.last_type_ms == v.last_type_ms
        },
        d.len() > 0 && !v.streaming ==> {
            let w = with_delta(v, d);
            &&& w.cur.len() == 0
            &&& w.rest == d
            &&& w.history == settled(v).history
            &&& w.streaming && w.color == 0x07ff && w.last_type_ms == v.last_type_ms
        },
{
    if d.len() > 0 && !v.streaming {
        assert(with_delta(v, d).rest =~= d);
    }
}

/// A whole reply that does not continue the pieces that came before it, or for which none
/// came, is typed from its beginning, in the colour of replies; what was there has settled.
pub proof fn law_whole_reply_is_typed(v: DisplayView, full: Seq<char>)
    requires
        !v.streaming || !v.queued.is_prefix_of(full),
    ensures
        with_full_text(v, full).rest == full,
        with_full_text(v, full).cur.len() == 0,
        with_full_text(v, full).history == settled(v).history,
        with_full_text(v, full).color == 0x07ff,
        !with_full_text(v, full).streaming,
        typing_whole(v, full).rest == full,
        typing_whole(v, full).cur.len() == 0,
        typing_whole(v, full).history == settled(v).history,
        typing_whole(v, full).color == 0x07ff,
{
}

/// Pieces and the whole text together show every character once: a reply that came in two
/// pieces and then as a whole is typed as it came as a whole.
pub proof fn law_pieces_then_whole(v: DisplayView, a: Seq<char>, b: Seq<char>, c: Seq<char>)
    requires
        !v.streaming,
        a.len() > 0,
    ensures
        ({
            let w = with_full_text(with_delta(with_delta(v, a), b), a + b + c);
            &&& w.cur + w.rest == a + b + c
            &&& w.history == settled(v).history
            &&& !w.streaming
        }),
{
    law_pieces_add_up(v, a, b);
    let p = with_delta(v, a + b);
    assert(p.queued =~= a + b);
    assert(p.rest =~= a + b);
    assert(a + b =~= (a + b + c).subrange(0, (a + b).len() as int));
    let w = with_full_text(p, a + b + c);
    assert((a + b + c).skip((a + b).len() as int) =~= c);
    assert(w.cur + w.rest =~= a + b + c);
}

/// A step of the typewriter takes one unit off the text that is ahead. A unit that fits goes
/// on the line being typed and the history stays; one that does not fit begins a new line,
/// and the old one goes to the history; a line break ends the line. Everything else stays.
pub proof fn law_typing_step(v: DisplayView, now_ms: u32)
    requires
        v.rest.len() > 0,
        now_ms.wrapping_sub(v.last_type_ms) >= 143,
    ensures
        ({
            let w = typed(v, now_ms);
            let k = v.rest.len() - w.rest.len();
            let unit = v.rest.take(k);
            let wide = font::width(v.cur) + font::width(unit) > 232;
            &&& 0 < k == wrap::unit_len(v.rest)
            &&& w.rest == v.rest.skip(k)
            &&& w.last_type_ms == now_ms
            &&& unit.last() != '\n' && (!wide || v.cur.len() == 0) ==> w.cur == v.cur + unit
                && w.history == v.history
            &&& unit.last() != '\n' && wide && v.cur.len() > 0 ==> w.cur == unit
            &&& unit.last() == '\n' ==> w.cur.len() == 0
            &&& unit.last() == '\n' || (wide && v.cur.len() > 0) ==> adds_text(
                v.history,
                w.history,
                v.cur,
                v.color,
            )
            &&& w.streaming == v.streaming && w.queued == v.queued && w.color == v.color && w.state
                == v.state && w.volume == v.volume
        }),
{
    wrap::law_unit_progress(v.rest);
    law_history_keeps_text(v.history, v.cur, v.color);
}

/// Before its time is up, and with nothing ahead, the typewriter does nothing.
pub proof fn law_typing_waits(v: DisplayView, now_ms: u32)
    ensures
        v.rest.len() == 0 || now_ms.wrapping_sub(v.last_type_ms) < 143 ==> typed(v, now_ms) == v,
{
}

/// The line being typed never gets wider than the screen, unless a single unit is.
pub proof fn law_typed_line_fits(v: DisplayView, now_ms: u32)
    requires
        font::width(v.cur) <= 232,
    ensures
        font::width(typed(v, now_ms).cur) <= 232 || typed(v, now_ms).cur == v.rest.take(
            wrap::unit_len(v.rest),
        ),
{
    let unit = v.rest.take(wrap::unit_len(v.rest));
    font::lemma_width_concat(v.cur, unit);
    if v.cur.len() == 0 {
        assert(v.cur + unit =~= unit);
    }
}

/// The volume is taken over as a percentage. A change is shown for a second and a half from
/// then on; setting the same again changes nothing. Subtitles stay.
pub proof fn law_volume_taken_over(v: DisplayView, volume: i32, now_ms: u32)
    requires
        0 <= v.volume <= 100,
    ensures
        ({
            let w = with_volume(v, volume, now_ms);
            &&& 0 <= volume <= 100 ==> w.volume == volume
            &&& volume < 0 ==> w.volume == 0
            &&& volume > 100 ==> w.volume == 100
            &&& w.volume != v.volume ==> w.volume_until_ms == now_ms.wrapping_add(1500)
            &&& w.volume == v.volume ==> w == v
            &&& w.history == v.history && w.cur == v.cur && w.rest == v.rest && w.state == v.state
                && w.streaming == v.streaming && w.batt_level == v.batt_level
        }),
{
}

/// Each state has a word of its own and a colour of its own, so that no two look alike.
pub proof fn law_states_differ(a: DisplayState, b: DisplayState)
    requires
        a != b,
    ensures
        state_word(a) != state_word(b),
        state_color(a) != state_color(b),
{
    reveal_strlit("IDLE");
    reveal_strlit("LISTEN");
    reveal_strlit("PLAY");
    reveal_strlit("OFFLINE");
    assert("IDLE"@.len() == 4 && "LISTEN"@.len() == 6 && "PLAY"@.len() == 4 && "OFFLINE"@.len() == 7);
    assert("IDLE"@[0] == 'I' && "PLAY"@[0] == 'P');
}

} // verus!
