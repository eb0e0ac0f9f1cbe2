//! What goes to the panel: twelve subtitle rows and a status bar, redrawn only where they
//! changed.
//!
//! There is no frame buffer. The renderer remembers what each row shows, and pushes one
//! rectangle per changed row, at most two per pass. While a reply is being typed the new
//! text mostly continues the old one; then only the columns of the new characters are
//! pushed. The panel is driven from outside: [`Renderer::tick`] names the next
//! rectangle, and [`Renderer::pushed`] hears whether the panel took it and names the one
//! after that.
use vstd::prelude::*;
use crate::display::{Display, DisplayState};
use crate::font::{measured_width, text_width};
use crate::ntp::hm_text;
use crate::raster::{draw_line, fill_color, fill_rect, raster};
use crate::text::{chars_of, push_decimal};
use crate::wrap::SUB_W;
use crate::{display, font, ntp, raster, text};

verus! {

pub const SCREEN_W: usize = 240;

pub const SCREEN_H: usize = 240;

pub const LINE_H: usize = 18;

pub const BAR_H: usize = 22;

/// Top of the subtitle area.
pub const SUB_Y: usize = 24;

/// Rows that fit below the status bar.
pub const VISIBLE: usize = 12;

/// Where text starts in a row.
pub const TEXT_X: i128 = 4;

pub const BLACK: u16 = 0x0000;

pub const CARET_COLOR: u16 = 0x47f4;

pub const BAR_BG: u16 = 0x1202;

/// Rectangles pushed in one pass.
pub const MAX_PUSH: usize = 2;

/// How long the start-up pattern stays on the screen.
pub const BAR_HOLD_MS: u32 = 800;

/// Time between two attempts to revive the panel.
pub const RECOVER_INTERVAL_MS: u32 = 2000;

/// Bytes of the drawing band.
pub const BAND_LEN: usize = 10560;

/// Value of the bar key that no content has.
pub const NO_KEY: u64 = 0xffffffffffffffff;

// ---------- what the rows should show ----------

/// What one row shows.
#[derive(Debug, Clone)]
pub struct Slot {
    pub txt: String,
    pub col: u16,
    pub caret: bool,
}

/// What one row shows, its text as characters.
pub struct SlotView {
    pub txt: Seq<char>,
    pub col: u16,
    pub caret: bool,
}

impl View for Slot {
    type V = SlotView;

    open spec fn view(&self) -> SlotView {
        SlotView { txt: self.txt@, col: self.col, caret: self.caret }
    }
}

/// A row without anything.
pub open spec fn blank() -> SlotView {
    SlotView { txt: Seq::empty(), col: BLACK, caret: false }
}

pub open spec fn slot_views(s: Seq<Slot>) -> Seq<SlotView> {
    s.map_values(|x: Slot| x@)
}

/// Lines there are to show: the history, and the line being typed.
pub open spec fn total_lines(d: display::DisplayView) -> int {
    d.history.len() + if display::typing(d) {
        1int
    } else {
        0
    }
}

/// What a row should show: the last lines, the line being typed last of all. While
/// listening, a caret follows the last line. `None` for a row that should be empty.
pub open spec fn desired(d: display::DisplayView, slot: int) -> Option<SlotView> {
    let total = total_lines(d);
    let listen = d.state == DisplayState::Listening;
    if total == 0 {
        if listen && slot == 0 {
            Some(SlotView { txt: Seq::empty(), col: BLACK, caret: true })
        } else {
            None
        }
    } else {
        let line = (if total > VISIBLE {
            total - VISIBLE
        } else {
            0
        }) + slot;
        if line >= total {
            None
        } else {
            let caret = listen && line == total - 1;
            if display::typing(d) && line == total - 1 {
                Some(SlotView { txt: d.cur, col: d.color, caret })
            } else {
                Some(SlotView { txt: d.history[line].text, col: d.history[line].color, caret })
            }
        }
    }
}

fn desired_row(disp: &Display, slot: usize) -> (r: Option<Slot>)
    requires
        slot < VISIBLE,
        disp.wf(),
    ensures
        r is Some <==> desired(disp@, slot as int) is Some,
        r matches Some(s) ==> desired(disp@, slot as int) == Some(s@),
{
    let hist = disp.history();
    let typing = disp.is_typing();
    assert(display::line_views(hist@).len() == hist@.len());
    let total = hist.len() + if typing {
        1usize
    } else {
        0
    };
    let listen = disp.state() == DisplayState::Listening;
    if total == 0 {
        if listen && slot == 0 {
            return Some(Slot { txt: String::new(), col: BLACK, caret: true });
        }
        return None;
    }
    let first: usize = if total > VISIBLE {
        total - VISIBLE
    } else {
        0
    };
    let line = first + slot;
    if line >= total {
        return None;
    }
    let caret = listen && line == total - 1;
    if typing && line == total - 1 {
        Some(Slot { txt: disp.cur_line().to_owned(), col: disp.cur_color(), caret })
    } else {
        assert(display::line_views(hist@)[line as int] == hist@[line as int]@);
        Some(Slot { txt: hist[line].text.clone(), col: hist[line].color, caret })
    }
}

/// Whether a row already shows what it should.
pub open spec fn is_clean(drawn: SlotView, want: Option<SlotView>) -> bool {
    match want {
        None => drawn.txt.len() == 0 && !drawn.caret,
        Some(w) => drawn == w,
    }
}

/// How a row is brought up to date: the columns to paint, and what to paint there.
pub struct RowPlan {
    pub from: int,
    pub to: int,
    pub row: SlotView,
}

/// A row whose text only grows is painted where it grows; any other row is painted whole.
/// The widths are those of the old and the new text.
pub open spec fn row_plan(
    drawn: SlotView,
    want: Option<SlotView>,
    old_w: int,
    new_w: int,
) -> RowPlan {
    match want {
        None => RowPlan { from: 0, to: SCREEN_W as int, row: blank() },
        Some(w) => {
            let grows = !w.caret && !drawn.caret && drawn.col == w.col && drawn.txt.len() > 0
                && drawn.txt.is_prefix_of(w.txt) && new_w > old_w && new_w <= SUB_W;
            if grows {
                RowPlan { from: TEXT_X + old_w, to: TEXT_X + new_w, row: w }
            } else {
                RowPlan { from: 0, to: SCREEN_W as int, row: w }
            }
        },
    }
}

/// The columns of a plan that lie on the screen: the first, and how many.
pub open spec fn columns(from: int, to: int) -> (int, int) {
    let a = if from < 0 {
        0
    } else {
        from
    };
    let b = if to > SCREEN_W {
        SCREEN_W as int
    } else {
        to
    };
    (
        a,
        if b - a < 1 {
            1
        } else {
            b - a
        },
    )
}

/// The pixels of a row, from column `x` on, `w` columns wide.
pub open spec fn row_band(row: SlotView, x: int, w: int) -> Seq<u8> {
    let base = raster::plain_band((w * LINE_H * 2) as nat, BLACK);
    let shift = TEXT_X - x;
    let lettered = raster::with_text(base, w, row.txt, row.col, shift);
    if row.caret {
        raster::with_text(lettered, w, "_"@, CARET_COLOR, font::width(row.txt) + shift)
    } else {
        lettered
    }
}

// ---------- what the status bar should show ----------

/// Whether the volume is shown: until a while after it was changed.
pub open spec fn volume_shown(d: display::DisplayView, now_ms: u32) -> bool {
    d.volume_until_ms != 0 && 0 < d.volume_until_ms.wrapping_sub(now_ms) <= 0x7fffffff
}

/// Whether the volume is shown.
pub fn show_volume(disp: &Display, now_ms: u32) -> (r: bool)
    ensures
        r == volume_shown(disp@, now_ms),
{
    let until = disp.volume_until_ms();
    let left = until.wrapping_sub(now_ms);
    until != 0 && 0 < left && left <= 0x7fffffff
}

/// The volume as it is shown.
pub open spec fn volume_text(v: int) -> Seq<char> {
    "VOL "@ + text::decimal(v as nat) + "%"@
}

fn format_vol(v: i32) -> (s: String)
    requires
        0 <= v,
    ensures
        s@ == volume_text(v as int),
{
    let mut s = "VOL ".to_owned();
    push_decimal(&mut s, v as u32);
    s.push_str("%");
    s
}

/// The battery level as it is shown.
pub open spec fn level_text(level: Option<u8>) -> Seq<char> {
    match level {
        Some(v) => text::decimal(v as nat) + "%"@,
        None => "--%"@,
    }
}

fn batt_text(level: Option<u8>) -> (s: String)
    ensures
        s@ == level_text(level),
{
    let mut s = String::new();
    match level {
        Some(v) => {
            push_decimal(&mut s, v as u32);
            s.push_str("%");
            assert(s@ =~= level_text(level));
        },
        None => {
            s.push_str("--%");
            assert(s@ =~= level_text(level));
        },
    }
    s
}

/// A number for each state.
pub open spec fn state_number(s: DisplayState) -> int {
    match s {
        DisplayState::Idle => 0,
        DisplayState::Listening => 1,
        DisplayState::Playing => 2,
        DisplayState::Offline => 3,
    }
}

/// The content of the status bar packed into one number: state, volume, and, while the
/// volume is not shown, the time of day and the battery.
pub open spec fn bar_number(
    d: display::DisplayView,
    now_ms: u32,
    hm: Option<(u32, u32)>,
) -> int {
    let front = state_number(d.state) + (if volume_shown(d, now_ms) {
        0x8int
    } else {
        0
    }) + d.volume * 0x10;
    if volume_shown(d, now_ms) {
        front
    } else {
        front + (match hm {
            Some((h, m)) => (h * 60 + m) * 0x800,
            None => 0x400000int,
        }) + (match d.batt_level {
            Some(l) => l as int,
            None => 127,
        }) * 0x1000000 + (if d.batt_charging {
            0x80000000int
        } else {
            0
        })
    }
}

/// The number of what the status bar should show: it tells when the bar has to be redrawn.
pub fn bar_key(disp: &Display, now_ms: u32, hm: Option<(u32, u32)>) -> (k: u64)
    requires
        disp.wf(),
        ntp::is_time(hm),
    ensures
        k == bar_number(disp@, now_ms, hm),
        k < 0x100000000,
{
    let state: u64 = match disp.state() {
        DisplayState::Idle => 0,
        DisplayState::Listening => 1,
        DisplayState::Playing => 2,
        DisplayState::Offline => 3,
    };
    let volume: u64 = disp.volume() as u64;
    if show_volume(disp, now_ms) {
        return state + 0x8 + volume * 0x10;
    }
    let clock: u64 = match hm {
        Some((h, m)) => (h as u64 * 60 + m as u64) * 0x800,
        None => 0x400000,
    };
    let level: u64 = match disp.batt_level() {
        Some(l) => l as u64,
        None => 127,
    };
    let charging: u64 = if disp.batt_charging() {
        0x80000000
    } else {
        0
    };
    state + volume * 0x10 + clock + level * 0x1000000 + charging
}

/// The three bars of the signal symbol.
pub open spec fn with_signal(b: Seq<u8>, c: u16) -> Seq<u8> {
    let w = SCREEN_W as int;
    let one = raster::with_points(b, w, raster::rect_points(190, 10, 3, 5), c);
    let two = raster::with_points(one, w, raster::rect_points(195, 7, 3, 8), c);
    raster::with_points(two, w, raster::rect_points(200, 4, 3, 11), c)
}

/// The flash of the charging symbol, from column `x` on.
pub open spec fn with_flash(b: Seq<u8>, x: int) -> Seq<u8> {
    let w = SCREEN_W as int;
    let one = raster::with_points(b, w, raster::line_points(x + 2, 3, x, 8), 0xffe0);
    let two = raster::with_points(one, w, raster::line_points(x, 8, x + 3, 8), 0xffe0);
    raster::with_points(two, w, raster::line_points(x + 3, 8, x + 1, 13), 0xffe0)
}

/// The pixels of the status bar.
pub open spec fn bar_band(
    d: display::DisplayView,
    now_ms: u32,
    hm: Option<(u32, u32)>,
) -> Seq<u8> {
    let w = SCREEN_W as int;
    let base = raster::plain_band(BAND_LEN as nat, BAR_BG);
    let named = raster::with_text(
        base,
        w,
        display::state_word(d.state),
        display::state_color(d.state),
        6,
    );
    if volume_shown(d, now_ms) {
        raster::with_text(named, w, volume_text(d.volume as int), 0x07ff, 176)
    } else {
        let timed = raster::with_text(named, w, ntp::time_text(hm), 0xffff, 150);
        let signal = with_signal(
            timed,
            if d.state != DisplayState::Offline {
                0x07ff
            } else {
                0x630c
            },
        );
        let level = level_text(d.batt_level);
        let x = 237 - font::width(level);
        let powered = raster::with_text(signal, w, level, 0xffff, x);
        if d.batt_charging {
            with_flash(powered, x - 8)
        } else {
            powered
        }
    }
}

// ---------- the renderer ----------

/// A rectangle of the screen.
#[derive(Debug, Clone, Copy, PartialEq, Eq, Structural)]
pub struct Rect {
    pub x: u16,
    pub y: u16,
    pub w: u16,
    pub h: u16,
}

/// What the panel has to do next.
#[derive(Debug, Clone, Copy, PartialEq, Eq, Structural)]
pub enum Paint {
    /// Nothing more in this pass.
    Done,
    /// Run the panel's initialisation again.
    Recover,
    /// Push the drawing band to this rectangle.
    Push(Rect),
}

/// What a push under way will have changed.
#[derive(Debug, Clone)]
enum Pending {
    Nothing,
    Clear,
    Bar(u64),
    Row(usize, Slot),
}

/// What a push under way will have changed.
pub enum PendingView {
    Nothing,
    /// Some more of the start-up pattern is gone.
    Clear,
    /// The status bar shows the content with this number.
    Bar(u64),
    /// A row shows its new content.
    Row(int, SlotView),
}

/// The state of the renderer.
#[verifier::ext_equal]
pub struct RenderView {
    /// What each row shows.
    pub drawn: Seq<SlotView>,
    /// The number of what the status bar shows.
    pub bar_key: u64,
    /// When the start-up pattern was first seen; 0 before that.
    pub start_ms: u32,
    /// The first pixel row of the start-up pattern that is not cleared.
    pub clear_row: u16,
    /// The start-up pattern is gone.
    pub taken: bool,
    /// When the panel was last asked to recover.
    pub recover_at: u32,
    /// Rectangles pushed in this pass.
    pub sent: nat,
    /// The row that this pass looks at next.
    pub next: int,
    pub pending: PendingView,
}

/// Twelve rows without anything.
pub open spec fn blank_rows() -> Seq<SlotView> {
    Seq::new(VISIBLE as nat, |i: int| blank())
}

/// The first row from `s` on that does not show what it should.
pub open spec fn dirty_row(drawn: Seq<SlotView>, d: display::DisplayView, s: int) -> Option<int>
    decreases VISIBLE - s,
{
    if s >= VISIBLE {
        None
    } else if !is_clean(drawn[s], desired(d, s)) {
        Some(s)
    } else {
        dirty_row(drawn, d, s + 1)
    }
}

/// The plan for a row of the screen.
pub open spec fn plan_for(drawn: Seq<SlotView>, d: display::DisplayView, s: int) -> RowPlan {
    let want = desired(d, s);
    row_plan(
        drawn[s],
        want,
        font::width(drawn[s].txt),
        match want {
            Some(w) => font::width(w.txt),
            None => 0,
        },
    )
}

/// The rectangle of a row between two columns.
pub open spec fn row_rect(s: int, from: int, to: int) -> Rect {
    Rect {
        x: columns(from, to).0 as u16,
        y: (SUB_Y + s * LINE_H) as u16,
        w: columns(from, to).1 as u16,
        h: LINE_H as u16,
    }
}

/// The next row of a pass: which rectangle is pushed, and the state in which that push is
/// awaited.
pub open spec fn next_row(v: RenderView, d: display::DisplayView) -> (RenderView, Paint) {
    let row = if v.sent >= MAX_PUSH {
        None
    } else {
        dirty_row(v.drawn, d, v.next)
    };
    match row {
        None => (RenderView { pending: PendingView::Nothing, ..v }, Paint::Done),
        Some(s) => {
            let p = plan_for(v.drawn, d, s);
            (
                RenderView { pending: PendingView::Row(s, p.row), next: s, ..v },
                Paint::Push(row_rect(s, p.from, p.to)),
            )
        },
    }
}

/// Height of the strip of the start-up pattern that is cleared next.
pub open spec fn clear_height(row: u16) -> int {
    if SCREEN_H - row < LINE_H {
        SCREEN_H - row
    } else {
        LINE_H as int
    }
}

/// The start of a pass.
pub open spec fn pass_start(
    v: RenderView,
    d: display::DisplayView,
    ready: bool,
    now_ms: u32,
    hm: Option<(u32, u32)>,
) -> (RenderView, Paint) {
    let idle = RenderView { pending: PendingView::Nothing, ..v };
    if !ready {
        if now_ms.wrapping_sub(v.recover_at) >= RECOVER_INTERVAL_MS {
            (RenderView { recover_at: now_ms, ..idle }, Paint::Recover)
        } else {
            (idle, Paint::Done)
        }
    } else {
        let start = if v.start_ms == 0 {
            now_ms
        } else {
            v.start_ms
        };
        let begun = RenderView { start_ms: start, ..idle };
        if now_ms.wrapping_sub(start) < BAR_HOLD_MS {
            (begun, Paint::Done)
        } else if !v.taken {
            (
                RenderView { pending: PendingView::Clear, ..begun },
                Paint::Push(
                    Rect {
                        x: 0,
                        y: v.clear_row,
                        w: SCREEN_W as u16,
                        h: clear_height(v.clear_row) as u16,
                    },
                ),
            )
        } else {
            let fresh = RenderView { sent: 0, next: 0, ..begun };
            let key = bar_number(d, now_ms, hm) as u64;
            if v.bar_key != key {
                (
                    RenderView { pending: PendingView::Bar(key), ..fresh },
                    Paint::Push(
                        Rect { x: 0, y: 0, w: SCREEN_W as u16, h: BAR_H as u16 },
                    ),
                )
            } else {
                next_row(fresh, d)
            }
        }
    }
}

/// What a finished push changes. One that failed changes nothing, and ends the pass; only
/// the clearing of the start-up pattern goes on regardless.
pub open spec fn committed(v: RenderView, ok: bool) -> RenderView {
    let idle = RenderView { pending: PendingView::Nothing, ..v };
    match v.pending {
        PendingView::Nothing => idle,
        PendingView::Clear => {
            let row = (v.clear_row + clear_height(v.clear_row)) as u16;
            if row >= SCREEN_H {
                RenderView {
                    clear_row: row,
                    drawn: blank_rows(),
                    taken: true,
                    bar_key: NO_KEY,
                    ..idle
                }
            } else {
                RenderView { clear_row: row, ..idle }
            }
        },
        PendingView::Bar(key) => if ok {
            RenderView { bar_key: key, sent: 1, ..idle }
        } else {
            idle
        },
        PendingView::Row(s, row) => if ok {
            RenderView { drawn: v.drawn.update(s, row), sent: v.sent + 1, next: s + 1, ..idle }
        } else {
            idle
        },
    }
}

/// Whether a pass goes on after a push.
pub open spec fn goes_on(v: RenderView, ok: bool) -> bool {
    ok && (v.pending is Bar || v.pending is Row)
}

/// The step after a push.
pub open spec fn pass_next(v: RenderView, d: display::DisplayView, ok: bool) -> (
    RenderView,
    Paint,
) {
    if goes_on(v, ok) {
        next_row(committed(v, ok), d)
    } else {
        (committed(v, ok), Paint::Done)
    }
}

/// The renderer.
pub struct Renderer {
    drawn: Vec<Slot>,
    bar_key: u64,
    band: Vec<u8>,
    start_ms: u32,
    clear_row: u16,
    taken: bool,
    recover_at: u32,
    sent: usize,
    next: usize,
    pending: Pending,
}

impl View for Renderer {
    type V = RenderView;

    closed spec fn view(&self) -> RenderView {
        RenderView {
            drawn: slot_views(self.drawn@),
            bar_key: self.bar_key,
            start_ms: self.start_ms,
            clear_row: self.clear_row,
            taken: self.taken,
            recover_at: self.recover_at,
            sent: self.sent as nat,
            next: self.next as int,
            pending: match self.pending {
                Pending::Nothing => PendingView::Nothing,
                Pending::Clear => PendingView::Clear,
                Pending::Bar(k) => PendingView::Bar(k),
                Pending::Row(s, row) => PendingView::Row(s as int, row@),
            },
        }
    }
}

/// What always holds of the renderer.
pub open spec fn wf_render(v: RenderView) -> bool {
    &&& v.drawn.len() == VISIBLE
    &&& v.clear_row <= SCREEN_H
    &&& !v.taken ==> v.clear_row < SCREEN_H
    &&& v.sent <= MAX_PUSH
    &&& 0 <= v.next <= VISIBLE
    &&& v.pending is Clear ==> !v.taken
    &&& v.pending matches PendingView::Row(s, _r) ==> 0 <= s < VISIBLE && v.sent < MAX_PUSH
}

/// The bytes that go with a push.
pub open spec fn band_for(
    p: PendingView,
    r: Rect,
    d: display::DisplayView,
    now_ms: u32,
    hm: Option<(u32, u32)>,
) -> Seq<u8> {
    match p {
        PendingView::Nothing => Seq::empty(),
        PendingView::Clear => raster::plain_band((r.w * r.h * 2) as nat, BLACK),
        PendingView::Bar(_) => bar_band(d, now_ms, hm),
        PendingView::Row(_, row) => row_band(row, r.x as int, r.w as int),
    }
}

impl Renderer {
    /// The bytes for the rectangle that was last asked for.
    pub closed spec fn band(&self) -> Seq<u8> {
        self.band@
    }

    pub open spec fn wf(&self) -> bool {
        wf_render(self@)
    }

    pub fn new() -> (r: Self)
        ensures
            r.wf(),
            r@ == (RenderView {
                drawn: blank_rows(),
                bar_key: NO_KEY,
                start_ms: 0,
                clear_row: 0,
                taken: false,
                recover_at: 0,
                sent: 0,
                next: 0,
                pending: PendingView::Nothing,
            }),
    {
        let drawn = blank_slots();
        Renderer {
            drawn,
            bar_key: NO_KEY,
            band: Vec::new(),
            start_ms: 0,
            clear_row: 0,
            taken: false,
            recover_at: 0,
            sent: 0,
            next: 0,
            pending: Pending::Nothing,
        }
    }

    /// The bytes for the rectangle that was last asked for.
    pub fn pixels(&self) -> (b: &[u8])
        ensures
            b@ == self.band(),
    {
        self.band.as_slice()
    }

    /// Whether the start-up pattern is gone and the rows are shown.
    pub fn is_taken(&self) -> (r: bool)
        ensures
            r == self@.taken,
    {
        self.taken
    }

    /// Looks for the next row that has to be painted, and paints it into the band.
    fn continue_rows(&mut self, disp: &Display) -> (r: Paint)
        requires
            old(self).wf(),
            disp.wf(),
        ensures
            final(self).wf(),
            final(self)@ == next_row(old(self)@, disp@).0,
            r == next_row(old(self)@, disp@).1,
            r matches Paint::Push(rect) ==> final(self)@.pending matches PendingView::Row(_s, row)
                && final(self).band() == row_band(row, rect.x as int, rect.w as int),
    {
        self.pending = Pending::Nothing;
        if self.sent >= MAX_PUSH {
            return Paint::Done;
        }
        let ghost v = self@;
        let mut slot: usize = self.next;
        while slot < VISIBLE
            invariant
                self.wf(),
                disp.wf(),
                self@ == v,
                v == (RenderView { pending: PendingView::Nothing, ..old(self)@ }),
                v.sent < MAX_PUSH,
                self.drawn@.len() == VISIBLE,
                v.next <= slot <= VISIBLE,
                0 <= v.next,
                dirty_row(v.drawn, disp@, v.next) == dirty_row(v.drawn, disp@, slot as int),
            decreases VISIBLE - slot,
        {
            let want = desired_row(disp, slot);
            assert(v.drawn[slot as int] == self.drawn@[slot as int]@);
            let d = &self.drawn[slot];
            let clean = match &want {
                None => d.txt.as_str().is_empty() && !d.caret,
                Some(w) => same_slot(d, w),
            };
            if !clean {
                let ghost old_w = font::width(v.drawn[slot as int].txt);
                let (row, span) = match want {
                    None => (
                        Slot { txt: String::new(), col: BLACK, caret: false },
                        Span { from: 0, to: SCREEN_W as i128 },
                    ),
                    Some(w) => {
                        let ow = measured_width(d.txt.as_str());
                        let nw = measured_width(w.txt.as_str());
                        let span = plan_row(d, &w, ow, nw);
                        (w, span)
                    },
                };
                let ghost p = plan_for(v.drawn, disp@, slot as int);
                assert(row@ == p.row);
                assert(span.from == p.from && span.to == p.to);
                let x: i128 = if span.from < 0 {
                    0
                } else {
                    span.from
                };
                let b: i128 = if span.to > SCREEN_W as i128 {
                    SCREEN_W as i128
                } else {
                    span.to
                };
                let w: usize = if b - x < 1 {
                    1
                } else {
                    (b - x) as usize
                };
                self.band.resize(w * LINE_H * 2, 0);
                paint_row(self.band.as_mut_slice(), &row, x, w);
                self.next = slot;
                self.pending = Pending::Row(slot, row);
                return Paint::Push(
                    Rect {
                        x: x as u16,
                        y: (SUB_Y + slot * LINE_H) as u16,
                        w: w as u16,
                        h: LINE_H as u16,
                    },
                );
            }
            slot = slot + 1;
        }
        Paint::Done
    }

    /// The start of a pass over the screen, once in every turn of the main loop. `ready`
    /// tells whether the panel works, `hm` is the time of day.
    pub fn tick(
        &mut self,
        disp: &Display,
        ready: bool,
        now_ms: u32,
        hm: Option<(u32, u32)>,
    ) -> (r: Paint)
        requires
            old(self).wf(),
            disp.wf(),
            ntp::is_time(hm),
        ensures
            final(self).wf(),
            final(self)@ == pass_start(old(self)@, disp@, ready, now_ms, hm).0,
            r == pass_start(old(self)@, disp@, ready, now_ms, hm).1,
            r matches Paint::Push(rect) ==> final(self).band() == band_for(
                final(self)@.pending,
                rect,
                disp@,
                now_ms,
                hm,
            ),
    {
        self.pending = Pending::Nothing;
        if !ready {
            if now_ms.wrapping_sub(self.recover_at) >= RECOVER_INTERVAL_MS {
                self.recover_at = now_ms;
                return Paint::Recover;
            }
            return Paint::Done;
        }
        if self.start_ms == 0 {
            self.start_ms = now_ms;
        }
        if now_ms.wrapping_sub(self.start_ms) < BAR_HOLD_MS {
            return Paint::Done;
        }
        if !self.taken {
            let h = self.strip_height();
            self.band.resize(SCREEN_W * h * 2, 0);
            fill_color(self.band.as_mut_slice(), BLACK);
            self.pending = Pending::Clear;
            return Paint::Push(
                Rect { x: 0, y: self.clear_row, w: SCREEN_W as u16, h: h as u16 },
            );
        }
        self.sent = 0;
        self.next = 0;
        let key = bar_key(disp, now_ms, hm);
        if self.bar_key != key {
            self.band.resize(BAND_LEN, 0);
            paint_bar(self.band.as_mut_slice(), disp, now_ms, hm);
            self.pending = Pending::Bar(key);
            return Paint::Push(Rect { x: 0, y: 0, w: SCREEN_W as u16, h: BAR_H as u16 });
        }
        self.continue_rows(disp)
    }

    fn strip_height(&self) -> (h: usize)
        requires
            self.wf(),
            !self@.taken,
        ensures
            h == clear_height(self@.clear_row),
            0 < h <= LINE_H,
    {
        let left = SCREEN_H - self.clear_row as usize;
        if left < LINE_H {
            left
        } else {
            LINE_H
        }
    }

    /// The panel took the rectangle that was asked for, or failed to.
    pub fn pushed(&mut self, disp: &Display, ok: bool) -> (r: Paint)
        requires
            old(self).wf(),
            disp.wf(),
        ensures
            final(self).wf(),
            final(self)@ == pass_next(old(self)@, disp@, ok).0,
            r == pass_next(old(self)@, disp@, ok).1,
            r matches Paint::Push(rect) ==> final(self)@.pending matches PendingView::Row(_s, row)
                && final(self).band() == row_band(row, rect.x as int, rect.w as int),
    {
        let mut was = Pending::Nothing;
        std::mem::swap(&mut was, &mut self.pending);
        match was {
            Pending::Nothing => Paint::Done,
            Pending::Clear => {
                let h = self.strip_height();
                self.clear_row = self.clear_row + h as u16;
                if self.clear_row >= SCREEN_H as u16 {
                    self.drawn = blank_slots();
                    self.taken = true;
                    self.bar_key = NO_KEY;
                }
                Paint::Done
            },
            Pending::Bar(key) => {
                if !ok {
                    return Paint::Done;
                }
                self.bar_key = key;
                self.sent = 1;
                self.continue_rows(disp)
            },
            Pending::Row(slot, row) => {
                if !ok {
                    return Paint::Done;
                }
                let ghost before = self.drawn@;
                self.drawn.set(slot, row);
                assert(slot_views(self.drawn@) =~= slot_views(before).update(slot as int, row@));
                self.sent = self.sent + 1;
                self.next = slot + 1;
                self.continue_rows(disp)
            },
        }
    }
}

fn blank_slots() -> (v: Vec<Slot>)
    ensures
        slot_views(v@) == blank_rows(),
{
    let mut v: Vec<Slot> = Vec::new();
    while v.len() < VISIBLE
        invariant
            v@.len() <= VISIBLE,
            forall|i: int| 0 <= i < v@.len() ==> (#[trigger] v@[i])@ == blank(),
        decreases VISIBLE - v@.len(),
    {
        let s = Slot { txt: String::new(), col: BLACK, caret: false };
        assert(s@ == blank());
        v.push(s);
    }
    assert(slot_views(v@) =~= blank_rows());
    v
}

/// The exact plan for a row, from measured widths.
#[derive(Debug, Clone, Copy, PartialEq, Eq, Structural)]
pub struct Span {
    pub from: i128,
    pub to: i128,
}

/// Which columns of a row have to be painted, given how wide its old and its new text are.
pub fn plan_row(drawn: &Slot, want: &Slot, old_w: i128, new_w: i128) -> (p: Span)
    requires
        -font::WIDEST <= old_w <= font::WIDEST,
        -font::WIDEST <= new_w <= font::WIDEST,
    ensures
        p.from == row_plan(drawn@, Some(want@), old_w as int, new_w as int).from,
        p.to == row_plan(drawn@, Some(want@), old_w as int, new_w as int).to,
{
    let grows = !want.caret && !drawn.caret && drawn.col == want.col && !drawn.txt.as_str().is_empty()
        && starts_with(want.txt.as_str(), drawn.txt.as_str()) && new_w > old_w && new_w
        <= SUB_W as i128;
    if grows {
        Span { from: TEXT_X + old_w, to: TEXT_X + new_w }
    } else {
        Span { from: 0, to: SCREEN_W as i128 }
    }
}

fn starts_with(s: &str, p: &str) -> (r: bool)
    ensures
        r == p@.is_prefix_of(s@),
{
    let a = chars_of(p);
    let b = chars_of(s);
    if a.len() > b.len() {
        return false;
    }
    let mut i: usize = 0;
    while i < a.len()
        invariant
            i <= a@.len() <= b@.len(),
            a@ == p@,
            b@ == s@,
            forall|k: int| 0 <= k < i ==> a@[k] == b@[k],
        decreases a@.len() - i,
    {
        if a[i] != b[i] {
            return false;
        }
        i = i + 1;
    }
    assert(p@ =~= s@.subrange(0, p@.len() as int));
    true
}

fn same_slot(a: &Slot, b: &Slot) -> (r: bool)
    ensures
        r == (a@ == b@),
{
    a.txt == b.txt && a.col == b.col && a.caret == b.caret
}

/// Draws a row into a band of the given width, from screen column `x` on.
pub fn paint_row(band: &mut [u8], row: &Slot, x: i128, w: usize)
    requires
        0 <= x <= SCREEN_W,
        0 < w <= SCREEN_W,
        old(band)@.len() == w * LINE_H * 2,
    ensures
        final(band)@ == row_band(row@, x as int, w as int),
{
    fill_color(band, BLACK);
    let shift = TEXT_X - x;
    raster(band, w, row.txt.as_str(), row.col, shift);
    if row.caret {
        let caret_x = measured_width(row.txt.as_str()) + shift;
        raster(band, w, "_", CARET_COLOR, caret_x);
    }
}

/// Draws the status bar.
pub fn paint_bar(band: &mut [u8], disp: &Display, now_ms: u32, hm: Option<(u32, u32)>)
    requires
        old(band)@.len() == BAND_LEN,
        disp.wf(),
        ntp::is_time(hm),
    ensures
        final(band)@ == bar_band(disp@, now_ms, hm),
{
    fill_color(band, BAR_BG);
    let state = disp.state();
    raster(band, SCREEN_W, state.as_str(), state.color(), 6);
    if show_volume(disp, now_ms) {
        let s = format_vol(disp.volume());
        raster(band, SCREEN_W, s.as_str(), 0x07ff, 176);
        return;
    }
    let t = hm_text(hm);
    raster(band, SCREEN_W, t.as_str(), 0xffff, 150);
    let wc: u16 = if state != DisplayState::Offline {
        0x07ff
    } else {
        0x630c
    };
    fill_rect(band, SCREEN_W, 190, 10, 3, 5, wc);
    fill_rect(band, SCREEN_W, 195, 7, 3, 8, wc);
    fill_rect(band, SCREEN_W, 200, 4, 3, 11, wc);
    let bt = batt_text(disp.batt_level());
    proof {
        lemma_level_text_short(disp@.batt_level);
    }
    let bw = text_width(bt.as_str());
    raster(band, SCREEN_W, bt.as_str(), 0xffff, 237 - bw as i128);
    if disp.batt_charging() {
        let bx: i32 = 237 - bw - 8;
        draw_line(band, SCREEN_W, bx + 2, 3, bx, 8, 0xffe0);
        draw_line(band, SCREEN_W, bx, 8, bx + 3, 8, 0xffe0);
        draw_line(band, SCREEN_W, bx + 3, 8, bx + 1, 13, 0xffe0);
    }
}

proof fn lemma_level_text_short(level: Option<u8>)
    ensures
        level_text(level).len() <= 4,
{
    reveal_strlit("%");
    reveal_strlit("--%");
    reveal_with_fuel(text::decimal, 4);
}

// ---------- laws of the screen ----------

/// Whether a rectangle lies on the screen and is not empty.
pub open spec fn on_screen(r: Rect) -> bool {
    &&& r.w > 0
    &&& r.h > 0
    &&& r.x + r.w <= SCREEN_W
    &&& r.y + r.h <= SCREEN_H
}

proof fn lemma_dirty_row(drawn: Seq<SlotView>, d: display::DisplayView, s: int)
    requires
        0 <= s <= VISIBLE,
    ensures
        dirty_row(drawn, d, s) matches Some(k) ==> s <= k < VISIBLE && !is_clean(
            drawn[k],
            desired(d, k),
        ),
        dirty_row(drawn, d, s) is None ==> forall|k: int|
            s <= k < VISIBLE ==> is_clean(#[trigger] drawn[k], desired(d, k)),
        forall|k: int|
            s <= k < (match dirty_row(drawn, d, s) {
                Some(j) => j,
                None => VISIBLE as int,
            }) ==> is_clean(#[trigger] drawn[k], desired(d, k)),
    decreases VISIBLE - s,
{
    if s < VISIBLE && is_clean(drawn[s], desired(d, s)) {
        lemma_dirty_row(drawn, d, s + 1);
    }
}

proof fn lemma_text_len(b: Seq<u8>, w: int, t: Seq<char>, c: u16, shift: int)
    requires
        w > 0,
    ensures
        raster::with_text(b, w, t, c, shift).len() == b.len(),
{
    raster::lemma_points_len(
        b,
        w,
        raster::moved(font::text_pixels(raster::drawn_part(t), SUB_W), shift),
        c,
    );
}

proof fn lemma_row_band_len(row: SlotView, x: int, w: int)
    requires
        0 < w,
    ensures
        row_band(row, x, w).len() == w * LINE_H * 2,
{
    let base = raster::plain_band((w * LINE_H * 2) as nat, BLACK);
    lemma_text_len(base, w, row.txt, row.col, TEXT_X - x);
    let lettered = raster::with_text(base, w, row.txt, row.col, TEXT_X - x);
    lemma_text_len(lettered, w, "_"@, CARET_COLOR, font::width(row.txt) + (TEXT_X - x));
}

/// Every rectangle of a row lies on the screen, and the band that goes with it has exactly
/// its pixels.
pub proof fn law_rows_on_screen(v: RenderView, d: display::DisplayView)
    requires
        wf_render(v),
    ensures
        next_row(v, d).1 matches Paint::Push(r) ==> on_screen(r) && r.y >= SUB_Y && (next_row(
            v,
            d,
        ).0.pending matches PendingView::Row(_s, row) && row_band(
            row,
            r.x as int,
            r.w as int,
        ).len() == r.w * r.h * 2),
{
    lemma_dirty_row(v.drawn, d, v.next);
    match next_row(v, d).1 {
        Paint::Push(r) => {
            let s = dirty_row(v.drawn, d, v.next)->0;
            let p = plan_for(v.drawn, d, s);
            assert(SUB_Y + s * LINE_H + LINE_H <= SCREEN_H);
            assert(1 <= columns(p.from, p.to).1 <= SCREEN_W);
            assert(r.w == columns(p.from, p.to).1);
            lemma_row_band_len(p.row, r.x as int, r.w as int);
            assert(r.w * LINE_H * 2 == r.w * r.h * 2) by (nonlinear_arith)
                requires
                    r.h == LINE_H,
            ;
        },
        _ => {},
    }
}

/// Every rectangle of a pass lies on the screen.
pub proof fn law_pass_on_screen(
    v: RenderView,
    d: display::DisplayView,
    ready: bool,
    now_ms: u32,
    hm: Option<(u32, u32)>,
)
    requires
        wf_render(v),
    ensures
        pass_start(v, d, ready, now_ms, hm).1 matches Paint::Push(r) ==> on_screen(r),
{
    let start = if v.start_ms == 0 {
        now_ms
    } else {
        v.start_ms
    };
    let begun = RenderView { start_ms: start, pending: PendingView::Nothing, ..v };
    law_rows_on_screen(RenderView { sent: 0, next: 0, ..begun }, d);
}

/// Where nothing has changed, nothing is pushed.
pub proof fn law_unchanged_is_quiet(
    v: RenderView,
    d: display::DisplayView,
    ready: bool,
    now_ms: u32,
    hm: Option<(u32, u32)>,
)
    requires
        wf_render(v),
        v.taken,
        v.bar_key == bar_number(d, now_ms, hm),
        forall|s: int| 0 <= s < VISIBLE ==> is_clean(#[trigger] v.drawn[s], desired(d, s)),
        ready,
    ensures
        pass_start(v, d, ready, now_ms, hm).1 == Paint::Done,
{
    lemma_dirty_row(v.drawn, d, 0);
}

/// A pass pushes at most two rectangles of rows and bar: each accepted push counts, and
/// after the second none is asked for.
pub proof fn law_two_pushes_per_pass(v: RenderView, d: display::DisplayView, ok: bool)
    requires
        wf_render(v),
    ensures
        v.pending is Bar && ok ==> committed(v, ok).sent == 1,
        v.pending is Row && ok ==> committed(v, ok).sent == v.sent + 1,
        pass_next(v, d, ok).1 is Push ==> committed(v, ok).sent < MAX_PUSH,
        pass_next(v, d, ok).1 is Push ==> pass_next(v, d, ok).0.sent == committed(v, ok).sent,
{
}

/// A row whose push was accepted shows what it should, and no other row changed.
pub proof fn law_pushed_row_is_shown(v: RenderView, d: display::DisplayView)
    requires
        wf_render(v),
        next_row(v, d).1 is Push,
    ensures
        next_row(v, d).0.pending matches PendingView::Row(s, _row) && {
            let w = committed(next_row(v, d).0, true);
            &&& is_clean(w.drawn[s], desired(d, s))
            &&& forall|k: int| 0 <= k < VISIBLE && k != s ==> #[trigger] w.drawn[k] == v.drawn[k]
        },
{
    lemma_dirty_row(v.drawn, d, v.next);
}

/// A pass that ends early has nothing left to do: all rows it did not paint show what
/// they should.
pub proof fn law_done_means_shown(v: RenderView, d: display::DisplayView)
    requires
        wf_render(v),
        v.sent < MAX_PUSH,
        next_row(v, d).1 is Done,
    ensures
        forall|s: int| v.next <= s < VISIBLE ==> is_clean(#[trigger] v.drawn[s], desired(d, s)),
{
    lemma_dirty_row(v.drawn, d, v.next);
}

/// A rejected push of a row or of the bar leaves the renderer's knowledge as it was, so
/// that the same rectangle is due again.
pub proof fn law_rejected_push_is_retried(v: RenderView)
    requires
        !(v.pending is Clear),
    ensures
        committed(v, false) == (RenderView { pending: PendingView::Nothing, ..v }),
{
}

/// A panel that has failed is asked to recover, and again every time the interval has
/// passed, for as long as it does not work; never more often.
pub proof fn law_panel_is_revived(
    v: RenderView,
    d: display::DisplayView,
    now_ms: u32,
    hm: Option<(u32, u32)>,
    passed_ms: u32,
)
    requires
        pass_start(v, d, false, now_ms, hm).1 is Recover,
    ensures
        ({
            let w = pass_start(v, d, false, now_ms, hm).0;
            pass_start(w, d, false, now_ms.wrapping_add(passed_ms), hm).1 is Recover <==> passed_ms
                >= RECOVER_INTERVAL_MS
        }),
{
}

/// The start-up pattern stays untouched for its time, counted from the first pass, and then
/// its clearing begins.
pub proof fn law_pattern_is_held(
    v: RenderView,
    d: display::DisplayView,
    now_ms: u32,
    hm: Option<(u32, u32)>,
    passed_ms: u32,
)
    requires
        v.start_ms == 0,
        now_ms != 0,
        !v.taken,
    ensures
        ({
            let w = pass_start(v, d, true, now_ms, hm).0;
            let later = pass_start(w, d, true, now_ms.wrapping_add(passed_ms), hm);
            &&& pass_start(v, d, true, now_ms, hm).1 is Done
            &&& passed_ms < BAR_HOLD_MS ==> later.1 is Done
            &&& passed_ms >= BAR_HOLD_MS ==> later.1 is Push && later.0.pending is Clear
        }),
{
}

/// The start-up pattern is cleared strip by strip from the top, without gaps, until all of
/// it is gone.
pub proof fn law_clearing_advances(v: RenderView, ok: bool)
    requires
        wf_render(v),
        !v.taken,
        v.pending is Clear,
    ensures
        committed(v, ok).clear_row == v.clear_row + clear_height(v.clear_row),
        committed(v, ok).clear_row > v.clear_row,
        committed(v, ok).taken == (committed(v, ok).clear_row == SCREEN_H),
        committed(v, ok).taken ==> committed(v, ok).drawn == blank_rows(),
{
}

proof fn lemma_moved_contains(pixels: Seq<(i32, i32)>, a: int, b: int, p: int, q: int)
    ensures
        raster::moved(pixels, a).contains((p, q)) == raster::moved(pixels, b).contains(
            (p + (b - a), q),
        ),
{
    let m = raster::moved(pixels, a);
    let n = raster::moved(pixels, b);
    if m.contains((p, q)) {
        let k = choose|k: int| 0 <= k < m.len() && m[k] == (p, q);
        assert(n[k] == (p + (b - a), q));
    }
    if n.contains((p + (b - a), q)) {
        let k = choose|k: int| 0 <= k < n.len() && n[k] == (p + (b - a), q);
        assert(m[k] == (p, q));
    }
}

proof fn lemma_text_pixel(
    narrow: Seq<u8>,
    whole: Seq<u8>,
    w: int,
    x: int,
    t: Seq<char>,
    c: u16,
    shift: int,
    p: int,
    q: int,
)
    requires
        0 < w,
        0 <= x,
        x + w <= SCREEN_W,
        0 <= p < w,
        raster::inside(narrow.len() as int, w, p, q),
        raster::inside(whole.len() as int, SCREEN_W as int, p + x, q),
        raster::pixel(narrow, w, p, q) == raster::pixel(whole, SCREEN_W as int, p + x, q),
    ensures
        raster::pixel(raster::with_text(narrow, w, t, c, shift - x), w, p, q) == raster::pixel(
            raster::with_text(whole, SCREEN_W as int, t, c, shift),
            SCREEN_W as int,
            p + x,
            q,
        ),
{
    let pixels = font::text_pixels(raster::drawn_part(t), SUB_W);
    raster::lemma_points(narrow, w, raster::moved(pixels, shift - x), c, p, q);
    raster::lemma_points(whole, SCREEN_W as int, raster::moved(pixels, shift), c, p + x, q);
    lemma_moved_contains(pixels, shift - x, shift, p, q);
}

/// Painting only some columns of a row gives these columns the pixels that painting the
/// whole row would have given them.
pub proof fn law_narrow_is_part_of_whole(row: SlotView, x: int, w: int, p: int, q: int)
    requires
        0 < w,
        0 <= x,
        x + w <= SCREEN_W,
        0 <= p < w,
        0 <= q < LINE_H,
    ensures
        raster::pixel(row_band(row, x, w), w, p, q) == raster::pixel(
            row_band(row, 0, SCREEN_W as int),
            SCREEN_W as int,
            p + x,
            q,
        ),
{
    let full = SCREEN_W as int;
    let n = raster::plain_band((w * LINE_H * 2) as nat, BLACK);
    let f = raster::plain_band((full * LINE_H * 2) as nat, BLACK);
    assert((w * LINE_H * 2) / (w * 2) == LINE_H) by (nonlinear_arith)
        requires
            w > 0,
            LINE_H == 18,
    ;
    assert(w * LINE_H * 2 >= 0) by (nonlinear_arith)
        requires
            w > 0,
            LINE_H == 18,
    ;
    assert(f.len() == 8640);
    assert(raster::rows(8640, full) == LINE_H) by {
        assert(full * 2 == 480);
        assert(8640int / 480int == 18);
    }
    assert(raster::inside(n.len() as int, w, p, q));
    assert(raster::inside(f.len() as int, full, p + x, q));
    raster::lemma_plain_band(n.len(), w, BLACK, p, q);
    raster::lemma_plain_band(f.len(), full, BLACK, p + x, q);
    lemma_text_pixel(n, f, w, x, row.txt, row.col, TEXT_X as int, p, q);
    let ln = raster::with_text(n, w, row.txt, row.col, TEXT_X - x);
    let lf = raster::with_text(f, full, row.txt, row.col, TEXT_X as int);
    lemma_text_len(n, w, row.txt, row.col, TEXT_X - x);
    lemma_text_len(f, full, row.txt, row.col, TEXT_X as int);
    if row.caret {
        lemma_text_pixel(ln, lf, w, x, "_"@, CARET_COLOR, font::width(row.txt) + TEXT_X, p, q);
    }
}

/// Whether two status bars show the same: state and volume, whether the volume is shown,
/// and, where it is not, the time of day and the battery.
pub open spec fn same_bar(
    a: display::DisplayView,
    a_ms: u32,
    a_hm: Option<(u32, u32)>,
    b: display::DisplayView,
    b_ms: u32,
    b_hm: Option<(u32, u32)>,
) -> bool {
    &&& a.state == b.state
    &&& a.volume == b.volume
    &&& volume_shown(a, a_ms) == volume_shown(b, b_ms)
    &&& !volume_shown(a, a_ms) ==> a_hm == b_hm && a.batt_level == b.batt_level
        && a.batt_charging == b.batt_charging
}

/// Equal numbers mean equal content, and equal content means equal numbers: the bar is
/// redrawn whenever its content changes, and only then. Equal content means equal pixels. A
/// number takes 32 bits, so that none is that of a bar never drawn.
#[verifier::spinoff_prover]
pub proof fn law_bar_number_tells_all(
    a: display::DisplayView,
    a_ms: u32,
    a_hm: Option<(u32, u32)>,
    b: display::DisplayView,
    b_ms: u32,
    b_hm: Option<(u32, u32)>,
)
    requires
        display::wf_view(a),
        display::wf_view(b),
        ntp::is_time(a_hm),
        ntp::is_time(b_hm),
    ensures
        bar_number(a, a_ms, a_hm) == bar_number(b, b_ms, b_hm) <==> same_bar(
            a,
            a_ms,
            a_hm,
            b,
            b_ms,
            b_hm,
        ),
        same_bar(a, a_ms, a_hm, b, b_ms, b_hm) ==> bar_band(a, a_ms, a_hm) == bar_band(
            b,
            b_ms,
            b_hm,
        ),
        0 <= bar_number(a, a_ms, a_hm) < 0x100000000,
        bar_number(a, a_ms, a_hm) != NO_KEY,
{
    lemma_bar_range(a, a_ms, a_hm);
    if bar_number(a, a_ms, a_hm) == bar_number(b, b_ms, b_hm) {
        lemma_equal_numbers(a, a_ms, a_hm, b, b_ms, b_hm);
    }
    if same_bar(a, a_ms, a_hm, b, b_ms, b_hm) {
        lemma_same_number(a, a_ms, a_hm, b, b_ms, b_hm);
        lemma_same_pixels(a, a_ms, a_hm, b, b_ms, b_hm);
    }
}

/// A bar number takes 32 bits.
proof fn lemma_bar_range(d: display::DisplayView, now_ms: u32, hm: Option<(u32, u32)>)
    requires
        display::wf_view(d),
        ntp::is_time(hm),
    ensures
        0 <= bar_number(d, now_ms, hm) < 0x100000000,
{
    lemma_bar_parts(d, now_ms, hm);
}

/// Equal numbers mean equal content.
#[verifier::spinoff_prover]
proof fn lemma_equal_numbers(
    a: display::DisplayView,
    a_ms: u32,
    a_hm: Option<(u32, u32)>,
    b: display::DisplayView,
    b_ms: u32,
    b_hm: Option<(u32, u32)>,
)
    requires
        display::wf_view(a),
        display::wf_view(b),
        ntp::is_time(a_hm),
        ntp::is_time(b_hm),
        bar_number(a, a_ms, a_hm) == bar_number(b, b_ms, b_hm),
    ensures
        same_bar(a, a_ms, a_hm, b, b_ms, b_hm),
{
    let (fa, ra) = bar_parts(a, a_ms, a_hm);
    let (fb, rb) = bar_parts(b, b_ms, b_hm);
    assert(fa == fb && ra == rb) by {
        lemma_bar_parts(a, a_ms, a_hm);
        lemma_bar_parts(b, b_ms, b_hm);
    }
    lemma_front_parts(a, volume_shown(a, a_ms), b, volume_shown(b, b_ms));
    if !volume_shown(a, a_ms) {
        lemma_rest_parts(a, a_hm, b, b_hm);
    }
}

/// Equal content means equal numbers.
proof fn lemma_same_number(
    a: display::DisplayView,
    a_ms: u32,
    a_hm: Option<(u32, u32)>,
    b: display::DisplayView,
    b_ms: u32,
    b_hm: Option<(u32, u32)>,
)
    requires
        same_bar(a, a_ms, a_hm, b, b_ms, b_hm),
    ensures
        bar_number(a, a_ms, a_hm) == bar_number(b, b_ms, b_hm),
{
}

/// Equal content means equal pixels.
proof fn lemma_same_pixels(
    a: display::DisplayView,
    a_ms: u32,
    a_hm: Option<(u32, u32)>,
    b: display::DisplayView,
    b_ms: u32,
    b_hm: Option<(u32, u32)>,
)
    requires
        same_bar(a, a_ms, a_hm, b, b_ms, b_hm),
    ensures
        bar_band(a, a_ms, a_hm) == bar_band(b, b_ms, b_hm),
{
}

/// The clock of the bar number.
spec fn clock_number(hm: Option<(u32, u32)>) -> int {
    match hm {
        Some((h, m)) => h * 60 + m,
        None => 2048,
    }
}

spec fn level_number(level: Option<u8>) -> int {
    match level {
        Some(l) => l as int,
        None => 127,
    }
}

/// The bar number in two parts: state and volume, and the rest.
spec fn bar_parts(d: display::DisplayView, now_ms: u32, hm: Option<(u32, u32)>) -> (int, int) {
    (
        front_number(d, volume_shown(d, now_ms)),
        if volume_shown(d, now_ms) {
            0
        } else {
            rest_number(d, hm)
        },
    )
}

/// State and volume of the bar number.
spec fn front_number(d: display::DisplayView, shown: bool) -> int {
    state_number(d.state) + (if shown {
        0x8int
    } else {
        0
    }) + d.volume * 0x10
}

/// Clock and battery of the bar number.
spec fn rest_number(d: display::DisplayView, hm: Option<(u32, u32)>) -> int {
    clock_number(hm) + 0x2000 * level_number(d.batt_level) + (if d.batt_charging {
        0x100000int
    } else {
        0
    })
}

#[verifier::spinoff_prover]
proof fn lemma_bar_parts(d: display::DisplayView, now_ms: u32, hm: Option<(u32, u32)>)
    requires
        display::wf_view(d),
        ntp::is_time(hm),
    ensures
        ({
            let (f, r) = bar_parts(d, now_ms, hm);
            &&& 0 <= f < 0x800
            &&& 0 <= r < 0x200000
            &&& bar_number(d, now_ms, hm) == f + 0x800 * r
        }),
{
}

#[verifier::spinoff_prover]
proof fn lemma_front_parts(
    a: display::DisplayView,
    a_shown: bool,
    b: display::DisplayView,
    b_shown: bool,
)
    requires
        front_number(a, a_shown) == front_number(b, b_shown),
    ensures
        a.state == b.state,
        a.volume == b.volume,
        a_shown == b_shown,
{
    let x = front_number(a, a_shown) - a.volume * 0x10;
    let y = front_number(b, b_shown) - b.volume * 0x10;
    assert(0 <= x < 0x10 && 0 <= y < 0x10);
    assert(a.volume == b.volume);
    assert(x == y);
    assert(0 <= state_number(a.state) < 4 && 0 <= state_number(b.state) < 4);
}

#[verifier::spinoff_prover]
proof fn lemma_rest_parts(
    a: display::DisplayView,
    a_hm: Option<(u32, u32)>,
    b: display::DisplayView,
    b_hm: Option<(u32, u32)>,
)
    requires
        display::wf_view(a),
        display::wf_view(b),
        ntp::is_time(a_hm),
        ntp::is_time(b_hm),
        rest_number(a, a_hm) == rest_number(b, b_hm),
    ensures
        a_hm == b_hm,
        a.batt_level == b.batt_level,
        a.batt_charging == b.batt_charging,
{
    let ca = clock_number(a_hm);
    let cb = clock_number(b_hm);
    assert(0 <= ca < 0x2000 && 0 <= cb < 0x2000);
    assert(ca == cb);
    assert(level_number(a.batt_level) == level_number(b.batt_level));
}

/// A change of volume is shown for a while and then no longer: up to the deadline, and not
/// from there on for as long as the millisecond counter can tell.
pub proof fn law_volume_shown_for_a_while(
    v: display::DisplayView,
    volume: i32,
    now_ms: u32,
    passed_ms: u32,
)
    requires
        display::with_volume(v, volume, now_ms) != v,
        now_ms.wrapping_add(display::VOLUME_SHOWN_MS) != 0,
        passed_ms < 0x80000000,
    ensures
        volume_shown(
            display::with_volume(v, volume, now_ms),
            now_ms.wrapping_add(passed_ms),
        ) == (passed_ms < display::VOLUME_SHOWN_MS),
{
}

/// Line `i` of what there is to show: the history line by line, and then the line being
/// typed, if one is.
pub open spec fn nth_line(d: display::DisplayView, i: int) -> display::LineView {
    if i < d.history.len() {
        d.history[i]
    } else {
        display::LineView { text: d.cur, color: d.color }
    }
}

/// How many lines there are to show.
pub open spec fn line_count(d: display::DisplayView) -> int {
    if d.cur.len() > 0 || d.rest.len() > 0 {
        d.history.len() + 1int
    } else {
        d.history.len() as int
    }
}

/// The screen shows the end of the text. With `n` lines the last of twelve rows, or row
/// `n - 1` where there are fewer, shows the last line: the one being typed, if there is one.
/// Each row above shows the line before that of the row below it, up to the top row or the
/// first line, and rows below the last line are empty.
pub proof fn law_last_lines_are_shown(d: display::DisplayView, row: int)
    requires
        0 <= row < 12,
    ensures
        ({
            let n = line_count(d);
            let bottom = if n < 12 {
                n - 1
            } else {
                11
            };
            &&& n > 0 && row <= bottom ==> {
                let line = nth_line(d, n - 1 - (bottom - row));
                desired(d, row) matches Some(s) && s.txt == line.text && s.col == line.color
            }
            &&& n > 0 && row > bottom ==> desired(d, row) is None
            &&& n > 0 ==> (desired(d, bottom) matches Some(s) && s.txt == nth_line(d, n - 1).text)
        }),
{
}

/// While the device listens a caret stands behind the last line that is shown, on no other,
/// and in the top row where there is no line; otherwise there is none.
pub proof fn law_caret_while_listening(d: display::DisplayView, row: int)
    requires
        0 <= row < 12,
    ensures
        ({
            let n = line_count(d);
            let bottom = if n < 12 {
                n - 1
            } else {
                11
            };
            let caret = desired(d, row) matches Some(s) && s.caret;
            &&& caret <==> d.state == DisplayState::Listening && (row == bottom || (n == 0 && row
                == 0))
            &&& n == 0 ==> (desired(d, row) is Some <==> caret)
            &&& n == 0 && caret ==> (desired(d, row) matches Some(s) && s.txt.len() == 0)
        }),
{
}

/// A row counts as up to date exactly where it shows the text, the colour and the caret that
/// it should, or nothing where it should show nothing.
pub proof fn law_clean_means_shown(drawn: SlotView, want: Option<SlotView>)
    ensures
        want matches Some(w) ==> (is_clean(drawn, want) <==> drawn.txt == w.txt && drawn.col == w.col
            && drawn.caret == w.caret),
        want is None ==> (is_clean(drawn, want) <==> drawn.txt.len() == 0 && !drawn.caret),
{
}

/// A row is painted as it should be, all of it or only where it has grown. Only a row without
/// a caret, whose old text is the beginning of the new one in the same colour, and whose new
/// text fits, is painted in part: from the end of the old text to the end of the new one.
pub proof fn law_paint_covers_the_change(
    drawn: SlotView,
    want: Option<SlotView>,
    old_w: int,
    new_w: int,
)
    ensures
        ({
            let p = row_plan(drawn, want, old_w, new_w);
            let whole = p.from == 0 && p.to == 240;
            &&& want matches Some(w) ==> p.row == w
            &&& want is None ==> p.row.txt.len() == 0 && !p.row.caret && whole
            &&& !whole ==> (want matches Some(w) && {
                &&& !w.caret && !drawn.caret && w.col == drawn.col
                &&& 0 < drawn.txt.len() <= w.txt.len()
                &&& drawn.txt == w.txt.take(drawn.txt.len() as int)
                &&& old_w < new_w <= 232
                &&& p.from == 4 + old_w && p.to == 4 + new_w
            })
            &&& want matches Some(w) ==> (!w.caret && !drawn.caret && w.col == drawn.col
                && drawn.txt.len() > 0 && drawn.txt.is_prefix_of(w.txt) && old_w < new_w <= 232
                ==> p.from == 4 + old_w && p.to == 4 + new_w)
        }),
{
    if let Some(w) = want {
        if drawn.txt.is_prefix_of(w.txt) {
            assert(drawn.txt =~= w.txt.take(drawn.txt.len() as int));
        }
    }
}

/// The rectangle of a row: eighteen pixels high, the rows one below the other from pixel row
/// 24 on without overlap, with all the columns asked for that lie on the screen.
pub proof fn law_row_rectangle(s: int, t: int, from: int, to: int, col: int)
    requires
        0 <= s < t < 12,
        from < 240,
    ensures
        ({
            let r = row_rect(s, from, to);
            &&& r.h == 18
            &&& r.y == 24 + 18 * s
            &&& r.y + r.h <= row_rect(t, from, to).y
            &&& 0 <= col < 240 && from <= col < to ==> r.x <= col < r.x + r.w
            &&& 0 <= from < to <= 240 ==> r.x == from && r.w == to - from
        }),
{
}

/// A pass paints the first row that is not up to date, among those it has not looked at, and
/// paints it as it should be.
pub proof fn law_first_stale_row(v: RenderView, d: display::DisplayView)
    requires
        wf_render(v),
        v.sent < 2,
    ensures
        next_row(v, d).1 is Push ==> {
            &&& next_row(v, d).0.pending matches PendingView::Row(s, row) && {
                &&& v.next <= s < 12
                &&& !is_clean(v.drawn[s], desired(d, s))
                &&& forall|k: int| v.next <= k < s ==> is_clean(#[trigger] v.drawn[k], desired(d, k))
                &&& desired(d, s) matches Some(w) ==> row == w
                &&& next_row(v, d).1->Push_0.y == 24 + 18 * s
            }
        },
        (exists|s: int|
            v.next <= s < 12 && !is_clean(#[trigger] v.drawn[s], desired(d, s))) ==> next_row(
            v,
            d,
        ).1 is Push,
{
    lemma_dirty_row(v.drawn, d, v.next);
}

/// The start of a pass, once the start-up pattern is gone: the status bar comes first, where
/// what it shows is not what it should show; a stale row comes next.
pub proof fn law_bar_comes_first(
    v: RenderView,
    d: display::DisplayView,
    now_ms: u32,
    hm: Option<(u32, u32)>,
)
    requires
        wf_render(v),
        v.taken,
        v.start_ms != 0,
        now_ms.wrapping_sub(v.start_ms) >= 800,
        display::wf_view(d),
        ntp::is_time(hm),
    ensures
        v.bar_key != bar_number(d, now_ms, hm) ==> {
            let (w, p) = pass_start(v, d, true, now_ms, hm);
            &&& p == Paint::Push(Rect { x: 0, y: 0, w: 240, h: 22 })
            &&& w.pending matches PendingView::Bar(k) && k == bar_number(d, now_ms, hm)
            &&& committed(w, true).bar_key == bar_number(d, now_ms, hm)
            &&& committed(w, true).drawn == v.drawn
        },
        v.bar_key == bar_number(d, now_ms, hm) ==> pass_start(v, d, true, now_ms, hm).1
            == next_row(RenderView { sent: 0, next: 0, ..v }, d).1,
{
    lemma_bar_range(d, now_ms, hm);
}

/// Clearing the start-up pattern covers the whole screen: each strip is as wide as the
/// screen, black, and begins where the one before it ended.
pub proof fn law_clearing_covers_screen(
    v: RenderView,
    d: display::DisplayView,
    now_ms: u32,
    hm: Option<(u32, u32)>,
    ok: bool,
)
    requires
        wf_render(v),
        !v.taken,
        v.start_ms != 0,
        now_ms.wrapping_sub(v.start_ms) >= 800,
    ensures
        ({
            let (w, p) = pass_start(v, d, true, now_ms, hm);
            let c = committed(w, ok);
            &&& p matches Paint::Push(r) && {
                &&& r.x == 0 && r.w == 240 && r.y == v.clear_row
                &&& r.h > 0 && r.y + r.h == c.clear_row
                &&& c.clear_row <= 240
                &&& r.h == 18 || c.clear_row == 240
                &&& band_for(w.pending, r, d, now_ms, hm) == raster::plain_band(
                    (r.w * r.h * 2) as nat,
                    0,
                )
            }
            &&& c.taken <==> c.clear_row == 240
            &&& c.taken ==> forall|k: int|
                0 <= k < 12 ==> (#[trigger] c.drawn[k]).txt.len() == 0 && !c.drawn[k].caret
        }),
{
}

/// A pixel of a row, wherever it is painted: in the colour of its text where the text has a
/// pixel, four columns in and two rows down; otherwise the caret's where a caret has one,
/// behind the text; otherwise black.
pub proof fn law_row_pixels(row: SlotView, p: int, q: int)
    requires
        0 <= p < 240,
        0 <= q < 18,
    ensures
        ({
            let c = raster::pixel(row_band(row, 0, 240), 240, p, q);
            let lit = row.txt.len() > 0 && raster::moved(font::text_pixels(raster::drawn_part(row.txt), 232), 4).contains(
                (p, q),
            );
            let mark = raster::moved(
                font::text_pixels(raster::drawn_part("_"@), 232),
                font::width(row.txt) + 4,
            ).contains((p, q));
            &&& row.caret && mark ==> c == CARET_COLOR
            &&& !(row.caret && mark) && lit ==> c == row.col
            &&& !(row.caret && mark) && !lit ==> c == 0
        }),
{
    reveal_strlit("_");
    let f = raster::plain_band((240 * LINE_H * 2) as nat, BLACK);
    assert(f.len() == 8640);
    assert(raster::rows(8640, 240) == LINE_H) by {
        assert(8640int / 480int == 18);
    }
    raster::lemma_plain_band(f.len(), 240, BLACK, p, q);
    let text = raster::moved(font::text_pixels(raster::drawn_part(row.txt), SUB_W), TEXT_X as int);
    raster::lemma_points(f, 240, text, row.col, p, q);
    let lf = raster::with_text(f, 240, row.txt, row.col, TEXT_X as int);
    lemma_text_len(f, 240, row.txt, row.col, TEXT_X as int);
    let mark = raster::moved(
        font::text_pixels(raster::drawn_part("_"@), SUB_W),
        font::width(row.txt) + TEXT_X,
    );
    raster::lemma_points(lf, 240, mark, CARET_COLOR, p, q);
}

/// Different volumes, and different battery levels, show as different texts; a level that is
/// not known shows as none that is.
pub proof fn law_numbers_show_apart(a: nat, b: nat, la: u8, lb: u8)
    ensures
        a != b ==> volume_text(a as int) != volume_text(b as int),
        la != lb ==> level_text(Some(la)) != level_text(Some(lb)),
        level_text(None) != level_text(Some(la)),
{
    reveal_strlit("VOL ");
    reveal_strlit("%");
    reveal_strlit("--%");
    lemma_decimal_apart(a, b);
    lemma_decimal_apart(la as nat, lb as nat);
    crate::json_laws::lemma_decimal_reads_back(la as nat);
    if a != b && volume_text(a as int) == volume_text(b as int) {
        let x = volume_text(a as int);
        assert(x.subrange(4, x.len() - 1) =~= text::decimal(a));
        assert(x.subrange(4, x.len() - 1) =~= text::decimal(b));
    }
    if la != lb && level_text(Some(la)) == level_text(Some(lb)) {
        let x = level_text(Some(la));
        assert(x.subrange(0, x.len() - 1) =~= text::decimal(la as nat));
        assert(x.subrange(0, x.len() - 1) =~= text::decimal(lb as nat));
    }
    assert(level_text(None)[0] == '-');
    let d = text::decimal(la as nat);
    text::lemma_encode_ascii(d);
    assert(crate::json::is_digit(vstd::utf8::encode_utf8(d)[0]));
    assert(level_text(Some(la))[0] == d[0]);
    assert(d[0] != '-');
}

proof fn lemma_decimal_apart(a: nat, b: nat)
    ensures
        a != b ==> text::decimal(a) != text::decimal(b),
{
    crate::json_laws::lemma_decimal_reads_back(a);
    crate::json_laws::lemma_decimal_reads_back(b);
}

/// A panel that does not work is asked to recover where two seconds have passed since it last
/// was, and nothing is painted meanwhile; what the screen is known to show stays known.
pub proof fn law_recovery_pace(
    v: RenderView,
    d: display::DisplayView,
    now_ms: u32,
    hm: Option<(u32, u32)>,
)
    ensures
        ({
            let (w, p) = pass_start(v, d, false, now_ms, hm);
            let due = now_ms.wrapping_sub(v.recover_at) >= 2000;
            &&& due ==> p == Paint::Recover && w.recover_at == now_ms
            &&& !due ==> p == Paint::Done && w.recover_at == v.recover_at
            &&& w.drawn == v.drawn && w.bar_key == v.bar_key && w.taken == v.taken && w.clear_row
                == v.clear_row && w.start_ms == v.start_ms
        }),
{
}

/// After two rectangles of a pass no third is asked for, whether rows or the bar; after a
/// failure none is.
pub proof fn law_pass_is_short(v: RenderView, d: display::DisplayView, ok: bool)
    requires
        wf_render(v),
    ensures
        v.pending is Row && v.sent >= 1 ==> pass_next(v, d, ok).1 is Done,
        !ok ==> pass_next(v, d, ok).1 is Done,
        v.pending is Nothing || v.pending is Clear ==> pass_next(v, d, ok).1 is Done,
{
}

/// Where a text has its pixels in a band.
pub open spec fn text_at(t: Seq<char>, shift: int, p: int, q: int) -> bool {
    raster::moved(font::text_pixels(raster::drawn_part(t), 232), shift).contains((p, q))
}

/// Whether a point belongs to the three bars of the signal symbol.
pub open spec fn in_signal(p: int, q: int) -> bool {
    (190 <= p < 193 && 10 <= q < 15) || (195 <= p < 198 && 7 <= q < 15) || (200 <= p < 203 && 4 <= q
        < 15)
}

proof fn lemma_bar_text(b: Seq<u8>, t: Seq<char>, c: u16, shift: int, p: int, q: int)
    requires
        b.len() == 10560,
        0 <= p < 240,
        0 <= q < 22,
        t.len() > 0,
    ensures
        raster::with_text(b, 240, t, c, shift).len() == 10560,
        raster::pixel(raster::with_text(b, 240, t, c, shift), 240, p, q) == (if text_at(
            t,
            shift,
            p,
            q,
        ) {
            c
        } else {
            raster::pixel(b, 240, p, q)
        }),
{
    assert(raster::rows(10560, 240) == 22) by {
        assert(10560int / 480int == 22);
    }
    raster::lemma_points(
        b,
        240,
        raster::moved(font::text_pixels(raster::drawn_part(t), SUB_W), shift),
        c,
        p,
        q,
    );
}

proof fn lemma_bar_signal(b: Seq<u8>, c: u16, p: int, q: int)
    requires
        b.len() == 10560,
        0 <= p < 240,
        0 <= q < 22,
    ensures
        with_signal(b, c).len() == 10560,
        raster::pixel(with_signal(b, c), 240, p, q) == (if in_signal(p, q) {
            c
        } else {
            raster::pixel(b, 240, p, q)
        }),
{
    assert(raster::rows(10560, 240) == 22) by {
        assert(10560int / 480int == 22);
    }
    let one = raster::with_points(b, 240, raster::rect_points(190, 10, 3, 5), c);
    let two = raster::with_points(one, 240, raster::rect_points(195, 7, 3, 8), c);
    raster::lemma_points(b, 240, raster::rect_points(190, 10, 3, 5), c, p, q);
    raster::lemma_points(one, 240, raster::rect_points(195, 7, 3, 8), c, p, q);
    raster::lemma_points(two, 240, raster::rect_points(200, 4, 3, 11), c, p, q);
    raster::law_rectangle(190, 10, 3, 5, p, q);
    raster::law_rectangle(195, 7, 3, 8, p, q);
    raster::law_rectangle(200, 4, 3, 11, p, q);
}

/// Whether a point belongs to the flash of the charging symbol.
pub open spec fn in_flash(x: int, p: int, q: int) -> bool {
    raster::line_points(x + 2, 3, x, 8).contains((p, q)) || raster::line_points(
        x,
        8,
        x + 3,
        8,
    ).contains((p, q)) || raster::line_points(x + 3, 8, x + 1, 13).contains((p, q))
}

proof fn lemma_bar_flash(b: Seq<u8>, x: int, p: int, q: int)
    requires
        b.len() == 10560,
        0 <= p < 240,
        0 <= q < 22,
    ensures
        with_flash(b, x).len() == 10560,
        raster::pixel(with_flash(b, x), 240, p, q) == (if in_flash(x, p, q) {
            0xffe0u16
        } else {
            raster::pixel(b, 240, p, q)
        }),
{
    assert(raster::rows(10560, 240) == 22) by {
        assert(10560int / 480int == 22);
    }
    let a = raster::line_points(x + 2, 3, x, 8);
    let c = raster::line_points(x, 8, x + 3, 8);
    let d = raster::line_points(x + 3, 8, x + 1, 13);
    let one = raster::with_points(b, 240, a, 0xffe0);
    let two = raster::with_points(one, 240, c, 0xffe0);
    raster::lemma_points(b, 240, a, 0xffe0, p, q);
    raster::lemma_points(one, 240, c, 0xffe0, p, q);
    raster::lemma_points(two, 240, d, 0xffe0, p, q);
}

/// What the status bar shows while the volume does not stand in it, from the front to the
/// back: the flash of a battery that charges, the level of the battery at the right edge, the
/// signal symbol, grey where the channel is down, the time of day, the word for the state in
/// its colour, and the background.
pub proof fn law_bar_pixels(
    d: display::DisplayView,
    now_ms: u32,
    hm: Option<(u32, u32)>,
    p: int,
    q: int,
)
    requires
        0 <= p < 240,
        0 <= q < 22,
        !volume_shown(d, now_ms),
    ensures
        ({
            let c = raster::pixel(bar_band(d, now_ms, hm), 240, p, q);
            let x = 237 - font::width(level_text(d.batt_level));
            let flash = d.batt_charging && in_flash(x - 8, p, q);
            let level = text_at(level_text(d.batt_level), x, p, q);
            let time = text_at(ntp::time_text(hm), 150, p, q);
            let word = text_at(display::state_word(d.state), 6, p, q);
            &&& flash ==> c == 0xffe0
            &&& !flash && level ==> c == 0xffff
            &&& !flash && !level && in_signal(p, q) ==> c == (if d.state == DisplayState::Offline {
                0x630cu16
            } else {
                0x07ffu16
            })
            &&& !flash && !level && !in_signal(p, q) && time ==> c == 0xffff
            &&& !flash && !level && !in_signal(p, q) && !time && word ==> c == display::state_color(
                d.state,
            )
            &&& !flash && !level && !in_signal(p, q) && !time && !word ==> c == 0x1202
        }),
{
    lemma_bar_base(d, p, q);
    let named = raster::with_text(
        raster::plain_band(BAND_LEN as nat, BAR_BG),
        240,
        display::state_word(d.state),
        display::state_color(d.state),
        6,
    );
    lemma_time_text_len(hm);
    lemma_level_text_some(d.batt_level);
    lemma_bar_text(named, ntp::time_text(hm), 0xffff, 150, p, q);
    let timed = raster::with_text(named, 240, ntp::time_text(hm), 0xffff, 150);
    let sc: u16 = if d.state != DisplayState::Offline {
        0x07ff
    } else {
        0x630c
    };
    lemma_bar_signal(timed, sc, p, q);
    let signal = with_signal(timed, sc);
    let level = level_text(d.batt_level);
    let x = 237 - font::width(level);
    lemma_bar_text(signal, level, 0xffff, x, p, q);
    let powered = raster::with_text(signal, 240, level, 0xffff, x);
    lemma_bar_flash(powered, x - 8, p, q);
}

/// While the volume stands in the bar: the volume, the word for the state in its colour, and
/// the background.
pub proof fn law_bar_pixels_with_volume(
    d: display::DisplayView,
    now_ms: u32,
    hm: Option<(u32, u32)>,
    p: int,
    q: int,
)
    requires
        0 <= p < 240,
        0 <= q < 22,
        volume_shown(d, now_ms),
    ensures
        ({
            let c = raster::pixel(bar_band(d, now_ms, hm), 240, p, q);
            let volume = text_at(volume_text(d.volume as int), 176, p, q);
            let word = text_at(display::state_word(d.state), 6, p, q);
            &&& volume ==> c == 0x07ff
            &&& !volume && word ==> c == display::state_color(d.state)
            &&& !volume && !word ==> c == 0x1202
        }),
{
    lemma_bar_base(d, p, q);
    let named = raster::with_text(
        raster::plain_band(BAND_LEN as nat, BAR_BG),
        240,
        display::state_word(d.state),
        display::state_color(d.state),
        6,
    );
    reveal_strlit("VOL ");
    lemma_bar_text(named, volume_text(d.volume as int), 0x07ff, 176, p, q);
}

proof fn lemma_bar_base(d: display::DisplayView, p: int, q: int)
    requires
        0 <= p < 240,
        0 <= q < 22,
    ensures
        ({
            let named = raster::with_text(
                raster::plain_band(BAND_LEN as nat, BAR_BG),
                240,
                display::state_word(d.state),
                display::state_color(d.state),
                6,
            );
            &&& named.len() == 10560
            &&& raster::pixel(named, 240, p, q) == (if text_at(
                display::state_word(d.state),
                6,
                p,
                q,
            ) {
                display::state_color(d.state)
            } else {
                0x1202u16
            })
        }),
{
    reveal_strlit("IDLE");
    reveal_strlit("LISTEN");
    reveal_strlit("PLAY");
    reveal_strlit("OFFLINE");
    assert(raster::rows(10560, 240) == 22) by {
        assert(10560int / 480int == 22);
    }
    let base = raster::plain_band(BAND_LEN as nat, BAR_BG);
    raster::lemma_plain_band(10560, 240, BAR_BG, p, q);
    lemma_bar_text(base, display::state_word(d.state), display::state_color(d.state), 6, p, q);
}

proof fn lemma_time_text_len(hm: Option<(u32, u32)>)
    ensures
        ntp::time_text(hm).len() == 5,
{
    reveal_strlit("--:--");
}

proof fn lemma_level_text_some(level: Option<u8>)
    ensures
        level_text(level).len() > 0,
{
    reveal_strlit("%");
    reveal_strlit("--%");
}

/// A text of half a million characters or less is drawn whole.
pub proof fn law_text_is_drawn_whole(t: Seq<char>)
    ensures
        t.len() <= 500000 ==> raster::drawn_part(t) == t,
{
}

} // verus!
