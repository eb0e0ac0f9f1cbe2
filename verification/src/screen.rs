//! The ST7789 panel: which bytes go over SPI, and how the select and data/command lines
//! stand while they do.
//!
//! Nothing here touches hardware. A transaction comes out as a list of operations, to be
//! carried out in order. Two things about them matter, because getting them wrong leaves
//! a panel that takes every command and shows nothing: the command that opens the pixel
//! stream goes out as a command, and the panel stays selected for all of a transaction.
use vstd::prelude::*;
use crate::render;
use crate::render::SCREEN_W;

verus! {

pub const CMD_SWRESET: u8 = 0x01;

pub const CMD_SLPOUT: u8 = 0x11;

pub const CMD_NORON: u8 = 0x13;

pub const CMD_INVON: u8 = 0x21;

pub const CMD_DISPON: u8 = 0x29;

pub const CMD_CASET: u8 = 0x2a;

pub const CMD_RASET: u8 = 0x2b;

pub const CMD_RAMWR: u8 = 0x2c;

pub const CMD_MADCTL: u8 = 0x36;

pub const CMD_IDMOFF: u8 = 0x38;

pub const CMD_COLMOD: u8 = 0x3a;

/// Write errors that are logged one by one.
pub const ERRORS_LOGGED: u32 = 3;

/// One operation on the panel's lines.
#[derive(Debug, Clone)]
pub enum SpiOp {
    /// Select the panel.
    CsLow,
    /// Deselect the panel.
    CsHigh,
    /// The next bytes are a command.
    DcLow,
    /// The next bytes are data.
    DcHigh,
    /// Write these bytes.
    Write(Vec<u8>),
    /// Write the pixels that the transaction is for.
    Pixels,
    /// Write these bytes so many times.
    Rows(Vec<u8>, u16),
}

/// An operation, its bytes as a sequence.
pub enum OpView {
    CsLow,
    CsHigh,
    DcLow,
    DcHigh,
    Write(Seq<u8>),
    Pixels,
    Rows(Seq<u8>, u16),
}

impl View for SpiOp {
    type V = OpView;

    open spec fn view(&self) -> OpView {
        match self {
            SpiOp::CsLow => OpView::CsLow,
            SpiOp::CsHigh => OpView::CsHigh,
            SpiOp::DcLow => OpView::DcLow,
            SpiOp::DcHigh => OpView::DcHigh,
            SpiOp::Write(b) => OpView::Write(b@),
            SpiOp::Pixels => OpView::Pixels,
            SpiOp::Rows(b, n) => OpView::Rows(b@, *n),
        }
    }
}

pub open spec fn op_views(ops: Seq<SpiOp>) -> Seq<OpView> {
    ops.map_values(|o: SpiOp| o@)
}

/// A command with its arguments.
pub open spec fn cmd_ops(c: u8, args: Seq<u8>) -> Seq<OpView> {
    if args.len() == 0 {
        seq![OpView::DcLow, OpView::Write(seq![c])]
    } else {
        seq![OpView::DcLow, OpView::Write(seq![c]), OpView::DcHigh, OpView::Write(args)]
    }
}

/// The two bytes of a coordinate, high byte first.
pub open spec fn coordinate(v: int) -> Seq<u8> {
    seq![(v / 256) as u8, (v % 256) as u8]
}

/// The commands that open a window for pixels.
pub open spec fn window_ops(x: u16, y: u16, w: u16, h: u16) -> Seq<OpView> {
    cmd_ops(CMD_CASET, coordinate(x as int) + coordinate(x + w - 1)) + cmd_ops(
        CMD_RASET,
        coordinate(y as int) + coordinate(y + h - 1),
    ) + cmd_ops(CMD_RAMWR, Seq::empty()) + seq![OpView::DcHigh]
}

fn push_cmd(ops: &mut Vec<SpiOp>, c: u8, args: &[u8])
    ensures
        op_views(final(ops)@) == op_views(old(ops)@) + cmd_ops(c, args@),
{
    let mut one: Vec<u8> = Vec::new();
    one.push(c);
    assert(one@ =~= seq![c]);
    ops.push(SpiOp::DcLow);
    ops.push(SpiOp::Write(one));
    if args.len() > 0 {
        ops.push(SpiOp::DcHigh);
        let a = bytes_of(args);
        ops.push(SpiOp::Write(a));
    }
    assert(op_views(ops@) =~= op_views(old(ops)@) + cmd_ops(c, args@));
}

fn bytes_of(b: &[u8]) -> (v: Vec<u8>)
    ensures
        v@ == b@,
{
    let mut v: Vec<u8> = Vec::new();
    let mut i: usize = 0;
    while i < b.len()
        invariant
            i <= b@.len(),
            v@ == b@.take(i as int),
        decreases b@.len() - i,
    {
        v.push(b[i]);
        assert(b@.take(i + 1) =~= b@.take(i as int).push(b@[i as int]));
        i = i + 1;
    }
    assert(b@.take(i as int) =~= b@);
    v
}

fn push_window(ops: &mut Vec<SpiOp>, x: u16, y: u16, w: u16, h: u16)
    requires
        1 <= x + w <= 0xffff,
        1 <= y + h <= 0xffff,
    ensures
        op_views(final(ops)@) == op_views(old(ops)@) + window_ops(x, y, w, h),
{
    let x1 = x + w - 1;
    let y1 = y + h - 1;
    let cols: [u8; 4] = [(x / 256) as u8, (x % 256) as u8, (x1 / 256) as u8, (x1 % 256) as u8];
    let rows: [u8; 4] = [(y / 256) as u8, (y % 256) as u8, (y1 / 256) as u8, (y1 % 256) as u8];
    let none: [u8; 0] = [];
    assert(cols@ =~= coordinate(x as int) + coordinate(x + w - 1));
    assert(rows@ =~= coordinate(y as int) + coordinate(y + h - 1));
    assert(none@ =~= Seq::<u8>::empty());
    push_cmd(ops, CMD_CASET, &cols);
    push_cmd(ops, CMD_RASET, &rows);
    push_cmd(ops, CMD_RAMWR, &none);
    let ghost before = ops@;
    ops.push(SpiOp::DcHigh);
    assert(op_views(ops@) =~= op_views(before).push(OpView::DcHigh));
    assert(op_views(ops@) =~= op_views(old(ops)@) + window_ops(x, y, w, h));
}

/// A step of the panel's initialisation.
#[derive(Debug, Clone)]
pub enum InitStep {
    /// Send a command by itself.
    Command(u8, Vec<u8>),
    /// Wait for so many milliseconds.
    DelayMs(u32),
}

/// A step of the initialisation, its arguments as a sequence.
pub enum InitView {
    Command(u8, Seq<u8>),
    DelayMs(u32),
}

impl View for InitStep {
    type V = InitView;

    open spec fn view(&self) -> InitView {
        match self {
            InitStep::Command(c, a) => InitView::Command(*c, a@),
            InitStep::DelayMs(ms) => InitView::DelayMs(*ms),
        }
    }
}

pub open spec fn init_views(steps: Seq<InitStep>) -> Seq<InitView> {
    steps.map_values(|s: InitStep| s@)
}

/// The initialisation of the panel: reset and wake-up, each with its pause; voltages and
/// gamma curves; full colours, 16 bits a pixel, blue before red; inverted, normal, on.
pub open spec fn init_sequence() -> Seq<InitView> {
    seq![
        InitView::Command(CMD_SWRESET, Seq::empty()),
        InitView::DelayMs(120),
        InitView::Command(CMD_SLPOUT, Seq::empty()),
        InitView::DelayMs(120),
        InitView::Command(0xb7, seq![0x35u8]),
        InitView::Command(0xbb, seq![0x28u8]),
        InitView::Command(0xc0, seq![0x0cu8]),
        InitView::Command(0xc2, seq![0x01u8, 0xffu8]),
        InitView::Command(0xc3, seq![0x10u8]),
        InitView::Command(0xc4, seq![0x20u8]),
        InitView::Command(0xd0, seq![0xa4u8, 0xa1u8]),
        InitView::Command(0xb0, seq![0x00u8, 0xc0u8]),
        InitView::Command(
            0xe0,
            seq![
                0xd0u8,
                0x00u8,
                0x02u8,
                0x07u8,
                0x0au8,
                0x28u8,
                0x32u8,
                0x44u8,
                0x42u8,
                0x06u8,
                0x0eu8,
                0x12u8,
                0x14u8,
                0x17u8,
            ],
        ),
        InitView::Command(
            0xe1,
            seq![
                0xd0u8,
                0x00u8,
                0x02u8,
                0x07u8,
                0x0au8,
                0x28u8,
                0x31u8,
                0x54u8,
                0x47u8,
                0x0eu8,
                0x1cu8,
                0x17u8,
                0x1bu8,
                0x1eu8,
            ],
        ),
        InitView::Command(CMD_IDMOFF, Seq::empty()),
        InitView::Command(CMD_COLMOD, seq![0x55u8]),
        InitView::Command(CMD_MADCTL, seq![0x08u8]),
        InitView::Command(CMD_INVON, Seq::empty()),
        InitView::Command(CMD_NORON, Seq::empty()),
        InitView::Command(CMD_DISPON, Seq::empty()),
    ]
}

fn push_step(steps: &mut Vec<InitStep>, c: u8, args: &[u8])
    ensures
        init_views(final(steps)@) == init_views(old(steps)@).push(InitView::Command(c, args@)),
{
    let a = bytes_of(args);
    steps.push(InitStep::Command(c, a));
    assert(init_views(steps@) =~= init_views(old(steps)@).push(InitView::Command(c, args@)));
}

fn push_delay(steps: &mut Vec<InitStep>, ms: u32)
    ensures
        init_views(final(steps)@) == init_views(old(steps)@).push(InitView::DelayMs(ms)),
{
    steps.push(InitStep::DelayMs(ms));
    assert(init_views(steps@) =~= init_views(old(steps)@).push(InitView::DelayMs(ms)));
}

/// The initialisation of the panel. Every command is a transaction by itself, see
/// [`Screen::cmd_alone`].
pub fn init_panel() -> (steps: Vec<InitStep>)
    ensures
        init_views(steps@) == init_sequence(),
{
    let mut s: Vec<InitStep> = Vec::new();
    let none: [u8; 0] = [];
    let gctrl: [u8; 1] = [0x35];
    let vcoms: [u8; 1] = [0x28];
    let lcmctrl: [u8; 1] = [0x0c];
    let vdvvrhen: [u8; 2] = [0x01, 0xff];
    let vrhs: [u8; 1] = [0x10];
    let vdvset: [u8; 1] = [0x20];
    let pwctrl: [u8; 2] = [0xa4, 0xa1];
    let ramctrl: [u8; 2] = [0x00, 0xc0];
    let pvgam: [u8; 14] = [
        0xd0,
        0x00,
        0x02,
        0x07,
        0x0a,
        0x28,
        0x32,
        0x44,
        0x42,
        0x06,
        0x0e,
        0x12,
        0x14,
        0x17,
    ];
    let nvgam: [u8; 14] = [
        0xd0,
        0x00,
        0x02,
        0x07,
        0x0a,
        0x28,
        0x31,
        0x54,
        0x47,
        0x0e,
        0x1c,
        0x17,
        0x1b,
        0x1e,
    ];
    let colmod: [u8; 1] = [0x55];
    let madctl: [u8; 1] = [0x08];
    push_step(&mut s, CMD_SWRESET, &none);
    push_delay(&mut s, 120);
    push_step(&mut s, CMD_SLPOUT, &none);
    push_delay(&mut s, 120);
    push_step(&mut s, 0xb7, &gctrl);
    push_step(&mut s, 0xbb, &vcoms);
    push_step(&mut s, 0xc0, &lcmctrl);
    push_step(&mut s, 0xc2, &vdvvrhen);
    push_step(&mut s, 0xc3, &vrhs);
    push_step(&mut s, 0xc4, &vdvset);
    push_step(&mut s, 0xd0, &pwctrl);
    push_step(&mut s, 0xb0, &ramctrl);
    push_step(&mut s, 0xe0, &pvgam);
    push_step(&mut s, 0xe1, &nvgam);
    push_step(&mut s, CMD_IDMOFF, &none);
    push_step(&mut s, CMD_COLMOD, &colmod);
    push_step(&mut s, CMD_MADCTL, &madctl);
    push_step(&mut s, CMD_INVON, &none);
    push_step(&mut s, CMD_NORON, &none);
    push_step(&mut s, CMD_DISPON, &none);
    proof {
        let want = init_sequence();
        assert(none@ =~= Seq::<u8>::empty());
        assert(gctrl@ =~= seq![0x35u8]);
        assert(vcoms@ =~= seq![0x28u8]);
        assert(lcmctrl@ =~= seq![0x0cu8]);
        assert(vdvvrhen@ =~= seq![0x01u8, 0xffu8]);
        assert(vrhs@ =~= seq![0x10u8]);
        assert(vdvset@ =~= seq![0x20u8]);
        assert(pwctrl@ =~= seq![0xa4u8, 0xa1u8]);
        assert(ramctrl@ =~= seq![0x00u8, 0xc0u8]);
        assert(pvgam@ =~= want[12]->Command_1);
        assert(nvgam@ =~= want[13]->Command_1);
        assert(colmod@ =~= seq![0x55u8]);
        assert(madctl@ =~= seq![0x08u8]);
        assert(init_views(s@) =~= want);
    }
    s
}

/// What is logged about a write error.
#[derive(Debug, Clone, Copy, PartialEq, Eq, Structural)]
pub enum ErrorLog {
    /// Nothing.
    Quiet,
    /// The error.
    Line,
    /// The error, and that no more of them will be logged.
    LastLine,
}

/// The panel's driver.
#[derive(Debug, Clone, Copy, PartialEq, Eq, Structural)]
pub struct Screen {
    /// No write has failed since the last initialisation.
    pub ok: bool,
    /// Errors logged since then.
    pub err_printed: u32,
}

/// A rectangle in one colour.
#[derive(Debug, Clone, Copy, PartialEq, Eq, Structural)]
pub struct Area {
    pub x: u16,
    pub y: u16,
    pub w: u16,
    pub h: u16,
    pub color: u16,
}

/// One row of a rectangle in one colour.
pub open spec fn color_row(w: u16, color: u16) -> Seq<u8> {
    crate::raster::plain_band((w * 2) as nat, color)
}

impl Screen {
    /// A driver for a panel behind an SPI port; `None` where the port could not be set up.
    pub fn new(spi_ready: bool) -> (s: Option<Self>)
        ensures
            s == (if spi_ready {
                Some(Screen { ok: true, err_printed: 0 })
            } else {
                None
            }),
    {
        if spi_ready {
            Some(Screen { ok: true, err_printed: 0 })
        } else {
            None
        }
    }

    pub fn is_ready(&self) -> (r: bool)
        ensures
            r == self.ok,
    {
        self.ok
    }

    /// A write has failed: the panel counts as gone until it is initialised again. Only the
    /// first few errors are logged.
    pub fn write_failed(&mut self) -> (log: ErrorLog)
        ensures
            !final(self).ok,
            final(self).err_printed == (if old(self).err_printed < ERRORS_LOGGED {
                (old(self).err_printed + 1) as u32
            } else {
                old(self).err_printed
            }),
            log == (if old(self).err_printed >= ERRORS_LOGGED {
                ErrorLog::Quiet
            } else if old(self).err_printed + 1 == ERRORS_LOGGED {
                ErrorLog::LastLine
            } else {
                ErrorLog::Line
            }),
    {
        self.ok = false;
        if self.err_printed >= ERRORS_LOGGED {
            return ErrorLog::Quiet;
        }
        self.err_printed = self.err_printed + 1;
        if self.err_printed == ERRORS_LOGGED {
            ErrorLog::LastLine
        } else {
            ErrorLog::Line
        }
    }

    /// One command in a transaction by itself; nothing while the panel counts as gone.
    pub fn cmd_alone(&self, c: u8, args: &[u8]) -> (ops: Vec<SpiOp>)
        ensures
            op_views(ops@) == (if self.ok {
                seq![OpView::CsLow] + cmd_ops(c, args@) + seq![OpView::CsHigh]
            } else {
                Seq::empty()
            }),
    {
        let mut ops: Vec<SpiOp> = Vec::new();
        if !self.ok {
            assert(op_views(ops@) =~= Seq::<OpView>::empty());
            return ops;
        }
        ops.push(SpiOp::CsLow);
        assert(op_views(ops@) =~= seq![OpView::CsLow]);
        push_cmd(&mut ops, c, args);
        ops.push(SpiOp::CsHigh);
        assert(op_views(ops@) =~= seq![OpView::CsLow] + cmd_ops(c, args@) + seq![OpView::CsHigh]);
        ops
    }

    /// Tries again after an error: the panel counts as working, and the initialisation that
    /// is returned has to be sent.
    pub fn try_recover(&mut self) -> (steps: Vec<InitStep>)
        ensures
            *final(self) == (Screen { ok: true, err_printed: 0 }),
            init_views(steps@) == init_sequence(),
    {
        self.ok = true;
        self.err_printed = 0;
        init_panel()
    }

    /// The transaction that pushes `len` bytes of pixels to a window. `None` while the panel
    /// counts as gone, and where the bytes do not fill the window exactly: they would run
    /// over into other rows.
    pub fn push_band(&self, x: u16, y: u16, w: u16, h: u16, len: usize) -> (ops: Option<Vec<SpiOp>>)
        requires
            self.ok && len == w * h * 2 ==> 1 <= x + w <= 0xffff && 1 <= y + h <= 0xffff,
        ensures
            ops is Some <==> self.ok && len == w * h * 2,
            ops matches Some(o) ==> op_views(o@) == push_ops(x, y, w, h),
    {
        assert(0 <= w * h <= 0xffff * 0xffff) by (nonlinear_arith)
            requires
                w <= 0xffff,
                h <= 0xffff,
        ;
        if !self.ok || len as u64 != w as u64 * h as u64 * 2 {
            return None;
        }
        let mut ops: Vec<SpiOp> = Vec::new();
        ops.push(SpiOp::CsLow);
        assert(op_views(ops@) =~= seq![OpView::CsLow]);
        push_window(&mut ops, x, y, w, h);
        ops.push(SpiOp::Pixels);
        ops.push(SpiOp::CsHigh);
        assert(op_views(ops@) =~= push_ops(x, y, w, h));
        Some(ops)
    }

    /// The transaction that fills an area with one colour, row by row. `None` while the
    /// panel counts as gone, and for an area wider than the screen.
    pub fn fill_area(&self, x: u16, y: u16, w: u16, h: u16, color: u16) -> (ops: Option<Vec<SpiOp>>)
        requires
            self.ok && w <= SCREEN_W ==> 1 <= x + w <= 0xffff && 1 <= y + h <= 0xffff,
        ensures
            ops is Some <==> self.ok && w <= SCREEN_W,
            ops matches Some(o) ==> op_views(o@) == fill_ops(Area { x, y, w, h, color }),
    {
        if !self.ok || w as usize > SCREEN_W {
            return None;
        }
        let n = w as usize * 2;
        let mut row: Vec<u8> = Vec::new();
        row.resize(n, 0);
        crate::raster::fill_color(row.as_mut_slice(), color);
        let mut ops: Vec<SpiOp> = Vec::new();
        ops.push(SpiOp::CsLow);
        assert(op_views(ops@) =~= seq![OpView::CsLow]);
        push_window(&mut ops, x, y, w, h);
        ops.push(SpiOp::Rows(row, h));
        ops.push(SpiOp::CsHigh);
        assert(op_views(ops@) =~= fill_ops(Area { x, y, w, h, color }));
        Some(ops)
    }

    /// The areas of the start-up pattern; none while the panel counts as gone.
    pub fn self_test_bars(&self) -> (v: Vec<Area>)
        ensures
            v@ == (if self.ok {
                pattern()
            } else {
                Seq::empty()
            }),
    {
        if self.ok {
            pattern_areas()
        } else {
            let none: Vec<Area> = Vec::new();
            assert(none@ =~= Seq::<Area>::empty());
            none
        }
    }
}

/// The transaction that pushes pixels to a window.
pub open spec fn push_ops(x: u16, y: u16, w: u16, h: u16) -> Seq<OpView> {
    seq![OpView::CsLow] + window_ops(x, y, w, h) + seq![OpView::Pixels, OpView::CsHigh]
}

/// The transaction that fills an area.
pub open spec fn fill_ops(a: Area) -> Seq<OpView> {
    seq![OpView::CsLow] + window_ops(a.x, a.y, a.w, a.h) + seq![
        OpView::Rows(color_row(a.w, a.color), a.h),
        OpView::CsHigh,
    ]
}

// ---------- the start-up pattern ----------

/// The areas of the start-up pattern: four coloured blocks, eight red and green stripes,
/// sixteen steps of grey, and cyan beside yellow.
pub open spec fn pattern() -> Seq<Area> {
    Seq::new(
        30,
        |i: int|
            if i < 4 {
                Area {
                    x: (i * 60) as u16,
                    y: 0,
                    w: 60,
                    h: 60,
                    color: if i == 0 {
                        0xffff
                    } else if i == 1 {
                        0xf800
                    } else if i == 2 {
                        0x07e0
                    } else {
                        0x001f
                    },
                }
            } else if i < 12 {
                Area {
                    x: ((i - 4) * 30) as u16,
                    y: 60,
                    w: 30,
                    h: 60,
                    color: if (i - 4) % 2 == 0 {
                        0xf800
                    } else {
                        0x07e0
                    },
                }
            } else if i < 28 {
                Area {
                    x: ((i - 12) * 15) as u16,
                    y: 120,
                    w: 15,
                    h: 60,
                    color: grey(i - 12),
                }
            } else if i == 28 {
                Area { x: 0, y: 180, w: 120, h: 60, color: 0x07ff }
            } else {
                Area { x: 120, y: 180, w: 120, h: 60, color: 0xffe0 }
            },
    )
}

/// Step `i` of grey: twice `i` in each of the three parts of a colour.
pub open spec fn grey(i: int) -> u16 {
    (i * 2 * 0x800 + i * 2 * 0x40 + i * 2) as u16
}

fn pattern_areas() -> (v: Vec<Area>)
    ensures
        v@ == pattern(),
{
    let blocks: [u16; 4] = [0xffff, 0xf800, 0x07e0, 0x001f];
    let mut v: Vec<Area> = Vec::new();
    let mut i: u16 = 0;
    while i < 4
        invariant
            i <= 4,
            v@.len() == i,
            blocks@ == seq![0xffffu16, 0xf800u16, 0x07e0u16, 0x001fu16],
            forall|k: int| 0 <= k < i ==> #[trigger] v@[k] == pattern()[k],
        decreases 4 - i,
    {
        v.push(Area { x: i * 60, y: 0, w: 60, h: 60, color: blocks[i as usize] });
        i = i + 1;
    }
    i = 0;
    while i < 8
        invariant
            i <= 8,
            v@.len() == 4 + i,
            forall|k: int| 0 <= k < 4 + i ==> #[trigger] v@[k] == pattern()[k],
        decreases 8 - i,
    {
        let color: u16 = if i % 2 == 0 {
            0xf800
        } else {
            0x07e0
        };
        v.push(Area { x: i * 30, y: 60, w: 30, h: 60, color });
        i = i + 1;
    }
    i = 0;
    while i < 16
        invariant
            i <= 16,
            v@.len() == 12 + i,
            forall|k: int| 0 <= k < 12 + i ==> #[trigger] v@[k] == pattern()[k],
        decreases 16 - i,
    {
        let g: u16 = i * 2;
        let color: u16 = g * 0x800 + g * 0x40 + g;
        v.push(Area { x: i * 15, y: 120, w: 15, h: 60, color });
        i = i + 1;
    }
    v.push(Area { x: 0, y: 180, w: 120, h: 60, color: 0x07ff });
    v.push(Area { x: 120, y: 180, w: 120, h: 60, color: 0xffe0 });
    assert(v@ =~= pattern());
    v
}

// ---------- laws of the bus ----------

/// Bytes on the bus, and how the lines stand while they are there.
pub struct Sent {
    /// The panel is selected.
    pub selected: bool,
    /// The bytes count as data, not as a command.
    pub data: bool,
    pub what: OpView,
}

/// What goes over the bus when operations are carried out, with the select line and the
/// data/command line standing as given at first.
pub open spec fn on_bus(ops: Seq<OpView>, selected: bool, data: bool) -> Seq<Sent>
    decreases ops.len(),
{
    if ops.len() == 0 {
        Seq::empty()
    } else {
        let rest = ops.drop_first();
        match ops[0] {
            OpView::CsLow => on_bus(rest, true, data),
            OpView::CsHigh => on_bus(rest, false, data),
            OpView::DcLow => on_bus(rest, selected, false),
            OpView::DcHigh => on_bus(rest, selected, true),
            what => seq![Sent { selected, data, what }] + on_bus(rest, selected, data),
        }
    }
}

/// The window commands and what follows them, seen on the bus.
proof fn lemma_window_on_bus(
    x: u16,
    y: u16,
    w: u16,
    h: u16,
    what: OpView,
    selected: bool,
    data: bool,
)
    requires
        what is Pixels || what is Rows,
    ensures
        on_bus(
            seq![OpView::CsLow] + window_ops(x, y, w, h) + seq![what, OpView::CsHigh],
            selected,
            data,
        ) == window_sent(x, y, w, h).push(Sent { selected: true, data: true, what }),
{
    let cols = coordinate(x as int) + coordinate(x + w - 1);
    let rows = coordinate(y as int) + coordinate(y + h - 1);
    let ops = seq![
        OpView::CsLow,
        OpView::DcLow,
        OpView::Write(seq![CMD_CASET]),
        OpView::DcHigh,
        OpView::Write(cols),
        OpView::DcLow,
        OpView::Write(seq![CMD_RASET]),
        OpView::DcHigh,
        OpView::Write(rows),
        OpView::DcLow,
        OpView::Write(seq![CMD_RAMWR]),
        OpView::DcHigh,
        what,
        OpView::CsHigh,
    ];
    assert(seq![OpView::CsLow] + window_ops(x, y, w, h) + seq![what, OpView::CsHigh] =~= ops);
    lemma_bus(ops, selected, data, 0);
    lemma_bus(ops, true, data, 1);
    lemma_bus(ops, true, false, 2);
    lemma_bus(ops, true, false, 3);
    lemma_bus(ops, true, true, 4);
    lemma_bus(ops, true, true, 5);
    lemma_bus(ops, true, false, 6);
    lemma_bus(ops, true, false, 7);
    lemma_bus(ops, true, true, 8);
    lemma_bus(ops, true, true, 9);
    lemma_bus(ops, true, false, 10);
    lemma_bus(ops, true, false, 11);
    lemma_bus(ops, true, true, 12);
    lemma_bus(ops, true, true, 13);
    assert(ops.skip(0) =~= ops);
    assert(ops.skip(14) =~= Seq::<OpView>::empty());
    assert(on_bus(ops, selected, data) =~= window_sent(x, y, w, h).push(
        Sent { selected: true, data: true, what },
    ));
}

/// The window commands on the bus: column and row with their arguments as data, the memory
/// write as a command, the panel selected all along.
pub open spec fn window_sent(x: u16, y: u16, w: u16, h: u16) -> Seq<Sent> {
    seq![
        Sent { selected: true, data: false, what: OpView::Write(seq![CMD_CASET]) },
        Sent {
            selected: true,
            data: true,
            what: OpView::Write(coordinate(x as int) + coordinate(x + w - 1)),
        },
        Sent { selected: true, data: false, what: OpView::Write(seq![CMD_RASET]) },
        Sent {
            selected: true,
            data: true,
            what: OpView::Write(coordinate(y as int) + coordinate(y + h - 1)),
        },
        Sent { selected: true, data: false, what: OpView::Write(seq![CMD_RAMWR]) },
    ]
}

/// What a pixel transaction puts on the bus, however the lines stood before: the window
/// commands, then the pixels as data, and the panel selected all along and no longer.
pub proof fn law_pixel_transaction(x: u16, y: u16, w: u16, h: u16, selected: bool, data: bool)
    ensures
        on_bus(push_ops(x, y, w, h), selected, data) == window_sent(x, y, w, h).push(
            Sent { selected: true, data: true, what: OpView::Pixels },
        ),
        push_ops(x, y, w, h).last() == OpView::CsHigh,
{
    lemma_window_on_bus(x, y, w, h, OpView::Pixels, selected, data);
}

/// So does the filling of an area, with its rows in place of the pixels.
pub proof fn law_fill_transaction(a: Area, selected: bool, data: bool)
    ensures
        on_bus(fill_ops(a), selected, data) == window_sent(a.x, a.y, a.w, a.h).push(
            Sent {
                selected: true,
                data: true,
                what: OpView::Rows(color_row(a.w, a.color), a.h),
            },
        ),
        fill_ops(a).last() == OpView::CsHigh,
{
    lemma_window_on_bus(
        a.x,
        a.y,
        a.w,
        a.h,
        OpView::Rows(color_row(a.w, a.color), a.h),
        selected,
        data,
    );
}

proof fn lemma_bus(ops: Seq<OpView>, selected: bool, data: bool, i: int)
    requires
        0 <= i < ops.len(),
    ensures
        on_bus(ops.skip(i), selected, data) == (match ops[i] {
            OpView::CsLow => on_bus(ops.skip(i + 1), true, data),
            OpView::CsHigh => on_bus(ops.skip(i + 1), false, data),
            OpView::DcLow => on_bus(ops.skip(i + 1), selected, false),
            OpView::DcHigh => on_bus(ops.skip(i + 1), selected, true),
            what => seq![Sent { selected, data, what }] + on_bus(ops.skip(i + 1), selected, data),
        }),
{
    assert(ops.skip(i).drop_first() =~= ops.skip(i + 1));
}

/// A command by itself goes out as a command, its arguments as data, and the panel is
/// selected for both.
pub proof fn law_command_transaction(c: u8, args: Seq<u8>, selected: bool, data: bool)
    ensures
        ({
            let ops = seq![OpView::CsLow] + cmd_ops(c, args) + seq![OpView::CsHigh];
            let command = Sent { selected: true, data: false, what: OpView::Write(seq![c]) };
            &&& args.len() == 0 ==> on_bus(ops, selected, data) == seq![command]
            &&& args.len() > 0 ==> on_bus(ops, selected, data) == seq![
                command,
                Sent { selected: true, data: true, what: OpView::Write(args) },
            ]
        }),
{
    let ops = seq![OpView::CsLow] + cmd_ops(c, args) + seq![OpView::CsHigh];
    assert(ops.skip(0) =~= ops);
    lemma_bus(ops, selected, data, 0);
    lemma_bus(ops, true, data, 1);
    lemma_bus(ops, true, false, 2);
    if args.len() == 0 {
        lemma_bus(ops, true, false, 3);
        assert(ops.skip(4) =~= Seq::<OpView>::empty());
        assert(on_bus(ops, selected, data) =~= seq![
            Sent { selected: true, data: false, what: OpView::Write(seq![c]) },
        ]);
    } else {
        lemma_bus(ops, true, false, 3);
        lemma_bus(ops, true, true, 4);
        lemma_bus(ops, true, true, 5);
        assert(ops.skip(6) =~= Seq::<OpView>::empty());
        assert(on_bus(ops, selected, data) =~= seq![
            Sent { selected: true, data: false, what: OpView::Write(seq![c]) },
            Sent { selected: true, data: true, what: OpView::Write(args) },
        ]);
    }
}

/// The start-up pattern lies on the screen.
pub proof fn law_pattern_on_screen(i: int)
    requires
        0 <= i < 30,
    ensures
        pattern()[i].x + pattern()[i].w <= SCREEN_W,
        pattern()[i].y + pattern()[i].h <= render::SCREEN_H,
        pattern()[i].w > 0,
        pattern()[i].h > 0,
{
}

/// A coordinate goes out as two bytes, the high one first.
pub proof fn law_coordinate(v: int)
    requires
        0 <= v <= 0xffff,
    ensures
        coordinate(v).len() == 2,
        coordinate(v)[0] * 256 + coordinate(v)[1] == v,
{
}

/// The panel hears of a window by its first and its last column and its first and its last
/// row, both counted.
pub proof fn law_window_is_told(x: u16, y: u16, w: u16, h: u16)
    requires
        1 <= x + w <= 0xffff,
        1 <= y + h <= 0xffff,
    ensures
        ({
            let b = on_bus(push_ops(x, y, w, h), false, false);
            &&& b.len() == 6
            &&& forall|i: int| 0 <= i < 6 ==> (#[trigger] b[i]).selected
            &&& b[0].what == OpView::Write(seq![0x2au8]) && !b[0].data
            &&& b[1].data && (b[1].what matches OpView::Write(c) && c.len() == 4 && c[0] * 256 + c[1]
                == x && c[2] * 256 + c[3] == x + w - 1)
            &&& b[2].what == OpView::Write(seq![0x2bu8]) && !b[2].data
            &&& b[3].data && (b[3].what matches OpView::Write(r) && r.len() == 4 && r[0] * 256 + r[1]
                == y && r[2] * 256 + r[3] == y + h - 1)
            &&& b[4].what == OpView::Write(seq![0x2cu8]) && !b[4].data
            &&& b[5].what == OpView::Pixels && b[5].data
        }),
{
    law_pixel_transaction(x, y, w, h, false, false);
    let b = on_bus(push_ops(x, y, w, h), false, false);
    let cols = coordinate(x as int) + coordinate(x + w - 1);
    let rows = coordinate(y as int) + coordinate(y + h - 1);
    law_coordinate(x as int);
    law_coordinate(x + w - 1);
    law_coordinate(y as int);
    law_coordinate(y + h - 1);
    assert(b[1].what == OpView::Write(cols));
    assert(b[3].what == OpView::Write(rows));
    assert(cols[0] == coordinate(x as int)[0] && cols[1] == coordinate(x as int)[1]);
    assert(cols[2] == coordinate(x + w - 1)[0] && cols[3] == coordinate(x + w - 1)[1]);
    assert(rows[0] == coordinate(y as int)[0] && rows[1] == coordinate(y as int)[1]);
    assert(rows[2] == coordinate(y + h - 1)[0] && rows[3] == coordinate(y + h - 1)[1]);
}

/// An area is filled row by row, each row with as many pixels as it is wide, all in its
/// colour, high byte first.
pub proof fn law_area_is_filled(a: Area, i: int)
    requires
        1 <= a.x + a.w <= 0xffff,
        1 <= a.y + a.h <= 0xffff,
        0 <= i < a.w,
    ensures
        on_bus(fill_ops(a), false, false).last().what matches OpView::Rows(row, n) && {
            &&& n == a.h
            &&& row.len() == 2 * a.w
            &&& row[2 * i] * 256 + row[2 * i + 1] == a.color
        },
{
    law_fill_transaction(a, false, false);
    let row = color_row(a.w, a.color);
    assert((2 * i) % 2 == 0 && (2 * i + 1) % 2 == 1);
    assert(row[2 * i] == (a.color / 256) as u8);
    assert(row[2 * i + 1] == (a.color % 256) as u8);
}

/// Whether a point lies in an area.
pub open spec fn covers(a: Area, x: int, y: int) -> bool {
    a.x <= x < a.x + a.w && a.y <= y < a.y + a.h
}

/// The start-up pattern covers the whole screen, every point of it once.
pub proof fn law_pattern_covers_screen(x: int, y: int, i: int, j: int)
    requires
        0 <= x < 240,
        0 <= y < 240,
        0 <= i < pattern().len(),
        0 <= j < pattern().len(),
    ensures
        exists|k: int| 0 <= k < pattern().len() && covers(#[trigger] pattern()[k], x, y),
        covers(pattern()[i], x, y) && covers(pattern()[j], x, y) ==> i == j,
{
    let k = if y < 60 {
        x / 60
    } else if y < 120 {
        4 + x / 30
    } else if y < 180 {
        12 + x / 15
    } else {
        28 + x / 120
    };
    assert(covers(pattern()[k], x, y));
}

/// The steps of grey get brighter from left to right, in red, green and blue alike.
pub proof fn law_grey_rises(i: int)
    requires
        0 <= i < 15,
    ensures
        grey(0) == 0,
        grey(i) < grey(i + 1),
        grey(i) / 0x800 == 2 * i,
        grey(i) / 0x20 % 0x40 == 4 * i,
        grey(i) % 0x20 == 2 * i,
{
    assert(grey(i) == 4226 * i);
    assert(grey(i + 1) == 4226 * (i + 1));
    assert(4226 * i == 2048 * (2 * i) + 130 * i && 0 <= 130 * i < 2048);
    assert(4226 * i == 32 * (132 * i) + 2 * i && 0 <= 2 * i < 32);
    assert(132 * i == 64 * (2 * i) + 4 * i && 0 <= 4 * i < 64);
}

/// The initialisation: a reset and then the wake-up, nothing else before them and a pause of
/// at least 120 milliseconds behind each; sixteen bits a pixel, and the panel is switched on
/// last.
pub proof fn law_initialisation(i: int)
    requires
        0 <= i < init_sequence().len(),
    ensures
        init_sequence()[0] == InitView::Command(0x01, Seq::empty()),
        init_sequence()[1] matches InitView::DelayMs(ms) && ms >= 120,
        init_sequence()[2] == InitView::Command(0x11, Seq::empty()),
        init_sequence()[3] matches InitView::DelayMs(ms) && ms >= 120,
        init_sequence().last() == InitView::Command(0x29, Seq::empty()),
        i > 3 ==> init_sequence()[i] is Command,
        exists|k: int|
            0 <= k < init_sequence().len() && #[trigger] init_sequence()[k] == InitView::Command(
                0x3a,
                seq![0x55u8],
            ),
{
    assert(init_sequence()[15] == InitView::Command(0x3a, seq![0x55u8]));
}

} // verus!
