//! The client side of a WebSocket connection: frames in, frames out, and the opening
//! handshake, as a function of the bytes that arrive and leave.
//!
//! Whoever drives the connection may stop waiting for bytes at any point and come
//! back later. Everything that is half done therefore lives in [`WsClient`]: bytes
//! can be handed over in pieces of any size, and the frames that come out are those
//! of the whole stream.
use vstd::prelude::*;
use vstd::utf8::*;
use crate::base64::b64_encode_short;
use crate::text::{decode_scalar, push_decimal};
use crate::{base64, text};

verus! {

/// What kind of frame arrived. Its payload lies in the receive buffer.
#[derive(Debug, Clone, Copy, PartialEq, Eq, Structural)]
pub enum WsFrameKind {
    Text,
    Binary,
    /// A ping; its answer is already queued.
    Ping,
}

#[derive(Debug, Clone, Copy, PartialEq, Eq, Structural)]
pub enum WsError {
    /// The peer closed the connection.
    Closed,
    /// The transport failed.
    Io,
    /// A frame, or the fragments of a message together, larger than the receive buffer. They
    /// were dropped and the stream is still in step.
    TooLarge,
    /// The answer to the upgrade request was not an acceptance.
    HandshakeFailed,
}

/// Longest control payload that is kept.
pub const CONTROL_MAX: usize = 256;

// ---------- what a frame is ----------

/// The opcode of a frame.
pub open spec fn opcode(h: Seq<u8>) -> u8 {
    h[0] & 0x0f
}

/// Whether a frame ends its message.
pub open spec fn is_final(h: Seq<u8>) -> bool {
    h[0] & 0x80 != 0
}

/// Ping and close.
pub open spec fn is_control(h: Seq<u8>) -> bool {
    opcode(h) == 0x9 || opcode(h) == 0x8
}

/// How many bytes of extended length follow the two fixed header bytes.
pub open spec fn extension(h: Seq<u8>) -> nat {
    if h[1] & 0x7f == 126 {
        2
    } else if h[1] & 0x7f == 127 {
        8
    } else {
        0
    }
}

/// Length of the header that `h` starts with, once all of it is there.
pub open spec fn header_len(h: Seq<u8>) -> Option<nat> {
    if h.len() >= 2 && h.len() >= 2 + extension(h) {
        Some((2 + extension(h)) as nat)
    } else {
        None
    }
}

/// The number in the eight big-endian bytes from `h[2]` on.
pub open spec fn long_length(h: Seq<u8>) -> int {
    h[2] * 0x100000000000000 + h[3] * 0x1000000000000 + h[4] * 0x10000000000 + h[5] * 0x100000000
        + h[6] * 0x1000000 + h[7] * 0x10000 + h[8] * 0x100 + h[9]
}

/// The payload length that a complete header announces.
pub open spec fn payload_len(h: Seq<u8>) -> usize {
    if extension(h) == 2 {
        (h[2] * 256 + h[3]) as usize
    } else if extension(h) == 8 {
        (long_length(h) as u64) as usize
    } else {
        (h[1] & 0x7f) as usize
    }
}

/// How many bytes follow the header. Of a control frame at most [`CONTROL_MAX`] count.
pub open spec fn body_len(h: Seq<u8>) -> nat {
    if is_control(h) && payload_len(h) > CONTROL_MAX {
        CONTROL_MAX as nat
    } else {
        payload_len(h) as nat
    }
}

/// Length of the frame that `h` starts with, once its header is there.
pub open spec fn frame_len(h: Seq<u8>) -> Option<nat> {
    match header_len(h) {
        Some(n) => Some(n + body_len(h)),
        None => None,
    }
}

/// The payload of a complete frame.
pub open spec fn body(f: Seq<u8>) -> Seq<u8> {
    f.skip(header_len(f)->0 as int)
}

// ---------- what a stream of frames means ----------

/// How far the stream has been read.
#[verifier::ext_equal]
pub struct RxView {
    /// The bytes of the frame under way.
    pub seen: Seq<u8>,
    /// The frame under way is too large and is being dropped.
    pub skipping: bool,
    /// The fragments of an unfinished message.
    pub frag: Option<Seq<u8>>,
}

/// What comes out of the stream.
pub enum Received {
    Frame(WsFrameKind, Seq<u8>),
    Closed,
    TooLarge,
}

/// At the start of a frame.
pub open spec fn at_frame_start(frag: Option<Seq<u8>>) -> RxView {
    RxView { seen: Seq::empty(), skipping: false, frag }
}

/// What a complete frame leaves as fragments, and what it delivers, with a receive
/// buffer of `cap` bytes. Text and binary frames open a message, continuation frames go on
/// with it; a frame of any other kind is dropped, whether a message is open or not.
pub open spec fn arrival(
    frag: Option<Seq<u8>>,
    f: Seq<u8>,
    skipping: bool,
    cap: nat,
) -> (Option<Seq<u8>>, Option<Received>) {
    let op = opcode(f);
    if op == 0x9 {
        (frag, Some(Received::Frame(WsFrameKind::Ping, body(f))))
    } else if op == 0x8 {
        (frag, Some(Received::Closed))
    } else if skipping {
        (frag, Some(Received::TooLarge))
    } else if op == 0x1 && is_final(f) {
        (frag, Some(Received::Frame(WsFrameKind::Text, body(f))))
    } else if op == 0x2 && is_final(f) {
        (frag, Some(Received::Frame(WsFrameKind::Binary, body(f))))
    } else if op != 0x0 && op != 0x1 && op != 0x2 {
        (frag, None)
    } else {
        let so_far = if op == 0x1 || op == 0x2 {
            Some(Seq::empty())
        } else {
            frag
        };
        match so_far {
            None => (None, None),
            Some(a) => {
                let all = a + body(f);
                if all.len() > cap {
                    (None, Some(Received::TooLarge))
                } else if is_final(f) {
                    (None, Some(Received::Frame(WsFrameKind::Text, all)))
                } else {
                    (Some(all), None)
                }
            },
        }
    }
}

/// One more byte of the stream.
pub open spec fn step(v: RxView, cap: nat, b: u8) -> (RxView, Option<Received>) {
    let seen = v.seen.push(b);
    match frame_len(seen) {
        None => (RxView { seen, ..v }, None),
        Some(n) => {
            let skipping = if header_len(v.seen) is None {
                !is_control(seen) && payload_len(seen) > cap
            } else {
                v.skipping
            };
            if seen.len() < n {
                (RxView { seen, skipping, frag: v.frag }, None)
            } else {
                let (frag, got) = arrival(v.frag, seen, skipping, cap);
                (at_frame_start(frag), got)
            }
        },
    }
}

/// The outcome of reading on until something comes out or the bytes run out.
#[verifier::ext_equal]
pub struct Run {
    /// Bytes taken.
    pub used: nat,
    pub view: RxView,
    pub got: Option<Received>,
}

/// Reads the bytes `d` from `v` on.
pub open spec fn run(v: RxView, cap: nat, d: Seq<u8>) -> Run
    decreases d.len(),
{
    if d.len() == 0 {
        Run { used: 0, view: v, got: None }
    } else {
        let (w, got) = step(v, cap, d[0]);
        if got is Some {
            Run { used: 1, view: w, got }
        } else {
            let r = run(w, cap, d.skip(1));
            Run { used: r.used + 1, ..r }
        }
    }
}

// ---------- what is sent ----------

/// The next state of the generator behind masks and handshake keys.
pub open spec fn next_mask(m: u32) -> u32 {
    m.wrapping_mul(1664525).wrapping_add(1013904223)
}

/// The four bytes of a word, lowest first.
pub open spec fn word_bytes(m: u32) -> Seq<u8> {
    seq![
        (m % 256) as u8,
        (m / 256 % 256) as u8,
        (m / 65536 % 256) as u8,
        (m / 16777216 % 256) as u8,
    ]
}

/// The length field of a frame from the client, in its shortest form.
pub open spec fn length_field(n: nat) -> Seq<u8> {
    if n < 126 {
        seq![(0x80 + n) as u8]
    } else if n <= 0xffff {
        seq![0xfeu8, (n / 256) as u8, (n % 256) as u8]
    } else {
        seq![
            0xffu8,
            (n / 0x100000000000000 % 256) as u8,
            (n / 0x1000000000000 % 256) as u8,
            (n / 0x10000000000 % 256) as u8,
            (n / 0x100000000 % 256) as u8,
            (n / 0x1000000 % 256) as u8,
            (n / 0x10000 % 256) as u8,
            (n / 0x100 % 256) as u8,
            (n % 256) as u8,
        ]
    }
}

/// A payload combined with the four mask bytes.
pub open spec fn masked(p: Seq<u8>, mask: Seq<u8>) -> Seq<u8> {
    Seq::new(p.len(), |i: int| p[i] ^ mask[i % 4])
}

/// A complete, masked frame from the client.
pub open spec fn client_frame(op: u8, p: Seq<u8>, m: u32) -> Seq<u8> {
    seq![(0x80 + op) as u8] + length_field(p.len()) + word_bytes(m) + masked(p, word_bytes(m))
}

/// The frame that the client queues in answer to what it received, and the generator
/// state after it.
pub open spec fn answer(queued: Seq<u8>, mask: u32, got: Option<Received>) -> (Seq<u8>, u32) {
    match got {
        Some(Received::Frame(WsFrameKind::Ping, p)) => (
            queued + client_frame(0xa, p, next_mask(mask)),
            next_mask(mask),
        ),
        Some(Received::Closed) => (
            queued + client_frame(0x8, Seq::empty(), next_mask(mask)),
            next_mask(mask),
        ),
        _ => (queued, mask),
    }
}

/// How what was received is handed to the caller: the payload of a text or binary
/// message lies at the start of the receive buffer.
pub open spec fn reported(
    r: Result<Option<(WsFrameKind, usize)>, WsError>,
    got: Option<Received>,
    out: Seq<u8>,
) -> bool {
    match got {
        None => r == Ok::<Option<(WsFrameKind, usize)>, WsError>(None),
        Some(Received::Closed) => r == Err::<Option<(WsFrameKind, usize)>, WsError>(WsError::Closed),
        Some(Received::TooLarge) => r == Err::<Option<(WsFrameKind, usize)>, WsError>(
            WsError::TooLarge,
        ),
        Some(Received::Frame(kind, p)) => {
            &&& r matches Ok(Some((k, n))) && k == kind && n == p.len()
            &&& kind != WsFrameKind::Ping ==> p.len() <= out.len() && out.take(p.len() as int) == p
        },
    }
}

// ---------- the client ----------

/// Where in a frame the reader stands.
#[derive(Debug, Clone, Copy, PartialEq, Eq, Structural)]
enum Stage {
    /// In the header.
    Hdr,
    /// In the payload of a control frame.
    Ctl,
    /// In the payload of a data frame, which goes into the receive buffer.
    Payload,
    /// In the payload of a frame that is dropped.
    Discard,
}

/// One end of a WebSocket connection.
pub struct WsClient {
    stage: Stage,
    hdr: Vec<u8>,
    opcode: u8,
    payload_len: usize,
    /// Payload bytes of the frame under way that have arrived, in the receive buffer or
    /// dropped.
    payload_have: usize,
    /// The payload of a control frame, as far as it has arrived.
    dbuf: Vec<u8>,
    frag: Vec<u8>,
    frag_active: bool,
    mask_state: u32,
    /// Frames on their way out; the first `tx_sent` bytes have left.
    tx_pending: Vec<u8>,
    tx_sent: usize,
    seen: Ghost<Seq<u8>>,
}

impl WsClient {
    /// How far the incoming stream has been read.
    pub closed spec fn rx(&self) -> RxView {
        RxView {
            seen: self.seen@,
            skipping: self.stage == Stage::Discard,
            frag: if self.frag_active {
                Some(self.frag@)
            } else {
                None
            },
        }
    }

    /// The bytes that wait to be written to the transport.
    pub closed spec fn queued(&self) -> Seq<u8> {
        self.tx_pending@.skip(self.tx_sent as int)
    }

    /// The state of the mask generator.
    pub closed spec fn mask(&self) -> u32 {
        self.mask_state
    }

    pub closed spec fn wf(&self) -> bool {
        &&& self.tx_sent <= self.tx_pending@.len()
        &&& self.tx_sent == 0 || self.tx_sent < self.tx_pending@.len()
        &&& !self.frag_active ==> self.frag@.len() == 0
        &&& match self.stage {
            Stage::Hdr => {
                &&& self.hdr@ == self.seen@
                &&& header_len(self.seen@) is None
            },
            _ => {
                &&& header_len(self.seen@) == Some(self.hdr@.len())
                &&& self.hdr@ == self.seen@.take(self.hdr@.len() as int)
                &&& self.opcode == opcode(self.seen@)
                &&& self.payload_len == payload_len(self.seen@)
                &&& self.seen@.len() < self.hdr@.len() + body_len(self.seen@)
                &&& (self.stage == Stage::Ctl) == is_control(self.seen@)
                &&& self.stage == Stage::Ctl ==> self.dbuf@ == body(self.seen@)
                &&& self.stage != Stage::Ctl ==> self.payload_have == self.seen@.len()
                    - self.hdr@.len()
            },
        }
    }

    /// Whether `out` is the receive buffer that the frame under way has been read into so
    /// far.
    pub closed spec fn reads_into(&self, out: Seq<u8>) -> bool {
        self.stage == Stage::Payload ==> {
            &&& self.payload_len <= out.len()
            &&& out.take(self.payload_have as int) == body(self.seen@)
        }
    }
}

/// The four bytes of a word, lowest first.
pub fn word_to_bytes(m: u32) -> (r: [u8; 4])
    ensures
        r@ == word_bytes(m),
{
    let r: [u8; 4] = [
        (m % 256) as u8,
        (m / 256 % 256) as u8,
        (m / 65536 % 256) as u8,
        (m / 16777216 % 256) as u8,
    ];
    assert(r@ =~= word_bytes(m));
    r
}

fn push_length(frame: &mut Vec<u8>, n: usize)
    ensures
        final(frame)@ == old(frame)@ + length_field(n as nat),
{
    if n < 126 {
        frame.push((0x80 + n) as u8);
    } else if n <= 0xffff {
        frame.push(0xfe);
        frame.push((n / 256) as u8);
        frame.push((n % 256) as u8);
    } else {
        let m: u64 = n as u64;
        frame.push(0xff);
        frame.push((m / 0x100000000000000 % 256) as u8);
        frame.push((m / 0x1000000000000 % 256) as u8);
        frame.push((m / 0x10000000000 % 256) as u8);
        frame.push((m / 0x100000000 % 256) as u8);
        frame.push((m / 0x1000000 % 256) as u8);
        frame.push((m / 0x10000 % 256) as u8);
        frame.push((m / 0x100 % 256) as u8);
        frame.push((m % 256) as u8);
    }
    assert(frame@ =~= old(frame)@ + length_field(n as nat));
}

fn push_masked(frame: &mut Vec<u8>, payload: &[u8], mask: &[u8; 4])
    ensures
        final(frame)@ == old(frame)@ + masked(payload@, mask@),
{
    let ghost all = masked(payload@, mask@);
    let mut i: usize = 0;
    while i < payload.len()
        invariant
            i <= payload@.len(),
            all == masked(payload@, mask@),
            frame@ == old(frame)@ + all.take(i as int),
        decreases payload@.len() - i,
    {
        let b = payload[i] ^ mask[i % 4];
        frame.push(b);
        assert(all.take(i + 1) =~= all.take(i as int).push(all[i as int]));
        i = i + 1;
        assert(frame@ =~= old(frame)@ + all.take(i as int));
    }
    assert(all.take(i as int) =~= all);
    assert(frame@ =~= old(frame)@ + all);
}

impl WsClient {
    /// Queues one whole frame behind whatever still waits, so that no frame on the wire
    /// is ever cut short by the next.
    fn send_raw(&mut self, opcode: u8, payload: &[u8])
        requires
            old(self).wf(),
            opcode < 16,
        ensures
            final(self).wf(),
            final(self).rx() == old(self).rx(),
            forall|out: Seq<u8>| #[trigger]
                final(self).reads_into(out) == old(self).reads_into(out),
            final(self).queued() == old(self).queued() + client_frame(
                opcode,
                payload@,
                next_mask(old(self).mask()),
            ),
            final(self).mask() == next_mask(old(self).mask()),
    {
        let ghost before = self.tx_pending@;
        let ghost sent = self.tx_sent as int;
        self.mask_state = self.mask_state.wrapping_mul(1664525).wrapping_add(1013904223);
        let mask = word_to_bytes(self.mask_state);
        self.tx_pending.push(0x80 + opcode);
        push_length(&mut self.tx_pending, payload.len());
        self.tx_pending.push(mask[0]);
        self.tx_pending.push(mask[1]);
        self.tx_pending.push(mask[2]);
        self.tx_pending.push(mask[3]);
        push_masked(&mut self.tx_pending, payload, &mask);
        proof {
            let f = client_frame(opcode, payload@, self.mask_state);
            assert(self.tx_pending@ =~= before + f);
            assert(self.tx_pending@.skip(sent) =~= before.skip(sent) + f);
        }
    }

    /// Back to the start of a frame. Fragments stay.
    fn reset_frame(&mut self)
        requires
            old(self).tx_sent <= old(self).tx_pending@.len(),
            old(self).tx_sent == 0 || old(self).tx_sent < old(self).tx_pending@.len(),
            !old(self).frag_active ==> old(self).frag@.len() == 0,
        ensures
            final(self).wf(),
            final(self).rx() == at_frame_start(old(self).rx().frag),
            forall|out: Seq<u8>| #[trigger] final(self).reads_into(out),
            final(self).queued() == old(self).queued(),
            final(self).mask() == old(self).mask(),
            final(self).frag == old(self).frag,
            final(self).frag_active == old(self).frag_active,
    {
        self.stage = Stage::Hdr;
        self.hdr.clear();
        self.opcode = 0;
        self.payload_len = 0;
        self.payload_have = 0;
        self.dbuf.clear();
        self.seen = Ghost(Seq::empty());
    }

    /// The frame under way is complete.
    spec fn complete(&self, out: Seq<u8>) -> bool {
        &&& self.tx_sent <= self.tx_pending@.len()
        &&& self.tx_sent == 0 || self.tx_sent < self.tx_pending@.len()
        &&& !self.frag_active ==> self.frag@.len() == 0
        &&& self.stage != Stage::Hdr
        &&& header_len(self.seen@) == Some(self.hdr@.len())
        &&& self.hdr@ == self.seen@.take(self.hdr@.len() as int)
        &&& self.opcode == opcode(self.seen@)
        &&& self.payload_len == payload_len(self.seen@)
        &&& self.seen@.len() == self.hdr@.len() + body_len(self.seen@)
        &&& (self.stage == Stage::Ctl) == is_control(self.seen@)
        &&& self.stage == Stage::Ctl ==> self.dbuf@ == body(self.seen@)
        &&& self.stage == Stage::Payload ==> {
            &&& self.payload_len <= out.len()
            &&& out.take(self.payload_len as int) == body(self.seen@)
        }
    }

    fn finish_frame(&mut self, out: &mut [u8]) -> (r: Result<
        Option<(WsFrameKind, usize)>,
        WsError,
    >)
        requires
            old(self).complete(old(out)@),
        ensures
            final(self).wf(),
            final(out)@.len() == old(out)@.len(),
            final(self).reads_into(final(out)@),
            ({
                let (frag, got) = arrival(
                    old(self).rx().frag,
                    old(self).rx().seen,
                    old(self).rx().skipping,
                    old(out)@.len(),
                );
                &&& final(self).rx() == at_frame_start(frag)
                &&& reported(r, got, final(out)@)
                &&& (final(self).queued(), final(self).mask()) == answer(
                    old(self).queued(),
                    old(self).mask(),
                    got,
                )
            }),
    {
        let fin = self.hdr[0] & 0x80 != 0;
        let op = self.opcode;
        let n = self.payload_len;
        match self.stage {
            Stage::Ctl => {
                if op == 0x9 {
                    let mut pong: Vec<u8> = Vec::new();
                    pong.append(&mut self.dbuf);
                    self.reset_frame();
                    self.send_raw(0xa, pong.as_slice());
                    return Ok(Some((WsFrameKind::Ping, pong.len())));
                }
                let none: Vec<u8> = Vec::new();
                self.reset_frame();
                self.send_raw(0x8, none.as_slice());
                assert(none@ =~= Seq::<u8>::empty());
                return Err(WsError::Closed);
            },
            Stage::Discard => {
                self.reset_frame();
                return Err(WsError::TooLarge);
            },
            _ => {},
        }
        if op == 0x1 || op == 0x2 {
            if fin {
                let kind = if op == 0x1 {
                    WsFrameKind::Text
                } else {
                    WsFrameKind::Binary
                };
                self.reset_frame();
                return Ok(Some((kind, n)));
            }
            self.frag_active = true;
            self.frag.clear();
        }
        if self.frag_active && op <= 0x2 {
            let ghost so_far = self.frag@;
            let total = append_prefix(&mut self.frag, out, n);
            if total > out.len() {
                self.frag.clear();
                self.frag_active = false;
                self.reset_frame();
                return Err(WsError::TooLarge);
            }
            if fin {
                copy_to(&self.frag, out);
                self.frag.clear();
                self.frag_active = false;
                self.reset_frame();
                return Ok(Some((WsFrameKind::Text, total)));
            }
        }
        self.reset_frame();
        Ok(None)
    }
}

/// Appends the first `n` bytes of `out`, and returns the new length.
fn append_prefix(frag: &mut Vec<u8>, out: &[u8], n: usize) -> (total: usize)
    requires
        n <= out@.len(),
    ensures
        final(frag)@ == old(frag)@ + out@.take(n as int),
        total == final(frag)@.len(),
{
    let mut i: usize = 0;
    while i < n
        invariant
            i <= n <= out@.len(),
            frag@ == old(frag)@ + out@.take(i as int),
        decreases n - i,
    {
        frag.push(out[i]);
        assert(out@.take(i + 1) =~= out@.take(i as int).push(out@[i as int]));
        i = i + 1;
        assert(frag@ =~= old(frag)@ + out@.take(i as int));
    }
    frag.len()
}

/// Copies `src` to the start of `out`.
fn copy_to(src: &Vec<u8>, out: &mut [u8])
    requires
        src@.len() <= old(out)@.len(),
    ensures
        final(out)@.len() == old(out)@.len(),
        final(out)@.take(src@.len() as int) == src@,
{
    let mut i: usize = 0;
    while i < src.len()
        invariant
            i <= src@.len() <= out@.len(),
            out@.len() == old(out)@.len(),
            forall|k: int| 0 <= k < i ==> out@[k] == src@[k],
        decreases src@.len() - i,
    {
        out[i] = src[i];
        i = i + 1;
    }
    assert(out@.take(src@.len() as int) =~= src@);
}

/// A longer look at a frame does not change what its header says.
proof fn lemma_header_stable(h: Seq<u8>, t: Seq<u8>)
    requires
        header_len(h) is Some,
        h.len() <= t.len(),
        t.take(h.len() as int) == h,
    ensures
        header_len(t) == header_len(h),
        opcode(t) == opcode(h),
        is_final(t) == is_final(h),
        payload_len(t) == payload_len(h),
        body_len(t) == body_len(h),
        frame_len(t) == frame_len(h),
{
    let n = header_len(h)->0;
    assert forall|k: int| 0 <= k < n implies #[trigger] t[k] == h[k] by {
        assert(t.take(h.len() as int)[k] == t[k]);
    }
}

impl WsClient {
    fn header_byte(&mut self, b: u8, out: &mut [u8]) -> (r: Result<
        Option<(WsFrameKind, usize)>,
        WsError,
    >)
        requires
            old(self).wf(),
            old(self).stage == Stage::Hdr,
        ensures
            final(self).wf(),
            final(out)@.len() == old(out)@.len(),
            final(self).reads_into(final(out)@),
            ({
                let (w, got) = step(old(self).rx(), old(out)@.len(), b);
                &&& final(self).rx() == w
                &&& reported(r, got, final(out)@)
                &&& (final(self).queued(), final(self).mask()) == answer(
                    old(self).queued(),
                    old(self).mask(),
                    got,
                )
            }),
    {
        self.hdr.push(b);
        self.seen = Ghost(self.seen@.push(b));
        let ghost h = self.seen@;
        if self.hdr.len() < 2 {
            return Ok(None);
        }
        let len7: u8 = self.hdr[1] & 0x7f;
        let ext: usize = if len7 == 126 {
            2
        } else if len7 == 127 {
            8
        } else {
            0
        };
        if self.hdr.len() < 2 + ext {
            return Ok(None);
        }
        proof {
            let before = old(self).seen@;
            assert(h.drop_last() =~= before);
            assert(header_len(before) is None);
            if before.len() >= 2 {
                assert(h[1] == before[1]);
            }
            assert(self.hdr@.len() == 2 + ext);
        }
        self.opcode = self.hdr[0] & 0x0f;
        self.payload_len = if ext == 2 {
            self.hdr[2] as usize * 256 + self.hdr[3] as usize
        } else if ext == 8 {
            let n: u64 = self.hdr[2] as u64 * 0x100000000000000 + self.hdr[3] as u64
                * 0x1000000000000 + self.hdr[4] as u64 * 0x10000000000 + self.hdr[5] as u64
                * 0x100000000 + self.hdr[6] as u64 * 0x1000000 + self.hdr[7] as u64 * 0x10000
                + self.hdr[8] as u64 * 0x100 + self.hdr[9] as u64;
            n as usize
        } else {
            len7 as usize
        };
        assert(self.payload_len == payload_len(h));
        self.payload_have = 0;
        self.dbuf.clear();
        self.stage = if self.opcode == 0x9 || self.opcode == 0x8 {
            Stage::Ctl
        } else if self.payload_len > out.len() {
            Stage::Discard
        } else {
            Stage::Payload
        };
        proof {
            assert(self.hdr@ =~= h.take(self.hdr@.len() as int));
            assert(body(h) =~= Seq::<u8>::empty());
            assert(self.dbuf@ =~= body(h));
            assert(out@.take(0) =~= body(h));
        }
        if self.payload_len == 0 {
            return self.finish_frame(out);
        }
        Ok(None)
    }

    fn payload_byte(&mut self, b: u8, out: &mut [u8]) -> (r: Result<
        Option<(WsFrameKind, usize)>,
        WsError,
    >)
        requires
            old(self).wf(),
            old(self).stage != Stage::Hdr,
            old(self).reads_into(old(out)@),
        ensures
            final(self).wf(),
            final(out)@.len() == old(out)@.len(),
            final(self).reads_into(final(out)@),
            ({
                let (w, got) = step(old(self).rx(), old(out)@.len(), b);
                &&& final(self).rx() == w
                &&& reported(r, got, final(out)@)
                &&& (final(self).queued(), final(self).mask()) == answer(
                    old(self).queued(),
                    old(self).mask(),
                    got,
                )
            }),
    {
        let ghost before = self.seen@;
        let ghost h = self.seen@.push(b);
        self.seen = Ghost(h);
        proof {
            assert(h.take(before.len() as int) =~= before);
            lemma_header_stable(before, h);
            assert(h.take(self.hdr@.len() as int) =~= before.take(self.hdr@.len() as int));
            assert(body(h) =~= body(before).push(b));
        }
        match self.stage {
            Stage::Ctl => {
                self.dbuf.push(b);
                if self.dbuf.len() == self.payload_len || self.dbuf.len() == CONTROL_MAX {
                    return self.finish_frame(out);
                }
            },
            Stage::Payload => {
                let at = self.payload_have;
                out[at] = b;
                self.payload_have = at + 1;
                assert(out@.take(at + 1) =~= old(out)@.take(at as int).push(b));
                if self.payload_have == self.payload_len {
                    return self.finish_frame(out);
                }
            },
            _ => {
                self.payload_have = self.payload_have + 1;
                if self.payload_have == self.payload_len {
                    return self.finish_frame(out);
                }
            },
        }
        Ok(None)
    }

    /// Reads bytes from the peer until a frame is complete or the bytes are used up. `out`
    /// is the receive buffer, the same in every call. The first result tells how many
    /// bytes were taken; the second is what came out, `None` where more bytes are needed.
    pub fn next_frame(&mut self, data: &[u8], out: &mut [u8]) -> (r: (
        usize,
        Result<Option<(WsFrameKind, usize)>, WsError>,
    ))
        requires
            old(self).wf(),
            old(self).reads_into(old(out)@),
        ensures
            final(self).wf(),
            final(out)@.len() == old(out)@.len(),
            final(self).reads_into(final(out)@),
            r.0 == run(old(self).rx(), old(out)@.len(), data@).used,
            final(self).rx() == run(old(self).rx(), old(out)@.len(), data@).view,
            reported(r.1, run(old(self).rx(), old(out)@.len(), data@).got, final(out)@),
            (final(self).queued(), final(self).mask()) == answer(
                old(self).queued(),
                old(self).mask(),
                run(old(self).rx(), old(out)@.len(), data@).got,
            ),
    {
        let ghost cap = out@.len();
        let mut i: usize = 0;
        assert(data@.skip(0) =~= data@);
        while i < data.len()
            invariant
                i <= data@.len(),
                cap == old(out)@.len(),
                out@.len() == cap,
                self.wf(),
                self.reads_into(out@),
                self.queued() == old(self).queued(),
                self.mask() == old(self).mask(),
                ({
                    let all = run(old(self).rx(), cap, data@);
                    let rest = run(self.rx(), cap, data@.skip(i as int));
                    &&& all.used == i + rest.used
                    &&& all.view == rest.view
                    &&& all.got == rest.got
                }),
            decreases data@.len() - i,
        {
            let ghost rest = data@.skip(i as int);
            let b = data[i];
            assert(rest[0] == b);
            assert(rest.skip(1) =~= data@.skip(i + 1));
            let got = match self.stage {
                Stage::Hdr => self.header_byte(b, out),
                _ => self.payload_byte(b, out),
            };
            i = i + 1;
            match got {
                Ok(None) => {},
                _ => {
                    return (i, got);
                },
            }
        }
        (i, Ok(None))
    }

    /// Queues a text message.
    pub fn send_text(&mut self, text: &str)
        requires
            old(self).wf(),
        ensures
            final(self).wf(),
            final(self).rx() == old(self).rx(),
            forall|out: Seq<u8>| #[trigger]
                final(self).reads_into(out) == old(self).reads_into(out),
            final(self).queued() == old(self).queued() + client_frame(
                0x1,
                encode_utf8(text@),
                next_mask(old(self).mask()),
            ),
            final(self).mask() == next_mask(old(self).mask()),
    {
        self.send_raw(0x1, text.as_bytes())
    }

    /// Queues a binary message.
    pub fn send_binary(&mut self, data: &[u8])
        requires
            old(self).wf(),
        ensures
            final(self).wf(),
            final(self).rx() == old(self).rx(),
            forall|out: Seq<u8>| #[trigger]
                final(self).reads_into(out) == old(self).reads_into(out),
            final(self).queued() == old(self).queued() + client_frame(
                0x2,
                data@,
                next_mask(old(self).mask()),
            ),
            final(self).mask() == next_mask(old(self).mask()),
    {
        self.send_raw(0x2, data)
    }

    /// The bytes to write next.
    pub fn pending(&self) -> (r: &[u8])
        requires
            self.wf(),
        ensures
            r@ == self.queued(),
    {
        let n = self.tx_pending.len();
        let r = &self.tx_pending.as_slice()[self.tx_sent..n];
        assert(r@ =~= self.queued());
        r
    }

    /// The transport took `n` of the pending bytes. Taking none of them means that the
    /// connection is gone.
    pub fn flush_pending(&mut self, n: usize) -> (r: Result<(), WsError>)
        requires
            old(self).wf(),
            old(self).queued().len() > 0,
            n <= old(self).queued().len(),
        ensures
            final(self).wf(),
            final(self).rx() == old(self).rx(),
            forall|out: Seq<u8>| #[trigger]
                final(self).reads_into(out) == old(self).reads_into(out),
            final(self).mask() == old(self).mask(),
            n == 0 ==> r == Err::<(), WsError>(WsError::Closed) && final(self).queued()
                == Seq::<u8>::empty(),
            n > 0 ==> r == Ok::<(), WsError>(()),
            n > 0 ==> final(self).queued() == old(self).queued().skip(n as int),
    {
        let len = self.tx_pending.len();
        if n == 0 {
            self.tx_pending.clear();
            self.tx_sent = 0;
            assert(self.queued() =~= Seq::<u8>::empty());
            return Err(WsError::Closed);
        }
        let ghost all = self.tx_pending@;
        self.tx_sent = self.tx_sent + n;
        assert(all.skip(self.tx_sent as int) =~= old(self).queued().skip(n as int));
        if self.tx_sent == len {
            self.tx_pending.clear();
            self.tx_sent = 0;
            assert(self.queued() =~= all.skip(all.len() as int));
        }
        Ok(())
    }
}

// ---------- the opening handshake ----------

/// The sixteen key bytes that a generator state gives: its next four words.
pub open spec fn handshake_key(m: u32) -> Seq<u8> {
    let a = next_mask(m);
    let b = next_mask(a);
    let c = next_mask(b);
    let d = next_mask(c);
    word_bytes(a) + word_bytes(b) + word_bytes(c) + word_bytes(d)
}

/// An IPv4 address in dotted form.
pub open spec fn dotted(ip: Seq<u8>) -> Seq<char> {
    text::decimal(ip[0] as nat) + "."@ + text::decimal(ip[1] as nat) + "."@ + text::decimal(
        ip[2] as nat,
    ) + "."@ + text::decimal(ip[3] as nat)
}

/// The request that asks the server to switch to WebSocket.
pub open spec fn upgrade_text(path: Seq<char>, ip: Seq<u8>, m: u32) -> Seq<char> {
    "GET "@ + path + " HTTP/1.1\r\nHost: "@ + dotted(ip)
        + "\r\nUpgrade: websocket\r\nConnection: Upgrade\r\nSec-WebSocket-Key: "@
        + base64::encoded(handshake_key(m)) + "\r\nSec-WebSocket-Version: 13\r\n\r\n"@
}

fn push_word(key: &mut Vec<u8>, m: u32)
    ensures
        final(key)@ == old(key)@ + word_bytes(m),
{
    let w = word_to_bytes(m);
    key.push(w[0]);
    key.push(w[1]);
    key.push(w[2]);
    key.push(w[3]);
    assert(key@ =~= old(key)@ + word_bytes(m));
}

fn step_seed(m: u32) -> (r: u32)
    ensures
        r == next_mask(m),
{
    m.wrapping_mul(1664525).wrapping_add(1013904223)
}

fn push_dotted(out: &mut String, ip: &[u8; 4])
    ensures
        final(out)@ == old(out)@ + dotted(ip@),
{
    push_decimal(out, ip[0] as u32);
    out.push_str(".");
    push_decimal(out, ip[1] as u32);
    out.push_str(".");
    push_decimal(out, ip[2] as u32);
    out.push_str(".");
    push_decimal(out, ip[3] as u32);
    assert(out@ =~= old(out)@ + dotted(ip@));
}

/// The end of a response head: a blank line.
pub open spec fn ends_head(d: Seq<u8>) -> bool {
    &&& d.len() >= 4
    &&& d[d.len() - 4] == 0x0d
    &&& d[d.len() - 3] == 0x0a
    &&& d[d.len() - 2] == 0x0d
    &&& d[d.len() - 1] == 0x0a
}

/// Longest response head without its end that is waited for.
pub const HEAD_MAX: usize = 4096;

/// Whether a response head accepts the upgrade.
pub open spec fn accepts(head: Seq<u8>) -> bool {
    &&& valid_utf8(head)
    &&& encode_utf8("HTTP/1.1 101"@).is_prefix_of(head) || encode_utf8(
        "HTTP/1.0 101"@,
    ).is_prefix_of(head)
}

/// What the head read so far says: nothing yet, or whether the connection is open.
pub open spec fn verdict(head: Seq<u8>) -> Option<Result<(), WsError>> {
    if ends_head(head) {
        if accepts(head) {
            Some(Ok(()))
        } else {
            Some(Err(WsError::HandshakeFailed))
        }
    } else if head.len() > HEAD_MAX {
        Some(Err(WsError::HandshakeFailed))
    } else {
        None
    }
}

/// How many bytes of `d` are read after `head`, up to and with the first that brings a
/// verdict.
pub open spec fn head_used(head: Seq<u8>, d: Seq<u8>) -> nat
    decreases d.len(),
{
    if d.len() == 0 {
        0
    } else if verdict(head.push(d[0])) is Some {
        1
    } else {
        1 + head_used(head.push(d[0]), d.skip(1))
    }
}

fn is_valid_utf8(s: &[u8]) -> (r: bool)
    ensures
        r == valid_utf8(s@),
{
    let n = s.len();
    let mut i: usize = 0;
    assert(s@.skip(0) =~= s@);
    while i < n
        invariant
            i <= n == s@.len(),
            valid_utf8(s@) == valid_utf8(s@.skip(i as int)),
        decreases n - i,
    {
        match decode_scalar(s, i) {
            Some((_c, k)) => {
                assert(pop_first_scalar(s@.skip(i as int)) =~= s@.skip(i + k));
                i = i + k;
            },
            None => {
                return false;
            },
        }
    }
    assert(s@.skip(i as int) =~= Seq::<u8>::empty());
    true
}

fn has_prefix(s: &[u8], p: &[u8]) -> (r: bool)
    ensures
        r == p@.is_prefix_of(s@),
{
    if p.len() > s.len() {
        return false;
    }
    let mut i: usize = 0;
    while i < p.len()
        invariant
            i <= p@.len() <= s@.len(),
            forall|k: int| 0 <= k < i ==> p@[k] == s@[k],
        decreases p@.len() - i,
    {
        if p[i] != s[i] {
            return false;
        }
        i = i + 1;
    }
    assert(p@ =~= s@.subrange(0, p@.len() as int));
    true
}

fn judge(head: &[u8]) -> (r: Option<Result<(), WsError>>)
    ensures
        r == verdict(head@),
{
    let n = head.len();
    if n >= 4 && head[n - 4] == 0x0d && head[n - 3] == 0x0a && head[n - 2] == 0x0d && head[n - 1]
        == 0x0a {
        if is_valid_utf8(head) && (has_prefix(head, "HTTP/1.1 101".as_bytes()) || has_prefix(
            head,
            "HTTP/1.0 101".as_bytes(),
        )) {
            Some(Ok(()))
        } else {
            Some(Err(WsError::HandshakeFailed))
        }
    } else if n > HEAD_MAX {
        Some(Err(WsError::HandshakeFailed))
    } else {
        None
    }
}

/// Reads on in the server's answer to the upgrade request. `head` gathers what has been
/// read. The first result tells how many bytes were taken: nothing behind the head is
/// touched. The second is the verdict, once there is one.
pub fn read_head(head: &mut Vec<u8>, data: &[u8]) -> (r: (usize, Option<Result<(), WsError>>))
    requires
        verdict(old(head)@) is None,
    ensures
        r.0 == head_used(old(head)@, data@),
        r.0 <= data@.len(),
        final(head)@ == old(head)@ + data@.take(r.0 as int),
        r.1 == verdict(final(head)@),
        r.1 is None ==> r.0 == data@.len(),
{
    let mut i: usize = 0;
    assert(data@.skip(0) =~= data@);
    assert(head@ =~= old(head)@ + data@.take(0));
    while i < data.len()
        invariant
            i <= data@.len(),
            head@ == old(head)@ + data@.take(i as int),
            verdict(head@) is None,
            head_used(old(head)@, data@) == i + head_used(head@, data@.skip(i as int)),
        decreases data@.len() - i,
    {
        let ghost before = head@;
        head.push(data[i]);
        assert(data@.skip(i as int).skip(1) =~= data@.skip(i + 1));
        assert(head@ =~= old(head)@ + data@.take(i + 1));
        i = i + 1;
        let v = judge(head.as_slice());
        if v.is_some() {
            return (i, v);
        }
    }
    (i, None)
}

impl WsClient {
    /// A client for a new connection, at the start of the stream.
    pub fn connect(mask_seed: u32) -> (c: Self)
        ensures
            c.wf(),
            c.rx() == at_frame_start(None),
            forall|out: Seq<u8>| #[trigger] c.reads_into(out),
            c.queued() == Seq::<u8>::empty(),
            c.mask() == mask_seed,
    {
        let c = WsClient {
            stage: Stage::Hdr,
            hdr: Vec::new(),
            opcode: 0,
            payload_len: 0,
            payload_have: 0,
            dbuf: Vec::new(),
            frag: Vec::new(),
            frag_active: false,
            mask_state: mask_seed,
            tx_pending: Vec::new(),
            tx_sent: 0,
            seen: Ghost(Seq::empty()),
        };
        assert(c.queued() =~= Seq::<u8>::empty());
        c
    }

    /// Forgets the old connection: half-read frames, fragments and unsent bytes. The mask
    /// generator goes on.
    pub fn reconnect(&mut self)
        requires
            old(self).wf(),
        ensures
            final(self).wf(),
            final(self).rx() == at_frame_start(None),
            forall|out: Seq<u8>| #[trigger] final(self).reads_into(out),
            final(self).queued() == Seq::<u8>::empty(),
            final(self).mask() == old(self).mask(),
    {
        self.tx_pending.clear();
        self.tx_sent = 0;
        self.frag.clear();
        self.frag_active = false;
        self.reset_frame();
        assert(self.queued() =~= Seq::<u8>::empty());
    }

    /// The upgrade request for `path` on the server at `ip`. The mask generator stays where
    /// it is.
    pub fn handshake(&self, ip: &[u8; 4], path: &str) -> (req: String)
        ensures
            req@ == upgrade_text(path@, ip@, self.mask()),
    {
        let mut key: Vec<u8> = Vec::new();
        let a = step_seed(self.mask_state);
        let b = step_seed(a);
        let c = step_seed(b);
        let d = step_seed(c);
        push_word(&mut key, a);
        push_word(&mut key, b);
        push_word(&mut key, c);
        push_word(&mut key, d);
        assert(key@ =~= handshake_key(self.mask_state));
        let mut key_b64 = String::new();
        b64_encode_short(key.as_slice(), &mut key_b64);
        let mut req = String::new();
        req.push_str("GET ");
        req.push_str(path);
        req.push_str(" HTTP/1.1\r\nHost: ");
        push_dotted(&mut req, ip);
        req.push_str("\r\nUpgrade: websocket\r\nConnection: Upgrade\r\nSec-WebSocket-Key: ");
        req.push_str(key_b64.as_str());
        req.push_str("\r\nSec-WebSocket-Version: 13\r\n\r\n");
        assert(req@ =~= upgrade_text(path@, ip@, self.mask_state));
        req
    }
}

// ---------- laws of the stream ----------

/// Reading takes no more bytes than there are, and all of them where nothing comes out.
pub proof fn law_progress(v: RxView, cap: nat, d: Seq<u8>)
    ensures
        run(v, cap, d).used <= d.len(),
        run(v, cap, d).got is None ==> run(v, cap, d).used == d.len(),
        d.len() > 0 ==> run(v, cap, d).used > 0,
    decreases d.len(),
{
    if d.len() > 0 {
        let (w, got) = step(v, cap, d[0]);
        if got is None {
            law_progress(w, cap, d.skip(1));
        }
    }
}

/// Reading may stop anywhere and go on later: bytes handed over in two pieces give what
/// they give in one.
pub proof fn law_split_reading(v: RxView, cap: nat, a: Seq<u8>, b: Seq<u8>)
    ensures
        run(v, cap, a).got is Some ==> run(v, cap, a + b) == run(v, cap, a),
        run(v, cap, a).got is None ==> run(v, cap, a + b) == (Run {
            used: a.len() + run(run(v, cap, a).view, cap, b).used,
            ..run(run(v, cap, a).view, cap, b)
        }),
    decreases a.len(),
{
    if a.len() == 0 {
        assert(a + b =~= b);
    } else {
        let (w, got) = step(v, cap, a[0]);
        assert((a + b)[0] == a[0]);
        assert((a + b).skip(1) =~= a.skip(1) + b);
        if got is None {
            law_split_reading(w, cap, a.skip(1), b);
        }
    }
}

/// What reading gives where the whole frame `f` comes first and `rest` behind it.
pub open spec fn after_frame(frag: Option<Seq<u8>>, cap: nat, f: Seq<u8>, rest: Seq<u8>) -> Run {
    let (left, got) = arrival(frag, f, !is_control(f) && payload_len(f) > cap, cap);
    if got is Some {
        Run { used: f.len(), view: at_frame_start(left), got }
    } else {
        let r = run(at_frame_start(left), cap, rest);
        Run { used: f.len() + r.used, ..r }
    }
}

proof fn lemma_frame_from(frag: Option<Seq<u8>>, cap: nat, f: Seq<u8>, rest: Seq<u8>, i: int)
    requires
        frame_len(f) == Some(f.len()),
        0 <= i < f.len(),
    ensures
        ({
            let v = RxView {
                seen: f.take(i),
                skipping: header_len(f.take(i)) is Some && !is_control(f) && payload_len(f) > cap,
                frag,
            };
            let r = run(v, cap, f.skip(i) + rest);
            let all = after_frame(frag, cap, f, rest);
            &&& i + r.used == all.used
            &&& r.view == all.view
            &&& r.got == all.got
        }),
    decreases f.len() - i,
{
    let skip = !is_control(f) && payload_len(f) > cap;
    let v = RxView { seen: f.take(i), skipping: header_len(f.take(i)) is Some && skip, frag };
    let d = f.skip(i) + rest;
    let t = f.take(i + 1);
    let hl = header_len(f)->0;
    assert(d[0] == f[i]);
    assert(f.take(i).push(f[i]) =~= t);
    assert(d.skip(1) =~= f.skip(i + 1) + rest);
    if i + 1 >= 2 {
        assert(t[1] == f[1]);
    }
    if i >= 2 {
        assert(f.take(i)[1] == f[1]);
    }
    if i + 1 >= hl {
        assert(header_len(t) == Some(hl));
        assert(f.take(t.len() as int) =~= t);
        lemma_header_stable(t, f);
        if i + 1 == f.len() {
            assert(t =~= f);
            assert(f.skip(i + 1) + rest =~= rest);
        } else {
            lemma_frame_from(frag, cap, f, rest, i + 1);
        }
    } else {
        assert(header_len(t) is None);
        lemma_frame_from(frag, cap, f, rest, i + 1);
    }
}

/// A whole frame at the start of the bytes is taken in one piece: it has its effect, and
/// reading goes on behind it.
pub proof fn law_whole_frame(frag: Option<Seq<u8>>, cap: nat, f: Seq<u8>, rest: Seq<u8>)
    requires
        frame_len(f) == Some(f.len()),
    ensures
        run(at_frame_start(frag), cap, f + rest) == after_frame(frag, cap, f, rest),
{
    assert(f.take(0) =~= Seq::<u8>::empty());
    assert(f.skip(0) =~= f);
    lemma_frame_from(frag, cap, f, rest, 0);
}

/// The length field of a frame from the server, in its shortest form.
pub open spec fn server_length(n: nat) -> Seq<u8> {
    if n < 126 {
        seq![n as u8]
    } else if n <= 0xffff {
        seq![126u8] + length_field(n).skip(1)
    } else {
        seq![127u8] + length_field(n).skip(1)
    }
}

/// A frame from the server.
pub open spec fn server_frame(op: u8, last: bool, p: Seq<u8>) -> Seq<u8> {
    seq![
        (if last {
            0x80 + op
        } else {
            op as int
        }) as u8,
    ] + server_length(p.len()) + p
}

proof fn lemma_first_byte(op: u8)
    by (bit_vector)
    requires
        op < 16,
    ensures
        (0x80 + op) as u8 & 0x0f == op,
        (0x80 + op) as u8 & 0x80 != 0,
        op & 0x0f == op,
        op & 0x80 == 0,
{
}

proof fn lemma_length_bits(n: u8)
    by (bit_vector)
    requires
        n < 128,
    ensures
        n & 0x7f == n,
{
}

proof fn lemma_length_digits(n: nat)
    requires
        n < 0x10000000000000000,
    ensures
        (n / 0x100000000000000 % 256) * 0x100000000000000 + (n / 0x1000000000000 % 256)
            * 0x1000000000000 + (n / 0x10000000000 % 256) * 0x10000000000 + (n / 0x100000000 % 256)
            * 0x100000000 + (n / 0x1000000 % 256) * 0x1000000 + (n / 0x10000 % 256) * 0x10000 + (n
            / 0x100 % 256) * 0x100 + n % 256 == n,
{
    let a = n / 0x100;
    let b = n / 0x10000;
    let c = n / 0x1000000;
    let d = n / 0x100000000;
    let e = n / 0x10000000000;
    let f = n / 0x1000000000000;
    let g = n / 0x100000000000000;
    assert(n == a * 256 + n % 256);
    assert(a == b * 256 + a % 256);
    assert(b == c * 256 + b % 256);
    assert(c == d * 256 + c % 256);
    assert(d == e * 256 + d % 256);
    assert(e == f * 256 + e % 256);
    assert(f == g * 256 + f % 256);
    assert(g < 256);
}

/// A frame built by the server is one frame: header, length and payload are what was put
/// in.
pub proof fn law_server_frame(op: u8, last: bool, p: Seq<u8>)
    requires
        op < 16,
        p.len() <= usize::MAX,
        op == 0x8 || op == 0x9 ==> p.len() <= 125,
    ensures
        ({
            let f = server_frame(op, last, p);
            &&& frame_len(f) == Some(f.len())
            &&& opcode(f) == op
            &&& is_final(f) == last
            &&& payload_len(f) == p.len()
            &&& body(f) == p
        }),
{
    let f = server_frame(op, last, p);
    let n = p.len();
    lemma_first_byte(op);
    if n < 126 {
        lemma_length_bits(n as u8);
        assert(f[1] == n as u8);
        assert(f.skip(2) =~= p);
    } else if n <= 0xffff {
        lemma_length_bits(126);
        assert(f[1] == 126);
        assert(f[2] == (n / 256) as u8);
        assert(f[3] == (n % 256) as u8);
        assert(payload_len(f) == n);
        assert(f.skip(4) =~= p);
    } else {
        lemma_length_bits(127);
        assert(f[1] == 127);
        assert(f[2] == (n / 0x100000000000000 % 256) as u8);
        assert(f[3] == (n / 0x1000000000000 % 256) as u8);
        assert(f[4] == (n / 0x10000000000 % 256) as u8);
        assert(f[5] == (n / 0x100000000 % 256) as u8);
        assert(f[6] == (n / 0x1000000 % 256) as u8);
        assert(f[7] == (n / 0x10000 % 256) as u8);
        assert(f[8] == (n / 0x100 % 256) as u8);
        assert(f[9] == (n % 256) as u8);
        lemma_length_digits(n);
        assert(long_length(f) == n);
        assert(payload_len(f) == n);
        assert(f.skip(10) =~= p);
    }
}

/// A text message that fits the receive buffer is delivered as it was sent.
pub proof fn law_text_delivered(frag: Option<Seq<u8>>, cap: nat, p: Seq<u8>, rest: Seq<u8>)
    requires
        p.len() <= cap <= usize::MAX,
    ensures
        run(at_frame_start(frag), cap, server_frame(0x1, true, p) + rest) == (Run {
            used: server_frame(0x1, true, p).len(),
            view: at_frame_start(frag),
            got: Some(Received::Frame(WsFrameKind::Text, p)),
        }),
{
    law_server_frame(0x1, true, p);
    law_whole_frame(frag, cap, server_frame(0x1, true, p), rest);
}

/// A frame that does not fit is reported once and dropped whole: reading goes on with
/// the frame behind it.
pub proof fn law_oversize_dropped(
    frag: Option<Seq<u8>>,
    cap: nat,
    op: u8,
    last: bool,
    p: Seq<u8>,
    rest: Seq<u8>,
)
    requires
        cap < p.len() <= usize::MAX,
        op < 16,
        op != 0x8,
        op != 0x9,
    ensures
        run(at_frame_start(frag), cap, server_frame(op, last, p) + rest) == (Run {
            used: server_frame(op, last, p).len(),
            view: at_frame_start(frag),
            got: Some(Received::TooLarge),
        }),
{
    law_server_frame(op, last, p);
    law_whole_frame(frag, cap, server_frame(op, last, p), rest);
}

/// A frame that is neither text nor binary nor a continuation, ping or close is dropped
/// whole: the stream reads as if it had not been there, also in the middle of a fragmented
/// message.
pub proof fn law_reserved_dropped(
    frag: Option<Seq<u8>>,
    cap: nat,
    op: u8,
    last: bool,
    p: Seq<u8>,
    rest: Seq<u8>,
)
    requires
        p.len() <= cap <= usize::MAX,
        3 <= op <= 7 || 10 <= op <= 15,
    ensures
        run(at_frame_start(frag), cap, server_frame(op, last, p) + rest) == (Run {
            used: server_frame(op, last, p).len() + run(at_frame_start(frag), cap, rest).used,
            ..run(at_frame_start(frag), cap, rest)
        }),
{
    law_server_frame(op, last, p);
    law_whole_frame(frag, cap, server_frame(op, last, p), rest);
}

/// A ping is answered by a pong with the same payload, and disturbs nothing else.
pub proof fn law_ping_answered(
    frag: Option<Seq<u8>>,
    cap: nat,
    p: Seq<u8>,
    rest: Seq<u8>,
    queued: Seq<u8>,
    mask: u32,
)
    requires
        p.len() <= 125,
    ensures
        ({
            let r = run(at_frame_start(frag), cap, server_frame(0x9, true, p) + rest);
            &&& r.used == server_frame(0x9, true, p).len()
            &&& r.view == at_frame_start(frag)
            &&& answer(queued, mask, r.got).0 == queued + client_frame(0xa, p, next_mask(mask))
        }),
{
    law_server_frame(0x9, true, p);
    law_whole_frame(frag, cap, server_frame(0x9, true, p), rest);
}

/// A close is answered by a close, and ends the connection.
pub proof fn law_close_answered(
    frag: Option<Seq<u8>>,
    cap: nat,
    p: Seq<u8>,
    rest: Seq<u8>,
    queued: Seq<u8>,
    mask: u32,
)
    requires
        p.len() <= 125,
    ensures
        ({
            let r = run(at_frame_start(frag), cap, server_frame(0x8, true, p) + rest);
            &&& r.used == server_frame(0x8, true, p).len()
            &&& r.got == Some(Received::Closed)
            &&& answer(queued, mask, r.got).0 == queued + client_frame(
                0x8,
                Seq::empty(),
                next_mask(mask),
            )
        }),
{
    law_server_frame(0x8, true, p);
    law_whole_frame(frag, cap, server_frame(0x8, true, p), rest);
}

/// A frame that is queued while another is half written comes behind it, whole: it does not
/// matter how much the transport had taken before.
pub proof fn law_no_frame_cut_short(queued: Seq<u8>, taken: nat, op: u8, p: Seq<u8>, m: u32)
    requires
        taken <= queued.len(),
    ensures
        queued.skip(taken as int) + client_frame(op, p, m) == (queued + client_frame(
            op,
            p,
            m,
        )).skip(taken as int),
{
    assert(queued.skip(taken as int) + client_frame(op, p, m) =~= (queued + client_frame(
        op,
        p,
        m,
    )).skip(taken as int));
}

/// The continuation frames of a message, the last of them final.
pub open spec fn continuations(parts: Seq<Seq<u8>>) -> Seq<u8>
    decreases parts.len(),
{
    if parts.len() == 0 {
        Seq::empty()
    } else {
        server_frame(0x0, parts.len() == 1, parts[0]) + continuations(parts.drop_first())
    }
}

/// All parts of a message in a row.
pub open spec fn joined(parts: Seq<Seq<u8>>) -> Seq<u8>
    decreases parts.len(),
{
    if parts.len() == 0 {
        Seq::empty()
    } else {
        parts[0] + joined(parts.drop_first())
    }
}

proof fn lemma_continuations(acc: Seq<u8>, cap: nat, parts: Seq<Seq<u8>>, rest: Seq<u8>)
    requires
        parts.len() > 0,
        (acc + joined(parts)).len() <= cap <= usize::MAX,
    ensures
        run(at_frame_start(Some(acc)), cap, continuations(parts) + rest) == (Run {
            used: continuations(parts).len(),
            view: at_frame_start(None),
            got: Some(Received::Frame(WsFrameKind::Text, acc + joined(parts))),
        }),
    decreases parts.len(),
{
    let p = parts[0];
    let more = parts.drop_first();
    let last = parts.len() == 1;
    let f = server_frame(0x0, last, p);
    law_server_frame(0x0, last, p);
    law_whole_frame(Some(acc), cap, f, continuations(more) + rest);
    assert(continuations(parts) + rest =~= f + (continuations(more) + rest));
    if last {
        assert(more =~= Seq::<Seq<u8>>::empty());
        assert(joined(more) =~= Seq::<u8>::empty());
        assert(acc + joined(parts) =~= acc + p);
        assert(continuations(parts) =~= f);
    } else {
        assert((acc + p) + joined(more) =~= acc + joined(parts));
        lemma_continuations(acc + p, cap, more, rest);
    }
}

/// A message sent in fragments is delivered as one text, if it fits the receive buffer.
pub proof fn law_fragments_joined(
    cap: nat,
    first: Seq<u8>,
    parts: Seq<Seq<u8>>,
    rest: Seq<u8>,
)
    requires
        parts.len() > 0,
        (first + joined(parts)).len() <= cap <= usize::MAX,
    ensures
        run(
            at_frame_start(None),
            cap,
            server_frame(0x1, false, first) + continuations(parts) + rest,
        ) == (Run {
            used: (server_frame(0x1, false, first) + continuations(parts)).len(),
            view: at_frame_start(None),
            got: Some(Received::Frame(WsFrameKind::Text, first + joined(parts))),
        }),
{
    let f = server_frame(0x1, false, first);
    law_server_frame(0x1, false, first);
    law_whole_frame(None, cap, f, continuations(parts) + rest);
    assert(f + continuations(parts) + rest =~= f + (continuations(parts) + rest));
    assert(Seq::<u8>::empty() + first =~= first);
    lemma_continuations(first, cap, parts, rest);
}

proof fn lemma_masked_length_bits(n: u8)
    by (bit_vector)
    requires
        n < 128,
    ensures
        (0x80 + n) as u8 & 0x7f == n,
{
}

proof fn lemma_unmask(p: Seq<u8>, k: Seq<u8>)
    ensures
        masked(masked(p, k), k) == p,
{
    assert forall|i: int| 0 <= i < p.len() implies masked(masked(p, k), k)[i] == p[i] by {
        let x = p[i];
        let y = k[i % 4];
        assert(x ^ y ^ y == x) by (bit_vector);
    }
    assert(masked(masked(p, k), k) =~= p);
}

/// The server reads from a frame of the client what the client put in: the opcode, the
/// length, and, with the four mask bytes behind the header, the payload.
pub proof fn law_client_frame(op: u8, p: Seq<u8>, m: u32)
    requires
        op < 16,
        p.len() <= usize::MAX,
    ensures
        ({
            let f = client_frame(op, p, m);
            let h = header_len(f)->0 as int;
            &&& header_len(f) is Some
            &&& opcode(f) == op
            &&& is_final(f)
            &&& payload_len(f) == p.len()
            &&& f.len() == h + 4 + p.len()
            &&& masked(f.skip(h + 4), f.subrange(h, h + 4)) == p
        }),
{
    let f = client_frame(op, p, m);
    let n = p.len();
    let k = word_bytes(m);
    lemma_first_byte(op);
    lemma_unmask(p, k);
    if n < 126 {
        lemma_masked_length_bits(n as u8);
        assert(f[1] == (0x80 + n) as u8);
        assert(f.skip(6) =~= masked(p, k));
        assert(f.subrange(2, 6) =~= k);
    } else if n <= 0xffff {
        lemma_masked_length_bits(126);
        assert(f[1] == 0xfe);
        assert(f[2] == (n / 256) as u8);
        assert(f[3] == (n % 256) as u8);
        assert(f.skip(8) =~= masked(p, k));
        assert(f.subrange(4, 8) =~= k);
    } else {
        lemma_masked_length_bits(127);
        assert(f[1] == 0xff);
        assert(f[2] == (n / 0x100000000000000 % 256) as u8);
        assert(f[3] == (n / 0x1000000000000 % 256) as u8);
        assert(f[4] == (n / 0x10000000000 % 256) as u8);
        assert(f[5] == (n / 0x100000000 % 256) as u8);
        assert(f[6] == (n / 0x1000000 % 256) as u8);
        assert(f[7] == (n / 0x10000 % 256) as u8);
        assert(f[8] == (n / 0x100 % 256) as u8);
        assert(f[9] == (n % 256) as u8);
        lemma_length_digits(n);
        assert(long_length(f) == n);
        assert(f.skip(14) =~= masked(p, k));
        assert(f.subrange(10, 14) =~= k);
    }
}

/// The four bytes of a word, the lowest first.
pub proof fn law_word_bytes(m: u32)
    ensures
        ({
            let b = word_bytes(m);
            &&& b.len() == 4
            &&& b[0] + b[1] * 256 + b[2] * 65536 + b[3] * 16777216 == m
        }),
{
}

/// A binary message that fits the receive buffer is delivered as it was sent, as binary.
pub proof fn law_binary_delivered(frag: Option<Seq<u8>>, cap: nat, p: Seq<u8>, rest: Seq<u8>)
    requires
        p.len() <= cap <= usize::MAX,
    ensures
        run(at_frame_start(frag), cap, server_frame(0x2, true, p) + rest) == (Run {
            used: server_frame(0x2, true, p).len(),
            view: at_frame_start(frag),
            got: Some(Received::Frame(WsFrameKind::Binary, p)),
        }),
{
    law_server_frame(0x2, true, p);
    law_whole_frame(frag, cap, server_frame(0x2, true, p), rest);
}

/// A fragment goes behind those before it, a first one starts over, and one that belongs to
/// nothing is dropped. Fragments that together no longer fit are reported once and given up.
pub proof fn law_fragments_gather(
    frag: Option<Seq<u8>>,
    cap: nat,
    op: u8,
    p: Seq<u8>,
    rest: Seq<u8>,
)
    requires
        p.len() <= cap <= usize::MAX,
        op <= 2,
    ensures
        ({
            let f = server_frame(op, false, p);
            let r = run(at_frame_start(frag), cap, f + rest);
            let onto = |v: Option<Seq<u8>>|
                Run { used: f.len() + run(at_frame_start(v), cap, rest).used, ..run(
                    at_frame_start(v),
                    cap,
                    rest,
                ) };
            &&& op > 0 ==> r == onto(Some(p))
            &&& op == 0 && frag is None ==> r == onto(None)
            &&& op == 0 ==> (frag matches Some(a) ==> {
                &&& a.len() + p.len() <= cap ==> r == onto(Some(a + p))
                &&& a.len() + p.len() > cap ==> r == (Run {
                    used: f.len(),
                    view: at_frame_start(None),
                    got: Some(Received::TooLarge),
                })
            })
        }),
{
    law_server_frame(op, false, p);
    law_whole_frame(frag, cap, server_frame(op, false, p), rest);
    assert(Seq::<u8>::empty() + p =~= p);
}

/// Only a ping and a close are answered.
pub proof fn law_only_control_is_answered(queued: Seq<u8>, mask: u32, got: Option<Received>)
    ensures
        got is None || got == Some(Received::TooLarge) ==> answer(queued, mask, got) == (
            queued,
            mask,
        ),
        got matches Some(Received::Frame(k, _p)) ==> (k != WsFrameKind::Ping ==> answer(
            queued,
            mask,
            got,
        ) == (queued, mask)),
        queued.is_prefix_of(answer(queued, mask, got).0),
{
    let a = answer(queued, mask, got).0;
    assert(queued =~= a.subrange(0, queued.len() as int));
}

proof fn lemma_head_used(head: Seq<u8>, d: Seq<u8>)
    ensures
        head_used(head, d) <= d.len(),
    decreases d.len(),
{
    if d.len() > 0 && verdict(head.push(d[0])) is None {
        lemma_head_used(head.push(d[0]), d.skip(1));
    }
}

/// The answer to the upgrade request may come in pieces: what is read of two pieces in a row
/// is what is read of them together, unless the first already decides.
pub proof fn law_head_in_pieces(head: Seq<u8>, a: Seq<u8>, b: Seq<u8>)
    requires
        verdict(head) is None,
    ensures
        head_used(head, a) <= a.len(),
        verdict(head + a.take(head_used(head, a) as int)) is Some ==> head_used(head, a + b)
            == head_used(head, a),
        verdict(head + a.take(head_used(head, a) as int)) is None ==> head_used(head, a) == a.len()
            && head_used(head, a + b) == a.len() + head_used(head + a, b),
    decreases a.len(),
{
    lemma_head_used(head, a);
    if a.len() == 0 {
        assert(a + b =~= b);
        assert(head + a =~= head);
        assert(head + a.take(0) =~= head);
    } else {
        let h = head.push(a[0]);
        assert((a + b)[0] == a[0]);
        assert((a + b).skip(1) =~= a.skip(1) + b);
        if verdict(h) is Some {
            assert(head + a.take(1) =~= h);
        } else {
            law_head_in_pieces(h, a.skip(1), b);
            let n = head_used(h, a.skip(1));
            assert(h + a.skip(1).take(n as int) =~= head + a.take((n + 1) as int));
            assert(h + a.skip(1) =~= head + a);
        }
    }
}

/// An answer is complete at its blank line. It opens the connection where its first line
/// says so, and no other answer does; one that goes on for too long without an end does not
/// either.
pub proof fn law_answer_is_judged(line: Seq<u8>, old: bool)
    requires
        valid_utf8(line),
        line.len() >= 16,
        line[line.len() - 4] == 0x0d && line[line.len() - 3] == 0x0a && line[line.len() - 2] == 0x0d
            && line[line.len() - 1] == 0x0a,
    ensures
        ({
            let yes = encode_utf8(
                if old {
                    "HTTP/1.0 101"@
                } else {
                    "HTTP/1.1 101"@
                },
            );
            &&& line.take(12) == yes ==> verdict(line) == Some(Ok::<(), WsError>(()))
            &&& line.take(12) != encode_utf8("HTTP/1.0 101"@) && line.take(12) != encode_utf8(
                "HTTP/1.1 101"@,
            ) ==> verdict(line) == Some(Err::<(), WsError>(WsError::HandshakeFailed))
        }),
{
    reveal_strlit("HTTP/1.0 101");
    reveal_strlit("HTTP/1.1 101");
    text::lemma_encode_ascii("HTTP/1.0 101"@);
    text::lemma_encode_ascii("HTTP/1.1 101"@);
    let a = encode_utf8("HTTP/1.0 101"@);
    let b = encode_utf8("HTTP/1.1 101"@);
    assert(a.len() == 12 && b.len() == 12);
    assert(line.take(12) =~= line.subrange(0, 12));
}

/// Without a blank line at its end an answer is waited for, up to 4096 bytes.
pub proof fn law_answer_is_awaited(head: Seq<u8>)
    requires
        head.len() < 4 || head[head.len() - 1] != 0x0a,
    ensures
        head.len() <= 4096 ==> verdict(head) is None,
        head.len() > 4096 ==> verdict(head) == Some(Err::<(), WsError>(WsError::HandshakeFailed)),
{
}

/// The request names the path, the server and a key of sixteen bytes, and ends with a blank
/// line; the key is what its text decodes to.
pub proof fn law_upgrade_request(path: Seq<char>, ip: Seq<u8>, m: u32)
    ensures
        ({
            let t = upgrade_text(path, ip, m);
            let n = t.len();
            &&& t.len() > path.len() + 4
            &&& t.subrange(0, 4) == "GET "@
            &&& t.subrange(4, 4 + path.len() as int) == path
            &&& t[4 + path.len() as int] == ' '
            &&& t[n - 4] == '\r' && t[n - 3] == '\n' && t[n - 2] == '\r' && t[n - 1] == '\n'
        }),
        handshake_key(m).len() == 16,
        base64::decoded(encode_utf8(base64::encoded(handshake_key(m)))) == handshake_key(m),
{
    reveal_strlit("GET ");
    reveal_strlit(" HTTP/1.1\r\nHost: ");
    reveal_strlit("\r\nSec-WebSocket-Version: 13\r\n\r\n");
    base64::law_decode_encode(handshake_key(m));
    let t = upgrade_text(path, ip, m);
    assert(t.subrange(0, 4) =~= "GET "@);
    assert(t.subrange(4, 4 + path.len() as int) =~= path);
}

/// What the caller gets: a message with its kind and its length, and its bytes at the start of
/// the receive buffer; each failure as itself; nothing where more bytes are needed.
pub proof fn law_report_to_caller(
    r: Result<Option<(WsFrameKind, usize)>, WsError>,
    kind: WsFrameKind,
    p: Seq<u8>,
    out: Seq<u8>,
)
    requires
        p.len() <= usize::MAX,
    ensures
        reported(r, Some(Received::Frame(kind, p)), out) ==> r == Ok::<
            Option<(WsFrameKind, usize)>,
            WsError,
        >(Some((kind, p.len() as usize))),
        reported(r, Some(Received::Frame(kind, p)), out) && kind != WsFrameKind::Ping ==> p.len()
            <= out.len() && out.take(p.len() as int) == p,
        reported(r, Some(Received::Closed), out) ==> r == Err::<
            Option<(WsFrameKind, usize)>,
            WsError,
        >(WsError::Closed),
        reported(r, Some(Received::TooLarge), out) ==> r == Err::<
            Option<(WsFrameKind, usize)>,
            WsError,
        >(WsError::TooLarge),
        reported(r, None, out) ==> r == Ok::<Option<(WsFrameKind, usize)>, WsError>(None),
{
}

} // verus!
