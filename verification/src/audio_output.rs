//! Playback: the ring of samples from the server, the pump that fills one DMA block after
//! another from it, and the plan of the signal tones.
//!
//! The pump never waits. A block is handed over once, and then only asked after until it
//! has left; where the ring runs dry, a block of silence keeps the channel going. What is
//! computed in floating point (resampling, the volume curve, the tones themselves) comes
//! in from outside.
use vstd::prelude::*;
use crate::config::{PLAY_WATERMARK_BYTES, SPK_SAMPLE_RATE};
use crate::ring::Ring;
use crate::ws::word_to_bytes;
use crate::{ring, ws};

verus! {

/// Samples in one DMA block.
pub const TX_CHUNK_SAMPLES: usize = 2048;

/// Bytes in one DMA block.
pub const TX_CHUNK_BYTES: usize = 8192;

/// Bytes of an output sample.
pub const SAMPLE_BYTES: usize = 4;

/// Ring sizes, tried in this order: 3 MB, 1.5 MB, 512 KB.
pub const RING_CAPS: [usize; 3] = [3145728, 1572864, 524288];

/// The size that is asked for after `tried` attempts have failed.
pub fn next_ring_size(tried: usize) -> (n: Option<usize>)
    ensures
        n == (if tried < 3 {
            Some(RING_CAPS[tried as int])
        } else {
            None
        }),
{
    if tried < 3 {
        Some(RING_CAPS[tried])
    } else {
        None
    }
}

/// The size of the ring, given which of the sizes can be had: the largest of them, or none.
pub open spec fn ring_choice(fits: Seq<bool>) -> usize {
    if fits[0] {
        RING_CAPS[0]
    } else if fits[1] {
        RING_CAPS[1]
    } else if fits[2] {
        RING_CAPS[2]
    } else {
        0
    }
}

/// The size of the ring, given which of the sizes can be had.
pub fn chosen_size(fits: &[bool; 3]) -> (n: usize)
    ensures
        n == ring_choice(fits@),
{
    if fits[0] {
        RING_CAPS[0]
    } else if fits[1] {
        RING_CAPS[1]
    } else if fits[2] {
        RING_CAPS[2]
    } else {
        0
    }
}

/// Time between two lines of the output log.
pub const LOG_INTERVAL_MS: u32 = 3000;

/// The state of playback.
#[verifier::ext_equal]
pub struct AudioView {
    pub cap: nat,
    /// What waits to be played, 16-bit samples, low byte first.
    pub data: Seq<u8>,
    /// A stream is open.
    pub streaming: bool,
    /// The stream is being played.
    pub started: bool,
    /// The server has sent all of it.
    pub done: bool,
    pub in_rate: u32,
    /// The last server sample that was resampled.
    pub r_prev: i16,
    /// Where between two server samples resampling goes on.
    pub r_phase: u32,
    pub volume: i32,
    /// A block is with the DMA.
    pub in_flight: bool,
    /// Bytes put out.
    pub total: usize,
    pub last_log_ms: u32,
    /// The block being handed over: how many of its bytes are sound, and whether it ends
    /// the stream.
    pub block: Option<(usize, bool)>,
}

/// What always holds of playback.
pub open spec fn wf_audio(v: AudioView) -> bool {
    &&& v.cap <= ring::RING_MAX
    &&& v.cap > 0 ==> v.data.len() < v.cap
    &&& v.cap == 0 ==> v.data.len() == 0
    &&& 0 <= v.volume <= 100
    &&& 8000 <= v.in_rate <= 48000
    &&& v.started ==> v.streaming
}

/// A new stream at the given rate; what was left of the old one is gone.
pub open spec fn stream_begun(v: AudioView, input_rate: u32) -> AudioView {
    AudioView {
        data: Seq::empty(),
        streaming: true,
        started: false,
        done: false,
        in_rate: if 8000 <= input_rate <= 48000 {
            input_rate
        } else {
            24000
        },
        r_prev: 0,
        r_phase: 0,
        in_flight: false,
        block: None,
        ..v
    }
}

/// Playback cut off.
pub open spec fn stopped(v: AudioView) -> AudioView {
    AudioView {
        data: Seq::empty(),
        streaming: false,
        started: false,
        done: false,
        r_prev: 0,
        r_phase: 0,
        in_flight: false,
        block: None,
        ..v
    }
}

/// Whether there is anything to play or to wait for.
pub open spec fn active(v: AudioView) -> bool {
    v.streaming || v.data.len() > 0
}

/// The bytes of 16-bit samples, low byte first.
pub open spec fn sample_bytes(s: Seq<i16>) -> Seq<u8>
    decreases s.len(),
{
    if s.len() == 0 {
        Seq::empty()
    } else {
        sample_bytes(s.drop_last()).push(low_byte(s.last())).push(high_byte(s.last()))
    }
}

pub open spec fn low_byte(s: i16) -> u8 {
    (s as u16 % 256) as u8
}

pub open spec fn high_byte(s: i16) -> u8 {
    (s as u16 / 256) as u8
}

/// The sample in two bytes, low byte first.
pub open spec fn sample_of(lo: u8, hi: u8) -> i16 {
    ((lo + hi * 256) as u16) as i16
}

/// A sample comes back from its two bytes.
pub proof fn law_sample_round_trip(s: i16)
    ensures
        sample_of(low_byte(s), high_byte(s)) == s,
{
    let u = s as u16;
    assert((u as i16) == s) by (bit_vector)
        requires
            u == s as u16,
    ;
}

/// What a block of server samples becomes at the output rate. A phase tells how far
/// resampling has come between two server samples; 0 is the start of a stream, and what
/// other values mean is up to the resampler.
pub struct Resampled {
    /// The samples at the output rate.
    pub outs: Vec<i16>,
    /// For each of them the server sample during which it is due.
    pub source: Vec<usize>,
    /// For each of them the phase at which it is due.
    pub phases: Vec<u32>,
    /// The phase after the whole block.
    pub end_phase: u32,
}

/// Whether a resampled block goes with `n` server samples.
pub open spec fn goes_with(r: Resampled, n: nat) -> bool {
    &&& r.source@.len() == r.outs@.len()
    &&& r.phases@.len() == r.outs@.len()
    &&& forall|i: int| 0 <= i < r.source@.len() ==> #[trigger] r.source@[i] < n
}

/// What became of a block of server samples.
#[derive(Debug, Clone, Copy, PartialEq, Eq, Structural)]
pub struct Fed {
    /// Bytes written to the ring.
    pub bytes: usize,
    /// Output samples written.
    pub outs: usize,
    /// Server samples used up; the rest of the block is lost.
    pub samples: usize,
}

/// Whether a block is taken at all.
pub open spec fn accepts(v: AudioView, mono16: Seq<u8>) -> bool {
    v.cap > 0 && mono16.len() > 0 && v.streaming
}

/// How many resampled samples there is room for.
pub open spec fn outs_taken(v: AudioView, outs: Seq<i16>) -> int {
    if outs.len() <= (v.cap - 1 - v.data.len()) / 2 {
        outs.len() as int
    } else {
        (v.cap - 1 - v.data.len()) / 2
    }
}

/// How many bytes there is room for.
pub open spec fn bytes_taken(v: AudioView, mono16: Seq<u8>) -> int {
    if mono16.len() <= v.cap - 1 - v.data.len() {
        mono16.len() as int
    } else {
        v.cap - 1 - v.data.len()
    }
}

/// Server samples used up while there is room for what they become.
pub open spec fn samples_used(v: AudioView, mono16: Seq<u8>, r: Resampled) -> int {
    let k = outs_taken(v, r.outs@);
    if k == r.outs@.len() {
        (mono16.len() / 2) as int
    } else {
        r.source@[k] + 1
    }
}

/// Playback after a block of server samples. Resampling goes on from where the room ran
/// out, or from the end of the block.
pub open spec fn fed(v: AudioView, mono16: Seq<u8>, r: Resampled) -> AudioView {
    if !accepts(v, mono16) {
        v
    } else if v.in_rate == SPK_SAMPLE_RATE {
        AudioView { data: v.data + mono16.take(bytes_taken(v, mono16)), ..v }
    } else {
        let k = outs_taken(v, r.outs@);
        let n = samples_used(v, mono16, r);
        AudioView {
            data: v.data + sample_bytes(r.outs@.take(k)),
            r_prev: if n > 0 {
                sample_of(mono16[2 * n - 2], mono16[2 * n - 1])
            } else {
                v.r_prev
            },
            r_phase: if mono16.len() < 2 {
                v.r_phase
            } else if k == r.outs@.len() {
                r.end_phase
            } else {
                r.phases@[k]
            },
            ..v
        }
    }
}

/// The stream starts to play once enough is buffered, or once there is no more to come.
pub open spec fn with_start(v: AudioView) -> AudioView {
    AudioView {
        started: v.started || (v.streaming && (v.done || v.data.len() >= PLAY_WATERMARK_BYTES)),
        ..v
    }
}

/// How many samples of the ring go into a block of `n` bytes.
pub open spec fn block_samples(v: AudioView, n: nat) -> int {
    samples_moved(v.data.len(), n)
}

/// How many samples a ring of `len` bytes gives to a block of `n` bytes.
pub open spec fn samples_moved(len: nat, n: nat) -> int {
    if len / 2 <= n / 4 {
        (len / 2) as int
    } else {
        (n / 4) as int
    }
}

/// Whether the pump has a block to hand over.
pub open spec fn pump_due(v: AudioView, dma_done: bool) -> bool {
    v.cap > 0 && (!v.in_flight || dma_done) && with_start(v).started
}

/// The state after a turn of the pump.
pub open spec fn pumped(v: AudioView, dma_done: bool, n: nat) -> AudioView {
    if v.cap == 0 || (v.in_flight && !dma_done) {
        v
    } else {
        let s = AudioView { in_flight: false, ..with_start(v) };
        if !s.started {
            s
        } else {
            let k = block_samples(v, n);
            AudioView {
                data: v.data.skip(2 * k),
                block: Some(((4 * k) as usize, v.data.len() == 0 && v.streaming && v.done)),
                ..s
            }
        }
    }
}

/// Whether a block holds the samples that are due, each through the volume curve, and
/// silence behind them.
pub open spec fn is_block<F: Fn(i16, i32) -> i32>(
    out: Seq<u8>,
    data: Seq<u8>,
    k: int,
    volume: i32,
    curve: F,
) -> bool {
    &&& forall|i: int| 0 <= i < k ==> #[trigger] is_output(out, data, i, volume, curve)
    &&& forall|i: int| 4 * k <= i < out.len() ==> #[trigger] out[i] == 0
}

/// Whether sample `i` of a block is what the volume curve makes of sample `i` of the ring.
pub open spec fn is_output<F: Fn(i16, i32) -> i32>(
    out: Seq<u8>,
    data: Seq<u8>,
    i: int,
    volume: i32,
    curve: F,
) -> bool {
    exists|y: i32| #[trigger]
        curve.ensures((sample_of(data[2 * i], data[2 * i + 1]), volume), y) && out.subrange(
            4 * i,
            4 * i + 4,
        ) == ws::word_bytes(y as u32)
}

/// What the pump reports about a block that was handed over.
#[derive(Debug, Clone, Copy, PartialEq, Eq, Structural)]
pub struct Armed {
    /// The block is on its way.
    pub armed: bool,
    /// The stream has come to its end.
    pub finished: bool,
    /// Kilobytes put out so far, where a line of the log is due.
    pub log_kb: Option<usize>,
}

/// The state after the DMA took a block, or refused it.
pub open spec fn handed_over(v: AudioView, ok: bool, now_ms: u32) -> AudioView {
    let idle = AudioView { block: None, ..v };
    match v.block {
        None => idle,
        Some((written, last)) => if !ok {
            idle
        } else {
            let total = v.total.wrapping_add(written);
            AudioView {
                in_flight: true,
                total,
                started: v.started && !last,
                streaming: v.streaming && !last,
                last_log_ms: if total > 0 && now_ms.wrapping_sub(v.last_log_ms) >= LOG_INTERVAL_MS {
                    now_ms
                } else {
                    v.last_log_ms
                },
                ..idle
            }
        },
    }
}

/// What is reported of it.
pub open spec fn report(v: AudioView, ok: bool, now_ms: u32) -> Armed {
    match v.block {
        None => Armed { armed: false, finished: false, log_kb: None },
        Some((written, last)) => if !ok {
            Armed { armed: false, finished: false, log_kb: None }
        } else {
            let total = v.total.wrapping_add(written);
            Armed {
                armed: true,
                finished: last,
                log_kb: if total > 0 && now_ms.wrapping_sub(v.last_log_ms) >= LOG_INTERVAL_MS {
                    Some((total / 1024) as usize)
                } else {
                    None
                },
            }
        },
    }
}

/// Playback.
pub struct AudioOutput {
    ring: Ring,
    streaming: bool,
    started: bool,
    done_flag: bool,
    in_rate: u32,
    r_prev: i16,
    r_phase: u32,
    volume: i32,
    in_flight: bool,
    total_wr: usize,
    last_log_ms: u32,
    block: Option<(usize, bool)>,
}

impl View for AudioOutput {
    type V = AudioView;

    closed spec fn view(&self) -> AudioView {
        AudioView {
            cap: self.ring.cap(),
            data: self.ring.data(),
            streaming: self.streaming,
            started: self.started,
            done: self.done_flag,
            in_rate: self.in_rate,
            r_prev: self.r_prev,
            r_phase: self.r_phase,
            volume: self.volume,
            in_flight: self.in_flight,
            total: self.total_wr,
            last_log_ms: self.last_log_ms,
            block: self.block,
        }
    }
}

fn push_sample(ring: &mut Ring, s: i16)
    requires
        old(ring).wf(),
        old(ring).data().len() + 2 < old(ring).cap(),
    ensures
        final(ring).wf(),
        final(ring).cap() == old(ring).cap(),
        final(ring).data() == old(ring).data().push(low_byte(s)).push(high_byte(s)),
{
    let u = s as u16;
    ring.push((u % 256) as u8);
    ring.push((u / 256) as u8);
}

impl AudioOutput {
    pub closed spec fn wf(&self) -> bool {
        self.ring.wf() && wf_audio(self@)
    }

    /// The ring is never quite full, the volume is a percentage, the rate is one that the
    /// resampler takes, and nothing plays without a stream.
    pub proof fn law_playback_in_bounds(&self)
        requires
            self.wf(),
        ensures
            wf_audio(self@),
    {
    }

    /// Playback with the largest ring that can be had. Where memory is short it may be a
    /// smaller one, or none at all.
    pub fn new(now_ms: u32) -> (a: Self)
        ensures
            a.wf(),
            exists|fits: [bool; 3]| a@.cap == #[trigger] ring_choice(fits@),
            a@ == initial(a@.cap, now_ms),
    {
        let mut slots: Vec<u8> = Vec::new();
        let mut fits: [bool; 3] = [false, false, false];
        let mut tried: usize = 0;
        let mut found = false;
        while tried < 3 && !found
            invariant
                tried <= 3,
                slots@.len() == 0,
                fits@.len() == 3,
                forall|k: int| 0 <= k < 3 ==> #[trigger] fits@[k] == (found && k == tried - 1),
                found ==> tried > 0,
            decreases 3 - tried,
        {
            match next_ring_size(tried) {
                Some(n) => {
                    found = slots.try_reserve(n).is_ok();
                    fits[tried] = found;
                },
                None => {},
            }
            tried = tried + 1;
        }
        let chosen = chosen_size(&fits);
        if chosen > 0 {
            slots.resize(chosen, 0);
        }
        assert(slots@.len() == ring_choice(fits@));
        Self::with_ring(slots, now_ms)
    }

    /// Playback over a ring of the given slots.
    pub fn with_ring(slots: Vec<u8>, now_ms: u32) -> (a: Self)
        requires
            slots@.len() <= ring::RING_MAX,
        ensures
            a.wf(),
            a@ == initial(slots@.len(), now_ms),
    {
        AudioOutput {
            ring: Ring::new(slots),
            streaming: false,
            started: false,
            done_flag: false,
            in_rate: 24000,
            r_prev: 0,
            r_phase: 0,
            volume: 80,
            in_flight: false,
            total_wr: 0,
            last_log_ms: now_ms,
            block: None,
        }
    }

    /// Whether playback can work: there is a ring, and no block is with the DMA.
    pub fn begin(&self) -> (ok: bool)
        requires
            self.wf(),
        ensures
            ok == (self@.cap > 0 && !self@.in_flight),
    {
        self.ring.capacity() > 0 && !self.in_flight
    }

    /// Bytes of the ring.
    pub fn cap(&self) -> (n: usize)
        ensures
            n == self@.cap,
    {
        self.ring.capacity()
    }

    /// Bytes that wait to be played.
    pub fn buffered(&self) -> (n: usize)
        requires
            self.wf(),
            self@.cap > 0,
        ensures
            n == self@.data.len(),
    {
        self.ring.buffered()
    }

    pub fn set_volume(&mut self, v: i32)
        requires
            old(self).wf(),
        ensures
            final(self).wf(),
            final(self)@ == (AudioView {
                volume: if v < 0 {
                    0
                } else if v > 100 {
                    100
                } else {
                    v
                },
                ..old(self)@
            }),
    {
        self.volume = if v < 0 {
            0
        } else if v > 100 {
            100
        } else {
            v
        };
    }

    pub fn get_volume(&self) -> (v: i32)
        requires
            self.wf(),
        ensures
            v == self@.volume,
            0 <= v <= 100,
    {
        self.volume
    }

    /// A new stream. The result tells whether a block is still with the DMA: it has to be
    /// stopped, or it would play the tail of the old stream.
    pub fn begin_stream(&mut self, input_rate: u32) -> (stop_dma: bool)
        requires
            old(self).wf(),
        ensures
            final(self).wf(),
            final(self)@ == stream_begun(old(self)@, input_rate),
            stop_dma == old(self)@.in_flight,
    {
        let stop_dma = self.reclaim();
        self.in_rate = if 8000 <= input_rate && input_rate <= 48000 {
            input_rate
        } else {
            24000
        };
        self.ring.clear();
        self.r_prev = 0;
        self.r_phase = 0;
        self.done_flag = false;
        self.started = false;
        self.streaming = true;
        self.block = None;
        stop_dma
    }

    /// The server has sent all of the stream.
    pub fn finish_stream(&mut self)
        requires
            old(self).wf(),
        ensures
            final(self).wf(),
            final(self)@ == (AudioView { done: true, ..old(self)@ }),
    {
        self.done_flag = true;
    }

    /// Cuts playback off. The result tells whether a block is still with the DMA and has
    /// to be stopped.
    pub fn stop_playback(&mut self) -> (stop_dma: bool)
        requires
            old(self).wf(),
        ensures
            final(self).wf(),
            final(self)@ == stopped(old(self)@),
            stop_dma == old(self)@.in_flight,
    {
        let stop_dma = self.reclaim();
        self.streaming = false;
        self.started = false;
        self.done_flag = false;
        self.ring.clear();
        self.r_prev = 0;
        self.r_phase = 0;
        self.block = None;
        stop_dma
    }

    pub fn is_active(&self) -> (r: bool)
        requires
            self.wf(),
            self@.streaming || self@.cap > 0,
        ensures
            r == active(self@),
    {
        self.streaming || self.buffered() > 0
    }

    fn reclaim(&mut self) -> (was: bool)
        requires
            old(self).wf(),
        ensures
            final(self).wf(),
            final(self)@ == (AudioView { in_flight: false, ..old(self)@ }),
            was == old(self)@.in_flight,
    {
        let was = self.in_flight;
        self.in_flight = false;
        was
    }

    /// Whether server samples have to be resampled before they are fed.
    pub fn needs_resampling(&self) -> (r: bool)
        ensures
            r == (self@.in_rate != SPK_SAMPLE_RATE),
    {
        self.in_rate != SPK_SAMPLE_RATE
    }

    pub fn input_rate(&self) -> (r: u32)
        ensures
            r == self@.in_rate,
    {
        self.in_rate
    }

    /// The last server sample that was resampled, and the phase to go on from.
    pub fn resample_state(&self) -> (r: (i16, u32))
        ensures
            r == (self@.r_prev, self@.r_phase),
    {
        (self.r_prev, self.r_phase)
    }

    /// Takes a block of server samples. At the output rate they go straight into the ring;
    /// otherwise what they were resampled to does. Once the ring is full, the rest of the
    /// block is given up.
    pub fn feed(&mut self, mono16: &[u8], resampled: &Resampled) -> (f: Fed)
        requires
            old(self).wf(),
            old(self)@.in_rate != SPK_SAMPLE_RATE ==> goes_with(*resampled, mono16@.len() / 2),
        ensures
            final(self).wf(),
            final(self)@ == fed(old(self)@, mono16@, *resampled),
            f.bytes == final(self)@.data.len() - old(self)@.data.len(),
            !accepts(old(self)@, mono16@) ==> f == (Fed { bytes: 0, outs: 0, samples: 0 }),
            accepts(old(self)@, mono16@) && old(self)@.in_rate == SPK_SAMPLE_RATE ==> f.bytes
                == bytes_taken(old(self)@, mono16@) && f.outs == 0 && f.samples == f.bytes / 2,
            accepts(old(self)@, mono16@) && old(self)@.in_rate != SPK_SAMPLE_RATE ==> {
                &&& f.bytes == 2 * outs_taken(old(self)@, resampled.outs@)
                &&& f.outs == outs_taken(old(self)@, resampled.outs@)
                &&& f.samples == samples_used(old(self)@, mono16@, *resampled)
            },
    {
        if self.ring.capacity() == 0 || mono16.is_empty() || !self.streaming {
            return Fed { bytes: 0, outs: 0, samples: 0 };
        }
        let space = self.ring.space();
        let ghost before = self.ring.data();
        if self.in_rate == SPK_SAMPLE_RATE {
            let n = if mono16.len() < space {
                mono16.len()
            } else {
                space
            };
            let mut i: usize = 0;
            assert(before + mono16@.take(0) =~= before);
            while i < n
                invariant
                    i <= n <= mono16@.len(),
                    self.ring.wf(),
                    self.ring.cap() == old(self).ring.cap(),
                    before == old(self).ring.data(),
                    n <= self.ring.cap() - 1 - before.len(),
                    self.ring.data() == before + mono16@.take(i as int),
                    self@ == (AudioView { data: self.ring.data(), ..old(self)@ }),
                decreases n - i,
            {
                self.ring.push(mono16[i]);
                assert(mono16@.take(i + 1) =~= mono16@.take(i as int).push(mono16@[i as int]));
                i = i + 1;
                assert(self.ring.data() =~= before + mono16@.take(i as int));
            }
            proof {
                self.ring.lemma_bounded();
            }
            return Fed { bytes: n, outs: 0, samples: n / 2 };
        }
        let n_in = mono16.len() / 2;
        let room = space / 2;
        let outs = &resampled.outs;
        let n = if outs.len() < room {
            outs.len()
        } else {
            room
        };
        let mut i: usize = 0;
        assert(outs@.take(0) =~= Seq::<i16>::empty());
        assert(before + sample_bytes(outs@.take(0)) =~= before);
        while i < n
            invariant
                i <= n <= outs@.len(),
                self.ring.wf(),
                self.ring.cap() == old(self).ring.cap(),
                before == old(self).ring.data(),
                2 * n <= self.ring.cap() - 1 - before.len(),
                self.ring.data() == before + sample_bytes(outs@.take(i as int)),
                sample_bytes(outs@.take(i as int)).len() == 2 * i,
                self@ == (AudioView { data: self.ring.data(), ..old(self)@ }),
            decreases n - i,
        {
            push_sample(&mut self.ring, outs[i]);
            proof {
                let upto = outs@.take(i + 1);
                assert(upto.drop_last() =~= outs@.take(i as int));
                assert(upto.last() == outs@[i as int]);
            }
            i = i + 1;
            assert(self.ring.data() =~= before + sample_bytes(outs@.take(i as int)));
        }
        proof {
            self.ring.lemma_bounded();
        }
        let samples = if n == outs.len() {
            n_in
        } else {
            resampled.source[n] + 1
        };
        if n_in > 0 {
            self.r_phase = if n == outs.len() {
                resampled.end_phase
            } else {
                resampled.phases[n]
            };
        }
        if samples > 0 {
            let u: u16 = mono16[2 * samples - 2] as u16 + mono16[2 * samples - 1] as u16 * 256;
            self.r_prev = u as i16;
        }
        Fed { bytes: n * 2, outs: n, samples }
    }
}

/// Playback that has not begun.
pub open spec fn initial(cap: nat, now_ms: u32) -> AudioView {
    AudioView {
        cap,
        data: Seq::empty(),
        streaming: false,
        started: false,
        done: false,
        in_rate: 24000,
        r_prev: 0,
        r_phase: 0,
        volume: 80,
        in_flight: false,
        total: 0,
        last_log_ms: now_ms,
        block: None,
    }
}

/// Puts a 32-bit sample into a block.
fn put_word(out: &mut [u8], at: usize, y: i32)
    requires
        at + 4 <= old(out)@.len(),
    ensures
        final(out)@.len() == old(out)@.len(),
        final(out)@.subrange(at as int, at + 4) == ws::word_bytes(y as u32),
        forall|k: int|
            0 <= k < old(out)@.len() && !(at <= k < at + 4) ==> #[trigger] final(out)@[k]
                == old(out)@[k],
{
    let w = word_to_bytes(y as u32);
    let ghost len = out@.len();
    out[at] = w[0];
    out[at + 1] = w[1];
    out[at + 2] = w[2];
    out[at + 3] = w[3];
    assert(out@.subrange(at as int, at + 4) =~= ws::word_bytes(y as u32));
}

/// Moves samples from the ring into a block, through the volume curve, as many as there
/// are and as fit. An odd byte stays in the ring, and what lies behind the samples in the
/// block stays as it was. The result is the number of bytes filled.
fn fill_from_ring<F: Fn(i16, i32) -> i32>(
    ring: &mut Ring,
    volume: i32,
    out: &mut [u8],
    curve: &F,
) -> (n: usize)
    requires
        old(ring).wf(),
        forall|s: i16| curve.requires((s, volume)),
    ensures
        final(ring).wf(),
        final(ring).cap() == old(ring).cap(),
        final(out)@.len() == old(out)@.len(),
        n == 4 * samples_moved(old(ring).data().len(), old(out)@.len()),
        final(ring).data() == old(ring).data().skip(
            2 * samples_moved(old(ring).data().len(), old(out)@.len()),
        ),
        forall|i: int|
            0 <= i < samples_moved(old(ring).data().len(), old(out)@.len())
                ==> #[trigger] is_output(final(out)@, old(ring).data(), i, volume, *curve),
        forall|k: int| n <= k < old(out)@.len() ==> #[trigger] final(out)@[k] == old(out)@[k],
{
    let ghost data = ring.data();
    if ring.capacity() == 0 {
        proof {
            ring.lemma_bounded();
        }
        assert(data.skip(0) =~= data);
        return 0;
    }
    let avail = ring.buffered() / 2;
    let want = out.len() / 4;
    let n = if avail < want {
        avail
    } else {
        want
    };
    let mut i: usize = 0;
    assert(data.skip(0) =~= data);
    while i < n
        invariant
            i <= n,
            4 * n <= out@.len(),
            2 * n <= data.len(),
            n <= want,
            want == out@.len() / 4,
            want * 4 <= usize::MAX,
            out@.len() == old(out)@.len(),
            ring.wf(),
            ring.cap() == old(ring).cap(),
            ring.data() == data.skip(2 * i),
            forall|s: i16| curve.requires((s, volume)),
            forall|k: int| 0 <= k < i ==> #[trigger] is_output(out@, data, k, volume, *curve),
            forall|k: int| 4 * i <= k < out@.len() ==> #[trigger] out@[k] == old(out)@[k],
        decreases n - i,
    {
        let lo = ring.pop();
        let hi = ring.pop();
        assert(data.skip(2 * i).skip(1).skip(1) =~= data.skip(2 * (i + 1)));
        assert(lo == data[2 * i]);
        assert(hi == data[2 * i + 1]);
        let u: u16 = lo as u16 + hi as u16 * 256;
        let s = u as i16;
        let y = curve(s, volume);
        let ghost before = out@;
        put_word(out, i * 4, y);
        proof {
            assert(curve.ensures((sample_of(data[2 * i], data[2 * i + 1]), volume), y));
            assert(is_output(out@, data, i as int, volume, *curve));
            assert forall|k: int| 0 <= k < i implies #[trigger] is_output(
                out@,
                data,
                k,
                volume,
                *curve,
            ) by {
                assert(is_output(before, data, k, volume, *curve));
                assert(out@.subrange(4 * k, 4 * k + 4) =~= before.subrange(4 * k, 4 * k + 4));
            }
        }
        i = i + 1;
    }
    n * 4
}

fn silence_from(out: &mut [u8], from: usize)
    requires
        from <= old(out)@.len(),
    ensures
        final(out)@.len() == old(out)@.len(),
        forall|k: int| 0 <= k < from ==> #[trigger] final(out)@[k] == old(out)@[k],
        forall|k: int| from <= k < final(out)@.len() ==> #[trigger] final(out)@[k] == 0,
{
    let n = out.len();
    let mut i: usize = from;
    while i < n
        invariant
            from <= i <= n,
            n == out@.len(),
            n == old(out)@.len(),
            forall|k: int| 0 <= k < from ==> #[trigger] out@[k] == old(out)@[k],
            forall|k: int| from <= k < i ==> #[trigger] out@[k] == 0,
        decreases n - i,
    {
        out[i] = 0;
        i = i + 1;
    }
}

impl AudioOutput {
    /// One turn of the pump. `dma_done` tells whether the block with the DMA, if there is
    /// one, has left. Where the result is true, `out` holds a block to hand over: samples
    /// through the volume curve, silence behind them. The DMA is only asked, never waited
    /// for.
    pub fn tick<F: Fn(i16, i32) -> i32>(&mut self, dma_done: bool, out: &mut [u8], curve: &F) -> (r:
        bool)
        requires
            old(self).wf(),
            forall|s: i16| curve.requires((s, old(self)@.volume)),
        ensures
            final(self).wf(),
            final(out)@.len() == old(out)@.len(),
            r == pump_due(old(self)@, dma_done),
            final(self)@ == pumped(old(self)@, dma_done, old(out)@.len()),
            r ==> is_block(
                final(out)@,
                old(self)@.data,
                block_samples(old(self)@, old(out)@.len()),
                old(self)@.volume,
                *curve,
            ),
    {
        if self.ring.capacity() == 0 {
            return false;
        }
        if self.in_flight {
            if !dma_done {
                return false;
            }
            self.in_flight = false;
        }
        let avail = self.ring.buffered();
        if self.streaming && !self.started && (self.done_flag || avail >= PLAY_WATERMARK_BYTES) {
            self.started = true;
        }
        if !self.started {
            return false;
        }
        let last = avail == 0 && self.streaming && self.done_flag;
        let ghost data = self.ring.data();
        let n = out.len();
        let written = fill_from_ring(&mut self.ring, self.volume, out, curve);
        let ghost filled = out@;
        let ghost k = samples_moved(data.len(), n as nat);
        assert(written <= n);
        silence_from(out, written);
        proof {
            assert forall|i: int| 0 <= i < k implies #[trigger] is_output(
                out@,
                data,
                i,
                self.volume,
                *curve,
            ) by {
                assert(is_output(filled, data, i, self.volume, *curve));
                assert(out@.subrange(4 * i, 4 * i + 4) =~= filled.subrange(4 * i, 4 * i + 4));
            }
            self.ring.lemma_bounded();
        }
        self.block = Some((written, last));
        true
    }

    /// The DMA took the block, or refused it. A block that ends the stream ends it once it
    /// was taken; one that was refused is lost.
    pub fn block_written(&mut self, ok: bool, now_ms: u32) -> (r: Armed)
        requires
            old(self).wf(),
        ensures
            final(self).wf(),
            final(self)@ == handed_over(old(self)@, ok, now_ms),
            r == report(old(self)@, ok, now_ms),
    {
        let was = self.block;
        self.block = None;
        match was {
            None => Armed { armed: false, finished: false, log_kb: None },
            Some((written, last)) => {
                if !ok {
                    return Armed { armed: false, finished: false, log_kb: None };
                }
                self.in_flight = true;
                self.total_wr = self.total_wr.wrapping_add(written);
                if last {
                    self.started = false;
                    self.streaming = false;
                }
                let mut log_kb = None;
                if self.total_wr > 0 && now_ms.wrapping_sub(self.last_log_ms) >= LOG_INTERVAL_MS {
                    self.last_log_ms = now_ms;
                    log_kb = Some(self.total_wr / 1024);
                }
                Armed { armed: true, finished: last, log_kb }
            },
        }
    }

    /// Samples of a signal tone of the given length; `None` while a block is with the DMA.
    pub fn play_tone(&self, duration_ms: u32) -> (n: Option<u64>)
        ensures
            n == (if self@.in_flight {
                None
            } else {
                Some(tone_samples(duration_ms) as u64)
            }),
    {
        if self.in_flight {
            return None;
        }
        Some(SPK_SAMPLE_RATE as u64 * duration_ms as u64 / 1000)
    }

    /// The start-up test: two short tones, and the pause between them.
    pub fn self_test(&self) -> (steps: Vec<TestStep>)
        ensures
            steps@ == test_steps(),
    {
        let mut steps: Vec<TestStep> = Vec::new();
        steps.push(TestStep::Tone(1200, 150));
        steps.push(TestStep::PauseMs(120));
        steps.push(TestStep::Tone(1600, 150));
        assert(steps@ =~= test_steps());
        steps
    }
}

// ---------- signal tones ----------

/// Samples over which a tone fades in and out.
pub const FADE: u64 = 160;

/// A step of the start-up test.
#[derive(Debug, Clone, Copy, PartialEq, Eq, Structural)]
pub enum TestStep {
    /// A tone of this frequency for so many milliseconds.
    Tone(u32, u32),
    /// Nothing for so many milliseconds.
    PauseMs(u32),
}

/// The start-up test.
pub open spec fn test_steps() -> Seq<TestStep> {
    seq![TestStep::Tone(1200, 150), TestStep::PauseMs(120), TestStep::Tone(1600, 150)]
}

/// Samples in a tone.
pub open spec fn tone_samples(duration_ms: u32) -> int {
    SPK_SAMPLE_RATE * duration_ms / 1000
}

/// How loud sample `i` of `n` is, in parts of [`FADE`]: rising at first, falling at last.
pub open spec fn fade(i: int, n: int) -> int {
    if i > n - FADE {
        n - i
    } else if i < FADE {
        i
    } else {
        FADE as int
    }
}

/// How loud sample `i` of `n` is, in parts of [`FADE`].
pub fn tone_fade(i: u64, n: u64) -> (f: u64)
    requires
        i < n,
        n >= FADE,
    ensures
        f == fade(i as int, n as int),
        f <= FADE,
{
    let mut f: u64 = FADE;
    if i < FADE {
        f = i;
    }
    if i > n - FADE {
        f = n - i;
    }
    f
}

/// Samples of a tone in the block that starts with sample `i`.
pub fn tone_block(i: u64, n: u64) -> (k: usize)
    requires
        i < n,
    ensures
        k == (if n - i < TX_CHUNK_SAMPLES {
            n - i
        } else {
            TX_CHUNK_SAMPLES as int
        }),
        k > 0,
{
    if n - i < TX_CHUNK_SAMPLES as u64 {
        (n - i) as usize
    } else {
        TX_CHUNK_SAMPLES
    }
}

// ---------- laws of playback ----------

/// What is fed while there is room comes out in order: a block takes the oldest samples
/// and leaves the rest as it was.
pub proof fn law_first_in_first_out(v: AudioView, dma_done: bool, n: nat)
    requires
        wf_audio(v),
        pump_due(v, dma_done),
    ensures
        ({
            let k = block_samples(v, n);
            &&& 0 <= 2 * k <= v.data.len()
            &&& v.data == v.data.take(2 * k) + pumped(v, dma_done, n).data
        }),
{
    let k = block_samples(v, n);
    assert(v.data =~= v.data.take(2 * k) + v.data.skip(2 * k));
}

/// Nothing of a block is lost while the ring has room for it.
pub proof fn law_nothing_lost_with_room(v: AudioView, mono16: Seq<u8>, r: Resampled)
    requires
        wf_audio(v),
        accepts(v, mono16),
    ensures
        v.in_rate == SPK_SAMPLE_RATE && v.data.len() + mono16.len() < v.cap ==> fed(
            v,
            mono16,
            r,
        ).data == v.data + mono16,
        v.in_rate != SPK_SAMPLE_RATE && v.data.len() + 2 * r.outs@.len() < v.cap ==> fed(
            v,
            mono16,
            r,
        ).data == v.data + sample_bytes(r.outs@) && samples_used(v, mono16, r) == mono16.len() / 2,
{
    assert(mono16.take(mono16.len() as int) =~= mono16);
    assert(r.outs@.take(r.outs@.len() as int) =~= r.outs@);
}

/// Playback does not start before enough is buffered or all has been sent, and once a
/// stream is complete and the ring is empty the next block that is taken ends it.
pub proof fn law_start_and_end(v: AudioView, dma_done: bool, n: nat, now_ms: u32)
    requires
        wf_audio(v),
    ensures
        !v.started && !v.done && v.data.len() < PLAY_WATERMARK_BYTES ==> !pump_due(v, dma_done),
        pump_due(v, dma_done) && v.done && v.data.len() == 0 && v.streaming ==> {
            let w = handed_over(pumped(v, dma_done, n), true, now_ms);
            !w.streaming && !w.started && !active(w)
        },
        pump_due(v, dma_done) && !v.done ==> handed_over(
            pumped(v, dma_done, n),
            true,
            now_ms,
        ).streaming == v.streaming,
{
}

/// Where the ring has run dry in the middle of a stream, a whole block of silence keeps the
/// channel going.
pub proof fn law_underrun_is_silence<F: Fn(i16, i32) -> i32>(
    v: AudioView,
    dma_done: bool,
    out: Seq<u8>,
    curve: F,
)
    requires
        v.cap > 0,
        v.started,
        v.data.len() == 0,
        !v.in_flight || dma_done,
    ensures
        pump_due(v, dma_done),
        is_block(out, v.data, block_samples(v, out.len()), v.volume, curve) ==> forall|i: int|
            0 <= i < out.len() ==> #[trigger] out[i] == 0,
{
}

/// While a block is with the DMA nothing is handed over and nothing changes: the pump asks
/// and goes on.
pub proof fn law_pump_never_waits(v: AudioView, n: nat)
    requires
        v.in_flight,
    ensures
        !pump_due(v, false),
        pumped(v, false, n) == v,
{
}

/// Cutting playback off leaves nothing to play.
pub proof fn law_stopped_is_silent(v: AudioView, dma_done: bool)
    ensures
        !active(stopped(v)),
        !pump_due(stopped(v), dma_done),
        !stopped(v).in_flight,
{
}

/// The state after `k` more blocks, each taken by the DMA and gone before the next.
pub open spec fn after_blocks(v: AudioView, n: nat, now_ms: u32, k: nat) -> AudioView
    decreases k,
{
    if k == 0 {
        v
    } else {
        handed_over(pumped(after_blocks(v, n, now_ms, (k - 1) as nat), true, n), true, now_ms)
    }
}

/// A stream that is complete plays to its end: block by block what waits gets less, and once
/// nothing waits playback is over.
pub proof fn law_stream_plays_out(v: AudioView, n: nat, now_ms: u32, k: nat)
    requires
        v.cap > 0,
        v.streaming,
        v.done,
        v.data.len() % 2 == 0,
        n >= 4,
    ensures
        ({
            let w = after_blocks(v, n, now_ms, k);
            &&& w.cap == v.cap
            &&& w.data.len() % 2 == 0
            &&& w.streaming ==> w.done && w.data.len() + 2 * k <= v.data.len()
            &&& !w.streaming ==> !w.started && w.data.len() == 0
            &&& 2 * k > v.data.len() ==> !w.streaming && w.data.len() == 0 && !active(w)
        }),
    decreases k,
{
    if k > 0 {
        law_stream_plays_out(v, n, now_ms, (k - 1) as nat);
        let b = after_blocks(v, n, now_ms, (k - 1) as nat);
        let p = pumped(b, true, n);
        if b.streaming {
            assert(with_start(b).started);
            let s = samples_moved(b.data.len(), n);
            assert(p.data == b.data.skip(2 * s));
            if b.data.len() > 0 {
                assert(s >= 1);
            } else {
                assert(p.data.len() == 0);
            }
        }
    }
}

/// A block takes as many samples as there are and as fit: behind it the ring holds no whole
/// sample, or the block has no room for one more. It takes them from the front, four bytes
/// of the block for two of the ring, and says so.
pub proof fn law_block_takes_what_fits(v: AudioView, dma_done: bool, n: nat)
    requires
        wf_audio(v),
        pump_due(v, dma_done),
        n <= usize::MAX,
    ensures
        ({
            let w = pumped(v, dma_done, n);
            let taken = v.data.len() - w.data.len();
            &&& w.block matches Some((sound, _last)) && sound == 2 * taken
            &&& taken % 2 == 0
            &&& 0 <= 2 * taken <= n
            &&& w.data.len() < 2 || 2 * taken + 4 > n
            &&& w.data == v.data.skip(taken)
            &&& w.cap == v.cap && w.volume == v.volume && w.streaming == v.streaming && w.done
                == v.done && w.total == v.total
            &&& !w.in_flight
        }),
{
    let w = pumped(v, dma_done, n);
    let k = samples_moved(v.data.len(), n);
    assert(w.data == v.data.skip(2 * k));
    assert(w.block == Some(((4 * k) as usize, v.data.len() == 0 && v.streaming && v.done)));
}

/// Playback of a stream begins at 32768 bytes, or with less where no more will come; once
/// begun it goes on however little there is. Without a stream nothing begins.
pub proof fn law_when_playback_begins(v: AudioView)
    requires
        v.cap > 0,
        !v.in_flight,
    ensures
        !v.started && v.streaming ==> (pump_due(v, false) <==> v.done || v.data.len() >= 32768),
        !v.started && !v.streaming ==> !pump_due(v, false),
        v.started ==> pump_due(v, false),
{
}

/// Only an empty ring of a complete stream ends it: a block that carries the last sound does
/// not, and neither does silence in the middle of a stream.
pub proof fn law_only_the_end_ends(v: AudioView, dma_done: bool, n: nat, now_ms: u32)
    requires
        pump_due(v, dma_done),
    ensures
        ({
            let p = pumped(v, dma_done, n);
            let w = handed_over(p, true, now_ms);
            &&& w.streaming <==> v.streaming && !(v.done && v.data.len() == 0)
            &&& report(p, true, now_ms).finished <==> v.streaming && v.done && v.data.len() == 0
            &&& report(p, true, now_ms).armed
            &&& w.in_flight
            &&& w.block is None
            &&& w.data == p.data
        }),
{
}

/// A block that the DMA refused is lost, but the stream goes on: nothing is in flight, and
/// the next turn of the pump has a block again.
pub proof fn law_refused_block_is_lost(v: AudioView, dma_done: bool, n: nat, now_ms: u32)
    requires
        pump_due(v, dma_done),
    ensures
        ({
            let p = pumped(v, dma_done, n);
            let w = handed_over(p, false, now_ms);
            &&& w.streaming == v.streaming
            &&& !w.in_flight
            &&& w.total == v.total
            &&& w.data == p.data
            &&& pump_due(w, false)
            &&& !report(p, false, now_ms).armed
            &&& !report(p, false, now_ms).finished
        }),
{
}

/// The bytes put out are counted, and a line of the log comes no sooner than three seconds
/// after the one before.
pub proof fn law_output_log(v: AudioView, sound: usize, last: bool, now_ms: u32, passed_ms: u32)
    requires
        v.block == Some((sound, last)),
        v.total + sound <= usize::MAX,
    ensures
        ({
            let w = handed_over(v, true, now_ms);
            let r = report(v, true, now_ms);
            &&& w.total == v.total + sound
            &&& r.log_kb matches Some(kb) ==> kb == (v.total + sound) / 1024
            &&& r.log_kb is Some <==> v.total + sound > 0 && now_ms.wrapping_sub(v.last_log_ms)
                >= 3000
            &&& r.log_kb is Some ==> w.last_log_ms == now_ms
            &&& r.log_kb is None ==> w.last_log_ms == v.last_log_ms
            &&& r.log_kb is Some && passed_ms < 3000 ==> report(
                AudioView { block: Some((sound, last)), ..w },
                true,
                now_ms.wrapping_add(passed_ms),
            ).log_kb is None
        }),
{
}

/// A new stream is empty and open, has not begun and is not complete. It has the rate that
/// was named where the resampler takes it, and 24 kHz otherwise. Volume and ring stay.
pub proof fn law_new_stream(v: AudioView, rate: u32)
    ensures
        ({
            let w = stream_begun(v, rate);
            &&& w.data.len() == 0 && w.streaming && !w.started && !w.done && !w.in_flight
            &&& w.block is None
            &&& 8000 <= rate <= 48000 ==> w.in_rate == rate
            &&& rate < 8000 || rate > 48000 ==> w.in_rate == 24000
            &&& w.r_prev == 0 && w.r_phase == 0
            &&& w.cap == v.cap && w.volume == v.volume && w.total == v.total && w.last_log_ms
                == v.last_log_ms
        }),
{
}

/// Cutting playback off empties the ring and closes the stream. Volume, ring and the count
/// of what was put out stay.
pub proof fn law_stop_keeps_settings(v: AudioView)
    ensures
        ({
            let w = stopped(v);
            &&& w.data.len() == 0 && !w.streaming && !w.started && !w.done && !w.in_flight
            &&& w.block is None
            &&& w.r_prev == 0 && w.r_phase == 0
            &&& w.cap == v.cap && w.volume == v.volume && w.total == v.total && w.in_rate
                == v.in_rate && w.last_log_ms == v.last_log_ms
        }),
{
}

/// What is fed goes behind what waits, as far as there is room, and the beginning of a block
/// is what is kept of it. Nothing is taken without a stream or without a ring.
pub proof fn law_feed_goes_behind(v: AudioView, mono16: Seq<u8>, r: Resampled)
    requires
        wf_audio(v),
        v.in_rate == 16000,
    ensures
        ({
            let w = fed(v, mono16, r);
            &&& w.streaming == v.streaming && w.started == v.started && w.done == v.done && w.volume
                == v.volume && w.in_flight == v.in_flight
            &&& v.data.is_prefix_of(w.data)
            &&& v.streaming && v.cap > 0 ==> w.data.is_prefix_of(v.data + mono16)
            &&& v.streaming && v.cap > 0 && w.data.len() < v.data.len() + mono16.len() ==> w.data.len()
                == v.cap - 1
            &&& !v.streaming || v.cap == 0 ==> w.data == v.data
        }),
{
    let w = fed(v, mono16, r);
    if accepts(v, mono16) {
        let k = bytes_taken(v, mono16);
        assert(w.data =~= v.data + mono16.take(k));
        assert(w.data =~= (v.data + mono16).subrange(0, w.data.len() as int));
    } else {
        if mono16.len() == 0 {
            assert(v.data + mono16 =~= v.data);
        }
        assert(w.data =~= v.data.subrange(0, v.data.len() as int));
    }
    assert(v.data =~= w.data.subrange(0, v.data.len() as int));
}

proof fn lemma_sample_bytes(s: Seq<i16>, i: int)
    requires
        0 <= i < s.len(),
    ensures
        sample_bytes(s).len() == 2 * s.len(),
        sample_bytes(s)[2 * i] == low_byte(s[i]),
        sample_bytes(s)[2 * i + 1] == high_byte(s[i]),
    decreases s.len(),
{
    lemma_sample_bytes_len(s);
    lemma_sample_bytes_len(s.drop_last());
    if i < s.len() - 1 {
        lemma_sample_bytes(s.drop_last(), i);
    }
}

proof fn lemma_sample_bytes_len(s: Seq<i16>)
    ensures
        sample_bytes(s).len() == 2 * s.len(),
    decreases s.len(),
{
    if s.len() > 0 {
        lemma_sample_bytes_len(s.drop_last());
    }
}

/// Samples go out as two bytes each, in order, and each comes back from its two bytes.
pub proof fn law_samples_as_bytes(s: Seq<i16>, i: int)
    requires
        0 <= i < s.len(),
    ensures
        sample_bytes(s).len() == 2 * s.len(),
        sample_of(sample_bytes(s)[2 * i], sample_bytes(s)[2 * i + 1]) == s[i],
{
    lemma_sample_bytes(s, i);
    law_sample_round_trip(s[i]);
}

/// Resampled sound goes behind what waits, whole samples only, the first ones where there is
/// no room for all. Resampling goes on with the last server sample that was used.
pub proof fn law_resampled_feed(v: AudioView, mono16: Seq<u8>, r: Resampled)
    requires
        wf_audio(v),
        v.in_rate != 16000,
        v.streaming,
        v.cap > 0,
        mono16.len() >= 2,
        goes_with(r, mono16.len() / 2),
    ensures
        ({
            let w = fed(v, mono16, r);
            let added = w.data.len() - v.data.len();
            &&& w.data.is_prefix_of(v.data + sample_bytes(r.outs@))
            &&& added % 2 == 0 && added <= 2 * r.outs@.len()
            &&& added < 2 * r.outs@.len() ==> w.data.len() + 2 >= v.cap
            &&& added == 2 * r.outs@.len() ==> w.r_phase == r.end_phase && w.r_prev == sample_of(
                mono16[mono16.len() / 2 * 2 - 2],
                mono16[mono16.len() / 2 * 2 - 1],
            )
            &&& added < 2 * r.outs@.len() ==> w.r_phase == r.phases@[added / 2] && w.r_prev
                == sample_of(
                mono16[2 * r.source@[added / 2] as int],
                mono16[2 * r.source@[added / 2] as int + 1],
            )
            &&& w.streaming && w.started == v.started && w.done == v.done && w.volume == v.volume
        }),
{
    let w = fed(v, mono16, r);
    let k = outs_taken(v, r.outs@);
    lemma_sample_bytes_len(r.outs@.take(k));
    lemma_sample_bytes_len(r.outs@);
    lemma_sample_bytes_take(r.outs@, k);
    assert(w.data =~= (v.data + sample_bytes(r.outs@)).subrange(0, w.data.len() as int));
    if k < r.outs@.len() {
        assert(r.source@[k] < mono16.len() / 2);
    }
}

proof fn lemma_sample_bytes_take(s: Seq<i16>, k: int)
    requires
        0 <= k <= s.len(),
    ensures
        sample_bytes(s.take(k)) == sample_bytes(s).take(2 * k),
    decreases s.len(),
{
    lemma_sample_bytes_len(s);
    lemma_sample_bytes_len(s.take(k));
    if k == s.len() {
        assert(s.take(k) =~= s);
        assert(sample_bytes(s).take(2 * k) =~= sample_bytes(s));
    } else {
        lemma_sample_bytes_take(s.drop_last(), k);
        lemma_sample_bytes_len(s.drop_last());
        assert(s.drop_last().take(k) =~= s.take(k));
        assert(sample_bytes(s).take(2 * k) =~= sample_bytes(s.drop_last()).take(2 * k));
    }
}

/// Two bytes make a sample with the low byte first: they count as a number of sixteen bits,
/// negative where its highest bit is set.
pub proof fn law_low_byte_first(lo: u8, hi: u8)
    ensures
        sample_of(lo, hi) == (if hi < 128 {
            lo + 256 * hi
        } else {
            lo + 256 * hi - 65536
        }),
{
    let u = (lo + hi * 256) as u16;
    if hi < 128 {
        assert(u < 0x8000);
        assert(u as i16 as int == u as int) by (bit_vector)
            requires
                u < 0x8000u16,
        ;
    } else {
        assert(u >= 0x8000);
        assert(u as i16 as int == u as int - 65536) by (bit_vector)
            requires
                u >= 0x8000u16,
        ;
    }
}

/// A block through a curve that leaves samples as they are holds them one after another,
/// four bytes each with the low byte first, and is silent behind them.
pub proof fn law_block_holds_the_samples<F: Fn(i16, i32) -> i32>(
    out: Seq<u8>,
    data: Seq<u8>,
    k: int,
    volume: i32,
    curve: F,
    i: int,
)
    requires
        0 <= 4 * k <= out.len(),
        2 * k <= data.len(),
        is_block(out, data, k, volume, curve),
        forall|s: i16, y: i32| curve.ensures((s, volume), y) ==> y == s,
    ensures
        0 <= i < k ==> out[4 * i] == data[2 * i] && out[4 * i + 1] == data[2 * i + 1],
        4 * k <= i < out.len() ==> out[i] == 0,
{
    if 0 <= i < k {
        assert(is_output(out, data, i, volume, curve));
        let s = sample_of(data[2 * i], data[2 * i + 1]);
        let y = choose|y: i32| #[trigger]
            curve.ensures((s, volume), y) && out.subrange(4 * i, 4 * i + 4) == ws::word_bytes(
                y as u32,
            );
        assert(y == s);
        let b = out.subrange(4 * i, 4 * i + 4);
        let u = (data[2 * i] + data[2 * i + 1] * 256) as u16;
        assert(s == u as i16);
        let m = y as u32;
        assert(m % 65536 == u as u32) by (bit_vector)
            requires
                m == (u as i16 as i32) as u32,
        ;
        assert(out[4 * i] == b[0] && out[4 * i + 1] == b[1]);
        assert(b[0] == (m % 256) as u8 && b[1] == (m / 256 % 256) as u8);
        assert(m % 256 == u % 256);
        assert(m / 256 % 256 == u / 256);
    }
}

/// The ring is the largest of the three sizes that can be had, and there is none where none
/// can be had.
pub proof fn law_largest_ring(fits: Seq<bool>, i: int)
    requires
        fits.len() == 3,
        0 <= i < 3,
    ensures
        fits[i] ==> ring_choice(fits) >= RING_CAPS[i],
        ring_choice(fits) > 0 ==> exists|k: int|
            0 <= k < 3 && #[trigger] fits[k] && ring_choice(fits) == RING_CAPS[k],
        !fits[0] && !fits[1] && !fits[2] ==> ring_choice(fits) == 0,
{
    if fits[0] {
        assert(ring_choice(fits) == RING_CAPS[0]);
    } else if fits[1] {
        assert(ring_choice(fits) == RING_CAPS[1]);
    } else if fits[2] {
        assert(ring_choice(fits) == RING_CAPS[2]);
    }
}

/// A tone swells from nothing, stays at full loudness, and dies away towards its end, one
/// part of the fade from sample to sample; it lasts sixteen samples a millisecond.
pub proof fn law_tone_shape(i: int, n: int, ms: u32)
    requires
        320 <= n,
        0 <= i < n,
    ensures
        0 <= fade(i, n) <= 160,
        fade(0, n) == 0,
        i < 160 ==> fade(i, n) == i,
        160 <= i <= n - 160 ==> fade(i, n) == 160,
        n - 160 <= i ==> fade(i, n) == n - i,
        tone_samples(ms) == 16 * ms,
{
}

/// Playback that has not begun has nothing to play and waits for a stream; the volume is 80
/// per cent.
pub proof fn law_initial_playback(cap: nat, now_ms: u32, dma_done: bool)
    requires
        cap <= ring::RING_MAX,
    ensures
        wf_audio(initial(cap, now_ms)),
        !active(initial(cap, now_ms)),
        !pump_due(initial(cap, now_ms), dma_done),
        initial(cap, now_ms).volume == 80,
        initial(cap, now_ms).cap == cap,
{
}

} // verus!
