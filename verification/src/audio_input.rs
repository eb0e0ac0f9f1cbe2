//! Capture: raw 16-bit samples from the microphone's DMA, amplified and clipped.
use vstd::prelude::*;
use crate::audio_output;
use crate::config::MIC_GAIN_SHIFT;

verus! {

/// Bytes of the DMA stream buffer.
pub const RX_QUEUE_BYTES: usize = 16384;

/// Bytes of one DMA descriptor, and of the scratch buffer.
pub const RX_CHUNK_BYTES: usize = 1024;

/// The scratch buffer: a `heapless::Vec` of fixed capacity.
#[verifier::external_type_specification]
#[verifier::external_body]
#[verifier::reject_recursive_types(T)]
pub struct ExHeaplessVec<T, const N: usize>(heapless::Vec<T, N>);

/// The bytes in a scratch buffer.
pub uninterp spec fn scratch_bytes(v: heapless::Vec<u8, 1024>) -> Seq<u8>;

/// `heapless::Vec::new` gives an empty buffer.
#[verifier::external_body]
fn scratch_new() -> (v: heapless::Vec<u8, 1024>)
    ensures
        scratch_bytes(v) == Seq::<u8>::empty(),
{
    heapless::Vec::new()
}

/// `heapless::Vec::capacity` is the capacity in the type.
#[verifier::external_body]
fn scratch_capacity(v: &heapless::Vec<u8, 1024>) -> (n: usize)
    ensures
        n == RX_CHUNK_BYTES,
{
    v.capacity()
}

/// `heapless::Vec::clear` removes all bytes.
#[verifier::external_body]
fn scratch_clear(v: &mut heapless::Vec<u8, 1024>)
    ensures
        scratch_bytes(*final(v)) == Seq::<u8>::empty(),
{
    v.clear()
}

/// `heapless::Vec::resize` cuts the buffer to the given length, or extends it with the
/// given byte. It fails, and leaves the buffer alone, beyond the capacity.
#[verifier::external_body]
fn scratch_resize(v: &mut heapless::Vec<u8, 1024>, n: usize, b: u8) -> (r: Result<(), ()>)
    ensures
        r is Ok <==> n <= RX_CHUNK_BYTES,
        r is Ok ==> scratch_bytes(*final(v)) == Seq::new(
            n as nat,
            |i: int|
                if i < scratch_bytes(*old(v)).len() {
                    scratch_bytes(*old(v))[i]
                } else {
                    b
                },
        ),
        r is Err ==> scratch_bytes(*final(v)) == scratch_bytes(*old(v)),
{
    v.resize(n, b)
}

/// `heapless::Vec::as_slice` is a view of the bytes.
#[verifier::external_body]
fn scratch_slice(v: &heapless::Vec<u8, 1024>) -> (r: &[u8])
    ensures
        r@ == scratch_bytes(*v),
{
    v.as_slice()
}

/// `heapless::Vec::as_mut_slice` is a view of the bytes through which they can be changed.
#[verifier::external_body]
fn scratch_mut_slice(v: &mut heapless::Vec<u8, 1024>) -> (r: &mut [u8])
    ensures
        r@ == scratch_bytes(*old(v)),
        scratch_bytes(*final(v)) == final(r)@,
{
    v.as_mut_slice()
}

/// A raw sample amplified and clipped.
pub open spec fn gained(s: i16) -> int {
    let v = s * 32;
    if v < -32767 {
        -32767
    } else if v > 32767 {
        32767
    } else {
        v
    }
}

/// Amplifies a raw sample, clipping it at the limits of 16 bits.
pub fn amplify(s: i16) -> (r: i16)
    ensures
        r == gained(s),
{
    let factor: i32 = 1i32 << MIC_GAIN_SHIFT;
    assert(1i32 << 5u32 == 32i32) by (bit_vector);
    let v: i32 = s as i32 * factor;
    if v < -32767 {
        -32767
    } else if v > 32767 {
        32767
    } else {
        v as i16
    }
}

/// How many bytes to fetch: whole samples, no more than are there, than the reader asks
/// for, and than the scratch buffer holds.
pub open spec fn fetch_len(running: bool, avail: usize, out_len: usize) -> int {
    let a = if avail as int <= 2 * out_len {
        avail as int
    } else {
        2 * out_len
    };
    let b = if a <= RX_CHUNK_BYTES {
        a
    } else {
        RX_CHUNK_BYTES as int
    };
    if running {
        b - b % 2
    } else {
        0
    }
}

/// Capture.
pub struct AudioInput {
    running: bool,
    scratch: heapless::Vec<u8, 1024>,
}

impl AudioInput {
    /// Whether the DMA is running.
    pub closed spec fn running(&self) -> bool {
        self.running
    }

    /// The bytes being fetched.
    pub closed spec fn fetched(&self) -> Seq<u8> {
        scratch_bytes(self.scratch)
    }

    pub fn new() -> (a: Self)
        ensures
            !a.running(),
            a.fetched() == Seq::<u8>::empty(),
    {
        AudioInput { running: false, scratch: scratch_new() }
    }

    /// Starts capture. `dma_started` tells whether the DMA could be started; it does not
    /// matter where capture is running already.
    pub fn start(&mut self, dma_started: bool) -> (r: bool)
        ensures
            r == (old(self).running() || dma_started),
            final(self).running() == r,
            final(self).fetched() == old(self).fetched(),
    {
        if self.running {
            return true;
        }
        self.running = dma_started;
        dma_started
    }

    /// Stops capture. The result tells whether the DMA has to be stopped.
    pub fn stop(&mut self) -> (stop_dma: bool)
        ensures
            stop_dma == old(self).running(),
            !final(self).running(),
            final(self).fetched() == old(self).fetched(),
    {
        let was = self.running;
        self.running = false;
        was
    }

    pub fn is_running(&self) -> (r: bool)
        ensures
            r == self.running(),
    {
        self.running
    }

    /// Prepares to fetch samples for a reader of `out_len` samples, with `avail` bytes
    /// waiting in the DMA. The result is how many bytes to fetch, 0 for none.
    pub fn prepare(&mut self, avail: usize, out_len: usize) -> (want: usize)
        ensures
            want == fetch_len(old(self).running(), avail, out_len),
            final(self).running() == old(self).running(),
            want > 0 ==> final(self).fetched().len() == want,
            want == 0 ==> final(self).fetched() == old(self).fetched(),
    {
        if !self.running || out_len == 0 || avail == 0 {
            return 0;
        }
        let cap = scratch_capacity(&self.scratch);
        let mut n: usize = if avail < cap {
            avail
        } else {
            cap
        };
        if out_len < cap && out_len * 2 < n {
            n = out_len * 2;
        }
        let want = n - n % 2;
        if want == 0 {
            return 0;
        }
        scratch_clear(&mut self.scratch);
        let _r = scratch_resize(&mut self.scratch, want, 0);
        want
    }

    /// Where the fetched bytes go.
    pub fn scratch(&mut self) -> (b: &mut [u8])
        ensures
            b@ == old(self).fetched(),
            final(self).fetched() == final(b)@,
            final(self).running() == old(self).running(),
    {
        scratch_mut_slice(&mut self.scratch)
    }

    /// Turns the first `got` fetched bytes into samples.
    pub fn read(&mut self, got: usize, out: &mut [i16]) -> (n: usize)
        requires
            got <= old(self).fetched().len(),
            got / 2 <= old(out)@.len(),
        ensures
            n == got / 2,
            final(out)@.len() == old(out)@.len(),
            forall|i: int|
                0 <= i < n ==> #[trigger] final(out)@[i] == gained(
                    audio_output::sample_of(
                        old(self).fetched()[2 * i],
                        old(self).fetched()[2 * i + 1],
                    ),
                ),
            forall|i: int| n <= i < old(out)@.len() ==> #[trigger] final(out)@[i] == old(out)@[i],
            final(self).fetched() == old(self).fetched(),
            final(self).running() == old(self).running(),
    {
        let bytes = scratch_slice(&self.scratch);
        let n = got / 2;
        let mut i: usize = 0;
        while i < n
            invariant
                i <= n,
                n == got / 2,
                got <= bytes@.len(),
                n <= out@.len(),
                out@.len() == old(out)@.len(),
                bytes@ == old(self).fetched(),
                forall|k: int|
                    0 <= k < i ==> #[trigger] out@[k] == gained(
                        audio_output::sample_of(bytes@[2 * k], bytes@[2 * k + 1]),
                    ),
                forall|k: int| i <= k < out@.len() ==> #[trigger] out@[k] == old(out)@[k],
            decreases n - i,
        {
            let u: u16 = bytes[i * 2] as u16 + bytes[i * 2 + 1] as u16 * 256;
            out[i] = amplify(u as i16);
            i = i + 1;
        }
        n
    }
}

/// The gain keeps the order of samples and their sign, and stays within 16 bits.
pub proof fn law_gain(a: i16, b: i16)
    ensures
        -32767 <= gained(a) <= 32767,
        a <= b ==> gained(a) <= gained(b),
        a > 0 <==> gained(a) > 0,
        a < 0 <==> gained(a) < 0,
{
}

/// A fetch is a whole number of samples that fit the scratch buffer and the reader.
pub proof fn law_fetch_fits(running: bool, avail: usize, out_len: usize)
    ensures
        fetch_len(running, avail, out_len) % 2 == 0,
        0 <= fetch_len(running, avail, out_len) <= RX_CHUNK_BYTES,
        fetch_len(running, avail, out_len) <= avail,
        fetch_len(running, avail, out_len) <= 2 * out_len,
{
}

/// A sample becomes thirty-two times as loud, exactly, as long as that fits; beyond it is as
/// loud as can be.
pub proof fn law_thirty_two_times(s: i16)
    ensures
        -1023 <= s <= 1023 ==> gained(s) == 32 * s,
        s >= 1024 ==> gained(s) == 32767,
        s <= -1024 ==> gained(s) == -32767,
{
}

/// A fetch takes all that it can: one more sample would be more than waits, than is asked for
/// or than the scratch buffer holds. Nothing is fetched while capture is off.
pub proof fn law_fetch_takes_all(running: bool, avail: usize, out_len: usize)
    ensures
        running ==> ({
            let n = fetch_len(running, avail, out_len);
            n + 2 > avail || n + 2 > 2 * out_len || n + 2 > 1024
        }),
        !running ==> fetch_len(running, avail, out_len) == 0,
{
}

} // verus!
