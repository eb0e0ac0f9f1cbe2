//! The clock of the status bar: a minimal SNTP client without a calendar.
//!
//! A reply fixes the time once; from then on the clock runs on the local millisecond
//! counter until the next synchronisation.
use vstd::prelude::*;
use crate::config::{NTP_SERVERS, TZ_OFFSET_HOURS};
use crate::text;

verus! {

/// Seconds from the start of 1900 to the start of 1970.
pub const NTP_TO_UNIX: u32 = 2208988800;

/// Length of a packet.
pub const PACKET_LEN: usize = 48;

/// What the clock knows.
#[derive(Debug, Clone, Copy, PartialEq, Eq, Structural)]
pub struct ClockSync {
    pub synced: bool,
    /// Seconds since 1970 at the time of synchronisation.
    pub unix: u32,
    /// The millisecond counter at that time.
    pub base_ms: u32,
}

/// Seconds of local time since 1970, with the millisecond counter at `now_ms`.
pub open spec fn local_seconds(c: ClockSync, now_ms: u32) -> int {
    c.unix + now_ms.wrapping_sub(c.base_ms) as int / 1000 + TZ_OFFSET_HOURS * 3600
}

/// Hour and minute of local time, once the clock is set.
pub open spec fn hour_and_minute(c: ClockSync, now_ms: u32) -> Option<(u32, u32)> {
    if c.synced {
        Some(
            (
                (local_seconds(c, now_ms) / 3600 % 24) as u32,
                (local_seconds(c, now_ms) / 60 % 60) as u32,
            ),
        )
    } else {
        None
    }
}

/// A number in two digits.
pub open spec fn two_digits(n: u32) -> Seq<char> {
    seq![text::digit_char((n / 10) as int), text::digit_char((n % 10) as int)]
}

/// A time of day as it is shown.
pub open spec fn time_text(hm: Option<(u32, u32)>) -> Seq<char> {
    match hm {
        Some((h, m)) => two_digits(h) + seq![':'] + two_digits(m),
        None => "--:--"@,
    }
}

/// Whether a time of day is one.
pub open spec fn is_time(hm: Option<(u32, u32)>) -> bool {
    hm matches Some((h, m)) ==> h < 24 && m < 60
}

impl ClockSync {
    /// A clock that is not set.
    pub fn new() -> (c: Self)
        ensures
            c == (ClockSync { synced: false, unix: 0, base_ms: 0 }),
    {
        ClockSync { synced: false, unix: 0, base_ms: 0 }
    }
}

/// Hour and minute of local time; `None` before the first synchronisation.
pub fn clock_hm(c: &ClockSync, now_ms: u32) -> (hm: Option<(u32, u32)>)
    ensures
        hm == hour_and_minute(*c, now_ms),
        is_time(hm),
{
    if !c.synced {
        return None;
    }
    let elapsed_s: u64 = now_ms.wrapping_sub(c.base_ms) as u64 / 1000;
    let local: u64 = c.unix as u64 + elapsed_s + TZ_OFFSET_HOURS * 3600;
    Some(((local / 3600 % 24) as u32, (local / 60 % 60) as u32))
}

fn push_two_digits(s: &mut String, n: u32)
    requires
        n < 100,
    ensures
        final(s)@ == old(s)@ + two_digits(n),
{
    let a = (48 + n / 10) as u8 as char;
    let b = (48 + n % 10) as u8 as char;
    s.push(a);
    s.push(b);
    assert(s@ =~= old(s)@ + two_digits(n));
}

/// A time of day as it is shown.
pub fn hm_text(hm: Option<(u32, u32)>) -> (s: String)
    requires
        is_time(hm),
    ensures
        s@ == time_text(hm),
{
    match hm {
        Some((h, m)) => {
            let mut s = String::new();
            push_two_digits(&mut s, h);
            s.push(':');
            push_two_digits(&mut s, m);
            assert(s@ =~= time_text(hm));
            s
        },
        None => "--:--".to_owned(),
    }
}

/// The clock as it is shown: hours and minutes, or dashes before it is set.
pub fn clock_text(c: &ClockSync, now_ms: u32) -> (s: String)
    ensures
        s@ == time_text(hour_and_minute(*c, now_ms)),
{
    hm_text(clock_hm(c, now_ms))
}

// ---------- packets ----------

/// A query: a client packet of version 3, all other fields zero.
pub open spec fn query() -> Seq<u8> {
    Seq::new(
        PACKET_LEN as nat,
        |i: int|
            if i == 0 {
                0x1bu8
            } else {
                0u8
            },
    )
}

/// The query to send.
pub fn query_packet() -> (p: Vec<u8>)
    ensures
        p@ == query(),
{
    let mut p: Vec<u8> = Vec::new();
    p.push(0x1b);
    while p.len() < PACKET_LEN
        invariant
            1 <= p@.len() <= PACKET_LEN,
            forall|i: int| 0 <= i < p@.len() ==> #[trigger] p@[i] == query()[i],
        decreases PACKET_LEN - p@.len(),
    {
        p.push(0);
    }
    assert(p@ =~= query());
    p
}

/// Seconds since 1900 at which a packet says it was sent.
pub open spec fn transmit_seconds(p: Seq<u8>) -> int {
    p[40] * 0x1000000 + p[41] * 0x10000 + p[42] * 0x100 + p[43]
}

/// The time in a packet: it has to be whole, come from a server, and lie after 1970. A
/// server that does not know the time says zero.
pub open spec fn reply_time(p: Seq<u8>) -> Option<u32> {
    if p.len() < PACKET_LEN {
        None
    } else if p[0] & 0x07 != 4 && p[0] & 0x07 != 5 {
        None
    } else if transmit_seconds(p) < NTP_TO_UNIX {
        None
    } else {
        Some((transmit_seconds(p) - NTP_TO_UNIX) as u32)
    }
}

/// Reads the time from a reply, in seconds since 1970.
pub fn parse_reply(p: &[u8]) -> (t: Option<u32>)
    ensures
        t == reply_time(p@),
{
    if p.len() < PACKET_LEN {
        return None;
    }
    let mode: u8 = p[0] & 0x07;
    if mode != 4 && mode != 5 {
        return None;
    }
    let ntp: u32 = p[40] as u32 * 0x1000000 + p[41] as u32 * 0x10000 + p[42] as u32 * 0x100
        + p[43] as u32;
    if ntp < NTP_TO_UNIX {
        return None;
    }
    Some(ntp - NTP_TO_UNIX)
}

// ---------- the task ----------

/// What the clock task does next.
#[derive(Debug, Clone, Copy, PartialEq, Eq, Structural)]
pub enum NtpStep {
    /// Ask the server with this index.
    Query(usize),
    /// Wait for the next round.
    Sleep,
}

/// The outcome of asking server `server`. The first answer sets the clock and ends the
/// round; where there is none, the next server is asked, as long as there is one.
pub fn ntp_task(c: &mut ClockSync, server: usize, reply: Option<u32>, now_ms: u32) -> (step: NtpStep)
    ensures
        reply matches Some(t) ==> *final(c) == (ClockSync {
            synced: true,
            unix: t,
            base_ms: now_ms,
        }) && step == NtpStep::Sleep,
        reply is None ==> *final(c) == *old(c) && step == (if server + 1 < NTP_SERVERS@.len() {
            NtpStep::Query((server + 1) as usize)
        } else {
            NtpStep::Sleep
        }),
{
    match reply {
        Some(t) => {
            c.synced = true;
            c.unix = t;
            c.base_ms = now_ms;
            NtpStep::Sleep
        },
        None => {
            if server < NTP_SERVERS.len() - 1 {
                NtpStep::Query(server + 1)
            } else {
                NtpStep::Sleep
            }
        },
    }
}

/// A clock that was set shows, any time later that the millisecond counter can tell apart,
/// the time it was set to plus what has passed, whether or not the counter has wrapped.
pub proof fn law_clock_runs(c: ClockSync, passed_ms: u32)
    requires
        c.synced,
    ensures
        local_seconds(c, c.base_ms.wrapping_add(passed_ms)) == c.unix + passed_ms as int / 1000
            + TZ_OFFSET_HOURS * 3600,
{
}

/// The clock shows a time of day, and shows it in five characters.
pub proof fn law_clock_shows_time(c: ClockSync, now_ms: u32)
    ensures
        is_time(hour_and_minute(c, now_ms)),
        time_text(hour_and_minute(c, now_ms)).len() == 5,
{
    reveal_strlit("--:--");
    let l = local_seconds(c, now_ms);
    assert(l >= 0);
    assert(0 <= l / 3600 % 24 < 24);
    assert(0 <= l / 60 % 60 < 60);
}

/// A server that says the time is understood: the seconds since 1900 in four bytes, the
/// highest first, give the seconds since 1970.
pub proof fn law_reply_is_understood(p: Seq<u8>, t: u32)
    requires
        p.len() >= 48,
        p[0] & 0x07 == 4 || p[0] & 0x07 == 5,
        t + 2208988800 <= 0xffffffff,
        p[40] == ((t + 2208988800) / 0x1000000) as u8,
        p[41] == ((t + 2208988800) / 0x10000 % 0x100) as u8,
        p[42] == ((t + 2208988800) / 0x100 % 0x100) as u8,
        p[43] == ((t + 2208988800) % 0x100) as u8,
    ensures
        reply_time(p) == Some(t),
{
    let n = t + 2208988800;
    let a = n / 0x100;
    let b = n / 0x10000;
    let c = n / 0x1000000;
    assert(n == a * 256 + n % 256);
    assert(a == b * 256 + a % 256);
    assert(b == c * 256 + b % 256);
    assert(c < 256);
    assert(transmit_seconds(p) == n);
}

/// A packet that is cut short, that does not come from a server, or whose server does not
/// know the time is not believed.
pub proof fn law_reply_is_checked(p: Seq<u8>)
    ensures
        p.len() < 48 ==> reply_time(p) is None,
        p.len() >= 48 && p[0] & 0x07 != 4 && p[0] & 0x07 != 5 ==> reply_time(p) is None,
        p.len() >= 48 && p[40] == 0 ==> reply_time(p) is None,
{
}

/// The clock shows the local time of day, eight hours ahead of that of the server: so many
/// whole hours and minutes of the day have passed. One that was never set shows none.
pub proof fn law_time_of_day(c: ClockSync, passed_ms: u32)
    ensures
        c.synced ==> {
            let day = (c.unix + passed_ms as int / 1000 + 28800) % 86400;
            hour_and_minute(c, c.base_ms.wrapping_add(passed_ms)) matches Some((h, m)) && h * 3600
                + m * 60 <= day < h * 3600 + m * 60 + 60
        },
        !c.synced ==> hour_and_minute(c, passed_ms) is None,
{
    if c.synced {
        law_clock_runs(c, passed_ms);
        let l = c.unix + passed_ms as int / 1000 + 28800;
        assert(local_seconds(c, c.base_ms.wrapping_add(passed_ms)) == l);
        let day = l % 86400;
        let d = l / 86400;
        assert(l == d * 86400 + day);
        assert(l / 3600 == d * 24 + day / 3600);
        assert(l / 60 == d * 1440 + day / 60);
        assert(l / 3600 % 24 == day / 3600);
        assert(l / 60 % 60 == day / 60 % 60);
        assert(day / 60 == day / 3600 * 60 + day / 60 % 60);
    }
}

/// A time of day is shown as two digits, a colon and two digits, from which it can be read.
pub proof fn law_time_reads_back(h: u32, m: u32)
    requires
        h < 24,
        m < 60,
    ensures
        ({
            let t = time_text(Some((h, m)));
            &&& t.len() == 5
            &&& t[2] == ':'
            &&& (t[0] as int - '0' as int) * 10 + (t[1] as int - '0' as int) == h
            &&& (t[3] as int - '0' as int) * 10 + (t[4] as int - '0' as int) == m
            &&& '0' <= t[0] <= '9' && '0' <= t[1] <= '9' && '0' <= t[3] <= '9' && '0' <= t[4]
                <= '9'
        }),
{
}

/// A query is a packet of 48 bytes that says it comes from a client of version 3, and nothing
/// else.
pub proof fn law_query(i: int)
    requires
        0 < i < 48,
    ensures
        query().len() == 48,
        query()[0] & 0x07 == 3,
        (query()[0] >> 3) & 0x07 == 3,
        query()[i] == 0,
{
    let b = query()[0];
    assert(b == 0x1b);
    assert(b & 0x07 == 3 && (b >> 3) & 0x07 == 3) by (bit_vector)
        requires
            b == 0x1bu8,
    ;
}

} // verus!
