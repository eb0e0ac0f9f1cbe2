//! The battery gauge: a calibrated reading every half minute, and whether the charger is
//! on.
use vstd::prelude::*;
use crate::config::BAT_POLL_MS;

verus! {

/// Raw converter value and level in percent, at the calibration points.
pub const CAL: [(u16, i16); 6] = [(1970, 0), (2062, 20), (2154, 40), (2246, 60), (2338, 80), (
    2430,
    100,
)];

/// Readings taken for one value.
pub const SAMPLES: usize = 5;

/// The level on the straight line through two calibration points.
pub open spec fn on_line(raw: int, a: (u16, i16), b: (u16, i16)) -> int {
    a.1 + (raw - a.0) * (b.1 - a.1) / (b.0 - a.0)
}

/// The level of a raw value: flat outside the calibration points, straight between each
/// two of them.
pub open spec fn level_of(raw: u16) -> int {
    if raw <= 1970 {
        0
    } else if raw >= 2430 {
        100
    } else {
        let i = (raw - 1970) / 92;
        on_line(raw as int, CAL[i], CAL[i + 1])
    }
}

/// The level of a raw value.
pub fn raw_to_level(raw: u16) -> (l: u8)
    ensures
        l == level_of(raw),
        l <= 100,
{
    if raw <= CAL[0].0 {
        return 0;
    }
    if raw >= CAL[5].0 {
        return 100;
    }
    let mut i: usize = 0;
    while i < 4 && raw >= CAL[i + 1].0
        invariant
            i <= 4,
            1970 < raw < 2430,
            1970 + 92 * i <= raw,
        decreases 4 - i,
    {
        i = i + 1;
    }
    assert(i == (raw - 1970) / 92);
    let (a_raw, a_level) = CAL[i];
    let (b_raw, b_level) = CAL[i + 1];
    assert(a_raw == 1970 + 92 * i && a_level == 20 * i);
    assert(b_raw == 1970 + 92 * (i + 1) && b_level == 20 * (i + 1));
    let run: i32 = (raw - a_raw) as i32;
    let rise: i32 = (b_level - a_level) as i32;
    let step: i32 = (b_raw - a_raw) as i32;
    assert(rise == 20 && step == 92 && 0 <= run < 92);
    assert(run * rise == run * 20) by (nonlinear_arith)
        requires
            rise == 20,
    ;
    let level: i32 = a_level as i32 + run * rise / step;
    assert(run * 20 / 92 < 20);
    level as u8
}

/// How many of five values lie below `m`.
pub open spec fn below(m: u16, v: Seq<u16>) -> int {
    (if v[0] < m {
        1int
    } else {
        0
    }) + (if v[1] < m {
        1int
    } else {
        0
    }) + (if v[2] < m {
        1int
    } else {
        0
    }) + (if v[3] < m {
        1int
    } else {
        0
    }) + (if v[4] < m {
        1int
    } else {
        0
    })
}

/// How many of five values lie above `m`.
pub open spec fn above(m: u16, v: Seq<u16>) -> int {
    (if v[0] > m {
        1int
    } else {
        0
    }) + (if v[1] > m {
        1int
    } else {
        0
    }) + (if v[2] > m {
        1int
    } else {
        0
    }) + (if v[3] > m {
        1int
    } else {
        0
    }) + (if v[4] > m {
        1int
    } else {
        0
    })
}

/// The value in the middle: at most two lie below it, and at most two above.
pub open spec fn is_median(m: u16, v: Seq<u16>) -> bool {
    v.contains(m) && below(m, v) <= 2 && above(m, v) <= 2
}

fn ordered(a: u16, b: u16) -> (r: (u16, u16))
    ensures
        r == (if a <= b {
            (a, b)
        } else {
            (b, a)
        }),
{
    if a <= b {
        (a, b)
    } else {
        (b, a)
    }
}

/// The middle one of five readings: two wild ones do not matter.
pub fn median(v: &[u16; 5]) -> (m: u16)
    ensures
        is_median(m, v@),
{
    let (a, b) = ordered(v[0], v[1]);
    let (d, e) = ordered(v[3], v[4]);
    let (c, e) = ordered(v[2], e);
    let (c, d) = ordered(c, d);
    let (b, e) = ordered(b, e);
    let (a, d) = ordered(a, d);
    let (a, c) = ordered(a, c);
    let (b, d) = ordered(b, d);
    let (b, c) = ordered(b, c);
    proof {
        assert(a <= c && b <= c && c <= d && c <= e);
        let s = v@;
        if c == s[0] {
        } else if c == s[1] {
        } else if c == s[2] {
        } else if c == s[3] {
        } else {
            assert(c == s[4]);
        }
        assert(s.contains(c));
    }
    c
}

/// The gauge.
#[derive(Debug, Clone, Copy, PartialEq, Eq, Structural)]
pub struct Battery {
    /// The level in percent, once one was read.
    pub level: Option<u8>,
    /// The charger is on and the battery not full.
    pub charging: bool,
    /// When the last reading was taken, if there was one.
    pub last_poll_ms: Option<u32>,
}

/// Whether a reading is due: the first at once, the others after a while.
pub open spec fn reading_due(b: Battery, now_ms: u32) -> bool {
    match b.last_poll_ms {
        Some(t) => now_ms.wrapping_sub(t) >= BAT_POLL_MS,
        None => true,
    }
}

/// The gauge after a turn: `raw` is what the converter gave, if anything.
pub open spec fn after_reading(b: Battery, now_ms: u32, raw: Option<u16>, charger: bool) -> Battery {
    if !reading_due(b, now_ms) {
        b
    } else {
        match raw {
            None => Battery { last_poll_ms: Some(now_ms), ..b },
            Some(r) => Battery {
                level: Some(level_of(r) as u8),
                charging: charger && level_of(r) < 100,
                last_poll_ms: Some(now_ms),
            },
        }
    }
}

impl Battery {
    pub open spec fn wf(&self) -> bool {
        self.level matches Some(l) ==> l <= 100
    }

    /// A gauge that has read nothing. Its first reading is due at once.
    pub fn new() -> (b: Self)
        ensures
            b.wf(),
            b == (Battery { level: None, charging: false, last_poll_ms: None }),
    {
        Battery { level: None, charging: false, last_poll_ms: None }
    }

    /// Whether a reading is due.
    pub fn due(&self, now_ms: u32) -> (r: bool)
        ensures
            r == reading_due(*self, now_ms),
    {
        match self.last_poll_ms {
            Some(t) => now_ms.wrapping_sub(t) >= BAT_POLL_MS,
            None => true,
        }
    }

    /// Takes a reading into account, where one is due. A conversion that timed out leaves
    /// the last values standing. A full battery is not charging.
    pub fn tick(&mut self, now_ms: u32, raw: Option<u16>, charger: bool)
        requires
            old(self).wf(),
        ensures
            final(self).wf(),
            *final(self) == after_reading(*old(self), now_ms, raw, charger),
    {
        if !self.due(now_ms) {
            return;
        }
        self.last_poll_ms = Some(now_ms);
        match raw {
            Some(r) => {
                let l = raw_to_level(r);
                self.level = Some(l);
                self.charging = charger && l < 100;
            },
            None => {},
        }
    }

    pub fn level(&self) -> (l: Option<u8>)
        ensures
            l == self.level,
    {
        self.level
    }

    pub fn charging(&self) -> (c: bool)
        ensures
            c == self.charging,
    {
        self.charging
    }
}

/// A higher reading never means a lower level, and levels are percentages.
pub proof fn law_level_monotone(a: u16, b: u16)
    requires
        a <= b,
    ensures
        0 <= level_of(a) <= level_of(b) <= 100,
{
    lemma_level(a);
    lemma_level(b);
}

/// At the calibration points the level is the calibrated one.
pub proof fn law_calibration_points(i: int)
    requires
        0 <= i < 6,
    ensures
        level_of(CAL[i].0) == CAL[i].1,
{
    lemma_level(CAL[i].0);
}

proof fn lemma_level(raw: u16)
    ensures
        1970 < raw < 2430 ==> level_of(raw) == (raw - 1970) / 92 * 20 + (raw - 1970) % 92 * 20 / 92,
{
    if 1970 < raw && raw < 2430 {
        let i = (raw - 1970) / 92;
        assert(i == 0 || i == 1 || i == 2 || i == 3 || i == 4);
        assert(CAL[i].0 == 1970 + 92 * i && CAL[i].1 == 20 * i);
        assert(CAL[i + 1].0 == 1970 + 92 * (i + 1) && CAL[i + 1].1 == 20 * (i + 1));
    }
}

/// Only one value is in the middle.
pub proof fn law_median_unique(a: u16, b: u16, v: Seq<u16>)
    requires
        v.len() == 5,
        is_median(a, v),
        is_median(b, v),
    ensures
        a == b,
{
}

/// The first reading is due whenever it is asked for, and after a reading the next is due
/// half a minute later and not before.
pub proof fn law_reading_pace(b: Battery, now_ms: u32, raw: Option<u16>, charger: bool, passed: u32)
    requires
        reading_due(b, now_ms),
    ensures
        b.last_poll_ms is None ==> reading_due(b, passed),
        reading_due(after_reading(b, now_ms, raw, charger), now_ms.wrapping_add(passed)) == (passed
            >= BAT_POLL_MS),
{
}

/// From 1970 to 2430 the level rises evenly from nothing to a hundred: it is the whole part of
/// where the reading lies on that way. Below it is nothing, above a hundred.
pub proof fn law_level_is_even(raw: u16)
    ensures
        1970 <= raw <= 2430 ==> 460 * level_of(raw) <= 100 * (raw - 1970) < 460 * (level_of(raw) + 1),
        raw <= 1970 ==> level_of(raw) == 0,
        raw >= 2430 ==> level_of(raw) == 100,
{
    lemma_level(raw);
}

/// A reading that is due and came gives level and charging; one that did not come leaves both
/// as they were; either way the next one is due later. One that is not due changes nothing.
/// A full battery is not charging, and none is without the charger.
pub proof fn law_reading_counts(b: Battery, now_ms: u32, raw: u16, charger: bool)
    ensures
        b.last_poll_ms is None ==> after_reading(b, now_ms, Some(raw), charger).last_poll_ms
            == Some(now_ms),
        b.last_poll_ms matches Some(t) ==> (now_ms.wrapping_sub(t) < 30000 ==> after_reading(
            b,
            now_ms,
            Some(raw),
            charger,
        ) == b),
        b.last_poll_ms is None || (b.last_poll_ms matches Some(t) && now_ms.wrapping_sub(t)
            >= 30000) ==> {
            let r = after_reading(b, now_ms, Some(raw), charger);
            let n = after_reading(b, now_ms, None, charger);
            &&& r.level matches Some(l) && l == level_of(raw)
            &&& r.charging <==> charger && raw < 2430
            &&& n.level == b.level && n.charging == b.charging
            &&& r.last_poll_ms == Some(now_ms) && n.last_poll_ms == Some(now_ms)
        },
{
    lemma_level(raw);
    law_level_monotone(raw, raw);
}

} // verus!
