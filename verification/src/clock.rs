//! The simulation clock: discrete ticks, periodic sampling, snapshot
//! triggering, and throughput measurement against wall-clock readings.

use vstd::prelude::*;

use crate::text::{spec_split, split_on};

verus! {

/// Simulated-time resolution: ticks per second.
pub const TICKS_PER_SECOND: u32 = 10;

/// Milliseconds of simulated time in one tick.
pub const MS_PER_TICK: u64 = 100;

/// A discrete, monotonically non-decreasing simulated-time value.
#[derive(Clone, Copy, Debug, PartialEq, Eq, Structural, Hash)]
pub struct Tick(pub u32);

/// All characters are decimal digits, and there is at least one.
pub open spec fn spec_is_digits(s: Seq<char>) -> bool {
    s.len() >= 1 && forall|k: int| 0 <= k < s.len() ==> '0' <= #[trigger] s[k] <= '9'
}

/// The number a digit string denotes.
pub open spec fn spec_digits_val(s: Seq<char>) -> nat
    decreases s.len(),
{
    if s.len() == 0 {
        0
    } else {
        (spec_digits_val(s.drop_last()) * 10 + (s.last() as int - '0' as int)) as nat
    }
}

/// What `Tick::parse` accepts: `H:MM:SS` with one to four hour digits,
/// exactly two minute and second digits, minutes and seconds under sixty.
pub open spec fn spec_parse_tick(s: Seq<char>) -> Option<Tick> {
    let parts = spec_split(s, ':');
    if parts.len() != 3 {
        None
    } else if !(spec_is_digits(parts[0]) && 1 <= parts[0].len() <= 4) {
        None
    } else if !(spec_is_digits(parts[1]) && parts[1].len() == 2) {
        None
    } else if !(spec_is_digits(parts[2]) && parts[2].len() == 2) {
        None
    } else {
        let h = spec_digits_val(parts[0]);
        let m = spec_digits_val(parts[1]);
        let sec = spec_digits_val(parts[2]);
        if m >= 60 || sec >= 60 {
            None
        } else {
            Some(Tick((((h * 3600 + m * 60 + sec) * 10) as u32)))
        }
    }
}

/// Parse up to four decimal digits.
fn parse_digits(t: &str) -> (r: Option<u64>)
    requires
        t@.len() <= 4,
    ensures
        r matches Some(v) ==> {
            &&& spec_is_digits(t@)
            &&& v == spec_digits_val(t@)
            &&& v <= 9999
        },
        r is None ==> !spec_is_digits(t@),
{
    let n = t.unicode_len();
    if n == 0 {
        return None;
    }
    let mut v: u64 = 0;
    let mut k: usize = 0;
    while k < n
        invariant
            0 <= k <= n <= 4,
            n == t@.len(),
            forall|m: int| 0 <= m < k ==> '0' <= #[trigger] t@[m] <= '9',
            v == spec_digits_val(t@.take(k as int)),
            v <= 9999,
            k == 0 ==> v == 0,
            k == 1 ==> v <= 9,
            k == 2 ==> v <= 99,
            k == 3 ==> v <= 999,
        decreases n - k,
    {
        let c = t.get_char(k);
        if !('0' <= c && c <= '9') {
            return None;
        }
        let d = (c as u32) - ('0' as u32);
        proof {
            assert(t@.take(k + 1).drop_last() =~= t@.take(k as int));
            assert(t@.take(k + 1).last() == t@[k as int]);
        }
        v = v * 10 + (d as u64);
        k = k + 1;
    }
    proof {
        assert(t@.take(n as int) =~= t@);
    }
    Some(v)
}

impl Tick {
    /// Simulated time zero.
    pub fn zero() -> (r: Tick)
        ensures
            r.0 == 0,
    {
        Tick(0)
    }

    /// The tick reached after the given number of simulated seconds.
    pub fn from_seconds(s: u32) -> (r: Tick)
        requires
            s <= 429_496_729,
        ensures
            r.0 == s * TICKS_PER_SECOND,
    {
        Tick(s * TICKS_PER_SECOND)
    }

    /// The next tick.
    pub fn next(self) -> (r: Tick)
        requires
            self.0 < u32::MAX,
        ensures
            r.0 == self.0 + 1,
    {
        Tick(self.0 + 1)
    }

    /// Periodic-sampling predicate: the time is an exact multiple of the
    /// interval. Used by drivers to throttle status printing.
    pub fn is_multiple_of(self, other: Tick) -> (r: bool)
        requires
            other.0 > 0,
        ensures
            r == (self.0 % other.0 == 0),
    {
        self.0 % other.0 == 0
    }

    /// Parse a target time written `H:MM:SS`. An unparseable string yields
    /// `None`; the caller treats that as a fatal configuration error before
    /// stepping begins.
    pub fn parse(s: &str) -> (r: Option<Tick>)
        ensures
            r == spec_parse_tick(s@),
    {
        let parts = split_on(s, ':');
        let ghost views = parts@.map_values(|t: String| t@);
        if parts.len() != 3 {
            return None;
        }
        proof {
            assert(views[0] == parts@[0]@);
            assert(views[1] == parts@[1]@);
            assert(views[2] == parts@[2]@);
        }
        if parts[0].as_str().unicode_len() > 4 {
            return None;
        }
        let h = match parse_digits(parts[0].as_str()) {
            Some(v) => v,
            None => {
                return None;
            },
        };
        if parts[1].as_str().unicode_len() != 2 {
            return None;
        }
        let m = match parse_digits(parts[1].as_str()) {
            Some(v) => v,
            None => {
                return None;
            },
        };
        if parts[2].as_str().unicode_len() != 2 {
            return None;
        }
        let sec = match parse_digits(parts[2].as_str()) {
            Some(v) => v,
            None => {
                return None;
            },
        };
        if m >= 60 || sec >= 60 {
            return None;
        }
        let ticks = (h * 3600 + m * 60 + sec) * 10;
        Some(Tick(ticks as u32))
    }
}

/// A wall-clock marker for measuring throughput.
#[derive(Clone, Copy, Debug, PartialEq, Eq, Structural)]
pub struct Benchmark {
    pub start_tick: Tick,
    pub start_wall_ms: u64,
}

/// Simulated milliseconds per wall millisecond, in hundredths: the speedup
/// factor over real time. A zero wall-clock interval measures zero.
pub open spec fn spec_speed_centi(time: Tick, b: Benchmark, now_wall_ms: u64) -> nat {
    let sim_ms = (time.0 - b.start_tick.0) * (MS_PER_TICK as int);
    let wall_ms = now_wall_ms - b.start_wall_ms;
    if wall_ms == 0 {
        0
    } else {
        ((sim_ms * 100) / wall_ms) as nat
    }
}

/// The simulation clock: advances one fixed tick per step of the external
/// agent-movement engine, and answers the driver's sampling and snapshot
/// questions. The stepping loop itself lives with the driver, which decides
/// when to stop.
pub struct SimClock {
    pub time: Tick,
}

impl SimClock {
    pub fn new() -> (r: SimClock)
        ensures
            r.time.0 == 0,
    {
        SimClock { time: Tick(0) }
    }

    /// One tick of simulated time has passed: the engine stepped once.
    pub fn advance(&mut self)
        requires
            old(self).time.0 < u32::MAX,
        ensures
            final(self).time.0 == old(self).time.0 + 1,
    {
        self.time = Tick(self.time.0 + 1);
    }

    /// Begin measuring throughput at the current tick and wall clock.
    pub fn start_benchmark(&self, now_wall_ms: u64) -> (r: Benchmark)
        ensures
            r.start_tick == self.time,
            r.start_wall_ms == now_wall_ms,
    {
        Benchmark { start_tick: self.time, start_wall_ms: now_wall_ms }
    }

    /// Ticks of simulated time per wall-clock time since the marker, in
    /// hundredths of real time; resets the marker to now.
    pub fn measure_speed(&self, b: &mut Benchmark, now_wall_ms: u64) -> (r: u64)
        requires
            now_wall_ms >= old(b).start_wall_ms,
            self.time.0 >= old(b).start_tick.0,
        ensures
            r == spec_speed_centi(self.time, *old(b), now_wall_ms),
            final(b).start_tick == self.time,
            final(b).start_wall_ms == now_wall_ms,
    {
        let sim_ms = ((self.time.0 - b.start_tick.0) as u64) * MS_PER_TICK;
        let wall_ms = now_wall_ms - b.start_wall_ms;
        let r = if wall_ms == 0 {
            0
        } else {
            sim_ms * 100 / wall_ms
        };
        b.start_tick = self.time;
        b.start_wall_ms = now_wall_ms;
        r
    }

    /// Snapshot trigger: the configured target time, if any, is exactly
    /// now. The driver must complete the snapshot before stepping further.
    pub fn is_time_to_save(&self, save_at: Option<Tick>) -> (r: bool)
        ensures
            r == (save_at == Some(self.time)),
    {
        match save_at {
            Some(t) => t.0 == self.time.0,
            None => false,
        }
    }
}

} // verus!
