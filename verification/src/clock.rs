//! How long to think about a move.
use vstd::prelude::*;
use crate::pieces::Color;

verus! {

/// The depth limit without a `depth` argument.
pub const DEFAULT_DEPTH: i32 = 32;

/// The longest a search may take: twenty minutes.
pub const HARD_CAP_MS: i64 = 1_200_000;

/// The time for a move when nothing says otherwise.
pub const FIXED_MS: i64 = 8_000;

/// The least time that is taken from a clock, and what is held back of a share.
pub const MARGIN_MS: i64 = 50;

/// The times of a `go` command, in whole milliseconds.
#[derive(Clone, Copy, Debug, PartialEq, Eq, Structural)]
pub struct Times {
    pub movetime: Option<i64>,
    pub wtime: Option<i64>,
    pub btime: Option<i64>,
    pub winc: Option<i64>,
    pub binc: Option<i64>,
}

/// Which rule sets the time for a move.
#[derive(Clone, Copy, Debug, PartialEq, Eq, Structural)]
pub enum TimeRule {
    /// The longest time there is.
    Longest,
    /// The given time.
    Given,
    /// A share of the clock.
    Clock,
    /// A fixed time.
    Fixed,
}

/// The rule that applies: infinite search first, then a given time, then the
/// clock, unless a depth other than the default was asked for.
pub fn time_rule(infinite: bool, has_movetime: bool, max_depth: i32) -> (r: TimeRule)
    ensures
        r == if infinite {
            TimeRule::Longest
        } else if has_movetime {
            TimeRule::Given
        } else if max_depth == 32 {
            TimeRule::Clock
        } else {
            TimeRule::Fixed
        },
{
    if infinite {
        TimeRule::Longest
    } else if has_movetime {
        TimeRule::Given
    } else if max_depth == DEFAULT_DEPTH {
        TimeRule::Clock
    } else {
        TimeRule::Fixed
    }
}

pub open spec fn or_zero(t: Option<i64>) -> int {
    match t {
        Some(v) => v as int,
        None => 0,
    }
}

pub open spec fn within(lo: int, x: int, hi: int) -> int {
    if x < lo {
        lo
    } else if x > hi {
        hi
    } else {
        x
    }
}

/// The share of a clock: a twentieth of the time left and four fifths of the
/// increment, rounded up to a whole millisecond, less the margin.
pub open spec fn clock_share(left: int, increment: int) -> int {
    within(50, (left + 16 * increment + 19) / 20 - 50, 1_200_000)
}

/// The time for a move.
pub open spec fn allotted(infinite: bool, max_depth: i32, side: Color, t: Times) -> int {
    if infinite {
        1_200_000
    } else if t.movetime is Some {
        if t.movetime->0 > 1_200_000 {
            1_200_000
        } else {
            t.movetime->0 as int
        }
    } else {
        let left = or_zero(if side == Color::White {
            t.wtime
        } else {
            t.btime
        });
        let increment = or_zero(if side == Color::White {
            t.winc
        } else {
            t.binc
        });
        if max_depth == 32 && left > 0 {
            clock_share(left, increment)
        } else {
            8_000
        }
    }
}

fn value_or_zero(t: Option<i64>) -> (r: i64)
    ensures
        r == or_zero(t),
{
    match t {
        Some(v) => v,
        None => 0,
    }
}

fn share_of_clock(left: i64, increment: i64) -> (r: i64)
    requires
        left > 0,
    ensures
        r == clock_share(left as int, increment as int),
{
    let sum: i128 = left as i128 + 16 * (increment as i128);
    if sum <= 0 {
        return MARGIN_MS;
    }
    let share: i128 = (sum + 19) / 20;
    if share <= 2 * (MARGIN_MS as i128) {
        MARGIN_MS
    } else if share >= HARD_CAP_MS as i128 + MARGIN_MS as i128 {
        HARD_CAP_MS
    } else {
        share as i64 - MARGIN_MS
    }
}

/// The time for a move of `side`, in milliseconds. A given time is taken as it
/// is, also a negative one, but never more than the cap.
pub fn think_time(infinite: bool, max_depth: i32, side: Color, times: &Times) -> (r: i64)
    ensures
        r == allotted(infinite, max_depth, side, *times),
        r <= HARD_CAP_MS,
{
    match time_rule(infinite, times.movetime.is_some(), max_depth) {
        TimeRule::Longest => HARD_CAP_MS,
        TimeRule::Given => {
            let given: i64 = value_or_zero(times.movetime);
            if given > HARD_CAP_MS {
                HARD_CAP_MS
            } else {
                given
            }
        },
        TimeRule::Clock => {
            let white = matches!(side, Color::White);
            let left: i64 = value_or_zero(if white {
                times.wtime
            } else {
                times.btime
            });
            let increment: i64 = value_or_zero(if white {
                times.winc
            } else {
                times.binc
            });
            if left > 0 {
                share_of_clock(left, increment)
            } else {
                FIXED_MS
            }
        },
        TimeRule::Fixed => FIXED_MS,
    }
}

/// The moment `budget` milliseconds after `now`, within what the clock can show.
pub fn deadline(now: u64, budget: i64) -> (r: u64)
    ensures
        r == within(0, now + budget, u64::MAX as int),
{
    let at: i128 = now as i128 + budget as i128;
    if at < 0 {
        0
    } else if at > u64::MAX as i128 {
        u64::MAX
    } else {
        at as u64
    }
}

/// More time on the clock, or a larger increment, never means less thinking.
pub proof fn more_clock_more_time(left1: int, left2: int, inc1: int, inc2: int)
    requires
        left1 <= left2,
        inc1 <= inc2,
    ensures
        clock_share(left1, inc1) <= clock_share(left2, inc2),
{
}

/// The colours exchanged.
pub open spec fn exchanged(t: Times) -> Times {
    Times { wtime: t.btime, btime: t.wtime, winc: t.binc, binc: t.winc, ..t }
}

/// The time does not depend on the colour: with side and clocks exchanged it is
/// the same.
pub proof fn colour_does_not_matter(infinite: bool, max_depth: i32, side: Color, t: Times)
    ensures
        allotted(infinite, max_depth, side, t) == allotted(
            infinite,
            max_depth,
            side.other(),
            exchanged(t),
        ),
{
}

/// The other side's clock does not matter.
pub proof fn only_own_clock_counts(infinite: bool, max_depth: i32, t: Times, u: Times)
    requires
        t.movetime == u.movetime,
    ensures
        t.wtime == u.wtime && t.winc == u.winc ==> allotted(infinite, max_depth, Color::White, t)
            == allotted(infinite, max_depth, Color::White, u),
        t.btime == u.btime && t.binc == u.binc ==> allotted(infinite, max_depth, Color::Black, t)
            == allotted(infinite, max_depth, Color::Black, u),
{
}

/// What the time of a move has to do with the clock, with `left` on it and an
/// increment of `inc`: a twentieth of the one and four fifths of the other, less
/// fifty milliseconds, rounded up; never below fifty, never above twenty minutes.
pub open spec fn fits_clock(r: int, left: int, inc: int) -> bool {
    &&& 50 <= r <= 1_200_000
    &&& r > 50 ==> 20 * (r + 49) < left + 16 * inc
    &&& r < 1_200_000 ==> left + 16 * inc <= 20 * (r + 50)
}

/// For either side, the time taken from a clock that shows something is the
/// share of that side's own clock and increment.
pub proof fn time_is_share_of_own_clock(t: Times)
    requires
        t.movetime is None,
    ensures
        t.wtime matches Some(left) ==> left > 0 ==> fits_clock(
            allotted(false, 32, Color::White, t),
            left as int,
            match t.winc {
                Some(i) => i as int,
                None => 0,
            },
        ),
        t.btime matches Some(left) ==> left > 0 ==> fits_clock(
            allotted(false, 32, Color::Black, t),
            left as int,
            match t.binc {
                Some(i) => i as int,
                None => 0,
            },
        ),
{
}

/// Twenty milliseconds more on a side's own clock mean more thinking, as long as
/// neither the margin nor the cap is reached.
pub proof fn longer_clock_longer_thought(t: Times, u: Times)
    requires
        t.movetime is None,
        u.movetime is None,
    ensures
        ({
            let (r, s) = (allotted(false, 32, Color::White, t), allotted(false, 32, Color::White, u));
            t.winc == u.winc && t.wtime is Some && u.wtime is Some && t.wtime->0 > 0
                && u.wtime->0 >= t.wtime->0 + 20 && s > 50 && r < 1_200_000 ==> r < s
        }),
        ({
            let (r, s) = (allotted(false, 32, Color::Black, t), allotted(false, 32, Color::Black, u));
            t.binc == u.binc && t.btime is Some && u.btime is Some && t.btime->0 > 0
                && u.btime->0 >= t.btime->0 + 20 && s > 50 && r < 1_200_000 ==> r < s
        }),
{
}

/// What comes before the clock: an infinite search has twenty minutes; a given
/// time is kept, up to twenty minutes, whatever the depth; a depth that was asked
/// for, or a clock that shows nothing, gives eight seconds.
pub proof fn time_without_clock(max_depth: i32, side: Color, t: Times)
    ensures
        allotted(true, max_depth, side, t) == 1_200_000,
        t.movetime matches Some(ms) ==> {
            let r = allotted(false, max_depth, side, t);
            &&& ms <= 1_200_000 ==> r == ms
            &&& ms > 1_200_000 ==> r == 1_200_000
        },
        t.movetime is None && max_depth != 32 ==> allotted(false, max_depth, side, t) == 8_000,
        t.movetime is None && (t.wtime is None || t.wtime->0 <= 0) ==> allotted(
            false,
            32,
            Color::White,
            t,
        ) == 8_000,
        t.movetime is None && (t.btime is None || t.btime->0 <= 0) ==> allotted(
            false,
            32,
            Color::Black,
            t,
        ) == 8_000,
{
}

} // verus!
