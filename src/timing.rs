//! Units for showing an elapsed time, and the choice of unit for a duration.

use vstd::prelude::*;

verus! {

/// A unit in which an elapsed time is shown.
#[derive(Clone, Copy, Debug, PartialEq, Eq, Structural)]
pub enum TimeUnit {
    Nanoseconds,
    Microseconds,
    Milliseconds,
    Seconds,
}

/// Position of a unit on the scale, from nanoseconds upward.
pub open spec fn unit_rank(u: TimeUnit) -> nat {
    match u {
        TimeUnit::Nanoseconds => 0,
        TimeUnit::Microseconds => 1,
        TimeUnit::Milliseconds => 2,
        TimeUnit::Seconds => 3,
    }
}

/// The unit one step (a factor of a thousand) larger.
pub open spec fn unit_after(u: TimeUnit) -> TimeUnit {
    match u {
        TimeUnit::Nanoseconds => TimeUnit::Microseconds,
        TimeUnit::Microseconds => TimeUnit::Milliseconds,
        _ => TimeUnit::Seconds,
    }
}

/// The symbol written after a number in that unit.
pub open spec fn unit_symbol(u: TimeUnit) -> Seq<char> {
    match u {
        TimeUnit::Nanoseconds => seq!['n', 's'],
        TimeUnit::Microseconds => seq!['\u{3bc}', 's'],
        TimeUnit::Milliseconds => seq!['m', 's'],
        TimeUnit::Seconds => seq!['s'],
    }
}

impl TimeUnit {
    /// The next larger unit. Seconds are the largest unit and have none.
    pub fn next(&self) -> (r: TimeUnit)
        requires
            !(*self is Seconds),
        ensures
            r == unit_after(*self),
            unit_rank(r) == unit_rank(*self) + 1,
    {
        match self {
            TimeUnit::Nanoseconds => TimeUnit::Microseconds,
            TimeUnit::Microseconds => TimeUnit::Milliseconds,
            _ => TimeUnit::Seconds,
        }
    }

    /// The unit's symbol: "ns", "μs", "ms" or "s".
    pub fn repr(&self) -> (r: &'static str)
        ensures
            r@ == unit_symbol(*self),
    {
        match self {
            TimeUnit::Nanoseconds => {
                proof {
                    reveal_strlit("ns");
                }
                "ns"
            },
            TimeUnit::Microseconds => {
                proof {
                    reveal_strlit("\u{3bc}s");
                }
                "\u{3bc}s"
            },
            TimeUnit::Milliseconds => {
                proof {
                    reveal_strlit("ms");
                }
                "ms"
            },
            TimeUnit::Seconds => {
                proof {
                    reveal_strlit("s");
                }
                "s"
            },
        }
    }
}

/// How a number of nanoseconds is shown: divided by a thousand, and the unit
/// raised, while the number exceeds 5000, at most up to seconds.
pub open spec fn shown_duration(nanos: int) -> (int, TimeUnit) {
    if nanos <= 5000 {
        (nanos, TimeUnit::Nanoseconds)
    } else if nanos / 1000 <= 5000 {
        (nanos / 1000, TimeUnit::Microseconds)
    } else if nanos / 1000 / 1000 <= 5000 {
        (nanos / 1000 / 1000, TimeUnit::Milliseconds)
    } else {
        (nanos / 1000 / 1000 / 1000, TimeUnit::Seconds)
    }
}

/// Picks a readable unit for a duration given in nanoseconds, and the whole
/// number of that unit (rounded down) to show with it.
pub fn display_duration(nanos: u128) -> (r: (u128, TimeUnit))
    ensures
        r.0 as int == shown_duration(nanos as int).0,
        r.1 == shown_duration(nanos as int).1,
{
    let mut unit = TimeUnit::Nanoseconds;
    let mut time: u128 = nanos;
    if time > 5000 {
        time = time / 1000;
        unit = unit.next();
    }
    if time > 5000 {
        time = time / 1000;
        unit = unit.next();
    }
    if time > 5000 {
        time = time / 1000;
        unit = unit.next();
    }
    (time, unit)
}

} // verus!
