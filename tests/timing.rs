use roommates::{display_duration, TimeUnit};

#[test]
fn next_steps_up_one_unit() {
    assert_eq!(TimeUnit::Nanoseconds.next(), TimeUnit::Microseconds);
    assert_eq!(TimeUnit::Microseconds.next(), TimeUnit::Milliseconds);
    assert_eq!(TimeUnit::Milliseconds.next(), TimeUnit::Seconds);
}

#[test]
fn repr_gives_each_symbol() {
    assert_eq!(TimeUnit::Nanoseconds.repr(), "ns");
    assert_eq!(TimeUnit::Microseconds.repr(), "\u{3bc}s");
    assert_eq!(TimeUnit::Milliseconds.repr(), "ms");
    assert_eq!(TimeUnit::Seconds.repr(), "s");
}

#[test]
fn short_durations_stay_in_nanoseconds() {
    assert_eq!(display_duration(0), (0, TimeUnit::Nanoseconds));
    assert_eq!(display_duration(5000), (5000, TimeUnit::Nanoseconds));
}

#[test]
fn just_over_the_limit_moves_to_microseconds() {
    assert_eq!(display_duration(5001), (5, TimeUnit::Microseconds));
    assert_eq!(display_duration(5_000_999), (5000, TimeUnit::Microseconds));
}

#[test]
fn milliseconds_and_seconds() {
    assert_eq!(display_duration(6_000_000), (6, TimeUnit::Milliseconds));
    assert_eq!(display_duration(5_000_000_000), (5000, TimeUnit::Milliseconds));
    assert_eq!(display_duration(5_000_000_001), (5000, TimeUnit::Milliseconds));
    assert_eq!(display_duration(5_001_000_000), (5, TimeUnit::Seconds));
}

#[test]
fn seconds_are_the_largest_unit() {
    assert_eq!(display_duration(10_000_000_000_000), (10_000, TimeUnit::Seconds));
}
