//! Timestamps of the activity log.

use std::time::{Duration, SystemTime, UNIX_EPOCH};

use vstd::prelude::*;

verus! {

#[verifier::external_type_specification]
#[verifier::external_body]
pub struct ExSystemTime(std::time::SystemTime);

/// `SystemTime::now`: the current wall-clock time (nothing is known of it).
#[verifier::external_body]
fn wall_clock_now() -> SystemTime {
    SystemTime::now()
}

/// `SystemTime::duration_since(UNIX_EPOCH)`: the time since the epoch,
/// `None` for a clock set before it (nothing more is known of it).
#[verifier::external_body]
fn since_unix_epoch(t: SystemTime) -> Option<Duration> {
    t.duration_since(UNIX_EPOCH).ok()
}

/// `Duration::as_secs`: the whole seconds of a duration (nothing more is known of it).
#[verifier::external_body]
fn whole_seconds(d: Duration) -> u64 {
    d.as_secs()
}

pub open spec fn digit_char(d: nat) -> char {
    (('0' as u32) + d) as char
}

/// The decimal numeral of `n`.
pub open spec fn decimal(n: nat) -> Seq<char>
    decreases n,
{
    if n < 10 {
        seq![digit_char(n)]
    } else {
        decimal(n / 10).push(digit_char(n % 10))
    }
}

/// The decimal numeral of `n` (`u64::to_string`).
pub fn decimal_string(n: u64) -> (s: String)
    ensures
        s@ == decimal(n as nat),
    decreases n,
{
    let d = (n % 10) as u8;
    let c = ((48u8 + d) as char);
    assert(c == digit_char((n % 10) as nat));
    if n < 10 {
        let mut s = String::new();
        crate::text::push_char(&mut s, c);
        assert(s@ =~= seq![c]);
        s
    } else {
        let mut s = decimal_string(n / 10);
        crate::text::push_char(&mut s, c);
        s
    }
}

/// The text of a timestamp: the seconds since the epoch, `0` when the clock
/// is set before it.
pub fn timestamp_text(seconds: Option<u64>) -> (s: String)
    ensures
        match seconds {
            Some(n) => s@ == decimal(n as nat),
            None => s@ == "0"@,
        },
{
    match seconds {
        Some(n) => decimal_string(n),
        None => crate::text::text("0"),
    }
}

/// The current time as seconds since the epoch, in decimal.
pub fn now_string() -> (s: String)
    ensures
        exists|n: u64| s@ == decimal(n as nat),
{
    let seconds = match since_unix_epoch(wall_clock_now()) {
        Some(d) => Some(whole_seconds(d)),
        None => None,
    };
    let s = timestamp_text(seconds);
    proof {
        reveal_strlit("0");
        match seconds {
            Some(n) => {
                assert(s@ == decimal(n as nat));
            },
            None => {
                assert(s@ =~= decimal(0));
            },
        }
    }
    s
}

} // verus!
