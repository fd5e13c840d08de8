//! Scheduled background tasks: when the nightly compaction is due.

use vstd::prelude::*;

verus! {

/// The seconds to wait at least after a nightly run, so that it is not started again within the same
/// hour.
pub const PAUSE_SECS: u64 = 3600;

/// `std::time::SystemTime::now`, as seconds since the Unix epoch, zero before it.
#[verifier::external_body]
fn unix_now() -> (r: u64) {
    let since = std::time::SystemTime::now().duration_since(std::time::UNIX_EPOCH);
    since.unwrap_or_default().as_secs()
}

/// Seconds from `now` until the next occurrence of `hour:00:00 UTC`; a full day where it is that
/// time now.
pub fn secs_from(now: u64, hour: u32) -> (r: u64)
    ensures
        0 < r <= 86400,
        (now + r) % 86400 == (hour % 24) * 3600,
{
    let since: u64 = now % 86400;
    let offset: u64 = (hour % 24) as u64 * 3600;
    let r: u64 = if offset > since { offset - since } else { offset + 86400 - since };
    assert((now + r) % 86400 == offset) by {
        let days = now as int / 86400;
        assert(now == days * 86400 + since);
        let k = if offset > since { days } else { days + 1 };
        assert(now + r == k * 86400 + offset);
        vstd::arithmetic::div_mod::lemma_fundamental_div_mod_converse(
            now + r,
            86400,
            k,
            offset as int,
        );
    }
    r
}

/// Seconds from now until the next occurrence of `hour:00:00 UTC`: what `secs_from` gives for the
/// reading of the machine's clock, which no clause can name.
pub fn secs_until_hour(hour: u32) -> (r: u64)
    ensures
        0 < r <= 86400,
{
    secs_from(unix_now(), hour)
}

/// The wait that `secs_from` gives is the only one within a day.
pub proof fn law_wait_is_unique(now: u64, hour: u32, a: u64, b: u64)
    requires
        0 < a <= 86400,
        0 < b <= 86400,
        (now + a) % 86400 == (hour % 24) * 3600,
        (now + b) % 86400 == (hour % 24) * 3600,
    ensures
        a == b,
{
}

} // verus!
