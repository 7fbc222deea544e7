//! When a file counts as finished. The scan and the check before an upload share
//! this one definition, so that they never disagree.
use vstd::prelude::*;

verus! {

/// How long a file must have stayed unchanged, in milliseconds.
pub const STABLE_MS: u128 = 5000;

/// Whether a file last changed at `mtime` is finished at `now`: its age, taken as
/// zero where the change lies in the future, has reached the bound.
pub open spec fn settled_at(now: int, mtime: int) -> bool {
    now - mtime >= STABLE_MS
}

/// Whether a file last changed at `mtime_ms` is finished at `now_ms`.
pub fn is_settled(now_ms: u128, mtime_ms: u128) -> (r: bool)
    ensures
        r == settled_at(now_ms as int, mtime_ms as int),
{
    now_ms.saturating_sub(mtime_ms) >= STABLE_MS
}

/// The current time in milliseconds since 1970, as the clock gives it; zero where the
/// clock stands before that.
pub fn now_ms(since_epoch: Option<u128>) -> (r: u128)
    ensures
        r == (match since_epoch {
            Some(ms) => ms as int,
            None => 0,
        }),
{
    match since_epoch {
        Some(ms) => ms,
        None => 0,
    }
}

/// When a file last changed, in milliseconds since 1970; zero where that cannot be read.
pub fn mtime_ms(since_epoch: Option<u128>) -> (r: u128)
    ensures
        r == (match since_epoch {
            Some(ms) => ms as int,
            None => 0,
        }),
{
    match since_epoch {
        Some(ms) => ms,
        None => 0,
    }
}

/// A file that is finished stays finished while it does not change.
pub proof fn settled_stays(now: int, later: int, mtime: int)
    requires
        now <= later,
        settled_at(now, mtime),
    ensures
        settled_at(later, mtime),
{
}

} // verus!
