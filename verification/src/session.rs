//! The clipboard session guard: exclusive use of the global clipboard for
//! the duration of one read or write operation, acquired with bounded
//! retries against transient contention and released deterministically.

use crate::error::ClipboardError;
use crate::host::HostClipboard;
use vstd::prelude::*;

verus! {

/// The retry ceiling the providers use when acquiring the clipboard.
pub const DEFAULT_ACQUIRE_ATTEMPTS: u32 = 10;

/// Acquire exclusive use of the clipboard, retrying immediately on a busy
/// host, up to `max_attempts` attempts in all.
///
/// The bounded-retry law is this contract: acquisition succeeds if and only
/// if fewer than `max_attempts` busy responses are pending, and against a
/// host that stays busy it fails after exactly `max_attempts` attempts —
/// the pending count drops by exactly that many — never fewer, never more,
/// and without blocking.
pub fn acquire(host: &mut HostClipboard, max_attempts: u32) -> (r: Result<(), ClipboardError>)
    requires
        old(host).inv(),
        !old(host).opened,
        max_attempts >= 1,
    ensures
        final(host).inv(),
        final(host).same_registry(old(host)),
        final(host).same_memory(old(host)),
        final(host).same_flags(old(host)),
        old(host).busy_pending < max_attempts ==> r == Ok::<(), ClipboardError>(()) && final(host).opened && final(host).busy_pending == 0,
        old(host).busy_pending >= max_attempts ==> r == Err::<(), ClipboardError>(
            ClipboardError::ClipboardUnavailable,
        ) && !final(host).opened && final(host).busy_pending == old(host).busy_pending
            - max_attempts,
{
    let mut attempt: u32 = 0;
    while attempt < max_attempts
        invariant
            attempt <= max_attempts,
            attempt <= old(host).busy_pending,
            host.inv(),
            !host.opened,
            host.busy_pending == old(host).busy_pending - attempt,
            host.same_registry(old(host)),
            host.same_memory(old(host)),
            host.same_flags(old(host)),
        decreases max_attempts - attempt,
    {
        if host.try_open() {
            return Ok(());
        }
        attempt += 1;
    }
    Err(ClipboardError::ClipboardUnavailable)
}

/// Release the clipboard, ending the session. Exactly one release matches
/// each successful acquisition, on every path of the callers.
pub fn release(host: &mut HostClipboard)
    requires
        old(host).inv(),
        old(host).opened,
    ensures
        final(host).inv(),
        !final(host).opened,
        final(host).busy_pending == old(host).busy_pending,
        final(host).same_registry(old(host)),
        final(host).same_memory(old(host)),
        final(host).same_flags(old(host)),
{
    host.close();
}

} // verus!
