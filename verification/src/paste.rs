//! Pasting the latest code: before Ctrl+V is typed, the user's fingers must
//! leave the modifier keys of the shortcut, or a still-held Shift would turn
//! the paste into Ctrl+Shift+V. The application reads the keyboard and
//! sleeps; this module decides, at each look at the keys, what to do next.

use vstd::prelude::*;

verus! {

/// How long the wait for released modifiers lasts at most, in milliseconds.
pub const MODIFIER_WAIT_LIMIT_MS: u64 = 600;

/// How long to sleep between two looks at the keys, in milliseconds.
pub const MODIFIER_POLL_MS: u64 = 15;

/// What to do after looking at the modifier keys.
#[derive(Clone, Copy, Debug, PartialEq, Eq, Structural)]
pub enum ModifierWait {
    /// No modifier is held: go on with the paste.
    Done,
    /// The limit has passed with a modifier still held: go on anyway.
    TimedOut,
    /// Sleep this many milliseconds, then look again.
    SleepMs(u64),
}

/// The decision after one look at the keys: done when none is pressed,
/// timed out once `elapsed_ms` reaches the limit, otherwise sleep briefly.
pub fn modifier_wait_step(any_pressed: bool, elapsed_ms: u64) -> (r: ModifierWait)
    ensures
        r == (if !any_pressed {
            ModifierWait::Done
        } else if elapsed_ms >= MODIFIER_WAIT_LIMIT_MS {
            ModifierWait::TimedOut
        } else {
            ModifierWait::SleepMs(MODIFIER_POLL_MS)
        }),
{
    if !any_pressed {
        ModifierWait::Done
    } else if elapsed_ms >= MODIFIER_WAIT_LIMIT_MS {
        ModifierWait::TimedOut
    } else {
        ModifierWait::SleepMs(MODIFIER_POLL_MS)
    }
}

} // verus!
