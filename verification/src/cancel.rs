//! The cancellation signal: a flag that another thread may set at any time.

use vstd::prelude::*;
use core::sync::atomic::AtomicBool;

verus! {

/// Whether the signal is set at this moment. Without a flag there is nothing
/// to observe, and the answer is `false`. With one, any answer is possible:
/// the flag belongs to whoever may cancel.
pub fn is_cancelled(cancel_flag: Option<&AtomicBool>) -> (cancelled: bool)
    ensures
        cancel_flag is None ==> !cancelled,
{
    match cancel_flag {
        Some(flag) => flag.load(core::sync::atomic::Ordering::Relaxed),
        None => false,
    }
}

} // verus!
