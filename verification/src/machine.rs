//! Machine-specific bring-up hooks.

use vstd::prelude::*;

verus! {

/// Late machine initialization, run once the core kernel is up.  Nothing
/// is needed here on this board yet.
pub fn machine_post_init() {
}

} // verus!
