//! Fixed operation tags.
use vstd::prelude::*;

verus! {

/// The tag put on the outbound gateway instruction, and the only tag on
/// which a deferred continuation is accepted.
pub const ISEND_ID: u64 = 125;

} // verus!
