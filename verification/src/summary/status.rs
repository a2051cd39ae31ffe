//! Common status badges, so that every action's summary uses the same
//! visual language.
use vstd::prelude::*;

verus! {

pub const PASSED: &'static str = "✓ Passed";

pub const FAILED: &'static str = "✗ Failed";

pub const SKIPPED: &'static str = "⊘ Skipped";

pub const PAUSED: &'static str = "❚❚ Paused";

pub const PENDING: &'static str = "… Pending";

} // verus!
