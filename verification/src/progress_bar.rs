//! The capability to show how far the work has come, and what it passed over.

use vstd::prelude::*;

verus! {

/// A display of progress over a number of steps, and of the failures on the
/// way.
pub trait ProgressBar {
    /// Says how many steps there will be.
    fn set_total(&mut self, total: u64);

    /// Shows `message` beside the bar.
    fn set_message(&mut self, message: &str);

    /// Marks one more step as done.
    fn increment(&mut self);

    /// Tells that the crate `crate_name` was passed over, and why.
    fn report_failure(&mut self, crate_name: &str, reason: &str);
}

} // verus!
