//! The Metals server's status notification.

use vstd::prelude::*;

verus! {

/// The parameters of `metals/status`.
#[derive(Clone, Debug)]
pub struct MetalsStatusParams {
    /// The text to display in the status bar.
    pub text: String,
    /// If true, show the status bar.
    pub show: Option<bool>,
    /// If true, hide the status bar.
    pub hide: Option<bool>,
    /// If set, display this message when user hovers over the status bar.
    pub tooltip: Option<String>,
    /// If set, execute this command when the user clicks on the status bar item.
    pub command: Option<String>,
}

} // verus!
