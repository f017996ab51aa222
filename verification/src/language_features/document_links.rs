//! Following document links.

use vstd::prelude::*;

verus! {

/// The parameters of a request to follow the link under a selection.
#[derive(Clone, Debug)]
pub struct DocumentLinkOptions {
    pub selection_desc: String,
}

} // verus!
