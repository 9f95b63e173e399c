//! The state of the pane with the plot settings.

use vstd::prelude::*;

verus! {

/// The two lines of text that the pane edits.
#[derive(Debug)]
pub struct PlotSettingsPane {
    pub text1: String,
    pub text2: String,
}

impl PlotSettingsPane {
    /// A pane with both lines empty.
    pub fn new() -> (pane: Self)
        ensures
            pane.text1@ == Seq::<char>::empty(),
            pane.text2@ == Seq::<char>::empty(),
    {
        PlotSettingsPane { text1: String::new(), text2: String::new() }
    }
}

} // verus!
