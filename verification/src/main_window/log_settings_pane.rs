//! The state of the pane with the log settings.

use vstd::prelude::*;

verus! {

/// The two lines of text that the pane edits.
#[derive(Debug)]
pub struct LogSettingsPane {
    pub text1: String,
    pub text2: String,
}

impl LogSettingsPane {
    /// A pane with both lines empty.
    pub fn new() -> (pane: Self)
        ensures
            pane.text1@ == Seq::<char>::empty(),
            pane.text2@ == Seq::<char>::empty(),
    {
        LogSettingsPane { text1: String::new(), text2: String::new() }
    }
}

} // verus!
