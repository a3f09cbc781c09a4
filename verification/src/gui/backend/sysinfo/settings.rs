//! The settings panel of the system domain.
use vstd::prelude::*;

verus! {

/// The settings panel; it holds no state of its own.
pub struct SettingsPanel;

impl SettingsPanel {
    pub fn new() -> (r: Self) {
        SettingsPanel
    }
}

} // verus!
