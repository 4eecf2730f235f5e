//! Value types exchanged with the presentation layer's control strip.
//!
//! The widgets themselves are rendering code and live outside this crate;
//! only the action values they produce, and how several sources of actions
//! combine, are defined here.

use vstd::prelude::*;

verus! {

/// Actions requested through the on-screen control strip.
#[derive(Debug, Default)]
pub struct ControlStripOutput {
    pub toggle_recording: bool,
    pub replay_reference: bool,
}

/// Combined control actions gathered from widgets and keyboard shortcuts.
#[derive(Debug, Default)]
pub struct ControlActions {
    pub toggle_recording: bool,
    pub replay_reference: bool,
}

impl ControlActions {
    /// Folds another batch of actions into this one; a request from any
    /// source is kept.
    pub fn merge(&mut self, other: ControlActions)
        ensures
            final(self).toggle_recording == (old(self).toggle_recording
                || other.toggle_recording),
            final(self).replay_reference == (old(self).replay_reference
                || other.replay_reference),
    {
        self.toggle_recording = self.toggle_recording || other.toggle_recording;
        self.replay_reference = self.replay_reference || other.replay_reference;
    }

    /// Lifts a control-strip result into the common action value.
    pub fn from_strip(output: ControlStripOutput) -> (r: ControlActions)
        ensures
            r.toggle_recording == output.toggle_recording,
            r.replay_reference == output.replay_reference,
    {
        ControlActions {
            toggle_recording: output.toggle_recording,
            replay_reference: output.replay_reference,
        }
    }
}

} // verus!
