//! Playback command state shared with the audio thread.

use vstd::prelude::*;

verus! {

/// Whether playback has been started; the audio thread polls this.
pub struct Command {
    pub playing: bool,
}

impl Command {
    /// Playback starts paused.
    pub fn new() -> (r: Command)
        ensures
            !r.playing,
    {
        Command { playing: false }
    }
}

} // verus!
