//! Browser navigation state: which pane of the library browser is active and
//! which top-level screen is shown.

use vstd::prelude::*;

verus! {

/// Pane of the library browser, ordered artist, then album, then song.
#[derive(Clone, Copy, Debug, PartialEq, Eq, Structural)]
pub enum BrowserMode {
    Artist,
    Album,
    Song,
}

impl BrowserMode {
    /// Move one pane to the right, stopping at the song pane.
    pub fn next(&mut self)
        ensures
            *final(self) == match *old(self) {
                BrowserMode::Artist => BrowserMode::Album,
                BrowserMode::Album => BrowserMode::Song,
                BrowserMode::Song => BrowserMode::Song,
            },
    {
        match self {
            BrowserMode::Artist => *self = BrowserMode::Album,
            BrowserMode::Album => *self = BrowserMode::Song,
            BrowserMode::Song => (),
        }
    }

    /// Move one pane to the left, stopping at the artist pane.
    pub fn prev(&mut self)
        ensures
            *final(self) == match *old(self) {
                BrowserMode::Artist => BrowserMode::Artist,
                BrowserMode::Album => BrowserMode::Artist,
                BrowserMode::Song => BrowserMode::Album,
            },
    {
        match self {
            BrowserMode::Artist => (),
            BrowserMode::Album => *self = BrowserMode::Artist,
            BrowserMode::Song => *self = BrowserMode::Album,
        }
    }
}

/// Top-level screen: the library browser or the play queue.
#[derive(Clone, Copy, Debug, PartialEq, Eq, Structural)]
pub enum Mode {
    Browser,
    Queue,
}

impl Mode {
    /// Switch to the other screen.
    pub fn toggle(&mut self)
        ensures
            *final(self) == match *old(self) {
                Mode::Browser => Mode::Queue,
                Mode::Queue => Mode::Browser,
            },
    {
        match self {
            Mode::Browser => *self = Mode::Queue,
            Mode::Queue => *self = Mode::Browser,
        }
    }
}

} // verus!
