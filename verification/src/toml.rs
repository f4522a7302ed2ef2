//! Configuration data: key bindings and player options, as they appear in the
//! configuration file. Reading and writing the file itself is the caller's
//! business; these are the plain values.

use vstd::prelude::*;

verus! {

/// A modifier key held together with a bound key.
#[derive(Clone, Copy, Debug, PartialEq, Eq, Structural)]
pub enum Modifier {
    Control,
    Shift,
    Alt,
}

impl Modifier {
    /// The modifiers named by a modifier bitset: bit 0 is shift, bit 1 is
    /// control, bit 2 is alt. Combinations of three or more, and empty or
    /// unknown bitsets, are not supported and give nothing.
    pub fn from_bitflags(bits: u8) -> (r: Option<Vec<Modifier>>)
        ensures
            match bits {
                0b0000_0001u8 => r matches Some(v) && v@ == seq![Modifier::Shift],
                0b0000_0100u8 => r matches Some(v) && v@ == seq![Modifier::Alt],
                0b0000_0010u8 => r matches Some(v) && v@ == seq![Modifier::Control],
                3u8 => r matches Some(v) && v@ == seq![Modifier::Control, Modifier::Shift],
                5u8 => r matches Some(v) && v@ == seq![Modifier::Alt, Modifier::Shift],
                6u8 => r matches Some(v) && v@ == seq![Modifier::Control, Modifier::Alt],
                _ => r is None,
            },
    {
        match bits {
            0b0000_0001 => Some(vec![Modifier::Shift]),
            0b0000_0100 => Some(vec![Modifier::Alt]),
            0b0000_0010 => Some(vec![Modifier::Control]),
            3 => Some(vec![Modifier::Control, Modifier::Shift]),
            5 => Some(vec![Modifier::Alt, Modifier::Shift]),
            6 => Some(vec![Modifier::Control, Modifier::Alt]),
            _ => None,
        }
    }
}

/// A key name as written in the configuration file, upper case for letters
/// and words such as `SPACE` or `ENTER` for the rest.
#[derive(Clone, Debug)]
pub struct Key(pub String);

/// One binding: a key together with the modifiers that must be held.
#[derive(Clone, Debug)]
pub struct Bind {
    pub key: Key,
    pub modifiers: Option<Vec<Modifier>>,
}

/// The key bindings of every player action; each action accepts any of its
/// listed bindings.
#[derive(Clone, Debug)]
pub struct Hotkey {
    pub up: Vec<Bind>,
    pub down: Vec<Bind>,
    pub left: Vec<Bind>,
    pub right: Vec<Bind>,
    pub play_pause: Vec<Bind>,
    pub volume_up: Vec<Bind>,
    pub volume_down: Vec<Bind>,
    pub next: Vec<Bind>,
    pub previous: Vec<Bind>,
    pub seek_forward: Vec<Bind>,
    pub seek_backward: Vec<Bind>,
    pub clear: Vec<Bind>,
    pub clear_except_playing: Vec<Bind>,
    pub delete: Vec<Bind>,
    pub search: Vec<Bind>,
    pub options: Vec<Bind>,
    pub random: Vec<Bind>,
    pub change_mode: Vec<Bind>,
    pub refresh_database: Vec<Bind>,
    pub quit: Vec<Bind>,
}

/// The player options: music directories, the wanted output device and the
/// startup volume.
#[derive(Clone, Debug)]
pub struct Config {
    pub paths: Vec<String>,
    pub output_device: String,
    pub volume: u16,
}

impl Config {
    /// Add a music directory unless an equal one is already listed; says
    /// whether anything changed, so the caller knows to rewrite the file.
    pub fn add_path(&mut self, path: String) -> (added: bool)
        ensures
            final(self).output_device == old(self).output_device,
            final(self).volume == old(self).volume,
            added == !(exists|i: int|
                0 <= i < old(self).paths@.len() && old(self).paths@[i]@ == path@),
            added ==> final(self).paths@ == old(self).paths@.push(path),
            !added ==> final(self).paths@ == old(self).paths@,
    {
        let n = self.paths.len();
        let mut found = false;
        #[verifier::loop_isolation(false)]
        for k in 0..n
            invariant
                found == exists|i: int| 0 <= i < k && self.paths@[i]@ == path@,
                self.paths@ == old(self).paths@,
                self.output_device == old(self).output_device,
                self.volume == old(self).volume,
        {
            if self.paths[k] == path {
                found = true;
            }
        }
        if !found {
            self.paths.push(path);
            return true;
        }
        false
    }
}

} // verus!
