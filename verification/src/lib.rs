//! Core library of a terminal music player.
//!
//! The heart of the crate is [`rb`], a bounded single-producer/single-consumer
//! circular buffer that carries decoded audio samples from a decoding thread to
//! the audio-output callback. Around it stand the player's plain data types and
//! the in-memory song index that the user interface queries.

use vstd::prelude::*;

pub mod browser;
pub mod player;
pub mod rb;
pub mod settings;
pub mod song;
pub mod toml;
pub mod vdb;

verus! {

use vstd::string::StringExecFns;

/// Path of the settings database inside the player's configuration directory.
pub fn settings_path(gonk_path: &str) -> (r: String)
    ensures
        r@ == gonk_path@ + "/settings.db"@,
{
    let mut path = String::from_str(gonk_path);
    path.append("/settings.db");
    path
}

} // verus!
