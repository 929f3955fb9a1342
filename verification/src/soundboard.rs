//! Soundboard: the sounds that play through the dedicated soundboard strip.
use vstd::prelude::*;

use crate::text::{join_path, path_join};

verus! {

/// Name of the virtual sink every soundboard sound plays into.
pub const SOUNDBOARD_SINK_NAME: &'static str = "audibian_soundboard";

#[derive(Debug)]
pub struct Sound {
    pub id: u32,
    pub name: String,
    /// Absolute path of the audio file.
    pub path: String,
    /// Total media duration in milliseconds, once known.
    pub duration_ms: Option<u32>,
    /// Optional trim window (milliseconds).
    pub start_ms: Option<u32>,
    pub end_ms: Option<u32>,
}

#[derive(Debug)]
pub struct SoundboardConfig {
    sounds: Vec<Sound>,
    next_id: u32,
}

impl SoundboardConfig {
    pub closed spec fn counter(&self) -> u32 {
        self.next_id
    }

    pub closed spec fn sound_seq(&self) -> Seq<Sound> {
        self.sounds@
    }

    /// Where the soundboard is kept, under the home directory `home`.
    pub fn config_path(home: &str) -> (r: String)
        ensures
            r@ == join_path(home@, ".config/audibian/soundboard.toml"@),
    {
        path_join(home, ".config/audibian/soundboard.toml")
    }

    /// Where uploaded sound files live, under the home directory `home`.
    pub fn sounds_dir(home: &str) -> (r: String)
        ensures
            r@ == join_path(home@, ".local/share/audibian/sounds"@),
    {
        path_join(home, ".local/share/audibian/sounds")
    }

    /// The sounds, in order.
    pub fn sounds(&self) -> (r: &[Sound])
        ensures
            r@ == self.sound_seq(),
    {
        self.sounds.as_slice()
    }

    /// A soundboard holding `sounds` whose id counter stands at `next_id`.
    pub fn from_parts(sounds: Vec<Sound>, next_id: u32) -> (r: Self)
        ensures
            r.sound_seq() == sounds@,
            r.counter() == next_id,
    {
        SoundboardConfig { sounds, next_id }
    }

    /// The current value of the id counter.
    pub fn id_counter(&self) -> (r: u32)
        ensures
            r == self.counter(),
    {
        self.next_id
    }

    /// Hands out the next sound id (never 0) and advances the counter.
    pub fn next_id(&mut self) -> (id: u32)
        requires
            old(self).counter() < u32::MAX,
        ensures
            id == if old(self).counter() >= 1 { old(self).counter() } else { 1 },
            final(self).counter() == id + 1,
            final(self).sound_seq() == old(self).sound_seq(),
    {
        let id = if self.next_id >= 1 { self.next_id } else { 1 };
        self.next_id = id + 1;
        id
    }
}

impl Default for SoundboardConfig {
    fn default() -> (r: Self)
        ensures
            r.sound_seq().len() == 0,
            r.counter() == 0,
    {
        SoundboardConfig { sounds: Vec::new(), next_id: 0 }
    }
}

/// Ids handed out one after the other are never 0 and keep increasing.
pub proof fn lemma_next_ids_increase(counter: u32)
    requires
        counter < u32::MAX - 1,
    ensures
        ({
            let a = if counter >= 1 { counter } else { 1 };
            let b = if a + 1 >= 1 { a + 1 } else { 1 };
            1 <= a < b
        }),
{
}

} // verus!
