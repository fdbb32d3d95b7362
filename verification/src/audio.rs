//! What the simulation asks of the audio side. A command is a message: the
//! simulation hands it out and never learns what became of it.

use vstd::prelude::*;

verus! {

/// A short sound effect.
#[derive(Clone, Copy, PartialEq, Eq, Structural, Debug)]
pub enum Sound {
    Collect,
    Win,
    TimeUp,
}

/// A looping track.
#[derive(Clone, Copy, PartialEq, Eq, Structural, Debug)]
pub enum Music {
    Background,
}

/// One request to the audio side.
#[derive(Clone, Copy, PartialEq, Eq, Structural, Debug)]
pub enum AudioCommand {
    PlaySound(Sound),
    PlayMusic(Music),
    StopMusic,
}

impl Sound {
    /// The name under which the sound is known to the audio side.
    pub open spec fn spec_name(&self) -> Seq<char> {
        match self {
            Sound::Collect => "collect"@,
            Sound::Win => "win"@,
            Sound::TimeUp => "timeup"@,
        }
    }

    pub fn name(&self) -> (name: &'static str)
        ensures
            name@ == self.spec_name(),
    {
        match self {
            Sound::Collect => "collect",
            Sound::Win => "win",
            Sound::TimeUp => "timeup",
        }
    }
}

impl Music {
    /// The name under which the track is known to the audio side.
    pub open spec fn spec_name(&self) -> Seq<char> {
        match self {
            Music::Background => "bgm"@,
        }
    }

    pub fn name(&self) -> (name: &'static str)
        ensures
            name@ == self.spec_name(),
    {
        match self {
            Music::Background => "bgm",
        }
    }
}

} // verus!
