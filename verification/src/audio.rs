use vstd::prelude::*;

verus! {

/// What the caller's sound system has to do with the menu theme.
#[derive(Clone, Copy, PartialEq, Eq, Structural, Debug)]
pub enum MusicCommand {
    /// Start the menu theme, looped.
    Play,
    /// Stop the menu theme.
    Stop,
    /// Leave the music as it is.
    Nothing,
}

/// Whether the menu music is muted. The sounds themselves are the caller's.
pub struct AudioManager {
    pub music_muted: bool,
}

impl AudioManager {
    /// The state after the player toggles the music.
    pub open spec fn toggled(self) -> Self {
        AudioManager { music_muted: !self.music_muted }
    }

    /// Music starts unmuted.
    pub fn new() -> (a: Self)
        ensures
            !a.music_muted,
    {
        AudioManager { music_muted: false }
    }

    /// The menu asks for its theme: it plays unless the music is muted.
    pub fn play_menu_music(&self) -> (c: MusicCommand)
        ensures
            c == (if self.music_muted { MusicCommand::Nothing } else { MusicCommand::Play }),
    {
        if self.music_muted {
            MusicCommand::Nothing
        } else {
            MusicCommand::Play
        }
    }

    /// The player toggles the music: muting stops the theme, unmuting starts
    /// it again.
    pub fn toggle_music(&mut self) -> (c: MusicCommand)
        ensures
            *final(self) == old(self).toggled(),
            final(self).music_muted == !old(self).music_muted,
            c == (if final(self).music_muted { MusicCommand::Stop } else { MusicCommand::Play }),
    {
        self.music_muted = !self.music_muted;
        if self.music_muted {
            MusicCommand::Stop
        } else {
            self.play_menu_music()
        }
    }
}

/// Toggling the music twice gives back the state it started from, and the
/// theme plays again exactly when it played before.
pub proof fn lemma_toggle_twice(a: AudioManager)
    ensures
        a.toggled().toggled() == a,
        a.toggled().music_muted != a.music_muted,
{
}

} // verus!
