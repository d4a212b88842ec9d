//! The user's commands, as far as this crate binds keys to them or reacts to them.

use vstd::prelude::*;

verus! {

/// Where a movement goes.
#[derive(Clone, Copy, Debug, PartialEq, Eq, Structural)]
pub enum MoveMode {
    Up,
    Down,
    Left,
    Right,
    Playing,
}

/// How far a movement goes.
#[derive(Clone, Copy, Debug, PartialEq, Eq, Structural)]
pub enum MoveAmount {
    /// A number of rows.
    Integer(i32),
    /// A share of the visible height, as the bits of an IEEE 754 single-precision number.
    Float(u32),
    /// As far as possible.
    Extreme,
}

/// The bits of the single-precision number one: a whole screen.
pub const WHOLE_SCREEN: u32 = 0x3f80_0000;

impl Default for MoveAmount {
    fn default() -> (r: Self)
        ensures
            r == MoveAmount::Integer(1),
    {
        MoveAmount::Integer(1)
    }
}

/// Where seeking goes, in milliseconds.
#[derive(Clone, Copy, Debug, PartialEq, Eq, Structural)]
pub enum SeekDirection {
    Relative(i32),
    Absolute(u32),
}

/// A command of the user.
pub enum Command {
    Quit,
    Play,
    TogglePlay,
    Previous,
    Next,
    Queue,
    Back,
    ReloadConfig,
    /// Open the menu that binds a key to a playlist.
    BindKey,
    /// Show or hide the tracks that are already filed.
    ToggleSortFilter,
    /// File the selected track into, or take it out of, the playlist of this name.
    AddToPlaylist(String),
    /// Take the selected track out of every playlist that has a key.
    RemoveFromPlaylists,
    Move(MoveMode, MoveAmount),
    Seek(SeekDirection),
    /// Any command this crate leaves to others.
    Other,
}

} // verus!
