//! What the screens show and how they react to commands.

pub mod bind_key_menu;
pub mod saved_tracks;
