//! Sorting Liked Songs into playlists, one key per playlist, with offline BPM detection.
//!
//! This crate holds the rules of the player's additions: the list of liked songs and how it is kept
//! in line with the service, the store behind it, the playlists' keys and the changes that they
//! ask for, the schedule and the decisions of tempo detection, and what the screens show. Talking
//! to the service, drawing and signal arithmetic are left to the program around it, which hands in
//! what came of them.

pub mod bpm;
pub mod bpm_scanner;
pub mod command;
pub mod db;
pub mod filters;
pub mod formatting;
pub mod keybindings;
pub mod liked_songs;
pub mod load_debounce;
pub mod model;
pub mod sort;
pub mod store;
pub mod text;
pub mod ui;
