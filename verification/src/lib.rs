//! Dandelion: the rules behind a small music-file organizer.
//!
//! The library decides which files are music, how they are ordered, how each
//! one is renamed when an album is organized or a folder is renumbered, and
//! where the music folder is. Reading folders, prompting and moving files
//! are left to the program around it.
pub mod text;
pub mod path;
pub mod music;
pub mod organize;
pub mod reorder;
pub mod rename;
pub mod locate;
