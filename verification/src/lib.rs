//! Library core of a photo and video gallery: the rules for names, paths,
//! listings, sorting, file operations, previews and preferences.
//!
//! Every function here is pure: the application around it reads the disk
//! and the window system, hands the facts in as plain values, and carries
//! out the plans that come back.

pub mod text;
pub mod path;
pub mod media;
pub mod prefs;
pub mod sort;
pub mod density;
pub mod viewer;
pub mod theme;
pub mod tray;
pub mod gallery;
