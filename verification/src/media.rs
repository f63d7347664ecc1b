//! What the gallery knows about files on disk: kinds of media, listings,
//! previews, names to ignore, and the rules for changing the library.

pub mod fs;
pub mod ignore;
pub mod preview;
pub mod scan;
pub mod types;
