//! The decisions of the gallery window over a listing: which entries the
//! filter shows, how focus moves and wraps, which image comes next, the
//! lightbox filmstrip, the selection, the search and name boxes, file jobs
//! with their questions and undo, drops, and the texts of the status bar.

pub mod browse;
pub mod control;
pub mod nav;
pub mod ops;
pub mod prompt;
pub mod selection;
