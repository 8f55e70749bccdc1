//! The terminal front end: the state that the keys drive.

pub mod app;
