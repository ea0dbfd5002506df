//! A time-based one-time password authenticator: credential URIs are parsed
//! into descriptors, codes are computed from them, and a table of codes is
//! laid out frame by frame for a terminal.

pub mod clock;
pub mod text;
pub mod store;
pub mod descriptor;
pub mod code;
pub mod display;
