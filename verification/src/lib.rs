//! A keyboard-chord launcher: sequences of arrow keys select shortcut entries,
//! which open a file or run a command. This crate holds the launcher's logic:
//! the key tokens, the matching of typed sequences against configured entries,
//! the shortcut configuration, the launch command line and the state machine
//! that a graphical front end drives frame by frame.

pub mod token;
pub mod matching;
pub mod config;
pub mod launch;
pub mod keyboard;
pub mod laws;
