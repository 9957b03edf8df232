//! Interactive input subsystem of a command-line shell.
//!
//! The crate models the parts of the shell that turn raw terminal bytes into
//! a committed command line: a bounded history ring with oldest-overwrite
//! eviction, a key-event decoder for the terminal's control-byte convention,
//! a line editor that applies decoded events to an edit buffer, a suggestion
//! engine (directory-prefix match with history fallback), and the durable
//! line-per-entry history file format.  All terminal, filesystem and process
//! I/O lives outside this crate; these modules work on plain byte values.

pub mod bytes;
pub mod circular_buffer;
pub mod editor;
pub mod error;
pub mod histfile;
pub mod keys;
pub mod suggest;
