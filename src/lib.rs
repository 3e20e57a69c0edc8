//! The lifecycle of a desktop application's native entry point: it hands control to
//! the host runtime once, and ends the process at once, with the success status, when
//! the front end invokes the exit command.

pub mod lifecycle;
