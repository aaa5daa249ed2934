//! What the command line tool decides and prints.

pub mod command;
pub mod error;
pub mod guidance;
pub mod info;
pub mod output;
