//! Laws that hold across the library.

pub mod command;
pub mod constraints;
pub mod conversation;
pub mod description;
pub mod discovery;
pub mod display;
pub mod finding;
pub mod guidance;
pub mod limits;
pub mod listing;
pub mod meaning;
pub mod menus;
pub mod messages;
pub mod naming;
pub mod output;
pub mod responses;
pub mod texts;
pub mod values;
pub mod wire;
pub mod words;
