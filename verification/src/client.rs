//! The client's side of a conversation with a device: what it asks, and what it makes of the
//! answers.

pub mod access;
pub mod discovery;
pub mod error;
pub mod exchange;
pub mod fetch;
pub mod menus;
pub mod oids;

pub use access::{
    handshake_ask, handshake_reply, read_ask, read_reply, read_result, write_ask, write_reply,
    write_result, ReadResult, WriteResult,
};
pub use discovery::Discovery;
pub use error::ClientError;
pub use exchange::{
    Ask, Correlation, Exchange, ExchangeAction, InvalidSlot, Slot, ATTEMPTS, TRIGGER_SET_ATTEMPTS,
};
pub use fetch::{ExternalObjects, Fetch, Progress};
pub use menus::MenusFetch;
