//! Core of a text-protocol, multi-room presence and chat server.
//!
//! The library holds the verified heart of the server: the shared world
//! store (identities, rooms, connections and their outbound message
//! queues), the per-connection login/registration state machine, the
//! command layer, and the message rendering rules. Transport plumbing
//! (sockets, tasks, HTTP routing) lives outside and drives these
//! functions with plain values.

pub mod command;
pub mod config;
pub mod connection;
pub mod http_session;
pub mod crypto;
pub mod message;
pub mod person;
pub mod room;
pub mod session;
pub mod state;
pub mod text;

pub use command::{Command, ParserError};
pub use config::{Config, Verbosity};
pub use connection::Connection;
pub use http_session::{CSRFToken, HTTPState, SessionId};
pub use message::Message;
pub use person::{Person, PersonId, PersonRecord, PASSWD_SALT_LENGTH};
pub use room::{RoomId, INITIAL_LOC};
pub use session::{
    begin_session, end_session, login_greeting, login_step, AbortReason, LoginEvent, LoginOutcome,
    LoginState, MAX_PASSWORD_TRIES,
};
pub use state::{RegisterError, State};
pub use text::trimmed;
