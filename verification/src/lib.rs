//! The communication core of a language server.
//!
//! The server talks JSON-RPC over a byte stream. This library holds what it
//! decides and computes on the way from an inbound message to an outbound
//! one; reading the stream, running the compiler's front end and writing the
//! answer are left to the program around it.
//!
//! - `transport` frames messages: it writes the header that states a body's
//!   length, and it reads headers line by line.
//! - `dispatch` says what a message asks for, by its method.
//! - `position` resolves a byte range of a source text to lines and
//!   characters.
//! - `respond` builds the two messages that the server sends: the answer to
//!   `initialize`, and the diagnostics of a document.
//! - `server` puts these together into one step per message.
//! - `json` names what `serde_json` does for the others, and `decimal` and
//!   `scan` hold the work on digits, lines and white space.
//!
//! The server handles one document at a time and keeps no state between two
//! messages. It knows `initialize`, `textDocument/didOpen` and
//! `textDocument/didChange`; it does not answer `shutdown` or any other
//! method, and it ends when its input does.

pub mod decimal;
pub mod dispatch;
pub mod json;
pub mod position;
pub mod respond;
pub mod scan;
pub mod server;
pub mod transport;
