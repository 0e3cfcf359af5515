//! The session and presence plane of a server for collaborative documents.
//!
//! Clients connect, authenticate with a bearer token, open documents and tell
//! each other where they are in them. This library holds the rules of that
//! protocol and nothing that waits: every function takes what happened (a
//! frame, a message, the time) and returns what is to be done. The caller reads
//! sockets and clocks, keeps channels and tasks, and turns frames into JSON.
//!
//! - [`frame`], [`doc_id`], [`json`]: what travels on the wire.
//! - [`codec`], [`framed`], [`framed_websocket`]: the carriers of frames and
//!   their version handshakes.
//! - [`http_multiplexer`]: the HTTP request in front of a WebSocket.
//! - [`authorizer`]: the token authority.
//! - [`doc_manager`]: the registry of documents and the worker of each.
//! - [`socket_processor`]: the session of one connection.
//! - [`db`]: the layout of stored state.
//! - [`moment`], [`string_map`], [`text`]: time, a map keyed by text, text
//!   comparison.

pub mod authorizer;
pub mod codec;
pub mod db;
pub mod doc_id;
pub mod doc_manager;
pub mod frame;
pub mod framed;
pub mod framed_websocket;
pub mod http_multiplexer;
pub mod json;
pub mod moment;
pub mod socket_processor;
pub mod string_map;
pub mod text;
