//! A small HTTP-over-TCP dispatch engine.
//!
//! The crate parses raw request bytes into a structured request, splits the
//! request path into segments, walks a tree of dispatch nodes that execute
//! side-effecting actions as they descend, and renders a structured response
//! back into wire bytes.  Everything that decides or computes lives here and
//! carries a contract; sockets, the relational store and the message broker
//! are reached only through the capability traits in `links`.

pub mod api;
pub mod body;
pub mod configuration_handler;
pub mod db_handler;
pub mod errors;
pub mod http_handler;
pub mod kafka_handler;
pub mod links;
pub mod logger;
pub mod text;
