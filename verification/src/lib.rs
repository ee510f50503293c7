//! Values of a running program that clients can watch and change.
//!
//! A program registers a value with a server and keeps a handle for it.
//! Clients that connect to the server are told every value, may propose other
//! values, and are told of every change. Each time the program uses the
//! handle, the pending proposals are settled against what the program did to
//! the value: the most recent proposal that reads as a value is taken over,
//! and whoever needs to know the outcome is named.
//!
//! The library holds the registry, the rules and the messages. It opens no
//! socket and no file: every function returns what is to be sent, with the
//! clients it goes to, and takes what was received as plain values.
//!
//! - `registry`: the collection that gives every value an identifier.
//! - `serializable`: the messages, and what a value must offer to be exposed.
//! - `server`: the entries, the clients, and what is sent when.
//! - `debuggable`: the handle, and the pass that settles proposals.
//! - `default_server`: the server that is used where none is named.
//! - `inbox`: messages left as files, by name, order and contents.

pub mod debuggable;
pub mod default_server;
pub mod inbox;
pub mod registry;
pub mod serializable;
pub mod server;
