//! Laws: what the operations of this library are for, stated over calls of them.
//!
//! A law takes the arguments and the result of a call, or of several, and says what the result is in
//! terms of the arguments.

pub mod autobahn;
pub mod axum;
pub mod client;
pub mod closing;
pub mod extended;
pub mod fragments;
pub mod frames;
pub mod halves;
pub mod heads;
pub mod providers;
pub mod reading;
pub mod requests;
pub mod server;
pub mod subprotocols;
pub mod values;
pub mod writing;
