//! Gateway server for tor-js: directory documents for a fast bootstrap, and relays to Tor nodes
//! over WebSocket and WebRTC for clients that cannot open TCP connections.
//!
//! The library decides; the program around it does the input and output. What a function decides
//! is stated in its contract and proved.

use vstd::prelude::*;

pub mod cache;
pub mod config;
pub mod consensus;
pub mod dir;
pub mod gateway;
pub mod http;
pub mod json;
pub mod net;
pub mod path;
pub mod server;
pub mod service;
pub mod sync;
pub mod text;
pub mod time;
pub mod webrtc_proxy;
pub mod ws_proxy;

verus! {

} // verus!
