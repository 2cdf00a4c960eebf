//! WebRTC data channel relay.
//!
//! Provides the same TCP relay functionality as the WebSocket proxy, but over
//! WebRTC data channels.  A single UDP socket multiplexes all peer connections.
//!
//! Signaling: browser POSTs an SDP offer to `/rtc/connect`, gets back an SDP answer.
//! Then opens data channels labeled `"ip:port"` to proxy TCP connections to Tor relays.
//!
//! What stands here decides; the caller drives the sockets and the WebRTC stack. A data channel
//! goes by a number that the caller gives it: no two channels have one number, whatever peers they
//! belong to, and a number is not used again. Times are spans since the caller started.

pub mod account;
pub mod bridge;
pub mod event_loop;
pub mod host;
pub mod messages;
pub mod peer;
pub mod signaling;
