//! Client-side core for a streaming chat-completion endpoint.
//!
//! The heart of the crate is the server-sent-event frame decoder
//! ([`decode::FrameDecoder`]), which turns an arbitrarily chunked byte
//! stream into an ordered sequence of decoded events, and the producer
//! state machine ([`pump`]) that decides, event by event, what is sent
//! on the bounded delivery channel. Request-body construction and
//! credential validation are verified as well; the network itself is
//! driven by an unverified shell around this library.

pub mod credentials;
pub mod decode;
pub mod pump;
pub mod request;
pub mod text;
