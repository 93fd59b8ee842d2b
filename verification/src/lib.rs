//! Core of a bridging agent for a publish/subscribe relay network.
//!
//! The library builds, signs and formats content-addressed events,
//! parses the inbound wire envelope, derives reply threading tags,
//! keeps an append-only store of followed accounts, schedules feed
//! polling with a watermark, debounces health notifications, and
//! dispatches chat commands. Socket and process I/O live outside the
//! library; the logic here is verified.

pub mod bot;
pub mod crypto;
pub mod keys;
pub mod network;
pub mod nostr;
pub mod simpledb;
pub mod strkit;
pub mod twitter;
pub mod utils;
pub mod wire;
