//! Admission control, rate limiting and attack detection for a Layer-4
//! reverse proxy in front of a Minecraft-style game server.
pub mod addr;
pub mod admission;
pub mod detector;
pub mod error;
pub mod frame;
pub mod packet;
pub mod proxy_header;
pub mod ratelimit;
pub mod search;
pub mod settings;
pub mod stats;
pub mod text;
pub mod varint;
pub mod wide;
