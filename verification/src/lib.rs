//! Grand_Cross: a thin crossplay relay that bridges Roblox, Minecraft and
//! Hytale clients through one unified packet envelope (CRP).
//!
//! This crate holds the relay's logic: the wire format, the session and
//! routing tables, the per-connection protocol decisions, the voice
//! jitter buffer and the voice mute rules.

pub mod platform;
pub mod crp;
pub mod voice;
pub mod jitter;
pub mod filter;
pub mod channel;
pub mod tables;
pub mod json;
pub mod session_manager;
pub mod router;
pub mod peer_registry;
pub mod adapters;
pub mod dispatch;
pub mod roblox;
pub mod hytale;
pub mod pipeline;
pub mod actions;
pub mod session;

pub use platform::Platform;
pub use crp::{CrpEventType, CrpPacket, CRP_HEADER_LEN, CRP_VERSION};
pub use voice::{FilterDecision, VoiceFrame};
pub use adapters::{ConnTx, ConnectionRegistry};
