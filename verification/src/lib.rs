//! Layered packets for a raw link: building, changing, serializing and reading
//! back frames of Ethernet, IPv4 and TCP headers, and the decisions of a
//! transport and of an exchange harness that send such frames and verify them
//! byte for byte.
//!
//! A [`stack::PacketStack`] is an ordered stack of [`layer::HeaderLayer`]s and a
//! payload. Headers are found by protocol name and their fields are set by
//! field name. Serialization writes every field as it was last set; lengths and
//! checksums are recomputed only when [`stack::PacketStack::finalize`] is
//! called.
//!
//! Nothing here touches an interface, a thread or a clock. [`transport`] and
//! [`harness`] say what to do next and judge what came back; [`relay`] is an
//! in-process queue that stands in for a link. Every failure is an
//! [`error::Error`] and is final.

pub mod builder;
pub mod checksum;
pub mod dissect;
pub mod error;
pub mod ethernet;
pub mod finalize;
pub mod harness;
pub mod ipv4;
pub mod layer;
pub mod relay;
pub mod stack;
pub mod tcp;
mod text;
pub mod transport;
pub mod wire;
