//! Data plane of a real-time pixel canvas service.
//!
//! Clients submit one-byte colour writes at integer coordinates; a master
//! thread owns the canvas, applies writes handed over per-worker queues under
//! a per-user cooldown policy, and periodically publishes run-length encoded
//! snapshots to a buffer pool from which workers derive full or delta
//! broadcasts.

pub mod settings;
pub mod rle;
pub mod spsc;
pub mod cooldown;
pub mod timing_wheel;
pub mod canvas;
pub mod master;
pub mod wire;
pub mod transport;
pub mod worker;
pub mod broadcast;
pub mod metrics;
pub mod clock;
