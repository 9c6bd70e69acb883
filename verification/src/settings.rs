//! Single source of truth for the data-plane constants.

use vstd::prelude::*;

verus! {

/// Canvas width in pixels.
pub const CANVAS_WIDTH: usize = 1000;

/// Canvas height in pixels.
pub const CANVAS_HEIGHT: usize = 1000;

/// Total number of pixels in the canvas (1 byte per pixel).
pub const CANVAS_SIZE: usize = CANVAS_WIDTH * CANVAS_HEIGHT;

/// Number of canvas snapshot buffers in the publication pool (power of two).
pub const CANVAS_BUFFER_POOL_SIZE: usize = 16;

/// Bitmask for cycling through the pool indices.
pub const CANVAS_BUFFER_POOL_MASK: usize = CANVAS_BUFFER_POOL_SIZE - 1;

/// Maximum number of concurrent connections a single worker can hold.
/// Must be a multiple of 64 so the cooldown bitset packs evenly into words.
pub const MAX_CONNECTIONS_PER_WORKER: usize = 65536;

/// Number of 64-bit words in the cooldown bitset.
pub const COOLDOWN_ARRAY_LEN: usize = 1024;

/// Number of ticks in the timing wheel (1 tick = 1 second).
pub const TIMING_WHEEL_TICKS: usize = 300;

/// Capacity of each per-worker queue towards the master (power of two).
pub const SPSC_CAPACITY: usize = 1024;

/// Maximum number of pixel writes the master drains from each worker queue
/// per iteration of its hot loop.
pub const MASTER_BATCH_DRAIN: usize = 128;

/// Maximum chunk size when broadcasting canvas data to clients.
pub const BROADCAST_CHUNK_SIZE: usize = 1200;

/// How often the master publishes a new canvas snapshot (milliseconds).
pub const BROADCAST_INTERVAL_MS: u64 = 100;

/// Send a full (RLE-compressed) canvas every N broadcasts instead of a diff.
pub const FULL_BROADCAST_INTERVAL: u32 = 60;

/// Size of the pixel wire format: x (u16) + y (u16) + colour (u8).
pub const PIXEL_DATAGRAM_SIZE: usize = 5;

/// Size of one diff entry on the wire: index (u32 little-endian) + colour (u8).
pub const DIFF_ENTRY_SIZE: usize = 5;

/// Maximum UDP packet buffer size for the receive ring's provided buffers.
pub const PKT_BUF_SIZE: usize = 2048;

/// Maximum payload size when sending datagrams to clients.
pub const DGRAM_MAX_SEND_SIZE: usize = 1500;

/// Number of pre-allocated outgoing send slots per worker.
pub const TX_CAPACITY: usize = 65536;

/// Default server listening port.
pub const SERVER_PORT: u16 = 4433;

/// Ancillary (cmsg) buffer length configured on the receive path.
pub const MSG_CONTROL_LEN: usize = 64;

/// Maximum length of a QUIC connection id.
pub const MAX_CONN_ID_LEN: usize = 20;

/// Minimum interval (milliseconds) between connection timeout sweeps.
pub const CONN_TIMEOUT_THROTTLE_MS: u64 = 20;

} // verus!
