//! Rollback-netplay synchronization core: a run-length-compressed, delay-seeded
//! per-peer input buffer, the netplay message set exchanged between peers, and
//! the per-connection phase machine that says which message is valid when.

pub mod connection;
pub mod drag;
pub mod netplay_packets;
pub mod player_input_buffer;
pub mod structures;
