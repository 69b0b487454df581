//! Verified core of an off-grid encrypted 802.15.4 mesh messaging system.
pub mod bytes;
pub mod frame;
pub mod sram_ring;
pub mod fat32_container;
pub mod ble_gate;
pub mod coex;
pub mod dedup;
pub mod ieee802154;
pub mod secrecy;
pub mod ratchet;
pub mod nonce;
pub mod clock;
pub mod chunk;
pub mod text;
pub mod schema;
pub mod dtn_outbox;
pub mod lexer;
pub mod transport;
pub mod fleet;
pub mod chat;
pub mod store;
pub mod identity;
pub mod json;
pub mod fmt;
pub mod controller;
pub mod ipc;
pub mod ipc_client;
pub mod sd_driver;
pub mod usb_rx;
pub mod display;
pub mod led;
pub mod clipboard;
pub mod daemon;
pub mod reassembly;
pub mod relay;
