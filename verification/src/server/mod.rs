//! The host node.
pub mod cli;
pub mod config;
pub mod connect;
pub mod guest_api;
pub mod http;
pub mod init;
pub mod ipc;
pub mod iroh;
pub mod protocol;
pub mod quic_io;
pub mod serving;
pub mod status;
pub mod status_text;
pub mod storage;
pub mod wcbe;
