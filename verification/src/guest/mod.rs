//! The guest side, shared by every client app: joining and restoring shares over any
//! transport, the local share store, the guest API calls, and the loopback proxy.
pub mod circle_store;
pub mod circles;
pub mod cli;
pub mod client;
pub mod invite;
pub mod labels;
pub mod logging;
pub mod node;
pub mod proxy;
pub mod secrets;
pub mod store;
pub mod transports;
