//! WebSocket clients by URL, with explicit ownership and fixed resource limits.
//!
//! A [`transport::Transport`] holds every client, who is behind which URL, who owns it and who
//! observes it. The library decides; sockets, tasks and clocks belong to whoever drives it.

pub mod bounds;
pub mod bridge;
pub mod capture;
pub mod client;
pub mod client_laws;
pub mod client_view;
pub mod clock;
pub mod decoding_laws;
pub mod events;
pub mod flight;
pub mod handle_laws;
pub mod inbound;
pub mod json;
pub mod ledger;
pub mod lifecycle;
pub mod mock;
pub mod observer_laws;
pub mod outgoing;
pub mod proxy;
pub mod raw;
pub mod reference;
pub mod registry_laws;
pub mod scope;
pub mod settling_laws;
pub mod shutdown_laws;
pub mod store_laws;
pub mod subscription_laws;
pub mod table;
pub mod text_laws;
pub mod traffic_laws;
pub mod transport;
pub mod transport_laws;
pub mod value;
