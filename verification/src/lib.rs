//! Core of a GATT-style attribute server: the service registration state
//! machine, the attribute-handle route table, and the inbound event
//! dispatcher.
//!
//! The transport driver itself (radio initialization, advertising payloads,
//! acknowledgement transmission) is an external collaborator: this crate only
//! decides, for every inbound driver event, how the server state changes and
//! which outbound commands and service callbacks follow.  Driver glue feeds
//! [`event::GattsEvent`] values in and performs the returned
//! [`event::Command`]s.

pub mod descriptor;
pub mod dispatch;
pub mod event;
pub mod registry;
pub mod route;
pub mod server;
pub mod status;
pub mod wifi_ctl;
