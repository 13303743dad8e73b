//! Inbound driver events and outbound driver commands.
//!
//! The driver delivers one [`GattsEvent`] at a time; the server answers with
//! a list of [`Command`]s, each of which expects exactly one later
//! confirmation event.

use vstd::prelude::*;
use crate::descriptor::CharacteristicDescriptor;
use crate::status::{BtStatus, GattStatus};

verus! {

/// An inbound write request: a peer wrote `value` to the attribute at
/// `handle` over connection `conn_id`.
#[derive(Clone, Debug)]
pub struct WriteEvent {
    /// Connection the request arrived on.
    pub conn_id: u16,
    /// Transfer the response, if any, must quote.
    pub trans_id: u32,
    /// 48-bit device address of the writing peer.
    pub addr: u64,
    /// The attribute handle written.
    pub handle: u16,
    /// Offset of the value, when the value is written in parts.
    pub offset: u16,
    /// Whether the protocol obliges a response to this write.
    pub need_rsp: bool,
    /// Whether this write is a prepared (deferred) write.
    pub is_prep: bool,
    /// The value written.
    pub value: Vec<u8>,
}

/// An inbound read request for the attribute at `handle`.
#[derive(Clone, Copy, Debug, PartialEq, Eq, Structural)]
pub struct ReadEvent {
    /// Connection the request arrived on.
    pub conn_id: u16,
    /// Transfer the response, if any, must quote.
    pub trans_id: u32,
    /// 48-bit device address of the reading peer.
    pub addr: u64,
    /// The attribute handle read.
    pub handle: u16,
    /// Offset into the value, for long reads.
    pub offset: u16,
    /// Whether the value is too long for one exchange.
    pub is_long: bool,
    /// Whether the protocol obliges a response to this read.
    pub need_rsp: bool,
}

/// One inbound event from the GATT driver, delivered serially.
#[derive(Clone, Debug)]
pub enum GattsEvent {
    /// The one-time application registration was answered.
    ServiceRegistered { status: GattStatus, app_id: u16 },
    /// A create-service command was answered; on success `service_handle`
    /// is the runtime handle assigned to the service named `service_uuid`.
    ServiceCreated { status: GattStatus, service_handle: u16, service_uuid: u128 },
    /// An add-characteristic command was answered; on success `attr_handle`
    /// is the runtime handle assigned to characteristic `char_uuid` of the
    /// service at `service_handle`.
    CharacteristicAdded { status: GattStatus, attr_handle: u16, service_handle: u16, char_uuid: u128 },
    /// A start-service command was answered.
    ServiceStarted { status: GattStatus, service_handle: u16 },
    /// The driver stopped a service.
    ServiceStopped { status: GattStatus, service_handle: u16 },
    /// A delete-service command was answered.
    ServiceDeleted { status: GattStatus, service_handle: u16 },
    /// A peer connected.
    PeerConnected { conn_id: u16, addr: u64 },
    /// A peer disconnected.
    PeerDisconnected { addr: u64 },
    /// A connection renegotiated its maximum transfer unit.
    MtuNegotiated { conn_id: u16, mtu: u16 },
    /// A peer wrote an attribute value.
    Write(WriteEvent),
    /// A peer read an attribute value.
    Read(ReadEvent),
    /// A peer acknowledged an indication.
    IndicationConfirmed { status: GattStatus },
}

/// One inbound event from the GAP (advertising) driver.
#[derive(Clone, Copy, Debug, PartialEq, Eq, Structural)]
pub enum GapEvent {
    /// The advertising payload was configured; advertising may start.
    AdvertisingConfigured(BtStatus),
    /// Any other advertising or connection-management event; the server
    /// core takes no decision on it.
    Other,
}

/// A response a service hands back for a read or write; the dispatcher
/// forwards it to the transport unchanged.
#[derive(Clone, Debug, PartialEq, Eq)]
pub struct GattResponse {
    pub status: GattStatus,
    pub value: Vec<u8>,
}

/// One outbound command to the GATT driver.  Commands are fire-and-forget;
/// each structural command expects exactly one later confirmation event.
#[derive(Clone, Debug)]
pub enum Command {
    /// Register the application; answered by `ServiceRegistered`.
    RegisterApplication { app_id: u16 },
    /// Create a service with room for `max_attr_count` attribute handles;
    /// answered by `ServiceCreated`.
    CreateService { service_uuid: u128, inst_id: u8, is_primary: bool, max_attr_count: u16 },
    /// Add the next declared characteristic to the service at
    /// `service_handle`; answered by `CharacteristicAdded`.
    AddCharacteristic { service_handle: u16, characteristic: CharacteristicDescriptor },
    /// Start the fully built service; answered by `ServiceStarted`.
    StartService { service_handle: u16 },
    /// Tear a service down; answered by `ServiceDeleted`.
    DeleteService { service_handle: u16 },
    /// Answer a read or write on `conn_id` quoting `trans_id`.
    SendResponse { conn_id: u16, trans_id: u32, handle: u16, status: GattStatus, value: Vec<u8> },
    /// Send an indication of `value` for the attribute at `handle` to
    /// `conn_id`; answered by `IndicationConfirmed`.
    SendIndication { conn_id: u16, handle: u16, value: Vec<u8> },
}

} // verus!
