//! Event dispatch: exclusive routing of reads and writes, dropped
//! unknown handles, broadcasts, connection bookkeeping, and indications.

use gatt_server::descriptor::{CharProps, CharacteristicDescriptor, ServiceDescriptor};
use gatt_server::event::{Command, GattResponse, GattsEvent, ReadEvent, WriteEvent};
use gatt_server::registry::CharHandle;
use gatt_server::server::{
    AttrServer, DispatchOutcome, GattServiceHandler, ServiceCommunication, ServiceEvent,
};
use gatt_server::status::{BtError, GattStatus};

const SVC_A: u128 = 0x6A;
const SVC_B: u128 = 0x6B;
const CHAR_1: u128 = 0xD1;
const CHAR_2: u128 = 0xD2;

const LOG_CREATED: u8 = 1;
const LOG_WRITE: u8 = 2;
const LOG_READ: u8 = 3;
const LOG_CONNECT: u8 = 4;
const LOG_DISCONNECT: u8 = 5;

struct Probe {
    id: u128,
    log: Vec<u8>,
    writes: Vec<Vec<u8>>,
    last_mtu: Option<u16>,
    respond: bool,
}

impl Probe {
    fn new(id: u128) -> Probe {
        Probe { id, log: Vec::new(), writes: Vec::new(), last_mtu: None, respond: false }
    }

    fn responding(id: u128) -> Probe {
        Probe { respond: true, ..Probe::new(id) }
    }
}

impl ServiceCommunication for Probe {
    fn notify_event(&mut self, event: ServiceEvent) {
        if let ServiceEvent::MtuUpdated { mtu } = event {
            self.last_mtu = Some(mtu);
        }
    }
}

impl GattServiceHandler for Probe {
    fn service_id(&self) -> u128 {
        self.id
    }
    fn on_created(&mut self, _service_handle: u16, _char_handles: &Vec<CharHandle>) -> Result<
        (),
        BtError,
    > {
        self.log.push(LOG_CREATED);
        Ok(())
    }
    fn on_write(&mut self, event: &WriteEvent) -> Result<Option<GattResponse>, BtError> {
        self.log.push(LOG_WRITE);
        self.writes.push(event.value.clone());
        if self.respond {
            Ok(Some(GattResponse { status: GattStatus::Success, value: vec![0xAB, 0xCD] }))
        } else {
            Ok(None)
        }
    }
    fn on_read(&mut self, _event: &ReadEvent) -> Result<Option<GattResponse>, BtError> {
        self.log.push(LOG_READ);
        Ok(Some(GattResponse { status: GattStatus::Success, value: vec![1, 2, 3] }))
    }
    fn on_connect(&mut self, _conn_id: u16, _addr: u64) -> Result<(), BtError> {
        self.log.push(LOG_CONNECT);
        Ok(())
    }
    fn on_disconnect(&mut self, _addr: u64) -> Result<(), BtError> {
        self.log.push(LOG_DISCONNECT);
        Ok(())
    }
}

fn descriptor(uuid: u128, chars: &[u128]) -> ServiceDescriptor {
    let mut characteristics = Vec::new();
    for c in chars {
        characteristics.push(CharacteristicDescriptor {
            uuid: *c,
            props: CharProps { read: true, write: true, notify: false, indicate: true },
            max_len: 64,
            auto_respond: false,
        });
    }
    ServiceDescriptor { uuid, inst_id: 0, is_primary: true, characteristics }
}

/// Drives one service with one characteristic to `Live`: service handle
/// 10, attribute handle 11.
fn live_server(probe: Probe) -> AttrServer<Probe> {
    let mut server: AttrServer<Probe> = AttrServer::new(0, String::from("gatt-rs-demo"));
    server.register(descriptor(SVC_A, &[CHAR_1]), probe).unwrap();
    server.start().unwrap();
    server.on_gatts_event(
        &GattsEvent::ServiceRegistered { status: GattStatus::Success, app_id: 0 },
    );
    server.on_gatts_event(
        &GattsEvent::ServiceCreated {
            status: GattStatus::Success,
            service_handle: 10,
            service_uuid: SVC_A,
        },
    );
    server.on_gatts_event(
        &GattsEvent::CharacteristicAdded {
            status: GattStatus::Success,
            attr_handle: 11,
            service_handle: 10,
            char_uuid: CHAR_1,
        },
    );
    server.on_gatts_event(
        &GattsEvent::ServiceStarted { status: GattStatus::Success, service_handle: 10 },
    );
    server
}

fn write_event(handle: u16, value: Vec<u8>) -> GattsEvent {
    GattsEvent::Write(WriteEvent {
        conn_id: 1,
        trans_id: 77,
        addr: 0xA1B2C3,
        handle,
        offset: 0,
        need_rsp: true,
        is_prep: false,
        value,
    })
}

#[test]
fn scenario_unknown_handle_is_dropped() {
    let mut server = live_server(Probe::new(SVC_A));
    let r = server.on_gatts_event(&write_event(99, vec![7]));
    assert_eq!(r.outcomes, vec![DispatchOutcome::UnknownHandle { handle: 99 }]);
    assert!(r.commands.is_empty());
    // no callback ran
    assert!(server.handler_at(0).writes.is_empty());
}

#[test]
fn write_reaches_exactly_the_owning_service() {
    let mut server: AttrServer<Probe> = AttrServer::new(0, String::from("gatt-rs-demo"));
    server.register(descriptor(SVC_A, &[CHAR_1]), Probe::new(SVC_A)).unwrap();
    server.register(descriptor(SVC_B, &[CHAR_2]), Probe::new(SVC_B)).unwrap();
    server.start().unwrap();
    server.on_gatts_event(
        &GattsEvent::ServiceRegistered { status: GattStatus::Success, app_id: 0 },
    );
    for (h, u) in [(10u16, SVC_A), (20u16, SVC_B)] {
        server.on_gatts_event(
            &GattsEvent::ServiceCreated {
                status: GattStatus::Success,
                service_handle: h,
                service_uuid: u,
            },
        );
    }
    server.on_gatts_event(
        &GattsEvent::CharacteristicAdded {
            status: GattStatus::Success,
            attr_handle: 11,
            service_handle: 10,
            char_uuid: CHAR_1,
        },
    );
    server.on_gatts_event(
        &GattsEvent::CharacteristicAdded {
            status: GattStatus::Success,
            attr_handle: 21,
            service_handle: 20,
            char_uuid: CHAR_2,
        },
    );
    for h in [10u16, 20u16] {
        server.on_gatts_event(
            &GattsEvent::ServiceStarted { status: GattStatus::Success, service_handle: h },
        );
    }

    let r = server.on_gatts_event(&write_event(21, vec![42]));
    assert!(r.outcomes.is_empty());
    assert!(server.handler_at(0).writes.is_empty());
    assert_eq!(server.handler_at(1).writes, vec![vec![42]]);
}

#[test]
fn write_before_live_is_not_dispatched() {
    let mut server: AttrServer<Probe> = AttrServer::new(0, String::from("gatt-rs-demo"));
    server.register(descriptor(SVC_A, &[CHAR_1]), Probe::new(SVC_A)).unwrap();
    server.start().unwrap();
    server.on_gatts_event(
        &GattsEvent::ServiceRegistered { status: GattStatus::Success, app_id: 0 },
    );
    server.on_gatts_event(
        &GattsEvent::ServiceCreated {
            status: GattStatus::Success,
            service_handle: 10,
            service_uuid: SVC_A,
        },
    );
    server.on_gatts_event(
        &GattsEvent::CharacteristicAdded {
            status: GattStatus::Success,
            attr_handle: 11,
            service_handle: 10,
            char_uuid: CHAR_1,
        },
    );
    // the handle is routed, but the service has not started yet
    let r = server.on_gatts_event(&write_event(11, vec![9]));
    assert_eq!(
        r.outcomes,
        vec![DispatchOutcome::ServiceNotReady { service_uuid: SVC_A }]
    );
    assert!(server.handler_at(0).writes.is_empty());
}

#[test]
fn write_response_is_forwarded_unchanged() {
    let mut server = live_server(Probe::responding(SVC_A));
    let r = server.on_gatts_event(&write_event(11, vec![5, 6]));
    assert_eq!(r.commands.len(), 1);
    match &r.commands[0] {
        Command::SendResponse { conn_id, trans_id, handle, status, value } => {
            assert_eq!(*conn_id, 1);
            assert_eq!(*trans_id, 77);
            assert_eq!(*handle, 11);
            assert_eq!(*status, GattStatus::Success);
            assert_eq!(value, &vec![0xAB, 0xCD]);
        }
        other => panic!("unexpected command: {:?}", other),
    }
    assert_eq!(server.handler_at(0).writes, vec![vec![5, 6]]);
}

#[test]
fn read_is_routed_and_answered() {
    let mut server = live_server(Probe::new(SVC_A));
    let r = server.on_gatts_event(&GattsEvent::Read(ReadEvent {
        conn_id: 2,
        trans_id: 55,
        addr: 0xA1B2C3,
        handle: 11,
        offset: 0,
        is_long: false,
        need_rsp: true,
    }));
    assert_eq!(r.commands.len(), 1);
    match &r.commands[0] {
        Command::SendResponse { conn_id, trans_id, handle, value, .. } => {
            assert_eq!(*conn_id, 2);
            assert_eq!(*trans_id, 55);
            assert_eq!(*handle, 11);
            assert_eq!(value, &vec![1, 2, 3]);
        }
        other => panic!("unexpected command: {:?}", other),
    }
    assert_eq!(server.handler_at(0).log.last(), Some(&LOG_READ));
}

#[test]
fn scenario_write_queued_before_disconnect_dispatches_first() {
    let mut server = live_server(Probe::new(SVC_A));
    server.on_gatts_event(&GattsEvent::PeerConnected { conn_id: 1, addr: 0xA1B2C3 });
    assert_eq!(server.connection_count(), 1);

    // the write sits ahead of the disconnect in the event stream and is
    // dispatched first, to the still-registered service
    server.on_gatts_event(&write_event(11, vec![1]));
    let r = server.on_gatts_event(&GattsEvent::PeerDisconnected { addr: 0xA1B2C3 });
    assert!(r.resume_advertising);
    assert_eq!(server.connection_count(), 0);
    assert_eq!(
        server.handler_at(0).log,
        vec![LOG_CREATED, LOG_CONNECT, LOG_WRITE, LOG_DISCONNECT]
    );
}

#[test]
fn disconnect_of_unknown_peer_resumes_nothing() {
    let mut server = live_server(Probe::new(SVC_A));
    let r = server.on_gatts_event(&GattsEvent::PeerDisconnected { addr: 0xDEAD });
    assert!(!r.resume_advertising);
    assert_eq!(server.handler_at(0).log, vec![LOG_CREATED, LOG_DISCONNECT]);
}

#[test]
fn connect_creates_record_with_default_mtu() {
    let mut server = live_server(Probe::new(SVC_A));
    server.on_gatts_event(&GattsEvent::PeerConnected { conn_id: 4, addr: 0x99 });
    let records = server.connection_records();
    assert_eq!(records.len(), 1);
    assert_eq!(records[0].conn_id, 4);
    assert_eq!(records[0].addr, 0x99);
    assert_eq!(records[0].mtu, 23);
}

#[test]
fn mtu_update_changes_record_and_notifies_live_services() {
    let mut server = live_server(Probe::new(SVC_A));
    server.on_gatts_event(&GattsEvent::PeerConnected { conn_id: 4, addr: 0x99 });
    server.on_gatts_event(&GattsEvent::MtuNegotiated { conn_id: 4, mtu: 185 });
    assert_eq!(server.connection_records()[0].mtu, 185);
    assert_eq!(server.handler_at(0).last_mtu, Some(185));
}

#[test]
fn indication_confirmation_failure_is_logged() {
    let mut server = live_server(Probe::new(SVC_A));
    let r = server.on_gatts_event(
        &GattsEvent::IndicationConfirmed { status: GattStatus::Fail(0x0E) },
    );
    assert_eq!(r.outcomes, vec![DispatchOutcome::IndicationFailed { code: 0x0E }]);
    let r = server.on_gatts_event(
        &GattsEvent::IndicationConfirmed { status: GattStatus::Success },
    );
    assert!(r.outcomes.is_empty());
}

#[test]
fn indicate_sends_to_every_connection_in_order() {
    let mut server = live_server(Probe::new(SVC_A));
    server.on_gatts_event(&GattsEvent::PeerConnected { conn_id: 1, addr: 0x11 });
    server.on_gatts_event(&GattsEvent::PeerConnected { conn_id: 2, addr: 0x22 });
    let cmds = server.indicate(SVC_A, CHAR_1, &vec![9, 9]).unwrap();
    assert_eq!(cmds.len(), 2);
    for (k, expected_conn) in [(0usize, 1u16), (1usize, 2u16)] {
        match &cmds[k] {
            Command::SendIndication { conn_id, handle, value } => {
                assert_eq!(*conn_id, expected_conn);
                assert_eq!(*handle, 11);
                assert_eq!(value, &vec![9, 9]);
            }
            other => panic!("unexpected command: {:?}", other),
        }
    }
}

#[test]
fn indicate_rejects_unknown_or_unready_targets() {
    let mut server = live_server(Probe::new(SVC_A));
    assert!(matches!(
        server.indicate(SVC_B, CHAR_1, &vec![1]),
        Err(BtError::UnknownService)
    ));
    assert!(matches!(
        server.indicate(SVC_A, CHAR_2, &vec![1]),
        Err(BtError::InvalidHandle)
    ));
    // before the service is live, indications are refused
    let mut early: AttrServer<Probe> = AttrServer::new(0, String::from("gatt-rs-demo"));
    early.register(descriptor(SVC_A, &[CHAR_1]), Probe::new(SVC_A)).unwrap();
    assert!(matches!(
        early.indicate(SVC_A, CHAR_1, &vec![1]),
        Err(BtError::UnknownService)
    ));
}

#[test]
fn find_attr_handler_returns_owner_only_when_live() {
    let server = live_server(Probe::new(SVC_A));
    assert!(server.find_attr_handler(11).is_some());
    assert_eq!(server.find_attr_handler(11).unwrap().id, SVC_A);
    assert!(server.find_attr_handler(99).is_none());
}
