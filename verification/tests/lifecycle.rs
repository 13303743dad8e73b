//! The registration lifecycle: the full creation protocol, failure
//! scoping, interleaving of two services, and explicit teardown.

use gatt_server::descriptor::{CharProps, CharacteristicDescriptor, ServiceDescriptor};
use gatt_server::event::{Command, GattResponse, GattsEvent, ReadEvent, WriteEvent};
use gatt_server::registry::{CharHandle, ServiceState};
use gatt_server::route::RouteTarget;
use gatt_server::server::{
    AttrServer, DispatchOutcome, GattServiceHandler, ServiceCommunication, ServiceEvent,
};
use gatt_server::status::{BtError, GattStatus};

const SVC_A: u128 = 0x5A;
const SVC_B: u128 = 0x5B;
const CHAR_1: u128 = 0xC1;
const CHAR_2: u128 = 0xC2;
const CHAR_3: u128 = 0xC3;

struct Probe {
    id: u128,
    created: u32,
    writes: Vec<Vec<u8>>,
}

impl Probe {
    fn new(id: u128) -> Probe {
        Probe { id, created: 0, writes: Vec::new() }
    }
}

impl ServiceCommunication for Probe {
    fn notify_event(&mut self, _event: ServiceEvent) {}
}

impl GattServiceHandler for Probe {
    fn service_id(&self) -> u128 {
        self.id
    }
    fn on_created(&mut self, _service_handle: u16, _char_handles: &Vec<CharHandle>) -> Result<
        (),
        BtError,
    > {
        self.created += 1;
        Ok(())
    }
    fn on_write(&mut self, event: &WriteEvent) -> Result<Option<GattResponse>, BtError> {
        self.writes.push(event.value.clone());
        Ok(None)
    }
    fn on_read(&mut self, _event: &ReadEvent) -> Result<Option<GattResponse>, BtError> {
        Ok(None)
    }
    fn on_connect(&mut self, _conn_id: u16, _addr: u64) -> Result<(), BtError> {
        Ok(())
    }
    fn on_disconnect(&mut self, _addr: u64) -> Result<(), BtError> {
        Ok(())
    }
}

fn plain_char(uuid: u128) -> CharacteristicDescriptor {
    CharacteristicDescriptor {
        uuid,
        props: CharProps { read: true, write: true, notify: false, indicate: false },
        max_len: 64,
        auto_respond: false,
    }
}

fn descriptor(uuid: u128, chars: &[u128]) -> ServiceDescriptor {
    let mut characteristics = Vec::new();
    for c in chars {
        characteristics.push(plain_char(*c));
    }
    ServiceDescriptor { uuid, inst_id: 0, is_primary: true, characteristics }
}

fn created(status: GattStatus, service_handle: u16, service_uuid: u128) -> GattsEvent {
    GattsEvent::ServiceCreated { status, service_handle, service_uuid }
}

fn char_added(status: GattStatus, attr_handle: u16, service_handle: u16, char_uuid: u128) -> GattsEvent {
    GattsEvent::CharacteristicAdded { status, attr_handle, service_handle, char_uuid }
}

#[test]
fn scenario_two_characteristics_reach_live() {
    let mut server: AttrServer<Probe> = AttrServer::new(0, String::from("gatt-rs-demo"));
    server.register(descriptor(SVC_A, &[CHAR_1, CHAR_2]), Probe::new(SVC_A)).unwrap();
    let start_cmd = server.start().unwrap();
    assert!(matches!(start_cmd, Command::RegisterApplication { app_id: 0 }));

    let r = server.on_gatts_event(
        &GattsEvent::ServiceRegistered { status: GattStatus::Success, app_id: 0 },
    );
    assert_eq!(r.commands.len(), 1);
    assert!(matches!(
        r.commands[0],
        Command::CreateService { service_uuid: SVC_A, max_attr_count: 5, .. }
    ));

    let r = server.on_gatts_event(&created(GattStatus::Success, 10, SVC_A));
    assert_eq!(r.commands.len(), 1);
    match &r.commands[0] {
        Command::AddCharacteristic { service_handle, characteristic } => {
            assert_eq!(*service_handle, 10);
            assert_eq!(characteristic.uuid, CHAR_1);
        }
        other => panic!("unexpected command: {:?}", other),
    }

    let r = server.on_gatts_event(&char_added(GattStatus::Success, 11, 10, CHAR_1));
    assert_eq!(r.commands.len(), 1);
    match &r.commands[0] {
        Command::AddCharacteristic { service_handle, characteristic } => {
            assert_eq!(*service_handle, 10);
            assert_eq!(characteristic.uuid, CHAR_2);
        }
        other => panic!("unexpected command: {:?}", other),
    }

    let r = server.on_gatts_event(&char_added(GattStatus::Success, 12, 10, CHAR_2));
    assert_eq!(r.commands.len(), 1);
    assert!(matches!(r.commands[0], Command::StartService { service_handle: 10 }));

    // the attached callback has not fired yet
    assert_eq!(server.handler_at(0).created, 0);

    let r = server.on_gatts_event(
        &GattsEvent::ServiceStarted { status: GattStatus::Success, service_handle: 10 },
    );
    assert!(r.commands.is_empty());

    // fired exactly once, after the start confirmation
    assert_eq!(server.handler_at(0).created, 1);
    let inst = server.find_service(SVC_A).unwrap();
    assert_eq!(inst.state, ServiceState::Live);
    assert_eq!(inst.service_handle, Some(10));
    assert_eq!(
        server.resolve(11),
        Some(RouteTarget { service_uuid: SVC_A, char_uuid: CHAR_1 })
    );
    assert_eq!(
        server.resolve(12),
        Some(RouteTarget { service_uuid: SVC_A, char_uuid: CHAR_2 })
    );

    // a stray second start confirmation changes nothing
    let r = server.on_gatts_event(
        &GattsEvent::ServiceStarted { status: GattStatus::Success, service_handle: 10 },
    );
    assert!(r.commands.is_empty());
    assert_eq!(server.handler_at(0).created, 1);
}

#[test]
fn scenario_create_failure_ends_only_that_service() {
    let mut server: AttrServer<Probe> = AttrServer::new(0, String::from("gatt-rs-demo"));
    server.register(descriptor(SVC_A, &[CHAR_1, CHAR_2]), Probe::new(SVC_A)).unwrap();
    server.start().unwrap();
    server.on_gatts_event(
        &GattsEvent::ServiceRegistered { status: GattStatus::Success, app_id: 0 },
    );

    let r = server.on_gatts_event(&created(GattStatus::Fail(0x85), 10, SVC_A));
    // no characteristic-add commands are issued
    assert!(r.commands.is_empty());
    assert_eq!(
        r.outcomes,
        vec![DispatchOutcome::ServiceFailed {
            service_uuid: SVC_A,
            error: BtError::ProtocolStatus(0x85),
        }]
    );

    let inst = server.find_service(SVC_A).unwrap();
    assert_eq!(inst.state, ServiceState::Deleted);
    assert_eq!(inst.fault, Some(BtError::ProtocolStatus(0x85)));
    assert_eq!(inst.service_handle, None);
    // the route table holds nothing for this service
    assert_eq!(server.resolve(10), None);
    assert_eq!(server.resolve(11), None);
    // the attached callback never fired
    assert_eq!(server.handler_at(0).created, 0);
}

#[test]
fn mid_registration_failure_purges_partial_entries() {
    let mut server: AttrServer<Probe> = AttrServer::new(0, String::from("gatt-rs-demo"));
    server.register(descriptor(SVC_A, &[CHAR_1, CHAR_2]), Probe::new(SVC_A)).unwrap();
    server.start().unwrap();
    server.on_gatts_event(
        &GattsEvent::ServiceRegistered { status: GattStatus::Success, app_id: 0 },
    );
    server.on_gatts_event(&created(GattStatus::Success, 10, SVC_A));
    server.on_gatts_event(&char_added(GattStatus::Success, 11, 10, CHAR_1));
    assert!(server.resolve(11).is_some());

    let r = server.on_gatts_event(&char_added(GattStatus::Fail(0x03), 12, 10, CHAR_2));
    assert!(r.commands.is_empty());
    let inst = server.find_service(SVC_A).unwrap();
    assert_eq!(inst.state, ServiceState::Deleted);
    // no partial entries are left behind
    assert_eq!(server.resolve(11), None);
}

#[test]
fn zero_characteristic_service_skips_to_start() {
    let mut server: AttrServer<Probe> = AttrServer::new(0, String::from("gatt-rs-demo"));
    server.register(descriptor(SVC_A, &[]), Probe::new(SVC_A)).unwrap();
    server.start().unwrap();
    server.on_gatts_event(
        &GattsEvent::ServiceRegistered { status: GattStatus::Success, app_id: 0 },
    );
    let r = server.on_gatts_event(&created(GattStatus::Success, 30, SVC_A));
    assert_eq!(r.commands.len(), 1);
    assert!(matches!(r.commands[0], Command::StartService { service_handle: 30 }));
    server.on_gatts_event(
        &GattsEvent::ServiceStarted { status: GattStatus::Success, service_handle: 30 },
    );
    assert_eq!(server.find_service(SVC_A).unwrap().state, ServiceState::Live);
}

#[test]
fn interleaved_confirmations_match_sequential_processing() {
    // two servers, same registrations, confirmations delivered in
    // different interleavings
    let mut interleaved: AttrServer<Probe> = AttrServer::new(0, String::from("gatt-rs-demo"));
    let mut sequential: AttrServer<Probe> = AttrServer::new(0, String::from("gatt-rs-demo"));
    for server in [&mut interleaved, &mut sequential] {
        server.register(descriptor(SVC_A, &[CHAR_1]), Probe::new(SVC_A)).unwrap();
        server.register(descriptor(SVC_B, &[CHAR_2]), Probe::new(SVC_B)).unwrap();
        server.start().unwrap();
        server.on_gatts_event(
            &GattsEvent::ServiceRegistered { status: GattStatus::Success, app_id: 0 },
        );
    }

    // interleaved: A and B advance turn by turn
    interleaved.on_gatts_event(&created(GattStatus::Success, 10, SVC_A));
    interleaved.on_gatts_event(&created(GattStatus::Success, 20, SVC_B));
    interleaved.on_gatts_event(&char_added(GattStatus::Success, 11, 10, CHAR_1));
    interleaved.on_gatts_event(&char_added(GattStatus::Success, 21, 20, CHAR_2));
    interleaved.on_gatts_event(
        &GattsEvent::ServiceStarted { status: GattStatus::Success, service_handle: 20 },
    );
    interleaved.on_gatts_event(
        &GattsEvent::ServiceStarted { status: GattStatus::Success, service_handle: 10 },
    );

    // sequential: all of A, then all of B
    sequential.on_gatts_event(&created(GattStatus::Success, 10, SVC_A));
    sequential.on_gatts_event(&char_added(GattStatus::Success, 11, 10, CHAR_1));
    sequential.on_gatts_event(
        &GattsEvent::ServiceStarted { status: GattStatus::Success, service_handle: 10 },
    );
    sequential.on_gatts_event(&created(GattStatus::Success, 20, SVC_B));
    sequential.on_gatts_event(&char_added(GattStatus::Success, 21, 20, CHAR_2));
    sequential.on_gatts_event(
        &GattsEvent::ServiceStarted { status: GattStatus::Success, service_handle: 20 },
    );

    // identical route tables and states: no cross-contamination
    for server in [&interleaved, &sequential] {
        assert_eq!(
            server.resolve(11),
            Some(RouteTarget { service_uuid: SVC_A, char_uuid: CHAR_1 })
        );
        assert_eq!(
            server.resolve(21),
            Some(RouteTarget { service_uuid: SVC_B, char_uuid: CHAR_2 })
        );
        assert_eq!(server.find_service(SVC_A).unwrap().state, ServiceState::Live);
        assert_eq!(server.find_service(SVC_B).unwrap().state, ServiceState::Live);
        assert_eq!(server.handler_at(0).created, 1);
        assert_eq!(server.handler_at(1).created, 1);
    }
}

#[test]
fn duplicate_runtime_handle_ends_second_service_only() {
    let mut server: AttrServer<Probe> = AttrServer::new(0, String::from("gatt-rs-demo"));
    server.register(descriptor(SVC_A, &[CHAR_1]), Probe::new(SVC_A)).unwrap();
    server.register(descriptor(SVC_B, &[CHAR_2]), Probe::new(SVC_B)).unwrap();
    server.start().unwrap();
    server.on_gatts_event(
        &GattsEvent::ServiceRegistered { status: GattStatus::Success, app_id: 0 },
    );
    server.on_gatts_event(&created(GattStatus::Success, 10, SVC_A));
    // the driver hands service B the handle service A already owns
    let r = server.on_gatts_event(&created(GattStatus::Success, 10, SVC_B));
    assert_eq!(
        r.outcomes,
        vec![DispatchOutcome::ServiceFailed { service_uuid: SVC_B, error: BtError::InvalidHandle }]
    );
    assert_eq!(server.find_service(SVC_B).unwrap().state, ServiceState::Deleted);
    // service A is untouched
    assert_eq!(
        server.find_service(SVC_A).unwrap().state,
        ServiceState::AwaitingCharacteristics { remaining: 1 }
    );
}

#[test]
fn out_of_order_characteristic_confirmation_is_ignored() {
    let mut server: AttrServer<Probe> = AttrServer::new(0, String::from("gatt-rs-demo"));
    server.register(descriptor(SVC_A, &[CHAR_1, CHAR_2]), Probe::new(SVC_A)).unwrap();
    server.start().unwrap();
    server.on_gatts_event(
        &GattsEvent::ServiceRegistered { status: GattStatus::Success, app_id: 0 },
    );
    server.on_gatts_event(&created(GattStatus::Success, 10, SVC_A));
    // a confirmation for the second characteristic while the first is
    // awaited is a stray and changes nothing
    let r = server.on_gatts_event(&char_added(GattStatus::Success, 12, 10, CHAR_2));
    assert!(r.commands.is_empty());
    assert_eq!(server.resolve(12), None);
    assert_eq!(
        server.find_service(SVC_A).unwrap().state,
        ServiceState::AwaitingCharacteristics { remaining: 2 }
    );
}

#[test]
fn explicit_teardown_round_trip() {
    let mut server: AttrServer<Probe> = AttrServer::new(0, String::from("gatt-rs-demo"));
    server.register(descriptor(SVC_A, &[CHAR_1]), Probe::new(SVC_A)).unwrap();
    server.start().unwrap();
    server.on_gatts_event(
        &GattsEvent::ServiceRegistered { status: GattStatus::Success, app_id: 0 },
    );
    server.on_gatts_event(&created(GattStatus::Success, 10, SVC_A));
    server.on_gatts_event(&char_added(GattStatus::Success, 11, 10, CHAR_1));
    server.on_gatts_event(
        &GattsEvent::ServiceStarted { status: GattStatus::Success, service_handle: 10 },
    );
    assert_eq!(server.find_service(SVC_A).unwrap().state, ServiceState::Live);

    let cmd = server.delete_service(SVC_A).unwrap();
    assert!(matches!(cmd, Command::DeleteService { service_handle: 10 }));
    assert_eq!(
        server.find_service(SVC_A).unwrap().state,
        ServiceState::AwaitingDeleted
    );
    // deleting a service that is not live fails
    assert!(matches!(server.delete_service(SVC_A), Err(BtError::UnknownService)));
    assert!(matches!(server.delete_service(SVC_B), Err(BtError::UnknownService)));

    let r = server.on_gatts_event(
        &GattsEvent::ServiceDeleted { status: GattStatus::Success, service_handle: 10 },
    );
    assert!(r.commands.is_empty());
    let inst = server.find_service(SVC_A).unwrap();
    assert_eq!(inst.state, ServiceState::Deleted);
    assert_eq!(inst.fault, None);
    assert_eq!(server.resolve(11), None);

    // a write to the purged handle is dropped, never a stale dispatch
    let r = server.on_gatts_event(&GattsEvent::Write(WriteEvent {
        conn_id: 1,
        trans_id: 3,
        addr: 0x42,
        handle: 11,
        offset: 0,
        need_rsp: true,
        is_prep: false,
        value: vec![8],
    }));
    assert_eq!(r.outcomes, vec![DispatchOutcome::UnknownHandle { handle: 11 }]);
    assert!(r.commands.is_empty());
    assert!(server.handler_at(0).writes.is_empty());
}

#[test]
fn application_registration_failure_ends_all_declared_services() {
    let mut server: AttrServer<Probe> = AttrServer::new(0, String::from("gatt-rs-demo"));
    server.register(descriptor(SVC_A, &[CHAR_1]), Probe::new(SVC_A)).unwrap();
    server.register(descriptor(SVC_B, &[CHAR_2, CHAR_3]), Probe::new(SVC_B)).unwrap();
    server.start().unwrap();
    let r = server.on_gatts_event(
        &GattsEvent::ServiceRegistered { status: GattStatus::Fail(0x01), app_id: 0 },
    );
    assert!(r.commands.is_empty());
    assert_eq!(
        r.outcomes,
        vec![
            DispatchOutcome::ServiceFailed {
                service_uuid: SVC_A,
                error: BtError::ProtocolStatus(0x01),
            },
            DispatchOutcome::ServiceFailed {
                service_uuid: SVC_B,
                error: BtError::ProtocolStatus(0x01),
            },
        ]
    );
    assert_eq!(server.find_service(SVC_A).unwrap().state, ServiceState::Deleted);
    assert_eq!(server.find_service(SVC_B).unwrap().state, ServiceState::Deleted);
}

#[test]
fn foreign_application_confirmation_is_ignored() {
    let mut server: AttrServer<Probe> = AttrServer::new(7, String::from("gatt-rs-demo"));
    server.register(descriptor(SVC_A, &[CHAR_1]), Probe::new(SVC_A)).unwrap();
    server.start().unwrap();
    let r = server.on_gatts_event(
        &GattsEvent::ServiceRegistered { status: GattStatus::Success, app_id: 3 },
    );
    assert!(r.commands.is_empty());
    assert_eq!(server.find_service(SVC_A).unwrap().state, ServiceState::Declared);
}
