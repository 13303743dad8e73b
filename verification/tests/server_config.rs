//! Configuration-time checks, status checking, error descriptions, the
//! advertising decision, and the bundled example service.

use gatt_server::descriptor::{CharProps, CharacteristicDescriptor, ServiceDescriptor};
use gatt_server::event::{Command, GapEvent, GattResponse, GattsEvent, ReadEvent, WriteEvent};
use gatt_server::registry::{CharHandle, ServiceState};
use gatt_server::server::{AttrServer, GattServiceHandler, ServiceCommunication, ServiceEvent};
use gatt_server::status::{
    check_bt_status, check_gatt_status, check_result, BtError, BtStatus, GattStatus,
};
use gatt_server::wifi_ctl::WifiCtl;

struct Quiet {
    id: u128,
}

impl ServiceCommunication for Quiet {
    fn notify_event(&mut self, _event: ServiceEvent) {}
}

impl GattServiceHandler for Quiet {
    fn service_id(&self) -> u128 {
        self.id
    }
    fn on_created(&mut self, _service_handle: u16, _char_handles: &Vec<CharHandle>) -> Result<
        (),
        BtError,
    > {
        Ok(())
    }
    fn on_write(&mut self, _event: &WriteEvent) -> Result<Option<GattResponse>, BtError> {
        Ok(None)
    }
    fn on_read(&mut self, _event: &ReadEvent) -> Result<Option<GattResponse>, BtError> {
        Ok(None)
    }
    fn on_connect(&mut self, _conn_id: u16, _addr: u64) -> Result<(), BtError> {
        Ok(())
    }
    fn on_disconnect(&mut self, _addr: u64) -> Result<(), BtError> {
        Ok(())
    }
}

fn plain_char(uuid: u128) -> CharacteristicDescriptor {
    CharacteristicDescriptor {
        uuid,
        props: CharProps { read: true, write: false, notify: false, indicate: false },
        max_len: 32,
        auto_respond: true,
    }
}

fn descriptor(uuid: u128, chars: Vec<CharacteristicDescriptor>) -> ServiceDescriptor {
    ServiceDescriptor { uuid, inst_id: 0, is_primary: true, characteristics: chars }
}

#[test]
fn register_rejects_duplicate_service_identifier() {
    let mut server: AttrServer<Quiet> = AttrServer::new(0, String::from("dev"));
    assert_eq!(
        server.register(descriptor(1, vec![plain_char(10)]), Quiet { id: 1 }),
        Ok(())
    );
    assert_eq!(
        server.register(descriptor(1, vec![plain_char(11)]), Quiet { id: 1 }),
        Err(BtError::DuplicateService)
    );
}

#[test]
fn register_rejects_duplicate_characteristic_identifier() {
    let mut server: AttrServer<Quiet> = AttrServer::new(0, String::from("dev"));
    assert_eq!(
        server.register(descriptor(1, vec![plain_char(10), plain_char(10)]), Quiet { id: 1 }),
        Err(BtError::DuplicateCharacteristic)
    );
}

#[test]
fn register_rejects_sixth_service() {
    let mut server: AttrServer<Quiet> = AttrServer::new(0, String::from("dev"));
    for u in 1..=5u128 {
        assert_eq!(
            server.register(descriptor(u, vec![plain_char(u + 100)]), Quiet { id: u }),
            Ok(())
        );
    }
    assert_eq!(
        server.register(descriptor(6, vec![plain_char(106)]), Quiet { id: 6 }),
        Err(BtError::ServiceLimit)
    );
}

#[test]
fn register_rejects_oversized_handle_budget() {
    // 32768 two-handle characteristics push the budget past 16 bits
    let mut chars = Vec::new();
    for k in 0..32768u32 {
        chars.push(plain_char(k as u128));
    }
    let mut server: AttrServer<Quiet> = AttrServer::new(0, String::from("dev"));
    assert_eq!(
        server.register(descriptor(1, chars), Quiet { id: 1 }),
        Err(BtError::CharacteristicLimit)
    );
}

#[test]
fn register_after_start_is_rejected() {
    let mut server: AttrServer<Quiet> = AttrServer::new(0, String::from("dev"));
    server.register(descriptor(1, vec![plain_char(10)]), Quiet { id: 1 }).unwrap();
    assert!(matches!(server.start(), Ok(Command::RegisterApplication { app_id: 0 })));
    assert_eq!(
        server.register(descriptor(2, vec![plain_char(11)]), Quiet { id: 2 }),
        Err(BtError::AlreadyStarted)
    );
    assert_eq!(server.start().err(), Some(BtError::AlreadyStarted));
}

#[test]
fn gap_event_decides_advertising() {
    let server: AttrServer<Quiet> = AttrServer::new(0, String::from("dev"));
    assert_eq!(
        server.on_gap_event(GapEvent::AdvertisingConfigured(BtStatus::Success)),
        Ok(true)
    );
    assert_eq!(
        server.on_gap_event(GapEvent::AdvertisingConfigured(BtStatus::Fail(3))),
        Err(BtError::ProtocolStatus(3))
    );
    assert_eq!(server.on_gap_event(GapEvent::Other), Ok(false));
}

#[test]
fn status_checks_keep_the_raw_code() {
    assert_eq!(check_bt_status(BtStatus::Success), Ok(()));
    assert_eq!(
        check_bt_status(BtStatus::Fail(0x12)),
        Err(BtError::ProtocolStatus(0x12))
    );
    assert_eq!(check_gatt_status(GattStatus::Success), Ok(()));
    assert_eq!(
        check_gatt_status(GattStatus::Fail(0x85)),
        Err(BtError::ProtocolStatus(0x85))
    );
}

#[test]
fn check_result_extracts_the_error() {
    assert_eq!(check_result::<u32>(Ok(5)), None);
    assert_eq!(
        check_result::<u32>(Err(BtError::InvalidHandle)),
        Some(BtError::InvalidHandle)
    );
}

#[test]
fn error_messages_describe_each_variant() {
    assert_eq!(BtError::ServiceLimit.message(), "service limit reached");
    assert_eq!(BtError::CharacteristicLimit.message(), "characteristic limit reached");
    assert_eq!(BtError::InvalidHandle.message(), "invalid handle");
    assert_eq!(BtError::DuplicateService.message(), "service already registered");
    assert_eq!(BtError::DuplicateCharacteristic.message(), "characteristic declared twice");
    assert_eq!(BtError::UnknownService.message(), "service not registered");
    assert_eq!(BtError::AlreadyStarted.message(), "server already started");
    assert_eq!(
        BtError::ProtocolStatus(9).message(),
        "driver reported a failure status"
    );
}

#[test]
fn device_name_is_kept() {
    let server: AttrServer<Quiet> = AttrServer::new(0, String::from("gatt-rs-demo"));
    assert_eq!(server.device_name(), "gatt-rs-demo");
}

#[test]
fn wifi_ctl_declares_its_two_characteristics() {
    let svc = WifiCtl;
    let d = svc.descriptor();
    assert_eq!(d.uuid, WifiCtl::SERVICE_UUID);
    assert!(d.is_primary);
    assert_eq!(d.characteristics.len(), 2);
    assert_eq!(d.characteristics[0].uuid, WifiCtl::RECV_CHARACTERISTIC_UUID);
    assert!(d.characteristics[0].props.write);
    assert!(!d.characteristics[0].props.read);
    assert_eq!(d.characteristics[1].uuid, WifiCtl::IND_CHARACTERISTIC_UUID);
    assert!(d.characteristics[1].props.indicate);
    assert_eq!(d.characteristics[0].max_len, 200);
}

#[test]
fn wifi_ctl_reaches_live_on_the_server() {
    let svc = WifiCtl;
    let d = svc.descriptor();
    let mut server: AttrServer<WifiCtl> = AttrServer::new(0, String::from("j716-gatt"));
    server.register(d, svc).unwrap();
    server.start().unwrap();
    server.on_gatts_event(
        &GattsEvent::ServiceRegistered { status: GattStatus::Success, app_id: 0 },
    );
    let r = server.on_gatts_event(&GattsEvent::ServiceCreated {
        status: GattStatus::Success,
        service_handle: 40,
        service_uuid: WifiCtl::SERVICE_UUID,
    });
    assert!(matches!(
        r.commands[0],
        Command::AddCharacteristic { service_handle: 40, .. }
    ));
    server.on_gatts_event(&GattsEvent::CharacteristicAdded {
        status: GattStatus::Success,
        attr_handle: 41,
        service_handle: 40,
        char_uuid: WifiCtl::RECV_CHARACTERISTIC_UUID,
    });
    server.on_gatts_event(&GattsEvent::CharacteristicAdded {
        status: GattStatus::Success,
        attr_handle: 42,
        service_handle: 40,
        char_uuid: WifiCtl::IND_CHARACTERISTIC_UUID,
    });
    server.on_gatts_event(
        &GattsEvent::ServiceStarted { status: GattStatus::Success, service_handle: 40 },
    );
    assert_eq!(
        server.find_service(WifiCtl::SERVICE_UUID).unwrap().state,
        ServiceState::Live
    );
    // a write to the receive characteristic is accepted silently
    let r = server.on_gatts_event(&GattsEvent::Write(WriteEvent {
        conn_id: 1,
        trans_id: 9,
        addr: 0x42,
        handle: 41,
        offset: 0,
        need_rsp: false,
        is_prep: false,
        value: vec![1, 2],
    }));
    assert!(r.commands.is_empty());
    assert!(r.outcomes.is_empty());
}
