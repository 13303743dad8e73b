//! The registration state machine driven directly, without the facade:
//! lookups by identifier and by runtime handle, per-characteristic handle
//! records, and the commands the machine issues.

use gatt_server::descriptor::{CharProps, CharacteristicDescriptor, ServiceDescriptor};
use gatt_server::event::{Command, GattsEvent};
use gatt_server::registry::{CharHandle, ServiceNotice, ServiceRegistry, ServiceState};
use gatt_server::route::RouteTarget;
use gatt_server::status::{BtError, GattStatus};

const SVC: u128 = 0x7A;
const CHAR_1: u128 = 0xE1;

fn one_char_descriptor() -> ServiceDescriptor {
    ServiceDescriptor {
        uuid: SVC,
        inst_id: 0,
        is_primary: true,
        characteristics: vec![CharacteristicDescriptor {
            uuid: CHAR_1,
            props: CharProps { read: true, write: true, notify: true, indicate: false },
            max_len: 48,
            auto_respond: false,
        }],
    }
}

#[test]
fn char_handle_records_start_empty_and_update() {
    let mut c = CharHandle::new(CHAR_1);
    assert_eq!(c.char_uuid, CHAR_1);
    assert_eq!(c.attr_handle, None);
    assert_eq!(c.service_handle, None);
    c.update_handle(Some(11), Some(10));
    assert_eq!(c.attr_handle, Some(11));
    assert_eq!(c.service_handle, Some(10));
}

#[test]
fn machine_records_handles_and_answers_lookups() {
    let mut registry = ServiceRegistry::new();
    assert_eq!(registry.service_count(), 0);
    assert_eq!(registry.register_service(one_char_descriptor()), Ok(()));
    assert_eq!(registry.service_count(), 1);
    assert_eq!(
        registry.register_service(one_char_descriptor()),
        Err(BtError::DuplicateService)
    );

    let (cmds, _) = registry.handle_confirmation(&GattsEvent::ServiceRegistered {
        status: GattStatus::Success,
        app_id: 0,
    });
    assert_eq!(cmds.len(), 1);
    // one handle for the service declaration, three for the
    // notify-capable characteristic
    assert!(matches!(
        cmds[0],
        Command::CreateService { service_uuid: SVC, max_attr_count: 4, .. }
    ));

    let (cmds, _) = registry.handle_confirmation(&GattsEvent::ServiceCreated {
        status: GattStatus::Success,
        service_handle: 10,
        service_uuid: SVC,
    });
    assert!(matches!(cmds[0], Command::AddCharacteristic { service_handle: 10, .. }));
    assert!(registry.find_by_service_handle(10).is_some());
    assert!(registry.find_by_service_handle(99).is_none());

    let (cmds, _) = registry.handle_confirmation(&GattsEvent::CharacteristicAdded {
        status: GattStatus::Success,
        attr_handle: 11,
        service_handle: 10,
        char_uuid: CHAR_1,
    });
    assert!(matches!(cmds[0], Command::StartService { service_handle: 10 }));

    let (cmds, notices) = registry.handle_confirmation(&GattsEvent::ServiceStarted {
        status: GattStatus::Success,
        service_handle: 10,
    });
    assert!(cmds.is_empty());
    assert_eq!(notices, vec![ServiceNotice::Attached { service_uuid: SVC }]);

    let inst = registry.find_by_gatt_id(SVC).unwrap();
    assert_eq!(inst.state, ServiceState::Live);
    assert_eq!(inst.char_handles.len(), 1);
    assert_eq!(inst.char_handles[0].char_uuid, CHAR_1);
    assert_eq!(inst.char_handles[0].attr_handle, Some(11));
    assert_eq!(inst.char_handles[0].service_handle, Some(10));
    assert_eq!(
        registry.table().resolve(11),
        Some(RouteTarget { service_uuid: SVC, char_uuid: CHAR_1 })
    );
    assert_eq!(registry.table().service_handle_of(SVC), Some(10));
}

#[test]
fn machine_teardown_purges_and_reports() {
    let mut registry = ServiceRegistry::new();
    registry.register_service(one_char_descriptor()).unwrap();
    for event in [
        GattsEvent::ServiceRegistered { status: GattStatus::Success, app_id: 0 },
        GattsEvent::ServiceCreated {
            status: GattStatus::Success,
            service_handle: 10,
            service_uuid: SVC,
        },
        GattsEvent::CharacteristicAdded {
            status: GattStatus::Success,
            attr_handle: 11,
            service_handle: 10,
            char_uuid: CHAR_1,
        },
        GattsEvent::ServiceStarted { status: GattStatus::Success, service_handle: 10 },
    ] {
        registry.handle_confirmation(&event);
    }

    let cmd = registry.delete_service(SVC).unwrap();
    assert!(matches!(cmd, Command::DeleteService { service_handle: 10 }));

    // a failed deletion still ends the instance, with the fault recorded
    let (_, notices) = registry.handle_confirmation(&GattsEvent::ServiceDeleted {
        status: GattStatus::Fail(0x10),
        service_handle: 10,
    });
    assert_eq!(
        notices,
        vec![ServiceNotice::Failed { service_uuid: SVC, error: BtError::ProtocolStatus(0x10) }]
    );
    let inst = registry.find_by_gatt_id(SVC).unwrap();
    assert_eq!(inst.state, ServiceState::Deleted);
    assert_eq!(inst.fault, Some(BtError::ProtocolStatus(0x10)));
    assert_eq!(registry.table().resolve(11), None);
    // the machine still counts the ended instance; its entries are gone
    assert_eq!(registry.service_count(), 1);
}
