//! The attribute route table: recording, lookup in both directions,
//! purging, and idempotent removal.

use gatt_server::route::{AttrRouteTable, RouteTarget};
use gatt_server::status::BtError;

const SVC_A: u128 = 0x1111;
const SVC_B: u128 = 0x2222;
const CHAR_1: u128 = 0xaaaa;
const CHAR_2: u128 = 0xbbbb;

#[test]
fn record_and_resolve_both_directions() {
    let mut t = AttrRouteTable::new();
    assert_eq!(t.record_service(SVC_A, 10), Ok(()));
    assert_eq!(t.record_attribute(10, CHAR_1, 11), Ok(()));
    assert_eq!(t.record_attribute(10, CHAR_2, 12), Ok(()));
    assert_eq!(
        t.resolve(11),
        Some(RouteTarget { service_uuid: SVC_A, char_uuid: CHAR_1 })
    );
    assert_eq!(
        t.resolve(12),
        Some(RouteTarget { service_uuid: SVC_A, char_uuid: CHAR_2 })
    );
    assert_eq!(t.resolve(99), None);
    assert_eq!(t.service_handle_of(SVC_A), Some(10));
    assert_eq!(t.service_handle_of(SVC_B), None);
}

#[test]
fn record_service_same_handle_is_reconfirmation() {
    let mut t = AttrRouteTable::new();
    assert_eq!(t.record_service(SVC_A, 10), Ok(()));
    assert_eq!(t.record_service(SVC_A, 10), Ok(()));
    assert_eq!(t.service_handle_of(SVC_A), Some(10));
}

#[test]
fn record_service_different_handle_is_duplicate() {
    let mut t = AttrRouteTable::new();
    assert_eq!(t.record_service(SVC_A, 10), Ok(()));
    assert_eq!(t.record_service(SVC_A, 20), Err(BtError::DuplicateService));
    assert_eq!(t.service_handle_of(SVC_A), Some(10));
}

#[test]
fn record_service_taken_handle_is_rejected() {
    let mut t = AttrRouteTable::new();
    assert_eq!(t.record_service(SVC_A, 10), Ok(()));
    assert_eq!(t.record_service(SVC_B, 10), Err(BtError::InvalidHandle));
    assert_eq!(t.service_handle_of(SVC_B), None);
}

#[test]
fn record_attribute_without_service_is_unknown() {
    let mut t = AttrRouteTable::new();
    assert_eq!(t.record_attribute(10, CHAR_1, 11), Err(BtError::UnknownService));
    assert_eq!(t.resolve(11), None);
}

#[test]
fn record_attribute_reused_handle_is_rejected() {
    let mut t = AttrRouteTable::new();
    assert_eq!(t.record_service(SVC_A, 10), Ok(()));
    assert_eq!(t.record_attribute(10, CHAR_1, 11), Ok(()));
    assert_eq!(t.record_attribute(10, CHAR_2, 11), Err(BtError::InvalidHandle));
    assert_eq!(
        t.resolve(11),
        Some(RouteTarget { service_uuid: SVC_A, char_uuid: CHAR_1 })
    );
}

#[test]
fn remove_service_purges_all_entries() {
    let mut t = AttrRouteTable::new();
    assert_eq!(t.record_service(SVC_A, 10), Ok(()));
    assert_eq!(t.record_service(SVC_B, 20), Ok(()));
    assert_eq!(t.record_attribute(10, CHAR_1, 11), Ok(()));
    assert_eq!(t.record_attribute(20, CHAR_2, 21), Ok(()));
    t.remove_service(SVC_A);
    assert_eq!(t.resolve(11), None);
    assert_eq!(t.service_handle_of(SVC_A), None);
    assert_eq!(
        t.resolve(21),
        Some(RouteTarget { service_uuid: SVC_B, char_uuid: CHAR_2 })
    );
    assert_eq!(t.service_handle_of(SVC_B), Some(20));
}

#[test]
fn remove_service_twice_is_noop() {
    let mut t = AttrRouteTable::new();
    assert_eq!(t.record_service(SVC_A, 10), Ok(()));
    assert_eq!(t.record_service(SVC_B, 20), Ok(()));
    assert_eq!(t.record_attribute(10, CHAR_1, 11), Ok(()));
    assert_eq!(t.record_attribute(20, CHAR_2, 21), Ok(()));
    t.remove_service(SVC_A);
    t.remove_service(SVC_A);
    assert_eq!(t.resolve(11), None);
    assert_eq!(t.service_handle_of(SVC_A), None);
    assert_eq!(
        t.resolve(21),
        Some(RouteTarget { service_uuid: SVC_B, char_uuid: CHAR_2 })
    );
    assert_eq!(t.service_handle_of(SVC_B), Some(20));
}

#[test]
fn removed_handle_can_be_recorded_again() {
    let mut t = AttrRouteTable::new();
    assert_eq!(t.record_service(SVC_A, 10), Ok(()));
    assert_eq!(t.record_attribute(10, CHAR_1, 11), Ok(()));
    t.remove_service(SVC_A);
    assert_eq!(t.record_service(SVC_B, 10), Ok(()));
    assert_eq!(t.record_attribute(10, CHAR_2, 11), Ok(()));
    assert_eq!(
        t.resolve(11),
        Some(RouteTarget { service_uuid: SVC_B, char_uuid: CHAR_2 })
    );
}
