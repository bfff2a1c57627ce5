//! Tests of the discovery filter, the registry, the connect lookup,
//! and the connected-device decision.

use biobridge::ble::{BleManager, BleEvent, BridgeError, CharacteristicInfo, CHARACTERISTIC_UUID, SERVICE_UUID};

#[test]
fn matching_then_unmatched_discovery() {
    let mut m = BleManager::new();
    let list = m.process_discovery(
        1,
        "AA:BB:CC:DD:EE:FF".to_string(),
        Some("BioSignal-01".to_string()),
    );
    let list = list.expect("matching discovery must be surfaced");
    assert_eq!(list.len(), 1);
    assert_eq!(list[0].id, "AA:BB:CC:DD:EE:FF");
    assert_eq!(list[0].name, "BioSignal-01");

    let none = m.process_discovery(2, "11:22:33:44:55:66".to_string(), Some("Other".to_string()));
    assert!(none.is_none());
    assert_eq!(m.get_devices().len(), 1);
}

#[test]
fn unnamed_discovery_is_discarded() {
    let mut m = BleManager::new();
    assert!(m.process_discovery(1, "AA:BB:CC:DD:EE:FF".to_string(), None).is_none());
    assert!(m.get_devices().is_empty());
}

#[test]
fn duplicate_discovery_is_idempotent() {
    let mut m = BleManager::new();
    m.process_discovery(1, "AA".to_string(), Some("BioSignal-01".to_string()));
    let list = m
        .process_discovery(7, "AA".to_string(), Some("BioSignal-01".to_string()))
        .expect("re-discovery must be surfaced");
    assert_eq!(list.len(), 1);
    assert_eq!(m.get_devices().len(), 1);
}

#[test]
fn discovery_order_is_kept() {
    let mut m = BleManager::new();
    m.process_discovery(1, "AA".to_string(), Some("BioSignal-1".to_string()));
    m.process_discovery(2, "BB".to_string(), Some("BioSignal-2".to_string()));
    m.process_discovery(3, "AA".to_string(), Some("BioSignal-1b".to_string()));
    let devices = m.get_devices();
    assert_eq!(devices.len(), 2);
    assert_eq!(devices[0].id, "AA");
    assert_eq!(devices[0].name, "BioSignal-1b");
    assert_eq!(devices[1].id, "BB");
}

#[test]
fn marker_must_be_contained_not_equal() {
    let mut m = BleManager::new();
    let surfaced = m.process_discovery(1, "CC".to_string(), Some("My BioSignal sensor".to_string()));
    assert!(surfaced.is_some());
    let rejected = m.process_discovery(2, "DD".to_string(), Some("biosignal".to_string()));
    assert!(rejected.is_none());
}

#[test]
fn connect_unknown_id_is_not_found() {
    let m = BleManager::new();
    let r = m.connect_device(&"absent".to_string());
    assert_eq!(r.unwrap_err(), BridgeError::NotFoundError);
}

#[test]
fn connect_known_id_returns_handle() {
    let mut m = BleManager::new();
    m.process_discovery(42, "AA".to_string(), Some("BioSignal-01".to_string()));
    assert_eq!(m.connect_device(&"AA".to_string()).unwrap(), 42);
    assert_eq!(m.disconnect_device(&"AA".to_string()).unwrap(), 42);
    assert_eq!(
        m.disconnect_device(&"BB".to_string()).unwrap_err(),
        BridgeError::NotFoundError
    );
}

#[test]
fn missing_characteristic_aborts_connection() {
    let mut m = BleManager::new();
    m.process_discovery(1, "AA".to_string(), Some("BioSignal-01".to_string()));
    let chars = vec![CharacteristicInfo { service: 1, uuid: 2 }];
    let d = m
        .process_connected(&"AA".to_string(), &chars)
        .expect("known device must yield a decision");
    assert!(d.disconnect);
    assert!(d.subscribe_index.is_none());
    assert_eq!(d.events.len(), 1);
    match &d.events[0] {
        BleEvent::DeviceError(msg) => assert_eq!(msg, "No characteristic found"),
        _ => panic!("expected a DeviceError event"),
    }
}

#[test]
fn present_characteristic_subscribes_and_connects() {
    let mut m = BleManager::new();
    m.process_discovery(1, "AA".to_string(), Some("BioSignal-01".to_string()));
    let chars = vec![
        CharacteristicInfo { service: 1, uuid: 2 },
        CharacteristicInfo { service: SERVICE_UUID, uuid: CHARACTERISTIC_UUID },
    ];
    let d = m
        .process_connected(&"AA".to_string(), &chars)
        .expect("known device must yield a decision");
    assert!(!d.disconnect);
    assert_eq!(d.subscribe_index, Some(1));
    assert_eq!(d.events.len(), 1);
    match &d.events[0] {
        BleEvent::DeviceConnected(dev) => {
            assert_eq!(dev.id, "AA");
            assert_eq!(dev.name, "BioSignal-01");
        },
        _ => panic!("expected a DeviceConnected event"),
    }
}

#[test]
fn connected_notification_for_unknown_device() {
    let m = BleManager::new();
    let chars: Vec<CharacteristicInfo> = Vec::new();
    assert!(m.process_connected(&"AA".to_string(), &chars).is_none());
}

#[test]
fn error_messages() {
    assert_eq!(BridgeError::NotFoundError.message(), "Device not found");
    assert_eq!(
        BridgeError::CharacteristicMissing.message(),
        "No characteristic found"
    );
}
