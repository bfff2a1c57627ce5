//! Tests of the bridge orchestrator's routing and the shared
//! application state's command surface.

use biobridge::ble::{BleEvent, Device};
use biobridge::route::{route_batch, route_event, Route};
use biobridge::state::AppState;

#[test]
fn notification_routes_to_serial() {
    let r = route_event(BleEvent::DeviceNotification(vec![1, 2, 3]));
    match r {
        Route::Serial(bytes) => assert_eq!(bytes, vec![1, 2, 3]),
        Route::Ui(_) => panic!("notification must go to the serial path"),
    }
}

#[test]
fn other_events_route_to_ui() {
    let r = route_event(BleEvent::DeviceDisconnected);
    match r {
        Route::Ui(BleEvent::DeviceDisconnected) => {},
        _ => panic!("non-notification must be forwarded unchanged"),
    }
    let r = route_event(BleEvent::DeviceError("boom".to_string()));
    match r {
        Route::Ui(BleEvent::DeviceError(msg)) => assert_eq!(msg, "boom"),
        _ => panic!("non-notification must be forwarded unchanged"),
    }
}

#[test]
fn batch_keeps_order_and_drops_nothing() {
    let events = vec![
        BleEvent::DeviceNotification(vec![1]),
        BleEvent::DeviceConnected(Device { id: "AA".to_string(), name: "BioSignal-01".to_string() }),
        BleEvent::DeviceNotification(vec![2, 2]),
        BleEvent::DeviceDisconnected,
        BleEvent::DeviceNotification(vec![3, 3, 3]),
    ];
    let (serial, ui) = route_batch(events);
    assert_eq!(serial, vec![vec![1], vec![2, 2], vec![3, 3, 3]]);
    assert_eq!(ui.len(), 2);
    match &ui[0] {
        BleEvent::DeviceConnected(d) => assert_eq!(d.id, "AA"),
        _ => panic!("first forwarded event must be the connect"),
    }
    match &ui[1] {
        BleEvent::DeviceDisconnected => {},
        _ => panic!("second forwarded event must be the disconnect"),
    }
}

#[test]
fn no_notification_reaches_the_ui() {
    let events = vec![
        BleEvent::DeviceNotification(vec![9]),
        BleEvent::DeviceNotification(vec![8]),
    ];
    let (serial, ui) = route_batch(events);
    assert_eq!(serial.len(), 2);
    assert!(ui.is_empty());
}

#[test]
fn companion_port_name_lifecycle() {
    let mut st = AppState::new();
    assert!(st.get_other_port().is_none());
    st.set_resource_path("/opt/driver".to_string());
    let out = "CNCA0 PortName=COM8\nCNCB0 PortName=COM#,RealPortName=COM7\n";
    let resolved = st.port_manager.get_ports(out, "CNCB0");
    st.set_other_port(resolved);
    assert_eq!(st.get_other_port(), Some("COM7".to_string()));
}

#[test]
fn degraded_startup_records_empty_name() {
    let mut st = AppState::new();
    let resolved = st.port_manager.get_ports("no matching lines\n", "CNCB0");
    st.set_other_port(resolved);
    assert_eq!(st.get_other_port(), Some(String::new()));
}

#[test]
fn command_surface_end_to_end() {
    let mut st = AppState::new();
    st.ble_manager
        .process_discovery(5, "AA:BB:CC:DD:EE:FF".to_string(), Some("BioSignal-01".to_string()));
    let devices = st.get_devices();
    assert_eq!(devices.len(), 1);
    assert_eq!(devices[0].id, "AA:BB:CC:DD:EE:FF");
    assert_eq!(st.connect(&"AA:BB:CC:DD:EE:FF".to_string()).unwrap(), 5);
    assert!(st.connect(&"unknown".to_string()).is_err());
    assert_eq!(st.disconnect(&"AA:BB:CC:DD:EE:FF".to_string()).unwrap(), 5);
}

#[test]
fn device_clone_is_equal() {
    let d = Device { id: "AA".to_string(), name: "BioSignal-01".to_string() };
    let c = d.clone();
    assert_eq!(c.id, d.id);
    assert_eq!(c.name, d.name);
}
