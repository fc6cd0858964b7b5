use color_hoster::config::Config;
use color_hoster::keyboards::{
    claim_config, connect_device, disconnect_device, first_compatible, handle_device_event,
    release_config, ConfigStore, ConnectedKeyboards, DeviceEvent, HidDevice,
};

fn config(vendor_id: u16, product_id: u16, name: &str) -> Config {
    Config {
        name: name.to_string(),
        vendor: "Unknown".to_string(),
        vendor_id,
        product_id,
        leds: vec![],
        effects: vec![],
        speed: (0, 0),
        brightness: (0, 0),
        matrix: (0, 0),
    }
}

fn device(vendor_id: u16, product_id: u16, usage_id: u16, manufacturer: Option<&str>) -> HidDevice {
    HidDevice {
        vendor_id,
        product_id,
        usage_id,
        usage_page: 0xFF60,
        manufacturer: manufacturer.map(|m| m.to_string()),
    }
}

#[test]
fn claim_takes_matching_config() {
    let mut store = ConfigStore::new();
    store.insert(config(1, 2, "a"));
    store.insert(config(1, 3, "b"));
    let claimed = claim_config(&mut store, &device(1, 3, 0x61, Some("Keychron"))).unwrap();
    assert_eq!(claimed.name, "b");
    assert_eq!(claimed.vendor, "Keychron");
    assert_eq!(store.len(), 1);
    assert!(claim_config(&mut store, &device(1, 3, 0x61, None)).is_none());
}

#[test]
fn claim_needs_compatible_interface() {
    let mut store = ConfigStore::new();
    store.insert(config(1, 2, "a"));
    assert!(claim_config(&mut store, &device(1, 2, 0x06, None)).is_none());
    assert_eq!(store.len(), 1);
    let claimed = claim_config(&mut store, &device(1, 2, 0x61, None)).unwrap();
    assert_eq!(claimed.vendor, "Unknown");
    assert_eq!(store.len(), 0);
}

#[test]
fn release_then_claim_returns_config() {
    let mut store = ConfigStore::new();
    release_config(&mut store, config(0x362D, 0x0301, "p1"));
    let claimed = claim_config(&mut store, &device(0x362D, 0x0301, 0x61, None)).unwrap();
    assert_eq!(claimed.name, "p1");
    assert_eq!(store.len(), 0);
}

#[test]
fn insert_replaces_same_ids() {
    let mut store = ConfigStore::new();
    assert!(store.insert(config(5, 6, "old")).is_none());
    let previous = store.insert(config(5, 6, "new")).unwrap();
    assert_eq!(previous.name, "old");
    assert_eq!(store.len(), 1);
    assert_eq!(store.take(5, 6).unwrap().name, "new");
    assert!(store.take(5, 6).is_none());
}

#[test]
fn first_compatible_device() {
    let devices = vec![device(1, 1, 0x06, None), device(1, 1, 0x61, None), device(2, 2, 0x61, None)];
    assert_eq!(first_compatible(&devices), Some(1));
    assert_eq!(first_compatible(&vec![device(1, 1, 0x06, None)]), None);
}

#[test]
fn connect_and_disconnect_keep_order() {
    let mut store = ConfigStore::new();
    store.insert(config(1, 1, "a"));
    store.insert(config(1, 2, "b"));
    store.insert(config(1, 3, "c"));
    let mut keyboards = ConnectedKeyboards::new();
    assert!(connect_device(&mut store, &mut keyboards, 10, &device(1, 1, 0x61, None)));
    assert!(connect_device(&mut store, &mut keyboards, 20, &device(1, 2, 0x61, Some("Acme"))));
    assert!(connect_device(&mut store, &mut keyboards, 30, &device(1, 3, 0x61, None)));
    assert!(!connect_device(&mut store, &mut keyboards, 40, &device(1, 3, 0x61, None)));
    assert_eq!(store.len(), 0);
    assert_eq!(keyboards.len(), 3);
    assert_eq!(keyboards.config(1).unwrap().vendor, "Acme");
    assert!(disconnect_device(&mut store, &mut keyboards, 20));
    assert_eq!(keyboards.len(), 2);
    assert_eq!(keyboards.config(0).unwrap().name, "a");
    assert_eq!(keyboards.config(1).unwrap().name, "c");
    assert_eq!(keyboards.position(30), Some(1));
    assert_eq!(store.len(), 1);
    assert!(!disconnect_device(&mut store, &mut keyboards, 20));
    assert!(connect_device(&mut store, &mut keyboards, 50, &device(1, 2, 0x61, None)));
    assert_eq!(keyboards.config(2).unwrap().name, "b");
}

#[test]
fn connect_with_known_id_replaces_in_place() {
    let mut store = ConfigStore::new();
    store.insert(config(1, 1, "a"));
    store.insert(config(1, 2, "b"));
    let mut keyboards = ConnectedKeyboards::new();
    assert!(connect_device(&mut store, &mut keyboards, 7, &device(1, 1, 0x61, None)));
    assert!(connect_device(&mut store, &mut keyboards, 7, &device(1, 2, 0x61, None)));
    assert_eq!(keyboards.len(), 1);
    assert_eq!(keyboards.config(0).unwrap().name, "b");
    assert!(keyboards.config(1).is_none());
}

#[test]
fn device_events_move_definitions_between_store_and_keyboards() {
    let mut store = ConfigStore::new();
    store.insert(config(1, 2, "a"));
    store.insert(config(1, 3, "b"));
    let mut keyboards = ConnectedKeyboards::new();
    assert!(!handle_device_event(&mut store, &mut keyboards, &DeviceEvent::Connected(7, None)));
    assert!(handle_device_event(
        &mut store,
        &mut keyboards,
        &DeviceEvent::Connected(7, Some(device(1, 3, 0x61, Some("Keychron")))),
    ));
    assert_eq!(store.len(), 1);
    assert_eq!(keyboards.len(), 1);
    assert_eq!(keyboards.config(0).unwrap().vendor, "Keychron");
    assert!(!handle_device_event(
        &mut store,
        &mut keyboards,
        &DeviceEvent::Connected(8, Some(device(1, 3, 0x61, None))),
    ));
    assert_eq!(keyboards.len(), 1);
    assert!(!handle_device_event(&mut store, &mut keyboards, &DeviceEvent::Disconnected(9)));
    assert!(handle_device_event(&mut store, &mut keyboards, &DeviceEvent::Disconnected(7)));
    assert_eq!(store.len(), 2);
    assert_eq!(keyboards.len(), 0);
    assert!(handle_device_event(
        &mut store,
        &mut keyboards,
        &DeviceEvent::Connected(8, Some(device(1, 3, 0x61, None))),
    ));
    assert_eq!(keyboards.position(8), Some(0));
}
