use color_hoster::config::{parse_hex, Config};
use color_hoster::consts::Request;
use color_hoster::handlers::{
    controller_count_data, controller_data, led_scancodes, custom_mode_effect, decode_mode_update, device_id,
    mode_data_complete, mode_effect, mode_payload_length, negotiate_version, profile_list_data,
    profile_name, protocol_version_data, route, KeyboardState, ModeUpdate, Route,
    mode_update_finish, mode_update_start, session_step, KeyboardAction, Session, SessionAction,
    SessionEvent,
};
use color_hoster::utils::Color;

fn le16(v: u16) -> Vec<u8> {
    v.to_le_bytes().to_vec()
}

fn le32(v: u32) -> Vec<u8> {
    v.to_le_bytes().to_vec()
}

fn text(s: &str) -> Vec<u8> {
    let mut out = le16((s.len() + 1) as u16);
    out.extend_from_slice(s.as_bytes());
    out.push(0);
    out
}

fn sample_config() -> Config {
    Config {
        name: "K".to_string(),
        vendor: "V".to_string(),
        vendor_id: 0x1234,
        product_id: 0xABCD,
        leds: vec![(0, (0, 0)), (1, (0, 1))],
        effects: vec![("D".to_string(), 3, 32 | 1 | 256), ("S".to_string(), 1, 64 | 256)],
        speed: (0, 255),
        brightness: (0, 200),
        matrix: (2, 1),
    }
}

fn sample_state() -> KeyboardState {
    KeyboardState {
        effect: 1,
        speed: 100,
        brightness: 50,
        color: Color { red: 1, green: 2, blue: 3 },
        colors: vec![Color { red: 9, green: 8, blue: 7 }, Color { red: 6, green: 5, blue: 4 }],
    }
}

fn expected_description(protocol_version: u32) -> Vec<u8> {
    let mut body = Vec::new();
    body.extend(le32(5));
    body.extend(text("K"));
    if protocol_version >= 1 {
        body.extend(text("V"));
    }
    body.extend(text("K via ColorHoster"));
    body.extend(text("0.6.3"));
    body.extend(text("1234:abcd"));
    body.extend(text("HID: 1234:abcd"));
    body.extend(le16(2));
    body.extend(le32(1));
    for (name, id, flags, mode) in [("D", 3u32, 289u32, 1u32), ("S", 1, 320, 2)] {
        body.extend(text(name));
        body.extend(le32(id));
        body.extend(le32(flags));
        body.extend(le32(0));
        body.extend(le32(255));
        if protocol_version >= 3 {
            body.extend(le32(0));
            body.extend(le32(200));
        }
        body.extend(le32(1));
        body.extend(le32(1));
        body.extend(le32(100));
        if protocol_version >= 3 {
            body.extend(le32(50));
        }
        body.extend(le32(0));
        body.extend(le32(mode));
        body.extend(le16(1));
        body.extend([1, 2, 3, 0]);
    }
    body.extend(le16(1));
    body.extend(text("Keyboard"));
    body.extend(le32(2));
    body.extend(le32(2));
    body.extend(le32(2));
    body.extend(le32(2));
    body.extend(le16(16));
    body.extend(le32(1));
    body.extend(le32(2));
    body.extend(le32(0));
    body.extend(le32(1));
    body.extend(le16(2));
    body.extend(text("Key: Esc"));
    body.extend(le32(0));
    body.extend(text("Key: F1"));
    body.extend(le32(1));
    body.extend(le16(2));
    body.extend([9, 8, 7, 0, 6, 5, 4, 0]);
    let mut out = le32((body.len() + 4) as u32);
    out.extend(body);
    out
}

#[test]
fn controller_data_matches_protocol_layout() {
    let names = vec!["Esc".to_string(), "F1".to_string()];
    let data = controller_data(&sample_config(), &sample_state(), "0.6.3", 3, &names);
    assert_eq!(data, expected_description(3));
}

#[test]
fn controller_data_for_old_clients() {
    let names = vec!["Esc".to_string(), "F1".to_string()];
    let data = controller_data(&sample_config(), &sample_state(), "0.6.3", 0, &names);
    assert_eq!(data, expected_description(0));
    let data = controller_data(&sample_config(), &sample_state(), "0.6.3", 1, &names);
    assert_eq!(data, expected_description(1));
}

#[test]
fn controller_data_length_prefix() {
    let names = vec!["Esc".to_string(), "F1".to_string()];
    let data = controller_data(&sample_config(), &sample_state(), "0.6.3", 3, &names);
    assert_eq!(u32::from_le_bytes([data[0], data[1], data[2], data[3]]) as usize, data.len());
}

#[test]
fn controller_matrix_later_leds_overwrite() {
    let mut config = sample_config();
    config.leds = vec![(4, (0, 1)), (7, (0, 1))];
    let state = sample_state();
    let names = vec!["A".to_string(), "B".to_string()];
    let data = controller_data(&config, &state, "v", 3, &names);
    let needle: Vec<u8> = [le16(16), le32(1), le32(2), le32(0xFFFF_FFFF), le32(7)].concat();
    assert!(data.windows(needle.len()).any(|w| w == needle.as_slice()));
}

#[test]
fn active_mode_falls_back_to_zero() {
    let mut state = sample_state();
    state.effect = 99;
    let names = vec!["Esc".to_string(), "F1".to_string()];
    let data = controller_data(&sample_config(), &state, "0.6.3", 3, &names);
    let mut expected = expected_description(3);
    let header = 4 + 4 + 4 + 4 + 20 + 8 + 12 + 17 + 2;
    expected[header..header + 4].copy_from_slice(&le32(0));
    assert_eq!(data, expected);
}

#[test]
fn device_id_is_lowercase_hex() {
    assert_eq!(device_id(0x1234, 0xABCD), b"1234:abcd".to_vec());
    assert_eq!(device_id(0x0001, 0x00F0), b"0001:00f0".to_vec());
}

#[test]
fn device_id_reads_back_as_hex_id() {
    for v in [0u16, 1, 0x9, 0xa, 0x0fff, 0x320f, 0xabcd, 0xffff] {
        let id = device_id(v, 0);
        let text = std::str::from_utf8(&id[0..4]).unwrap();
        assert_eq!(parse_hex(text), v);
    }
}

#[test]
fn route_server_requests_ignore_device() {
    assert_eq!(route(40, 7, 0), Route::Server(Request::GetProtocolVersion));
    assert_eq!(route(0, 7, 0), Route::Server(Request::GetControllerCount));
    assert_eq!(route(50, 7, 0), Route::Server(Request::SetClientName));
}

#[test]
fn route_device_requests() {
    assert_eq!(route(1, 1, 2), Route::Device(Request::GetControllerData, 1));
    assert_eq!(route(1101, 0, 1), Route::Device(Request::UpdateMode, 0));
    assert_eq!(route(1, 2, 2), Route::UnknownDevice);
    assert_eq!(route(999, 5, 2), Route::UnknownDevice);
    assert_eq!(route(999, 0, 2), Route::UnknownRequest);
}

#[test]
fn negotiate_version_caps_at_server_version() {
    assert_eq!(negotiate_version(0), 0);
    assert_eq!(negotiate_version(2), 2);
    assert_eq!(negotiate_version(3), 3);
    assert_eq!(negotiate_version(5), 3);
}

#[test]
fn small_answers() {
    assert_eq!(controller_count_data(2), vec![2, 0, 0, 0]);
    assert_eq!(protocol_version_data(), vec![3, 0, 0, 0]);
}

#[test]
fn mode_payload_length_checks_declared_length() {
    assert_eq!(mode_payload_length(30, 99), Some(20));
    assert_eq!(mode_payload_length(0, 99), Some(89));
    assert_eq!(mode_payload_length(10, 99), Some(0));
    assert_eq!(mode_payload_length(9, 99), None);
    assert_eq!(mode_payload_length(0, 3), None);
}

fn mode_data(name_length: usize, protocol_version: u32, colors: u16) -> Vec<u8> {
    let mut data = vec![0u8; name_length];
    if protocol_version >= 3 {
        data.extend([0u8; 32]);
        data.extend(le32(0x1_05));
        data.extend(le32(0x2_0A));
        data.extend([0u8; 8]);
    } else {
        data.extend([0u8; 24]);
        data.extend(le32(0x1_05));
        data.extend([0u8; 8]);
    }
    data.extend(le16(colors));
    if colors > 0 {
        data.extend([10, 20, 30, 0]);
    }
    data
}

#[test]
fn decode_mode_update_by_protocol_version() {
    let data = mode_data(4, 3, 1);
    assert!(mode_data_complete(&data, 4, 3));
    assert_eq!(
        decode_mode_update(&data, 4, 3),
        ModeUpdate { speed: 5, brightness: Some(10), color: Some(Color { red: 10, green: 20, blue: 30 }) }
    );
    let data = mode_data(4, 2, 0);
    assert!(mode_data_complete(&data, 4, 2));
    assert_eq!(decode_mode_update(&data, 4, 2), ModeUpdate { speed: 5, brightness: None, color: None });
}

#[test]
fn mode_data_complete_detects_short_data() {
    let data = mode_data(4, 3, 1);
    assert!(!mode_data_complete(&data[..data.len() - 4].to_vec(), 4, 3));
    assert!(!mode_data_complete(&data[..20].to_vec(), 4, 3));
    let data = mode_data(4, 3, 0);
    assert!(mode_data_complete(&data, 4, 3));
}

#[test]
fn mode_effect_falls_back_to_zero() {
    let config = sample_config();
    assert_eq!(mode_effect(&config, 0), 3);
    assert_eq!(mode_effect(&config, 1), 1);
    assert_eq!(mode_effect(&config, 2), 0);
    assert_eq!(mode_effect(&config, -1), 0);
}

#[test]
fn custom_mode_effect_finds_direct_mode() {
    let mut config = sample_config();
    assert_eq!(custom_mode_effect(&config), Some(3));
    config.effects = vec![("S".to_string(), 1, 64)];
    assert_eq!(custom_mode_effect(&config), None);
}

#[test]
fn profile_list_data_layout() {
    let data = profile_list_data(&vec!["a".to_string(), "bc".to_string()]);
    let mut body = le16(2);
    body.extend(text("a"));
    body.extend(text("bc"));
    let mut expected = le32((body.len() + 4) as u32);
    expected.extend(body);
    assert_eq!(data, expected);
    assert_eq!(profile_list_data(&vec![]), vec![6, 0, 0, 0, 0, 0]);
}

#[test]
fn profile_name_strips_json() {
    assert_eq!(profile_name("gaming.json"), Some("gaming"));
    assert_eq!(profile_name(".json"), Some(""));
    assert_eq!(profile_name("notes.txt"), None);
    assert_eq!(profile_name("json"), None);
}

#[test]
fn led_scancodes_index_keymap_by_cell() {
    let mut config = sample_config();
    config.matrix = (3, 2);
    config.leds = vec![(0, (1, 2)), (1, (0, 0)), (2, (0, 1))];
    let keymap: Vec<u16> = vec![10, 11, 12, 20, 21, 22];
    assert_eq!(led_scancodes(&config, &keymap), vec![22, 10, 11]);
}

#[test]
fn session_versions() {
    let session = Session { protocol_version: 0, client: None };
    let (session, action) = session_step(session, SessionEvent::ProtocolVersion(5));
    assert_eq!(session.protocol_version, 3);
    assert!(matches!(action, SessionAction::Reply(ref d) if d == &vec![3, 0, 0, 0]));
    let (session, action) = session_step(session, SessionEvent::ControllerData(Some(2)));
    assert_eq!(session.protocol_version, 2);
    assert!(matches!(action, SessionAction::Nothing));
    let (session, _) = session_step(session, SessionEvent::ControllerData(None));
    assert_eq!(session.protocol_version, 0);
}

#[test]
fn session_announces_first_client_name_only() {
    let session = Session { protocol_version: 3, client: None };
    let (session, action) = session_step(session, SessionEvent::ClientName("OpenRGB".to_string()));
    assert!(matches!(action, SessionAction::AnnounceClient));
    assert_eq!(session.client.as_deref(), Some("OpenRGB"));
    assert_eq!(session.protocol_version, 3);
    let (session, action) = session_step(session, SessionEvent::ClientName("Aurora".to_string()));
    assert!(matches!(action, SessionAction::Nothing));
    assert_eq!(session.client.as_deref(), Some("Aurora"));
}

#[test]
fn mode_update_sets_effect_before_length_check() {
    let config = sample_config();
    assert_eq!(mode_update_start(&config, 5, 99, 0), (KeyboardAction::SetEffect(3), None));
    assert_eq!(mode_update_start(&config, 30, 99, 1), (KeyboardAction::SetEffect(1), Some(20)));
}

#[test]
fn mode_update_actions_in_order() {
    let data = mode_data(4, 3, 1);
    assert_eq!(
        mode_update_finish(Request::SaveMode, &data, 4, 3),
        vec![
            KeyboardAction::SetSpeed(5),
            KeyboardAction::SetBrightness(10),
            KeyboardAction::SetColor(Color { red: 10, green: 20, blue: 30 }),
            KeyboardAction::PersistState,
        ]
    );
    let data = mode_data(4, 2, 0);
    assert_eq!(mode_update_finish(Request::UpdateMode, &data, 4, 2), vec![KeyboardAction::SetSpeed(5)]);
}
