use color_hoster::consts::{is_compatible, Request};
use color_hoster::utils::{
    encode_response, is_disconnect_cause, level_marker, BufferExt, Color, ErrorCause, ErrorExt,
    LogLevel,
};

#[test]
fn extend_from_str_writes_length_and_nul() {
    let mut buf = vec![9u8];
    buf.extend_from_str("abc");
    assert_eq!(buf, vec![9, 4, 0, b'a', b'b', b'c', 0]);
    let mut buf = Vec::new();
    buf.extend_from_str("é");
    assert_eq!(buf, vec![3, 0, 0xC3, 0xA9, 0]);
    let mut buf = Vec::new();
    buf.extend_from_str("");
    assert_eq!(buf, vec![1, 0, 0]);
}

#[test]
fn extend_from_color_pads() {
    let mut buf = Vec::new();
    buf.extend_from_color(&Color { red: 1, green: 2, blue: 3 });
    assert_eq!(buf, vec![1, 2, 3, 0]);
}

#[test]
fn u32s_read_back() {
    let mut buf = vec![7u8, 7];
    buf.extend_from_u32s(&[1, 0xDEADBEEF, 0xFFFFFFFF]);
    assert_eq!(buf.len(), 14);
    assert_eq!(buf.read_u32_le(2), 1);
    assert_eq!(buf.read_u32_le(6), 0xDEADBEEF);
    assert_eq!(buf.read_u32_le(10), 0xFFFFFFFF);
    assert_eq!(buf.read_u16_le(6), 0xBEEF);
    assert_eq!(buf.read_rgb(6), Color { red: 0xEF, green: 0xBE, blue: 0xAD });
}

#[test]
fn string_length_reads_back() {
    let mut buf = Vec::new();
    buf.extend_from_str("hello");
    assert_eq!(buf.read_u16_le(0), 6);
}

#[test]
fn response_frame_layout() {
    let frame = encode_response(2, 1101, &[5, 6]);
    assert_eq!(frame, vec![b'O', b'R', b'G', b'B', 2, 0, 0, 0, 0x4D, 0x04, 0, 0, 2, 0, 0, 0, 5, 6]);
    assert_eq!(frame.read_u32_le(4), 2);
    assert_eq!(frame.read_u32_le(8), 1101);
    assert_eq!(frame.read_u32_le(12), 2);
    assert_eq!(encode_response(0, 0, &[]).len(), 16);
}

#[test]
fn disconnects_are_eof_and_reset() {
    let eof = anyhow::Error::from(std::io::Error::from(std::io::ErrorKind::UnexpectedEof));
    let reset = anyhow::Error::from(std::io::Error::from(std::io::ErrorKind::ConnectionReset));
    let other = anyhow::Error::from(std::io::Error::from(std::io::ErrorKind::NotFound));
    let plain = anyhow::Error::msg("Unknown device!");
    assert!(eof.is_disconnect());
    assert!(reset.is_disconnect());
    assert!(!other.is_disconnect());
    assert!(!plain.is_disconnect());
    assert!(is_disconnect_cause(ErrorCause::UnexpectedEof));
    assert!(!is_disconnect_cause(ErrorCause::NotIo));
}

#[test]
fn level_markers() {
    assert_eq!(level_marker(LogLevel::Error), "!");
    assert_eq!(level_marker(LogLevel::Warn), "?");
    assert_eq!(level_marker(LogLevel::Info), "+");
    assert_eq!(level_marker(LogLevel::Debug), "|");
    assert_eq!(level_marker(LogLevel::Trace), "->");
}

#[test]
fn request_ids_round_trip() {
    let all = [
        Request::GetControllerCount,
        Request::GetControllerData,
        Request::GetProtocolVersion,
        Request::SetClientName,
        Request::GetProfileList,
        Request::SaveProfile,
        Request::LoadProfile,
        Request::DeleteProfile,
        Request::ResizeZone,
        Request::UpdateLeds,
        Request::UpdateZoneLeds,
        Request::UpdateSingleLed,
        Request::SetCustomMode,
        Request::UpdateMode,
        Request::SaveMode,
    ];
    for r in all {
        assert_eq!(Request::from_id(r.id()), Some(r));
    }
    assert_eq!(Request::from_id(1050), Some(Request::UpdateLeds));
    assert_eq!(Request::from_id(2), None);
    assert_eq!(Request::from_id(100), None);
}

#[test]
fn compatible_interfaces() {
    assert!(is_compatible(0x61, 0xFF60));
    assert!(!is_compatible(0x06, 0x01));
    assert!(!is_compatible(0x61, 0x01));
}
