use tty_web::bridge::{hello_frames, BridgeEvent, ClientBridge};
use tty_web::codec::{encode_frame, parse_client_frame, ClientCommand};
use tty_web::sid::{format_session_id, parse_session_id, SESSION_ID_LEN};

#[test]
fn encode_frame_prefixes_command_byte() {
    let frame = encode_frame(0x10, b"abc");
    assert_eq!(frame, vec![0x10, b'a', b'b', b'c']);
    let empty = encode_frame(0x12, b"");
    assert_eq!(empty, vec![0x12]);
}

#[test]
fn parse_empty_frame_is_ignored() {
    match parse_client_frame(&[]) {
        ClientCommand::Empty => {}
        _ => panic!("empty frame must parse as Empty"),
    }
}

#[test]
fn parse_input_frame_keeps_payload() {
    let data = [0x00, b'e', b'c', b'h', b'o', b'\n'];
    match parse_client_frame(&data) {
        ClientCommand::Input { payload } => assert_eq!(payload, b"echo\n".to_vec()),
        _ => panic!("input frame must parse as Input"),
    }
}

#[test]
fn parse_input_frame_empty_payload() {
    match parse_client_frame(&[0x00]) {
        ClientCommand::Input { payload } => assert_eq!(payload, Vec::<u8>::new()),
        _ => panic!("bare input command must parse as Input"),
    }
}

#[test]
fn parse_resize_frame_big_endian() {
    // rows=24, cols=80
    let data = [0x01, 0x00, 0x18, 0x00, 0x50];
    match parse_client_frame(&data) {
        ClientCommand::Resize { rows, cols } => {
            assert_eq!(rows, 24);
            assert_eq!(cols, 80);
        }
        _ => panic!("resize frame must parse as Resize"),
    }
}

#[test]
fn parse_resize_frame_large_values() {
    let data = [0x01, 0xff, 0xff, 0x01, 0x00, 0xee];
    match parse_client_frame(&data) {
        ClientCommand::Resize { rows, cols } => {
            assert_eq!(rows, 65535);
            assert_eq!(cols, 256);
        }
        _ => panic!("resize frame must parse as Resize"),
    }
}

#[test]
fn parse_short_resize_is_ignored() {
    match parse_client_frame(&[0x01, 0x00, 0x18]) {
        ClientCommand::ShortResize => {}
        _ => panic!("short resize must be ignored"),
    }
}

#[test]
fn parse_unknown_command_is_reported() {
    match parse_client_frame(&[0x7f, 1, 2]) {
        ClientCommand::Unknown { cmd } => assert_eq!(cmd, 0x7f),
        _ => panic!("unknown command must parse as Unknown"),
    }
}

#[test]
fn session_id_renders_dashed_hex() {
    let id: u128 = 0x0123456789abcdef0123456789abcdef;
    let text = format_session_id(id);
    assert_eq!(text.len(), SESSION_ID_LEN);
    assert_eq!(text, b"01234567-89ab-cdef-0123-456789abcdef".to_vec());
}

#[test]
fn session_id_round_trips() {
    for id in [0u128, 1, u128::MAX, 0xdeadbeef_cafe_4321_8000_000000000001u128] {
        let text = format_session_id(id);
        assert_eq!(text.len(), 36);
        assert_eq!(text[8], b'-');
        assert_eq!(text[13], b'-');
        assert_eq!(text[18], b'-');
        assert_eq!(text[23], b'-');
        assert_eq!(parse_session_id(&text), Some(id));
    }
}

#[test]
fn session_id_parse_rejects_bad_forms() {
    assert_eq!(parse_session_id(b""), None);
    assert_eq!(parse_session_id(b"0123456789abcdef0123456789abcdef"), None);
    // uppercase digits are not canonical
    assert_eq!(parse_session_id(b"01234567-89AB-cdef-0123-456789abcdef"), None);
    // a dash out of place
    assert_eq!(parse_session_id(b"0123456-789ab-cdef-0123-456789abcdef"), None);
    // a non-hex byte
    assert_eq!(parse_session_id(b"0123456g-89ab-cdef-0123-456789abcdef"), None);
}

#[test]
fn hello_frames_without_scrollback() {
    let sid = b"01234567-89ab-cdef-0123-456789abcdef";
    let frames = hello_frames(sid, b"");
    assert_eq!(frames.len(), 1);
    assert_eq!(frames[0][0], 0x10);
    assert_eq!(&frames[0][1..], &sid[..]);
}

#[test]
fn hello_frames_with_scrollback() {
    let sid = b"01234567-89ab-cdef-0123-456789abcdef";
    let frames = hello_frames(sid, b"hello\r\n");
    assert_eq!(frames.len(), 2);
    assert_eq!(frames[0][0], 0x10);
    assert_eq!(frames[1], {
        let mut f = vec![0x11u8];
        f.extend_from_slice(b"hello\r\n");
        f
    });
}

#[test]
fn bridge_output_becomes_one_frame() {
    let mut bridge = ClientBridge::new();
    let a = bridge.step(BridgeEvent::Output { data: b"hello\r\n".to_vec() });
    assert_eq!(a.frames.len(), 1);
    assert_eq!(a.frames[0], {
        let mut f = vec![0x00u8];
        f.extend_from_slice(b"hello\r\n");
        f
    });
    assert!(!a.stop);
    assert_eq!(a.input, None);
}

#[test]
fn bridge_lag_continues_without_frames() {
    let mut bridge = ClientBridge::new();
    let a = bridge.step(BridgeEvent::Lagged { count: 17 });
    assert!(a.frames.is_empty());
    assert!(!a.stop);
}

#[test]
fn bridge_routes_client_input() {
    let mut bridge = ClientBridge::new();
    let a = bridge.step(BridgeEvent::ClientFrame { data: vec![0x00, b'l', b's', b'\n'] });
    assert_eq!(a.input, Some(b"ls\n".to_vec()));
    assert_eq!(a.resize, None);
    assert_eq!(a.unknown, None);
    assert!(a.frames.is_empty());
    assert!(!a.stop);
}

#[test]
fn bridge_routes_client_resize() {
    let mut bridge = ClientBridge::new();
    let a = bridge.step(BridgeEvent::ClientFrame { data: vec![0x01, 0x00, 0x18, 0x00, 0x50] });
    assert_eq!(a.resize, Some((24, 80)));
    assert_eq!(a.input, None);
    assert!(!a.stop);
}

#[test]
fn bridge_reports_unknown_command() {
    let mut bridge = ClientBridge::new();
    let a = bridge.step(BridgeEvent::ClientFrame { data: vec![0x42, 9] });
    assert_eq!(a.unknown, Some(0x42));
    assert_eq!(a.input, None);
    assert!(!a.stop);
}

#[test]
fn bridge_shell_exit_is_terminal() {
    let mut bridge = ClientBridge::new();
    let a = bridge.step(BridgeEvent::ShellClosed {
        drained: vec![b"late".to_vec(), b"bytes".to_vec()],
    });
    assert_eq!(a.frames.len(), 3);
    assert_eq!(a.frames[0], {
        let mut f = vec![0x00u8];
        f.extend_from_slice(b"late");
        f
    });
    assert_eq!(a.frames[1], {
        let mut f = vec![0x00u8];
        f.extend_from_slice(b"bytes");
        f
    });
    assert_eq!(a.frames[2], vec![0x12u8]);
    assert!(a.stop);
    // Nothing at all after the exit frame, whatever arrives.
    let b = bridge.step(BridgeEvent::Output { data: b"more".to_vec() });
    assert!(b.frames.is_empty());
    assert!(b.stop);
    let c = bridge.step(BridgeEvent::ShellClosed { drained: vec![b"x".to_vec()] });
    assert!(c.frames.is_empty());
    assert!(c.stop);
}

#[test]
fn bridge_client_gone_stops_without_frames() {
    let mut bridge = ClientBridge::new();
    let a = bridge.step(BridgeEvent::ClientGone);
    assert!(a.frames.is_empty());
    assert!(a.stop);
    let b = bridge.step(BridgeEvent::Output { data: b"x".to_vec() });
    assert!(b.frames.is_empty());
    assert!(b.stop);
}

#[test]
fn bridge_preserves_byte_order() {
    // A client that never lags sees the chunks, in order, as frame payloads.
    let chunks: Vec<&[u8]> = vec![b"a", b"bc", b"", b"def"];
    let mut bridge = ClientBridge::new();
    let mut received: Vec<u8> = Vec::new();
    for c in &chunks {
        let a = bridge.step(BridgeEvent::Output { data: c.to_vec() });
        for f in &a.frames {
            assert_eq!(f[0], 0x00);
            received.extend_from_slice(&f[1..]);
        }
    }
    assert_eq!(received, b"abcdef".to_vec());
}

#[test]
fn two_bridges_see_the_same_frames_in_order() {
    // Two clients attached to one session observe the same broadcast; each
    // bridge renders the same chunks as the same output frames, in order.
    let chunks: Vec<&[u8]> = vec![b"stty size\n", b"24 80\r\n"];
    let mut bridge_a = ClientBridge::new();
    let mut bridge_b = ClientBridge::new();
    let mut frames_a: Vec<Vec<u8>> = Vec::new();
    let mut frames_b: Vec<Vec<u8>> = Vec::new();
    for c in &chunks {
        frames_a.extend(bridge_a.step(BridgeEvent::Output { data: c.to_vec() }).frames);
        frames_b.extend(bridge_b.step(BridgeEvent::Output { data: c.to_vec() }).frames);
    }
    assert_eq!(frames_a, frames_b);
    // Closing one bridge does not affect the other.
    let stop_a = bridge_a.step(BridgeEvent::ClientGone);
    assert!(stop_a.stop);
    let still_b = bridge_b.step(BridgeEvent::Output { data: b"more".to_vec() });
    assert_eq!(still_b.frames.len(), 1);
    assert!(!still_b.stop);
}
