use makcu_rs::batch::{AsyncBatch, Batch};
use makcu_rs::buttons::{MouseButton, MouseButtonStates};
use makcu_rs::commands::{
    button_command, buttons_report_command, frame_tracked, frame_untracked, lock_command, move_command,
    serial_command, wheel_command, LockTarget,
};
use makcu_rs::decimal::{parse_u32, push_decimal_i32, push_decimal_u32};
use makcu_rs::error::{ensure_connected, ensure_port_open, MakcuError};
use makcu_rs::mock::mock_reply;
use makcu_rs::scan::{position_of, position_of_either};

fn text(v: &[u8]) -> String {
    String::from_utf8(v.to_vec()).unwrap()
}

#[test]
fn mask_decodes_each_button() {
    let s = MouseButtonStates::from_mask(0x01);
    assert!(s.left && !s.right && !s.middle && !s.side1 && !s.side2);
    let s = MouseButtonStates::from_mask(0x1e);
    assert!(!s.left && s.right && s.middle && s.side1 && s.side2);
    let s = MouseButtonStates::from_mask(0xe0);
    assert_eq!(s, MouseButtonStates::default());
}

#[test]
fn mask_roundtrip_on_concrete_values() {
    for m in 0u8..=255 {
        assert_eq!(MouseButtonStates::from_mask(m).to_mask(), m & 0x1f);
    }
    let s = MouseButtonStates { left: true, right: false, middle: true, side1: false, side2: true };
    assert_eq!(s.to_mask(), 0b10101);
    assert_eq!(MouseButtonStates::from_mask(s.to_mask()), s);
}

#[test]
fn decimal_text_of_integers() {
    let mut v = Vec::new();
    push_decimal_i32(&mut v, i32::MIN);
    assert_eq!(text(&v), "-2147483648");
    let mut v = Vec::new();
    push_decimal_i32(&mut v, 0);
    assert_eq!(text(&v), "0");
    let mut v = b"x".to_vec();
    push_decimal_u32(&mut v, u32::MAX);
    assert_eq!(text(&v), "x4294967295");
}

#[test]
fn parse_u32_accepts_what_std_accepts() {
    for s in ["0", "7", "+7", "00012", "4294967295", "", "+", "-1", "4294967296", "12a", " 1", "99999999999"] {
        assert_eq!(parse_u32(s.as_bytes()), s.parse::<u32>().ok(), "{s:?}");
    }
}

#[test]
fn command_texts() {
    assert_eq!(text(&move_command(100, -50)), "km.move(100,-50)");
    assert_eq!(text(&wheel_command(-120)), "km.wheel(-120)");
    assert_eq!(text(&button_command(MouseButton::Left, true)), "km.left(1)");
    assert_eq!(text(&button_command(MouseButton::Side2, false)), "km.ms2(0)");
    assert_eq!(text(&buttons_report_command()), "km.buttons(1)");
    assert_eq!(text(&lock_command(LockTarget::MouseX, true)), "km.lock_mx(1)");
    assert_eq!(text(&lock_command(LockTarget::Side1, false)), "km.lock_ms1(0)");
}

#[test]
fn serial_command_escapes_quotes() {
    assert_eq!(text(&serial_command("")), "km.serial(0)");
    assert_eq!(text(&serial_command("ABC123")), "km.serial('ABC123')");
    assert_eq!(text(&serial_command("it's")), "km.serial('it\\'s')");
    assert_eq!(text(&serial_command("ü'")), "km.serial('ü\\'')");
}

#[test]
fn framing() {
    assert_eq!(text(&frame_untracked(b"km.left(1)")), "km.left(1)\r\n");
    assert_eq!(text(&frame_tracked(b"km.serial(0)", 42)), "km.serial(0)#42\r\n");
    assert_eq!(text(&frame_tracked(b"", 0)), "#0\r\n");
}

#[test]
fn batch_as_in_the_demo() {
    let b = Batch::new()
        .move_rel(100, 50)
        .click(MouseButton::Left)
        .wheel(-120)
        .press(MouseButton::Right)
        .release(MouseButton::Right);
    assert_eq!(
        text(b.as_bytes()),
        "km.move(100,50)\r\nkm.left()\r\nkm.wheel(-120)\r\nkm.right(1)\r\nkm.right(0)\r\n\r\n"
    );
}

#[test]
fn async_batch_release_has_one_line_end() {
    let b = AsyncBatch::new().press(MouseButton::Middle).move_rel(1, 2).release(MouseButton::Middle).click(MouseButton::Side1).wheel(3);
    assert_eq!(
        text(b.as_bytes()),
        "km.middle(1)\r\nkm.move(1,2)\r\nkm.middle(0)\r\nkm.ms1()\r\nkm.wheel(3)\r\n"
    );
}

#[test]
fn connection_errors() {
    assert!(ensure_connected(true, true).is_ok());
    match ensure_connected(true, false) {
        Err(MakcuError::Connection(m)) => assert_eq!(m, "Not connected"),
        other => panic!("{other:?}"),
    }
    match ensure_connected(false, true) {
        Err(MakcuError::Connection(m)) => assert_eq!(m, "Not connected"),
        other => panic!("{other:?}"),
    }
    assert!(ensure_port_open(true).is_ok());
    match ensure_port_open(false) {
        Err(MakcuError::Connection(m)) => assert_eq!(m, "Port not open"),
        other => panic!("{other:?}"),
    }
}

#[test]
fn delimiter_search() {
    assert_eq!(position_of(b"the quick brown fox", b'k'), Some(8));
    assert_eq!(position_of(b"abc", b'z'), None);
    assert_eq!(position_of_either(b"the quick brown fox", b'k', b'q'), Some(4));
    assert_eq!(position_of_either(b"12\r:", b':', b'\r'), Some(2));
    assert_eq!(position_of_either(b"", b':', b'\r'), None);
}

#[test]
fn simulated_device_reply() {
    assert_eq!(mock_reply(b"km.serial(0)#17\r\n").unwrap(), b">>> OK#17:OK\r\n".to_vec());
    assert_eq!(mock_reply(b"a#b#9 ").unwrap(), b">>> OK#9:OK\r\n".to_vec());
    assert_eq!(mock_reply(b"km.left(1)\r\n"), None);
}

/// The reply computed as the simulated port of the original computes it.
fn reference_reply(buf: &[u8]) -> Option<Vec<u8>> {
    let txt = String::from_utf8_lossy(buf);
    txt.rfind('#').map(|idx| {
        let sid = txt[idx + 1..].trim_end();
        format!(">>> OK#{sid}:OK\r\n").into_bytes()
    })
}

#[test]
fn simulated_device_reply_on_unicode_and_invalid_bytes() {
    let cases: Vec<Vec<u8>> = vec![
        "km.x#12\u{a0}\u{3000} \r\n".as_bytes().to_vec(),
        "#ü\u{2029}".as_bytes().to_vec(),
        b"#\xff1\xc3".to_vec(),
        b"\xe2\x82#7\r\n".to_vec(),
        b"no hash \xff".to_vec(),
        b"#".to_vec(),
        b"".to_vec(),
    ];
    for c in cases {
        assert_eq!(mock_reply(&c), reference_reply(&c), "{c:?}");
    }
    assert_eq!(mock_reply(b"#\xff1").unwrap(), ">>> OK#\u{fffd}1:OK\r\n".as_bytes().to_vec());
}
