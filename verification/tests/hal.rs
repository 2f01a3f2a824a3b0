use nastalli::arch::keyboard::ScancodeLatch;
use nastalli::hal::keyboard::{decode_scancode, take_key, Key};
use nastalli::hal::serial::Serial;

#[test]
fn decodes_pressed_a() {
    assert_eq!(decode_scancode(0x1e), Some(Key::A));
}

#[test]
fn ignores_key_release_scancodes() {
    assert_eq!(decode_scancode(0x9e), None);
}

#[test]
fn decodes_every_supported_key_and_ignores_others() {
    assert_eq!(decode_scancode(0x30), Some(Key::B));
    assert_eq!(decode_scancode(0x2e), Some(Key::C));
    assert_eq!(decode_scancode(0x20), Some(Key::D));
    assert_eq!(decode_scancode(0x12), Some(Key::E));
    assert_eq!(decode_scancode(0x1c), Some(Key::Enter));
    assert_eq!(decode_scancode(0x39), Some(Key::Space));
    assert_eq!(decode_scancode(0x0e), Some(Key::Backspace));
    assert_eq!(decode_scancode(0x01), None);
    assert_eq!(decode_scancode(0x00), None);
    assert_eq!(decode_scancode(0xb9), None);
    assert_eq!(decode_scancode(0xff), None);
}

#[test]
fn take_key_decodes_the_pending_scancode_once() {
    let mut latch = ScancodeLatch::new();
    latch.store(0x39);
    assert_eq!(take_key(&mut latch), Some(Key::Space));
    assert_eq!(take_key(&mut latch), None);
    latch.store(0xb9);
    assert_eq!(take_key(&mut latch), None);
}

#[test]
fn serial_expands_line_feeds() {
    let serial = Serial;
    assert_eq!(serial.encode(b"ab\nc\n"), b"ab\r\nc\r\n".to_vec());
    assert_eq!(serial.encode(b""), Vec::<u8>::new());
    assert_eq!(serial.encode(b"\r"), b"\r".to_vec());
}
