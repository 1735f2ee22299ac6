use bottom::text::{c_buffer_text, residency_state_name};

#[test]
fn buffer_text_stops_at_nul() {
    assert_eq!(c_buffer_text(true, b"pmgr\0garbage"), "pmgr");
    assert_eq!(c_buffer_text(true, b"\0pmgr"), "");
}

#[test]
fn buffer_text_without_nul_takes_all() {
    assert_eq!(c_buffer_text(true, b"GPUPH"), "GPUPH");
}

#[test]
fn failed_copy_is_empty() {
    assert_eq!(c_buffer_text(false, b"pmgr\0"), "");
}

#[test]
fn invalid_utf8_is_replaced() {
    assert_eq!(c_buffer_text(true, &[b'a', 0xff, b'b', 0]), "a\u{FFFD}b");
}

#[test]
fn unnamed_state_is_numbered() {
    assert_eq!(residency_state_name(0, None), "S0");
    assert_eq!(residency_state_name(12, None), "S12");
    assert_eq!(residency_state_name(2147483647, None), "S2147483647");
}

#[test]
fn named_state_keeps_its_name() {
    assert_eq!(residency_state_name(3, Some("P3".to_string())), "P3");
}

#[test]
fn c_buffer_round_trip_of_utf8_text() {
    let text = "GPU Stats – état ✓ 😀";
    let mut buf = vec![0u8; 128];
    buf[..text.len()].copy_from_slice(text.as_bytes());
    buf[text.len() + 1] = b'x';
    assert_eq!(c_buffer_text(true, &buf), text);
}
