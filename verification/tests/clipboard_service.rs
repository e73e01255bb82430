use rustdesk::server::clipboard_service::{
    clipboard_texts, get_clipboard_msg, ClipboardItem, decode_utf8_prefix, WAYLAND_CLIPBOARD_SKIP_CHECK_MAX_UTF8_BYTES,
};

#[test]
fn decode_utf8_prefix_returns_text_for_valid_utf8() {
    let text = "hello-مرحبا";
    assert_eq!(decode_utf8_prefix(text.as_bytes()), Some(text.to_owned()));
}

#[test]
fn decode_utf8_prefix_returns_none_for_invalid_utf8_sequence() {
    let bytes = b"ab\xffcd";
    assert_eq!(decode_utf8_prefix(bytes), None);
}

#[test]
fn decode_utf8_prefix_trims_incomplete_utf8_suffix() {
    let bytes = vec![b'a', 0xE4, 0xB8];
    assert_eq!(decode_utf8_prefix(&bytes), Some("a".to_owned()));
}

#[test]
fn decode_utf8_prefix_applies_max_bytes_limit() {
    let bytes = vec![b'a'; WAYLAND_CLIPBOARD_SKIP_CHECK_MAX_UTF8_BYTES + 8];
    let result = decode_utf8_prefix(&bytes).expect("expected decoded prefix");
    assert_eq!(result.len(), WAYLAND_CLIPBOARD_SKIP_CHECK_MAX_UTF8_BYTES);
}

#[test]
fn decode_utf8_prefix_keeps_utf8_boundary_when_limited() {
    let mut bytes = vec![b'a'; WAYLAND_CLIPBOARD_SKIP_CHECK_MAX_UTF8_BYTES - 1];
    bytes.extend_from_slice("ا".as_bytes());
    let result = decode_utf8_prefix(&bytes).expect("expected decoded prefix");
    assert_eq!(
        result.len(),
        WAYLAND_CLIPBOARD_SKIP_CHECK_MAX_UTF8_BYTES - 1
    );
    assert!(result.chars().all(|c| c == 'a'));
}

#[test]
fn decode_utf8_prefix_rejects_overlong_and_surrogate_encodings() {
    assert_eq!(decode_utf8_prefix(&[0xC0, 0x80]), None);
    assert_eq!(decode_utf8_prefix(&[0xE0, 0x80, 0x80]), None);
    assert_eq!(decode_utf8_prefix(&[b'x', 0xED, 0xA0, 0x80]), None);
    assert_eq!(decode_utf8_prefix(&[0xF4, 0x90, 0x80, 0x80]), None);
    assert_eq!(decode_utf8_prefix(&[0xF5, 0x80, 0x80, 0x80]), None);
}

#[test]
fn decode_utf8_prefix_truncated_four_byte_character() {
    // U+1F600 is F0 9F 98 80; every strict prefix of it is a cut-off character.
    assert_eq!(decode_utf8_prefix(&[b'o', b'k', 0xF0, 0x9F, 0x98]), Some("ok".to_owned()));
    assert_eq!(decode_utf8_prefix(&[0xF0]), Some(String::new()));
    // A truncated start whose second byte is out of range is invalid, not cut off.
    assert_eq!(decode_utf8_prefix(&[b'o', 0xF0, 0x80]), None);
    assert_eq!(decode_utf8_prefix(&[]), Some(String::new()));
}

#[test]
fn decode_utf8_prefix_limit_cuts_multibyte_character() {
    let mut bytes = vec![b'b'; WAYLAND_CLIPBOARD_SKIP_CHECK_MAX_UTF8_BYTES - 2];
    bytes.extend_from_slice("€".as_bytes());
    let result = decode_utf8_prefix(&bytes).expect("expected decoded prefix");
    assert_eq!(result.len(), WAYLAND_CLIPBOARD_SKIP_CHECK_MAX_UTF8_BYTES - 2);
    // Invalid bytes beyond the limit are not inspected.
    let mut bytes = vec![b'c'; WAYLAND_CLIPBOARD_SKIP_CHECK_MAX_UTF8_BYTES];
    bytes.push(0xFF);
    assert_eq!(
        decode_utf8_prefix(&bytes).map(|s| s.len()),
        Some(WAYLAND_CLIPBOARD_SKIP_CHECK_MAX_UTF8_BYTES)
    );
}

#[test]
fn skipped_clipboard_message_is_not_sent() {
    assert_eq!(get_clipboard_msg(Some(7), false, &[false, true]), None);
    assert_eq!(get_clipboard_msg(Some(7), true, &[false, true]), Some(7));
    assert_eq!(get_clipboard_msg(Some(7), false, &[false, false]), Some(7));
    assert_eq!(get_clipboard_msg::<i32>(None, false, &[]), None);
    let items = vec![
        ClipboardItem { is_text: true, compress: false, content: b"hi".to_vec() },
        ClipboardItem { is_text: true, compress: true, content: vec![1, 2] },
        ClipboardItem { is_text: false, compress: false, content: b"img".to_vec() },
    ];
    let inflated = vec![Vec::new(), b"zip".to_vec(), Vec::new()];
    assert_eq!(
        clipboard_texts(&items, &inflated),
        vec![Some("hi".to_string()), Some("zip".to_string()), None]
    );
}
