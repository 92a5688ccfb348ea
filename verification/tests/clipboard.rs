//! The server's clipboard, OSC 52 and bracketed paste.

use z3rm::clipboard::{
    wrap_bracketed_paste, ClipboardChanged, ClipboardContentType, ClipboardEntry, ClipboardError,
    Osc52Parser, ServerClipboard, WireClipboardEntry,
};

#[test]
fn test_osc52_bell_terminated() {
    let mut parser = Osc52Parser::new();
    let bytes: Vec<u8> = vec![
        0x1B, 0x5D, b'5', b'2', b';', b'c', b';', b'S', b'G', b'V', b's', b'b', b'G', b'8', b'=',
        0x07,
    ];
    let result = parser.feed(&bytes);
    assert!(result.is_some());
    let base64 = result.unwrap();
    assert_eq!(base64, "SGVsbG8=");
}

#[test]
fn test_osc52_st_terminated() {
    let mut parser = Osc52Parser::new();
    let bytes: Vec<u8> = vec![
        0x1B, 0x5D, b'5', b'2', b';', b'c', b';', b'd', b'G', b'V', b'z', b'd', b'A', b'=', b'=',
        0x1B, b'\\',
    ];
    let result = parser.feed(&bytes);
    assert!(result.is_some());
    assert_eq!(result.unwrap(), "dGVzdA==");
}

#[test]
fn test_non_osc52_ignored() {
    let mut parser = Osc52Parser::new();
    let bytes: Vec<u8> = vec![0x1B, 0x5D, b'1', b'2', b';', 0x07];
    let result = parser.feed(&bytes);
    assert!(result.is_none());
}

#[test]
fn test_osc52_streaming() {
    let mut parser = Osc52Parser::new();
    let chunk1: Vec<u8> = vec![0x1B, 0x5D, b'5', b'2'];
    let chunk2: Vec<u8> = vec![b';', b'c', b';', b'T', b'E'];
    let chunk3: Vec<u8> = vec![b'N', b'L', b'g', 0x07];

    assert!(parser.feed(&chunk1).is_none());
    assert!(parser.feed(&chunk2).is_none());
    let result = parser.feed(&chunk3);
    assert!(result.is_some());
    assert_eq!(result.unwrap(), "TENLg");
}

#[test]
fn test_bracketed_paste_wrapping() {
    let text = "hello world";
    let wrapped = wrap_bracketed_paste(text, true);
    let expected = format!("\x1b[200~{}\x1b[201~", text);
    assert_eq!(wrapped, expected);
}

#[test]
fn test_bracketed_paste_no_wrapping() {
    let text = "hello world";
    let wrapped = wrap_bracketed_paste(text, false);
    assert_eq!(wrapped, text);
}

#[test]
fn test_server_clipboard_set_get() {
    let mut clipboard = ServerClipboard::new();

    assert!(clipboard.get_clipboard().is_none());

    clipboard.set_clipboard(ClipboardEntry::text("hello", "test-host".to_string()));

    let entry = clipboard.get_clipboard();
    assert!(entry.is_some());
    let entry = entry.unwrap();
    assert_eq!(entry.content_type, ClipboardContentType::Text);
    assert_eq!(entry.data, b"hello");
    assert_eq!(entry.origin_host, "test-host");
}

#[test]
fn test_multi_client_no_pollution() {
    let mut clipboard = ServerClipboard::new();

    let notification =
        clipboard.set_clipboard(ClipboardEntry::text("first", "host1".to_string()));
    assert_eq!(notification, ClipboardChanged);

    let notification =
        clipboard.set_clipboard(ClipboardEntry::text("second", "host2".to_string()));
    assert_eq!(notification, ClipboardChanged);

    let entry = clipboard.get_clipboard().unwrap();
    assert_eq!(entry.origin_host, "host2");
    assert_eq!(entry.data, b"second");
}

#[test]
fn test_content_type_roundtrip() {
    for (val, expected) in [
        (1, ClipboardContentType::Text),
        (2, ClipboardContentType::ImagePng),
        (3, ClipboardContentType::FilePath),
        (0, ClipboardContentType::Text),
        (99, ClipboardContentType::Text),
    ] {
        let ct = ClipboardContentType::from_proto_value(val);
        assert_eq!(ct, expected);
        assert_eq!(
            ct.to_proto_value(),
            match expected {
                ClipboardContentType::Text => 1,
                ClipboardContentType::ImagePng => 2,
                ClipboardContentType::FilePath => 3,
            }
        );
    }
}

#[test]
fn an_osc52_payload_is_decoded_and_stored() {
    let mut clipboard = ServerClipboard::default();
    assert_eq!(clipboard.set_from_osc52("SGVsbG8=", "h".to_string()), Ok(ClipboardChanged));
    let entry = clipboard.get_clipboard().unwrap();
    assert_eq!(entry.data, b"Hello");
    assert_eq!(entry.content_type, ClipboardContentType::Text);
    assert_eq!(entry.origin_host, "h");
}

#[test]
fn a_payload_that_does_not_decode_leaves_the_clipboard() {
    let mut clipboard = ServerClipboard::new();
    clipboard.set_clipboard(ClipboardEntry::text("kept", "h".to_string()));
    assert_eq!(
        clipboard.set_from_osc52("not base64!", "x".to_string()),
        Err(ClipboardError::InvalidBase64)
    );
    assert_eq!(clipboard.get_clipboard().unwrap().data, b"kept");
    assert_eq!(clipboard.set_decoded(None, "x".to_string()), Err(ClipboardError::InvalidBase64));
    assert_eq!(clipboard.set_decoded(Some(vec![7]), "x".to_string()), Ok(ClipboardChanged));
    assert_eq!(clipboard.get_clipboard().unwrap().data, vec![7]);
}

#[test]
fn an_entry_survives_the_wire() {
    let sent = ClipboardEntry::text("hi", "o".to_string()).to_proto();
    assert_eq!(sent.content_type, 1);
    let received = ClipboardEntry::from_proto(&sent);
    assert_eq!(received.data, b"hi");
    assert_eq!(received.origin_host, "o");
    let image = ClipboardEntry::from_proto(&WireClipboardEntry {
        content_type: 2,
        data: vec![1],
        origin_host: String::new(),
    });
    assert_eq!(image.content_type, ClipboardContentType::ImagePng);
}

#[test]
fn chunks_of_a_sequence_join() {
    let bytes: &[u8] = b"\x1b]52;c;SGVsbG8=\x07";
    let mut whole = Osc52Parser::new();
    let found = whole.feed(bytes);
    for cut in 1..bytes.len() {
        let mut parser = Osc52Parser::new();
        assert_eq!(parser.feed(&bytes[..cut]), None);
        assert_eq!(parser.feed(&bytes[cut..]), found);
    }
}
