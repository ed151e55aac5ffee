use safe_remove::codec::{decode_key, encode_file_path, CodecError};

#[test]
fn encodes_canonical_path_as_url_safe_base64() {
    assert_eq!(encode_file_path(Some("/tmp/report.txt")), Ok("L3RtcC9yZXBvcnQudHh0".to_string()));
    assert_eq!(encode_file_path(Some("/a?>")), Ok("L2E_Pg==".to_string()));
}

#[test]
fn unresolved_path_is_an_error() {
    assert_eq!(encode_file_path(None), Err(CodecError::UnresolvedPath));
}

#[test]
fn decode_reverses_encode() {
    for p in ["/home/user/report.txt", "/a?>", "/", "/tmp/caf\u{e9}"] {
        let key = encode_file_path(Some(p)).unwrap();
        assert!(!key.contains('/'));
        assert_eq!(decode_key(&key), Ok(p.to_string()));
    }
}

#[test]
fn malformed_keys_are_rejected() {
    assert_eq!(decode_key("!!!"), Err(CodecError::Malformed));
    assert_eq!(decode_key("L2E/Pg=="), Err(CodecError::Malformed));
    assert_eq!(decode_key("L2E_Pg"), Err(CodecError::Malformed));
    // the key of the byte 0xff, which is no UTF-8 text
    assert_eq!(decode_key("_w=="), Err(CodecError::Malformed));
}
