use scaffold::codec::decode;
use scaffold::model::{DecodeError, PathKind};

#[test]
fn decode_two_phase_records() {
    let (paths, contents) = decode("dir|src;file|src/main.txt", "src/main.txt|SGVsbG8=").unwrap();
    assert_eq!(paths.len(), 2);
    assert_eq!(paths[0].kind, PathKind::Dir);
    assert_eq!(paths[0].path, b"src".to_vec());
    assert_eq!(paths[1].kind, PathKind::File);
    assert_eq!(paths[1].path, b"src/main.txt".to_vec());
    assert_eq!(contents.len(), 1);
    assert_eq!(contents[0].file_path, b"src/main.txt".to_vec());
    assert_eq!(contents[0].payload, b"Hello".to_vec());
}

#[test]
fn decode_empty_strings_are_empty_sequences() {
    let (paths, contents) = decode("", "").unwrap();
    assert!(paths.is_empty());
    assert!(contents.is_empty());
}

#[test]
fn decode_rejects_unrecognized_kind() {
    let r = decode("blob|src", "");
    assert_eq!(r.unwrap_err(), DecodeError::MalformedPath);
}

#[test]
fn decode_rejects_wrong_path_field_count() {
    assert_eq!(decode("dir|a|b", "").unwrap_err(), DecodeError::MalformedPath);
    assert_eq!(decode("dir", "").unwrap_err(), DecodeError::MalformedPath);
}

#[test]
fn decode_rejects_wrong_content_field_count() {
    let r = decode("", "just_a_path");
    assert_eq!(r.unwrap_err(), DecodeError::MalformedContent);
}

#[test]
fn decode_rejects_invalid_base64_payload() {
    let r = decode("", "a.txt|!!!");
    assert_eq!(r.unwrap_err(), DecodeError::InvalidPayload);
}

#[test]
fn decode_path_error_takes_precedence() {
    let r = decode("blob|src", "a.txt|!!!");
    assert_eq!(r.unwrap_err(), DecodeError::MalformedPath);
}

#[test]
fn decode_preserves_order_and_duplicates() {
    let (paths, _) = decode("dir|a;dir|a;file|b", "").unwrap();
    assert_eq!(paths.len(), 3);
    assert_eq!(paths[0].kind, PathKind::Dir);
    assert_eq!(paths[0].path, b"a".to_vec());
    assert_eq!(paths[1].kind, PathKind::Dir);
    assert_eq!(paths[1].path, b"a".to_vec());
    assert_eq!(paths[2].kind, PathKind::File);
    assert_eq!(paths[2].path, b"b".to_vec());
}

#[test]
fn decode_base64_padding_variants() {
    // "cGF5bG9hZA==" is base64 for "payload"
    let (_, contents) = decode("", "p|cGF5bG9hZA==").unwrap();
    assert_eq!(contents[0].payload, b"payload".to_vec());
}

#[test]
fn decode_base64_accepts_unpadded_payload() {
    // "SGVsbG8" is unpadded base64 for "Hello"
    let (_, contents) = decode("", "p|SGVsbG8").unwrap();
    assert_eq!(contents[0].payload, b"Hello".to_vec());
}
