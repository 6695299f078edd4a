use odb_index::config::{
    abbrev_hex_len, abbrev_hex_len_of, eq_ignore_ascii_case, object_hash, reflog_mode, Error, ObjectHash,
    WriteReflog,
};

#[test]
fn object_format_is_sha1_unless_named_otherwise() {
    assert!(matches!(object_hash(0, Some(b"sha256")), Ok(ObjectHash::Sha1)));
    assert!(matches!(object_hash(1, None), Ok(ObjectHash::Sha1)));
    assert!(matches!(object_hash(1, Some(b"SHA1")), Ok(ObjectHash::Sha1)));
    match object_hash(1, Some(b"sha256")) {
        Err(Error::UnsupportedObjectFormat { name }) => assert_eq!(name, b"sha256".to_vec()),
        _ => panic!("expected an unsupported object format"),
    }
    assert_eq!(ObjectHash::Sha1.len_in_hex(), 40);
}

#[test]
fn reflog_modes() {
    assert_eq!(reflog_mode(None, None), None);
    assert_eq!(reflog_mode(Some(b"Always"), None), Some(WriteReflog::Always));
    assert_eq!(reflog_mode(Some(b"yes"), Some(true)), Some(WriteReflog::Normal));
    assert_eq!(reflog_mode(Some(b"no"), Some(false)), Some(WriteReflog::Disable));
    assert_eq!(reflog_mode(Some(b"junk"), None), Some(WriteReflog::Disable));
}

#[test]
fn abbreviation_lengths() {
    let h = ObjectHash::Sha1;
    assert!(matches!(abbrev_hex_len(None, None, None, h), Ok(None)));
    assert!(matches!(abbrev_hex_len(Some(b"  "), None, None, h), Err(Error::EmptyValue { key: "core.abbrev" })));
    assert!(matches!(abbrev_hex_len(Some(b"AUTO"), None, None, h), Ok(None)));
    assert!(matches!(abbrev_hex_len(Some(b"false"), Some(false), None, h), Ok(Some(40))));
    assert!(matches!(abbrev_hex_len(Some(b"7"), None, Some(7), h), Ok(Some(7))));
    assert!(matches!(abbrev_hex_len(Some(b"40"), None, Some(40), h), Ok(Some(40))));
    match abbrev_hex_len(Some(b"3"), None, Some(3), h) {
        Err(Error::CoreAbbrev { value, max }) => {
            assert_eq!(value, b"3".to_vec());
            assert_eq!(max, 40);
        }
        _ => panic!("expected an abbreviation error"),
    }
    assert!(matches!(abbrev_hex_len(Some(b"41"), None, Some(41), h), Err(Error::CoreAbbrev { .. })));
    assert!(matches!(abbrev_hex_len(Some(b"x"), None, None, h), Err(Error::CoreAbbrev { .. })));
    assert!(matches!(abbrev_hex_len_of(Some(b"8"), true, None, Some(8), h), Err(Error::EmptyValue { .. })));
    assert!(matches!(abbrev_hex_len_of(Some(b"8"), false, None, Some(8), h), Ok(Some(8))));
}

#[test]
fn ascii_case_is_ignored() {
    assert!(eq_ignore_ascii_case(b"ShA1", b"sha1"));
    assert!(!eq_ignore_ascii_case(b"sha1", b"sha"));
    assert!(!eq_ignore_ascii_case(b"[", b"{"));
}
