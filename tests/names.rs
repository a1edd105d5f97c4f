use kayring::error::StoreError;
use kayring::names::{check_name, entry_path, list_names, name_precedes, root_dir, root_dir_from, sort_names};
use kayring::secret::{format_secret, parse_secret};

#[test]
fn list_sorts_by_bytes() {
    let entries = vec![Some("zeta".to_string()), Some("alpha".to_string()), Some("Beta".to_string())];
    let (names, unreadable) = list_names(entries);
    assert_eq!(names, vec!["Beta".to_string(), "alpha".to_string(), "zeta".to_string()]);
    assert!(!unreadable);
}

#[test]
fn list_skips_unreadable_entries_and_flags_them() {
    let entries = vec![Some("b".to_string()), None, Some("a".to_string()), None];
    let (names, unreadable) = list_names(entries);
    assert_eq!(names, vec!["a".to_string(), "b".to_string()]);
    assert!(unreadable);
}

#[test]
fn list_of_empty_directory() {
    let (names, unreadable) = list_names(vec![]);
    assert!(names.is_empty());
    assert!(!unreadable);
}

#[test]
fn sort_keeps_duplicates_and_prefixes_first() {
    let v = vec!["ab".to_string(), "a".to_string(), "ab".to_string(), "\u{e9}".to_string(), "z".to_string()];
    let sorted = sort_names(v);
    assert_eq!(sorted, vec!["a", "ab", "ab", "z", "\u{e9}"]);
}

#[test]
fn precedes_is_byte_order() {
    assert!(name_precedes("Beta", "alpha"));
    assert!(!name_precedes("alpha", "Beta"));
    assert!(name_precedes("a", "a"));
    assert!(name_precedes("", "a"));
    assert!(!name_precedes("ab", "a"));
}

#[test]
fn names_that_leave_the_root_are_rejected() {
    assert_eq!(check_name("key1"), Ok(()));
    assert_eq!(check_name(".hidden"), Ok(()));
    assert_eq!(check_name("..."), Ok(()));
    assert_eq!(check_name(""), Err(StoreError::InvalidName));
    assert_eq!(check_name("."), Err(StoreError::InvalidName));
    assert_eq!(check_name(".."), Err(StoreError::InvalidName));
    assert_eq!(check_name("a/b"), Err(StoreError::InvalidName));
    assert_eq!(check_name("../x"), Err(StoreError::InvalidName));
    assert_eq!(check_name("a\\b"), Err(StoreError::InvalidName));
    assert_eq!(check_name("a\0b"), Err(StoreError::InvalidName));
}

#[test]
fn entry_path_joins_root_and_name() {
    assert_eq!(entry_path("/tmp/store", "key"), Ok("/tmp/store/key".to_string()));
    assert_eq!(entry_path("/tmp/store", "../key"), Err(StoreError::InvalidName));
}

#[test]
fn root_dir_resolution() {
    assert_eq!(root_dir_from(Some("/x".to_string()), Some("/home/u".to_string())), Ok("/x".to_string()));
    assert_eq!(root_dir_from(None, Some("/home/u".to_string())), Ok("/home/u/.kayring".to_string()));
    assert_eq!(root_dir_from(None, None), Err(StoreError::DirectoryResolutionFailure));
    assert_eq!(root_dir(Some("/explicit".to_string())), Ok("/explicit".to_string()));
}

#[test]
fn parse_secret_accepts_prefixed_hex() {
    assert_eq!(parse_secret("0x0aFF"), Ok(vec![0x0a, 0xff]));
    assert_eq!(parse_secret("0xdeadbeef"), Ok(vec![0xde, 0xad, 0xbe, 0xef]));
    assert_eq!(parse_secret("0x"), Ok(vec![]));
}

#[test]
fn parse_secret_rejects_bad_input() {
    assert_eq!(parse_secret("deadbeef"), Err(StoreError::InvalidSecretEncoding));
    assert_eq!(parse_secret("0xabc"), Err(StoreError::InvalidSecretEncoding));
    assert_eq!(parse_secret("0xzz"), Err(StoreError::InvalidSecretEncoding));
    assert_eq!(parse_secret("0X00"), Err(StoreError::InvalidSecretEncoding));
    assert_eq!(parse_secret("0"), Err(StoreError::InvalidSecretEncoding));
    assert_eq!(parse_secret(""), Err(StoreError::InvalidSecretEncoding));
    assert_eq!(parse_secret("0x\u{e9}0"), Err(StoreError::InvalidSecretEncoding));
}

#[test]
fn format_secret_is_lower_case_prefixed_hex() {
    assert_eq!(format_secret(&[0x0a, 0xff, 0x00]), "0x0aff00");
    assert_eq!(format_secret(&[]), "0x");
}

#[test]
fn secret_text_round_trip() {
    let bytes = parse_secret("0x00112233aabbccdd").unwrap();
    assert_eq!(format_secret(&bytes), "0x00112233aabbccdd");
}

#[test]
fn every_error_has_a_message() {
    let all = [
        StoreError::AlreadyExists,
        StoreError::NotFound,
        StoreError::InvalidSecretEncoding,
        StoreError::UnsupportedFormatVersion,
        StoreError::MalformedPayload,
        StoreError::AuthenticationFailure,
        StoreError::DirectoryResolutionFailure,
        StoreError::InvalidRounds,
        StoreError::InvalidName,
        StoreError::SecretTooLong,
    ];
    for e in all.iter() {
        assert!(!e.message().is_empty());
    }
    assert_eq!(StoreError::AuthenticationFailure.message(), "failed to decrypt");
}
