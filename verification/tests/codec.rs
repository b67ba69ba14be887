use atom_perms::error::StoreError;
use atom_perms::perm::Perms;

#[test]
fn encode_exact_values() {
    assert_eq!(Perms::encode(""), "");
    assert_eq!(Perms::encode("read"), "read");
    assert_eq!(Perms::encode("$"), "$d");
    assert_eq!(Perms::encode("."), "$p");
    assert_eq!(Perms::encode("a.b"), "a$pb");
    assert_eq!(Perms::encode("$d"), "$dd");
    assert_eq!(Perms::encode("a$b.c"), "a$db$pc");
}

#[test]
fn encode_passes_unicode_through() {
    assert_eq!(Perms::encode("clé.пример$"), "clé$pпример$d");
}

#[test]
fn round_trip_restores_every_key() {
    for k in [
        "read", "a.b", "$", ".", "$d", "$p", "a$b.c$d", "..$$..", "clé.π$",
    ] {
        assert_eq!(Perms::decode(&Perms::encode(k)).unwrap(), k);
    }
}

#[test]
fn distinct_keys_encode_distinctly() {
    // "a$pb" encodes its '$' and so cannot collide with the encoding of "a.b"
    assert_ne!(Perms::encode("a.b"), Perms::encode("a$pb"));
    assert_ne!(Perms::encode("$"), Perms::encode("$d"));
    assert_ne!(Perms::encode("x"), Perms::encode("y"));
}

#[test]
fn decode_rejects_unknown_selector() {
    assert_eq!(Perms::decode("$x"), Err(StoreError::DecodeInconsistency));
    assert_eq!(Perms::decode("a$zb"), Err(StoreError::DecodeInconsistency));
}

#[test]
fn decode_rejects_trailing_marker() {
    assert_eq!(Perms::decode("a$"), Err(StoreError::DecodeInconsistency));
    assert_eq!(Perms::decode("$"), Err(StoreError::DecodeInconsistency));
}

#[test]
fn decode_leaves_unreserved_text_unchanged() {
    assert_eq!(Perms::decode("plain").unwrap(), "plain");
    assert_eq!(Perms::decode("a.b").unwrap(), "a.b");
    assert_eq!(Perms::decode("").unwrap(), "");
}

#[test]
fn check_key_accepts_only_legal_keys() {
    assert!(!Perms::check_key(""));
    assert!(!Perms::check_key("_id"));
    assert!(Perms::check_key("_idx"));
    assert!(Perms::check_key("id"));
    assert!(Perms::check_key("$"));
    assert!(Perms::check_key("a.b"));
}
