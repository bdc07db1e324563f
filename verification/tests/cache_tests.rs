use cardsheets::cache::{entry_name, look_up, take_in, to_hex, Lookup};
use cardsheets::deck::ResolutionError;
use cardsheets::failure::Failure;
use cardsheets::json::Json;
use std::collections::HashMap;

#[test]
fn entry_names_are_md5_fingerprints() {
    assert_eq!(
        entry_name("abcdefghijklmnopqrstuvwxyz"),
        "c3fcd3d76192e4007dfb496cca67e13b.json"
    );
    assert_eq!(entry_name(""), "d41d8cd98f00b204e9800998ecf8427e.json");
}

#[test]
fn entry_names_agree_with_the_digest_crate() {
    for key in [
        "https://netrunnerdb.com/api/2.0/public/deck/1",
        "https://netrunnerdb.com/api/2.0/public/card/30001",
        "käse",
    ] {
        assert_eq!(entry_name(key), format!("{:?}.json", md5::compute(key)));
    }
}

#[test]
fn different_keys_get_different_entries() {
    assert_ne!(entry_name("deck/1"), entry_name("deck/2"));
    assert_eq!(entry_name("deck/1"), entry_name("deck/1"));
}

#[test]
fn hex_uses_two_lower_case_digits() {
    assert_eq!(to_hex(&vec![]), "");
    assert_eq!(to_hex(&vec![0x00, 0x0f, 0xa0, 0xff, 0x9b]), "000fa0ff9b");
}

#[test]
fn lookup_of_a_missing_entry_is_a_miss() {
    assert_eq!(look_up(None), Lookup::Miss);
}

#[test]
fn lookup_of_a_stored_document_is_a_hit() {
    let stored = b"{\"data\": 1}".to_vec();
    match look_up(Some(&stored)) {
        Lookup::Hit(doc) => assert_eq!(doc.get("data"), Some(&Json::Int(1))),
        other => panic!("expected a hit, got {:?}", other),
    }
}

#[test]
fn lookup_of_a_broken_entry_is_corrupt() {
    let stored = b"{\"data\": ".to_vec();
    assert_eq!(look_up(Some(&stored)), Lookup::Corrupt);
    assert_eq!(look_up(Some(&vec![])), Lookup::Corrupt);
}

#[test]
fn a_fetched_body_must_decode() {
    assert_eq!(take_in(&b"[1]".to_vec()), Ok(Json::Array(vec![Json::Int(1)])));
    assert_eq!(take_in(&b"<html>".to_vec()), Err(Failure::Transport));
}

fn get(
    store: &mut HashMap<String, Vec<u8>>,
    key: &str,
    remote: &[u8],
    fetches: &mut u32,
) -> Result<Json, Failure> {
    let name = entry_name(key);
    match look_up(store.get(&name)) {
        Lookup::Hit(doc) => Ok(doc),
        Lookup::Corrupt => Err(Failure::CacheCorruption),
        Lookup::Miss => {
            *fetches += 1;
            let body = remote.to_vec();
            let doc = take_in(&body)?;
            store.insert(name, body);
            Ok(doc)
        }
    }
}

#[test]
fn two_gets_make_one_fetch() {
    let mut store = HashMap::new();
    let mut fetches = 0;
    let first = get(&mut store, "deck/1", b"{\"data\": []}", &mut fetches);
    let second = get(&mut store, "deck/1", b"{\"data\": [1]}", &mut fetches);
    assert_eq!(fetches, 1);
    assert!(first.is_ok());
    assert_eq!(first, second);
    assert_eq!(store.len(), 1);
}

#[test]
fn a_corrupt_entry_is_not_fetched_again() {
    let mut store = HashMap::new();
    store.insert(entry_name("deck/1"), b"oops".to_vec());
    let mut fetches = 0;
    assert_eq!(
        get(&mut store, "deck/1", b"{}", &mut fetches),
        Err(Failure::CacheCorruption)
    );
    assert_eq!(fetches, 0);
    assert_eq!(store.get(&entry_name("deck/1")), Some(&b"oops".to_vec()));
}

#[test]
fn a_body_that_does_not_decode_is_not_stored() {
    let mut store = HashMap::new();
    let mut fetches = 0;
    assert_eq!(get(&mut store, "deck/1", b"nope", &mut fetches), Err(Failure::Transport));
    assert_eq!(fetches, 1);
    assert!(store.is_empty());
}

#[test]
fn failures_are_named() {
    assert_eq!(Failure::Transport.describe(), "transport error");
    assert_eq!(Failure::ExternalTool.describe(), "external tool error");
    assert_eq!(Failure::CacheCorruption.describe(), "cache corruption");
    assert_eq!(Failure::Io.describe(), "i/o error");
    assert_eq!(
        Failure::Resolution(ResolutionError::Cards).describe(),
        "resolution error: no card list"
    );
    assert_eq!(Failure::Resolution(ResolutionError::Count).describe(), "resolution error: count");
    assert_eq!(
        Failure::Resolution(ResolutionError::Card).describe(),
        "resolution error: no card document"
    );
    assert_eq!(
        Failure::Resolution(ResolutionError::Pack).describe(),
        "resolution error: pack_code"
    );
    assert_eq!(
        Failure::Resolution(ResolutionError::Side).describe(),
        "resolution error: side_code"
    );
    assert_eq!(
        Failure::Resolution(ResolutionError::Position).describe(),
        "resolution error: position"
    );
}
