use cardsheets::json::{parse, Json, Member};

fn text(s: &str) -> Json {
    Json::Text(s.to_string())
}

fn member(key: &str, value: Json) -> Member {
    Member { key: key.to_string(), value }
}

#[test]
fn parse_reads_every_kind_of_value() {
    let doc = parse(b"{\"b\": [1, 2.5, \"x\", true, -3], \"a\": null}").unwrap();
    assert_eq!(
        doc,
        Json::Object(vec![
            member("a", Json::Null),
            member(
                "b",
                Json::Array(vec![
                    Json::Int(1),
                    Json::OtherNumber,
                    text("x"),
                    Json::Bool(true),
                    Json::Int(-3),
                ])
            ),
        ])
    );
}

#[test]
fn parse_keeps_whole_numbers_that_fit() {
    assert_eq!(parse(b"9223372036854775807"), Some(Json::Int(i64::MAX)));
    assert_eq!(parse(b"-9223372036854775808"), Some(Json::Int(i64::MIN)));
    assert_eq!(parse(b"9223372036854775808"), Some(Json::OtherNumber));
    assert_eq!(parse(b"1e3"), Some(Json::OtherNumber));
}

#[test]
fn parse_rejects_broken_text() {
    assert!(parse(b"{\"a\": ").is_none());
    assert!(parse(b"").is_none());
    assert!(parse(b"{} {}").is_none());
}

#[test]
fn get_finds_the_first_member_with_the_key() {
    let doc = Json::Object(vec![
        member("a", Json::Int(1)),
        member("b", Json::Int(2)),
        member("a", Json::Int(3)),
    ]);
    assert_eq!(doc.get("a"), Some(&Json::Int(1)));
    assert_eq!(doc.get("b"), Some(&Json::Int(2)));
    assert_eq!(doc.get("c"), None);
    assert_eq!(Json::Array(vec![]).get("a"), None);
    assert_eq!(Json::Null.get("a"), None);
}

#[test]
fn at_reads_array_elements() {
    let doc = Json::Array(vec![Json::Int(1), text("two")]);
    assert_eq!(doc.at(0), Some(&Json::Int(1)));
    assert_eq!(doc.at(1), Some(&text("two")));
    assert_eq!(doc.at(2), None);
    assert_eq!(Json::Object(vec![]).at(0), None);
}

#[test]
fn scalars_are_read_by_kind() {
    assert_eq!(text("x").as_text(), Some(&"x".to_string()));
    assert_eq!(Json::Int(1).as_text(), None);
    assert_eq!(Json::Int(7).as_whole(), Some(7));
    assert_eq!(Json::OtherNumber.as_whole(), None);
    assert_eq!(text("7").as_whole(), None);
    let object = Json::Object(vec![member("k", Json::Null)]);
    assert_eq!(object.as_members().map(|m| m.len()), Some(1));
    assert!(Json::Array(vec![]).as_members().is_none());
}
