use cardsheets::deck::{
    card_request, card_requests, deck_request, resolve, CardFace, DeckLine, ResolutionError,
    ResolvedDeck,
};
use cardsheets::json::{parse, Json};

fn doc(text: &str) -> Json {
    parse(text.as_bytes()).unwrap()
}

fn card(pack: &str, side: &str, position: i64) -> Json {
    doc(&format!(
        "{{\"data\": [{{\"pack_code\": \"{}\", \"side_code\": \"{}\", \"position\": {}}}]}}",
        pack, side, position
    ))
}

fn line(pack: &str, position: i64, count: i64) -> DeckLine {
    DeckLine { face: CardFace { pack: pack.to_string(), position }, count }
}

#[test]
fn request_keys() {
    assert_eq!(
        deck_request("71234"),
        "https://netrunnerdb.com/api/2.0/public/deck/71234"
    );
    assert_eq!(
        card_request("30001"),
        "https://netrunnerdb.com/api/2.0/public/card/30001"
    );
}

#[test]
fn card_requests_follow_the_card_list() {
    let deck = doc("{\"data\": [{\"cards\": {\"30010\": 3, \"30002\": 1}}]}");
    assert_eq!(
        card_requests(&deck),
        Ok(vec![
            "https://netrunnerdb.com/api/2.0/public/card/30002".to_string(),
            "https://netrunnerdb.com/api/2.0/public/card/30010".to_string(),
        ])
    );
}

#[test]
fn card_requests_need_a_card_list() {
    for text in [
        "{}",
        "{\"data\": []}",
        "{\"data\": [{}]}",
        "{\"data\": [{\"cards\": [1, 2]}]}",
        "{\"data\": {\"cards\": {}}}",
        "[]",
    ] {
        assert_eq!(card_requests(&doc(text)), Err(ResolutionError::Cards));
        assert_eq!(resolve(&doc(text), &vec![], true), Err(ResolutionError::Cards));
    }
}

#[test]
fn only_the_first_record_is_read() {
    let deck = doc("{\"data\": [{\"cards\": {\"1\": 2}}, {\"cards\": {\"9\": 9}}]}");
    assert_eq!(
        card_requests(&deck),
        Ok(vec!["https://netrunnerdb.com/api/2.0/public/card/1".to_string()])
    );
}

#[test]
fn resolve_builds_the_lines_in_order() {
    let deck = doc("{\"data\": [{\"cards\": {\"30002\": 1, \"30010\": 3}}]}");
    let cards = vec![card("sg", "runner", 2), card("su21", "runner", 10)];
    assert_eq!(
        resolve(&deck, &cards, true),
        Ok(ResolvedDeck {
            side: "runner".to_string(),
            lines: vec![line("sg", 2, 1), line("su21", 10, 3)],
        })
    );
}

#[test]
fn the_side_is_that_of_the_first_card() {
    let deck = doc("{\"data\": [{\"cards\": {\"1\": 1, \"2\": 1}}]}");
    let cards = vec![card("sg", "corp", 1), card("sg", "runner", 2)];
    assert_eq!(resolve(&deck, &cards, true).unwrap().side, "corp");
}

#[test]
fn without_side_no_side_is_read() {
    let deck = doc("{\"data\": [{\"cards\": {\"1\": 2}}]}");
    let cards = vec![doc("{\"data\": [{\"pack_code\": \"ms\", \"position\": 7}]}")];
    assert_eq!(
        resolve(&deck, &cards, false),
        Ok(ResolvedDeck { side: String::new(), lines: vec![line("ms", 7, 2)] })
    );
    assert_eq!(resolve(&deck, &cards, true), Err(ResolutionError::Side));
}

#[test]
fn an_empty_deck_resolves_to_no_lines() {
    let deck = doc("{\"data\": [{\"cards\": {}}]}");
    assert_eq!(
        resolve(&deck, &vec![], true),
        Ok(ResolvedDeck { side: String::new(), lines: vec![] })
    );
}

#[test]
fn a_count_must_be_a_whole_number() {
    let deck = doc("{\"data\": [{\"cards\": {\"1\": \"3\"}}]}");
    assert_eq!(resolve(&deck, &vec![card("sg", "corp", 1)], true), Err(ResolutionError::Count));
    let deck = doc("{\"data\": [{\"cards\": {\"1\": 1.5}}]}");
    assert_eq!(resolve(&deck, &vec![card("sg", "corp", 1)], true), Err(ResolutionError::Count));
}

#[test]
fn every_entry_needs_its_card_document() {
    let deck = doc("{\"data\": [{\"cards\": {\"1\": 1, \"2\": 1}}]}");
    assert_eq!(resolve(&deck, &vec![card("sg", "corp", 1)], true), Err(ResolutionError::Card));
}

#[test]
fn a_card_needs_pack_and_position() {
    let deck = doc("{\"data\": [{\"cards\": {\"1\": 1}}]}");
    let no_pack = doc("{\"data\": [{\"side_code\": \"corp\", \"position\": 1}]}");
    assert_eq!(resolve(&deck, &vec![no_pack], true), Err(ResolutionError::Pack));
    let no_position = doc("{\"data\": [{\"pack_code\": \"sg\", \"side_code\": \"corp\"}]}");
    assert_eq!(resolve(&deck, &vec![no_position], true), Err(ResolutionError::Position));
    let text_position =
        doc("{\"data\": [{\"pack_code\": \"sg\", \"side_code\": \"corp\", \"position\": \"1\"}]}");
    assert_eq!(resolve(&deck, &vec![text_position], true), Err(ResolutionError::Position));
    let empty = doc("{\"data\": []}");
    assert_eq!(resolve(&deck, &vec![empty], true), Err(ResolutionError::Pack));
}

#[test]
fn the_first_missing_field_is_reported() {
    let deck = doc("{\"data\": [{\"cards\": {\"1\": 1, \"2\": true}}]}");
    let bare = doc("{\"data\": [{}]}");
    assert_eq!(resolve(&deck, &vec![bare], true), Err(ResolutionError::Pack));
    let no_side = doc("{\"data\": [{\"pack_code\": \"sg\"}]}");
    assert_eq!(resolve(&deck, &vec![no_side], true), Err(ResolutionError::Side));
    let good = card("sg", "corp", 1);
    assert_eq!(resolve(&deck, &vec![good], true), Err(ResolutionError::Count));
}

#[test]
fn faces_repeat_each_line_by_its_count() {
    let deck = ResolvedDeck {
        side: "corp".to_string(),
        lines: vec![line("sg", 1, 2), line("sg", 2, 0), line("ms", 3, -1), line("ph", 4, 1)],
    };
    assert_eq!(
        deck.faces(),
        vec![
            CardFace { pack: "sg".to_string(), position: 1 },
            CardFace { pack: "sg".to_string(), position: 1 },
            CardFace { pack: "ph".to_string(), position: 4 },
        ]
    );
}
