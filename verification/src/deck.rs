//! Resolved decks: which card images a decklist asks for, and how often.

use vstd::prelude::*;
use vstd::string::StringExecFns;
use crate::json::{entries_of, values_of, Entry, Json, JsonValue, Member};
use crate::text::texts_of;

verus! {

/// A card image: the product it belongs to and its position in that product.
#[derive(Debug, Clone, PartialEq, Eq)]
pub struct CardFace {
    pub pack: String,
    pub position: i64,
}

/// The mathematical value of a `CardFace`.
pub struct Face {
    pub pack: Seq<char>,
    pub position: int,
}

impl View for CardFace {
    type V = Face;

    open spec fn view(&self) -> Face {
        Face { pack: self.pack@, position: self.position as int }
    }
}

impl CardFace {
    /// A second copy of this card image.
    pub fn duplicate(&self) -> (copy: CardFace)
        ensures
            copy == *self,
    {
        CardFace { pack: self.pack.clone(), position: self.position }
    }
}

/// One line of a decklist: a card image and how many copies the deck holds.
#[derive(Debug, Clone, PartialEq, Eq)]
pub struct DeckLine {
    pub face: CardFace,
    pub count: i64,
}

/// The mathematical value of a `DeckLine`.
pub struct Line {
    pub face: Face,
    pub count: int,
}

impl View for DeckLine {
    type V = Line;

    open spec fn view(&self) -> Line {
        Line { face: self.face@, count: self.count as int }
    }
}

/// A decklist after lookup: its side and its lines in decklist order.
#[derive(Debug, Clone, PartialEq, Eq)]
pub struct ResolvedDeck {
    pub side: String,
    pub lines: Vec<DeckLine>,
}

/// The mathematical value of a `ResolvedDeck`.
pub struct Deck {
    pub side: Seq<char>,
    pub lines: Seq<Line>,
}

impl View for ResolvedDeck {
    type V = Deck;

    open spec fn view(&self) -> Deck {
        Deck { side: self.side@, lines: self.lines@.map_values(|l: DeckLine| l@) }
    }
}

/// The values of a sequence of card images.
pub open spec fn faces_of(cards: Seq<CardFace>) -> Seq<Face> {
    cards.map_values(|c: CardFace| c@)
}

/// `count` copies of `face`; none where `count` is zero or negative.
pub open spec fn repeated(face: Face, count: int) -> Seq<Face> {
    Seq::new(
        if count > 0 {
            count as nat
        } else {
            0
        },
        |i: int| face,
    )
}

/// The card images of a deck in decklist order, each as often as its line says.
pub open spec fn copies(lines: Seq<Line>) -> Seq<Face>
    decreases lines.len(),
{
    if lines.len() == 0 {
        Seq::empty()
    } else {
        copies(lines.drop_last()) + repeated(lines.last().face, lines.last().count)
    }
}

impl ResolvedDeck {
    /// The card images of the deck in decklist order, each as often as its
    /// line says.
    pub fn faces(&self) -> (out: Vec<CardFace>)
        ensures
            faces_of(out@) == copies(self@.lines),
    {
        let mut out: Vec<CardFace> = Vec::new();
        let mut i: usize = 0;
        assert(self@.lines.take(0) =~= Seq::empty());
        while i < self.lines.len()
            invariant
                i <= self.lines.len(),
                faces_of(out@) == copies(self@.lines.take(i as int)),
            decreases self.lines.len() - i,
        {
            let line = &self.lines[i];
            let ghost before = faces_of(out@);
            let mut k: i64 = 0;
            while k < line.count
                invariant
                    0 <= k,
                    k == 0 || k <= line.count,
                    faces_of(out@) == before + repeated(line.face@, k as int),
                decreases line.count - k,
            {
                let ghost prior = out@;
                out.push(line.face.duplicate());
                assert(faces_of(out@) =~= faces_of(prior).push(line.face@));
                assert(repeated(line.face@, k + 1) =~= repeated(line.face@, k as int).push(
                    line.face@,
                ));
                k += 1;
            }
            proof {
                let upto = self@.lines.take(i + 1);
                assert(upto.drop_last() =~= self@.lines.take(i as int));
                assert(upto.last() == line@);
                assert(repeated(line.face@, k as int) =~= repeated(line.face@, line.count as int));
            }
            i += 1;
        }
        assert(self@.lines.take(self.lines.len() as int) =~= self@.lines);
        out
    }
}

/// What is missing where a deck cannot be resolved.
#[derive(Debug, Clone, Copy, PartialEq, Eq, Structural)]
pub enum ResolutionError {
    /// The deck document has no card list.
    Cards,
    /// The count of a card is no whole number.
    Count,
    /// There is no document for a card of the list.
    Card,
    /// A card document names no pack.
    Pack,
    /// A card document names no side.
    Side,
    /// A card document has no position that is a whole number.
    Position,
}

/// The request key of the deck `id`.
pub open spec fn deck_key(id: Seq<char>) -> Seq<char> {
    "https://netrunnerdb.com/api/2.0/public/deck/"@ + id
}

/// The request key of the card `id`.
pub open spec fn card_key(id: Seq<char>) -> Seq<char> {
    "https://netrunnerdb.com/api/2.0/public/card/"@ + id
}

/// The record of a response: the first element of its `data`.
pub open spec fn record(doc: JsonValue) -> Option<JsonValue> {
    match doc.member("data"@) {
        Some(data) => data.element(0),
        None => None,
    }
}

/// The field `key` of the record of a response.
pub open spec fn field(doc: JsonValue, key: Seq<char>) -> Option<JsonValue> {
    match record(doc) {
        Some(rec) => rec.member(key),
        None => None,
    }
}

/// The text in field `key` of the record of a response.
pub open spec fn field_text(doc: JsonValue, key: Seq<char>) -> Option<Seq<char>> {
    match field(doc, key) {
        Some(value) => value.text(),
        None => None,
    }
}

/// The whole number in field `key` of the record of a response.
pub open spec fn field_whole(doc: JsonValue, key: Seq<char>) -> Option<int> {
    match field(doc, key) {
        Some(value) => value.whole(),
        None => None,
    }
}

/// The card list of a deck document: card identifiers with their counts, in
/// the order of the document.
pub open spec fn card_list(deck: JsonValue) -> Option<Seq<Entry>> {
    match field(deck, "cards"@) {
        Some(cards) => cards.entries(),
        None => None,
    }
}

/// The request keys of the cards of a card list, in its order.
pub open spec fn card_keys(entries: Seq<Entry>) -> Seq<Seq<char>> {
    Seq::new(entries.len(), |i: int| card_key(entries[i].key))
}

/// A deck with no lines and no side yet.
pub open spec fn blank() -> Deck {
    Deck { side: Seq::empty(), lines: Seq::empty() }
}

/// One step of resolution: the line for a card with count `count` and card
/// document `card` is added to `so_far`. The count is read first, then the
/// pack, then the side, which is asked for only where `want_side` holds and
/// no side is known yet, then the position; the first that is missing is
/// the error.
pub open spec fn with_card(
    so_far: Deck,
    count: JsonValue,
    card: Option<JsonValue>,
    want_side: bool,
) -> Result<Deck, ResolutionError> {
    if count.whole() is None {
        Err(ResolutionError::Count)
    } else if card is None {
        Err(ResolutionError::Card)
    } else if field_text(card->0, "pack_code"@) is None {
        Err(ResolutionError::Pack)
    } else if want_side && so_far.side.len() == 0 && field_text(card->0, "side_code"@) is None {
        Err(ResolutionError::Side)
    } else if field_whole(card->0, "position"@) is None {
        Err(ResolutionError::Position)
    } else {
        Ok(
            Deck {
                side: if want_side && so_far.side.len() == 0 {
                    field_text(card->0, "side_code"@)->0
                } else {
                    so_far.side
                },
                lines: so_far.lines.push(
                    Line {
                        face: Face {
                            pack: field_text(card->0, "pack_code"@)->0,
                            position: field_whole(card->0, "position"@)->0,
                        },
                        count: count.whole()->0,
                    },
                ),
            },
        )
    }
}

/// The card document for entry `index`, where there is one.
pub open spec fn card_for(cards: Seq<JsonValue>, index: int) -> Option<JsonValue> {
    if 0 <= index < cards.len() {
        Some(cards[index])
    } else {
        None
    }
}

/// Resolution of the first `upto` entries of a card list, in order; it
/// stops at the first error.
pub open spec fn resolved_upto(
    entries: Seq<Entry>,
    cards: Seq<JsonValue>,
    want_side: bool,
    upto: nat,
) -> Result<Deck, ResolutionError>
    decreases upto,
{
    if upto == 0 {
        Ok(blank())
    } else {
        match resolved_upto(entries, cards, want_side, (upto - 1) as nat) {
            Ok(so_far) => with_card(
                so_far,
                entries[upto - 1].value,
                card_for(cards, upto - 1),
                want_side,
            ),
            Err(e) => Err(e),
        }
    }
}

/// The deck that the deck document `deck` and the card documents `cards`
/// describe, where `cards[i]` answers the request for entry `i` of the
/// card list.
pub open spec fn resolved(deck: JsonValue, cards: Seq<JsonValue>, want_side: bool) -> Result<
    Deck,
    ResolutionError,
> {
    match card_list(deck) {
        Some(entries) => resolved_upto(entries, cards, want_side, entries.len()),
        None => Err(ResolutionError::Cards),
    }
}

/// The request key of the deck `id`.
pub fn deck_request(id: &str) -> (key: String)
    ensures
        key@ == deck_key(id@),
{
    let mut key = String::from_str("https://netrunnerdb.com/api/2.0/public/deck/");
    key.append(id);
    key
}

/// The request key of the card `id`.
pub fn card_request(id: &str) -> (key: String)
    ensures
        key@ == card_key(id@),
{
    let mut key = String::from_str("https://netrunnerdb.com/api/2.0/public/card/");
    key.append(id);
    key
}

fn get_field<'a>(doc: &'a Json, key: &str) -> (r: Option<&'a Json>)
    ensures
        match r {
            Some(value) => field(doc@, key@) == Some(value@),
            None => field(doc@, key@) is None,
        },
{
    match doc.get("data") {
        Some(data) => match data.at(0) {
            Some(rec) => rec.get(key),
            None => None,
        },
        None => None,
    }
}

fn get_field_text<'a>(doc: &'a Json, key: &str) -> (r: Option<&'a String>)
    ensures
        match r {
            Some(s) => field_text(doc@, key@) == Some(s@),
            None => field_text(doc@, key@) is None,
        },
{
    match get_field(doc, key) {
        Some(value) => value.as_text(),
        None => None,
    }
}

fn get_field_whole(doc: &Json, key: &str) -> (r: Option<i64>)
    ensures
        match r {
            Some(n) => field_whole(doc@, key@) == Some(n as int),
            None => field_whole(doc@, key@) is None,
        },
{
    match get_field(doc, key) {
        Some(value) => value.as_whole(),
        None => None,
    }
}

fn get_card_list(deck: &Json) -> (r: Option<&Vec<Member>>)
    ensures
        match r {
            Some(entries) => card_list(deck@) == Some(entries_of(entries@)),
            None => card_list(deck@) is None,
        },
{
    match get_field(deck, "cards") {
        Some(cards) => cards.as_members(),
        None => None,
    }
}

/// The request keys of the cards that the deck document lists, in its
/// order; `Cards` where the document has no card list.
pub fn card_requests(deck: &Json) -> (r: Result<Vec<String>, ResolutionError>)
    ensures
        match r {
            Ok(keys) => card_list(deck@) is Some && texts_of(keys@) == card_keys(
                card_list(deck@)->0,
            ),
            Err(e) => card_list(deck@) is None && e == ResolutionError::Cards,
        },
{
    match get_card_list(deck) {
        None => Err(ResolutionError::Cards),
        Some(entries) => {
            let mut keys: Vec<String> = Vec::new();
            let mut i: usize = 0;
            while i < entries.len()
                invariant
                    i <= entries.len(),
                    keys.len() == i,
                    forall|k: int|
                        0 <= k < i ==> (#[trigger] keys[k])@ == card_key(entries[k].key@),
                decreases entries.len() - i,
            {
                keys.push(card_request(entries[i].key.as_str()));
                i += 1;
            }
            assert(texts_of(keys@) =~= card_keys(entries_of(entries@)));
            Ok(keys)
        },
    }
}

/// Resolves a deck from its deck document and the card documents that
/// answered `card_requests`, in the same order. With `want_side` the side
/// of the deck is taken from the first card that names one.
pub fn resolve(deck: &Json, cards: &Vec<Json>, want_side: bool) -> (r: Result<
    ResolvedDeck,
    ResolutionError,
>)
    ensures
        match r {
            Ok(found) => resolved(deck@, values_of(cards@), want_side) == Ok::<
                Deck,
                ResolutionError,
            >(found@),
            Err(e) => resolved(deck@, values_of(cards@), want_side) == Err::<
                Deck,
                ResolutionError,
            >(e),
        },
{
    let entries = match get_card_list(deck) {
        Some(entries) => entries,
        None => {
            return Err(ResolutionError::Cards);
        },
    };
    let mut out = ResolvedDeck { side: String::new(), lines: Vec::new() };
    assert(out@.lines =~= Seq::empty());
    let mut i: usize = 0;
    while i < entries.len()
        invariant
            i <= entries.len(),
            resolved(deck@, values_of(cards@), want_side) == resolved_upto(
                entries_of(entries@),
                values_of(cards@),
                want_side,
                entries@.len(),
            ),
            resolved_upto(entries_of(entries@), values_of(cards@), want_side, i as nat) == Ok::<
                Deck,
                ResolutionError,
            >(out@),
        decreases entries.len() - i,
    {
        let ghost so_far = out@;
        let ghost next = with_card(
            so_far,
            entries[i as int].value@,
            card_for(values_of(cards@), i as int),
            want_side,
        );
        assert(entries_of(entries@)[i as int].value == entries[i as int].value@);
        assert(resolved_upto(entries_of(entries@), values_of(cards@), want_side, (i + 1) as nat)
            == next);
        proof {
            if next is Err {
                stays_failed(
                    entries_of(entries@),
                    values_of(cards@),
                    want_side,
                    (i + 1) as nat,
                    entries@.len(),
                );
            }
        }
        let count = match entries[i].value.as_whole() {
            Some(n) => n,
            None => {
                return Err(ResolutionError::Count);
            },
        };
        if i >= cards.len() {
            return Err(ResolutionError::Card);
        }
        let card = &cards[i];
        assert(values_of(cards@)[i as int] == card@);
        let pack = match get_field_text(card, "pack_code") {
            Some(pack) => pack.clone(),
            None => {
                return Err(ResolutionError::Pack);
            },
        };
        if want_side && out.side.as_str().is_empty() {
            match get_field_text(card, "side_code") {
                Some(side) => {
                    out.side = side.clone();
                },
                None => {
                    return Err(ResolutionError::Side);
                },
            }
        }
        let position = match get_field_whole(card, "position") {
            Some(position) => position,
            None => {
                return Err(ResolutionError::Position);
            },
        };
        out.lines.push(DeckLine { face: CardFace { pack, position }, count });
        assert(out@.lines =~= next->Ok_0.lines);
        i += 1;
    }
    Ok(out)
}

/// Once resolution has failed at an entry, the entries after it change
/// nothing.
proof fn stays_failed(
    entries: Seq<Entry>,
    cards: Seq<JsonValue>,
    want_side: bool,
    at: nat,
    upto: nat,
)
    requires
        at <= upto,
        resolved_upto(entries, cards, want_side, at) is Err,
    ensures
        resolved_upto(entries, cards, want_side, upto) == resolved_upto(
            entries,
            cards,
            want_side,
            at,
        ),
    decreases upto,
{
    if at < upto {
        stays_failed(entries, cards, want_side, at, (upto - 1) as nat);
    }
}

} // verus!
