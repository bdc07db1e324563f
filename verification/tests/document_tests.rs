use cardsheets::deck::{CardFace, DeckLine, ResolvedDeck};
use cardsheets::document::{collect, document_file_name, render};

const OPENING: &str = "<!DOCTYPE html>\n<html lang=\"en\"><head><meta charset=\"UTF-8\"><meta name=\"viewport\" content=\"width=device-width, initial-scale=1.0\"><title>PDF</title><style>*,::after,::before{margin:0;padding:0;min-width:0}.page{width:210mm;height:297mm;display:grid;place-items:center}.imgs{display:grid;grid-template-columns:63mm 63mm 63mm;grid-template-rows:88mm 88mm 88mm;gap:0.5pt}img{width:100%;height:100%}</style></head><body><div class=\"page\"><div class=\"imgs\">";
const PAGE_BREAK: &str = "</div></div><div class=\"page\"><div class=\"imgs\">";
const CLOSING: &str = "</body></html>";

fn face(pack: &str, position: i64) -> CardFace {
    CardFace { pack: pack.to_string(), position }
}

fn deck(lines: &[(&str, i64, i64)]) -> ResolvedDeck {
    ResolvedDeck {
        side: String::new(),
        lines: lines
            .iter()
            .map(|(pack, position, count)| DeckLine { face: face(pack, *position), count: *count })
            .collect(),
    }
}

fn images_per_page(document: &str) -> Vec<usize> {
    document
        .split("<div class=\"page\">")
        .skip(1)
        .map(|page| page.matches("<img ").count())
        .collect()
}

#[test]
fn twenty_images_fill_three_pages() {
    let images = collect(&vec![deck(&[("sg", 1, 3), ("su21", 7, 17)])], false, false);
    assert_eq!(images.len(), 20);
    let document = render(&images);
    assert_eq!(document.matches("<div class=\"page\">").count(), 3);
    assert_eq!(images_per_page(&document), vec![9, 9, 2]);
}

#[test]
fn an_empty_document_has_one_empty_page() {
    let document = render(&vec![]);
    assert_eq!(document, format!("{}{}", OPENING, CLOSING));
    assert_eq!(images_per_page(&document), vec![0]);
}

#[test]
fn a_full_page_opens_the_next() {
    let images = collect(&vec![deck(&[("sg", 1, 9)])], false, false);
    let document = render(&images);
    assert_eq!(images_per_page(&document), vec![9, 0]);
    let tag = "<img src=\"sg/cut/c-001.png\" />";
    assert_eq!(
        document,
        format!("{}{}{}{}", OPENING, tag.repeat(9), PAGE_BREAK, CLOSING)
    );
}

#[test]
fn images_stream_in_decklist_order() {
    let decks = vec![deck(&[("sg", 12, 2), ("ms", 3, 1)]), deck(&[("ph", 100, 1)])];
    let document = render(&collect(&decks, false, false));
    assert_eq!(
        document,
        format!(
            "{}{}{}{}{}{}",
            OPENING,
            "<img src=\"sg/cut/c-012.png\" />",
            "<img src=\"sg/cut/c-012.png\" />",
            "<img src=\"ms/cut/c-003.png\" />",
            "<img src=\"ph/cut/c-100.png\" />",
            CLOSING
        )
    );
}

#[test]
fn supplementary_ranges_follow_the_decks() {
    let decks = vec![deck(&[("tai", 5, 1)])];
    assert_eq!(
        collect(&decks, true, true),
        vec![
            face("tai", 5),
            face("sg", 78),
            face("sg", 79),
            face("ms", 66),
            face("ms", 67),
            face("ms", 68),
        ]
    );
    assert_eq!(collect(&decks, true, false), vec![face("tai", 5), face("sg", 78), face("sg", 79)]);
    assert_eq!(
        collect(&decks, false, true),
        vec![face("tai", 5), face("ms", 66), face("ms", 67), face("ms", 68)]
    );
    assert_eq!(collect(&vec![], false, false), vec![]);
}

#[test]
fn page_count_follows_the_image_count() {
    for n in 0..40i64 {
        let document = render(&collect(&vec![deck(&[("sg", 1, n)])], false, false));
        let pages = images_per_page(&document);
        assert_eq!(pages.len() as i64, n / 9 + 1);
        assert_eq!(pages.iter().sum::<usize>() as i64, n);
        assert!(pages.len() as i64 >= (n + 8) / 9);
    }
}

#[test]
fn the_document_is_named_after_its_decklists() {
    assert_eq!(document_file_name(&vec!["12".to_string(), "ab".to_string()]), "12_ab.html");
    assert_eq!(document_file_name(&vec!["solo".to_string()]), "solo.html");
    assert_eq!(document_file_name(&vec![]), ".html");
}
