use cardsheets::order::{in_page_order, reads_before};

fn names(list: &[&str]) -> Vec<String> {
    list.iter().map(|s| s.to_string()).collect()
}

#[test]
fn pages_are_put_in_the_order_of_their_numbers() {
    let listing = names(&["x-010.png", "x-002.png", "x-1000.png", "x-999.png", "x-000.png"]);
    assert_eq!(
        in_page_order(&listing),
        names(&["x-000.png", "x-002.png", "x-010.png", "x-999.png", "x-1000.png"])
    );
}

#[test]
fn ordering_keeps_every_name() {
    let listing = names(&["b", "a", "b", "", "aa", "a"]);
    assert_eq!(in_page_order(&listing), names(&["", "a", "a", "b", "b", "aa"]));
    assert_eq!(in_page_order(&vec![]), names(&[]));
}

#[test]
fn a_listing_in_order_stays_as_it_is() {
    let listing: Vec<String> = (0..120).map(|i| format!("c-{:03}.png", i)).collect();
    assert_eq!(in_page_order(&listing), listing);
    let mut reversed = listing.clone();
    reversed.reverse();
    assert_eq!(in_page_order(&reversed), listing);
}

#[test]
fn shorter_names_are_read_first() {
    assert!(reads_before("x-999.png", "x-1000.png"));
    assert!(!reads_before("x-1000.png", "x-999.png"));
    assert!(reads_before("x-001.png", "x-002.png"));
    assert!(!reads_before("x-002.png", "x-001.png"));
    assert!(reads_before("x-002.png", "x-002.png"));
    assert!(reads_before("", "a"));
    assert!(reads_before("é", "ê"));
}
