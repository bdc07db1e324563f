use cardsheets::pages::{is_dropped, retain};
use cardsheets::product::{Product, Retention};

fn page_names(count: usize) -> Vec<String> {
    (0..count).map(|i| format!("x-{:03}.png", i)).collect()
}

fn kept_indices(product: Product, count: usize) -> Vec<usize> {
    let names = page_names(count);
    retain(&product.retention(), &names)
        .iter()
        .map(|name| names.iter().position(|n| n == name).unwrap())
        .collect()
}

#[test]
fn system_gateway_keeps_even_pages_and_the_tail() {
    assert_eq!(
        kept_indices(Product::SystemGateway, 27),
        vec![2, 4, 6, 8, 10, 12, 14, 16, 18, 24, 25, 26]
    );
}

#[test]
fn system_update_keeps_even_pages_and_the_tail() {
    assert_eq!(
        kept_indices(Product::SystemUpdate, 24),
        vec![2, 4, 6, 8, 10, 12, 14, 16, 18, 20, 22, 23]
    );
}

#[test]
fn rebellion_keeps_even_pages_and_the_tail() {
    assert_eq!(
        kept_indices(Product::RebellionWithoutRehearsal, 20),
        vec![2, 4, 6, 8, 10, 12, 14, 16, 18, 19]
    );
}

#[test]
fn automata_initiative_drops_its_listed_pages() {
    assert_eq!(
        kept_indices(Product::AutomataInitiative, 24),
        vec![2, 4, 6, 8, 10, 12, 14, 16, 22, 23]
    );
}

#[test]
fn midnight_sun_drops_the_first_ten_and_two_late_pages() {
    let kept = kept_indices(Product::MidnightSun, 82);
    let mut expected: Vec<usize> = (10..78).collect();
    expected.push(80);
    expected.push(81);
    assert_eq!(kept, expected);
}

#[test]
fn parhelion_drops_five_pages() {
    let kept = kept_indices(Product::Parhelion, 40);
    let expected: Vec<usize> = (0..29).chain(34..40).collect();
    assert_eq!(kept, expected);
}

#[test]
fn retention_is_repeatable_and_keeps_order() {
    let names: Vec<String> =
        vec!["x-004.png", "x-002.png", "x-003.png", "x-030.png", "x-002.png", "x-000.png"]
            .into_iter()
            .map(String::from)
            .collect();
    let rule = Product::SystemGateway.retention();
    let first = retain(&rule, &names);
    let second = retain(&rule, &names);
    assert_eq!(first, second);
    assert_eq!(first, vec!["x-004.png", "x-002.png", "x-030.png", "x-002.png"]);
    assert_eq!(retain(&rule, &first), first);
}

#[test]
fn a_name_is_dropped_by_its_beginning() {
    let rule = Retention { excluded: vec![7, 1000], alternating: 3 };
    assert!(is_dropped(&rule, "x-007.png"));
    assert!(is_dropped(&rule, "x-007"));
    assert!(is_dropped(&rule, "x-0071.png"));
    assert!(is_dropped(&rule, "x-1000.png"));
    assert!(is_dropped(&rule, "x-001.png"));
    assert!(is_dropped(&rule, "x-003.png"));
    assert!(!is_dropped(&rule, "x-002.png"));
    assert!(!is_dropped(&rule, "x-005.png"));
    assert!(!is_dropped(&rule, "x-07.png"));
    assert!(!is_dropped(&rule, "y-007.png"));
    assert!(!is_dropped(&rule, ""));
}

#[test]
fn names_that_are_no_pages_are_kept() {
    let rule = Product::MidnightSun.retention();
    let names = vec!["notes.txt".to_string(), "x-005.png".to_string()];
    assert_eq!(retain(&rule, &names), vec!["notes.txt"]);
}
