use cardsheets::deck::{CardFace, DeckLine, ResolvedDeck};
use cardsheets::mosaic::{is_present, lay_out, plan, plan_mosaic, Cell, Input, Step};

fn card(pack: &str, position: i64) -> Cell {
    Cell::Card(CardFace { pack: pack.to_string(), position })
}

fn back(side: &str) -> Cell {
    Cell::Back(side.to_string())
}

fn deck(side: &str, lines: &[(&str, i64, i64)]) -> ResolvedDeck {
    ResolvedDeck {
        side: side.to_string(),
        lines: lines
            .iter()
            .map(|(pack, position, count)| DeckLine {
                face: CardFace { pack: pack.to_string(), position: *position },
                count: *count,
            })
            .collect(),
    }
}

fn artifact(name: &str) -> Input {
    Input::Artifact(name.to_string())
}

#[test]
fn the_last_row_is_padded_with_backs() {
    let grid = lay_out(&deck("corp", &[("sg", 1, 3), ("sg", 2, 10)]));
    assert_eq!(grid.len(), 2);
    assert_eq!(grid[0].len(), 10);
    assert_eq!(grid[1].len(), 10);
    assert_eq!(grid[0][0], card("sg", 1));
    assert_eq!(grid[0][2], card("sg", 1));
    assert_eq!(grid[0][3], card("sg", 2));
    assert_eq!(grid[1][2], card("sg", 2));
    for c in 3..10 {
        assert_eq!(grid[1][c], back("corp"));
    }
}

#[test]
fn row_count_is_the_card_count_over_ten_rounded_up() {
    for n in 1..45i64 {
        if n % 10 == 0 {
            continue;
        }
        let grid = lay_out(&deck("runner", &[("sg", 1, n)]));
        assert_eq!(grid.len() as i64, (n + 9) / 10);
        assert!(grid.iter().all(|row| row.len() == 10));
        let backs = grid.last().unwrap().iter().filter(|c| **c == back("runner")).count();
        assert_eq!(backs as i64, 10 - n % 10);
    }
}

#[test]
fn a_deck_that_fills_its_rows_gets_a_row_of_backs() {
    let grid = lay_out(&deck("runner", &[("sg", 1, 10)]));
    assert_eq!(grid.len(), 2);
    assert!(grid[0].iter().all(|c| *c == card("sg", 1)));
    assert!(grid[1].iter().all(|c| *c == back("runner")));
    let empty = lay_out(&deck("corp", &[]));
    assert_eq!(empty.len(), 1);
    assert!(empty[0].iter().all(|c| *c == back("corp")));
}

#[test]
fn three_images_keep_their_order() {
    let grid = lay_out(&deck("corp", &[("sg", 5, 1), ("ms", 66, 1), ("ph", 70, 1)]));
    assert_eq!(grid.len(), 1);
    let mut expected = vec![card("sg", 5), card("ms", 66), card("ph", 70)];
    while expected.len() < 10 {
        expected.push(back("corp"));
    }
    assert_eq!(grid[0], expected);
    let steps = plan("d1", &grid, &vec![]);
    assert_eq!(steps.len(), 12);
    assert_eq!(
        steps[0],
        Step::Copy { from: Input::Cell(card("sg", 5)), to: "part-00-00.png".to_string() }
    );
    assert_eq!(
        steps[1],
        Step::Append {
            first: "part-00-00.png".to_string(),
            second: Input::Cell(card("ms", 66)),
            to: "part-00-01.png".to_string(),
            across: true,
        }
    );
    assert_eq!(
        steps[2],
        Step::Append {
            first: "part-00-01.png".to_string(),
            second: Input::Cell(card("ph", 70)),
            to: "part-00-02.png".to_string(),
            across: true,
        }
    );
    for c in 3..10 {
        assert_eq!(
            steps[c],
            Step::Append {
                first: format!("part-00-{:02}.png", c - 1),
                second: Input::Cell(back("corp")),
                to: format!("part-00-{:02}.png", c),
                across: true,
            }
        );
    }
    assert_eq!(
        steps[10],
        Step::Copy { from: artifact("part-00-09.png"), to: "part-00-XX.png".to_string() }
    );
    assert_eq!(
        steps[11],
        Step::Copy { from: artifact("part-00-XX.png"), to: "_-d1.png".to_string() }
    );
}

#[test]
fn rows_are_stacked_top_to_bottom() {
    let grid = vec![
        vec![card("sg", 1), card("sg", 2)],
        vec![card("sg", 3)],
        vec![card("sg", 4), back("corp")],
    ];
    let steps = plan("deck", &grid, &vec![]);
    assert_eq!(
        steps,
        vec![
            Step::Copy { from: Input::Cell(card("sg", 1)), to: "part-00-00.png".to_string() },
            Step::Append {
                first: "part-00-00.png".to_string(),
                second: Input::Cell(card("sg", 2)),
                to: "part-00-01.png".to_string(),
                across: true,
            },
            Step::Copy { from: artifact("part-00-01.png"), to: "part-00-XX.png".to_string() },
            Step::Copy { from: Input::Cell(card("sg", 3)), to: "part-01-00.png".to_string() },
            Step::Append {
                first: "part-00-XX.png".to_string(),
                second: artifact("part-01-00.png"),
                to: "part-01-XX.png".to_string(),
                across: false,
            },
            Step::Copy { from: Input::Cell(card("sg", 4)), to: "part-02-00.png".to_string() },
            Step::Append {
                first: "part-02-00.png".to_string(),
                second: Input::Cell(back("corp")),
                to: "part-02-01.png".to_string(),
                across: true,
            },
            Step::Append {
                first: "part-01-XX.png".to_string(),
                second: artifact("part-02-01.png"),
                to: "part-02-XX.png".to_string(),
                across: false,
            },
            Step::Copy { from: artifact("part-02-XX.png"), to: "_-deck.png".to_string() },
        ]
    );
}

#[test]
fn existing_artifacts_are_not_made_again() {
    let grid = vec![vec![card("sg", 1), card("sg", 2)], vec![card("sg", 3), card("sg", 4)]];
    let existing: Vec<String> = vec!["part-00-XX.png", "part-01-00.png", "unrelated.png"]
        .into_iter()
        .map(String::from)
        .collect();
    let steps = plan("deck", &grid, &existing);
    assert_eq!(
        steps,
        vec![
            Step::Append {
                first: "part-01-00.png".to_string(),
                second: Input::Cell(card("sg", 4)),
                to: "part-01-01.png".to_string(),
                across: true,
            },
            Step::Append {
                first: "part-00-XX.png".to_string(),
                second: artifact("part-01-01.png"),
                to: "part-01-XX.png".to_string(),
                across: false,
            },
            Step::Copy { from: artifact("part-01-XX.png"), to: "_-deck.png".to_string() },
        ]
    );
}

#[test]
fn a_finished_mosaic_is_only_copied() {
    let grid = vec![vec![card("sg", 1)], vec![card("sg", 2)]];
    let existing: Vec<String> =
        vec!["part-00-XX.png", "part-01-XX.png"].into_iter().map(String::from).collect();
    assert_eq!(
        plan("deck", &grid, &existing),
        vec![Step::Copy { from: artifact("part-01-XX.png"), to: "_-deck.png".to_string() }]
    );
}

#[test]
fn cell_paths() {
    assert_eq!(card("sg", 7).path(), vec!["sg", "cut", "c-007.png"]);
    assert_eq!(back("runner").path(), vec!["back", "runner", "back.png"]);
}

#[test]
fn presence_is_by_exact_name() {
    let existing = vec!["part-00-XX.png".to_string()];
    assert!(is_present(&existing, &"part-00-XX.png".to_string()));
    assert!(!is_present(&existing, &"part-00-XX".to_string()));
    assert!(!is_present(&vec![], &"part-00-XX.png".to_string()));
}

#[test]
fn a_deck_is_laid_out_and_planned_in_one_go() {
    let d = deck("runner", &[("sg", 1, 12)]);
    let existing = vec!["part-00-XX.png".to_string()];
    let steps = plan_mosaic("d7", &d, &existing);
    assert_eq!(steps, plan("d7", &lay_out(&d), &existing));
    assert_eq!(steps.len(), 12);
    assert_eq!(
        steps[0],
        Step::Copy { from: Input::Cell(card("sg", 1)), to: "part-01-00.png".to_string() }
    );
    assert_eq!(
        steps[2],
        Step::Append {
            first: "part-01-01.png".to_string(),
            second: Input::Cell(back("runner")),
            to: "part-01-02.png".to_string(),
            across: true,
        }
    );
    assert_eq!(
        steps[10],
        Step::Append {
            first: "part-00-XX.png".to_string(),
            second: artifact("part-01-09.png"),
            to: "part-01-XX.png".to_string(),
            across: false,
        }
    );
    assert_eq!(
        steps[11],
        Step::Copy { from: artifact("part-01-XX.png"), to: "_-d7.png".to_string() }
    );
}
