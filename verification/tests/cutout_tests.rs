use cardsheets::cutout::{plan_cutouts, plan_page_crops, plan_shifted_copies, CopyJob, CropJob};
use cardsheets::product::{grid, page_crop, Rect};

fn names(list: &[&str]) -> Vec<String> {
    list.iter().map(|s| s.to_string()).collect()
}

#[test]
fn page_crops_number_from_zero() {
    let pages = names(&["x-002.png", "x-004.png"]);
    let jobs = plan_page_crops(false, &pages, page_crop());
    assert_eq!(
        jobs,
        vec![
            CropJob {
                source: "x-002.png".to_string(),
                target: "c-000.png".to_string(),
                area: Rect { width: 2233, height: 3093, left: 76, top: 76 },
            },
            CropJob {
                source: "x-004.png".to_string(),
                target: "c-001.png".to_string(),
                area: Rect { width: 2233, height: 3093, left: 76, top: 76 },
            },
        ]
    );
}

#[test]
fn cutouts_number_cells_page_after_page() {
    let pages = names(&["c-000.png", "c-001.png"]);
    let cells = grid();
    let jobs = plan_cutouts(false, &pages, &cells, 0);
    assert_eq!(jobs.len(), 18);
    for (k, job) in jobs.iter().enumerate() {
        assert_eq!(job.source, pages[k / 9]);
        assert_eq!(job.area, cells[k % 9]);
        assert_eq!(job.target, format!("c-{:03}.png", k + 1));
    }
}

#[test]
fn cutouts_with_an_offset_start_after_it() {
    let pages = names(&["c-000.png", "c-001.png", "c-002.png"]);
    let cells = vec![
        Rect { width: 1, height: 2, left: 3, top: 4 },
        Rect { width: 5, height: 6, left: 7, top: 8 },
    ];
    let jobs = plan_cutouts(false, &pages, &cells, 65);
    let targets: Vec<&str> = jobs.iter().map(|j| j.target.as_str()).collect();
    assert_eq!(
        targets,
        vec!["c-066.png", "c-067.png", "c-068.png", "c-069.png", "c-070.png", "c-071.png"]
    );
    let sources: Vec<&str> = jobs.iter().map(|j| j.source.as_str()).collect();
    assert_eq!(
        sources,
        vec!["c-000.png", "c-000.png", "c-001.png", "c-001.png", "c-002.png", "c-002.png"]
    );
    assert_eq!(jobs[3].area, cells[1]);
    assert_eq!(jobs[4].area, cells[0]);
}

#[test]
fn grid_numbering_has_no_gaps_or_duplicates() {
    let pages: Vec<String> = (0..7).map(|i| format!("c-{:03}.png", i)).collect();
    let cells = grid();
    let jobs = plan_cutouts(false, &pages, &cells, 65);
    let mut targets: Vec<String> = jobs.iter().map(|j| j.target.clone()).collect();
    let expected: Vec<String> = (66..66 + 63).map(|p| format!("c-{:03}.png", p)).collect();
    assert_eq!(targets, expected);
    targets.dedup();
    assert_eq!(targets.len(), 63);
}

#[test]
fn cutouts_without_pages_or_cells_are_empty() {
    assert!(plan_cutouts(false, &vec![], &grid(), 0).is_empty());
    assert!(plan_cutouts(false, &names(&["a", "b"]), &vec![], 0).is_empty());
}

#[test]
fn shift_moves_the_first_pages_to_the_end() {
    let pages: Vec<String> = (0..68).map(|i| format!("x-{:03}.png", i + 10)).collect();
    let jobs = plan_shifted_copies(false, &pages, 3, 1, 68);
    assert_eq!(jobs.len(), 68);
    assert_eq!(jobs[0].target, "c-066.png");
    assert_eq!(jobs[1].target, "c-067.png");
    assert_eq!(jobs[2].target, "c-068.png");
    assert_eq!(jobs[3].target, "c-001.png");
    assert_eq!(jobs[67].target, "c-065.png");
    for (i, job) in jobs.iter().enumerate() {
        assert_eq!(job.source, pages[i]);
    }
}

#[test]
fn shift_without_skip_counts_from_the_shift() {
    let pages = names(&["x-000.png", "x-001.png", "x-002.png"]);
    let jobs = plan_shifted_copies(false, &pages, 0, 66, 63);
    assert_eq!(
        jobs,
        vec![
            CopyJob { source: "x-000.png".to_string(), target: "c-066.png".to_string() },
            CopyJob { source: "x-001.png".to_string(), target: "c-067.png".to_string() },
            CopyJob { source: "x-002.png".to_string(), target: "c-068.png".to_string() },
        ]
    );
}

#[test]
fn a_finished_stage_plans_nothing() {
    let pages = names(&["x-002.png", "x-004.png"]);
    assert!(plan_page_crops(true, &pages, page_crop()).is_empty());
    assert!(plan_cutouts(true, &pages, &grid(), 0).is_empty());
    assert!(plan_shifted_copies(true, &pages, 3, 1, 68).is_empty());
}
