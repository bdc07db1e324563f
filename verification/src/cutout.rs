//! Cutting pages into numbered card images: the jobs of each stage.

use vstd::prelude::*;
use vstd::arithmetic::div_mod::{lemma_fundamental_div_mod, lemma_fundamental_div_mod_converse};
use vstd::arithmetic::mul::{lemma_mul_inequality, lemma_mul_is_commutative};
use crate::names::{card_file, card_file_name, card_files_differ};
use crate::product::Rect;
use crate::text::texts_of;

verus! {

/// One crop: the part `area` of the image `source` becomes the image `target`.
#[derive(Debug, Clone, PartialEq, Eq)]
pub struct CropJob {
    pub source: String,
    pub target: String,
    pub area: Rect,
}

/// The mathematical value of a `CropJob`.
pub struct Crop {
    pub source: Seq<char>,
    pub target: Seq<char>,
    pub area: Rect,
}

impl View for CropJob {
    type V = Crop;

    open spec fn view(&self) -> Crop {
        Crop { source: self.source@, target: self.target@, area: self.area }
    }
}

/// One copy: the image `source` becomes the image `target`.
#[derive(Debug, Clone, PartialEq, Eq)]
pub struct CopyJob {
    pub source: String,
    pub target: String,
}

/// The mathematical value of a `CopyJob`.
pub struct Copying {
    pub source: Seq<char>,
    pub target: Seq<char>,
}

impl View for CopyJob {
    type V = Copying;

    open spec fn view(&self) -> Copying {
        Copying { source: self.source@, target: self.target@ }
    }
}

/// The values of a sequence of crops.
pub open spec fn crops_of(jobs: Seq<CropJob>) -> Seq<Crop> {
    jobs.map_values(|j: CropJob| j@)
}

/// The values of a sequence of copies.
pub open spec fn copyings_of(jobs: Seq<CopyJob>) -> Seq<Copying> {
    jobs.map_values(|j: CopyJob| j@)
}

/// The crops of the page stage: page `i` of `pages`, cut down to `area`,
/// becomes image `i`; none where the stage is `done`.
pub open spec fn page_crops(done: bool, pages: Seq<Seq<char>>, area: Rect) -> Seq<Crop> {
    if done {
        Seq::empty()
    } else {
        Seq::new(
            pages.len(),
            |i: int| Crop { source: pages[i], target: card_file(i), area },
        )
    }
}

/// The position of the card in cell `cell` of page `page`, where every page
/// has `cells` cells.
pub open spec fn grid_position(offset: int, cells: int, page: int, cell: int) -> int {
    1 + offset + page * cells + cell
}

/// The crops of the cutout stage: the cells of the first page in order, then
/// those of the second, and so on, numbered from `1 + offset`; none where
/// the stage is `done`.
pub open spec fn cutouts(done: bool, pages: Seq<Seq<char>>, cells: Seq<Rect>, offset: int) -> Seq<
    Crop,
> {
    if done {
        Seq::empty()
    } else {
        Seq::new(
            pages.len() * cells.len(),
            |k: int|
                Crop {
                    source: pages[k / cells.len() as int],
                    target: card_file(
                        grid_position(
                            offset,
                            cells.len() as int,
                            k / cells.len() as int,
                            k % cells.len() as int,
                        ),
                    ),
                    area: cells[k % cells.len() as int],
                },
        )
    }
}

/// The position of page `index` where whole pages are cards: the first
/// `skip` pages take the last positions of the `length` positions that start
/// at `shift`, the others count up from `shift`.
pub open spec fn shifted_position(index: int, skip: int, shift: int, length: int) -> int {
    if index < skip {
        length - skip + index + shift
    } else {
        index - skip + shift
    }
}

/// The copies of the shift stage: page `i` of `pages` becomes the image at
/// its shifted position; none where the stage is `done`.
pub open spec fn shifted_copies(
    done: bool,
    pages: Seq<Seq<char>>,
    skip: int,
    shift: int,
    length: int,
) -> Seq<Copying> {
    if done {
        Seq::empty()
    } else {
        Seq::new(
            pages.len(),
            |i: int|
                Copying {
                    source: pages[i],
                    target: card_file(shifted_position(i, skip, shift, length)),
                },
        )
    }
}

/// Plans the page stage. `done` says that the stage's directory is there
/// already; then nothing is cropped.
pub fn plan_page_crops(done: bool, pages: &Vec<String>, area: Rect) -> (jobs: Vec<CropJob>)
    requires
        pages.len() <= i64::MAX,
    ensures
        crops_of(jobs@) == page_crops(done, texts_of(pages@), area),
        done ==> jobs@.len() == 0,
{
    let mut jobs: Vec<CropJob> = Vec::new();
    if done {
        assert(crops_of(jobs@) =~= page_crops(done, texts_of(pages@), area));
        return jobs;
    }
    let mut i: usize = 0;
    while i < pages.len()
        invariant
            i <= pages.len() <= i64::MAX,
            jobs.len() == i,
            forall|k: int|
                0 <= k < i ==> (#[trigger] jobs[k])@ == page_crops(
                    false,
                    texts_of(pages@),
                    area,
                )[k],
        decreases pages.len() - i,
    {
        jobs.push(CropJob { source: pages[i].clone(), target: card_file_name(i as i64), area });
        i += 1;
    }
    assert(crops_of(jobs@) =~= page_crops(done, texts_of(pages@), area));
    jobs
}

/// Plans the cutout stage. `done` says that the stage's directory is there
/// already; then nothing is cut.
pub fn plan_cutouts(done: bool, pages: &Vec<String>, cells: &Vec<Rect>, offset: u32) -> (jobs: Vec<
    CropJob,
>)
    requires
        1 + offset + pages.len() * cells.len() <= i64::MAX,
    ensures
        crops_of(jobs@) == cutouts(done, texts_of(pages@), cells@, offset as int),
        done ==> jobs@.len() == 0,
{
    let mut jobs: Vec<CropJob> = Vec::new();
    if done {
        assert(crops_of(jobs@) =~= cutouts(done, texts_of(pages@), cells@, offset as int));
        return jobs;
    }
    let ghost wanted = cutouts(false, texts_of(pages@), cells@, offset as int);
    let mut position: i64 = 1 + offset as i64;
    let mut p: usize = 0;
    assert(0 * cells.len() == 0) by (nonlinear_arith);
    while p < pages.len()
        invariant
            p <= pages.len(),
            1 + offset + pages.len() * cells.len() <= i64::MAX,
            wanted == cutouts(false, texts_of(pages@), cells@, offset as int),
            jobs.len() == p * cells.len(),
            position == 1 + offset + p * cells.len(),
            forall|k: int| 0 <= k < jobs.len() ==> (#[trigger] jobs[k])@ == wanted[k],
        decreases pages.len() - p,
    {
        let mut c: usize = 0;
        proof {
            lemma_mul_inequality(p as int + 1, pages.len() as int, cells.len() as int);
            assert((p + 1) * cells.len() == p * cells.len() + cells.len()) by (nonlinear_arith);
        }
        while c < cells.len()
            invariant
                c <= cells.len(),
                p < pages.len(),
                (p + 1) * cells.len() <= pages.len() * cells.len(),
                (p + 1) * cells.len() == p * cells.len() + cells.len(),
                1 + offset + pages.len() * cells.len() <= i64::MAX,
                wanted == cutouts(false, texts_of(pages@), cells@, offset as int),
                jobs.len() == p * cells.len() + c,
                position == 1 + offset + p * cells.len() + c,
                forall|k: int| 0 <= k < jobs.len() ==> (#[trigger] jobs[k])@ == wanted[k],
            decreases cells.len() - c,
        {
            proof {
                let k = p * cells.len() + c;
                lemma_mul_is_commutative(p as int, cells.len() as int);
                lemma_fundamental_div_mod_converse(
                    k as int,
                    cells.len() as int,
                    p as int,
                    c as int,
                );
            }
            jobs.push(
                CropJob {
                    source: pages[p].clone(),
                    target: card_file_name(position),
                    area: cells[c],
                },
            );
            position += 1;
            c += 1;
        }
        p += 1;
    }
    assert(crops_of(jobs@) =~= wanted);
    jobs
}

/// Plans the shift stage. `done` says that the stage's directory is there
/// already; then nothing is copied.
pub fn plan_shifted_copies(
    done: bool,
    pages: &Vec<String>,
    skip: usize,
    shift: usize,
    length: usize,
) -> (jobs: Vec<CopyJob>)
    requires
        skip <= length,
        length + shift <= i64::MAX,
        pages.len() + shift <= i64::MAX,
    ensures
        copyings_of(jobs@) == shifted_copies(
            done,
            texts_of(pages@),
            skip as int,
            shift as int,
            length as int,
        ),
        done ==> jobs@.len() == 0,
{
    let mut jobs: Vec<CopyJob> = Vec::new();
    let ghost wanted = shifted_copies(
        done,
        texts_of(pages@),
        skip as int,
        shift as int,
        length as int,
    );
    if done {
        assert(copyings_of(jobs@) =~= wanted);
        return jobs;
    }
    let mut i: usize = 0;
    while i < pages.len()
        invariant
            i <= pages.len(),
            !done,
            skip <= length,
            length + shift <= i64::MAX,
            pages.len() + shift <= i64::MAX,
            wanted == shifted_copies(
                done,
                texts_of(pages@),
                skip as int,
                shift as int,
                length as int,
            ),
            jobs.len() == i,
            forall|k: int| 0 <= k < i ==> (#[trigger] jobs[k])@ == wanted[k],
        decreases pages.len() - i,
    {
        let position: u64 = if i < skip {
            length as u64 - skip as u64 + i as u64 + shift as u64
        } else {
            i as u64 - skip as u64 + shift as u64
        };
        jobs.push(CopyJob { source: pages[i].clone(), target: card_file_name(position as i64) });
        i += 1;
    }
    assert(copyings_of(jobs@) =~= wanted);
    jobs
}

/// The page on which the card at `position` lies.
pub open spec fn page_at(offset: int, cells: int, position: int) -> int {
    (position - 1 - offset) / cells
}

/// The cell of its page in which the card at `position` lies.
pub open spec fn cell_at(offset: int, cells: int, position: int) -> int {
    (position - 1 - offset) % cells
}

/// Grid numbering is one-to-one between the cells of the pages and the
/// positions from `1 + offset` on: every cell gets a position of the range
/// of `pages * cells` positions that starts there, no two cells get the same
/// one, and every position of that range belongs to a cell.
pub proof fn grid_numbering_is_a_bijection(offset: int, pages: int, cells: int)
    requires
        0 <= pages,
        0 <= cells,
    ensures
        forall|page: int, cell: int|
            0 <= page < pages && 0 <= cell < cells ==> 1 + offset <= #[trigger] grid_position(
                offset,
                cells,
                page,
                cell,
            ) < 1 + offset + pages * cells,
        forall|page: int, cell: int, other_page: int, other_cell: int|
            0 <= page < pages && 0 <= cell < cells && 0 <= other_page < pages && 0 <= other_cell
                < cells && #[trigger] grid_position(offset, cells, page, cell)
                == #[trigger] grid_position(offset, cells, other_page, other_cell) ==> page
                == other_page && cell == other_cell,
        forall|position: int|
            #![trigger page_at(offset, cells, position)]
            1 + offset <= position < 1 + offset + pages * cells ==> {
                &&& 0 <= page_at(offset, cells, position) < pages
                &&& 0 <= cell_at(offset, cells, position) < cells
                &&& grid_position(
                    offset,
                    cells,
                    page_at(offset, cells, position),
                    cell_at(offset, cells, position),
                ) == position
            },
{
    assert forall|page: int, cell: int| 0 <= page < pages && 0 <= cell < cells implies 1 + offset
        <= #[trigger] grid_position(offset, cells, page, cell) < 1 + offset + pages * cells by {
        lemma_mul_inequality(page + 1, pages, cells);
        assert((page + 1) * cells == page * cells + cells) by (nonlinear_arith);
        assert(0 <= page * cells) by (nonlinear_arith)
            requires
                0 <= page,
                0 <= cells,
        ;
    }
    assert forall|page: int, cell: int, other_page: int, other_cell: int|
        0 <= page < pages && 0 <= cell < cells && 0 <= other_page < pages && 0 <= other_cell
            < cells && #[trigger] grid_position(offset, cells, page, cell)
            == #[trigger] grid_position(
            offset,
            cells,
            other_page,
            other_cell,
        ) implies page == other_page && cell == other_cell by {
        let k = page * cells + cell;
        lemma_mul_is_commutative(page, cells);
        lemma_mul_is_commutative(other_page, cells);
        lemma_fundamental_div_mod_converse(k, cells, page, cell);
        lemma_fundamental_div_mod_converse(k, cells, other_page, other_cell);
    }
    assert forall|position: int|
        #![trigger page_at(offset, cells, position)]
        1 + offset <= position < 1 + offset + pages * cells implies {
        &&& 0 <= page_at(offset, cells, position) < pages
        &&& 0 <= cell_at(offset, cells, position) < cells
        &&& grid_position(
            offset,
            cells,
            page_at(offset, cells, position),
            cell_at(offset, cells, position),
        ) == position
    } by {
        let k = position - 1 - offset;
        assert(cells > 0) by (nonlinear_arith)
            requires
                0 <= k < pages * cells,
                0 <= cells,
        ;
        lemma_fundamental_div_mod(k, cells);
        lemma_mul_is_commutative(k / cells, cells);
        assert(0 <= k / cells < pages) by (nonlinear_arith)
            requires
                0 <= k < pages * cells,
                cells > 0,
                k == cells * (k / cells) + k % cells,
                0 <= k % cells < cells,
        ;
    }
}

/// No two cutouts of a stage write the same image.
pub proof fn cutouts_write_different_images(
    pages: Seq<Seq<char>>,
    cells: Seq<Rect>,
    offset: int,
    j: int,
    k: int,
)
    requires
        0 <= j < k < cutouts(false, pages, cells, offset).len(),
    ensures
        cutouts(false, pages, cells, offset)[j].target != cutouts(
            false,
            pages,
            cells,
            offset,
        )[k].target,
{
    let n = cells.len() as int;
    assert(n > 0) by (nonlinear_arith)
        requires
            0 <= k < pages.len() * n,
            0 <= n,
    ;
    lemma_fundamental_div_mod(j, n);
    lemma_fundamental_div_mod(k, n);
    lemma_mul_is_commutative(j / n, n);
    lemma_mul_is_commutative(k / n, n);
    let a = grid_position(offset, n, j / n, j % n);
    let b = grid_position(offset, n, k / n, k % n);
    assert(a == 1 + offset + j && b == 1 + offset + k);
    if card_file(a) == card_file(b) {
        card_files_differ(a, b);
    }
}

/// Shift numbering is one-to-one on the first `length` pages, and gives
/// them the `length` positions that start at `shift`.
pub proof fn shift_numbering_is_one_to_one(skip: int, shift: int, length: int, i: int, j: int)
    requires
        0 <= skip <= length,
        0 <= i < length,
        0 <= j < length,
    ensures
        shift <= shifted_position(i, skip, shift, length) < shift + length,
        shifted_position(i, skip, shift, length) == shifted_position(j, skip, shift, length) ==> i
            == j,
{
}

} // verus!
