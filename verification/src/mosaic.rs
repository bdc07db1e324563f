//! The tabletop mosaic of a deck: its grid of cells, and the steps that
//! stitch the cells into one image.

use vstd::prelude::*;
use vstd::string::StringExecFns;
use crate::deck::{copies, faces_of, CardFace, Deck, Face, ResolvedDeck};
use crate::names::{
    artifacts_are_told_apart, card_file, card_file_name, part_file, part_file_name, rows_file,
    rows_file_name, sheet_file, sheet_file_name, BACK_DIR, BACK_FILE, CUT_DIR,
};

verus! {

/// How many cells a full mosaic row holds.
pub const ROW_CELLS: usize = 10;

/// One cell of the mosaic: a card image, or the back image of a side.
#[derive(Debug, Clone, PartialEq, Eq)]
pub enum Cell {
    Card(CardFace),
    Back(String),
}

/// The mathematical value of a `Cell`.
pub enum CellView {
    Card(Face),
    Back(Seq<char>),
}

impl View for Cell {
    type V = CellView;

    open spec fn view(&self) -> CellView {
        match self {
            Cell::Card(face) => CellView::Card(face@),
            Cell::Back(side) => CellView::Back(side@),
        }
    }
}

/// Where the image of a cell lies below the card directory, one name per level.
pub open spec fn cell_path(cell: CellView) -> Seq<Seq<char>> {
    match cell {
        CellView::Card(face) => seq![face.pack, "cut"@, card_file(face.position)],
        CellView::Back(side) => seq!["back"@, side, "back.png"@],
    }
}

/// The values of a sequence of names.
pub open spec fn names_of(names: Seq<String>) -> Seq<Seq<char>> {
    names.map_values(|n: String| n@)
}

impl Cell {
    /// A second copy of this cell.
    pub fn duplicate(&self) -> (copy: Cell)
        ensures
            copy == *self,
    {
        match self {
            Cell::Card(face) => Cell::Card(face.duplicate()),
            Cell::Back(side) => Cell::Back(side.clone()),
        }
    }

    /// Where the image of this cell lies below the card directory.
    pub fn path(&self) -> (out: Vec<String>)
        ensures
            names_of(out@) == cell_path(self@),
    {
        let mut out: Vec<String> = Vec::new();
        match self {
            Cell::Card(face) => {
                out.push(face.pack.clone());
                out.push(String::from_str(CUT_DIR));
                out.push(card_file_name(face.position));
            },
            Cell::Back(side) => {
                out.push(String::from_str(BACK_DIR));
                out.push(side.clone());
                out.push(String::from_str(BACK_FILE));
            },
        }
        assert(names_of(out@) =~= cell_path(self@));
        out
    }
}

/// How many rows the mosaic of `cards` card images has. A deck that fills its
/// last row exactly gets one more row, which holds back images only.
pub open spec fn row_count(cards: nat) -> nat {
    cards / 10 + 1
}

/// The cell in row `row`, column `col` of the mosaic of `deck`: the deck's
/// card images in order, row by row from the top and left to right within a
/// row, then back images of the deck's side.
pub open spec fn grid_cell(deck: Deck, row: int, col: int) -> CellView {
    let cards = copies(deck.lines);
    let k = row * 10 + col;
    if 0 <= k < cards.len() {
        CellView::Card(cards[k])
    } else {
        CellView::Back(deck.side)
    }
}

/// The values of a grid of cells.
pub open spec fn grid_of(grid: Seq<Vec<Cell>>) -> Seq<Seq<CellView>> {
    grid.map_values(|row: Vec<Cell>| row@.map_values(|c: Cell| c@))
}

/// The mosaic of `deck`, as values.
pub open spec fn mosaic(deck: Deck) -> Seq<Seq<CellView>> {
    Seq::new(
        row_count(copies(deck.lines).len()),
        |row: int| Seq::new(10, |col: int| grid_cell(deck, row, col)),
    )
}

/// Lays the card images of `deck` out in rows of ten cells and fills the
/// last row with the back image of the deck's side.
pub fn lay_out(deck: &ResolvedDeck) -> (grid: Vec<Vec<Cell>>)
    ensures
        grid_of(grid@) == mosaic(deck@),
{
    let cards = deck.faces();
    let rows: usize = cards.len() / ROW_CELLS + 1;
    let mut grid: Vec<Vec<Cell>> = Vec::new();
    let mut r: usize = 0;
    while r < rows
        invariant
            r <= rows,
            rows == cards.len() / 10 + 1,
            faces_of(cards@) == copies(deck@.lines),
            grid.len() == r,
            forall|i: int| 0 <= i < r ==> #[trigger] grid_of(grid@)[i] == mosaic(deck@)[i],
        decreases rows - r,
    {
        let mut row: Vec<Cell> = Vec::new();
        let mut c: usize = 0;
        while c < ROW_CELLS
            invariant
                c <= 10,
                r < rows,
                rows == cards.len() / 10 + 1,
                faces_of(cards@) == copies(deck@.lines),
                row.len() == c,
                forall|j: int| 0 <= j < c ==> (#[trigger] row[j])@ == grid_cell(deck@, r as int, j),
            decreases 10 - c,
        {
            if r < cards.len() / ROW_CELLS || c < cards.len() % ROW_CELLS {
                let k = r * ROW_CELLS + c;
                assert(faces_of(cards@)[k as int] == cards[k as int]@);
                row.push(Cell::Card(cards[k].duplicate()));
            } else {
                row.push(Cell::Back(deck.side.clone()));
            }
            c += 1;
        }
        proof {
            assert(row@.map_values(|c: Cell| c@) =~= mosaic(deck@)[r as int]);
        }
        let ghost before = grid@;
        grid.push(row);
        proof {
            assert forall|i: int| 0 <= i < r + 1 implies #[trigger] grid_of(grid@)[i] == mosaic(
                deck@,
            )[i] by {
                if i < r {
                    assert(grid_of(grid@)[i] == grid_of(before)[i]);
                }
            }
        }
        r += 1;
    }
    assert(grid_of(grid@) =~= mosaic(deck@));
    grid
}

/// What a composition step reads: the image of a cell, below the card
/// directory, or an artifact of the mosaic's own directory.
#[derive(Debug, Clone, PartialEq, Eq)]
pub enum Input {
    Cell(Cell),
    Artifact(String),
}

/// The mathematical value of an `Input`.
pub enum InputView {
    Cell(CellView),
    Artifact(Seq<char>),
}

impl View for Input {
    type V = InputView;

    open spec fn view(&self) -> InputView {
        match self {
            Input::Cell(cell) => InputView::Cell(cell@),
            Input::Artifact(name) => InputView::Artifact(name@),
        }
    }
}

/// One step of the composition. `Copy` writes `from` to the artifact `to`.
/// `Append` writes to `to` the artifact `first` with `second` joined to it:
/// to its right where `across` holds, below it otherwise.
#[derive(Debug, Clone, PartialEq, Eq)]
pub enum Step {
    Copy { from: Input, to: String },
    Append { first: String, second: Input, to: String, across: bool },
}

/// The mathematical value of a `Step`.
pub enum StepView {
    Copy { from: InputView, to: Seq<char> },
    Append { first: Seq<char>, second: InputView, to: Seq<char>, across: bool },
}

impl View for Step {
    type V = StepView;

    open spec fn view(&self) -> StepView {
        match self {
            Step::Copy { from, to } => StepView::Copy { from: from@, to: to@ },
            Step::Append { first, second, to, across } => StepView::Append {
                first: first@,
                second: second@,
                to: to@,
                across: *across,
            },
        }
    }
}

/// The values of a sequence of steps.
pub open spec fn steps_of(steps: Seq<Step>) -> Seq<StepView> {
    steps.map_values(|s: Step| s@)
}

/// Whether `name` is among `existing`.
pub open spec fn present(existing: Seq<Seq<char>>, name: Seq<char>) -> bool {
    existing.contains(name)
}

/// The step that brings cell `cell` of row `row` into the row's strip: the
/// first cell is copied, every later one is joined to the right of the strip
/// so far.
pub open spec fn cell_step(row: nat, cells: Seq<CellView>, cell: nat) -> StepView {
    if cell == 0 {
        StepView::Copy { from: InputView::Cell(cells[0]), to: part_file(row, 0) }
    } else {
        StepView::Append {
            first: part_file(row, (cell - 1) as nat),
            second: InputView::Cell(cells[cell as int]),
            to: part_file(row, cell),
            across: true,
        }
    }
}

/// The steps for the first `upto` cells of row `row`, left to right; a cell
/// whose strip is already there takes no step.
pub open spec fn cell_steps(
    row: nat,
    cells: Seq<CellView>,
    upto: nat,
    existing: Seq<Seq<char>>,
) -> Seq<StepView>
    decreases upto,
{
    if upto == 0 {
        Seq::empty()
    } else {
        let cell = (upto - 1) as nat;
        let before = cell_steps(row, cells, cell, existing);
        if present(existing, part_file(row, cell)) {
            before
        } else {
            before.push(cell_step(row, cells, cell))
        }
    }
}

/// The step that puts the finished strip of row `row`, which has `width`
/// cells, under the rows above it; the top row is copied.
pub open spec fn stack_step(row: nat, width: nat) -> StepView {
    let strip = InputView::Artifact(part_file(row, (width - 1) as nat));
    if row == 0 {
        StepView::Copy { from: strip, to: rows_file(0) }
    } else {
        StepView::Append {
            first: rows_file((row - 1) as nat),
            second: strip,
            to: rows_file(row),
            across: false,
        }
    }
}

/// The steps for row `row`: none where the image of the rows down to this
/// one is already there; else the steps for its cells, then the stacking.
pub open spec fn row_steps(row: nat, cells: Seq<CellView>, existing: Seq<Seq<char>>) -> Seq<
    StepView,
> {
    if present(existing, rows_file(row)) {
        Seq::empty()
    } else {
        cell_steps(row, cells, cells.len(), existing).push(stack_step(row, cells.len()))
    }
}

/// The steps for the first `upto` rows of `grid`, top to bottom.
pub open spec fn rows_steps(grid: Seq<Seq<CellView>>, upto: nat, existing: Seq<Seq<char>>) -> Seq<
    StepView,
>
    decreases upto,
{
    if upto == 0 {
        Seq::empty()
    } else {
        let row = (upto - 1) as nat;
        rows_steps(grid, row, existing) + row_steps(row, grid[row as int], existing)
    }
}

/// All steps that compose the mosaic of the deck named `deck` from `grid`,
/// given the artifacts that are `existing`: the rows top to bottom, then the
/// copy of the last image to the name of the finished mosaic.
pub open spec fn composition(
    deck: Seq<char>,
    grid: Seq<Seq<CellView>>,
    existing: Seq<Seq<char>>,
) -> Seq<StepView> {
    rows_steps(grid, grid.len(), existing).push(
        StepView::Copy {
            from: InputView::Artifact(rows_file((grid.len() - 1) as nat)),
            to: sheet_file(deck),
        },
    )
}

/// Whether `name` is among `existing`.
pub fn is_present(existing: &Vec<String>, name: &String) -> (r: bool)
    ensures
        r == present(names_of(existing@), name@),
{
    let mut i: usize = 0;
    while i < existing.len()
        invariant
            i <= existing.len(),
            forall|j: int| 0 <= j < i ==> names_of(existing@)[j] != name@,
        decreases existing.len() - i,
    {
        if existing[i] == *name {
            assert(names_of(existing@)[i as int] == name@);
            return true;
        }
        i += 1;
    }
    false
}

/// Plans the composition of the mosaic of the deck named `deck`. `grid` has
/// at least one row and no empty row; `existing` names the artifacts that an
/// earlier run left in the mosaic's directory.
pub fn plan(deck: &str, grid: &Vec<Vec<Cell>>, existing: &Vec<String>) -> (steps: Vec<Step>)
    requires
        grid.len() >= 1,
        forall|r: int| 0 <= r < grid.len() ==> (#[trigger] grid[r]).len() >= 1,
    ensures
        steps_of(steps@) == composition(deck@, grid_of(grid@), names_of(existing@)),
{
    let mut steps: Vec<Step> = Vec::new();
    let mut r: usize = 0;
    while r < grid.len()
        invariant
            r <= grid.len(),
            forall|i: int| 0 <= i < grid.len() ==> (#[trigger] grid[i]).len() >= 1,
            steps_of(steps@) == rows_steps(grid_of(grid@), r as nat, names_of(existing@)),
        decreases grid.len() - r,
    {
        let row = &grid[r];
        let ghost cells = grid_of(grid@)[r as int];
        let ghost before = steps_of(steps@);
        assert(cells == row@.map_values(|c: Cell| c@));
        if !is_present(existing, &rows_file_name(r)) {
            let mut c: usize = 0;
            while c < row.len()
                invariant
                    c <= row.len(),
                    row.len() >= 1,
                    cells == row@.map_values(|c: Cell| c@),
                    steps_of(steps@) == before + cell_steps(
                        r as nat,
                        cells,
                        c as nat,
                        names_of(existing@),
                    ),
                decreases row.len() - c,
            {
                let to = part_file_name(r, c);
                if !is_present(existing, &to) {
                    let ghost prior = steps@;
                    let step = if c == 0 {
                        Step::Copy { from: Input::Cell(row[0].duplicate()), to }
                    } else {
                        Step::Append {
                            first: part_file_name(r, c - 1),
                            second: Input::Cell(row[c].duplicate()),
                            to,
                            across: true,
                        }
                    };
                    assert(step@ == cell_step(r as nat, cells, c as nat));
                    steps.push(step);
                    assert(steps_of(steps@) =~= steps_of(prior).push(step@));
                }
                assert(steps_of(steps@) =~= before + cell_steps(
                    r as nat,
                    cells,
                    (c + 1) as nat,
                    names_of(existing@),
                ));
                c += 1;
            }
            let strip = Input::Artifact(part_file_name(r, row.len() - 1));
            let step = if r == 0 {
                Step::Copy { from: strip, to: rows_file_name(0) }
            } else {
                Step::Append {
                    first: rows_file_name(r - 1),
                    second: strip,
                    to: rows_file_name(r),
                    across: false,
                }
            };
            assert(step@ == stack_step(r as nat, cells.len()));
            let ghost prior = steps@;
            steps.push(step);
            assert(steps_of(steps@) =~= steps_of(prior).push(step@));
        }
        assert(steps_of(steps@) =~= before + row_steps(r as nat, cells, names_of(existing@)));
        r += 1;
    }
    let last = Step::Copy {
        from: Input::Artifact(rows_file_name(grid.len() - 1)),
        to: sheet_file_name(deck),
    };
    let ghost prior = steps@;
    steps.push(last);
    assert(steps_of(steps@) =~= steps_of(prior).push(last@));
    steps
}

/// Plans the composition of the mosaic of `deck`, which is named `id`:
/// the deck is laid out, and the steps for its grid are planned.
pub fn plan_mosaic(id: &str, deck: &ResolvedDeck, existing: &Vec<String>) -> (steps: Vec<Step>)
    ensures
        steps_of(steps@) == composition(id@, mosaic(deck@), names_of(existing@)),
{
    let grid = lay_out(deck);
    proof {
        assert(grid_of(grid@).len() == grid.len());
        assert(mosaic(deck@).len() >= 1);
        assert forall|r: int| 0 <= r < grid.len() implies (#[trigger] grid[r]).len() >= 1 by {
            assert(grid_of(grid@)[r] == mosaic(deck@)[r]);
            assert(grid_of(grid@)[r].len() == grid[r]@.len());
        }
    }
    plan(id, &grid, existing)
}

/// Every row of a mosaic has ten cells; read row by row from the top and
/// left to right, the cells are the deck's card images in decklist order,
/// and every cell after them is the back image of the deck's side.
pub proof fn mosaic_keeps_order(deck: Deck)
    ensures
        mosaic(deck).len() == copies(deck.lines).len() / 10 + 1,
        forall|r: int| 0 <= r < mosaic(deck).len() ==> (#[trigger] mosaic(deck)[r]).len() == 10,
        forall|k: int|
            0 <= k < copies(deck.lines).len() ==> mosaic(deck)[k / 10][k % 10] == CellView::Card(
                #[trigger] copies(deck.lines)[k],
            ),
        forall|r: int, c: int|
            0 <= r < mosaic(deck).len() && 0 <= c < 10 && r * 10 + c >= copies(deck.lines).len()
                ==> #[trigger] mosaic(deck)[r][c] == CellView::Back(deck.side),
{
}

/// Where the card images of a deck do not fill a whole number of rows, the
/// mosaic has as many rows as the images need, rounded up, and the last row
/// holds the remaining images followed by back images up to ten cells.
pub proof fn last_row_is_padded(deck: Deck)
    requires
        copies(deck.lines).len() % 10 != 0,
    ensures
        mosaic(deck).len() == (copies(deck.lines).len() + 9) / 10,
        mosaic(deck).last().len() == 10,
        forall|c: int|
            0 <= c < copies(deck.lines).len() % 10 ==> #[trigger] mosaic(deck).last()[c]
                == CellView::Card(copies(deck.lines)[(mosaic(deck).len() - 1) * 10 + c]),
        forall|c: int|
            copies(deck.lines).len() % 10 <= c < 10 ==> #[trigger] mosaic(deck).last()[c]
                == CellView::Back(deck.side),
{
}

/// Where the image of the rows down to each row is already there, nothing is
/// composed again: the only step left is the copy to the finished mosaic.
pub proof fn finished_rows_take_no_steps(
    deck: Seq<char>,
    grid: Seq<Seq<CellView>>,
    existing: Seq<Seq<char>>,
    upto: nat,
)
    requires
        upto <= grid.len(),
        forall|r: nat| r < upto ==> present(existing, #[trigger] rows_file(r)),
    ensures
        rows_steps(grid, upto, existing) == Seq::<StepView>::empty(),
        upto == grid.len() ==> composition(deck, grid, existing).len() == 1,
    decreases upto,
{
    if upto > 0 {
        finished_rows_take_no_steps(deck, grid, existing, (upto - 1) as nat);
        assert(present(existing, rows_file((upto - 1) as nat)));
    }
}

/// The artifact that a step writes.
pub open spec fn written(step: StepView) -> Seq<char> {
    match step {
        StepView::Copy { to, .. } => to,
        StepView::Append { to, .. } => to,
    }
}

/// Whether a step reads the artifact `name`.
pub open spec fn reads(step: StepView, name: Seq<char>) -> bool {
    match step {
        StepView::Copy { from, .. } => from == InputView::Artifact(name),
        StepView::Append { first, second, .. } => first == name || second == InputView::Artifact(
            name,
        ),
    }
}

/// Whether the artifact `name` is there once `steps` are done: it was
/// among `existing`, or one of the steps writes it.
pub open spec fn at_hand(existing: Seq<Seq<char>>, steps: Seq<StepView>, name: Seq<char>) -> bool {
    present(existing, name) || exists|j: int|
        0 <= j < steps.len() && written(#[trigger] steps[j]) == name
}

/// Whether each of `steps` finds the artifacts that it reads: each was
/// among `existing` or is written by an earlier step.
pub open spec fn runnable(existing: Seq<Seq<char>>, steps: Seq<StepView>) -> bool {
    forall|k: int, name: Seq<char>|
        #![trigger reads(steps[k], name)]
        0 <= k < steps.len() && reads(steps[k], name) ==> at_hand(existing, steps.take(k), name)
}

/// Whether none of `steps` writes an artifact that was among `existing`.
pub open spec fn fresh(existing: Seq<Seq<char>>, steps: Seq<StepView>) -> bool {
    forall|k: int| 0 <= k < steps.len() ==> !present(existing, written(#[trigger] steps[k]))
}

proof fn stays_at_hand(
    existing: Seq<Seq<char>>,
    steps: Seq<StepView>,
    more: Seq<StepView>,
    name: Seq<char>,
)
    requires
        at_hand(existing, steps, name),
    ensures
        at_hand(existing, steps + more, name),
{
    if !present(existing, name) {
        let j = choose|j: int| 0 <= j < steps.len() && written(#[trigger] steps[j]) == name;
        assert((steps + more)[j] == steps[j]);
    }
}

proof fn one_more_step(existing: Seq<Seq<char>>, steps: Seq<StepView>, step: StepView)
    requires
        runnable(existing, steps),
        forall|name: Seq<char>| #[trigger] reads(step, name) ==> at_hand(existing, steps, name),
    ensures
        runnable(existing, steps.push(step)),
        at_hand(existing, steps.push(step), written(step)),
{
    let all = steps.push(step);
    assert forall|k: int, name: Seq<char>|
        #![trigger reads(all[k], name)]
        0 <= k < all.len() && reads(all[k], name) implies at_hand(
        existing,
        all.take(k),
        name,
    ) by {
        if k < steps.len() {
            assert(all.take(k) =~= steps.take(k));
            assert(reads(steps[k], name));
        } else {
            assert(all.take(k) =~= steps);
        }
    }
    assert(all[steps.len() as int] == step);
}

proof fn cells_are_runnable(
    earlier: Seq<StepView>,
    row: nat,
    cells: Seq<CellView>,
    upto: nat,
    existing: Seq<Seq<char>>,
)
    requires
        runnable(existing, earlier),
    ensures
        runnable(existing, earlier + cell_steps(row, cells, upto, existing)),
        upto > 0 ==> at_hand(
            existing,
            earlier + cell_steps(row, cells, upto, existing),
            part_file(row, (upto - 1) as nat),
        ),
    decreases upto,
{
    if upto == 0 {
        assert(earlier + cell_steps(row, cells, upto, existing) =~= earlier);
    } else {
        let cell = (upto - 1) as nat;
        let before = earlier + cell_steps(row, cells, cell, existing);
        cells_are_runnable(earlier, row, cells, cell, existing);
        if !present(existing, part_file(row, cell)) {
            let step = cell_step(row, cells, cell);
            one_more_step(existing, before, step);
            assert(before.push(step) =~= earlier + cell_steps(row, cells, upto, existing));
        }
    }
}

proof fn rows_are_runnable(grid: Seq<Seq<CellView>>, upto: nat, existing: Seq<Seq<char>>)
    requires
        upto <= grid.len(),
        forall|r: int| 0 <= r < grid.len() ==> (#[trigger] grid[r]).len() >= 1,
    ensures
        runnable(existing, rows_steps(grid, upto, existing)),
        upto > 0 ==> at_hand(
            existing,
            rows_steps(grid, upto, existing),
            rows_file((upto - 1) as nat),
        ),
    decreases upto,
{
    if upto > 0 {
        let row = (upto - 1) as nat;
        let cells = grid[row as int];
        let earlier = rows_steps(grid, row, existing);
        rows_are_runnable(grid, row, existing);
        if present(existing, rows_file(row)) {
            assert(earlier + row_steps(row, cells, existing) =~= earlier);
        } else {
            let strips = earlier + cell_steps(row, cells, cells.len(), existing);
            cells_are_runnable(earlier, row, cells, cells.len(), existing);
            let step = stack_step(row, cells.len());
            assert forall|name: Seq<char>| #[trigger] reads(step, name) implies at_hand(
                existing,
                strips,
                name,
            ) by {
                if name != part_file(row, (cells.len() - 1) as nat) {
                    stays_at_hand(
                        existing,
                        earlier,
                        cell_steps(row, cells, cells.len(), existing),
                        name,
                    );
                }
            }
            one_more_step(existing, strips, step);
            assert(strips.push(step) =~= earlier + row_steps(row, cells, existing));
        }
    }
}

/// A planned composition can be carried out step by step: whatever
/// artifact a step reads was there before or is written by an earlier step.
pub proof fn composition_is_runnable(
    deck: Seq<char>,
    grid: Seq<Seq<CellView>>,
    existing: Seq<Seq<char>>,
)
    requires
        grid.len() >= 1,
        forall|r: int| 0 <= r < grid.len() ==> (#[trigger] grid[r]).len() >= 1,
    ensures
        runnable(existing, composition(deck, grid, existing)),
{
    rows_are_runnable(grid, grid.len(), existing);
    let rows = rows_steps(grid, grid.len(), existing);
    let last = StepView::Copy {
        from: InputView::Artifact(rows_file((grid.len() - 1) as nat)),
        to: sheet_file(deck),
    };
    one_more_step(existing, rows, last);
}

proof fn cells_are_fresh(row: nat, cells: Seq<CellView>, upto: nat, existing: Seq<Seq<char>>)
    ensures
        fresh(existing, cell_steps(row, cells, upto, existing)),
    decreases upto,
{
    if upto > 0 {
        cells_are_fresh(row, cells, (upto - 1) as nat, existing);
    }
}

/// No step for the rows writes an artifact that was there before: what an
/// earlier run has composed is not composed again.
pub proof fn rows_are_fresh(grid: Seq<Seq<CellView>>, upto: nat, existing: Seq<Seq<char>>)
    requires
        upto <= grid.len(),
    ensures
        fresh(existing, rows_steps(grid, upto, existing)),
    decreases upto,
{
    if upto > 0 {
        let row = (upto - 1) as nat;
        rows_are_fresh(grid, row, existing);
        cells_are_fresh(row, grid[row as int], grid[row as int].len(), existing);
    }
}

/// Whether `name` is the name of an artifact of row `row`: of one of its
/// strips, or of the image of the rows down to it.
pub open spec fn belongs_to_row(name: Seq<char>, row: nat) -> bool {
    name == rows_file(row) || exists|cell: nat| name == #[trigger] part_file(row, cell)
}

/// Whether no two of `steps` write the same artifact.
pub open spec fn written_once(steps: Seq<StepView>) -> bool {
    forall|j: int, k: int|
        0 <= j < k < steps.len() ==> written(#[trigger] steps[j]) != written(#[trigger] steps[k])
}

proof fn rows_share_no_artifact(name: Seq<char>, row: nat, other: Seq<char>, other_row: nat)
    requires
        belongs_to_row(name, row),
        belongs_to_row(other, other_row),
        row != other_row,
    ensures
        name != other,
{
    if name == rows_file(row) {
        if other == rows_file(other_row) {
            artifacts_are_told_apart(row, 0, other_row, 0);
        } else {
            let cell = choose|cell: nat| other == #[trigger] part_file(other_row, cell);
            artifacts_are_told_apart(other_row, cell, row, 0);
        }
    } else {
        let cell = choose|cell: nat| name == #[trigger] part_file(row, cell);
        if other == rows_file(other_row) {
            artifacts_are_told_apart(row, cell, other_row, 0);
        } else {
            let other_cell = choose|other_cell: nat|
                other == #[trigger] part_file(other_row, other_cell);
            artifacts_are_told_apart(row, cell, other_row, other_cell);
        }
    }
}

proof fn cells_are_written_once(
    row: nat,
    cells: Seq<CellView>,
    upto: nat,
    existing: Seq<Seq<char>>,
)
    ensures
        written_once(cell_steps(row, cells, upto, existing)),
        forall|k: int|
            0 <= k < cell_steps(row, cells, upto, existing).len() ==> exists|cell: nat|
                cell < upto && written(#[trigger] cell_steps(row, cells, upto, existing)[k])
                    == #[trigger] part_file(row, cell),
    decreases upto,
{
    if upto > 0 {
        let cell = (upto - 1) as nat;
        let before = cell_steps(row, cells, cell, existing);
        let all = cell_steps(row, cells, upto, existing);
        cells_are_written_once(row, cells, cell, existing);
        assert forall|k: int| 0 <= k < all.len() implies exists|c: nat|
            c < upto && written(#[trigger] all[k]) == #[trigger] part_file(row, c) by {
            if k < before.len() {
                let c = choose|c: nat|
                    c < cell && written(before[k]) == #[trigger] part_file(row, c);
                assert(c < upto && written(all[k]) == part_file(row, c));
            } else {
                assert(written(all[k]) == part_file(row, cell));
            }
        }
        assert forall|j: int, k: int| 0 <= j < k < all.len() implies written(#[trigger] all[j])
            != written(#[trigger] all[k]) by {
            if k >= before.len() {
                let c = choose|c: nat|
                    c < cell && written(before[j]) == #[trigger] part_file(row, c);
                artifacts_are_told_apart(row, c, row, cell);
            }
        }
    }
}

proof fn one_row_is_written_once(row: nat, cells: Seq<CellView>, existing: Seq<Seq<char>>)
    ensures
        written_once(row_steps(row, cells, existing)),
        forall|k: int|
            0 <= k < row_steps(row, cells, existing).len() ==> belongs_to_row(
                written(#[trigger] row_steps(row, cells, existing)[k]),
                row,
            ),
{
    let all = row_steps(row, cells, existing);
    let strips = cell_steps(row, cells, cells.len(), existing);
    cells_are_written_once(row, cells, cells.len(), existing);
    assert forall|k: int| 0 <= k < all.len() implies belongs_to_row(
        written(#[trigger] all[k]),
        row,
    ) by {
        if k < strips.len() {
            let c = choose|c: nat|
                c < cells.len() && written(strips[k]) == #[trigger] part_file(row, c);
            assert(written(all[k]) == part_file(row, c));
        }
    }
    assert forall|j: int, k: int| 0 <= j < k < all.len() implies written(#[trigger] all[j])
        != written(#[trigger] all[k]) by {
        if k >= strips.len() {
            let c = choose|c: nat|
                c < cells.len() && written(strips[j]) == #[trigger] part_file(row, c);
            artifacts_are_told_apart(row, c, row, 0);
        }
    }
}

/// Whether `name` is the name of an artifact of one of the first `upto`
/// rows.
pub open spec fn belongs_above(name: Seq<char>, upto: nat) -> bool {
    exists|row: nat| row < upto && #[trigger] belongs_to_row(name, row)
}

proof fn rows_are_written_once(grid: Seq<Seq<CellView>>, upto: nat, existing: Seq<Seq<char>>)
    requires
        upto <= grid.len(),
    ensures
        written_once(rows_steps(grid, upto, existing)),
        forall|k: int|
            0 <= k < rows_steps(grid, upto, existing).len() ==> belongs_above(
                written(#[trigger] rows_steps(grid, upto, existing)[k]),
                upto,
            ),
    decreases upto,
{
    if upto > 0 {
        let row = (upto - 1) as nat;
        let earlier = rows_steps(grid, row, existing);
        let added = row_steps(row, grid[row as int], existing);
        let all = rows_steps(grid, upto, existing);
        rows_are_written_once(grid, row, existing);
        one_row_is_written_once(row, grid[row as int], existing);
        assert forall|k: int| 0 <= k < all.len() implies belongs_above(
            written(#[trigger] all[k]),
            upto,
        ) by {
            if k < earlier.len() {
                assert(belongs_above(written(earlier[k]), row));
                let r = choose|r: nat|
                    r < row && #[trigger] belongs_to_row(written(earlier[k]), r);
                assert(r < upto && belongs_to_row(written(all[k]), r));
            } else {
                assert(all[k] == added[k - earlier.len()]);
                assert(belongs_to_row(written(all[k]), row));
            }
        }
        assert forall|j: int, k: int| 0 <= j < k < all.len() implies written(#[trigger] all[j])
            != written(#[trigger] all[k]) by {
            if k >= earlier.len() {
                assert(all[k] == added[k - earlier.len()]);
                if j >= earlier.len() {
                    assert(all[j] == added[j - earlier.len()]);
                } else {
                    assert(belongs_above(written(earlier[j]), row));
                    let r = choose|r: nat|
                        r < row && #[trigger] belongs_to_row(written(earlier[j]), r);
                    rows_share_no_artifact(written(all[j]), r, written(all[k]), row);
                }
            }
        }
    }
}

/// No artifact is written twice: the steps of a composition write
/// different artifacts, so that what one step has written is never taken
/// for the work of an earlier run.
pub proof fn no_artifact_is_written_twice(
    deck: Seq<char>,
    grid: Seq<Seq<CellView>>,
    existing: Seq<Seq<char>>,
)
    ensures
        written_once(composition(deck, grid, existing)),
{
    reveal_strlit("_-");
    reveal_strlit("part-");
    let rows = rows_steps(grid, grid.len(), existing);
    let all = composition(deck, grid, existing);
    rows_are_written_once(grid, grid.len(), existing);
    assert forall|j: int, k: int| 0 <= j < k < all.len() implies written(#[trigger] all[j])
        != written(#[trigger] all[k]) by {
        if k >= rows.len() {
            assert(belongs_above(written(rows[j]), grid.len()));
            let r = choose|r: nat|
                r < grid.len() && #[trigger] belongs_to_row(written(rows[j]), r);
            assert(written(all[k]) == sheet_file(deck));
            assert(sheet_file(deck)[0] == '_');
            if written(rows[j]) == rows_file(r) {
                assert(rows_file(r)[0] == 'p');
            } else {
                let c = choose|c: nat| written(rows[j]) == #[trigger] part_file(r, c);
                assert(part_file(r, c)[0] == 'p');
            }
        }
    }
}

} // verus!
