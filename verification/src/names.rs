//! The file names of pages, card images and mosaic artifacts.

use vstd::prelude::*;
use vstd::string::StringExecFns;
use crate::text::{
    decimal_len_bounds, is_digit, padded_is_digits, padding_is_one_to_one, push_padded,
    push_signed_padded, signed_padded, zero_padded,
};

verus! {

/// The directory of the cache, below the card directory.
pub const CACHE_DIR: &'static str = "cache";

/// The directory of the back images, below the card directory.
pub const BACK_DIR: &'static str = "back";

/// The directory of the mosaics, below the card directory.
pub const MOSAIC_DIR: &'static str = "tts";

/// The directory of a product's card images, below the product's directory.
pub const CUT_DIR: &'static str = "cut";

/// The directory of a product's cropped pages.
pub const CROP_DIR: &'static str = "crop";

/// The directory of a product's rasterized pages.
pub const EXTRACT_DIR: &'static str = "extract";

/// The directory of a product's source document.
pub const DOWNLOAD_DIR: &'static str = "download";

/// The file name of a product's source document.
pub const SET_FILE: &'static str = "set.pdf";

/// The file name of a back image as it was downloaded.
pub const RAW_BACK_FILE: &'static str = "raw.png";

/// The file name of a back image.
pub const BACK_FILE: &'static str = "back.png";

/// What the rasterizer puts before the number in the name of a page file.
pub const PAGE_STEM: &'static str = "x";

/// The name of the card image at `position`: `c-005.png` for position 5.
pub open spec fn card_file(position: int) -> Seq<char> {
    "c-"@ + signed_padded(position, 3) + ".png"@
}

/// What the name of rasterized page `index` begins with: `x-005` for page 5.
pub open spec fn page_prefix(index: nat) -> Seq<char> {
    "x-"@ + zero_padded(index, 3)
}

/// The name that the rasterizer gives the image of page `index`.
pub open spec fn page_file(index: nat) -> Seq<char> {
    page_prefix(index) + ".png"@
}

/// The name of the strip that holds the cells `0..=cell` of mosaic row `row`.
pub open spec fn part_file(row: nat, cell: nat) -> Seq<char> {
    "part-"@ + zero_padded(row, 2) + "-"@ + zero_padded(cell, 2) + ".png"@
}

/// The name of the image that holds the mosaic rows `0..=row`.
pub open spec fn rows_file(row: nat) -> Seq<char> {
    "part-"@ + zero_padded(row, 2) + "-XX.png"@
}

/// The name of the finished mosaic of the deck `deck`.
pub open spec fn sheet_file(deck: Seq<char>) -> Seq<char> {
    "_-"@ + deck + ".png"@
}

pub fn card_file_name(position: i64) -> (name: String)
    ensures
        name@ == card_file(position as int),
{
    let mut name = String::new();
    name.append("c-");
    push_signed_padded(&mut name, position, 3);
    name.append(".png");
    assert(name@ =~= card_file(position as int));
    name
}

pub fn page_prefix_name(index: u64) -> (name: String)
    ensures
        name@ == page_prefix(index as nat),
{
    let mut name = String::new();
    name.append("x-");
    push_padded(&mut name, index, 3);
    assert(name@ =~= page_prefix(index as nat));
    name
}

pub fn part_file_name(row: usize, cell: usize) -> (name: String)
    ensures
        name@ == part_file(row as nat, cell as nat),
{
    let mut name = String::new();
    name.append("part-");
    push_padded(&mut name, row as u64, 2);
    name.append("-");
    push_padded(&mut name, cell as u64, 2);
    name.append(".png");
    assert(name@ =~= part_file(row as nat, cell as nat));
    name
}

pub fn rows_file_name(row: usize) -> (name: String)
    ensures
        name@ == rows_file(row as nat),
{
    let mut name = String::new();
    name.append("part-");
    push_padded(&mut name, row as u64, 2);
    name.append("-XX.png");
    assert(name@ =~= rows_file(row as nat));
    name
}

pub fn sheet_file_name(deck: &str) -> (name: String)
    ensures
        name@ == sheet_file(deck@),
{
    let mut name = String::new();
    name.append("_-");
    name.append(deck);
    name.append(".png");
    assert(name@ =~= sheet_file(deck@));
    name
}

/// Two texts that begin with digits and go on with something else are
/// the same only where the digits are the same and the rest is.
proof fn digits_end_where_they_end(a: Seq<char>, rest: Seq<char>, b: Seq<char>, other: Seq<char>)
    requires
        a + rest == b + other,
        forall|k: int| 0 <= k < a.len() ==> is_digit(#[trigger] a[k]),
        forall|k: int| 0 <= k < b.len() ==> is_digit(#[trigger] b[k]),
        rest.len() > 0 && !is_digit(rest[0]),
        other.len() > 0 && !is_digit(other[0]),
    ensures
        a == b,
        rest == other,
{
    if a.len() < b.len() {
        assert((a + rest)[a.len() as int] == rest[0]);
        assert((b + other)[a.len() as int] == b[a.len() as int]);
    } else if b.len() < a.len() {
        assert((b + other)[b.len() as int] == other[0]);
        assert((a + rest)[b.len() as int] == a[b.len() as int]);
    }
    assert(a =~= (a + rest).subrange(0, a.len() as int));
    assert(b =~= (b + other).subrange(0, b.len() as int));
    assert(rest =~= (a + rest).skip(a.len() as int));
    assert(other =~= (b + other).skip(b.len() as int));
}

/// The middle of a text between a beginning and an ending.
proof fn same_frame(start: Seq<char>, a: Seq<char>, b: Seq<char>, end: Seq<char>)
    requires
        start + a + end == start + b + end,
    ensures
        a == b,
{
    assert((start + a + end).len() == start.len() + a.len() + end.len());
    assert((start + b + end).len() == start.len() + b.len() + end.len());
    assert(a =~= (start + a + end).subrange(start.len() as int, (start.len() + a.len()) as int));
    assert(b =~= (start + b + end).subrange(start.len() as int, (start.len() + b.len()) as int));
}

/// Card images at different positions have different names.
pub proof fn card_files_differ(a: int, b: int)
    requires
        card_file(a) == card_file(b),
    ensures
        a == b,
{
    same_frame("c-"@, signed_padded(a, 3), signed_padded(b, 3), ".png"@);
    let x = signed_padded(a, 3);
    let y = signed_padded(b, 3);
    if a >= 0 && b >= 0 {
        padding_is_one_to_one(a as nat, b as nat, 3);
    } else if a < 0 && b < 0 {
        assert(zero_padded((-a) as nat, 2) =~= x.skip(1));
        assert(zero_padded((-b) as nat, 2) =~= y.skip(1));
        padding_is_one_to_one((-a) as nat, (-b) as nat, 2);
    } else if a >= 0 {
        padded_is_digits(a as nat, 3);
        decimal_len_bounds(a as nat);
        assert(is_digit(x[0]));
        assert(y[0] == '-');
    } else {
        padded_is_digits(b as nat, 3);
        decimal_len_bounds(b as nat);
        assert(is_digit(y[0]));
        assert(x[0] == '-');
    }
}

/// The strips of different cells have different names, and none has the
/// name of an image of whole rows; those of different rows differ too.
pub proof fn artifacts_are_told_apart(row: nat, cell: nat, other_row: nat, other_cell: nat)
    ensures
        part_file(row, cell) == part_file(other_row, other_cell) ==> row == other_row && cell
            == other_cell,
        rows_file(row) == rows_file(other_row) ==> row == other_row,
        part_file(row, cell) != rows_file(other_row),
{
    reveal_strlit("-");
    reveal_strlit(".png");
    reveal_strlit("-XX.png");
    reveal_strlit("XX.png");
    let start = "part-"@;
    let a = zero_padded(row, 2);
    let b = zero_padded(other_row, 2);
    let c = zero_padded(cell, 2);
    let d = zero_padded(other_cell, 2);
    padded_is_digits(row, 2);
    padded_is_digits(other_row, 2);
    padded_is_digits(cell, 2);
    padded_is_digits(other_cell, 2);
    decimal_len_bounds(cell);
    let cell_rest = "-"@ + (c + ".png"@);
    let other_cell_rest = "-"@ + (d + ".png"@);
    let rows_rest = "-XX.png"@;
    assert(part_file(row, cell) =~= start + (a + cell_rest) + Seq::empty());
    assert(part_file(other_row, other_cell) =~= start + (b + other_cell_rest) + Seq::empty());
    assert(rows_file(row) =~= start + (a + rows_rest) + Seq::empty());
    assert(rows_file(other_row) =~= start + (b + rows_rest) + Seq::empty());
    assert(cell_rest[0] == '-' && other_cell_rest[0] == '-' && rows_rest[0] == '-');
    if part_file(row, cell) == part_file(other_row, other_cell) {
        same_frame(start, a + cell_rest, b + other_cell_rest, Seq::empty());
        digits_end_where_they_end(a, cell_rest, b, other_cell_rest);
        padding_is_one_to_one(row, other_row, 2);
        assert(c + ".png"@ =~= cell_rest.skip(1));
        assert(d + ".png"@ =~= other_cell_rest.skip(1));
        assert(".png"@[0] == '.');
        digits_end_where_they_end(c, ".png"@, d, ".png"@);
        padding_is_one_to_one(cell, other_cell, 2);
    }
    if rows_file(row) == rows_file(other_row) {
        same_frame(start, a + rows_rest, b + rows_rest, Seq::empty());
        digits_end_where_they_end(a, rows_rest, b, rows_rest);
        padding_is_one_to_one(row, other_row, 2);
    }
    if part_file(row, cell) == rows_file(other_row) {
        same_frame(start, a + cell_rest, b + rows_rest, Seq::empty());
        digits_end_where_they_end(a, cell_rest, b, rows_rest);
        assert(cell_rest[1] == c[0]);
        assert(rows_rest[1] == 'X');
        assert(is_digit(c[0]));
    }
}

} // verus!
