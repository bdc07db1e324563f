//! The products: which pages of each source document are cards, and how the
//! cards on them are cut out and numbered.

use vstd::prelude::*;
use vstd::string::StringExecFns;

verus! {

/// A rectangle inside an image, in pixels.
#[derive(Debug, Clone, Copy, PartialEq, Eq, Structural)]
pub struct Rect {
    pub width: u32,
    pub height: u32,
    pub left: u32,
    pub top: u32,
}

/// How the card positions of a product follow from its retained pages.
#[derive(Debug, Clone, Copy, PartialEq, Eq, Structural)]
pub enum Numbering {
    /// Every page is a grid of cards; positions count up from `1 + offset`.
    Grid { offset: u32 },
    /// Every page is one card; the first `skip` pages take the last positions
    /// of a range of `length` positions that starts at `shift`.
    Shift { skip: usize, shift: usize, length: usize },
}

/// The products, in the order in which they are acquired.
#[derive(Debug, Clone, Copy, PartialEq, Eq, Structural)]
pub enum Product {
    SystemGateway,
    SystemUpdate,
    RebellionWithoutRehearsal,
    AutomataInitiative,
    MidnightSun,
    Parhelion,
}

/// Which pages of a document are dropped: those whose index is in
/// `excluded`, and every odd index from 1 to `alternating`.
#[derive(Debug, Clone, PartialEq, Eq)]
pub struct Retention {
    pub excluded: Vec<u64>,
    pub alternating: u64,
}

/// The part of a page that is kept before the page is cut into cards.
pub open spec fn page_area() -> Rect {
    Rect { width: 2233, height: 3093, left: 76, top: 76 }
}

/// The part of a downloaded back image that is the card back.
pub open spec fn back_area() -> Rect {
    Rect { width: 744, height: 1031, left: 40, top: 47 }
}

/// The nine cards of a page, row by row.
pub open spec fn grid_cells() -> Seq<Rect> {
    seq![
        Rect { width: 744, height: 1031, left: 0, top: 0 },
        Rect { width: 744, height: 1031, left: 745, top: 0 },
        Rect { width: 744, height: 1031, left: 1489, top: 0 },
        Rect { width: 744, height: 1031, left: 0, top: 1031 },
        Rect { width: 744, height: 1031, left: 745, top: 1031 },
        Rect { width: 744, height: 1031, left: 1489, top: 1031 },
        Rect { width: 744, height: 1031, left: 0, top: 2062 },
        Rect { width: 744, height: 1031, left: 745, top: 2062 },
        Rect { width: 744, height: 1031, left: 1489, top: 2062 },
    ]
}

impl Product {
    /// The name of the product's directory, which is also its pack code.
    pub open spec fn code_text(self) -> Seq<char> {
        match self {
            Product::SystemGateway => "sg"@,
            Product::SystemUpdate => "su21"@,
            Product::RebellionWithoutRehearsal => "rwr"@,
            Product::AutomataInitiative => "tai"@,
            Product::MidnightSun => "ms"@,
            Product::Parhelion => "ph"@,
        }
    }

    /// The page indices that the product's exclusion table lists one by one.
    pub open spec fn excluded_pages(self) -> Seq<u64> {
        match self {
            Product::SystemGateway => seq![0, 20, 22],
            Product::SystemUpdate => seq![0],
            Product::RebellionWithoutRehearsal => seq![0],
            Product::AutomataInitiative => seq![0, 18, 20],
            Product::MidnightSun => seq![0, 1, 2, 3, 4, 5, 6, 7, 8, 9, 78, 79],
            Product::Parhelion => seq![29, 30, 31, 32, 33],
        }
    }

    /// The last page of the range in which card pages and blank pages
    /// alternate; 0 where the product has no such range.
    pub open spec fn alternating_pages(self) -> u64 {
        match self {
            Product::SystemGateway => 23,
            Product::SystemUpdate => 21,
            Product::RebellionWithoutRehearsal => 17,
            Product::AutomataInitiative => 21,
            Product::MidnightSun => 0,
            Product::Parhelion => 0,
        }
    }

    /// How the product's cards are numbered.
    pub open spec fn numbering_rule(self) -> Numbering {
        match self {
            Product::SystemGateway => Numbering::Grid { offset: 0 },
            Product::SystemUpdate => Numbering::Grid { offset: 0 },
            Product::RebellionWithoutRehearsal => Numbering::Grid { offset: 65 },
            Product::AutomataInitiative => Numbering::Grid { offset: 0 },
            Product::MidnightSun => Numbering::Shift { skip: 3, shift: 1, length: 68 },
            Product::Parhelion => Numbering::Shift { skip: 0, shift: 66, length: 63 },
        }
    }

    /// All products, in the order in which they are acquired.
    pub fn all() -> (out: Vec<Product>)
        ensures
            out@ == seq![
                Product::SystemGateway,
                Product::SystemUpdate,
                Product::RebellionWithoutRehearsal,
                Product::AutomataInitiative,
                Product::MidnightSun,
                Product::Parhelion,
            ],
    {
        vec![
            Product::SystemGateway,
            Product::SystemUpdate,
            Product::RebellionWithoutRehearsal,
            Product::AutomataInitiative,
            Product::MidnightSun,
            Product::Parhelion,
        ]
    }

    /// The name of the product's directory, which is also its pack code.
    pub fn code(self) -> (out: String)
        ensures
            out@ == self.code_text(),
    {
        match self {
            Product::SystemGateway => String::from_str("sg"),
            Product::SystemUpdate => String::from_str("su21"),
            Product::RebellionWithoutRehearsal => String::from_str("rwr"),
            Product::AutomataInitiative => String::from_str("tai"),
            Product::MidnightSun => String::from_str("ms"),
            Product::Parhelion => String::from_str("ph"),
        }
    }

    /// The product's exclusion table.
    pub fn retention(self) -> (out: Retention)
        ensures
            out.excluded@ == self.excluded_pages(),
            out.alternating == self.alternating_pages(),
    {
        match self {
            Product::SystemGateway => Retention { excluded: vec![0, 20, 22], alternating: 23 },
            Product::SystemUpdate => Retention { excluded: vec![0], alternating: 21 },
            Product::RebellionWithoutRehearsal => Retention {
                excluded: vec![0],
                alternating: 17,
            },
            Product::AutomataInitiative => Retention { excluded: vec![0, 18, 20], alternating: 21 },
            Product::MidnightSun => Retention {
                excluded: vec![0, 1, 2, 3, 4, 5, 6, 7, 8, 9, 78, 79],
                alternating: 0,
            },
            Product::Parhelion => Retention { excluded: vec![29, 30, 31, 32, 33], alternating: 0 },
        }
    }

    /// How the product's cards are numbered.
    pub fn numbering(self) -> (out: Numbering)
        ensures
            out == self.numbering_rule(),
    {
        match self {
            Product::SystemGateway => Numbering::Grid { offset: 0 },
            Product::SystemUpdate => Numbering::Grid { offset: 0 },
            Product::RebellionWithoutRehearsal => Numbering::Grid { offset: 65 },
            Product::AutomataInitiative => Numbering::Grid { offset: 0 },
            Product::MidnightSun => Numbering::Shift { skip: 3, shift: 1, length: 68 },
            Product::Parhelion => Numbering::Shift { skip: 0, shift: 66, length: 63 },
        }
    }
}

/// The part of a page that is kept before the page is cut into cards.
pub fn page_crop() -> (out: Rect)
    ensures
        out == page_area(),
{
    Rect { width: 2233, height: 3093, left: 76, top: 76 }
}

/// The part of a downloaded back image that is the card back.
pub fn back_crop() -> (out: Rect)
    ensures
        out == back_area(),
{
    Rect { width: 744, height: 1031, left: 40, top: 47 }
}

/// The nine cards of a page, row by row.
pub fn grid() -> (out: Vec<Rect>)
    ensures
        out@ == grid_cells(),
{
    vec![
        Rect { width: 744, height: 1031, left: 0, top: 0 },
        Rect { width: 744, height: 1031, left: 745, top: 0 },
        Rect { width: 744, height: 1031, left: 1489, top: 0 },
        Rect { width: 744, height: 1031, left: 0, top: 1031 },
        Rect { width: 744, height: 1031, left: 745, top: 1031 },
        Rect { width: 744, height: 1031, left: 1489, top: 1031 },
        Rect { width: 744, height: 1031, left: 0, top: 2062 },
        Rect { width: 744, height: 1031, left: 745, top: 2062 },
        Rect { width: 744, height: 1031, left: 1489, top: 2062 },
    ]
}

} // verus!
