//! Card sheet production: page selection, cutout numbering, cached lookups,
//! deck resolution, and the layout of printable documents and tabletop mosaics.

pub mod cache;
pub mod cutout;
pub mod deck;
pub mod document;
pub mod failure;
pub mod json;
pub mod mosaic;
pub mod names;
pub mod order;
pub mod pages;
pub mod product;
pub mod text;
pub mod tools;
