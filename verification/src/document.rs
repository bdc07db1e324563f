//! The printable document: card images in a grid of three by three to the page.

use vstd::prelude::*;
use vstd::string::StringExecFns;
use crate::deck::{copies, faces_of, CardFace, Deck, Face, ResolvedDeck};
use crate::names::{card_file, card_file_name};
use crate::text::{join, joined, texts_of};

verus! {

/// How many images one page holds.
pub const PAGE_IMAGES: usize = 9;

/// The product and the positions of the two basic action cards.
pub open spec fn basic_actions() -> Seq<Face> {
    seq![Face { pack: "sg"@, position: 78 }, Face { pack: "sg"@, position: 79 }]
}

/// The product and the positions of the three mark cards.
pub open spec fn marks() -> Seq<Face> {
    seq![
        Face { pack: "ms"@, position: 66 },
        Face { pack: "ms"@, position: 67 },
        Face { pack: "ms"@, position: 68 },
    ]
}

/// The card images of the first `upto` of `decks`, deck after deck.
pub open spec fn deck_images(decks: Seq<Deck>, upto: nat) -> Seq<Face>
    decreases upto,
{
    if upto == 0 {
        Seq::empty()
    } else {
        deck_images(decks, (upto - 1) as nat) + copies(decks[upto - 1].lines)
    }
}

/// All images of a document: those of the decks, then the basic actions and
/// the marks where they are asked for.
pub open spec fn sheet_images(decks: Seq<Deck>, with_basic_actions: bool, with_marks: bool) -> Seq<
    Face,
> {
    deck_images(decks, decks.len()) + (if with_basic_actions {
        basic_actions()
    } else {
        Seq::empty()
    }) + (if with_marks {
        marks()
    } else {
        Seq::empty()
    })
}

/// The start of the document, down to the first, open page.
pub open spec fn opening() -> Seq<char> {
    "<!DOCTYPE html>\n"@
        + "<html lang=\"en\"><head><meta charset=\"UTF-8\"><meta name=\"viewport\" content=\"width=device-width, initial-scale=1.0\"><title>PDF</title><style>*,::after,::before{margin:0;padding:0;min-width:0}.page{width:210mm;height:297mm;display:grid;place-items:center}.imgs{display:grid;grid-template-columns:63mm 63mm 63mm;grid-template-rows:88mm 88mm 88mm;gap:0.5pt}img{width:100%;height:100%}</style></head><body><div class=\"page\"><div class=\"imgs\">"@
}

/// What closes one page and opens the next.
pub open spec fn page_break() -> Seq<char> {
    "</div></div><div class=\"page\"><div class=\"imgs\">"@
}

/// The end of the document.
pub open spec fn closing() -> Seq<char> {
    "</body></html>"@
}

/// The element that shows one card image.
pub open spec fn image_tag(face: Face) -> Seq<char> {
    "<img src=\""@ + face.pack + "/cut/"@ + card_file(face.position) + "\" />"@
}

/// The elements of the first `upto` images; after every ninth image a new
/// page is opened.
pub open spec fn body(images: Seq<Face>, upto: nat) -> Seq<char>
    decreases upto,
{
    if upto == 0 {
        Seq::empty()
    } else {
        let i = (upto - 1) as nat;
        body(images, i) + image_tag(images[i as int]) + (if i % 9 == 8 {
            page_break()
        } else {
            Seq::empty()
        })
    }
}

/// The whole document for `images`.
pub open spec fn document(images: Seq<Face>) -> Seq<char> {
    opening() + body(images, images.len()) + closing()
}

/// The file name of the document for the decklists `ids`.
pub open spec fn document_file(ids: Seq<Seq<char>>) -> Seq<char> {
    joined(ids, "_"@) + ".html"@
}

/// The values of a sequence of decks.
pub open spec fn decks_of(decks: Seq<ResolvedDeck>) -> Seq<Deck> {
    decks.map_values(|d: ResolvedDeck| d@)
}

fn push_face(out: &mut Vec<CardFace>, pack: &str, position: i64)
    ensures
        faces_of(final(out)@) == faces_of(old(out)@).push(
            Face { pack: pack@, position: position as int },
        ),
{
    out.push(CardFace { pack: String::from_str(pack), position });
    assert(faces_of(out@) =~= faces_of(old(out)@).push(
        Face { pack: pack@, position: position as int },
    ));
}

/// Collects all images of a document: those of `decks` in order, then the
/// basic actions and the marks where they are asked for.
pub fn collect(decks: &Vec<ResolvedDeck>, with_basic_actions: bool, with_marks: bool) -> (out: Vec<
    CardFace,
>)
    ensures
        faces_of(out@) == sheet_images(decks_of(decks@), with_basic_actions, with_marks),
{
    let mut out: Vec<CardFace> = Vec::new();
    let mut d: usize = 0;
    assert(faces_of(out@) =~= deck_images(decks_of(decks@), 0));
    while d < decks.len()
        invariant
            d <= decks.len(),
            faces_of(out@) == deck_images(decks_of(decks@), d as nat),
        decreases decks.len() - d,
    {
        let mut faces = decks[d].faces();
        let ghost before = out@;
        let ghost added = faces@;
        assert(decks_of(decks@)[d as int] == decks[d as int]@);
        out.append(&mut faces);
        assert(faces_of(out@) =~= faces_of(before) + faces_of(added));
        d += 1;
    }
    let ghost from_decks = faces_of(out@);
    if with_basic_actions {
        push_face(&mut out, "sg", 78);
        push_face(&mut out, "sg", 79);
    }
    let ghost with_actions = faces_of(out@);
    assert(with_actions =~= from_decks + (if with_basic_actions {
        basic_actions()
    } else {
        Seq::empty()
    }));
    if with_marks {
        push_face(&mut out, "ms", 66);
        push_face(&mut out, "ms", 67);
        push_face(&mut out, "ms", 68);
    }
    assert(faces_of(out@) =~= with_actions + (if with_marks {
        marks()
    } else {
        Seq::empty()
    }));
    out
}

/// Writes the document that shows `images`, nine to the page.
pub fn render(images: &Vec<CardFace>) -> (out: String)
    ensures
        out@ == document(faces_of(images@)),
{
    let mut out = String::new();
    out.append("<!DOCTYPE html>\n");
    out.append(
        "<html lang=\"en\"><head><meta charset=\"UTF-8\"><meta name=\"viewport\" content=\"width=device-width, initial-scale=1.0\"><title>PDF</title><style>*,::after,::before{margin:0;padding:0;min-width:0}.page{width:210mm;height:297mm;display:grid;place-items:center}.imgs{display:grid;grid-template-columns:63mm 63mm 63mm;grid-template-rows:88mm 88mm 88mm;gap:0.5pt}img{width:100%;height:100%}</style></head><body><div class=\"page\"><div class=\"imgs\">",
    );
    assert(out@ =~= opening());
    let mut i: usize = 0;
    while i < images.len()
        invariant
            i <= images.len(),
            out@ == opening() + body(faces_of(images@), i as nat),
        decreases images.len() - i,
    {
        let face = &images[i];
        assert(faces_of(images@)[i as int] == face@);
        out.append("<img src=\"");
        out.append(face.pack.as_str());
        out.append("/cut/");
        out.append(card_file_name(face.position).as_str());
        out.append("\" />");
        if i % PAGE_IMAGES == 8 {
            out.append("</div></div><div class=\"page\"><div class=\"imgs\">");
        }
        assert(out@ =~= opening() + body(faces_of(images@), (i + 1) as nat));
        i += 1;
    }
    out.append("</body></html>");
    assert(out@ =~= document(faces_of(images@)));
    out
}

/// The file name of the document for the decklists `ids`: the identifiers
/// joined by an underscore.
pub fn document_file_name(ids: &Vec<String>) -> (name: String)
    ensures
        name@ == document_file(texts_of(ids@)),
{
    let mut name = join(ids, "_");
    name.append(".html");
    name
}

} // verus!
