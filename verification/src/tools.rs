//! The command lines of the outside tools: the rasterizer, the cropper and
//! the appender. The paths are filled in by the caller.

use vstd::prelude::*;
use vstd::string::StringExecFns;
use crate::product::Rect;
use crate::text::{decimal, push_decimal};

verus! {

/// One argument of a command line: a fixed word, or the place of a path.
#[derive(Debug, Clone, PartialEq, Eq)]
pub enum Arg {
    Word(String),
    /// The image or document that is read.
    Input,
    /// The second image that is read, where two are joined.
    Second,
    /// What is written: an image, or for the rasterizer the common
    /// beginning of the page files' paths.
    Output,
}

/// The mathematical value of an `Arg`.
pub enum ArgView {
    Word(Seq<char>),
    Input,
    Second,
    Output,
}

impl View for Arg {
    type V = ArgView;

    open spec fn view(&self) -> ArgView {
        match self {
            Arg::Word(w) => ArgView::Word(w@),
            Arg::Input => ArgView::Input,
            Arg::Second => ArgView::Second,
            Arg::Output => ArgView::Output,
        }
    }
}

/// A program and its arguments.
#[derive(Debug, Clone, PartialEq, Eq)]
pub struct Invocation {
    pub program: String,
    pub args: Vec<Arg>,
}

/// The mathematical value of an `Invocation`.
pub struct Command {
    pub program: Seq<char>,
    pub args: Seq<ArgView>,
}

impl View for Invocation {
    type V = Command;

    open spec fn view(&self) -> Command {
        Command { program: self.program@, args: self.args@.map_values(|a: Arg| a@) }
    }
}

/// How the cropper is told an area: width, `x`, height, then left and top
/// offset, each after a `+`.
pub open spec fn area_text(area: Rect) -> Seq<char> {
    decimal(area.width as nat) + "x"@ + decimal(area.height as nat) + "+"@ + decimal(
        area.left as nat,
    ) + "+"@ + decimal(area.top as nat)
}

/// The command that crops `area` out of the input image.
pub open spec fn crop_line(area: Rect) -> Command {
    Command {
        program: "magick"@,
        args: seq![
            ArgView::Word("convert"@),
            ArgView::Input,
            ArgView::Word("-crop"@),
            ArgView::Word(area_text(area)),
            ArgView::Word("+repage"@),
            ArgView::Output,
        ],
    }
}

/// The command that joins the second image to the first: to its right
/// where `across` holds, below it otherwise.
pub open spec fn append_line(across: bool) -> Command {
    Command {
        program: "magick"@,
        args: seq![
            ArgView::Word("convert"@),
            ArgView::Word(
                if across {
                    "+append"@
                } else {
                    "-append"@
                },
            ),
            ArgView::Input,
            ArgView::Second,
            ArgView::Output,
        ],
    }
}

/// The command that writes the pages of the input document as images; the
/// output is the path of the stage's directory followed by the page stem.
pub open spec fn rasterize_line() -> Command {
    Command {
        program: "pdfimages"@,
        args: seq![ArgView::Word("-png"@), ArgView::Input, ArgView::Output],
    }
}

/// How the cropper is told `area`.
pub fn area_argument(area: Rect) -> (out: String)
    ensures
        out@ == area_text(area),
{
    let mut out = String::new();
    push_decimal(&mut out, area.width as u64);
    out.append("x");
    push_decimal(&mut out, area.height as u64);
    out.append("+");
    push_decimal(&mut out, area.left as u64);
    out.append("+");
    push_decimal(&mut out, area.top as u64);
    assert(out@ =~= area_text(area));
    out
}

/// The command that crops `area` out of the input image.
pub fn crop_command(area: Rect) -> (out: Invocation)
    ensures
        out@ == crop_line(area),
{
    let args = vec![
        Arg::Word(String::from_str("convert")),
        Arg::Input,
        Arg::Word(String::from_str("-crop")),
        Arg::Word(area_argument(area)),
        Arg::Word(String::from_str("+repage")),
        Arg::Output,
    ];
    let out = Invocation { program: String::from_str("magick"), args };
    assert(out@.args =~= crop_line(area).args);
    out
}

/// The command that joins the second image to the first.
pub fn append_command(across: bool) -> (out: Invocation)
    ensures
        out@ == append_line(across),
{
    let direction = if across {
        String::from_str("+append")
    } else {
        String::from_str("-append")
    };
    let args = vec![
        Arg::Word(String::from_str("convert")),
        Arg::Word(direction),
        Arg::Input,
        Arg::Second,
        Arg::Output,
    ];
    let out = Invocation { program: String::from_str("magick"), args };
    assert(out@.args =~= append_line(across).args);
    out
}

/// The rasterizer's command for a stage whose directory is there already
/// where `done` holds: then the rasterizer is not run.
pub fn rasterize_command(done: bool) -> (out: Option<Invocation>)
    ensures
        done ==> out is None,
        !done ==> out is Some && out->0@ == rasterize_line(),
{
    if done {
        None
    } else {
        let args = vec![Arg::Word(String::from_str("-png")), Arg::Input, Arg::Output];
        let out = Invocation { program: String::from_str("pdfimages"), args };
        assert(out@.args =~= rasterize_line().args);
        Some(out)
    }
}

/// Whether a download is made: not where its file is `present` already.
pub fn download_needed(present: bool) -> (fetch: bool)
    ensures
        fetch == !present,
{
    !present
}

} // verus!
