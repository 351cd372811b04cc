//! Whether the menu is drawn in colour, the colours of each kind of run,
//! and how a styled run is written: with colour off, only the runs that must
//! stand out (the selection bar and the status line) are set apart, in
//! reverse video.

use vstd::prelude::*;

use crossterm::Command;
use crossterm::style::{Attribute, Color, SetAttribute, SetBackgroundColor, SetForegroundColor};

use super::Paint;
use crate::text::{chars_of, push_str, same_chars, string_of};

verus! {

/// Colour is used unless `NO_COLOR` is set to something non-empty (see
/// <https://no-color.org>), whatever its bytes, or `TERM` is `dumb` or
/// empty. No `TERM` at all is an ordinary terminal.
pub open spec fn color_wanted(no_color: Option<Seq<u8>>, term: Option<Seq<char>>) -> bool {
    if no_color is Some && no_color->0.len() > 0 {
        false
    } else {
        match term {
            Some(t) => t != "dumb"@ && t.len() > 0,
            None => true,
        }
    }
}

/// Decide whether to use colour from the values of `NO_COLOR` and `TERM`
/// (see [`color_wanted`]).
pub fn decide(no_color: Option<&[u8]>, term: Option<&str>) -> (r: bool)
    ensures
        r == color_wanted(
            match no_color {
                Some(v) => Some(v@),
                None => None,
            },
            match term {
                Some(t) => Some(t@),
                None => None,
            },
        ),
{
    if let Some(value) = no_color {
        if value.len() > 0 {
            return false;
        }
    }
    match term {
        Some(t) => {
            let tc = chars_of(t);
            let dumb = chars_of("dumb");
            proof {
                reveal_strlit("dumb");
            }
            !(same_chars(&tc, &dumb) || tc.len() == 0)
        },
        None => true,
    }
}


/// The colours the menu uses.
#[derive(Debug, Clone, Copy, PartialEq, Eq, Structural)]
pub enum Colour {
    Cyan,
    DarkGrey,
    Grey,
    Yellow,
    White,
    Blue,
    Green,
    Red,
}

/// How a run of text is drawn. `highlight` marks a run that has to stand
/// out even without colour.
#[derive(Debug, Clone, Copy, PartialEq, Eq, Structural)]
pub struct RunStyle {
    pub fg: Option<Colour>,
    pub bg: Option<Colour>,
    pub bold: bool,
    pub highlight: bool,
}

/// One thing written for a run: a colour or attribute switched on, the text
/// itself, or everything switched back off.
#[derive(Debug, Clone, Copy, PartialEq, Eq, Structural)]
pub enum PaintStep {
    Fg(Colour),
    Bg(Colour),
    Bold,
    Reverse,
    Text,
    Reset,
}

/// The style of each kind of run.
pub open spec fn style_spec(paint: Paint) -> RunStyle {
    match paint {
        Paint::Title => RunStyle { fg: Some(Colour::Cyan), bg: None, bold: true, highlight: false },
        Paint::Muted => RunStyle { fg: Some(Colour::DarkGrey), bg: None, bold: false, highlight: false },
        Paint::Help => RunStyle { fg: Some(Colour::Grey), bg: None, bold: false, highlight: false },
        Paint::Marker => RunStyle { fg: Some(Colour::Yellow), bg: Some(Colour::Blue), bold: true, highlight: true },
        Paint::Selected => RunStyle { fg: Some(Colour::White), bg: Some(Colour::Blue), bold: true, highlight: true },
        Paint::Container => RunStyle { fg: Some(Colour::Cyan), bg: None, bold: false, highlight: false },
        Paint::Plain => RunStyle { fg: None, bg: None, bold: false, highlight: false },
        Paint::Sigil => RunStyle {
            fg: Some(Colour::Green),
            bg: Some(Colour::DarkGrey),
            bold: true,
            highlight: true,
        },
        Paint::Status => RunStyle {
            fg: Some(Colour::White),
            bg: Some(Colour::DarkGrey),
            bold: false,
            highlight: true,
        },
        Paint::Error => RunStyle { fg: Some(Colour::Red), bg: None, bold: true, highlight: false },
        Paint::Command => RunStyle { fg: Some(Colour::Green), bg: None, bold: true, highlight: false },
    }
}

/// The style of a kind of run (see [`style_spec`]).
pub fn style_for(paint: Paint) -> (r: RunStyle)
    ensures
        r == style_spec(paint),
{
    match paint {
        Paint::Title => RunStyle { fg: Some(Colour::Cyan), bg: None, bold: true, highlight: false },
        Paint::Muted => RunStyle { fg: Some(Colour::DarkGrey), bg: None, bold: false, highlight: false },
        Paint::Help => RunStyle { fg: Some(Colour::Grey), bg: None, bold: false, highlight: false },
        Paint::Marker => RunStyle { fg: Some(Colour::Yellow), bg: Some(Colour::Blue), bold: true, highlight: true },
        Paint::Selected => RunStyle { fg: Some(Colour::White), bg: Some(Colour::Blue), bold: true, highlight: true },
        Paint::Container => RunStyle { fg: Some(Colour::Cyan), bg: None, bold: false, highlight: false },
        Paint::Plain => RunStyle { fg: None, bg: None, bold: false, highlight: false },
        Paint::Sigil => RunStyle {
            fg: Some(Colour::Green),
            bg: Some(Colour::DarkGrey),
            bold: true,
            highlight: true,
        },
        Paint::Status => RunStyle {
            fg: Some(Colour::White),
            bg: Some(Colour::DarkGrey),
            bold: false,
            highlight: true,
        },
        Paint::Error => RunStyle { fg: Some(Colour::Red), bg: None, bold: true, highlight: false },
        Paint::Command => RunStyle { fg: Some(Colour::Green), bg: None, bold: true, highlight: false },
    }
}

/// What is written for a run in `style`. Without colour the text goes out
/// as it is, unless the run is a highlight: then it is in reverse video, so
/// the selection bar and the status line stay visible. With colour, a run
/// with no colour and no boldness goes out as it is; any other gets its
/// colours and boldness, the text, and a reset so nothing leaks into the
/// next run. A highlight is not reversed then: that would undo its
/// background.
pub open spec fn steps_spec(color: bool, style: RunStyle) -> Seq<PaintStep> {
    if !color {
        if style.highlight {
            seq![PaintStep::Reverse, PaintStep::Text, PaintStep::Reset]
        } else {
            seq![PaintStep::Text]
        }
    } else if style.fg is None && style.bg is None && !style.bold {
        seq![PaintStep::Text]
    } else {
        (match style.fg {
            Some(c) => seq![PaintStep::Fg(c)],
            None => Seq::empty(),
        }) + (match style.bg {
            Some(c) => seq![PaintStep::Bg(c)],
            None => Seq::empty(),
        }) + (if style.bold {
            seq![PaintStep::Bold]
        } else {
            Seq::empty()
        }) + seq![PaintStep::Text, PaintStep::Reset]
    }
}

/// What is written for a run in `style` (see [`steps_spec`]).
pub fn paint_steps(color: bool, style: RunStyle) -> (r: Vec<PaintStep>)
    ensures
        r@ == steps_spec(color, style),
{
    let mut out: Vec<PaintStep> = Vec::new();
    if !color {
        if style.highlight {
            out.push(PaintStep::Reverse);
            out.push(PaintStep::Text);
            out.push(PaintStep::Reset);
        } else {
            out.push(PaintStep::Text);
        }
        return out;
    }
    if style.fg.is_none() && style.bg.is_none() && !style.bold {
        out.push(PaintStep::Text);
        return out;
    }
    if let Some(c) = style.fg {
        out.push(PaintStep::Fg(c));
    }
    if let Some(c) = style.bg {
        out.push(PaintStep::Bg(c));
    }
    if style.bold {
        out.push(PaintStep::Bold);
    }
    out.push(PaintStep::Text);
    out.push(PaintStep::Reset);
    proof {
        assert(out@ =~= steps_spec(color, style));
    }
    out
}

/// The 256-colour palette index of a colour, as crossterm writes it.
pub open spec fn colour_code(c: Colour) -> Seq<char> {
    match c {
        Colour::Cyan => "14"@,
        Colour::DarkGrey => "8"@,
        Colour::Grey => "7"@,
        Colour::Yellow => "11"@,
        Colour::White => "15"@,
        Colour::Blue => "12"@,
        Colour::Green => "10"@,
        Colour::Red => "9"@,
    }
}

/// Whether `piece` is what crossterm writes for `step` on a run of `text`.
/// A colour is `ESC [ 38;5;n m` (`48` for the background), or `ESC [ m`
/// when crossterm's own `NO_COLOR` check has turned colour escapes off.
pub open spec fn piece_for(step: PaintStep, text: Seq<char>, piece: Seq<char>) -> bool {
    match step {
        PaintStep::Fg(c) => piece == "\x1b[38;5;"@ + colour_code(c) + "m"@ || piece == "\x1b[m"@,
        PaintStep::Bg(c) => piece == "\x1b[48;5;"@ + colour_code(c) + "m"@ || piece == "\x1b[m"@,
        PaintStep::Bold => piece == "\x1b[1m"@,
        PaintStep::Reverse => piece == "\x1b[7m"@,
        PaintStep::Text => piece == text,
        PaintStep::Reset => piece == "\x1b[0m"@,
    }
}

/// Whether `written` is `steps` written out for a run of `text`, one piece
/// per step.
pub open spec fn written_as(steps: Seq<PaintStep>, text: Seq<char>, written: Seq<char>) -> bool {
    exists|pieces: Seq<Seq<char>>|
        #![trigger pieces.flatten()]
        pieces.len() == steps.len() && (forall|i: int| 0 <= i < steps.len() ==> piece_for(steps[i], text, #[trigger] pieces[i]))
            && written == pieces.flatten()
}

/// crossterm's `SetForegroundColor` escape for `c`, from its `write_ansi`:
/// `ESC [ 38;5;n m` with the palette index of [`colour_code`], or `ESC [ m`
/// when crossterm's memoized `NO_COLOR` check is on. Which of the two
/// depends on the process environment, so the contract admits both.
#[verifier::external_body]
fn fg_escape(c: Colour) -> (r: String)
    ensures
        piece_for(PaintStep::Fg(c), Seq::empty(), r@),
{
    let colour = match c {
        Colour::Cyan => Color::Cyan,
        Colour::DarkGrey => Color::DarkGrey,
        Colour::Grey => Color::Grey,
        Colour::Yellow => Color::Yellow,
        Colour::White => Color::White,
        Colour::Blue => Color::Blue,
        Colour::Green => Color::Green,
        Colour::Red => Color::Red,
    };
    let mut s = String::new();
    let _ = SetForegroundColor(colour).write_ansi(&mut s);
    s
}

/// crossterm's `SetBackgroundColor` escape for `c`, as [`fg_escape`] with
/// `48` for `38`.
#[verifier::external_body]
fn bg_escape(c: Colour) -> (r: String)
    ensures
        piece_for(PaintStep::Bg(c), Seq::empty(), r@),
{
    let colour = match c {
        Colour::Cyan => Color::Cyan,
        Colour::DarkGrey => Color::DarkGrey,
        Colour::Grey => Color::Grey,
        Colour::Yellow => Color::Yellow,
        Colour::White => Color::White,
        Colour::Blue => Color::Blue,
        Colour::Green => Color::Green,
        Colour::Red => Color::Red,
    };
    let mut s = String::new();
    let _ = SetBackgroundColor(colour).write_ansi(&mut s);
    s
}

/// crossterm's `SetAttribute` escape for bold, reverse video or a reset:
/// `ESC [ n m` with the attribute's SGR number (1, 7, 0).
#[verifier::external_body]
fn attribute_escape(step: PaintStep) -> (r: String)
    requires
        step is Bold || step is Reverse || step is Reset,
    ensures
        piece_for(step, Seq::empty(), r@),
{
    let attribute = match step {
        PaintStep::Bold => Attribute::Bold,
        PaintStep::Reverse => Attribute::Reverse,
        _ => Attribute::Reset,
    };
    let mut s = String::new();
    let _ = SetAttribute(attribute).write_ansi(&mut s);
    s
}

/// `text` written in `style`, with colour or without (see [`steps_spec`]
/// and [`written_as`]).
pub fn painted(color: bool, style: RunStyle, text: &str) -> (r: String)
    ensures
        written_as(steps_spec(color, style), text@, r@),
{
    let steps = paint_steps(color, style);
    let mut out: Vec<char> = Vec::new();
    let ghost mut pieces: Seq<Seq<char>> = Seq::empty();
    let mut i: usize = 0;
    while i < steps.len()
        invariant
            i <= steps@.len(),
            steps@ == steps_spec(color, style),
            pieces.len() == i,
            forall|k: int| 0 <= k < i ==> piece_for(steps@[k], text@, #[trigger] pieces[k]),
            out@ == pieces.flatten(),
        decreases steps@.len() - i,
    {
        let piece: String = match steps[i] {
            PaintStep::Fg(c) => fg_escape(c),
            PaintStep::Bg(c) => bg_escape(c),
            PaintStep::Text => text.to_owned(),
            step => attribute_escape(step),
        };
        push_str(&mut out, piece.as_str());
        proof {
            if steps@[i as int] is Text {
                assert(piece_for(steps@[i as int], text@, piece@));
            }
            pieces.lemma_flatten_push(piece@);
            pieces = pieces.push(piece@);
        }
        i = i + 1;
    }
    let r = string_of(&out);
    assert(written_as(steps_spec(color, style), text@, r@));
    r
}
} // verus!
