//! Styled text: what the screen shows, line by line.

use crate::text::Text;
use vstd::prelude::*;

verus! {

/// A colour of the screen.
#[derive(Clone, Copy, Debug, PartialEq, Eq, Structural)]
pub enum Color {
    /// The colour that the terminal has by itself.
    Reset,
    Black,
    White,
    /// Things that are well, and additions.
    Green,
    /// Things to mind, and modifications.
    Amber,
    /// Moves.
    Blue,
    /// Things that are lost, and removals.
    Red,
    /// Git activity.
    Violet,
    /// Work on issues.
    Teal,
    /// Reports on the observation.
    Coral,
    /// Things that are uncertain.
    Orange,
    /// Paths and keys.
    Silver,
    /// Explanations.
    Pale,
    /// Counts.
    Ash,
    /// Unchanged lines.
    Stone,
    /// Secondary text.
    Muted,
    /// Frames and hints.
    Dim,
    /// The ground of keys.
    Slate,
    /// The ground of panels.
    Panel,
    /// The ground of the selected event.
    SelectedPanel,
    /// The ground of new events.
    FreshPanel,
    /// The colour of the workspace of a number.
    Workspace(usize),
}

/// How many colours there are for workspaces.
pub const WORKSPACE_COLORS: usize = 8;

/// The colour of the workspace of a number, in red, green and blue.
pub open spec fn workspace_parts(index: usize) -> (u8, u8, u8) {
    let n = index % WORKSPACE_COLORS;
    if n == 0 {
        (104, 190, 255)
    } else if n == 1 {
        (220, 140, 255)
    } else if n == 2 {
        (105, 210, 190)
    } else if n == 3 {
        (245, 180, 100)
    } else if n == 4 {
        (245, 130, 155)
    } else if n == 5 {
        (170, 190, 110)
    } else if n == 6 {
        (135, 155, 245)
    } else {
        (190, 160, 120)
    }
}

impl Color {
    /// The red, green and blue of a colour, where it is made of these.
    pub open spec fn parts(self) -> Option<(u8, u8, u8)> {
        match self {
            Color::Reset => None,
            Color::Black => None,
            Color::White => None,
            Color::Green => Some((116, 214, 154)),
            Color::Amber => Some((226, 180, 104)),
            Color::Blue => Some((117, 164, 232)),
            Color::Red => Some((224, 116, 116)),
            Color::Violet => Some((196, 143, 255)),
            Color::Teal => Some((94, 205, 214)),
            Color::Coral => Some((255, 109, 109)),
            Color::Orange => Some((255, 145, 85)),
            Color::Silver => Some((190, 190, 195)),
            Color::Pale => Some((180, 180, 185)),
            Color::Ash => Some((155, 155, 160)),
            Color::Stone => Some((126, 126, 132)),
            Color::Muted => Some((112, 112, 120)),
            Color::Dim => Some((70, 70, 77)),
            Color::Slate => Some((35, 35, 40)),
            Color::Panel => Some((18, 18, 21)),
            Color::SelectedPanel => Some((27, 30, 31)),
            Color::FreshPanel => Some((20, 24, 22)),
            Color::Workspace(index) => Some(workspace_parts(index)),
        }
    }

    /// Finds the red, green and blue of the colour, where it is made of these.
    pub fn rgb(self) -> (parts: Option<(u8, u8, u8)>)
        ensures
            parts == self.parts(),
    {
        match self {
            Color::Reset => None,
            Color::Black => None,
            Color::White => None,
            Color::Green => Some((116, 214, 154)),
            Color::Amber => Some((226, 180, 104)),
            Color::Blue => Some((117, 164, 232)),
            Color::Red => Some((224, 116, 116)),
            Color::Violet => Some((196, 143, 255)),
            Color::Teal => Some((94, 205, 214)),
            Color::Coral => Some((255, 109, 109)),
            Color::Orange => Some((255, 145, 85)),
            Color::Silver => Some((190, 190, 195)),
            Color::Pale => Some((180, 180, 185)),
            Color::Ash => Some((155, 155, 160)),
            Color::Stone => Some((126, 126, 132)),
            Color::Muted => Some((112, 112, 120)),
            Color::Dim => Some((70, 70, 77)),
            Color::Slate => Some((35, 35, 40)),
            Color::Panel => Some((18, 18, 21)),
            Color::SelectedPanel => Some((27, 30, 31)),
            Color::FreshPanel => Some((20, 24, 22)),
            Color::Workspace(index) => {
                let n: usize = index % WORKSPACE_COLORS;
                if n == 0 {
                    Some((104, 190, 255))
                } else if n == 1 {
                    Some((220, 140, 255))
                } else if n == 2 {
                    Some((105, 210, 190))
                } else if n == 3 {
                    Some((245, 180, 100))
                } else if n == 4 {
                    Some((245, 130, 155))
                } else if n == 5 {
                    Some((170, 190, 110))
                } else if n == 6 {
                    Some((135, 155, 245))
                } else {
                    Some((190, 160, 120))
                }
            },
        }
    }
}

/// How a text looks.
#[derive(Clone, Copy, Debug, PartialEq, Eq, Structural)]
pub struct Style {
    pub fg: Option<Color>,
    pub bg: Option<Color>,
    pub bold: bool,
    pub dim: bool,
    pub underlined: bool,
}

/// Text as it is.
#[verifier::allow_in_spec]
pub fn raw() -> (style: Style)
    returns
        (Style { fg: None, bg: None, bold: false, dim: false, underlined: false }),
{
    Style { fg: None, bg: None, bold: false, dim: false, underlined: false }
}

/// Text in a colour.
#[verifier::allow_in_spec]
pub fn ink(color: Color) -> (style: Style)
    returns
        (Style { fg: Some(color), bg: None, bold: false, dim: false, underlined: false }),
{
    Style { fg: Some(color), bg: None, bold: false, dim: false, underlined: false }
}

/// Bold text in a colour.
#[verifier::allow_in_spec]
pub fn bold(color: Color) -> (style: Style)
    returns
        (Style { fg: Some(color), bg: None, bold: true, dim: false, underlined: false }),
{
    Style { fg: Some(color), bg: None, bold: true, dim: false, underlined: false }
}

/// Text in one colour on another.
#[verifier::allow_in_spec]
pub fn chip(color: Color, ground: Color) -> (style: Style)
    returns
        (Style { fg: Some(color), bg: Some(ground), bold: false, dim: false, underlined: false }),
{
    Style { fg: Some(color), bg: Some(ground), bold: false, dim: false, underlined: false }
}

/// Bold text in one colour on another.
#[verifier::allow_in_spec]
pub fn bold_chip(color: Color, ground: Color) -> (style: Style)
    returns
        (Style { fg: Some(color), bg: Some(ground), bold: true, dim: false, underlined: false }),
{
    Style { fg: Some(color), bg: Some(ground), bold: true, dim: false, underlined: false }
}

/// A piece of a line.
#[derive(Debug)]
pub struct Span {
    pub text: String,
    pub style: Style,
}

/// What a piece of a line shows.
#[verifier::ext_equal]
pub struct SpanView {
    pub text: Text,
    pub style: Style,
}

impl View for Span {
    type V = SpanView;

    open spec fn view(&self) -> SpanView {
        SpanView { text: self.text@, style: self.style }
    }
}

/// A line.
#[derive(Debug)]
pub struct Line {
    pub spans: Vec<Span>,
}

impl View for Line {
    type V = Seq<SpanView>;

    open spec fn view(&self) -> Seq<SpanView> {
        self.spans@.map_values(|span: Span| span@)
    }
}

/// The contents of a list of lines.
pub open spec fn line_views(lines: Seq<Line>) -> Seq<Seq<SpanView>> {
    lines.map_values(|line: Line| line@)
}

/// A piece of a line.
pub open spec fn span_of(text: Text, style: Style) -> SpanView {
    SpanView { text, style }
}

/// Makes a piece of a line.
pub fn span(text: String, style: Style) -> (out: Span)
    ensures
        out@ == span_of(text@, style),
{
    Span { text, style }
}

/// Makes a piece of a line of a fixed text.
pub fn label(text: &str, style: Style) -> (out: Span)
    ensures
        out@ == span_of(text@, style),
{
    Span { text: text.to_owned(), style }
}

impl Line {
    /// An empty line.
    pub fn new() -> (line: Line)
        ensures
            line@ == Seq::<SpanView>::empty(),
    {
        let line = Line { spans: Vec::new() };
        assert(line@ =~= Seq::<SpanView>::empty());
        line
    }

    /// Puts a piece at the end of the line.
    pub fn push(&mut self, span: Span)
        ensures
            final(self)@ == old(self)@.push(span@),
    {
        self.spans.push(span);
        assert(self@ =~= old(self)@.push(span@));
    }

    /// A line of one piece.
    pub fn of(span: Span) -> (line: Line)
        ensures
            line@ == seq![span@],
    {
        let mut line = Line::new();
        line.push(span);
        assert(line@ =~= seq![span@]);
        line
    }
}

/// Puts a line at the end of a list.
pub fn push_line(lines: &mut Vec<Line>, line: Line)
    ensures
        line_views(final(lines)@) == line_views(old(lines)@).push(line@),
{
    lines.push(line);
    assert(line_views(lines@) =~= line_views(old(lines)@).push(line@));
}

} // verus!
