//! The console renderer: draws a table as a box-drawing grid with ANSI
//! styling.
//!
//! Each of the four cardinal directions at a grid intersection has a line
//! state — absent, thin or bold — and a [`Decor`] supplies one glyph for
//! every realizable combination. Header-adjacent boundaries render bold;
//! separator rows and columns render as gaps unless a header adjacency
//! overrides them.

use vstd::prelude::*;

use crate::style::{
    sp_colour, sp_flag, sp_halign, Palette16, Style, Styles, KEY_BLINK, KEY_BOLD, KEY_BORDER_BG,
    KEY_BORDER_FG, KEY_FILL_BG, KEY_FILL_INVERT, KEY_HEADER, KEY_ITALIC, KEY_SEPARATOR,
    KEY_STRIKETHROUGH, KEY_TEXT_BG, KEY_TEXT_FG, KEY_TEXT_INVERT, KEY_UNDERLINE,
};
use crate::table::{sp_col_blended, sp_row_blended, sp_cell_blended, sp_is_empty, sp_table_contents_ok, sp_table_height, Table};
use crate::renderer::{
    chars_eq, RenderError, RenderHint, sp_has_nested, chars_to_string, push_chars, push_lit, resolve_content, sp_cell_resolved,
    sp_col_width, sp_pad, sp_wrap, str_chars, wrap_vec, RendererKind,
};
use crate::table::{lemma_cell_height, lemma_cell_ok};

verus! {

/// The state of one line radiating from a grid intersection.
#[derive(Debug, Clone, Copy, PartialEq, Eq, Structural)]
pub enum Line {
    Absent,
    Thin,
    Bold,
}

/// A glyph set for the grid, one printable character for every realizable
/// combination of line states at an intersection, with the configuration
/// flags of the renderer.
#[derive(Debug, Clone, Copy, PartialEq, Eq, Structural)]
pub struct Decor {
    pub blank: char,
    pub up_bold_down_bold: char,
    pub right_bold_left_bold: char,
    pub right_bold_down_bold: char,
    pub down_bold_left_bold: char,
    pub up_bold_right_bold: char,
    pub up_bold_left_bold: char,
    pub up_bold_right_thin_down_bold: char,
    pub up_bold_right_bold_down_bold: char,
    pub up_bold_down_bold_left_thin: char,
    pub up_bold_down_bold_left_bold: char,
    pub right_bold_down_thin_left_bold: char,
    pub right_bold_down_bold_left_bold: char,
    pub up_thin_right_bold_left_bold: char,
    pub up_bold_right_bold_left_bold: char,
    pub up_thin_right_bold_down_thin_left_bold: char,
    pub up_bold_right_thin_down_bold_left_thin: char,
    pub up_bold_right_bold_down_bold_left_bold: char,
    pub right_thin_left_thin: char,
    pub up_thin_down_thin: char,
    pub right_thin_down_thin: char,
    pub down_thin_left_thin: char,
    pub up_thin_right_thin: char,
    pub up_thin_left_thin: char,
    pub up_thin_right_thin_down_thin: char,
    pub up_thin_down_thin_left_thin: char,
    pub right_thin_down_thin_left_thin: char,
    pub up_thin_right_thin_left_thin: char,
    pub up_thin_right_thin_down_thin_left_thin: char,
    pub up_thin: char,
    pub right_thin: char,
    pub down_thin: char,
    pub left_thin: char,
    pub print_escape_codes: bool,
    pub draw_outer_border: bool,
    pub draw_inner_horizontal_border: bool,
    pub remap_thin_to: Line,
    pub remap_bold_to: Line,
}

/// The default glyph set: a double-line outline with thin inner rules.
pub open spec fn sp_double_outline() -> Decor {
    Decor {
        blank: ' ',
        right_bold_left_bold: '═',
        up_bold_down_bold: '║',
        right_bold_down_bold: '╔',
        down_bold_left_bold: '╗',
        up_bold_right_bold: '╚',
        up_bold_left_bold: '╝',
        up_bold_right_thin_down_bold: '╟',
        up_bold_right_bold_down_bold: '╠',
        up_bold_down_bold_left_thin: '╢',
        up_bold_down_bold_left_bold: '╣',
        right_bold_down_thin_left_bold: '╤',
        right_bold_down_bold_left_bold: '╦',
        up_thin_right_bold_left_bold: '╧',
        up_bold_right_bold_left_bold: '╩',
        up_thin_right_bold_down_thin_left_bold: '╪',
        up_bold_right_thin_down_bold_left_thin: '╫',
        up_bold_right_bold_down_bold_left_bold: '╬',
        right_thin_left_thin: '─',
        up_thin_down_thin: '│',
        right_thin_down_thin: '┌',
        down_thin_left_thin: '┐',
        up_thin_right_thin: '└',
        up_thin_left_thin: '┘',
        up_thin_right_thin_down_thin: '├',
        up_thin_down_thin_left_thin: '┤',
        right_thin_down_thin_left_thin: '┬',
        up_thin_right_thin_left_thin: '┴',
        up_thin_right_thin_down_thin_left_thin: '┼',
        up_thin: '╵',
        right_thin: '╶',
        down_thin: '╷',
        left_thin: '╴',
        print_escape_codes: true,
        draw_outer_border: true,
        draw_inner_horizontal_border: true,
        remap_thin_to: Line::Thin,
        remap_bold_to: Line::Bold,
    }
}

impl Decor {
    /// The default glyph set: a double-line outline with thin inner rules.
    pub fn double_outline() -> (r: Decor)
        ensures
            r == sp_double_outline(),
    {
        Decor {
            blank: ' ',
            right_bold_left_bold: '═',
            up_bold_down_bold: '║',
            right_bold_down_bold: '╔',
            down_bold_left_bold: '╗',
            up_bold_right_bold: '╚',
            up_bold_left_bold: '╝',
            up_bold_right_thin_down_bold: '╟',
            up_bold_right_bold_down_bold: '╠',
            up_bold_down_bold_left_thin: '╢',
            up_bold_down_bold_left_bold: '╣',
            right_bold_down_thin_left_bold: '╤',
            right_bold_down_bold_left_bold: '╦',
            up_thin_right_bold_left_bold: '╧',
            up_bold_right_bold_left_bold: '╩',
            up_thin_right_bold_down_thin_left_bold: '╪',
            up_bold_right_thin_down_bold_left_thin: '╫',
            up_bold_right_bold_down_bold_left_bold: '╬',
            right_thin_left_thin: '─',
            up_thin_down_thin: '│',
            right_thin_down_thin: '┌',
            down_thin_left_thin: '┐',
            up_thin_right_thin: '└',
            up_thin_left_thin: '┘',
            up_thin_right_thin_down_thin: '├',
            up_thin_down_thin_left_thin: '┤',
            right_thin_down_thin_left_thin: '┬',
            up_thin_right_thin_left_thin: '┴',
            up_thin_right_thin_down_thin_left_thin: '┼',
            up_thin: '╵',
            right_thin: '╶',
            down_thin: '╷',
            left_thin: '╴',
            print_escape_codes: true,
            draw_outer_border: true,
            draw_inner_horizontal_border: true,
            remap_thin_to: Line::Thin,
            remap_bold_to: Line::Bold,
        }
    }

    /// Disables ANSI escape output.
    #[must_use]
    pub fn suppress_escape_codes(self) -> (r: Decor)
        ensures
            r == (Decor { print_escape_codes: false, ..self }),
    {
        Decor { print_escape_codes: false, ..self }
    }

    /// Disables the outer border.
    #[must_use]
    pub fn suppress_outer_border(self) -> (r: Decor)
        ensures
            r == (Decor { draw_outer_border: false, ..self }),
    {
        Decor { draw_outer_border: false, ..self }
    }

    /// Disables the horizontal rules between rows.
    #[must_use]
    pub fn suppress_inner_horizontal_border(self) -> (r: Decor)
        ensures
            r == (Decor { draw_inner_horizontal_border: false, ..self }),
    {
        Decor { draw_inner_horizontal_border: false, ..self }
    }

    /// Replaces every line glyph with a blank.
    #[must_use]
    pub fn suppress_all_lines(self) -> (r: Decor)
        ensures
            r == (Decor { remap_thin_to: Line::Absent, remap_bold_to: Line::Absent, ..self }),
    {
        Decor { remap_thin_to: Line::Absent, remap_bold_to: Line::Absent, ..self }
    }
}

impl Default for Decor {
    /// The default glyph set: a double-line outline with thin inner rules.
    fn default() -> (r: Decor)
        ensures
            r == sp_double_outline(),
    {
        Decor::double_outline()
    }
}

/// The line state actually drawn for a requested one, under the decor's
/// remapping.
pub open spec fn sp_remap_line(d: Decor, line: Line) -> Line {
    match line {
        Line::Absent => Line::Absent,
        Line::Thin => d.remap_thin_to,
        Line::Bold => d.remap_bold_to,
    }
}

/// Whether the decor's line remapping is one of the provided
/// configurations: the identity, or the all-blank remapping of
/// [`Decor::suppress_all_lines`]. Only these keep every realizable
/// combination of line states realizable after remapping.
pub open spec fn sp_remap_ok(d: Decor) -> bool {
    ||| (d.remap_thin_to == Line::Thin && d.remap_bold_to == Line::Bold)
    ||| (d.remap_thin_to == Line::Absent && d.remap_bold_to == Line::Absent)
}

/// Whether a combination of line states at an intersection is realizable by
/// the border-synthesis rules and so has a glyph.
#[verifier::opaque]
pub open spec fn sp_realizable(up: Line, right: Line, down: Line, left: Line) -> bool {
    match (up, right, down, left) {
        (Line::Absent, Line::Absent, Line::Absent, Line::Absent) => true,
        (Line::Absent, Line::Bold, Line::Absent, Line::Bold) => true,
        (Line::Bold, Line::Absent, Line::Bold, Line::Absent) => true,
        (Line::Absent, Line::Bold, Line::Bold, Line::Absent) => true,
        (Line::Absent, Line::Absent, Line::Bold, Line::Bold) => true,
        (Line::Bold, Line::Bold, Line::Absent, Line::Absent) => true,
        (Line::Bold, Line::Absent, Line::Absent, Line::Bold) => true,
        (Line::Bold, Line::Thin, Line::Bold, Line::Absent) => true,
        (Line::Bold, Line::Bold, Line::Bold, Line::Absent) => true,
        (Line::Bold, Line::Absent, Line::Bold, Line::Thin) => true,
        (Line::Bold, Line::Absent, Line::Bold, Line::Bold) => true,
        (Line::Absent, Line::Bold, Line::Thin, Line::Bold) => true,
        (Line::Absent, Line::Bold, Line::Bold, Line::Bold) => true,
        (Line::Thin, Line::Bold, Line::Absent, Line::Bold) => true,
        (Line::Bold, Line::Bold, Line::Absent, Line::Bold) => true,
        (Line::Thin, Line::Bold, Line::Thin, Line::Bold) => true,
        (Line::Bold, Line::Thin, Line::Bold, Line::Thin) => true,
        (Line::Bold, Line::Bold, Line::Bold, Line::Bold) => true,
        (Line::Absent, Line::Thin, Line::Absent, Line::Thin) => true,
        (Line::Thin, Line::Absent, Line::Thin, Line::Absent) => true,
        (Line::Absent, Line::Thin, Line::Thin, Line::Absent) => true,
        (Line::Absent, Line::Absent, Line::Thin, Line::Thin) => true,
        (Line::Thin, Line::Thin, Line::Absent, Line::Absent) => true,
        (Line::Thin, Line::Absent, Line::Absent, Line::Thin) => true,
        (Line::Thin, Line::Thin, Line::Thin, Line::Absent) => true,
        (Line::Thin, Line::Absent, Line::Thin, Line::Thin) => true,
        (Line::Absent, Line::Thin, Line::Thin, Line::Thin) => true,
        (Line::Thin, Line::Thin, Line::Absent, Line::Thin) => true,
        (Line::Thin, Line::Thin, Line::Thin, Line::Thin) => true,
        (Line::Thin, Line::Absent, Line::Absent, Line::Absent) => true,
        (Line::Absent, Line::Thin, Line::Absent, Line::Absent) => true,
        (Line::Absent, Line::Absent, Line::Thin, Line::Absent) => true,
        (Line::Absent, Line::Absent, Line::Absent, Line::Thin) => true,
        _ => false,
    }
}

/// The glyph for an already-remapped combination of line states.
#[verifier::opaque]
pub open spec fn sp_glyph(d: Decor, up: Line, right: Line, down: Line, left: Line) -> char {
    match (up, right, down, left) {
        (Line::Absent, Line::Absent, Line::Absent, Line::Absent) => d.blank,
        (Line::Absent, Line::Bold, Line::Absent, Line::Bold) => d.right_bold_left_bold,
        (Line::Bold, Line::Absent, Line::Bold, Line::Absent) => d.up_bold_down_bold,
        (Line::Absent, Line::Bold, Line::Bold, Line::Absent) => d.right_bold_down_bold,
        (Line::Absent, Line::Absent, Line::Bold, Line::Bold) => d.down_bold_left_bold,
        (Line::Bold, Line::Bold, Line::Absent, Line::Absent) => d.up_bold_right_bold,
        (Line::Bold, Line::Absent, Line::Absent, Line::Bold) => d.up_bold_left_bold,
        (Line::Bold, Line::Thin, Line::Bold, Line::Absent) => d.up_bold_right_thin_down_bold,
        (Line::Bold, Line::Bold, Line::Bold, Line::Absent) => d.up_bold_right_bold_down_bold,
        (Line::Bold, Line::Absent, Line::Bold, Line::Thin) => d.up_bold_down_bold_left_thin,
        (Line::Bold, Line::Absent, Line::Bold, Line::Bold) => d.up_bold_down_bold_left_bold,
        (Line::Absent, Line::Bold, Line::Thin, Line::Bold) => d.right_bold_down_thin_left_bold,
        (Line::Absent, Line::Bold, Line::Bold, Line::Bold) => d.right_bold_down_bold_left_bold,
        (Line::Thin, Line::Bold, Line::Absent, Line::Bold) => d.up_thin_right_bold_left_bold,
        (Line::Bold, Line::Bold, Line::Absent, Line::Bold) => d.up_bold_right_bold_left_bold,
        (Line::Thin, Line::Bold, Line::Thin, Line::Bold) => d.up_thin_right_bold_down_thin_left_bold,
        (Line::Bold, Line::Thin, Line::Bold, Line::Thin) => d.up_bold_right_thin_down_bold_left_thin,
        (Line::Bold, Line::Bold, Line::Bold, Line::Bold) => d.up_bold_right_bold_down_bold_left_bold,
        (Line::Absent, Line::Thin, Line::Absent, Line::Thin) => d.right_thin_left_thin,
        (Line::Thin, Line::Absent, Line::Thin, Line::Absent) => d.up_thin_down_thin,
        (Line::Absent, Line::Thin, Line::Thin, Line::Absent) => d.right_thin_down_thin,
        (Line::Absent, Line::Absent, Line::Thin, Line::Thin) => d.down_thin_left_thin,
        (Line::Thin, Line::Thin, Line::Absent, Line::Absent) => d.up_thin_right_thin,
        (Line::Thin, Line::Absent, Line::Absent, Line::Thin) => d.up_thin_left_thin,
        (Line::Thin, Line::Thin, Line::Thin, Line::Absent) => d.up_thin_right_thin_down_thin,
        (Line::Thin, Line::Absent, Line::Thin, Line::Thin) => d.up_thin_down_thin_left_thin,
        (Line::Absent, Line::Thin, Line::Thin, Line::Thin) => d.right_thin_down_thin_left_thin,
        (Line::Thin, Line::Thin, Line::Absent, Line::Thin) => d.up_thin_right_thin_left_thin,
        (Line::Thin, Line::Thin, Line::Thin, Line::Thin) => d.up_thin_right_thin_down_thin_left_thin,
        (Line::Thin, Line::Absent, Line::Absent, Line::Absent) => d.up_thin,
        (Line::Absent, Line::Thin, Line::Absent, Line::Absent) => d.right_thin,
        (Line::Absent, Line::Absent, Line::Thin, Line::Absent) => d.down_thin,
        (Line::Absent, Line::Absent, Line::Absent, Line::Thin) => d.left_thin,
        _ => d.blank,
    }
}

/// The glyph drawn for a requested combination of line states, after the
/// decor's remapping.
#[verifier::opaque]
pub open spec fn sp_lookup(d: Decor, up: Line, right: Line, down: Line, left: Line) -> char {
    sp_glyph(
        d,
        sp_remap_line(d, up),
        sp_remap_line(d, right),
        sp_remap_line(d, down),
        sp_remap_line(d, left),
    )
}

proof fn lemma_remap_realizable(d: Decor, up: Line, right: Line, down: Line, left: Line)
    requires
        sp_remap_ok(d),
        sp_realizable(up, right, down, left),
    ensures
        sp_realizable(
            sp_remap_line(d, up),
            sp_remap_line(d, right),
            sp_remap_line(d, down),
            sp_remap_line(d, left),
        ),
{
    reveal(sp_realizable);
}

/// The line-state combinations that border synthesis constructs are
/// realizable: the vertical pair is bold on both sides or on neither, and so
/// is the horizontal pair; or the combination is one of the outer-border
/// tees and corners.
proof fn lemma_realizable(up: Line, right: Line, down: Line, left: Line)
    requires
        ({
            ||| ((up is Bold <==> down is Bold) && (right is Bold <==> left is Bold))
            ||| (up is Absent && right is Bold && left is Bold)
            ||| (down is Absent && right is Bold && left is Bold)
            ||| (up is Absent && left is Absent && right is Bold && down is Bold)
            ||| (up is Absent && right is Absent && down is Bold && left is Bold)
            ||| (down is Absent && left is Absent && up is Bold && right is Bold)
            ||| (down is Absent && right is Absent && up is Bold && left is Bold)
            ||| (up is Bold && down is Bold && left is Absent)
            ||| (up is Bold && down is Bold && right is Absent)
        }),
    ensures
        sp_realizable(up, right, down, left),
{
    reveal(sp_realizable);
}

impl Decor {
    /// The line state actually drawn for a requested one.
    fn remap_line(&self, line: Line) -> (r: Line)
        ensures
            r == sp_remap_line(*self, line),
    {
        match line {
            Line::Absent => Line::Absent,
            Line::Thin => self.remap_thin_to,
            Line::Bold => self.remap_bold_to,
        }
    }

    /// The glyph for a combination of line states. A combination outside the
    /// realizable set has no glyph and signals a logic defect.
    fn lookup(&self, up: Line, right: Line, down: Line, left: Line) -> (r: char)
        requires
            sp_remap_ok(*self),
            sp_realizable(up, right, down, left),
        ensures
            r == sp_lookup(*self, up, right, down, left),
    {
        proof {
            reveal(sp_realizable);
            reveal(sp_glyph);
            reveal(sp_lookup);
            lemma_remap_realizable(*self, up, right, down, left);
        }
        let up = self.remap_line(up);
        let right = self.remap_line(right);
        let down = self.remap_line(down);
        let left = self.remap_line(left);
        match (up, right, down, left) {
            (Line::Absent, Line::Absent, Line::Absent, Line::Absent) => self.blank,
            (Line::Absent, Line::Bold, Line::Absent, Line::Bold) => self.right_bold_left_bold,
            (Line::Bold, Line::Absent, Line::Bold, Line::Absent) => self.up_bold_down_bold,
            (Line::Absent, Line::Bold, Line::Bold, Line::Absent) => self.right_bold_down_bold,
            (Line::Absent, Line::Absent, Line::Bold, Line::Bold) => self.down_bold_left_bold,
            (Line::Bold, Line::Bold, Line::Absent, Line::Absent) => self.up_bold_right_bold,
            (Line::Bold, Line::Absent, Line::Absent, Line::Bold) => self.up_bold_left_bold,
            (Line::Bold, Line::Thin, Line::Bold, Line::Absent) => self.up_bold_right_thin_down_bold,
            (Line::Bold, Line::Bold, Line::Bold, Line::Absent) => self.up_bold_right_bold_down_bold,
            (Line::Bold, Line::Absent, Line::Bold, Line::Thin) => self.up_bold_down_bold_left_thin,
            (Line::Bold, Line::Absent, Line::Bold, Line::Bold) => self.up_bold_down_bold_left_bold,
            (Line::Absent, Line::Bold, Line::Thin, Line::Bold) => self.right_bold_down_thin_left_bold,
            (Line::Absent, Line::Bold, Line::Bold, Line::Bold) => self.right_bold_down_bold_left_bold,
            (Line::Thin, Line::Bold, Line::Absent, Line::Bold) => self.up_thin_right_bold_left_bold,
            (Line::Bold, Line::Bold, Line::Absent, Line::Bold) => self.up_bold_right_bold_left_bold,
            (Line::Thin, Line::Bold, Line::Thin, Line::Bold) => {
                self.up_thin_right_bold_down_thin_left_bold
            },
            (Line::Bold, Line::Thin, Line::Bold, Line::Thin) => {
                self.up_bold_right_thin_down_bold_left_thin
            },
            (Line::Bold, Line::Bold, Line::Bold, Line::Bold) => {
                self.up_bold_right_bold_down_bold_left_bold
            },
            (Line::Absent, Line::Thin, Line::Absent, Line::Thin) => self.right_thin_left_thin,
            (Line::Thin, Line::Absent, Line::Thin, Line::Absent) => self.up_thin_down_thin,
            (Line::Absent, Line::Thin, Line::Thin, Line::Absent) => self.right_thin_down_thin,
            (Line::Absent, Line::Absent, Line::Thin, Line::Thin) => self.down_thin_left_thin,
            (Line::Thin, Line::Thin, Line::Absent, Line::Absent) => self.up_thin_right_thin,
            (Line::Thin, Line::Absent, Line::Absent, Line::Thin) => self.up_thin_left_thin,
            (Line::Thin, Line::Thin, Line::Thin, Line::Absent) => self.up_thin_right_thin_down_thin,
            (Line::Thin, Line::Absent, Line::Thin, Line::Thin) => self.up_thin_down_thin_left_thin,
            (Line::Absent, Line::Thin, Line::Thin, Line::Thin) => self.right_thin_down_thin_left_thin,
            (Line::Thin, Line::Thin, Line::Absent, Line::Thin) => self.up_thin_right_thin_left_thin,
            (Line::Thin, Line::Thin, Line::Thin, Line::Thin) => {
                self.up_thin_right_thin_down_thin_left_thin
            },
            (Line::Thin, Line::Absent, Line::Absent, Line::Absent) => self.up_thin,
            (Line::Absent, Line::Thin, Line::Absent, Line::Absent) => self.right_thin,
            (Line::Absent, Line::Absent, Line::Thin, Line::Absent) => self.down_thin,
            (Line::Absent, Line::Absent, Line::Absent, Line::Thin) => self.left_thin,
            _ => self.blank,
        }
    }
}

/// The ANSI reset sequence.
pub open spec fn sp_reset() -> Seq<char> {
    seq!['\u{1b}', '[', '0', 'm']
}

/// The ANSI foreground escape sequence of a palette colour.
pub open spec fn sp_fg_code(p: Palette16) -> Seq<char> {
    match p {
        Palette16::Black => seq!['\u{1b}', '[', '3', '0', 'm'],
        Palette16::Red => seq!['\u{1b}', '[', '3', '1', 'm'],
        Palette16::Green => seq!['\u{1b}', '[', '3', '2', 'm'],
        Palette16::Yellow => seq!['\u{1b}', '[', '3', '3', 'm'],
        Palette16::Blue => seq!['\u{1b}', '[', '3', '4', 'm'],
        Palette16::Magenta => seq!['\u{1b}', '[', '3', '5', 'm'],
        Palette16::Cyan => seq!['\u{1b}', '[', '3', '6', 'm'],
        Palette16::White => seq!['\u{1b}', '[', '3', '7', 'm'],
        Palette16::BrightBlack => seq!['\u{1b}', '[', '3', '0', ';', '1', 'm'],
        Palette16::BrightRed => seq!['\u{1b}', '[', '3', '1', ';', '1', 'm'],
        Palette16::BrightGreen => seq!['\u{1b}', '[', '3', '2', ';', '1', 'm'],
        Palette16::BrightYellow => seq!['\u{1b}', '[', '3', '3', ';', '1', 'm'],
        Palette16::BrightBlue => seq!['\u{1b}', '[', '3', '4', ';', '1', 'm'],
        Palette16::BrightMagenta => seq!['\u{1b}', '[', '3', '5', ';', '1', 'm'],
        Palette16::BrightCyan => seq!['\u{1b}', '[', '3', '6', ';', '1', 'm'],
        Palette16::BrightWhite => seq!['\u{1b}', '[', '3', '7', ';', '1', 'm'],
        Palette16::Default => seq!['\u{1b}', '[', '0', 'm'],
        Palette16::Hidden => seq!['\u{1b}', '[', '8', 'm'],
    }
}

/// The ANSI background escape sequence of a palette colour.
pub open spec fn sp_bg_code(p: Palette16) -> Seq<char> {
    match p {
        Palette16::Black => seq!['\u{1b}', '[', '4', '0', 'm'],
        Palette16::Red => seq!['\u{1b}', '[', '4', '1', 'm'],
        Palette16::Green => seq!['\u{1b}', '[', '4', '2', 'm'],
        Palette16::Yellow => seq!['\u{1b}', '[', '4', '3', 'm'],
        Palette16::Blue => seq!['\u{1b}', '[', '4', '4', 'm'],
        Palette16::Magenta => seq!['\u{1b}', '[', '4', '5', 'm'],
        Palette16::Cyan => seq!['\u{1b}', '[', '4', '6', 'm'],
        Palette16::White => seq!['\u{1b}', '[', '4', '7', 'm'],
        Palette16::BrightBlack => seq!['\u{1b}', '[', '4', '0', ';', '1', 'm'],
        Palette16::BrightRed => seq!['\u{1b}', '[', '4', '1', ';', '1', 'm'],
        Palette16::BrightGreen => seq!['\u{1b}', '[', '4', '2', ';', '1', 'm'],
        Palette16::BrightYellow => seq!['\u{1b}', '[', '4', '3', ';', '1', 'm'],
        Palette16::BrightBlue => seq!['\u{1b}', '[', '4', '4', ';', '1', 'm'],
        Palette16::BrightMagenta => seq!['\u{1b}', '[', '4', '5', ';', '1', 'm'],
        Palette16::BrightCyan => seq!['\u{1b}', '[', '4', '6', ';', '1', 'm'],
        Palette16::BrightWhite => seq!['\u{1b}', '[', '4', '7', ';', '1', 'm'],
        Palette16::Default => Seq::empty(),
        Palette16::Hidden => Seq::empty(),
    }
}

impl Palette16 {
    /// The pair of ANSI escape codes of this colour, in the form
    /// `(foreground, background)`.
    fn escape_codes(&self) -> (r: (&'static str, &'static str))
        ensures
            r.0@ == sp_fg_code(*self),
            r.1@ == sp_bg_code(*self),
    {
        let r: (&'static str, &'static str) = match self {
            Palette16::Black => ("\x1b[30m", "\x1b[40m"),
            Palette16::Red => ("\x1b[31m", "\x1b[41m"),
            Palette16::Green => ("\x1b[32m", "\x1b[42m"),
            Palette16::Yellow => ("\x1b[33m", "\x1b[43m"),
            Palette16::Blue => ("\x1b[34m", "\x1b[44m"),
            Palette16::Magenta => ("\x1b[35m", "\x1b[45m"),
            Palette16::Cyan => ("\x1b[36m", "\x1b[46m"),
            Palette16::White => ("\x1b[37m", "\x1b[47m"),
            Palette16::BrightBlack => ("\x1b[30;1m", "\x1b[40;1m"),
            Palette16::BrightRed => ("\x1b[31;1m", "\x1b[41;1m"),
            Palette16::BrightGreen => ("\x1b[32;1m", "\x1b[42;1m"),
            Palette16::BrightYellow => ("\x1b[33;1m", "\x1b[43;1m"),
            Palette16::BrightBlue => ("\x1b[34;1m", "\x1b[44;1m"),
            Palette16::BrightMagenta => ("\x1b[35;1m", "\x1b[45;1m"),
            Palette16::BrightCyan => ("\x1b[36;1m", "\x1b[46;1m"),
            Palette16::BrightWhite => ("\x1b[37;1m", "\x1b[47;1m"),
            Palette16::Default => ("\x1b[0m", ""),
            Palette16::Hidden => ("\x1b[8m", ""),
        };
        proof {
            reveal_strlit("\x1b[30m");
            reveal_strlit("\x1b[31m");
            reveal_strlit("\x1b[32m");
            reveal_strlit("\x1b[33m");
            reveal_strlit("\x1b[34m");
            reveal_strlit("\x1b[35m");
            reveal_strlit("\x1b[36m");
            reveal_strlit("\x1b[37m");
            reveal_strlit("\x1b[40m");
            reveal_strlit("\x1b[41m");
            reveal_strlit("\x1b[42m");
            reveal_strlit("\x1b[43m");
            reveal_strlit("\x1b[44m");
            reveal_strlit("\x1b[45m");
            reveal_strlit("\x1b[46m");
            reveal_strlit("\x1b[47m");
            reveal_strlit("\x1b[30;1m");
            reveal_strlit("\x1b[31;1m");
            reveal_strlit("\x1b[32;1m");
            reveal_strlit("\x1b[33;1m");
            reveal_strlit("\x1b[34;1m");
            reveal_strlit("\x1b[35;1m");
            reveal_strlit("\x1b[36;1m");
            reveal_strlit("\x1b[37;1m");
            reveal_strlit("\x1b[40;1m");
            reveal_strlit("\x1b[41;1m");
            reveal_strlit("\x1b[42;1m");
            reveal_strlit("\x1b[43;1m");
            reveal_strlit("\x1b[44;1m");
            reveal_strlit("\x1b[45;1m");
            reveal_strlit("\x1b[46;1m");
            reveal_strlit("\x1b[47;1m");
            reveal_strlit("\x1b[0m");
            reveal_strlit("\x1b[8m");
            reveal_strlit("");
            assert(r.0@ =~= sp_fg_code(*self));
            assert(r.1@ =~= sp_bg_code(*self));
        }
        r
    }
}

/// The newline that ends each emitted grid line.
pub open spec fn sp_nl() -> Seq<char> {
    seq!['\n']
}

/// The ANSI bold escape sequence.
pub open spec fn sp_bold_code() -> Seq<char> {
    seq!['\u{1b}', '[', '1', 'm']
}

/// The ANSI italic escape sequence.
pub open spec fn sp_italic_code() -> Seq<char> {
    seq!['\u{1b}', '[', '3', 'm']
}

/// The ANSI underline escape sequence.
pub open spec fn sp_underline_code() -> Seq<char> {
    seq!['\u{1b}', '[', '4', 'm']
}

/// The ANSI blink escape sequence.
pub open spec fn sp_blink_code() -> Seq<char> {
    seq!['\u{1b}', '[', '5', 'm']
}

/// The ANSI reverse-video escape sequence.
pub open spec fn sp_reverse_code() -> Seq<char> {
    seq!['\u{1b}', '[', '7', 'm']
}

/// The ANSI strikethrough escape sequence.
pub open spec fn sp_strikethrough_code() -> Seq<char> {
    seq!['\u{1b}', '[', '9', 'm']
}

/// A code, present when a condition holds.
pub open spec fn sp_code_if(b: bool, code: Seq<char>) -> Seq<char> {
    if b {
        code
    } else {
        Seq::empty()
    }
}

/// The escape bundle applying to a whole padded line, whitespace included:
/// the fill background colour and the fill inversion.
#[verifier::opaque]
pub open spec fn sp_line_format(m: Map<u64, Style>) -> Seq<char> {
    (match sp_colour(m, KEY_FILL_BG) {
        Some(c) => sp_bg_code(c),
        None => Seq::empty(),
    }) + sp_code_if(sp_flag(m, KEY_FILL_INVERT), sp_reverse_code())
}

/// The escape bundle applying to the printable span of a line: the line
/// format followed by the character attributes.
#[verifier::opaque]
pub open spec fn sp_char_format(m: Map<u64, Style>) -> Seq<char> {
    sp_line_format(m) + sp_code_if(sp_flag(m, KEY_BLINK), sp_blink_code()) + sp_code_if(
        sp_flag(m, KEY_BOLD),
        sp_bold_code(),
    ) + sp_code_if(sp_flag(m, KEY_ITALIC), sp_italic_code()) + sp_code_if(
        sp_flag(m, KEY_STRIKETHROUGH),
        sp_strikethrough_code(),
    ) + (match sp_colour(m, KEY_TEXT_BG) {
        Some(c) => sp_bg_code(c),
        None => Seq::empty(),
    }) + (match sp_colour(m, KEY_TEXT_FG) {
        Some(c) => sp_fg_code(c),
        None => Seq::empty(),
    }) + sp_code_if(sp_flag(m, KEY_TEXT_INVERT), sp_reverse_code()) + sp_code_if(
        sp_flag(m, KEY_UNDERLINE),
        sp_underline_code(),
    )
}

/// What is emitted when the active format changes: a reset and the new
/// format, and nothing when the two formats are equal.
pub open spec fn sp_switch(new: Seq<char>, old: Seq<char>) -> Seq<char> {
    if new != old {
        sp_reset() + new
    } else {
        Seq::empty()
    }
}

/// The first position at or after `i` holding a printable (non-whitespace)
/// character, or the length of `s` when there is none.
pub open spec fn sp_first_printable(s: Seq<char>, i: int) -> int
    decreases s.len() - i,
{
    if i < 0 || i >= s.len() {
        s.len() as int
    } else if !crate::renderer::sp_is_ws(s[i]) {
        i
    } else {
        sp_first_printable(s, i + 1)
    }
}

/// The last position at or before `i` holding a printable character, or -1
/// when there is none.
pub open spec fn sp_last_printable(s: Seq<char>, i: int) -> int
    decreases i + 1,
{
    if i < 0 || i >= s.len() {
        -1
    } else if !crate::renderer::sp_is_ws(s[i]) {
        i
    } else {
        sp_last_printable(s, i - 1)
    }
}

/// A padded cell line as emitted: without escapes it is the text itself;
/// with them, the line format applies to the whole line and the character
/// format to the span between its first and last printable characters, a
/// reset-and-reapply being emitted only where the active format changes.
#[verifier::opaque]
pub open spec fn sp_content_emit(s: Seq<char>, m: Map<u64, Style>, esc: bool) -> Seq<char> {
    if !esc {
        s
    } else {
        let lf = sp_line_format(m);
        let cf = sp_char_format(m);
        let f = sp_first_printable(s, 0);
        if f >= s.len() {
            lf + s + sp_switch(Seq::empty(), lf)
        } else {
            let l = sp_last_printable(s, s.len() - 1);
            lf + s.take(f) + sp_switch(cf, lf) + s.subrange(f, l + 1) + sp_switch(lf, cf)
                + s.skip(l + 1) + sp_switch(Seq::empty(), lf)
        }
    }
}

/// A border glyph as emitted: wrapped in the table-scope border colours and
/// a reset when escapes are on and a border colour is set.
#[verifier::opaque]
pub open spec fn sp_bordered(
    b: char,
    fg: Option<Palette16>,
    bg: Option<Palette16>,
    esc: bool,
) -> Seq<char> {
    if !esc {
        seq![b]
    } else {
        match (fg, bg) {
            (None, None) => seq![b],
            _ => (match fg {
                Some(c) => sp_fg_code(c),
                None => Seq::empty(),
            }) + (match bg {
                Some(c) => sp_bg_code(c),
                None => Seq::empty(),
            }) + seq![b] + sp_reset(),
        }
    }
}

/// A border glyph as emitted, `n` times over.
#[verifier::opaque]
pub open spec fn sp_bordered_rep(
    b: char,
    fg: Option<Palette16>,
    bg: Option<Palette16>,
    esc: bool,
    n: nat,
) -> Seq<char>
    decreases n,
{
    if n == 0 {
        Seq::empty()
    } else {
        sp_bordered_rep(b, fg, bg, esc, (n - 1) as nat) + sp_bordered(b, fg, bg, esc)
    }
}

/// Whether the blended styles flag column `col` as a header.
pub open spec fn sp_is_header_col(t: Table, col: int) -> bool {
    sp_flag(sp_col_blended(t, col), KEY_HEADER)
}

/// Whether the blended styles flag column `col` as a separator.
pub open spec fn sp_is_sep_col(t: Table, col: int) -> bool {
    sp_flag(sp_col_blended(t, col), KEY_SEPARATOR)
}

/// Whether the blended styles flag row `row` as a header.
pub open spec fn sp_is_header_row(t: Table, row: int) -> bool {
    sp_flag(sp_row_blended(t, row), KEY_HEADER)
}

/// Whether the blended styles flag row `row` as a separator.
pub open spec fn sp_is_sep_row(t: Table, row: int) -> bool {
    sp_flag(sp_row_blended(t, row), KEY_SEPARATOR)
}

/// Whether the boundary at the right of column `col` is header-adjacent:
/// the column itself or its immediate right neighbour is a header.
pub open spec fn sp_header_col_pair(t: Table, col: int) -> bool {
    sp_is_header_col(t, col) || sp_is_header_col(t, col + 1)
}

/// Whether the boundary below row `row` is header-adjacent: the row itself
/// or its immediate lower neighbour is a header.
pub open spec fn sp_header_row_pair(t: Table, row: int) -> bool {
    sp_is_header_row(t, row) || sp_is_header_row(t, row + 1)
}

/// A header row makes both its top and its bottom boundary header-adjacent,
/// so border synthesis thickens the rules on both sides of it.
pub proof fn lemma_header_row_adjacency(t: Table, row: int)
    requires
        sp_is_header_row(t, row),
    ensures
        sp_header_row_pair(t, row - 1),
        sp_header_row_pair(t, row),
{
}

/// A header column makes both its left and its right boundary
/// header-adjacent.
pub proof fn lemma_header_col_adjacency(t: Table, col: int)
    requires
        sp_is_header_col(t, col),
    ensures
        sp_header_col_pair(t, col - 1),
        sp_header_col_pair(t, col),
{
}

/// Whether escape codes are emitted by this pass: enabled in the decor and
/// not a nested pass.
pub open spec fn sp_esc(d: Decor, nested: bool) -> bool {
    d.print_escape_codes && !nested
}

/// The border foreground colour: resolved from the table's own styles.
pub open spec fn sp_bfg(t: Table) -> Option<Palette16> {
    sp_colour(t.sp_styles(), KEY_BORDER_FG)
}

/// The border background colour: resolved from the table's own styles.
pub open spec fn sp_bbg(t: Table) -> Option<Palette16> {
    sp_colour(t.sp_styles(), KEY_BORDER_BG)
}

/// The wrapped lines of the cell at a coordinate, at its column's width.
pub open spec fn sp_cell_lines(t: Table, d: Decor, col: int, row: int) -> Seq<Seq<char>>
    decreases sp_table_height(t), 7int, 0int,
{
    sp_wrap(
        sp_cell_resolved(t, col, row, RendererKind::Console(d)),
        sp_col_width(t, col, RendererKind::Console(d)) as nat,
    )
}

/// The greatest wrapped line count over the first `col` cells of a row.
pub open spec fn sp_max_lines_upto(t: Table, d: Decor, row: int, col: int) -> nat
    decreases sp_table_height(t), 8int, col,
{
    if col <= 0 {
        0
    } else {
        let rest = sp_max_lines_upto(t, d, row, col - 1);
        let this = sp_cell_lines(t, d, col - 1, row).len();
        if this > rest {
            this
        } else {
            rest
        }
    }
}

/// The number of physical output lines of a row: the greatest wrapped line
/// count over its columns.
pub open spec fn sp_max_lines(t: Table, d: Decor, row: int) -> nat
    decreases sp_table_height(t), 9int, 0int,
{
    sp_max_lines_upto(t, d, row, t.sp_cols().len() as int)
}

/// The line state below a top-border junction at the right of column `col`.
pub open spec fn sp_top_down(t: Table, col: int) -> Line {
    if sp_header_col_pair(t, col) {
        Line::Bold
    } else if sp_is_sep_row(t, 0) {
        Line::Absent
    } else {
        Line::Thin
    }
}

/// The top border's column fills and junctions, over the first `col`
/// columns.
pub open spec fn sp_top_cols(t: Table, d: Decor, nested: bool, col: int) -> Seq<char>
    decreases sp_table_height(t), 9int, col,
{
    if col <= 0 {
        Seq::empty()
    } else {
        let esc = sp_esc(d, nested);
        let c = col - 1;
        sp_top_cols(t, d, nested, c) + sp_bordered_rep(
            sp_lookup(d, Line::Absent, Line::Bold, Line::Absent, Line::Bold),
            sp_bfg(t),
            sp_bbg(t),
            esc,
            sp_col_width(t, c, RendererKind::Console(d)) as nat,
        ) + if c < t.sp_cols().len() - 1 {
            sp_bordered(
                sp_lookup(d, Line::Absent, Line::Bold, sp_top_down(t, c), Line::Bold),
                sp_bfg(t),
                sp_bbg(t),
                esc,
            )
        } else {
            Seq::empty()
        }
    }
}

/// The upper outside border: corners, per-column fills and junctions, and
/// the line ending.
pub open spec fn sp_top_border(t: Table, d: Decor, nested: bool) -> Seq<char>
    decreases sp_table_height(t), 10int, 0int,
{
    let esc = sp_esc(d, nested);
    sp_bordered(
        sp_lookup(d, Line::Absent, Line::Bold, Line::Bold, Line::Absent),
        sp_bfg(t),
        sp_bbg(t),
        esc,
    ) + sp_top_cols(t, d, nested, t.sp_cols().len() as int) + sp_bordered(
        sp_lookup(d, Line::Absent, Line::Absent, Line::Bold, Line::Bold),
        sp_bfg(t),
        sp_bbg(t),
        esc,
    ) + sp_nl()
}

/// The line state above a bottom-border junction at the right of column
/// `col`.
pub open spec fn sp_bot_up(t: Table, col: int) -> Line {
    if sp_header_col_pair(t, col) {
        Line::Bold
    } else if sp_is_sep_row(t, t.sp_rows().len() - 1) {
        Line::Absent
    } else {
        Line::Thin
    }
}

/// The bottom border's column fills and junctions, over the first `col`
/// columns.
pub open spec fn sp_bot_cols(t: Table, d: Decor, nested: bool, col: int) -> Seq<char>
    decreases sp_table_height(t), 9int, col,
{
    if col <= 0 {
        Seq::empty()
    } else {
        let esc = sp_esc(d, nested);
        let c = col - 1;
        sp_bot_cols(t, d, nested, c) + sp_bordered_rep(
            sp_lookup(d, Line::Absent, Line::Bold, Line::Absent, Line::Bold),
            sp_bfg(t),
            sp_bbg(t),
            esc,
            sp_col_width(t, c, RendererKind::Console(d)) as nat,
        ) + if c < t.sp_cols().len() - 1 {
            sp_bordered(
                sp_lookup(d, sp_bot_up(t, c), Line::Bold, Line::Absent, Line::Bold),
                sp_bfg(t),
                sp_bbg(t),
                esc,
            )
        } else {
            Seq::empty()
        }
    }
}

/// The lower outside border: corners and per-column fills and junctions,
/// without a trailing line ending.
pub open spec fn sp_bottom_border(t: Table, d: Decor, nested: bool) -> Seq<char>
    decreases sp_table_height(t), 10int, 0int,
{
    let esc = sp_esc(d, nested);
    sp_bordered(
        sp_lookup(d, Line::Bold, Line::Bold, Line::Absent, Line::Absent),
        sp_bfg(t),
        sp_bbg(t),
        esc,
    ) + sp_bot_cols(t, d, nested, t.sp_cols().len() as int) + sp_bordered(
        sp_lookup(d, Line::Bold, Line::Absent, Line::Absent, Line::Bold),
        sp_bfg(t),
        sp_bbg(t),
        esc,
    )
}

/// The padded text of one physical line of a cell: the wrapped line when
/// the cell has one at this index, else blank fill, padded to the column
/// width under the blended alignment.
#[verifier::opaque]
pub open spec fn sp_cell_padded(t: Table, d: Decor, row: int, col: int, line: int) -> Seq<char>
    decreases sp_table_height(t), 9int, 0int,
{
    let lines = sp_cell_lines(t, d, col, row);
    let text = if 0 <= line < lines.len() {
        lines[line]
    } else {
        Seq::empty()
    };
    sp_pad(
        text,
        ' ',
        sp_col_width(t, col, RendererKind::Console(d)) as nat,
        sp_halign(sp_cell_blended(t, col, row)),
    )
}

/// The cells and junctions of one physical row line, over the first `col`
/// columns.
pub open spec fn sp_row_cols(t: Table, d: Decor, nested: bool, row: int, line: int, col: int) -> Seq<
    char,
>
    decreases sp_table_height(t), 10int, col,
{
    if col <= 0 {
        Seq::empty()
    } else {
        let esc = sp_esc(d, nested);
        let c = col - 1;
        let updown = if sp_header_col_pair(t, c) {
            Line::Bold
        } else if sp_is_sep_row(t, row) {
            Line::Absent
        } else {
            Line::Thin
        };
        sp_row_cols(t, d, nested, row, line, c) + sp_content_emit(
            sp_cell_padded(t, d, row, c, line),
            sp_cell_blended(t, c, row),
            esc,
        ) + if c < t.sp_cols().len() - 1 {
            sp_bordered(
                sp_lookup(d, updown, Line::Absent, updown, Line::Absent),
                sp_bfg(t),
                sp_bbg(t),
                esc,
            )
        } else {
            Seq::empty()
        }
    }
}

/// One physical output line of a row: the outer vertical edges where drawn,
/// the padded cells with their separators, and the line ending.
pub open spec fn sp_row_line(t: Table, d: Decor, nested: bool, row: int, line: int) -> Seq<char>
    decreases sp_table_height(t), 11int, 0int,
{
    let esc = sp_esc(d, nested);
    let vert = sp_bordered(
        sp_lookup(d, Line::Bold, Line::Absent, Line::Bold, Line::Absent),
        sp_bfg(t),
        sp_bbg(t),
        esc,
    );
    (if d.draw_outer_border {
        vert
    } else {
        Seq::empty()
    }) + sp_row_cols(t, d, nested, row, line, t.sp_cols().len() as int) + (if d.draw_outer_border {
        vert
    } else {
        Seq::empty()
    }) + sp_nl()
}

/// The first `line` physical output lines of a row.
pub open spec fn sp_row_lines(t: Table, d: Decor, nested: bool, row: int, line: int) -> Seq<char>
    decreases sp_table_height(t), 11int, line,
{
    if line <= 0 {
        Seq::empty()
    } else {
        sp_row_lines(t, d, nested, row, line - 1) + sp_row_line(t, d, nested, row, line - 1)
    }
}

/// The line state of the horizontal rule through column `col` of the
/// separator below `row`.
pub open spec fn sp_sep_fill(t: Table, row: int, col: int) -> Line {
    if sp_header_row_pair(t, row) {
        Line::Bold
    } else if sp_is_sep_col(t, col) {
        Line::Absent
    } else {
        Line::Thin
    }
}

/// The horizontal fill through column `col` of the separator below `row`.
pub open spec fn sp_sep_run(t: Table, d: Decor, nested: bool, row: int, col: int) -> Seq<char>
    decreases sp_table_height(t), 9int, 0int,
{
    let rl = sp_sep_fill(t, row, col);
    sp_bordered_rep(
        sp_lookup(d, Line::Absent, rl, Line::Absent, rl),
        sp_bfg(t),
        sp_bbg(t),
        sp_esc(d, nested),
        sp_col_width(t, col, RendererKind::Console(d)) as nat,
    )
}

/// The junction glyph at the right of column `col` in the separator below
/// `row`, as emitted.
pub open spec fn sp_sep_junction(t: Table, d: Decor, nested: bool, row: int, col: int) -> Seq<
    char,
> {
    let up = if sp_header_col_pair(t, col) {
        Line::Bold
    } else if sp_is_sep_row(t, row) {
        Line::Absent
    } else {
        Line::Thin
    };
    let down = if sp_header_col_pair(t, col) {
        Line::Bold
    } else if sp_is_sep_row(t, row + 1) {
        Line::Absent
    } else {
        Line::Thin
    };
    sp_bordered(
        sp_lookup(d, up, sp_sep_fill(t, row, col + 1), down, sp_sep_fill(t, row, col)),
        sp_bfg(t),
        sp_bbg(t),
        sp_esc(d, nested),
    )
}

/// The fills and junctions of the separator below `row`, over the first
/// `col` columns.
pub open spec fn sp_row_sep_cols(t: Table, d: Decor, nested: bool, row: int, col: int) -> Seq<char>
    decreases sp_table_height(t), 10int, col,
{
    if col <= 0 {
        Seq::empty()
    } else {
        let c = col - 1;
        sp_row_sep_cols(t, d, nested, row, c) + sp_sep_run(t, d, nested, row, c) + if c
            < t.sp_cols().len() - 1 {
            sp_sep_junction(t, d, nested, row, c)
        } else {
            Seq::empty()
        }
    }
}

/// The horizontal separator between `row` and the row below it.
pub open spec fn sp_row_sep(t: Table, d: Decor, nested: bool, row: int) -> Seq<char>
    decreases sp_table_height(t), 11int, 0int,
{
    let esc = sp_esc(d, nested);
    (if d.draw_outer_border {
        sp_bordered(
            sp_lookup(d, Line::Bold, sp_sep_fill(t, row, 0), Line::Bold, Line::Absent),
            sp_bfg(t),
            sp_bbg(t),
            esc,
        )
    } else {
        Seq::empty()
    }) + sp_row_sep_cols(t, d, nested, row, t.sp_cols().len() as int) + (if d.draw_outer_border {
        sp_bordered(
            sp_lookup(
                d,
                Line::Bold,
                Line::Absent,
                Line::Bold,
                sp_sep_fill(t, row, t.sp_cols().len() - 1),
            ),
            sp_bfg(t),
            sp_bbg(t),
            esc,
        )
    } else {
        Seq::empty()
    }) + sp_nl()
}

/// The body of the grid: for each of the first `row` rows, its physical
/// lines, followed by the separator below it where one is drawn.
pub open spec fn sp_body(t: Table, d: Decor, nested: bool, row: int) -> Seq<char>
    decreases sp_table_height(t), 12int, row,
{
    if row <= 0 {
        Seq::empty()
    } else {
        let r = row - 1;
        sp_body(t, d, nested, r) + sp_row_lines(
            t,
            d,
            nested,
            r,
            sp_max_lines(t, d, r) as int,
        ) + if d.draw_inner_horizontal_border && r < t.sp_rows().len() - 1 {
            sp_row_sep(t, d, nested, r)
        } else {
            Seq::empty()
        }
    }
}

/// The console rendering of a table: the top border where drawn, the body
/// rows with their separators, and the bottom border where drawn, with no
/// trailing line ending.
pub open spec fn sp_render_console(t: Table, d: Decor, nested: bool) -> Seq<char>
    decreases sp_table_height(t), 13int, 0int,
{
    (if d.draw_outer_border {
        sp_top_border(t, d, nested)
    } else {
        Seq::empty()
    }) + sp_body(t, d, nested, t.sp_rows().len() as int) + (if d.draw_outer_border {
        sp_bottom_border(t, d, nested)
    } else {
        Seq::empty()
    })
}

/// Appends a border glyph, wrapped in the table-scope border colours where
/// escapes are on.
fn append_border(
    buf: &mut Vec<char>,
    b: char,
    fg: Option<Palette16>,
    bg: Option<Palette16>,
    esc: bool,
)
    ensures
        final(buf)@ == old(buf)@ + sp_bordered(b, fg, bg, esc),
{
    proof {
        reveal(sp_bordered);
    }
    if esc && (fg.is_some() || bg.is_some()) {
        if let Some(c) = fg {
            let codes = c.escape_codes();
            push_lit(buf, codes.0);
        }
        if let Some(c) = bg {
            let codes = c.escape_codes();
            push_lit(buf, codes.1);
        }
        buf.push(b);
        push_lit(buf, "\x1b[0m");
        proof {
            reveal_strlit("\x1b[0m");
            assert("\x1b[0m"@ =~= sp_reset());
            assert(buf@ =~= old(buf)@ + sp_bordered(b, fg, bg, esc));
        }
    } else {
        buf.push(b);
        proof {
            assert(buf@ =~= old(buf)@ + seq![b]);
        }
    }
}

/// Appends a border glyph `n` times over.
fn append_border_rep(
    buf: &mut Vec<char>,
    b: char,
    fg: Option<Palette16>,
    bg: Option<Palette16>,
    esc: bool,
    n: usize,
)
    ensures
        final(buf)@ == old(buf)@ + sp_bordered_rep(b, fg, bg, esc, n as nat),
{
    let mut i: usize = 0;
    proof {
        reveal(sp_bordered_rep);
        assert(buf@ =~= old(buf)@ + sp_bordered_rep(b, fg, bg, esc, 0));
    }
    while i < n
        invariant
            i <= n,
            buf@ == old(buf)@ + sp_bordered_rep(b, fg, bg, esc, i as nat),
        decreases n - i,
    {
        append_border(buf, b, fg, bg, esc);
        proof {
            reveal(sp_bordered_rep);
        }
        i += 1;
    }
}

/// The line format of a style set, as emitted.
fn line_format_of(styles: &Styles) -> (r: Vec<char>)
    ensures
        r@ == sp_line_format(styles@),
{
    let mut buf: Vec<char> = Vec::new();
    if let Some(c) = styles.colour(KEY_FILL_BG) {
        let codes = c.escape_codes();
        push_lit(&mut buf, codes.1);
    }
    if styles.flag_or_default(KEY_FILL_INVERT) {
        push_lit(&mut buf, "\x1b[7m");
    }
    proof {
        reveal(sp_line_format);
        reveal_strlit("\x1b[7m");
        assert("\x1b[7m"@ =~= sp_reverse_code());
        assert(buf@ =~= sp_line_format(styles@));
    }
    buf
}

/// The character format of a style set, as emitted.
fn char_format_of(styles: &Styles) -> (r: Vec<char>)
    ensures
        r@ == sp_char_format(styles@),
{
    let mut buf = line_format_of(styles);
    if styles.flag_or_default(KEY_BLINK) {
        push_lit(&mut buf, "\x1b[5m");
    }
    if styles.flag_or_default(KEY_BOLD) {
        push_lit(&mut buf, "\x1b[1m");
    }
    if styles.flag_or_default(KEY_ITALIC) {
        push_lit(&mut buf, "\x1b[3m");
    }
    if styles.flag_or_default(KEY_STRIKETHROUGH) {
        push_lit(&mut buf, "\x1b[9m");
    }
    if let Some(c) = styles.colour(KEY_TEXT_BG) {
        let codes = c.escape_codes();
        push_lit(&mut buf, codes.1);
    }
    if let Some(c) = styles.colour(KEY_TEXT_FG) {
        let codes = c.escape_codes();
        push_lit(&mut buf, codes.0);
    }
    if styles.flag_or_default(KEY_TEXT_INVERT) {
        push_lit(&mut buf, "\x1b[7m");
    }
    if styles.flag_or_default(KEY_UNDERLINE) {
        push_lit(&mut buf, "\x1b[4m");
    }
    proof {
        reveal_strlit("\x1b[5m");
        reveal_strlit("\x1b[1m");
        reveal_strlit("\x1b[3m");
        reveal_strlit("\x1b[9m");
        reveal_strlit("\x1b[7m");
        reveal_strlit("\x1b[4m");
        assert("\x1b[5m"@ =~= sp_blink_code());
        assert("\x1b[1m"@ =~= sp_bold_code());
        assert("\x1b[3m"@ =~= sp_italic_code());
        assert("\x1b[9m"@ =~= sp_strikethrough_code());
        assert("\x1b[7m"@ =~= sp_reverse_code());
        assert("\x1b[4m"@ =~= sp_underline_code());
        reveal(sp_char_format);
        assert(buf@ =~= sp_char_format(styles@));
    }
    buf
}

/// Appends a reset and the new format where it differs from the old.
fn append_switch(buf: &mut Vec<char>, new_format: &Vec<char>, old_format: &Vec<char>)
    ensures
        final(buf)@ == old(buf)@ + sp_switch(new_format@, old_format@),
{
    if !chars_eq(new_format, old_format) {
        push_lit(buf, "\x1b[0m");
        push_chars(buf, new_format);
        proof {
            reveal_strlit("\x1b[0m");
            assert("\x1b[0m"@ =~= sp_reset());
            assert(buf@ =~= old(buf)@ + sp_switch(new_format@, old_format@));
        }
    }
}

/// The first position in `v` holding a printable character, or the length
/// of `v` when there is none.
fn find_first_printable(v: &Vec<char>) -> (r: usize)
    ensures
        r == sp_first_printable(v@, 0),
        r <= v@.len(),
        r < v@.len() ==> !crate::renderer::sp_is_ws(v@[r as int]),
{
    let n = v.len();
    let mut i: usize = 0;
    while i < n
        invariant
            n == v@.len(),
            i <= n,
            sp_first_printable(v@, 0) == sp_first_printable(v@, i as int),
        decreases n - i,
    {
        if !crate::renderer::is_whitespace(v[i]) {
            return i;
        }
        i += 1;
    }
    n
}

/// The last position in `v` holding a printable character; there must be
/// one.
fn find_last_printable(v: &Vec<char>) -> (r: usize)
    requires
        sp_first_printable(v@, 0) < v@.len(),
    ensures
        r < v@.len(),
        r == sp_last_printable(v@, v@.len() - 1),
{
    proof {
        lemma_first_printable(v@, 0);
    }
    let n = v.len();
    let mut i: usize = n - 1;
    while i > 0
        invariant
            n == v@.len(),
            0 <= i < n,
            sp_last_printable(v@, n - 1) == sp_last_printable(v@, i as int),
            sp_first_printable(v@, 0) < v@.len(),
            sp_first_printable(v@, 0) <= i,
        decreases i,
    {
        if !crate::renderer::is_whitespace(v[i]) {
            return i;
        }
        proof {
            lemma_first_printable(v@, 0);
            assert(i != sp_first_printable(v@, 0));
        }
        i -= 1;
    }
    proof {
        lemma_first_printable(v@, 0);
        assert(i == 0);
        assert(sp_first_printable(v@, 0) == 0);
        assert(!crate::renderer::sp_is_ws(v@[0]));
    }
    0
}

proof fn lemma_last_printable(s: Seq<char>, i: int)
    requires
        -1 <= i < s.len(),
    ensures
        -1 <= sp_last_printable(s, i) <= i,
        sp_last_printable(s, i) >= 0 ==> !crate::renderer::sp_is_ws(s[sp_last_printable(s, i)]),
        forall|m: int|
            sp_last_printable(s, i) < m <= i ==> crate::renderer::sp_is_ws(s[m]),
    decreases i + 1,
{
    if i >= 0 && crate::renderer::sp_is_ws(s[i]) {
        lemma_last_printable(s, i - 1);
    }
}

proof fn lemma_first_printable(s: Seq<char>, i: int)
    requires
        0 <= i <= s.len(),
    ensures
        i <= sp_first_printable(s, i) <= s.len(),
        sp_first_printable(s, i) < s.len() ==> !crate::renderer::sp_is_ws(
            s[sp_first_printable(s, i)],
        ),
        forall|m: int| i <= m < sp_first_printable(s, i) ==> crate::renderer::sp_is_ws(s[m]),
    decreases s.len() - i,
{
    if i < s.len() && crate::renderer::sp_is_ws(s[i]) {
        lemma_first_printable(s, i + 1);
    }
}

/// Appends a padded cell line, with the line format over the whole of it
/// and the character format over its printable span, where escapes are on.
#[verifier::rlimit(100)]
fn append_content(buf: &mut Vec<char>, s: &Vec<char>, styles: &Styles, esc: bool)
    ensures
        final(buf)@ == old(buf)@ + sp_content_emit(s@, styles@, esc),
{
    proof {
        reveal(sp_content_emit);
    }
    if !esc {
        push_chars(buf, s);
        return ;
    }
    let lf = line_format_of(styles);
    let cf = char_format_of(styles);
    let empty_format: Vec<char> = Vec::new();
    push_chars(buf, &lf);
    let first = find_first_printable(s);
    if first >= s.len() {
        push_chars(buf, s);
        append_switch(buf, &empty_format, &lf);
        proof {
            assert(buf@ =~= old(buf)@ + sp_content_emit(s@, styles@, esc));
        }
        return ;
    }
    let last = find_last_printable(s);
    proof {
        lemma_first_printable(s@, 0);
        lemma_last_printable(s@, s@.len() - 1);
        if (last as int) < first as int {
            assert(crate::renderer::sp_is_ws(s@[first as int]));
            assert(false);
        }
    }
    let ghost f = first as int;
    let ghost l = last as int;
    let n = s.len();
    let mut i: usize = 0;
    while i < first
        invariant
            n == s@.len(),
            first < n,
            i <= first,
            buf@ == old(buf)@ + lf@ + s@.subrange(0, i as int),
        decreases first - i,
    {
        buf.push(s[i]);
        proof {
            assert(s@.subrange(0, i + 1) =~= s@.subrange(0, i as int).push(s@[i as int]));
            assert(buf@ =~= old(buf)@ + lf@ + s@.subrange(0, i + 1));
        }
        i += 1;
    }
    append_switch(buf, &cf, &lf);
    let ghost mid0 = buf@;
    let mut i2: usize = first;
    while i2 < last + 1
        invariant
            n == s@.len(),
            first <= i2 <= last + 1,
            last < n,
            mid0 == buf@.take(mid0.len() as int) && buf@ == mid0 + s@.subrange(
                first as int,
                i2 as int,
            ),
        decreases last + 1 - i2,
    {
        buf.push(s[i2]);
        proof {
            assert(s@.subrange(first as int, i2 + 1) =~= s@.subrange(first as int, i2 as int).push(
                s@[i2 as int],
            ));
            assert(buf@ =~= mid0 + s@.subrange(first as int, i2 + 1));
            assert(mid0 =~= buf@.take(mid0.len() as int));
        }
        i2 += 1;
    }
    append_switch(buf, &lf, &cf);
    let ghost mid1 = buf@;
    let mut i3: usize = last + 1;
    while i3 < n
        invariant
            n == s@.len(),
            last + 1 <= i3 <= n,
            mid1 == buf@.take(mid1.len() as int) && buf@ == mid1 + s@.subrange(last + 1, i3 as int),
        decreases n - i3,
    {
        buf.push(s[i3]);
        proof {
            assert(s@.subrange(last + 1, i3 + 1) =~= s@.subrange(last + 1, i3 as int).push(
                s@[i3 as int],
            ));
            assert(buf@ =~= mid1 + s@.subrange(last + 1, i3 + 1));
            assert(mid1 =~= buf@.take(mid1.len() as int));
        }
        i3 += 1;
    }
    append_switch(buf, &empty_format, &lf);
    proof {
        assert(s@.take(f) =~= s@.subrange(0, f));
        assert(s@.skip(l + 1) =~= s@.subrange(l + 1, s@.len() as int));
        assert(buf@ =~= old(buf)@ + sp_content_emit(s@, styles@, esc));
    }
}

/// One resolved, wrapped cell of the grid.
struct GridCell {
    lines: Vec<Vec<char>>,
    styles: Styles,
}

/// The pre-rendered grid: per-column widths and classifications, per-row
/// classifications, and each cell's wrapped lines with its blended styles.
struct Grid {
    widths: Vec<usize>,
    cells: Vec<Vec<GridCell>>,
    col_hdr: Vec<bool>,
    col_sep: Vec<bool>,
    row_hdr: Vec<bool>,
    row_sep: Vec<bool>,
}

/// The grid faithfully pre-renders the table under the decor.
spec fn sp_grid_ok(g: Grid, t: Table, d: Decor) -> bool {
    let ncols = t.sp_cols().len() as int;
    let nrows = t.sp_rows().len() as int;
    &&& g.widths@.len() == ncols
    &&& forall|c: int|
        0 <= c < ncols ==> g.widths@[c] == sp_col_width(t, c, RendererKind::Console(d))
    &&& g.cells@.len() == nrows
    &&& forall|r: int| 0 <= r < nrows ==> #[trigger] g.cells@[r]@.len() == ncols
    &&& forall|r: int, c: int|
        0 <= r < nrows && 0 <= c < ncols ==> #[trigger] g.cells@[r]@[c].lines.deep_view()
            == sp_cell_lines(t, d, c, r) && g.cells@[r]@[c].styles@ == sp_cell_blended(t, c, r)
    &&& g.col_hdr@.len() == ncols
    &&& forall|c: int| 0 <= c < ncols ==> g.col_hdr@[c] == sp_is_header_col(t, c)
    &&& g.col_sep@.len() == ncols
    &&& forall|c: int| 0 <= c < ncols ==> g.col_sep@[c] == sp_is_sep_col(t, c)
    &&& g.row_hdr@.len() == nrows
    &&& forall|r: int| 0 <= r < nrows ==> g.row_hdr@[r] == sp_is_header_row(t, r)
    &&& g.row_sep@.len() == nrows
    &&& forall|r: int| 0 <= r < nrows ==> g.row_sep@[r] == sp_is_sep_row(t, r)
}

impl Grid {
    /// Whether the boundary at the right of column `col` is header-adjacent.
    fn is_header_col_pair(&self, t: &Table, d: &Decor, col: usize) -> (r: bool)
        requires
            sp_grid_ok(*self, *t, *d),
            col < t.sp_cols().len(),
        ensures
            r == sp_header_col_pair(*t, col as int),
    {
        let n = self.col_hdr.len();
        proof {
            assert(col < self.col_hdr@.len());
        }
        if self.col_hdr[col] {
            true
        } else if col + 1 < n {
            self.col_hdr[col + 1]
        } else {
            proof {
                assert(sp_col_blended(*t, col + 1) == t.sp_styles());
                assert(sp_col_blended(*t, t.sp_cols().len() as int) == t.sp_styles());
            }
            let styles = t.styles();
            styles.flag_or_default(KEY_HEADER)
        }
    }

    /// Whether the boundary below row `row` is header-adjacent.
    fn is_header_row_pair(&self, t: &Table, d: &Decor, row: usize) -> (r: bool)
        requires
            sp_grid_ok(*self, *t, *d),
            row < t.sp_rows().len(),
        ensures
            r == sp_header_row_pair(*t, row as int),
    {
        let n = self.row_hdr.len();
        proof {
            assert(row < self.row_hdr@.len());
        }
        if self.row_hdr[row] {
            true
        } else if row + 1 < n {
            self.row_hdr[row + 1]
        } else {
            proof {
                assert(sp_row_blended(*t, row + 1) == t.sp_styles());
            }
            let styles = t.styles();
            styles.flag_or_default(KEY_HEADER)
        }
    }
}

/// Pre-renders the table: computes column widths, resolves and wraps every
/// cell, and classifies every row and column.
#[verifier::rlimit(100)]
fn pre_render(t: &Table, d: &Decor) -> (g: Grid)
    requires
        sp_table_contents_ok(*t),
        sp_remap_ok(*d),
    ensures
        sp_grid_ok(g, *t, *d),
    decreases sp_table_height(*t), 9int, 0int,
{
    let rk = RendererKind::Console(*d);
    let widths = t.col_widths(&rk);
    let ncols = t.num_cols();
    let nrows = t.num_rows();

    let mut col_hdr: Vec<bool> = Vec::new();
    let mut col_sep: Vec<bool> = Vec::new();
    let mut col: usize = 0;
    while col < ncols
        invariant
            ncols == t.sp_cols().len(),
            col <= ncols,
            col_hdr@.len() == col,
            col_sep@.len() == col,
            forall|c: int| 0 <= c < col ==> col_hdr@[c] == sp_is_header_col(*t, c),
            forall|c: int| 0 <= c < col ==> col_sep@[c] == sp_is_sep_col(*t, c),
        decreases ncols - col,
    {
        let styles = t.col_blended_styles(col);
        col_hdr.push(styles.flag_or_default(KEY_HEADER));
        col_sep.push(styles.flag_or_default(KEY_SEPARATOR));
        col += 1;
    }

    let mut row_hdr: Vec<bool> = Vec::new();
    let mut row_sep: Vec<bool> = Vec::new();
    let mut row: usize = 0;
    while row < nrows
        invariant
            nrows == t.sp_rows().len(),
            row <= nrows,
            row_hdr@.len() == row,
            row_sep@.len() == row,
            forall|r: int| 0 <= r < row ==> row_hdr@[r] == sp_is_header_row(*t, r),
            forall|r: int| 0 <= r < row ==> row_sep@[r] == sp_is_sep_row(*t, r),
        decreases nrows - row,
    {
        let styles = t.row_blended_styles(row);
        row_hdr.push(styles.flag_or_default(KEY_HEADER));
        row_sep.push(styles.flag_or_default(KEY_SEPARATOR));
        row += 1;
    }

    let mut cells: Vec<Vec<GridCell>> = Vec::new();
    let mut row2: usize = 0;
    while row2 < nrows
        invariant
            sp_table_contents_ok(*t),
            sp_remap_ok(*d),
            rk == RendererKind::Console(*d),
            nrows == t.sp_rows().len(),
            ncols == t.sp_cols().len(),
            row2 <= nrows,
            widths@.len() == ncols,
            forall|c: int|
                0 <= c < ncols ==> widths@[c] == sp_col_width(*t, c, RendererKind::Console(*d)),
            cells@.len() == row2,
            forall|r: int| 0 <= r < row2 ==> #[trigger] cells@[r]@.len() == ncols,
            forall|r: int, c: int|
                0 <= r < row2 && 0 <= c < ncols ==> #[trigger] cells@[r]@[c].lines.deep_view()
                    == sp_cell_lines(*t, *d, c, r) && cells@[r]@[c].styles@ == sp_cell_blended(
                    *t,
                    c,
                    r,
                ),
        decreases nrows - row2,
    {
        let mut grid_row: Vec<GridCell> = Vec::new();
        let mut col2: usize = 0;
        while col2 < ncols
            invariant
                sp_table_contents_ok(*t),
                sp_remap_ok(*d),
                rk == RendererKind::Console(*d),
                nrows == t.sp_rows().len(),
                ncols == t.sp_cols().len(),
                row2 < nrows,
                col2 <= ncols,
                widths@.len() == ncols,
                forall|c: int|
                    0 <= c < ncols ==> widths@[c] == sp_col_width(*t, c, RendererKind::Console(*d)),
                grid_row@.len() == col2,
                forall|c: int|
                    0 <= c < col2 ==> #[trigger] grid_row@[c].lines.deep_view() == sp_cell_lines(
                        *t,
                        *d,
                        c,
                        row2 as int,
                    ) && grid_row@[c].styles@ == sp_cell_blended(*t, c, row2 as int),
            decreases ncols - col2,
        {
            let resolved: String = match t.cell_data(col2, row2) {
                Some(content) => {
                    proof {
                        lemma_cell_ok(*t, col2 as int, row2 as int);
                        lemma_cell_height(*t, col2 as int, row2 as int);
                    }
                    resolve_content(content, &rk)
                },
                None => String::new(),
            };
            let cs = str_chars(resolved.as_str());
            let lines = wrap_vec(&cs, widths[col2]);
            let styles = t.cell_blended_styles(col2, row2);
            grid_row.push(GridCell { lines, styles });
            col2 += 1;
        }
        let ghost cells_before = cells@;
        let ghost gr = grid_row@;
        proof {
            assert forall|c: int| 0 <= c < ncols implies (#[trigger] gr[c]).lines.deep_view()
                == sp_cell_lines(*t, *d, c, row2 as int) && gr[c].styles@ == sp_cell_blended(
                *t,
                c,
                row2 as int,
            ) by {
                assert(grid_row@[c].lines.deep_view() == sp_cell_lines(*t, *d, c, row2 as int));
            }
        }
        cells.push(grid_row);
        proof {
            assert forall|r: int, c: int|
                0 <= r < row2 + 1 && 0 <= c < ncols implies #[trigger] cells@[r]@[c].lines.deep_view()
                    == sp_cell_lines(*t, *d, c, r) && cells@[r]@[c].styles@ == sp_cell_blended(
                    *t,
                    c,
                    r,
                ) by {
                if r < row2 {
                    assert(cells@[r] == cells_before[r]);
                } else {
                    assert(cells@[r]@ == gr);
                    assert(gr[c].lines.deep_view() == sp_cell_lines(*t, *d, c, r));
                    assert(gr[c].styles@ == sp_cell_blended(*t, c, r));
                    assert(cells@[r]@[c] == gr[c]);
                }
            }
            assert forall|r: int| 0 <= r < row2 + 1 implies #[trigger] cells@[r]@.len()
                == ncols by {
                if r < row2 {
                    assert(cells@[r] == cells_before[r]);
                } else {
                    assert(cells@[r]@ == gr);
                    assert(gr.len() == ncols);
                }
            }
        }
        row2 += 1;
    }
    Grid { widths, cells, col_hdr, col_sep, row_hdr, row_sep }
}

/// Appends the upper outside border.
#[verifier::rlimit(100)]
fn append_top_border(buf: &mut Vec<char>, g: &Grid, t: &Table, d: &Decor, nested: bool)
    requires
        sp_grid_ok(*g, *t, *d),
        sp_remap_ok(*d),
        !sp_is_empty(*t),
    ensures
        final(buf)@ == old(buf)@ + sp_top_border(*t, *d, nested),
{
    let esc = d.print_escape_codes && !nested;
    let fg = t.styles().colour(KEY_BORDER_FG);
    let bg = t.styles().colour(KEY_BORDER_BG);
    proof {
        lemma_realizable(Line::Absent, Line::Bold, Line::Absent, Line::Bold);
        lemma_realizable(Line::Absent, Line::Bold, Line::Bold, Line::Absent);
        lemma_realizable(Line::Absent, Line::Absent, Line::Bold, Line::Bold);
    }
    let hline = d.lookup(Line::Absent, Line::Bold, Line::Absent, Line::Bold);
    let top_left = d.lookup(Line::Absent, Line::Bold, Line::Bold, Line::Absent);
    append_border(buf, top_left, fg, bg, esc);
    proof {
        assert(buf@ =~= old(buf)@ + sp_bordered(
            sp_lookup(*d, Line::Absent, Line::Bold, Line::Bold, Line::Absent),
            sp_bfg(*t),
            sp_bbg(*t),
            esc,
        ) + sp_top_cols(*t, *d, nested, 0));
    }
    let ncols = g.widths.len();
    let mut col: usize = 0;
    while col < ncols
        invariant
            sp_grid_ok(*g, *t, *d),
            sp_remap_ok(*d),
            !sp_is_empty(*t),
            esc == sp_esc(*d, nested),
            fg == sp_bfg(*t),
            bg == sp_bbg(*t),
            hline == sp_lookup(*d, Line::Absent, Line::Bold, Line::Absent, Line::Bold),
            ncols == t.sp_cols().len(),
            col <= ncols,
            buf@ == old(buf)@ + sp_bordered(
                sp_lookup(*d, Line::Absent, Line::Bold, Line::Bold, Line::Absent),
                sp_bfg(*t),
                sp_bbg(*t),
                esc,
            ) + sp_top_cols(*t, *d, nested, col as int),
        decreases ncols - col,
    {
        append_border_rep(buf, hline, fg, bg, esc, g.widths[col]);
        if col < ncols - 1 {
            let down = if g.is_header_col_pair(t, d, col) {
                Line::Bold
            } else if g.row_sep[0] {
                Line::Absent
            } else {
                Line::Thin
            };
            proof {
                assert(down == sp_top_down(*t, col as int));
                lemma_realizable(Line::Absent, Line::Bold, down, Line::Bold);
            }
            let glyph = d.lookup(Line::Absent, Line::Bold, down, Line::Bold);
            append_border(buf, glyph, fg, bg, esc);
        }
        proof {
            assert(buf@ =~= old(buf)@ + sp_bordered(
                sp_lookup(*d, Line::Absent, Line::Bold, Line::Bold, Line::Absent),
                sp_bfg(*t),
                sp_bbg(*t),
                esc,
            ) + sp_top_cols(*t, *d, nested, col + 1));
        }
        col += 1;
    }
    let top_right = d.lookup(Line::Absent, Line::Absent, Line::Bold, Line::Bold);
    append_border(buf, top_right, fg, bg, esc);
    push_lit(buf, "\n");
    proof {
        reveal_strlit("\n");
        assert("\n"@ =~= sp_nl());
        assert(buf@ =~= old(buf)@ + sp_top_border(*t, *d, nested));
    }
}

/// Appends the lower outside border.
#[verifier::rlimit(100)]
fn append_bottom_border(buf: &mut Vec<char>, g: &Grid, t: &Table, d: &Decor, nested: bool)
    requires
        sp_grid_ok(*g, *t, *d),
        sp_remap_ok(*d),
        !sp_is_empty(*t),
    ensures
        final(buf)@ == old(buf)@ + sp_bottom_border(*t, *d, nested),
{
    let esc = d.print_escape_codes && !nested;
    let fg = t.styles().colour(KEY_BORDER_FG);
    let bg = t.styles().colour(KEY_BORDER_BG);
    proof {
        lemma_realizable(Line::Absent, Line::Bold, Line::Absent, Line::Bold);
        lemma_realizable(Line::Bold, Line::Bold, Line::Absent, Line::Absent);
        lemma_realizable(Line::Bold, Line::Absent, Line::Absent, Line::Bold);
    }
    let hline = d.lookup(Line::Absent, Line::Bold, Line::Absent, Line::Bold);
    let bottom_left = d.lookup(Line::Bold, Line::Bold, Line::Absent, Line::Absent);
    append_border(buf, bottom_left, fg, bg, esc);
    proof {
        assert(buf@ =~= old(buf)@ + sp_bordered(
            sp_lookup(*d, Line::Bold, Line::Bold, Line::Absent, Line::Absent),
            sp_bfg(*t),
            sp_bbg(*t),
            esc,
        ) + sp_bot_cols(*t, *d, nested, 0));
    }
    let ncols = g.widths.len();
    let nrows = g.row_sep.len();
    let mut col: usize = 0;
    while col < ncols
        invariant
            sp_grid_ok(*g, *t, *d),
            sp_remap_ok(*d),
            !sp_is_empty(*t),
            esc == sp_esc(*d, nested),
            fg == sp_bfg(*t),
            bg == sp_bbg(*t),
            hline == sp_lookup(*d, Line::Absent, Line::Bold, Line::Absent, Line::Bold),
            ncols == t.sp_cols().len(),
            nrows == t.sp_rows().len(),
            col <= ncols,
            buf@ == old(buf)@ + sp_bordered(
                sp_lookup(*d, Line::Bold, Line::Bold, Line::Absent, Line::Absent),
                sp_bfg(*t),
                sp_bbg(*t),
                esc,
            ) + sp_bot_cols(*t, *d, nested, col as int),
        decreases ncols - col,
    {
        append_border_rep(buf, hline, fg, bg, esc, g.widths[col]);
        if col < ncols - 1 {
            let up = if g.is_header_col_pair(t, d, col) {
                Line::Bold
            } else if g.row_sep[nrows - 1] {
                Line::Absent
            } else {
                Line::Thin
            };
            proof {
                assert(up == sp_bot_up(*t, col as int));
                lemma_realizable(up, Line::Bold, Line::Absent, Line::Bold);
            }
            let glyph = d.lookup(up, Line::Bold, Line::Absent, Line::Bold);
            append_border(buf, glyph, fg, bg, esc);
        }
        proof {
            assert(buf@ =~= old(buf)@ + sp_bordered(
                sp_lookup(*d, Line::Bold, Line::Bold, Line::Absent, Line::Absent),
                sp_bfg(*t),
                sp_bbg(*t),
                esc,
            ) + sp_bot_cols(*t, *d, nested, col + 1));
        }
        col += 1;
    }
    let bottom_right = d.lookup(Line::Bold, Line::Absent, Line::Absent, Line::Bold);
    append_border(buf, bottom_right, fg, bg, esc);
    proof {
        assert(buf@ =~= old(buf)@ + sp_bottom_border(*t, *d, nested));
    }
}

/// The number of physical output lines of a row of the grid.
fn row_max_lines(g: &Grid, t: &Table, d: &Decor, row: usize) -> (r: usize)
    requires
        sp_grid_ok(*g, *t, *d),
        row < t.sp_rows().len(),
    ensures
        r == sp_max_lines(*t, *d, row as int),
{
    let grid_row = &g.cells[row];
    let ncols = grid_row.len();
    let mut best: usize = 0;
    let mut col: usize = 0;
    while col < ncols
        invariant
            sp_grid_ok(*g, *t, *d),
            row < t.sp_rows().len(),
            grid_row == g.cells@[row as int],
            ncols == t.sp_cols().len(),
            col <= ncols,
            best == sp_max_lines_upto(*t, *d, row as int, col as int),
        decreases ncols - col,
    {
        let len = grid_row[col].lines.len();
        proof {
            assert(g.cells@[row as int]@[col as int].lines.deep_view().len() == g.cells@[
                row as int
            ]@[col as int].lines@.len());
        }
        if len > best {
            best = len;
        }
        col += 1;
    }
    best
}

/// Appends one physical output line of a row: outer edges, padded cells and
/// their separators.
#[verifier::rlimit(100)]
fn append_row_line(
    buf: &mut Vec<char>,
    g: &Grid,
    t: &Table,
    d: &Decor,
    nested: bool,
    row: usize,
    line: usize,
)
    requires
        sp_grid_ok(*g, *t, *d),
        sp_remap_ok(*d),
        !sp_is_empty(*t),
        row < t.sp_rows().len(),
    ensures
        final(buf)@ == old(buf)@ + sp_row_line(*t, *d, nested, row as int, line as int),
{
    let esc = d.print_escape_codes && !nested;
    let fg = t.styles().colour(KEY_BORDER_FG);
    let bg = t.styles().colour(KEY_BORDER_BG);
    proof {
        lemma_realizable(Line::Bold, Line::Absent, Line::Bold, Line::Absent);
    }
    let vline = d.lookup(Line::Bold, Line::Absent, Line::Bold, Line::Absent);
    let ghost vert = sp_bordered(
        sp_lookup(*d, Line::Bold, Line::Absent, Line::Bold, Line::Absent),
        sp_bfg(*t),
        sp_bbg(*t),
        sp_esc(*d, nested),
    );
    let ghost lead = if d.draw_outer_border {
        vert
    } else {
        Seq::<char>::empty()
    };
    if d.draw_outer_border {
        append_border(buf, vline, fg, bg, esc);
    }
    proof {
        assert(buf@ =~= old(buf)@ + lead + sp_row_cols(*t, *d, nested, row as int, line as int, 0));
    }
    let grid_row = &g.cells[row];
    let ncols = grid_row.len();
    let mut col: usize = 0;
    while col < ncols
        invariant
            sp_grid_ok(*g, *t, *d),
            sp_remap_ok(*d),
            !sp_is_empty(*t),
            row < t.sp_rows().len(),
            grid_row == g.cells@[row as int],
            esc == sp_esc(*d, nested),
            fg == sp_bfg(*t),
            bg == sp_bbg(*t),
            lead == if d.draw_outer_border {
                vert
            } else {
                Seq::<char>::empty()
            },
            vert == sp_bordered(
                sp_lookup(*d, Line::Bold, Line::Absent, Line::Bold, Line::Absent),
                sp_bfg(*t),
                sp_bbg(*t),
                sp_esc(*d, nested),
            ),
            vline == sp_lookup(*d, Line::Bold, Line::Absent, Line::Bold, Line::Absent),
            ncols == t.sp_cols().len(),
            col <= ncols,
            buf@ == old(buf)@ + lead + sp_row_cols(
                *t,
                *d,
                nested,
                row as int,
                line as int,
                col as int,
            ),
        decreases ncols - col,
    {
        let cell = &grid_row[col];
        let empty_line: Vec<char> = Vec::new();
        let text: &Vec<char> = if line < cell.lines.len() {
            &cell.lines[line]
        } else {
            &empty_line
        };
        proof {
            if (line as int) < g.cells@[row as int]@[col as int].lines.deep_view().len() {
                assert(g.cells@[row as int]@[col as int].lines.deep_view()[line as int] == g.cells@[
                    row as int
                ]@[col as int].lines@[line as int]@);
            }
        }
        let align = cell.styles.halign_or_default();
        let text_str = chars_to_string(text);
        let padded = crate::renderer::pad(text_str.as_str(), ' ', g.widths[col], &align);
        proof {
            reveal(sp_cell_padded);
            assert(padded@ == sp_cell_padded(*t, *d, row as int, col as int, line as int));
        }
        let padded_cs = str_chars(padded.as_str());
        append_content(buf, &padded_cs, &cell.styles, esc);
        if col < ncols - 1 {
            let updown = if g.is_header_col_pair(t, d, col) {
                Line::Bold
            } else if g.row_sep[row] {
                Line::Absent
            } else {
                Line::Thin
            };
            proof {
                lemma_realizable(updown, Line::Absent, updown, Line::Absent);
            }
            let glyph = d.lookup(updown, Line::Absent, updown, Line::Absent);
            append_border(buf, glyph, fg, bg, esc);
        }
        proof {
            assert(buf@ =~= old(buf)@ + lead + sp_row_cols(
                *t,
                *d,
                nested,
                row as int,
                line as int,
                col + 1,
            ));
        }
        col += 1;
    }
    if d.draw_outer_border {
        append_border(buf, vline, fg, bg, esc);
    }
    push_lit(buf, "\n");
    proof {
        reveal_strlit("\n");
        assert("\n"@ =~= sp_nl());
        assert(buf@ =~= old(buf)@ + sp_row_line(*t, *d, nested, row as int, line as int));
    }
}

/// Appends the horizontal separator between `row` and the row below it.
/// Appends the horizontal fill through column `col` of a separator.
fn append_sep_run(
    buf: &mut Vec<char>,
    g: &Grid,
    t: &Table,
    d: &Decor,
    nested: bool,
    row: usize,
    col: usize,
)
    requires
        sp_grid_ok(*g, *t, *d),
        sp_remap_ok(*d),
        row < t.sp_rows().len(),
        col < t.sp_cols().len(),
    ensures
        final(buf)@ == old(buf)@ + sp_sep_run(*t, *d, nested, row as int, col as int),
{
    let esc = d.print_escape_codes && !nested;
    let fg = t.styles().colour(KEY_BORDER_FG);
    let bg = t.styles().colour(KEY_BORDER_BG);
    let header_row_pair = g.is_header_row_pair(t, d, row);
    let rl = if header_row_pair {
        Line::Bold
    } else if g.col_sep[col] {
        Line::Absent
    } else {
        Line::Thin
    };
    proof {
        assert(rl == sp_sep_fill(*t, row as int, col as int));
        lemma_realizable(Line::Absent, rl, Line::Absent, rl);
    }
    let border = d.lookup(Line::Absent, rl, Line::Absent, rl);
    append_border_rep(buf, border, fg, bg, esc, g.widths[col]);
}

/// Appends the junction glyph at the right of column `col` in a separator.
fn append_sep_junction(
    buf: &mut Vec<char>,
    g: &Grid,
    t: &Table,
    d: &Decor,
    nested: bool,
    row: usize,
    col: usize,
)
    requires
        sp_grid_ok(*g, *t, *d),
        sp_remap_ok(*d),
        row + 1 < t.sp_rows().len(),
        col + 1 < t.sp_cols().len(),
    ensures
        final(buf)@ == old(buf)@ + sp_sep_junction(*t, *d, nested, row as int, col as int),
{
    let esc = d.print_escape_codes && !nested;
    let fg = t.styles().colour(KEY_BORDER_FG);
    let bg = t.styles().colour(KEY_BORDER_BG);
    let header_row_pair = g.is_header_row_pair(t, d, row);
    let header_col_pair = g.is_header_col_pair(t, d, col);
    let rl = if header_row_pair {
        Line::Bold
    } else if g.col_sep[col] {
        Line::Absent
    } else {
        Line::Thin
    };
    let up = if header_col_pair {
        Line::Bold
    } else if g.row_sep[row] {
        Line::Absent
    } else {
        Line::Thin
    };
    let rows_known = g.row_sep.len();
    proof {
        assert(row + 1 < rows_known);
    }
    let row_below = row + 1;
    let down = if header_col_pair {
        Line::Bold
    } else if g.row_sep[row_below] {
        Line::Absent
    } else {
        Line::Thin
    };
    let cols_known = g.col_sep.len();
    proof {
        assert(col + 1 < cols_known);
    }
    let col_right = col + 1;
    let right = if header_row_pair {
        Line::Bold
    } else if g.col_sep[col_right] {
        Line::Absent
    } else {
        Line::Thin
    };
    proof {
        assert(rl == sp_sep_fill(*t, row as int, col as int));
        assert(right == sp_sep_fill(*t, row as int, col + 1));
        lemma_realizable(up, right, down, rl);
    }
    let glyph = d.lookup(up, right, down, rl);
    append_border(buf, glyph, fg, bg, esc);
}

/// Appends the horizontal separator between `row` and the row below it.
#[verifier::rlimit(100)]
fn append_row_sep(buf: &mut Vec<char>, g: &Grid, t: &Table, d: &Decor, nested: bool, row: usize)
    requires
        sp_grid_ok(*g, *t, *d),
        sp_remap_ok(*d),
        !sp_is_empty(*t),
        row + 1 < t.sp_rows().len(),
    ensures
        final(buf)@ == old(buf)@ + sp_row_sep(*t, *d, nested, row as int),
{
    let esc = d.print_escape_codes && !nested;
    let fg = t.styles().colour(KEY_BORDER_FG);
    let bg = t.styles().colour(KEY_BORDER_BG);
    let ncols = g.widths.len();
    let header_row_pair = g.is_header_row_pair(t, d, row);
    let ghost lead = if d.draw_outer_border {
        sp_bordered(
            sp_lookup(
                *d,
                Line::Bold,
                sp_sep_fill(*t, row as int, 0),
                Line::Bold,
                Line::Absent,
            ),
            sp_bfg(*t),
            sp_bbg(*t),
            sp_esc(*d, nested),
        )
    } else {
        Seq::<char>::empty()
    };
    if d.draw_outer_border {
        let right = if header_row_pair {
            Line::Bold
        } else if g.col_sep[0] {
            Line::Absent
        } else {
            Line::Thin
        };
        proof {
            assert(right == sp_sep_fill(*t, row as int, 0));
            lemma_realizable(Line::Bold, right, Line::Bold, Line::Absent);
        }
        let glyph = d.lookup(Line::Bold, right, Line::Bold, Line::Absent);
        append_border(buf, glyph, fg, bg, esc);
    }
    proof {
        assert(buf@ =~= old(buf)@ + lead + sp_row_sep_cols(*t, *d, nested, row as int, 0));
    }
    let mut col: usize = 0;
    while col < ncols
        invariant
            sp_grid_ok(*g, *t, *d),
            sp_remap_ok(*d),
            !sp_is_empty(*t),
            row + 1 < t.sp_rows().len(),
            esc == sp_esc(*d, nested),
            fg == sp_bfg(*t),
            bg == sp_bbg(*t),
            lead == if d.draw_outer_border {
                sp_bordered(
                    sp_lookup(
                        *d,
                        Line::Bold,
                        sp_sep_fill(*t, row as int, 0),
                        Line::Bold,
                        Line::Absent,
                    ),
                    sp_bfg(*t),
                    sp_bbg(*t),
                    sp_esc(*d, nested),
                )
            } else {
                Seq::<char>::empty()
            },
            ncols == t.sp_cols().len(),
            col <= ncols,
            buf@ == old(buf)@ + lead + sp_row_sep_cols(*t, *d, nested, row as int, col as int),
        decreases ncols - col,
    {
        append_sep_run(buf, g, t, d, nested, row, col);
        if col < ncols - 1 {
            append_sep_junction(buf, g, t, d, nested, row, col);
        }
        proof {
            assert(buf@ =~= old(buf)@ + lead + sp_row_sep_cols(
                *t,
                *d,
                nested,
                row as int,
                col + 1,
            ));
        }
        col += 1;
    }
    if d.draw_outer_border {
        let left = if header_row_pair {
            Line::Bold
        } else if g.col_sep[ncols - 1] {
            Line::Absent
        } else {
            Line::Thin
        };
        proof {
            assert(left == sp_sep_fill(*t, row as int, ncols - 1));
            lemma_realizable(Line::Bold, Line::Absent, Line::Bold, left);
        }
        let glyph = d.lookup(Line::Bold, Line::Absent, Line::Bold, left);
        append_border(buf, glyph, fg, bg, esc);
    }
    push_lit(buf, "\n");
    proof {
        reveal_strlit("\n");
        assert("\n"@ =~= sp_nl());
        assert(buf@ =~= old(buf)@ + sp_row_sep(*t, *d, nested, row as int));
    }
}


/// Renders a table as a box-drawing grid with ANSI styling.
#[verifier::rlimit(100)]
pub fn render_console(t: &Table, d: &Decor, nested: bool) -> (r: String)
    requires
        !sp_is_empty(*t),
        sp_table_contents_ok(*t),
        sp_remap_ok(*d),
    ensures
        r@ == sp_render_console(*t, *d, nested),
    decreases sp_table_height(*t), 13int, 0int,
{
    let g = pre_render(t, d);
    let mut buf: Vec<char> = Vec::new();
    let ghost top = if d.draw_outer_border {
        sp_top_border(*t, *d, nested)
    } else {
        Seq::<char>::empty()
    };
    if d.draw_outer_border {
        append_top_border(&mut buf, &g, t, d, nested);
    }
    proof {
        assert(buf@ =~= top + sp_body(*t, *d, nested, 0));
    }
    let nrows = t.num_rows();
    let mut row: usize = 0;
    while row < nrows
        invariant
            sp_grid_ok(g, *t, *d),
            sp_remap_ok(*d),
            !sp_is_empty(*t),
            sp_table_contents_ok(*t),
            nrows == t.sp_rows().len(),
            row <= nrows,
            top == if d.draw_outer_border {
                sp_top_border(*t, *d, nested)
            } else {
                Seq::<char>::empty()
            },
            buf@ == top + sp_body(*t, *d, nested, row as int),
        decreases nrows - row,
    {
        let max_lines = row_max_lines(&g, t, d, row);
        let ghost body_before = sp_body(*t, *d, nested, row as int);
        let mut line: usize = 0;
        while line < max_lines
            invariant
                sp_grid_ok(g, *t, *d),
                sp_remap_ok(*d),
                !sp_is_empty(*t),
                nrows == t.sp_rows().len(),
                row < nrows,
                max_lines == sp_max_lines(*t, *d, row as int),
                line <= max_lines,
                buf@ == top + body_before + sp_row_lines(
                    *t,
                    *d,
                    nested,
                    row as int,
                    line as int,
                ),
            decreases max_lines - line,
        {
            append_row_line(&mut buf, &g, t, d, nested, row, line);
            line += 1;
        }
        if d.draw_inner_horizontal_border && row + 1 < nrows {
            append_row_sep(&mut buf, &g, t, d, nested, row);
        }
        proof {
            assert(buf@ =~= top + sp_body(*t, *d, nested, row + 1));
        }
        row += 1;
    }
    if d.draw_outer_border {
        append_bottom_border(&mut buf, &g, t, d, nested);
    }
    proof {
        assert(buf@ =~= sp_render_console(*t, *d, nested));
    }
    chars_to_string(&buf)
}

/// The console renderer, drawing a table as a box-drawing grid with ANSI
/// styling, configured by its glyph set.
pub struct Console(pub Decor);

impl Console {
    /// Renders the table.
    ///
    /// An empty table — one with no rows or no columns — is reported as
    /// [`RenderError::Empty`] rather than rendered.
    pub fn render(&self, table: &Table) -> (r: Result<String, RenderError>)
        requires
            sp_table_contents_ok(*table),
            sp_remap_ok(self.0),
        ensures
            match r {
                Ok(s) => !sp_is_empty(*table) && s@ == sp_render_console(*table, self.0, false),
                Err(e) => sp_is_empty(*table) && e == RenderError::Empty,
            },
    {
        let hints: [RenderHint; 0] = [];
        let r = self.render_with_hints(table, hints.as_slice());
        proof {
            assert(!sp_has_nested(hints@));
        }
        r
    }

    /// Renders the table under the given hints: a nested pass suppresses
    /// ANSI styling but keeps borders and layout.
    ///
    /// An empty table — one with no rows or no columns — is reported as
    /// [`RenderError::Empty`] rather than rendered.
    pub fn render_with_hints(&self, table: &Table, hints: &[RenderHint]) -> (r: Result<
        String,
        RenderError,
    >)
        requires
            sp_table_contents_ok(*table),
            sp_remap_ok(self.0),
        ensures
            match r {
                Ok(s) => !sp_is_empty(*table) && s@ == sp_render_console(
                    *table,
                    self.0,
                    sp_has_nested(hints@),
                ),
                Err(e) => sp_is_empty(*table) && e == RenderError::Empty,
            },
    {
        if table.is_empty() {
            return Err(RenderError::Empty);
        }
        let nested = crate::renderer::has_nested(hints);
        Ok(render_console(table, &self.0, nested))
    }
}

impl Default for Console {
    /// A console renderer with the default double-outline glyph set.
    fn default() -> (r: Console)
        ensures
            r.0 == sp_double_outline(),
    {
        Console(Decor::double_outline())
    }
}

} // verus!
