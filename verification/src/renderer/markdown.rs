//! The plain-markup renderer: draws a table as a pipe table — a header row,
//! a per-column alignment-format row, then the body rows — reusing the
//! column-width and wrap primitives, with no border synthesis or ANSI
//! styling.

use vstd::prelude::*;

use crate::renderer::{
    chars_to_string, push_lit, push_repeat, sp_cell_resolved, sp_col_width, sp_pad,
    sp_repeat_char, sp_wrap, str_chars, wrap_vec, RenderError, RenderHint, RendererKind,
};
use crate::style::{sp_halign, HAlign};
use crate::table::{
    lemma_cell_height, lemma_cell_ok, sp_cell_blended, sp_col_blended, sp_is_empty,
    sp_table_contents_ok, sp_table_height, Table,
};

verus! {

/// The wrapped lines of the cell at a coordinate, at its column's width.
pub open spec fn sp_md_cell_lines(t: Table, col: int, row: int) -> Seq<Seq<char>>
    decreases sp_table_height(t), 7int, 0int,
{
    sp_wrap(
        sp_cell_resolved(t, col, row, RendererKind::Markdown),
        sp_col_width(t, col, RendererKind::Markdown) as nat,
    )
}

/// The greatest wrapped line count over the first `col` cells of a row.
pub open spec fn sp_md_max_lines_upto(t: Table, row: int, col: int) -> nat
    decreases sp_table_height(t), 8int, col,
{
    if col <= 0 {
        0
    } else {
        let rest = sp_md_max_lines_upto(t, row, col - 1);
        let this = sp_md_cell_lines(t, col - 1, row).len();
        if this > rest {
            this
        } else {
            rest
        }
    }
}

/// The number of physical output lines of a row.
pub open spec fn sp_md_max_lines(t: Table, row: int) -> nat
    decreases sp_table_height(t), 9int, 0int,
{
    sp_md_max_lines_upto(t, row, t.sp_cols().len() as int)
}

/// The alignment-format cell of one column: `:--`, `--:` or `:-:` stretched
/// to the column width, never narrower than the format itself.
pub open spec fn sp_md_format_cell(t: Table, col: int) -> Seq<char>
    decreases sp_table_height(t), 9int, 0int,
{
    let width = sp_col_width(t, col, RendererKind::Markdown) as nat;
    match sp_halign(sp_col_blended(t, col)) {
        HAlign::Left => sp_pad(seq![':'], '-', if width > 2 {
            width
        } else {
            2
        }, HAlign::Left),
        HAlign::Right => sp_pad(seq![':'], '-', if width > 2 {
            width
        } else {
            2
        }, HAlign::Right),
        HAlign::Centred => seq![':'] + sp_repeat_char('-', ((if width > 3 {
            width
        } else {
            3
        }) - 2) as nat) + seq![':'],
    }
}

/// The alignment-format row's cells, over the first `col` columns, each
/// followed by its pipe.
pub open spec fn sp_md_format_cols(t: Table, col: int) -> Seq<char>
    decreases sp_table_height(t), 10int, col,
{
    if col <= 0 {
        Seq::empty()
    } else {
        sp_md_format_cols(t, col - 1) + sp_md_format_cell(t, col - 1) + seq!['|']
    }
}

/// The alignment-format row between the header row and the body.
pub open spec fn sp_md_header_format(t: Table) -> Seq<char>
    decreases sp_table_height(t), 11int, 0int,
{
    seq!['|'] + sp_md_format_cols(t, t.sp_cols().len() as int) + seq!['\n']
}

/// The padded text of one physical line of a cell.
pub open spec fn sp_md_cell_padded(t: Table, row: int, col: int, line: int) -> Seq<char>
    decreases sp_table_height(t), 9int, 0int,
{
    let lines = sp_md_cell_lines(t, col, row);
    let text = if 0 <= line < lines.len() {
        lines[line]
    } else {
        Seq::empty()
    };
    sp_pad(
        text,
        ' ',
        sp_col_width(t, col, RendererKind::Markdown) as nat,
        sp_halign(sp_cell_blended(t, col, row)),
    )
}

/// One physical row line's cells, over the first `col` columns, each
/// followed by its pipe.
pub open spec fn sp_md_row_cols(t: Table, row: int, line: int, col: int) -> Seq<char>
    decreases sp_table_height(t), 10int, col,
{
    if col <= 0 {
        Seq::empty()
    } else {
        sp_md_row_cols(t, row, line, col - 1) + sp_md_cell_padded(t, row, col - 1, line)
            + seq!['|']
    }
}

/// One physical output line of a row.
pub open spec fn sp_md_row_line(t: Table, row: int, line: int) -> Seq<char>
    decreases sp_table_height(t), 11int, 0int,
{
    seq!['|'] + sp_md_row_cols(t, row, line, t.sp_cols().len() as int) + seq!['\n']
}

/// The first `line` physical output lines of a row.
pub open spec fn sp_md_row_lines(t: Table, row: int, line: int) -> Seq<char>
    decreases sp_table_height(t), 11int, line,
{
    if line <= 0 {
        Seq::empty()
    } else {
        sp_md_row_lines(t, row, line - 1) + sp_md_row_line(t, row, line - 1)
    }
}

/// All physical output lines of a row.
pub open spec fn sp_md_row(t: Table, row: int) -> Seq<char>
    decreases sp_table_height(t), 12int, 0int,
{
    sp_md_row_lines(t, row, sp_md_max_lines(t, row) as int)
}

/// The body rows after the header, over the rows before `row`.
pub open spec fn sp_md_body(t: Table, row: int) -> Seq<char>
    decreases sp_table_height(t), 12int, row,
{
    if row <= 1 {
        Seq::empty()
    } else {
        sp_md_body(t, row - 1) + sp_md_row(t, row - 1)
    }
}

/// The pipe-table rendering of a table: the first row as the header, the
/// alignment-format row, then the remaining rows as the body.
pub open spec fn sp_render_markdown(t: Table) -> Seq<char>
    decreases sp_table_height(t), 13int, 0int,
{
    sp_md_row(t, 0) + sp_md_header_format(t) + sp_md_body(t, t.sp_rows().len() as int)
}

/// Appends one physical output line of a row.
fn md_append_row_line(
    buf: &mut Vec<char>,
    t: &Table,
    widths: &Vec<usize>,
    lines: &Vec<Vec<Vec<char>>>,
    row: usize,
    line: usize,
)
    requires
        sp_table_contents_ok(*t),
        widths@.len() == t.sp_cols().len(),
        forall|c: int|
            0 <= c < widths@.len() ==> widths@[c] == sp_col_width(*t, c, RendererKind::Markdown),
        lines@.len() == t.sp_cols().len(),
        forall|c: int|
            0 <= c < lines@.len() ==> #[trigger] lines@[c].deep_view() == sp_md_cell_lines(
                *t,
                c,
                row as int,
            ),
    ensures
        final(buf)@ == old(buf)@ + sp_md_row_line(*t, row as int, line as int),
{
    push_lit(buf, "|");
    proof {
        reveal_strlit("|");
        assert(old(buf)@ + "|"@ =~= old(buf)@ + seq!['|']);
        assert(buf@ =~= old(buf)@ + seq!['|'] + sp_md_row_cols(*t, row as int, line as int, 0));
    }
    let ncols = widths.len();
    let mut col: usize = 0;
    while col < ncols
        invariant
            sp_table_contents_ok(*t),
            ncols == t.sp_cols().len(),
            col <= ncols,
            widths@.len() == ncols,
            forall|c: int|
                0 <= c < widths@.len() ==> widths@[c] == sp_col_width(
                    *t,
                    c,
                    RendererKind::Markdown,
                ),
            lines@.len() == ncols,
            forall|c: int|
                0 <= c < lines@.len() ==> #[trigger] lines@[c].deep_view() == sp_md_cell_lines(
                    *t,
                    c,
                    row as int,
                ),
            buf@ == old(buf)@ + seq!['|'] + sp_md_row_cols(*t, row as int, line as int, col as int),
        decreases ncols - col,
    {
        let cell_lines = &lines[col];
        let empty_line: Vec<char> = Vec::new();
        let text: &Vec<char> = if line < cell_lines.len() {
            &cell_lines[line]
        } else {
            &empty_line
        };
        proof {
            if (line as int) < lines@[col as int].deep_view().len() {
                assert(lines@[col as int].deep_view()[line as int] == lines@[col as int]@[line as int]@);
            }
        }
        let styles = t.cell_blended_styles(col, row);
        let align = styles.halign_or_default();
        let text_str = chars_to_string(text);
        let padded = crate::renderer::pad(text_str.as_str(), ' ', widths[col], &align);
        push_lit(buf, padded.as_str());
        push_lit(buf, "|");
        proof {
            reveal_strlit("|");
            assert(padded@ == sp_md_cell_padded(*t, row as int, col as int, line as int));
            assert(buf@ =~= old(buf)@ + seq!['|'] + sp_md_row_cols(
                *t,
                row as int,
                line as int,
                col + 1,
            ));
        }
        col += 1;
    }
    push_lit(buf, "\n");
    proof {
        reveal_strlit("\n");
        assert(buf@ =~= old(buf)@ + sp_md_row_line(*t, row as int, line as int));
    }
}

/// The wrapped lines of every cell of one row, and the row's physical line
/// count.
fn md_row_lines_of(t: &Table, widths: &Vec<usize>, row: usize) -> (r: (Vec<Vec<Vec<char>>>, usize))
    requires
        sp_table_contents_ok(*t),
        widths@.len() == t.sp_cols().len(),
        forall|c: int|
            0 <= c < widths@.len() ==> widths@[c] == sp_col_width(*t, c, RendererKind::Markdown),
    ensures
        r.0@.len() == t.sp_cols().len(),
        forall|c: int|
            0 <= c < r.0@.len() ==> #[trigger] r.0@[c].deep_view() == sp_md_cell_lines(
                *t,
                c,
                row as int,
            ),
        r.1 == sp_md_max_lines(*t, row as int),
    decreases sp_table_height(*t), 10int, 0int,
{
    let ncols = widths.len();
    let mut lines: Vec<Vec<Vec<char>>> = Vec::new();
    let mut max_lines: usize = 0;
    let mut col: usize = 0;
    while col < ncols
        invariant
            sp_table_contents_ok(*t),
            ncols == t.sp_cols().len(),
            col <= ncols,
            widths@.len() == ncols,
            forall|c: int|
                0 <= c < widths@.len() ==> widths@[c] == sp_col_width(
                    *t,
                    c,
                    RendererKind::Markdown,
                ),
            lines@.len() == col,
            forall|c: int|
                0 <= c < col ==> #[trigger] lines@[c].deep_view() == sp_md_cell_lines(
                    *t,
                    c,
                    row as int,
                ),
            max_lines == sp_md_max_lines_upto(*t, row as int, col as int),
        decreases sp_table_height(*t), 10int, ncols - col,
    {
        let rk = RendererKind::Markdown;
        let resolved: String = match t.cell_data(col, row) {
            Some(content) => {
                proof {
                    lemma_cell_ok(*t, col as int, row as int);
                    lemma_cell_height(*t, col as int, row as int);
                }
                crate::renderer::resolve_content(content, &rk)
            },
            None => String::new(),
        };
        let cs = str_chars(resolved.as_str());
        let wrapped = wrap_vec(&cs, widths[col]);
        proof {
            assert(wrapped.deep_view() == sp_md_cell_lines(*t, col as int, row as int));
        }
        if wrapped.len() > max_lines {
            max_lines = wrapped.len();
        }
        let ghost lines_before = lines@;
        lines.push(wrapped);
        proof {
            assert forall|c: int|
                0 <= c < col + 1 implies #[trigger] lines@[c].deep_view() == sp_md_cell_lines(
                *t,
                c,
                row as int,
            ) by {
                if c < col {
                    assert(lines@[c] == lines_before[c]);
                } else {
                    assert(lines@[c] == wrapped);
                }
            }
        }
        col += 1;
    }
    (lines, max_lines)
}

/// Appends all physical output lines of a row.
fn md_append_row(buf: &mut Vec<char>, t: &Table, widths: &Vec<usize>, row: usize)
    requires
        sp_table_contents_ok(*t),
        widths@.len() == t.sp_cols().len(),
        forall|c: int|
            0 <= c < widths@.len() ==> widths@[c] == sp_col_width(*t, c, RendererKind::Markdown),
    ensures
        final(buf)@ == old(buf)@ + sp_md_row(*t, row as int),
    decreases sp_table_height(*t), 12int, 0int,
{
    let (lines, max_lines) = md_row_lines_of(t, widths, row);
    let mut line: usize = 0;
    proof {
        assert(buf@ =~= old(buf)@ + sp_md_row_lines(*t, row as int, 0));
    }
    while line < max_lines
        invariant
            sp_table_contents_ok(*t),
            widths@.len() == t.sp_cols().len(),
            forall|c: int|
                0 <= c < widths@.len() ==> widths@[c] == sp_col_width(
                    *t,
                    c,
                    RendererKind::Markdown,
                ),
            lines@.len() == t.sp_cols().len(),
            forall|c: int|
                0 <= c < lines@.len() ==> #[trigger] lines@[c].deep_view() == sp_md_cell_lines(
                    *t,
                    c,
                    row as int,
                ),
            line <= max_lines,
            buf@ == old(buf)@ + sp_md_row_lines(*t, row as int, line as int),
        decreases max_lines - line,
    {
        md_append_row_line(buf, t, widths, &lines, row, line);
        line += 1;
    }
}

/// Appends the alignment-format row.
fn md_append_header_format(buf: &mut Vec<char>, t: &Table, widths: &Vec<usize>)
    requires
        widths@.len() == t.sp_cols().len(),
        forall|c: int|
            0 <= c < widths@.len() ==> widths@[c] == sp_col_width(*t, c, RendererKind::Markdown),
    ensures
        final(buf)@ == old(buf)@ + sp_md_header_format(*t),
{
    push_lit(buf, "|");
    proof {
        reveal_strlit("|");
        assert(buf@ =~= old(buf)@ + seq!['|'] + sp_md_format_cols(*t, 0));
    }
    let ncols = widths.len();
    let mut col: usize = 0;
    while col < ncols
        invariant
            ncols == t.sp_cols().len(),
            col <= ncols,
            widths@.len() == ncols,
            forall|c: int|
                0 <= c < widths@.len() ==> widths@[c] == sp_col_width(
                    *t,
                    c,
                    RendererKind::Markdown,
                ),
            buf@ == old(buf)@ + seq!['|'] + sp_md_format_cols(*t, col as int),
        decreases ncols - col,
    {
        let width = widths[col];
        let styles = t.col_blended_styles(col);
        let align = styles.halign_or_default();
        let ghost before_cell = buf@;
        match align {
            HAlign::Left | HAlign::Right => {
                let w2 = if width > 2 {
                    width
                } else {
                    2
                };
                let padded = crate::renderer::pad(":", '-', w2, &align);
                push_lit(buf, padded.as_str());
                proof {
                    reveal_strlit(":");
                    assert(":"@ =~= seq![':']);
                    assert(padded@ == sp_md_format_cell(*t, col as int));
                    assert(buf@ =~= before_cell + sp_md_format_cell(*t, col as int));
                }
            },
            HAlign::Centred => {
                let w3 = if width > 3 {
                    width
                } else {
                    3
                };
                push_lit(buf, ":");
                push_repeat(buf, '-', w3 - 2);
                push_lit(buf, ":");
                proof {
                    reveal_strlit(":");
                    assert(":"@ =~= seq![':']);
                    assert(buf@ =~= before_cell + (seq![':'] + sp_repeat_char(
                        '-',
                        (w3 - 2) as nat,
                    ) + seq![':']));
                    assert(buf@ =~= before_cell + sp_md_format_cell(*t, col as int));
                }
            },
        }
        push_lit(buf, "|");
        proof {
            reveal_strlit("|");
            assert(buf@ =~= old(buf)@ + seq!['|'] + sp_md_format_cols(*t, col + 1));
        }
        col += 1;
    }
    push_lit(buf, "\n");
    proof {
        reveal_strlit("\n");
        assert(buf@ =~= old(buf)@ + sp_md_header_format(*t));
    }
}

/// Renders a table as a pipe table: the first row as the header, then the
/// alignment-format row, then the body rows.
pub fn render_markdown(t: &Table) -> (r: String)
    requires
        !sp_is_empty(*t),
        sp_table_contents_ok(*t),
    ensures
        r@ == sp_render_markdown(*t),
    decreases sp_table_height(*t), 13int, 0int,
{
    let rk = RendererKind::Markdown;
    let widths = t.col_widths(&rk);
    let mut buf: Vec<char> = Vec::new();
    md_append_row(&mut buf, t, &widths, 0);
    md_append_header_format(&mut buf, t, &widths);
    let nrows = t.num_rows();
    let mut row: usize = 1;
    proof {
        assert(buf@ =~= sp_md_row(*t, 0) + sp_md_header_format(*t) + sp_md_body(*t, 1));
    }
    while row < nrows
        invariant
            sp_table_contents_ok(*t),
            widths@.len() == t.sp_cols().len(),
            forall|c: int|
                0 <= c < widths@.len() ==> widths@[c] == sp_col_width(
                    *t,
                    c,
                    RendererKind::Markdown,
                ),
            nrows == t.sp_rows().len(),
            1 <= row <= nrows || (nrows == 0 && row == 1),
            buf@ == sp_md_row(*t, 0) + sp_md_header_format(*t) + sp_md_body(*t, row as int),
        decreases nrows - row,
    {
        md_append_row(&mut buf, t, &widths, row);
        proof {
            assert(buf@ =~= sp_md_row(*t, 0) + sp_md_header_format(*t) + sp_md_body(
                *t,
                row + 1,
            ));
        }
        row += 1;
    }
    chars_to_string(&buf)
}

/// The plain-markup renderer, drawing a table as a pipe table.
pub struct Markdown();

impl Markdown {
    /// Renders the table.
    ///
    /// An empty table — one with no rows or no columns — is reported as
    /// [`RenderError::Empty`] rather than rendered.
    pub fn render(&self, table: &Table) -> (r: Result<String, RenderError>)
        requires
            sp_table_contents_ok(*table),
        ensures
            match r {
                Ok(s) => !sp_is_empty(*table) && s@ == sp_render_markdown(*table),
                Err(e) => sp_is_empty(*table) && e == RenderError::Empty,
            },
    {
        let hints: [RenderHint; 0] = [];
        self.render_with_hints(table, hints.as_slice())
    }

    /// Renders the table; the plain-markup renderer emits no styling, so the
    /// hints change nothing.
    pub fn render_with_hints(&self, table: &Table, hints: &[RenderHint]) -> (r: Result<
        String,
        RenderError,
    >)
        requires
            sp_table_contents_ok(*table),
        ensures
            match r {
                Ok(s) => !sp_is_empty(*table) && s@ == sp_render_markdown(*table),
                Err(e) => sp_is_empty(*table) && e == RenderError::Empty,
            },
    {
        if table.is_empty() {
            return Err(RenderError::Empty);
        }
        Ok(render_markdown(table))
    }
}

impl Default for Markdown {
    /// A plain-markup renderer.
    fn default() -> (r: Markdown)
        ensures
            true,
    {
        Markdown()
    }
}

} // verus!
