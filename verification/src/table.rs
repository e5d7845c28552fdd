//! The tabular data model: a table owns an ordered sequence of columns, an
//! ordered sequence of rows, and a table-level style set; a row owns cells; a
//! cell owns content, which may itself nest a whole table.
//!
//! Style assignability is enforced when a column, row or cell is constructed:
//! a style kind whose declared assignability excludes the target scope is a
//! usage error, reported immediately.

use vstd::prelude::*;

use crate::style::{
    all_assignable, sp_assignable, spec_key, Scope, Separator, Style, Styles, KEY_SEPARATOR,
};

verus! {

/// A usage error: a style value was attached to an element scope that its
/// declared assignability excludes.
pub struct StyleError {
    /// The offending style value.
    pub style: Style,
    /// The scope it was attached to.
    pub scope: Scope,
}

/// Supplies the text of a computed cell. The closure-like implementation is
/// invoked synchronously, exactly once per render pass, and is not memoized
/// across renders; `spec_produce` names the text it stands for.
pub trait Producer {
    /// The text this producer stands for.
    spec fn spec_produce(&self) -> Seq<char>;

    /// Produces the text.
    fn produce(&self) -> (r: String)
        ensures
            r@ == self.spec_produce(),
    ;
}

/// A producer of fixed text: the simplest computed content. An
/// implementation of [`Producer`] written outside the verifier must still
/// supply `spec_produce`, which only ghost code can; callers without ghost
/// code can wrap their text in this type instead.
pub struct FixedText {
    text: String,
}

impl FixedText {
    /// Creates a producer that always produces `text`.
    pub fn new(text: String) -> (r: FixedText)
        ensures
            r.spec_produce() == text@,
    {
        FixedText { text }
    }
}

impl Producer for FixedText {
    closed spec fn spec_produce(&self) -> Seq<char> {
        self.text@
    }

    fn produce(&self) -> (r: String)
        ensures
            r@ == self.spec_produce(),
    {
        self.text.clone()
    }
}

/// A cell's content: label text, lazily computed text, a nested table, or an
/// ordered composite of further content, concatenated when resolved.
pub enum Content {
    Label(String),
    Computed(Box<dyn Producer>),
    Nested(Table),
    Composite(Vec<Content>),
}

/// A column: a style set only; a per-column style injection point.
pub struct Col {
    styles: Styles,
}

impl Col {
    #[verifier::type_invariant]
    spec fn inv(&self) -> bool {
        all_assignable(self.styles@, Scope::Col)
    }

    /// The column's own style set.
    pub closed spec fn sp_styles(&self) -> Map<u64, Style> {
        self.styles@
    }

    /// Creates a column with the given styles.
    ///
    /// Every style must be assignable at column scope; [`Col::try_new`]
    /// reports a violation instead of requiring its absence.
    pub fn new(styles: Styles) -> (r: Col)
        requires
            all_assignable(styles@, Scope::Col),
        ensures
            r.sp_styles() == styles@,
    {
        Col { styles }
    }

    /// Creates a column with the given styles, or reports the first style
    /// that may not be attached at column scope.
    pub fn try_new(styles: Styles) -> (r: Result<Col, StyleError>)
        ensures
            match r {
                Ok(c) => all_assignable(styles@, Scope::Col) && c.sp_styles() == styles@,
                Err(e) => e.scope == Scope::Col && styles@.contains_key(spec_key(e.style))
                    && styles@[spec_key(e.style)] == e.style && !sp_assignable(e.style, Scope::Col),
            },
    {
        match styles.first_unassignable(Scope::Col) {
            None => Ok(Col { styles }),
            Some(style) => Err(StyleError { style, scope: Scope::Col }),
        }
    }

    /// A separator column: a visual gap instead of data.
    pub fn separator() -> (r: Col)
        ensures
            r.sp_styles() == Map::<u64, Style>::empty().insert(
                KEY_SEPARATOR,
                Style::Separator(Separator(true)),
            ),
    {
        let styles = Styles::new().with(Style::Separator(Separator(true)));
        Col { styles }
    }

    /// The column's own style set.
    pub fn styles(&self) -> (r: &Styles)
        ensures
            r@ == self.sp_styles(),
    {
        &self.styles
    }
}

/// A row: a style set plus an ordered sequence of cells. A separator row
/// (style-flagged, zero cells) forces a full-width rule instead of data.
pub struct Row {
    styles: Styles,
    cells: Vec<Cell>,
}

impl Row {
    #[verifier::type_invariant]
    spec fn inv(&self) -> bool {
        all_assignable(self.styles@, Scope::Row)
    }

    /// The row's own style set.
    pub closed spec fn sp_styles(&self) -> Map<u64, Style> {
        self.styles@
    }

    /// The row's cells.
    pub closed spec fn sp_cells(&self) -> Seq<Cell> {
        self.cells@
    }

    /// Creates a row with the given styles and cells.
    ///
    /// Every style must be assignable at row scope; [`Row::try_new`] reports
    /// a violation instead of requiring its absence.
    pub fn new(styles: Styles, cells: Vec<Cell>) -> (r: Row)
        requires
            all_assignable(styles@, Scope::Row),
        ensures
            r.sp_styles() == styles@,
            r.sp_cells() == cells@,
    {
        Row { styles, cells }
    }

    /// Creates a row with the given styles and cells, or reports the first
    /// style that may not be attached at row scope.
    pub fn try_new(styles: Styles, cells: Vec<Cell>) -> (r: Result<Row, StyleError>)
        ensures
            match r {
                Ok(c) => all_assignable(styles@, Scope::Row) && c.sp_styles() == styles@
                    && c.sp_cells() == cells@,
                Err(e) => e.scope == Scope::Row && styles@.contains_key(spec_key(e.style))
                    && styles@[spec_key(e.style)] == e.style && !sp_assignable(e.style, Scope::Row),
            },
    {
        match styles.first_unassignable(Scope::Row) {
            None => Ok(Row { styles, cells }),
            Some(style) => Err(StyleError { style, scope: Scope::Row }),
        }
    }

    /// Replaces the row's styles, keeping its cells.
    #[must_use]
    pub fn with_styles(self, styles: Styles) -> (r: Row)
        requires
            all_assignable(styles@, Scope::Row),
        ensures
            r.sp_styles() == styles@,
            r.sp_cells() == self.sp_cells(),
    {
        Row { styles, cells: self.cells }
    }

    /// A separator row: a visual gap instead of data.
    pub fn separator() -> (r: Row)
        ensures
            r.sp_styles() == Map::<u64, Style>::empty().insert(
                KEY_SEPARATOR,
                Style::Separator(Separator(true)),
            ),
            r.sp_cells() == Seq::<Cell>::empty(),
    {
        let styles = Styles::new().with(Style::Separator(Separator(true)));
        Row { styles, cells: Vec::new() }
    }

    /// The row's cells.
    pub fn cells(&self) -> (r: &Vec<Cell>)
        ensures
            r@ == self.sp_cells(),
    {
        &self.cells
    }

    /// The row's own style set.
    pub fn styles(&self) -> (r: &Styles)
        ensures
            r@ == self.sp_styles(),
    {
        &self.styles
    }
}

/// A cell: a style set plus content.
pub struct Cell {
    styles: Styles,
    data: Content,
}

impl Cell {
    #[verifier::type_invariant]
    spec fn inv(&self) -> bool {
        all_assignable(self.styles@, Scope::Cell)
    }

    /// The cell's own style set.
    pub closed spec fn sp_styles(&self) -> Map<u64, Style> {
        self.styles@
    }

    /// The cell's content.
    pub closed spec fn sp_data(&self) -> Content {
        self.data
    }

    /// Creates a cell with the given styles and content.
    ///
    /// Every style must be assignable at cell scope; [`Cell::try_new`]
    /// reports a violation instead of requiring its absence.
    pub fn new(styles: Styles, data: Content) -> (r: Cell)
        requires
            all_assignable(styles@, Scope::Cell),
        ensures
            r.sp_styles() == styles@,
            r.sp_data() == data,
    {
        Cell { styles, data }
    }

    /// Creates a cell with the given styles and content, or reports the
    /// first style that may not be attached at cell scope.
    pub fn try_new(styles: Styles, data: Content) -> (r: Result<Cell, StyleError>)
        ensures
            match r {
                Ok(c) => all_assignable(styles@, Scope::Cell) && c.sp_styles() == styles@
                    && c.sp_data() == data,
                Err(e) => e.scope == Scope::Cell && styles@.contains_key(spec_key(e.style))
                    && styles@[spec_key(e.style)] == e.style && !sp_assignable(
                    e.style,
                    Scope::Cell,
                ),
            },
    {
        match styles.first_unassignable(Scope::Cell) {
            None => Ok(Cell { styles, data }),
            Some(style) => Err(StyleError { style, scope: Scope::Cell }),
        }
    }

    /// The cell's content.
    pub fn data(&self) -> (r: &Content)
        ensures
            *r == self.sp_data(),
    {
        &self.data
    }

    /// The cell's own style set.
    pub fn styles(&self) -> (r: &Styles)
        ensures
            r@ == self.sp_styles(),
    {
        &self.styles
    }
}

/// The number of cells in the widest row.
pub open spec fn sp_widest_row(rows: Seq<Row>) -> nat
    decreases rows,
{
    if rows.len() == 0 {
        0
    } else {
        let rest = sp_widest_row(rows.drop_last());
        let last = rows.last().sp_cells().len();
        if last > rest {
            last
        } else {
            rest
        }
    }
}

/// A table: an ordered sequence of columns, an ordered sequence of rows, and
/// a table-level style set.
///
/// Columns auto-extend (with default style) when a wider row is pushed, but
/// never shrink. A table with zero rows or zero columns is empty and cannot
/// be rendered.
pub struct Table {
    styles: Styles,
    cols: Vec<Col>,
    rows: Vec<Row>,
}

impl Table {
    /// The table-level style set.
    pub closed spec fn sp_styles(&self) -> Map<u64, Style> {
        self.styles@
    }

    /// The table's columns.
    pub closed spec fn sp_cols(&self) -> Seq<Col> {
        self.cols@
    }

    /// The table's rows.
    pub closed spec fn sp_rows(&self) -> Seq<Row> {
        self.rows@
    }

    /// Creates a table from its parts.
    pub fn new(styles: Styles, cols: Vec<Col>, rows: Vec<Row>) -> (r: Table)
        ensures
            r.sp_styles() == styles@,
            r.sp_cols() == cols@,
            r.sp_rows() == rows@,
    {
        Table { styles, cols, rows }
    }

    /// Creates a table with the given styles and no columns or rows.
    pub fn with_styles(styles: Styles) -> (r: Table)
        ensures
            r.sp_styles() == styles@,
            r.sp_cols() == Seq::<Col>::empty(),
            r.sp_rows() == Seq::<Row>::empty(),
    {
        Table { styles, cols: Vec::new(), rows: Vec::new() }
    }

    /// Assigns columns to the table. The number of columns cannot be less
    /// than (but may exceed) the number of cells in the widest row.
    pub fn set_cols(&mut self, cols: Vec<Col>)
        requires
            cols@.len() >= sp_widest_row(old(self).sp_rows()),
        ensures
            final(self).sp_cols() == cols@,
            final(self).sp_rows() == old(self).sp_rows(),
            final(self).sp_styles() == old(self).sp_styles(),
    {
        self.cols = cols;
    }

    /// Assigns columns to the table. The number of columns cannot be less
    /// than (but may exceed) the number of cells in the widest row.
    #[must_use]
    pub fn with_cols(self, cols: Vec<Col>) -> (r: Table)
        requires
            cols@.len() >= sp_widest_row(self.sp_rows()),
        ensures
            r.sp_cols() == cols@,
            r.sp_rows() == self.sp_rows(),
            r.sp_styles() == self.sp_styles(),
    {
        let mut s = self;
        s.set_cols(cols);
        s
    }

    /// Appends a row, extending the columns with default-styled ones so that
    /// no row is wider than the column list.
    pub fn push_row(&mut self, row: Row)
        ensures
            final(self).sp_rows() == old(self).sp_rows().push(row),
            final(self).sp_styles() == old(self).sp_styles(),
            final(self).sp_cols().len() == if row.sp_cells().len() > old(self).sp_cols().len() {
                row.sp_cells().len()
            } else {
                old(self).sp_cols().len()
            },
            forall|i: int|
                0 <= i < old(self).sp_cols().len() ==> final(self).sp_cols()[i] == old(self).sp_cols()[i],
            forall|i: int|
                old(self).sp_cols().len() <= i < final(self).sp_cols().len() ==> #[trigger] final(self).sp_cols()[i].sp_styles() == Map::<u64, Style>::empty(),
    {
        let target = row.cells().len();
        while self.cols.len() < target
            invariant
                self.rows == old(self).rows,
                self.styles == old(self).styles,
                old(self).cols@.len() <= self.cols@.len(),
                self.cols@.len() <= if target > old(self).cols@.len() {
                    target as int
                } else {
                    old(self).cols@.len() as int
                },
                forall|i: int| 0 <= i < old(self).cols@.len() ==> self.cols@[i] == old(self).cols@[i],
                forall|i: int|
                    old(self).cols@.len() <= i < self.cols@.len() ==> #[trigger] self.cols@[i].sp_styles()
                        == Map::<u64, Style>::empty(),
            decreases target - self.cols@.len(),
        {
            let ghost before = self.cols@;
            self.cols.push(Col { styles: Styles::new() });
            proof {
                assert forall|i: int| 0 <= i < old(self).cols@.len() implies self.cols@[i] == old(
                    self,
                ).cols@[i] by {
                    assert(self.cols@[i] == before[i]);
                }
                assert forall|i: int|
                    old(self).cols@.len() <= i < self.cols@.len() implies #[trigger] self.cols@[i].sp_styles()
                        == Map::<u64, Style>::empty() by {
                    if i < before.len() {
                        assert(self.cols@[i] == before[i]);
                    }
                }
            }
        }
        self.rows.push(row);
    }

    /// Appends each of the given rows in order, extending the columns as
    /// [`Table::push_row`] does.
    pub fn push_rows(&mut self, rows: Vec<Row>)
        ensures
            final(self).sp_rows() == old(self).sp_rows() + rows@,
            final(self).sp_styles() == old(self).sp_styles(),
            final(self).sp_cols().len() >= old(self).sp_cols().len(),
            forall|i: int|
                0 <= i < old(self).sp_cols().len() ==> final(self).sp_cols()[i] == old(self).sp_cols()[i],
            forall|i: int|
                old(self).sp_cols().len() <= i < final(self).sp_cols().len() ==> #[trigger] final(self).sp_cols()[i].sp_styles() == Map::<u64, Style>::empty(),
    {
        let mut rest = rows;
        let n = rest.len();
        let mut i: usize = 0;
        proof {
            assert(rest@.skip(0) =~= rows@);
            assert(old(self).sp_rows() + rows@.take(0) =~= old(self).sp_rows());
        }
        while i < n
            invariant
                n == rows@.len(),
                i <= n,
                rest@ == rows@.skip(i as int),
                self.sp_rows() == old(self).sp_rows() + rows@.take(i as int),
                self.sp_styles() == old(self).sp_styles(),
                self.sp_cols().len() >= old(self).sp_cols().len(),
                forall|j: int|
                    0 <= j < old(self).sp_cols().len() ==> self.sp_cols()[j] == old(self).sp_cols()[j],
                forall|j: int|
                    old(self).sp_cols().len() <= j < self.sp_cols().len()
                        ==> #[trigger] self.sp_cols()[j].sp_styles() == Map::<u64, Style>::empty(),
            decreases n - i,
        {
            let ghost cols_before = self.sp_cols();
            let row = rest.remove(0);
            proof {
                assert(rest@ =~= rows@.skip(i + 1));
                assert(row == rows@[i as int]);
            }
            self.push_row(row);
            proof {
                assert(old(self).sp_rows() + rows@.take(i + 1) =~= (old(self).sp_rows()
                    + rows@.take(i as int)).push(rows@[i as int]));
                assert forall|j: int|
                    old(self).sp_cols().len() <= j < self.sp_cols().len() implies #[trigger] self.sp_cols()[j].sp_styles()
                        == Map::<u64, Style>::empty() by {
                    if j < cols_before.len() {
                        assert(self.sp_cols()[j] == cols_before[j]);
                    }
                }
            }
            i += 1;
        }
        proof {
            assert(rows@.take(n as int) =~= rows@);
        }
    }

    /// Appends a row, extending the columns as [`Table::push_row`] does.
    #[must_use]
    pub fn with_row(self, row: Row) -> (r: Table)
        ensures
            r.sp_rows() == self.sp_rows().push(row),
            r.sp_styles() == self.sp_styles(),
            r.sp_cols().len() == if row.sp_cells().len() > self.sp_cols().len() {
                row.sp_cells().len()
            } else {
                self.sp_cols().len()
            },
            forall|i: int|
                0 <= i < self.sp_cols().len() ==> r.sp_cols()[i] == self.sp_cols()[i],
            forall|i: int|
                self.sp_cols().len() <= i < r.sp_cols().len() ==> #[trigger] r.sp_cols()[i].sp_styles()
                    == Map::<u64, Style>::empty(),
    {
        let mut s = self;
        s.push_row(row);
        s
    }

    /// Appends each of the given rows in order, extending the columns as
    /// [`Table::push_row`] does.
    #[must_use]
    pub fn with_rows(self, rows: Vec<Row>) -> (r: Table)
        ensures
            r.sp_rows() == self.sp_rows() + rows@,
            r.sp_styles() == self.sp_styles(),
            r.sp_cols().len() >= self.sp_cols().len(),
            forall|i: int|
                0 <= i < self.sp_cols().len() ==> r.sp_cols()[i] == self.sp_cols()[i],
            forall|i: int|
                self.sp_cols().len() <= i < r.sp_cols().len() ==> #[trigger] r.sp_cols()[i].sp_styles()
                    == Map::<u64, Style>::empty(),
    {
        let mut s = self;
        s.push_rows(rows);
        s
    }

    /// The number of rows.
    pub fn num_rows(&self) -> (r: usize)
        ensures
            r == self.sp_rows().len(),
    {
        self.rows.len()
    }

    /// The number of columns.
    pub fn num_cols(&self) -> (r: usize)
        ensures
            r == self.sp_cols().len(),
    {
        self.cols.len()
    }

    /// Whether the table has no rows or no columns, and so cannot be
    /// rendered.
    pub fn is_empty(&self) -> (r: bool)
        ensures
            r == sp_is_empty(*self),
    {
        self.rows.len() == 0 || self.cols.len() == 0
    }

    /// The table-level style set.
    pub fn styles(&self) -> (r: &Styles)
        ensures
            r@ == self.sp_styles(),
    {
        &self.styles
    }

    /// The column at `col`, if the table has one.
    pub fn col_at(&self, col: usize) -> (r: Option<&Col>)
        ensures
            match r {
                Some(c) => col < self.sp_cols().len() && *c == self.sp_cols()[col as int],
                None => col >= self.sp_cols().len(),
            },
    {
        if col < self.cols.len() {
            Some(&self.cols[col])
        } else {
            None
        }
    }

    /// The row at `row`, if the table has one.
    pub fn row_at(&self, row: usize) -> (r: Option<&Row>)
        ensures
            match r {
                Some(c) => row < self.sp_rows().len() && *c == self.sp_rows()[row as int],
                None => row >= self.sp_rows().len(),
            },
    {
        if row < self.rows.len() {
            Some(&self.rows[row])
        } else {
            None
        }
    }
}

/// Whether the table has no rows or no columns.
pub open spec fn sp_is_empty(t: Table) -> bool {
    t.sp_rows().len() == 0 || t.sp_cols().len() == 0
}

/// The blended style map at column `col`: table styles overlaid by the
/// column's own, the column winning on key collisions. A coordinate outside
/// the table contributes nothing.
pub open spec fn sp_col_blended(t: Table, col: int) -> Map<u64, Style> {
    if 0 <= col < t.sp_cols().len() {
        t.sp_styles().union_prefer_right(t.sp_cols()[col].sp_styles())
    } else {
        t.sp_styles()
    }
}

/// The blended style map at row `row`: table styles overlaid by the row's
/// own, the row winning on key collisions.
pub open spec fn sp_row_blended(t: Table, row: int) -> Map<u64, Style> {
    if 0 <= row < t.sp_rows().len() {
        t.sp_styles().union_prefer_right(t.sp_rows()[row].sp_styles())
    } else {
        t.sp_styles()
    }
}

/// The cell at the given coordinate, if the table has one.
pub open spec fn sp_cell_at(t: Table, col: int, row: int) -> Option<Cell> {
    if 0 <= row < t.sp_rows().len() && 0 <= col < t.sp_rows()[row].sp_cells().len() {
        Some(t.sp_rows()[row].sp_cells()[col])
    } else {
        None
    }
}

/// The blended style map at a cell coordinate: table styles, overlaid by
/// column styles, overlaid by row styles, overlaid by cell styles, later
/// overlays winning on key collisions. A missing element contributes
/// nothing.
pub open spec fn sp_cell_blended(t: Table, col: int, row: int) -> Map<u64, Style> {
    let with_col = if 0 <= col < t.sp_cols().len() {
        t.sp_styles().union_prefer_right(t.sp_cols()[col].sp_styles())
    } else {
        t.sp_styles()
    };
    let with_row = if 0 <= row < t.sp_rows().len() {
        with_col.union_prefer_right(t.sp_rows()[row].sp_styles())
    } else {
        with_col
    };
    match sp_cell_at(t, col, row) {
        Some(cell) => with_row.union_prefer_right(cell.sp_styles()),
        None => with_row,
    }
}

impl Table {
    /// The blended style set at column `col`.
    pub fn col_blended_styles(&self, col: usize) -> (r: Styles)
        ensures
            r@ == sp_col_blended(*self, col as int),
    {
        let mut styles = Styles::new();
        styles.insert_all(&self.styles);
        proof {
            assert(styles@ =~= self.sp_styles());
        }
        if col < self.cols.len() {
            styles.insert_all(&self.cols[col].styles);
        }
        styles
    }

    /// The blended style set at row `row`.
    pub fn row_blended_styles(&self, row: usize) -> (r: Styles)
        ensures
            r@ == sp_row_blended(*self, row as int),
    {
        let mut styles = Styles::new();
        styles.insert_all(&self.styles);
        proof {
            assert(styles@ =~= self.sp_styles());
        }
        if row < self.rows.len() {
            styles.insert_all(&self.rows[row].styles);
        }
        styles
    }

    /// The blended style set at a cell coordinate.
    pub fn cell_blended_styles(&self, col: usize, row: usize) -> (r: Styles)
        ensures
            r@ == sp_cell_blended(*self, col as int, row as int),
    {
        let mut styles = Styles::new();
        styles.insert_all(&self.styles);
        proof {
            assert(styles@ =~= self.sp_styles());
        }
        if col < self.cols.len() {
            styles.insert_all(&self.cols[col].styles);
        }
        if row < self.rows.len() {
            styles.insert_all(&self.rows[row].styles);
            let cells = &self.rows[row].cells;
            if col < cells.len() {
                styles.insert_all(&cells[col].styles);
            }
        }
        styles
    }

    /// The content of the cell at the given coordinate, if the table has
    /// one.
    pub fn cell_data(&self, col: usize, row: usize) -> (r: Option<&Content>)
        ensures
            match r {
                Some(c) => sp_cell_at(*self, col as int, row as int) is Some && *c == sp_cell_at(
                    *self,
                    col as int,
                    row as int,
                )->Some_0.sp_data(),
                None => sp_cell_at(*self, col as int, row as int) is None,
            },
    {
        if row < self.rows.len() {
            let cells = &self.rows[row].cells;
            if col < cells.len() {
                return Some(&cells[col].data);
            }
        }
        None
    }
}

/// In the blended styles at a cell coordinate, a style set on the cell
/// itself overrides any value of the same kind set at table, column or row
/// level.
pub proof fn lemma_cell_style_overrides(t: Table, col: int, row: int, k: u64)
    requires
        sp_cell_at(t, col, row) is Some,
        sp_cell_at(t, col, row)->Some_0.sp_styles().contains_key(k),
    ensures
        sp_cell_blended(t, col, row).contains_key(k),
        sp_cell_blended(t, col, row)[k] == sp_cell_at(t, col, row)->Some_0.sp_styles()[k],
{
}

/// The nesting height of content: how deep tables nest beneath it.
pub open spec fn sp_content_height(c: Content) -> nat
    decreases c,
{
    match c {
        Content::Label(_) => 0,
        Content::Computed(_) => 0,
        Content::Nested(t) => 1 + sp_table_height(t),
        Content::Composite(parts) => 1 + sp_contents_height(parts@),
    }
}

/// The greatest nesting height over a sequence of content parts.
pub open spec fn sp_contents_height(s: Seq<Content>) -> nat
    decreases s,
{
    if s.len() == 0 {
        0
    } else {
        let rest = sp_contents_height(s.drop_last());
        let last = sp_content_height(s.last());
        if last > rest {
            last
        } else {
            rest
        }
    }
}

/// The greatest nesting height over a row's cells.
pub open spec fn sp_cells_height(s: Seq<Cell>) -> nat
    decreases s,
{
    if s.len() == 0 {
        0
    } else {
        let rest = sp_cells_height(s.drop_last());
        let last = sp_content_height(s.last().sp_data());
        if last > rest {
            last
        } else {
            rest
        }
    }
}

/// The greatest nesting height over a table's rows.
pub open spec fn sp_rows_height(s: Seq<Row>) -> nat
    decreases s,
{
    if s.len() == 0 {
        0
    } else {
        let rest = sp_rows_height(s.drop_last());
        let last = sp_cells_height(s.last().sp_cells());
        if last > rest {
            last
        } else {
            rest
        }
    }
}

/// The nesting height of a table: one more than the greatest height of any
/// of its cells' content.
pub open spec fn sp_table_height(t: Table) -> nat
    decreases t,
{
    1 + sp_rows_height(t.sp_rows())
}

pub proof fn lemma_contents_height_at(s: Seq<Content>, i: int)
    requires
        0 <= i < s.len(),
    ensures
        sp_content_height(s[i]) <= sp_contents_height(s),
    decreases s,
{
    if i < s.len() - 1 {
        assert(s.drop_last()[i] == s[i]);
        lemma_contents_height_at(s.drop_last(), i);
    }
}

pub proof fn lemma_cells_height_at(s: Seq<Cell>, i: int)
    requires
        0 <= i < s.len(),
    ensures
        sp_content_height(s[i].sp_data()) <= sp_cells_height(s),
    decreases s,
{
    if i < s.len() - 1 {
        assert(s.drop_last()[i] == s[i]);
        lemma_cells_height_at(s.drop_last(), i);
    }
}

pub proof fn lemma_rows_height_at(s: Seq<Row>, i: int)
    requires
        0 <= i < s.len(),
    ensures
        sp_cells_height(s[i].sp_cells()) <= sp_rows_height(s),
    decreases s,
{
    if i < s.len() - 1 {
        assert(s.drop_last()[i] == s[i]);
        lemma_rows_height_at(s.drop_last(), i);
    }
}

/// The content of any cell of a table nests strictly less deeply than the
/// table itself.
pub proof fn lemma_cell_height(t: Table, col: int, row: int)
    requires
        sp_cell_at(t, col, row) is Some,
    ensures
        sp_content_height(sp_cell_at(t, col, row)->Some_0.sp_data()) < sp_table_height(t),
{
    lemma_rows_height_at(t.sp_rows(), row);
    lemma_cells_height_at(t.sp_rows()[row].sp_cells(), col);
}

/// Whether content can be rendered: every table nested beneath it is
/// renderable and non-empty.
pub open spec fn sp_content_ok(c: Content) -> bool
    decreases c,
{
    match c {
        Content::Label(_) => true,
        Content::Computed(_) => true,
        Content::Nested(t) => !sp_is_empty(t) && sp_table_contents_ok(t),
        Content::Composite(parts) => sp_contents_ok(parts@),
    }
}

/// Whether every content part in the sequence can be rendered.
pub open spec fn sp_contents_ok(s: Seq<Content>) -> bool
    decreases s,
{
    if s.len() == 0 {
        true
    } else {
        sp_contents_ok(s.drop_last()) && sp_content_ok(s.last())
    }
}

/// Whether every cell in the sequence holds renderable content.
pub open spec fn sp_cells_ok(s: Seq<Cell>) -> bool
    decreases s,
{
    if s.len() == 0 {
        true
    } else {
        sp_cells_ok(s.drop_last()) && sp_content_ok(s.last().sp_data())
    }
}

/// Whether every row's cells hold renderable content.
pub open spec fn sp_rows_ok(s: Seq<Row>) -> bool
    decreases s,
{
    if s.len() == 0 {
        true
    } else {
        sp_rows_ok(s.drop_last()) && sp_cells_ok(s.last().sp_cells())
    }
}

/// Whether the content of every cell of the table can be rendered: every
/// nested table is itself non-empty with renderable content. Rendering an
/// empty nested table is a usage error; rendering an empty top-level table
/// is reported instead.
pub open spec fn sp_table_contents_ok(t: Table) -> bool
    decreases t,
{
    sp_rows_ok(t.sp_rows())
}

pub proof fn lemma_contents_ok_at(s: Seq<Content>, i: int)
    requires
        0 <= i < s.len(),
        sp_contents_ok(s),
    ensures
        sp_content_ok(s[i]),
    decreases s,
{
    if i < s.len() - 1 {
        assert(s.drop_last()[i] == s[i]);
        lemma_contents_ok_at(s.drop_last(), i);
    }
}

pub proof fn lemma_cells_ok_at(s: Seq<Cell>, i: int)
    requires
        0 <= i < s.len(),
        sp_cells_ok(s),
    ensures
        sp_content_ok(s[i].sp_data()),
    decreases s,
{
    if i < s.len() - 1 {
        assert(s.drop_last()[i] == s[i]);
        lemma_cells_ok_at(s.drop_last(), i);
    }
}

pub proof fn lemma_rows_ok_at(s: Seq<Row>, i: int)
    requires
        0 <= i < s.len(),
        sp_rows_ok(s),
    ensures
        sp_cells_ok(s[i].sp_cells()),
    decreases s,
{
    if i < s.len() - 1 {
        assert(s.drop_last()[i] == s[i]);
        lemma_rows_ok_at(s.drop_last(), i);
    }
}

/// The content of any cell of a table with renderable contents is itself
/// renderable.
pub proof fn lemma_cell_ok(t: Table, col: int, row: int)
    requires
        sp_table_contents_ok(t),
        sp_cell_at(t, col, row) is Some,
    ensures
        sp_content_ok(sp_cell_at(t, col, row)->Some_0.sp_data()),
{
    lemma_rows_ok_at(t.sp_rows(), row);
    lemma_cells_ok_at(t.sp_rows()[row].sp_cells(), col);
}

} // verus!
