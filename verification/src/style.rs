//! The style model: typed style properties, a style-set container with a
//! cascading merge, and assignability rules restricting the scope a property
//! may be attached to.
//!
//! Every recognized style kind is one variant of the closed [`Style`] union,
//! carrying its typed payload. A [`Styles`] container maps each kind (by its
//! discriminant key) to at most one value; merging two containers lets the
//! source win on key collisions, which is the single primitive behind the
//! blended table/column/row/cell style cascade.

use vstd::prelude::*;

verus! {

/// A 16-colour palette for in-band terminal signalling, with the terminal's
/// default and a hidden pseudo-colour.
#[derive(Debug, Clone, Copy, PartialEq, Eq, Structural)]
pub enum Palette16 {
    Black,
    Red,
    Green,
    Yellow,
    Blue,
    Magenta,
    Cyan,
    White,
    BrightBlack,
    BrightRed,
    BrightGreen,
    BrightYellow,
    BrightBlue,
    BrightMagenta,
    BrightCyan,
    BrightWhite,
    Default,
    Hidden,
}

/// Horizontal alignment of a cell's text within its padded column width.
#[derive(Debug, Clone, Copy, PartialEq, Eq, Structural)]
pub enum HAlign {
    Left,
    Centred,
    Right,
}

/// Blinking text.
#[derive(Debug, Clone, Copy, PartialEq, Eq, Structural)]
pub struct Blink(pub bool);

/// Bold text.
#[derive(Debug, Clone, Copy, PartialEq, Eq, Structural)]
pub struct Bold(pub bool);

/// Background colour of the border glyphs; table scope only.
#[derive(Debug, Clone, Copy, PartialEq, Eq, Structural)]
pub struct BorderBg(pub Palette16);

/// Foreground colour of the border glyphs; table scope only.
#[derive(Debug, Clone, Copy, PartialEq, Eq, Structural)]
pub struct BorderFg(pub Palette16);

/// Background colour of the whole padded line, whitespace included.
#[derive(Debug, Clone, Copy, PartialEq, Eq, Structural)]
pub struct FillBg(pub Palette16);

/// Inverts the colours of the whole padded line, whitespace included.
#[derive(Debug, Clone, Copy, PartialEq, Eq, Structural)]
pub struct FillInvert(pub bool);

/// Flags a row or column as a header; neighbouring boundaries render bold.
#[derive(Debug, Clone, Copy, PartialEq, Eq, Structural)]
pub struct Header(pub bool);

/// Italic text.
#[derive(Debug, Clone, Copy, PartialEq, Eq, Structural)]
pub struct Italic(pub bool);

/// Upper bound on a column's width.
#[derive(Debug, Clone, Copy, PartialEq, Eq, Structural)]
pub struct MaxWidth(pub usize);

/// Lower bound on a column's width.
#[derive(Debug, Clone, Copy, PartialEq, Eq, Structural)]
pub struct MinWidth(pub usize);

/// Flags a row or column as a separator: a visual gap instead of data.
#[derive(Debug, Clone, Copy, PartialEq, Eq, Structural)]
pub struct Separator(pub bool);

/// Struck-through text.
#[derive(Debug, Clone, Copy, PartialEq, Eq, Structural)]
pub struct Strikethrough(pub bool);

/// Background colour of the printable span of a line.
#[derive(Debug, Clone, Copy, PartialEq, Eq, Structural)]
pub struct TextBg(pub Palette16);

/// Foreground colour of the printable span of a line.
#[derive(Debug, Clone, Copy, PartialEq, Eq, Structural)]
pub struct TextFg(pub Palette16);

/// Inverts the colours of the printable span of a line.
#[derive(Debug, Clone, Copy, PartialEq, Eq, Structural)]
pub struct TextInvert(pub bool);

/// Underlined text.
#[derive(Debug, Clone, Copy, PartialEq, Eq, Structural)]
pub struct Underline(pub bool);

/// The closed union of all recognized style kinds, each carrying its typed
/// payload. A [`Styles`] container holds at most one value per kind.
#[derive(Debug, Clone, Copy, PartialEq, Eq, Structural)]
pub enum Style {
    Blink(Blink),
    Bold(Bold),
    BorderBg(BorderBg),
    BorderFg(BorderFg),
    FillBg(FillBg),
    FillInvert(FillInvert),
    HAlign(HAlign),
    Header(Header),
    Italic(Italic),
    MaxWidth(MaxWidth),
    MinWidth(MinWidth),
    Separator(Separator),
    Strikethrough(Strikethrough),
    TextBg(TextBg),
    TextFg(TextFg),
    TextInvert(TextInvert),
    Underline(Underline),
}

pub const KEY_BLINK: u64 = 0;
pub const KEY_BOLD: u64 = 1;
pub const KEY_BORDER_BG: u64 = 2;
pub const KEY_BORDER_FG: u64 = 3;
pub const KEY_FILL_BG: u64 = 4;
pub const KEY_FILL_INVERT: u64 = 5;
pub const KEY_HALIGN: u64 = 6;
pub const KEY_HEADER: u64 = 7;
pub const KEY_ITALIC: u64 = 8;
pub const KEY_MAX_WIDTH: u64 = 9;
pub const KEY_MIN_WIDTH: u64 = 10;
pub const KEY_SEPARATOR: u64 = 11;
pub const KEY_STRIKETHROUGH: u64 = 12;
pub const KEY_TEXT_BG: u64 = 13;
pub const KEY_TEXT_FG: u64 = 14;
pub const KEY_TEXT_INVERT: u64 = 15;
pub const KEY_UNDERLINE: u64 = 16;

/// The discriminant key under which a style value is stored.
pub open spec fn spec_key(s: Style) -> u64 {
    match s {
        Style::Blink(_) => KEY_BLINK,
        Style::Bold(_) => KEY_BOLD,
        Style::BorderBg(_) => KEY_BORDER_BG,
        Style::BorderFg(_) => KEY_BORDER_FG,
        Style::FillBg(_) => KEY_FILL_BG,
        Style::FillInvert(_) => KEY_FILL_INVERT,
        Style::HAlign(_) => KEY_HALIGN,
        Style::Header(_) => KEY_HEADER,
        Style::Italic(_) => KEY_ITALIC,
        Style::MaxWidth(_) => KEY_MAX_WIDTH,
        Style::MinWidth(_) => KEY_MIN_WIDTH,
        Style::Separator(_) => KEY_SEPARATOR,
        Style::Strikethrough(_) => KEY_STRIKETHROUGH,
        Style::TextBg(_) => KEY_TEXT_BG,
        Style::TextFg(_) => KEY_TEXT_FG,
        Style::TextInvert(_) => KEY_TEXT_INVERT,
        Style::Underline(_) => KEY_UNDERLINE,
    }
}

/// The element scopes a style value may be attached to.
#[derive(Debug, Clone, Copy, PartialEq, Eq, Structural)]
pub enum Assignability {
    /// At the table level only.
    TableOnly,
    /// At the column level and at the table level.
    ColTable,
    /// At the row level and at the table level.
    RowTable,
    /// At the row, column and table level.
    RowColTable,
    /// At the cell, row, column and table level.
    CellRowColTable,
}

pub open spec fn sp_at_col(a: Assignability) -> bool {
    match a {
        Assignability::ColTable => true,
        Assignability::RowColTable => true,
        Assignability::CellRowColTable => true,
        _ => false,
    }
}

pub open spec fn sp_at_row(a: Assignability) -> bool {
    match a {
        Assignability::RowTable => true,
        Assignability::RowColTable => true,
        Assignability::CellRowColTable => true,
        _ => false,
    }
}

pub open spec fn sp_at_cell(a: Assignability) -> bool {
    a is CellRowColTable
}

impl Assignability {
    /// Whether a style of this assignability may be attached to a column.
    pub fn at_col(&self) -> (r: bool)
        ensures
            r == sp_at_col(*self),
    {
        match self {
            Assignability::ColTable => true,
            Assignability::RowColTable => true,
            Assignability::CellRowColTable => true,
            _ => false,
        }
    }

    /// Whether a style of this assignability may be attached to a row.
    pub fn at_row(&self) -> (r: bool)
        ensures
            r == sp_at_row(*self),
    {
        match self {
            Assignability::RowTable => true,
            Assignability::RowColTable => true,
            Assignability::CellRowColTable => true,
            _ => false,
        }
    }

    /// Whether a style of this assignability may be attached to a cell.
    pub fn at_cell(&self) -> (r: bool)
        ensures
            r == sp_at_cell(*self),
    {
        matches!(self, Assignability::CellRowColTable)
    }
}

/// The declared assignability of each style kind.
pub open spec fn sp_assignability(s: Style) -> Assignability {
    match s {
        Style::Blink(_) => Assignability::CellRowColTable,
        Style::Bold(_) => Assignability::CellRowColTable,
        Style::BorderBg(_) => Assignability::TableOnly,
        Style::BorderFg(_) => Assignability::TableOnly,
        Style::FillBg(_) => Assignability::CellRowColTable,
        Style::FillInvert(_) => Assignability::CellRowColTable,
        Style::HAlign(_) => Assignability::CellRowColTable,
        Style::Header(_) => Assignability::RowColTable,
        Style::Italic(_) => Assignability::CellRowColTable,
        Style::MaxWidth(_) => Assignability::ColTable,
        Style::MinWidth(_) => Assignability::ColTable,
        Style::Separator(_) => Assignability::RowColTable,
        Style::Strikethrough(_) => Assignability::CellRowColTable,
        Style::TextBg(_) => Assignability::CellRowColTable,
        Style::TextFg(_) => Assignability::CellRowColTable,
        Style::TextInvert(_) => Assignability::CellRowColTable,
        Style::Underline(_) => Assignability::CellRowColTable,
    }
}

impl Style {
    /// The discriminant key under which this style value is stored.
    pub fn key(&self) -> (r: u64)
        ensures
            r == spec_key(*self),
    {
        match self {
            Style::Blink(_) => KEY_BLINK,
            Style::Bold(_) => KEY_BOLD,
            Style::BorderBg(_) => KEY_BORDER_BG,
            Style::BorderFg(_) => KEY_BORDER_FG,
            Style::FillBg(_) => KEY_FILL_BG,
            Style::FillInvert(_) => KEY_FILL_INVERT,
            Style::HAlign(_) => KEY_HALIGN,
            Style::Header(_) => KEY_HEADER,
            Style::Italic(_) => KEY_ITALIC,
            Style::MaxWidth(_) => KEY_MAX_WIDTH,
            Style::MinWidth(_) => KEY_MIN_WIDTH,
            Style::Separator(_) => KEY_SEPARATOR,
            Style::Strikethrough(_) => KEY_STRIKETHROUGH,
            Style::TextBg(_) => KEY_TEXT_BG,
            Style::TextFg(_) => KEY_TEXT_FG,
            Style::TextInvert(_) => KEY_TEXT_INVERT,
            Style::Underline(_) => KEY_UNDERLINE,
        }
    }

    /// The element scopes this style value may be attached to.
    pub fn assignability(&self) -> (r: Assignability)
        ensures
            r == sp_assignability(*self),
    {
        match self {
            Style::Blink(_) => Assignability::CellRowColTable,
            Style::Bold(_) => Assignability::CellRowColTable,
            Style::BorderBg(_) => Assignability::TableOnly,
            Style::BorderFg(_) => Assignability::TableOnly,
            Style::FillBg(_) => Assignability::CellRowColTable,
            Style::FillInvert(_) => Assignability::CellRowColTable,
            Style::HAlign(_) => Assignability::CellRowColTable,
            Style::Header(_) => Assignability::RowColTable,
            Style::Italic(_) => Assignability::CellRowColTable,
            Style::MaxWidth(_) => Assignability::ColTable,
            Style::MinWidth(_) => Assignability::ColTable,
            Style::Separator(_) => Assignability::RowColTable,
            Style::Strikethrough(_) => Assignability::CellRowColTable,
            Style::TextBg(_) => Assignability::CellRowColTable,
            Style::TextFg(_) => Assignability::CellRowColTable,
            Style::TextInvert(_) => Assignability::CellRowColTable,
            Style::Underline(_) => Assignability::CellRowColTable,
        }
    }
}

/// The map denoted by a sequence of style entries; a later entry wins over an
/// earlier one of the same key.
pub open spec fn map_of(entries: Seq<Style>) -> Map<u64, Style>
    decreases entries,
{
    if entries.len() == 0 {
        Map::empty()
    } else {
        map_of(entries.drop_last()).insert(spec_key(entries.last()), entries.last())
    }
}

/// Pairwise-distinct discriminant keys.
pub open spec fn keys_unique(entries: Seq<Style>) -> bool {
    forall|i: int, j: int|
        0 <= i < j < entries.len() ==> spec_key(entries[i]) != spec_key(entries[j])
}

/// A set of styles, at most one value per style kind.
///
/// Viewed as a map from each kind's discriminant key to its value.
pub struct Styles {
    entries: Vec<Style>,
}

impl View for Styles {
    type V = Map<u64, Style>;

    closed spec fn view(&self) -> Map<u64, Style> {
        map_of(self.entries@)
    }
}

pub broadcast proof fn lemma_map_of_dom(entries: Seq<Style>, k: u64)
    ensures
        #[trigger] map_of(entries).contains_key(k) <==> exists|i: int|
            0 <= i < entries.len() && spec_key(entries[i]) == k,
    decreases entries,
{
    if entries.len() > 0 {
        lemma_map_of_dom(entries.drop_last(), k);
        if spec_key(entries.last()) == k {
            assert(spec_key(entries[entries.len() - 1]) == k);
        } else if map_of(entries).contains_key(k) {
            let i = choose|i: int|
                0 <= i < entries.drop_last().len() && spec_key(entries.drop_last()[i]) == k;
            assert(spec_key(entries[i]) == k);
        } else {
            assert forall|i: int| 0 <= i < entries.len() implies spec_key(entries[i]) != k by {
                if i < entries.len() - 1 {
                    assert(entries.drop_last()[i] == entries[i]);
                }
            }
        }
    }
}

pub proof fn lemma_map_of_index(entries: Seq<Style>, i: int)
    requires
        keys_unique(entries),
        0 <= i < entries.len(),
    ensures
        map_of(entries).contains_key(spec_key(entries[i])),
        map_of(entries)[spec_key(entries[i])] == entries[i],
    decreases entries,
{
    if i < entries.len() - 1 {
        assert(entries.drop_last()[i] == entries[i]);
        lemma_map_of_index(entries.drop_last(), i);
        assert(spec_key(entries[i]) != spec_key(entries[entries.len() - 1]));
    }
}

proof fn lemma_map_of_update(entries: Seq<Style>, i: int, v: Style)
    requires
        keys_unique(entries),
        0 <= i < entries.len(),
        spec_key(v) == spec_key(entries[i]),
    ensures
        map_of(entries.update(i, v)) == map_of(entries).insert(spec_key(v), v),
        keys_unique(entries.update(i, v)),
    decreases entries,
{
    let k = spec_key(v);
    if i == entries.len() - 1 {
        assert(entries.update(i, v).drop_last() =~= entries.drop_last());
        assert(entries.update(i, v).last() == v);
        assert(map_of(entries.update(i, v)) =~= map_of(entries).insert(k, v));
    } else {
        assert(entries.update(i, v).drop_last() =~= entries.drop_last().update(i, v));
        assert(entries.drop_last()[i] == entries[i]);
        lemma_map_of_update(entries.drop_last(), i, v);
        let last = entries.last();
        assert(entries.update(i, v).last() == last);
        assert(spec_key(last) != k);
        assert(map_of(entries.update(i, v)) =~= map_of(entries).insert(k, v));
    }
}

proof fn lemma_map_of_remove(entries: Seq<Style>, i: int)
    requires
        keys_unique(entries),
        0 <= i < entries.len(),
    ensures
        map_of(entries.remove(i)) == map_of(entries).remove(spec_key(entries[i])),
        keys_unique(entries.remove(i)),
    decreases entries,
{
    let k = spec_key(entries[i]);
    if i == entries.len() - 1 {
        assert(entries.remove(i) =~= entries.drop_last());
        lemma_map_of_dom(entries.drop_last(), k);
        assert forall|j: int| 0 <= j < entries.drop_last().len() implies spec_key(
            entries.drop_last()[j],
        ) != k by {
            assert(entries.drop_last()[j] == entries[j]);
        }
        assert(!map_of(entries.drop_last()).contains_key(k));
        assert(map_of(entries.remove(i)) =~= map_of(entries).remove(k));
    } else {
        assert(entries.remove(i).drop_last() =~= entries.drop_last().remove(i));
        assert(entries.drop_last()[i] == entries[i]);
        lemma_map_of_remove(entries.drop_last(), i);
        let last = entries.last();
        assert(entries.remove(i).last() == last);
        assert(spec_key(last) != k);
        assert(map_of(entries.remove(i)) =~= map_of(entries).remove(k));
    }
}

impl Styles {
    #[verifier::type_invariant]
    spec fn inv(&self) -> bool {
        keys_unique(self.entries@)
    }

    /// An empty style set.
    pub fn new() -> (r: Styles)
        ensures
            r@ == Map::<u64, Style>::empty(),
    {
        Styles { entries: Vec::new() }
    }

    /// Adds one style, replacing any earlier value of the same kind.
    #[must_use]
    pub fn with(self, style: Style) -> (r: Styles)
        ensures
            r@ == self@.insert(spec_key(style), style),
    {
        let mut s = self;
        s.insert(style);
        s
    }

    /// Merges all entries of `styles` into `self`, the source winning on key
    /// collisions.
    #[must_use]
    pub fn with_all(self, styles: &Styles) -> (r: Styles)
        ensures
            r@ == self@.union_prefer_right(styles@),
    {
        let mut s = self;
        s.insert_all(styles);
        s
    }

    /// Inserts one style, returning the replaced value of the same kind, if
    /// any.
    pub fn insert(&mut self, style: Style) -> (prev: Option<Style>)
        ensures
            final(self)@ == old(self)@.insert(spec_key(style), style),
            match prev {
                Some(p) => old(self)@.contains_key(spec_key(style)) && p == old(self)@[spec_key(
                    style,
                )],
                None => !old(self)@.contains_key(spec_key(style)),
            },
    {
        proof {
            use_type_invariant(&*self);
        }
        let k = style.key();
        let n = self.entries.len();
        let mut at: usize = 0;
        let mut found = false;
        while at < n && !found
            invariant
                keys_unique(self.entries@),
                *self == *old(self),
                n == self.entries@.len(),
                at <= n,
                spec_key(style) == k,
                forall|j: int| 0 <= j < at ==> spec_key(self.entries@[j]) != k,
                found ==> at < n && spec_key(self.entries@[at as int]) == k,
            decreases n - at + (if found { 0int } else { 1int }),
        {
            if self.entries[at].key() == k {
                found = true;
            } else {
                at += 1;
            }
        }
        let mut out: Vec<Style> = Vec::new();
        let mut i: usize = 0;
        while i < n
            invariant
                *self == *old(self),
                n == self.entries@.len(),
                i <= n,
                out@ == self.entries@.take(i as int),
            decreases n - i,
        {
            out.push(self.entries[i]);
            proof {
                assert(self.entries@.take(i + 1) =~= self.entries@.take(i as int).push(
                    self.entries@[i as int],
                ));
            }
            i += 1;
        }
        proof {
            assert(self.entries@.take(n as int) =~= self.entries@);
        }
        if found {
            let prev = self.entries[at];
            out.set(at, style);
            proof {
                lemma_map_of_index(old(self).entries@, at as int);
                lemma_map_of_update(old(self).entries@, at as int, style);
            }
            self.entries = out;
            Some(prev)
        } else {
            proof {
                lemma_map_of_dom(self.entries@, k);
            }
            out.push(style);
            proof {
                assert(out@.drop_last() =~= old(self).entries@);
                assert forall|a: int, b: int| 0 <= a < b < out@.len() implies spec_key(out@[a])
                    != spec_key(out@[b]) by {
                    if b < out@.len() - 1 {
                        assert(old(self).entries@[a] == out@[a]);
                        assert(old(self).entries@[b] == out@[b]);
                    }
                }
            }
            self.entries = out;
            None
        }
    }

    /// Merges all entries of `styles` into `self`, the source winning on key
    /// collisions.
    pub fn insert_all(&mut self, styles: &Styles)
        ensures
            final(self)@ == old(self)@.union_prefer_right(styles@),
    {
        let n = styles.entries.len();
        let mut i: usize = 0;
        proof {
            assert(styles.entries@.take(0) =~= Seq::<Style>::empty());
            assert(self@ =~= old(self)@.union_prefer_right(map_of(styles.entries@.take(0))));
        }
        while i < n
            invariant
                n == styles.entries@.len(),
                i <= n,
                self@ == old(self)@.union_prefer_right(map_of(styles.entries@.take(i as int))),
            decreases n - i,
        {
            let e = styles.entries[i];
            self.insert(e);
            proof {
                let t1 = styles.entries@.take(i + 1);
                assert(t1.drop_last() =~= styles.entries@.take(i as int));
                assert(t1.last() == e);
                assert(old(self)@.union_prefer_right(map_of(styles.entries@.take(i as int))).insert(
                    spec_key(e),
                    e,
                ) =~= old(self)@.union_prefer_right(map_of(t1)));
            }
            i += 1;
        }
        proof {
            assert(styles.entries@.take(n as int) =~= styles.entries@);
        }
    }

    /// The stored value of the kind with discriminant `key`, if any.
    pub fn get(&self, key: u64) -> (r: Option<&Style>)
        ensures
            match r {
                Some(s) => self@.contains_key(key) && *s == self@[key],
                None => !self@.contains_key(key),
            },
    {
        proof {
            use_type_invariant(&*self);
        }
        let n = self.entries.len();
        let mut i: usize = 0;
        while i < n
            invariant
                keys_unique(self.entries@),
                n == self.entries@.len(),
                i <= n,
                forall|j: int| 0 <= j < i ==> spec_key(self.entries@[j]) != key,
            decreases n - i,
        {
            if self.entries[i].key() == key {
                proof {
                    lemma_map_of_index(self.entries@, i as int);
                }
                return Some(&self.entries[i]);
            }
            i += 1;
        }
        proof {
            lemma_map_of_dom(self.entries@, key);
        }
        None
    }

    /// Removes and returns the stored value of the kind with discriminant
    /// `key`, if any.
    pub fn take(&mut self, key: u64) -> (r: Option<Style>)
        ensures
            final(self)@ == old(self)@.remove(key),
            match r {
                Some(s) => old(self)@.contains_key(key) && s == old(self)@[key],
                None => !old(self)@.contains_key(key),
            },
    {
        proof {
            use_type_invariant(&*self);
        }
        let n = self.entries.len();
        let mut out: Vec<Style> = Vec::new();
        let mut prev: Option<Style> = None;
        let mut i: usize = 0;
        while i < n
            invariant
                keys_unique(self.entries@),
                *self == *old(self),
                n == self.entries@.len(),
                i <= n,
                match prev {
                    Some(p) => exists|j: int|
                        0 <= j < i && spec_key(self.entries@[j]) == key && p == self.entries@[j]
                            && out@ == self.entries@.take(i as int).remove(j),
                    None => out@ == self.entries@.take(i as int) && forall|j: int|
                        0 <= j < i ==> spec_key(self.entries@[j]) != key,
                },
            decreases n - i,
        {
            let e = self.entries[i];
            if prev.is_none() && e.key() == key {
                prev = Some(e);
                proof {
                    assert(self.entries@.take(i + 1).remove(i as int) =~= self.entries@.take(
                        i as int,
                    ));
                }
            } else {
                let ghost out0 = out@;
                out.push(e);
                proof {
                    let t1 = self.entries@.take(i + 1);
                    assert(t1 =~= self.entries@.take(i as int).push(e));
                    if let Some(p) = prev {
                        let j = choose|j: int|
                            0 <= j < i && spec_key(self.entries@[j]) == key && p
                                == self.entries@[j] && out0 == self.entries@.take(i as int).remove(
                                j,
                            );
                        assert(out@ =~= t1.remove(j));
                    }
                }
            }
            i += 1;
        }
        proof {
            assert(self.entries@.take(n as int) =~= self.entries@);
            match prev {
                Some(p) => {
                    let j = choose|j: int|
                        0 <= j < n && spec_key(self.entries@[j]) == key && p == self.entries@[j]
                            && out@ == self.entries@.take(n as int).remove(j);
                    lemma_map_of_index(self.entries@, j);
                    lemma_map_of_remove(self.entries@, j);
                },
                None => {
                    lemma_map_of_dom(self.entries@, key);
                    assert(map_of(out@) =~= old(self)@.remove(key));
                },
            }
        }
        self.entries = out;
        prev
    }
}

impl Default for Styles {
    /// An empty style set.
    fn default() -> (r: Styles)
        ensures
            r@ == Map::<u64, Style>::empty(),
    {
        Styles::new()
    }
}

/// The element scope a style set is attached to.
#[derive(Debug, Clone, Copy, PartialEq, Eq, Structural)]
pub enum Scope {
    Table,
    Col,
    Row,
    Cell,
}

/// Whether a style value may be attached to an element of the given scope.
pub open spec fn sp_assignable(s: Style, scope: Scope) -> bool {
    match scope {
        Scope::Table => true,
        Scope::Col => sp_at_col(sp_assignability(s)),
        Scope::Row => sp_at_row(sp_assignability(s)),
        Scope::Cell => sp_at_cell(sp_assignability(s)),
    }
}

/// Whether every style in the map may be attached to an element of the given
/// scope.
pub open spec fn all_assignable(m: Map<u64, Style>, scope: Scope) -> bool {
    forall|k: u64| #[trigger] m.contains_key(k) ==> sp_assignable(m[k], scope)
}

impl Styles {
    /// The first style in this set that may not be attached to an element of
    /// the given scope, or nothing when every style may.
    pub fn first_unassignable(&self, scope: Scope) -> (r: Option<Style>)
        ensures
            match r {
                Some(s) => self@.contains_key(spec_key(s)) && self@[spec_key(s)] == s
                    && !sp_assignable(s, scope),
                None => all_assignable(self@, scope),
            },
    {
        proof {
            use_type_invariant(&*self);
        }
        let n = self.entries.len();
        let mut i: usize = 0;
        while i < n
            invariant
                keys_unique(self.entries@),
                n == self.entries@.len(),
                i <= n,
                forall|j: int| 0 <= j < i ==> sp_assignable(#[trigger] self.entries@[j], scope),
            decreases n - i,
        {
            let e = self.entries[i];
            let ok = match scope {
                Scope::Table => true,
                Scope::Col => e.assignability().at_col(),
                Scope::Row => e.assignability().at_row(),
                Scope::Cell => e.assignability().at_cell(),
            };
            if !ok {
                proof {
                    lemma_map_of_index(self.entries@, i as int);
                }
                return Some(e);
            }
            i += 1;
        }
        proof {
            assert forall|k: u64| #[trigger] self@.contains_key(k) implies sp_assignable(
                self@[k],
                scope,
            ) by {
                lemma_map_of_dom(self.entries@, k);
                let j = choose|j: int|
                    0 <= j < self.entries@.len() && spec_key(self.entries@[j]) == k;
                lemma_map_of_index(self.entries@, j);
            }
        }
        None
    }
}

/// The resolved minimum-width constraint, or its default of zero when unset.
pub open spec fn sp_min_width(m: Map<u64, Style>) -> usize {
    if m.contains_key(KEY_MIN_WIDTH) {
        match m[KEY_MIN_WIDTH] {
            Style::MinWidth(w) => w.0,
            _ => 0,
        }
    } else {
        0
    }
}

/// The resolved maximum-width constraint, or unbounded when unset.
pub open spec fn sp_max_width(m: Map<u64, Style>) -> usize {
    if m.contains_key(KEY_MAX_WIDTH) {
        match m[KEY_MAX_WIDTH] {
            Style::MaxWidth(w) => w.0,
            _ => usize::MAX,
        }
    } else {
        usize::MAX
    }
}

/// The resolved horizontal alignment, or left when unset.
pub open spec fn sp_halign(m: Map<u64, Style>) -> HAlign {
    if m.contains_key(KEY_HALIGN) {
        match m[KEY_HALIGN] {
            Style::HAlign(a) => a,
            _ => HAlign::Left,
        }
    } else {
        HAlign::Left
    }
}

/// The resolved truth of a boolean style kind, or false when unset.
pub open spec fn sp_flag(m: Map<u64, Style>, key: u64) -> bool {
    if m.contains_key(key) {
        match m[key] {
            Style::Blink(v) => v.0,
            Style::Bold(v) => v.0,
            Style::FillInvert(v) => v.0,
            Style::Header(v) => v.0,
            Style::Italic(v) => v.0,
            Style::Separator(v) => v.0,
            Style::Strikethrough(v) => v.0,
            Style::TextInvert(v) => v.0,
            Style::Underline(v) => v.0,
            _ => false,
        }
    } else {
        false
    }
}

/// The resolved colour of a colour-valued style kind, if set.
pub open spec fn sp_colour(m: Map<u64, Style>, key: u64) -> Option<Palette16> {
    if m.contains_key(key) {
        match m[key] {
            Style::BorderBg(c) => Some(c.0),
            Style::BorderFg(c) => Some(c.0),
            Style::FillBg(c) => Some(c.0),
            Style::TextBg(c) => Some(c.0),
            Style::TextFg(c) => Some(c.0),
            _ => None,
        }
    } else {
        None
    }
}

impl Styles {
    /// The minimum-width constraint, or its default of zero when unset.
    pub fn min_width_or_default(&self) -> (r: usize)
        ensures
            r == sp_min_width(self@),
    {
        match self.get(KEY_MIN_WIDTH) {
            Some(Style::MinWidth(w)) => w.0,
            _ => 0,
        }
    }

    /// The maximum-width constraint, or unbounded when unset.
    pub fn max_width_or_default(&self) -> (r: usize)
        ensures
            r == sp_max_width(self@),
    {
        match self.get(KEY_MAX_WIDTH) {
            Some(Style::MaxWidth(w)) => w.0,
            _ => usize::MAX,
        }
    }

    /// The horizontal alignment, or left when unset.
    pub fn halign_or_default(&self) -> (r: HAlign)
        ensures
            r == sp_halign(self@),
    {
        match self.get(KEY_HALIGN) {
            Some(Style::HAlign(a)) => *a,
            _ => HAlign::Left,
        }
    }

    /// The truth of the boolean style kind stored under `key`, or false when
    /// unset.
    pub fn flag_or_default(&self, key: u64) -> (r: bool)
        ensures
            r == sp_flag(self@, key),
    {
        match self.get(key) {
            Some(Style::Blink(v)) => v.0,
            Some(Style::Bold(v)) => v.0,
            Some(Style::FillInvert(v)) => v.0,
            Some(Style::Header(v)) => v.0,
            Some(Style::Italic(v)) => v.0,
            Some(Style::Separator(v)) => v.0,
            Some(Style::Strikethrough(v)) => v.0,
            Some(Style::TextInvert(v)) => v.0,
            Some(Style::Underline(v)) => v.0,
            _ => false,
        }
    }

    /// The colour of the colour-valued style kind stored under `key`, if set.
    pub fn colour(&self, key: u64) -> (r: Option<Palette16>)
        ensures
            r == sp_colour(self@, key),
    {
        match self.get(key) {
            Some(Style::BorderBg(c)) => Some(c.0),
            Some(Style::BorderFg(c)) => Some(c.0),
            Some(Style::FillBg(c)) => Some(c.0),
            Some(Style::TextBg(c)) => Some(c.0),
            Some(Style::TextFg(c)) => Some(c.0),
            _ => None,
        }
    }
}

/// In a blend of two style sets the source wins on key collisions: a style
/// present in `src` resolves to its `src` value, and a style absent from
/// `src` resolves to its `dst` value.
pub proof fn lemma_blend_override(dst: Map<u64, Style>, src: Map<u64, Style>, k: u64)
    ensures
        src.contains_key(k) ==> dst.union_prefer_right(src).contains_key(k)
            && dst.union_prefer_right(src)[k] == src[k],
        !src.contains_key(k) && dst.contains_key(k) ==> dst.union_prefer_right(src).contains_key(k)
            && dst.union_prefer_right(src)[k] == dst[k],
        !src.contains_key(k) && !dst.contains_key(k) ==> !dst.union_prefer_right(
            src,
        ).contains_key(k),
{
}

} // verus!
