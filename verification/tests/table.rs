use stanza::renderer::RendererKind;
use stanza::style::{
    Bold, BorderFg, Header, MaxWidth, MinWidth, Palette16, Style, Styles, KEY_BOLD,
};
use stanza::table::{Cell, Col, Content, Row, Table};

#[test]
fn cell_style_assignability_allows() {
    Cell::new(
        Styles::default().with(Style::Bold(Bold(true))),
        Content::Label("".to_string()),
    );
}

#[test]
fn cell_style_assignability_rejects() {
    let err = Cell::try_new(
        Styles::default().with(Style::Header(Header(true))),
        Content::Label("".to_string()),
    )
    .err()
    .expect("a header flag cannot be attached to a cell");
    assert!(matches!(err.style, Style::Header(Header(true))));
}

#[test]
fn row_style_assignability_allows() {
    Row::new(Styles::default().with(Style::Header(Header(true))), vec![]);
}

#[test]
fn row_style_assignability_rejects() {
    let err = Row::try_new(
        Styles::default().with(Style::BorderFg(BorderFg(Palette16::Blue))),
        vec![],
    )
    .err()
    .expect("a border colour cannot be attached to a row");
    assert!(matches!(err.style, Style::BorderFg(BorderFg(Palette16::Blue))));
}

#[test]
fn col_style_assignability_allows() {
    Col::new(Styles::default().with(Style::Header(Header(true))));
}

#[test]
fn col_style_assignability_rejects() {
    let err = Col::try_new(Styles::default().with(Style::BorderFg(BorderFg(Palette16::Blue))))
        .err()
        .expect("a border colour cannot be attached to a column");
    assert!(matches!(err.style, Style::BorderFg(BorderFg(Palette16::Blue))));
}

#[test]
fn blended_styles_cell_overrides_table() {
    let table = Table::new(
        Styles::default().with(Style::Bold(Bold(false))),
        vec![Col::new(Styles::default())],
        vec![Row::new(
            Styles::default(),
            vec![Cell::new(
                Styles::default().with(Style::Bold(Bold(true))),
                Content::Label("x".to_string()),
            )],
        )],
    );
    let blended = table.cell_blended_styles(0, 0);
    assert!(matches!(blended.get(KEY_BOLD), Some(Style::Bold(Bold(true)))));
    // away from the cell, the table-level value shows through
    let col_blended = table.col_blended_styles(0);
    assert!(matches!(col_blended.get(KEY_BOLD), Some(Style::Bold(Bold(false)))));
}

#[test]
fn col_width_clamps_between_min_and_max() {
    let table = Table::new(
        Styles::default(),
        vec![Col::new(
            Styles::default()
                .with(Style::MinWidth(MinWidth(5)))
                .with(Style::MaxWidth(MaxWidth(10))),
        )],
        vec![
            Row::new(Styles::default(), vec![Cell::new(
                Styles::default(),
                Content::Label("ab".to_string()),
            )]),
            Row::new(Styles::default(), vec![Cell::new(
                Styles::default(),
                Content::Label("abcdefghijkl".to_string()),
            )]),
        ],
    );
    assert_eq!(10, table.col_width(0, &RendererKind::Markdown));

    let narrow = Table::new(
        Styles::default(),
        vec![Col::new(
            Styles::default()
                .with(Style::MinWidth(MinWidth(5)))
                .with(Style::MaxWidth(MaxWidth(10))),
        )],
        vec![Row::new(Styles::default(), vec![Cell::new(
            Styles::default(),
            Content::Label("ab".to_string()),
        )])],
    );
    assert_eq!(5, narrow.col_width(0, &RendererKind::Markdown));
}

#[test]
fn push_row_extends_cols() {
    let mut table = Table::new(Styles::default(), vec![], vec![]);
    table.push_row(Row::new(
        Styles::default(),
        vec![
            Cell::new(Styles::default(), Content::Label("a".to_string())),
            Cell::new(Styles::default(), Content::Label("b".to_string())),
        ],
    ));
    assert_eq!(2, table.num_cols());
    assert_eq!(1, table.num_rows());
    assert!(!table.is_empty());
}
