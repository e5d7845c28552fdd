use stanza::renderer::markdown::Markdown;
use stanza::renderer::RenderError;
use stanza::style::{HAlign, Style, Styles};
use stanza::table::{Cell, Col, Content, Row, Table};

fn label(s: &str) -> Cell {
    Cell::new(Styles::default(), Content::Label(s.to_string()))
}

#[test]
fn renders_pipe_table() {
    let table = Table::new(
        Styles::default(),
        vec![Col::new(Styles::default()), Col::new(Styles::default())],
        vec![
            Row::new(Styles::default(), vec![label("Name"), label("Age")]),
            Row::new(Styles::default(), vec![label("Ada"), label("36")]),
        ],
    );
    let out = Markdown().render(&table).unwrap();
    assert_eq!("|Name|Age|\n|:---|:--|\n|Ada |36 |\n", out);
}

#[test]
fn alignment_format_row() {
    let table = Table::new(
        Styles::default(),
        vec![
            Col::new(Styles::default().with(Style::HAlign(HAlign::Right))),
            Col::new(Styles::default().with(Style::HAlign(HAlign::Centred))),
        ],
        vec![Row::new(Styles::default(), vec![label("abcd"), label("efgh")])],
    );
    let out = Markdown().render(&table).unwrap();
    assert_eq!("|abcd|efgh|\n|---:|:--:|\n", out);
}

#[test]
fn empty_table_fails() {
    let empty = Table::new(Styles::default(), vec![], vec![]);
    assert_eq!(Err(RenderError::Empty), Markdown().render(&empty));
}

#[test]
fn wrapped_cell_spans_rows() {
    let table = Table::new(
        Styles::default(),
        vec![
            Col::new(Styles::default().with(Style::MaxWidth(stanza::style::MaxWidth(3)))),
            Col::new(Styles::default()),
        ],
        vec![
            Row::new(Styles::default(), vec![label("one two"), label("x")]),
            Row::new(Styles::default(), vec![label("y"), label("z")]),
        ],
    );
    let out = Markdown().render(&table).unwrap();
    assert_eq!("|one|x|\n|two| |\n|:--|:-|\n|y  |z|\n", out);
}
