use stanza::renderer::console::{Console, Decor};
use stanza::renderer::{RenderError, RenderHint};
use stanza::style::{Header, MaxWidth, Palette16, Style, Styles, TextFg};
use stanza::table::{Cell, Col, Content, FixedText, Row, Table};

fn label(s: &str) -> Cell {
    Cell::new(Styles::default(), Content::Label(s.to_string()))
}

fn plain_row(cells: Vec<Cell>) -> Row {
    Row::new(Styles::default(), cells)
}

fn bare() -> Console {
    Console(Decor::default().suppress_escape_codes())
}

#[test]
fn render_single_cell() {
    let table = Table::new(
        Styles::default(),
        vec![Col::new(Styles::default())],
        vec![plain_row(vec![label("hi")])],
    );
    let out = bare().render(&table).unwrap();
    assert_eq!("╔══╗\n║hi║\n╚══╝", out);
}

#[test]
fn render_empty_table_fails() {
    let no_rows = Table::new(Styles::default(), vec![Col::new(Styles::default())], vec![]);
    assert_eq!(Err(RenderError::Empty), bare().render(&no_rows));

    let no_cols = Table::new(Styles::default(), vec![], vec![]);
    assert_eq!(Err(RenderError::Empty), bare().render(&no_cols));
}

#[test]
fn render_three_line_cell_is_five_lines_tall() {
    // one row, one column, content wrapped over three lines
    let table = Table::new(
        Styles::default(),
        vec![Col::new(Styles::default().with(Style::MaxWidth(MaxWidth(2))))],
        vec![plain_row(vec![label("aa bb cc")])],
    );
    let out = bare().render(&table).unwrap();
    assert_eq!(5, out.lines().count());
    assert_eq!("╔══╗\n║aa║\n║bb║\n║cc║\n╚══╝", out);
}

#[test]
fn render_two_by_two_with_inner_rules() {
    let table = Table::new(
        Styles::default(),
        vec![Col::new(Styles::default()), Col::new(Styles::default())],
        vec![
            plain_row(vec![label("a"), label("b")]),
            plain_row(vec![label("c"), label("d")]),
        ],
    );
    let out = bare().render(&table).unwrap();
    assert_eq!("╔═╤═╗\n║a│b║\n╟─┼─╢\n║c│d║\n╚═╧═╝", out);
}

#[test]
fn header_row_thickens_both_boundaries() {
    // a header row makes its bottom boundary bold; with the default glyph
    // set the rule below the header is drawn with double-line glyphs
    let table = Table::new(
        Styles::default(),
        vec![Col::new(Styles::default()), Col::new(Styles::default())],
        vec![
            Row::new(Styles::default().with(Style::Header(Header(true))), vec![
                label("a"),
                label("b"),
            ]),
            plain_row(vec![label("c"), label("d")]),
            plain_row(vec![label("e"), label("f")]),
        ],
    );
    let out = bare().render(&table).unwrap();
    let lines: Vec<&str> = out.lines().collect();
    assert_eq!("╠═╪═╣", lines[2]);
    assert_eq!("╟─┼─╢", lines[4]);
}

#[test]
fn suppressed_borders() {
    let table = Table::new(
        Styles::default(),
        vec![Col::new(Styles::default())],
        vec![plain_row(vec![label("x")]), plain_row(vec![label("y")])],
    );
    let console = Console(
        Decor::default()
            .suppress_escape_codes()
            .suppress_outer_border()
            .suppress_inner_horizontal_border(),
    );
    assert_eq!("x\ny\n", console.render(&table).unwrap());
}

#[test]
fn suppressed_lines_are_blanks() {
    let table = Table::new(
        Styles::default(),
        vec![Col::new(Styles::default())],
        vec![plain_row(vec![label("x")])],
    );
    let console = Console(Decor::default().suppress_escape_codes().suppress_all_lines());
    assert_eq!("   \n x \n   ", console.render(&table).unwrap());
}

#[test]
fn text_colour_escapes() {
    let table = Table::new(
        Styles::default(),
        vec![Col::new(Styles::default())],
        vec![plain_row(vec![Cell::new(
            Styles::default().with(Style::TextFg(TextFg(Palette16::Red))),
            Content::Label("hi".to_string()),
        )])],
    );
    let out = Console(Decor::default()).render(&table).unwrap();
    assert_eq!("╔══╗\n║\x1b[0m\x1b[31mhi\x1b[0m║\n╚══╝", out);
}

#[test]
fn nested_pass_suppresses_escapes() {
    let table = Table::new(
        Styles::default(),
        vec![Col::new(Styles::default())],
        vec![plain_row(vec![Cell::new(
            Styles::default().with(Style::TextFg(TextFg(Palette16::Red))),
            Content::Label("hi".to_string()),
        )])],
    );
    let out = Console(Decor::default())
        .render_with_hints(&table, &[RenderHint::Nested])
        .unwrap();
    assert_eq!("╔══╗\n║hi║\n╚══╝", out);
}

#[test]
fn composite_content_concatenates() {
    let table = Table::new(
        Styles::default(),
        vec![Col::new(Styles::default())],
        vec![plain_row(vec![Cell::new(
            Styles::default(),
            Content::Composite(vec![
                Content::Label("ab".to_string()),
                Content::Label("cd".to_string()),
            ]),
        )])],
    );
    let out = bare().render(&table).unwrap();
    assert_eq!("╔════╗\n║abcd║\n╚════╝", out);
}

#[test]
fn computed_content_is_produced_at_render_time() {
    let table = Table::new(
        Styles::default(),
        vec![Col::new(Styles::default())],
        vec![plain_row(vec![Cell::new(
            Styles::default(),
            Content::Computed(Box::new(FixedText::new("now".to_string()))),
        )])],
    );
    let out = bare().render(&table).unwrap();
    assert_eq!("╔═══╗\n║now║\n╚═══╝", out);
}

#[test]
fn nested_table_renders_inside_cell() {
    let inner = Table::new(
        Styles::default(),
        vec![Col::new(Styles::default())],
        vec![plain_row(vec![label("x")])],
    );
    let outer = Table::new(
        Styles::default(),
        vec![Col::new(Styles::default())],
        vec![plain_row(vec![Cell::new(Styles::default(), Content::Nested(inner))])],
    );
    let out = bare().render(&outer).unwrap();
    assert_eq!("╔═══╗\n║╔═╗║\n║║x║║\n║╚═╝║\n╚═══╝", out);
}

#[test]
fn separator_row_leaves_a_gap() {
    let table = Table::new(
        Styles::default(),
        vec![Col::new(Styles::default())],
        vec![plain_row(vec![label("x")]), Row::separator(), plain_row(vec![label("y")])],
    );
    let out = bare().render(&table).unwrap();
    let lines: Vec<&str> = out.lines().collect();
    assert_eq!("║x║", lines[1]);
    assert_eq!("║ ║", lines[3]);
}

#[test]
fn separator_col_gaps_the_rule_between_rows() {
    let table = Table::new(
        Styles::default(),
        vec![Col::separator(), Col::new(Styles::default())],
        vec![
            plain_row(vec![label(" "), label("a")]),
            plain_row(vec![label(" "), label("b")]),
        ],
    );
    let out = bare().render(&table).unwrap();
    let lines: Vec<&str> = out.lines().collect();
    // the rule between the rows leaves a gap through the separator column
    assert_eq!("║ ├─╢", lines[2]);
}
