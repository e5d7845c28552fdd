use stanza::style::{
    Assignability, Bold, MaxWidth, MinWidth, Style, Styles, KEY_BOLD, KEY_MAX_WIDTH,
    KEY_MIN_WIDTH,
};

#[test]
fn assignability() {
    assert!(!Assignability::TableOnly.at_col());
    assert!(!Assignability::TableOnly.at_row());
    assert!(!Assignability::TableOnly.at_cell());

    assert!(Assignability::ColTable.at_col());
    assert!(!Assignability::ColTable.at_row());
    assert!(!Assignability::ColTable.at_cell());

    assert!(!Assignability::RowTable.at_col());
    assert!(Assignability::RowTable.at_row());
    assert!(!Assignability::RowTable.at_cell());

    assert!(Assignability::RowColTable.at_col());
    assert!(Assignability::RowColTable.at_row());
    assert!(!Assignability::RowColTable.at_cell());

    assert!(Assignability::CellRowColTable.at_col());
    assert!(Assignability::CellRowColTable.at_row());
    assert!(Assignability::CellRowColTable.at_cell());
}

#[test]
fn styles_insert_get_take() {
    let mut styles = Styles::default();
    assert!(styles.get(KEY_BOLD).is_none());
    assert!(styles.insert(Style::Bold(Bold(true))).is_none());
    assert!(matches!(styles.get(KEY_BOLD), Some(Style::Bold(Bold(true)))));

    // a later insert of the same kind replaces the earlier value
    let prev = styles.insert(Style::Bold(Bold(false)));
    assert!(matches!(prev, Some(Style::Bold(Bold(true)))));
    assert!(matches!(styles.get(KEY_BOLD), Some(Style::Bold(Bold(false)))));

    // distinct kinds live side by side
    styles.insert(Style::MinWidth(MinWidth(5)));
    styles.insert(Style::MaxWidth(MaxWidth(10)));
    assert!(matches!(styles.get(KEY_MIN_WIDTH), Some(Style::MinWidth(MinWidth(5)))));
    assert!(matches!(styles.get(KEY_MAX_WIDTH), Some(Style::MaxWidth(MaxWidth(10)))));

    let taken = styles.take(KEY_BOLD);
    assert!(matches!(taken, Some(Style::Bold(Bold(false)))));
    assert!(styles.get(KEY_BOLD).is_none());
}

#[test]
fn styles_merge_prefers_source() {
    let base = Styles::default().with(Style::Bold(Bold(false))).with(Style::MinWidth(MinWidth(1)));
    let over = Styles::default().with(Style::Bold(Bold(true)));
    let merged = base.with_all(&over);
    assert!(matches!(merged.get(KEY_BOLD), Some(Style::Bold(Bold(true)))));
    assert!(matches!(merged.get(KEY_MIN_WIDTH), Some(Style::MinWidth(MinWidth(1)))));
}
