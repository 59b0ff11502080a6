//! The layout of the report table.

use cargo_crappy::report::{name_width, shown_count, ReportRow};

fn row(file: &str, line: u32, name: &str) -> ReportRow {
    ReportRow {
        file: file.to_string(),
        start_line: line,
        name: name.to_string(),
    }
}

#[test]
fn top_limits_the_rows_shown() {
    assert_eq!(shown_count(Some(2), 3), 2);
    assert_eq!(shown_count(Some(5), 3), 3);
    assert_eq!(shown_count(None, 3), 3);
    assert_eq!(shown_count(Some(0), 3), 0);
}

#[test]
fn function_column_fits_the_widest_label() {
    let rows = vec![row("src/lib.rs", 1, "add"), row("src/main.rs", 120, "run")];
    assert_eq!(name_width(&rows), "src/main.rs:120 run".len());
    assert_eq!(name_width(&vec![row("a", 1, "f")]), 8);
    assert_eq!(name_width(&Vec::new()), 20);
    assert_eq!(name_width(&vec![row("é.rs", 7, "ß")]), "é.rs:7 ß".len());
}
