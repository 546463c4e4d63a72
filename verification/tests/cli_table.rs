use netom::cli::table::{left, right, Col, Table};

fn cols() -> Vec<Col> {
    vec![left("Name", 8), right("Count", 6)]
}

fn cells(texts: &[&str]) -> Vec<String> {
    texts.iter().map(|t| t.to_string()).collect()
}

fn render(rows: &[&[&str]]) -> String {
    let cols = cols();
    let mut table = Table::fit(&cols);
    for row in rows {
        table.row(cells(row));
    }
    table.finish()
}

#[test]
fn fit_mode_aligns_columns() {
    let out = render(&[&["alpha", "1"], &["b", "22"]]);
    assert_eq!(
        out,
        "Name      Count\n\
         alpha         1\n\
         b            22\n",
    );
}

#[test]
fn fit_mode_widens_to_the_longest_cell() {
    let out = render(&[&["a-very-long-name", "1"]]);
    let lines: Vec<&str> = out.lines().collect();
    assert!(lines[0].starts_with("Name"));
    assert!(lines[1].starts_with("a-very-long-name"));
    assert_eq!(
        lines[0].chars().count(),
        lines[1].chars().count(),
        "right-aligned column not flush:\n{out}",
    );
}

#[test]
fn no_trailing_whitespace_is_emitted() {
    let out = render(&[&["a", "1"]]);
    for line in out.lines() {
        assert_eq!(line, line.trim_end(), "trailing space in {line:?}");
    }
}

#[test]
fn an_empty_table_still_prints_its_header() {
    let out = render(&[]);
    assert_eq!(out, "Name      Count\n");
}

#[test]
fn fixed_mode_streams_the_header_before_the_first_row() {
    let cols = cols();
    let mut t = Table::fixed(&cols);
    t.row(cells(&["a", "1"]));
    let out = t.finish();
    assert!(out.starts_with("Name"));
    assert!(out.contains("\na"));
}

#[test]
fn fixed_mode_lets_an_oversized_cell_shift_its_row() {
    let cols = cols();
    let mut t = Table::fixed(&cols);
    t.row(cells(&["this-name-is-far-too-long", "7"]));
    let out = t.finish();
    assert!(out.contains("this-name-is-far-too-long"));
    assert!(out.trim_end().ends_with('7'));
}

#[test]
fn rows_of_a_fixed_table_can_be_taken_early() {
    let cols = cols();
    let mut t = Table::fixed(&cols);
    t.row(cells(&["a", "1"]));
    assert_eq!(t.take_output(), "Name      Count\na             1\n");
    t.note("note");
    t.row(cells(&["b", "2"]));
    assert_eq!(t.finish(), "note\nb             2\n");
}

#[test]
fn every_row_of_a_fixed_table_is_a_line() {
    let cols = cols();
    let mut t = Table::fixed(&cols);
    t.row(cells(&["this-name-is-far-too-long", "7"]));
    t.row(cells(&["b", ""]));
    t.row(cells(&["c"]));
    let out = t.take_output();
    let lines: Vec<&str> = out.lines().collect();
    assert_eq!(lines, ["Name      Count", "this-name-is-far-too-long      7", "b", "c"]);
}

#[test]
fn a_title_loses_only_the_white_space_at_its_end() {
    let cols = [left("Name", 2), left("Last  ", 2)];
    let mut t = Table::fixed(&cols);
    t.row(cells(&["a", "b"]));
    assert_eq!(t.take_output(), "Name Last\na  b\n");
}
