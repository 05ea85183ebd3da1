use mini_cluster_worker::err::ErrKind;
use mini_cluster_worker::render::{render_result, Cell, CellProbe};

fn integer(v: i64) -> CellProbe {
    CellProbe { integer: Some(v), text: None }
}

fn text(t: &str) -> CellProbe {
    CellProbe { integer: None, text: Some(t.to_owned()) }
}

#[test]
fn a_result_without_rows_shows_nothing() {
    assert_eq!(render_result(&vec!["a".to_owned()], &vec![]), Ok(None));
    assert_eq!(render_result(&vec![], &vec![]), Ok(None));
}

#[test]
fn a_table_has_a_header_line_and_a_line_per_row() {
    let columns = vec!["a".to_owned(), "b".to_owned()];
    let rows = vec![vec![integer(1), text("hello")], vec![integer(-20), text("")]];
    assert_eq!(
        render_result(&columns, &rows),
        Ok(Some("|a|b|\n|1|hello|\n|-20||".to_owned()))
    );
}

#[test]
fn a_single_cell_table() {
    let columns = vec!["1 + 1".to_owned()];
    let rows = vec![vec![integer(2)]];
    assert_eq!(render_result(&columns, &rows), Ok(Some("|1 + 1|\n|2|".to_owned())));
}

#[test]
fn rows_without_cells_are_bare_bars() {
    assert_eq!(render_result(&vec![], &vec![vec![], vec![]]), Ok(Some("|\n|\n|".to_owned())));
}

#[test]
fn the_integer_reading_wins_over_the_text_reading() {
    let both = CellProbe { integer: Some(7), text: Some("seven".to_owned()) };
    assert_eq!(both.decode(), Ok(Cell::Integer(7)));
    assert_eq!(text("7").decode(), Ok(Cell::Text("7".to_owned())));
    assert_eq!(integer(7).decode(), Ok(Cell::Integer(7)));
    assert_eq!(Cell::Integer(i64::MIN).text(), "-9223372036854775808");
    assert_eq!(Cell::Integer(i64::MAX).text(), "9223372036854775807");
    assert_eq!(Cell::Text("x|y".to_owned()).text(), "x|y");
    let rows = vec![vec![CellProbe { integer: Some(7), text: Some("seven".to_owned()) }]];
    assert_eq!(render_result(&vec!["n".to_owned()], &rows), Ok(Some("|n|\n|7|".to_owned())));
}

#[test]
fn a_cell_that_reads_as_nothing_is_a_database_error() {
    let nothing = CellProbe { integer: None, text: None };
    let error = nothing.decode().unwrap_err();
    assert_eq!(error.kind(), ErrKind::DatabaseError);
    assert_eq!(error.message(), "Result set has output type not understood by the worker.");
    let rows = vec![
        vec![integer(1), text("a")],
        vec![integer(2), CellProbe { integer: None, text: None }],
    ];
    let error = render_result(&vec!["a".to_owned(), "b".to_owned()], &rows).unwrap_err();
    assert_eq!(error.kind(), ErrKind::DatabaseError);
    assert_eq!(error.message(), "Result set has output type not understood by the worker.");
}
