use sai_core::cell::{Cell, CellNum};
use sai_core::project::{
    ProjectError, build_numeric_dataset, compute_headers_from_first_row, header_for_cell,
    placeholder_name,
};

fn text(s: &str) -> Cell {
    Cell::Text(s.to_string())
}

fn num(s: &str) -> Cell {
    Cell::Number(CellNum::Finite(s.to_string()))
}

#[test]
fn placeholder_is_one_based() {
    assert_eq!(placeholder_name(0), "COLUMN_1");
    assert_eq!(placeholder_name(9), "COLUMN_10");
}

#[test]
fn header_of_each_cell_kind() {
    assert_eq!(header_for_cell(&Cell::Absent, 2), "COLUMN_3");
    assert_eq!(header_for_cell(&Cell::Boolean(true), 0), "TRUE/FALSE");
    assert_eq!(header_for_cell(&Cell::Boolean(false), 0), "TRUE/FALSE");
    assert_eq!(header_for_cell(&num("3.5"), 0), "3.5");
    assert_eq!(header_for_cell(&Cell::Number(CellNum::Nan), 0), "NaN!");
    assert_eq!(header_for_cell(&Cell::Number(CellNum::PlusInf), 0), "Inf!");
    assert_eq!(header_for_cell(&Cell::Number(CellNum::MinusInf), 0), "-Inf!");
    assert_eq!(header_for_cell(&text("  age  "), 0), "age");
    assert_eq!(header_for_cell(&text("   "), 4), "COLUMN_5");
    assert_eq!(header_for_cell(&Cell::ErrorMark("#DIV/0!".to_string()), 1), "COLUMN_2");
}

#[test]
fn headers_computed_in_order() {
    let row = vec![text("a"), text("b"), Cell::Absent];
    let hs = compute_headers_from_first_row(&row).unwrap();
    assert_eq!(hs, vec!["a".to_string(), "b".to_string(), "COLUMN_3".to_string()]);
}

#[test]
fn duplicate_headers_listed_once_each() {
    let row = vec![text("A"), text("B"), text("B"), text("A"), text("B")];
    match compute_headers_from_first_row(&row) {
        Err(ProjectError::DuplicateHeaders(d)) => {
            assert_eq!(d, vec!["B".to_string(), "A".to_string()]);
        },
        other => panic!("expected duplicate headers, got {:?}", other),
    }
}

#[test]
fn trimmed_headers_can_collide() {
    let row = vec![text("x"), text(" x ")];
    match compute_headers_from_first_row(&row) {
        Err(ProjectError::DuplicateHeaders(d)) => assert_eq!(d, vec!["x".to_string()]),
        other => panic!("expected duplicate headers, got {:?}", other),
    }
}

#[test]
fn empty_selection_refused() {
    let rows = vec![vec![text("a")]];
    let r = build_numeric_dataset(&rows, &vec![]);
    assert_eq!(r.unwrap_err(), ProjectError::NoVariables);
}

#[test]
fn empty_sheet_refused() {
    let r = build_numeric_dataset(&vec![], &vec!["a".to_string()]);
    assert_eq!(r.unwrap_err(), ProjectError::NoRows);
}

#[test]
fn first_missing_variable_named() {
    let rows = vec![vec![text("a"), text("b")], vec![num("1"), num("2")]];
    let wanted = vec!["a".to_string(), "q".to_string(), "z".to_string()];
    match build_numeric_dataset(&rows, &wanted) {
        Err(ProjectError::MissingVariable(v)) => assert_eq!(v, "q"),
        other => panic!("expected a missing variable, got {:?}", other),
    }
}

#[test]
fn extraction_order_follows_headers_not_request() {
    let rows = vec![
        vec![text("A"), text("B"), text("C")],
        vec![num("1"), num("2"), num("3")],
    ];
    let wanted = vec!["C".to_string(), "A".to_string()];
    let ds = build_numeric_dataset(&rows, &wanted).unwrap();
    let names: Vec<String> = ds.cols.iter().map(|c| c.name.clone()).collect();
    assert_eq!(names, vec!["A".to_string(), "C".to_string()]);
}

#[test]
fn text_cells_parse_as_numbers_or_fall_out() {
    let rows = vec![
        vec![text("v")],
        vec![text(" 42 ")],
        vec![text("abc")],
        vec![num("7")],
        vec![Cell::Boolean(true)],
    ];
    let ds = build_numeric_dataset(&rows, &vec!["v".to_string()]).unwrap();
    assert_eq!(ds.cols.len(), 1);
    assert_eq!(
        ds.cols[0].values,
        vec![Some(CellNum::Finite("42".to_string())), None, Some(CellNum::Finite("7".to_string())), None]
    );
}

#[test]
fn parsed_text_numbers_are_canonical() {
    let rows = vec![vec![text("v")], vec![text("4.50")], vec![text("1e2")]];
    let ds = build_numeric_dataset(&rows, &vec!["v".to_string()]).unwrap();
    assert_eq!(
        ds.cols[0].values,
        vec![
            Some(CellNum::Finite("4.5".to_string())),
            Some(CellNum::Finite("100.0".to_string()))
        ]
    );
}

#[test]
fn all_missing_column_dropped_before_dispatch() {
    let rows = vec![
        vec![text("x"), text("y")],
        vec![num("1.0"), Cell::Absent],
        vec![num("2.0"), Cell::Absent],
        vec![Cell::Absent, Cell::Absent],
    ];
    let wanted = vec!["x".to_string(), "y".to_string()];
    let ds = build_numeric_dataset(&rows, &wanted).unwrap();
    let names: Vec<String> = ds.cols.iter().map(|c| c.name.clone()).collect();
    assert_eq!(names, vec!["x".to_string()]);
    assert_eq!(
        ds.cols[0].values,
        vec![
            Some(CellNum::Finite("1.0".to_string())),
            Some(CellNum::Finite("2.0".to_string())),
            None
        ]
    );
}

#[test]
fn entirely_non_numeric_selection_fails() {
    let rows = vec![
        vec![text("x"), text("y")],
        vec![Cell::Absent, text("word")],
        vec![Cell::Absent, text("more")],
    ];
    let wanted = vec!["x".to_string(), "y".to_string()];
    let r = build_numeric_dataset(&rows, &wanted);
    assert_eq!(r.unwrap_err(), ProjectError::NoNumericColumns);
}

#[test]
fn non_finite_numbers_pass_through_projection() {
    let rows = vec![
        vec![text("x")],
        vec![Cell::Number(CellNum::Nan)],
        vec![Cell::Number(CellNum::PlusInf)],
    ];
    let ds = build_numeric_dataset(&rows, &vec!["x".to_string()]).unwrap();
    assert_eq!(
        ds.cols[0].values,
        vec![Some(CellNum::Nan), Some(CellNum::PlusInf)]
    );
}
