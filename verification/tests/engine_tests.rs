use sai_core::cell::{Cell, CellNum};
use sai_core::engine::{
    EngineOutcome, RunError, build_engine_payload, decode_engine_output, engine_argument,
    interpret_outcome, parse_result_table,
};
use sai_core::json::JsonValue;
use sai_core::options::{AnalysisOptions, column_order, parse_analysis_options};
use sai_core::project::{build_numeric_dataset, NumericDataset, Column};
use sai_core::table::{ParsedTable, TableError, create_parsed_table, result_cell};

fn text(s: &str) -> Cell {
    Cell::Text(s.to_string())
}

fn num(s: &str) -> Cell {
    Cell::Number(CellNum::Finite(s.to_string()))
}

fn small_dataset() -> NumericDataset {
    NumericDataset {
        cols: vec![Column {
            name: "x".to_string(),
            values: vec![
                Some(CellNum::Finite("1.0".to_string())),
                Some(CellNum::Finite("2.0".to_string())),
                None,
            ],
        }],
    }
}

#[test]
fn options_correlation_shape() {
    let raw = r#"{"methods":["pearson","spearman"],"alt":"two.sided","use":"pairwise"}"#;
    let o = parse_analysis_options(raw);
    assert_eq!(
        o,
        AnalysisOptions::Correlation {
            methods: vec!["pearson".to_string(), "spearman".to_string()],
            alt: "two.sided".to_string(),
            use_policy: "pairwise".to_string(),
            columns: vec![],
        }
    );
}

#[test]
fn options_descriptive_shape_with_columns() {
    let raw = r#"{"order":"desc","columns":["b","a"]}"#;
    let o = parse_analysis_options(raw);
    assert_eq!(
        o,
        AnalysisOptions::Descriptive {
            order: "desc".to_string(),
            columns: vec!["b".to_string(), "a".to_string()],
        }
    );
}

#[test]
fn options_fallback_keeps_raw_text() {
    assert_eq!(
        parse_analysis_options("not json at all"),
        AnalysisOptions::Opaque { raw: "not json at all".to_string() }
    );
    assert_eq!(
        parse_analysis_options(r#"{"foo":1}"#),
        AnalysisOptions::Opaque { raw: r#"{"foo":1}"#.to_string() }
    );
    // a mistyped field refuses the typed shapes
    assert_eq!(
        parse_analysis_options(r#"{"order":5}"#),
        AnalysisOptions::Opaque { raw: r#"{"order":5}"#.to_string() }
    );
}

#[test]
fn options_parse_unescapes_strings() {
    let raw = "{\"order\":\"a\\\"b\"}";
    let o = parse_analysis_options(raw);
    assert_eq!(
        o,
        AnalysisOptions::Descriptive { order: "a\"b".to_string(), columns: vec![] }
    );
}

#[test]
fn column_order_prefers_explicit_columns() {
    let ds = small_dataset();
    let o = AnalysisOptions::Descriptive {
        order: "desc".to_string(),
        columns: vec!["b".to_string(), "a".to_string()],
    };
    assert_eq!(column_order(&ds, &o), vec!["b".to_string(), "a".to_string()]);
    let o2 = AnalysisOptions::Opaque { raw: "".to_string() };
    assert_eq!(column_order(&ds, &o2), vec!["x".to_string()]);
}

#[test]
fn engine_argument_by_variant() {
    let corr = AnalysisOptions::Correlation {
        methods: vec!["pearson".to_string()],
        alt: "less".to_string(),
        use_policy: "all".to_string(),
        columns: vec![],
    };
    assert_eq!(
        engine_argument(&corr),
        Some(r#"{"methods":["pearson"],"alt":"less","use":"all"}"#.to_string())
    );
    let desc = AnalysisOptions::Descriptive { order: "desc".to_string(), columns: vec![] };
    assert_eq!(engine_argument(&desc), Some("desc".to_string()));
    let blank = AnalysisOptions::Descriptive { order: "   ".to_string(), columns: vec![] };
    assert_eq!(engine_argument(&blank), None);
    let opaque = AnalysisOptions::Opaque { raw: "whatever".to_string() };
    assert_eq!(engine_argument(&opaque), Some("whatever".to_string()));
    let empty = AnalysisOptions::Opaque { raw: "".to_string() };
    assert_eq!(engine_argument(&empty), None);
}

#[test]
fn payload_text_is_exact() {
    let ds = small_dataset();
    let order = vec!["x".to_string()];
    assert_eq!(
        build_engine_payload(&ds, &order),
        r#"{"__order":["x"],"__data":{"x":[1.0,2.0,null]}}"#
    );
}

#[test]
fn payload_escapes_names() {
    let ds = NumericDataset {
        cols: vec![Column {
            name: "a\"b".to_string(),
            values: vec![Some(CellNum::Nan)],
        }],
    };
    let order = vec!["a\"b".to_string()];
    assert_eq!(
        build_engine_payload(&ds, &order),
        "{\"__order\":[\"a\\\"b\"],\"__data\":{\"a\\\"b\":[null]}}"
    );
}

#[test]
fn timeout_kills_and_reports_timeout() {
    let r = interpret_outcome(EngineOutcome::TimedOut, 1500);
    assert_eq!(r, Err(RunError::Timeout { timeout_ms: 1500 }));
}

#[test]
fn nonzero_exit_carries_code_and_trimmed_stderr() {
    let outcome = EngineOutcome::Exited {
        success: false,
        code: Some(2),
        stderr: "  boom \n".to_string(),
    };
    let r = interpret_outcome(outcome, 1000);
    assert_eq!(r, Err(RunError::EngineFailed { code: Some(2), stderr: "boom".to_string() }));
}

#[test]
fn clean_exit_reads_output() {
    let outcome = EngineOutcome::Exited { success: true, code: Some(0), stderr: String::new() };
    assert_eq!(interpret_outcome(outcome, 1000), Ok(()));
}

#[test]
fn output_decodes_to_table() {
    let t = decode_engine_output(r#"{"headers":["a","b"],"rows":[[1.5,"s"],[null,true]]}"#)
        .unwrap();
    assert_eq!(t.headers, vec!["a".to_string(), "b".to_string()]);
    assert_eq!(
        t.rows,
        vec![
            vec![JsonValue::Number("1.5".to_string()), JsonValue::Text("s".to_string())],
            vec![JsonValue::Null, JsonValue::Bool(true)],
        ]
    );
}

#[test]
fn output_width_mismatch_is_a_validation_error() {
    let r = decode_engine_output(r#"{"headers":["a"],"rows":[[1,2]]}"#);
    assert_eq!(
        r,
        Err(RunError::InvalidTable {
            violation: TableError::RowWidth { row: 0, len: 2, expected: 1 },
        })
    );
}

#[test]
fn output_nested_cell_is_a_validation_error() {
    let r = decode_engine_output(r#"{"headers":["a"],"rows":[[[1]]]}"#);
    assert_eq!(
        r,
        Err(RunError::InvalidTable { violation: TableError::CellType { row: 0, col: 0 } })
    );
}

#[test]
fn unparsable_output_keeps_raw_text() {
    match decode_engine_output("{ nope") {
        Err(RunError::OutputParse { raw, .. }) => assert_eq!(raw, "{ nope"),
        other => panic!("expected a parse error, got {:?}", other),
    }
    match parse_result_table("[1,2]") {
        Err(RunError::OutputParse { raw, .. }) => assert_eq!(raw, "[1,2]"),
        other => panic!("expected a parse error, got {:?}", other),
    }
}

#[test]
fn sheet_rows_become_a_table() {
    let rows = vec![
        vec![text("name"), text("score")],
        vec![text("ada"), num("9.5")],
        vec![text("   "), Cell::Boolean(false)],
    ];
    let t = create_parsed_table(&rows).unwrap();
    assert_eq!(t.headers, vec!["name".to_string(), "score".to_string()]);
    assert_eq!(
        t.rows,
        vec![
            vec![JsonValue::Text("ada".to_string()), JsonValue::Number("9.5".to_string())],
            vec![JsonValue::Null, JsonValue::Bool(false)],
        ]
    );
    assert_eq!(t.validate(), Ok(()));
}

#[test]
fn empty_sheet_becomes_empty_table() {
    let t = create_parsed_table(&vec![]).unwrap();
    assert_eq!(t.headers.len(), 0);
    assert_eq!(t.rows.len(), 0);
}

#[test]
fn result_cell_maps_markers() {
    assert_eq!(result_cell(&Cell::Number(CellNum::Nan)), JsonValue::Text("NaN!".to_string()));
    assert_eq!(result_cell(&Cell::Number(CellNum::MinusInf)), JsonValue::Text("-Inf!".to_string()));
    assert_eq!(result_cell(&Cell::Absent), JsonValue::Null);
    assert_eq!(
        result_cell(&Cell::ErrorMark("#N/A".to_string())),
        JsonValue::Text("#N/A".to_string())
    );
}

#[test]
fn table_validation_rejects_bad_rows_exactly() {
    let t = ParsedTable {
        headers: vec!["a".to_string(), "b".to_string()],
        rows: vec![
            vec![JsonValue::Null, JsonValue::Bool(true)],
            vec![JsonValue::Null],
        ],
    };
    assert_eq!(t.validate(), Err(TableError::RowWidth { row: 1, len: 1, expected: 2 }));
    let t2 = ParsedTable {
        headers: vec!["a".to_string()],
        rows: vec![vec![JsonValue::Array(vec![])]],
    };
    assert_eq!(t2.validate(), Err(TableError::CellType { row: 0, col: 0 }));
}

#[test]
fn projection_feeds_the_payload_end_to_end() {
    let rows = vec![
        vec![text("x"), text("y")],
        vec![num("1.0"), Cell::Absent],
        vec![num("2.0"), Cell::Absent],
        vec![Cell::Absent, Cell::Absent],
    ];
    let ds = build_numeric_dataset(&rows, &vec!["x".to_string(), "y".to_string()]).unwrap();
    let opts = parse_analysis_options("");
    let order = column_order(&ds, &opts);
    let payload = build_engine_payload(&ds, &order);
    assert_eq!(payload, r#"{"__order":["x"],"__data":{"x":[1.0,2.0,null]}}"#);
}
