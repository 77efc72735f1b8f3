//! The result table: ordered headers and fixed-width rows of scalar JSON
//! cells. Tables come from two places — read straight off a sheet, or
//! decoded from the engine's output file — and both paths end in the same
//! structural validation.

use vstd::prelude::*;

use crate::cell::{Cell, CellNum};
use crate::json::JsonValue;
use crate::project::{
    ProjectError, compute_headers_from_first_row, dup_list, headers_text, names_view,
};
use crate::text::{chars_of, is_blank, trim_chars};

verus! {

/// A table of headers and fixed-width rows, as the engine returns it.
#[derive(Debug, PartialEq)]
pub struct ParsedTable {
    pub headers: Vec<String>,
    pub rows: Vec<Vec<JsonValue>>,
}

/// Why a table failed structural validation.
#[derive(Debug, PartialEq)]
pub enum TableError {
    /// The first row whose width differs from the header width.
    RowWidth { row: usize, len: usize, expected: usize },
    /// The first cell, row-major, that is not null, boolean, number or text.
    CellType { row: usize, col: usize },
}

/// A structurally sound row: header width, scalar cells only.
pub open spec fn row_ok(row: Seq<JsonValue>, width: int) -> bool {
    row.len() == width && (forall|j: int| 0 <= j < row.len() ==> (#[trigger] row[j]).is_scalar())
}

/// The structural invariant of a result table.
pub open spec fn table_valid(t: ParsedTable) -> bool {
    forall|i: int|
        0 <= i < t.rows@.len() ==> row_ok(#[trigger] t.rows@[i]@, t.headers@.len() as int)
}

/// Is this cell one of the shapes a valid table may hold?
pub fn is_scalar_cell(v: &JsonValue) -> (r: bool)
    ensures
        r == v.is_scalar(),
{
    match v {
        JsonValue::Null => true,
        JsonValue::Bool(_) => true,
        JsonValue::Number(_) => true,
        JsonValue::Text(_) => true,
        JsonValue::Array(_) => false,
        JsonValue::Object(_) => false,
    }
}

impl ParsedTable {
    /// Check the structural invariant: every row as wide as the header row
    /// and every cell a scalar. The error names the first violation in
    /// row-major order; nothing is padded or truncated.
    pub fn validate(&self) -> (r: Result<(), TableError>)
        ensures
            r is Ok <==> table_valid(*self),
            match r {
                Ok(()) => true,
                Err(e) => match e {
                    TableError::RowWidth { row, len, expected } => 0 <= row < self.rows@.len()
                        && len == self.rows@[row as int]@.len() && expected == self.headers@.len()
                        && len != expected && (forall|i: int|
                        0 <= i < row ==> row_ok(
                            #[trigger] self.rows@[i]@,
                            self.headers@.len() as int,
                        )),
                    TableError::CellType { row, col } => 0 <= row < self.rows@.len() && (forall|
                        i: int,
                    |
                        0 <= i < row ==> row_ok(
                            #[trigger] self.rows@[i]@,
                            self.headers@.len() as int,
                        )) && self.rows@[row as int]@.len() == self.headers@.len() && 0 <= col
                        < self.rows@[row as int]@.len() && !self.rows@[row as int]@[
                        col as int
                    ].is_scalar() && (forall|j: int|
                        0 <= j < col ==> (#[trigger] self.rows@[row as int]@[j]).is_scalar()),
                },
            },
    {
        let w = self.headers.len();
        let mut i: usize = 0;
        while i < self.rows.len()
            invariant
                0 <= i <= self.rows@.len(),
                w == self.headers@.len(),
                forall|k: int| 0 <= k < i ==> row_ok(#[trigger] self.rows@[k]@, w as int),
            decreases self.rows@.len() - i,
        {
            let row = &self.rows[i];
            if row.len() != w {
                proof {
                    assert(!row_ok(self.rows@[i as int]@, w as int));
                }
                return Err(TableError::RowWidth { row: i, len: row.len(), expected: w });
            }
            let mut j: usize = 0;
            while j < row.len()
                invariant
                    0 <= j <= row@.len(),
                    row@ == self.rows@[i as int]@,
                    0 <= i < self.rows@.len(),
                    w == self.headers@.len(),
                    row@.len() == w,
                    forall|k: int| 0 <= k < i ==> row_ok(#[trigger] self.rows@[k]@, w as int),
                    forall|k: int| 0 <= k < j ==> (#[trigger] row@[k]).is_scalar(),
                decreases row@.len() - j,
            {
                let scalar = is_scalar_cell(&row[j]);
                if !scalar {
                    proof {
                        assert(!row_ok(self.rows@[i as int]@, w as int));
                    }
                    return Err(TableError::CellType { row: i, col: j });
                }
                j = j + 1;
            }
            i = i + 1;
        }
        Ok(())
    }
}

/// How one sheet cell appears in a freshly read table: blank text and
/// absent cells as null, non-finite numbers as their marker text,
/// everything else by its value.
pub open spec fn cell_result_matches(c: Cell, v: JsonValue) -> bool {
    match c {
        Cell::Absent => v is Null,
        Cell::Boolean(b) => v == JsonValue::Bool(b),
        Cell::Number(n) => match n {
            CellNum::Finite(t) => v matches JsonValue::Number(u) && u@ == t@,
            CellNum::Nan => v matches JsonValue::Text(u) && u@ == "NaN!"@,
            CellNum::PlusInf => v matches JsonValue::Text(u) && u@ == "Inf!"@,
            CellNum::MinusInf => v matches JsonValue::Text(u) && u@ == "-Inf!"@,
        },
        Cell::Text(s) => if is_blank(s@) {
            v is Null
        } else {
            v matches JsonValue::Text(u) && u@ == s@
        },
        Cell::ErrorMark(s) => v matches JsonValue::Text(u) && u@ == s@,
    }
}

/// The table cell for one sheet cell.
pub fn result_cell(c: &Cell) -> (v: JsonValue)
    ensures
        cell_result_matches(*c, v),
{
    match c {
        Cell::Absent => JsonValue::Null,
        Cell::Boolean(b) => JsonValue::Bool(*b),
        Cell::Number(n) => match n {
            CellNum::Finite(t) => JsonValue::Number(t.clone()),
            CellNum::Nan => JsonValue::Text(String::from_str("NaN!")),
            CellNum::PlusInf => JsonValue::Text(String::from_str("Inf!")),
            CellNum::MinusInf => JsonValue::Text(String::from_str("-Inf!")),
        },
        Cell::Text(s) => {
            let cs = chars_of(s.as_str());
            let tr = trim_chars(&cs);
            if tr.len() == 0 {
                JsonValue::Null
            } else {
                JsonValue::Text(s.clone())
            }
        },
        Cell::ErrorMark(s) => JsonValue::Text(s.clone()),
    }
}

/// Build a table straight from sheet rows: headers from row 0, every later
/// row carried over cell by cell. An empty sheet gives an empty table;
/// duplicated headers are refused.
pub fn create_parsed_table(rows_data: &Vec<Vec<Cell>>) -> (r: Result<ParsedTable, ProjectError>)
    ensures
        match r {
            Ok(t) => if rows_data@.len() == 0 {
                t.headers@.len() == 0 && t.rows@.len() == 0
            } else {
                names_view(t.headers@) == headers_text(rows_data@[0]@) && dup_list(
                    headers_text(rows_data@[0]@),
                ).len() == 0 && t.rows@.len() == rows_data@.len() - 1 && (forall|i: int|
                    0 <= i < t.rows@.len() ==> #[trigger] t.rows@[i]@.len() == rows_data@[i
                        + 1]@.len()) && (forall|i: int, j: int|
                    0 <= i < t.rows@.len() && 0 <= j < t.rows@[i]@.len()
                        ==> cell_result_matches(
                        rows_data@[i + 1]@[j],
                        #[trigger] t.rows@[i]@[j],
                    ))
            },
            Err(e) => rows_data@.len() > 0 && match e {
                ProjectError::DuplicateHeaders(d) => names_view(d@) == dup_list(
                    headers_text(rows_data@[0]@),
                ) && dup_list(headers_text(rows_data@[0]@)).len() > 0,
                _ => false,
            },
        },
{
    if rows_data.len() == 0 {
        return Ok(ParsedTable { headers: Vec::new(), rows: Vec::new() });
    }
    let headers = match compute_headers_from_first_row(&rows_data[0]) {
        Ok(h) => h,
        Err(e) => {
            return Err(e);
        },
    };
    let mut out_rows: Vec<Vec<JsonValue>> = Vec::new();
    let mut i: usize = 1;
    while i < rows_data.len()
        invariant
            1 <= i <= rows_data@.len(),
            out_rows@.len() == i - 1,
            forall|k: int|
                0 <= k < i - 1 ==> #[trigger] out_rows@[k]@.len() == rows_data@[k + 1]@.len(),
            forall|k: int, j: int|
                0 <= k < i - 1 && 0 <= j < out_rows@[k]@.len() ==> cell_result_matches(
                    rows_data@[k + 1]@[j],
                    #[trigger] out_rows@[k]@[j],
                ),
        decreases rows_data@.len() - i,
    {
        let src = &rows_data[i];
        let mut row: Vec<JsonValue> = Vec::new();
        let mut j: usize = 0;
        while j < src.len()
            invariant
                0 <= j <= src@.len(),
                row@.len() == j,
                forall|k: int|
                    0 <= k < j ==> cell_result_matches(src@[k], #[trigger] row@[k]),
            decreases src@.len() - j,
        {
            row.push(result_cell(&src[j]));
            j = j + 1;
        }
        out_rows.push(row);
        i = i + 1;
    }
    Ok(ParsedTable { headers, rows: out_rows })
}

} // verus!
