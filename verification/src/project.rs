//! The column projector: canonical headers from the first row, duplicate
//! detection, and extraction of a named numeric dataset in header order.

use vstd::prelude::*;

use crate::cell::{Cell, CellNum, NumV, coerce_numeric, coerce_spec, opt_num_view};
use crate::text::{chars_of, dec_chars, dec_seq, is_blank, string_from_chars, trim_chars, trim_spec};

verus! {

/// Why a projection was refused.
#[derive(Debug, PartialEq)]
pub enum ProjectError {
    /// No column was requested.
    NoVariables,
    /// The sheet has no rows at all.
    NoRows,
    /// Two headers compare equal; each duplicated name is listed once.
    DuplicateHeaders(Vec<String>),
    /// The first requested column that no header matches.
    MissingVariable(String),
    /// Every requested column was dropped as non-numeric.
    NoNumericColumns,
}

/// The automatic name of the column at `idx` (zero-based).
pub open spec fn placeholder_text(idx: int) -> Seq<char> {
    "COLUMN_"@ + dec_seq((idx + 1) as nat)
}

/// The display name derived from one header cell: text is trimmed with a
/// fallback to the positional placeholder; numbers show their canonical
/// rendering or a non-finite marker; booleans a fixed token; absent and
/// error cells the placeholder.
pub open spec fn header_text(c: Cell, idx: int) -> Seq<char> {
    match c {
        Cell::Absent => placeholder_text(idx),
        Cell::Boolean(_) => "TRUE/FALSE"@,
        Cell::Number(n) => match n {
            CellNum::Finite(s) => s@,
            CellNum::Nan => "NaN!"@,
            CellNum::PlusInf => "Inf!"@,
            CellNum::MinusInf => "-Inf!"@,
        },
        Cell::Text(s) => if is_blank(s@) {
            placeholder_text(idx)
        } else {
            trim_spec(s@)
        },
        Cell::ErrorMark(_) => placeholder_text(idx),
    }
}

/// All header names of a first row.
pub open spec fn headers_text(row: Seq<Cell>) -> Seq<Seq<char>> {
    Seq::new(row.len(), |i: int| header_text(row[i], i))
}

/// The views of a sequence of names.
pub open spec fn names_view(ns: Seq<String>) -> Seq<Seq<char>> {
    Seq::new(ns.len(), |i: int| ns[i]@)
}

/// Does a list of names contain this text?
pub open spec fn seq_contains_text(ns: Seq<Seq<char>>, t: Seq<char>) -> bool {
    exists|k: int| 0 <= k < ns.len() && ns[k] == t
}

/// The duplicated names of a header list, each once, in the order their
/// second occurrence is met.
pub open spec fn dup_list(hs: Seq<Seq<char>>) -> Seq<Seq<char>>
    decreases hs.len(),
{
    if hs.len() == 0 {
        Seq::empty()
    } else {
        let pre = dup_list(hs.drop_last());
        if seq_contains_text(hs.drop_last(), hs.last()) && !seq_contains_text(pre, hs.last()) {
            pre.push(hs.last())
        } else {
            pre
        }
    }
}

/// Does a name appear at two different positions?
pub open spec fn appears_twice(hs: Seq<Seq<char>>, t: Seq<char>) -> bool {
    exists|i: int, j: int| 0 <= i < j < hs.len() && hs[i] == t && hs[j] == t
}

/// The duplicate list holds exactly the names that appear more than once,
/// and holds each of them exactly once.
pub proof fn lemma_duplicates_exact(hs: Seq<Seq<char>>)
    ensures
        forall|t: Seq<char>| seq_contains_text(dup_list(hs), t) <==> appears_twice(hs, t),
        forall|a: int, b: int| 0 <= a < b < dup_list(hs).len() ==> dup_list(hs)[a] != dup_list(hs)[b],
    decreases hs.len(),
{
    if hs.len() > 0 {
        let d = hs.drop_last();
        let h = hs.last();
        let pre = dup_list(d);
        lemma_duplicates_exact(d);
        assert forall|t: Seq<char>| appears_twice(d, t) implies appears_twice(hs, t) by {
            let (i, j) = choose|i: int, j: int| 0 <= i < j < d.len() && d[i] == t && d[j] == t;
            assert(hs[i] == t && hs[j] == t);
        }
        assert forall|t: Seq<char>| appears_twice(hs, t) implies (appears_twice(d, t) || (t == h
            && seq_contains_text(d, t))) by {
            let (i, j) = choose|i: int, j: int| 0 <= i < j < hs.len() && hs[i] == t && hs[j] == t;
            if j < hs.len() - 1 {
                assert(d[i] == t && d[j] == t);
            } else {
                assert(d[i] == t);
            }
        }
        if seq_contains_text(d, h) && !seq_contains_text(pre, h) {
            assert(dup_list(hs) == pre.push(h));
            assert forall|t: Seq<char>| seq_contains_text(pre.push(h), t) implies appears_twice(
                hs,
                t,
            ) by {
                if t == h {
                    let i = choose|i: int| 0 <= i < d.len() && d[i] == t;
                    assert(hs[i] == t && hs[hs.len() - 1] == t);
                } else {
                    assert(seq_contains_text(pre, t));
                }
            }
            assert forall|t: Seq<char>| appears_twice(hs, t) implies seq_contains_text(
                pre.push(h),
                t,
            ) by {
                if appears_twice(d, t) {
                    let k = choose|k: int| 0 <= k < pre.len() && pre[k] == t;
                    assert(pre.push(h)[k] == t);
                } else {
                    assert(pre.push(h)[pre.len() as int] == t);
                }
            }
        } else {
            assert(dup_list(hs) == pre);
            assert forall|t: Seq<char>| appears_twice(hs, t) implies seq_contains_text(
                pre,
                t,
            ) by {
                if appears_twice(d, t) {
                } else {
                    assert(t == h && seq_contains_text(d, t));
                }
            }
        }
    }
}

fn contains_name_upto(names: &Vec<String>, end: usize, t: &String) -> (r: bool)
    requires
        end <= names@.len(),
    ensures
        r == (exists|k: int| 0 <= k < end && names@[k]@ == t@),
{
    let mut k: usize = 0;
    let mut found = false;
    while k < end
        invariant
            0 <= k <= end <= names@.len(),
            found == (exists|j: int| 0 <= j < k && names@[j]@ == t@),
        decreases end - k,
    {
        if names[k] == *t {
            found = true;
        }
        k = k + 1;
    }
    found
}

/// The automatic column name at `idx` (zero-based), `COLUMN_` with the
/// one-based position.
pub fn placeholder_name(idx: usize) -> (r: String)
    requires
        idx < usize::MAX,
    ensures
        r@ == placeholder_text(idx as int),
{
    let mut v = chars_of("COLUMN_");
    let mut d = dec_chars((idx as u64) + 1);
    v.append(&mut d);
    string_from_chars(&v)
}

/// The display name of one header cell.
pub fn header_for_cell(c: &Cell, idx: usize) -> (r: String)
    requires
        idx < usize::MAX,
    ensures
        r@ == header_text(*c, idx as int),
{
    match c {
        Cell::Absent => placeholder_name(idx),
        Cell::ErrorMark(_) => placeholder_name(idx),
        Cell::Boolean(_) => String::from_str("TRUE/FALSE"),
        Cell::Number(n) => match n {
            CellNum::Finite(s) => s.clone(),
            CellNum::Nan => String::from_str("NaN!"),
            CellNum::PlusInf => String::from_str("Inf!"),
            CellNum::MinusInf => String::from_str("-Inf!"),
        },
        Cell::Text(s) => {
            let cs = chars_of(s.as_str());
            let tr = trim_chars(&cs);
            if tr.len() == 0 {
                placeholder_name(idx)
            } else {
                string_from_chars(&tr)
            }
        },
    }
}

/// Compute the canonical headers of a sheet from its first row; fails when
/// two of them compare equal, listing every duplicated name once.
pub fn compute_headers_from_first_row(row0: &Vec<Cell>) -> (r: Result<Vec<String>, ProjectError>)
    ensures
        match r {
            Ok(hs) => names_view(hs@) == headers_text(row0@) && dup_list(headers_text(row0@)).len()
                == 0,
            Err(e) => match e {
                ProjectError::DuplicateHeaders(d) => names_view(d@) == dup_list(
                    headers_text(row0@),
                ) && dup_list(headers_text(row0@)).len() > 0,
                _ => false,
            },
        },
{
    let ghost ht = headers_text(row0@);
    let mut headers: Vec<String> = Vec::new();
    let mut i: usize = 0;
    while i < row0.len()
        invariant
            0 <= i <= row0@.len(),
            headers@.len() == i,
            ht == headers_text(row0@),
            forall|k: int| 0 <= k < i ==> #[trigger] headers@[k]@ == ht[k],
        decreases row0@.len() - i,
    {
        headers.push(header_for_cell(&row0[i], i));
        i = i + 1;
    }
    let mut dups: Vec<String> = Vec::new();
    let mut j: usize = 0;
    while j < headers.len()
        invariant
            0 <= j <= headers@.len(),
            headers@.len() == row0@.len(),
            ht == headers_text(row0@),
            forall|k: int| 0 <= k < headers@.len() ==> #[trigger] headers@[k]@ == ht[k],
            names_view(dups@) == dup_list(ht.subrange(0, j as int)),
        decreases headers@.len() - j,
    {
        let ghost pref = ht.subrange(0, j as int);
        let before = contains_name_upto(&headers, j, &headers[j]);
        let in_dups = contains_name_upto(&dups, dups.len(), &headers[j]);
        proof {
            assert(ht.subrange(0, j + 1).drop_last() =~= pref);
            assert(ht.subrange(0, j + 1).last() == ht[j as int]);
            assert(forall|k: int| 0 <= k < j ==> pref[k] == ht[k]);
            assert(before == seq_contains_text(pref, ht[j as int])) by {
                if before {
                    let k = choose|k: int| 0 <= k < j && headers@[k]@ == headers@[j as int]@;
                    assert(pref[k] == ht[j as int]);
                }
                if seq_contains_text(pref, ht[j as int]) {
                    let k = choose|k: int|
                        0 <= k < pref.len() && pref[k] == ht[j as int];
                    assert(headers@[k]@ == headers@[j as int]@);
                }
            }
            assert(in_dups == seq_contains_text(names_view(dups@), ht[j as int])) by {
                if in_dups {
                    let k = choose|k: int|
                        0 <= k < dups@.len() && dups@[k]@ == headers@[j as int]@;
                    assert(names_view(dups@)[k] == ht[j as int]);
                }
                if seq_contains_text(names_view(dups@), ht[j as int]) {
                    let ghost hj = ht[j as int];
                    let k = choose|k: int|
                        0 <= k < names_view(dups@).len() && names_view(dups@)[k] == hj;
                    assert(dups@[k]@ == headers@[j as int]@);
                }
            }
        }
        if before && !in_dups {
            let ghost old_dups = dups@;
            dups.push(headers[j].clone());
            proof {
                assert(names_view(dups@) =~= names_view(old_dups).push(ht[j as int]));
            }
        }
        proof {
            assert(names_view(dups@) =~= dup_list(ht.subrange(0, j + 1)));
        }
        j = j + 1;
    }
    proof {
        assert(ht.subrange(0, ht.len() as int) =~= ht);
    }
    if dups.len() > 0 {
        Err(ProjectError::DuplicateHeaders(dups))
    } else {
        proof {
            assert(names_view(headers@) =~= ht);
        }
        Ok(headers)
    }
}

/// One extracted column: its header name and one optional number per data
/// row.
#[derive(Debug, PartialEq)]
pub struct Column {
    pub name: String,
    pub values: Vec<Option<CellNum>>,
}

/// An ordered mapping from column name to numeric values, in header order.
#[derive(Debug, PartialEq)]
pub struct NumericDataset {
    pub cols: Vec<Column>,
}

/// The mathematical value of one column.
pub open spec fn col_view(c: Column) -> (Seq<char>, Seq<Option<NumV>>) {
    (c.name@, Seq::new(c.values@.len(), |k: int| opt_num_view(c.values@[k])))
}

/// The mathematical value of a dataset: name and values of each column.
pub open spec fn ds_view(ds: NumericDataset) -> Seq<(Seq<char>, Seq<Option<NumV>>)> {
    Seq::new(ds.cols@.len(), |i: int| col_view(ds.cols@[i]))
}

/// The numeric reading of the cell at `idx` of a data row; a short row
/// reads as missing.
pub open spec fn cell_num_at(row: Vec<Cell>, idx: int) -> Option<NumV> {
    if 0 <= idx < row@.len() {
        coerce_spec(row@[idx])
    } else {
        None
    }
}

/// The numeric readings of column `idx` over all data rows (row 0 is the
/// header row).
pub open spec fn col_vals(rows: Seq<Vec<Cell>>, idx: int) -> Seq<Option<NumV>> {
    Seq::new((rows.len() - 1) as nat, |r: int| cell_num_at(rows[r + 1], idx))
}

/// Does column `idx` hold at least one numeric value?
pub open spec fn col_any_some(rows: Seq<Vec<Cell>>, idx: int) -> bool {
    exists|k: int| 0 <= k < col_vals(rows, idx).len() && col_vals(rows, idx)[k] is Some
}

/// Is this name one of the requested columns?
pub open spec fn wanted_contains(vars: Seq<String>, name: Seq<char>) -> bool {
    exists|k: int| 0 <= k < vars.len() && vars[k]@ == name
}

/// The columns a projection keeps among the first `i` headers: requested,
/// in header order, and with at least one numeric value.
pub open spec fn kept_cols(
    rows: Seq<Vec<Cell>>,
    hs: Seq<Seq<char>>,
    vars: Seq<String>,
    i: int,
) -> Seq<(Seq<char>, Seq<Option<NumV>>)>
    decreases i,
{
    if i <= 0 {
        Seq::empty()
    } else {
        let pre = kept_cols(rows, hs, vars, i - 1);
        if wanted_contains(vars, hs[i - 1]) && col_any_some(rows, i - 1) {
            pre.push((hs[i - 1], col_vals(rows, i - 1)))
        } else {
            pre
        }
    }
}

/// Everything `build_numeric_dataset` promises, for every outcome.
pub open spec fn projection_post(
    rows: Seq<Vec<Cell>>,
    vars: Seq<String>,
    r: Result<NumericDataset, ProjectError>,
) -> bool {
    let hs = headers_text(rows[0]@);
    match r {
        Ok(ds) => vars.len() > 0 && rows.len() > 0 && dup_list(hs).len() == 0 && (forall|i: int|
            0 <= i < vars.len() ==> seq_contains_text(hs, #[trigger] vars[i]@)) && ds_view(ds)
            == kept_cols(rows, hs, vars, hs.len() as int) && ds.cols@.len() > 0,
        Err(e) => match e {
            ProjectError::NoVariables => vars.len() == 0,
            ProjectError::NoRows => vars.len() > 0 && rows.len() == 0,
            ProjectError::DuplicateHeaders(d) => vars.len() > 0 && rows.len() > 0 && names_view(d@)
                == dup_list(hs) && dup_list(hs).len() > 0,
            ProjectError::MissingVariable(v) => vars.len() > 0 && rows.len() > 0 && dup_list(
                hs,
            ).len() == 0 && (exists|i: int|
                0 <= i < vars.len() && v@ == #[trigger] vars[i]@ && !seq_contains_text(hs, vars[i]@)
                    && (forall|j: int| 0 <= j < i ==> seq_contains_text(hs, #[trigger] vars[j]@))),
            ProjectError::NoNumericColumns => vars.len() > 0 && rows.len() > 0 && dup_list(
                hs,
            ).len() == 0 && (forall|i: int|
                0 <= i < vars.len() ==> seq_contains_text(hs, #[trigger] vars[i]@)) && kept_cols(
                rows,
                hs,
                vars,
                hs.len() as int,
            ).len() == 0,
        },
    }
}

/// Project the requested columns out of a sheet: headers from row 0, the
/// requested names checked against them, and each kept column read as
/// optional numbers in header left-to-right order. Columns with no numeric
/// value at all are dropped; a projection that would keep nothing fails.
pub fn build_numeric_dataset(rows: &Vec<Vec<Cell>>, variables: &Vec<String>) -> (r: Result<
    NumericDataset,
    ProjectError,
>)
    ensures
        projection_post(rows@, variables@, r),
{
    let ghost hs = headers_text(rows@[0]@);
    if variables.len() == 0 {
        return Err(ProjectError::NoVariables);
    }
    if rows.len() == 0 {
        return Err(ProjectError::NoRows);
    }
    let headers = match compute_headers_from_first_row(&rows[0]) {
        Ok(h) => h,
        Err(e) => {
            return Err(e);
        },
    };
    let mut vi: usize = 0;
    while vi < variables.len()
        invariant
            0 <= vi <= variables@.len(),
            variables@.len() > 0,
            rows@.len() > 0,
            hs == headers_text(rows@[0]@),
            dup_list(hs).len() == 0,
            names_view(headers@) == hs,
            forall|j: int| 0 <= j < vi ==> seq_contains_text(hs, #[trigger] variables@[j]@),
        decreases variables@.len() - vi,
    {
        let present = contains_name_upto(&headers, headers.len(), &variables[vi]);
        proof {
            assert(present == seq_contains_text(hs, variables@[vi as int]@)) by {
                if present {
                    let k = choose|k: int|
                        0 <= k < headers@.len() && headers@[k]@ == variables@[vi as int]@;
                    assert(hs[k] == variables@[vi as int]@);
                }
                if seq_contains_text(hs, variables@[vi as int]@) {
                    let ghost tv = variables@[vi as int]@;
                    let k = choose|k: int| 0 <= k < hs.len() && hs[k] == tv;
                    assert(headers@[k]@ == variables@[vi as int]@);
                }
            }
        }
        if !present {
            let mv = variables[vi].clone();
            let e = ProjectError::MissingVariable(mv);
            proof {
                let iw = vi as int;
                assert(e matches ProjectError::MissingVariable(v) ==> (0 <= iw < variables@.len()
                    && v@ == variables@[iw]@ && !seq_contains_text(hs, variables@[iw]@) && (
                forall|j: int| 0 <= j < iw ==> seq_contains_text(hs, #[trigger] variables@[j]@))));
                assert(projection_post(
                    rows@,
                    variables@,
                    Result::<NumericDataset, ProjectError>::Err(e),
                ));
            }
            return Err(e);
        }
        vi = vi + 1;
    }
    let mut cols: Vec<Column> = Vec::new();
    let mut idx: usize = 0;
    while idx < headers.len()
        invariant
            0 <= idx <= headers@.len(),
            names_view(headers@) == hs,
            hs.len() == headers@.len(),
            ds_view(NumericDataset { cols }) == kept_cols(rows@, hs, variables@, idx as int),
            rows@.len() > 0,
        decreases headers@.len() - idx,
    {
        let wanted = contains_name_upto(variables, variables.len(), &headers[idx]);
        proof {
            assert(wanted == wanted_contains(variables@, hs[idx as int])) by {
                if wanted {
                    let k = choose|k: int|
                        0 <= k < variables@.len() && variables@[k]@ == headers@[idx as int]@;
                    assert(variables@[k]@ == hs[idx as int]);
                }
                if wanted_contains(variables@, hs[idx as int]) {
                    let ghost hx = hs[idx as int];
                    let k = choose|k: int| 0 <= k < variables@.len() && variables@[k]@ == hx;
                    assert(variables@[k]@ == headers@[idx as int]@);
                }
            }
        }
        if wanted {
            let mut vals: Vec<Option<CellNum>> = Vec::new();
            let mut any = false;
            let mut rix: usize = 1;
            while rix < rows.len()
                invariant
                    1 <= rix <= rows@.len(),
                    idx < headers@.len(),
                    vals@.len() == rix - 1,
                    forall|k: int|
                        0 <= k < rix - 1 ==> opt_num_view(#[trigger] vals@[k]) == cell_num_at(
                            rows@[k + 1],
                            idx as int,
                        ),
                    any == (exists|k: int|
                        0 <= k < rix - 1 && opt_num_view(#[trigger] vals@[k]) is Some),
                decreases rows@.len() - rix,
            {
                let row = &rows[rix];
                let v = if idx < row.len() {
                    coerce_numeric(&row[idx])
                } else {
                    None
                };
                let was_some = v.is_some();
                let ghost old_vals = vals@;
                let ghost old_any = any;
                if was_some {
                    any = true;
                }
                vals.push(v);
                proof {
                    assert(forall|k: int|
                        0 <= k < old_vals.len() ==> #[trigger] vals@[k] == old_vals[k]);
                    if was_some {
                        assert(opt_num_view(vals@[rix - 1]) is Some);
                        assert(exists|k: int|
                            0 <= k < rix && opt_num_view(#[trigger] vals@[k]) is Some);
                    } else {
                        if old_any {
                            let k = choose|k: int|
                                0 <= k < rix - 1 && opt_num_view(#[trigger] old_vals[k]) is Some;
                            assert(opt_num_view(vals@[k]) is Some);
                        } else {
                            assert forall|k: int| 0 <= k < rix implies !(opt_num_view(
                                #[trigger] vals@[k],
                            ) is Some) by {
                                if k < rix - 1 {
                                    assert(vals@[k] == old_vals[k]);
                                } else {
                                    assert(vals@[k] == v);
                                }
                            }
                        }
                    }
                }
                rix = rix + 1;
            }
            if any {
                let ghost old_cols = cols@;
                cols.push(Column { name: headers[idx].clone(), values: vals });
                proof {
                    let c = cols@.last();
                    assert(col_view(c).0 == hs[idx as int]);
                    assert(col_view(c).1 =~= col_vals(rows@, idx as int));
                    assert(col_any_some(rows@, idx as int)) by {
                        let k = choose|k: int|
                            0 <= k < vals@.len() && opt_num_view(vals@[k]) is Some;
                        assert(col_vals(rows@, idx as int)[k] is Some);
                    }
                    assert(ds_view(NumericDataset { cols: cols }) =~= kept_cols(
                        rows@,
                        hs,
                        variables@,
                        idx + 1,
                    ));
                }
            } else {
                proof {
                    assert(!col_any_some(rows@, idx as int)) by {
                        if col_any_some(rows@, idx as int) {
                            let k = choose|k: int|
                                0 <= k < col_vals(rows@, idx as int).len() && col_vals(
                                    rows@,
                                    idx as int,
                                )[k] is Some;
                            assert(opt_num_view(vals@[k]) is Some);
                        }
                    }
                    assert(ds_view(NumericDataset { cols: cols }) =~= kept_cols(
                        rows@,
                        hs,
                        variables@,
                        idx + 1,
                    ));
                }
            }
        } else {
            proof {
                assert(ds_view(NumericDataset { cols: cols }) =~= kept_cols(
                    rows@,
                    hs,
                    variables@,
                    idx + 1,
                ));
            }
        }
        idx = idx + 1;
    }
    if cols.len() == 0 {
        return Err(ProjectError::NoNumericColumns);
    }
    Ok(NumericDataset { cols })
}

proof fn lemma_kept_cols_wf(
    rows: Seq<Vec<Cell>>,
    hs: Seq<Seq<char>>,
    vars: Seq<String>,
    i: int,
)
    requires
        dup_list(hs).len() == 0,
        rows.len() >= 1,
        0 <= i <= hs.len(),
    ensures
        forall|p: int|
            0 <= p < kept_cols(rows, hs, vars, i).len() ==> #[trigger] kept_cols(
                rows,
                hs,
                vars,
                i,
            )[p].1.len() == rows.len() - 1,
        forall|p: int|
            0 <= p < kept_cols(rows, hs, vars, i).len() ==> seq_contains_text(
                hs.subrange(0, i),
                #[trigger] kept_cols(rows, hs, vars, i)[p].0,
            ),
        forall|p: int, q: int|
            0 <= p < q < kept_cols(rows, hs, vars, i).len() ==> kept_cols(rows, hs, vars, i)[p].0
                != kept_cols(rows, hs, vars, i)[q].0,
    decreases i,
{
    if i > 0 {
        lemma_kept_cols_wf(rows, hs, vars, i - 1);
        let pre = kept_cols(rows, hs, vars, i - 1);
        let cur = kept_cols(rows, hs, vars, i);
        assert(forall|k: int|
            0 <= k < i - 1 ==> hs.subrange(0, i - 1)[k] == #[trigger] hs.subrange(0, i)[k]);
        assert forall|p: int|
            0 <= p < cur.len() implies seq_contains_text(
            hs.subrange(0, i),
            #[trigger] cur[p].0,
        ) by {
            if p < pre.len() {
                let a = choose|a: int|
                    0 <= a < i - 1 && #[trigger] hs.subrange(0, i - 1)[a] == pre[p].0;
                assert(hs.subrange(0, i)[a] == cur[p].0);
            } else {
                assert(hs.subrange(0, i)[i - 1] == hs[i - 1]);
            }
        }
        if wanted_contains(vars, hs[i - 1]) && col_any_some(rows, i - 1) {
            assert(cur == pre.push((hs[i - 1], col_vals(rows, i - 1))));
            assert forall|p: int|
                0 <= p < cur.len() implies #[trigger] cur[p].1.len() == rows.len() - 1 by {
                if p < pre.len() {
                    assert(cur[p] == pre[p]);
                    assert(pre[p].1.len() == rows.len() - 1);
                } else {
                    assert(cur[p].1 == col_vals(rows, i - 1));
                }
            }
            assert forall|p: int, q: int| 0 <= p < q < cur.len() implies cur[p].0 != cur[
                q
            ].0 by {
                if q == cur.len() - 1 {
                    if cur[p].0 == hs[i - 1] {
                        let a = choose|a: int|
                            0 <= a < i - 1 && #[trigger] hs.subrange(0, i - 1)[a] == pre[p].0;
                        assert(hs[a] == hs[i - 1]);
                        assert(appears_twice(hs, hs[i - 1]));
                        lemma_duplicates_exact(hs);
                        let k = choose|k: int|
                            0 <= k < dup_list(hs).len() && dup_list(hs)[k] == hs[i - 1];
                        assert(false);
                    }
                }
            }
        }
    }
}

/// The dataset a projection keeps is well formed, as the data model asks:
/// every column holds one optional number per data row, and no two columns
/// share a name.
pub proof fn lemma_projection_dataset_wf(
    rows: Seq<Vec<Cell>>,
    vars: Seq<String>,
    ds: NumericDataset,
)
    requires
        projection_post(rows, vars, Ok(ds)),
    ensures
        forall|i: int|
            0 <= i < ds.cols@.len() ==> (#[trigger] ds.cols@[i]).values@.len() == rows.len() - 1,
        forall|i: int, j: int|
            0 <= i < j < ds.cols@.len() ==> ds.cols@[i].name@ != ds.cols@[j].name@,
{
    let hs = headers_text(rows[0]@);
    let kept = kept_cols(rows, hs, vars, hs.len() as int);
    lemma_kept_cols_wf(rows, hs, vars, hs.len() as int);
    assert(forall|p: int|
        0 <= p < ds.cols@.len() ==> ds_view(ds)[p] == #[trigger] col_view(ds.cols@[p]));
    assert forall|i: int|
        0 <= i < ds.cols@.len() implies (#[trigger] ds.cols@[i]).values@.len() == rows.len()
        - 1 by {
        assert(col_view(ds.cols@[i]).1 == kept[i].1);
        assert(col_view(ds.cols@[i]).1.len() == ds.cols@[i].values@.len());
    }
    assert forall|i: int, j: int|
        0 <= i < j < ds.cols@.len() implies ds.cols@[i].name@ != ds.cols@[j].name@ by {
        assert(col_view(ds.cols@[i]).0 == kept[i].0);
        assert(col_view(ds.cols@[j]).0 == kept[j].0);
    }
}

/// Extraction order is the header left-to-right order and nothing else: two
/// requests naming the same set of columns keep exactly the same dataset,
/// whatever order the names were given in.
pub proof fn lemma_projection_request_order(
    rows: Seq<Vec<Cell>>,
    hs: Seq<Seq<char>>,
    vars1: Seq<String>,
    vars2: Seq<String>,
    i: int,
)
    requires
        forall|t: Seq<char>| wanted_contains(vars1, t) <==> wanted_contains(vars2, t),
    ensures
        kept_cols(rows, hs, vars1, i) == kept_cols(rows, hs, vars2, i),
    decreases i,
{
    if i > 0 {
        lemma_projection_request_order(rows, hs, vars1, vars2, i - 1);
    }
}

} // verus!
