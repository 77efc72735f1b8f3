//! The job executor's verifiable half: the engine's input payload and
//! option argument are emitted here character by character, and the
//! process outcome and output file are interpreted here. The file and
//! process work itself stays outside the library.

use vstd::prelude::*;

use crate::cell::NumV;
use crate::json::{
    JsonValue, all_text, find_member, json_doc_of, json_string_array_text, json_string_text,
    obj_lookup, parse_json, text_views, write_json_string, write_json_string_array,
    write_json_string_str,
};
use crate::options::AnalysisOptions;
use crate::project::{Column, NumericDataset, col_view, ds_view, names_view};
use crate::table::{ParsedTable, TableError, table_valid};
use crate::text::{chars_of, is_blank, string_from_chars, trim_chars, trim_spec};

verus! {

/// Why one engine call failed; each call makes exactly one attempt.
#[derive(Debug, PartialEq)]
pub enum RunError {
    /// The engine's entry script is nowhere to be found.
    EngineNotFound,
    /// The input or output temporary file could not be prepared.
    InputSetup { detail: String },
    /// The engine process could not be started.
    SpawnFailure { detail: String },
    /// The engine exited with a non-zero status.
    EngineFailed { code: Option<i32>, stderr: String },
    /// The engine did not exit within the configured timeout and was
    /// killed.
    Timeout { timeout_ms: u64 },
    /// The engine's output file could not be read back.
    OutputUnreadable { detail: String },
    /// The output file held no table of the expected shape.
    OutputParse { detail: String, raw: String },
    /// The output parsed but broke the table's structural invariant.
    InvalidTable { violation: TableError },
}

/// How one engine invocation ended, as the process layer reports it.
pub enum EngineOutcome {
    /// The process exited on its own within the timeout.
    Exited { success: bool, code: Option<i32>, stderr: String },
    /// The process was still running when the timeout elapsed.
    TimedOut,
}

/// Decide what an engine exit means. `Ok` says the output file may be
/// read; a timed-out run never reaches it, so a partially written output
/// file is never taken for a result.
pub fn interpret_outcome(outcome: EngineOutcome, timeout_ms: u64) -> (r: Result<(), RunError>)
    ensures
        match outcome {
            EngineOutcome::TimedOut => r == Err::<(), RunError>(RunError::Timeout { timeout_ms }),
            EngineOutcome::Exited { success, code, stderr } => if success {
                r is Ok
            } else {
                r matches Err(RunError::EngineFailed { code: c, stderr: e }) && c == code && e@
                    == trim_spec(stderr@)
            },
        },
{
    match outcome {
        EngineOutcome::TimedOut => Err(RunError::Timeout { timeout_ms }),
        EngineOutcome::Exited { success, code, stderr } => {
            if success {
                Ok(())
            } else {
                let cs = chars_of(stderr.as_str());
                let tr = trim_chars(&cs);
                Err(RunError::EngineFailed { code, stderr: string_from_chars(&tr) })
            }
        },
    }
}

/// The text of one numeric value inside the payload: the canonical
/// rendering of a finite number, `null` for a missing or non-finite one.
pub open spec fn num_cell_text(v: Option<NumV>) -> Seq<char> {
    match v {
        Some(NumV::Finite(t)) => t,
        _ => "null"@,
    }
}

/// The comma-joined first `i` values of one column.
pub open spec fn values_list_text(vs: Seq<Option<NumV>>, i: int) -> Seq<char>
    decreases i,
{
    if i <= 0 {
        Seq::empty()
    } else {
        let item = num_cell_text(vs[i - 1]);
        if i - 1 == 0 {
            item
        } else {
            values_list_text(vs, i - 1) + seq![','] + item
        }
    }
}

/// One column's values as a JSON array.
pub open spec fn values_array_text(vs: Seq<Option<NumV>>) -> Seq<char> {
    seq!['['] + values_list_text(vs, vs.len() as int) + seq![']']
}

/// The comma-joined first `i` columns of the data object.
pub open spec fn data_members_text(
    cols: Seq<(Seq<char>, Seq<Option<NumV>>)>,
    i: int,
) -> Seq<char>
    decreases i,
{
    if i <= 0 {
        Seq::empty()
    } else {
        let item = json_string_text(cols[i - 1].0) + seq![':'] + values_array_text(cols[i - 1].1);
        if i - 1 == 0 {
            item
        } else {
            data_members_text(cols, i - 1) + seq![','] + item
        }
    }
}

/// The whole self-describing payload the engine reads: the column order
/// hint and the dataset keyed by column name.
pub open spec fn payload_text(
    order: Seq<Seq<char>>,
    cols: Seq<(Seq<char>, Seq<Option<NumV>>)>,
) -> Seq<char> {
    "{\"__order\":"@ + json_string_array_text(order) + ",\"__data\":{"@ + data_members_text(
        cols,
        cols.len() as int,
    ) + "}}"@
}

fn write_column_values(out: &mut Vec<char>, col: &Column)
    ensures
        final(out)@ == old(out)@ + values_array_text(col_view(*col).1),
{
    let ghost vs = col_view(*col).1;
    let ghost base = out@;
    out.push('[');
    let mut i: usize = 0;
    while i < col.values.len()
        invariant
            0 <= i <= col.values@.len(),
            vs == col_view(*col).1,
            vs.len() == col.values@.len(),
            out@ == base + seq!['['] + values_list_text(vs, i as int),
        decreases col.values@.len() - i,
    {
        if i > 0 {
            out.push(',');
        }
        match &col.values[i] {
            Some(n) => match n {
                crate::cell::CellNum::Finite(t) => {
                    let mut cs = chars_of(t.as_str());
                    out.append(&mut cs);
                },
                _ => {
                    let mut cs = chars_of("null");
                    out.append(&mut cs);
                },
            },
            None => {
                let mut cs = chars_of("null");
                out.append(&mut cs);
            },
        }
        proof {
            assert(out@ =~= base + seq!['['] + values_list_text(vs, i + 1));
        }
        i = i + 1;
    }
    out.push(']');
    proof {
        assert(out@ =~= base + values_array_text(vs));
    }
}

/// Serialize the payload for one engine call: the order hint and the
/// dataset, as one JSON object.
pub fn build_engine_payload(ds: &NumericDataset, order: &Vec<String>) -> (r: String)
    ensures
        r@ == payload_text(names_view(order@), ds_view(*ds)),
{
    let ghost cols = ds_view(*ds);
    let mut out: Vec<char> = Vec::new();
    let mut head = chars_of("{\"__order\":");
    out.append(&mut head);
    write_json_string_array(&mut out, order);
    let mut mid = chars_of(",\"__data\":{");
    out.append(&mut mid);
    let ghost base = out@;
    let mut i: usize = 0;
    while i < ds.cols.len()
        invariant
            0 <= i <= ds.cols@.len(),
            cols == ds_view(*ds),
            cols.len() == ds.cols@.len(),
            out@ == base + data_members_text(cols, i as int),
        decreases ds.cols@.len() - i,
    {
        if i > 0 {
            out.push(',');
        }
        let name_chars = chars_of(ds.cols[i].name.as_str());
        write_json_string(&mut out, &name_chars);
        out.push(':');
        write_column_values(&mut out, &ds.cols[i]);
        proof {
            assert(out@ =~= base + data_members_text(cols, i + 1));
        }
        i = i + 1;
    }
    let mut tail = chars_of("}}");
    out.append(&mut tail);
    proof {
        assert(out@ =~= payload_text(names_view(order@), cols));
    }
    string_from_chars(&out)
}

/// The normalized correlation options, re-serialized for the engine.
pub open spec fn corr_options_text(
    methods: Seq<Seq<char>>,
    alt: Seq<char>,
    use_policy: Seq<char>,
) -> Seq<char> {
    "{\"methods\":"@ + json_string_array_text(methods) + ",\"alt\":"@ + json_string_text(alt)
        + ",\"use\":"@ + json_string_text(use_policy) + seq!['}']
}

/// The one extra argument an engine call carries, if any: a normalized
/// correlation object, a non-blank ordering directive, or an opaque
/// payload passed through verbatim.
pub fn engine_argument(opts: &AnalysisOptions) -> (r: Option<String>)
    ensures
        match opts {
            AnalysisOptions::Correlation { methods, alt, use_policy, .. } => r matches Some(s)
                && s@ == corr_options_text(names_view(methods@), alt@, use_policy@),
            AnalysisOptions::Descriptive { order, .. } => if is_blank(order@) {
                r is None
            } else {
                r matches Some(s) && s@ == order@
            },
            AnalysisOptions::Opaque { raw } => if raw@.len() == 0 {
                r is None
            } else {
                r matches Some(s) && s@ == raw@
            },
        },
{
    match opts {
        AnalysisOptions::Correlation { methods, alt, use_policy, .. } => {
            let mut out = chars_of("{\"methods\":");
            write_json_string_array(&mut out, methods);
            let mut a = chars_of(",\"alt\":");
            out.append(&mut a);
            write_json_string_str(&mut out, alt.as_str());
            let mut u = chars_of(",\"use\":");
            out.append(&mut u);
            write_json_string_str(&mut out, use_policy.as_str());
            out.push('}');
            proof {
                assert(out@ =~= corr_options_text(names_view(methods@), alt@, use_policy@));
            }
            Some(string_from_chars(&out))
        },
        AnalysisOptions::Descriptive { order, .. } => {
            let cs = chars_of(order.as_str());
            let tr = trim_chars(&cs);
            if tr.len() == 0 {
                None
            } else {
                Some(order.clone())
            }
        },
        AnalysisOptions::Opaque { raw } => {
            if raw.as_str().is_empty() {
                None
            } else {
                Some(raw.clone())
            }
        },
    }
}

/// Are all of these values JSON arrays?
pub open spec fn all_arrays(vs: Seq<JsonValue>) -> bool {
    forall|i: int| 0 <= i < vs.len() ==> (#[trigger] vs[i]) is Array
}

/// The shape an engine output document must have: an object whose
/// `headers` member is an array of strings and whose `rows` member is an
/// array of arrays.
pub open spec fn table_shape(v: JsonValue) -> bool {
    &&& v matches JsonValue::Object(ms)
    &&& obj_lookup(ms@, "headers"@) matches Some(JsonValue::Array(hs)) && all_text(hs@)
    &&& obj_lookup(ms@, "rows"@) matches Some(JsonValue::Array(rs)) && all_arrays(rs@)
}

/// How a table read out of a shaped document relates to it: headers by
/// their characters, rows by the very cell values.
pub open spec fn table_extract(v: JsonValue, t: ParsedTable) -> bool {
    &&& table_shape(v)
    &&& match v {
        JsonValue::Object(ms) => {
            &&& (obj_lookup(ms@, "headers"@) matches Some(JsonValue::Array(hs))
                && t.headers@.len() == hs@.len() && (forall|i: int|
                0 <= i < hs@.len() ==> #[trigger] t.headers@[i]@ == text_views(hs@)[i]))
            &&& (obj_lookup(ms@, "rows"@) matches Some(JsonValue::Array(rs)) && t.rows@.len()
                == rs@.len() && (forall|i: int|
                0 <= i < rs@.len() ==> (#[trigger] rs@[i] matches JsonValue::Array(vs)
                    && t.rows@[i] == vs)))
        },
        _ => false,
    }
}

/// Does a shaped document already satisfy the table invariant: every row
/// as wide as the header list, scalar cells only?
pub open spec fn shaped_table_valid(v: JsonValue) -> bool {
    match v {
        JsonValue::Object(ms) => match (obj_lookup(ms@, "headers"@), obj_lookup(ms@, "rows"@)) {
            (Some(JsonValue::Array(hs)), Some(JsonValue::Array(rs))) => forall|i: int|
                0 <= i < rs@.len() ==> (#[trigger] rs@[i] matches JsonValue::Array(vs) ==> (
                vs@.len() == hs@.len() && (forall|j: int|
                    0 <= j < vs@.len() ==> (#[trigger] vs@[j]).is_scalar()))),
            _ => false,
        },
        _ => false,
    }
}

/// Read a parsed document as a table, or refuse it when its shape is off.
pub fn json_to_table(v: JsonValue) -> (r: Option<ParsedTable>)
    ensures
        match r {
            Some(t) => table_extract(v, t),
            None => !table_shape(v),
        },
{
    let ms_all = match v {
        JsonValue::Object(m) => m,
        _ => {
            return None;
        },
    };
    let ghost gms = ms_all;
    proof {
        assert(v == JsonValue::Object(gms));
    }
    let mut ms = ms_all;
    let ghost ms0 = gms@;
    let hkey = String::from_str("headers");
    let rkey = String::from_str("rows");
    let hi = match find_member(&ms, &hkey) {
        Some(i) => i,
        None => {
            proof {
                assert(obj_lookup(ms0, "headers"@) is None);
                assert(!table_shape(v));
            }
            return None;
        },
    };
    let ri = match find_member(&ms, &rkey) {
        Some(i) => i,
        None => {
            proof {
                assert(obj_lookup(ms0, "rows"@) is None);
                assert(!table_shape(v));
            }
            return None;
        },
    };
    proof {
        reveal_strlit("headers");
        reveal_strlit("rows");
        assert("headers"@.len() == 7);
        assert("rows"@.len() == 4);
        assert(hi != ri);
    }
    let (hval, rval) = if hi < ri {
        let rm = ms.remove(ri);
        let hm = ms.remove(hi);
        (hm.value, rm.value)
    } else {
        let hm = ms.remove(hi);
        let rm = ms.remove(ri);
        (hm.value, rm.value)
    };
    proof {
        assert(obj_lookup(ms0, "headers"@) == Some(hval));
        assert(obj_lookup(ms0, "rows"@) == Some(rval));
    }
    let hcells = match hval {
        JsonValue::Array(cs) => cs,
        _ => {
            proof {
                assert(!table_shape(v));
            }
            return None;
        },
    };
    let rcells = match rval {
        JsonValue::Array(cs) => cs,
        _ => {
            proof {
                assert(!table_shape(v));
            }
            return None;
        },
    };
    let ghost ghv = hcells;
    let ghost grv = rcells;
    let mut headers: Vec<String> = Vec::new();
    let mut i: usize = 0;
    while i < hcells.len()
        invariant
            0 <= i <= hcells@.len(),
            headers@.len() == i,
            v == JsonValue::Object(gms),
            gms@ == ms0,
            obj_lookup(ms0, "headers"@) == Some(JsonValue::Array(ghv)),
            ghv == hcells,
            forall|k: int| 0 <= k < i ==> (#[trigger] hcells@[k]) is Text,
            forall|k: int| 0 <= k < i ==> #[trigger] headers@[k]@ == text_views(hcells@)[k],
        decreases hcells@.len() - i,
    {
        match &hcells[i] {
            JsonValue::Text(s) => {
                headers.push(s.clone());
            },
            _ => {
                proof {
                    assert(!all_text(hcells@));
                    assert(!table_shape(v));
                }
                return None;
            },
        }
        i = i + 1;
    }
    let mut rows: Vec<Vec<JsonValue>> = Vec::new();
    let ghost rc0 = rcells@;
    let mut rcells = rcells;
    while rcells.len() > 0
        invariant
            rows@.len() + rcells@.len() == rc0.len(),
            rcells@ == rc0.subrange(rows@.len() as int, rc0.len() as int),
            v == JsonValue::Object(gms),
            gms@ == ms0,
            obj_lookup(ms0, "rows"@) == Some(JsonValue::Array(grv)),
            grv@ == rc0,
            forall|k: int|
                0 <= k < rows@.len() ==> (#[trigger] rc0[k] matches JsonValue::Array(vs)
                    && rows@[k] == vs),
        decreases rcells@.len(),
    {
        let ghost p = rows@.len() as int;
        let cell = rcells.remove(0);
        proof {
            assert(cell == rc0[p]);
            assert(rcells@ =~= rc0.subrange(p + 1, rc0.len() as int));
        }
        match cell {
            JsonValue::Array(vs) => {
                rows.push(vs);
            },
            _ => {
                proof {
                    assert(!all_arrays(rc0));
                    assert(!table_shape(v));
                }
                return None;
            },
        }
    }
    let t = ParsedTable { headers, rows };
    proof {
        assert(all_text(hcells@));
        assert(all_arrays(rc0)) by {
            assert forall|k: int| 0 <= k < rc0.len() implies (#[trigger] rc0[k]) is Array by {
                assert(rc0[k] matches JsonValue::Array(vs) && rows@[k] == vs);
            }
        }
        assert(table_shape(v));
    }
    Some(t)
}

/// Parse the engine's output file as a table. An unparsable or wrongly
/// shaped text is a parse error carrying the raw text for diagnosis, never
/// a silent empty result.
pub fn parse_result_table(text: &str) -> (r: Result<ParsedTable, RunError>)
    ensures
        match json_doc_of(text@) {
            None => r matches Err(RunError::OutputParse { detail, raw }) && raw@ == text@,
            Some(v) => if table_shape(v) {
                r matches Ok(t) && table_extract(v, t)
            } else {
                r matches Err(RunError::OutputParse { detail, raw }) && raw@ == text@
            },
        },
{
    match parse_json(text) {
        Err(detail) => Err(
            RunError::OutputParse { detail, raw: String::from_str(text) },
        ),
        Ok(v) => match json_to_table(v) {
            Some(t) => Ok(t),
            None => Err(
                RunError::OutputParse {
                    detail: String::from_str("output is not a headers/rows table"),
                    raw: String::from_str(text),
                },
            ),
        },
    }
}

/// Parse and validate the engine's output in one step: either a fully
/// validated table or an error, never a partial result.
pub fn decode_engine_output(text: &str) -> (r: Result<ParsedTable, RunError>)
    ensures
        match json_doc_of(text@) {
            None => r matches Err(RunError::OutputParse { detail, raw }) && raw@ == text@,
            Some(v) => if table_shape(v) {
                if shaped_table_valid(v) {
                    r matches Ok(t) && table_extract(v, t) && table_valid(t)
                } else {
                    r matches Err(RunError::InvalidTable { .. })
                }
            } else {
                r matches Err(RunError::OutputParse { detail, raw }) && raw@ == text@
            },
        },
{
    let t = match parse_result_table(text) {
        Ok(t) => t,
        Err(e) => {
            return Err(e);
        },
    };
    let ghost doc = json_doc_of(text@);
    match t.validate() {
        Ok(()) => {
            proof {
                let v = doc->Some_0;
                lemma_extract_validity(v, t);
            }
            Ok(t)
        },
        Err(e) => {
            proof {
                let v = doc->Some_0;
                lemma_extract_validity(v, t);
            }
            Err(RunError::InvalidTable { violation: e })
        },
    }
}

/// A table read out of a shaped document is structurally valid exactly
/// when the document itself is.
proof fn lemma_extract_validity(v: JsonValue, t: ParsedTable)
    requires
        table_extract(v, t),
    ensures
        table_valid(t) <==> shaped_table_valid(v),
{
    match v {
        JsonValue::Object(ms) => {
            let hval = obj_lookup(ms@, "headers"@)->Some_0;
            let rval = obj_lookup(ms@, "rows"@)->Some_0;
            match (hval, rval) {
                (JsonValue::Array(hs), JsonValue::Array(rs)) => {
                    if table_valid(t) {
                        assert forall|i: int| 0 <= i < rs@.len() implies (#[trigger] rs@[i] matches
                        JsonValue::Array(vs) ==> (vs@.len() == hs@.len() && (forall|j: int|
                            0 <= j < vs@.len() ==> (#[trigger] vs@[j]).is_scalar()))) by {
                            assert(rs@[i] matches JsonValue::Array(vs) && t.rows@[i] == vs);
                            assert(crate::table::row_ok(t.rows@[i]@, t.headers@.len() as int));
                        }
                    }
                    if shaped_table_valid(v) {
                        assert forall|i: int| 0 <= i < t.rows@.len() implies crate::table::row_ok(
                            #[trigger] t.rows@[i]@,
                            t.headers@.len() as int,
                        ) by {
                            assert(rs@[i] matches JsonValue::Array(vs) && t.rows@[i] == vs);
                        }
                    }
                },
                _ => {},
            }
        },
        _ => {},
    }
}

} // verus!
