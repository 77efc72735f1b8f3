//! Analysis options: the caller hands them over as a JSON text, typed here
//! defensively. A payload that matches neither recognized shape is kept
//! verbatim as an opaque option and forwarded to the engine, which is the
//! final arbiter of option validity.

use vstd::prelude::*;

use crate::json::{
    JsonMember, JsonValue, all_text, find_member, json_doc_of, obj_lookup, parse_json, text_views,
    texts_of_array,
};
use crate::project::{NumericDataset, names_view};
use crate::text::is_blank;

verus! {

/// A typed analysis option payload, with an opaque fallback for anything
/// else.
#[derive(Debug, PartialEq)]
pub enum AnalysisOptions {
    /// A correlation request: method list, alternative hypothesis, deletion
    /// policy, and an optional explicit column order.
    Correlation { methods: Vec<String>, alt: String, use_policy: String, columns: Vec<String> },
    /// A descriptive-statistics request: an ordering directive and an
    /// optional explicit column order.
    Descriptive { order: String, columns: Vec<String> },
    /// An unrecognized payload, kept verbatim.
    Opaque { raw: String },
}

/// Does an optional `columns` member carry an array of strings (or stay
/// away entirely)?
pub open spec fn opt_columns_ok(ms: Seq<JsonMember>) -> bool {
    match obj_lookup(ms, "columns"@) {
        None => true,
        Some(v) => v matches JsonValue::Array(cs) && all_text(cs@),
    }
}

/// The column names of an optional `columns` member, empty when absent.
pub open spec fn columns_of(ms: Seq<JsonMember>) -> Seq<Seq<char>> {
    match obj_lookup(ms, "columns"@) {
        Some(JsonValue::Array(cs)) => text_views(cs@),
        _ => Seq::empty(),
    }
}

/// The characters of a string-valued member, empty when it is no string.
pub open spec fn member_text(ms: Seq<JsonMember>, key: Seq<char>) -> Seq<char> {
    match obj_lookup(ms, key) {
        Some(JsonValue::Text(s)) => s@,
        _ => Seq::empty(),
    }
}

/// The names of a string-array-valued member.
pub open spec fn member_texts(ms: Seq<JsonMember>, key: Seq<char>) -> Seq<Seq<char>> {
    match obj_lookup(ms, key) {
        Some(JsonValue::Array(cs)) => text_views(cs@),
        _ => Seq::empty(),
    }
}

/// The shape a correlation option payload must have.
pub open spec fn corr_shape(v: JsonValue) -> bool {
    &&& v matches JsonValue::Object(ms)
    &&& obj_lookup(ms@, "methods"@) matches Some(JsonValue::Array(mm)) && all_text(mm@)
    &&& obj_lookup(ms@, "alt"@) matches Some(JsonValue::Text(_))
    &&& obj_lookup(ms@, "use"@) matches Some(JsonValue::Text(_))
    &&& opt_columns_ok(ms@)
}

/// The shape a descriptive option payload must have.
pub open spec fn desc_shape(v: JsonValue) -> bool {
    &&& v matches JsonValue::Object(ms)
    &&& obj_lookup(ms@, "order"@) matches Some(JsonValue::Text(_))
    &&& opt_columns_ok(ms@)
}

/// What typing an option text must yield: a correlation payload by shape,
/// else a descriptive one, else the text verbatim.
pub open spec fn options_post(raw: Seq<char>, o: AnalysisOptions) -> bool {
    match json_doc_of(raw) {
        None => o matches AnalysisOptions::Opaque { raw: r } && r@ == raw,
        Some(v) => if corr_shape(v) {
            match v {
                JsonValue::Object(ms) => o matches AnalysisOptions::Correlation {
                    methods,
                    alt,
                    use_policy,
                    columns,
                } && names_view(methods@) == member_texts(ms@, "methods"@) && alt@ == member_text(
                    ms@,
                    "alt"@,
                ) && use_policy@ == member_text(ms@, "use"@) && names_view(columns@) == columns_of(
                    ms@,
                ),
                _ => false,
            }
        } else if desc_shape(v) {
            match v {
                JsonValue::Object(ms) => o matches AnalysisOptions::Descriptive { order, columns }
                    && order@ == member_text(ms@, "order"@) && names_view(columns@) == columns_of(
                    ms@,
                ),
                _ => false,
            }
        } else {
            o matches AnalysisOptions::Opaque { raw: r } && r@ == raw
        },
    }
}

/// Read the optional `columns` member of an object. `Err(())` means it is
/// there but not an array of strings.
fn read_columns(ms: &Vec<JsonMember>) -> (r: Result<Vec<String>, ()>)
    ensures
        match r {
            Ok(cs) => opt_columns_ok(ms@) && names_view(cs@) == columns_of(ms@),
            Err(()) => !opt_columns_ok(ms@),
        },
{
    let key = String::from_str("columns");
    match find_member(ms, &key) {
        None => {
            let r: Vec<String> = Vec::new();
            proof {
                assert(names_view(r@) =~= columns_of(ms@));
            }
            Ok(r)
        },
        Some(i) => match &ms[i].value {
            JsonValue::Array(cs) => match texts_of_array(cs) {
                Some(ss) => {
                    proof {
                        assert(names_view(ss@) =~= columns_of(ms@));
                    }
                    Ok(ss)
                },
                None => Err(()),
            },
            _ => Err(()),
        },
    }
}

/// Type an option text. Unrecognized or unparsable payloads come back
/// verbatim as the opaque variant; nothing fails here.
pub fn parse_analysis_options(raw: &str) -> (o: AnalysisOptions)
    ensures
        options_post(raw@, o),
{
    let parsed = parse_json(raw);
    let v = match parsed {
        Ok(v) => v,
        Err(_) => {
            return AnalysisOptions::Opaque { raw: String::from_str(raw) };
        },
    };
    match &v {
        JsonValue::Object(ms) => {
            let columns = read_columns(ms);
            // correlation shape first, as the narrower of the two
            let mkey = String::from_str("methods");
            let akey = String::from_str("alt");
            let ukey = String::from_str("use");
            let methods: Option<Vec<String>> = match find_member(ms, &mkey) {
                Some(i) => match &ms[i].value {
                    JsonValue::Array(cs) => texts_of_array(cs),
                    _ => None,
                },
                None => None,
            };
            let alt: Option<String> = match find_member(ms, &akey) {
                Some(i) => match &ms[i].value {
                    JsonValue::Text(s) => Some(s.clone()),
                    _ => None,
                },
                None => None,
            };
            let use_policy: Option<String> = match find_member(ms, &ukey) {
                Some(i) => match &ms[i].value {
                    JsonValue::Text(s) => Some(s.clone()),
                    _ => None,
                },
                None => None,
            };
            let columns = match columns {
                Ok(cs) => cs,
                Err(()) => {
                    proof {
                        assert(!corr_shape(v));
                        assert(!desc_shape(v));
                    }
                    return AnalysisOptions::Opaque { raw: String::from_str(raw) };
                },
            };
            if let (Some(methods), Some(alt), Some(use_policy)) = (methods, alt, use_policy) {
                proof {
                    assert(corr_shape(v));
                    assert(names_view(methods@) =~= member_texts(ms@, "methods"@));
                }
                return AnalysisOptions::Correlation { methods, alt, use_policy, columns };
            }
            let okey = String::from_str("order");
            let order: Option<String> = match find_member(ms, &okey) {
                Some(i) => match &ms[i].value {
                    JsonValue::Text(s) => Some(s.clone()),
                    _ => None,
                },
                None => None,
            };
            if let Some(order) = order {
                proof {
                    assert(desc_shape(v));
                }
                return AnalysisOptions::Descriptive { order, columns };
            }
            proof {
                assert(!corr_shape(v));
                assert(!desc_shape(v));
            }
            AnalysisOptions::Opaque { raw: String::from_str(raw) }
        },
        _ => AnalysisOptions::Opaque { raw: String::from_str(raw) },
    }
}

/// The columns an option payload pins, empty when it pins none.
pub open spec fn options_columns(o: AnalysisOptions) -> Seq<String> {
    match o {
        AnalysisOptions::Correlation { columns, .. } => columns@,
        AnalysisOptions::Descriptive { columns, .. } => columns@,
        AnalysisOptions::Opaque { .. } => Seq::empty(),
    }
}

/// The names of a dataset's columns, in their insertion order.
pub open spec fn ds_names(ds: NumericDataset) -> Seq<Seq<char>> {
    Seq::new(ds.cols@.len(), |i: int| ds.cols@[i].name@)
}

/// The column transfer order of one engine call: the explicit column list
/// of the options when it names any, else the dataset's own order.
pub fn column_order(ds: &NumericDataset, opts: &AnalysisOptions) -> (r: Vec<String>)
    ensures
        names_view(r@) == if options_columns(*opts).len() > 0 {
            names_view(options_columns(*opts))
        } else {
            ds_names(*ds)
        },
{
    let explicit: Option<&Vec<String>> = match opts {
        AnalysisOptions::Correlation { columns, .. } => if columns.len() > 0 {
            Some(columns)
        } else {
            None
        },
        AnalysisOptions::Descriptive { columns, .. } => if columns.len() > 0 {
            Some(columns)
        } else {
            None
        },
        AnalysisOptions::Opaque { .. } => None,
    };
    match explicit {
        Some(cols) => {
            let mut out: Vec<String> = Vec::new();
            let mut i: usize = 0;
            while i < cols.len()
                invariant
                    0 <= i <= cols@.len(),
                    out@.len() == i,
                    forall|k: int| 0 <= k < i ==> #[trigger] out@[k]@ == cols@[k]@,
                decreases cols@.len() - i,
            {
                out.push(cols[i].clone());
                i = i + 1;
            }
            proof {
                assert(names_view(out@) =~= names_view(cols@));
            }
            out
        },
        None => {
            let mut out: Vec<String> = Vec::new();
            let mut i: usize = 0;
            while i < ds.cols.len()
                invariant
                    0 <= i <= ds.cols@.len(),
                    out@.len() == i,
                    forall|k: int| 0 <= k < i ==> #[trigger] out@[k]@ == ds.cols@[k].name@,
                decreases ds.cols@.len() - i,
            {
                out.push(ds.cols[i].name.clone());
                i = i + 1;
            }
            proof {
                assert(names_view(out@) =~= ds_names(*ds));
            }
            out
        },
    }
}

} // verus!
