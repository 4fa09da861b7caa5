//! The per-line pipeline: decode, filter, render — or apply the
//! strict/lenient pass-through policy when the line does not decode.

use vstd::prelude::*;
use crate::filters::{Filters, FiltersV, spec_matches};
use crate::json::{spec_parse_json, parse_json};
use crate::record::{spec_decode_record, decode_record};
use crate::render::spec_format;
use crate::text::str_to_chars;

verus! {

broadcast use vstd::seq::group_seq_axioms;

/// What one input line becomes: `None` for a suppressed line, otherwise the
/// text to emit. A line that fails JSON or schema decode passes through
/// unchanged unless the filter is strict; a decoded record is emitted,
/// rendered, exactly when the host filter lets it pass.
pub open spec fn spec_process_line(
    line: Seq<char>,
    fv: FiltersV,
    color: bool,
    width: Option<u16>,
) -> Option<Seq<char>> {
    let decoded = match spec_parse_json(line) {
        None => None,
        Some(v) => spec_decode_record(v),
    };
    match decoded {
        None => if fv.strict {
            None
        } else {
            Some(line)
        },
        Some(rv) => if spec_matches(fv, rv) {
            Some(spec_format(rv, color, width))
        } else {
            None
        },
    }
}

/// Process one input line.
pub fn process_line(line: &str, filters: &Filters, color: bool, width: Option<u16>) -> (r: Option<
    String,
>)
    ensures
        match r {
            Some(out) => spec_process_line(line@, filters@, color, width) == Some(out@),
            None => spec_process_line(line@, filters@, color, width) is None,
        },
{
    let chars = str_to_chars(line);
    let record = match parse_json(&chars) {
        None => {
            if filters.is_strict() {
                return None;
            } else {
                return Some(String::from_str(line));
            }
        },
        Some(doc) => match decode_record(&doc) {
            None => {
                if filters.is_strict() {
                    return None;
                } else {
                    return Some(String::from_str(line));
                }
            },
            Some(rec) => rec,
        },
    };
    if filters.matches(&record) {
        Some(record.format(color, width))
    } else {
        None
    }
}

/// A line that fails JSON or schema decode is suppressed under a strict
/// filter and emitted byte for byte unchanged under a lenient one.
pub proof fn lemma_pass_through_policy(
    line: Seq<char>,
    fv: FiltersV,
    color: bool,
    width: Option<u16>,
)
    requires
        match spec_parse_json(line) {
            None => true,
            Some(v) => spec_decode_record(v) is None,
        },
    ensures
        fv.strict ==> spec_process_line(line, fv, color, width) is None,
        !fv.strict ==> spec_process_line(line, fv, color, width) == Some(line),
{
}

} // verus!
