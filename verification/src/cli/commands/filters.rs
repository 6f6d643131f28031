//! Command-line filter values: dates and operation lists.
use crate::engine::time::{date_to_millis, midnight_millis, parse_ymd, spec_parse_ymd};
use crate::error::DeltaLensError;
use crate::text::{chars_of, concat, spec_split, spec_trim, split_char, string_from_chars, trim};
use vstd::prelude::*;

verus! {

/// The message of a date that does not parse.
pub open spec fn bad_date_message(m: Seq<char>) -> Seq<char> {
    "Invalid date format (expected YYYY-MM-DD): "@ + m
}

/// The time bound that a `YYYY-MM-DD` date gives: the first millisecond of
/// the day, or with `end_of_day` its last millisecond; the parse error's
/// message when the date does not parse.
pub open spec fn spec_date_bound(s: Seq<char>, end_of_day: bool) -> Result<i64, Seq<char>> {
    match spec_parse_ymd(s) {
        Ok(d) => {
            let start = midnight_millis(d.0 as int, d.1 as int, d.2 as int);
            Ok(
                (if end_of_day {
                    start + 86_399_999
                } else {
                    start
                }) as i64,
            )
        },
        Err(m) => Err(m),
    }
}

/// The time bound of an optional date.
pub fn date_bound(s: &Option<String>, end_of_day: bool) -> (r: Result<Option<i64>, DeltaLensError>)
    ensures
        match s {
            None => r == Ok::<Option<i64>, DeltaLensError>(None),
            Some(text) => match spec_date_bound(text@, end_of_day) {
                Ok(t) => r == Ok::<Option<i64>, DeltaLensError>(Some(t)),
                Err(m) => r matches Err(DeltaLensError::Storage(msg)) && msg@ == bad_date_message(m),
            },
        },
{
    match s {
        None => Ok(None),
        Some(text) => match parse_ymd(text.as_str()) {
            Ok((y, m, d)) => {
                let start = date_to_millis(y, m, d);
                if end_of_day {
                    Ok(Some(start + 86_399_999))
                } else {
                    Ok(Some(start))
                }
            },
            Err(m) => Err(DeltaLensError::Storage(concat("Invalid date format (expected YYYY-MM-DD): ", m.as_str()))),
        },
    }
}

/// The operation names of a comma-separated list, each trimmed.
pub open spec fn spec_op_list(s: Seq<char>) -> Seq<Seq<char>> {
    spec_split(s, ',').map_values(|p: Seq<char>| spec_trim(p))
}

/// The operation names of an optional comma-separated list.
pub fn op_list(op: &Option<String>) -> (r: Option<Vec<String>>)
    ensures
        match op {
            None => r is None,
            Some(s) => r matches Some(v) && v@.map_values(|x: String| x@) == spec_op_list(s@),
        },
{
    match op {
        None => None,
        Some(s) => {
            let pieces = split_char(&chars_of(s.as_str()), ',');
            let ghost pv = pieces@.map_values(|v: Vec<char>| v@);
            let mut out: Vec<String> = Vec::new();
            let mut i: usize = 0;
            while i < pieces.len()
                invariant
                    i <= pieces@.len(),
                    pv == pieces@.map_values(|v: Vec<char>| v@),
                    out@.map_values(|x: String| x@) == pv.take(i as int).map_values(|p: Seq<char>| spec_trim(p)),
                decreases pieces@.len() - i,
            {
                let t = trim(&pieces[i]);
                let ghost before = out@.map_values(|x: String| x@);
                out.push(string_from_chars(&t));
                assert(out@.map_values(|x: String| x@) =~= before.push(spec_trim(pv[i as int])));
                assert(pv.take(i + 1).map_values(|p: Seq<char>| spec_trim(p)) =~= pv.take(i as int).map_values(
                    |p: Seq<char>| spec_trim(p),
                ).push(spec_trim(pv[i as int])));
                i += 1;
            }
            assert(pv.take(i as int) =~= pv);
            Some(out)
        },
    }
}

} // verus!
