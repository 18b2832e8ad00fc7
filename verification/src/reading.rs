//! Reading both fields of a page body.
//!
//! This composes the marker scan with the numeric conversion: locate the two
//! raw decimal fragments, convert each to its milli-value, and report which
//! field failed when one did.  The generation field is scanned and converted
//! before the consumption field, so when both fail the error names the
//! generation field.

use vstd::prelude::*;

use crate::number;
use crate::scan;

verus! {

/// One pair of readings, in milli-units: the source page's fractional
/// kilowatt values times 1000, rounded half away from zero.
#[derive(Clone, Copy, PartialEq, Eq, Structural, Debug)]
pub struct Reading {
    pub generation: i64,
    pub consumption: i64,
}

/// The field a failure speaks of.
#[derive(Clone, Copy, PartialEq, Eq, Structural, Debug)]
pub enum Field {
    Generation,
    Consumption,
}

/// Why a page body yielded no reading.
#[derive(Clone, Copy, PartialEq, Eq, Structural, Debug)]
pub enum ParseError {
    /// The field's marker pair stands in no line of the body.
    FieldMissing(Field),
    /// The field's raw text is not a decimal the library accepts, or its
    /// milli-value does not fit an `i64`.
    NumberUnparseable(Field),
}

/// What reading a page body yields: both milli-values, or the first failure
/// in scan order (generation before consumption, absence before conversion).
pub open spec fn spec_read_values(body: Seq<char>) -> Result<Reading, ParseError> {
    let g = scan::scan_field_spec(body, scan::gen_start_marker(), scan::gen_end_marker());
    let c = scan::scan_field_spec(body, scan::cons_start_marker(), scan::cons_end_marker());
    if g is None {
        Err(ParseError::FieldMissing(Field::Generation))
    } else if c is None {
        Err(ParseError::FieldMissing(Field::Consumption))
    } else {
        match (number::spec_milli(g->0), number::spec_milli(c->0)) {
            (Some(gv), Some(cv)) => Ok(
                Reading { generation: gv as i64, consumption: cv as i64 },
            ),
            (None, _) => Err(ParseError::NumberUnparseable(Field::Generation)),
            (Some(_), None) => Err(ParseError::NumberUnparseable(Field::Consumption)),
        }
    }
}

/// Both readings of a page body, or the failure that stopped them.
pub fn read_values(body: &str) -> (r: Result<Reading, ParseError>)
    ensures
        r == spec_read_values(body@),
{
    let lines = scan::split_lines(body);
    let g = scan::scan_lines_exec(&lines, "<!-- ここから発電量表示 -->", "<!-- ここまで発電量表示 -->");
    let c = scan::scan_lines_exec(&lines, "<!-- ここから消費量表示 -->", "<!-- ここまで消費量表示 -->");
    let g = match g {
        Some(g) => g,
        None => {
            return Err(ParseError::FieldMissing(Field::Generation));
        },
    };
    let c = match c {
        Some(c) => c,
        None => {
            return Err(ParseError::FieldMissing(Field::Consumption));
        },
    };
    match (number::parse_milli(g.as_str()), number::parse_milli(c.as_str())) {
        (Some(gv), Some(cv)) => Ok(Reading { generation: gv, consumption: cv }),
        (None, _) => Err(ParseError::NumberUnparseable(Field::Generation)),
        (Some(_), None) => Err(ParseError::NumberUnparseable(Field::Consumption)),
    }
}

/// The readings as a plain pair, with every failure collapsed to `None`.
pub open spec fn spec_parse(body: Seq<char>) -> Option<(int, int)> {
    match spec_read_values(body) {
        Ok(r) => Some((r.generation as int, r.consumption as int)),
        Err(_) => None,
    }
}

/// Both milli-values of a page body, generation first, or `None` when a
/// field is absent or its raw text does not convert.
pub fn parse(body: String) -> (r: Option<(i64, i64)>)
    ensures
        match r {
            Some(v) => spec_parse(body@) == Some((v.0 as int, v.1 as int)),
            None => spec_parse(body@) is None,
        },
{
    match read_values(body.as_str()) {
        Ok(rd) => Some((rd.generation, rd.consumption)),
        Err(_) => None,
    }
}

/// When both marker pairs are found and both raw texts convert, reading
/// succeeds with exactly the two milli-values.
pub proof fn lemma_read_values_success(
    body: Seq<char>,
    g: Seq<char>,
    c: Seq<char>,
    gv: int,
    cv: int,
)
    requires
        scan::scan_field_spec(body, scan::gen_start_marker(), scan::gen_end_marker()) == Some(g),
        scan::scan_field_spec(body, scan::cons_start_marker(), scan::cons_end_marker()) == Some(c),
        number::spec_milli(g) == Some(gv),
        number::spec_milli(c) == Some(cv),
    ensures
        spec_read_values(body) == Ok::<Reading, ParseError>(
            Reading { generation: gv as i64, consumption: cv as i64 },
        ),
{
}

/// For a payload holding both marker pairs with convertible decimal
/// fragments, the operation succeeds and each reading is its fragment's
/// value times 1000, rounded to the nearest integer with ties away from
/// zero.
pub proof fn lemma_read_values_rounds(body: Seq<char>, g: Seq<char>, c: Seq<char>)
    requires
        scan::scan_field_spec(body, scan::gen_start_marker(), scan::gen_end_marker()) == Some(g),
        scan::scan_field_spec(body, scan::cons_start_marker(), scan::cons_end_marker()) == Some(c),
        number::spec_milli(g) is Some,
        number::spec_milli(c) is Some,
    ensures
        spec_read_values(body) == Ok::<Reading, ParseError>(
            Reading {
                generation: number::rounded_milli(g) as i64,
                consumption: number::rounded_milli(c) as i64,
            },
        ),
{
    number::lemma_milli_rounds(g);
    number::lemma_milli_rounds(c);
}

/// When either marker pair stands in no line, reading fails with a
/// missing-field error, never anything else.
pub proof fn lemma_read_values_missing(body: Seq<char>)
    requires
        scan::scan_field_spec(body, scan::gen_start_marker(), scan::gen_end_marker()) is None
            || scan::scan_field_spec(body, scan::cons_start_marker(), scan::cons_end_marker())
            is None,
    ensures
        spec_read_values(body) == Err::<Reading, ParseError>(
            ParseError::FieldMissing(
                if scan::scan_field_spec(
                    body,
                    scan::gen_start_marker(),
                    scan::gen_end_marker(),
                ) is None {
                    Field::Generation
                } else {
                    Field::Consumption
                },
            ),
        ),
{
}

} // verus!
