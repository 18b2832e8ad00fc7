//! Rendering readings in the line-oriented exposition format.
//!
//! The body names two gauges and gives each its milli-value as a plain
//! integer.  The metric names say watts while the values are the source
//! kilowatt readings times 1000; downstream consumers depend on that scale,
//! so it is kept as it is.

use vstd::prelude::*;

use crate::fetch::FetchOutcome;
use crate::reading::Reading;

verus! {

/// The digit character of `d`.
pub open spec fn spec_digit_char(d: nat) -> char {
    if d == 0 {
        '0'
    } else if d == 1 {
        '1'
    } else if d == 2 {
        '2'
    } else if d == 3 {
        '3'
    } else if d == 4 {
        '4'
    } else if d == 5 {
        '5'
    } else if d == 6 {
        '6'
    } else if d == 7 {
        '7'
    } else if d == 8 {
        '8'
    } else {
        '9'
    }
}

/// The decimal digits of `n`, most significant first, no leading zeros
/// (a lone zero for zero).
pub open spec fn spec_u64_dec(n: nat) -> Seq<char>
    decreases n,
{
    if n < 10 {
        seq![spec_digit_char(n)]
    } else {
        spec_u64_dec(n / 10) + seq![spec_digit_char(n % 10)]
    }
}

/// The decimal rendering of `n`, with a leading `'-'` when negative.
pub open spec fn spec_i64_dec(n: int) -> Seq<char> {
    if n < 0 {
        seq!['-'] + spec_u64_dec((-n) as nat)
    } else {
        spec_u64_dec(n as nat)
    }
}

/// The digit character of `d`, as a string.
fn digit_str(d: u64) -> (r: &'static str)
    requires
        d <= 9,
    ensures
        r@ == seq![spec_digit_char(d as nat)],
{
    proof {
        reveal_strlit("0");
        reveal_strlit("1");
        reveal_strlit("2");
        reveal_strlit("3");
        reveal_strlit("4");
        reveal_strlit("5");
        reveal_strlit("6");
        reveal_strlit("7");
        reveal_strlit("8");
        reveal_strlit("9");
    }
    let r: &'static str = if d == 0 {
        "0"
    } else if d == 1 {
        "1"
    } else if d == 2 {
        "2"
    } else if d == 3 {
        "3"
    } else if d == 4 {
        "4"
    } else if d == 5 {
        "5"
    } else if d == 6 {
        "6"
    } else if d == 7 {
        "7"
    } else if d == 8 {
        "8"
    } else {
        "9"
    };
    proof {
        assert(r@ =~= seq![spec_digit_char(d as nat)]);
    }
    r
}

/// Append the decimal digits of `n`.
fn push_u64_dec(out: &mut String, n: u64)
    ensures
        final(out)@ == old(out)@ + spec_u64_dec(n as nat),
    decreases n,
{
    if n >= 10 {
        push_u64_dec(out, n / 10);
        out.append(digit_str(n % 10));
        proof {
            assert(final(out)@ =~= old(out)@ + spec_u64_dec(n as nat));
        }
    } else {
        out.append(digit_str(n));
        proof {
            assert(final(out)@ =~= old(out)@ + spec_u64_dec(n as nat));
        }
    }
}

/// Append the decimal rendering of `n`, sign included.
fn push_i64_dec(out: &mut String, n: i64)
    ensures
        final(out)@ == old(out)@ + spec_i64_dec(n as int),
{
    if n < 0 {
        out.append("-");
        proof {
            reveal_strlit("-");
        }
        let mag: u64 = ((-(n + 1)) as u64) + 1;
        push_u64_dec(out, mag);
        proof {
            assert(mag as nat == (-(n as int)) as nat);
            assert(final(out)@ =~= old(out)@ + spec_i64_dec(n as int));
        }
    } else {
        push_u64_dec(out, n as u64);
    }
}

/// The exposition body for the two milli-values: two gauges, each with its
/// HELP and TYPE line, joined by single line breaks, no trailing break.
pub open spec fn spec_exposition(g: int, c: int) -> Seq<char> {
    "# HELP power_solar_generation_watts An amount of solar power generation in watts\n# TYPE power_solar_generation_watts gauge\npower_solar_generation_watts "@
        + spec_i64_dec(g)
        + "\n# HELP power_consumption_watts An amount of power consumption in watts\n# TYPE power_consumption_watts gauge\npower_consumption_watts "@
        + spec_i64_dec(c)
}

/// The exposition body for a reading.
pub fn render_metrics(r: &Reading) -> (s: String)
    ensures
        s@ == spec_exposition(r.generation as int, r.consumption as int),
{
    let mut out = String::new();
    out.append(
        "# HELP power_solar_generation_watts An amount of solar power generation in watts\n# TYPE power_solar_generation_watts gauge\npower_solar_generation_watts ",
    );
    push_i64_dec(&mut out, r.generation);
    out.append(
        "\n# HELP power_consumption_watts An amount of power consumption in watts\n# TYPE power_consumption_watts gauge\npower_consumption_watts ",
    );
    push_i64_dec(&mut out, r.consumption);
    proof {
        assert(out@ =~= spec_exposition(r.generation as int, r.consumption as int));
    }
    out
}

/// The server-level mapping of an outcome: success serves the exposition
/// body, while a transport failure and exhausted retries each serve a short
/// generic message under a failure status (the richer cause stays in the
/// diagnostic log).
pub fn respond(outcome: &FetchOutcome) -> (r: (bool, String))
    ensures
        match *outcome {
            FetchOutcome::Success(rd) => r.0 && r.1@ == spec_exposition(
                rd.generation as int,
                rd.consumption as int,
            ),
            FetchOutcome::FetchFailed(_) => !r.0 && r.1@ == "failed to fetch metrics"@,
            FetchOutcome::ParseExhausted => !r.0 && r.1@ == "failed to parse metrics"@,
        },
{
    match outcome {
        FetchOutcome::Success(rd) => (true, render_metrics(rd)),
        FetchOutcome::FetchFailed(_) => (false, String::from_str("failed to fetch metrics")),
        FetchOutcome::ParseExhausted => (false, String::from_str("failed to parse metrics")),
    }
}

} // verus!
