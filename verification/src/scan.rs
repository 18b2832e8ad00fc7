//! Locating marker-delimited fields inside a page body.
//!
//! The page is scanned line by line (a line break is `'\n'`).  A field is
//! present when some line contains the field's start marker and, later in the
//! same line, its end marker; the field's raw text is what stands strictly
//! between the two markers.  A start marker whose end marker only appears on
//! a later line does not yield the field.

use vstd::prelude::*;

verus! {

/// `pat` occurs in `s` starting at position `i`.
pub open spec fn match_at(s: Seq<char>, pat: Seq<char>, i: int) -> bool {
    &&& 0 <= i
    &&& i + pat.len() <= s.len()
    &&& forall|j: int| 0 <= j < pat.len() ==> s[i + j] == pat[j]
}

/// The first position at or after `from` where `pat` occurs in `s`, if any.
pub open spec fn first_match_from(s: Seq<char>, pat: Seq<char>, from: nat) -> Option<nat>
    decreases s.len() - from,
{
    if from + pat.len() > s.len() {
        None
    } else if match_at(s, pat, from as int) {
        Some(from)
    } else {
        first_match_from(s, pat, (from + 1) as nat)
    }
}

/// `first_match_from` returns the first occurrence at or after `from`,
/// and `None` exactly when there is none.
pub proof fn lemma_first_match_from(s: Seq<char>, pat: Seq<char>, from: nat)
    ensures
        match first_match_from(s, pat, from) {
            Some(i) => {
                &&& from <= i
                &&& match_at(s, pat, i as int)
                &&& forall|j: int| from <= j < i ==> !match_at(s, pat, j)
            },
            None => forall|j: int| from <= j ==> !match_at(s, pat, j),
        },
    decreases s.len() - from,
{
    if from + pat.len() > s.len() {
    } else if match_at(s, pat, from as int) {
    } else {
        lemma_first_match_from(s, pat, (from + 1) as nat);
    }
}

/// Whether the characters of `pat` stand in `s` at position `i`.
fn match_at_exec(s: &str, n: usize, pat: &str, m: usize, i: usize) -> (r: bool)
    requires
        n == s@.len(),
        m == pat@.len(),
        i + m <= n,
    ensures
        r == match_at(s@, pat@, i as int),
{
    let mut j: usize = 0;
    while j < m
        invariant
            n == s@.len(),
            m == pat@.len(),
            i + m <= n,
            j <= m,
            forall|k: int| 0 <= k < j ==> s@[i + k] == pat@[k],
        decreases m - j,
    {
        let a = s.get_char(i + j);
        let b = pat.get_char(j);
        if a != b {
            return false;
        }
        j += 1;
    }
    true
}

/// The first occurrence of `pat` in `s` at or after `from`, if any.
pub fn find_from(s: &str, n: usize, pat: &str, m: usize, from: usize) -> (r: Option<usize>)
    requires
        n == s@.len(),
        m == pat@.len(),
        from <= n,
    ensures
        match r {
            Some(i) => first_match_from(s@, pat@, from as nat) == Some(i as nat),
            None => first_match_from(s@, pat@, from as nat) is None,
        },
{
    if m > n || from > n - m {
        return None;
    }
    let mut i: usize = from;
    while i <= n - m
        invariant
            n == s@.len(),
            m == pat@.len(),
            m <= n,
            from <= i,
            i <= n - m + 1,
            first_match_from(s@, pat@, from as nat) == first_match_from(s@, pat@, i as nat),
        decreases n - i,
    {
        if match_at_exec(s, n, pat, m, i) {
            return Some(i);
        }
        i += 1;
    }
    None
}

/// The lines of `s`: maximal stretches between `'\n'` breaks.  A body with
/// no break is one line; each break starts a further (possibly empty) line.
pub open spec fn spec_lines(s: Seq<char>) -> Seq<Seq<char>>
    decreases s.len(),
{
    if s.len() == 0 {
        seq![Seq::<char>::empty()]
    } else if s[0] == '\n' {
        seq![Seq::<char>::empty()] + spec_lines(s.skip(1))
    } else {
        let rest = spec_lines(s.skip(1));
        seq![seq![s[0]] + rest[0]] + rest.skip(1)
    }
}

/// A body free of line breaks is a single line.
pub proof fn lemma_lines_no_break(s: Seq<char>)
    requires
        forall|k: int| 0 <= k < s.len() ==> s[k] != '\n',
    ensures
        spec_lines(s) =~~= seq![s],
    decreases s.len(),
{
    if s.len() == 0 {
        assert(spec_lines(s) =~~= seq![s]);
    } else {
        lemma_lines_no_break(s.skip(1));
        assert(seq![s[0]] + s.skip(1) =~= s);
        assert(spec_lines(s) =~~= seq![s]);
    }
}

/// Splitting at the first line break: the part before it is the first line,
/// and the part after it supplies the remaining lines.
pub proof fn lemma_lines_split_first(s: Seq<char>, i: int)
    requires
        0 <= i < s.len(),
        s[i] == '\n',
        forall|k: int| 0 <= k < i ==> s[k] != '\n',
    ensures
        spec_lines(s) =~~= seq![s.take(i)] + spec_lines(s.skip(i + 1)),
    decreases i,
{
    if i == 0 {
        assert(s.take(0) =~= Seq::<char>::empty());
        assert(spec_lines(s) =~~= seq![s.take(0)] + spec_lines(s.skip(1)));
    } else {
        lemma_lines_split_first(s.skip(1), i - 1);
        assert(s.skip(1).skip(i) =~= s.skip(i + 1));
        assert(s.skip(1).take(i - 1) =~= s.take(i).skip(1));
        assert(seq![s[0]] + s.take(i).skip(1) =~= s.take(i));
        assert(spec_lines(s) =~~= seq![s.take(i)] + spec_lines(s.skip(i + 1)));
    }
}

/// The lines of `s`, as owned strings.
pub fn split_lines(s: &str) -> (r: Vec<String>)
    ensures
        r.deep_view() == spec_lines(s@),
{
    let n = s.unicode_len();
    let mut out: Vec<String> = Vec::new();
    let mut start: usize = 0;
    let mut i: usize = 0;
    proof {
        assert(s@.skip(0) =~= s@);
        assert(spec_lines(s@) =~~= out.deep_view() + spec_lines(s@.skip(0)));
    }
    while i < n
        invariant
            n == s@.len(),
            start <= i <= n,
            forall|k: int| start <= k < i ==> s@[k] != '\n',
            spec_lines(s@) =~~= out.deep_view() + spec_lines(s@.skip(start as int)),
        decreases n - i,
    {
        if s.get_char(i) == '\n' {
            let line = s.substring_char(start, i).to_owned();
            proof {
                let tail = s@.skip(start as int);
                lemma_lines_split_first(tail, i - start);
                assert(tail.take(i - start) =~= s@.subrange(start as int, i as int));
                assert(tail.skip(i - start + 1) =~= s@.skip(i + 1));
            }
            out.push(line);
            proof {
                assert(spec_lines(s@) =~~= out.deep_view() + spec_lines(s@.skip(i + 1)));
            }
            start = i + 1;
        }
        i += 1;
    }
    let last = s.substring_char(start, n).to_owned();
    proof {
        let tail = s@.skip(start as int);
        lemma_lines_no_break(tail);
    }
    out.push(last);
    proof {
        assert(out.deep_view() =~~= spec_lines(s@));
    }
    out
}

/// The raw text a single line yields for a marker pair: what stands strictly
/// between the first occurrence of the start marker and the first occurrence
/// of the end marker after it, or nothing when either marker is absent.
pub open spec fn line_field(line: Seq<char>, sm: Seq<char>, em: Seq<char>) -> Option<Seq<char>> {
    match first_match_from(line, sm, 0) {
        None => None,
        Some(p) => match first_match_from(line, em, p + sm.len()) {
            None => None,
            Some(q) => Some(line.subrange(p + sm.len() as int, q as int)),
        },
    }
}

/// The raw text of the first line that yields the field, scanning in order.
pub open spec fn scan_lines(lines: Seq<Seq<char>>, sm: Seq<char>, em: Seq<char>) -> Option<
    Seq<char>,
>
    decreases lines.len(),
{
    if lines.len() == 0 {
        None
    } else {
        match line_field(lines[0], sm, em) {
            Some(v) => Some(v),
            None => scan_lines(lines.skip(1), sm, em),
        }
    }
}

/// A field's value in the whole body: the first line holding both markers
/// decides; lines holding the start marker but not the end marker are
/// passed over.
pub open spec fn scan_field_spec(body: Seq<char>, sm: Seq<char>, em: Seq<char>) -> Option<
    Seq<char>,
> {
    scan_lines(spec_lines(body), sm, em)
}

fn line_field_exec(line: &str, sm: &str, em: &str) -> (r: Option<String>)
    ensures
        match r {
            Some(v) => line_field(line@, sm@, em@) == Some(v@),
            None => line_field(line@, sm@, em@) is None,
        },
{
    let n = line.unicode_len();
    let sm_len = sm.unicode_len();
    let em_len = em.unicode_len();
    match find_from(line, n, sm, sm_len, 0) {
        None => None,
        Some(p) => {
            proof {
                lemma_first_match_from(line@, sm@, 0);
            }
            match find_from(line, n, em, em_len, p + sm_len) {
                None => None,
                Some(q) => {
                    proof {
                        lemma_first_match_from(line@, em@, (p + sm_len) as nat);
                    }
                    Some(line.substring_char(p + sm_len, q).to_owned())
                },
            }
        },
    }
}

pub fn scan_lines_exec(lines: &Vec<String>, sm: &str, em: &str) -> (r: Option<String>)
    ensures
        match r {
            Some(v) => scan_lines(lines.deep_view(), sm@, em@) == Some(v@),
            None => scan_lines(lines.deep_view(), sm@, em@) is None,
        },
{
    let ghost all = lines.deep_view();
    let mut k: usize = 0;
    proof {
        assert(all.skip(0) =~~= all);
    }
    while k < lines.len()
        invariant
            all == lines.deep_view(),
            k <= lines.len(),
            all.len() == lines.len(),
            scan_lines(all, sm@, em@) == scan_lines(all.skip(k as int), sm@, em@),
        decreases lines.len() - k,
    {
        proof {
            assert(all.skip(k as int)[0] == all[k as int]);
            assert(lines[k as int]@ == all[k as int]);
        }
        match line_field_exec(&lines[k], sm, em) {
            Some(v) => {
                return Some(v);
            },
            None => {},
        }
        proof {
            assert(all.skip(k as int).skip(1) =~~= all.skip(k + 1));
        }
        k += 1;
    }
    None
}

/// A line in which the end marker never stands after the start marker
/// yields nothing: an end marker on a later line of the body cannot close
/// a start marker on this one.
pub proof fn lemma_line_needs_both_markers(line: Seq<char>, sm: Seq<char>, em: Seq<char>)
    requires
        match first_match_from(line, sm, 0) {
            Some(p) => first_match_from(line, em, (p + sm.len()) as nat) is None,
            None => true,
        },
    ensures
        line_field(line, sm, em) is None,
{
}

/// A field is absent exactly when no single line yields it.
pub proof fn lemma_scan_lines_none(lines: Seq<Seq<char>>, sm: Seq<char>, em: Seq<char>)
    requires
        forall|k: int| 0 <= k < lines.len() ==> line_field(#[trigger] lines[k], sm, em) is None,
    ensures
        scan_lines(lines, sm, em) is None,
    decreases lines.len(),
{
    if lines.len() > 0 {
        assert forall|k: int| 0 <= k < lines.skip(1).len() implies line_field(
            #[trigger] lines.skip(1)[k],
            sm,
            em,
        ) is None by {
            assert(lines.skip(1)[k] == lines[k + 1]);
        }
        lemma_scan_lines_none(lines.skip(1), sm, em);
    }
}

/// Start marker of the generation field.
pub open spec fn gen_start_marker() -> Seq<char> {
    "<!-- ここから発電量表示 -->"@
}

/// End marker of the generation field.
pub open spec fn gen_end_marker() -> Seq<char> {
    "<!-- ここまで発電量表示 -->"@
}

/// Start marker of the consumption field.
pub open spec fn cons_start_marker() -> Seq<char> {
    "<!-- ここから消費量表示 -->"@
}

/// End marker of the consumption field.
pub open spec fn cons_end_marker() -> Seq<char> {
    "<!-- ここまで消費量表示 -->"@
}

/// Both raw fields of a body, or nothing when either is absent.  The two
/// fields are scanned independently: neither needs to share a line with, or
/// precede, the other.
pub open spec fn scan_spec(body: Seq<char>) -> Option<(Seq<char>, Seq<char>)> {
    let g = scan_field_spec(body, gen_start_marker(), gen_end_marker());
    let c = scan_field_spec(body, cons_start_marker(), cons_end_marker());
    match (g, c) {
        (Some(gv), Some(cv)) => Some((gv, cv)),
        _ => None,
    }
}

/// The raw decimal texts of the generation and the consumption field, or
/// `None` when either field is absent from every line of `body`.
pub fn scan(body: &str) -> (r: Option<(String, String)>)
    ensures
        match r {
            Some(v) => scan_spec(body@) == Some((v.0@, v.1@)),
            None => scan_spec(body@) is None,
        },
{
    let lines = split_lines(body);
    let g = scan_lines_exec(&lines, "<!-- ここから発電量表示 -->", "<!-- ここまで発電量表示 -->");
    let c = scan_lines_exec(&lines, "<!-- ここから消費量表示 -->", "<!-- ここまで消費量表示 -->");
    match (g, c) {
        (Some(gv), Some(cv)) => Some((gv, cv)),
        _ => None,
    }
}

} // verus!
