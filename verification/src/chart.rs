//! The colours and time axis of the measurement chart.
use vstd::prelude::*;
use crate::text::chars_of;

verus! {

/// The chart's line colours, taken in turn by the datasets.
pub open spec fn palette() -> Seq<Seq<char>> {
    seq![
        "rgb(255, 99, 132)"@,
        "rgb(54, 162, 235)"@,
        "rgb(255, 206, 86)"@,
        "rgb(75, 192, 192)"@,
        "rgb(153, 102, 255)"@,
        "rgb(255, 159, 64)"@,
        "rgb(199, 199, 199)"@,
        "rgb(83, 102, 255)"@,
        "rgb(255, 99, 255)"@,
        "rgb(99, 255, 132)"@,
    ]
}

/// The line colour of the `i`-th dataset: the palette is taken in turn.
pub fn border_color(i: usize) -> (r: &'static str)
    ensures
        r@ == palette()[(i % 10) as int],
{
    match i % 10 {
        0 => "rgb(255, 99, 132)",
        1 => "rgb(54, 162, 235)",
        2 => "rgb(255, 206, 86)",
        3 => "rgb(75, 192, 192)",
        4 => "rgb(153, 102, 255)",
        5 => "rgb(255, 159, 64)",
        6 => "rgb(199, 199, 199)",
        7 => "rgb(83, 102, 255)",
        8 => "rgb(255, 99, 255)",
        _ => "rgb(99, 255, 132)",
    }
}

/// `s` with every occurrence of `from` replaced by `to`, scanning left to
/// right without overlaps, as `str::replace` does.
pub open spec fn replace_seq(s: Seq<char>, from: Seq<char>, to: Seq<char>) -> Seq<char>
    recommends
        from.len() > 0,
    decreases s.len(),
{
    if s.len() == 0 || from.len() == 0 {
        s
    } else if from.len() <= s.len() && s.subrange(0, from.len() as int) == from {
        to + replace_seq(s.skip(from.len() as int), from, to)
    } else {
        seq![s[0]] + replace_seq(s.skip(1), from, to)
    }
}

/// Whether `from` occurs in `cs` at position `i`.
fn occurs_at(cs: &Vec<char>, i: usize, from: &Vec<char>) -> (r: bool)
    requires
        i <= cs@.len(),
    ensures
        r == (from@.len() <= cs@.len() - i && cs@.skip(i as int).subrange(0, from@.len() as int) == from@),
{
    if from.len() > cs.len() - i {
        return false;
    }
    let mut k: usize = 0;
    while k < from.len()
        invariant
            i <= cs@.len(),
            cs.len() == cs@.len(),
            from@.len() <= cs@.len() - i,
            k <= from@.len(),
            forall|j: int| 0 <= j < k ==> cs@[i + j] == from@[j],
        decreases from@.len() - k,
    {
        if cs[i + k] != from[k] {
            assert(cs@.skip(i as int).subrange(0, from@.len() as int)[k as int] != from@[k as int]);
            return false;
        }
        k = k + 1;
    }
    assert(cs@.skip(i as int).subrange(0, from@.len() as int) =~= from@);
    true
}

/// `text` with every occurrence of `from` replaced by `to`.
pub fn replace_all(text: &str, from: &str, to: &str) -> (r: String)
    requires
        from@.len() > 0,
    ensures
        r@ == replace_seq(text@, from@, to@),
{
    let cs = chars_of(text);
    let fs = chars_of(from);
    let ts = chars_of(to);
    let mut out: Vec<char> = Vec::new();
    let mut i: usize = 0;
    proof {
        assert(cs@.skip(0) =~= cs@);
        assert(out@ + replace_seq(cs@, fs@, ts@) =~= replace_seq(cs@, fs@, ts@));
    }
    while i < cs.len()
        invariant
            cs@ == text@,
            fs@ == from@,
            ts@ == to@,
            fs@.len() > 0,
            i <= cs@.len(),
            out@ + replace_seq(cs@.skip(i as int), fs@, ts@) == replace_seq(cs@, fs@, ts@),
        decreases cs@.len() - i,
    {
        let ghost rest = cs@.skip(i as int);
        if occurs_at(&cs, i, &fs) {
            let ghost before = out@;
            let mut k: usize = 0;
            while k < ts.len()
                invariant
                    k <= ts@.len(),
                    out@ == before + ts@.subrange(0, k as int),
                decreases ts@.len() - k,
            {
                out.push(ts[k]);
                proof {
                    assert(out@ =~= before + ts@.subrange(0, k + 1));
                }
                k = k + 1;
            }
            proof {
                assert(ts@.subrange(0, ts@.len() as int) =~= ts@);
                assert(rest.skip(fs@.len() as int) =~= cs@.skip(i + fs@.len()));
                assert(out@ + replace_seq(cs@.skip(i + fs@.len()), fs@, ts@) =~= before + (ts@ + replace_seq(rest.skip(fs@.len() as int), fs@, ts@)));
            }
            i = i + fs.len();
        } else {
            let ghost before = out@;
            out.push(cs[i]);
            proof {
                assert(rest.skip(1) =~= cs@.skip(i + 1));
                assert(rest[0] == cs@[i as int]);
                assert(out@ + replace_seq(cs@.skip(i + 1), fs@, ts@) =~= before + (seq![rest[0]] + replace_seq(rest.skip(1), fs@, ts@)));
            }
            i = i + 1;
        }
    }
    proof {
        assert(cs@.skip(cs@.len() as int) =~= Seq::<char>::empty());
        assert(out@ + Seq::<char>::empty() =~= out@);
    }
    vec_to_string(&out)
}

/// The text of the characters.
fn vec_to_string(cs: &Vec<char>) -> (r: String)
    ensures
        r@ == cs@,
{
    let mut s = String::new();
    let mut i: usize = 0;
    while i < cs.len()
        invariant
            i <= cs@.len(),
            s@ == cs@.subrange(0, i as int),
        decreases cs@.len() - i,
    {
        push_char(&mut s, cs[i]);
        proof {
            assert(s@ =~= cs@.subrange(0, i + 1));
        }
        i = i + 1;
    }
    proof {
        assert(cs@.subrange(0, cs@.len() as int) =~= cs@);
    }
    s
}

/// Appends a character to a string.
///
/// Calls `String::push`: the claim is that the text grows by that one
/// character, as its documentation says.
#[verifier::external_body]
fn push_char(s: &mut String, c: char)
    ensures
        final(s)@ == old(s)@.push(c),
{
    s.push(c);
}

/// The fill colour under a line: its `rgb(…)` as `rgba(…, 0.1)`.
pub fn background_color(color: &str) -> (r: String)
    ensures
        r@ == replace_seq(replace_seq(color@, "rgb"@, "rgba"@), ")"@, ", 0.1)"@),
{
    proof {
        reveal_strlit("rgb");
        reveal_strlit(")");
    }
    let first = replace_all(color, "rgb", "rgba");
    replace_all(first.as_str(), ")", ", 0.1)")
}

/// A measurement time (seconds) as the chart's axis takes it (milliseconds).
pub fn chart_time_ms(seconds: i64) -> (r: i64)
    requires
        -9_223_372_036_854_775 <= seconds <= 9_223_372_036_854_775,
    ensures
        r == seconds * 1000,
{
    assert(i64::MIN <= seconds * 1000 <= i64::MAX) by (nonlinear_arith)
        requires
            -9_223_372_036_854_775 <= seconds <= 9_223_372_036_854_775,
    ;
    seconds * 1000
}

/// The answer to a chart request none of whose values has data.
pub const NO_CHART_DATA: &'static str = "Дані за вказаними параметрами не знайдено";

/// Whether a requested value gets a line on the chart: its item was found
/// (`value_found`) and the query for its measures in the window succeeded
/// with at least one (`measure_count`, `None` when the query failed). A
/// value that is missing, or whose lookups failed, is skipped.
pub fn dataset_included(value_found: bool, measure_count: Option<usize>) -> (r: bool)
    ensures
        r == (value_found && (measure_count matches Some(n) && n > 0)),
{
    if !value_found {
        return false;
    }
    match measure_count {
        Some(n) => n > 0,
        None => false,
    }
}

/// The status of a chart answer given which requested values got a line:
/// 404 (with `NO_CHART_DATA`) when none did, else 200 with the chart.
pub fn chart_status(included: &Vec<bool>) -> (r: u16)
    ensures
        r == (if included@.contains(true) { 200u16 } else { 404u16 }),
{
    let mut i: usize = 0;
    while i < included.len()
        invariant
            i <= included@.len(),
            forall|k: int| 0 <= k < i ==> !included@[k],
        decreases included@.len() - i,
    {
        if included[i] {
            assert(included@[i as int]);
            return 200;
        }
        i = i + 1;
    }
    404
}

} // verus!
