use vstd::prelude::*;
use vstd::string::*;

use crate::metrics::{RawRequestResult, RequestError};
use crate::text::{chars_of, decimal, is_digit, lemma_decimal, first_in, first_index, lemma_first_index, push_decimal, string_of};
use crate::tokenizer::strip_cr;

verus! {

// ---------------------------------------------------------------------------
// Error breakdown
// ---------------------------------------------------------------------------

/// The key under which an error is counted: its HTTP status, or `timeout` where the
/// request got no status at all.
pub open spec fn error_key_of(code: u16) -> Seq<char> {
    if code > 0 {
        decimal(code as nat)
    } else {
        "timeout"@
    }
}

/// The breakdown key of an error with status `code`.
pub fn error_key(code: u16) -> (res: String)
    ensures
        res@ == error_key_of(code),
{
    if code > 0 {
        let mut s = String::new();
        push_decimal(&mut s, code as u64);
        s
    } else {
        String::from_str("timeout")
    }
}

/// Different status codes get different keys, so no two codes share a count.
pub proof fn lemma_error_keys_distinct(a: u16, b: u16)
    requires
        a != b,
    ensures
        error_key_of(a) != error_key_of(b),
{
    reveal_strlit("timeout");
    lemma_decimal(a as nat);
    lemma_decimal(b as nat);
    if a > 0 && b == 0 {
        assert(is_digit(error_key_of(a)[0]));
        assert(!is_digit(error_key_of(b)[0]));
    } else if a == 0 && b > 0 {
        assert(is_digit(error_key_of(b)[0]));
        assert(!is_digit(error_key_of(a)[0]));
    }
}

/// The status codes of the failed requests among `rs`, in order.
pub open spec fn error_codes(rs: Seq<RawRequestResult>) -> Seq<u16>
    decreases rs.len(),
{
    if rs.len() == 0 {
        Seq::empty()
    } else {
        let p = error_codes(rs.drop_last());
        match rs.last().error {
            Some(e) => p.push(e.code),
            None => p,
        }
    }
}

/// How many times `x` occurs in `s`.
pub open spec fn occurrences(s: Seq<u16>, x: u16) -> nat
    decreases s.len(),
{
    if s.len() == 0 {
        0
    } else {
        occurrences(s.drop_last(), x) + if s.last() == x {
            1nat
        } else {
            0nat
        }
    }
}

/// The sum of the counts of a breakdown.
pub open spec fn total_count(es: Seq<(u16, usize)>) -> nat
    decreases es.len(),
{
    if es.len() == 0 {
        0
    } else {
        total_count(es.drop_last()) + es.last().1 as nat
    }
}

/// `es` is the breakdown of `codes`: one entry per distinct code, with the number of times
/// it occurs.
pub open spec fn is_breakdown(es: Seq<(u16, usize)>, codes: Seq<u16>) -> bool {
    &&& forall|i: int, j: int| 0 <= i < j < es.len() ==> es[i].0 != es[j].0
    &&& forall|i: int| 0 <= i < es.len() ==> #[trigger] es[i].1 as nat == occurrences(codes, es[i].0)
        && es[i].1 > 0
    &&& forall|c: u16| occurrences(codes, c) > 0 ==> exists|i: int| 0 <= i < es.len() && #[trigger] es[i].0 == c
}

proof fn lemma_total_count_update(es: Seq<(u16, usize)>, j: int, e: (u16, usize))
    requires
        0 <= j < es.len(),
    ensures
        total_count(es.update(j, e)) + es[j].1 == total_count(es) + e.1,
    decreases es.len(),
{
    if j < es.len() - 1 {
        lemma_total_count_update(es.drop_last(), j, e);
        assert(es.update(j, e).drop_last() == es.drop_last().update(j, e));
    } else {
        assert(es.update(j, e).drop_last() == es.drop_last());
    }
}

/// Counts the failed requests of `results` by status code: each code once, with the
/// number of requests that failed with it; the counts add up to the number of failed
/// requests.
pub fn error_counts(results: &Vec<RawRequestResult>) -> (res: Vec<(u16, usize)>)
    ensures
        is_breakdown(res@, error_codes(results@)),
        total_count(res@) == error_codes(results@).len(),
{
    let mut es: Vec<(u16, usize)> = Vec::new();
    let mut i: usize = 0;
    while i < results.len()
        invariant
            i <= results.len(),
            is_breakdown(es@, error_codes(results@.subrange(0, i as int))),
            total_count(es@) == error_codes(results@.subrange(0, i as int)).len(),
            error_codes(results@.subrange(0, i as int)).len() <= i,
        decreases results.len() - i,
    {
        let ghost before = error_codes(results@.subrange(0, i as int));
        assert(results@.subrange(0, i + 1).drop_last() == results@.subrange(0, i as int));
        match &results[i].error {
            None => {},
            Some(err) => {
                let code = err.code;
                let ghost after = before.push(code);
                assert(error_codes(results@.subrange(0, i + 1)) == after);
                assert(forall|c: u16| #[trigger] occurrences(after, c) == occurrences(before, c) + if c
                    == code {
                    1nat
                } else {
                    0nat
                }) by {
                    assert forall|c: u16| #[trigger] occurrences(after, c) == occurrences(before, c)
                        + if c == code {
                        1nat
                    } else {
                        0nat
                    } by {
                        assert(after.drop_last() == before);
                    }
                }
                let mut j: usize = 0;
                while j < es.len() && es[j].0 != code
                    invariant
                        j <= es.len(),
                        forall|k: int| 0 <= k < j ==> es@[k].0 != code,
                    decreases es.len() - j,
                {
                    j = j + 1;
                }
                if j < es.len() {
                    let old_count = es[j].1;
                    assert(old_count as nat == occurrences(before, code));
                    assert(total_count(es@) >= old_count) by {
                        lemma_total_count_update(es@, j as int, (code, 0));
                    }
                    let ghost prev = es@;
                    es.set(j, (code, old_count + 1));
                    proof {
                        lemma_total_count_update(prev, j as int, (code, (old_count + 1) as usize));
                        assert forall|c: u16| occurrences(after, c) > 0 implies exists|k: int|
                            0 <= k < es@.len() && #[trigger] es@[k].0 == c by {
                            if c != code {
                                let k = choose|k: int| 0 <= k < prev.len() && #[trigger] prev[k].0 == c;
                                assert(es@[k].0 == c);
                            } else {
                                assert(es@[j as int].0 == c);
                            }
                        }
                    }
                } else {
                    assert(occurrences(before, code) == 0) by {
                        if occurrences(before, code) > 0 {
                            let k = choose|k: int| 0 <= k < es@.len() && #[trigger] es@[k].0 == code;
                            assert(false);
                        }
                    }
                    let ghost prev = es@;
                    es.push((code, 1));
                    proof {
                        assert(es@.drop_last() == prev);
                        assert forall|c: u16| occurrences(after, c) > 0 implies exists|k: int|
                            0 <= k < es@.len() && #[trigger] es@[k].0 == c by {
                            if c != code {
                                let k = choose|k: int| 0 <= k < prev.len() && #[trigger] prev[k].0 == c;
                                assert(es@[k].0 == c);
                            } else {
                                assert(es@[prev.len() as int].0 == c);
                            }
                        }
                    }
                }
            },
        }
        i = i + 1;
    }
    assert(results@.subrange(0, results@.len() as int) == results@);
    es
}

// ---------------------------------------------------------------------------
// Steady-state selection
// ---------------------------------------------------------------------------

/// How long, at the start and at the end of a concurrency level, the requests initiated
/// are left out of the metrics: 5 seconds.
pub const EDGE_EXCLUSION_NS: u64 = 5_000_000_000;

/// Whether a request initiated at `start_ns` counts towards the metrics of a level that
/// ran for `duration_ns`: it started neither in the first nor in the last 5 seconds.
pub open spec fn in_steady_window(start_ns: u64, duration_ns: u64) -> bool {
    EDGE_EXCLUSION_NS <= start_ns && start_ns + EDGE_EXCLUSION_NS < duration_ns
}

/// The positions of the successful requests of `rs`, in order.
pub open spec fn success_positions(rs: Seq<RawRequestResult>) -> Seq<int>
    decreases rs.len(),
{
    if rs.len() == 0 {
        Seq::empty()
    } else {
        let p = success_positions(rs.drop_last());
        if rs.last().error is None {
            p.push(rs.len() - 1)
        } else {
            p
        }
    }
}

/// The positions among `ps` of requests initiated inside the steady window.
pub open spec fn started_in_window(rs: Seq<RawRequestResult>, ps: Seq<int>, duration_ns: u64) -> Seq<
    int,
>
    decreases ps.len(),
{
    if ps.len() == 0 {
        Seq::empty()
    } else {
        let p = started_in_window(rs, ps.drop_last(), duration_ns);
        if in_steady_window(rs[ps.last()].start_time_ns, duration_ns) {
            p.push(ps.last())
        } else {
            p
        }
    }
}

/// How many of the requests at `ps` were initiated in the first 5 seconds.
pub open spec fn warmup_count(rs: Seq<RawRequestResult>, ps: Seq<int>) -> nat
    decreases ps.len(),
{
    if ps.len() == 0 {
        0
    } else {
        warmup_count(rs, ps.drop_last()) + if rs[ps.last()].start_time_ns < EDGE_EXCLUSION_NS {
            1nat
        } else {
            0nat
        }
    }
}

/// How many of the requests at `ps` were initiated after the first 5 seconds but within
/// the last 5 seconds (or after the end).
pub open spec fn cooldown_count(rs: Seq<RawRequestResult>, ps: Seq<int>, duration_ns: u64) -> nat
    decreases ps.len(),
{
    if ps.len() == 0 {
        0
    } else {
        let s = rs[ps.last()].start_time_ns;
        cooldown_count(rs, ps.drop_last(), duration_ns) + if EDGE_EXCLUSION_NS <= s && s
            + EDGE_EXCLUSION_NS >= duration_ns {
            1nat
        } else {
            0nat
        }
    }
}

/// The requests that a level's metrics are computed from.
pub struct SteadyState {
    /// Positions in the results of the requests kept, in order.
    pub selected: Vec<usize>,
    /// How many requests succeeded.
    pub total_success: usize,
    /// How many successes were initiated in the first 5 seconds.
    pub warmup_excluded: usize,
    /// How many successes were initiated in the last 5 seconds.
    pub cooldown_excluded: usize,
    /// The start of the first kept request and the end of the last one, in ns since the
    /// level began; `None` where none was kept.
    pub window: Option<(u64, u64)>,
}

pub open spec fn positions_view(v: Seq<usize>) -> Seq<int> {
    v.map_values(|i: usize| i as int)
}

/// The positions of the successful requests among `results`, in order.
pub fn successful_requests(results: &Vec<RawRequestResult>) -> (res: Vec<usize>)
    ensures
        positions_view(res@) == success_positions(results@),
        forall|k: int| 0 <= k < res@.len() ==> res@[k] < results@.len(),
{
    let mut successes: Vec<usize> = Vec::new();
    let mut i: usize = 0;
    while i < results.len()
        invariant
            i <= results.len(),
            positions_view(successes@) == success_positions(results@.subrange(0, i as int)),
            forall|k: int| 0 <= k < successes@.len() ==> successes@[k] < i,
        decreases results.len() - i,
    {
        assert(results@.subrange(0, i + 1).drop_last() == results@.subrange(0, i as int));
        if results[i].error.is_none() {
            successes.push(i);
            assert(positions_view(successes@) == positions_view(successes@.drop_last()).push(
                i as int,
            ));
        }
        i = i + 1;
    }
    assert(results@.subrange(0, results@.len() as int) == results@);
    successes
}

/// Picks the steady-state requests of a level among its successful requests `successes`:
/// those initiated neither in the first nor in the last 5 seconds of the `duration_ns` the
/// level ran for. Also gives how many were left out at each end, and the window from the
/// first kept start to the last kept end, over which the level's server metrics are taken.
pub fn steady_state(results: &Vec<RawRequestResult>, successes: &Vec<usize>, duration_ns: u64) -> (res:
    SteadyState)
    requires
        forall|k: int| 0 <= k < successes@.len() ==> successes@[k] < results@.len(),
    ensures
        res.total_success == successes@.len(),
        positions_view(res.selected@) == started_in_window(
            results@,
            positions_view(successes@),
            duration_ns,
        ),
        res.warmup_excluded as nat == warmup_count(results@, positions_view(successes@)),
        res.cooldown_excluded as nat == cooldown_count(
            results@,
            positions_view(successes@),
            duration_ns,
        ),
        res.selected@.len() + res.warmup_excluded + res.cooldown_excluded == successes@.len(),
        res.window is None <==> res.selected@.len() == 0,
        res.window matches Some((first, last)) ==> {
            &&& forall|k: int|
                0 <= k < res.selected@.len() ==> first <= #[trigger] results@[res.selected@[k] as int].start_time_ns
                    && results@[res.selected@[k] as int].end_time_ns <= last
            &&& exists|k: int|
                0 <= k < res.selected@.len() && #[trigger] results@[res.selected@[k] as int].start_time_ns
                    == first
            &&& exists|k: int|
                0 <= k < res.selected@.len() && #[trigger] results@[res.selected@[k] as int].end_time_ns
                    == last
        },
{
    let mut selected: Vec<usize> = Vec::new();
    let mut warm: usize = 0;
    let mut cool: usize = 0;
    let mut first: u64 = 0;
    let mut last: u64 = 0;
    let mut j: usize = 0;
    while j < successes.len()
        invariant
            j <= successes@.len(),
            forall|k: int| 0 <= k < successes@.len() ==> successes@[k] < results@.len(),
            positions_view(selected@) == started_in_window(
                results@,
                positions_view(successes@).subrange(0, j as int),
                duration_ns,
            ),
            warm as nat == warmup_count(results@, positions_view(successes@).subrange(0, j as int)),
            cool as nat == cooldown_count(
                results@,
                positions_view(successes@).subrange(0, j as int),
                duration_ns,
            ),
            selected@.len() + warm + cool == j,
            forall|k: int| 0 <= k < selected@.len() ==> selected@[k] < results@.len(),
            selected@.len() > 0 ==> {
                &&& forall|k: int|
                    0 <= k < selected@.len() ==> first <= #[trigger] results@[selected@[k] as int].start_time_ns
                        && results@[selected@[k] as int].end_time_ns <= last
                &&& exists|k: int|
                    0 <= k < selected@.len() && #[trigger] results@[selected@[k] as int].start_time_ns
                        == first
                &&& exists|k: int|
                    0 <= k < selected@.len() && #[trigger] results@[selected@[k] as int].end_time_ns
                        == last
            },
        decreases successes.len() - j,
    {
        let ghost ps = positions_view(successes@).subrange(0, j + 1);
        assert(ps.drop_last() == positions_view(successes@).subrange(0, j as int));
        assert(ps.last() == successes@[j as int] as int);
        let p = successes[j];
        let start = results[p].start_time_ns;
        let end = results[p].end_time_ns;
        if start < EDGE_EXCLUSION_NS {
            warm = warm + 1;
        } else if duration_ns < EDGE_EXCLUSION_NS || start >= duration_ns - EDGE_EXCLUSION_NS {
            cool = cool + 1;
        } else {
            let ghost prev = selected@;
            let ghost old_first = first;
            let ghost old_last = last;
            if selected.len() == 0 {
                first = start;
                last = end;
            } else {
                if start < first {
                    first = start;
                }
                if end > last {
                    last = end;
                }
            }
            selected.push(p);
            proof {
                assert(selected@.drop_last() == prev);
                assert(positions_view(selected@) == positions_view(prev).push(p as int));
                let n = prev.len() as int;
                assert(results@[selected@[n] as int].start_time_ns == start);
                assert(results@[selected@[n] as int].end_time_ns == end);
                assert forall|k: int|
                    0 <= k < selected@.len() implies first <= #[trigger] results@[selected@[k] as int].start_time_ns
                        && results@[selected@[k] as int].end_time_ns <= last by {
                    if k < n {
                        assert(selected@[k] == prev[k]);
                        assert(old_first <= results@[prev[k] as int].start_time_ns);
                        assert(results@[prev[k] as int].end_time_ns <= old_last);
                        assert(first <= old_first && old_last <= last);
                    }
                }
                if n == 0 {
                    assert(results@[selected@[0] as int].start_time_ns == first);
                    assert(results@[selected@[0] as int].end_time_ns == last);
                } else {
                    if start != first {
                        let k = choose|k: int|
                            0 <= k < prev.len() && #[trigger] results@[prev[k] as int].start_time_ns
                                == first;
                        assert(selected@[k] == prev[k]);
                        assert(results@[selected@[k] as int].start_time_ns == first);
                    } else {
                        assert(results@[selected@[n] as int].start_time_ns == first);
                    }
                    if end != last {
                        let k = choose|k: int|
                            0 <= k < prev.len() && #[trigger] results@[prev[k] as int].end_time_ns
                                == last;
                        assert(selected@[k] == prev[k]);
                        assert(results@[selected@[k] as int].end_time_ns == last);
                    } else {
                        assert(results@[selected@[n] as int].end_time_ns == last);
                    }
                }
            }
        }
        j = j + 1;
    }
    assert(positions_view(successes@).subrange(0, successes@.len() as int) == positions_view(
        successes@,
    ));
    let window = if selected.len() == 0 {
        None
    } else {
        Some((first, last))
    };
    SteadyState {
        selected,
        total_success: successes.len(),
        warmup_excluded: warm,
        cooldown_excluded: cool,
        window,
    }
}

/// Every request that the steady-state selection keeps succeeded and was initiated
/// neither in the first nor in the last 5 seconds of the level.
pub proof fn lemma_steady_state_kept(rs: Seq<RawRequestResult>, duration_ns: u64, k: int)
    requires
        0 <= k < started_in_window(rs, success_positions(rs), duration_ns).len(),
    ensures
        ({
            let p = started_in_window(rs, success_positions(rs), duration_ns)[k];
            &&& 0 <= p < rs.len()
            &&& rs[p].error is None
            &&& EDGE_EXCLUSION_NS <= rs[p].start_time_ns
            &&& rs[p].start_time_ns + EDGE_EXCLUSION_NS < duration_ns
        }),
{
    lemma_success_positions(rs);
    lemma_started_in_window(rs, success_positions(rs), duration_ns);
}

proof fn lemma_success_positions(rs: Seq<RawRequestResult>)
    ensures
        forall|i: int| 0 <= i < success_positions(rs).len() ==> {
            let p = #[trigger] success_positions(rs)[i];
            0 <= p < rs.len() && rs[p].error is None
        },
    decreases rs.len(),
{
    if rs.len() > 0 {
        lemma_success_positions(rs.drop_last());
        let p = success_positions(rs.drop_last());
        assert forall|i: int| 0 <= i < success_positions(rs).len() implies {
            let q = #[trigger] success_positions(rs)[i];
            0 <= q < rs.len() && rs[q].error is None
        } by {
            if i < p.len() {
                assert(success_positions(rs)[i] == p[i]);
                assert(rs[p[i]] == rs.drop_last()[p[i]]);
            }
        }
    }
}

proof fn lemma_started_in_window(rs: Seq<RawRequestResult>, ps: Seq<int>, duration_ns: u64)
    requires
        forall|i: int| 0 <= i < ps.len() ==> 0 <= #[trigger] ps[i] < rs.len() && rs[ps[i]].error is None,
    ensures
        forall|i: int| 0 <= i < started_in_window(rs, ps, duration_ns).len() ==> {
            let p = #[trigger] started_in_window(rs, ps, duration_ns)[i];
            &&& 0 <= p < rs.len()
            &&& rs[p].error is None
            &&& in_steady_window(rs[p].start_time_ns, duration_ns)
        },
    decreases ps.len(),
{
    if ps.len() > 0 {
        assert forall|i: int| 0 <= i < ps.drop_last().len() implies 0 <= #[trigger] ps.drop_last()[i] < rs.len()
            && rs[ps.drop_last()[i]].error is None by {
            assert(ps.drop_last()[i] == ps[i]);
        }
        lemma_started_in_window(rs, ps.drop_last(), duration_ns);
        let e = started_in_window(rs, ps.drop_last(), duration_ns);
        assert(ps.last() == ps[ps.len() - 1]);
        assert forall|i: int| 0 <= i < started_in_window(rs, ps, duration_ns).len() implies {
            let p = #[trigger] started_in_window(rs, ps, duration_ns)[i];
            &&& 0 <= p < rs.len()
            &&& rs[p].error is None
            &&& in_steady_window(rs[p].start_time_ns, duration_ns)
        } by {
            if i < e.len() {
                assert(started_in_window(rs, ps, duration_ns)[i] == e[i]);
            }
        }
    }
}

// ---------------------------------------------------------------------------
// The filter report
// ---------------------------------------------------------------------------

/// `parts` joined with `sep` between each two.
pub open spec fn join(parts: Seq<Seq<char>>, sep: Seq<char>) -> Seq<char>
    decreases parts.len(),
{
    if parts.len() == 0 {
        Seq::empty()
    } else if parts.len() == 1 {
        parts[0]
    } else {
        join(parts.drop_last(), sep) + sep + parts.last()
    }
}

/// `label: n`, where `n` is positive.
pub open spec fn labelled(label: Seq<char>, n: nat) -> Seq<Seq<char>> {
    if n > 0 {
        seq![label + decimal(n)]
    } else {
        Seq::empty()
    }
}

/// The line that reports how many requests the warmup and cooldown left out, where any
/// were and some were kept.
pub open spec fn filter_report_text(warmup: nat, cooldown: nat, kept: nat, total: nat) -> Option<
    Seq<char>,
> {
    if warmup + cooldown > 0 && kept > 0 {
        let parts = labelled("warmup: "@, warmup) + labelled("cooldown: "@, cooldown);
        Some(
            "Filtered "@ + decimal(kept) + "/"@ + decimal(total) + " requests ("@ + join(
                parts,
                ", "@,
            ) + ")"@,
        )
    } else {
        None
    }
}

/// Appends `label: n` to the report parts in `s` when `n` is positive.
fn push_part(s: &mut String, any: bool, label: &str, n: usize, Ghost(parts): Ghost<Seq<Seq<char>>>) -> (now_any: bool)
    requires
        any == (parts.len() > 0),
        old(s)@ == join(parts, ", "@),
    ensures
        final(s)@ == join(parts + labelled(label@, n as nat), ", "@),
        now_any == ((parts + labelled(label@, n as nat)).len() > 0),
{
    if n == 0 {
        assert(parts + labelled(label@, n as nat) == parts);
        return any;
    }
    let ghost all = parts + labelled(label@, n as nat);
    assert(all.drop_last() == parts);
    if any {
        s.append(", ");
    }
    s.append(label);
    push_decimal(s, n as u64);
    true
}

/// The report of the steady-state selection, e.g. `Filtered 90/100 requests (warmup: 6, cooldown: 4)`,
/// or `None` where nothing was left out or nothing was kept.
pub fn filter_report(warmup_excluded: usize, cooldown_excluded: usize, kept: usize, total_success: usize) -> (res:
    Option<String>)
    requires
        warmup_excluded + cooldown_excluded <= usize::MAX,
    ensures
        match filter_report_text(
            warmup_excluded as nat,
            cooldown_excluded as nat,
            kept as nat,
            total_success as nat,
        ) {
            Some(t) => res is Some && res->Some_0@ == t,
            None => res is None,
        },
{
    if !(warmup_excluded + cooldown_excluded > 0 && kept > 0) {
        return None;
    }
    let mut parts = String::new();
    let ghost p0 = Seq::<Seq<char>>::empty();
    let any = push_part(&mut parts, false, "warmup: ", warmup_excluded, Ghost(p0));
    let ghost p1 = p0 + labelled("warmup: "@, warmup_excluded as nat);
    let _ = push_part(&mut parts, any, "cooldown: ", cooldown_excluded, Ghost(p1));
    assert(p0 + labelled("warmup: "@, warmup_excluded as nat) == labelled(
        "warmup: "@,
        warmup_excluded as nat,
    ));
    let mut s = String::from_str("Filtered ");
    push_decimal(&mut s, kept as u64);
    s.append("/");
    push_decimal(&mut s, total_success as u64);
    s.append(" requests (");
    s.append(parts.as_str());
    s.append(")");
    Some(s)
}

/// Whether the level goes on spawning requests: not once it was cancelled, and not once
/// its duration has elapsed.
pub fn keep_spawning(elapsed_ns: u64, duration_ns: u64, cancelled: bool) -> (go: bool)
    ensures
        go == (!cancelled && elapsed_ns < duration_ns),
{
    !cancelled && elapsed_ns < duration_ns
}

// ---------------------------------------------------------------------------
// Error log lines
// ---------------------------------------------------------------------------

/// How many failed requests are reported one by one while a run goes on.
pub const MAX_ERROR_LOGS: u64 = 3;

/// The first line of a text, as `str::lines` gives it; empty for an empty text.
pub open spec fn first_line(s: Seq<char>) -> Seq<char> {
    let k = first_index(s, '\n');
    if k < s.len() {
        strip_cr(s.subrange(0, k))
    } else {
        s
    }
}

/// The warning for a failed request: `[WARN] Request <id>: HTTP <code> <first line>` where it
/// got a status, `[WARN] Request <id>: <message>` where it did not.
pub open spec fn request_warning_text(request_id: u64, err: RequestError) -> Seq<char> {
    if err.code > 0 {
        "[WARN] Request "@ + decimal(request_id as nat) + ": HTTP "@ + decimal(err.code as nat)
            + " "@ + first_line(err.message@)
    } else {
        "[WARN] Request "@ + decimal(request_id as nat) + ": "@ + err.message@
    }
}

/// The warning printed for a failed request.
pub fn request_warning(request_id: u64, err: &RequestError) -> (res: String)
    ensures
        res@ == request_warning_text(request_id, *err),
{
    let mut s = String::from_str("[WARN] Request ");
    push_decimal(&mut s, request_id);
    if err.code > 0 {
        s.append(": HTTP ");
        push_decimal(&mut s, err.code as u64);
        s.append(" ");
        let cs = chars_of(err.message.as_str());
        let n = cs.len();
        assert(cs@.subrange(0, n as int) == cs@);
        let k = first_in(&cs, 0, n, '\n');
        proof {
            lemma_first_index(cs@, '\n');
        }
        let line = if k < n {
            if k > 0 && cs[k - 1] == '\r' {
                assert(cs@.subrange(0, k as int).drop_last() == cs@.subrange(0, k - 1));
                string_of(&cs, 0, k - 1)
            } else {
                string_of(&cs, 0, k)
            }
        } else {
            string_of(&cs, 0, n)
        };
        s.append(line.as_str());
    } else {
        s.append(": ");
        s.append(err.message.as_str());
    }
    s
}

/// The closing line for errors beyond those reported one by one.
pub open spec fn more_errors_text(total: u64) -> Option<Seq<char>> {
    if total > MAX_ERROR_LOGS {
        Some(
            "[WARN] ... and "@ + decimal((total - MAX_ERROR_LOGS) as nat) + " more errors ("@
                + decimal(total as nat) + " total)"@,
        )
    } else {
        None
    }
}

/// `[WARN] ... and <n> more errors (<total> total)` where more errors happened than were
/// reported one by one.
pub fn more_errors_message(total: u64) -> (res: Option<String>)
    ensures
        match more_errors_text(total) {
            Some(t) => res is Some && res->Some_0@ == t,
            None => res is None,
        },
{
    if total > MAX_ERROR_LOGS {
        let mut s = String::from_str("[WARN] ... and ");
        push_decimal(&mut s, total - MAX_ERROR_LOGS);
        s.append(" more errors (");
        push_decimal(&mut s, total);
        s.append(" total)");
        Some(s)
    } else {
        None
    }
}

} // verus!
