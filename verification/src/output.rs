use vstd::prelude::*;
use vstd::string::*;

use crate::runner::join;
use crate::text::{all_digits, decimal, digits_value, push_decimal};

verus! {

/// The column names of `summary.csv`, in order.
pub open spec fn summary_columns() -> Seq<Seq<char>> {
    seq![
        "concurrency"@,
        "ttft_mean"@,
        "ttft_p99"@,
        "tpot_mean"@,
        "tpot_p99"@,
        "e2e_latency_mean"@,
        "e2e_latency_p99"@,
        "output_throughput_mean"@,
        "output_throughput_server"@,
        "rps"@,
        "total_requests"@,
        "error_count"@,
        "error_rate"@,
    ]
}

/// The header row of `summary.csv`.
pub fn summary_csv_headers() -> (res: Vec<&'static str>)
    ensures
        res@.map_values(|s: &str| s@) == summary_columns(),
{
    let res = vec![
        "concurrency",
        "ttft_mean",
        "ttft_p99",
        "tpot_mean",
        "tpot_p99",
        "e2e_latency_mean",
        "e2e_latency_p99",
        "output_throughput_mean",
        "output_throughput_server",
        "rps",
        "total_requests",
        "error_count",
        "error_rate",
    ];
    assert(res@.map_values(|s: &str| s@) == summary_columns());
    res
}

/// The column names of `detailed_stats.csv`, in order.
pub open spec fn detailed_columns() -> Seq<Seq<char>> {
    seq![
        "concurrency"@,
        "metric"@,
        "min"@,
        "p1"@,
        "p5"@,
        "p10"@,
        "p25"@,
        "p50"@,
        "p75"@,
        "p90"@,
        "p95"@,
        "p99"@,
        "max"@,
        "mean"@,
        "stddev"@,
    ]
}

/// The quantile, in percent, that a distribution column reports: `min` is 0, `max` is
/// 100, and `pK` is K; `None` for any other column.
pub open spec fn column_quantile(name: Seq<char>) -> Option<nat> {
    if name == "min"@ {
        Some(0)
    } else if name == "max"@ {
        Some(100)
    } else if name.len() >= 2 && name[0] == 'p' && all_digits(name.drop_first()) {
        Some(digits_value(name.drop_first()))
    } else {
        None
    }
}

/// The layout of `detailed_stats.csv`: the concurrency and the metric name, then the
/// distribution's quantile columns from `min` (0) through `max` (100) in strictly
/// increasing order of the quantile they report, then `mean` and `stddev`.
pub proof fn lemma_detailed_layout()
    ensures
        detailed_columns().len() == 15,
        detailed_columns()[0] == "concurrency"@,
        detailed_columns()[1] == "metric"@,
        column_quantile(detailed_columns()[2]) == Some(0nat),
        column_quantile(detailed_columns()[12]) == Some(100nat),
        forall|i: int, j: int|
            2 <= i < j <= 12 ==> (#[trigger] column_quantile(detailed_columns()[i]) matches Some(a)
                && #[trigger] column_quantile(detailed_columns()[j]) matches Some(b) && a < b),
        detailed_columns()[13] == "mean"@,
        detailed_columns()[14] == "stddev"@,
{
    reveal_strlit("min");
    reveal_strlit("max");
    reveal_strlit("p1");
    reveal_strlit("p5");
    reveal_strlit("p10");
    reveal_strlit("p25");
    reveal_strlit("p50");
    reveal_strlit("p75");
    reveal_strlit("p90");
    reveal_strlit("p95");
    reveal_strlit("p99");
    reveal_with_fuel(digits_value, 3);
    let c = detailed_columns();
    let qs: Seq<nat> = seq![0nat, 1, 5, 10, 25, 50, 75, 90, 95, 99, 100];
    assert("p1"@.drop_first() =~= seq!['1']);
    assert("p5"@.drop_first() =~= seq!['5']);
    assert("p10"@.drop_first() =~= seq!['1', '0']);
    assert("p25"@.drop_first() =~= seq!['2', '5']);
    assert("p50"@.drop_first() =~= seq!['5', '0']);
    assert("p75"@.drop_first() =~= seq!['7', '5']);
    assert("p90"@.drop_first() =~= seq!['9', '0']);
    assert("p95"@.drop_first() =~= seq!['9', '5']);
    assert("p99"@.drop_first() =~= seq!['9', '9']);
    assert forall|k: int| 2 <= k <= 12 implies #[trigger] column_quantile(c[k]) == Some(qs[k - 2]) by {
        assert(c[k][0] == 'p' || c[k] == "min"@ || c[k] == "max"@);
    }
}

/// The header row of `detailed_stats.csv`.
pub fn detailed_csv_headers() -> (res: Vec<&'static str>)
    ensures
        res@.map_values(|s: &str| s@) == detailed_columns(),
{
    let res = vec![
        "concurrency",
        "metric",
        "min",
        "p1",
        "p5",
        "p10",
        "p25",
        "p50",
        "p75",
        "p90",
        "p95",
        "p99",
        "max",
        "mean",
        "stddev",
    ];
    assert(res@.map_values(|s: &str| s@) == detailed_columns());
    res
}

/// The names under which `detailed_stats.csv` lists the per-request metrics, in order.
pub open spec fn detailed_metrics() -> Seq<Seq<char>> {
    seq![
        "ttft_s"@,
        "tpot_s"@,
        "e2e_latency_s"@,
        "input_throughput_tps"@,
        "output_throughput_tps"@,
    ]
}

/// The metric names of `detailed_stats.csv`.
pub fn detailed_metric_names() -> (res: Vec<&'static str>)
    ensures
        res@.map_values(|s: &str| s@) == detailed_metrics(),
{
    let res = vec!["ttft_s", "tpot_s", "e2e_latency_s", "input_throughput_tps", "output_throughput_tps"];
    assert(res@.map_values(|s: &str| s@) == detailed_metrics());
    res
}

/// `s` repeated `n` times.
pub open spec fn repeated(s: Seq<char>, n: nat) -> Seq<char>
    decreases n,
{
    if n == 0 {
        Seq::empty()
    } else {
        repeated(s, (n - 1) as nat) + s
    }
}

/// The terminal codes that erase the `prev` lines of the previous summary table and move
/// the cursor back to its first line: nothing where there was no table.
pub open spec fn clear_table_text(prev: nat) -> Seq<char> {
    if prev == 0 {
        Seq::empty()
    } else {
        "\x1b["@ + decimal(prev) + "A"@ + repeated("\x1b[2K\n"@, prev) + "\x1b["@ + decimal(prev)
            + "A"@
    }
}

/// The codes printed before a summary table that replaces one of `prev` lines.
pub fn clear_previous_table(prev: usize) -> (res: String)
    ensures
        res@ == clear_table_text(prev as nat),
{
    if prev == 0 {
        return String::new();
    }
    let mut s = String::from_str("\x1b[");
    push_decimal(&mut s, prev as u64);
    s.append("A");
    let ghost head = s@;
    let mut i: usize = 0;
    while i < prev
        invariant
            i <= prev,
            s@ == head + repeated("\x1b[2K\n"@, i as nat),
        decreases prev - i,
    {
        s.append("\x1b[2K\n");
        i = i + 1;
    }
    s.append("\x1b[");
    push_decimal(&mut s, prev as u64);
    s.append("A");
    s
}

// ---------------------------------------------------------------------------
// Error summary
// ---------------------------------------------------------------------------

/// The sum of the counts of an error breakdown.
pub open spec fn breakdown_sum(b: Seq<(String, usize)>) -> nat
    decreases b.len(),
{
    if b.len() == 0 {
        0
    } else {
        breakdown_sum(b.drop_last()) + b.last().1 as nat
    }
}

/// `key: count` for each entry of a breakdown.
pub open spec fn breakdown_items(b: Seq<(String, usize)>) -> Seq<Seq<char>> {
    b.map_values(|e: (String, usize)| e.0@ + ": "@ + decimal(e.1 as nat))
}

/// The rows of the error table: one per concurrency level that had errors, with its
/// count and its breakdown `key: count, key: count`.
pub open spec fn error_rows(d: Seq<(u32, Vec<(String, usize)>)>) -> Seq<(u32, nat, Seq<char>)>
    decreases d.len(),
{
    if d.len() == 0 {
        Seq::empty()
    } else {
        let p = error_rows(d.drop_last());
        let (conc, b) = d.last();
        if b@.len() == 0 {
            p
        } else {
            p.push((conc, breakdown_sum(b@), join(breakdown_items(b@), ", "@)))
        }
    }
}

pub open spec fn rows_view(r: Seq<(u32, usize, String)>) -> Seq<(u32, nat, Seq<char>)> {
    r.map_values(|e: (u32, usize, String)| (e.0, e.1 as nat, e.2@))
}

/// Every breakdown's counts add up to something a `usize` holds.
pub open spec fn sums_fit(d: Seq<(u32, Vec<(String, usize)>)>) -> bool {
    forall|i: int| 0 <= i < d.len() ==> breakdown_sum(#[trigger] d[i].1@) <= usize::MAX
}

/// No breakdown names the same key twice, as a map from key to count.
pub open spec fn keys_distinct(d: Seq<(u32, Vec<(String, usize)>)>) -> bool {
    forall|i: int, j: int, k: int|
        0 <= i < d.len() && 0 <= j < k < d[i].1@.len() ==> #[trigger] d[i].1@[j].0@ != #[trigger] d[i].1@[k].0@
}

proof fn lemma_breakdown_sum_prefix(b: Seq<(String, usize)>, i: int)
    requires
        0 <= i <= b.len(),
    ensures
        breakdown_sum(b.subrange(0, i)) <= breakdown_sum(b),
    decreases b.len() - i,
{
    if i < b.len() {
        lemma_breakdown_sum_prefix(b, i + 1);
        assert(b.subrange(0, i + 1).drop_last() == b.subrange(0, i));
    } else {
        assert(b.subrange(0, i) == b);
    }
}

/// The error table's row for one breakdown.
fn breakdown_row(b: &Vec<(String, usize)>) -> (res: (usize, String))
    requires
        breakdown_sum(b@) <= usize::MAX,
    ensures
        res.0 as nat == breakdown_sum(b@),
        res.1@ == join(breakdown_items(b@), ", "@),
{
    let mut count: usize = 0;
    let mut text = String::new();
    let mut i: usize = 0;
    while i < b.len()
        invariant
            i <= b.len(),
            breakdown_sum(b@) <= usize::MAX,
            count as nat == breakdown_sum(b@.subrange(0, i as int)),
            text@ == join(breakdown_items(b@.subrange(0, i as int)), ", "@),
        decreases b.len() - i,
    {
        let ghost pre = b@.subrange(0, i as int);
        let ghost nxt = b@.subrange(0, i + 1);
        assert(nxt.drop_last() == pre);
        assert(breakdown_items(nxt).drop_last() == breakdown_items(pre));
        proof {
            lemma_breakdown_sum_prefix(b@, i + 1);
        }
        if i > 0 {
            text.append(", ");
        }
        text.append(b[i].0.as_str());
        text.append(": ");
        push_decimal(&mut text, b[i].1 as u64);
        count = count + b[i].1;
        i = i + 1;
    }
    assert(b@.subrange(0, b@.len() as int) == b@);
    (count, text)
}

/// The rows of the error table: for each concurrency level with errors, the number of
/// errors and their breakdown. No rows means that there were no errors to report.
pub fn error_summary_rows(error_data: &Vec<(u32, Vec<(String, usize)>)>) -> (res: Vec<
    (u32, usize, String),
>)
    requires
        sums_fit(error_data@),
        keys_distinct(error_data@),
    ensures
        rows_view(res@) == error_rows(error_data@),
{
    let mut rows: Vec<(u32, usize, String)> = Vec::new();
    let mut i: usize = 0;
    while i < error_data.len()
        invariant
            i <= error_data.len(),
            sums_fit(error_data@),
            rows_view(rows@) == error_rows(error_data@.subrange(0, i as int)),
        decreases error_data.len() - i,
    {
        assert(error_data@.subrange(0, i + 1).drop_last() == error_data@.subrange(0, i as int));
        let (conc, b) = (error_data[i].0, &error_data[i].1);
        if b.len() > 0 {
            assert(breakdown_sum(error_data@[i as int].1@) <= usize::MAX);
            let (count, text) = breakdown_row(b);
            let ghost prev = rows@;
            rows.push((conc, count, text));
            assert(rows@.drop_last() == prev);
            assert(rows_view(rows@) == rows_view(prev).push((conc, count as nat, text@)));
        }
        i = i + 1;
    }
    assert(error_data@.subrange(0, error_data@.len() as int) == error_data@);
    rows
}

} // verus!
