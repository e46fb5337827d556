use vstd::prelude::*;
use vstd::string::*;

use crate::text::str_eq;

verus! {

/// One of the charts that `gbrs plot` draws.
#[derive(Debug, Clone, Copy, PartialEq, Eq, Structural)]
pub enum PlotType {
    /// TTFT against the server's output throughput.
    Ttft,
    /// Output throughput per request against the server's output throughput.
    Ois,
    /// End-to-end latency against requests per second.
    Latency,
}

/// What to plot, and at which percentile.
pub struct PlotConfig {
    pub percentile: String,
    pub plot_types: Vec<PlotType>,
}

/// The charts that a `--type` value asks for, or `None` for an unknown value.
pub open spec fn plot_types_of(s: Seq<char>) -> Option<Seq<PlotType>> {
    if s == "all"@ {
        Some(seq![PlotType::Ttft, PlotType::Ois, PlotType::Latency])
    } else if s == "ttft"@ {
        Some(seq![PlotType::Ttft])
    } else if s == "ois"@ {
        Some(seq![PlotType::Ois])
    } else if s == "latency"@ {
        Some(seq![PlotType::Latency])
    } else {
        None
    }
}

/// Reads a `--type` value: `all`, `ttft`, `ois` or `latency`.
pub fn parse_plot_types(s: &str) -> (res: Result<Vec<PlotType>, String>)
    ensures
        match plot_types_of(s@) {
            Some(ts) => res is Ok && res->Ok_0@ == ts,
            None => res is Err && res->Err_0@ == "Unknown plot type: "@ + s@
                + ". Use: all, ttft, ois, latency"@,
        },
{
    if str_eq(s, "all") {
        Ok(vec![PlotType::Ttft, PlotType::Ois, PlotType::Latency])
    } else if str_eq(s, "ttft") {
        Ok(vec![PlotType::Ttft])
    } else if str_eq(s, "ois") {
        Ok(vec![PlotType::Ois])
    } else if str_eq(s, "latency") {
        Ok(vec![PlotType::Latency])
    } else {
        let mut m = String::from_str("Unknown plot type: ");
        m.append(s);
        m.append(". Use: all, ttft, ois, latency");
        Err(m)
    }
}

/// The percentile that stands for the same worst case on a metric where higher is better:
/// `p99` becomes `p1`, `p90` becomes `p10`, and the others stay.
pub open spec fn mirrored_percentile(p: Seq<char>) -> Seq<char> {
    if p == "p99"@ {
        "p1"@
    } else if p == "p90"@ {
        "p10"@
    } else {
        p
    }
}

/// Mirrors a percentile for a metric where higher is better.
pub fn mirror_percentile(p: &str) -> (res: String)
    ensures
        res@ == mirrored_percentile(p@),
{
    if str_eq(p, "p99") {
        String::from_str("p1")
    } else if str_eq(p, "p90") {
        String::from_str("p10")
    } else {
        String::from_str(p)
    }
}

/// A per-request metric whose distribution is plotted.
#[derive(Debug, Clone, Copy, PartialEq, Eq, Structural)]
pub enum MetricField {
    Ttft,
    Tpot,
    E2eLatency,
    OutputThroughput,
    InputThroughput,
}

/// A statistic of a distribution that a plot can show.
#[derive(Debug, Clone, Copy, PartialEq, Eq, Structural)]
pub enum StatField {
    Mean,
    P1,
    P5,
    P10,
    P25,
    P50,
    P75,
    P90,
    P95,
    P99,
}

impl MetricField {
    /// The name of the metric in the run results (`ttft` for time to first token, ...).
    pub open spec fn name(self) -> Seq<char> {
        match self {
            MetricField::Ttft => "ttft"@,
            MetricField::Tpot => "tpot"@,
            MetricField::E2eLatency => "e2e_latency"@,
            MetricField::OutputThroughput => "output_throughput"@,
            MetricField::InputThroughput => "input_throughput"@,
        }
    }
}

impl StatField {
    /// The name of the statistic (`mean`, `p1`, ..., `p99`).
    pub open spec fn name(self) -> Seq<char> {
        match self {
            StatField::Mean => "mean"@,
            StatField::P1 => "p1"@,
            StatField::P5 => "p5"@,
            StatField::P10 => "p10"@,
            StatField::P25 => "p25"@,
            StatField::P50 => "p50"@,
            StatField::P75 => "p75"@,
            StatField::P90 => "p90"@,
            StatField::P95 => "p95"@,
            StatField::P99 => "p99"@,
        }
    }
}

/// The metric that a field name names, or `None` for a name the plots do not know
/// (whose value is then 0).
pub open spec fn metric_field_of(f: Seq<char>) -> Option<MetricField> {
    if f == "ttft"@ {
        Some(MetricField::Ttft)
    } else if f == "tpot"@ {
        Some(MetricField::Tpot)
    } else if f == "e2e_latency"@ {
        Some(MetricField::E2eLatency)
    } else if f == "output_throughput"@ {
        Some(MetricField::OutputThroughput)
    } else if f == "input_throughput"@ {
        Some(MetricField::InputThroughput)
    } else {
        None
    }
}

pub fn metric_field(field: &str) -> (res: Option<MetricField>)
    ensures
        res == metric_field_of(field@),
{
    if str_eq(field, "ttft") {
        Some(MetricField::Ttft)
    } else if str_eq(field, "tpot") {
        Some(MetricField::Tpot)
    } else if str_eq(field, "e2e_latency") {
        Some(MetricField::E2eLatency)
    } else if str_eq(field, "output_throughput") {
        Some(MetricField::OutputThroughput)
    } else if str_eq(field, "input_throughput") {
        Some(MetricField::InputThroughput)
    } else {
        None
    }
}

/// The statistic that a percentile name names; anything unknown means the mean.
pub open spec fn stat_field_of(p: Seq<char>) -> StatField {
    if p == "mean"@ {
        StatField::Mean
    } else if p == "p1"@ {
        StatField::P1
    } else if p == "p5"@ {
        StatField::P5
    } else if p == "p10"@ {
        StatField::P10
    } else if p == "p25"@ {
        StatField::P25
    } else if p == "p50"@ {
        StatField::P50
    } else if p == "p75"@ {
        StatField::P75
    } else if p == "p90"@ {
        StatField::P90
    } else if p == "p95"@ {
        StatField::P95
    } else if p == "p99"@ {
        StatField::P99
    } else {
        StatField::Mean
    }
}

/// The statistic to plot for a percentile: on a metric where higher is better the
/// percentile is mirrored, so that the plot always shows the worst case.
pub fn stat_field(percentile: &str, higher_is_better: bool) -> (res: StatField)
    ensures
        res == stat_field_of(
            if higher_is_better {
                mirrored_percentile(percentile@)
            } else {
                percentile@
            },
        ),
{
    let effective = if higher_is_better {
        mirror_percentile(percentile)
    } else {
        String::from_str(percentile)
    };
    let p = effective.as_str();
    if str_eq(p, "mean") {
        StatField::Mean
    } else if str_eq(p, "p1") {
        StatField::P1
    } else if str_eq(p, "p5") {
        StatField::P5
    } else if str_eq(p, "p10") {
        StatField::P10
    } else if str_eq(p, "p25") {
        StatField::P25
    } else if str_eq(p, "p50") {
        StatField::P50
    } else if str_eq(p, "p75") {
        StatField::P75
    } else if str_eq(p, "p90") {
        StatField::P90
    } else if str_eq(p, "p95") {
        StatField::P95
    } else if str_eq(p, "p99") {
        StatField::P99
    } else {
        StatField::Mean
    }
}

/// Each metric name selects the metric of that name and no other: the names and the
/// metrics correspond one to one.
pub proof fn lemma_metric_names(m: MetricField, f: Seq<char>)
    ensures
        metric_field_of(m.name()) == Some(m),
        metric_field_of(f) == Some(m) ==> f == m.name(),
{
    reveal_strlit("ttft");
    reveal_strlit("tpot");
    reveal_strlit("e2e_latency");
    reveal_strlit("output_throughput");
    reveal_strlit("input_throughput");
    assert("ttft"@[1] != "tpot"@[1]);
    assert("ttft"@.len() != "e2e_latency"@.len() && "tpot"@.len() != "e2e_latency"@.len());
    assert("ttft"@.len() != "output_throughput"@.len() && "tpot"@.len() != "output_throughput"@.len());
    assert("e2e_latency"@.len() != "output_throughput"@.len());
    assert("ttft"@.len() != "input_throughput"@.len() && "tpot"@.len() != "input_throughput"@.len());
    assert("e2e_latency"@.len() != "input_throughput"@.len());
    assert("output_throughput"@.len() != "input_throughput"@.len());
}

/// Each statistic's name selects that statistic, and a name that is none of them selects
/// the mean.
pub proof fn lemma_stat_names(s: StatField, p: Seq<char>)
    ensures
        stat_field_of(s.name()) == s,
        stat_field_of(p) == s && s != StatField::Mean ==> p == s.name(),
{
    reveal_strlit("mean");
    reveal_strlit("p1");
    reveal_strlit("p5");
    reveal_strlit("p10");
    reveal_strlit("p25");
    reveal_strlit("p50");
    reveal_strlit("p75");
    reveal_strlit("p90");
    reveal_strlit("p95");
    reveal_strlit("p99");
    assert("mean"@.len() == 4 && "p1"@.len() == 2 && "p5"@.len() == 2);
    assert("p1"@[1] != "p5"@[1]);
    assert("p10"@[1] != "p25"@[1] && "p10"@[1] != "p50"@[1] && "p10"@[1] != "p75"@[1]);
    assert("p10"@[1] != "p90"@[1] && "p10"@[1] != "p95"@[1] && "p10"@[1] != "p99"@[1]);
    assert("p25"@[1] != "p50"@[1] && "p25"@[1] != "p75"@[1] && "p25"@[1] != "p90"@[1]);
    assert("p25"@[1] != "p95"@[1] && "p25"@[1] != "p99"@[1]);
    assert("p50"@[1] != "p75"@[1] && "p50"@[1] != "p90"@[1] && "p50"@[1] != "p95"@[1]);
    assert("p50"@[1] != "p99"@[1]);
    assert("p75"@[1] != "p90"@[1] && "p75"@[1] != "p95"@[1] && "p75"@[1] != "p99"@[1]);
    assert("p90"@[2] != "p95"@[2] && "p90"@[2] != "p99"@[2] && "p95"@[2] != "p99"@[2]);
    assert("p10"@.len() == 3 && "p25"@.len() == 3 && "p50"@.len() == 3 && "p75"@.len() == 3);
    assert("p90"@.len() == 3 && "p95"@.len() == 3 && "p99"@.len() == 3);
}

/// Which statistic of which metric a plot reads, or `None` where the field is unknown
/// and the value is 0.
pub fn stat_selection(field: &str, percentile: &str, higher_is_better: bool) -> (res: Option<
    (MetricField, StatField),
>)
    ensures
        match metric_field_of(field@) {
            None => res is None,
            Some(m) => res == Some(
                (
                    m,
                    stat_field_of(
                        if higher_is_better {
                            mirrored_percentile(percentile@)
                        } else {
                            percentile@
                        },
                    ),
                ),
            ),
        },
{
    match metric_field(field) {
        None => None,
        Some(m) => Some((m, stat_field(percentile, higher_is_better))),
    }
}

} // verus!
