use genai_bench_rs::plot::{
    metric_field, mirror_percentile, parse_plot_types, stat_field, stat_selection, MetricField,
    PlotType, StatField,
};

#[test]
fn plot_types() {
    assert_eq!(
        parse_plot_types("all").unwrap(),
        vec![PlotType::Ttft, PlotType::Ois, PlotType::Latency]
    );
    assert_eq!(parse_plot_types("ttft").unwrap(), vec![PlotType::Ttft]);
    assert_eq!(parse_plot_types("ois").unwrap(), vec![PlotType::Ois]);
    assert_eq!(parse_plot_types("latency").unwrap(), vec![PlotType::Latency]);
    assert_eq!(
        parse_plot_types("bar").unwrap_err(),
        "Unknown plot type: bar. Use: all, ttft, ois, latency"
    );
}

#[test]
fn percentiles_mirror_for_higher_is_better() {
    assert_eq!(mirror_percentile("p99"), "p1");
    assert_eq!(mirror_percentile("p90"), "p10");
    assert_eq!(mirror_percentile("p50"), "p50");
    assert_eq!(mirror_percentile("mean"), "mean");
    assert_eq!(stat_field("p99", true), StatField::P1);
    assert_eq!(stat_field("p99", false), StatField::P99);
    assert_eq!(stat_field("p90", true), StatField::P10);
    assert_eq!(stat_field("p50", true), StatField::P50);
    assert_eq!(stat_field("mean", true), StatField::Mean);
    assert_eq!(stat_field("max", false), StatField::Mean);
}

#[test]
fn stat_selections() {
    assert_eq!(metric_field("tpot"), Some(MetricField::Tpot));
    assert_eq!(metric_field("nope"), None);
    assert_eq!(
        stat_selection("output_throughput", "p99", true),
        Some((MetricField::OutputThroughput, StatField::P1))
    );
    assert_eq!(
        stat_selection("e2e_latency", "p90", false),
        Some((MetricField::E2eLatency, StatField::P90))
    );
    assert_eq!(stat_selection("bogus", "p99", false), None);
}
