use genai_bench_rs::output::{
    clear_previous_table, detailed_csv_headers, detailed_metric_names, error_summary_rows,
    summary_csv_headers,
};

#[test]
fn test_summary_csv_headers() {
    let headers = summary_csv_headers();
    assert!(headers.contains(&"concurrency"));
    assert!(headers.contains(&"ttft_mean"));
    assert!(headers.contains(&"ttft_p99"));
    assert!(headers.contains(&"output_throughput_server"));
    assert!(headers.contains(&"rps"));
    assert!(headers.contains(&"error_count"));
}

#[test]
fn summary_headers_in_order() {
    assert_eq!(
        summary_csv_headers(),
        vec![
            "concurrency",
            "ttft_mean",
            "ttft_p99",
            "tpot_mean",
            "tpot_p99",
            "e2e_latency_mean",
            "e2e_latency_p99",
            "output_throughput_mean",
            "output_throughput_server",
            "rps",
            "total_requests",
            "error_count",
            "error_rate",
        ]
    );
    let d = detailed_csv_headers();
    assert_eq!(d.len(), 15);
    assert_eq!(d[0], "concurrency");
    assert_eq!(d[1], "metric");
    assert_eq!(d[14], "stddev");
}

#[test]
fn error_rows_skip_levels_without_errors() {
    let data = vec![
        (1u32, vec![]),
        (
            100u32,
            vec![("429".to_string(), 12usize), ("503".to_string(), 3usize)],
        ),
        (200u32, vec![("timeout".to_string(), 1usize)]),
    ];
    let rows = error_summary_rows(&data);
    assert_eq!(rows.len(), 2);
    assert_eq!(rows[0], (100, 15, "429: 12, 503: 3".to_string()));
    assert_eq!(rows[1], (200, 1, "timeout: 1".to_string()));
}

#[test]
fn no_error_rows_without_errors() {
    let data: Vec<(u32, Vec<(String, usize)>)> = vec![(1, vec![]), (2, vec![])];
    assert!(error_summary_rows(&data).is_empty());
}

#[test]
fn detailed_metrics_and_table_codes() {
    assert_eq!(
        detailed_metric_names(),
        vec!["ttft_s", "tpot_s", "e2e_latency_s", "input_throughput_tps", "output_throughput_tps"]
    );
    assert_eq!(clear_previous_table(0), "");
    assert_eq!(clear_previous_table(2), "\x1b[2A\x1b[2K\n\x1b[2K\n\x1b[2A");
}
