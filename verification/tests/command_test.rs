use genai_bench_rs::command::{fd_limit_warning, max_concurrency, parse_fd_limit};

#[test]
fn highest_level() {
    assert_eq!(max_concurrency(&vec![1, 64, 8]), 64);
    assert_eq!(max_concurrency(&vec![]), 1);
    assert_eq!(max_concurrency(&vec![0]), 0);
}

#[test]
fn fd_limits() {
    assert_eq!(parse_fd_limit("1024\n"), 1024);
    assert_eq!(parse_fd_limit("unlimited\n"), 256);
    assert_eq!(parse_fd_limit(""), 256);
    assert_eq!(fd_limit_warning(1074, 1024), None);
    assert_eq!(
        fd_limit_warning(1073, 1024).as_deref(),
        Some("[WARN] File descriptor limit (1073) may be too low for concurrency 1024. Run `ulimit -n 2048` to increase.")
    );
}
