use genai_bench_rs::scenario::{parse_deterministic, parse_scenario, DeterministicScenario, Scenario};

#[test]
fn test_parse_deterministic_scenario() {
    let s = parse_scenario("D(100,100)").unwrap();
    assert_eq!(s.name(), "D(100,100)");
    let (input, output) = s.sample();
    assert_eq!(input, 100);
    assert_eq!(output, 100);
}

#[test]
fn test_parse_deterministic_with_spaces() {
    let s = parse_scenario("D(100, 200)").unwrap();
    let (input, output) = s.sample();
    assert_eq!(input, 100);
    assert_eq!(output, 200);
}

#[test]
fn test_parse_deterministic_large_values() {
    let s = parse_scenario("D(7200,1000)").unwrap();
    let (input, output) = s.sample();
    assert_eq!(input, 7200);
    assert_eq!(output, 1000);
}

#[test]
fn test_parse_invalid_scenario_type() {
    let result = parse_scenario("X(100,100)");
    assert!(result.is_err());
}

#[test]
fn test_parse_invalid_format() {
    assert!(parse_scenario("D(100)").is_err());
    assert!(parse_scenario("D(,100)").is_err());
    assert!(parse_scenario("D(100,)").is_err());
    assert!(parse_scenario("").is_err());
    assert!(parse_scenario("D").is_err());
}

#[test]
fn test_deterministic_always_same() {
    let s = parse_scenario("D(50,75)").unwrap();
    for _ in 0..100 {
        let (input, output) = s.sample();
        assert_eq!(input, 50);
        assert_eq!(output, 75);
    }
}

#[test]
fn test_scenario_dir_name() {
    let s = parse_scenario("D(100,100)").unwrap();
    assert_eq!(s.dir_name(), "D_100_100");
}

fn err(s: &str) -> String {
    match parse_scenario(s) {
        Ok(_) => panic!("expected an error for {:?}", s),
        Err(e) => e,
    }
}

#[test]
fn scenario_error_messages() {
    assert_eq!(err("  "), "scenario string is empty");
    assert_eq!(err("X(100,100)"), "unknown scenario type 'X'. Supported: D(N,M)");
    assert_eq!(
        err("D"),
        "invalid deterministic scenario format: 'D'. Expected D(N,M)"
    );
    assert_eq!(err("D(100)"), "D() requires exactly 2 arguments, got 1");
    assert_eq!(err("D(1,2,3)"), "D() requires exactly 2 arguments, got 3");
    assert_eq!(err("D(,100)"), "invalid input token count: ''");
    assert_eq!(err("D(100, x )"), "invalid output token count: 'x'");
    assert_eq!(err("d(1,2)"), "unknown scenario type 'd'. Supported: D(N,M)");
    assert_eq!(err("D(0,5)"), "input token count must be > 0");
    assert_eq!(err("D(5,0)"), "output token count must be > 0");
    assert_eq!(
        err("D(99999999999999999999999,1)"),
        "invalid input token count: '99999999999999999999999'"
    );
}

#[test]
fn scenario_spec_is_trimmed_everywhere() {
    let s = parse_scenario("  D( 3 ,\t4 )\n").unwrap();
    assert_eq!(s.sample(), (3, 4));
    assert_eq!(s.name(), "D(3,4)");
}

#[test]
fn name_reads_back_as_the_same_scenario() {
    for (a, b) in [(1usize, 1usize), (100, 200), (7200, 1000), (usize::MAX, 9)] {
        let s = DeterministicScenario::new(a, b);
        let back = parse_scenario(&s.name()).unwrap();
        assert_eq!(back.sample(), (a, b));
        assert_eq!(back.dir_name(), format!("D_{}_{}", a, b));
    }
}

#[test]
fn parse_deterministic_does_not_trim_the_whole_spec() {
    assert!(parse_deterministic(" D(1,2)").is_err());
    assert_eq!(parse_deterministic("D(1,2)").unwrap().sample(), (1, 2));
}

#[test]
fn distinct_scenarios_get_distinct_safe_directories() {
    let pairs = [(1usize, 11usize), (11, 1), (1, 1), (111, 1), (100, 200), (10, 0)];
    for (i, &(a, b)) in pairs.iter().enumerate() {
        let d = DeterministicScenario::new(a, b).dir_name();
        assert!(d.chars().all(|c| c == 'D' || c == '_' || c.is_ascii_digit()), "{}", d);
        for &(x, y) in &pairs[i + 1..] {
            assert_ne!(d, DeterministicScenario::new(x, y).dir_name());
        }
    }
}
