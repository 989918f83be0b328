use metrics_snapshot::{Metric, MetricsSnapshot, Output};

fn reading(name: &str) -> Metric {
    Metric { name: name.to_string(), output: Output::Reading }
}

fn percentile(name: &str, p: &str) -> Metric {
    Metric { name: name.to_string(), output: Output::Percentile(p.to_string()) }
}

fn snapshot_of(label: Option<&str>, pulled: Vec<(Metric, u64)>) -> MetricsSnapshot {
    let mut s = MetricsSnapshot::new(label, 0);
    s.refresh(pulled, 1);
    s
}

fn lines(text: &str) -> Vec<&str> {
    text.lines().collect()
}

#[test]
fn empty_snapshot_renders_minimal_text() {
    let s = MetricsSnapshot::new(None, 0);
    assert_eq!(s.json(false), "{}");
    assert_eq!(s.json(true), "{\n  \n}");
    assert_eq!(s.human(), "\n");
    assert_eq!(s.prometheus(), "\n");
}

#[test]
fn empty_snapshot_with_label_renders_minimal_text() {
    let s = MetricsSnapshot::new(Some("count"), 0);
    assert_eq!(s.json(false), "{}");
    assert_eq!(s.human(), "\n");
    assert_eq!(s.prometheus(), "\n");
}

#[test]
fn reading_without_label() {
    let s = snapshot_of(None, vec![(reading("connect/total"), 42)]);
    let prom = s.prometheus();
    assert!(lines(&prom).contains(&"# TYPE connect_total gauge"));
    assert!(lines(&prom).contains(&"connect_total 42"));
    assert_eq!(prom, "# TYPE connect_total gauge\nconnect_total 42\n");
    assert!(s.human().contains("connect/total: 42"));
    assert_eq!(s.human(), "connect/total: 42\n");
    assert!(s.json(false).contains("\"connect/total\": 42"));
    assert_eq!(s.json(false), "{\"connect/total\": 42}");
}

#[test]
fn percentile_ninety_nine() {
    let s = snapshot_of(None, vec![(percentile("latency", "99"), 250)]);
    let prom = s.prometheus();
    assert!(prom.contains("latency{percentile=\"99\"} 250"));
    assert_eq!(prom, "# TYPE latency gauge\nlatency{percentile=\"99\"} 250\n");
    assert!(s.human().contains("latency/p99: 250"));
    assert_eq!(s.json(false), "{\"latency/p99\": 250}");
}

#[test]
fn percentile_five_is_padded() {
    let s = snapshot_of(None, vec![(percentile("latency", "5"), 7)]);
    assert!(s.prometheus().contains("latency{percentile=\"05\"} 7"));
    assert_eq!(s.human(), "latency/p05: 7\n");
    assert_eq!(s.json(false), "{\"latency/p05\": 7}");
}

#[test]
fn long_percentile_text_is_kept() {
    let s = snapshot_of(
        None,
        vec![(percentile("a", "100"), 1), (percentile("b", "99.9"), 2), (percentile("c", ""), 3)],
    );
    assert_eq!(s.human(), "a/p100: 1\nb/p99.9: 2\nc/p00: 3\n");
}

#[test]
fn count_label_joins_reading_names() {
    let s = snapshot_of(Some("count"), vec![(reading("cpu/user"), 5), (percentile("lat", "50"), 9)]);
    assert_eq!(s.human(), "cpu/user/count: 5\nlat/p50: 9\n");
    assert_eq!(s.json(false), "{\"cpu/user/count\": 5,\"lat/p50\": 9}");
    assert_eq!(
        s.prometheus(),
        "# TYPE cpu_user_count gauge\n# TYPE lat gauge\ncpu_user_count 5\nlat{percentile=\"50\"} 9\n"
    );
}

#[test]
fn prometheus_lines_are_sorted_one_by_one() {
    let s = snapshot_of(None, vec![(reading("b"), 2), (reading("a"), 1)]);
    assert_eq!(s.prometheus(), "# TYPE a gauge\n# TYPE b gauge\na 1\nb 2\n");
}

#[test]
fn json_pretty_layout() {
    let s = snapshot_of(None, vec![(reading("b"), 2), (reading("a"), 1)]);
    assert_eq!(s.json(true), "{\n  \"a\": 1,\n  \"b\": 2\n}");
    assert_eq!(s.json(false), "{\"a\": 1,\"b\": 2}");
}

#[test]
fn json_layouts_agree_without_whitespace() {
    let s = snapshot_of(
        Some("total"),
        vec![(reading("x"), 3), (percentile("y", "9"), 4), (reading("a b"), 5)],
    );
    let strip = |t: String| t.chars().filter(|c| !c.is_whitespace()).collect::<String>();
    assert_eq!(strip(s.json(true)), strip(s.json(false)));
}

#[test]
fn counts_match_entries() {
    let s = snapshot_of(
        None,
        vec![(reading("x"), 3), (percentile("y", "9"), 4), (reading("z"), 5), (reading("w"), 0)],
    );
    assert_eq!(s.human().matches('\n').count(), 4);
    assert_eq!(s.json(false).matches(',').count() + 1, 4);
    assert_eq!(s.json(true).matches(',').count() + 1, 4);
}

#[test]
fn outputs_are_in_order() {
    let s = snapshot_of(
        None,
        vec![(reading("zeta"), 1), (reading("alpha"), 22), (percentile("mid", "75"), 3)],
    );
    let human = s.human();
    let hl = lines(&human);
    let mut sorted = hl.clone();
    sorted.sort();
    assert_eq!(hl, sorted);
    let prom = s.prometheus();
    let pl = lines(&prom);
    let mut sorted = pl.clone();
    sorted.sort();
    assert_eq!(pl, sorted);
    let json = s.json(true);
    let jl: Vec<&str> = json.lines().filter(|l| l.starts_with("  ")).collect();
    let mut sorted = jl.clone();
    sorted.sort();
    assert_eq!(jl, sorted);
}

#[test]
fn refresh_twice_keeps_the_mapping() {
    let mut s = MetricsSnapshot::new(None, 10);
    s.refresh(vec![(reading("a"), 1), (percentile("b", "99"), 2)], 20);
    let first = (s.human(), s.prometheus(), s.json(false));
    s.refresh(vec![(reading("a"), 1), (percentile("b", "99"), 2)], 30);
    assert_eq!(first, (s.human(), s.prometheus(), s.json(false)));
}

#[test]
fn refresh_replaces_the_mapping() {
    let mut s = MetricsSnapshot::new(None, 0);
    s.refresh(vec![(reading("a"), 1)], 1);
    s.refresh(vec![(reading("b"), 2)], 2);
    assert_eq!(s.human(), "b: 2\n");
}

#[test]
fn values_print_in_decimal() {
    let s = snapshot_of(None, vec![(reading("max"), u64::MAX), (reading("zero"), 0), (reading("ten"), 10)]);
    assert_eq!(s.human(), "max: 18446744073709551615\nten: 10\nzero: 0\n");
}

#[test]
fn slashes_become_underscores_everywhere_in_prometheus() {
    let s = snapshot_of(None, vec![(percentile("a/b", "9/9"), 1)]);
    assert_eq!(s.prometheus(), "# TYPE a_b gauge\na_b{percentile=\"9_9\"} 1\n");
    assert_eq!(s.human(), "a/b/p9/9: 1\n");
}

#[test]
fn equal_type_lines_are_kept() {
    let s = snapshot_of(None, vec![(percentile("lat", "50"), 1), (percentile("lat", "99"), 2)]);
    assert_eq!(
        s.prometheus(),
        "# TYPE lat gauge\n# TYPE lat gauge\nlat{percentile=\"50\"} 1\nlat{percentile=\"99\"} 2\n"
    );
}

#[test]
fn non_ascii_names_sort_by_code_point() {
    let s = snapshot_of(None, vec![(reading("é"), 1), (reading("z"), 2)]);
    assert_eq!(s.human(), "z: 2\né: 1\n");
}
