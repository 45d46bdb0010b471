use bench_sampler::metrics::{Metric, MetricSample};
use bench_sampler::stats::StatSet;

fn metric(name: &str, value: &str) -> Metric {
    Metric { name: name.to_string(), value: value.to_string() }
}

#[test]
fn sample_binds_and_rebinds() {
    let mut sample = MetricSample::new();
    assert_eq!(sample.len(), 0);
    assert_eq!(sample.get("time"), None);
    sample.insert("time".to_string(), "1".to_string());
    sample.insert("mem".to_string(), "5".to_string());
    assert_eq!(sample.get("time"), Some("1"));
    assert_eq!(sample.get("mem"), Some("5"));
    assert_eq!(sample.get("other"), None);
    sample.insert("time".to_string(), "2".to_string());
    assert_eq!(sample.get("time"), Some("2"));
    assert_eq!(sample.len(), 2);
    assert_eq!(sample.name(0), "time");
    assert_eq!(sample.name(1), "mem");
}

#[test]
fn from_metrics_keeps_the_last_value_of_a_name() {
    let sample = MetricSample::from_metrics(vec![
        metric("a", "1"),
        metric("b", "2"),
        metric("a", "3"),
    ]);
    assert_eq!(sample.len(), 2);
    assert_eq!(sample.get("a"), Some("3"));
    assert_eq!(sample.get("b"), Some("2"));
    let none = MetricSample::from_metrics(Vec::new());
    assert_eq!(none.len(), 0);
}

fn columns(stats: &StatSet) -> Vec<String> {
    (0..stats.len()).map(|i| stats.get(i).to_string()).collect()
}

#[test]
fn stat_set_is_ordered_and_without_duplicates() {
    let mut stats = StatSet::new();
    assert_eq!(stats.len(), 0);
    assert!(stats.insert("time"));
    assert!(stats.insert("mem"));
    assert!(!stats.insert("time"));
    assert!(stats.insert("wall time"));
    assert!(stats.insert("a"));
    assert!(!stats.insert("mem"));
    assert_eq!(columns(&stats), vec!["a", "mem", "time", "wall time"]);
    assert!(stats.contains("mem"));
    assert!(!stats.contains("memory"));
}

#[test]
fn stat_set_is_the_union_whatever_the_order() {
    let a = MetricSample::from_metrics(vec![metric("time", "1")]);
    let b = MetricSample::from_metrics(vec![metric("time", "2"), metric("mem", "5")]);
    let c = MetricSample::from_metrics(vec![metric("io", "0"), metric("alloc", "9")]);
    let orders: [[&MetricSample; 3]; 6] =
        [[&a, &b, &c], [&a, &c, &b], [&b, &a, &c], [&b, &c, &a], [&c, &a, &b], [&c, &b, &a]];
    for order in orders.iter() {
        let mut stats = StatSet::new();
        for sample in order.iter() {
            stats.extend(sample);
        }
        assert_eq!(columns(&stats), vec!["alloc", "io", "mem", "time"]);
    }
}

#[test]
fn extend_with_an_empty_sample_changes_nothing() {
    let mut stats = StatSet::new();
    stats.insert("x");
    stats.extend(&MetricSample::new());
    assert_eq!(columns(&stats), vec!["x"]);
}
