use iox_util::attributes::Attributes;
use iox_util::metric::{
    Metric, MetricKind, MetricObserver, Observation, RawReporter, RecordedEvent,
};
use std::sync::atomic::{AtomicU64, Ordering};
use std::collections::BTreeMap;
use std::sync::Arc;

/// A counter whose recorders share its value.
#[derive(Debug, Clone, Default)]
struct U64Counter {
    state: Arc<AtomicU64>,
}

impl U64Counter {
    fn inc(&self, count: u64) {
        self.state.fetch_add(count, Ordering::Relaxed);
    }

    fn fetch(&self) -> u64 {
        self.state.load(Ordering::Relaxed)
    }
}

impl MetricObserver for U64Counter {
    type Recorder = U64Counter;

    fn kind() -> MetricKind {
        MetricKind::U64Counter
    }

    fn recorder(&self) -> Self::Recorder {
        self.clone()
    }

    fn observe(&self) -> Observation {
        Observation::U64Counter(self.fetch())
    }
}

fn attrs(pairs: &[(&str, &str)]) -> Attributes {
    Attributes::from_pairs(pairs)
}

#[test]
fn test_metric() {
    let mut metric: Metric<U64Counter> = Metric::new("foo", "description", ());

    let r1 = metric.recorder(attrs(&[("tag1", "val1"), ("tag2", "val2")]));
    let r2 = metric.recorder(attrs(&[("tag1", "val1")]));
    let r3 = metric.recorder(attrs(&[("tag1", "val2")]));
    let r4 = metric.recorder(attrs(&[("tag1", "val1"), ("tag2", "val2")]));

    assert_eq!(r1.fetch(), 0);
    assert_eq!(r2.fetch(), 0);
    assert_eq!(r3.fetch(), 0);
    assert_eq!(r4.fetch(), 0);

    r2.inc(32);

    assert_eq!(r1.fetch(), 0);
    assert_eq!(r2.fetch(), 32);
    assert_eq!(r3.fetch(), 0);
    assert_eq!(r4.fetch(), 0);

    r1.inc(30);

    assert_eq!(r1.fetch(), 30);
    assert_eq!(r2.fetch(), 32);
    assert_eq!(r3.fetch(), 0);
    assert_eq!(r4.fetch(), 30);

    r4.inc(21);

    assert_eq!(r1.fetch(), 51);
    assert_eq!(r2.fetch(), 32);
    assert_eq!(r3.fetch(), 0);
    assert_eq!(r4.fetch(), 51);
}

#[test]
fn attribute_order_does_not_matter() {
    let mut metric: Metric<U64Counter> = Metric::new("foo", "description", ());
    let r1 = metric.recorder(attrs(&[("a", "1"), ("b", "2")]));
    let r2 = metric.recorder(attrs(&[("b", "2"), ("a", "1")]));
    r1.inc(5);
    assert_eq!(r2.fetch(), 5);
}

#[test]
fn later_values_of_a_label_stand() {
    let a = attrs(&[("a", "1"), ("a", "2")]);
    assert_eq!(a.len(), 1);
    assert_eq!(a.get("a").map(|s| s.as_str()), Some("2"));
    assert!(a.same_as(&attrs(&[("a", "2")])));
    assert!(!a.same_as(&attrs(&[("a", "1")])));
    assert!(!a.same_as(&attrs(&[("a", "2"), ("b", "2")])));
    assert!(attrs(&[]).same_as(&Attributes::new()));
}

#[test]
fn observers_are_found_once_used() {
    let mut metric: Metric<U64Counter> = Metric::new("foo", "description", ());
    assert!(metric.get_observer(&attrs(&[("x", "y")])).is_none());
    metric.recorder(attrs(&[("x", "y")])).inc(3);
    let observer = metric.get_observer(&attrs(&[("x", "y")])).expect("observer");
    assert_eq!(observer.fetch(), 3);
}

#[test]
fn report_lists_observations_in_ascending_order_of_attributes() {
    let mut metric: Metric<U64Counter> = Metric::new("requests", "handled requests", ());
    metric.recorder(attrs(&[("status", "ok")])).inc(7);
    metric.recorder(attrs(&[("status", "error")])).inc(2);
    metric.recorder(attrs(&[("status", "ok")])).inc(1);

    let mut reporter = RawReporter::new();
    metric.report(&mut reporter);
    let events = reporter.recorded();
    assert_eq!(events.len(), 4);
    match &events[0] {
        RecordedEvent::Start { name, description, kind } => {
            assert_eq!(*name, "requests");
            assert_eq!(*description, "handled requests");
            assert_eq!(*kind, MetricKind::U64Counter);
        }
        _ => panic!("expected the start of the metric"),
    }
    match &events[1] {
        RecordedEvent::Observed { attributes, observation } => {
            assert!(attributes.same_as(&attrs(&[("status", "error")])));
            assert_eq!(*observation, Observation::U64Counter(2));
        }
        _ => panic!("expected an observation"),
    }
    match &events[2] {
        RecordedEvent::Observed { attributes, observation } => {
            assert!(attributes.same_as(&attrs(&[("status", "ok")])));
            assert_eq!(*observation, Observation::U64Counter(8));
        }
        _ => panic!("expected an observation"),
    }
    assert!(matches!(events[3], RecordedEvent::Finish));
}

fn observed_order(metric: &Metric<U64Counter>) -> Vec<u64> {
    let mut reporter = RawReporter::new();
    metric.report(&mut reporter);
    reporter
        .recorded()
        .iter()
        .filter_map(|e| match e {
            RecordedEvent::Observed { observation: Observation::U64Counter(v), .. } => Some(*v),
            _ => None,
        })
        .collect()
}

#[test]
fn report_order_is_the_order_of_attribute_sets() {
    let mut metric: Metric<U64Counter> = Metric::new("m", "d", ());
    // each set is marked by the value its counter holds
    metric.recorder(attrs(&[("b", "1")])).inc(5);
    metric.recorder(attrs(&[("a", "2")])).inc(3);
    metric.recorder(attrs(&[("a", "1"), ("c", "1")])).inc(2);
    metric.recorder(attrs(&[("a", "1")])).inc(1);
    metric.recorder(attrs(&[])).inc(0);
    metric.recorder(attrs(&[("a", "10")])).inc(4);
    // [] < [a=1] < [a=1, c=1] < [a=10] < [a=2] < [b=1]
    assert_eq!(observed_order(&metric), vec![0, 1, 2, 4, 3, 5]);
}

#[test]
fn two_reports_with_no_recording_between_agree() {
    let mut metric: Metric<U64Counter> = Metric::new("m", "d", ());
    metric.recorder(attrs(&[("x", "1")])).inc(9);
    metric.recorder(attrs(&[("w", "1")])).inc(8);
    assert_eq!(observed_order(&metric), observed_order(&metric));
}

#[test]
fn labels_are_kept_in_ascending_order() {
    let a = attrs(&[("zeta", "1"), ("alpha", "2"), ("mu", "3")]);
    let b = attrs(&[("mu", "3"), ("zeta", "1"), ("alpha", "2")]);
    assert!(a.same_as(&b));
    assert_eq!(a.len(), 3);
    let c = attrs(&[("alpha", "2")]);
    assert_eq!(c.compare(&a), iox_util::order::Order::Less);
    assert_eq!(a.compare(&c), iox_util::order::Order::Greater);
    assert_eq!(a.compare(&b), iox_util::order::Order::Equal);
}

#[test]
fn attribute_order_is_the_order_of_ordered_maps() {
    let sets: Vec<Vec<(&str, &str)>> = vec![
        vec![],
        vec![("a", "1")],
        vec![("a", "10")],
        vec![("a", "2")],
        vec![("a", "1"), ("b", "1")],
        vec![("b", "0")],
        vec![("ab", "")],
        vec![("é", "x")],
        vec![("z", "1"), ("a", "1")],
    ];
    for x in &sets {
        for y in &sets {
            let mx: BTreeMap<String, String> = x.iter().map(|(k, v)| (k.to_string(), v.to_string())).collect();
            let my: BTreeMap<String, String> = y.iter().map(|(k, v)| (k.to_string(), v.to_string())).collect();
            let expected = if mx < my {
                iox_util::order::Order::Less
            } else if mx == my {
                iox_util::order::Order::Equal
            } else {
                iox_util::order::Order::Greater
            };
            assert_eq!(attrs(x).compare(&attrs(y)), expected, "{:?} vs {:?}", x, y);
        }
    }
}
