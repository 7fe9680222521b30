use sysinfo_exporter::devices::DeviceMap;
use sysinfo_exporter::registry::{clone_labels, MetricRegistry, SeriesDescriptor, SeriesKind};
use sysinfo_exporter::series::RegistryError;

fn descriptor(name: &str, labels: &[(&str, &str)], kind: SeriesKind) -> SeriesDescriptor {
    SeriesDescriptor {
        name: name.to_string(),
        help: format!("help for {name}"),
        labels: labels.iter().map(|(k, v)| (k.to_string(), v.to_string())).collect(),
        kind,
    }
}

#[test]
fn new_registry_is_empty() {
    let registry = MetricRegistry::new();
    assert_eq!(registry.len(), 0);
    assert!(registry.gather().is_empty());
}

#[test]
fn register_hands_out_handles_in_order() {
    let mut registry = MetricRegistry::new();
    let a = registry.register(descriptor("a_total", &[], SeriesKind::Counter)).unwrap();
    let b = registry.register(descriptor("b_bytes", &[("disk", "sda")], SeriesKind::Gauge)).unwrap();
    let c = registry.register(descriptor("c_ratio", &[], SeriesKind::DoubleGauge)).unwrap();
    assert_eq!((a, b, c), (0, 1, 2));
    assert_eq!(registry.len(), 3);
    assert_eq!(registry.kind(a), SeriesKind::Counter);
    assert_eq!(registry.kind(b), SeriesKind::Gauge);
    assert_eq!(registry.kind(c), SeriesKind::DoubleGauge);
    assert_eq!(registry.value(a), 0);
    assert_eq!(registry.value(b), 0);
    assert_eq!(registry.value(c), 0);
}

#[test]
fn register_refuses_a_taken_identity() {
    let mut registry = MetricRegistry::new();
    registry.register(descriptor("disk_free", &[("mount", "/")], SeriesKind::Gauge)).unwrap();
    let again = registry.register(descriptor("disk_free", &[("mount", "/")], SeriesKind::Gauge));
    assert!(matches!(again, Err(RegistryError::AlreadyRegistered)));
    assert_eq!(registry.len(), 1);
}

#[test]
fn register_refuses_a_taken_identity_of_another_kind() {
    let mut registry = MetricRegistry::new();
    registry.register(descriptor("x", &[], SeriesKind::Gauge)).unwrap();
    let again = registry.register(SeriesDescriptor {
        name: "x".to_string(),
        help: "help for x".to_string(),
        labels: Vec::new(),
        kind: SeriesKind::Counter,
    });
    assert!(matches!(again, Err(RegistryError::AlreadyRegistered)));
    assert_eq!(registry.len(), 1);
}

#[test]
fn register_accepts_the_same_name_under_other_label_values() {
    let mut registry = MetricRegistry::new();
    let a = registry.register(descriptor("disk_free", &[("mount", "/")], SeriesKind::Gauge)).unwrap();
    let b = registry.register(descriptor("disk_free", &[("mount", "/data")], SeriesKind::Gauge)).unwrap();
    assert_eq!((a, b), (0, 1));
}

#[test]
fn register_reports_an_invalid_name_in_words() {
    let mut registry = MetricRegistry::new();
    let refused = registry.register(descriptor("9 lives", &[], SeriesKind::Gauge));
    match refused {
        Err(RegistryError::Rejected(text)) => assert!(text.contains("not a valid metric name")),
        other => panic!("unexpected: {other:?}"),
    }
    assert_eq!(registry.len(), 0);
}

#[test]
fn set_replaces_the_value_of_one_gauge_only() {
    let mut registry = MetricRegistry::new();
    let a = registry.register(descriptor("a", &[], SeriesKind::Gauge)).unwrap();
    let b = registry.register(descriptor("b", &[], SeriesKind::Gauge)).unwrap();
    registry.set(a, 7);
    registry.set(b, 9);
    registry.set(a, 3);
    assert_eq!(registry.value(a), 3);
    assert_eq!(registry.value(b), 9);
}

#[test]
fn set_keeps_the_bits_of_a_double() {
    let mut registry = MetricRegistry::new();
    let a = registry.register(descriptor("load", &[], SeriesKind::DoubleGauge)).unwrap();
    registry.set(a, 12.5f64.to_bits());
    assert_eq!(registry.value(a), 12.5f64.to_bits());
    assert_eq!(f64::from_bits(registry.value(a)), 12.5);
}

#[test]
fn increment_by_accumulates() {
    let mut registry = MetricRegistry::new();
    let a = registry.register(descriptor("a_total", &[], SeriesKind::Counter)).unwrap();
    let b = registry.register(descriptor("b_total", &[], SeriesKind::Counter)).unwrap();
    registry.increment_by(a, 1000);
    registry.increment_by(a, 200);
    registry.increment_by(b, 5);
    registry.increment_by(a, 0);
    assert_eq!(registry.value(a), 1200);
    assert_eq!(registry.value(b), 5);
}

#[test]
fn increment_by_wraps_round_at_the_end_of_the_range() {
    let mut registry = MetricRegistry::new();
    let a = registry.register(descriptor("a_total", &[], SeriesKind::Counter)).unwrap();
    registry.increment_by(a, u64::MAX);
    assert_eq!(registry.value(a), u64::MAX);
    registry.increment_by(a, 2);
    assert_eq!(registry.value(a), 1);
}

#[test]
fn gather_lists_every_series_in_registration_order() {
    let mut registry = MetricRegistry::new();
    let a = registry.register(descriptor("z_last", &[("k", "v")], SeriesKind::Gauge)).unwrap();
    let b = registry.register(descriptor("a_first", &[], SeriesKind::Counter)).unwrap();
    registry.set(a, 42);
    registry.increment_by(b, 4);
    let samples = registry.gather();
    assert_eq!(samples.len(), 2);
    assert_eq!(samples[0].name, "z_last");
    assert_eq!(samples[0].help, "help for z_last");
    assert_eq!(samples[0].labels, vec![("k".to_string(), "v".to_string())]);
    assert_eq!(samples[0].kind, SeriesKind::Gauge);
    assert_eq!(samples[0].value, 42);
    assert_eq!(samples[1].name, "a_first");
    assert!(samples[1].labels.is_empty());
    assert_eq!(samples[1].kind, SeriesKind::Counter);
    assert_eq!(samples[1].value, 4);
}

#[test]
fn gather_does_not_change_the_registry() {
    let mut registry = MetricRegistry::new();
    let a = registry.register(descriptor("a", &[], SeriesKind::Gauge)).unwrap();
    registry.set(a, 11);
    let first = registry.gather();
    let second = registry.gather();
    assert_eq!(first.len(), second.len());
    assert_eq!(first[0].value, 11);
    assert_eq!(second[0].value, 11);
    assert_eq!(first[0].name, second[0].name);
}

#[test]
fn gather_never_lists_an_identity_twice() {
    let mut registry = MetricRegistry::new();
    for mount in ["/", "/data", "/", "/home", "/data"] {
        let _ = registry.register(descriptor("disk_free", &[("mount", mount)], SeriesKind::Gauge));
    }
    let samples = registry.gather();
    assert_eq!(samples.len(), 3);
    for i in 0..samples.len() {
        for j in (i + 1)..samples.len() {
            assert!(samples[i].name != samples[j].name || samples[i].labels != samples[j].labels);
        }
    }
}

#[test]
fn families_show_what_the_registry_holds() {
    let mut registry = MetricRegistry::new();
    let a = registry.register(descriptor("disk_total", &[("mount", "/data")], SeriesKind::Gauge)).unwrap();
    let b = registry.register(descriptor("net_total", &[("name", "eth0")], SeriesKind::Counter)).unwrap();
    let c = registry.register(descriptor("cpu", &[], SeriesKind::DoubleGauge)).unwrap();
    registry.set(a, 100_000_000_000);
    registry.increment_by(b, 1200);
    registry.set(c, 37.5f64.to_bits());
    let families = registry.families();
    let names: Vec<&str> = families.iter().map(|f| f.name()).collect();
    assert_eq!(names, vec!["cpu", "disk_total", "net_total"]);
    assert_eq!(families[0].get_metric()[0].get_gauge().value(), 37.5);
    assert_eq!(families[1].get_metric()[0].get_gauge().value(), 100e9);
    assert_eq!(families[1].get_metric()[0].get_label()[0].name(), "mount");
    assert_eq!(families[1].get_metric()[0].get_label()[0].value(), "/data");
    assert_eq!(families[2].get_metric()[0].get_counter().value(), 1200.0);
}

#[test]
fn clone_labels_copies_every_pair() {
    let labels = vec![("a".to_string(), "1".to_string()), ("b".to_string(), "2".to_string())];
    assert_eq!(clone_labels(&labels), labels);
    assert!(clone_labels(&Vec::new()).is_empty());
}

#[test]
fn device_map_keeps_the_last_value_of_a_key() {
    let mut map: DeviceMap<u64> = DeviceMap::new();
    assert_eq!(map.len(), 0);
    assert_eq!(map.get(&"/".to_string()), None);
    map.insert("/".to_string(), 1);
    map.insert("/data".to_string(), 2);
    map.insert("/".to_string(), 3);
    assert_eq!(map.len(), 2);
    assert_eq!(map.get(&"/".to_string()), Some(&3));
    assert_eq!(map.get(&"/data".to_string()), Some(&2));
    assert_eq!(map.get(&"/home".to_string()), None);
}

#[test]
fn register_refuses_an_empty_help_text() {
    let mut registry = MetricRegistry::new();
    let refused = registry.register(SeriesDescriptor {
        name: "a".to_string(),
        help: String::new(),
        labels: Vec::new(),
        kind: SeriesKind::Gauge,
    });
    assert!(matches!(refused, Err(RegistryError::Rejected(_))));
}

#[test]
fn register_refuses_an_invalid_label_name() {
    let mut registry = MetricRegistry::new();
    for label in ["", "9a", "a-b", "a:b", "has space"] {
        let refused = registry.register(descriptor("a", &[(label, "v")], SeriesKind::Counter));
        assert!(matches!(refused, Err(RegistryError::Rejected(_))));
    }
    for label in ["_", "a9", "A_b"] {
        let name = format!("ok_{label}");
        registry.register(descriptor(&name, &[(label, "v")], SeriesKind::Counter)).unwrap();
    }
}

#[test]
fn register_accepts_names_of_letters_digits_underscores_and_colons() {
    let mut registry = MetricRegistry::new();
    for name in [":", "_", "a", ":9", "a9", "a_b_9_d:x_", "Z"] {
        registry.register(descriptor(name, &[], SeriesKind::Gauge)).unwrap();
    }
    for name in ["", "9", "9a", "a-", "has space", "caf\u{e9}"] {
        assert!(matches!(
            registry.register(descriptor(name, &[], SeriesKind::Gauge)),
            Err(RegistryError::Rejected(_))
        ));
    }
}

#[test]
fn register_refuses_other_label_names_under_a_name_that_is_held() {
    let mut registry = MetricRegistry::new();
    registry.register(descriptor("disk_free", &[("mount", "/")], SeriesKind::Gauge)).unwrap();
    let other = registry.register(descriptor("disk_free", &[("device", "sda")], SeriesKind::Gauge));
    assert!(matches!(other, Err(RegistryError::Rejected(_))));
    let helped = registry.register(SeriesDescriptor {
        name: "disk_free".to_string(),
        help: "another help".to_string(),
        labels: vec![("mount".to_string(), "/data".to_string())],
        kind: SeriesKind::Gauge,
    });
    assert!(matches!(helped, Err(RegistryError::Rejected(_))));
    assert_eq!(registry.len(), 1);
}

#[test]
fn a_later_label_of_one_name_replaces_an_earlier_one() {
    let mut registry = MetricRegistry::new();
    registry.register(descriptor("a", &[("k", "1"), ("k", "2")], SeriesKind::Gauge)).unwrap();
    let again = registry.register(descriptor("a", &[("k", "2")], SeriesKind::Gauge));
    assert!(matches!(again, Err(RegistryError::AlreadyRegistered)));
    registry.register(descriptor("a", &[("k", "1")], SeriesKind::Gauge)).unwrap();
    let families = registry.families();
    assert_eq!(families.len(), 1);
    assert_eq!(families[0].get_metric().len(), 2);
    assert_eq!(families[0].get_metric()[0].get_label().len(), 1);
}
