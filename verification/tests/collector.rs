use sysinfo_exporter::collector::Collector;
use sysinfo_exporter::host::{DiskReading, HostReading, HostSnapshotSource, NetworkReading};
use sysinfo_exporter::registry::{Sample, SeriesKind};
use sysinfo_exporter::series::RegistryError;

fn disk(name: &str, mount: &str, available: u64, total: u64) -> DiskReading {
    DiskReading {
        name: name.to_string(),
        mount_point: mount.to_string(),
        available_space: available,
        total_space: total,
    }
}

fn network(name: &str, received: u64, transmitted: u64) -> NetworkReading {
    NetworkReading { name: name.to_string(), received, transmitted }
}

fn reading(cpu: f64, used: u64, total: u64, disks: Vec<DiskReading>, networks: Vec<NetworkReading>) -> HostReading {
    HostReading { cpu_usage_bits: cpu.to_bits(), used_memory: used, total_memory: total, disks, networks }
}

fn collector(disks: &Vec<DiskReading>, networks: &Vec<NetworkReading>) -> Collector {
    Collector::with_devices(HostSnapshotSource::new(), disks, networks).unwrap()
}

fn find<'a>(samples: &'a [Sample], name: &str, label: Option<(&str, &str)>) -> &'a Sample {
    let found: Vec<&Sample> = samples
        .iter()
        .filter(|s| s.name == name)
        .filter(|s| match label {
            Some((k, v)) => s.labels.iter().any(|(a, b)| a == k && b == v),
            None => true,
        })
        .collect();
    assert_eq!(found.len(), 1);
    found[0]
}

#[test]
fn construction_registers_two_series_per_device_and_three_for_the_host() {
    let disks = vec![disk("sda1", "/", 1, 2), disk("sdb1", "/data", 3, 4)];
    let networks = vec![network("eth0", 0, 0)];
    let c = collector(&disks, &networks);
    let samples = c.gather();
    let names: Vec<&str> = samples.iter().map(|s| s.name.as_str()).collect();
    assert_eq!(
        names,
        vec![
            "sysinfo_disk_free",
            "sysinfo_disk_total",
            "sysinfo_disk_free",
            "sysinfo_disk_total",
            "sysinfo_network_total_received",
            "sysinfo_network_total_transmitted",
            "sysinfo_cpu_usage",
            "sysinfo_memory_used",
            "sysinfo_memory_total",
        ]
    );
    assert!(samples.iter().all(|s| s.value == 0));
    assert_eq!(
        samples[2].labels,
        vec![("name".to_string(), "sdb1".to_string()), ("mount".to_string(), "/data".to_string())]
    );
    assert_eq!(samples[4].labels, vec![("name".to_string(), "eth0".to_string())]);
    assert!(samples[6].labels.is_empty());
    assert_eq!(samples[0].kind, SeriesKind::Gauge);
    assert_eq!(samples[4].kind, SeriesKind::Counter);
    assert_eq!(samples[5].kind, SeriesKind::Counter);
    assert_eq!(samples[6].kind, SeriesKind::DoubleGauge);
    assert_eq!(samples[7].kind, SeriesKind::Gauge);
    assert_eq!(c.disk_count(), 2);
    assert_eq!(c.network_count(), 1);
}

#[test]
fn construction_without_devices_has_the_host_series_only() {
    let c = collector(&Vec::new(), &Vec::new());
    assert_eq!(c.gather().len(), 3);
    assert_eq!(c.disk_count(), 0);
    assert_eq!(c.network_count(), 0);
}

#[test]
fn construction_fails_on_two_disks_with_one_identity() {
    let disks = vec![disk("sda1", "/", 1, 2), disk("sda1", "/", 1, 2)];
    let r = Collector::with_devices(HostSnapshotSource::new(), &disks, &Vec::new());
    assert!(matches!(r, Err(RegistryError::AlreadyRegistered)));
}

#[test]
fn construction_fails_on_two_interfaces_with_one_name() {
    let networks = vec![network("eth0", 0, 0), network("lo", 0, 0), network("eth0", 0, 0)];
    let r = Collector::with_devices(HostSnapshotSource::new(), &Vec::new(), &networks);
    assert!(matches!(r, Err(RegistryError::AlreadyRegistered)));
}

#[test]
fn disk_at_data_shows_total_and_free() {
    let disks = vec![disk("sdb1", "/data", 40_000_000_000, 100_000_000_000)];
    let mut c = collector(&disks, &Vec::new());
    c.apply(&reading(0.0, 0, 0, disks, Vec::new()));
    let samples = c.gather();
    let total = find(&samples, "sysinfo_disk_total", Some(("mount", "/data")));
    let free = find(&samples, "sysinfo_disk_free", Some(("mount", "/data")));
    assert_eq!(total.kind, SeriesKind::Gauge);
    assert_eq!(total.value, 100_000_000_000);
    assert_eq!(total.value as f64, 100e9);
    assert_eq!(free.value, 40_000_000_000);
    assert_eq!(free.value as f64, 40e9);
}

#[test]
fn disk_at_data_shows_total_and_free_in_the_families() {
    let disks = vec![disk("sdb1", "/data", 40_000_000_000, 100_000_000_000)];
    let mut c = collector(&disks, &Vec::new());
    c.apply(&reading(0.0, 0, 0, disks, Vec::new()));
    let families = c.families();
    let total = families.iter().find(|f| f.name() == "sysinfo_disk_total").unwrap();
    let free = families.iter().find(|f| f.name() == "sysinfo_disk_free").unwrap();
    assert_eq!(total.get_metric().len(), 1);
    assert_eq!(total.get_metric()[0].get_gauge().value(), 100e9);
    assert_eq!(free.get_metric()[0].get_gauge().value(), 40e9);
    let labels: Vec<(&str, &str)> =
        total.get_metric()[0].get_label().iter().map(|l| (l.name(), l.value())).collect();
    assert_eq!(labels, vec![("mount", "/data"), ("name", "sdb1")]);
}

#[test]
fn eth0_counters_accumulate_over_two_ticks() {
    let networks = vec![network("eth0", 0, 0)];
    let mut c = collector(&Vec::new(), &networks);
    c.apply(&reading(0.0, 0, 0, Vec::new(), vec![network("eth0", 1000, 500)]));
    let first = c.gather();
    assert_eq!(find(&first, "sysinfo_network_total_received", Some(("name", "eth0"))).value, 1000);
    assert_eq!(find(&first, "sysinfo_network_total_transmitted", Some(("name", "eth0"))).value, 500);
    c.apply(&reading(0.0, 0, 0, Vec::new(), vec![network("eth0", 200, 100)]));
    let second = c.gather();
    assert_eq!(find(&second, "sysinfo_network_total_received", Some(("name", "eth0"))).value, 1200);
    assert_eq!(find(&second, "sysinfo_network_total_transmitted", Some(("name", "eth0"))).value, 600);
    let families = c.families();
    let received = families.iter().find(|f| f.name() == "sysinfo_network_total_received").unwrap();
    assert_eq!(received.get_metric()[0].get_counter().value(), 1200.0);
}

#[test]
fn counters_never_decrease() {
    let networks = vec![network("eth0", 0, 0), network("lo", 0, 0)];
    let mut c = collector(&Vec::new(), &networks);
    let mut last = vec![0u64; 4];
    for tick in 0..20u64 {
        let nets = vec![network("lo", tick % 3, 7), network("eth0", tick * 11, 0)];
        c.apply(&reading(tick as f64, tick, 100 - tick, Vec::new(), nets));
        let now: Vec<u64> = c.gather().iter().filter(|s| s.kind == SeriesKind::Counter).map(|s| s.value).collect();
        assert_eq!(now.len(), 4);
        for k in 0..4 {
            assert!(now[k] >= last[k]);
        }
        last = now;
    }
    assert_eq!(last, vec![2090, 0, 19, 140]);
}

#[test]
fn host_values_are_those_of_the_latest_reading() {
    let mut c = collector(&Vec::new(), &Vec::new());
    c.apply(&reading(12.5, 2048, 8192, Vec::new(), Vec::new()));
    c.apply(&reading(99.25, 4096, 8192, Vec::new(), Vec::new()));
    let samples = c.gather();
    assert_eq!(f64::from_bits(find(&samples, "sysinfo_cpu_usage", None).value), 99.25);
    assert_eq!(find(&samples, "sysinfo_memory_used", None).value, 4096);
    assert_eq!(find(&samples, "sysinfo_memory_total", None).value, 8192);
    let families = c.families();
    let cpu = families.iter().find(|f| f.name() == "sysinfo_cpu_usage").unwrap();
    assert_eq!(cpu.get_metric()[0].get_gauge().value(), 99.25);
}

#[test]
fn gauges_may_go_down() {
    let disks = vec![disk("sda1", "/", 50, 100)];
    let mut c = collector(&disks, &Vec::new());
    c.apply(&reading(0.0, 9, 10, vec![disk("sda1", "/", 50, 100)], Vec::new()));
    c.apply(&reading(0.0, 3, 10, vec![disk("sda1", "/", 20, 100)], Vec::new()));
    let samples = c.gather();
    assert_eq!(find(&samples, "sysinfo_disk_free", None).value, 20);
    assert_eq!(find(&samples, "sysinfo_memory_used", None).value, 3);
}

#[test]
fn devices_that_appear_later_are_never_followed() {
    let disks = vec![disk("sda1", "/", 1, 2)];
    let networks = vec![network("eth0", 0, 0)];
    let mut c = collector(&disks, &networks);
    let before = c.gather().len();
    c.apply(&reading(
        1.0,
        1,
        1,
        vec![disk("sda1", "/", 5, 6), disk("usb0", "/media/usb", 7, 8)],
        vec![network("wlan0", 9, 9), network("eth0", 1, 1)],
    ));
    let samples = c.gather();
    assert_eq!(samples.len(), before);
    assert_eq!(c.disk_count(), 1);
    assert_eq!(c.network_count(), 1);
    assert!(samples.iter().all(|s| s.labels.iter().all(|(_, v)| v != "/media/usb" && v != "wlan0")));
    assert_eq!(find(&samples, "sysinfo_disk_free", None).value, 5);
    assert_eq!(find(&samples, "sysinfo_network_total_received", None).value, 1);
}

#[test]
fn devices_that_disappear_keep_their_last_values() {
    let disks = vec![disk("sda1", "/", 1, 2), disk("sdb1", "/data", 3, 4)];
    let networks = vec![network("eth0", 0, 0), network("lo", 0, 0)];
    let mut c = collector(&disks, &networks);
    c.apply(&reading(
        1.0,
        1,
        1,
        vec![disk("sda1", "/", 10, 20), disk("sdb1", "/data", 30, 40)],
        vec![network("eth0", 5, 6), network("lo", 7, 8)],
    ));
    c.apply(&reading(1.0, 1, 1, vec![disk("sda1", "/", 11, 21)], vec![network("lo", 1, 1)]));
    let samples = c.gather();
    assert_eq!(samples.len(), 11);
    assert_eq!(find(&samples, "sysinfo_disk_free", Some(("mount", "/data"))).value, 30);
    assert_eq!(find(&samples, "sysinfo_disk_total", Some(("mount", "/data"))).value, 40);
    assert_eq!(find(&samples, "sysinfo_disk_free", Some(("mount", "/"))).value, 11);
    assert_eq!(find(&samples, "sysinfo_network_total_received", Some(("name", "eth0"))).value, 5);
    assert_eq!(find(&samples, "sysinfo_network_total_transmitted", Some(("name", "eth0"))).value, 6);
    assert_eq!(find(&samples, "sysinfo_network_total_received", Some(("name", "lo"))).value, 8);
}

#[test]
fn a_disk_whose_mount_point_is_not_utf8_is_followed_under_its_replaced_text() {
    let mut c = collector(&vec![disk("sdc1", "/mnt/\u{fffd}", 0, 0), disk("sda1", "/", 0, 0)], &Vec::new());
    assert_eq!(c.disk_count(), 2);
    c.apply(&reading(0.0, 0, 0, vec![disk("sdc1", "/mnt/\u{fffd}", 17, 29)], Vec::new()));
    let samples = c.gather();
    assert_eq!(find(&samples, "sysinfo_disk_free", Some(("mount", "/mnt/\u{fffd}"))).value, 17);
    assert_eq!(find(&samples, "sysinfo_disk_total", Some(("mount", "/mnt/\u{fffd}"))).value, 29);
    assert_eq!(find(&samples, "sysinfo_disk_free", Some(("mount", "/"))).value, 0);
}

#[test]
fn every_followed_disk_of_a_reading_is_set() {
    let disks = vec![disk("a", "/", 0, 0), disk("b", "/data", 0, 0), disk("c", "/home", 0, 0)];
    let mut c = collector(&disks, &Vec::new());
    c.apply(&reading(
        0.0,
        0,
        0,
        vec![disk("c", "/home", 5, 6), disk("a", "/", 1, 2), disk("b", "/data", 3, 4)],
        Vec::new(),
    ));
    let values: Vec<u64> = c.gather().iter().take(6).map(|s| s.value).collect();
    assert_eq!(values, vec![1, 2, 3, 4, 5, 6]);
}

#[test]
fn each_delta_is_added_once_to_its_own_counter() {
    let networks = vec![network("eth0", 0, 0), network("lo", 0, 0), network("wlan0", 0, 0)];
    let mut c = collector(&Vec::new(), &networks);
    c.apply(&reading(0.0, 0, 0, Vec::new(), vec![network("wlan0", 5, 6), network("eth0", 1, 2)]));
    c.apply(&reading(0.0, 0, 0, Vec::new(), vec![network("lo", 30, 40), network("eth0", 10, 20)]));
    let values: Vec<u64> = c.gather().iter().take(6).map(|s| s.value).collect();
    assert_eq!(values, vec![11, 22, 30, 40, 5, 6]);
}

#[test]
fn a_counter_that_is_full_wraps_round() {
    let networks = vec![network("eth0", 0, 0)];
    let mut c = collector(&Vec::new(), &networks);
    c.apply(&reading(0.0, 0, 0, Vec::new(), vec![network("eth0", u64::MAX, u64::MAX - 1)]));
    c.apply(&reading(0.0, 0, 0, Vec::new(), vec![network("eth0", 3, 1)]));
    let values: Vec<u64> = c.gather().iter().take(2).map(|s| s.value).collect();
    assert_eq!(values, vec![2, u64::MAX]);
}

#[test]
fn the_families_are_a_function_of_the_series() {
    let disks = vec![disk("sda1", "/", 1, 2), disk("sdb1", "/data", 3, 4)];
    let networks = vec![network("eth0", 0, 0), network("lo", 0, 0)];
    let tick = || {
        reading(
            7.5,
            8,
            9,
            vec![disk("sdb1", "/data", 30, 40), disk("sda1", "/", 10, 20)],
            vec![network("lo", 5, 6), network("eth0", 123, 456)],
        )
    };
    let mut first = collector(&disks, &networks);
    let mut second = collector(&disks, &networks);
    first.apply(&tick());
    second.apply(&tick());
    assert!(first.families() == second.families());
    assert!(first.families() == first.families());
    let names: Vec<String> = first.families().iter().map(|f| f.name().to_string()).collect();
    assert_eq!(
        names,
        vec![
            "sysinfo_cpu_usage",
            "sysinfo_disk_free",
            "sysinfo_disk_total",
            "sysinfo_memory_total",
            "sysinfo_memory_used",
            "sysinfo_network_total_received",
            "sysinfo_network_total_transmitted",
        ]
    );
    let free = &first.families()[1];
    let mounts: Vec<String> =
        free.get_metric().iter().map(|m| m.get_label()[0].value().to_string()).collect();
    assert_eq!(mounts, vec!["/", "/data"]);
    second.apply(&tick());
    assert!(first.families() != second.families());
}

#[test]
fn two_disks_at_one_mount_point_share_the_gauges_of_the_later_one() {
    let disks = vec![disk("overlay", "/", 1, 2), disk("sda1", "/", 3, 4)];
    let mut c = collector(&disks, &Vec::new());
    assert_eq!(c.gather().len(), 7);
    assert_eq!(c.disk_count(), 1);
    c.apply(&reading(0.0, 0, 0, vec![disk("overlay", "/", 10, 20), disk("sda1", "/", 30, 40)], Vec::new()));
    let samples = c.gather();
    assert_eq!(find(&samples, "sysinfo_disk_free", Some(("name", "overlay"))).value, 0);
    assert_eq!(find(&samples, "sysinfo_disk_free", Some(("name", "sda1"))).value, 30);
    assert_eq!(find(&samples, "sysinfo_disk_total", Some(("name", "sda1"))).value, 40);
}

#[test]
fn gather_leaves_the_collector_unchanged() {
    let disks = vec![disk("sda1", "/", 1, 2)];
    let mut c = collector(&disks, &vec![network("eth0", 0, 0)]);
    c.apply(&reading(3.0, 4, 5, vec![disk("sda1", "/", 6, 7)], vec![network("eth0", 8, 9)]));
    let first: Vec<(String, u64)> = c.gather().into_iter().map(|s| (s.name, s.value)).collect();
    let second: Vec<(String, u64)> = c.gather().into_iter().map(|s| (s.name, s.value)).collect();
    assert_eq!(first, second);
}

#[test]
fn identities_are_unique_and_stable_across_ticks() {
    let disks = vec![disk("sda1", "/", 1, 2), disk("sdb1", "/data", 3, 4)];
    let networks = vec![network("eth0", 0, 0)];
    let mut c = collector(&disks, &networks);
    let ids = |c: &Collector| -> Vec<(String, Vec<(String, String)>, SeriesKind)> {
        c.gather().into_iter().map(|s| (s.name, s.labels, s.kind)).collect()
    };
    let before = ids(&c);
    for i in 0..before.len() {
        for j in (i + 1)..before.len() {
            assert!(before[i].0 != before[j].0 || before[i].1 != before[j].1);
        }
    }
    c.apply(&reading(1.0, 2, 3, vec![disk("sdb1", "/data", 9, 9)], vec![network("eth0", 4, 4)]));
    c.apply(&reading(1.0, 2, 3, Vec::new(), Vec::new()));
    assert_eq!(ids(&c), before);
}

#[test]
fn the_families_and_the_snapshot_agree() {
    let disks = vec![disk("sda1", "/", 1, 2), disk("sdb1", "/data", 3, 4)];
    let networks = vec![network("eth0", 0, 0)];
    let mut c = collector(&disks, &networks);
    c.apply(&reading(
        55.5,
        777,
        999,
        vec![disk("sda1", "/", 10, 20), disk("sdb1", "/data", 30, 40)],
        vec![network("eth0", 123, 456)],
    ));
    let samples = c.gather();
    let families = c.families();
    let exported: usize = families.iter().map(|f| f.get_metric().len()).sum();
    assert_eq!(exported, samples.len());
    for s in &samples {
        let family = families.iter().find(|f| f.name() == s.name).unwrap();
        let metric = family
            .get_metric()
            .iter()
            .find(|m| s.labels.iter().all(|(k, v)| m.get_label().iter().any(|l| l.name() == k && l.value() == v)))
            .unwrap();
        assert_eq!(metric.get_label().len(), s.labels.len());
        match s.kind {
            SeriesKind::Gauge => assert_eq!(metric.get_gauge().value(), s.value as f64),
            SeriesKind::Counter => assert_eq!(metric.get_counter().value(), s.value as f64),
            SeriesKind::DoubleGauge => assert_eq!(metric.get_gauge().value().to_bits(), s.value),
        }
    }
}

#[test]
fn the_host_itself_can_be_collected() {
    match Collector::new() {
        Ok(mut c) => {
            let before = c.gather().len();
            assert!(before >= 3 + 2 * c.disk_count() + 2 * c.network_count());
            assert_eq!((before - 3) % 2, 0);
            c.collect();
            c.collect();
            let samples = c.gather();
            assert_eq!(samples.len(), before);
            let total = find(&samples, "sysinfo_memory_total", None).value;
            let used = find(&samples, "sysinfo_memory_used", None).value;
            assert!(total > 0);
            assert!(used <= total);
            assert!(f64::from_bits(find(&samples, "sysinfo_cpu_usage", None).value) >= 0.0);
        }
        Err(e) => assert!(matches!(e, RegistryError::AlreadyRegistered)),
    }
}
