use sysinfo_exporter::collector::Collector;
use sysinfo_exporter::config::{Auth, Config, DEFAULT_INTERVAL_SECONDS};
use sysinfo_exporter::host::{
    get_hostname, DiskReading, HostReading, HostSnapshotSource, NetworkReading,
};
use sysinfo_exporter::metrics::{
    authorization_header, basic_header, bearer_header, checked_endpoint, contains_label,
    is_valid_header_value, static_labels, Metrics, MetricsError, REQUEST_TIMEOUT_SECONDS,
};

fn pair(k: &str, v: &str) -> (String, String) {
    (k.to_string(), v.to_string())
}

fn basic(username: &str, password: &str) -> Option<Auth> {
    Some(Auth::Basic { username: username.to_string(), password: password.to_string() })
}

fn bearer(token: &str) -> Option<Auth> {
    Some(Auth::Bearer { token: token.to_string() })
}

fn empty_collector() -> Collector {
    Collector::with_devices(HostSnapshotSource::new(), &Vec::new(), &Vec::new()).unwrap()
}

#[test]
fn basic_auth_header_is_base64_of_user_and_password() {
    let value = authorization_header(&basic("user", "pass")).unwrap();
    assert_eq!(value, Some("Basic dXNlcjpwYXNz".to_string()));
}

#[test]
fn basic_auth_header_is_padded() {
    let value = authorization_header(&basic("a", "b")).unwrap();
    assert_eq!(value, Some("Basic YTpi".to_string()));
    let value = authorization_header(&basic("ab", "c")).unwrap();
    assert_eq!(value, Some("Basic YWI6Yw==".to_string()));
    let value = authorization_header(&basic("", "")).unwrap();
    assert_eq!(value, Some("Basic Og==".to_string()));
}

#[test]
fn basic_auth_accepts_any_user_and_password() {
    let value = authorization_header(&basic("us\ner", "p\u{7f}ss\u{e9}")).unwrap().unwrap();
    assert!(value.starts_with("Basic "));
    assert!(is_valid_header_value(&value));
}

#[test]
fn bearer_auth_header_is_the_token() {
    let value = authorization_header(&bearer("abc.def-123")).unwrap();
    assert_eq!(value, Some("Bearer abc.def-123".to_string()));
}

#[test]
fn bearer_auth_refuses_a_control_character() {
    assert!(matches!(authorization_header(&bearer("abc\ndef")), Err(MetricsError::InvalidCredential)));
    assert!(matches!(authorization_header(&bearer("abc\u{7f}")), Err(MetricsError::InvalidCredential)));
    assert!(matches!(authorization_header(&bearer("\u{0}")), Err(MetricsError::InvalidCredential)));
}

#[test]
fn bearer_auth_accepts_tab_and_text_beyond_ascii() {
    assert_eq!(authorization_header(&bearer("a\tb")).unwrap(), Some("Bearer a\tb".to_string()));
    assert_eq!(authorization_header(&bearer("cl\u{e9}")).unwrap(), Some("Bearer cl\u{e9}".to_string()));
}

#[test]
fn no_auth_gives_no_header() {
    assert_eq!(authorization_header(&None).unwrap(), None);
}

#[test]
fn header_values_are_checked_character_by_character() {
    assert!(is_valid_header_value(""));
    assert!(is_valid_header_value("Basic dXNlcjpwYXNz"));
    assert!(is_valid_header_value(" ~\t"));
    assert!(is_valid_header_value("\u{80}\u{ff}\u{1f600}"));
    assert!(!is_valid_header_value("\u{1f}"));
    assert!(!is_valid_header_value("a\rb"));
    assert!(!is_valid_header_value("ab\u{7f}"));
}

#[test]
fn hostname_is_added_when_no_label_of_that_name_is_set() {
    let labels = static_labels(Some(vec![pair("env", "prod")]), Some("box1".to_string()));
    assert_eq!(labels, vec![pair("env", "prod"), pair("hostname", "box1")]);
    let labels = static_labels(None, Some("box1".to_string()));
    assert_eq!(labels, vec![pair("hostname", "box1")]);
}

#[test]
fn hostname_does_not_replace_a_label_that_is_set() {
    let set = vec![pair("hostname", "mine"), pair("env", "prod")];
    assert_eq!(static_labels(Some(set.clone()), Some("box1".to_string())), set);
}

#[test]
fn labels_stay_as_set_when_the_host_has_no_name() {
    let set = vec![pair("env", "prod")];
    assert_eq!(static_labels(Some(set.clone()), None), set);
    assert!(static_labels(None, None).is_empty());
}

#[test]
fn contains_label_looks_at_names_only() {
    let labels = vec![pair("env", "hostname"), pair("zone", "a")];
    assert!(!contains_label(&labels, &"hostname".to_string()));
    assert!(contains_label(&labels, &"zone".to_string()));
    assert!(!contains_label(&Vec::new(), &"zone".to_string()));
}

#[test]
fn assemble_keeps_endpoint_credential_and_labels() {
    let m = Metrics::assemble(
        "http://localhost:9090/api/v1/write".to_string(),
        basic("user", "pass"),
        Some(vec![pair("env", "prod")]),
        empty_collector(),
        Some("box1".to_string()),
    )
    .unwrap();
    assert_eq!(m.endpoint(), "http://localhost:9090/api/v1/write");
    assert_eq!(m.authorization(), &Some("Basic dXNlcjpwYXNz".to_string()));
    assert_eq!(m.labels(), &vec![pair("env", "prod"), pair("hostname", "box1")]);
}

#[test]
fn basic_header_puts_the_scheme_before_the_encoded_text() {
    assert_eq!(basic_header("dXNlcjpwYXNz"), "Basic dXNlcjpwYXNz");
    assert_eq!(basic_header(""), "Basic ");
}

#[test]
fn bearer_header_puts_the_scheme_before_the_token() {
    assert_eq!(bearer_header("abc").unwrap(), "Bearer abc");
    assert_eq!(bearer_header("").unwrap(), "Bearer ");
    assert!(matches!(bearer_header("a\nb"), Err(MetricsError::InvalidCredential)));
}

#[test]
fn an_endpoint_is_kept_exactly_when_it_parsed() {
    assert_eq!(checked_endpoint("http://x".to_string(), true).unwrap(), "http://x");
    assert!(matches!(checked_endpoint("http://x".to_string(), false), Err(MetricsError::InvalidEndpoint)));
    assert_eq!(checked_endpoint("not a url".to_string(), true).unwrap(), "not a url");
}

#[test]
fn assemble_refuses_an_endpoint_that_is_no_url() {
    for endpoint in ["not a url", "", "/api/v1/write", "//host/path", "http://"] {
        let r = Metrics::assemble(endpoint.to_string(), None, None, empty_collector(), None);
        assert!(matches!(r, Err(MetricsError::InvalidEndpoint)), "{endpoint}");
    }
}

#[test]
fn assemble_accepts_an_endpoint_that_is_a_url() {
    for endpoint in ["http://localhost:9090/api/v1/write", "https://metrics.example.com/push?x=1", "http://[::1]:8428/"] {
        let m = Metrics::assemble(endpoint.to_string(), None, None, empty_collector(), None).unwrap();
        assert_eq!(m.endpoint(), endpoint);
    }
}

#[test]
fn the_endpoint_is_tested_before_the_credential() {
    let r = Metrics::assemble("not a url".to_string(), bearer("a\nb"), None, empty_collector(), None);
    assert!(matches!(r, Err(MetricsError::InvalidEndpoint)));
}

#[test]
fn basic_credentials_never_fail_the_set_up() {
    let m = Metrics::assemble(
        "http://localhost:9090/api/v1/write".to_string(),
        basic("us\ner", "\u{0}"),
        None,
        empty_collector(),
        None,
    );
    assert!(m.is_ok());
}

#[test]
fn assemble_refuses_a_token_that_cannot_stand_in_a_header() {
    let r = Metrics::assemble("http://x".to_string(), bearer("a\nb"), None, empty_collector(), None);
    assert!(matches!(r, Err(MetricsError::InvalidCredential)));
}

#[test]
fn apply_and_gather_hands_out_the_fresh_values() {
    let disks = vec![DiskReading {
        name: "sdb1".to_string(),
        mount_point: "/data".to_string(),
        available_space: 0,
        total_space: 0,
    }];
    let networks = vec![NetworkReading { name: "eth0".to_string(), received: 0, transmitted: 0 }];
    let c = Collector::with_devices(HostSnapshotSource::new(), &disks, &networks).unwrap();
    let mut m = Metrics::assemble("http://x".to_string(), None, None, c, None).unwrap();
    let reading = HostReading {
        cpu_usage_bits: 1.5f64.to_bits(),
        used_memory: 10,
        total_memory: 20,
        disks: vec![DiskReading {
            name: "sdb1".to_string(),
            mount_point: "/data".to_string(),
                available_space: 40,
            total_space: 100,
        }],
        networks: vec![NetworkReading { name: "eth0".to_string(), received: 7, transmitted: 9 }],
    };
    let snapshot = m.apply_and_gather(&reading);
    let values: Vec<u64> = snapshot.samples.iter().map(|s| s.value).collect();
    assert_eq!(values, vec![40, 100, 7, 9, 1.5f64.to_bits(), 10, 20]);
    let exported: usize = snapshot.families.iter().map(|f| f.get_metric().len()).sum();
    assert_eq!(exported, 7);
    let free = snapshot.families.iter().find(|f| f.name() == "sysinfo_disk_free").unwrap();
    assert_eq!(free.get_metric()[0].get_gauge().value(), 40.0);
    let received =
        snapshot.families.iter().find(|f| f.name() == "sysinfo_network_total_received").unwrap();
    assert_eq!(received.get_metric()[0].get_counter().value(), 7.0);
    let cpu = snapshot.families.iter().find(|f| f.name() == "sysinfo_cpu_usage").unwrap();
    assert_eq!(cpu.get_metric()[0].get_gauge().value(), 1.5);
    assert_eq!(m.authorization(), &None);
    assert!(m.labels().is_empty());
}

#[test]
fn a_failed_push_leaves_the_series_alone() {
    let networks = vec![NetworkReading { name: "eth0".to_string(), received: 0, transmitted: 0 }];
    let c = Collector::with_devices(HostSnapshotSource::new(), &Vec::new(), &networks).unwrap();
    let mut m = Metrics::assemble("http://x".to_string(), None, None, c, None).unwrap();
    let tick = |received: u64| HostReading {
        cpu_usage_bits: 0,
        used_memory: 1,
        total_memory: 2,
        disks: Vec::new(),
        networks: vec![NetworkReading { name: "eth0".to_string(), received, transmitted: 0 }],
    };
    let first = m.apply_and_gather(&tick(1000));
    let mut scheduler = sysinfo_exporter::scheduler::Scheduler::new(15);
    scheduler.step(sysinfo_exporter::scheduler::Event::TimerFired);
    scheduler.step(sysinfo_exporter::scheduler::Event::PushFinished(
        sysinfo_exporter::scheduler::PushOutcome::Failed("503".to_string()),
    ));
    let second = m.apply_and_gather(&tick(200));
    assert_eq!(first.samples[0].value, 1000);
    assert_eq!(second.samples[0].value, 1200);
}

#[test]
fn the_exporter_can_be_set_up_on_this_host() {
    match Metrics::new("http://localhost:1/write".to_string(), bearer("t0ken"), None) {
        Ok(mut m) => {
            assert_eq!(m.endpoint(), "http://localhost:1/write");
            assert_eq!(m.authorization(), &Some("Bearer t0ken".to_string()));
            match get_hostname() {
                Some(name) => assert_eq!(m.labels(), &vec![pair("hostname", &name)]),
                None => assert!(m.labels().is_empty()),
            }
            let snapshot = m.collect_and_gather();
            assert!(snapshot.samples.len() >= 3);
            let exported: usize = snapshot.families.iter().map(|f| f.get_metric().len()).sum();
            assert_eq!(exported, snapshot.samples.len());
        }
        Err(e) => assert!(matches!(e, MetricsError::Collector(_))),
    }
}

#[test]
fn a_malformed_endpoint_is_refused_on_this_host_too() {
    assert!(Metrics::new("not a url".to_string(), None, None).is_err());
}

#[test]
fn an_invalid_token_is_refused_on_this_host_too() {
    assert!(Metrics::new("http://localhost:1/write".to_string(), bearer("bad\u{1}"), None).is_err());
}

#[test]
fn the_interval_defaults_to_fifteen_seconds() {
    let mut config = Config {
        loglevel: None,
        interval_seconds: None,
        endpoint: "http://x".to_string(),
        auth: None,
        labels: None,
    };
    assert_eq!(DEFAULT_INTERVAL_SECONDS, 15);
    assert_eq!(config.interval(), 15);
    config.interval_seconds = Some(60);
    assert_eq!(config.interval(), 60);
    config.interval_seconds = Some(0);
    assert_eq!(config.interval(), 0);
}

#[test]
fn requests_time_out_after_ten_seconds() {
    assert_eq!(REQUEST_TIMEOUT_SECONDS, 10);
}
