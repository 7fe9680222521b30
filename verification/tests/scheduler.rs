use sysinfo_exporter::host::{get_hostname, HostSnapshotSource};
use sysinfo_exporter::scheduler::{
    Action, Event, LogLevel, PushOutcome, Scheduler, SchedulerState,
};

#[test]
fn a_new_scheduler_is_idle() {
    let s = Scheduler::new(15);
    assert_eq!(s.state(), SchedulerState::Idle);
    assert_eq!(s.interval_seconds(), 15);
}

#[test]
fn the_timer_starts_a_push() {
    let mut s = Scheduler::new(15);
    assert!(matches!(s.step(Event::TimerFired), Action::CollectAndSend));
    assert_eq!(s.state(), SchedulerState::InFlight);
}

#[test]
fn a_delivered_push_is_logged_and_followed_by_one_interval_of_sleep() {
    let mut s = Scheduler::new(15);
    s.step(Event::TimerFired);
    match s.step(Event::PushFinished(PushOutcome::Delivered)) {
        Action::LogAndSleep { level, message, seconds } => {
            assert_eq!(level, LogLevel::Info);
            assert_eq!(message, "Metrics collected and sent");
            assert_eq!(seconds, 15);
        }
        other => panic!("unexpected: {other:?}"),
    }
    assert_eq!(s.state(), SchedulerState::Idle);
}

#[test]
fn a_failed_push_is_logged_and_followed_by_one_interval_of_sleep() {
    let mut s = Scheduler::new(30);
    s.step(Event::TimerFired);
    match s.step(Event::PushFinished(PushOutcome::Failed("HTTP status 503".to_string()))) {
        Action::LogAndSleep { level, message, seconds } => {
            assert_eq!(level, LogLevel::Error);
            assert_eq!(message, "Metrics collection failed: HTTP status 503");
            assert_eq!(seconds, 30);
        }
        other => panic!("unexpected: {other:?}"),
    }
    assert_eq!(s.state(), SchedulerState::Idle);
    assert!(matches!(s.step(Event::TimerFired), Action::CollectAndSend));
    assert_eq!(s.state(), SchedulerState::InFlight);
}

#[test]
fn the_schedule_goes_on_through_any_run_of_failures() {
    let mut s = Scheduler::new(1);
    for tick in 0..50 {
        assert!(matches!(s.step(Event::TimerFired), Action::CollectAndSend));
        let outcome = if tick % 2 == 0 {
            PushOutcome::Failed(format!("failure {tick}"))
        } else {
            PushOutcome::Delivered
        };
        assert!(matches!(s.step(Event::PushFinished(outcome)), Action::LogAndSleep { seconds: 1, .. }));
        assert_eq!(s.state(), SchedulerState::Idle);
        assert_eq!(s.interval_seconds(), 1);
    }
}

#[test]
fn an_event_out_of_turn_is_ignored() {
    let mut s = Scheduler::new(15);
    assert!(matches!(s.step(Event::PushFinished(PushOutcome::Delivered)), Action::Ignore));
    assert_eq!(s.state(), SchedulerState::Idle);
    s.step(Event::TimerFired);
    assert!(matches!(s.step(Event::TimerFired), Action::Ignore));
    assert_eq!(s.state(), SchedulerState::InFlight);
}

#[test]
fn the_host_can_be_sampled() {
    let mut source = HostSnapshotSource::new();
    let disks = source.discover_disks();
    let networks = source.discover_networks();
    let reading = source.sample();
    assert!(reading.total_memory > 0);
    assert!(reading.used_memory <= reading.total_memory);
    let cpu = f64::from_bits(reading.cpu_usage_bits);
    assert!(cpu >= 0.0 && cpu.is_finite());
    assert!(reading.disks.len() >= disks.len() || disks.is_empty());
    assert!(reading.networks.len() >= networks.len() || networks.is_empty());
    for disk in &reading.disks {
        assert!(disk.available_space <= disk.total_space);
    }
}

#[test]
fn the_host_name_is_not_empty_when_there_is_one() {
    if let Some(name) = get_hostname() {
        assert!(!name.is_empty());
    }
}
