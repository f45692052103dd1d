//! Measurements, and the client that makes them.
use jabar::bench::{
    default_run_id, enabled, finish, lateness, mark, write_outcome, Fields, Recorder,
    HEARTBEAT_NS,
};
use jabar::bench_client::{
    classify_reply, file_uri, read_header, root_uri, startup_failures, write_header, Args,
    ArgsError, HeaderLine, Latencies, Reply, Schedule, Workload, QUERY_PERIOD, STATUS_PERIOD,
};

fn texts(raw: &[&str]) -> Vec<String> {
    raw.iter().map(|text| text.to_string()).collect()
}

#[test]
fn nothing_is_recorded_without_a_run() {
    let mut recorder = Recorder::new(None);
    assert!(!enabled(&recorder));
    assert!(mark(&mut recorder, "start", 1, Fields::default()).is_none());
    assert!(finish(&mut recorder, "load", 1, Some(2), Fields::default()).is_none());
}

#[test]
fn events_are_numbered() {
    let mut recorder = Recorder::new(Some("run".to_owned()));
    assert!(enabled(&recorder));
    let first = mark(&mut recorder, "start", 10, Fields::default()).unwrap();
    let fields = Fields { shards: Some(3), ..Fields::default() };
    let second = finish(&mut recorder, "load", 20, Some(7), fields).unwrap();
    assert_eq!((first.seq, first.dur_ns, first.name), (0, 0, "start"));
    assert_eq!((second.seq, second.dur_ns, second.t_ns), (1, 7, 20));
    assert_eq!(second.run_id, "run");
    assert_eq!(second.fields.shards, Some(3));
    assert!(finish(&mut recorder, "load", 20, None, Fields::default()).is_none());
    assert_eq!(default_run_id(42, 1700), "42-1700");
}

#[test]
fn lateness_is_what_exceeds_the_beat() {
    assert_eq!(lateness(HEARTBEAT_NS), 0);
    assert_eq!(lateness(HEARTBEAT_NS + 5), 5);
    assert_eq!(lateness(0), 0);
    assert_eq!(write_outcome(true, true), "ok");
    assert_eq!(write_outcome(false, false), "superseded");
    assert_eq!(write_outcome(false, true), "error");
}

#[test]
fn arguments_are_flags_with_values() {
    let args = Args::parse(&texts(&["startup", "--root", "/repo", "--root", "/other"])).unwrap();
    assert_eq!(args.workload().ok(), Some(Workload::Startup));
    assert_eq!(args.opt("root"), Some("/other"), "the last one counts");
    assert_eq!(args.opt("query"), None);
    assert!(matches!(args.get("query"), Err(ArgsError::Missing(_))));

    let describe = |raw: &[&str]| Args::parse(&texts(raw)).err().unwrap().describe();
    assert!(describe(&[]).starts_with("usage:"));
    assert_eq!(describe(&["probe", "root"]), "expected --flag, got `root`");
    assert_eq!(describe(&["probe", "--root"]), "flag `--root` needs a value");
    let unknown = Args::parse(&texts(&["other"])).unwrap().workload().err().unwrap();
    assert_eq!(unknown.describe(), "unknown workload `other`; expected `startup` or `probe`");
}

#[test]
fn a_failed_run_is_not_a_fast_one() {
    assert!(startup_failures(true, "Foo", 3, 3).is_empty());
    assert_eq!(
        startup_failures(false, "Foo", 1, 3),
        ["index not loaded at startup", "query `Foo` returned 1, expected >= 3"]
    );
}

#[test]
fn messages_are_framed_by_their_length() {
    assert_eq!(write_header(12), "Content-Length: 12\r\n\r\n");
    assert_eq!(read_header("Content-Length: 12\r\n"), HeaderLine::Length(12));
    assert_eq!(read_header("Content-Type: x\r\n"), HeaderLine::Other);
    assert_eq!(read_header("\r\n"), HeaderLine::End);
    assert_eq!(read_header("Content-Length: twelve\r\n"), HeaderLine::BadLength);
    assert_eq!(read_header("Content-Length: 99999999999999999999999\r\n"), HeaderLine::BadLength);
}

#[test]
fn replies_are_matched_to_requests() {
    assert_eq!(classify_reply(Some(3), false, false, 3), Reply::Answered);
    assert_eq!(classify_reply(Some(3), false, true, 3), Reply::Failed);
    assert_eq!(classify_reply(Some(2), false, false, 3), Reply::Ignore);
    assert_eq!(classify_reply(Some(3), true, false, 3), Reply::Acknowledge(3));
    assert_eq!(classify_reply(None, true, false, 3), Reply::Ignore);
}

#[test]
fn polling_keeps_its_pace() {
    let mut schedule = Schedule::new();
    assert_eq!(schedule.due(0), (true, true));
    assert_eq!(schedule.due(STATUS_PERIOD - 1), (false, false));
    assert_eq!(schedule.due(STATUS_PERIOD), (true, false));
    assert!(schedule.due(QUERY_PERIOD).1);
}

#[test]
fn latencies_are_summed_up() {
    let mut latencies = Latencies::new();
    assert_eq!(latencies.summary().p50, None);
    for nanos in [30, 10, 20, 40] {
        latencies.record(nanos);
    }
    latencies.record_error();
    let summary = latencies.summary();
    assert_eq!((summary.count, summary.errors), (4, 1));
    assert_eq!((summary.p50, summary.p95, summary.max), (Some(20), Some(40), Some(40)));
}

#[test]
fn uris_are_put_together() {
    assert_eq!(root_uri("/repo"), "file:///repo");
    assert_eq!(file_uri("/repo/", "/src/A.java"), "file:///repo/src/A.java");
}
