use netom::clickhouse::config::Config;
use netom::clickhouse::event::Event;
use netom::clickhouse::pending::pending;
use netom::clickhouse::receiver::{
    admission_cost, classify_observation, control_event, received_at, route_event, Admission,
    EventKind, Family, Identities, Metrics, Observation, Observed, Receiver, SessionHistory,
    UploadBackoff,
};
use netom::clickhouse::record::expiry;
use netom::clickhouse::spool::{
    check_manifest, encode_frame, new_manifest, recover, replay, scan, segment_name, usage,
    validate, Recovery, Segment, SpoolError,
};
use netom::clickhouse::target::{run_step, RunAction, RunEvent};
use netom::clickhouse::transport::{
    add_chunk, answer, check_table, check_version, insert_outcome, insert_parameters, password_in,
    Check,
};
use netom::clickhouse::writer::{Action, Clock, Input, Limits, Phase, Writer};
use netom::metrics::Target;
use sha2::Digest;

/// A segment with one frame.
fn segment(id: [u8; 16], data: &[u8], rows: u32) -> (Segment, Vec<u8>) {
    let (mut s, mut bytes) = Segment::create(id);
    let frame = encode_frame(data, rows).unwrap();
    s.append(&frame).unwrap();
    bytes.extend(frame);
    (s, bytes)
}

#[test]
fn crash_recovery_and_replay_preserve_bytes_and_token() {
    let manifest = new_manifest([7; 16], "test");
    let stream = check_manifest(&manifest, "test").unwrap();
    let (_, mut bytes) = segment([3; 16], &[42; 1000], 3);
    // The process ended in the middle of a frame.
    bytes.extend_from_slice(&[20, 0, 0]);
    assert_eq!(stream, check_manifest(&manifest, "test").unwrap());
    let Ok(Recovery::Seal { offset, footer }) = recover(&bytes) else {
        panic!("not to be sealed");
    };
    bytes.truncate(offset);
    bytes.extend(footer);
    let first = validate(&bytes).unwrap();
    assert_eq!(first.1, 3);
    let replayed: Vec<u8> = replay(&bytes).unwrap().concat();
    assert_eq!(replayed, [42; 1000]);
    assert!(check_manifest(&manifest, "other destination").is_err());
    assert!(matches!(recover(&bytes), Ok(Recovery::Ready)));
    assert_eq!(validate(&bytes).unwrap(), first);
}

#[test]
fn corruption_of_attemptable_segment_is_never_repaired() {
    let (s, mut bytes) = segment([3; 16], b"binary\0\xff", 1);
    bytes.extend(s.seal());
    assert!(validate(&bytes).is_ok());
    bytes[36] ^= 1;
    assert!(validate(&bytes).is_err());
    // Only segments that are not complete are looked at when a spool is opened.
    assert_eq!(
        pending(vec!["1-a.ready".into(), "0-b.part".into()]).unwrap(),
        vec!["1-a.ready"]
    );
}

#[test]
fn the_token_of_a_segment_is_its_id() {
    let id = [0x11; 16];
    let (s, mut bytes) = segment(id, b"x", 1);
    bytes.extend(s.seal());
    let (token, rows) = validate(&bytes).unwrap();
    assert_eq!(token, uuid::Uuid::from_bytes(id).simple().to_string());
    assert_eq!(rows, 1);
}

#[test]
fn a_frame_holds_its_octets_compressed() {
    let frame = encode_frame(&[42; 1000], 3).unwrap();
    assert!(frame.len() < 500);
    assert!(encode_frame(b"", 1).is_err());
    assert!(encode_frame(b"x", 0).is_err());
    assert_eq!(SpoolError::FrameSize.message(), "invalid spool frame size/row count");
}

#[test]
fn every_error_of_a_segment_is_told() {
    let (s, open) = segment([3; 16], b"abc", 1);
    let mut bytes = open.clone();
    bytes.extend(s.seal());
    let fails = |change: &dyn Fn(&mut Vec<u8>)| {
        let mut bytes = bytes.clone();
        change(&mut bytes);
        scan(&bytes, false).err().unwrap()
    };
    assert_eq!(fails(&|b| b[0] ^= 1), SpoolError::UnknownFormat);
    assert_eq!(fails(&|b| b.push(0)), SpoolError::BytesAfterFooter);
    assert_eq!(fails(&|b| *b.last_mut().unwrap() ^= 1), SpoolError::Footer);
    assert_eq!(scan(&open, false).err().unwrap(), SpoolError::UnexpectedEof);
    assert!(matches!(recover(&[]), Ok(Recovery::Remove)));
}

#[test]
fn segments_are_named_by_their_time() {
    let name = segment_name(5, [1; 16]);
    assert!(name < segment_name(6, [0; 16]), "{name}");
    assert_eq!(usage(&[1, 2, 3]), 6);
    assert_eq!(usage(&[u64::MAX, 1]), u64::MAX);
}

fn receiver() -> Receiver {
    Receiver {
        stream: [1; 16],
        epoch: [2; 16],
        collector: "test".into(),
        identities: Identities::new(),
        missing_identity: 0,
    }
}

fn history(path_id: Option<u32>, generation: u64) -> SessionHistory<'static> {
    SessionHistory {
        session: 1,
        path_id,
        generation,
        revision: 1,
        router_revision: 0,
        peer: Some("{\"state\":\"connected\"}"),
        router: None,
    }
}

#[test]
fn cache_eviction_does_not_change_keys_but_reconnect_does() {
    let mut r = receiver();
    let first = r.identity(history(Some(7), 1));
    assert_eq!(first.1, Some(7));
    assert_eq!(first.0, r.identity(history(None, 1)).0);
    r.identities = Identities::new();
    assert_eq!(first.0, r.identity(history(Some(7), 1)).0);
    // A session that went down and came up again is of another generation.
    assert_ne!(first.0, r.identity(history(Some(7), 2)).0);
}

#[test]
fn an_identity_is_a_document() {
    let mut r = receiver();
    r.collector = "a\"b".into();
    let (_, _, identity) = r.identity(history(None, 3));
    let value: serde_json::Value = serde_json::from_str(&identity).unwrap();
    assert_eq!(value["collector"].as_str(), Some("a\"b"));
    assert_eq!(value["generation"].as_u64(), Some(3));
    assert_eq!(value["missing"].as_bool(), Some(false));
    assert_eq!(value["session_ingress"].as_u64(), Some(1));
    assert!(value["router"].is_null());
    let mut unknown = history(None, 4);
    unknown.peer = None;
    r.identity(unknown);
    assert_eq!(r.missing_identity, 1);
}

#[test]
fn texts_in_an_identity_are_escaped() {
    let mut r = receiver();
    r.collector = "\"\\\u{8}\t\n\u{c}\r\u{1}\u{1f}/\u{7f}é".into();
    let (_, _, identity) = r.identity(history(None, 3));
    let escaped = "\"\\\"\\\\\\b\\t\\n\\f\\r\\u0001\\u001f/\u{7f}é\"";
    assert!(identity.starts_with(&format!("{{\"collector\":{escaped},")), "{identity}");
}

#[test]
fn peer_keys_depend_on_all_their_parts() {
    let mut r = receiver();
    let (key, _, _) = r.identity(history(None, 1));
    let mut hash = sha2::Sha256::new();
    hash.update([1; 16]);
    hash.update([2; 16]);
    hash.update(1u32.to_le_bytes());
    hash.update(1u64.to_le_bytes());
    assert_eq!(key, hash.finalize()[..16]);
}

#[test]
fn observations_become_events() {
    let route = classify_observation(Observation::Route {
        family: Family::Ipv6Unicast,
        withdrawn: true,
    });
    let Admission::Record(kind) = route else {
        panic!("not recorded");
    };
    assert_eq!(kind, EventKind { class: 1, kind: 2, afi: 2, safi: 1 });
    assert_eq!(
        classify_observation(Observation::Route { family: Family::Other, withdrawn: false }),
        Admission::Unsupported
    );
    assert_eq!(classify_observation(Observation::Other), Admission::Ignore);
    let base = receiver().base(9, 4, history(Some(5), 1), 1000);
    assert_eq!((base.ingress, base.kind, base.path_id), (9, 4, Some(5)));
    assert!(admission_cost(100, &base).unwrap() > 100);
    let event = route_event(base, kind, 2000, netom::addr::IpAddr::V6(1), 128, vec![0, 1]);
    assert_eq!((event.received_ms, event.afi, event.prefix_len), (2000, 2, 128));
    let event = control_event(Event::default(), kind);
    assert_eq!((event.class, event.kind), (1, 2));
    assert_eq!(received_at(1000, true, 5), 1005);
    assert_eq!(received_at(1000, false, 5), 995);
}

#[test]
fn the_identity_is_looked_up_for_all_routes_of_a_family() {
    let mut r = receiver();
    let unknown = || {
        let mut unknown = history(None, 4);
        unknown.peer = None;
        unknown
    };
    let route = Observation::Route { family: Family::Other, withdrawn: false };
    assert!(matches!(r.observe(9, route, unknown(), 1000), Observed::Unsupported));
    assert!(matches!(r.observe(9, Observation::Other, unknown(), 1000), Observed::Ignored));
    assert_eq!(r.missing_identity, 0);
    let gone = Observation::Withdraw(Some(Family::Other));
    assert!(matches!(r.observe(9, gone, unknown(), 1000), Observed::Unsupported));
    assert_eq!(r.missing_identity, 1);
    // It is kept from then on.
    assert!(matches!(r.observe(9, gone, unknown(), 1000), Observed::Unsupported));
    assert_eq!(r.missing_identity, 1);
    let all = Observation::Withdraw(None);
    let Observed::Recorded(event, kind) = r.observe(9, all, history(Some(5), 1), 1000) else {
        panic!("not recorded");
    };
    assert_eq!((event.ingress, event.kind, event.path_id), (9, 4, Some(5)));
    assert_eq!(kind, EventKind { class: 0, kind: 4, afi: 0, safi: 0 });
}

#[test]
fn only_the_writer_and_a_command_end_the_export() {
    assert_eq!(run_step(RunEvent::Reconfigure), RunAction::KeepConfiguration);
    assert_eq!(run_step(RunEvent::ReportLinks), RunAction::ReportLinks);
    assert_eq!(run_step(RunEvent::Terminate), RunAction::ShutDown { await_writer: true });
    assert_eq!(run_step(RunEvent::WriterEnded), RunAction::ShutDown { await_writer: false });
}

#[test]
fn frames_are_read_back_however_badly_they_compress() {
    // Octets that do not repeat.
    let mut x: u32 = 1;
    let data: Vec<u8> = (0..1 << 22)
        .map(|_| {
            x ^= x << 13;
            x ^= x >> 17;
            x ^= x << 5;
            x as u8
        })
        .collect();
    let frame = encode_frame(&data, 1).unwrap();
    let (mut segment, mut bytes) = Segment::create([7; 16]);
    bytes.extend_from_slice(&frame);
    segment.append(&frame).unwrap();
    bytes.extend(segment.seal());
    assert_eq!(replay(&bytes).unwrap(), vec![data]);
}

fn limits() -> Limits {
    Limits {
        spool_bytes: 1 << 40,
        reserve_bytes: 0,
        batch_rows: 3,
        batch_bytes: 1 << 20,
        flush_seconds: 1,
        retention_hours: 24,
        shutdown_seconds: 5,
    }
}

/// A spool in memory.
struct Memory {
    complete: Vec<Vec<u8>>,
    open: Vec<u8>,
    next: u8,
    usage: u64,
}

/// Runs a writer on some events until it comes to an end; says whether all was
/// written.
fn write(mut writer: Writer, mut events: Vec<Event>, disk: &mut Memory) -> bool {
    let mut now = 0;
    let mut input = Input::Tick;
    for _ in 0..10_000 {
        now += 10;
        let clock = Clock { stop: true, now, wall_ms: 1_700_000_000_000 + now as i64 };
        input = match writer.step(input, clock) {
            Action::Finish => return true,
            Action::Fail => return false,
            Action::CheckSpace => {
                Input::Space { usage: disk.usage, available: 1 << 40, total: 1 << 41 }
            }
            Action::WriteFrame => {
                disk.open.extend_from_slice(writer.outgoing());
                Input::Written
            }
            Action::SealSegment => {
                let mut bytes = std::mem::take(&mut disk.open);
                bytes.extend(writer.footer());
                disk.complete.push(bytes);
                Input::Sealed
            }
            Action::Receive => {
                Input::Received(if events.is_empty() { None } else { Some(events.remove(0)) })
            }
            Action::CreateSegment => {
                disk.next += 1;
                let id = [disk.next; 16];
                disk.open = Segment::create(id).1;
                Input::Created(id)
            }
            Action::SyncSegment => Input::Synced,
            Action::ReportUsage => Input::Reported,
            Action::Pause => {
                now += 100;
                Input::Tick
            }
            Action::Again => Input::Tick,
        };
    }
    panic!("no end");
}

#[test]
fn shutdown_seals_memory() {
    let mut r = receiver();
    let events: Vec<Event> = (0..10).map(|_| r.base(1, 4, history(None, 1), 0)).collect();
    let writer = Writer::new(limits(), [1; 16], [2; 16], "test", 0);
    let mut disk = Memory { complete: Vec::new(), open: Vec::new(), next: 0, usage: 0 };
    assert!(write(writer, events, &mut disk));
    assert!(disk.open.is_empty());
    let count: u32 = disk.complete.iter().map(|bytes| validate(bytes).unwrap().1).sum();
    assert!(count >= 13, "ten controls, start/end, and repeated segment identities");
}

#[test]
fn a_finished_history_holds_every_event_in_order() {
    let event = |n: u32| Event { ingress: n, kind: 4, received_ms: 1_000, ..Default::default() };
    let writer = Writer::new(limits(), [1; 16], [2; 16], "test", 0);
    let mut disk = Memory { complete: Vec::new(), open: Vec::new(), next: 0, usage: 0 };
    assert!(write(writer, (0..8).map(event).collect(), &mut disk));
    assert!(disk.complete.len() > 1);
    let all: Vec<u8> =
        disk.complete.iter().flat_map(|bytes| replay(bytes).unwrap().concat()).collect();
    // Behind the start of the history, which has the first number.
    let mut rows = Vec::new();
    for n in 0..8 {
        let mut row = event(n);
        row.seq = u64::from(n) + 1;
        row.expires = expiry(1_000, 24);
        row.encode(&mut rows);
    }
    assert!(all.windows(rows.len()).any(|window| window == rows));
}

#[test]
fn a_stopped_writer_finishes_in_few_steps() {
    let mut writer = Writer::new(limits(), [1; 16], [2; 16], "test", 0);
    let mut input = Input::Tick;
    for now in 0..40 {
        input = match writer.step(input, Clock { stop: true, now, wall_ms: 0 }) {
            Action::Finish => return,
            Action::CheckSpace => Input::Space { usage: 0, available: 1 << 40, total: 1 << 41 },
            Action::WriteFrame => Input::Written,
            Action::SealSegment => Input::Sealed,
            Action::Receive => Input::Received(None),
            Action::CreateSegment => Input::Created([7; 16]),
            Action::SyncSegment => Input::Synced,
            Action::ReportUsage => Input::Reported,
            Action::Again => Input::Tick,
            Action::Pause | Action::Fail => panic!("did not succeed"),
        };
    }
    panic!("no end");
}

#[test]
fn a_full_spool_is_given_up_at_the_shutdown_deadline() {
    let mut r = receiver();
    let events = vec![r.base(1, 4, history(None, 1), 0)];
    let limits = Limits { spool_bytes: 1, shutdown_seconds: 1, ..limits() };
    let writer = Writer::new(limits, [1; 16], [2; 16], "test", 0);
    let mut disk = Memory { complete: Vec::new(), open: Vec::new(), next: 0, usage: 1 };
    assert!(!write(writer, events, &mut disk));
}

#[test]
fn limits_come_from_the_configuration() {
    let mut config = Config::default();
    config.batch_rows = 77;
    config.shutdown_seconds = 9;
    let limits = Limits::of(&config);
    assert_eq!((limits.batch_rows, limits.shutdown_seconds), (77, 9));
}

#[test]
fn a_writer_first_looks_at_the_space() {
    let mut writer = Writer::new(limits(), [1; 16], [2; 16], "test", 0);
    let clock = Clock { stop: false, now: 0, wall_ms: 0 };
    assert_eq!(writer.step(Input::Tick, clock), Action::CheckSpace);
    assert_eq!(writer.phase, Phase::Space);
}

#[test]
fn uploads_that_fail_are_spread_out() {
    let mut pause = UploadBackoff::new();
    let pauses: Vec<u64> = (0..7).map(|_| pause.failed()).collect();
    assert_eq!(pauses, [1, 2, 4, 8, 16, 30, 30]);
    pause.succeeded();
    assert_eq!(pause.failed(), 1);
}

#[test]
fn configurations_are_checked() {
    let mut config = Config::default();
    config.endpoint = "http://localhost:8123".into();
    config.spool_dir = "/var/spool".into();
    assert_eq!(config.validate(), Ok(()));
    config.table = "a b".into();
    assert_eq!(config.validate().unwrap_err(), "database/table must be plain SQL identifiers");
    config.table = "t".into();
    config.endpoint = "ftp://h".into();
    assert_eq!(
        config.validate().unwrap_err(),
        "endpoint must be an HTTP(S) URL without credentials, query or fragment"
    );
    config.endpoint = "http://u:p@h".into();
    assert!(config.validate().is_err());
    config.endpoint = "http://h?q".into();
    assert!(config.validate().is_err());
    config.endpoint = "not a url".into();
    assert!(config.validate().unwrap_err().len() > 0);
    config.endpoint = "https://h".into();
    config.batch_rows = 0;
    assert_eq!(
        config.validate().unwrap_err(),
        "invalid ClickHouse resource limits (see docs/clickhouse.md)"
    );
}

#[test]
fn a_spool_is_bound_to_its_destination() {
    let mut a = Config::default();
    a.endpoint = "http://h".into();
    let mut b = Config::default();
    b.endpoint = "http://h".into();
    b.username = "someone".into();
    b.password_file = Some("p".into());
    assert_eq!(a.binding(), b.binding());
    b.table = "other".into();
    assert_ne!(a.binding(), b.binding());
}

#[test]
fn the_server_has_to_be_recent() {
    assert!(check_version("25.8.1.1").is_ok());
    assert!(check_version("26").is_ok());
    assert_eq!(check_version("25.7").unwrap_err(), "ClickHouse >=25.8 required; found 25.7");
    let expected = "x".parse::<u32>().unwrap_err().to_string();
    assert_eq!(check_version("x").unwrap_err(), expected);
    assert_eq!(check_version("25.x").unwrap_err(), expected);
    let config = Config::default();
    assert_eq!(Check::Version.query(&config), "SELECT version()");
    assert!(matches!(Check::Version.judge("25.8"), Ok(Check::Columns)));
    assert!(matches!(Check::Columns.judge("\n"), Ok(Check::Schema)));
    assert_eq!(Check::Columns.judge("x").unwrap_err(), "unexpected schema-check response: x");
    assert_eq!(Check::Schema.judge("{}").unwrap_err(), "invalid schema response");
    let ddl = "CREATE TABLE t ENGINE = MergeTree SETTINGS non_replicated_deduplication_window = 100";
    assert!(check_table(ddl).is_ok());
    assert!(check_table(&ddl.replace("100", "0")).is_err());
}

#[test]
fn answers_are_read_with_care() {
    assert_eq!(password_in("secret\r\n\n"), "secret");
    let mut body = vec![0; 10];
    assert!(add_chunk(&mut body, &[1]));
    assert!(!add_chunk(&mut body, &vec![0; 1 << 20]));
    assert_eq!(body.len(), 11);
    assert_eq!(answer(true, "200 OK", b"x\xff").unwrap(), "x\u{fffd}");
    assert_eq!(
        answer(false, "500 Internal Server Error", b"x").unwrap_err(),
        "ClickHouse HTTP 500 Internal Server Error: x"
    );
    assert_eq!(insert_outcome(7, " \n"), Ok(7));
    assert_eq!(insert_outcome(7, "Code: 1").unwrap_err(), "ClickHouse insert error: Code: 1");
    let parameters = insert_parameters(&Config::default(), "token");
    assert!(parameters.contains(&("insert_deduplication_token".into(), "token".into())));
}

#[test]
fn the_export_is_measured() {
    let metrics = Metrics {
        accepted: 1,
        inserted: 2,
        errors: 3,
        unsupported: 4,
        missing_identity: 5,
        stopped: 6,
        disk_bytes: 7,
        queue_bytes: 8,
        healthy: 1,
    };
    let mut target = Target::new();
    metrics.append("ch", &mut target);
    assert_eq!(target.samples.len(), 9);
    assert!(target.samples.iter().all(|s| s.unit_name.as_deref() == Some("ch")));
}
