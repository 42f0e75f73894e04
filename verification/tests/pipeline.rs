use sankshepa::chunk::LogChunk;
use sankshepa::cluster::{apply_cluster_message, ClusterAction, ClusterMessage};
use sankshepa::event::SyslogMessage;
use sankshepa::frame::{next_frame, FrameStep};
use sankshepa::reconstruct::{query_records, reconstruct_pattern, resolve_id, u8_dec};
use sankshepa::storage::StorageEngine;
use sankshepa::supervisor::Supervisor;

fn msg_5424(message: &str) -> SyslogMessage {
    SyslogMessage {
        priority: 34,
        facility: 4,
        severity: 2,
        timestamp: Some(0),
        hostname: Some("myhost".to_string()),
        app_name: Some("myapp".to_string()),
        procid: Some("1234".to_string()),
        msgid: Some("ID47".to_string()),
        structured_data: Some("exampleSDID@32473".to_string()),
        message: message.to_string(),
        is_rfc5424: true,
    }
}

#[test]
fn reconstruct_fills_slots_left_to_right() {
    let vars = vec!["alice".to_string(), "192.168.1.1".to_string()];
    let line = reconstruct_pattern("User <*> logged in from <*>", &vars);
    assert_eq!(line, "User alice logged in from 192.168.1.1");

    // too few variables: the remaining slot stays literal
    let one = vec!["alice".to_string()];
    assert_eq!(
        reconstruct_pattern("User <*> logged in from <*>", &one),
        "User alice logged in from <*>"
    );

    // too many variables: the extras are unused
    let three = vec!["a".to_string(), "b".to_string(), "c".to_string()];
    assert_eq!(reconstruct_pattern("x <*> y", &three), "x a y");

    // a substituted variable is not rescanned
    let tricky = vec!["<*>x".to_string(), "b".to_string()];
    assert_eq!(reconstruct_pattern("<*> <*>", &tricky), "<*>x b");
}

#[test]
fn resolve_falls_back_to_dash() {
    let pool = vec!["one".to_string(), "two".to_string()];
    assert_eq!(resolve_id(&pool, Some(1)), "two");
    assert_eq!(resolve_id(&pool, None), "-");
    assert_eq!(resolve_id(&pool, Some(9)), "-");
}

#[test]
fn priority_renders_in_decimal() {
    assert_eq!(u8_dec(0), "0");
    assert_eq!(u8_dec(7), "7");
    assert_eq!(u8_dec(34), "34");
    assert_eq!(u8_dec(191), "191");
    assert_eq!(u8_dec(255), "255");
}

#[test]
fn query_reconstructs_syslog_lines() {
    let mut chunk = LogChunk::new();
    chunk.add_message(msg_5424("User alice logged in"));
    chunk.add_message(msg_5424("User bob logged in"));
    chunk.finish_and_process();
    let bytes = StorageEngine::encode_chunk(&chunk);
    let loaded = StorageEngine::decode_chunk(&bytes).unwrap();

    let lines = query_records(&loaded, None, &None);
    assert_eq!(lines.len(), 2);
    assert_eq!(
        lines[0],
        "<34>1 1970-01-01T00:00:00+00:00 myhost myapp 1234 ID47 [exampleSDID@32473] User alice logged in"
    );

    // the case-insensitive filter matches against headers and body
    let some_alice = query_records(&loaded, None, &Some("ALICE".to_string()));
    assert_eq!(some_alice.len(), 1);
    let none = query_records(&loaded, None, &Some("zebra".to_string()));
    assert!(none.is_empty());

    // the template-id filter keeps only matching records
    let by_tid = query_records(&loaded, Some(0), &None);
    assert_eq!(by_tid.len(), 2);
    let by_wrong_tid = query_records(&loaded, Some(9), &None);
    assert!(by_wrong_tid.is_empty());
}

#[test]
fn query_renders_bsd_lines() {
    let mut chunk = LogChunk::new();
    let mut m = msg_5424("System restart");
    m.is_rfc5424 = false;
    m.hostname = Some("mymachine".to_string());
    chunk.add_message(m);
    chunk.finish_and_process();
    let lines = query_records(&chunk, None, &None);
    assert_eq!(lines, vec!["<34>Jan 01 00:00:00 mymachine System restart"]);
}

#[test]
fn tcp_framing_decides_per_leading_byte() {
    // octet counting: length, space, payload
    let r = next_frame(&b"5 hello rest".to_vec());
    match r {
        FrameStep::Frame { payload, consumed } => {
            assert_eq!(payload, b"hello");
            assert_eq!(consumed, 7);
        }
        _ => panic!("expected a frame"),
    }
    // not enough bytes yet
    assert!(matches!(
        next_frame(&b"12 short".to_vec()),
        FrameStep::NeedMore
    ));
    assert!(matches!(next_frame(&b"123".to_vec()), FrameStep::NeedMore));
    // a length field that is not a number is discarded
    assert!(matches!(
        next_frame(&b"1x2 zzz".to_vec()),
        FrameStep::Skip { consumed: 4 }
    ));
    // non-transparent framing: '<' to the newline, inclusive
    let r2 = next_frame(&b"<34>1 - h a p m - hi\nmore".to_vec());
    match r2 {
        FrameStep::Frame { payload, consumed } => {
            assert_eq!(payload, b"<34>1 - h a p m - hi\n");
            assert_eq!(consumed, 21);
        }
        _ => panic!("expected a frame"),
    }
    assert!(matches!(next_frame(&b"<unfinished".to_vec()), FrameStep::NeedMore));
    // empty lines are skipped one byte at a time
    assert!(matches!(next_frame(&b"\nrest".to_vec()), FrameStep::Skip { consumed: 1 }));
    assert!(matches!(next_frame(&b"\r\n".to_vec()), FrameStep::Skip { consumed: 1 }));
    // junk is discarded through the newline
    assert!(matches!(
        next_frame(&b"junk\n<34>ok".to_vec()),
        FrameStep::Skip { consumed: 5 }
    ));
    assert!(matches!(next_frame(&Vec::new()), FrameStep::NeedMore));
}

#[test]
fn cluster_messages_decide_actions() {
    let hb = ClusterMessage::Heartbeat {
        node_id: "n1".to_string(),
        templates_count: 3,
    };
    match apply_cluster_message(hb, 1700000000) {
        ClusterAction::RecordPeer(p) => {
            assert_eq!(p.last_seen, 1700000000);
            assert_eq!(p.templates_count, 3);
        }
        _ => panic!("expected a peer record"),
    }
    let nt = ClusterMessage::NewTemplate {
        pattern: "User <*> logged in".to_string(),
    };
    match apply_cluster_message(nt, 0) {
        ClusterAction::ForwardTemplate(p) => assert_eq!(p, "User <*> logged in"),
        _ => panic!("expected a forward"),
    }
    let sync = ClusterMessage::SyncState(vec!["a".to_string()]);
    assert!(matches!(apply_cluster_message(sync, 0), ClusterAction::Ignore));
}

#[test]
fn supervisor_seals_at_the_threshold() {
    let mut sup = Supervisor::new(3);
    assert!(sup.on_event(msg_5424("User alice logged in")).is_none());
    assert!(sup.on_event(msg_5424("User bob logged in")).is_none());
    let out = sup.on_event(msg_5424("System restart")).unwrap();
    assert_eq!(out.new_patterns.len(), 2);
    let chunk = StorageEngine::decode_chunk(&out.archive).unwrap();
    assert_eq!(chunk.records.len(), 3);
    assert_eq!(chunk.templates.len(), 2);

    // a partial chunk is sealed on shutdown; an empty one is not
    assert!(sup.on_event(msg_5424("tail event")).is_none());
    let last = sup.on_shutdown().unwrap();
    let tail = StorageEngine::decode_chunk(&last.archive).unwrap();
    assert_eq!(tail.records.len(), 1);
    assert!(sup.on_shutdown().is_none());
}
