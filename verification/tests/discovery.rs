use sankshepa::chunk::LogChunk;
use sankshepa::event::SyslogMessage;
use sankshepa::text::{join, tokenize};

fn create_msg(text: &str) -> SyslogMessage {
    SyslogMessage {
        priority: 34,
        facility: 4,
        severity: 2,
        timestamp: Some(1697062455003),
        hostname: Some("host".to_string()),
        app_name: None,
        procid: None,
        msgid: None,
        structured_data: None,
        message: text.to_string(),
        is_rfc5424: false,
    }
}

#[test]
fn test_template_discovery() {
    let mut chunk = LogChunk::new();
    chunk.add_message(create_msg("User alice logged in from 192.168.1.1"));
    chunk.add_message(create_msg("User bob logged in from 192.168.1.2"));
    chunk.add_message(create_msg("System restart"));

    chunk.finish_and_process();

    assert_eq!(chunk.templates.len(), 2);

    let patterns: Vec<String> = chunk.templates.clone();
    assert!(patterns.iter().any(|p| p == "User <*> logged in from <*>"));
    assert!(patterns.iter().any(|p| p == "System restart"));

    assert_eq!(chunk.records.len(), 3);

    // Find the record for alice
    let alice_record = chunk
        .records
        .iter()
        .find(|r| r.variables.contains(&"alice".to_string()))
        .expect("Should find alice record");
    assert_eq!(
        alice_record.variables,
        vec!["alice".to_string(), "192.168.1.1".to_string()]
    );
}

#[test]
fn tokenize_splits_on_any_whitespace() {
    let toks = tokenize("  User\talice  logged\nin ");
    assert_eq!(toks, vec!["User", "alice", "logged", "in"]);
    let toks2 = tokenize("");
    assert!(toks2.is_empty());
    let joined = join(&vec!["a".to_string(), "b".to_string(), "c".to_string()]);
    assert_eq!(joined, "a b c");
    assert_eq!(join(&Vec::new()), "");
}

#[test]
fn similarity_is_first_fit_at_half() {
    let chunk = LogChunk::new();
    let a = vec!["User".to_string(), "alice".to_string()];
    let b = vec!["User".to_string(), "bob".to_string()];
    let c = vec!["System".to_string(), "restart".to_string()];
    // one of two positions matches: exactly one half
    assert!(chunk.is_similar(&a, &b));
    // zero of two positions match
    assert!(!chunk.is_similar(&a, &c));
    // different lengths never match; empty always does
    assert!(!chunk.is_similar(&a, &vec!["User".to_string()]));
    assert!(chunk.is_similar(&Vec::new(), &Vec::new()));
    // a widened position counts as matching, whatever the token
    let w = vec!["User".to_string(), "<*>".to_string()];
    assert!(chunk.is_similar(&w, &c));
    let w2 = vec!["<*>".to_string(), "<*>".to_string()];
    assert!(chunk.is_similar(&w2, &c));
}

#[test]
fn merge_widens_differing_positions() {
    let chunk = LogChunk::new();
    let mut t = vec!["User".to_string(), "alice".to_string(), "in".to_string()];
    let e = vec!["User".to_string(), "bob".to_string(), "in".to_string()];
    chunk.merge_into_template(&mut t, &e);
    assert_eq!(t, vec!["User", "<*>", "in"]);
}

// Dense ids, variable counts and interning uniqueness, checked on a
// sealed chunk.
#[test]
fn sealed_chunk_invariants_hold() {
    let mut chunk = LogChunk::new();
    chunk.add_message(create_msg("job 1 done"));
    chunk.add_message(create_msg("job 2 done"));
    chunk.add_message(create_msg("job 2 done"));
    let mut msg = create_msg("disk full on /var");
    msg.app_name = Some("kernel".to_string());
    msg.hostname = Some("host".to_string());
    chunk.add_message(msg);
    chunk.finish_and_process();

    assert_eq!(chunk.records.len(), 4);
    assert_eq!(chunk.next_template_id as usize, chunk.templates.len());
    for r in &chunk.records {
        // dense template ids
        assert!((r.template_id as usize) < chunk.templates.len());
        // dense string ids
        for id in [
            r.hostname_id,
            r.app_name_id,
            r.procid_id,
            r.msgid_id,
            r.structured_data_id,
        ]
        .into_iter()
        .flatten()
        {
            assert!((id as usize) < chunk.string_pool.len());
        }
        // no more variables than placeholder slots
        let pattern = &chunk.templates[r.template_id as usize];
        let slots = pattern.matches("<*>").count();
        assert!(r.variables.len() <= slots);
    }
    // interning uniqueness
    for i in 0..chunk.string_pool.len() {
        for j in (i + 1)..chunk.string_pool.len() {
            assert_ne!(chunk.string_pool[i], chunk.string_pool[j]);
        }
    }
    // template table uniqueness
    for i in 0..chunk.templates.len() {
        for j in (i + 1)..chunk.templates.len() {
            assert_ne!(chunk.templates[i], chunk.templates[j]);
        }
    }
}

#[test]
fn import_template_is_idempotent() {
    let mut chunk = LogChunk::new();
    chunk.import_template("User <*> logged in".to_string());
    chunk.import_template("User <*> logged in".to_string());
    assert_eq!(chunk.templates.len(), 1);
    assert_eq!(chunk.next_template_id, 1);
    chunk.import_template("other".to_string());
    assert_eq!(chunk.templates.len(), 2);
}

// S5: ids are per-chunk; a pattern imported before the seal is not
// re-announced by that seal.
#[test]
fn second_chunk_remints_known_pattern() {
    let mut first = LogChunk::new();
    first.add_message(create_msg("User alice logged in from 192.168.1.1"));
    first.add_message(create_msg("User bob logged in from 192.168.1.2"));
    let minted = first.finish_and_process();
    assert_eq!(minted, vec!["User <*> logged in from <*>".to_string()]);

    // without the import, the second seal re-mints and re-announces
    let mut second = LogChunk::new();
    second.add_message(create_msg("User eve logged in from 10.0.0.7"));
    second.add_message(create_msg("User mallory logged in from 10.0.0.8"));
    let again = second.finish_and_process();
    assert_eq!(again, vec!["User <*> logged in from <*>".to_string()]);
    assert_eq!(second.templates.len(), 1);

    // with the import, the seal reuses the id and announces nothing
    let mut third = LogChunk::new();
    for p in &minted {
        third.import_template(p.clone());
    }
    third.add_message(create_msg("User carol logged in from 10.0.0.9"));
    third.add_message(create_msg("User dave logged in from 10.0.0.10"));
    let fresh = third.finish_and_process();
    assert!(fresh.is_empty());
    assert_eq!(third.templates.len(), 1);
    assert_eq!(third.records[0].template_id, 0);
}

// S3: sealing an empty chunk mints nothing.
#[test]
fn empty_seal_is_a_noop() {
    let mut chunk = LogChunk::new();
    let minted = chunk.finish_and_process();
    assert!(minted.is_empty());
    assert_eq!(chunk.records.len(), 0);
    assert_eq!(chunk.templates.len(), 0);
}

// An event with no tokens gets the empty pattern; all such events
// share it, with no variables.
#[test]
fn empty_messages_share_the_empty_template() {
    let mut chunk = LogChunk::new();
    chunk.add_message(create_msg(""));
    chunk.add_message(create_msg("   "));
    chunk.add_message(create_msg("one"));
    let minted = chunk.finish_and_process();
    assert_eq!(chunk.templates.len(), 2);
    assert_eq!(chunk.templates[0], "");
    assert_eq!(chunk.records.len(), 3);
    assert!(chunk.records[0].variables.is_empty());
    assert!(chunk.records[1].variables.is_empty());
    assert_eq!(chunk.records[0].template_id, chunk.records[1].template_id);
    assert_eq!(minted.len(), 2);
}

// Records are emitted bucket by bucket in ascending token count, and
// in insertion order within a bucket.
#[test]
fn seal_orders_records_by_token_count() {
    let mut chunk = LogChunk::new();
    chunk.add_message(create_msg("three token line"));
    chunk.add_message(create_msg("single"));
    chunk.add_message(create_msg("another three tokens"));
    chunk.finish_and_process();
    assert_eq!(chunk.records.len(), 3);
    // the one-token event comes first, then the three-token events in
    // their arrival order
    let p0 = &chunk.templates[chunk.records[0].template_id as usize];
    assert_eq!(p0, "single");
    let p1 = &chunk.templates[chunk.records[1].template_id as usize];
    assert_eq!(p1.split_whitespace().count(), 3);
}
