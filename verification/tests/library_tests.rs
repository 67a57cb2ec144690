use pgoutput_stream::{
    decode_insert, decode_pgoutput_message, decode_update, feldera_destination, first_failure,
    format_lsn, from_json, get_relation_columns, nats_subject, render_change, render_text, Catalog,
    Change, ColumnInfo, DecodeError, DeliveryOutcome, FetchedRow, OutputFormat, PollStep,
    ReplicationState, Tuple,
};

fn register_two_column_relation(catalog: &mut Catalog, relation_id: u32) {
    let mut data = vec![b'R'];
    data.extend_from_slice(&relation_id.to_be_bytes());
    data.extend_from_slice(b"public\0");
    data.extend_from_slice(b"users\0");
    data.push(1);
    data.extend_from_slice(&2u16.to_be_bytes());
    data.push(1);
    data.extend_from_slice(b"id\0");
    data.extend_from_slice(&23u32.to_be_bytes());
    data.extend_from_slice(&(-1i32).to_be_bytes());
    data.push(0);
    data.extend_from_slice(b"name\0");
    data.extend_from_slice(&1043u32.to_be_bytes());
    data.extend_from_slice(&(-1i32).to_be_bytes());
    decode_pgoutput_message(&data, catalog).unwrap();
}

/// LSN formatting: the 32-bit halves render as uppercase hex around a slash.
#[test]
fn test_format_lsn_boundaries() {
    assert_eq!(format_lsn(0x00000000FFFFFFFF), "0/FFFFFFFF");
    assert_eq!(format_lsn(0xFFFFFFFFFFFFFFFF), "FFFFFFFF/FFFFFFFF");
    assert_eq!(format_lsn(0), "0/0");
    assert_eq!(format_lsn(0x0000000001234567), "0/1234567");
}

/// Scenario: a begin payload with lsn 0x1234567, timestamp 123456789 and
/// xid 999 decodes to exactly those values.
#[test]
fn test_begin_scenario() {
    let mut data = vec![b'B'];
    data.extend_from_slice(&0x0000000001234567u64.to_be_bytes());
    data.extend_from_slice(&123456789i64.to_be_bytes());
    data.extend_from_slice(&999u32.to_be_bytes());

    let mut catalog = Catalog::new();
    match decode_pgoutput_message(&data, &mut catalog).unwrap() {
        Some(Change::Begin { lsn, timestamp, xid }) => {
            assert_eq!(lsn, "0/1234567");
            assert_eq!(timestamp, 123456789);
            assert_eq!(xid, 999);
        }
        other => panic!("expected a Begin change, got {:?}", other),
    }
}

/// Scenario: register relation 100 with columns [id:int, name:varchar],
/// decode an insert of ["1", "Alice"], and observe the named tuple.
#[test]
fn test_insert_scenario() {
    let mut catalog = Catalog::new();
    register_two_column_relation(&mut catalog, 100);

    let cols = get_relation_columns(&catalog, 100).unwrap();
    assert_eq!(cols.len(), 2);
    assert_eq!(cols[0].name, "id");
    assert_eq!(cols[0].type_id, 23);
    assert_eq!(cols[1].name, "name");
    assert_eq!(cols[1].type_id, 1043);

    let mut data = vec![b'I'];
    data.extend_from_slice(&100u32.to_be_bytes());
    data.push(b'N');
    data.extend_from_slice(&2u16.to_be_bytes());
    data.push(b't');
    data.extend_from_slice(&1u32.to_be_bytes());
    data.push(b'1');
    data.push(b't');
    data.extend_from_slice(&5u32.to_be_bytes());
    data.extend_from_slice(b"Alice");

    match decode_pgoutput_message(&data, &mut catalog).unwrap() {
        Some(Change::Insert { new_tuple, .. }) => {
            assert_eq!(new_tuple.get("id"), Some(Some("1".to_string())));
            assert_eq!(new_tuple.get("name"), Some(Some("Alice".to_string())));
        }
        other => panic!("expected an Insert change, got {:?}", other),
    }
}

/// A row-change for a relation the catalog has never seen fails with
/// an unknown-relation error.
#[test]
fn test_unknown_relation_rejected() {
    let catalog = Catalog::new();
    let mut data = vec![];
    data.extend_from_slice(&4242u32.to_be_bytes());
    data.push(b'N');
    data.extend_from_slice(&0u16.to_be_bytes());
    assert_eq!(decode_insert(&data, &catalog), Err(DecodeError::UnknownRelation(4242)));
}

/// A truncated begin payload and a bad tuple-kind marker each give their
/// own error.
#[test]
fn test_decode_error_variants() {
    let mut catalog = Catalog::new();
    let short = vec![b'B', 1, 2, 3];
    assert_eq!(decode_pgoutput_message(&short, &mut catalog), Err(DecodeError::Truncated));

    register_two_column_relation(&mut catalog, 7);
    let mut bad = vec![b'I'];
    bad.extend_from_slice(&7u32.to_be_bytes());
    bad.push(b'X');
    assert_eq!(
        decode_pgoutput_message(&bad, &mut catalog),
        Err(DecodeError::BadMarker(b'X'))
    );
}

/// The `u` (unchanged) value marker yields an absent value, exactly like
/// `n` (NULL); `t` yields the declared text.
#[test]
fn test_unchanged_marker_is_absent() {
    let mut catalog = Catalog::new();
    register_two_column_relation(&mut catalog, 9);

    let mut data = vec![b'U'];
    data.extend_from_slice(&9u32.to_be_bytes());
    data.push(b'N');
    data.extend_from_slice(&2u16.to_be_bytes());
    data.push(b'u'); // unchanged (toast omission)
    data.push(b't');
    data.extend_from_slice(&3u32.to_be_bytes());
    data.extend_from_slice(b"Bob");

    match decode_pgoutput_message(&data, &mut catalog).unwrap() {
        Some(Change::Update { old_tuple, new_tuple, .. }) => {
            assert!(old_tuple.is_none());
            assert_eq!(new_tuple.get("id"), Some(None));
            assert_eq!(new_tuple.get("name"), Some(Some("Bob".to_string())));
        }
        other => panic!("expected an Update change, got {:?}", other),
    }
}

/// After an old tuple, the next marker must be `N`: anything else is a
/// decode error.
#[test]
fn test_update_old_tuple_requires_new_marker() {
    let mut catalog = Catalog::new();
    register_two_column_relation(&mut catalog, 11);

    let mut data = vec![];
    data.extend_from_slice(&11u32.to_be_bytes());
    data.push(b'O');
    data.extend_from_slice(&1u16.to_be_bytes());
    data.push(b'n');
    data.push(b'Q'); // should have been 'N'
    assert_eq!(decode_update(&data, &catalog), Err(DecodeError::BadMarker(b'Q')));
}

/// Invalid UTF-8 bytes in a text value decode lossily, substituting the
/// replacement character.
#[test]
fn test_lossy_text_value() {
    let mut catalog = Catalog::new();
    register_two_column_relation(&mut catalog, 13);

    let mut data = vec![b'I'];
    data.extend_from_slice(&13u32.to_be_bytes());
    data.push(b'N');
    data.extend_from_slice(&1u16.to_be_bytes());
    data.push(b't');
    data.extend_from_slice(&1u32.to_be_bytes());
    data.push(0xFF); // not valid UTF-8

    match decode_pgoutput_message(&data, &mut catalog).unwrap() {
        Some(Change::Insert { new_tuple, .. }) => {
            assert_eq!(new_tuple.get("id"), Some(Some("\u{FFFD}".to_string())));
        }
        other => panic!("expected an Insert change, got {:?}", other),
    }
}

/// A relation id may be silently redefined: the latest definition wins.
#[test]
fn test_relation_redefinition_wins() {
    let mut catalog = Catalog::new();
    register_two_column_relation(&mut catalog, 21);

    let mut data = vec![b'R'];
    data.extend_from_slice(&21u32.to_be_bytes());
    data.extend_from_slice(b"public\0");
    data.extend_from_slice(b"users\0");
    data.push(1);
    data.extend_from_slice(&1u16.to_be_bytes());
    data.push(0);
    data.extend_from_slice(b"renamed\0");
    data.extend_from_slice(&25u32.to_be_bytes());
    data.extend_from_slice(&(-1i32).to_be_bytes());
    decode_pgoutput_message(&data, &mut catalog).unwrap();

    let cols = get_relation_columns(&catalog, 21).unwrap();
    assert_eq!(cols.len(), 1);
    assert_eq!(cols[0].name, "renamed");
    assert_eq!(cols[0].type_id, 25);
}

/// The JSON round trip on every variant, value for value.
#[test]
fn test_json_round_trip_exact() {
    let mut new_tuple = Tuple::new();
    new_tuple.insert("a\"b\\c".to_string(), Some("line\nbreak\ttab".to_string()));
    new_tuple.insert("nil".to_string(), None);
    let mut old_tuple = Tuple::new();
    old_tuple.insert("key".to_string(), Some("值".to_string()));

    let changes = vec![
        Change::Begin { lsn: "0/10".to_string(), timestamp: -5, xid: 0 },
        Change::Commit { lsn: "AB/CD".to_string(), timestamp: i64::MIN },
        Change::Insert {
            relation_id: 1,
            schema: "s".to_string(),
            table: "t".to_string(),
            new_tuple: new_tuple.clone(),
        },
        Change::Update {
            relation_id: 2,
            schema: "s".to_string(),
            table: "t".to_string(),
            old_tuple: Some(old_tuple.clone()),
            new_tuple: new_tuple.clone(),
        },
        Change::Update {
            relation_id: 2,
            schema: "s".to_string(),
            table: "t".to_string(),
            old_tuple: None,
            new_tuple: Tuple::new(),
        },
        Change::Delete {
            relation_id: 3,
            schema: "s".to_string(),
            table: "t".to_string(),
            old_tuple,
        },
        Change::Relation {
            relation_id: 4,
            schema: "s".to_string(),
            table: "t".to_string(),
            columns: vec![
                ColumnInfo { name: "id".to_string(), type_id: 23, flags: 1 },
                ColumnInfo { name: "näme".to_string(), type_id: 1043, flags: 0 },
            ],
        },
        Change::Relation {
            relation_id: 5,
            schema: "s".to_string(),
            table: "t".to_string(),
            columns: vec![],
        },
    ];

    for change in changes {
        let json = change.to_json();
        let back = from_json(&json).expect("round trip parse");
        assert_eq!(back, change);
        // cross-check against an independent JSON parser
        let _: serde_json::Value = serde_json::from_str(&json).unwrap();
    }
}

/// Broker subjects: table-scoped changes route under schema and table,
/// transaction markers under the transactions prefix.
#[test]
fn test_nats_subject_strings() {
    let mut t = Tuple::new();
    t.insert("id".to_string(), Some("1".to_string()));
    let insert = Change::Insert {
        relation_id: 1,
        schema: "public".to_string(),
        table: "users".to_string(),
        new_tuple: t,
    };
    assert_eq!(nats_subject("postgres", &insert), "postgres.public.users.insert");

    let begin = Change::Begin { lsn: "0/1".to_string(), timestamp: 1, xid: 1 };
    assert_eq!(nats_subject("postgres", &begin), "postgres.transactions.begin.event");

    let commit = Change::Commit { lsn: "0/2".to_string(), timestamp: 2 };
    assert_eq!(nats_subject("pfx", &commit), "pfx.transactions.commit.event");

    let relation = Change::Relation {
        relation_id: 1,
        schema: "sales".to_string(),
        table: "orders".to_string(),
        columns: vec![],
    };
    assert_eq!(nats_subject("postgres", &relation), "postgres.sales.orders.relation");
}

/// Ingestion routing: dynamic when no allow-list is set, filtered when one
/// is, and nothing for transaction markers.
#[test]
fn test_feldera_destination_routing() {
    let delete = Change::Delete {
        relation_id: 1,
        schema: "public".to_string(),
        table: "users".to_string(),
        old_tuple: Tuple::new(),
    };
    assert_eq!(feldera_destination(&None, &delete), Some("public_users".to_string()));

    let allowed = Some(vec!["public_users".to_string(), "sales_orders".to_string()]);
    assert_eq!(feldera_destination(&allowed, &delete), Some("public_users".to_string()));

    let other = Change::Insert {
        relation_id: 2,
        schema: "analytics".to_string(),
        table: "events".to_string(),
        new_tuple: Tuple::new(),
    };
    assert_eq!(feldera_destination(&allowed, &other), None);

    let begin = Change::Begin { lsn: "0/1".to_string(), timestamp: 1, xid: 1 };
    assert_eq!(feldera_destination(&None, &begin), None);
}

/// Dispatch reduction: zero sinks succeed trivially; a failing sink among
/// several is reported, and the first failure wins.
#[test]
fn test_first_failure_reduction() {
    let none: Vec<DeliveryOutcome> = vec![];
    assert_eq!(first_failure(&none), None);

    let all_ok = vec![DeliveryOutcome::Delivered, DeliveryOutcome::Delivered];
    assert_eq!(first_failure(&all_ok), None);

    let mixed = vec![
        DeliveryOutcome::Delivered,
        DeliveryOutcome::Failed("broker unreachable".to_string()),
        DeliveryOutcome::Failed("timeout".to_string()),
    ];
    assert_eq!(first_failure(&mixed), Some(1));
}

/// Idle polling: empty fetches ask only for a sleep, any number of times,
/// without touching the driver's state or raising an error.
#[test]
fn test_idle_polling() {
    let mut state = ReplicationState::new();
    for _ in 0..5 {
        let empty: Vec<FetchedRow> = vec![];
        match state.poll_step(&empty).unwrap() {
            PollStep::Sleep => {}
            other => panic!("expected a sleep request, got {:?}", other),
        }
    }
    assert_eq!(state.last_received_lsn(), None);
    assert_eq!(state.last_processed_lsn(), None);
}

/// A fetched batch is decoded in arrival order and delivered one change at
/// a time; positions are tracked for observability.
#[test]
fn test_driver_stream_flow() {
    let mut state = ReplicationState::new();

    let mut begin = vec![b'B'];
    begin.extend_from_slice(&0x100u64.to_be_bytes());
    begin.extend_from_slice(&1i64.to_be_bytes());
    begin.extend_from_slice(&5u32.to_be_bytes());

    let mut commit = vec![b'C', 0];
    commit.extend_from_slice(&0x200u64.to_be_bytes());
    commit.extend_from_slice(&0x201u64.to_be_bytes());
    commit.extend_from_slice(&2i64.to_be_bytes());

    let rows = vec![
        FetchedRow { lsn: "0/100".to_string(), data: begin },
        FetchedRow { lsn: "0/200".to_string(), data: commit },
    ];

    match state.poll_step(&rows).unwrap() {
        PollStep::Deliver(Change::Begin { lsn, xid, .. }) => {
            assert_eq!(lsn, "0/100");
            assert_eq!(xid, 5);
        }
        other => panic!("expected the begin marker first, got {:?}", other),
    }
    assert_eq!(state.last_received_lsn(), Some("0/200"));

    state.mark_processed("0/100");
    assert_eq!(state.last_processed_lsn(), Some("0/100"));

    match state.next_buffered() {
        Some(Change::Commit { lsn, .. }) => assert_eq!(lsn, "0/200"),
        other => panic!("expected the buffered commit next, got {:?}", other),
    }
    assert_eq!(state.next_buffered(), None);

    // a batch of only unsupported messages yields an immediate retry
    let rows = vec![FetchedRow { lsn: "0/300".to_string(), data: vec![b'O'] }];
    match state.poll_step(&rows).unwrap() {
        PollStep::Retry => {}
        other => panic!("expected an immediate retry, got {:?}", other),
    }
    assert_eq!(state.last_received_lsn(), Some("0/300"));

    // a decode failure aborts the batch with its error
    let rows = vec![FetchedRow { lsn: "0/400".to_string(), data: vec![b'B', 1] }];
    assert_eq!(state.poll_step(&rows), Err(DecodeError::Truncated));
}

/// The text rendering follows the fixed template line for line.
#[test]
fn test_render_text_template() {
    let begin = Change::Begin { lsn: "0/16B2D50".to_string(), timestamp: 730826470123456, xid: 1000 };
    assert_eq!(
        render_text(&begin),
        "BEGIN [LSN: 0/16B2D50, XID: 1000, Time: 730826470123456]\n"
    );

    let mut t = Tuple::new();
    t.insert("name".to_string(), Some("Alice".to_string()));
    t.insert("email".to_string(), None);
    let insert = Change::Insert {
        relation_id: 16384,
        schema: "public".to_string(),
        table: "users".to_string(),
        new_tuple: t,
    };
    assert_eq!(
        render_text(&insert),
        "INSERT into public.users (ID: 16384)\n  New values:\n    name: Alice\n    email: NULL\n"
    );
}

/// The console renderings agree with their formats, and the pretty form
/// holds the same values as the compact one.
#[test]
fn test_render_change_formats() {
    let commit = Change::Commit { lsn: "0/16B2E20".to_string(), timestamp: 730826470123457 };

    let compact = render_change(&commit, &OutputFormat::Json);
    assert_eq!(compact, commit.to_json());

    let pretty = render_change(&commit, &OutputFormat::JsonPretty);
    let a: serde_json::Value = serde_json::from_str(&compact).unwrap();
    let b: serde_json::Value = serde_json::from_str(&pretty).unwrap();
    assert_eq!(a, b);

    let text = render_change(&commit, &OutputFormat::Text);
    assert_eq!(text, "COMMIT [LSN: 0/16B2E20, Time: 730826470123457]\n");
}

/// Positional column names are synthesized when a tuple is wider than its
/// relation's known column list.
#[test]
fn test_positional_column_names() {
    let mut catalog = Catalog::new();
    register_two_column_relation(&mut catalog, 31);

    let mut data = vec![b'I'];
    data.extend_from_slice(&31u32.to_be_bytes());
    data.push(b'N');
    data.extend_from_slice(&3u16.to_be_bytes());
    data.push(b'n');
    data.push(b'n');
    data.push(b't');
    data.extend_from_slice(&5u32.to_be_bytes());
    data.extend_from_slice(b"extra");

    match decode_pgoutput_message(&data, &mut catalog).unwrap() {
        Some(Change::Insert { new_tuple, .. }) => {
            assert_eq!(new_tuple.get("column_2"), Some(Some("extra".to_string())));
        }
        other => panic!("expected an Insert change, got {:?}", other),
    }
}
