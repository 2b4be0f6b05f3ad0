use walle_sqlx::data::{DeleteEvents, Event, ExtraEntry, GetEvents, Value};
use walle_sqlx::handler::{
    before_event, handle_call, is_sql_action, ActionCall, CallOutcome, Resp, RETCODE_BAD_PARAM,
    RETCODE_EVENT_NOT_FOUND,
};
use walle_sqlx::query::{build_delete_query, build_get_query, u32_dec, Bind};
use walle_sqlx::store::{EventStore, StoreError};

fn entry(key: &str, value: Value) -> ExtraEntry {
    ExtraEntry { key: key.to_owned(), value }
}

fn sample_event(id: &str, time: u64, ty: &str, user: &str) -> Event {
    Event {
        id: id.to_owned(),
        time,
        ty: ty.to_owned(),
        detail_type: "detail_type".to_owned(),
        sub_type: "sub_type".to_owned(),
        extra: vec![entry("user_id", Value::Str(user.to_owned()))],
    }
}

#[test]
fn t() {
    let mut handler = EventStore::new();
    if handler.get_event("id").unwrap().is_none() {
        handler
            .insert_event(&Event {
                id: "id".to_owned(),
                time: 0,
                ty: "type".to_owned(),
                detail_type: "detail_type".to_owned(),
                sub_type: "sub_type".to_owned(),
                extra: vec![entry("user_id", Value::Str("user_id".to_owned()))],
            })
            .unwrap();
        handler
            .insert_event(&Event {
                id: "id0".to_owned(),
                time: 1,
                ty: "type".to_owned(),
                detail_type: "detail_type".to_owned(),
                sub_type: "sub_type".to_owned(),
                extra: vec![entry("user_id", Value::Str("user_id".to_owned()))],
            })
            .unwrap();
    }
    let es = handler
        .get_events(&GetEvents {
            ty: Some("type".to_owned()),
            detail_type: Some("detail_type".to_owned()),
            ..Default::default()
        })
        .unwrap();
    assert_eq!(es.len(), 2);
    assert_eq!(es[0].id, "id0");
    assert_eq!(es[1].id, "id");
    let n = handler
        .delete_events(&DeleteEvents {
            before: Some(2),
            ..Default::default()
        })
        .unwrap();
    assert_eq!(n, 2);
}

#[test]
fn round_trip_all_fields() {
    let mut store = EventStore::new();
    let ev = Event {
        id: "evt-1".to_owned(),
        time: 1234,
        ty: "message".to_owned(),
        detail_type: "private".to_owned(),
        sub_type: "".to_owned(),
        extra: vec![
            entry("user_id", Value::Str("alice".to_owned())),
            entry("attempt", Value::Int(-3)),
            entry("silent", Value::Bool(true)),
            entry("note", Value::Str("free-form".to_owned())),
        ],
    };
    store.insert_event(&ev).unwrap();
    let got = store.get_event("evt-1").unwrap().expect("stored event");
    assert_eq!(got, ev);
}

#[test]
fn not_found_is_not_an_error() {
    let store = EventStore::new();
    let got = store.get_event("missing").unwrap();
    assert!(got.is_none());
}

#[test]
fn empty_filter_guards() {
    let mut store = EventStore::new();
    store.insert_event(&sample_event("a", 1, "T", "U1")).unwrap();
    let es = store.get_events(&GetEvents::default()).unwrap();
    assert!(es.is_empty());
    let n = store.delete_events(&DeleteEvents::default()).unwrap();
    assert_eq!(n, 0);
    assert!(store.get_event("a").unwrap().is_some());
}

#[test]
fn filter_conjunction() {
    let mut store = EventStore::new();
    store.insert_event(&sample_event("a", 1, "T", "U1")).unwrap();
    store.insert_event(&sample_event("b", 2, "T", "U2")).unwrap();
    store.insert_event(&sample_event("c", 3, "S", "U1")).unwrap();
    let es = store
        .get_events(&GetEvents {
            ty: Some("T".to_owned()),
            user_id: Some("U1".to_owned()),
            ..Default::default()
        })
        .unwrap();
    assert_eq!(es.len(), 1);
    assert_eq!(es[0].id, "a");
}

#[test]
fn ordering_and_pagination() {
    let mut store = EventStore::new();
    store.insert_event(&sample_event("x1", 1, "T", "U")).unwrap();
    store.insert_event(&sample_event("x3", 3, "T", "U")).unwrap();
    store.insert_event(&sample_event("x2", 2, "T", "U")).unwrap();
    let all = store
        .get_events(&GetEvents {
            ty: Some("T".to_owned()),
            ..Default::default()
        })
        .unwrap();
    let times: Vec<u64> = all.iter().map(|e| e.time).collect();
    assert_eq!(times, vec![3, 2, 1]);
    let page = store
        .get_events(&GetEvents {
            ty: Some("T".to_owned()),
            limit: Some(1),
            offset: Some(1),
            ..Default::default()
        })
        .unwrap();
    assert_eq!(page.len(), 1);
    assert_eq!(page[0].time, 2);
    assert_eq!(page[0].id, "x2");
}

#[test]
fn duplicate_id_fails_and_keeps_first() {
    let mut store = EventStore::new();
    store.insert_event(&sample_event("dup", 1, "T", "first")).unwrap();
    let second = sample_event("dup", 9, "S", "second");
    let err = store.insert_event(&second).unwrap_err();
    assert_eq!(err, StoreError::DuplicateId);
    let kept = store.get_event("dup").unwrap().expect("first stays");
    assert_eq!(kept.time, 1);
    assert_eq!(kept.ty, "T");
}

#[test]
fn delete_before_exact() {
    let mut store = EventStore::new();
    store.insert_event(&sample_event("t1", 1, "T", "U")).unwrap();
    store.insert_event(&sample_event("t2", 2, "T", "U")).unwrap();
    store.insert_event(&sample_event("t3", 3, "T", "U")).unwrap();
    let n = store
        .delete_events(&DeleteEvents {
            before: Some(3),
            ..Default::default()
        })
        .unwrap();
    assert_eq!(n, 2);
    assert!(store.get_event("t1").unwrap().is_none());
    assert!(store.get_event("t2").unwrap().is_none());
    assert_eq!(store.get_event("t3").unwrap().unwrap().time, 3);
}

#[test]
fn get_query_text_and_binds() {
    let (sql, binds) = build_get_query(&GetEvents {
        ty: Some("T".to_owned()),
        user_id: Some("U1".to_owned()),
        ..Default::default()
    });
    assert_eq!(
        sql,
        "SELECT id, time, type, detail_type, sub_type, data FROM events \
         WHERE type=? AND user_id=? ORDER BY time DESC LIMIT 10;"
    );
    assert_eq!(
        binds,
        vec![Bind::Text("T".to_owned()), Bind::Text("U1".to_owned())]
    );
    let (sql2, binds2) = build_get_query(&GetEvents {
        guild_id: Some("G".to_owned()),
        limit: Some(25),
        offset: Some(4),
        ..Default::default()
    });
    assert_eq!(
        sql2,
        "SELECT id, time, type, detail_type, sub_type, data FROM events \
         WHERE guild_id=? ORDER BY time DESC LIMIT 25 OFFSET 4;"
    );
    assert_eq!(binds2, vec![Bind::Text("G".to_owned())]);
}

#[test]
fn delete_query_text_and_binds() {
    let (sql, binds) = build_delete_query(&DeleteEvents {
        ty: Some("T".to_owned()),
        before: Some(5),
        ..Default::default()
    });
    assert_eq!(sql, "DELETE FROM events WHERE type=? AND time<?;");
    assert_eq!(binds, vec![Bind::Text("T".to_owned()), Bind::Time(5)]);
    let (sql2, binds2) = build_delete_query(&DeleteEvents {
        id: Some("a".to_owned()),
        ..Default::default()
    });
    assert_eq!(sql2, "DELETE FROM events WHERE id=?;");
    assert_eq!(binds2, vec![Bind::Text("a".to_owned())]);
}

#[test]
fn placeholder_parity_on_every_combination() {
    // Walk all combinations of the three representative fields and the
    // before bound: the placeholder count always equals the bind count.
    for mask in 0..16u32 {
        let d = DeleteEvents {
            id: if mask & 1 != 0 { Some("i".to_owned()) } else { None },
            ty: if mask & 2 != 0 { Some("t".to_owned()) } else { None },
            user_id: if mask & 4 != 0 { Some("u".to_owned()) } else { None },
            before: if mask & 8 != 0 { Some(7) } else { None },
            ..Default::default()
        };
        if d.is_empty() {
            continue;
        }
        let (sql, binds) = build_delete_query(&d);
        let placeholders = sql.matches('?').count();
        assert_eq!(placeholders, binds.len());
    }
}

#[test]
fn decimal_rendering() {
    assert_eq!(u32_dec(0), "0");
    assert_eq!(u32_dec(10), "10");
    assert_eq!(u32_dec(4294967295), "4294967295");
}

#[test]
fn reserved_action_names() {
    assert!(is_sql_action("get_event"));
    assert!(is_sql_action("get_events"));
    assert!(is_sql_action("delete_events"));
    assert!(!is_sql_action("send_message"));
    assert!(!is_sql_action(""));
}

#[test]
fn filter_emptiness() {
    assert!(GetEvents::default().is_empty());
    assert!(!GetEvents {
        ty: Some("T".to_owned()),
        ..Default::default()
    }
    .is_empty());
    // Pagination alone does not constrain anything.
    assert!(GetEvents {
        limit: Some(3),
        offset: Some(1),
        ..Default::default()
    }
    .is_empty());
    assert!(DeleteEvents::default().is_empty());
    assert!(!DeleteEvents {
        before: Some(1),
        ..Default::default()
    }
    .is_empty());
}

#[test]
fn decorator_forwards_unreserved_unchanged() {
    let mut store = EventStore::new();
    let call = ActionCall {
        action: "send_message".to_owned(),
        params: vec![entry("text", Value::Str("hi".to_owned()))],
    };
    let expected = ActionCall {
        action: "send_message".to_owned(),
        params: vec![entry("text", Value::Str("hi".to_owned()))],
    };
    match handle_call(&mut store, call) {
        CallOutcome::Forward(a) => assert_eq!(a, expected),
        CallOutcome::Handled(_) => panic!("unreserved action must be forwarded"),
    }
}

#[test]
fn decorator_serves_get_event() {
    let mut store = EventStore::new();
    let ev = sample_event("served", 8, "T", "U");
    store.insert_event(&ev).unwrap();
    let call = ActionCall {
        action: "get_event".to_owned(),
        params: vec![entry("id", Value::Str("served".to_owned()))],
    };
    match handle_call(&mut store, call) {
        CallOutcome::Handled(Resp::Event(e)) => assert_eq!(e, ev),
        _ => panic!("reserved action must be served"),
    }
    let missing = ActionCall {
        action: "get_event".to_owned(),
        params: vec![entry("id", Value::Str("nobody".to_owned()))],
    };
    match handle_call(&mut store, missing) {
        CallOutcome::Handled(Resp::Error { retcode, .. }) => {
            assert_eq!(retcode, RETCODE_EVENT_NOT_FOUND)
        }
        _ => panic!("missing event must answer not-found"),
    }
}

#[test]
fn decorator_rejects_bad_params_naming_the_field() {
    let mut store = EventStore::new();
    let call = ActionCall {
        action: "get_event".to_owned(),
        params: vec![entry("id", Value::Int(3))],
    };
    match handle_call(&mut store, call) {
        CallOutcome::Handled(Resp::Error { retcode, message }) => {
            assert_eq!(retcode, RETCODE_BAD_PARAM);
            assert_eq!(message, "id");
        }
        _ => panic!("malformed parameters must be rejected"),
    }
    let call2 = ActionCall {
        action: "get_events".to_owned(),
        params: vec![entry("limit", Value::Str("ten".to_owned()))],
    };
    match handle_call(&mut store, call2) {
        CallOutcome::Handled(Resp::Error { retcode, message }) => {
            assert_eq!(retcode, RETCODE_BAD_PARAM);
            assert_eq!(message, "limit");
        }
        _ => panic!("malformed parameters must be rejected"),
    }
    // A floating-point page size is the wrong kind, not an absent field.
    let call3 = ActionCall {
        action: "get_events".to_owned(),
        params: vec![
            entry("ty", Value::Str("T".to_owned())),
            entry("limit", Value::F64Bits(10.0f64.to_bits())),
        ],
    };
    match handle_call(&mut store, call3) {
        CallOutcome::Handled(Resp::Error { retcode, message }) => {
            assert_eq!(retcode, RETCODE_BAD_PARAM);
            assert_eq!(message, "limit");
        }
        _ => panic!("malformed parameters must be rejected"),
    }
}

#[test]
fn nested_payload_round_trips() {
    let mut store = EventStore::new();
    let ev = Event {
        id: "nested".to_owned(),
        time: 77,
        ty: "message".to_owned(),
        detail_type: "group".to_owned(),
        sub_type: "".to_owned(),
        extra: vec![
            entry("user_id", Value::Str("bob".to_owned())),
            entry(
                "message",
                Value::List(vec![
                    Value::Dict(vec![
                        entry("type", Value::Str("text".to_owned())),
                        entry(
                            "data",
                            Value::Dict(vec![entry("text", Value::Str("hi".to_owned()))]),
                        ),
                    ]),
                    Value::Null,
                ]),
            ),
            entry("score", Value::F64Bits(1.5f64.to_bits())),
            entry("raw", Value::Bytes(vec![0, 255, 7])),
        ],
    };
    store.insert_event(&ev).unwrap();
    let got = store.get_event("nested").unwrap().expect("stored event");
    assert_eq!(got, ev);
}

#[test]
fn delete_accepts_float_before() {
    let mut store = EventStore::new();
    store
        .insert_event(&sample_event("f1", 1.0f64.to_bits(), "T", "U"))
        .unwrap();
    store
        .insert_event(&sample_event("f2", 3.0f64.to_bits(), "T", "U"))
        .unwrap();
    let del = ActionCall {
        action: "delete_events".to_owned(),
        params: vec![entry("before", Value::F64Bits(2.0f64.to_bits()))],
    };
    match handle_call(&mut store, del) {
        CallOutcome::Handled(Resp::Count(n)) => assert_eq!(n, 1),
        _ => panic!("delete_events must answer with a count"),
    }
    assert!(store.get_event("f1").unwrap().is_none());
    assert!(store.get_event("f2").unwrap().is_some());
}

#[test]
fn decorator_serves_get_events_and_delete() {
    let mut store = EventStore::new();
    store.insert_event(&sample_event("a", 1, "T", "U1")).unwrap();
    store.insert_event(&sample_event("b", 2, "T", "U2")).unwrap();
    let call = ActionCall {
        action: "get_events".to_owned(),
        params: vec![entry("ty", Value::Str("T".to_owned()))],
    };
    match handle_call(&mut store, call) {
        CallOutcome::Handled(Resp::Events(es)) => {
            assert_eq!(es.len(), 2);
            assert_eq!(es[0].id, "b");
        }
        _ => panic!("get_events must answer with events"),
    }
    let del = ActionCall {
        action: "delete_events".to_owned(),
        params: vec![entry("before", Value::Int(2))],
    };
    match handle_call(&mut store, del) {
        CallOutcome::Handled(Resp::Count(n)) => assert_eq!(n, 1),
        _ => panic!("delete_events must answer with a count"),
    }
    assert!(store.get_event("a").unwrap().is_none());
    assert!(store.get_event("b").unwrap().is_some());
}

#[test]
fn event_tap_is_transparent() {
    let mut store = EventStore::new();
    let ev = sample_event("tapped", 4, "T", "U");
    let forwarded = before_event(&mut store, sample_event("tapped", 4, "T", "U"));
    assert_eq!(forwarded, ev);
    assert_eq!(store.get_event("tapped").unwrap().unwrap(), ev);
    // A duplicate insert fails silently; the event still flows on.
    let forwarded2 = before_event(&mut store, sample_event("tapped", 4, "T", "U"));
    assert_eq!(forwarded2, ev);
}

#[test]
fn codec_round_trips_through_storage() {
    let extra = vec![
        entry("k1", Value::Int(i64::MIN)),
        entry("k2", Value::Int(i64::MAX)),
        entry("k3", Value::Bool(false)),
        entry("", Value::Str("".to_owned())),
        entry("k4", Value::Null),
        entry("k5", Value::Bytes(Vec::new())),
        entry("k6", Value::List(vec![Value::List(Vec::new()), Value::Int(0)])),
        entry("k7", Value::Dict(Vec::new())),
        entry("k8", Value::F64Bits((-0.5f64).to_bits())),
    ];
    let blob = walle_sqlx::codec::encode_extra(&extra);
    let mut back = Vec::new();
    assert!(walle_sqlx::codec::decode_extra(&blob, &mut back));
    assert_eq!(back, extra);
    // An empty payload is a count of zero: eight zero bytes.
    let blob0 = walle_sqlx::codec::encode_extra(&Vec::new());
    assert_eq!(blob0, vec![0u8; 8]);
    // A truncated blob is rejected.
    let mut cut = blob.clone();
    cut.pop();
    assert!(!walle_sqlx::codec::decode_extra(&cut, &mut back));
}

#[test]
fn default_limit_is_ten() {
    let mut store = EventStore::new();
    for i in 0..12u64 {
        store
            .insert_event(&sample_event(&format!("e{}", i), i, "T", "U"))
            .unwrap();
    }
    let es = store
        .get_events(&GetEvents {
            ty: Some("T".to_owned()),
            ..Default::default()
        })
        .unwrap();
    assert_eq!(es.len(), 10);
    assert_eq!(es[0].time, 11);
    assert_eq!(es[9].time, 2);
}

#[test]
fn offset_beyond_end_is_empty() {
    let mut store = EventStore::new();
    store.insert_event(&sample_event("only", 1, "T", "U")).unwrap();
    let es = store
        .get_events(&GetEvents {
            ty: Some("T".to_owned()),
            offset: Some(5),
            ..Default::default()
        })
        .unwrap();
    assert!(es.is_empty());
}

#[test]
fn wrong_typed_indexed_field_is_absent() {
    // A present but non-string user_id is projected as the empty
    // string, while the payload itself keeps the value.
    let mut store = EventStore::new();
    let ev = Event {
        id: "w".to_owned(),
        time: 1,
        ty: "T".to_owned(),
        detail_type: "d".to_owned(),
        sub_type: "".to_owned(),
        extra: vec![entry("user_id", Value::Int(5))],
    };
    store.insert_event(&ev).unwrap();
    let es = store
        .get_events(&GetEvents {
            user_id: Some("".to_owned()),
            ..Default::default()
        })
        .unwrap();
    assert_eq!(es.len(), 1);
    assert_eq!(es[0].extra, vec![entry("user_id", Value::Int(5))]);
    let none = store
        .get_events(&GetEvents {
            user_id: Some("5".to_owned()),
            ..Default::default()
        })
        .unwrap();
    assert!(none.is_empty());
}
