use sockudo::aggregate::{
    add_counts, add_names, elapsed, sat_add, sat_add64, AggregateTable, AggregationMetrics,
    Partial, QueryKind,
};
use sockudo::app::App;
use sockudo::error::Error;
use sockudo::horizontal::{HorizontalAdapter, ResponseFrame};
use sockudo::names::{NameMap, NameSet};

fn s(text: &str) -> String {
    text.to_string()
}

fn app() -> App {
    App {
        id: s("demo"),
        key: s("key"),
        secret: s("secret"),
        enabled: true,
        enable_client_messages: true,
        max_connections: 100,
        max_client_events_per_second: 100,
        max_read_requests_per_second: None,
        max_presence_members_per_channel: None,
        max_presence_member_size_in_kb: None,
        max_channel_name_length: None,
        max_event_channels_at_once: None,
        max_event_name_length: None,
        max_event_payload_in_kb: None,
        max_event_batch_size: None,
        enable_user_authentication: None,
        max_backend_events_per_second: None,
        enable_watchlist_events: None,
    }
}

fn node(name: &str, sockets: usize, channel: &str) -> HorizontalAdapter {
    let demo = app();
    let mut node = HorizontalAdapter::new(s(name));
    for i in 0..sockets {
        let id = format!("{}.{}", name, i);
        node.add_socket(&demo, id.clone(), 0).unwrap();
        node.add_to_channel(&demo.id, &s(channel), &id);
    }
    node
}

fn counts(pairs: &[(&str, usize)]) -> NameMap<usize> {
    let mut m = NameMap::new();
    for (k, v) in pairs {
        m.insert(s(k), *v);
    }
    m
}

fn count_of(p: &Partial, channel: &str) -> Option<usize> {
    match p {
        Partial::Counts(m) => m.get(&s(channel)).copied(),
        _ => panic!("counts expected"),
    }
}

#[test]
fn unreachable_node_degrades_the_count_after_the_deadline() {
    let demo = app();
    let mut a = node("node-a", 5, "x");
    let mut b = node("node-b", 3, "x");
    assert!(a.note_peer(s("node-b")));
    assert!(a.note_peer(s("node-c")));
    assert!(!a.note_peer(s("node-c")));

    let request = a
        .begin_query(
            s("req-1"),
            QueryKind::ChannelsWithSocketCount,
            Some(demo.id.clone()),
            1_000,
            200,
        )
        .unwrap();
    assert_eq!(request.request_id, "req-1");
    assert_eq!(request.op, QueryKind::ChannelsWithSocketCount);
    assert_eq!(request.app_id, Some(s("demo")));
    assert_eq!(a.metrics().requests_sent, 1);

    let own = a.answer(&request);
    assert_eq!(own.responder_node_id, "node-a");
    assert_eq!(count_of(&own.partial_result, "x"), Some(5));
    assert!(a.accept(&own, 1_001).is_none());
    let theirs = b.answer(&request);
    assert_eq!(count_of(&theirs.partial_result, "x"), Some(3));
    assert_eq!(b.metrics().requests_received, 1);
    assert!(a.accept(&theirs, 1_050).is_none());
    assert!(a.accept(&theirs, 1_060).is_none());
    assert_eq!(a.metrics().responses_received, 2);

    assert!(a.reap(1_199).is_empty());
    assert_eq!(a.metrics().timed_out, 0);

    let resolved = a.reap(1_200);
    assert_eq!(resolved.len(), 1);
    let r = &resolved[0];
    assert_eq!(r.request_id, "req-1");
    assert_eq!(r.kind, QueryKind::ChannelsWithSocketCount);
    assert_eq!(r.app_id, Some(s("demo")));
    assert!(r.degraded);
    assert_eq!(r.flag(), Some(Error::AggregateTimeout));
    assert_eq!(r.responses, 2);
    assert_eq!(r.elapsed_ms, 200);
    assert_eq!(count_of(&r.result, "x"), Some(8));
    match &r.result {
        Partial::Counts(m) => assert_eq!(m.len(), 1),
        _ => panic!("counts expected"),
    }
    assert_eq!(
        a.metrics(),
        AggregationMetrics {
            requests_sent: 1,
            requests_received: 1,
            responses_received: 2,
            resolved: 0,
            timed_out: 1,
        }
    );

    assert!(a.reap(9_000).is_empty());
    let late = ResponseFrame {
        request_id: s("req-1"),
        responder_node_id: s("node-c"),
        partial_result: Partial::Counts(counts(&[("x", 7)])),
    };
    assert!(a.accept(&late, 9_001).is_none());
    assert_eq!(a.metrics().timed_out, 1);
    assert_eq!(a.metrics().responses_received, 2);
}

#[test]
fn request_resolves_in_full_with_the_last_report() {
    let mut table = AggregateTable::new();
    assert_eq!(
        table.begin(s("r"), QueryKind::SocketsCount, Some(s("demo")), 3, 10, 500),
        Ok(())
    );
    assert_eq!(
        table.begin(s("r"), QueryKind::SocketsCount, None, 1, 11, 500),
        Err(Error::AlreadyExists)
    );
    assert!(table.is_pending(&s("r")));
    assert_eq!(table.pending_count(), 1);
    assert_eq!(table.metrics().requests_sent, 1);

    assert!(table.record(&s("r"), &s("a"), &Partial::Count(4), 20).is_none());
    // a second report of the same node and a report of the wrong kind are left out
    assert!(table.record(&s("r"), &s("a"), &Partial::Count(100), 21).is_none());
    assert!(table
        .record(&s("r"), &s("b"), &Partial::Names(NameSet::new()), 22)
        .is_none());
    // a report for a request that does not wait changes nothing
    assert!(table.record(&s("zz"), &s("b"), &Partial::Count(1), 22).is_none());
    assert!(table.record(&s("r"), &s("b"), &Partial::Count(6), 30).is_none());
    let done = table.record(&s("r"), &s("c"), &Partial::Count(1), 45).unwrap();
    assert!(!done.degraded);
    assert_eq!(done.flag(), None);
    assert_eq!(done.responses, 3);
    assert_eq!(done.elapsed_ms, 35);
    assert!(matches!(done.result, Partial::Count(11)));
    assert!(!table.is_pending(&s("r")));
    assert_eq!(
        table.metrics(),
        AggregationMetrics {
            requests_sent: 1,
            requests_received: 0,
            responses_received: 3,
            resolved: 1,
            timed_out: 0,
        }
    );
    assert!(table.record(&s("r"), &s("d"), &Partial::Count(1), 46).is_none());
    assert!(table.expire(10_000).is_empty());
    assert_eq!(table.metrics().resolved, 1);
    assert_eq!(table.metrics().timed_out, 0);
}

#[test]
fn report_after_the_deadline_resolves_as_partial() {
    let mut table = AggregateTable::new();
    table
        .begin(s("r"), QueryKind::SocketsCount, None, 2, 100, 50)
        .unwrap();
    assert!(table.record(&s("r"), &s("a"), &Partial::Count(4), 149).is_none());
    let out = table.record(&s("r"), &s("b"), &Partial::Count(6), 150).unwrap();
    assert!(out.degraded);
    assert!(matches!(out.result, Partial::Count(4)));
    assert_eq!(out.responses, 1);
    assert_eq!(out.elapsed_ms, 50);
    assert_eq!(table.metrics().timed_out, 1);
    assert_eq!(table.metrics().resolved, 0);
    assert_eq!(table.metrics().responses_received, 1);
    assert!(!table.is_pending(&s("r")));
}

#[test]
fn sweep_takes_only_what_is_overdue() {
    let mut table = AggregateTable::new();
    table.begin(s("early"), QueryKind::Namespaces, None, 2, 0, 100).unwrap();
    table.begin(s("late"), QueryKind::Namespaces, None, 2, 0, 300).unwrap();
    table.begin(s("also-early"), QueryKind::SocketsCount, None, 2, 50, 50).unwrap();
    let mut names = NameSet::new();
    names.insert(s("demo"));
    table.record(&s("early"), &s("a"), &Partial::Names(names), 10);

    let mut out = table.expire(100);
    out.sort_by(|x, y| x.request_id.cmp(&y.request_id));
    assert_eq!(out.len(), 2);
    assert_eq!(out[0].request_id, "also-early");
    assert!(matches!(out[0].result, Partial::Count(0)));
    assert_eq!(out[0].elapsed_ms, 50);
    assert_eq!(out[1].request_id, "early");
    match &out[1].result {
        Partial::Names(n) => assert_eq!(n.to_vec(), vec![s("demo")]),
        _ => panic!("names expected"),
    }
    assert!(out.iter().all(|r| r.degraded));
    assert_eq!(table.metrics().timed_out, 2);
    assert!(table.is_pending(&s("late")));
    assert_eq!(table.pending_count(), 1);
    assert_eq!(table.expire(299).len(), 0);
    assert_eq!(table.expire(300).len(), 1);
    assert_eq!(table.metrics().timed_out, 3);
}

#[test]
fn counts_add_and_sets_unite() {
    let mut into = counts(&[("x", 5), ("y", 1)]);
    add_counts(&mut into, &counts(&[("x", 3), ("z", 2)]));
    assert_eq!(into.len(), 3);
    assert_eq!(into.get(&s("x")), Some(&8));
    assert_eq!(into.get(&s("y")), Some(&1));
    assert_eq!(into.get(&s("z")), Some(&2));
    add_counts(&mut into, &counts(&[("x", usize::MAX)]));
    assert_eq!(into.get(&s("x")), Some(&usize::MAX));

    let mut a = NameSet::from_vec(&vec![s("one"), s("two")]);
    let b = NameSet::from_vec(&vec![s("two"), s("three")]);
    add_names(&mut a, &b);
    let mut all = a.to_vec();
    all.sort();
    assert_eq!(all, vec![s("one"), s("three"), s("two")]);

    let mut p = Partial::neutral(QueryKind::SocketsCount);
    p.absorb(&Partial::Count(2));
    p.absorb(&Partial::Count(3));
    p.absorb(&Partial::Names(NameSet::new()));
    assert!(matches!(p, Partial::Count(5)));
    assert!(p.is_of(QueryKind::SocketsCount));
    assert!(!p.is_of(QueryKind::Namespaces));
    assert!(Partial::neutral(QueryKind::Namespaces).is_of(QueryKind::Namespaces));
    assert!(Partial::neutral(QueryKind::ChannelsWithSocketCount)
        .is_of(QueryKind::ChannelsWithSocketCount));

    assert_eq!(sat_add(2, 3), 5);
    assert_eq!(sat_add(usize::MAX, 1), usize::MAX);
    assert_eq!(sat_add64(u64::MAX - 1, 1), u64::MAX);
    assert_eq!(sat_add64(u64::MAX, u64::MAX), u64::MAX);
    assert_eq!(elapsed(10, 25), 15);
    assert_eq!(elapsed(25, 10), 0);
}

#[test]
fn nodes_report_what_they_hold() {
    let demo = app();
    let mut a = node("node-a", 2, "x");
    a.add_to_channel(&demo.id, &s("y"), &s("node-a.0"));
    let request = a
        .begin_query(s("q1"), QueryKind::SocketsCount, Some(demo.id.clone()), 0, 100)
        .unwrap();
    assert!(matches!(a.answer(&request).partial_result, Partial::Count(2)));
    let request = a
        .begin_query(s("q2"), QueryKind::Namespaces, None, 0, 100)
        .unwrap();
    match a.answer(&request).partial_result {
        Partial::Names(n) => assert_eq!(n.to_vec(), vec![s("demo")]),
        _ => panic!("names expected"),
    }
    let request = a
        .begin_query(s("q3"), QueryKind::ChannelsWithSocketCount, Some(demo.id.clone()), 0, 100)
        .unwrap();
    let answer = a.answer(&request);
    assert_eq!(count_of(&answer.partial_result, "x"), Some(2));
    assert_eq!(count_of(&answer.partial_result, "y"), Some(1));
    assert!(matches!(
        a.begin_query(s("q3"), QueryKind::Namespaces, None, 0, 100),
        Err(Error::AlreadyExists)
    ));
    // alone in the fleet, the node's own report completes the request
    let done = a.accept(&answer, 5).unwrap();
    assert!(!done.degraded);
    assert_eq!(count_of(&done.result, "x"), Some(2));
    assert_eq!(a.metrics().resolved, 1);
    assert_eq!(a.metrics().requests_received, 3);
    assert!(a.forget_peer(&s("nobody")) == false);
}
