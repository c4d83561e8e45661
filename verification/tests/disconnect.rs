use sockudo::app::App;
use sockudo::channel::PresenceMemberInfo;
use sockudo::local_adapter::LocalAdapter;

fn s(text: &str) -> String {
    text.to_string()
}

fn app() -> App {
    App {
        id: s("demo"),
        key: s("key"),
        secret: s("secret"),
        enabled: true,
        enable_client_messages: true,
        max_connections: 100,
        max_client_events_per_second: 100,
        max_read_requests_per_second: None,
        max_presence_members_per_channel: Some(10),
        max_presence_member_size_in_kb: None,
        max_channel_name_length: None,
        max_event_channels_at_once: None,
        max_event_name_length: None,
        max_event_payload_in_kb: None,
        max_event_batch_size: None,
        enable_user_authentication: None,
        max_backend_events_per_second: None,
        enable_watchlist_events: None,
    }
}

fn sorted(mut v: Vec<String>) -> Vec<String> {
    v.sort();
    v
}

#[test]
fn disconnect_leaves_every_channel() {
    let demo = app();
    let mut adapter = LocalAdapter::new();
    adapter.add_socket(&demo, s("1"), 0).unwrap();
    adapter.add_socket(&demo, s("2"), 0).unwrap();
    adapter.add_to_channel(&demo.id, &s("a"), &s("1"));
    adapter.add_to_channel(&demo.id, &s("b"), &s("1"));
    adapter.add_to_channel(&demo.id, &s("b"), &s("2"));
    let ann = PresenceMemberInfo::new(s("ann"), s("{}"));
    let bob = PresenceMemberInfo::new(s("bob"), s("{}"));
    adapter.join_presence(&demo.id, &s("presence-p"), &s("1"), &ann).unwrap();
    adapter.join_presence(&demo.id, &s("presence-q"), &s("1"), &ann).unwrap();
    adapter.join_presence(&demo.id, &s("presence-q"), &s("2"), &bob).unwrap();

    let out = adapter.cleanup_connection(&demo.id, &s("1"));
    assert!(out.removed);
    assert_eq!(
        sorted(out.channels.clone()),
        vec![s("a"), s("b"), s("presence-p"), s("presence-q")]
    );
    assert_eq!(sorted(out.vacated.clone()), vec![s("a"), s("presence-p")]);
    let mut gone: Vec<(String, String)> = out
        .members_removed
        .iter()
        .map(|e| (e.channel.clone(), e.user_id.clone()))
        .collect();
    gone.sort();
    assert_eq!(
        gone,
        vec![(s("presence-p"), s("ann")), (s("presence-q"), s("ann"))]
    );

    for channel in ["a", "b", "presence-p", "presence-q"] {
        assert!(!adapter.is_in_channel(&demo.id, &s(channel), &s("1")));
    }
    assert!(adapter.get_connection(&demo.id, &s("1")).is_none());
    assert_eq!(adapter.get_channel_socket_count(&demo.id, &s("b")), 1);
    assert_eq!(adapter.get_channel_socket_count(&demo.id, &s("a")), 0);
    let counts = adapter.get_channels_with_socket_count(&demo.id);
    assert_eq!(sorted(counts.keys()), vec![s("b"), s("presence-q")]);
    let members = adapter.get_channel_members(&demo.id, &s("presence-q"));
    assert_eq!(members.len(), 1);
    assert_eq!(members[0].user_id, "bob");

    let again = adapter.cleanup_connection(&demo.id, &s("1"));
    assert!(!again.removed);
    assert!(again.channels.is_empty() && again.vacated.is_empty());
    assert!(again.members_removed.is_empty());
}

#[test]
fn connection_without_channels_just_goes() {
    let demo = app();
    let mut adapter = LocalAdapter::new();
    adapter.add_socket(&demo, s("1"), 0).unwrap();
    assert_eq!(adapter.get_sockets_count(&demo.id), 1);
    assert!(adapter.remove_connection(&demo.id, &s("1")));
    assert_eq!(adapter.get_sockets_count(&demo.id), 0);
    assert!(adapter.add_socket(&demo, s("1"), 1).is_ok());
}
