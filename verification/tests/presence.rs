use sockudo::app::App;
use sockudo::channel::PresenceMemberInfo;
use sockudo::error::Error;
use sockudo::local_adapter::LocalAdapter;

fn s(text: &str) -> String {
    text.to_string()
}

fn demo_app(limit: Option<u32>) -> App {
    App {
        id: s("demo"),
        key: s("demo-key"),
        secret: s("demo-secret"),
        enabled: true,
        enable_client_messages: true,
        max_connections: 100,
        max_client_events_per_second: 100,
        max_read_requests_per_second: None,
        max_presence_members_per_channel: limit,
        max_presence_member_size_in_kb: None,
        max_channel_name_length: None,
        max_event_channels_at_once: None,
        max_event_name_length: None,
        max_event_payload_in_kb: None,
        max_event_batch_size: None,
        enable_user_authentication: None,
        max_backend_events_per_second: None,
        enable_watchlist_events: None,
    }
}

fn who(user: &str) -> PresenceMemberInfo {
    PresenceMemberInfo::new(s(user), format!("{{\"name\":\"{}\"}}", user))
}

#[test]
fn third_presence_member_is_refused_at_limit_two() {
    let app = demo_app(Some(2));
    let mut adapter = LocalAdapter::new();
    for id in ["1.1", "1.2", "1.3"] {
        assert!(adapter.add_socket(&app, s(id), 0).is_ok());
    }
    let room = s("presence-room");
    let first = adapter.join_presence(&app.id, &room, &s("1.1"), &who("alice")).unwrap();
    assert!(first.occupied);
    assert!(first.member_added);
    let second = adapter.join_presence(&app.id, &room, &s("1.2"), &who("bob")).unwrap();
    assert!(!second.occupied);
    assert!(second.member_added);

    let members = adapter.get_channel_members(&app.id, &room);
    let mut users: Vec<String> = members.iter().map(|m| m.user_id.clone()).collect();
    users.sort();
    assert_eq!(users, vec![s("alice"), s("bob")]);

    let third = adapter.join_presence(&app.id, &room, &s("1.3"), &who("carol"));
    assert_eq!(third, Err(Error::PresenceLimitExceeded));
    assert_eq!(adapter.get_channel_members(&app.id, &room).len(), 2);
    assert_eq!(adapter.get_channel_socket_count(&app.id, &room), 2);
    assert!(!adapter.is_in_channel(&app.id, &room, &s("1.3")));
}

#[test]
fn member_removed_fires_only_for_last_socket_of_user() {
    let app = demo_app(None);
    let mut adapter = LocalAdapter::new();
    assert!(adapter.add_socket(&app, s("7.1"), 0).is_ok());
    assert!(adapter.add_socket(&app, s("7.2"), 0).is_ok());
    let room = s("presence-room");
    let a = adapter.join_presence(&app.id, &room, &s("7.1"), &who("dana")).unwrap();
    assert!(a.member_added);
    let b = adapter.join_presence(&app.id, &room, &s("7.2"), &who("dana")).unwrap();
    assert!(!b.member_added);
    assert_eq!(adapter.get_channel_members(&app.id, &room).len(), 1);

    let first = adapter.cleanup_connection(&app.id, &s("7.1"));
    assert!(first.removed);
    assert!(first.members_removed.is_empty());
    assert!(first.vacated.is_empty());

    let second = adapter.cleanup_connection(&app.id, &s("7.2"));
    assert!(second.removed);
    assert_eq!(second.members_removed.len(), 1);
    assert_eq!(second.members_removed[0].channel, room);
    assert_eq!(second.members_removed[0].user_id, s("dana"));
    assert_eq!(second.vacated, vec![room.clone()]);
    assert_eq!(adapter.get_channel_socket_count(&app.id, &room), 0);
}

#[test]
fn duplicate_connection_id_is_refused() {
    let app = demo_app(None);
    let mut adapter = LocalAdapter::new();
    assert_eq!(adapter.add_socket(&app, s("9.9"), 5), Ok(()));
    adapter.add_to_channel(&app.id, &s("news"), &s("9.9"));
    assert_eq!(adapter.add_socket(&app, s("9.9"), 6), Err(Error::AlreadyExists));
    assert_eq!(adapter.get_sockets_count(&app.id), 1);
    assert!(adapter.is_in_channel(&app.id, &s("news"), &s("9.9")));
    assert_eq!(adapter.get_connection(&app.id, &s("9.9")).unwrap().last_activity, 5);
}
