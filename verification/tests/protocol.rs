use sockudo::adapter::ConnectionManager;
use sockudo::app::App;
use sockudo::channel::PresenceMemberInfo;
use sockudo::error::Error;
use sockudo::protocol::{frame_kind, ConnectionState, Effect, Event, FrameKind, Session};

fn s(text: &str) -> String {
    text.to_string()
}

fn app() -> App {
    App {
        id: s("demo"),
        key: s("key"),
        secret: s("secret"),
        enabled: true,
        enable_client_messages: true,
        max_connections: 100,
        max_client_events_per_second: 100,
        max_read_requests_per_second: None,
        max_presence_members_per_channel: Some(2),
        max_presence_member_size_in_kb: None,
        max_channel_name_length: Some(20),
        max_event_channels_at_once: None,
        max_event_name_length: Some(12),
        max_event_payload_in_kb: Some(1),
        max_event_batch_size: None,
        enable_user_authentication: None,
        max_backend_events_per_second: None,
        enable_watchlist_events: None,
    }
}

fn open(adapter: &mut ConnectionManager, demo: &App, id: &str) -> Session {
    let mut session = Session::new(s("demo"), s(id));
    assert_eq!(session.state(), ConnectionState::Connecting);
    let effects = session.handle(adapter, demo, Event::Established { now: 1 });
    assert_eq!(effects.len(), 1);
    assert!(matches!(effects[0], Effect::Established));
    assert_eq!(session.state(), ConnectionState::Open);
    session
}

fn subscribe(channel: &str, valid: bool, user: Option<&str>) -> Event {
    Event::Subscribe {
        channel: s(channel),
        signature_valid: valid,
        member: user.map(|u| PresenceMemberInfo::new(s(u), s("{}"))),
    }
}

fn sorted(mut v: Vec<String>) -> Vec<String> {
    v.sort();
    v
}

#[test]
fn handshake_opens_and_duplicate_id_closes() {
    let demo = app();
    let mut adapter = ConnectionManager::local();
    let first = open(&mut adapter, &demo, "1.1");
    assert_eq!(first.socket_id(), "1.1");

    let mut twin = Session::new(s("demo"), s("1.1"));
    let effects = twin.handle(&mut adapter, &demo, Event::Established { now: 2 });
    assert_eq!(effects.len(), 1);
    assert!(matches!(
        effects[0],
        Effect::Rejected {
            error: Error::AlreadyExists
        }
    ));
    assert_eq!(twin.state(), ConnectionState::Closed);
    assert_eq!(adapter.reader().get_sockets_count(&demo.id), 1);
    assert_eq!(
        adapter
            .reader()
            .get_connection(&demo.id, &s("1.1"))
            .unwrap()
            .last_activity,
        1
    );
}

#[test]
fn frames_before_the_handshake_are_ignored() {
    let demo = app();
    let mut adapter = ConnectionManager::local();
    let mut session = Session::new(s("demo"), s("1"));
    assert!(session
        .handle(&mut adapter, &demo, subscribe("news", false, None))
        .is_empty());
    assert!(session
        .handle(&mut adapter, &demo, Event::Ping { now: 3 })
        .is_empty());
    assert_eq!(session.state(), ConnectionState::Connecting);
    assert_eq!(adapter.reader().get_sockets_count(&demo.id), 0);
}

#[test]
fn public_subscribe_and_unsubscribe() {
    let demo = app();
    let mut adapter = ConnectionManager::local();
    let mut one = open(&mut adapter, &demo, "1");
    let mut two = open(&mut adapter, &demo, "2");

    let effects = one.handle(&mut adapter, &demo, subscribe("news", false, None));
    assert_eq!(effects.len(), 2);
    assert!(matches!(&effects[0], Effect::Subscribed { channel } if channel == "news"));
    assert!(matches!(&effects[1], Effect::Occupied { channel } if channel == "news"));

    let effects = two.handle(&mut adapter, &demo, subscribe("news", false, None));
    assert_eq!(effects.len(), 1);
    assert!(matches!(&effects[0], Effect::Subscribed { channel } if channel == "news"));

    let effects = one.handle(&mut adapter, &demo, Event::Unsubscribe { channel: s("news") });
    assert!(effects.is_empty());
    let effects = two.handle(&mut adapter, &demo, Event::Unsubscribe { channel: s("news") });
    assert_eq!(effects.len(), 1);
    assert!(matches!(&effects[0], Effect::Vacated { channel } if channel == "news"));
    let effects = two.handle(&mut adapter, &demo, Event::Unsubscribe { channel: s("news") });
    assert!(effects.is_empty());
}

#[test]
fn guarded_channels_want_a_valid_signature() {
    let demo = app();
    let mut adapter = ConnectionManager::local();
    let mut one = open(&mut adapter, &demo, "1");
    for channel in ["private-a", "presence-a", "private-encrypted-a"] {
        let effects = one.handle(&mut adapter, &demo, subscribe(channel, false, Some("u")));
        assert_eq!(effects.len(), 1);
        assert!(matches!(
            effects[0],
            Effect::Rejected {
                error: Error::AuthFailed
            }
        ));
        assert_eq!(one.state(), ConnectionState::Open);
        assert_eq!(adapter.reader().get_channel_socket_count(&demo.id, &s(channel)), 0);
    }
    let effects = one.handle(&mut adapter, &demo, subscribe("presence-a", true, None));
    assert!(matches!(
        effects[0],
        Effect::Rejected {
            error: Error::AuthFailed
        }
    ));
    let effects = one.handle(&mut adapter, &demo, subscribe("private-a", true, None));
    assert!(matches!(&effects[0], Effect::Subscribed { channel } if channel == "private-a"));
}

#[test]
fn presence_subscribe_reports_members_and_respects_the_limit() {
    let demo = app();
    let mut adapter = ConnectionManager::local();
    let mut one = open(&mut adapter, &demo, "1");
    let mut two = open(&mut adapter, &demo, "2");
    let mut three = open(&mut adapter, &demo, "3");
    let room = "presence-room";

    let effects = one.handle(&mut adapter, &demo, subscribe(room, true, Some("ann")));
    assert_eq!(effects.len(), 3);
    assert!(matches!(&effects[0], Effect::Subscribed { channel } if channel == room));
    assert!(matches!(&effects[1], Effect::Occupied { channel } if channel == room));
    assert!(
        matches!(&effects[2], Effect::MemberAdded { channel, user_id } if channel == room && user_id == "ann")
    );

    let effects = two.handle(&mut adapter, &demo, subscribe(room, true, Some("bob")));
    assert_eq!(effects.len(), 2);
    assert!(matches!(&effects[1], Effect::MemberAdded { user_id, .. } if user_id == "bob"));

    let effects = three.handle(&mut adapter, &demo, subscribe(room, true, Some("cy")));
    assert_eq!(effects.len(), 1);
    assert!(matches!(
        effects[0],
        Effect::Rejected {
            error: Error::PresenceLimitExceeded
        }
    ));
    assert_eq!(three.state(), ConnectionState::Open);
    assert_eq!(adapter.reader().get_channel_members(&demo.id, &s(room)).len(), 2);
    assert!(!adapter.reader().is_in_channel(&demo.id, &s(room), &s("3")));

    let effects = one.handle(&mut adapter, &demo, Event::Unsubscribe { channel: s(room) });
    assert_eq!(effects.len(), 1);
    assert!(
        matches!(&effects[0], Effect::MemberRemoved { channel, user_id } if channel == room && user_id == "ann")
    );
    let effects = three.handle(&mut adapter, &demo, subscribe(room, true, Some("cy")));
    assert_eq!(effects.len(), 2);
}

#[test]
fn client_events_pass_three_gates() {
    let mut demo = app();
    let mut adapter = ConnectionManager::local();
    let mut one = open(&mut adapter, &demo, "1");
    let mut two = open(&mut adapter, &demo, "2");
    let mut three = open(&mut adapter, &demo, "3");
    for session in [&mut one, &mut two, &mut three] {
        session.handle(&mut adapter, &demo, subscribe("chat", false, None));
    }
    let event = |payload_len: usize, rate_allowed: bool, name: &str| Event::ClientEvent {
        channel: s("chat"),
        event: s(name),
        data: s("{}"),
        payload_len,
        rate_allowed,
    };

    let effects = one.handle(&mut adapter, &demo, event(1024, true, "client-say"));
    assert_eq!(effects.len(), 1);
    match &effects[0] {
        Effect::Broadcast {
            channel,
            event,
            data,
            recipients,
        } => {
            assert_eq!(channel, "chat");
            assert_eq!(event, "client-say");
            assert_eq!(data, "{}");
            assert_eq!(sorted(recipients.clone()), vec![s("2"), s("3")]);
        }
        _ => panic!("the event should go out"),
    }

    let effects = one.handle(&mut adapter, &demo, event(1025, true, "client-say"));
    assert!(matches!(
        effects[0],
        Effect::Rejected {
            error: Error::PayloadTooLarge
        }
    ));
    let effects = one.handle(&mut adapter, &demo, event(10, true, "client-say-more"));
    assert!(matches!(
        effects[0],
        Effect::Rejected {
            error: Error::PayloadTooLarge
        }
    ));
    let long_channel = Event::ClientEvent {
        channel: s("a-channel-name-too-long"),
        event: s("client-x"),
        data: s("{}"),
        payload_len: 2,
        rate_allowed: true,
    };
    let effects = one.handle(&mut adapter, &demo, long_channel);
    assert!(matches!(
        effects[0],
        Effect::Rejected {
            error: Error::PayloadTooLarge
        }
    ));
    let effects = one.handle(&mut adapter, &demo, event(10, false, "client-say"));
    assert!(matches!(
        effects[0],
        Effect::Rejected {
            error: Error::RateLimited
        }
    ));
    demo.enable_client_messages = false;
    let effects = one.handle(&mut adapter, &demo, event(10, true, "client-say"));
    assert!(matches!(
        effects[0],
        Effect::Rejected {
            error: Error::AuthFailed
        }
    ));
    assert_eq!(one.state(), ConnectionState::Open);
    assert_eq!(adapter.reader().get_channel_socket_count(&demo.id, &s("chat")), 3);
}

#[test]
fn signin_ping_and_pong() {
    let demo = app();
    let mut adapter = ConnectionManager::local();
    let mut one = open(&mut adapter, &demo, "1");
    let effects = one.handle(
        &mut adapter,
        &demo,
        Event::Signin {
            user_id: s("ann"),
            valid: false,
        },
    );
    assert!(matches!(
        effects[0],
        Effect::Rejected {
            error: Error::AuthFailed
        }
    ));
    assert!(adapter.reader().get_user_sockets(&s("ann"), &demo.id).is_empty());
    let effects = one.handle(
        &mut adapter,
        &demo,
        Event::Signin {
            user_id: s("ann"),
            valid: true,
        },
    );
    assert!(matches!(&effects[0], Effect::SignedIn { user_id } if user_id == "ann"));
    assert_eq!(
        adapter.reader().get_user_sockets(&s("ann"), &demo.id),
        vec![s("1")]
    );

    let effects = one.handle(&mut adapter, &demo, Event::Ping { now: 40 });
    assert_eq!(effects.len(), 1);
    assert!(matches!(effects[0], Effect::Pong));
    let last = |adapter: &ConnectionManager| {
        adapter
            .reader()
            .get_connection(&s("demo"), &s("1"))
            .unwrap()
            .last_activity
    };
    assert_eq!(last(&adapter), 40);
    let effects = one.handle(&mut adapter, &demo, Event::Pong { now: 55 });
    assert!(effects.is_empty());
    assert_eq!(last(&adapter), 55);
    assert_eq!(one.state(), ConnectionState::Open);
}

#[test]
fn termination_then_disconnect_then_nothing() {
    let demo = app();
    let mut adapter = ConnectionManager::local();
    let mut one = open(&mut adapter, &demo, "1");
    let mut two = open(&mut adapter, &demo, "2");
    one.handle(&mut adapter, &demo, subscribe("news", false, None));
    one.handle(&mut adapter, &demo, subscribe("presence-room", true, Some("ann")));
    two.handle(&mut adapter, &demo, subscribe("presence-room", true, Some("ann")));

    let effects = one.handle(&mut adapter, &demo, Event::Terminate);
    assert!(matches!(effects[0], Effect::Closing));
    assert_eq!(one.state(), ConnectionState::Closing);
    assert!(one
        .handle(&mut adapter, &demo, subscribe("more", false, None))
        .is_empty());
    assert_eq!(adapter.reader().get_channel_socket_count(&demo.id, &s("more")), 0);

    let effects = one.handle(&mut adapter, &demo, Event::Disconnect);
    assert_eq!(one.state(), ConnectionState::Closed);
    assert_eq!(effects.len(), 1);
    match &effects[0] {
        Effect::Gone { departure } => {
            assert!(departure.removed);
            assert_eq!(sorted(departure.channels.clone()), vec![s("news"), s("presence-room")]);
            assert_eq!(departure.vacated, vec![s("news")]);
            assert!(departure.members_removed.is_empty());
        }
        _ => panic!("the connection should be gone"),
    }
    assert!(one.handle(&mut adapter, &demo, Event::Disconnect).is_empty());
    assert!(one.handle(&mut adapter, &demo, Event::Established { now: 9 }).is_empty());
    assert!(one.handle(&mut adapter, &demo, Event::Ping { now: 9 }).is_empty());
    assert_eq!(one.state(), ConnectionState::Closed);

    let effects = two.handle(&mut adapter, &demo, Event::Disconnect);
    match &effects[0] {
        Effect::Gone { departure } => {
            assert_eq!(departure.members_removed.len(), 1);
            assert_eq!(departure.members_removed[0].channel, "presence-room");
            assert_eq!(departure.members_removed[0].user_id, "ann");
            assert_eq!(departure.vacated, vec![s("presence-room")]);
        }
        _ => panic!("the connection should be gone"),
    }
    assert_eq!(adapter.reader().get_sockets_count(&demo.id), 0);
}

#[test]
fn rejections_are_told_apart() {
    assert!(Error::AuthFailed.rejects());
    assert!(Error::RateLimited.rejects());
    assert!(Error::PayloadTooLarge.rejects());
    assert!(Error::PresenceLimitExceeded.rejects());
    assert!(!Error::NotFound.rejects());
    assert!(!Error::AlreadyExists.rejects());
    assert!(!Error::BrokerUnavailable.rejects());
    assert!(!Error::AggregateTimeout.rejects());
    assert!(!Error::Internal.rejects());
}

#[test]
fn frames_are_known_by_their_names() {
    assert_eq!(frame_kind("pusher:subscribe"), FrameKind::Subscribe);
    assert_eq!(frame_kind("pusher:unsubscribe"), FrameKind::Unsubscribe);
    assert_eq!(frame_kind("pusher:ping"), FrameKind::Ping);
    assert_eq!(frame_kind("pusher:pong"), FrameKind::Pong);
    assert_eq!(frame_kind("pusher:signin"), FrameKind::Signin);
    assert_eq!(frame_kind("client-typing"), FrameKind::ClientEvent);
    assert_eq!(frame_kind("client-"), FrameKind::ClientEvent);
    assert_eq!(frame_kind("client"), FrameKind::Unknown);
    assert_eq!(frame_kind("pusher:subscribed"), FrameKind::Unknown);
    assert_eq!(frame_kind("Pusher:ping"), FrameKind::Unknown);
    assert_eq!(frame_kind(""), FrameKind::Unknown);

    assert_eq!(Effect::Established.frame_name(), Some("pusher:connection_established"));
    assert_eq!(
        Effect::Subscribed { channel: s("c") }.frame_name(),
        Some("pusher_internal:subscription_succeeded")
    );
    assert_eq!(
        Effect::MemberAdded { channel: s("c"), user_id: s("u") }.frame_name(),
        Some("pusher_internal:member_added")
    );
    assert_eq!(
        Effect::MemberRemoved { channel: s("c"), user_id: s("u") }.frame_name(),
        Some("pusher_internal:member_removed")
    );
    assert_eq!(Effect::SignedIn { user_id: s("u") }.frame_name(), Some("pusher:signin_success"));
    assert_eq!(Effect::Pong.frame_name(), Some("pusher:pong"));
    assert_eq!(
        Effect::Rejected { error: Error::RateLimited }.frame_name(),
        Some("pusher:error")
    );
    assert_eq!(Effect::Closing.frame_name(), None);
    assert_eq!(Effect::Occupied { channel: s("c") }.frame_name(), None);
    assert_eq!(Effect::Vacated { channel: s("c") }.frame_name(), None);
}

#[test]
fn connection_stays_with_its_tenant() {
    let demo = app();
    let mut other = app();
    other.id = s("other");
    let mut adapter = ConnectionManager::local();
    let mut one = open(&mut adapter, &demo, "1");
    assert_eq!(one.app_id(), "demo");
    assert!(one
        .handle(&mut adapter, &other, subscribe("news", false, None))
        .is_empty());
    assert!(one.handle(&mut adapter, &other, Event::Disconnect).is_empty());
    assert_eq!(one.state(), ConnectionState::Open);
    assert!(adapter.reader().get_namespace(&other.id).is_none());
    assert_eq!(adapter.reader().get_sockets_count(&demo.id), 1);
    assert_eq!(one.handle(&mut adapter, &demo, subscribe("news", false, None)).len(), 2);
}
