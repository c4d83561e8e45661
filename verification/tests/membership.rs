use sockudo::app::App;
use sockudo::channel::{starts_with, PresenceMemberInfo};
use sockudo::error::Error;
use sockudo::local_adapter::LocalAdapter;
use sockudo::model::ChannelKind;
use sockudo::names::{NameMap, NameSet};

fn s(text: &str) -> String {
    text.to_string()
}

fn app(id: &str, limit: Option<u32>) -> App {
    App {
        id: s(id),
        key: s("key"),
        secret: s("secret"),
        enabled: true,
        enable_client_messages: true,
        max_connections: 100,
        max_client_events_per_second: 100,
        max_read_requests_per_second: None,
        max_presence_members_per_channel: limit,
        max_presence_member_size_in_kb: None,
        max_channel_name_length: None,
        max_event_channels_at_once: None,
        max_event_name_length: None,
        max_event_payload_in_kb: None,
        max_event_batch_size: None,
        enable_user_authentication: None,
        max_backend_events_per_second: None,
        enable_watchlist_events: None,
    }
}

fn sorted(mut v: Vec<String>) -> Vec<String> {
    v.sort();
    v
}

#[test]
fn channel_size_follows_subscriptions() {
    let demo = app("demo", None);
    let mut adapter = LocalAdapter::new();
    for id in ["1", "2", "3"] {
        adapter.add_socket(&demo, s(id), 0).unwrap();
    }
    let news = s("news");
    assert_eq!(adapter.get_channel_socket_count(&demo.id, &news), 0);
    assert!(adapter.get_channels_with_socket_count(&demo.id).get(&news).is_none());

    assert!(adapter.add_to_channel(&demo.id, &news, &s("1")));
    assert!(!adapter.add_to_channel(&demo.id, &news, &s("2")));
    assert!(!adapter.add_to_channel(&demo.id, &news, &s("2")));
    assert_eq!(adapter.get_channel_socket_count(&demo.id, &news), 2);
    assert_eq!(
        sorted(adapter.get_channel_sockets(&demo.id, &news)),
        vec![s("1"), s("2")]
    );
    assert_eq!(
        adapter.get_channels_with_socket_count(&demo.id).get(&news),
        Some(&2)
    );

    assert!(!adapter.remove_from_channel(&demo.id, &news, &s("1")));
    assert!(!adapter.remove_from_channel(&demo.id, &news, &s("1")));
    assert_eq!(adapter.get_channel_socket_count(&demo.id, &news), 1);
    assert!(adapter.remove_from_channel(&demo.id, &news, &s("2")));
    assert_eq!(adapter.get_channel_socket_count(&demo.id, &news), 0);
    assert!(adapter.get_channels_with_socket_count(&demo.id).get(&news).is_none());
    assert_eq!(adapter.get_channels_with_socket_count(&demo.id).len(), 0);

    assert!(adapter.add_to_channel(&demo.id, &news, &s("3")));
    assert_eq!(adapter.get_channel_socket_count(&demo.id, &news), 1);
}

#[test]
fn both_indexes_agree() {
    let demo = app("demo", None);
    let mut adapter = LocalAdapter::new();
    adapter.add_socket(&demo, s("1"), 0).unwrap();
    adapter.add_socket(&demo, s("2"), 0).unwrap();
    adapter.add_to_channel(&demo.id, &s("a"), &s("1"));
    adapter.add_to_channel(&demo.id, &s("b"), &s("1"));
    adapter.add_to_channel(&demo.id, &s("b"), &s("2"));
    adapter.remove_from_channel(&demo.id, &s("a"), &s("1"));

    for id in ["1", "2"] {
        let channels = sorted(
            adapter
                .get_connection(&demo.id, &s(id))
                .unwrap()
                .channels
                .to_vec(),
        );
        for channel in ["a", "b"] {
            assert_eq!(
                channels.contains(&s(channel)),
                adapter.is_in_channel(&demo.id, &s(channel), &s(id))
            );
        }
    }
    assert!(!adapter.is_in_channel(&demo.id, &s("a"), &s("1")));
    assert!(adapter.is_in_channel(&demo.id, &s("b"), &s("1")));
    assert!(adapter.is_in_channel(&demo.id, &s("b"), &s("2")));
}

#[test]
fn unknown_tenant_channel_and_connection_give_empty_answers() {
    let demo = app("demo", None);
    let mut adapter = LocalAdapter::new();
    adapter.init();
    let nowhere = s("nowhere");
    assert!(adapter.get_namespaces().is_empty());
    assert!(adapter.get_namespace(&nowhere).is_none());
    assert!(adapter.get_connection(&nowhere, &s("1")).is_none());
    assert!(!adapter.add_to_channel(&nowhere, &s("c"), &s("1")));
    assert!(!adapter.remove_from_channel(&nowhere, &s("c"), &s("1")));
    assert!(!adapter.remove_connection(&nowhere, &s("1")));
    assert!(adapter.get_channel_sockets(&nowhere, &s("c")).is_empty());
    assert!(adapter.get_channel_members(&nowhere, &s("c")).is_empty());
    assert!(adapter.get_presence_member(&nowhere, &s("c"), &s("1")).is_none());
    assert_eq!(adapter.get_sockets_count(&nowhere), 0);
    assert_eq!(adapter.get_channels_with_socket_count(&nowhere).len(), 0);
    assert!(adapter.send(&s("c"), None, &nowhere).is_empty());
    assert!(!adapter.send_message(&nowhere, &s("1")));
    assert!(adapter.terminate_user_connections(&nowhere, &s("u")).is_empty());
    assert!(adapter.get_namespaces().is_empty());

    adapter.add_socket(&demo, s("1"), 0).unwrap();
    assert_eq!(adapter.get_namespaces(), vec![s("demo")]);
    assert!(!adapter.add_to_channel(&demo.id, &s("c"), &s("ghost")));
    assert_eq!(adapter.get_channel_socket_count(&demo.id, &s("c")), 0);
    assert!(!adapter.remove_connection(&demo.id, &s("ghost")));
    assert_eq!(adapter.get_sockets_count(&demo.id), 1);
}

#[test]
fn join_is_refused_for_unknown_connection_and_plain_channel() {
    let demo = app("demo", None);
    let mut adapter = LocalAdapter::new();
    adapter.add_socket(&demo, s("1"), 0).unwrap();
    let who = PresenceMemberInfo::new(s("u"), s("{}"));
    assert_eq!(
        adapter.join_presence(&demo.id, &s("presence-x"), &s("ghost"), &who),
        Err(Error::NotFound)
    );
    assert_eq!(
        adapter.join_presence(&demo.id, &s("private-x"), &s("1"), &who),
        Err(Error::Internal)
    );
    assert_eq!(adapter.get_channels_with_socket_count(&demo.id).len(), 0);
    let again = PresenceMemberInfo::new(s("other"), s("{}"));
    assert!(adapter.join_presence(&demo.id, &s("presence-x"), &s("1"), &who).is_ok());
    let repeat = adapter
        .join_presence(&demo.id, &s("presence-x"), &s("1"), &again)
        .unwrap();
    assert!(!repeat.occupied && !repeat.member_added);
    let members = adapter.get_channel_members(&demo.id, &s("presence-x"));
    assert_eq!(members.len(), 1);
    assert_eq!(members[0].user_id, "u");
    assert_eq!(
        adapter
            .get_presence_member(&demo.id, &s("presence-x"), &s("1"))
            .unwrap()
            .user_id,
        "u"
    );
}

#[test]
fn user_at_the_limit_may_join_with_a_second_socket() {
    let demo = app("demo", Some(1));
    let mut adapter = LocalAdapter::new();
    for id in ["1", "2", "3"] {
        adapter.add_socket(&demo, s(id), 0).unwrap();
    }
    let room = s("presence-room");
    let u = PresenceMemberInfo::new(s("u"), s("first"));
    let u_again = PresenceMemberInfo::new(s("u"), s("second"));
    let w = PresenceMemberInfo::new(s("w"), s("{}"));
    assert!(adapter.join_presence(&demo.id, &room, &s("1"), &u).is_ok());
    let second = adapter.join_presence(&demo.id, &room, &s("2"), &u_again).unwrap();
    assert!(!second.member_added);
    assert_eq!(
        adapter.join_presence(&demo.id, &room, &s("3"), &w),
        Err(Error::PresenceLimitExceeded)
    );
    let members = adapter.get_channel_members(&demo.id, &room);
    assert_eq!(members.len(), 1);
    assert_eq!(members[0].user_info, "first");
    let namespace = adapter.get_namespace(&demo.id).unwrap();
    assert_eq!(namespace.app_id(), "demo");
    assert_eq!(namespace.get_channel_socket_count(&room), 2);
    // leaving frees the place only with the user's last socket
    let left = adapter.leave(&demo.id, &room, &s("1"));
    assert!(left.left && !left.vacated && left.member_removed.is_none());
    assert_eq!(
        adapter.join_presence(&demo.id, &room, &s("3"), &w),
        Err(Error::PresenceLimitExceeded)
    );
    let left = adapter.leave(&demo.id, &room, &s("2"));
    assert_eq!(left.member_removed, Some(s("u")));
    assert!(left.vacated);
    assert!(adapter.join_presence(&demo.id, &room, &s("3"), &w).unwrap().occupied);
}

#[test]
fn users_sockets_are_tracked() {
    let demo = app("demo", None);
    let mut adapter = LocalAdapter::new();
    for id in ["1", "2", "3"] {
        adapter.add_socket(&demo, s(id), 0).unwrap();
    }
    adapter.add_user(&demo.id, &s("1"), s("ann"));
    adapter.add_user(&demo.id, &s("2"), s("bob"));
    adapter.add_user(&demo.id, &s("3"), s("ann"));
    adapter.add_user(&demo.id, &s("ghost"), s("ann"));
    assert_eq!(
        sorted(adapter.get_user_sockets(&s("ann"), &demo.id)),
        vec![s("1"), s("3")]
    );
    assert_eq!(
        sorted(adapter.terminate_user_connections(&demo.id, &s("ann"))),
        vec![s("1"), s("3")]
    );
    adapter.remove_user(&demo.id, &s("1"));
    assert_eq!(adapter.get_user_sockets(&s("ann"), &demo.id), vec![s("3")]);
    adapter.remove_connection(&demo.id, &s("3"));
    assert!(adapter.get_user_sockets(&s("ann"), &demo.id).is_empty());
    adapter.touch(&demo.id, &s("2"), 77);
    assert_eq!(adapter.get_connection(&demo.id, &s("2")).unwrap().last_activity, 77);
    assert_eq!(
        adapter.get_connection(&demo.id, &s("2")).unwrap().user,
        Some(s("bob"))
    );
}

#[test]
fn send_goes_to_members_but_the_sender() {
    let demo = app("demo", None);
    let mut adapter = LocalAdapter::new();
    for id in ["1", "2", "3", "4"] {
        adapter.add_socket(&demo, s(id), 0).unwrap();
    }
    for id in ["1", "2", "3"] {
        adapter.add_to_channel(&demo.id, &s("chat"), &s(id));
    }
    assert_eq!(
        sorted(adapter.send(&s("chat"), Some(&s("2")), &demo.id)),
        vec![s("1"), s("3")]
    );
    assert_eq!(
        sorted(adapter.send(&s("chat"), None, &demo.id)),
        vec![s("1"), s("2"), s("3")]
    );
    assert_eq!(
        sorted(adapter.send(&s("chat"), Some(&s("4")), &demo.id)),
        vec![s("1"), s("2"), s("3")]
    );
    assert!(adapter.send_message(&demo.id, &s("4")));
    assert!(!adapter.send_message(&demo.id, &s("5")));
}

#[test]
fn channel_kind_follows_the_prefix() {
    assert_eq!(ChannelKind::of("news"), ChannelKind::Public);
    assert_eq!(ChannelKind::of("private-news"), ChannelKind::Private);
    assert_eq!(ChannelKind::of("presence-room"), ChannelKind::Presence);
    assert_eq!(ChannelKind::of("private-encrypted-x"), ChannelKind::Encrypted);
    assert_eq!(ChannelKind::of("private-encrypted"), ChannelKind::Private);
    assert_eq!(ChannelKind::of("presence"), ChannelKind::Public);
    assert_eq!(ChannelKind::of(""), ChannelKind::Public);
    assert_eq!(ChannelKind::of("présence-é"), ChannelKind::Public);
    assert!(!ChannelKind::Public.needs_auth());
    assert!(ChannelKind::Private.needs_auth());
    assert!(ChannelKind::Presence.needs_auth());
    assert!(ChannelKind::Encrypted.needs_auth());
    assert!(starts_with("abc", ""));
    assert!(starts_with("abc", "abc"));
    assert!(!starts_with("ab", "abc"));
    assert!(starts_with("éa", "é"));
    assert!(!starts_with("ea", "é"));
}

#[test]
fn name_set_and_map_behave_as_sets_and_maps() {
    let mut set = NameSet::new();
    assert!(set.is_empty());
    assert!(set.insert(s("a")));
    assert!(!set.insert(s("a")));
    assert!(set.insert(s("b")));
    assert_eq!(set.len(), 2);
    assert!(set.contains(&s("a")));
    assert_eq!(set.position(&s("b")), Some(1));
    assert_eq!(set.get(0), "a");
    assert!(set.remove(&s("a")));
    assert!(!set.remove(&s("a")));
    assert_eq!(set.to_vec(), vec![s("b")]);
    let from = NameSet::from_vec(&vec![s("x"), s("y"), s("x")]);
    assert_eq!(from.len(), 2);

    let mut map: NameMap<u32> = NameMap::new();
    assert_eq!(map.insert(s("k"), 1), None);
    assert_eq!(map.insert(s("k"), 2), Some(1));
    assert_eq!(map.insert(s("l"), 3), None);
    assert_eq!(map.len(), 2);
    assert_eq!(map.get(&s("k")), Some(&2));
    assert_eq!(map.get(&s("m")), None);
    assert!(map.contains_key(&s("l")));
    *map.get_mut(&s("l")).unwrap() += 10;
    assert_eq!(map.get(&s("l")), Some(&13));
    assert_eq!(map.keys(), vec![s("k"), s("l")]);
    assert_eq!(map.key_at(1), "l");
    assert_eq!(*map.value_at(0), 2);
    assert_eq!(map.remove(&s("k")), Some(2));
    assert_eq!(map.remove(&s("k")), None);
    assert_eq!(map.position(&s("l")), Some(0));
}

#[test]
fn counts_read_are_the_numbers_of_subscribers() {
    let demo = app("demo", None);
    let mut adapter = LocalAdapter::new();
    for id in ["1", "2", "3"] {
        adapter.add_socket(&demo, s(id), 0).unwrap();
    }
    adapter.add_to_channel(&demo.id, &s("a"), &s("1"));
    adapter.add_to_channel(&demo.id, &s("a"), &s("2"));
    adapter.add_to_channel(&demo.id, &s("b"), &s("2"));
    adapter.add_to_channel(&demo.id, &s("c"), &s("3"));
    adapter.remove_from_channel(&demo.id, &s("c"), &s("3"));
    let subscribed_to = |adapter: &LocalAdapter, channel: &str| {
        ["1", "2", "3"]
            .iter()
            .filter(|id| {
                adapter
                    .get_connection(&s("demo"), &s(id))
                    .map(|c| c.channels.contains(&s(channel)))
                    .unwrap_or(false)
            })
            .count()
    };
    let counts = adapter.get_channels_with_socket_count(&demo.id);
    for channel in ["a", "b", "c", "d"] {
        let expected = subscribed_to(&adapter, channel);
        assert_eq!(adapter.get_channel_socket_count(&demo.id, &s(channel)), expected);
        assert_eq!(counts.get(&s(channel)).copied().unwrap_or(0), expected);
        assert_eq!(counts.contains_key(&s(channel)), expected > 0);
    }
    assert_eq!(counts.len(), 2);
}
