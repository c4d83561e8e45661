use sockudo::adapter::ConnectionManager;
use sockudo::aggregate::QueryKind;
use sockudo::app::App;
use sockudo::error::Error;
use sockudo::protocol::{ConnectionState, Effect, Event};
use sockudo::server::{
    check_tls_files, cors_policy, default_app, holds, parse_driver_enum, queue_target,
    rate_limit_plan, redis_url, registration_for, serve_plan, shutdown_plan, shutdown_reason,
    webhook_prefix, AdapterDriver, CorsOptions, CorsOrigins, CorsPolicy, DefaultAppOverrides,
    Lifecycle, MetricsOptions, QueueDriver, QueueOptions, RateLimiterOptions,
    RedisClusterQueueOptions, RedisOptions, RedisQueueOptions, Registration, ServePlan,
    ServerOptions, SockudoServer, SslOptions, TlsFileError, SHUTDOWN_CLOSE_CODE,
};

fn s(text: &str) -> String {
    text.to_string()
}

fn no_overrides() -> DefaultAppOverrides {
    DefaultAppOverrides {
        id: None,
        key: None,
        secret: None,
        enable_client_messages: None,
        enabled: None,
        max_connections: None,
        max_client_events_per_second: None,
        max_read_requests_per_second: None,
        max_presence_members_per_channel: None,
        max_presence_member_size_in_kb: None,
        max_channel_name_length: None,
        max_event_channels_at_once: None,
        max_event_name_length: None,
        max_event_payload_in_kb: None,
        max_event_batch_size: None,
        enable_user_authentication: None,
        max_backend_events_per_second: None,
        enable_watchlist_events: None,
    }
}

fn options(driver: AdapterDriver, apps: Vec<App>) -> ServerOptions {
    ServerOptions {
        host: s("0.0.0.0"),
        port: 6001,
        debug: false,
        adapter_driver: driver,
        apps,
        cors: CorsOptions {
            origin: vec![s("https://a.example"), s("https://b.example")],
            methods: vec![s("GET"), s("POST")],
            allowed_headers: vec![s("Authorization")],
            credentials: true,
        },
        ssl: SslOptions {
            enabled: true,
            cert_path: s("/etc/cert.pem"),
            key_path: s("/etc/key.pem"),
            redirect_http: true,
            http_port: None,
        },
        metrics: MetricsOptions {
            enabled: true,
            host: s("0.0.0.0"),
            port: 9601,
            prefix: s("sockudo_"),
        },
        queue: QueueOptions {
            driver: QueueDriver::Redis,
            redis: RedisQueueOptions {
                url_override: None,
                prefix: None,
                concurrency: 7,
            },
            redis_cluster: RedisClusterQueueOptions {
                nodes: vec![],
                prefix: Some(s("q:")),
                concurrency: 3,
            },
        },
        rate_limiter: RateLimiterOptions {
            enabled: true,
            trust_hops: Some(2),
        },
        redis: RedisOptions {
            host: s("redis.local"),
            port: 6379,
            key_prefix: s("sockudo:"),
        },
        process_id: s("node-7"),
        shutdown_grace_period: 10,
    }
}

#[test]
fn lifecycle_runs_until_stopped() {
    let mut l = Lifecycle::start();
    assert!(l.is_running());
    assert!(l.admits());
    l.stop();
    assert!(!l.is_running());
    assert!(!l.admits());
    l.stop();
    assert!(!l.is_running());
}

#[test]
fn driver_falls_back_to_the_default() {
    assert_eq!(
        parse_driver_enum(Some(AdapterDriver::Redis), AdapterDriver::Local),
        AdapterDriver::Redis
    );
    assert_eq!(
        parse_driver_enum(None, AdapterDriver::Nats),
        AdapterDriver::Nats
    );
    assert!(AdapterDriver::Redis.wires_metrics());
    assert!(AdapterDriver::Nats.wires_metrics());
    assert!(AdapterDriver::RedisCluster.wires_metrics());
    assert!(!AdapterDriver::Local.wires_metrics());
}

#[test]
fn drivers_are_known_by_their_names() {
    assert_eq!(AdapterDriver::from_name("local"), Some(AdapterDriver::Local));
    assert_eq!(AdapterDriver::from_name("redis"), Some(AdapterDriver::Redis));
    assert_eq!(AdapterDriver::from_name("redis-cluster"), Some(AdapterDriver::RedisCluster));
    assert_eq!(AdapterDriver::from_name("nats"), Some(AdapterDriver::Nats));
    assert_eq!(AdapterDriver::from_name("Redis"), None);
    assert_eq!(AdapterDriver::from_name("redis "), None);
    assert_eq!(AdapterDriver::from_name("rediscluster"), None);
    assert_eq!(AdapterDriver::from_name(""), None);
    assert_eq!(QueueDriver::from_name("none"), Some(QueueDriver::Disabled));
    assert_eq!(QueueDriver::from_name("memory"), Some(QueueDriver::Memory));
    assert_eq!(QueueDriver::from_name("redis"), Some(QueueDriver::Redis));
    assert_eq!(QueueDriver::from_name("redis-cluster"), Some(QueueDriver::RedisCluster));
    assert_eq!(QueueDriver::from_name("sqs"), Some(QueueDriver::Sqs));
    assert_eq!(QueueDriver::from_name("nats"), None);
    assert_eq!(QueueDriver::from_name("SQS"), None);
    assert_eq!(
        parse_driver_enum(QueueDriver::from_name("kafka"), QueueDriver::Redis),
        QueueDriver::Redis
    );
}

#[test]
fn every_node_of_a_fleet_gets_the_metrics_sink() {
    for driver in [AdapterDriver::Redis, AdapterDriver::RedisCluster, AdapterDriver::Nats] {
        let server = SockudoServer::new(options(driver, vec![]));
        let plan = server.backend_plan();
        assert!(plan.metrics);
        assert!(plan.adapter_metrics);
    }
    let alone = SockudoServer::new(options(AdapterDriver::Local, vec![]));
    assert!(alone.backend_plan().metrics);
    assert!(!alone.backend_plan().adapter_metrics);
    let mut quiet = options(AdapterDriver::RedisCluster, vec![]);
    quiet.metrics.enabled = false;
    let server = SockudoServer::new(quiet);
    assert!(!server.backend_plan().metrics);
    assert!(!server.backend_plan().adapter_metrics);
}

#[test]
fn a_new_node_knows_no_peer_and_waits_for_nothing() {
    let mut server = SockudoServer::new(options(AdapterDriver::RedisCluster, vec![]));
    let node = server.node().unwrap();
    assert_eq!(node.node_id(), "node-7");
    assert!(node.take_outbox().is_empty());
    assert_eq!(
        node.metrics(),
        sockudo::aggregate::AggregationMetrics {
            requests_sent: 0,
            requests_received: 0,
            responses_received: 0,
            resolved: 0,
            timed_out: 0,
        }
    );
    assert!(node.reap(u64::MAX).is_empty());
    // with no peer to wait for, the node's own report answers a query in full
    let request = node
        .begin_query(s("q"), QueryKind::SocketsCount, None, 0, 100)
        .unwrap();
    let own = node.answer(&request);
    let answer = node.accept(&own, 1).unwrap();
    assert!(!answer.degraded);
    assert_eq!(answer.responses, 1);
    node.add_to_channel(&s("demo"), &s("c"), &s("nobody"));
    let demo = default_app(&no_overrides());
    node.add_socket(&demo, s("1"), 0).unwrap();
    node.add_to_channel(&demo.id, &s("c"), &s("1"));
    assert_eq!(node.take_outbox()[0].sequence, 0);
}

#[test]
fn dynamic_registration_ends_with_the_registry_error() {
    let server = SockudoServer::new(options(AdapterDriver::Local, vec![]));
    assert_eq!(server.register_apps::<String>(Ok(true)), Ok(Registration::Update));
    assert_eq!(server.register_apps::<String>(Ok(false)), Ok(Registration::Create));
    assert_eq!(
        server.register_apps(Err(s("registry is down"))),
        Err(s("registry is down"))
    );
    assert_eq!(server.register_apps(Err(7u8)), Err(7u8));
}

#[test]
fn queue_target_follows_the_driver() {
    let redis = RedisQueueOptions {
        url_override: None,
        prefix: None,
        concurrency: 7,
    };
    let cluster = RedisClusterQueueOptions {
        nodes: vec![],
        prefix: Some(s("q:")),
        concurrency: 3,
    };
    assert!(queue_target(QueueDriver::Disabled, &redis, &cluster, "h", 1).is_none());

    let t = queue_target(QueueDriver::Redis, &redis, &cluster, "redis.local", 6379).unwrap();
    assert_eq!(t.target, Some(s("redis://redis.local:6379")));
    assert_eq!(t.prefix, "sockudo_queue:");
    assert_eq!(t.concurrency, 7);

    let overridden = RedisQueueOptions {
        url_override: Some(s("redis://elsewhere:1")),
        prefix: Some(s("mine:")),
        concurrency: 1,
    };
    let t = queue_target(QueueDriver::Redis, &overridden, &cluster, "redis.local", 6379).unwrap();
    assert_eq!(t.target, Some(s("redis://elsewhere:1")));
    assert_eq!(t.prefix, "mine:");

    let t = queue_target(QueueDriver::RedisCluster, &redis, &cluster, "h", 1).unwrap();
    assert_eq!(
        t.target,
        Some(s("redis://127.0.0.1:7000,redis://127.0.0.1:7001,redis://127.0.0.1:7002"))
    );
    assert_eq!(t.prefix, "q:");
    assert_eq!(t.concurrency, 3);

    let named = RedisClusterQueueOptions {
        nodes: vec![s("redis://n1:1"), s("redis://n2:2")],
        prefix: None,
        concurrency: 9,
    };
    let t = queue_target(QueueDriver::RedisCluster, &redis, &named, "h", 1).unwrap();
    assert_eq!(t.target, Some(s("redis://n1:1,redis://n2:2")));
    assert_eq!(t.prefix, "sockudo_queue:");

    for driver in [QueueDriver::Memory, QueueDriver::Sqs] {
        let t = queue_target(driver, &redis, &cluster, "h", 1).unwrap();
        assert_eq!(t.target, None);
        assert_eq!(t.prefix, "sockudo_queue:");
        assert_eq!(t.concurrency, 5);
    }
    assert_eq!(redis_url("10.0.0.1", 0), "redis://10.0.0.1:0");
    assert_eq!(redis_url("h", 65535), "redis://h:65535");
    assert_eq!(webhook_prefix("sockudo:"), "sockudo:webhooks:");
}

#[test]
fn registration_follows_the_registry() {
    assert_eq!(registration_for(Some(true)), Registration::Update);
    assert_eq!(registration_for(Some(false)), Registration::Create);
    assert_eq!(registration_for(None), Registration::Skip);
}

#[test]
fn default_app_is_the_demo_tenant() {
    let app = default_app(&no_overrides());
    assert_eq!(app.id, "demo-app");
    assert_eq!(app.key, "demo-key");
    assert_eq!(app.secret, "demo-secret");
    assert!(!app.enable_client_messages);
    assert!(app.enabled);
    assert_eq!(app.max_connections, 100);
    assert_eq!(app.max_client_events_per_second, 100);
    assert_eq!(app.max_read_requests_per_second, Some(100));
    assert_eq!(app.max_presence_members_per_channel, Some(100));
    assert_eq!(app.max_presence_member_size_in_kb, Some(100));
    assert_eq!(app.max_channel_name_length, Some(100));
    assert_eq!(app.max_event_channels_at_once, Some(100));
    assert_eq!(app.max_event_name_length, Some(100));
    assert_eq!(app.max_event_payload_in_kb, Some(100));
    assert_eq!(app.max_event_batch_size, Some(100));
    assert_eq!(app.enable_user_authentication, Some(false));
    assert_eq!(app.max_backend_events_per_second, Some(100));
    assert_eq!(app.enable_watchlist_events, Some(false));

    let mut o = no_overrides();
    o.id = Some(s("mine"));
    o.enabled = Some(false);
    o.enable_client_messages = Some(true);
    o.max_connections = Some(5);
    o.max_presence_members_per_channel = Some(2);
    o.enable_watchlist_events = Some(true);
    let app = default_app(&o);
    assert_eq!(app.id, "mine");
    assert_eq!(app.key, "demo-key");
    assert!(!app.enabled);
    assert!(app.enable_client_messages);
    assert_eq!(app.max_connections, 5);
    assert_eq!(app.max_presence_members_per_channel, Some(2));
    assert_eq!(app.max_event_name_length, Some(100));
    assert_eq!(app.enable_watchlist_events, Some(true));
}

#[test]
fn cors_allows_credentials_only_with_listed_origins() {
    let listed = vec![s("https://a.example")];
    assert_eq!(
        cors_policy(&listed, true),
        CorsPolicy {
            origins: CorsOrigins::Listed,
            allow_credentials: true,
            credentials_dropped: false,
            wildcard_among_others: false,
        }
    );
    assert!(!cors_policy(&listed, false).allow_credentials);
    for wildcard in ["*", "Any", "any"] {
        assert_eq!(
            cors_policy(&vec![s(wildcard)], true),
            CorsPolicy {
                origins: CorsOrigins::Any,
                allow_credentials: false,
                credentials_dropped: true,
                wildcard_among_others: false,
            }
        );
    }
    assert_eq!(
        cors_policy(&vec![s("https://a.example"), s("*")], false),
        CorsPolicy {
            origins: CorsOrigins::Any,
            allow_credentials: false,
            credentials_dropped: false,
            wildcard_among_others: true,
        }
    );
    assert_eq!(cors_policy(&vec![s("ANY")], true).origins, CorsOrigins::Listed);
    assert_eq!(
        cors_policy(&vec![], true),
        CorsPolicy {
            origins: CorsOrigins::Unset,
            allow_credentials: false,
            credentials_dropped: true,
            wildcard_among_others: false,
        }
    );
    assert!(!cors_policy(&vec![], false).credentials_dropped);
    assert!(holds(&listed, "https://a.example"));
    assert!(!holds(&listed, "https://a.example/"));
}

#[test]
fn rate_limit_needs_the_switch_and_a_limiter() {
    let plan = rate_limit_plan(true, true, Some(3)).unwrap();
    assert!(plan.include_headers);
    assert!(!plan.fail_open);
    assert_eq!(plan.key_prefix, "api:");
    assert_eq!(plan.trust_hops, 3);
    assert_eq!(rate_limit_plan(true, true, None).unwrap().trust_hops, 0);
    assert!(rate_limit_plan(true, false, None).is_none());
    assert!(rate_limit_plan(false, true, None).is_none());
}

#[test]
fn serve_plan_needs_both_files_for_tls() {
    assert_eq!(
        serve_plan(true, "c.pem", "k.pem", true, None, true),
        ServePlan {
            tls: true,
            redirect_port: Some(80),
            metrics: true,
        }
    );
    assert_eq!(
        serve_plan(true, "c.pem", "k.pem", true, Some(8080), false),
        ServePlan {
            tls: true,
            redirect_port: Some(8080),
            metrics: false,
        }
    );
    assert_eq!(
        serve_plan(true, "c.pem", "k.pem", false, Some(8080), false).redirect_port,
        None
    );
    for (enabled, cert, key) in [(false, "c", "k"), (true, "", "k"), (true, "c", "")] {
        assert_eq!(
            serve_plan(enabled, cert, key, true, Some(8080), true),
            ServePlan {
                tls: false,
                redirect_port: None,
                metrics: true,
            }
        );
    }
    assert_eq!(check_tls_files(true, true), Ok(()));
    assert_eq!(check_tls_files(false, true), Err(TlsFileError::CertNotFound));
    assert_eq!(check_tls_files(false, false), Err(TlsFileError::CertNotFound));
    assert_eq!(check_tls_files(true, false), Err(TlsFileError::KeyNotFound));
}

#[test]
fn server_plans_follow_its_configuration() {
    let server = SockudoServer::new(options(AdapterDriver::Redis, vec![]));
    assert!(server.is_running());
    assert_eq!(server.config().port, 6001);
    assert!(matches!(server.connections(), ConnectionManager::Horizontal(_)));

    let plan = server.backend_plan();
    let queue = plan.queue.unwrap();
    assert_eq!(queue.target, Some(s("redis://redis.local:6379")));
    assert_eq!(queue.concurrency, 7);
    assert_eq!(plan.webhook_redis_url, "redis://redis.local:6379");
    assert_eq!(plan.webhook_prefix, "sockudo:webhooks:");
    assert!(plan.metrics);
    assert!(plan.adapter_metrics);

    let http = server.configure_http_routes(true);
    assert_eq!(http.cors.origins, CorsOrigins::Listed);
    assert!(http.cors.allow_credentials);
    assert_eq!(http.rate_limit.unwrap().trust_hops, 2);
    assert!(server.configure_http_routes(false).rate_limit.is_none());

    assert_eq!(
        server.start(),
        ServePlan {
            tls: true,
            redirect_port: Some(80),
            metrics: true,
        }
    );
    assert_eq!(server.load_tls_config(true, true), Ok(()));
    assert_eq!(
        server.load_tls_config(true, false),
        Err(TlsFileError::KeyNotFound)
    );
    assert_eq!(server.register_apps::<()>(Ok(true)), Ok(Registration::Update));
    assert_eq!(server.register_apps::<()>(Ok(false)), Ok(Registration::Create));

    let apps = server.init(&no_overrides());
    assert_eq!(apps.len(), 1);
    assert_eq!(apps[0].id, "demo-app");

    let mut named = default_app(&no_overrides());
    named.id = s("named");
    let local = SockudoServer::new(options(AdapterDriver::Local, vec![named]));
    assert!(matches!(local.connections(), ConnectionManager::Local(_)));
    assert!(!local.backend_plan().adapter_metrics);
    let apps = local.init(&no_overrides());
    assert_eq!(apps.len(), 1);
    assert_eq!(apps[0].id, "named");
}

#[test]
fn stopping_closes_what_the_node_holds_and_admits_nothing_more() {
    let demo = default_app(&no_overrides());
    let mut other = default_app(&no_overrides());
    other.id = s("other");
    let mut server = SockudoServer::new(options(AdapterDriver::Nats, vec![]));

    let (mut one, effects) = server.accept(&demo, s("1"), 0).unwrap();
    assert!(matches!(effects[0], Effect::Established));
    assert_eq!(one.state(), ConnectionState::Open);
    let (_two, _) = server.accept(&demo, s("2"), 0).unwrap();
    let (_three, _) = server.accept(&other, s("3"), 0).unwrap();
    let (twin, effects) = server.accept(&demo, s("1"), 0).unwrap();
    assert_eq!(twin.state(), ConnectionState::Closed);
    assert!(matches!(
        effects[0],
        Effect::Rejected {
            error: Error::AlreadyExists
        }
    ));
    server.handle(
        &mut one,
        &demo,
        Event::Subscribe {
            channel: s("news"),
            signature_valid: false,
            member: None,
        },
    );
    assert_eq!(server.node().unwrap().take_outbox().len(), 1);
    assert!(matches!(
        server.begin_query(s("q"), QueryKind::SocketsCount, None, 0, 100),
        Some(Ok(_))
    ));
    assert!(matches!(
        server.begin_query(s("q"), QueryKind::SocketsCount, None, 0, 100),
        Some(Err(Error::AlreadyExists))
    ));

    let orders = server.stop();
    assert!(!server.is_running());
    let mut pairs: Vec<(String, String, u16)> = orders
        .iter()
        .map(|o| (o.app_id.clone(), o.socket_id.clone(), o.code))
        .collect();
    pairs.sort();
    assert_eq!(
        pairs,
        vec![
            (s("demo-app"), s("1"), 4009),
            (s("demo-app"), s("2"), 4009),
            (s("other"), s("3"), 4009),
        ]
    );
    assert_eq!(SHUTDOWN_CLOSE_CODE, 4009);
    assert_eq!(shutdown_reason(), "You got disconnected by the app.");
    assert_eq!(shutdown_plan(server.connections().reader()).len(), 3);

    assert!(server.accept(&demo, s("9"), 1).is_none());
    assert!(server
        .begin_query(s("q2"), QueryKind::SocketsCount, None, 0, 100)
        .is_none());
    assert_eq!(server.connections().reader().get_sockets_count(&demo.id), 2);
    // a connection that was accepted is served to its end
    let effects = server.handle(&mut one, &demo, Event::Disconnect);
    assert!(matches!(effects[0], Effect::Gone { .. }));
    assert_eq!(server.connections().reader().get_sockets_count(&demo.id), 1);

    let mut alone = SockudoServer::new(options(AdapterDriver::Local, vec![]));
    assert!(alone
        .begin_query(s("q"), QueryKind::SocketsCount, None, 0, 100)
        .is_none());
    assert!(alone.node().is_none());
    assert!(alone.stop().is_empty());
}

#[test]
fn options_are_replaced_as_a_whole() {
    let mut server = SockudoServer::new(options(AdapterDriver::Local, vec![]));
    assert_eq!(server.config().port, 6001);
    let mut next = options(AdapterDriver::Local, vec![]);
    next.port = 7001;
    next.ssl.enabled = false;
    server.load_options_from_file(next);
    assert_eq!(server.config().port, 7001);
    assert!(!server.start().tls);
    assert!(server.is_running());
}
