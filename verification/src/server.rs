//! The decisions of the server process: what to start with, how to serve,
//! and what to do when it stops. The process itself (sockets, files,
//! signals) is outside; it asks here and carries out what it is told.

use crate::adapter::ConnectionManager;
use crate::aggregate::QueryKind;
use crate::app::App;
use crate::channel::same_text;
use crate::error::Error;
use crate::horizontal::{fresh_node, HorizontalAdapter, RequestFrame};
use crate::protocol::{
    handled, theorem_gone_after_disconnect, ConnectionState, Effect, Event, Session,
};
use crate::local_adapter::{tenant, LocalAdapter};
use crate::history::{channel_matches_subscribers, lemma_members_are_subscribers};
use crate::model::{inv, member, targeted, Name, NamespaceView};
use crate::names::{lemma_push_fresh, lemma_take_next, texts};
use crate::namespace::text_of;
use crate::text::{concat2, decimal, decimal_text, join, joined};
use vstd::prelude::*;
use vstd::string::StringExecFns;

verus! {

/// Whether the process is running. New connections and new cluster-wide
/// queries are admitted only while it is.
pub struct Lifecycle {
    running: bool,
}

impl Lifecycle {
    pub closed spec fn running(&self) -> bool {
        self.running
    }

    /// The state of a process that has just been built: running.
    pub fn start() -> (l: Self)
        ensures
            l.running(),
    {
        Lifecycle { running: true }
    }

    /// Notes that the process stops. There is no way back.
    pub fn stop(&mut self)
        ensures
            !final(self).running(),
    {
        self.running = false;
    }

    pub fn is_running(&self) -> (b: bool)
        ensures
            b == self.running(),
    {
        self.running
    }

    /// Whether a new connection or a new cluster-wide query is admitted.
    pub fn admits(&self) -> (b: bool)
        ensures
            b == self.running(),
    {
        self.running
    }
}

/// How connection state is shared between nodes.
#[derive(Clone, Copy, Debug, PartialEq, Eq, Structural)]
pub enum AdapterDriver {
    Local,
    Redis,
    RedisCluster,
    Nats,
}

/// The adapter driver that the lower-case text `name` names.
pub open spec fn adapter_driver_of(name: Name) -> Option<AdapterDriver> {
    if name == "local"@ {
        Some(AdapterDriver::Local)
    } else if name == "redis"@ {
        Some(AdapterDriver::Redis)
    } else if name == "redis-cluster"@ {
        Some(AdapterDriver::RedisCluster)
    } else if name == "nats"@ {
        Some(AdapterDriver::Nats)
    } else {
        None
    }
}

impl AdapterDriver {
    /// Whether the adapter of this kind is given the metrics sink when it
    /// is built: every adapter that is a node of a fleet, whatever its
    /// broker, since the counters of cluster-wide queries are kept by each
    /// of them.
    pub open spec fn reports_metrics(self) -> bool {
        self != AdapterDriver::Local
    }

    pub fn wires_metrics(self) -> (b: bool)
        ensures
            b == self.reports_metrics(),
    {
        match self {
            AdapterDriver::Local => false,
            AdapterDriver::Redis => true,
            AdapterDriver::RedisCluster => true,
            AdapterDriver::Nats => true,
        }
    }

    /// The driver that `name` names. The name is taken as it is: a setting
    /// is put into lower case before it is looked up here.
    pub fn from_name(name: &str) -> (driver: Option<AdapterDriver>)
        ensures
            driver == adapter_driver_of(name@),
    {
        if same_text(name, "local") {
            Some(AdapterDriver::Local)
        } else if same_text(name, "redis") {
            Some(AdapterDriver::Redis)
        } else if same_text(name, "redis-cluster") {
            Some(AdapterDriver::RedisCluster)
        } else if same_text(name, "nats") {
            Some(AdapterDriver::Nats)
        } else {
            None
        }
    }
}

/// Where queued work is kept.
#[derive(Clone, Copy, Debug, PartialEq, Eq, Structural)]
pub enum QueueDriver {
    /// No queue is wanted.
    Disabled,
    Memory,
    Redis,
    RedisCluster,
    Sqs,
}

/// The queue driver that the lower-case text `name` names.
pub open spec fn queue_driver_of(name: Name) -> Option<QueueDriver> {
    if name == "none"@ {
        Some(QueueDriver::Disabled)
    } else if name == "memory"@ {
        Some(QueueDriver::Memory)
    } else if name == "redis"@ {
        Some(QueueDriver::Redis)
    } else if name == "redis-cluster"@ {
        Some(QueueDriver::RedisCluster)
    } else if name == "sqs"@ {
        Some(QueueDriver::Sqs)
    } else {
        None
    }
}

impl QueueDriver {
    /// The driver that `name` names. The name is taken as it is: a setting
    /// is put into lower case before it is looked up here.
    pub fn from_name(name: &str) -> (driver: Option<QueueDriver>)
        ensures
            driver == queue_driver_of(name@),
    {
        if same_text(name, "none") {
            Some(QueueDriver::Disabled)
        } else if same_text(name, "memory") {
            Some(QueueDriver::Memory)
        } else if same_text(name, "redis") {
            Some(QueueDriver::Redis)
        } else if same_text(name, "redis-cluster") {
            Some(QueueDriver::RedisCluster)
        } else if same_text(name, "sqs") {
            Some(QueueDriver::Sqs)
        } else {
            None
        }
    }
}

/// The driver that a setting names: the one parsed from it, or the default
/// where the setting names none.
pub fn parse_driver_enum<T>(parsed: Option<T>, default_driver: T) -> (driver: T)
    ensures
        driver == (match parsed {
            Some(d) => d,
            None => default_driver,
        }),
{
    match parsed {
        Some(d) => d,
        None => default_driver,
    }
}

/// The queue's settings for a single Redis.
pub struct RedisQueueOptions {
    pub url_override: Option<String>,
    pub prefix: Option<String>,
    pub concurrency: u32,
}

/// The queue's settings for a Redis cluster.
pub struct RedisClusterQueueOptions {
    pub nodes: Vec<String>,
    pub prefix: Option<String>,
    pub concurrency: u32,
}

/// What the queue manager is built with.
pub struct QueueTarget {
    /// The address of the Redis, or the addresses of the cluster's nodes
    /// with commas between them.
    pub target: Option<String>,
    pub prefix: String,
    pub concurrency: usize,
}

#[verifier::ext_equal]
pub struct QueueTargetView {
    pub target: Option<Name>,
    pub prefix: Name,
    pub concurrency: usize,
}

impl View for QueueTarget {
    type V = QueueTargetView;

    open spec fn view(&self) -> QueueTargetView {
        QueueTargetView {
            target: text_of(self.target),
            prefix: self.prefix@,
            concurrency: self.concurrency,
        }
    }
}

/// The address of the Redis at `host` and `port`.
pub open spec fn redis_url_text(host: Name, port: u16) -> Name {
    "redis://"@ + host + seq![':'] + decimal_text(port as nat)
}

/// The address of the Redis at `host` and `port`.
pub fn redis_url(host: &str, port: u16) -> (url: String)
    ensures
        url@ == redis_url_text(host@, port),
{
    proof {
        reveal_strlit(":");
    }
    let mut url = String::from_str("redis://");
    url.append(host);
    url.append(":");
    url.append(decimal(port as u64).as_str());
    assert(":"@ =~= seq![':']);
    url
}

/// The text given, or `default` where none is given.
pub open spec fn text_or(s: Option<String>, default: Name) -> Name {
    match s {
        Some(t) => t@,
        None => default,
    }
}

/// The nodes of a cluster where none are configured.
pub open spec fn default_cluster_nodes() -> Seq<Name> {
    seq!["redis://127.0.0.1:7000"@, "redis://127.0.0.1:7001"@, "redis://127.0.0.1:7002"@]
}

/// What the queue manager is built with under `driver`; nothing where no
/// queue is wanted.
pub open spec fn queue_target_of(
    driver: QueueDriver,
    redis: RedisQueueOptions,
    cluster: RedisClusterQueueOptions,
    host: Name,
    port: u16,
) -> Option<QueueTargetView> {
    match driver {
        QueueDriver::Disabled => None,
        QueueDriver::Redis => Some(
            QueueTargetView {
                target: Some(text_or(redis.url_override, redis_url_text(host, port))),
                prefix: text_or(redis.prefix, "sockudo_queue:"@),
                concurrency: redis.concurrency as usize,
            },
        ),
        QueueDriver::RedisCluster => Some(
            QueueTargetView {
                target: Some(
                    joined(
                        if cluster.nodes@.len() == 0 {
                            default_cluster_nodes()
                        } else {
                            texts(cluster.nodes@)
                        },
                        ","@,
                    ),
                ),
                prefix: text_or(cluster.prefix, "sockudo_queue:"@),
                concurrency: cluster.concurrency as usize,
            },
        ),
        _ => Some(QueueTargetView { target: None, prefix: "sockudo_queue:"@, concurrency: 5 }),
    }
}

/// The view of an optional queue target.
pub open spec fn target_view(t: Option<QueueTarget>) -> Option<QueueTargetView> {
    match t {
        Some(q) => Some(q@),
        None => None,
    }
}

/// What the queue manager is built with under `driver`: the Redis named by
/// the override or else by host and port, or the cluster's nodes, with the
/// prefix and the concurrency configured for the driver.
pub fn queue_target(
    driver: QueueDriver,
    redis: &RedisQueueOptions,
    cluster: &RedisClusterQueueOptions,
    host: &str,
    port: u16,
) -> (t: Option<QueueTarget>)
    ensures
        target_view(t) == queue_target_of(driver, *redis, *cluster, host@, port),
{
    match driver {
        QueueDriver::Disabled => None,
        QueueDriver::Redis => {
            let target = match &redis.url_override {
                Some(url) => url.clone(),
                None => redis_url(host, port),
            };
            let prefix = match &redis.prefix {
                Some(p) => p.clone(),
                None => String::from_str("sockudo_queue:"),
            };
            Some(QueueTarget { target: Some(target), prefix, concurrency: redis.concurrency as usize })
        },
        QueueDriver::RedisCluster => {
            let target = if cluster.nodes.len() == 0 {
                let mut nodes: Vec<String> = Vec::new();
                nodes.push(String::from_str("redis://127.0.0.1:7000"));
                nodes.push(String::from_str("redis://127.0.0.1:7001"));
                nodes.push(String::from_str("redis://127.0.0.1:7002"));
                assert(texts(nodes@) =~= default_cluster_nodes());
                join(&nodes, ",")
            } else {
                join(&cluster.nodes, ",")
            };
            let prefix = match &cluster.prefix {
                Some(p) => p.clone(),
                None => String::from_str("sockudo_queue:"),
            };
            Some(
                QueueTarget {
                    target: Some(target),
                    prefix,
                    concurrency: cluster.concurrency as usize,
                },
            )
        },
        _ => Some(
            QueueTarget { target: None, prefix: String::from_str("sockudo_queue:"), concurrency: 5 },
        ),
    }
}

/// The prefix under which webhooks are queued.
pub fn webhook_prefix(key_prefix: &str) -> (prefix: String)
    ensures
        prefix@ == key_prefix@ + "webhooks:"@,
{
    concat2(key_prefix, "webhooks:")
}

/// What to do with a tenant that the configuration names.
#[derive(Clone, Copy, Debug, PartialEq, Eq, Structural)]
pub enum Registration {
    /// The registry knows the tenant: update its record.
    Update,
    /// The registry does not know the tenant: create its record.
    Create,
    /// The registry could not be asked: leave the tenant out.
    Skip,
}

/// What to do with a configured tenant, given what the registry answered
/// when it was asked for the tenant's id: whether it knows the tenant, or
/// nothing where the lookup failed.
pub fn registration_for(found: Option<bool>) -> (r: Registration)
    ensures
        r == (match found {
            Some(true) => Registration::Update,
            Some(false) => Registration::Create,
            None => Registration::Skip,
        }),
{
    match found {
        Some(true) => Registration::Update,
        Some(false) => Registration::Create,
        None => Registration::Skip,
    }
}

/// What to do with a tenant that is registered while the server runs: what
/// the registry's answer asks for, or the registry's error, with which the
/// registration ends.
pub open spec fn dynamic_registration_for<E>(lookup: Result<bool, E>) -> Result<Registration, E> {
    match lookup {
        Ok(true) => Ok(Registration::Update),
        Ok(false) => Ok(Registration::Create),
        Err(error) => Err(error),
    }
}

/// How cross-origin requests are answered.
#[derive(Clone, Copy, Debug, PartialEq, Eq, Structural)]
pub enum CorsOrigins {
    /// Every origin is allowed.
    Any,
    /// The configured origins are allowed.
    Listed,
    /// No origin is configured.
    Unset,
}

#[derive(Clone, Copy, Debug, PartialEq, Eq, Structural)]
pub struct CorsPolicy {
    pub origins: CorsOrigins,
    pub allow_credentials: bool,
    /// Credentials were asked for but cannot be allowed.
    pub credentials_dropped: bool,
    /// The wildcard stands among other origins and overrides them.
    pub wildcard_among_others: bool,
}

/// Whether the origins hold the wildcard, in one of its spellings.
pub open spec fn has_wildcard(origins: Seq<Name>) -> bool {
    origins.contains("*"@) || origins.contains("Any"@) || origins.contains("any"@)
}

/// The policy for the configured origins: credentials are allowed only
/// with listed origins, never with the wildcard or without any origin.
pub open spec fn cors_policy_of(origins: Seq<Name>, credentials: bool) -> CorsPolicy {
    if has_wildcard(origins) {
        CorsPolicy {
            origins: CorsOrigins::Any,
            allow_credentials: false,
            credentials_dropped: credentials,
            wildcard_among_others: origins.len() > 1,
        }
    } else if origins.len() > 0 {
        CorsPolicy {
            origins: CorsOrigins::Listed,
            allow_credentials: credentials,
            credentials_dropped: false,
            wildcard_among_others: false,
        }
    } else {
        CorsPolicy {
            origins: CorsOrigins::Unset,
            allow_credentials: false,
            credentials_dropped: credentials,
            wildcard_among_others: false,
        }
    }
}

/// Whether `list` holds `item`.
pub fn holds(list: &Vec<String>, item: &str) -> (b: bool)
    ensures
        b == texts(list@).contains(item@),
{
    let wanted = String::from_str(item);
    let mut i: usize = 0;
    while i < list.len()
        invariant
            i <= list.len(),
            wanted@ == item@,
            forall|j: int| 0 <= j < i ==> texts(list@)[j] != item@,
        decreases list.len() - i,
    {
        if list[i] == wanted {
            assert(texts(list@)[i as int] == item@);
            return true;
        }
        i += 1;
    }
    false
}

/// The policy for the configured origins.
pub fn cors_policy(origins: &Vec<String>, credentials: bool) -> (policy: CorsPolicy)
    ensures
        policy == cors_policy_of(texts(origins@), credentials),
{
    if holds(origins, "*") || holds(origins, "Any") || holds(origins, "any") {
        CorsPolicy {
            origins: CorsOrigins::Any,
            allow_credentials: false,
            credentials_dropped: credentials,
            wildcard_among_others: origins.len() > 1,
        }
    } else if origins.len() > 0 {
        CorsPolicy {
            origins: CorsOrigins::Listed,
            allow_credentials: credentials,
            credentials_dropped: false,
            wildcard_among_others: false,
        }
    } else {
        CorsPolicy {
            origins: CorsOrigins::Unset,
            allow_credentials: false,
            credentials_dropped: credentials,
            wildcard_among_others: false,
        }
    }
}

/// How the HTTP API is rate limited.
pub struct RateLimitPlan {
    pub include_headers: bool,
    pub fail_open: bool,
    pub key_prefix: String,
    /// How many proxies in front are trusted to name the client.
    pub trust_hops: usize,
}

/// How the HTTP API is rate limited: with headers, failing closed, under
/// the prefix of the API, where limiting is enabled and a limiter is at
/// hand; not at all otherwise.
pub fn rate_limit_plan(enabled: bool, has_limiter: bool, trust_hops: Option<u32>) -> (plan:
    Option<RateLimitPlan>)
    ensures
        plan is Some <==> (enabled && has_limiter),
        plan matches Some(p) ==> p.include_headers && !p.fail_open && p.key_prefix@ == "api:"@
            && p.trust_hops == (match trust_hops {
            Some(h) => h as usize,
            None => 0,
        }),
{
    if enabled && has_limiter {
        let hops = match trust_hops {
            Some(h) => h as usize,
            None => 0,
        };
        Some(
            RateLimitPlan {
                include_headers: true,
                fail_open: false,
                key_prefix: String::from_str("api:"),
                trust_hops: hops,
            },
        )
    } else {
        None
    }
}

/// What the process listens on.
#[derive(Clone, Copy, Debug, PartialEq, Eq, Structural)]
pub struct ServePlan {
    /// Serve over TLS.
    pub tls: bool,
    /// Redirect plain HTTP on this port to HTTPS.
    pub redirect_port: Option<u16>,
    /// Serve the metrics.
    pub metrics: bool,
}

/// What the process listens on: TLS where it is enabled and both files are
/// named; with TLS, a redirect from plain HTTP where that is wanted, on the
/// port given or else on port 80.
pub open spec fn serve_plan_of(
    ssl_enabled: bool,
    cert_path: Name,
    key_path: Name,
    redirect_http: bool,
    http_port: Option<u16>,
    metrics_enabled: bool,
) -> ServePlan {
    let tls = ssl_enabled && cert_path.len() > 0 && key_path.len() > 0;
    ServePlan {
        tls,
        redirect_port: if tls && redirect_http {
            Some(
                match http_port {
                    Some(p) => p,
                    None => 80u16,
                },
            )
        } else {
            None
        },
        metrics: metrics_enabled,
    }
}

pub fn serve_plan(
    ssl_enabled: bool,
    cert_path: &str,
    key_path: &str,
    redirect_http: bool,
    http_port: Option<u16>,
    metrics_enabled: bool,
) -> (plan: ServePlan)
    ensures
        plan == serve_plan_of(
            ssl_enabled,
            cert_path@,
            key_path@,
            redirect_http,
            http_port,
            metrics_enabled,
        ),
{
    let tls = ssl_enabled && !cert_path.is_empty() && !key_path.is_empty();
    let redirect_port = if tls && redirect_http {
        Some(
            match http_port {
                Some(p) => p,
                None => 80,
            },
        )
    } else {
        None
    };
    ServePlan { tls, redirect_port, metrics: metrics_enabled }
}

/// Which of the TLS files is missing.
#[derive(Clone, Copy, Debug, PartialEq, Eq, Structural)]
pub enum TlsFileError {
    CertNotFound,
    KeyNotFound,
}

/// Whether the TLS configuration can be loaded, given which of its files
/// exist. The certificate is looked for first.
pub fn check_tls_files(cert_exists: bool, key_exists: bool) -> (r: Result<(), TlsFileError>)
    ensures
        r == (if !cert_exists {
            Err::<(), TlsFileError>(TlsFileError::CertNotFound)
        } else if !key_exists {
            Err::<(), TlsFileError>(TlsFileError::KeyNotFound)
        } else {
            Ok::<(), TlsFileError>(())
        }),
{
    if !cert_exists {
        Err(TlsFileError::CertNotFound)
    } else if !key_exists {
        Err(TlsFileError::KeyNotFound)
    } else {
        Ok(())
    }
}

/// The code with which connections are closed when the process stops.
pub const SHUTDOWN_CLOSE_CODE: u16 = 4009;

/// The reason given to a connection that is closed when the process stops.
pub fn shutdown_reason() -> (reason: &'static str)
    ensures
        reason@ == "You got disconnected by the app."@,
{
    "You got disconnected by the app."
}

/// The order to close one connection.
pub struct CloseOrder {
    pub app_id: String,
    pub socket_id: String,
    pub code: u16,
}

/// The tenant and connection of each order, in order.
pub open spec fn order_pairs(v: Seq<CloseOrder>) -> Seq<(Name, Name)> {
    v.map_values(|o: CloseOrder| (o.app_id@, o.socket_id@))
}

/// Whether this node holds the transport of connection `s` of tenant `a`.
pub open spec fn held(m: Map<Name, NamespaceView>, a: Name, s: Name) -> bool {
    m.contains_key(a) && targeted(m[a], None, s)
}

/// What to close when the process stops: every connection of every tenant
/// that this node holds, each once, all with the same code.
pub fn shutdown_plan(adapter: &LocalAdapter) -> (orders: Vec<CloseOrder>)
    requires
        adapter.wf(),
    ensures
        order_pairs(orders@).no_duplicates(),
        forall|a: Name, s: Name|
            #![trigger order_pairs(orders@).contains((a, s))]
            #![trigger held(adapter@, a, s)]
            order_pairs(orders@).contains((a, s)) <==> held(adapter@, a, s),
        forall|i: int| 0 <= i < orders@.len() ==> (#[trigger] orders@[i]).code == 4009,
{
    let ghost m = adapter@;
    let apps = adapter.get_namespaces();
    let ghost all = texts(apps@);
    let mut orders: Vec<CloseOrder> = Vec::new();
    assert(order_pairs(orders@) =~= Seq::<(Name, Name)>::empty());
    let mut i: usize = 0;
    while i < apps.len()
        invariant
            i <= apps.len(),
            adapter.wf(),
            m == adapter@,
            all == texts(apps@),
            all.no_duplicates(),
            forall|a: Name| #![trigger all.contains(a)] all.contains(a) <==> m.contains_key(a),
            order_pairs(orders@).no_duplicates(),
            forall|a: Name, s: Name|
                #![trigger order_pairs(orders@).contains((a, s))]
                order_pairs(orders@).contains((a, s)) <==> (all.take(i as int).contains(a)
                    && held(m, a, s)),
            forall|k: int| 0 <= k < orders@.len() ==> (#[trigger] orders@[k]).code == 4009,
        decreases apps.len() - i,
    {
        let app_id = &apps[i];
        let ids = adapter.local_sockets(app_id);
        let ghost app = app_id@;
        let ghost mine = texts(ids@);
        proof {
            assert(app == all[i as int]);
            lemma_take_next(all, i as int);
            assert(all.contains(app));
            assert(tenant(m, app) == m[app]);
        }
        let mut j: usize = 0;
        while j < ids.len()
            invariant
                j <= ids.len(),
                i < apps.len(),
                app == app_id@,
                app == all[i as int],
                mine == texts(ids@),
                mine.no_duplicates(),
                m.contains_key(app),
                !all.take(i as int).contains(app),
                forall|s: Name|
                    #![trigger mine.contains(s)]
                    mine.contains(s) <==> targeted(m[app], None, s),
                order_pairs(orders@).no_duplicates(),
                forall|a: Name, s: Name|
                    #![trigger order_pairs(orders@).contains((a, s))]
                    order_pairs(orders@).contains((a, s)) <==> ((all.take(i as int).contains(a)
                        && held(m, a, s)) || (a == app && mine.take(j as int).contains(s))),
                forall|k: int| 0 <= k < orders@.len() ==> (#[trigger] orders@[k]).code == 4009,
            decreases ids.len() - j,
        {
            let ghost before = order_pairs(orders@);
            let ghost s = mine[j as int];
            proof {
                lemma_take_next(mine, j as int);
                assert(!before.contains((app, s)));
                lemma_push_fresh(before, (app, s));
                lemma_push_fresh(mine.take(j as int), s);
            }
            orders.push(
                CloseOrder {
                    app_id: app_id.clone(),
                    socket_id: ids[j].clone(),
                    code: SHUTDOWN_CLOSE_CODE,
                },
            );
            assert(order_pairs(orders@) =~= before.push((app, s)));
            j += 1;
        }
        proof {
            assert(mine.take(j as int) =~= mine);
            lemma_push_fresh(all.take(i as int), app);
            assert forall|a: Name, s: Name|
                order_pairs(orders@).contains((a, s)) <==> (all.take(i + 1).contains(a) && held(
                    m,
                    a,
                    s,
                )) by {
                if a == app {
                    assert(mine.contains(s) <==> targeted(m[app], None, s));
                }
            }
        }
        i += 1;
    }
    proof {
        assert(all.take(i as int) =~= all);
    }
    orders
}

/// What the environment says about the tenant that is registered when the
/// configuration names none. A setting that is absent, or that cannot be
/// read as a value of its kind, is nothing.
pub struct DefaultAppOverrides {
    pub id: Option<String>,
    pub key: Option<String>,
    pub secret: Option<String>,
    pub enable_client_messages: Option<bool>,
    pub enabled: Option<bool>,
    pub max_connections: Option<u32>,
    pub max_client_events_per_second: Option<u32>,
    pub max_read_requests_per_second: Option<u32>,
    pub max_presence_members_per_channel: Option<u32>,
    pub max_presence_member_size_in_kb: Option<u32>,
    pub max_channel_name_length: Option<u32>,
    pub max_event_channels_at_once: Option<u32>,
    pub max_event_name_length: Option<u32>,
    pub max_event_payload_in_kb: Option<u32>,
    pub max_event_batch_size: Option<u32>,
    pub enable_user_authentication: Option<bool>,
    pub max_backend_events_per_second: Option<u32>,
    pub enable_watchlist_events: Option<bool>,
}

/// The number given, or `default` where none is given.
pub open spec fn number_or(n: Option<u32>, default: u32) -> u32 {
    match n {
        Some(v) => v,
        None => default,
    }
}

/// The flag given, or `default` where none is given.
pub open spec fn flag_or(b: Option<bool>, default: bool) -> bool {
    match b {
        Some(v) => v,
        None => default,
    }
}

fn number(n: Option<u32>, default: u32) -> (v: u32)
    ensures
        v == number_or(n, default),
{
    match n {
        Some(v) => v,
        None => default,
    }
}

fn flag(b: Option<bool>, default: bool) -> (v: bool)
    ensures
        v == flag_or(b, default),
{
    match b {
        Some(v) => v,
        None => default,
    }
}

fn name(s: &Option<String>, default: &str) -> (v: String)
    ensures
        v@ == text_or(*s, default@),
{
    match s {
        Some(t) => t.clone(),
        None => String::from_str(default),
    }
}

/// Whether `app` is the tenant that is registered when the configuration
/// names none: the demo tenant, enabled, without client messages, every
/// limit at 100, but for what the environment `o` says otherwise.
pub open spec fn is_default_app(app: App, o: DefaultAppOverrides) -> bool {
    &&& app.id@ == text_or(o.id, "demo-app"@)
    &&& app.key@ == text_or(o.key, "demo-key"@)
    &&& app.secret@ == text_or(o.secret, "demo-secret"@)
    &&& app.enable_client_messages == flag_or(o.enable_client_messages, false)
    &&& app.enabled == flag_or(o.enabled, true)
    &&& app.max_connections == number_or(o.max_connections, 100)
    &&& app.max_client_events_per_second == number_or(o.max_client_events_per_second, 100)
    &&& app.max_read_requests_per_second == Some(number_or(o.max_read_requests_per_second, 100))
    &&& app.max_presence_members_per_channel == Some(
        number_or(o.max_presence_members_per_channel, 100),
    )
    &&& app.max_presence_member_size_in_kb == Some(
        number_or(o.max_presence_member_size_in_kb, 100),
    )
    &&& app.max_channel_name_length == Some(number_or(o.max_channel_name_length, 100))
    &&& app.max_event_channels_at_once == Some(number_or(o.max_event_channels_at_once, 100))
    &&& app.max_event_name_length == Some(number_or(o.max_event_name_length, 100))
    &&& app.max_event_payload_in_kb == Some(number_or(o.max_event_payload_in_kb, 100))
    &&& app.max_event_batch_size == Some(number_or(o.max_event_batch_size, 100))
    &&& app.enable_user_authentication == Some(flag_or(o.enable_user_authentication, false))
    &&& app.max_backend_events_per_second == Some(
        number_or(o.max_backend_events_per_second, 100),
    )
    &&& app.enable_watchlist_events == Some(flag_or(o.enable_watchlist_events, false))
}

/// The tenant that is registered when the configuration names none.
pub fn default_app(o: &DefaultAppOverrides) -> (app: App)
    ensures
        is_default_app(app, *o),
{
    App {
        id: name(&o.id, "demo-app"),
        key: name(&o.key, "demo-key"),
        secret: name(&o.secret, "demo-secret"),
        enable_client_messages: flag(o.enable_client_messages, false),
        enabled: flag(o.enabled, true),
        max_connections: number(o.max_connections, 100),
        max_client_events_per_second: number(o.max_client_events_per_second, 100),
        max_read_requests_per_second: Some(number(o.max_read_requests_per_second, 100)),
        max_presence_members_per_channel: Some(number(o.max_presence_members_per_channel, 100)),
        max_presence_member_size_in_kb: Some(number(o.max_presence_member_size_in_kb, 100)),
        max_channel_name_length: Some(number(o.max_channel_name_length, 100)),
        max_event_channels_at_once: Some(number(o.max_event_channels_at_once, 100)),
        max_event_name_length: Some(number(o.max_event_name_length, 100)),
        max_event_payload_in_kb: Some(number(o.max_event_payload_in_kb, 100)),
        max_event_batch_size: Some(number(o.max_event_batch_size, 100)),
        enable_user_authentication: Some(flag(o.enable_user_authentication, false)),
        max_backend_events_per_second: Some(number(o.max_backend_events_per_second, 100)),
        enable_watchlist_events: Some(flag(o.enable_watchlist_events, false)),
    }
}

/// How cross-origin requests are configured.
pub struct CorsOptions {
    pub origin: Vec<String>,
    pub methods: Vec<String>,
    pub allowed_headers: Vec<String>,
    pub credentials: bool,
}

pub struct SslOptions {
    pub enabled: bool,
    pub cert_path: String,
    pub key_path: String,
    pub redirect_http: bool,
    pub http_port: Option<u16>,
}

pub struct MetricsOptions {
    pub enabled: bool,
    pub host: String,
    pub port: u16,
    pub prefix: String,
}

pub struct QueueOptions {
    pub driver: QueueDriver,
    pub redis: RedisQueueOptions,
    pub redis_cluster: RedisClusterQueueOptions,
}

pub struct RateLimiterOptions {
    pub enabled: bool,
    pub trust_hops: Option<u32>,
}

pub struct RedisOptions {
    pub host: String,
    pub port: u16,
    pub key_prefix: String,
}

/// The configuration of the process.
pub struct ServerOptions {
    pub host: String,
    pub port: u16,
    pub debug: bool,
    pub adapter_driver: AdapterDriver,
    /// The tenants to register at start.
    pub apps: Vec<App>,
    pub cors: CorsOptions,
    pub ssl: SslOptions,
    pub metrics: MetricsOptions,
    pub queue: QueueOptions,
    pub rate_limiter: RateLimiterOptions,
    pub redis: RedisOptions,
    /// The id under which this process is known to the fleet.
    pub process_id: String,
    /// How long the process waits after its connections are closed, in
    /// seconds.
    pub shutdown_grace_period: u64,
}

/// What is to be built outside for the process to work with.
pub struct BackendPlan {
    pub queue: Option<QueueTarget>,
    pub webhook_redis_url: String,
    pub webhook_prefix: String,
    /// Build the metrics sink.
    pub metrics: bool,
    /// Hand the metrics sink to the adapter.
    pub adapter_metrics: bool,
}

/// How the HTTP API is served.
pub struct HttpPlan {
    pub cors: CorsPolicy,
    pub rate_limit: Option<RateLimitPlan>,
}

/// Whether `event`, taken with the record `app`, ends a connection of
/// tenant `tenant` that stands in `phase`: the transport closed, the
/// connection idled out, or its termination completed.
pub open spec fn ends_connection(
    phase: ConnectionState,
    tenant: Name,
    app: App,
    event: crate::protocol::EventView,
) -> bool {
    event is Disconnect && app.id@ == tenant && phase != ConnectionState::Closed
}

/// The server: its configuration, whether it runs, and the state of its
/// connections and channels.
pub struct SockudoServer {
    config: ServerOptions,
    lifecycle: Lifecycle,
    manager: ConnectionManager,
}

impl SockudoServer {
    pub closed spec fn options(&self) -> ServerOptions {
        self.config
    }

    pub closed spec fn running(&self) -> bool {
        self.lifecycle.running()
    }

    pub closed spec fn adapter(&self) -> ConnectionManager {
        self.manager
    }

    /// The server is sound when the state of its connections is.
    pub open spec fn wf(&self) -> bool {
        self.adapter().wf()
    }

    /// A running server without connections. It serves alone under the
    /// local driver and as a node of a fleet, known by its process id,
    /// under every other: a node that knows no peer, waits for no query
    /// and has published nothing.
    pub fn new(config: ServerOptions) -> (server: Self)
        ensures
            server.wf(),
            server.running(),
            server.options() == config,
            server.adapter().stores() == Map::<Name, NamespaceView>::empty(),
            server.adapter() is Local <==> config.adapter_driver == AdapterDriver::Local,
            server.adapter() matches ConnectionManager::Horizontal(h) ==> h@ == fresh_node(
                config.process_id@,
            ),
    {
        let manager = match config.adapter_driver {
            AdapterDriver::Local => ConnectionManager::local(),
            _ => ConnectionManager::horizontal(config.process_id.clone()),
        };
        SockudoServer { config, lifecycle: Lifecycle::start(), manager }
    }

    pub fn config(&self) -> (config: &ServerOptions)
        ensures
            *config == self.options(),
    {
        &self.config
    }

    pub fn is_running(&self) -> (b: bool)
        ensures
            b == self.running(),
    {
        self.lifecycle.is_running()
    }

    /// Takes the configuration that was read from a file in place of the
    /// one in use. Reading the file is the caller's part.
    pub fn load_options_from_file(&mut self, options: ServerOptions)
        ensures
            final(self).options() == options,
            final(self).running() == old(self).running(),
            final(self).adapter() == old(self).adapter(),
            final(self).wf() == old(self).wf(),
    {
        self.config = options;
    }

    /// The state of connections and channels, for reading.
    pub fn connections(&self) -> (manager: &ConnectionManager)
        ensures
            *manager == self.adapter(),
            self.wf() ==> manager.wf(),
    {
        &self.manager
    }

    /// Whatever the server has taken, the state of every tenant is
    /// consistent, and each channel lists exactly the connections that are
    /// subscribed to it: as many as there are, and the channel is there
    /// exactly when there is one.
    pub proof fn theorem_state_consistent(&self, app: Name, channel: Name)
        requires
            self.wf(),
        ensures
            inv(tenant(self.adapter().stores(), app)),
            channel_matches_subscribers(tenant(self.adapter().stores(), app), channel),
    {
        self.adapter().lemma_tenant_inv(app);
        lemma_members_are_subscribers(tenant(self.adapter().stores(), app), channel);
    }

    /// What is to be built outside: the queue, the webhooks' Redis and
    /// prefix, and the metrics sink, which the adapters that report get.
    pub fn backend_plan(&self) -> (plan: BackendPlan)
        ensures
            target_view(plan.queue) == queue_target_of(
                self.options().queue.driver,
                self.options().queue.redis,
                self.options().queue.redis_cluster,
                self.options().redis.host@,
                self.options().redis.port,
            ),
            plan.webhook_redis_url@ == redis_url_text(
                self.options().redis.host@,
                self.options().redis.port,
            ),
            plan.webhook_prefix@ == self.options().redis.key_prefix@ + "webhooks:"@,
            plan.metrics == self.options().metrics.enabled,
            plan.adapter_metrics == (self.options().metrics.enabled
                && self.options().adapter_driver.reports_metrics()),
    {
        BackendPlan {
            queue: queue_target(
                self.config.queue.driver,
                &self.config.queue.redis,
                &self.config.queue.redis_cluster,
                self.config.redis.host.as_str(),
                self.config.redis.port,
            ),
            webhook_redis_url: redis_url(self.config.redis.host.as_str(), self.config.redis.port),
            webhook_prefix: webhook_prefix(self.config.redis.key_prefix.as_str()),
            metrics: self.config.metrics.enabled,
            adapter_metrics: self.config.metrics.enabled
                && self.config.adapter_driver.wires_metrics(),
        }
    }

    /// The tenants to register at start: those that the configuration
    /// names, or the default tenant where it names none.
    pub fn init(&self, overrides: &DefaultAppOverrides) -> (apps: Vec<App>)
        ensures
            self.options().apps@.len() > 0 ==> apps@ == self.options().apps@,
            self.options().apps@.len() == 0 ==> apps@.len() == 1 && is_default_app(
                apps@[0],
                *overrides,
            ),
    {
        let mut apps: Vec<App> = Vec::new();
        if self.config.apps.len() == 0 {
            apps.push(default_app(overrides));
        } else {
            let mut i: usize = 0;
            while i < self.config.apps.len()
                invariant
                    i <= self.config.apps.len(),
                    apps@ == self.config.apps@.take(i as int),
                decreases self.config.apps.len() - i,
            {
                apps.push(self.config.apps[i].copy());
                assert(apps@ =~= self.config.apps@.take(i + 1));
                i += 1;
            }
            assert(self.config.apps@.take(i as int) =~= self.config.apps@);
        }
        apps
    }

    /// What to do with a tenant that is registered while the server runs,
    /// given what the registry answered when it was asked for the tenant's
    /// id: update the record it has, create one where it has none, or end
    /// the registration with the registry's error where the lookup failed.
    pub fn register_apps<E>(&self, lookup: Result<bool, E>) -> (r: Result<Registration, E>)
        ensures
            r == dynamic_registration_for(lookup),
    {
        match lookup {
            Ok(true) => Ok(Registration::Update),
            Ok(false) => Ok(Registration::Create),
            Err(error) => Err(error),
        }
    }

    /// How the HTTP API is served: the policy for cross-origin requests,
    /// and the rate limiting where it is enabled and a limiter is at hand.
    pub fn configure_http_routes(&self, has_limiter: bool) -> (plan: HttpPlan)
        ensures
            plan.cors == cors_policy_of(
                texts(self.options().cors.origin@),
                self.options().cors.credentials,
            ),
            plan.rate_limit is Some <==> (self.options().rate_limiter.enabled && has_limiter),
            plan.rate_limit matches Some(p) ==> p.include_headers && !p.fail_open && p.key_prefix@
                == "api:"@ && p.trust_hops == (match self.options().rate_limiter.trust_hops {
                Some(h) => h as usize,
                None => 0,
            }),
    {
        HttpPlan {
            cors: cors_policy(&self.config.cors.origin, self.config.cors.credentials),
            rate_limit: rate_limit_plan(
                self.config.rate_limiter.enabled,
                has_limiter,
                self.config.rate_limiter.trust_hops,
            ),
        }
    }

    /// What the process listens on.
    pub fn start(&self) -> (plan: ServePlan)
        ensures
            plan == serve_plan_of(
                self.options().ssl.enabled,
                self.options().ssl.cert_path@,
                self.options().ssl.key_path@,
                self.options().ssl.redirect_http,
                self.options().ssl.http_port,
                self.options().metrics.enabled,
            ),
    {
        serve_plan(
            self.config.ssl.enabled,
            self.config.ssl.cert_path.as_str(),
            self.config.ssl.key_path.as_str(),
            self.config.ssl.redirect_http,
            self.config.ssl.http_port,
            self.config.metrics.enabled,
        )
    }

    /// Whether the TLS configuration can be loaded, given which of its
    /// files exist.
    pub fn load_tls_config(&self, cert_exists: bool, key_exists: bool) -> (r: Result<
        (),
        TlsFileError,
    >)
        ensures
            r is Ok <==> (cert_exists && key_exists),
            r is Err ==> r->Err_0 == (if !cert_exists {
                TlsFileError::CertNotFound
            } else {
                TlsFileError::KeyNotFound
            }),
    {
        check_tls_files(cert_exists, key_exists)
    }

    /// Stops the server: from now on nothing new is admitted. Hands back
    /// what to close: every connection that this node holds, each once.
    pub fn stop(&mut self) -> (orders: Vec<CloseOrder>)
        requires
            old(self).wf(),
        ensures
            final(self).wf(),
            !final(self).running(),
            final(self).options() == old(self).options(),
            final(self).adapter() == old(self).adapter(),
            order_pairs(orders@).no_duplicates(),
            forall|a: Name, s: Name|
                #![trigger order_pairs(orders@).contains((a, s))]
                #![trigger held(old(self).adapter().stores(), a, s)]
                order_pairs(orders@).contains((a, s)) <==> held(
                    old(self).adapter().stores(),
                    a,
                    s,
                ),
            forall|i: int| 0 <= i < orders@.len() ==> (#[trigger] orders@[i]).code == 4009,
    {
        self.lifecycle.stop();
        shutdown_plan(self.manager.reader())
    }

    /// Accepts a connection whose handshake succeeded, while the server
    /// runs: registers it and hands back its driver with what is to go out.
    /// A server that has stopped accepts nothing and changes nothing.
    pub fn accept(&mut self, app: &App, socket_id: String, now: u64) -> (r: Option<
        (Session, Vec<Effect>),
    >)
        requires
            old(self).wf(),
        ensures
            final(self).wf(),
            final(self).running() == old(self).running(),
            final(self).options() == old(self).options(),
            r is Some <==> old(self).running(),
            r is None ==> final(self).adapter() == old(self).adapter(),
            r matches Some(pair) ==> {
                &&& pair.0.id() == socket_id@
                &&& pair.0.tenant() == app.id@
                &&& handled(
                    ConnectionState::Connecting,
                    app.id@,
                    socket_id@,
                    old(self).adapter(),
                    final(self).adapter(),
                    *app,
                    crate::protocol::EventView::Established { now },
                    pair.0.phase(),
                    pair.1@,
                )
            },
    {
        if !self.lifecycle.admits() {
            return None;
        }
        let mut session = Session::new(app.id.clone(), socket_id);
        let effects = session.handle(&mut self.manager, app, Event::Established { now });
        Some((session, effects))
    }

    /// Takes one event on a connection. A connection that was accepted is
    /// served to its end, whether the server still runs or not.
    pub fn handle(&mut self, session: &mut Session, app: &App, event: Event) -> (effects: Vec<
        Effect,
    >)
        requires
            old(self).wf(),
        ensures
            final(self).wf(),
            final(self).running() == old(self).running(),
            final(self).options() == old(self).options(),
            final(session).id() == old(session).id(),
            final(session).tenant() == old(session).tenant(),
            handled(
                old(session).phase(),
                old(session).tenant(),
                old(session).id(),
                old(self).adapter(),
                final(self).adapter(),
                *app,
                event@,
                final(session).phase(),
                effects@,
            ),
            forall|i: int| 0 <= i < effects@.len() ==> (#[trigger] effects@[i]).listed_once(),
            ends_connection(old(session).phase(), old(session).tenant(), *app, event@) ==> {
                &&& final(session).phase() == ConnectionState::Closed
                &&& !tenant(final(self).adapter().stores(), app.id@).connections.contains_key(
                    old(session).id(),
                )
                &&& forall|c: Name|
                    !member(
                        tenant(final(self).adapter().stores(), app.id@),
                        c,
                        old(session).id(),
                    )
            },
    {
        let ghost before = self.manager;
        let ghost phase = session.phase();
        let ghost id = session.id();
        let ghost tenant_name = session.tenant();
        let ghost ev = event@;
        let effects = session.handle(&mut self.manager, app, event);
        proof {
            if ends_connection(phase, tenant_name, *app, ev) {
                theorem_gone_after_disconnect(
                    phase,
                    id,
                    before,
                    self.manager,
                    *app,
                    session.phase(),
                    effects@,
                );
            }
        }
        effects
    }

    /// Sends out a cluster-wide query, while the server runs as a node of a
    /// fleet. A server that has stopped, or that serves alone, sends none.
    pub fn begin_query(
        &mut self,
        request_id: String,
        op: QueryKind,
        app_id: Option<String>,
        now: u64,
        timeout_ms: u64,
    ) -> (r: Option<Result<RequestFrame, Error>>)
        requires
            old(self).wf(),
        ensures
            final(self).wf(),
            final(self).running() == old(self).running(),
            final(self).options() == old(self).options(),
            r is Some <==> (old(self).running() && old(self).adapter() is Horizontal),
            r is None ==> final(self).adapter() == old(self).adapter(),
            r matches Some(Ok(frame)) ==> frame.request_id@ == request_id@ && frame.op == op
                && text_of(frame.app_id) == text_of(app_id),
            r matches Some(inner) ==> (inner is Ok <==> !old(
                self,
            ).adapter()->Horizontal_0@.table.pending.contains_key(request_id@)),
            r matches Some(Err(e)) ==> e == Error::AlreadyExists,
            r matches Some(Err(e)) ==> final(self).adapter()->Horizontal_0@ == old(
                self,
            ).adapter()->Horizontal_0@,
            r is Some ==> final(self).adapter() is Horizontal,
            r matches Some(Ok(_)) ==> final(self).adapter()->Horizontal_0@
                == (crate::horizontal::HorizontalView {
                table: crate::aggregate::begun(
                    old(self).adapter()->Horizontal_0@.table,
                    request_id@,
                    op,
                    text_of(app_id),
                    crate::aggregate::sat(
                        (old(self).adapter()->Horizontal_0@.peers.len() + 1) as int,
                    ) as nat,
                    now,
                    timeout_ms,
                ),
                ..old(self).adapter()->Horizontal_0@
            }),
    {
        if !self.lifecycle.admits() {
            return None;
        }
        match &mut self.manager {
            ConnectionManager::Horizontal(h) => Some(
                h.begin_query(request_id, op, app_id, now, timeout_ms),
            ),
            ConnectionManager::Local(_) => None,
        }
    }

    /// The node of the fleet that this server is, for what the broker
    /// delivers and what it is to be handed; nothing where the server
    /// serves alone.
    pub fn node(&mut self) -> (r: Option<&mut HorizontalAdapter>)
        requires
            old(self).wf(),
        ensures
            match r {
                Some(h) => {
                    &&& old(self).adapter() == ConnectionManager::Horizontal(*h)
                    &&& h.wf()
                    &&& final(self).adapter() == ConnectionManager::Horizontal(*final(h))
                    &&& final(self).running() == old(self).running()
                    &&& final(self).options() == old(self).options()
                    &&& final(h).wf() ==> final(self).wf()
                },
                None => old(self).adapter() is Local && *final(self) == *old(self),
            },
    {
        match &mut self.manager {
            ConnectionManager::Horizontal(h) => Some(h),
            ConnectionManager::Local(_) => None,
        }
    }
}

} // verus!
