//! The per-connection protocol state machine: what an inbound frame or a
//! session event does to the tenant's state, and what goes out in answer.
//!
//! The machine decides; it neither reads nor writes a transport. What the
//! collaborators outside found (whether a signature is valid, whether the
//! rate limiter allows) comes in with the event, and what is to be sent
//! comes back as effects for the caller to carry out.

use crate::app::App;
use crate::channel::{same_text, starts_with, PresenceMemberInfo};
use crate::error::Error;
use crate::adapter::{told, ConnectionManager};
use crate::horizontal::{leave_mutation, leave_mutations, with_stores, MutationView};
use crate::local_adapter::{tenant, tenant_or_new, with_tenant};
use crate::model::{
    add_socket, departs, disconnect, join_checked, join_verdict, kind_of, leave, recipients,
    set_user, subscribe, subscribed, touch, vacates, ChannelKind, Member, Name, NamespaceView,
};
use crate::names::texts;
use crate::namespace::{left_pairs, Departure};
use vstd::prelude::*;
use vstd::string::StrSliceExecFns;

verus! {

/// Where a connection stands in its life.
#[derive(Clone, Copy, Debug, PartialEq, Eq, Structural)]
pub enum ConnectionState {
    /// The transport is up; the handshake is not done.
    Connecting,
    /// The connection is registered and takes frames.
    Open,
    /// The server has asked the connection to close.
    Closing,
    /// The connection is gone. Nothing follows.
    Closed,
}

/// What a frame from the client asks for, going by the name of its event.
#[derive(Clone, Copy, Debug, PartialEq, Eq, Structural)]
pub enum FrameKind {
    Subscribe,
    Unsubscribe,
    Ping,
    Pong,
    Signin,
    /// An event of the client's own, for the members of a channel.
    ClientEvent,
    /// Nothing that the protocol knows.
    Unknown,
}

/// What a frame with the event name `name` asks for.
pub open spec fn frame_kind_of(name: Name) -> FrameKind {
    if name == "pusher:subscribe"@ {
        FrameKind::Subscribe
    } else if name == "pusher:unsubscribe"@ {
        FrameKind::Unsubscribe
    } else if name == "pusher:ping"@ {
        FrameKind::Ping
    } else if name == "pusher:pong"@ {
        FrameKind::Pong
    } else if name == "pusher:signin"@ {
        FrameKind::Signin
    } else if "client-"@.is_prefix_of(name) {
        FrameKind::ClientEvent
    } else {
        FrameKind::Unknown
    }
}

/// What a frame with the event name `name` asks for.
pub fn frame_kind(name: &str) -> (kind: FrameKind)
    ensures
        kind == frame_kind_of(name@),
{
    if same_text(name, "pusher:subscribe") {
        FrameKind::Subscribe
    } else if same_text(name, "pusher:unsubscribe") {
        FrameKind::Unsubscribe
    } else if same_text(name, "pusher:ping") {
        FrameKind::Ping
    } else if same_text(name, "pusher:pong") {
        FrameKind::Pong
    } else if same_text(name, "pusher:signin") {
        FrameKind::Signin
    } else if starts_with(name, "client-") {
        FrameKind::ClientEvent
    } else {
        FrameKind::Unknown
    }
}

/// What comes in: a frame from the client or an event of the session.
pub enum Event {
    /// The handshake succeeded.
    Established { now: u64 },
    /// The client subscribes. `signature_valid` is what the validator found
    /// for the signature sent along; `member` is the identity sent for a
    /// presence channel.
    Subscribe { channel: String, signature_valid: bool, member: Option<PresenceMemberInfo> },
    Unsubscribe { channel: String },
    /// The client publishes to a channel: `data` is the payload as it is
    /// passed on, `payload_len` its size in bytes, and `rate_allowed` what
    /// the rate limiter answered for this event.
    ClientEvent {
        channel: String,
        event: String,
        data: String,
        payload_len: usize,
        rate_allowed: bool,
    },
    /// The client signs in. `valid` is what the check of the credentials
    /// found.
    Signin { user_id: String, valid: bool },
    Ping { now: u64 },
    Pong { now: u64 },
    /// The server cuts the connection off.
    Terminate,
    /// The transport closed, the connection idled out, or a termination
    /// completed.
    Disconnect,
}

/// An event as the model sees it.
pub enum EventView {
    Established { now: u64 },
    Subscribe { channel: Name, signature_valid: bool, member: Option<Member> },
    Unsubscribe { channel: Name },
    ClientEvent { channel: Name, event: Name, data: Name, payload_len: nat, rate_allowed: bool },
    Signin { user_id: Name, valid: bool },
    Ping { now: u64 },
    Pong { now: u64 },
    Terminate,
    Disconnect,
}

impl View for Event {
    type V = EventView;

    open spec fn view(&self) -> EventView {
        match *self {
            Event::Established { now } => EventView::Established { now },
            Event::Subscribe { channel, signature_valid, member } => EventView::Subscribe {
                channel: channel@,
                signature_valid,
                member: match member {
                    Some(who) => Some(who@),
                    None => None,
                },
            },
            Event::Unsubscribe { channel } => EventView::Unsubscribe { channel: channel@ },
            Event::ClientEvent { channel, event, data, payload_len, rate_allowed } => {
                EventView::ClientEvent {
                    channel: channel@,
                    event: event@,
                    data: data@,
                    payload_len: payload_len as nat,
                    rate_allowed,
                }
            },
            Event::Signin { user_id, valid } => EventView::Signin { user_id: user_id@, valid },
            Event::Ping { now } => EventView::Ping { now },
            Event::Pong { now } => EventView::Pong { now },
            Event::Terminate => EventView::Terminate,
            Event::Disconnect => EventView::Disconnect,
        }
    }
}

/// What goes out: a frame for the connection itself, a message for others,
/// or a domain event for the sinks outside.
pub enum Effect {
    /// Tell the connection that it is established.
    Established,
    /// Tell the connection that its subscription succeeded.
    Subscribed { channel: String },
    /// The channel got its first member.
    Occupied { channel: String },
    /// A user became present in the channel.
    MemberAdded { channel: String, user_id: String },
    /// A user is no longer present in the channel.
    MemberRemoved { channel: String, user_id: String },
    /// The channel lost its last member.
    Vacated { channel: String },
    /// Deliver the client's event with its payload to these connections.
    Broadcast { channel: String, event: String, data: String, recipients: Vec<String> },
    /// Tell the connection that it is signed in.
    SignedIn { user_id: String },
    /// Answer a ping.
    Pong,
    /// Ask the connection to close.
    Closing,
    /// The connection ended; what its going did to channels and presence.
    Gone { departure: Departure },
    /// Send an error frame to the connection, and to no one else.
    Rejected { error: Error },
}

/// An effect as the model sees it.
#[verifier::ext_equal]
pub enum EffectView {
    Established,
    Subscribed { channel: Name },
    Occupied { channel: Name },
    MemberAdded { channel: Name, user_id: Name },
    MemberRemoved { channel: Name, user_id: Name },
    Vacated { channel: Name },
    Broadcast { channel: Name, event: Name, data: Name, recipients: Set<Name> },
    SignedIn { user_id: Name },
    Pong,
    Closing,
    Gone {
        removed: bool,
        channels: Set<Name>,
        vacated: Set<Name>,
        members_removed: Set<(Name, Name)>,
    },
    Rejected { error: Error },
}

impl View for Effect {
    type V = EffectView;

    open spec fn view(&self) -> EffectView {
        match *self {
            Effect::Established => EffectView::Established,
            Effect::Subscribed { channel } => EffectView::Subscribed { channel: channel@ },
            Effect::Occupied { channel } => EffectView::Occupied { channel: channel@ },
            Effect::MemberAdded { channel, user_id } => EffectView::MemberAdded {
                channel: channel@,
                user_id: user_id@,
            },
            Effect::MemberRemoved { channel, user_id } => EffectView::MemberRemoved {
                channel: channel@,
                user_id: user_id@,
            },
            Effect::Vacated { channel } => EffectView::Vacated { channel: channel@ },
            Effect::Broadcast { channel, event, data, recipients } => EffectView::Broadcast {
                channel: channel@,
                event: event@,
                data: data@,
                recipients: texts(recipients@).to_set(),
            },
            Effect::SignedIn { user_id } => EffectView::SignedIn { user_id: user_id@ },
            Effect::Pong => EffectView::Pong,
            Effect::Closing => EffectView::Closing,
            Effect::Gone { departure } => EffectView::Gone {
                removed: departure.removed,
                channels: texts(departure.channels@).to_set(),
                vacated: texts(departure.vacated@).to_set(),
                members_removed: left_pairs(departure.members_removed@).to_set(),
            },
            Effect::Rejected { error } => EffectView::Rejected { error },
        }
    }
}

/// The event name under which an effect goes out to clients; nothing for
/// an effect that is no frame.
pub open spec fn frame_name_of(e: EffectView) -> Option<Name> {
    match e {
        EffectView::Established => Some("pusher:connection_established"@),
        EffectView::Subscribed { channel } => Some("pusher_internal:subscription_succeeded"@),
        EffectView::MemberAdded { channel, user_id } => Some("pusher_internal:member_added"@),
        EffectView::MemberRemoved { channel, user_id } => Some(
            "pusher_internal:member_removed"@,
        ),
        EffectView::SignedIn { user_id } => Some("pusher:signin_success"@),
        EffectView::Pong => Some("pusher:pong"@),
        EffectView::Rejected { error } => Some("pusher:error"@),
        _ => None,
    }
}

impl Effect {
    /// The event name under which the effect goes out to clients.
    pub fn frame_name(&self) -> (name: Option<&'static str>)
        ensures
            crate::text::slice_text(name) == frame_name_of(self@),
    {
        match self {
            Effect::Established => Some("pusher:connection_established"),
            Effect::Subscribed { .. } => Some("pusher_internal:subscription_succeeded"),
            Effect::MemberAdded { .. } => Some("pusher_internal:member_added"),
            Effect::MemberRemoved { .. } => Some("pusher_internal:member_removed"),
            Effect::SignedIn { .. } => Some("pusher:signin_success"),
            Effect::Pong => Some("pusher:pong"),
            Effect::Rejected { .. } => Some("pusher:error"),
            _ => None,
        }
    }

    /// Every connection, channel and user that the effect lists is listed
    /// once.
    pub open spec fn listed_once(&self) -> bool {
        match *self {
            Effect::Broadcast { channel, event, data, recipients } => texts(
                recipients@,
            ).no_duplicates(),
            Effect::Gone { departure } => texts(departure.channels@).no_duplicates() && texts(
                departure.vacated@,
            ).no_duplicates() && left_pairs(departure.members_removed@).no_duplicates(),
            _ => true,
        }
    }
}

/// The effects of a sequence, in order, as the model sees them.
pub open spec fn effects_view(v: Seq<Effect>) -> Seq<EffectView> {
    v.map_values(|e: Effect| e@)
}

/// The outcome of one event: where the connection stands, the tenant's
/// state, and what goes out.
#[verifier::ext_equal]
pub struct Reaction {
    pub state: ConnectionState,
    pub store: NamespaceView,
    pub effects: Seq<EffectView>,
}

/// Nothing happens.
pub open spec fn ignored(state: ConnectionState, v: NamespaceView) -> Reaction {
    Reaction { state, store: v, effects: Seq::empty() }
}

/// The request is refused: an error frame goes to the connection, which
/// stays open, and the state stays as it was.
pub open spec fn rejected(v: NamespaceView, error: Error) -> Reaction {
    Reaction {
        state: ConnectionState::Open,
        store: v,
        effects: seq![EffectView::Rejected { error }],
    }
}

/// The effect `e` where `b` holds, nothing where it does not.
pub open spec fn when(b: bool, e: EffectView) -> Seq<EffectView> {
    if b {
        seq![e]
    } else {
        Seq::empty()
    }
}

/// What a subscription of connection `s` to channel `c` does. A channel
/// that is not public wants a valid signature; a presence channel wants an
/// identity besides, and room for it.
pub open spec fn react_subscribe(
    v: NamespaceView,
    s: Name,
    c: Name,
    signature_valid: bool,
    who: Option<Member>,
) -> Reaction {
    if kind_of(c).is_guarded() && !signature_valid {
        rejected(v, Error::AuthFailed)
    } else if kind_of(c) == ChannelKind::Presence {
        match who {
            None => rejected(v, Error::AuthFailed),
            Some(member) => match join_verdict(v, s, c, member.user_id) {
                Err(error) => rejected(v, error),
                Ok(outcome) => Reaction {
                    state: ConnectionState::Open,
                    store: join_checked(v, s, c, member),
                    effects: seq![EffectView::Subscribed { channel: c }] + when(
                        outcome.occupied,
                        EffectView::Occupied { channel: c },
                    ) + when(
                        outcome.member_added,
                        EffectView::MemberAdded { channel: c, user_id: member.user_id },
                    ),
                },
            },
        }
    } else if !v.connections.contains_key(s) {
        rejected(v, Error::NotFound)
    } else {
        Reaction {
            state: ConnectionState::Open,
            store: subscribe(v, s, c),
            effects: seq![EffectView::Subscribed { channel: c }] + when(
                !v.channels.contains_key(c),
                EffectView::Occupied { channel: c },
            ),
        }
    }
}

/// What an unsubscription of connection `s` from channel `c` does.
pub open spec fn react_unsubscribe(v: NamespaceView, s: Name, c: Name) -> Reaction {
    Reaction {
        state: ConnectionState::Open,
        store: leave(v, s, c),
        effects: when(
            departs(v, s, c) is Some,
            EffectView::MemberRemoved { channel: c, user_id: departs(v, s, c).unwrap() },
        ) + when(vacates(v, s, c), EffectView::Vacated { channel: c }),
    }
}

/// What a client's event does: it goes to the channel's members but the
/// sender, if the tenant permits client events, the sizes fit and the
/// rate limiter allows.
pub open spec fn react_client_event(
    v: NamespaceView,
    app: App,
    s: Name,
    c: Name,
    event: Name,
    data: Name,
    payload_len: nat,
    rate_allowed: bool,
) -> Reaction {
    if !app.enable_client_messages {
        rejected(v, Error::AuthFailed)
    } else if !app.fits(c.len(), event.len(), payload_len) {
        rejected(v, Error::PayloadTooLarge)
    } else if !rate_allowed {
        rejected(v, Error::RateLimited)
    } else {
        Reaction {
            state: ConnectionState::Open,
            store: v,
            effects: seq![
                EffectView::Broadcast {
                    channel: c,
                    event,
                    data,
                    recipients: recipients(v, c, Some(s)),
                },
            ],
        }
    }
}

/// What one event does to a connection `s` of tenant `app` in `state`, the
/// tenant's state being `v`.
pub open spec fn react(
    state: ConnectionState,
    v: NamespaceView,
    app: App,
    s: Name,
    event: EventView,
) -> Reaction {
    match event {
        EventView::Established { now } => if state != ConnectionState::Connecting {
            ignored(state, v)
        } else if v.connections.contains_key(s) {
            Reaction {
                state: ConnectionState::Closed,
                store: v,
                effects: seq![EffectView::Rejected { error: Error::AlreadyExists }],
            }
        } else {
            Reaction {
                state: ConnectionState::Open,
                store: add_socket(v, s, true, now),
                effects: seq![EffectView::Established],
            }
        },
        EventView::Disconnect => if state == ConnectionState::Closed {
            ignored(state, v)
        } else {
            Reaction {
                state: ConnectionState::Closed,
                store: disconnect(v, s),
                effects: seq![
                    EffectView::Gone {
                        removed: v.connections.contains_key(s),
                        channels: Set::new(|c: Name| subscribed(v, s, c)),
                        vacated: Set::new(|c: Name| vacates(v, s, c)),
                        members_removed: Set::new(
                            |p: (Name, Name)| departs(v, s, p.0) == Some(p.1),
                        ),
                    },
                ],
            }
        },
        _ => if state != ConnectionState::Open {
            ignored(state, v)
        } else {
            match event {
                EventView::Subscribe { channel, signature_valid, member } => react_subscribe(
                    v,
                    s,
                    channel,
                    signature_valid,
                    member,
                ),
                EventView::Unsubscribe { channel } => react_unsubscribe(v, s, channel),
                EventView::ClientEvent { channel, event, data, payload_len, rate_allowed } => {
                    react_client_event(v, app, s, channel, event, data, payload_len, rate_allowed)
                },
                EventView::Signin { user_id, valid } => if valid {
                    Reaction {
                        state: ConnectionState::Open,
                        store: set_user(v, s, Some(user_id)),
                        effects: seq![EffectView::SignedIn { user_id }],
                    }
                } else {
                    rejected(v, Error::AuthFailed)
                },
                EventView::Ping { now } => Reaction {
                    state: ConnectionState::Open,
                    store: touch(v, s, now),
                    effects: seq![EffectView::Pong],
                },
                EventView::Pong { now } => Reaction {
                    state: ConnectionState::Open,
                    store: touch(v, s, now),
                    effects: Seq::empty(),
                },
                EventView::Terminate => Reaction {
                    state: ConnectionState::Closing,
                    store: v,
                    effects: seq![EffectView::Closing],
                },
                _ => ignored(state, v),
            }
        },
    }
}

/// What one event does on a node whose stores are `m`: the reaction on the
/// tenant's state, which is empty where the tenant had no store yet.
pub open spec fn reaction_to(
    state: ConnectionState,
    m: Map<Name, NamespaceView>,
    app: App,
    s: Name,
    event: EventView,
) -> Reaction {
    react(state, tenant_or_new(m, app.id@, app.presence_limit()), app, s, event)
}

/// Whether a reaction is that of a subscription that succeeded.
pub open spec fn accepted(r: Reaction) -> bool {
    r.effects.len() > 0 && r.effects[0] is Subscribed
}

/// Whether a reaction is that of a client's event that goes out.
pub open spec fn goes_out(r: Reaction) -> bool {
    r.effects.len() > 0 && r.effects[0] is Broadcast
}

/// What the peers are told of an event on connection `s`, in order: of a
/// subscription that succeeded, of an unsubscription that took the
/// connection out of a channel, of a client's event that goes out, and, when
/// the connection ends, of every channel of `left` that it was in.
pub open spec fn announcements(
    state: ConnectionState,
    v: NamespaceView,
    app: App,
    s: Name,
    event: EventView,
    left: Seq<Name>,
) -> Seq<MutationView> {
    match event {
        EventView::Disconnect => if state == ConnectionState::Closed {
            Seq::empty()
        } else {
            leave_mutations(left, s)
        },
        EventView::Subscribe { channel, signature_valid, member } => if state
            == ConnectionState::Open && accepted(
            react_subscribe(v, s, channel, signature_valid, member),
        ) {
            if kind_of(channel) == ChannelKind::Presence {
                seq![
                    MutationView::PresenceJoin {
                        channel,
                        socket_id: s,
                        member: member.unwrap(),
                    },
                ]
            } else {
                seq![MutationView::AddToChannel { channel, socket_id: s }]
            }
        } else {
            Seq::empty()
        },
        EventView::Unsubscribe { channel } => if state == ConnectionState::Open {
            told(subscribed(v, s, channel), leave_mutation(v, s, channel))
        } else {
            Seq::empty()
        },
        EventView::ClientEvent { channel, event, data, payload_len, rate_allowed } => if state
            == ConnectionState::Open && goes_out(
            react_client_event(v, app, s, channel, event, data, payload_len, rate_allowed),
        ) {
            seq![MutationView::Send { channel, event, data, except: Some(s) }]
        } else {
            Seq::empty()
        },
        _ => Seq::empty(),
    }
}

/// The channels that the effects say a connection was in when it ended, in
/// the order in which they are listed.
pub open spec fn left_of(effects: Seq<Effect>) -> Seq<Name> {
    if effects.len() > 0 {
        match effects[0] {
            Effect::Gone { departure } => texts(departure.channels@),
            _ => Seq::empty(),
        }
    } else {
        Seq::empty()
    }
}

/// Whether one event on connection `id` of tenant `tenant`, taken with the
/// record `app`, has led from `phase` and manager `before` to `next_phase`
/// and manager `after`, with `effects` to go out. With the record of the
/// connection's tenant, what happens is the protocol's reaction on the
/// tenant's state, and the peers are told of it; with the record of another
/// tenant, nothing happens.
pub open spec fn handled(
    phase: ConnectionState,
    tenant: Name,
    id: Name,
    before: ConnectionManager,
    after: ConnectionManager,
    app: App,
    event: EventView,
    next_phase: ConnectionState,
    effects: Seq<Effect>,
) -> bool {
    if app.id@ != tenant {
        &&& next_phase == phase
        &&& effects.len() == 0
        &&& ConnectionManager::moved(before, after, before.stores(), app.id@, Seq::empty())
    } else {
        let r = reaction_to(phase, before.stores(), app, id, event);
        &&& next_phase == r.state
        &&& effects_view(effects) == r.effects
        &&& ConnectionManager::moved(
            before,
            after,
            before.stores().insert(app.id@, r.store),
            app.id@,
            announcements(
                phase,
                tenant_or_new(before.stores(), app.id@, app.presence_limit()),
                app,
                id,
                event,
                left_of(effects),
            ),
        )
    }
}

/// A step that publishes nothing, followed by a second step, is the second
/// step from where the first began.
pub proof fn lemma_moved_then(
    a: ConnectionManager,
    b: ConnectionManager,
    c: ConnectionManager,
    first: Map<Name, NamespaceView>,
    second: Map<Name, NamespaceView>,
    app: Name,
    ms: Seq<MutationView>,
)
    requires
        ConnectionManager::moved(a, b, first, app, Seq::empty()),
        ConnectionManager::moved(b, c, second, app, ms),
    ensures
        ConnectionManager::moved(a, c, second, app, ms),
{
    match (a, b, c) {
        (
            ConnectionManager::Horizontal(x),
            ConnectionManager::Horizontal(y),
            ConnectionManager::Horizontal(z),
        ) => {
            assert(with_stores(y@, second) =~= with_stores(x@, second));
        },
        _ => {},
    }
}

/// The driver of one connection. A connection belongs to one tenant for
/// all its life.
pub struct Session {
    state: ConnectionState,
    app_id: String,
    socket_id: String,
}

impl Session {
    /// Where the connection stands.
    pub closed spec fn phase(&self) -> ConnectionState {
        self.state
    }

    /// The tenant that the connection belongs to.
    pub closed spec fn tenant(&self) -> Name {
        self.app_id@
    }

    /// The connection's id.
    pub closed spec fn id(&self) -> Name {
        self.socket_id@
    }

    /// The driver of a connection of tenant `app_id` whose transport has
    /// just come up.
    pub fn new(app_id: String, socket_id: String) -> (session: Self)
        ensures
            session.phase() == ConnectionState::Connecting,
            session.tenant() == app_id@,
            session.id() == socket_id@,
    {
        Session { state: ConnectionState::Connecting, app_id, socket_id }
    }

    pub fn app_id(&self) -> (id: &String)
        ensures
            id@ == self.tenant(),
    {
        &self.app_id
    }

    pub fn state(&self) -> (state: ConnectionState)
        ensures
            state == self.phase(),
    {
        self.state
    }

    pub fn socket_id(&self) -> (id: &String)
        ensures
            id@ == self.id(),
    {
        &self.socket_id
    }

    /// Takes one event: changes the tenant's state and the connection's
    /// standing as the protocol says, and hands back what is to go out. On a
    /// node of a fleet, what the peers are to be told is put into the
    /// outbox. `app` is the record of the connection's tenant; with the
    /// record of another tenant nothing happens.
    pub fn handle(&mut self, adapter: &mut ConnectionManager, app: &App, event: Event) -> (effects:
        Vec<Effect>)
        requires
            old(adapter).wf(),
        ensures
            final(adapter).wf(),
            final(self).id() == old(self).id(),
            final(self).tenant() == old(self).tenant(),
            handled(
                old(self).phase(),
                old(self).tenant(),
                old(self).id(),
                *old(adapter),
                *final(adapter),
                *app,
                event@,
                final(self).phase(),
                effects@,
            ),
            forall|i: int| 0 <= i < effects@.len() ==> (#[trigger] effects@[i]).listed_once(),
    {
        if !(app.id == self.app_id) {
            proof {
                adapter.lemma_moved_nowhere(app.id@);
            }
            return Vec::new();
        }
        let ghost first = *adapter;
        let ghost m = adapter.stores();
        let ghost v = tenant_or_new(m, app.id@, app.presence_limit());
        let ghost s = self.socket_id@;
        let ghost state = self.state;
        let ghost r = react(self.state, v, *app, s, event@);
        let mut effects: Vec<Effect> = Vec::new();
        adapter.ensure_namespace(app);
        let ghost second = *adapter;
        let ghost mid = adapter.stores();
        proof {
            assert(effects_view(effects@) =~= Seq::<EffectView>::empty());
            assert(mid == m.insert(app.id@, v)) by {
                match (first, second) {
                    (ConnectionManager::Horizontal(x), ConnectionManager::Horizontal(y)) => {},
                    _ => {},
                }
            }
            assert(forall|x: NamespaceView| #[trigger]
                with_tenant(mid, app.id@, x) =~= m.insert(app.id@, x));
            assert(tenant(mid, app.id@) == v);
        }
        match event {
            Event::Established { now } => {
                match self.state {
                    ConnectionState::Connecting => {
                        match adapter.add_socket(app, self.socket_id.clone(), now) {
                            Ok(()) => {
                                self.state = ConnectionState::Open;
                                effects.push(Effect::Established);
                                proof {
                                    assert(mid.insert(app.id@, r.store) =~= m.insert(
                                        app.id@,
                                        r.store,
                                    ));
                                }
                            },
                            Err(error) => {
                                self.state = ConnectionState::Closed;
                                effects.push(Effect::Rejected { error });
                            },
                        }
                        assert(effects_view(effects@) =~= r.effects);
                    },
                    _ => {},
                }
            },
            Event::Disconnect => {
                match self.state {
                    ConnectionState::Closed => {},
                    _ => {
                        let departure = adapter.cleanup_connection(&app.id, &self.socket_id);
                        proof {
                            assert(texts(departure.channels@).to_set() =~= Set::new(
                                |c: Name| subscribed(v, s, c),
                            ));
                            assert(texts(departure.vacated@).to_set() =~= Set::new(
                                |c: Name| vacates(v, s, c),
                            ));
                            assert(left_pairs(departure.members_removed@).to_set() =~= Set::new(
                                |p: (Name, Name)| departs(v, s, p.0) == Some(p.1),
                            )) by {
                                assert forall|p: (Name, Name)|
                                    left_pairs(departure.members_removed@).contains(p) <==> departs(
                                        v,
                                        s,
                                        p.0,
                                    ) == Some(p.1) by {
                                    assert(p == (p.0, p.1));
                                }
                            }
                        }
                        self.state = ConnectionState::Closed;
                        effects.push(Effect::Gone { departure });
                        assert(effects_view(effects@) =~= r.effects);
                    },
                }
            },
            Event::Subscribe { channel, signature_valid, member } => {
                match self.state {
                    ConnectionState::Open => {
                        let kind = ChannelKind::of(channel.as_str());
                        if kind.needs_auth() && !signature_valid {
                            effects.push(Effect::Rejected { error: Error::AuthFailed });
                        } else {
                            match kind {
                                ChannelKind::Presence => {
                                    match member {
                                        None => {
                                            effects.push(
                                                Effect::Rejected { error: Error::AuthFailed },
                                            );
                                        },
                                        Some(who) => {
                                            match adapter.join_presence(
                                                &app.id,
                                                &channel,
                                                &self.socket_id,
                                                &who,
                                            ) {
                                                Err(error) => {
                                                    effects.push(Effect::Rejected { error });
                                                },
                                                Ok(outcome) => {
                                                    effects.push(
                                                        Effect::Subscribed {
                                                            channel: channel.clone(),
                                                        },
                                                    );
                                                    if outcome.occupied {
                                                        effects.push(
                                                            Effect::Occupied {
                                                                channel: channel.clone(),
                                                            },
                                                        );
                                                    }
                                                    if outcome.member_added {
                                                        effects.push(
                                                            Effect::MemberAdded {
                                                                channel: channel.clone(),
                                                                user_id: who.user_id,
                                                            },
                                                        );
                                                    }
                                                },
                                            }
                                        },
                                    }
                                },
                                _ => {
                                    if adapter.reader().get_connection(
                                        &app.id,
                                        &self.socket_id,
                                    ).is_none() {
                                        effects.push(Effect::Rejected { error: Error::NotFound });
                                    } else {
                                        let first_member = adapter.add_to_channel(
                                            &app.id,
                                            &channel,
                                            &self.socket_id,
                                        );
                                        effects.push(
                                            Effect::Subscribed { channel: channel.clone() },
                                        );
                                        if first_member {
                                            effects.push(Effect::Occupied { channel });
                                        }
                                    }
                                },
                            }
                        }
                        assert(effects_view(effects@) =~= r.effects);
                    },
                    _ => {},
                }
            },
            Event::Unsubscribe { channel } => {
                match self.state {
                    ConnectionState::Open => {
                        let out = adapter.leave(&app.id, &channel, &self.socket_id);
                        match out.member_removed {
                            Some(user_id) => {
                                effects.push(
                                    Effect::MemberRemoved { channel: channel.clone(), user_id },
                                );
                            },
                            None => {},
                        }
                        if out.vacated {
                            effects.push(Effect::Vacated { channel });
                        }
                        assert(effects_view(effects@) =~= r.effects);
                    },
                    _ => {},
                }
            },
            Event::ClientEvent { channel, event, data, payload_len, rate_allowed } => {
                match self.state {
                    ConnectionState::Open => {
                        if !app.enable_client_messages {
                            effects.push(Effect::Rejected { error: Error::AuthFailed });
                        } else if !app.event_fits(
                            channel.as_str().unicode_len(),
                            event.as_str().unicode_len(),
                            payload_len,
                        ) {
                            effects.push(Effect::Rejected { error: Error::PayloadTooLarge });
                        } else if !rate_allowed {
                            effects.push(Effect::Rejected { error: Error::RateLimited });
                        } else {
                            let recipients = adapter.send(
                                &channel,
                                &event,
                                &data,
                                Some(&self.socket_id),
                                &app.id,
                            );
                            effects.push(Effect::Broadcast { channel, event, data, recipients });
                        }
                        assert(effects_view(effects@) =~= r.effects);
                    },
                    _ => {},
                }
            },
            Event::Signin { user_id, valid } => {
                match self.state {
                    ConnectionState::Open => {
                        if valid {
                            adapter.add_user(&app.id, &self.socket_id, user_id.clone());
                            effects.push(Effect::SignedIn { user_id });
                        } else {
                            effects.push(Effect::Rejected { error: Error::AuthFailed });
                        }
                        assert(effects_view(effects@) =~= r.effects);
                    },
                    _ => {},
                }
            },
            Event::Ping { now } => {
                match self.state {
                    ConnectionState::Open => {
                        adapter.touch(&app.id, &self.socket_id, now);
                        effects.push(Effect::Pong);
                        assert(effects_view(effects@) =~= r.effects);
                    },
                    _ => {},
                }
            },
            Event::Pong { now } => {
                match self.state {
                    ConnectionState::Open => {
                        adapter.touch(&app.id, &self.socket_id, now);
                    },
                    _ => {},
                }
            },
            Event::Terminate => {
                match self.state {
                    ConnectionState::Open => {
                        self.state = ConnectionState::Closing;
                        effects.push(Effect::Closing);
                        assert(effects_view(effects@) =~= r.effects);
                    },
                    _ => {},
                }
            },
        }
        proof {
            let ms = announcements(state, v, *app, s, event@, left_of(effects@));
            let target = m.insert(app.id@, r.store);
            if ConnectionManager::moved(second, *adapter, target, app.id@, ms) {
                lemma_moved_then(first, second, *adapter, mid, target, app.id@, ms);
            } else {
                second.lemma_moved_nowhere(app.id@);
                assert(mid =~= target);
                assert(ms =~= Seq::<MutationView>::empty());
            }
        }
        effects
    }
}

/// A refusal that is answered with an error frame closes nothing and
/// changes nothing: the connection stays open and the tenant's state is as
/// it was.
pub proof fn theorem_rejection_changes_nothing(
    state: ConnectionState,
    v: NamespaceView,
    app: App,
    s: Name,
    event: EventView,
    error: Error,
)
    requires
        error.is_rejection(),
        react(state, v, app, s, event).effects.contains(EffectView::Rejected { error }),
    ensures
        state == ConnectionState::Open,
        react(state, v, app, s, event).state == ConnectionState::Open,
        react(state, v, app, s, event).store == v,
        react(state, v, app, s, event).effects == seq![EffectView::Rejected { error }],
{
    let r = react(state, v, app, s, event);
    let i = choose|i: int| 0 <= i < r.effects.len() && r.effects[i] == (EffectView::Rejected {
        error,
    });
    assert(r.effects[i] == EffectView::Rejected { error });
    match event {
        EventView::Subscribe { channel, signature_valid, member } => {
            if state == ConnectionState::Open {
                let e = r.effects;
                assert(e.len() == 1 ==> e =~= seq![e[0]]);
            }
        },
        EventView::Unsubscribe { channel } => {},
        _ => {
            let e = r.effects;
            assert(e.len() == 1 ==> e =~= seq![e[0]]);
        },
    }
}

/// A connection that is closed stays closed, and no event on it changes or
/// sends anything.
pub proof fn theorem_closed_is_terminal(v: NamespaceView, app: App, s: Name, event: EventView)
    ensures
        react(ConnectionState::Closed, v, app, s, event) == ignored(ConnectionState::Closed, v),
{
}

/// When a connection ends it is in no channel afterwards, whatever it had
/// joined, and it stands closed.
pub proof fn theorem_disconnect_closes(
    state: ConnectionState,
    v: NamespaceView,
    app: App,
    s: Name,
)
    requires
        crate::model::inv(v),
        state != ConnectionState::Closed,
    ensures
        react(state, v, app, s, EventView::Disconnect).state == ConnectionState::Closed,
        crate::model::inv(react(state, v, app, s, EventView::Disconnect).store),
        forall|c: Name|
            !crate::model::member(react(state, v, app, s, EventView::Disconnect).store, c, s),
{
    crate::model::lemma_disconnect_inv(v, s);
}

/// When a connection ends, whatever manager serves it: it stands closed,
/// it is registered no more, it is a member of no channel, whatever it had
/// joined, and the tenant's state is consistent.
pub proof fn theorem_gone_after_disconnect(
    phase: ConnectionState,
    id: Name,
    before: ConnectionManager,
    after: ConnectionManager,
    app: App,
    next_phase: ConnectionState,
    effects: Seq<Effect>,
)
    requires
        before.wf(),
        phase != ConnectionState::Closed,
        handled(phase, app.id@, id, before, after, app, EventView::Disconnect, next_phase, effects),
    ensures
        next_phase == ConnectionState::Closed,
        after.stores().contains_key(app.id@),
        crate::model::inv(after.stores()[app.id@]),
        !after.stores()[app.id@].connections.contains_key(id),
        forall|c: Name| !crate::model::member(after.stores()[app.id@], c, id),
{
    let v = tenant_or_new(before.stores(), app.id@, app.presence_limit());
    let r = reaction_to(phase, before.stores(), app, id, EventView::Disconnect);
    if before.stores().contains_key(app.id@) {
        before.lemma_tenant_inv(app.id@);
    } else {
        crate::model::lemma_empty_inv(app.presence_limit());
    }
    crate::model::lemma_disconnect_inv(v, id);
    ConnectionManager::lemma_moved_stores(
        before,
        after,
        before.stores().insert(app.id@, r.store),
        app.id@,
        announcements(phase, v, app, id, EventView::Disconnect, left_of(effects)),
    );
}

} // verus!
