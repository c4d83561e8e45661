//! The horizontal adapter: a local adapter that other nodes mirror. Every
//! local mutation yields a frame for the broker, every frame of another
//! node is replayed on the local stores, and cluster-wide queries are
//! scattered to all nodes and gathered again.
//!
//! The adapter decides and keeps state; the broker is outside. What is to
//! be published comes back from each call, and what the broker delivered is
//! handed in.

use crate::aggregate::{
    begun, overdue, overdue_set, report_resolves, reported, resolution_of, resolved_ids, sat,
    sat64, sat_add, swept, AggregateTable, AggregationMetrics, Partial, PartialView, QueryKind,
    Resolution, TableView,
};
use crate::namespace::LeaveOutcome;
use crate::app::App;
use crate::channel::PresenceMemberInfo;
use crate::error::Error;
use crate::local_adapter::{tenant, tenant_or_new, with_tenant, LocalAdapter};
use crate::model::{
    add_socket, disconnect, idle_mirror, inv, join_checked, join_verdict, leave,
    lemma_disconnect_idle, lemma_disconnect_inv, lemma_join_inv,
    lemma_leave_inv, lemma_mirrored_inv, lemma_subscribe_inv, lemma_tidied_inv, local_counts,
    local_sockets, member, mirrored, recipients, subscribe, subscribed, tidied, vacates,
    JoinOutcome, Member, Name, NamespaceView,
};
use crate::names::{texts, NameMap, NameSet};
use crate::namespace::{text_of, text_of_ref, Departure};
use vstd::prelude::*;

verus! {

/// A mutation as it travels between nodes.
pub enum Mutation {
    /// An event for the members of a channel, but `except`.
    Send { channel: String, event: String, data: String, except: Option<String> },
    AddToChannel { channel: String, socket_id: String },
    RemoveFromChannel { channel: String, socket_id: String },
    PresenceJoin { channel: String, socket_id: String, member: PresenceMemberInfo },
    PresenceLeave { channel: String, socket_id: String },
}

/// A mutation as the model sees it.
pub enum MutationView {
    Send { channel: Name, event: Name, data: Name, except: Option<Name> },
    AddToChannel { channel: Name, socket_id: Name },
    RemoveFromChannel { channel: Name, socket_id: Name },
    PresenceJoin { channel: Name, socket_id: Name, member: Member },
    PresenceLeave { channel: Name, socket_id: Name },
}

impl View for Mutation {
    type V = MutationView;

    open spec fn view(&self) -> MutationView {
        match *self {
            Mutation::Send { channel, event, data, except } => MutationView::Send {
                channel: channel@,
                event: event@,
                data: data@,
                except: text_of(except),
            },
            Mutation::AddToChannel { channel, socket_id } => MutationView::AddToChannel {
                channel: channel@,
                socket_id: socket_id@,
            },
            Mutation::RemoveFromChannel { channel, socket_id } => MutationView::RemoveFromChannel {
                channel: channel@,
                socket_id: socket_id@,
            },
            Mutation::PresenceJoin { channel, socket_id, member } => MutationView::PresenceJoin {
                channel: channel@,
                socket_id: socket_id@,
                member: member@,
            },
            Mutation::PresenceLeave { channel, socket_id } => MutationView::PresenceLeave {
                channel: channel@,
                socket_id: socket_id@,
            },
        }
    }
}

/// What one node tells the others about a mutation that it applied.
pub struct PropagationFrame {
    pub app_id: String,
    pub mutation: Mutation,
    pub origin_node_id: String,
    pub sequence: u64,
}

/// A query sent to every node.
pub struct RequestFrame {
    pub request_id: String,
    pub op: QueryKind,
    pub app_id: Option<String>,
}

/// One node's answer to a query.
pub struct ResponseFrame {
    pub request_id: String,
    pub responder_node_id: String,
    pub partial_result: Partial,
}

/// The state after a mutation of another node has been replayed.
pub open spec fn replayed(v: NamespaceView, m: MutationView) -> NamespaceView {
    match m {
        MutationView::Send { channel, event, data, except } => v,
        MutationView::AddToChannel { channel, socket_id } => subscribe(
            mirrored(v, socket_id),
            socket_id,
            channel,
        ),
        MutationView::RemoveFromChannel { channel, socket_id } => tidied(
            leave(v, socket_id, channel),
            socket_id,
        ),
        MutationView::PresenceJoin { channel, socket_id, member } => tidied(
            join_checked(mirrored(v, socket_id), socket_id, channel, member),
            socket_id,
        ),
        MutationView::PresenceLeave { channel, socket_id } => tidied(
            leave(v, socket_id, channel),
            socket_id,
        ),
    }
}

/// The connections on this node that a replayed mutation is delivered to.
pub open spec fn replay_deliveries(v: NamespaceView, m: MutationView) -> Set<Name> {
    match m {
        MutationView::Send { channel, event, data, except } => recipients(v, channel, except),
        _ => Set::empty(),
    }
}

/// A replay keeps the state consistent.
pub proof fn lemma_replayed_inv(v: NamespaceView, m: MutationView)
    requires
        inv(v),
    ensures
        inv(replayed(v, m)),
{
    match m {
        MutationView::Send { channel, event, data, except } => {},
        MutationView::AddToChannel { channel, socket_id } => {
            lemma_mirrored_inv(v, socket_id);
            lemma_subscribe_inv(mirrored(v, socket_id), socket_id, channel);
        },
        MutationView::RemoveFromChannel { channel, socket_id } => {
            lemma_leave_inv(v, socket_id, channel);
            lemma_tidied_inv(leave(v, socket_id, channel), socket_id);
        },
        MutationView::PresenceJoin { channel, socket_id, member } => {
            let w = mirrored(v, socket_id);
            lemma_mirrored_inv(v, socket_id);
            if crate::model::can_join(w, socket_id, channel) && crate::model::admits(
                w,
                channel,
                member.user_id,
            ) {
                lemma_join_inv(w, socket_id, channel, member);
            }
            lemma_tidied_inv(join_checked(w, socket_id, channel, member), socket_id);
        },
        MutationView::PresenceLeave { channel, socket_id } => {
            lemma_leave_inv(v, socket_id, channel);
            lemma_tidied_inv(leave(v, socket_id, channel), socket_id);
        },
    }
}

/// The steps that a replay is made of.
pub open spec fn replay_steps(m: MutationView) -> Seq<crate::history::Step> {
    match m {
        MutationView::Send { channel, event, data, except } => Seq::empty(),
        MutationView::AddToChannel { channel, socket_id } => seq![
            crate::history::Step::Mirror { id: socket_id },
            crate::history::Step::Subscribe { id: socket_id, channel },
        ],
        MutationView::RemoveFromChannel { channel, socket_id } => seq![
            crate::history::Step::Leave { id: socket_id, channel },
            crate::history::Step::Tidy { id: socket_id },
        ],
        MutationView::PresenceJoin { channel, socket_id, member } => seq![
            crate::history::Step::Mirror { id: socket_id },
            crate::history::Step::Join { id: socket_id, channel, who: member },
            crate::history::Step::Tidy { id: socket_id },
        ],
        MutationView::PresenceLeave { channel, socket_id } => seq![
            crate::history::Step::Leave { id: socket_id, channel },
            crate::history::Step::Tidy { id: socket_id },
        ],
    }
}

/// A replay is a sequence of steps like any other: what holds after every
/// history holds after every replay.
pub proof fn theorem_replay_is_a_history(v: NamespaceView, m: MutationView)
    ensures
        replayed(v, m) == crate::history::run(v, replay_steps(m)),
{
    let ops = replay_steps(m);
    reveal_with_fuel(crate::history::run, 4);
    match m {
        MutationView::Send { channel, event, data, except } => {},
        MutationView::PresenceJoin { channel, socket_id, member } => {
            assert(ops.drop_last().drop_last().drop_last() =~= Seq::empty());
            assert(ops.drop_last().drop_last() =~= seq![ops[0]]);
            assert(ops.drop_last() =~= seq![ops[0], ops[1]]);
        },
        _ => {
            assert(ops.drop_last().drop_last() =~= Seq::empty());
            assert(ops.drop_last() =~= seq![ops[0]]);
        },
    }
}

/// A replay is idempotent: a frame that arrives twice leaves the state
/// that it left when it arrived once.
pub proof fn theorem_replay_idempotent(v: NamespaceView, m: MutationView)
    requires
        inv(v),
    ensures
        replayed(replayed(v, m), m) == replayed(v, m),
{
    let once = replayed(v, m);
    lemma_replayed_inv(v, m);
    match m {
        MutationView::Send { channel, event, data, except } => {},
        MutationView::AddToChannel { channel, socket_id } => {
            lemma_mirrored_inv(v, socket_id);
            let s = socket_id;
            let c = channel;
            let twice = subscribe(once, s, c);
            assert(once.connections.contains_key(s));
            assert(once.connections[s].channels.insert(c) =~= once.connections[s].channels);
            assert(once.channels[c].members.insert(s) =~= once.channels[c].members);
            assert(twice.connections =~= once.connections);
            assert(twice.channels =~= once.channels);
            assert(twice =~= once);
        },
        MutationView::RemoveFromChannel { channel, socket_id } => {
            lemma_leave_twice(v, socket_id, channel);
        },
        MutationView::PresenceLeave { channel, socket_id } => {
            lemma_leave_twice(v, socket_id, channel);
        },
        MutationView::PresenceJoin { channel, socket_id, member } => {
            let s = socket_id;
            let c = channel;
            let w = mirrored(v, s);
            lemma_mirrored_inv(v, s);
            let j = join_checked(w, s, c, member);
            if crate::model::can_join(w, s, c) && crate::model::admits(w, c, member.user_id) {
                lemma_join_inv(w, s, c, member);
                assert(subscribed(j, s, c));
                assert(j.connections[s].channels.finite());
                assert(j.connections[s].channels.len() > 0);
                assert(once == j);
                assert(crate::model::identified(j, s, c));
                assert(join_checked(mirrored(j, s), s, c, member) == j);
            } else {
                assert(j == w);
                if idle_mirror(w, s) {
                    lemma_disconnect_idle(w, s);
                    assert(!once.connections.contains_key(s));
                    if v.connections.contains_key(s) {
                        let w2 = mirrored(once, s);
                        lemma_mirrored_inv(once, s);
                        assert(!crate::model::identified(w, s, c)) by {
                            if crate::model::identified(w, s, c) {
                                assert(subscribed(w, s, c));
                                vstd::set_lib::lemma_set_empty_equivalency_len(
                                    w.connections[s].channels,
                                );
                            }
                        }
                        assert(crate::model::can_join(w2, s, c) == crate::model::can_join(w, s, c));
                        assert(crate::model::admits(w2, c, member.user_id) == crate::model::admits(
                            w,
                            c,
                            member.user_id,
                        ));
                        assert(join_checked(w2, s, c, member) == w2);
                        assert(idle_mirror(w2, s));
                        lemma_disconnect_idle(w2, s);
                        assert(tidied(w2, s).connections =~= once.connections);
                        assert(tidied(w2, s) =~= once);
                    } else {
                        assert(once.connections =~= v.connections);
                        assert(once =~= v);
                    }
                } else {
                    assert(once == w);
                    assert(mirrored(w, s) == w);
                }
            }
        },
    }
}

/// Leaving a channel and tidying up, done twice, is as done once.
pub proof fn lemma_leave_twice(v: NamespaceView, s: Name, c: Name)
    requires
        inv(v),
    ensures
        tidied(leave(tidied(leave(v, s, c), s), s, c), s) == tidied(leave(v, s, c), s),
{
    let l = leave(v, s, c);
    lemma_leave_inv(v, s, c);
    let once = tidied(l, s);
    lemma_tidied_inv(l, s);
    assert(!subscribed(l, s, c));
    if idle_mirror(l, s) {
        lemma_disconnect_idle(l, s);
        assert(!once.connections.contains_key(s));
        assert(leave(once, s, c) == once);
        assert(tidied(once, s) == once);
    } else {
        assert(once == l);
        assert(leave(l, s, c) == l);
    }
}

/// After the replay of a subscription the connection is a member of the
/// channel here too; after the replay of an unsubscription it is not.
pub proof fn theorem_replay_mirrors_membership(v: NamespaceView, s: Name, c: Name)
    requires
        inv(v),
    ensures
        member(replayed(v, MutationView::AddToChannel { channel: c, socket_id: s }), c, s),
        !member(replayed(v, MutationView::RemoveFromChannel { channel: c, socket_id: s }), c, s),
        !member(replayed(v, MutationView::PresenceLeave { channel: c, socket_id: s }), c, s),
{
    lemma_mirrored_inv(v, s);
    let l = leave(v, s, c);
    lemma_leave_inv(v, s, c);
    assert(subscribed(l, s, c) == member(l, c, s));
    lemma_disconnect_inv(l, s);
}

/// A propagation frame as the model sees it.
pub struct FrameView {
    pub app: Name,
    pub mutation: MutationView,
    pub origin: Name,
    pub sequence: u64,
}

impl View for PropagationFrame {
    type V = FrameView;

    open spec fn view(&self) -> FrameView {
        FrameView {
            app: self.app_id@,
            mutation: self.mutation@,
            origin: self.origin_node_id@,
            sequence: self.sequence,
        }
    }
}

/// The frames of a sequence, in order, as the model sees them.
pub open spec fn frames_view(v: Seq<PropagationFrame>) -> Seq<FrameView> {
    v.map_values(|f: PropagationFrame| f@)
}

/// The state of a node of the fleet.
#[verifier::ext_equal]
pub struct HorizontalView {
    pub node: Name,
    pub stores: Map<Name, NamespaceView>,
    /// The number of the next frame.
    pub sequence: u64,
    /// The frames that wait to be handed to the broker.
    pub outbox: Seq<FrameView>,
    pub table: TableView,
    /// The other nodes that this node knows of.
    pub peers: Set<Name>,
}

/// A node that has just joined: it has no tenant, knows no peer, waits for
/// no query, and has published nothing.
pub open spec fn fresh_node(node: Name) -> HorizontalView {
    HorizontalView {
        node,
        stores: Map::empty(),
        sequence: 0,
        outbox: Seq::empty(),
        table: crate::aggregate::empty_table(),
        peers: Set::empty(),
    }
}

/// The number after `n`; after the largest comes zero.
pub open spec fn next_sequence(n: u64) -> u64 {
    if n == u64::MAX {
        0
    } else {
        (n + 1) as u64
    }
}

/// The frame that node `h` sends for mutation `m` of tenant `app`.
pub open spec fn stamped(h: HorizontalView, app: Name, m: MutationView) -> FrameView {
    FrameView { app, mutation: m, origin: h.node, sequence: h.sequence }
}

/// Node `h` with its stores as `stores`.
pub open spec fn with_stores(h: HorizontalView, stores: Map<Name, NamespaceView>) -> HorizontalView {
    HorizontalView { stores, ..h }
}

/// Node `h` after it has put the frame for mutation `m` of tenant `app`
/// into its outbox.
pub open spec fn publish(h: HorizontalView, app: Name, m: MutationView) -> HorizontalView {
    HorizontalView {
        outbox: h.outbox.push(stamped(h, app, m)),
        sequence: next_sequence(h.sequence),
        ..h
    }
}

/// Node `h` after it has published `m` where `b` holds; `h` as it is where
/// `b` does not hold.
pub open spec fn publish_if(b: bool, h: HorizontalView, app: Name, m: MutationView) -> HorizontalView {
    if b {
        publish(h, app, m)
    } else {
        h
    }
}

/// Node `h` after it has published the mutations `ms` in order.
pub open spec fn publish_all(h: HorizontalView, app: Name, ms: Seq<MutationView>) -> HorizontalView
    decreases ms.len(),
{
    if ms.len() == 0 {
        h
    } else {
        publish(publish_all(h, app, ms.drop_last()), app, ms.last())
    }
}

/// That connection `s` has left each of `channels`, as mutations in order.
pub open spec fn leave_mutations(channels: Seq<Name>, s: Name) -> Seq<MutationView> {
    channels.map_values(|c: Name| MutationView::RemoveFromChannel { channel: c, socket_id: s })
}

/// Whether node `h` passes over frame `f`: it is the node's own, come back
/// from the broker, or it belongs to another tenant than the one given.
pub open spec fn passes_over(h: HorizontalView, app: App, f: FrameView) -> bool {
    f.origin == h.node || f.app != app.id@
}

/// Node `h` after frame `f` has come in for tenant `app`.
pub open spec fn applied(h: HorizontalView, app: App, f: FrameView) -> HorizontalView {
    if passes_over(h, app, f) {
        h
    } else {
        HorizontalView {
            stores: h.stores.insert(
                app.id@,
                replayed(tenant_or_new(h.stores, app.id@, app.presence_limit()), f.mutation),
            ),
            ..h
        }
    }
}

/// What a node reports to a query: the counts and names of what it holds
/// itself.
pub open spec fn local_partial(
    stores: Map<Name, NamespaceView>,
    op: QueryKind,
    app: Option<Name>,
) -> PartialView {
    match op {
        QueryKind::ChannelsWithSocketCount => match app {
            Some(a) => PartialView::Counts(local_counts(tenant(stores, a))),
            None => PartialView::Counts(Map::empty()),
        },
        QueryKind::SocketsCount => match app {
            Some(a) => PartialView::Count(local_sockets(tenant(stores, a)).len() as usize),
            None => PartialView::Count(0),
        },
        QueryKind::Namespaces => PartialView::Names(stores.dom()),
    }
}

/// What the replay of a frame did on this node.
pub enum Replay {
    /// The frame was passed over.
    Discarded,
    /// The mutation was applied; an event is to be delivered to these
    /// connections.
    Applied { deliveries: Vec<String> },
}

/// What became of a frame handed to the broker: a broker that could not be
/// reached is reported, and nothing else follows from it.
pub fn broker_outcome(delivered: bool) -> (r: Result<(), Error>)
    ensures
        r == (if delivered {
            Ok::<(), Error>(())
        } else {
            Err::<(), Error>(Error::BrokerUnavailable)
        }),
{
    if delivered {
        Ok(())
    } else {
        Err(Error::BrokerUnavailable)
    }
}

/// One node of a fleet.
pub struct HorizontalAdapter {
    node_id: String,
    adapter: LocalAdapter,
    sequence: u64,
    outbox: Vec<PropagationFrame>,
    table: AggregateTable,
    peers: NameSet,
}

impl View for HorizontalAdapter {
    type V = HorizontalView;

    closed spec fn view(&self) -> HorizontalView {
        HorizontalView {
            node: self.node_id@,
            stores: self.adapter@,
            sequence: self.sequence,
            outbox: frames_view(self.outbox@),
            table: self.table@,
            peers: self.peers@,
        }
    }
}

impl HorizontalAdapter {
    pub closed spec fn wf(&self) -> bool {
        self.adapter.wf() && self.table.wf() && self.peers.wf()
    }

    /// Every tenant's state on a sound node is consistent.
    pub proof fn lemma_wf_inv(&self, app: Name)
        requires
            self.wf(),
            self@.stores.contains_key(app),
        ensures
            inv(self@.stores[app]),
    {
        self.adapter.lemma_wf_inv(app);
    }

    /// A node without tenants, peers, frames and requests.
    pub fn new(node_id: String) -> (h: Self)
        ensures
            h.wf(),
            h@ == fresh_node(node_id@),
    {
        let h = HorizontalAdapter {
            node_id,
            adapter: LocalAdapter::new(),
            sequence: 0,
            outbox: Vec::new(),
            table: AggregateTable::new(),
            peers: NameSet::new(),
        };
        assert(h@.outbox =~= Seq::<FrameView>::empty());
        h
    }

    pub fn node_id(&self) -> (id: &String)
        ensures
            id@ == self@.node,
    {
        &self.node_id
    }

    /// The local stores, for reading.
    pub fn local(&self) -> (a: &LocalAdapter)
        requires
            self.wf(),
        ensures
            a.wf(),
            a@ == self@.stores,
    {
        &self.adapter
    }

    pub fn metrics(&self) -> (m: AggregationMetrics)
        ensures
            m == self@.table.metrics,
    {
        self.table.metrics()
    }

    /// Notes that node `node_id` belongs to the fleet; tells whether that
    /// is news.
    pub fn note_peer(&mut self, node_id: String) -> (added: bool)
        requires
            old(self).wf(),
        ensures
            final(self).wf(),
            final(self)@ == (HorizontalView {
                peers: old(self)@.peers.insert(node_id@),
                ..old(self)@
            }),
            added == !old(self)@.peers.contains(node_id@),
    {
        self.peers.insert(node_id)
    }

    /// Notes that node `node_id` has left the fleet.
    pub fn forget_peer(&mut self, node_id: &String) -> (removed: bool)
        requires
            old(self).wf(),
        ensures
            final(self).wf(),
            final(self)@ == (HorizontalView {
                peers: old(self)@.peers.remove(node_id@),
                ..old(self)@
            }),
            removed == old(self)@.peers.contains(node_id@),
    {
        self.peers.remove(node_id)
    }

    /// Puts the frame for a mutation of tenant `app_id` into the outbox,
    /// stamped with this node's id and the next number.
    fn stamp(&mut self, app_id: String, mutation: Mutation)
        requires
            old(self).wf(),
        ensures
            final(self).wf(),
            final(self)@ == publish(old(self)@, app_id@, mutation@),
    {
        let ghost h = self@;
        let sequence = self.sequence;
        self.sequence = if sequence == u64::MAX {
            0
        } else {
            sequence + 1
        };
        let frame = PropagationFrame {
            app_id,
            mutation,
            origin_node_id: self.node_id.clone(),
            sequence,
        };
        self.outbox.push(frame);
        assert(self@.outbox =~= h.outbox.push(stamped(h, app_id@, mutation@)));
    }

    /// Hands out the frames that wait for the broker, oldest first, and
    /// empties the outbox.
    pub fn take_outbox(&mut self) -> (frames: Vec<PropagationFrame>)
        requires
            old(self).wf(),
        ensures
            final(self).wf(),
            frames_view(frames@) == old(self)@.outbox,
            final(self)@ == (HorizontalView { outbox: Seq::empty(), ..old(self)@ }),
    {
        let mut frames: Vec<PropagationFrame> = Vec::new();
        std::mem::swap(&mut frames, &mut self.outbox);
        assert(self@.outbox =~= Seq::<FrameView>::empty());
        frames
    }

    /// Makes sure that tenant `app` has a store.
    pub fn ensure_namespace(&mut self, app: &App)
        requires
            old(self).wf(),
        ensures
            final(self).wf(),
            final(self)@ == with_stores(
                old(self)@,
                old(self)@.stores.insert(
                    app.id@,
                    tenant_or_new(old(self)@.stores, app.id@, app.presence_limit()),
                ),
            ),
    {
        self.adapter.ensure_namespace(app);
    }

    /// Registers connection `id` with tenant `app`. Registrations are not
    /// propagated: a peer learns of a connection when it joins a channel.
    pub fn add_socket(&mut self, app: &App, id: String, now: u64) -> (r: Result<(), Error>)
        requires
            old(self).wf(),
        ensures
            final(self).wf(),
            r is Ok <==> !tenant(old(self)@.stores, app.id@).connections.contains_key(id@),
            r is Err ==> r == Err::<(), Error>(Error::AlreadyExists) && final(self)@ == old(self)@,
            r is Ok ==> final(self)@ == with_stores(
                old(self)@,
                old(self)@.stores.insert(
                    app.id@,
                    add_socket(
                        tenant_or_new(old(self)@.stores, app.id@, app.presence_limit()),
                        id@,
                        true,
                        now,
                    ),
                ),
            ),
    {
        self.adapter.add_socket(app, id, now)
    }

    /// Subscribes connection `id` to `channel` here and tells the peers;
    /// tells whether the channel came into being here. A connection that is
    /// not registered changes nothing and is not spoken of.
    pub fn add_to_channel(&mut self, app_id: &String, channel: &String, id: &String) -> (first:
        bool)
        requires
            old(self).wf(),
        ensures
            final(self).wf(),
            final(self)@ == publish_if(
                tenant(old(self)@.stores, app_id@).connections.contains_key(id@),
                with_stores(
                    old(self)@,
                    with_tenant(
                        old(self)@.stores,
                        app_id@,
                        subscribe(tenant(old(self)@.stores, app_id@), id@, channel@),
                    ),
                ),
                app_id@,
                MutationView::AddToChannel { channel: channel@, socket_id: id@ },
            ),
            first == (tenant(old(self)@.stores, app_id@).connections.contains_key(id@) && !tenant(
                old(self)@.stores,
                app_id@,
            ).channels.contains_key(channel@)),
    {
        let known = self.adapter.get_connection(app_id, id).is_some();
        let first = self.adapter.add_to_channel(app_id, channel, id);
        if known {
            self.stamp(
                app_id.clone(),
                Mutation::AddToChannel { channel: channel.clone(), socket_id: id.clone() },
            );
        }
        first
    }

    /// Takes connection `id` out of `channel` here, with its presence
    /// identity, and tells the peers. A connection that was not subscribed
    /// changes nothing and is not spoken of.
    pub fn leave(&mut self, app_id: &String, channel: &String, id: &String) -> (out: LeaveOutcome)
        requires
            old(self).wf(),
        ensures
            final(self).wf(),
            final(self)@ == publish_if(
                subscribed(tenant(old(self)@.stores, app_id@), id@, channel@),
                with_stores(
                    old(self)@,
                    with_tenant(
                        old(self)@.stores,
                        app_id@,
                        leave(tenant(old(self)@.stores, app_id@), id@, channel@),
                    ),
                ),
                app_id@,
                leave_mutation(tenant(old(self)@.stores, app_id@), id@, channel@),
            ),
            out.left == subscribed(tenant(old(self)@.stores, app_id@), id@, channel@),
            out.vacated == vacates(tenant(old(self)@.stores, app_id@), id@, channel@),
            text_of(out.member_removed) == crate::model::departs(
                tenant(old(self)@.stores, app_id@),
                id@,
                channel@,
            ),
    {
        let was_present = self.adapter.get_presence_member(app_id, channel, id).is_some();
        let out = self.adapter.leave(app_id, channel, id);
        if out.left {
            if was_present {
                self.stamp(
                    app_id.clone(),
                    Mutation::PresenceLeave { channel: channel.clone(), socket_id: id.clone() },
                );
            } else {
                self.stamp(
                    app_id.clone(),
                    Mutation::RemoveFromChannel { channel: channel.clone(), socket_id: id.clone() },
                );
            }
        }
        out
    }

    /// Takes connection `id` out of `channel` here and tells the peers;
    /// tells whether the channel lost its last member here.
    pub fn remove_from_channel(&mut self, app_id: &String, channel: &String, id: &String) -> (last:
        bool)
        requires
            old(self).wf(),
        ensures
            final(self).wf(),
            final(self)@ == publish_if(
                subscribed(tenant(old(self)@.stores, app_id@), id@, channel@),
                with_stores(
                    old(self)@,
                    with_tenant(
                        old(self)@.stores,
                        app_id@,
                        leave(tenant(old(self)@.stores, app_id@), id@, channel@),
                    ),
                ),
                app_id@,
                leave_mutation(tenant(old(self)@.stores, app_id@), id@, channel@),
            ),
            last == vacates(tenant(old(self)@.stores, app_id@), id@, channel@),
    {
        self.leave(app_id, channel, id).vacated
    }

    /// Makes connection `id` present in `channel` as `who` here and tells
    /// the peers. A join that is refused changes nothing and is not spoken
    /// of.
    pub fn join_presence(
        &mut self,
        app_id: &String,
        channel: &String,
        id: &String,
        who: &PresenceMemberInfo,
    ) -> (r: Result<JoinOutcome, Error>)
        requires
            old(self).wf(),
        ensures
            final(self).wf(),
            r == join_verdict(tenant(old(self)@.stores, app_id@), id@, channel@, who@.user_id),
            r is Err ==> final(self)@ == old(self)@,
            final(self)@ == publish_if(
                r is Ok,
                with_stores(
                    old(self)@,
                    with_tenant(
                        old(self)@.stores,
                        app_id@,
                        join_checked(tenant(old(self)@.stores, app_id@), id@, channel@, who@),
                    ),
                ),
                app_id@,
                MutationView::PresenceJoin { channel: channel@, socket_id: id@, member: who@ },
            ),
    {
        let r = self.adapter.join_presence(app_id, channel, id, who);
        if r.is_ok() {
            self.stamp(
                app_id.clone(),
                Mutation::PresenceJoin {
                    channel: channel.clone(),
                    socket_id: id.clone(),
                    member: who.copy(),
                },
            );
        }
        r
    }

    /// The connections on this node that an event for `channel` goes to,
    /// each once; the peers are asked to deliver it to theirs.
    pub fn send(
        &mut self,
        channel: &String,
        event: &String,
        data: &String,
        except: Option<&String>,
        app_id: &String,
    ) -> (ids: Vec<String>)
        requires
            old(self).wf(),
        ensures
            final(self).wf(),
            final(self)@ == publish(
                old(self)@,
                app_id@,
                MutationView::Send {
                    channel: channel@,
                    event: event@,
                    data: data@,
                    except: text_of_ref(except),
                },
            ),
            texts(ids@).no_duplicates(),
            texts(ids@).to_set() == recipients(
                tenant(old(self)@.stores, app_id@),
                channel@,
                text_of_ref(except),
            ),
    {
        let ids = self.adapter.send(channel, except, app_id);
        assert(texts(ids@).to_set() =~= recipients(
            tenant(self@.stores, app_id@),
            channel@,
            text_of_ref(except),
        ));
        let left_out = match except {
            Some(e) => Some(e.clone()),
            None => None,
        };
        self.stamp(
            app_id.clone(),
            Mutation::Send {
                channel: channel.clone(),
                event: event.clone(),
                data: data.clone(),
                except: left_out,
            },
        );
        ids
    }

    /// Ends connection `id` of tenant `app_id` here and tells the peers of
    /// every channel that it has left.
    pub fn cleanup_connection(&mut self, app_id: &String, id: &String) -> (out: Departure)
        requires
            old(self).wf(),
        ensures
            final(self).wf(),
            final(self)@ == publish_all(
                with_stores(
                    old(self)@,
                    with_tenant(
                        old(self)@.stores,
                        app_id@,
                        disconnect(tenant(old(self)@.stores, app_id@), id@),
                    ),
                ),
                app_id@,
                leave_mutations(texts(out.channels@), id@),
            ),
            out.removed == tenant(old(self)@.stores, app_id@).connections.contains_key(id@),
            texts(out.channels@).no_duplicates(),
            forall|c: Name|
                #![trigger texts(out.channels@).contains(c)]
                #![trigger subscribed(tenant(old(self)@.stores, app_id@), id@, c)]
                texts(out.channels@).contains(c) <==> subscribed(
                    tenant(old(self)@.stores, app_id@),
                    id@,
                    c,
                ),
            texts(out.vacated@).no_duplicates(),
            forall|c: Name|
                #![trigger texts(out.vacated@).contains(c)]
                #![trigger vacates(tenant(old(self)@.stores, app_id@), id@, c)]
                texts(out.vacated@).contains(c) <==> vacates(
                    tenant(old(self)@.stores, app_id@),
                    id@,
                    c,
                ),
            crate::namespace::left_pairs(out.members_removed@).no_duplicates(),
            forall|c: Name, u: Name|
                #![trigger crate::namespace::left_pairs(out.members_removed@).contains((c, u))]
                crate::namespace::left_pairs(out.members_removed@).contains((c, u))
                    <==> crate::model::departs(tenant(old(self)@.stores, app_id@), id@, c) == Some(
                    u,
                ),
    {
        let out = self.adapter.cleanup_connection(app_id, id);
        let ghost base = self@;
        let ghost all = leave_mutations(texts(out.channels@), id@);
        let mut i: usize = 0;
        while i < out.channels.len()
            invariant
                i <= out.channels.len(),
                self.wf(),
                all == leave_mutations(texts(out.channels@), id@),
                self@ == publish_all(base, app_id@, all.take(i as int)),
            decreases out.channels.len() - i,
        {
            proof {
                assert(all.take(i + 1).drop_last() =~= all.take(i as int));
                assert(all.take(i + 1).last() == all[i as int]);
            }
            self.stamp(
                app_id.clone(),
                Mutation::RemoveFromChannel {
                    channel: out.channels[i].clone(),
                    socket_id: id.clone(),
                },
            );
            i += 1;
        }
        assert(all.take(i as int) =~= all);
        out
    }

    /// Records on connection `id` the user who signed in. The peers are not
    /// told.
    pub fn add_user(&mut self, app_id: &String, id: &String, user_id: String)
        requires
            old(self).wf(),
        ensures
            final(self).wf(),
            final(self)@ == with_stores(
                old(self)@,
                with_tenant(
                    old(self)@.stores,
                    app_id@,
                    crate::model::set_user(
                        tenant(old(self)@.stores, app_id@),
                        id@,
                        Some(user_id@),
                    ),
                ),
            ),
    {
        self.adapter.add_user(app_id, id, user_id);
    }

    /// Forgets the user of connection `id`. The peers are not told.
    pub fn remove_user(&mut self, app_id: &String, id: &String)
        requires
            old(self).wf(),
        ensures
            final(self).wf(),
            final(self)@ == with_stores(
                old(self)@,
                with_tenant(
                    old(self)@.stores,
                    app_id@,
                    crate::model::set_user(tenant(old(self)@.stores, app_id@), id@, None),
                ),
            ),
    {
        self.adapter.remove_user(app_id, id);
    }

    /// Notes that connection `id` was active at `now`. The peers are not
    /// told.
    pub fn touch(&mut self, app_id: &String, id: &String, now: u64)
        requires
            old(self).wf(),
        ensures
            final(self).wf(),
            final(self)@ == with_stores(
                old(self)@,
                with_tenant(
                    old(self)@.stores,
                    app_id@,
                    crate::model::touch(tenant(old(self)@.stores, app_id@), id@, now),
                ),
            ),
    {
        self.adapter.touch(app_id, id, now);
    }

    /// Takes a frame that the broker delivered. The node's own frames, come
    /// back as an echo, are passed over; a mutation of another node is
    /// replayed on the stores of tenant `app`, and an event is to be
    /// delivered to the members that this node holds.
    pub fn apply(&mut self, app: &App, frame: &PropagationFrame) -> (r: Replay)
        requires
            old(self).wf(),
        ensures
            final(self).wf(),
            final(self)@ == applied(old(self)@, *app, frame@),
            passes_over(old(self)@, *app, frame@) <==> r is Discarded,
            r matches Replay::Applied { deliveries } ==> texts(deliveries@).no_duplicates()
                && texts(deliveries@).to_set() == replay_deliveries(
                tenant_or_new(old(self)@.stores, app.id@, app.presence_limit()),
                frame@.mutation,
            ),
    {
        if frame.origin_node_id == self.node_id || !(frame.app_id == app.id) {
            return Replay::Discarded;
        }
        let ghost h = self@;
        let ghost v = tenant_or_new(h.stores, app.id@, app.presence_limit());
        self.adapter.ensure_namespace(app);
        let ghost mid = self.adapter@;
        assert(mid.insert(app.id@, v) =~= h.stores.insert(app.id@, v));
        let mut deliveries: Vec<String> = Vec::new();
        assert(texts(deliveries@).to_set() =~= Set::<Name>::empty());
        match &frame.mutation {
            Mutation::Send { channel, event, data, except } => {
                deliveries = self.adapter.send(channel, except.as_ref(), &app.id);
                assert(texts(deliveries@).to_set() =~= recipients(v, channel@, text_of(*except)));
            },
            Mutation::AddToChannel { channel, socket_id } => {
                self.adapter.mirror(app, socket_id);
                self.adapter.add_to_channel(&app.id, channel, socket_id);
            },
            Mutation::RemoveFromChannel { channel, socket_id } => {
                self.adapter.leave(&app.id, channel, socket_id);
                self.adapter.tidy(&app.id, socket_id);
            },
            Mutation::PresenceJoin { channel, socket_id, member } => {
                self.adapter.mirror(app, socket_id);
                let _ = self.adapter.join_presence(&app.id, channel, socket_id, member);
                self.adapter.tidy(&app.id, socket_id);
            },
            Mutation::PresenceLeave { channel, socket_id } => {
                self.adapter.leave(&app.id, channel, socket_id);
                self.adapter.tidy(&app.id, socket_id);
            },
        }
        assert(self.adapter@ =~= h.stores.insert(app.id@, replayed(v, frame@.mutation)));
        Replay::Applied { deliveries }
    }
}

impl HorizontalAdapter {
    /// Sends out a query under the fresh id `request_id`: files it to wait
    /// for a report of every known peer and of this node itself, for at
    /// most `timeout_ms`, and hands back the frame for the broker. An id
    /// that is in use is refused.
    pub fn begin_query(
        &mut self,
        request_id: String,
        op: QueryKind,
        app_id: Option<String>,
        now: u64,
        timeout_ms: u64,
    ) -> (r: Result<RequestFrame, Error>)
        requires
            old(self).wf(),
        ensures
            final(self).wf(),
            r is Ok <==> !old(self)@.table.pending.contains_key(request_id@),
            r is Err ==> r->Err_0 == Error::AlreadyExists && final(self)@ == old(self)@,
            r matches Ok(frame) ==> frame.request_id@ == request_id@ && frame.op == op && text_of(
                frame.app_id,
            ) == text_of(app_id) && final(self)@ == (HorizontalView {
                table: begun(
                    old(self)@.table,
                    request_id@,
                    op,
                    text_of(app_id),
                    sat((old(self)@.peers.len() + 1) as int) as nat,
                    now,
                    timeout_ms,
                ),
                ..old(self)@
            }),
    {
        let expected = sat_add(self.peers.len(), 1);
        let id = request_id.clone();
        let app = match &app_id {
            Some(a) => Some(a.clone()),
            None => None,
        };
        match self.table.begin(request_id, op, app_id, expected, now, timeout_ms) {
            Ok(()) => Ok(RequestFrame { request_id: id, op, app_id: app }),
            Err(error) => Err(error),
        }
    }

    /// Answers a query of any node, this one included, with what this node
    /// holds itself.
    pub fn answer(&mut self, request: &RequestFrame) -> (response: ResponseFrame)
        requires
            old(self).wf(),
        ensures
            final(self).wf(),
            response.request_id@ == request.request_id@,
            response.responder_node_id@ == old(self)@.node,
            response.partial_result.wf(),
            response.partial_result@ == local_partial(
                old(self)@.stores,
                request.op,
                text_of(request.app_id),
            ),
            final(self)@ == (HorizontalView {
                table: TableView {
                    metrics: AggregationMetrics {
                        requests_received: sat64(old(self)@.table.metrics.requests_received + 1),
                        ..old(self)@.table.metrics
                    },
                    ..old(self)@.table
                },
                ..old(self)@
            }),
    {
        let partial = match request.op {
            QueryKind::ChannelsWithSocketCount => match &request.app_id {
                Some(app_id) => Partial::Counts(self.adapter.local_socket_counts(app_id)),
                None => Partial::Counts(NameMap::new()),
            },
            QueryKind::SocketsCount => match &request.app_id {
                Some(app_id) => Partial::Count(self.adapter.local_sockets_count(app_id)),
                None => Partial::Count(0),
            },
            QueryKind::Namespaces => {
                let names = NameSet::from_vec(&self.adapter.get_namespaces());
                assert(names@ =~= self@.stores.dom());
                Partial::Names(names)
            },
        };
        self.table.note_request_received();
        ResponseFrame {
            request_id: request.request_id.clone(),
            responder_node_id: self.node_id.clone(),
            partial_result: partial,
        }
    }

    /// Takes a node's answer at time `now` and merges it into the request
    /// that waits for it. Hands back the request's resolution where this
    /// answer was the last one expected, or where the deadline has passed.
    pub fn accept(&mut self, response: &ResponseFrame, now: u64) -> (r: Option<Resolution>)
        requires
            old(self).wf(),
            response.partial_result.wf(),
        ensures
            final(self).wf(),
            final(self)@ == (HorizontalView {
                table: reported(
                    old(self)@.table,
                    response.request_id@,
                    response.responder_node_id@,
                    response.partial_result@,
                    now,
                ),
                ..old(self)@
            }),
            match r {
                Some(res) => report_resolves(
                    old(self)@.table,
                    response.request_id@,
                    response.responder_node_id@,
                    response.partial_result@,
                    now,
                ) == Some(res@),
                None => report_resolves(
                    old(self)@.table,
                    response.request_id@,
                    response.responder_node_id@,
                    response.partial_result@,
                    now,
                ) is None,
            },
    {
        self.table.record(
            &response.request_id,
            &response.responder_node_id,
            &response.partial_result,
            now,
        )
    }

    /// Sweeps the waiting requests at time `now`: each request whose
    /// deadline has passed resolves once with what it has, flagged as
    /// partial.
    pub fn reap(&mut self, now: u64) -> (out: Vec<Resolution>)
        requires
            old(self).wf(),
        ensures
            final(self).wf(),
            final(self)@ == (HorizontalView {
                table: swept(old(self)@.table, now),
                ..old(self)@
            }),
            out@.len() == overdue_set(old(self)@.table, now).len(),
            resolved_ids(out@).no_duplicates(),
            forall|id: Name|
                #![trigger resolved_ids(out@).contains(id)]
                #![trigger overdue(old(self)@.table, now, id)]
                resolved_ids(out@).contains(id) <==> overdue(old(self)@.table, now, id),
            forall|i: int|
                0 <= i < out@.len() ==> old(self)@.table.pending.contains_key(
                    (#[trigger] out@[i]).request_id@,
                ) && out@[i]@ == resolution_of(
                    out@[i].request_id@,
                    old(self)@.table.pending[out@[i].request_id@],
                    true,
                    now,
                ),
    {
        self.table.expire(now)
    }
}

/// The mutation that tells of connection `s` leaving channel `c`: a
/// presence leave where `s` was present there, a removal where it was not.
pub open spec fn leave_mutation(v: NamespaceView, s: Name, c: Name) -> MutationView {
    if crate::model::identified(v, s, c) {
        MutationView::PresenceLeave { channel: c, socket_id: s }
    } else {
        MutationView::RemoveFromChannel { channel: c, socket_id: s }
    }
}

/// Publishing changes the outbox and the number of the next frame and
/// nothing else: the frames that waited still wait, in front.
pub proof fn lemma_publish_all_keeps(h: HorizontalView, app: Name, ms: Seq<MutationView>)
    ensures
        publish_all(h, app, ms).stores == h.stores,
        publish_all(h, app, ms).table == h.table,
        publish_all(h, app, ms).peers == h.peers,
        publish_all(h, app, ms).node == h.node,
        publish_all(h, app, ms).outbox.len() == h.outbox.len() + ms.len(),
        h.outbox.is_prefix_of(publish_all(h, app, ms).outbox),
    decreases ms.len(),
{
    if ms.len() > 0 {
        lemma_publish_all_keeps(h, app, ms.drop_last());
    }
}

} // verus!
