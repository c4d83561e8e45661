//! The store of one tenant: its connections, its channels, and the operations
//! that change both together.

use crate::channel::{Channel, PresenceEntry, PresenceMemberInfo};
use crate::error::Error;
use crate::model::{
    add_socket, admits, can_join, departs, detach, disconnect, empty, identity_of, mirrored,
    tidied,
    lemma_listing_len, local_counts, local_sockets, owned_by, recipients, socket_counts, targeted, fresh_connection, holders, identified, inv,
    join, join_checked, join_verdict, leave, lemma_add_socket_inv, lemma_detach_step, lemma_disconnect_inv, lemma_empty_inv,
    lemma_holders_finite, lemma_join_inv, lemma_leave_inv, lemma_set_user_inv,
    lemma_subscribe_inv, lemma_touch_inv, member, present, set_user, touch,
    presence_count, refcount, subscribe, subscribed, subscribers, vacates, ChannelKind, ChannelView,
    ConnectionView, JoinOutcome, Member, Name, NamespaceView,
};
use vstd::set_lib::lemma_len_subset;
use crate::history::lemma_members_are_subscribers;
use crate::names::{lemma_pick_step, lemma_take_next, texts, NameMap, NameSet};
use vstd::prelude::*;

verus! {

/// The text of an optional string.
pub open spec fn text_of(s: Option<String>) -> Option<Name> {
    match s {
        Some(t) => Some(t@),
        None => None,
    }
}

/// The text of an optional borrowed string.
pub open spec fn text_of_ref(s: Option<&String>) -> Option<Name> {
    match s {
        Some(t) => Some(t@),
        None => None,
    }
}

/// The identities of a sequence of presence members, in order.
pub open spec fn identities(v: Seq<PresenceMemberInfo>) -> Seq<Member> {
    v.map_values(|m: PresenceMemberInfo| m@)
}

/// One client's session as the store sees it.
pub struct Connection {
    pub local: bool,
    pub channels: NameSet,
    pub presence: NameMap<PresenceMemberInfo>,
    pub user: Option<String>,
    pub last_activity: u64,
}

impl View for Connection {
    type V = ConnectionView;

    open spec fn view(&self) -> ConnectionView {
        ConnectionView {
            local: self.local,
            channels: self.channels@,
            presence: self.presence@.map_values(|m: PresenceMemberInfo| m@),
            user: text_of(self.user),
            last_activity: self.last_activity,
        }
    }
}

impl Connection {
    pub open spec fn wf(&self) -> bool {
        self.channels.wf() && self.presence.wf()
    }

    /// A connection that has just been accepted.
    pub fn new(local: bool, now: u64) -> (c: Self)
        ensures
            c.wf(),
            c@ == fresh_connection(local, now),
    {
        let c = Connection {
            local,
            channels: NameSet::new(),
            presence: NameMap::new(),
            user: None,
            last_activity: now,
        };
        assert(c@.presence =~= Map::<Name, Member>::empty());
        c
    }
}

/// What leaving a channel did.
pub struct LeaveOutcome {
    /// The connection was subscribed to the channel.
    pub left: bool,
    /// The channel lost its last member and is gone.
    pub vacated: bool,
    /// The user who is no longer present in the channel.
    pub member_removed: Option<String>,
}

/// A user who stopped being present in a channel.
pub struct PresenceLeft {
    pub channel: String,
    pub user_id: String,
}

/// The channel and user of each entry, in order.
pub open spec fn left_pairs(v: Seq<PresenceLeft>) -> Seq<(Name, Name)> {
    v.map_values(|e: PresenceLeft| (e.channel@, e.user_id@))
}

/// What the end of a connection did.
pub struct Departure {
    /// The connection was registered.
    pub removed: bool,
    /// The channels that the connection was in, each once.
    pub channels: Vec<String>,
    /// The channels that lost their last member.
    pub vacated: Vec<String>,
    /// The users who are no longer present, each with the channel.
    pub members_removed: Vec<PresenceLeft>,
}

/// The registry of one tenant.
pub struct Namespace {
    app_id: String,
    limit: Option<usize>,
    connections: NameMap<Connection>,
    channels: NameMap<Channel>,
}

impl View for Namespace {
    type V = NamespaceView;

    closed spec fn view(&self) -> NamespaceView {
        NamespaceView {
            limit: match self.limit {
                Some(m) => Some(m as nat),
                None => None,
            },
            connections: self.connections@.map_values(|c: Connection| c@),
            channels: self.channels@.map_values(|c: Channel| c@),
        }
    }
}

impl Namespace {
    /// The stored pieces are sound and the state is consistent.
    pub closed spec fn wf(&self) -> bool {
        &&& self.connections.wf()
        &&& self.channels.wf()
        &&& forall|s: Name|
            self.connections@.contains_key(s) ==> (#[trigger] self.connections@[s]).wf()
        &&& forall|c: Name| self.channels@.contains_key(c) ==> (#[trigger] self.channels@[c]).wf()
        &&& inv(self@)
    }

    /// The tenant that the store belongs to.
    pub closed spec fn app(&self) -> Name {
        self.app_id@
    }

    /// A well-formed store is consistent.
    pub proof fn lemma_wf_inv(&self)
        requires
            self.wf(),
        ensures
            inv(self@),
    {
    }

    /// An empty store for tenant `app_id`, in which at most `limit` users
    /// may be present in one channel.
    pub fn new(app_id: String, limit: Option<usize>) -> (ns: Self)
        ensures
            ns.wf(),
            ns.app() == app_id@,
            ns@ == empty(
                match limit {
                    Some(m) => Some(m as nat),
                    None => None,
                },
            ),
    {
        let ns = Namespace { app_id, limit, connections: NameMap::new(), channels: NameMap::new() };
        proof {
            assert(ns@.connections =~= Map::<Name, ConnectionView>::empty());
            assert(ns@.channels =~= Map::<Name, ChannelView>::empty());
            lemma_empty_inv(ns@.limit);
        }
        ns
    }

    pub fn app_id(&self) -> (id: &String)
        ensures
            id@ == self.app(),
    {
        &self.app_id
    }

    /// Registers connection `id`. An id that is taken is refused.
    pub fn add_socket(&mut self, id: String, local: bool, now: u64) -> (r: Result<(), Error>)
        requires
            old(self).wf(),
        ensures
            final(self).wf(),
            final(self).app() == old(self).app(),
            match r {
                Ok(()) => !old(self)@.connections.contains_key(id@) && final(self)@ == add_socket(
                    old(self)@,
                    id@,
                    local,
                    now,
                ),
                Err(e) => e == Error::AlreadyExists && old(self)@.connections.contains_key(id@)
                    && final(self)@ == old(self)@,
            },
    {
        if self.connections.contains_key(&id) {
            return Err(Error::AlreadyExists);
        }
        let ghost v = self@;
        self.connections.insert(id, Connection::new(local, now));
        proof {
            assert(self@.connections =~= add_socket(v, id@, local, now).connections);
            lemma_add_socket_inv(v, id@, local, now);
        }
        Ok(())
    }

    pub fn has_connection(&self, id: &String) -> (b: bool)
        ensures
            b == self@.connections.contains_key(id@),
    {
        self.connections.contains_key(id)
    }

    /// Subscribes connection `id` to `channel`; tells whether the channel came
    /// into being. A connection that is not registered changes nothing.
    pub fn add_to_channel(&mut self, channel: &String, id: &String) -> (first: bool)
        requires
            old(self).wf(),
        ensures
            final(self).wf(),
            final(self).app() == old(self).app(),
            final(self)@ == subscribe(old(self)@, id@, channel@),
            first == (old(self)@.connections.contains_key(id@) && !old(self)@.channels.contains_key(
                channel@,
            )),
    {
        let ghost v = self@;
        match self.connections.get_mut(id) {
            None => {
                return false;
            },
            Some(conn) => {
                conn.channels.insert(channel.clone());
            },
        }
        let first = match self.channels.get_mut(channel) {
            Some(chan) => {
                chan.members.insert(id.clone());
                false
            },
            None => {
                let mut chan = Channel::new(channel.as_str());
                chan.members.insert(id.clone());
                self.channels.insert(channel.clone(), chan);
                true
            },
        };
        proof {
            let w = subscribe(v, id@, channel@);
            assert(self@.connections =~= w.connections);
            assert(self@.channels =~= w.channels);
            lemma_subscribe_inv(v, id@, channel@);
        }
        first
    }

    /// Makes connection `id` present in presence channel `channel` as `who`,
    /// subscribing it on the way. A second join of the same connection
    /// changes nothing; a join that the limit does not admit is refused.
    pub fn join_presence(&mut self, channel: &String, id: &String, who: &PresenceMemberInfo) -> (r:
        Result<JoinOutcome, Error>)
        requires
            old(self).wf(),
        ensures
            final(self).wf(),
            final(self).app() == old(self).app(),
            r == join_verdict(old(self)@, id@, channel@, who@.user_id),
            final(self)@ == join_checked(old(self)@, id@, channel@, who@),
            r is Err ==> final(self)@ == old(self)@,
    {
        let ghost v = self@;
        let total = self.connections.len();
        assert(v.connections.dom() =~= self.connections@.dom());
        match self.connections.get(id) {
            None => {
                return Err(Error::NotFound);
            },
            Some(conn) => {
                match ChannelKind::of(channel.as_str()) {
                    ChannelKind::Presence => {},
                    _ => {
                        return Err(Error::Internal);
                    },
                }
                if conn.presence.contains_key(channel) {
                    return Ok(JoinOutcome { occupied: false, member_added: false });
                }
            },
        }
        let mut member_added = true;
        let mut count: usize = 0;
        match self.channels.get(channel) {
            Some(chan) => {
                member_added = !chan.presence.contains_key(&who.user_id);
                count = chan.presence.len();
                assert(v.channels[channel@].presence.dom() =~= chan.presence@.dom());
            },
            None => {},
        }
        assert(member_added == !present(v, channel@, who@.user_id));
        assert(count == presence_count(v, channel@));
        if let Some(m) = self.limit {
            if member_added && count >= m {
                return Err(Error::PresenceLimitExceeded);
            }
        }
        assert(can_join(v, id@, channel@) && admits(v, channel@, who@.user_id));
        let occupied = self.add_to_channel(channel, id);
        let ghost w = self@;
        proof {
            let u = who@.user_id;
            lemma_holders_finite(w, channel@, u);
            lemma_len_subset(holders(w, channel@, u).insert(id@), w.connections.dom());
            assert(!holders(w, channel@, u).contains(id@));
            assert(holders(w, channel@, u).len() == refcount(w, channel@, u));
            assert(w.connections.dom() =~= v.connections.dom());
            assert(refcount(w, channel@, u) < total);
            assert(w.channels.contains_key(channel@));
            assert(self.channels@.contains_key(channel@));
            assert(self.connections@.contains_key(id@));
        }
        match self.connections.get_mut(id) {
            Some(conn) => {
                conn.presence.insert(channel.clone(), who.copy());
            },
            None => {},
        }
        match self.channels.get_mut(channel) {
            Some(chan) => {
                match chan.presence.get_mut(&who.user_id) {
                    Some(entry) => {
                        entry.refcount = entry.refcount + 1;
                    },
                    None => {
                        chan.presence.insert(
                            who.user_id.clone(),
                            PresenceEntry { refcount: 1, info: who.user_info.clone() },
                        );
                    },
                }
            },
            None => {},
        }
        proof {
            let x = join(v, id@, channel@, who@);
            assert(self@.connections[id@].presence =~= x.connections[id@].presence);
            assert(self@.connections =~= x.connections);
            let after = self.channels@[channel@];
            let before = w.channels[channel@];
            assert(after.presence@[who@.user_id]@ == crate::model::entry_after_join(before, who@));
            assert(self@.channels[channel@].presence =~= x.channels[channel@].presence);
            assert(self@.channels =~= x.channels);
            lemma_join_inv(v, id@, channel@, who@);
        }
        Ok(JoinOutcome { occupied, member_added })
    }

    /// Takes connection `id` out of `channel`, with its presence identity if
    /// it has one there. A connection that is not subscribed changes nothing.
    pub fn leave(&mut self, channel: &String, id: &String) -> (out: LeaveOutcome)
        requires
            old(self).wf(),
        ensures
            final(self).wf(),
            final(self).app() == old(self).app(),
            final(self)@ == leave(old(self)@, id@, channel@),
            out.left == subscribed(old(self)@, id@, channel@),
            out.vacated == vacates(old(self)@, id@, channel@),
            text_of(out.member_removed) == departs(old(self)@, id@, channel@),
    {
        let ghost v = self@;
        let is_subscribed = match self.connections.get(id) {
            Some(conn) => conn.channels.contains(channel),
            None => false,
        };
        if !is_subscribed {
            return LeaveOutcome { left: false, vacated: false, member_removed: None };
        }
        proof {
            assert(subscribed(v, id@, channel@));
            assert(member(v, channel@, id@));
            assert(self.channels@.contains_key(channel@));
        }
        let mut identity: Option<PresenceMemberInfo> = None;
        match self.connections.get_mut(id) {
            Some(conn) => {
                conn.channels.remove(channel);
                identity = conn.presence.remove(channel);
            },
            None => {},
        }
        proof {
            assert(identity is Some == identified(v, id@, channel@));
            if identity is Some {
                let who = identity->0;
                let u = who@.user_id;
                assert(who@ == v.connections[id@].presence[channel@]);
                assert(holders(v, channel@, u).contains(id@));
                lemma_holders_finite(v, channel@, u);
                assert(holders(v, channel@, u).len() == refcount(v, channel@, u));
                assert(present(v, channel@, u));
            }
        }
        let mut vacated = false;
        let mut member_removed: Option<String> = None;
        match self.channels.get_mut(channel) {
            Some(chan) => {
                chan.members.remove(id);
                match identity {
                    Some(who) => {
                        let mut last = true;
                        match chan.presence.get_mut(&who.user_id) {
                            Some(entry) => {
                                if entry.refcount > 1 {
                                    entry.refcount = entry.refcount - 1;
                                    last = false;
                                }
                            },
                            None => {},
                        }
                        if last {
                            chan.presence.remove(&who.user_id);
                            member_removed = Some(who.user_id);
                        }
                    },
                    None => {},
                }
                vacated = chan.members.is_empty();
            },
            None => {},
        }
        proof {
            let after = self.channels@[channel@];
            let before = v.channels[channel@];
            assert(self.channels@.contains_key(channel@));
            assert(after@.members == before.members.remove(id@));
            assert(after@.presence =~= crate::model::channel_after_leave(
                v,
                id@,
                channel@,
            ).presence);
            assert(before.members.finite());
            vstd::set_lib::lemma_set_empty_equivalency_len(before.members.remove(id@));
            assert(vacated == vacates(v, id@, channel@));
        }
        if vacated {
            self.channels.remove(channel);
        }
        proof {
            let x = leave(v, id@, channel@);
            assert(self@.connections[id@].channels =~= x.connections[id@].channels);
            assert(self@.connections[id@].presence =~= x.connections[id@].presence);
            assert(self@.connections =~= x.connections);
            assert(self@.channels =~= x.channels);
            lemma_leave_inv(v, id@, channel@);
        }
        LeaveOutcome { left: true, vacated, member_removed }
    }

    /// Takes connection `id` out of `channel`; tells whether the channel lost
    /// its last member.
    pub fn remove_from_channel(&mut self, channel: &String, id: &String) -> (last: bool)
        requires
            old(self).wf(),
        ensures
            final(self).wf(),
            final(self).app() == old(self).app(),
            final(self)@ == leave(old(self)@, id@, channel@),
            last == vacates(old(self)@, id@, channel@),
    {
        self.leave(channel, id).vacated
    }

    /// Ends connection `id`: takes it out of every channel it had joined and
    /// drops its registration. Tells which channels this vacated and which
    /// users it removed from which channel, each once.
    pub fn remove_connection(&mut self, id: &String) -> (out: Departure)
        requires
            old(self).wf(),
        ensures
            final(self).wf(),
            final(self).app() == old(self).app(),
            final(self)@ == disconnect(old(self)@, id@),
            out.removed == old(self)@.connections.contains_key(id@),
            texts(out.channels@).no_duplicates(),
            forall|c: Name|
                #![trigger texts(out.channels@).contains(c)]
                #![trigger subscribed(old(self)@, id@, c)]
                texts(out.channels@).contains(c) <==> subscribed(old(self)@, id@, c),
            texts(out.vacated@).no_duplicates(),
            forall|c: Name|
                #![trigger texts(out.vacated@).contains(c)]
                #![trigger vacates(old(self)@, id@, c)]
                texts(out.vacated@).contains(c) <==> vacates(old(self)@, id@, c),
            left_pairs(out.members_removed@).no_duplicates(),
            forall|c: Name, u: Name|
                #![trigger left_pairs(out.members_removed@).contains((c, u))]
                left_pairs(out.members_removed@).contains((c, u)) <==> departs(old(self)@, id@, c)
                    == Some(u),
    {
        let ghost v = self@;
        let mut vacated: Vec<String> = Vec::new();
        let mut members_removed: Vec<PresenceLeft> = Vec::new();
        let chans = match self.connections.get(id) {
            Some(conn) => conn.channels.to_vec(),
            None => {
                let channels: Vec<String> = Vec::new();
                assert(texts(channels@) =~= Seq::<Name>::empty());
                return Departure { removed: false, channels, vacated, members_removed };
            },
        };
        let ghost all = texts(chans@);
        assert(all.no_duplicates() && all.to_set() == v.connections[id@].channels);
        let mut i: usize = 0;
        proof {
            assert(all.take(0).to_set() =~= Set::<Name>::empty());
            let w = detach(v, id@, Set::<Name>::empty());
            assert(w.connections[id@].channels =~= v.connections[id@].channels);
            assert(w.connections[id@].presence =~= v.connections[id@].presence);
            assert(w.connections =~= v.connections);
            assert(w.channels =~= v.channels);
        }
        while i < chans.len()
            invariant
                i <= chans.len(),
                all == texts(chans@),
                all.no_duplicates(),
                inv(v),
                v.connections.contains_key(id@),
                self.wf(),
                self.app() == old(self).app(),
                self@ == detach(v, id@, all.take(i as int).to_set()),
                texts(vacated@).no_duplicates(),
                forall|c: Name|
                    texts(vacated@).contains(c) <==> (all.take(i as int).contains(c) && vacates(
                        v,
                        id@,
                        c,
                    )),
                left_pairs(members_removed@).no_duplicates(),
                forall|c: Name, u: Name|
                    left_pairs(members_removed@).contains((c, u)) <==> (all.take(i as int).contains(
                        c,
                    ) && departs(v, id@, c) == Some(u)),
            decreases chans.len() - i,
        {
            let ghost done = all.take(i as int);
            let ghost c = all[i as int];
            let ghost vac = texts(vacated@);
            let ghost gone = left_pairs(members_removed@);
            proof {
                assert(!done.contains(c)) by {
                    if done.contains(c) {
                        let j = choose|j: int| 0 <= j < done.len() && done[j] == c;
                        assert(all[j] == all[i as int]);
                    }
                }
                lemma_detach_step(v, id@, done.to_set(), c);
                assert(all.take(i + 1) =~= done.push(c));
                assert(all.take(i + 1).to_set() =~= done.to_set().insert(c)) by {
                    assert forall|x: Name| all.take(i + 1).contains(x) <==> (done.contains(x) || x
                        == c) by {
                        if done.contains(x) {
                            let j = choose|j: int| 0 <= j < done.len() && done[j] == x;
                            assert(all.take(i + 1)[j] == x);
                        }
                        if x == c {
                            assert(all.take(i + 1)[i as int] == x);
                        }
                    }
                }
            }
            assert(chans@[i as int]@ == c);
            let out = self.leave(&chans[i], id);
            let ghost dep = departs(v, id@, c);
            assert(out.vacated == vacates(v, id@, c));
            assert(text_of(out.member_removed) == dep);
            assert(all.take(i + 1)[i as int] == c);
            if out.vacated {
                vacated.push(chans[i].clone());
                proof {
                    assert(texts(vacated@) =~= vac.push(c));
                    assert(!vac.contains(c));
                }
            }
            match out.member_removed {
                Some(user_id) => {
                    members_removed.push(PresenceLeft { channel: chans[i].clone(), user_id });
                    proof {
                        assert(left_pairs(members_removed@) =~= gone.push((c, user_id@)));
                        assert(!gone.contains((c, user_id@)));
                    }
                },
                None => {},
            }
            proof {
                let vac2 = texts(vacated@);
                let gone2 = left_pairs(members_removed@);
                assert forall|x: Name| vac2.contains(x) <==> (all.take(i + 1).contains(x)
                    && vacates(v, id@, x)) by {
                    if vac2.contains(x) {
                        let j = choose|j: int| 0 <= j < vac2.len() && vac2[j] == x;
                        if j < vac.len() {
                            assert(vac[j] == x);
                            assert(vac.contains(x));
                            assert(done.contains(x));
                        } else {
                            assert(x == c);
                        }
                    }
                    if all.take(i + 1).contains(x) && vacates(v, id@, x) {
                        if x == c {
                            assert(vac2[vac2.len() - 1] == x);
                        } else {
                            assert(done.contains(x));
                            assert(vac.contains(x));
                            let j = choose|j: int| 0 <= j < vac.len() && vac[j] == x;
                            assert(vac2[j] == x);
                        }
                    }
                }
                assert forall|x: Name, u: Name|
                    gone2.contains((x, u)) <==> (all.take(i + 1).contains(x) && departs(v, id@, x)
                        == Some(u)) by {
                    if gone2.contains((x, u)) {
                        let j = choose|j: int| 0 <= j < gone2.len() && gone2[j] == (x, u);
                        if j < gone.len() {
                            assert(gone[j] == (x, u));
                            assert(gone.contains((x, u)));
                            assert(done.contains(x));
                        } else {
                            assert(x == c && dep == Some(u));
                        }
                    }
                    if all.take(i + 1).contains(x) && departs(v, id@, x) == Some(u) {
                        if x == c {
                            assert(gone2[gone2.len() - 1] == (x, u));
                        } else {
                            assert(done.contains(x));
                            assert(gone.contains((x, u)));
                            let j = choose|j: int| 0 <= j < gone.len() && gone[j] == (x, u);
                            assert(gone2[j] == (x, u));
                        }
                    }
                }
            }
            i += 1;
        }
        proof {
            assert(all.take(i as int) =~= all);
        }
        self.connections.remove(id);
        proof {
            let x = disconnect(v, id@);
            assert(self@.connections =~= x.connections);
            assert(self@.channels =~= x.channels);
            lemma_disconnect_inv(v, id@);
            assert forall|c: Name| texts(vacated@).contains(c) <==> vacates(v, id@, c) by {
                if vacates(v, id@, c) {
                    assert(all.to_set().contains(c));
                }
            }
            assert forall|c: Name, u: Name|
                left_pairs(members_removed@).contains((c, u)) <==> departs(v, id@, c) == Some(
                    u,
                ) by {
                if departs(v, id@, c) == Some(u) {
                    assert(all.to_set().contains(c));
                }
            }
        }
        proof {
            assert forall|c: Name| all.contains(c) <==> subscribed(v, id@, c) by {
                assert(all.to_set().contains(c) == all.contains(c));
            }
        }
        Departure { removed: true, channels: chans, vacated, members_removed }
    }

    /// The connection registered as `id`.
    pub fn get_connection(&self, id: &String) -> (r: Option<&Connection>)
        requires
            self.wf(),
        ensures
            match r {
                Some(conn) => self@.connections.contains_key(id@) && conn@
                    == self@.connections[id@] && conn.wf(),
                None => !self@.connections.contains_key(id@),
            },
    {
        self.connections.get(id)
    }

    /// How many connections are registered.
    pub fn get_sockets_count(&self) -> (n: usize)
        requires
            self.wf(),
        ensures
            n == self@.connections.dom().len(),
    {
        assert(self@.connections.dom() =~= self.connections@.dom());
        self.connections.len()
    }

    /// Whether connection `id` is a member of `channel`.
    pub fn is_in_channel(&self, channel: &String, id: &String) -> (b: bool)
        requires
            self.wf(),
        ensures
            b == member(self@, channel@, id@),
    {
        match self.channels.get(channel) {
            Some(chan) => chan.members.contains(id),
            None => false,
        }
    }

    /// The members of `channel`, each once; none where there is no such
    /// channel.
    pub fn get_channel_sockets(&self, channel: &String) -> (ids: Vec<String>)
        requires
            self.wf(),
        ensures
            texts(ids@).no_duplicates(),
            forall|s: Name|
                #![trigger texts(ids@).contains(s)]
                #![trigger member(self@, channel@, s)]
                texts(ids@).contains(s) <==> member(self@, channel@, s),
    {
        match self.channels.get(channel) {
            Some(chan) => chan.members.to_vec(),
            None => {
                let ids: Vec<String> = Vec::new();
                assert(texts(ids@).len() == 0);
                ids
            },
        }
    }

    /// How many members `channel` has, which is how many connections are
    /// subscribed to it; none where there is no such channel.
    pub fn get_channel_socket_count(&self, channel: &String) -> (n: usize)
        requires
            self.wf(),
        ensures
            n == (if self@.channels.contains_key(channel@) {
                self@.channels[channel@].members.len()
            } else {
                0
            }),
            n == subscribers(self@, channel@).len(),
            n > 0 <==> self@.channels.contains_key(channel@),
    {
        proof {
            lemma_members_are_subscribers(self@, channel@);
        }
        match self.channels.get(channel) {
            Some(chan) => chan.members.len(),
            None => 0,
        }
    }

    /// The presence identity of connection `id` in `channel`.
    pub fn get_presence_member(&self, channel: &String, id: &String) -> (r: Option<
        PresenceMemberInfo,
    >)
        requires
            self.wf(),
        ensures
            match r {
                Some(who) => identity_of(self@, id@, channel@) == Some(who@),
                None => identity_of(self@, id@, channel@) is None,
            },
    {
        match self.connections.get(id) {
            Some(conn) => match conn.presence.get(channel) {
                Some(who) => Some(who.copy()),
                None => None,
            },
            None => None,
        }
    }

    /// Records on connection `id` the user who signed in.
    pub fn add_user(&mut self, id: &String, user_id: String)
        requires
            old(self).wf(),
        ensures
            final(self).wf(),
            final(self).app() == old(self).app(),
            final(self)@ == set_user(old(self)@, id@, Some(user_id@)),
    {
        let ghost v = self@;
        match self.connections.get_mut(id) {
            Some(conn) => {
                conn.user = Some(user_id);
            },
            None => {},
        }
        proof {
            assert(self@.connections =~= set_user(v, id@, Some(user_id@)).connections);
            lemma_set_user_inv(v, id@, Some(user_id@));
        }
    }

    /// Forgets the user of connection `id`.
    pub fn remove_user(&mut self, id: &String)
        requires
            old(self).wf(),
        ensures
            final(self).wf(),
            final(self).app() == old(self).app(),
            final(self)@ == set_user(old(self)@, id@, None),
    {
        let ghost v = self@;
        match self.connections.get_mut(id) {
            Some(conn) => {
                conn.user = None;
            },
            None => {},
        }
        proof {
            assert(self@.connections =~= set_user(v, id@, None).connections);
            lemma_set_user_inv(v, id@, None);
        }
    }

    /// Notes that connection `id` was active at `now`.
    pub fn touch(&mut self, id: &String, now: u64)
        requires
            old(self).wf(),
        ensures
            final(self).wf(),
            final(self).app() == old(self).app(),
            final(self)@ == touch(old(self)@, id@, now),
    {
        let ghost v = self@;
        match self.connections.get_mut(id) {
            Some(conn) => {
                conn.last_activity = now;
            },
            None => {},
        }
        proof {
            assert(self@.connections =~= touch(v, id@, now).connections);
            lemma_touch_inv(v, id@, now);
        }
    }

    /// The users present in `channel`, each once with the information kept
    /// for the user; none where there is no such channel.
    pub fn get_channel_members(&self, channel: &String) -> (list: Vec<PresenceMemberInfo>)
        requires
            self.wf(),
        ensures
            list@.len() == presence_count(self@, channel@),
            forall|i: int, j: int|
                0 <= i < j < list@.len() ==> list@[i]@.user_id != list@[j]@.user_id,
            forall|i: int|
                0 <= i < list@.len() ==> present(self@, channel@, (#[trigger] list@[i])@.user_id)
                    && list@[i]@.info
                    == self@.channels[channel@].presence[list@[i]@.user_id].info,
            forall|u: Name|
                present(self@, channel@, u) ==> exists|i: int|
                    0 <= i < list@.len() && (#[trigger] list@[i])@.user_id == u,
    {
        let mut list: Vec<PresenceMemberInfo> = Vec::new();
        match self.channels.get(channel) {
            None => {},
            Some(chan) => {
                let n = chan.presence.len();
                proof {
                    chan.presence.lemma_len();
                    assert(self@.channels[channel@].presence.dom() =~= chan.presence@.dom());
                }
                let mut i: usize = 0;
                while i < n
                    invariant
                        i <= n,
                        n == chan.presence.key_seq().len(),
                        chan.presence.wf(),
                        list@.len() == i,
                        forall|j: int|
                            0 <= j < i ==> (#[trigger] list@[j])@.user_id
                                == chan.presence.key_seq()[j] && list@[j]@.info
                                == chan.presence.value_seq()[j].info@,
                    decreases n - i,
                {
                    let user_id = chan.presence.key_at(i).clone();
                    let user_info = chan.presence.value_at(i).info.clone();
                    list.push(PresenceMemberInfo { user_id, user_info });
                    i += 1;
                }
                proof {
                    assert forall|i: int| 0 <= i < list@.len() implies present(
                        self@,
                        channel@,
                        (#[trigger] list@[i])@.user_id,
                    ) && list@[i]@.info
                        == self@.channels[channel@].presence[list@[i]@.user_id].info by {
                        chan.presence.lemma_entry(i);
                    }
                    assert forall|u: Name| present(self@, channel@, u) implies exists|i: int|
                        0 <= i < list@.len() && (#[trigger] list@[i])@.user_id == u by {
                        let i = chan.presence.lemma_stored(u);
                        assert(list@[i]@.user_id == u);
                    }
                }
            },
        }
        list
    }

    /// The connections that an event for `channel` is delivered to: the
    /// members whose transport this node holds, without `except`. Each is
    /// listed once.
    pub fn send_targets(&self, channel: &String, except: Option<&String>) -> (ids: Vec<String>)
        requires
            self.wf(),
        ensures
            texts(ids@).no_duplicates(),
            forall|s: Name|
                #![trigger texts(ids@).contains(s)]
                #![trigger recipients(self@, channel@, text_of_ref(except)).contains(s)]
                texts(ids@).contains(s) <==> recipients(self@, channel@, text_of_ref(except)).contains(
                    s,
                ),
            ids@.len() == recipients(self@, channel@, text_of_ref(except)).len(),
    {
        let ghost v = self@;
        let ghost ex = text_of_ref(except);
        let mut ids: Vec<String> = Vec::new();
        assert(texts(ids@) =~= Seq::<Name>::empty());
        match self.channels.get(channel) {
            None => {},
            Some(chan) => {
                let n = chan.members.len();
                let ghost all = chan.members.seq();
                let mut i: usize = 0;
                while i < n
                    invariant
                        i <= n,
                        n == all.len(),
                        all == chan.members.seq(),
                        all.no_duplicates(),
                        self.wf(),
                        v == self@,
                        ex == text_of_ref(except),
                        texts(ids@).no_duplicates(),
                        forall|s: Name|
                            #![trigger texts(ids@).contains(s)]
                            #![trigger all.take(i as int).contains(s)]
                            texts(ids@).contains(s) <==> (all.take(i as int).contains(s)
                                && targeted(v, ex, s)),
                    decreases n - i,
                {
                    let id = chan.members.get(i);
                    let ghost picked = texts(ids@);
                    let keep = match self.connections.get(id) {
                        Some(conn) => conn.local && match except {
                            Some(e) => !(*e == *id),
                            None => true,
                        },
                        None => false,
                    };
                    proof {
                        lemma_take_next(all, i as int);
                        lemma_pick_step(
                            all.take(i as int),
                            picked,
                            id@,
                            |s: Name| targeted(v, ex, s),
                        );
                    }
                    if keep {
                        ids.push(id.clone());
                        assert(texts(ids@) =~= picked.push(id@));
                    }
                    i += 1;
                }
                proof {
                    assert(all.take(i as int) =~= all);
                    assert(v.channels[channel@].members == chan.members@);
                    assert forall|s: Name| texts(ids@).contains(s) <==> recipients(
                        v,
                        channel@,
                        ex,
                    ).contains(s) by {
                        assert(member(v, channel@, s) == all.contains(s));
                    }
                }
            },
        }
        proof {
            lemma_listing_len(texts(ids@), recipients(v, channel@, ex));
        }
        ids
    }

    /// The connections that belong to user `user_id`, each once.
    pub fn get_user_sockets(&self, user_id: &String) -> (ids: Vec<String>)
        requires
            self.wf(),
        ensures
            texts(ids@).no_duplicates(),
            forall|s: Name|
                #![trigger texts(ids@).contains(s)]
                #![trigger owned_by(self@, user_id@, s)]
                texts(ids@).contains(s) <==> owned_by(self@, user_id@, s),
    {
        let ghost v = self@;
        let mut ids: Vec<String> = Vec::new();
        assert(texts(ids@) =~= Seq::<Name>::empty());
        let n = self.connections.len();
        let ghost all = self.connections.key_seq();
        let mut i: usize = 0;
        while i < n
            invariant
                i <= n,
                n == all.len(),
                all == self.connections.key_seq(),
                all.no_duplicates(),
                self.wf(),
                v == self@,
                texts(ids@).no_duplicates(),
                forall|s: Name|
                    #![trigger texts(ids@).contains(s)]
                    #![trigger all.take(i as int).contains(s)]
                    texts(ids@).contains(s) <==> (all.take(i as int).contains(s) && owned_by(
                        v,
                        user_id@,
                        s,
                    )),
            decreases n - i,
        {
            let id = self.connections.key_at(i);
            let conn = self.connections.value_at(i);
            let ghost picked = texts(ids@);
            let keep = match &conn.user {
                Some(u) => *u == *user_id,
                None => false,
            };
            proof {
                lemma_take_next(all, i as int);
                lemma_pick_step(all.take(i as int), picked, id@, |s: Name| owned_by(v, user_id@, s));
            }
            if keep {
                ids.push(id.clone());
                assert(texts(ids@) =~= picked.push(id@));
            }
            i += 1;
        }
        proof {
            assert(all.take(i as int) =~= all);
            self.connections.lemma_len();
            assert forall|s: Name| texts(ids@).contains(s) <==> owned_by(v, user_id@, s) by {
                assert(all.to_set().contains(s) == all.contains(s));
            }
        }
        ids
    }

    /// Every registered connection, each once.
    pub fn get_sockets(&self) -> (ids: Vec<String>)
        requires
            self.wf(),
        ensures
            texts(ids@).no_duplicates(),
            forall|s: Name|
                #![trigger texts(ids@).contains(s)]
                #![trigger self@.connections.contains_key(s)]
                texts(ids@).contains(s) <==> self@.connections.contains_key(s),
    {
        let mut ids: Vec<String> = Vec::new();
        let n = self.connections.len();
        let mut i: usize = 0;
        while i < n
            invariant
                i <= n,
                n == self.connections.key_seq().len(),
                self.wf(),
                texts(ids@) == self.connections.key_seq().take(i as int),
            decreases n - i,
        {
            let ghost before = texts(ids@);
            ids.push(self.connections.key_at(i).clone());
            assert(texts(ids@) =~= before.push(self.connections.key_seq()[i as int]));
            assert(self.connections.key_seq().take(i + 1) =~= before.push(
                self.connections.key_seq()[i as int],
            ));
            i += 1;
        }
        proof {
            assert(self.connections.key_seq().take(i as int) =~= self.connections.key_seq());
            self.connections.lemma_len();
            assert forall|s: Name| texts(ids@).contains(s) <==> self@.connections.contains_key(
                s,
            ) by {
                assert(self.connections.key_seq().to_set().contains(s)
                    == self.connections.key_seq().contains(s));
            }
        }
        ids
    }

    /// The number of members of each channel.
    pub fn get_channels_with_socket_count(&self) -> (counts: NameMap<usize>)
        requires
            self.wf(),
        ensures
            counts.wf(),
            counts@ == socket_counts(self@),
            forall|c: Name|
                #![trigger counts@.contains_key(c)]
                #![trigger subscribers(self@, c)]
                (counts@.contains_key(c) <==> subscribers(self@, c).len() > 0) && (
                counts@.contains_key(c) ==> counts@[c] == subscribers(self@, c).len()),
    {
        let mut counts: NameMap<usize> = NameMap::new();
        let n = self.channels.len();
        let ghost all = self.channels.key_seq();
        let mut i: usize = 0;
        while i < n
            invariant
                i <= n,
                n == all.len(),
                all == self.channels.key_seq(),
                self.wf(),
                counts.wf(),
                forall|c: Name|
                    #![trigger counts@.contains_key(c)]
                    #![trigger all.take(i as int).contains(c)]
                    counts@.contains_key(c) <==> all.take(i as int).contains(c),
                forall|c: Name| #[trigger]
                    counts@.contains_key(c) ==> counts@[c] == self@.channels[c].members.len(),
            decreases n - i,
        {
            let name = self.channels.key_at(i);
            let chan = self.channels.value_at(i);
            proof {
                lemma_take_next(all, i as int);
                assert(all.take(i as int).push(name@).contains(name@)) by {
                    assert(all.take(i as int).push(name@)[i as int] == name@);
                }
                assert forall|c: Name| all.take(i as int).contains(c) implies all.take(
                    i as int,
                ).push(name@).contains(c) by {
                    let j = choose|j: int| 0 <= j < i && all.take(i as int)[j] == c;
                    assert(all.take(i as int).push(name@)[j] == c);
                }
                assert(self@.channels[name@] == chan@);
            }
            counts.insert(name.clone(), chan.members.len());
            i += 1;
        }
        proof {
            assert(all.take(i as int) =~= all);
            self.channels.lemma_len();
            assert forall|c: Name| counts@.contains_key(c) <==> self@.channels.contains_key(c) by {
                assert(all.to_set().contains(c) == all.contains(c));
            }
            assert(counts@ =~= socket_counts(self@));
            assert forall|c: Name|
                #![trigger counts@.contains_key(c)]
                #![trigger subscribers(self@, c)]
                (counts@.contains_key(c) <==> subscribers(self@, c).len() > 0) && (
                counts@.contains_key(c) ==> counts@[c] == subscribers(self@, c).len()) by {
                lemma_members_are_subscribers(self@, c);
            }
        }
        counts
    }

    /// The connections whose transport this node holds, each once.
    pub fn local_sockets(&self) -> (ids: Vec<String>)
        requires
            self.wf(),
        ensures
            texts(ids@).no_duplicates(),
            forall|s: Name|
                #![trigger texts(ids@).contains(s)]
                #![trigger targeted(self@, None, s)]
                texts(ids@).contains(s) <==> targeted(self@, None, s),
            ids@.len() == local_sockets(self@).len(),
    {
        let ghost v = self@;
        let mut ids: Vec<String> = Vec::new();
        assert(texts(ids@) =~= Seq::<Name>::empty());
        let n = self.connections.len();
        let ghost all = self.connections.key_seq();
        let mut i: usize = 0;
        while i < n
            invariant
                i <= n,
                n == all.len(),
                all == self.connections.key_seq(),
                all.no_duplicates(),
                self.wf(),
                v == self@,
                texts(ids@).no_duplicates(),
                forall|s: Name|
                    #![trigger texts(ids@).contains(s)]
                    #![trigger all.take(i as int).contains(s)]
                    texts(ids@).contains(s) <==> (all.take(i as int).contains(s) && targeted(
                        v,
                        None,
                        s,
                    )),
            decreases n - i,
        {
            let id = self.connections.key_at(i);
            let conn = self.connections.value_at(i);
            let ghost picked = texts(ids@);
            proof {
                lemma_take_next(all, i as int);
                lemma_pick_step(all.take(i as int), picked, id@, |s: Name| targeted(v, None, s));
            }
            if conn.local {
                ids.push(id.clone());
                assert(texts(ids@) =~= picked.push(id@));
            }
            i += 1;
        }
        proof {
            assert(all.take(i as int) =~= all);
            self.connections.lemma_len();
            assert forall|s: Name| texts(ids@).contains(s) <==> targeted(v, None, s) by {
                assert(all.to_set().contains(s) == all.contains(s));
            }
            lemma_listing_len(texts(ids@), local_sockets(v));
        }
        ids
    }

    /// How many connections this node holds the transport of.
    pub fn local_sockets_count(&self) -> (n: usize)
        requires
            self.wf(),
        ensures
            n == local_sockets(self@).len(),
    {
        self.local_sockets().len()
    }

    /// The number of members held by this node, for each channel that has
    /// such a member.
    pub fn local_socket_counts(&self) -> (counts: NameMap<usize>)
        requires
            self.wf(),
        ensures
            counts.wf(),
            counts@ == local_counts(self@),
    {
        let mut counts: NameMap<usize> = NameMap::new();
        let n = self.channels.len();
        let ghost all = self.channels.key_seq();
        let mut i: usize = 0;
        while i < n
            invariant
                i <= n,
                n == all.len(),
                all == self.channels.key_seq(),
                self.wf(),
                counts.wf(),
                forall|c: Name|
                    #![trigger counts@.contains_key(c)]
                    #![trigger all.take(i as int).contains(c)]
                    counts@.contains_key(c) <==> (all.take(i as int).contains(c) && recipients(
                        self@,
                        c,
                        None,
                    ).len() > 0),
                forall|c: Name| #[trigger]
                    counts@.contains_key(c) ==> counts@[c] == recipients(self@, c, None).len(),
            decreases n - i,
        {
            let name = self.channels.key_at(i);
            let held = self.send_targets(name, None).len();
            proof {
                lemma_take_next(all, i as int);
                assert(all.take(i as int).push(name@).contains(name@)) by {
                    assert(all.take(i as int).push(name@)[i as int] == name@);
                }
                assert forall|c: Name| all.take(i as int).contains(c) implies all.take(
                    i as int,
                ).push(name@).contains(c) by {
                    let j = choose|j: int| 0 <= j < i && all.take(i as int)[j] == c;
                    assert(all.take(i as int).push(name@)[j] == c);
                }
            }
            if held > 0 {
                counts.insert(name.clone(), held);
            }
            i += 1;
        }
        proof {
            assert(all.take(i as int) =~= all);
            self.channels.lemma_len();
            assert forall|c: Name| counts@.contains_key(c) <==> recipients(self@, c, None).len()
                > 0 by {
                assert(all.to_set().contains(c) == all.contains(c));
                if recipients(self@, c, None).len() > 0 {
                    if !self@.channels.contains_key(c) {
                        assert(recipients(self@, c, None) =~= Set::<Name>::empty());
                    }
                }
            }
            assert(counts@ =~= local_counts(self@));
        }
        counts
    }

    /// Registers `id` as a connection held by another node, unless `id` is
    /// registered already.
    pub fn mirror(&mut self, id: &String)
        requires
            old(self).wf(),
        ensures
            final(self).wf(),
            final(self).app() == old(self).app(),
            final(self)@ == mirrored(old(self)@, id@),
    {
        if !self.connections.contains_key(id) {
            let _ = self.add_socket(id.clone(), false, 0);
        }
    }

    /// Drops the record of `id` where it is a connection held by another
    /// node that is in no channel here.
    pub fn tidy(&mut self, id: &String)
        requires
            old(self).wf(),
        ensures
            final(self).wf(),
            final(self).app() == old(self).app(),
            final(self)@ == tidied(old(self)@, id@),
    {
        let idle = match self.connections.get(id) {
            Some(conn) => !conn.local && conn.channels.len() == 0,
            None => false,
        };
        if idle {
            let _ = self.remove_connection(id);
        }
    }
}

} // verus!
