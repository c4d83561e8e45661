//! The in-process adapter: one store per tenant, and every operation of the
//! capability contract on them. A tenant, channel or connection that is not
//! known gives an empty answer, never a failure; only a connection id that
//! is taken is refused.

use crate::app::App;
use crate::channel::PresenceMemberInfo;
use crate::error::Error;
use crate::model::{
    add_socket, disconnect, empty, identity_of, inv, join_checked, join_verdict, leave,
    local_counts, local_sockets, member, owned_by, present, presence_count, recipients, set_user,
    socket_counts, subscribe, touch, vacates, JoinOutcome, Name, NamespaceView,
};
use crate::names::{texts, NameMap};
use crate::namespace::{
    left_pairs, text_of, text_of_ref, Connection, Departure, LeaveOutcome, Namespace,
};
use crate::model::{departs, mirrored, subscribed, subscribers, targeted, tidied};
use vstd::prelude::*;

verus! {

/// The state of tenant `app`, or an empty one without limit where the
/// tenant is not known.
pub open spec fn tenant(m: Map<Name, NamespaceView>, app: Name) -> NamespaceView {
    if m.contains_key(app) {
        m[app]
    } else {
        empty(None)
    }
}

/// The state of tenant `app`, or an empty one with the given limit where
/// the tenant is not known.
pub open spec fn tenant_or_new(
    m: Map<Name, NamespaceView>,
    app: Name,
    limit: Option<nat>,
) -> NamespaceView {
    if m.contains_key(app) {
        m[app]
    } else {
        empty(limit)
    }
}

/// The stores after tenant `app`, where it is known, has become `next`.
pub open spec fn with_tenant(m: Map<Name, NamespaceView>, app: Name, next: NamespaceView) -> Map<
    Name,
    NamespaceView,
> {
    if m.contains_key(app) {
        m.insert(app, next)
    } else {
        m
    }
}

/// The stores of all tenants on this node.
pub struct LocalAdapter {
    namespaces: NameMap<Namespace>,
}

impl View for LocalAdapter {
    type V = Map<Name, NamespaceView>;

    closed spec fn view(&self) -> Map<Name, NamespaceView> {
        self.namespaces@.map_values(|ns: Namespace| ns@)
    }
}

impl LocalAdapter {
    /// Every store is sound and filed under its tenant's id.
    pub closed spec fn wf(&self) -> bool {
        &&& self.namespaces.wf()
        &&& forall|app: Name|
            self.namespaces@.contains_key(app) ==> (#[trigger] self.namespaces@[app]).wf()
                && self.namespaces@[app].app() == app
    }

    /// Every tenant's state is consistent.
    pub proof fn lemma_wf_inv(&self, app: Name)
        requires
            self.wf(),
            self@.contains_key(app),
        ensures
            inv(self@[app]),
    {
        self.namespaces@[app].lemma_wf_inv();
    }

    /// An adapter without tenants.
    pub fn new() -> (a: Self)
        ensures
            a.wf(),
            a@ == Map::<Name, NamespaceView>::empty(),
    {
        let a = LocalAdapter { namespaces: NameMap::new() };
        assert(a@ =~= Map::<Name, NamespaceView>::empty());
        a
    }

    /// Prepares the adapter for use. The stores are kept in memory, so
    /// nothing is left to do.
    pub fn init(&mut self)
        requires
            old(self).wf(),
        ensures
            final(self).wf(),
            final(self)@ == old(self)@,
    {
    }

    /// The store of tenant `app_id`.
    pub fn get_namespace(&self, app_id: &String) -> (r: Option<&Namespace>)
        requires
            self.wf(),
        ensures
            match r {
                Some(ns) => self@.contains_key(app_id@) && ns@ == self@[app_id@] && ns.wf(),
                None => !self@.contains_key(app_id@),
            },
    {
        self.namespaces.get(app_id)
    }

    /// The tenants that have a store, each once.
    pub fn get_namespaces(&self) -> (ids: Vec<String>)
        requires
            self.wf(),
        ensures
            texts(ids@).no_duplicates(),
            forall|app: Name|
                #![trigger texts(ids@).contains(app)]
                #![trigger self@.contains_key(app)]
                texts(ids@).contains(app) <==> self@.contains_key(app),
    {
        let mut ids: Vec<String> = Vec::new();
        let n = self.namespaces.len();
        let mut i: usize = 0;
        while i < n
            invariant
                i <= n,
                n == self.namespaces.key_seq().len(),
                self.wf(),
                texts(ids@) == self.namespaces.key_seq().take(i as int),
            decreases n - i,
        {
            let ghost before = texts(ids@);
            ids.push(self.namespaces.key_at(i).clone());
            assert(texts(ids@) =~= before.push(self.namespaces.key_seq()[i as int]));
            assert(self.namespaces.key_seq().take(i + 1) =~= before.push(
                self.namespaces.key_seq()[i as int],
            ));
            i += 1;
        }
        proof {
            assert(self.namespaces.key_seq().take(i as int) =~= self.namespaces.key_seq());
            self.namespaces.lemma_len();
            assert forall|app: Name| texts(ids@).contains(app) <==> self@.contains_key(app) by {
                assert(self.namespaces.key_seq().to_set().contains(app)
                    == self.namespaces.key_seq().contains(app));
            }
        }
        ids
    }

    /// Makes sure that tenant `app` has a store: an empty one, with the
    /// tenant's limit, where it had none.
    pub fn ensure_namespace(&mut self, app: &App)
        requires
            old(self).wf(),
        ensures
            final(self).wf(),
            final(self)@.contains_key(app.id@),
            final(self)@ == old(self)@.insert(
                app.id@,
                tenant_or_new(old(self)@, app.id@, app.presence_limit()),
            ),
    {
        let ghost m = self@;
        if !self.namespaces.contains_key(&app.id) {
            let ns = Namespace::new(app.id.clone(), app.presence_limit_value());
            self.namespaces.insert(app.id.clone(), ns);
        }
        assert(self@ =~= m.insert(app.id@, tenant_or_new(m, app.id@, app.presence_limit())));
    }

    /// Registers connection `id` with tenant `app`, whose store comes into
    /// being with its first connection. An id that is taken is refused.
    pub fn add_socket(&mut self, app: &App, id: String, now: u64) -> (r: Result<(), Error>)
        requires
            old(self).wf(),
        ensures
            final(self).wf(),
            r is Ok <==> !tenant(old(self)@, app.id@).connections.contains_key(id@),
            r is Err ==> r == Err::<(), Error>(Error::AlreadyExists),
            r is Err ==> final(self)@ == old(self)@,
            r is Ok ==> final(self)@ == old(self)@.insert(
                app.id@,
                add_socket(tenant_or_new(old(self)@, app.id@, app.presence_limit()), id@, true, now),
            ),
    {
        let ghost m = self@;
        self.ensure_namespace(app);
        let ghost mid = self@;
        let ghost before = tenant_or_new(m, app.id@, app.presence_limit());
        let r = match self.namespaces.get_mut(&app.id) {
            Some(ns) => ns.add_socket(id, true, now),
            None => Ok(()),
        };
        proof {
            assert(mid[app.id@] == before);
            assert(self@ =~= mid.insert(app.id@, self@[app.id@]));
            if r is Ok {
                assert(self@ =~= m.insert(app.id@, add_socket(before, id@, true, now)));
            } else {
                assert(m.contains_key(app.id@));
                assert(self@ =~= m);
            }
        }
        r
    }

    /// The connection registered as `id` with tenant `app_id`.
    pub fn get_connection(&self, app_id: &String, id: &String) -> (r: Option<&Connection>)
        requires
            self.wf(),
        ensures
            match r {
                Some(conn) => tenant(self@, app_id@).connections.contains_key(id@) && conn@
                    == tenant(self@, app_id@).connections[id@],
                None => !tenant(self@, app_id@).connections.contains_key(id@),
            },
    {
        match self.namespaces.get(app_id) {
            Some(ns) => ns.get_connection(id),
            None => None,
        }
    }

    /// Ends connection `id` of tenant `app_id` and tells what that did to
    /// channels and presence.
    pub fn cleanup_connection(&mut self, app_id: &String, id: &String) -> (out: Departure)
        requires
            old(self).wf(),
        ensures
            final(self).wf(),
            final(self)@ == with_tenant(
                old(self)@,
                app_id@,
                disconnect(tenant(old(self)@, app_id@), id@),
            ),
            out.removed == tenant(old(self)@, app_id@).connections.contains_key(id@),
            texts(out.channels@).no_duplicates(),
            forall|c: Name|
                #![trigger texts(out.channels@).contains(c)]
                #![trigger subscribed(tenant(old(self)@, app_id@), id@, c)]
                texts(out.channels@).contains(c) <==> subscribed(
                    tenant(old(self)@, app_id@),
                    id@,
                    c,
                ),
            texts(out.vacated@).no_duplicates(),
            forall|c: Name|
                #![trigger texts(out.vacated@).contains(c)]
                #![trigger vacates(tenant(old(self)@, app_id@), id@, c)]
                texts(out.vacated@).contains(c) <==> vacates(tenant(old(self)@, app_id@), id@, c),
            left_pairs(out.members_removed@).no_duplicates(),
            forall|c: Name, u: Name|
                #![trigger left_pairs(out.members_removed@).contains((c, u))]
                left_pairs(out.members_removed@).contains((c, u)) <==> departs(
                    tenant(old(self)@, app_id@),
                    id@,
                    c,
                ) == Some(u),
    {
        let ghost m = self@;
        match self.namespaces.get_mut(app_id) {
            Some(ns) => {
                let out = ns.remove_connection(id);
                assert(self@ =~= with_tenant(m, app_id@, disconnect(tenant(m, app_id@), id@)));
                out
            },
            None => {
                let out = Departure {
                    removed: false,
                    channels: Vec::new(),
                    vacated: Vec::new(),
                    members_removed: Vec::new(),
                };
                assert(texts(out.channels@) =~= Seq::<Name>::empty());
                assert(texts(out.vacated@) =~= Seq::<Name>::empty());
                assert(left_pairs(out.members_removed@) =~= Seq::<(Name, Name)>::empty());
                out
            },
        }
    }

    /// Ends connection `id` of tenant `app_id`; tells whether it was
    /// registered.
    pub fn remove_connection(&mut self, app_id: &String, id: &String) -> (removed: bool)
        requires
            old(self).wf(),
        ensures
            final(self).wf(),
            final(self)@ == with_tenant(
                old(self)@,
                app_id@,
                disconnect(tenant(old(self)@, app_id@), id@),
            ),
            removed == tenant(old(self)@, app_id@).connections.contains_key(id@),
    {
        self.cleanup_connection(app_id, id).removed
    }

    /// Whether a message for connection `id` can be delivered here: the
    /// connection is registered and this node holds its transport.
    pub fn send_message(&self, app_id: &String, id: &String) -> (deliverable: bool)
        requires
            self.wf(),
        ensures
            deliverable == targeted(tenant(self@, app_id@), None, id@),
    {
        match self.get_connection(app_id, id) {
            Some(conn) => conn.local,
            None => false,
        }
    }

    /// The connections that an event for `channel` is delivered to: every
    /// member held by this node but `except`, each once.
    pub fn send(&self, channel: &String, except: Option<&String>, app_id: &String) -> (ids: Vec<
        String,
    >)
        requires
            self.wf(),
        ensures
            texts(ids@).no_duplicates(),
            forall|s: Name|
                #![trigger texts(ids@).contains(s)]
                #![trigger recipients(tenant(self@, app_id@), channel@, text_of_ref(except)).contains(s)]
                texts(ids@).contains(s) <==> recipients(
                    tenant(self@, app_id@),
                    channel@,
                    text_of_ref(except),
                ).contains(s),
    {
        match self.namespaces.get(app_id) {
            Some(ns) => ns.send_targets(channel, except),
            None => {
                let ids: Vec<String> = Vec::new();
                assert(texts(ids@) =~= Seq::<Name>::empty());
                ids
            },
        }
    }

    /// Subscribes connection `id` to `channel`; tells whether the channel
    /// came into being.
    pub fn add_to_channel(&mut self, app_id: &String, channel: &String, id: &String) -> (first:
        bool)
        requires
            old(self).wf(),
        ensures
            final(self).wf(),
            final(self)@ == with_tenant(
                old(self)@,
                app_id@,
                subscribe(tenant(old(self)@, app_id@), id@, channel@),
            ),
            first == (tenant(old(self)@, app_id@).connections.contains_key(id@) && !tenant(
                old(self)@,
                app_id@,
            ).channels.contains_key(channel@)),
    {
        let ghost m = self@;
        match self.namespaces.get_mut(app_id) {
            Some(ns) => {
                let first = ns.add_to_channel(channel, id);
                assert(self@ =~= with_tenant(
                    m,
                    app_id@,
                    subscribe(tenant(m, app_id@), id@, channel@),
                ));
                first
            },
            None => false,
        }
    }

    /// Makes connection `id` present in presence channel `channel` as `who`.
    pub fn join_presence(
        &mut self,
        app_id: &String,
        channel: &String,
        id: &String,
        who: &PresenceMemberInfo,
    ) -> (r: Result<JoinOutcome, Error>)
        requires
            old(self).wf(),
        ensures
            final(self).wf(),
            r == join_verdict(tenant(old(self)@, app_id@), id@, channel@, who@.user_id),
            final(self)@ == with_tenant(
                old(self)@,
                app_id@,
                join_checked(tenant(old(self)@, app_id@), id@, channel@, who@),
            ),
            r is Err ==> final(self)@ == old(self)@,
    {
        let ghost m = self@;
        match self.namespaces.get_mut(app_id) {
            Some(ns) => {
                let r = ns.join_presence(channel, id, who);
                assert(self@ =~= with_tenant(
                    m,
                    app_id@,
                    join_checked(tenant(m, app_id@), id@, channel@, who@),
                ));
                r
            },
            None => Err(Error::NotFound),
        }
    }

    /// Takes connection `id` out of `channel`, with its presence identity.
    pub fn leave(&mut self, app_id: &String, channel: &String, id: &String) -> (out: LeaveOutcome)
        requires
            old(self).wf(),
        ensures
            final(self).wf(),
            final(self)@ == with_tenant(
                old(self)@,
                app_id@,
                leave(tenant(old(self)@, app_id@), id@, channel@),
            ),
            out.left == subscribed(tenant(old(self)@, app_id@), id@, channel@),
            out.vacated == vacates(tenant(old(self)@, app_id@), id@, channel@),
            text_of(out.member_removed) == departs(tenant(old(self)@, app_id@), id@, channel@),
    {
        let ghost m = self@;
        match self.namespaces.get_mut(app_id) {
            Some(ns) => {
                let out = ns.leave(channel, id);
                assert(self@ =~= with_tenant(m, app_id@, leave(tenant(m, app_id@), id@, channel@)));
                out
            },
            None => LeaveOutcome { left: false, vacated: false, member_removed: None },
        }
    }

    /// Takes connection `id` out of `channel`; tells whether the channel lost
    /// its last member.
    pub fn remove_from_channel(&mut self, app_id: &String, channel: &String, id: &String) -> (last:
        bool)
        requires
            old(self).wf(),
        ensures
            final(self).wf(),
            final(self)@ == with_tenant(
                old(self)@,
                app_id@,
                leave(tenant(old(self)@, app_id@), id@, channel@),
            ),
            last == vacates(tenant(old(self)@, app_id@), id@, channel@),
    {
        self.leave(app_id, channel, id).vacated
    }

    /// Whether connection `id` is a member of `channel`.
    pub fn is_in_channel(&self, app_id: &String, channel: &String, id: &String) -> (b: bool)
        requires
            self.wf(),
        ensures
            b == member(tenant(self@, app_id@), channel@, id@),
    {
        match self.namespaces.get(app_id) {
            Some(ns) => ns.is_in_channel(channel, id),
            None => false,
        }
    }

    /// The users present in `channel`, each once.
    pub fn get_channel_members(&self, app_id: &String, channel: &String) -> (list: Vec<
        PresenceMemberInfo,
    >)
        requires
            self.wf(),
        ensures
            list@.len() == presence_count(tenant(self@, app_id@), channel@),
            forall|i: int, j: int|
                0 <= i < j < list@.len() ==> list@[i]@.user_id != list@[j]@.user_id,
            forall|i: int|
                0 <= i < list@.len() ==> present(
                    tenant(self@, app_id@),
                    channel@,
                    (#[trigger] list@[i])@.user_id,
                ) && list@[i]@.info == tenant(
                    self@,
                    app_id@,
                ).channels[channel@].presence[list@[i]@.user_id].info,
            forall|u: Name|
                present(tenant(self@, app_id@), channel@, u) ==> exists|i: int|
                    0 <= i < list@.len() && (#[trigger] list@[i])@.user_id == u,
    {
        match self.namespaces.get(app_id) {
            Some(ns) => ns.get_channel_members(channel),
            None => Vec::new(),
        }
    }

    /// The members of `channel`, each once.
    pub fn get_channel_sockets(&self, app_id: &String, channel: &String) -> (ids: Vec<String>)
        requires
            self.wf(),
        ensures
            texts(ids@).no_duplicates(),
            forall|s: Name|
                #![trigger texts(ids@).contains(s)]
                #![trigger member(tenant(self@, app_id@), channel@, s)]
                texts(ids@).contains(s) <==> member(tenant(self@, app_id@), channel@, s),
    {
        match self.namespaces.get(app_id) {
            Some(ns) => ns.get_channel_sockets(channel),
            None => {
                let ids: Vec<String> = Vec::new();
                assert(texts(ids@) =~= Seq::<Name>::empty());
                ids
            },
        }
    }

    /// How many members `channel` has, which is how many connections are
    /// subscribed to it.
    pub fn get_channel_socket_count(&self, app_id: &String, channel: &String) -> (n: usize)
        requires
            self.wf(),
        ensures
            n == (if tenant(self@, app_id@).channels.contains_key(channel@) {
                tenant(self@, app_id@).channels[channel@].members.len()
            } else {
                0
            }),
            n == subscribers(tenant(self@, app_id@), channel@).len(),
            n > 0 <==> tenant(self@, app_id@).channels.contains_key(channel@),
    {
        match self.namespaces.get(app_id) {
            Some(ns) => ns.get_channel_socket_count(channel),
            None => {
                assert(subscribers(tenant(self@, app_id@), channel@) =~= Set::<Name>::empty());
                0
            },
        }
    }

    /// The presence identity of connection `id` in `channel`.
    pub fn get_presence_member(&self, app_id: &String, channel: &String, id: &String) -> (r:
        Option<PresenceMemberInfo>)
        requires
            self.wf(),
        ensures
            match r {
                Some(who) => identity_of(tenant(self@, app_id@), id@, channel@) == Some(who@),
                None => identity_of(tenant(self@, app_id@), id@, channel@) is None,
            },
    {
        match self.namespaces.get(app_id) {
            Some(ns) => ns.get_presence_member(channel, id),
            None => None,
        }
    }

    /// The number of members of each channel of tenant `app_id`: a channel
    /// is listed exactly when a connection is subscribed to it, with the
    /// number of the connections that are.
    pub fn get_channels_with_socket_count(&self, app_id: &String) -> (counts: NameMap<usize>)
        requires
            self.wf(),
        ensures
            counts.wf(),
            counts@ == socket_counts(tenant(self@, app_id@)),
            forall|c: Name|
                #![trigger counts@.contains_key(c)]
                #![trigger subscribers(tenant(self@, app_id@), c)]
                (counts@.contains_key(c) <==> subscribers(tenant(self@, app_id@), c).len() > 0)
                    && (counts@.contains_key(c) ==> counts@[c] == subscribers(
                    tenant(self@, app_id@),
                    c,
                ).len()),
    {
        match self.namespaces.get(app_id) {
            Some(ns) => ns.get_channels_with_socket_count(),
            None => {
                let counts: NameMap<usize> = NameMap::new();
                proof {
                    assert forall|c: Name| subscribers(tenant(self@, app_id@), c).len() == 0 by {
                        assert(subscribers(tenant(self@, app_id@), c) =~= Set::<Name>::empty());
                    }
                }
                assert(counts@ =~= socket_counts(tenant(self@, app_id@)));
                counts
            },
        }
    }

    /// How many connections tenant `app_id` has.
    pub fn get_sockets_count(&self, app_id: &String) -> (n: usize)
        requires
            self.wf(),
        ensures
            n == tenant(self@, app_id@).connections.dom().len(),
    {
        match self.namespaces.get(app_id) {
            Some(ns) => ns.get_sockets_count(),
            None => 0,
        }
    }

    /// For each channel of tenant `app_id`, the number of its members held by
    /// this node: what the node reports to a cluster-wide count.
    pub fn local_socket_counts(&self, app_id: &String) -> (counts: NameMap<usize>)
        requires
            self.wf(),
        ensures
            counts.wf(),
            counts@ == local_counts(tenant(self@, app_id@)),
    {
        match self.namespaces.get(app_id) {
            Some(ns) => ns.local_socket_counts(),
            None => {
                let counts: NameMap<usize> = NameMap::new();
                proof {
                    assert forall|c: Name| recipients(tenant(self@, app_id@), c, None).len()
                        == 0 by {
                        assert(recipients(tenant(self@, app_id@), c, None) =~= Set::<
                            Name,
                        >::empty());
                    }
                    assert(counts@ =~= local_counts(tenant(self@, app_id@)));
                }
                counts
            },
        }
    }

    /// The connections of tenant `app_id` whose transport this node holds,
    /// each once.
    pub fn local_sockets(&self, app_id: &String) -> (ids: Vec<String>)
        requires
            self.wf(),
        ensures
            texts(ids@).no_duplicates(),
            forall|s: Name|
                #![trigger texts(ids@).contains(s)]
                #![trigger targeted(tenant(self@, app_id@), None, s)]
                texts(ids@).contains(s) <==> targeted(tenant(self@, app_id@), None, s),
    {
        match self.namespaces.get(app_id) {
            Some(ns) => ns.local_sockets(),
            None => {
                let ids: Vec<String> = Vec::new();
                assert(texts(ids@) =~= Seq::<Name>::empty());
                ids
            },
        }
    }

    /// How many connections of tenant `app_id` this node holds.
    pub fn local_sockets_count(&self, app_id: &String) -> (n: usize)
        requires
            self.wf(),
        ensures
            n == local_sockets(tenant(self@, app_id@)).len(),
    {
        match self.namespaces.get(app_id) {
            Some(ns) => ns.local_sockets_count(),
            None => {
                assert(local_sockets(tenant(self@, app_id@)) =~= Set::<Name>::empty());
                0
            },
        }
    }

    /// Records on connection `id` the user who signed in.
    pub fn add_user(&mut self, app_id: &String, id: &String, user_id: String)
        requires
            old(self).wf(),
        ensures
            final(self).wf(),
            final(self)@ == with_tenant(
                old(self)@,
                app_id@,
                set_user(tenant(old(self)@, app_id@), id@, Some(user_id@)),
            ),
    {
        let ghost m = self@;
        match self.namespaces.get_mut(app_id) {
            Some(ns) => {
                ns.add_user(id, user_id);
                assert(self@ =~= with_tenant(
                    m,
                    app_id@,
                    set_user(tenant(m, app_id@), id@, Some(user_id@)),
                ));
            },
            None => {},
        }
    }

    /// Forgets the user of connection `id`.
    pub fn remove_user(&mut self, app_id: &String, id: &String)
        requires
            old(self).wf(),
        ensures
            final(self).wf(),
            final(self)@ == with_tenant(
                old(self)@,
                app_id@,
                set_user(tenant(old(self)@, app_id@), id@, None),
            ),
    {
        let ghost m = self@;
        match self.namespaces.get_mut(app_id) {
            Some(ns) => {
                ns.remove_user(id);
                assert(self@ =~= with_tenant(
                    m,
                    app_id@,
                    set_user(tenant(m, app_id@), id@, None),
                ));
            },
            None => {},
        }
    }

    /// The connections that belong to user `user_id`, each once.
    pub fn get_user_sockets(&self, user_id: &String, app_id: &String) -> (ids: Vec<String>)
        requires
            self.wf(),
        ensures
            texts(ids@).no_duplicates(),
            forall|s: Name|
                #![trigger texts(ids@).contains(s)]
                #![trigger owned_by(tenant(self@, app_id@), user_id@, s)]
                texts(ids@).contains(s) <==> owned_by(tenant(self@, app_id@), user_id@, s),
    {
        match self.namespaces.get(app_id) {
            Some(ns) => ns.get_user_sockets(user_id),
            None => {
                let ids: Vec<String> = Vec::new();
                assert(texts(ids@) =~= Seq::<Name>::empty());
                ids
            },
        }
    }

    /// The connections to close so that user `user_id` is cut off: all that
    /// belong to the user, each once. Closing them is the caller's part; each
    /// closed connection is then cleaned up like any other.
    pub fn terminate_user_connections(&self, app_id: &String, user_id: &String) -> (ids: Vec<
        String,
    >)
        requires
            self.wf(),
        ensures
            texts(ids@).no_duplicates(),
            forall|s: Name|
                #![trigger texts(ids@).contains(s)]
                #![trigger owned_by(tenant(self@, app_id@), user_id@, s)]
                texts(ids@).contains(s) <==> owned_by(tenant(self@, app_id@), user_id@, s),
    {
        self.get_user_sockets(user_id, app_id)
    }

    /// Notes that connection `id` was active at `now`.
    pub fn touch(&mut self, app_id: &String, id: &String, now: u64)
        requires
            old(self).wf(),
        ensures
            final(self).wf(),
            final(self)@ == with_tenant(
                old(self)@,
                app_id@,
                touch(tenant(old(self)@, app_id@), id@, now),
            ),
    {
        let ghost m = self@;
        match self.namespaces.get_mut(app_id) {
            Some(ns) => {
                ns.touch(id, now);
                assert(self@ =~= with_tenant(m, app_id@, touch(tenant(m, app_id@), id@, now)));
            },
            None => {},
        }
    }

    /// Registers `id` with tenant `app` as a connection held by another
    /// node, unless `id` is registered already.
    pub fn mirror(&mut self, app: &App, id: &String)
        requires
            old(self).wf(),
        ensures
            final(self).wf(),
            final(self)@ == old(self)@.insert(
                app.id@,
                mirrored(tenant_or_new(old(self)@, app.id@, app.presence_limit()), id@),
            ),
    {
        let ghost m = self@;
        self.ensure_namespace(app);
        let ghost mid = self@;
        match self.namespaces.get_mut(&app.id) {
            Some(ns) => {
                ns.mirror(id);
            },
            None => {},
        }
        proof {
            let before = tenant_or_new(m, app.id@, app.presence_limit());
            assert(mid[app.id@] == before);
            assert(self@ =~= mid.insert(app.id@, mirrored(before, id@)));
            assert(self@ =~= m.insert(app.id@, mirrored(before, id@)));
        }
    }

    /// Drops the record of `id` where it is a connection held by another
    /// node that is in no channel here.
    pub fn tidy(&mut self, app_id: &String, id: &String)
        requires
            old(self).wf(),
        ensures
            final(self).wf(),
            final(self)@ == with_tenant(
                old(self)@,
                app_id@,
                tidied(tenant(old(self)@, app_id@), id@),
            ),
    {
        let ghost m = self@;
        match self.namespaces.get_mut(app_id) {
            Some(ns) => {
                ns.tidy(id);
                assert(self@ =~= with_tenant(m, app_id@, tidied(tenant(m, app_id@), id@)));
            },
            None => {},
        }
    }
}

} // verus!
