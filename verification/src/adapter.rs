//! The adapter capability: what the protocol needs of the state of
//! connections and channels, provided either by the local adapter alone or
//! by a node of a fleet. Which of the two serves is chosen once, when the
//! manager is built.

use crate::app::App;
use crate::channel::PresenceMemberInfo;
use crate::error::Error;
use crate::horizontal::{
    fresh_node, leave_mutation, leave_mutations, lemma_publish_all_keeps, publish_all,
    with_stores, HorizontalAdapter, MutationView,
};
use crate::local_adapter::{tenant, tenant_or_new, with_tenant, LocalAdapter};
use crate::model::{
    add_socket, departs, disconnect, inv, join_checked, join_verdict, leave, lemma_empty_inv,
    recipients, set_user, subscribe, subscribed, touch, vacates, JoinOutcome, Name,
    NamespaceView,
};
use crate::names::texts;
use crate::namespace::{left_pairs, text_of, text_of_ref, Departure, LeaveOutcome};
use vstd::prelude::*;

verus! {

/// The state of connections and channels on this node, alone or as part of
/// a fleet.
pub enum ConnectionManager {
    Local(LocalAdapter),
    Horizontal(HorizontalAdapter),
}

/// The mutation `m` where `b` holds, none where it does not.
pub open spec fn told(b: bool, m: MutationView) -> Seq<MutationView> {
    if b {
        seq![m]
    } else {
        Seq::empty()
    }
}

impl ConnectionManager {
    pub open spec fn wf(&self) -> bool {
        match *self {
            ConnectionManager::Local(a) => a.wf(),
            ConnectionManager::Horizontal(h) => h.wf(),
        }
    }

    /// The stores of the tenants on this node.
    pub open spec fn stores(&self) -> Map<Name, NamespaceView> {
        match *self {
            ConnectionManager::Local(a) => a@,
            ConnectionManager::Horizontal(h) => h@.stores,
        }
    }

    /// Whether manager `before` has become `after` by a step that left the
    /// stores as `stores` and, on a node of a fleet, published the mutations
    /// `ms` of tenant `app` in order. Alone, a manager publishes nothing.
    pub open spec fn moved(
        before: Self,
        after: Self,
        stores: Map<Name, NamespaceView>,
        app: Name,
        ms: Seq<MutationView>,
    ) -> bool {
        match (before, after) {
            (ConnectionManager::Local(a), ConnectionManager::Local(b)) => b@ == stores,
            (ConnectionManager::Horizontal(g), ConnectionManager::Horizontal(h)) => h@
                == publish_all(with_stores(g@, stores), app, ms),
            _ => false,
        }
    }

    /// The state of every tenant of a sound manager is consistent; so is
    /// the empty state that stands for a tenant without a store.
    pub proof fn lemma_tenant_inv(self, app: Name)
        requires
            self.wf(),
        ensures
            inv(tenant(self.stores(), app)),
    {
        if self.stores().contains_key(app) {
            match self {
                ConnectionManager::Local(a) => {
                    a.lemma_wf_inv(app);
                },
                ConnectionManager::Horizontal(h) => {
                    h.lemma_wf_inv(app);
                },
            }
        } else {
            lemma_empty_inv(None);
        }
    }

    /// After a step the stores are what the step left them as.
    pub proof fn lemma_moved_stores(
        before: Self,
        after: Self,
        stores: Map<Name, NamespaceView>,
        app: Name,
        ms: Seq<MutationView>,
    )
        requires
            Self::moved(before, after, stores, app, ms),
        ensures
            after.stores() == stores,
            before is Local <==> after is Local,
    {
        match (before, after) {
            (ConnectionManager::Horizontal(g), ConnectionManager::Horizontal(h)) => {
                lemma_publish_all_keeps(with_stores(g@, stores), app, ms);
            },
            _ => {},
        }
    }

    /// A step that publishes nothing and leaves the stores where they were
    /// is no step.
    pub proof fn lemma_moved_nowhere(self, app: Name)
        ensures
            Self::moved(self, self, self.stores(), app, Seq::empty()),
    {
        match self {
            ConnectionManager::Local(a) => {},
            ConnectionManager::Horizontal(h) => {
                assert(with_stores(h@, h@.stores) =~= h@);
            },
        }
    }

    /// A manager that serves alone.
    pub fn local() -> (m: Self)
        ensures
            m.wf(),
            m is Local,
            m.stores() == Map::<Name, NamespaceView>::empty(),
    {
        ConnectionManager::Local(LocalAdapter::new())
    }

    /// A manager that serves as node `node_id` of a fleet: a node that
    /// has no tenant, knows no peer, waits for no query and has published
    /// nothing.
    pub fn horizontal(node_id: String) -> (m: Self)
        ensures
            m.wf(),
            m is Horizontal,
            m.stores() == Map::<Name, NamespaceView>::empty(),
            m->Horizontal_0@ == fresh_node(node_id@),
    {
        ConnectionManager::Horizontal(HorizontalAdapter::new(node_id))
    }

    /// The local stores, for reading.
    pub fn reader(&self) -> (a: &LocalAdapter)
        requires
            self.wf(),
        ensures
            a.wf(),
            a@ == self.stores(),
    {
        match self {
            ConnectionManager::Local(a) => a,
            ConnectionManager::Horizontal(h) => h.local(),
        }
    }

    /// Makes sure that tenant `app` has a store.
    pub fn ensure_namespace(&mut self, app: &App)
        requires
            old(self).wf(),
        ensures
            final(self).wf(),
            Self::moved(
                *old(self),
                *final(self),
                old(self).stores().insert(
                    app.id@,
                    tenant_or_new(old(self).stores(), app.id@, app.presence_limit()),
                ),
                app.id@,
                Seq::empty(),
            ),
    {
        match self {
            ConnectionManager::Local(a) => {
                a.ensure_namespace(app);
            },
            ConnectionManager::Horizontal(h) => {
                h.ensure_namespace(app);
            },
        }
    }

    /// Registers connection `id` with tenant `app`. An id that is taken is
    /// refused.
    pub fn add_socket(&mut self, app: &App, id: String, now: u64) -> (r: Result<(), Error>)
        requires
            old(self).wf(),
        ensures
            final(self).wf(),
            r is Ok <==> !tenant(old(self).stores(), app.id@).connections.contains_key(id@),
            r is Err ==> r == Err::<(), Error>(Error::AlreadyExists) && Self::moved(
                *old(self),
                *final(self),
                old(self).stores(),
                app.id@,
                Seq::empty(),
            ),
            r is Ok ==> Self::moved(
                *old(self),
                *final(self),
                old(self).stores().insert(
                    app.id@,
                    add_socket(
                        tenant_or_new(old(self).stores(), app.id@, app.presence_limit()),
                        id@,
                        true,
                        now,
                    ),
                ),
                app.id@,
                Seq::empty(),
            ),
            r is Err ==> final(self).stores() == old(self).stores(),
    {
        match self {
            ConnectionManager::Local(a) => a.add_socket(app, id, now),
            ConnectionManager::Horizontal(h) => {
                assert(with_stores(h@, h@.stores) =~= h@);
                h.add_socket(app, id, now)
            },
        }
    }

    /// Subscribes connection `id` to `channel`; tells whether the channel
    /// came into being.
    pub fn add_to_channel(&mut self, app_id: &String, channel: &String, id: &String) -> (first:
        bool)
        requires
            old(self).wf(),
        ensures
            final(self).wf(),
            Self::moved(
                *old(self),
                *final(self),
                with_tenant(
                    old(self).stores(),
                    app_id@,
                    subscribe(tenant(old(self).stores(), app_id@), id@, channel@),
                ),
                app_id@,
                told(
                    tenant(old(self).stores(), app_id@).connections.contains_key(id@),
                    MutationView::AddToChannel { channel: channel@, socket_id: id@ },
                ),
            ),
            first == (tenant(old(self).stores(), app_id@).connections.contains_key(id@) && !tenant(
                old(self).stores(),
                app_id@,
            ).channels.contains_key(channel@)),
    {
        match self {
            ConnectionManager::Local(a) => a.add_to_channel(app_id, channel, id),
            ConnectionManager::Horizontal(h) => {
                proof {
                    lemma_told(
                        with_stores(
                            h@,
                            with_tenant(
                                h@.stores,
                                app_id@,
                                subscribe(tenant(h@.stores, app_id@), id@, channel@),
                            ),
                        ),
                        app_id@,
                        tenant(h@.stores, app_id@).connections.contains_key(id@),
                        MutationView::AddToChannel { channel: channel@, socket_id: id@ },
                    );
                }
                h.add_to_channel(app_id, channel, id)
            },
        }
    }

    /// Takes connection `id` out of `channel`, with its presence identity.
    pub fn leave(&mut self, app_id: &String, channel: &String, id: &String) -> (out: LeaveOutcome)
        requires
            old(self).wf(),
        ensures
            final(self).wf(),
            Self::moved(
                *old(self),
                *final(self),
                with_tenant(
                    old(self).stores(),
                    app_id@,
                    leave(tenant(old(self).stores(), app_id@), id@, channel@),
                ),
                app_id@,
                told(
                    subscribed(tenant(old(self).stores(), app_id@), id@, channel@),
                    leave_mutation(tenant(old(self).stores(), app_id@), id@, channel@),
                ),
            ),
            out.left == subscribed(tenant(old(self).stores(), app_id@), id@, channel@),
            out.vacated == vacates(tenant(old(self).stores(), app_id@), id@, channel@),
            text_of(out.member_removed) == departs(
                tenant(old(self).stores(), app_id@),
                id@,
                channel@,
            ),
    {
        match self {
            ConnectionManager::Local(a) => a.leave(app_id, channel, id),
            ConnectionManager::Horizontal(h) => {
                proof {
                    lemma_told(
                        with_stores(
                            h@,
                            with_tenant(
                                h@.stores,
                                app_id@,
                                leave(tenant(h@.stores, app_id@), id@, channel@),
                            ),
                        ),
                        app_id@,
                        subscribed(tenant(h@.stores, app_id@), id@, channel@),
                        leave_mutation(tenant(h@.stores, app_id@), id@, channel@),
                    );
                }
                h.leave(app_id, channel, id)
            },
        }
    }

    /// Makes connection `id` present in presence channel `channel` as `who`.
    pub fn join_presence(
        &mut self,
        app_id: &String,
        channel: &String,
        id: &String,
        who: &PresenceMemberInfo,
    ) -> (r: Result<JoinOutcome, Error>)
        requires
            old(self).wf(),
        ensures
            final(self).wf(),
            r == join_verdict(tenant(old(self).stores(), app_id@), id@, channel@, who@.user_id),
            Self::moved(
                *old(self),
                *final(self),
                with_tenant(
                    old(self).stores(),
                    app_id@,
                    join_checked(tenant(old(self).stores(), app_id@), id@, channel@, who@),
                ),
                app_id@,
                told(
                    r is Ok,
                    MutationView::PresenceJoin { channel: channel@, socket_id: id@, member: who@ },
                ),
            ),
            r is Err ==> final(self).stores() == old(self).stores(),
    {
        match self {
            ConnectionManager::Local(a) => a.join_presence(app_id, channel, id, who),
            ConnectionManager::Horizontal(h) => {
                let ghost g = h@;
                let r = h.join_presence(app_id, channel, id, who);
                proof {
                    let next = with_stores(
                        g,
                        with_tenant(
                            g.stores,
                            app_id@,
                            join_checked(tenant(g.stores, app_id@), id@, channel@, who@),
                        ),
                    );
                    lemma_told(
                        next,
                        app_id@,
                        r is Ok,
                        MutationView::PresenceJoin {
                            channel: channel@,
                            socket_id: id@,
                            member: who@,
                        },
                    );
                }
                r
            },
        }
    }

    /// The connections on this node that an event for `channel` goes to:
    /// every member held here but `except`, each once. A node of a fleet
    /// asks its peers to deliver the event to theirs.
    pub fn send(
        &mut self,
        channel: &String,
        event: &String,
        data: &String,
        except: Option<&String>,
        app_id: &String,
    ) -> (ids: Vec<String>)
        requires
            old(self).wf(),
        ensures
            final(self).wf(),
            Self::moved(
                *old(self),
                *final(self),
                old(self).stores(),
                app_id@,
                seq![
                    MutationView::Send {
                        channel: channel@,
                        event: event@,
                        data: data@,
                        except: text_of_ref(except),
                    },
                ],
            ),
            texts(ids@).no_duplicates(),
            texts(ids@).to_set() == recipients(
                tenant(old(self).stores(), app_id@),
                channel@,
                text_of_ref(except),
            ),
    {
        match self {
            ConnectionManager::Local(a) => {
                let ids = a.send(channel, except, app_id);
                assert(texts(ids@).to_set() =~= recipients(
                    tenant(a@, app_id@),
                    channel@,
                    text_of_ref(except),
                ));
                ids
            },
            ConnectionManager::Horizontal(h) => {
                proof {
                    lemma_told(
                        h@,
                        app_id@,
                        true,
                        MutationView::Send {
                            channel: channel@,
                            event: event@,
                            data: data@,
                            except: text_of_ref(except),
                        },
                    );
                    assert(with_stores(h@, h@.stores) =~= h@);
                }
                h.send(channel, event, data, except, app_id)
            },
        }
    }

    /// Ends connection `id` of tenant `app_id` and tells what that did to
    /// channels and presence.
    pub fn cleanup_connection(&mut self, app_id: &String, id: &String) -> (out: Departure)
        requires
            old(self).wf(),
        ensures
            final(self).wf(),
            Self::moved(
                *old(self),
                *final(self),
                with_tenant(
                    old(self).stores(),
                    app_id@,
                    disconnect(tenant(old(self).stores(), app_id@), id@),
                ),
                app_id@,
                leave_mutations(texts(out.channels@), id@),
            ),
            out.removed == tenant(old(self).stores(), app_id@).connections.contains_key(id@),
            texts(out.channels@).no_duplicates(),
            forall|c: Name|
                #![trigger texts(out.channels@).contains(c)]
                #![trigger subscribed(tenant(old(self).stores(), app_id@), id@, c)]
                texts(out.channels@).contains(c) <==> subscribed(
                    tenant(old(self).stores(), app_id@),
                    id@,
                    c,
                ),
            texts(out.vacated@).no_duplicates(),
            forall|c: Name|
                #![trigger texts(out.vacated@).contains(c)]
                #![trigger vacates(tenant(old(self).stores(), app_id@), id@, c)]
                texts(out.vacated@).contains(c) <==> vacates(
                    tenant(old(self).stores(), app_id@),
                    id@,
                    c,
                ),
            left_pairs(out.members_removed@).no_duplicates(),
            forall|c: Name, u: Name|
                #![trigger left_pairs(out.members_removed@).contains((c, u))]
                left_pairs(out.members_removed@).contains((c, u)) <==> departs(
                    tenant(old(self).stores(), app_id@),
                    id@,
                    c,
                ) == Some(u),
    {
        match self {
            ConnectionManager::Local(a) => a.cleanup_connection(app_id, id),
            ConnectionManager::Horizontal(h) => h.cleanup_connection(app_id, id),
        }
    }

    /// Records on connection `id` the user who signed in.
    pub fn add_user(&mut self, app_id: &String, id: &String, user_id: String)
        requires
            old(self).wf(),
        ensures
            final(self).wf(),
            Self::moved(
                *old(self),
                *final(self),
                with_tenant(
                    old(self).stores(),
                    app_id@,
                    set_user(tenant(old(self).stores(), app_id@), id@, Some(user_id@)),
                ),
                app_id@,
                Seq::empty(),
            ),
    {
        match self {
            ConnectionManager::Local(a) => {
                a.add_user(app_id, id, user_id);
            },
            ConnectionManager::Horizontal(h) => {
                h.add_user(app_id, id, user_id);
            },
        }
    }

    /// Notes that connection `id` was active at `now`.
    pub fn touch(&mut self, app_id: &String, id: &String, now: u64)
        requires
            old(self).wf(),
        ensures
            final(self).wf(),
            Self::moved(
                *old(self),
                *final(self),
                with_tenant(
                    old(self).stores(),
                    app_id@,
                    touch(tenant(old(self).stores(), app_id@), id@, now),
                ),
                app_id@,
                Seq::empty(),
            ),
    {
        match self {
            ConnectionManager::Local(a) => {
                a.touch(app_id, id, now);
            },
            ConnectionManager::Horizontal(h) => {
                h.touch(app_id, id, now);
            },
        }
    }
}

/// To publish one mutation where a condition holds is to publish the list
/// of it, which is empty where the condition does not hold.
pub proof fn lemma_told(
    h: crate::horizontal::HorizontalView,
    app: Name,
    b: bool,
    m: MutationView,
)
    ensures
        publish_all(h, app, told(b, m)) == crate::horizontal::publish_if(b, h, app, m),
{
    if b {
        assert(seq![m].drop_last() =~= Seq::<MutationView>::empty());
        assert(seq![m].last() == m);
        assert(publish_all(h, app, seq![m].drop_last()) == h);
    }
}

} // verus!
