//! Histories: what holds of a tenant's state after any sequence of steps,
//! from the first connection on.

use crate::error::Error;
use crate::model::{
    add_socket, admits, can_join, departs, disconnect, empty, holders, identified, inv, join,
    join_checked, join_verdict, leave, lemma_add_socket_inv, lemma_disconnect_inv,
    lemma_empty_inv, lemma_holders_finite, lemma_join_inv, lemma_leave_inv, lemma_mirrored_inv,
    lemma_set_user_inv, lemma_subscribe_inv, lemma_tidied_inv, lemma_touch_inv, member,
    mirrored, present, presence_count, refcount, set_user, subscribe, subscribed, subscribers,
    tidied, touch, Member, Name, NamespaceView,
};
use vstd::prelude::*;
use vstd::set_lib::lemma_set_empty_equivalency_len;

verus! {

/// One step in the life of a tenant's state.
pub enum Step {
    /// A connection is accepted under an id.
    AddSocket { id: Name, local: bool, now: u64 },
    /// A connection subscribes to a channel.
    Subscribe { id: Name, channel: Name },
    /// A connection asks to be present in a channel.
    Join { id: Name, channel: Name, who: Member },
    /// A connection unsubscribes from a channel.
    Leave { id: Name, channel: Name },
    /// A connection ends.
    Disconnect { id: Name },
    /// A connection signs in or out.
    SetUser { id: Name, user: Option<Name> },
    /// A connection shows activity.
    Touch { id: Name, now: u64 },
    /// A connection held by another node becomes known here.
    Mirror { id: Name },
    /// A connection held by another node is forgotten if it is in no channel
    /// here.
    Tidy { id: Name },
}

/// The state after one step. A step that is refused (an id that is taken, a
/// join that is not possible or not admitted) leaves the state as it was.
pub open spec fn step(v: NamespaceView, op: Step) -> NamespaceView {
    match op {
        Step::AddSocket { id, local, now } => if v.connections.contains_key(id) {
            v
        } else {
            add_socket(v, id, local, now)
        },
        Step::Subscribe { id, channel } => subscribe(v, id, channel),
        Step::Join { id, channel, who } => join_checked(v, id, channel, who),
        Step::Leave { id, channel } => leave(v, id, channel),
        Step::Disconnect { id } => disconnect(v, id),
        Step::SetUser { id, user } => set_user(v, id, user),
        Step::Touch { id, now } => touch(v, id, now),
        Step::Mirror { id } => mirrored(v, id),
        Step::Tidy { id } => tidied(v, id),
    }
}

/// The state after a sequence of steps, taken in order.
pub open spec fn run(v: NamespaceView, ops: Seq<Step>) -> NamespaceView
    decreases ops.len(),
{
    if ops.len() == 0 {
        v
    } else {
        step(run(v, ops.drop_last()), ops.last())
    }
}

/// Channel `c` lists exactly the connections subscribed to it, and it
/// exists exactly when there is such a connection.
pub open spec fn channel_matches_subscribers(v: NamespaceView, c: Name) -> bool {
    &&& subscribers(v, c).finite()
    &&& v.channels.contains_key(c) ==> v.channels[c].members == subscribers(v, c)
    &&& v.channels.contains_key(c) ==> v.channels[c].members.len() == subscribers(v, c).len()
    &&& v.channels.contains_key(c) <==> subscribers(v, c).len() > 0
}

/// Every step keeps a consistent state consistent.
pub proof fn lemma_step_inv(v: NamespaceView, op: Step)
    requires
        inv(v),
    ensures
        inv(step(v, op)),
{
    match op {
        Step::AddSocket { id, local, now } => {
            if !v.connections.contains_key(id) {
                lemma_add_socket_inv(v, id, local, now);
            }
        },
        Step::Subscribe { id, channel } => {
            lemma_subscribe_inv(v, id, channel);
        },
        Step::Join { id, channel, who } => {
            if can_join(v, id, channel) && admits(v, channel, who.user_id) {
                lemma_join_inv(v, id, channel, who);
            }
        },
        Step::Leave { id, channel } => {
            lemma_leave_inv(v, id, channel);
        },
        Step::Disconnect { id } => {
            lemma_disconnect_inv(v, id);
        },
        Step::SetUser { id, user } => {
            lemma_set_user_inv(v, id, user);
        },
        Step::Touch { id, now } => {
            lemma_touch_inv(v, id, now);
        },
        Step::Mirror { id } => {
            lemma_mirrored_inv(v, id);
        },
        Step::Tidy { id } => {
            lemma_tidied_inv(v, id);
        },
    }
}

/// No step changes the limit.
pub proof fn lemma_run_limit(v: NamespaceView, ops: Seq<Step>)
    ensures
        run(v, ops).limit == v.limit,
    decreases ops.len(),
{
    if ops.len() > 0 {
        lemma_run_limit(v, ops.drop_last());
    }
}

/// After any sequence of steps from the empty state, the state is
/// consistent.
pub proof fn lemma_history_consistent(limit: Option<nat>, ops: Seq<Step>)
    ensures
        inv(run(empty(limit), ops)),
    decreases ops.len(),
{
    if ops.len() == 0 {
        lemma_empty_inv(limit);
    } else {
        lemma_history_consistent(limit, ops.drop_last());
        lemma_step_inv(run(empty(limit), ops.drop_last()), ops.last());
    }
}

/// In a consistent state a channel's members are the connections subscribed
/// to it, as many as there are, and the channel exists exactly when its
/// size is not zero.
pub proof fn lemma_members_are_subscribers(v: NamespaceView, c: Name)
    requires
        inv(v),
    ensures
        channel_matches_subscribers(v, c),
{
    vstd::set_lib::lemma_len_subset(subscribers(v, c), v.connections.dom());
    if v.channels.contains_key(c) {
        assert forall|s: Name| v.channels[c].members.contains(s) == subscribers(v, c).contains(
            s,
        ) by {
            assert(subscribed(v, s, c) == member(v, c, s));
        }
        assert(v.channels[c].members =~= subscribers(v, c));
    } else {
        assert forall|s: Name| !subscribers(v, c).contains(s) by {
            assert(subscribed(v, s, c) == member(v, c, s));
        }
        assert(subscribers(v, c) =~= Set::<Name>::empty());
    }
}

/// After any sequence of subscriptions, joins, unsubscriptions,
/// disconnections and replays, a channel's member set is as large as the
/// number of connections now subscribed to it, and the channel is absent
/// exactly when that number is zero.
pub proof fn theorem_membership_after_any_history(limit: Option<nat>, ops: Seq<Step>, c: Name)
    ensures
        channel_matches_subscribers(run(empty(limit), ops), c),
{
    lemma_history_consistent(limit, ops);
    lemma_members_are_subscribers(run(empty(limit), ops), c);
}

/// After any sequence of steps, no channel has more users present than the
/// tenant's limit allows.
pub proof fn theorem_presence_within_limit(limit: nat, ops: Seq<Step>, c: Name)
    ensures
        presence_count(run(empty(Some(limit)), ops), c) <= limit,
{
    lemma_history_consistent(Some(limit), ops);
    lemma_run_limit(empty(Some(limit)), ops);
    let v = run(empty(Some(limit)), ops);
    if v.channels.contains_key(c) {
        assert(v.channels[c].presence.dom().len() <= limit);
    }
}

/// A join that would take a channel over the limit is refused as such and
/// leaves the state as it was: the connection could join, the user is not
/// present yet, and the channel is full.
pub proof fn theorem_join_over_limit_refused(
    v: NamespaceView,
    s: Name,
    c: Name,
    who: Member,
    limit: nat,
)
    requires
        inv(v),
        can_join(v, s, c),
        v.limit == Some(limit),
        !present(v, c, who.user_id),
        presence_count(v, c) >= limit,
    ensures
        join_verdict(v, s, c, who.user_id) == Err::<crate::model::JoinOutcome, Error>(
            Error::PresenceLimitExceeded,
        ),
        join_checked(v, s, c, who) == v,
        step(v, Step::Join { id: s, channel: c, who }) == v,
{
}

/// A join that is admitted makes the user present and keeps the count of
/// present users within the limit.
pub proof fn theorem_join_admitted(v: NamespaceView, s: Name, c: Name, who: Member)
    requires
        inv(v),
        can_join(v, s, c),
        admits(v, c, who.user_id),
    ensures
        join_verdict(v, s, c, who.user_id) is Ok,
        inv(join_checked(v, s, c, who)),
        present(join_checked(v, s, c, who), c, who.user_id),
        identified(join_checked(v, s, c, who), s, c),
        refcount(join_checked(v, s, c, who), c, who.user_id) == refcount(v, c, who.user_id) + 1,
        v.limit matches Some(m) ==> presence_count(join_checked(v, s, c, who), c) <= m,
{
    lemma_join_inv(v, s, c, who);
    let x = join(v, s, c, who);
    assert(x.channels.contains_key(c));
    let w = subscribe(v, s, c);
    assert(refcount(w, c, who.user_id) == refcount(v, c, who.user_id));
}

/// A connection that ends is in no channel afterwards, and nothing lists
/// it as registered.
pub proof fn theorem_disconnect_leaves_every_channel(v: NamespaceView, s: Name)
    requires
        inv(v),
    ensures
        inv(disconnect(v, s)),
        !disconnect(v, s).connections.contains_key(s),
        forall|c: Name| !member(disconnect(v, s), c, s),
        forall|c: Name, u: Name| !holders(disconnect(v, s), c, u).contains(s),
{
    lemma_disconnect_inv(v, s);
}

/// When a connection leaves a channel, a user stops being present exactly
/// when the connection was present as that user and was the only one: the
/// count kept for the user is then one, and only this connection holds it.
pub proof fn theorem_departs_iff_last_holder(v: NamespaceView, s: Name, c: Name, u: Name)
    requires
        inv(v),
    ensures
        departs(v, s, c) == Some(u) <==> (identified(v, s, c) && v.connections[s].presence[c].user_id
            == u && holders(v, c, u) == Set::<Name>::empty().insert(s)),
        departs(v, s, c) == Some(u) ==> refcount(v, c, u) == 1,
{
    if identified(v, s, c) && v.connections[s].presence[c].user_id == u {
        assert(subscribed(v, s, c));
        lemma_holders_finite(v, c, u);
        assert(holders(v, c, u).contains(s));
        assert(holders(v, c, u).len() == refcount(v, c, u));
        let rest = holders(v, c, u).remove(s);
        lemma_set_empty_equivalency_len(rest);
        if refcount(v, c, u) <= 1 {
            assert(rest =~= Set::<Name>::empty());
            assert(holders(v, c, u) =~= Set::<Name>::empty().insert(s));
        }
        if holders(v, c, u) == Set::<Name>::empty().insert(s) {
            assert(holders(v, c, u).len() == 1);
        }
    }
}

/// An id that is taken is not registered again: the step changes nothing.
pub proof fn theorem_duplicate_id_changes_nothing(v: NamespaceView, s: Name, local: bool, now: u64)
    requires
        v.connections.contains_key(s),
    ensures
        step(v, Step::AddSocket { id: s, local, now }) == v,
{
}

} // verus!
