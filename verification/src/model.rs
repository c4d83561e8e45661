//! The mathematical model of one tenant's state: who is connected, who is in
//! which channel, and who is present under which identity. The executable
//! store refines these definitions; the lemmas show that every step keeps the
//! state consistent.

use vstd::prelude::*;
use vstd::set_lib::lemma_len_subset;
use vstd::set_lib::lemma_set_empty_equivalency_len;

verus! {

/// A connection id, a channel name, a user id or any other piece of text.
pub type Name = Seq<char>;

/// What a channel's name says about who may join it.
#[derive(Clone, Copy, Debug, PartialEq, Eq, Structural)]
pub enum ChannelKind {
    Public,
    Private,
    Presence,
    Encrypted,
}

/// The kind of the channel called `name`, read off its prefix.
pub open spec fn kind_of(name: Name) -> ChannelKind {
    if "private-encrypted-"@.is_prefix_of(name) {
        ChannelKind::Encrypted
    } else if "private-"@.is_prefix_of(name) {
        ChannelKind::Private
    } else if "presence-"@.is_prefix_of(name) {
        ChannelKind::Presence
    } else {
        ChannelKind::Public
    }
}

/// The identity under which a connection is present in a channel.
#[verifier::ext_equal]
pub struct Member {
    pub user_id: Name,
    pub info: Name,
}

#[verifier::ext_equal]
pub struct ConnectionView {
    /// Whether this node holds the connection's transport.
    pub local: bool,
    pub channels: Set<Name>,
    /// Presence identity per presence channel joined.
    pub presence: Map<Name, Member>,
    /// The user that signed in on this connection.
    pub user: Option<Name>,
    pub last_activity: u64,
}

/// A user's entry in a presence channel.
#[verifier::ext_equal]
pub struct PresenceView {
    /// How many connections are present as this user.
    pub refcount: nat,
    pub info: Name,
}

#[verifier::ext_equal]
pub struct ChannelView {
    pub kind: ChannelKind,
    pub members: Set<Name>,
    pub presence: Map<Name, PresenceView>,
}

#[verifier::ext_equal]
pub struct NamespaceView {
    /// The most users that may be present in one channel.
    pub limit: Option<nat>,
    pub connections: Map<Name, ConnectionView>,
    pub channels: Map<Name, ChannelView>,
}

/// Connection `s` lists channel `c` among its subscriptions.
pub open spec fn subscribed(v: NamespaceView, s: Name, c: Name) -> bool {
    v.connections.contains_key(s) && v.connections[s].channels.contains(c)
}

/// Channel `c` lists connection `s` among its members.
pub open spec fn member(v: NamespaceView, c: Name, s: Name) -> bool {
    v.channels.contains_key(c) && v.channels[c].members.contains(s)
}

/// Connection `s` has a presence identity in channel `c`.
pub open spec fn identified(v: NamespaceView, s: Name, c: Name) -> bool {
    v.connections.contains_key(s) && v.connections[s].presence.contains_key(c)
}

/// User `u` has an entry in channel `c`.
pub open spec fn present(v: NamespaceView, c: Name, u: Name) -> bool {
    v.channels.contains_key(c) && v.channels[c].presence.contains_key(u)
}

/// The connections that are present in `c` as user `u`.
pub open spec fn holders(v: NamespaceView, c: Name, u: Name) -> Set<Name> {
    Set::new(|s: Name| identified(v, s, c) && v.connections[s].presence[c].user_id == u)
}

/// The connections that list `c` among their subscriptions.
pub open spec fn subscribers(v: NamespaceView, c: Name) -> Set<Name> {
    Set::new(|s: Name| subscribed(v, s, c))
}

/// The count kept for user `u` in channel `c`; zero where there is no entry.
pub open spec fn refcount(v: NamespaceView, c: Name, u: Name) -> nat {
    if present(v, c, u) {
        v.channels[c].presence[u].refcount
    } else {
        0
    }
}

/// How many users are present in channel `c`.
pub open spec fn presence_count(v: NamespaceView, c: Name) -> nat {
    if v.channels.contains_key(c) {
        v.channels[c].presence.dom().len()
    } else {
        0
    }
}

pub open spec fn finite(v: NamespaceView) -> bool {
    &&& v.connections.dom().finite()
    &&& v.channels.dom().finite()
    &&& forall|s: Name|
        v.connections.contains_key(s) ==> (#[trigger] v.connections[s]).channels.finite()
            && v.connections[s].presence.dom().finite()
    &&& forall|c: Name|
        v.channels.contains_key(c) ==> (#[trigger] v.channels[c]).members.finite()
            && v.channels[c].presence.dom().finite()
}

/// The two membership indexes agree.
pub open spec fn membership_agrees(v: NamespaceView) -> bool {
    forall|s: Name, c: Name|
        #![trigger subscribed(v, s, c)]
        #![trigger member(v, c, s)]
        subscribed(v, s, c) == member(v, c, s)
}

/// Every channel that exists has a member and the kind its name gives it.
pub open spec fn channels_live(v: NamespaceView) -> bool {
    forall|c: Name| #[trigger]
        v.channels.contains_key(c) ==> v.channels[c].members.len() > 0 && v.channels[c].kind
            == kind_of(c)
}

/// A presence identity is held only in a presence channel subscribed to.
pub open spec fn identities_grounded(v: NamespaceView) -> bool {
    forall|s: Name, c: Name| #[trigger]
        identified(v, s, c) ==> subscribed(v, s, c) && kind_of(c) == ChannelKind::Presence
}

/// Each user's count is the number of connections present as that user, and
/// no entry has count zero.
pub open spec fn refcounts_exact(v: NamespaceView) -> bool {
    forall|c: Name, u: Name|
        #![trigger holders(v, c, u)]
        #![trigger present(v, c, u)]
        holders(v, c, u).len() == refcount(v, c, u) && (present(v, c, u) ==> refcount(v, c, u)
            > 0)
}

/// No channel has more users present than the limit allows.
pub open spec fn within_limit(v: NamespaceView) -> bool {
    v.limit matches Some(m) ==> forall|c: Name| #[trigger]
        v.channels.contains_key(c) ==> v.channels[c].presence.dom().len() <= m
}

/// The consistency of a tenant's state.
pub open spec fn inv(v: NamespaceView) -> bool {
    &&& finite(v)
    &&& membership_agrees(v)
    &&& channels_live(v)
    &&& identities_grounded(v)
    &&& refcounts_exact(v)
    &&& within_limit(v)
}

/// A tenant without connections and channels.
pub open spec fn empty(limit: Option<nat>) -> NamespaceView {
    NamespaceView { limit, connections: Map::empty(), channels: Map::empty() }
}

/// A connection that has just been accepted.
pub open spec fn fresh_connection(local: bool, now: u64) -> ConnectionView {
    ConnectionView {
        local,
        channels: Set::empty(),
        presence: Map::empty(),
        user: None,
        last_activity: now,
    }
}

/// A channel before its first member.
pub open spec fn fresh_channel(c: Name) -> ChannelView {
    ChannelView { kind: kind_of(c), members: Set::empty(), presence: Map::empty() }
}

/// The state after connection `s` has been registered.
pub open spec fn add_socket(v: NamespaceView, s: Name, local: bool, now: u64) -> NamespaceView {
    NamespaceView { connections: v.connections.insert(s, fresh_connection(local, now)), ..v }
}

/// Channel `c` as it stands, or as it would be created.
pub open spec fn channel_or_fresh(v: NamespaceView, c: Name) -> ChannelView {
    if v.channels.contains_key(c) {
        v.channels[c]
    } else {
        fresh_channel(c)
    }
}

/// The state after connection `s` has subscribed to channel `c`. A connection
/// that is not registered changes nothing.
pub open spec fn subscribe(v: NamespaceView, s: Name, c: Name) -> NamespaceView {
    if !v.connections.contains_key(s) {
        v
    } else {
        let conn = v.connections[s];
        let chan = channel_or_fresh(v, c);
        NamespaceView {
            connections: v.connections.insert(
                s,
                ConnectionView { channels: conn.channels.insert(c), ..conn },
            ),
            channels: v.channels.insert(
                c,
                ChannelView { members: chan.members.insert(s), ..chan },
            ),
            ..v
        }
    }
}

/// Whether the limit leaves room for user `u` in channel `c`: a user who is
/// present already takes no further place.
pub open spec fn admits(v: NamespaceView, c: Name, u: Name) -> bool {
    v.limit matches Some(m) ==> present(v, c, u) || presence_count(v, c) < m
}

/// Whether connection `s` can become present in channel `c`.
pub open spec fn can_join(v: NamespaceView, s: Name, c: Name) -> bool {
    &&& v.connections.contains_key(s)
    &&& kind_of(c) == ChannelKind::Presence
    &&& !identified(v, s, c)
}

/// The entry of user `who.user_id` once one more connection is present.
pub open spec fn entry_after_join(chan: ChannelView, who: Member) -> PresenceView {
    if chan.presence.contains_key(who.user_id) {
        PresenceView {
            refcount: chan.presence[who.user_id].refcount + 1,
            ..chan.presence[who.user_id]
        }
    } else {
        PresenceView { refcount: 1, info: who.info }
    }
}

/// The state after connection `s` has joined presence channel `c` as `who`.
pub open spec fn join(v: NamespaceView, s: Name, c: Name, who: Member) -> NamespaceView {
    let w = subscribe(v, s, c);
    let conn = w.connections[s];
    let chan = w.channels[c];
    NamespaceView {
        connections: w.connections.insert(
            s,
            ConnectionView { presence: conn.presence.insert(c, who), ..conn },
        ),
        channels: w.channels.insert(
            c,
            ChannelView {
                presence: chan.presence.insert(who.user_id, entry_after_join(chan, who)),
                ..chan
            },
        ),
        ..w
    }
}

/// A channel's presence entries after a connection with `identity` has left.
pub open spec fn presence_after_leave(
    presence: Map<Name, PresenceView>,
    identity: Option<Member>,
) -> Map<Name, PresenceView> {
    match identity {
        None => presence,
        Some(who) => if presence.contains_key(who.user_id) && presence[who.user_id].refcount
            > 1 {
            presence.insert(
                who.user_id,
                PresenceView {
                    refcount: (presence[who.user_id].refcount - 1) as nat,
                    ..presence[who.user_id]
                },
            )
        } else {
            presence.remove(who.user_id)
        },
    }
}

/// The presence identity of `s` in `c`, if it has one.
pub open spec fn identity_of(v: NamespaceView, s: Name, c: Name) -> Option<Member> {
    if identified(v, s, c) {
        Some(v.connections[s].presence[c])
    } else {
        None
    }
}

/// Channel `c` after connection `s` has left it.
pub open spec fn channel_after_leave(v: NamespaceView, s: Name, c: Name) -> ChannelView {
    let chan = v.channels[c];
    ChannelView {
        members: chan.members.remove(s),
        presence: presence_after_leave(chan.presence, identity_of(v, s, c)),
        ..chan
    }
}

/// Whether `s` is the only member of `c`, so that `c` goes when `s` leaves.
pub open spec fn vacates(v: NamespaceView, s: Name, c: Name) -> bool {
    subscribed(v, s, c) && v.channels.contains_key(c) && v.channels[c].members.remove(s).len()
        == 0
}

/// The user who stops being present in `c` when `s` leaves it: the one `s`
/// is present as, if no other connection is.
pub open spec fn departs(v: NamespaceView, s: Name, c: Name) -> Option<Name> {
    if subscribed(v, s, c) && identified(v, s, c) && refcount(
        v,
        c,
        v.connections[s].presence[c].user_id,
    ) <= 1 {
        Some(v.connections[s].presence[c].user_id)
    } else {
        None
    }
}

/// The state after connection `s` has left channel `c`. A connection that is
/// not subscribed to `c` changes nothing.
pub open spec fn leave(v: NamespaceView, s: Name, c: Name) -> NamespaceView {
    if !subscribed(v, s, c) {
        v
    } else {
        let conn = v.connections[s];
        NamespaceView {
            connections: v.connections.insert(
                s,
                ConnectionView {
                    channels: conn.channels.remove(c),
                    presence: conn.presence.remove(c),
                    ..conn
                },
            ),
            channels: if vacates(v, s, c) {
                v.channels.remove(c)
            } else {
                v.channels.insert(c, channel_after_leave(v, s, c))
            },
            ..v
        }
    }
}

/// What a presence join did.
#[derive(Clone, Copy, Debug, PartialEq, Eq, Structural)]
pub struct JoinOutcome {
    /// The channel came into being with this join.
    pub occupied: bool,
    /// The user was not present in the channel before.
    pub member_added: bool,
}

/// What a presence join of connection `s` to channel `c` as user `u`
/// answers: the outcome, or why the join is refused.
pub open spec fn join_verdict(v: NamespaceView, s: Name, c: Name, u: Name) -> Result<
    JoinOutcome,
    crate::error::Error,
> {
    if !v.connections.contains_key(s) {
        Err(crate::error::Error::NotFound)
    } else if kind_of(c) != ChannelKind::Presence {
        Err(crate::error::Error::Internal)
    } else if identified(v, s, c) {
        Ok(JoinOutcome { occupied: false, member_added: false })
    } else if !admits(v, c, u) {
        Err(crate::error::Error::PresenceLimitExceeded)
    } else {
        Ok(JoinOutcome { occupied: !v.channels.contains_key(c), member_added: !present(v, c, u) })
    }
}

/// The state after a presence join was asked for: the join where it is
/// possible and admitted, the state as it was where it is not.
pub open spec fn join_checked(v: NamespaceView, s: Name, c: Name, who: Member) -> NamespaceView {
    if can_join(v, s, c) && admits(v, c, who.user_id) {
        join(v, s, c, who)
    } else {
        v
    }
}

/// Whether an event for a channel goes to connection `s`: this node holds
/// its transport and it is not the one left out.
pub open spec fn targeted(v: NamespaceView, except: Option<Name>, s: Name) -> bool {
    v.connections.contains_key(s) && v.connections[s].local && except != Some(s)
}

/// The connections that an event for channel `c` is delivered to.
pub open spec fn recipients(v: NamespaceView, c: Name, except: Option<Name>) -> Set<Name> {
    Set::new(|s: Name| member(v, c, s) && targeted(v, except, s))
}

/// Whether connection `s` belongs to user `u`.
pub open spec fn owned_by(v: NamespaceView, u: Name, s: Name) -> bool {
    v.connections.contains_key(s) && v.connections[s].user == Some(u)
}

/// The connections whose transport this node holds.
pub open spec fn local_sockets(v: NamespaceView) -> Set<Name> {
    Set::new(|s: Name| targeted(v, None, s))
}

/// The number of members of each channel.
pub open spec fn socket_counts(v: NamespaceView) -> Map<Name, usize> {
    Map::new(
        |c: Name| v.channels.contains_key(c),
        |c: Name| v.channels[c].members.len() as usize,
    )
}

/// The number of members held by this node, for each channel that has one.
pub open spec fn local_counts(v: NamespaceView) -> Map<Name, usize> {
    Map::new(
        |c: Name| recipients(v, c, None).len() > 0,
        |c: Name| recipients(v, c, None).len() as usize,
    )
}

/// A sequence without duplicates that lists exactly the elements of a set
/// is as long as the set is large.
pub proof fn lemma_listing_len<A>(list: Seq<A>, set: Set<A>)
    requires
        list.no_duplicates(),
        forall|x: A| list.contains(x) <==> set.contains(x),
    ensures
        set.finite(),
        set.len() == list.len(),
{
    assert(list.to_set() =~= set);
    list.unique_seq_to_set();
    vstd::seq_lib::seq_to_set_is_finite(list);
}

/// The connections present as `u` are among the registered ones.
pub proof fn lemma_holders_finite(v: NamespaceView, c: Name, u: Name)
    requires
        v.connections.dom().finite(),
    ensures
        holders(v, c, u).finite(),
        holders(v, c, u).len() <= v.connections.dom().len(),
{
    lemma_len_subset(holders(v, c, u), v.connections.dom());
}

pub proof fn lemma_empty_inv(limit: Option<nat>)
    ensures
        inv(empty(limit)),
{
    let v = empty(limit);
    assert forall|c: Name, u: Name| holders(v, c, u).len() == 0 by {
        assert(holders(v, c, u) =~= Set::<Name>::empty());
    }
}

pub proof fn lemma_add_socket_inv(v: NamespaceView, s: Name, local: bool, now: u64)
    requires
        inv(v),
        !v.connections.contains_key(s),
    ensures
        inv(add_socket(v, s, local, now)),
{
    let w = add_socket(v, s, local, now);
    assert forall|x: Name, c: Name| subscribed(w, x, c) == member(w, c, x) by {
        assert(subscribed(v, x, c) == member(v, c, x));
    }
    assert forall|x: Name, c: Name| identified(w, x, c) implies subscribed(w, x, c) && kind_of(c)
        == ChannelKind::Presence by {
        assert(identified(v, x, c));
    }
    assert forall|c: Name, u: Name|
        holders(w, c, u).len() == refcount(w, c, u) && (present(w, c, u) ==> refcount(w, c, u)
            > 0) by {
        assert(holders(w, c, u) =~= holders(v, c, u));
        assert(present(w, c, u) == present(v, c, u));
    }
}

pub proof fn lemma_subscribe_inv(v: NamespaceView, s: Name, c: Name)
    requires
        inv(v),
    ensures
        inv(subscribe(v, s, c)),
{
    let w = subscribe(v, s, c);
    if v.connections.contains_key(s) {
        assert forall|x: Name, d: Name| subscribed(w, x, d) == member(w, d, x) by {
            assert(subscribed(v, x, d) == member(v, d, x));
        }
        assert forall|x: Name, d: Name| identified(w, x, d) implies subscribed(w, x, d)
            && kind_of(d) == ChannelKind::Presence by {
            assert(identified(v, x, d));
            assert(subscribed(v, x, d));
        }
        assert forall|d: Name, u: Name|
            holders(w, d, u).len() == refcount(w, d, u) && (present(w, d, u) ==> refcount(
                w,
                d,
                u,
            ) > 0) by {
            assert(holders(w, d, u) =~= holders(v, d, u));
            assert(present(w, d, u) == present(v, d, u));
        }
    }
}

pub proof fn lemma_join_inv(v: NamespaceView, s: Name, c: Name, who: Member)
    requires
        inv(v),
        can_join(v, s, c),
        admits(v, c, who.user_id),
    ensures
        inv(join(v, s, c, who)),
{
    let w = subscribe(v, s, c);
    let x = join(v, s, c, who);
    let u0 = who.user_id;
    lemma_subscribe_inv(v, s, c);
    assert(!identified(w, s, c));
    assert forall|y: Name, d: Name| subscribed(x, y, d) == member(x, d, y) by {
        assert(subscribed(w, y, d) == member(w, d, y));
    }
    assert forall|y: Name, d: Name| identified(x, y, d) implies subscribed(x, y, d) && kind_of(d)
        == ChannelKind::Presence by {
        if y == s && d == c {
            assert(subscribed(w, s, c));
        } else {
            assert(identified(w, y, d));
            assert(subscribed(w, y, d));
        }
    }
    assert forall|d: Name, u: Name|
        holders(x, d, u).len() == refcount(x, d, u) && (present(x, d, u) ==> refcount(x, d, u)
            > 0) by {
        assert(holders(w, d, u).len() == refcount(w, d, u));
        assert(present(w, d, u) ==> refcount(w, d, u) > 0);
        if d == c && u == u0 {
            lemma_holders_finite(w, c, u0);
            assert(holders(x, c, u0) =~= holders(w, c, u0).insert(s));
            assert(!holders(w, c, u0).contains(s));
        } else {
            assert(holders(x, d, u) =~= holders(w, d, u));
            assert(present(x, d, u) == present(w, d, u));
        }
    }
    if let Some(m) = v.limit {
        assert forall|d: Name| #[trigger] x.channels.contains_key(d) implies x.channels[d].presence.dom().len()
            <= m by {
            assert(w.channels.contains_key(d));
            if d == c {
                let before = w.channels[c].presence.dom();
                assert(x.channels[c].presence.dom() =~= before.insert(u0));
                if present(v, c, u0) {
                    assert(before.contains(u0));
                    assert(before.insert(u0) =~= before);
                } else {
                    assert(presence_count(v, c) == before.len());
                }
            }
        }
    }
}

pub proof fn lemma_leave_inv(v: NamespaceView, s: Name, c: Name)
    requires
        inv(v),
    ensures
        inv(leave(v, s, c)),
{
    let x = leave(v, s, c);
    if subscribed(v, s, c) {
        assert(member(v, c, s));
        let rest = v.channels[c].members.remove(s);
        lemma_set_empty_equivalency_len(rest);
        assert forall|y: Name, d: Name| subscribed(x, y, d) == member(x, d, y) by {
            assert(subscribed(v, y, d) == member(v, d, y));
            if d == c && y != s && vacates(v, s, c) {
                assert(!rest.contains(y));
            }
        }
        assert forall|y: Name, d: Name| identified(x, y, d) implies subscribed(x, y, d) && kind_of(
            d,
        ) == ChannelKind::Presence by {
            assert(identified(v, y, d));
            assert(subscribed(v, y, d));
        }
        assert forall|d: Name, u: Name|
            holders(x, d, u).len() == refcount(x, d, u) && (present(x, d, u) ==> refcount(
                x,
                d,
                u,
            ) > 0) by {
            assert(holders(v, d, u).len() == refcount(v, d, u));
            assert(present(v, d, u) ==> refcount(v, d, u) > 0);
            lemma_holders_finite(v, d, u);
            if d == c {
                if vacates(v, s, c) {
                    assert forall|y: Name| !holders(x, c, u).contains(y) by {
                        if holders(x, c, u).contains(y) {
                            assert(identified(v, y, c));
                            assert(subscribed(v, y, c));
                            assert(member(v, c, y));
                            assert(rest.contains(y));
                        }
                    }
                    assert(holders(x, c, u) =~= Set::<Name>::empty());
                } else if identified(v, s, c) && v.connections[s].presence[c].user_id == u {
                    assert(holders(v, c, u).contains(s));
                    assert(holders(x, c, u) =~= holders(v, c, u).remove(s));
                    assert(present(v, c, u));
                } else {
                    assert(holders(x, c, u) =~= holders(v, c, u));
                    assert(present(x, c, u) == present(v, c, u));
                }
            } else {
                assert(holders(x, d, u) =~= holders(v, d, u));
                assert(present(x, d, u) == present(v, d, u));
            }
        }
        if let Some(m) = v.limit {
            assert forall|d: Name| #[trigger] x.channels.contains_key(d) implies x.channels[d].presence.dom().len()
                <= m by {
                assert(v.channels.contains_key(d));
                if d == c {
                    let before = v.channels[c].presence.dom();
                    match identity_of(v, s, c) {
                        None => {},
                        Some(who) => {
                            if before.contains(who.user_id) && v.channels[c].presence[who.user_id].refcount
                                > 1 {
                                assert(x.channels[c].presence.dom() =~= before);
                            } else {
                                assert(x.channels[c].presence.dom() =~= before.remove(
                                    who.user_id,
                                ));
                            }
                        },
                    }
                }
            }
        }
    }
}

/// A change that touches neither memberships nor identities keeps the state
/// consistent.
pub proof fn lemma_frame_inv(v: NamespaceView, w: NamespaceView)
    requires
        inv(v),
        w.limit == v.limit,
        w.channels == v.channels,
        w.connections.dom() == v.connections.dom(),
        forall|s: Name|
            v.connections.contains_key(s) ==> (#[trigger] w.connections[s]).channels
                == v.connections[s].channels && w.connections[s].presence
                == v.connections[s].presence,
    ensures
        inv(w),
{
    assert forall|s: Name, c: Name| subscribed(w, s, c) == member(w, c, s) by {
        assert(subscribed(v, s, c) == member(v, c, s));
        assert(w.connections.contains_key(s) == v.connections.contains_key(s));
    }
    assert forall|s: Name, c: Name| identified(w, s, c) implies subscribed(w, s, c) && kind_of(c)
        == ChannelKind::Presence by {
        assert(w.connections.contains_key(s) == v.connections.contains_key(s));
        assert(identified(v, s, c));
        assert(subscribed(v, s, c));
    }
    assert forall|c: Name, u: Name|
        holders(w, c, u).len() == refcount(w, c, u) && (present(w, c, u) ==> refcount(w, c, u)
            > 0) by {
        assert forall|s: Name| holders(w, c, u).contains(s) == holders(v, c, u).contains(s) by {
            assert(w.connections.contains_key(s) == v.connections.contains_key(s));
        }
        assert(holders(w, c, u) =~= holders(v, c, u));
        assert(present(w, c, u) == present(v, c, u));
    }
    assert forall|s: Name| w.connections.contains_key(s) implies (#[trigger] w.connections[s]).channels.finite()
        && w.connections[s].presence.dom().finite() by {
        assert(v.connections.contains_key(s));
        assert(v.connections[s].channels.finite());
    }
}

/// The state after connection `s` has recorded who signed in on it.
pub open spec fn set_user(v: NamespaceView, s: Name, user: Option<Name>) -> NamespaceView {
    if !v.connections.contains_key(s) {
        v
    } else {
        NamespaceView {
            connections: v.connections.insert(s, ConnectionView { user, ..v.connections[s] }),
            ..v
        }
    }
}

/// The state after connection `s` has shown activity at time `now`.
pub open spec fn touch(v: NamespaceView, s: Name, now: u64) -> NamespaceView {
    if !v.connections.contains_key(s) {
        v
    } else {
        NamespaceView {
            connections: v.connections.insert(
                s,
                ConnectionView { last_activity: now, ..v.connections[s] },
            ),
            ..v
        }
    }
}

pub proof fn lemma_set_user_inv(v: NamespaceView, s: Name, user: Option<Name>)
    requires
        inv(v),
    ensures
        inv(set_user(v, s, user)),
{
    let w = set_user(v, s, user);
    if v.connections.contains_key(s) {
        assert(w.connections.dom() =~= v.connections.dom());
        lemma_frame_inv(v, w);
    }
}

pub proof fn lemma_touch_inv(v: NamespaceView, s: Name, now: u64)
    requires
        inv(v),
    ensures
        inv(touch(v, s, now)),
{
    let w = touch(v, s, now);
    if v.connections.contains_key(s) {
        assert(w.connections.dom() =~= v.connections.dom());
        lemma_frame_inv(v, w);
    }
}

/// The state after connection `s` has left every channel of `d`.
pub open spec fn detach(v: NamespaceView, s: Name, d: Set<Name>) -> NamespaceView {
    let conn = v.connections[s];
    NamespaceView {
        connections: v.connections.insert(
            s,
            ConnectionView {
                channels: conn.channels.difference(d),
                presence: conn.presence.remove_keys(d),
                ..conn
            },
        ),
        channels: Map::new(
            |c: Name| v.channels.contains_key(c) && !(d.contains(c) && vacates(v, s, c)),
            |c: Name|
                if d.contains(c) && subscribed(v, s, c) {
                    channel_after_leave(v, s, c)
                } else {
                    v.channels[c]
                },
        ),
        ..v
    }
}

/// The state after connection `s` has gone: it has left all its channels and
/// is no longer registered.
pub open spec fn disconnect(v: NamespaceView, s: Name) -> NamespaceView {
    if !v.connections.contains_key(s) {
        v
    } else {
        let w = detach(v, s, v.connections[s].channels);
        NamespaceView { connections: w.connections.remove(s), ..w }
    }
}

/// Leaving one more channel extends the set of channels left; what the step
/// vacates and whom it removes is read off the state before any leaving.
pub proof fn lemma_detach_step(v: NamespaceView, s: Name, d: Set<Name>, c: Name)
    requires
        inv(v),
        v.connections.contains_key(s),
        !d.contains(c),
    ensures
        leave(detach(v, s, d), s, c) == detach(v, s, d.insert(c)),
        subscribed(detach(v, s, d), s, c) == subscribed(v, s, c),
        vacates(detach(v, s, d), s, c) == vacates(v, s, c),
        departs(detach(v, s, d), s, c) == departs(v, s, c),
        identity_of(detach(v, s, d), s, c) == identity_of(v, s, c),
{
    let w = detach(v, s, d);
    let x = leave(w, s, c);
    let y = detach(v, s, d.insert(c));
    assert(subscribed(v, s, c) == member(v, c, s));
    assert(identified(v, s, c) ==> subscribed(v, s, c));
    assert(identity_of(w, s, c) == identity_of(v, s, c));
    if subscribed(v, s, c) {
        assert(w.channels.contains_key(c));
        assert(w.channels[c] == v.channels[c]);
        assert(channel_after_leave(w, s, c) == channel_after_leave(v, s, c));
        assert(x.connections[s].channels =~= y.connections[s].channels);
        assert(x.connections[s].presence =~= y.connections[s].presence);
        assert(x.connections =~= y.connections);
        assert(x.channels =~= y.channels) by {
            assert forall|e: Name| x.channels.contains_key(e) == y.channels.contains_key(e) by {}
            assert forall|e: Name| x.channels.contains_key(e) implies x.channels[e]
                == y.channels[e] by {}
        }
    } else {
        assert(!identified(v, s, c));
        assert(y.connections[s].channels =~= w.connections[s].channels);
        assert(y.connections[s].presence =~= w.connections[s].presence);
        assert(y.connections =~= w.connections);
        assert(y.channels =~= w.channels);
    }
    assert(x =~= y);
}

pub proof fn lemma_detach_inv(v: NamespaceView, s: Name, d: Set<Name>)
    requires
        inv(v),
        v.connections.contains_key(s),
        d.finite(),
    ensures
        inv(detach(v, s, d)),
    decreases d.len(),
{
    if d.len() == 0 {
        lemma_set_empty_equivalency_len(d);
        let w = detach(v, s, d);
        assert(w.connections[s].channels =~= v.connections[s].channels);
        assert(w.connections[s].presence =~= v.connections[s].presence);
        assert(w.connections =~= v.connections);
        assert(w.channels =~= v.channels);
        assert(w =~= v);
    } else {
        let c = d.choose();
        let rest = d.remove(c);
        lemma_detach_inv(v, s, rest);
        lemma_detach_step(v, s, rest, c);
        assert(rest.insert(c) =~= d);
        lemma_leave_inv(detach(v, s, rest), s, c);
    }
}

pub proof fn lemma_disconnect_inv(v: NamespaceView, s: Name)
    requires
        inv(v),
    ensures
        inv(disconnect(v, s)),
        !disconnect(v, s).connections.contains_key(s),
        forall|c: Name| !member(disconnect(v, s), c, s),
{
    let x = disconnect(v, s);
    if v.connections.contains_key(s) {
        let w = detach(v, s, v.connections[s].channels);
        lemma_detach_inv(v, s, v.connections[s].channels);
        assert(w.connections[s].channels =~= Set::<Name>::empty());
        assert(w.connections[s].presence =~= Map::<Name, Member>::empty()) by {
            assert forall|c: Name| !w.connections[s].presence.contains_key(c) by {
                if w.connections[s].presence.contains_key(c) {
                    assert(identified(v, s, c));
                    assert(subscribed(v, s, c));
                }
            }
        }
        assert forall|y: Name, c: Name| subscribed(x, y, c) == member(x, c, y) by {
            assert(subscribed(w, y, c) == member(w, c, y));
            assert(!subscribed(w, s, c));
        }
        assert forall|y: Name, c: Name| identified(x, y, c) implies subscribed(x, y, c) && kind_of(
            c,
        ) == ChannelKind::Presence by {
            assert(identified(w, y, c));
            assert(subscribed(w, y, c));
        }
        assert forall|c: Name, u: Name|
            holders(x, c, u).len() == refcount(x, c, u) && (present(x, c, u) ==> refcount(
                x,
                c,
                u,
            ) > 0) by {
            assert(holders(w, c, u).len() == refcount(w, c, u));
            assert(present(w, c, u) ==> refcount(w, c, u) > 0);
            assert(!identified(w, s, c));
            assert(holders(x, c, u) =~= holders(w, c, u));
            assert(present(x, c, u) == present(w, c, u));
        }
    }
    assert forall|c: Name| !member(x, c, s) by {
        assert(subscribed(x, s, c) == member(x, c, s));
    }
}

/// The state with connection `s` registered: as it is where `s` is known,
/// with `s` as a connection held elsewhere where it is not.
pub open spec fn mirrored(v: NamespaceView, s: Name) -> NamespaceView {
    if v.connections.contains_key(s) {
        v
    } else {
        add_socket(v, s, false, 0)
    }
}

/// Whether `s` is a connection held elsewhere that is in no channel here.
pub open spec fn idle_mirror(v: NamespaceView, s: Name) -> bool {
    &&& v.connections.contains_key(s)
    &&& !v.connections[s].local
    &&& v.connections[s].channels.len() == 0
}

/// The state without the record of `s` where that is an idle mirror.
pub open spec fn tidied(v: NamespaceView, s: Name) -> NamespaceView {
    if idle_mirror(v, s) {
        disconnect(v, s)
    } else {
        v
    }
}

/// Registering a connection held elsewhere keeps the state consistent.
pub proof fn lemma_mirrored_inv(v: NamespaceView, s: Name)
    requires
        inv(v),
    ensures
        inv(mirrored(v, s)),
        mirrored(v, s).connections.contains_key(s),
{
    if !v.connections.contains_key(s) {
        lemma_add_socket_inv(v, s, false, 0);
    }
}

/// Dropping an idle mirror keeps the state consistent.
pub proof fn lemma_tidied_inv(v: NamespaceView, s: Name)
    requires
        inv(v),
    ensures
        inv(tidied(v, s)),
{
    lemma_disconnect_inv(v, s);
}

/// Dropping the record of a connection that is in no channel takes away
/// that record and nothing else.
pub proof fn lemma_disconnect_idle(v: NamespaceView, s: Name)
    requires
        inv(v),
        v.connections.contains_key(s),
        v.connections[s].channels.len() == 0,
    ensures
        disconnect(v, s).connections == v.connections.remove(s),
        disconnect(v, s).channels == v.channels,
        disconnect(v, s).limit == v.limit,
{
    vstd::set_lib::lemma_set_empty_equivalency_len(v.connections[s].channels);
    let x = disconnect(v, s);
    assert(x.connections =~= v.connections.remove(s));
    assert(x.channels =~= v.channels);
}

} // verus!
