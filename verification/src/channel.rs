//! Channels: their kinds, their members and who is present in them.

use crate::model::{kind_of, ChannelKind, ChannelView, Member, Name, PresenceView};
use crate::names::{NameMap, NameSet};
use vstd::prelude::*;
use vstd::string::StrSliceExecFns;

verus! {

/// Whether `text` begins with `prefix`.
pub fn starts_with(text: &str, prefix: &str) -> (b: bool)
    ensures
        b == prefix@.is_prefix_of(text@),
{
    let n = prefix.unicode_len();
    let m = text.unicode_len();
    if m < n {
        return false;
    }
    let mut i: usize = 0;
    while i < n
        invariant
            i <= n,
            n == prefix@.len(),
            n <= text@.len(),
            forall|j: int| 0 <= j < i ==> text@[j] == prefix@[j],
        decreases n - i,
    {
        if text.get_char(i) != prefix.get_char(i) {
            assert(text@.subrange(0, n as int)[i as int] != prefix@[i as int]);
            return false;
        }
        i += 1;
    }
    assert(text@.subrange(0, n as int) =~= prefix@);
    true
}

/// Whether `a` and `b` are the same text.
pub fn same_text(a: &str, b: &str) -> (same: bool)
    ensures
        same == (a@ == b@),
{
    let same = a.unicode_len() == b.unicode_len() && starts_with(a, b);
    proof {
        if same {
            assert(a@.subrange(0, b@.len() as int) =~= a@);
        }
    }
    same
}

impl ChannelKind {
    /// The kind of the channel called `name`.
    pub fn of(name: &str) -> (kind: ChannelKind)
        ensures
            kind == kind_of(name@),
    {
        if starts_with(name, "private-encrypted-") {
            ChannelKind::Encrypted
        } else if starts_with(name, "private-") {
            ChannelKind::Private
        } else if starts_with(name, "presence-") {
            ChannelKind::Presence
        } else {
            ChannelKind::Public
        }
    }

    /// Whether a subscription needs a valid signature.
    pub open spec fn is_guarded(self) -> bool {
        self != ChannelKind::Public
    }

    pub fn needs_auth(self) -> (b: bool)
        ensures
            b == self.is_guarded(),
    {
        match self {
            ChannelKind::Public => false,
            _ => true,
        }
    }
}

/// The identity that a connection shows in a presence channel.
pub struct PresenceMemberInfo {
    pub user_id: String,
    pub user_info: String,
}

impl View for PresenceMemberInfo {
    type V = Member;

    open spec fn view(&self) -> Member {
        Member { user_id: self.user_id@, info: self.user_info@ }
    }
}

impl PresenceMemberInfo {
    pub fn new(user_id: String, user_info: String) -> (m: Self)
        ensures
            m@ == (Member { user_id: user_id@, info: user_info@ }),
    {
        PresenceMemberInfo { user_id, user_info }
    }

    pub fn copy(&self) -> (m: Self)
        ensures
            m@ == self@,
    {
        PresenceMemberInfo { user_id: self.user_id.clone(), user_info: self.user_info.clone() }
    }
}

/// A user's entry in a presence channel.
pub struct PresenceEntry {
    pub refcount: usize,
    pub info: String,
}

impl View for PresenceEntry {
    type V = PresenceView;

    open spec fn view(&self) -> PresenceView {
        PresenceView { refcount: self.refcount as nat, info: self.info@ }
    }
}

/// A channel with at least one member.
pub struct Channel {
    pub kind: ChannelKind,
    pub members: NameSet,
    pub presence: NameMap<PresenceEntry>,
}

impl View for Channel {
    type V = ChannelView;

    open spec fn view(&self) -> ChannelView {
        ChannelView {
            kind: self.kind,
            members: self.members@,
            presence: self.presence@.map_values(|e: PresenceEntry| e@),
        }
    }
}

impl Channel {
    pub open spec fn wf(&self) -> bool {
        self.members.wf() && self.presence.wf()
    }

    /// The channel called `name`, before its first member.
    pub fn new(name: &str) -> (c: Self)
        ensures
            c.wf(),
            c@ == crate::model::fresh_channel(name@),
    {
        let c = Channel {
            kind: ChannelKind::of(name),
            members: NameSet::new(),
            presence: NameMap::new(),
        };
        assert(c@.presence =~= Map::<Name, PresenceView>::empty());
        c
    }
}

} // verus!
