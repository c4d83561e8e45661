//! A tenant: its credentials and its limits.

use vstd::prelude::*;

verus! {

/// A tenant of the server. The record does not change during a session.
pub struct App {
    pub id: String,
    pub key: String,
    pub secret: String,
    pub enabled: bool,
    pub enable_client_messages: bool,
    pub max_connections: u32,
    pub max_client_events_per_second: u32,
    pub max_read_requests_per_second: Option<u32>,
    pub max_presence_members_per_channel: Option<u32>,
    pub max_presence_member_size_in_kb: Option<u32>,
    pub max_channel_name_length: Option<u32>,
    pub max_event_channels_at_once: Option<u32>,
    pub max_event_name_length: Option<u32>,
    pub max_event_payload_in_kb: Option<u32>,
    pub max_event_batch_size: Option<u32>,
    pub enable_user_authentication: Option<bool>,
    pub max_backend_events_per_second: Option<u32>,
    pub enable_watchlist_events: Option<bool>,
}

/// Whether `size` is within `limit`; no limit admits every size.
pub open spec fn within(limit: Option<u32>, size: nat) -> bool {
    match limit {
        Some(m) => size <= m,
        None => true,
    }
}

impl App {
    /// The most users that may be present in one channel.
    pub open spec fn presence_limit(&self) -> Option<nat> {
        match self.max_presence_members_per_channel {
            Some(m) => Some(m as nat),
            None => None,
        }
    }

    /// Whether a client event with the given sizes fits the tenant's limits:
    /// the lengths of the channel's and the event's name in bytes, and the
    /// payload in bytes against the limit in kilobytes.
    pub open spec fn fits(&self, channel_len: nat, event_len: nat, payload_len: nat) -> bool {
        &&& within(self.max_channel_name_length, channel_len)
        &&& within(self.max_event_name_length, event_len)
        &&& match self.max_event_payload_in_kb {
            Some(kb) => payload_len <= kb * 1024,
            None => true,
        }
    }

    pub fn event_fits(&self, channel_len: usize, event_len: usize, payload_len: usize) -> (b: bool)
        ensures
            b == self.fits(channel_len as nat, event_len as nat, payload_len as nat),
    {
        let channel_ok = match self.max_channel_name_length {
            Some(m) => channel_len as u64 <= m as u64,
            None => true,
        };
        let event_ok = match self.max_event_name_length {
            Some(m) => event_len as u64 <= m as u64,
            None => true,
        };
        let payload_ok = match self.max_event_payload_in_kb {
            Some(kb) => payload_len as u64 <= kb as u64 * 1024,
            None => true,
        };
        channel_ok && event_ok && payload_ok
    }

    /// A copy of the record.
    pub fn copy(&self) -> (app: Self)
        ensures
            app == *self,
    {
        App {
            id: self.id.clone(),
            key: self.key.clone(),
            secret: self.secret.clone(),
            enabled: self.enabled,
            enable_client_messages: self.enable_client_messages,
            max_connections: self.max_connections,
            max_client_events_per_second: self.max_client_events_per_second,
            max_read_requests_per_second: self.max_read_requests_per_second,
            max_presence_members_per_channel: self.max_presence_members_per_channel,
            max_presence_member_size_in_kb: self.max_presence_member_size_in_kb,
            max_channel_name_length: self.max_channel_name_length,
            max_event_channels_at_once: self.max_event_channels_at_once,
            max_event_name_length: self.max_event_name_length,
            max_event_payload_in_kb: self.max_event_payload_in_kb,
            max_event_batch_size: self.max_event_batch_size,
            enable_user_authentication: self.enable_user_authentication,
            max_backend_events_per_second: self.max_backend_events_per_second,
            enable_watchlist_events: self.enable_watchlist_events,
        }
    }

    /// The limit on present users as the store takes it.
    pub fn presence_limit_value(&self) -> (limit: Option<usize>)
        ensures
            match limit {
                Some(m) => self.presence_limit() == Some(m as nat),
                None => self.presence_limit() is None,
            },
    {
        match self.max_presence_members_per_channel {
            Some(m) => Some(m as usize),
            None => None,
        }
    }
}

} // verus!
