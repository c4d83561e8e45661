//! The target of the redirect from plain HTTP to HTTPS: the same host and
//! path on the HTTPS port.

use crate::namespace::text_of;
use crate::text::{decimal, decimal_text, slice_text};
use vstd::prelude::*;
use vstd::string::StringExecFns;

verus! {

/// Why no redirect target can be given.
#[derive(Clone, Copy, Debug, PartialEq, Eq, Structural)]
pub enum RedirectError {
    /// The request's host is no authority.
    InvalidHost,
    /// The host with the HTTPS port is no authority.
    InvalidAuthority,
}

/// The host part of `text` read as the authority of a URI; nothing where
/// `text` is no authority.
pub uninterp spec fn authority_host(text: Seq<char>) -> Option<Seq<char>>;

/// Parses `text` with `http::uri::Authority::from_str` and, where that
/// succeeds, takes the host with `Authority::host`: the authority without
/// user information and port. The contract is not proved: it says that the
/// answer is a function of the text, which `authority_host` names, and no
/// more.
#[verifier::external_body]
fn parse_authority_host(text: &str) -> (host: Option<String>)
    ensures
        text_of(host) == authority_host(text@),
{
    match text.parse::<http::uri::Authority>() {
        Ok(authority) => Some(authority.host().to_string()),
        Err(_) => None,
    }
}

/// The authority made of `host` and `port`.
pub open spec fn authority_text(host: Seq<char>, port: u16) -> Seq<char> {
    host + seq![':'] + decimal_text(port as nat)
}

/// The authority made of `host` and `port`.
pub fn https_authority(host: &str, port: u16) -> (authority: String)
    ensures
        authority@ == authority_text(host@, port),
{
    proof {
        reveal_strlit(":");
    }
    let mut authority = String::from_str(host);
    authority.append(":");
    authority.append(decimal(port as u64).as_str());
    assert(":"@ =~= seq![':']);
    authority
}

/// The path to ask for: the path given, or the root where none or an empty
/// one is given.
pub open spec fn path_or_root(path: Option<Seq<char>>) -> Seq<char> {
    match path {
        Some(p) => if p.len() == 0 {
            "/"@
        } else {
            p
        },
        None => "/"@,
    }
}

/// The query with the mark that introduces it; nothing where there is no
/// query.
pub open spec fn query_suffix(query: Option<Seq<char>>) -> Seq<char> {
    match query {
        Some(q) => "?"@ + q,
        None => Seq::empty(),
    }
}

/// The HTTPS address of `path` and `query` at `authority`.
pub open spec fn location_text(
    authority: Seq<char>,
    path: Option<Seq<char>>,
    query: Option<Seq<char>>,
) -> Seq<char> {
    "https://"@ + authority + path_or_root(path) + query_suffix(query)
}

/// The HTTPS address of `path` and `query` at `authority`.
pub fn https_location(authority: &str, path: Option<&str>, query: Option<&str>) -> (location:
    String)
    ensures
        location@ == location_text(authority@, slice_text(path), slice_text(query)),
{
    let mut location = String::from_str("https://");
    location.append(authority);
    match path {
        Some(p) => {
            if p.is_empty() {
                location.append("/");
            } else {
                location.append(p);
            }
        },
        None => {
            location.append("/");
        },
    }
    match query {
        Some(q) => {
            location.append("?");
            location.append(q);
            assert(location@ =~= location_text(authority@, slice_text(path), slice_text(query)));
        },
        None => {
            assert(location@ =~= location_text(authority@, slice_text(path), slice_text(query)));
        },
    }
    location
}

/// Where a request for `host` is redirected to: the address of the same
/// host, path and query on port `https_port`, or why there is none.
pub open spec fn redirect_target(
    host: Seq<char>,
    path: Option<Seq<char>>,
    query: Option<Seq<char>>,
    https_port: u16,
) -> Result<Seq<char>, RedirectError> {
    match authority_host(host) {
        None => Err(RedirectError::InvalidHost),
        Some(bare) => if authority_host(authority_text(bare, https_port)) is None {
            Err(RedirectError::InvalidAuthority)
        } else {
            Ok(location_text(authority_text(bare, https_port), path, query))
        },
    }
}

/// The text of a redirect target that was found.
pub open spec fn target_text(r: Result<String, RedirectError>) -> Result<
    Seq<char>,
    RedirectError,
> {
    match r {
        Ok(location) => Ok(location@),
        Err(e) => Err(e),
    }
}

/// The HTTPS address to which a plain request for `host` with `path` and
/// `query` is redirected: the request's host, without user information and
/// port, on port `https_port`.
pub fn make_https(host: &str, path: Option<&str>, query: Option<&str>, https_port: u16) -> (r:
    Result<String, RedirectError>)
    ensures
        target_text(r) == redirect_target(host@, slice_text(path), slice_text(query), https_port),
{
    match parse_authority_host(host) {
        None => Err(RedirectError::InvalidHost),
        Some(bare) => {
            let authority = https_authority(bare.as_str(), https_port);
            if parse_authority_host(authority.as_str()).is_none() {
                Err(RedirectError::InvalidAuthority)
            } else {
                Ok(https_location(authority.as_str(), path, query))
            }
        },
    }
}

} // verus!
