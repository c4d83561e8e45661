use sockudo::redirect::{https_authority, https_location, make_https, RedirectError};
use sockudo::text::{concat2, decimal, join};

fn s(text: &str) -> String {
    text.to_string()
}

#[test]
fn redirect_keeps_host_path_and_query() {
    assert_eq!(
        make_https("example.com", Some("/a/b"), Some("x=1&y=2"), 443),
        Ok(s("https://example.com:443/a/b?x=1&y=2"))
    );
    assert_eq!(
        make_https("example.com:8080", Some("/"), None, 6001),
        Ok(s("https://example.com:6001/"))
    );
    assert_eq!(
        make_https("example.com:8080", None, None, 6001),
        Ok(s("https://example.com:6001/"))
    );
    assert_eq!(
        make_https("example.com", Some(""), Some("q"), 1),
        Ok(s("https://example.com:1/?q"))
    );
}

#[test]
fn redirect_drops_user_information_and_port() {
    assert_eq!(
        make_https("user:secret@example.com:8080", Some("/x"), None, 443),
        Ok(s("https://example.com:443/x"))
    );
    assert_eq!(
        make_https("[::1]:8080", Some("/"), None, 8443),
        Ok(s("https://[::1]:8443/"))
    );
    assert_eq!(
        make_https("127.0.0.1", Some("*"), None, 65535),
        Ok(s("https://127.0.0.1:65535*"))
    );
}

#[test]
fn redirect_refuses_what_is_no_authority() {
    assert_eq!(make_https("", Some("/"), None, 443), Err(RedirectError::InvalidHost));
    assert_eq!(
        make_https("exa mple.com", Some("/"), None, 443),
        Err(RedirectError::InvalidHost)
    );
    assert_eq!(
        make_https("a:1:2", Some("/"), None, 443),
        Err(RedirectError::InvalidHost)
    );
    assert_eq!(
        make_https("example.com/path", Some("/"), None, 443),
        Err(RedirectError::InvalidHost)
    );
    assert_eq!(
        make_https("[@]", Some("/"), None, 443),
        Err(RedirectError::InvalidAuthority)
    );
}

#[test]
fn authority_and_location_are_put_together() {
    assert_eq!(https_authority("h", 0), "h:0");
    assert_eq!(https_authority("example.org", 65535), "example.org:65535");
    assert_eq!(https_location("h:1", None, None), "https://h:1/");
    assert_eq!(https_location("h:1", Some("/p"), Some("")), "https://h:1/p?");
    assert_eq!(https_location("h:1", Some(""), None), "https://h:1/");
}

#[test]
fn numerals_and_joins() {
    assert_eq!(decimal(0), "0");
    assert_eq!(decimal(7), "7");
    assert_eq!(decimal(10), "10");
    assert_eq!(decimal(6001), "6001");
    assert_eq!(decimal(65535), "65535");
    assert_eq!(decimal(u64::MAX), "18446744073709551615");
    for n in [1u64, 9, 42, 100, 909, 4009, 123456789] {
        assert_eq!(decimal(n), n.to_string());
    }
    assert_eq!(join(&vec![], ","), "");
    assert_eq!(join(&vec![s("a")], ","), "a");
    assert_eq!(join(&vec![s("a"), s(""), s("c")], ", "), "a, , c");
    assert_eq!(concat2("ab", "cd"), "abcd");
}
