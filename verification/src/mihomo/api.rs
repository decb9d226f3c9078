//! The computing half of the External Controller client: the base URL, the
//! WebSocket URL, the authorization header and the request paths. (The HTTP
//! and WebSocket calls are made by the application.)

use crate::text::{
    append_chars, chars_of, drop_trailing, has_prefix, starts_with, string_from, string_of,
    trailing_end,
};
use vstd::prelude::*;

verus! {

/// Bytes that `urlencoding` leaves as they are: ASCII letters and digits and
/// `-`, `.`, `_`, `~`.
pub open spec fn is_unreserved(b: u8) -> bool {
    (48 <= b <= 57) || (65 <= b <= 90) || (97 <= b <= 122) || b == 45 || b == 46 || b == 95 || b
        == 126
}

/// An upper-case hexadecimal digit.
pub open spec fn hex_digit(d: u8) -> char {
    if d < 10 {
        (48 + d) as char
    } else {
        (55 + d) as char
    }
}

/// One byte, percent-encoded.
pub open spec fn encode_byte(b: u8) -> Seq<char> {
    if is_unreserved(b) {
        seq![b as char]
    } else {
        seq!['%', hex_digit(b / 16), hex_digit(b % 16)]
    }
}

/// Percent-encoding of a byte string.
pub open spec fn percent_encode(bytes: Seq<u8>) -> Seq<char>
    decreases bytes.len(),
{
    if bytes.len() == 0 {
        seq![]
    } else {
        encode_byte(bytes[0]) + percent_encode(bytes.drop_first())
    }
}

/// `urlencoding::encode`: every byte of the UTF-8 encoding is
/// percent-encoded (`%XX`, upper-case hex) except ASCII letters, digits and
/// `-`, `_`, `.`, `~`.
#[verifier::external_body]
fn url_encode(s: &str) -> (r: String)
    ensures
        r@ == percent_encode(vstd::utf8::encode_utf8(s@)),
{
    urlencoding::encode(s).into_owned()
}

/// The controller base URL without trailing slashes (so that paths do not
/// start with `//`).
pub fn trim_base(base: &str) -> (r: String)
    ensures
        r@ == drop_trailing(base@, '/'),
{
    let v = chars_of(base);
    let e = trailing_end(&v, 0, v.len(), '/');
    assert(v@.subrange(0, v@.len() as int) =~= v@);
    string_of(&v, 0, e)
}

/// `http(s)://host:port` as `ws(s)://host:port`.
pub open spec fn ws_of(base: Seq<char>) -> Seq<char> {
    if starts_with(base, "https://"@) {
        "wss://"@ + base.skip(8)
    } else if starts_with(base, "http://"@) {
        "ws://"@ + base.skip(7)
    } else {
        "ws://"@ + base
    }
}

/// The WebSocket form of an HTTP base URL (a bare `host:port` gets `ws://`).
pub fn http_to_ws(base: &str) -> (r: String)
    ensures
        r@ == ws_of(base@),
{
    let v = chars_of(base);
    let https = chars_of("https://");
    let http = chars_of("http://");
    proof {
        reveal_strlit("https://");
        reveal_strlit("http://");
    }
    assert(v@.subrange(0, v@.len() as int) =~= v@);
    if has_prefix(&v, 0, v.len(), &https) {
        let mut r = chars_of("wss://");
        append_chars(&mut r, &crate::text::sub_vec(&v, 8, v.len()));
        string_from(&r)
    } else if has_prefix(&v, 0, v.len(), &http) {
        let mut r = chars_of("ws://");
        append_chars(&mut r, &crate::text::sub_vec(&v, 7, v.len()));
        string_from(&r)
    } else {
        let mut r = chars_of("ws://");
        append_chars(&mut r, &v);
        string_from(&r)
    }
}

/// The URL of the `/connections` push stream for a (trimmed) base URL.
pub fn connections_ws_url(base: &str) -> (r: String)
    ensures
        r@ == ws_of(base@) + "/connections"@,
{
    let mut r = chars_of(http_to_ws(base).as_str());
    append_chars(&mut r, &chars_of("/connections"));
    string_from(&r)
}

/// The `Authorization` header value: none without a secret, else
/// `Bearer <secret>`.
pub fn auth_header(secret: &str) -> (r: Option<String>)
    ensures
        r matches Some(h) ==> secret@.len() > 0 && h@ == "Bearer "@ + secret@,
        r is None ==> secret@.len() == 0,
{
    if secret.is_empty() {
        None
    } else {
        let mut r = chars_of("Bearer ");
        append_chars(&mut r, &chars_of(secret));
        Some(string_from(&r))
    }
}

/// The path that selects a node in the group `group` (`PUT`).
pub fn select_proxy_path(group: &str) -> (r: String)
    ensures
        r@ == "/proxies/"@ + percent_encode(vstd::utf8::encode_utf8(group@)),
{
    let mut r = chars_of("/proxies/");
    append_chars(&mut r, &chars_of(url_encode(group).as_str()));
    string_from(&r)
}

/// The path that tests the delay of every member of `group` (`GET`,
/// against `https://www.gstatic.com/generate_204`, 3 s timeout).
pub fn group_delay_path(group: &str) -> (r: String)
    ensures
        r@ == "/group/"@ + percent_encode(vstd::utf8::encode_utf8(group@))
            + "/delay?url=https%3A%2F%2Fwww.gstatic.com%2Fgenerate_204&timeout=3000"@,
{
    let mut r = chars_of("/group/");
    append_chars(&mut r, &chars_of(url_encode(group).as_str()));
    append_chars(&mut r, &chars_of("/delay?url=https%3A%2F%2Fwww.gstatic.com%2Fgenerate_204&timeout=3000"));
    string_from(&r)
}

} // verus!
