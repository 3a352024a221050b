use vstd::prelude::*;

use crate::settings::Settings;

verus! {

/// The booking endpoint that the request goes to.
pub const URL: &'static str = "https://squareup.com/appointments/api/buyer/availability";

/// The browser identity that the request presents.
pub const USER_AGENT: &'static str = "Mozilla/5.0 (Windows NT 10.0; Win64; x64) AppleWebKit/537.36 (KHTML, like Gecko) Chrome/91.0.4472.114 Safari/537.36";

/// A secret that cannot stand in an HTTP header value.
#[derive(Clone, Copy, Debug, PartialEq, Eq, Structural)]
pub enum HeaderError {
    Cookie,
    Token,
}

/// The endpoint answered with a status outside 200 to 299.
#[derive(Clone, Copy, Debug, PartialEq, Eq, Structural)]
pub struct HttpStatusError {
    pub code: u16,
}

/// A character that an HTTP header value may hold: a tab, or anything from
/// the space on but DEL. Characters beyond ASCII are encoded in bytes of
/// 0x80 and above, which are allowed.
pub open spec fn header_char_ok(c: char) -> bool {
    c == '\t' || (c as u32 >= 32 && c as u32 != 127)
}

pub open spec fn header_value_ok(s: Seq<char>) -> bool {
    forall|i: int| 0 <= i < s.len() ==> header_char_ok(#[trigger] s[i])
}

/// Relies on http's `HeaderValue::from_str` (re-exported by reqwest), which
/// refuses a value exactly when one of its bytes is below 32 but a tab, or
/// is 127.
#[verifier::external_body]
fn is_header_value(s: &str) -> (r: bool)
    ensures
        r == header_value_ok(s@),
{
    reqwest::header::HeaderValue::from_str(s).is_ok()
}

/// The headers that every request carries, in order: content type, user
/// agent, accept, accept encoding, cookie and CSRF token.
pub open spec fn headers_of(cookie: Seq<char>, token: Seq<char>) -> Seq<(Seq<char>, Seq<char>)> {
    seq![
        ("content-type"@, "application/json"@),
        ("user-agent"@, USER_AGENT@),
        ("accept"@, "*/*"@),
        ("accept-encoding"@, "gzip, deflate, br"@),
        ("cookie"@, cookie),
        ("x-csrf-token"@, token),
    ]
}

pub open spec fn pairs_view(v: Seq<(String, String)>) -> Seq<(Seq<char>, Seq<char>)> {
    v.map_values(|p: (String, String)| (p.0@, p.1@))
}

fn header(name: &str, value: &str) -> (r: (String, String))
    ensures
        r.0@ == name@,
        r.1@ == value@,
{
    (name.to_owned(), value.to_owned())
}

/// The header list of a request made with these settings; a secret that
/// cannot stand in a header value is refused, the cookie first.
pub fn request_headers(settings: &Settings) -> (r: Result<Vec<(String, String)>, HeaderError>)
    ensures
        r is Ok <==> header_value_ok(settings.cookie@) && header_value_ok(settings.token@),
        r matches Ok(h) ==> pairs_view(h@) == headers_of(settings.cookie@, settings.token@),
        r matches Err(e) ==> e == if header_value_ok(settings.cookie@) {
            HeaderError::Token
        } else {
            HeaderError::Cookie
        },
{
    if !is_header_value(settings.cookie.as_str()) {
        return Err(HeaderError::Cookie);
    }
    if !is_header_value(settings.token.as_str()) {
        return Err(HeaderError::Token);
    }
    let mut h: Vec<(String, String)> = Vec::new();
    h.push(header("content-type", "application/json"));
    h.push(header("user-agent", USER_AGENT));
    h.push(header("accept", "*/*"));
    h.push(header("accept-encoding", "gzip, deflate, br"));
    h.push(header("cookie", settings.cookie.as_str()));
    h.push(header("x-csrf-token", settings.token.as_str()));
    assert(pairs_view(h@) =~= headers_of(settings.cookie@, settings.token@));
    Ok(h)
}

/// Accepts a status in 200 to 299; any other is an error that carries it.
pub fn check_status(code: u16) -> (r: Result<(), HttpStatusError>)
    ensures
        r is Ok <==> 200 <= code < 300,
        r matches Err(e) ==> e.code == code,
{
    if 200 <= code && code < 300 {
        Ok(())
    } else {
        Err(HttpStatusError { code })
    }
}

} // verus!
