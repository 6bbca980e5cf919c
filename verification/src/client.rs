//! What the command-line client sends to the print server.
use vstd::prelude::*;
use crate::text::{chars_of, string_from_chars};

verus! {

/// Cloudflare Zero Trust service token.
pub struct ApiKey {
    pub client_id: String,
    pub client_secret: String,
}

/// `s` without its trailing `/` characters.
pub open spec fn trim_trailing_slashes(s: Seq<char>) -> Seq<char>
    decreases s.len(),
{
    if s.len() > 0 && s.last() == '/' {
        trim_trailing_slashes(s.drop_last())
    } else {
        s
    }
}

/// The print endpoint of a server: its base URL without trailing slashes,
/// then `/print`.
pub open spec fn spec_print_url(server: Seq<char>) -> Seq<char> {
    trim_trailing_slashes(server) + "/print"@
}

/// The URL PNG documents are posted to: `{server}/print`.
pub fn print_url(server: &str) -> (url: String)
    ensures
        url@ == spec_print_url(server@),
{
    let chars = chars_of(server);
    let mut n = chars.len();
    assert(chars@.subrange(0, n as int) == chars@);
    while n > 0 && chars[n - 1] == '/'
        invariant
            n <= chars@.len(),
            chars@ == server@,
            trim_trailing_slashes(server@) == trim_trailing_slashes(chars@.subrange(0, n as int)),
        decreases n,
    {
        assert(chars@.subrange(0, n as int).drop_last() == chars@.subrange(0, n - 1));
        n = n - 1;
    }
    let mut kept = chars;
    kept.truncate(n);
    assert(kept@ == server@.subrange(0, n as int));
    let mut url = string_from_chars(kept.as_slice());
    url.append("/print");
    url
}

/// Trailing slashes of the server URL do not change the print endpoint.
pub proof fn lemma_print_url_trailing_slash(server: Seq<char>)
    ensures
        spec_print_url(server.push('/')) == spec_print_url(server),
{
    assert(server.push('/').drop_last() == server);
}

/// The headers that authenticate a request with a service token, if any.
pub open spec fn spec_auth_headers(key: Option<(Seq<char>, Seq<char>)>) -> Seq<(Seq<char>, Seq<char>)> {
    match key {
        Some((id, secret)) => seq![
            ("CF-Access-Client-Id"@, id),
            ("CF-Access-Client-Secret"@, secret),
        ],
        None => Seq::empty(),
    }
}

/// The headers that carry the service token: `CF-Access-Client-Id` and
/// `CF-Access-Client-Secret`; none without a token.
pub fn auth_headers(key: Option<&ApiKey>) -> (h: Vec<(String, String)>)
    ensures
        h@.map_values(|p: (String, String)| (p.0@, p.1@)) == spec_auth_headers(match key {
            Some(k) => Some((k.client_id@, k.client_secret@)),
            None => None,
        }),
{
    let mut h: Vec<(String, String)> = Vec::new();
    match key {
        Some(k) => {
            h.push((String::from_str("CF-Access-Client-Id"), k.client_id.clone()));
            h.push((String::from_str("CF-Access-Client-Secret"), k.client_secret.clone()));
        },
        None => {},
    }
    assert(h@.map_values(|p: (String, String)| (p.0@, p.1@)) =~= spec_auth_headers(match key {
        Some(k) => Some((k.client_id@, k.client_secret@)),
        None => None,
    }));
    h
}

/// The error a reply to a print request gives: none when its status is a
/// success, else `Server returned {status}: {body}`.
pub fn reply_error(success: bool, status: &str, body: &str) -> (e: Option<String>)
    ensures
        success ==> e is None,
        !success ==> (e matches Some(m) && m@ == "Server returned "@ + status@ + ": "@ + body@),
{
    if success {
        None
    } else {
        let mut m = String::from_str("Server returned ");
        m.append(status);
        m.append(": ");
        m.append(body);
        Some(m)
    }
}

} // verus!
