//! Requests to the SEQTA server: the method, the target, the headers, and the
//! decisions taken on each response and failure.
use vstd::prelude::*;
use crate::text;
use crate::json::JsonValue;
use crate::json;
use crate::patches;

verus! {

/// The HTTP method of a request to the server.
#[allow(non_camel_case_types)]
#[derive(Debug, Clone, Copy, PartialEq, Eq, Structural)]
pub enum RequestMethod {
    GET,
    POST,
}

impl RequestMethod {
    /// The method's name, as written in requests and in the patch file.
    pub open spec fn name(self) -> Seq<char> {
        match self {
            RequestMethod::GET => "GET"@,
            RequestMethod::POST => "POST"@,
        }
    }

    /// The method's name.
    pub fn as_str(&self) -> (r: &'static str)
        ensures
            r@ == self.name(),
    {
        match self {
            RequestMethod::GET => "GET",
            RequestMethod::POST => "POST",
        }
    }
}


/// The URL a request goes to: `url` itself when it starts with `http`,
/// otherwise `url` appended to the session's base URL.
pub open spec fn request_url(url: Seq<char>, base_url: Seq<char>) -> Seq<char> {
    if "http"@.is_prefix_of(url) {
        url
    } else {
        base_url + url
    }
}

/// The URL a request goes to (see `request_url`).
pub fn full_request_url(url: &str, base_url: &str) -> (r: String)
    ensures
        r@ == request_url(url@, base_url@),
{
    if text::str_starts_with(url, "http") {
        url.to_owned()
    } else {
        text::concat(base_url, url)
    }
}

/// Whether a session holds nothing to authenticate with: neither a session
/// id nor a base URL.
pub fn session_is_empty(jsessionid: &str, base_url: &str) -> (r: bool)
    ensures
        r == (jsessionid@.len() == 0 && base_url@.len() == 0),
{
    jsessionid.is_empty() && base_url.is_empty()
}

/// A cookie kept with the session.
#[derive(Debug)]
pub struct Cookie {
    pub name: String,
    pub value: String,
    pub domain: Option<String>,
    pub path: Option<String>,
}

/// A copy of a cookie.
pub fn clone_cookie(c: &Cookie) -> (r: Cookie)
    ensures
        r == *c,
{
    Cookie {
        name: c.name.clone(),
        value: c.value.clone(),
        domain: match &c.domain {
            Some(d) => Some(d.clone()),
            None => None,
        },
        path: match &c.path {
            Some(p) => Some(p.clone()),
            None => None,
        },
    }
}

/// Whether a session id is a JSON web token (from a QR-code login).
pub open spec fn is_jwt(jsessionid: Seq<char>) -> bool {
    "eyJ"@.is_prefix_of(jsessionid)
}

/// Whether a session id is a JSON web token.
pub fn session_is_jwt(jsessionid: &str) -> (r: bool)
    ensures
        r == is_jwt(jsessionid@),
{
    text::str_starts_with(jsessionid, "eyJ")
}

/// The values of the cookies named `JSESSIONID`, in order.
pub open spec fn jsession_values(c: Seq<Cookie>) -> Seq<Seq<char>>
    decreases c.len(),
{
    if c.len() == 0 {
        Seq::empty()
    } else if c.last().name@ == "JSESSIONID"@ {
        jsession_values(c.drop_last()).push(c.last().value@)
    } else {
        jsession_values(c.drop_last())
    }
}

/// The cookies not named `JSESSIONID`, in order.
pub open spec fn without_jsession(c: Seq<Cookie>) -> Seq<Cookie>
    decreases c.len(),
{
    if c.len() == 0 {
        Seq::empty()
    } else if c.last().name@ == "JSESSIONID"@ {
        without_jsession(c.drop_last())
    } else {
        without_jsession(c.drop_last()).push(c.last())
    }
}

/// `name=value` for each cookie, in order.
pub open spec fn cookie_parts(c: Seq<Cookie>) -> Seq<Seq<char>> {
    Seq::new(c.len(), |i: int| c[i].name@ + "="@ + c[i].value@)
}

/// The parts joined, with `sep` between each two.
pub open spec fn join(parts: Seq<Seq<char>>, sep: Seq<char>) -> Seq<char>
    decreases parts.len(),
{
    if parts.len() == 0 {
        Seq::empty()
    } else if parts.len() == 1 {
        parts[0]
    } else {
        join(parts.drop_last(), sep) + sep + parts.last()
    }
}

/// The `origin` and `referer` headers, set to the base URL when there is one.
pub open spec fn origin_headers(base_url: Seq<char>) -> Seq<(Seq<char>, Seq<char>)> {
    if base_url.len() > 0 {
        seq![("origin"@, base_url), ("referer"@, base_url)]
    } else {
        Seq::empty()
    }
}

/// The headers that every request to the server carries. With a web-token
/// session: a bearer `authorization`, and, when exactly one `JSESSIONID`
/// cookie is kept, that cookie. Otherwise a `cookie` header with the session
/// id and all kept cookies, when there is any. In both cases `origin` and
/// `referer` when the base URL is known.
pub open spec fn default_headers(jsessionid: Seq<char>, base_url: Seq<char>, cookies: Seq<Cookie>) -> Seq<(Seq<char>, Seq<char>)> {
    if is_jwt(jsessionid) {
        let vals = jsession_values(cookies);
        seq![("authorization"@, "Bearer "@ + jsessionid)] + (if vals.len() == 1 {
            seq![("cookie"@, "JSESSIONID="@ + vals[0])]
        } else {
            Seq::empty()
        }) + origin_headers(base_url)
    } else {
        let parts = (if jsessionid.len() > 0 {
            seq!["JSESSIONID="@ + jsessionid]
        } else {
            Seq::empty()
        }) + cookie_parts(cookies);
        (if parts.len() > 0 {
            seq![("cookie"@, join(parts, "; "@))]
        } else {
            Seq::empty()
        }) + origin_headers(base_url)
    }
}

/// The cookies to keep, when they are to change: a web-token session that
/// keeps more than one `JSESSIONID` cookie drops them all.
pub open spec fn deduplicated_cookies(jsessionid: Seq<char>, cookies: Seq<Cookie>) -> Option<Seq<Cookie>> {
    if is_jwt(jsessionid) && jsession_values(cookies).len() > 1 {
        Some(without_jsession(cookies))
    } else {
        None
    }
}

/// The headers for a request, and the cookies the session is to keep from now
/// on when they change.
pub struct DefaultHeaders {
    pub headers: Vec<(String, String)>,
    pub cookies: Option<Vec<Cookie>>,
}

/// The parts joined with `sep` between each two.
pub fn join_parts(parts: &Vec<String>, sep: &str) -> (r: String)
    ensures
        r@ == join(parts@.map_values(|p: String| p@), sep@),
{
    let ghost pv = parts@.map_values(|p: String| p@);
    let mut r = "".to_owned();
    proof {
        reveal_strlit("");
    }
    let mut i: usize = 0;
    assert(pv.take(0) =~= Seq::<Seq<char>>::empty());
    while i < parts.len()
        invariant
            i <= parts.len(),
            pv == parts@.map_values(|p: String| p@),
            r@ == join(pv.take(i as int), sep@),
        decreases parts.len() - i,
    {
        assert(pv.take(i + 1).drop_last() =~= pv.take(i as int));
        if i > 0 {
            r.append(sep);
        } else {
            assert(pv.take(1).len() == 1);
            assert(r@ =~= Seq::<char>::empty());
        }
        r.append(parts[i].as_str());
        i = i + 1;
    }
    assert(pv.take(parts.len() as int) =~= pv);
    r
}

/// The values of the `JSESSIONID` cookies, and the other cookies.
fn split_jsession(cookies: &Vec<Cookie>) -> (r: (Vec<String>, Vec<Cookie>))
    ensures
        r.0@.map_values(|p: String| p@) == jsession_values(cookies@),
        r.1@ == without_jsession(cookies@),
{
    let name = "JSESSIONID".to_owned();
    let mut vals: Vec<String> = Vec::new();
    let mut rest: Vec<Cookie> = Vec::new();
    let mut i: usize = 0;
    assert(cookies@.take(0) =~= Seq::<Cookie>::empty());
    while i < cookies.len()
        invariant
            i <= cookies.len(),
            name@ == "JSESSIONID"@,
            vals@.map_values(|p: String| p@) == jsession_values(cookies@.take(i as int)),
            rest@ == without_jsession(cookies@.take(i as int)),
        decreases cookies.len() - i,
    {
        assert(cookies@.take(i + 1).drop_last() =~= cookies@.take(i as int));
        assert(cookies@.take(i + 1).last() == cookies@[i as int]);
        let ghost before = vals@.map_values(|p: String| p@);
        if cookies[i].name == name {
            vals.push(cookies[i].value.clone());
            assert(vals@.map_values(|p: String| p@) =~= before.push(cookies@[i as int].value@));
        } else {
            rest.push(clone_cookie(&cookies[i]));
        }
        i = i + 1;
    }
    assert(cookies@.take(cookies.len() as int) =~= cookies@);
    (vals, rest)
}

/// Adds the `origin` and `referer` headers when the base URL is known.
fn push_origin(headers: &mut Vec<(String, String)>, base_url: &str)
    ensures
        final(headers)@.map_values(|h: (String, String)| (h.0@, h.1@)) == old(headers)@.map_values(
            |h: (String, String)| (h.0@, h.1@),
        ) + origin_headers(base_url@),
{
    let ghost before = headers@.map_values(|h: (String, String)| (h.0@, h.1@));
    if !base_url.is_empty() {
        headers.push(("origin".to_owned(), base_url.to_owned()));
        headers.push(("referer".to_owned(), base_url.to_owned()));
        assert(headers@.map_values(|h: (String, String)| (h.0@, h.1@)) =~= before + origin_headers(base_url@));
    } else {
        assert(headers@.map_values(|h: (String, String)| (h.0@, h.1@)) =~= before + origin_headers(base_url@));
    }
}

/// The headers that every request to the server carries (see
/// `default_headers`), and the cookies the session is to keep when they
/// change (see `deduplicated_cookies`).
pub fn append_default_headers(jsessionid: &str, base_url: &str, cookies: &Vec<Cookie>) -> (r: DefaultHeaders)
    ensures
        r.headers@.map_values(|h: (String, String)| (h.0@, h.1@)) == default_headers(jsessionid@, base_url@, cookies@),
        match r.cookies {
            Some(c) => deduplicated_cookies(jsessionid@, cookies@) == Some(c@),
            None => deduplicated_cookies(jsessionid@, cookies@) is None,
        },
{
    let mut headers: Vec<(String, String)> = Vec::new();
    let (vals, rest) = split_jsession(cookies);
    let ghost vv = vals@.map_values(|p: String| p@);
    if session_is_jwt(jsessionid) {
        headers.push(("authorization".to_owned(), text::concat("Bearer ", jsessionid)));
        let ghost h1 = headers@.map_values(|h: (String, String)| (h.0@, h.1@));
        assert(h1 =~= seq![("authorization"@, "Bearer "@ + jsessionid@)]);
        if vals.len() == 1 {
            headers.push(("cookie".to_owned(), text::concat("JSESSIONID=", vals[0].as_str())));
            assert(vv[0] == vals@[0]@);
        }
        let ghost h2 = headers@.map_values(|h: (String, String)| (h.0@, h.1@));
        assert(h2 =~= h1 + (if vv.len() == 1 {
            seq![("cookie"@, "JSESSIONID="@ + vv[0])]
        } else {
            Seq::empty()
        }));
        push_origin(&mut headers, base_url);
        let cleaned = if vals.len() > 1 {
            Some(rest)
        } else {
            None
        };
        DefaultHeaders { headers, cookies: cleaned }
    } else {
        let mut parts: Vec<String> = Vec::new();
        if !jsessionid.is_empty() {
            parts.push(text::concat("JSESSIONID=", jsessionid));
        }
        let ghost p0 = parts@.map_values(|p: String| p@);
        assert(p0 =~= (if jsessionid@.len() > 0 {
            seq!["JSESSIONID="@ + jsessionid@]
        } else {
            Seq::empty()
        }));
        let mut i: usize = 0;
        while i < cookies.len()
            invariant
                i <= cookies.len(),
                parts@.map_values(|p: String| p@) == p0 + cookie_parts(cookies@).take(i as int),
            decreases cookies.len() - i,
        {
            let ghost before = parts@.map_values(|p: String| p@);
            let mut part = text::concat(cookies[i].name.as_str(), "=");
            part.append(cookies[i].value.as_str());
            assert(part@ == cookie_parts(cookies@)[i as int]);
            assert(p0 + cookie_parts(cookies@).take(i + 1) =~= (p0 + cookie_parts(cookies@).take(i as int)).push(part@));
            parts.push(part);
            assert(parts@.map_values(|p: String| p@) =~= p0 + cookie_parts(cookies@).take(i + 1));
            i = i + 1;
        }
        assert(cookie_parts(cookies@).take(cookies.len() as int) =~= cookie_parts(cookies@));
        if parts.len() > 0 {
            let joined = join_parts(&parts, "; ");
            headers.push(("cookie".to_owned(), joined));
        }
        let ghost h1 = headers@.map_values(|h: (String, String)| (h.0@, h.1@));
        assert(h1 =~= (if parts@.len() > 0 {
            seq![("cookie"@, join(parts@.map_values(|p: String| p@), "; "@))]
        } else {
            Seq::empty()
        }));
        push_origin(&mut headers, base_url);
        DefaultHeaders { headers, cookies: None }
    }
}


/// The session id that a `set-cookie` header hands out: what follows the
/// first `JSESSIONID=` up to the next `;` (none when no `;` follows).
pub open spec fn set_cookie_jsessionid(h: Seq<char>) -> Option<Seq<char>> {
    match text::find_seq(h, "JSESSIONID="@) {
        Some(p) => {
            let rest = h.skip(p as int);
            let e = text::char_pos(rest, ';');
            if e < rest.len() {
                Some(rest.subrange("JSESSIONID="@.len() as int, e as int))
            } else {
                None
            }
        },
        None => None,
    }
}

/// The session id that a response hands a web-token session through its
/// `set-cookie` header, if any.
pub open spec fn new_session_cookie(jsessionid: Seq<char>, set_cookie: Option<Seq<char>>) -> Option<Seq<char>> {
    match set_cookie {
        Some(h) => if is_jwt(jsessionid) {
            set_cookie_jsessionid(h)
        } else {
            None
        },
        None => None,
    }
}

/// Reads the session id out of a `set-cookie` header (see
/// `set_cookie_jsessionid`).
pub fn jsessionid_from_set_cookie(h: &str) -> (r: Option<String>)
    ensures
        match r {
            Some(v) => set_cookie_jsessionid(h@) == Some(v@),
            None => set_cookie_jsessionid(h@) is None,
        },
{
    let c = text::chars_of(h);
    let n = c.len();
    assert(c@.subrange(0, n as int) =~= h@);
    let key = text::chars_of("JSESSIONID=");
    match text::find_at(&c, 0, n, &key) {
        Some(p) => {
            proof {
                text::lemma_find_seq(h@, "JSESSIONID="@);
            }
            let e = text::find_char(&c, p, n, ';');
            proof {
                let rest = h@.skip(p as int);
                assert(rest =~= c@.subrange(p as int, n as int));
                text::lemma_char_pos(rest, ';');
                reveal_strlit("JSESSIONID=");
                assert(rest.take(11) =~= "JSESSIONID="@);
                if e - p < 11 {
                    assert(rest[(e - p) as int] == "JSESSIONID="@[(e - p) as int]);
                }
            }
            if e < n {
                let ghost rest = h@.skip(p as int);
                assert(h@.subrange(p + 11, e as int) =~= rest.subrange(11, (e - p) as int));
                Some(h.substring_char(p + 11, e).to_owned())
            } else {
                None
            }
        },
        None => None,
    }
}

/// The cookies a web-token session keeps once a response hands it a new
/// session id: the `JSESSIONID` cookies replaced by one holding the new id.
/// `None` when the session keeps its cookies.
pub fn refresh_session_cookies(jsessionid: &str, cookies: &Vec<Cookie>, set_cookie: Option<&str>) -> (r: Option<Vec<Cookie>>)
    ensures
        match r {
            Some(c) => {
                &&& new_session_cookie(jsessionid@, match set_cookie { Some(h) => Some(h@), None => None }) matches Some(v)
                &&& c@.len() == without_jsession(cookies@).len() + 1
                &&& c@.take(c@.len() - 1) == without_jsession(cookies@)
                &&& c@.last().name@ == "JSESSIONID"@
                &&& c@.last().value@ == v
                &&& c@.last().domain is None
                &&& c@.last().path is None
            },
            None => new_session_cookie(jsessionid@, match set_cookie { Some(h) => Some(h@), None => None }) is None,
        },
{
    match set_cookie {
        Some(h) => {
            if !session_is_jwt(jsessionid) {
                return None;
            }
            match jsessionid_from_set_cookie(h) {
                Some(v) => {
                    let (_vals, rest) = split_jsession(cookies);
                    let mut out = rest;
                    let ghost before = out@;
                    out.push(Cookie { name: "JSESSIONID".to_owned(), value: v, domain: None, path: None });
                    assert(out@.take(out@.len() - 1) =~= before);
                    Some(out)
                },
                None => None,
            }
        },
        None => None,
    }
}

/// The session id in the `set-cookie` header of a login response: the first
/// `;`-separated piece that, trimmed, starts with `JSESSIONID=`, without that
/// prefix.
pub open spec fn login_jsessionid(s: Seq<char>) -> Option<Seq<char>>
    decreases s.len(),
{
    let n = text::char_pos(s, ';');
    let piece = text::trim(s.take(n as int));
    if "JSESSIONID="@.is_prefix_of(piece) {
        Some(piece.skip("JSESSIONID="@.len() as int))
    } else if n < s.len() {
        login_jsessionid(s.skip(n + 1int))
    } else {
        None
    }
}

/// Reads the session id out of the `set-cookie` header of a login response
/// (see `login_jsessionid`).
pub fn jsessionid_from_login_cookie(h: &str) -> (r: Option<String>)
    ensures
        match r {
            Some(v) => login_jsessionid(h@) == Some(v@),
            None => login_jsessionid(h@) is None,
        },
{
    let c = text::chars_of(h);
    let n = c.len();
    assert(c@.subrange(0, n as int) =~= h@);
    let key = text::chars_of("JSESSIONID=");
    let mut pos: usize = 0;
    loop
        invariant
            pos <= n,
            n == c.len(),
            c@ == h@,
            key@ == "JSESSIONID="@,
            login_jsessionid(h@) == login_jsessionid(c@.subrange(pos as int, n as int)),
        decreases n - pos,
    {
        let ghost rest = c@.subrange(pos as int, n as int);
        let e = text::find_char(&c, pos, n, ';');
        let (a, b) = text::trim_bounds(&c, pos, e);
        proof {
            assert(rest.take(e - pos) =~= c@.subrange(pos as int, e as int));
        }
        if text::starts_with_at(&c, a, b, &key) {
            proof {
                assert(c@.subrange(a as int, b as int).skip(key@.len() as int) =~= c@.subrange(a + key@.len(), b as int));
                assert(key@.len() <= b - a);
            }
            return Some(h.substring_char(a + key.len(), b).to_owned());
        }
        if e < n {
            assert(rest.skip(e - pos + 1) =~= c@.subrange(e + 1, n as int));
            pos = e + 1;
        } else {
            return None;
        }
    }
}

/// Whether an HTTP status tells that the session was refused.
pub open spec fn is_auth_status(status: u16) -> bool {
    status == 401 || status == 403
}

/// Whether an HTTP status tells that the session was refused (401 or 403).
pub fn is_http_auth_failure(status: u16) -> (r: bool)
    ensures
        r == is_auth_status(status),
{
    status == 401 || status == 403
}

/// Whether a response body reports a refused session: a JSON object whose
/// `status` is the string `401` or `failed`. (The server may answer 200 with
/// such a body.)
pub open spec fn body_auth_failure(body: Option<json::Json>) -> bool {
    match body {
        Some(b) => match patches::json_get(b, "status"@) {
            Some(json::Json::Str(s)) => s == "401"@ || s == "failed"@,
            _ => false,
        },
        None => false,
    }
}

/// Whether a response body, parsed as JSON when it is JSON, reports a refused
/// session (see `body_auth_failure`).
pub fn is_body_auth_failure(body: &Option<JsonValue>) -> (r: bool)
    ensures
        r == body_auth_failure(patches::opt_json(*body)),
{
    match body {
        Some(b) => match patches::json_get_ref(b, "status") {
            Some(JsonValue::Str(s)) => *s == "401".to_owned() || *s == "failed".to_owned(),
            _ => false,
        },
        None => false,
    }
}

/// What to do with a text response.
#[derive(Debug, Clone, Copy, PartialEq, Eq, Structural)]
pub enum TextAction {
    /// Record the response and hand it back.
    Accept,
    /// Log in again with the stored credentials and repeat the request.
    Reauthenticate,
    /// Reload the session, which another part of the application may have
    /// renewed, and try again.
    ReloadSession,
}

/// What to do with a text response: a refused session (by status or by
/// body) is renewed with the stored credentials when there are any, and
/// reloaded otherwise; any other response is accepted.
pub open spec fn text_action(status: u16, body: Option<json::Json>, has_credentials: bool) -> TextAction {
    if is_auth_status(status) || body_auth_failure(body) {
        if has_credentials {
            TextAction::Reauthenticate
        } else {
            TextAction::ReloadSession
        }
    } else {
        TextAction::Accept
    }
}

/// Decides what to do with a text response (see `text_action`).
pub fn text_response_action(status: u16, body: &Option<JsonValue>, has_credentials: bool) -> (r: TextAction)
    ensures
        r == text_action(status, patches::opt_json(*body), has_credentials),
{
    if is_http_auth_failure(status) || is_body_auth_failure(body) {
        if has_credentials {
            TextAction::Reauthenticate
        } else {
            TextAction::ReloadSession
        }
    } else {
        TextAction::Accept
    }
}

/// What to do once the session has been reloaded after a refusal.
#[derive(Debug, Clone, Copy, PartialEq, Eq, Structural)]
pub enum ReloadAction {
    /// The session is gone (as during a login): fail.
    SessionCleared,
    /// The session changed: wait a moment, reload it once more and try again.
    TryReloaded,
    /// The session is the one refused: fail with the response.
    GiveUp,
}

/// What to do once the session has been reloaded after a refusal: a reloaded
/// session without id or base URL is gone; one with another id is worth a
/// new try; the same id is not.
pub open spec fn reload_action(reloaded_jsessionid: Seq<char>, reloaded_base_url: Seq<char>, refused_jsessionid: Seq<char>) -> ReloadAction {
    if reloaded_jsessionid.len() == 0 || reloaded_base_url.len() == 0 {
        ReloadAction::SessionCleared
    } else if reloaded_jsessionid != refused_jsessionid {
        ReloadAction::TryReloaded
    } else {
        ReloadAction::GiveUp
    }
}

/// Decides what to do once the session has been reloaded (see `reload_action`).
pub fn session_reload_action(reloaded_jsessionid: &str, reloaded_base_url: &str, refused_jsessionid: &str) -> (r: ReloadAction)
    ensures
        r == reload_action(reloaded_jsessionid@, reloaded_base_url@, refused_jsessionid@),
{
    if reloaded_jsessionid.is_empty() || reloaded_base_url.is_empty() {
        ReloadAction::SessionCleared
    } else if reloaded_jsessionid.to_owned() != refused_jsessionid.to_owned() {
        ReloadAction::TryReloaded
    } else {
        ReloadAction::GiveUp
    }
}

/// Whether a session reloaded a second time can be used: it has both an id
/// and a base URL.
pub fn session_is_usable(jsessionid: &str, base_url: &str) -> (r: bool)
    ensures
        r == (jsessionid@.len() > 0 && base_url@.len() > 0),
{
    !jsessionid.is_empty() && !base_url.is_empty()
}

/// Whether an image or URL request that the server refused (401 or 403)
/// calls for a new login: only when credentials are stored.
pub fn media_needs_reauth(status: u16, has_credentials: bool) -> (r: bool)
    ensures
        r == (is_auth_status(status) && has_credentials),
{
    is_http_auth_failure(status) && has_credentials
}

/// The message of a request whose session was refused and could not be
/// renewed.
pub fn auth_failed_message(response_text: &str) -> (r: String)
    ensures
        r@ == "Authentication failed: "@ + response_text@,
{
    text::concat("Authentication failed: ", response_text)
}


/// Whether the lower-cased text of a network failure marks it as passing
/// (a timeout, or a connection, network, DNS, TLS or certificate problem).
pub open spec fn retryable(lowered: Seq<char>) -> bool {
    ||| text::find_seq(lowered, "timeout"@) is Some
    ||| text::find_seq(lowered, "connection"@) is Some
    ||| text::find_seq(lowered, "network"@) is Some
    ||| text::find_seq(lowered, "dns"@) is Some
    ||| text::find_seq(lowered, "tls"@) is Some
    ||| text::find_seq(lowered, "certificate"@) is Some
}

/// Decides `retryable` on a text that is already lower-cased.
pub fn is_retryable_lowered(lowered: &str) -> (r: bool)
    ensures
        r == retryable(lowered@),
{
    text::str_contains(lowered, "timeout") || text::str_contains(lowered, "connection")
        || text::str_contains(lowered, "network") || text::str_contains(lowered, "dns")
        || text::str_contains(lowered, "tls") || text::str_contains(lowered, "certificate")
}

/// Whether a network failure is worth retrying: its text, lower-cased,
/// names a passing cause (see `retryable`).
pub fn is_retryable_error(error: &str) -> (r: bool)
    ensures
        r == retryable(text::unicode_lowercase(error@)),
{
    let lowered = text::to_lowercase(error);
    is_retryable_lowered(lowered.as_str())
}

/// The wait before the retry that follows attempt `attempt` (counted from
/// 0): one second, doubled after each attempt.
pub open spec fn backoff_ms(attempt: nat) -> nat {
    1000 * vstd::arithmetic::power2::pow2(attempt)
}

/// The wait, in milliseconds, before retrying after attempt `attempt`
/// (counted from 0): `1000 * 2^attempt`.
pub fn retry_delay_ms(attempt: u32) -> (r: u64)
    requires
        attempt <= 32,
    ensures
        r == backoff_ms(attempt as nat),
{
    let mut d: u64 = 1000;
    let mut i: u32 = 0;
    proof {
        vstd::arithmetic::power2::lemma2_to64();
    }
    while i < attempt
        invariant
            i <= attempt <= 32,
            d == backoff_ms(i as nat),
        decreases attempt - i,
    {
        proof {
            vstd::arithmetic::power2::lemma2_to64();
            vstd::arithmetic::power2::lemma_pow2_unfold((i + 1) as nat);
            if i + 1 < 32 {
                vstd::arithmetic::power2::lemma_pow2_strictly_increases((i + 1) as nat, 32);
            }
        }
        d = d * 2;
        i = i + 1;
    }
    d
}

/// What to do after a request could not be sent.
#[derive(Debug)]
pub enum ErrorAction {
    /// Wait this many milliseconds, then try again.
    Retry(u64),
    /// Give up with this message.
    Fail(String),
}

/// Decides what to do after attempt `attempt` (counted from 0) of at most
/// `max_retries + 1` could not be sent: retry after the back-off when the
/// failure is passing and attempts are left, otherwise fail with
/// `HTTP request failed: <error>`.
pub fn send_error_action(attempt: u32, max_retries: u32, error: &str) -> (r: ErrorAction)
    requires
        max_retries <= 32,
    ensures
        match r {
            ErrorAction::Retry(ms) => attempt < max_retries && retryable(text::unicode_lowercase(error@))
                && ms == backoff_ms(attempt as nat),
            ErrorAction::Fail(m) => !(attempt < max_retries && retryable(text::unicode_lowercase(error@)))
                && m@ == "HTTP request failed: "@ + error@,
        },
{
    let retry = is_retryable_error(error);
    if attempt >= max_retries || !retry {
        ErrorAction::Fail(text::concat("HTTP request failed: ", error))
    } else {
        ErrorAction::Retry(retry_delay_ms(attempt))
    }
}

/// The message when every attempt was used up: the last failure, or
/// `Unknown error`.
pub fn attempts_exhausted_message(last_error: Option<&str>) -> (r: String)
    ensures
        r@ == "HTTP request failed: "@ + match last_error {
            Some(e) => e@,
            None => "Unknown error"@,
        },
{
    match last_error {
        Some(e) => text::concat("HTTP request failed: ", e),
        None => text::concat("HTTP request failed: ", "Unknown error"),
    }
}

/// The body of a POST request: the body given (an empty object when none),
/// with the session's web token under `jwt` when the session is a web-token
/// session and the body an object.
pub open spec fn post_body(body: Option<json::Json>, jsessionid: Seq<char>) -> json::Json {
    let b = match body {
        Some(b) => b,
        None => patches::empty_object(),
    };
    match b {
        json::Json::Object(m) => if is_jwt(jsessionid) {
            json::Json::Object(json::obj_insert(m, "jwt"@, json::Json::Str(jsessionid)))
        } else {
            b
        },
        _ => b,
    }
}

/// The body of a POST request (see `post_body`).
pub fn post_request_body(body: Option<JsonValue>, jsessionid: &str) -> (r: JsonValue)
    ensures
        r@ == post_body(patches::opt_json(body), jsessionid@),
{
    let b = match body {
        Some(b) => b,
        None => {
            let e: Vec<(String, JsonValue)> = Vec::new();
            assert(json::entries_view(e@) =~= Seq::<(Seq<char>, json::Json)>::empty());
            JsonValue::Object(e)
        },
    };
    if !session_is_jwt(jsessionid) {
        return b;
    }
    match b {
        JsonValue::Object(m0) => {
            let mut m = m0;
            let ghost before = json::entries_view(m@);
            let v = JsonValue::Str(jsessionid.to_owned());
            let ghost vv = v@;
            let j = json::find_key(&m, "jwt");
            if j < m.len() {
                m.remove(j);
                m.insert(j, ("jwt".to_owned(), v));
                assert(json::entries_view(m@) =~= before.update(j as int, ("jwt"@, vv)));
            } else {
                m.push(("jwt".to_owned(), v));
                assert(json::entries_view(m@) =~= before.push(("jwt"@, vv)));
            }
            JsonValue::Object(m)
        },
        other => other,
    }
}

/// A base URL with `https://` in front, unless it has it already.
pub open spec fn https_url(base_url: Seq<char>) -> Seq<char> {
    if "https://"@.is_prefix_of(base_url) {
        base_url
    } else {
        "https://"@ + base_url
    }
}

/// The base URL with `https://` in front, unless it has it already.
pub fn normalize_https(base_url: &str) -> (r: String)
    ensures
        r@ == https_url(base_url@),
{
    if text::str_starts_with(base_url, "https://") {
        base_url.to_owned()
    } else {
        text::concat("https://", base_url)
    }
}

/// The login endpoint of a server.
pub fn login_url(base_url: &str) -> (r: String)
    ensures
        r@ == https_url(base_url@) + "/seqta/student/login"@,
{
    let base = normalize_https(base_url);
    text::concat(base.as_str(), "/seqta/student/login")
}

/// The heartbeat endpoint of a server, which tells whether a session is alive.
pub fn heartbeat_url(base_url: &str) -> (r: String)
    ensures
        r@ == https_url(base_url@) + "/seqta/student/heartbeat"@,
{
    let base = normalize_https(base_url);
    text::concat(base.as_str(), "/seqta/student/heartbeat")
}

/// Whether an HTTP status is a success (2xx).
pub open spec fn is_success(status: u16) -> bool {
    200 <= status <= 299
}

/// What a login response gives, by its status (and the text of the status,
/// as written in messages) and its `set-cookie` header: the new session id,
/// or why the login failed.
pub open spec fn login_result(status: u16, status_text: Seq<char>, set_cookie: Option<Seq<char>>) -> Result<Seq<char>, Seq<char>> {
    if !is_success(status) {
        if is_auth_status(status) {
            Err("Invalid username or password"@)
        } else {
            Err("Login failed with status: "@ + status_text)
        }
    } else {
        match set_cookie {
            Some(h) => match login_jsessionid(h) {
                Some(j) => Ok(j),
                None => Err("Could not get JSESSIONID from response headers"@),
            },
            None => Err("Could not get JSESSIONID from response headers"@),
        }
    }
}

/// Reads a login response (see `login_result`).
pub fn login_outcome(status: u16, status_text: &str, set_cookie: Option<&str>) -> (r: Result<String, String>)
    ensures
        match r {
            Ok(j) => login_result(status, status_text@, match set_cookie { Some(h) => Some(h@), None => None }) == Ok::<Seq<char>, Seq<char>>(j@),
            Err(m) => login_result(status, status_text@, match set_cookie { Some(h) => Some(h@), None => None }) == Err::<Seq<char>, Seq<char>>(m@),
        },
{
    if !(200 <= status && status <= 299) {
        if is_http_auth_failure(status) {
            Err("Invalid username or password".to_owned())
        } else {
            Err(text::concat("Login failed with status: ", status_text))
        }
    } else {
        match set_cookie {
            Some(h) => match jsessionid_from_login_cookie(h) {
                Some(j) => Ok(j),
                None => Err("Could not get JSESSIONID from response headers".to_owned()),
            },
            None => Err("Could not get JSESSIONID from response headers".to_owned()),
        }
    }
}

/// The HTTP methods that a proxied request may use.
#[derive(Debug, Clone, Copy, PartialEq, Eq, Structural)]
pub enum ProxyMethod {
    Get,
    Post,
    Put,
    Delete,
    Patch,
}

/// Reads the method of a proxied request: `GET`, `POST`, `PUT`, `DELETE` or
/// `PATCH`, exactly; anything else is refused with `Unsupported method: <m>`.
pub fn parse_proxy_method(method: &str) -> (r: Result<ProxyMethod, String>)
    ensures
        match r {
            Ok(ProxyMethod::Get) => method@ == "GET"@,
            Ok(ProxyMethod::Post) => method@ == "POST"@,
            Ok(ProxyMethod::Put) => method@ == "PUT"@,
            Ok(ProxyMethod::Delete) => method@ == "DELETE"@,
            Ok(ProxyMethod::Patch) => method@ == "PATCH"@,
            Err(m) => method@ != "GET"@ && method@ != "POST"@ && method@ != "PUT"@ && method@ != "DELETE"@
                && method@ != "PATCH"@ && m@ == "Unsupported method: "@ + method@,
        },
{
    let m = method.to_owned();
    if m == "GET".to_owned() {
        Ok(ProxyMethod::Get)
    } else if m == "POST".to_owned() {
        Ok(ProxyMethod::Post)
    } else if m == "PUT".to_owned() {
        Ok(ProxyMethod::Put)
    } else if m == "DELETE".to_owned() {
        Ok(ProxyMethod::Delete)
    } else if m == "PATCH".to_owned() {
        Ok(ProxyMethod::Patch)
    } else {
        Err(text::concat("Unsupported method: ", method))
    }
}

/// Dropping the `JSESSIONID` cookies leaves none.
pub proof fn lemma_without_jsession_has_none(c: Seq<Cookie>)
    ensures
        jsession_values(without_jsession(c)) == Seq::<Seq<char>>::empty(),
    decreases c.len(),
{
    if c.len() > 0 {
        lemma_without_jsession_has_none(c.drop_last());
        let w = without_jsession(c.drop_last());
        if c.last().name@ != "JSESSIONID"@ {
            assert(w.push(c.last()).drop_last() =~= w);
        }
    }
}

/// Cleaning up a web-token session's cookies leaves no `JSESSIONID` cookie,
/// so that the next request carries none until the server hands a new one.
pub proof fn law_deduplicated_cookies_hold_no_session_id(jsessionid: Seq<char>, cookies: Seq<Cookie>)
    requires
        deduplicated_cookies(jsessionid, cookies) is Some,
    ensures
        jsession_values(deduplicated_cookies(jsessionid, cookies)->Some_0).len() == 0,
{
    lemma_without_jsession_has_none(cookies);
}

/// Once a response hands a web-token session a new session id, the session
/// keeps exactly one `JSESSIONID` cookie, with that id, and the next request
/// carries it: the cookies refreshed (the others kept, in order, and the new
/// one last) need no clean-up, and the headers are the bearer token, that
/// cookie, and the origin headers.
pub proof fn law_refreshed_session_id_is_sent(
    jsessionid: Seq<char>,
    base_url: Seq<char>,
    cookies: Seq<Cookie>,
    set_cookie: Seq<char>,
    refreshed: Seq<Cookie>,
)
    requires
        new_session_cookie(jsessionid, Some(set_cookie)) is Some,
        refreshed.len() == without_jsession(cookies).len() + 1,
        refreshed.take(refreshed.len() - 1) == without_jsession(cookies),
        refreshed.last().name@ == "JSESSIONID"@,
        refreshed.last().value@ == new_session_cookie(jsessionid, Some(set_cookie))->Some_0,
    ensures
        jsession_values(refreshed) == seq![new_session_cookie(jsessionid, Some(set_cookie))->Some_0],
        deduplicated_cookies(jsessionid, refreshed) is None,
        default_headers(jsessionid, base_url, refreshed) == seq![
            ("authorization"@, "Bearer "@ + jsessionid),
            ("cookie"@, "JSESSIONID="@ + new_session_cookie(jsessionid, Some(set_cookie))->Some_0),
        ] + origin_headers(base_url),
{
    lemma_without_jsession_has_none(cookies);
    assert(refreshed.drop_last() =~= refreshed.take(refreshed.len() - 1));
    assert(jsession_values(refreshed) =~= seq![new_session_cookie(jsessionid, Some(set_cookie))->Some_0]);
    assert(is_jwt(jsessionid));
}

/// A refused session, by status (401 or 403, whichever) or by a body whose
/// `status` is the string `401` or `failed`, is renewed with the stored
/// credentials when there are any, and reloaded otherwise; any other answer
/// is accepted.
pub proof fn law_refused_session_is_renewed(status: u16, body: Option<json::Json>, has_credentials: bool)
    ensures
        (status == 401 || status == 403) && has_credentials ==> text_action(status, body, has_credentials)
            == TextAction::Reauthenticate,
        (status == 401 || status == 403) && !has_credentials ==> text_action(status, body, has_credentials)
            == TextAction::ReloadSession,
        (body matches Some(json::Json::Object(m)) && (json::lookup(m, "status"@) == Some(json::Json::Str("401"@))
            || json::lookup(m, "status"@) == Some(json::Json::Str("failed"@)))) ==> text_action(
            status,
            body,
            has_credentials,
        ) == if has_credentials {
            TextAction::Reauthenticate
        } else {
            TextAction::ReloadSession
        },
        status != 401 && status != 403 && !(body matches Some(json::Json::Object(m)) && (json::lookup(
            m,
            "status"@,
        ) == Some(json::Json::Str("401"@)) || json::lookup(m, "status"@) == Some(json::Json::Str("failed"@))))
            ==> text_action(status, body, has_credentials) == TextAction::Accept,
{
}

/// A network failure whose lower-cased text names a timeout, a connection,
/// the network, DNS, TLS or a certificate is passing, and is retried.
pub proof fn law_passing_failures_are_retryable(lowered: Seq<char>)
    ensures
        text::find_seq(lowered, "timeout"@) is Some ==> retryable(lowered),
        text::find_seq(lowered, "connection"@) is Some ==> retryable(lowered),
        text::find_seq(lowered, "network"@) is Some ==> retryable(lowered),
        text::find_seq(lowered, "dns"@) is Some ==> retryable(lowered),
        text::find_seq(lowered, "tls"@) is Some ==> retryable(lowered),
        text::find_seq(lowered, "certificate"@) is Some ==> retryable(lowered),
{
}

/// The body a web-token session POSTs keeps every field of the body given,
/// and carries the session id under `jwt`; a cookie session sends the body
/// given unchanged.
pub proof fn law_post_body_keeps_fields(m: Seq<(Seq<char>, json::Json)>, jsessionid: Seq<char>, k: Seq<char>)
    ensures
        post_body(Some(json::Json::Object(m)), jsessionid) is Object,
        "eyJ"@.is_prefix_of(jsessionid) ==> json::lookup(
            post_body(Some(json::Json::Object(m)), jsessionid)->Object_0,
            "jwt"@,
        ) == Some(json::Json::Str(jsessionid)),
        k != "jwt"@ ==> json::lookup(post_body(Some(json::Json::Object(m)), jsessionid)->Object_0, k)
            == json::lookup(m, k),
        !"eyJ"@.is_prefix_of(jsessionid) ==> post_body(Some(json::Json::Object(m)), jsessionid) == json::Json::Object(m),
{
    json::lemma_lookup_obj_insert(m, "jwt"@, json::Json::Str(jsessionid), "jwt"@);
    json::lemma_lookup_obj_insert(m, "jwt"@, json::Json::Str(jsessionid), k);
}

} // verus!
