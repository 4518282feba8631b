//! The requests that the application's commands make, and what they compute
//! around them: file uploads, proxied requests, images, the login window.
use vstd::prelude::*;
use crate::json::JsonValue;
use crate::json;
use crate::patches;
use crate::request::RequestMethod;
use crate::request;
use crate::text;

verus! {

/// A request to the server, as `fetch_api_data` takes it.
pub struct FetchRequest {
    pub url: String,
    pub method: RequestMethod,
    pub headers: Option<Vec<(String, String)>>,
    pub body: Option<JsonValue>,
    pub parameters: Option<Vec<(String, String)>>,
    pub is_image: bool,
    pub return_url: bool,
    pub parse_html: Option<bool>,
}

/// The request of an API read: a GET of `url` with `parameters`.
pub fn get_api_data(url: &str, parameters: Vec<(String, String)>, parse_html: Option<bool>) -> (r: FetchRequest)
    ensures
        r.url@ == url@,
        r.method == RequestMethod::GET,
        r.headers is None,
        r.body is None,
        r.parameters == Some(parameters),
        !r.is_image,
        !r.return_url,
        r.parse_html == parse_html,
{
    FetchRequest {
        url: url.to_owned(),
        method: RequestMethod::GET,
        headers: None,
        body: None,
        parameters: Some(parameters),
        is_image: false,
        return_url: false,
        parse_html,
    }
}

/// The request of an API write: a POST of `data` to `url` with `parameters`.
pub fn post_api_data(url: &str, data: JsonValue, parameters: Vec<(String, String)>, parse_html: Option<bool>) -> (r: FetchRequest)
    ensures
        r.url@ == url@,
        r.method == RequestMethod::POST,
        r.headers is None,
        r.body == Some(data),
        r.parameters == Some(parameters),
        !r.is_image,
        !r.return_url,
        r.parse_html == parse_html,
{
    FetchRequest {
        url: url.to_owned(),
        method: RequestMethod::POST,
        headers: None,
        body: Some(data),
        parameters: Some(parameters),
        is_image: false,
        return_url: false,
        parse_html,
    }
}

/// The request for a file kept by SEQTA: a GET of the file-loading endpoint
/// with the file's type and id, answered by the URL the server redirects to.
pub fn get_seqta_file(file_type: &str, uuid: &str) -> (r: FetchRequest)
    ensures
        r.url@ == "/seqta/student/load/file"@,
        r.method == RequestMethod::GET,
        r.headers is None,
        r.body is None,
        r.parameters matches Some(p) && patches::pairs_view(p@) == json::obj_insert(
            seq![("type"@, file_type@)],
            "file"@,
            uuid@,
        ),
        !r.is_image,
        r.return_url,
        r.parse_html is None,
{
    let mut params: Vec<(String, String)> = Vec::new();
    assert(patches::pairs_view(params@) =~= Seq::<(Seq<char>, Seq<char>)>::empty());
    patches::insert_pair(&mut params, "type".to_owned(), file_type.to_owned());
    assert(patches::pairs_view(params@) =~= seq![("type"@, file_type@)]);
    patches::insert_pair(&mut params, "file".to_owned(), uuid.to_owned());
    FetchRequest {
        url: "/seqta/student/load/file".to_owned(),
        method: RequestMethod::GET,
        headers: None,
        body: None,
        parameters: Some(params),
        is_image: false,
        return_url: true,
        parse_html: None,
    }
}

/// The character of a decimal digit.
pub open spec fn digit_char(d: nat) -> char {
    (48 + d) as char
}

/// The decimal writing of a number.
pub open spec fn decimal(n: nat) -> Seq<char>
    decreases n,
{
    if n < 10 {
        seq![digit_char(n)]
    } else {
        decimal(n / 10).push(digit_char(n % 10))
    }
}

fn digit_text(d: u64) -> (r: &'static str)
    requires
        d < 10,
    ensures
        r@ == seq![digit_char(d as nat)],
{
    proof {
        reveal_strlit("0");
        reveal_strlit("1");
        reveal_strlit("2");
        reveal_strlit("3");
        reveal_strlit("4");
        reveal_strlit("5");
        reveal_strlit("6");
        reveal_strlit("7");
        reveal_strlit("8");
        reveal_strlit("9");
    }
    let r = if d == 0 {
        "0"
    } else if d == 1 {
        "1"
    } else if d == 2 {
        "2"
    } else if d == 3 {
        "3"
    } else if d == 4 {
        "4"
    } else if d == 5 {
        "5"
    } else if d == 6 {
        "6"
    } else if d == 7 {
        "7"
    } else if d == 8 {
        "8"
    } else {
        "9"
    };
    assert(r@ =~= seq![digit_char(d as nat)]);
    r
}

/// The decimal writing of a number.
pub fn decimal_text(n: u64) -> (r: String)
    ensures
        r@ == decimal(n as nat),
    decreases n,
{
    if n < 10 {
        digit_text(n).to_owned()
    } else {
        let mut r = decimal_text(n / 10);
        r.append(digit_text(n % 10));
        r
    }
}

/// A decimal digit.
pub open spec fn is_digit(c: char) -> bool {
    '0' <= c && c <= '9'
}

/// The number that a run of decimal digits writes.
pub open spec fn digits_value(s: Seq<char>) -> nat
    decreases s.len(),
{
    if s.len() == 0 {
        0
    } else {
        digits_value(s.drop_last()) * 10 + ((s.last() as int) - 48) as nat
    }
}

/// The digits of a number's text: without its leading `+`, if any.
pub open spec fn unsigned_digits(s: Seq<char>) -> Seq<char> {
    if s.len() > 0 && s[0] == '+' {
        s.drop_first()
    } else {
        s
    }
}

/// Every character is a decimal digit.
pub open spec fn all_digits(d: Seq<char>) -> bool {
    forall|i: int| 0 <= i < d.len() ==> is_digit(#[trigger] d[i])
}

/// What `u64::from_str` reads: an optional `+` and then one or more decimal
/// digits whose number fits in a `u64`; anything else is refused.
pub open spec fn parse_u64(s: Seq<char>) -> Option<u64> {
    let d = unsigned_digits(s);
    if d.len() > 0 && all_digits(d) && digits_value(d) <= u64::MAX {
        Some(digits_value(d) as u64)
    } else {
        None
    }
}

/// A longer run of digits writes a number no smaller.
proof fn lemma_digits_value_grows(s: Seq<char>, k: int)
    requires
        0 <= k <= s.len(),
        forall|i: int| 0 <= i < s.len() ==> is_digit(#[trigger] s[i]),
    ensures
        digits_value(s.take(k)) <= digits_value(s),
    decreases s.len(),
{
    if k < s.len() {
        assert(s.drop_last().take(k) =~= s.take(k));
        lemma_digits_value_grows(s.drop_last(), k);
        assert(is_digit(s[s.len() - 1]));
    } else {
        assert(s.take(k) =~= s);
    }
}

/// Reads a decimal `u64` (see `parse_u64`).
pub fn parse_u64_text(s: &str) -> (r: Option<u64>)
    ensures
        r == parse_u64(s@),
{
    let c = text::chars_of(s);
    let n = c.len();
    let start: usize = if n > 0 && c[0] == '+' { 1 } else { 0 };
    let ghost d = unsigned_digits(s@);
    assert(d =~= c@.subrange(start as int, n as int));
    if start >= n {
        return None;
    }
    let mut v: u64 = 0;
    let mut i = start;
    assert(d.take(0) =~= Seq::<char>::empty());
    while i < n
        invariant
            start <= i <= n,
            n == c.len(),
            c@ == s@,
            d == unsigned_digits(s@),
            d == c@.subrange(start as int, n as int),
            forall|j: int| 0 <= j < i - start ==> is_digit(#[trigger] d[j]),
            v == digits_value(d.take(i - start)),
        decreases n - i,
    {
        let ch = c[i];
        assert(d[i - start] == ch);
        if !('0' <= ch && ch <= '9') {
            assert(!is_digit(d[i - start]));
            assert(!all_digits(d));
            return None;
        }
        let dg = (ch as u32 - 48) as u64;
        assert(d.take(i - start + 1).drop_last() =~= d.take(i - start));
        if v > (u64::MAX - dg) / 10 {
            proof {
                assert(v * 10 + dg > u64::MAX) by (nonlinear_arith)
                    requires
                        v > (u64::MAX - dg) / 10,
                        dg <= 9,
                ;
                assert(digits_value(d.take(i - start + 1)) == v * 10 + dg);
                if all_digits(d) {
                    lemma_digits_value_grows(d, i - start + 1);
                }
            }
            return None;
        }
        v = v * 10 + dg;
        i = i + 1;
    }
    assert(d.take(n - start) =~= d);
    Some(v)
}

/// The upload size limit, in megabytes, that the server's configuration
/// sets: the text under `coneqt-s`, `filesize`, `limit`, `value`, read as a
/// number.
pub open spec fn config_file_size_limit(config: json::Json) -> Option<u64> {
    match patches::json_get(config, "coneqt-s"@) {
        Some(a) => match patches::json_get(a, "filesize"@) {
            Some(b) => match patches::json_get(b, "limit"@) {
                Some(c) => match patches::json_get(c, "value"@) {
                    Some(json::Json::Str(t)) => parse_u64(t),
                    _ => None,
                },
                None => None,
            },
            None => None,
        },
        None => None,
    }
}

/// Reads the upload size limit out of the text of the server's configuration
/// file: none when the text is no JSON, otherwise `config_file_size_limit` of
/// its value.
pub fn get_file_size_limit_from_config(contents: &str) -> (r: Option<u64>)
    ensures
        r == match json::json_text(contents@) {
            Some(j) => config_file_size_limit(j),
            None => None,
        },
{
    match json::parse_json(contents) {
        Some(config) => config_limit(&config),
        None => None,
    }
}

/// The upload size limit of a parsed configuration (see
/// `config_file_size_limit`).
fn config_limit(config: &JsonValue) -> (r: Option<u64>)
    ensures
        r == config_file_size_limit(config@),
{
    match patches::json_get_ref(config, "coneqt-s") {
        Some(a) => match patches::json_get_ref(a, "filesize") {
            Some(b) => match patches::json_get_ref(b, "limit") {
                Some(c) => match patches::json_get_ref(c, "value") {
                    Some(JsonValue::Str(t)) => parse_u64_text(t.as_str()),
                    _ => None,
                },
                None => None,
            },
            None => None,
        },
        None => None,
    }
}

/// Refuses an upload larger than the limit: the size in whole megabytes
/// (bytes divided by 1024 * 1024, rounded down) must not exceed it. The
/// message gives both.
pub fn upload_size_error(file_len: u64, limit_mb: Option<u64>) -> (r: Option<String>)
    ensures
        match r {
            Some(m) => limit_mb matches Some(l) && file_len / 1048576 > l && m@ == "File size ("@ + decimal(
                (file_len / 1048576) as nat,
            ) + ".0 MB) exceeds the limit of "@ + decimal(l as nat) + " MB"@,
            None => !(limit_mb matches Some(l) && file_len / 1048576 > l),
        },
{
    match limit_mb {
        Some(l) => {
            let mb = file_len / (1024 * 1024);
            if mb > l {
                let mut m = text::concat("File size (", decimal_text(mb).as_str());
                m.append(".0 MB) exceeds the limit of ");
                m.append(decimal_text(l).as_str());
                m.append(" MB");
                Some(m)
            } else {
                None
            }
        },
        None => None,
    }
}

/// The bytes that `application/x-www-form-urlencoded` leaves as they are.
pub open spec fn form_unchanged(b: u8) -> bool {
    b == 42 || b == 45 || b == 46 || (48 <= b && b <= 57) || (65 <= b && b <= 90) || b == 95 || (97 <= b && b <= 122)
}

/// An upper-case hexadecimal digit.
pub open spec fn hex_upper(n: int) -> char {
    if n < 10 {
        (48 + n) as char
    } else {
        (55 + n) as char
    }
}

/// The `application/x-www-form-urlencoded` form of some bytes: the bytes
/// above as they are, a space as `+`, any other byte as `%` and two
/// upper-case hexadecimal digits.
pub open spec fn form_urlencoded(b: Seq<u8>) -> Seq<char>
    decreases b.len(),
{
    if b.len() == 0 {
        Seq::empty()
    } else {
        let x = b[0];
        let head = if form_unchanged(x) {
            seq![x as char]
        } else if x == 32 {
            seq!['+']
        } else {
            seq!['%', hex_upper(x as int / 16), hex_upper(x as int % 16)]
        };
        head + form_urlencoded(b.drop_first())
    }
}

/// Calls `url::form_urlencoded::byte_serialize` on the UTF-8 bytes of `s` and
/// joins the pieces. Claimed: the result is `form_urlencoded` of those bytes,
/// as the crate's `ByteSerialize` iterator produces them.
#[verifier::external_body]
fn url_encode(s: &str) -> (r: String)
    ensures
        r@ == form_urlencoded(vstd::utf8::encode_utf8(s@)),
{
    url::form_urlencoded::byte_serialize(s.as_bytes()).collect()
}

/// The headers of a file upload, as the web interface sends them: the file
/// name, form-encoded, and two fixed headers.
pub fn upload_headers(file_name: &str) -> (r: Vec<(String, String)>)
    ensures
        patches::pairs_view(r@) == seq![
            ("X-File-Name"@, form_urlencoded(vstd::utf8::encode_utf8(file_name@))),
            ("X-Accept-Mimes"@, "null"@),
            ("X-Requested-With"@, "XMLHttpRequest"@),
        ],
{
    let mut r: Vec<(String, String)> = Vec::new();
    r.push(("X-File-Name".to_owned(), url_encode(file_name)));
    r.push(("X-Accept-Mimes".to_owned(), "null".to_owned()));
    r.push(("X-Requested-With".to_owned(), "XMLHttpRequest".to_owned()));
    assert(patches::pairs_view(r@) =~= seq![
        ("X-File-Name"@, form_urlencoded(vstd::utf8::encode_utf8(file_name@))),
        ("X-Accept-Mimes"@, "null"@),
        ("X-Requested-With"@, "XMLHttpRequest"@),
    ]);
    r
}

/// The upload endpoint of a server.
pub fn upload_url(base_url: &str) -> (r: String)
    ensures
        r@ == base_url@ + "/seqta/student/file/upload/xhr2"@,
{
    text::concat(base_url, "/seqta/student/file/upload/xhr2")
}

/// The reason phrase that HTTP gives a status code (`404` → `Not Found`), as
/// the `http` crate knows it, or `None` when it knows none.
pub uninterp spec fn canonical_reason(status: u16) -> Option<Seq<char>>;

/// Calls `reqwest::StatusCode::from_u16` and then `canonical_reason`.
/// Claimed: the result is `canonical_reason` of the status (a table lookup on
/// the number alone); a number that is no status code has none.
#[verifier::external_body]
fn status_reason(status: u16) -> (r: Option<String>)
    ensures
        match r {
            Some(t) => canonical_reason(status) == Some(t@),
            None => canonical_reason(status) is None,
        },
{
    match reqwest::StatusCode::from_u16(status) {
        Ok(code) => code.canonical_reason().map(|t| t.to_owned()),
        Err(_) => None,
    }
}

/// The answer to a proxied request: its status, the status's reason phrase
/// (empty when it has none) and its data: the body's JSON when the body text
/// is JSON, otherwise the text itself as a string.
pub fn proxy_response_json(status: u16, text: &str) -> (r: JsonValue)
    ensures
        r@ == json::Json::Object(
            seq![
                ("status"@, json::Json::Number(decimal(status as nat))),
                ("statusText"@, json::Json::Str(match canonical_reason(status) { Some(t) => t, None => ""@ })),
                ("data"@, match json::json_text(text@) {
                    Some(v) => v,
                    None => json::Json::Str(text@),
                }),
            ],
        ),
{
    let ghost target = seq![
        ("status"@, json::Json::Number(decimal(status as nat))),
        ("statusText"@, json::Json::Str(match canonical_reason(status) { Some(t) => t, None => ""@ })),
        ("data"@, match json::json_text(text@) {
            Some(v) => v,
            None => json::Json::Str(text@),
        }),
    ];
    let data = match json::parse_json(text) {
        Some(v) => v,
        None => JsonValue::Str(text.to_owned()),
    };
    proof {
        reveal_strlit("");
    }
    let reason = match status_reason(status) {
        Some(t) => t,
        None => "".to_owned(),
    };
    let mut m: Vec<(String, JsonValue)> = Vec::new();
    m.push(("status".to_owned(), JsonValue::Number(decimal_text(status as u64))));
    m.push(("statusText".to_owned(), JsonValue::Str(reason)));
    m.push(("data".to_owned(), data));
    assert(json::entries_view(m@) =~= target);
    JsonValue::Object(m)
}

/// The digit of the standard base64 alphabet for a number below 64.
pub open spec fn b64_digit(n: int) -> char {
    if n < 26 {
        (65 + n) as char
    } else if n < 52 {
        (97 + n - 26) as char
    } else if n < 62 {
        (48 + n - 52) as char
    } else if n == 62 {
        '+'
    } else {
        '/'
    }
}

/// Standard base64 with padding: each group of three bytes as four digits,
/// a last group of one or two bytes as two or three digits and `=` up to four.
pub open spec fn base64_standard(b: Seq<u8>) -> Seq<char>
    decreases b.len(),
{
    if b.len() == 0 {
        Seq::empty()
    } else if b.len() == 1 {
        seq![b64_digit(b[0] as int / 4), b64_digit((b[0] as int % 4) * 16), '=', '=']
    } else if b.len() == 2 {
        seq![
            b64_digit(b[0] as int / 4),
            b64_digit((b[0] as int % 4) * 16 + b[1] as int / 16),
            b64_digit((b[1] as int % 16) * 4),
            '=',
        ]
    } else {
        seq![
            b64_digit(b[0] as int / 4),
            b64_digit((b[0] as int % 4) * 16 + b[1] as int / 16),
            b64_digit((b[1] as int % 16) * 4 + b[2] as int / 64),
            b64_digit(b[2] as int % 64),
        ] + base64_standard(b.skip(3))
    }
}

/// Calls `Engine::encode` of `base64::engine::general_purpose::STANDARD`.
/// Claimed: the result is the padded standard base64 of the bytes
/// (`base64_standard`). The crate panics when the encoded length overflows
/// `usize`, which the bound on the input rules out.
#[verifier::external_body]
fn base64_encode(bytes: &[u8]) -> (r: String)
    requires
        bytes@.len() <= usize::MAX / 4,
    ensures
        r@ == base64_standard(bytes@),
{
    base64::Engine::encode(&base64::engine::general_purpose::STANDARD, bytes)
}

/// The text an image request answers with: the image's bytes in standard
/// base64.
pub fn image_response_text(bytes: &[u8]) -> (r: String)
    requires
        bytes@.len() <= usize::MAX / 4,
    ensures
        r@ == base64_standard(bytes@),
{
    base64_encode(bytes)
}

/// `url::ParseError`, why a text is no URL.
#[verifier::external_type_specification]
#[verifier::external_body]
pub struct ExUrlParseError(url::ParseError);

/// Whether `url::Url::parse` accepts a text.
pub uninterp spec fn url_parses(s: Seq<char>) -> bool;

/// The serialization of the URL that `url::Url::parse` makes of a text (what
/// `Url::as_str` gives, and `String::from` hands over).
pub uninterp spec fn url_serialization(s: Seq<char>) -> Seq<char>;

/// Calls `url::Url::parse` and hands over the URL's serialization
/// (`String::from(Url)`, the crate's conversion). Claimed: it succeeds
/// exactly when `url_parses` holds of the text; the text it gives is
/// `url_serialization` of the argument (a function of the text alone); and
/// that text parses again to itself, as the crate's own invariant check
/// (`check_invariants`, which parses `self.as_str()` and compares the
/// serializations) holds of every `Url`. Nothing is stated of the error.
#[verifier::external_body]
fn parse_url_text(s: &str) -> (r: Result<String, url::ParseError>)
    ensures
        r is Ok == url_parses(s@),
        r matches Ok(t) ==> t@ == url_serialization(s@),
        r matches Ok(t) ==> url_parses(t@) && url_serialization(t@) == t@,
{
    match url::Url::parse(s) {
        Ok(u) => Ok(String::from(u)),
        Err(e) => Err(e),
    }
}

/// The URL of the login window: `https://` is put in front when missing, the
/// result parsed, written out and parsed again; the text of that URL.
/// Succeeds exactly when the text, so completed, is a URL.
pub fn login_window_url(url: &str) -> (r: Result<String, url::ParseError>)
    ensures
        r is Ok <==> url_parses(request::https_url(url@)),
        r matches Ok(t) ==> t@ == url_serialization(request::https_url(url@)),
{
    let http_url = request::normalize_https(url);
    match parse_url_text(http_url.as_str()) {
        Ok(serialized) => parse_url_text(serialized.as_str()),
        Err(e) => Err(e),
    }
}

} // verus!
