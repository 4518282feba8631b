use desqta::json::JsonValue;
use desqta::request::{
    append_default_headers, attempts_exhausted_message, full_request_url, heartbeat_url, is_body_auth_failure,
    is_retryable_error, jsessionid_from_login_cookie, jsessionid_from_set_cookie, login_outcome, login_url,
    normalize_https, parse_proxy_method, post_request_body, refresh_session_cookies, retry_delay_ms,
    send_error_action, session_is_empty, session_reload_action, text_response_action, Cookie, ErrorAction,
    ProxyMethod, ReloadAction, RequestMethod, TextAction,
};

fn cookie(name: &str, value: &str) -> Cookie {
    Cookie { name: name.to_string(), value: value.to_string(), domain: None, path: None }
}

fn pairs(v: &[(&str, &str)]) -> Vec<(String, String)> {
    v.iter().map(|(a, b)| (a.to_string(), b.to_string())).collect()
}

#[test]
fn request_method_names() {
    assert_eq!(RequestMethod::GET.as_str(), "GET");
    assert_eq!(RequestMethod::POST.as_str(), "POST");
}

#[test]
fn full_url_joins_relative_paths() {
    assert_eq!(full_request_url("/seqta/student/load", "https://school.example"), "https://school.example/seqta/student/load");
    assert_eq!(full_request_url("https://other/x", "https://school.example"), "https://other/x");
    assert_eq!(full_request_url("httpfoo", "b"), "httpfoo");
}

#[test]
fn empty_session_detection() {
    assert!(session_is_empty("", ""));
    assert!(!session_is_empty("abc", ""));
    assert!(!session_is_empty("", "https://s"));
}

#[test]
fn cookie_session_headers() {
    let h = append_default_headers("ABC", "https://s", &vec![cookie("a", "1"), cookie("b", "2")]);
    assert_eq!(
        h.headers,
        pairs(&[("cookie", "JSESSIONID=ABC; a=1; b=2"), ("origin", "https://s"), ("referer", "https://s")])
    );
    assert!(h.cookies.is_none());
    let h = append_default_headers("", "", &vec![]);
    assert!(h.headers.is_empty());
}

#[test]
fn jwt_session_headers() {
    let h = append_default_headers("eyJtoken", "", &vec![cookie("JSESSIONID", "s1"), cookie("x", "y")]);
    assert_eq!(h.headers, pairs(&[("authorization", "Bearer eyJtoken"), ("cookie", "JSESSIONID=s1")]));
    assert!(h.cookies.is_none());
    let h = append_default_headers("eyJtoken", "https://s", &vec![cookie("JSESSIONID", "s1"), cookie("x", "y"), cookie("JSESSIONID", "s2")]);
    assert_eq!(h.headers, pairs(&[("authorization", "Bearer eyJtoken"), ("origin", "https://s"), ("referer", "https://s")]));
    let kept = h.cookies.unwrap();
    assert_eq!(kept.len(), 1);
    assert_eq!(kept[0].name, "x");
}

#[test]
fn set_cookie_session_id() {
    assert_eq!(jsessionid_from_set_cookie("JSESSIONID=abc; Path=/").as_deref(), Some("abc"));
    assert_eq!(jsessionid_from_set_cookie("x=1; JSESSIONID=def;").as_deref(), Some("def"));
    assert_eq!(jsessionid_from_set_cookie("JSESSIONID=abc"), None);
    assert_eq!(jsessionid_from_set_cookie("other=1;"), None);
}

#[test]
fn session_cookies_refresh_for_jwt_only() {
    let cookies = vec![cookie("JSESSIONID", "old"), cookie("k", "v")];
    let r = refresh_session_cookies("eyJt", &cookies, Some("JSESSIONID=new; HttpOnly")).unwrap();
    assert_eq!(r.len(), 2);
    assert_eq!(r[0].name, "k");
    assert_eq!(r[1].name, "JSESSIONID");
    assert_eq!(r[1].value, "new");
    assert!(refresh_session_cookies("plain", &cookies, Some("JSESSIONID=new;")).is_none());
    assert!(refresh_session_cookies("eyJt", &cookies, None).is_none());
}

#[test]
fn login_cookie_session_id() {
    assert_eq!(jsessionid_from_login_cookie("JSESSIONID=abc; Path=/; HttpOnly").as_deref(), Some("abc"));
    assert_eq!(jsessionid_from_login_cookie("Path=/;  JSESSIONID=xyz ").as_deref(), Some("xyz"));
    assert_eq!(jsessionid_from_login_cookie("Path=/"), None);
}

#[test]
fn auth_failures() {
    let body = Some(JsonValue::Object(vec![("status".to_string(), JsonValue::Str("401".to_string()))]));
    assert!(is_body_auth_failure(&body));
    let failed = Some(JsonValue::Object(vec![("status".to_string(), JsonValue::Str("failed".to_string()))]));
    assert!(is_body_auth_failure(&failed));
    let ok = Some(JsonValue::Object(vec![("status".to_string(), JsonValue::Str("200".to_string()))]));
    assert!(!is_body_auth_failure(&ok));
    assert!(!is_body_auth_failure(&None));
    assert_eq!(text_response_action(200, &body, true), TextAction::Reauthenticate);
    assert_eq!(text_response_action(403, &ok, false), TextAction::ReloadSession);
    assert_eq!(text_response_action(404, &ok, true), TextAction::Accept);
}

#[test]
fn reload_decisions() {
    assert_eq!(session_reload_action("", "https://s", "a"), ReloadAction::SessionCleared);
    assert_eq!(session_reload_action("b", "https://s", "a"), ReloadAction::TryReloaded);
    assert_eq!(session_reload_action("a", "https://s", "a"), ReloadAction::GiveUp);
}

#[test]
fn retry_decisions() {
    assert!(is_retryable_error("Connection reset by peer"));
    assert!(is_retryable_error("operation TIMEOUT"));
    assert!(!is_retryable_error("404 not found"));
    assert_eq!(retry_delay_ms(0), 1000);
    assert_eq!(retry_delay_ms(2), 4000);
    match send_error_action(1, 3, "dns error") {
        ErrorAction::Retry(ms) => assert_eq!(ms, 2000),
        other => panic!("{:?}", other),
    }
    match send_error_action(3, 3, "dns error") {
        ErrorAction::Fail(m) => assert_eq!(m, "HTTP request failed: dns error"),
        other => panic!("{:?}", other),
    }
    match send_error_action(0, 3, "bad request") {
        ErrorAction::Fail(m) => assert_eq!(m, "HTTP request failed: bad request"),
        other => panic!("{:?}", other),
    }
    assert_eq!(attempts_exhausted_message(None), "HTTP request failed: Unknown error");
    assert_eq!(attempts_exhausted_message(Some("x")), "HTTP request failed: x");
}

#[test]
fn post_body_gets_jwt() {
    let b = post_request_body(None, "eyJx");
    assert_eq!(b, JsonValue::Object(vec![("jwt".to_string(), JsonValue::Str("eyJx".to_string()))]));
    let b = post_request_body(None, "plain");
    assert_eq!(b, JsonValue::Object(vec![]));
    let b = post_request_body(Some(JsonValue::Array(vec![])), "eyJx");
    assert_eq!(b, JsonValue::Array(vec![]));
}

#[test]
fn login_endpoints() {
    assert_eq!(normalize_https("school.example"), "https://school.example");
    assert_eq!(normalize_https("https://school.example"), "https://school.example");
    assert_eq!(login_url("s.example"), "https://s.example/seqta/student/login");
    assert_eq!(heartbeat_url("https://s.example"), "https://s.example/seqta/student/heartbeat");
    assert_eq!(
        login_outcome(200, "200 OK", Some("JSESSIONID=abc; Path=/; HttpOnly")),
        Ok("abc".to_string())
    );
    assert_eq!(login_outcome(401, "401 Unauthorized", None), Err("Invalid username or password".to_string()));
    assert_eq!(login_outcome(403, "403 Forbidden", None), Err("Invalid username or password".to_string()));
    assert_eq!(
        login_outcome(500, "500 Internal Server Error", None),
        Err("Login failed with status: 500 Internal Server Error".to_string())
    );
    assert_eq!(
        login_outcome(200, "200 OK", Some("other=1")),
        Err("Could not get JSESSIONID from response headers".to_string())
    );
    assert_eq!(
        login_outcome(204, "204 No Content", None),
        Err("Could not get JSESSIONID from response headers".to_string())
    );
}

#[test]
fn proxy_methods() {
    assert_eq!(parse_proxy_method("PATCH"), Ok(ProxyMethod::Patch));
    assert_eq!(parse_proxy_method("get"), Err("Unsupported method: get".to_string()));
}

#[test]
fn refreshed_session_id_is_sent_next() {
    let cookies = vec![cookie("JSESSIONID", "old1"), cookie("k", "v"), cookie("JSESSIONID", "old2")];
    let r = refresh_session_cookies("eyJt", &cookies, Some("a=b; JSESSIONID=fresh; Path=/")).unwrap();
    let h = append_default_headers("eyJt", "https://s", &r);
    assert!(h.cookies.is_none());
    assert_eq!(
        h.headers,
        pairs(&[
            ("authorization", "Bearer eyJt"),
            ("cookie", "JSESSIONID=fresh"),
            ("origin", "https://s"),
            ("referer", "https://s"),
        ])
    );
}

#[test]
fn cleaned_up_cookies_hold_no_session_id() {
    let cookies = vec![cookie("JSESSIONID", "a"), cookie("JSESSIONID", "b"), cookie("z", "1")];
    let kept = append_default_headers("eyJt", "", &cookies).cookies.unwrap();
    assert!(kept.iter().all(|c| c.name != "JSESSIONID"));
    let again = append_default_headers("eyJt", "", &kept);
    assert!(again.cookies.is_none());
    assert_eq!(again.headers, pairs(&[("authorization", "Bearer eyJt")]));
}
