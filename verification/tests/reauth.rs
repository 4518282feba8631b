use desqta::json::JsonValue;
use desqta::reauth::{heartbeat_request_body, login_request_body, ReauthAction, ReauthEvent, Reauthentication};

fn s(x: &str) -> JsonValue {
    JsonValue::Str(x.to_string())
}

fn answered(status: u16, text: &str, cookie: Option<&str>) -> ReauthEvent {
    ReauthEvent::LoginAnswered { status, status_text: text.to_string(), set_cookie: cookie.map(|c| c.to_string()) }
}

fn done(a: ReauthAction) -> Result<String, String> {
    match a {
        ReauthAction::Done(r) => r,
        other => panic!("expected the end, got {:?}", other),
    }
}

#[test]
fn login_and_heartbeat_bodies() {
    assert_eq!(
        login_request_body("u", "p"),
        JsonValue::Object(vec![
            ("username".to_string(), s("u")),
            ("password".to_string(), s("p")),
            ("mode".to_string(), s("normal")),
            ("query".to_string(), JsonValue::Null),
        ])
    );
    assert_eq!(heartbeat_request_body(), JsonValue::Object(vec![("heartbeat".to_string(), JsonValue::Bool(true))]));
}

#[test]
fn successful_login_is_checked_by_a_heartbeat() {
    let (mut run, first) = Reauthentication::start("school.example", "u", "p");
    match first {
        ReauthAction::SendLogin { url, body } => {
            assert_eq!(url, "https://school.example/seqta/student/login");
            assert_eq!(body, login_request_body("u", "p"));
        }
        other => panic!("{:?}", other),
    }
    match run.step(answered(200, "200 OK", Some("JSESSIONID=new; Path=/"))) {
        ReauthAction::SendHeartbeat { url, cookie, body } => {
            assert_eq!(url, "https://school.example/seqta/student/heartbeat");
            assert_eq!(cookie, "JSESSIONID=new");
            assert_eq!(body, heartbeat_request_body());
        }
        other => panic!("{:?}", other),
    }
    assert_eq!(done(run.step(ReauthEvent::HeartbeatAnswered { status: 200 })), Ok("new".to_string()));
}

#[test]
fn failed_logins_send_no_heartbeat() {
    let (mut run, _) = Reauthentication::start("https://s", "u", "p");
    assert_eq!(done(run.step(answered(401, "401 Unauthorized", None))), Err("Invalid username or password".to_string()));
    assert!(!run.expects(&ReauthEvent::HeartbeatAnswered { status: 200 }));
    let (mut run, _) = Reauthentication::start("https://s", "u", "p");
    assert_eq!(
        done(run.step(ReauthEvent::LoginSendFailed { error: "dns error".to_string() })),
        Err("Login request failed: dns error".to_string())
    );
    let (mut run, _) = Reauthentication::start("https://s", "u", "p");
    assert_eq!(
        done(run.step(answered(200, "200 OK", None))),
        Err("Could not get JSESSIONID from response headers".to_string())
    );
}

#[test]
fn failed_heartbeats() {
    let (mut run, _) = Reauthentication::start("https://s", "u", "p");
    run.step(answered(200, "200 OK", Some("JSESSIONID=x;")));
    assert_eq!(
        done(run.step(ReauthEvent::HeartbeatAnswered { status: 401 })),
        Err("Session validation failed".to_string())
    );
    let (mut run, _) = Reauthentication::start("https://s", "u", "p");
    run.step(answered(200, "200 OK", Some("JSESSIONID=x;")));
    assert_eq!(
        done(run.step(ReauthEvent::HeartbeatSendFailed { error: "timeout".to_string() })),
        Err("Heartbeat request failed: timeout".to_string())
    );
}
