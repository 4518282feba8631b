use desqta::fetch::{FetchAction, FetchEvent, FetchLoop};

fn loaded(j: &str, b: &str) -> FetchEvent {
    FetchEvent::SessionLoaded { jsessionid: j.to_string(), base_url: b.to_string() }
}

fn failed(e: &str) -> FetchEvent {
    FetchEvent::SendFailed { error: e.to_string() }
}

fn text(status: u16, t: &str, cred: bool) -> FetchEvent {
    FetchEvent::TextAnswered { status, text: t.to_string(), has_credentials: cred }
}

fn opened(max_retries: u32) -> FetchLoop {
    let mut lp = FetchLoop::new(max_retries);
    assert!(matches!(lp.step(loaded("abc", "https://s")), FetchAction::RegisterThenLoadSession));
    lp
}

fn fail_message(a: FetchAction) -> String {
    match a {
        FetchAction::Fail(m) => m,
        other => panic!("expected a failure, got {:?}", other),
    }
}

#[test]
fn accepted_text_answer() {
    let mut lp = opened(3);
    assert!(matches!(lp.step(loaded("abc", "https://s")), FetchAction::Send));
    assert!(matches!(lp.step(text(200, "{}", false)), FetchAction::Accept));
    assert!(!lp.expects(&loaded("abc", "https://s")));
}

#[test]
fn empty_session_ends_the_fetch() {
    let mut lp = FetchLoop::new(3);
    assert_eq!(fail_message(lp.step(loaded("", ""))), "No active session found. Please log in again.");
    let mut lp = opened(3);
    assert_eq!(fail_message(lp.step(loaded("", ""))), "Session expired or cleared. Please log in again.");
}

#[test]
fn passing_failures_are_retried_after_one_two_and_four_seconds() {
    let mut lp = opened(3);
    let mut waits = Vec::new();
    for _ in 0..3 {
        assert!(matches!(lp.step(loaded("abc", "https://s")), FetchAction::Send));
        match lp.step(failed("error sending request: Connection refused")) {
            FetchAction::WaitThenLoadSession(ms) => waits.push(ms),
            other => panic!("expected a wait, got {:?}", other),
        }
    }
    assert_eq!(waits, vec![1000, 2000, 4000]);
    assert!(matches!(lp.step(loaded("abc", "https://s")), FetchAction::Send));
    assert_eq!(
        fail_message(lp.step(failed("error sending request: Connection refused"))),
        "HTTP request failed: error sending request: Connection refused"
    );
}

#[test]
fn lasting_failures_are_not_retried() {
    let mut lp = opened(3);
    lp.step(loaded("abc", "https://s"));
    assert_eq!(fail_message(lp.step(failed("builder error"))), "HTTP request failed: builder error");
}

#[test]
fn refused_session_with_credentials_is_renewed() {
    let mut lp = opened(3);
    lp.step(loaded("abc", "https://s"));
    assert!(matches!(lp.step(text(401, "no", true)), FetchAction::Reauthenticate));
}

#[test]
fn refused_session_reloaded_with_the_same_id_fails() {
    let mut lp = opened(3);
    lp.step(loaded("abc", "https://s"));
    assert!(matches!(lp.step(text(200, "{\"status\":\"401\"}", false)), FetchAction::LoadSession));
    assert_eq!(
        fail_message(lp.step(loaded("abc", "https://s"))),
        "Authentication failed: {\"status\":\"401\"}"
    );
}

#[test]
fn refused_session_reloaded_empty_fails() {
    let mut lp = opened(3);
    lp.step(loaded("abc", "https://s"));
    lp.step(text(403, "x", false));
    assert_eq!(
        fail_message(lp.step(loaded("", "https://s"))),
        "Session was cleared. This may happen during login. Please try again after login completes."
    );
}

#[test]
fn renewed_session_is_tried_again_until_attempts_run_out() {
    let mut lp = opened(1);
    lp.step(loaded("abc", "https://s"));
    lp.step(text(401, "x", false));
    assert!(matches!(lp.step(loaded("def", "https://s")), FetchAction::WaitThenLoadSession(100)));
    assert!(matches!(lp.step(loaded("def", "https://s")), FetchAction::LoadSession));
    assert!(matches!(lp.step(loaded("def", "https://s")), FetchAction::Send));
    lp.step(text(401, "y", false));
    lp.step(loaded("ghi", "https://s"));
    assert_eq!(fail_message(lp.step(loaded("ghi", "https://s"))), "HTTP request failed: Unknown error");
}

#[test]
fn renewed_session_that_vanished_fails_with_the_answer() {
    let mut lp = opened(3);
    lp.step(loaded("abc", "https://s"));
    lp.step(text(401, "x", false));
    lp.step(loaded("def", "https://s"));
    assert_eq!(fail_message(lp.step(loaded("def", ""))), "Authentication failed: x");
}

#[test]
fn media_answers() {
    let mut lp = opened(3);
    lp.step(loaded("abc", "https://s"));
    assert!(matches!(
        lp.step(FetchEvent::MediaAnswered { status: 403, has_credentials: true }),
        FetchAction::ReauthenticateMedia
    ));
    let mut lp = opened(3);
    lp.step(loaded("abc", "https://s"));
    assert!(matches!(
        lp.step(FetchEvent::MediaAnswered { status: 401, has_credentials: false }),
        FetchAction::ReturnMedia
    ));
}

fn renewing() -> FetchLoop {
    let mut lp = opened(3);
    lp.step(loaded("abc", "https://s"));
    assert!(matches!(lp.step(text(401, "no", true)), FetchAction::Reauthenticate));
    lp
}

#[test]
fn renewed_session_repeats_the_request_once() {
    let mut lp = renewing();
    assert!(matches!(lp.step(FetchEvent::Reauthenticated { error: None }), FetchAction::LoadSession));
    assert!(matches!(lp.step(loaded("new", "https://s")), FetchAction::Send));
    assert!(matches!(
        lp.step(FetchEvent::RepeatAnswered { status: 200, status_text: "200 OK".to_string() }),
        FetchAction::ReadAndAccept
    ));
    assert!(!lp.expects(&loaded("new", "https://s")));
}

#[test]
fn renewal_failures() {
    let mut lp = renewing();
    assert_eq!(
        fail_message(lp.step(FetchEvent::Reauthenticated { error: Some("Invalid username or password".to_string()) })),
        "Re-authentication failed: Invalid username or password"
    );
    let mut lp = renewing();
    lp.step(FetchEvent::Reauthenticated { error: None });
    lp.step(loaded("new", "https://s"));
    assert_eq!(
        fail_message(lp.step(FetchEvent::RepeatAnswered { status: 500, status_text: "500 Internal Server Error".to_string() })),
        "Request failed after re-authentication: 500 Internal Server Error"
    );
    let mut lp = renewing();
    lp.step(FetchEvent::Reauthenticated { error: None });
    lp.step(loaded("new", "https://s"));
    assert_eq!(fail_message(lp.step(failed("timeout"))), "Request failed after re-authentication: timeout");
}

#[test]
fn media_renewal_asks_for_a_retry() {
    let mut lp = opened(3);
    lp.step(loaded("abc", "https://s"));
    assert!(matches!(
        lp.step(FetchEvent::MediaAnswered { status: 401, has_credentials: true }),
        FetchAction::ReauthenticateMedia
    ));
    assert_eq!(
        fail_message(lp.step(FetchEvent::Reauthenticated { error: None })),
        "AUTH_REQUIRED: Session expired, re-authentication completed. Please retry request."
    );
}
