//! Logging in again with stored credentials, as a state machine: the login
//! request, then a heartbeat that checks the new session, and the verdict.
//! The caller sends each request and reports what came of it.
use vstd::prelude::*;
use crate::json::{Json, JsonValue};
use crate::request;
use crate::text;

verus! {

/// Where a login stands.
pub enum ReauthPhase {
    /// The login request is out, for the server at this base URL.
    LoggingIn { base_url: String },
    /// The heartbeat is out, checking the session of this id.
    Validating { jsessionid: String },
    /// The login is over.
    Finished,
}

/// What came of the last request.
pub enum ReauthEvent {
    /// The login request could not be sent.
    LoginSendFailed { error: String },
    /// The server answered the login with this status (and its text, as
    /// written in messages) and this `set-cookie` header, if readable.
    LoginAnswered { status: u16, status_text: String, set_cookie: Option<String> },
    /// The heartbeat could not be sent.
    HeartbeatSendFailed { error: String },
    /// The server answered the heartbeat with this status.
    HeartbeatAnswered { status: u16 },
}

/// What to do next.
#[derive(Debug)]
pub enum ReauthAction {
    /// POST this JSON body to this URL (the login).
    SendLogin { url: String, body: JsonValue },
    /// POST this JSON body to this URL with this `Cookie` header (the
    /// heartbeat).
    SendHeartbeat { url: String, cookie: String, body: JsonValue },
    /// The login is over: the new session id, or why it failed.
    Done(Result<String, String>),
}

/// A login in progress.
pub struct Reauthentication {
    phase: ReauthPhase,
}

/// The mathematical form of a phase.
pub enum RPhase {
    LoggingIn(Seq<char>),
    Validating(Seq<char>),
    Finished,
}

/// The mathematical form of an event.
pub enum REvent {
    LoginSendFailed(Seq<char>),
    LoginAnswered(u16, Seq<char>, Option<Seq<char>>),
    HeartbeatSendFailed(Seq<char>),
    HeartbeatAnswered(u16),
}

/// The mathematical form of an action.
pub enum RAction {
    SendLogin(Seq<char>, Json),
    SendHeartbeat(Seq<char>, Seq<char>, Json),
    Done(Result<Seq<char>, Seq<char>>),
}

impl View for ReauthPhase {
    type V = RPhase;

    open spec fn view(&self) -> RPhase {
        match self {
            ReauthPhase::LoggingIn { base_url } => RPhase::LoggingIn(base_url@),
            ReauthPhase::Validating { jsessionid } => RPhase::Validating(jsessionid@),
            ReauthPhase::Finished => RPhase::Finished,
        }
    }
}

impl View for ReauthEvent {
    type V = REvent;

    open spec fn view(&self) -> REvent {
        match self {
            ReauthEvent::LoginSendFailed { error } => REvent::LoginSendFailed(error@),
            ReauthEvent::LoginAnswered { status, status_text, set_cookie } => REvent::LoginAnswered(
                *status,
                status_text@,
                match set_cookie {
                    Some(h) => Some(h@),
                    None => None,
                },
            ),
            ReauthEvent::HeartbeatSendFailed { error } => REvent::HeartbeatSendFailed(error@),
            ReauthEvent::HeartbeatAnswered { status } => REvent::HeartbeatAnswered(*status),
        }
    }
}

impl View for ReauthAction {
    type V = RAction;

    open spec fn view(&self) -> RAction {
        match self {
            ReauthAction::SendLogin { url, body } => RAction::SendLogin(url@, body@),
            ReauthAction::SendHeartbeat { url, cookie, body } => RAction::SendHeartbeat(url@, cookie@, body@),
            ReauthAction::Done(r) => RAction::Done(
                match r {
                    Ok(j) => Ok(j@),
                    Err(m) => Err(m@),
                },
            ),
        }
    }
}

impl View for Reauthentication {
    type V = RPhase;

    closed spec fn view(&self) -> RPhase {
        self.phase@
    }
}

/// The body of a login request.
pub open spec fn login_body(username: Seq<char>, password: Seq<char>) -> Json {
    Json::Object(
        seq![
            ("username"@, Json::Str(username)),
            ("password"@, Json::Str(password)),
            ("mode"@, Json::Str("normal"@)),
            ("query"@, Json::Null),
        ],
    )
}

/// The body of a heartbeat request.
pub open spec fn heartbeat_body() -> Json {
    Json::Object(seq![("heartbeat"@, Json::Bool(true))])
}

/// Whether a phase waits for an event: the login's outcome while logging in,
/// the heartbeat's while validating, nothing once over.
pub open spec fn reauth_expects(phase: RPhase, e: REvent) -> bool {
    match phase {
        RPhase::LoggingIn(_) => e is LoginSendFailed || e is LoginAnswered,
        RPhase::Validating(_) => e is HeartbeatSendFailed || e is HeartbeatAnswered,
        RPhase::Finished => false,
    }
}

/// One step of a login.
///
/// - Logging in: a login that could not be sent, or that the server refused
///   (see `request::login_result`), ends the run with why, and no heartbeat
///   is sent; otherwise the heartbeat is sent with the new session id as its
///   cookie.
/// - Validating: a heartbeat that could not be sent fails; a success status
///   gives the new session id; any other status fails with `Session
///   validation failed`.
pub open spec fn reauth_step(phase: RPhase, e: REvent) -> (RPhase, RAction) {
    match phase {
        RPhase::LoggingIn(b) => match e {
            REvent::LoginSendFailed(err) => (RPhase::Finished, RAction::Done(Err("Login request failed: "@ + err))),
            REvent::LoginAnswered(status, st, sc) => match request::login_result(status, st, sc) {
                Ok(j) => (
                    RPhase::Validating(j),
                    RAction::SendHeartbeat(
                        request::https_url(b) + "/seqta/student/heartbeat"@,
                        "JSESSIONID="@ + j,
                        heartbeat_body(),
                    ),
                ),
                Err(m) => (RPhase::Finished, RAction::Done(Err(m))),
            },
            _ => (phase, RAction::Done(Err(Seq::empty()))),
        },
        RPhase::Validating(j) => match e {
            REvent::HeartbeatSendFailed(err) => (
                RPhase::Finished,
                RAction::Done(Err("Heartbeat request failed: "@ + err)),
            ),
            REvent::HeartbeatAnswered(status) => if request::is_success(status) {
                (RPhase::Finished, RAction::Done(Ok(j)))
            } else {
                (RPhase::Finished, RAction::Done(Err("Session validation failed"@)))
            },
            _ => (phase, RAction::Done(Err(Seq::empty()))),
        },
        RPhase::Finished => (phase, RAction::Done(Err(Seq::empty()))),
    }
}

/// The body of a login request with these credentials.
pub fn login_request_body(username: &str, password: &str) -> (r: JsonValue)
    ensures
        r@ == login_body(username@, password@),
{
    let mut m: Vec<(String, JsonValue)> = Vec::new();
    m.push(("username".to_owned(), JsonValue::Str(username.to_owned())));
    m.push(("password".to_owned(), JsonValue::Str(password.to_owned())));
    m.push(("mode".to_owned(), JsonValue::Str("normal".to_owned())));
    m.push(("query".to_owned(), JsonValue::Null));
    let r = JsonValue::Object(m);
    assert(crate::json::entries_view(m@) =~= login_body(username@, password@)->Object_0);
    r
}

/// The body of a heartbeat request.
pub fn heartbeat_request_body() -> (r: JsonValue)
    ensures
        r@ == heartbeat_body(),
{
    let mut m: Vec<(String, JsonValue)> = Vec::new();
    m.push(("heartbeat".to_owned(), JsonValue::Bool(true)));
    let r = JsonValue::Object(m);
    assert(crate::json::entries_view(m@) =~= heartbeat_body()->Object_0);
    r
}

impl Reauthentication {
    /// Starts a login with these credentials at the server of this base URL:
    /// its first action sends the login request to the server's login
    /// endpoint.
    pub fn start(base_url: &str, username: &str, password: &str) -> (r: (Self, ReauthAction))
        ensures
            r.0@ == RPhase::LoggingIn(base_url@),
            r.1@ == RAction::SendLogin(
                request::https_url(base_url@) + "/seqta/student/login"@,
                login_body(username@, password@),
            ),
    {
        (
            Reauthentication { phase: ReauthPhase::LoggingIn { base_url: base_url.to_owned() } },
            ReauthAction::SendLogin { url: request::login_url(base_url), body: login_request_body(username, password) },
        )
    }

    /// Whether the login waits for this event (see `reauth_expects`).
    pub fn expects(&self, event: &ReauthEvent) -> (r: bool)
        ensures
            r == reauth_expects(self@, event@),
    {
        match &self.phase {
            ReauthPhase::LoggingIn { .. } => matches!(event, ReauthEvent::LoginSendFailed { .. })
                || matches!(event, ReauthEvent::LoginAnswered { .. }),
            ReauthPhase::Validating { .. } => matches!(event, ReauthEvent::HeartbeatSendFailed { .. })
                || matches!(event, ReauthEvent::HeartbeatAnswered { .. }),
            ReauthPhase::Finished => false,
        }
    }

    /// Takes the next step (see `reauth_step`).
    pub fn step(&mut self, event: ReauthEvent) -> (a: ReauthAction)
        requires
            reauth_expects(old(self)@, event@),
        ensures
            (final(self)@, a@) == reauth_step(old(self)@, event@),
    {
        let mut phase = ReauthPhase::Finished;
        std::mem::swap(&mut phase, &mut self.phase);
        match phase {
            ReauthPhase::LoggingIn { base_url } => match event {
                ReauthEvent::LoginSendFailed { error } => ReauthAction::Done(
                    Err(text::concat("Login request failed: ", error.as_str())),
                ),
                ReauthEvent::LoginAnswered { status, status_text, set_cookie } => {
                    let sc = match &set_cookie {
                        Some(h) => Some(h.as_str()),
                        None => None,
                    };
                    match request::login_outcome(status, status_text.as_str(), sc) {
                        Ok(j) => {
                            let cookie = text::concat("JSESSIONID=", j.as_str());
                            self.phase = ReauthPhase::Validating { jsessionid: j };
                            ReauthAction::SendHeartbeat {
                                url: request::heartbeat_url(base_url.as_str()),
                                cookie,
                                body: heartbeat_request_body(),
                            }
                        },
                        Err(m) => ReauthAction::Done(Err(m)),
                    }
                },
                _ => {
                    self.phase = ReauthPhase::LoggingIn { base_url };
                    ReauthAction::Done(Err(String::new()))
                },
            },
            ReauthPhase::Validating { jsessionid } => match event {
                ReauthEvent::HeartbeatSendFailed { error } => ReauthAction::Done(
                    Err(text::concat("Heartbeat request failed: ", error.as_str())),
                ),
                ReauthEvent::HeartbeatAnswered { status } => {
                    if 200 <= status && status <= 299 {
                        ReauthAction::Done(Ok(jsessionid))
                    } else {
                        ReauthAction::Done(Err("Session validation failed".to_owned()))
                    }
                },
                _ => {
                    self.phase = ReauthPhase::Validating { jsessionid };
                    ReauthAction::Done(Err(String::new()))
                },
            },
            ReauthPhase::Finished => ReauthAction::Done(Err(String::new())),
        }
    }
}

/// No heartbeat follows a login that failed: after the login's outcome, a
/// heartbeat is sent exactly when the server accepted the login and handed
/// out a session id, and then with that id as its cookie; otherwise the run
/// is over.
pub proof fn law_heartbeat_only_after_login(base_url: Seq<char>, e: REvent)
    requires
        reauth_expects(RPhase::LoggingIn(base_url), e),
    ensures
        (reauth_step(RPhase::LoggingIn(base_url), e).1 is SendHeartbeat) == (e matches REvent::LoginAnswered(
            status,
            st,
            sc,
        ) && request::login_result(status, st, sc) is Ok),
        !(reauth_step(RPhase::LoggingIn(base_url), e).1 is SendHeartbeat) ==> reauth_step(
            RPhase::LoggingIn(base_url),
            e,
        ).0 is Finished,
{
}

} // verus!
