//! The course of a request to the server, as a state machine: which session
//! to load, when to send, how long to wait before a retry, and how a refused
//! session is renewed. The caller performs each action and reports what came
//! of it.
use vstd::prelude::*;
use crate::json;
use crate::request::{ErrorAction, ReloadAction, TextAction};
use crate::request;
use crate::text;

verus! {

/// Where a fetch stands between two steps.
pub enum FetchPhase {
    /// The fetch has not looked at the session yet.
    Opening,
    /// The session is to be loaded for the next attempt.
    Starting,
    /// The request is out, sent with the session of this id.
    Sent { jsessionid: String },
    /// The server refused the session of id `refused`, answering `text`; the
    /// session is being loaded again.
    Reloading { refused: String, text: String },
    /// The reloaded session differed; after a moment it is loaded once more.
    Rechecking { text: String },
    /// A login with the stored credentials is under way; the request is to be
    /// repeated after it.
    Renewing,
    /// A login with the stored credentials is under way after an image or URL
    /// request was refused.
    RenewingMedia,
    /// The session is loaded again after the login.
    RenewLoading,
    /// The request is out again after the login.
    Repeated,
    /// The fetch is over.
    Finished,
}

/// What came of the last action.
pub enum FetchEvent {
    /// The saved session was loaded: its id and base URL.
    SessionLoaded { jsessionid: String, base_url: String },
    /// The request could not be sent.
    SendFailed { error: String },
    /// The server answered a text request with this status and text; whether
    /// credentials are stored.
    TextAnswered { status: u16, text: String, has_credentials: bool },
    /// The server answered an image or URL request with this status; whether
    /// credentials are stored.
    MediaAnswered { status: u16, has_credentials: bool },
    /// The login with the stored credentials ended: `None` when it succeeded,
    /// or why it failed.
    Reauthenticated { error: Option<String> },
    /// The server answered the repeated request with this status (and its
    /// text, as written in messages).
    RepeatAnswered { status: u16, status_text: String },
}

/// What to do next.
#[derive(Debug)]
pub enum FetchAction {
    /// Register the request in the patch file (replaying its overrides), then
    /// load the saved session.
    RegisterThenLoadSession,
    /// Load the saved session.
    LoadSession,
    /// Send the request with the session just loaded.
    Send,
    /// Wait this many milliseconds, then load the saved session.
    WaitThenLoadSession(u64),
    /// Record the text answer in the patch file and hand it back.
    Accept,
    /// Log in again with the stored credentials and save the new session id.
    Reauthenticate,
    /// Log in again with the stored credentials (the session is not saved).
    ReauthenticateMedia,
    /// Read the text of the repeated request's answer, record it in the patch
    /// file and hand it back.
    ReadAndAccept,
    /// Hand back the image or URL answer.
    ReturnMedia,
    /// End the fetch with this error.
    Fail(String),
}

/// A fetch in progress: the attempt (counted from 0), the number of retries
/// allowed, the last failure to send, and the phase.
pub struct FetchLoop {
    attempt: u32,
    max_retries: u32,
    last_error: Option<String>,
    phase: FetchPhase,
}

/// The mathematical form of a phase.
pub enum Phase {
    Opening,
    Starting,
    Sent(Seq<char>),
    Reloading(Seq<char>, Seq<char>),
    Rechecking(Seq<char>),
    Renewing,
    RenewingMedia,
    RenewLoading,
    Repeated,
    Finished,
}

/// The mathematical form of an event.
pub enum Event {
    SessionLoaded(Seq<char>, Seq<char>),
    SendFailed(Seq<char>),
    TextAnswered(u16, Seq<char>, bool),
    MediaAnswered(u16, bool),
    Reauthenticated(Option<Seq<char>>),
    RepeatAnswered(u16, Seq<char>),
}

/// The mathematical form of an action.
pub enum Action {
    RegisterThenLoadSession,
    LoadSession,
    Send,
    WaitThenLoadSession(u64),
    Accept,
    Reauthenticate,
    ReauthenticateMedia,
    ReadAndAccept,
    ReturnMedia,
    Fail(Seq<char>),
}

/// The mathematical form of a fetch in progress.
pub struct LoopState {
    pub attempt: u32,
    pub max_retries: u32,
    pub last_error: Option<Seq<char>>,
    pub phase: Phase,
}

impl View for FetchPhase {
    type V = Phase;

    open spec fn view(&self) -> Phase {
        match self {
            FetchPhase::Opening => Phase::Opening,
            FetchPhase::Starting => Phase::Starting,
            FetchPhase::Sent { jsessionid } => Phase::Sent(jsessionid@),
            FetchPhase::Reloading { refused, text } => Phase::Reloading(refused@, text@),
            FetchPhase::Rechecking { text } => Phase::Rechecking(text@),
            FetchPhase::Renewing => Phase::Renewing,
            FetchPhase::RenewingMedia => Phase::RenewingMedia,
            FetchPhase::RenewLoading => Phase::RenewLoading,
            FetchPhase::Repeated => Phase::Repeated,
            FetchPhase::Finished => Phase::Finished,
        }
    }
}

impl View for FetchEvent {
    type V = Event;

    open spec fn view(&self) -> Event {
        match self {
            FetchEvent::SessionLoaded { jsessionid, base_url } => Event::SessionLoaded(jsessionid@, base_url@),
            FetchEvent::SendFailed { error } => Event::SendFailed(error@),
            FetchEvent::TextAnswered { status, text, has_credentials } => Event::TextAnswered(
                *status,
                text@,
                *has_credentials,
            ),
            FetchEvent::MediaAnswered { status, has_credentials } => Event::MediaAnswered(*status, *has_credentials),
            FetchEvent::Reauthenticated { error } => Event::Reauthenticated(
                match error {
                    Some(e) => Some(e@),
                    None => None,
                },
            ),
            FetchEvent::RepeatAnswered { status, status_text } => Event::RepeatAnswered(*status, status_text@),
        }
    }
}

impl View for FetchAction {
    type V = Action;

    open spec fn view(&self) -> Action {
        match self {
            FetchAction::RegisterThenLoadSession => Action::RegisterThenLoadSession,
            FetchAction::LoadSession => Action::LoadSession,
            FetchAction::Send => Action::Send,
            FetchAction::WaitThenLoadSession(ms) => Action::WaitThenLoadSession(*ms),
            FetchAction::Accept => Action::Accept,
            FetchAction::Reauthenticate => Action::Reauthenticate,
            FetchAction::ReauthenticateMedia => Action::ReauthenticateMedia,
            FetchAction::ReadAndAccept => Action::ReadAndAccept,
            FetchAction::ReturnMedia => Action::ReturnMedia,
            FetchAction::Fail(m) => Action::Fail(m@),
        }
    }
}

impl View for FetchLoop {
    type V = LoopState;

    closed spec fn view(&self) -> LoopState {
        LoopState {
            attempt: self.attempt,
            max_retries: self.max_retries,
            last_error: match self.last_error {
                Some(e) => Some(e@),
                None => None,
            },
            phase: self.phase@,
        }
    }
}

/// The message when there is no session at all when the fetch begins.
pub open spec fn no_session_message() -> Seq<char> {
    "No active session found. Please log in again."@
}

/// The message when a login with the stored credentials succeeded after an
/// image or URL request was refused.
pub open spec fn auth_required_message() -> Seq<char> {
    "AUTH_REQUIRED: Session expired, re-authentication completed. Please retry request."@
}

/// The message when the session vanished before an attempt.
pub open spec fn session_gone_message() -> Seq<char> {
    "Session expired or cleared. Please log in again."@
}

/// The message when the session, reloaded after a refusal, is empty.
pub open spec fn session_cleared_message() -> Seq<char> {
    "Session was cleared. This may happen during login. Please try again after login completes."@
}

/// A valid fetch: at most 32 retries, and no attempt beyond them while the
/// fetch goes on.
pub open spec fn loop_wf(s: LoopState) -> bool {
    s.max_retries <= 32 && (!(s.phase is Finished) ==> s.attempt <= s.max_retries)
}

/// Whether a phase waits for an event: a loaded session while starting or
/// reloading, the outcome of the send once the request is out, and nothing
/// once the fetch is over.
pub open spec fn expects(phase: Phase, e: Event) -> bool {
    match phase {
        Phase::Sent(_) => e is SendFailed || e is TextAnswered || e is MediaAnswered,
        Phase::Renewing | Phase::RenewingMedia => e is Reauthenticated,
        Phase::Repeated => e is SendFailed || e is RepeatAnswered,
        Phase::Finished => false,
        _ => e is SessionLoaded,
    }
}

/// The same fetch in another phase.
pub open spec fn with_phase(s: LoopState, phase: Phase) -> LoopState {
    LoopState { attempt: s.attempt, max_retries: s.max_retries, last_error: s.last_error, phase }
}

/// One step of a fetch: the state after the event, and the next action.
///
/// - Opening: an empty session ends the fetch; otherwise the request is
///   registered in the patch file and the session loaded for the first
///   attempt.
/// - Starting: an empty session (no id, no base URL) ends the fetch;
///   otherwise the request is sent.
/// - Sent, the send failed: the failure is kept; it is retried after the
///   back-off of the attempt when it is passing and retries are left,
///   otherwise the fetch fails with it.
/// - Sent, a text answer (read as JSON when it is JSON): accepted, renewed with the stored credentials (a
///   login whose new session id is saved), or the session is reloaded (see
///   `request::text_action`).
/// - Renewing: a failed login ends the fetch with why; otherwise the session
///   is loaded and the request sent once more. Its answer is read and
///   accepted on a success status; a failure status or a failure to send ends
///   the fetch.
/// - Sent, an image or URL answer: handed back, unless the session was
///   refused and credentials are stored; then a login (not saved) ends the
///   fetch, asking the caller to retry when it succeeded.
/// - Reloading: an empty session ends the fetch; another session id is
///   checked again after 100 ms; the same id fails with the answer.
/// - Rechecking: a usable session starts the next attempt (or, when none is
///   left, fails with the last failure); otherwise fails with the answer.
///
/// Events a phase does not expect leave the fetch as it is (`step` refuses
/// them).
pub open spec fn fetch_step(s: LoopState, e: Event) -> (LoopState, Action) {
    match s.phase {
        Phase::Opening => match e {
            Event::SessionLoaded(j, b) => if j.len() == 0 && b.len() == 0 {
                (with_phase(s, Phase::Finished), Action::Fail(no_session_message()))
            } else {
                (with_phase(s, Phase::Starting), Action::RegisterThenLoadSession)
            },
            _ => (s, Action::LoadSession),
        },
        Phase::Starting => match e {
            Event::SessionLoaded(j, b) => if j.len() == 0 && b.len() == 0 {
                (with_phase(s, Phase::Finished), Action::Fail(session_gone_message()))
            } else {
                (with_phase(s, Phase::Sent(j)), Action::Send)
            },
            _ => (s, Action::LoadSession),
        },
        Phase::Sent(j) => match e {
            Event::SendFailed(err) => {
                let kept = LoopState {
                    attempt: s.attempt,
                    max_retries: s.max_retries,
                    last_error: Some(err),
                    phase: Phase::Finished,
                };
                if s.attempt < s.max_retries && request::retryable(text::unicode_lowercase(err)) {
                    (
                        LoopState { attempt: (s.attempt + 1) as u32, phase: Phase::Starting, ..kept },
                        Action::WaitThenLoadSession(request::backoff_ms(s.attempt as nat) as u64),
                    )
                } else {
                    (kept, Action::Fail("HTTP request failed: "@ + err))
                }
            },
            Event::TextAnswered(status, t, cred) => match request::text_action(status, json::json_text(t), cred) {
                TextAction::Accept => (with_phase(s, Phase::Finished), Action::Accept),
                TextAction::Reauthenticate => (with_phase(s, Phase::Renewing), Action::Reauthenticate),
                TextAction::ReloadSession => (with_phase(s, Phase::Reloading(j, t)), Action::LoadSession),
            },
            Event::MediaAnswered(status, cred) => if request::is_auth_status(status) && cred {
                (with_phase(s, Phase::RenewingMedia), Action::ReauthenticateMedia)
            } else {
                (with_phase(s, Phase::Finished), Action::ReturnMedia)
            },
            _ => (s, Action::LoadSession),
        },
        Phase::Reloading(refused, t) => match e {
            Event::SessionLoaded(j, b) => match request::reload_action(j, b, refused) {
                ReloadAction::SessionCleared => (with_phase(s, Phase::Finished), Action::Fail(session_cleared_message())),
                ReloadAction::TryReloaded => (with_phase(s, Phase::Rechecking(t)), Action::WaitThenLoadSession(100)),
                ReloadAction::GiveUp => (with_phase(s, Phase::Finished), Action::Fail("Authentication failed: "@ + t)),
            },
            _ => (s, Action::LoadSession),
        },
        Phase::Rechecking(t) => match e {
            Event::SessionLoaded(j, b) => if j.len() > 0 && b.len() > 0 {
                if s.attempt < s.max_retries {
                    (
                        LoopState { attempt: (s.attempt + 1) as u32, phase: Phase::Starting, ..s },
                        Action::LoadSession,
                    )
                } else {
                    (
                        with_phase(s, Phase::Finished),
                        Action::Fail(
                            "HTTP request failed: "@ + match s.last_error {
                                Some(err) => err,
                                None => "Unknown error"@,
                            },
                        ),
                    )
                }
            } else {
                (with_phase(s, Phase::Finished), Action::Fail("Authentication failed: "@ + t))
            },
            _ => (s, Action::LoadSession),
        },
        Phase::Renewing => match e {
            Event::Reauthenticated(err) => match err {
                Some(m) => (with_phase(s, Phase::Finished), Action::Fail("Re-authentication failed: "@ + m)),
                None => (with_phase(s, Phase::RenewLoading), Action::LoadSession),
            },
            _ => (s, Action::LoadSession),
        },
        Phase::RenewingMedia => match e {
            Event::Reauthenticated(err) => match err {
                Some(m) => (with_phase(s, Phase::Finished), Action::Fail("Re-authentication failed: "@ + m)),
                None => (with_phase(s, Phase::Finished), Action::Fail(auth_required_message())),
            },
            _ => (s, Action::LoadSession),
        },
        Phase::RenewLoading => match e {
            Event::SessionLoaded(_, _) => (with_phase(s, Phase::Repeated), Action::Send),
            _ => (s, Action::LoadSession),
        },
        Phase::Repeated => match e {
            Event::RepeatAnswered(status, st) => if request::is_success(status) {
                (with_phase(s, Phase::Finished), Action::ReadAndAccept)
            } else {
                (with_phase(s, Phase::Finished), Action::Fail("Request failed after re-authentication: "@ + st))
            },
            Event::SendFailed(err) => (
                with_phase(s, Phase::Finished),
                Action::Fail("Request failed after re-authentication: "@ + err),
            ),
            _ => (s, Action::LoadSession),
        },
        Phase::Finished => (s, Action::LoadSession),
    }
}

impl FetchLoop {
    /// A fetch about to begin, with `max_retries` retries allowed. Its first
    /// action is to load the session.
    pub fn new(max_retries: u32) -> (r: Self)
        requires
            max_retries <= 32,
        ensures
            r@ == (LoopState { attempt: 0, max_retries, last_error: None, phase: Phase::Opening }),
    {
        FetchLoop { attempt: 0, max_retries, last_error: None, phase: FetchPhase::Opening }
    }

    /// Whether the fetch waits for this event (see `expects`).
    pub fn expects(&self, event: &FetchEvent) -> (r: bool)
        ensures
            r == expects(self@.phase, event@),
    {
        match &self.phase {
            FetchPhase::Sent { .. } => matches!(event, FetchEvent::SendFailed { .. })
                || matches!(event, FetchEvent::TextAnswered { .. })
                || matches!(event, FetchEvent::MediaAnswered { .. }),
            FetchPhase::Renewing => matches!(event, FetchEvent::Reauthenticated { .. }),
            FetchPhase::RenewingMedia => matches!(event, FetchEvent::Reauthenticated { .. }),
            FetchPhase::Repeated => matches!(event, FetchEvent::SendFailed { .. })
                || matches!(event, FetchEvent::RepeatAnswered { .. }),
            FetchPhase::Finished => false,
            _ => matches!(event, FetchEvent::SessionLoaded { .. }),
        }
    }

    /// Takes the next step (see `fetch_step`).
    pub fn step(&mut self, event: FetchEvent) -> (a: FetchAction)
        requires
            loop_wf(old(self)@),
            expects(old(self)@.phase, event@),
        ensures
            (final(self)@, a@) == fetch_step(old(self)@, event@),
            loop_wf(final(self)@),
    {
        let mut phase = FetchPhase::Finished;
        std::mem::swap(&mut phase, &mut self.phase);
        match phase {
            FetchPhase::Opening => match event {
                FetchEvent::SessionLoaded { jsessionid, base_url } => {
                    if request::session_is_empty(jsessionid.as_str(), base_url.as_str()) {
                        FetchAction::Fail("No active session found. Please log in again.".to_owned())
                    } else {
                        self.phase = FetchPhase::Starting;
                        FetchAction::RegisterThenLoadSession
                    }
                },
                _ => {
                    self.phase = FetchPhase::Opening;
                    FetchAction::LoadSession
                },
            },
            FetchPhase::Starting => match event {
                FetchEvent::SessionLoaded { jsessionid, base_url } => {
                    if request::session_is_empty(jsessionid.as_str(), base_url.as_str()) {
                        FetchAction::Fail("Session expired or cleared. Please log in again.".to_owned())
                    } else {
                        self.phase = FetchPhase::Sent { jsessionid };
                        FetchAction::Send
                    }
                },
                _ => {
                    self.phase = FetchPhase::Starting;
                    FetchAction::LoadSession
                },
            },
            FetchPhase::Sent { jsessionid } => match event {
                FetchEvent::SendFailed { error } => {
                    let r = request::send_error_action(self.attempt, self.max_retries, error.as_str());
                    self.last_error = Some(error);
                    match r {
                        ErrorAction::Retry(ms) => {
                            self.attempt = self.attempt + 1;
                            self.phase = FetchPhase::Starting;
                            FetchAction::WaitThenLoadSession(ms)
                        },
                        ErrorAction::Fail(m) => FetchAction::Fail(m),
                    }
                },
                FetchEvent::TextAnswered { status, text, has_credentials } => {
                    let body = json::parse_json(text.as_str());
                    match request::text_response_action(status, &body, has_credentials) {
                        TextAction::Accept => FetchAction::Accept,
                        TextAction::Reauthenticate => {
                            self.phase = FetchPhase::Renewing;
                            FetchAction::Reauthenticate
                        },
                        TextAction::ReloadSession => {
                            self.phase = FetchPhase::Reloading { refused: jsessionid, text };
                            FetchAction::LoadSession
                        },
                    }
                },
                FetchEvent::MediaAnswered { status, has_credentials } => {
                    if request::media_needs_reauth(status, has_credentials) {
                        self.phase = FetchPhase::RenewingMedia;
                        FetchAction::ReauthenticateMedia
                    } else {
                        FetchAction::ReturnMedia
                    }
                },
                _ => {
                    self.phase = FetchPhase::Sent { jsessionid };
                    FetchAction::LoadSession
                },
            },
            FetchPhase::Reloading { refused, text } => match event {
                FetchEvent::SessionLoaded { jsessionid, base_url } => {
                    match request::session_reload_action(jsessionid.as_str(), base_url.as_str(), refused.as_str()) {
                        ReloadAction::SessionCleared => FetchAction::Fail(
                            "Session was cleared. This may happen during login. Please try again after login completes.".to_owned(),
                        ),
                        ReloadAction::TryReloaded => {
                            self.phase = FetchPhase::Rechecking { text };
                            FetchAction::WaitThenLoadSession(100)
                        },
                        ReloadAction::GiveUp => FetchAction::Fail(request::auth_failed_message(text.as_str())),
                    }
                },
                _ => {
                    self.phase = FetchPhase::Reloading { refused, text };
                    FetchAction::LoadSession
                },
            },
            FetchPhase::Rechecking { text } => match event {
                FetchEvent::SessionLoaded { jsessionid, base_url } => {
                    if request::session_is_usable(jsessionid.as_str(), base_url.as_str()) {
                        if self.attempt < self.max_retries {
                            self.attempt = self.attempt + 1;
                            self.phase = FetchPhase::Starting;
                            FetchAction::LoadSession
                        } else {
                            let last = match &self.last_error {
                                Some(e) => Some(e.as_str()),
                                None => None,
                            };
                            FetchAction::Fail(request::attempts_exhausted_message(last))
                        }
                    } else {
                        FetchAction::Fail(request::auth_failed_message(text.as_str()))
                    }
                },
                _ => {
                    self.phase = FetchPhase::Rechecking { text };
                    FetchAction::LoadSession
                },
            },
            FetchPhase::Renewing => match event {
                FetchEvent::Reauthenticated { error } => match error {
                    Some(m) => FetchAction::Fail(text::concat("Re-authentication failed: ", m.as_str())),
                    None => {
                        self.phase = FetchPhase::RenewLoading;
                        FetchAction::LoadSession
                    },
                },
                _ => {
                    self.phase = FetchPhase::Renewing;
                    FetchAction::LoadSession
                },
            },
            FetchPhase::RenewingMedia => match event {
                FetchEvent::Reauthenticated { error } => match error {
                    Some(m) => FetchAction::Fail(text::concat("Re-authentication failed: ", m.as_str())),
                    None => FetchAction::Fail(
                        "AUTH_REQUIRED: Session expired, re-authentication completed. Please retry request.".to_owned(),
                    ),
                },
                _ => {
                    self.phase = FetchPhase::RenewingMedia;
                    FetchAction::LoadSession
                },
            },
            FetchPhase::RenewLoading => match event {
                FetchEvent::SessionLoaded { .. } => {
                    self.phase = FetchPhase::Repeated;
                    FetchAction::Send
                },
                _ => {
                    self.phase = FetchPhase::RenewLoading;
                    FetchAction::LoadSession
                },
            },
            FetchPhase::Repeated => match event {
                FetchEvent::RepeatAnswered { status, status_text } => {
                    if 200 <= status && status <= 299 {
                        FetchAction::ReadAndAccept
                    } else {
                        FetchAction::Fail(text::concat("Request failed after re-authentication: ", status_text.as_str()))
                    }
                },
                FetchEvent::SendFailed { error } => FetchAction::Fail(
                    text::concat("Request failed after re-authentication: ", error.as_str()),
                ),
                _ => {
                    self.phase = FetchPhase::Repeated;
                    FetchAction::LoadSession
                },
            },
            FetchPhase::Finished => FetchAction::LoadSession,
        }
    }
}

/// How many more times the request may still be sent: one per attempt left
/// (counting the current attempt while it has not sent), and one repeat after
/// a login with the stored credentials.
pub open spec fn sends_left(s: LoopState) -> int {
    match s.phase {
        Phase::Opening | Phase::Starting => s.max_retries - s.attempt + 2,
        Phase::Renewing | Phase::RenewLoading => 1,
        Phase::RenewingMedia | Phase::Repeated | Phase::Finished => 0,
        _ => s.max_retries - s.attempt + 1,
    }
}

/// A fetch sends the request at most `max_retries + 2` times (every attempt,
/// and one repeat after a login): a new fetch may send `max_retries + 2`
/// times, every step keeps the fetch valid, never adds to what it may still
/// send, and a send uses one up.
pub proof fn law_sends_bounded(s: LoopState, e: Event)
    requires
        loop_wf(s),
        expects(s.phase, e),
    ensures
        sends_left(LoopState { attempt: 0, max_retries: s.max_retries, last_error: None, phase: Phase::Opening })
            == s.max_retries + 2,
        ({
            let (s2, a) = fetch_step(s, e);
            &&& loop_wf(s2)
            &&& 0 <= sends_left(s2)
            &&& sends_left(s2) + (if a is Send { 1int } else { 0int }) <= sends_left(s)
        }),
{
}

/// The waits between attempts double from one second: a send failure that is
/// retried after attempt `n` waits `1000 * 2^n` milliseconds, so with three
/// retries the waits are 1, 2 and 4 seconds.
pub proof fn law_backoff_doubles(s: LoopState, err: Seq<char>)
    requires
        loop_wf(s),
        s.phase is Sent,
        s.attempt < s.max_retries,
        request::retryable(text::unicode_lowercase(err)),
    ensures
        fetch_step(s, Event::SendFailed(err)).1 == Action::WaitThenLoadSession(
            (1000 * vstd::arithmetic::power2::pow2(s.attempt as nat)) as u64,
        ),
        fetch_step(s, Event::SendFailed(err)).0.attempt == s.attempt + 1,
        request::backoff_ms(0) == 1000 && request::backoff_ms(1) == 2000 && request::backoff_ms(2) == 4000,
{
    vstd::arithmetic::power2::lemma2_to64();
}

/// A text request that the server refuses with 401 or 403 (whichever) is
/// renewed by a login with the stored credentials when there are any; without
/// them, the session is reloaded.
pub proof fn law_refused_text_answer_renews(s: LoopState, j: Seq<char>, status: u16, t: Seq<char>, cred: bool)
    requires
        s.phase == Phase::Sent(j),
        status == 401 || status == 403,
    ensures
        cred ==> fetch_step(s, Event::TextAnswered(status, t, cred)).1 == Action::Reauthenticate,
        cred ==> fetch_step(s, Event::TextAnswered(status, t, cred)).0.phase == Phase::Renewing,
        !cred ==> fetch_step(s, Event::TextAnswered(status, t, cred)).1 == Action::LoadSession,
        !cred ==> fetch_step(s, Event::TextAnswered(status, t, cred)).0.phase == Phase::Reloading(j, t),
{
    request::law_refused_session_is_renewed(status, json::json_text(t), cred);
}

} // verus!
