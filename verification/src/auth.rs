//! Logging in and out, and whether a login still holds.

use vstd::prelude::*;
use vstd::string::*;

use crate::cookies::{find_cookie, jar_entries, parse_cookies, CookiePair};
use crate::payload::{LogoutPayload, QrPollPayload};
use crate::response::{LogoutResp, NavResp, QrData, QrPollData};
use crate::text::{join3, push_signed};

verus! {

/// Seconds between two looks at the state of a login by QR code.
pub const QR_POLL_SECS: u64 = 3;

/// How a user logs in.
#[derive(Debug, Clone, Copy, PartialEq, Eq, Structural)]
pub enum Via {
    QrCode,
    Cookies,
}

/// Why a login fails.
#[derive(Debug)]
pub enum AuthError {
    /// The URL could not be made into a QR code.
    QrCode(String),
    /// The server refused, with this code.
    Refused(Via, i32),
    /// The server knows of no login.
    NotLoggedIn(Via),
    /// The server did not tell the user's name.
    NoUsername,
}

impl AuthError {
    /// What the user is told.
    pub open spec fn text(&self) -> Seq<char> {
        match self {
            AuthError::QrCode(why) => why@,
            AuthError::Refused(Via::QrCode, code) => "Failed to verify login: code="@
                + crate::text::signed_decimal(*code as int),
            AuthError::Refused(Via::Cookies, code) => "Failed to verify cookies: code="@
                + crate::text::signed_decimal(*code as int),
            AuthError::NotLoggedIn(Via::QrCode) => "Not logged in — QR scan may have failed"@,
            AuthError::NotLoggedIn(Via::Cookies) =>
            "Not logged in — cookies may be expired or invalid"@,
            AuthError::NoUsername => "No username in response"@,
        }
    }

    /// What the user is told.
    pub fn message(&self) -> (text: String)
        ensures
            text@ == self.text(),
    {
        let mut text = String::new();
        match self {
            AuthError::QrCode(why) => {
                text.append(why.as_str());
            },
            AuthError::Refused(Via::QrCode, code) => {
                text.append("Failed to verify login: code=");
                push_signed(&mut text, *code as i64);
            },
            AuthError::Refused(Via::Cookies, code) => {
                text.append("Failed to verify cookies: code=");
                push_signed(&mut text, *code as i64);
            },
            AuthError::NotLoggedIn(Via::QrCode) => {
                text.append("Not logged in — QR scan may have failed");
            },
            AuthError::NotLoggedIn(Via::Cookies) => {
                text.append("Not logged in — cookies may be expired or invalid");
            },
            AuthError::NoUsername => {
                text.append("No username in response");
            },
        }
        assert(text@ =~= self.text());
        text
    }
}

/// The longest text that is certainly drawn as a QR code without a panic, in bytes.
pub const QR_MAX_BYTES: usize = 213;

/// On a terminal with a dark background the light modules of a QR code are drawn,
/// and the dark ones left blank.
pub const DRAW_DARK: bool = false;

pub const DRAW_LIGHT: bool = true;

/// What `qrcode` makes of a text, dark or light modules being drawn or left blank:
/// the lines of a QR code, or what it says of a text that it cannot encode.
pub uninterp spec fn qr_rendered(
    text: Seq<char>,
    draw_dark: bool,
    draw_light: bool,
) -> Result<Seq<char>, Seq<char>>;

/// `qrcode::QrCode::new`, and then `render` with `Dense1x2` pixels, of which `Dark`
/// is drawn and `Light` is blank: a QR code in lines of text. Claimed is only that
/// the result, or else the text of the `QrError`, is a function of the text and of
/// the two choices. A longer text is left out because `QrCode::new` adds up in 16
/// bits how well each of its masks does, which can overflow on large codes; up to
/// this length a code has 69 modules a side at most, and no such square of modules
/// scores more than 63760 (`extras/qr_bound.py` works this out).
#[verifier::external_body]
fn render_qr(text: &str, draw_dark: bool, draw_light: bool) -> (r: Result<String, String>)
    requires
        is_drawn(text@),
    ensures
        match r {
            Ok(image) => qr_rendered(text@, draw_dark, draw_light) == Ok::<Seq<char>, Seq<char>>(
                image@,
            ),
            Err(why) => qr_rendered(text@, draw_dark, draw_light) == Err::<Seq<char>, Seq<char>>(
                why@,
            ),
        },
{
    let code = qrcode::QrCode::new(text).map_err(|e| e.to_string())?;
    let pixel = |draw: bool| match draw {
        true => qrcode::render::unicode::Dense1x2::Dark,
        false => qrcode::render::unicode::Dense1x2::Light,
    };
    Ok(
        code.render::<qrcode::render::unicode::Dense1x2>()
            .dark_color(pixel(draw_dark))
            .light_color(pixel(draw_light))
            .build(),
    )
}

/// What is shown of a rendered QR code.
pub fn shown(rendered: Result<String, String>) -> (r: Result<String, AuthError>)
    ensures
        match rendered {
            Ok(image) => r == Ok::<String, AuthError>(image),
            Err(why) => r == Err::<String, AuthError>(AuthError::QrCode(why)),
        },
{
    match rendered {
        Ok(image) => Ok(image),
        Err(why) => Err(AuthError::QrCode(why)),
    }
}

/// Whether a text is short enough for a QR code that is certainly drawn.
pub open spec fn is_drawn(text: Seq<char>) -> bool {
    vstd::utf8::encode_utf8(text).len() <= QR_MAX_BYTES
}

/// The QR code for a login at this URL, or why there is none.
pub open spec fn code_of(url: Seq<char>) -> Result<Seq<char>, Seq<char>> {
    qr_rendered(url, DRAW_DARK, DRAW_LIGHT)
}

/// The QR code to scan for a login at this URL, or `None` where the URL is so long
/// that drawing its code may panic.
pub fn login_code(url: &str) -> (r: Option<Result<String, AuthError>>)
    ensures
        r is Some <==> is_drawn(url@),
        r matches Some(Ok(image)) ==> code_of(url@) == Ok::<Seq<char>, Seq<char>>(image@),
        r matches Some(Err(error)) ==> error is QrCode && code_of(url@) == Err::<
            Seq<char>,
            Seq<char>,
        >(error.text()),
{
    if url.as_bytes().len() > QR_MAX_BYTES {
        return None;
    }
    Some(shown(render_qr(url, DRAW_DARK, DRAW_LIGHT)))
}

/// How a login by QR code stands.
#[derive(Debug)]
pub enum Login {
    /// The code was scanned and confirmed.
    Done,
    /// Look again after this many seconds.
    Pending(u64),
    /// The server gives this reason for ending the login.
    Ended(String),
}

/// How a login by QR code stands, by the number that the server tells: `Some(true)` if
/// it is done, `Some(false)` if it is pending, `None` if it is at its end.
pub open spec fn stands(told: u32) -> Option<bool> {
    if told == 0 {
        Some(true)
    } else if told == 86101 || told == 86090 {
        Some(false)
    } else {
        None
    }
}

/// A login goes by the number alone in the same way wherever it is asked about: it is
/// done where the session asks who is logged in, pending where the session rests, and
/// at its end where the session stops.
pub proof fn law_standing_decides_the_session(state: LoginState, told: u32, message: Seq<char>)
    requires
        state.stage == LoginStage::Poll,
    ensures
        stands(told) == Some(true) <==> told == 0,
        stands(told) == Some(false) <==> told == 86101 || told == 86090,
        next(state, Heard::Polled { state: told, message }) matches Some((_, step)) && (match stands(
            told,
        ) {
            Some(true) => step == Order::AskNav,
            Some(false) => step == Order::Sleep(QR_POLL_SECS as nat),
            None => step == Order::Stop(message),
        }),
{
}

/// How a login by QR code stands: done at code 0, pending as long as the code was
/// not scanned or not confirmed, and at its end with any other code.
pub fn login_state(data: QrPollData) -> (r: Login)
    ensures
        r == (if data.code == 0 {
            Login::Done
        } else if data.code == 86101 || data.code == 86090 {
            Login::Pending(QR_POLL_SECS)
        } else {
            Login::Ended(data.message)
        }),
        stands(data.code) == (match r {
            Login::Done => Some(true),
            Login::Pending(_) => Some(false),
            Login::Ended(_) => None,
        }),
{
    match data.code {
        0 => Login::Done,
        86101 | 86090 => Login::Pending(QR_POLL_SECS),
        _ => Login::Ended(data.message),
    }
}

/// Who is logged in.
#[derive(Debug)]
pub struct User {
    pub mid: i64,
    pub name: String,
}

impl User {
    /// What the user is told on logging in.
    pub fn hello(&self) -> (text: String)
        ensures
            text@ == "Hello😊, "@ + self.name@ + "."@,
    {
        join3("Hello😊, ", self.name.as_str(), ".")
    }
}

/// The number and the name of whoever is logged in, by what the server tells.
pub open spec fn named(code: i32, mid: Option<i64>, uname: Option<Seq<char>>) -> Option<
    (i64, Seq<char>),
> {
    match (mid, uname) {
        (Some(m), Some(u)) => if code == 0 {
            Some((m, u))
        } else {
            None
        },
        _ => None,
    }
}

/// A login holds for exactly the user whom the server names with a number and a name,
/// if it does not refuse.
pub proof fn law_login_holds_for_whom_the_server_names(
    code: i32,
    mid: i64,
    uname: Seq<char>,
    any_mid: Option<i64>,
    any_uname: Option<Seq<char>>,
)
    ensures
        named(0, Some(mid), Some(uname)) == Some((mid, uname)),
        code != 0 ==> named(code, any_mid, any_uname) is None,
        named(code, None, any_uname) is None,
        named(code, any_mid, None) is None,
{
}

/// Who is logged in, or why nobody is: the first of these that holds is told, that
/// the server refused, that it knows of no login, that it gives no name.
pub fn verify_login(via: Via, resp: NavResp) -> (r: Result<User, AuthError>)
    ensures
        match r {
            Ok(user) => resp.code == 0 && resp.data.mid == Some(user.mid) && resp.data.uname == Some(
                user.name,
            ),
            Err(error) => if resp.code != 0 {
                error == AuthError::Refused(via, resp.code)
            } else if resp.data.mid is None {
                error == AuthError::NotLoggedIn(via)
            } else {
                error == AuthError::NoUsername && resp.data.uname is None
            },
        },
        named(
            resp.code,
            resp.data.mid,
            match resp.data.uname {
                Some(name) => Some(name@),
                None => None,
            },
        ) == (match r {
            Ok(user) => Some((user.mid, user.name@)),
            Err(_) => None,
        }),
{
    if resp.code != 0 {
        return Err(AuthError::Refused(via, resp.code));
    }
    match resp.data.mid {
        None => Err(AuthError::NotLoggedIn(via)),
        Some(mid) => match resp.data.uname {
            None => Err(AuthError::NoUsername),
            Some(name) => Ok(User { mid, name }),
        },
    }
}

/// What a login by QR code waits to hear of.
#[derive(Debug, Clone, Copy, PartialEq, Eq, Structural)]
pub enum LoginStage {
    /// The URL to show.
    Code,
    /// That the code was shown.
    Show,
    /// The end of a pause.
    Rest,
    /// The state of the login.
    Poll,
    /// Who is logged in.
    Nav,
    /// Nothing: the login is over.
    Over,
}

/// What came of a step.
#[derive(Debug)]
pub enum LoginEvent {
    Code(QrData),
    Shown,
    Rested,
    Polled(QrPollData),
    Nav(NavResp),
}

/// What is to be done next.
#[derive(Debug)]
pub enum LoginStep {
    /// Get a URL to show as a QR code.
    FetchCode,
    /// Show this QR code.
    Show(String),
    /// Draw the QR code of this URL, a long one, and show it.
    Draw(String),
    /// Pause for this many seconds.
    Sleep(u64),
    /// Ask how the login stands.
    Poll(QrPollPayload),
    /// Ask who is logged in.
    AskNav,
    /// Store the login of this user, and leave.
    Save(User),
    /// Leave; the server gives this reason.
    Stop(String),
    /// Leave, with an error.
    Fail(AuthError),
}

/// An event, as contracts speak of it.
pub enum Heard {
    Code { key: Seq<char>, url: Seq<char> },
    Shown,
    Rested,
    Polled { state: u32, message: Seq<char> },
    Nav { code: i32, mid: Option<i64>, uname: Option<Seq<char>> },
}

/// A step, as contracts speak of it. Errors are known by what the user is told.
pub enum Order {
    FetchCode,
    Show(Seq<char>),
    Draw(Seq<char>),
    Sleep(nat),
    Poll(Seq<char>),
    AskNav,
    Save { mid: i64, name: Seq<char> },
    Stop(Seq<char>),
    Fail(Seq<char>),
}

impl View for LoginEvent {
    type V = Heard;

    open spec fn view(&self) -> Heard {
        match self {
            LoginEvent::Code(data) => Heard::Code { key: data.qrcode_key@, url: data.url@ },
            LoginEvent::Shown => Heard::Shown,
            LoginEvent::Rested => Heard::Rested,
            LoginEvent::Polled(data) => Heard::Polled { state: data.code, message: data.message@ },
            LoginEvent::Nav(resp) => Heard::Nav {
                code: resp.code,
                mid: resp.data.mid,
                uname: match resp.data.uname {
                    Some(name) => Some(name@),
                    None => None,
                },
            },
        }
    }
}

impl View for LoginStep {
    type V = Order;

    open spec fn view(&self) -> Order {
        match self {
            LoginStep::FetchCode => Order::FetchCode,
            LoginStep::Show(image) => Order::Show(image@),
            LoginStep::Draw(url) => Order::Draw(url@),
            LoginStep::Sleep(secs) => Order::Sleep(*secs as nat),
            LoginStep::Poll(payload) => Order::Poll(payload.qrcode_key@),
            LoginStep::AskNav => Order::AskNav,
            LoginStep::Save(user) => Order::Save { mid: user.mid, name: user.name@ },
            LoginStep::Stop(reason) => Order::Stop(reason@),
            LoginStep::Fail(error) => Order::Fail(error.text()),
        }
    }
}

/// The state of a login by QR code.
pub struct LoginState {
    pub stage: LoginStage,
    /// The key to ask for the state of the login with.
    pub key: Seq<char>,
}

/// The state and the step that follow an event, or `None` where the event is no
/// answer to the step before it.
pub open spec fn next(state: LoginState, event: Heard) -> Option<(LoginState, Order)> {
    match (state.stage, event) {
        (LoginStage::Code, Heard::Code { key, url }) => if !is_drawn(url) {
            Some((LoginState { stage: LoginStage::Show, key }, Order::Draw(url)))
        } else {
            match code_of(url) {
                Ok(image) => Some(
                    (LoginState { stage: LoginStage::Show, key }, Order::Show(image)),
                ),
                Err(why) => Some((LoginState { stage: LoginStage::Over, key }, Order::Fail(why))),
            }
        },
        (LoginStage::Show, Heard::Shown) => Some(
            (LoginState { stage: LoginStage::Rest, ..state }, Order::Sleep(QR_POLL_SECS as nat)),
        ),
        (LoginStage::Rest, Heard::Rested) => Some(
            (LoginState { stage: LoginStage::Poll, ..state }, Order::Poll(state.key)),
        ),
        (LoginStage::Poll, Heard::Polled { state: told, message }) => if told == 0 {
            Some((LoginState { stage: LoginStage::Nav, ..state }, Order::AskNav))
        } else if told == 86101 || told == 86090 {
            Some((LoginState { stage: LoginStage::Rest, ..state }, Order::Sleep(QR_POLL_SECS as nat)))
        } else {
            Some((LoginState { stage: LoginStage::Over, ..state }, Order::Stop(message)))
        },
        (LoginStage::Nav, Heard::Nav { code, mid, uname }) => {
            let after = LoginState { stage: LoginStage::Over, ..state };
            if code != 0 {
                Some((after, Order::Fail(AuthError::Refused(Via::QrCode, code).text())))
            } else {
                match (mid, uname) {
                    (None, _) => Some(
                        (after, Order::Fail(AuthError::NotLoggedIn(Via::QrCode).text())),
                    ),
                    (Some(_), None) => Some((after, Order::Fail(AuthError::NoUsername.text()))),
                    (Some(mid), Some(name)) => Some((after, Order::Save { mid, name })),
                }
            }
        },
        _ => None,
    }
}

/// A login by QR code.
#[derive(Debug)]
pub struct LoginSession {
    stage: LoginStage,
    key: String,
}

impl View for LoginSession {
    type V = LoginState;

    closed spec fn view(&self) -> LoginState {
        LoginState { stage: self.stage, key: self.key@ }
    }
}

impl LoginSession {
    /// A login that has not begun; the first step is to get a URL to show.
    pub fn new() -> (r: (Self, LoginStep))
        ensures
            r.0@.stage == LoginStage::Code,
            r.1@ == Order::FetchCode,
    {
        (Self { stage: LoginStage::Code, key: String::new() }, LoginStep::FetchCode)
    }

    /// Whether the login is over.
    pub fn is_over(&self) -> (r: bool)
        ensures
            r == (self@.stage == LoginStage::Over),
    {
        self.stage == LoginStage::Over
    }

    /// Takes in what came of the last step, and says what is to be done next.
    /// An event that is no answer to that step is not taken in.
    pub fn handle(&mut self, event: LoginEvent) -> (r: Option<LoginStep>)
        ensures
            match next(old(self)@, event@) {
                Some((state, step)) => final(self)@ == state && r is Some && r->0@ == step,
                None => final(self)@ == old(self)@ && r is None,
            },
    {
        match (self.stage, event) {
            (LoginStage::Code, LoginEvent::Code(data)) => {
                let code = login_code(data.url.as_str());
                self.key = data.qrcode_key;
                match code {
                    None => {
                        self.stage = LoginStage::Show;
                        Some(LoginStep::Draw(data.url))
                    },
                    Some(Ok(image)) => {
                        self.stage = LoginStage::Show;
                        Some(LoginStep::Show(image))
                    },
                    Some(Err(error)) => {
                        self.stage = LoginStage::Over;
                        Some(LoginStep::Fail(error))
                    },
                }
            },
            (LoginStage::Show, LoginEvent::Shown) => {
                self.stage = LoginStage::Rest;
                Some(LoginStep::Sleep(QR_POLL_SECS))
            },
            (LoginStage::Rest, LoginEvent::Rested) => {
                self.stage = LoginStage::Poll;
                Some(
                    LoginStep::Poll(QrPollPayload { qrcode_key: self.key.as_str().to_owned() }),
                )
            },
            (LoginStage::Poll, LoginEvent::Polled(data)) => match login_state(data) {
                Login::Done => {
                    self.stage = LoginStage::Nav;
                    Some(LoginStep::AskNav)
                },
                Login::Pending(secs) => {
                    self.stage = LoginStage::Rest;
                    Some(LoginStep::Sleep(secs))
                },
                Login::Ended(reason) => {
                    self.stage = LoginStage::Over;
                    Some(LoginStep::Stop(reason))
                },
            },
            (LoginStage::Nav, LoginEvent::Nav(resp)) => {
                self.stage = LoginStage::Over;
                match verify_login(Via::QrCode, resp) {
                    Ok(user) => Some(LoginStep::Save(user)),
                    Err(error) => Some(LoginStep::Fail(error)),
                }
            },
            _ => None,
        }
    }
}

/// The state after these events, in order.
pub open spec fn state_after(start: LoginState, events: Seq<Heard>) -> LoginState
    decreases events.len(),
{
    if events.len() == 0 {
        start
    } else {
        let before = state_after(start, events.drop_last());
        match next(before, events.last()) {
            Some((state, _)) => state,
            None => before,
        }
    }
}

/// Nothing is stored before the login was confirmed: without that event a session
/// does not get to ask who is logged in, which alone leads to storing it.
pub proof fn law_stores_only_confirmed_logins(start: LoginState, events: Seq<Heard>, event: Heard)
    requires
        start.stage == LoginStage::Code,
        forall|i: int|
            0 <= i < events.len() ==> !(#[trigger] events[i] matches Heard::Polled { state, .. }
                && state == 0),
    ensures
        state_after(start, events).stage != LoginStage::Nav,
        !(next(state_after(start, events), event) matches Some((_, Order::Save { .. }))),
    decreases events.len(),
{
    if events.len() > 0 {
        let front = events.drop_last();
        assert forall|i: int| 0 <= i < front.len() implies !(
        #[trigger] front[i] matches Heard::Polled { state, .. } && state == 0) by {
            assert(front[i] == events[i]);
        }
        law_stores_only_confirmed_logins(start, front, events.last());
        let last = events[events.len() - 1];
        assert(!(last matches Heard::Polled { state, .. } && state == 0));
    }
}

/// Whatever its length, the URL that the server gives is shown as a QR code, and the
/// login goes on; it fails only where the URL cannot be encoded.
pub proof fn law_url_is_shown_whatever_its_length(state: LoginState, key: Seq<char>, url: Seq<char>)
    requires
        state.stage == LoginStage::Code,
    ensures
        next(state, Heard::Code { key, url }) matches Some((after, step)) && (match step {
            Order::Show(image) => code_of(url) == Ok::<Seq<char>, Seq<char>>(image),
            Order::Draw(text) => text == url && !is_drawn(url),
            Order::Fail(why) => is_drawn(url) && code_of(url) == Err::<Seq<char>, Seq<char>>(why),
            _ => false,
        }) && (!(step is Fail) ==> next(after, Heard::Shown) == Some(
            (LoginState { stage: LoginStage::Rest, key }, Order::Sleep(QR_POLL_SECS as nat)),
        )),
{
}

/// The login that is stored is that of the user whom the server names.
pub proof fn law_stores_whom_the_server_names(
    state: LoginState,
    event: Heard,
    user: i64,
    called: Seq<char>,
)
    requires
        next(state, event) matches Some((_, step)) && step == (Order::Save {
            mid: user,
            name: called,
        }),
    ensures
        event == (Heard::Nav { code: 0, mid: Some(user), uname: Some(called) }),
        state.stage == LoginStage::Nav,
{
}

/// Contracts speak of an event, and of a step, with all that it holds: keys, URLs, names
/// and reasons to their last character.
pub proof fn law_nothing_is_left_out_of_view(event: LoginEvent, step: LoginStep)
    ensures
        event matches LoginEvent::Code(data) ==> event@ == (Heard::Code {
            key: data.qrcode_key@,
            url: data.url@,
        }),
        event matches LoginEvent::Polled(data) ==> event@ == (Heard::Polled {
            state: data.code,
            message: data.message@,
        }),
        event matches LoginEvent::Nav(resp) ==> (event@ matches Heard::Nav { code, mid, uname }
            && code == resp.code && mid == resp.data.mid && uname is Some
            == resp.data.uname is Some && (resp.data.uname matches Some(name) ==> uname == Some(
            name@,
        ))),
        event is Shown <==> event@ is Shown,
        event is Rested <==> event@ is Rested,
        step matches LoginStep::Show(image) ==> step@ == Order::Show(image@),
        step matches LoginStep::Draw(url) ==> step@ == Order::Draw(url@),
        step matches LoginStep::Sleep(secs) ==> step@ == Order::Sleep(secs as nat),
        step matches LoginStep::Poll(payload) ==> step@ == Order::Poll(payload.qrcode_key@),
        step matches LoginStep::Save(user) ==> step@ == (Order::Save {
            mid: user.mid,
            name: user.name@,
        }),
        step matches LoginStep::Stop(reason) ==> step@ == Order::Stop(reason@),
        step matches LoginStep::Fail(error) ==> step@ == Order::Fail(error.text()),
        step is FetchCode <==> step@ is FetchCode,
        step is AskNav <==> step@ is AskNav,
{
}

/// The QR code is that of the URL itself, all of it, with its light modules drawn and
/// its dark ones left blank.
pub proof fn law_code_is_that_of_the_url(url: Seq<char>)
    ensures
        code_of(url) == qr_rendered(url, false, true),
{
}

/// The server is asked how the login stands with the key that came with the URL, and
/// with no other.
pub proof fn law_polls_with_the_key_of_the_code(state: LoginState, event: Heard)
    ensures
        next(state, event) matches Some((after, step)) ==> after.key == (match event {
            Heard::Code { key, .. } => key,
            _ => state.key,
        }) && (step matches Order::Poll(key) ==> key == state.key),
        state.stage == LoginStage::Rest ==> next(state, Heard::Rested) == Some(
            (LoginState { stage: LoginStage::Poll, ..state }, Order::Poll(state.key)),
        ),
{
}

/// Over whole runs the key is that of the one URL that was shown.
pub proof fn law_key_is_kept(start: LoginState, key: Seq<char>, url: Seq<char>, events: Seq<Heard>)
    requires
        start.stage == LoginStage::Code,
        events.len() > 0,
        events[0] == (Heard::Code { key, url }),
    ensures
        state_after(start, events).stage != LoginStage::Code,
        state_after(start, events).key == key,
    decreases events.len(),
{
    let front = events.drop_last();
    if front.len() == 0 {
        assert(state_after(start, front) == start);
    } else {
        assert(front[0] == events[0]);
        law_key_is_kept(start, key, url, front);
    }
}

/// How a login by QR code stands is told by a number: at 0 it is confirmed, and the
/// server is asked who is logged in; at 86101 and 86090, where the code was not
/// scanned or not confirmed, it is asked again after the pause; at any other the login
/// ends, with the reason that the server gives.
pub proof fn law_answer_decides_the_login(state: LoginState, told: u32, message: Seq<char>)
    requires
        state.stage == LoginStage::Poll,
    ensures
        ({
            let after = next(state, Heard::Polled { state: told, message });
            &&& told == 0 ==> after == Some(
                (LoginState { stage: LoginStage::Nav, ..state }, Order::AskNav),
            )
            &&& told == 86101 || told == 86090 ==> after == Some(
                (
                    LoginState { stage: LoginStage::Rest, ..state },
                    Order::Sleep(QR_POLL_SECS as nat),
                ),
            )
            &&& told != 0 && told != 86101 && told != 86090 ==> after == Some(
                (LoginState { stage: LoginStage::Over, ..state }, Order::Stop(message)),
            )
        }),
{
}

/// The user whom the server names, with their number and their name, is stored, and
/// the login ends.
pub proof fn law_named_user_is_stored(
    state: LoginState,
    code: i32,
    mid: Option<i64>,
    uname: Option<Seq<char>>,
)
    requires
        state.stage == LoginStage::Nav,
    ensures
        next(state, Heard::Nav { code, mid, uname }) matches Some((after, step)) && after.stage
            == LoginStage::Over && (if code == 0 && mid is Some && uname is Some {
            step == (Order::Save { mid: mid->0, name: uname->0 })
        } else if code != 0 {
            step == Order::Fail(AuthError::Refused(Via::QrCode, code).text())
        } else if mid is None {
            step == Order::Fail(AuthError::NotLoggedIn(Via::QrCode).text())
        } else {
            step == Order::Fail(AuthError::NoUsername.text())
        }),
{
}

/// Whether an event is an answer to a step.
pub open spec fn answers(step: Order, event: Heard) -> bool {
    match step {
        Order::FetchCode => event is Code,
        Order::Show(_) | Order::Draw(_) => event is Shown,
        Order::Sleep(_) => event is Rested,
        Order::Poll(_) => event is Polled,
        Order::AskNav => event is Nav,
        Order::Save { .. } | Order::Stop(_) | Order::Fail(_) => false,
    }
}

/// After a step exactly the answers to it are taken in.
pub proof fn law_exactly_answers_are_taken_in(state: LoginState, event: Heard, then: Heard)
    ensures
        next(state, event) matches Some((after, step)) ==> (next(after, then) is Some <==> answers(
            step,
            then,
        )),
{
}

/// What the user is told of a refusal names the code that the server gave.
pub proof fn law_refusal_names_the_code(via: Via, code: i32)
    ensures
        crate::text::tells(
            AuthError::Refused(via, code).text(),
            crate::text::signed_decimal(code as int),
        ),
{
    let none = Seq::<char>::empty();
    let digits = crate::text::signed_decimal(code as int);
    let text = AuthError::Refused(via, code).text();
    match via {
        Via::QrCode => {
            crate::text::lemma_tells("Failed to verify login: code="@, digits, none);
            assert("Failed to verify login: code="@ + digits + none =~= text);
        },
        Via::Cookies => {
            crate::text::lemma_tells("Failed to verify cookies: code="@, digits, none);
            assert("Failed to verify cookies: code="@ + digits + none =~= text);
        },
    }
}

/// The cookie that logging out on the server takes.
pub const CSRF_COOKIE: &'static str = "bili_jct";

/// What logging out takes.
#[derive(Debug)]
pub enum Logout {
    /// Enter these cookies into the jar, and ask the server.
    OnServer { entries: Vec<String>, payload: LogoutPayload },
    /// The server cannot be asked.
    LocalOnly,
}

/// What logging out takes, with these stored cookies: the server is asked only if
/// the cookie that this takes is among them.
pub fn logout_with(cookies: &Vec<CookiePair>) -> (r: Logout)
    ensures
        match r {
            Logout::OnServer { entries, payload } => {
                &&& crate::cookies::value_of(crate::cookies::pairs(cookies@), CSRF_COOKIE@) == Some(
                    payload.biliCSRF@,
                )
                &&& entries@.len() == cookies@.len()
                &&& forall|i: int|
                    0 <= i < cookies@.len() ==> (#[trigger] entries@[i])@ == crate::cookies::entry(
                        cookies@[i].name@,
                        cookies@[i].value@,
                        crate::cookies::COOKIE_DOMAIN@,
                    )
            },
            Logout::LocalOnly => crate::cookies::value_of(
                crate::cookies::pairs(cookies@),
                CSRF_COOKIE@,
            ) is None,
        },
{
    match find_cookie(cookies, CSRF_COOKIE) {
        Some(token) => Logout::OnServer {
            entries: jar_entries(cookies),
            payload: LogoutPayload { biliCSRF: token },
        },
        None => Logout::LocalOnly,
    }
}

/// What logging out takes, with this stored cookie header.
pub fn plan_logout(cookies: &str) -> (r: Logout)
    ensures
        ({
            let stored = crate::cookies::readable(crate::cookies::split_parsed(cookies@));
            match r {
                Logout::OnServer { entries, payload } => {
                    &&& crate::cookies::value_of(stored, CSRF_COOKIE@) == Some(payload.biliCSRF@)
                    &&& entries@.len() == stored.len()
                    &&& forall|i: int|
                        0 <= i < stored.len() ==> (#[trigger] entries@[i])@
                            == crate::cookies::entry(
                            stored[i].0,
                            stored[i].1,
                            crate::cookies::COOKIE_DOMAIN@,
                        )
                },
                Logout::LocalOnly => crate::cookies::value_of(stored, CSRF_COOKIE@) is None,
            }
        }),
{
    let stored = parse_cookies(cookies);
    proof {
        let views = crate::cookies::pairs(stored@);
        assert forall|i: int| 0 <= i < stored@.len() implies #[trigger] views[i] == (
            stored@[i].name@,
            stored@[i].value@,
        ) by {}
    }
    logout_with(&stored)
}

/// Whether the server may still hold the login.
pub fn logout_refused(resp: &LogoutResp) -> (r: bool)
    ensures
        r == (resp.code != 0),
{
    resp.code != 0
}

/// What the user is told on logging out.
pub fn goodbye(name: &str) -> (text: String)
    ensures
        text@ == "Goodbye👋, "@ + name@ + "."@,
{
    join3("Goodbye👋, ", name, ".")
}

/// What is entered into the cookie jar for a cookie header.
pub fn entries_of(cookies: &str) -> (entries: Vec<String>)
    ensures
        ({
            let given = crate::cookies::readable(crate::cookies::split_parsed(cookies@));
            &&& entries@.len() == given.len()
            &&& forall|i: int|
                0 <= i < given.len() ==> (#[trigger] entries@[i])@ == crate::cookies::entry(
                    given[i].0,
                    given[i].1,
                    crate::cookies::COOKIE_DOMAIN@,
                )
        }),
{
    let given = parse_cookies(cookies);
    proof {
        let views = crate::cookies::pairs(given@);
        assert forall|i: int| 0 <= i < given@.len() implies #[trigger] views[i] == (
            given@[i].name@,
            given@[i].value@,
        ) by {}
    }
    jar_entries(&given)
}

/// What the server answers when asked who is logged in.
#[derive(Debug)]
pub enum NavAnswer {
    Read(NavResp),
    /// The answer could not be read.
    Unreadable,
}

/// Whether stored cookies still hold.
#[derive(Debug, Clone, Copy, PartialEq, Eq, Structural)]
pub enum Check {
    /// They belong to the user that they were stored for.
    Valid,
    /// They belong to someone else, or to nobody.
    Mismatch,
    /// They do not hold any more.
    Expired,
}

/// Whether the cookies that were stored for a user still hold, by the user that the
/// server names, or `None` where its answer could not be read.
pub open spec fn checked(mid: i64, answer: Option<Option<i64>>) -> Check {
    match answer {
        Some(told) => if told == Some(mid) {
            Check::Valid
        } else {
            Check::Mismatch
        },
        None => Check::Expired,
    }
}

/// Stored cookies hold if and only if the server names the very user that they were
/// stored for, whoever that is; they are expired if and only if its answer cannot be
/// read.
pub proof fn law_cookies_hold_for_their_user(mid: i64, other: i64)
    ensures
        checked(mid, Some(Some(mid))) == Check::Valid,
        mid != other ==> checked(mid, Some(Some(other))) == Check::Mismatch,
        checked(mid, Some(None)) == Check::Mismatch,
        checked(mid, None) == Check::Expired,
{
}

/// Whether the cookies that were stored for a user still hold.
pub fn check(mid: i64, answer: &NavAnswer) -> (r: Check)
    ensures
        r == (match answer {
            NavAnswer::Read(resp) => if resp.data.mid == Some(mid) {
                Check::Valid
            } else {
                Check::Mismatch
            },
            NavAnswer::Unreadable => Check::Expired,
        }),
        r == checked(
            mid,
            match answer {
                NavAnswer::Read(resp) => Some(resp.data.mid),
                NavAnswer::Unreadable => None,
            },
        ),
{
    match answer {
        NavAnswer::Read(resp) => match resp.data.mid {
            Some(told) => if told == mid {
                Check::Valid
            } else {
                Check::Mismatch
            },
            None => Check::Mismatch,
        },
        NavAnswer::Unreadable => Check::Expired,
    }
}

impl Check {
    /// What the user is told.
    pub open spec fn text(&self, mid: i64, name: Seq<char>) -> Seq<char> {
        match self {
            Check::Valid => "✅ Cookies valid. Logged in as: "@ + name + " (mid="@
                + crate::text::signed_decimal(mid as int) + ")"@,
            Check::Mismatch => "⚠️  Cookies may be expired — user mismatch."@,
            Check::Expired => "❌ Cookies expired — please re-login."@,
        }
    }

    /// What the user is told.
    pub fn message(&self, mid: i64, name: &str) -> (text: String)
        ensures
            text@ == self.text(mid, name@),
    {
        match self {
            Check::Valid => {
                let mut text = String::new();
                text.append("✅ Cookies valid. Logged in as: ");
                text.append(name);
                text.append(" (mid=");
                push_signed(&mut text, mid);
                text.append(")");
                assert(text@ =~= self.text(mid, name@));
                text
            },
            Check::Mismatch => "⚠️  Cookies may be expired — user mismatch.".to_owned(),
            Check::Expired => "❌ Cookies expired — please re-login.".to_owned(),
        }
    }
}

/// Whoever holds valid cookies is told their name and their number.
pub proof fn law_valid_cookies_tell_the_user(mid: i64, name: Seq<char>)
    ensures
        crate::text::tells(Check::Valid.text(mid, name), name),
        crate::text::tells(
            Check::Valid.text(mid, name),
            crate::text::signed_decimal(mid as int),
        ),
{
    let digits = crate::text::signed_decimal(mid as int);
    let front = "✅ Cookies valid. Logged in as: "@;
    let text = Check::Valid.text(mid, name);
    crate::text::lemma_tells(front, name, " (mid="@ + digits + ")"@);
    assert(front + name + (" (mid="@ + digits + ")"@) =~= text);
    crate::text::lemma_tells(front + name + " (mid="@, digits, ")"@);
}

/// What the user is told when nobody is logged in.
pub fn not_logged_in() -> (text: String)
    ensures
        text@
            == "Not logged in. Use `blarec auth login` or `blarec auth use-cookies <COOKIES>`."@,
{
    "Not logged in. Use `blarec auth login` or `blarec auth use-cookies <COOKIES>`.".to_owned()
}

} // verus!
