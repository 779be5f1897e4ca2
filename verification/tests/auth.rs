use blrec::auth::{
    check, entries_of, goodbye, login_code, login_state, logout_refused, logout_with,
    not_logged_in, plan_logout, shown, verify_login, AuthError, Check, Login, LoginEvent,
    LoginSession, LoginStep, Logout, NavAnswer, User, Via,
};
use blrec::cookies::{
    auth_file_path, current_cookies, find_cookie, jar_entries, keep_readable, parse_cookies,
    CookiePair, COOKIE_URL,
};
use blrec::response::{LogoutResp, NavData, NavResp, QrData, QrPollData};

fn pair(name: &str, value: &str) -> CookiePair {
    CookiePair { name: name.to_string(), value: value.to_string() }
}

fn texts(cookies: &[CookiePair]) -> Vec<(&str, &str)> {
    cookies.iter().map(|c| (c.name.as_str(), c.value.as_str())).collect()
}

#[test]
fn cookie_headers() {
    let cookies = parse_cookies("SESSDATA=xxx; bili_jct=y%20y;;  ; broken; =v; DedeUserID=zzz ");
    assert_eq!(
        texts(&cookies),
        vec![("SESSDATA", "xxx"), ("bili_jct", "y y"), ("DedeUserID", "zzz")]
    );
    assert!(parse_cookies("").is_empty());
    // What is no UTF-8 once decoded is no cookie.
    assert!(parse_cookies("a=%FF").is_empty());
}

#[test]
fn unreadable_pieces_are_left_out() {
    let items = vec![None, Some(pair("a", "1")), None, Some(pair("b", "2"))];
    assert_eq!(texts(&keep_readable(items)), vec![("a", "1"), ("b", "2")]);
}

#[test]
fn jar_entries_are_encoded() {
    let cookies = vec![
        pair("SESSDATA", "a,b%2F*-_.~!$&'+"),
        pair("my name", "this; value%?"),
        pair("é", "漢"),
        pair("x", "\"#()/:<=>@[\\]^`{|}\t\u{7f}"),
        pair("empty", ""),
    ];
    assert_eq!(
        jar_entries(&cookies),
        vec![
            "SESSDATA=a%2Cb%252F*-_.~!$&'+; Domain=bilibili.com",
            "my%20name=this%3B%20value%25%3F; Domain=bilibili.com",
            "%C3%A9=%E6%BC%A2; Domain=bilibili.com",
            "x=%22%23%28%29%2F%3A%3C%3D%3E%40%5B%5C%5D%5E%60%7B%7C%7D%09%7F; Domain=bilibili.com",
            "empty=; Domain=bilibili.com",
        ]
    );
    assert!(jar_entries(&vec![]).is_empty());
}

#[test]
fn cookies_survive_the_jar() {
    let entries = entries_of("a=1%3B2; b=x y");
    assert_eq!(
        entries,
        vec!["a=1%3B2; Domain=bilibili.com", "b=x%20y; Domain=bilibili.com"]
    );
    assert_eq!(texts(&parse_cookies(&entries[0]))[0], ("a", "1;2"));
    assert_eq!(texts(&parse_cookies(&entries[1]))[0], ("b", "x y"));
}

#[test]
fn first_cookie_of_a_name() {
    let cookies = vec![pair("a", "1"), pair("b", "2"), pair("b", "3")];
    assert_eq!(find_cookie(&cookies, "b").as_deref(), Some("2"));
    assert_eq!(find_cookie(&cookies, "c"), None);
    assert_eq!(find_cookie(&vec![], "a"), None);
}

#[test]
fn stored_credentials() {
    assert_eq!(auth_file_path(), ".blarec/auth.json");
    assert_eq!(COOKIE_URL, "https://bilibili.com");
    assert_eq!(current_cookies(Some(b"a=1;\tb=~")).unwrap(), "a=1;\tb=~");
    assert_eq!(current_cookies(Some(b"")).unwrap(), "");
    assert_eq!(current_cookies(None).unwrap_err().message(), "Auth cookies should be set");
    for bytes in ["é".as_bytes(), &b"a\n"[..], &b"\x7f"[..], &b"\x00"[..], &b"a\xff"[..]] {
        assert_eq!(
            current_cookies(Some(bytes)).unwrap_err().message(),
            "failed to convert header to a str"
        );
    }
}

fn nav(code: i32, mid: Option<i64>, uname: Option<&str>) -> NavResp {
    NavResp { code, data: NavData { mid, uname: uname.map(|name| name.to_string()) } }
}

#[test]
fn logins_are_verified() {
    let user = verify_login(Via::Cookies, nav(0, Some(42), Some("bili"))).unwrap();
    assert_eq!((user.mid, user.name.as_str()), (42, "bili"));
    assert_eq!(user.hello(), "Hello😊, bili.");
    let message = |via, resp| verify_login(via, resp).unwrap_err().message();
    assert_eq!(
        message(Via::QrCode, nav(-101, Some(1), Some("x"))),
        "Failed to verify login: code=-101"
    );
    assert_eq!(
        message(Via::Cookies, nav(-101, None, None)),
        "Failed to verify cookies: code=-101"
    );
    assert_eq!(
        message(Via::QrCode, nav(0, None, Some("x"))),
        "Not logged in — QR scan may have failed"
    );
    assert_eq!(
        message(Via::Cookies, nav(0, None, None)),
        "Not logged in — cookies may be expired or invalid"
    );
    assert_eq!(message(Via::QrCode, nav(0, Some(1), None)), "No username in response");
}

fn drawn(text: &str) -> String {
    login_code(text).unwrap().unwrap()
}

#[test]
fn qr_codes() {
    let image = drawn("https://passport.bilibili.com/h5-app/passport/login/scan");
    let lines: Vec<&str> = image.lines().collect();
    let width = lines[0].chars().count();
    // A light border of four modules, drawn with full blocks.
    assert!(lines[0].chars().all(|c| c == '█') && lines[1].chars().all(|c| c == '█'));
    assert!(lines.iter().all(|line| line.chars().count() == width));
    assert_eq!(lines.len(), (width + 1) / 2);
    // The corner of the finder pattern is dark: nothing is drawn there.
    assert_eq!(lines[2].chars().nth(4), Some(' '));
    let expected = qrcode::QrCode::new("abc").unwrap();
    let expected = expected
        .render::<qrcode::render::unicode::Dense1x2>()
        .dark_color(qrcode::render::unicode::Dense1x2::Light)
        .light_color(qrcode::render::unicode::Dense1x2::Dark)
        .build();
    assert_eq!(drawn("abc"), expected);
    assert_ne!(drawn("abd"), expected);
    for long in ["x".repeat(214), "é".repeat(107), "x".repeat(5000)] {
        assert!(login_code(&long).is_none());
    }
    // Up to the limit there is a code, whatever the text is made of.
    for text in ["x".repeat(213), "1234x".repeat(42), "7".repeat(213), "é".repeat(106)] {
        assert!(drawn(&text).lines().next().unwrap().chars().count() <= 69 + 8);
    }
    assert_eq!(shown(Ok("img".to_string())).unwrap(), "img");
    assert_eq!(shown(Err("bad".to_string())).unwrap_err().message(), "bad");
}

fn polled(code: u32) -> QrPollData {
    QrPollData { code, message: format!("code {code}") }
}

#[test]
fn login_states() {
    assert!(matches!(login_state(polled(0)), Login::Done));
    assert!(matches!(login_state(polled(86101)), Login::Pending(3)));
    assert!(matches!(login_state(polled(86090)), Login::Pending(3)));
    match login_state(polled(86038)) {
        Login::Ended(reason) => assert_eq!(reason, "code 86038"),
        other => panic!("{other:?}"),
    }
}

fn scanning() -> LoginSession {
    let (mut session, step) = LoginSession::new();
    assert!(matches!(step, LoginStep::FetchCode));
    let data = QrData { qrcode_key: "k1".to_string(), url: "https://x/y".to_string() };
    match session.handle(LoginEvent::Code(data)) {
        Some(LoginStep::Show(image)) => assert_eq!(image, drawn("https://x/y")),
        other => panic!("{other:?}"),
    }
    assert!(matches!(session.handle(LoginEvent::Shown), Some(LoginStep::Sleep(3))));
    session
}

fn poll(session: &mut LoginSession, code: u32) -> Option<LoginStep> {
    match session.handle(LoginEvent::Rested) {
        Some(LoginStep::Poll(payload)) => assert_eq!(payload.qrcode_key, "k1"),
        other => panic!("{other:?}"),
    }
    session.handle(LoginEvent::Polled(polled(code)))
}

#[test]
fn login_by_qr_code() {
    let mut session = scanning();
    assert!(matches!(poll(&mut session, 86101), Some(LoginStep::Sleep(3))));
    assert!(matches!(poll(&mut session, 86090), Some(LoginStep::Sleep(3))));
    assert!(session.handle(LoginEvent::Nav(nav(0, Some(1), Some("x")))).is_none());
    assert!(matches!(poll(&mut session, 0), Some(LoginStep::AskNav)));
    assert!(!session.is_over());
    match session.handle(LoginEvent::Nav(nav(0, Some(42), Some("bili")))) {
        Some(LoginStep::Save(User { mid, name })) => assert_eq!((mid, name.as_str()), (42, "bili")),
        other => panic!("{other:?}"),
    }
    assert!(session.is_over());
}

#[test]
fn login_that_ends_early() {
    let mut session = scanning();
    match poll(&mut session, 86038) {
        Some(LoginStep::Stop(reason)) => assert_eq!(reason, "code 86038"),
        other => panic!("{other:?}"),
    }
    assert!(session.is_over());

    let mut session = scanning();
    poll(&mut session, 0);
    assert!(matches!(
        session.handle(LoginEvent::Nav(nav(0, None, None))),
        Some(LoginStep::Fail(AuthError::NotLoggedIn(Via::QrCode)))
    ));

    let (mut session, _) = LoginSession::new();
    assert!(session.handle(LoginEvent::Shown).is_none());
    assert!(!session.is_over());
}

#[test]
fn long_login_url() {
    let url = format!("https://x/{}", "y".repeat(204));
    let (mut session, _) = LoginSession::new();
    let data = QrData { qrcode_key: "k1".to_string(), url: url.clone() };
    match session.handle(LoginEvent::Code(data)) {
        Some(LoginStep::Draw(text)) => assert_eq!(text, url),
        other => panic!("{other:?}"),
    }
    assert!(matches!(session.handle(LoginEvent::Shown), Some(LoginStep::Sleep(3))));
    assert!(matches!(poll(&mut session, 86101), Some(LoginStep::Sleep(3))));
    assert!(matches!(poll(&mut session, 0), Some(LoginStep::AskNav)));

    let (mut session, _) = LoginSession::new();
    let data = QrData { qrcode_key: "k".to_string(), url: url[1..].to_string() };
    assert!(matches!(session.handle(LoginEvent::Code(data)), Some(LoginStep::Show(_))));
}

#[test]
fn logging_out() {
    match plan_logout("SESSDATA=x; bili_jct=t%25k; bili_jct=other") {
        Logout::OnServer { entries, payload } => {
            assert_eq!(payload.biliCSRF, "t%k");
            assert_eq!(entries.len(), 3);
            assert_eq!(entries[1], "bili_jct=t%25k; Domain=bilibili.com");
        }
        other => panic!("{other:?}"),
    }
    assert!(matches!(plan_logout("SESSDATA=x"), Logout::LocalOnly));
    assert!(matches!(logout_with(&vec![]), Logout::LocalOnly));
    assert!(logout_refused(&LogoutResp { code: 2202, message: None }));
    assert!(!logout_refused(&LogoutResp { code: 0, message: None }));
    assert_eq!(goodbye("bili"), "Goodbye👋, bili.");
}

#[test]
fn stored_cookies_are_checked() {
    let read = |mid| NavAnswer::Read(nav(0, mid, None));
    assert_eq!(check(42, &read(Some(42))), Check::Valid);
    assert_eq!(check(42, &read(Some(43))), Check::Mismatch);
    assert_eq!(check(42, &read(None)), Check::Mismatch);
    assert_eq!(check(42, &NavAnswer::Unreadable), Check::Expired);
    assert_eq!(
        Check::Valid.message(42, "bili"),
        "✅ Cookies valid. Logged in as: bili (mid=42)"
    );
    assert_eq!(
        Check::Mismatch.message(42, "bili"),
        "⚠️  Cookies may be expired — user mismatch."
    );
    assert_eq!(
        Check::Expired.message(42, "bili"),
        "❌ Cookies expired — please re-login."
    );
    assert_eq!(
        not_logged_in(),
        "Not logged in. Use `blarec auth login` or `blarec auth use-cookies <COOKIES>`."
    );
}
