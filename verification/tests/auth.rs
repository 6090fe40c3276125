use sotto::auth::{clear_session, current_session, read_session, store_session, KC_SERVER_SESSION};
use sotto::callback::{
    callback_response, callback_target, interpret_callback, judge_callback, parse_callback, react,
    request_target, CallbackAction, CallbackEvent,
};
use sotto::error::Error;
use sotto::keychain::{Keychain, MemoryKeychain};
use sotto::login::{
    authorize_url, checked_login_url, escape, exchange_outcome, exchange_request, hex,
    login_url, redirect_file_name, redirect_page, ExchangeReply,
};
use sotto::urls::MAX_ADDRESS;

#[test]
fn session_round_trips_in_keychain() {
    let mut kc = MemoryKeychain::default();
    assert!(current_session(&kc).unwrap().is_none());
    store_session(&mut kc, "st_abc").unwrap();
    assert_eq!(current_session(&kc).unwrap().as_deref(), Some("st_abc"));
    clear_session(&mut kc).unwrap();
    assert!(current_session(&kc).unwrap().is_none());
}

#[test]
fn a_stored_session_replaces_the_one_before() {
    let mut kc = MemoryKeychain::default();
    store_session(&mut kc, "st_old").unwrap();
    store_session(&mut kc, "st_néw").unwrap();
    assert_eq!(current_session(&kc).unwrap().as_deref(), Some("st_néw"));
    assert_eq!(kc.get(KC_SERVER_SESSION).unwrap().unwrap(), "st_néw".as_bytes());
    assert!(kc.get("other").unwrap().is_none());
}

#[test]
fn a_session_that_is_no_text_is_refused() {
    let mut kc = MemoryKeychain::default();
    kc.set(KC_SERVER_SESSION, &[0x73, 0x74, 0xff]).unwrap();
    let err = current_session(&kc).unwrap_err();
    assert!(matches!(err, Error::Keychain(_)));
    assert_eq!(err.message(), "stored session token is not valid UTF-8");
    assert!(read_session(Some(vec![0xc3, 0x28])).is_err());
    assert_eq!(read_session(Some(vec![0xc3, 0xa9])).unwrap().as_deref(), Some("é"));
    assert!(read_session(None).unwrap().is_none());
}

#[test]
fn authorize_url_encodes_redirect_and_state() {
    let url = authorize_url("https://api.sotto.dev", 51999, "abc123").unwrap();
    assert!(url.starts_with("https://api.sotto.dev/auth/github/login?"));
    assert!(url.contains("redirect_uri=http%3A%2F%2F127.0.0.1%3A51999%2F"));
    assert!(url.contains("state=abc123"));
    assert!(url.contains("mode=code"));
}

#[test]
fn authorize_url_is_exact_and_readable() {
    let url = authorize_url("https://api.sotto.dev", 51999, "a b&c=d").unwrap();
    assert_eq!(
        url,
        "https://api.sotto.dev/auth/github/login?\
         redirect_uri=http%3A%2F%2F127.0.0.1%3A51999%2F&state=a+b%26c%3Dd&mode=code"
    );
    let read: Vec<(String, String)> = reqwest::Url::parse(&url)
        .unwrap()
        .query_pairs()
        .map(|(k, v)| (k.into_owned(), v.into_owned()))
        .collect();
    assert_eq!(
        read,
        [
            ("redirect_uri".to_string(), "http://127.0.0.1:51999/".to_string()),
            ("state".to_string(), "a b&c=d".to_string()),
            ("mode".to_string(), "code".to_string()),
        ]
    );
}

#[test]
fn a_server_that_is_no_address_is_refused() {
    let err = authorize_url("not a server", 1, "abc").unwrap_err();
    assert!(matches!(err, Error::Input(_)));
    assert!(err.message().starts_with("invalid server URL: "), "{}", err.message());
    let err = checked_login_url(Err("odd".into())).unwrap_err();
    assert_eq!(err.message(), "invalid server URL: odd");
    assert_eq!(checked_login_url(Ok("https://x/".into())).unwrap(), "https://x/");
}

#[test]
fn login_url_takes_texts_of_any_length() {
    assert_eq!(
        login_url("https://api.sotto.dev", 51999, "abc123").unwrap().unwrap(),
        authorize_url("https://api.sotto.dev", 51999, "abc123").unwrap()
    );
    let refused = login_url("not a server", 1, "abc").unwrap().unwrap_err();
    assert_eq!(refused.message(), authorize_url("not a server", 1, "abc").unwrap_err().message());
    let long = "a".repeat(MAX_ADDRESS + 1);
    assert!(login_url("https://api.sotto.dev", 51999, &long).is_none());
    assert!(login_url(&format!("https://{long}"), 51999, "abc123").is_none());
}

#[test]
fn parse_callback_extracts_the_code() {
    assert_eq!(
        parse_callback("/?code=sc_xyz&state=abc", "abc").unwrap(),
        "sc_xyz"
    );
    assert_eq!(
        parse_callback("/?code=sc_xyz&session=st_xyz&state=abc", "abc").unwrap(),
        "sc_xyz"
    );
}

#[test]
fn parse_callback_rejects_a_legacy_session() {
    let err = parse_callback("/?session=st_xyz&state=abc", "abc").unwrap_err();
    assert!(
        matches!(err, Error::LegacyServer),
        "unexpected error: {err:?}"
    );
    assert!(
        err.message().contains("instead of a login code"),
        "unexpected error: {err:?}"
    );
}

#[test]
fn parse_callback_rejects_state_mismatch_and_missing_fields() {
    assert!(parse_callback("/?code=sc_xyz&state=evil", "abc").is_err());
    assert!(parse_callback("/?state=abc", "abc").is_err());
    assert!(parse_callback("/?code=sc_xyz", "abc").is_err());
    assert!(parse_callback("/?session=st_xyz", "abc").is_err());
    assert!(parse_callback("not a target", "abc").is_err());
}

#[test]
fn parse_callback_names_each_refusal() {
    let message = |target: &str| parse_callback(target, "abc").unwrap_err().message();
    assert_eq!(
        message("/?code=sc_xyz&state=evil"),
        "callback state mismatch (possible CSRF)"
    );
    assert_eq!(message("/?code=sc_xyz&state=ab"), "callback state mismatch (possible CSRF)");
    assert_eq!(message("/?code=sc_xyz"), "callback missing state");
    assert_eq!(message("/?state=abc"), "callback missing code");
    assert!(message("not a target").starts_with("invalid callback request: "));
}

#[test]
fn parse_callback_decodes_and_takes_the_last_value() {
    assert_eq!(
        parse_callback("/?code=one&code=sc%2Bx+y&state=evil&state=abc", "abc").unwrap(),
        "sc+x y"
    );
    assert!(parse_callback("/?code=one&state=abc&state=evil", "abc").is_err());
}

fn pair(name: &str, value: &str) -> (String, String) {
    (name.to_string(), value.to_string())
}

#[test]
fn interpret_callback_reads_given_pairs() {
    let pairs = vec![pair("code", "a"), pair("state", "s"), pair("code", "b")];
    assert_eq!(interpret_callback(&pairs, "s").unwrap(), "b");
    assert!(interpret_callback(&pairs, "S").is_err());
    let empty_code = vec![pair("state", "s"), pair("code", "")];
    assert_eq!(interpret_callback(&empty_code, "s").unwrap(), "");
    let legacy = vec![pair("state", "s"), pair("session", "")];
    assert!(matches!(interpret_callback(&legacy, "s"), Err(Error::LegacyServer)));
    let wrong_legacy = vec![pair("state", "x"), pair("session", "")];
    assert!(matches!(interpret_callback(&wrong_legacy, "s"), Err(Error::Server(_))));
    assert!(interpret_callback(&vec![], "s").is_err());
}

#[test]
fn request_target_accepts_only_a_short_get_line() {
    assert_eq!(
        request_target("GET /?code=sc_xyz&state=abc HTTP/1.1\r\n").unwrap(),
        "/?code=sc_xyz&state=abc"
    );
    for bad in [
        "",
        "GARBAGE",
        "POST /?code=sc_xyz&state=abc HTTP/1.1",
        "GET /?code=sc_xyz&state=abc",
        "GET /?code=sc_xyz&state=abc HTTP/1.1 EXTRA",
        "GET https://evil.example/ HTTP/1.1",
        "GET /?code=sc_xyz&state=abc FROBNICATE/9.9",
    ] {
        assert!(request_target(bad).is_err(), "accepted: {bad:?}");
    }
}

#[test]
fn request_target_splits_on_any_white_space() {
    assert_eq!(
        request_target("\u{3000}GET\t\t/ü\u{2028}HTTP/ \n").unwrap(),
        "/ü"
    );
    assert_eq!(request_target("GET / HTTP/1.0").unwrap(), "/");
    assert_eq!(
        request_target("get / HTTP/1.0").unwrap_err().message(),
        "malformed callback request"
    );
}

#[test]
fn callback_target_is_bounded_in_bytes() {
    let fits = format!("GET /{} HTTP/1.1", "a".repeat(8192 - 14));
    assert_eq!(fits.len(), 8192);
    assert_eq!(callback_target(&fits).unwrap().len(), 8192 - 13);
    let over = format!("GET /{} HTTP/1.1", "a".repeat(8192 - 13));
    assert_eq!(
        callback_target(&over).unwrap_err().message(),
        "callback request too large"
    );
    let wide = format!("GET /{} HTTP/1.1", "é".repeat(4096));
    assert_eq!(
        callback_target(&wide).unwrap_err().message(),
        "callback request too large"
    );
    assert!(callback_target("GET").is_err());
}

fn line(text: &str) -> CallbackEvent {
    CallbackEvent::RequestLine(text.to_string())
}

/// What the listener answers to an event, and how the login ends if it does.
fn serve(event: CallbackEvent, overall: u64) -> (String, Option<Result<String, Error>>) {
    match react(event, "abc", overall) {
        CallbackAction::Listen | CallbackAction::Pause => (String::new(), None),
        CallbackAction::Reject => (callback_response(false), None),
        CallbackAction::Finish { reply, outcome } => {
            (reply.map(callback_response).unwrap_or_default(), Some(outcome))
        }
    }
}

fn assert_rejected(event: CallbackEvent) {
    let (response, verdict) = serve(event, 10);
    assert!(response.starts_with("HTTP/1.1 400"), "{response}");
    assert!(verdict.is_none());
}

fn assert_valid_callback_lands() {
    let (valid, verdict) = serve(line("GET /?code=sc_ok&state=abc HTTP/1.1\r\n"), 10);
    assert!(valid.starts_with("HTTP/1.1 200 OK"), "{valid}");
    assert_eq!(verdict.expect("verdict").unwrap(), "sc_ok");
}

#[test]
fn accept_loop_ignores_junk_until_a_valid_callback() {
    assert_rejected(line("GARBAGE\r\n"));
    assert_rejected(line("GET /?code=sc_evil&state=evil HTTP/1.1\r\n"));
    assert_rejected(line("GET /?code="));
    assert_rejected(line(""));
    assert_valid_callback_lands();
}

#[test]
fn accept_loop_rejects_an_oversized_request() {
    let big = format!("GET /?{} HTTP/1.1\r\n", "a".repeat(9000));
    assert_rejected(line(&big));
    assert_rejected(line(&big[..8193]));
    assert_valid_callback_lands();
}

#[test]
fn accept_loop_drops_a_peer_that_never_finishes_its_request() {
    assert_rejected(CallbackEvent::Unread("timed out".into()));
    assert_valid_callback_lands();
}

#[test]
fn accept_loop_fails_fast_on_a_legacy_session() {
    let (legacy, verdict) = serve(line("GET /?session=st_old&state=abc HTTP/1.1\r\n"), 30);
    assert!(legacy.starts_with("HTTP/1.1 400"), "{legacy}");
    let error = verdict.expect("verdict").unwrap_err();
    assert!(matches!(error, Error::LegacyServer));
    assert!(error.message().contains("instead of a login code"), "{}", error.message());
}

#[test]
fn accept_loop_times_out_instead_of_hanging() {
    let (response, verdict) = serve(CallbackEvent::DeadlinePassed, 0);
    assert_eq!(response, "");
    let error = verdict.expect("verdict").unwrap_err();
    assert!(error.message().contains("timed out"), "{}", error.message());
}

#[test]
fn the_listener_reacts_to_everything_else() {
    match react(CallbackEvent::DeadlinePassed, "abc", 300) {
        CallbackAction::Finish { reply: None, outcome: Err(Error::Network(detail)) } => assert_eq!(
            detail,
            "login timed out waiting for the browser callback after 300s"
        ),
        other => panic!("{other:?}"),
    }
    assert!(matches!(react(CallbackEvent::NobodyWaiting, "abc", 1), CallbackAction::Pause));
    assert!(matches!(react(CallbackEvent::PeerUnusable, "abc", 1), CallbackAction::Listen));
    assert!(matches!(
        react(CallbackEvent::Unread("timed out".into()), "abc", 1),
        CallbackAction::Reject
    ));
    match react(CallbackEvent::ListenerFailed("gone".into()), "abc", 1) {
        CallbackAction::Finish { reply: None, outcome: Err(Error::Io(detail)) } => {
            assert_eq!(detail, "gone")
        }
        other => panic!("{other:?}"),
    }
    assert!(matches!(
        judge_callback(Err(Error::Io("x".into()))),
        CallbackAction::Reject
    ));
}

#[test]
fn callback_responses_are_exact() {
    assert_eq!(
        callback_response(true),
        "HTTP/1.1 200 OK\r\nContent-Type: text/html\r\nContent-Length: 73\r\n\
         Connection: close\r\n\r\n\
         <html><body>Sotto: login complete - you can close this tab.</body></html>"
    );
    assert_eq!(
        callback_response(false),
        "HTTP/1.1 400 Bad Request\r\nContent-Type: text/html\r\nContent-Length: 46\r\n\
         Connection: close\r\n\r\n<html><body>Sotto: login failed.</body></html>"
    );
}

#[test]
fn redirect_pages_carry_the_escaped_url() {
    let page = redirect_page("https://srv/auth?state=abc&x=1\"q");
    assert!(page.contains("https://srv/auth?state=abc&amp;x=1&quot;q"), "{page}");
    assert_eq!(escape("a&b\"c&amp;é"), "a&amp;b&quot;c&amp;amp;é");
    assert_eq!(
        redirect_page("u"),
        "<!doctype html><html><head><meta http-equiv=\"refresh\" content=\"0;url=u\"></head><body>\
         <p>Sotto: authorise this login by opening <a href=\"u\">this link</a>.</p></body></html>"
    );
}

#[test]
fn random_bytes_become_hexadecimal_names() {
    assert_eq!(hex(&[0x00, 0x0f, 0xa5, 0xff]), "000fa5ff");
    assert_eq!(hex(&[]), "");
    assert_eq!(redirect_file_name(4242, &[1, 2, 0xab]), "sotto-login-4242-0102ab.html");
}

#[test]
fn exchange_code_posts_code_and_state_and_returns_the_token() {
    let token = exchange_outcome(ExchangeReply::Token("st_exchanged".into())).expect("exchange");
    assert_eq!(token, "st_exchanged");
    let request = exchange_request("https://api.sotto.dev", "sc_abc", "cli-state");
    assert_eq!(request.url, "https://api.sotto.dev/auth/github/exchange");
    assert_eq!(request.body, [pair("code", "sc_abc"), pair("state", "cli-state")]);
}

#[test]
fn exchange_outcomes_are_reported() {
    let refused = exchange_outcome(ExchangeReply::Refused {
        status: "403 Forbidden".into(),
        body: "no".into(),
    })
    .unwrap_err();
    assert!(matches!(refused, Error::Server(_)));
    assert_eq!(refused.message(), "code exchange failed: 403 Forbidden: no");
    assert!(matches!(
        exchange_outcome(ExchangeReply::Unsent("down".into())),
        Err(Error::Network(detail)) if detail == "down"
    ));
    assert!(matches!(
        exchange_outcome(ExchangeReply::Unreadable("eof".into())),
        Err(Error::Server(detail)) if detail == "eof"
    ));
}
