use voxalic::auth::{
    check_signin, csrf_outcome, device_id_of, extract_csrf_from_html, extract_jwt_from_cookies, fallback_proxies,
    generate_device_id, is_status_event, jwt_sub, message_status, next_backoff, proxy_accepted, proxy_address_of,
    refresh_outcome, session_cookie_of, set_status_command, sign_in_command, signin_outcome, status_payload, AuthFile,
    MarketAuthInner, SignedIn, TokenStep,
};
use voxalic::json::Json;

const JWT: &str = "hdr.eyJzdWIiOiJUZW5ubyIsIngiOjF9.sig";

fn session() -> MarketAuthInner {
    MarketAuthInner::from_file(None, "dev-1".to_string())
}

#[test]
fn jwt_subject() {
    assert_eq!(jwt_sub(JWT), Some("Tenno".to_string()));
    assert_eq!(jwt_sub("only-one-part"), None);
    assert_eq!(jwt_sub("a.!!!.c"), None);
    assert_eq!(jwt_sub("a.aGVsbG8.c"), None);
}

#[test]
fn jwt_cookie_is_found_in_any_case() {
    let headers = vec![
        "session=abc; Path=/".to_string(),
        "theme=dark;  jwt=TOKEN ; HttpOnly".to_string(),
        "JWT=later".to_string(),
    ];
    assert_eq!(extract_jwt_from_cookies(&headers), Some("TOKEN".to_string()));
    assert_eq!(extract_jwt_from_cookies(&["a=b".to_string()]), None);
}

#[test]
fn csrf_token_quoted_or_bare() {
    let html = r#"<meta name="csrf-token" content="tok123">"#;
    assert_eq!(extract_csrf_from_html(html), Some("tok123".to_string()));
    let single = r#"<meta name="csrf-token" content='t2'/>"#;
    assert_eq!(extract_csrf_from_html(single), Some("t2".to_string()));
    let bare = r#"<meta name="csrf-token" content=bare/>"#;
    assert_eq!(extract_csrf_from_html(bare), Some("bare".to_string()));
    assert_eq!(extract_csrf_from_html("<html></html>"), None);
    assert_eq!(extract_csrf_from_html(r#"name="csrf-token" content=""#), None);
}

#[test]
fn sign_in_page_outcome() {
    let cookies = vec![" a=1; Path=/".to_string(), "b=2".to_string()];
    assert_eq!(session_cookie_of(&cookies), "a=1; b=2");
    let ok = csrf_outcome(200, &cookies, r#"<meta name="csrf-token" content="c">"#).unwrap();
    assert_eq!(ok.csrf_token, "c");
    assert_eq!(ok.session_cookie, "a=1; b=2");
    let e = csrf_outcome(503, &cookies, "").err().unwrap();
    assert_eq!(e.message, "CSRF 页面返回 HTTP 503");
    assert_eq!(csrf_outcome(200, &cookies, "").err().unwrap().message, "无法获取 CSRF token");
}

#[test]
fn token_refresh_replies() {
    assert_eq!(refresh_outcome(200, &["JWT=new".to_string()]).unwrap(), "new");
    assert_eq!(refresh_outcome(200, &[]).err().unwrap().code, "server_error");
    assert_eq!(refresh_outcome(401, &[]).err().unwrap().code, "auth_expired");
    assert_eq!(refresh_outcome(429, &[]).err().unwrap().code, "rate_limited");
    assert_eq!(refresh_outcome(502, &[]).err().unwrap().message, "服务暂时不可用");
    assert_eq!(refresh_outcome(418, &[]).err().unwrap().message, "刷新失败 (HTTP 418)");
}

#[test]
fn token_steps_and_refresh_results() {
    let mut a = session();
    assert!(matches!(a.token_step(), TokenStep::Expired(_)));
    a.refresh_token = Some("r".to_string());
    match a.token_step() {
        TokenStep::Refresh(rt) => assert_eq!(rt, "r"),
        _ => panic!("expected a refresh"),
    }
    assert_eq!(a.finish_refresh(Ok("acc".to_string())).unwrap(), "Bearer acc");
    match a.token_step() {
        TokenStep::Ready(b) => assert_eq!(b, "Bearer acc"),
        _ => panic!("expected a token"),
    }
    a.logged_in = true;
    a.ingame_name = Some("T".to_string());
    let e = a.finish_refresh(Err(voxalic::models::market_error("x", "y"))).err().unwrap();
    assert_eq!(e.code, "auth_expired");
    assert!(!a.logged_in);
    assert_eq!(a.access_token, None);
    assert_eq!(a.refresh_token, None);
    assert_eq!(a.ingame_name, None);
    assert_eq!(a.device_id, "dev-1");
}

#[test]
fn session_from_file() {
    let f = AuthFile {
        access_token: Some("t".into()),
        refresh_token: None,
        device_id: String::new(),
        ingame_name: Some("N".into()),
        avatar: None,
        reputation: Some(3),
    };
    let a = MarketAuthInner::from_file(Some(f), "fresh".into());
    assert!(a.logged_in);
    assert_eq!(a.device_id, "fresh");
    assert_eq!(a.reputation, Some(3));
    let back = a.to_file();
    assert_eq!(back.access_token.as_deref(), Some("t"));
    assert_eq!(back.device_id, "fresh");
}

#[test]
fn one_sign_in_at_a_time() {
    let mut a = session();
    assert!(a.begin_login().is_ok());
    assert_eq!(a.begin_login().err().unwrap().code, "in_progress");
    a.end_login();
    assert!(a.begin_login().is_ok());
}

#[test]
fn sign_in_form_checks() {
    assert_eq!(check_signin("  ", "p").err().unwrap().message, "请输入有效的邮箱地址");
    assert_eq!(check_signin("nobody", "p").err().unwrap().message, "请输入有效的邮箱地址");
    assert_eq!(check_signin("a@b.c", "").err().unwrap().message, "请输入密码");
    assert!(check_signin("a@b.c", "p").is_ok());
}

#[test]
fn sign_in_replies() {
    let cookies = vec![format!("JWT={}; Path=/", JWT)];
    let ok = signin_outcome(200, &cookies, r#"{"payload":{"user":{"avatar":"av.png","reputation":12}}}"#).unwrap();
    assert_eq!(ok.access_token, JWT);
    assert_eq!(ok.ingame_name, "Tenno");
    assert_eq!(ok.avatar.as_deref(), Some("av.png"));
    assert_eq!(ok.reputation, Some(12));
    let from_body = signin_outcome(302, &[], r#"{"payload":{"token":"opaque","user":{"ingame_name":"Body"}}}"#).unwrap();
    assert_eq!(from_body.access_token, "opaque");
    assert_eq!(from_body.ingame_name, "Body");
    assert_eq!(signin_outcome(200, &[], "{}").err().unwrap().code, "server_error");
    assert_eq!(signin_outcome(401, &[], "User not found").err().unwrap().code, "email_not_found");
    assert_eq!(signin_outcome(401, &[], "bad").err().unwrap().code, "wrong_password");
    assert_eq!(signin_outcome(429, &[], "").err().unwrap().code, "rate_limited");
    assert_eq!(signin_outcome(500, &[], "").err().unwrap().code, "server_error");
}

#[test]
fn refused_sign_in_messages() {
    let body = r#"{"error":{"email":["app.account.email_invalid"],"password":["app.account.password_invalid","other"]}}"#;
    assert_eq!(signin_outcome(400, &[], body).err().unwrap().message, "登录失败：邮箱格式不正确；密码错误；other");
    let empty = r#"{"error": {"email": []}}"#;
    assert_eq!(signin_outcome(400, &[], empty).err().unwrap().message, r#"登录失败：{"error":{"email":[]}}"#);
    assert_eq!(signin_outcome(400, &[], r#"{"message":"slow down"}"#).err().unwrap().message, "登录失败：slow down");
    assert_eq!(signin_outcome(400, &[], r#"{"x":1}"#).err().unwrap().message, r#"登录失败：{"x":1}"#);
    let long: String = std::iter::repeat('y').take(130).collect();
    let cut = signin_outcome(400, &[], &long).err().unwrap().message;
    assert_eq!(cut.chars().count(), "登录失败：".chars().count() + 120);
}

#[test]
fn completing_sign_in_and_signing_out() {
    let mut a = session();
    a.current_status = Some("ingame".into());
    let st = a.complete_signin(SignedIn { access_token: "t".into(), ingame_name: "N".into(), avatar: None, reputation: Some(1) });
    assert!(st.logged_in);
    assert_eq!(st.ingame_name.as_deref(), Some("N"));
    assert_eq!(st.current_status.as_deref(), Some("ingame"));
    assert!(a.needs_channel(false));
    assert!(!a.needs_channel(true));
    a.clear_login();
    assert!(!a.status().logged_in);
    assert!(!a.needs_channel(false));
}

#[test]
fn status_channel_messages() {
    assert_eq!(status_payload("ingame"), "ingame");
    assert_eq!(status_payload("away"), "online");
    let mut a = session();
    assert_eq!(a.apply_message(r#"{"route":"@wfm|event/status/set","payload":{"status":"invisible"}}"#), Some("invisible".to_string()));
    assert_eq!(a.current_status.as_deref(), Some("invisible"));
    assert_eq!(message_status(r#"{"type":"@WS/USER","payload":"online"}"#), Some("online".to_string()));
    assert_eq!(message_status(r#"{"route":"@wfm|event/online/count","type":"@WS/USER","payload":"x"}"#), None);
    assert_eq!(message_status("garbage"), None);
    assert!(is_status_event(r#"{"route":"@wfm|event/status/set"}"#));
    assert!(!is_status_event(r#"{"route":"other"}"#));
    assert_eq!(a.replay_status(), "invisible");
    a.status_sent("online");
    assert_eq!(a.replay_status(), "online");
    match sign_in_command("tok") {
        Json::Object(m) => {
            let keys: Vec<&str> = m.iter().map(|(k, _)| k.as_str()).collect();
            assert_eq!(keys, vec!["id", "payload", "route"]);
        },
        _ => panic!("expected an object"),
    }
    assert!(matches!(set_status_command("online", "status-1"), Json::Object(_)));
}

#[test]
fn reconnect_backoff_doubles_up_to_thirty() {
    assert_eq!(next_backoff(1), 2);
    assert_eq!(next_backoff(8), 16);
    assert_eq!(next_backoff(16), 30);
    assert_eq!(next_backoff(30), 30);
}

#[test]
fn proxies() {
    assert_eq!(proxy_address_of("http=127.0.0.1:7890;https=127.0.0.1:7891"), "127.0.0.1:7890");
    assert_eq!(proxy_address_of(" host:8080 "), "host:8080");
    assert_eq!(fallback_proxies("127.0.0.1:1080"), vec!["127.0.0.1:7890", "127.0.0.1:10808"]);
    assert_eq!(fallback_proxies("").len(), 3);
    assert!(proxy_accepted("HTTP/1.1 200 Connection established"));
    assert!(!proxy_accepted("HTTP/1.1 407 Proxy Auth"));
}

#[test]
fn device_ids() {
    assert_eq!(device_id_of(0xabc), "voxalic-0000000000000abc");
    let id = generate_device_id();
    assert!(id.starts_with("voxalic-"));
    assert_eq!(id.len(), 24);
}

#[test]
fn saved_session_reloads() {
    let mut a = session();
    a.refresh_token = Some("r".into());
    a.access_token = Some("t".into());
    a.ingame_name = Some("Tenno".into());
    a.reputation = Some(7);
    a.current_status = Some("ingame".into());
    let b = MarketAuthInner::from_file(Some(a.to_file()), "other".into());
    assert_eq!(b.access_token.as_deref(), Some("t"));
    assert_eq!(b.refresh_token.as_deref(), Some("r"));
    assert_eq!(b.device_id, "dev-1");
    assert_eq!(b.ingame_name.as_deref(), Some("Tenno"));
    assert_eq!(b.reputation, Some(7));
    assert!(b.logged_in);
    assert_eq!(b.current_status, None);
    assert!(!b.login_in_progress);
}
