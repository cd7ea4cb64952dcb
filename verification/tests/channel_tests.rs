use voxalic::auth::MarketAuthInner;
use voxalic::channel::{ChannelAction, ChannelEvent, ChannelState};
use voxalic::json::Json;

fn session() -> MarketAuthInner {
    MarketAuthInner::from_file(None, "dev-1".to_string())
}

/// The id and the single payload value of a command that is sent.
fn sent(a: &ChannelAction) -> (String, String, String) {
    match a {
        ChannelAction::Send(Json::Object(m)) => {
            let text = |j: &Json| match j {
                Json::Str(s) => s.clone(),
                _ => panic!("not a string"),
            };
            let payload = match &m[1].1 {
                Json::Object(p) => text(&p[0].1),
                _ => panic!("no payload"),
            };
            (text(&m[0].1), payload, text(&m[2].1))
        }
        _ => panic!("not a command"),
    }
}

#[test]
fn channel_connects_only_with_a_token() {
    let mut auth = session();
    let mut st = ChannelState::new();
    let a = st.step(&mut auth, ChannelEvent::Begin(None));
    assert!(matches!(a[..], [ChannelAction::Exit]));
    let a = st.step(&mut auth, ChannelEvent::Begin(Some("jwt".to_string())));
    assert!(matches!(a[..], [ChannelAction::Connect]));
    let a = st.step(&mut auth, ChannelEvent::Connected);
    assert_eq!(a.len(), 1);
    assert_eq!(sent(&a[0]), ("auth-1".to_string(), "jwt".to_string(), "@wfm|cmd/auth/signIn".to_string()));
    let a = st.step(&mut auth, ChannelEvent::ConnectFailed);
    assert!(matches!(a[..], [ChannelAction::Wait(1)]));
}

#[test]
fn channel_replays_the_status_after_signing_in() {
    let mut auth = session();
    let mut st = ChannelState::new();
    st.step(&mut auth, ChannelEvent::Begin(Some("jwt".to_string())));
    st.step(&mut auth, ChannelEvent::Connected);
    let a = st.step(&mut auth, ChannelEvent::SignInReply(None));
    assert_eq!(a.len(), 1);
    assert_eq!(sent(&a[0]), ("replay-1".to_string(), "online".to_string(), "@wfm|cmd/status/set".to_string()));
    let reply = r#"{"route":"@wfm|event/status/set","payload":{"status":"ingame"}}"#.to_string();
    let a = st.step(&mut auth, ChannelEvent::SignInReply(Some(reply)));
    assert_eq!(a.len(), 2);
    assert!(matches!(&a[0], ChannelAction::StatusChanged(s) if s == "ingame"));
    assert_eq!(sent(&a[1]).1, "ingame");
    assert_eq!(auth.current_status.as_deref(), Some("ingame"));
}

#[test]
fn first_status_event_makes_the_channel_ready() {
    let mut auth = session();
    let mut st = ChannelState::new();
    let ev = r#"{"route":"@wfm|event/status/set","payload":{"status":"invisible"}}"#;
    let a = st.step(&mut auth, ChannelEvent::Text(ev.to_string()));
    assert_eq!(a.len(), 2);
    assert!(matches!(&a[0], ChannelAction::StatusChanged(s) if s == "invisible"));
    assert!(matches!(a[1], ChannelAction::Ready));
    let a = st.step(&mut auth, ChannelEvent::Text(ev.to_string()));
    assert_eq!(a.len(), 1);
    let a = st.step(&mut auth, ChannelEvent::Text(r#"{"route":"@wfm|event/online/count"}"#.to_string()));
    assert!(a.is_empty());
    assert_eq!(auth.current_status.as_deref(), Some("invisible"));
}

#[test]
fn channel_backs_off_up_to_thirty_seconds() {
    let mut auth = session();
    let mut st = ChannelState::new();
    let mut waits = Vec::new();
    for n in 0..7 {
        let ev = if n % 2 == 0 { ChannelEvent::ConnectFailed } else { ChannelEvent::Dropped };
        match st.step(&mut auth, ev)[..] {
            [ChannelAction::Wait(s)] => waits.push(s),
            _ => panic!("expected a wait"),
        }
        st.step(&mut auth, ChannelEvent::WaitOver);
    }
    assert_eq!(waits, vec![1, 2, 4, 8, 16, 30, 30]);
    st.step(&mut auth, ChannelEvent::Connected);
    assert_eq!(st.backoff, 1);
}

#[test]
fn user_status_is_sent_then_recorded() {
    let mut auth = session();
    let mut st = ChannelState::new();
    let a = st.step(&mut auth, ChannelEvent::SetStatus("away".to_string()));
    assert_eq!(sent(&a[0]), ("status-1".to_string(), "online".to_string(), "@wfm|cmd/status/set".to_string()));
    assert_eq!(auth.current_status, None);
    st.step(&mut auth, ChannelEvent::StatusSent("online".to_string()));
    assert_eq!(auth.current_status.as_deref(), Some("online"));
    assert!(matches!(st.step(&mut auth, ChannelEvent::Shutdown)[..], [ChannelAction::Close]));
    assert!(matches!(st.step(&mut auth, ChannelEvent::Ping)[..], [ChannelAction::SendPong]));
    assert!(matches!(st.step(&mut auth, ChannelEvent::Heartbeat)[..], [ChannelAction::SendPing]));
}
