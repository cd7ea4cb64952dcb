//! The decisions of the Warframe.Market status channel, a WebSocket that
//! keeps the user's status (online, in game, invisible) in step between the
//! application and the market: when to connect, sign in and replay the
//! status, how messages change the status, and how long to wait before
//! reconnecting. The socket itself, the timers and the commands from the
//! user are run by the caller, which reports each as an event.

use vstd::prelude::*;
use crate::json::{parsed_text, str_of, index, Json};
use crate::auth::{
    MarketAuthInner, AuthView, opt_text, reported_status, status_word, is_command, sign_in_command,
    set_status_command, status_payload, is_status_event, next_backoff,
};

verus! {

/// What the channel loop knows between events.
pub struct ChannelState {
    /// Seconds to wait before the next reconnection.
    pub backoff: u64,
    /// The first status event since connecting has arrived.
    pub synced: bool,
    /// The access token the current connection signs in with.
    pub token: Option<String>,
}

/// What happened.
pub enum ChannelEvent {
    /// The loop starts over: the access token held now, if any.
    Begin(Option<String>),
    /// The secure connection could not be made or timed out.
    ConnectFailed,
    /// The WebSocket handshake failed or timed out.
    HandshakeFailed,
    /// The channel is open.
    Connected,
    /// The reply to the sign-in: a text message, or `None` when something
    /// else (or nothing, within five seconds) came.
    SignInReply(Option<String>),
    /// A text message.
    Text(String),
    /// A ping from the market.
    Ping,
    /// The market closed the channel, or reading from it failed.
    Dropped,
    /// The user asks for a status.
    SetStatus(String),
    /// A status was sent on the channel.
    StatusSent(String),
    /// Sending failed.
    SendFailed,
    /// It is time for a keep-alive ping.
    Heartbeat,
    /// The wait before reconnecting is over.
    WaitOver,
    /// Sign-out, or nobody can send commands any more.
    Shutdown,
}

/// What to do.
pub enum ChannelAction {
    /// Open the channel.
    Connect,
    /// Send a text message.
    Send(Json),
    /// Answer a ping.
    SendPong,
    /// Send a keep-alive ping.
    SendPing,
    /// Wait this many seconds (still taking `Shutdown`), then report
    /// `WaitOver`.
    Wait(u64),
    /// Tell the front end the status changed.
    StatusChanged(String),
    /// Tell the front end the channel is in step.
    Ready,
    /// Close the channel and stop.
    Close,
    /// Stop: there is no token to sign in with.
    Exit,
}

/// `a` sends the command `{"id", "payload": {key: value}, "route"}`.
pub open spec fn sends(a: ChannelAction, id: Seq<char>, key: Seq<char>, value: Seq<char>, route: Seq<char>) -> bool {
    a matches ChannelAction::Send(j) && is_command(j, id, key, value, route)
}

/// `a` tells the front end that the status is now `s`.
pub open spec fn announces(a: ChannelAction, s: Seq<char>) -> bool {
    a matches ChannelAction::StatusChanged(t) && t@ == s
}

/// The status a channel message reports, if any.
pub open spec fn message_report(text: Seq<char>) -> Option<Seq<char>> {
    match parsed_text(text) {
        Some(v) => reported_status(v),
        None => None,
    }
}

/// The message is a status event.
pub open spec fn status_event(text: Seq<char>) -> bool {
    parsed_text(text) matches Some(v) && str_of(index(v, "route"@)) == Some("@wfm|event/status/set"@)
}

/// The sign-in state after a message: a reported status becomes the current
/// one.
pub open spec fn after_message(auth: AuthView, text: Seq<char>) -> AuthView {
    match message_report(text) {
        Some(s) => AuthView { current_status: Some(s), ..auth },
        None => auth,
    }
}

/// The actions `acts` begin by announcing the status a message reports, if
/// any; `rest` is how many actions follow.
pub open spec fn announced(acts: Seq<ChannelAction>, text: Seq<char>, rest: nat) -> bool {
    match message_report(text) {
        Some(s) => acts.len() == 1 + rest && announces(acts[0], s),
        None => acts.len() == rest,
    }
}

/// The status replayed after signing in: the current one, else `online`.
pub open spec fn replayed(auth: AuthView) -> Seq<char> {
    match auth.current_status {
        Some(s) => s,
        None => "online"@,
    }
}

impl ChannelState {
    /// A channel that has not connected yet: the first wait is one second.
    pub fn new() -> (r: ChannelState)
        ensures
            r.backoff == 1,
            !r.synced,
            r.token is None,
    {
        ChannelState { backoff: 1, synced: false, token: None }
    }

    /// Announce the status a message reports, and take it as the current
    /// one.
    fn take_message(auth: &mut MarketAuthInner, text: &str, acts: &mut Vec<ChannelAction>)
        ensures
            final(auth)@ == after_message(old(auth)@, text@),
            match message_report(text@) {
                Some(s) => final(acts)@.len() == old(acts)@.len() + 1 && final(acts)@.take(
                    old(acts)@.len() as int,
                ) == old(acts)@ && announces(final(acts)@.last(), s),
                None => final(acts)@ == old(acts)@,
            },
    {
        match auth.apply_message(text) {
            Some(s) => {
                let ghost before = acts@;
                acts.push(ChannelAction::StatusChanged(s));
                assert(acts@.take(before.len() as int) =~= before);
            },
            None => {},
        }
    }

    /// Decide what to do about an event; the sign-in state takes the
    /// statuses the market reports and the user sets.
    pub fn step(&mut self, auth: &mut MarketAuthInner, event: ChannelEvent) -> (acts: Vec<ChannelAction>)
        requires
            old(self).backoff <= 30,
        ensures
            final(self).backoff <= 30,
            final(self).backoff == match event {
                ChannelEvent::Connected => 1int,
                ChannelEvent::WaitOver => if old(self).backoff * 2 < 30 {
                    old(self).backoff * 2
                } else {
                    30int
                },
                _ => old(self).backoff as int,
            },
            final(self).synced == match event {
                ChannelEvent::Connected => false,
                ChannelEvent::Text(t) => old(self).synced || status_event(t@),
                _ => old(self).synced,
            },
            opt_text(final(self).token) == match event {
                ChannelEvent::Begin(t) => opt_text(t),
                _ => opt_text(old(self).token),
            },
            match event {
                ChannelEvent::Begin(t) => {
                    &&& final(auth)@ == old(auth)@
                    &&& final(self).backoff == old(self).backoff
                    &&& final(self).synced == old(self).synced
                    &&& opt_text(final(self).token) == opt_text(t)
                    &&& acts@.len() == 1
                    &&& if t is Some {
                        acts@[0] is Connect
                    } else {
                        acts@[0] is Exit
                    }
                },
                ChannelEvent::ConnectFailed | ChannelEvent::HandshakeFailed | ChannelEvent::Dropped
                | ChannelEvent::SendFailed => {
                    &&& final(auth)@ == old(auth)@
                    &&& final(self).backoff == old(self).backoff
                    &&& acts@.len() == 1 && acts@[0] == ChannelAction::Wait(old(self).backoff)
                },
                ChannelEvent::WaitOver => {
                    &&& final(auth)@ == old(auth)@
                    &&& final(self).backoff == if old(self).backoff * 2 < 30 {
                        old(self).backoff * 2
                    } else {
                        30
                    }
                    &&& acts@.len() == 0
                },
                ChannelEvent::Connected => {
                    &&& final(auth)@ == old(auth)@
                    &&& final(self).backoff == 1
                    &&& !final(self).synced
                    &&& acts@.len() == 1
                    &&& sends(
                        acts@[0],
                        "auth-1"@,
                        "token"@,
                        match opt_text(old(self).token) {
                            Some(t) => t,
                            None => Seq::empty(),
                        },
                        "@wfm|cmd/auth/signIn"@,
                    )
                },
                ChannelEvent::SignInReply(m) => {
                    let after = match m {
                        Some(t) => after_message(old(auth)@, t@),
                        None => old(auth)@,
                    };
                    &&& final(auth)@ == after
                    &&& final(self).synced == old(self).synced
                    &&& final(self).backoff == old(self).backoff
                    &&& match m {
                        Some(t) => announced(acts@, t@, 1),
                        None => acts@.len() == 1,
                    }
                    &&& sends(acts@.last(), "replay-1"@, "status"@, replayed(after), "@wfm|cmd/status/set"@)
                },
                ChannelEvent::Text(t) => {
                    let first = !old(self).synced && status_event(t@);
                    &&& final(auth)@ == after_message(old(auth)@, t@)
                    &&& final(self).synced == (old(self).synced || status_event(t@))
                    &&& final(self).backoff == old(self).backoff
                    &&& announced(acts@, t@, if first { 1nat } else { 0nat })
                    &&& first ==> acts@.last() is Ready
                },
                ChannelEvent::Ping => {
                    &&& final(auth)@ == old(auth)@
                    &&& acts@.len() == 1 && acts@[0] is SendPong
                },
                ChannelEvent::Heartbeat => {
                    &&& final(auth)@ == old(auth)@
                    &&& acts@.len() == 1 && acts@[0] is SendPing
                },
                ChannelEvent::SetStatus(s) => {
                    &&& final(auth)@ == old(auth)@
                    &&& acts@.len() == 1
                    &&& sends(acts@[0], "status-1"@, "status"@, status_word(s@), "@wfm|cmd/status/set"@)
                },
                ChannelEvent::StatusSent(s) => {
                    &&& final(auth)@ == (AuthView { current_status: Some(s@), ..old(auth)@ })
                    &&& acts@.len() == 0
                },
                ChannelEvent::Shutdown => {
                    &&& final(auth)@ == old(auth)@
                    &&& acts@.len() == 1 && acts@[0] is Close
                },
            },
    {
        let mut acts: Vec<ChannelAction> = Vec::new();
        match event {
            ChannelEvent::Begin(t) => {
                match t {
                    Some(tok) => {
                        self.token = Some(tok);
                        acts.push(ChannelAction::Connect);
                    },
                    None => {
                        self.token = None;
                        acts.push(ChannelAction::Exit);
                    },
                }
            },
            ChannelEvent::ConnectFailed | ChannelEvent::HandshakeFailed | ChannelEvent::Dropped
            | ChannelEvent::SendFailed => {
                acts.push(ChannelAction::Wait(self.backoff));
            },
            ChannelEvent::WaitOver => {
                self.backoff = next_backoff(self.backoff);
            },
            ChannelEvent::Connected => {
                self.backoff = 1;
                self.synced = false;
                proof {
                    reveal_strlit("");
                }
                let tok: &str = match &self.token {
                    Some(t) => t.as_str(),
                    None => "",
                };
                assert(tok@ == match opt_text(old(self).token) {
                    Some(t) => t,
                    None => Seq::<char>::empty(),
                });
                let cmd = sign_in_command(tok);
                acts.push(ChannelAction::Send(cmd));
            },
            ChannelEvent::SignInReply(m) => {
                match &m {
                    Some(t) => {
                        Self::take_message(auth, t.as_str(), &mut acts);
                    },
                    None => {},
                }
                proof {
                    reveal_strlit("online");
                }
                let status = auth.replay_status();
                acts.push(ChannelAction::Send(set_status_command(status.as_str(), "replay-1")));
            },
            ChannelEvent::Text(t) => {
                Self::take_message(auth, t.as_str(), &mut acts);
                if is_status_event(t.as_str()) {
                    if !self.synced {
                        acts.push(ChannelAction::Ready);
                    }
                    self.synced = true;
                }
            },
            ChannelEvent::Ping => {
                acts.push(ChannelAction::SendPong);
            },
            ChannelEvent::Heartbeat => {
                acts.push(ChannelAction::SendPing);
            },
            ChannelEvent::SetStatus(s) => {
                let p = status_payload(s.as_str());
                acts.push(ChannelAction::Send(set_status_command(p.as_str(), "status-1")));
            },
            ChannelEvent::StatusSent(s) => {
                auth.status_sent(s.as_str());
            },
            ChannelEvent::Shutdown => {
                acts.push(ChannelAction::Close);
            },
        }
        acts
    }
}

} // verus!
