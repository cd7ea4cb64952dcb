//! Warframe.Market sign-in state: the session's tokens and profile, the JWT
//! and CSRF helpers, what each reply of the auth endpoints means, and the
//! status messages of the status channel.

use vstd::prelude::*;
use base64::Engine;
use std::hash::Hasher;
use crate::text::{owned, push_str, push_char, str_eq, decimal, push_decimal, chars_of, string_of, push_hex, hex_digits};
use crate::textscan::{
    contains, find, find_from, lowercase, to_lower, str_contains, trim, trim_str, split, split_str,
    eq_ignore_ascii_case, eq_ignore_case, is_ws, is_ws_char, find_chars, lemma_find_from, lemma_split_nonempty,
};
use crate::models::{MarketError, MarketAuthStatus, market_error};
use crate::json::{
    Json, JsonNumber, index, index2, index3, str_of, i64_of, array_of, or_null, at, at2, at3, as_str,
    as_i64, as_array, member, get_member, parse_text, parsed_text, parse_bytes, parsed_bytes,
    strings_in,
};
use crate::orders::{FieldVal, field_val};
use crate::market::{first_n, without};

verus! {

// ── The session ─────────────────────────────────────────────────────────────

/// The market account state of the app.
#[derive(Debug)]
pub struct MarketAuthInner {
    pub access_token: Option<String>,
    pub refresh_token: Option<String>,
    /// This installation's device id.
    pub device_id: String,
    pub ingame_name: Option<String>,
    pub avatar: Option<String>,
    pub reputation: Option<i32>,
    pub logged_in: bool,
    /// The last status the status channel reported or was told.
    pub current_status: Option<String>,
    /// A sign-in is under way.
    pub login_in_progress: bool,
}

/// The text of an optional string.
pub open spec fn opt_text(s: Option<String>) -> Option<Seq<char>> {
    match s {
        Some(t) => Some(t@),
        None => None,
    }
}

fn copy_opt(s: &Option<String>) -> (r: Option<String>)
    ensures
        opt_text(r) == opt_text(*s),
{
    match s {
        Some(t) => Some(t.clone()),
        None => None,
    }
}

/// The session as plain values.
pub struct AuthView {
    pub access_token: Option<Seq<char>>,
    pub refresh_token: Option<Seq<char>>,
    pub device_id: Seq<char>,
    pub ingame_name: Option<Seq<char>>,
    pub avatar: Option<Seq<char>>,
    pub reputation: Option<i32>,
    pub logged_in: bool,
    pub current_status: Option<Seq<char>>,
    pub login_in_progress: bool,
}

impl View for MarketAuthInner {
    type V = AuthView;

    open spec fn view(&self) -> AuthView {
        AuthView {
            access_token: opt_text(self.access_token),
            refresh_token: opt_text(self.refresh_token),
            device_id: self.device_id@,
            ingame_name: opt_text(self.ingame_name),
            avatar: opt_text(self.avatar),
            reputation: self.reputation,
            logged_in: self.logged_in,
            current_status: opt_text(self.current_status),
            login_in_progress: self.login_in_progress,
        }
    }
}

/// What the auth file holds.
#[derive(Debug)]
pub struct AuthFile {
    pub access_token: Option<String>,
    pub refresh_token: Option<String>,
    pub device_id: String,
    pub ingame_name: Option<String>,
    pub avatar: Option<String>,
    pub reputation: Option<i32>,
}

/// The auth file as plain values.
pub struct AuthFileView {
    pub access_token: Option<Seq<char>>,
    pub refresh_token: Option<Seq<char>>,
    pub device_id: Seq<char>,
    pub ingame_name: Option<Seq<char>>,
    pub avatar: Option<Seq<char>>,
    pub reputation: Option<i32>,
}

impl View for AuthFile {
    type V = AuthFileView;

    open spec fn view(&self) -> AuthFileView {
        AuthFileView {
            access_token: opt_text(self.access_token),
            refresh_token: opt_text(self.refresh_token),
            device_id: self.device_id@,
            ingame_name: opt_text(self.ingame_name),
            avatar: opt_text(self.avatar),
            reputation: self.reputation,
        }
    }
}

/// What the auth file holds for a session: its tokens, device id and
/// account.
pub open spec fn saved(a: AuthView) -> AuthFileView {
    AuthFileView {
        access_token: a.access_token,
        refresh_token: a.refresh_token,
        device_id: a.device_id,
        ingame_name: a.ingame_name,
        avatar: a.avatar,
        reputation: a.reputation,
    }
}

/// The session at start-up from the auth file, if it could be read:
/// `fresh_device_id` stands in for a missing device id, and the session is
/// signed in when the file holds an access token.
pub open spec fn loaded(file: Option<AuthFileView>, fresh_device_id: Seq<char>) -> AuthView {
    match file {
        Some(f) => AuthView {
            access_token: f.access_token,
            refresh_token: f.refresh_token,
            device_id: if f.device_id.len() == 0 {
                fresh_device_id
            } else {
                f.device_id
            },
            ingame_name: f.ingame_name,
            avatar: f.avatar,
            reputation: f.reputation,
            logged_in: f.access_token is Some,
            current_status: None,
            login_in_progress: false,
        },
        None => AuthView {
            access_token: None,
            refresh_token: None,
            device_id: fresh_device_id,
            ingame_name: None,
            avatar: None,
            reputation: None,
            logged_in: false,
            current_status: None,
            login_in_progress: false,
        },
    }
}

/// A session saved and loaded again has its tokens, device id and account
/// back, signed in exactly when it has an access token (nothing under way,
/// no status yet).
pub proof fn lemma_saved_session_reloads(a: AuthView, fresh_device_id: Seq<char>)
    requires
        a.device_id.len() > 0,
    ensures
        loaded(Some(saved(a)), fresh_device_id) == (AuthView {
            logged_in: a.access_token is Some,
            current_status: None,
            login_in_progress: false,
            ..a
        }),
{
}

impl MarketAuthInner {
    /// The session at start-up, from the auth file when it could be read
    /// (`fresh_device_id` is used when it names no device id); signed in
    /// when it holds an access token.
    pub fn from_file(file: Option<AuthFile>, fresh_device_id: String) -> (r: MarketAuthInner)
        ensures
            r@ == loaded(
                match file {
                    Some(f) => Some(f@),
                    None => None,
                },
                fresh_device_id@,
            ),
    {
        match file {
            Some(f) => {
                let device_id = if f.device_id.as_str().is_empty() {
                    fresh_device_id
                } else {
                    f.device_id
                };
                let logged_in = f.access_token.is_some();
                MarketAuthInner {
                    access_token: f.access_token,
                    refresh_token: f.refresh_token,
                    device_id,
                    ingame_name: f.ingame_name,
                    avatar: f.avatar,
                    reputation: f.reputation,
                    logged_in,
                    current_status: None,
                    login_in_progress: false,
                }
            },
            None => MarketAuthInner {
                access_token: None,
                refresh_token: None,
                device_id: fresh_device_id,
                ingame_name: None,
                avatar: None,
                reputation: None,
                logged_in: false,
                current_status: None,
                login_in_progress: false,
            },
        }
    }

    /// What the auth file should hold for this session.
    pub fn to_file(&self) -> (f: AuthFile)
        ensures
            f@ == saved(self@),
    {
        AuthFile {
            access_token: copy_opt(&self.access_token),
            refresh_token: copy_opt(&self.refresh_token),
            device_id: self.device_id.clone(),
            ingame_name: copy_opt(&self.ingame_name),
            avatar: copy_opt(&self.avatar),
            reputation: self.reputation,
        }
    }
}

/// The session after signing out or after the server refused its tokens:
/// no tokens, no name, not signed in; the rest kept.
pub open spec fn signed_out(a: AuthView) -> AuthView {
    AuthView { access_token: None, refresh_token: None, ingame_name: None, logged_in: false, ..a }
}

impl MarketAuthInner {
    /// Forget the tokens and the name (sign out).
    pub fn clear_login(&mut self)
        ensures
            final(self)@ == signed_out(old(self)@),
    {
        self.access_token = None;
        self.refresh_token = None;
        self.ingame_name = None;
        self.logged_in = false;
    }

    /// What the account panel shows.
    pub fn status(&self) -> (r: MarketAuthStatus)
        ensures
            r.logged_in == self@.logged_in,
            opt_text(r.ingame_name) == self@.ingame_name,
            opt_text(r.avatar) == self@.avatar,
            r.reputation == self@.reputation,
            opt_text(r.current_status) == self@.current_status,
    {
        MarketAuthStatus {
            logged_in: self.logged_in,
            ingame_name: copy_opt(&self.ingame_name),
            avatar: copy_opt(&self.avatar),
            reputation: self.reputation,
            current_status: copy_opt(&self.current_status),
        }
    }

    /// Whether the status channel has to be started: signed in and not
    /// running.
    pub fn needs_channel(&self, channel_running: bool) -> (r: bool)
        ensures
            r == (self@.logged_in && !channel_running),
    {
        self.logged_in && !channel_running
    }

    /// Start a sign-in; refused while another one is under way.
    pub fn begin_login(&mut self) -> (r: Result<(), MarketError>)
        ensures
            old(self)@.login_in_progress ==> (r matches Err(e) && e@ == (
                "in_progress"@,
                "登录处理中，请稍后重试"@,
            ) && final(self)@ == old(self)@),
            !old(self)@.login_in_progress ==> r is Ok && final(self)@ == (AuthView {
                login_in_progress: true,
                ..old(self)@
            }),
    {
        if self.login_in_progress {
            return Err(market_error("in_progress", "登录处理中，请稍后重试"));
        }
        self.login_in_progress = true;
        Ok(())
    }

    /// A sign-in has ended, however it went.
    pub fn end_login(&mut self)
        ensures
            final(self)@ == (AuthView { login_in_progress: false, ..old(self)@ }),
    {
        self.login_in_progress = false;
    }
}

// ── JWT ─────────────────────────────────────────────────────────────────────

/// The payload segment of a JWT: the second `.`-separated piece.
pub open spec fn jwt_payload(jwt: Seq<char>) -> Option<Seq<char>> {
    let parts = split(jwt, '.');
    if parts.len() > 1 {
        Some(parts[1])
    } else {
        None
    }
}

/// What base64 (URL-safe alphabet, no padding) decoding makes of a text;
/// `None` when it is not valid base64 of that kind.
pub uninterp spec fn base64url_decoded(text: Seq<char>) -> Option<Seq<u8>>;

/// `base64::engine::general_purpose::URL_SAFE_NO_PAD.decode`: the decoded
/// bytes are named, not spelled out.
#[verifier::external_body]
fn decode_base64url(text: &str) -> (r: Option<Vec<u8>>)
    ensures
        match r {
            Some(b) => base64url_decoded(text@) == Some(b@),
            None => base64url_decoded(text@) is None,
        },
{
    base64::engine::general_purpose::URL_SAFE_NO_PAD.decode(text).ok()
}

/// The `sub` claim of a decoded JSON payload, when it is a text.
pub open spec fn sub_claim(v: Json) -> Option<Seq<char>> {
    match member(v, "sub"@) {
        Some(s) => str_of(s),
        None => None,
    }
}

/// Read the `sub` claim of a JSON payload.
pub fn sub_claim_of(v: &Json) -> (r: Option<String>)
    ensures
        opt_text(r) == sub_claim(*v),
{
    match get_member(v, "sub") {
        Some(s) => match as_str(Some(s)) {
            Some(t) => Some(owned(t)),
            None => None,
        },
        None => None,
    }
}

/// The user a JWT names: the `sub` claim of its base64url-decoded JSON
/// payload.
pub open spec fn jwt_subject(jwt: Seq<char>) -> Option<Seq<char>> {
    match jwt_payload(jwt) {
        Some(p) => match base64url_decoded(p) {
            Some(bytes) => match parsed_bytes(bytes) {
                Some(v) => sub_claim(v),
                None => None,
            },
            None => None,
        },
        None => None,
    }
}

/// The payload segment of a JWT.
pub fn jwt_payload_of(jwt: &str) -> (r: Option<String>)
    ensures
        opt_text(r) == jwt_payload(jwt@),
{
    let parts = split_str(jwt, '.');
    if parts.len() > 1 {
        Some(parts[1].clone())
    } else {
        None
    }
}

/// The user a JWT names.
pub fn jwt_sub(jwt: &str) -> (r: Option<String>)
    ensures
        opt_text(r) == jwt_subject(jwt@),
{
    let payload = match jwt_payload_of(jwt) {
        Some(p) => p,
        None => {
            return None;
        },
    };
    let bytes = match decode_base64url(payload.as_str()) {
        Some(b) => b,
        None => {
            return None;
        },
    };
    match parse_bytes(bytes.as_slice()) {
        Some(v) => sub_claim_of(&v),
        None => None,
    }
}

// ── Cookies ─────────────────────────────────────────────────────────────────

/// The JWT a cookie attribute carries: `JWT=value` (name in any ASCII case,
/// spaces around the attribute ignored).
pub open spec fn cookie_jwt(part: Seq<char>) -> Option<Seq<char>> {
    let t = trim(part);
    match find(t, "="@) {
        Some(i) => if eq_ignore_ascii_case(t.take(i), "JWT"@) {
            Some(t.skip(i + 1))
        } else {
            None
        },
        None => None,
    }
}

/// The first JWT among cookie attributes.
pub open spec fn first_jwt(parts: Seq<Seq<char>>) -> Option<Seq<char>>
    decreases parts.len(),
{
    if parts.len() == 0 {
        None
    } else {
        match cookie_jwt(parts[0]) {
            Some(v) => Some(v),
            None => first_jwt(parts.drop_first()),
        }
    }
}

/// The first JWT among `Set-Cookie` headers (each split at `;`).
pub open spec fn jwt_in_headers(headers: Seq<Seq<char>>) -> Option<Seq<char>>
    decreases headers.len(),
{
    if headers.len() == 0 {
        None
    } else {
        match first_jwt(split(headers[0], ';')) {
            Some(v) => Some(v),
            None => jwt_in_headers(headers.drop_first()),
        }
    }
}

fn cookie_jwt_exec(part: &str) -> (r: Option<String>)
    ensures
        opt_text(r) == cookie_jwt(part@),
{
    let t = trim_str(part);
    let cs = chars_of(t.as_str());
    let eq = chars_of("=");
    proof {
        reveal_strlit("=");
    }
    match find_chars(&cs, &eq, 0) {
        Some(i) => {
            proof {
                lemma_find_from(cs@, eq@, 0);
            }
            assert(eq@.len() == 1);
            let n = cs.len();
            assert(i + 1 <= n);
            let name = string_of(&cs, 0, i);
            assert(name@ =~= t@.take(i as int));
            if eq_ignore_case(name.as_str(), "JWT") {
                let value = string_of(&cs, i + 1, cs.len());
                assert(value@ =~= t@.skip(i + 1));
                Some(value)
            } else {
                None
            }
        },
        None => None,
    }
}

/// The texts of a list of strings.
pub open spec fn texts_of(v: Seq<String>) -> Seq<Seq<char>> {
    v.map_values(|t: String| t@)
}

/// The JWT the `Set-Cookie` headers of a reply carry.
pub fn extract_jwt_from_cookies(headers: &[String]) -> (r: Option<String>)
    ensures
        opt_text(r) == jwt_in_headers(texts_of(headers@)),
{
    let ghost hv = texts_of(headers@);
    let mut i: usize = 0;
    assert(hv.skip(0) =~= hv);
    while i < headers.len()
        invariant
            hv == texts_of(headers@),
            i <= hv.len(),
            jwt_in_headers(hv) == jwt_in_headers(hv.skip(i as int)),
        decreases hv.len() - i,
    {
        assert(hv.skip(i as int).drop_first() =~= hv.skip(i + 1));
        assert(hv.skip(i as int)[0] == headers@[i as int]@);
        let parts = split_str(headers[i].as_str(), ';');
        let ghost pv = texts_of(parts@);
        assert(pv =~= split(headers@[i as int]@, ';'));
        let mut j: usize = 0;
        assert(pv.skip(0) =~= pv);
        while j < parts.len()
            invariant
                pv == texts_of(parts@),
                j <= pv.len(),
                first_jwt(pv) == first_jwt(pv.skip(j as int)),
                hv == texts_of(headers@),
                i < hv.len(),
                jwt_in_headers(hv) == jwt_in_headers(hv.skip(i as int)),
                pv == split(hv[i as int], ';'),
            decreases pv.len() - j,
        {
            assert(pv.skip(j as int).drop_first() =~= pv.skip(j + 1));
            assert(pv.skip(j as int)[0] == parts@[j as int]@);
            match cookie_jwt_exec(parts[j].as_str()) {
                Some(v) => {
                    return Some(v);
                },
                None => {},
            }
            j = j + 1;
        }
        assert(pv.skip(j as int) =~= Seq::<Seq<char>>::empty());
        i = i + 1;
    }
    None
}


// ── CSRF ────────────────────────────────────────────────────────────────────

/// A character that ends an unquoted attribute value.
pub open spec fn csrf_stop(c: char) -> bool {
    is_ws(c) || c == '>' || c == '/'
}

/// The position of the first character ending an unquoted value (the
/// length when there is none).
pub open spec fn stop_index(s: Seq<char>) -> int
    decreases s.len(),
{
    if s.len() == 0 {
        0
    } else if csrf_stop(s[0]) {
        0
    } else {
        1 + stop_index(s.skip(1))
    }
}

/// The CSRF token of the sign-in page: the `content=` value after
/// `name="csrf-token"`, quoted with `"` or `'`, or unquoted up to
/// whitespace, `>` or `/`.
pub open spec fn csrf_token_in(html: Seq<char>) -> Option<Seq<char>> {
    match find(html, "name=\"csrf-token\""@) {
        None => None,
        Some(pos) => {
            let after = html.skip(pos);
            match find(after, "content="@) {
                None => None,
                Some(cp) => {
                    let ac = after.skip(cp + 8);
                    if ac.len() == 0 {
                        None
                    } else if ac[0] == '"' || ac[0] == '\'' {
                        match find(ac.skip(1), seq![ac[0]]) {
                            Some(ve) => Some(ac.subrange(1, 1 + ve)),
                            None => None,
                        }
                    } else {
                        Some(ac.take(stop_index(ac)))
                    }
                },
            }
        },
    }
}

proof fn lemma_stop_index(s: Seq<char>)
    ensures
        0 <= stop_index(s) <= s.len(),
    decreases s.len(),
{
    if s.len() > 0 && !csrf_stop(s[0]) {
        lemma_stop_index(s.skip(1));
    }
}

/// Find `p` in `cs` from `from`, with what the answer means.
fn find_in(cs: &Vec<char>, p: &Vec<char>, from: usize) -> (r: Option<usize>)
    requires
        from <= cs@.len(),
    ensures
        match r {
            Some(j) => find(cs@.skip(from as int), p@) == Some(j - from) && from <= j && j + p@.len()
                <= cs@.len(),
            None => find(cs@.skip(from as int), p@) is None,
        },
{
    let r = find_chars(cs, p, from);
    proof {
        lemma_find_shift(cs@, p@, from as int, from as int);
        lemma_find_from(cs@, p@, from as int);
    }
    r
}

/// Searching a suffix is searching the whole from where the suffix starts.
proof fn lemma_find_shift(s: Seq<char>, p: Seq<char>, from: int, k: int)
    requires
        0 <= from <= k,
        from <= s.len(),
    ensures
        find_from(s.skip(from), p, k - from) == match find_from(s, p, k) {
            Some(j) => Some(j - from),
            None => None,
        },
    decreases s.len() - k,
{
    let t = s.skip(from);
    if k + p.len() > s.len() {
    } else {
        assert(t.subrange(k - from, k - from + p.len()) =~= s.subrange(k, k + p.len()));
        if k < s.len() {
            lemma_find_shift(s, p, from, k + 1);
        }
    }
}

/// The CSRF token of the sign-in page.
pub fn extract_csrf_from_html(html: &str) -> (r: Option<String>)
    ensures
        opt_text(r) == csrf_token_in(html@),
{
    let cs = chars_of(html);
    let marker = chars_of("name=\"csrf-token\"");
    let content = chars_of("content=");
    proof {
        reveal_strlit("content=");
        assert(cs@.skip(0) =~= cs@);
    }
    let pos = match find_in(&cs, &marker, 0) {
        Some(p) => p,
        None => {
            return None;
        },
    };
    let ghost after = cs@.skip(pos as int);
    let cp_abs = match find_in(&cs, &content, pos) {
        Some(c) => c,
        None => {
            return None;
        },
    };
    assert(content@.len() == 8);
    let total = cs.len();
    assert(cp_abs + 8 <= total);
    let start = cp_abs + 8;
    let ghost ac = cs@.skip(start as int);
    assert(after.skip(cp_abs - pos + 8) =~= ac);
    if start >= cs.len() {
        assert(ac.len() == 0);
        return None;
    }
    let q = cs[start];
    assert(ac[0] == q);
    if q == '"' || q == '\'' {
        let mut qs: Vec<char> = Vec::new();
        qs.push(q);
        assert(qs@ =~= seq![q]);
        assert(ac.skip(1) =~= cs@.skip(start + 1));
        match find_in(&cs, &qs, start + 1) {
            Some(e) => {
                let v = string_of(&cs, start + 1, e);
                assert(v@ =~= ac.subrange(1, 1 + (e - (start + 1))));
                Some(v)
            },
            None => None,
        }
    } else {
        let mut e = start;
        while e < cs.len() && !(is_ws_char(cs[e]) || cs[e] == '>' || cs[e] == '/')
            invariant
                start <= e <= cs@.len(),
                ac == cs@.skip(start as int),
                stop_index(ac) == (e - start) + stop_index(cs@.skip(e as int)),
            decreases cs@.len() - e,
        {
            assert(cs@.skip(e as int).skip(1) =~= cs@.skip(e + 1));
            e = e + 1;
        }
        proof {
            if e < cs@.len() {
                assert(cs@.skip(e as int)[0] == cs@[e as int]);
            }
        }
        let v = string_of(&cs, start, e);
        assert(v@ =~= ac.take(e - start));
        Some(v)
    }
}

/// The session cookie to send back: the first attribute (`name=value`) of
/// each `Set-Cookie` header, trimmed, joined with `; `.
pub open spec fn session_cookie(cookies: Seq<Seq<char>>) -> Seq<char> {
    join(cookies.map_values(|c: Seq<char>| trim(split(c, ';')[0])), "; "@)
}

/// The parts joined with a separator.
pub open spec fn join(parts: Seq<Seq<char>>, sep: Seq<char>) -> Seq<char>
    decreases parts.len(),
{
    if parts.len() == 0 {
        Seq::empty()
    } else if parts.len() == 1 {
        parts[0]
    } else {
        join(parts.drop_last(), sep) + sep + parts.last()
    }
}

/// The session cookie to send back.
pub fn session_cookie_of(cookies: &[String]) -> (r: String)
    ensures
        r@ == session_cookie(texts_of(cookies@)),
{
    let ghost firsts = texts_of(cookies@).map_values(|c: Seq<char>| trim(split(c, ';')[0]));
    let mut r = String::new();
    let mut i: usize = 0;
    assert(r@ =~= join(firsts.take(0), "; "@));
    while i < cookies.len()
        invariant
            firsts == texts_of(cookies@).map_values(|c: Seq<char>| trim(split(c, ';')[0])),
            i <= cookies@.len(),
            r@ == join(firsts.take(i as int), "; "@),
        decreases cookies@.len() - i,
    {
        let parts = split_str(cookies[i].as_str(), ';');
        proof {
            lemma_split_nonempty(cookies@[i as int]@, ';');
        }
        let first = trim_str(parts[0].as_str());
        assert(first@ == firsts[i as int]);
        assert(firsts.take(i + 1).drop_last() =~= firsts.take(i as int));
        if i > 0 {
            push_str(&mut r, "; ");
        }
        push_str(&mut r, first.as_str());
        proof {
            reveal_strlit("; ");
            if i == 0 {
                assert(r@ =~= join(firsts.take(1), "; "@));
            } else {
                assert(r@ =~= join(firsts.take(i + 1), "; "@));
            }
        }
        i = i + 1;
    }
    assert(firsts.take(i as int) =~= firsts);
    r
}

/// The CSRF token and the session cookie of the sign-in page.
#[derive(Debug)]
pub struct CsrfContext {
    pub csrf_token: String,
    pub session_cookie: String,
}

/// What fetching the sign-in page gave: its HTTP status, `Set-Cookie`
/// headers and text.
pub fn csrf_outcome(status: u16, cookies: &[String], body: &str) -> (r: Result<CsrfContext, MarketError>)
    ensures
        status != 200 ==> (r matches Err(e) && e@ == ("server_error"@, "CSRF 页面返回 HTTP "@ + decimal(
            status as nat,
        ))),
        status == 200 && csrf_token_in(body@) is None ==> (r matches Err(e) && e@ == (
            "server_error"@,
            "无法获取 CSRF token"@,
        )),
        status == 200 && csrf_token_in(body@) is Some ==> (r matches Ok(c) && c.csrf_token@
            == csrf_token_in(body@)->0 && c.session_cookie@ == session_cookie(texts_of(cookies@))),
{
    if status != 200 {
        let mut message = owned("CSRF 页面返回 HTTP ");
        push_decimal(&mut message, status as u64);
        return Err(MarketError { code: owned("server_error"), message });
    }
    let session = session_cookie_of(cookies);
    match extract_csrf_from_html(body) {
        Some(csrf_token) => Ok(CsrfContext { csrf_token, session_cookie: session }),
        None => Err(market_error("server_error", "无法获取 CSRF token")),
    }
}

// ── Tokens ──────────────────────────────────────────────────────────────────

/// The refusal of a session whose tokens are gone or were refused.
pub open spec fn expired_error() -> (Seq<char>, Seq<char>) {
    ("auth_expired"@, "登录已过期，请重新登录"@)
}

/// What the token refresh reply means: the new access token (the JWT its
/// cookies carry) on HTTP 200, else an error by status.
pub open spec fn refresh_result(status: u16, cookies: Seq<Seq<char>>) -> Result<Seq<char>, (Seq<char>, Seq<char>)> {
    if status == 200 {
        match jwt_in_headers(cookies) {
            Some(t) => Ok(t),
            None => Err(("server_error"@, "服务器响应异常"@)),
        }
    } else if status == 401 {
        Err(("auth_expired"@, "登录已过期"@))
    } else if status == 429 {
        Err(("rate_limited"@, "请求过于频繁"@))
    } else if status >= 500 {
        Err(("server_error"@, "服务暂时不可用"@))
    } else {
        Err(("unknown"@, "刷新失败 (HTTP "@ + decimal(status as nat) + ")"@))
    }
}

/// Read the token refresh reply.
pub fn refresh_outcome(status: u16, cookies: &[String]) -> (r: Result<String, MarketError>)
    ensures
        match refresh_result(status, texts_of(cookies@)) {
            Ok(t) => r matches Ok(s) && s@ == t,
            Err(e) => r matches Err(x) && x@ == e,
        },
{
    if status == 200 {
        match extract_jwt_from_cookies(cookies) {
            Some(t) => Ok(t),
            None => Err(market_error("server_error", "服务器响应异常")),
        }
    } else if status == 401 {
        Err(market_error("auth_expired", "登录已过期"))
    } else if status == 429 {
        Err(market_error("rate_limited", "请求过于频繁"))
    } else if status >= 500 {
        Err(market_error("server_error", "服务暂时不可用"))
    } else {
        let mut message = owned("刷新失败 (HTTP ");
        push_decimal(&mut message, status as u64);
        push_str(&mut message, ")");
        Err(MarketError { code: owned("unknown"), message })
    }
}

/// What to do for a request that needs a token.
#[derive(Debug)]
pub enum TokenStep {
    /// Use this `Authorization` value.
    Ready(String),
    /// Refresh with this refresh token first.
    Refresh(String),
    /// The session has no usable token.
    Expired(MarketError),
}

impl MarketAuthInner {
    /// The next step towards an `Authorization` value: the access token when
    /// there is one, else a refresh when there is a refresh token.
    pub fn token_step(&self) -> (r: TokenStep)
        ensures
            match self@.access_token {
                Some(t) => r matches TokenStep::Ready(b) && b@ == "Bearer "@ + t,
                None => match self@.refresh_token {
                    Some(rt) => r matches TokenStep::Refresh(x) && x@ == rt,
                    None => r matches TokenStep::Expired(e) && e@ == expired_error(),
                },
            },
    {
        match &self.access_token {
            Some(t) => {
                let mut b = owned("Bearer ");
                push_str(&mut b, t.as_str());
                TokenStep::Ready(b)
            },
            None => match &self.refresh_token {
                Some(rt) => TokenStep::Refresh(rt.clone()),
                None => TokenStep::Expired(market_error("auth_expired", "登录已过期，请重新登录")),
            },
        }
    }

    /// Take the result of a token refresh: a new access token is kept and
    /// its `Authorization` value returned; a failed refresh signs out.
    pub fn finish_refresh(&mut self, outcome: Result<String, MarketError>) -> (r: Result<String, MarketError>)
        ensures
            match outcome {
                Ok(t) => final(self)@ == (AuthView { access_token: Some(t@), ..old(self)@ }) && (r matches Ok(
                    b,
                ) && b@ == "Bearer "@ + t@),
                Err(_) => final(self)@ == signed_out(old(self)@) && (r matches Err(e) && e@
                    == expired_error()),
            },
    {
        match outcome {
            Ok(t) => {
                let mut b = owned("Bearer ");
                push_str(&mut b, t.as_str());
                self.access_token = Some(t);
                Ok(b)
            },
            Err(_) => {
                self.clear_login();
                Err(market_error("auth_expired", "登录已过期，请重新登录"))
            },
        }
    }
}

// ── Signing in ──────────────────────────────────────────────────────────────

/// Why the sign-in form is refused: no e-mail address (blank or without
/// `@`), or no password.
pub open spec fn signin_input_error(email: Seq<char>, password: Seq<char>) -> Option<(Seq<char>, Seq<char>)> {
    if trim(email).len() == 0 || !contains(email, "@"@) {
        Some(("invalid_input"@, "请输入有效的邮箱地址"@))
    } else if password.len() == 0 {
        Some(("invalid_input"@, "请输入密码"@))
    } else {
        None
    }
}

/// Check the sign-in form.
pub fn check_signin(email: &str, password: &str) -> (r: Result<(), MarketError>)
    ensures
        match signin_input_error(email@, password@) {
            Some(e) => r matches Err(x) && x@ == e,
            None => r is Ok,
        },
{
    let t = trim_str(email);
    if t.as_str().is_empty() || !str_contains(email, "@") {
        return Err(market_error("invalid_input", "请输入有效的邮箱地址"));
    }
    if password.is_empty() {
        return Err(market_error("invalid_input", "请输入密码"));
    }
    Ok(())
}


/// What a successful sign-in gave.
#[derive(Debug)]
pub struct SignedIn {
    pub access_token: String,
    pub ingame_name: String,
    pub avatar: Option<String>,
    pub reputation: Option<i32>,
}

/// A token in a sign-in reply's JSON.
pub open spec fn body_token(v: Json) -> Option<Seq<char>> {
    match str_of(index(v, "access_token"@)) {
        Some(t) => Some(t),
        None => match str_of(index2(v, "payload"@, "access_token"@)) {
            Some(t) => Some(t),
            None => match str_of(index(v, "token"@)) {
                Some(t) => Some(t),
                None => str_of(index2(v, "payload"@, "token"@)),
            },
        },
    }
}

/// The text value at `payload.user.<key>` of a parsed reply.
pub open spec fn user_field(parsed: Option<Json>, key: Seq<char>) -> Option<Seq<char>> {
    match parsed {
        Some(v) => str_of(index3(v, "payload"@, "user"@, key)),
        None => None,
    }
}

/// The access token of a successful sign-in reply: the JWT cookie, else a
/// token in the JSON body.
pub open spec fn signin_token(cookies: Seq<Seq<char>>, parsed: Option<Json>) -> Option<Seq<char>> {
    match jwt_in_headers(cookies) {
        Some(t) => Some(t),
        None => match parsed {
            Some(v) => body_token(v),
            None => None,
        },
    }
}

/// The user name of a successful sign-in: the token's subject, else the
/// body's `payload.user.ingame_name`.
pub open spec fn signin_name(cookies: Seq<Seq<char>>, parsed: Option<Json>) -> Option<Seq<char>> {
    let from_token = match signin_token(cookies, parsed) {
        Some(t) => jwt_subject(t),
        None => None,
    };
    match from_token {
        Some(n) => Some(n),
        None => user_field(parsed, "ingame_name"@),
    }
}

/// The reputation in a sign-in reply (cut to 32 bits).
pub open spec fn signin_reputation(parsed: Option<Json>) -> Option<i32> {
    match parsed {
        Some(v) => match i64_of(index3(v, "payload"@, "user"@, "reputation"@)) {
            Some(r) => Some(r as i32),
            None => None,
        },
        None => None,
    }
}

/// The text of serde_json's compact re-serialisation of a JSON text (`None`
/// when the text is not JSON).
pub uninterp spec fn compact_json(text: Seq<char>) -> Option<Seq<char>>;

/// `serde_json::from_str::<serde_json::Value>(text)` followed by
/// `Value::to_string`: the compact form of a JSON text, named, not spelled
/// out.
#[verifier::external_body]
fn compact_json_text(text: &str) -> (r: Option<String>)
    ensures
        match r {
            Some(s) => compact_json(text@) == Some(s@),
            None => compact_json(text@) is None,
        },
{
    serde_json::from_str::<serde_json::Value>(text).ok().map(|v| v.to_string())
}

/// What a validation error code says to the user.
pub open spec fn friendly_code(c: Seq<char>) -> Seq<char> {
    if c == "app.account.password_invalid"@ {
        "密码错误"@
    } else if c == "app.account.email_invalid"@ {
        "邮箱格式不正确"@
    } else if c == "app.account.email_not_found"@ {
        "该邮箱未注册"@
    } else {
        c
    }
}

/// The error codes of a validation error object: the texts of each member's
/// array, member by member.
pub open spec fn error_codes(members: Seq<(String, Json)>) -> Seq<Seq<char>>
    decreases members.len(),
{
    if members.len() == 0 {
        Seq::empty()
    } else {
        error_codes(members.drop_last()) + match array_of(members.last().1) {
            Some(items) => strings_in(items),
            None => Seq::empty(),
        }
    }
}

/// What a refused sign-in says: the friendly validation messages joined
/// with `；`, the error or message text, or the start of the reply.
pub open spec fn signin_hint(body: Seq<char>) -> Seq<char> {
    match parsed_text(body) {
        Some(v) => match index(v, "error"@) {
            Json::Object(m) => {
                let friendly = join(error_codes(m@).map_values(|c: Seq<char>| friendly_code(c)), "；"@);
                if friendly.len() > 0 {
                    friendly
                } else {
                    match compact_json(body) {
                        Some(t) => t,
                        None => Seq::empty(),
                    }
                }
            },
            _ => match str_of(index(v, "error"@)) {
                Some(t) => t,
                None => match str_of(index(v, "message"@)) {
                    Some(t) => t,
                    None => body,
                },
            },
        },
        None => first_n(body, 120),
    }
}

/// What the sign-in reply means, by status: the account on 200 or 302
/// (when a token and a name can be read), the kind of refusal otherwise.
pub open spec fn signin_result(status: u16, cookies: Seq<Seq<char>>, body: Seq<char>) -> Result<
    (Seq<char>, Seq<char>, Option<Seq<char>>, Option<i32>),
    (Seq<char>, Seq<char>),
> {
    let parsed = parsed_text(body);
    if status == 200 || status == 302 {
        match (signin_token(cookies, parsed), signin_name(cookies, parsed)) {
            (Some(t), Some(n)) => Ok((t, n, user_field(parsed, "avatar"@), signin_reputation(parsed))),
            _ => Err(("server_error"@, "服务器响应异常"@)),
        }
    } else if status == 401 {
        if contains(lowercase(body), "email"@) || contains(lowercase(body), "user"@) {
            Err(("email_not_found"@, "该邮箱未注册"@))
        } else {
            Err(("wrong_password"@, "密码错误"@))
        }
    } else if status == 429 {
        Err(("rate_limited"@, "请求过于频繁"@))
    } else if status >= 500 {
        Err(("server_error"@, "Warframe.Market 服务暂时不可用"@))
    } else {
        Err(("unknown"@, "登录失败："@ + signin_hint(body)))
    }
}

fn friendly_code_exec(c: &str) -> (r: String)
    ensures
        r@ == friendly_code(c@),
{
    if str_eq(c, "app.account.password_invalid") {
        owned("密码错误")
    } else if str_eq(c, "app.account.email_invalid") {
        owned("邮箱格式不正确")
    } else if str_eq(c, "app.account.email_not_found") {
        owned("该邮箱未注册")
    } else {
        owned(c)
    }
}

/// The friendly validation messages of an error object, joined.
fn friendly_messages(m: &Vec<(String, Json)>) -> (r: String)
    ensures
        r@ == join(error_codes(m@).map_values(|c: Seq<char>| friendly_code(c)), "；"@),
{
    let ghost f = |c: Seq<char>| friendly_code(c);
    let mut r = String::new();
    let mut empty = true;
    let mut i: usize = 0;
    proof {
        reveal_strlit("；");
        assert(error_codes(m@.take(0)).map_values(f) =~= Seq::<Seq<char>>::empty());
    }
    while i < m.len()
        invariant
            f == (|c: Seq<char>| friendly_code(c)),
            i <= m@.len(),
            empty == (error_codes(m@.take(i as int)).len() == 0),
            r@ == join(error_codes(m@.take(i as int)).map_values(f), "；"@),
        decreases m@.len() - i,
    {
        assert(m@.take(i + 1).drop_last() =~= m@.take(i as int));
        match as_array(Some(&m[i].1)) {
            Some(items) => {
                let mut k: usize = 0;
                let ghost base = error_codes(m@.take(i as int));
                assert(strings_in(items@.take(0)) =~= Seq::<Seq<char>>::empty());
                assert(base + strings_in(items@.take(0)) =~= base);
                while k < items.len()
                    invariant
                        f == (|c: Seq<char>| friendly_code(c)),
                        k <= items@.len(),
                        empty == ((base + strings_in(items@.take(k as int))).len() == 0),
                        r@ == join((base + strings_in(items@.take(k as int))).map_values(f), "；"@),
                    decreases items@.len() - k,
                {
                    assert(items@.take(k + 1).drop_last() =~= items@.take(k as int));
                    match &items[k] {
                        Json::Str(c) => {
                            let ghost prev = base + strings_in(items@.take(k as int));
                            let fc = friendly_code_exec(c.as_str());
                            if !empty {
                                push_str(&mut r, "；");
                            }
                            push_str(&mut r, fc.as_str());
                            empty = false;
                            proof {
                                let next = base + strings_in(items@.take(k + 1));
                                assert(next =~= prev.push(c@));
                                assert(next.map_values(f) =~= prev.map_values(f).push(friendly_code(c@)));
                                assert(next.map_values(f).drop_last() =~= prev.map_values(f));
                                if prev.len() == 0 {
                                    assert(r@ =~= join(next.map_values(f), "；"@));
                                } else {
                                    assert(r@ =~= join(next.map_values(f), "；"@));
                                }
                            }
                        },
                        _ => {
                            assert(base + strings_in(items@.take(k + 1)) =~= base + strings_in(items@.take(k as int)));
                        },
                    }
                    k = k + 1;
                }
                assert(items@.take(k as int) =~= items@);
            },
            None => {},
        }
        i = i + 1;
    }
    assert(m@.take(i as int) =~= m@);
    r
}

/// What a refused sign-in says.
fn signin_hint_exec(body: &str) -> (r: String)
    ensures
        r@ == signin_hint(body@),
{
    match parse_text(body) {
        Some(v) => {
            let err = at(Some(&v), "error");
            match err {
                Some(Json::Object(m)) => {
                    let friendly = friendly_messages(m);
                    if !friendly.as_str().is_empty() {
                        friendly
                    } else {
                        match compact_json_text(body) {
                            Some(t) => t,
                            None => String::new(),
                        }
                    }
                },
                _ => match as_str(err) {
                    Some(t) => owned(t),
                    None => match as_str(at(Some(&v), "message")) {
                        Some(t) => owned(t),
                        None => owned(body),
                    },
                },
            }
        },
        None => crate::orders::prefix_chars(body, 120),
    }
}

/// Read the sign-in reply: its HTTP status, `Set-Cookie` headers and text.
pub fn signin_outcome(status: u16, cookies: &[String], body: &str) -> (r: Result<SignedIn, MarketError>)
    ensures
        match signin_result(status, texts_of(cookies@), body@) {
            Ok((t, n, a, rep)) => r matches Ok(s) && s.access_token@ == t && s.ingame_name@ == n
                && opt_text(s.avatar) == a && s.reputation == rep,
            Err(e) => r matches Err(x) && x@ == e,
        },
{
    if status == 200 || status == 302 {
        let parsed = parse_text(body);
        let token = match extract_jwt_from_cookies(cookies) {
            Some(t) => Some(t),
            None => match &parsed {
                Some(v) => {
                    let p = Some(v);
                    match as_str(at(p, "access_token")) {
                        Some(t) => Some(owned(t)),
                        None => match as_str(at2(p, "payload", "access_token")) {
                            Some(t) => Some(owned(t)),
                            None => match as_str(at(p, "token")) {
                                Some(t) => Some(owned(t)),
                                None => match as_str(at2(p, "payload", "token")) {
                                    Some(t) => Some(owned(t)),
                                    None => None,
                                },
                            },
                        },
                    }
                },
                None => None,
            },
        };
        let from_token = match &token {
            Some(t) => jwt_sub(t.as_str()),
            None => None,
        };
        let name = match from_token {
            Some(n) => Some(n),
            None => match &parsed {
                Some(v) => match as_str(at3(Some(v), "payload", "user", "ingame_name")) {
                    Some(n) => Some(owned(n)),
                    None => None,
                },
                None => None,
            },
        };
        let avatar = match &parsed {
            Some(v) => match as_str(at3(Some(v), "payload", "user", "avatar")) {
                Some(a) => Some(owned(a)),
                None => None,
            },
            None => None,
        };
        let reputation = match &parsed {
            Some(v) => match as_i64(at3(Some(v), "payload", "user", "reputation")) {
                Some(x) => Some(x as i32),
                None => None,
            },
            None => None,
        };
        match (token, name) {
            (Some(access_token), Some(ingame_name)) => Ok(SignedIn { access_token, ingame_name, avatar, reputation }),
            _ => Err(market_error("server_error", "服务器响应异常")),
        }
    } else if status == 401 {
        let lower = to_lower(body);
        if str_contains(lower.as_str(), "email") || str_contains(lower.as_str(), "user") {
            Err(market_error("email_not_found", "该邮箱未注册"))
        } else {
            Err(market_error("wrong_password", "密码错误"))
        }
    } else if status == 429 {
        Err(market_error("rate_limited", "请求过于频繁"))
    } else if status >= 500 {
        Err(market_error("server_error", "Warframe.Market 服务暂时不可用"))
    } else {
        let mut message = owned("登录失败：");
        let hint = signin_hint_exec(body);
        push_str(&mut message, hint.as_str());
        Err(MarketError { code: owned("unknown"), message })
    }
}

impl MarketAuthInner {
    /// Keep the account of a successful sign-in and say what the panel
    /// shows.
    pub fn complete_signin(&mut self, s: SignedIn) -> (r: MarketAuthStatus)
        ensures
            final(self)@ == (AuthView {
                access_token: Some(s.access_token@),
                ingame_name: Some(s.ingame_name@),
                avatar: opt_text(s.avatar),
                reputation: s.reputation,
                logged_in: true,
                ..old(self)@
            }),
            r.logged_in,
            opt_text(r.ingame_name) == Some(s.ingame_name@),
            opt_text(r.avatar) == opt_text(s.avatar),
            r.reputation == s.reputation,
            opt_text(r.current_status) == old(self)@.current_status,
    {
        self.access_token = Some(s.access_token);
        self.ingame_name = Some(s.ingame_name);
        self.avatar = s.avatar;
        self.reputation = s.reputation;
        self.logged_in = true;
        self.status()
    }
}

// ── The status channel ──────────────────────────────────────────────────────

/// The status to ask for: one the market knows, else `online`.
pub open spec fn status_word(s: Seq<char>) -> Seq<char> {
    if s == "online"@ || s == "ingame"@ || s == "invisible"@ {
        s
    } else {
        "online"@
    }
}

/// The status to ask for.
pub fn status_payload(status: &str) -> (r: String)
    ensures
        r@ == status_word(status@),
{
    if str_eq(status, "online") || str_eq(status, "ingame") || str_eq(status, "invisible") {
        owned(status)
    } else {
        owned("online")
    }
}

/// The user status a channel message reports, if any: the payload status
/// of a status event, or the payload of a legacy user message.
pub open spec fn reported_status(v: Json) -> Option<Seq<char>> {
    let route = match str_of(index(v, "route"@)) {
        Some(r) => r,
        None => Seq::empty(),
    };
    if route == "@wfm|event/status/set"@ {
        str_of(index2(v, "payload"@, "status"@))
    } else if route == "@wfm|event/auth/signIn"@ || route == "@wfm|event/online/count"@ {
        None
    } else if str_of(index(v, "type"@)) == Some("@WS/USER"@) {
        str_of(index(v, "payload"@))
    } else {
        None
    }
}

/// The user status a channel message (text) reports.
pub fn message_status(text: &str) -> (r: Option<String>)
    ensures
        opt_text(r) == match parsed_text(text@) {
            Some(v) => reported_status(v),
            None => None,
        },
{
    let v = match parse_text(text) {
        Some(v) => v,
        None => {
            return None;
        },
    };
    let p = Some(&v);
    let route = match as_str(at(p, "route")) {
        Some(r) => r,
        None => "",
    };
    proof {
        reveal_strlit("");
    }
    let ghost spec_route = match str_of(index(v, "route"@)) {
        Some(r) => r,
        None => Seq::<char>::empty(),
    };
    assert(route@ == spec_route);
    if str_eq(route, "@wfm|event/status/set") {
        match as_str(at2(p, "payload", "status")) {
            Some(s) => Some(owned(s)),
            None => None,
        }
    } else if str_eq(route, "@wfm|event/auth/signIn") || str_eq(route, "@wfm|event/online/count") {
        None
    } else {
        let is_user = match as_str(at(p, "type")) {
            Some(t) => str_eq(t, "@WS/USER"),
            None => false,
        };
        assert(is_user == (str_of(index(v, "type"@)) == Some("@WS/USER"@)));
        if is_user {
            match as_str(at(p, "payload")) {
                Some(s) => Some(owned(s)),
                None => None,
            }
        } else {
            None
        }
    }
}

/// Whether a channel message is a status event (the first one after
/// connecting means the channel is in sync).
pub fn is_status_event(text: &str) -> (r: bool)
    ensures
        r == (parsed_text(text@) matches Some(v) && str_of(index(v, "route"@)) == Some(
            "@wfm|event/status/set"@,
        )),
{
    match parse_text(text) {
        Some(v) => match as_str(at(Some(&v), "route")) {
            Some(r) => str_eq(r, "@wfm|event/status/set"),
            None => false,
        },
        None => false,
    }
}

impl MarketAuthInner {
    /// Take a channel message: a reported status becomes the current one.
    pub fn apply_message(&mut self, text: &str) -> (r: Option<String>)
        ensures
            opt_text(r) == match parsed_text(text@) {
                Some(v) => reported_status(v),
                None => None,
            },
            final(self)@ == match opt_text(r) {
                Some(s) => AuthView { current_status: Some(s), ..old(self)@ },
                None => old(self)@,
            },
    {
        let r = message_status(text);
        match &r {
            Some(s) => {
                self.current_status = Some(s.clone());
            },
            None => {},
        }
        r
    }

    /// A status was sent on the channel.
    pub fn status_sent(&mut self, status: &str)
        ensures
            final(self)@ == (AuthView { current_status: Some(status@), ..old(self)@ }),
    {
        self.current_status = Some(owned(status));
    }

    /// The status to replay after connecting: the current one, else
    /// `online`.
    pub fn replay_status(&self) -> (r: String)
        ensures
            r@ == match self@.current_status {
                Some(s) => s,
                None => "online"@,
            },
    {
        match &self.current_status {
            Some(s) => s.clone(),
            None => owned("online"),
        }
    }
}

/// The keys and plain values of a message's top-level members.
pub open spec fn message_members(v: Json) -> Seq<(Seq<char>, FieldVal)> {
    match v {
        Json::Object(m) => m@.map_values(|p: (String, Json)| (p.0@, field_val(p.1))),
        _ => Seq::empty(),
    }
}

fn text_member(key: &str, value: &str) -> (r: (String, Json))
    ensures
        r.0@ == key@,
        r.1 matches Json::Str(s) && s@ == value@,
{
    (owned(key), Json::Str(owned(value)))
}

/// A channel command: `{"id", "payload": {<key>: <value>}, "route"}`.
pub open spec fn is_command(v: Json, id: Seq<char>, key: Seq<char>, value: Seq<char>, route: Seq<char>) -> bool {
    &&& v matches Json::Object(m) && m@.len() == 3
    &&& message_members(v)[0] == (("id"@, FieldVal::Text(id)))
    &&& message_members(v)[1].0 == "payload"@
    &&& message_members(v)[2] == (("route"@, FieldVal::Text(route)))
    &&& message_members(index(v, "payload"@)) == seq![(key, FieldVal::Text(value))]
}

fn command(id: &str, key: &str, value: &str, route: &str) -> (r: Json)
    ensures
        is_command(r, id@, key@, value@, route@),
        index(r, "payload"@) matches Json::Object(_),
{
    proof {
        reveal_strlit("id");
        reveal_strlit("payload");
        reveal_strlit("route");
    }
    let mut inner: Vec<(String, Json)> = Vec::new();
    inner.push(text_member(key, value));
    let payload = Json::Object(inner);
    let mut m: Vec<(String, Json)> = Vec::new();
    m.push(text_member("id", id));
    m.push((owned("payload"), payload));
    m.push(text_member("route", route));
    let ghost mv = m@;
    let r = Json::Object(m);
    assert(mv[0].0@ == "id"@);
    assert(mv[1].0@ == "payload"@);
    assert("id"@ != "payload"@);
    assert(mv.drop_first()[0] == mv[1]);
    assert(crate::json::lookup(mv.drop_first(), "payload"@) == mv[1].1);
    assert(crate::json::lookup(mv, "payload"@) == mv[1].1);
    assert(message_members(r)[0] == (("id"@, FieldVal::Text(id@))));
    assert(message_members(r)[2] == (("route"@, FieldVal::Text(route@))));
    assert(message_members(index(r, "payload"@)) =~= seq![(key@, FieldVal::Text(value@))]);
    r
}

/// The sign-in command of the status channel.
pub fn sign_in_command(jwt: &str) -> (r: Json)
    ensures
        is_command(r, "auth-1"@, "token"@, jwt@, "@wfm|cmd/auth/signIn"@),
{
    command("auth-1", "token", jwt, "@wfm|cmd/auth/signIn")
}

/// The set-status command of the status channel (`id` tells replays from
/// user requests).
pub fn set_status_command(status: &str, id: &str) -> (r: Json)
    ensures
        is_command(r, id@, "status"@, status@, "@wfm|cmd/status/set"@),
{
    command(id, "status", status, "@wfm|cmd/status/set")
}

/// The wait before reconnecting after `backoff` seconds: doubled, at most
/// thirty.
pub fn next_backoff(backoff: u64) -> (r: u64)
    requires
        backoff <= u64::MAX / 2,
    ensures
        r == if backoff * 2 < 30 {
            backoff * 2
        } else {
            30
        },
{
    let d = backoff * 2;
    if d < 30 {
        d
    } else {
        30
    }
}

// ── Proxies ─────────────────────────────────────────────────────────────────

/// The proxy address of the system proxy setting: its first `;` part
/// (`http=host:port;https=...`), after the last `=`, trimmed.
pub open spec fn proxy_address(raw: Seq<char>) -> Seq<char> {
    trim(split(split(raw, ';')[0], '=').last())
}

/// The proxy address of the system proxy setting.
pub fn proxy_address_of(raw: &str) -> (r: String)
    ensures
        r@ == proxy_address(raw@),
{
    let parts = split_str(raw, ';');
    proof {
        lemma_split_nonempty(raw@, ';');
    }
    let pieces = split_str(parts[0].as_str(), '=');
    proof {
        lemma_split_nonempty(parts@[0]@, '=');
    }
    let last = pieces.len() - 1;
    trim_str(pieces[last].as_str())
}

/// The local proxy ports tried when nothing else connects.
pub const FALLBACK_PROXIES: [&'static str; 3] = ["127.0.0.1:7890", "127.0.0.1:1080", "127.0.0.1:10808"];

/// The fallback proxies still to try: those other than the system proxy.
pub fn fallback_proxies(registry: &str) -> (r: Vec<String>)
    ensures
        texts_of(r@) == without(FALLBACK_PROXIES@.map_values(|p: &'static str| p@), registry@),
{
    let ghost all = FALLBACK_PROXIES@.map_values(|p: &'static str| p@);
    let mut r: Vec<String> = Vec::new();
    let mut i: usize = 0;
    assert(texts_of(r@) =~= without(all.take(0), registry@));
    while i < FALLBACK_PROXIES.len()
        invariant
            all == FALLBACK_PROXIES@.map_values(|p: &'static str| p@),
            i <= all.len(),
            texts_of(r@) == without(all.take(i as int), registry@),
        decreases all.len() - i,
    {
        let p = FALLBACK_PROXIES[i];
        assert(all.take(i + 1).drop_last() =~= all.take(i as int));
        assert(all.take(i + 1).last() == p@);
        if !str_eq(p, registry) {
            let ghost before = texts_of(r@);
            r.push(owned(p));
            assert(texts_of(r@) =~= before.push(p@));
        }
        i = i + 1;
    }
    assert(all.take(i as int) =~= all);
    r
}

/// Whether a proxy's reply to `CONNECT` accepted the tunnel.
pub fn proxy_accepted(response: &str) -> (r: bool)
    ensures
        r == contains(response@, "200"@),
{
    str_contains(response, "200")
}

// ── Device id ───────────────────────────────────────────────────────────────

/// The device id made from a hash: `voxalic-` and sixteen hex digits.
pub open spec fn device_id_text(h: u64) -> Seq<char> {
    "voxalic-"@ + crate::text::hex_digits(h as nat, 16)
}

/// The device id made from a hash.
pub fn device_id_of(h: u64) -> (r: String)
    ensures
        r@ == device_id_text(h),
{
    let mut r = owned("voxalic-");
    push_hex(&mut r, h, 16);
    r
}

/// `<u128 as Hash>::hash`: feeds the value to the hasher. Nothing is stated
/// of the bytes it writes (the standard library leaves them to the value's
/// `Hash` impl).
#[verifier::external_body]
fn hash_u128(v: u128, h: &mut std::collections::hash_map::DefaultHasher) {
    std::hash::Hash::hash(&v, h)
}

/// A fresh device id: `voxalic-` and sixteen hex digits of a hash of the
/// current time.
pub fn generate_device_id() -> (r: String)
    ensures
        exists|h: u64| r@ == device_id_text(h),
{
    let mut hasher = std::collections::hash_map::DefaultHasher::new();
    hash_u128(crate::clock::epoch_nanos(), &mut hasher);
    let h = hasher.finish();
    device_id_of(h)
}

} // verus!
