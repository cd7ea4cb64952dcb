//! The mission timer: a state machine driven by user commands and by the
//! in-game timer read from the screen. Times are milliseconds of a monotonic
//! clock, handed in by the caller.

use vstd::prelude::*;
use crate::text::{decimal, owned, pad2, parse_u32, push_decimal, push_pad2, push_str, str_to_u32};

verus! {

/// A user command for the timer.
#[derive(Debug, Clone)]
pub enum TimerCommand {
    Start,
    Stop,
    Reset,
    SetMode(String),
}

/// The timer's phase.
#[derive(Debug, Clone, Copy, PartialEq, Eq, Structural)]
pub enum TimerState {
    Idle,
    Running,
    Paused,
    Checkpoint,
}

/// What the timer shows (the integer and text part of the UI payload).
#[derive(Debug, Clone)]
pub struct TimerPayload {
    pub elapsed_secs: u32,
    pub elapsed_str: String,
    pub state: String,
    pub mode: String,
    pub life_support_level: String,
    pub status_text: String,
    pub ocr_raw: String,
    pub window_status: String,
}

/// The timer.
pub struct MissionTimerState {
    pub payload: TimerPayload,
    pub inner_state: TimerState,
    /// When the current run started, if running.
    pub start_ms: Option<u64>,
    /// Time accumulated by earlier runs.
    pub paused_ms: u64,
    pub last_valid_ocr: Option<String>,
    pub last_valid_ms: Option<u64>,
    pub consecutive_rejects: u32,
    /// Plausible readings in a row; a reading is taken from the third on.
    pub consecutive_valid: u32,
    pub last_mode: String,
}

/// The payload as plain values.
pub struct PayloadModel {
    pub elapsed_secs: u32,
    pub elapsed_str: Seq<char>,
    pub state: Seq<char>,
    pub mode: Seq<char>,
    pub life_support_level: Seq<char>,
    pub status_text: Seq<char>,
    pub ocr_raw: Seq<char>,
    pub window_status: Seq<char>,
}

/// The timer as plain values.
pub struct TimerModel {
    pub payload: PayloadModel,
    pub state: TimerState,
    pub start_ms: Option<u64>,
    pub paused_ms: u64,
    pub last_valid_ocr: Option<Seq<char>>,
    pub last_valid_ms: Option<u64>,
    pub rejects: u32,
    pub streak: u32,
    pub last_mode: Seq<char>,
}

impl TimerPayload {
    pub open spec fn model(self) -> PayloadModel {
        PayloadModel {
            elapsed_secs: self.elapsed_secs,
            elapsed_str: self.elapsed_str@,
            state: self.state@,
            mode: self.mode@,
            life_support_level: self.life_support_level@,
            status_text: self.status_text@,
            ocr_raw: self.ocr_raw@,
            window_status: self.window_status@,
        }
    }
}

impl MissionTimerState {
    pub open spec fn model(self) -> TimerModel {
        TimerModel {
            payload: self.payload.model(),
            state: self.inner_state,
            start_ms: self.start_ms,
            paused_ms: self.paused_ms,
            last_valid_ocr: match self.last_valid_ocr {
                Some(s) => Some(s@),
                None => None,
            },
            last_valid_ms: self.last_valid_ms,
            rejects: self.consecutive_rejects,
            streak: self.consecutive_valid,
            last_mode: self.last_mode@,
        }
    }
}

/// The payload of a timer that has not started.
pub open spec fn default_payload() -> PayloadModel {
    PayloadModel {
        elapsed_secs: 0,
        elapsed_str: "0:00"@,
        state: "idle"@,
        mode: "normal"@,
        life_support_level: "normal"@,
        status_text: "未启动"@,
        ocr_raw: "--:--"@,
        window_status: "未检测到游戏窗口"@,
    }
}

/// A fresh timer.
pub open spec fn initial_model() -> TimerModel {
    TimerModel {
        payload: default_payload(),
        state: TimerState::Idle,
        start_ms: None,
        paused_ms: 0,
        last_valid_ocr: None,
        last_valid_ms: None,
        rejects: 0,
        streak: 0,
        last_mode: "normal"@,
    }
}

/// The timer started over (after a reset, or when the readings show that the
/// game moved on): idle, nothing counted, nothing read; only the chosen mode
/// is kept.
pub open spec fn cleared(s: TimerModel) -> TimerModel {
    TimerModel {
        payload: default_payload(),
        state: TimerState::Idle,
        start_ms: None,
        paused_ms: 0,
        last_valid_ocr: None,
        last_valid_ms: None,
        rejects: 0,
        streak: 0,
        last_mode: s.last_mode,
    }
}

/// The time counted before the current run plus the current run up to
/// `now` (the counted time when a run ends at `now`).
pub open spec fn banked_ms(s: TimerModel, now: u64) -> u64 {
    match s.start_ms {
        Some(st) => s.paused_ms.saturating_add(since(now, st)),
        None => s.paused_ms,
    }
}

/// The name of a timer phase.
pub open spec fn state_name(s: TimerState) -> Seq<char> {
    match s {
        TimerState::Idle => "idle"@,
        TimerState::Running => "running"@,
        TimerState::Paused => "paused"@,
        TimerState::Checkpoint => "checkpoint"@,
    }
}

/// The name of a timer phase.
pub fn state_str(s: TimerState) -> (r: String)
    ensures
        r@ == state_name(s),
{
    match s {
        TimerState::Idle => owned("idle"),
        TimerState::Running => owned("running"),
        TimerState::Paused => owned("paused"),
        TimerState::Checkpoint => owned("checkpoint"),
    }
}

fn default_payload_exec() -> (p: TimerPayload)
    ensures
        p.model() == default_payload(),
{
    TimerPayload {
        elapsed_secs: 0,
        elapsed_str: owned("0:00"),
        state: owned("idle"),
        mode: owned("normal"),
        life_support_level: owned("normal"),
        status_text: owned("未启动"),
        ocr_raw: owned("--:--"),
        window_status: owned("未检测到游戏窗口"),
    }
}

/// Milliseconds from `since` to `now`, zero when `now` is earlier
/// (`Instant::elapsed`).
pub open spec fn since(now: u64, since: u64) -> u64 {
    if now >= since {
        (now - since) as u64
    } else {
        0
    }
}

/// The timer after a command at time `now`.
pub open spec fn after_command(s: TimerModel, cmd: TimerCommand, now: u64) -> TimerModel {
    let t = match cmd {
        TimerCommand::Start => if s.state == TimerState::Idle {
            TimerModel {
                state: TimerState::Running,
                start_ms: Some(now),
                paused_ms: 0,
                payload: PayloadModel { status_text: "运行中"@, ..s.payload },
                ..s
            }
        } else if s.state == TimerState::Paused || s.state == TimerState::Checkpoint {
            TimerModel {
                state: TimerState::Running,
                start_ms: if s.start_ms is None {
                    Some(now)
                } else {
                    s.start_ms
                },
                payload: PayloadModel { status_text: "运行中"@, ..s.payload },
                ..s
            }
        } else {
            s
        },
        TimerCommand::Stop => if s.state == TimerState::Running || s.state == TimerState::Checkpoint {
            TimerModel {
                state: TimerState::Paused,
                paused_ms: banked_ms(s, now),
                start_ms: None,
                payload: PayloadModel { status_text: "已暂停"@, ..s.payload },
                ..s
            }
        } else {
            s
        },
        TimerCommand::Reset => cleared(s),
        TimerCommand::SetMode(m) => TimerModel {
            last_mode: m@,
            payload: PayloadModel { mode: m@, ..s.payload },
            ..s
        },
    };
    TimerModel { payload: PayloadModel { state: state_name(t.state), ..t.payload }, ..t }
}

/// Milliseconds the timer has counted at `now`: the earlier runs plus, while
/// running, the current one.
pub open spec fn elapsed_ms(s: TimerModel, now: u64) -> u64 {
    match s.start_ms {
        Some(st) => if s.state == TimerState::Running {
            since(now, st).saturating_add(s.paused_ms)
        } else {
            s.paused_ms
        },
        None => s.paused_ms,
    }
}

/// The timer after refreshing its shown elapsed time at `now` (`m:ss`).
pub open spec fn after_update(s: TimerModel, now: u64) -> TimerModel {
    let secs = (elapsed_ms(s, now) / 1000) as u32;
    TimerModel {
        payload: PayloadModel {
            elapsed_secs: secs,
            elapsed_str: decimal((secs / 60) as nat) + ":"@ + pad2((secs % 60) as nat),
            ..s.payload
        },
        ..s
    }
}

/// The text split at its only `:`, when it has exactly one.
pub open spec fn colon_split(s: Seq<char>) -> Option<(Seq<char>, Seq<char>)> {
    if exists|p: int|
        0 <= p < s.len() && s[p] == ':' && forall|q: int| 0 <= q < s.len() && q != p ==> s[q] != ':' {
        let p = choose|p: int|
            0 <= p < s.len() && s[p] == ':' && forall|q: int| 0 <= q < s.len() && q != p ==> s[q] != ':';
        Some((s.take(p), s.skip(p + 1)))
    } else {
        None
    }
}

/// `M:SS` in seconds: both parts parsed as `u32` (0 when not a number),
/// `m * 60 + s` with wrapping arithmetic; 0 unless there is exactly one `:`.
pub open spec fn time_secs(s: Seq<char>) -> u32 {
    match colon_split(s) {
        Some((a, b)) => {
            let m: u32 = match parse_u32(a) {
                Some(v) => v as u32,
                None => 0,
            };
            let sec: u32 = match parse_u32(b) {
                Some(v) => v as u32,
                None => 0,
            };
            m.wrapping_mul(60).wrapping_add(sec)
        },
        None => 0,
    }
}

/// Parse a `M:SS` reading into seconds.
pub fn parse_time_to_secs(s: &str) -> (r: u32)
    ensures
        r == time_secs(s@),
{
    let cs = crate::text::chars_of(s);
    let mut count: usize = 0;
    let mut pos: usize = 0;
    let mut i: usize = 0;
    while i < cs.len()
        invariant
            cs@ == s@,
            i <= cs@.len(),
            count <= i,
            count == 0 ==> forall|q: int| 0 <= q < i ==> cs@[q] != ':',
            count >= 1 ==> pos < i && cs@[pos as int] == ':',
            count == 1 ==> forall|q: int| 0 <= q < i && q != pos ==> cs@[q] != ':',
            count >= 2 ==> exists|q: int| 0 <= q < i && q != pos && cs@[q] == ':',
        decreases cs@.len() - i,
    {
        if cs[i] == ':' {
            if count == 0 {
                pos = i;
            }
            count = count + 1;
        }
        i = i + 1;
    }
    if count != 1 {
        proof {
            if exists|p: int|
                0 <= p < s@.len() && s@[p] == ':' && forall|q: int| 0 <= q < s@.len() && q != p ==> s@[q] != ':' {
                let p = choose|p: int|
                    0 <= p < s@.len() && s@[p] == ':' && forall|q: int|
                        0 <= q < s@.len() && q != p ==> s@[q] != ':';
                if count >= 2 {
                    let q = choose|q: int| 0 <= q < cs@.len() && q != pos && cs@[q] == ':';
                    assert(q == p);
                    assert(pos as int == p);
                }
            }
        }
        return 0;
    }
    proof {
        let p = choose|p: int|
            0 <= p < s@.len() && s@[p] == ':' && forall|q: int| 0 <= q < s@.len() && q != p ==> s@[q] != ':';
        assert(p == pos);
    }
    let a = crate::text::string_of(&cs, 0, pos);
    let b = crate::text::string_of(&cs, pos + 1, cs.len());
    assert(a@ =~= s@.take(pos as int));
    assert(b@ =~= s@.skip(pos + 1));
    let m: u32 = match str_to_u32(a.as_str()) {
        Some(v) => v,
        None => 0,
    };
    let sec: u32 = match str_to_u32(b.as_str()) {
        Some(v) => v,
        None => 0,
    };
    m.wrapping_mul(60).wrapping_add(sec)
}

/// Whether a new reading is plausible: compared with the last accepted
/// reading, the on-screen advance exceeds the wall-clock advance by between
/// −10 s and +30 s; without one, the reading is within 60 s of the timer's
/// own count.
pub open spec fn reading_valid(s: TimerModel, reading: Seq<char>, now: u64) -> bool {
    let ocr = time_secs(reading) as int;
    match (s.last_valid_ocr, s.last_valid_ms) {
        (Some(last), Some(at)) => {
            let wall = (since(now, at) / 1000) as i64 as int;
            let d = ocr - time_secs(last) as int - wall;
            -10 <= d <= 30
        },
        _ => {
            let d = ocr - s.payload.elapsed_secs as int;
            -60 <= d <= 60
        },
    }
}

/// The timer after a screen reading at `now`. Readings count only while
/// running.
/// - The last accepted reading seen again more than 30 s after it was taken
///   means the game's clock stopped: the timer enters the checkpoint, its
///   count held there.
/// - A plausible reading resets the reject count and extends the run of
///   plausible readings; from the third in a row on, a new value becomes the
///   last accepted reading.
/// - The last accepted reading seen again within 30 s changes nothing.
/// - Any other reading is a reject and ends the run of plausible readings;
///   the third reject in a row starts the timer over.
pub open spec fn after_reading(s: TimerModel, reading: Option<Seq<char>>, now: u64) -> TimerModel {
    if s.state != TimerState::Running || reading is None {
        s
    } else {
        let r = reading->0;
        let same = match s.last_valid_ocr {
            Some(l) => r == l,
            None => false,
        };
        let held = match s.last_valid_ms {
            Some(at) => since(now, at),
            None => 0,
        };
        if same && held / 1000 > 30 {
            TimerModel {
                state: TimerState::Checkpoint,
                start_ms: None,
                paused_ms: banked_ms(s, now),
                rejects: 0,
                streak: 0,
                payload: PayloadModel {
                    state: "checkpoint"@,
                    status_text: "5分钟截点 — 请切回游戏"@,
                    ..s.payload
                },
                ..s
            }
        } else if reading_valid(s, r, now) {
            let n = s.streak.saturating_add(1);
            if same || n < 3 {
                TimerModel { rejects: 0, streak: n, ..s }
            } else {
                TimerModel { rejects: 0, streak: n, last_valid_ocr: Some(r), last_valid_ms: Some(now), ..s }
            }
        } else if same {
            s
        } else {
            let k = s.rejects.wrapping_add(1);
            if k >= 3 {
                cleared(s)
            } else {
                TimerModel { rejects: k, streak: 0, ..s }
            }
        }
    }
}

fn elapsed_since(now: u64, at: u64) -> (r: u64)
    ensures
        r == since(now, at),
{
    if now >= at {
        now - at
    } else {
        0
    }
}

impl MissionTimerState {
    /// A fresh, idle timer.
    pub fn new() -> (r: MissionTimerState)
        ensures
            r.model() == initial_model(),
    {
        MissionTimerState {
            payload: default_payload_exec(),
            inner_state: TimerState::Idle,
            start_ms: None,
            paused_ms: 0,
            last_valid_ocr: None,
            last_valid_ms: None,
            consecutive_rejects: 0,
            consecutive_valid: 0,
            last_mode: owned("normal"),
        }
    }

    /// Start over, keeping the chosen mode.
    fn clear(&mut self)
        ensures
            final(self).model() == cleared(old(self).model()),
    {
        self.inner_state = TimerState::Idle;
        self.start_ms = None;
        self.paused_ms = 0;
        self.last_valid_ocr = None;
        self.last_valid_ms = None;
        self.consecutive_rejects = 0;
        self.consecutive_valid = 0;
        self.payload = default_payload_exec();
        assert(self.model() =~~= cleared(old(self).model()));
    }

    /// End the current run at `now`, keeping its time.
    fn bank(&mut self, now: u64)
        ensures
            final(self).model() == (TimerModel {
                paused_ms: banked_ms(old(self).model(), now),
                start_ms: None,
                ..old(self).model()
            }),
    {
        if let Some(start) = self.start_ms {
            self.paused_ms = self.paused_ms.saturating_add(elapsed_since(now, start));
        }
        self.start_ms = None;
        assert(self.model() =~~= (TimerModel {
            paused_ms: banked_ms(old(self).model(), now),
            start_ms: None,
            ..old(self).model()
        }));
    }

    /// Apply a user command at time `now`.
    pub fn handle_command(&mut self, cmd: &TimerCommand, now: u64)
        ensures
            final(self).model() == after_command(old(self).model(), *cmd, now),
    {
        match cmd {
            TimerCommand::Start => {
                if self.inner_state == TimerState::Idle {
                    self.inner_state = TimerState::Running;
                    self.start_ms = Some(now);
                    self.paused_ms = 0;
                    self.payload.status_text = owned("运行中");
                } else if self.inner_state == TimerState::Paused || self.inner_state == TimerState::Checkpoint {
                    self.inner_state = TimerState::Running;
                    if self.start_ms.is_none() {
                        self.start_ms = Some(now);
                    }
                    self.payload.status_text = owned("运行中");
                }
            },
            TimerCommand::Stop => {
                if self.inner_state == TimerState::Running || self.inner_state == TimerState::Checkpoint {
                    self.bank(now);
                    self.inner_state = TimerState::Paused;
                    self.payload.status_text = owned("已暂停");
                }
            },
            TimerCommand::Reset => {
                self.clear();
            },
            TimerCommand::SetMode(mode) => {
                self.last_mode = mode.clone();
                self.payload.mode = mode.clone();
            },
        }
        self.payload.state = state_str(self.inner_state);
        assert(self.model() =~~= after_command(old(self).model(), *cmd, now));
    }

    /// Refresh the shown elapsed time at `now`.
    pub fn update_elapsed(&mut self, now: u64)
        ensures
            final(self).model() == after_update(old(self).model(), now),
    {
        let elapsed = match self.start_ms {
            Some(start) => if self.inner_state == TimerState::Running {
                elapsed_since(now, start).saturating_add(self.paused_ms)
            } else {
                self.paused_ms
            },
            None => self.paused_ms,
        };
        let secs = (elapsed / 1000) as u32;
        self.payload.elapsed_secs = secs;
        let mut text = String::new();
        push_decimal(&mut text, (secs / 60) as u64);
        push_str(&mut text, ":");
        push_pad2(&mut text, (secs % 60) as u64);
        self.payload.elapsed_str = text;
        assert(self.model() =~~= after_update(old(self).model(), now));
    }

    /// Take a screen reading (`None` when nothing was recognised) at `now`.
    pub fn apply_ocr(&mut self, ocr_result: Option<String>, now: u64)
        ensures
            final(self).model() == after_reading(
                old(self).model(),
                match ocr_result {
                    Some(r) => Some(r@),
                    None => None,
                },
                now,
            ),
    {
        if self.inner_state != TimerState::Running {
            return ;
        }
        let result = match ocr_result {
            Some(r) => r,
            None => {
                return ;
            },
        };
        let same = match &self.last_valid_ocr {
            Some(l) => crate::text::str_eq(result.as_str(), l.as_str()),
            None => false,
        };
        let held = match self.last_valid_ms {
            Some(at) => elapsed_since(now, at),
            None => 0,
        };
        if same && held / 1000 > 30 {
            self.bank(now);
            self.inner_state = TimerState::Checkpoint;
            self.consecutive_rejects = 0;
            self.consecutive_valid = 0;
            self.payload.state = owned("checkpoint");
            self.payload.status_text = owned("5分钟截点 — 请切回游戏");
            assert(self.model() =~~= after_reading(old(self).model(), Some(result@), now));
            return ;
        }
        let ocr_secs = parse_time_to_secs(result.as_str());
        let valid = match (&self.last_valid_ocr, self.last_valid_ms) {
            (Some(last_ocr), Some(last_at)) => {
                let last_secs = parse_time_to_secs(last_ocr.as_str());
                let wall_delta = (elapsed_since(now, last_at) / 1000) as i64;
                let ocr_delta = ocr_secs as i64 - last_secs as i64;
                let d = ocr_delta - wall_delta;
                -10 <= d && d <= 30
            },
            _ => {
                let d = ocr_secs as i64 - self.payload.elapsed_secs as i64;
                -60 <= d && d <= 60
            },
        };
        if valid {
            let n = self.consecutive_valid.saturating_add(1);
            self.consecutive_rejects = 0;
            self.consecutive_valid = n;
            if !same && n >= 3 {
                self.last_valid_ocr = Some(result);
                self.last_valid_ms = Some(now);
            }
        } else if !same {
            let k = self.consecutive_rejects.wrapping_add(1);
            if k >= 3 {
                self.clear();
            } else {
                self.consecutive_rejects = k;
                self.consecutive_valid = 0;
            }
        }
    }
}

// ── Laws ─────────────────────────────────────────────────────────────────────

/// A reset brings every timer back to the idle, zeroed state (the chosen
/// mode aside).
pub proof fn lemma_reset_clears(s: TimerModel, now: u64)
    ensures
        ({
            let t = after_command(s, TimerCommand::Reset, now);
            &&& t.state == TimerState::Idle
            &&& t.start_ms is None
            &&& t.paused_ms == 0
            &&& t.rejects == 0
            &&& t.last_valid_ocr is None
            &&& t.last_valid_ms is None
            &&& t.payload == default_payload()
        }),
{
}

/// A fresh timer started at `t0` and stopped at `t1` holds the run's length
/// for as long as it stays paused; resumed at `t2`, it goes on from there:
/// at `t3` it has counted both runs.
pub proof fn lemma_stop_then_start(t0: u64, t1: u64, t2: u64, t3: u64)
    requires
        t0 <= t1 <= t2 <= t3,
    ensures
        ({
            let s1 = after_command(initial_model(), TimerCommand::Start, t0);
            let s2 = after_command(s1, TimerCommand::Stop, t1);
            let s3 = after_command(s2, TimerCommand::Start, t2);
            &&& s2.state == TimerState::Paused
            &&& elapsed_ms(s2, t3) == t1 - t0
            &&& after_update(s2, t3).payload.elapsed_secs == ((t1 - t0) / 1000) as u32
            &&& s3.state == TimerState::Running
            &&& elapsed_ms(s3, t3) == (t1 - t0) + (t3 - t2)
        }),
{
    let s1 = after_command(initial_model(), TimerCommand::Start, t0);
    let s2 = after_command(s1, TimerCommand::Stop, t1);
    assert(s1.start_ms == Some(t0) && s1.paused_ms == 0);
    assert(s2.paused_ms == t1 - t0);
}

/// Resuming a paused timer (or one held at a checkpoint) continues its
/// count: from then on it never shows less than it held.
pub proof fn lemma_resume_continues(s: TimerModel, t: u64, later: u64)
    requires
        s.state == TimerState::Paused || s.state == TimerState::Checkpoint,
        s.start_ms is None,
        t <= later,
    ensures
        after_command(s, TimerCommand::Start, t).state == TimerState::Running,
        elapsed_ms(after_command(s, TimerCommand::Start, t), later) >= elapsed_ms(s, t),
{
}

/// While the timer is not running, the counted time does not move.
pub proof fn lemma_frozen_unless_running(s: TimerModel, a: u64, b: u64)
    requires
        s.state != TimerState::Running,
    ensures
        elapsed_ms(s, a) == elapsed_ms(s, b),
{
}

/// While running, the counted time only grows with the clock.
pub proof fn lemma_running_monotone(s: TimerModel, a: u64, b: u64)
    requires
        s.state == TimerState::Running,
        a <= b,
    ensures
        elapsed_ms(s, a) <= elapsed_ms(s, b),
{
}

/// A reading taken while the timer is not running changes nothing.
pub proof fn lemma_reading_ignored_unless_running(s: TimerModel, r: Option<Seq<char>>, now: u64)
    requires
        s.state != TimerState::Running,
    ensures
        after_reading(s, r, now) == s,
{
}


/// A timer command from the UI: `set_mode` (mode `normal` when none is
/// given), `start`, `stop` or `reset`.
pub open spec fn command_of(command: Seq<char>, mode: Option<Seq<char>>) -> Option<TimerCommandView> {
    if command == "set_mode"@ {
        Some(TimerCommandView::SetMode(match mode {
            Some(m) => m,
            None => "normal"@,
        }))
    } else if command == "start"@ {
        Some(TimerCommandView::Start)
    } else if command == "stop"@ {
        Some(TimerCommandView::Stop)
    } else if command == "reset"@ {
        Some(TimerCommandView::Reset)
    } else {
        None
    }
}

/// A timer command as plain values.
pub enum TimerCommandView {
    Start,
    Stop,
    Reset,
    SetMode(Seq<char>),
}

impl View for TimerCommand {
    type V = TimerCommandView;

    open spec fn view(&self) -> TimerCommandView {
        match self {
            TimerCommand::Start => TimerCommandView::Start,
            TimerCommand::Stop => TimerCommandView::Stop,
            TimerCommand::Reset => TimerCommandView::Reset,
            TimerCommand::SetMode(m) => TimerCommandView::SetMode(m@),
        }
    }
}

/// Read a timer command from the UI; an unknown one is refused with
/// `Unknown command: ` and its name.
pub fn parse_timer_command(command: &str, mode: Option<String>) -> (r: Result<TimerCommand, String>)
    ensures
        match command_of(
            command@,
            match mode {
                Some(m) => Some(m@),
                None => None,
            },
        ) {
            Some(c) => r matches Ok(t) && t@ == c,
            None => r matches Err(e) && e@ == "Unknown command: "@ + command@,
        },
{
    if crate::text::str_eq(command, "set_mode") {
        let m = match mode {
            Some(m) => m,
            None => owned("normal"),
        };
        Ok(TimerCommand::SetMode(m))
    } else if crate::text::str_eq(command, "start") {
        Ok(TimerCommand::Start)
    } else if crate::text::str_eq(command, "stop") {
        Ok(TimerCommand::Stop)
    } else if crate::text::str_eq(command, "reset") {
        Ok(TimerCommand::Reset)
    } else {
        let mut e = owned("Unknown command: ");
        push_str(&mut e, command);
        Err(e)
    }
}


/// Decimal digits (each below ten) as text.
pub open spec fn digits_text(ds: Seq<u8>) -> Seq<char> {
    ds.map_values(|d: u8| crate::text::digit_char(d as nat))
}

/// The timer reading of the digits recognised on screen, left to right: one
/// or two minute digits, then two second digits (`M:SS` or `MM:SS`); none
/// for any other number of digits or when the seconds reach 60.
pub open spec fn reading_of(ds: Seq<u8>) -> Option<Seq<char>> {
    let n = ds.len();
    if n < 3 || n > 4 {
        None
    } else if ds[n - 2] * 10 + ds[n - 1] >= 60 {
        None
    } else {
        Some(digits_text(ds.take(n - 2)) + ":"@ + digits_text(ds.skip(n - 2)))
    }
}

/// The number written by decimal digits (each below ten), most significant
/// first.
pub open spec fn digits_num(ds: Seq<u8>) -> nat
    decreases ds.len(),
{
    if ds.len() == 0 {
        0
    } else {
        digits_num(ds.drop_last()) * 10 + ds.last() as nat
    }
}

proof fn lemma_digits_text_value(ds: Seq<u8>)
    requires
        forall|i: int| 0 <= i < ds.len() ==> ds[i] < 10,
    ensures
        digits_text(ds).len() == ds.len(),
        crate::text::all_digits(digits_text(ds)),
        crate::text::digits_value(digits_text(ds)) == digits_num(ds),
        forall|i: int| 0 <= i < ds.len() ==> digits_text(ds)[i] != ':',
    decreases ds.len(),
{
    if ds.len() > 0 {
        lemma_digits_text_value(ds.drop_last());
        assert(digits_text(ds).drop_last() =~= digits_text(ds.drop_last()));
    }
}

proof fn lemma_colon_split(a: Seq<char>, b: Seq<char>)
    requires
        forall|i: int| 0 <= i < a.len() ==> a[i] != ':',
        forall|i: int| 0 <= i < b.len() ==> b[i] != ':',
    ensures
        colon_split(a + ":"@ + b) == Some((a, b)),
{
    reveal_strlit(":");
    let s = a + ":"@ + b;
    let p = a.len() as int;
    assert(s[p] == ':');
    assert forall|q: int| 0 <= q < s.len() && q != p implies s[q] != ':' by {
        if q < p {
            assert(s[q] == a[q]);
        } else {
            assert(s[q] == b[q - p - 1]);
        }
    }
    let c = choose|c: int|
        0 <= c < s.len() && s[c] == ':' && forall|q: int| 0 <= q < s.len() && q != c ==> s[q] != ':';
    assert(c == p);
    assert(s.take(p) =~= a);
    assert(s.skip(p + 1) =~= b);
}

/// A reading made from the digits on screen parses back to the time they
/// show: the minute digits times sixty plus the two second digits, which
/// are below sixty.
pub proof fn lemma_reading_round_trip(ds: Seq<u8>)
    requires
        forall|i: int| 0 <= i < ds.len() ==> ds[i] < 10,
        reading_of(ds) is Some,
    ensures
        digits_num(ds.skip(ds.len() - 2)) < 60,
        time_secs(reading_of(ds)->0) == digits_num(ds.take(ds.len() - 2)) * 60 + digits_num(ds.skip(ds.len() - 2)),
{
    let n = ds.len() as int;
    let mins = ds.take(n - 2);
    let secs = ds.skip(n - 2);
    lemma_digits_text_value(mins);
    lemma_digits_text_value(secs);
    lemma_colon_split(digits_text(mins), digits_text(secs));
    assert(secs.drop_last() =~= seq![ds[n - 2]]);
    assert(seq![ds[n - 2]].drop_last() =~= Seq::<u8>::empty());
    assert(digits_num(Seq::<u8>::empty()) == 0);
    assert(digits_num(seq![ds[n - 2]]) == ds[n - 2]);
    assert(secs.last() == ds[n - 1]);
    assert(digits_num(secs) == ds[n - 2] * 10 + ds[n - 1]);
    let a = digits_text(mins);
    let b = digits_text(secs);
    assert(a.len() > 0 && b.len() > 0);
    assert(a[0] != '+' && a[0] != '-');
    assert(b[0] != '+' && b[0] != '-');
    assert(digits_num(mins) < 100) by {
        assert(digits_num(Seq::<u8>::empty()) == 0);
        if n == 4 {
            assert(mins.drop_last() =~= seq![ds[0]]);
            assert(seq![ds[0]].drop_last() =~= Seq::<u8>::empty());
            assert(digits_num(seq![ds[0]]) == ds[0]);
            assert(mins.last() == ds[1]);
        } else {
            assert(mins.drop_last() =~= Seq::<u8>::empty());
            assert(mins.last() == ds[0]);
        }
    }
    assert(crate::text::parse_u32(a) == Some(digits_num(mins) as int));
    assert(crate::text::parse_u32(b) == Some(digits_num(secs) as int));
}

/// Turn the recognised digits into a timer reading.
pub fn time_reading(digits: &[u8]) -> (r: Option<String>)
    requires
        forall|i: int| 0 <= i < digits@.len() ==> digits@[i] < 10,
    ensures
        match reading_of(digits@) {
            Some(t) => r matches Some(s) && s@ == t,
            None => r is None,
        },
{
    let n = digits.len();
    if n < 3 || n > 4 {
        return None;
    }
    let sec = digits[n - 2] * 10 + digits[n - 1];
    if sec >= 60 {
        return None;
    }
    let mut out = String::new();
    proof {
        reveal_strlit("");
    }
    let mut i: usize = 0;
    while i < n
        invariant
            n == digits@.len(),
            n >= 3,
            i <= n,
            forall|k: int| 0 <= k < digits@.len() ==> digits@[k] < 10,
            out@ == if i <= n - 2 {
                digits_text(digits@.take(i as int))
            } else {
                digits_text(digits@.take(n - 2)) + ":"@ + digits_text(digits@.subrange(n - 2, i as int))
            },
        decreases n - i,
    {
        if i == n - 2 {
            crate::text::push_char(&mut out, ':');
        }
        let d = digits[i];
        let c = ((d + 48u8) as char);
        crate::text::push_char(&mut out, c);
        proof {
            reveal_strlit(":");
            if i < n - 2 {
                assert(digits_text(digits@.take(i + 1)) =~= digits_text(digits@.take(i as int)).push(c));
            } else if i == n - 2 {
                assert(digits_text(digits@.take(n - 2)) =~= digits_text(digits@.take(i as int)));
                assert(digits_text(digits@.subrange(n - 2, i + 1)) =~= seq![c]);
            } else {
                assert(digits_text(digits@.subrange(n - 2, i + 1)) =~= digits_text(
                    digits@.subrange(n - 2, i as int),
                ).push(c));
            }
        }
        i = i + 1;
    }
    proof {
        assert(digits@.subrange(n - 2, n as int) =~= digits@.skip(n - 2));
    }
    Some(out)
}

/// The game's clock standing still is noticed: while running, the last
/// accepted reading seen again more than 30 s after it was taken puts the
/// timer at the checkpoint, its count held at what it had counted.
pub proof fn lemma_frozen_reading_checkpoints(s: TimerModel, last: Seq<char>, at: u64, now: u64)
    requires
        s.state == TimerState::Running,
        s.last_valid_ocr == Some(last),
        s.last_valid_ms == Some(at),
        since(now, at) / 1000 > 30,
    ensures
        after_reading(s, Some(last), now).state == TimerState::Checkpoint,
        elapsed_ms(after_reading(s, Some(last), now), now) == banked_ms(s, now),
{
}

/// While running, a new value (not the last accepted one) is accepted (the
/// reject count cleared) exactly when its advance exceeds the wall clock's
/// by between −10 s and +30 s since the last accepted reading.
pub proof fn lemma_reading_window(s: TimerModel, r: Seq<char>, last: Seq<char>, at: u64, now: u64)
    requires
        s.state == TimerState::Running,
        s.last_valid_ocr == Some(last),
        s.last_valid_ms == Some(at),
        r != last,
    ensures
        ({
            let d = time_secs(r) as int - time_secs(last) as int - (since(now, at) / 1000) as int;
            let t = after_reading(s, Some(r), now);
            &&& (-10 <= d <= 30) ==> t.rejects == 0 && t.state == TimerState::Running
            &&& !(-10 <= d <= 30) && s.rejects < 2 ==> t.rejects == s.rejects + 1 && t.state == TimerState::Running
            &&& !(-10 <= d <= 30) && s.rejects == 2 ==> t == cleared(s)
        }),
{
}

/// A reading is taken only after three plausible readings in a row: the
/// first two leave the last accepted reading as it was (unless a third
/// reject in a row starts the timer over).
pub proof fn lemma_three_in_a_row(s: TimerModel, r: Seq<char>, now: u64)
    requires
        s.state == TimerState::Running,
        s.streak < 2,
        s.rejects < 2,
    ensures
        after_reading(s, Some(r), now).last_valid_ocr == s.last_valid_ocr,
        after_reading(s, Some(r), now).last_valid_ms == s.last_valid_ms,
{
}

} // verus!
