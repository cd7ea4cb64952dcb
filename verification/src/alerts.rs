//! Subscription checks: which fissures, cycle changes and arbitrations the
//! user's rules ask to be notified of, remembering what was already
//! notified so that a re-check does not notify again.

use vstd::prelude::*;
use crate::config::{ArbitrationAlert, CycleAlert, FissureAlert};
use crate::keyset::{contains_key, has_key, insert_key, key_set, remove_key, retain_keys};
use crate::models::{ArbitrationInfo, CycleInfo, Fissure};
use crate::text::{decimal, int_text, owned, push_decimal, push_int, push_str};

verus! {

/// A fired subscription, shown in the tray popup.
#[derive(Debug, Clone)]
pub struct SubNotify {
    /// `fissure`, `cycle` or `arbitration`.
    pub kind: String,
    /// Emoji shown in the popup.
    pub icon: String,
    pub title: String,
    pub detail: String,
    /// Fired-at time (ms).
    pub ts: i64,
    /// Locate key for click-through (fissure/arbitration node, cycle location).
    pub node: String,
    /// Fissure sub-tab hint: `normal`, `hard`, `storm`, or empty.
    pub sub: String,
}

// ── Fissures ─────────────────────────────────────────────────────────────────

/// The difficulty slot of a fissure: `hard`, `storm` or `normal`.
pub open spec fn difficulty_of(f: Fissure) -> Seq<char> {
    if f.is_hard {
        "hard"@
    } else if f.is_storm {
        "storm"@
    } else {
        "normal"@
    }
}

/// A rule matches a fissure when each of its non-empty fields equals the
/// fissure's era label, mission type and difficulty.
pub open spec fn fissure_rule_matches(a: FissureAlert, f: Fissure) -> bool {
    &&& (a.tier@.len() == 0 || a.tier@ == f.tier_label@)
    &&& (a.mission_type@.len() == 0 || a.mission_type@ == f.mission_type@)
    &&& (a.difficulty@.len() == 0 || a.difficulty@ == difficulty_of(f))
}

/// Some rule of `alerts` matches `f`.
pub open spec fn any_fissure_rule(alerts: Seq<FissureAlert>, f: Fissure) -> bool {
    exists|j: int| 0 <= j < alerts.len() && fissure_rule_matches(#[trigger] alerts[j], f)
}

/// A fissure is wanted when it has time left and some rule matches it.
pub open spec fn wanted_fissure(alerts: Seq<FissureAlert>, f: Fissure) -> bool {
    f.remain_ms > 0 && any_fissure_rule(alerts, f)
}

/// The key under which a fissure is remembered: `node_key:expiry_ms`.
pub open spec fn fissure_key(f: Fissure) -> Seq<char> {
    f.node_key@ + ":"@ + int_text(f.expiry_ms as int)
}

/// Going through `fs` in order: the wanted fissures whose key was not yet
/// remembered (those are notified), and the keys remembered afterwards.
pub open spec fn fissure_scan(
    fs: Seq<Fissure>,
    alerts: Seq<FissureAlert>,
    seen: Set<Seq<char>>,
) -> (Seq<Fissure>, Set<Seq<char>>)
    decreases fs.len(),
{
    if fs.len() == 0 {
        (Seq::empty(), seen)
    } else {
        let prev = fissure_scan(fs.drop_last(), alerts, seen);
        let f = fs.last();
        if wanted_fissure(alerts, f) && !prev.1.contains(fissure_key(f)) {
            (prev.0.push(f), prev.1.insert(fissure_key(f)))
        } else {
            prev
        }
    }
}

/// The keys of the fissures of `fs` that still have time left.
pub open spec fn active_keys(fs: Seq<Fissure>) -> Set<Seq<char>> {
    Set::new(
        |k: Seq<char>|
            exists|i: int| 0 <= i < fs.len() && fs[i].remain_ms > 0 && #[trigger] fissure_key(fs[i]) == k,
    )
}

/// The notification for a fissure: title `难度 纪元 任务模式`, detail
/// `节点 · 星球 · 剩余 时间`.
pub open spec fn fissure_notice(n: SubNotify, f: Fissure, now: i64) -> bool {
    let level = if f.is_hard {
        "钢铁"@
    } else if f.is_storm {
        "风暴"@
    } else {
        "普通"@
    };
    &&& n.kind@ == "fissure"@
    &&& n.icon@ == ""@
    &&& n.title@ == level + " "@ + f.tier_label@ + " "@ + f.mission_type@
    &&& n.detail@ == f.node_name@ + " · "@ + f.planet@ + " · 剩余 "@ + f.remain_str@
    &&& n.ts == now
    &&& n.node@ == f.node_name@
    &&& n.sub@ == difficulty_of(f)
}

/// `ns` are the notifications of the fissures `fs`, in order.
pub open spec fn fissure_notices(ns: Seq<SubNotify>, fs: Seq<Fissure>, now: i64) -> bool {
    &&& ns.len() == fs.len()
    &&& forall|i: int| 0 <= i < ns.len() ==> fissure_notice(#[trigger] ns[i], fs[i], now)
}

/// A rule fits a fissure when its era, mission type and difficulty are each
/// left open (empty) or the fissure's own; the difficulty of a Steel Path
/// fissure is `hard`, of a railjack storm `storm`, of any other `normal`.
pub open spec fn rule_fits(a: FissureAlert, f: Fissure) -> bool {
    &&& a.tier@.len() == 0 || a.tier@ == f.tier_label@
    &&& a.mission_type@.len() == 0 || a.mission_type@ == f.mission_type@
    &&& a.difficulty@.len() == 0 || (f.is_hard && a.difficulty@ == "hard"@) || (!f.is_hard && f.is_storm
        && a.difficulty@ == "storm"@) || (!f.is_hard && !f.is_storm && a.difficulty@ == "normal"@)
}

/// Every fissure a check notifies is one of the fissures checked, still
/// open, and fitted by some rule in era, mission type and difficulty: a rule
/// asking for another mission type (or era, or difficulty) never notifies it.
pub proof fn lemma_notified_fissures_fit(fs: Seq<Fissure>, alerts: Seq<FissureAlert>, seen: Set<Seq<char>>)
    ensures
        forall|i: int|
            0 <= i < fissure_scan(fs, alerts, seen).0.len() ==> {
                let f = #[trigger] fissure_scan(fs, alerts, seen).0[i];
                &&& fs.contains(f)
                &&& f.remain_ms > 0
                &&& exists|j: int| 0 <= j < alerts.len() && rule_fits(#[trigger] alerts[j], f)
            },
    decreases fs.len(),
{
    if fs.len() > 0 {
        let d = fs.drop_last();
        lemma_notified_fissures_fit(d, alerts, seen);
        let prev = fissure_scan(d, alerts, seen);
        let x = fs.last();
        assert forall|i: int| 0 <= i < fissure_scan(fs, alerts, seen).0.len() implies {
            let f = #[trigger] fissure_scan(fs, alerts, seen).0[i];
            &&& fs.contains(f)
            &&& f.remain_ms > 0
            &&& exists|j: int| 0 <= j < alerts.len() && rule_fits(#[trigger] alerts[j], f)
        } by {
            let f = fissure_scan(fs, alerts, seen).0[i];
            if i < prev.0.len() {
                assert(f == prev.0[i]);
                let k = choose|k: int| 0 <= k < d.len() && d[k] == f;
                assert(fs[k] == f);
            } else {
                assert(f == x);
                assert(fs[fs.len() - 1] == x);
                let j = choose|j: int| 0 <= j < alerts.len() && fissure_rule_matches(alerts[j], x);
                assert(rule_fits(alerts[j], x));
            }
        }
    }
}

fn rule_matches(a: &FissureAlert, f: &Fissure) -> (r: bool)
    ensures
        r == fissure_rule_matches(*a, *f),
{
    let diff = if f.is_hard {
        "hard"
    } else if f.is_storm {
        "storm"
    } else {
        "normal"
    };
    let tier_ok = a.tier.as_str().is_empty() || a.tier == f.tier_label;
    let type_ok = a.mission_type.as_str().is_empty() || a.mission_type == f.mission_type;
    let diff_ok = a.difficulty.as_str().is_empty() || crate::text::str_eq(a.difficulty.as_str(), diff);
    tier_ok && type_ok && diff_ok
}

fn any_rule(alerts: &[FissureAlert], f: &Fissure) -> (r: bool)
    ensures
        r == any_fissure_rule(alerts@, *f),
{
    let mut j: usize = 0;
    while j < alerts.len()
        invariant
            j <= alerts@.len(),
            forall|k: int| 0 <= k < j ==> !fissure_rule_matches(#[trigger] alerts@[k], *f),
        decreases alerts@.len() - j,
    {
        if rule_matches(&alerts[j], f) {
            return true;
        }
        j = j + 1;
    }
    false
}

fn fissure_key_exec(f: &Fissure) -> (r: String)
    ensures
        r@ == fissure_key(*f),
{
    let mut r = f.node_key.clone();
    push_str(&mut r, ":");
    push_int(&mut r, f.expiry_ms);
    r
}

fn fissure_notice_exec(f: &Fissure, now: i64) -> (n: SubNotify)
    ensures
        fissure_notice(n, *f, now),
{
    let level = if f.is_hard {
        "钢铁"
    } else if f.is_storm {
        "风暴"
    } else {
        "普通"
    };
    let sub = if f.is_hard {
        "hard"
    } else if f.is_storm {
        "storm"
    } else {
        "normal"
    };
    let mut title = owned(level);
    push_str(&mut title, " ");
    push_str(&mut title, f.tier_label.as_str());
    push_str(&mut title, " ");
    push_str(&mut title, f.mission_type.as_str());
    let mut detail = f.node_name.clone();
    push_str(&mut detail, " · ");
    push_str(&mut detail, f.planet.as_str());
    push_str(&mut detail, " · 剩余 ");
    push_str(&mut detail, f.remain_str.as_str());
    SubNotify {
        kind: owned("fissure"),
        icon: owned(""),
        title,
        detail,
        ts: now,
        node: f.node_name.clone(),
        sub: owned(sub),
    }
}

proof fn lemma_active_keys_step(fs: Seq<Fissure>, k: int)
    requires
        0 <= k < fs.len(),
    ensures
        active_keys(fs.take(k + 1)) == (if fs[k].remain_ms > 0 {
            active_keys(fs.take(k)).insert(fissure_key(fs[k]))
        } else {
            active_keys(fs.take(k))
        }),
{
    let a = fs.take(k);
    let b = fs.take(k + 1);
    let rhs = if fs[k].remain_ms > 0 {
        active_keys(a).insert(fissure_key(fs[k]))
    } else {
        active_keys(a)
    };
    assert forall|x: Seq<char>| active_keys(b).contains(x) == rhs.contains(x) by {
        if active_keys(b).contains(x) {
            let i = choose|i: int| 0 <= i < b.len() && b[i].remain_ms > 0 && #[trigger] fissure_key(b[i]) == x;
            if i < k {
                assert(a[i] == b[i]);
                assert(active_keys(a).contains(x));
            }
        }
        if active_keys(a).contains(x) {
            let i = choose|i: int| 0 <= i < a.len() && a[i].remain_ms > 0 && #[trigger] fissure_key(a[i]) == x;
            assert(b[i] == a[i]);
            assert(active_keys(b).contains(x));
        }
        if fs[k].remain_ms > 0 && x == fissure_key(fs[k]) {
            assert(b[k] == fs[k]);
            assert(active_keys(b).contains(x));
        }
    }
    assert(active_keys(b) =~= rhs);
}

/// Check fissure subscriptions after a world-state refresh: one notification
/// for each wanted fissure not yet notified (remembered by `node:expiry`), in
/// order; then forget the keys of fissures that have expired. With no rules
/// nothing happens.
pub fn check_fissure_alerts(
    fissures: &[Fissure],
    alerts: &[FissureAlert],
    notified: &mut Vec<String>,
    now: i64,
) -> (r: Vec<SubNotify>)
    ensures
        alerts@.len() == 0 ==> r@.len() == 0 && final(notified)@ == old(notified)@,
        alerts@.len() > 0 ==> {
            let scan = fissure_scan(fissures@, alerts@, key_set(old(notified)@));
            &&& fissure_notices(r@, scan.0, now)
            &&& key_set(final(notified)@) == scan.1.intersect(active_keys(fissures@))
        },
        forall|i: int|
            0 <= i < r@.len() ==> exists|k: int|
                0 <= k < fissures@.len() && fissure_notice(#[trigger] r@[i], fissures@[k], now)
                    && fissures@[k].remain_ms > 0 && exists|j: int|
                    0 <= j < alerts@.len() && rule_fits(#[trigger] alerts@[j], fissures@[k]),
{
    let mut out: Vec<SubNotify> = Vec::new();
    if alerts.len() == 0 {
        return out;
    }
    let ghost start = key_set(notified@);
    let mut i: usize = 0;
    assert(fissures@.take(0) =~= Seq::<Fissure>::empty());
    while i < fissures.len()
        invariant
            i <= fissures@.len(),
            alerts@.len() > 0,
            ({
                let scan = fissure_scan(fissures@.take(i as int), alerts@, start);
                &&& fissure_notices(out@, scan.0, now)
                &&& key_set(notified@) == scan.1
            }),
        decreases fissures@.len() - i,
    {
        let f = &fissures[i];
        let ghost pre = fissure_scan(fissures@.take(i as int), alerts@, start);
        let ghost before = out@;
        assert(fissures@.take(i + 1).drop_last() =~= fissures@.take(i as int));
        assert(fissures@.take(i + 1).last() == fissures@[i as int]);
        if f.remain_ms > 0 && any_rule(alerts, f) {
            let key = fissure_key_exec(f);
            if insert_key(notified, key.as_str()) {
                let n = fissure_notice_exec(f, now);
                out.push(n);
                assert(out@ =~= before.push(n));
                assert(pre.0.push(*f).len() == out@.len());
                assert forall|j: int| 0 <= j < out@.len() implies fissure_notice(
                    #[trigger] out@[j],
                    pre.0.push(*f)[j],
                    now,
                ) by {
                    if j < before.len() {
                        assert(out@[j] == before[j]);
                    }
                }
            } else {
                assert(key_set(notified@) =~= pre.1);
            }
        }
        i = i + 1;
    }
    assert(fissures@.take(fissures@.len() as int) =~= fissures@);
    let mut active: Vec<String> = Vec::new();
    let mut k: usize = 0;
    assert(key_set(active@) =~= active_keys(fissures@.take(0)));
    while k < fissures.len()
        invariant
            k <= fissures@.len(),
            key_set(active@) == active_keys(fissures@.take(k as int)),
        decreases fissures@.len() - k,
    {
        proof {
            lemma_active_keys_step(fissures@, k as int);
        }
        if fissures[k].remain_ms > 0 {
            let key = fissure_key_exec(&fissures[k]);
            insert_key(&mut active, key.as_str());
        }
        k = k + 1;
    }
    assert(fissures@.take(fissures@.len() as int) =~= fissures@);
    assert(key_set(active@) =~= active_keys(fissures@));
    retain_keys(notified, &active);
    proof {
        let scan = fissure_scan(fissures@, alerts@, start);
        lemma_notified_fissures_fit(fissures@, alerts@, start);
        assert forall|i: int| 0 <= i < out@.len() implies exists|k: int|
            0 <= k < fissures@.len() && fissure_notice(#[trigger] out@[i], fissures@[k], now)
                && fissures@[k].remain_ms > 0 && exists|j: int|
                0 <= j < alerts@.len() && rule_fits(#[trigger] alerts@[j], fissures@[k]) by {
            let f = scan.0[i];
            assert(fissure_notice(out@[i], f, now));
            assert(fissures@.contains(f));
            let k = choose|k: int| 0 <= k < fissures@.len() && fissures@[k] == f;
            assert(fissures@[k] == f);
        }
    }
    out
}

// ── Cycles ───────────────────────────────────────────────────────────────────

/// The first cycle of `cs` named `name`.
pub open spec fn find_cycle(cs: Seq<CycleInfo>, name: Seq<char>) -> Option<CycleInfo>
    decreases cs.len(),
{
    if cs.len() == 0 {
        None
    } else if cs[0].name@ == name {
        Some(cs[0])
    } else {
        find_cycle(cs.drop_first(), name)
    }
}

/// The key under which an advance notice is remembered:
/// `location|state|minutes`.
pub open spec fn advance_key(a: CycleAlert) -> Seq<char> {
    a.location@ + "|"@ + a.state@ + "|"@ + decimal(a.advance_minutes as nat)
}

/// An advance-notice rule applies to a cycle when it has a lead time, is for
/// the Plains of Eidolon (the only location handled) and that cycle is known.
pub open spec fn advance_applies(cs: Seq<CycleInfo>, a: CycleAlert) -> bool {
    a.advance_minutes != 0 && a.location@ == "夜灵平野"@ && find_cycle(cs, a.location@) is Some
}

/// Going through the rules in order: the (rule, cycle) pairs to notify, and
/// the remembered keys afterwards. A rule whose target state is current
/// forgets its key; otherwise it fires once when the phase has at most its
/// lead time left.
pub open spec fn advance_scan(
    cs: Seq<CycleInfo>,
    alerts: Seq<CycleAlert>,
    fired: Set<Seq<char>>,
) -> (Seq<(CycleAlert, CycleInfo)>, Set<Seq<char>>)
    decreases alerts.len(),
{
    if alerts.len() == 0 {
        (Seq::empty(), fired)
    } else {
        let prev = advance_scan(cs, alerts.drop_last(), fired);
        let a = alerts.last();
        if !advance_applies(cs, a) {
            prev
        } else {
            let c = find_cycle(cs, a.location@)->0;
            let key = advance_key(a);
            if c.state@ == a.state@ {
                (prev.0, prev.1.remove(key))
            } else if c.remain_ms <= a.advance_minutes * 60000 && !prev.1.contains(key) {
                (prev.0.push((a, c)), prev.1.insert(key))
            } else {
                prev
            }
        }
    }
}

/// The advance notice: title `地点 · 即将进入状态`, detail
/// `还有 N 分钟，请做好准备`.
pub open spec fn advance_notice(n: SubNotify, a: CycleAlert, c: CycleInfo, now: i64) -> bool {
    &&& n.kind@ == "cycle"@
    &&& n.icon@ == "⏰"@
    &&& n.title@ == c.name@ + " · 即将进入"@ + a.state@
    &&& n.detail@ == "还有 "@ + decimal(a.advance_minutes as nat) + " 分钟，请做好准备"@
    &&& n.ts == now
    &&& n.node@ == c.name@
    &&& n.sub@ == ""@
}

fn find_cycle_exec<'a>(cs: &'a [CycleInfo], name: &str) -> (r: Option<&'a CycleInfo>)
    ensures
        r is Some <==> find_cycle(cs@, name@) is Some,
        r matches Some(c) ==> find_cycle(cs@, name@) == Some(*c),
{
    let mut i: usize = 0;
    assert(cs@.skip(0) =~= cs@);
    while i < cs.len()
        invariant
            i <= cs@.len(),
            find_cycle(cs@, name@) == find_cycle(cs@.skip(i as int), name@),
        decreases cs@.len() - i,
    {
        assert(cs@.skip(i as int).drop_first() =~= cs@.skip(i + 1));
        if crate::text::str_eq(cs[i].name.as_str(), name) {
            return Some(&cs[i]);
        }
        i = i + 1;
    }
    None
}

/// Check cycle advance-notice rules on every tick: fire once per phase when
/// the current phase of the Plains of Eidolon has at most the rule's lead
/// time left before the rule's state begins.
pub fn check_cycle_advance_alerts(
    cycles: &[CycleInfo],
    alerts: &[CycleAlert],
    fired: &mut Vec<String>,
    now: i64,
) -> (r: Vec<SubNotify>)
    ensures
        ({
            let scan = advance_scan(cycles@, alerts@, key_set(old(fired)@));
            &&& r@.len() == scan.0.len()
            &&& forall|i: int|
                0 <= i < r@.len() ==> advance_notice(#[trigger] r@[i], scan.0[i].0, scan.0[i].1, now)
            &&& key_set(final(fired)@) == scan.1
        }),
{
    let mut out: Vec<SubNotify> = Vec::new();
    let ghost start = key_set(fired@);
    let mut j: usize = 0;
    assert(alerts@.take(0) =~= Seq::<CycleAlert>::empty());
    while j < alerts.len()
        invariant
            j <= alerts@.len(),
            ({
                let scan = advance_scan(cycles@, alerts@.take(j as int), start);
                &&& out@.len() == scan.0.len()
                &&& forall|i: int|
                    0 <= i < out@.len() ==> advance_notice(#[trigger] out@[i], scan.0[i].0, scan.0[i].1, now)
                &&& key_set(fired@) == scan.1
            }),
        decreases alerts@.len() - j,
    {
        let ghost pre = advance_scan(cycles@, alerts@.take(j as int), start);
        assert(alerts@.take(j + 1).drop_last() =~= alerts@.take(j as int));
        assert(alerts@.take(j + 1).last() == alerts@[j as int]);
        let alert = &alerts[j];
        if alert.advance_minutes != 0 && crate::text::str_eq(alert.location.as_str(), "夜灵平野") {
            if let Some(cycle) = find_cycle_exec(cycles, alert.location.as_str()) {
                let mut key = alert.location.clone();
                push_str(&mut key, "|");
                push_str(&mut key, alert.state.as_str());
                push_str(&mut key, "|");
                push_decimal(&mut key, alert.advance_minutes as u64);
                if cycle.state == alert.state {
                    remove_key(fired, key.as_str());
                } else {
                    let threshold_ms = (alert.advance_minutes as i64) * 60 * 1000;
                    if cycle.remain_ms <= threshold_ms && !contains_key(fired, key.as_str()) {
                        insert_key(fired, key.as_str());
                        let mut title = cycle.name.clone();
                        push_str(&mut title, " · 即将进入");
                        push_str(&mut title, alert.state.as_str());
                        let mut detail = owned("还有 ");
                        push_decimal(&mut detail, alert.advance_minutes as u64);
                        push_str(&mut detail, " 分钟，请做好准备");
                        let n = SubNotify {
                            kind: owned("cycle"),
                            icon: owned("⏰"),
                            title,
                            detail,
                            ts: now,
                            node: cycle.name.clone(),
                            sub: owned(""),
                        };
                        let ghost before = out@;
                        out.push(n);
                        assert forall|i: int|
                            0 <= i < out@.len() implies advance_notice(
                            #[trigger] out@[i],
                            pre.0.push((*alert, *cycle))[i].0,
                            pre.0.push((*alert, *cycle))[i].1,
                            now,
                        ) by {
                            if i < before.len() {
                                assert(out@[i] == before[i]);
                            }
                        }
                    }
                }
            }
        }
        j = j + 1;
    }
    assert(alerts@.take(alerts@.len() as int) =~= alerts@);
    out
}

/// The state last recorded for `name` (first entry), if any.
pub open spec fn state_of(v: Seq<(String, String)>, name: Seq<char>) -> Option<Seq<char>>
    decreases v.len(),
{
    if v.len() == 0 {
        None
    } else if v[0].0@ == name {
        Some(v[0].1@)
    } else {
        state_of(v.drop_first(), name)
    }
}

/// The recorded states, as a map from location to state.
pub open spec fn state_map(v: Seq<(String, String)>) -> Map<Seq<char>, Seq<char>> {
    Map::new(|k: Seq<char>| state_of(v, k) is Some, |k: Seq<char>| state_of(v, k)->0)
}

/// The recorded state of `name`, empty when none.
pub open spec fn prev_state(m: Map<Seq<char>, Seq<char>>, name: Seq<char>) -> Seq<char> {
    if m.contains_key(name) {
        m[name]
    } else {
        Seq::empty()
    }
}

/// The number of rules of `rs` for this cycle's location and state.
pub open spec fn cycle_rule_count(rs: Seq<CycleAlert>, c: CycleInfo) -> nat
    decreases rs.len(),
{
    if rs.len() == 0 {
        0
    } else {
        cycle_rule_count(rs.drop_last(), c) + if rs.last().location@ == c.name@ && rs.last().state@
            == c.state@ {
            1nat
        } else {
            0nat
        }
    }
}

/// Going through the cycles in order: for each cycle whose state differs
/// from the recorded one, record the new state and notify it once per
/// matching rule. Yields the notified cycles (repeated per rule) and the
/// recorded states afterwards.
pub open spec fn transition_scan(
    cs: Seq<CycleInfo>,
    alerts: Seq<CycleAlert>,
    m: Map<Seq<char>, Seq<char>>,
) -> (Seq<CycleInfo>, Map<Seq<char>, Seq<char>>)
    decreases cs.len(),
{
    if cs.len() == 0 {
        (Seq::empty(), m)
    } else {
        let prev = transition_scan(cs.drop_last(), alerts, m);
        let c = cs.last();
        if c.state@ == prev_state(prev.1, c.name@) {
            prev
        } else {
            (
                prev.0 + Seq::new(cycle_rule_count(alerts, c), |i: int| c),
                prev.1.insert(c.name@, c.state@),
            )
        }
    }
}

/// The transition notice: title `地点 · 状态`, detail `剩余 时间`.
pub open spec fn transition_notice(n: SubNotify, c: CycleInfo, now: i64) -> bool {
    &&& n.kind@ == "cycle"@
    &&& n.icon@ == "🌓"@
    &&& n.title@ == c.name@ + " · "@ + c.state@
    &&& n.detail@ == "剩余 "@ + c.remain_str@
    &&& n.ts == now
    &&& n.node@ == c.name@
    &&& n.sub@ == ""@
}

fn lookup_state<'a>(v: &'a Vec<(String, String)>, name: &str) -> (r: Option<&'a String>)
    ensures
        r is Some <==> state_of(v@, name@) is Some,
        r matches Some(s) ==> state_of(v@, name@) == Some(s@),
{
    let mut i: usize = 0;
    assert(v@.skip(0) =~= v@);
    while i < v.len()
        invariant
            i <= v@.len(),
            state_of(v@, name@) == state_of(v@.skip(i as int), name@),
        decreases v@.len() - i,
    {
        assert(v@.skip(i as int).drop_first() =~= v@.skip(i + 1));
        if crate::text::str_eq(v[i].0.as_str(), name) {
            return Some(&v[i].1);
        }
        i = i + 1;
    }
    None
}

proof fn lemma_state_of_update(v: Seq<(String, String)>, i: int, e: (String, String), k: Seq<char>)
    requires
        0 <= i < v.len(),
        v[i].0@ == e.0@,
        forall|j: int| 0 <= j < i ==> v[j].0@ != e.0@,
    ensures
        state_of(v.update(i, e), k) == if k == e.0@ {
            Some(e.1@)
        } else {
            state_of(v, k)
        },
    decreases i,
{
    let u = v.update(i, e);
    if i > 0 {
        assert(u[0] == v[0]);
        assert(u.drop_first() =~= v.drop_first().update(i - 1, e));
        lemma_state_of_update(v.drop_first(), i - 1, e, k);
    } else {
        assert(u[0] == e);
        assert(u.drop_first() =~= v.drop_first());
    }
}

proof fn lemma_state_of_push(v: Seq<(String, String)>, e: (String, String), k: Seq<char>)
    requires
        state_of(v, e.0@) is None,
    ensures
        state_of(v.push(e), k) == if state_of(v, k) is Some {
            state_of(v, k)
        } else if k == e.0@ {
            Some(e.1@)
        } else {
            None
        },
    decreases v.len(),
{
    let p = v.push(e);
    if v.len() > 0 {
        assert(p[0] == v[0]);
        assert(p.drop_first() =~= v.drop_first().push(e));
        assert(v[0].0@ != e.0@);
        assert(state_of(v.drop_first(), e.0@) is None);
        lemma_state_of_push(v.drop_first(), e, k);
        if v[0].0@ == k {
            assert(state_of(p, k) == Some(v[0].1@));
            assert(state_of(v, k) == Some(v[0].1@));
        } else {
            assert(state_of(p, k) == state_of(v.drop_first().push(e), k));
            assert(state_of(v, k) == state_of(v.drop_first(), k));
        }
    } else {
        assert(p[0] == e);
        assert(p.drop_first() =~= Seq::<(String, String)>::empty());
        assert(state_of(p.drop_first(), k) is None);
        assert(state_of(v, k) is None);
        if k == e.0@ {
            assert(state_of(p, k) == Some(e.1@));
        } else {
            assert(state_of(p, k) == state_of(p.drop_first(), k));
        }
    }
}

/// Membership and values of the recorded-state map.
proof fn lemma_state_map(v: Seq<(String, String)>, k: Seq<char>)
    ensures
        state_map(v).contains_key(k) == (state_of(v, k) is Some),
        state_of(v, k) is Some ==> state_map(v)[k] == state_of(v, k)->0,
{
}

fn set_state(v: &mut Vec<(String, String)>, name: &str, state: &str)
    ensures
        state_map(final(v)@) == state_map(old(v)@).insert(name@, state@),
{
    let ghost before = v@;
    let mut i: usize = 0;
    let mut found = false;
    while i < v.len()
        invariant_except_break
            i <= v@.len(),
            !found,
            forall|j: int| 0 <= j < i ==> v@[j].0@ != name@,
        invariant
            v@ == before,
        ensures
            found ==> i < v@.len() && v@[i as int].0@ == name@ && forall|j: int| 0 <= j < i ==> v@[j].0@ != name@,
            !found ==> forall|j: int| 0 <= j < v@.len() ==> v@[j].0@ != name@,
        decreases v@.len() - i,
    {
        if crate::text::str_eq(v[i].0.as_str(), name) {
            found = true;
            break;
        }
        i = i + 1;
    }
    let e = (owned(name), owned(state));
    if found {
        proof {
            assert forall|k: Seq<char>| #[trigger] state_of(before.update(i as int, e), k) == if k == e.0@ {
                Some(e.1@)
            } else {
                state_of(before, k)
            } by {
                lemma_state_of_update(before, i as int, e, k);
            }
        }
        v.set(i, e);
        proof {
            assert forall|k: Seq<char>| state_map(v@).contains_key(k) == state_map(before).insert(name@, state@).contains_key(k) by {
                lemma_state_map(v@, k);
                lemma_state_map(before, k);
            }
            assert forall|k: Seq<char>| state_map(v@).contains_key(k) implies state_map(v@)[k] == state_map(before).insert(name@, state@)[k] by {
                lemma_state_map(v@, k);
                lemma_state_map(before, k);
            }
        }
        assert(state_map(v@) =~= state_map(before).insert(name@, state@));
    } else {
        proof {
            lemma_state_of_absent(before, name@);
            assert forall|k: Seq<char>| #[trigger] state_of(before.push(e), k) == if state_of(before, k) is Some {
                state_of(before, k)
            } else if k == e.0@ {
                Some(e.1@)
            } else {
                None
            } by {
                lemma_state_of_push(before, e, k);
            }
        }
        v.push(e);
        proof {
            assert forall|k: Seq<char>| state_map(v@).contains_key(k) == state_map(before).insert(name@, state@).contains_key(k) by {
                lemma_state_map(v@, k);
                lemma_state_map(before, k);
            }
            assert forall|k: Seq<char>| state_map(v@).contains_key(k) implies state_map(v@)[k] == state_map(before).insert(name@, state@)[k] by {
                lemma_state_map(v@, k);
                lemma_state_map(before, k);
            }
        }
        assert(state_map(v@) =~= state_map(before).insert(name@, state@));
    }
}

proof fn lemma_state_of_absent(v: Seq<(String, String)>, k: Seq<char>)
    requires
        forall|j: int| 0 <= j < v.len() ==> v[j].0@ != k,
    ensures
        state_of(v, k) is None,
    decreases v.len(),
{
    if v.len() > 0 {
        lemma_state_of_absent(v.drop_first(), k);
    }
}

/// Check cycle subscriptions after a world-state refresh: only a cycle whose
/// state changed since the recorded one notifies, once per rule for its
/// location and new state; the new state is recorded. With no rules nothing
/// happens.
pub fn check_cycle_alerts(
    cycles: &[CycleInfo],
    alerts: &[CycleAlert],
    prev_states: &mut Vec<(String, String)>,
    now: i64,
) -> (r: Vec<SubNotify>)
    ensures
        alerts@.len() == 0 ==> r@.len() == 0 && final(prev_states)@ == old(prev_states)@,
        alerts@.len() > 0 ==> {
            let scan = transition_scan(cycles@, alerts@, state_map(old(prev_states)@));
            &&& r@.len() == scan.0.len()
            &&& forall|i: int| 0 <= i < r@.len() ==> transition_notice(#[trigger] r@[i], scan.0[i], now)
            &&& state_map(final(prev_states)@) == scan.1
        },
{
    let mut out: Vec<SubNotify> = Vec::new();
    if alerts.len() == 0 {
        return out;
    }
    let ghost start = state_map(prev_states@);
    let mut i: usize = 0;
    assert(cycles@.take(0) =~= Seq::<CycleInfo>::empty());
    while i < cycles.len()
        invariant
            i <= cycles@.len(),
            alerts@.len() > 0,
            ({
                let scan = transition_scan(cycles@.take(i as int), alerts@, start);
                &&& out@.len() == scan.0.len()
                &&& forall|j: int| 0 <= j < out@.len() ==> transition_notice(#[trigger] out@[j], scan.0[j], now)
                &&& state_map(prev_states@) == scan.1
            }),
        decreases cycles@.len() - i,
    {
        let ghost pre = transition_scan(cycles@.take(i as int), alerts@, start);
        assert(cycles@.take(i + 1).drop_last() =~= cycles@.take(i as int));
        assert(cycles@.take(i + 1).last() == cycles@[i as int]);
        let cycle = &cycles[i];
        proof {
            lemma_state_map(prev_states@, cycle.name@);
            reveal_strlit("");
        }
        let found = lookup_state(prev_states, cycle.name.as_str());
        let same = match found {
            Some(p) => {
                let eq = *p == cycle.state;
                assert(state_of(prev_states@, cycle.name@) == Some(p@));
                assert(prev_state(pre.1, cycle.name@) == p@);
                eq
            },
            None => {
                assert(prev_state(pre.1, cycle.name@) == Seq::<char>::empty());
                let e = cycle.state.as_str().is_empty();
                if e {
                    assert(cycle.state@ =~= Seq::<char>::empty());
                }
                e
            },
        };
        assert(same == (cycle.state@ == prev_state(pre.1, cycle.name@)));
        if !same {
            set_state(prev_states, cycle.name.as_str(), cycle.state.as_str());
            let ghost base = out@;
            let mut j: usize = 0;
            assert(alerts@.take(0) =~= Seq::<CycleAlert>::empty());
            while j < alerts.len()
                invariant
                    j <= alerts@.len(),
                    base.len() == pre.0.len(),
                    forall|t: int| 0 <= t < base.len() ==> transition_notice(#[trigger] base[t], pre.0[t], now),
                    out@.len() == base.len() + cycle_rule_count(alerts@.take(j as int), *cycle),
                    forall|t: int| 0 <= t < base.len() ==> out@[t] == base[t],
                    forall|t: int|
                        base.len() <= t < out@.len() ==> transition_notice(#[trigger] out@[t], *cycle, now),
                decreases alerts@.len() - j,
            {
                assert(alerts@.take(j + 1).drop_last() =~= alerts@.take(j as int));
                let a = &alerts[j];
                if a.location == cycle.name && a.state == cycle.state {
                    let mut title = cycle.name.clone();
                    push_str(&mut title, " · ");
                    push_str(&mut title, cycle.state.as_str());
                    let mut detail = owned("剩余 ");
                    push_str(&mut detail, cycle.remain_str.as_str());
                    out.push(
                        SubNotify {
                            kind: owned("cycle"),
                            icon: owned("🌓"),
                            title,
                            detail,
                            ts: now,
                            node: cycle.name.clone(),
                            sub: owned(""),
                        },
                    );
                }
                j = j + 1;
            }
            assert(alerts@.take(alerts@.len() as int) =~= alerts@);
            let ghost full = pre.0 + Seq::new(cycle_rule_count(alerts@, *cycle), |k: int| *cycle);
            assert forall|t: int| 0 <= t < out@.len() implies transition_notice(#[trigger] out@[t], full[t], now) by {
                if t < base.len() {
                    assert(out@[t] == base[t]);
                }
            }
        }
        i = i + 1;
    }
    assert(cycles@.take(cycles@.len() as int) =~= cycles@);
    out
}


// ── Arbitration ──────────────────────────────────────────────────────────────

/// The key of the current arbitration slot: `node:expiry_ms`.
pub open spec fn arbitration_key(a: ArbitrationInfo) -> Seq<char> {
    a.current.node@ + ":"@ + int_text(a.expiry_ms as int)
}

/// A rule matches the current arbitration when each non-empty field equals
/// its mission type and planet.
pub open spec fn arbitration_rule_matches(r: ArbitrationAlert, a: ArbitrationInfo) -> bool {
    &&& (r.mission_type@.len() == 0 || r.mission_type@ == a.current.mission@)
    &&& (r.planet@.len() == 0 || r.planet@ == a.current.planet@)
}

/// The number of rules of `rs` that match `a`.
pub open spec fn arbitration_matches(rs: Seq<ArbitrationAlert>, a: ArbitrationInfo) -> nat
    decreases rs.len(),
{
    if rs.len() == 0 {
        0
    } else {
        arbitration_matches(rs.drop_last(), a) + if arbitration_rule_matches(rs.last(), a) {
            1nat
        } else {
            0nat
        }
    }
}

/// The notification for the current arbitration: title `仲裁 · 任务`, detail
/// `节点 · 星球 · Lv 最低-最高 · 剩余 时间`.
pub open spec fn arbitration_notice(n: SubNotify, a: ArbitrationInfo, now: i64) -> bool {
    &&& n.kind@ == "arbitration"@
    &&& n.icon@ == "⚔"@
    &&& n.title@ == "仲裁 · "@ + a.current.mission@
    &&& n.detail@ == a.current.node@ + " · "@ + a.current.planet@ + " · Lv "@ + int_text(
        a.current.min_level as int,
    ) + "-"@ + int_text(a.current.max_level as int) + " · 剩余 "@ + a.remain_str@
    &&& n.ts == now
    &&& n.node@ == a.current.node@
    &&& n.sub@ == ""@
}

/// Whether the arbitration check has anything to do: rules exist, there is
/// an arbitration, and its slot differs from the one last seen.
pub open spec fn arbitration_changed(
    arb: Option<ArbitrationInfo>,
    alerts: Seq<ArbitrationAlert>,
    prev_key: Seq<char>,
) -> bool {
    alerts.len() > 0 && arb is Some && arbitration_key(arb->0) != prev_key
}

/// Which arbitration rules fit: each of its mission type and planet is left
/// open (empty) or is the current arbitration's.
pub open spec fn arbitration_fits(a: ArbitrationInfo) -> spec_fn(ArbitrationAlert) -> bool {
    |r: ArbitrationAlert|
        (r.mission_type@.len() == 0 || r.mission_type@ == a.current.mission@) && (r.planet@.len() == 0
            || r.planet@ == a.current.planet@)
}

/// A new arbitration is notified once for each rule that fits it, and a
/// rule asking for another mission type or planet never counts.
pub proof fn lemma_arbitration_count(rs: Seq<ArbitrationAlert>, a: ArbitrationInfo)
    ensures
        arbitration_matches(rs, a) == rs.filter(arbitration_fits(a)).len(),
    decreases rs.len(),
{
    reveal(Seq::filter);
    if rs.len() > 0 {
        lemma_arbitration_count(rs.drop_last(), a);
    }
}

/// Which cycle rules fit: they name the cycle's location and its state.
pub open spec fn cycle_fits(c: CycleInfo) -> spec_fn(CycleAlert) -> bool {
    |r: CycleAlert| r.location@ == c.name@ && r.state@ == c.state@
}

/// A cycle's change of state is notified once for each rule naming that
/// location and the new state, and no other rule counts.
pub proof fn lemma_cycle_rule_count(rs: Seq<CycleAlert>, c: CycleInfo)
    ensures
        cycle_rule_count(rs, c) == rs.filter(cycle_fits(c)).len(),
    decreases rs.len(),
{
    reveal(Seq::filter);
    if rs.len() > 0 {
        lemma_cycle_rule_count(rs.drop_last(), c);
    }
}

fn arbitration_notice_exec(a: &ArbitrationInfo, now: i64) -> (n: SubNotify)
    ensures
        arbitration_notice(n, *a, now),
{
    let mut title = owned("仲裁 · ");
    push_str(&mut title, a.current.mission.as_str());
    let mut detail = a.current.node.clone();
    push_str(&mut detail, " · ");
    push_str(&mut detail, a.current.planet.as_str());
    push_str(&mut detail, " · Lv ");
    push_int(&mut detail, a.current.min_level as i64);
    push_str(&mut detail, "-");
    push_int(&mut detail, a.current.max_level as i64);
    push_str(&mut detail, " · 剩余 ");
    push_str(&mut detail, a.remain_str.as_str());
    SubNotify {
        kind: owned("arbitration"),
        icon: owned("⚔"),
        title,
        detail,
        ts: now,
        node: a.current.node.clone(),
        sub: owned(""),
    }
}

/// Check arbitration subscriptions: when the arbitration slot changed since
/// the last check (by `node:expiry`), remember it and notify once per
/// matching rule.
pub fn check_arbitration_alerts(
    arb: Option<&ArbitrationInfo>,
    alerts: &[ArbitrationAlert],
    prev_key: &mut String,
    now: i64,
) -> (r: Vec<SubNotify>)
    ensures
        ({
            let a = match arb {
                Some(x) => Some(*x),
                None => None,
            };
            if arbitration_changed(a, alerts@, old(prev_key)@) {
                &&& final(prev_key)@ == arbitration_key(a->0)
                &&& r@.len() == arbitration_matches(alerts@, a->0)
                &&& forall|i: int| 0 <= i < r@.len() ==> arbitration_notice(#[trigger] r@[i], a->0, now)
            } else {
                r@.len() == 0 && final(prev_key)@ == old(prev_key)@
            }
        }),
{
    let mut out: Vec<SubNotify> = Vec::new();
    if alerts.len() == 0 {
        return out;
    }
    let a = match arb {
        Some(a) => a,
        None => {
            return out;
        },
    };
    let mut key = a.current.node.clone();
    push_str(&mut key, ":");
    push_int(&mut key, a.expiry_ms);
    if key == *prev_key {
        return out;
    }
    *prev_key = key;
    let mut j: usize = 0;
    assert(alerts@.take(0) =~= Seq::<ArbitrationAlert>::empty());
    while j < alerts.len()
        invariant
            j <= alerts@.len(),
            out@.len() == arbitration_matches(alerts@.take(j as int), *a),
            forall|i: int| 0 <= i < out@.len() ==> arbitration_notice(#[trigger] out@[i], *a, now),
        decreases alerts@.len() - j,
    {
        assert(alerts@.take(j + 1).drop_last() =~= alerts@.take(j as int));
        let rule = &alerts[j];
        let m_ok = rule.mission_type.as_str().is_empty() || rule.mission_type == a.current.mission;
        let n_ok = rule.planet.as_str().is_empty() || rule.planet == a.current.planet;
        if m_ok && n_ok {
            let ghost before = out@;
            let n = arbitration_notice_exec(a, now);
            out.push(n);
            assert forall|i: int| 0 <= i < out@.len() implies arbitration_notice(#[trigger] out@[i], *a, now) by {
                if i < before.len() {
                    assert(out@[i] == before[i]);
                }
            }
        }
        j = j + 1;
    }
    assert(alerts@.take(alerts@.len() as int) =~= alerts@);
    out
}


// ── Laws ─────────────────────────────────────────────────────────────────────

proof fn lemma_fissure_scan_keeps(fs: Seq<Fissure>, alerts: Seq<FissureAlert>, seen: Set<Seq<char>>)
    ensures
        seen.subset_of(fissure_scan(fs, alerts, seen).1),
        forall|i: int|
            0 <= i < fs.len() && wanted_fissure(alerts, #[trigger] fs[i]) ==> fissure_scan(
                fs,
                alerts,
                seen,
            ).1.contains(fissure_key(fs[i])),
    decreases fs.len(),
{
    if fs.len() > 0 {
        lemma_fissure_scan_keeps(fs.drop_last(), alerts, seen);
        assert forall|i: int|
            0 <= i < fs.len() && wanted_fissure(alerts, #[trigger] fs[i]) implies fissure_scan(
                fs,
                alerts,
                seen,
            ).1.contains(fissure_key(fs[i])) by {
            if i < fs.len() - 1 {
                assert(fs.drop_last()[i] == fs[i]);
            }
        }
    }
}

proof fn lemma_fissure_scan_quiet(fs: Seq<Fissure>, alerts: Seq<FissureAlert>, seen: Set<Seq<char>>)
    requires
        forall|i: int|
            0 <= i < fs.len() && wanted_fissure(alerts, #[trigger] fs[i]) ==> seen.contains(
                fissure_key(fs[i]),
            ),
    ensures
        fissure_scan(fs, alerts, seen).0.len() == 0,
        fissure_scan(fs, alerts, seen).1 == seen,
    decreases fs.len(),
{
    if fs.len() > 0 {
        assert forall|i: int|
            0 <= i < fs.drop_last().len() && wanted_fissure(alerts, #[trigger] fs.drop_last()[i])
                implies seen.contains(fissure_key(fs.drop_last()[i])) by {
            assert(fs.drop_last()[i] == fs[i]);
        }
        lemma_fissure_scan_quiet(fs.drop_last(), alerts, seen);
        assert(fs.last() == fs[fs.len() - 1]);
    }
}

/// Re-checking the same fissures with the same rules right after a check
/// notifies nothing: every wanted fissure's key is remembered.
pub proof fn lemma_fissure_alerts_no_repeat(
    fs: Seq<Fissure>,
    alerts: Seq<FissureAlert>,
    seen: Set<Seq<char>>,
)
    ensures
        fissure_scan(fs, alerts, fissure_scan(fs, alerts, seen).1.intersect(active_keys(fs))).0.len()
            == 0,
{
    lemma_fissure_scan_keeps(fs, alerts, seen);
    let after = fissure_scan(fs, alerts, seen).1.intersect(active_keys(fs));
    assert forall|i: int|
        0 <= i < fs.len() && wanted_fissure(alerts, #[trigger] fs[i]) implies after.contains(
            fissure_key(fs[i]),
        ) by {
        assert(active_keys(fs).contains(fissure_key(fs[i])));
    }
    lemma_fissure_scan_quiet(fs, alerts, after);
}

/// A fissure is notified at most once per check: the notified fissures have
/// pairwise different keys, none of them remembered before.
pub proof fn lemma_fissure_alerts_once(fs: Seq<Fissure>, alerts: Seq<FissureAlert>, seen: Set<Seq<char>>)
    ensures
        ({
            let out = fissure_scan(fs, alerts, seen).0;
            &&& forall|i: int| 0 <= i < out.len() ==> !seen.contains(fissure_key(#[trigger] out[i]))
            &&& forall|i: int, j: int|
                0 <= i < j < out.len() ==> fissure_key(#[trigger] out[i]) != fissure_key(#[trigger] out[j])
            &&& forall|i: int| 0 <= i < out.len() ==> wanted_fissure(alerts, #[trigger] out[i])
            &&& forall|i: int|
                0 <= i < out.len() ==> fissure_scan(fs, alerts, seen).1.contains(fissure_key(#[trigger] out[i]))
        }),
    decreases fs.len(),
{
    if fs.len() > 0 {
        lemma_fissure_alerts_once(fs.drop_last(), alerts, seen);
        lemma_fissure_scan_keeps(fs.drop_last(), alerts, seen);
    }
}

/// Re-checking the same arbitration slot notifies nothing.
pub proof fn lemma_arbitration_alerts_no_repeat(arb: ArbitrationInfo, alerts: Seq<ArbitrationAlert>)
    ensures
        !arbitration_changed(Some(arb), alerts, arbitration_key(arb)),
{
}

proof fn lemma_transition_records(cs: Seq<CycleInfo>, alerts: Seq<CycleAlert>, m: Map<Seq<char>, Seq<char>>)
    requires
        forall|i: int, j: int| 0 <= i < j < cs.len() ==> cs[i].name@ != cs[j].name@,
    ensures
        forall|i: int|
            0 <= i < cs.len() ==> prev_state(transition_scan(cs, alerts, m).1, #[trigger] cs[i].name@)
                == cs[i].state@,
    decreases cs.len(),
{
    if cs.len() > 0 {
        let init = cs.drop_last();
        assert forall|i: int, j: int| 0 <= i < j < init.len() implies init[i].name@ != init[j].name@ by {
            assert(init[i] == cs[i] && init[j] == cs[j]);
        }
        lemma_transition_records(init, alerts, m);
        let m1 = transition_scan(init, alerts, m).1;
        let c = cs.last();
        assert forall|i: int| 0 <= i < cs.len() implies prev_state(
            transition_scan(cs, alerts, m).1,
            #[trigger] cs[i].name@,
        ) == cs[i].state@ by {
            if i < cs.len() - 1 {
                assert(init[i] == cs[i]);
                assert(cs[i].name@ != c.name@);
            }
        }
    }
}

proof fn lemma_transition_quiet(cs: Seq<CycleInfo>, alerts: Seq<CycleAlert>, m: Map<Seq<char>, Seq<char>>)
    requires
        forall|i: int| 0 <= i < cs.len() ==> prev_state(m, #[trigger] cs[i].name@) == cs[i].state@,
    ensures
        transition_scan(cs, alerts, m).0.len() == 0,
        transition_scan(cs, alerts, m).1 == m,
    decreases cs.len(),
{
    if cs.len() > 0 {
        let init = cs.drop_last();
        assert forall|i: int| 0 <= i < init.len() implies prev_state(m, #[trigger] init[i].name@)
            == init[i].state@ by {
            assert(init[i] == cs[i]);
        }
        lemma_transition_quiet(init, alerts, m);
        assert(cs.last() == cs[cs.len() - 1]);
    }
}

/// With distinct location names, re-checking the same cycles right after a
/// check notifies nothing: notifications come only on a state change.
pub proof fn lemma_cycle_alerts_no_repeat(
    cs: Seq<CycleInfo>,
    alerts: Seq<CycleAlert>,
    m: Map<Seq<char>, Seq<char>>,
)
    requires
        forall|i: int, j: int| 0 <= i < j < cs.len() ==> cs[i].name@ != cs[j].name@,
    ensures
        transition_scan(cs, alerts, transition_scan(cs, alerts, m).1).0.len() == 0,
{
    lemma_transition_records(cs, alerts, m);
    lemma_transition_quiet(cs, alerts, transition_scan(cs, alerts, m).1);
}

proof fn lemma_decimal_digits(n: nat)
    ensures
        decimal(n).len() > 0,
        forall|i: int| 0 <= i < decimal(n).len() ==> crate::text::is_digit(#[trigger] decimal(n)[i]),
    decreases n,
{
    if n >= 10 {
        lemma_decimal_digits(n / 10);
    }
}

proof fn lemma_split_last_bar(sa: Seq<char>, da: Seq<char>, sb: Seq<char>, db: Seq<char>)
    requires
        sa + "|"@ + da == sb + "|"@ + db,
        forall|i: int| 0 <= i < da.len() ==> crate::text::is_digit(#[trigger] da[i]),
        forall|i: int| 0 <= i < db.len() ==> crate::text::is_digit(#[trigger] db[i]),
    ensures
        sa == sb,
{
    reveal_strlit("|");
    let bar = "|"@;
    assert(bar.len() == 1 && bar[0] == '|');
    let xa = sa + bar;
    let yb = sb + bar;
    let x = xa + da;
    let y = yb + db;
    assert(x.len() == y.len());
    if da.len() < db.len() {
        let p = sa.len() as int;
        assert(xa[p] == '|');
        assert(x[p] == xa[p]);
        assert(p >= yb.len());
        assert(y[p] == db[p - yb.len()]);
        assert(crate::text::is_digit(db[p - yb.len()]));
        assert(false);
    } else if db.len() < da.len() {
        let p = sb.len() as int;
        assert(yb[p] == '|');
        assert(y[p] == yb[p]);
        assert(p >= xa.len());
        assert(x[p] == da[p - xa.len()]);
        assert(crate::text::is_digit(da[p - xa.len()]));
        assert(false);
    } else {
        assert(sa =~= x.take(sa.len() as int));
        assert(sb =~= y.take(sb.len() as int));
    }
}

proof fn lemma_advance_key_state(a: CycleAlert, b: CycleAlert)
    requires
        advance_key(a) == advance_key(b),
        a.location@ == b.location@,
    ensures
        a.state@ == b.state@,
{
    lemma_decimal_digits(a.advance_minutes as nat);
    lemma_decimal_digits(b.advance_minutes as nat);
    let l = a.location@ + "|"@;
    let ta = a.state@ + "|"@ + decimal(a.advance_minutes as nat);
    let tb = b.state@ + "|"@ + decimal(b.advance_minutes as nat);
    assert(advance_key(a) =~= l + ta);
    assert(advance_key(b) =~= l + tb);
    assert(ta =~= (l + ta).skip(l.len() as int));
    assert(tb =~= (l + tb).skip(l.len() as int));
    lemma_split_last_bar(a.state@, decimal(a.advance_minutes as nat), b.state@, decimal(b.advance_minutes as nat));
}

/// The rule `a` is due: it applies, its target state is not current and the
/// phase has at most its lead time left.
pub open spec fn advance_due(cs: Seq<CycleInfo>, a: CycleAlert) -> bool {
    &&& advance_applies(cs, a)
    &&& find_cycle(cs, a.location@)->0.state@ != a.state@
    &&& find_cycle(cs, a.location@)->0.remain_ms <= a.advance_minutes * 60000
}

proof fn lemma_advance_scan_split(cs: Seq<CycleAlert>, k: int)
    requires
        0 <= k < cs.len(),
    ensures
        cs.take(k + 1).drop_last() == cs.take(k),
        cs.take(k + 1).last() == cs[k],
{
    assert(cs.take(k + 1).drop_last() =~= cs.take(k));
}

proof fn lemma_advance_keeps_due(cs: Seq<CycleInfo>, alerts: Seq<CycleAlert>, s: Set<Seq<char>>, k: int)
    requires
        0 <= k <= alerts.len(),
    ensures
        forall|j: int|
            0 <= j < k && advance_due(cs, #[trigger] alerts[j]) ==> advance_scan(cs, alerts.take(k), s).1.contains(
                advance_key(alerts[j]),
            ),
    decreases k,
{
    if k > 0 {
        lemma_advance_keeps_due(cs, alerts, s, k - 1);
        lemma_advance_scan_split(alerts, k - 1);
        let prev = advance_scan(cs, alerts.take(k - 1), s).1;
        let a = alerts[k - 1];
        assert forall|j: int| 0 <= j < k && advance_due(cs, #[trigger] alerts[j]) implies advance_scan(
            cs,
            alerts.take(k),
            s,
        ).1.contains(advance_key(alerts[j])) by {
            let b = alerts[j];
            if j < k - 1 {
                if advance_applies(cs, a) && find_cycle(cs, a.location@)->0.state@ == a.state@
                    && advance_key(a) == advance_key(b) {
                    lemma_advance_key_state(a, b);
                }
            }
        }
    }
}

proof fn lemma_advance_quiet(cs: Seq<CycleInfo>, alerts: Seq<CycleAlert>, s: Set<Seq<char>>, k: int)
    requires
        0 <= k <= alerts.len(),
        forall|j: int| 0 <= j < alerts.len() && advance_due(cs, #[trigger] alerts[j]) ==> s.contains(advance_key(alerts[j])),
    ensures
        advance_scan(cs, alerts.take(k), s).0.len() == 0,
        forall|j: int|
            0 <= j < alerts.len() && advance_due(cs, #[trigger] alerts[j]) ==> advance_scan(
                cs,
                alerts.take(k),
                s,
            ).1.contains(advance_key(alerts[j])),
    decreases k,
{
    if k == 0 {
        assert(alerts.take(0) =~= Seq::<CycleAlert>::empty());
    } else {
        lemma_advance_quiet(cs, alerts, s, k - 1);
        lemma_advance_scan_split(alerts, k - 1);
        let prev = advance_scan(cs, alerts.take(k - 1), s).1;
        let a = alerts[k - 1];
        assert(advance_due(cs, a) ==> prev.contains(advance_key(a)));
        assert forall|j: int| 0 <= j < alerts.len() && advance_due(cs, #[trigger] alerts[j]) implies advance_scan(
            cs,
            alerts.take(k),
            s,
        ).1.contains(advance_key(alerts[j])) by {
            let b = alerts[j];
            if advance_applies(cs, a) && find_cycle(cs, a.location@)->0.state@ == a.state@ && advance_key(a)
                == advance_key(b) {
                lemma_advance_key_state(a, b);
            }
        }
    }
}

/// Re-checking the same cycles with the same advance rules right after a
/// check notifies nothing: an advance notice fires once per phase.
pub proof fn lemma_cycle_advance_no_repeat(
    cs: Seq<CycleInfo>,
    alerts: Seq<CycleAlert>,
    fired: Set<Seq<char>>,
)
    ensures
        advance_scan(cs, alerts, advance_scan(cs, alerts, fired).1).0.len() == 0,
{
    lemma_advance_keeps_due(cs, alerts, fired, alerts.len() as int);
    assert(alerts.take(alerts.len() as int) =~= alerts);
    let s = advance_scan(cs, alerts, fired).1;
    lemma_advance_quiet(cs, alerts, s, alerts.len() as int);
}


// ── The popup's list ────────────────────────────────────────────────────────

/// The popup keeps at most this many notifications.
pub const NOTIFY_CAP: usize = 50;

/// The popup's list after a notification arrives: newest first, the oldest
/// dropped beyond the cap.
pub open spec fn with_notice(list: Seq<SubNotify>, n: SubNotify) -> Seq<SubNotify> {
    let full = seq![n] + list;
    if full.len() > NOTIFY_CAP {
        full.take(NOTIFY_CAP as int)
    } else {
        full
    }
}

/// Record an arrived notification in the popup's list.
pub fn record_notification(list: &mut Vec<SubNotify>, n: SubNotify)
    ensures
        final(list)@ == with_notice(old(list)@, n),
        final(list)@.len() <= NOTIFY_CAP,
        old(list)@.len() <= NOTIFY_CAP ==> final(list)@.len() == if old(list)@.len() == NOTIFY_CAP {
            NOTIFY_CAP as nat
        } else {
            old(list)@.len() + 1
        },
{
    list.insert(0, n);
    assert(list@ =~= seq![n] + old(list)@);
    if list.len() > NOTIFY_CAP {
        list.truncate(NOTIFY_CAP);
    }
}

/// The popup's list after notifications `ns` arrive in turn, `ns[0]` first.
pub open spec fn after_notices(list: Seq<SubNotify>, ns: Seq<SubNotify>) -> Seq<SubNotify>
    decreases ns.len(),
{
    if ns.len() == 0 {
        list
    } else {
        with_notice(after_notices(list, ns.drop_last()), ns.last())
    }
}

/// However many notifications arrive, the popup's list (never longer than
/// `NOTIFY_CAP`) holds the newest ones, newest first, followed by what it
/// held before, at most `NOTIFY_CAP` in all.
pub proof fn lemma_notices_keep_newest(list: Seq<SubNotify>, ns: Seq<SubNotify>)
    requires
        list.len() <= NOTIFY_CAP,
    ensures
        after_notices(list, ns) == ({
            let full = ns.reverse() + list;
            if full.len() > NOTIFY_CAP {
                full.take(NOTIFY_CAP as int)
            } else {
                full
            }
        }),
    decreases ns.len(),
{
    if ns.len() == 0 {
        assert(ns.reverse() + list =~= list);
    } else {
        let x = ns.last();
        let dl = ns.drop_last();
        lemma_notices_keep_newest(list, dl);
        let a = dl.reverse() + list;
        assert(ns.reverse() + list =~= seq![x] + a);
        let capped_a = if a.len() > NOTIFY_CAP {
            a.take(NOTIFY_CAP as int)
        } else {
            a
        };
        let full = seq![x] + a;
        assert(after_notices(list, dl) == capped_a);
        assert(after_notices(list, ns) == with_notice(capped_a, x));
        if full.len() > NOTIFY_CAP {
            assert((seq![x] + capped_a).len() > NOTIFY_CAP);
            assert((seq![x] + capped_a).take(NOTIFY_CAP as int) =~= full.take(NOTIFY_CAP as int));
        } else {
            assert(seq![x] + capped_a =~= full);
        }
    }
}

} // verus!
