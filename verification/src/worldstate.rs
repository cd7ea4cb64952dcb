//! World-state parsing: fissures, open-world cycles and the countdown text.

use vstd::prelude::*;
use crate::json::{array_of, as_array, as_bool, as_i64, as_str, at, bool_of, i64_of, index, str_of, Json};
use crate::models::{CycleInfo, Fissure};
use crate::decimal::{float_text_value, float_text_to_i64};
use crate::text::{
    decimal, has_prefix, owned, pad2, parse_i64, push_decimal, push_pad2, push_str, starts_with,
    str_eq, str_to_i64,
};

verus! {

/// Timestamps below this are seconds, at or above it milliseconds.
pub const SEC_MS_THRESHOLD: i64 = 100000000000;
/// A fissure closer than this to its expiry is "expiring".
pub const EXPIRY_WARN_MS: i64 = 300000;

pub const VALLIS_EPOCH: i64 = 1541837628000;
pub const VALLIS_CYCLE: i64 = 1600000;
pub const VALLIS_WARM: i64 = 400000;

pub const DUVIRI_EPOCH: i64 = 1675000000000;
pub const DUVIRI_CYCLE: i64 = 7200000;

// ── Time ─────────────────────────────────────────────────────────────────────

/// The wall clock in milliseconds since the Unix epoch; a clock set before
/// 1970 reads as 0. Nothing is stated of the value: it is the machine's
/// clock.
pub fn now_ms() -> i64 {
    crate::clock::epoch_millis()
}

/// Seconds become milliseconds; values at or above the threshold are kept.
pub open spec fn to_ms_value(v: i64) -> i64 {
    if v < SEC_MS_THRESHOLD {
        v.wrapping_mul(1000)
    } else {
        v
    }
}

/// Convert seconds to milliseconds if needed (threshold 10^11).
pub fn to_ms(v: i64) -> (r: i64)
    ensures
        r == to_ms_value(v),
{
    if v < SEC_MS_THRESHOLD {
        v.wrapping_mul(1000)
    } else {
        v
    }
}

/// A timestamp written as text: its integer value (0 when it is not one).
pub open spec fn text_ms(s: Seq<char>) -> i64 {
    to_ms_value(
        match parse_i64(s) {
            Some(v) => v as i64,
            None => 0,
        },
    )
}

/// A timestamp written as a floating-point number: its value truncated
/// toward zero (0 when it is not one).
pub open spec fn double_text_ms(s: Seq<char>) -> i64 {
    to_ms_value(
        match float_text_value(s) {
            Some(v) => v,
            None => 0,
        },
    )
}

/// The millisecond timestamp of a world-state date: a plain number or
/// numeric string, or MongoDB extended JSON (`{"$date": ...}` with a number,
/// a string, or `{"$numberLong": ...}` / `{"$numberDouble": "..."}`, the
/// latter a floating-point text such as `1.72e12`).
/// Anything else is 0.
pub open spec fn ms_of(v: Json) -> i64 {
    match v {
        Json::Number(_) => to_ms_value(
            match i64_of(v) {
                Some(n) => n,
                None => 0,
            },
        ),
        Json::Object(_) => {
            let d = index(v, "$date"@);
            match d {
                Json::Number(_) => to_ms_value(
                    match i64_of(d) {
                        Some(n) => n,
                        None => 0,
                    },
                ),
                Json::Object(_) => {
                    let nl = index(d, "$numberLong"@);
                    let nd = index(d, "$numberDouble"@);
                    if str_of(nl) is Some {
                        text_ms(str_of(nl)->0)
                    } else if i64_of(nl) is Some {
                        to_ms_value(i64_of(nl)->0)
                    } else if str_of(nd) is Some {
                        double_text_ms(str_of(nd)->0)
                    } else {
                        0
                    }
                },
                Json::Str(s) => text_ms(s@),
                _ => 0,
            }
        },
        Json::Str(s) => text_ms(s@),
        _ => 0,
    }
}

fn text_to_ms(s: &str) -> (r: i64)
    ensures
        r == text_ms(s@),
{
    to_ms(
        match str_to_i64(s) {
            Some(v) => v,
            None => 0,
        },
    )
}

/// Parse a MongoDB extended JSON date value into a millisecond timestamp.
pub fn get_ms(val: &Json) -> (r: i64)
    ensures
        r == ms_of(*val),
{
    match val {
        Json::Number(_) => to_ms(
            match as_i64(Some(val)) {
                Some(n) => n,
                None => 0,
            },
        ),
        Json::Object(_) => {
            let d = at(Some(val), "$date");
            match d {
                Some(Json::Number(_)) => to_ms(
                    match as_i64(d) {
                        Some(n) => n,
                        None => 0,
                    },
                ),
                Some(Json::Object(_)) => {
                    let nl = at(d, "$numberLong");
                    if let Some(s) = as_str(nl) {
                        return text_to_ms(s);
                    }
                    if let Some(n) = as_i64(nl) {
                        return to_ms(n);
                    }
                    let nd = at(d, "$numberDouble");
                    if let Some(s) = as_str(nd) {
                        return to_ms(
                            match float_text_to_i64(s) {
                                Some(v) => v,
                                None => 0,
                            },
                        );
                    }
                    0
                },
                Some(Json::Str(s)) => text_to_ms(s.as_str()),
                _ => 0,
            }
        },
        Json::Str(s) => text_to_ms(s.as_str()),
        _ => 0,
    }
}

/// `activation <= now < expiry`.
pub open spec fn active_at(activation: Json, expiry: Json, now: i64) -> bool {
    ms_of(activation) <= now && now < ms_of(expiry)
}

/// Check if a mission is active at `now`: activation <= now < expiry.
pub fn is_active_at(activation: &Json, expiry: &Json, now: i64) -> (r: bool)
    ensures
        r == active_at(*activation, *expiry, now),
{
    get_ms(activation) <= now && now < get_ms(expiry)
}

/// Text of a remaining time: `切换中` when zero or negative, otherwise
/// `Xh XXm XXs`, `Xm XXs` or `Xs`.
pub open spec fn remain_text(ms: i64) -> Seq<char> {
    if ms <= 0 {
        "切换中"@
    } else {
        let t = ms / 1000;
        let h = t / 3600;
        let m = (t % 3600) / 60;
        let s = t % 60;
        if h > 0 {
            decimal(h as nat) + "h "@ + pad2(m as nat) + "m "@ + pad2(s as nat) + "s"@
        } else if m > 0 {
            decimal(m as nat) + "m "@ + pad2(s as nat) + "s"@
        } else {
            decimal(s as nat) + "s"@
        }
    }
}

/// A countdown's text shows its whole seconds split into hours, minutes
/// (below 60) and seconds (below 60): `Hh MMm SSs` with at least an hour
/// left, `Mm SSs` with at least a minute, `Ss` below that, and `切换中`
/// once nothing is left.
pub proof fn lemma_remain_text_splits(ms: i64)
    ensures
        ms <= 0 ==> remain_text(ms) == "切换中"@,
        ms > 0 ==> exists|h: nat, m: nat, s: nat|
            m < 60 && s < 60 && #[trigger] (h * 3600 + m * 60 + s) == ms / 1000 && remain_text(ms) == (if h > 0 {
                decimal(h) + "h "@ + pad2(m) + "m "@ + pad2(s) + "s"@
            } else if m > 0 {
                decimal(m) + "m "@ + pad2(s) + "s"@
            } else {
                decimal(s) + "s"@
            }),
{
    if ms > 0 {
        let t = ms / 1000;
        let h = t / 3600;
        let r = t % 3600;
        let m = r / 60;
        let s = t % 60;
        vstd::arithmetic::div_mod::lemma_fundamental_div_mod(t as int, 3600);
        vstd::arithmetic::div_mod::lemma_fundamental_div_mod(r as int, 60);
        vstd::arithmetic::div_mod::lemma_mod_mod(t as int, 60, 60);
        assert(r % 60 == s);
        assert(0 <= r < 3600 && m < 60 && s < 60);
        assert(h as nat * 3600 + m as nat * 60 + s as nat == t);
    }
}

/// Format remaining milliseconds to a Chinese time string.
pub fn fmt_remain(ms: i64) -> (r: String)
    ensures
        r@ == remain_text(ms),
{
    if ms <= 0 {
        return owned("切换中");
    }
    let total_secs = (ms / 1000) as u64;
    let hours = total_secs / 3600;
    let minutes = (total_secs % 3600) / 60;
    let seconds = total_secs % 60;
    let mut r = String::new();
    if hours > 0 {
        push_decimal(&mut r, hours);
        push_str(&mut r, "h ");
        push_pad2(&mut r, minutes);
        push_str(&mut r, "m ");
        push_pad2(&mut r, seconds);
        push_str(&mut r, "s");
    } else if minutes > 0 {
        push_decimal(&mut r, minutes);
        push_str(&mut r, "m ");
        push_pad2(&mut r, seconds);
        push_str(&mut r, "s");
    } else {
        push_decimal(&mut r, seconds);
        push_str(&mut r, "s");
    }
    assert(r@ =~= remain_text(ms));
    r
}


// ── Fissures ─────────────────────────────────────────────────────────────────

/// `v.as_str().unwrap_or("")`.
pub open spec fn str_or_empty(v: Json) -> Seq<char> {
    match str_of(v) {
        Some(s) => s,
        None => Seq::empty(),
    }
}

fn str_or_empty_exec<'a>(v: Option<&'a Json>) -> (r: &'a str)
    ensures
        r@ == str_or_empty(crate::json::or_null(v)),
{
    proof {
        reveal_strlit("");
    }
    match as_str(v) {
        Some(s) => s,
        None => "",
    }
}

/// The relic tier key of a fissure entry (`ActiveMissionTier` for railjack
/// storms, `Modifier` otherwise).
pub open spec fn tier_key_of(m: Json, is_storm: bool) -> Seq<char> {
    if is_storm {
        str_or_empty(index(m, "ActiveMissionTier"@))
    } else {
        str_or_empty(index(m, "Modifier"@))
    }
}

/// `f` is the fissure that the world-state entry `m` describes at `now`.
pub open spec fn fissure_of(f: Fissure, m: Json, is_storm: bool, is_hard: bool, now: i64) -> bool {
    let key = str_or_empty(index(m, "Node"@));
    let info = node_info(key);
    let tier = tier_key_of(m, is_storm);
    let expiry = ms_of(index(m, "Expiry"@));
    let remain = expiry.wrapping_sub(now);
    &&& f.node_key@ == key
    &&& f.node_name@ == (if info.name@.len() == 0 {
        key
    } else {
        info.name@
    })
    &&& f.planet@ == info.planet@
    &&& f.mission_type@ == (if is_storm {
        if info.mission@.len() == 0 {
            "--"@
        } else {
            info.mission@
        }
    } else {
        mission_type_text(str_or_empty(index(m, "MissionType"@)))
    })
    &&& f.tier_key@ == tier
    &&& f.tier_label@ == tier_label_text(tier)
    &&& f.expiry_ms == expiry
    &&& f.is_hard == is_hard
    &&& f.is_storm == is_storm
    &&& f.remain_ms == remain
    &&& f.remain_str@ == remain_text(remain)
    &&& f.is_expiring == (remain > 0 && remain < EXPIRY_WARN_MS)
}

/// Parse a single fissure entry at time `now`.
pub fn parse_fissure(m: &Json, is_storm: bool, now: i64) -> (f: Fissure)
    ensures
        fissure_of(f, *m, is_storm, false, now),
{
    let node_key = owned(str_or_empty_exec(at(Some(m), "Node")));
    let info = node_lookup(node_key.as_str());
    let node_name = if info.name.is_empty() {
        node_key.clone()
    } else {
        owned(info.name)
    };
    let planet = owned(info.planet);
    let mission_type_name = if is_storm {
        if info.mission.is_empty() {
            owned("--")
        } else {
            owned(info.mission)
        }
    } else {
        owned(mission_type(str_or_empty_exec(at(Some(m), "MissionType"))))
    };
    let tier_key = if is_storm {
        owned(str_or_empty_exec(at(Some(m), "ActiveMissionTier")))
    } else {
        owned(str_or_empty_exec(at(Some(m), "Modifier")))
    };
    let tier_label_val = tier_label(tier_key.as_str());
    let expiry_ms = match at(Some(m), "Expiry") {
        Some(e) => get_ms(e),
        None => 0,
    };
    let remain_ms = expiry_ms.wrapping_sub(now);
    let remain_str = fmt_remain(remain_ms);
    let is_expiring = remain_ms > 0 && remain_ms < EXPIRY_WARN_MS;
    Fissure {
        node_key,
        node_name,
        planet,
        mission_type: mission_type_name,
        tier_key,
        tier_label: tier_label_val,
        expiry_ms,
        is_hard: false,
        is_storm,
        remain_ms,
        remain_str,
        is_expiring,
    }
}

/// `m["Hard"].as_bool().unwrap_or(false)`.
pub open spec fn hard_flag(m: Json) -> bool {
    match bool_of(index(m, "Hard"@)) {
        Some(b) => b,
        None => false,
    }
}

/// An `ActiveMissions` entry is a void fissure at `now`: its `Modifier`
/// starts with `VoidT` and it is active.
pub open spec fn is_fissure_mission(m: Json, now: i64) -> bool {
    &&& has_prefix(str_or_empty(index(m, "Modifier"@)), "VoidT"@)
    &&& active_at(index(m, "Activation"@), index(m, "Expiry"@), now)
}

/// Group 0 (normal) and 1 (Steel Path) take `ActiveMissions` fissures by
/// their `Hard` flag; group 2 (railjack storms) takes every active
/// `VoidStorms` entry.
pub open spec fn in_group(m: Json, now: i64, group: int) -> bool {
    if group == 2 {
        active_at(index(m, "Activation"@), index(m, "Expiry"@), now)
    } else {
        is_fissure_mission(m, now) && hard_flag(m) == (group == 1)
    }
}

/// The entries of `ms` in `group` whose tier rank is `tier`, in order.
pub open spec fn pick(ms: Seq<Json>, now: i64, group: int, tier: nat) -> Seq<Json>
    decreases ms.len(),
{
    if ms.len() == 0 {
        Seq::empty()
    } else {
        let rest = pick(ms.drop_last(), now, group, tier);
        let m = ms.last();
        if in_group(m, now, group) && tier_rank(tier_key_of(m, group == 2)) == tier {
            rest.push(m)
        } else {
            rest
        }
    }
}

/// The entries of `ms` in `group`, stably sorted by tier rank.
pub open spec fn grouped(ms: Seq<Json>, now: i64, group: int) -> Seq<Json> {
    pick(ms, now, group, 1) + pick(ms, now, group, 2) + pick(ms, now, group, 3) + pick(
        ms,
        now,
        group,
        4,
    ) + pick(ms, now, group, 5) + pick(ms, now, group, 6) + pick(ms, now, group, 99)
}

/// `data[key].as_array()`, empty when absent.
pub open spec fn entries(data: Json, key: Seq<char>) -> Seq<Json> {
    match array_of(index(data, key)) {
        Some(a) => a,
        None => Seq::empty(),
    }
}

/// Each fissure of `fs` is the one its entry of `ms` describes.
pub open spec fn fissures_of(
    fs: Seq<Fissure>,
    ms: Seq<Json>,
    is_storm: bool,
    is_hard: bool,
    now: i64,
) -> bool {
    &&& fs.len() == ms.len()
    &&& forall|i: int| 0 <= i < fs.len() ==> fissure_of(#[trigger] fs[i], ms[i], is_storm, is_hard, now)
}

fn collect_tier(
    ms: &Vec<Json>,
    now: i64,
    group: u8,
    tier: usize,
    out: &mut Vec<Fissure>,
    Ghost(prev): Ghost<Seq<Json>>,
)
    requires
        group <= 2,
        tier == 1 || tier == 2 || tier == 3 || tier == 4 || tier == 5 || tier == 6 || tier == 99,
        fissures_of(old(out)@, prev, group == 2, group == 1, now),
    ensures
        fissures_of(final(out)@, prev + pick(ms@, now, group as int, tier as nat), group == 2, group == 1, now),
{
    let is_storm = group == 2;
    let mut i: usize = 0;
    assert(ms@.take(0) =~= Seq::<Json>::empty());
    assert(prev + pick(ms@.take(0), now, group as int, tier as nat) =~= prev);
    while i < ms.len()
        invariant
            i <= ms@.len(),
            group <= 2,
            is_storm == (group == 2),
            fissures_of(out@, prev + pick(ms@.take(i as int), now, group as int, tier as nat), is_storm, group == 1, now),
        decreases ms@.len() - i,
    {
        let m = &ms[i];
        let ghost before = out@;
        assert(ms@.take(i + 1).drop_last() =~= ms@.take(i as int));
        assert(ms@.take(i + 1).last() == ms@[i as int]);
        let act = at(Some(m), "Activation");
        let exp = at(Some(m), "Expiry");
        let active = get_ms(match act { Some(a) => a, None => &Json::Null }) <= now
            && now < get_ms(match exp { Some(e) => e, None => &Json::Null });
        let wanted = if is_storm {
            active
        } else {
            let modifier = str_or_empty_exec(at(Some(m), "Modifier"));
            let hard = match as_bool(at(Some(m), "Hard")) {
                Some(b) => b,
                None => false,
            };
            starts_with(modifier, "VoidT") && active && hard == (group == 1)
        };
        if wanted {
            let key = if is_storm {
                str_or_empty_exec(at(Some(m), "ActiveMissionTier"))
            } else {
                str_or_empty_exec(at(Some(m), "Modifier"))
            };
            if tier_order(key) == tier {
                let mut f = parse_fissure(m, is_storm, now);
                f.is_hard = group == 1;
                out.push(f);
                assert(out@ =~= before.push(f));
            }
        }
        assert(prev + pick(ms@.take(i + 1), now, group as int, tier as nat) =~= (if wanted
            && tier_rank(tier_key_of(ms@[i as int], is_storm)) == tier {
            (prev + pick(ms@.take(i as int), now, group as int, tier as nat)).push(ms@[i as int])
        } else {
            prev + pick(ms@.take(i as int), now, group as int, tier as nat)
        }));
        i = i + 1;
    }
    assert(ms@.take(ms@.len() as int) =~= ms@);
}

fn collect_group(ms: &Vec<Json>, now: i64, group: u8) -> (out: Vec<Fissure>)
    requires
        group <= 2,
    ensures
        fissures_of(out@, grouped(ms@, now, group as int), group == 2, group == 1, now),
{
    let mut out: Vec<Fissure> = Vec::new();
    let ghost g = group as int;
    assert(fissures_of(out@, Seq::<Json>::empty(), group == 2, group == 1, now));
    collect_tier(ms, now, group, 1, &mut out, Ghost(Seq::empty()));
    assert(Seq::<Json>::empty() + pick(ms@, now, g, 1) =~= pick(ms@, now, g, 1));
    collect_tier(ms, now, group, 2, &mut out, Ghost(pick(ms@, now, g, 1)));
    collect_tier(ms, now, group, 3, &mut out, Ghost(pick(ms@, now, g, 1) + pick(ms@, now, g, 2)));
    collect_tier(
        ms,
        now,
        group,
        4,
        &mut out,
        Ghost(pick(ms@, now, g, 1) + pick(ms@, now, g, 2) + pick(ms@, now, g, 3)),
    );
    collect_tier(
        ms,
        now,
        group,
        5,
        &mut out,
        Ghost(pick(ms@, now, g, 1) + pick(ms@, now, g, 2) + pick(ms@, now, g, 3) + pick(ms@, now, g, 4)),
    );
    collect_tier(
        ms,
        now,
        group,
        6,
        &mut out,
        Ghost(
            pick(ms@, now, g, 1) + pick(ms@, now, g, 2) + pick(ms@, now, g, 3) + pick(ms@, now, g, 4)
                + pick(ms@, now, g, 5),
        ),
    );
    collect_tier(
        ms,
        now,
        group,
        99,
        &mut out,
        Ghost(
            pick(ms@, now, g, 1) + pick(ms@, now, g, 2) + pick(ms@, now, g, 3) + pick(ms@, now, g, 4)
                + pick(ms@, now, g, 5) + pick(ms@, now, g, 6),
        ),
    );
    out
}

/// The entries of `s` are in nondecreasing tier rank.
pub open spec fn rank_sorted(s: Seq<Json>, storm: bool) -> bool {
    forall|i: int, j: int|
        0 <= i < j < s.len() ==> tier_rank(tier_key_of(#[trigger] s[i], storm)) <= tier_rank(
            tier_key_of(#[trigger] s[j], storm),
        )
}

/// Every entry of `s` has a tier rank within `lo..=hi`.
pub open spec fn ranks_within(s: Seq<Json>, storm: bool, lo: nat, hi: nat) -> bool {
    forall|k: int| 0 <= k < s.len() ==> lo <= #[trigger] tier_rank(tier_key_of(s[k], storm)) <= hi
}

proof fn lemma_pick_rank(ms: Seq<Json>, now: i64, group: int, tier: nat)
    ensures
        ranks_within(pick(ms, now, group, tier), group == 2, tier, tier),
        rank_sorted(pick(ms, now, group, tier), group == 2),
    decreases ms.len(),
{
    if ms.len() > 0 {
        lemma_pick_rank(ms.drop_last(), now, group, tier);
    }
}

proof fn lemma_concat_sorted(a: Seq<Json>, b: Seq<Json>, storm: bool, lo: nat, mid: nat, hi: nat)
    requires
        rank_sorted(a, storm),
        rank_sorted(b, storm),
        ranks_within(a, storm, lo, mid),
        ranks_within(b, storm, mid, hi),
        lo <= mid <= hi,
    ensures
        rank_sorted(a + b, storm),
        ranks_within(a + b, storm, lo, hi),
{
    assert forall|i: int, j: int| 0 <= i < j < (a + b).len() implies tier_rank(
        tier_key_of(#[trigger] (a + b)[i], storm),
    ) <= tier_rank(tier_key_of(#[trigger] (a + b)[j], storm)) by {
        if j < a.len() {
            assert((a + b)[i] == a[i] && (a + b)[j] == a[j]);
        } else if i >= a.len() {
            assert((a + b)[i] == b[i - a.len()] && (a + b)[j] == b[j - a.len()]);
        } else {
            assert((a + b)[i] == a[i] && (a + b)[j] == b[j - a.len()]);
            assert(tier_rank(tier_key_of(a[i], storm)) <= mid);
            assert(mid <= tier_rank(tier_key_of(b[j - a.len()], storm)));
        }
    }
    assert forall|k: int| 0 <= k < (a + b).len() implies lo <= #[trigger] tier_rank(
        tier_key_of((a + b)[k], storm),
    ) <= hi by {
        if k < a.len() {
            assert((a + b)[k] == a[k]);
            assert(tier_rank(tier_key_of(a[k], storm)) <= mid);
        } else {
            assert((a + b)[k] == b[k - a.len()]);
        }
    }
}

/// The entries of a group are in tier order.
pub proof fn lemma_grouped_sorted(ms: Seq<Json>, now: i64, group: int)
    ensures
        rank_sorted(grouped(ms, now, group), group == 2),
{
    let st = group == 2;
    lemma_pick_rank(ms, now, group, 1);
    lemma_pick_rank(ms, now, group, 2);
    lemma_pick_rank(ms, now, group, 3);
    lemma_pick_rank(ms, now, group, 4);
    lemma_pick_rank(ms, now, group, 5);
    lemma_pick_rank(ms, now, group, 6);
    lemma_pick_rank(ms, now, group, 99);
    let p1 = pick(ms, now, group, 1);
    let p2 = pick(ms, now, group, 2);
    let p3 = pick(ms, now, group, 3);
    let p4 = pick(ms, now, group, 4);
    let p5 = pick(ms, now, group, 5);
    let p6 = pick(ms, now, group, 6);
    let p7 = pick(ms, now, group, 99);
    lemma_concat_sorted(p1, p2, st, 1, 1, 2);
    lemma_concat_sorted(p1 + p2, p3, st, 1, 2, 3);
    lemma_concat_sorted(p1 + p2 + p3, p4, st, 1, 3, 4);
    lemma_concat_sorted(p1 + p2 + p3 + p4, p5, st, 1, 4, 5);
    lemma_concat_sorted(p1 + p2 + p3 + p4 + p5, p6, st, 1, 5, 6);
    lemma_concat_sorted(p1 + p2 + p3 + p4 + p5 + p6, p7, st, 1, 6, 99);
}

/// Earlier fissures of `fs` are of no later relic era.
pub open spec fn relic_era_sorted(fs: Seq<Fissure>) -> bool {
    forall|i: int, j: int| 0 <= i < j < fs.len() ==> relic_era(#[trigger] fs[i].tier_key@) <= relic_era(#[trigger] fs[j].tier_key@)
}

/// A list in tier order is in relic-era order: Lith before Meso before Neo
/// before Axi before Requiem before Omnia, any other key last.
pub proof fn lemma_sorted_by_era(fs: Seq<Fissure>)
    requires
        forall|i: int, j: int| 0 <= i < j < fs.len() ==> tier_rank(#[trigger] fs[i].tier_key@) <= tier_rank(#[trigger] fs[j].tier_key@),
    ensures
        relic_era_sorted(fs),
{
    assert forall|i: int, j: int| 0 <= i < j < fs.len() implies relic_era(#[trigger] fs[i].tier_key@) <= relic_era(#[trigger] fs[j].tier_key@) by {
        lemma_tier_rank_is_era(fs[i].tier_key@);
        lemma_tier_rank_is_era(fs[j].tier_key@);
    }
}

/// Parse all fissures of a world state at time `now`: the normal, Steel
/// Path and railjack-storm fissures, each stably sorted by tier order.
pub fn parse_fissures_at(data: &Json, now: i64) -> (r: (Vec<Fissure>, Vec<Fissure>, Vec<Fissure>))
    ensures
        fissures_of(r.0@, grouped(entries(*data, "ActiveMissions"@), now, 0), false, false, now),
        fissures_of(r.1@, grouped(entries(*data, "ActiveMissions"@), now, 1), false, true, now),
        fissures_of(r.2@, grouped(entries(*data, "VoidStorms"@), now, 2), true, false, now),
        forall|i: int, j: int|
            0 <= i < j < r.0@.len() ==> tier_rank(#[trigger] r.0@[i].tier_key@) <= tier_rank(
                #[trigger] r.0@[j].tier_key@,
            ),
        forall|i: int, j: int|
            0 <= i < j < r.1@.len() ==> tier_rank(#[trigger] r.1@[i].tier_key@) <= tier_rank(
                #[trigger] r.1@[j].tier_key@,
            ),
        forall|i: int, j: int|
            0 <= i < j < r.2@.len() ==> tier_rank(#[trigger] r.2@[i].tier_key@) <= tier_rank(
                #[trigger] r.2@[j].tier_key@,
            ),
        relic_era_sorted(r.0@),
        relic_era_sorted(r.1@),
        relic_era_sorted(r.2@),
{
    let empty: Vec<Json> = Vec::new();
    let missions = match as_array(at(Some(data), "ActiveMissions")) {
        Some(a) => a,
        None => &empty,
    };
    let storms = match as_array(at(Some(data), "VoidStorms")) {
        Some(a) => a,
        None => &empty,
    };
    proof {
        assert(empty@ =~= Seq::<Json>::empty());
    }
    let normal = collect_group(missions, now, 0);
    let hard = collect_group(missions, now, 1);
    let storm = collect_group(storms, now, 2);
    proof {
        let am = entries(*data, "ActiveMissions"@);
        let vs = entries(*data, "VoidStorms"@);
        lemma_grouped_sorted(am, now, 0);
        lemma_grouped_sorted(am, now, 1);
        lemma_grouped_sorted(vs, now, 2);
        assert forall|i: int, j: int| 0 <= i < j < normal@.len() implies tier_rank(
            #[trigger] normal@[i].tier_key@,
        ) <= tier_rank(#[trigger] normal@[j].tier_key@) by {
            assert(fissure_of(normal@[i], grouped(am, now, 0)[i], false, false, now));
            assert(fissure_of(normal@[j], grouped(am, now, 0)[j], false, false, now));
        }
        assert forall|i: int, j: int| 0 <= i < j < hard@.len() implies tier_rank(
            #[trigger] hard@[i].tier_key@,
        ) <= tier_rank(#[trigger] hard@[j].tier_key@) by {
            assert(fissure_of(hard@[i], grouped(am, now, 1)[i], false, true, now));
            assert(fissure_of(hard@[j], grouped(am, now, 1)[j], false, true, now));
        }
        assert forall|i: int, j: int| 0 <= i < j < storm@.len() implies tier_rank(
            #[trigger] storm@[i].tier_key@,
        ) <= tier_rank(#[trigger] storm@[j].tier_key@) by {
            assert(fissure_of(storm@[i], grouped(vs, now, 2)[i], true, false, now));
            assert(fissure_of(storm@[j], grouped(vs, now, 2)[j], true, false, now));
        }
    }
    proof {
        lemma_sorted_by_era(normal@);
        lemma_sorted_by_era(hard@);
        lemma_sorted_by_era(storm@);
    }
    (normal, hard, storm)
}

/// Parse all fissures from worldstate data at the current time.
pub fn parse_fissures(data: &Json) -> (r: (Vec<Fissure>, Vec<Fissure>, Vec<Fissure>))
    ensures
        exists|now: i64|
            {
                &&& fissures_of(r.0@, grouped(entries(*data, "ActiveMissions"@), now, 0), false, false, now)
                &&& fissures_of(r.1@, grouped(entries(*data, "ActiveMissions"@), now, 1), false, true, now)
                &&& fissures_of(r.2@, grouped(entries(*data, "VoidStorms"@), now, 2), true, false, now)
            },
{
    let now = now_ms();
    parse_fissures_at(data, now)
}


// ── Open-world cycles ────────────────────────────────────────────────────────

/// Rust's `%` on integers: the remainder takes the sign of the dividend.
pub open spec fn trem(x: int, y: int) -> int {
    if x >= 0 {
        x % y
    } else {
        -((-x) % y)
    }
}

/// Rust's `/` on integers: the quotient rounds toward zero.
pub open spec fn tdiv(x: int, y: int) -> int {
    if x >= 0 {
        x / y
    } else {
        -((-x) / y)
    }
}

/// The first entry of `es` with the given `Tag` that is active at `now`.
pub open spec fn first_active(es: Seq<Json>, tag: Seq<char>, now: i64) -> Option<Json>
    decreases es.len(),
{
    if es.len() == 0 {
        None
    } else if str_of(index(es[0], "Tag"@)) == Some(tag) && active_at(
        index(es[0], "Activation"@),
        index(es[0], "Expiry"@),
        now,
    ) {
        Some(es[0])
    } else {
        first_active(es.drop_first(), tag, now)
    }
}

/// The active syndicate mission with tag `tag`.
pub open spec fn active_syndicate(data: Json, tag: Seq<char>, now: i64) -> Option<Json> {
    first_active(entries(data, "SyndicateMissions"@), tag, now)
}

/// Find an active syndicate mission entry by tag.
pub fn find_active_syndicate<'a>(data: &'a Json, tag: &str, now: i64) -> (r: Option<&'a Json>)
    ensures
        r is Some <==> active_syndicate(*data, tag@, now) is Some,
        r matches Some(x) ==> active_syndicate(*data, tag@, now) == Some(*x),
{
    let arr = match as_array(at(Some(data), "SyndicateMissions")) {
        Some(a) => a,
        None => {
            return None;
        },
    };
    let mut i: usize = 0;
    assert(arr@.skip(0) =~= arr@);
    while i < arr.len()
        invariant
            i <= arr@.len(),
            arr@ == entries(*data, "SyndicateMissions"@),
            first_active(arr@, tag@, now) == first_active(arr@.skip(i as int), tag@, now),
        decreases arr@.len() - i,
    {
        assert(arr@.skip(i as int).drop_first() =~= arr@.skip(i + 1));
        let entry = &arr[i];
        let tag_ok = match as_str(at(Some(entry), "Tag")) {
            Some(t) => str_eq(t, tag),
            None => false,
        };
        if tag_ok {
            let activation = get_ms(match at(Some(entry), "Activation") {
                Some(a) => a,
                None => &Json::Null,
            });
            let expiry = get_ms(match at(Some(entry), "Expiry") {
                Some(e) => e,
                None => &Json::Null,
            });
            if activation <= now && now < expiry {
                return Some(entry);
            }
        }
        i = i + 1;
    }
    None
}

/// Expiry timestamp of the active syndicate mission with the given tag, or 0
/// when there is none.
pub fn active_syndicate_expiry(data: &Json, tag: &str, now: i64) -> (r: i64)
    ensures
        r == (match active_syndicate(*data, tag@, now) {
            Some(s) => ms_of(index(s, "Expiry"@)),
            None => 0,
        }),
{
    match find_active_syndicate(data, tag, now) {
        Some(s) => get_ms(match at(Some(s), "Expiry") {
            Some(e) => e,
            None => &Json::Null,
        }),
        None => 0,
    }
}

/// `c` is the cycle `name` in state `state` (icon `icon`), ending `remain`
/// milliseconds after `now`.
pub open spec fn cycle_is(
    c: CycleInfo,
    name: Seq<char>,
    state: Seq<char>,
    icon: Seq<char>,
    remain: i64,
    is_day: bool,
    now: i64,
) -> bool {
    &&& c.name@ == name
    &&& c.state@ == state
    &&& c.state_icon@ == icon
    &&& c.remain_ms == remain
    &&& c.is_day == is_day
    &&& c.remain_str@ == remain_text(remain)
    &&& c.expiry_ms == now.wrapping_add(remain)
}

fn make_cycle(name: &str, state: &str, icon: &str, remain: i64, is_day: bool, now: i64) -> (c: CycleInfo)
    ensures
        cycle_is(c, name@, state@, icon@, remain, is_day, now),
{
    CycleInfo {
        name: owned(name),
        state: owned(state),
        state_icon: owned(icon),
        remain_ms: remain,
        is_day,
        remain_str: fmt_remain(remain),
        expiry_ms: now.wrapping_add(remain),
    }
}

/// Day (`true`) or night of the zones that follow the `HexSyndicate`
/// bounties (Plains of Eidolon, Cambion Drift, Höllvania) at `now`, and the
/// milliseconds left in that phase: day bounties last over 90 minutes and
/// night starts 3 minutes before they end. `None` without an active
/// `HexSyndicate` bounty.
pub open spec fn plains_phase(data: Json, now: i64) -> Option<(bool, i64)> {
    match active_syndicate(data, "HexSyndicate"@, now) {
        Some(s) => {
            let activation = ms_of(index(s, "Activation"@));
            let expiry = ms_of(index(s, "Expiry"@));
            if expiry.wrapping_sub(activation) > 5400000 {
                let night_start = expiry.wrapping_sub(180000);
                Some((true, if now < night_start {
                    night_start.wrapping_sub(now)
                } else {
                    0
                }))
            } else {
                Some((false, expiry.wrapping_sub(now)))
            }
        },
        None => None,
    }
}

/// `c` is the cycle `name` of a zone that follows the `HexSyndicate`
/// bounties: day (`白天` ☀️) or night (`黑夜` 🌙) with the time left, or
/// `未知` (❓) and switching (no time left) without an active bounty.
pub open spec fn hex_cycle(c: CycleInfo, data: Json, name: Seq<char>, now: i64) -> bool {
    match plains_phase(data, now) {
        Some((day, remain)) => cycle_is(
            c,
            name,
            if day {
                "白天"@
            } else {
                "黑夜"@
            },
            if day {
                "☀️"@
            } else {
                "🌙"@
            },
            remain,
            day,
            now,
        ),
        None => cycle_is(c, name, "未知"@, "❓"@, 0, true, now),
    }
}

/// How long the active bounty of syndicate `tag` lasts (expiry minus
/// activation), when there is one.
pub open spec fn bounty_length(data: Json, tag: Seq<char>, now: i64) -> Option<i64> {
    match active_syndicate(data, tag, now) {
        Some(s) => Some(ms_of(index(s, "Expiry"@)).wrapping_sub(ms_of(index(s, "Activation"@)))),
        None => None,
    }
}

/// How long the active `HexSyndicate` bounty lasts, when there is one.
pub open spec fn hex_bounty_length(data: Json, now: i64) -> Option<i64> {
    bounty_length(data, "HexSyndicate"@, now)
}

/// The cycles that follow the `HexSyndicate` bounties are day (白天, ☀️)
/// while the active bounty lasts more than 90 minutes, night (黑夜, 🌙)
/// while it lasts no more, and unknown (未知, nothing left) without one.
pub proof fn lemma_hex_day_night(c: CycleInfo, data: Json, name: Seq<char>, now: i64)
    requires
        hex_cycle(c, data, name, now),
    ensures
        c.name@ == name,
        match hex_bounty_length(data, now) {
            Some(len) => if len > 5_400_000 {
                &&& c.state@ == "白天"@
                &&& c.state_icon@ == "☀️"@
                &&& c.is_day
            } else {
                &&& c.state@ == "黑夜"@
                &&& c.state_icon@ == "🌙"@
                &&& !c.is_day
            },
            None => c.state@ == "未知"@ && c.remain_ms == 0,
        },
{
}

/// Build the cycle of a zone that follows the `HexSyndicate` bounties
/// (Plains of Eidolon, Cambion Drift, Höllvania) at `now`.
pub fn parse_plains_cycle(data: &Json, name: &str, now: i64) -> (c: CycleInfo)
    ensures
        hex_cycle(c, *data, name@, now),
        match hex_bounty_length(*data, now) {
            Some(len) => if len > 5_400_000 {
                c.state@ == "白天"@ && c.is_day
            } else {
                c.state@ == "黑夜"@ && !c.is_day
            },
            None => c.state@ == "未知"@ && c.remain_ms == 0,
        },
{
    let c = if let Some(synd) = find_active_syndicate(data, "HexSyndicate", now) {
        let activation = get_ms(match at(Some(synd), "Activation") {
            Some(a) => a,
            None => &Json::Null,
        });
        let expiry = get_ms(match at(Some(synd), "Expiry") {
            Some(e) => e,
            None => &Json::Null,
        });
        let duration = expiry.wrapping_sub(activation);
        if duration > 5400000 {
            let night_start = expiry.wrapping_sub(180000);
            let remain = if now < night_start {
                night_start.wrapping_sub(now)
            } else {
                0
            };
            make_cycle(name, "白天", "☀️", remain, true, now)
        } else {
            let remain = expiry.wrapping_sub(now);
            make_cycle(name, "黑夜", "🌙", remain, false, now)
        }
    } else {
        make_cycle(name, "未知", "❓", 0, true, now)
    };
    proof {
        lemma_hex_day_night(c, *data, name@, now);
    }
    c
}

/// Milliseconds into the current Orb Vallis cycle.
pub open spec fn vallis_elapsed(now: i64) -> int {
    trem(now.wrapping_sub(VALLIS_EPOCH) as int, VALLIS_CYCLE as int)
}

/// `c` is the Orb Vallis phase at `now`: warming for the first part of
/// the cycle, then cold.
pub open spec fn is_vallis_cycle(c: CycleInfo, now: i64) -> bool {
    if vallis_elapsed(now) < VALLIS_WARM {
        cycle_is(c, "奥布山谷"@, "温度上升"@, "🌡️"@, (VALLIS_WARM - vallis_elapsed(now)) as i64, true, now)
    } else {
        cycle_is(c, "奥布山谷"@, "极寒"@, "❄️"@, (VALLIS_CYCLE - vallis_elapsed(now)) as i64, false, now)
    }
}

/// `c` is the Duviri mood at `now`.
pub open spec fn is_duviri_cycle(c: CycleInfo, now: i64) -> bool {
    cycle_is(c, "双衍王境"@, duviri_mood(duviri_index(now)), "🌀"@, duviri_remain(now), true, now)
}

/// Orb Vallis: 400 s warm then 1200 s cold, repeating from a fixed epoch.
pub fn parse_vallis_cycle_at(now: i64) -> (c: CycleInfo)
    ensures
        is_vallis_cycle(c, now),
{
    let elapsed = now.wrapping_sub(VALLIS_EPOCH) % VALLIS_CYCLE;
    if elapsed < VALLIS_WARM {
        make_cycle("奥布山谷", "温度上升", "🌡️", VALLIS_WARM - elapsed, true, now)
    } else {
        make_cycle("奥布山谷", "极寒", "❄️", VALLIS_CYCLE - elapsed, false, now)
    }
}

/// Duviri's moods in the order they come: sorrow, fear, joy, anger, envy.
pub open spec fn duviri_moods() -> Seq<Seq<char>> {
    seq!["悲伤"@, "恐惧"@, "喜悦"@, "愤怒"@, "嫉妒"@]
}

/// Duviri's mood lasts two hours and then gives way to the next one, in the
/// order sorrow, fear, joy, anger, envy and round again: two hours later the
/// mood is the next in that order with the same time left, which is never
/// more than two hours (for a clock at or after the cycle's start).
pub proof fn lemma_duviri_next_mood(c1: CycleInfo, c2: CycleInfo, now: i64)
    requires
        DUVIRI_EPOCH <= now,
        now + DUVIRI_CYCLE <= i64::MAX,
        is_duviri_cycle(c1, now),
        is_duviri_cycle(c2, (now + DUVIRI_CYCLE) as i64),
    ensures
        exists|k: int| 0 <= k < 5 && c1.state@ == #[trigger] duviri_moods()[k] && c2.state@ == duviri_moods()[(k + 1) % 5],
        0 < c1.remain_ms <= DUVIRI_CYCLE,
        c2.remain_ms == c1.remain_ms,
{
    let later = (now + DUVIRI_CYCLE) as i64;
    let x = now.wrapping_sub(DUVIRI_EPOCH) as int;
    assert(x == now - DUVIRI_EPOCH);
    assert(later.wrapping_sub(DUVIRI_EPOCH) as int == x + DUVIRI_CYCLE);
    vstd::arithmetic::div_mod::lemma_div_plus_one(x, DUVIRI_CYCLE as int);
    vstd::arithmetic::div_mod::lemma_mod_add_multiples_vanish(x, DUVIRI_CYCLE as int);
    let q = x / (DUVIRI_CYCLE as int);
    assert(q >= 0) by (nonlinear_arith)
        requires
            x >= 0,
            q == x / 7200000,
    ;
    vstd::arithmetic::div_mod::lemma_add_mod_noop(q, 1, 5);
    let k = q % 5;
    assert(duviri_index(now) == k);
    assert(duviri_index(later) == (q + 1) % 5);
    assert((q + 1) % 5 == (k + 1) % 5) by {
        vstd::arithmetic::div_mod::lemma_add_mod_noop(q, 1, 5);
        vstd::arithmetic::div_mod::lemma_small_mod(1, 5);
    }
    assert(0 <= x % (DUVIRI_CYCLE as int) < DUVIRI_CYCLE);
    assert(c1.state@ == duviri_moods()[k]);
}

/// Orb Vallis warms for 400 s and then stays cold for 1200 s, over and over:
/// the countdown never runs past its phase, the same phase comes back one
/// cycle later with the same time left, and when the countdown ends the
/// other phase begins (for a clock at or after the cycle's start).
pub proof fn lemma_vallis_phases(c: CycleInfo, later: CycleInfo, next: CycleInfo, now: i64)
    requires
        VALLIS_EPOCH <= now,
        now + 2 * VALLIS_CYCLE <= i64::MAX,
        is_vallis_cycle(c, now),
        is_vallis_cycle(later, (now + VALLIS_CYCLE) as i64),
        is_vallis_cycle(next, (now + c.remain_ms) as i64),
    ensures
        c.is_day ==> 0 < c.remain_ms <= VALLIS_WARM,
        !c.is_day ==> 0 < c.remain_ms <= VALLIS_CYCLE - VALLIS_WARM,
        later.state@ == c.state@ && later.remain_ms == c.remain_ms && later.is_day == c.is_day,
        next.is_day != c.is_day,
{
    let x = now - VALLIS_EPOCH;
    let m = VALLIS_CYCLE as int;
    assert(now.wrapping_sub(VALLIS_EPOCH) as int == x);
    assert(((now + VALLIS_CYCLE) as i64).wrapping_sub(VALLIS_EPOCH) as int == x + m);
    vstd::arithmetic::div_mod::lemma_mod_add_multiples_vanish(x, m);
    let e = x % m;
    assert(0 <= e < m);
    assert(vallis_elapsed(now) == e);
    assert(vallis_elapsed((now + VALLIS_CYCLE) as i64) == e);
    let r = c.remain_ms as int;
    let y = x + r;
    assert(((now + c.remain_ms) as i64).wrapping_sub(VALLIS_EPOCH) as int == y);
    let qd = x / m;
    vstd::arithmetic::div_mod::lemma_fundamental_div_mod(x, m);
    if e < VALLIS_WARM {
        assert(y == m * qd + VALLIS_WARM);
        vstd::arithmetic::div_mod::lemma_mod_multiples_vanish(qd, VALLIS_WARM as int, m);
        vstd::arithmetic::div_mod::lemma_small_mod(VALLIS_WARM as nat, m as nat);
        assert(y % m == VALLIS_WARM);
    } else {
        assert(y == (qd + 1) * m) by (nonlinear_arith)
            requires
                y == x + r,
                r == m - e,
                x == m * qd + e,
        ;
        vstd::arithmetic::div_mod::lemma_mod_multiples_basic(qd + 1, m);
        assert(y % m == 0);
    }
}

/// Parse Orb Vallis cycle at the current time.
pub fn parse_vallis_cycle() -> (c: CycleInfo)
    ensures
        exists|now: i64|
            if vallis_elapsed(now) < VALLIS_WARM {
                cycle_is(c, "奥布山谷"@, "温度上升"@, "🌡️"@, (VALLIS_WARM - vallis_elapsed(now)) as i64, true, now)
            } else {
                cycle_is(c, "奥布山谷"@, "极寒"@, "❄️"@, (VALLIS_CYCLE - vallis_elapsed(now)) as i64, false, now)
            },
{
    parse_vallis_cycle_at(now_ms())
}

/// The mood of Duviri with index `i` (sorrow, fear, joy, anger, envy), or
/// `未知` outside 0..5.
pub open spec fn duviri_mood(i: int) -> Seq<char> {
    if i == 0 {
        "悲伤"@
    } else if i == 1 {
        "恐惧"@
    } else if i == 2 {
        "喜悦"@
    } else if i == 3 {
        "愤怒"@
    } else if i == 4 {
        "嫉妒"@
    } else {
        "未知"@
    }
}

/// Duviri's current mood index: the number of 7200 s cycles since the epoch,
/// modulo 5.
pub open spec fn duviri_index(now: i64) -> int {
    trem(tdiv(now.wrapping_sub(DUVIRI_EPOCH) as int, DUVIRI_CYCLE as int), 5)
}

/// Milliseconds left in Duviri's current mood.
pub open spec fn duviri_remain(now: i64) -> i64 {
    (DUVIRI_CYCLE - trem(now.wrapping_sub(DUVIRI_EPOCH) as int, DUVIRI_CYCLE as int)) as i64
}

/// Duviri: five moods rotating every 7200 s from a fixed epoch.
pub fn parse_duviri_cycle_at(now: i64) -> (c: CycleInfo)
    ensures
        is_duviri_cycle(c, now),
{
    let since = now.wrapping_sub(DUVIRI_EPOCH);
    let elapsed = since % DUVIRI_CYCLE;
    let idx = since / DUVIRI_CYCLE % 5;
    let remain = DUVIRI_CYCLE - elapsed;
    let mood = if idx == 0 {
        "悲伤"
    } else if idx == 1 {
        "恐惧"
    } else if idx == 2 {
        "喜悦"
    } else if idx == 3 {
        "愤怒"
    } else if idx == 4 {
        "嫉妒"
    } else {
        "未知"
    };
    make_cycle("双衍王境", mood, "🌀", remain, true, now)
}

/// Parse Duviri cycle at the current time.
pub fn parse_duviri_cycle() -> (c: CycleInfo)
    ensures
        exists|now: i64|
            cycle_is(c, "双衍王境"@, duviri_mood(duviri_index(now)), "🌀"@, duviri_remain(now), true, now),
{
    parse_duviri_cycle_at(now_ms())
}

/// The Zariman state at `now`: `Grineer占领` when the active
/// `ZarimanSyndicate` mission lasts over 30 minutes, `Corpus占领` otherwise,
/// and the time left until it expires; `未知` with nothing left when there
/// is no such mission.
pub open spec fn zariman_phase(data: Json, now: i64) -> (Seq<char>, i64) {
    match active_syndicate(data, "ZarimanSyndicate"@, now) {
        Some(s) => {
            let expiry = ms_of(index(s, "Expiry"@));
            let activation = ms_of(index(s, "Activation"@));
            (if expiry.wrapping_sub(activation) > 1800000 {
                "Grineer占领"@
            } else {
                "Corpus占领"@
            }, expiry.wrapping_sub(now))
        },
        None => ("未知"@, 0),
    }
}

/// Parse Zariman cycle via ZarimanSyndicate at `now`.
pub fn parse_zariman_cycle(data: &Json, now: i64) -> (c: CycleInfo)
    ensures
        cycle_is(c, "扎里曼"@, zariman_phase(*data, now).0, "🛡️"@, zariman_phase(*data, now).1, true, now),
        match bounty_length(*data, "ZarimanSyndicate"@, now) {
            Some(len) => c.state@ == (if len > 1_800_000 {
                "Grineer占领"@
            } else {
                "Corpus占领"@
            }),
            None => c.state@ == "未知"@ && c.remain_ms == 0,
        },
{
    if let Some(synd) = find_active_syndicate(data, "ZarimanSyndicate", now) {
        let expiry = get_ms(match at(Some(synd), "Expiry") {
            Some(e) => e,
            None => &Json::Null,
        });
        let activation = get_ms(match at(Some(synd), "Activation") {
            Some(a) => a,
            None => &Json::Null,
        });
        let duration = expiry.wrapping_sub(activation);
        let state = if duration > 1800000 {
            "Grineer占领"
        } else {
            "Corpus占领"
        };
        make_cycle("扎里曼", state, "🛡️", expiry.wrapping_sub(now), true, now)
    } else {
        make_cycle("扎里曼", "未知", "🛡️", 0, true, now)
    }
}

/// All six open-world cycles at `now`, in display order: Plains of
/// Eidolon, Cambion Drift, Orb Vallis, Duviri, Zariman, Höllvania.
pub open spec fn cycles_at(cs: Seq<CycleInfo>, data: Json, now: i64) -> bool {
    let z = zariman_phase(data, now);
    &&& cs.len() == 6
    &&& hex_cycle(cs[0], data, "夜灵平野"@, now)
    &&& hex_cycle(cs[1], data, "魔胎之境"@, now)
    &&& is_vallis_cycle(cs[2], now)
    &&& is_duviri_cycle(cs[3], now)
    &&& cycle_is(cs[4], "扎里曼"@, z.0, "🛡️"@, z.1, true, now)
    &&& hex_cycle(cs[5], data, "霍瓦尼亚"@, now)
}

/// Parse all open-world cycles at `now`.
pub fn parse_cycles_at(data: &Json, now: i64) -> (r: Vec<CycleInfo>)
    ensures
        cycles_at(r@, *data, now),
{
    let mut cycles: Vec<CycleInfo> = Vec::new();
    cycles.push(parse_plains_cycle(data, "夜灵平野", now));
    cycles.push(parse_plains_cycle(data, "魔胎之境", now));
    cycles.push(parse_vallis_cycle_at(now));
    cycles.push(parse_duviri_cycle_at(now));
    cycles.push(parse_zariman_cycle(data, now));
    cycles.push(parse_plains_cycle(data, "霍瓦尼亚", now));
    cycles
}

/// Parse all open-world cycles from worldstate data at the current time.
pub fn parse_cycles(data: &Json) -> (r: Vec<CycleInfo>)
    ensures
        exists|now: i64| cycles_at(r@, *data, now),
{
    parse_cycles_at(data, now_ms())
}


// ── Mapping tables ───────────────────────────────────────────────────────────

/// Chinese era name of a relic tier key; unknown keys stay as they are.
pub open spec fn tier_label_text(key: Seq<char>) -> Seq<char> {
    if key == "VoidT1"@ {
        "古纪"@
    } else if key == "VoidT2"@ {
        "前纪"@
    } else if key == "VoidT3"@ {
        "中纪"@
    } else if key == "VoidT4"@ {
        "后纪"@
    } else if key == "VoidT5"@ {
        "安魂"@
    } else if key == "VoidT6"@ {
        "全能"@
    } else {
        key
    }
}

/// Translate tier key to Chinese label.
pub fn tier_label(key: &str) -> (r: String)
    ensures
        r@ == tier_label_text(key@),
{
    if str_eq(key, "VoidT1") {
        owned("古纪")
    } else if str_eq(key, "VoidT2") {
        owned("前纪")
    } else if str_eq(key, "VoidT3") {
        owned("中纪")
    } else if str_eq(key, "VoidT4") {
        owned("后纪")
    } else if str_eq(key, "VoidT5") {
        owned("安魂")
    } else if str_eq(key, "VoidT6") {
        owned("全能")
    } else {
        owned(key)
    }
}

/// Display order of a tier (lower first): `VoidT1`..`VoidT6` are 1..6, any
/// other key 99.
pub open spec fn tier_rank(key: Seq<char>) -> nat {
    if key == "VoidT1"@ {
        1
    } else if key == "VoidT2"@ {
        2
    } else if key == "VoidT3"@ {
        3
    } else if key == "VoidT4"@ {
        4
    } else if key == "VoidT5"@ {
        5
    } else if key == "VoidT6"@ {
        6
    } else {
        99
    }
}

/// The Chinese names of the relic eras, Lith to Omnia.
pub open spec fn era_names() -> Seq<Seq<char>> {
    seq!["古纪"@, "前纪"@, "中纪"@, "后纪"@, "安魂"@, "全能"@]
}

/// A fissure's era label names its relic era (古纪 for Lith up to 全能 for
/// Omnia); a key of no relic era is shown as it is.
pub proof fn lemma_tier_label_names_era(key: Seq<char>)
    ensures
        relic_era(key) <= 6 ==> tier_label_text(key) == era_names()[relic_era(key) - 1],
        relic_era(key) > 6 ==> tier_label_text(key) == key,
{
    lemma_tier_rank_is_era(key);
}

/// Order for sorting tiers (lower = displayed first).
pub fn tier_order(key: &str) -> (r: usize)
    ensures
        r == tier_rank(key@),
        r == relic_era(key@),
{
    proof {
        lemma_tier_rank_is_era(key@);
    }
    if str_eq(key, "VoidT1") {
        1
    } else if str_eq(key, "VoidT2") {
        2
    } else if str_eq(key, "VoidT3") {
        3
    } else if str_eq(key, "VoidT4") {
        4
    } else if str_eq(key, "VoidT5") {
        5
    } else if str_eq(key, "VoidT6") {
        6
    } else {
        99
    }
}

/// The relic era a fissure key names: `VoidT` followed by one digit `k`
/// from 1 to 6 (Lith, Meso, Neo, Axi, Requiem, Omnia) is era `k`; any other
/// key comes after them all, as 99.
pub open spec fn relic_era(key: Seq<char>) -> nat {
    if key.len() == 6 && key.take(5) == "VoidT"@ && '1' <= key[5] <= '6' {
        (key[5] as nat - 48) as nat
    } else {
        99
    }
}

/// The tier order is the relic era: Lith 1 < Meso 2 < Neo 3 < Axi 4 <
/// Requiem 5 < Omnia 6, everything else 99.
pub proof fn lemma_tier_rank_is_era(key: Seq<char>)
    ensures
        tier_rank(key) == relic_era(key),
{
    reveal_strlit("VoidT");
    reveal_strlit("VoidT1");
    reveal_strlit("VoidT2");
    reveal_strlit("VoidT3");
    reveal_strlit("VoidT4");
    reveal_strlit("VoidT5");
    reveal_strlit("VoidT6");
    let lits = seq!["VoidT1"@, "VoidT2"@, "VoidT3"@, "VoidT4"@, "VoidT5"@, "VoidT6"@];
    if key.len() == 6 && key.take(5) == "VoidT"@ && '1' <= key[5] <= '6' {
        let d = key[5] as int - 49;
        assert(0 <= d < 6);
        assert(key =~= key.take(5).push(key[5]));
        if d == 0 {
            assert(key =~= "VoidT1"@);
        } else if d == 1 {
            assert(key =~= "VoidT2"@);
        } else if d == 2 {
            assert(key =~= "VoidT3"@);
        } else if d == 3 {
            assert(key =~= "VoidT4"@);
        } else if d == 4 {
            assert(key =~= "VoidT5"@);
        } else {
            assert(key =~= "VoidT6"@);
        }
    } else {
        assert forall|n: int| 0 <= n < 6 implies key != #[trigger] lits[n] by {
            assert(lits[n].take(5) =~= "VoidT"@);
        }
        assert(key != lits[0] && key != lits[1] && key != lits[2] && key != lits[3] && key != lits[4]
            && key != lits[5]);
    }
}

/// The value of the first `(key, value)` pair whose key is `k`.
pub open spec fn pair_find(t: Seq<(&'static str, &'static str)>, k: Seq<char>) -> Option<
    &'static str,
>
    decreases t.len(),
{
    if t.len() == 0 {
        None
    } else if t[0].0@ == k {
        Some(t[0].1)
    } else {
        pair_find(t.drop_first(), k)
    }
}

/// Chinese label of a mission type key (an empty key is `未知`); unknown keys
/// stay as they are.
pub open spec fn mission_type_text(key: Seq<char>) -> Seq<char> {
    match pair_find(MISSION_TYPES@, key) {
        Some(v) => v@,
        None => key,
    }
}

/// Translate mission type key to Chinese label.
pub fn mission_type<'a>(key: &'a str) -> (r: &'a str)
    ensures
        r@ == mission_type_text(key@),
{
    let mut i: usize = 0;
    assert(MISSION_TYPES@.skip(0) =~= MISSION_TYPES@);
    while i < MISSION_TYPES.len()
        invariant
            i <= MISSION_TYPES@.len(),
            pair_find(MISSION_TYPES@, key@) == pair_find(MISSION_TYPES@.skip(i as int), key@),
        decreases MISSION_TYPES@.len() - i,
    {
        assert(MISSION_TYPES@.skip(i as int).drop_first() =~= MISSION_TYPES@.skip(i + 1));
        if str_eq(MISSION_TYPES[i].0, key) {
            return MISSION_TYPES[i].1;
        }
        i = i + 1;
    }
    key
}

/// Display name, planet and (for railjack storms) mission of a node.
#[derive(Debug, Clone, Copy)]
pub struct NodeInfo {
    pub name: &'static str,
    pub planet: &'static str,
    pub mission: &'static str,
}

/// The first row of the node table whose key is `k`.
pub open spec fn node_find(
    t: Seq<(&'static str, &'static str, &'static str, &'static str)>,
    k: Seq<char>,
) -> Option<NodeInfo>
    decreases t.len(),
{
    if t.len() == 0 {
        None
    } else if t[0].0@ == k {
        Some(NodeInfo { name: t[0].1, planet: t[0].2, mission: t[0].3 })
    } else {
        node_find(t.drop_first(), k)
    }
}

/// The node table's row for `key`; unknown nodes have an empty name, the
/// planet `未知` and no mission.
pub open spec fn node_info(key: Seq<char>) -> NodeInfo {
    match node_find(NODE_TABLE@, key) {
        Some(info) => info,
        None => NodeInfo { name: "", planet: "未知", mission: "" },
    }
}

/// Look up a node key in the node table.
pub fn node_lookup(node_key: &str) -> (r: NodeInfo)
    ensures
        r == node_info(node_key@),
{
    let mut i: usize = 0;
    assert(NODE_TABLE@.skip(0) =~= NODE_TABLE@);
    while i < NODE_TABLE.len()
        invariant
            i <= NODE_TABLE@.len(),
            node_find(NODE_TABLE@, node_key@) == node_find(NODE_TABLE@.skip(i as int), node_key@),
        decreases NODE_TABLE@.len() - i,
    {
        assert(NODE_TABLE@.skip(i as int).drop_first() =~= NODE_TABLE@.skip(i + 1));
        if str_eq(NODE_TABLE[i].0, node_key) {
            return NodeInfo { name: NODE_TABLE[i].1, planet: NODE_TABLE[i].2, mission: NODE_TABLE[i].3 };
        }
        i = i + 1;
    }
    NodeInfo { name: "", planet: "未知", mission: "" }
}

/// Node key → (name, planet, storm mission) of every known node.
pub const NODE_TABLE: [(&'static str, &'static str, &'static str, &'static str); 330] = [
    ("MercuryHUB", "Larunda Relay", "水星", ""),
    ("SolarisUnitedHub1", "福尔图娜", "金星", ""),
    ("CetusHub4", "希图斯", "地球", ""),
    ("ToggleBootLevel", "漂泊者营地", "地球", ""),
    ("EarthHUB", "Strata Relay", "地球", ""),
    ("TradeHUB1", "Maroo的市集", "火星", ""),
    ("DeimosHub", "殁世幽都", "火卫二", ""),
    ("EntratiLabHub", "解剖圣所", "火卫二", ""),
    ("SaturnHUB", "Kronia Relay", "土星", ""),
    ("PlutoHUB", "Orcus Relay", "冥王星", ""),
    ("ZarimanHub", "羽化之穹", "扎里曼 10-0 号", ""),
    ("VenusToMercuryJunction", "Mercury Junction", "金星", ""),
    ("EarthToMarsJunction", "火星接合点", "地球", ""),
    ("EarthToVenusJunction", "Venus Junction", "地球", ""),
    ("MarsToCeresJunction", "Ceres Junction", "火星", ""),
    ("MarsToPhobosJunction", "Phobos Junction", "火星", ""),
    ("CeresToJupiterJunction", "Jupiter Junction", "火卫二", ""),
    ("JupiterToEuropaJunction", "Europa Junction", "木星", ""),
    ("JupiterToSaturnJunction", "Saturn Junction", "木星", ""),
    ("SaturnToUranusJunction", "Uranus Junction", "土星", ""),
    ("UranusToNeptuneJunction", "Neptune Junction", "天王星", ""),
    ("NeptuneToPlutoJunction", "Pluto Junction", "海王星", ""),
    ("ErisToSednaJunction", "Sedna Junction", "冥王星", ""),
    ("PlutoToErisJunction", "Eris Junction", "冥王星", ""),
    ("SolNode119", "Caloris", "水星", ""),
    ("SolNode226", "Pantheon", "水星", ""),
    ("SolNode130", "Lares", "水星", ""),
    ("SolNode94", "Apollodorus", "水星", ""),
    ("SolNode224", "Odin", "水星", ""),
    ("SolNode103", "M Prime", "水星", ""),
    ("SolNode12", "Elion", "水星", ""),
    ("SolNode108", "Tolstoj", "水星", ""),
    ("SolNode28", "Terminus", "水星", ""),
    ("SolNode223", "Boethius", "水星", ""),
    ("SolNode225", "Suisei", "水星", ""),
    ("SolNode128", "E Gate", "金星", ""),
    ("SolNode23", "Cytherean", "金星", ""),
    ("SolNode123", "V Prime", "金星", ""),
    ("SolNode22", "Tessera", "金星", ""),
    ("SolNode101", "Kiliken", "金星", ""),
    ("SolNode902", "Montes", "金星", ""),
    ("SolNode66", "Unda", "金星", ""),
    ("SolNode107", "Venera", "金星", ""),
    ("SolNode109", "Linea", "金星", ""),
    ("SolNode2", "Aphrodite", "金星", ""),
    ("SolNode61", "Ishtar", "金星", ""),
    ("SolNode104", "Fossa", "金星", ""),
    ("ClanNode1", "Malva", "金星", ""),
    ("ClanNode0", "Romula", "金星", ""),
    ("SolNode129", "奥布山谷", "金星", ""),
    ("NokkoColony", "深矿", "金星", ""),
    ("SolNode89", "Mariana", "地球", ""),
    ("SolNode27", "E Prime", "地球", ""),
    ("SolNode39", "Everest", "地球", ""),
    ("SolNode85", "Gaia", "地球", ""),
    ("SolNode903", "Erpo", "地球", ""),
    ("SolNode26", "Lith", "地球", ""),
    ("SolNode79", "Cambria", "地球", ""),
    ("SolNode63", "Mantle", "地球", ""),
    ("SolNode59", "Eurasia", "地球", ""),
    ("SolNode15", "Pacific", "地球", ""),
    ("SolNode75", "Cervantes", "地球", ""),
    ("SolNode451", "萨娅的异象", "地球", ""),
    ("ClanNode3", "Tikal", "地球", ""),
    ("ClanNode2", "Coba", "地球", ""),
    ("SolNode228", "夜灵平野", "地球", ""),
    ("SolNode24", "Oro", "地球", ""),
    ("SolNode304", "Copernicus", "月球", ""),
    ("SolNode306", "Pavlov", "月球", ""),
    ("SolNode302", "Tycho", "月球", ""),
    ("SolNode305", "Stöfler", "月球", ""),
    ("SolNode300", "Plato", "月球", ""),
    ("SolNode307", "Zeipel", "月球", ""),
    ("SolNode309", "Yuvarium", "月球", ""),
    ("SolNode301", "Grimaldi", "月球", ""),
    ("SolNode308", "Apollo", "月球", ""),
    ("SolNode310", "Circulus", "月球", ""),
    ("SolNode58", "Hellas", "火星", ""),
    ("SolNode11", "Tharsis", "火星", ""),
    ("SolNode106", "Alator", "火星", ""),
    ("SolNode46", "Spear", "火星", ""),
    ("SolNode904", "Syrtis", "火星", ""),
    ("SolNode113", "Ares", "火星", ""),
    ("SolNode65", "Gradivus", "火星", ""),
    ("SolNode41", "Arval", "火星", ""),
    ("SolNode16", "Augustus", "火星", ""),
    ("SolNode36", "Martialis", "火星", ""),
    ("SolNode45", "Ara", "火星", ""),
    ("ClanNode9", "Wahiba", "火星", ""),
    ("ClanNode8", "Kadesh", "火星", ""),
    ("SolNode68", "Vallis", "火星", ""),
    ("SolNode99", "War", "火星", ""),
    ("SolNode14", "Ultor", "火星", ""),
    ("SolNode30", "Olympus", "火星", ""),
    ("SolNode450", "Tyana Pass", "火星", ""),
    ("SettlementNode1", "Roche", "火卫一", ""),
    ("SettlementNode3", "Stickney", "火卫一", ""),
    ("SettlementNode11", "Gulliver", "火卫一", ""),
    ("SettlementNode14", "Shklovsky", "火卫一", ""),
    ("SettlementNode15", "Sharpless", "火卫一", ""),
    ("SettlementNode10", "Kepler", "火卫一", ""),
    ("SettlementNode2", "Skyresh", "火卫一", ""),
    ("SettlementNode12", "Monolith", "火卫一", ""),
    ("SettlementNode20", "Iliad", "火卫一", ""),
    ("ClanNode11", "Zeugma", "火卫一", ""),
    ("ClanNode10", "Memphis", "火卫一", ""),
    ("SolNode706", "Horend", "火卫二", ""),
    ("SolNode708", "Phlegyas", "火卫二", ""),
    ("SolNode710", "Formido", "火卫二", ""),
    ("SolNode709", "Dirus", "火卫二", ""),
    ("SolNode707", "Hyf", "火卫二", ""),
    ("SolNode712", "Magnacidium", "火卫二", ""),
    ("SolNode229", "魔胎之境", "火卫二", ""),
    ("SolNode711", "Terrorem", "火卫二", ""),
    ("SolNode713", "Exequias", "火卫二", ""),
    ("SolNode721", "卫城区", "火卫二", ""),
    ("SolNode716", "孽杀", "火卫二", ""),
    ("SolNode719", "墓垒", "火卫二", ""),
    ("SolNode715", "恶涌", "火卫二", ""),
    ("SolNode718", "异化区", "火卫二", ""),
    ("SolNode717", "不灭之地", "火卫二", ""),
    ("SolNode720", "弧冢", "火卫二", ""),
    ("SolNode132", "Bode", "谷神星", ""),
    ("SolNode131", "Pallas", "谷神星", ""),
    ("SolNode149", "Casta", "谷神星", ""),
    ("SolNode147", "Cinxia", "谷神星", ""),
    ("SolNode146", "Draco", "谷神星", ""),
    ("SolNode137", "Nuovo", "谷神星", ""),
    ("SolNode140", "Kiste", "谷神星", ""),
    ("SolNode144", "Exta", "谷神星", ""),
    ("SolNode141", "Ker", "谷神星", ""),
    ("SolNode139", "Lex", "谷神星", ""),
    ("SolNode138", "Ludi", "谷神星", ""),
    ("SolNode135", "Thon", "谷神星", ""),
    ("ClanNode22", "Seimeni", "谷神星", ""),
    ("ClanNode23", "Gabii", "谷神星", ""),
    ("SolNode126", "Metis", "木星", ""),
    ("SolNode905", "Galilea", "木星", ""),
    ("SolNode100", "Elara", "木星", ""),
    ("SolNode25", "Callisto", "木星", ""),
    ("SolNode125", "Io", "木星", ""),
    ("SolNode73", "Ananke", "木星", ""),
    ("SolNode74", "Carme", "木星", ""),
    ("SolNode121", "Carpo", "木星", ""),
    ("SolNode97", "Amalthea", "木星", ""),
    ("SolNode10", "Thebe", "木星", ""),
    ("SolNode53", "Themisto", "木星", ""),
    ("SolNode88", "Adrastea", "木星", ""),
    ("ClanNode5", "Cameria", "木星", ""),
    ("ClanNode4", "Sinai", "木星", ""),
    ("SolNode87", "Ganymede", "木星", ""),
    ("SolNode740", "蝠力使", "木星", ""),
    ("SolNode209", "Morax", "欧罗巴", ""),
    ("SolNode215", "Valac", "欧罗巴", ""),
    ("SolNode204", "Armaros", "欧罗巴", ""),
    ("SolNode212", "Paimon", "欧罗巴", ""),
    ("SolNode216", "Valefor", "欧罗巴", ""),
    ("SolNode211", "Ose", "欧罗巴", ""),
    ("SolNode214", "Sorath", "欧罗巴", ""),
    ("SolNode220", "Kokabiel", "欧罗巴", ""),
    ("SolNode217", "Orias", "欧罗巴", ""),
    ("SolNode205", "Baal", "欧罗巴", ""),
    ("SolNode203", "Abaddon", "欧罗巴", ""),
    ("SolNode210", "Naamah", "欧罗巴", ""),
    ("ClanNode6", "Larzac", "欧罗巴", ""),
    ("ClanNode7", "Cholistan", "欧罗巴", ""),
    ("GrendelKeyBMissionName", "上古货船", "欧罗巴", ""),
    ("GrendelKeyCMissionName", "KARISHH之矿", "欧罗巴", ""),
    ("GrendelKeyAMissionName", "RIDDAH冰原", "欧罗巴", ""),
    ("PvpNode10", "歼夺", "土星", ""),
    ("PvpNode9", "团队歼夺", "土星", ""),
    ("PvpNode0", "夺取中枢", "土星", ""),
    ("SolNode67", "Dione", "土星", ""),
    ("SolNode906", "Pandora", "土星", ""),
    ("SolNode70", "Cassini", "土星", ""),
    ("SolNode96", "Titan", "土星", ""),
    ("SolNode42", "Helene", "土星", ""),
    ("SolNode18", "Rhea", "土星", ""),
    ("SolNode31", "Anthe", "土星", ""),
    ("SolNode50", "Numa", "土星", ""),
    ("SolNode20", "Telesto", "土星", ""),
    ("SolNode19", "Enceladus", "土星", ""),
    ("SolNode93", "Keeler", "土星", ""),
    ("SolNode82", "Calypso", "土星", ""),
    ("SolNode32", "Tethys", "土星", ""),
    ("ClanNode13", "Piscinas", "土星", ""),
    ("ClanNode12", "Caracol", "土星", ""),
    ("SolNode34", "Sycorax", "天王星", ""),
    ("SolNode907", "Caelus", "天王星", ""),
    ("SolNode69", "Ophelia", "天王星", ""),
    ("SolNode64", "Umbriel", "天王星", ""),
    ("SolNode122", "Stephano", "天王星", ""),
    ("SolNode60", "Caliban", "天王星", ""),
    ("SolNode33", "Ariel", "天王星", ""),
    ("ClanNode17", "Assur", "天王星", ""),
    ("SolNode98", "Desdemona", "天王星", ""),
    ("SolNode83", "Cressida", "天王星", ""),
    ("SolNode105", "Titania", "天王星", ""),
    ("SolNode9", "Rosalind", "天王星", ""),
    ("SolNode114", "Puck", "天王星", ""),
    ("ClanNode16", "Ur", "天王星", ""),
    ("SolNode723", "布鲁图斯", "天王星", ""),
    ("SolNode118", "Laomedeia", "海王星", ""),
    ("SolNode1", "Galatea", "海王星", ""),
    ("SolNode6", "Despina", "海王星", ""),
    ("SolNode17", "Proteus", "海王星", ""),
    ("SolNode908", "Salacia", "海王星", ""),
    ("SolNode78", "Triton", "海王星", ""),
    ("SolNode49", "Larissa", "海王星", ""),
    ("SolNode57", "Sao", "海王星", ""),
    ("SolNode62", "Neso", "海王星", ""),
    ("EventNode763", "《指数之场》：挑战", "海王星", ""),
    ("SolNode84", "Nereid", "海王星", ""),
    ("SolNode127", "Psamathe", "海王星", ""),
    ("ClanNode20", "Yursa", "海王星", ""),
    ("ClanNode21", "Kelashin", "海王星", ""),
    ("SolNode38", "Minthe", "冥王星", ""),
    ("SolNode76", "Hydra", "冥王星", ""),
    ("SolNode81", "Palus", "冥王星", ""),
    ("SolNode72", "Outer Terminus", "冥王星", ""),
    ("SolNode43", "Cerberus", "冥王星", ""),
    ("SolNode21", "Narcissus", "冥王星", ""),
    ("SolNode102", "Oceanum", "冥王星", ""),
    ("SolNode4", "Acheron", "冥王星", ""),
    ("SolNode56", "Cypress", "冥王星", ""),
    ("SolNode48", "Regna", "冥王星", ""),
    ("ClanNode25", "Hieracon", "冥王星", ""),
    ("ClanNode24", "Sechura", "冥王星", ""),
    ("SolNode51", "Hades", "冥王星", ""),
    ("SolNode189", "Naga", "赛德娜", ""),
    ("SolNode195", "Hydron", "赛德娜", ""),
    ("SolNode187", "Selkie", "赛德娜", ""),
    ("SolNode185", "Berehynia", "赛德娜", ""),
    ("SolNode184", "Rusalka", "赛德娜", ""),
    ("SolNode181", "Adaro", "赛德娜", ""),
    ("SolNode177", "Kappa", "赛德娜", ""),
    ("SolNode191", "Marid", "赛德娜", ""),
    ("SolNode196", "Charybdis", "赛德娜", ""),
    ("SolNode188", "Kelpie", "赛德娜", ""),
    ("SolNode193", "Merrow", "赛德娜", ""),
    ("ClanNode15", "Sangeru", "赛德娜", ""),
    ("ClanNode14", "Amarna", "赛德娜", ""),
    ("SolNode190", "Nakki", "赛德娜", ""),
    ("SolNode199", "Yam", "赛德娜", ""),
    ("SolNode183", "Vodyanoi", "赛德娜", ""),
    ("SolNode746", "Dakata", "赤毒要塞", ""),
    ("SolNode741", "Koro", "赤毒要塞", ""),
    ("SolNode743", "Rotuma", "赤毒要塞", ""),
    ("SolNode742", "Nabuk", "赤毒要塞", ""),
    ("SolNode748", "Garus", "赤毒要塞", ""),
    ("SolNode747", "Pago", "赤毒要塞", ""),
    ("SolNode744", "Taveuni", "赤毒要塞", ""),
    ("SolNode745", "Tamu", "赤毒要塞", ""),
    ("SolNode175", "Naeglar", "阋神星", ""),
    ("SolNode705", "异融Alad V刺杀", "阋神星", ""),
    ("SolNode166", "Nimus", "阋神星", ""),
    ("SolNode164", "Kala-azar", "阋神星", ""),
    ("SolNode172", "Xini", "阋神星", ""),
    ("SolNode701", "Jordas魔像", "阋神星", ""),
    ("SolNode153", "Brugia", "阋神星", ""),
    ("SolNode162", "Isos", "阋神星", ""),
    ("SolNode167", "Oestrus", "阋神星", ""),
    ("SolNode171", "Saxis", "阋神星", ""),
    ("SolNode173", "Solium", "阋神星", ""),
    ("ClanNode19", "Zabala", "阋神星", ""),
    ("ClanNode18", "Akkad", "阋神星", ""),
    ("SolNode402", "雷争塔", "虚空", ""),
    ("SolNode400", "神王塔", "虚空", ""),
    ("SolNode401", "神后塔", "虚空", ""),
    ("SolNode404", "风王塔", "虚空", ""),
    ("SolNode403", "法神塔", "虚空", ""),
    ("SolNode405", "阿尼塔", "虚空", ""),
    ("SolNode406", "乌戈塔", "虚空", ""),
    ("SolNode408", "光神塔", "虚空", ""),
    ("SolNode407", "母神塔", "虚空", ""),
    ("SolNode410", "太阳塔", "虚空", ""),
    ("SolNode412", "光理塔", "虚空", ""),
    ("SolNode411", "守护神塔", "虚空", ""),
    ("SolNode409", "死灵塔", "虚空", ""),
    ("SolNode234", "居住舱", "扎里曼 10-0 号", ""),
    ("SolNode238", "无尽回廊", "扎里曼 10-0 号", ""),
    ("SolNode236", "双衍历程", "扎里曼 10-0 号", ""),
    ("SolNode237", "孤独纪事", "扎里曼 10-0 号", ""),
    ("SolNode233", "奥金工场", "扎里曼 10-0 号", ""),
    ("SolNode231", "哈拉科防线", "扎里曼 10-0 号", ""),
    ("SolNode232", "涂沃主厅", "扎里曼 10-0 号", ""),
    ("SolNode235", "翠径", "扎里曼 10-0 号", ""),
    ("SolNode230", "永视弧域", "扎里曼 10-0 号", ""),
    ("CrewBattleNode502", "深眠峡道", "地球比邻星域", "前哨战"),
    ("CrewBattleNode509", "虚无神殿", "地球比邻星域", "前哨战"),
    ("CrewBattleNode518", "奥加尔星团", "地球比邻星域", "前哨战"),
    ("CrewBattleNode519", "克姆地带", "地球比邻星域", "前哨战"),
    ("CrewBattleNode522", "本达尔星团", "地球比邻星域", "前哨战"),
    ("CrewBattleNode503", "虹桥回声", "金星比邻星域", "歼灭"),
    ("CrewBattleNode511", "卫标星环", "金星比邻星域", "爆发"),
    ("CrewBattleNode512", "欧文－哈克", "金星比邻星域", "间谍"),
    ("CrewBattleNode513", "维斯珀峡道", "金星比邻星域", "奥菲斯"),
    ("CrewBattleNode514", "落没之耀", "金星比邻星域", "防御"),
    ("CrewBattleNode515", "无垠华盖", "金星比邻星域", "生存"),
    ("CrewBattleNode501", "魔多星团", "土星比邻星域", "前哨战"),
    ("CrewBattleNode530", "卡希欧安息处", "土星比邻星域", "前哨战"),
    ("CrewBattleNode533", "诺朵星峡", "土星比邻星域", "前哨战"),
    ("CrewBattleNode534", "卢帕星道", "土星比邻星域", "前哨战"),
    ("CrewBattleNode535", "水域星团", "土星比邻星域", "前哨战"),
    ("CrewBattleNode504", "时空坐标", "海王星比邻星域", "防御"),
    ("CrewBattleNode516", "女娲之矿", "海王星比邻星域", "歼灭"),
    ("CrewBattleNode521", "初裔冰渍区", "海王星比邻星域", "生存"),
    ("CrewBattleNode523", "诱惑之景", "海王星比邻星域", "奥菲斯"),
    ("CrewBattleNode524", "星主之握", "海王星比邻星域", "爆发"),
    ("CrewBattleNode525", "薄暮星团", "海王星比邻星域", "间谍"),
    ("CrewBattleNode526", "胡夫之遣", "冥王星比邻星域", "奥菲斯"),
    ("CrewBattleNode527", "七魅之息", "冥王星比邻星域", "歼灭"),
    ("CrewBattleNode528", "冥渡", "冥王星比邻星域", "防御"),
    ("CrewBattleNode529", "利益外缘", "冥王星比邻星域", "爆发"),
    ("CrewBattleNode531", "芬顿之地", "冥王星比邻星域", "生存"),
    ("CrewBattleNode536", "外域星轴", "冥王星比邻星域", "间谍"),
    ("CrewBattleNode505", "Ruse 战场", "面纱比邻星域", "前哨战"),
    ("CrewBattleNode510", "Gian 点", "面纱比邻星域", "前哨战"),
    ("CrewBattleNode538", "蒲芦", "面纱比邻星域", "歼灭"),
    ("CrewBattleNode539", "努秘", "面纱比邻星域", "爆发"),
    ("CrewBattleNode540", "曲银之地", "面纱比邻星域", "防御"),
    ("CrewBattleNode541", "深情之域", "面纱比邻星域", "奥菲斯"),
    ("CrewBattleNode542", "鹿岩", "面纱比邻星域", "生存"),
    ("CrewBattleNode543", "萨米尔星云", "面纱比邻星域", "间谍"),
    ("CrewBattleNode550", "恩斯尤区格", "面纱比邻星域", "前哨战"),
    ("CrewBattleNode551", "Ganalen 之墓", "面纱比邻星域", "前哨战"),
    ("CrewBattleNode552", "Rya", "面纱比邻星域", "前哨战"),
    ("CrewBattleNode553", "弗雷沙", "面纱比邻星域", "前哨战"),
    ("CrewBattleNode554", "H-2 星云", "面纱比邻星域", "前哨战"),
    ("CrewBattleNode555", "R-9 星云", "面纱比邻星域", "前哨战"),
];

/// Mission type key → Chinese label.
pub const MISSION_TYPES: [(&'static str, &'static str); 28] = [
    ("MT_ARENA", "竞技场"),
    ("MT_ARTIFACT", "中断"),
    ("MT_ASSAULT", "强袭"),
    ("MT_ASSASSINATION", "刺杀"),
    ("MT_CAPTURE", "捕获"),
    ("MT_CORRUPTION", "虚空洪流"),
    ("MT_DEFENSE", "防御"),
    ("MT_DISRUPTION", "中断"),
    ("MT_EVACUATION", "叛逃"),
    ("MT_EXCAVATE", "挖掘"),
    ("MT_EXTERMINATION", "歼灭"),
    ("MT_HIVE", "清巢"),
    ("MT_INTEL", "间谍"),
    ("MT_LANDSCAPE", "自由探索"),
    ("MT_MOBILE_DEFENSE", "移动防御"),
    ("MT_PVP", "武形秘仪"),
    ("MT_RESCUE", "救援"),
    ("MT_RETRIEVAL", "劫持"),
    ("MT_SABOTAGE", "破坏"),
    ("MT_SECTOR", "黑暗地带"),
    ("MT_SURVIVAL", "生存"),
    ("MT_TERRITORY", "拦截"),
    ("MT_VOID_CASCADE", "虚空覆涌"),
    ("MT_ASCENSION", "Ascension"),
    ("MT_ALCHEMY", "元素转换"),
    ("MT_ENDLESS_CAPTURE", "Legacyte Harvest"),
    ("MT_DEFAULT", "未知"),
    ("", "未知"),
];

} // verus!
