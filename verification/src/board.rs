//! Refreshing the time-dependent parts of the world-state board every tick:
//! the fissures', cycles' and Void Trader's countdowns.

use vstd::prelude::*;
use crate::text::{owned, str_eq};
use crate::models::{Fissure, CycleInfo, BaroInfo};
use crate::worldstate::{
    remain_text, fmt_remain, is_vallis_cycle, is_duviri_cycle, parse_vallis_cycle_at,
    parse_duviri_cycle_at,
};

verus! {

/// A fissure is about to close: less than five minutes left.
pub const EXPIRING_MS: i64 = 300_000;

/// `g` is fissure `f` with its countdown at `now`.
pub open spec fn fissure_at(f: Fissure, g: Fissure, now: i64) -> bool {
    let remain = f.expiry_ms.wrapping_sub(now);
    &&& g.node_key@ == f.node_key@
    &&& g.node_name@ == f.node_name@
    &&& g.planet@ == f.planet@
    &&& g.mission_type@ == f.mission_type@
    &&& g.tier_key@ == f.tier_key@
    &&& g.tier_label@ == f.tier_label@
    &&& g.expiry_ms == f.expiry_ms
    &&& g.is_hard == f.is_hard
    &&& g.is_storm == f.is_storm
    &&& g.remain_ms == remain
    &&& g.remain_str@ == remain_text(remain)
    &&& g.is_expiring == (remain > 0 && remain < EXPIRING_MS)
}

/// Set a fissure's countdown for `now`.
pub fn refresh_fissure(f: &mut Fissure, now: i64)
    ensures
        fissure_at(*old(f), *final(f), now),
{
    let remain = f.expiry_ms.wrapping_sub(now);
    f.remain_ms = remain;
    f.remain_str = fmt_remain(remain);
    f.is_expiring = remain > 0 && remain < EXPIRING_MS;
}

/// Set the countdowns of a list of fissures for `now`.
pub fn refresh_fissures(fs: &mut Vec<Fissure>, now: i64)
    ensures
        final(fs)@.len() == old(fs)@.len(),
        forall|i: int| 0 <= i < final(fs)@.len() ==> fissure_at(#[trigger] old(fs)@[i], final(fs)@[i], now),
{
    let ghost start = fs@;
    let mut i: usize = 0;
    while i < fs.len()
        invariant
            fs@.len() == start.len(),
            i <= fs@.len(),
            forall|j: int| 0 <= j < i ==> fissure_at(#[trigger] start[j], fs@[j], now),
            forall|j: int| i <= j < fs@.len() ==> #[trigger] fs@[j] == start[j],
        decreases fs@.len() - i,
    {
        let mut f = fs.remove(i);
        refresh_fissure(&mut f, now);
        fs.insert(i, f);
        i = i + 1;
    }
}

/// The text of a cycle that has ended and cannot be worked out here.
pub open spec fn switching() -> Seq<char> {
    "切换中"@
}

/// `d` is cycle `c` refreshed at `now`: its countdown while it lasts;
/// once over, Orb Vallis and Duviri are worked out afresh from the clock,
/// and other locations show that they are switching.
pub open spec fn cycle_at(c: CycleInfo, d: CycleInfo, now: i64) -> bool {
    let remain = c.expiry_ms.wrapping_sub(now);
    if remain <= 0 && c.name@ == "奥布山谷"@ {
        is_vallis_cycle(d, now)
    } else if remain <= 0 && c.name@ == "双衍王境"@ {
        is_duviri_cycle(d, now)
    } else {
        &&& d.name@ == c.name@
        &&& d.state@ == c.state@
        &&& d.state_icon@ == c.state_icon@
        &&& d.is_day == c.is_day
        &&& d.expiry_ms == c.expiry_ms
        &&& d.remain_ms == if remain <= 0 {
            0
        } else {
            remain
        }
        &&& d.remain_str@ == if remain <= 0 {
            switching()
        } else {
            remain_text(remain)
        }
    }
}

/// Refresh a cycle for `now`.
pub fn refresh_cycle(c: &mut CycleInfo, now: i64)
    ensures
        cycle_at(*old(c), *final(c), now),
{
    let remain = c.expiry_ms.wrapping_sub(now);
    if remain <= 0 {
        if str_eq(c.name.as_str(), "奥布山谷") {
            *c = parse_vallis_cycle_at(now);
        } else if str_eq(c.name.as_str(), "双衍王境") {
            *c = parse_duviri_cycle_at(now);
        } else {
            c.remain_ms = 0;
            c.remain_str = owned("切换中");
        }
    } else {
        c.remain_ms = remain;
        c.remain_str = fmt_remain(remain);
    }
}

/// Refresh a list of cycles for `now`.
pub fn refresh_cycles(cs: &mut Vec<CycleInfo>, now: i64)
    ensures
        final(cs)@.len() == old(cs)@.len(),
        forall|i: int| 0 <= i < final(cs)@.len() ==> cycle_at(#[trigger] old(cs)@[i], final(cs)@[i], now),
{
    let ghost start = cs@;
    let mut i: usize = 0;
    while i < cs.len()
        invariant
            cs@.len() == start.len(),
            i <= cs@.len(),
            forall|j: int| 0 <= j < i ==> cycle_at(#[trigger] start[j], cs@[j], now),
            forall|j: int| i <= j < cs@.len() ==> #[trigger] cs@[j] == start[j],
        decreases cs@.len() - i,
    {
        let mut c = cs.remove(i);
        refresh_cycle(&mut c, now);
        cs.insert(i, c);
        i = i + 1;
    }
}


// ── The Void Trader ─────────────────────────────────────────────────────────

/// `c` is the Void Trader `b` at `now`: he counts as arrived once `now`
/// reaches his arrival, and the countdown runs to his departure once he is
/// here, to his arrival before. The countdown's text is left as it was.
pub open spec fn baro_at(b: BaroInfo, c: BaroInfo, now: i64) -> bool {
    &&& c.active == (b.active || now >= b.start_ms)
    &&& c.remain_ms == (if c.active {
        b.end_ms
    } else {
        b.start_ms
    }).wrapping_sub(now)
    &&& c.location@ == b.location@
    &&& c.start_ms == b.start_ms
    &&& c.end_ms == b.end_ms
    &&& c.remain_str@ == b.remain_str@
    &&& c.items@ == b.items@
}

/// Set the Void Trader's countdown for `now`, flipping to the departure
/// countdown once the arrival time has passed.
pub fn refresh_baro(b: &mut BaroInfo, now: i64)
    ensures
        baro_at(*old(b), *final(b), now),
{
    if !b.active && now >= b.start_ms {
        b.active = true;
    }
    let target = if b.active {
        b.end_ms
    } else {
        b.start_ms
    };
    b.remain_ms = target.wrapping_sub(now);
}

/// Set the countdowns of a list of Void Trader entries for `now`.
pub fn refresh_baros(bs: &mut Vec<BaroInfo>, now: i64)
    ensures
        final(bs)@.len() == old(bs)@.len(),
        forall|i: int| 0 <= i < final(bs)@.len() ==> baro_at(#[trigger] old(bs)@[i], final(bs)@[i], now),
{
    let ghost start = bs@;
    let mut i: usize = 0;
    while i < bs.len()
        invariant
            bs@.len() == start.len(),
            i <= bs@.len(),
            forall|j: int| 0 <= j < i ==> baro_at(#[trigger] start[j], bs@[j], now),
            forall|j: int| i <= j < bs@.len() ==> #[trigger] bs@[j] == start[j],
        decreases bs@.len() - i,
    {
        let mut b = bs.remove(i);
        refresh_baro(&mut b, now);
        bs.insert(i, b);
        i = i + 1;
    }
}


// ── The refresh countdown ───────────────────────────────────────────────────

/// The world state is fetched again this many seconds after the last fetch.
pub const REFRESH_SEC: u32 = 300;

/// Whole seconds since the last fetch by the wall clock (0 when the clock
/// went back).
pub open spec fn seconds_since(now: i64, last_fetch_ms: i64) -> u32 {
    let diff = now.wrapping_sub(last_fetch_ms);
    if diff > 0 {
        (diff / 1000) as u32
    } else {
        0
    }
}

/// The countdown to the next fetch, derived from the wall clock at each tick,
/// and whether the fetch is overdue (a missed fetch is made up from the
/// tick).
pub fn fetch_countdown(now: i64, last_fetch_ms: i64) -> (r: (u32, bool))
    ensures
        r.0 == REFRESH_SEC.saturating_sub(seconds_since(now, last_fetch_ms)),
        r.1 == (seconds_since(now, last_fetch_ms) >= REFRESH_SEC),
        r.1 <==> r.0 == 0,
{
    let diff = now.wrapping_sub(last_fetch_ms);
    let elapsed: u32 = if diff > 0 {
        (diff / 1000) as u32
    } else {
        0
    };
    (REFRESH_SEC.saturating_sub(elapsed), elapsed >= REFRESH_SEC)
}

} // verus!
