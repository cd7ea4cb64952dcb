//! User-configurable subscription rules and the default reminder texts.

use vstd::prelude::*;

verus! {

/// One fissure subscription rule. An empty field matches anything.
#[derive(Debug, Clone)]
pub struct FissureAlert {
    /// Era label: `古纪`, `前纪`, `中纪`, `后纪`, `安魂`, `全能` or empty.
    pub tier: String,
    /// Mission type label or empty.
    pub mission_type: String,
    /// `normal`, `hard`, `storm` or empty.
    pub difficulty: String,
}

/// One cycle subscription rule: triggers when `location`'s state becomes
/// `state`; with `advance_minutes` > 0, that many minutes before it.
#[derive(Debug, Clone)]
pub struct CycleAlert {
    /// A `CycleInfo` name.
    pub location: String,
    /// The state to match.
    pub state: String,
    /// 0 = on transition, 5/10/15 = advance notice.
    pub advance_minutes: u32,
}

/// One arbitration subscription rule. An empty field matches anything.
#[derive(Debug, Clone)]
pub struct ArbitrationAlert {
    pub mission_type: String,
    pub planet: String,
}

/// The default reminder for the 5-minute checkpoint (`{min}` is the
/// milestone reached).
pub fn default_checkpoint_text() -> (r: String)
    ensures
        r@ == "⚠ 到达 {min} 分钟节点 — 请切回游戏"@,
{
    crate::text::owned("⚠ 到达 {min} 分钟节点 — 请切回游戏")
}

/// The default reminder for life support at or below 20%.
pub fn default_hp_alert_text() -> (r: String)
    ensures
        r@ == "🚨 维生系统 ≤ 20% — 请补充维生胶囊"@,
{
    crate::text::owned("🚨 维生系统 ≤ 20% — 请补充维生胶囊")
}


/// The default timer mode.
pub fn default_timer_mode() -> (r: String)
    ensures
        r@ == "normal"@,
{
    crate::text::owned("normal")
}

/// The default screen-reading interval, in seconds.
pub fn default_ocr_interval() -> (r: u32)
    ensures
        r == 2,
{
    2
}

/// The default of switches that start on.
pub fn default_true() -> (r: bool)
    ensures
        r,
{
    true
}

/// The default game window title.
pub fn default_window_title() -> (r: String)
    ensures
        r@ == "Warframe"@,
{
    crate::text::owned("Warframe")
}

/// The default way of alerting at a checkpoint.
pub fn default_alert_method() -> (r: String)
    ensures
        r@ == "focus"@,
{
    crate::text::owned("focus")
}

/// The default update source.
pub fn default_update_source() -> (r: String)
    ensures
        r@ == "gitee"@,
{
    crate::text::owned("gitee")
}

/// The default language of market names.
pub fn default_market_language() -> (r: String)
    ensures
        r@ == "en"@,
{
    crate::text::owned("en")
}

/// Closing the window hides it to the tray by default.
pub fn default_close_to_tray() -> (r: bool)
    ensures
        r,
{
    true
}

/// The default world-state source.
pub fn default_worldstate_source() -> (r: String)
    ensures
        r@ == "official"@,
{
    crate::text::owned("official")
}


/// The checkpoint reminder as a test shows it: the configured wording (the
/// default one when blank) with `{min}` as 5.
pub open spec fn checkpoint_sample(text: Seq<char>) -> Seq<char> {
    let tpl = if crate::textscan::trim(text).len() == 0 {
        "⚠ 到达 {min} 分钟节点 — 请切回游戏"@
    } else {
        text
    };
    crate::textscan::replace_all(tpl, "{min}"@, "5"@)
}

/// The checkpoint reminder as a test shows it.
pub fn checkpoint_sample_text(text: &str) -> (r: String)
    ensures
        r@ == checkpoint_sample(text@),
{
    let trimmed = crate::textscan::trim_str(text);
    let tpl = if trimmed.as_str().is_empty() {
        default_checkpoint_text()
    } else {
        crate::text::owned(text)
    };
    proof {
        reveal_strlit("{min}");
    }
    crate::textscan::replace_str(tpl.as_str(), "{min}", "5")
}

} // verus!
