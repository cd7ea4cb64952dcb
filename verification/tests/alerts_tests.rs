use voxalic::alerts::{check_arbitration_alerts, check_cycle_advance_alerts, check_cycle_alerts, check_fissure_alerts, record_notification, SubNotify, NOTIFY_CAP};
use voxalic::config::{ArbitrationAlert, CycleAlert, FissureAlert};
use voxalic::models::{ArbitrationInfo, ArbitrationSlot, CycleInfo, Fissure};

fn fissure(node: &str, tier: &str, mission: &str, hard: bool, expiry: i64, remain: i64) -> Fissure {
    Fissure {
        node_key: node.to_string(),
        node_name: format!("{} name", node),
        planet: "木星".to_string(),
        mission_type: mission.to_string(),
        tier_key: "VoidT1".to_string(),
        tier_label: tier.to_string(),
        expiry_ms: expiry,
        is_hard: hard,
        is_storm: false,
        remain_ms: remain,
        remain_str: "5m 00s".to_string(),
        is_expiring: false,
    }
}

fn rule(tier: &str, mission: &str, difficulty: &str) -> FissureAlert {
    FissureAlert { tier: tier.to_string(), mission_type: mission.to_string(), difficulty: difficulty.to_string() }
}

#[test]
fn fissure_rules_notify_each_fissure_once() {
    let fs = vec![
        fissure("SolNode10", "古纪", "生存", false, 1000, 300_000),
        fissure("SolNode11", "中纪", "生存", false, 2000, 300_000),
        fissure("SolNode12", "古纪", "防御", true, 3000, 300_000),
        fissure("SolNode13", "古纪", "生存", false, 4000, 0),
    ];
    let rules = vec![rule("古纪", "", "")];
    let mut notified: Vec<String> = Vec::new();
    let first = check_fissure_alerts(&fs, &rules, &mut notified, 77);
    assert_eq!(first.len(), 2);
    assert_eq!(first[0].kind, "fissure");
    assert_eq!(first[0].title, "普通 古纪 生存");
    assert_eq!(first[0].detail, "SolNode10 name · 木星 · 剩余 5m 00s");
    assert_eq!(first[0].ts, 77);
    assert_eq!(first[0].sub, "normal");
    assert_eq!(first[1].title, "钢铁 古纪 防御");
    assert_eq!(first[1].sub, "hard");
    let mut keys = notified.clone();
    keys.sort();
    assert_eq!(keys, vec!["SolNode10:1000".to_string(), "SolNode12:3000".to_string()]);
    // A second check with the same fissures notifies nothing.
    let again = check_fissure_alerts(&fs, &rules, &mut notified, 78);
    assert!(again.is_empty());
    // Once a fissure is gone its key is forgotten.
    let later = vec![fs[0].clone()];
    let third = check_fissure_alerts(&later, &rules, &mut notified, 79);
    assert!(third.is_empty());
    assert_eq!(notified, vec!["SolNode10:1000".to_string()]);
}

#[test]
fn fissure_rules_filter_by_difficulty_and_mission() {
    let fs = vec![
        fissure("A", "古纪", "生存", false, 1, 10),
        fissure("B", "古纪", "生存", true, 2, 10),
    ];
    let mut notified: Vec<String> = Vec::new();
    let r = check_fissure_alerts(&fs, &[rule("", "生存", "hard")], &mut notified, 0);
    assert_eq!(r.len(), 1);
    assert_eq!(r[0].node, "B name");
    let mut none: Vec<String> = vec!["x:1".to_string()];
    let r2 = check_fissure_alerts(&fs, &[], &mut none, 0);
    assert!(r2.is_empty());
    assert_eq!(none, vec!["x:1".to_string()]);
}

fn cycle(name: &str, state: &str, remain: i64) -> CycleInfo {
    CycleInfo {
        name: name.to_string(),
        state: state.to_string(),
        state_icon: String::new(),
        remain_ms: remain,
        is_day: true,
        remain_str: "10m 00s".to_string(),
        expiry_ms: 0,
    }
}

fn cycle_rule(location: &str, state: &str, minutes: u32) -> CycleAlert {
    CycleAlert { location: location.to_string(), state: state.to_string(), advance_minutes: minutes }
}

#[test]
fn cycle_transitions_notify_on_change_only() {
    let rules = vec![cycle_rule("奥布山谷", "极寒", 0)];
    let mut prev: Vec<(String, String)> = Vec::new();
    let cs = vec![cycle("奥布山谷", "极寒", 600_000)];
    let first = check_cycle_alerts(&cs, &rules, &mut prev, 5);
    assert_eq!(first.len(), 1);
    assert_eq!(first[0].title, "奥布山谷 · 极寒");
    assert_eq!(first[0].detail, "剩余 10m 00s");
    assert_eq!(first[0].icon, "🌓");
    assert_eq!(prev, vec![("奥布山谷".to_string(), "极寒".to_string())]);
    assert!(check_cycle_alerts(&cs, &rules, &mut prev, 6).is_empty());
    let warm = vec![cycle("奥布山谷", "温度上升", 100_000)];
    assert!(check_cycle_alerts(&warm, &rules, &mut prev, 7).is_empty());
    assert_eq!(prev, vec![("奥布山谷".to_string(), "温度上升".to_string())]);
    assert_eq!(check_cycle_alerts(&cs, &rules, &mut prev, 8).len(), 1);
}

#[test]
fn advance_notice_fires_once_per_phase() {
    let rules = vec![cycle_rule("夜灵平野", "黑夜", 5)];
    let mut fired: Vec<String> = Vec::new();
    let far = vec![cycle("夜灵平野", "白天", 600_000)];
    assert!(check_cycle_advance_alerts(&far, &rules, &mut fired, 1).is_empty());
    let near = vec![cycle("夜灵平野", "白天", 300_000)];
    let r = check_cycle_advance_alerts(&near, &rules, &mut fired, 2);
    assert_eq!(r.len(), 1);
    assert_eq!(r[0].title, "夜灵平野 · 即将进入黑夜");
    assert_eq!(r[0].detail, "还有 5 分钟，请做好准备");
    assert_eq!(r[0].icon, "⏰");
    assert_eq!(fired, vec!["夜灵平野|黑夜|5".to_string()]);
    assert!(check_cycle_advance_alerts(&near, &rules, &mut fired, 3).is_empty());
    let night = vec![cycle("夜灵平野", "黑夜", 3_000_000)];
    assert!(check_cycle_advance_alerts(&night, &rules, &mut fired, 4).is_empty());
    assert!(fired.is_empty());
    assert_eq!(check_cycle_advance_alerts(&near, &rules, &mut fired, 5).len(), 1);
    // Other locations have no advance notice.
    let mut f2: Vec<String> = Vec::new();
    let other = vec![cycle("奥布山谷", "温度上升", 1)];
    assert!(check_cycle_advance_alerts(&other, &[cycle_rule("奥布山谷", "极寒", 5)], &mut f2, 0).is_empty());
}

fn arbitration(node: &str, mission: &str, planet: &str, expiry: i64) -> ArbitrationInfo {
    ArbitrationInfo {
        current: ArbitrationSlot {
            node: node.to_string(),
            planet: planet.to_string(),
            mission: mission.to_string(),
            faction: "Grineer".to_string(),
            min_level: 60,
            max_level: 80,
            archwing: false,
        },
        upcoming: Vec::new(),
        expiry_ms: expiry,
        remain_ms: 1000,
        remain_str: "1s".to_string(),
        all_missions: Vec::new(),
        all_planets: Vec::new(),
    }
}

#[test]
fn arbitration_notifies_once_per_slot() {
    let rules = vec![
        ArbitrationAlert { mission_type: "生存".to_string(), planet: String::new() },
        ArbitrationAlert { mission_type: String::new(), planet: "冥王星".to_string() },
        ArbitrationAlert { mission_type: "防御".to_string(), planet: String::new() },
    ];
    let a = arbitration("Hydron", "生存", "冥王星", 1000);
    let mut key = String::new();
    let r = check_arbitration_alerts(Some(&a), &rules, &mut key, 9);
    assert_eq!(r.len(), 2);
    assert_eq!(r[0].title, "仲裁 · 生存");
    assert_eq!(r[0].detail, "Hydron · 冥王星 · Lv 60-80 · 剩余 1s");
    assert_eq!(key, "Hydron:1000");
    assert!(check_arbitration_alerts(Some(&a), &rules, &mut key, 10).is_empty());
    assert!(check_arbitration_alerts(None, &rules, &mut key, 11).is_empty());
    assert_eq!(key, "Hydron:1000");
    let b = arbitration("Helene", "防御", "土星", 2000);
    let r2 = check_arbitration_alerts(Some(&b), &rules, &mut key, 12);
    assert_eq!(r2.len(), 1);
    assert_eq!(key, "Helene:2000");
}

fn notice(ts: i64) -> SubNotify {
    SubNotify {
        kind: "cycle".to_string(),
        icon: String::new(),
        title: format!("t{}", ts),
        detail: String::new(),
        ts,
        node: String::new(),
        sub: String::new(),
    }
}

#[test]
fn popup_list_keeps_the_newest_fifty() {
    let mut list: Vec<SubNotify> = Vec::new();
    record_notification(&mut list, notice(1));
    record_notification(&mut list, notice(2));
    assert_eq!(list.iter().map(|n| n.ts).collect::<Vec<_>>(), vec![2, 1]);
    for ts in 3..=60 {
        record_notification(&mut list, notice(ts));
    }
    assert_eq!(list.len(), NOTIFY_CAP);
    assert_eq!(list[0].ts, 60);
    assert_eq!(list[49].ts, 11);
}
