use voxalic::json::{Json, JsonNumber};
use voxalic::decimal::float_text_to_i64;
use voxalic::worldstate::{
    active_syndicate_expiry, fmt_remain, get_ms, is_active_at, mission_type, node_lookup, parse_cycles_at,
    parse_duviri_cycle_at, parse_fissures_at, parse_vallis_cycle_at, parse_zariman_cycle, tier_label,
    tier_order, to_ms, DUVIRI_EPOCH, VALLIS_EPOCH,
};

fn s(t: &str) -> Json {
    Json::Str(t.to_string())
}
fn b(v: bool) -> Json {
    Json::Bool(v)
}
fn obj(m: Vec<(&str, Json)>) -> Json {
    Json::Object(m.into_iter().map(|(k, v)| (k.to_string(), v)).collect())
}
fn date(ms: i64) -> Json {
    obj(vec![("$date", obj(vec![("$numberLong", s(&ms.to_string()))]))])
}

const NOW: i64 = 1_700_000_050_000;

#[test]
fn remaining_time_text() {
    assert_eq!(fmt_remain(0), "切换中");
    assert_eq!(fmt_remain(-5), "切换中");
    assert_eq!(fmt_remain(999), "0s");
    assert_eq!(fmt_remain(5_000), "5s");
    assert_eq!(fmt_remain(65_000), "1m 05s");
    assert_eq!(fmt_remain(3_723_000), "1h 02m 03s");
    assert_eq!(fmt_remain(36_000_000), "10h 00m 00s");
}

#[test]
fn timestamps_in_seconds_become_milliseconds() {
    assert_eq!(to_ms(1_700_000_000), 1_700_000_000_000);
    assert_eq!(to_ms(1_700_000_000_000), 1_700_000_000_000);
    assert_eq!(get_ms(&Json::Number(JsonNumber::PosInt(1_700_000_000))), 1_700_000_000_000);
    assert_eq!(get_ms(&s("1700000000000")), 1_700_000_000_000);
    assert_eq!(get_ms(&date(1_700_000_000_000)), 1_700_000_000_000);
    assert_eq!(get_ms(&obj(vec![("$date", s("1700000000"))])), 1_700_000_000_000);
    assert_eq!(get_ms(&s("soon")), 0);
    assert_eq!(get_ms(&Json::Null), 0);
    assert!(is_active_at(&date(NOW - 1), &date(NOW + 1), NOW));
    assert!(!is_active_at(&date(NOW - 1), &date(NOW), NOW));
}

fn double_date(t: &str) -> Json {
    obj(vec![("$date", obj(vec![("$numberDouble", s(t))]))])
}

#[test]
fn number_double_dates_are_read_as_floats() {
    assert_eq!(get_ms(&double_date("1.72e12")), 1_720_000_000_000);
    assert_eq!(get_ms(&double_date("1720000000000.9")), 1_720_000_000_000);
    assert_eq!(get_ms(&double_date("1.7e9")), 1_700_000_000_000);
    assert_eq!(get_ms(&double_date("1.72e")), 0);
    assert_eq!(get_ms(&double_date("x")), 0);
}

#[test]
fn float_texts_truncate_toward_zero() {
    assert_eq!(float_text_to_i64("1.72e12"), Some(1_720_000_000_000));
    assert_eq!(float_text_to_i64("-3.9"), Some(-3));
    assert_eq!(float_text_to_i64(".5E+1"), Some(5));
    assert_eq!(float_text_to_i64("12."), Some(12));
    assert_eq!(float_text_to_i64("+7"), Some(7));
    assert_eq!(float_text_to_i64("1e400"), Some(i64::MAX));
    assert_eq!(float_text_to_i64("-1e30"), Some(i64::MIN));
    assert_eq!(float_text_to_i64("123e-400"), Some(0));
    assert_eq!(float_text_to_i64("99999999999999999999999999e-20"), Some(999_999));
    assert_eq!(float_text_to_i64("."), None);
    assert_eq!(float_text_to_i64("1e+"), None);
    assert_eq!(float_text_to_i64("1.2.3"), None);
    assert_eq!(float_text_to_i64(""), None);
}

#[test]
fn tier_and_mission_tables() {
    assert_eq!(tier_label("VoidT1"), "古纪");
    assert_eq!(tier_label("VoidT3"), "中纪");
    assert_eq!(tier_label("VoidT6"), "全能");
    assert_eq!(tier_label("VoidT7"), "VoidT7");
    assert_eq!(tier_order("VoidT6"), 6);
    assert_eq!(tier_order("Kuva"), 99);
    assert_eq!(mission_type("MT_SURVIVAL"), "生存");
    assert_eq!(mission_type("MT_EXTERMINATION"), "歼灭");
    assert_eq!(mission_type("MT_NEW"), "MT_NEW");
    assert_eq!(mission_type(""), "未知");
    assert_eq!(mission_type("MT_DEFENSE"), "防御");
    assert_eq!(mission_type("MT_ARTIFACT"), "中断");
    let n = node_lookup("SolNode10");
    assert_eq!((n.name, n.planet, n.mission), ("Thebe", "木星", ""));
    let u = node_lookup("NoSuchNode");
    assert_eq!((u.name, u.planet, u.mission), ("", "未知", ""));
}

fn mission(node: &str, tier: &str, hard: bool, act: i64, exp: i64) -> Json {
    obj(vec![
        ("Activation", date(act)),
        ("Expiry", date(exp)),
        ("Hard", b(hard)),
        ("MissionType", s("MT_SURVIVAL")),
        ("Modifier", s(tier)),
        ("Node", s(node)),
    ])
}

#[test]
fn fissures_are_grouped_and_sorted_by_tier() {
    let data = obj(vec![
        (
            "ActiveMissions",
            Json::Array(vec![
                mission("SolNode10", "VoidT3", false, NOW - 10_000, NOW + 50_000),
                mission("SolNode10", "VoidT1", true, NOW - 10_000, NOW + 3_600_000),
                mission("NoSuchNode", "VoidT1", false, NOW - 10_000, NOW + 3_600_000),
                mission("SolNode10", "VoidT2", false, NOW - 20_000, NOW - 10_000),
                mission("SolNode10", "Kuva", false, NOW - 10_000, NOW + 3_600_000),
            ]),
        ),
        (
            "VoidStorms",
            Json::Array(vec![obj(vec![
                ("Activation", date(NOW - 10_000)),
                ("ActiveMissionTier", s("VoidT2")),
                ("Expiry", date(NOW + 600_000)),
                ("Node", s("CrewBattleNode502")),
            ])]),
        ),
    ]);
    let (normal, hard, storm) = parse_fissures_at(&data, NOW);
    assert_eq!(normal.len(), 2);
    assert_eq!(normal[0].tier_key, "VoidT1");
    assert_eq!(normal[0].node_name, "NoSuchNode");
    assert_eq!(normal[0].planet, "未知");
    assert_eq!(normal[1].tier_key, "VoidT3");
    assert_eq!(normal[1].tier_label, "中纪");
    assert_eq!(normal[1].node_name, "Thebe");
    assert_eq!(normal[1].mission_type, "生存");
    assert_eq!(normal[1].remain_ms, 50_000);
    assert_eq!(normal[1].remain_str, "50s");
    assert!(normal[1].is_expiring);
    assert!(!normal[0].is_expiring);
    assert!(!normal[1].is_hard);
    assert_eq!(hard.len(), 1);
    assert!(hard[0].is_hard);
    assert_eq!(hard[0].remain_str, "1h 00m 00s");
    assert_eq!(storm.len(), 1);
    assert!(storm[0].is_storm);
    assert_eq!(storm[0].node_name, "深眠峡道");
    assert_eq!(storm[0].mission_type, "前哨战");
    assert_eq!(storm[0].tier_label, "前纪");
    assert_eq!(storm[0].expiry_ms, NOW + 600_000);
}

#[test]
fn fissures_of_an_empty_world_state() {
    let (a, b, c) = parse_fissures_at(&Json::Null, NOW);
    assert!(a.is_empty() && b.is_empty() && c.is_empty());
}

#[test]
fn orb_vallis_phases() {
    let warm = parse_vallis_cycle_at(VALLIS_EPOCH);
    assert_eq!(warm.name, "奥布山谷");
    assert_eq!(warm.state, "温度上升");
    assert_eq!(warm.remain_ms, 400_000);
    assert_eq!(warm.remain_str, "6m 40s");
    assert!(warm.is_day);
    assert_eq!(warm.expiry_ms, VALLIS_EPOCH + 400_000);
    let cold = parse_vallis_cycle_at(VALLIS_EPOCH + 500_000);
    assert_eq!(cold.state, "极寒");
    assert_eq!(cold.remain_ms, 1_100_000);
    assert_eq!(cold.remain_str, "18m 20s");
    assert!(!cold.is_day);
}

#[test]
fn duviri_moods_rotate() {
    let c = parse_duviri_cycle_at(DUVIRI_EPOCH + 2 * 7_200_000 + 1_000);
    assert_eq!(c.state, "喜悦");
    assert_eq!(c.remain_ms, 7_199_000);
    assert_eq!(c.remain_str, "1h 59m 59s");
    assert_eq!(parse_duviri_cycle_at(DUVIRI_EPOCH).state, "悲伤");
    assert_eq!(parse_duviri_cycle_at(DUVIRI_EPOCH + 5 * 7_200_000).state, "悲伤");
    assert_eq!(parse_duviri_cycle_at(DUVIRI_EPOCH + 4 * 7_200_000).state, "嫉妒");
}

fn syndicate(tag: &str, act: i64, exp: i64) -> Json {
    obj(vec![("Activation", date(act)), ("Expiry", date(exp)), ("Tag", s(tag))])
}

#[test]
fn zariman_and_plains_follow_syndicate_missions() {
    let data = obj(vec![(
        "SyndicateMissions",
        Json::Array(vec![
            syndicate("ZarimanSyndicate", NOW - 3_000_000, NOW + 600_000),
            syndicate("HexSyndicate", NOW - 1_000_000, NOW + 2_000_000),
        ]),
    )]);
    let z = parse_zariman_cycle(&data, NOW);
    assert_eq!(z.state, "Grineer占领");
    assert_eq!(z.remain_ms, 600_000);
    assert_eq!(active_syndicate_expiry(&data, "ZarimanSyndicate", NOW), NOW + 600_000);
    assert_eq!(active_syndicate_expiry(&data, "EntratiSyndicate", NOW), 0);
    let none = parse_zariman_cycle(&Json::Null, NOW);
    assert_eq!(none.state, "未知");
    assert_eq!(none.remain_str, "切换中");
    let all = parse_cycles_at(&data, NOW);
    assert_eq!(all.len(), 6);
    assert_eq!(all[0].name, "夜灵平野");
    assert_eq!(all[1].name, "魔胎之境");
    assert_eq!(all[0].state, "黑夜");
    assert_eq!(all[0].remain_ms, 2_000_000);
    assert_eq!(all[2].name, "奥布山谷");
    assert_eq!(all[3].name, "双衍王境");
    assert_eq!(all[4].name, "扎里曼");
    assert_eq!(all[5].name, "霍瓦尼亚");
    assert_eq!(all[5].state, "黑夜");
    assert_eq!(all[5].remain_ms, 2_000_000);
}

#[test]
fn plains_without_hex_bounty_is_unknown() {
    let all = parse_cycles_at(&Json::Null, NOW);
    assert_eq!(all.len(), 6);
    for i in [0usize, 1, 5] {
        assert_eq!(all[i].state, "未知");
        assert_eq!(all[i].remain_ms, 0);
        assert_eq!(all[i].remain_str, "切换中");
    }
}
