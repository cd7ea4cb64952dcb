use base64::Engine;
use voxalic::board::{
    fetch_countdown, refresh_baro, refresh_baros, refresh_cycle, refresh_cycles, refresh_fissure, refresh_fissures,
    REFRESH_SEC,
};
use voxalic::models::{BaroInfo, BaroItem};
use voxalic::config::{
    checkpoint_sample_text, default_alert_method, default_checkpoint_text, default_close_to_tray,
    default_hp_alert_text, default_market_language, default_ocr_interval, default_timer_mode, default_true,
    default_update_source, default_window_title, default_worldstate_source,
};
use voxalic::frames::{bgra_to_rgb, crop_rect, is_black_frame, preview_data_url};
use voxalic::hotkey::{parse_hotkey_string, parse_key_code, KeyCode, Modifiers};
use voxalic::i18n::{compact_names, ItemNames};
use voxalic::keyset::{contains_key, insert_key, remove_key, retain_keys};
use voxalic::models::{CycleInfo, Fissure};
use voxalic::notify::{bark_url, pct_encode};
use voxalic::tray::{glow_levels, hole_mask, popup_watch_step};
use voxalic::windows::{filter_windows, resolve_hwnd, text_lt, WindowInfo};
use voxalic::worldstate::VALLIS_EPOCH;

#[test]
fn hotkeys_parse_modifiers_and_key() {
    let s = parse_hotkey_string("Ctrl+Shift+F9").unwrap();
    assert_eq!(s.key, KeyCode::F9);
    assert_eq!(s.modifiers, Modifiers { control: true, alt: false, shift: true, meta: false });
    let t = parse_hotkey_string(" Alt + Win + Esc ").unwrap();
    assert_eq!(t.key, KeyCode::Escape);
    assert!(t.modifiers.alt && t.modifiers.meta && !t.modifiers.control);
    let k = parse_hotkey_string("F8").unwrap();
    assert_eq!(k.modifiers, Modifiers { control: false, alt: false, shift: false, meta: false });
    assert_eq!(parse_hotkey_string("Ctrl+").unwrap_err(), "缺少按键，格式应为 Mod+Key 或 Key");
    assert_eq!(parse_hotkey_string("Ctrl+F13").unwrap_err(), "未知按键: F13");
    assert_eq!(parse_hotkey_string("Hyper+F1").unwrap_err(), "未知修饰键: Hyper");
    assert_eq!(parse_key_code("Return"), Some(KeyCode::Enter));
    assert_eq!(parse_key_code("a"), None);
}

#[test]
fn black_frames_allow_one_percent_of_lit_pixels() {
    let mut buf = vec![0u8; 100 * 4];
    assert!(is_black_frame(&buf, 4));
    buf[4 * 7 + 2] = 200;
    assert!(is_black_frame(&buf, 4));
    buf[4 * 9] = 9;
    assert!(!is_black_frame(&buf, 4));
    assert!(is_black_frame(&[8, 8, 8], 3));
    assert!(is_black_frame(&[], 3));
}

#[test]
fn cropping_takes_the_rectangle_without_alpha() {
    let frame: Vec<u8> = (0..24u8).collect();
    let (out, w, h) = crop_rect(&frame, 3, 2, 1, 0, 2, 2, 4).unwrap();
    assert_eq!((w, h), (2, 2));
    assert_eq!(out, vec![4, 5, 6, 8, 9, 10, 16, 17, 18, 20, 21, 22]);
    assert!(crop_rect(&frame, 3, 2, 2, 0, 2, 1, 4).is_none());
    assert!(crop_rect(&frame, 3, 2, 0, 0, 0, 1, 4).is_none());
    assert!(crop_rect(&frame, 3, 2, 0, 1, 1, 2, 4).is_none());
    assert_eq!(bgra_to_rgb(&[1, 2, 3, 4, 5, 6, 7, 8], 2), vec![3, 2, 1, 7, 6, 5]);
}

#[test]
fn preview_is_a_png_data_url() {
    let content = vec![10u8, 20, 30, 255, 40, 50, 60, 255];
    let url = preview_data_url(&content, 2, 1).unwrap();
    let prefix = "data:image/png;base64,";
    assert!(url.starts_with(prefix));
    let png = base64::engine::general_purpose::STANDARD.decode(&url[prefix.len()..]).unwrap();
    assert_eq!(&png[..8], &[0x89, b'P', b'N', b'G', 0x0D, 0x0A, 0x1A, 0x0A]);
    assert!(png.len() > 8);
}

#[test]
fn bark_urls_are_percent_encoded() {
    assert_eq!(pct_encode("a b/中"), "a%20b%2F%E4%B8%AD");
    assert_eq!(pct_encode("A-z_0.9~"), "A-z_0.9~");
    assert_eq!(pct_encode(""), "");
    assert_eq!(bark_url("https://api.day.app/KEY//", "T", "x y"), "https://api.day.app/KEY/T/x%20y");
    assert_eq!(bark_url("https://h/k", "维生", "20%"), "https://h/k/%E7%BB%B4%E7%94%9F/20%25");
}

fn pct_decode(s: &str) -> Vec<u8> {
    let b = s.as_bytes();
    let mut out = Vec::new();
    let mut i = 0;
    while i < b.len() {
        if b[i] == b'%' && i + 2 < b.len() {
            out.push(u8::from_str_radix(&s[i + 1..i + 3], 16).unwrap());
            i += 3;
        } else {
            out.push(b[i]);
            i += 1;
        }
    }
    out
}

#[test]
fn percent_decoding_gives_back_the_bytes() {
    for t in ["a b/中", "100% ~ok", "", "维生系统低于 20%"] {
        assert_eq!(pct_decode(&pct_encode(t)), t.as_bytes());
    }
}

#[test]
fn downloaded_names_are_found_after_an_update() {
    let raw = vec![
        ("/Lotus/Types/A".to_string(), Some("甲".to_string())),
        ("/Lotus/Types/B".to_string(), None),
        ("/Lotus/Types/C".to_string(), Some("丙".to_string())),
    ];
    let t = compact_names(raw).unwrap();
    assert_eq!(t.translate("/Lotus/Types/A"), Some("甲".to_string()));
    assert_eq!(t.translate("/Lotus/StoreItems/Types/C"), Some("丙".to_string()));
    assert_eq!(t.translate("/Lotus/Types/B"), None);
    assert_eq!(t.translate("/Lotus/Types/D"), None);
}

fn baro(active: bool, start: i64, end: i64) -> BaroInfo {
    BaroInfo {
        active,
        location: "Strata Relay".to_string(),
        start_ms: start,
        end_ms: end,
        remain_ms: 0,
        remain_str: "2天".to_string(),
        items: vec![BaroItem { name: "Primed".to_string(), ducats: 300, credits: 100_000 }],
    }
}

#[test]
fn baro_counts_down_to_arrival_then_departure() {
    let mut b = baro(false, 1_000_000, 5_000_000);
    refresh_baro(&mut b, 400_000);
    assert!(!b.active);
    assert_eq!(b.remain_ms, 600_000);
    refresh_baro(&mut b, 1_000_000);
    assert!(b.active);
    assert_eq!(b.remain_ms, 4_000_000);
    refresh_baro(&mut b, 6_000_000);
    assert!(b.active);
    assert_eq!(b.remain_ms, -1_000_000);
    assert_eq!(b.remain_str, "2天");
    assert_eq!(b.items.len(), 1);
    let mut bs = vec![baro(false, 10, 20), baro(true, 0, 30)];
    refresh_baros(&mut bs, 15);
    assert!(bs[0].active && bs[1].active);
    assert_eq!(bs[0].remain_ms, 5);
    assert_eq!(bs[1].remain_ms, 15);
}

#[test]
fn item_names_strip_store_items() {
    let names = ItemNames { entries: vec![("/Lotus/Types/A".to_string(), "甲".to_string())] };
    assert_eq!(names.translate("/Lotus/Types/A"), Some("甲".to_string()));
    assert_eq!(names.translate("/Lotus/StoreItems/Types/A"), Some("甲".to_string()));
    assert_eq!(names.translate("/Lotus/Types/B"), None);
    assert_eq!(names.count(), 1);
    let builtin = vec![("x".to_string(), "y".to_string())];
    let current = || ItemNames { entries: builtin.clone() };
    assert_eq!(ItemNames::select_table(Some(Vec::new()), current()).entries, builtin);
    assert_eq!(ItemNames::select_table(None, current()).entries, builtin);
    let saved = vec![("p".to_string(), "q".to_string())];
    assert_eq!(ItemNames::select_table(Some(saved.clone()), current()).entries, saved);
    let empty = compact_names(vec![("a".to_string(), None)]);
    assert_eq!(empty.err().unwrap(), "解析结果为空（数据源格式可能已变更）");
    let ok = compact_names(vec![
        ("a".to_string(), None),
        ("b".to_string(), Some("乙".to_string())),
        ("c".to_string(), Some("丙".to_string())),
    ])
    .ok()
    .unwrap();
    assert_eq!(ok.entries, vec![("b".to_string(), "乙".to_string()), ("c".to_string(), "丙".to_string())]);
}

fn win(title: &str, hwnd: usize, pid: u32) -> WindowInfo {
    WindowInfo { title: title.to_string(), hwnd, pid }
}

#[test]
fn game_window_falls_back_to_the_process_name() {
    let found = vec![win("Warframe guide", 5, 13)];
    let found_exe = vec![Some("chrome.exe".to_string())];
    let visible = vec![
        win("Notepad", 3, 12),
        win("Overlay", 7, 99),
        win("Ghost", 8, 0),
        win("Game", 9, 20),
        win("Game 2", 10, 21),
    ];
    let visible_exe = vec![
        Some("notepad.exe".to_string()),
        Some("Warframe.x64.exe".to_string()),
        Some("Warframe.x64.exe".to_string()),
        Some("Warframe.x64.exe".to_string()),
        Some("Warframe.x64.exe".to_string()),
    ];
    assert_eq!(resolve_hwnd(&found, &found_exe, &visible, &visible_exe, "WarFrame", 99), Some(9));
    assert_eq!(resolve_hwnd(&found, &found_exe, &visible[..3], &visible_exe[..3], "warframe", 99), None);
    let found_exe_hit = vec![Some("Warframe.exe".to_string())];
    assert_eq!(resolve_hwnd(&found, &found_exe_hit, &visible, &visible_exe, "warframe", 99), Some(5));
}

#[test]
fn windows_rank_exact_titles_first() {
    let ws = vec![
        win("Warframe Launcher", 1, 10),
        win("Notepad", 3, 12),
        win("warframe", 2, 11),
        win("WARFRAME", 4, 99),
        win("A Warframe guide", 5, 13),
    ];
    let found = filter_windows(ws, "Warframe", 99);
    let hwnds: Vec<usize> = found.iter().map(|w| w.hwnd).collect();
    assert_eq!(hwnds, vec![2, 5, 1]);
    assert_eq!(
        resolve_hwnd(
            &found,
            &[None, Some("Chrome.exe".to_string()), Some("Warframe.x64.exe".to_string())],
            &[],
            &[],
            "Warframe",
            99
        ),
        Some(1)
    );
    assert_eq!(resolve_hwnd(&found, &[None, None, None], &[], &[], "warframe", 99), None);
    assert!(text_lt("A", "a"));
    assert!(text_lt("", "a"));
    assert!(!text_lt("ab", "a"));
}

fn fissure(expiry: i64) -> Fissure {
    Fissure {
        node_key: "n".to_string(),
        node_name: "N".to_string(),
        planet: "p".to_string(),
        mission_type: "m".to_string(),
        tier_key: "VoidT1".to_string(),
        tier_label: "古纪".to_string(),
        expiry_ms: expiry,
        is_hard: false,
        is_storm: false,
        remain_ms: 0,
        remain_str: String::new(),
        is_expiring: false,
    }
}

fn cycle(name: &str, expiry: i64) -> CycleInfo {
    CycleInfo {
        name: name.to_string(),
        state: "白天".to_string(),
        state_icon: "☀️".to_string(),
        remain_ms: 0,
        is_day: true,
        remain_str: String::new(),
        expiry_ms: expiry,
    }
}

#[test]
fn board_countdowns_follow_the_clock() {
    let mut f = fissure(1_000_000);
    refresh_fissure(&mut f, 700_000);
    assert_eq!(f.remain_ms, 300_000);
    assert_eq!(f.remain_str, "5m 00s");
    assert!(!f.is_expiring);
    let mut fs = vec![fissure(1_000_000), fissure(0)];
    refresh_fissures(&mut fs, 999_000);
    assert_eq!(fs[0].remain_str, "1s");
    assert!(fs[0].is_expiring);
    assert_eq!(fs[1].remain_str, "切换中");
    assert!(!fs[1].is_expiring);

    let mut c = cycle("夜灵平野", 10_000);
    refresh_cycle(&mut c, 4_000);
    assert_eq!((c.remain_ms, c.remain_str.as_str(), c.state.as_str()), (6_000, "6s", "白天"));
    refresh_cycle(&mut c, 20_000);
    assert_eq!((c.remain_ms, c.remain_str.as_str()), (0, "切换中"));
    let mut cs = vec![cycle("奥布山谷", 0), cycle("扎里曼", 0)];
    refresh_cycles(&mut cs, VALLIS_EPOCH + 100_000);
    assert_eq!(cs[0].state, "温度上升");
    assert_eq!(cs[0].remain_ms, 300_000);
    assert_eq!(cs[1].state, "白天");
    assert_eq!(cs[1].remain_str, "切换中");
}

fn rgba(alpha: &[u8]) -> Vec<u8> {
    alpha.iter().flat_map(|a| [0, 0, 0, *a]).collect()
}

#[test]
fn tray_hole_is_the_enclosed_transparent_part() {
    // 5x5: an opaque 3x3 ring around the centre pixel; everything else clear.
    let mut alpha = vec![0u8; 25];
    for r in 1..4 {
        for c in 1..4 {
            if !(r == 2 && c == 2) {
                alpha[r * 5 + c] = 255;
            }
        }
    }
    let mask = hole_mask(&rgba(&alpha), 5, 5);
    let holes: Vec<usize> = (0..25).filter(|i| mask[*i]).collect();
    assert_eq!(holes, vec![12]);
    // A gap in the ring lets the centre reach the edge.
    alpha[7] = 0;
    let mask2 = hole_mask(&rgba(&alpha), 5, 5);
    assert!(mask2.iter().all(|m| !m));
    // A fully opaque image has no hole.
    let mask3 = hole_mask(&rgba(&[255u8; 4]), 2, 2);
    assert_eq!(mask3, vec![false; 4]);
}

#[test]
fn configuration_defaults() {
    assert_eq!(default_checkpoint_text(), "⚠ 到达 {min} 分钟节点 — 请切回游戏");
    assert_eq!(default_hp_alert_text(), "🚨 维生系统 ≤ 20% — 请补充维生胶囊");
    assert_eq!(default_timer_mode(), "normal");
    assert_eq!(default_ocr_interval(), 2);
    assert!(default_true());
    assert_eq!(default_window_title(), "Warframe");
    assert_eq!(default_alert_method(), "focus");
    assert_eq!(default_update_source(), "gitee");
    assert_eq!(default_market_language(), "en");
    assert_eq!(default_worldstate_source(), "official");
    assert!(default_close_to_tray());
    assert_eq!(checkpoint_sample_text("  "), "⚠ 到达 5 分钟节点 — 请切回游戏");
    assert_eq!(checkpoint_sample_text("{min}分钟 {min}"), "5分钟 5");
}

#[test]
fn key_sets() {
    let mut v: Vec<String> = Vec::new();
    assert!(insert_key(&mut v, "a"));
    assert!(!insert_key(&mut v, "a"));
    assert!(insert_key(&mut v, "b"));
    assert!(contains_key(&v, "b"));
    assert!(!contains_key(&v, "c"));
    remove_key(&mut v, "a");
    assert!(!contains_key(&v, "a"));
    insert_key(&mut v, "c");
    retain_keys(&mut v, &vec!["c".to_string(), "z".to_string()]);
    assert_eq!(v, vec!["c".to_string()]);
}

#[test]
fn glow_spreads_two_steps_from_the_hole() {
    let mut hole = vec![false; 25];
    hole[12] = true;
    let g = glow_levels(&hole, 5, 5);
    let expected: Vec<u8> = vec![
        255, 255, 2, 255, 255, //
        255, 2, 1, 2, 255, //
        2, 1, 0, 1, 2, //
        255, 2, 1, 2, 255, //
        255, 255, 2, 255, 255,
    ];
    assert_eq!(g, expected);
    assert_eq!(glow_levels(&vec![false; 4], 2, 2), vec![255; 4]);
    // A hole on the edge: neighbours do not wrap around rows.
    let mut edge = vec![false; 6];
    edge[2] = true;
    assert_eq!(glow_levels(&edge, 3, 2), vec![2, 1, 0, 255, 2, 1]);
}

#[test]
fn popup_hides_after_three_looks_away() {
    let tray = (1900, 1060);
    let popup = (1600, 700, 300, 340);
    assert_eq!(popup_watch_step(2, (1700, 800), tray, popup), (0, false));
    assert_eq!(popup_watch_step(2, (1600, 1040), tray, popup), (0, false));
    assert_eq!(popup_watch_step(1, (1930, 1090), tray, popup), (0, false));
    assert_eq!(popup_watch_step(0, (100, 100), tray, popup), (1, false));
    assert_eq!(popup_watch_step(1, (100, 100), tray, popup), (2, false));
    assert_eq!(popup_watch_step(2, (1931, 1060), tray, popup), (3, true));
}

#[test]
fn refresh_countdown_follows_the_wall_clock() {
    let last = 1_700_000_000_000;
    assert_eq!(fetch_countdown(last + 10_500, last), (290, false));
    assert_eq!(fetch_countdown(last + 299_999, last), (1, false));
    assert_eq!(fetch_countdown(last + 300_000, last), (0, true));
    assert_eq!(fetch_countdown(last + 900_000, last), (0, true));
    assert_eq!(fetch_countdown(last - 5_000, last), (REFRESH_SEC, false));
}
