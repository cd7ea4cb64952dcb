use voxalic::json::{Json, JsonNumber};
use voxalic::market::{ci, embedded_items, CachedDetail, MarketCache, MarketCachedItem, EMBEDDED, ICON_BASE};
use voxalic::models::MarketOrder;

fn s(t: &str) -> Json {
    Json::Str(t.to_string())
}
fn n(v: u64) -> Json {
    Json::Number(JsonNumber::PosInt(v))
}
fn obj(m: Vec<(&str, Json)>) -> Json {
    Json::Object(m.into_iter().map(|(k, v)| (k.to_string(), v)).collect())
}
fn item(slug: &str, name: &str, zh: &str, id: &str) -> MarketCachedItem {
    MarketCachedItem {
        id: id.to_string(),
        slug: slug.to_string(),
        name: name.to_string(),
        name_zh: zh.to_string(),
        icon: format!("items/{}.png", slug),
        mr: Some(0),
        max_rank: None,
        tags: vec!["mod".to_string()],
        bulk_tradable: false,
    }
}

#[test]
fn embedded_set_names_are_translated() {
    let a = ci("ash_prime_set", "Ash Prime Set", "i.png", Some(0), None, "set,prime,warframe");
    assert_eq!(a.name_zh, "Ash Prime 一套");
    assert_eq!(a.id, "ash_prime_set");
    assert_eq!(a.tags, vec!["set", "prime", "warframe"]);
    let b = ci("arcane_energize", "Arcane Energize", "i.png", Some(5), None, "legendary,arcane_enhancement");
    assert_eq!(b.name_zh, "赋能·充沛");
    let c = ci("unknown_mod", "Unknown", "i.png", None, None, "mod");
    assert_eq!(c.name_zh, "");
}

#[test]
fn embedded_catalogue_follows_the_table() {
    let items = embedded_items();
    assert_eq!(items.len(), EMBEDDED.len());
    assert_eq!(items[0].slug, "ash_prime_set");
    assert_eq!(items[0].name_zh, "Ash Prime 一套");
    assert_eq!(items.last().unwrap().slug, "arcane_velocity");
    assert_eq!(items.last().unwrap().mr, Some(5));
}

#[test]
fn start_up_catalogue_is_never_empty() {
    let c = MarketCache::build_cache(None, Some(5));
    assert_eq!(c.items.len(), EMBEDDED.len());
    assert_eq!(c.last_updated, None);
    let c2 = MarketCache::build_cache(Some(Vec::new()), Some(5));
    assert_eq!(c2.items.len(), EMBEDDED.len());
    let c3 = MarketCache::build_cache(Some(vec![item("a", "A", "", "id1")]), Some(5));
    assert_eq!(c3.items.len(), 1);
    assert_eq!(c3.last_updated, Some(5));
    assert_eq!(c3.id_to_slug, vec![("id1".to_string(), "a".to_string())]);
}

#[test]
fn keyed_catalogue_keeps_the_last_item_of_a_slug() {
    let c = MarketCache::from_items(
        vec![item("a", "First", "", ""), item("b", "B", "", "x"), item("a", "Second", "", "y")],
        None,
    );
    assert_eq!(c.items.len(), 2);
    assert_eq!(c.items[0].name, "Second");
    assert_eq!(c.items[1].slug, "b");
    assert_eq!(c.id_to_slug, vec![("y".to_string(), "a".to_string()), ("x".to_string(), "b".to_string())]);
}

#[test]
fn search_by_slug_name_and_chinese_name() {
    let c = MarketCache::from_items(
        vec![item("blood_rush", "Blood Rush", "急进猛突", ""), item("serration", "Serration", "膛线", "")],
        None,
    );
    let r = c.search_local("  BLOOD ", "en");
    assert_eq!(r.len(), 1);
    assert_eq!(r[0].slug, "blood_rush");
    assert_eq!(r[0].icon_url, format!("{}items/blood_rush.png", ICON_BASE));
    assert_eq!(c.search_local("膛线", "en").len(), 0);
    assert_eq!(c.search_local("膛线", "zh").len(), 1);
    assert_eq!(c.search_local("   ", "zh").len(), 0);
}

#[test]
fn search_shows_at_most_fifty() {
    let items: Vec<MarketCachedItem> = (0..60).map(|i| item(&format!("mod_{}", i), "Mod", "", "")).collect();
    let c = MarketCache::from_items(items, None);
    let r = c.search_local("mod", "en");
    assert_eq!(r.len(), 50);
    assert_eq!(r[0].slug, "mod_0");
    assert_eq!(r[49].slug, "mod_49");
}

#[test]
fn translation_puts_exact_and_short_names_first() {
    let c = MarketCache::from_items(
        vec![
            item("arcane_energize", "Arcane Energize", "赋能·充沛", ""),
            item("energize_long", "Long", "充沛之力强化", ""),
            item("energize", "Exact", "充沛", ""),
            item("none", "None", "", ""),
        ],
        None,
    );
    let r = c.translate_items(" 充沛 ");
    let slugs: Vec<&str> = r.iter().map(|x| x.slug.as_str()).collect();
    assert_eq!(slugs, vec!["energize", "arcane_energize", "energize_long"]);
    assert_eq!(c.translate_items("·").len(), 0);
    assert_eq!(c.translate_items("").len(), 0);
}

#[test]
fn translation_ignores_spaces_and_punctuation() {
    let c = MarketCache::from_items(vec![item("ash_prime_set", "Ash Prime Set", "Ash Prime 一套", "")], None);
    let r = c.translate_items("AshPrime一套");
    assert_eq!(r.len(), 1);
    assert_eq!(r[0].slug, "ash_prime_set");
    assert_eq!(c.translate_items("Ash-Prime").len(), 1);
}

#[test]
fn refresh_label_counts_minutes_hours_days() {
    let mut c = MarketCache::from_items(vec![item("a", "A", "", "")], None);
    assert_eq!(c.cache_status(0).last_updated, "--");
    c.last_updated = Some(1_000_000);
    assert_eq!(c.cache_status(1_030_000).last_updated, "刚刚");
    assert_eq!(c.cache_status(1_000_000 + 5 * 60_000).last_updated, "5 分钟前");
    assert_eq!(c.cache_status(1_000_000 + 3 * 3_600_000).last_updated, "3 小时前");
    assert_eq!(c.cache_status(1_000_000 + 2 * 86_400_000).last_updated, "2 天前");
    assert_eq!(c.cache_status(0).count, 1);
}

fn order(t: &str, p: u64, name: &str) -> Json {
    obj(vec![
        ("type", s(t)),
        ("platinum", n(p)),
        ("quantity", n(2)),
        ("rank", n(3)),
        ("user", obj(vec![("ingameName", s(name)), ("reputation", n(7)), ("status", s("ingame"))])),
    ])
}

#[test]
fn order_book_is_sorted_by_price() {
    let body = obj(vec![(
        "data",
        Json::Array(vec![
            order("sell", 30, "a"),
            order("buy", 10, "b"),
            order("sell", 20, "c"),
            order("sell", 20, "d"),
            order("buy", 12, "e"),
            order("other", 1, "f"),
        ]),
    )]);
    let (sell, buy) = voxalic::market::parse_order_book(&body).unwrap();
    let sp: Vec<(u32, &str)> = sell.iter().map(|o| (o.platinum, o.player_name.as_str())).collect();
    assert_eq!(sp, vec![(20, "c"), (20, "d"), (30, "a")]);
    let bp: Vec<u32> = buy.iter().map(|o| o.platinum).collect();
    assert_eq!(bp, vec![12, 10]);
    assert_eq!(sell[0].mod_rank, Some(3));
    assert_eq!(sell[0].status, "ingame");
    assert_eq!(voxalic::market::parse_order_book(&obj(vec![])).err(), Some("API 响应格式异常".to_string()));
}

#[test]
fn order_gaps_are_filled() {
    let o = voxalic::market::parse_market_order(&obj(vec![]));
    assert_eq!(o.order_type, "?");
    assert_eq!(o.platinum, 0);
    assert_eq!(o.quantity, 1);
    assert_eq!(o.player_name, "?");
    assert_eq!(o.reputation, 0);
    assert_eq!(o.status, "offline");
    assert_eq!(o.mod_rank, None);
}

#[test]
fn item_detail_reply() {
    let body = obj(vec![(
        "data",
        obj(vec![
            ("id", s("self")),
            ("ducats", n(100)),
            ("setRoot", Json::Bool(true)),
            ("setParts", Json::Array(vec![s("p1"), s("self"), n(3), s("p2")])),
        ]),
    )]);
    let d = voxalic::market::parse_item_detail(&body).unwrap();
    assert_eq!(d.ducats, Some(100));
    assert_eq!(d.trading_tax, None);
    assert!(d.set_root);
    assert_eq!(d.set_parts, vec!["p1", "p2"]);
    assert_eq!(voxalic::market::parse_item_detail(&obj(vec![])).err(), Some("API 响应缺少 data 字段".to_string()));
}

#[test]
fn item_list_reply() {
    let entry = obj(vec![
        ("id", s("oid")),
        ("slug", s("vitality")),
        ("i18n", obj(vec![("zh-hans", obj(vec![("name", s("活力")), ("icon", s("v.png"))]))])),
        ("maxRank", n(10)),
        ("tags", Json::Array(vec![s("mod")])),
        ("bulkTradable", Json::Bool(true)),
    ]);
    let items = voxalic::market::parse_item_list(&obj(vec![("data", Json::Array(vec![entry]))])).unwrap();
    assert_eq!(items[0].name, "活力");
    assert_eq!(items[0].name_zh, "活力");
    assert_eq!(items[0].icon, "v.png");
    assert_eq!(items[0].max_rank, Some(10));
    assert!(items[0].bulk_tradable);
    let bare = voxalic::market::parse_listed_item(&obj(vec![("slug", s("x"))]));
    assert_eq!(bare.name, "x");
    assert_eq!(bare.name_zh, "x");
    assert_eq!(bare.icon, "");
}

#[test]
fn detail_panel_and_session_cache() {
    let mut c = MarketCache::from_items(
        vec![item("set", "Set", "", "sid"), item("part", "Part", "部件", "pid")],
        None,
    );
    let d = CachedDetail { ducats: Some(45), trading_tax: None, set_root: true, set_parts: vec!["pid".to_string(), "gone".to_string()] };
    c.remember_detail("set", d);
    let again = c.cached_detail("set").unwrap();
    assert_eq!(again.ducats, Some(45));
    assert!(c.cached_detail("part").is_none());
    let sell = vec![MarketOrder {
        order_type: "sell".to_string(),
        platinum: 5,
        quantity: 1,
        player_name: "p".to_string(),
        reputation: 0,
        status: "online".to_string(),
        mod_rank: None,
    }];
    let full = c.item_full("set", again, sell, Vec::new()).unwrap();
    assert_eq!(full.item.slug, "set");
    assert_eq!(full.set_parts.len(), 1);
    assert_eq!(full.set_parts[0].name_zh, "部件");
    assert_eq!(full.sell_orders.len(), 1);
    let missing = c.item_full("nope", CachedDetail { ducats: None, trading_tax: None, set_root: false, set_parts: vec![] }, vec![], vec![]);
    assert_eq!(missing.err(), Some("物品不在缓存中".to_string()));
}
