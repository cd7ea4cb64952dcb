use voxalic::json::{Json, JsonNumber};
use voxalic::market::{MarketCache, MarketCachedItem};
use voxalic::models::{CreateOrderRequest, UpdateOrderRequest};
use voxalic::orders::{
    check_create, check_update, create_order_body, list_orders_reply, map_http_err, network_err, object_id_reply,
    parse_order, removed_order_reply, resolve_item, saved_order_reply, update_order_body,
};

fn s(t: &str) -> Json {
    Json::Str(t.to_string())
}
fn n(v: u64) -> Json {
    Json::Number(JsonNumber::PosInt(v))
}
fn obj(m: Vec<(&str, Json)>) -> Json {
    Json::Object(m.into_iter().map(|(k, v)| (k.to_string(), v)).collect())
}
fn item(slug: &str, name: &str, zh: &str, id: &str, max_rank: Option<u8>, bulk: bool) -> MarketCachedItem {
    MarketCachedItem {
        id: id.to_string(),
        slug: slug.to_string(),
        name: name.to_string(),
        name_zh: zh.to_string(),
        icon: String::new(),
        mr: None,
        max_rank,
        tags: Vec::new(),
        bulk_tradable: bulk,
    }
}
fn cache() -> MarketCache {
    MarketCache::from_items(
        vec![
            item("serration", "Serration", "膛线", "5a2feeb1c2c9e90cbdaa23d2", Some(10), false),
            item("ash_prime_set", "Ash Prime Set", "", "ash_prime_set", None, true),
        ],
        None,
    )
}

#[test]
fn http_errors_by_status_and_reply() {
    assert_eq!(map_http_err(400, "Duplicate order").code, "duplicate_price");
    assert_eq!(map_http_err(400, "You reached the LIMIT").code, "order_limit_reached");
    assert_eq!(map_http_err(400, "bad platinum").code, "invalid_price");
    assert_eq!(map_http_err(400, "bad quantity").code, "invalid_quantity");
    let other = map_http_err(400, "nope");
    assert_eq!(other.code, "invalid_input");
    assert_eq!(other.message, "请求参数无效: nope");
    assert_eq!(map_http_err(401, "").code, "auth_expired");
    assert_eq!(map_http_err(404, "").code, "order_not_found");
    assert_eq!(map_http_err(429, "").code, "rate_limited");
    assert_eq!(map_http_err(503, "").code, "server_error");
    let unknown = map_http_err(418, "");
    assert_eq!(unknown.code, "unknown");
    assert_eq!(unknown.message, "服务器返回 HTTP 418");
    assert_eq!(network_err().code, "network_timeout");
}

#[test]
fn long_reply_text_is_cut() {
    let body: String = std::iter::repeat('x').take(100).collect();
    let e = map_http_err(400, &body);
    assert_eq!(e.message.chars().count(), "请求参数无效: ".chars().count() + 80);
}

#[test]
fn entered_orders_are_checked() {
    let ok = CreateOrderRequest { order_type: "sell".into(), item_id: "x".into(), platinum: 10, quantity: 1, visible: true, rank: 0 };
    assert!(check_create(&ok).is_ok());
    let cheap = CreateOrderRequest { platinum: 0, ..ok.clone() };
    assert_eq!(check_create(&cheap).err().unwrap().code, "invalid_price");
    let dear = CreateOrderRequest { platinum: 1_000_000, ..ok.clone() };
    assert_eq!(check_create(&dear).err().unwrap().code, "invalid_price");
    let many = CreateOrderRequest { quantity: 101, ..ok.clone() };
    assert_eq!(check_create(&many).err().unwrap().code, "invalid_quantity");
    let upd = UpdateOrderRequest { order_id: "o".into(), platinum: None, quantity: Some(0), visible: None, rank: None };
    assert_eq!(check_update(&upd).err().unwrap().code, "invalid_quantity");
    let upd_ok = UpdateOrderRequest { order_id: "o".into(), platinum: Some(5), quantity: None, visible: None, rank: None };
    assert!(check_update(&upd_ok).is_ok());
}

fn member_keys(v: &Json) -> Vec<String> {
    match v {
        Json::Object(m) => m.iter().map(|(k, _)| k.clone()).collect(),
        _ => Vec::new(),
    }
}

#[test]
fn create_body_has_rank_and_per_trade_only_when_the_item_does() {
    let req = CreateOrderRequest { order_type: "buy".into(), item_id: "serration".into(), platinum: 12, quantity: 3, visible: false, rank: 2 };
    let c = cache();
    let body = create_order_body(&req, "5a2feeb1c2c9e90cbdaa23d2", Some(&c.items[0]));
    assert_eq!(member_keys(&body), vec!["itemId", "platinum", "quantity", "rank", "type", "visible"]);
    let set_body = create_order_body(&req, "abc", Some(&c.items[1]));
    assert_eq!(member_keys(&set_body), vec!["itemId", "perTrade", "platinum", "quantity", "type", "visible"]);
    let plain = create_order_body(&req, "abc", None);
    assert_eq!(member_keys(&plain), vec!["itemId", "platinum", "quantity", "type", "visible"]);
}

#[test]
fn update_body_has_only_given_fields() {
    let req = UpdateOrderRequest { order_id: "o".into(), platinum: Some(7), quantity: None, visible: Some(true), rank: Some(0) };
    assert_eq!(member_keys(&update_order_body(&req)), vec!["platinum", "visible"]);
    let req2 = UpdateOrderRequest { order_id: "o".into(), platinum: None, quantity: Some(2), visible: None, rank: Some(3) };
    assert_eq!(member_keys(&update_order_body(&req2)), vec!["quantity", "rank"]);
}

#[test]
fn items_resolve_through_the_index_or_the_ids() {
    let c = cache();
    assert_eq!(resolve_item(&c, "5a2feeb1c2c9e90cbdaa23d2"), ("serration".to_string(), "膛线".to_string()));
    assert_eq!(resolve_item(&c, "ash_prime_set"), ("ash_prime_set".to_string(), "Ash Prime Set".to_string()));
    assert_eq!(resolve_item(&c, "zzz"), (String::new(), "zzz".to_string()));
}

#[test]
fn orders_are_read_with_defaults() {
    let c = cache();
    let o = parse_order(&obj(vec![("id", s("o1")), ("itemId", s("5a2feeb1c2c9e90cbdaa23d2")), ("platinum", n(9))]), &c).unwrap();
    assert_eq!(o.item_slug, "serration");
    assert_eq!(o.item_name, "膛线");
    assert_eq!(o.order_type, "?");
    assert_eq!(o.platinum, 9);
    assert_eq!(o.quantity, 1);
    assert_eq!(o.rank, 0);
    assert!(o.visible);
    assert_eq!(o.platform, "pc");
    assert!(parse_order(&obj(vec![("platinum", n(9))]), &c).is_none());
}

#[test]
fn endpoint_replies() {
    let c = cache();
    let list = list_orders_reply(200, r#"{"data":[{"id":"a","type":"sell"},{"type":"buy"},{"id":"b"}]}"#, &c).unwrap();
    assert_eq!(list.len(), 2);
    assert_eq!(list[0].order_type, "sell");
    assert_eq!(list_orders_reply(200, "{}", &c).unwrap().len(), 0);
    assert_eq!(list_orders_reply(200, "not json", &c).err().unwrap().code, "server_error");
    assert_eq!(list_orders_reply(401, "", &c).err().unwrap().code, "auth_expired");
    let created = saved_order_reply(201, r#"{"data":{"id":"n1","platinum":4}}"#, true, &c).unwrap();
    assert_eq!(created.id, "n1");
    assert_eq!(created.platinum, 4);
    let flat = saved_order_reply(200, r#"{"id":"n2"}"#, false, &c).unwrap();
    assert_eq!(flat.id, "n2");
    assert_eq!(saved_order_reply(201, r#"{"id":"n2"}"#, false, &c).err().unwrap().code, "unknown");
    assert_eq!(saved_order_reply(200, r#"{"data":{}}"#, false, &c).err().unwrap().code, "server_error");
    assert!(removed_order_reply(204, "").is_ok());
    assert_eq!(removed_order_reply(404, "").err().unwrap().code, "order_not_found");
}

#[test]
fn object_ids() {
    let mut c = cache();
    assert_eq!(c.cached_object_id("serration"), Some("5a2feeb1c2c9e90cbdaa23d2".to_string()));
    assert_eq!(c.cached_object_id("ash_prime_set"), None);
    assert_eq!(object_id_reply(false, "").err().unwrap().code, "invalid_input");
    assert_eq!(object_id_reply(true, "x").err().unwrap().code, "server_error");
    assert_eq!(object_id_reply(true, r#"{"data":{"id":""}}"#).err().unwrap().message, "无法获取物品 ID，请刷新物品库后重试");
    let id = object_id_reply(true, r#"{"data":{"id":"0123456789abcdef01234567"}}"#).unwrap();
    c.remember_object_id("ash_prime_set", &id);
    assert_eq!(c.cached_object_id("ash_prime_set"), Some(id.clone()));
    assert_eq!(resolve_item(&c, &id).0, "ash_prime_set");
}
