//! The signed-in user's own market orders: checking what the user entered,
//! the request bodies, and reading the replies of the order endpoints.

use vstd::prelude::*;
use vstd::string::StringSliceAdditionalSpecFns;
use crate::text::{owned, push_str, push_char, str_eq, decimal, push_decimal, chars_of};
use crate::textscan::{contains, lowercase, to_lower, str_contains};
use crate::models::{
    MarketError, ProfileOrder, ProfileOrderView, CreateOrderRequest, UpdateOrderRequest, market_error,
};
use crate::json::{
    Json, JsonNumber, index, str_of, u64_of, bool_of, array_of, or_null, at, as_str, as_u64, as_bool,
    as_array, member, get_member, parse_text, parsed_text,
};
use crate::market::{
    MarketCache, MarketCachedItem, ItemView, item_views, pair_views, find_slug, slug_of_id, find_item,
    lookup_id, lemma_find_slug, text_or, first_n,
};

verus! {

// ── Errors ──────────────────────────────────────────────────────────────────

/// The error of a request that did not get through.
pub fn network_err() -> (e: MarketError)
    ensures
        e@ == ("network_timeout"@, "网络连接超时，请检查网络后重试"@),
{
    market_error("network_timeout", "网络连接超时，请检查网络后重试")
}

/// The error an order endpoint's HTTP status means; for a 400 the reply
/// text (`lower` is its lower-case form) tells which input was refused.
pub open spec fn http_error(status: u16, body: Seq<char>, lower: Seq<char>) -> (Seq<char>, Seq<char>) {
    if status == 400 {
        if contains(lower, "duplicate"@) || contains(lower, "already"@) {
            ("duplicate_price"@, "此物品已有相同价格的挂单，请修改价格"@)
        } else if contains(lower, "limit"@) || contains(lower, "max"@) {
            ("order_limit_reached"@, "此物品最多同时挂 3 单（不同价格），已达上限"@)
        } else if contains(lower, "price"@) || contains(lower, "platinum"@) {
            ("invalid_price"@, "价格必须在 1 ～ 999,999 白金之间"@)
        } else if contains(lower, "quantity"@) {
            ("invalid_quantity"@, "数量必须在 1 ～ 100 之间"@)
        } else {
            ("invalid_input"@, "请求参数无效: "@ + first_n(body, 80))
        }
    } else if status == 401 {
        ("auth_expired"@, "登录已过期，请重新登录"@)
    } else if status == 404 {
        ("order_not_found"@, "该订单已不存在（可能已被删除）"@)
    } else if status == 429 {
        ("rate_limited"@, "请求过于频繁，请稍候再试"@)
    } else if status >= 500 {
        ("server_error"@, "Warframe.Market 服务暂时不可用，请稍后再试"@)
    } else {
        ("unknown"@, "服务器返回 HTTP "@ + decimal(status as nat))
    }
}

/// The first `n` characters of a text.
pub fn prefix_chars(s: &str, n: usize) -> (r: String)
    ensures
        r@ == first_n(s@, n as int),
{
    let cs = chars_of(s);
    let end = if cs.len() <= n {
        cs.len()
    } else {
        n
    };
    let r = crate::text::string_of(&cs, 0, end);
    assert(r@ =~= first_n(s@, n as int));
    r
}

/// The error for an HTTP status, given the reply text and its lower-case
/// form.
pub fn classify_http_error(status: u16, body: &str, lower: &str) -> (e: MarketError)
    ensures
        e@ == http_error(status, body@, lower@),
{
    if status == 400 {
        if str_contains(lower, "duplicate") || str_contains(lower, "already") {
            market_error("duplicate_price", "此物品已有相同价格的挂单，请修改价格")
        } else if str_contains(lower, "limit") || str_contains(lower, "max") {
            market_error("order_limit_reached", "此物品最多同时挂 3 单（不同价格），已达上限")
        } else if str_contains(lower, "price") || str_contains(lower, "platinum") {
            market_error("invalid_price", "价格必须在 1 ～ 999,999 白金之间")
        } else if str_contains(lower, "quantity") {
            market_error("invalid_quantity", "数量必须在 1 ～ 100 之间")
        } else {
            let mut message = owned("请求参数无效: ");
            let head = prefix_chars(body, 80);
            push_str(&mut message, head.as_str());
            MarketError { code: owned("invalid_input"), message }
        }
    } else if status == 401 {
        market_error("auth_expired", "登录已过期，请重新登录")
    } else if status == 404 {
        market_error("order_not_found", "该订单已不存在（可能已被删除）")
    } else if status == 429 {
        market_error("rate_limited", "请求过于频繁，请稍候再试")
    } else if status >= 500 {
        market_error("server_error", "Warframe.Market 服务暂时不可用，请稍后再试")
    } else {
        let mut message = owned("服务器返回 HTTP ");
        push_decimal(&mut message, status as u64);
        MarketError { code: owned("unknown"), message }
    }
}

/// The error an order endpoint's HTTP status means.
pub fn map_http_err(status: u16, body: &str) -> (e: MarketError)
    ensures
        e@ == http_error(status, body@, lowercase(body@)),
{
    let lower = to_lower(body);
    classify_http_error(status, body, lower.as_str())
}

// ── Checking what the user entered ──────────────────────────────────────────

/// A price the market accepts.
pub open spec fn valid_price(p: u32) -> bool {
    1 <= p <= 999_999
}

/// A quantity the market accepts.
pub open spec fn valid_quantity(q: u32) -> bool {
    1 <= q <= 100
}

/// The refusal of a price out of range.
pub open spec fn price_error() -> (Seq<char>, Seq<char>) {
    ("invalid_price"@, "价格必须在 1 ～ 999,999 白金之间"@)
}

/// The refusal of a quantity out of range.
pub open spec fn quantity_error() -> (Seq<char>, Seq<char>) {
    ("invalid_quantity"@, "数量必须在 1 ～ 100 之间"@)
}

/// Check a new order: the price first, then the quantity.
pub fn check_create(req: &CreateOrderRequest) -> (r: Result<(), MarketError>)
    ensures
        match r {
            Ok(()) => valid_price(req.platinum) && valid_quantity(req.quantity),
            Err(e) => if !valid_price(req.platinum) {
                e@ == price_error()
            } else {
                !valid_quantity(req.quantity) && e@ == quantity_error()
            },
        },
{
    if req.platinum < 1 || req.platinum > 999_999 {
        return Err(market_error("invalid_price", "价格必须在 1 ～ 999,999 白金之间"));
    }
    if req.quantity < 1 || req.quantity > 100 {
        return Err(market_error("invalid_quantity", "数量必须在 1 ～ 100 之间"));
    }
    Ok(())
}

/// Check a change to an order: a given price, then a given quantity.
pub fn check_update(req: &UpdateOrderRequest) -> (r: Result<(), MarketError>)
    ensures
        match r {
            Ok(()) => (req.platinum matches Some(p) ==> valid_price(p)) && (req.quantity matches Some(
                q,
            ) ==> valid_quantity(q)),
            Err(e) => if req.platinum matches Some(p) && !valid_price(p) {
                e@ == price_error()
            } else {
                req.quantity matches Some(q) && !valid_quantity(q) && e@ == quantity_error()
            },
        },
{
    if let Some(p) = req.platinum {
        if p < 1 || p > 999_999 {
            return Err(market_error("invalid_price", "价格必须在 1 ～ 999,999 白金之间"));
        }
    }
    if let Some(q) = req.quantity {
        if q < 1 || q > 100 {
            return Err(market_error("invalid_quantity", "数量必须在 1 ～ 100 之间"));
        }
    }
    Ok(())
}

// ── Request bodies ──────────────────────────────────────────────────────────

/// A flat JSON member value, as plain values.
pub enum FieldVal {
    Text(Seq<char>),
    Num(u64),
    Flag(bool),
    Other,
}

/// The plain value of a flat JSON member value.
pub open spec fn field_val(v: Json) -> FieldVal {
    match v {
        Json::Str(s) => FieldVal::Text(s@),
        Json::Number(JsonNumber::PosInt(n)) => FieldVal::Num(n),
        Json::Bool(b) => FieldVal::Flag(b),
        _ => FieldVal::Other,
    }
}

/// The members of a JSON object as key texts and plain values (nothing for
/// a value that is not an object).
pub open spec fn flat_members(v: Json) -> Seq<(Seq<char>, FieldVal)> {
    match v {
        Json::Object(m) => m@.map_values(|p: (String, Json)| (p.0@, field_val(p.1))),
        _ => Seq::empty(),
    }
}

/// The body of a new order (members in key order): the type, the item's
/// object id, price, quantity and visibility; `perTrade` 1 for an item sold
/// in bulk, and the rank for an item that has ranks.
pub open spec fn create_body(req: CreateOrderRequest, object_id: Seq<char>, item: Option<ItemView>) -> Seq<
    (Seq<char>, FieldVal),
> {
    let bulk = item matches Some(i) && i.bulk_tradable;
    let ranked = item matches Some(i) && (match i.max_rank {
        Some(m) => m,
        None => 0,
    }) > 0;
    seq![("itemId"@, FieldVal::Text(object_id))] + (if bulk {
        seq![("perTrade"@, FieldVal::Num(1))]
    } else {
        Seq::empty()
    }) + seq![
        ("platinum"@, FieldVal::Num(req.platinum as u64)),
        ("quantity"@, FieldVal::Num(req.quantity as u64)),
    ] + (if ranked {
        seq![("rank"@, FieldVal::Num(req.rank as u64))]
    } else {
        Seq::empty()
    }) + seq![("type"@, FieldVal::Text(req.order_type@)), ("visible"@, FieldVal::Flag(req.visible))]
}

/// A new order's body holds the request's price and quantity: the member
/// named `platinum` is the request's platinum and the one named `quantity`
/// its quantity; likewise the order type, the visibility and the item's
/// object id.
pub proof fn lemma_create_body_values(req: CreateOrderRequest, object_id: Seq<char>, item: Option<ItemView>)
    ensures
        ({
            let b = create_body(req, object_id, item);
            &&& exists|p: int| 0 <= p < b.len() && b[p].0 == "platinum"@
            &&& exists|p: int| 0 <= p < b.len() && b[p].0 == "quantity"@
            &&& forall|p: int|
                0 <= p < b.len() && b[p].0 == "platinum"@ ==> b[p].1 == FieldVal::Num(req.platinum as u64)
            &&& forall|p: int|
                0 <= p < b.len() && b[p].0 == "quantity"@ ==> b[p].1 == FieldVal::Num(req.quantity as u64)
            &&& forall|p: int|
                0 <= p < b.len() && b[p].0 == "type"@ ==> b[p].1 == FieldVal::Text(req.order_type@)
            &&& forall|p: int| 0 <= p < b.len() && b[p].0 == "visible"@ ==> b[p].1 == FieldVal::Flag(req.visible)
            &&& forall|p: int| 0 <= p < b.len() && b[p].0 == "itemId"@ ==> b[p].1 == FieldVal::Text(object_id)
        }),
{
    reveal_strlit("itemId");
    reveal_strlit("perTrade");
    reveal_strlit("platinum");
    reveal_strlit("quantity");
    reveal_strlit("rank");
    reveal_strlit("type");
    reveal_strlit("visible");
    let b = create_body(req, object_id, item);
    let bulk = item matches Some(i) && i.bulk_tradable;
    let ranked = item matches Some(i) && (match i.max_rank {
        Some(m) => m,
        None => 0,
    }) > 0;
    let id = ("itemId"@, FieldVal::Text(object_id));
    let per = ("perTrade"@, FieldVal::Num(1));
    let pl = ("platinum"@, FieldVal::Num(req.platinum as u64));
    let qu = ("quantity"@, FieldVal::Num(req.quantity as u64));
    let rk = ("rank"@, FieldVal::Num(req.rank as u64));
    let ty = ("type"@, FieldVal::Text(req.order_type@));
    let vi = ("visible"@, FieldVal::Flag(req.visible));
    let names = seq!["itemId"@, "perTrade"@, "platinum"@, "quantity"@, "rank"@, "type"@, "visible"@];
    assert forall|x: int, y: int| 0 <= x < y < 7 implies names[x] != names[y] by {
        assert(names[x][0] != names[y][0] || names[x][1] != names[y][1]);
    }
    if bulk && ranked {
        assert(b =~= seq![id, per, pl, qu, rk, ty, vi]);
    } else if bulk {
        assert(b =~= seq![id, per, pl, qu, ty, vi]);
    } else if ranked {
        assert(b =~= seq![id, pl, qu, rk, ty, vi]);
    } else {
        assert(b =~= seq![id, pl, qu, ty, vi]);
    }
}

fn member_text(key: &str, value: &str) -> (r: (String, Json))
    ensures
        r.0@ == key@,
        field_val(r.1) == FieldVal::Text(value@),
{
    (owned(key), Json::Str(owned(value)))
}

fn member_num(key: &str, value: u64) -> (r: (String, Json))
    ensures
        r.0@ == key@,
        field_val(r.1) == FieldVal::Num(value),
{
    (owned(key), Json::Number(JsonNumber::PosInt(value)))
}

fn member_flag(key: &str, value: bool) -> (r: (String, Json))
    ensures
        r.0@ == key@,
        field_val(r.1) == FieldVal::Flag(value),
{
    (owned(key), Json::Bool(value))
}

/// The views of built members.
pub open spec fn member_views(m: Seq<(String, Json)>) -> Seq<(Seq<char>, FieldVal)> {
    m.map_values(|p: (String, Json)| (p.0@, field_val(p.1)))
}

/// The body of a new order for the item with the given object id (`item`
/// is the catalogue's entry for the order's slug, if any).
pub fn create_order_body(req: &CreateOrderRequest, object_id: &str, item: Option<&MarketCachedItem>) -> (r:
    Json)
    ensures
        flat_members(r) == create_body(
            *req,
            object_id@,
            match item {
                Some(i) => Some(i@),
                None => None,
            },
        ),
        forall|p: int|
            0 <= p < flat_members(r).len() && (#[trigger] flat_members(r)[p]).0 == "platinum"@ ==> flat_members(
                r,
            )[p].1 == FieldVal::Num(req.platinum as u64),
        forall|p: int|
            0 <= p < flat_members(r).len() && (#[trigger] flat_members(r)[p]).0 == "quantity"@ ==> flat_members(
                r,
            )[p].1 == FieldVal::Num(req.quantity as u64),
{
    let mut m: Vec<(String, Json)> = Vec::new();
    let bulk = match item {
        Some(i) => i.bulk_tradable,
        None => false,
    };
    let ranked = match item {
        Some(i) => match i.max_rank {
            Some(x) => x > 0,
            None => false,
        },
        None => false,
    };
    m.push(member_text("itemId", object_id));
    if bulk {
        m.push(member_num("perTrade", 1));
    }
    m.push(member_num("platinum", req.platinum as u64));
    m.push(member_num("quantity", req.quantity as u64));
    if ranked {
        m.push(member_num("rank", req.rank as u64));
    }
    m.push(member_text("type", req.order_type.as_str()));
    m.push(member_flag("visible", req.visible));
    let ghost iv = match item {
        Some(i) => Some(i@),
        None => None,
    };
    assert(member_views(m@) =~= create_body(*req, object_id@, iv));
    proof {
        lemma_create_body_values(*req, object_id@, iv);
    }
    Json::Object(m)
}

/// The body of a change to an order: only the given fields, in key order
/// (a rank only when above zero).
pub open spec fn update_body(req: UpdateOrderRequest) -> Seq<(Seq<char>, FieldVal)> {
    (match req.platinum {
        Some(p) => seq![("platinum"@, FieldVal::Num(p as u64))],
        None => Seq::empty(),
    }) + (match req.quantity {
        Some(q) => seq![("quantity"@, FieldVal::Num(q as u64))],
        None => Seq::empty(),
    }) + (match req.rank {
        Some(r) => if r > 0 {
            seq![("rank"@, FieldVal::Num(r as u64))]
        } else {
            Seq::empty()
        },
        None => Seq::empty(),
    }) + (match req.visible {
        Some(v) => seq![("visible"@, FieldVal::Flag(v))],
        None => Seq::empty(),
    })
}

/// A change to an order sends exactly the fields given: the member named
/// `platinum` is there exactly when a price is given and holds that price;
/// likewise `quantity` and `visible`, and `rank` when a rank above zero is
/// given.
pub proof fn lemma_update_body_values(req: UpdateOrderRequest)
    ensures
        ({
            let b = update_body(req);
            &&& (exists|p: int| 0 <= p < b.len() && b[p].0 == "platinum"@) <==> req.platinum is Some
            &&& (exists|p: int| 0 <= p < b.len() && b[p].0 == "quantity"@) <==> req.quantity is Some
            &&& (exists|p: int| 0 <= p < b.len() && b[p].0 == "visible"@) <==> req.visible is Some
            &&& (exists|p: int| 0 <= p < b.len() && b[p].0 == "rank"@) <==> (req.rank matches Some(r) && r > 0)
            &&& forall|p: int|
                0 <= p < b.len() && b[p].0 == "platinum"@ ==> b[p].1 == FieldVal::Num(req.platinum->0 as u64)
            &&& forall|p: int|
                0 <= p < b.len() && b[p].0 == "quantity"@ ==> b[p].1 == FieldVal::Num(req.quantity->0 as u64)
            &&& forall|p: int|
                0 <= p < b.len() && b[p].0 == "visible"@ ==> b[p].1 == FieldVal::Flag(req.visible->0)
            &&& forall|p: int|
                0 <= p < b.len() && b[p].0 == "rank"@ ==> b[p].1 == FieldVal::Num(req.rank->0 as u64)
        }),
{
    reveal_strlit("platinum");
    reveal_strlit("quantity");
    reveal_strlit("rank");
    reveal_strlit("visible");
    let pa: Seq<(Seq<char>, FieldVal)> = match req.platinum {
        Some(p) => seq![("platinum"@, FieldVal::Num(p as u64))],
        None => Seq::empty(),
    };
    let qa: Seq<(Seq<char>, FieldVal)> = match req.quantity {
        Some(q) => seq![("quantity"@, FieldVal::Num(q as u64))],
        None => Seq::empty(),
    };
    let ra: Seq<(Seq<char>, FieldVal)> = match req.rank {
        Some(r) => if r > 0 {
            seq![("rank"@, FieldVal::Num(r as u64))]
        } else {
            Seq::empty()
        },
        None => Seq::empty(),
    };
    let va: Seq<(Seq<char>, FieldVal)> = match req.visible {
        Some(v) => seq![("visible"@, FieldVal::Flag(v))],
        None => Seq::empty(),
    };
    let b = update_body(req);
    assert(b =~= pa + qa + ra + va);
    let names = seq!["platinum"@, "quantity"@, "rank"@, "visible"@];
    assert forall|x: int, y: int| 0 <= x < y < 4 implies names[x] != names[y] by {
        assert(names[x][0] != names[y][0] || names[x][1] != names[y][1]);
    }
    let n1 = pa.len() as int;
    let n2 = n1 + qa.len();
    let n3 = n2 + ra.len();
    assert forall|p: int| 0 <= p < b.len() implies {
        &&& p < n1 ==> b[p] == pa[p]
        &&& n1 <= p < n2 ==> b[p] == qa[p - n1]
        &&& n2 <= p < n3 ==> b[p] == ra[p - n2]
        &&& n3 <= p ==> b[p] == va[p - n3]
    } by {}
    if req.platinum is Some {
        assert(b[0].0 == "platinum"@);
    }
    if req.quantity is Some {
        assert(b[n1].0 == "quantity"@);
    }
    if req.rank matches Some(r) && r > 0 {
        assert(b[n2].0 == "rank"@);
    }
    if req.visible is Some {
        assert(b[n3].0 == "visible"@);
    }
}

/// The body of a change to an order.
pub fn update_order_body(req: &UpdateOrderRequest) -> (r: Json)
    ensures
        flat_members(r) == update_body(*req),
{
    let mut m: Vec<(String, Json)> = Vec::new();
    if let Some(p) = req.platinum {
        m.push(member_num("platinum", p as u64));
    }
    if let Some(q) = req.quantity {
        m.push(member_num("quantity", q as u64));
    }
    if let Some(r) = req.rank {
        if r > 0 {
            m.push(member_num("rank", r as u64));
        }
    }
    if let Some(v) = req.visible {
        m.push(member_flag("visible", v));
    }
    assert(member_views(m@) =~= update_body(*req));
    Json::Object(m)
}


// ── Reading the order endpoints' replies ────────────────────────────────────

/// The name an order shows for an item: its Chinese name when known.
pub open spec fn display_name(i: ItemView) -> Seq<char> {
    if i.name_zh.len() == 0 {
        i.name
    } else {
        i.name_zh
    }
}

/// The position of the first item with object id `id`.
pub open spec fn find_id(items: Seq<ItemView>, id: Seq<char>) -> Option<int>
    decreases items.len(),
{
    if items.len() == 0 {
        None
    } else {
        match find_id(items.drop_last(), id) {
            Some(j) => Some(j),
            None => if items.last().id == id {
                Some(items.len() - 1)
            } else {
                None
            },
        }
    }
}

/// The slug and display name of the item with an object id: through the id
/// index, else by the items' own ids, else no slug and the id itself.
pub open spec fn resolved_item(items: Seq<ItemView>, pairs: Seq<(Seq<char>, Seq<char>)>, id: Seq<char>) -> (
    Seq<char>,
    Seq<char>,
) {
    let by_scan = match find_id(items, id) {
        Some(j) => (items[j].slug, display_name(items[j])),
        None => (Seq::<char>::empty(), id),
    };
    match slug_of_id(pairs, id) {
        Some(slug) => match find_slug(items, slug) {
            Some(j) => (slug, display_name(items[j])),
            None => by_scan,
        },
        None => by_scan,
    }
}

proof fn lemma_find_id(items: Seq<ItemView>, id: Seq<char>)
    ensures
        match find_id(items, id) {
            Some(j) => 0 <= j < items.len() && items[j].id == id,
            None => true,
        },
    decreases items.len(),
{
    if items.len() > 0 {
        lemma_find_id(items.drop_last(), id);
    }
}

fn display_name_exec(i: &MarketCachedItem) -> (r: String)
    ensures
        r@ == display_name(i@),
{
    if i.name_zh.as_str().is_empty() {
        i.name.clone()
    } else {
        i.name_zh.clone()
    }
}

/// The slug and display name for an order's item id.
pub fn resolve_item(cache: &MarketCache, object_id: &str) -> (r: (String, String))
    ensures
        (r.0@, r.1@) == resolved_item(item_views(cache.items@), pair_views(cache.id_to_slug@), object_id@),
{
    let ghost iv = item_views(cache.items@);
    match lookup_id(&cache.id_to_slug, object_id) {
        Some(slug) => {
            proof {
                lemma_find_slug(iv, slug@);
            }
            match find_item(&cache.items, slug.as_str()) {
                Some(j) => {
                    return (slug.clone(), display_name_exec(&cache.items[j]));
                },
                None => {},
            }
        },
        None => {},
    }
    let ghost pv = pair_views(cache.id_to_slug@);
    let ghost scan = match find_id(iv, object_id@) {
        Some(j) => (iv[j].slug, display_name(iv[j])),
        None => (Seq::<char>::empty(), object_id@),
    };
    assert(resolved_item(iv, pv, object_id@) == scan);
    let mut i: usize = 0;
    assert(iv.take(0) =~= Seq::<ItemView>::empty());
    while i < cache.items.len()
        invariant
            iv == item_views(cache.items@),
            i <= iv.len(),
            find_id(iv.take(i as int), object_id@) is None,
            scan == match find_id(iv, object_id@) {
                Some(j) => (iv[j].slug, display_name(iv[j])),
                None => (Seq::<char>::empty(), object_id@),
            },
            resolved_item(iv, pv, object_id@) == scan,
            pv == pair_views(cache.id_to_slug@),
        decreases iv.len() - i,
    {
        assert(iv.take(i + 1).drop_last() =~= iv.take(i as int));
        if str_eq(cache.items[i].id.as_str(), object_id) {
            proof {
                assert(iv[i as int] == cache.items@[i as int]@);
                assert(find_id(iv.take(i + 1), object_id@) == Some(i as int));
                lemma_find_id_prefix(iv, object_id@, i + 1);
            }
            return (cache.items[i].slug.clone(), display_name_exec(&cache.items[i]));
        }
        i = i + 1;
    }
    assert(iv.take(i as int) =~= iv);
    proof {
        reveal_strlit("");
    }
    (String::new(), owned(object_id))
}

/// Finding in a prefix finds in the whole.
proof fn lemma_find_id_prefix(items: Seq<ItemView>, id: Seq<char>, n: int)
    requires
        0 <= n <= items.len(),
        find_id(items.take(n), id) is Some,
    ensures
        find_id(items, id) == find_id(items.take(n), id),
    decreases items.len() - n,
{
    if n < items.len() {
        assert(items.take(n + 1).drop_last() =~= items.take(n));
        lemma_find_id_prefix(items, id, n + 1);
    } else {
        assert(items.take(n) =~= items);
    }
}

/// One of the user's orders from the API's JSON (its item resolved through
/// the catalogue), with the API's gaps filled in: type `?`, price 0,
/// quantity 1, rank 0, visible, platform `pc`; `None` without an id.
pub open spec fn profile_order_of(o: Json, items: Seq<ItemView>, pairs: Seq<(Seq<char>, Seq<char>)>) -> Option<
    ProfileOrderView,
> {
    let id = text_or(index(o, "id"@), Seq::empty());
    if id.len() == 0 {
        None
    } else {
        let item_id = text_or(index(o, "itemId"@), Seq::empty());
        let (slug, name) = resolved_item(items, pairs, item_id);
        Some(
            ProfileOrderView {
                id,
                order_type: text_or(index(o, "type"@), "?"@),
                item_id,
                item_slug: slug,
                item_name: name,
                platinum: (match u64_of(index(o, "platinum"@)) {
                    Some(v) => v,
                    None => 0,
                }) as u32,
                quantity: (match u64_of(index(o, "quantity"@)) {
                    Some(v) => v,
                    None => 1,
                }) as u32,
                rank: (match u64_of(index(o, "rank"@)) {
                    Some(v) => v,
                    None => 0,
                }) as u8,
                visible: match bool_of(index(o, "visible"@)) {
                    Some(b) => b,
                    None => true,
                },
                platform: text_or(index(o, "platform"@), "pc"@),
                creation_date: text_or(index(o, "createdAt"@), Seq::empty()),
            },
        )
    }
}

fn text_or_exec(v: Option<&Json>, default: &str) -> (r: String)
    ensures
        r@ == text_or(or_null(v), default@),
{
    match as_str(v) {
        Some(s) => owned(s),
        None => owned(default),
    }
}

/// Read one of the user's orders.
pub fn parse_order(o: &Json, cache: &MarketCache) -> (r: Option<ProfileOrder>)
    ensures
        match profile_order_of(*o, item_views(cache.items@), pair_views(cache.id_to_slug@)) {
            Some(v) => r matches Some(p) && p@ == v,
            None => r is None,
        },
{
    let p = Some(o);
    proof {
        reveal_strlit("");
    }
    let id = text_or_exec(at(p, "id"), "");
    if id.as_str().is_empty() {
        return None;
    }
    let item_id = text_or_exec(at(p, "itemId"), "");
    let (item_slug, item_name) = resolve_item(cache, item_id.as_str());
    let platinum = match as_u64(at(p, "platinum")) {
        Some(v) => v,
        None => 0,
    };
    let quantity = match as_u64(at(p, "quantity")) {
        Some(v) => v,
        None => 1,
    };
    let rank = match as_u64(at(p, "rank")) {
        Some(v) => v,
        None => 0,
    };
    let visible = match as_bool(at(p, "visible")) {
        Some(b) => b,
        None => true,
    };
    let r = ProfileOrder {
        id,
        order_type: text_or_exec(at(p, "type"), "?"),
        item_id,
        item_slug,
        item_name,
        platinum: platinum as u32,
        quantity: quantity as u32,
        rank: rank as u8,
        visible,
        platform: text_or_exec(at(p, "platform"), "pc"),
        creation_date: text_or_exec(at(p, "createdAt"), ""),
    };
    proof {
        let v = profile_order_of(*o, item_views(cache.items@), pair_views(cache.id_to_slug@))->0;
        assert(r.id@ == v.id);
        assert(r.item_id@ == v.item_id);
        assert(r.item_slug@ == v.item_slug);
        assert(r.item_name@ == v.item_name);
        assert(r.order_type@ == v.order_type);
        assert(r.platinum == v.platinum);
        assert(r.quantity == v.quantity);
        assert(r.rank == v.rank);
        assert(r.visible == v.visible);
        assert(r.platform@ == v.platform);
        assert(r.creation_date@ == v.creation_date);
    }
    Some(r)
}

/// The views of a list of orders.
pub open spec fn profile_views(s: Seq<ProfileOrder>) -> Seq<ProfileOrderView> {
    s.map_values(|o: ProfileOrder| o@)
}

/// The orders that can be read, in reply order.
pub open spec fn profile_orders(
    data: Seq<Json>,
    items: Seq<ItemView>,
    pairs: Seq<(Seq<char>, Seq<char>)>,
) -> Seq<ProfileOrderView>
    decreases data.len(),
{
    if data.len() == 0 {
        Seq::empty()
    } else {
        let r = profile_orders(data.drop_last(), items, pairs);
        match profile_order_of(data.last(), items, pairs) {
            Some(v) => r.push(v),
            None => r,
        }
    }
}

/// The refusal of a reply that is not the expected JSON.
pub open spec fn bad_reply() -> (Seq<char>, Seq<char>) {
    ("server_error"@, "服务器响应异常，请稍后再试"@)
}

/// The user's orders from a parsed list reply (`None` when it was not
/// JSON); a reply without a `data` array holds no orders.
pub fn orders_from_list(parsed: Option<Json>, cache: &MarketCache) -> (r: Result<Vec<ProfileOrder>, MarketError>)
    ensures
        match parsed {
            Some(body) => r matches Ok(list) && profile_views(list@) == profile_orders(
                match array_of(index(body, "data"@)) {
                    Some(d) => d,
                    None => Seq::empty(),
                },
                item_views(cache.items@),
                pair_views(cache.id_to_slug@),
            ),
            None => r matches Err(e) && e@ == bad_reply(),
        },
{
    let body = match parsed {
        Some(b) => b,
        None => {
            return Err(market_error("server_error", "服务器响应异常，请稍后再试"));
        },
    };
    let mut out: Vec<ProfileOrder> = Vec::new();
    match as_array(at(Some(&body), "data")) {
        Some(data) => {
            let ghost iv = item_views(cache.items@);
            let ghost pv = pair_views(cache.id_to_slug@);
            let mut i: usize = 0;
            assert(profile_views(out@) =~= profile_orders(data@.take(0), iv, pv));
            while i < data.len()
                invariant
                    iv == item_views(cache.items@),
                    pv == pair_views(cache.id_to_slug@),
                    i <= data@.len(),
                    profile_views(out@) == profile_orders(data@.take(i as int), iv, pv),
                decreases data@.len() - i,
            {
                assert(data@.take(i + 1).drop_last() =~= data@.take(i as int));
                let ghost before = profile_views(out@);
                match parse_order(&data[i], cache) {
                    Some(o) => {
                        out.push(o);
                        assert(profile_views(out@) =~= before.push(out@.last()@));
                    },
                    None => {},
                }
                i = i + 1;
            }
            assert(data@.take(i as int) =~= data@);
        },
        None => {
            assert(profile_views(out@) =~= Seq::<ProfileOrderView>::empty());
        },
    }
    Ok(out)
}

/// The reply of the order list: the orders on HTTP 200, else the error the
/// status means.
pub fn list_orders_reply(status: u16, body: &str, cache: &MarketCache) -> (r: Result<Vec<ProfileOrder>, MarketError>)
    ensures
        status != 200 ==> (r matches Err(e) && e@ == http_error(status, body@, lowercase(body@))),
        status == 200 && parsed_text(body@) is None ==> (r matches Err(e) && e@ == bad_reply()),
        status == 200 && parsed_text(body@) is Some ==> (r matches Ok(list) && profile_views(list@)
            == profile_orders(
            match array_of(index(parsed_text(body@)->0, "data"@)) {
                Some(d) => d,
                None => Seq::empty(),
            },
            item_views(cache.items@),
            pair_views(cache.id_to_slug@),
        )),
{
    if status == 200 {
        orders_from_list(parse_text(body), cache)
    } else {
        Err(map_http_err(status, body))
    }
}

/// The order a create or update reply holds: its `data` member, or the body
/// itself when it has none.
pub open spec fn reply_order(body: Json, items: Seq<ItemView>, pairs: Seq<(Seq<char>, Seq<char>)>) -> Option<
    ProfileOrderView,
> {
    profile_order_of(
        match member(body, "data"@) {
            Some(d) => d,
            None => body,
        },
        items,
        pairs,
    )
}

/// The order of a parsed create or update reply (`None` when it was not
/// JSON).
pub fn order_from_reply(parsed: Option<Json>, cache: &MarketCache) -> (r: Result<ProfileOrder, MarketError>)
    ensures
        match parsed {
            Some(body) => match reply_order(body, item_views(cache.items@), pair_views(cache.id_to_slug@)) {
                Some(v) => r matches Ok(o) && o@ == v,
                None => r matches Err(e) && e@ == bad_reply(),
            },
            None => r matches Err(e) && e@ == bad_reply(),
        },
{
    let body = match parsed {
        Some(b) => b,
        None => {
            return Err(market_error("server_error", "服务器响应异常，请稍后再试"));
        },
    };
    let data = match get_member(&body, "data") {
        Some(d) => d,
        None => &body,
    };
    match parse_order(data, cache) {
        Some(o) => Ok(o),
        None => Err(market_error("server_error", "服务器响应异常，请稍后再试")),
    }
}

/// The reply of creating (`created` true: HTTP 200 or 201) or updating
/// (HTTP 200) an order.
pub fn saved_order_reply(status: u16, body: &str, created: bool, cache: &MarketCache) -> (r: Result<
    ProfileOrder,
    MarketError,
>)
    ensures
        ({
            let ok = status == 200 || (created && status == 201);
            &&& !ok ==> (r matches Err(e) && e@ == http_error(status, body@, lowercase(body@)))
            &&& ok ==> match parsed_text(body@) {
                Some(b) => match reply_order(b, item_views(cache.items@), pair_views(cache.id_to_slug@)) {
                    Some(v) => r matches Ok(o) && o@ == v,
                    None => r matches Err(e) && e@ == bad_reply(),
                },
                None => r matches Err(e) && e@ == bad_reply(),
            }
        }),
{
    if status == 200 || (created && status == 201) {
        order_from_reply(parse_text(body), cache)
    } else {
        Err(map_http_err(status, body))
    }
}

/// The reply of deleting or closing an order: done on HTTP 200 or 204.
pub fn removed_order_reply(status: u16, body: &str) -> (r: Result<(), MarketError>)
    ensures
        (status == 200 || status == 204) ==> r is Ok,
        !(status == 200 || status == 204) ==> (r matches Err(e) && e@ == http_error(
            status,
            body@,
            lowercase(body@),
        )),
{
    if status == 200 || status == 204 {
        Ok(())
    } else {
        Err(map_http_err(status, body))
    }
}

// ── Object ids ──────────────────────────────────────────────────────────────

/// The object id the catalogue already knows for a slug: one of at least
/// twenty bytes (shorter ids are slugs standing in for one).
pub open spec fn known_object_id(items: Seq<ItemView>, slug: Seq<char>) -> Option<Seq<char>> {
    match find_slug(items, slug) {
        Some(j) => if (vstd::utf8::encode_utf8(items[j].id).len() as usize) >= 20 {
            Some(items[j].id)
        } else {
            None
        },
        None => None,
    }
}

impl MarketCache {
    /// The object id the catalogue knows for a slug.
    pub fn cached_object_id(&self, slug: &str) -> (r: Option<String>)
        ensures
            match known_object_id(item_views(self.items@), slug@) {
                Some(id) => r matches Some(s) && s@ == id,
                None => r is None,
            },
    {
        proof {
            lemma_find_slug(item_views(self.items@), slug@);
        }
        match find_item(&self.items, slug) {
            Some(j) => {
                let id = self.items[j].id.as_str();
                let n = id.len();
                assert(n == id.spec_bytes().len() as usize);
                if n >= 20 {
                    Some(self.items[j].id.clone())
                } else {
                    None
                }
            },
            None => None,
        }
    }
}

/// The object id of an item's detail reply: HTTP success and a non-empty
/// `data.id`.
pub open spec fn object_id_of(success: bool, parsed: Option<Json>) -> Result<Seq<char>, (Seq<char>, Seq<char>)> {
    if !success {
        Err(("invalid_input"@, "该物品在 Warframe.Market 上不存在"@))
    } else {
        match parsed {
            None => Err(("server_error"@, "服务器响应异常"@)),
            Some(body) => {
                let id = text_or(index(index(body, "data"@), "id"@), Seq::empty());
                if id.len() == 0 {
                    Err(("invalid_input"@, "无法获取物品 ID，请刷新物品库后重试"@))
                } else {
                    Ok(id)
                }
            },
        }
    }
}

/// Read the object id from an item's detail reply (`success`: the HTTP
/// status was a success; `body`: the reply text).
pub fn object_id_reply(success: bool, body: &str) -> (r: Result<String, MarketError>)
    ensures
        match object_id_of(success, if success { parsed_text(body@) } else { None }) {
            Ok(id) => r matches Ok(s) && s@ == id,
            Err(e) => r matches Err(x) && x@ == e,
        },
{
    if !success {
        return Err(market_error("invalid_input", "该物品在 Warframe.Market 上不存在"));
    }
    let parsed = parse_text(body);
    let b = match parsed {
        Some(b) => b,
        None => {
            return Err(market_error("server_error", "服务器响应异常"));
        },
    };
    proof {
        reveal_strlit("");
    }
    let id = text_or_exec(crate::json::at2(Some(&b), "data", "id"), "");
    if id.as_str().is_empty() {
        return Err(market_error("invalid_input", "无法获取物品 ID，请刷新物品库后重试"));
    }
    Ok(id)
}

/// The id → slug index after recording an id (`HashMap::insert`): an
/// existing entry for the id is changed in place, else one is added.
pub open spec fn with_id(pairs: Seq<(Seq<char>, Seq<char>)>, id: Seq<char>, slug: Seq<char>) -> Seq<
    (Seq<char>, Seq<char>),
> {
    match find_pair(pairs, id) {
        Some(j) => pairs.update(j, (id, slug)),
        None => pairs.push((id, slug)),
    }
}

/// The position of the first entry for `id`.
pub open spec fn find_pair(pairs: Seq<(Seq<char>, Seq<char>)>, id: Seq<char>) -> Option<int>
    decreases pairs.len(),
{
    if pairs.len() == 0 {
        None
    } else {
        match find_pair(pairs.drop_last(), id) {
            Some(j) => Some(j),
            None => if pairs.last().0 == id {
                Some(pairs.len() - 1)
            } else {
                None
            },
        }
    }
}

proof fn lemma_find_pair(pairs: Seq<(Seq<char>, Seq<char>)>, id: Seq<char>)
    ensures
        match find_pair(pairs, id) {
            Some(j) => 0 <= j < pairs.len() && pairs[j].0 == id,
            None => true,
        },
    decreases pairs.len(),
{
    if pairs.len() > 0 {
        lemma_find_pair(pairs.drop_last(), id);
    }
}

impl MarketCache {
    /// Record a downloaded object id: the item with the slug takes it as its
    /// id, and the index maps it to the slug.
    pub fn remember_object_id(&mut self, slug: &str, object_id: &str)
        ensures
            item_views(final(self).items@) == match find_slug(item_views(old(self).items@), slug@) {
                Some(j) => item_views(old(self).items@).update(
                    j,
                    ItemView { id: object_id@, ..item_views(old(self).items@)[j] },
                ),
                None => item_views(old(self).items@),
            },
            pair_views(final(self).id_to_slug@) == with_id(pair_views(old(self).id_to_slug@), object_id@, slug@),
            final(self).last_updated == old(self).last_updated,
            old(self).wf() ==> final(self).wf(),
    {
        proof {
            lemma_find_slug(item_views(self.items@), slug@);
        }
        match find_item(&self.items, slug) {
            Some(j) => {
                let ghost before = item_views(self.items@);
                let mut it = self.items.remove(j);
                it.id = owned(object_id);
                self.items.insert(j, it);
                assert(item_views(self.items@) =~= before.update(j as int, ItemView { id: object_id@, ..before[j as int] }));
            },
            None => {},
        }
        let ghost items_after = item_views(self.items@);
        proof {
            if old(self).wf() {
                let ov = item_views(old(self).items@);
                assert forall|a: int, b: int| 0 <= a < b < items_after.len() implies items_after[a].slug
                    != items_after[b].slug by {
                    if let Some(j) = find_slug(ov, slug@) {
                        assert(items_after[a].slug == ov[a].slug);
                        assert(items_after[b].slug == ov[b].slug);
                    }
                }
            }
        }
        let ghost pv = pair_views(self.id_to_slug@);
        let mut i: usize = 0;
        assert(pv.take(0) =~= Seq::<(Seq<char>, Seq<char>)>::empty());
        while i < self.id_to_slug.len()
            invariant
                item_views(self.items@) == items_after,
                items_after == match find_slug(item_views(old(self).items@), slug@) {
                    Some(j) => item_views(old(self).items@).update(
                        j,
                        ItemView { id: object_id@, ..item_views(old(self).items@)[j] },
                    ),
                    None => item_views(old(self).items@),
                },
                self.last_updated == old(self).last_updated,
                old(self).wf() ==> crate::market::distinct_slugs(items_after),
                pv == pair_views(old(self).id_to_slug@),
                pv == pair_views(self.id_to_slug@),
                i <= pv.len(),
                find_pair(pv.take(i as int), object_id@) is None,
            decreases pv.len() - i,
        {
            assert(pv.take(i + 1).drop_last() =~= pv.take(i as int));
            if str_eq(self.id_to_slug[i].0.as_str(), object_id) {
                proof {
                    assert(find_pair(pv.take(i + 1), object_id@) == Some(i as int));
                    lemma_find_pair_prefix(pv, object_id@, i + 1);
                }
                let (k, _) = self.id_to_slug.remove(i);
                self.id_to_slug.insert(i, (k, owned(slug)));
                assert(pair_views(self.id_to_slug@) =~= pv.update(i as int, (object_id@, slug@)));
                return;
            }
            i = i + 1;
        }
        assert(pv.take(i as int) =~= pv);
        self.id_to_slug.push((owned(object_id), owned(slug)));
        assert(pair_views(self.id_to_slug@) =~= pv.push((object_id@, slug@)));
    }
}

/// Finding in a prefix finds in the whole.
proof fn lemma_find_pair_prefix(pairs: Seq<(Seq<char>, Seq<char>)>, id: Seq<char>, n: int)
    requires
        0 <= n <= pairs.len(),
        find_pair(pairs.take(n), id) is Some,
    ensures
        find_pair(pairs, id) == find_pair(pairs.take(n), id),
    decreases pairs.len() - n,
{
    if n < pairs.len() {
        assert(pairs.take(n + 1).drop_last() =~= pairs.take(n));
        lemma_find_pair_prefix(pairs, id, n + 1);
    } else {
        assert(pairs.take(n) =~= pairs);
    }
}

} // verus!
