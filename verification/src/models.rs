//! Data carried between the logic and the user interface.

use vstd::prelude::*;

verus! {

/// One void fissure (normal, Steel Path or railjack storm).
#[derive(Debug, Clone)]
pub struct Fissure {
    pub node_key: String,
    pub node_name: String,
    pub planet: String,
    pub mission_type: String,
    /// `VoidT1` .. `VoidT6`.
    pub tier_key: String,
    /// The Chinese era name of the tier.
    pub tier_label: String,
    pub expiry_ms: i64,
    pub is_hard: bool,
    pub is_storm: bool,
    pub remain_ms: i64,
    pub remain_str: String,
    pub is_expiring: bool,
}

/// The current phase of one open-world cycle.
#[derive(Debug, Clone)]
pub struct CycleInfo {
    /// Location name.
    pub name: String,
    /// Current state.
    pub state: String,
    /// Emoji of the state.
    pub state_icon: String,
    pub remain_ms: i64,
    pub is_day: bool,
    /// Like `1h 02m 30s`.
    pub remain_str: String,
    /// When this phase ends (ms timestamp).
    pub expiry_ms: i64,
}

/// One item Baro is selling this rotation.
#[derive(Debug, Clone)]
pub struct BaroItem {
    pub name: String,
    pub ducats: i64,
    pub credits: i64,
}

/// Void Trader (Baro Ki'Teer) state.
#[derive(Debug, Clone)]
pub struct BaroInfo {
    /// At the relay (`Activation <= now < Expiry`).
    pub active: bool,
    pub location: String,
    pub start_ms: i64,
    pub end_ms: i64,
    /// Until arrival when not active, until departure when active.
    pub remain_ms: i64,
    pub remain_str: String,
    pub items: Vec<BaroItem>,
}

/// Duviri Circuit weekly reward rotation.
#[derive(Debug, Clone)]
pub struct CircuitInfo {
    pub normal: Vec<String>,
    pub hard: Vec<String>,
    pub expiry_ms: i64,
    pub remain_ms: i64,
    pub remain_str: String,
}

/// One arbitration slot (current or upcoming).
#[derive(Debug, Clone)]
pub struct ArbitrationSlot {
    pub node: String,
    pub planet: String,
    pub mission: String,
    pub faction: String,
    pub min_level: i32,
    pub max_level: i32,
    pub archwing: bool,
}

/// The current arbitration and the next few slots.
#[derive(Debug, Clone)]
pub struct ArbitrationInfo {
    pub current: ArbitrationSlot,
    pub upcoming: Vec<ArbitrationSlot>,
    pub expiry_ms: i64,
    pub remain_ms: i64,
    pub remain_str: String,
    pub all_missions: Vec<String>,
    pub all_planets: Vec<String>,
}

/// Search result row of the market.
#[derive(Debug, Clone)]
pub struct MarketItemSummary {
    pub slug: String,
    /// English name.
    pub name: String,
    /// Simplified Chinese name.
    pub name_zh: String,
    /// Resolved full URL.
    pub icon_url: String,
    /// Mastery rank requirement, `None` when unknown.
    pub mr: Option<u8>,
    /// Maximum mod/arcane rank.
    pub max_rank: Option<u8>,
    pub tags: Vec<String>,
}

/// One buy or sell order.
#[derive(Debug, Clone)]
pub struct MarketOrder {
    /// `sell` or `buy`.
    pub order_type: String,
    pub platinum: u32,
    pub quantity: u32,
    pub player_name: String,
    pub reputation: i32,
    /// `ingame`, `online` or `offline`.
    pub status: String,
    /// Rank of this mod/arcane listing.
    pub mod_rank: Option<u8>,
}

/// Detail panel payload (item info and orders).
#[derive(Debug, Clone)]
pub struct MarketItemFull {
    pub item: MarketItemSummary,
    pub ducats: Option<u32>,
    pub trading_tax: Option<u32>,
    pub set_root: bool,
    pub set_parts: Vec<MarketItemSummary>,
    pub sell_orders: Vec<MarketOrder>,
    pub buy_orders: Vec<MarketOrder>,
}

/// Market cache status.
#[derive(Debug, Clone)]
pub struct MarketCacheStatus {
    pub count: usize,
    pub last_updated: String,
}

/// An error of the market features, with a machine code and a message.
#[derive(Debug, Clone)]
pub struct MarketError {
    pub code: String,
    pub message: String,
}

/// What the market account panel shows.
#[derive(Debug, Clone)]
pub struct MarketAuthStatus {
    pub logged_in: bool,
    pub ingame_name: Option<String>,
    pub avatar: Option<String>,
    pub reputation: Option<i32>,
    pub current_status: Option<String>,
}

/// One of the signed-in user's own orders.
#[derive(Debug, Clone)]
pub struct ProfileOrder {
    pub id: String,
    pub order_type: String,
    pub item_id: String,
    pub item_slug: String,
    pub item_name: String,
    pub platinum: u32,
    pub quantity: u32,
    pub rank: u8,
    pub visible: bool,
    pub platform: String,
    pub creation_date: String,
}

/// A new order as the user entered it.
#[derive(Debug, Clone)]
pub struct CreateOrderRequest {
    pub order_type: String,
    /// The item's slug.
    pub item_id: String,
    pub platinum: u32,
    pub quantity: u32,
    pub visible: bool,
    pub rank: u8,
}

/// A change to an existing order; `None` fields stay as they are.
#[derive(Debug, Clone)]
pub struct UpdateOrderRequest {
    pub order_id: String,
    pub platinum: Option<u32>,
    pub quantity: Option<u32>,
    pub visible: Option<bool>,
    pub rank: Option<u8>,
}


/// The texts of a list of strings.
pub open spec fn texts(v: Seq<String>) -> Seq<Seq<char>> {
    v.map_values(|t: String| t@)
}

/// A copy of a list of strings.
pub fn copy_texts(v: &Vec<String>) -> (r: Vec<String>)
    ensures
        texts(r@) == texts(v@),
{
    let mut r: Vec<String> = Vec::new();
    let mut i: usize = 0;
    while i < v.len()
        invariant
            i <= v@.len(),
            r@.len() == i,
            forall|j: int| 0 <= j < i ==> #[trigger] r@[j]@ == v@[j]@,
        decreases v@.len() - i,
    {
        r.push(v[i].clone());
        i = i + 1;
    }
    assert(texts(r@) =~= texts(v@));
    r
}

/// A search result row as plain values.
pub struct SummaryView {
    pub slug: Seq<char>,
    pub name: Seq<char>,
    pub name_zh: Seq<char>,
    pub icon_url: Seq<char>,
    pub mr: Option<u8>,
    pub max_rank: Option<u8>,
    pub tags: Seq<Seq<char>>,
}

impl View for MarketItemSummary {
    type V = SummaryView;

    open spec fn view(&self) -> SummaryView {
        SummaryView {
            slug: self.slug@,
            name: self.name@,
            name_zh: self.name_zh@,
            icon_url: self.icon_url@,
            mr: self.mr,
            max_rank: self.max_rank,
            tags: texts(self.tags@),
        }
    }
}

/// An order as plain values.
pub struct OrderView {
    pub order_type: Seq<char>,
    pub platinum: u32,
    pub quantity: u32,
    pub player_name: Seq<char>,
    pub reputation: i32,
    pub status: Seq<char>,
    pub mod_rank: Option<u8>,
}

impl View for MarketOrder {
    type V = OrderView;

    open spec fn view(&self) -> OrderView {
        OrderView {
            order_type: self.order_type@,
            platinum: self.platinum,
            quantity: self.quantity,
            player_name: self.player_name@,
            reputation: self.reputation,
            status: self.status@,
            mod_rank: self.mod_rank,
        }
    }
}

/// A market error as plain values: its code and message.
impl View for MarketError {
    type V = (Seq<char>, Seq<char>);

    open spec fn view(&self) -> (Seq<char>, Seq<char>) {
        (self.code@, self.message@)
    }
}

/// One of the user's orders as plain values.
pub struct ProfileOrderView {
    pub id: Seq<char>,
    pub order_type: Seq<char>,
    pub item_id: Seq<char>,
    pub item_slug: Seq<char>,
    pub item_name: Seq<char>,
    pub platinum: u32,
    pub quantity: u32,
    pub rank: u8,
    pub visible: bool,
    pub platform: Seq<char>,
    pub creation_date: Seq<char>,
}

impl View for ProfileOrder {
    type V = ProfileOrderView;

    open spec fn view(&self) -> ProfileOrderView {
        ProfileOrderView {
            id: self.id@,
            order_type: self.order_type@,
            item_id: self.item_id@,
            item_slug: self.item_slug@,
            item_name: self.item_name@,
            platinum: self.platinum,
            quantity: self.quantity,
            rank: self.rank,
            visible: self.visible,
            platform: self.platform@,
            creation_date: self.creation_date@,
        }
    }
}

/// A market error with the given code and message.
pub fn market_error(code: &str, message: &str) -> (e: MarketError)
    ensures
        e@ == (code@, message@),
{
    MarketError { code: code.to_owned(), message: message.to_owned() }
}

} // verus!
