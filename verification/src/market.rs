//! The Warframe.Market item catalogue: the embedded fallback list, the cache
//! of items, searching and translating names, and reading the market API's
//! replies (item lists, item details and orders).

use vstd::prelude::*;
use vstd::string::StringSliceAdditionalSpecFns;
use crate::text::{owned, push_str, str_eq, decimal, push_decimal};
use crate::textscan::{
    has_suffix, ends_with, replace_all, replace_str, split, split_str, contains, lowercase,
    to_lower, trim, trim_str, str_contains,
};
use crate::models::{
    texts, copy_texts, MarketItemSummary, SummaryView, MarketCacheStatus, MarketOrder, OrderView,
    MarketItemFull,
};
use crate::json::{
    Json, index, index2, index3, str_of, u64_of, i64_of, bool_of, array_of, or_null, at, at2, at3,
    as_str, as_u64, as_i64, as_bool, as_array, member, get_member, string_list, string_list_exec,
};
use crate::sorting::{sorted_by_key, sort_by_key, map_payload, lemma_sorted_map};

verus! {

/// Where item icons are served from.
pub const ICON_BASE: &'static str = "https://warframe.market/static/assets/";

/// One item of the catalogue.
#[derive(Debug, Clone)]
pub struct MarketCachedItem {
    /// Market object id (the slug for embedded items).
    pub id: String,
    pub slug: String,
    /// English name.
    pub name: String,
    /// Simplified Chinese name, empty when unknown.
    pub name_zh: String,
    pub icon: String,
    pub mr: Option<u8>,
    /// Maximum mod/arcane rank.
    pub max_rank: Option<u8>,
    pub tags: Vec<String>,
    /// Sold in bulk (orders carry a per-trade quantity).
    pub bulk_tradable: bool,
}

/// A catalogue item as plain values.
pub struct ItemView {
    pub id: Seq<char>,
    pub slug: Seq<char>,
    pub name: Seq<char>,
    pub name_zh: Seq<char>,
    pub icon: Seq<char>,
    pub mr: Option<u8>,
    pub max_rank: Option<u8>,
    pub tags: Seq<Seq<char>>,
    pub bulk_tradable: bool,
}

impl View for MarketCachedItem {
    type V = ItemView;

    open spec fn view(&self) -> ItemView {
        ItemView {
            id: self.id@,
            slug: self.slug@,
            name: self.name@,
            name_zh: self.name_zh@,
            icon: self.icon@,
            mr: self.mr,
            max_rank: self.max_rank,
            tags: texts(self.tags@),
            bulk_tradable: self.bulk_tradable,
        }
    }
}

/// The views of a list of items.
pub open spec fn item_views(s: Seq<MarketCachedItem>) -> Seq<ItemView> {
    s.map_values(|i: MarketCachedItem| i@)
}

/// The search-result row for an item: its icon resolved against
/// [`ICON_BASE`].
pub open spec fn summary(i: ItemView) -> SummaryView {
    SummaryView {
        slug: i.slug,
        name: i.name,
        name_zh: i.name_zh,
        icon_url: ICON_BASE@ + i.icon,
        mr: i.mr,
        max_rank: i.max_rank,
        tags: i.tags,
    }
}

/// The search-result row for an item.
pub fn summary_of(i: &MarketCachedItem) -> (r: MarketItemSummary)
    ensures
        r@ == summary(i@),
{
    let mut icon_url = owned(ICON_BASE);
    push_str(&mut icon_url, i.icon.as_str());
    MarketItemSummary {
        slug: i.slug.clone(),
        name: i.name.clone(),
        name_zh: i.name_zh.clone(),
        icon_url,
        mr: i.mr,
        max_rank: i.max_rank,
        tags: copy_texts(&i.tags),
    }
}

// ── The embedded fallback list ──────────────────────────────────────────────

/// The Chinese names the embedded list knows for items that are not sets.
pub open spec fn known_zh_name(slug: Seq<char>) -> Seq<char> {
    if slug == "adaptation"@ { "适应"@ }
    else if slug == "blind_rage"@ { "盲怒"@ }
    else if slug == "blood_rush"@ { "急进猛突"@ }
    else if slug == "condition_overload"@ { "异况超量"@ }
    else if slug == "continuity_prime"@ { "持久力 Prime"@ }
    else if slug == "flow_prime"@ { "川流不息 Prime"@ }
    else if slug == "heavy_caliber"@ { "重口径"@ }
    else if slug == "hells_chamber"@ { "地狱弹膛"@ }
    else if slug == "narrow_minded"@ { "心志偏狭"@ }
    else if slug == "overextended"@ { "过度延伸"@ }
    else if slug == "primed_chamber"@ { "高级膛室"@ }
    else if slug == "primed_cryo_rounds"@ { "低温弹头 Prime"@ }
    else if slug == "primed_flow"@ { "川流不息 Prime"@ }
    else if slug == "rolling_guard"@ { "翻滚防护"@ }
    else if slug == "serration_prime"@ { "膛线 Prime"@ }
    else if slug == "split_chamber"@ { "分裂膛室"@ }
    else if slug == "transient_fortitude"@ { "瞬时坚毅"@ }
    else if slug == "vital_sense"@ { "要害"@ }
    else if slug == "weeping_wounds"@ { "创口溃烂"@ }
    else if slug == "arcane_aegis"@ { "赋能·神盾"@ }
    else if slug == "arcane_avenger"@ { "赋能·复仇者"@ }
    else if slug == "arcane_barrier"@ { "赋能·壁垒"@ }
    else if slug == "arcane_energize"@ { "赋能·充沛"@ }
    else if slug == "arcane_fury"@ { "赋能·狂怒"@ }
    else if slug == "arcane_grace"@ { "赋能·优雅"@ }
    else if slug == "arcane_guardian"@ { "赋能·保卫者"@ }
    else if slug == "arcane_precision"@ { "赋能·精确"@ }
    else if slug == "arcane_strike"@ { "赋能·打击"@ }
    else if slug == "arcane_velocity"@ { "赋能·敏捷"@ }
    else { Seq::empty() }
}

fn known_zh_name_exec(slug: &str) -> (r: String)
    ensures
        r@ == known_zh_name(slug@),
{
    if str_eq(slug, "adaptation") { owned("适应") }
    else if str_eq(slug, "blind_rage") { owned("盲怒") }
    else if str_eq(slug, "blood_rush") { owned("急进猛突") }
    else if str_eq(slug, "condition_overload") { owned("异况超量") }
    else if str_eq(slug, "continuity_prime") { owned("持久力 Prime") }
    else if str_eq(slug, "flow_prime") { owned("川流不息 Prime") }
    else if str_eq(slug, "heavy_caliber") { owned("重口径") }
    else if str_eq(slug, "hells_chamber") { owned("地狱弹膛") }
    else if str_eq(slug, "narrow_minded") { owned("心志偏狭") }
    else if str_eq(slug, "overextended") { owned("过度延伸") }
    else if str_eq(slug, "primed_chamber") { owned("高级膛室") }
    else if str_eq(slug, "primed_cryo_rounds") { owned("低温弹头 Prime") }
    else if str_eq(slug, "primed_flow") { owned("川流不息 Prime") }
    else if str_eq(slug, "rolling_guard") { owned("翻滚防护") }
    else if str_eq(slug, "serration_prime") { owned("膛线 Prime") }
    else if str_eq(slug, "split_chamber") { owned("分裂膛室") }
    else if str_eq(slug, "transient_fortitude") { owned("瞬时坚毅") }
    else if str_eq(slug, "vital_sense") { owned("要害") }
    else if str_eq(slug, "weeping_wounds") { owned("创口溃烂") }
    else if str_eq(slug, "arcane_aegis") { owned("赋能·神盾") }
    else if str_eq(slug, "arcane_avenger") { owned("赋能·复仇者") }
    else if str_eq(slug, "arcane_barrier") { owned("赋能·壁垒") }
    else if str_eq(slug, "arcane_energize") { owned("赋能·充沛") }
    else if str_eq(slug, "arcane_fury") { owned("赋能·狂怒") }
    else if str_eq(slug, "arcane_grace") { owned("赋能·优雅") }
    else if str_eq(slug, "arcane_guardian") { owned("赋能·保卫者") }
    else if str_eq(slug, "arcane_precision") { owned("赋能·精确") }
    else if str_eq(slug, "arcane_strike") { owned("赋能·打击") }
    else if str_eq(slug, "arcane_velocity") { owned("赋能·敏捷") }
    else { String::new() }
}

/// The Chinese name of an embedded item: a set's English name with ` Set`
/// turned into ` 一套`, else the name the list knows for the slug.
pub open spec fn embedded_zh_name(slug: Seq<char>, name: Seq<char>) -> Seq<char> {
    if has_suffix(name, " Set"@) {
        replace_all(name, " Set"@, " 一套"@)
    } else {
        known_zh_name(slug)
    }
}

/// An embedded item: the slug doubles as its id; tags are given as one
/// comma-separated text.
pub open spec fn embedded_item(
    slug: Seq<char>,
    name: Seq<char>,
    icon: Seq<char>,
    mr: Option<u8>,
    max_rank: Option<u8>,
    tags: Seq<char>,
) -> ItemView {
    ItemView {
        id: slug,
        slug,
        name,
        name_zh: embedded_zh_name(slug, name),
        icon,
        mr,
        max_rank,
        tags: split(tags, ','),
        bulk_tradable: false,
    }
}

/// Build one embedded item.
pub fn ci(slug: &str, name: &str, icon: &str, mr: Option<u8>, max_rank: Option<u8>, tags: &str) -> (r:
    MarketCachedItem)
    ensures
        r@ == embedded_item(slug@, name@, icon@, mr, max_rank, tags@),
{
    let name_zh = if ends_with(name, " Set") {
        proof {
            reveal_strlit(" Set");
        }
        replace_str(name, " Set", " 一套")
    } else {
        known_zh_name_exec(slug)
    };
    let tag_list = split_str(tags, ',');
    let r = MarketCachedItem {
        id: owned(slug),
        slug: owned(slug),
        name: owned(name),
        name_zh,
        icon: owned(icon),
        mr,
        max_rank,
        tags: tag_list,
        bulk_tradable: false,
    };
    assert(texts(r.tags@) =~= split(tags@, ','));
    r
}

/// The offline fallback catalogue: popular sets, mods and arcanes, as
/// (slug, English name, icon, mastery rank, tags).
pub const EMBEDDED: [(&'static str, &'static str, &'static str, u8, &'static str); 98] = [
    ("ash_prime_set", "Ash Prime Set", "items/images/en/ash_prime_set.thumb.128x128.png", 0, "set,prime,warframe"),
    ("atlas_prime_set", "Atlas Prime Set", "items/images/en/atlas_prime_set.thumb.128x128.png", 0, "set,prime,warframe"),
    ("banshee_prime_set", "Banshee Prime Set", "items/images/en/banshee_prime_set.thumb.128x128.png", 8, "set,prime,warframe"),
    ("chroma_prime_set", "Chroma Prime Set", "items/images/en/chroma_prime_set.thumb.128x128.png", 6, "set,prime,warframe"),
    ("ember_prime_set", "Ember Prime Set", "items/images/en/ember_prime_set.thumb.128x128.png", 0, "set,prime,warframe"),
    ("equinox_prime_set", "Equinox Prime Set", "items/images/en/equinox_prime_set.thumb.128x128.png", 5, "set,prime,warframe"),
    ("frost_prime_set", "Frost Prime Set", "items/images/en/frost_prime_set.thumb.128x128.png", 0, "set,prime,warframe"),
    ("gara_prime_set", "Gara Prime Set", "items/images/en/gara_prime_set.thumb.128x128.png", 0, "set,prime,warframe"),
    ("garuda_prime_set", "Garuda Prime Set", "items/images/en/garuda_prime_set.thumb.128x128.png", 0, "set,prime,warframe"),
    ("hydroid_prime_set", "Hydroid Prime Set", "items/images/en/hydroid_prime_set.thumb.128x128.png", 5, "set,prime,warframe"),
    ("inaros_prime_set", "Inaros Prime Set", "items/images/en/inaros_prime_set.thumb.128x128.png", 0, "set,prime,warframe"),
    ("ivara_prime_set", "Ivara Prime Set", "items/images/en/ivara_prime_set.thumb.128x128.png", 0, "set,prime,warframe"),
    ("khora_prime_set", "Khora Prime Set", "items/images/en/khora_prime_set.thumb.128x128.png", 0, "set,prime,warframe"),
    ("limbo_prime_set", "Limbo Prime Set", "items/images/en/limbo_prime_set.thumb.128x128.png", 0, "set,prime,warframe"),
    ("loki_prime_set", "Loki Prime Set", "items/images/en/loki_prime_set.thumb.128x128.png", 0, "set,prime,warframe"),
    ("mag_prime_set", "Mag Prime Set", "items/images/en/mag_prime_set.thumb.128x128.png", 0, "set,prime,warframe"),
    ("mesa_prime_set", "Mesa Prime Set", "items/images/en/mesa_prime_set.thumb.128x128.png", 0, "set,prime,warframe"),
    ("mirage_prime_set", "Mirage Prime Set", "items/images/en/mirage_prime_set.thumb.128x128.png", 0, "set,prime,warframe"),
    ("nekros_prime_set", "Nekros Prime Set", "items/images/en/nekros_prime_set.thumb.128x128.png", 0, "set,prime,warframe"),
    ("nezha_prime_set", "Nezha Prime Set", "items/images/en/nezha_prime_set.thumb.128x128.png", 0, "set,prime,warframe"),
    ("nidus_prime_set", "Nidus Prime Set", "items/images/en/nidus_prime_set.thumb.128x128.png", 0, "set,prime,warframe"),
    ("nova_prime_set", "Nova Prime Set", "items/images/en/nova_prime_set.thumb.128x128.png", 0, "set,prime,warframe"),
    ("nyx_prime_set", "Nyx Prime Set", "items/images/en/nyx_prime_set.thumb.128x128.png", 0, "set,prime,warframe"),
    ("oberon_prime_set", "Oberon Prime Set", "items/images/en/oberon_prime_set.thumb.128x128.png", 0, "set,prime,warframe"),
    ("octavia_prime_set", "Octavia Prime Set", "items/images/en/octavia_prime_set.thumb.128x128.png", 0, "set,prime,warframe"),
    ("revenant_prime_set", "Revenant Prime Set", "items/images/en/revenant_prime_set.thumb.128x128.png", 0, "set,prime,warframe"),
    ("rhino_prime_set", "Rhino Prime Set", "items/images/en/rhino_prime_set.thumb.128x128.png", 0, "set,prime,warframe"),
    ("saryn_prime_set", "Saryn Prime Set", "items/images/en/saryn_prime_set.thumb.128x128.png", 0, "set,prime,warframe"),
    ("titania_prime_set", "Titania Prime Set", "items/images/en/titania_prime_set.thumb.128x128.png", 0, "set,prime,warframe"),
    ("trinity_prime_set", "Trinity Prime Set", "items/images/en/trinity_prime_set.thumb.128x128.png", 0, "set,prime,warframe"),
    ("valkyr_prime_set", "Valkyr Prime Set", "items/images/en/valkyr_prime_set.thumb.128x128.png", 0, "set,prime,warframe"),
    ("vauban_prime_set", "Vauban Prime Set", "items/images/en/vauban_prime_set.thumb.128x128.png", 0, "set,prime,warframe"),
    ("volt_prime_set", "Volt Prime Set", "items/images/en/volt_prime_set.thumb.128x128.png", 0, "set,prime,warframe"),
    ("wisp_prime_set", "Wisp Prime Set", "items/images/en/wisp_prime_set.thumb.128x128.png", 0, "set,prime,warframe"),
    ("wukong_prime_set", "Wukong Prime Set", "items/images/en/wukong_prime_set.thumb.128x128.png", 5, "set,prime,warframe"),
    ("zephyr_prime_set", "Zephyr Prime Set", "items/images/en/zephyr_prime_set.thumb.128x128.png", 0, "set,prime,warframe"),
    ("acceltra_prime_set", "Acceltra Prime Set", "items/images/en/acceltra_prime_set.thumb.128x128.png", 14, "set,prime,primary"),
    ("bo_prime_set", "Bo Prime Set", "items/images/en/bo_prime_set.thumb.128x128.png", 5, "set,prime,melee"),
    ("boltor_prime_set", "Boltor Prime Set", "items/images/en/boltor_prime_set.thumb.128x128.png", 12, "set,prime,primary"),
    ("braton_prime_set", "Braton Prime Set", "items/images/en/braton_prime_set.thumb.128x128.png", 8, "set,prime,primary"),
    ("burston_prime_set", "Burston Prime Set", "items/images/en/burston_prime_set.thumb.128x128.png", 12, "set,prime,primary"),
    ("cernos_prime_set", "Cernos Prime Set", "items/images/en/cernos_prime_set.thumb.128x128.png", 12, "set,prime,primary"),
    ("corinth_prime_set", "Corinth Prime Set", "items/images/en/corinth_prime_set.thumb.128x128.png", 14, "set,prime,primary"),
    ("dakra_prime_set", "Dakra Prime Set", "items/images/en/dakra_prime_set.thumb.128x128.png", 10, "set,prime,melee"),
    ("destreza_prime_set", "Destreza Prime Set", "items/images/en/destreza_prime_set.thumb.128x128.png", 7, "set,prime,melee"),
    ("euphona_prime_set", "Euphona Prime Set", "items/images/en/euphona_prime_set.thumb.128x128.png", 14, "set,prime,secondary"),
    ("fang_prime_set", "Fang Prime Set", "items/images/en/fang_prime_set.thumb.128x128.png", 2, "set,prime,melee"),
    ("fulmin_prime_set", "Fulmin Prime Set", "items/images/en/fulmin_prime_set.thumb.128x128.png", 12, "set,prime,primary"),
    ("glaive_prime_set", "Glaive Prime Set", "items/images/en/glaive_prime_set.thumb.128x128.png", 10, "set,prime,melee"),
    ("gram_prime_set", "Gram Prime Set", "items/images/en/gram_prime_set.thumb.128x128.png", 14, "set,prime,melee"),
    ("guandao_prime_set", "Guandao Prime Set", "items/images/en/guandao_prime_set.thumb.128x128.png", 12, "set,prime,melee"),
    ("kronen_prime_set", "Kronen Prime Set", "items/images/en/kronen_prime_set.thumb.128x128.png", 13, "set,prime,melee"),
    ("lex_prime_set", "Lex Prime Set", "items/images/en/lex_prime_set.thumb.128x128.png", 8, "set,prime,secondary"),
    ("nami_skyla_prime_set", "Nami Skyla Prime Set", "items/images/en/nami_skyla_prime_set.thumb.128x128.png", 11, "set,prime,melee"),
    ("nikana_prime_set", "Nikana Prime Set", "items/images/en/nikana_prime_set.thumb.128x128.png", 12, "set,prime,melee"),
    ("orthos_prime_set", "Orthos Prime Set", "items/images/en/orthos_prime_set.thumb.128x128.png", 12, "set,prime,melee"),
    ("paris_prime_set", "Paris Prime Set", "items/images/en/paris_prime_set.thumb.128x128.png", 8, "set,prime,primary"),
    ("pyrana_prime_set", "Pyrana Prime Set", "items/images/en/pyrana_prime_set.thumb.128x128.png", 13, "set,prime,secondary"),
    ("redeemer_prime_set", "Redeemer Prime Set", "items/images/en/redeemer_prime_set.thumb.128x128.png", 10, "set,prime,melee"),
    ("reaper_prime_set", "Reaper Prime Set", "items/images/en/reaper_prime_set.thumb.128x128.png", 10, "set,prime,melee"),
    ("rubico_prime_set", "Rubico Prime Set", "items/images/en/rubico_prime_set.thumb.128x128.png", 12, "set,prime,primary"),
    ("scindo_prime_set", "Scindo Prime Set", "items/images/en/scindo_prime_set.thumb.128x128.png", 8, "set,prime,melee"),
    ("soma_prime_set", "Soma Prime Set", "items/images/en/soma_prime_set.thumb.128x128.png", 6, "set,prime,primary"),
    ("sybaris_prime_set", "Sybaris Prime Set", "items/images/en/sybaris_prime_set.thumb.128x128.png", 12, "set,prime,primary"),
    ("tiberon_prime_set", "Tiberon Prime Set", "items/images/en/tiberon_prime_set.thumb.128x128.png", 14, "set,prime,primary"),
    ("tigris_prime_set", "Tigris Prime Set", "items/images/en/tigris_prime_set.thumb.128x128.png", 13, "set,prime,primary"),
    ("tipedo_prime_set", "Tipedo Prime Set", "items/images/en/tipedo_prime_set.thumb.128x128.png", 8, "set,prime,melee"),
    ("vectis_prime_set", "Vectis Prime Set", "items/images/en/vectis_prime_set.thumb.128x128.png", 14, "set,prime,primary"),
    ("venka_prime_set", "Venka Prime Set", "items/images/en/venka_prime_set.thumb.128x128.png", 8, "set,prime,melee"),
    ("adaptation", "Adaptation", "items/images/en/adaptation.thumb.128x128.png", 10, "mod,rare,warframe"),
    ("blind_rage", "Blind Rage", "items/images/en/blind_rage.thumb.128x128.png", 10, "mod,rare,warframe"),
    ("blood_rush", "Blood Rush", "items/images/en/blood_rush.thumb.128x128.png", 10, "mod,rare,melee"),
    ("condition_overload", "Condition Overload", "items/images/en/condition_overload.thumb.128x128.png", 10, "mod,rare,melee"),
    ("continuity_prime", "Primed Continuity", "items/images/en/continuity_prime.thumb.128x128.png", 10, "mod,legendary,warframe"),
    ("flow_prime", "Primed Flow", "items/images/en/flow_prime.thumb.128x128.png", 10, "mod,legendary,warframe"),
    ("heavy_caliber", "Heavy Caliber", "items/images/en/heavy_caliber.thumb.128x128.png", 10, "mod,rare,primary"),
    ("hells_chamber", "Hell's Chamber", "items/images/en/hells_chamber.thumb.128x128.png", 8, "mod,uncommon,primary"),
    ("narrow_minded", "Narrow Minded", "items/images/en/narrow_minded.thumb.128x128.png", 10, "mod,rare,warframe"),
    ("overextended", "Overextended", "items/images/en/overextended.thumb.128x128.png", 10, "mod,rare,warframe"),
    ("primed_chamber", "Primed Chamber", "items/images/en/primed_chamber.thumb.128x128.png", 16, "mod,legendary,primary"),
    ("primed_cryo_rounds", "Primed Cryo Rounds", "items/images/en/primed_cryo_rounds.thumb.128x128.png", 10, "mod,legendary,primary"),
    ("primed_flow", "Primed Flow", "items/images/en/primed_flow.thumb.128x128.png", 10, "mod,legendary,warframe"),
    ("rolling_guard", "Rolling Guard", "items/images/en/rolling_guard.thumb.128x128.png", 10, "mod,rare,warframe"),
    ("serration_prime", "Primed Serration", "items/images/en/serration_prime.thumb.128x128.png", 10, "mod,legendary,primary"),
    ("split_chamber", "Split Chamber", "items/images/en/split_chamber.thumb.128x128.png", 5, "mod,rare,primary"),
    ("transient_fortitude", "Transient Fortitude", "items/images/en/transient_fortitude.thumb.128x128.png", 10, "mod,rare,warframe"),
    ("vital_sense", "Vital Sense", "items/images/en/vital_sense.thumb.128x128.png", 5, "mod,rare,primary"),
    ("weeping_wounds", "Weeping Wounds", "items/images/en/weeping_wounds.thumb.128x128.png", 10, "mod,rare,melee"),
    ("arcane_aegis", "Arcane Aegis", "items/images/en/arcane_aegis.thumb.128x128.png", 5, "legendary,arcane_enhancement"),
    ("arcane_avenger", "Arcane Avenger", "items/images/en/arcane_avenger.thumb.128x128.png", 5, "rare,arcane_enhancement"),
    ("arcane_barrier", "Arcane Barrier", "items/images/en/arcane_barrier.thumb.128x128.png", 5, "legendary,arcane_enhancement"),
    ("arcane_energize", "Arcane Energize", "items/images/en/arcane_energize.thumb.128x128.png", 5, "legendary,arcane_enhancement"),
    ("arcane_fury", "Arcane Fury", "items/images/en/arcane_fury.thumb.128x128.png", 5, "rare,arcane_enhancement"),
    ("arcane_grace", "Arcane Grace", "items/images/en/arcane_grace.thumb.128x128.png", 5, "legendary,arcane_enhancement"),
    ("arcane_guardian", "Arcane Guardian", "items/images/en/arcane_guardian.thumb.128x128.png", 5, "rare,arcane_enhancement"),
    ("arcane_precision", "Arcane Precision", "items/images/en/arcane_precision.thumb.128x128.png", 5, "rare,arcane_enhancement"),
    ("arcane_strike", "Arcane Strike", "items/images/en/arcane_strike.thumb.128x128.png", 5, "common,arcane_enhancement"),
    ("arcane_velocity", "Arcane Velocity", "items/images/en/arcane_velocity.thumb.128x128.png", 5, "rare,arcane_enhancement"),];

/// The item an embedded row stands for.
pub open spec fn embedded_row(row: (&'static str, &'static str, &'static str, u8, &'static str)) -> ItemView {
    embedded_item(row.0@, row.1@, row.2@, Some(row.3), None, row.4@)
}

/// The embedded catalogue, in table order.
pub fn embedded_items() -> (r: Vec<MarketCachedItem>)
    ensures
        r@.len() == EMBEDDED@.len(),
        forall|i: int| 0 <= i < r@.len() ==> #[trigger] r@[i]@ == embedded_row(EMBEDDED@[i]),
{
    let mut r: Vec<MarketCachedItem> = Vec::new();
    let mut i: usize = 0;
    while i < EMBEDDED.len()
        invariant
            i <= EMBEDDED@.len(),
            r@.len() == i,
            forall|j: int| 0 <= j < i ==> #[trigger] r@[j]@ == embedded_row(EMBEDDED@[j]),
        decreases EMBEDDED@.len() - i,
    {
        let row = EMBEDDED[i];
        r.push(ci(row.0, row.1, row.2, Some(row.3), None, row.4));
        i = i + 1;
    }
    r
}


// ── The cache ───────────────────────────────────────────────────────────────

/// The position of the first item with slug `k`.
pub open spec fn find_slug(items: Seq<ItemView>, k: Seq<char>) -> Option<int>
    decreases items.len(),
{
    if items.len() == 0 {
        None
    } else {
        match find_slug(items.drop_last(), k) {
            Some(j) => Some(j),
            None => if items.last().slug == k {
                Some(items.len() - 1)
            } else {
                None
            },
        }
    }
}

/// No two items share a slug (the catalogue is keyed by slug).
pub open spec fn distinct_slugs(items: Seq<ItemView>) -> bool {
    forall|i: int, j: int| 0 <= i < j < items.len() ==> items[i].slug != items[j].slug
}

/// The catalogue after storing `x` under its slug: it replaces the item with
/// that slug, or is added at the end.
pub open spec fn with_item(items: Seq<ItemView>, x: ItemView) -> Seq<ItemView> {
    match find_slug(items, x.slug) {
        Some(j) => items.update(j, x),
        None => items.push(x),
    }
}

/// A list of items keyed by slug, in order: where slugs repeat, the last
/// item wins, at the place where the slug first appeared.
pub open spec fn keyed(s: Seq<ItemView>) -> Seq<ItemView>
    decreases s.len(),
{
    if s.len() == 0 {
        Seq::empty()
    } else {
        with_item(keyed(s.drop_last()), s.last())
    }
}

/// What `find_slug` finds has the slug, and nothing before it has.
pub proof fn lemma_find_slug(items: Seq<ItemView>, k: Seq<char>)
    ensures
        match find_slug(items, k) {
            Some(j) => 0 <= j < items.len() && items[j].slug == k && forall|q: int|
                0 <= q < j ==> items[q].slug != k,
            None => forall|q: int| 0 <= q < items.len() ==> items[q].slug != k,
        },
    decreases items.len(),
{
    if items.len() > 0 {
        let d = items.drop_last();
        lemma_find_slug(d, k);
        assert forall|q: int| 0 <= q < d.len() implies d[q] == items[q] by {}
    }
}

/// Storing an item keeps the slugs distinct, and the item is then found
/// under its slug.
pub proof fn lemma_with_item(items: Seq<ItemView>, x: ItemView)
    requires
        distinct_slugs(items),
    ensures
        distinct_slugs(with_item(items, x)),
        find_slug(with_item(items, x), x.slug) is Some,
        with_item(items, x)[find_slug(with_item(items, x), x.slug)->0] == x,
        forall|k: Seq<char>| k != x.slug ==> find_slug(with_item(items, x), k) == find_slug(items, k),
{
    lemma_find_slug(items, x.slug);
    let r = with_item(items, x);
    lemma_find_slug(r, x.slug);
    assert forall|k: Seq<char>| k != x.slug implies find_slug(r, k) == find_slug(items, k) by {
        lemma_find_slug(items, k);
        lemma_find_slug(r, k);
        match find_slug(items, k) {
            Some(j) => {
                match find_slug(r, k) {
                    Some(j2) => {
                        assert(j2 == j);
                    },
                    None => {
                        assert(r[j].slug == k);
                    },
                }
            },
            None => {
                match find_slug(r, k) {
                    Some(j2) => {
                        assert(r[j2].slug == k);
                        assert(j2 < items.len());
                        assert(items[j2].slug == k);
                    },
                    None => {},
                }
            },
        }
    }
    match find_slug(r, x.slug) {
        Some(j2) => {
            match find_slug(items, x.slug) {
                Some(j) => {
                    assert(r[j].slug == x.slug);
                    assert(j2 == j);
                },
                None => {
                    assert(r[items.len() as int].slug == x.slug);
                },
            }
        },
        None => {
            match find_slug(items, x.slug) {
                Some(j) => {
                    assert(r[j].slug == x.slug);
                },
                None => {
                    assert(r[items.len() as int].slug == x.slug);
                },
            }
        },
    }
}

/// A keyed list never holds two items with one slug.
pub proof fn lemma_keyed_distinct(s: Seq<ItemView>)
    ensures
        distinct_slugs(keyed(s)),
    decreases s.len(),
{
    if s.len() > 0 {
        lemma_keyed_distinct(s.drop_last());
        lemma_with_item(keyed(s.drop_last()), s.last());
    }
}

/// The first item of `items` with slug `k`.
pub fn find_item(items: &Vec<MarketCachedItem>, k: &str) -> (r: Option<usize>)
    ensures
        match r {
            Some(j) => find_slug(item_views(items@), k@) == Some(j as int),
            None => find_slug(item_views(items@), k@) is None,
        },
{
    let ghost v = item_views(items@);
    let mut i: usize = 0;
    while i < items.len()
        invariant
            v == item_views(items@),
            i <= items@.len(),
            find_slug(v.take(i as int), k@) is None,
        decreases items@.len() - i,
    {
        assert(v.take(i + 1).drop_last() =~= v.take(i as int));
        if str_eq(items[i].slug.as_str(), k) {
            proof {
                lemma_find_slug(v.take(i + 1), k@);
                lemma_find_slug(v, k@);
                lemma_find_slug(v.take(i as int), k@);
                if let Some(j) = find_slug(v, k@) {
                    if j < i {
                        assert(v.take(i as int)[j] == v[j]);
                    }
                }
            }
            return Some(i);
        }
        i = i + 1;
    }
    proof {
        assert(v.take(i as int) =~= v);
    }
    None
}

/// Store `x` under its slug (`HashMap::insert` on the slug).
pub fn insert_item(items: &mut Vec<MarketCachedItem>, x: MarketCachedItem)
    ensures
        item_views(final(items)@) == with_item(item_views(old(items)@), x@),
{
    proof {
        lemma_find_slug(item_views(items@), x.slug@);
    }
    match find_item(items, x.slug.as_str()) {
        Some(j) => {
            let ghost xv = x@;
            items.set(j, x);
            assert(item_views(items@) =~= item_views(old(items)@).update(j as int, xv));
        },
        None => {
            let ghost xv = x@;
            items.push(x);
            assert(item_views(items@) =~= item_views(old(items)@).push(xv));
        },
    }
}

/// Key a list of items by slug (collecting into a map keyed by slug).
pub fn keyed_items(list: Vec<MarketCachedItem>) -> (r: Vec<MarketCachedItem>)
    ensures
        item_views(r@) == keyed(item_views(list@)),
{
    let ghost lv = item_views(list@);
    let mut r: Vec<MarketCachedItem> = Vec::new();
    let mut rest = list;
    let n = rest.len();
    assert(item_views(r@) =~= keyed(lv.take(0)));
    let mut i: usize = 0;
    while rest.len() > 0
        invariant
            lv.len() == n,
            i + rest@.len() == lv.len(),
            forall|j: int| 0 <= j < rest@.len() ==> #[trigger] rest@[j]@ == lv[i + j],
            item_views(r@) == keyed(lv.take(i as int)),
        decreases rest@.len(),
    {
        let x = rest.remove(0);
        assert(x@ == lv[i as int]);
        assert(lv.take(i + 1).drop_last() =~= lv.take(i as int));
        assert(lv.take(i + 1).last() == lv[i as int]);
        insert_item(&mut r, x);
        i = i + 1;
    }
    assert(lv.take(i as int) =~= lv);
    r
}


/// The id → slug pairs of the items that have an id, in order.
pub open spec fn id_pairs(items: Seq<ItemView>) -> Seq<(Seq<char>, Seq<char>)>
    decreases items.len(),
{
    if items.len() == 0 {
        Seq::empty()
    } else {
        let r = id_pairs(items.drop_last());
        if items.last().id.len() > 0 {
            r.push((items.last().id, items.last().slug))
        } else {
            r
        }
    }
}

/// The texts of a list of string pairs.
pub open spec fn pair_views(v: Seq<(String, String)>) -> Seq<(Seq<char>, Seq<char>)> {
    v.map_values(|p: (String, String)| (p.0@, p.1@))
}

/// The id → slug index of a catalogue.
pub fn build_id_map(items: &Vec<MarketCachedItem>) -> (r: Vec<(String, String)>)
    ensures
        pair_views(r@) == id_pairs(item_views(items@)),
{
    let ghost v = item_views(items@);
    let mut r: Vec<(String, String)> = Vec::new();
    let mut i: usize = 0;
    assert(pair_views(r@) =~= id_pairs(v.take(0)));
    while i < items.len()
        invariant
            v == item_views(items@),
            i <= items@.len(),
            pair_views(r@) == id_pairs(v.take(i as int)),
        decreases items@.len() - i,
    {
        assert(v.take(i + 1).drop_last() =~= v.take(i as int));
        let it = &items[i];
        if it.id.as_str().is_empty() == false {
            let ghost before = r@;
            r.push((it.id.clone(), it.slug.clone()));
            assert(pair_views(r@) =~= pair_views(before).push((it.id@, it.slug@)));
        }
        i = i + 1;
    }
    assert(v.take(i as int) =~= v);
    r
}

/// The slug the index gives for an id (its first entry).
pub open spec fn slug_of_id(pairs: Seq<(Seq<char>, Seq<char>)>, id: Seq<char>) -> Option<Seq<char>>
    decreases pairs.len(),
{
    if pairs.len() == 0 {
        None
    } else if pairs[0].0 == id {
        Some(pairs[0].1)
    } else {
        slug_of_id(pairs.drop_first(), id)
    }
}

/// Look an id up in the id → slug index.
pub fn lookup_id<'a>(pairs: &'a Vec<(String, String)>, id: &str) -> (r: Option<&'a String>)
    ensures
        match r {
            Some(s) => slug_of_id(pair_views(pairs@), id@) == Some(s@),
            None => slug_of_id(pair_views(pairs@), id@) is None,
        },
{
    let ghost pv = pair_views(pairs@);
    let mut i: usize = 0;
    assert(pv.skip(0) =~= pv);
    while i < pairs.len()
        invariant
            pv == pair_views(pairs@),
            i <= pairs@.len(),
            slug_of_id(pv, id@) == slug_of_id(pv.skip(i as int), id@),
        decreases pairs@.len() - i,
    {
        assert(pv.skip(i as int).drop_first() =~= pv.skip(i + 1));
        if str_eq(pairs[i].0.as_str(), id) {
            return Some(&pairs[i].1);
        }
        i = i + 1;
    }
    None
}

/// Downloaded detail of an item, kept for the session.
#[derive(Debug)]
pub struct CachedDetail {
    pub ducats: Option<u32>,
    pub trading_tax: Option<u32>,
    pub set_root: bool,
    /// Ids of the set's other parts.
    pub set_parts: Vec<String>,
}

/// An item's detail as plain values.
pub struct DetailView {
    pub ducats: Option<u32>,
    pub trading_tax: Option<u32>,
    pub set_root: bool,
    pub set_parts: Seq<Seq<char>>,
}

impl View for CachedDetail {
    type V = DetailView;

    open spec fn view(&self) -> DetailView {
        DetailView {
            ducats: self.ducats,
            trading_tax: self.trading_tax,
            set_root: self.set_root,
            set_parts: texts(self.set_parts@),
        }
    }
}

impl CachedDetail {
    /// A copy of this detail.
    pub fn copy(&self) -> (r: CachedDetail)
        ensures
            r@ == self@,
    {
        CachedDetail {
            ducats: self.ducats,
            trading_tax: self.trading_tax,
            set_root: self.set_root,
            set_parts: copy_texts(&self.set_parts),
        }
    }
}

/// The details cached so far, by slug.
pub open spec fn detail_views(v: Seq<(String, CachedDetail)>) -> Seq<(Seq<char>, DetailView)> {
    v.map_values(|p: (String, CachedDetail)| (p.0@, p.1@))
}

/// The cached detail of a slug (its first entry).
pub open spec fn detail_of(v: Seq<(Seq<char>, DetailView)>, slug: Seq<char>) -> Option<DetailView>
    decreases v.len(),
{
    if v.len() == 0 {
        None
    } else if v[0].0 == slug {
        Some(v[0].1)
    } else {
        detail_of(v.drop_first(), slug)
    }
}

/// The item catalogue with its indexes and the session's detail cache.
pub struct MarketCache {
    /// The items, keyed by slug.
    pub items: Vec<MarketCachedItem>,
    /// Object id → slug (for set-part lookups).
    pub id_to_slug: Vec<(String, String)>,
    /// Slug → downloaded detail, for this session.
    pub detail_cache: Vec<(String, CachedDetail)>,
    /// When the catalogue was last refreshed (ms), `None` for the embedded one.
    pub last_updated: Option<i64>,
}

impl MarketCache {
    /// The catalogue keys its items by slug.
    pub open spec fn wf(&self) -> bool {
        distinct_slugs(item_views(self.items@))
    }

    /// A cache over `list`, keyed by slug, with its id index and no details.
    pub fn from_items(list: Vec<MarketCachedItem>, last_updated: Option<i64>) -> (c: MarketCache)
        ensures
            c.wf(),
            item_views(c.items@) == keyed(item_views(list@)),
            pair_views(c.id_to_slug@) == id_pairs(keyed(item_views(list@))),
            c.detail_cache@.len() == 0,
            c.last_updated == last_updated,
    {
        let items = keyed_items(list);
        proof {
            lemma_keyed_distinct(item_views(list@));
        }
        let id_to_slug = build_id_map(&items);
        MarketCache { items, id_to_slug, detail_cache: Vec::new(), last_updated }
    }

    /// The cache at start-up: the items read from disk (with the file's
    /// modification time) when there are any, else the embedded catalogue.
    pub fn build_cache(disk: Option<Vec<MarketCachedItem>>, modified_ms: Option<i64>) -> (c: MarketCache)
        ensures
            c.wf(),
            c.items@.len() > 0,
            c.detail_cache@.len() == 0,
            match disk {
                Some(list) => if list@.len() > 0 {
                    item_views(c.items@) == keyed(item_views(list@)) && c.last_updated
                        == modified_ms
                } else {
                    item_views(c.items@) == keyed(EMBEDDED@.map_values(|row| embedded_row(row)))
                        && c.last_updated is None
                },
                None => item_views(c.items@) == keyed(EMBEDDED@.map_values(|row| embedded_row(row)))
                    && c.last_updated is None,
            },
    {
        match disk {
            Some(list) => {
                if list.len() > 0 {
                    proof {
                        lemma_keyed_nonempty(item_views(list@));
                    }
                    return MarketCache::from_items(list, modified_ms);
                }
            },
            None => {},
        }
        let emb = embedded_items();
        assert(item_views(emb@) =~= EMBEDDED@.map_values(|row| embedded_row(row)));
        proof {
            lemma_keyed_nonempty(item_views(emb@));
        }
        MarketCache::from_items(emb, None)
    }

    /// Replace the catalogue with a freshly downloaded one at time `now`.
    pub fn replace_items(&mut self, list: Vec<MarketCachedItem>, now: i64)
        ensures
            final(self).wf(),
            item_views(final(self).items@) == keyed(item_views(list@)),
            pair_views(final(self).id_to_slug@) == id_pairs(keyed(item_views(list@))),
            detail_views(final(self).detail_cache@) == detail_views(old(self).detail_cache@),
            final(self).last_updated == Some(now),
    {
        let items = keyed_items(list);
        proof {
            lemma_keyed_distinct(item_views(list@));
        }
        self.id_to_slug = build_id_map(&items);
        self.items = items;
        self.last_updated = Some(now);
    }

    /// The cached detail of `slug`, if any.
    pub fn cached_detail(&self, slug: &str) -> (r: Option<CachedDetail>)
        ensures
            match r {
                Some(d) => detail_of(detail_views(self.detail_cache@), slug@) == Some(d@),
                None => detail_of(detail_views(self.detail_cache@), slug@) is None,
            },
    {
        let ghost dv = detail_views(self.detail_cache@);
        let mut i: usize = 0;
        assert(dv.skip(0) =~= dv);
        while i < self.detail_cache.len()
            invariant
                dv == detail_views(self.detail_cache@),
                i <= self.detail_cache@.len(),
                detail_of(dv, slug@) == detail_of(dv.skip(i as int), slug@),
            decreases self.detail_cache@.len() - i,
        {
            assert(dv.skip(i as int).drop_first() =~= dv.skip(i + 1));
            if str_eq(self.detail_cache[i].0.as_str(), slug) {
                return Some(self.detail_cache[i].1.copy());
            }
            i = i + 1;
        }
        None
    }

    /// Remember the detail of `slug` for the session (replacing an earlier
    /// one).
    pub fn remember_detail(&mut self, slug: &str, d: CachedDetail)
        ensures
            detail_of(detail_views(final(self).detail_cache@), slug@) == Some(d@),
            forall|k: Seq<char>| k != slug@ ==> detail_of(detail_views(final(self).detail_cache@), k)
                == detail_of(detail_views(old(self).detail_cache@), k),
            item_views(final(self).items@) == item_views(old(self).items@),
            pair_views(final(self).id_to_slug@) == pair_views(old(self).id_to_slug@),
            final(self).last_updated == old(self).last_updated,
            old(self).wf() ==> final(self).wf(),
    {
        let ghost dv = detail_views(self.detail_cache@);
        let ghost d_view = d@;
        // Drop an earlier entry for the slug, then add the new one in front.
        let mut kept: Vec<(String, CachedDetail)> = Vec::new();
        kept.push((owned(slug), d));
        let mut old_cache: Vec<(String, CachedDetail)> = Vec::new();
        std::mem::swap(&mut old_cache, &mut self.detail_cache);
        let ghost ov = detail_views(old_cache@);
        assert(ov == dv);
        let n = old_cache.len();
        let mut i: usize = 0;
        proof {
            assert(detail_views(kept@).drop_first() =~= Seq::<(Seq<char>, DetailView)>::empty());
            assert(ov.take(0) =~= Seq::<(Seq<char>, DetailView)>::empty());
        }
        while old_cache.len() > 0
            invariant
                ov.len() == n,
                i + old_cache@.len() == n,
                forall|j: int| 0 <= j < old_cache@.len() ==> (#[trigger] old_cache@[j].0@, old_cache@[j].1@) == ov[i + j],
                kept@.len() >= 1,
                kept@[0].0@ == slug@,
                kept@[0].1@ == d_view,
                forall|k: Seq<char>| k != slug@ ==> detail_of(detail_views(kept@), k) == detail_of(ov.take(i as int), k),
            decreases old_cache@.len(),
        {
            let e = old_cache.remove(0);
            assert((e.0@, e.1@) == ov[i as int]);
            proof {
                lemma_detail_of_push(ov.take(i as int), (e.0@, e.1@));
                assert(ov.take(i + 1) =~= ov.take(i as int).push((e.0@, e.1@)));
            }
            if !str_eq(e.0.as_str(), slug) {
                let ghost before = detail_views(kept@);
                kept.push(e);
                proof {
                    lemma_detail_of_push(before, detail_views(kept@).last());
                    assert(detail_views(kept@) =~= before.push(detail_views(kept@).last()));
                }
            }
            i = i + 1;
        }
        proof {
            assert(ov.take(i as int) =~= ov);
        }
        self.detail_cache = kept;
    }
}

/// Looking up after appending an entry finds the earlier entry, if there is
/// one, else the appended one.
pub proof fn lemma_detail_of_push(v: Seq<(Seq<char>, DetailView)>, e: (Seq<char>, DetailView))
    ensures
        forall|k: Seq<char>| #[trigger] detail_of(v.push(e), k) == match detail_of(v, k) {
            Some(d) => Some(d),
            None => if e.0 == k {
                Some(e.1)
            } else {
                None
            },
        },
    decreases v.len(),
{
    if v.len() > 0 {
        lemma_detail_of_push(v.drop_first(), e);
        assert(v.push(e).drop_first() =~= v.drop_first().push(e));
        assert forall|k: Seq<char>| #[trigger] detail_of(v.push(e), k) == match detail_of(v, k) {
            Some(d) => Some(d),
            None => if e.0 == k {
                Some(e.1)
            } else {
                None
            },
        } by {
            assert(v.push(e)[0] == v[0]);
            let a = detail_of(v.drop_first().push(e), k);
            assert(detail_of(v.push(e).drop_first(), k) == a);
        }
    } else {
        assert(v.push(e).drop_first() =~= v);
    }
}


// ── Searching ───────────────────────────────────────────────────────────────

/// The views of a list of search results.
pub open spec fn summary_views(s: Seq<MarketItemSummary>) -> Seq<SummaryView> {
    s.map_values(|x: MarketItemSummary| x@)
}

/// An item matches the (lower-cased, trimmed) query `q`: its slug or English
/// name in lower case contains it, or, when searching in Chinese, its
/// Chinese name does.
pub open spec fn search_hit(i: ItemView, q: Seq<char>, zh: bool) -> bool {
    contains(lowercase(i.slug), q) || contains(lowercase(i.name), q) || (zh && i.name_zh.len() > 0
        && contains(i.name_zh, q))
}

/// The items that match, in catalogue order.
pub open spec fn search_hits(items: Seq<ItemView>, q: Seq<char>, zh: bool) -> Seq<ItemView>
    decreases items.len(),
{
    if items.len() == 0 {
        Seq::empty()
    } else {
        let r = search_hits(items.drop_last(), q, zh);
        if search_hit(items.last(), q, zh) {
            r.push(items.last())
        } else {
            r
        }
    }
}

/// The first `n` elements of `s`, or all of them when there are fewer.
pub open spec fn first_n<A>(s: Seq<A>, n: int) -> Seq<A> {
    if s.len() <= n {
        s
    } else {
        s.take(n)
    }
}

/// At most this many search results are shown.
pub const SEARCH_LIMIT: usize = 50;

/// The search results for `query` in language `lang`: nothing for a blank
/// query, else the first fifty matching items.
pub open spec fn search_result(items: Seq<ItemView>, query: Seq<char>, lang: Seq<char>) -> Seq<
    SummaryView,
> {
    let q = trim(lowercase(query));
    if q.len() == 0 {
        Seq::empty()
    } else {
        first_n(search_hits(items, q, lang == "zh"@), SEARCH_LIMIT as int).map_values(
            |i: ItemView| summary(i),
        )
    }
}

proof fn lemma_hits_len(items: Seq<ItemView>, q: Seq<char>, zh: bool)
    ensures
        search_hits(items, q, zh).len() <= items.len(),
    decreases items.len(),
{
    if items.len() > 0 {
        lemma_hits_len(items.drop_last(), q, zh);
    }
}

proof fn lemma_hits_prefix(items: Seq<ItemView>, q: Seq<char>, zh: bool, n: int)
    requires
        0 <= n <= items.len(),
    ensures
        search_hits(items.take(n), q, zh).len() <= search_hits(items, q, zh).len(),
        forall|p: int|
            0 <= p < search_hits(items.take(n), q, zh).len() ==> #[trigger] search_hits(items, q, zh)[p]
                == search_hits(items.take(n), q, zh)[p],
    decreases items.len(),
{
    if n == items.len() {
        assert(items.take(n) =~= items);
    } else {
        let d = items.drop_last();
        assert(d.take(n) =~= items.take(n));
        lemma_hits_prefix(d, q, zh, n);
    }
}

/// Searching finds by slug and by English name, and in Chinese also by
/// Chinese name: a catalogue item whose slug or English name, in lower
/// case, contains the trimmed lower-cased query (or, searching in Chinese,
/// whose Chinese name contains it) is among the results, as long as fewer than `SEARCH_LIMIT` items
/// before it match (in particular when it is one of the first
/// `SEARCH_LIMIT` items).
pub proof fn lemma_search_finds_item(items: Seq<ItemView>, query: Seq<char>, lang: Seq<char>, k: int)
    requires
        0 <= k < items.len(),
        trim(lowercase(query)).len() > 0,
        contains(lowercase(items[k].slug), trim(lowercase(query))) || contains(
            lowercase(items[k].name),
            trim(lowercase(query)),
        ) || (lang == "zh"@ && contains(items[k].name_zh, trim(lowercase(query)))),
        k < SEARCH_LIMIT || search_hits(items.take(k), trim(lowercase(query)), lang == "zh"@).len()
            < SEARCH_LIMIT,
    ensures
        search_result(items, query, lang).contains(summary(items[k])),
{
    let q = trim(lowercase(query));
    let zh = lang == "zh"@;
    lemma_hits_len(items.take(k), q, zh);
    let before = search_hits(items.take(k), q, zh);
    let upto = search_hits(items.take(k + 1), q, zh);
    assert(items.take(k + 1).drop_last() =~= items.take(k));
    assert(items.take(k + 1).last() == items[k]);
    assert(upto == before.push(items[k]));
    lemma_hits_prefix(items, q, zh, k + 1);
    let all = search_hits(items, q, zh);
    let p = before.len() as int;
    assert(all[p] == items[k]);
    let shown = first_n(all, SEARCH_LIMIT as int);
    assert(shown[p] == items[k]);
    let res = shown.map_values(|i: ItemView| summary(i));
    assert(res[p] == summary(items[k]));
    assert(search_result(items, query, lang) == res);
}

fn is_hit(i: &MarketCachedItem, q: &str, zh: bool) -> (r: bool)
    ensures
        r == search_hit(i@, q@, zh),
{
    let slug = to_lower(i.slug.as_str());
    if str_contains(slug.as_str(), q) {
        return true;
    }
    let name = to_lower(i.name.as_str());
    if str_contains(name.as_str(), q) {
        return true;
    }
    zh && !i.name_zh.as_str().is_empty() && str_contains(i.name_zh.as_str(), q)
}

impl MarketCache {
    /// Search the catalogue by slug or name.
    pub fn search_local(&self, query: &str, lang: &str) -> (r: Vec<MarketItemSummary>)
        ensures
            summary_views(r@) == search_result(item_views(self.items@), query@, lang@),
    {
        let lowered = to_lower(query);
        let q = trim_str(lowered.as_str());
        let ghost iv = item_views(self.items@);
        let mut out: Vec<MarketItemSummary> = Vec::new();
        if q.as_str().is_empty() {
            assert(summary_views(out@) =~= Seq::<SummaryView>::empty());
            return out;
        }
        let zh = str_eq(lang, "zh");
        let mut i: usize = 0;
        assert(iv.take(0) =~= Seq::<ItemView>::empty());
        assert(summary_views(out@) =~= first_n(search_hits(iv.take(0), q@, zh), SEARCH_LIMIT as int).map_values(|x: ItemView| summary(x)));
        while i < self.items.len()
            invariant
                iv == item_views(self.items@),
                i <= self.items@.len(),
                zh == (lang@ == "zh"@),
                out@.len() <= SEARCH_LIMIT,
                out@.len() == SEARCH_LIMIT || out@.len() == search_hits(iv.take(i as int), q@, zh).len(),
                summary_views(out@) == first_n(search_hits(iv.take(i as int), q@, zh), SEARCH_LIMIT as int).map_values(|x: ItemView| summary(x)),
            decreases self.items@.len() - i,
        {
            let ghost before = search_hits(iv.take(i as int), q@, zh);
            assert(iv.take(i + 1).drop_last() =~= iv.take(i as int));
            let hit = is_hit(&self.items[i], q.as_str(), zh);
            if hit && out.len() < SEARCH_LIMIT {
                let ghost old_out = summary_views(out@);
                out.push(summary_of(&self.items[i]));
                proof {
                    let after = search_hits(iv.take(i + 1), q@, zh);
                    assert(after == before.push(iv[i as int]));
                    assert(summary_views(out@) =~= old_out.push(summary(iv[i as int])));
                    assert(first_n(after, SEARCH_LIMIT as int).map_values(|x: ItemView| summary(x))
                        =~= first_n(before, SEARCH_LIMIT as int).map_values(|x: ItemView| summary(x)).push(
                        summary(iv[i as int]),
                    ));
                }
            } else {
                proof {
                    let after = search_hits(iv.take(i + 1), q@, zh);
                    if hit {
                        assert(after == before.push(iv[i as int]));
                        assert(summary_views(out@).len() == out@.len());
                        assert(before.len() >= SEARCH_LIMIT);
                        assert(first_n(after, SEARCH_LIMIT as int) =~= first_n(before, SEARCH_LIMIT as int));
                    } else {
                        assert(after == before);
                    }
                }
            }
            i = i + 1;
        }
        assert(iv.take(i as int) =~= iv);
        proof {
            assert forall|k: int|
                0 <= k < self.items@.len() && k < SEARCH_LIMIT && trim(lowercase(query@)).len() > 0 && (contains(
                    lowercase(#[trigger] self.items@[k]@.slug),
                    trim(lowercase(query@)),
                ) || contains(lowercase(self.items@[k]@.name), trim(lowercase(query@)))) implies summary_views(
                    out@,
                ).contains(summary(self.items@[k]@)) by {
                assert(iv[k] == self.items@[k]@);
                lemma_search_finds_item(iv, query@, lang@, k);
            }
        }
        out
    }
}

// ── Cache status ────────────────────────────────────────────────────────────

/// How long ago the catalogue was refreshed, for a difference of `d` ms:
/// `刚刚` under a minute, then whole minutes, hours or days.
pub open spec fn age_text(d: int) -> Seq<char> {
    if d < 60_000 {
        "刚刚"@
    } else {
        let secs = d / 1000;
        if secs < 3600 {
            decimal((secs / 60) as nat) + " 分钟前"@
        } else if secs < 86400 {
            decimal((secs / 3600) as nat) + " 小时前"@
        } else {
            decimal((secs / 86400) as nat) + " 天前"@
        }
    }
}

/// The refresh label: `--` when never refreshed.
pub open spec fn refreshed_label(last: Option<i64>, now: i64) -> Seq<char> {
    match last {
        None => "--"@,
        Some(ts) => age_text(now.wrapping_sub(ts) as int),
    }
}

impl MarketCache {
    /// The number of items and how long ago they were refreshed, at `now`.
    pub fn cache_status(&self, now: i64) -> (r: MarketCacheStatus)
        ensures
            r.count == self.items@.len(),
            r.last_updated@ == refreshed_label(self.last_updated, now),
    {
        let label = match self.last_updated {
            None => owned("--"),
            Some(ts) => {
                let d = now.wrapping_sub(ts);
                if d < 60_000 {
                    owned("刚刚")
                } else {
                    let secs = (d / 1000) as u64;
                    let mut t = String::new();
                    if secs < 3600 {
                        push_decimal(&mut t, secs / 60);
                        push_str(&mut t, " 分钟前");
                    } else if secs < 86400 {
                        push_decimal(&mut t, secs / 3600);
                        push_str(&mut t, " 小时前");
                    } else {
                        push_decimal(&mut t, secs / 86400);
                        push_str(&mut t, " 天前");
                    }
                    t
                }
            },
        };
        MarketCacheStatus { count: self.items.len(), last_updated: label }
    }
}

// ── Reading the market API ──────────────────────────────────────────────────

/// A text member, or a default.
pub open spec fn text_or(v: Json, default: Seq<char>) -> Seq<char> {
    match str_of(v) {
        Some(s) => s,
        None => default,
    }
}

fn text_or_exec(v: Option<&Json>, default: &str) -> (r: String)
    ensures
        r@ == text_or(or_null(v), default@),
{
    match as_str(v) {
        Some(s) => owned(s),
        None => owned(default),
    }
}

/// An order of the item's order book, with the API's gaps filled in: type
/// `?`, price 0, quantity 1, player `?`, reputation 0, status `offline`
/// (numbers cut to the field's width).
pub open spec fn order_of(o: Json) -> OrderView {
    OrderView {
        order_type: text_or(index(o, "type"@), "?"@),
        platinum: (match u64_of(index(o, "platinum"@)) { Some(v) => v, None => 0 }) as u32,
        quantity: (match u64_of(index(o, "quantity"@)) { Some(v) => v, None => 1 }) as u32,
        player_name: text_or(index2(o, "user"@, "ingameName"@), "?"@),
        reputation: (match i64_of(index2(o, "user"@, "reputation"@)) { Some(v) => v, None => 0 }) as i32,
        status: text_or(index2(o, "user"@, "status"@), "offline"@),
        mod_rank: match u64_of(index(o, "rank"@)) {
            Some(v) => Some(v as u8),
            None => None,
        },
    }
}

/// Read one order.
pub fn parse_market_order(o: &Json) -> (r: MarketOrder)
    ensures
        r@ == order_of(*o),
{
    let p = Some(o);
    let platinum = match as_u64(at(p, "platinum")) {
        Some(v) => v,
        None => 0,
    };
    let quantity = match as_u64(at(p, "quantity")) {
        Some(v) => v,
        None => 1,
    };
    let reputation = match as_i64(at2(p, "user", "reputation")) {
        Some(v) => v,
        None => 0,
    };
    let mod_rank = match as_u64(at(p, "rank")) {
        Some(v) => Some(v as u8),
        None => None,
    };
    MarketOrder {
        order_type: text_or_exec(at(p, "type"), "?"),
        platinum: platinum as u32,
        quantity: quantity as u32,
        player_name: text_or_exec(at2(p, "user", "ingameName"), "?"),
        reputation: reputation as i32,
        status: text_or_exec(at2(p, "user", "status"), "offline"),
        mod_rank,
    }
}

/// The orders of one type, in reply order.
pub open spec fn orders_of_type(data: Seq<Json>, t: Seq<char>) -> Seq<OrderView>
    decreases data.len(),
{
    if data.len() == 0 {
        Seq::empty()
    } else {
        let r = orders_of_type(data.drop_last(), t);
        if order_of(data.last()).order_type == t {
            r.push(order_of(data.last()))
        } else {
            r
        }
    }
}

/// Orders keyed by price (cheapest first), or by how far the price is
/// below the largest one (dearest first).
pub open spec fn price_keyed(s: Seq<OrderView>, dearest_first: bool) -> Seq<(u128, OrderView)> {
    s.map_values(
        |o: OrderView|
            (if dearest_first {
                (u32::MAX - o.platinum) as u128
            } else {
                o.platinum as u128
            }, o),
    )
}

/// The orders of one type sorted by price, equal prices in reply order.
pub open spec fn order_book_side(data: Seq<Json>, t: Seq<char>, dearest_first: bool) -> Seq<OrderView> {
    sorted_by_key(price_keyed(orders_of_type(data, t), dearest_first)).map_values(
        |p: (u128, OrderView)| p.1,
    )
}

/// The views of a list of orders.
pub open spec fn order_views(s: Seq<MarketOrder>) -> Seq<OrderView> {
    s.map_values(|o: MarketOrder| o@)
}

/// The order views of keyed orders.
pub open spec fn keyed_order_views(s: Seq<(u128, MarketOrder)>) -> Seq<(u128, OrderView)> {
    s.map_values(|p: (u128, MarketOrder)| (p.0, p.1@))
}

/// The orders of a keyed list, without their keys.
fn drop_keys(v: Vec<(u128, MarketOrder)>) -> (r: Vec<MarketOrder>)
    ensures
        order_views(r@) == keyed_order_views(v@).map_values(|p: (u128, OrderView)| p.1),
{
    let ghost s = keyed_order_views(v@);
    let mut r: Vec<MarketOrder> = Vec::new();
    let mut rest = v;
    let n = rest.len();
    let mut i: usize = 0;
    while rest.len() > 0
        invariant
            s.len() == n,
            i + rest@.len() == n,
            forall|j: int| 0 <= j < rest@.len() ==> (#[trigger] rest@[j].0, rest@[j].1@) == s[i + j],
            order_views(r@) == s.take(i as int).map_values(|p: (u128, OrderView)| p.1),
        decreases rest@.len(),
    {
        let ghost first = (rest@[0].0, rest@[0].1@);
        assert(first == s[i as int]);
        let e = rest.remove(0);
        let ghost before = order_views(r@);
        r.push(e.1);
        assert(order_views(r@) =~= before.push(first.1));
        assert(s.take(i + 1).map_values(|p: (u128, OrderView)| p.1) =~= s.take(i as int).map_values(|p: (u128, OrderView)| p.1).push(first.1));
        i = i + 1;
    }
    assert(s.take(i as int) =~= s);
    r
}

/// A keyed list sorted, in order views: the sort commutes with taking views.
proof fn lemma_sorted_views(s: Seq<(u128, MarketOrder)>)
    ensures
        keyed_order_views(sorted_by_key(s)) == sorted_by_key(keyed_order_views(s)),
    decreases s.len(),
{
    if s.len() > 0 {
        lemma_sorted_views(s.drop_last());
        let r = sorted_by_key(s.drop_last());
        let rv = sorted_by_key(keyed_order_views(s.drop_last()));
        assert(keyed_order_views(s).drop_last() =~= keyed_order_views(s.drop_last()));
        lemma_ins_pos_views(r, s.last().0);
        crate::sorting::lemma_ins_pos_bounds(r, s.last().0);
        assert(keyed_order_views(r.insert(crate::sorting::ins_pos(r, s.last().0), s.last()))
            =~= rv.insert(crate::sorting::ins_pos(rv, s.last().0), (s.last().0, s.last().1@)));
    }
}

proof fn lemma_ins_pos_views(s: Seq<(u128, MarketOrder)>, k: u128)
    ensures
        crate::sorting::ins_pos(s, k) == crate::sorting::ins_pos(keyed_order_views(s), k),
    decreases s.len(),
{
    if s.len() > 0 {
        assert(keyed_order_views(s).drop_last() =~= keyed_order_views(s.drop_last()));
        lemma_ins_pos_views(s.drop_last(), k);
    }
}

/// The sell orders (cheapest first) and buy orders (dearest first) of an
/// item's order-book reply; an error when the reply has no `data` array.
pub fn parse_order_book(body: &Json) -> (r: Result<(Vec<MarketOrder>, Vec<MarketOrder>), String>)
    ensures
        match array_of(index(*body, "data"@)) {
            Some(data) => r matches Ok((sell, buy)) && order_views(sell@) == order_book_side(
                data,
                "sell"@,
                false,
            ) && order_views(buy@) == order_book_side(data, "buy"@, true),
            None => r matches Err(e) && e@ == "API 响应格式异常"@,
        },
{
    let data = match as_array(at(Some(body), "data")) {
        Some(d) => d,
        None => {
            return Err(owned("API 响应格式异常"));
        },
    };
    let ghost dv = data@;
    let mut sell: Vec<(u128, MarketOrder)> = Vec::new();
    let mut buy: Vec<(u128, MarketOrder)> = Vec::new();
    let mut i: usize = 0;
    proof {
        assert(dv.take(0) =~= Seq::<Json>::empty());
        assert(keyed_order_views(sell@) =~= price_keyed(orders_of_type(dv.take(0), "sell"@), false));
        assert(keyed_order_views(buy@) =~= price_keyed(orders_of_type(dv.take(0), "buy"@), true));
    }
    while i < data.len()
        invariant
            dv == data@,
            i <= dv.len(),
            keyed_order_views(sell@) == price_keyed(orders_of_type(dv.take(i as int), "sell"@), false),
            keyed_order_views(buy@) == price_keyed(orders_of_type(dv.take(i as int), "buy"@), true),
        decreases dv.len() - i,
    {
        assert(dv.take(i + 1).drop_last() =~= dv.take(i as int));
        let o = parse_market_order(&data[i]);
        let is_sell = str_eq(o.order_type.as_str(), "sell");
        let is_buy = str_eq(o.order_type.as_str(), "buy");
        proof {
            reveal_strlit("sell");
            reveal_strlit("buy");
        }
        assert(dv.take(i + 1).last() == dv[i as int]);
        let ghost ov = o@;
        let ghost sell_before = keyed_order_views(sell@);
        let ghost buy_before = keyed_order_views(buy@);
        if is_sell {
            let k = o.platinum as u128;
            sell.push((k, o));
            assert(keyed_order_views(sell@) =~= sell_before.push((k, ov)));
            assert(keyed_order_views(buy@) =~= buy_before);
            assert("sell"@.len() != "buy"@.len());
            assert(orders_of_type(dv.take(i + 1), "buy"@) == orders_of_type(dv.take(i as int), "buy"@));
            assert(keyed_order_views(sell@) =~= price_keyed(orders_of_type(dv.take(i + 1), "sell"@), false));
            assert(keyed_order_views(buy@) =~= price_keyed(orders_of_type(dv.take(i + 1), "buy"@), true));
        } else if is_buy {
            let k = (4294967295u32 - o.platinum) as u128;
            buy.push((k, o));
            assert(keyed_order_views(buy@) =~= buy_before.push((k, ov)));
            assert(orders_of_type(dv.take(i + 1), "buy"@) == orders_of_type(dv.take(i as int), "buy"@).push(ov));
            assert(k == (u32::MAX - ov.platinum) as u128);
            assert(price_keyed(orders_of_type(dv.take(i + 1), "buy"@), true) =~= price_keyed(orders_of_type(dv.take(i as int), "buy"@), true).push((k, ov)));
            assert(keyed_order_views(sell@) =~= sell_before);
            assert(keyed_order_views(sell@) =~= price_keyed(orders_of_type(dv.take(i + 1), "sell"@), false));
            assert(keyed_order_views(buy@) =~= price_keyed(orders_of_type(dv.take(i + 1), "buy"@), true));
        } else {
            assert(keyed_order_views(sell@) =~= price_keyed(orders_of_type(dv.take(i + 1), "sell"@), false));
            assert(keyed_order_views(buy@) =~= price_keyed(orders_of_type(dv.take(i + 1), "buy"@), true));
        }
        i = i + 1;
    }
    assert(dv.take(i as int) =~= dv);
    let ghost sell_keyed = sell@;
    let ghost buy_keyed = buy@;
    let sell_sorted = sort_by_key(sell);
    let buy_sorted = sort_by_key(buy);
    proof {
        lemma_sorted_views(sell_keyed);
        lemma_sorted_views(buy_keyed);
    }
    Ok((drop_keys(sell_sorted), drop_keys(buy_sorted)))
}


/// The first text among two values, else a default.
pub open spec fn text_or2(a: Json, b: Json, default: Seq<char>) -> Seq<char> {
    match str_of(a) {
        Some(s) => s,
        None => text_or(b, default),
    }
}

fn text_or2_exec(a: Option<&Json>, b: Option<&Json>, default: &str) -> (r: String)
    ensures
        r@ == text_or2(or_null(a), or_null(b), default@),
{
    match as_str(a) {
        Some(s) => owned(s),
        None => text_or_exec(b, default),
    }
}

/// A small number cut to a byte (`as_u64().map(|v| v as u8)`).
pub open spec fn byte_of(v: Json) -> Option<u8> {
    match u64_of(v) {
        Some(n) => Some(n as u8),
        None => None,
    }
}

/// A catalogue item from an entry of the item-list reply: names and icon in
/// English with the Chinese ones as fallback (and the other way round for
/// the Chinese name), the slug as last resort for names.
pub open spec fn listed_item(v: Json) -> ItemView {
    let slug = text_or(index(v, "slug"@), Seq::empty());
    ItemView {
        id: text_or(index(v, "id"@), Seq::empty()),
        slug,
        name: text_or2(index3(v, "i18n"@, "en"@, "name"@), index3(v, "i18n"@, "zh-hans"@, "name"@), slug),
        name_zh: text_or2(index3(v, "i18n"@, "zh-hans"@, "name"@), index3(v, "i18n"@, "en"@, "name"@), slug),
        icon: text_or2(index3(v, "i18n"@, "en"@, "icon"@), index3(v, "i18n"@, "zh-hans"@, "icon"@), Seq::empty()),
        mr: byte_of(index(v, "reqMasteryRank"@)),
        max_rank: byte_of(index(v, "maxRank"@)),
        tags: string_list(index(v, "tags"@)),
        bulk_tradable: match bool_of(index(v, "bulkTradable"@)) {
            Some(b) => b,
            None => false,
        },
    }
}

fn byte_of_exec(v: Option<&Json>) -> (r: Option<u8>)
    ensures
        r == byte_of(or_null(v)),
{
    match as_u64(v) {
        Some(n) => Some(n as u8),
        None => None,
    }
}

/// Read one entry of the item-list reply.
pub fn parse_listed_item(v: &Json) -> (r: MarketCachedItem)
    ensures
        r@ == listed_item(*v),
{
    let p = Some(v);
    proof {
        reveal_strlit("");
    }
    let slug = text_or_exec(at(p, "slug"), "");
    let en_name = at3(p, "i18n", "en", "name");
    let zh_name = at3(p, "i18n", "zh-hans", "name");
    let name = match as_str(en_name) {
        Some(t) => owned(t),
        None => match as_str(zh_name) {
            Some(t) => owned(t),
            None => slug.clone(),
        },
    };
    let name_zh = match as_str(zh_name) {
        Some(t) => owned(t),
        None => match as_str(en_name) {
            Some(t) => owned(t),
            None => slug.clone(),
        },
    };
    let bulk = match as_bool(at(p, "bulkTradable")) {
        Some(b) => b,
        None => false,
    };
    let r = MarketCachedItem {
        id: text_or_exec(at(p, "id"), ""),
        slug,
        name,
        name_zh,
        icon: text_or2_exec(at3(p, "i18n", "en", "icon"), at3(p, "i18n", "zh-hans", "icon"), ""),
        mr: byte_of_exec(at(p, "reqMasteryRank")),
        max_rank: byte_of_exec(at(p, "maxRank")),
        tags: string_list_exec(at(p, "tags")),
        bulk_tradable: bulk,
    };
    let ghost l = listed_item(*v);
    assert(r.id@ == l.id);
    assert(r.slug@ == l.slug);
    assert(r.name@ == l.name);
    assert(r.name_zh@ == l.name_zh);
    assert(r.icon@ == l.icon);
    assert(r.mr == l.mr);
    assert(r.max_rank == l.max_rank);
    assert(texts(r.tags@) == l.tags);
    assert(r.bulk_tradable == l.bulk_tradable);
    r
}

/// The items of the item-list reply, in reply order; an error when the
/// reply has no `data` array.
pub fn parse_item_list(body: &Json) -> (r: Result<Vec<MarketCachedItem>, String>)
    ensures
        match array_of(index(*body, "data"@)) {
            Some(data) => r matches Ok(items) && item_views(items@) == data.map_values(
                |v: Json| listed_item(v),
            ),
            None => r matches Err(e) && e@ == "API 响应格式异常"@,
        },
{
    let data = match as_array(at(Some(body), "data")) {
        Some(d) => d,
        None => {
            return Err(owned("API 响应格式异常"));
        },
    };
    let mut items: Vec<MarketCachedItem> = Vec::new();
    let mut i: usize = 0;
    while i < data.len()
        invariant
            i <= data@.len(),
            items@.len() == i,
            forall|j: int| 0 <= j < i ==> #[trigger] items@[j]@ == listed_item(data@[j]),
        decreases data@.len() - i,
    {
        items.push(parse_listed_item(&data[i]));
        i = i + 1;
    }
    assert(item_views(items@) =~= data@.map_values(|v: Json| listed_item(v)));
    Ok(items)
}

/// The texts of `s` other than `x`, in order.
pub open spec fn without(s: Seq<Seq<char>>, x: Seq<char>) -> Seq<Seq<char>>
    decreases s.len(),
{
    if s.len() == 0 {
        Seq::empty()
    } else {
        let r = without(s.drop_last(), x);
        if s.last() == x {
            r
        } else {
            r.push(s.last())
        }
    }
}

/// An item's detail from its detail reply's `data`: ducats and trading tax
/// (cut to 32 bits), whether it is a set, and the set's other parts.
pub open spec fn detail_from(data: Json) -> DetailView {
    DetailView {
        ducats: match u64_of(index(data, "ducats"@)) {
            Some(v) => Some(v as u32),
            None => None,
        },
        trading_tax: match u64_of(index(data, "tradingTax"@)) {
            Some(v) => Some(v as u32),
            None => None,
        },
        set_root: match bool_of(index(data, "setRoot"@)) {
            Some(b) => b,
            None => false,
        },
        set_parts: without(string_list(index(data, "setParts"@)), text_or(index(data, "id"@), Seq::empty())),
    }
}

/// Read an item's detail reply; an error when it has no `data` member.
pub fn parse_item_detail(body: &Json) -> (r: Result<CachedDetail, String>)
    ensures
        match member(*body, "data"@) {
            Some(data) => r matches Ok(d) && d@ == detail_from(data),
            None => r matches Err(e) && e@ == "API 响应缺少 data 字段"@,
        },
{
    let data = match get_member(body, "data") {
        Some(d) => d,
        None => {
            return Err(owned("API 响应缺少 data 字段"));
        },
    };
    let p = Some(data);
    let ducats = match as_u64(at(p, "ducats")) {
        Some(v) => Some(v as u32),
        None => None,
    };
    let trading_tax = match as_u64(at(p, "tradingTax")) {
        Some(v) => Some(v as u32),
        None => None,
    };
    let set_root = match as_bool(at(p, "setRoot")) {
        Some(b) => b,
        None => false,
    };
    proof {
        reveal_strlit("");
    }
    let self_id = text_or_exec(at(p, "id"), "");
    let all = string_list_exec(at(p, "setParts"));
    let ghost av = texts(all@);
    let mut parts: Vec<String> = Vec::new();
    let mut i: usize = 0;
    assert(texts(parts@) =~= without(av.take(0), self_id@));
    while i < all.len()
        invariant
            av == texts(all@),
            i <= all@.len(),
            texts(parts@) == without(av.take(i as int), self_id@),
        decreases all@.len() - i,
    {
        assert(av.take(i + 1).drop_last() =~= av.take(i as int));
        assert(av[i as int] == all@[i as int]@);
        if !str_eq(all[i].as_str(), self_id.as_str()) {
            let ghost before = texts(parts@);
            parts.push(all[i].clone());
            assert(texts(parts@) =~= before.push(all@[i as int]@));
        }
        i = i + 1;
    }
    assert(av.take(i as int) =~= av);
    let d = CachedDetail { ducats, trading_tax, set_root, set_parts: parts };
    let ghost dv = detail_from(*data);
    assert(d.ducats == dv.ducats);
    assert(d.trading_tax == dv.trading_tax);
    assert(d.set_root == dv.set_root);
    assert(av == string_list(index(*data, "setParts"@)));
    assert(self_id@ == text_or(index(*data, "id"@), Seq::empty()));
    assert(texts(parts@) == without(av, self_id@));
    assert(texts(d.set_parts@) == dv.set_parts);
    Ok(d)
}

/// The catalogue items of a set's parts, found through the id index, in
/// the detail's order (parts the catalogue lacks are left out).
pub open spec fn part_items(
    ids: Seq<Seq<char>>,
    pairs: Seq<(Seq<char>, Seq<char>)>,
    items: Seq<ItemView>,
) -> Seq<ItemView>
    decreases ids.len(),
{
    if ids.len() == 0 {
        Seq::empty()
    } else {
        let r = part_items(ids.drop_last(), pairs, items);
        match slug_of_id(pairs, ids.last()) {
            Some(slug) => match find_slug(items, slug) {
                Some(j) => r.push(items[j]),
                None => r,
            },
            None => r,
        }
    }
}

impl MarketCache {
    /// The detail panel of `slug`: the item and its set's parts from the
    /// catalogue, with the given detail and orders; an error when the
    /// catalogue lacks the item.
    pub fn item_full(
        &self,
        slug: &str,
        detail: CachedDetail,
        sell_orders: Vec<MarketOrder>,
        buy_orders: Vec<MarketOrder>,
    ) -> (r: Result<MarketItemFull, String>)
        ensures
            match find_slug(item_views(self.items@), slug@) {
                Some(j) => r matches Ok(full) && full.item@ == summary(item_views(self.items@)[j])
                    && summary_views(full.set_parts@) == part_items(
                    detail@.set_parts,
                    pair_views(self.id_to_slug@),
                    item_views(self.items@),
                ).map_values(|i: ItemView| summary(i)) && full.ducats == detail@.ducats
                    && full.trading_tax == detail@.trading_tax && full.set_root == detail@.set_root
                    && order_views(full.sell_orders@) == order_views(sell_orders@) && order_views(
                    full.buy_orders@,
                ) == order_views(buy_orders@),
                None => r matches Err(e) && e@ == "物品不在缓存中"@,
            },
    {
        let ghost iv = item_views(self.items@);
        let ghost pv = pair_views(self.id_to_slug@);
        let ghost ids = texts(detail.set_parts@);
        proof {
            crate::market::lemma_find_slug(iv, slug@);
        }
        let idx = match find_item(&self.items, slug) {
            Some(j) => j,
            None => {
                return Err(owned("物品不在缓存中"));
            },
        };
        let item = summary_of(&self.items[idx]);
        let mut parts: Vec<MarketItemSummary> = Vec::new();
        let mut i: usize = 0;
        assert(summary_views(parts@) =~= part_items(ids.take(0), pv, iv).map_values(|x: ItemView| summary(x)));
        while i < detail.set_parts.len()
            invariant
                iv == item_views(self.items@),
                pv == pair_views(self.id_to_slug@),
                ids == texts(detail.set_parts@),
                i <= ids.len(),
                summary_views(parts@) == part_items(ids.take(i as int), pv, iv).map_values(
                    |x: ItemView| summary(x),
                ),
            decreases ids.len() - i,
        {
            assert(ids.take(i + 1).drop_last() =~= ids.take(i as int));
            assert(ids.take(i + 1).last() == detail.set_parts@[i as int]@);
            let ghost before = summary_views(parts@);
            match lookup_id(&self.id_to_slug, detail.set_parts[i].as_str()) {
                Some(s) => {
                    proof {
                        lemma_find_slug(iv, s@);
                    }
                    match find_item(&self.items, s.as_str()) {
                        Some(j) => {
                            parts.push(summary_of(&self.items[j]));
                            assert(summary_views(parts@) =~= before.push(summary(iv[j as int])));
                        },
                        None => {},
                    }
                },
                None => {},
            }
            i = i + 1;
        }
        assert(ids.take(i as int) =~= ids);
        Ok(MarketItemFull {
            item,
            ducats: detail.ducats,
            trading_tax: detail.trading_tax,
            set_root: detail.set_root,
            set_parts: parts,
            sell_orders,
            buy_orders,
        })
    }
}


// ── Translating names ───────────────────────────────────────────────────────

/// `char::is_alphanumeric` (Unicode `Alphabetic` or `Numeric`).
pub uninterp spec fn alphanumeric(c: char) -> bool;

/// `char::is_alphanumeric`: whether the character is a letter or a digit by
/// the Unicode tables; the answer is named, not spelled out.
#[verifier::external_body]
fn is_alnum(c: char) -> (r: bool)
    ensures
        r == alphanumeric(c),
{
    c.is_alphanumeric()
}

/// A CJK ideograph or CJK punctuation.
pub open spec fn is_cjk(c: char) -> bool {
    let u = c as u32;
    (0x4E00 <= u <= 0x9FFF) || (0x3400 <= u <= 0x4DBF) || (0xF900 <= u <= 0xFAFF) || (0x3000 <= u
        <= 0x303F)
}

fn is_cjk_exec(c: char) -> (r: bool)
    ensures
        r == is_cjk(c),
{
    let u = c as u32;
    (0x4E00 <= u && u <= 0x9FFF) || (0x3400 <= u && u <= 0x4DBF) || (0xF900 <= u && u <= 0xFAFF)
        || (0x3000 <= u && u <= 0x303F)
}

/// The letters, digits and CJK characters of a name, in order (separators
/// such as `·` dropped).
pub open spec fn name_chars(s: Seq<char>) -> Seq<char>
    decreases s.len(),
{
    if s.len() == 0 {
        Seq::empty()
    } else {
        let r = name_chars(s.drop_last());
        if alphanumeric(s.last()) || is_cjk(s.last()) {
            r.push(s.last())
        } else {
            r
        }
    }
}

fn name_chars_exec(s: &str) -> (r: String)
    ensures
        r@ == name_chars(s@),
{
    let cs = crate::text::chars_of(s);
    let mut r = String::new();
    let mut i: usize = 0;
    assert(cs@.take(0) =~= Seq::<char>::empty());
    while i < cs.len()
        invariant
            cs@ == s@,
            i <= cs@.len(),
            r@ == name_chars(cs@.take(i as int)),
        decreases cs@.len() - i,
    {
        assert(cs@.take(i + 1).drop_last() =~= cs@.take(i as int));
        let c = cs[i];
        if is_alnum(c) || is_cjk_exec(c) {
            crate::text::push_char(&mut r, c);
        }
        i = i + 1;
    }
    assert(cs@.take(i as int) =~= cs@);
    r
}

/// How well a name (its name characters `nz`) fits the query's `nq`:
/// exact matches first, then shorter names (by UTF-8 length).
pub open spec fn relevance(nz: Seq<char>, nq: Seq<char>) -> u128 {
    ((if nz == nq {
        0int
    } else {
        0x1_0000_0000_0000_0000int
    }) + (vstd::utf8::encode_utf8(nz).len() as usize)) as u128
}

/// The items whose Chinese name contains the query's name characters, with
/// their relevance, in catalogue order.
pub open spec fn translation_candidates(items: Seq<ItemView>, nq: Seq<char>) -> Seq<(u128, ItemView)>
    decreases items.len(),
{
    if items.len() == 0 {
        Seq::empty()
    } else {
        let r = translation_candidates(items.drop_last(), nq);
        let i = items.last();
        if i.name_zh.len() > 0 && contains(name_chars(i.name_zh), nq) {
            r.push((relevance(name_chars(i.name_zh), nq), i))
        } else {
            r
        }
    }
}

/// At most this many translations are shown.
pub const TRANSLATE_LIMIT: usize = 20;

/// The items a Chinese query may mean: nothing for a blank query or one
/// without name characters, else the best twenty by relevance (ties in
/// catalogue order).
pub open spec fn translation_result(items: Seq<ItemView>, query: Seq<char>) -> Seq<SummaryView> {
    let q = trim(query);
    let nq = name_chars(q);
    if q.len() == 0 || nq.len() == 0 {
        Seq::empty()
    } else {
        first_n(sorted_by_key(translation_candidates(items, nq)), TRANSLATE_LIMIT as int).map_values(
            |p: (u128, ItemView)| summary(p.1),
        )
    }
}

/// The relevance of an item for the query's name characters `nq`, when its
/// Chinese name matches.
fn candidate_key(name_zh: &str, nq: &str) -> (r: Option<u128>)
    ensures
        match r {
            Some(k) => name_zh@.len() > 0 && contains(name_chars(name_zh@), nq@) && k == relevance(
                name_chars(name_zh@),
                nq@,
            ),
            None => !(name_zh@.len() > 0 && contains(name_chars(name_zh@), nq@)),
        },
{
    if name_zh.is_empty() {
        return None;
    }
    let nz = name_chars_exec(name_zh);
    if !str_contains(nz.as_str(), nq) {
        return None;
    }
    let exact = str_eq(nz.as_str(), nq);
    let nzs = nz.as_str();
    let len = nzs.len();
    assert(len == nzs.spec_bytes().len() as usize);
    assert(nzs.spec_bytes() == vstd::utf8::encode_utf8(nz@));
    if exact {
        Some(len as u128)
    } else {
        Some(18446744073709551616u128 + len as u128)
    }
}

impl MarketCache {
    /// Find the items whose Chinese name matches a Chinese query.
    pub fn translate_items(&self, query: &str) -> (r: Vec<MarketItemSummary>)
        ensures
            summary_views(r@) == translation_result(item_views(self.items@), query@),
    {
        let q = trim_str(query);
        let mut out: Vec<MarketItemSummary> = Vec::new();
        if q.as_str().is_empty() {
            assert(summary_views(out@) =~= Seq::<SummaryView>::empty());
            return out;
        }
        let nq = name_chars_exec(q.as_str());
        if nq.as_str().is_empty() {
            assert(summary_views(out@) =~= Seq::<SummaryView>::empty());
            return out;
        }
        let ghost iv = item_views(self.items@);
        let ghost to_item = |j: usize| iv[j as int];
        let mut cands: Vec<(u128, usize)> = Vec::new();
        let mut i: usize = 0;
        assert(map_payload(cands@, to_item) =~= translation_candidates(iv.take(0), nq@));
        while i < self.items.len()
            invariant
                iv == item_views(self.items@),
                to_item == (|j: usize| iv[j as int]),
                i <= iv.len(),
                forall|k: int| 0 <= k < cands@.len() ==> #[trigger] cands@[k].1 < iv.len(),
                map_payload(cands@, to_item) == translation_candidates(iv.take(i as int), nq@),
            decreases iv.len() - i,
        {
            assert(iv.take(i + 1).drop_last() =~= iv.take(i as int));
            assert(iv.take(i + 1).last() == iv[i as int]);
            match candidate_key(self.items[i].name_zh.as_str(), nq.as_str()) {
                Some(key) => {
                    let ghost before = map_payload(cands@, to_item);
                    cands.push((key, i));
                    assert(map_payload(cands@, to_item) =~= before.push((key, iv[i as int])));
                },
                None => {},
            }
            i = i + 1;
        }
        assert(iv.take(i as int) =~= iv);
        let ghost cv = cands@;
        let sorted = sort_by_key(cands);
        proof {
            lemma_sorted_map(cv, to_item);
            crate::sorting::lemma_sorted_by_key(cv);
            sorted@.to_multiset_ensures();
            cv.to_multiset_ensures();
            assert forall|k: int| 0 <= k < sorted@.len() implies #[trigger] sorted@[k].1 < iv.len() by {
                assert(sorted@.contains(sorted@[k]));
                assert(sorted@.to_multiset().count(sorted@[k]) == cv.to_multiset().count(sorted@[k]));
                assert(cv.contains(sorted@[k]));
            }
        }
        let ghost all = map_payload(sorted@, to_item);
        let mut k: usize = 0;
        while k < sorted.len() && k < TRANSLATE_LIMIT
            invariant
                iv == item_views(self.items@),
                to_item == (|j: usize| iv[j as int]),
                all == map_payload(sorted@, to_item),
                forall|m: int| 0 <= m < sorted@.len() ==> #[trigger] sorted@[m].1 < iv.len(),
                k <= sorted@.len(),
                k <= TRANSLATE_LIMIT,
                summary_views(out@) == all.take(k as int).map_values(|p: (u128, ItemView)| summary(p.1)),
            decreases sorted@.len() - k,
        {
            let ghost before = summary_views(out@);
            let j = sorted[k].1;
            assert(all[k as int].1 == iv[j as int]);
            out.push(summary_of(&self.items[j]));
            assert(summary_views(out@) =~= before.push(summary(iv[j as int])));
            assert(summary_views(out@) =~= all.take(k + 1).map_values(|p: (u128, ItemView)| summary(p.1)));
            k = k + 1;
        }
        assert(all.take(k as int) =~= first_n(all, TRANSLATE_LIMIT as int));
        out
    }
}


// ── Laws ────────────────────────────────────────────────────────────────────

/// Keying a non-empty list by slug gives a non-empty catalogue (so the
/// catalogue built at start-up, from disk or from the embedded list, is
/// never empty).
pub proof fn lemma_keyed_nonempty(s: Seq<ItemView>)
    ensures
        s.len() > 0 ==> keyed(s).len() > 0,
        keyed(s).len() <= s.len(),
    decreases s.len(),
{
    if s.len() > 0 {
        lemma_keyed_nonempty(s.drop_last());
        lemma_find_slug(keyed(s.drop_last()), s.last().slug);
    }
}

/// Where slugs repeat, the keyed catalogue holds the last item with each
/// slug, and every slug of the list is in it.
pub proof fn lemma_keyed_last_wins(s: Seq<ItemView>, j: int)
    requires
        0 <= j < s.len(),
        forall|k: int| j < k < s.len() ==> s[k].slug != s[j].slug,
    ensures
        find_slug(keyed(s), s[j].slug) matches Some(p) && keyed(s)[p] == s[j],
    decreases s.len(),
{
    lemma_keyed_distinct(s.drop_last());
    if j == s.len() - 1 {
        lemma_with_item(keyed(s.drop_last()), s.last());
    } else {
        let d = s.drop_last();
        let k = keyed(d);
        let x = s.last();
        assert(d[j] == s[j]);
        lemma_keyed_last_wins(d, j);
        lemma_with_item(k, x);
        lemma_find_slug(k, x.slug);
        let p = find_slug(k, s[j].slug)->0;
        lemma_find_slug(k, s[j].slug);
        assert(0 <= p < k.len());
        assert(keyed(s) == with_item(k, x));
        assert(x.slug != s[j].slug);
        assert(find_slug(keyed(s), s[j].slug) == Some(p));
        match find_slug(k, x.slug) {
            Some(q) => {
                assert(q != p);
                assert(keyed(s)[p] == k[p]);
            },
            None => {
                assert(keyed(s)[p] == k[p]);
            },
        }
    }
}

/// Sell orders come cheapest first, buy orders dearest first.
pub proof fn lemma_order_book_sorted(data: Seq<Json>)
    ensures
        forall|i: int, j: int| 0 <= i <= j < order_book_side(data, "sell"@, false).len()
            ==> order_book_side(data, "sell"@, false)[i].platinum <= order_book_side(data, "sell"@, false)[j].platinum,
        forall|i: int, j: int| 0 <= i <= j < order_book_side(data, "buy"@, true).len()
            ==> order_book_side(data, "buy"@, true)[i].platinum >= order_book_side(data, "buy"@, true)[j].platinum,
{
    let sk = price_keyed(orders_of_type(data, "sell"@), false);
    let bk = price_keyed(orders_of_type(data, "buy"@), true);
    crate::sorting::lemma_sorted_by_key(sk);
    crate::sorting::lemma_sorted_by_key(bk);
    let ss = sorted_by_key(sk);
    let bs = sorted_by_key(bk);
    ss.to_multiset_ensures();
    sk.to_multiset_ensures();
    bs.to_multiset_ensures();
    bk.to_multiset_ensures();
    assert forall|i: int| 0 <= i < ss.len() implies ss[i].0 == ss[i].1.platinum as u128 by {
        assert(ss.contains(ss[i]));
        assert(ss.to_multiset().count(ss[i]) == sk.to_multiset().count(ss[i]));
        assert(sk.contains(ss[i]));
    }
    assert forall|i: int| 0 <= i < bs.len() implies bs[i].0 == (u32::MAX - bs[i].1.platinum) as u128 by {
        assert(bs.contains(bs[i]));
        assert(bs.to_multiset().count(bs[i]) == bk.to_multiset().count(bs[i]));
        assert(bk.contains(bs[i]));
    }
    assert forall|i: int, j: int| 0 <= i <= j < order_book_side(data, "sell"@, false).len()
        implies order_book_side(data, "sell"@, false)[i].platinum <= order_book_side(data, "sell"@, false)[j].platinum by {
        assert(ss[i].0 <= ss[j].0);
    }
    assert forall|i: int, j: int| 0 <= i <= j < order_book_side(data, "buy"@, true).len()
        implies order_book_side(data, "buy"@, true)[i].platinum >= order_book_side(data, "buy"@, true)[j].platinum by {
        assert(bs[i].0 <= bs[j].0);
    }
}

/// Translations come by relevance: exact matches before the others, and
/// within each, shorter names first.
pub proof fn lemma_translations_by_relevance(items: Seq<ItemView>, nq: Seq<char>)
    ensures
        forall|i: int, j: int| 0 <= i <= j < sorted_by_key(translation_candidates(items, nq)).len()
            ==> sorted_by_key(translation_candidates(items, nq))[i].0 <= sorted_by_key(
            translation_candidates(items, nq),
        )[j].0,
{
    crate::sorting::lemma_sorted_by_key(translation_candidates(items, nq));
}

/// After storing a detail, the cache gives it back for its slug and gives
/// the same as before for every other slug.
pub proof fn lemma_detail_read_after_write(
    before: Seq<(Seq<char>, DetailView)>,
    after: Seq<(Seq<char>, DetailView)>,
    slug: Seq<char>,
    d: DetailView,
    other: Seq<char>,
)
    requires
        detail_of(after, slug) == Some(d),
        forall|k: Seq<char>| k != slug ==> detail_of(after, k) == detail_of(before, k),
    ensures
        detail_of(after, slug) == Some(d),
        other != slug ==> detail_of(after, other) == detail_of(before, other),
{
}

} // verus!
