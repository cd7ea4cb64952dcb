//! Chinese names of game items by asset path (Baro's wares are listed by them).

use vstd::prelude::*;
use crate::text::{owned, str_eq};
use crate::textscan::{replace_first, replace_first_str};
use crate::market::pair_views;

verus! {

/// The value of the first entry for `key`.
pub open spec fn lookup_pair(pairs: Seq<(Seq<char>, Seq<char>)>, key: Seq<char>) -> Option<Seq<char>>
    decreases pairs.len(),
{
    if pairs.len() == 0 {
        None
    } else if pairs[0].0 == key {
        Some(pairs[0].1)
    } else {
        lookup_pair(pairs.drop_first(), key)
    }
}

/// The text of an optional string.
pub open spec fn opt_text(s: Option<String>) -> Option<Seq<char>> {
    match s {
        Some(t) => Some(t@),
        None => None,
    }
}

fn lookup_exec(pairs: &Vec<(String, String)>, key: &str) -> (r: Option<String>)
    ensures
        opt_text(r) == lookup_pair(pair_views(pairs@), key@),
{
    let ghost pv = pair_views(pairs@);
    let mut i: usize = 0;
    assert(pv.skip(0) =~= pv);
    while i < pairs.len()
        invariant
            pv == pair_views(pairs@),
            i <= pairs@.len(),
            lookup_pair(pv, key@) == lookup_pair(pv.skip(i as int), key@),
        decreases pairs@.len() - i,
    {
        assert(pv.skip(i as int).drop_first() =~= pv.skip(i + 1));
        if str_eq(pairs[i].0.as_str(), key) {
            return Some(pairs[i].1.clone());
        }
        i = i + 1;
    }
    None
}

/// The name table: asset path → Chinese name.
pub struct ItemNames {
    pub entries: Vec<(String, String)>,
}

/// No path is listed twice.
pub open spec fn distinct_paths<V>(pairs: Seq<(Seq<char>, V)>) -> bool {
    forall|i: int, j: int| 0 <= i < j < pairs.len() ==> pairs[i].0 != pairs[j].0
}

/// The name of an asset path: as given, else with its `/StoreItems/`
/// segment removed (the form the name table uses for store items).
pub open spec fn translation(pairs: Seq<(Seq<char>, Seq<char>)>, path: Seq<char>) -> Option<Seq<char>> {
    match lookup_pair(pairs, path) {
        Some(v) => Some(v),
        None => {
            let stripped = replace_first(path, "/StoreItems/"@, "/"@);
            if stripped != path {
                lookup_pair(pairs, stripped)
            } else {
                None
            }
        },
    }
}

impl ItemNames {
    /// A name table maps each path to one name: no path is listed twice, so
    /// its size is the number of paths it names.
    pub open spec fn wf(&self) -> bool {
        distinct_paths(pair_views(self.entries@))
    }

    /// Translate an asset path to its Chinese name, if known.
    pub fn translate(&self, path: &str) -> (r: Option<String>)
        ensures
            opt_text(r) == translation(pair_views(self.entries@), path@),
    {
        match lookup_exec(&self.entries, path) {
            Some(v) => Some(v),
            None => {
                let stripped = replace_first_str(path, "/StoreItems/", "/");
                if !str_eq(stripped.as_str(), path) {
                    lookup_exec(&self.entries, stripped.as_str())
                } else {
                    None
                }
            },
        }
    }

    /// The number of names loaded.
    pub fn count(&self) -> (r: usize)
        ensures
            r == self.entries@.len(),
    {
        self.entries.len()
    }

    /// The table at start-up: the saved table when it holds names, else the
    /// table already in use (`current`, the built-in one until another is
    /// loaded) stays.
    pub fn select_table(saved: Option<Vec<(String, String)>>, current: ItemNames) -> (r: ItemNames)
        requires
            saved matches Some(s) ==> distinct_paths(pair_views(s@)),
            current.wf(),
        ensures
            r.wf(),
            pair_views(r.entries@) == match saved {
                Some(s) => if s@.len() > 0 {
                    pair_views(s@)
                } else {
                    pair_views(current.entries@)
                },
                None => pair_views(current.entries@),
            },
    {
        match saved {
            Some(s) => {
                if s.len() > 0 {
                    return ItemNames { entries: s };
                }
            },
            None => {},
        }
        current
    }
}

/// The entries of a downloaded name table that have a Chinese name.
pub open spec fn named_entries(raw: Seq<(Seq<char>, Option<Seq<char>>)>) -> Seq<(Seq<char>, Seq<char>)>
    decreases raw.len(),
{
    if raw.len() == 0 {
        Seq::empty()
    } else {
        let r = named_entries(raw.drop_last());
        match raw.last().1 {
            Some(n) => r.push((raw.last().0, n)),
            None => r,
        }
    }
}

/// The named entries of a download keep its paths, in order: paths listed
/// once stay listed once.
proof fn lemma_named_distinct(raw: Seq<(Seq<char>, Option<Seq<char>>)>)
    ensures
        forall|j: int|
            0 <= j < named_entries(raw).len() ==> exists|i: int|
                0 <= i < raw.len() && raw[i].0 == (#[trigger] named_entries(raw)[j]).0,
        distinct_paths(raw) ==> distinct_paths(named_entries(raw)),
    decreases raw.len(),
{
    if raw.len() > 0 {
        let d = raw.drop_last();
        let x = raw.last();
        lemma_named_distinct(d);
        let r = named_entries(d);
        assert forall|j: int| 0 <= j < named_entries(raw).len() implies exists|i: int|
            0 <= i < raw.len() && raw[i].0 == (#[trigger] named_entries(raw)[j]).0 by {
            if j < r.len() {
                assert(named_entries(raw)[j] == r[j]);
                let i = choose|i: int| 0 <= i < d.len() && d[i].0 == r[j].0;
                assert(raw[i] == d[i]);
            } else {
                assert(raw[raw.len() - 1].0 == named_entries(raw)[j].0);
            }
        }
        if distinct_paths(raw) {
            assert(distinct_paths(d)) by {
                assert forall|i: int, j: int| 0 <= i < j < d.len() implies d[i].0 != d[j].0 by {
                    assert(d[i] == raw[i] && d[j] == raw[j]);
                }
            }
            assert forall|a: int, b: int| 0 <= a < b < named_entries(raw).len() implies named_entries(raw)[a].0
                != named_entries(raw)[b].0 by {
                if b >= r.len() {
                    assert(named_entries(raw)[a] == r[a]);
                    let i = choose|i: int| 0 <= i < d.len() && d[i].0 == r[a].0;
                    assert(raw[i] == d[i]);
                    assert(raw[i].0 != raw[raw.len() - 1].0);
                } else {
                    assert(named_entries(raw)[a] == r[a] && named_entries(raw)[b] == r[b]);
                }
            }
        }
    }
}

/// The texts of (path, optional name) entries.
pub open spec fn raw_views(v: Seq<(String, Option<String>)>) -> Seq<(Seq<char>, Option<Seq<char>>)> {
    v.map_values(|p: (String, Option<String>)| (p.0@, opt_text(p.1)))
}

/// The name table of a download: the entries with a Chinese name; an error
/// when there are none.
pub fn compact_names(raw: Vec<(String, Option<String>)>) -> (r: Result<ItemNames, String>)
    requires
        distinct_paths(raw_views(raw@)),
    ensures
        r matches Ok(t) ==> t.wf(),
        named_entries(raw_views(raw@)).len() == 0 ==> (r matches Err(e) && e@
            == "解析结果为空（数据源格式可能已变更）"@),
        named_entries(raw_views(raw@)).len() > 0 ==> (r matches Ok(t) && pair_views(t.entries@)
            == named_entries(raw_views(raw@))),
{
    let ghost rv = raw_views(raw@);
    let mut out: Vec<(String, String)> = Vec::new();
    let mut rest = raw;
    let n = rest.len();
    let mut i: usize = 0;
    assert(pair_views(out@) =~= named_entries(rv.take(0)));
    while rest.len() > 0
        invariant
            rv.len() == n,
            i + rest@.len() == n,
            forall|j: int| 0 <= j < rest@.len() ==> (#[trigger] rest@[j].0@, opt_text(rest@[j].1)) == rv[i + j],
            pair_views(out@) == named_entries(rv.take(i as int)),
        decreases rest@.len(),
    {
        let ghost first = (rest@[0].0@, opt_text(rest@[0].1));
        assert(first == rv[i as int]);
        let (k, v) = rest.remove(0);
        assert(rv.take(i + 1).drop_last() =~= rv.take(i as int));
        match v {
            Some(name) => {
                let ghost before = pair_views(out@);
                let ghost nv = name@;
                out.push((k, name));
                assert(pair_views(out@) =~= before.push((first.0, nv)));
            },
            None => {},
        }
        i = i + 1;
    }
    assert(rv.take(i as int) =~= rv);
    proof {
        lemma_named_distinct(rv);
    }
    if out.len() == 0 {
        return Err(owned("解析结果为空（数据源格式可能已变更）"));
    }
    Ok(ItemNames { entries: out })
}

proof fn lemma_lookup_push(r: Seq<(Seq<char>, Seq<char>)>, x: (Seq<char>, Seq<char>), k: Seq<char>)
    ensures
        lookup_pair(r, k) is Some ==> lookup_pair(r.push(x), k) == lookup_pair(r, k),
        lookup_pair(r, k) is None ==> lookup_pair(r.push(x), k) == if x.0 == k {
            Some(x.1)
        } else {
            None::<Seq<char>>
        },
    decreases r.len(),
{
    if r.len() > 0 {
        assert(r.push(x)[0] == r[0]);
        assert(r.push(x).drop_first() =~= r.drop_first().push(x));
        lemma_lookup_push(r.drop_first(), x, k);
    } else {
        assert(r.push(x)[0] == x);
        assert(r.push(x).drop_first() =~= Seq::<(Seq<char>, Seq<char>)>::empty());
        assert(lookup_pair(Seq::<(Seq<char>, Seq<char>)>::empty(), k) is None);
    }
}

/// A downloaded table lists each path once. After it is taken as the name
/// table, a path it lists has the name it gave (none when it gave none), and
/// a path it does not list has no name.
pub proof fn lemma_downloaded_names(raw: Seq<(Seq<char>, Option<Seq<char>>)>, k: Seq<char>)
    requires
        distinct_paths(raw),
    ensures
        forall|i: int| 0 <= i < raw.len() && raw[i].0 == k ==> lookup_pair(named_entries(raw), k) == raw[i].1,
        (forall|i: int| 0 <= i < raw.len() ==> raw[i].0 != k) ==> lookup_pair(named_entries(raw), k) is None,
    decreases raw.len(),
{
    if raw.len() > 0 {
        let d = raw.drop_last();
        let x = raw.last();
        lemma_downloaded_names(d, k);
        let r = named_entries(d);
        match x.1 {
            Some(n) => {
                lemma_lookup_push(r, (x.0, n), k);
            },
            None => {},
        }
        assert forall|i: int| 0 <= i < raw.len() && raw[i].0 == k implies lookup_pair(named_entries(raw), k) == raw[i].1 by {
            if i < raw.len() - 1 {
                assert(d[i] == raw[i]);
                assert(raw[i].0 != raw[raw.len() - 1].0);
            }
        }
        if forall|i: int| 0 <= i < raw.len() ==> raw[i].0 != k {
            assert forall|i: int| 0 <= i < d.len() implies d[i].0 != k by {
                assert(d[i] == raw[i]);
            }
            assert(raw[raw.len() - 1].0 != k);
        }
    }
}

} // verus!
