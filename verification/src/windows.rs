//! Choosing the game window among the desktop's top-level windows.

use vstd::prelude::*;
use crate::text::{chars_of, str_eq};
use crate::textscan::{contains, lowercase, to_lower, str_contains};
use crate::sorting::{
    ins_pos_by, sorted_by, lemma_ins_pos_by_bounds, asymmetric, negatively_transitive, lemma_sorted_by_in_order,
    lemma_sorted_by_all, lemma_sorted_by_map_multiset,
};

verus! {

/// A top-level window.
#[derive(Debug, Clone)]
pub struct WindowInfo {
    pub title: String,
    /// The window handle.
    pub hwnd: usize,
    /// The owning process.
    pub pid: u32,
}

/// A window as plain values.
pub struct WindowView {
    pub title: Seq<char>,
    pub hwnd: usize,
    pub pid: u32,
}

impl View for WindowInfo {
    type V = WindowView;

    open spec fn view(&self) -> WindowView {
        WindowView { title: self.title@, hwnd: self.hwnd, pid: self.pid }
    }
}

/// `a` comes before `b` in the order of `str::cmp` (code point by code
/// point, which is the order of their UTF-8 bytes; a prefix first).
pub open spec fn lex_lt(a: Seq<char>, b: Seq<char>) -> bool
    decreases a.len(),
{
    if a.len() == 0 {
        b.len() > 0
    } else if b.len() == 0 {
        false
    } else if a[0] != b[0] {
        (a[0] as u32) < (b[0] as u32)
    } else {
        lex_lt(a.skip(1), b.skip(1))
    }
}

/// `a < b` for texts.
pub fn text_lt(a: &str, b: &str) -> (r: bool)
    ensures
        r == lex_lt(a@, b@),
{
    let x = chars_of(a);
    let y = chars_of(b);
    let mut i: usize = 0;
    assert(x@.skip(0) =~= x@);
    assert(y@.skip(0) =~= y@);
    while i < x.len() && i < y.len()
        invariant
            x@ == a@,
            y@ == b@,
            i <= x@.len(),
            i <= y@.len(),
            lex_lt(a@, b@) == lex_lt(x@.skip(i as int), y@.skip(i as int)),
        decreases x@.len() - i,
    {
        assert(x@.skip(i as int)[0] == x@[i as int]);
        assert(y@.skip(i as int)[0] == y@[i as int]);
        if x[i] != y[i] {
            return (x[i] as u32) < (y[i] as u32);
        }
        assert(x@.skip(i as int).skip(1) =~= x@.skip(i + 1));
        assert(y@.skip(i as int).skip(1) =~= y@.skip(i + 1));
        i = i + 1;
    }
    i == x.len() && i < y.len()
}

/// Windows ranked: exact title matches first, then by title.
pub open spec fn window_before(a: (bool, WindowView), b: (bool, WindowView)) -> bool {
    (a.0 && !b.0) || (a.0 == b.0 && lex_lt(a.1.title, b.1.title))
}

/// The windows whose lower-cased title contains `kw` and that another
/// process owns, each with whether its lower-cased title equals `kw`.
pub open spec fn matching_windows(ws: Seq<WindowView>, kw: Seq<char>, own_pid: u32) -> Seq<(bool, WindowView)>
    decreases ws.len(),
{
    if ws.len() == 0 {
        Seq::empty()
    } else {
        let r = matching_windows(ws.drop_last(), kw, own_pid);
        let w = ws.last();
        if contains(lowercase(w.title), kw) && w.pid != own_pid {
            r.push((lowercase(w.title) == kw, w))
        } else {
            r
        }
    }
}

/// The windows a keyword finds: those whose title contains it (ignoring
/// case) and that another process owns, exact matches first, then by title.
pub open spec fn found_windows(ws: Seq<WindowView>, keyword: Seq<char>, own_pid: u32) -> Seq<WindowView> {
    sorted_by(matching_windows(ws, lowercase(keyword), own_pid), |a, b| window_before(a, b)).map_values(
        |p: (bool, WindowView)| p.1,
    )
}

/// The views of a list of windows.
pub open spec fn window_views(s: Seq<WindowInfo>) -> Seq<WindowView> {
    s.map_values(|w: WindowInfo| w@)
}

/// The views of ranked windows.
pub open spec fn ranked_views(s: Seq<(bool, WindowInfo)>) -> Seq<(bool, WindowView)> {
    s.map_values(|p: (bool, WindowInfo)| (p.0, p.1@))
}

fn before_exec(a: &(bool, WindowInfo), b: &(bool, WindowInfo)) -> (r: bool)
    ensures
        r == window_before((a.0, a.1@), (b.0, b.1@)),
{
    (a.0 && !b.0) || (a.0 == b.0 && text_lt(a.1.title.as_str(), b.1.title.as_str()))
}

/// Keep the windows a keyword finds (`own_pid`: this process), ranked.
pub fn filter_windows(windows: Vec<WindowInfo>, keyword: &str, own_pid: u32) -> (r: Vec<WindowInfo>)
    ensures
        window_views(r@) == found_windows(window_views(windows@), keyword@, own_pid),
{
    let kw = to_lower(keyword);
    let ghost wv = window_views(windows@);
    let ghost before = |a: (bool, WindowView), b: (bool, WindowView)| window_before(a, b);
    let mut sorted: Vec<(bool, WindowInfo)> = Vec::new();
    let mut rest = windows;
    let n = rest.len();
    let mut i: usize = 0;
    assert(ranked_views(sorted@) =~= sorted_by(matching_windows(wv.take(0), kw@, own_pid), before));
    while rest.len() > 0
        invariant
            wv.len() == n,
            i + rest@.len() == n,
            forall|j: int| 0 <= j < rest@.len() ==> #[trigger] rest@[j]@ == wv[i + j],
            before == (|a: (bool, WindowView), b: (bool, WindowView)| window_before(a, b)),
            kw@ == lowercase(keyword@),
            ranked_views(sorted@) == sorted_by(matching_windows(wv.take(i as int), kw@, own_pid), before),
        decreases rest@.len(),
    {
        let w = rest.remove(0);
        assert(w@ == wv[i as int]);
        assert(wv.take(i + 1).drop_last() =~= wv.take(i as int));
        assert(wv.take(i + 1).last() == w@);
        let title = to_lower(w.title.as_str());
        if str_contains(title.as_str(), kw.as_str()) && w.pid != own_pid {
            let exact = str_eq(title.as_str(), kw.as_str());
            let x = (exact, w);
            let ghost xv = (x.0, x.1@);
            let ghost sv = ranked_views(sorted@);
            let mut p = sorted.len();
            assert(sv.take(p as int) =~= sv);
            while p > 0 && before_exec(&x, &sorted[p - 1])
                invariant
                    sv == ranked_views(sorted@),
                    p <= sorted@.len(),
                    xv == (x.0, x.1@),
                    before == (|a: (bool, WindowView), b: (bool, WindowView)| window_before(a, b)),
                    ins_pos_by(sv, xv, before) == ins_pos_by(sv.take(p as int), xv, before),
                decreases p,
            {
                assert(sv.take(p as int).drop_last() =~= sv.take(p - 1));
                assert(sv.take(p as int).last() == sv[p - 1]);
                p = p - 1;
            }
            proof {
                if p > 0 {
                    assert(sv.take(p as int).last() == sv[p - 1]);
                    assert(!before(xv, sv[p - 1]));
                } else {
                    assert(sv.take(0) =~= Seq::<(bool, WindowView)>::empty());
                }
                assert(ins_pos_by(sv, xv, before) == p as int);
                lemma_ins_pos_by_bounds(sv, xv, before);
                let m0 = matching_windows(wv.take(i as int), kw@, own_pid);
                assert(matching_windows(wv.take(i + 1), kw@, own_pid) == m0.push(xv));
                assert(m0.push(xv).drop_last() =~= m0);
                assert(sorted_by(m0.push(xv), before) == sv.insert(ins_pos_by(sv, xv, before), xv));
            }
            sorted.insert(p, x);
            assert(ranked_views(sorted@) =~= sv.insert(p as int, xv));
        } else {
            assert(matching_windows(wv.take(i + 1), kw@, own_pid) == matching_windows(wv.take(i as int), kw@, own_pid));
        }
        i = i + 1;
    }
    assert(wv.take(i as int) =~= wv);
    let ghost sv = ranked_views(sorted@);
    let mut out: Vec<WindowInfo> = Vec::new();
    let mut k: usize = 0;
    let m = sorted.len();
    while sorted.len() > 0
        invariant
            k + sorted@.len() == m,
            sv.len() == m,
            forall|j: int| 0 <= j < sorted@.len() ==> (#[trigger] sorted@[j].0, sorted@[j].1@) == sv[k + j],
            window_views(out@) == sv.take(k as int).map_values(|p: (bool, WindowView)| p.1),
        decreases sorted@.len(),
    {
        let ghost first = (sorted@[0].0, sorted@[0].1@);
        assert(first == sv[k as int]);
        let (_, w) = sorted.remove(0);
        let ghost prev = window_views(out@);
        out.push(w);
        assert(window_views(out@) =~= prev.push(first.1));
        assert(sv.take(k + 1).map_values(|p: (bool, WindowView)| p.1) =~= sv.take(k as int).map_values(
            |p: (bool, WindowView)| p.1,
        ).push(first.1));
        k = k + 1;
    }
    assert(sv.take(k as int) =~= sv);
    out
}

/// Window `w`, whose process runs the executable `exe` (when its name could
/// be read), is taken for the game: the executable's name, in lower case,
/// contains `kw`; when `by_process`, the window must also belong to a known
/// process (`pid != 0`) other than this one.
pub open spec fn exe_matches(w: WindowView, exe: Option<Seq<char>>, kw: Seq<char>, own_pid: u32, by_process: bool) -> bool {
    &&& !by_process || (w.pid != 0 && w.pid != own_pid)
    &&& exe matches Some(name) && contains(lowercase(name), kw)
}

/// The handle of the first window in `ws` taken for the game (`exe`: the
/// executable name of each window's process, in the same order).
pub open spec fn first_exe_match(
    ws: Seq<WindowView>,
    exe: Seq<Option<Seq<char>>>,
    kw: Seq<char>,
    own_pid: u32,
    by_process: bool,
) -> Option<usize>
    decreases ws.len(),
{
    if ws.len() == 0 || exe.len() == 0 {
        None
    } else if exe_matches(ws[0], exe[0], kw, own_pid, by_process) {
        Some(ws[0].hwnd)
    } else {
        first_exe_match(ws.drop_first(), exe.drop_first(), kw, own_pid, by_process)
    }
}

/// The game window in two tiers: among the windows the keyword found by
/// title (`found`, ranked), the first whose executable's name holds the
/// keyword; failing that, among all visible titled windows in the order the
/// desktop lists them (`visible`), the first of another known process whose
/// executable's name holds it. Case is ignored throughout.
pub open spec fn resolved_window(
    found: Seq<WindowView>,
    found_exe: Seq<Option<Seq<char>>>,
    visible: Seq<WindowView>,
    visible_exe: Seq<Option<Seq<char>>>,
    keyword: Seq<char>,
    own_pid: u32,
) -> Option<usize> {
    match first_exe_match(found, found_exe, lowercase(keyword), own_pid, false) {
        Some(h) => Some(h),
        None => first_exe_match(visible, visible_exe, lowercase(keyword), own_pid, true),
    }
}

/// The texts of optional strings.
pub open spec fn opt_texts(s: Seq<Option<String>>) -> Seq<Option<Seq<char>>> {
    s.map_values(|o: Option<String>| match o {
        Some(t) => Some(t@),
        None => None,
    })
}

/// The first of `windows` taken for the game (`kw`: the keyword in lower
/// case).
fn pick_by_exe(windows: &[WindowInfo], exe_names: &[Option<String>], kw: &str, own_pid: u32, by_process: bool) -> (r:
    Option<usize>)
    ensures
        r == first_exe_match(window_views(windows@), opt_texts(exe_names@), kw@, own_pid, by_process),
{
    let ghost wv = window_views(windows@);
    let ghost ev = opt_texts(exe_names@);
    let mut i: usize = 0;
    assert(wv.skip(0) =~= wv);
    assert(ev.skip(0) =~= ev);
    while i < windows.len() && i < exe_names.len()
        invariant
            wv == window_views(windows@),
            ev == opt_texts(exe_names@),
            i <= wv.len(),
            i <= ev.len(),
            first_exe_match(wv, ev, kw@, own_pid, by_process) == first_exe_match(
                wv.skip(i as int),
                ev.skip(i as int),
                kw@,
                own_pid,
                by_process,
            ),
        decreases wv.len() - i,
    {
        assert(wv.skip(i as int).drop_first() =~= wv.skip(i + 1));
        assert(ev.skip(i as int).drop_first() =~= ev.skip(i + 1));
        assert(wv.skip(i as int)[0] == windows@[i as int]@);
        assert(ev.skip(i as int)[0] == ev[i as int]);
        let w = &windows[i];
        let owner_ok = !by_process || (w.pid != 0 && w.pid != own_pid);
        let hit = owner_ok && match &exe_names[i] {
            Some(name) => {
                let lower = to_lower(name.as_str());
                str_contains(lower.as_str(), kw)
            },
            None => false,
        };
        if hit {
            return Some(w.hwnd);
        }
        i = i + 1;
    }
    None
}

/// Pick the game window: first among the windows the keyword found by title
/// (`found`, with `found_exe` the executable name of each one's process),
/// then among all visible titled windows as the desktop lists them
/// (`visible`, `visible_exe`), skipping those of this process (`own_pid`).
pub fn resolve_hwnd(
    found: &[WindowInfo],
    found_exe: &[Option<String>],
    visible: &[WindowInfo],
    visible_exe: &[Option<String>],
    keyword: &str,
    own_pid: u32,
) -> (r: Option<usize>)
    ensures
        r == resolved_window(
            window_views(found@),
            opt_texts(found_exe@),
            window_views(visible@),
            opt_texts(visible_exe@),
            keyword@,
            own_pid,
        ),
{
    let kw = to_lower(keyword);
    match pick_by_exe(found, found_exe, kw.as_str(), own_pid, false) {
        Some(h) => Some(h),
        None => pick_by_exe(visible, visible_exe, kw.as_str(), own_pid, true),
    }
}


// ── The ranking is an order ─────────────────────────────────────────────────

proof fn lemma_lex_irreflexive(a: Seq<char>)
    ensures
        !lex_lt(a, a),
    decreases a.len(),
{
    if a.len() > 0 {
        lemma_lex_irreflexive(a.skip(1));
    }
}

proof fn lemma_lex_transitive(a: Seq<char>, b: Seq<char>, c: Seq<char>)
    requires
        lex_lt(a, b),
        lex_lt(b, c),
    ensures
        lex_lt(a, c),
    decreases a.len(),
{
    if a.len() > 0 && b.len() > 0 && c.len() > 0 && a[0] == b[0] && b[0] == c[0] {
        lemma_lex_transitive(a.skip(1), b.skip(1), c.skip(1));
    }
}

proof fn lemma_lex_total(a: Seq<char>, b: Seq<char>)
    requires
        a != b,
    ensures
        lex_lt(a, b) || lex_lt(b, a),
    decreases a.len(),
{
    if a.len() > 0 && b.len() > 0 && a[0] == b[0] {
        if a.skip(1) == b.skip(1) {
            assert(a =~= seq![a[0]] + a.skip(1));
            assert(b =~= seq![b[0]] + b.skip(1));
        }
        lemma_lex_total(a.skip(1), b.skip(1));
    } else if a.len() == 0 && b.len() == 0 {
        assert(a =~= b);
    } else if a.len() > 0 && b.len() > 0 {
        let (x, y) = (a[0], b[0]);
        assert(x != y);
        vstd::utf8::char_u32_cast(x, x as u32);
        vstd::utf8::char_u32_cast(y, y as u32);
    }
}

/// The ranking of windows never holds both ways, and two windows out of
/// order with a third are out of order with each other.
pub proof fn lemma_window_order()
    ensures
        asymmetric(|a: (bool, WindowView), b: (bool, WindowView)| window_before(a, b)),
        negatively_transitive(|a: (bool, WindowView), b: (bool, WindowView)| window_before(a, b)),
{
    let before = |a: (bool, WindowView), b: (bool, WindowView)| window_before(a, b);
    assert forall|a: (bool, WindowView), b: (bool, WindowView)| #[trigger] before(a, b) implies !before(b, a) by {
        if a.0 == b.0 && lex_lt(a.1.title, b.1.title) && lex_lt(b.1.title, a.1.title) {
            lemma_lex_transitive(a.1.title, b.1.title, a.1.title);
            lemma_lex_irreflexive(a.1.title);
        }
    }
    assert forall|a: (bool, WindowView), b: (bool, WindowView), c: (bool, WindowView)|
        #![trigger before(a, b), before(b, c)]
        !before(a, b) && !before(b, c) implies !before(a, c) by {
        if a.0 == b.0 && b.0 == c.0 && lex_lt(a.1.title, c.1.title) {
            if a.1.title != b.1.title {
                lemma_lex_total(a.1.title, b.1.title);
            }
            if b.1.title != c.1.title {
                lemma_lex_total(b.1.title, c.1.title);
            }
            if a.1.title == b.1.title {
                if b.1.title != c.1.title {
                    lemma_lex_transitive(c.1.title, b.1.title, a.1.title);
                    lemma_lex_transitive(a.1.title, c.1.title, a.1.title);
                    lemma_lex_irreflexive(a.1.title);
                } else {
                    lemma_lex_irreflexive(a.1.title);
                }
            } else if b.1.title == c.1.title {
                lemma_lex_transitive(a.1.title, c.1.title, a.1.title);
                lemma_lex_irreflexive(a.1.title);
            } else {
                lemma_lex_transitive(c.1.title, b.1.title, a.1.title);
                lemma_lex_transitive(a.1.title, c.1.title, a.1.title);
                lemma_lex_irreflexive(a.1.title);
            }
        }
    }
}

/// Each window a keyword matches is paired with whether its title, in lower
/// case, is the keyword.
proof fn lemma_matching_exact(ws: Seq<WindowView>, kw: Seq<char>, own_pid: u32)
    ensures
        forall|k: int|
            0 <= k < matching_windows(ws, kw, own_pid).len() ==> (#[trigger] matching_windows(ws, kw, own_pid)[k]).0
                == (lowercase(matching_windows(ws, kw, own_pid)[k].1.title) == kw),
    decreases ws.len(),
{
    if ws.len() > 0 {
        lemma_matching_exact(ws.drop_last(), kw, own_pid);
        let r = matching_windows(ws.drop_last(), kw, own_pid);
        assert forall|k: int| 0 <= k < r.len() implies #[trigger] r[k] == r.push(
            (lowercase(ws.last().title) == kw, ws.last()),
        )[k] by {}
    }
}

/// The windows a keyword finds come ranked: those whose title (ignoring
/// case) is the keyword first, and within each part, titles in order.
pub proof fn lemma_found_windows_ranked(ws: Seq<WindowView>, keyword: Seq<char>, own_pid: u32)
    ensures
        ({
            let f = found_windows(ws, keyword, own_pid);
            let kw = lowercase(keyword);
            forall|i: int, j: int|
                0 <= i < j < f.len() ==> {
                    &&& (lowercase((#[trigger] f[j]).title) == kw ==> lowercase((#[trigger] f[i]).title) == kw)
                    &&& ((lowercase(f[i].title) == kw) == (lowercase(f[j].title) == kw) ==> !lex_lt(
                        f[j].title,
                        f[i].title,
                    ))
                }
        }),
{
    let kw = lowercase(keyword);
    let before = |a: (bool, WindowView), b: (bool, WindowView)| window_before(a, b);
    let m = matching_windows(ws, kw, own_pid);
    let r = sorted_by(m, before);
    lemma_window_order();
    lemma_sorted_by_in_order(m, before);
    lemma_matching_exact(ws, kw, own_pid);
    let prop = |p: (bool, WindowView)| p.0 == (lowercase(p.1.title) == kw);
    assert forall|k: int| 0 <= k < m.len() implies prop(#[trigger] m[k]) by {}
    lemma_sorted_by_all(m, before, prop);
    let f = found_windows(ws, keyword, own_pid);
    assert(f == r.map_values(|p: (bool, WindowView)| p.1));
    assert forall|i: int, j: int| 0 <= i < j < f.len() implies {
        &&& (lowercase((#[trigger] f[j]).title) == kw ==> lowercase((#[trigger] f[i]).title) == kw)
        &&& ((lowercase(f[i].title) == kw) == (lowercase(f[j].title) == kw) ==> !lex_lt(f[j].title, f[i].title))
    } by {
        assert(f[i] == r[i].1 && f[j] == r[j].1);
        assert(prop(r[i]) && prop(r[j]));
        assert(!before(r[j], r[i]));
    }
}

/// A keyword finds a window: its title, in lower case, contains the keyword
/// in lower case, and another process owns it.
pub open spec fn keyword_finds(w: WindowView, keyword: Seq<char>, own_pid: u32) -> bool {
    contains(lowercase(w.title), lowercase(keyword)) && w.pid != own_pid
}

/// The test `keyword_finds` for a keyword and this process.
pub open spec fn finds(keyword: Seq<char>, own_pid: u32) -> spec_fn(WindowView) -> bool {
    |w: WindowView| keyword_finds(w, keyword, own_pid)
}

proof fn lemma_matching_filter(ws: Seq<WindowView>, keyword: Seq<char>, own_pid: u32)
    ensures
        matching_windows(ws, lowercase(keyword), own_pid).map_values(|p: (bool, WindowView)| p.1) == ws.filter(
            finds(keyword, own_pid),
        ),
    decreases ws.len(),
{
    reveal(Seq::filter);
    if ws.len() > 0 {
        assert(ws.filter(finds(keyword, own_pid)) == if finds(keyword, own_pid)(ws.last()) {
            ws.drop_last().filter(finds(keyword, own_pid)).push(ws.last())
        } else {
            ws.drop_last().filter(finds(keyword, own_pid))
        });
        lemma_matching_filter(ws.drop_last(), keyword, own_pid);
        let m = matching_windows(ws.drop_last(), lowercase(keyword), own_pid);
        let w = ws.last();
        assert(m.push((lowercase(w.title) == lowercase(keyword), w)).map_values(|p: (bool, WindowView)| p.1)
            =~= m.map_values(|p: (bool, WindowView)| p.1).push(w));
    }
}

/// The windows a keyword finds are exactly the listed windows it matches,
/// each as often as it is listed: ranking only reorders them.
pub proof fn lemma_found_windows_permutation(ws: Seq<WindowView>, keyword: Seq<char>, own_pid: u32)
    ensures
        found_windows(ws, keyword, own_pid).to_multiset() == ws.filter(finds(keyword, own_pid)).to_multiset(),
{
    let m = matching_windows(ws, lowercase(keyword), own_pid);
    lemma_sorted_by_map_multiset(m, |a: (bool, WindowView), b: (bool, WindowView)| window_before(a, b), |p: (bool, WindowView)| p.1);
    lemma_matching_filter(ws, keyword, own_pid);
}

} // verus!
