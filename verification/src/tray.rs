//! The tray icon's hollow centre: the transparent pixels of the logo that
//! cannot be reached from the image's edge through transparent pixels (the
//! part lit up to signal unread notifications).

use vstd::prelude::*;
use vstd::arithmetic::div_mod::{lemma_fundamental_div_mod, lemma_fundamental_div_mod_converse};

verus! {

/// A pixel counts as transparent when its alpha is at most this.
pub const CLEAR_ALPHA: u8 = 32;

/// Pixel `i` of an RGBA buffer is transparent.
pub open spec fn clear(rgba: Seq<u8>, i: int) -> bool {
    rgba[i * 4 + 3] <= CLEAR_ALPHA
}

/// Pixel `i` of a `w`×`h` image lies on its edge.
pub open spec fn on_edge(w: int, h: int, i: int) -> bool {
    0 <= i < w * h && (i % w == 0 || i % w == w - 1 || i / w == 0 || i / w == h - 1)
}

/// Pixel `j` is a left, right, upper or lower neighbour of pixel `i`.
pub open spec fn next_to(w: int, h: int, i: int, j: int) -> bool {
    ||| (i % w > 0 && j == i - 1)
    ||| (i % w + 1 < w && j == i + 1)
    ||| (i / w > 0 && j == i - w)
    ||| (i / w + 1 < h && j == i + w)
}

/// `s` holds every transparent edge pixel and, with each of its pixels,
/// every transparent neighbour.
pub open spec fn closed(rgba: Seq<u8>, w: int, h: int, s: Set<int>) -> bool {
    &&& forall|i: int| on_edge(w, h, i) && clear(rgba, i) ==> #[trigger] s.contains(i)
    &&& forall|i: int, j: int|
        0 <= i < w * h && #[trigger] s.contains(i) && #[trigger] next_to(w, h, i, j) && clear(rgba, j)
            ==> s.contains(j)
}

/// Pixel `k` belongs to every closed set: it can be reached from the edge
/// through transparent pixels.
pub open spec fn reachable(rgba: Seq<u8>, w: int, h: int, k: int) -> bool {
    forall|s: Set<int>| #[trigger] closed(rgba, w, h, s) ==> s.contains(k)
}

/// The pixels marked in a mask, as a set.
pub open spec fn marked(m: Seq<bool>) -> Set<int> {
    Set::new(|k: int| 0 <= k < m.len() && m[k])
}

/// How many pixels a mask marks.
pub open spec fn count_marked(m: Seq<bool>) -> nat
    decreases m.len(),
{
    if m.len() == 0 {
        0
    } else {
        count_marked(m.drop_last()) + if m.last() {
            1nat
        } else {
            0nat
        }
    }
}

proof fn lemma_count_bounds(m: Seq<bool>)
    ensures
        count_marked(m) <= m.len(),
    decreases m.len(),
{
    if m.len() > 0 {
        lemma_count_bounds(m.drop_last());
    }
}

proof fn lemma_count_mark(m: Seq<bool>, j: int)
    requires
        0 <= j < m.len(),
        !m[j],
    ensures
        count_marked(m.update(j, true)) == count_marked(m) + 1,
    decreases m.len(),
{
    let u = m.update(j, true);
    if j == m.len() - 1 {
        assert(u.drop_last() =~= m.drop_last());
    } else {
        assert(u.drop_last() =~= m.drop_last().update(j, true));
        lemma_count_mark(m.drop_last(), j);
    }
}

/// The neighbours of a pixel lie inside the image.
proof fn lemma_neighbours(w: int, h: int, i: int)
    requires
        w > 0,
        h > 0,
        0 <= i < w * h,
    ensures
        i % w > 0 ==> i - 1 >= 0,
        i % w + 1 < w ==> i + 1 < w * h,
        i / w > 0 ==> i - w >= 0,
        i / w + 1 < h ==> i + w < w * h,
        0 <= i % w < w,
        0 <= i / w < h,
{
    lemma_fundamental_div_mod(i, w);
    let q = i / w;
    let r = i % w;
    assert(0 <= r < w);
    assert(0 <= q) by (nonlinear_arith)
        requires i == w * q + r, 0 <= r < w, i >= 0, w > 0;
    assert(q < h) by (nonlinear_arith)
        requires i == w * q + r, 0 <= r, i < w * h, w > 0;
    assert(q + 1 < h ==> i + w < w * h) by (nonlinear_arith)
        requires i == w * q + r, r < w, w > 0;
    assert(q > 0 ==> i - w >= 0) by (nonlinear_arith)
        requires i == w * q + r, r >= 0, w > 0;
    assert(r + 1 < w ==> i + 1 < w * h) by (nonlinear_arith)
        requires i == w * q + r, q < h, w > 0;
}

/// The flood fill's state: `ext` marks pixels reached from the edge (each
/// one transparent and reachable), `stack` holds distinct marked pixels still
/// to spread from, and every other marked pixel (but `e`) has its
/// transparent neighbours marked.
pub open spec fn fill_state(rgba: Seq<u8>, w: int, h: int, ext: Seq<bool>, stack: Seq<usize>, e: int) -> bool {
    &&& ext.len() == w * h
    &&& forall|q: int| 0 <= q < w * h && #[trigger] ext[q] ==> clear(rgba, q) && reachable(rgba, w, h, q)
    &&& forall|p: int| 0 <= p < stack.len() ==> #[trigger] stack[p] < w * h && ext[stack[p] as int]
    &&& forall|p1: int, p2: int| 0 <= p1 < p2 < stack.len() ==> stack[p1] != stack[p2]
    &&& forall|q: int, j: int|
        0 <= q < w * h && q != e && #[trigger] ext[q] && !stack.contains(q as usize) && #[trigger] next_to(
            w,
            h,
            q,
            j,
        ) && clear(rgba, j) ==> ext[j]
}

/// Mark pixel `i` if it is transparent and not marked yet, and push it.
fn mark(rgba: &[u8], w: usize, h: usize, ext: &mut Vec<bool>, stack: &mut Vec<usize>, i: usize, e: Ghost<int>)
    requires
        w > 0,
        h > 0,
        (w as int) * (h as int) * 4 <= rgba@.len(),
        i < (w as int) * (h as int),
        fill_state(rgba@, w as int, h as int, old(ext)@, old(stack)@, e@),
        clear(rgba@, i as int) ==> reachable(rgba@, w as int, h as int, i as int),
    ensures
        fill_state(rgba@, w as int, h as int, final(ext)@, final(stack)@, e@),
        final(ext)@ == if clear(rgba@, i as int) { old(ext)@.update(i as int, true) } else { old(ext)@ },
        (clear(rgba@, i as int) && !old(ext)@[i as int]) ==> final(stack)@ == old(stack)@.push(i)
            && count_marked(final(ext)@) == count_marked(old(ext)@) + 1,
        !(clear(rgba@, i as int) && !old(ext)@[i as int]) ==> final(stack)@ == old(stack)@
            && count_marked(final(ext)@) == count_marked(old(ext)@),
{
    let len = rgba.len();
    assert(i * 4 + 3 < len) by (nonlinear_arith)
        requires i < (w as int) * (h as int), (w as int) * (h as int) * 4 <= len;
    let is_clear = rgba[i * 4 + 3] <= CLEAR_ALPHA;
    if is_clear && !ext[i] {
        proof {
            lemma_count_mark(ext@, i as int);
            assert(!stack@.contains(i)) by {
                if stack@.contains(i) {
                    let p = choose|p: int| 0 <= p < stack@.len() && stack@[p] == i;
                    assert(ext@[stack@[p] as int]);
                }
            }
        }
        ext.set(i, true);
        stack.push(i);
        proof {
            let wi = w as int;
            let hi = h as int;
            assert forall|q: int, j: int|
                0 <= q < wi * hi && q != e@ && #[trigger] ext@[q] && !stack@.contains(q as usize) && #[trigger] next_to(
                    wi,
                    hi,
                    q,
                    j,
                ) && clear(rgba@, j) implies ext@[j] by {
                assert(q != i as int) by {
                    assert(stack@[stack@.len() - 1] == i);
                }
                assert(old(ext)@[q]);
                assert(!old(stack)@.contains(q as usize)) by {
                    if old(stack)@.contains(q as usize) {
                        let p = choose|p: int| 0 <= p < old(stack)@.len() && old(stack)@[p] == q as usize;
                        assert(stack@[p] == q as usize);
                    }
                }
                assert(old(ext)@[j]);
                assert(0 <= j < wi * hi) by {
                    lemma_neighbours(wi, hi, q);
                }
            }
        }
    } else if is_clear {
        assert(ext@ =~= old(ext)@.update(i as int, true));
    }
}

proof fn lemma_count_zero(m: Seq<bool>)
    requires
        forall|q: int| 0 <= q < m.len() ==> !#[trigger] m[q],
    ensures
        count_marked(m) == 0,
    decreases m.len(),
{
    if m.len() > 0 {
        lemma_count_zero(m.drop_last());
    }
}

/// An edge pixel that is transparent belongs to every closed set.
proof fn lemma_edge_reachable(rgba: Seq<u8>, w: int, h: int, i: int)
    requires
        on_edge(w, h, i),
        clear(rgba, i),
    ensures
        reachable(rgba, w, h, i),
{
    assert forall|set: Set<int>| #[trigger] closed(rgba, w, h, set) implies set.contains(i) by {}
}

/// The mask of the hollow centre of a `w`×`h` RGBA image: transparent
/// pixels that cannot be reached from the edge through transparent pixels.
pub fn hole_mask(rgba: &[u8], w: usize, h: usize) -> (r: Vec<bool>)
    requires
        w > 0,
        h > 0,
        (w as int) * (h as int) * 4 <= rgba@.len(),
    ensures
        r@.len() == (w as int) * (h as int),
        forall|i: int| 0 <= i < r@.len() ==> (#[trigger] r@[i] ==> clear(rgba@, i)),
        forall|i: int|
            0 <= i < r@.len() && clear(rgba@, i) && !#[trigger] r@[i] ==> reachable(
                rgba@,
                w as int,
                h as int,
                i,
            ),
        closed(rgba@, w as int, h as int, Set::new(|k: int| 0 <= k < r@.len() && clear(rgba@, k) && !r@[k])),
{
    let ghost wi = w as int;
    let ghost hi = h as int;
    let len = rgba.len();
    assert(wi * hi <= usize::MAX / 4) by (nonlinear_arith)
        requires wi * hi * 4 <= len, len <= usize::MAX;
    assert(wi <= wi * hi && hi <= wi * hi) by (nonlinear_arith)
        requires wi > 0, hi > 0;
    let n = w * h;
    let mut ext: Vec<bool> = Vec::new();
    let mut k: usize = 0;
    while k < n
        invariant
            k <= n,
            ext@.len() == k,
            forall|q: int| 0 <= q < k ==> !#[trigger] ext@[q],
        decreases n - k,
    {
        ext.push(false);
        k = k + 1;
    }
    proof {
        lemma_count_zero(ext@);
    }
    let mut stack: Vec<usize> = Vec::new();
    assert(fill_state(rgba@, wi, hi, ext@, stack@, -1));
    assert((h - 1) * w <= n) by (nonlinear_arith)
        requires h > 0, n == w * h;
    let last_row = (h - 1) * w;
    proof {
        assert(last_row + w == n) by (nonlinear_arith)
            requires last_row == (h - 1) * w, n == w * h;
    }
    // Seed with the transparent pixels of the top and bottom rows.
    let mut x: usize = 0;
    while x < w
        invariant
            w > 0,
            h > 0,
            n == w * h,
            wi == w,
            hi == h,
            last_row == (h - 1) * w,
            last_row + w == n,
            (w as int) * (h as int) * 4 <= rgba@.len(),
            x <= w,
            fill_state(rgba@, wi, hi, ext@, stack@, -1),
            count_marked(ext@) == stack@.len(),
            forall|q: int| 0 <= q < x ==> (clear(rgba@, q) ==> #[trigger] ext@[q]),
            forall|q: int| 0 <= q < x ==> (clear(rgba@, last_row + q) ==> #[trigger] ext@[last_row + q]),
        decreases w - x,
    {
        proof {
            lemma_fundamental_div_mod_converse(x as int, wi, 0, x as int);
            lemma_fundamental_div_mod_converse(last_row + x, wi, hi - 1, x as int);
            assert(last_row + x == (hi - 1) * wi + x) by (nonlinear_arith)
                requires last_row == (h - 1) * w, wi == w, hi == h;
            if clear(rgba@, x as int) {
                lemma_edge_reachable(rgba@, wi, hi, x as int);
            }
            if clear(rgba@, last_row + x) {
                lemma_edge_reachable(rgba@, wi, hi, last_row + x);
            }
        }
        mark(rgba, w, h, &mut ext, &mut stack, x, Ghost(-1));
        mark(rgba, w, h, &mut ext, &mut stack, last_row + x, Ghost(-1));
        x = x + 1;
    }
    // Seed with the transparent pixels of the left and right columns.
    let mut y: usize = 0;
    while y < h
        invariant
            w > 0,
            h > 0,
            n == w * h,
            wi == w,
            hi == h,
            last_row == (h - 1) * w,
            last_row + w == n,
            (w as int) * (h as int) * 4 <= rgba@.len(),
            y <= h,
            fill_state(rgba@, wi, hi, ext@, stack@, -1),
            count_marked(ext@) == stack@.len(),
            forall|q: int| 0 <= q < w ==> (clear(rgba@, q) ==> #[trigger] ext@[q]),
            forall|q: int| 0 <= q < w ==> (clear(rgba@, last_row + q) ==> #[trigger] ext@[last_row + q]),
            forall|q: int| 0 <= q < y ==> (clear(rgba@, q * wi) ==> #[trigger] ext@[q * wi]),
            forall|q: int| 0 <= q < y ==> (clear(rgba@, q * wi + wi - 1) ==> #[trigger] ext@[q * wi + wi - 1]),
        decreases h - y,
    {
        assert(y * w + w <= n) by (nonlinear_arith)
            requires y < h, n == w * h;
        let left = y * w;
        let right = y * w + w - 1;
        proof {
            lemma_fundamental_div_mod_converse(left as int, wi, y as int, 0);
            lemma_fundamental_div_mod_converse(right as int, wi, y as int, wi - 1);
            if clear(rgba@, left as int) {
                lemma_edge_reachable(rgba@, wi, hi, left as int);
            }
            if clear(rgba@, right as int) {
                lemma_edge_reachable(rgba@, wi, hi, right as int);
            }
        }
        let ghost e0 = ext@;
        mark(rgba, w, h, &mut ext, &mut stack, left, Ghost(-1));
        mark(rgba, w, h, &mut ext, &mut stack, right, Ghost(-1));
        proof {
            assert(left as int == (y as int) * wi);
            assert(right as int == (y as int) * wi + wi - 1);
            assert forall|k: int| 0 <= k < n && e0[k] implies #[trigger] ext@[k] by {}
            assert forall|q: int| 0 <= q < y + 1 implies (clear(rgba@, q * wi) ==> #[trigger] ext@[q * wi]) by {
                if q < y {
                    assert(q * wi < n) by (nonlinear_arith)
                        requires q < y, y < h, n == w * h, wi == w, q >= 0, wi > 0;
                    if clear(rgba@, q * wi) {
                        assert(e0[q * wi]);
                    }
                }
            }
            assert forall|q: int| 0 <= q < y + 1 implies (clear(rgba@, q * wi + wi - 1) ==> #[trigger] ext@[q * wi + wi - 1]) by {
                if q < y {
                    assert(q * wi + wi - 1 < n) by (nonlinear_arith)
                        requires q < y, y < h, n == w * h, wi == w, q >= 0, wi > 0;
                    if clear(rgba@, q * wi + wi - 1) {
                        assert(e0[q * wi + wi - 1]);
                    }
                }
            }
            assert forall|q: int| 0 <= q < w implies (clear(rgba@, q) ==> #[trigger] ext@[q]) by {
                if clear(rgba@, q) {
                    assert(e0[q]);
                }
            }
            assert forall|q: int| 0 <= q < w implies (clear(rgba@, last_row + q) ==> #[trigger] ext@[last_row + q]) by {
                if clear(rgba@, last_row + q) {
                    assert(e0[last_row + q]);
                }
            }
        }
        y = y + 1;
    }
    // Every transparent edge pixel is marked.
    proof {
        assert forall|q: int| on_edge(wi, hi, q) && clear(rgba@, q) implies #[trigger] ext@[q] by {
            lemma_fundamental_div_mod(q, wi);
            lemma_neighbours(wi, hi, q);
            let qy = q / wi;
            let qx = q % wi;
            if qy == 0 {
                assert(q == qx) by (nonlinear_arith)
                    requires q == wi * qy + qx, qy == 0;
            } else if qy == hi - 1 {
                assert(q == last_row + qx) by (nonlinear_arith)
                    requires q == wi * qy + qx, qy == hi - 1, last_row == (h - 1) * w, wi == w, hi == h;
            } else if qx == 0 {
                assert(q == qy * wi) by (nonlinear_arith)
                    requires q == wi * qy + qx, qx == 0;
            } else {
                assert(q == qy * wi + wi - 1) by (nonlinear_arith)
                    requires q == wi * qy + qx, qx == wi - 1;
            }
        }
        lemma_count_bounds(ext@);
    }
    // Spread through transparent neighbours.
    while stack.len() > 0
        invariant
            w > 0,
            h > 0,
            n == w * h,
            wi == w,
            hi == h,
            (w as int) * (h as int) * 4 <= rgba@.len(),
            fill_state(rgba@, wi, hi, ext@, stack@, -1),
            forall|q: int| on_edge(wi, hi, q) && clear(rgba@, q) ==> #[trigger] ext@[q],
            count_marked(ext@) <= n,
        decreases 2 * (n - count_marked(ext@)) + stack@.len(),
    {
        let ghost e0 = ext@;
        spread_step(rgba, w, h, &mut ext, &mut stack);
        proof {
            assert forall|q: int| on_edge(wi, hi, q) && clear(rgba@, q) implies #[trigger] ext@[q] by {
                assert(e0[q]);
            }
        }
    }
    let mut r: Vec<bool> = Vec::new();
    let mut k: usize = 0;
    while k < n
        invariant
            n == w * h,
            wi == w,
            hi == h,
            (w as int) * (h as int) * 4 <= rgba@.len(),
            ext@.len() == n,
            k <= n,
            r@.len() == k,
            forall|q: int| 0 <= q < k ==> #[trigger] r@[q] == (clear(rgba@, q) && !ext@[q]),
        decreases n - k,
    {
        let len = rgba.len();
        assert(k * 4 + 3 < len) by (nonlinear_arith)
            requires k < n, n == w * h, (w as int) * (h as int) * 4 <= len;
        r.push(rgba[k * 4 + 3] <= CLEAR_ALPHA && !ext[k]);
        k = k + 1;
    }
    proof {
        let set = Set::new(|q: int| 0 <= q < r@.len() && clear(rgba@, q) && !r@[q]);
        assert forall|q: int| on_edge(wi, hi, q) && clear(rgba@, q) implies #[trigger] set.contains(q) by {
            assert(ext@[q]);
        }
        assert forall|q: int, j: int|
            0 <= q < wi * hi && #[trigger] set.contains(q) && #[trigger] next_to(wi, hi, q, j) && clear(rgba@, j)
                implies set.contains(j) by {
            lemma_neighbours(wi, hi, q);
            assert(ext@[q]);
            assert(!stack@.contains(q as usize));
            assert(ext@[j]);
        }
    }
    r
}


/// Spread from the pixel on top of the stack: mark its transparent
/// neighbours.
#[verifier::rlimit(50)]
fn spread_step(rgba: &[u8], w: usize, h: usize, ext: &mut Vec<bool>, stack: &mut Vec<usize>)
    requires
        w > 0,
        h > 0,
        (w as int) * (h as int) * 4 <= rgba@.len(),
        old(stack)@.len() > 0,
        fill_state(rgba@, w as int, h as int, old(ext)@, old(stack)@, -1),
    ensures
        fill_state(rgba@, w as int, h as int, final(ext)@, final(stack)@, -1),
        forall|q: int| 0 <= q < old(ext)@.len() && old(ext)@[q] ==> #[trigger] final(ext)@[q],
        count_marked(final(ext)@) <= (w as int) * (h as int),
        2 * ((w as int) * (h as int) - count_marked(final(ext)@)) + final(stack)@.len() < 2 * ((w as int) * (h
            as int) - count_marked(old(ext)@)) + old(stack)@.len(),
{
    let ghost wi = w as int;
    let ghost hi = h as int;
    let len = rgba.len();
    assert(wi * hi <= len) by (nonlinear_arith)
        requires wi * hi * 4 <= len, wi > 0, hi > 0;
    proof {
        lemma_count_bounds(ext@);
    }
    let ghost st = stack@;
    let i = stack.pop().unwrap();
    let ghost ii = i as int;
    proof {
        assert(stack@ =~= st.drop_last());
        assert(i == st[st.len() - 1]);
        lemma_neighbours(wi, hi, ii);
        assert(!stack@.contains(i)) by {
            if stack@.contains(i) {
                let p = choose|p: int| 0 <= p < stack@.len() && stack@[p] == i;
                assert(st[p] == stack@[p]);
            }
        }
        assert forall|q: int, j: int|
            0 <= q < wi * hi && q != ii && #[trigger] ext@[q] && !stack@.contains(q as usize) && #[trigger] next_to(
                wi,
                hi,
                q,
                j,
            ) && clear(rgba@, j) implies ext@[j] by {
            assert(!st.contains(q as usize)) by {
                if st.contains(q as usize) {
                    let p = choose|p: int| 0 <= p < st.len() && st[p] == q as usize;
                    if p < st.len() - 1 {
                        assert(stack@[p] == st[p]);
                    } else {
                        assert(st[p] == i);
                        assert(q == ii);
                    }
                }
            }
        }
        assert forall|p: int| 0 <= p < stack@.len() implies #[trigger] stack@[p] < wi * hi && ext@[stack@[p] as int] by {
            assert(stack@[p] == st[p]);
        }
        assert forall|p1: int, p2: int| 0 <= p1 < p2 < stack@.len() implies stack@[p1] != stack@[p2] by {
            assert(stack@[p1] == st[p1] && stack@[p2] == st[p2]);
        }
    }
    assert(fill_state(rgba@, wi, hi, ext@, stack@, ii));
    assert(ext@[ii] && reachable(rgba@, wi, hi, ii));
    let x = i % w;
    let y = i / w;
    if x > 0 {
        proof {
            lemma_spread(rgba@, wi, hi, ii, (i - 1) as int);
        }
        mark(rgba, w, h, ext, stack, i - 1, Ghost(ii));
    }
    if x + 1 < w {
        proof {
            lemma_spread(rgba@, wi, hi, ii, (i + 1) as int);
        }
        mark(rgba, w, h, ext, stack, i + 1, Ghost(ii));
    }
    if y > 0 {
        proof {
            lemma_spread(rgba@, wi, hi, ii, (i - w) as int);
        }
        mark(rgba, w, h, ext, stack, i - w, Ghost(ii));
    }
    if y + 1 < h {
        proof {
            lemma_spread(rgba@, wi, hi, ii, (i + w) as int);
        }
        mark(rgba, w, h, ext, stack, i + w, Ghost(ii));
    }
    proof {
        lemma_count_bounds(ext@);
        assert forall|q: int, j: int|
            0 <= q < wi * hi && #[trigger] ext@[q] && !stack@.contains(q as usize) && #[trigger] next_to(
                wi,
                hi,
                q,
                j,
            ) && clear(rgba@, j) implies ext@[j] by {
            if q == ii {
                assert(ext@[j]);
            }
        }
    }
}

// ── The glow around the hollow centre ───────────────────────────────────────

/// Some neighbour of pixel `i` is marked in `m`.
pub open spec fn touches(m: Seq<bool>, w: int, h: int, i: int) -> bool {
    exists|j: int| #[trigger] next_to(w, h, i, j) && m[j]
}

/// How far (in steps between neighbouring pixels) pixel `i` lies from the
/// marked pixels, when that is at most 2; 255 when it is farther.
pub open spec fn glow_level(m: Seq<bool>, w: int, h: int, i: int) -> u8 {
    if m[i] {
        0
    } else if touches(m, w, h, i) {
        1
    } else if exists|j: int| #[trigger] next_to(w, h, i, j) && touches(m, w, h, j) {
        2
    } else {
        255
    }
}

/// The neighbours of a pixel are pixels of the image.
proof fn lemma_next_in_range(w: int, h: int, i: int, j: int)
    requires
        w > 0,
        h > 0,
        0 <= i < w * h,
        next_to(w, h, i, j),
    ensures
        0 <= j < w * h,
{
    lemma_neighbours(w, h, i);
}

fn neighbour_marked(m: &Vec<bool>, w: usize, h: usize, i: usize) -> (r: bool)
    requires
        w > 0,
        h > 0,
        m@.len() == (w as int) * (h as int),
        i < (w as int) * (h as int),
    ensures
        r == touches(m@, w as int, h as int, i as int),
{
    let ghost (wi, hi, ii) = (w as int, h as int, i as int);
    proof {
        lemma_neighbours(wi, hi, ii);
    }
    let len = m.len();
    let x = i % w;
    let y = i / w;
    assert(x as int == ii % wi && y as int == ii / wi && len as int == wi * hi);
    let r = (x > 0 && m[i - 1]) || (x + 1 < w && m[i + 1]) || (y > 0 && m[i - w]) || (y + 1 < h && m[i + w]);
    proof {
        if r {
            if x > 0 && m@[ii - 1] {
                assert(next_to(wi, hi, ii, ii - 1));
            } else if x + 1 < w && m@[ii + 1] {
                assert(next_to(wi, hi, ii, ii + 1));
            } else if y > 0 && m@[ii - wi] {
                assert(next_to(wi, hi, ii, ii - wi));
            } else {
                assert(next_to(wi, hi, ii, ii + wi));
            }
        }
    }
    r
}

/// The glow levels of a `w`×`h` image around the pixels marked in `hole`.
pub fn glow_levels(hole: &Vec<bool>, w: usize, h: usize) -> (r: Vec<u8>)
    requires
        w > 0,
        h > 0,
        hole@.len() == (w as int) * (h as int),
    ensures
        r@.len() == hole@.len(),
        forall|i: int| 0 <= i < r@.len() ==> #[trigger] r@[i] == glow_level(hole@, w as int, h as int, i),
{
    let n = hole.len();
    let ghost (wi, hi) = (w as int, h as int);
    let mut near: Vec<bool> = Vec::new();
    let mut i: usize = 0;
    while i < n
        invariant
            n == hole@.len(),
            n == wi * hi,
            wi == w,
            hi == h,
            w > 0,
            h > 0,
            i <= n,
            near@.len() == i,
            forall|k: int| 0 <= k < i ==> #[trigger] near@[k] == touches(hole@, wi, hi, k),
        decreases n - i,
    {
        let t = neighbour_marked(hole, w, h, i);
        near.push(t);
        i = i + 1;
    }
    let mut out: Vec<u8> = Vec::new();
    let mut i: usize = 0;
    while i < n
        invariant
            n == hole@.len(),
            n == wi * hi,
            wi == w,
            hi == h,
            w > 0,
            h > 0,
            i <= n,
            near@.len() == n,
            forall|k: int| 0 <= k < n ==> #[trigger] near@[k] == touches(hole@, wi, hi, k),
            out@.len() == i,
            forall|k: int| 0 <= k < i ==> #[trigger] out@[k] == glow_level(hole@, wi, hi, k),
        decreases n - i,
    {
        let level: u8 = if hole[i] {
            0
        } else if near[i] {
            1
        } else if neighbour_marked(&near, w, h, i) {
            2
        } else {
            255
        };
        proof {
            let ii = i as int;
            assert forall|j: int| #[trigger] next_to(wi, hi, ii, j) implies near@[j] == touches(
                hole@,
                wi,
                hi,
                j,
            ) by {
                lemma_next_in_range(wi, hi, ii, j);
            }
            if !hole@[ii] && !near@[ii] {
                if touches(near@, wi, hi, ii) {
                    let j = choose|j: int| #[trigger] next_to(wi, hi, ii, j) && near@[j];
                    assert(next_to(wi, hi, ii, j) && touches(hole@, wi, hi, j));
                }
            }
        }
        out.push(level);
        i = i + 1;
    }
    out
}

// ── The notification popup ──────────────────────────────────────────────────

/// The cursor keeps the popup open: it is over the popup (`px`, `py`, `pw`,
/// `ph`, edges included) or within 30 pixels of the tray icon on both axes.
pub open spec fn popup_kept(cx: int, cy: int, tx: int, ty: int, px: int, py: int, pw: int, ph: int) -> bool {
    (px <= cx <= px + pw && py <= cy <= py + ph) || (-30 <= cx - tx <= 30 && -30 <= cy - ty <= 30)
}

/// One look at the cursor while the popup is shown: the count of looks in a
/// row that found it away, and whether the popup is now hidden (after three
/// such looks).
pub fn popup_watch_step(misses: u32, cursor: (i32, i32), tray: (i32, i32), popup: (i32, i32, i32, i32)) -> (r: (
    u32,
    bool,
))
    ensures
        popup_kept(cursor.0 as int, cursor.1 as int, tray.0 as int, tray.1 as int, popup.0 as int, popup.1 as int, popup.2 as int, popup.3 as int)
            ==> r == (0u32, false),
        !popup_kept(cursor.0 as int, cursor.1 as int, tray.0 as int, tray.1 as int, popup.0 as int, popup.1 as int, popup.2 as int, popup.3 as int)
            ==> r == (misses.saturating_add(1), misses.saturating_add(1) >= 3),
{
    let (cx, cy) = (cursor.0 as i64, cursor.1 as i64);
    let (tx, ty) = (tray.0 as i64, tray.1 as i64);
    let (px, py, pw, ph) = (popup.0 as i64, popup.1 as i64, popup.2 as i64, popup.3 as i64);
    let over_popup = cx >= px && cx <= px + pw && cy >= py && cy <= py + ph;
    let near_tray = cx - tx >= -30 && cx - tx <= 30 && cy - ty >= -30 && cy - ty <= 30;
    if over_popup || near_tray {
        (0, false)
    } else {
        let m = misses.saturating_add(1);
        (m, m >= 3)
    }
}

/// A transparent neighbour of a reachable pixel is reachable.
proof fn lemma_spread(rgba: Seq<u8>, w: int, h: int, i: int, j: int)
    requires
        0 <= i < w * h,
        reachable(rgba, w, h, i),
        next_to(w, h, i, j),
    ensures
        clear(rgba, j) ==> reachable(rgba, w, h, j),
{
    if clear(rgba, j) {
        assert forall|set: Set<int>| #[trigger] closed(rgba, w, h, set) implies set.contains(j) by {
            assert(set.contains(i));
        }
    }
}

} // verus!
