//! A stable sort by numeric key (`slice::sort_by_key`): elements with equal
//! keys keep their order.

use vstd::prelude::*;

verus! {

/// Where an element with key `k` goes in `s`: after every element, counted
/// from the end, whose key is not greater than `k`.
pub open spec fn ins_pos<T>(s: Seq<(u128, T)>, k: u128) -> int
    decreases s.len(),
{
    if s.len() == 0 {
        0
    } else if s.last().0 > k {
        ins_pos(s.drop_last(), k)
    } else {
        s.len() as int
    }
}

/// The elements of `s` ordered by key, equal keys in the order they were given.
pub open spec fn sorted_by_key<T>(s: Seq<(u128, T)>) -> Seq<(u128, T)>
    decreases s.len(),
{
    if s.len() == 0 {
        Seq::empty()
    } else {
        let r = sorted_by_key(s.drop_last());
        r.insert(ins_pos(r, s.last().0), s.last())
    }
}

/// The insertion point lies within the sequence.
pub proof fn lemma_ins_pos_bounds<T>(s: Seq<(u128, T)>, k: u128)
    ensures
        0 <= ins_pos(s, k) <= s.len(),
    decreases s.len(),
{
    if s.len() > 0 {
        lemma_ins_pos_bounds(s.drop_last(), k);
    }
}

/// Sorting keeps the length.
pub proof fn lemma_sorted_len<T>(s: Seq<(u128, T)>)
    ensures
        sorted_by_key(s).len() == s.len(),
    decreases s.len(),
{
    if s.len() > 0 {
        lemma_sorted_len(s.drop_last());
        lemma_ins_pos_bounds(sorted_by_key(s.drop_last()), s.last().0);
    }
}

/// The keys never decrease along `s`.
pub open spec fn keys_ascending<T>(s: Seq<(u128, T)>) -> bool {
    forall|i: int, j: int| 0 <= i <= j < s.len() ==> s[i].0 <= s[j].0
}

proof fn lemma_ins_pos<T>(s: Seq<(u128, T)>, k: u128)
    requires
        keys_ascending(s),
    ensures
        0 <= ins_pos(s, k) <= s.len(),
        forall|i: int| 0 <= i < ins_pos(s, k) ==> s[i].0 <= k,
        forall|i: int| ins_pos(s, k) <= i < s.len() ==> s[i].0 > k,
    decreases s.len(),
{
    if s.len() > 0 {
        let d = s.drop_last();
        assert forall|i: int, j: int| 0 <= i <= j < d.len() implies d[i].0 <= d[j].0 by {
            assert(d[i] == s[i] && d[j] == s[j]);
        }
        lemma_ins_pos(d, k);
        if s.last().0 > k {
            assert forall|i: int| ins_pos(s, k) <= i < s.len() implies s[i].0 > k by {
                if i < d.len() {
                    assert(d[i] == s[i]);
                }
            }
            assert forall|i: int| 0 <= i < ins_pos(s, k) implies s[i].0 <= k by {
                assert(d[i] == s[i]);
            }
        } else {
            assert forall|i: int| 0 <= i < ins_pos(s, k) implies s[i].0 <= k by {
                assert(s[i].0 <= s.last().0);
            }
        }
    }
}

/// The sorted sequence has ascending keys and holds exactly the elements
/// it was given, as many times each.
pub proof fn lemma_sorted_by_key<T>(s: Seq<(u128, T)>)
    ensures
        keys_ascending(sorted_by_key(s)),
        sorted_by_key(s).to_multiset() == s.to_multiset(),
        sorted_by_key(s).len() == s.len(),
    decreases s.len(),
{
    broadcast use vstd::seq_lib::group_seq_properties;
    broadcast use vstd::multiset::group_multiset_axioms;
    if s.len() > 0 {
        let d = s.drop_last();
        let x = s.last();
        lemma_sorted_by_key(d);
        let r = sorted_by_key(d);
        lemma_ins_pos(r, x.0);
        let p = ins_pos(r, x.0);
        let t = r.insert(p, x);
        assert forall|i: int, j: int| 0 <= i <= j < t.len() implies t[i].0 <= t[j].0 by {
            if i < p && j < p {
            } else if i < p && j == p {
            } else if i < p {
                assert(t[j] == r[j - 1]);
            } else if i == p && j == p {
            } else if i == p {
                assert(t[j] == r[j - 1]);
            } else {
                assert(t[i] == r[i - 1] && t[j] == r[j - 1]);
            }
        }
        r.to_multiset_ensures();
        assert(s =~= d.push(x));
        d.to_multiset_ensures();
        vstd::seq_lib::lemma_multiset_commutative(r.take(p), seq![x] + r.skip(p));
        assert(t =~= r.take(p) + (seq![x] + r.skip(p)));
        assert(r =~= r.take(p) + r.skip(p));
        vstd::seq_lib::lemma_multiset_commutative(r.take(p), r.skip(p));
        vstd::seq_lib::lemma_multiset_commutative(seq![x], r.skip(p));
        assert(t.to_multiset() =~= r.to_multiset().insert(x));
    }
}

/// Sort by key, keeping equal keys in the order they were given.
pub fn sort_by_key<T>(v: Vec<(u128, T)>) -> (r: Vec<(u128, T)>)
    ensures
        r@ == sorted_by_key(v@),
{
    let ghost s = v@;
    let mut out: Vec<(u128, T)> = Vec::new();
    let mut rest = v;
    let n = rest.len();
    let mut i: usize = 0;
    assert(s.take(0) =~= Seq::<(u128, T)>::empty());
    while rest.len() > 0
        invariant
            s.len() == n,
            i + rest@.len() == n,
            forall|j: int| 0 <= j < rest@.len() ==> #[trigger] rest@[j] == s[i + j],
            out@ == sorted_by_key(s.take(i as int)),
        decreases rest@.len(),
    {
        let x = rest.remove(0);
        assert(x == s[i as int]);
        assert(s.take(i + 1).drop_last() =~= s.take(i as int));
        let k = x.0;
        // Find the place from the end.
        let mut p = out.len();
        assert(out@.take(p as int) =~= out@);
        while p > 0 && out[p - 1].0 > k
            invariant
                p <= out@.len(),
                ins_pos(out@, k) == ins_pos(out@.take(p as int), k),
            decreases p,
        {
            assert(out@.take(p as int).drop_last() =~= out@.take(p - 1));
            p = p - 1;
        }
        proof {
            if p > 0 {
                assert(out@.take(p as int).last() == out@[p - 1]);
            }
        }
        out.insert(p, x);
        i = i + 1;
    }
    assert(s.take(i as int) =~= s);
    out
}


/// Each element with its payload mapped by `f`, keys kept.
pub open spec fn map_payload<T, U>(s: Seq<(u128, T)>, f: spec_fn(T) -> U) -> Seq<(u128, U)> {
    s.map_values(|p: (u128, T)| (p.0, f(p.1)))
}

proof fn lemma_ins_pos_map<T, U>(s: Seq<(u128, T)>, f: spec_fn(T) -> U, k: u128)
    ensures
        ins_pos(map_payload(s, f), k) == ins_pos(s, k),
    decreases s.len(),
{
    if s.len() > 0 {
        assert(map_payload(s, f).drop_last() =~= map_payload(s.drop_last(), f));
        lemma_ins_pos_map(s.drop_last(), f, k);
    }
}

/// Sorting depends on the keys only: mapping the payloads before or after
/// sorting gives the same sequence.
pub proof fn lemma_sorted_map<T, U>(s: Seq<(u128, T)>, f: spec_fn(T) -> U)
    ensures
        sorted_by_key(map_payload(s, f)) == map_payload(sorted_by_key(s), f),
    decreases s.len(),
{
    if s.len() > 0 {
        let d = s.drop_last();
        lemma_sorted_map(d, f);
        assert(map_payload(s, f).drop_last() =~= map_payload(d, f));
        let r = sorted_by_key(d);
        lemma_ins_pos_map(r, f, s.last().0);
        lemma_ins_pos_bounds(r, s.last().0);
        assert(map_payload(r.insert(ins_pos(r, s.last().0), s.last()), f) =~= map_payload(r, f).insert(
            ins_pos(r, s.last().0),
            (s.last().0, f(s.last().1)),
        ));
    }
}


/// Where `x` goes in `s` when sorting with the strict order `before`: after
/// every element, counted from the end, that `x` does not come before.
pub open spec fn ins_pos_by<T>(s: Seq<T>, x: T, before: spec_fn(T, T) -> bool) -> int
    decreases s.len(),
{
    if s.len() == 0 {
        0
    } else if before(x, s.last()) {
        ins_pos_by(s.drop_last(), x, before)
    } else {
        s.len() as int
    }
}

/// The elements of `s` ordered by the strict order `before`, elements that
/// neither comes before the other in the order they were given
/// (`slice::sort_by`).
pub open spec fn sorted_by<T>(s: Seq<T>, before: spec_fn(T, T) -> bool) -> Seq<T>
    decreases s.len(),
{
    if s.len() == 0 {
        Seq::empty()
    } else {
        let r = sorted_by(s.drop_last(), before);
        r.insert(ins_pos_by(r, s.last(), before), s.last())
    }
}

/// The insertion point lies within the sequence.
pub proof fn lemma_ins_pos_by_bounds<T>(s: Seq<T>, x: T, before: spec_fn(T, T) -> bool)
    ensures
        0 <= ins_pos_by(s, x, before) <= s.len(),
    decreases s.len(),
{
    if s.len() > 0 {
        lemma_ins_pos_by_bounds(s.drop_last(), x, before);
    }
}

/// Sorting by `before` keeps every element as often as it occurs, also when
/// the elements are looked at through `f`.
pub proof fn lemma_sorted_by_map_multiset<T, U>(s: Seq<T>, before: spec_fn(T, T) -> bool, f: spec_fn(T) -> U)
    ensures
        sorted_by(s, before).map_values(f).to_multiset() == s.map_values(f).to_multiset(),
    decreases s.len(),
{
    if s.len() > 0 {
        let x = s.last();
        let r = sorted_by(s.drop_last(), before);
        let i = ins_pos_by(r, x, before);
        lemma_sorted_by_map_multiset(s.drop_last(), before, f);
        lemma_ins_pos_by_bounds(r, x, before);
        assert(sorted_by(s, before) == r.insert(i, x));
        assert(r.insert(i, x).map_values(f) =~= r.map_values(f).insert(i, f(x)));
        vstd::seq_lib::to_multiset_insert(r.map_values(f), i, f(x));
        assert(s.map_values(f) =~= s.drop_last().map_values(f).push(f(x)));
        vstd::seq_lib::to_multiset_build(s.drop_last().map_values(f), f(x));
        assert(sorted_by(s, before).map_values(f).to_multiset() == r.map_values(f).to_multiset().insert(f(x)));
        assert(r.map_values(f).to_multiset() == s.drop_last().map_values(f).to_multiset());
        assert(s.map_values(f).to_multiset() == s.drop_last().map_values(f).push(f(x)).to_multiset());
        assert(s.drop_last().map_values(f).push(f(x)).to_multiset() == s.drop_last().map_values(f).to_multiset().insert(f(x)));
    } else {
        assert(sorted_by(s, before).map_values(f) =~= s.map_values(f));
    }
}


/// `before` never holds both ways between two elements.
pub open spec fn asymmetric<T>(before: spec_fn(T, T) -> bool) -> bool {
    forall|a: T, b: T| #[trigger] before(a, b) ==> !before(b, a)
}

/// When neither `a` before `b` nor `b` before `c`, then not `a` before `c`
/// (elements that are not in order stay so through a third one).
pub open spec fn negatively_transitive<T>(before: spec_fn(T, T) -> bool) -> bool {
    forall|a: T, b: T, c: T| #![trigger before(a, b), before(b, c)] !before(a, b) && !before(b, c) ==> !before(a, c)
}

/// No element of `s` comes, by `before`, before one listed earlier.
pub open spec fn in_order<T>(s: Seq<T>, before: spec_fn(T, T) -> bool) -> bool {
    forall|i: int, j: int| 0 <= i < j < s.len() ==> !before(#[trigger] s[j], #[trigger] s[i])
}

/// The insertion point: every element from it on comes after `x`, and the
/// one just before it does not.
proof fn lemma_ins_pos_by_place<T>(s: Seq<T>, x: T, before: spec_fn(T, T) -> bool)
    ensures
        forall|k: int| ins_pos_by(s, x, before) <= k < s.len() ==> before(x, #[trigger] s[k]),
        ins_pos_by(s, x, before) > 0 ==> !before(x, s[ins_pos_by(s, x, before) - 1]),
    decreases s.len(),
{
    if s.len() > 0 {
        lemma_ins_pos_by_place(s.drop_last(), x, before);
        lemma_ins_pos_by_bounds(s.drop_last(), x, before);
        if before(x, s.last()) {
            assert forall|k: int| ins_pos_by(s, x, before) <= k < s.len() implies before(x, #[trigger] s[k]) by {
                if k < s.len() - 1 {
                    assert(s[k] == s.drop_last()[k]);
                }
            }
            let p = ins_pos_by(s, x, before);
            if p > 0 {
                assert(s[p - 1] == s.drop_last()[p - 1]);
            }
        }
    }
}

/// Sorting with an asymmetric, negatively transitive order leaves no element
/// before one listed earlier.
pub proof fn lemma_sorted_by_in_order<T>(s: Seq<T>, before: spec_fn(T, T) -> bool)
    requires
        asymmetric(before),
        negatively_transitive(before),
    ensures
        in_order(sorted_by(s, before), before),
        sorted_by(s, before).len() == s.len(),
    decreases s.len(),
{
    if s.len() > 0 {
        let r = sorted_by(s.drop_last(), before);
        let x = s.last();
        lemma_sorted_by_in_order(s.drop_last(), before);
        lemma_ins_pos_by_bounds(r, x, before);
        lemma_ins_pos_by_place(r, x, before);
        let p = ins_pos_by(r, x, before);
        let t = r.insert(p, x);
        assert forall|i: int, j: int| 0 <= i < j < t.len() implies !before(#[trigger] t[j], #[trigger] t[i]) by {
            if j < p {
                assert(t[i] == r[i] && t[j] == r[j]);
            } else if i > p {
                assert(t[i] == r[i - 1] && t[j] == r[j - 1]);
            } else if i < p && j > p {
                assert(t[i] == r[i] && t[j] == r[j - 1]);
            } else if j == p {
                assert(t[i] == r[i] && t[j] == x);
                if i < p - 1 {
                    assert(!before(r[p - 1], r[i]));
                    assert(!before(x, r[p - 1]));
                }
            } else {
                assert(i == p && t[i] == x && t[j] == r[j - 1]);
                assert(before(x, r[j - 1]));
            }
        }
    }
}

/// Sorting keeps the elements: a property of every element of `s` holds of
/// every element of the sorted sequence.
pub proof fn lemma_sorted_by_all<T>(s: Seq<T>, before: spec_fn(T, T) -> bool, prop: spec_fn(T) -> bool)
    requires
        forall|k: int| 0 <= k < s.len() ==> prop(#[trigger] s[k]),
    ensures
        forall|k: int| 0 <= k < sorted_by(s, before).len() ==> prop(#[trigger] sorted_by(s, before)[k]),
        sorted_by(s, before).len() == s.len(),
    decreases s.len(),
{
    if s.len() > 0 {
        let r = sorted_by(s.drop_last(), before);
        let x = s.last();
        assert forall|k: int| 0 <= k < s.drop_last().len() implies prop(#[trigger] s.drop_last()[k]) by {
            assert(s.drop_last()[k] == s[k]);
        }
        lemma_sorted_by_all(s.drop_last(), before, prop);
        lemma_ins_pos_by_bounds(r, x, before);
        let p = ins_pos_by(r, x, before);
        let t = r.insert(p, x);
        assert forall|k: int| 0 <= k < t.len() implies prop(#[trigger] t[k]) by {
            if k < p {
                assert(t[k] == r[k]);
            } else if k > p {
                assert(t[k] == r[k - 1]);
            }
        }
    }
}

} // verus!
