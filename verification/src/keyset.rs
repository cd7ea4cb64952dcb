//! A set of texts held in a `Vec<String>` (membership by character sequence).

use vstd::prelude::*;

verus! {

/// `k` is one of the texts in `v`.
pub open spec fn has_key(v: Seq<String>, k: Seq<char>) -> bool {
    exists|i: int| 0 <= i < v.len() && #[trigger] v[i]@ == k
}

/// The texts of `v`, as a set.
pub open spec fn key_set(v: Seq<String>) -> Set<Seq<char>> {
    Set::new(|k: Seq<char>| has_key(v, k))
}

/// Membership test.
pub fn contains_key(v: &Vec<String>, k: &str) -> (r: bool)
    ensures
        r == has_key(v@, k@),
{
    let mut i: usize = 0;
    while i < v.len()
        invariant
            i <= v@.len(),
            forall|j: int| 0 <= j < i ==> v@[j]@ != k@,
        decreases v@.len() - i,
    {
        if crate::text::str_eq(v[i].as_str(), k) {
            return true;
        }
        i = i + 1;
    }
    false
}

/// Adds `k`; the result tells whether it was absent (`HashSet::insert`).
pub fn insert_key(v: &mut Vec<String>, k: &str) -> (r: bool)
    ensures
        r == !has_key(old(v)@, k@),
        key_set(final(v)@) == key_set(old(v)@).insert(k@),
{
    if contains_key(v, k) {
        assert(key_set(v@) =~= key_set(v@).insert(k@));
        false
    } else {
        let ghost before = v@;
        v.push(crate::text::owned(k));
        assert forall|x: Seq<char>| has_key(v@, x) == (has_key(before, x) || x == k@) by {
            if has_key(before, x) {
                let i = choose|i: int| 0 <= i < before.len() && #[trigger] before[i]@ == x;
                assert(v@[i]@ == x);
            }
            if x == k@ {
                assert(v@[before.len() as int]@ == x);
            }
            if has_key(v@, x) {
                let i = choose|i: int| 0 <= i < v@.len() && #[trigger] v@[i]@ == x;
                if i < before.len() {
                    assert(before[i]@ == x);
                }
            }
        }
        assert(key_set(v@) =~= key_set(before).insert(k@));
        true
    }
}

/// Keeps only the texts that satisfy membership in `keep` (`retain`).
pub fn retain_keys(v: &mut Vec<String>, keep: &Vec<String>)
    ensures
        key_set(final(v)@) == key_set(old(v)@).intersect(key_set(keep@)),
{
    let ghost before = v@;
    let mut out: Vec<String> = Vec::new();
    let mut i: usize = 0;
    while i < v.len()
        invariant
            i <= v@.len(),
            v@ == before,
            forall|x: Seq<char>|
                has_key(out@, x) == (has_key(before.take(i as int), x) && has_key(keep@, x)),
        decreases v@.len() - i,
    {
        let ghost prev = out@;
        let k = v[i].clone();
        let keep_it = contains_key(keep, k.as_str());
        if keep_it {
            out.push(k);
        }
        assert forall|x: Seq<char>|
            has_key(out@, x) == (has_key(before.take(i + 1), x) && has_key(keep@, x)) by {
            let t = before.take(i + 1);
            assert(t[i as int] == before[i as int]);
            if has_key(before.take(i as int), x) {
                let j = choose|j: int| 0 <= j < i && #[trigger] before.take(i as int)[j]@ == x;
                assert(t[j]@ == x);
            }
            if has_key(t, x) {
                let j = choose|j: int| 0 <= j < t.len() && #[trigger] t[j]@ == x;
                if j < i {
                    assert(before.take(i as int)[j]@ == x);
                }
            }
            if has_key(out@, x) {
                let j = choose|j: int| 0 <= j < out@.len() && #[trigger] out@[j]@ == x;
                if j < prev.len() {
                    assert(prev[j]@ == x);
                }
            }
            if has_key(prev, x) {
                let j = choose|j: int| 0 <= j < prev.len() && #[trigger] prev[j]@ == x;
                assert(out@[j]@ == x);
            }
            if keep_it && x == k@ {
                assert(out@[prev.len() as int]@ == x);
            }
        }
        i = i + 1;
    }
    assert(before.take(before.len() as int) =~= before);
    *v = out;
    assert(key_set(v@) =~= key_set(before).intersect(key_set(keep@)));
}

/// Removes `k` (`HashSet::remove`).
pub fn remove_key(v: &mut Vec<String>, k: &str)
    ensures
        key_set(final(v)@) == key_set(old(v)@).remove(k@),
{
    let ghost before = v@;
    let mut out: Vec<String> = Vec::new();
    let mut i: usize = 0;
    while i < v.len()
        invariant
            i <= v@.len(),
            v@ == before,
            forall|x: Seq<char>| has_key(out@, x) == (has_key(before.take(i as int), x) && x != k@),
        decreases v@.len() - i,
    {
        let ghost prev = out@;
        let e = v[i].clone();
        let same = crate::text::str_eq(e.as_str(), k);
        if !same {
            out.push(e);
        }
        assert forall|x: Seq<char>| has_key(out@, x) == (has_key(before.take(i + 1), x) && x != k@) by {
            let t = before.take(i + 1);
            assert(t[i as int] == before[i as int]);
            if has_key(before.take(i as int), x) {
                let j = choose|j: int| 0 <= j < i && #[trigger] before.take(i as int)[j]@ == x;
                assert(t[j]@ == x);
            }
            if has_key(t, x) {
                let j = choose|j: int| 0 <= j < t.len() && #[trigger] t[j]@ == x;
                if j < i {
                    assert(before.take(i as int)[j]@ == x);
                }
            }
            if has_key(out@, x) {
                let j = choose|j: int| 0 <= j < out@.len() && #[trigger] out@[j]@ == x;
                if j < prev.len() {
                    assert(prev[j]@ == x);
                }
            }
            if has_key(prev, x) {
                let j = choose|j: int| 0 <= j < prev.len() && #[trigger] prev[j]@ == x;
                assert(out@[j]@ == x);
            }
            if !same && x == e@ {
                assert(out@[prev.len() as int]@ == x);
            }
        }
        i = i + 1;
    }
    assert(before.take(before.len() as int) =~= before);
    *v = out;
    assert(key_set(v@) =~= key_set(before).remove(k@));
}

} // verus!
