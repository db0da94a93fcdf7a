//! Sorting and de-duplication under a caller-supplied ordering.
use vstd::prelude::*;
use vstd::multiset::Multiset;
use vstd::seq_lib::to_multiset_insert;

verus! {

broadcast use vstd::seq_lib::group_to_multiset_ensures;

/// `le` orders every pair of values and is transitive.
pub open spec fn total_preorder<T>(le: spec_fn(T, T) -> bool) -> bool {
    &&& forall|a: T, b: T| #[trigger] le(a, b) || le(b, a)
    &&& forall|a: T, b: T, c: T| #[trigger] le(a, b) && #[trigger] le(b, c) ==> le(a, c)
}

/// Each element of `s` is ordered before every later one.
pub open spec fn sorted_by_le<T>(s: Seq<T>, le: spec_fn(T, T) -> bool) -> bool {
    forall|i: int, j: int| 0 <= i < j < s.len() ==> le(#[trigger] s[i], #[trigger] s[j])
}

/// No two adjacent elements are equivalent under `eq`.
pub open spec fn adjacent_distinct<T>(s: Seq<T>, eq: spec_fn(T, T) -> bool) -> bool {
    forall|i: int| 0 <= i < s.len() - 1 ==> !eq(#[trigger] s[i], s[i + 1])
}

/// The elements of `v` ordered by `le`; the multiset of elements is unchanged.
pub fn sort_by_le<T, F: Fn(&T, &T) -> bool>(
    v: Vec<T>,
    le_exec: F,
    Ghost(le): Ghost<spec_fn(T, T) -> bool>,
) -> (res: Vec<T>)
    requires
        total_preorder(le),
        forall|a: &T, b: &T| #[trigger] call_requires(le_exec, (a, b)),
        forall|a: &T, b: &T, r: bool| #[trigger] call_ensures(le_exec, (a, b), r) ==> r == le(*a, *b),
    ensures
        res@.to_multiset() == v@.to_multiset(),
        sorted_by_le(res@, le),
{
    let ghost original = v@;
    let mut rest = v;
    let mut res: Vec<T> = Vec::new();
    while rest.len() > 0
        invariant
            total_preorder(le),
            forall|a: &T, b: &T| #[trigger] call_requires(le_exec, (a, b)),
            forall|a: &T, b: &T, r: bool| #[trigger] call_ensures(le_exec, (a, b), r) ==> r == le(*a, *b),
            res@.to_multiset().add(rest@.to_multiset()) == original.to_multiset(),
            sorted_by_le(res@, le),
        decreases rest.len(),
    {
        let ghost rest_before = rest@;
        let x = rest.pop().unwrap();
        proof {
            assert(rest_before == rest@.push(x));
        }
        let mut k: usize = 0;
        while k < res.len() && !le_exec(&x, &res[k])
            invariant
                k <= res.len(),
                total_preorder(le),
                forall|a: &T, b: &T| #[trigger] call_requires(le_exec, (a, b)),
                forall|a: &T, b: &T, r: bool| #[trigger] call_ensures(le_exec, (a, b), r) ==> r == le(*a, *b),
                forall|i: int| 0 <= i < k ==> le(#[trigger] res@[i], x),
            decreases res.len() - k,
        {
            proof {
                assert(!le(x, res@[k as int]));
                assert(le(x, res@[k as int]) || le(res@[k as int], x));
            }
            k = k + 1;
        }
        let ghost res_before = res@;
        proof {
            if k < res_before.len() {
                assert(le(x, res_before[k as int]));
                assert forall|j: int| k <= j < res_before.len() implies le(x, #[trigger] res_before[j]) by {
                    if j > k {
                        assert(le(res_before[k as int], res_before[j]));
                    }
                }
            }
        }
        res.insert(k, x);
        proof {
            res_before.insert_ensures(k as int, x);
            to_multiset_insert(res_before, k as int, x);
            assert(res@ == res_before.insert(k as int, x));
            assert(rest_before.to_multiset() == rest@.to_multiset().insert(x));
            assert(res@.to_multiset().add(rest@.to_multiset()) =~= res_before.to_multiset().add(
                rest_before.to_multiset(),
            ));
            assert forall|i: int, j: int| 0 <= i < j < res@.len() implies le(
                #[trigger] res@[i],
                #[trigger] res@[j],
            ) by {
                if j < k {
                    assert(res@[i] == res_before[i] && res@[j] == res_before[j]);
                } else if j == k {
                    assert(res@[i] == res_before[i]);
                } else if i < k {
                    assert(res@[i] == res_before[i] && res@[j] == res_before[j - 1]);
                    assert(le(res_before[i], x));
                    assert(le(x, res_before[j - 1]));
                } else if i == k {
                    assert(res@[j] == res_before[j - 1]);
                } else {
                    assert(res@[i] == res_before[i - 1] && res@[j] == res_before[j - 1]);
                }
            }
        }
    }
    proof {
        assert(rest@.to_multiset() =~= Multiset::empty());
        assert(res@.to_multiset().add(Multiset::empty()) =~= res@.to_multiset());
    }
    res
}

/// `v` with every element that is equivalent to its predecessor removed.
pub fn dedup_by_eq<T, F: Fn(&T, &T) -> bool>(
    v: Vec<T>,
    eq_exec: F,
    Ghost(eq): Ghost<spec_fn(T, T) -> bool>,
) -> (res: Vec<T>)
    requires
        forall|a: &T, b: &T| #[trigger] call_requires(eq_exec, (a, b)),
        forall|a: &T, b: &T, r: bool| #[trigger] call_ensures(eq_exec, (a, b), r) ==> r == eq(*a, *b),
    ensures
        res@ == dedup_spec(v@, eq),
{
    let ghost original = v@;
    let mut res: Vec<T> = Vec::new();
    let mut rest = v;
    let mut reversed: Vec<T> = Vec::new();
    // take the elements in their original order
    while rest.len() > 0
        invariant
            rest@ + reversed@.reverse() == original,
        decreases rest.len(),
    {
        let ghost before = rest@;
        let ghost rev_before = reversed@;
        let x = rest.pop().unwrap();
        reversed.push(x);
        proof {
            assert(reversed@.reverse() =~= seq![x] + rev_before.reverse());
            assert(before == rest@.push(x));
            assert(rest@ + reversed@.reverse() =~= before + rev_before.reverse());
        }
    }
    assert(rest@ + reversed@.reverse() == original);
    assert(reversed@.reverse() =~= original);
    let ghost mut done: Seq<T> = Seq::empty();
    while reversed.len() > 0
        invariant
            forall|a: &T, b: &T| #[trigger] call_requires(eq_exec, (a, b)),
            forall|a: &T, b: &T, r: bool| #[trigger] call_ensures(eq_exec, (a, b), r) ==> r == eq(*a, *b),
            done + reversed@.reverse() == original,
            res@ == dedup_spec(done, eq),
        decreases reversed.len(),
    {
        let ghost rev_before = reversed@;
        let x = reversed.pop().unwrap();
        proof {
            assert(rev_before == reversed@.push(x));
            assert(rev_before.reverse() =~= seq![x] + reversed@.reverse());
        }
        let keep = if res.len() == 0 {
            true
        } else {
            let last = res.len() - 1;
            !eq_exec(&res[last], &x)
        };
        proof {
            assert(done.push(x).drop_last() =~= done);
            lemma_dedup_last(done, eq);
        }
        if keep {
            res.push(x);
        }
        proof {
            done = done.push(x);
            assert(done + reversed@.reverse() =~= original);
        }
    }
    assert(done =~= original);
    res
}

/// Keep each element of `s` that is not equivalent to the last element kept before it.
pub open spec fn dedup_spec<T>(s: Seq<T>, eq: spec_fn(T, T) -> bool) -> Seq<T>
    decreases s.len(),
{
    if s.len() == 0 {
        s
    } else if s.len() == 1 {
        s
    } else {
        let prev = dedup_spec(s.drop_last(), eq);
        if prev.len() > 0 && eq(prev.last(), s.last()) {
            prev
        } else {
            prev.push(s.last())
        }
    }
}

pub proof fn lemma_dedup_last<T>(s: Seq<T>, eq: spec_fn(T, T) -> bool)
    ensures
        s.len() > 0 ==> dedup_spec(s, eq).len() > 0,
        s.len() == 0 ==> dedup_spec(s, eq).len() == 0,
    decreases s.len(),
{
    if s.len() > 1 {
        lemma_dedup_last(s.drop_last(), eq);
    }
}

/// Removing repeats keeps elements of `s`, never lengthens it, keeps it sorted, and leaves no
/// two adjacent equivalent elements.
pub proof fn lemma_dedup_sorted<T>(s: Seq<T>, le: spec_fn(T, T) -> bool, eq: spec_fn(T, T) -> bool)
    requires
        sorted_by_le(s, le),
    ensures
        sorted_by_le(dedup_spec(s, eq), le),
        adjacent_distinct(dedup_spec(s, eq), eq),
        dedup_spec(s, eq).len() <= s.len(),
        forall|k: int| 0 <= k < dedup_spec(s, eq).len() ==> s.contains(#[trigger] dedup_spec(s, eq)[k]),
    decreases s.len(),
{
    if s.len() > 1 {
        let t = s.drop_last();
        assert(sorted_by_le(t, le)) by {
            assert forall|i: int, j: int| 0 <= i < j < t.len() implies le(#[trigger] t[i], #[trigger] t[j]) by {
                assert(t[i] == s[i] && t[j] == s[j]);
            }
        }
        lemma_dedup_sorted(t, le, eq);
        let prev = dedup_spec(t, eq);
        assert forall|k: int| 0 <= k < prev.len() implies le(#[trigger] prev[k], s.last()) by {
            assert(t.contains(prev[k]));
            let i = choose|i: int| 0 <= i < t.len() && t[i] == prev[k];
            assert(s[i] == prev[k]);
        }
        assert forall|k: int| 0 <= k < prev.len() implies s.contains(#[trigger] prev[k]) by {
            assert(t.contains(prev[k]));
            let i = choose|i: int| 0 <= i < t.len() && t[i] == prev[k];
            assert(s[i] == prev[k]);
        }
        assert(s[s.len() - 1] == s.last());
    }
}

} // verus!
