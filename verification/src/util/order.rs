//! Sorting texts.

use crate::util::text;
use crate::util::text::chars_of;
use vstd::prelude::*;

verus! {

/// `a` comes before `b` or is equal to it, by the code points of the characters.
pub open spec fn text_le(a: Seq<char>, b: Seq<char>) -> bool
    decreases a.len(),
{
    if a.len() == 0 {
        true
    } else if b.len() == 0 {
        false
    } else if a[0] != b[0] {
        a[0] < b[0]
    } else {
        text_le(a.skip(1), b.skip(1))
    }
}

/// Of two texts one comes first, and the order is transitive.
pub proof fn lemma_text_le(a: Seq<char>, b: Seq<char>, c: Seq<char>)
    ensures
        text_le(a, b) || text_le(b, a),
        text_le(a, b) && text_le(b, c) ==> text_le(a, c),
    decreases a.len(),
{
    if a.len() > 0 && b.len() > 0 {
        lemma_text_le(a.skip(1), b.skip(1), c.skip(1));
    }
}

/// Whether `a` comes before `b` or is equal to it.
pub fn not_after(a: &str, b: &str) -> (r: bool)
    ensures
        r == text_le(a@, b@),
{
    let x = chars_of(a);
    let y = chars_of(b);
    let mut i: usize = 0;
    assert(x@.skip(0) =~= x@ && y@.skip(0) =~= y@);
    while i < x.len() && i < y.len()
        invariant
            x@ == a@,
            y@ == b@,
            i <= x.len(),
            i <= y.len(),
            text_le(x@, y@) == text_le(x@.skip(i as int), y@.skip(i as int)),
        decreases x.len() - i,
    {
        assert(x@.skip(i as int)[0] == x@[i as int]);
        assert(y@.skip(i as int)[0] == y@[i as int]);
        if x[i] != y[i] {
            return x[i] < y[i];
        }
        assert(x@.skip(i as int).skip(1) =~= x@.skip(i + 1));
        assert(y@.skip(i as int).skip(1) =~= y@.skip(i + 1));
        i += 1;
    }
    i == x.len()
}

/// `v` goes from the first text to the last.
pub open spec fn sorted_texts(v: Seq<Seq<char>>) -> bool {
    forall|i: int, j: int| 0 <= i < j < v.len() ==> text_le(#[trigger] v[i], #[trigger] v[j])
}

/// Puts `s` where it belongs in a sorted list.
pub fn insert_sorted(v: &mut Vec<String>, s: String)
    requires
        sorted_texts(text::texts(old(v)@)),
    ensures
        sorted_texts(text::texts(final(v)@)),
        text::texts(final(v)@).to_multiset() =~= text::texts(old(v)@).to_multiset().insert(s@),
{
    let ghost before = text::texts(v@);
    let mut p: usize = v.len();
    while p > 0 && !not_after(v[p - 1].as_str(), s.as_str())
        invariant
            p <= v.len(),
            before == text::texts(v@),
            sorted_texts(before),
            forall|i: int| p <= i < v.len() ==> text_le(s@, #[trigger] before[i]),
        decreases p,
    {
        proof {
            lemma_text_le(v@[p - 1]@, s@, s@);
            assert(before[p - 1] == v@[p - 1]@);
        }
        p -= 1;
    }
    proof {
        assert forall|i: int| 0 <= i < p implies text_le(#[trigger] before[i], s@) by {
            assert(before[p - 1] == v@[p - 1]@);
            if i < p - 1 {
                assert(text_le(before[i], before[p - 1]));
                lemma_text_le(before[i], before[p - 1], s@);
            }
        }
    }
    let ghost sv = s@;
    v.insert(p, s);
    let ghost after = text::texts(v@);
    assert(after =~= before.insert(p as int, sv));
    proof {
        before.insert_ensures(p as int, sv);
        assert forall|i: int, j: int| 0 <= i < j < after.len() implies text_le(
            #[trigger] after[i],
            #[trigger] after[j],
        ) by {
            if i != p && j != p {
                let a = if i < p {
                    i
                } else {
                    i - 1
                };
                let b = if j < p {
                    j
                } else {
                    j - 1
                };
                assert(after[i] == before[a] && after[j] == before[b]);
            } else if i == p {
                assert(after[j] == before[j - 1]);
            } else {
                assert(after[i] == before[i]);
            }
        }
        vstd::seq_lib::to_multiset_insert(before, p as int, sv);
    }
}

/// Text `a` of the list goes before text `b`: it comes first, or they are equal and it stands
/// earlier.
pub open spec fn goes_before(names: Seq<Seq<char>>, a: usize, b: usize) -> bool {
    text_le(names[a as int], names[b as int]) && (names[a as int] == names[b as int] ==> a < b)
}

/// `order` holds the numbers below `n`, each of them once.
pub open spec fn arrangement(order: Seq<usize>, n: int) -> bool {
    &&& order.len() == n
    &&& forall|i: int| 0 <= i < order.len() ==> #[trigger] order[i] < n
    &&& forall|i: int, j: int| 0 <= i < j < order.len() ==> order[i] != order[j]
    &&& forall|k: usize| k < n ==> #[trigger] order.contains(k)
}

/// One number more, wherever it is put in.
pub proof fn lemma_arrangement_insert(before: Seq<usize>, p: int, k: usize)
    requires
        arrangement(before, k as int),
        0 <= p <= before.len(),
        k < usize::MAX,
    ensures
        arrangement(before.insert(p, k), k + 1),
{
    let after = before.insert(p, k);
    assert forall|i: int, j: int| 0 <= i < j < after.len() implies after[i] != after[j] by {
        if i != p && j != p {
            let a = if i < p {
                i
            } else {
                i - 1
            };
            let b = if j < p {
                j
            } else {
                j - 1
            };
            assert(after[i] == before[a] && after[j] == before[b]);
        }
    }
    assert forall|x: usize| x < k + 1 implies #[trigger] after.contains(x) by {
        if x == k {
            assert(after[p] == k);
        } else {
            assert(before.contains(x));
            let i = choose|i: int| 0 <= i < before.len() && before[i] == x;
            if i < p {
                assert(after[i] == x);
            } else {
                assert(after[i + 1] == x);
            }
        }
    }
}

/// The numbers of the texts in sorted order; equal texts keep their order.
pub fn sorted_order(names: &[String]) -> (order: Vec<usize>)
    ensures
        arrangement(order@, names.len() as int),
        forall|i: int, j: int|
            0 <= i < j < order.len() ==> goes_before(
                text::texts(names@),
                #[trigger] order[i],
                #[trigger] order[j],
            ),
{
    let ghost all = text::texts(names@);
    let mut order: Vec<usize> = Vec::new();
    let mut k: usize = 0;
    while k < names.len()
        invariant
            k <= names.len(),
            all == text::texts(names@),
            arrangement(order@, k as int),
            forall|i: int, j: int|
                0 <= i < j < order.len() ==> goes_before(all, #[trigger] order[i], #[trigger] order[j]),
        decreases names.len() - k,
    {
        let mut p: usize = order.len();
        while p > 0 && !not_after(names[order[p - 1]].as_str(), names[k].as_str())
            invariant
                p <= order.len(),
                k < names.len(),
                order.len() == k,
                all == text::texts(names@),
                arrangement(order@, k as int),
                forall|i: int| p <= i < order.len() ==> goes_before(all, k, #[trigger] order[i]),
            decreases p,
        {
            proof {
                let q = order@[p - 1];
                assert(all[q as int] == names@[q as int]@);
                lemma_text_le(all[q as int], all[k as int], all[k as int]);
            }
            p -= 1;
        }
        proof {
            assert forall|i: int| 0 <= i < p implies goes_before(all, #[trigger] order@[i], k) by {
                let q = order@[p - 1];
                assert(all[q as int] == names@[q as int]@);
                if i < p - 1 {
                    assert(goes_before(all, order@[i], q));
                    lemma_text_le(all[order@[i] as int], all[q as int], all[k as int]);
                }
            }
        }
        let ghost before = order@;
        order.insert(p, k);
        assert(order@ =~= before.insert(p as int, k));
        assert forall|i: int, j: int| 0 <= i < j < order@.len() implies goes_before(
            all,
            #[trigger] order@[i],
            #[trigger] order@[j],
        ) by {
            let a = if i < p {
                i
            } else {
                i - 1
            };
            let b = if j < p {
                j
            } else {
                j - 1
            };
            if i != p {
                assert(order@[i] == before[a]);
            }
            if j != p {
                assert(order@[j] == before[b]);
            }
        }
        proof {
            lemma_arrangement_insert(before, p as int, k);
        }
        k += 1;
    }
    order
}

} // verus!
