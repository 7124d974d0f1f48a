//! Merging posting lists into one list of offsets, each offset once.

use vstd::prelude::*;

verus! {

/// Each element is at most the ones after it.
pub open spec fn ascending(list: Seq<u64>) -> bool {
    forall|i: int, j: int| 0 <= i < j < list.len() ==> list[i] <= list[j]
}

/// Each element is below the ones after it.
pub open spec fn strictly_ascending(list: Seq<u64>) -> bool {
    forall|i: int, j: int| 0 <= i < j < list.len() ==> list[i] < list[j]
}

/// `kept` holds the offsets that occur in `offsets`, each once, smallest first.
pub open spec fn is_distinct_ascending(kept: Seq<u64>, offsets: Seq<u64>) -> bool {
    &&& strictly_ascending(kept)
    &&& forall|x: u64| kept.contains(x) <==> offsets.contains(x)
}

/// The offsets that occur in `offsets`, each once, smallest first.
pub open spec fn distinct_ascending(offsets: Seq<u64>) -> Seq<u64> {
    choose|kept: Seq<u64>| is_distinct_ascending(kept, offsets)
}

/// Two strictly ascending lists with the same elements are the same list.
pub proof fn lemma_distinct_ascending_unique(a: Seq<u64>, b: Seq<u64>, offsets: Seq<u64>)
    requires
        is_distinct_ascending(a, offsets),
        is_distinct_ascending(b, offsets),
    ensures
        a == b,
    decreases a.len(),
{
    if a.len() == 0 {
        if b.len() > 0 {
            assert(b.contains(b[0]));
            assert(a.contains(b[0]));
        }
        assert(a =~= b);
    } else {
        assert(a.contains(a[0]));
        assert(b.contains(a[0]));
        let j = choose|j: int| 0 <= j < b.len() && b[j] == a[0];
        assert(b.contains(b[0]));
        assert(a.contains(b[0]));
        let i = choose|i: int| 0 <= i < a.len() && a[i] == b[0];
        assert(a[0] == b[0]);
        let rest_a = a.skip(1);
        let rest_b = b.skip(1);
        assert forall|x: u64| rest_a.contains(x) <==> rest_b.contains(x) by {
            if rest_a.contains(x) {
                let k = choose|k: int| 0 <= k < rest_a.len() && rest_a[k] == x;
                assert(a[k + 1] == x);
                assert(a.contains(x));
                assert(b.contains(x));
                let m = choose|m: int| 0 <= m < b.len() && b[m] == x;
                assert(m != 0);
                assert(rest_b[m - 1] == x);
            }
            if rest_b.contains(x) {
                let k = choose|k: int| 0 <= k < rest_b.len() && rest_b[k] == x;
                assert(b[k + 1] == x);
                assert(b.contains(x));
                assert(a.contains(x));
                let m = choose|m: int| 0 <= m < a.len() && a[m] == x;
                assert(m != 0);
                assert(rest_a[m - 1] == x);
            }
        }
        assert(strictly_ascending(rest_a)) by {
            assert forall|p: int, q: int| 0 <= p < q < rest_a.len() implies rest_a[p] < rest_a[q] by {
                assert(a[p + 1] < a[q + 1]);
            }
        }
        assert(strictly_ascending(rest_b)) by {
            assert forall|p: int, q: int| 0 <= p < q < rest_b.len() implies rest_b[p] < rest_b[q] by {
                assert(b[p + 1] < b[q + 1]);
            }
        }
        lemma_distinct_ascending_unique(rest_a, rest_b, rest_a);
        assert(a =~= seq![a[0]] + rest_a);
        assert(b =~= seq![b[0]] + rest_b);
    }
}

/// `list` with `x` put in its place, unless it is there already.
spec fn placed(list: Seq<u64>, x: u64) -> Seq<u64>
    decreases list.len(),
{
    if list.len() == 0 {
        seq![x]
    } else if list.last() < x {
        list.push(x)
    } else if list.last() == x {
        list
    } else {
        placed(list.drop_last(), x).push(list.last())
    }
}

proof fn lemma_placed(list: Seq<u64>, x: u64)
    requires
        strictly_ascending(list),
    ensures
        strictly_ascending(placed(list, x)),
        forall|y: u64| placed(list, x).contains(y) <==> (list.contains(y) || y == x),
        placed(list, x).contains(x),
        placed(list, x).len() > 0,
        placed(list, x).last() == if list.len() > 0 && list.last() > x {
            list.last()
        } else {
            x
        },
    decreases list.len(),
{
    let out = placed(list, x);
    if list.len() == 0 {
        assert(out[0] == x);
        assert forall|y: u64| out.contains(y) <==> (list.contains(y) || y == x) by {
            if out.contains(y) {
                let k = choose|k: int| 0 <= k < out.len() && out[k] == y;
            }
        }
    } else if list.last() < x {
        assert forall|y: u64| out.contains(y) <==> (list.contains(y) || y == x) by {
            if out.contains(y) {
                let k = choose|k: int| 0 <= k < out.len() && out[k] == y;
                if k < list.len() {
                    assert(list[k] == y);
                }
            }
            if list.contains(y) {
                let k = choose|k: int| 0 <= k < list.len() && list[k] == y;
                assert(out[k] == y);
            }
            if y == x {
                assert(out[list.len() as int] == y);
            }
        }
    } else if list.last() == x {
        assert(list[list.len() - 1] == x);
        assert(list.contains(x));
    } else {
        let front = list.drop_last();
        assert(strictly_ascending(front)) by {
            assert forall|p: int, q: int| 0 <= p < q < front.len() implies front[p] < front[q] by {
                assert(list[p] < list[q]);
            }
        }
        lemma_placed(front, x);
        let inner = placed(front, x);
        assert(inner.last() < list.last()) by {
            if front.len() > 0 && front.last() > x {
                assert(list[front.len() - 1] < list[list.len() - 1]);
            }
        }
        assert(strictly_ascending(out)) by {
            assert forall|p: int, q: int| 0 <= p < q < out.len() implies out[p] < out[q] by {
                if q < inner.len() {
                    assert(inner[p] < inner[q]);
                } else if p < inner.len() - 1 {
                    assert(inner[p] < inner[inner.len() - 1]);
                }
            }
        }
        assert forall|y: u64| out.contains(y) <==> (list.contains(y) || y == x) by {
            if out.contains(y) {
                let k = choose|k: int| 0 <= k < out.len() && out[k] == y;
                if k < inner.len() {
                    assert(inner.contains(y));
                    if front.contains(y) {
                        let m = choose|m: int| 0 <= m < front.len() && front[m] == y;
                        assert(list[m] == y);
                    }
                } else {
                    assert(list[list.len() - 1] == y);
                }
            }
            if list.contains(y) {
                let m = choose|m: int| 0 <= m < list.len() && list[m] == y;
                if m < front.len() {
                    assert(front[m] == y);
                    assert(front.contains(y));
                    assert(inner.contains(y));
                    let k = choose|k: int| 0 <= k < inner.len() && inner[k] == y;
                    assert(out[k] == y);
                } else {
                    assert(out[inner.len() as int] == y);
                }
            }
            if y == x {
                assert(inner.contains(x));
                let k = choose|k: int| 0 <= k < inner.len() && inner[k] == x;
                assert(out[k] == y);
            }
        }
        assert(out.contains(x));
    }
}

/// The offsets of `offsets` placed one after another into an empty list.
spec fn placed_all(offsets: Seq<u64>) -> Seq<u64>
    decreases offsets.len(),
{
    if offsets.len() == 0 {
        Seq::empty()
    } else {
        placed(placed_all(offsets.drop_last()), offsets.last())
    }
}

/// Every list of offsets has its distinct offsets in ascending order.
pub proof fn lemma_distinct_ascending_exists(offsets: Seq<u64>)
    ensures
        is_distinct_ascending(distinct_ascending(offsets), offsets),
{
    lemma_placed_all(offsets);
}

proof fn lemma_placed_all(offsets: Seq<u64>)
    ensures
        is_distinct_ascending(placed_all(offsets), offsets),
    decreases offsets.len(),
{
    if offsets.len() > 0 {
        let front = offsets.drop_last();
        let x = offsets.last();
        lemma_placed_all(front);
        lemma_placed(placed_all(front), x);
        assert forall|y: u64| placed_all(offsets).contains(y) <==> offsets.contains(y) by {
            if offsets.contains(y) {
                let k = choose|k: int| 0 <= k < offsets.len() && offsets[k] == y;
                if k < front.len() {
                    assert(front[k] == y);
                }
            }
            if front.contains(y) {
                let k = choose|k: int| 0 <= k < front.len() && front[k] == y;
                assert(offsets[k] == y);
            }
            if y == x {
                assert(offsets[offsets.len() - 1] == y);
            }
        }
    } else {
        assert forall|y: u64| placed_all(offsets).contains(y) <==> offsets.contains(y) by {
            if placed_all(offsets).contains(y) {
                let k = choose|k: int| 0 <= k < placed_all(offsets).len() && placed_all(offsets)[k] == y;
            }
            if offsets.contains(y) {
                let k = choose|k: int| 0 <= k < offsets.len() && offsets[k] == y;
            }
        }
    }
}

/// Without offsets there is nothing to keep.
pub proof fn lemma_distinct_ascending_of_none()
    ensures
        distinct_ascending(Seq::empty()) == Seq::<u64>::empty(),
{
    lemma_distinct_ascending_exists(Seq::empty());
    let kept = distinct_ascending(Seq::empty());
    if kept.len() > 0 {
        assert(kept.contains(kept[0]));
        assert(Seq::<u64>::empty().contains(kept[0]));
    }
    assert(kept =~= Seq::<u64>::empty());
}

/// `<[u64]>::sort`: the same offsets, as often as before, smallest first.
#[verifier::external_body]
fn sort_offsets(offsets: &mut Vec<u64>)
    ensures
        ascending(final(offsets)@),
        final(offsets)@.to_multiset() == old(offsets)@.to_multiset(),
{
    offsets.sort();
}

/// Sorts the offsets gathered from all posting lists and drops every repeat,
/// so that an entry named by several terms is read once.
pub fn distinct_offsets(offsets: Vec<u64>) -> (kept: Vec<u64>)
    ensures
        is_distinct_ascending(kept@, offsets@),
        kept@ == distinct_ascending(offsets@),
{
    let mut sorted = offsets;
    sort_offsets(&mut sorted);
    proof {
        sorted@.to_multiset_ensures();
        offsets@.to_multiset_ensures();
    }
    let mut kept: Vec<u64> = Vec::new();
    let mut i: usize = 0;
    while i < sorted.len()
        invariant
            i <= sorted@.len(),
            ascending(sorted@),
            strictly_ascending(kept@),
            kept@.len() == 0 <==> i == 0,
            i > 0 ==> kept@.last() == sorted@[i - 1],
            forall|x: u64| kept@.contains(x) <==> sorted@.take(i as int).contains(x),
        decreases sorted@.len() - i,
    {
        let offset = sorted[i];
        let ghost before = kept@;
        let repeats = i > 0 && kept[kept.len() - 1] == offset;
        if !repeats {
            kept.push(offset);
        }
        proof {
            let next = sorted@.take(i + 1);
            assert(next =~= sorted@.take(i as int).push(offset));
            assert forall|x: u64| kept@.contains(x) <==> next.contains(x) by {
                if kept@.contains(x) {
                    let k = choose|k: int| 0 <= k < kept@.len() && kept@[k] == x;
                    if k < before.len() {
                        assert(before.contains(x));
                        let m = choose|m: int|
                            0 <= m < sorted@.take(i as int).len() && sorted@.take(i as int)[m] == x;
                        assert(next[m] == x);
                    } else {
                        assert(next[i as int] == x);
                    }
                }
                if next.contains(x) {
                    let m = choose|m: int| 0 <= m < next.len() && next[m] == x;
                    if m < i {
                        assert(sorted@.take(i as int)[m] == x);
                        assert(sorted@.take(i as int).contains(x));
                        assert(before.contains(x));
                        let k = choose|k: int| 0 <= k < before.len() && before[k] == x;
                        assert(kept@[k] == x);
                    } else {
                        assert(x == offset);
                        assert(kept@.last() == offset);
                    }
                }
            }
        }
        i = i + 1;
    }
    proof {
        assert(sorted@.take(i as int) =~= sorted@);
        assert forall|x: u64| kept@.contains(x) <==> offsets@.contains(x) by {
            assert(sorted@.contains(x) <==> sorted@.to_multiset().count(x) > 0);
            assert(offsets@.contains(x) <==> offsets@.to_multiset().count(x) > 0);
        }
        let chosen = distinct_ascending(offsets@);
        lemma_distinct_ascending_unique(kept@, chosen, offsets@);
    }
    kept
}

} // verus!
