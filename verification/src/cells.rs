//! Lists of cells.

use std::collections::HashSet;
use vstd::prelude::*;

verus! {

broadcast use vstd::std_specs::hash::group_hash_axioms;

/// The values of `s` in the order in which each occurs first.
pub open spec fn distinct(s: Seq<u64>) -> Seq<u64>
    decreases s.len(),
{
    if s.len() == 0 {
        Seq::empty()
    } else {
        let before = distinct(s.drop_last());
        if before.contains(s.last()) {
            before
        } else {
            before.push(s.last())
        }
    }
}

/// The distinct values of a list are its values, each once.
pub proof fn lemma_distinct(s: Seq<u64>)
    ensures
        forall|x: u64|
            #![trigger distinct(s).contains(x)]
            #![trigger s.contains(x)]
            distinct(s).contains(x) <==> s.contains(x),
        forall|i: int, j: int|
            0 <= i < j < distinct(s).len() ==> #[trigger] distinct(s)[i] != #[trigger] distinct(s)[j],
    decreases s.len(),
{
    if s.len() > 0 {
        let front = s.drop_last();
        lemma_distinct(front);
        let before = distinct(front);
        let all = distinct(s);
        let last = s.last();
        assert forall|x: u64|
            #![trigger all.contains(x)]
            #![trigger s.contains(x)]
            all.contains(x) <==> s.contains(x) by {
            if all.contains(x) {
                let k = choose|k: int| 0 <= k < all.len() && all[k] == x;
                if k < before.len() {
                    assert(before[k] == x);
                    assert(before.contains(x));
                    let m = choose|m: int| 0 <= m < front.len() && front[m] == x;
                    assert(s[m] == x);
                } else {
                    assert(s[s.len() - 1] == x);
                }
            }
            if s.contains(x) {
                let m = choose|m: int| 0 <= m < s.len() && s[m] == x;
                if m < front.len() {
                    assert(front[m] == x);
                    assert(before.contains(x));
                    let k = choose|k: int| 0 <= k < before.len() && before[k] == x;
                    assert(all[k] == x);
                } else if before.contains(last) {
                } else {
                    assert(all[before.len() as int] == x);
                }
            }
        }
        assert forall|i: int, j: int| 0 <= i < j < all.len() implies #[trigger] all[i]
            != #[trigger] all[j] by {
            if j < before.len() {
                assert(all[i] == before[i] && all[j] == before[j]);
            } else {
                assert(all[i] == before[i]);
                assert(before.contains(before[i]));
            }
        }
    }
}

/// The values of `values` in the order in which each occurs first.
pub fn distinct_values(values: &Vec<u64>) -> (out: Vec<u64>)
    ensures
        out@ == distinct(values@),
{
    let mut out: Vec<u64> = Vec::new();
    let mut seen: HashSet<u64> = HashSet::new();
    let mut i: usize = 0;
    assert(values@.take(0) =~= Seq::<u64>::empty());
    while i < values.len()
        invariant
            i <= values.len(),
            out@ == distinct(values@.take(i as int)),
            forall|x: u64| seen@.contains(x) <==> out@.contains(x),
        decreases values.len() - i,
    {
        assert(values@.take(i + 1).drop_last() =~= values@.take(i as int));
        assert(values@.take(i + 1).last() == values@[i as int]);
        let ghost before = out@;
        let value = values[i];
        if seen.insert(value) {
            out.push(value);
            assert forall|x: u64| seen@.contains(x) <==> out@.contains(x) by {
                if out@.contains(x) {
                    let k = choose|k: int| 0 <= k < out@.len() && out@[k] == x;
                    if k < before.len() {
                        assert(before[k] == x);
                        assert(before.contains(x));
                    }
                }
                if x == value {
                    assert(out@[before.len() as int] == value);
                } else if before.contains(x) {
                    let k = choose|k: int| 0 <= k < before.len() && before[k] == x;
                    assert(out@[k] == x);
                }
            }
        }
        i += 1;
    }
    assert(values@.take(values@.len() as int) =~= values@);
    out
}

} // verus!
