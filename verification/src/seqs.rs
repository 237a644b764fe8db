//! Facts about sequences that several proofs share.

use vstd::prelude::*;

verus! {

/// Filtering a sequence without repetitions leaves one without repetitions,
/// which holds exactly the elements that pass the test.
pub proof fn lemma_filter_distinct<T>(s: Seq<T>, keep: spec_fn(T) -> bool)
    requires
        s.no_duplicates(),
    ensures
        s.filter(keep).no_duplicates(),
        forall|x: T| #[trigger] s.filter(keep).contains(x) <==> s.contains(x) && keep(x),
    decreases s.len(),
{
    reveal(Seq::filter);
    if s.len() > 0 {
        let front = s.drop_last();
        let last = s.last();
        lemma_filter_distinct(front, keep);
        let kept = front.filter(keep);
        assert(!front.contains(last)) by {
            if front.contains(last) {
                let i = choose|i: int| 0 <= i < front.len() && front[i] == last;
                assert(s[i] == s[s.len() - 1]);
            }
        }
        assert forall|x: T| s.contains(x) <==> front.contains(x) || x == last by {
            if s.contains(x) {
                let i = choose|i: int| 0 <= i < s.len() && s[i] == x;
                if i < s.len() - 1 {
                    assert(front[i] == x);
                }
            }
            if front.contains(x) {
                let i = choose|i: int| 0 <= i < front.len() && front[i] == x;
                assert(s[i] == x);
            }
            if x == last {
                assert(s[s.len() - 1] == x);
            }
        }
        if keep(last) {
            let out = kept.push(last);
            assert forall|x: T| out.contains(x) <==> kept.contains(x) || x == last by {
                if out.contains(x) {
                    let i = choose|i: int| 0 <= i < out.len() && out[i] == x;
                    if i < kept.len() {
                        assert(kept[i] == x);
                    }
                }
                if kept.contains(x) {
                    let i = choose|i: int| 0 <= i < kept.len() && kept[i] == x;
                    assert(out[i] == x);
                }
                if x == last {
                    assert(out[out.len() - 1] == x);
                }
            }
            assert forall|i: int, j: int| 0 <= i < out.len() && 0 <= j < out.len() && i != j implies out[i] != out[j] by {
                if i < kept.len() && j < kept.len() {
                } else if i < kept.len() {
                    assert(kept.contains(kept[i]));
                } else if j < kept.len() {
                    assert(kept.contains(kept[j]));
                }
            }
        }
    }
}

/// What passes a test among the first `k` elements opens what passes it in
/// the whole sequence.
pub proof fn lemma_filter_prefix<T>(s: Seq<T>, keep: spec_fn(T) -> bool, k: int)
    requires
        0 <= k <= s.len(),
    ensures
        s.take(k).filter(keep).len() <= s.filter(keep).len(),
        s.take(k).filter(keep) == s.filter(keep).take(s.take(k).filter(keep).len() as int),
    decreases s.len() - k,
{
    if k == s.len() {
        assert(s.take(k) =~= s);
        assert(s.filter(keep).take(s.filter(keep).len() as int) =~= s.filter(keep));
    } else {
        lemma_filter_prefix(s, keep, k + 1);
        s.lemma_take_succ_push(k);
        s.take(k).lemma_filter_push(s[k], keep);
        let longer = s.take(k + 1).filter(keep);
        let shorter = s.take(k).filter(keep);
        assert(shorter =~= longer.take(shorter.len() as int));
        assert(shorter =~= s.filter(keep).take(shorter.len() as int));
    }
}

/// What a partial function gives for the first `k` elements opens what it
/// gives for the whole sequence.
pub proof fn lemma_filter_map_prefix<T, U>(s: Seq<T>, pick: spec_fn(T) -> Option<U>, k: int)
    requires
        0 <= k <= s.len(),
    ensures
        s.take(k).filter_map(pick).len() <= s.filter_map(pick).len(),
        s.take(k).filter_map(pick) == s.filter_map(pick).take(
            s.take(k).filter_map(pick).len() as int,
        ),
    decreases s.len() - k,
{
    if k == s.len() {
        assert(s.take(k) =~= s);
        assert(s.filter_map(pick).take(s.filter_map(pick).len() as int) =~= s.filter_map(pick));
    } else {
        lemma_filter_map_prefix(s, pick, k + 1);
        s.lemma_filter_map_take_succ(pick, k);
        let longer = s.take(k + 1).filter_map(pick);
        let shorter = s.take(k).filter_map(pick);
        assert(shorter =~= longer.take(shorter.len() as int));
        assert(shorter =~= s.filter_map(pick).take(shorter.len() as int));
    }
}

/// Where every element passes the test, filtering changes nothing.
pub proof fn lemma_filter_all<T>(s: Seq<T>, keep: spec_fn(T) -> bool)
    requires
        forall|i: int| 0 <= i < s.len() ==> keep(#[trigger] s[i]),
    ensures
        s.filter(keep) == s,
    decreases s.len(),
{
    reveal(Seq::filter);
    if s.len() > 0 {
        let front = s.drop_last();
        assert forall|i: int| 0 <= i < front.len() implies keep(#[trigger] front[i]) by {
            assert(front[i] == s[i]);
        }
        lemma_filter_all(front, keep);
        assert(keep(s[s.len() - 1]));
        assert(front.push(s.last()) =~= s);
    }
}

/// Where no element passes the test, filtering leaves nothing.
pub proof fn lemma_filter_none<T>(s: Seq<T>, keep: spec_fn(T) -> bool)
    requires
        forall|i: int| 0 <= i < s.len() ==> !keep(#[trigger] s[i]),
    ensures
        s.filter(keep) == Seq::<T>::empty(),
    decreases s.len(),
{
    reveal(Seq::filter);
    if s.len() > 0 {
        let front = s.drop_last();
        assert forall|i: int| 0 <= i < front.len() implies !keep(#[trigger] front[i]) by {
            assert(front[i] == s[i]);
        }
        lemma_filter_none(front, keep);
        assert(!keep(s[s.len() - 1]));
    } else {
        assert(s =~= Seq::<T>::empty());
    }
}

/// A partial function that gives different results at different places of
/// a sequence gives a result without repetitions, which holds exactly what
/// the function gives somewhere.
pub proof fn lemma_filter_map_distinct<T, U>(s: Seq<T>, pick: spec_fn(T) -> Option<U>)
    requires
        forall|i: int, j: int|
            0 <= i < j < s.len() && pick(s[i]).is_some() ==> #[trigger] pick(s[i]) != #[trigger] pick(
                s[j],
            ),
    ensures
        s.filter_map(pick).no_duplicates(),
        s.filter_map(pick).len() <= s.len(),
        forall|x: U| #[trigger]
            s.filter_map(pick).contains(x) <==> exists|i: int|
                0 <= i < s.len() && #[trigger] pick(s[i]) == Some(x),
    decreases s.len(),
{
    if s.len() > 0 {
        let front = s.drop_last();
        let last = s.last();
        assert forall|i: int, j: int|
            0 <= i < j < front.len() && pick(front[i]).is_some() implies #[trigger] pick(front[i])
            != #[trigger] pick(front[j]) by {
            assert(front[i] == s[i] && front[j] == s[j]);
        }
        lemma_filter_map_distinct(front, pick);
        let sooner = front.filter_map(pick);
        let out = s.filter_map(pick);
        match pick(last) {
            Some(x) => {
                assert(out =~= sooner.push(x));
                assert(!sooner.contains(x)) by {
                    if sooner.contains(x) {
                        let i = choose|i: int| 0 <= i < front.len() && #[trigger] pick(front[i]) == Some(x);
                        assert(front[i] == s[i]);
                        assert(pick(s[i]) != pick(s[s.len() - 1]));
                    }
                }
                assert forall|a: int, b: int|
                    0 <= a < out.len() && 0 <= b < out.len() && a != b implies out[a] != out[b] by {
                    if a < sooner.len() {
                        assert(sooner.contains(sooner[a]));
                    }
                    if b < sooner.len() {
                        assert(sooner.contains(sooner[b]));
                    }
                }
                assert forall|y: U| #[trigger]
                    out.contains(y) <==> exists|i: int|
                        0 <= i < s.len() && #[trigger] pick(s[i]) == Some(y) by {
                    if out.contains(y) {
                        let a = choose|a: int| 0 <= a < out.len() && out[a] == y;
                        if a < sooner.len() {
                            assert(sooner.contains(sooner[a]));
                            let i = choose|i: int|
                                0 <= i < front.len() && #[trigger] pick(front[i]) == Some(y);
                            assert(pick(s[i]) == Some(y));
                        } else {
                            assert(pick(s[s.len() - 1]) == Some(y));
                        }
                    }
                    if exists|i: int| 0 <= i < s.len() && #[trigger] pick(s[i]) == Some(y) {
                        let i = choose|i: int| 0 <= i < s.len() && #[trigger] pick(s[i]) == Some(y);
                        if i < front.len() {
                            assert(pick(front[i]) == Some(y));
                            assert(sooner.contains(y));
                            let a = choose|a: int| 0 <= a < sooner.len() && sooner[a] == y;
                            assert(out[a] == y);
                        } else {
                            assert(out[out.len() - 1] == y);
                        }
                    }
                }
            },
            None => {
                assert(out =~= sooner);
                assert forall|y: U| #[trigger]
                    out.contains(y) <==> exists|i: int|
                        0 <= i < s.len() && #[trigger] pick(s[i]) == Some(y) by {
                    if out.contains(y) {
                        let i = choose|i: int|
                            0 <= i < front.len() && #[trigger] pick(front[i]) == Some(y);
                        assert(pick(s[i]) == Some(y));
                    }
                    if exists|i: int| 0 <= i < s.len() && #[trigger] pick(s[i]) == Some(y) {
                        let i = choose|i: int| 0 <= i < s.len() && #[trigger] pick(s[i]) == Some(y);
                        assert(i < front.len());
                        assert(pick(front[i]) == Some(y));
                    }
                }
            },
        }
    }
}

} // verus!
