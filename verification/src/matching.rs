//! Matching stored rows against what is on disk by key: what holds while the rows of one
//! level are gone through, and what follows once all are.

use crate::keys::{distinct, lemma_position, lemma_position_of, lemma_position_take, position, Key};
use vstd::prelude::*;

verus! {

/// The stored keys are the keys on disk: each stored key is on disk, each key on disk
/// is stored, and no key is stored twice.
pub open spec fn same_keys(have: Seq<Key>, want: Seq<Key>) -> bool {
    &&& distinct(have)
    &&& forall|k: int| 0 <= k < have.len() ==> position(want, #[trigger] have[k]) is Some
    &&& forall|s: int| 0 <= s < want.len() ==> position(have, #[trigger] want[s]) is Some
}

/// Whether `key` is on disk at a place that is marked as seen.
pub open spec fn claimed(want: Seq<Key>, seen: Seq<bool>, key: Key) -> bool {
    match position(want, key) {
        Some(j) => seen[j],
        None => false,
    }
}

/// What holds of one level while its rows are gone through: the first `n` stored keys
/// differ from each other, each of them is on disk at a place marked as seen, and each
/// place marked as seen has its key among them.
pub open spec fn level_ok(have: Seq<Key>, want: Seq<Key>, seen: Seq<bool>, n: int) -> bool {
    &&& distinct(want)
    &&& seen.len() == want.len()
    &&& 0 <= n <= have.len()
    &&& distinct(have.take(n))
    &&& forall|i: int| 0 <= i < n ==> claimed(want, seen, #[trigger] have[i])
    &&& forall|j: int| 0 <= j < want.len() && #[trigger] seen[j] ==> position(have.take(n), want[j]) is Some
}

/// What holds of the list of places to add: it rises, the places before `done` are
/// marked as seen, those from `done` on are not, and every place not marked is in it.
pub open spec fn adds_ok(list: Seq<int>, done: int, seen: Seq<bool>) -> bool {
    &&& 0 <= done <= list.len()
    &&& forall|n: int| 0 <= n < list.len() ==> 0 <= (#[trigger] list[n]) < seen.len()
    &&& forall|a: int, b: int| 0 <= a < b < list.len() ==> list[a] < list[b]
    &&& forall|n: int| 0 <= n < done ==> seen[#[trigger] list[n]]
    &&& forall|n: int| done <= n < list.len() ==> !seen[#[trigger] list[n]]
    &&& forall|j: int|
        0 <= j < seen.len() && !(#[trigger] seen[j]) ==> exists|n: int|
            done <= n < list.len() && list[n] == j
}

/// A row that keeps its place is claimed: the level holds of one stored key more.
pub proof fn lemma_claim(have: Seq<Key>, want: Seq<Key>, seen: Seq<bool>, n: int, j: int)
    requires
        level_ok(have, want, seen, n),
        n < have.len(),
        position(want, have[n]) == Some(j),
        !seen[j],
    ensures
        level_ok(have, want, seen.update(j, true), n + 1),
{
    let after = seen.update(j, true);
    lemma_position(want, have[n]);
    assert forall|i: int| 0 <= i < n + 1 implies claimed(want, after, #[trigger] have[i]) by {
        lemma_position(want, have[i]);
        if i < n {
            assert(claimed(want, seen, have[i]));
        }
    }
    let head = have.take(n + 1);
    assert forall|a: int, b: int| 0 <= a < b < head.len() implies head[a] != head[b] by {
        if b < n {
            assert(have.take(n)[a] != have.take(n)[b]);
        } else {
            assert(claimed(want, seen, have[a]));
        }
    }
    assert forall|x: int| 0 <= x < want.len() && #[trigger] after[x] implies position(
        have.take(n + 1),
        want[x],
    ) is Some by {
        lemma_position(have.take(n + 1), want[x]);
        if x == j {
            assert(have.take(n + 1)[n] == want[x]);
        } else {
            assert(seen[x]);
            lemma_position(have.take(n), want[x]);
            let i = position(have.take(n), want[x])->0;
            assert(have.take(n + 1)[i] == have.take(n)[i]);
        }
    }
}

/// Taking out a stored key from place `n` on leaves the level as it was.
pub proof fn lemma_drop(have: Seq<Key>, want: Seq<Key>, seen: Seq<bool>, n: int, x: int)
    requires
        level_ok(have, want, seen, n),
        n <= x < have.len(),
    ensures
        level_ok(have.remove(x), want, seen, n),
{
    assert(have.remove(x).take(n) =~= have.take(n));
    assert forall|i: int| 0 <= i < n implies claimed(want, seen, #[trigger] have.remove(x)[i]) by {
        assert(have.remove(x)[i] == have[i]);
    }
}

/// Storing the key of a place on disk that is not marked as seen, behind stored keys
/// that are all claimed, and marking the place: the level holds of one stored key more.
pub proof fn lemma_push(have: Seq<Key>, want: Seq<Key>, seen: Seq<bool>, j: int)
    requires
        level_ok(have, want, seen, have.len() as int),
        0 <= j < want.len(),
        !seen[j],
    ensures
        level_ok(have.push(want[j]), want, seen.update(j, true), have.len() as int + 1),
{
    let n = have.len() as int;
    let more = have.push(want[j]);
    lemma_position_of(want, j);
    assert(more.take(n) =~= have.take(n));
    assert forall|i: int| 0 <= i < n implies claimed(want, seen, #[trigger] more[i]) by {
        assert(more[i] == have[i]);
    }
    lemma_claim(more, want, seen, n, j);
}

/// Once every stored key is claimed and every place on disk is marked as seen, the
/// stored keys are the keys on disk.
pub proof fn lemma_level_done(have: Seq<Key>, want: Seq<Key>, seen: Seq<bool>)
    requires
        level_ok(have, want, seen, have.len() as int),
        forall|j: int| 0 <= j < seen.len() ==> #[trigger] seen[j],
    ensures
        same_keys(have, want),
{
    assert(have.take(have.len() as int) =~= have);
    assert forall|k: int| 0 <= k < have.len() implies position(want, #[trigger] have[k]) is Some by {
        assert(claimed(want, seen, have[k]));
    }
    assert forall|s: int| 0 <= s < want.len() implies position(have, #[trigger] want[s]) is Some by {
        assert(seen[s]);
    }
}

/// Where the stored keys are the keys on disk already, the next stored key keeps its
/// place: it is on disk at a place not yet marked as seen.
pub proof fn lemma_same_keys_row(have: Seq<Key>, want: Seq<Key>, seen: Seq<bool>, n: int)
    requires
        same_keys(have, want),
        level_ok(have, want, seen, n),
        n < have.len(),
    ensures
        position(want, have[n]) is Some,
        !seen[position(want, have[n])->0],
{
    let j = position(want, have[n])->0;
    lemma_position(want, have[n]);
    if seen[j] {
        lemma_position(have.take(n), want[j]);
        let i = position(have.take(n), want[j])->0;
        assert(have.take(n)[i] == have[i]);
        assert(have[i] != have[n]);
    }
}

/// Where the stored keys are the keys on disk already, every place on disk is marked as
/// seen once all stored keys are claimed.
pub proof fn lemma_same_keys_end(have: Seq<Key>, want: Seq<Key>, seen: Seq<bool>)
    requires
        same_keys(have, want),
        level_ok(have, want, seen, have.len() as int),
    ensures
        forall|j: int| 0 <= j < seen.len() ==> #[trigger] seen[j],
{
    assert forall|j: int| 0 <= j < seen.len() implies #[trigger] seen[j] by {
        lemma_position(have, want[j]);
        let i = position(have, want[j])->0;
        assert(claimed(want, seen, have[i]));
        lemma_position_of(want, j);
    }
}

/// The list of the places not marked as seen is a list of places to add of which none
/// is done.
pub proof fn lemma_adds_begin(seen: Seq<bool>)
    ensures
        adds_ok(crate::keys::unseen(seen), 0, seen),
{
    crate::keys::lemma_unseen(seen);
}

/// Marking the place under the cursor of the list of places to add moves the cursor on.
pub proof fn lemma_adds_next(list: Seq<int>, done: int, seen: Seq<bool>)
    requires
        adds_ok(list, done, seen),
        done < list.len(),
    ensures
        adds_ok(list, done + 1, seen.update(list[done], true)),
{
    let after = seen.update(list[done], true);
    assert forall|n: int| done + 1 <= n < list.len() implies !after[#[trigger] list[n]] by {
        assert(list[done] < list[n]);
    }
    assert forall|n: int| 0 <= n < done + 1 implies after[#[trigger] list[n]] by {}
    assert forall|j: int| 0 <= j < after.len() && !(#[trigger] after[j]) implies exists|n: int|
        done + 1 <= n < list.len() && list[n] == j by {
        assert(!seen[j]);
        let n = choose|n: int| done <= n < list.len() && list[n] == j;
        assert(n != done);
    }
}

/// Once the cursor has left the list of places to add, every place is marked as seen.
pub proof fn lemma_adds_end(list: Seq<int>, seen: Seq<bool>)
    requires
        adds_ok(list, list.len() as int, seen),
    ensures
        forall|j: int| 0 <= j < seen.len() ==> #[trigger] seen[j],
{
}

} // verus!
