//! Natural keys: finding a name or a path in a sequence of them.

use vstd::prelude::*;

verus! {

/// A natural key: an artist's name, an album's name or a song's path.
pub type Key = Seq<char>;

/// The first place at which `key` stands in `keys`, if it stands there at all.
pub open spec fn position(keys: Seq<Key>, key: Key) -> Option<int>
    decreases keys.len(),
{
    if keys.len() == 0 {
        None
    } else {
        match position(keys.drop_last(), key) {
            Some(i) => Some(i),
            None => if keys.last() == key {
                Some(keys.len() - 1)
            } else {
                None
            },
        }
    }
}

/// No key stands twice in `keys`.
pub open spec fn distinct(keys: Seq<Key>) -> bool {
    forall|i: int, j: int| 0 <= i < j < keys.len() ==> keys[i] != keys[j]
}

/// `position` finds the first occurrence, and finds nothing only where there is none.
pub proof fn lemma_position(keys: Seq<Key>, key: Key)
    ensures
        match position(keys, key) {
            Some(i) => 0 <= i < keys.len() && keys[i] == key && forall|j: int|
                0 <= j < i ==> keys[j] != key,
            None => forall|j: int| 0 <= j < keys.len() ==> keys[j] != key,
        },
    decreases keys.len(),
{
    if keys.len() > 0 {
        lemma_position(keys.drop_last(), key);
        assert(forall|j: int| 0 <= j < keys.len() - 1 ==> keys.drop_last()[j] == keys[j]);
    }
}

/// Where keys are distinct, a key's position is wherever it stands.
pub proof fn lemma_position_of(keys: Seq<Key>, i: int)
    requires
        distinct(keys),
        0 <= i < keys.len(),
    ensures
        position(keys, keys[i]) == Some(i),
{
    lemma_position(keys, keys[i]);
}

/// Appending a key leaves every earlier position as it was.
pub proof fn lemma_position_push(keys: Seq<Key>, last: Key, key: Key)
    ensures
        position(keys.push(last), key) == match position(keys, key) {
            Some(i) => Some(i),
            None => if last == key {
                Some(keys.len() as int)
            } else {
                None
            },
        },
{
    assert(keys.push(last).drop_last() == keys);
}

/// A key's position among the first `n` keys is its position among all of them, where
/// that lies below `n`.
pub proof fn lemma_position_take(keys: Seq<Key>, n: int, key: Key)
    requires
        0 <= n <= keys.len(),
    ensures
        position(keys.take(n), key) == match position(keys, key) {
            Some(i) => if i < n {
                Some(i)
            } else {
                None
            },
            None => None,
        },
{
    lemma_position(keys, key);
    lemma_position(keys.take(n), key);
    match position(keys.take(n), key) {
        Some(i) => {
            assert(keys.take(n)[i] == keys[i]);
            let w = position(keys, key)->0;
            if w < i {
                assert(keys.take(n)[w] == keys[w]);
            }
        },
        None => {
            match position(keys, key) {
                Some(w) => {
                    if w < n {
                        assert(keys.take(n)[w] == keys[w]);
                    }
                },
                None => {},
            }
        },
    }
}

/// Whether row `k` keeps its place: its key is on disk, and no earlier row has that key.
pub open spec fn keeps(disk: Seq<Key>, rows: Seq<Key>, k: int) -> bool {
    position(disk, rows[k]) is Some && position(rows, rows[k]) == Some(k)
}

/// The places, in rising order, at which `seen` does not hold.
pub open spec fn unseen(seen: Seq<bool>) -> Seq<int>
    decreases seen.len(),
{
    if seen.len() == 0 {
        Seq::empty()
    } else {
        let rest = unseen(seen.drop_last());
        if seen.last() {
            rest
        } else {
            rest.push(seen.len() - 1)
        }
    }
}

/// `unseen` lists exactly the places at which `seen` does not hold, each once, rising.
pub proof fn lemma_unseen(seen: Seq<bool>)
    ensures
        unseen(seen).len() <= seen.len(),
        forall|n: int|
            0 <= n < unseen(seen).len() ==> 0 <= (#[trigger] unseen(seen)[n]) < seen.len()
                && !seen[unseen(seen)[n]],
        forall|a: int, b: int| 0 <= a < b < unseen(seen).len() ==> unseen(seen)[a] < unseen(seen)[b],
        forall|j: int|
            0 <= j < seen.len() && !(#[trigger] seen[j]) ==> exists|n: int|
                0 <= n < unseen(seen).len() && unseen(seen)[n] == j,
    decreases seen.len(),
{
    if seen.len() > 0 {
        let head = seen.drop_last();
        lemma_unseen(head);
        let rest = unseen(head);
        let all = unseen(seen);
        assert forall|j: int| 0 <= j < seen.len() && !(#[trigger] seen[j]) implies exists|n: int|
            0 <= n < all.len() && all[n] == j by {
            if j < head.len() {
                assert(!head[j]);
                let n = choose|n: int| 0 <= n < rest.len() && rest[n] == j;
                assert(all[n] == j);
            } else {
                assert(all[all.len() - 1] == j);
            }
        }
    }
}

/// The places at which no flag holds, as a list.
pub fn list_unseen(seen: &Vec<bool>) -> (r: Vec<usize>)
    ensures
        r@.len() == unseen(seen@).len(),
        forall|n: int| 0 <= n < r@.len() ==> (#[trigger] r@[n]) as int == unseen(seen@)[n],
{
    let mut out: Vec<usize> = Vec::new();
    let mut j: usize = 0;
    while j < seen.len()
        invariant
            j <= seen.len(),
            out@.len() == unseen(seen@.take(j as int)).len(),
            forall|n: int| 0 <= n < out@.len() ==> (#[trigger] out@[n]) as int == unseen(seen@.take(j as int))[n],
        decreases seen.len() - j,
    {
        proof {
            assert(seen@.take(j + 1).drop_last() =~= seen@.take(j as int));
            assert(seen@.take(j + 1).last() == seen@[j as int]);
        }
        if !seen[j] {
            out.push(j);
        }
        j += 1;
    }
    proof {
        assert(seen@.take(j as int) =~= seen@);
    }
    out
}

/// A key that stands among the first `a` keys stands among the first `b`, where `b` is
/// no smaller.
pub proof fn lemma_position_grows(keys: Seq<Key>, a: int, b: int, key: Key)
    requires
        0 <= a <= b <= keys.len(),
        position(keys.take(a), key) is Some,
    ensures
        position(keys.take(b), key) is Some,
{
    lemma_position_take(keys, a, key);
    lemma_position_take(keys, b, key);
}

/// A key that stands at place `i` stands among the first `b` keys, where `b` lies above
/// `i`; and the first place at which it stands is no later than `i`.
pub proof fn lemma_position_found(keys: Seq<Key>, i: int, b: int)
    requires
        0 <= i < b <= keys.len(),
    ensures
        position(keys.take(b), keys[i]) is Some,
        position(keys, keys[i]) is Some,
        position(keys, keys[i])->0 <= i,
{
    lemma_position(keys, keys[i]);
    lemma_position_take(keys, b, keys[i]);
}

/// Keys are distinct exactly where each stands first at its own place.
pub proof fn lemma_distinct_by_position(keys: Seq<Key>)
    ensures
        distinct(keys) <==> forall|i: int|
            0 <= i < keys.len() ==> position(keys, #[trigger] keys[i]) == Some(i),
{
    if distinct(keys) {
        assert forall|i: int| 0 <= i < keys.len() implies position(keys, #[trigger] keys[i]) == Some(
            i,
        ) by {
            lemma_position_of(keys, i);
        }
    }
    if forall|i: int| 0 <= i < keys.len() ==> position(keys, #[trigger] keys[i]) == Some(i) {
        assert forall|a: int, b: int| 0 <= a < b < keys.len() implies keys[a] != keys[b] by {
            lemma_position(keys, keys[b]);
            assert(position(keys, keys[b]) == Some(b));
        }
    }
}

} // verus!
