//! Finding and picking items in a sequence.
use vstd::prelude::*;

use crate::scalar::Scalar;

verus! {

/// Whether `i` is the first position of `items` whose item satisfies `wanted`.
pub open spec fn is_first<T>(items: Seq<T>, wanted: spec_fn(T) -> bool, i: int) -> bool {
    &&& 0 <= i < items.len()
    &&& wanted(items[i])
    &&& forall|j: int| 0 <= j < i ==> !wanted(#[trigger] items[j])
}

/// The first position of `items` whose item satisfies `wanted`.
pub open spec fn first_index<T>(items: Seq<T>, wanted: spec_fn(T) -> bool) -> Option<int> {
    if exists|i: int| is_first(items, wanted, i) {
        Some(choose|i: int| is_first(items, wanted, i))
    } else {
        None
    }
}

/// A position that is the first of its kind is the one that `first_index` gives.
pub proof fn lemma_first_found<T>(items: Seq<T>, wanted: spec_fn(T) -> bool, i: int)
    requires
        is_first(items, wanted, i),
    ensures
        first_index(items, wanted) == Some(i),
{
    let found = choose|k: int| is_first(items, wanted, k);
    assert(is_first(items, wanted, found));
    if found < i {
        assert(!wanted(items[found]));
    }
    if i < found {
        assert(!wanted(items[i]));
    }
}

/// Where no item satisfies `wanted`, `first_index` gives nothing.
pub proof fn lemma_none_found<T>(items: Seq<T>, wanted: spec_fn(T) -> bool)
    requires
        forall|j: int| 0 <= j < items.len() ==> !wanted(#[trigger] items[j]),
    ensures
        first_index(items, wanted) is None,
{
    if exists|i: int| is_first(items, wanted, i) {
        let i = choose|i: int| is_first(items, wanted, i);
        assert(wanted(items[i]));
    }
}

/// What `first_index` says of the sequence.
pub proof fn lemma_first_index<T>(items: Seq<T>, wanted: spec_fn(T) -> bool)
    ensures
        match first_index(items, wanted) {
            Some(i) => is_first(items, wanted, i),
            None => forall|j: int| 0 <= j < items.len() ==> !wanted(#[trigger] items[j]),
        },
{
    if exists|j: int| 0 <= j < items.len() && wanted(#[trigger] items[j]) {
        let j = choose|j: int| 0 <= j < items.len() && wanted(#[trigger] items[j]);
        lemma_least(items, wanted, j);
    }
}

proof fn lemma_least<T>(items: Seq<T>, wanted: spec_fn(T) -> bool, j: int)
    requires
        0 <= j < items.len(),
        wanted(items[j]),
    ensures
        exists|i: int| is_first(items, wanted, i),
    decreases j,
{
    if exists|k: int| 0 <= k < j && wanted(#[trigger] items[k]) {
        let k = choose|k: int| 0 <= k < j && wanted(#[trigger] items[k]);
        lemma_least(items, wanted, k);
    } else {
        assert(is_first(items, wanted, j));
    }
}

/// The position that a walk over `keys` settles on when it keeps the position it
/// has unless a later key is smaller.
pub open spec fn smallest(keys: Seq<Scalar>) -> int
    decreases keys.len(),
{
    if keys.len() <= 1 {
        0
    } else {
        let best = smallest(keys.drop_last());
        if keys.last().spec_lt(keys[best]) {
            keys.len() - 1
        } else {
            best
        }
    }
}

/// The position that the walk settles on is a position of `keys`.
pub proof fn lemma_smallest_in_range(keys: Seq<Scalar>)
    requires
        keys.len() > 0,
    ensures
        0 <= smallest(keys) < keys.len(),
    decreases keys.len(),
{
    if keys.len() > 1 {
        lemma_smallest_in_range(keys.drop_last());
    }
}

/// Among numbers, the walk settles on the first of the smallest.
pub proof fn lemma_smallest_is_minimal(keys: Seq<Scalar>)
    requires
        keys.len() > 0,
        forall|i: int| 0 <= i < keys.len() ==> #[trigger] keys[i] is Number,
    ensures
        forall|i: int| 0 <= i < keys.len() ==> keys[smallest(keys)].spec_le(#[trigger] keys[i]),
        forall|i: int| 0 <= i < smallest(keys) ==> keys[smallest(keys)].spec_lt(#[trigger] keys[i]),
    decreases keys.len(),
{
    lemma_smallest_in_range(keys);
    if keys.len() > 1 {
        let rest = keys.drop_last();
        assert forall|i: int| 0 <= i < rest.len() implies #[trigger] rest[i] is Number by {
            assert(keys[i] is Number);
        }
        lemma_smallest_in_range(rest);
        lemma_smallest_is_minimal(rest);
        assert(forall|i: int| 0 <= i < rest.len() ==> rest[i] == #[trigger] keys[i]);
        assert(keys.last() is Number);
    }
}

/// The position of the smallest key, the first of them where several are equal.
/// A key that is not a number is never smaller than another.
pub fn smallest_index(keys: &Vec<Scalar>) -> (result: usize)
    requires
        keys@.len() > 0,
    ensures
        result == smallest(keys@),
        result < keys@.len(),
{
    let mut best: usize = 0;
    let mut i: usize = 1;
    while i < keys.len()
        invariant
            1 <= i <= keys@.len(),
            best < i,
            best == smallest(keys@.take(i as int)),
        decreases keys@.len() - i,
    {
        proof {
            let next = keys@.take(i + 1);
            assert(next.drop_last() =~= keys@.take(i as int));
        }
        if keys[i].lt(keys[best]) {
            best = i;
        }
        i += 1;
    }
    assert(keys@.take(i as int) =~= keys@);
    best
}

/// Whether position `i` counts in a search for what is near: it is not the one to
/// pass over, and its distance is within `limit`.
pub open spec fn is_near(distances: Seq<Scalar>, passed_over: Option<int>, limit: Scalar, i: int) -> bool {
    0 <= i < distances.len() && passed_over != Some(i) && distances[i].spec_le(limit)
}

/// The nearest position that counts, the first of them where several are equally
/// near.
pub open spec fn nearest(distances: Seq<Scalar>, passed_over: Option<int>, limit: Scalar) -> Option<
    int,
>
    decreases distances.len(),
{
    if distances.len() == 0 {
        None
    } else {
        let i = distances.len() - 1;
        let best = nearest(distances.drop_last(), passed_over, limit);
        if is_near(distances, passed_over, limit, i) && (best matches Some(b)
            ==> distances[i].spec_lt(distances[b])) {
            Some(i)
        } else {
            best
        }
    }
}

/// What the search settles on counts, nothing that counts is nearer, and nothing
/// before it that counts is as near; it settles on nothing only where nothing counts.
pub proof fn lemma_nearest(distances: Seq<Scalar>, passed_over: Option<int>, limit: Scalar)
    ensures
        match nearest(distances, passed_over, limit) {
            Some(b) => {
                &&& is_near(distances, passed_over, limit, b)
                &&& forall|i: int|
                    is_near(distances, passed_over, limit, i) ==> distances[b].spec_le(
                        #[trigger] distances[i],
                    )
                &&& forall|i: int|
                    i < b && is_near(distances, passed_over, limit, i) ==> distances[b].spec_lt(
                        #[trigger] distances[i],
                    )
            },
            None => forall|i: int| !is_near(distances, passed_over, limit, i),
        },
    decreases distances.len(),
{
    if distances.len() > 0 {
        let front = distances.drop_last();
        lemma_nearest(front, passed_over, limit);
        assert forall|i: int| 0 <= i < front.len() implies is_near(
            distances,
            passed_over,
            limit,
            i,
        ) == is_near(front, passed_over, limit, i) && front[i] == #[trigger] distances[i] by {}
        let last = distances.len() - 1;
        match nearest(front, passed_over, limit) {
            Some(b) => {
                assert(is_near(front, passed_over, limit, b));
                assert(distances[b] == front[b]);
            },
            None => {
                assert forall|i: int| i != last implies !is_near(distances, passed_over, limit, i) by {
                    if 0 <= i < front.len() {
                        assert(!is_near(front, passed_over, limit, i));
                        assert(front[i] == distances[i]);
                    }
                }
            },
        }
    }
}

/// The nearest position that counts. `passed_over` is a position that does not.
pub fn nearest_index(distances: &Vec<Scalar>, passed_over: Option<usize>, limit: Scalar) -> (result:
    Option<usize>)
    ensures
        ({
            let skipped = match passed_over {
                Some(p) => Some(p as int),
                None => None,
            };
            match (result, nearest(distances@, skipped, limit)) {
                (Some(i), Some(k)) => i == k && i < distances@.len(),
                (None, None) => true,
                _ => false,
            }
        }),
{
    let ghost skipped = match passed_over {
        Some(p) => Some(p as int),
        None => None,
    };
    let mut best: Option<usize> = None;
    let mut i: usize = 0;
    assert(distances@.take(0) =~= Seq::<Scalar>::empty());
    while i < distances.len()
        invariant
            i <= distances@.len(),
            skipped == (match passed_over {
                Some(p) => Some(p as int),
                None => None,
            }),
            match (best, nearest(distances@.take(i as int), skipped, limit)) {
                (Some(b), Some(k)) => b == k && b < i,
                (None, None) => true,
                _ => false,
            },
        decreases distances@.len() - i,
    {
        assert(distances@.take(i + 1).drop_last() =~= distances@.take(i as int));
        let skip = match passed_over {
            Some(p) => p == i,
            None => false,
        };
        if !skip && distances[i].le(limit) {
            let nearer = match best {
                Some(b) => distances[i].lt(distances[b]),
                None => true,
            };
            if nearer {
                best = Some(i);
            }
        }
        i += 1;
    }
    assert(distances@.take(i as int) =~= distances@);
    best
}

/// A filter keeps what is wanted of the items, and nothing else.
pub proof fn lemma_filter_keeps_the_wanted<T>(items: Seq<T>, wanted: spec_fn(T) -> bool, item: T)
    ensures
        items.filter(wanted).contains(item) <==> items.contains(item) && wanted(item),
        items.filter(wanted).len() <= items.len(),
    decreases items.len(),
{
    reveal(Seq::filter);
    if items.len() > 0 {
        let front = items.drop_last();
        lemma_filter_keeps_the_wanted(front, wanted, item);
        if wanted(items.last()) {
            crate::table::lemma_push_contains(front.filter(wanted), items.last());
        }
        assert(items =~= front.push(items.last()));
        crate::table::lemma_push_contains(front, items.last());
    }
}

} // verus!
