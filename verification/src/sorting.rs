//! A stable sort of items by an integer key.

use vstd::prelude::*;
use vstd::seq_lib::*;

verus! {

/// Whether the keys of `items` never fall.
pub open spec fn ordered_by<T>(items: Seq<T>, key: spec_fn(T) -> int) -> bool {
    forall|i: int, j: int| 0 <= i <= j < items.len() ==> key(items[i]) <= key(items[j])
}

/// The index just behind the last item of `items` whose key is at most
/// `bound`; zero where there is none.
pub open spec fn slot_by<T>(items: Seq<T>, key: spec_fn(T) -> int, bound: int) -> int
    decreases items.len(),
{
    if items.len() == 0 || key(items.last()) <= bound {
        items.len() as int
    } else {
        slot_by(items.drop_last(), key, bound)
    }
}

/// `items` by rising key, items of equal key in the order they came in: each
/// item in turn goes behind the last one sorted so far that does not come
/// after it.
pub open spec fn stable_sorted_by<T>(items: Seq<T>, key: spec_fn(T) -> int) -> Seq<T>
    decreases items.len(),
{
    if items.len() == 0 {
        items
    } else {
        let before = stable_sorted_by(items.drop_last(), key);
        before.insert(slot_by(before, key, key(items.last())), items.last())
    }
}

/// The test whether an item's key is `wanted`.
pub open spec fn has_key<T>(key: spec_fn(T) -> int, wanted: int) -> spec_fn(T) -> bool {
    |item: T| key(item) == wanted
}

/// The items of `items` whose key is `wanted`, in their order.
pub open spec fn with_key<T>(items: Seq<T>, key: spec_fn(T) -> int, wanted: int) -> Seq<T> {
    items.filter(has_key(key, wanted))
}

/// A slot lies within the sequence, every item from it on has a larger key,
/// and the item before it has not.
pub proof fn lemma_slot<T>(items: Seq<T>, key: spec_fn(T) -> int, bound: int)
    ensures
        0 <= slot_by(items, key, bound) <= items.len(),
        forall|i: int| slot_by(items, key, bound) <= i < items.len() ==> key(items[i]) > bound,
        slot_by(items, key, bound) > 0 ==> key(items[slot_by(items, key, bound) - 1]) <= bound,
    decreases items.len(),
{
    if items.len() == 0 || key(items.last()) <= bound {
    } else {
        let front = items.drop_last();
        lemma_slot(front, key, bound);
        assert forall|i: int| slot_by(items, key, bound) <= i < items.len() implies key(items[i])
            > bound by {
            if i < front.len() {
                assert(items[i] == front[i]);
            }
        }
        if slot_by(items, key, bound) > 0 {
            assert(items[slot_by(items, key, bound) - 1] == front[slot_by(front, key, bound) - 1]);
        }
    }
}

/// An index is the slot of a bound where every item before it is at most the
/// bound and every item from it on is larger.
pub proof fn lemma_slot_is<T>(items: Seq<T>, key: spec_fn(T) -> int, bound: int, at: int)
    requires
        0 <= at <= items.len(),
        forall|j: int| 0 <= j < at ==> key(#[trigger] items[j]) <= bound,
        forall|j: int| at <= j < items.len() ==> key(#[trigger] items[j]) > bound,
    ensures
        slot_by(items, key, bound) == at,
{
    lemma_slot(items, key, bound);
    let found = slot_by(items, key, bound);
    if found < at {
        assert(key(items[found]) <= bound);
    } else if found > at {
        assert(key(items[found - 1]) > bound);
    }
}

/// Sorting keeps the number of items.
pub proof fn lemma_sorted_len<T>(items: Seq<T>, key: spec_fn(T) -> int)
    ensures
        stable_sorted_by(items, key).len() == items.len(),
    decreases items.len(),
{
    if items.len() > 0 {
        let before = stable_sorted_by(items.drop_last(), key);
        lemma_sorted_len(items.drop_last(), key);
        lemma_slot(before, key, key(items.last()));
        before.insert_ensures(slot_by(before, key, key(items.last())), items.last());
    }
}

/// The keys of a sorted sequence never fall.
pub proof fn lemma_sorted_is_ordered<T>(items: Seq<T>, key: spec_fn(T) -> int)
    ensures
        ordered_by(stable_sorted_by(items, key), key),
    decreases items.len(),
{
    if items.len() > 0 {
        let before = stable_sorted_by(items.drop_last(), key);
        let item = items.last();
        let at = slot_by(before, key, key(item));
        lemma_sorted_is_ordered(items.drop_last(), key);
        lemma_slot(before, key, key(item));
        let after = before.insert(at, item);
        assert forall|i: int, j: int| 0 <= i <= j < after.len() implies key(after[i]) <= key(
            after[j],
        ) by {
            if i < at && at > 0 {
                assert(key(before[i]) <= key(before[at - 1]));
            }
            if j > at {
                assert(after[j] == before[j - 1]);
            }
            if i > at {
                assert(after[i] == before[i - 1]);
            }
        }
    }
}

/// A sorted sequence holds the items it was made from, each as often.
pub proof fn lemma_sorted_is_permutation<T>(items: Seq<T>, key: spec_fn(T) -> int)
    ensures
        stable_sorted_by(items, key).to_multiset() == items.to_multiset(),
    decreases items.len(),
{
    if items.len() > 0 {
        let before = stable_sorted_by(items.drop_last(), key);
        let item = items.last();
        lemma_sorted_is_permutation(items.drop_last(), key);
        lemma_slot(before, key, key(item));
        to_multiset_insert(before, slot_by(before, key, key(item)), item);
        to_multiset_build(items.drop_last(), item);
        assert(items.drop_last().push(item) =~= items);
    }
}

/// Sorting is stable: the items of any one key stand in a sorted sequence in
/// the order in which they came in.
pub proof fn lemma_sorted_is_stable<T>(items: Seq<T>, key: spec_fn(T) -> int, wanted: int)
    ensures
        with_key(stable_sorted_by(items, key), key, wanted) == with_key(items, key, wanted),
    decreases items.len(),
{
    let pred = has_key(key, wanted);
    if items.len() > 0 {
        let before = stable_sorted_by(items.drop_last(), key);
        let item = items.last();
        let at = slot_by(before, key, key(item));
        lemma_sorted_is_stable(items.drop_last(), key, wanted);
        lemma_slot(before, key, key(item));
        let head = before.subrange(0, at);
        let tail = before.subrange(at, before.len() as int);
        assert(before =~= head + tail);
        assert(stable_sorted_by(items, key) =~= head.push(item) + tail);
        Seq::filter_distributes_over_add(head, tail, pred);
        Seq::filter_distributes_over_add(head.push(item), tail, pred);
        head.lemma_filter_push(item, pred);
        items.drop_last().lemma_filter_push(item, pred);
        assert(items.drop_last().push(item) =~= items);
        if key(item) == wanted {
            assert forall|i: int| 0 <= i < tail.len() implies !pred(tail[i]) by {
                assert(tail[i] == before[at + i]);
            }
            tail.lemma_all_neg_filter_empty(pred);
            assert(head.filter(pred) + tail.filter(pred) =~= head.filter(pred));
            assert(head.filter(pred).push(item) + tail.filter(pred) =~= head.filter(pred).push(
                item,
            ));
        } else {
            assert(!pred(item));
        }
    } else {
        assert(stable_sorted_by(items, key) =~= items);
    }
}

/// A sequence whose keys never fall is its own sorted form.
pub proof fn lemma_ordered_stays<T>(items: Seq<T>, key: spec_fn(T) -> int)
    requires
        ordered_by(items, key),
    ensures
        stable_sorted_by(items, key) == items,
    decreases items.len(),
{
    if items.len() > 0 {
        let front = items.drop_last();
        assert forall|i: int, j: int| 0 <= i <= j < front.len() implies key(front[i]) <= key(
            front[j],
        ) by {
            assert(front[i] == items[i] && front[j] == items[j]);
        }
        lemma_ordered_stays(front, key);
        if front.len() > 0 {
            assert(front.last() == items[front.len() - 1]);
        }
        assert(slot_by(front, key, key(items.last())) == front.len());
        assert(front.insert(front.len() as int, items.last()) =~= items);
    }
}

/// Sorting the images of items by a key of the images is sorting the items
/// by the key of their images.
pub proof fn lemma_sorted_images<A, B>(
    items: Seq<A>,
    image: spec_fn(A) -> B,
    key: spec_fn(B) -> int,
    key_of_image: spec_fn(A) -> int,
)
    requires
        forall|item: A| #[trigger] key_of_image(item) == key(image(item)),
    ensures
        stable_sorted_by(items.map_values(image), key) == stable_sorted_by(
            items,
            key_of_image,
        ).map_values(image),
    decreases items.len(),
{
    let images = items.map_values(image);
    if items.len() > 0 {
        let front = items.drop_last();
        let item = items.last();
        lemma_sorted_images(front, image, key, key_of_image);
        assert(images.drop_last() =~= front.map_values(image));
        let before = stable_sorted_by(front, key_of_image);
        lemma_slot_images(before, image, key, key_of_image, key_of_image(item));
        lemma_slot(before, key_of_image, key_of_image(item));
        let at = slot_by(before, key_of_image, key_of_image(item));
        assert(before.map_values(image).insert(at, image(item)) =~= before.insert(
            at,
            item,
        ).map_values(image));
    } else {
        assert(stable_sorted_by(images, key) =~= stable_sorted_by(items, key_of_image).map_values(
            image,
        ));
    }
}

/// The slot among the images of items is the slot among the items.
pub proof fn lemma_slot_images<A, B>(
    items: Seq<A>,
    image: spec_fn(A) -> B,
    key: spec_fn(B) -> int,
    key_of_image: spec_fn(A) -> int,
    bound: int,
)
    requires
        forall|item: A| #[trigger] key_of_image(item) == key(image(item)),
    ensures
        slot_by(items.map_values(image), key, bound) == slot_by(items, key_of_image, bound),
    decreases items.len(),
{
    if items.len() > 0 {
        lemma_slot_images(items.drop_last(), image, key, key_of_image, bound);
        assert(items.map_values(image).drop_last() =~= items.drop_last().map_values(image));
    }
}

/// An item that is ordered by an integer key.
pub trait Keyed: Sized {
    /// The key by which the item is ordered.
    spec fn key(&self) -> int;

    /// Whether the item's key is at most `other`'s.
    fn not_after(&self, other: &Self) -> (yes: bool)
        ensures
            yes == (self.key() <= other.key()),
    ;
}

/// The key of an item, as a function.
pub open spec fn key_of<T: Keyed>() -> spec_fn(T) -> int {
    |item: T| item.key()
}

/// `items` by rising key, items of equal key in the order they came in.
pub open spec fn stable_sorted<T: Keyed>(items: Seq<T>) -> Seq<T> {
    stable_sorted_by(items, key_of::<T>())
}

/// The slot of `item` in a sorted run, found from the back.
fn slot_for<T: Keyed>(sorted: &Vec<T>, item: &T) -> (at: usize)
    ensures
        at == slot_by(sorted@, key_of::<T>(), item.key()),
        at <= sorted.len(),
{
    let mut at: usize = sorted.len();
    let mut found: bool = false;
    proof {
        assert(sorted@.subrange(0, at as int) =~= sorted@);
    }
    while at > 0 && !found
        invariant
            at <= sorted.len(),
            slot_by(sorted@, key_of::<T>(), item.key()) == slot_by(
                sorted@.subrange(0, at as int),
                key_of::<T>(),
                item.key(),
            ),
            found ==> slot_by(sorted@.subrange(0, at as int), key_of::<T>(), item.key()) == at,
        decreases at + (if found { 0int } else { 1int }),
    {
        if sorted[at - 1].not_after(item) {
            found = true;
        } else {
            proof {
                assert(sorted@.subrange(0, at as int).drop_last() =~= sorted@.subrange(
                    0,
                    at - 1,
                ));
            }
            at -= 1;
        }
    }
    at
}

/// Sorts `items` by rising key; items of equal key keep their order.
pub fn stable_sort<T: Keyed>(items: Vec<T>) -> (sorted: Vec<T>)
    ensures
        sorted@ == stable_sorted(items@),
        sorted.len() == items.len(),
{
    let ghost whole = items@;
    let mut rest = items;
    let mut sorted: Vec<T> = Vec::new();
    proof {
        assert(whole.subrange(0, 0) =~= Seq::<T>::empty());
        assert(rest@ =~= whole.subrange(0, whole.len() as int));
    }
    while rest.len() > 0
        invariant
            rest.len() <= whole.len(),
            rest@ == whole.subrange(whole.len() - rest.len(), whole.len() as int),
            sorted@ == stable_sorted(whole.subrange(0, whole.len() - rest.len())),
            sorted.len() == whole.len() - rest.len(),
        decreases rest.len(),
    {
        let ghost done = whole.len() - rest.len();
        let item = rest.remove(0);
        let at = slot_for(&sorted, &item);
        sorted.insert(at, item);
        proof {
            let next = whole.subrange(0, done + 1);
            assert(item == whole[done]);
            assert(next.drop_last() =~= whole.subrange(0, done));
            assert(next.last() == item);
            assert(rest@ =~= whole.subrange(whole.len() - rest.len(), whole.len() as int));
        }
    }
    proof {
        assert(whole.subrange(0, whole.len() as int) =~= whole);
    }
    sorted
}

} // verus!
