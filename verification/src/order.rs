//! Sorting: names by their bytes, and numbers by size.

use vstd::prelude::*;

verus! {

/// Whether a name comes before another one or is the same.
pub open spec fn name_le(left: Seq<u8>, right: Seq<u8>) -> bool
    decreases left.len(),
{
    ||| left.len() == 0
    ||| right.len() > 0 && (left[0] < right[0] || (left[0] == right[0] && name_le(
        left.drop_first(),
        right.drop_first(),
    )))
}

/// Of two names one comes first, or they are the same.
pub proof fn names_are_ordered(left: Seq<u8>, right: Seq<u8>)
    ensures
        name_le(left, right) || name_le(right, left),
        name_le(left, right) && name_le(right, left) ==> left == right,
    decreases left.len(),
{
    if left.len() > 0 && right.len() > 0 {
        names_are_ordered(left.drop_first(), right.drop_first());
        if left[0] == right[0] && left.drop_first() == right.drop_first() {
            assert(left =~= seq![left[0]] + left.drop_first());
            assert(right =~= seq![right[0]] + right.drop_first());
        }
    } else if left.len() == 0 && right.len() == 0 {
        assert(left =~= right);
    }
}

/// The order of names is transitive.
pub proof fn name_order_is_transitive(first: Seq<u8>, second: Seq<u8>, third: Seq<u8>)
    requires
        name_le(first, second),
        name_le(second, third),
    ensures
        name_le(first, third),
    decreases first.len(),
{
    if first.len() > 0 && first[0] == second[0] && second[0] == third[0] {
        name_order_is_transitive(first.drop_first(), second.drop_first(), third.drop_first());
    }
}

/// Whether a name comes before another one or is the same.
pub fn name_is_before(left: &[u8], right: &[u8]) -> (result: bool)
    ensures
        result == name_le(left@, right@),
{
    let mut index: usize = 0;
    assert(left@.subrange(0, left.len() as int) =~= left@);
    assert(right@.subrange(0, right.len() as int) =~= right@);
    while index < left.len()
        invariant
            index <= left.len(),
            index <= right.len(),
            name_le(left@, right@) == name_le(
                left@.subrange(index as int, left.len() as int),
                right@.subrange(index as int, right.len() as int),
            ),
        decreases left.len() - index,
    {
        proof {
            let a = left@.subrange(index as int, left.len() as int);
            let b = right@.subrange(index as int, right.len() as int);
            assert(a.drop_first() =~= left@.subrange(index + 1, left.len() as int));
            if b.len() > 0 {
                assert(b.drop_first() =~= right@.subrange(index + 1, right.len() as int));
            }
        }
        if index >= right.len() {
            return false;
        }
        if left[index] != right[index] {
            return left[index] < right[index];
        }
        index += 1;
    }
    true
}

/// What things are sorted by.
pub trait SortKey: Sized {
    /// Whether a key comes before another one or is the same.
    spec fn key_le(self, other: Self) -> bool;

    proof fn keys_are_ordered(left: Self, right: Self)
        ensures
            left.key_le(right) || right.key_le(left),
    ;

    proof fn key_order_is_transitive(first: Self, second: Self, third: Self)
        requires
            first.key_le(second),
            second.key_le(third),
        ensures
            first.key_le(third),
    ;

    /// Whether a key comes before another one or is the same.
    fn is_before(&self, other: &Self) -> (result: bool)
        ensures
            result == self.key_le(*other),
    ;
}

impl SortKey for Vec<u8> {
    open spec fn key_le(self, other: Self) -> bool {
        name_le(self@, other@)
    }

    proof fn keys_are_ordered(left: Self, right: Self) {
        names_are_ordered(left@, right@);
    }

    proof fn key_order_is_transitive(first: Self, second: Self, third: Self) {
        name_order_is_transitive(first@, second@, third@);
    }

    fn is_before(&self, other: &Self) -> (result: bool) {
        name_is_before(self.as_slice(), other.as_slice())
    }
}

impl SortKey for usize {
    open spec fn key_le(self, other: Self) -> bool {
        self <= other
    }

    proof fn keys_are_ordered(left: Self, right: Self) {
    }

    proof fn key_order_is_transitive(first: Self, second: Self, third: Self) {
    }

    fn is_before(&self, other: &Self) -> (result: bool) {
        *self <= *other
    }
}

/// Whether the keys at these indices are in order.
pub open spec fn in_order<K: SortKey>(keys: Seq<K>, order: Seq<usize>) -> bool {
    forall|i: int, j: int|
        0 <= i < j < order.len() ==> keys[#[trigger] order[i] as int].key_le(
            keys[#[trigger] order[j] as int],
        )
}

/// Whether all indices are valid and none occurs twice.
pub open spec fn distinct_indices<K: SortKey>(keys: Seq<K>, order: Seq<usize>) -> bool {
    &&& forall|i: int| 0 <= i < order.len() ==> (#[trigger] order[i]) < keys.len()
    &&& order.no_duplicates()
}

/// Whether `result` holds the same indices as `order`, each once, with their keys in order.
pub open spec fn sorts<K: SortKey>(keys: Seq<K>, order: Seq<usize>, result: Seq<usize>) -> bool {
    &&& distinct_indices(keys, result)
    &&& in_order(keys, result)
    &&& result.len() == order.len()
    &&& forall|index: usize| #[trigger] result.contains(index) <==> order.contains(index)
}

/// Merges two lists of indices whose keys are in order.
fn merge<K: SortKey>(keys: &[K], left: &[usize], right: &[usize]) -> (result: Vec<usize>)
    requires
        distinct_indices(keys@, left@),
        distinct_indices(keys@, right@),
        in_order(keys@, left@),
        in_order(keys@, right@),
        forall|index: usize| left@.contains(index) ==> !#[trigger] right@.contains(index),
    ensures
        sorts(keys@, left@ + right@, result@),
{
    let ghost models = keys@;
    let mut result: Vec<usize> = Vec::new();
    let mut from_left: usize = 0;
    let mut from_right: usize = 0;
    while from_left < left.len() || from_right < right.len()
        invariant
            models == keys@,
            from_left <= left.len(),
            from_right <= right.len(),
            distinct_indices(models, left@),
            distinct_indices(models, right@),
            in_order(models, left@),
            in_order(models, right@),
            forall|index: usize| left@.contains(index) ==> !#[trigger] right@.contains(index),
            result.len() == from_left + from_right,
            distinct_indices(models, result@),
            in_order(models, result@),
            forall|index: usize| #[trigger]
                result@.contains(index) <==> left@.subrange(0, from_left as int).contains(index)
                    || right@.subrange(0, from_right as int).contains(index),
            forall|i: int, j: int|
                0 <= i < result.len() && from_left <= j < left.len() ==> models[#[trigger] result[i] as int].key_le(
                    models[#[trigger] left[j] as int],
                ),
            forall|i: int, j: int|
                0 <= i < result.len() && from_right <= j < right.len() ==> models[#[trigger] result[i] as int].key_le(
                    models[#[trigger] right[j] as int],
                ),
        decreases left.len() - from_left + right.len() - from_right,
    {
        let take_left: bool = if from_left >= left.len() {
            false
        } else if from_right >= right.len() {
            true
        } else {
            assert(left[from_left as int] < models.len());
            assert(right[from_right as int] < models.len());
            keys[left[from_left]].is_before(&keys[right[from_right]])
        };
        let ghost before = result@;
        let ghost left_done = left@.subrange(0, from_left as int);
        let ghost right_done = right@.subrange(0, from_right as int);
        if take_left {
            let index: usize = left[from_left];
            proof {
                assert(index < models.len());
                assert(left@.contains(index));
                assert(!left_done.contains(index)) by {
                    if left_done.contains(index) {
                        let k = choose|k: int| 0 <= k < left_done.len() && left_done[k] == index;
                        assert(left@[k] == left@[from_left as int]);
                    }
                }
                assert(!right_done.contains(index)) by {
                    if right_done.contains(index) {
                        let k = choose|k: int| 0 <= k < right_done.len() && right_done[k] == index;
                        assert(right@[k] == index);
                        assert(right@.contains(index));
                    }
                }
                assert(!before.contains(index));
                lemma_extended(left@, from_left as int);
                if from_right < right.len() {
                    lemma_rest_is_behind(models, index, right@, from_right as int);
                }
            }
            result.push(index);
            proof {
                lemma_pushed(before, index);
            }
            from_left += 1;
        } else {
            let index: usize = right[from_right];
            proof {
                assert(index < models.len());
                assert(right@.contains(index));
                assert(!right_done.contains(index)) by {
                    if right_done.contains(index) {
                        let k = choose|k: int| 0 <= k < right_done.len() && right_done[k] == index;
                        assert(right@[k] == right@[from_right as int]);
                    }
                }
                assert(!left_done.contains(index)) by {
                    if left_done.contains(index) {
                        let k = choose|k: int| 0 <= k < left_done.len() && left_done[k] == index;
                        assert(left@[k] == index);
                        assert(left@.contains(index));
                    }
                }
                assert(!before.contains(index));
                lemma_extended(right@, from_right as int);
                if from_left < left.len() {
                    K::keys_are_ordered(
                        models[left[from_left as int] as int],
                        models[index as int],
                    );
                    lemma_rest_is_behind(models, index, left@, from_left as int);
                }
            }
            result.push(index);
            proof {
                lemma_pushed(before, index);
            }
            from_right += 1;
        }
    }
    proof {
        assert(left@.subrange(0, left.len() as int) =~= left@);
        assert(right@.subrange(0, right.len() as int) =~= right@);
        lemma_sum_contains(left@, right@);
    }
    result
}

proof fn lemma_extended(values: Seq<usize>, count: int)
    requires
        0 <= count < values.len(),
    ensures
        forall|index: usize| #[trigger]
            values.subrange(0, count + 1).contains(index) <==> values.subrange(0, count).contains(
                index,
            ) || index == values[count],
{
    let shorter = values.subrange(0, count);
    let longer = values.subrange(0, count + 1);
    assert(longer =~= shorter.push(values[count]));
    lemma_pushed(shorter, values[count]);
}

proof fn lemma_pushed(values: Seq<usize>, value: usize)
    ensures
        forall|index: usize| #[trigger]
            values.push(value).contains(index) <==> values.contains(index) || index == value,
{
    let longer = values.push(value);
    assert(longer[values.len() as int] == value);
    assert forall|index: usize| #[trigger] longer.contains(index) <==> values.contains(index)
        || index == value by {
        if values.contains(index) {
            let k = choose|k: int| 0 <= k < values.len() && values[k] == index;
            assert(longer[k] == index);
        }
        if longer.contains(index) {
            let k = choose|k: int| 0 <= k < longer.len() && longer[k] == index;
            if k < values.len() {
                assert(values[k] == index);
            }
        }
    }
}

proof fn lemma_sum_contains(left: Seq<usize>, right: Seq<usize>)
    ensures
        forall|index: usize| #[trigger]
            (left + right).contains(index) <==> left.contains(index) || right.contains(index),
{
    let both = left + right;
    assert forall|index: usize| #[trigger] both.contains(index) <==> left.contains(index)
        || right.contains(index) by {
        if left.contains(index) {
            let k = choose|k: int| 0 <= k < left.len() && left[k] == index;
            assert(both[k] == index);
        }
        if right.contains(index) {
            let k = choose|k: int| 0 <= k < right.len() && right[k] == index;
            assert(both[left.len() + k] == index);
        }
        if both.contains(index) {
            let k = choose|k: int| 0 <= k < both.len() && both[k] == index;
            if k < left.len() {
                assert(left[k] == index);
            } else {
                assert(right[k - left.len()] == index);
            }
        }
    }
}

/// A key that comes before the first of a list in order comes before all of it.
proof fn lemma_rest_is_behind<K: SortKey>(keys: Seq<K>, index: usize, values: Seq<usize>, from: int)
    requires
        0 <= from < values.len(),
        in_order(keys, values),
        keys[index as int].key_le(keys[values[from] as int]),
    ensures
        forall|j: int|
            from <= j < values.len() ==> keys[index as int].key_le(
                keys[#[trigger] values[j] as int],
            ),
{
    assert forall|j: int| from <= j < values.len() implies keys[index as int].key_le(
        keys[#[trigger] values[j] as int],
    ) by {
        if from < j {
            assert(keys[values[from] as int].key_le(keys[values[j] as int]));
            K::key_order_is_transitive(
                keys[index as int],
                keys[values[from] as int],
                keys[values[j] as int],
            );
        }
    }
}

/// Puts indices in the order of their keys.
pub fn sort_indices<K: SortKey>(keys: &[K], order: &[usize]) -> (result: Vec<usize>)
    requires
        distinct_indices(keys@, order@),
    ensures
        sorts(keys@, order@, result@),
    decreases order.len(),
{
    if order.len() <= 1 {
        let mut result: Vec<usize> = Vec::new();
        if order.len() == 1 {
            result.push(order[0]);
        }
        assert(result@ =~= order@);
        return result;
    }
    let middle: usize = order.len() / 2;
    let left_part: &[usize] = &order[0..middle];
    let right_part: &[usize] = &order[middle..order.len()];
    proof {
        assert forall|i: int, j: int|
            0 <= i < left_part.len() && 0 <= j < left_part.len() && i != j implies left_part@[i]
            != left_part@[j] by {
            assert(order@[i] != order@[j]);
        }
        assert forall|i: int, j: int|
            0 <= i < right_part.len() && 0 <= j < right_part.len() && i
                != j implies right_part@[i] != right_part@[j] by {
            assert(order@[middle + i] != order@[middle + j]);
        }
        assert(order@ =~= left_part@ + right_part@);
        assert forall|index: usize| left_part@.contains(index) implies !#[trigger]
            right_part@.contains(index) by {
            if right_part@.contains(index) {
                let i = choose|i: int| 0 <= i < left_part@.len() && left_part@[i] == index;
                let j = choose|j: int| 0 <= j < right_part@.len() && right_part@[j] == index;
                assert(order@[i] == order@[middle + j]);
            }
        }
    }
    let left: Vec<usize> = sort_indices(keys, left_part);
    let right: Vec<usize> = sort_indices(keys, right_part);
    proof {
        assert forall|index: usize| left@.contains(index) implies !#[trigger] right@.contains(
            index,
        ) by {
            assert(left_part@.contains(index));
        }
        lemma_sum_contains(left@, right@);
        lemma_sum_contains(left_part@, right_part@);
    }
    merge(keys, left.as_slice(), right.as_slice())
}

} // verus!
