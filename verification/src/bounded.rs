//! The bounded collections of `heapless` that the kernel's queues are built on, and
//! what their operations are trusted to do.

use vstd::prelude::*;
use vstd::multiset::Multiset;
use heapless::binary_heap::{BinaryHeap, Max, Min};
use heapless::Vec as HVec;
use heapless::Deque;

verus! {

#[verifier::external_type_specification]
#[verifier::external_body]
#[verifier::reject_recursive_types(T)]
#[verifier::reject_recursive_types(K)]
pub struct ExBinaryHeap<T, K, const N: usize>(BinaryHeap<T, K, N>);

#[verifier::external_type_specification]
#[verifier::external_body]
pub struct ExMin(Min);

#[verifier::external_type_specification]
#[verifier::external_body]
pub struct ExMax(Max);

#[verifier::external_type_specification]
#[verifier::external_body]
#[verifier::reject_recursive_types(T)]
pub struct ExHVec<T, const N: usize>(HVec<T, N>);

#[verifier::external_type_specification]
#[verifier::external_body]
#[verifier::reject_recursive_types(T)]
pub struct ExDeque<T, const N: usize>(Deque<T, N>);

/// The order std gives pairs: by the first component, then by the second.
pub open spec fn pair_le(a: (u64, u64), b: (u64, u64)) -> bool {
    a.0 < b.0 || (a.0 == b.0 && a.1 <= b.1)
}

/// `x` is in `m` and no item of `m` comes before it.
pub open spec fn is_least(x: (u64, u64), m: Multiset<(u64, u64)>) -> bool {
    &&& m.contains(x)
    &&& forall|y: (u64, u64)| m.contains(y) ==> pair_le(x, y)
}

/// The items held by a min-heap of at most 64 pairs.
pub uninterp spec fn min_heap_items(h: BinaryHeap<(u64, u64), Min, 64>) -> Multiset<(u64, u64)>;

/// `BinaryHeap::new`: a heap that holds nothing.
#[verifier::external_body]
pub(crate) fn min_heap_new() -> (h: BinaryHeap<(u64, u64), Min, 64>)
    ensures
        min_heap_items(h) == Multiset::<(u64, u64)>::empty(),
{
    BinaryHeap::new()
}

/// `BinaryHeap::push`: adds the item unless the heap already holds 64 items, in which
/// case the item is handed back and the heap is unchanged.
#[verifier::external_body]
pub(crate) fn min_heap_push(h: &mut BinaryHeap<(u64, u64), Min, 64>, item: (u64, u64)) -> (r: Result<(), (u64, u64)>)
    ensures
        min_heap_items(*old(h)).len() < 64 ==> r is Ok && min_heap_items(*final(h))
            == min_heap_items(*old(h)).insert(item),
        min_heap_items(*old(h)).len() >= 64 ==> (r matches Err(x) && x == item && min_heap_items(
            *final(h),
        ) == min_heap_items(*old(h))),
{
    h.push(item)
}

/// `BinaryHeap::pop` on a min-heap: removes and returns the smallest item, or returns
/// nothing when the heap is empty.
#[verifier::external_body]
pub(crate) fn min_heap_pop(h: &mut BinaryHeap<(u64, u64), Min, 64>) -> (r: Option<(u64, u64)>)
    ensures
        min_heap_items(*old(h)).len() == 0 ==> r is None && min_heap_items(*final(h))
            == min_heap_items(*old(h)),
        min_heap_items(*old(h)).len() > 0 ==> (r matches Some(x) && is_least(
            x,
            min_heap_items(*old(h)),
        ) && min_heap_items(*final(h)) == min_heap_items(*old(h)).remove(x)),
{
    h.pop()
}

/// `BinaryHeap::peek` on a min-heap: the smallest item, or nothing when the heap is empty.
#[verifier::external_body]
pub(crate) fn min_heap_peek(h: &BinaryHeap<(u64, u64), Min, 64>) -> (r: Option<(u64, u64)>)
    ensures
        r is None <==> min_heap_items(*h).len() == 0,
        r matches Some(x) ==> is_least(x, min_heap_items(*h)),
{
    h.peek().copied()
}

/// The slots of a vector of at most 8 optional callback tokens, in order.
pub uninterp spec fn slot_items(v: HVec<Option<u64>, 8>) -> Seq<Option<u64>>;

/// `Vec::new`: a vector with no slots.
#[verifier::external_body]
pub(crate) fn slots_new() -> (v: HVec<Option<u64>, 8>)
    ensures
        slot_items(v) == Seq::<Option<u64>>::empty(),
{
    HVec::new()
}

/// `Vec::push`: appends the item unless the vector already holds 8 items, in which
/// case the item is handed back and the vector is unchanged.
#[verifier::external_body]
pub(crate) fn slots_push(v: &mut HVec<Option<u64>, 8>, item: Option<u64>) -> (r: Result<(), Option<u64>>)
    ensures
        slot_items(*old(v)).len() < 8 ==> r is Ok && slot_items(*final(v)) == slot_items(
            *old(v),
        ).push(item),
        slot_items(*old(v)).len() >= 8 ==> (r matches Err(x) && x == item && slot_items(*final(v))
            == slot_items(*old(v))),
{
    v.push(item)
}

/// The number of slots: `len` of the slice the vector derefs to.
#[verifier::external_body]
pub(crate) fn slots_len(v: &HVec<Option<u64>, 8>) -> (r: usize)
    ensures
        r == slot_items(*v).len(),
{
    v.len()
}

/// Slot `i`: indexing the slice the vector derefs to.
#[verifier::external_body]
pub(crate) fn slots_get(v: &HVec<Option<u64>, 8>, i: usize) -> (r: Option<u64>)
    requires
        i < slot_items(*v).len(),
    ensures
        r == slot_items(*v)[i as int],
{
    v[i]
}

/// Overwrites slot `i`: assigning through the mutable slice the vector derefs to.
#[verifier::external_body]
pub(crate) fn slots_set(v: &mut HVec<Option<u64>, 8>, i: usize, item: Option<u64>)
    requires
        i < slot_items(*old(v)).len(),
    ensures
        slot_items(*final(v)) == slot_items(*old(v)).update(i as int, item),
{
    v[i] = item;
}

/// The items of a double-ended queue of at most 32 task ids, front first.
pub uninterp spec fn deque_items(d: Deque<u64, 32>) -> Seq<u64>;

/// `Deque::new`: a queue that holds nothing.
#[verifier::external_body]
pub(crate) fn deque_new() -> (d: Deque<u64, 32>)
    ensures
        deque_items(d) == Seq::<u64>::empty(),
{
    Deque::new()
}

/// `Deque::len`: the number of items.
#[verifier::external_body]
pub(crate) fn deque_len(d: &Deque<u64, 32>) -> (r: usize)
    ensures
        r == deque_items(*d).len(),
{
    d.len()
}

/// `Deque::push_front`: puts the item in front unless the queue already holds 32 items,
/// in which case the item is handed back and the queue is unchanged.
#[verifier::external_body]
pub(crate) fn deque_push_front(d: &mut Deque<u64, 32>, item: u64) -> (r: Result<(), u64>)
    ensures
        deque_items(*old(d)).len() < 32 ==> r is Ok && deque_items(*final(d)) == seq![item]
            + deque_items(*old(d)),
        deque_items(*old(d)).len() >= 32 ==> (r matches Err(x) && x == item && deque_items(
            *final(d),
        ) == deque_items(*old(d))),
{
    d.push_front(item)
}

/// `Deque::push_back`: puts the item at the back unless the queue already holds 32
/// items, in which case the item is handed back and the queue is unchanged.
#[verifier::external_body]
pub(crate) fn deque_push_back(d: &mut Deque<u64, 32>, item: u64) -> (r: Result<(), u64>)
    ensures
        deque_items(*old(d)).len() < 32 ==> r is Ok && deque_items(*final(d)) == deque_items(
            *old(d),
        ).push(item),
        deque_items(*old(d)).len() >= 32 ==> (r matches Err(x) && x == item && deque_items(
            *final(d),
        ) == deque_items(*old(d))),
{
    d.push_back(item)
}

/// `Deque::pop_front`: removes and returns the front item, or returns nothing when the
/// queue is empty.
#[verifier::external_body]
pub(crate) fn deque_pop_front(d: &mut Deque<u64, 32>) -> (r: Option<u64>)
    ensures
        deque_items(*old(d)).len() == 0 ==> r is None && deque_items(*final(d)) == deque_items(
            *old(d),
        ),
        deque_items(*old(d)).len() > 0 ==> (r matches Some(x) && x == deque_items(*old(d))[0]
            && deque_items(*final(d)) == deque_items(*old(d)).drop_first()),
{
    d.pop_front()
}

/// `x` is in `m` and no item of `m` is above it.
pub open spec fn is_greatest(x: u64, m: Multiset<u64>) -> bool {
    &&& m.contains(x)
    &&& forall|y: u64| m.contains(y) ==> y <= x
}

/// The items held by a max-heap of at most 16 integers.
pub uninterp spec fn max_heap_items(h: BinaryHeap<u64, Max, 16>) -> Multiset<u64>;

/// `BinaryHeap::new`: a heap that holds nothing.
#[verifier::external_body]
pub(crate) fn max_heap_new() -> (h: BinaryHeap<u64, Max, 16>)
    ensures
        max_heap_items(h) == Multiset::<u64>::empty(),
{
    BinaryHeap::new()
}

/// `BinaryHeap::len`: the number of items.
#[verifier::external_body]
pub(crate) fn max_heap_len(h: &BinaryHeap<u64, Max, 16>) -> (r: usize)
    ensures
        r == max_heap_items(*h).len(),
{
    h.len()
}

/// `BinaryHeap::push`: adds the item unless the heap already holds 16 items, in which
/// case the item is handed back and the heap is unchanged.
#[verifier::external_body]
pub(crate) fn max_heap_push(h: &mut BinaryHeap<u64, Max, 16>, item: u64) -> (r: Result<(), u64>)
    ensures
        max_heap_items(*old(h)).len() < 16 ==> r is Ok && max_heap_items(*final(h))
            == max_heap_items(*old(h)).insert(item),
        max_heap_items(*old(h)).len() >= 16 ==> (r matches Err(x) && x == item && max_heap_items(
            *final(h),
        ) == max_heap_items(*old(h))),
{
    h.push(item)
}

/// `BinaryHeap::pop` on a max-heap: removes and returns the greatest item, or returns
/// nothing when the heap is empty.
#[verifier::external_body]
pub(crate) fn max_heap_pop(h: &mut BinaryHeap<u64, Max, 16>) -> (r: Option<u64>)
    ensures
        max_heap_items(*old(h)).len() == 0 ==> r is None && max_heap_items(*final(h))
            == max_heap_items(*old(h)),
        max_heap_items(*old(h)).len() > 0 ==> (r matches Some(x) && is_greatest(
            x,
            max_heap_items(*old(h)),
        ) && max_heap_items(*final(h)) == max_heap_items(*old(h)).remove(x)),
{
    h.pop()
}

} // verus!
