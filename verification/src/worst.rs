//! The bounded worst-offender set used by the metric diagnostics: a
//! `priority_queue::DoublePriorityQueue` holding bigram index pairs keyed
//! by their cost, so the minimum can be evicted once the set is full.
//!
//! The queue is keyed: pushing a present item replaces its priority.
//! Contents are modeled as a multiset of (item, priority) pairs.

use vstd::multiset::Multiset;
use vstd::prelude::*;

verus! {

/// `priority_queue::DoublePriorityQueue`: a keyed priority queue with
/// efficient access to both its minimum and its maximum.
#[verifier::external_type_specification]
#[verifier::external_body]
#[verifier::reject_recursive_types(I)]
#[verifier::reject_recursive_types(P)]
#[verifier::reject_recursive_types(H)]
pub struct ExDoublePriorityQueue<I, P, H>(priority_queue::DoublePriorityQueue<I, P, H>);

/// What the worst-offender queue holds: one (item, priority) pair per
/// stored bigram.
pub uninterp spec fn worst_contents(
    q: &priority_queue::DoublePriorityQueue<(u16, u16), u64, std::hash::RandomState>,
) -> Multiset<((u16, u16), u64)>;

/// Whether some pair with this item is in the contents.
pub open spec fn worst_has_item(ms: Multiset<((u16, u16), u64)>, it: (u16, u16)) -> bool {
    exists|p: u64| ms.count(((it, p))) > 0
}

/// Relies on `DoublePriorityQueue::with_capacity`: the new queue is
/// empty.
#[verifier::external_body]
pub(crate) fn worst_new(capacity: usize) -> (q: priority_queue::DoublePriorityQueue<
    (u16, u16),
    u64,
    std::hash::RandomState,
>)
    ensures
        worst_contents(&q) == Multiset::<((u16, u16), u64)>::empty(),
{
    priority_queue::DoublePriorityQueue::with_capacity(capacity)
}

/// Relies on `DoublePriorityQueue::len`: the number of stored items.
#[verifier::external_body]
pub(crate) fn worst_len(
    q: &priority_queue::DoublePriorityQueue<(u16, u16), u64, std::hash::RandomState>,
) -> (r: usize)
    ensures
        r == worst_contents(q).len(),
{
    q.len()
}

/// Relies on `DoublePriorityQueue::push`: inserts the item with the
/// priority; if an equal item is present, only its priority is replaced
/// and the old priority is returned.
#[verifier::external_body]
pub(crate) fn worst_push(
    q: &mut priority_queue::DoublePriorityQueue<(u16, u16), u64, std::hash::RandomState>,
    item: (u16, u16),
    priority: u64,
) -> (r: Option<u64>)
    ensures
        (!worst_has_item(worst_contents(old(q)), item) ==> r is None && worst_contents(final(q))
            == worst_contents(old(q)).insert(((item, priority)))),
        (worst_has_item(worst_contents(old(q)), item) ==> (exists|p: u64|
            worst_contents(old(q)).count(((item, p))) > 0 && r == Some(p) && worst_contents(
                final(q),
            ) == worst_contents(old(q)).remove(((item, p))).insert(((item, priority))))),
{
    q.push(item, priority)
}

/// Relies on `DoublePriorityQueue::pop_min`: removes and returns an item
/// with the lowest priority; `None` on an empty queue.
#[verifier::external_body]
pub(crate) fn worst_pop_min(
    q: &mut priority_queue::DoublePriorityQueue<(u16, u16), u64, std::hash::RandomState>,
) -> (r: Option<((u16, u16), u64)>)
    ensures
        match r {
            None => worst_contents(old(q)).len() == 0 && worst_contents(final(q))
                == worst_contents(old(q)),
            Some(pair) => {
                &&& worst_contents(old(q)).count(pair) > 0
                &&& worst_contents(final(q)) == worst_contents(old(q)).remove(pair)
                &&& (forall|it: (u16, u16), p: u64|
                    worst_contents(old(q)).count(((it, p))) > 0 ==> pair.1 <= p)
            },
        },
{
    q.pop_min()
}

/// Relies on `DoublePriorityQueue::into_sorted_iter`: yields all stored
/// (item, priority) pairs from the lowest priority to the highest.
#[verifier::external_body]
pub(crate) fn worst_into_sorted(
    q: priority_queue::DoublePriorityQueue<(u16, u16), u64, std::hash::RandomState>,
) -> (r: Vec<((u16, u16), u64)>)
    ensures
        r@.to_multiset() == worst_contents(&q),
        forall|a: int, b: int| 0 <= a < b < r@.len() ==> (#[trigger] r@[a]).1 <= (#[trigger] r@[b]).1,
{
    q.into_sorted_iter().collect()
}

} // verus!
