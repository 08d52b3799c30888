//! The frontier of a shortest-path query: the `priority_queue` crate's
//! `PriorityQueue`, holding node positions keyed by a priority, with the
//! operations the query needs. The greatest priority leaves first.

use priority_queue::PriorityQueue;
use vstd::prelude::*;

verus! {

#[verifier::external_type_specification]
#[verifier::external_body]
#[verifier::reject_recursive_types(I)]
#[verifier::reject_recursive_types(P)]
#[verifier::reject_recursive_types(H)]
pub struct ExPriorityQueue<I, P, H>(PriorityQueue<I, P, H>);

/// The frontier's queue: node positions with their priorities.
pub type Frontier = PriorityQueue<usize, u128>;

/// What the queue holds: each item with its priority.
pub uninterp spec fn frontier_items(q: Frontier) -> Map<usize, u128>;

/// Relies on `PriorityQueue::new`: a new queue holds nothing.
#[verifier::external_body]
pub(crate) fn frontier_new() -> (r: Frontier)
    ensures
        frontier_items(r).dom() == Set::<usize>::empty(),
{
    PriorityQueue::new()
}

/// Relies on `PriorityQueue::push`: the item is held with the given priority,
/// replacing the priority of an equal item already held.
#[verifier::external_body]
pub(crate) fn frontier_push(q: &mut Frontier, item: usize, priority: u128)
    ensures
        frontier_items(*final(q)) == frontier_items(*old(q)).insert(item, priority),
{
    q.push(item, priority);
}

/// Relies on `PriorityQueue::is_empty`: true exactly when nothing is held.
#[verifier::external_body]
pub(crate) fn frontier_is_empty(q: &Frontier) -> (r: bool)
    ensures
        r == (frontier_items(*q).dom() == Set::<usize>::empty()),
{
    q.is_empty()
}

/// Relies on `PriorityQueue::pop`: removes and returns an item of the greatest
/// priority with that priority, or returns `None` when nothing is held.
#[verifier::external_body]
pub(crate) fn frontier_pop(q: &mut Frontier) -> (r: Option<(usize, u128)>)
    ensures
        match r {
            None => {
                &&& frontier_items(*old(q)).dom() == Set::<usize>::empty()
                &&& frontier_items(*final(q)) == frontier_items(*old(q))
            },
            Some((item, priority)) => {
                &&& frontier_items(*old(q)).contains_key(item)
                &&& frontier_items(*old(q))[item] == priority
                &&& forall|j: usize| #[trigger]
                    frontier_items(*old(q)).contains_key(j) ==> frontier_items(*old(q))[j]
                        <= priority
                &&& frontier_items(*final(q)) == frontier_items(*old(q)).remove(item)
            },
        },
{
    q.pop()
}

/// Relies on `PriorityQueue::get`: the priority of the item, if it is held.
#[verifier::external_body]
pub(crate) fn frontier_get(q: &Frontier, item: usize) -> (r: Option<u128>)
    ensures
        r == if frontier_items(*q).contains_key(item) {
            Some(frontier_items(*q)[item])
        } else {
            None::<u128>
        },
{
    q.get(&item).map(|(_, p)| *p)
}

/// Relies on `PriorityQueue::change_priority`: an item that is held gets the
/// new priority; otherwise nothing changes.
#[verifier::external_body]
pub(crate) fn frontier_change_priority(q: &mut Frontier, item: usize, priority: u128)
    ensures
        frontier_items(*final(q)) == if frontier_items(*old(q)).contains_key(item) {
            frontier_items(*old(q)).insert(item, priority)
        } else {
            frontier_items(*old(q))
        },
{
    q.change_priority(&item, priority);
}

} // verus!
