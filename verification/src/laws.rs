//! Registry-wide laws: facts that relate several operations or hold of
//! every reachable state, stated over the registry's model and proved once
//! and for all.

use vstd::prelude::*;

use crate::registry::lemma_selected_contains;
use crate::registry::Registry;
use crate::registry::Requester;

verus! {

/// In every well-formed registry the held accounts are a subset of the
/// roster. Construction starts well-formed with nothing held, and every
/// operation preserves well-formedness, so this holds at every point of
/// every call sequence.
pub proof fn lemma_held_within_roster(reg: Registry)
    requires
        reg.wf(),
    ensures
        reg.held_set().subset_of(reg.all_set()),
{
    assert forall|n: Seq<char>| reg.held_set().contains(n)
        implies reg.all_set().contains(n) by {
        let i = choose|i: int|
            0 <= i < reg.names().len() && reg.names()[i] == n && reg.flags()[i];
        assert(reg.names().contains(n));
    }
}

/// First come, first served: when two requesters join an empty waiting
/// list in turn — as `request_access` does while every account is held —
/// then the first two pops of the list — as two successful releases
/// perform — hand the freed accounts to those requesters in arrival order.
pub proof fn lemma_fifo_two_waiters(
    s0: Registry,
    s1: Registry,
    s2: Registry,
    s3: Registry,
    r1: Requester,
    r2: Requester,
    first: Requester,
    second: Requester,
)
    requires
        s0.queue().len() == 0,
        s1.queue() == s0.queue().push(r1),
        s2.queue() == s1.queue().push(r2),
        s2.queue().len() > 0,
        first == s2.queue()[0],
        s3.queue() == s2.queue().drop_first(),
        s3.queue().len() > 0,
        second == s3.queue()[0],
    ensures
        first == r1,
        second == r2,
{
    assert(s2.queue()[0] == r1);
    assert(s3.queue()[0] == s2.queue()[1]);
}

/// After a successful release of an account — which turns its flag off,
/// as `release`'s contract states — the account is known but no longer
/// held, so a second release without an intervening acquire must, again by
/// that contract, fail with `NotHeld` and mutate nothing.
pub proof fn lemma_release_makes_not_held(before: Registry, after: Registry, name: Seq<char>)
    requires
        before.wf(),
        after.wf(),
        after.names() == before.names(),
        after.flags().len() == before.flags().len(),
        forall|i: int| 0 <= i < after.flags().len() ==>
            after.flags()[i] == (before.flags()[i] && before.names()[i] != name),
    ensures
        !after.is_held(name),
        after.is_known(name) == before.is_known(name),
{
}

/// The two halves of `status` partition the roster: seen as sets, the held
/// names and the free names are disjoint, and together they are exactly
/// the roster's names — no account is in both lists or in neither.
pub proof fn lemma_status_partition(reg: Registry)
    requires
        reg.wf(),
    ensures
        reg.held_names().to_set().intersect(reg.free_names().to_set())
            == Set::<Seq<char>>::empty(),
        reg.held_names().to_set().union(reg.free_names().to_set()) == reg.all_set(),
{
    let held = reg.held_names().to_set();
    let free = reg.free_names().to_set();
    assert forall|n: Seq<char>| held.contains(n) implies !free.contains(n) by {
        lemma_selected_contains(reg.names(), reg.flags(), true, n);
        lemma_selected_contains(reg.names(), reg.flags(), false, n);
        if free.contains(n) {
            let i = choose|i: int|
                0 <= i < reg.names().len() && reg.names()[i] == n && reg.flags()[i] == true;
            let j = choose|j: int|
                0 <= j < reg.names().len() && reg.names()[j] == n && reg.flags()[j] == false;
            if i < j {
                assert(reg.names()[i] != reg.names()[j]);
            } else {
                assert(reg.names()[j] != reg.names()[i]);
            }
        }
    }
    assert(held.intersect(free) =~= Set::<Seq<char>>::empty());
    assert forall|n: Seq<char>| reg.all_set().contains(n)
        implies held.contains(n) || free.contains(n) by {
        let i = choose|i: int| 0 <= i < reg.names().len() && reg.names()[i] == n;
        lemma_selected_contains(reg.names(), reg.flags(), reg.flags()[i], n);
    }
    assert forall|n: Seq<char>| held.contains(n) || free.contains(n)
        implies reg.all_set().contains(n) by {
        lemma_selected_contains(reg.names(), reg.flags(), true, n);
        lemma_selected_contains(reg.names(), reg.flags(), false, n);
        if held.contains(n) {
            let i = choose|i: int|
                0 <= i < reg.names().len() && reg.names()[i] == n && reg.flags()[i] == true;
            assert(reg.names().contains(n));
        } else {
            let i = choose|i: int|
                0 <= i < reg.names().len() && reg.names()[i] == n && reg.flags()[i] == false;
            assert(reg.names().contains(n));
        }
    }
    assert(held.union(free) =~= reg.all_set());
}

} // verus!
