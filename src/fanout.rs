use vstd::prelude::*;
use crate::model::{Notification, Reaction, unread};
use crate::store::{NotificationStore, has_note, notes_unique};

verus! {

/// The notifications after fanning entry `e` out to `subs`, one subscriber after another:
/// a subscriber without a notification for `e` gets an unread one.
pub open spec fn fan_out_spec(ns: Seq<Notification>, e: int, subs: Seq<u64>) -> Seq<Notification>
    decreases subs.len(),
{
    if subs.len() == 0 {
        ns
    } else {
        let acc = fan_out_spec(ns, e, subs.drop_last());
        if has_note(acc, e, subs.last()) {
            acc
        } else {
            acc.push(unread(e, subs.last()))
        }
    }
}

/// The notifications of `ns` that belong to entry `e`, in order.
pub open spec fn notes_for(ns: Seq<Notification>, e: int) -> Seq<Notification>
    decreases ns.len(),
{
    if ns.len() == 0 {
        ns
    } else if ns.last().entry_id == e {
        notes_for(ns.drop_last(), e).push(ns.last())
    } else {
        notes_for(ns.drop_last(), e)
    }
}

/// Fans entry `entry_id` out to every subscriber: each one without a notification for it
/// gets an unread one; a subscriber that already has one is skipped.
pub fn fan_out(notes: &mut NotificationStore, entry_id: usize, subscribers: &Vec<u64>) -> (r: usize)
    requires
        old(notes).wf(),
    ensures
        final(notes).wf(),
        final(notes)@ == fan_out_spec(old(notes)@, entry_id as int, subscribers@),
        r == final(notes)@.len() - old(notes)@.len(),
{
    let mut i: usize = 0;
    let mut added: usize = 0;
    while i < subscribers.len()
        invariant
            0 <= i <= subscribers@.len(),
            notes.wf(),
            notes@ == fan_out_spec(old(notes)@, entry_id as int, subscribers@.take(i as int)),
            added == notes@.len() - old(notes)@.len(),
            notes@.len() <= old(notes)@.len() + i,
        decreases subscribers@.len() - i,
    {
        let u = subscribers[i];
        proof {
            assert(subscribers@.take(i as int + 1).drop_last() =~= subscribers@.take(i as int));
        }
        if notes.insert_notification(entry_id, u).is_ok() {
            added += 1;
        }
        i += 1;
    }
    proof {
        assert(subscribers@.take(i as int) =~= subscribers@);
    }
    added
}

/// Fan-out only grows the store: what was there stays in place.
pub proof fn lemma_fan_out_extends(ns: Seq<Notification>, e: int, subs: Seq<u64>)
    ensures
        fan_out_spec(ns, e, subs).len() >= ns.len(),
        forall|i: int| 0 <= i < ns.len() ==> fan_out_spec(ns, e, subs)[i] == ns[i],
    decreases subs.len(),
{
    if subs.len() > 0 {
        lemma_fan_out_extends(ns, e, subs.drop_last());
    }
}

/// After fan-out every subscriber has a notification for the entry.
pub proof fn lemma_fan_out_covers(ns: Seq<Notification>, e: int, subs: Seq<u64>)
    requires
        0 <= e <= usize::MAX,
    ensures
        forall|k: int| 0 <= k < subs.len() ==> has_note(fan_out_spec(ns, e, subs), e, #[trigger] subs[k]),
    decreases subs.len(),
{
    if subs.len() > 0 {
        let prev = subs.drop_last();
        lemma_fan_out_covers(ns, e, prev);
        let acc = fan_out_spec(ns, e, prev);
        let r = fan_out_spec(ns, e, subs);
        assert(subs.drop_last() == prev);
        assert forall|k: int| 0 <= k < subs.len() implies has_note(r, e, #[trigger] subs[k]) by {
            if k < subs.len() - 1 {
                assert(prev[k] == subs[k]);
                assert(has_note(acc, e, prev[k]));
                let w = choose|w: int| 0 <= w < acc.len() && (#[trigger] acc[w]).entry_id == e
                    && acc[w].user_id == subs[k];
                if has_note(acc, e, subs.last()) {
                    assert(r == acc);
                } else {
                    assert(r == acc.push(unread(e, subs.last())));
                    assert(r[w] == acc[w]);
                }
            } else if !has_note(acc, e, subs.last()) {
                assert(r == acc.push(unread(e, subs.last())));
                assert(r[acc.len() as int] == unread(e, subs.last()));
            }
        }
    }
}

/// Fanning out to subscribers that all have a notification for the entry changes nothing.
pub proof fn lemma_fan_out_noop(ns: Seq<Notification>, e: int, subs: Seq<u64>)
    requires
        forall|k: int| 0 <= k < subs.len() ==> has_note(ns, e, #[trigger] subs[k]),
    ensures
        fan_out_spec(ns, e, subs) == ns,
    decreases subs.len(),
{
    if subs.len() > 0 {
        let prev = subs.drop_last();
        assert forall|k: int| 0 <= k < prev.len() implies has_note(ns, e, #[trigger] prev[k]) by {
            assert(prev[k] == subs[k]);
        }
        lemma_fan_out_noop(ns, e, prev);
        assert(has_note(ns, e, subs[subs.len() - 1]));
    }
}

/// Fan-out is idempotent: running it again for the same entry and subscribers adds nothing.
pub proof fn lemma_fan_out_idempotent(ns: Seq<Notification>, e: int, subs: Seq<u64>)
    requires
        0 <= e <= usize::MAX,
    ensures
        fan_out_spec(fan_out_spec(ns, e, subs), e, subs) == fan_out_spec(ns, e, subs),
{
    lemma_fan_out_covers(ns, e, subs);
    lemma_fan_out_noop(fan_out_spec(ns, e, subs), e, subs);
}

/// The notifications of an entry after fan-out to distinct subscribers, where it had none
/// before: exactly one per subscriber, in the subscribers' order, each unread.
pub proof fn lemma_fan_out_complete(ns: Seq<Notification>, e: int, subs: Seq<u64>)
    requires
        0 <= e <= usize::MAX,
        notes_for(ns, e).len() == 0,
        subs.no_duplicates(),
    ensures
        notes_for(fan_out_spec(ns, e, subs), e) == subs.map_values(|u: u64| unread(e, u)),
        notes_for(fan_out_spec(ns, e, subs), e).len() == subs.len(),
    decreases subs.len(),
{
    let target = subs.map_values(|u: u64| unread(e, u));
    if subs.len() == 0 {
        assert(notes_for(ns, e) =~= target);
    } else {
        let prev = subs.drop_last();
        assert(prev.no_duplicates());
        lemma_fan_out_complete(ns, e, prev);
        let acc = fan_out_spec(ns, e, prev);
        let u = subs.last();
        lemma_notes_for_has(acc, e, u);
        if has_note(acc, e, u) {
            let w = choose|w: int| 0 <= w < notes_for(acc, e).len() && (#[trigger] notes_for(acc, e)[w]).user_id == u;
            assert(notes_for(acc, e)[w] == unread(e, prev[w]));
            assert(prev[w] == subs[w]);
            assert(false);
        }
        let r = acc.push(unread(e, u));
        assert(r.drop_last() =~= acc);
        assert(notes_for(r, e) =~= target);
    }
}

/// An entry's notification for a user lies among the entry's notifications.
pub proof fn lemma_notes_for_has(ns: Seq<Notification>, e: int, u: u64)
    requires
        0 <= e <= usize::MAX,
    ensures
        has_note(ns, e, u) ==> exists|w: int| 0 <= w < notes_for(ns, e).len() && (#[trigger] notes_for(ns, e)[w]).user_id == u,
    decreases ns.len(),
{
    if ns.len() > 0 {
        let prev = ns.drop_last();
        lemma_notes_for_has(prev, e, u);
        if has_note(ns, e, u) {
            let i = choose|i: int| 0 <= i < ns.len() && (#[trigger] ns[i]).entry_id == e && ns[i].user_id == u;
            if i < ns.len() - 1 {
                assert(prev[i] == ns[i]);
                let w = choose|w: int| 0 <= w < notes_for(prev, e).len() && (#[trigger] notes_for(prev, e)[w]).user_id == u;
                assert(notes_for(ns, e)[w] == notes_for(prev, e)[w]);
            } else {
                let n = notes_for(ns, e).len() - 1;
                assert(notes_for(ns, e)[n].user_id == u);
            }
        }
    }
}

} // verus!
