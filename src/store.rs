use vstd::prelude::*;
use crate::model::{Entry, Notification, Reaction, unread};

verus! {

/// Why an insert was refused.
#[derive(Clone, Copy, Debug, PartialEq, Eq, Structural)]
pub enum InsertError {
    /// A row with the same uniqueness key is already stored.
    Conflict,
}

/// Whether `es` holds an entry of source `sid` with link `url`.
pub open spec fn has_entry(es: Seq<Entry>, sid: u64, url: Seq<char>) -> bool {
    exists|i: int| 0 <= i < es.len() && (#[trigger] es[i]).source_id == sid && es[i].url@ == url
}

/// No two entries share a (source, url) key.
pub open spec fn entries_unique(es: Seq<Entry>) -> bool {
    forall|i: int, j: int|
        0 <= i < es.len() && 0 <= j < es.len() && i != j && (#[trigger] es[i]).source_id
            == (#[trigger] es[j]).source_id ==> es[i].url@ != es[j].url@
}

/// In a well-formed store at most one entry has a given (source, url) key.
pub proof fn lemma_at_most_one_entry(es: Seq<Entry>, sid: u64, url: Seq<char>, i: int, j: int)
    requires
        entries_unique(es),
        0 <= i < es.len(),
        0 <= j < es.len(),
        es[i].source_id == sid && es[i].url@ == url,
        es[j].source_id == sid && es[j].url@ == url,
    ensures
        i == j,
{
}

/// Whether `ns` holds a notification of user `uid` for entry `eid`.
pub open spec fn has_note(ns: Seq<Notification>, eid: int, uid: u64) -> bool {
    exists|i: int| 0 <= i < ns.len() && (#[trigger] ns[i]).entry_id == eid && ns[i].user_id == uid
}

/// No two notifications share an (entry, user) key.
pub open spec fn notes_unique(ns: Seq<Notification>) -> bool {
    forall|i: int, j: int|
        0 <= i < ns.len() && 0 <= j < ns.len() && i != j && (#[trigger] ns[i]).entry_id
            == (#[trigger] ns[j]).entry_id ==> ns[i].user_id != ns[j].user_id
}

/// The persisted set of ingested entries, unique by (source, url).
pub struct FeedStore {
    entries: Vec<Entry>,
}

impl View for FeedStore {
    type V = Seq<Entry>;

    closed spec fn view(&self) -> Seq<Entry> {
        self.entries@
    }
}

impl FeedStore {
    pub open spec fn wf(&self) -> bool {
        entries_unique(self@)
    }

    /// An empty store.
    pub fn new() -> (r: FeedStore)
        ensures
            r.wf(),
            r@ == Seq::<Entry>::empty(),
    {
        FeedStore { entries: Vec::new() }
    }

    /// The number of stored entries.
    pub fn len(&self) -> (r: usize)
        ensures
            r == self@.len(),
    {
        self.entries.len()
    }

    /// The entry with identity `id`.
    pub fn get(&self, id: usize) -> (r: &Entry)
        requires
            id < self@.len(),
        ensures
            *r == self@[id as int],
    {
        &self.entries[id]
    }

    /// Whether an entry of source `source_id` with link `url` is stored.
    pub fn entry_exists(&self, source_id: u64, url: &String) -> (r: bool)
        ensures
            r == has_entry(self@, source_id, url@),
    {
        let mut i: usize = 0;
        while i < self.entries.len()
            invariant
                0 <= i <= self@.len(),
                forall|k: int| 0 <= k < i ==> !((#[trigger] self@[k]).source_id == source_id
                    && self@[k].url@ == url@),
            decreases self@.len() - i,
        {
            let e = &self.entries[i];
            if e.source_id == source_id && e.url == *url {
                return true;
            }
            i += 1;
        }
        false
    }

    /// Stores `entry` unless its (source, url) key is taken; returns its identity.
    pub fn insert_entry(&mut self, entry: Entry) -> (r: Result<usize, InsertError>)
        requires
            old(self).wf(),
        ensures
            final(self).wf(),
            has_entry(old(self)@, entry.source_id, entry.url@) ==> r == Err::<usize, InsertError>(
                InsertError::Conflict) && final(self)@ == old(self)@,
            !has_entry(old(self)@, entry.source_id, entry.url@) ==> r == Ok::<usize, InsertError>(
                old(self)@.len() as usize) && final(self)@ == old(self)@.push(entry),
    {
        if self.entry_exists(entry.source_id, &entry.url) {
            return Err(InsertError::Conflict);
        }
        let id = self.entries.len();
        self.entries.push(entry);
        proof {
            assert(self@ == old(self)@.push(entry));
            assert forall|i: int, j: int|
                0 <= i < self@.len() && 0 <= j < self@.len() && i != j && (#[trigger] self@[i]).source_id
                    == (#[trigger] self@[j]).source_id implies self@[i].url@ != self@[j].url@ by {
                if i == id as int {
                    assert(old(self)@[j] == self@[j]);
                } else if j == id as int {
                    assert(old(self)@[i] == self@[i]);
                }
            }
        }
        Ok(id)
    }
}

/// The persisted set of notifications, unique by (entry, user).
pub struct NotificationStore {
    notes: Vec<Notification>,
}

impl View for NotificationStore {
    type V = Seq<Notification>;

    closed spec fn view(&self) -> Seq<Notification> {
        self.notes@
    }
}

impl NotificationStore {
    pub open spec fn wf(&self) -> bool {
        notes_unique(self@)
    }

    /// An empty store.
    pub fn new() -> (r: NotificationStore)
        ensures
            r.wf(),
            r@ == Seq::<Notification>::empty(),
    {
        NotificationStore { notes: Vec::new() }
    }

    /// The number of stored notifications.
    pub fn len(&self) -> (r: usize)
        ensures
            r == self@.len(),
    {
        self.notes.len()
    }

    /// The notification at position `i`.
    pub fn get(&self, i: usize) -> (r: Notification)
        requires
            i < self@.len(),
        ensures
            r == self@[i as int],
    {
        self.notes[i]
    }

    /// Whether user `user_id` has a notification for entry `entry_id`.
    pub fn notification_exists(&self, entry_id: usize, user_id: u64) -> (r: bool)
        ensures
            r == has_note(self@, entry_id as int, user_id),
    {
        let mut i: usize = 0;
        while i < self.notes.len()
            invariant
                0 <= i <= self@.len(),
                forall|k: int| 0 <= k < i ==> !((#[trigger] self@[k]).entry_id == entry_id
                    && self@[k].user_id == user_id),
            decreases self@.len() - i,
        {
            let n = self.notes[i];
            if n.entry_id == entry_id && n.user_id == user_id {
                return true;
            }
            i += 1;
        }
        false
    }

    /// Stores an unread notification of `user_id` for `entry_id` unless one exists.
    pub fn insert_notification(&mut self, entry_id: usize, user_id: u64) -> (r: Result<
        (),
        InsertError,
    >)
        requires
            old(self).wf(),
        ensures
            final(self).wf(),
            has_note(old(self)@, entry_id as int, user_id) ==> r == Err::<(), InsertError>(
                InsertError::Conflict) && final(self)@ == old(self)@,
            !has_note(old(self)@, entry_id as int, user_id) ==> r == Ok::<(), InsertError>(())
                && final(self)@ == old(self)@.push(unread(entry_id as int, user_id)),
    {
        if self.notification_exists(entry_id, user_id) {
            return Err(InsertError::Conflict);
        }
        let n = Notification { entry_id, user_id, reaction: Reaction::Unread };
        let ghost id = old(self)@.len() as int;
        self.notes.push(n);
        proof {
            assert forall|i: int, j: int|
                0 <= i < self@.len() && 0 <= j < self@.len() && i != j && (#[trigger] self@[i]).entry_id
                    == (#[trigger] self@[j]).entry_id implies self@[i].user_id != self@[j].user_id by {
                if i == id {
                    assert(old(self)@[j] == self@[j]);
                } else if j == id {
                    assert(old(self)@[i] == self@[i]);
                }
            }
        }
        Ok(())
    }
}

} // verus!
