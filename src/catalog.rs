use vstd::prelude::*;
use crate::model::{Source, SourceKind};

verus! {

/// The configured sources, in the order of registration.
pub struct SourceCatalog {
    sources: Vec<Source>,
}

impl View for SourceCatalog {
    type V = Seq<Source>;

    closed spec fn view(&self) -> Seq<Source> {
        self.sources@
    }
}

/// The RSS sources of `s`, in order.
pub open spec fn rss_of(s: Seq<Source>) -> Seq<Source>
    decreases s.len(),
{
    if s.len() == 0 {
        s
    } else if s.last().kind is Rss {
        rss_of(s.drop_last()).push(s.last())
    } else {
        rss_of(s.drop_last())
    }
}

impl SourceCatalog {
    /// An empty catalog.
    pub fn new() -> (r: SourceCatalog)
        ensures
            r@ == Seq::<Source>::empty(),
    {
        SourceCatalog { sources: Vec::new() }
    }

    /// Registers a source of any kind as it is.
    pub fn add(&mut self, source: Source)
        ensures
            final(self)@ == old(self)@.push(source),
    {
        self.sources.push(source);
    }

    /// Registers a new RSS source on `xml_url`; its identity is its position in the catalog.
    pub fn add_rss_source(&mut self, xml_url: String, title: Option<String>) -> (r: u64)
        ensures
            r == old(self)@.len() as u64,
            final(self)@ == old(self)@.push(
                Source { id: r, kind: SourceKind::Rss { xml_url }, title, last_error: None },
            ),
    {
        let id = self.sources.len() as u64;
        self.sources.push(Source::new_rss(id, xml_url, title));
        id
    }

    /// All sources of kind RSS, in order of registration.
    pub fn rss_sources(&self) -> (r: Vec<Source>)
        ensures
            r@ == rss_of(self@),
    {
        let mut out: Vec<Source> = Vec::new();
        let mut i: usize = 0;
        while i < self.sources.len()
            invariant
                0 <= i <= self@.len(),
                out@ == rss_of(self@.take(i as int)),
            decreases self@.len() - i,
        {
            proof {
                assert(self@.take(i as int + 1).drop_last() =~= self@.take(i as int));
            }
            if self.sources[i].is_rss() {
                out.push(self.sources[i].duplicate());
            }
            i += 1;
        }
        proof {
            assert(self@.take(i as int) =~= self@);
        }
        out
    }
}

/// The sources that `user_id` subscribes to, in order of subscription.
pub open spec fn sources_of(pairs: Seq<(u64, u64)>, user_id: u64) -> Seq<u64>
    decreases pairs.len(),
{
    if pairs.len() == 0 {
        Seq::empty()
    } else if pairs.last().0 == user_id {
        sources_of(pairs.drop_last(), user_id).push(pairs.last().1)
    } else {
        sources_of(pairs.drop_last(), user_id)
    }
}

/// At most `limit` elements of `s`, after skipping the first `offset`.
pub open spec fn page(s: Seq<u64>, limit: int, offset: int) -> Seq<u64> {
    let start = if offset <= s.len() { offset } else { s.len() as int };
    let end = if limit <= s.len() - start { start + limit } else { s.len() as int };
    s.subrange(start, end)
}

/// The users subscribed to `source_id`, in order of subscription.
pub open spec fn users_of(pairs: Seq<(u64, u64)>, source_id: u64) -> Seq<u64>
    decreases pairs.len(),
{
    if pairs.len() == 0 {
        Seq::empty()
    } else if pairs.last().1 == source_id {
        users_of(pairs.drop_last(), source_id).push(pairs.last().0)
    } else {
        users_of(pairs.drop_last(), source_id)
    }
}

/// Which users subscribe to which sources, as (user, source) pairs without repetition.
pub struct SubscriptionIndex {
    pairs: Vec<(u64, u64)>,
}

impl View for SubscriptionIndex {
    type V = Seq<(u64, u64)>;

    closed spec fn view(&self) -> Seq<(u64, u64)> {
        self.pairs@
    }
}

impl SubscriptionIndex {
    pub open spec fn wf(&self) -> bool {
        self@.no_duplicates()
    }

    /// An empty index.
    pub fn new() -> (r: SubscriptionIndex)
        ensures
            r.wf(),
            r@ == Seq::<(u64, u64)>::empty(),
    {
        SubscriptionIndex { pairs: Vec::new() }
    }

    /// Whether `user_id` subscribes to `source_id`.
    pub fn is_subscribed(&self, user_id: u64, source_id: u64) -> (r: bool)
        ensures
            r == self@.contains((user_id, source_id)),
    {
        let mut i: usize = 0;
        while i < self.pairs.len()
            invariant
                0 <= i <= self@.len(),
                forall|k: int| 0 <= k < i ==> self@[k] != (user_id, source_id),
            decreases self@.len() - i,
        {
            if self.pairs[i].0 == user_id && self.pairs[i].1 == source_id {
                return true;
            }
            i += 1;
        }
        false
    }

    /// Subscribes `user_id` to `source_id`; returns false where it was subscribed already.
    pub fn insert(&mut self, user_id: u64, source_id: u64) -> (r: bool)
        requires
            old(self).wf(),
        ensures
            final(self).wf(),
            r == !old(self)@.contains((user_id, source_id)),
            r ==> final(self)@ == old(self)@.push((user_id, source_id)),
            !r ==> final(self)@ == old(self)@,
    {
        if self.is_subscribed(user_id, source_id) {
            return false;
        }
        self.pairs.push((user_id, source_id));
        proof {
            assert forall|i: int, j: int| 0 <= i < self@.len() && 0 <= j < self@.len() && i != j
                implies self@[i] != self@[j] by {
                if i == self@.len() - 1 {
                    assert(old(self)@.contains(old(self)@[j]));
                } else if j == self@.len() - 1 {
                    assert(old(self)@.contains(old(self)@[i]));
                }
            }
        }
        true
    }

    /// The users subscribed to `source_id`, each once, in order of subscription.
    pub fn subscribers(&self, source_id: u64) -> (r: Vec<u64>)
        requires
            self.wf(),
        ensures
            r@ == users_of(self@, source_id),
            r@.no_duplicates(),
            forall|u: u64| r@.contains(u) <==> self@.contains((u, source_id)),
    {
        let mut out: Vec<u64> = Vec::new();
        let mut i: usize = 0;
        while i < self.pairs.len()
            invariant
                0 <= i <= self@.len(),
                self@.no_duplicates(),
                out@ == users_of(self@.take(i as int), source_id),
                out@.no_duplicates(),
                forall|u: u64| out@.contains(u) <==> self@.take(i as int).contains((u, source_id)),
            decreases self@.len() - i,
        {
            let p = self.pairs[i];
            let ghost before_all = out@;
            proof {
                assert(self@.take(i as int + 1).drop_last() =~= self@.take(i as int));
                assert(self@.take(i as int + 1).last() == p);
                assert forall|u: u64| self@.take(i as int + 1).contains((u, source_id)) <==> (
                    self@.take(i as int).contains((u, source_id)) || p == (u, source_id)) by {
                    if self@.take(i as int + 1).contains((u, source_id)) {
                        let w = choose|w: int| 0 <= w < i + 1 && (#[trigger] self@.take(i as int + 1)[w]) == (u, source_id);
                        if w < i {
                            assert(self@.take(i as int)[w] == (u, source_id));
                        }
                    }
                    if self@.take(i as int).contains((u, source_id)) {
                        let w = choose|w: int| 0 <= w < i && (#[trigger] self@.take(i as int)[w]) == (u, source_id);
                        assert(self@.take(i as int + 1)[w] == (u, source_id));
                    }
                    if p == (u, source_id) {
                        assert(self@.take(i as int + 1)[i as int] == (u, source_id));
                    }
                }
            }
            if p.1 == source_id {
                proof {
                    if out@.contains(p.0) {
                        let w = choose|w: int| 0 <= w < i && (#[trigger] self@.take(i as int)[w]) == (p.0, source_id);
                        assert(self@[w] == self@[i as int]);
                    }
                }
                let ghost before = out@;
                out.push(p.0);
                proof {
                    assert forall|a: int, b: int| 0 <= a < out@.len() && 0 <= b < out@.len() && a != b
                        implies out@[a] != out@[b] by {
                        if a == before.len() {
                            assert(before.contains(before[b]));
                        } else if b == before.len() {
                            assert(before.contains(before[a]));
                        }
                    }
                    assert forall|u: u64| out@.contains(u) <==> (before.contains(u) || u == p.0) by {
                        if out@.contains(u) {
                            let w = choose|w: int| 0 <= w < out@.len() && (#[trigger] out@[w]) == u;
                            if w < before.len() {
                                assert(before[w] == u);
                            }
                        }
                        if before.contains(u) {
                            let w = choose|w: int| 0 <= w < before.len() && (#[trigger] before[w]) == u;
                            assert(out@[w] == u);
                        }
                        if u == p.0 {
                            assert(out@[before.len() as int] == u);
                        }
                    }
                }
            }
            proof {
                assert forall|u: u64| out@.contains(u) <==> self@.take(i as int + 1).contains((u, source_id)) by {
                    assert(before_all.contains(u) <==> self@.take(i as int).contains((u, source_id)));
                    assert(self@.take(i as int + 1).contains((u, source_id)) <==> (
                        self@.take(i as int).contains((u, source_id)) || p == (u, source_id)));
                    if p.1 == source_id {
                        assert(out@.contains(u) <==> (before_all.contains(u) || u == p.0));
                    } else {
                        assert(out@ == before_all);
                    }
                }
            }
            i += 1;
        }
        proof {
            assert(self@.take(i as int) =~= self@);
        }
        out
    }

    /// One page of the sources that `user_id` subscribes to: at most `limit` of them,
    /// after skipping the first `offset`, in order of subscription.
    pub fn my_sources(&self, limit: usize, offset: usize, user_id: u64) -> (r: Vec<u64>)
        ensures
            r@ == page(sources_of(self@, user_id), limit as int, offset as int),
    {
        let mut all: Vec<u64> = Vec::new();
        let mut i: usize = 0;
        while i < self.pairs.len()
            invariant
                0 <= i <= self@.len(),
                all@ == sources_of(self@.take(i as int), user_id),
                all@.len() <= i,
            decreases self@.len() - i,
        {
            proof {
                assert(self@.take(i as int + 1).drop_last() =~= self@.take(i as int));
            }
            if self.pairs[i].0 == user_id {
                all.push(self.pairs[i].1);
            }
            i += 1;
        }
        proof {
            assert(self@.take(i as int) =~= self@);
        }
        let ghost every = all@;
        let start = if offset <= all.len() { offset } else { all.len() };
        let end = if limit <= all.len() - start { start + limit } else { all.len() };
        let mut out: Vec<u64> = Vec::new();
        let mut k: usize = start;
        while k < end
            invariant
                start <= k <= end <= all@.len(),
                all@ == every,
                out@ == every.subrange(start as int, k as int),
            decreases end - k,
        {
            out.push(all[k]);
            proof {
                assert(out@ =~= every.subrange(start as int, k as int + 1));
            }
            k += 1;
        }
        proof {
            assert(out@ =~= page(every, limit as int, offset as int));
        }
        out
    }
}

} // verus!