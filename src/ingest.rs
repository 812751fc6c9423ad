use vstd::prelude::*;
use crate::model::{Entry, Notification, ParsedEntry, ParsedLink, RawPayload};
use crate::store::{FeedStore, NotificationStore, has_entry};
use crate::fanout::{fan_out, fan_out_spec, lemma_fan_out_extends};

verus! {

/// What identifies and fills a stored entry, leaving out the readable rendering:
/// source, url and raw payload.
pub open spec fn entry_key(e: Entry) -> (u64, Seq<char>, RawPayload) {
    (e.source_id, e.url@, e.raw)
}

/// The keys of a sequence of entries.
pub open spec fn keys(es: Seq<Entry>) -> Seq<(u64, Seq<char>, RawPayload)> {
    es.map_values(|e: Entry| entry_key(e))
}

/// Whether `ks` holds a key of source `sid` with link `url`.
pub open spec fn key_has(ks: Seq<(u64, Seq<char>, RawPayload)>, sid: u64, url: Seq<char>) -> bool {
    exists|i: int| 0 <= i < ks.len() && (#[trigger] ks[i]).0 == sid && ks[i].1 == url
}

/// Whether a link is the entry's canonical link: not a comments link, and of relation
/// `alternate` or of none.
pub open spec fn is_alternate(l: ParsedLink) -> bool {
    !l.comments && (l.rel is None || l.rel->Some_0@ == "alternate"@)
}

/// The (url, raw payload) pairs of the canonical links among `links`, in order.
pub open spec fn alt_pairs(links: Seq<ParsedLink>, raw: RawPayload) -> Seq<(Seq<char>, RawPayload)>
    decreases links.len(),
{
    if links.len() == 0 {
        Seq::empty()
    } else if is_alternate(links.last()) {
        alt_pairs(links.drop_last(), raw).push((links.last().href@, raw))
    } else {
        alt_pairs(links.drop_last(), raw)
    }
}

/// The (url, raw payload) pairs of the canonical links of a parsed document, entry after entry.
pub open spec fn flat_links(doc: Seq<ParsedEntry>) -> Seq<(Seq<char>, RawPayload)>
    decreases doc.len(),
{
    if doc.len() == 0 {
        Seq::empty()
    } else {
        flat_links(doc.drop_last()) + alt_pairs(doc.last().links@, doc.last().raw)
    }
}

/// The entry keys after ingesting `links` for source `sid`, one after another:
/// a link that the source already has is skipped, any other is appended.
pub open spec fn ingest(
    ks: Seq<(u64, Seq<char>, RawPayload)>,
    sid: u64,
    links: Seq<(Seq<char>, RawPayload)>,
) -> Seq<(u64, Seq<char>, RawPayload)>
    decreases links.len(),
{
    if links.len() == 0 {
        ks
    } else {
        let acc = ingest(ks, sid, links.drop_last());
        if key_has(acc, sid, links.last().0) {
            acc
        } else {
            acc.push((sid, links.last().0, links.last().1))
        }
    }
}

/// The notifications after fanning out entries `lo .. hi` in turn to `subs`.
pub open spec fn fan_out_range(ns: Seq<Notification>, lo: int, hi: int, subs: Seq<u64>) -> Seq<
    Notification,
>
    decreases hi - lo,
{
    if hi <= lo {
        ns
    } else {
        fan_out_spec(fan_out_range(ns, lo, hi - 1, subs), hi - 1, subs)
    }
}

/// Fanning out a range of entries only grows the store: what was there stays in place.
pub proof fn lemma_fan_out_range_extends(ns: Seq<Notification>, lo: int, hi: int, subs: Seq<u64>)
    ensures
        fan_out_range(ns, lo, hi, subs).len() >= ns.len(),
        forall|i: int| 0 <= i < ns.len() ==> fan_out_range(ns, lo, hi, subs)[i] == ns[i],
    decreases hi - lo,
{
    if hi > lo {
        lemma_fan_out_range_extends(ns, lo, hi - 1, subs);
        lemma_fan_out_extends(fan_out_range(ns, lo, hi - 1, subs), hi - 1, subs);
    }
}

pub(crate) proof fn lemma_keys_has(es: Seq<Entry>, sid: u64, url: Seq<char>)
    ensures
        has_entry(es, sid, url) == key_has(keys(es), sid, url),
{
    if has_entry(es, sid, url) {
        let i = choose|i: int| 0 <= i < es.len() && (#[trigger] es[i]).source_id == sid && es[i].url@ == url;
        assert(keys(es)[i].0 == sid);
    }
    if key_has(keys(es), sid, url) {
        let i = choose|i: int| 0 <= i < keys(es).len() && (#[trigger] keys(es)[i]).0 == sid && keys(es)[i].1 == url;
        assert(es[i].source_id == sid);
    }
}

/// Ingesting into `ks` keeps every key of `ks` in place.
pub proof fn lemma_ingest_extends(
    ks: Seq<(u64, Seq<char>, RawPayload)>,
    sid: u64,
    links: Seq<(Seq<char>, RawPayload)>,
)
    ensures
        ingest(ks, sid, links).len() >= ks.len(),
        forall|i: int| 0 <= i < ks.len() ==> ingest(ks, sid, links)[i] == ks[i],
    decreases links.len(),
{
    if links.len() > 0 {
        lemma_ingest_extends(ks, sid, links.drop_last());
    }
}

/// After ingestion, every link of the document has an entry of the source.
pub proof fn lemma_ingest_covers(
    ks: Seq<(u64, Seq<char>, RawPayload)>,
    sid: u64,
    links: Seq<(Seq<char>, RawPayload)>,
)
    ensures
        forall|k: int| 0 <= k < links.len() ==> key_has(ingest(ks, sid, links), sid, (#[trigger] links[k]).0),
    decreases links.len(),
{
    if links.len() > 0 {
        let prev = links.drop_last();
        lemma_ingest_covers(ks, sid, prev);
        let acc = ingest(ks, sid, prev);
        let r = ingest(ks, sid, links);
        assert forall|k: int| 0 <= k < links.len() implies key_has(r, sid, (#[trigger] links[k]).0) by {
            if k < links.len() - 1 {
                assert(prev[k] == links[k]);
                assert(key_has(acc, sid, prev[k].0));
                let w = choose|w: int| 0 <= w < acc.len() && (#[trigger] acc[w]).0 == sid && acc[w].1 == links[k].0;
                if !key_has(acc, sid, links.last().0) {
                    assert(r[w] == acc[w]);
                }
            } else if !key_has(acc, sid, links.last().0) {
                assert(r[acc.len() as int].0 == sid);
            }
        }
    }
}

/// Ingesting links that the source all has already changes nothing.
pub proof fn lemma_ingest_noop(
    ks: Seq<(u64, Seq<char>, RawPayload)>,
    sid: u64,
    links: Seq<(Seq<char>, RawPayload)>,
)
    requires
        forall|k: int| 0 <= k < links.len() ==> key_has(ks, sid, (#[trigger] links[k]).0),
    ensures
        ingest(ks, sid, links) == ks,
    decreases links.len(),
{
    if links.len() > 0 {
        let prev = links.drop_last();
        assert forall|k: int| 0 <= k < prev.len() implies key_has(ks, sid, (#[trigger] prev[k]).0) by {
            assert(prev[k] == links[k]);
        }
        lemma_ingest_noop(ks, sid, prev);
        assert(key_has(ks, sid, links[links.len() - 1].0));
    }
}

/// Ingesting an unchanged document a second time adds no entry.
pub proof fn lemma_ingest_idempotent(
    ks: Seq<(u64, Seq<char>, RawPayload)>,
    sid: u64,
    links: Seq<(Seq<char>, RawPayload)>,
)
    ensures
        ingest(ingest(ks, sid, links), sid, links) == ingest(ks, sid, links),
{
    lemma_ingest_covers(ks, sid, links);
    lemma_ingest_noop(ingest(ks, sid, links), sid, links);
}

/// Whether `l` is a canonical link of its entry.
pub fn link_is_alternate(l: &ParsedLink) -> (r: bool)
    ensures
        r == is_alternate(*l),
{
    if l.comments {
        return false;
    }
    match &l.rel {
        None => true,
        Some(rel) => {
            let alternate = "alternate".to_owned();
            proof {
                reveal_strlit("alternate");
            }
            *rel == alternate
        },
    }
}

/// Source Processor on a parsed document: the canonical link of each entry that the source
/// does not have yet is enriched (best effort), stored with the entry's raw payload, and
/// fanned out to `subscribers`. Links that the source already has are skipped, and so are
/// comment, self and other non-canonical links. Returns the number of new entries.
pub fn ingest_entries<F: Fn(String) -> Option<String>>(
    feeds: &mut FeedStore,
    notes: &mut NotificationStore,
    source_id: u64,
    doc: &Vec<ParsedEntry>,
    subscribers: &Vec<u64>,
    enrich: &F,
) -> (r: usize)
    requires
        old(feeds).wf(),
        old(notes).wf(),
        forall|u: String| enrich.requires((u,)),
    ensures
        final(feeds).wf(),
        final(notes).wf(),
        keys(final(feeds)@) == ingest(keys(old(feeds)@), source_id, flat_links(doc@)),
        final(feeds)@.len() >= old(feeds)@.len(),
        forall|k: int| 0 <= k < old(feeds)@.len() ==> final(feeds)@[k] == old(feeds)@[k],
        forall|k: int|
            old(feeds)@.len() <= k < final(feeds)@.len() ==> enrich.ensures(
                ((#[trigger] final(feeds)@[k]).url,),
                final(feeds)@[k].readable,
            ),
        final(notes)@ == fan_out_range(
            old(notes)@,
            old(feeds)@.len() as int,
            final(feeds)@.len() as int,
            subscribers@,
        ),
        r == final(feeds)@.len() - old(feeds)@.len(),
{
    let ghost ks0 = keys(old(feeds)@);
    let len0 = feeds.len();
    let mut i: usize = 0;
    proof {
        assert(doc@.take(0) =~= Seq::<ParsedEntry>::empty());
    }
    while i < doc.len()
        invariant
            0 <= i <= doc@.len(),
            ks0 == keys(old(feeds)@),
            len0 == old(feeds)@.len(),
            forall|u: String| enrich.requires((u,)),
            feeds.wf(),
            notes.wf(),
            keys(feeds@) == ingest(ks0, source_id, flat_links(doc@.take(i as int))),
            feeds@.len() >= len0,
            forall|k: int| 0 <= k < len0 ==> feeds@[k] == old(feeds)@[k],
            forall|k: int|
                len0 <= k < feeds@.len() ==> enrich.ensures(
                    ((#[trigger] feeds@[k]).url,),
                    feeds@[k].readable,
                ),
            notes@ == fan_out_range(old(notes)@, len0 as int, feeds@.len() as int, subscribers@),
        decreases doc@.len() - i,
    {
        let pe = &doc[i];
        let ghost base = flat_links(doc@.take(i as int));
        proof {
            assert(pe.links@.take(0) =~= Seq::<ParsedLink>::empty());
            assert(base + alt_pairs(pe.links@.take(0), pe.raw) =~= base);
        }
        let mut j: usize = 0;
        while j < pe.links.len()
            invariant
                0 <= i < doc@.len(),
                0 <= j <= pe.links@.len(),
                *pe == doc@[i as int],
                base == flat_links(doc@.take(i as int)),
                ks0 == keys(old(feeds)@),
                len0 == old(feeds)@.len(),
                forall|u: String| enrich.requires((u,)),
                feeds.wf(),
                notes.wf(),
                keys(feeds@) == ingest(ks0, source_id, base + alt_pairs(pe.links@.take(j as int), pe.raw)),
                feeds@.len() >= len0,
                forall|k: int| 0 <= k < len0 ==> feeds@[k] == old(feeds)@[k],
                forall|k: int|
                    len0 <= k < feeds@.len() ==> enrich.ensures(
                        ((#[trigger] feeds@[k]).url,),
                        feeds@[k].readable,
                    ),
                notes@ == fan_out_range(old(notes)@, len0 as int, feeds@.len() as int, subscribers@),
            decreases pe.links@.len() - j,
        {
            let link = &pe.links[j];
            let ghost prefix = base + alt_pairs(pe.links@.take(j as int), pe.raw);
            let ghost next = base + alt_pairs(pe.links@.take(j as int + 1), pe.raw);
            let ghost pre_feeds = feeds@;
            proof {
                assert(pe.links@.take(j as int + 1).drop_last() =~= pe.links@.take(j as int));
                assert(pe.links@.take(j as int + 1).last() == *link);
            }
            if link_is_alternate(link) {
                proof {
                    assert(next =~= prefix.push((link.href@, pe.raw)));
                    assert(next.drop_last() =~= prefix);
                    lemma_keys_has(feeds@, source_id, link.href@);
                }
                if !feeds.entry_exists(source_id, &link.href) {
                    let readable = enrich(link.href.clone());
                    let entry = Entry {
                        source_id,
                        url: link.href.clone(),
                        raw: pe.raw.duplicate(),
                        readable,
                    };
                    let id = feeds.len();
                    match feeds.insert_entry(entry) {
                        Ok(_) => {
                            proof {
                                assert(keys(feeds@) =~= keys(pre_feeds).push(entry_key(entry)));
                            }
                            fan_out(notes, id, subscribers);
                        },
                        Err(_) => {},
                    }
                }
            } else {
                proof {
                    assert(next =~= prefix);
                }
            }
            j += 1;
        }
        proof {
            assert(pe.links@.take(j as int) =~= pe.links@);
            assert(doc@.take(i as int + 1).drop_last() =~= doc@.take(i as int));
            assert(doc@.take(i as int + 1).last() == doc@[i as int]);
        }
        i += 1;
    }
    proof {
        assert(doc@.take(i as int) =~= doc@);
    }
    feeds.len() - len0
}

/// Enrichment never blocks ingestion: where the enricher yields nothing for every link,
/// the entries that an ingestion added are all stored without a readable rendering (which
/// entries are added does not depend on the enricher at all).
pub proof fn lemma_failed_enrichment_stores_plain<F: Fn(String) -> Option<String>>(
    enrich: F,
    es: Seq<Entry>,
    lo: int,
)
    requires
        forall|u: String, r: Option<String>| enrich.ensures((u,), r) ==> r is None,
        forall|k: int| lo <= k < es.len() ==> enrich.ensures(((#[trigger] es[k]).url,), es[k].readable),
    ensures
        forall|k: int| lo <= k < es.len() ==> (#[trigger] es[k]).readable is None,
{
}

} // verus!
