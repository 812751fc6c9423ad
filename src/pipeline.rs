use vstd::prelude::*;
use crate::model::{Entry, Notification, ParsedEntry, RawPayload, Source, SourceKind};
use crate::store::{FeedStore, NotificationStore, has_entry};
use crate::ingest::{
    fan_out_range, flat_links, ingest, ingest_entries, keys, lemma_fan_out_range_extends,
    lemma_ingest_covers, lemma_ingest_idempotent, lemma_keys_has,
};

verus! {

/// Why a source's document could not be had.
#[derive(Clone, Debug)]
pub enum FetchError {
    /// A network or transport failure, or a response that was not a success.
    Transport { message: String },
    /// The document was retrieved but could not be parsed as a feed.
    Parse { message: String },
}

/// What became of one source in a cycle.
#[derive(Clone, Copy, Debug, PartialEq, Eq, Structural)]
pub enum SourceOutcome {
    /// The document was parsed; this many new entries were stored.
    Ingested(usize),
    /// Fetching the document failed; nothing was stored.
    FetchFailed,
    /// The document could not be parsed; nothing was stored.
    ParseFailed,
    /// The source is of a kind that this pipeline does not process.
    Unsupported,
}

/// One source of a cycle: the source, its subscribers and what fetching and parsing its
/// document gave.
#[derive(Debug)]
pub struct SourceJob {
    pub source: Source,
    pub subscribers: Vec<u64>,
    pub fetched: Result<Vec<ParsedEntry>, FetchError>,
}

/// The parsed document that a source yields, if it is an RSS source whose document was
/// fetched and parsed.
pub open spec fn parsed_doc(source: Source, fetched: Result<Vec<ParsedEntry>, FetchError>) -> Option<
    Seq<ParsedEntry>,
> {
    match source.kind {
        SourceKind::Rss { .. } => match fetched {
            Ok(d) => Some(d@),
            Err(_) => None,
        },
        SourceKind::Twitter => None,
    }
}

/// The outcome owed for a source, given what its fetch returned.
pub open spec fn outcome_matches(
    r: SourceOutcome,
    source: Source,
    fetched: Result<Vec<ParsedEntry>, FetchError>,
) -> bool {
    match source.kind {
        SourceKind::Twitter => r == SourceOutcome::Unsupported,
        SourceKind::Rss { .. } => match fetched {
            Err(FetchError::Transport { .. }) => r == SourceOutcome::FetchFailed,
            Err(FetchError::Parse { .. }) => r == SourceOutcome::ParseFailed,
            Ok(_) => r is Ingested,
        },
    }
}

/// The stores before (`f0`, `n0`) and after (`f1`, `n1`) processing source `sid` on `doc`:
/// without a document nothing changes; with one, its links are ingested and each new entry
/// is fanned out to `subs`.
pub open spec fn source_step(
    f0: Seq<Entry>,
    n0: Seq<Notification>,
    f1: Seq<Entry>,
    n1: Seq<Notification>,
    sid: u64,
    doc: Option<Seq<ParsedEntry>>,
    subs: Seq<u64>,
) -> bool {
    match doc {
        None => f1 == f0 && n1 == n0,
        Some(d) => {
            &&& keys(f1) == ingest(keys(f0), sid, flat_links(d))
            &&& f1.len() >= f0.len()
            &&& forall|k: int| 0 <= k < f0.len() ==> f1[k] == f0[k]
            &&& n1 == fan_out_range(n0, f0.len() as int, f1.len() as int, subs)
        },
    }
}

/// Processes one source: an RSS source whose document was fetched and parsed is ingested;
/// a failed fetch, a document that did not parse, or a source of another kind leaves the
/// stores unchanged and is reported in the outcome.
pub fn process_source<F: Fn(String) -> Option<String>>(
    feeds: &mut FeedStore,
    notes: &mut NotificationStore,
    source: &Source,
    fetched: &Result<Vec<ParsedEntry>, FetchError>,
    subscribers: &Vec<u64>,
    enrich: &F,
) -> (r: SourceOutcome)
    requires
        old(feeds).wf(),
        old(notes).wf(),
        forall|u: String| enrich.requires((u,)),
    ensures
        final(feeds).wf(),
        final(notes).wf(),
        outcome_matches(r, *source, *fetched),
        source_step(
            old(feeds)@,
            old(notes)@,
            final(feeds)@,
            final(notes)@,
            source.id,
            parsed_doc(*source, *fetched),
            subscribers@,
        ),
        r matches SourceOutcome::Ingested(n) ==> n == final(feeds)@.len() - old(feeds)@.len(),
        forall|k: int|
            old(feeds)@.len() <= k < final(feeds)@.len() ==> enrich.ensures(
                ((#[trigger] final(feeds)@[k]).url,),
                final(feeds)@[k].readable,
            ),
{
    match &source.kind {
        SourceKind::Twitter => SourceOutcome::Unsupported,
        SourceKind::Rss { .. } => match fetched {
            Err(FetchError::Transport { .. }) => SourceOutcome::FetchFailed,
            Err(FetchError::Parse { .. }) => SourceOutcome::ParseFailed,
            Ok(doc) => {
                let n = ingest_entries(feeds, notes, source.id, doc, subscribers, enrich);
                SourceOutcome::Ingested(n)
            },
        },
    }
}

/// Processing a source a second time on an unchanged document stores no further entry and
/// no further notification.
pub proof fn lemma_second_pass_adds_nothing(
    f0: Seq<Entry>,
    n0: Seq<Notification>,
    f1: Seq<Entry>,
    n1: Seq<Notification>,
    f2: Seq<Entry>,
    n2: Seq<Notification>,
    sid: u64,
    d: Seq<ParsedEntry>,
    subs: Seq<u64>,
)
    requires
        source_step(f0, n0, f1, n1, sid, Some(d), subs),
        source_step(f1, n1, f2, n2, sid, Some(d), subs),
    ensures
        f2 == f1,
        n2 == n1,
{
    lemma_ingest_idempotent(keys(f0), sid, flat_links(d));
    assert(keys(f2).len() == keys(f1).len());
    assert(f2 =~= f1);
}

/// Whether every link of the document that `job` yields has an entry of its source in `es`.
pub open spec fn job_stored(es: Seq<Entry>, job: SourceJob) -> bool {
    match parsed_doc(job.source, job.fetched) {
        None => true,
        Some(d) => forall|m: int|
            0 <= m < flat_links(d).len() ==> has_entry(es, job.source.id, (#[trigger] flat_links(d)[m]).0),
    }
}

proof fn lemma_job_stored_grows(a: Seq<Entry>, b: Seq<Entry>, job: SourceJob)
    requires
        job_stored(a, job),
        b.len() >= a.len(),
        forall|k: int| 0 <= k < a.len() ==> b[k] == a[k],
    ensures
        job_stored(b, job),
{
    if let Some(d) = parsed_doc(job.source, job.fetched) {
        assert forall|m: int| 0 <= m < flat_links(d).len() implies has_entry(b, job.source.id, (#[trigger] flat_links(d)[m]).0) by {
            let url = flat_links(d)[m].0;
            assert(has_entry(a, job.source.id, url));
            let w = choose|w: int| 0 <= w < a.len() && (#[trigger] a[w]).source_id == job.source.id && a[w].url@ == url;
            assert(b[w] == a[w]);
        }
    }
}

proof fn lemma_step_stores_job(f0: Seq<Entry>, n0: Seq<Notification>, f1: Seq<Entry>, n1: Seq<Notification>, job: SourceJob)
    requires
        source_step(f0, n0, f1, n1, job.source.id, parsed_doc(job.source, job.fetched), job.subscribers@),
    ensures
        job_stored(f1, job),
{
    if let Some(d) = parsed_doc(job.source, job.fetched) {
        let links = flat_links(d);
        lemma_ingest_covers(keys(f0), job.source.id, links);
        assert forall|m: int| 0 <= m < links.len() implies has_entry(f1, job.source.id, (#[trigger] links[m]).0) by {
            lemma_keys_has(f1, job.source.id, links[m].0);
        }
    }
}

/// The entry keys and notifications after processing `job` on entry keys `ks` and
/// notifications `ns`: unchanged without a document; otherwise its canonical links are
/// ingested and each new entry is fanned out to the job's subscribers.
pub open spec fn job_step(
    ks: Seq<(u64, Seq<char>, RawPayload)>,
    ns: Seq<Notification>,
    job: SourceJob,
) -> (Seq<(u64, Seq<char>, RawPayload)>, Seq<Notification>) {
    match parsed_doc(job.source, job.fetched) {
        None => (ks, ns),
        Some(d) => {
            let k2 = ingest(ks, job.source.id, flat_links(d));
            (k2, fan_out_range(ns, ks.len() as int, k2.len() as int, job.subscribers@))
        },
    }
}

/// The entry keys and notifications after processing `jobs` one after another.
pub open spec fn cycle(
    ks: Seq<(u64, Seq<char>, RawPayload)>,
    ns: Seq<Notification>,
    jobs: Seq<SourceJob>,
) -> (Seq<(u64, Seq<char>, RawPayload)>, Seq<Notification>)
    decreases jobs.len(),
{
    if jobs.len() == 0 {
        (ks, ns)
    } else {
        let prev = cycle(ks, ns, jobs.drop_last());
        job_step(prev.0, prev.1, jobs.last())
    }
}

/// A source that yields no document (a failed fetch or parse, or a source of another kind)
/// leaves a cycle as if it were absent.
pub proof fn lemma_cycle_skips_failed(
    ks: Seq<(u64, Seq<char>, RawPayload)>,
    ns: Seq<Notification>,
    jobs: Seq<SourceJob>,
    k: int,
)
    requires
        0 <= k < jobs.len(),
        parsed_doc(jobs[k].source, jobs[k].fetched) is None,
    ensures
        cycle(ks, ns, jobs) == cycle(ks, ns, jobs.remove(k)),
    decreases jobs.len(),
{
    if k == jobs.len() - 1 {
        assert(jobs.remove(k) =~= jobs.drop_last());
    } else {
        let prev = jobs.drop_last();
        assert(prev[k] == jobs[k]);
        lemma_cycle_skips_failed(ks, ns, prev, k);
        assert(jobs.remove(k).drop_last() =~= prev.remove(k));
        assert(jobs.remove(k).last() == jobs.last());
    }
}

/// One ingestion cycle: the sources are processed one after another, each on its own
/// fetch result, so that the stores end as `cycle` says. A source whose fetch or parse
/// fails changes nothing and does not stop the others: every source whose document was
/// parsed has all its canonical links stored at the end. Stored rows are never changed.
pub fn run_cycle<F: Fn(String) -> Option<String>>(
    feeds: &mut FeedStore,
    notes: &mut NotificationStore,
    jobs: &Vec<SourceJob>,
    enrich: &F,
) -> (r: Vec<SourceOutcome>)
    requires
        old(feeds).wf(),
        old(notes).wf(),
        forall|u: String| enrich.requires((u,)),
    ensures
        final(feeds).wf(),
        final(notes).wf(),
        (keys(final(feeds)@), final(notes)@) == cycle(keys(old(feeds)@), old(notes)@, jobs@),
        r@.len() == jobs@.len(),
        forall|k: int| 0 <= k < jobs@.len() ==> outcome_matches(#[trigger] r@[k], jobs@[k].source, jobs@[k].fetched),
        forall|k: int| 0 <= k < jobs@.len() ==> job_stored(final(feeds)@, #[trigger] jobs@[k]),
        final(feeds)@.len() >= old(feeds)@.len(),
        forall|k: int| 0 <= k < old(feeds)@.len() ==> final(feeds)@[k] == old(feeds)@[k],
        final(notes)@.len() >= old(notes)@.len(),
        forall|k: int| 0 <= k < old(notes)@.len() ==> final(notes)@[k] == old(notes)@[k],
        forall|k: int|
            old(feeds)@.len() <= k < final(feeds)@.len() ==> enrich.ensures(
                ((#[trigger] final(feeds)@[k]).url,),
                final(feeds)@[k].readable,
            ),
{
    let mut out: Vec<SourceOutcome> = Vec::new();
    let mut i: usize = 0;
    proof {
        assert(jobs@.take(0) =~= Seq::<SourceJob>::empty());
    }
    while i < jobs.len()
        invariant
            0 <= i <= jobs@.len(),
            out@.len() == i,
            forall|u: String| enrich.requires((u,)),
            feeds.wf(),
            notes.wf(),
            (keys(feeds@), notes@) == cycle(keys(old(feeds)@), old(notes)@, jobs@.take(i as int)),
            forall|k: int| 0 <= k < i ==> outcome_matches(#[trigger] out@[k], jobs@[k].source, jobs@[k].fetched),
            forall|k: int| 0 <= k < i ==> job_stored(feeds@, #[trigger] jobs@[k]),
            feeds@.len() >= old(feeds)@.len(),
            forall|k: int| 0 <= k < old(feeds)@.len() ==> feeds@[k] == old(feeds)@[k],
            notes@.len() >= old(notes)@.len(),
            forall|k: int| 0 <= k < old(notes)@.len() ==> notes@[k] == old(notes)@[k],
            forall|k: int|
                old(feeds)@.len() <= k < feeds@.len() ==> enrich.ensures(
                    ((#[trigger] feeds@[k]).url,),
                    feeds@[k].readable,
                ),
        decreases jobs@.len() - i,
    {
        let job = &jobs[i];
        let ghost f0 = feeds@;
        let ghost n0 = notes@;
        let o = process_source(feeds, notes, &job.source, &job.fetched, &job.subscribers, enrich);
        proof {
            lemma_step_stores_job(f0, n0, feeds@, notes@, *job);
            assert forall|k: int| 0 <= k < i implies job_stored(feeds@, #[trigger] jobs@[k]) by {
                lemma_job_stored_grows(f0, feeds@, jobs@[k]);
            }
            assert(jobs@.take(i as int + 1).drop_last() =~= jobs@.take(i as int));
            assert(jobs@.take(i as int + 1).last() == *job);
            assert(keys(f0).len() == f0.len());
            assert(keys(feeds@).len() == feeds@.len());
            lemma_fan_out_range_extends(n0, f0.len() as int, feeds@.len() as int, job.subscribers@);
        }
        out.push(o);
        i += 1;
    }
    proof {
        assert(jobs@.take(i as int) =~= jobs@);
    }
    out
}

} // verus!
