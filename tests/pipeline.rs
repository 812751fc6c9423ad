use mindstream::{
    fan_out, process_source, run_cycle, FeedStore, FetchError, Mutation, NotificationStore,
    ParsedEntry, ParsedLink, RawPayload, Reaction, Source, SourceCatalog, SourceJob, SourceKind,
    SourceOutcome, SubscriptionIndex,
};

fn parse(doc: &[u8]) -> Result<Vec<ParsedEntry>, FetchError> {
    let feed = feed_rs::parser::parse(doc).map_err(|e| FetchError::Parse { message: e.to_string() })?;
    Ok(feed
        .entries
        .into_iter()
        .map(|e| ParsedEntry {
            links: e
                .links
                .into_iter()
                .map(|l| ParsedLink { href: l.href, rel: l.rel, comments: l.target.is_some() })
                .collect(),
            raw: RawPayload {
                title: e.title.map(|t| t.content),
                summary: e.summary.map(|t| t.content),
                published: e.published.map(|d| d.timestamp()),
            },
        })
        .collect())
}

fn rss_doc(links: &[&str]) -> Vec<u8> {
    let mut s = String::from(
        "<?xml version=\"1.0\"?><rss version=\"2.0\"><channel><title>A</title>\
         <link>https://a.example/</link><description>feed</description>",
    );
    for (k, l) in links.iter().enumerate() {
        s.push_str(&format!("<item><title>post {}</title><link>{}</link></item>", k + 1, l));
    }
    s.push_str("</channel></rss>");
    s.into_bytes()
}

fn rss(links: &[&str]) -> Result<Vec<ParsedEntry>, FetchError> {
    parse(&rss_doc(links))
}

fn rss_source(id: u64, url: &str) -> Source {
    Source::new_rss(id, url.to_string(), None)
}

fn no_enrichment(_url: String) -> Option<String> {
    None
}

fn count_for_source(feeds: &FeedStore, source_id: u64) -> usize {
    (0..feeds.len()).filter(|&i| feeds.get(i).source_id == source_id).count()
}

#[test]
fn first_and_second_cycle_without_subscribers() {
    let mut feeds = FeedStore::new();
    let mut notes = NotificationStore::new();
    let s1 = rss_source(1, "https://a.example/feed.xml");
    let doc = rss_doc(&["https://a.example/p1"]);
    let r = process_source(&mut feeds, &mut notes, &s1, &parse(&doc), &vec![], &no_enrichment);
    assert_eq!(r, SourceOutcome::Ingested(1));
    assert_eq!(feeds.len(), 1);
    assert_eq!(feeds.get(0).source_id, 1);
    assert_eq!(feeds.get(0).url, "https://a.example/p1");
    assert_eq!(notes.len(), 0);
    let r = process_source(&mut feeds, &mut notes, &s1, &parse(&doc), &vec![], &no_enrichment);
    assert_eq!(r, SourceOutcome::Ingested(0));
    assert_eq!(feeds.len(), 1);
    assert_eq!(notes.len(), 0);
}

#[test]
fn new_entry_is_fanned_out_to_two_subscribers() {
    let mut feeds = FeedStore::new();
    let mut notes = NotificationStore::new();
    let s1 = rss_source(1, "https://a.example/feed.xml");
    let doc = rss_doc(&["https://a.example/p1"]);
    let r = process_source(&mut feeds, &mut notes, &s1, &parse(&doc), &vec![11, 12], &no_enrichment);
    assert_eq!(r, SourceOutcome::Ingested(1));
    assert_eq!(notes.len(), 2);
    let a = notes.get(0);
    let b = notes.get(1);
    assert_eq!((a.entry_id, a.user_id, a.reaction), (0, 11, Reaction::Unread));
    assert_eq!((b.entry_id, b.user_id, b.reaction), (0, 12, Reaction::Unread));
}

#[test]
fn failed_fetch_does_not_stop_the_next_source() {
    let mut feeds = FeedStore::new();
    let mut notes = NotificationStore::new();
    let jobs = vec![
        SourceJob {
            source: rss_source(1, "https://a.example/feed.xml"),
            subscribers: vec![],
            fetched: Err(FetchError::Transport { message: "connection refused".to_string() }),
        },
        SourceJob {
            source: rss_source(2, "https://b.example/feed.xml"),
            subscribers: vec![],
            fetched: rss(&["https://b.example/p1"]),
        },
    ];
    let out = run_cycle(&mut feeds, &mut notes, &jobs, &no_enrichment);
    assert_eq!(out, vec![SourceOutcome::FetchFailed, SourceOutcome::Ingested(1)]);
    assert_eq!(count_for_source(&feeds, 1), 0);
    assert_eq!(count_for_source(&feeds, 2), 1);
    assert_eq!(feeds.get(0).url, "https://b.example/p1");
}

#[test]
fn failed_enrichment_still_stores_the_entry() {
    let mut feeds = FeedStore::new();
    let mut notes = NotificationStore::new();
    let s1 = rss_source(1, "https://a.example/feed.xml");
    let failing = |_u: String| -> Option<String> { None };
    let r = process_source(&mut feeds, &mut notes, &s1, &rss(&["https://a.example/p1"]), &vec![], &failing);
    assert_eq!(r, SourceOutcome::Ingested(1));
    assert_eq!(count_for_source(&feeds, 1), 1);
    assert_eq!(feeds.get(0).readable, None);
}

#[test]
fn enrichment_is_kept_with_the_entry() {
    let mut feeds = FeedStore::new();
    let mut notes = NotificationStore::new();
    let s1 = rss_source(1, "https://a.example/feed.xml");
    let enrich = |u: String| -> Option<String> { Some(format!("readable {}", u)) };
    process_source(&mut feeds, &mut notes, &s1, &rss(&["https://a.example/p1"]), &vec![], &enrich);
    assert_eq!(feeds.get(0).readable, Some("readable https://a.example/p1".to_string()));
    assert_eq!(feeds.get(0).raw.title, Some("post 1".to_string()));
}

#[test]
fn parsed_links_and_titles_reach_the_store() {
    let mut feeds = FeedStore::new();
    let mut notes = NotificationStore::new();
    let s1 = rss_source(1, "https://a.example/feed.xml");
    let doc = rss_doc(&["https://a.example/p1", "https://a.example/p2", "https://a.example/p1"]);
    let r = process_source(&mut feeds, &mut notes, &s1, &parse(&doc), &vec![7], &no_enrichment);
    assert_eq!(r, SourceOutcome::Ingested(2));
    assert_eq!(feeds.get(0).url, "https://a.example/p1");
    assert_eq!(feeds.get(1).url, "https://a.example/p2");
    assert_eq!(feeds.get(1).raw.title, Some("post 2".to_string()));
    assert_eq!(notes.len(), 2);
}

#[test]
fn same_url_in_two_sources_is_two_entries() {
    let mut feeds = FeedStore::new();
    let mut notes = NotificationStore::new();
    let doc = rss_doc(&["https://shared.example/p"]);
    process_source(&mut feeds, &mut notes, &rss_source(1, "u1"), &parse(&doc), &vec![], &no_enrichment);
    process_source(&mut feeds, &mut notes, &rss_source(2, "u2"), &parse(&doc), &vec![], &no_enrichment);
    assert_eq!(feeds.len(), 2);
}

#[test]
fn unparsable_document_changes_nothing() {
    let mut feeds = FeedStore::new();
    let mut notes = NotificationStore::new();
    let s1 = rss_source(1, "https://a.example/feed.xml");
    let r = process_source(&mut feeds, &mut notes, &s1, &parse(b"not a feed"), &vec![5], &no_enrichment);
    assert_eq!(r, SourceOutcome::ParseFailed);
    assert_eq!(feeds.len(), 0);
    assert_eq!(notes.len(), 0);
}

#[test]
fn twitter_source_is_skipped() {
    let mut feeds = FeedStore::new();
    let mut notes = NotificationStore::new();
    let s = Source { id: 3, kind: SourceKind::Twitter, title: None, last_error: None };
    let r = process_source(&mut feeds, &mut notes, &s, &rss(&["https://a.example/p1"]), &vec![], &no_enrichment);
    assert_eq!(r, SourceOutcome::Unsupported);
    assert_eq!(feeds.len(), 0);
}

#[test]
fn empty_document_adds_nothing() {
    let mut feeds = FeedStore::new();
    let mut notes = NotificationStore::new();
    let s1 = rss_source(1, "https://a.example/feed.xml");
    let r = process_source(&mut feeds, &mut notes, &s1, &rss(&[]), &vec![1], &no_enrichment);
    assert_eq!(r, SourceOutcome::Ingested(0));
    assert_eq!(feeds.len(), 0);
    assert_eq!(notes.len(), 0);
}

#[test]
fn fan_out_twice_adds_nothing() {
    let mut notes = NotificationStore::new();
    assert_eq!(fan_out(&mut notes, 4, &vec![1, 2, 3]), 3);
    assert_eq!(fan_out(&mut notes, 4, &vec![1, 2, 3]), 0);
    assert_eq!(notes.len(), 3);
    assert_eq!(fan_out(&mut notes, 4, &vec![3, 9, 9]), 1);
    assert_eq!(notes.len(), 4);
    assert_eq!(notes.get(3).user_id, 9);
}

#[test]
fn stores_refuse_a_duplicate_key() {
    let mut notes = NotificationStore::new();
    assert_eq!(notes.insert_notification(1, 2), Ok(()));
    assert_eq!(notes.insert_notification(1, 2), Err(mindstream::InsertError::Conflict));
    assert!(notes.notification_exists(1, 2));
    assert!(!notes.notification_exists(2, 1));
    let mut feeds = FeedStore::new();
    let raw = RawPayload { title: Some("t".to_string()), summary: None, published: None };
    let e = mindstream::Entry { source_id: 1, url: "u".to_string(), raw, readable: None };
    assert_eq!(feeds.insert_entry(e.clone()), Ok(0));
    assert_eq!(feeds.insert_entry(e), Err(mindstream::InsertError::Conflict));
    assert!(feeds.entry_exists(1, &"u".to_string()));
    assert!(!feeds.entry_exists(2, &"u".to_string()));
}

#[test]
fn registration_and_subscriptions() {
    let mut catalog = SourceCatalog::new();
    let m = Mutation;
    let a = m.add_rss_source(&mut catalog, "https://a.example/feed.xml".to_string(), Some("A".to_string()));
    catalog.add(Source { id: 1, kind: SourceKind::Twitter, title: None, last_error: None });
    let b = m.add_rss_source(&mut catalog, "https://b.example/feed.xml".to_string(), None);
    assert_eq!((a, b), (0, 2));
    let rss = catalog.rss_sources();
    assert_eq!(rss.len(), 2);
    assert_eq!(rss[0].id, 0);
    assert_eq!(rss[0].title, Some("A".to_string()));
    assert_eq!(rss[1].id, 2);
    let mut subs = SubscriptionIndex::new();
    assert!(subs.insert(10, 0));
    assert!(subs.insert(11, 0));
    assert!(!subs.insert(10, 0));
    assert!(subs.insert(10, 2));
    assert_eq!(subs.subscribers(0), vec![10, 11]);
    assert_eq!(subs.subscribers(2), vec![10]);
    assert!(subs.subscribers(1).is_empty());
    assert!(subs.is_subscribed(11, 0));
    assert!(!subs.is_subscribed(11, 2));
}

#[test]
fn pages_of_a_users_sources() {
    let mut subs = SubscriptionIndex::new();
    for s in [5u64, 6, 7, 8] {
        subs.insert(1, s);
        subs.insert(2, s + 100);
    }
    assert_eq!(subs.my_sources(2, 0, 1), vec![5, 6]);
    assert_eq!(subs.my_sources(2, 3, 1), vec![8]);
    assert_eq!(subs.my_sources(10, 1, 1), vec![6, 7, 8]);
    assert_eq!(subs.my_sources(3, 9, 1), Vec::<u64>::new());
    assert_eq!(subs.my_sources(0, 0, 2), Vec::<u64>::new());
    assert_eq!(subs.my_sources(1, 0, 3), Vec::<u64>::new());
}

#[test]
fn comment_links_are_not_entries() {
    let doc = b"<?xml version=\"1.0\"?><rss version=\"2.0\" xmlns:wfw=\"http://wellformedweb.org/CommentAPI/\">\
        <channel><title>A</title><link>https://a.example/</link><description>d</description>\
        <item><title>One</title><link>https://a.example/p1</link>\
        <description>first post</description>\
        <pubDate>Mon, 01 Jan 2024 00:00:00 GMT</pubDate>\
        <comments>https://a.example/p1#comments</comments>\
        <wfw:commentRss>https://a.example/p1/feed</wfw:commentRss></item>\
        </channel></rss>";
    let mut feeds = FeedStore::new();
    let mut notes = NotificationStore::new();
    let s1 = rss_source(1, "https://a.example/feed.xml");
    let r = process_source(&mut feeds, &mut notes, &s1, &parse(doc), &vec![4], &no_enrichment);
    assert_eq!(r, SourceOutcome::Ingested(1));
    assert_eq!(feeds.len(), 1);
    assert_eq!(feeds.get(0).url, "https://a.example/p1");
    assert_eq!(feeds.get(0).raw.summary, Some("first post".to_string()));
    assert_eq!(feeds.get(0).raw.published, Some(1704067200));
    assert_eq!(notes.len(), 1);
}

#[test]
fn atom_self_and_replies_links_are_not_entries() {
    let doc = b"<?xml version=\"1.0\"?><feed xmlns=\"http://www.w3.org/2005/Atom\">\
        <title>B</title><id>urn:b</id><updated>2024-01-01T00:00:00Z</updated>\
        <entry><title>E</title><id>urn:e</id><updated>2024-01-01T00:00:00Z</updated>\
        <link href=\"https://b.example/e\"/>\
        <link rel=\"self\" href=\"https://b.example/e.atom\"/>\
        <link rel=\"replies\" href=\"https://b.example/e/replies\"/>\
        <link rel=\"alternate\" href=\"https://b.example/e.html\"/></entry></feed>";
    let mut feeds = FeedStore::new();
    let mut notes = NotificationStore::new();
    let s = rss_source(2, "https://b.example/atom.xml");
    let r = process_source(&mut feeds, &mut notes, &s, &parse(doc), &vec![], &no_enrichment);
    assert_eq!(r, SourceOutcome::Ingested(2));
    assert_eq!(feeds.get(0).url, "https://b.example/e");
    assert_eq!(feeds.get(1).url, "https://b.example/e.html");
}

#[test]
fn cycle_skips_twitter_and_failed_sources_and_keeps_old_rows() {
    let mut feeds = FeedStore::new();
    let mut notes = NotificationStore::new();
    let s0 = rss_source(1, "https://a.example/feed.xml");
    process_source(&mut feeds, &mut notes, &s0, &rss(&["https://a.example/old"]), &vec![3], &no_enrichment);
    let jobs = vec![
        SourceJob {
            source: Source { id: 9, kind: SourceKind::Twitter, title: None, last_error: None },
            subscribers: vec![3],
            fetched: rss(&["https://t.example/x"]),
        },
        SourceJob {
            source: rss_source(1, "https://a.example/feed.xml"),
            subscribers: vec![3],
            fetched: Err(FetchError::Parse { message: "bad".to_string() }),
        },
        SourceJob {
            source: rss_source(2, "https://b.example/feed.xml"),
            subscribers: vec![3, 4],
            fetched: rss(&["https://b.example/p1"]),
        },
    ];
    let out = run_cycle(&mut feeds, &mut notes, &jobs, &no_enrichment);
    assert_eq!(out, vec![SourceOutcome::Unsupported, SourceOutcome::ParseFailed, SourceOutcome::Ingested(1)]);
    assert_eq!(feeds.len(), 2);
    assert_eq!(feeds.get(0).url, "https://a.example/old");
    assert_eq!(feeds.get(1).url, "https://b.example/p1");
    assert_eq!(notes.len(), 3);
    assert_eq!((notes.get(0).entry_id, notes.get(0).user_id), (0, 3));
    assert_eq!((notes.get(1).entry_id, notes.get(1).user_id), (1, 3));
    assert_eq!((notes.get(2).entry_id, notes.get(2).user_id), (1, 4));
    assert_eq!(count_for_source(&feeds, 9), 0);
}
