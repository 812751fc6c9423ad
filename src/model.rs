use vstd::prelude::*;

verus! {

/// The read state that a user has given to an entry.
#[derive(Clone, Copy, Debug, PartialEq, Eq, Structural)]
pub enum Reaction {
    Unread,
    Read,
    ReadLater,
    Viewed,
    Liked,
    Disliked,
    Archived,
}

/// What kind of origin a source is, with its own configuration.
#[derive(Clone, Debug)]
pub enum SourceKind {
    Rss { xml_url: String },
    Twitter,
}

/// A configured origin of content.
#[derive(Clone, Debug)]
pub struct Source {
    pub id: u64,
    pub kind: SourceKind,
    pub title: Option<String>,
    pub last_error: Option<String>,
}

impl Source {
    /// A new source of kind RSS on the given endpoint.
    pub fn new_rss(id: u64, xml_url: String, title: Option<String>) -> (r: Source)
        ensures
            r.id == id,
            r.kind == (SourceKind::Rss { xml_url }),
            r.title == title,
            r.last_error.is_none(),
    {
        Source { id, kind: SourceKind::Rss { xml_url }, title, last_error: None }
    }

    /// Whether the source is of kind RSS.
    pub fn is_rss(&self) -> (r: bool)
        ensures
            r == (self.kind is Rss),
    {
        match &self.kind {
            SourceKind::Rss { .. } => true,
            SourceKind::Twitter => false,
        }
    }

    /// A copy of the source, field for field.
    pub fn duplicate(&self) -> (r: Source)
        ensures
            r == *self,
    {
        let kind = match &self.kind {
            SourceKind::Rss { xml_url } => SourceKind::Rss { xml_url: xml_url.clone() },
            SourceKind::Twitter => SourceKind::Twitter,
        };
        let title = match &self.title {
            Some(t) => Some(t.clone()),
            None => None,
        };
        let last_error = match &self.last_error {
            Some(t) => Some(t.clone()),
            None => None,
        };
        Source { id: self.id, kind, title, last_error }
    }
}

/// One link of a parsed feed entry, as the feed gives it.
#[derive(Clone, Debug)]
pub struct ParsedLink {
    pub href: String,
    /// The link relation (`alternate`, `self`, `replies`, ...), where the feed names one.
    pub rel: Option<String>,
    /// Whether the feed marks the link as pointing at comments or a comments feed.
    pub comments: bool,
}

/// The payload of a feed entry as retrieved: title, summary and publish time
/// (seconds since the Unix epoch).
#[derive(Clone, Debug)]
pub struct RawPayload {
    pub title: Option<String>,
    pub summary: Option<String>,
    pub published: Option<i64>,
}

impl RawPayload {
    /// A copy of the payload, field for field.
    pub fn duplicate(&self) -> (r: RawPayload)
        ensures
            r == *self,
    {
        let title = match &self.title {
            Some(t) => Some(t.clone()),
            None => None,
        };
        let summary = match &self.summary {
            Some(t) => Some(t.clone()),
            None => None,
        };
        RawPayload { title, summary, published: self.published }
    }
}

/// One entry of a parsed feed document: its links and its raw payload.
#[derive(Clone, Debug)]
pub struct ParsedEntry {
    pub links: Vec<ParsedLink>,
    pub raw: RawPayload,
}

/// A stored feed item. Its identity is its position in the feed store.
#[derive(Clone, Debug)]
pub struct Entry {
    pub source_id: u64,
    pub url: String,
    pub raw: RawPayload,
    pub readable: Option<String>,
}

/// The record that a given user has been shown a given entry.
#[derive(Clone, Copy, Debug, PartialEq, Eq, Structural)]
pub struct Notification {
    pub entry_id: usize,
    pub user_id: u64,
    pub reaction: Reaction,
}

/// The notification that fan-out creates for a user.
pub open spec fn unread(entry_id: int, user_id: u64) -> Notification {
    Notification { entry_id: entry_id as usize, user_id, reaction: Reaction::Unread }
}

} // verus!
