use vstd::prelude::*;
use crate::catalog::SourceCatalog;
use crate::model::{Source, SourceKind};

verus! {

/// The root of the write operations that the API layer exposes to the core.
#[derive(Clone, Copy, Debug)]
pub struct Mutation;

impl Mutation {
    /// Registers a new RSS source on `xml_url`, with an optional title. The source takes part
    /// in the next ingestion cycle. Returns its identity.
    pub fn add_rss_source(&self, catalog: &mut SourceCatalog, xml_url: String, title: Option<String>) -> (r: u64)
        ensures
            r == old(catalog)@.len() as u64,
            final(catalog)@ == old(catalog)@.push(
                Source { id: r, kind: SourceKind::Rss { xml_url }, title, last_error: None },
            ),
    {
        catalog.add_rss_source(xml_url, title)
    }
}

} // verus!
