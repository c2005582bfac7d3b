use vstd::prelude::*;
use crate::dates::{Timestamp, ts_valid};

verus! {

/// One annotation kept for rendering: a highlighted excerpt, its note (empty
/// when the source holds none), and the capture date string.
#[derive(Debug, Clone)]
pub struct Highlight {
    pub id: String,
    pub parent_id: String,
    pub content: String,
    pub note: String,
    pub note_saved_at: String,
}

/// One bibliographic document, normalized from the data source.
#[derive(Debug, Clone)]
pub struct Paper {
    pub id: String,
    pub has_url: bool,
    /// The deduplication key: the URL when one is present, else a synthetic
    /// tag derived from the id.
    pub roam_ref: String,
    pub source_url: String,
    pub zotero_url: String,
    pub title: String,
    pub author: String,
    pub saved_at: Timestamp,
    pub published_date: Option<Timestamp>,
}

/// A paper carries well-formed timestamps.
pub open spec fn paper_wf(p: Paper) -> bool {
    ts_valid(p.saved_at) && (p.published_date is Some ==> ts_valid(p.published_date->0))
}

/// The three resolved locations the program runs against.
#[derive(Debug, Clone)]
pub struct Settings {
    pub org_roam_dir: String,
    pub templates_dir: String,
    pub zotero_db_path: String,
}

/// One row of the documents query, as plain values.
#[derive(Debug, Clone)]
pub struct PaperRow {
    pub id: i64,
    pub title: String,
    pub url: Option<String>,
    pub date_added: String,
    pub zotero_uri: String,
    pub publication_date: Option<String>,
    pub authors: Option<String>,
}

/// One row of the annotations query, as plain values, with its three-part
/// composite sort key.
#[derive(Debug, Clone)]
pub struct HighlightRow {
    pub id: i64,
    pub text: Option<String>,
    pub comment: Option<String>,
    pub parent_id: i64,
    pub date_added: String,
    pub sort1: i64,
    pub sort2: i64,
    pub sort3: i64,
}

/// The typed projection handed to the document template: every variable the
/// template may read, optional ones absent when the document lacks them.
#[derive(Debug, Clone)]
pub struct DocContext {
    pub uuid: String,
    pub roam_ref: String,
    pub full_url: Option<String>,
    pub zotero_url: String,
    pub title: String,
    pub author: String,
    pub saved_at: String,
    pub published_date: Option<String>,
    pub highlight_content: String,
}

} // verus!
