use vstd::prelude::*;
use crate::model::{Paper, Highlight, DocContext, paper_wf};
use crate::dates::{date_chars, format_date, ts_valid_check};

verus! {

#[verifier::external_type_specification]
#[verifier::external_body]
pub struct ExTera(tera::Tera);

#[verifier::external_type_specification]
#[verifier::external_body]
pub struct ExTeraValue(tera::Value);

/// Relies on the Map and Value constructors tera re-exports from serde_json:
/// packs the four fields of one highlight into one template value, one field
/// per key, moving each string unchanged.
#[verifier::external_body]
fn highlight_value(h: &Highlight) -> tera::Value {
    let mut m = tera::Map::new();
    m.insert(String::from("id"), tera::Value::String(h.id.clone()));
    m.insert(String::from("content"), tera::Value::String(h.content.clone()));
    m.insert(String::from("note"), tera::Value::String(h.note.clone()));
    m.insert(String::from("note_saved_at"), tera::Value::String(h.note_saved_at.clone()));
    tera::Value::Object(m)
}

/// Relies on tera::Context::insert and Tera::render on the highlights
/// template: the outcome depends on the template files the Tera instance was
/// loaded with, so nothing is promised of the rendered text.
#[verifier::external_body]
fn render_highlights_tpl(tera: &tera::Tera, items: &Vec<tera::Value>) -> (r: Result<
    String,
    String,
>) {
    let mut ctx = tera::Context::new();
    ctx.insert("highlights", items);
    match tera.render("highlights.tera", &ctx) {
        Ok(s) => Ok(s),
        Err(e) => Err(format!("{e}")),
    }
}

/// Relies on tera::Context::insert and Tera::render on the document
/// template: each context key is filled from the corresponding field, the
/// optional ones only when present; the rendered text itself depends on the
/// template files, so nothing is promised of it.
#[verifier::external_body]
fn render_document_tpl(tera: &tera::Tera, c: &DocContext) -> (r: Result<String, String>) {
    let mut ctx = tera::Context::new();
    ctx.insert("uuid", &c.uuid);
    ctx.insert("roam_ref", &c.roam_ref);
    if let Some(u) = &c.full_url { ctx.insert("full_url", u); }
    ctx.insert("zotero_url", &c.zotero_url);
    ctx.insert("title", &c.title);
    ctx.insert("author", &c.author);
    ctx.insert("saved_at", &c.saved_at);
    if let Some(d) = &c.published_date { ctx.insert("published_date", d); }
    ctx.insert("highlight_content", &c.highlight_content);
    match tera.render("document.org.tera", &ctx) {
        Ok(s) => Ok(s),
        Err(e) => Err(format!("{e}")),
    }
}

/// Relies on uuid::Uuid::new_v4 and its Display form: a freshly drawn random
/// identifier in the 36-character hyphenated form; being random, nothing
/// further is promised of it.
#[verifier::external_body]
fn new_uuid() -> (r: String)
    ensures
        r@.len() == 36,
{
    uuid::Uuid::new_v4().to_string()
}

/// Renders the highlights section for one document: an empty annotation list
/// yields empty text without consulting the template; a non-empty one is
/// handed to the template in its given order.
pub fn generate_highlight_content(tera: &tera::Tera, highlights: &Vec<Highlight>) -> (r: Result<
    String,
    String,
>)
    ensures
        highlights@.len() == 0 ==> r is Ok && r->Ok_0@ == Seq::<char>::empty(),
{
    if highlights.len() == 0 {
        Ok(String::new())
    } else {
        let mut items: Vec<tera::Value> = Vec::new();
        let mut i: usize = 0;
        while i < highlights.len()
            decreases highlights@.len() - i,
        {
            items.push(highlight_value(&highlights[i]));
            i += 1;
        }
        render_highlights_tpl(tera, &items)
    }
}

/// The typed template context of one document: the URL appears exactly when
/// the document has one, the publication date exactly when it is known, and
/// both dates are in the dashed form.
pub fn document_context(doc: &Paper, uuid: String, highlight_content: String) -> (c: DocContext)
    requires
        paper_wf(*doc),
    ensures
        c.uuid == uuid,
        c.roam_ref@ == doc.roam_ref@,
        doc.has_url ==> c.full_url is Some && c.full_url->0@ == doc.source_url@,
        !doc.has_url ==> c.full_url is None,
        c.zotero_url@ == doc.zotero_url@,
        c.title@ == doc.title@,
        c.author@ == doc.author@,
        c.saved_at@ == date_chars(doc.saved_at),
        doc.published_date is Some ==> c.published_date is Some && c.published_date->0@
            == date_chars(doc.published_date->0),
        doc.published_date is None ==> c.published_date is None,
        c.highlight_content == highlight_content,
{
    let full_url = if doc.has_url {
        Some(doc.source_url.clone())
    } else {
        None
    };
    let published_date = match &doc.published_date {
        Some(d) => Some(format_date(d)),
        None => None,
    };
    DocContext {
        uuid,
        roam_ref: doc.roam_ref.clone(),
        full_url,
        zotero_url: doc.zotero_url.clone(),
        title: doc.title.clone(),
        author: doc.author.clone(),
        saved_at: format_date(&doc.saved_at),
        published_date,
        highlight_content,
    }
}

/// Renders the full content of a fresh note file for one document, under a
/// freshly drawn file identifier; the text itself comes from the document
/// template and depends on the template files.
pub fn generate_file_content(tera: &tera::Tera, doc: &Paper, highlight_content: String) -> (r:
    Result<String, String>)
    requires
        paper_wf(*doc),
{
    let uuid = new_uuid();
    let ctx = document_context(doc, uuid, highlight_content);
    render_document_tpl(tera, &ctx)
}

/// Whether the paper's timestamps are well formed; mirrors `paper_wf` so
/// that unverified callers can test it before the rendering calls.
pub fn paper_wf_check(p: &Paper) -> (r: bool)
    ensures
        r == paper_wf(*p),
{
    let sa = ts_valid_check(&p.saved_at);
    let pd = match &p.published_date {
        Some(d) => ts_valid_check(d),
        None => true,
    };
    sa && pd
}

} // verus!
