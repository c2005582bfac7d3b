use zotero_sync::dates::{parse_date, format_date, format_compact, Timestamp};
use zotero_sync::editor::merged_content;
use zotero_sync::extract::{paper_from_row, highlights_from_rows};
use zotero_sync::filename::{filename_for, get_new_entry_filename};
use zotero_sync::model::{HighlightRow, PaperRow};
use zotero_sync::reconcile::{decide, get_duplicate_titles, Decision};
use zotero_sync::refs::{lookup_ref, parse_existing_refs};
use zotero_sync::render::{document_context, generate_file_content, generate_highlight_content};

fn ts(year: u32, month: u32, day: u32, hour: u32, minute: u32, second: u32) -> Timestamp {
    Timestamp { year, month, day, hour, minute, second }
}

fn paper_row(id: i64, title: &str, url: Option<&str>, authors: Option<&str>) -> PaperRow {
    PaperRow {
        id,
        title: title.to_string(),
        url: url.map(|u| u.to_string()),
        date_added: "2024-03-05".to_string(),
        zotero_uri: format!("zotero://select/items/0_KEY{id}"),
        publication_date: None,
        authors: authors.map(|a| a.to_string()),
    }
}

fn hl_row(id: i64, text: Option<&str>, comment: Option<&str>, parent: i64, key: (i64, i64, i64)) -> HighlightRow {
    HighlightRow {
        id,
        text: text.map(|t| t.to_string()),
        comment: comment.map(|c| c.to_string()),
        parent_id: parent,
        date_added: "2024-03-06".to_string(),
        sort1: key.0,
        sort2: key.1,
        sort3: key.2,
    }
}

#[test]
fn parse_date_accepts_date_only() {
    let t = parse_date("2024-03-05").unwrap();
    assert_eq!(t, ts(2024, 3, 5, 0, 0, 0));
}

#[test]
fn parse_date_accepts_date_time() {
    let t = parse_date("1999-12-31 23:59:58").unwrap();
    assert_eq!(t, ts(1999, 12, 31, 23, 59, 58));
}

#[test]
fn parse_date_accepts_leap_day() {
    assert_eq!(parse_date("2024-02-29").unwrap(), ts(2024, 2, 29, 0, 0, 0));
    assert!(parse_date("2023-02-29").is_none());
}

#[test]
fn parse_date_rejects_malformed_input() {
    assert!(parse_date("").is_none());
    assert!(parse_date("2024-3-5").is_none());
    assert!(parse_date("2024-13-01").is_none());
    assert!(parse_date("2024-04-31").is_none());
    assert!(parse_date("2024-03-05T00:00:00").is_none());
    assert!(parse_date("2024-03-05 24:00:00").is_none());
}

#[test]
fn format_date_pads_fields() {
    assert_eq!(format_date(&ts(987, 4, 9, 0, 0, 0)), "0987-04-09");
    assert_eq!(format_compact(&ts(2024, 1, 2, 3, 4, 5)), "20240102030405");
}

#[test]
fn reference_tag_is_url_when_present() {
    let p = paper_from_row(paper_row(7, "T", Some("http://example.org/a"), None), ts(2024, 1, 1, 0, 0, 0));
    assert!(p.has_url);
    assert_eq!(p.roam_ref, "http://example.org/a");
    assert_eq!(p.source_url, "http://example.org/a");
}

#[test]
fn reference_tag_is_synthetic_without_url() {
    let p = paper_from_row(paper_row(42, "T", None, None), ts(2024, 1, 1, 0, 0, 0));
    assert!(!p.has_url);
    assert_eq!(p.roam_ref, "ref_42");
    let q = paper_from_row(paper_row(43, "T", Some(""), None), ts(2024, 1, 1, 0, 0, 0));
    assert!(!q.has_url);
    assert_eq!(q.roam_ref, "ref_43");
    assert_ne!(p.roam_ref, q.roam_ref);
}

#[test]
fn saved_at_falls_back_to_now() {
    let now = ts(2030, 6, 7, 8, 9, 10);
    let mut row = paper_row(1, "T", None, None);
    row.date_added = "not a date".to_string();
    let p = paper_from_row(row, now);
    assert_eq!(p.saved_at, now);
}

#[test]
fn editor_keeps_user_lines_and_replaces_generated() {
    let merged = merged_content("A\nB\n* zotero:highlights\nOLD", "NEW");
    assert_eq!(merged, "A\nB\nNEW");
    assert!(merged.starts_with("A\nB"));
    assert!(!merged.contains("OLD"));
}

#[test]
fn editor_replaces_whole_file_without_marker() {
    assert_eq!(merged_content("no marker here", "NEW"), "\nNEW");
    assert_eq!(merged_content("", ""), "");
}

#[test]
fn editor_is_idempotent_with_marker_leading_content() {
    let generated = "* zotero:highlights\nnew text";
    let once = merged_content("user notes\n* zotero:highlights\nold", generated);
    assert_eq!(once, "user notes\n* zotero:highlights\nnew text");
    let twice = merged_content(&once, generated);
    assert_eq!(twice, once);
}

#[test]
fn duplicate_titles_counts_repeats_only() {
    let now = ts(2024, 1, 1, 0, 0, 0);
    let papers = vec![
        paper_from_row(paper_row(1, "Foo", Some("http://x"), None), now),
        paper_from_row(paper_row(2, "Bar", None, None), now),
        paper_from_row(paper_row(3, "Foo", None, None), now),
    ];
    let dups = get_duplicate_titles(&papers);
    assert_eq!(dups, vec!["Foo".to_string()]);
}

#[test]
fn duplicate_title_with_url_gets_hash_suffix() {
    let now = ts(2024, 1, 2, 3, 4, 5);
    let with_url = paper_from_row(paper_row(1, "Foo", Some("http://x"), None), now);
    let without_url = paper_from_row(paper_row(2, "Foo", None, None), now);
    let dups = get_duplicate_titles(&vec![with_url.clone(), without_url.clone()]);
    let hash = format!("{:x}", md5::compute("http://x"));
    let f1 = filename_for("/notes", &with_url, &dups, &now);
    let f2 = filename_for("/notes", &without_url, &dups, &now);
    assert_eq!(f1, format!("/notes/20240102030405-foo-{}.org", &hash[..8]));
    assert_eq!(f2, "/notes/20240102030405-foo.org");
}

#[test]
fn unique_title_gets_no_hash_suffix_even_with_url() {
    let now = ts(2024, 1, 2, 3, 4, 5);
    let p = paper_from_row(paper_row(1, "Solo", Some("http://x"), None), now);
    let f = filename_for("/notes", &p, &get_duplicate_titles(&vec![p.clone()]), &now);
    assert_eq!(f, "/notes/20240102030405-solo.org");
}

#[test]
fn filename_slugifies_and_truncates_title() {
    let now = ts(2024, 1, 2, 3, 4, 5);
    let f = get_new_entry_filename("/n", "My Test String!!!1!1", None, &now);
    assert_eq!(f, "/n/20240102030405-my-test-string-1-1.org");
    let long = "x".repeat(150);
    let g = get_new_entry_filename("/n", &long, None, &now);
    assert_eq!(g, format!("/n/20240102030405-{}.org", "x".repeat(100)));
}

#[test]
fn parse_existing_refs_keeps_tagged_lines_only() {
    let output = "a.org::ROAM_REFS: http://x\nignored line\nb.org::ROAM_REFS:   \nc.org::ROAM_REFS: ref_9\n";
    let refs = parse_existing_refs(output);
    assert_eq!(
        refs,
        vec![
            ("http://x".to_string(), "a.org".to_string()),
            ("ref_9".to_string(), "c.org".to_string()),
        ]
    );
}

#[test]
fn lookup_ref_last_entry_wins() {
    let refs = parse_existing_refs("a.org::ROAM_REFS: ref_1\nb.org::ROAM_REFS: ref_1\n");
    assert_eq!(lookup_ref(&refs, &"ref_1".to_string()), Some("b.org".to_string()));
    assert_eq!(lookup_ref(&refs, &"ref_2".to_string()), None);
}

#[test]
fn highlight_rows_filter_empty_excerpts() {
    let rows = vec![
        hl_row(1, None, Some("c"), 10, (1, 0, 0)),
        hl_row(2, Some("   \t"), None, 10, (2, 0, 0)),
        hl_row(3, Some("Hello"), None, 10, (3, 0, 0)),
    ];
    let groups = highlights_from_rows(&rows);
    assert_eq!(groups.len(), 1);
    assert_eq!(groups[0].0, 10);
    assert_eq!(groups[0].1.len(), 1);
    assert_eq!(groups[0].1[0].id, "3");
    assert_eq!(groups[0].1[0].content, "Hello");
    assert_eq!(groups[0].1[0].note, "");
    assert_eq!(groups[0].1[0].note_saved_at, "2024-03-06");
}

#[test]
fn highlight_rows_group_by_document_in_order() {
    let rows = vec![
        hl_row(9, Some("a"), None, 1, (1, 1, 1)),
        hl_row(2, Some("b"), None, 1, (1, 2, 0)),
        hl_row(1, Some("c"), None, 2, (0, 0, 1)),
        hl_row(5, Some("d"), None, 2, (0, 0, 2)),
    ];
    let groups = highlights_from_rows(&rows);
    assert_eq!(groups.len(), 2);
    assert_eq!(groups[0].0, 1);
    let first: Vec<&str> = groups[0].1.iter().map(|h| h.content.as_str()).collect();
    assert_eq!(first, vec!["a", "b"]);
    assert_eq!(groups[1].0, 2);
    let second: Vec<&str> = groups[1].1.iter().map(|h| h.content.as_str()).collect();
    assert_eq!(second, vec!["c", "d"]);
}

fn highlights_tera() -> tera::Tera {
    let mut t = tera::Tera::default();
    t.add_raw_template(
        "highlights.tera",
        "{% for h in highlights %}{{h.id}}:{{h.content}}:{{h.note}};{% endfor %}",
    )
    .unwrap();
    t
}

#[test]
fn empty_annotation_list_renders_empty_text() {
    let t = tera::Tera::default();
    let rendered = generate_highlight_content(&t, &Vec::new()).unwrap();
    assert_eq!(rendered, "");
}

#[test]
fn rendered_highlights_keep_order_and_empty_notes() {
    let rows = vec![
        hl_row(9, Some("first"), Some("n1"), 1, (1, 1, 1)),
        hl_row(2, Some(""), None, 1, (1, 2, 0)),
        hl_row(4, Some("second"), None, 1, (1, 3, 0)),
    ];
    let groups = highlights_from_rows(&rows);
    let rendered = generate_highlight_content(&highlights_tera(), &groups[0].1).unwrap();
    assert_eq!(rendered, "9:first:n1;4:second:;");
}

#[test]
fn render_without_template_reports_error() {
    let t = tera::Tera::default();
    let rows = vec![hl_row(1, Some("x"), None, 1, (0, 0, 0))];
    let groups = highlights_from_rows(&rows);
    assert!(generate_highlight_content(&t, &groups[0].1).is_err());
}

#[test]
fn document_context_carries_url_only_when_present() {
    let now = ts(2024, 1, 1, 0, 0, 0);
    let with_url = paper_from_row(paper_row(1, "T", Some("http://x"), None), now);
    let without = paper_from_row(paper_row(2, "T", None, None), now);
    let c1 = document_context(&with_url, "u1".to_string(), "hc".to_string());
    assert_eq!(c1.full_url, Some("http://x".to_string()));
    assert_eq!(c1.saved_at, "2024-03-05");
    assert_eq!(c1.published_date, None);
    let c2 = document_context(&without, "u2".to_string(), "hc".to_string());
    assert_eq!(c2.full_url, None);
    assert_eq!(c2.roam_ref, "ref_2");
}

#[test]
fn end_to_end_create_then_edit() {
    let now = ts(2024, 5, 6, 7, 8, 9);
    let paper = paper_from_row(paper_row(42, "Study A", None, Some("A. Smith")), now);
    assert_eq!(paper.roam_ref, "ref_42");

    let mut t = highlights_tera();
    t.add_raw_template(
        "document.org.tera",
        ":ROAM_REFS: {{roam_ref}}\n{% if full_url %}URL {{full_url}}\n{% endif %}BY {{author}}\n* zotero:highlights\n{{highlight_content}}",
    )
    .unwrap();

    let mut created = 0;
    let mut edited = 0;

    // First run: nothing scanned, so the document is new.
    let refs = parse_existing_refs("");
    let decision = decide(&refs, &paper);
    assert!(matches!(decision, Decision::Create));
    let content = generate_file_content(&t, &paper, String::new()).unwrap();
    created += 1;
    assert!(content.contains("ref_42"));
    assert!(!content.contains("URL"));
    assert!(content.contains("BY A. Smith"));

    // Second run: the note store now maps the tag to the file.
    let refs2 = parse_existing_refs("store/note.org::ROAM_REFS: ref_42\n");
    match decide(&refs2, &paper) {
        Decision::Edit(path) => {
            assert_eq!(path, "store/note.org");
            let merged = merged_content(&content, "* zotero:highlights\nfresh");
            assert!(merged.contains("ref_42"));
            assert!(merged.ends_with("* zotero:highlights\nfresh"));
            edited += 1;
        }
        Decision::Create => panic!("expected an edit on the second run"),
    }
    assert_eq!(created, 1);
    assert_eq!(edited, 1);
}

#[test]
fn generated_uuid_has_hyphenated_form() {
    let mut t = tera::Tera::default();
    t.add_raw_template("document.org.tera", "{{uuid}}").unwrap();
    let now = ts(2024, 1, 1, 0, 0, 0);
    let p = paper_from_row(paper_row(1, "T", None, None), now);
    let u = generate_file_content(&t, &p, String::new()).unwrap();
    assert_eq!(u.len(), 36);
    assert_eq!(u.chars().filter(|c| *c == '-').count(), 4);
}

#[test]
fn editor_matches_marker_with_surrounding_whitespace() {
    let merged = merged_content("keep\n  * zotero:highlights \t\nOLD", "NEW");
    assert_eq!(merged, "keep\nNEW");
}

#[test]
fn editor_marker_on_first_line_keeps_no_prefix() {
    let merged = merged_content("* zotero:highlights\nOLD", "NEW");
    assert_eq!(merged, "\nNEW");
}
