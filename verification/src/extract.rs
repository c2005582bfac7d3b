use vstd::prelude::*;
use crate::chars::{chars_of, string_of, trim, trimmed_bounds, append_range};
use crate::numbers::{dec_int, i64_chars, lemma_dec_int_injective};
use crate::dates::{Timestamp, ts_valid, parse_date, parse_date_spec, lemma_parse_date_valid};
use crate::model::{Paper, PaperRow, Highlight, HighlightRow, paper_wf};

verus! {

/// The synthetic reference tag of a document that has no URL.
pub open spec fn synthetic_tag(id: int) -> Seq<char> {
    "ref_"@ + dec_int(id)
}

/// Two documents without a URL never share a reference tag: the synthetic
/// tags of distinct ids differ.
pub proof fn lemma_synthetic_tags_distinct(a: int, b: int)
    requires
        a != b,
    ensures
        synthetic_tag(a) != synthetic_tag(b),
{
    reveal_strlit("ref_");
    if synthetic_tag(a) == synthetic_tag(b) {
        assert(synthetic_tag(a).skip(4) =~= dec_int(a));
        assert(synthetic_tag(b).skip(4) =~= dec_int(b));
        lemma_dec_int_injective(a, b);
    }
}

/// Normalizes one documents-query row into a `Paper`: the reference tag is
/// the URL when one is present and non-empty, else the synthetic tag; the
/// saved-at date falls back to `now` when the source string does not parse.
pub fn paper_from_row(row: PaperRow, now: Timestamp) -> (p: Paper)
    ensures
        p.id@ == dec_int(row.id as int),
        p.has_url == (row.url is Some && row.url->0@.len() > 0),
        p.source_url@ == (if row.url is Some {
            row.url->0@
        } else {
            Seq::<char>::empty()
        }),
        p.roam_ref@ == (if row.url is Some && row.url->0@.len() > 0 {
            row.url->0@
        } else {
            synthetic_tag(row.id as int)
        }),
        p.zotero_url@ == row.zotero_uri@,
        p.title@ == row.title@,
        p.author@ == (if row.authors is Some {
            row.authors->0@
        } else {
            Seq::<char>::empty()
        }),
        p.saved_at == (if parse_date_spec(row.date_added@) is Some {
            parse_date_spec(row.date_added@)->0
        } else {
            now
        }),
        p.published_date == (if row.publication_date is Some {
            parse_date_spec(row.publication_date->0@)
        } else {
            Option::<Timestamp>::None
        }),
        ts_valid(now) ==> paper_wf(p),
{
    let id_digits = i64_chars(row.id);
    let id_str = string_of(&id_digits);
    let (has_url, source_url) = match row.url {
        Some(u) => (!u.as_str().is_empty(), u),
        None => (false, String::new()),
    };
    let roam_ref = if has_url {
        source_url.clone()
    } else {
        let mut tag = chars_of("ref_");
        append_range(&mut tag, &id_digits, 0, id_digits.len());
        proof {
            assert(tag@ =~= synthetic_tag(row.id as int));
        }
        string_of(&tag)
    };
    let saved_at = match parse_date(row.date_added.as_str()) {
        Some(t) => t,
        None => now,
    };
    let published_date = match row.publication_date {
        Some(d) => parse_date(d.as_str()),
        None => None,
    };
    let author = match row.authors {
        Some(a) => a,
        None => String::new(),
    };
    proof {
        lemma_parse_date_valid(row.date_added@);
        if row.publication_date is Some {
            lemma_parse_date_valid(row.publication_date->0@);
        }
    }
    Paper {
        id: id_str,
        has_url,
        roam_ref,
        source_url,
        zotero_url: row.zotero_uri,
        title: row.title,
        author,
        saved_at,
        published_date,
    }
}

/// Whether an annotation row is kept: it has excerpt text that is not
/// whitespace only.
pub open spec fn kept(r: HighlightRow) -> bool {
    r.text is Some && trim(r.text->0@).len() > 0
}

/// Whether `h` is the rendering projection of the kept row `r`.
pub open spec fn hl_matches(h: Highlight, r: HighlightRow) -> bool {
    &&& h.id@ == dec_int(r.id as int)
    &&& h.parent_id@ == dec_int(r.parent_id as int)
    &&& r.text is Some && h.content@ == r.text->0@
    &&& h.note@ == (if r.comment is Some {
        r.comment->0@
    } else {
        Seq::<char>::empty()
    })
    &&& h.note_saved_at@ == r.date_added@
}

/// The kept rows of one document, in source order.
pub open spec fn kept_rows(rows: Seq<HighlightRow>, pid: i64) -> Seq<HighlightRow>
    decreases rows.len(),
{
    if rows.len() == 0 {
        Seq::empty()
    } else if kept(rows.last()) && rows.last().parent_id == pid {
        kept_rows(rows.drop_last(), pid).push(rows.last())
    } else {
        kept_rows(rows.drop_last(), pid)
    }
}

/// The data source's composite order: owning document first, then the
/// three-part sort key.
pub open spec fn row_le(a: HighlightRow, b: HighlightRow) -> bool {
    ||| a.parent_id < b.parent_id
    ||| (a.parent_id == b.parent_id && (a.sort1 < b.sort1 || (a.sort1 == b.sort1 && (a.sort2
        < b.sort2 || (a.sort2 == b.sort2 && a.sort3 <= b.sort3)))))
}

pub open spec fn sorted_rows(rows: Seq<HighlightRow>) -> bool {
    forall|i: int, j: int| 0 <= i < j < rows.len() ==> row_le(rows[i], rows[j])
}

/// One group of the extractor's output is the full kept-row list of its
/// document, projected element by element.
pub open spec fn group_matches(g: (i64, Vec<Highlight>), rows: Seq<HighlightRow>) -> bool {
    &&& g.1@.len() == kept_rows(rows, g.0).len()
    &&& forall|j: int| 0 <= j < g.1@.len() ==> hl_matches(#[trigger] g.1@[j], kept_rows(rows, g.0)[j])
}

/// The extractor's whole output is faithful to the rows.
pub open spec fn groups_wf(groups: Seq<(i64, Vec<Highlight>)>, rows: Seq<HighlightRow>) -> bool {
    &&& forall|k: int| 0 <= k < groups.len() ==> group_matches(#[trigger] groups[k], rows)
    &&& forall|k: int| 0 <= k < groups.len() ==> kept_rows(rows, (#[trigger] groups[k]).0).len() > 0
    &&& forall|k1: int, k2: int| 0 <= k1 < k2 < groups.len() ==> groups[k1].0 != groups[k2].0
    &&& forall|pid: i64|
        #![trigger kept_rows(rows, pid)]
        kept_rows(rows, pid).len() > 0 ==> exists|k: int|
            0 <= k < groups.len() && (#[trigger] groups[k]).0 == pid
}

proof fn lemma_kept_rows_step(rows: Seq<HighlightRow>, i: int)
    requires
        0 <= i < rows.len(),
    ensures
        forall|pid: i64|
            #[trigger] kept_rows(rows.take(i + 1), pid) == (if kept(rows[i]) && rows[i].parent_id
                == pid {
                kept_rows(rows.take(i), pid).push(rows[i])
            } else {
                kept_rows(rows.take(i), pid)
            }),
{
    assert forall|pid: i64|
        #[trigger] kept_rows(rows.take(i + 1), pid) == (if kept(rows[i]) && rows[i].parent_id
            == pid {
            kept_rows(rows.take(i), pid).push(rows[i])
        } else {
            kept_rows(rows.take(i), pid)
        }) by {
        let t = rows.take(i + 1);
        assert(t.len() == i + 1);
        assert(t.last() == rows[i]);
        assert(t.drop_last() =~= rows.take(i));
    }
}

/// Whether the row's excerpt text is present and not whitespace only;
/// mirrors `kept`.
fn kept_exec(r: &HighlightRow) -> (b: bool)
    ensures
        b == kept(*r),
{
    match &r.text {
        Some(t) => {
            let tc = chars_of(t.as_str());
            let (a, b) = trimmed_bounds(&tc, 0, tc.len());
            proof {
                assert(tc@.subrange(0, tc@.len() as int) =~= tc@);
            }
            b > a
        },
        None => false,
    }
}

/// The rendering projection of one kept row.
fn to_highlight(r: &HighlightRow) -> (h: Highlight)
    requires
        kept(*r),
    ensures
        hl_matches(h, *r),
{
    let content = match &r.text {
        Some(t) => t.clone(),
        None => {
            proof {
                assert(false);
            }
            String::new()
        },
    };
    let note = match &r.comment {
        Some(c) => c.clone(),
        None => String::new(),
    };
    Highlight {
        id: string_of(&i64_chars(r.id)),
        parent_id: string_of(&i64_chars(r.parent_id)),
        content,
        note,
        note_saved_at: r.date_added.clone(),
    }
}

/// Groups the annotation rows by owning document, in source order, dropping
/// rows whose excerpt is empty or whitespace only while keeping rows whose
/// note is merely absent.
pub fn highlights_from_rows(rows: &Vec<HighlightRow>) -> (groups: Vec<(i64, Vec<Highlight>)>)
    requires
        sorted_rows(rows@),
    ensures
        groups_wf(groups@, rows@),
{
    let ghost rseq = rows@;
    let mut groups: Vec<(i64, Vec<Highlight>)> = Vec::new();
    let mut cur: Vec<Highlight> = Vec::new();
    let mut cur_pid: i64 = 0;
    let mut started: bool = false;
    let mut i: usize = 0;
    while i < rows.len()
        invariant
            i <= rseq.len(),
            rows@ == rseq,
            sorted_rows(rseq),
            !started ==> groups@.len() == 0 && cur@.len() == 0 && (forall|pid: i64|
                kept_rows(rseq.take(i as int), pid).len() == 0),
            started ==> exists|w: int| 0 <= w < i && rseq[w].parent_id == cur_pid,
            started ==> cur@.len() == kept_rows(rseq.take(i as int), cur_pid).len() && (forall|j: int|
                0 <= j < cur@.len() ==> hl_matches(
                    #[trigger] cur@[j],
                    kept_rows(rseq.take(i as int), cur_pid)[j],
                )),
            started ==> cur@.len() > 0,
            started ==> forall|k: int| 0 <= k < groups@.len() ==> (#[trigger] groups@[k]).0
                < cur_pid,
            forall|k1: int, k2: int| 0 <= k1 < k2 < groups@.len() ==> groups@[k1].0
                < groups@[k2].0,
            forall|k: int| 0 <= k < groups@.len() ==> group_matches(
                #[trigger] groups@[k],
                rseq.take(i as int),
            ) && kept_rows(rseq.take(i as int), groups@[k].0).len() > 0,
            forall|pid: i64|
                #![trigger kept_rows(rseq.take(i as int), pid)]
                kept_rows(rseq.take(i as int), pid).len() > 0 ==> (started && pid == cur_pid)
                    || exists|k: int| 0 <= k < groups@.len() && (#[trigger] groups@[k]).0 == pid,
        decreases rseq.len() - i,
    {
        let r = &rows[i];
        let keep = kept_exec(r);
        proof {
            lemma_kept_rows_step(rseq, i as int);
        }
        if keep {
            let h = to_highlight(r);
            if !started {
                started = true;
                cur_pid = r.parent_id;
                cur.push(h);
            } else if r.parent_id == cur_pid {
                cur.push(h);
            } else {
                proof {
                    let w = choose|w: int| 0 <= w < i && rseq[w].parent_id == cur_pid;
                    assert(row_le(rseq[w], rseq[i as int]));
                    assert(r.parent_id > cur_pid);
                }
                let ghost old_pid = cur_pid;
                let ghost old_groups = groups@;
                let done = (cur_pid, cur);
                groups.push(done);
                cur = Vec::new();
                cur_pid = r.parent_id;
                cur.push(h);
                proof {
                    let gl = old_groups.len() as int;
                    assert(groups@[gl].0 == old_pid);
                    assert(forall|k: int| 0 <= k < gl ==> groups@[k] == old_groups[k]);
                    assert(kept_rows(rseq.take(i + 1 as int), old_pid) == kept_rows(
                        rseq.take(i as int),
                        old_pid,
                    ));
                    assert(kept_rows(rseq.take(i as int), cur_pid).len() == 0);
                    assert forall|pid: i64|
                        #![trigger kept_rows(rseq.take(i + 1 as int), pid)]
                        kept_rows(rseq.take(i + 1 as int), pid).len() > 0 implies (pid == cur_pid)
                        || exists|k: int|
                        0 <= k < groups@.len() && (#[trigger] groups@[k]).0 == pid by {
                        if pid != cur_pid {
                            assert(kept_rows(rseq.take(i as int), pid).len() > 0);
                            if pid == old_pid {
                                assert(groups@[gl].0 == pid);
                            } else {
                                let k = choose|k: int|
                                    0 <= k < old_groups.len() && (#[trigger] old_groups[k]).0
                                        == pid;
                                assert(groups@[k].0 == pid);
                            }
                        }
                    }
                }
            }
        }
        i += 1;
    }
    proof {
        assert(rseq.take(i as int) =~= rseq);
    }
    if started {
        let ghost old_groups = groups@;
        let done = (cur_pid, cur);
        groups.push(done);
        proof {
            let gl = old_groups.len() as int;
            assert(groups@[gl].0 == cur_pid);
            assert(forall|k: int| 0 <= k < gl ==> groups@[k] == old_groups[k]);
            assert forall|pid: i64|
                #![trigger kept_rows(rseq, pid)]
                kept_rows(rseq, pid).len() > 0 implies exists|k: int|
                0 <= k < groups@.len() && (#[trigger] groups@[k]).0 == pid by {
                if pid == cur_pid {
                    assert(groups@[gl].0 == pid);
                } else {
                    let k = choose|k: int|
                        0 <= k < old_groups.len() && (#[trigger] old_groups[k]).0 == pid;
                    assert(groups@[k].0 == pid);
                }
            }
        }
    }
    groups
}

/// The kept rows of a document all belong to it, are kept, and occur in the
/// source rows.
pub proof fn lemma_kept_rows_elements(rows: Seq<HighlightRow>, pid: i64)
    ensures
        forall|j: int| 0 <= j < kept_rows(rows, pid).len() ==> (#[trigger] kept_rows(rows, pid)[j]).parent_id
            == pid && kept(kept_rows(rows, pid)[j]),
        forall|j: int| 0 <= j < kept_rows(rows, pid).len() ==> exists|n: int|
            0 <= n < rows.len() && rows[n] == (#[trigger] kept_rows(rows, pid)[j]),
    decreases rows.len(),
{
    if rows.len() > 0 {
        lemma_kept_rows_elements(rows.drop_last(), pid);
        assert forall|j: int| 0 <= j < kept_rows(rows, pid).len() implies exists|n: int|
            0 <= n < rows.len() && rows[n] == (#[trigger] kept_rows(rows, pid)[j]) by {
            let prev = kept_rows(rows.drop_last(), pid);
            if j < prev.len() {
                let n = choose|n: int| 0 <= n < rows.drop_last().len() && rows.drop_last()[n]
                    == prev[j];
                assert(rows[n] == kept_rows(rows, pid)[j]);
            } else {
                assert(rows[rows.len() - 1] == kept_rows(rows, pid)[j]);
            }
        }
    }
}

/// Order preservation: within one document the kept rows stay in the source
/// order, which the composite sort key gives, and are never re-sorted.
pub proof fn lemma_kept_rows_ordered(rows: Seq<HighlightRow>, pid: i64)
    requires
        sorted_rows(rows),
    ensures
        forall|i: int, j: int| 0 <= i < j < kept_rows(rows, pid).len() ==> row_le(
            #[trigger] kept_rows(rows, pid)[i],
            #[trigger] kept_rows(rows, pid)[j],
        ),
    decreases rows.len(),
{
    if rows.len() > 0 {
        assert(sorted_rows(rows.drop_last())) by {
            assert(forall|i: int, j: int| 0 <= i < j < rows.drop_last().len() ==> row_le(
                rows.drop_last()[i],
                rows.drop_last()[j],
            ));
        }
        lemma_kept_rows_ordered(rows.drop_last(), pid);
        lemma_kept_rows_elements(rows.drop_last(), pid);
        let ks = kept_rows(rows, pid);
        let prev = kept_rows(rows.drop_last(), pid);
        assert forall|i: int, j: int| 0 <= i < j < ks.len() implies row_le(ks[i], ks[j]) by {
            if j < prev.len() {
            } else if j == prev.len() && ks.len() > prev.len() {
                let n = choose|n: int| 0 <= n < rows.drop_last().len() && rows.drop_last()[n]
                    == prev[i];
                assert(row_le(rows[n], rows[rows.len() - 1]));
            }
        }
    }
}

} // verus!
