use vstd::prelude::*;
use crate::model::Paper;
use crate::refs::{lookup_spec, lookup_ref, pairs_of};
use crate::filename::contains_string;

verus! {

/// How often a title occurs among the documents of the batch.
pub open spec fn count_title(papers: Seq<Paper>, t: Seq<char>) -> int
    decreases papers.len(),
{
    if papers.len() == 0 {
        0
    } else {
        count_title(papers.drop_last(), t) + (if papers.last().title@ == t {
            1int
        } else {
            0int
        })
    }
}

proof fn lemma_count_title_bounds(papers: Seq<Paper>, t: Seq<char>)
    ensures
        0 <= count_title(papers, t) <= papers.len(),
    decreases papers.len(),
{
    if papers.len() > 0 {
        lemma_count_title_bounds(papers.drop_last(), t);
    }
}

proof fn lemma_count_title_step(papers: Seq<Paper>, i: int, t: Seq<char>)
    requires
        0 <= i < papers.len(),
    ensures
        count_title(papers.take(i + 1), t) == count_title(papers.take(i), t) + (if papers[i].title@
            == t {
            1int
        } else {
            0int
        }),
{
    assert(papers.take(i + 1).drop_last() =~= papers.take(i));
    assert(papers.take(i + 1).last() == papers[i]);
}

/// How often `t` occurs among the first `hi` papers; mirrors `count_title`.
fn count_title_upto(papers: &Vec<Paper>, t: &String, hi: usize) -> (c: usize)
    requires
        hi <= papers@.len(),
    ensures
        c == count_title(papers@.take(hi as int), t@),
{
    let mut c: usize = 0;
    let mut i: usize = 0;
    proof {
        assert(papers@.take(0) =~= Seq::<Paper>::empty());
    }
    while i < hi
        invariant
            i <= hi <= papers@.len(),
            c == count_title(papers@.take(i as int), t@),
            c <= i,
        decreases hi - i,
    {
        proof {
            lemma_count_title_step(papers@, i as int, t@);
            lemma_count_title_bounds(papers@.take(i as int), t@);
        }
        if papers[i].title.eq(t) {
            c += 1;
        }
        i += 1;
    }
    c
}

/// The titles that occur at least twice in the batch, each once, in order of
/// first appearance.
pub fn get_duplicate_titles(papers: &Vec<Paper>) -> (r: Vec<String>)
    ensures
        forall|t: Seq<char>|
            #![trigger contains_string(r@, t)]
            contains_string(r@, t) <==> count_title(papers@, t) >= 2,
        forall|k1: int, k2: int| 0 <= k1 < k2 < r@.len() ==> r@[k1]@ != r@[k2]@,
{
    let ghost pseq = papers@;
    let mut r: Vec<String> = Vec::new();
    let mut i: usize = 0;
    proof {
        assert(pseq.take(0) =~= Seq::<Paper>::empty());
    }
    while i < papers.len()
        invariant
            i <= pseq.len(),
            papers@ == pseq,
            forall|t: Seq<char>|
                #![trigger contains_string(r@, t)]
                contains_string(r@, t) <==> (count_title(pseq, t) >= 2 && count_title(
                    pseq.take(i as int),
                    t,
                ) >= 1),
            forall|k1: int, k2: int| 0 <= k1 < k2 < r@.len() ==> r@[k1]@ != r@[k2]@,
        decreases pseq.len() - i,
    {
        let seen = count_title_upto(papers, &papers[i].title, i);
        let total = count_title_upto(papers, &papers[i].title, papers.len());
        proof {
            assert(pseq.take(pseq.len() as int) =~= pseq);
            lemma_count_title_step(pseq, i as int, papers@[i as int].title@);
        }
        if seen == 0 && total >= 2 {
            let ghost old_r = r@;
            r.push(papers[i].title.clone());
            proof {
                assert(r@.drop_last() =~= old_r);
                assert forall|t: Seq<char>|
                    #![trigger contains_string(r@, t)]
                    contains_string(r@, t) <==> (count_title(pseq, t) >= 2 && count_title(
                        pseq.take(i as int + 1),
                        t,
                    ) >= 1) by {
                    lemma_count_title_step(pseq, i as int, t);
                    let gl = old_r.len() as int;
                    assert(r@[gl]@ == pseq[i as int].title@);
                    assert(forall|k: int| 0 <= k < gl ==> r@[k] == old_r[k]);
                    if contains_string(r@, t) {
                        let k = choose|k: int| 0 <= k < r@.len() && (#[trigger] r@[k])@ == t;
                        if k < gl {
                            assert(old_r[k]@ == t);
                            assert(contains_string(old_r, t));
                        } else {
                            assert(t == pseq[i as int].title@);
                        }
                    }
                    if count_title(pseq, t) >= 2 && count_title(pseq.take(i as int + 1), t)
                        >= 1 {
                        if t == pseq[i as int].title@ {
                            assert(contains_string(r@, t));
                        } else {
                            assert(count_title(pseq.take(i as int), t) >= 1);
                            assert(contains_string(old_r, t));
                            let k = choose|k: int|
                                0 <= k < old_r.len() && (#[trigger] old_r[k])@ == t;
                            assert(r@[k]@ == t);
                            assert(contains_string(r@, t));
                        }
                    }
                }
                assert forall|k1: int, k2: int|
                    0 <= k1 < k2 < r@.len() implies r@[k1]@ != r@[k2]@ by {
                    if k2 == r@.len() - 1 {
                        assert(r@[k1]@ != pseq[i as int].title@) by {
                            if r@[k1]@ == pseq[i as int].title@ {
                                assert(contains_string(old_r, pseq[i as int].title@));
                            }
                        }
                    }
                }
            }
        } else {
            proof {
                assert forall|t: Seq<char>|
                    #![trigger contains_string(r@, t)]
                    contains_string(r@, t) <==> (count_title(pseq, t) >= 2 && count_title(
                        pseq.take(i as int + 1),
                        t,
                    ) >= 1) by {
                    lemma_count_title_step(pseq, i as int, t);
                    lemma_count_title_bounds(pseq.take(i as int), t);
                    if t == pseq[i as int].title@ && count_title(pseq, t) >= 2 {
                        if seen == 0 {
                        } else {
                            assert(count_title(pseq.take(i as int), t) >= 1);
                        }
                    }
                }
            }
        }
        i += 1;
    }
    proof {
        assert(pseq.take(i as int) =~= pseq);
        assert forall|t: Seq<char>|
            #![trigger contains_string(r@, t)]
            contains_string(r@, t) <==> count_title(pseq, t) >= 2 by {
            if count_title(pseq, t) >= 2 {
                lemma_count_title_bounds(pseq, t);
            }
        }
    }
    r
}

/// What the reconciler does with one document.
#[derive(Debug, Clone)]
pub enum Decision {
    /// An existing note carries the document's reference tag: edit that file.
    Edit(String),
    /// No note carries the tag: create a fresh file.
    Create,
}

/// Decides the path for one document: edit the mapped file when the
/// reference tag is already in the scanned mapping, else create.
pub fn decide(refs: &Vec<(String, String)>, paper: &Paper) -> (d: Decision)
    ensures
        lookup_spec(pairs_of(refs@), paper.roam_ref@) is Some ==> (d matches Decision::Edit(p)
            && p@ == lookup_spec(pairs_of(refs@), paper.roam_ref@)->0),
        lookup_spec(pairs_of(refs@), paper.roam_ref@) is None ==> d is Create,
{
    match lookup_ref(refs, &paper.roam_ref) {
        Some(path) => Decision::Edit(path),
        None => Decision::Create,
    }
}

} // verus!
