use vstd::prelude::*;
use crate::chars::{chars_of, string_of, subvec, trim, trimmed_bounds, find_from, find_char,
    range_eq, lemma_find_from_props};

verus! {

/// The fixed token that opens a reference-tag line inside a note.
pub open spec fn ref_prefix() -> Seq<char> {
    ":ROAM_REFS:"@
}

/// The tag/path pair a single scanner-output line contributes: the part
/// before the first colon is the file path, and the rest must open with the
/// reference-tag token followed by a non-empty tag.
pub open spec fn line_pair(line: Seq<char>) -> Seq<(Seq<char>, Seq<char>)> {
    let p = find_from(line, ':', 0);
    if p >= line.len() {
        Seq::empty()
    } else {
        let rest = line.skip(p + 1);
        if rest.len() >= 11 && rest.take(11) == ref_prefix() {
            let tag = trim(rest.skip(11));
            if tag.len() > 0 {
                seq![(tag, line.take(p))]
            } else {
                Seq::empty()
            }
        } else {
            Seq::empty()
        }
    }
}

/// The tag/path pairs of a whole scanner output, line by line, in order.
pub open spec fn ref_pairs(s: Seq<char>) -> Seq<(Seq<char>, Seq<char>)>
    decreases s.len(),
    via ref_pairs_decreases
{
    if s.len() == 0 {
        Seq::empty()
    } else {
        let e = find_from(s, '\n', 0);
        if e >= s.len() {
            line_pair(s)
        } else {
            line_pair(s.take(e)) + ref_pairs(s.skip(e + 1))
        }
    }
}

#[via_fn]
proof fn ref_pairs_decreases(s: Seq<char>) {
    if s.len() > 0 {
        lemma_find_from_props(s, '\n', 0);
    }
}

/// Parses the tag scanner's output: one `path:line` entry per line, keeping
/// each line whose content after the path opens with the reference-tag token
/// and carries a non-empty tag. Pairs come out in line order, tag first.
pub fn parse_existing_refs(output: &str) -> (r: Vec<(String, String)>)
    ensures
        r@.len() == ref_pairs(output@).len(),
        forall|k: int| 0 <= k < r@.len() ==> (#[trigger] r@[k]).0@ == ref_pairs(output@)[k].0
            && r@[k].1@ == ref_pairs(output@)[k].1,
{
    let v = chars_of(output);
    let pv = chars_of(":ROAM_REFS:");
    let mut r: Vec<(String, String)> = Vec::new();
    let mut ls: usize = 0;
    let ghost total = ref_pairs(v@);
    proof {
        assert(v@.skip(0) =~= v@);
    }
    while ls < v.len()
        invariant
            ls <= v@.len(),
            v@ == output@,
            pv@ == ref_prefix(),
            total == ref_pairs(v@),
            ref_pairs(v@) == pairs_of(r@) + ref_pairs(v@.skip(ls as int)),
            ls > 0 ==> (ls == v@.len() || v@[ls as int - 1] == '\n'),
        decreases v@.len() - ls,
    {
        let e = find_char(&v, '\n', ls);
        proof {
            lemma_find_from_props(v@, '\n', ls as int);
        }
        let line = subvec(&v, ls, e);
        proof {
            lemma_find_from_suffix_refs(v@, ls as int);
            assert(v@.skip(ls as int).take(e - ls) =~= line@);
            if e < v@.len() {
                assert(v@.skip(ls as int).skip(e - ls + 1) =~= v@.skip(e as int + 1));
            } else {
                assert(v@.skip(ls as int) =~= line@);
            }
        }
        let p = find_char(&line, ':', 0);
        proof {
            lemma_find_from_props(line@, ':', 0);
        }
        if p < line.len() && line.len() - p - 1 >= 11 {
            proof {
                assert(line@.skip(p as int + 1).take(11) =~= line@.subrange(
                    p as int + 1,
                    p as int + 12,
                ));
            }
            if range_eq(&line, p + 1, p + 12, &pv) {
                let (a, b) = trimmed_bounds(&line, p + 12, line.len());
                proof {
                    assert(line@.skip(p as int + 1).skip(11) =~= line@.subrange(
                        p as int + 12,
                        line@.len() as int,
                    ));
                }
                if b > a {
                    let tag = string_of(&subvec(&line, a, b));
                    let path = string_of(&subvec(&line, 0, p));
                    proof {
                        assert(line@.take(p as int) =~= line@.subrange(0, p as int));
                    }
                    r.push((tag, path));
                    proof {
                        assert(pairs_of(r@) =~= pairs_of(r@.drop_last()) + line_pair(line@));
                    }
                }
            }
        }
        if e == v.len() {
            ls = v.len();
            proof {
                assert(v@.skip(ls as int) =~= Seq::<char>::empty());
            }
        } else {
            ls = e + 1;
        }
    }
    proof {
        assert(v@.skip(ls as int) =~= Seq::<char>::empty());
        assert(pairs_of(r@) + ref_pairs(Seq::<char>::empty()) =~= pairs_of(r@));
    }
    r
}

/// The views of a pair vector's entries.
pub open spec fn pairs_of(rs: Seq<(String, String)>) -> Seq<(Seq<char>, Seq<char>)> {
    rs.map_values(|p: (String, String)| (p.0@, p.1@))
}

/// The first line of the remaining text is the corresponding subrange of the
/// whole.
proof fn lemma_find_from_suffix_refs(s: Seq<char>, off: int)
    requires
        0 <= off <= s.len(),
    ensures
        find_from(s.skip(off), '\n', 0) == find_from(s, '\n', off) - off,
{
    let g = s.skip(off);
    let j = find_from(g, '\n', 0);
    lemma_find_from_props(g, '\n', 0);
    assert(forall|k: int| off <= k < off + j ==> s[k] == g[k - off]);
    if j < g.len() {
        assert(s[off + j] == g[j]);
        crate::chars::lemma_find_from(s, '\n', off, off + j);
    } else {
        crate::chars::lemma_find_from(s, '\n', off, s.len() as int);
    }
}

/// What looking a tag up in the scanned pairs yields: the path of the last
/// pair carrying the tag, since a later file with the same tag wins.
pub open spec fn lookup_spec(pairs: Seq<(Seq<char>, Seq<char>)>, tag: Seq<char>) -> Option<
    Seq<char>,
>
    decreases pairs.len(),
{
    if pairs.len() == 0 {
        None
    } else if pairs.last().0 == tag {
        Some(pairs.last().1)
    } else {
        lookup_spec(pairs.drop_last(), tag)
    }
}

/// Looks a reference tag up in the scanned mapping, last entry winning.
pub fn lookup_ref(refs: &Vec<(String, String)>, tag: &String) -> (r: Option<String>)
    ensures
        (r is Some ==> lookup_spec(pairs_of(refs@), tag@) is Some && r->0@ == lookup_spec(
            pairs_of(refs@),
            tag@,
        )->0),
        (r is None ==> lookup_spec(pairs_of(refs@), tag@) is None),
{
    let mut i: usize = refs.len();
    proof {
        assert(refs@.take(refs@.len() as int) =~= refs@);
    }
    while i > 0
        invariant
            i <= refs@.len(),
            lookup_spec(pairs_of(refs@), tag@) == lookup_spec(
                pairs_of(refs@.take(i as int)),
                tag@,
            ),
        decreases i,
    {
        let entry = &refs[i - 1];
        if entry.0.eq(tag) {
            proof {
                assert(pairs_of(refs@.take(i as int)).last().0 == tag@);
                assert(pairs_of(refs@.take(i as int)).last().1 == entry.1@);
            }
            return Some(entry.1.clone());
        }
        proof {
            assert(pairs_of(refs@.take(i as int)).drop_last() =~= pairs_of(
                refs@.take(i as int - 1),
            ));
            assert(pairs_of(refs@.take(i as int)).last().0 != tag@);
        }
        i -= 1;
    }
    proof {
        assert(pairs_of(refs@.take(0)) =~= Seq::<(Seq<char>, Seq<char>)>::empty());
    }
    None
}

} // verus!
