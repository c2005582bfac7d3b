use vstd::prelude::*;
use crate::chars::{chars_of, string_of, subvec, append_range, trim, trimmed_bounds, find_from,
    find_char, range_eq, lemma_find_from, lemma_find_from_props};

verus! {

/// The delimiter line between user-authored content and the generated section.
pub open spec fn marker() -> Seq<char> {
    "* zotero:highlights"@
}

pub open spec fn is_line_start(s: Seq<char>, i: int) -> bool {
    i == 0 || s[i - 1] == '\n'
}

/// Whether the line beginning at `i` is the delimiter, surrounding whitespace
/// aside.
pub open spec fn line_trims_to_marker(s: Seq<char>, i: int) -> bool {
    trim(s.subrange(i, find_from(s, '\n', i))) == marker()
}

/// The start of the first delimiter line at or after `i`, or one past the end
/// when there is none.
pub open spec fn find_marker_from(s: Seq<char>, i: int) -> int
    decreases s.len() - i,
{
    if i < 0 || i >= s.len() {
        s.len() as int + 1
    } else if is_line_start(s, i) && line_trims_to_marker(s, i) {
        i
    } else {
        find_marker_from(s, i + 1)
    }
}

/// Where the user-content prefix ends: just before the first delimiter line,
/// and at zero when the delimiter is absent or opens the file.
pub open spec fn user_prefix_end(s: Seq<char>) -> int {
    let m = find_marker_from(s, 0);
    if m > s.len() {
        0
    } else if m == 0 {
        0
    } else {
        m - 1
    }
}

/// What the section-preserving edit writes back: the user-content prefix,
/// one separating newline when either side is non-empty, then the new
/// generated content.
pub open spec fn spec_merged(s: Seq<char>, g: Seq<char>) -> Seq<char> {
    let pre = s.take(user_prefix_end(s));
    if pre.len() > 0 || g.len() > 0 {
        pre + seq!['\n'] + g
    } else {
        pre
    }
}

proof fn lemma_find_marker_found(s: Seq<char>, i: int, j: int)
    requires
        0 <= i <= j < s.len(),
        forall|k: int| i <= k < j ==> !(is_line_start(s, k) && line_trims_to_marker(s, k)),
        is_line_start(s, j),
        line_trims_to_marker(s, j),
    ensures
        find_marker_from(s, i) == j,
    decreases j - i,
{
    if i < j {
        lemma_find_marker_found(s, i + 1, j);
    }
}

proof fn lemma_find_marker_none(s: Seq<char>, i: int)
    requires
        0 <= i,
        forall|k: int| i <= k < s.len() ==> !(is_line_start(s, k) && line_trims_to_marker(s, k)),
    ensures
        find_marker_from(s, i) == s.len() as int + 1,
    decreases s.len() - i,
{
    if i < s.len() {
        lemma_find_marker_none(s, i + 1);
    }
}

proof fn lemma_find_marker_props(s: Seq<char>, i: int)
    requires
        0 <= i <= s.len(),
    ensures
        find_marker_from(s, i) == s.len() as int + 1 || (i <= find_marker_from(s, i) < s.len()
            && is_line_start(s, find_marker_from(s, i)) && line_trims_to_marker(
            s,
            find_marker_from(s, i),
        )),
        forall|k: int| i <= k < find_marker_from(s, i) && k < s.len() ==> !(is_line_start(s, k)
            && line_trims_to_marker(s, k)),
    decreases s.len() - i,
{
    if i < s.len() && !(is_line_start(s, i) && line_trims_to_marker(s, i)) {
        lemma_find_marker_props(s, i + 1);
    }
}

/// `find_from` looked at from a suffix: the search result translates by the
/// offset.
proof fn lemma_find_from_suffix(m: Seq<char>, g: Seq<char>, c: char, off: int)
    requires
        0 <= off <= m.len(),
        m.skip(off) == g,
    ensures
        find_from(m, c, off) == off + find_from(g, c, 0),
{
    let j = find_from(g, c, 0);
    lemma_find_from_props(g, c, 0);
    assert(forall|k: int| off <= k < off + j ==> m[k] == g[k - off]);
    if j < g.len() {
        assert(m[off + j] == g[j]);
        lemma_find_from(m, c, off, off + j);
    } else {
        lemma_find_from(m, c, off, m.len() as int);
    }
}

/// Two sequences that agree up to a shared `c` have the same first `c` at or
/// after `k`.
proof fn lemma_find_from_agree(s1: Seq<char>, s2: Seq<char>, c: char, k: int, p: int)
    requires
        0 <= k <= p < s1.len(),
        p < s2.len(),
        forall|t: int| k <= t <= p ==> s1[t] == s2[t],
        s1[p] == c,
    ensures
        find_from(s1, c, k) == find_from(s2, c, k),
        k <= find_from(s1, c, k) <= p,
{
    let j = find_from(s1, c, k);
    lemma_find_from_props(s1, c, k);
    assert(j <= p);
    assert(s2[j] == c);
    lemma_find_from(s2, c, k, j);
}

/// Rewrites a note's content: everything strictly before the first delimiter
/// line is kept word for word; everything at and after it is replaced by the
/// new generated content; a file without the delimiter is replaced whole.
pub fn merged_content(content: &str, generated: &str) -> (r: String)
    ensures
        r@ == spec_merged(content@, generated@),
{
    let v = chars_of(content);
    let mv = chars_of("* zotero:highlights");
    let mut i: usize = 0;
    let mut found: bool = false;
    let mut fin: bool = false;
    while !fin
        invariant
            i <= v@.len(),
            v@ == content@,
            mv@ == marker(),
            !fin ==> !found,
            !fin ==> is_line_start(v@, i as int),
            !fin ==> forall|k: int| 0 <= k < i ==> !(is_line_start(v@, k) && line_trims_to_marker(
                v@,
                k,
            )),
            fin && found ==> i < v@.len() && is_line_start(v@, i as int) && line_trims_to_marker(
                v@,
                i as int,
            ) && (forall|k: int| 0 <= k < i ==> !(is_line_start(v@, k) && line_trims_to_marker(
                v@,
                k,
            ))),
            fin && !found ==> forall|k: int| 0 <= k < v@.len() ==> !(is_line_start(v@, k)
                && line_trims_to_marker(v@, k)),
        decreases (v@.len() - i) + (if fin {
            0int
        } else {
            1int
        }),
    {
        if i == v.len() {
            fin = true;
        } else {
            let e = find_char(&v, '\n', i);
            proof {
                lemma_find_from_props(v@, '\n', i as int);
            }
            let (a, b) = trimmed_bounds(&v, i, e);
            if range_eq(&v, a, b, &mv) {
                proof {
                    assert(line_trims_to_marker(v@, i as int));
                }
                found = true;
                fin = true;
            } else if e == v.len() {
                proof {
                    assert(!line_trims_to_marker(v@, i as int));
                    assert forall|k: int|
                        0 <= k < v@.len() implies !(is_line_start(v@, k) && line_trims_to_marker(
                        v@,
                        k,
                    )) by {
                        if i < k {
                            assert(v@[k - 1] != '\n');
                        }
                    }
                }
                fin = true;
            } else {
                proof {
                    assert(!line_trims_to_marker(v@, i as int));
                    assert forall|k: int|
                        0 <= k < e + 1 implies !(is_line_start(v@, k) && line_trims_to_marker(
                        v@,
                        k,
                    )) by {
                        if i < k && k < e + 1 {
                            assert(v@[k - 1] != '\n');
                        }
                    }
                }
                i = e + 1;
            }
        }
    }
    let pe: usize = if found {
        if i == 0 {
            0
        } else {
            i - 1
        }
    } else {
        0
    };
    proof {
        if found {
            lemma_find_marker_found(v@, 0, i as int);
        } else {
            lemma_find_marker_none(v@, 0);
        }
        assert(user_prefix_end(v@) == pe as int);
    }
    let gv = chars_of(generated);
    let mut out = subvec(&v, 0, pe);
    if out.len() > 0 || gv.len() > 0 {
        out.push('\n');
        append_range(&mut out, &gv, 0, gv.len());
        proof {
            assert(out@ =~= spec_merged(content@, generated@));
        }
    } else {
        proof {
            assert(out@ =~= spec_merged(content@, generated@));
        }
    }
    string_of(&out)
}

/// Whether the first line of the generated content is the delimiter line, as
/// rendered sections open with it.
pub open spec fn first_line_is_marker(g: Seq<char>) -> bool {
    trim(g.take(find_from(g, '\n', 0))) == marker()
}

/// User-content preservation: an edit never changes the prefix strictly
/// before the first delimiter line.
pub proof fn lemma_user_prefix_preserved(s: Seq<char>, g: Seq<char>)
    ensures
        spec_merged(s, g).take(user_prefix_end(s)) == s.take(user_prefix_end(s)),
{
    let pe = user_prefix_end(s);
    lemma_find_marker_props(s, 0);
    assert(0 <= pe <= s.len());
    assert(spec_merged(s, g).take(pe) =~= s.take(pe));
}

/// Idempotence of the edit: writing the same generated content twice leaves
/// the file as after the first write, whenever that content opens with the
/// delimiter line.
pub proof fn lemma_editor_idempotent(s: Seq<char>, g: Seq<char>)
    requires
        first_line_is_marker(g),
    ensures
        spec_merged(spec_merged(s, g), g) == spec_merged(s, g),
{
    reveal_strlit("* zotero:highlights");
    assert(marker().len() == 19);
    if g.len() == 0 {
        assert(trim(g.take(find_from(g, '\n', 0))) =~= Seq::<char>::empty());
        assert(false);
    }
    let m0 = find_marker_from(s, 0);
    lemma_find_marker_props(s, 0);
    let pe = user_prefix_end(s);
    let pre = s.take(pe);
    let m = spec_merged(s, g);
    assert(m == pre + seq!['\n'] + g);
    assert(m.len() == pe + 1 + g.len());
    assert(m[pe] == '\n');
    assert(m.skip(pe + 1) =~= g);
    lemma_find_from_suffix(m, g, '\n', pe + 1);
    let eg = find_from(g, '\n', 0);
    lemma_find_from_props(g, '\n', 0);
    assert(m.subrange(pe + 1, pe + 1 + eg) =~= g.take(eg));
    assert(line_trims_to_marker(m, pe + 1));
    assert(is_line_start(m, pe + 1));
    assert forall|k: int| 0 <= k < pe + 1 implies !(is_line_start(m, k) && line_trims_to_marker(
        m,
        k,
    )) by {
        if pe == 0 {
            if k == 0 {
                assert(find_from(m, '\n', 0) == 0) by {
                    lemma_find_from(m, '\n', 0, 0);
                }
                assert(m.subrange(0, 0) =~= Seq::<char>::empty());
                assert(trim(Seq::<char>::empty()) =~= Seq::<char>::empty());
            }
        } else {
            assert(m0 <= s.len() && m0 > 0);
            assert(pe == m0 - 1);
            assert(is_line_start(s, m0));
            assert(s[pe] == '\n');
            assert(forall|t: int| 0 <= t < pe ==> m[t] == s[t]);
            assert(m[pe] == s[pe]);
            assert(is_line_start(m, k) == is_line_start(s, k));
            if is_line_start(m, k) {
                lemma_find_from_agree(s, m, '\n', k, pe);
                let ek = find_from(s, '\n', k);
                assert(k <= ek <= pe);
                assert(m.subrange(k, ek) =~= s.subrange(k, ek));
                assert(!(is_line_start(s, k) && line_trims_to_marker(s, k)));
            }
        }
    }
    lemma_find_marker_found(m, 0, pe + 1);
    assert(find_marker_from(m, 0) == pe + 1);
    assert(user_prefix_end(m) == pe);
    assert(m.take(pe) =~= pre);
    assert(spec_merged(m, g) == pre + seq!['\n'] + g);
}

} // verus!
