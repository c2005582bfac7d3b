use vstd::prelude::*;
use crate::chars::{chars_of, string_of, append_range};
use crate::dates::{Timestamp, ts_valid, compact_chars, format_compact};
use crate::model::Paper;

verus! {

/// What slug::slugify yields for a title: a function of the characters alone.
pub uninterp spec fn slug_of(s: Seq<char>) -> Seq<char>;

/// Relies on slug::slugify: a deterministic transliteration of the input into
/// lowercase ASCII letters, digits and hyphens.
#[verifier::external_body]
fn slugify(title: &str) -> (r: String)
    ensures
        r@ == slug_of(title@),
{
    slug::slugify(title)
}

/// What the MD5 digest of a string prints as in lowercase hex: a function of
/// the input characters alone.
pub uninterp spec fn md5_hex_of(s: Seq<char>) -> Seq<char>;

/// Relies on md5::compute and the crate's LowerHex on Digest: the 16-byte
/// digest of the input, printed as exactly 32 lowercase hex characters, two
/// per byte, and depending on the input alone.
#[verifier::external_body]
fn md5_hex(s: &str) -> (r: String)
    ensures
        r@ == md5_hex_of(s@),
        r@.len() == 32,
{
    format!("{:x}", md5::compute(s))
}

/// The slug of a title, truncated to at most 100 characters.
pub open spec fn truncated_slug(title: Seq<char>) -> Seq<char> {
    if slug_of(title).len() > 100 {
        slug_of(title).take(100)
    } else {
        slug_of(title)
    }
}

/// The hash part of a filename: present only for a non-empty disambiguating
/// URL, as a dash and the first eight hex characters of the URL's digest.
pub open spec fn hash_part(url: Option<Seq<char>>) -> Seq<char> {
    if url is Some && url->0.len() > 0 {
        seq!['-'] + md5_hex_of(url->0).take(8)
    } else {
        Seq::empty()
    }
}

/// The full path of a fresh note file.
pub open spec fn filename_chars(
    dir: Seq<char>,
    title: Seq<char>,
    url: Option<Seq<char>>,
    now: Timestamp,
) -> Seq<char> {
    dir + seq!['/'] + compact_chars(now) + seq!['-'] + truncated_slug(title) + hash_part(url)
        + ".org"@
}

/// Synthesizes the path of a fresh note file: the synthesis-time clock as a
/// sortable token, the slugged title truncated to 100 characters, and, only
/// when a non-empty disambiguating URL is supplied, a hash suffix.
pub fn get_new_entry_filename(org_roam_dir: &str, title: &str, url: Option<&str>, now: &Timestamp)
    -> (r: String)
    requires
        ts_valid(*now),
    ensures
        r@ == filename_chars(
            org_roam_dir@,
            title@,
            match url {
                Some(u) => Some(u@),
                None => None,
            },
            *now,
        ),
{
    let mut out = chars_of(org_roam_dir);
    out.push('/');
    let stamp = format_compact(now);
    let sv = chars_of(stamp.as_str());
    append_range(&mut out, &sv, 0, sv.len());
    out.push('-');
    let slug = slugify(title);
    let gv = chars_of(slug.as_str());
    let cut = if gv.len() > 100 {
        100
    } else {
        gv.len()
    };
    append_range(&mut out, &gv, 0, cut);
    proof {
        if gv@.len() <= 100 {
            assert(gv@.subrange(0, cut as int) =~= truncated_slug(title@));
        }
    }
    match url {
        Some(u) => {
            let uv = chars_of(u);
            if uv.len() > 0 {
                out.push('-');
                let hex = md5_hex(u);
                let hv = chars_of(hex.as_str());
                append_range(&mut out, &hv, 0, 8);
            }
        },
        None => {},
    }
    let ext = chars_of(".org");
    append_range(&mut out, &ext, 0, ext.len());
    proof {
        assert(ext@.subrange(0, ext@.len() as int) =~= ".org"@);
        assert(out@ =~= filename_chars(
            org_roam_dir@,
            title@,
            match url {
                Some(u) => Some(u@),
                None => None,
            },
            *now,
        ));
    }
    string_of(&out)
}

/// Whether some entry of `titles` holds exactly `t`.
pub open spec fn contains_string(ts: Seq<String>, t: Seq<char>) -> bool {
    exists|k: int| 0 <= k < ts.len() && (#[trigger] ts[k])@ == t
}

/// Whether `t` occurs among `titles`; mirrors `contains_string`.
pub fn contains_title(titles: &Vec<String>, t: &String) -> (r: bool)
    ensures
        r == contains_string(titles@, t@),
{
    let mut i: usize = 0;
    while i < titles.len()
        invariant
            i <= titles@.len(),
            forall|k: int| 0 <= k < i ==> (#[trigger] titles@[k])@ != t@,
        decreases titles@.len() - i,
    {
        if titles[i].eq(t) {
            return true;
        }
        i += 1;
    }
    false
}

/// The filename the reconciler asks for on the create path: the hash suffix
/// appears exactly when the document's title is among the duplicate titles
/// and the document carries a non-empty URL.
pub fn filename_for(
    org_roam_dir: &str,
    paper: &Paper,
    duplicate_titles: &Vec<String>,
    now: &Timestamp,
) -> (r: String)
    requires
        ts_valid(*now),
    ensures
        r@ == filename_chars(
            org_roam_dir@,
            paper.title@,
            if contains_string(duplicate_titles@, paper.title@) && paper.has_url {
                Some(paper.source_url@)
            } else {
                None
            },
            *now,
        ),
{
    let dup = contains_title(duplicate_titles, &paper.title);
    if dup && paper.has_url {
        get_new_entry_filename(org_roam_dir, paper.title.as_str(), Some(paper.source_url.as_str()), now)
    } else {
        get_new_entry_filename(org_roam_dir, paper.title.as_str(), None, now)
    }
}

} // verus!
