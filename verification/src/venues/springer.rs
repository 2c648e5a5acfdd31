//! Springer Link (MICCAI / LNCS proceedings and journals): the PDF URL is fixed
//! by the DOI carried in the page URL.
use vstd::prelude::*;
use crate::venues::{host_end, on_host, on_host_exec, url_host};
use crate::text::{
    chars_of, contains, contains_str, ends_with, find, find_str, has_prefix_str, has_suffix_str,
    is_ws, lemma_find_from_sound, lemma_trim_fixed, lit, lower, lower_char, match_at, opt_string,
    push_all, slice_of, starts_with, to_lower, trail_char, trim, trim_end_char, trim_end_char_exec,
    trim_exec,
};

verus! {

/// The DOI after `prefix` in `t`, when the first `prefix` is followed by `10.`.
pub open spec fn doi_after(t: Seq<char>, prefix: Seq<char>) -> Option<Seq<char>> {
    match find(t, prefix) {
        Some(idx) => {
            let rest = t.skip(idx + prefix.len());
            if starts_with(rest, "10."@) {
                Some(rest)
            } else {
                None
            }
        },
        None => None,
    }
}

/// The Springer Link PDF URL for `u`, if `u` is a chapter or article page.
pub open spec fn springer_pdf(u: Seq<char>) -> Option<Seq<char>> {
    let low = lower(u);
    if !on_host(low, "link.springer.com"@) || !contains(low, "link.springer.com/"@) {
        None
    } else if ends_with(low, ".pdf"@) {
        Some(trim(u))
    } else {
        let t = trim_end_char(trim(u), '/');
        let doi = match doi_after(t, "/chapter/"@) {
            Some(d) => Some(d),
            None => doi_after(t, "/article/"@),
        };
        match doi {
            Some(d) => Some("https://link.springer.com/content/pdf/"@ + d + ".pdf"@),
            None => None,
        }
    }
}

/// Law: a Springer Link page (not itself a `.pdf`) whose trimmed URL, less
/// trailing slashes, has after its first `/chapter/` (or, with no chapter
/// DOI there, after its first `/article/`) a DOI `d` starting with `10.`,
/// whatever its registrant, gives
/// `https://link.springer.com/content/pdf/<d>.pdf`.
pub proof fn lemma_springer_doi(u: Seq<char>)
    requires
        on_host(lower(u), "link.springer.com"@),
        contains(lower(u), "link.springer.com/"@),
        !ends_with(lower(u), ".pdf"@),
    ensures
        ({
            let t = trim_end_char(trim(u), '/');
            match find(t, "/chapter/"@) {
                Some(i) if starts_with(t.skip(i + 9), "10."@) => springer_pdf(u) == Some(
                    "https://link.springer.com/content/pdf/"@ + t.skip(i + 9) + ".pdf"@,
                ),
                _ => match find(t, "/article/"@) {
                    Some(i) if starts_with(t.skip(i + 9), "10."@) => springer_pdf(u) == Some(
                        "https://link.springer.com/content/pdf/"@ + t.skip(i + 9) + ".pdf"@,
                    ),
                    _ => springer_pdf(u) is None,
                },
            }
        }),
{
    reveal_strlit("/chapter/");
    reveal_strlit("/article/");
}

/// A match at `j` with none before it is what `find` returns.
proof fn lemma_find_is(s: Seq<char>, p: Seq<char>, j: int)
    requires
        match_at(s, p, j),
        forall|k: int| 0 <= k < j ==> !match_at(s, p, k),
    ensures
        find(s, p) == Some(j),
{
    lemma_find_from_sound(s, p, 0);
}

/// `host_end` stops at the first separator after a separator-free stretch.
proof fn lemma_host_end_at(s: Seq<char>, i: int, e: int)
    requires
        0 <= i <= e < s.len(),
        forall|k: int| i <= k < e ==> !(s[k] == '/' || s[k] == '?' || s[k] == '#' || s[k] == ':'),
        s[e] == '/',
    ensures
        host_end(s, i) == e,
    decreases e - i,
{
    if i < e {
        lemma_host_end_at(s, i + 1, e);
    }
}

/// The article page the DOI `d` has on Springer Link.
pub open spec fn springer_article_page(d: Seq<char>) -> Seq<char> {
    "https://link.springer.com/article/"@ + d
}

/// Law: the article page of any DOI `d` starting with `10.` (whatever its
/// registrant) gives `https://link.springer.com/content/pdf/<d>.pdf`, for a
/// DOI as it stands in a URL: it does not end in whitespace, `/` or `.pdf`
/// and holds no `/chapter/`.
pub proof fn lemma_springer_article_pdf(d: Seq<char>)
    requires
        starts_with(d, "10."@),
        !is_ws(d.last()),
        d.last() != '/',
        !ends_with(lower(d), ".pdf"@),
        !contains(d, "/chapter/"@),
    ensures
        springer_pdf(springer_article_page(d)) == Some(
            "https://link.springer.com/content/pdf/"@ + d + ".pdf"@,
        ),
{
    reveal_strlit("https://link.springer.com/article/");
    reveal_strlit("10.");
    reveal_strlit("://");
    reveal_strlit("link.springer.com");
    reveal_strlit("link.springer.com/");
    reveal_strlit(".pdf");
    reveal_strlit("/chapter/");
    reveal_strlit("/article/");
    let pre = "https://link.springer.com/article/"@;
    let u = pre + d;
    let n = pre.len() as int;
    assert(n == 34);
    assert(d[0] == '1' && d[1] == '0' && d[2] == '.') by {
        assert(d.take(3) =~= "10."@);
        assert(d.take(3)[0] == d[0] && d.take(3)[1] == d[1] && d.take(3)[2] == d[2]);
    }
    let low = lower(u);
    assert(lower(pre) =~= pre);
    assert(low =~= pre + lower(d));
    // Trimming and trailing slashes leave the page as it is.
    lemma_trim_fixed(u);
    assert(trail_char(u, '/', u.len() as int) == u.len());
    assert(trim_end_char(u, '/') =~= u);
    // The host.
    assert(!is_ws(low[0]));
    assert(low.last() == lower_char(d.last()));
    assert(!is_ws(low.last()));
    lemma_trim_fixed(low);
    assert forall|k: int| 0 <= k < 5 implies !match_at(low, "://"@, k) by {
        assert(low.subrange(k, k + 3)[0] == low[k]);
    }
    assert(low.subrange(5, 8) =~= "://"@);
    lemma_find_is(low, "://"@, 5);
    let rest = low.skip(8);
    lemma_host_end_at(rest, 0, 17);
    assert(rest.take(17) =~= "link.springer.com"@);
    assert(trim(low) == low);
    assert(url_host(low) == "link.springer.com"@);
    let h = "link.springer.com"@;
    assert(h.skip(0) =~= h);
    assert(ends_with(h, h));
    assert(on_host(low, "link.springer.com"@));
    assert(low.subrange(8, 26) =~= "link.springer.com/"@);
    assert(match_at(low, "link.springer.com/"@, 8));
    lemma_find_from_sound(low, "link.springer.com/"@, 0);
    // Not a `.pdf` link.
    if d.len() >= 4 {
        assert(low.skip(low.len() - 4) =~= lower(d).skip(lower(d).len() - 4));
    } else {
        assert(low.skip(low.len() - 4)[3] == '.');
        assert(".pdf"@[3] == 'f');
    }
    // No `/chapter/` anywhere.
    lemma_find_from_sound(u, "/chapter/"@, 0);
    lemma_find_from_sound(d, "/chapter/"@, 0);
    if find(u, "/chapter/"@) is Some {
        let j = find(u, "/chapter/"@)->0;
        assert(u.subrange(j, j + 9)[0] == u[j] && u.subrange(j, j + 9)[1] == u[j + 1]);
        if j >= n {
            assert(d.subrange(j - n, j - n + 9) =~= u.subrange(j, j + 9));
            assert(match_at(d, "/chapter/"@, j - n));
        } else {
            assert(u[j] == '/' && u[j + 1] == 'c');
            assert(j + 1 < n || u[j + 1] == d[0]);
        }
    }
    // The first `/article/` is the page's own.
    assert forall|k: int| 0 <= k < 25 implies !match_at(u, "/article/"@, k) by {
        assert(u.subrange(k, k + 9)[0] == u[k] && u.subrange(k, k + 9)[1] == u[k + 1]);
    }
    assert(u.subrange(25, 34) =~= "/article/"@);
    lemma_find_is(u, "/article/"@, 25);
    assert(u.skip(34) =~= d);
    assert(contains(low, "link.springer.com/"@));
    assert(!ends_with(low, ".pdf"@));
    let t = trim_end_char(trim(u), '/');
    assert(t == u);
    assert(find(t, "/chapter/"@) is None);
    assert(doi_after(t, "/chapter/"@) is None);
    assert(doi_after(t, "/article/"@) == Some(d));
}

fn doi_after_exec(t: &[char], prefix: &str) -> (r: Option<Vec<char>>)
    ensures
        match r {
            Some(d) => doi_after(t@, prefix@) == Some(d@),
            None => doi_after(t@, prefix@) is None,
        },
{
    match find_str(t, prefix) {
        Some(idx) => {
            let pv = lit(prefix);
            let n = t.len();
            assert(idx + pv@.len() <= n);
            let rest = slice_of(t, idx + pv.len(), t.len());
            assert(rest@ =~= t@.skip(idx + prefix@.len()));
            if has_prefix_str(rest.as_slice(), "10.") {
                Some(rest)
            } else {
                None
            }
        },
        None => None,
    }
}

/// Derive the canonical Springer Link PDF URL from a chapter/article page.
pub fn pdf_url(url: &str) -> (r: Option<String>)
    ensures
        r.deep_view() == springer_pdf(url@),
{
    let u = chars_of(url);
    let low = to_lower(u.as_slice());
    if !on_host_exec(low.as_slice(), "link.springer.com") || !contains_str(low.as_slice(), "link.springer.com/") {
        return None;
    }
    if has_suffix_str(low.as_slice(), ".pdf") {
        return opt_string(Some(trim_exec(u.as_slice())));
    }
    let tu = trim_exec(u.as_slice());
    let t = trim_end_char_exec(tu.as_slice(), '/');
    let doi = match doi_after_exec(t.as_slice(), "/chapter/") {
        Some(d) => d,
        None => match doi_after_exec(t.as_slice(), "/article/") {
            Some(d) => d,
            None => return None,
        },
    };
    let mut out = lit("https://link.springer.com/content/pdf/");
    push_all(&mut out, doi.as_slice());
    push_all(&mut out, lit(".pdf").as_slice());
    opt_string(Some(out))
}

} // verus!
