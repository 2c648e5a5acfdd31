//! ACL Anthology: the PDF of a landing page `https://aclanthology.org/2026.acl-long.1248/`
//! is the same URL plus `.pdf`.
use vstd::prelude::*;
use crate::venues::{on_host, on_host_exec};
use crate::text::{
    all_digits, all_digits_exec, chars_of, contains, contains_str, ends_with, has_suffix_str,
    lemma_split_acc_nonempty, lit, lower, opt_string, push_all, split, split_exec, to_lower, trim,
    trim_end_char, trim_end_char_exec, trim_exec,
};

verus! {

/// A landing-page slug `YYYY.venue-type.number`.
pub open spec fn acl_slug_ok(slug: Seq<char>) -> bool {
    let parts = split(slug, '.');
    &&& parts.len() == 3
    &&& parts[0].len() == 4 && all_digits(parts[0])
    &&& contains(parts[1], "-"@)
    &&& parts[2].len() > 0 && all_digits(parts[2])
}

/// The ACL Anthology PDF URL for `u`, if `u` is an ACL Anthology paper page.
pub open spec fn acl_pdf(u: Seq<char>) -> Option<Seq<char>> {
    let low = lower(u);
    if !on_host(low, "aclanthology.org"@) || !contains(low, "aclanthology.org/"@) {
        None
    } else if ends_with(low, ".pdf"@) {
        Some(trim(u))
    } else {
        let trimmed = trim_end_char(u, '/');
        let pieces = split(trimmed, '/');
        let slug = pieces[pieces.len() - 1];
        if acl_slug_ok(slug) {
            Some(trimmed + ".pdf"@)
        } else {
            None
        }
    }
}

/// Derive the canonical ACL Anthology PDF URL from a paper landing page.
///
/// Landing URLs look like `https://aclanthology.org/2026.acl-long.1248/` with
/// an `YYYY.venue-type.number` slug; the PDF is the same URL plus `.pdf`.
pub fn pdf_url(url: &str) -> (r: Option<String>)
    ensures
        r.deep_view() == acl_pdf(url@),
{
    let u = chars_of(url);
    let low = to_lower(u.as_slice());
    if !on_host_exec(low.as_slice(), "aclanthology.org") || !contains_str(low.as_slice(), "aclanthology.org/") {
        return None;
    }
    if has_suffix_str(low.as_slice(), ".pdf") {
        return opt_string(Some(trim_exec(u.as_slice())));
    }
    let trimmed = trim_end_char_exec(u.as_slice(), '/');
    let pieces = split_exec(trimmed.as_slice(), '/');
    proof {
        lemma_split_acc_nonempty(trimmed@, '/', 0, 0);
    }
    let slug = &pieces[pieces.len() - 1];
    let parts = split_exec(slug.as_slice(), '.');
    if parts.len() != 3 {
        return None;
    }
    let p0 = &parts[0];
    if p0.len() != 4 || !all_digits_exec(p0.as_slice()) {
        return None;
    }
    if !contains_str(parts[1].as_slice(), "-") {
        return None;
    }
    if parts[2].len() == 0 || !all_digits_exec(parts[2].as_slice()) {
        return None;
    }
    let mut out = trimmed;
    push_all(&mut out, lit(".pdf").as_slice());
    opt_string(Some(out))
}

} // verus!
