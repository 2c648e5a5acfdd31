//! CVF Open Access (CVPR / ICCV / WACV): swap the `html` path segment for
//! `papers` and `.html` for `.pdf`.
use vstd::prelude::*;
use crate::venues::{on_host, on_host_exec};
use crate::text::{
    chars_of, contains, contains_str, ends_with, has_suffix_str, lit, lower, opt_string, push_all,
    replace, replace_str, slice_of, to_lower, trim, trim_end_char, trim_end_char_exec, trim_exec,
};

verus! {

/// The CVF Open Access PDF URL for `u`, if `u` is a CVF abstract page.
pub open spec fn cvf_pdf(u: Seq<char>) -> Option<Seq<char>> {
    let low = lower(u);
    if !on_host(low, "openaccess.thecvf.com"@) || !contains(low, "openaccess.thecvf.com/"@) {
        None
    } else if ends_with(low, ".pdf"@) {
        Some(trim(u))
    } else {
        let t = trim_end_char(trim(u), '/');
        if !contains(t, "/content/"@) || !contains(t, "/html/"@) {
            None
        } else if !ends_with(t, ".html"@) {
            None
        } else {
            let stem = t.take(t.len() - 5);
            if !ends_with(stem, "_paper"@) {
                None
            } else {
                Some(replace(stem, "/html/"@, "/papers/"@) + ".pdf"@)
            }
        }
    }
}

/// Derive the canonical CVF Open Access PDF URL from an abstract page.
pub fn pdf_url(url: &str) -> (r: Option<String>)
    ensures
        r.deep_view() == cvf_pdf(url@),
{
    let u = chars_of(url);
    let low = to_lower(u.as_slice());
    if !on_host_exec(low.as_slice(), "openaccess.thecvf.com") || !contains_str(low.as_slice(), "openaccess.thecvf.com/") {
        return None;
    }
    if has_suffix_str(low.as_slice(), ".pdf") {
        return opt_string(Some(trim_exec(u.as_slice())));
    }
    let tu = trim_exec(u.as_slice());
    let t = trim_end_char_exec(tu.as_slice(), '/');
    if !contains_str(t.as_slice(), "/content/") || !contains_str(t.as_slice(), "/html/") {
        return None;
    }
    if !has_suffix_str(t.as_slice(), ".html") {
        return None;
    }
    proof {
        reveal_strlit(".html");
    }
    let stem = slice_of(t.as_slice(), 0, t.len() - 5);
    assert(stem@ =~= t@.take(t@.len() - 5));
    if !has_suffix_str(stem.as_slice(), "_paper") {
        return None;
    }
    proof {
        reveal_strlit("/html/");
    }
    let mut out = replace_str(stem.as_slice(), "/html/", "/papers/");
    push_all(&mut out, lit(".pdf").as_slice());
    opt_string(Some(out))
}

} // verus!
