//! OpenReview (ICLR / COLM / TMLR / ...): same id, `forum` becomes `pdf`.
use vstd::prelude::*;
use crate::venues::{on_host, on_host_exec};
use crate::text::{
    chars_of, contains, contains_str, ends_with, has_suffix_str, lower, opt_string, replace_first,
    replace_first_str, to_lower, trim, trim_exec,
};

verus! {

/// The OpenReview PDF URL for `u`, if `u` is an OpenReview forum page.
pub open spec fn openreview_pdf(u: Seq<char>) -> Option<Seq<char>> {
    let low = lower(u);
    if !on_host(low, "openreview.net"@) || !contains(low, "openreview.net/"@) {
        None
    } else if contains(low, "/pdf?id="@) || ends_with(low, "/pdf"@) {
        Some(trim(u))
    } else if !contains(trim(u), "/forum?id="@) {
        None
    } else {
        Some(replace_first(trim(u), "/forum?id="@, "/pdf?id="@))
    }
}

/// Derive the canonical OpenReview PDF URL from a forum page.
pub fn pdf_url(url: &str) -> (r: Option<String>)
    ensures
        r.deep_view() == openreview_pdf(url@),
{
    let u = chars_of(url);
    let low = to_lower(u.as_slice());
    if !on_host_exec(low.as_slice(), "openreview.net") || !contains_str(low.as_slice(), "openreview.net/") {
        return None;
    }
    if contains_str(low.as_slice(), "/pdf?id=") || has_suffix_str(low.as_slice(), "/pdf") {
        return opt_string(Some(trim_exec(u.as_slice())));
    }
    let t = trim_exec(u.as_slice());
    if !contains_str(t.as_slice(), "/forum?id=") {
        return None;
    }
    opt_string(Some(replace_first_str(t.as_slice(), "/forum?id=", "/pdf?id=")))
}

} // verus!
