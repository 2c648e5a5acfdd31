//! Canonical URL derivation for well-known scholarly repositories.
use vstd::prelude::*;
use crate::text::{chars_of, lit, push_all, string_of, trim, trim_exec};

verus! {

/// Canonical arXiv preview URLs for a bare arXiv id.
pub struct ArxivUrls {
    pub pdf: String,
    pub html: String,
    pub abs: String,
}

fn prefixed(prefix: &str, id: &[char]) -> (r: String)
    ensures
        r@ == prefix@ + id@,
{
    let mut v = lit(prefix);
    push_all(&mut v, id);
    string_of(v.as_slice())
}

/// Build canonical `https://arxiv.org/{pdf,html,abs}` URLs for a bare id.
/// The caller strips any `arXiv:` prefix and version suffix beforehand.
pub fn arxiv_canonical_urls(bare_id: &str) -> (r: ArxivUrls)
    ensures
        r.pdf@ == "https://arxiv.org/pdf/"@ + trim(bare_id@),
        r.html@ == "https://arxiv.org/html/"@ + trim(bare_id@),
        r.abs@ == "https://arxiv.org/abs/"@ + trim(bare_id@),
{
    let id = chars_of(bare_id);
    let bare = trim_exec(id.as_slice());
    ArxivUrls {
        pdf: prefixed("https://arxiv.org/pdf/", bare.as_slice()),
        html: prefixed("https://arxiv.org/html/", bare.as_slice()),
        abs: prefixed("https://arxiv.org/abs/", bare.as_slice()),
    }
}

/// DOI resolver landing page.
pub fn doi_landing_url(doi: &str) -> (r: String)
    ensures
        r@ == "https://doi.org/"@ + doi@,
{
    let d = chars_of(doi);
    prefixed("https://doi.org/", d.as_slice())
}

} // verus!
