//! Per-venue landing-page to PDF-URL derivations, and their dispatcher.
//!
//! Each resolver recognizes one publisher's pages by host and derives the PDF
//! URL those pages determine. Venues without a derivable pattern (NDSS, OJS
//! installs such as AAAI) are deliberately absent.
use vstd::prelude::*;
use crate::text::{chars_of, ends_with, find, find_str, has_suffix_str, slice_of, trim, trim_exec};

pub mod acl;
pub mod cvf;
pub mod ecva;
pub mod ijcai;
pub mod neurips;
pub mod openreview;
pub mod pmlr;
pub mod springer;
pub mod usenix;

verus! {

// ---------------------------------------------------------------------------
// Hosts
// ---------------------------------------------------------------------------

/// Where the host of `s` ends, from `i` on: at the first `/`, `?`, `#` or
/// `:` (a port), or at the end.
pub open spec fn host_end(s: Seq<char>, i: int) -> int
    decreases s.len() - i,
{
    if i < 0 || i >= s.len() || s[i] == '/' || s[i] == '?' || s[i] == '#' || s[i] == ':' {
        i
    } else {
        host_end(s, i + 1)
    }
}

/// The host of a URL: what follows `://` (or the whole trimmed text when it
/// has no scheme) up to the first `/`, `?`, `#` or `:`.
pub open spec fn url_host(u: Seq<char>) -> Seq<char> {
    let t = trim(u);
    let rest = match find(t, "://"@) {
        Some(i) => t.skip(i + 3),
        None => t,
    };
    rest.take(host_end(rest, 0))
}

/// Host `h` is domain `d` or one of its subdomains.
pub open spec fn host_matches(h: Seq<char>, d: Seq<char>) -> bool {
    ends_with(h, d) && (h.len() == d.len() || h[h.len() - d.len() - 1] == '.')
}

/// URL `u` is served from domain `d` (or a subdomain of it).
pub open spec fn on_host(u: Seq<char>, d: Seq<char>) -> bool {
    host_matches(url_host(u), d)
}

proof fn lemma_host_end_bounds(s: Seq<char>, i: int)
    requires
        0 <= i <= s.len(),
    ensures
        i <= host_end(s, i) <= s.len(),
        forall|k: int|
            i <= k < host_end(s, i) ==> !(s[k] == '/' || s[k] == '?' || s[k] == '#' || s[k] == ':'),
        host_end(s, i) < s.len() ==> {
            let c = s[host_end(s, i)];
            c == '/' || c == '?' || c == '#' || c == ':'
        },
    decreases s.len() - i,
{
    if i < s.len() && !(s[i] == '/' || s[i] == '?' || s[i] == '#' || s[i] == ':') {
        lemma_host_end_bounds(s, i + 1);
    }
}

/// The host of URL `u` (see [`url_host`]).
pub fn url_host_exec(u: &[char]) -> (r: Vec<char>)
    ensures
        r@ == url_host(u@),
{
    let t = trim_exec(u);
    proof {
        reveal_strlit("://");
    }
    let rest = match find_str(t.as_slice(), "://") {
        Some(i) => {
            let n = t.len();
            slice_of(t.as_slice(), i + 3, n)
        },
        None => t,
    };
    proof {
        lemma_host_end_bounds(rest@, 0);
    }
    let mut j: usize = 0;
    while j < rest.len()
        invariant_except_break
            j <= rest@.len(),
            host_end(rest@, 0) == host_end(rest@, j as int),
        ensures
            j == host_end(rest@, 0),
        decreases rest.len() - j,
    {
        let c = rest[j];
        if c == '/' || c == '?' || c == '#' || c == ':' {
            break;
        }
        j += 1;
    }
    slice_of(rest.as_slice(), 0, j)
}

/// Whether URL `u` (already lowercased) is served from domain `d`.
pub fn on_host_exec(u: &[char], d: &str) -> (r: bool)
    ensures
        r == on_host(u@, d@),
{
    let h = url_host_exec(u);
    if !has_suffix_str(h.as_slice(), d) {
        return false;
    }
    let n = chars_of(d).len();
    if h.len() == n {
        true
    } else {
        h[h.len() - n - 1] == '.'
    }
}

/// The first venue resolver, in dispatch order, that derives a PDF URL for `u`.
pub open spec fn venue_pdf(u: Seq<char>) -> Option<Seq<char>> {
    if acl::acl_pdf(u) is Some {
        acl::acl_pdf(u)
    } else if usenix::usenix_pdf(u) is Some {
        usenix::usenix_pdf(u)
    } else if neurips::neurips_pdf(u) is Some {
        neurips::neurips_pdf(u)
    } else if cvf::cvf_pdf(u) is Some {
        cvf::cvf_pdf(u)
    } else if ecva::ecva_pdf(u) is Some {
        ecva::ecva_pdf(u)
    } else if ijcai::ijcai_pdf(u) is Some {
        ijcai::ijcai_pdf(u)
    } else if pmlr::pmlr_pdf(u) is Some {
        pmlr::pmlr_pdf(u)
    } else if openreview::openreview_pdf(u) is Some {
        openreview::openreview_pdf(u)
    } else {
        springer::springer_pdf(u)
    }
}

/// Every venue resolver applied to `u`, in dispatch order.
pub open spec fn venue_resolvers(u: Seq<char>) -> Seq<Option<Seq<char>>> {
    seq![
        acl::acl_pdf(u),
        usenix::usenix_pdf(u),
        neurips::neurips_pdf(u),
        cvf::cvf_pdf(u),
        ecva::ecva_pdf(u),
        ijcai::ijcai_pdf(u),
        pmlr::pmlr_pdf(u),
        openreview::openreview_pdf(u),
        springer::springer_pdf(u),
    ]
}

/// A host under domain `d` ends with `d`, character by character from the end.
proof fn lemma_host_tail(h: Seq<char>, d: Seq<char>, k: int)
    requires
        host_matches(h, d),
        0 <= k < d.len(),
    ensures
        h[h.len() - 1 - k] == d[d.len() - 1 - k],
{
    assert(h.skip(h.len() - d.len())[d.len() - 1 - k] == d[d.len() - 1 - k]);
}

/// The last and fifth-to-last characters of a host under domain `d`.
proof fn lemma_host_marks(h: Seq<char>, d: Seq<char>)
    requires
        host_matches(h, d),
        d.len() > 4,
    ensures
        h.len() > 4,
        h[h.len() - 1] == d[d.len() - 1],
        h[h.len() - 5] == d[d.len() - 5],
{
    lemma_host_tail(h, d, 0);
    lemma_host_tail(h, d, 4);
}

/// Law: the venue resolvers are mutually exclusive by host, so at most one
/// of them derives a PDF URL for any URL; their order is irrelevant, and the
/// dispatcher gives that one's answer, or none when no resolver has one.
pub proof fn lemma_venues_exclusive(u: Seq<char>)
    ensures
        forall|i: int, j: int|
            0 <= i < j < 9 ==> !(#[trigger] venue_resolvers(u)[i] is Some
                && #[trigger] venue_resolvers(u)[j] is Some),
        forall|i: int|
            0 <= i < 9 && #[trigger] venue_resolvers(u)[i] is Some ==> venue_pdf(u)
                == venue_resolvers(u)[i],
        venue_pdf(u) is None <==> forall|i: int|
            0 <= i < 9 ==> #[trigger] venue_resolvers(u)[i] is None,
{
    let low = crate::text::lower(u);
    let h = url_host(low);
    reveal_strlit("aclanthology.org");
    reveal_strlit("usenix.org");
    reveal_strlit("proceedings.neurips.cc");
    reveal_strlit("papers.nips.cc");
    reveal_strlit("openaccess.thecvf.com");
    reveal_strlit("ecva.net");
    reveal_strlit("ijcai.org");
    reveal_strlit("proceedings.mlr.press");
    reveal_strlit("openreview.net");
    reveal_strlit("link.springer.com");
    if on_host(low, "aclanthology.org"@) {
        lemma_host_marks(h, "aclanthology.org"@);
    }
    if on_host(low, "usenix.org"@) {
        lemma_host_marks(h, "usenix.org"@);
    }
    if on_host(low, "proceedings.neurips.cc"@) {
        lemma_host_marks(h, "proceedings.neurips.cc"@);
    }
    if on_host(low, "papers.nips.cc"@) {
        lemma_host_marks(h, "papers.nips.cc"@);
    }
    if on_host(low, "openaccess.thecvf.com"@) {
        lemma_host_marks(h, "openaccess.thecvf.com"@);
    }
    if on_host(low, "ecva.net"@) {
        lemma_host_marks(h, "ecva.net"@);
    }
    if on_host(low, "ijcai.org"@) {
        lemma_host_marks(h, "ijcai.org"@);
    }
    if on_host(low, "proceedings.mlr.press"@) {
        lemma_host_marks(h, "proceedings.mlr.press"@);
    }
    if on_host(low, "openreview.net"@) {
        lemma_host_marks(h, "openreview.net"@);
    }
    if on_host(low, "link.springer.com"@) {
        lemma_host_marks(h, "link.springer.com"@);
    }
    let r = venue_resolvers(u);
    assert(r[0] is Some ==> on_host(low, "aclanthology.org"@));
    assert(r[1] is Some ==> on_host(low, "usenix.org"@));
    assert(r[2] is Some ==> on_host(low, "proceedings.neurips.cc"@) || on_host(
        low,
        "papers.nips.cc"@,
    ));
    assert(r[3] is Some ==> on_host(low, "openaccess.thecvf.com"@));
    assert(r[4] is Some ==> on_host(low, "ecva.net"@));
    assert(r[5] is Some ==> on_host(low, "ijcai.org"@));
    assert(r[6] is Some ==> on_host(low, "proceedings.mlr.press"@));
    assert(r[7] is Some ==> on_host(low, "openreview.net"@));
    assert(r[8] is Some ==> on_host(low, "link.springer.com"@));
}

/// Derive a deterministic PDF URL from a venue landing page.
///
/// Returns `None` when no venue matches; callers only use this to fill a
/// missing PDF URL, never to replace one another source provided.
pub fn venue_pdf_url(url: &str) -> (r: Option<String>)
    ensures
        r.deep_view() == venue_pdf(url@),
{
    if let Some(p) = acl::pdf_url(url) {
        return Some(p);
    }
    if let Some(p) = usenix::pdf_url(url) {
        return Some(p);
    }
    if let Some(p) = neurips::pdf_url(url) {
        return Some(p);
    }
    if let Some(p) = cvf::pdf_url(url) {
        return Some(p);
    }
    if let Some(p) = ecva::pdf_url(url) {
        return Some(p);
    }
    if let Some(p) = ijcai::pdf_url(url) {
        return Some(p);
    }
    if let Some(p) = pmlr::pdf_url(url) {
        return Some(p);
    }
    if let Some(p) = openreview::pdf_url(url) {
        return Some(p);
    }
    springer::pdf_url(url)
}

} // verus!
