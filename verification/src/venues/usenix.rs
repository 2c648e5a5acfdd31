//! USENIX presentation pages: the PDF is `system/files/{conf}-{slug}.pdf`.
use vstd::prelude::*;
use crate::venues::{on_host, on_host_exec};
use crate::text::{
    chars_of, contains, contains_str, ends_with, eq_ignore_ascii_case, eq_ignore_case,
    has_suffix_str, lit, lower, opt_string, views, push_all, split, split_exec, to_lower, trim,
    trim_end_char, trim_end_char_exec, trim_exec,
};

verus! {

/// Index of the first piece at or after `i` equal to `w` up to ASCII case.
pub open spec fn position_ci(parts: Seq<Seq<char>>, w: Seq<char>, i: int) -> Option<int>
    decreases parts.len() - i,
{
    if i < 0 || i >= parts.len() {
        None
    } else if eq_ignore_case(parts[i], w) {
        Some(i)
    } else {
        position_ci(parts, w, i + 1)
    }
}

/// The piece after the first one equal to `w` up to ASCII case.
pub open spec fn after_word(parts: Seq<Seq<char>>, w: Seq<char>) -> Option<Seq<char>> {
    match position_ci(parts, w, 0) {
        Some(k) => if k + 1 < parts.len() {
            Some(parts[k + 1])
        } else {
            None
        },
        None => None,
    }
}

/// The USENIX PDF URL for `u`, if `u` is a presentation page.
pub open spec fn usenix_pdf(u: Seq<char>) -> Option<Seq<char>> {
    let low = lower(u);
    if !on_host(low, "usenix.org"@) || !contains(low, "usenix.org/conference/"@) || !contains(low, "/presentation/"@) {
        None
    } else if ends_with(low, ".pdf"@) {
        Some(trim(u))
    } else {
        let parts = split(trim_end_char(trim(u), '/'), '/');
        match (after_word(parts, "conference"@), after_word(parts, "presentation"@)) {
            (Some(conf), Some(slug)) => if conf.len() == 0 || slug.len() == 0 {
                None
            } else {
                Some("https://www.usenix.org/system/files/"@ + conf + "-"@ + slug + ".pdf"@)
            },
            _ => None,
        }
    }
}

fn after_word_exec(parts: &Vec<Vec<char>>, w: &str) -> (r: Option<Vec<char>>)
    ensures
        match r {
            Some(x) => after_word(views(parts@), w@) == Some(x@),
            None => after_word(views(parts@), w@) is None,
        },
{
    let ghost pv = views(parts@);
    let wv = lit(w);
    let mut i: usize = 0;
    while i < parts.len()
        invariant
            i <= parts@.len(),
            pv == views(parts@),
            wv@ == w@,
            position_ci(pv, w@, 0) == position_ci(pv, w@, i as int),
        decreases parts.len() - i,
    {
        if eq_ignore_ascii_case(parts[i].as_slice(), wv.as_slice()) {
            if i + 1 < parts.len() {
                return Some(parts[i + 1].clone());
            }
            return None;
        }
        i += 1;
    }
    None
}

/// Derive the canonical USENIX presentation PDF URL from a paper page.
pub fn pdf_url(url: &str) -> (r: Option<String>)
    ensures
        r.deep_view() == usenix_pdf(url@),
{
    let u = chars_of(url);
    let low = to_lower(u.as_slice());
    if !on_host_exec(low.as_slice(), "usenix.org") || !contains_str(low.as_slice(), "usenix.org/conference/") || !contains_str(
        low.as_slice(),
        "/presentation/",
    ) {
        return None;
    }
    if has_suffix_str(low.as_slice(), ".pdf") {
        return opt_string(Some(trim_exec(u.as_slice())));
    }
    let tu = trim_exec(u.as_slice());
    let t = trim_end_char_exec(tu.as_slice(), '/');
    let parts = split_exec(t.as_slice(), '/');
    let conf = match after_word_exec(&parts, "conference") {
        Some(c) => c,
        None => return None,
    };
    let slug = match after_word_exec(&parts, "presentation") {
        Some(s) => s,
        None => return None,
    };
    if conf.len() == 0 || slug.len() == 0 {
        return None;
    }
    let mut out = lit("https://www.usenix.org/system/files/");
    push_all(&mut out, conf.as_slice());
    push_all(&mut out, lit("-").as_slice());
    push_all(&mut out, slug.as_slice());
    push_all(&mut out, lit(".pdf").as_slice());
    opt_string(Some(out))
}

} // verus!
