//! NeurIPS proceedings: swap the `hash` path segment for `file` and the
//! `-Abstract` marker for `-Paper`.
use vstd::prelude::*;
use crate::venues::{on_host, on_host_exec};
use crate::text::{
    chars_of, contains, contains_str, ends_with, find, find_str, has_suffix_str,
    lemma_find_from_sound, lit, lower, opt_string, push_all, replace_first, replace_first_str,
    slice_of, to_lower, trim, trim_end_char, trim_end_char_exec, trim_exec,
};

verus! {

/// The NeurIPS PDF URL for `u`, if `u` is a NeurIPS abstract page.
pub open spec fn neurips_pdf(u: Seq<char>) -> Option<Seq<char>> {
    let low = lower(u);
    if !(on_host(low, "proceedings.neurips.cc"@) || on_host(low, "papers.nips.cc"@)) {
        None
    } else if ends_with(low, ".pdf"@) {
        Some(trim(u))
    } else {
        let t = trim_end_char(trim(u), '/');
        match find(t, "/hash/"@) {
            None => None,
            Some(idx) => {
                let head = t.take(idx);
                let tail = t.skip(idx + 6);
                if !ends_with(tail, ".html"@) {
                    None
                } else {
                    let stem = tail.take(tail.len() - 5);
                    Some(head + "/file/"@ + replace_first(stem, "-Abstract"@, "-Paper"@) + ".pdf"@)
                }
            },
        }
    }
}

/// Derive the canonical NeurIPS proceedings PDF URL from an abstract page.
pub fn pdf_url(url: &str) -> (r: Option<String>)
    ensures
        r.deep_view() == neurips_pdf(url@),
{
    let u = chars_of(url);
    let low = to_lower(u.as_slice());
    if !(on_host_exec(low.as_slice(), "proceedings.neurips.cc") || on_host_exec(
        low.as_slice(),
        "papers.nips.cc",
    )) {
        return None;
    }
    if has_suffix_str(low.as_slice(), ".pdf") {
        return opt_string(Some(trim_exec(u.as_slice())));
    }
    let tu = trim_exec(u.as_slice());
    let t = trim_end_char_exec(tu.as_slice(), '/');
    let idx = match find_str(t.as_slice(), "/hash/") {
        Some(i) => i,
        None => return None,
    };
    proof {
        reveal_strlit("/hash/");
        reveal_strlit(".html");
        lemma_find_from_sound(t@, "/hash/"@, 0);
    }
    let n = t.len();
    assert(idx + 6 <= n);
    let head = slice_of(t.as_slice(), 0, idx);
    let tail = slice_of(t.as_slice(), idx + 6, t.len());
    assert(head@ =~= t@.take(idx as int));
    assert(tail@ =~= t@.skip(idx + 6));
    if !has_suffix_str(tail.as_slice(), ".html") {
        return None;
    }
    let stem = slice_of(tail.as_slice(), 0, tail.len() - 5);
    assert(stem@ =~= tail@.take(tail@.len() - 5));
    // `{H}-Abstract[-Track].html`; the hash is hex so "-Abstract" is unambiguous.
    let tail2 = replace_first_str(stem.as_slice(), "-Abstract", "-Paper");
    let mut out = head;
    push_all(&mut out, lit("/file/").as_slice());
    push_all(&mut out, tail2.as_slice());
    push_all(&mut out, lit(".pdf").as_slice());
    opt_string(Some(out))
}

} // verus!
