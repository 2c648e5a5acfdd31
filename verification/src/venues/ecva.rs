//! ECVA (ECCV proceedings): the paper page is numbered and the PDF lives
//! under `papers/`, zero-padded to five digits.
use vstd::prelude::*;
use crate::venues::{on_host, on_host_exec};
use crate::text::{
    chars_of, contains, contains_str, dec_pad, dec_pad_exec, ends_with, find, find_str,
    has_suffix_str, lemma_find_from_sound, lemma_split_acc_nonempty, lit, lower, opt_string,
    parse_u32_exec, parse_unsigned, push_all, slice_of, split, split_exec, to_lower, trim,
    trim_end_char, trim_end_char_exec, trim_exec,
};

verus! {

/// The ECVA PDF URL for `u`, if `u` is an ECVA paper page.
pub open spec fn ecva_pdf(u: Seq<char>) -> Option<Seq<char>> {
    let low = lower(u);
    if !on_host(low, "ecva.net"@) || !contains(low, "ecva.net/"@) {
        None
    } else if ends_with(low, ".pdf"@) {
        Some(trim(u))
    } else {
        let t = trim_end_char(trim(u), '/');
        match find(t, "/html/"@) {
            None => None,
            Some(idx) => {
                let base = t.take(idx);
                let file = t.skip(idx + 6);
                match parse_unsigned(split(file, '_')[0], 0xFFFF_FFFF) {
                    Some(n) if n > 0 => Some(base + "/papers/"@ + dec_pad(n as nat, 5) + ".pdf"@),
                    _ => None,
                }
            },
        }
    }
}

/// Derive the canonical ECVA PDF URL from a paper page.
pub fn pdf_url(url: &str) -> (r: Option<String>)
    ensures
        r.deep_view() == ecva_pdf(url@),
{
    let u = chars_of(url);
    let low = to_lower(u.as_slice());
    if !on_host_exec(low.as_slice(), "ecva.net") || !contains_str(low.as_slice(), "ecva.net/") {
        return None;
    }
    if has_suffix_str(low.as_slice(), ".pdf") {
        return opt_string(Some(trim_exec(u.as_slice())));
    }
    let tu = trim_exec(u.as_slice());
    let t = trim_end_char_exec(tu.as_slice(), '/');
    let idx = match find_str(t.as_slice(), "/html/") {
        Some(i) => i,
        None => return None,
    };
    proof {
        reveal_strlit("/html/");
        lemma_find_from_sound(t@, "/html/"@, 0);
    }
    let n = t.len();
    assert(idx + 6 <= n);
    let base = slice_of(t.as_slice(), 0, idx);
    let file = slice_of(t.as_slice(), idx + 6, t.len());
    assert(base@ =~= t@.take(idx as int));
    assert(file@ =~= t@.skip(idx + 6));
    let pieces = split_exec(file.as_slice(), '_');
    proof {
        lemma_split_acc_nonempty(file@, '_', 0, 0);
    }
    let n = match parse_u32_exec(pieces[0].as_slice()) {
        Some(n) => n,
        None => return None,
    };
    if n == 0 {
        return None;
    }
    let mut out = base;
    push_all(&mut out, lit("/papers/").as_slice());
    push_all(&mut out, dec_pad_exec(n as u64, 5).as_slice());
    push_all(&mut out, lit(".pdf").as_slice());
    opt_string(Some(out))
}

} // verus!
