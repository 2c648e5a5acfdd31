//! PMLR proceedings (ICML / AISTATS / UAI / ...): the PDF URL is fixed by the
//! volume and paper key; from volume 228 on the PDFs live on the
//! `mlresearch` GitHub mirror.
use vstd::prelude::*;
use crate::venues::{on_host, on_host_exec};
use crate::text::{
    chars_of, contains, contains_str, dec, dec_exec, ends_with, has_suffix_str, is_alnum, lit,
    lower, opt_string, parse_u32_exec, parse_unsigned, push_all, slice_of, split, split_exec,
    starts_with, to_lower, trim, trim_end_char, trim_end_char_exec, trim_exec, char_is_alnum,
};

verus! {

/// First volume whose PDFs live on the GitHub mirror instead of mlr.press.
pub const GITHUB_MIRROR_MIN_VOLUME: u32 = 228;

/// A paper key: non-empty, ASCII letters, digits and `-` only.
pub open spec fn pmlr_key_ok(key: Seq<char>) -> bool {
    key.len() > 0 && forall|i: int| 0 <= i < key.len() ==> is_alnum(#[trigger] key[i]) || key[i] == '-'
}

/// The PMLR PDF URL for volume `v` and paper key `key`.
pub open spec fn pmlr_pdf_for(v: nat, key: Seq<char>) -> Seq<char> {
    if v >= GITHUB_MIRROR_MIN_VOLUME {
        "https://raw.githubusercontent.com/mlresearch/v"@ + dec(v) + "/main/assets/"@ + key + "/"@
            + key + ".pdf"@
    } else {
        "https://proceedings.mlr.press/v"@ + dec(v) + "/"@ + key + "/"@ + key + ".pdf"@
    }
}

/// The PMLR PDF URL for `u`, if `u` is a PMLR abstract page.
pub open spec fn pmlr_pdf(u: Seq<char>) -> Option<Seq<char>> {
    let low = lower(u);
    if !on_host(low, "proceedings.mlr.press"@) || !contains(low, "proceedings.mlr.press/"@) {
        None
    } else if ends_with(low, ".pdf"@) {
        Some(trim(u))
    } else {
        let parts = split(trim_end_char(trim(u), '/'), '/');
        if parts.len() != 5 || !starts_with(parts[3], "v"@) {
            None
        } else {
            match parse_unsigned(parts[3].drop_first(), 0xFFFF_FFFF) {
                None => None,
                Some(v) => {
                    if !ends_with(parts[4], ".html"@) {
                        None
                    } else {
                        let key = parts[4].take(parts[4].len() - 5);
                        if pmlr_key_ok(key) {
                            Some(pmlr_pdf_for(v as nat, key))
                        } else {
                            None
                        }
                    }
                },
            }
        }
    }
}

fn key_ok(key: &[char]) -> (r: bool)
    ensures
        r == pmlr_key_ok(key@),
{
    if key.len() == 0 {
        return false;
    }
    let mut i: usize = 0;
    while i < key.len()
        invariant
            i <= key@.len(),
            forall|k: int| 0 <= k < i ==> is_alnum(#[trigger] key@[k]) || key@[k] == '-',
        decreases key.len() - i,
    {
        if !(char_is_alnum(key[i]) || key[i] == '-') {
            return false;
        }
        i += 1;
    }
    true
}

/// Derive the canonical PMLR PDF URL from an abstract page.
pub fn pdf_url(url: &str) -> (r: Option<String>)
    ensures
        r.deep_view() == pmlr_pdf(url@),
{
    let u = chars_of(url);
    let low = to_lower(u.as_slice());
    if !on_host_exec(low.as_slice(), "proceedings.mlr.press") || !contains_str(low.as_slice(), "proceedings.mlr.press/") {
        return None;
    }
    if has_suffix_str(low.as_slice(), ".pdf") {
        return opt_string(Some(trim_exec(u.as_slice())));
    }
    let tu = trim_exec(u.as_slice());
    let t = trim_end_char_exec(tu.as_slice(), '/');
    let parts = split_exec(t.as_slice(), '/');
    // [https:, "", host, v{volume}, {key}.html]
    if parts.len() != 5 {
        return None;
    }
    let p3 = &parts[3];
    proof {
        reveal_strlit("v");
        reveal_strlit(".html");
    }
    if p3.len() == 0 || p3[0] != 'v' {
        assert(!starts_with(p3@, "v"@)) by {
            if p3@.len() > 0 {
                assert(p3@.take(1)[0] == p3@[0]);
            }
        }
        return None;
    }
    assert(starts_with(p3@, "v"@)) by {
        assert(p3@.take(1) =~= "v"@);
    }
    let vol_digits = slice_of(p3.as_slice(), 1, p3.len());
    assert(vol_digits@ =~= p3@.drop_first());
    let v = match parse_u32_exec(vol_digits.as_slice()) {
        Some(v) => v,
        None => return None,
    };
    let p4 = &parts[4];
    if !has_suffix_str(p4.as_slice(), ".html") {
        return None;
    }
    let key = slice_of(p4.as_slice(), 0, p4.len() - 5);
    assert(key@ =~= p4@.take(p4@.len() - 5));
    if !key_ok(key.as_slice()) {
        return None;
    }
    let vd = dec_exec(v as u64);
    let mut out = if v >= GITHUB_MIRROR_MIN_VOLUME {
        let mut o = lit("https://raw.githubusercontent.com/mlresearch/v");
        push_all(&mut o, vd.as_slice());
        push_all(&mut o, lit("/main/assets/").as_slice());
        o
    } else {
        let mut o = lit("https://proceedings.mlr.press/v");
        push_all(&mut o, vd.as_slice());
        push_all(&mut o, lit("/").as_slice());
        o
    };
    push_all(&mut out, key.as_slice());
    push_all(&mut out, lit("/").as_slice());
    push_all(&mut out, key.as_slice());
    push_all(&mut out, lit(".pdf").as_slice());
    opt_string(Some(out))
}

} // verus!
