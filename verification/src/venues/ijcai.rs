//! IJCAI proceedings: zero-pad the paper number to four digits and append `.pdf`.
use vstd::prelude::*;
use crate::venues::{on_host, on_host_exec};
use crate::text::{
    all_digits, all_digits_exec, chars_of, contains, contains_str, dec_pad, dec_pad_exec,
    ends_with, has_suffix_str, lit, lower, opt_string, parse_u32_exec, parse_unsigned, push_all,
    split, split_exec, to_lower, trim, trim_end_char, trim_end_char_exec, trim_exec,
};

verus! {

/// The IJCAI PDF URL for `u`, if `u` is an IJCAI paper page.
pub open spec fn ijcai_pdf(u: Seq<char>) -> Option<Seq<char>> {
    let low = lower(u);
    if !on_host(low, "ijcai.org"@) || !contains(low, "ijcai.org/proceedings/"@) {
        None
    } else if ends_with(low, ".pdf"@) {
        Some(trim(u))
    } else {
        let parts = split(trim_end_char(trim(u), '/'), '/');
        if parts.len() != 6 {
            None
        } else if parts[4].len() != 4 || !all_digits(parts[4]) {
            None
        } else {
            match parse_unsigned(parts[5], 0xFFFF_FFFF) {
                Some(n) => Some(
                    "https://www.ijcai.org/proceedings/"@ + parts[4] + "/"@ + dec_pad(n as nat, 4)
                        + ".pdf"@,
                ),
                None => None,
            }
        }
    }
}

/// Derive the canonical IJCAI proceedings PDF URL from a paper page.
pub fn pdf_url(url: &str) -> (r: Option<String>)
    ensures
        r.deep_view() == ijcai_pdf(url@),
{
    let u = chars_of(url);
    let low = to_lower(u.as_slice());
    if !on_host_exec(low.as_slice(), "ijcai.org") || !contains_str(low.as_slice(), "ijcai.org/proceedings/") {
        return None;
    }
    if has_suffix_str(low.as_slice(), ".pdf") {
        return opt_string(Some(trim_exec(u.as_slice())));
    }
    let tu = trim_exec(u.as_slice());
    let t = trim_end_char_exec(tu.as_slice(), '/');
    let parts = split_exec(t.as_slice(), '/');
    // [https:, "", host, proceedings, {YYYY}, {paper-number}]
    if parts.len() != 6 {
        return None;
    }
    let year = &parts[4];
    if year.len() != 4 || !all_digits_exec(year.as_slice()) {
        return None;
    }
    let n = match parse_u32_exec(parts[5].as_slice()) {
        Some(n) => n,
        None => return None,
    };
    let mut out = lit("https://www.ijcai.org/proceedings/");
    push_all(&mut out, year.as_slice());
    push_all(&mut out, lit("/").as_slice());
    push_all(&mut out, dec_pad_exec(n as u64, 4).as_slice());
    push_all(&mut out, lit(".pdf").as_slice());
    opt_string(Some(out))
}

} // verus!
