//! Heading and caption normalization, section markers and numbered labels.
use vstd::prelude::*;
use crate::citation::labels::{roman, section_number, parse_section_number, to_roman};
use crate::text::{
    byte_len, byte_len_exec, chars_of, contains, contains_exec, dec, dec_exec, drop_ws,
    drop_ws_exec, eq, eq_str, has_prefix, join, join_exec, lit, push_all, replace_chars,
    replace_chars_exec, slice_of, sort_dedup, starts_with, string_of, strictly_sorted,
    to_lowercase, string_views, unicode_lower, views, words, words_exec,
};

verus! {

/// Lowercase, then collapse runs of whitespace (no-break spaces and tabs included)
/// to single spaces, dropping them at both ends.
pub open spec fn normalized_heading(text: Seq<char>) -> Seq<char> {
    join(words(replace_chars(unicode_lower(text), seq!['\u{00A0}', '\t'], ' ')), seq![' '])
}

/// Like `normalized_heading`, with `:` and `.` also treated as spaces.
pub open spec fn normalized_caption(text: Seq<char>) -> Seq<char> {
    join(
        words(replace_chars(unicode_lower(text), seq!['\u{00A0}', '\t', ':', '.'], ' ')),
        seq![' '],
    )
}

fn normalize_with(text: &str, set: &Vec<char>) -> (r: Vec<char>)
    ensures
        r@ == join(words(replace_chars(unicode_lower(text@), set@, ' ')), seq![' ']),
{
    let low = to_lowercase(text);
    let l = chars_of(low.as_str());
    let replaced = replace_chars_exec(l.as_slice(), set.as_slice(), ' ');
    let toks = words_exec(replaced.as_slice());
    let mut sep: Vec<char> = Vec::new();
    sep.push(' ');
    assert(sep@ =~= seq![' ']);
    join_exec(&toks, sep.as_slice())
}

/// Normalize a heading for matching: lowercase, single spaces, trimmed.
pub fn normalize_heading(text: &str) -> (r: String)
    ensures
        r@ == normalized_heading(text@),
{
    let mut set: Vec<char> = Vec::new();
    set.push('\u{00A0}');
    set.push('\t');
    assert(set@ =~= seq!['\u{00A0}', '\t']);
    let v = normalize_with(text, &set);
    string_of(v.as_slice())
}

/// Normalize a caption title: as `normalize_heading`, with `:` and `.` as spaces.
pub fn normalize_caption_title(text: &str) -> (r: String)
    ensures
        r@ == normalized_caption(text@),
{
    let mut set: Vec<char> = Vec::new();
    set.push('\u{00A0}');
    set.push('\t');
    set.push(':');
    set.push('.');
    assert(set@ =~= seq!['\u{00A0}', '\t', ':', '.']);
    let v = normalize_with(text, &set);
    string_of(v.as_slice())
}

/// The needles a section citation may match: the needle itself and, for a
/// section number `n`, its roman numeral, the numeral with a dot, and `n` in digits.
pub open spec fn alias_candidates(needle: Seq<char>) -> Seq<Seq<char>> {
    match section_number(needle) {
        Some(n) => {
            let r = roman(n as nat);
            (if r != needle {
                seq![needle, r]
            } else {
                seq![needle]
            }) + seq![r + seq!['.'], dec(n as nat)]
        },
        None => seq![needle],
    }
}

/// Expand `#section=3` / `#section=III` into alias needles, sorted and deduplicated.
pub fn section_needle_aliases(needle: &str) -> (r: Vec<String>)
    ensures
        strictly_sorted(string_views(r@)),
        string_views(r@).to_set() == alias_candidates(needle@).to_set(),
{
    let nv = chars_of(needle);
    let mut out: Vec<Vec<char>> = Vec::new();
    out.push(slice_of(nv.as_slice(), 0, nv.len()));
    assert(nv@.subrange(0, nv@.len() as int) =~= nv@);
    if let Some(n) = parse_section_number(needle) {
        let roman_s = to_roman(n);
        let rv = chars_of(roman_s.as_str());
        assert(rv@.subrange(0, rv@.len() as int) =~= rv@);
        if !eq(rv.as_slice(), nv.as_slice()) {
            out.push(slice_of(rv.as_slice(), 0, rv.len()));
        }
        let mut dotted = slice_of(rv.as_slice(), 0, rv.len());
        dotted.push('.');
        out.push(dotted);
        let dn = dec_exec(n as u64);
        out.push(dn);
        proof {
            let r = roman(n as nat);
            assert(rv@ == r);
            assert(dotted@ == r + seq!['.']);
            assert(dn@ == dec(n as nat));
            if r != needle@ {
                assert(views(out@) =~= seq![needle@, r, r + seq!['.'], dec(n as nat)]);
            } else {
                assert(views(out@) =~= seq![needle@, r + seq!['.'], dec(n as nat)]);
            }
        }
        assert(views(out@) =~= alias_candidates(needle@));
    } else {
        assert(views(out@) =~= alias_candidates(needle@));
    }
    let sorted = sort_dedup(&out);
    let mut res: Vec<String> = Vec::new();
    let mut i: usize = 0;
    while i < sorted.len()
        invariant
            i <= sorted@.len(),
            string_views(res@) =~= views(sorted@).take(i as int),
        decreases sorted.len() - i,
    {
        let ghost prev = string_views(res@);
        let item = string_of(sorted[i].as_slice());
        res.push(item);
        assert(string_views(res@) =~= prev.push(item@));
        assert(views(sorted@).take(i + 1) =~= views(sorted@).take(i as int).push(
            views(sorted@)[i as int],
        ));
        i += 1;
    }
    assert(views(sorted@).take(sorted@.len() as int) =~= views(sorted@));
    res
}

/// `normalized` or `compact` starts with `marker.` and there is more after it,
/// or `normalized` starts with `marker `.
pub open spec fn marker_prefix(normalized: Seq<char>, compact: Seq<char>, marker: Seq<char>) -> bool {
    let dotted = marker + seq!['.'];
    ((starts_with(normalized, dotted) || starts_with(compact, dotted)) && byte_len(compact)
        > byte_len(dotted)) || starts_with(normalized, marker + seq![' '])
}

fn marker_prefix_exec(normalized: &[char], compact: &[char], marker: &[char]) -> (r: bool)
    ensures
        r == marker_prefix(normalized@, compact@, marker@),
{
    let mut dotted = slice_of(marker, 0, marker.len());
    dotted.push('.');
    let mut spaced = slice_of(marker, 0, marker.len());
    spaced.push(' ');
    assert(marker@.subrange(0, marker@.len() as int) =~= marker@);
    assert(dotted@ =~= marker@ + seq!['.']);
    assert(spaced@ =~= marker@ + seq![' ']);
    if (has_prefix(normalized, dotted.as_slice()) || has_prefix(compact, dotted.as_slice()))
        && byte_len_exec(compact) > byte_len_exec(dotted.as_slice()) {
        return true;
    }
    has_prefix(normalized, spaced.as_slice())
}

/// Whether a section marker prefixes a normalized header (see `marker_prefix`).
pub fn section_marker_prefix(normalized: &str, compact: &str, marker: &str) -> (r: bool)
    ensures
        r == marker_prefix(normalized@, compact@, marker@),
{
    let n = chars_of(normalized);
    let c = chars_of(compact);
    let m = chars_of(marker);
    marker_prefix_exec(n.as_slice(), c.as_slice(), m.as_slice())
}

/// A header text carries the marker of section `n`, roman (`III. …`) or arabic (`3 …`).
pub open spec fn header_matches(text: Seq<char>, n: nat) -> bool {
    let normalized = normalized_heading(text);
    let compact = drop_ws(normalized);
    marker_prefix(normalized, compact, roman(n)) || marker_prefix(normalized, compact, dec(n))
}

/// Match OCR'd IEEE headers like `III. P RELIMINARIES` to section number 3.
///
/// Requires an explicit marker boundary (`.` or space) so bare `i` does not
/// match `introduction`, and `ii` does not prefix-match `iii.…`.
pub fn header_matches_section_number(text: &str, n: u32) -> (r: bool)
    ensures
        r == header_matches(text@, n as nat),
{
    let normalized = normalize_heading(text);
    let nv = chars_of(normalized.as_str());
    let compact = drop_ws_exec(nv.as_slice());
    let roman_s = to_roman(n);
    let rv = chars_of(roman_s.as_str());
    let arabic = dec_exec(n as u64);
    marker_prefix_exec(nv.as_slice(), compact.as_slice(), rv.as_slice()) || marker_prefix_exec(
        nv.as_slice(),
        compact.as_slice(),
        arabic.as_slice(),
    )
}

/// Some token among `labels` is immediately followed by the token `num`.
pub open spec fn label_in_tokens(tokens: Seq<Seq<char>>, labels: Seq<Seq<char>>, num: Seq<char>) -> bool {
    exists|i: int|
        0 <= i && i + 1 < tokens.len() && labels.contains(#[trigger] tokens[i]) && tokens[i + 1]
            == num
}

/// Whether some `labels` token is followed by the number `n` in `tokens`.
pub fn numbered_label_in_tokens(tokens: &Vec<Vec<char>>, labels: &Vec<Vec<char>>, n: usize) -> (r:
    bool)
    ensures
        r == label_in_tokens(views(tokens@), views(labels@), dec(n as nat)),
{
    let ns = dec_exec(n as u64);
    let ghost tv = views(tokens@);
    let ghost lv = views(labels@);
    let mut i: usize = 0;
    while i < tokens.len() && i + 1 < tokens.len()
        invariant
            i <= tv.len(),
            tv == views(tokens@),
            lv == views(labels@),
            ns@ == dec(n as nat),
            forall|k: int|
                0 <= k < i && k + 1 < tv.len() ==> !(lv.contains(#[trigger] tv[k]) && tv[k + 1]
                    == ns@),
        decreases tokens.len() - i,
    {
        let mut hit = false;
        let mut j: usize = 0;
        while j < labels.len()
            invariant
                j <= lv.len(),
                tv == views(tokens@),
                lv == views(labels@),
                i < tv.len(),
                hit == lv.take(j as int).contains(tv[i as int]),
            decreases labels.len() - j,
        {
            if eq(labels[j].as_slice(), tokens[i].as_slice()) {
                hit = true;
            }
            proof {
                let t0 = lv.take(j as int);
                let t1 = lv.take(j + 1);
                let e = tv[i as int];
                if t0.contains(e) {
                    let w = choose|w: int| 0 <= w < t0.len() && t0[w] == e;
                    assert(t1[w] == e);
                }
                if lv[j as int] == e {
                    assert(t1[j as int] == e);
                }
                if t1.contains(e) {
                    let w = choose|w: int| 0 <= w < t1.len() && t1[w] == e;
                    if w < j {
                        assert(t0[w] == e);
                    }
                }
            }
            j += 1;
        }
        assert(lv.take(lv.len() as int) =~= lv);
        if hit && eq(tokens[i + 1].as_slice(), ns.as_slice()) {
            return true;
        }
        i += 1;
    }
    false
}

fn two(a: &str, b: &str) -> (r: Vec<Vec<char>>)
    ensures
        views(r@) == seq![a@, b@],
{
    let mut v: Vec<Vec<char>> = Vec::new();
    v.push(chars_of(a));
    v.push(chars_of(b));
    assert(views(v@) =~= seq![a@, b@]);
    v
}

/// Whether a normalized caption contains the numbered label of `section` `n`.
pub open spec fn caption_label(normalized: Seq<char>, section: Seq<char>, n: nat) -> bool {
    let tokens = words(normalized);
    let num = dec(n);
    if section == "figure"@ {
        label_in_tokens(tokens, seq!["figure"@, "fig"@], num)
    } else if section == "table"@ {
        label_in_tokens(tokens, seq!["table"@, "tab"@], num)
    } else if section == "algorithm"@ {
        label_in_tokens(tokens, seq!["algorithm"@, "alg"@], num)
    } else if section == "formula"@ {
        let paren = "("@ + num + ")"@;
        tokens.contains(num) || tokens.contains(paren) || contains(
            normalized,
            "( "@ + num + " )"@,
        ) || contains(normalized, paren)
    } else {
        false
    }
}

fn any_token_eq(tokens: &Vec<Vec<char>>, x: &[char]) -> (r: bool)
    ensures
        r == views(tokens@).contains(x@),
{
    let mut i: usize = 0;
    while i < tokens.len()
        invariant
            i <= tokens@.len(),
            forall|k: int| 0 <= k < i ==> #[trigger] views(tokens@)[k] != x@,
        decreases tokens.len() - i,
    {
        if eq(tokens[i].as_slice(), x) {
            assert(views(tokens@)[i as int] == x@);
            return true;
        }
        i += 1;
    }
    false
}

/// True when a normalized caption contains a numbered label for `section`/`n`
/// (e.g. `model overview fig 3 is trained` matches figure 3). Token
/// boundaries keep `fig 1` from matching `fig 10`.
pub fn caption_contains_numbered_label(normalized: &str, section: &str, n: usize) -> (r: bool)
    ensures
        r == caption_label(normalized@, section@, n as nat),
{
    let norm = chars_of(normalized);
    let sec = chars_of(section);
    let tokens = words_exec(norm.as_slice());
    if eq_str(sec.as_slice(), "figure") {
        numbered_label_in_tokens(&tokens, &two("figure", "fig"), n)
    } else if eq_str(sec.as_slice(), "table") {
        numbered_label_in_tokens(&tokens, &two("table", "tab"), n)
    } else if eq_str(sec.as_slice(), "algorithm") {
        numbered_label_in_tokens(&tokens, &two("algorithm", "alg"), n)
    } else if eq_str(sec.as_slice(), "formula") {
        let num = dec_exec(n as u64);
        let mut paren = lit("(");
        push_all(&mut paren, num.as_slice());
        push_all(&mut paren, lit(")").as_slice());
        let mut spaced = lit("( ");
        push_all(&mut spaced, num.as_slice());
        push_all(&mut spaced, lit(" )").as_slice());
        any_token_eq(&tokens, num.as_slice()) || any_token_eq(&tokens, paren.as_slice())
            || contains_exec(norm.as_slice(), spaced.as_slice()) || contains_exec(
            norm.as_slice(),
            paren.as_slice(),
        )
    } else {
        false
    }
}

} // verus!
