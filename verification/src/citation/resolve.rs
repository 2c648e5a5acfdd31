//! Choosing what a citation fragment points at, given the paper's layout data.
use vstd::prelude::*;
use crate::citation::headings::{
    caption_contains_numbered_label, caption_label, header_matches, header_matches_section_number,
    normalize_caption_title, normalize_heading, normalized_caption, normalized_heading,
    section_needle_aliases,
};
use crate::citation::labels::{parse_section_number, section_number};
use crate::citation::similarity::{
    heading_score, heading_similarity, score_at_least_threshold, score_greater, score_gt,
    score_passes, score_view, Score,
};
use crate::text::{
    chars_of, dec, dec_exec, eq, eq_str, lemma_lex_irreflexive, lit, push_all, string_of,
    string_views, strictly_sorted,
};

verus! {

/// One region of a paper's raw layout (`source/layout.json`), without its box.
pub struct LayoutRegion {
    pub id: String,
    pub page_index: u32,
    pub kind: String,
    pub title: Option<String>,
    pub text: Option<String>,
}

/// One entry of a paper's sidebar index (`source/layout-index.json`), without its box.
pub struct LayoutIndexItem {
    pub id: String,
    pub section: String,
    pub page_index: u32,
    pub title: Option<String>,
    pub layout_region_id: String,
}

/// The text a region is matched by: its title, else its text, else nothing.
pub open spec fn region_label(r: LayoutRegion) -> Seq<char> {
    match r.title {
        Some(t) => t@,
        None => match r.text {
            Some(x) => x@,
            None => Seq::<char>::empty(),
        },
    }
}

pub open spec fn is_header(r: LayoutRegion) -> bool {
    r.kind@ == "header"@
}

/// First header at or after `i` carrying the marker of section `n`.
pub open spec fn first_marker(regions: Seq<LayoutRegion>, n: nat, i: int) -> Option<int>
    decreases regions.len() - i,
{
    if i < 0 || i >= regions.len() {
        None
    } else if is_header(regions[i]) && header_matches(region_label(regions[i]), n) {
        Some(i)
    } else {
        first_marker(regions, n, i + 1)
    }
}

/// First header at or after `i` whose normalized label equals `needle`.
pub open spec fn first_exact(regions: Seq<LayoutRegion>, needle: Seq<char>, i: int) -> Option<int>
    decreases regions.len() - i,
{
    if i < 0 || i >= regions.len() {
        None
    } else if is_header(regions[i]) && normalized_heading(region_label(regions[i])) == needle {
        Some(i)
    } else {
        first_exact(regions, needle, i + 1)
    }
}

/// Score of a region's label against `needle`, never below 0.
pub open spec fn region_score(r: LayoutRegion, needle: Seq<char>) -> (int, int) {
    let s = heading_score(needle, normalized_heading(region_label(r)));
    if score_gt(s, (0, 1)) {
        s
    } else {
        (0, 1)
    }
}

/// Among the first `k` regions, the first header of greatest score, if that
/// score is at least 0.35.
pub open spec fn best_upto(regions: Seq<LayoutRegion>, needle: Seq<char>, k: int) -> Option<int>
    decreases k,
{
    if k <= 0 || k > regions.len() {
        None
    } else {
        let prev = best_upto(regions, needle, k - 1);
        let r = regions[k - 1];
        if !(is_header(r) && score_passes(region_score(r, needle))) {
            prev
        } else {
            match prev {
                None => Some(k - 1),
                Some(p) => if score_gt(region_score(r, needle), region_score(regions[p], needle)) {
                    Some(k - 1)
                } else {
                    prev
                },
            }
        }
    }
}

/// The region a `#section=…` citation resolves to, if any.
///
/// A section number (`3`, `III`) resolves only through an explicit header
/// marker. Any other heading resolves to the first header whose normalized
/// text equals it, else to the first best-scoring header scoring at least 0.35.
pub open spec fn section_choice(regions: Seq<LayoutRegion>, heading: Seq<char>) -> Option<int> {
    let needle = normalized_heading(heading);
    match section_number(needle) {
        Some(n) => first_marker(regions, n as nat, 0),
        None => match first_exact(regions, needle, 0) {
            Some(i) => Some(i),
            None => best_upto(regions, needle, regions.len() as int),
        },
    }
}

fn label_of(r: &LayoutRegion) -> (s: &str)
    ensures
        s@ == region_label(*r),
{
    match &r.title {
        Some(t) => t.as_str(),
        None => match &r.text {
            Some(x) => x.as_str(),
            None => {
                let e = "";
                proof {
                    reveal_strlit("");
                }
                assert(e@ =~= Seq::<char>::empty());
                e
            },
        },
    }
}

fn region_is_header(r: &LayoutRegion) -> (b: bool)
    ensures
        b == is_header(*r),
{
    let k = chars_of(r.kind.as_str());
    eq_str(k.as_slice(), "header")
}

/// A strictly sorted sequence whose set is `{x}` is `[x]`.
proof fn lemma_sorted_singleton(s: Seq<Seq<char>>, x: Seq<char>)
    requires
        strictly_sorted(s),
        s.to_set() == seq![x].to_set(),
    ensures
        s == seq![x],
{
    assert(seq![x].to_set().contains(x)) by {
        assert(seq![x][0] == x);
    }
    assert(s.contains(x));
    assert forall|i: int| 0 <= i < s.len() implies s[i] == x by {
        assert(s.to_set().contains(s[i]));
        let w = choose|w: int| 0 <= w < 1 && seq![x][w] == s[i];
    }
    if s.len() > 1 {
        assert(s[0] == x && s[1] == x);
        lemma_lex_irreflexive(x);
        assert(crate::text::lex_lt(s[0], s[1]));
    }
    assert(s =~= seq![x]);
}

/// Index of the region a `#section=<heading>` citation resolves to.
pub fn resolve_section_index(regions: &Vec<LayoutRegion>, heading: &str) -> (r: Option<usize>)
    ensures
        match r {
            Some(i) => section_choice(regions@, heading@) == Some(i as int),
            None => section_choice(regions@, heading@) is None,
        },
{
    let needle_s = normalize_heading(heading);
    let needle = needle_s.as_str();
    let needles = section_needle_aliases(needle);
    // Prefer IEEE/roman section markers (e.g. `#section=3` → `III. …`) over
    // bare digit substring matches that OCR noise can trigger on page 1.
    // Pure numbers / roman numerals only resolve via these markers.
    if let Some(n) = parse_section_number(needle) {
        let mut i: usize = 0;
        while i < regions.len()
            invariant
                i <= regions@.len(),
                section_number(normalized_heading(heading@)) == Some(n as int),
                first_marker(regions@, n as nat, 0) == first_marker(regions@, n as nat, i as int),
            decreases regions.len() - i,
        {
            if region_is_header(&regions[i]) && header_matches_section_number(
                label_of(&regions[i]),
                n,
            ) {
                return Some(i);
            }
            i += 1;
        }
        return None;
    }
    proof {
        lemma_sorted_singleton(string_views(needles@), needle@);
    }
    assert(string_views(needles@).len() == needles@.len());
    let nv = chars_of(needle);
    let mut best: Option<(usize, Score)> = None;
    let mut k: usize = 0;
    while k < regions.len()
        invariant
            k <= regions@.len(),
            needle@ == normalized_heading(heading@),
            section_number(needle@) is None,
            string_views(needles@) == seq![needle@],
            needles@.len() == 1,
            nv@ == needle@,
            first_exact(regions@, needle@, 0) == first_exact(regions@, needle@, k as int),
            match best {
                Some((p, sc)) => p < k && best_upto(regions@, needle@, k as int) == Some(p as int)
                    && score_view(sc) == region_score(regions@[p as int], needle@) && sc.den > 0,
                None => best_upto(regions@, needle@, k as int) is None,
            },
        decreases regions.len() - k,
    {
        let region = &regions[k];
        if region_is_header(region) {
            let normalized = normalize_heading(label_of(region));
            let norm_v = chars_of(normalized.as_str());
            let mut exact = false;
            let mut j: usize = 0;
            while j < needles.len()
                invariant
                    j <= needles@.len(),
                    string_views(needles@) == seq![needle@],
                    needles@.len() == 1,
                    norm_v@ == normalized@,
                    exact == (j > 0 && norm_v@ == needle@),
                decreases needles.len() - j,
            {
                let cand = chars_of(needles[j].as_str());
                assert(string_views(needles@)[j as int] == needles@[j as int]@);
                if eq(cand.as_slice(), norm_v.as_slice()) {
                    exact = true;
                }
                j += 1;
            }
            if exact {
                return Some(k);
            }
            let mut score = Score { num: 0, den: 1 };
            let mut j: usize = 0;
            while j < needles.len()
                invariant
                    j <= needles@.len(),
                    k < regions@.len(),
                    string_views(needles@) == seq![needle@],
                    needles@.len() == 1,
                    normalized@ == normalized_heading(region_label(regions@[k as int])),
                    score.den > 0,
                    j == 0 ==> score_view(score) == (0int, 1int),
                    j > 0 ==> score_view(score) == region_score(regions@[k as int], needle@),
                decreases needles.len() - j,
            {
                assert(string_views(needles@)[j as int] == needles@[j as int]@);
                let s = heading_similarity(needles[j].as_str(), normalized.as_str());
                if score_greater(s, score) {
                    score = s;
                }
                j += 1;
            }
            if score_at_least_threshold(score) {
                match best {
                    None => {
                        best = Some((k, score));
                    },
                    Some((p, b)) => {
                        if score_greater(score, b) {
                            best = Some((k, score));
                        }
                    },
                }
            }
        }
        k += 1;
    }
    match best {
        Some((p, _)) => Some(p),
        None => None,
    }
}

/// Whether a sidebar item carries the numbered citation `section` `n`: same
/// section, and either the id `section-n` or the numbered label in its caption.
pub open spec fn item_matches(item: LayoutIndexItem, section: Seq<char>, n: nat) -> bool {
    item.section@ == section && (item.id@ == section + "-"@ + dec(n) || caption_label(
        normalized_caption(
            match item.title {
                Some(t) => t@,
                None => Seq::<char>::empty(),
            },
        ),
        section,
        n,
    ))
}

/// Whether `item` is the numbered `section` `n` (see `item_matches`).
pub fn item_matches_numbered_citation(item: &LayoutIndexItem, section: &str, n: usize) -> (r: bool)
    ensures
        r == item_matches(*item, section@, n as nat),
{
    let sec = chars_of(section);
    let item_sec = chars_of(item.section.as_str());
    if !eq(item_sec.as_slice(), sec.as_slice()) {
        return false;
    }
    let mut likely = slice_of_all(sec.as_slice());
    push_all(&mut likely, lit("-").as_slice());
    push_all(&mut likely, dec_exec(n as u64).as_slice());
    let id = chars_of(item.id.as_str());
    if eq(id.as_slice(), likely.as_slice()) {
        return true;
    }
    let title: &str = match &item.title {
        Some(t) => t.as_str(),
        None => {
            let e = "";
            proof {
                reveal_strlit("");
            }
            assert(e@ =~= Seq::<char>::empty());
            e
        },
    };
    let normalized = normalize_caption_title(title);
    caption_contains_numbered_label(normalized.as_str(), section, n)
}

fn slice_of_all(s: &[char]) -> (r: Vec<char>)
    ensures
        r@ == s@,
{
    let r = crate::text::slice_of(s, 0, s.len());
    assert(s@.subrange(0, s@.len() as int) =~= s@);
    r
}

/// The id a sidebar entry for `section` `n` most likely has (`figure-1`).
pub fn likely_region_id(section: &str, n: usize) -> (r: String)
    ensures
        r@ == section@ + "-"@ + dec(n as nat),
{
    let mut v = chars_of(section);
    push_all(&mut v, lit("-").as_slice());
    push_all(&mut v, dec_exec(n as u64).as_slice());
    string_of(v.as_slice())
}

/// First item at or after `i` carrying the numbered citation.
pub open spec fn first_item(items: Seq<LayoutIndexItem>, section: Seq<char>, n: nat, i: int) -> Option<
    int,
>
    decreases items.len() - i,
{
    if i < 0 || i >= items.len() {
        None
    } else if item_matches(items[i], section, n) {
        Some(i)
    } else {
        first_item(items, section, n, i + 1)
    }
}

/// Index of the first sidebar item that is the numbered `section` `n`.
pub fn first_numbered_item(items: &Vec<LayoutIndexItem>, section: &str, n: usize) -> (r: Option<
    usize,
>)
    ensures
        match r {
            Some(i) => first_item(items@, section@, n as nat, 0) == Some(i as int),
            None => first_item(items@, section@, n as nat, 0) is None,
        },
{
    let mut i: usize = 0;
    while i < items.len()
        invariant
            i <= items@.len(),
            first_item(items@, section@, n as nat, 0) == first_item(
                items@,
                section@,
                n as nat,
                i as int,
            ),
        decreases items.len() - i,
    {
        if item_matches_numbered_citation(&items[i], section, n) {
            return Some(i);
        }
        i += 1;
    }
    None
}

proof fn lemma_first_marker_bounds(regions: Seq<LayoutRegion>, n: nat, i: int)
    ensures
        first_marker(regions, n, i) matches Some(k) ==> 0 <= k < regions.len(),
    decreases regions.len() - i,
{
    if 0 <= i < regions.len() && !(is_header(regions[i]) && header_matches(
        region_label(regions[i]),
        n,
    )) {
        lemma_first_marker_bounds(regions, n, i + 1);
    }
}

proof fn lemma_first_exact_bounds(regions: Seq<LayoutRegion>, needle: Seq<char>, i: int)
    ensures
        first_exact(regions, needle, i) matches Some(k) ==> 0 <= k < regions.len(),
    decreases regions.len() - i,
{
    if 0 <= i < regions.len() && !(is_header(regions[i]) && normalized_heading(
        region_label(regions[i]),
    ) == needle) {
        lemma_first_exact_bounds(regions, needle, i + 1);
    }
}

proof fn lemma_best_upto_bounds(regions: Seq<LayoutRegion>, needle: Seq<char>, k: int)
    ensures
        best_upto(regions, needle, k) matches Some(p) ==> 0 <= p < k && p < regions.len(),
    decreases k,
{
    if 0 < k <= regions.len() {
        lemma_best_upto_bounds(regions, needle, k - 1);
    }
}

/// The region a section citation resolves to lies in the layout.
pub proof fn lemma_section_choice_bounds(regions: Seq<LayoutRegion>, heading: Seq<char>)
    ensures
        section_choice(regions, heading) matches Some(i) ==> 0 <= i < regions.len(),
{
    let needle = normalized_heading(heading);
    match section_number(needle) {
        Some(n) => lemma_first_marker_bounds(regions, n as nat, 0),
        None => {
            lemma_first_exact_bounds(regions, needle, 0);
            lemma_best_upto_bounds(regions, needle, regions.len() as int);
        },
    }
}


/// A header whose score against `needle` passes the 0.35 bar.
pub open spec fn fuzzy_candidate(r: LayoutRegion, needle: Seq<char>) -> bool {
    is_header(r) && score_passes(region_score(r, needle))
}

proof fn lemma_region_score_den(r: LayoutRegion, needle: Seq<char>)
    ensures
        region_score(r, needle).1 > 0,
{
    let text = normalized_heading(region_label(r));
    assert(heading_score(needle, text).1 > 0);
}

/// Scores with positive denominators are ordered as their ratios.
proof fn lemma_score_order(a: (int, int), b: (int, int), c: (int, int))
    requires
        a.1 > 0,
        b.1 > 0,
        c.1 > 0,
    ensures
        score_gt(a, b) && !score_gt(c, b) ==> score_gt(a, c),
        !score_gt(a, a),
{
    if score_gt(a, b) && !score_gt(c, b) {
        assert(a.0 * c.1 > c.0 * a.1) by (nonlinear_arith)
            requires
                a.0 * b.1 > b.0 * a.1,
                c.0 * b.1 <= b.0 * c.1,
                a.1 > 0,
                b.1 > 0,
                c.1 > 0,
        ;
    }
}

/// Law: among the first `k` regions, the fuzzy match is a header that passes
/// the 0.35 bar and that no passing header outscores, and the first such in
/// file order (every passing header before it scores strictly less); with
/// no passing header there is none.
pub proof fn lemma_best_upto_is_first_best(regions: Seq<LayoutRegion>, needle: Seq<char>, k: int)
    requires
        0 <= k <= regions.len(),
    ensures
        match best_upto(regions, needle, k) {
            Some(b) => {
                &&& 0 <= b < k
                &&& fuzzy_candidate(regions[b], needle)
                &&& forall|j: int|
                    0 <= j < k && fuzzy_candidate(#[trigger] regions[j], needle) ==> !score_gt(
                        region_score(regions[j], needle),
                        region_score(regions[b], needle),
                    )
                &&& forall|j: int|
                    0 <= j < b && fuzzy_candidate(#[trigger] regions[j], needle) ==> score_gt(
                        region_score(regions[b], needle),
                        region_score(regions[j], needle),
                    )
            },
            None => forall|j: int| 0 <= j < k ==> !fuzzy_candidate(#[trigger] regions[j], needle),
        },
    decreases k,
{
    if k > 0 {
        lemma_best_upto_is_first_best(regions, needle, k - 1);
        let prev = best_upto(regions, needle, k - 1);
        let r = regions[k - 1];
        let sr = region_score(r, needle);
        lemma_region_score_den(r, needle);
        lemma_score_order(sr, sr, sr);
        if fuzzy_candidate(r, needle) {
            if let Some(p) = prev {
                let sp = region_score(regions[p], needle);
                lemma_region_score_den(regions[p], needle);
                if score_gt(sr, sp) {
                    assert forall|j: int|
                        0 <= j < k && fuzzy_candidate(#[trigger] regions[j], needle) implies !score_gt(
                        region_score(regions[j], needle),
                        sr,
                    ) && (j < k - 1 ==> score_gt(sr, region_score(regions[j], needle))) by {
                        let sj = region_score(regions[j], needle);
                        lemma_region_score_den(regions[j], needle);
                        if j < k - 1 {
                            lemma_score_order(sr, sp, sj);
                            if score_gt(sj, sr) {
                                lemma_score_order(sj, sr, sp);
                            }
                        }
                    }
                }
            }
        }
    }
}

/// The first header, from `i` on, whose normalized label is `needle`.
proof fn lemma_first_exact_is_first(regions: Seq<LayoutRegion>, needle: Seq<char>, i: int)
    requires
        0 <= i <= regions.len(),
    ensures
        match first_exact(regions, needle, i) {
            Some(e) => i <= e < regions.len() && is_header(regions[e]) && normalized_heading(
                region_label(regions[e]),
            ) == needle && forall|j: int|
                i <= j < e ==> !(is_header(#[trigger] regions[j]) && normalized_heading(
                    region_label(regions[j]),
                ) == needle),
            None => forall|j: int|
                i <= j < regions.len() ==> !(is_header(#[trigger] regions[j]) && normalized_heading(
                    region_label(regions[j]),
                ) == needle),
        },
    decreases regions.len() - i,
{
    if i < regions.len() {
        lemma_first_exact_is_first(regions, needle, i + 1);
    }
}

/// Law: a section cited by name (not by number) resolves to the first header
/// whose normalized label is the normalized name; without one, to the fuzzy
/// match of [`lemma_best_upto_is_first_best`] over the whole layout.
pub proof fn lemma_section_by_name(regions: Seq<LayoutRegion>, heading: Seq<char>)
    requires
        section_number(normalized_heading(heading)) is None,
    ensures
        ({
            let needle = normalized_heading(heading);
            match first_exact(regions, needle, 0) {
                Some(e) => section_choice(regions, heading) == Some(e) && is_header(regions[e])
                    && normalized_heading(region_label(regions[e])) == needle && forall|j: int|
                    0 <= j < e ==> !(is_header(#[trigger] regions[j]) && normalized_heading(
                        region_label(regions[j]),
                    ) == needle),
                None => section_choice(regions, heading) == best_upto(
                    regions,
                    needle,
                    regions.len() as int,
                ),
            }
        }),
{
    lemma_first_exact_is_first(regions, normalized_heading(heading), 0);
}

} // verus!
