//! Fuzzy heading similarity, as an exact ratio of token counts.
use vstd::prelude::*;
use crate::text::{
    all_digits, all_digits_exec, byte_len, byte_len_exec, contains, contains_exec, contains_str,
    eq, views, words, words_exec,
};

verus! {

/// A similarity score `num / den` between 0 and 1 (`den > 0`).
#[derive(Clone, Copy, Debug)]
pub struct Score {
    pub num: usize,
    pub den: usize,
}

/// The distinct whitespace-separated tokens of `s`.
pub open spec fn token_set(s: Seq<char>) -> Set<Seq<char>> {
    words(s).to_set()
}

/// How well `needle` matches a normalized heading `text`:
/// 1 for equality or containment (bare one- or two-digit needles excepted, 0),
/// 9/10 when a dotted number's tokens all occur as tokens of `text`, and
/// otherwise the share of the needle's distinct tokens that occur in `text`
/// (0 for a needle of a single token of at most two bytes).
pub open spec fn heading_score(needle: Seq<char>, text: Seq<char>) -> (int, int) {
    if text == needle {
        (1, 1)
    } else if contains(text, needle) {
        if all_digits(needle) && byte_len(needle) <= 2 {
            (0, 1)
        } else {
            (1, 1)
        }
    } else if contains(needle, "."@) && (forall|k: int|
        0 <= k < words(needle).len() ==> words(text).contains(#[trigger] words(needle)[k])) {
        (9, 10)
    } else {
        let ns = token_set(needle);
        let ts = token_set(text);
        if ns.len() == 0 {
            (0, 1)
        } else if ns.len() == 1 && (forall|t: Seq<char>| ns.contains(t) ==> byte_len(t) <= 2) {
            (0, 1)
        } else {
            (ns.intersect(ts).len() as int, ns.len() as int)
        }
    }
}

/// `a > b` as ratios.
pub open spec fn score_gt(a: (int, int), b: (int, int)) -> bool {
    a.0 * b.1 > b.0 * a.1
}

/// `a >= 0.35`.
pub open spec fn score_passes(a: (int, int)) -> bool {
    20 * a.0 >= 7 * a.1
}

pub open spec fn score_view(s: Score) -> (int, int) {
    (s.num as int, s.den as int)
}

/// `a > b` on two scores.
pub fn score_greater(a: Score, b: Score) -> (r: bool)
    ensures
        r == score_gt(score_view(a), score_view(b)),
{
    let an = a.num as u128;
    let ad = a.den as u128;
    let bn = b.num as u128;
    let bd = b.den as u128;
    assert(an * bd <= 0xFFFF_FFFF_FFFF_FFFF * 0xFFFF_FFFF_FFFF_FFFF) by (nonlinear_arith)
        requires
            an <= 0xFFFF_FFFF_FFFF_FFFF,
            bd <= 0xFFFF_FFFF_FFFF_FFFF,
    ;
    assert(bn * ad <= 0xFFFF_FFFF_FFFF_FFFF * 0xFFFF_FFFF_FFFF_FFFF) by (nonlinear_arith)
        requires
            bn <= 0xFFFF_FFFF_FFFF_FFFF,
            ad <= 0xFFFF_FFFF_FFFF_FFFF,
    ;
    an * bd > bn * ad
}

/// `a >= 0.35`.
pub fn score_at_least_threshold(a: Score) -> (r: bool)
    ensures
        r == score_passes(score_view(a)),
{
    20 * (a.num as u128) >= 7 * (a.den as u128)
}

fn seq_has(v: &Vec<Vec<char>>, x: &[char]) -> (r: bool)
    ensures
        r == views(v@).contains(x@),
{
    let mut i: usize = 0;
    while i < v.len()
        invariant
            i <= v@.len(),
            forall|k: int| 0 <= k < i ==> #[trigger] views(v@)[k] != x@,
        decreases v.len() - i,
    {
        if eq(v[i].as_slice(), x) {
            assert(views(v@)[i as int] == x@);
            return true;
        }
        i += 1;
    }
    false
}

/// The distinct tokens of `toks`, in first-occurrence order.
fn distinct(toks: &Vec<Vec<char>>) -> (r: Vec<Vec<char>>)
    ensures
        views(r@).no_duplicates(),
        views(r@).to_set() == views(toks@).to_set(),
{
    let mut out: Vec<Vec<char>> = Vec::new();
    let mut k: usize = 0;
    while k < toks.len()
        invariant
            k <= toks@.len(),
            views(out@).no_duplicates(),
            views(out@).to_set() == views(toks@).take(k as int).to_set(),
        decreases toks.len() - k,
    {
        let ghost prev = views(out@);
        proof {
            assert(views(toks@).take(k + 1) =~= views(toks@).take(k as int) + seq![
                views(toks@)[k as int],
            ]);
            Seq::lemma_to_set_insert_commutes(views(toks@).take(k as int), views(toks@)[k as int]);
        }
        if !seq_has(&out, toks[k].as_slice()) {
            out.push(crate::text::slice_of(toks[k].as_slice(), 0, toks[k].len()));
            proof {
                assert(toks@[k as int]@.subrange(0, toks@[k as int]@.len() as int) =~= toks@[k as int]@);
                assert(views(out@) =~= prev + seq![views(toks@)[k as int]]);
                Seq::lemma_to_set_insert_commutes(prev, views(toks@)[k as int]);
            }
        } else {
            assert(prev.to_set().insert(views(toks@)[k as int]) =~= prev.to_set());
        }
        k += 1;
    }
    assert(views(toks@).take(toks@.len() as int) =~= views(toks@));
    out
}

/// Number of elements of `d` that occur in `t`.
fn count_in(d: &Vec<Vec<char>>, t: &Vec<Vec<char>>) -> (r: usize)
    ensures
        r == views(d@).filter(|x: Seq<char>| views(t@).contains(x)).len(),
{
    let ghost pred = |x: Seq<char>| views(t@).contains(x);
    let mut c: usize = 0;
    let mut j: usize = 0;
    while j < d.len()
        invariant
            j <= d@.len(),
            c <= j,
            pred == (|x: Seq<char>| views(t@).contains(x)),
            c == views(d@).take(j as int).filter(pred).len(),
        decreases d.len() - j,
    {
        assert(views(d@).take(j + 1).drop_last() =~= views(d@).take(j as int));
        reveal_with_fuel(Seq::filter, 1);
        if seq_has(t, d[j].as_slice()) {
            c += 1;
        }
        j += 1;
    }
    assert(views(d@).take(d@.len() as int) =~= views(d@));
    c
}

proof fn lemma_filter_set(d: Seq<Seq<char>>, t: Seq<Seq<char>>, p: spec_fn(Seq<char>) -> bool)
    requires
        d.no_duplicates(),
        forall|x: Seq<char>| #[trigger] p(x) == t.contains(x),
    ensures
        d.filter(p).len() == d.to_set().intersect(t.to_set()).len(),
{
    let f = d.filter(p);
    assert(f.no_duplicates()) by {
        assert forall|i: int, j: int| 0 <= i < f.len() && 0 <= j < f.len() && i != j implies f[i]
            != f[j] by {
            lemma_filter_distinct(d, p, i, j);
        }
    }
    assert(f.to_set() =~= d.to_set().intersect(t.to_set())) by {
        assert forall|x: Seq<char>| f.to_set().contains(x) == d.to_set().intersect(
            t.to_set(),
        ).contains(x) by {
            if f.contains(x) {
                d.lemma_filter_contains_rev(p, x);
                let k = choose|k: int| 0 <= k < f.len() && f[k] == x;
                d.lemma_filter_pred(p, k);
            }
            if d.contains(x) && t.contains(x) {
                let i = choose|i: int| 0 <= i < d.len() && d[i] == x;
                d.lemma_filter_contains(p, i);
            }
        }
    }
    f.unique_seq_to_set();
}

proof fn lemma_filter_distinct(d: Seq<Seq<char>>, p: spec_fn(Seq<char>) -> bool, i: int, j: int)
    requires
        d.no_duplicates(),
        0 <= i < d.filter(p).len(),
        0 <= j < d.filter(p).len(),
        i != j,
    ensures
        d.filter(p)[i] != d.filter(p)[j],
    decreases d.len(),
{
    reveal_with_fuel(Seq::filter, 1);
    let d0 = d.drop_last();
    assert(d0.no_duplicates());
    let f0 = d0.filter(p);
    if p(d.last()) {
        assert(d.filter(p) == f0.push(d.last()));
        if i < f0.len() && j < f0.len() {
            lemma_filter_distinct(d0, p, i, j);
        } else {
            let k = if i < f0.len() {
                i
            } else {
                j
            };
            assert(f0.contains(f0[k]));
            d0.lemma_filter_contains_rev(p, f0[k]);
            let w = choose|w: int| 0 <= w < d0.len() && d0[w] == f0[k];
            assert(d[w] == d0[w]);
            assert(d[d.len() - 1] == d.last());
        }
    } else {
        assert(d.filter(p) == f0);
        lemma_filter_distinct(d0, p, i, j);
    }
}

/// Similarity of a needle to a normalized heading (see `heading_score`).
pub fn heading_similarity(needle: &str, text: &str) -> (r: Score)
    ensures
        score_view(r) == heading_score(needle@, text@),
        r.den > 0,
{
    let nd = crate::text::chars_of(needle);
    let tx = crate::text::chars_of(text);
    // Exact substring match is preferred, but reject bare digit needles that
    // merely appear inside longer OCR tokens / citations.
    if eq(tx.as_slice(), nd.as_slice()) {
        return Score { num: 1, den: 1 };
    }
    if contains_exec(tx.as_slice(), nd.as_slice()) {
        if all_digits_exec(nd.as_slice()) && byte_len_exec(nd.as_slice()) <= 2 {
            return Score { num: 0, den: 1 };
        }
        return Score { num: 1, den: 1 };
    }
    let nw = words_exec(nd.as_slice());
    let tw = words_exec(tx.as_slice());
    // Number-only needle ("2.3") also matches as a standalone token.
    if contains_str(nd.as_slice(), ".") {
        let mut all = true;
        let mut k: usize = 0;
        while k < nw.len()
            invariant
                k <= nw@.len(),
                all == (forall|m: int| 0 <= m < k ==> views(tw@).contains(#[trigger] views(nw@)[m])),
            decreases nw.len() - k,
        {
            if !seq_has(&tw, nw[k].as_slice()) {
                all = false;
            }
            proof {
                if !views(tw@).contains(views(nw@)[k as int]) {
                    assert(!(forall|m: int| 0 <= m < k + 1 ==> views(tw@).contains(
                        #[trigger] views(nw@)[m],
                    )));
                }
            }
            k += 1;
        }
        if all {
            return Score { num: 9, den: 10 };
        }
    }
    // Token overlap for headings with extra words.
    let d = distinct(&nw);
    proof {
        views(d@).unique_seq_to_set();
    }
    if d.len() == 0 {
        return Score { num: 0, den: 1 };
    }
    // Single short token needles are too ambiguous for overlap scoring.
    if d.len() == 1 {
        proof {
            assert forall|t: Seq<char>| views(d@).to_set().contains(t) implies t == views(d@)[0] by {}
            assert(views(d@).to_set().contains(views(d@)[0]));
        }
        if byte_len_exec(d[0].as_slice()) <= 2 {
            return Score { num: 0, den: 1 };
        }
    }
    let c = count_in(&d, &tw);
    proof {
        lemma_filter_set(views(d@), views(tw@), |x: Seq<char>| views(tw@).contains(x));
    }
    Score { num: c, den: d.len() }
}

} // verus!
