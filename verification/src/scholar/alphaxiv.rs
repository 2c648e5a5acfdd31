//! alphaXiv public JSON API source: request URLs and the mapping of its
//! preview / search items to paper records.
//!
//! alphaXiv is an arXiv mirror/discovery layer, not a bibliographic
//! authority: a best-effort backup source whose failures degrade to the next
//! source in the chain.
use vstd::prelude::*;
use crate::text::{
    all_digits, all_digits_exec, byte_prefix, byte_prefix_exec, chars_of, is_alnum, lit, parse_i32,
    push_all, rfind, rfind_exec, slice_of, string_of, trim, trim_exec, lemma_rfind_upto_sound,
};

verus! {

/// Name the source reports.
pub const SOURCE: &'static str = "alphaxiv";
/// Root of the alphaXiv API.
pub const API_BASE: &'static str = "https://api.alphaxiv.org";

/// What a metadata source can do.
#[derive(Debug, Clone, Copy, PartialEq, Eq)]
pub struct ApiCapability {
    pub fetch_by_arxiv: bool,
    pub search_by_title: bool,
    pub provide_abstract: bool,
}

/// alphaXiv metadata source (best-effort backup).
#[derive(Debug, Clone, Default)]
pub struct AlphaxivApi;

impl AlphaxivApi {
    /// The source's name.
    pub fn name(&self) -> (r: &'static str)
        ensures
            r@ == SOURCE@,
    {
        SOURCE
    }

    /// Lookup by arXiv id, search by title, and abstracts.
    pub fn capabilities(&self) -> (r: ApiCapability)
        ensures
            r.fetch_by_arxiv && r.search_by_title && r.provide_abstract,
    {
        ApiCapability { fetch_by_arxiv: true, search_by_title: true, provide_abstract: true }
    }

    /// Rank among sources (a backup, below the bibliographic authorities).
    pub fn priority(&self) -> (r: i32)
        ensures
            r == 50,
    {
        50
    }
}

/// Identifiers of a paper record.
#[derive(Debug, Clone, PartialEq, Eq)]
pub struct PaperIdentifiers {
    pub doi: Option<String>,
    pub arxiv_id: Option<String>,
    pub isbn: Option<String>,
    pub pmid: Option<String>,
}

/// Links of a paper record.
#[derive(Debug, Clone, PartialEq, Eq)]
pub struct PaperUrls {
    pub pdf: Option<String>,
    pub html: Option<String>,
    pub landing: Option<String>,
}

/// A paper record from a metadata source.
#[derive(Debug, Clone, PartialEq, Eq)]
pub struct ApiPaper {
    pub identifiers: PaperIdentifiers,
    pub title: String,
    pub authors: Vec<String>,
    pub year: Option<i32>,
    pub date: Option<String>,
    pub venue: Option<String>,
    pub volume: Option<String>,
    pub issue: Option<String>,
    pub pages: Option<String>,
    pub publisher: Option<String>,
    pub abstract_text: Option<String>,
    pub urls: PaperUrls,
    pub citation_count: Option<u64>,
    pub language: Option<String>,
    pub source: String,
}

/// What the mapper reads from one alphaXiv JSON item: each field's string
/// value when it is a JSON string, and for `authors` (when an array) each
/// element's string value when it is a string.
#[derive(Debug, Clone)]
pub struct PaperItem {
    pub title: Option<String>,
    pub universal_paper_id: Option<String>,
    pub authors: Option<Vec<Option<String>>>,
    pub publication_date: Option<String>,
    pub abstract_text: Option<String>,
}

/// The trimmed text when it is not blank.
pub open spec fn nonblank(o: Option<Seq<char>>) -> Option<Seq<char>> {
    match o {
        Some(s) => if trim(s).len() > 0 {
            Some(trim(s))
        } else {
            None
        },
        None => None,
    }
}

/// The string elements, in order.
pub open spec fn somes(v: Seq<Option<Seq<char>>>) -> Seq<Seq<char>>
    decreases v.len(),
{
    if v.len() == 0 {
        Seq::empty()
    } else {
        somes(v.drop_last()) + match v.last() {
            Some(x) => seq![x],
            None => Seq::empty(),
        }
    }
}

/// The authors an item lists (none when `authors` is not an array).
pub open spec fn item_authors(a: Option<Seq<Option<Seq<char>>>>) -> Seq<Seq<char>> {
    match a {
        Some(v) => somes(v),
        None => Seq::empty(),
    }
}

/// Year of an ISO 8601 date: its first four bytes parsed as `i32`.
pub open spec fn year_of(date: Option<Seq<char>>) -> Option<int> {
    match nonblank(date) {
        Some(d) => match byte_prefix(d, 4) {
            Some(y) => parse_i32(y),
            None => None,
        },
        None => None,
    }
}

/// Calendar date of an ISO 8601 timestamp: its first ten bytes.
pub open spec fn date_of(date: Option<Seq<char>>) -> Option<Seq<char>> {
    match nonblank(date) {
        Some(d) => match byte_prefix(d, 10) {
            Some(x) => if x.len() > 0 {
                Some(x)
            } else {
                None
            },
            None => None,
        },
        None => None,
    }
}

/// Everything a mapped record holds, as plain values: title, arXiv id,
/// authors, year, date, abstract, PDF link, landing link.
pub struct PaperView {
    pub title: Seq<char>,
    pub arxiv_id: Option<Seq<char>>,
    pub authors: Seq<Seq<char>>,
    pub year: Option<int>,
    pub date: Option<Seq<char>>,
    pub abstract_text: Option<Seq<char>>,
    pub pdf: Option<Seq<char>>,
    pub landing: Option<Seq<char>>,
}

/// The record an item maps to; `None` when it has no (non-blank) title.
/// Links exist exactly when the item has an arXiv id.
pub open spec fn mapped_item(
    title: Option<Seq<char>>,
    upid: Option<Seq<char>>,
    authors: Option<Seq<Option<Seq<char>>>>,
    date: Option<Seq<char>>,
    abs: Option<Seq<char>>,
) -> Option<PaperView> {
    match nonblank(title) {
        None => None,
        Some(t) => {
            let id = nonblank(upid);
            Some(
                PaperView {
                    title: t,
                    arxiv_id: id,
                    authors: item_authors(authors),
                    year: year_of(date),
                    date: date_of(date),
                    abstract_text: nonblank(abs),
                    pdf: match id {
                        Some(i) => Some("https://arxiv.org/pdf/"@ + i),
                        None => None,
                    },
                    landing: match id {
                        Some(i) => Some("https://arxiv.org/abs/"@ + i),
                        None => None,
                    },
                },
            )
        },
    }
}

/// The record of an item, from its fields.
pub open spec fn item_record(item: PaperItem) -> Option<PaperView> {
    mapped_item(
        item.title.deep_view(),
        item.universal_paper_id.deep_view(),
        item.authors.deep_view(),
        item.publication_date.deep_view(),
        item.abstract_text.deep_view(),
    )
}

/// What a record holds.
pub open spec fn paper_view(p: ApiPaper) -> PaperView {
    PaperView {
        title: p.title@,
        arxiv_id: p.identifiers.arxiv_id.deep_view(),
        authors: p.authors@.map_values(|a: String| a@),
        year: match p.year {
            Some(y) => Some(y as int),
            None => None,
        },
        date: p.date.deep_view(),
        abstract_text: p.abstract_text.deep_view(),
        pdf: p.urls.pdf.deep_view(),
        landing: p.urls.landing.deep_view(),
    }
}

/// The fields an alphaXiv record never fills.
pub open spec fn unfilled(p: ApiPaper) -> bool {
    &&& p.identifiers.doi is None
    &&& p.identifiers.isbn is None
    &&& p.identifiers.pmid is None
    &&& p.venue is None
    &&& p.volume is None
    &&& p.issue is None
    &&& p.pages is None
    &&& p.publisher is None
    &&& p.urls.html is None
    &&& p.citation_count is None
    &&& p.language is None
    &&& p.source@ == SOURCE@
}

fn nonblank_exec(o: &Option<String>) -> (r: Option<String>)
    ensures
        r.deep_view() == nonblank(o.deep_view()),
{
    match o {
        Some(s) => {
            let t = trim_exec(chars_of(s.as_str()).as_slice());
            if t.len() > 0 {
                Some(string_of(t.as_slice()))
            } else {
                None
            }
        },
        None => None,
    }
}

fn authors_exec(a: &Option<Vec<Option<String>>>) -> (r: Vec<String>)
    ensures
        r@.map_values(|x: String| x@) == item_authors(a.deep_view()),
{
    let mut out: Vec<String> = Vec::new();
    match a {
        Some(v) => {
            let ghost dv = v.deep_view();
            let mut i: usize = 0;
            while i < v.len()
                invariant
                    i <= v@.len(),
                    dv == v.deep_view(),
                    out@.map_values(|x: String| x@) == somes(dv.take(i as int)),
                decreases v.len() - i,
            {
                assert(dv.take(i + 1).drop_last() =~= dv.take(i as int));
                assert(dv[i as int] == v@[i as int].deep_view());
                match &v[i] {
                    Some(s) => {
                        let ghost before = out@;
                        out.push(string_of(chars_of(s.as_str()).as_slice()));
                        assert(out@.map_values(|x: String| x@) =~= before.map_values(
                            |x: String| x@,
                        ) + seq![s@]);
                    },
                    None => {
                        assert(somes(dv.take(i + 1)) =~= somes(dv.take(i as int)));
                    },
                }
                i += 1;
            }
            assert(dv.take(v@.len() as int) =~= dv);
        },
        None => {
            assert(out@.map_values(|x: String| x@) =~= Seq::<Seq<char>>::empty());
        },
    }
    out
}

fn parse_year(y: &[char]) -> (r: Option<i32>)
    ensures
        match r {
            Some(v) => parse_i32(y@) == Some(v as int),
            None => parse_i32(y@) is None,
        },
{
    crate::text::parse_i32_exec(y)
}

fn arxiv_link(prefix: &str, id: &Option<String>) -> (r: Option<String>)
    ensures
        r.deep_view() == match id.deep_view() {
            Some(i) => Some(prefix@ + i),
            None => None,
        },
{
    match id {
        Some(i) => {
            let mut v = lit(prefix);
            push_all(&mut v, chars_of(i.as_str()).as_slice());
            Some(string_of(v.as_slice()))
        },
        None => None,
    }
}

/// Map a preview / search item to a paper record; `None` when it has no
/// title. The year is the first four bytes of the publication date parsed as
/// a number, the date its first ten bytes; only the real abstract is kept.
pub fn map_paper(item: &PaperItem) -> (r: Option<ApiPaper>)
    ensures
        match item_record(*item) {
            Some(v) => r matches Some(p) && paper_view(p) == v && unfilled(p),
            None => r is None,
        },
{
    let title = match nonblank_exec(&item.title) {
        Some(t) => t,
        None => {
            return None;
        },
    };
    let arxiv_id = nonblank_exec(&item.universal_paper_id);
    let authors = authors_exec(&item.authors);
    let publication_date = nonblank_exec(&item.publication_date);
    let (year, date) = match &publication_date {
        Some(d) => {
            let dc = chars_of(d.as_str());
            let year = match byte_prefix_exec(dc.as_slice(), 4) {
                Some(y) => parse_year(y.as_slice()),
                None => None,
            };
            let date = match byte_prefix_exec(dc.as_slice(), 10) {
                Some(x) => if x.len() > 0 {
                    Some(string_of(x.as_slice()))
                } else {
                    None
                },
                None => None,
            };
            (year, date)
        },
        None => (None, None),
    };
    let abstract_text = nonblank_exec(&item.abstract_text);
    let pdf = arxiv_link("https://arxiv.org/pdf/", &arxiv_id);
    let landing = arxiv_link("https://arxiv.org/abs/", &arxiv_id);
    let paper = ApiPaper {
        identifiers: PaperIdentifiers { doi: None, arxiv_id, isbn: None, pmid: None },
        title,
        authors,
        year,
        date,
        venue: None,
        volume: None,
        issue: None,
        pages: None,
        publisher: None,
        abstract_text,
        urls: PaperUrls { pdf, html: None, landing },
        citation_count: None,
        language: None,
        source: string_of(lit(SOURCE).as_slice()),
    };
    Some(paper)
}

/// The records of the items that have a title, in order.
pub open spec fn mapped_items(items: Seq<PaperItem>) -> Seq<PaperView>
    decreases items.len(),
{
    if items.len() == 0 {
        Seq::empty()
    } else {
        mapped_items(items.drop_last()) + match item_record(items.last()) {
            Some(v) => seq![v],
            None => Seq::empty(),
        }
    }
}

/// At most the first `n` elements of `s`.
pub open spec fn first_n<A>(s: Seq<A>, n: int) -> Seq<A> {
    if s.len() <= n {
        s
    } else {
        s.take(n)
    }
}

/// The search response: the first `limit` mapped records of a top-level
/// JSON array (nothing when the response is not an array).
pub fn parse_search_results(items: &Option<Vec<PaperItem>>, limit: usize) -> (r: Vec<ApiPaper>)
    ensures
        match items {
            Some(v) => r@.map_values(|p: ApiPaper| paper_view(p)) == first_n(
                mapped_items(v@),
                limit as int,
            ),
            None => r@.len() == 0,
        },
        forall|i: int| 0 <= i < r@.len() ==> unfilled(#[trigger] r@[i]),
{
    let mut out: Vec<ApiPaper> = Vec::new();
    let v = match items {
        Some(v) => v,
        None => {
            return out;
        },
    };
    let mut i: usize = 0;
    while i < v.len() && out.len() < limit
        invariant
            i <= v@.len(),
            out@.len() <= limit,
            out@.map_values(|p: ApiPaper| paper_view(p)) == first_n(
                mapped_items(v@.take(i as int)),
                limit as int,
            ),
            out@.len() < limit ==> out@.len() == mapped_items(v@.take(i as int)).len(),
            forall|k: int| 0 <= k < out@.len() ==> unfilled(#[trigger] out@[k]),
        decreases v.len() - i,
    {
        assert(v@.take(i + 1).drop_last() =~= v@.take(i as int));
        assert(v@.take(i + 1).last() == v@[i as int]);
        match map_paper(&v[i]) {
            Some(p) => {
                let ghost before = out@.map_values(|p: ApiPaper| paper_view(p));
                let ghost pv = paper_view(p);
                out.push(p);
                assert(out@.map_values(|p: ApiPaper| paper_view(p)) =~= before.push(pv));
                assert(mapped_items(v@.take(i + 1)) =~= mapped_items(v@.take(i as int)).push(pv));
            },
            None => {
                assert(mapped_items(v@.take(i + 1)) =~= mapped_items(v@.take(i as int)));
            },
        }
        i += 1;
    }
    proof {
        if i == v@.len() {
            assert(v@.take(i as int) =~= v@);
        } else {
            lemma_mapped_prefix_grows(v@, i as int);
        }
    }
    out
}

proof fn lemma_mapped_prefix_grows(items: Seq<PaperItem>, i: int)
    requires
        0 <= i <= items.len(),
    ensures
        mapped_items(items.take(i)).len() <= mapped_items(items).len(),
        mapped_items(items) .take(mapped_items(items.take(i)).len() as int) == mapped_items(
            items.take(i),
        ),
    decreases items.len() - i,
{
    if i < items.len() {
        lemma_mapped_prefix_grows(items, i + 1);
        assert(items.take(i + 1).drop_last() =~= items.take(i));
        let a = mapped_items(items.take(i));
        let b = mapped_items(items.take(i + 1));
        assert(b.take(a.len() as int) =~= a);
        assert(mapped_items(items).take(a.len() as int) =~= mapped_items(items).take(
            b.len() as int,
        ).take(a.len() as int));
    } else {
        assert(items.take(i) =~= items);
        assert(mapped_items(items).take(mapped_items(items).len() as int) =~= mapped_items(items));
    }
}

// ---------------------------------------------------------------------------
// Request URLs
// ---------------------------------------------------------------------------

/// A character `urlencoding` leaves as is: ASCII letter or digit, `-`, `.`,
/// `_` or `~`.
pub open spec fn url_safe(c: char) -> bool {
    is_alnum(c) || c == '-' || c == '.' || c == '_' || c == '~'
}

/// Result of `urlencoding::encode`.
pub uninterp spec fn percent_encoded(s: Seq<char>) -> Seq<char>;

/// `urlencoding::encode`: percent-encodes every byte except ASCII letters,
/// digits and `-`, `_`, `.`, `~`. The result is named by `percent_encoded`;
/// what is stated is that a string made only of those characters comes back
/// unchanged (the crate then returns its input as is).
#[verifier::external_body]
fn url_encode(s: &str) -> (r: String)
    ensures
        r@ == percent_encoded(s@),
        (forall|i: int| 0 <= i < s@.len() ==> url_safe(#[trigger] s@[i])) ==> r@ == s@,
{
    urlencoding::encode(s).into_owned()
}

/// `id` without a trailing arXiv version suffix (`v` and one or more digits
/// after a non-empty base).
pub open spec fn arxiv_bare_id(id: Seq<char>) -> Seq<char> {
    match rfind(id, "v"@) {
        Some(i) => if i > 0 && i + 1 < id.len() && all_digits(id.skip(i + 1)) {
            id.take(i)
        } else {
            id
        },
        None => id,
    }
}

/// Drop the version suffix of an arXiv id (`1706.03762v7` → `1706.03762`).
pub fn strip_arxiv_version(id: &str) -> (r: String)
    ensures
        r@ == arxiv_bare_id(id@),
{
    let c = chars_of(id);
    let v = lit("v");
    match rfind_exec(c.as_slice(), v.as_slice()) {
        Some(i) => {
            proof {
                reveal_strlit("v");
                lemma_rfind_upto_sound(c@, v@, c@.len() - v@.len());
            }
            let n = c.len();
            if i > 0 && i + 1 < n {
                let digits = slice_of(c.as_slice(), i + 1, n);
                assert(digits@ =~= c@.skip(i + 1));
                if all_digits_exec(digits.as_slice()) {
                    let base = slice_of(c.as_slice(), 0, i);
                    assert(base@ =~= c@.take(i as int));
                    return string_of(base.as_slice());
                }
            }
            string_of(c.as_slice())
        },
        None => string_of(c.as_slice()),
    }
}

/// The preview endpoint for an arXiv id (version dropped, percent-encoded).
pub fn preview_url(id: &str) -> (r: String)
    ensures
        r@ == API_BASE@ + "/papers/v3/"@ + percent_encoded(arxiv_bare_id(id@)) + "/preview"@,
{
    let bare = strip_arxiv_version(id);
    let enc = url_encode(bare.as_str());
    let mut out = lit(API_BASE);
    push_all(&mut out, lit("/papers/v3/").as_slice());
    push_all(&mut out, chars_of(enc.as_str()).as_slice());
    push_all(&mut out, lit("/preview").as_slice());
    string_of(out.as_slice())
}

/// The title search endpoint (title percent-encoded).
pub fn search_url(title: &str) -> (r: String)
    ensures
        r@ == API_BASE@ + "/v1/search/paper?q="@ + percent_encoded(title@),
{
    let enc = url_encode(title);
    let mut out = lit(API_BASE);
    push_all(&mut out, lit("/v1/search/paper?q=").as_slice());
    push_all(&mut out, chars_of(enc.as_str()).as_slice());
    string_of(out.as_slice())
}

/// How many search results a title lookup keeps.
pub const TITLE_SEARCH_LIMIT: usize = 5;

} // verus!
