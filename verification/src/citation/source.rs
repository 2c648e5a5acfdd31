//! Parsing a citation link into path, fragment kind and value.
use vstd::prelude::*;
use crate::text::{
    chars_of, dec, dec_exec, eq_str, find, find_str, lit, parse_u32_exec, parse_unsigned,
    parse_usize_exec, push_all, slice_of, string_of, trim, trim_exec,
};

verus! {

/// Why a citation link cannot be resolved from its text alone.
#[derive(Debug)]
pub enum CitationError {
    /// The source is empty (or only `/`).
    InvalidSource,
    /// The link has no `#fragment`.
    NoFragment,
    /// The fragment is not `key=value`.
    MalformedFragment { fragment: String },
    /// The fragment key is not one this resolver knows.
    UnknownFragment { key: String },
    /// A `page` value is not a number.
    BadPage { value: String },
    /// A `page` value is 0.
    PageZero,
    /// A numbered citation's value is not a number.
    BadNumber { section: String, number: String },
    /// No header of the layout matches the cited section.
    SectionNotFound { heading: String },
    /// No sidebar entry is the cited figure / table / algorithm / formula or region.
    RegionNotFound { what: String },
}

/// The stable code of a citation error, as the frontend matches on it.
pub open spec fn error_code(e: CitationError) -> Seq<char> {
    match e {
        CitationError::InvalidSource => "citation_invalid_source"@,
        CitationError::NoFragment => "citation_no_fragment"@,
        CitationError::MalformedFragment { .. } => "citation_malformed_fragment"@,
        CitationError::UnknownFragment { .. } => "citation_unknown_fragment"@,
        CitationError::BadPage { .. } => "citation_bad_page"@,
        CitationError::PageZero => "citation_bad_page"@,
        CitationError::BadNumber { .. } => "citation_bad_number"@,
        CitationError::SectionNotFound { .. } => "citation_section_not_found"@,
        CitationError::RegionNotFound { .. } => "citation_region_not_found"@,
    }
}

/// The human-readable text of a citation error about the paper at
/// `paper_path` (vault-relative).
pub open spec fn error_message(e: CitationError, paper_path: Seq<char>) -> Seq<char> {
    match e {
        CitationError::InvalidSource => "empty citation source"@,
        CitationError::NoFragment => "citation has no fragment to resolve"@,
        CitationError::MalformedFragment { fragment } => "fragment must be key=value, got `"@
            + fragment@ + "`"@,
        CitationError::UnknownFragment { key } => "unsupported citation fragment `"@ + key@
            + "`"@,
        CitationError::BadPage { value } => "`page` citation expects a 1-based number, got `"@
            + value@ + "`"@,
        CitationError::PageZero => "page number must be >= 1"@,
        CitationError::BadNumber { section, number } => "`"@ + section@
            + "` citation expects a number, got `"@ + number@ + "`"@,
        CitationError::SectionNotFound { heading } => "no header matching `"@ + heading@ + "` in "@
            + paper_path + "/source/layout.json"@,
        CitationError::RegionNotFound { what } => "no "@ + what@ + " found in "@ + paper_path
            + "/source/layout-index.json"@,
    }
}

impl CitationError {
    /// The error's stable code.
    pub fn code(&self) -> (r: &'static str)
        ensures
            r@ == error_code(*self),
    {
        match self {
            CitationError::InvalidSource => "citation_invalid_source",
            CitationError::NoFragment => "citation_no_fragment",
            CitationError::MalformedFragment { .. } => "citation_malformed_fragment",
            CitationError::UnknownFragment { .. } => "citation_unknown_fragment",
            CitationError::BadPage { .. } => "citation_bad_page",
            CitationError::PageZero => "citation_bad_page",
            CitationError::BadNumber { .. } => "citation_bad_number",
            CitationError::SectionNotFound { .. } => "citation_section_not_found",
            CitationError::RegionNotFound { .. } => "citation_region_not_found",
        }
    }

    /// The error's message, for the paper at `paper_path`.
    pub fn message(&self, paper_path: &str) -> (r: String)
        ensures
            r@ == error_message(*self, paper_path@),
    {
        let out = match self {
            CitationError::InvalidSource => lit("empty citation source"),
            CitationError::NoFragment => lit("citation has no fragment to resolve"),
            CitationError::MalformedFragment { fragment } => {
                let mut o = lit("fragment must be key=value, got `");
                push_all(&mut o, chars_of(fragment.as_str()).as_slice());
                push_all(&mut o, lit("`").as_slice());
                o
            },
            CitationError::UnknownFragment { key } => {
                let mut o = lit("unsupported citation fragment `");
                push_all(&mut o, chars_of(key.as_str()).as_slice());
                push_all(&mut o, lit("`").as_slice());
                o
            },
            CitationError::BadPage { value } => {
                let mut o = lit("`page` citation expects a 1-based number, got `");
                push_all(&mut o, chars_of(value.as_str()).as_slice());
                push_all(&mut o, lit("`").as_slice());
                o
            },
            CitationError::PageZero => lit("page number must be >= 1"),
            CitationError::BadNumber { section, number } => {
                let mut o = lit("`");
                push_all(&mut o, chars_of(section.as_str()).as_slice());
                push_all(&mut o, lit("` citation expects a number, got `").as_slice());
                push_all(&mut o, chars_of(number.as_str()).as_slice());
                push_all(&mut o, lit("`").as_slice());
                o
            },
            CitationError::SectionNotFound { heading } => {
                let mut o = lit("no header matching `");
                push_all(&mut o, chars_of(heading.as_str()).as_slice());
                push_all(&mut o, lit("` in ").as_slice());
                push_all(&mut o, chars_of(paper_path).as_slice());
                push_all(&mut o, lit("/source/layout.json").as_slice());
                o
            },
            CitationError::RegionNotFound { what } => {
                let mut o = lit("no ");
                push_all(&mut o, chars_of(what.as_str()).as_slice());
                push_all(&mut o, lit(" found in ").as_slice());
                push_all(&mut o, chars_of(paper_path).as_slice());
                push_all(&mut o, lit("/source/layout-index.json").as_slice());
                o
            },
        };
        string_of(out.as_slice())
    }
}

/// What a fragment key asks for.
#[derive(Debug, Clone, Copy, PartialEq, Eq)]
pub enum FragmentKind {
    Section,
    Figure,
    Table,
    Algorithm,
    Formula,
    Region,
    Page,
}

/// `(path, fragment)` of a citation source: trimmed, one leading `/` dropped,
/// split at the first `#`; `None` when the path is empty.
pub open spec fn citation_source(s: Seq<char>) -> Option<(Seq<char>, Seq<char>)> {
    let t = trim(s);
    let w = if t.len() > 0 && t[0] == '/' {
        t.drop_first()
    } else {
        t
    };
    let (path, frag) = match find(w, "#"@) {
        Some(i) => (w.take(i), w.skip(i + 1)),
        None => (w, Seq::<char>::empty()),
    };
    if t.len() == 0 || path.len() == 0 {
        None
    } else {
        Some((path, frag))
    }
}

/// Parse a citation source into `(path, fragment)`.
///
/// Accepts vault-relative paths with an optional leading `/` and an optional
/// `#key=value` fragment.
pub fn parse_citation_source(source: &str) -> (r: Option<(String, String)>)
    ensures
        match r {
            Some((p, f)) => citation_source(source@) == Some((p@, f@)),
            None => citation_source(source@) is None,
        },
{
    let s = chars_of(source);
    let t = trim_exec(s.as_slice());
    if t.len() == 0 {
        return None;
    }
    let w = if t[0] == '/' {
        slice_of(t.as_slice(), 1, t.len())
    } else {
        slice_of(t.as_slice(), 0, t.len())
    };
    assert(t@.subrange(1, t@.len() as int) =~= t@.drop_first());
    assert(t@.subrange(0, t@.len() as int) =~= t@);
    proof {
        reveal_strlit("#");
    }
    let (path, frag) = match find_str(w.as_slice(), "#") {
        Some(i) => {
            let n = w.len();
            assert(i + 1 <= n);
            let p = slice_of(w.as_slice(), 0, i);
            let f = slice_of(w.as_slice(), i + 1, w.len());
            assert(p@ =~= w@.take(i as int));
            assert(f@ =~= w@.skip(i + 1));
            (p, f)
        },
        None => {
            let e: Vec<char> = Vec::new();
            (slice_of(w.as_slice(), 0, w.len()), e)
        },
    };
    assert(w@.subrange(0, w@.len() as int) =~= w@);
    if path.len() == 0 {
        return None;
    }
    Some((string_of(path.as_slice()), string_of(frag.as_slice())))
}

/// The citation must carry a fragment to resolve.
pub open spec fn citation_request(s: Seq<char>) -> Result<(Seq<char>, Seq<char>), CitationError> {
    match citation_source(s) {
        None => Err(CitationError::InvalidSource),
        Some((p, f)) => if f.len() == 0 {
            Err(CitationError::NoFragment)
        } else {
            Ok((p, f))
        },
    }
}

/// Path and fragment of a citation source, or why it cannot be resolved.
pub fn parse_citation_request(source: &str) -> (r: Result<(String, String), CitationError>)
    ensures
        match r {
            Ok((p, f)) => citation_request(source@) == Ok::<(Seq<char>, Seq<char>), CitationError>(
                (p@, f@),
            ),
            Err(CitationError::InvalidSource) => citation_source(source@) is None,
            Err(CitationError::NoFragment) => citation_source(source@) matches Some((_, f))
                && f.len() == 0,
            Err(_) => false,
        },
{
    match parse_citation_source(source) {
        None => Err(CitationError::InvalidSource),
        Some((p, f)) => {
            let fc = chars_of(f.as_str());
            if fc.len() == 0 {
                Err(CitationError::NoFragment)
            } else {
                Ok((p, f))
            }
        },
    }
}

/// Result of percent-decoding `s` with `urlencoding::decode`, when the bytes
/// it yields are UTF-8.
pub uninterp spec fn percent_decoded(s: Seq<char>) -> Option<Seq<char>>;

/// `urlencoding::decode`: `None` when the decoded bytes are not UTF-8. Its
/// result is named by `percent_decoded`; a string without `%` comes back
/// unchanged (the crate returns its input when no `%` occurs). Nothing else
/// of the decoding is stated.
#[verifier::external_body]
fn url_decode(s: &str) -> (r: Option<String>)
    ensures
        r.deep_view() == percent_decoded(s@),
        !s@.contains('%') ==> r.deep_view() == Some(s@),
{
    match urlencoding::decode(s) {
        Ok(decoded) => Some(decoded.into_owned()),
        Err(_) => None,
    }
}

/// A fragment value, percent-decoded when decoding yields UTF-8, else as written.
pub open spec fn decoded_value(v: Seq<char>) -> Seq<char> {
    match percent_decoded(v) {
        Some(d) => d,
        None => v,
    }
}

/// The kind a fragment key names.
pub open spec fn kind_of_key(k: Seq<char>) -> Option<FragmentKind> {
    if k == "section"@ {
        Some(FragmentKind::Section)
    } else if k == "figure"@ {
        Some(FragmentKind::Figure)
    } else if k == "table"@ {
        Some(FragmentKind::Table)
    } else if k == "algorithm"@ {
        Some(FragmentKind::Algorithm)
    } else if k == "formula"@ {
        Some(FragmentKind::Formula)
    } else if k == "region"@ {
        Some(FragmentKind::Region)
    } else if k == "page"@ {
        Some(FragmentKind::Page)
    } else {
        None
    }
}

/// Key and raw value of a `key=value` fragment, split at the first `=`.
pub open spec fn fragment_parts(f: Seq<char>) -> Option<(Seq<char>, Seq<char>)> {
    match find(f, "="@) {
        Some(i) => Some((f.take(i), f.skip(i + 1))),
        None => None,
    }
}

fn key_kind(k: &[char]) -> (r: Option<FragmentKind>)
    ensures
        r == kind_of_key(k@),
{
    if eq_str(k, "section") {
        Some(FragmentKind::Section)
    } else if eq_str(k, "figure") {
        Some(FragmentKind::Figure)
    } else if eq_str(k, "table") {
        Some(FragmentKind::Table)
    } else if eq_str(k, "algorithm") {
        Some(FragmentKind::Algorithm)
    } else if eq_str(k, "formula") {
        Some(FragmentKind::Formula)
    } else if eq_str(k, "region") {
        Some(FragmentKind::Region)
    } else if eq_str(k, "page") {
        Some(FragmentKind::Page)
    } else {
        None
    }
}

/// Split a `key=value` fragment, decode its value and name what it asks for.
pub fn classify_fragment(fragment: &str) -> (r: Result<(FragmentKind, String), CitationError>)
    ensures
        match fragment_parts(fragment@) {
            None => r matches Err(CitationError::MalformedFragment { fragment: f }) && f@
                == fragment@,
            Some((k, v)) => match kind_of_key(k) {
                Some(kind) => r matches Ok((rk, rv)) && rk == kind && rv@ == decoded_value(v),
                None => r matches Err(CitationError::UnknownFragment { key }) && key@ == k,
            },
        },
{
    let f = chars_of(fragment);
    proof {
        reveal_strlit("=");
    }
    let i = match find_str(f.as_slice(), "=") {
        Some(i) => i,
        None => {
            return Err(CitationError::MalformedFragment { fragment: string_of(f.as_slice()) });
        },
    };
    let n = f.len();
    assert(i + 1 <= n);
    let key = slice_of(f.as_slice(), 0, i);
    let raw = slice_of(f.as_slice(), i + 1, f.len());
    assert(key@ =~= f@.take(i as int));
    assert(raw@ =~= f@.skip(i + 1));
    let raw_s = string_of(raw.as_slice());
    let value = match url_decode(raw_s.as_str()) {
        Some(d) => d,
        None => raw_s,
    };
    match key_kind(key.as_slice()) {
        Some(kind) => Ok((kind, value)),
        None => Err(CitationError::UnknownFragment { key: string_of(key.as_slice()) }),
    }
}

/// Where a `#page=N` citation goes: 0-based page index, title and region id.
pub struct PageTarget {
    pub page_index: u32,
    pub title: String,
    pub region_id: String,
}

/// Resolve a `#page=N` citation (1-based `N`) to the whole page.
pub fn resolve_page(value: &str) -> (r: Result<PageTarget, CitationError>)
    ensures
        match parse_unsigned(value@, 0xFFFF_FFFF) {
            None => r matches Err(CitationError::BadPage { value: v }) && v@ == value@,
            Some(p) => if p == 0 {
                r matches Err(CitationError::PageZero)
            } else {
                r matches Ok(t) && t.page_index == p - 1 && t.title@ == "Page "@ + dec(p as nat)
                    && t.region_id@ == "page-"@ + dec(p as nat)
            },
        },
{
    let v = chars_of(value);
    let page = match parse_u32_exec(v.as_slice()) {
        Some(p) => p,
        None => {
            return Err(CitationError::BadPage { value: string_of(v.as_slice()) });
        },
    };
    if page == 0 {
        return Err(CitationError::PageZero);
    }
    let d = dec_exec(page as u64);
    let mut title = lit("Page ");
    push_all(&mut title, d.as_slice());
    let mut region = lit("page-");
    push_all(&mut region, d.as_slice());
    Ok(PageTarget {
        page_index: page - 1,
        title: string_of(title.as_slice()),
        region_id: string_of(region.as_slice()),
    })
}

/// The number of a `figure` / `table` / `algorithm` / `formula` citation.
pub fn parse_citation_number(section: &str, number: &str) -> (r: Result<usize, CitationError>)
    ensures
        match parse_unsigned(number@, usize::MAX as int) {
            None => r matches Err(CitationError::BadNumber { section: s, number: n }) && s@
                == section@ && n@ == number@,
            Some(v) => r == Ok::<usize, CitationError>(v as usize),
        },
{
    let v = chars_of(number);
    match parse_usize_exec(v.as_slice()) {
        Some(n) => Ok(n),
        None => {
            let sv = chars_of(section);
            Err(
                CitationError::BadNumber {
                    section: string_of(sv.as_slice()),
                    number: string_of(v.as_slice()),
                },
            )
        },
    }
}

} // verus!
