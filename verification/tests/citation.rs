use agentero::citation::headings::{
    caption_contains_numbered_label, header_matches_section_number, normalize_caption_title,
    normalize_heading, section_marker_prefix, section_needle_aliases,
};
use agentero::citation::labels::{from_roman, parse_section_number, to_roman};
use agentero::citation::resolve::{resolve_section_index, LayoutIndexItem, LayoutRegion};
use agentero::citation::similarity::heading_similarity;
use agentero::citation::source::{
    classify_fragment, parse_citation_request, parse_citation_source, CitationError,
    FragmentKind,
};
use agentero::citation::target::{
    citation_target, layout_needed, resolve_classified, to_forward_slashes, vault_relative_parts,
    BboxSource, CitationTarget, LayoutNeed,
};

fn header(id: &str, page_index: u32, title: &str) -> LayoutRegion {
    LayoutRegion {
        id: id.to_string(),
        page_index,
        kind: "header".to_string(),
        title: Some(title.to_string()),
        text: None,
    }
}

fn item(id: &str, section: &str, page_index: u32, title: &str, region: &str) -> LayoutIndexItem {
    LayoutIndexItem {
        id: id.to_string(),
        section: section.to_string(),
        page_index,
        title: Some(title.to_string()),
        layout_region_id: region.to_string(),
    }
}

/// Resolve a citation link of the paper `papers/p1` against its layout data.
fn resolve(
    source: &str,
    regions: &Vec<LayoutRegion>,
    items: &Vec<LayoutIndexItem>,
) -> Result<CitationTarget, CitationError> {
    let (path, fragment) = parse_citation_request(source)?;
    let (kind, value) = classify_fragment(&fragment)?;
    let resolved = resolve_classified(kind, &value, regions, items)?;
    Ok(citation_target("papers/p1".to_string(), path, fragment, resolved))
}

#[test]
fn resolves_section_header() {
    let regions = vec![header("h1", 2, "2.3 Method")];
    let bbox_y = [0.2_f64];
    let target = resolve("papers/p1/PAPER.md#section=2.3", &regions, &vec![]).unwrap();
    assert_eq!(target.page_index, 2);
    assert_eq!(target.region_id, "h1");
    match target.bbox {
        BboxSource::Region(i) => assert!((bbox_y[i] - 0.2).abs() < 1e-9),
        other => panic!("unexpected box source {other:?}"),
    }
}

#[test]
fn resolves_figure_by_number() {
    let items = vec![item("figure-1", "figure", 1, "Figure 1: overview", "r1")];
    let target = resolve("papers/p1/p1.pdf#figure=1", &vec![], &items).unwrap();
    assert_eq!(target.page_index, 1);
    assert_eq!(target.region_id, "r1");
}

#[test]
fn resolves_page_fragment() {
    let target = resolve("papers/p1/p1.pdf#page=5", &vec![], &vec![]).unwrap();
    assert_eq!(target.page_index, 4);
    assert_eq!(target.region_id, "page-5");
}

#[test]
fn resolves_figure_when_label_is_mid_caption() {
    let items = vec![
        item(
            "figure-p4-x",
            "figure",
            3,
            "Model overview. Fig. 3: is trained in two stages.",
            "r3",
        ),
        item("figure-10", "figure", 9, "Fig. 10: Training recipe ablations", "r10"),
    ];
    let fig3 = resolve("papers/p1/p1.pdf#figure=3", &vec![], &items).unwrap();
    assert_eq!(fig3.region_id, "r3");
    assert_eq!(fig3.page_index, 3);
    // Must not confuse figure 1 with figure 10.
    let fig10 = resolve("papers/p1/p1.pdf#figure=10", &vec![], &items).unwrap();
    assert_eq!(fig10.region_id, "r10");
    assert!(resolve("papers/p1/p1.pdf#figure=1", &vec![], &items).is_err());
}

#[test]
fn resolves_section_arabic_to_ieee_roman() {
    let regions = vec![
        header("noise", 0, "arXiv:2504.16054v1 [cs.LG] 22 Apr 2025"),
        header("h3", 3, "III. P RELIMINARIES"),
        header("h1", 1, "I. I NTRODUCTION"),
    ];
    let s3 = resolve("papers/p1/PAPER.md#section=3", &regions, &vec![]).unwrap();
    assert_eq!(s3.region_id, "h3");
    assert_eq!(s3.page_index, 3);
    let s_roman = resolve("papers/p1/PAPER.md#section=III", &regions, &vec![]).unwrap();
    assert_eq!(s_roman.region_id, "h3");
    let s1 = resolve("papers/p1/PAPER.md#section=1", &regions, &vec![]).unwrap();
    assert_eq!(s1.region_id, "h1");
}

#[test]
fn rejects_bare_digit_section_against_ocr_noise() {
    let regions = vec![
        header("noise", 0, "arXiv:2504.16054v1 [cs.LG] 22 Apr 2025"),
        header("intro", 1, "Introduction"),
    ];
    assert!(resolve("papers/p1/PAPER.md#section=3", &regions, &vec![]).is_err());
    // Bare roman `i` must not match the word "Introduction".
    assert!(resolve("papers/p1/PAPER.md#section=1", &regions, &vec![]).is_err());
}

#[test]
fn caption_label_helpers() {
    assert!(caption_contains_numbered_label(
        "model overview fig 3 is trained",
        "figure",
        3
    ));
    assert!(!caption_contains_numbered_label(
        "fig 10 training",
        "figure",
        1
    ));
    assert!(header_matches_section_number("III. P RELIMINARIES", 3));
    assert!(header_matches_section_number("I. I NTRODUCTION", 1));
    assert!(!header_matches_section_number("Introduction", 1));
    assert!(!header_matches_section_number("III. P RELIMINARIES", 2));
    assert_eq!(parse_section_number("iii"), Some(3));
    assert_eq!(parse_section_number("3"), Some(3));
    assert_eq!(to_roman(4), "iv");
}

#[test]
fn parses_sources_and_fragments() {
    assert_eq!(
        parse_citation_source("  /papers/p1/p1.pdf#figure=2 "),
        Some(("papers/p1/p1.pdf".to_string(), "figure=2".to_string()))
    );
    assert_eq!(
        parse_citation_source("papers/p1/NOTES.md"),
        Some(("papers/p1/NOTES.md".to_string(), String::new()))
    );
    assert_eq!(parse_citation_source("   "), None);
    assert_eq!(parse_citation_source("/#page=1"), None);
    assert!(matches!(parse_citation_request(""), Err(CitationError::InvalidSource)));
    assert!(matches!(
        parse_citation_request("papers/p1/NOTES.md"),
        Err(CitationError::NoFragment)
    ));
    assert!(matches!(
        classify_fragment("figure"),
        Err(CitationError::MalformedFragment { fragment }) if fragment == "figure"
    ));
    assert!(matches!(
        classify_fragment("chapter=2"),
        Err(CitationError::UnknownFragment { key }) if key == "chapter"
    ));
    // Values are percent-decoded.
    match classify_fragment("section=Related%20Work") {
        Ok((FragmentKind::Section, v)) => assert_eq!(v, "Related Work"),
        other => panic!("unexpected {other:?}"),
    }
    // A value that does not decode to UTF-8 is kept as written.
    match classify_fragment("region=%FF") {
        Ok((FragmentKind::Region, v)) => assert_eq!(v, "%FF"),
        other => panic!("unexpected {other:?}"),
    }
}

#[test]
fn page_and_number_errors() {
    assert!(matches!(
        resolve("papers/p1/p1.pdf#page=0", &vec![], &vec![]),
        Err(CitationError::PageZero)
    ));
    assert!(matches!(
        resolve("papers/p1/p1.pdf#page=x", &vec![], &vec![]),
        Err(CitationError::BadPage { value }) if value == "x"
    ));
    assert!(matches!(
        resolve("papers/p1/p1.pdf#table=two", &vec![], &vec![]),
        Err(CitationError::BadNumber { section, number }) if section == "table" && number == "two"
    ));
    assert!(matches!(
        resolve("papers/p1/p1.pdf#region=nope", &vec![], &vec![]),
        Err(CitationError::RegionNotFound { what }) if what == "nope"
    ));
    let page = resolve("papers/p1/p1.pdf#page=1", &vec![], &vec![]).unwrap();
    assert_eq!(page.title.as_deref(), Some("Page 1"));
    assert_eq!(page.bbox, BboxSource::WholePage);
}

#[test]
fn region_fragment_uses_layout_region_id() {
    let items = vec![item("table-2", "table", 6, "Table 2: results", "r-t2")];
    let t = resolve("papers/p1/p1.pdf#region=table-2", &vec![], &items).unwrap();
    assert_eq!(t.region_id, "r-t2");
    assert_eq!(t.page_index, 6);
    assert_eq!(t.bbox, BboxSource::Item(0));
    assert_eq!(t.title.as_deref(), Some("Table 2: results"));
    assert_eq!(t.fragment, "region=table-2");
    assert_eq!(t.path, "papers/p1/p1.pdf");
}

#[test]
fn layout_needed_per_kind() {
    assert_eq!(layout_needed(FragmentKind::Section), LayoutNeed::Regions);
    assert_eq!(layout_needed(FragmentKind::Page), LayoutNeed::Nothing);
    assert_eq!(layout_needed(FragmentKind::Figure), LayoutNeed::Items);
    assert_eq!(layout_needed(FragmentKind::Region), LayoutNeed::Items);
}

#[test]
fn heading_helpers() {
    assert_eq!(normalize_heading("  2.3\u{00A0}Method\tOverview "), "2.3 method overview");
    assert_eq!(normalize_caption_title("Fig. 3: Model"), "fig 3 model");
    let aliases = section_needle_aliases("3");
    assert_eq!(aliases, vec!["3".to_string(), "iii".to_string(), "iii.".to_string()]);
    assert_eq!(from_roman("XIV"), Some(14));
    assert_eq!(from_roman("xxi"), None);
    assert_eq!(from_roman(""), None);
    assert_eq!(parse_section_number("21"), None);
    assert_eq!(parse_section_number("IV."), Some(4));
    let exact = heading_similarity("method", "method");
    assert_eq!((exact.num, exact.den), (1, 1));
    // A bare short digit needle inside a longer token does not count.
    let digit = heading_similarity("3", "arxiv 2304");
    assert_eq!(digit.num, 0);
    let overlap = heading_similarity("related work", "work related to this");
    assert_eq!(overlap.num * 1, overlap.den);
    assert_eq!(to_forward_slashes("papers\\p1"), "papers/p1");
}

#[test]
fn roman_and_arabic_section_numbers_round_trip() {
    for n in 1..=20u32 {
        assert_eq!(from_roman(&to_roman(n)), Some(n));
        assert_eq!(parse_section_number(&n.to_string()), Some(n));
        assert_eq!(parse_section_number(&to_roman(n).to_uppercase()), Some(n));
    }
}

#[test]
fn section_markers_need_a_boundary() {
    assert!(section_marker_prefix("iii. p reliminaries", "iii.preliminaries", "iii"));
    assert!(section_marker_prefix("3 method", "3method", "3"));
    // `ii` is not a prefix marker of `iii.`.
    assert!(!section_marker_prefix("iii. x", "iii.x", "ii"));
    // A bare marker with nothing after the dot does not count.
    assert!(!section_marker_prefix("iii.", "iii.", "iii"));
    assert!(!section_marker_prefix("introduction", "introduction", "i"));
}

#[test]
fn citation_errors_carry_codes_and_messages() {
    let cases = [
        (CitationError::InvalidSource, "citation_invalid_source", "empty citation source"),
        (CitationError::NoFragment, "citation_no_fragment", "citation has no fragment to resolve"),
        (
            CitationError::MalformedFragment { fragment: "x".to_string() },
            "citation_malformed_fragment",
            "fragment must be key=value, got `x`",
        ),
        (
            CitationError::UnknownFragment { key: "chapter".to_string() },
            "citation_unknown_fragment",
            "unsupported citation fragment `chapter`",
        ),
        (
            CitationError::BadPage { value: "two".to_string() },
            "citation_bad_page",
            "`page` citation expects a 1-based number, got `two`",
        ),
        (CitationError::PageZero, "citation_bad_page", "page number must be >= 1"),
        (
            CitationError::BadNumber { section: "figure".to_string(), number: "x".to_string() },
            "citation_bad_number",
            "`figure` citation expects a number, got `x`",
        ),
        (
            CitationError::SectionNotFound { heading: "Intro".to_string() },
            "citation_section_not_found",
            "no header matching `Intro` in papers/x/source/layout.json",
        ),
        (
            CitationError::RegionNotFound { what: "figure 3".to_string() },
            "citation_region_not_found",
            "no figure 3 found in papers/x/source/layout-index.json",
        ),
    ];
    for (error, code, message) in cases {
        assert_eq!(error.code(), code);
        assert_eq!(error.message("papers/x"), message);
    }
}

#[test]
fn arabic_section_numbers_take_a_trailing_dot() {
    for n in 1..=20u32 {
        assert_eq!(parse_section_number(&n.to_string()), Some(n));
        assert_eq!(parse_section_number(&format!("{n}.")), Some(n));
    }
}

fn parts(path: &str, windows: bool) -> Option<Vec<String>> {
    vault_relative_parts(path, windows)
}

#[test]
fn vault_paths_stay_inside_the_vault() {
    let expected = Some(vec!["papers".to_string(), "x".to_string(), "NOTES.md".to_string()]);
    assert_eq!(parts("papers/x/NOTES.md", false), expected);
    assert_eq!(parts("./papers//x/./NOTES.md/", false), expected);
    assert_eq!(parts("papers\\x\\NOTES.md", true), expected);
    assert_eq!(parts("/etc/passwd", false), None);
    assert_eq!(parts("papers/../../secret", false), None);
    assert_eq!(parts("..", false), None);
    assert_eq!(parts("", false), None);
    assert_eq!(parts("./.", false), None);
    assert_eq!(parts("C:\\Windows", true), None);
    assert_eq!(parts("\\\\server\\share", true), None);
    assert_eq!(parts("a\\b", false), Some(vec!["a\\b".to_string()]));
}

#[test]
fn roman_section_numbers_read_back() {
    for n in 1..=20u32 {
        let r = to_roman(n);
        assert_eq!(parse_section_number(&r), Some(n));
        assert_eq!(parse_section_number(&format!("{r}.")), Some(n));
        assert_eq!(parse_section_number(&r.to_uppercase()), Some(n));
    }
    assert_eq!(parse_section_number("0"), None);
    assert_eq!(parse_section_number("21"), None);
}

#[test]
fn fuzzy_section_match_takes_the_first_best_scorer() {
    let regions = vec![
        header("h0", 0, "Results"),
        header("h1", 1, "Attention Models"),
        header("h2", 2, "Attention Models Overview"),
        header("h3", 3, "Attention Models"),
    ];
    // "attention models overview" scores 3/3 only on h2.
    assert_eq!(resolve_section_index(&regions, "Attention Models Overview"), Some(2));
    // An exact label wins, the first one in file order.
    assert_eq!(resolve_section_index(&regions, "attention models"), Some(1));
    // Ties among fuzzy matches go to the first in file order.
    assert_eq!(resolve_section_index(&regions, "models attention"), Some(1));
    assert_eq!(resolve_section_index(&regions, "unrelated words here"), None);
}
