use agentero::scholar::alphaxiv::{
    map_paper, parse_search_results, preview_url, search_url, strip_arxiv_version, AlphaxivApi,
    PaperItem,
};
use agentero::scholar::urls::{arxiv_canonical_urls, doi_landing_url};

fn s(v: &str) -> Option<String> {
    Some(v.to_string())
}

fn empty_item() -> PaperItem {
    PaperItem {
        title: None,
        universal_paper_id: None,
        authors: None,
        publication_date: None,
        abstract_text: None,
    }
}

fn preview_fixture() -> PaperItem {
    PaperItem {
        title: s("Attention Is All You Need"),
        universal_paper_id: s("1706.03762"),
        authors: Some(
            [
                "Ashish Vaswani",
                "Noam Shazeer",
                "Niki Parmar",
                "Jakob Uszkoreit",
                "Llion Jones",
                "Aidan N. Gomez",
                "Lukasz Kaiser",
                "Illia Polosukhin",
            ]
            .iter()
            .map(|a| Some(a.to_string()))
            .collect(),
        ),
        publication_date: s("2023-08-02T07:41:18.000Z"),
        abstract_text: s(
            "The dominant sequence transduction models are based on complex recurrent networks.",
        ),
    }
}

#[test]
fn arxiv_canonical_urls_use_bare_id() {
    let urls = arxiv_canonical_urls("1706.03762");
    assert_eq!(urls.pdf, "https://arxiv.org/pdf/1706.03762");
    assert_eq!(urls.html, "https://arxiv.org/html/1706.03762");
    assert_eq!(urls.abs, "https://arxiv.org/abs/1706.03762");
}

#[test]
fn doi_landing_url_is_https_doi_org() {
    assert_eq!(doi_landing_url("10.1/abc"), "https://doi.org/10.1/abc");
}

#[test]
fn maps_preview_object() {
    let paper = map_paper(&preview_fixture()).expect("mapped");
    assert_eq!(paper.title, "Attention Is All You Need");
    // Bare id, not the versioned canonical_id.
    assert_eq!(paper.identifiers.arxiv_id.as_deref(), Some("1706.03762"));
    assert_eq!(paper.year, Some(2023));
    assert_eq!(paper.date.as_deref(), Some("2023-08-02"));
    assert_eq!(paper.authors.len(), 8);
    assert_eq!(paper.authors[0], "Ashish Vaswani");
    // Real abstract only.
    assert!(paper
        .abstract_text
        .as_deref()
        .is_some_and(|a| a.starts_with("The dominant sequence")));
    assert_eq!(
        paper.urls.landing.as_deref(),
        Some("https://arxiv.org/abs/1706.03762")
    );
    assert_eq!(
        paper.urls.pdf.as_deref(),
        Some("https://arxiv.org/pdf/1706.03762")
    );
    assert_eq!(paper.citation_count, None);
    assert_eq!(paper.source, "alphaxiv");
}

#[test]
fn maps_search_array_with_limit() {
    let first = preview_fixture();
    let second = PaperItem {
        title: s("Forget Attention: Importance-Aware Attention"),
        universal_paper_id: s("2606.02332"),
        publication_date: s("2026-06-02T05:51:37.000Z"),
        authors: Some(vec![s("Ada Lovelace")]),
        abstract_text: None,
    };
    let results = parse_search_results(&Some(vec![first.clone(), second.clone()]), 5);
    assert_eq!(results.len(), 2);
    assert_eq!(results[1].year, Some(2026));

    let truncated = parse_search_results(&Some(vec![first, second]), 1);
    assert_eq!(truncated.len(), 1);
}

#[test]
fn missing_title_returns_none() {
    assert_eq!(map_paper(&empty_item()), None);
    let mut only_id = empty_item();
    only_id.universal_paper_id = s("1706.03762");
    assert_eq!(map_paper(&only_id), None);
}

#[test]
fn missing_optionals_default_to_empty() {
    let mut item = empty_item();
    item.title = s("Untitled Study");
    let paper = map_paper(&item).expect("mapped");
    assert!(paper.authors.is_empty());
    assert_eq!(paper.year, None);
    assert_eq!(paper.date, None);
    assert_eq!(paper.abstract_text, None);
    assert_eq!(paper.urls.landing, None);
}

#[test]
fn blank_title_and_fields_are_dropped() {
    let mut item = empty_item();
    item.title = s("   ");
    assert_eq!(map_paper(&item), None);
    item.title = s("  Padded Title \n");
    item.universal_paper_id = s("  ");
    item.abstract_text = s("\t");
    item.authors = Some(vec![None, s("Grace Hopper"), None]);
    let paper = map_paper(&item).expect("mapped");
    assert_eq!(paper.title, "Padded Title");
    assert_eq!(paper.identifiers.arxiv_id, None);
    assert_eq!(paper.abstract_text, None);
    assert_eq!(paper.authors, vec!["Grace Hopper".to_string()]);
    assert_eq!(paper.urls.pdf, None);
}

#[test]
fn short_or_odd_dates_keep_what_parses() {
    let mut item = empty_item();
    item.title = s("T");
    item.publication_date = s(" 2023 ");
    let paper = map_paper(&item).expect("mapped");
    assert_eq!(paper.year, Some(2023));
    // Fewer than ten bytes: no calendar date.
    assert_eq!(paper.date, None);
    // The fourth byte falls inside a multi-byte character: no year.
    item.publication_date = s("20é3-01-01");
    let paper = map_paper(&item).expect("mapped");
    assert_eq!(paper.year, None);
    item.publication_date = s("abcd-01-01");
    let paper = map_paper(&item).expect("mapped");
    assert_eq!(paper.year, None);
    assert_eq!(paper.date.as_deref(), Some("abcd-01-01"));
}

#[test]
fn search_results_skip_untitled_items_and_non_arrays() {
    let good = preview_fixture();
    let results = parse_search_results(&Some(vec![empty_item(), good]), 5);
    assert_eq!(results.len(), 1);
    assert_eq!(results[0].title, "Attention Is All You Need");
    assert!(parse_search_results(&None, 5).is_empty());
    assert!(parse_search_results(&Some(vec![preview_fixture()]), 0).is_empty());
}

#[test]
fn request_urls_encode_and_drop_versions() {
    assert_eq!(strip_arxiv_version("1706.03762v7"), "1706.03762");
    assert_eq!(strip_arxiv_version("1706.03762"), "1706.03762");
    assert_eq!(strip_arxiv_version("hep-th/9901001v2"), "hep-th/9901001");
    assert_eq!(strip_arxiv_version("v2"), "v2");
    assert_eq!(
        preview_url("1706.03762v7"),
        "https://api.alphaxiv.org/papers/v3/1706.03762/preview"
    );
    assert_eq!(
        preview_url("hep-th/9901001"),
        "https://api.alphaxiv.org/papers/v3/hep-th%2F9901001/preview"
    );
    assert_eq!(
        search_url("attention is all you need"),
        "https://api.alphaxiv.org/v1/search/paper?q=attention%20is%20all%20you%20need"
    );
}

#[test]
fn alphaxiv_source_descriptor() {
    let api = AlphaxivApi;
    assert_eq!(api.name(), "alphaxiv");
    assert_eq!(api.priority(), 50);
    let caps = api.capabilities();
    assert!(caps.fetch_by_arxiv && caps.search_by_title && caps.provide_abstract);
}
