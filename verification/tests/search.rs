use warc_archiver::leta::{
    parse_search_results, DataValue, EntryRefs, SearchParseError,
};
use warc_archiver::searcher::{
    Count, HostRankings, Optic, SearchQuery, SearchResult, WebsitesResult, NUM_RESULTS_PER_PAGE,
};

fn entry(items: Option<u64>, title: Option<u64>, link: Option<u64>, snippet: Option<u64>) -> DataValue {
    DataValue::Entry(EntryRefs { items, title, link, snippet })
}

fn rankings(liked: &[&str], disliked: &[&str], blocked: &[&str]) -> HostRankings {
    HostRankings {
        liked: liked.iter().map(|s| s.to_string()).collect(),
        disliked: disliked.iter().map(|s| s.to_string()).collect(),
        blocked: blocked.iter().map(|s| s.to_string()).collect(),
    }
}

#[test]
fn default_query_values() {
    let q = SearchQuery::default();
    assert!(q.is_empty());
    assert_eq!(q.num_results(), NUM_RESULTS_PER_PAGE);
    assert_eq!(q.offset(), 0);
    assert!(q.optic.is_none());
    assert!(q.host_rankings.is_none());
    assert!(!q.fetch_backlinks());
    assert!(q.signal_coefficients().coefficients.is_empty());
}

#[test]
fn offset_is_page_times_page_size() {
    let mut q = SearchQuery::default();
    q.query = "archive".to_string();
    q.page = 3;
    assert!(!q.is_empty());
    assert_eq!(q.text(), "archive");
    assert_eq!(q.offset(), 60);
}

#[test]
fn host_rankings_merge_query_then_optic() {
    let mut q = SearchQuery::default();
    q.host_rankings = Some(rankings(&["a.example"], &["b.example"], &[]));
    q.optic = Some(Optic { host_rankings: rankings(&["c.example"], &[], &["d.example"]) });
    let merged = q.host_rankings();
    assert_eq!(merged.liked, vec!["a.example".to_string(), "c.example".to_string()]);
    assert_eq!(merged.disliked, vec!["b.example".to_string()]);
    assert_eq!(merged.blocked, vec!["d.example".to_string()]);
    assert!(q.fetch_backlinks());
}

#[test]
fn fetch_backlinks_needs_liked_or_disliked() {
    let mut q = SearchQuery::default();
    q.host_rankings = Some(rankings(&[], &[], &["blocked.example"]));
    assert!(!q.fetch_backlinks());
    q.optic = Some(Optic { host_rankings: rankings(&[], &["bad.example"], &[]) });
    assert!(q.fetch_backlinks());
}

#[test]
fn into_websites_result_unwraps() {
    let result = SearchResult::Websites(WebsitesResult {
        webpages: Vec::new(),
        num_hits: Count::Exact(4),
        search_duration_ms: 21,
        has_more_results: false,
    });
    let websites = result.into_websites_result();
    assert_eq!(websites.search_duration_ms, 21);
    assert!(matches!(websites.num_hits, Count::Exact(4)));
}

#[test]
fn leta_extracts_results_through_pointers() {
    let data = vec![
        entry(Some(1), None, None, None),
        DataValue::Nums(vec![2]),
        entry(None, Some(3), Some(4), Some(5)),
        DataValue::Text("A title".to_string()),
        DataValue::Text("http://r.example/".to_string()),
        DataValue::Text("A snippet".to_string()),
    ];
    let results = parse_search_results(&data).expect("a well-formed response parses");
    assert_eq!(results.len(), 1);
    assert_eq!(results[0].title, "A title");
    assert_eq!(results[0].url, "http://r.example/");
    assert_eq!(results[0].snippet, "A snippet");
    assert_eq!(results[0].body, "A snippet");
}

#[test]
fn leta_empty_or_unshaped_responses_yield_no_results() {
    let empty: Vec<DataValue> = Vec::new();
    assert!(parse_search_results(&empty).unwrap().is_empty());

    let no_items = vec![entry(None, None, None, None)];
    assert!(parse_search_results(&no_items).unwrap().is_empty());

    let not_an_object = vec![DataValue::Num(9)];
    assert!(parse_search_results(&not_an_object).unwrap().is_empty());

    let items_out_of_range = vec![entry(Some(7), None, None, None)];
    assert!(parse_search_results(&items_out_of_range).unwrap().is_empty());

    let items_not_a_list = vec![entry(Some(1), None, None, None), DataValue::Num(3)];
    assert!(parse_search_results(&items_not_a_list).unwrap().is_empty());
}

#[test]
fn leta_reports_the_first_malformed_item() {
    // the pointed-at item is not an object
    let data = vec![
        entry(Some(1), None, None, None),
        DataValue::Nums(vec![2]),
        DataValue::Num(5),
    ];
    assert_eq!(
        parse_search_results(&data).unwrap_err(),
        SearchParseError::ExpectedObject { index: 2 }
    );

    // the item object lacks a title index
    let data = vec![
        entry(Some(1), None, None, None),
        DataValue::Nums(vec![2]),
        entry(None, None, Some(3), Some(3)),
        DataValue::Text("x".to_string()),
    ];
    assert_eq!(parse_search_results(&data).unwrap_err(), SearchParseError::MissingTitleIndex);

    // the item object lacks a link index
    let data = vec![
        entry(Some(1), None, None, None),
        DataValue::Nums(vec![2]),
        entry(None, Some(3), None, Some(3)),
        DataValue::Text("x".to_string()),
    ];
    assert_eq!(parse_search_results(&data).unwrap_err(), SearchParseError::MissingLinkIndex);

    // the item object lacks a snippet index
    let data = vec![
        entry(Some(1), None, None, None),
        DataValue::Nums(vec![2]),
        entry(None, Some(3), Some(3), None),
        DataValue::Text("x".to_string()),
    ];
    assert_eq!(parse_search_results(&data).unwrap_err(), SearchParseError::MissingSnippetIndex);

    // the title index points at a non-string node
    let data = vec![
        entry(Some(1), None, None, None),
        DataValue::Nums(vec![2]),
        entry(None, Some(1), Some(3), Some(3)),
        DataValue::Text("x".to_string()),
    ];
    assert_eq!(parse_search_results(&data).unwrap_err(), SearchParseError::MissingTitleString);

    // the url index points out of range
    let data = vec![
        entry(Some(1), None, None, None),
        DataValue::Nums(vec![2]),
        entry(None, Some(3), Some(9), Some(3)),
        DataValue::Text("x".to_string()),
    ];
    assert_eq!(parse_search_results(&data).unwrap_err(), SearchParseError::MissingUrlString);

    // the snippet index points at a non-string node
    let data = vec![
        entry(Some(1), None, None, None),
        DataValue::Nums(vec![2]),
        entry(None, Some(3), Some(3), Some(0)),
        DataValue::Text("x".to_string()),
    ];
    assert_eq!(parse_search_results(&data).unwrap_err(), SearchParseError::MissingSnippetString);

    // items are checked in pointer order: the first bad one is reported
    // even when a well-formed one precedes it
    let data = vec![
        entry(Some(1), None, None, None),
        DataValue::Nums(vec![3, 2]),
        DataValue::Num(5),
        entry(None, Some(4), Some(4), Some(4)),
        DataValue::Text("ok".to_string()),
    ];
    assert_eq!(
        parse_search_results(&data).unwrap_err(),
        SearchParseError::ExpectedObject { index: 2 }
    );
}
