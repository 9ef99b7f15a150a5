use pole_rust::specification::{Api, MatchString, MatchStringType, ValueType};
use pole_rust::traffic::matcher::{ApiMatchIndex, ApiMatchInput, api_matches};

fn exact_api(method: &str, path: &str) -> Api {
    Api {
        protocol: String::new(),
        method: method.to_string(),
        path: Some(MatchString { match_type: MatchStringType::Exact, value: path.to_string(), value_type: ValueType::Text }),
    }
}

fn regex_api(method: &str, path: &str) -> Api {
    Api {
        protocol: String::new(),
        method: method.to_string(),
        path: Some(MatchString { match_type: MatchStringType::Regex, value: path.to_string(), value_type: ValueType::Text }),
    }
}

fn index_of(entries: &[(u32, Vec<Api>)]) -> ApiMatchIndex {
    ApiMatchIndex::new(&entries.iter().map(|(_, apis)| apis.clone()).collect::<Vec<_>>())
}

#[test]
fn api_index_uses_exact_path_trie_to_reduce_candidates() {
    let mut entries = (0..1_000).map(|idx| (idx, vec![exact_api("GET", &format!("/orders/{idx}"))])).collect::<Vec<_>>();
    entries.push((1_001, vec![exact_api("GET", "/orders/target")]));
    entries.push((1_002, vec![regex_api("GET", r"^/orders/target$")]));
    entries.push((1_003, Vec::new()));

    let index = index_of(&entries);
    let candidates = index.candidates(&ApiMatchInput::new(Some("GET".to_string()), Some("/orders/target".to_string())));

    assert_eq!(candidates.iter().map(|&p| entries[p].0).collect::<Vec<_>>(), vec![1_001, 1_002, 1_003]);
}

#[test]
fn api_match_requires_path_when_api_path_is_configured() {
    let input = ApiMatchInput::new(Some("GET".to_string()), None);

    assert!(!api_matches(&input, &exact_api("GET", "/orders/42")));
}

#[test]
fn api_match_keeps_empty_api_list_as_match_all() {
    let entries = vec![(7, Vec::new())];
    let index = index_of(&entries);

    assert_eq!(index.candidates(&ApiMatchInput::new(None, None)).iter().map(|&p| entries[p].0).collect::<Vec<_>>(), vec![7]);
}

#[test]
fn api_index_deduplicates_entries_with_multiple_matching_apis() {
    let entries = vec![(7, vec![exact_api("GET", "/orders/42"), regex_api("GET", r"^/orders/\d+$")])];
    let index = index_of(&entries);

    let candidates = index.candidates(&ApiMatchInput::new(Some("GET".to_string()), Some("/orders/42".to_string())));

    assert_eq!(candidates.iter().map(|&p| entries[p].0).collect::<Vec<_>>(), vec![7]);
}

#[test]
fn api_index_skips_other_methods() {
    let entries = vec![(1, vec![exact_api("POST", "/orders/42")]), (2, vec![exact_api("GET", "/orders/42")])];
    let index = index_of(&entries);
    let candidates = index.candidates(&ApiMatchInput::new(Some("GET".to_string()), Some("/orders/42".to_string())));
    assert_eq!(candidates.iter().map(|&p| entries[p].0).collect::<Vec<_>>(), vec![2]);
}
