use openai_models::urls::{build_models_urls, normalize_base_url};

#[test]
fn build_models_urls_handles_v1_and_fallback() {
    let urls = build_models_urls("https://api.example.com");
    assert_eq!(
        urls,
        vec![
            "https://api.example.com/v1/models".to_string(),
            "https://api.example.com/models".to_string()
        ]
    );

    let urls = build_models_urls("https://api.example.com/v1");
    assert_eq!(urls, vec!["https://api.example.com/v1/models".to_string()]);
}

#[test]
fn full_models_endpoint_is_the_only_candidate() {
    let urls = build_models_urls("  https://api.example.com/custom/models\n");
    assert_eq!(urls, vec!["https://api.example.com/custom/models".to_string()]);
}

#[test]
fn one_trailing_slash_is_dropped() {
    assert_eq!(
        build_models_urls("https://api.example.com/"),
        vec![
            "https://api.example.com/v1/models".to_string(),
            "https://api.example.com/models".to_string()
        ]
    );
    assert_eq!(
        build_models_urls(" https://api.example.com/v1/ "),
        vec!["https://api.example.com/v1/models".to_string()]
    );
    assert_eq!(
        build_models_urls("https://api.example.com/models/"),
        vec!["https://api.example.com/models".to_string()]
    );
}

#[test]
fn only_one_trailing_slash_is_dropped() {
    let root: String = normalize_base_url("https://api.example.com//").into_iter().collect();
    assert_eq!(root, "https://api.example.com/");
    assert_eq!(
        build_models_urls("https://api.example.com//"),
        vec![
            "https://api.example.com//v1/models".to_string(),
            "https://api.example.com//models".to_string()
        ]
    );
}

#[test]
fn empty_base_has_no_candidates() {
    assert!(build_models_urls("").is_empty());
    assert!(build_models_urls("   \t\n").is_empty());
    assert!(build_models_urls("/").is_empty());
    assert!(build_models_urls(" / ").is_empty());
}

#[test]
fn unicode_whitespace_is_trimmed() {
    let urls = build_models_urls("\u{3000}\u{a0}https://api.example.com\u{2003}\u{85}");
    assert_eq!(
        urls,
        vec![
            "https://api.example.com/v1/models".to_string(),
            "https://api.example.com/models".to_string()
        ]
    );
}

#[test]
fn inner_whitespace_and_slashes_stay() {
    let urls = build_models_urls("http://host/a b/v1x");
    assert_eq!(
        urls,
        vec!["http://host/a b/v1x/v1/models".to_string(), "http://host/a b/v1x/models".to_string()]
    );
}

#[test]
fn short_bases_are_handled() {
    assert_eq!(build_models_urls("/v1"), vec!["/v1/models".to_string()]);
    assert_eq!(build_models_urls("v1"), vec!["v1/v1/models".to_string(), "v1/models".to_string()]);
    assert_eq!(build_models_urls("/models"), vec!["/models".to_string()]);
    assert_eq!(build_models_urls("x"), vec!["x/v1/models".to_string(), "x/models".to_string()]);
}

#[test]
fn candidates_are_distinct() {
    for base in ["https://a", "https://a/v1", "https://a/models", "", "a/"] {
        let urls = build_models_urls(base);
        assert!(urls.len() <= 2);
        if urls.len() == 2 {
            assert_ne!(urls[0], urls[1]);
        }
    }
}
