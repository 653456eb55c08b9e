use mona::candidate::CandidateRecord;
use mona::candidate::IdValue;
use mona::score::calculate_enhanced_title_relevance;
use mona::score::hybrid_priority_score;
use mona::score::rank_candidates;
use mona::score::select_best_match;

fn record(
    image_url: Option<&str>,
    primary_language: Option<&str>,
    media_kind: Option<&str>,
    name: &str,
    eng_translation: &str,
    slug: &str,
    aliases: &[&str],
) -> CandidateRecord {
    CandidateRecord {
        tvdb_id: None,
        id: None,
        object_id_upper: None,
        object_id_camel: None,
        object_id_snake: None,
        image_url: image_url.map(str::to_string),
        image: None,
        primary_language: primary_language.map(str::to_string),
        media_kind: media_kind.map(str::to_string),
        name: Some(name.to_string()),
        slug: Some(slug.to_string()),
        eng_translation: Some(eng_translation.to_string()),
        aliases: aliases.iter().map(|a| a.to_string()).collect(),
        raw_text: format!("{{\"name\":\"{}\",\"slug\":\"{}\"}}", name, slug),
    }
}

#[test]
fn test_title_relevance_exact_match() {
    let obj = record(None, None, None, "Yuyushiki", "Yuyushiki", "yuyushiki", &["Yuyu Shiki"]);
    let score = calculate_enhanced_title_relevance(&obj, "Yuyushiki");
    assert_eq!(score, 100);
}

#[test]
fn test_title_relevance_partial_match() {
    let obj = record(None, None, None, "Toradora", "Toradora", "toradora", &["Tiger x Dragon"]);
    let score = calculate_enhanced_title_relevance(&obj, "Tiger");
    assert!(score > 0);
    assert!(score <= 90);
}

#[test]
fn test_title_relevance_blank_query() {
    let obj = record(None, None, None, "Yuyushiki", "Yuyushiki", "yuyushiki", &[]);
    assert_eq!(calculate_enhanced_title_relevance(&obj, ""), 0);
    assert_eq!(calculate_enhanced_title_relevance(&obj, "   \t  "), 0);
}

#[test]
fn test_title_relevance_exact_match_from_trimmed_slug() {
    let obj = record(None, None, None, "Other", "Other", "tiger-dragon-2008", &[]);
    // the trailing -2008 is stripped and hyphens become spaces
    let score = calculate_enhanced_title_relevance(&obj, "Tiger Dragon");
    assert_eq!(score, 2 * 100); // two query tokens: score is scaled by 2
}

#[test]
fn test_title_relevance_word_overlap() {
    let obj = record(None, None, None, "Tiger Castle", "Tiger Castle", "tiger-castle", &[]);
    // "dragon" misses, "tiger" hits: 80 * 1 matched of 2 tokens, scaled by 2
    let score = calculate_enhanced_title_relevance(&obj, "Tiger Dragon");
    assert_eq!(score, 80);
}

#[test]
fn test_hybrid_priority_score_prefers_anime_metadata() {
    let obj = record(
        Some("https://example.com/poster.jpg"),
        Some("jpn"),
        Some("series"),
        "Example",
        "Example",
        "example",
        &[],
    );
    let score = hybrid_priority_score(&obj, "Example");
    assert!(score > 0);
}

#[test]
fn test_hybrid_score_asian_language_increases() {
    let base = record(
        Some("https://example.com/poster.jpg"),
        Some("eng"),
        Some("series"),
        "Example",
        "Example",
        "example",
        &[],
    );
    let mut asian = record(
        Some("https://example.com/poster.jpg"),
        Some("jpn"),
        Some("series"),
        "Example",
        "Example",
        "example",
        &[],
    );
    asian.raw_text = base.raw_text.clone();
    assert!(hybrid_priority_score(&asian, "Example") > hybrid_priority_score(&base, "Example"));
}

#[test]
fn test_hybrid_score_missing_image_scores_lower() {
    let with_image = record(
        Some("https://example.com/poster.jpg"),
        None,
        None,
        "Example",
        "Example",
        "example",
        &[],
    );
    let mut missing = record(Some("missing"), None, None, "Example", "Example", "example", &[]);
    missing.raw_text = with_image.raw_text.clone();
    assert!(
        hybrid_priority_score(&with_image, "Example") > hybrid_priority_score(&missing, "Example")
    );
}

#[test]
fn test_select_best_match() {
    let better = record(
        Some("https://example.com/poster.jpg"),
        Some("jpn"),
        Some("series"),
        "Toradora",
        "Toradora",
        "toradora",
        &[],
    );
    let worse = record(
        Some("missing"),
        Some("eng"),
        Some("movie"),
        "Random",
        "Random",
        "random",
        &[],
    );
    let results = vec![worse, better];
    let selected = select_best_match(&results, "Toradora").expect("no match selected");
    assert_eq!(results[selected].name.as_deref(), Some("Toradora"));
}

#[test]
fn test_select_best_match_empty_results() {
    let results: Vec<CandidateRecord> = Vec::new();
    assert!(select_best_match(&results, "anything").is_none());
}

#[test]
fn test_rank_candidates_descending_and_stable() {
    let top = record(
        Some("https://example.com/a.jpg"),
        Some("jpn"),
        Some("series"),
        "Alpha",
        "Alpha",
        "alpha",
        &[],
    );
    let mid_one = record(None, None, None, "Beta", "Beta", "beta", &[]);
    let mid_two = record(None, None, None, "Gamma", "Gamma", "gamma", &[]);
    // equal scores for the two misses: their original order must be kept
    let results = vec![mid_one, top, mid_two];
    let order = rank_candidates(&results, "Alpha");
    assert_eq!(order, vec![1usize, 0, 2]);
}

#[test]
fn test_extract_tvdb_id_key_order_and_coercion() {
    let mut obj = record(None, None, None, "X", "X", "x", &[]);
    // the first present key decides: a value that does not coerce yields
    // no identifier, even with a numeric value under a later key
    obj.tvdb_id = Some(IdValue::Other);
    obj.id = Some(IdValue::Text("123".to_string()));
    assert_eq!(mona::candidate::extract_tvdb_id(&obj), None);

    obj.tvdb_id = Some(IdValue::Num(7));
    assert_eq!(mona::candidate::extract_tvdb_id(&obj), Some(7));

    // later keys are reached only when the earlier ones are absent
    obj.tvdb_id = None;
    obj.id = None;
    obj.object_id_snake = Some(IdValue::Text("+42".to_string()));
    assert_eq!(mona::candidate::extract_tvdb_id(&obj), Some(42));

    // a numeric string out of range coerces to nothing
    obj.object_id_snake = Some(IdValue::Text("99999999999999999999999999".to_string()));
    assert_eq!(mona::candidate::extract_tvdb_id(&obj), None);
}

#[test]
fn test_extract_image_url_fallback_key() {
    let mut obj = record(None, None, None, "X", "X", "x", &[]);
    obj.image = Some("https://example.com/alt.jpg".to_string());
    assert_eq!(
        mona::candidate::extract_image_url(&obj).as_deref(),
        Some("https://example.com/alt.jpg")
    );
    obj.image_url = Some("https://example.com/main.jpg".to_string());
    assert_eq!(
        mona::candidate::extract_image_url(&obj).as_deref(),
        Some("https://example.com/main.jpg")
    );
}
