use mona::artwork::ArtworkEntry;
use mona::artwork::FanartAction;
use mona::artwork::SeasonEntry;
use mona::artwork::choose_fanart_image;
use mona::artwork::fanart_plan;
use mona::artwork::limit_series_fanart;
use mona::artwork::movie_fanart_filter;
use mona::artwork::poster_image_choice;
use mona::artwork::season_id_for;
use mona::artwork::season_poster_from;
use mona::cache::RedirectCache;
use mona::cache::cache_check;
use mona::cache::cache_store_response;
use mona::candidate::CandidateRecord;
use mona::candidate::IdValue;
use mona::query::ParsedQuery;
use mona::query::get_search_string;
use mona::query::parse_query;
use mona::query::search_by_title_attempts;
use mona::query::search_candidate_attempts;
use mona::query::slugify;
use mona::request::extract_query_param;
use mona::request::is_allowed_torrent_url;
use mona::scrape::find_image_url;
use mona::scrape::subsplease_image_from_page;
use mona::scrape::subsplease_urls;
use mona::scrape::torrent_art_from_page;
use mona::session::AuthSession;

#[test]
fn test_get_search_string() {
    let parsed = ParsedQuery {
        file_name: "file.mkv".to_string(),
        anime_title: "Toradora".to_string(),
        anime_year: Some("2008".to_string()),
        anime_season: None,
    };
    assert_eq!(get_search_string(&parsed), "Toradora (2008)");
}

#[test]
fn test_get_search_string_without_year() {
    let parsed = ParsedQuery {
        file_name: String::new(),
        anime_title: "Toradora".to_string(),
        anime_year: None,
        anime_season: None,
    };
    assert_eq!(get_search_string(&parsed), "Toradora");
}

#[test]
fn test_search_ladder_order() {
    let parsed = ParsedQuery {
        file_name: "raw.mkv".to_string(),
        anime_title: "Toradora".to_string(),
        anime_year: Some("2008".to_string()),
        anime_season: None,
    };
    assert_eq!(
        search_candidate_attempts(&parsed),
        vec!["raw.mkv".to_string(), "Toradora (2008)".to_string(), "Toradora".to_string()]
    );
    assert_eq!(
        search_by_title_attempts(&parsed),
        vec!["Toradora (2008)".to_string(), "Toradora".to_string()]
    );

    let no_year = ParsedQuery {
        file_name: String::new(),
        anime_title: "Toradora".to_string(),
        anime_year: None,
        anime_season: None,
    };
    assert_eq!(search_candidate_attempts(&no_year), vec!["Toradora".to_string()]);
}

#[test]
fn test_slugify_basic() {
    let input = "[SubsPlease] My Show (2020) - 01";
    let output = slugify(input);
    assert_eq!(output, "my-show-2020-01");
}

#[test]
fn test_slugify_unclosed_bracket_and_apostrophe() {
    assert_eq!(slugify("Kaguya's [Love"), "kaguyas-love");
    assert_eq!(slugify("A+B @ C"), "ab-c");
}

#[test]
fn test_parse_query_from_filename() {
    let query = "[TaigaSubs]_Toradora!_(2008)_-_01v2_-_Tiger_and_Dragon_[1280x720_H.264_FLAC][1234ABCD].mkv";
    let parsed = parse_query(query).expect("failed to parse");
    assert_eq!(parsed.anime_title, "Toradora!");
    assert_eq!(parsed.anime_year.as_deref(), Some("2008"));
}

#[test]
fn test_parse_query_rejects_nul() {
    // the filename parser cannot take a NUL, so such a query is invalid
    assert!(parse_query("Toradora\u{0}!").is_none());
}

#[test]
fn test_cache_aside_round_trip() {
    let mut cache = RedirectCache::new(5000, Some(259200));
    let key = Some("raw query value".to_string());
    assert_eq!(cache_check(&cache, &key, 100), None);

    // the handler answered with a temporary redirect to U
    let location = Some("https://img.example/u.jpg".to_string());
    cache_store_response(&mut cache, &key, 307, &location, 100);

    // an immediate identical request is answered from the cache
    assert_eq!(cache_check(&cache, &key, 100).as_deref(), Some("https://img.example/u.jpg"));
}

#[test]
fn test_cache_ignores_non_redirect_responses() {
    let mut cache = RedirectCache::new(10, Some(100));
    let key = Some("k".to_string());
    cache_store_response(&mut cache, &key, 404, &Some("https://x".to_string()), 0);
    assert_eq!(cache_check(&cache, &key, 0), None);
    cache_store_response(&mut cache, &None, 307, &Some("https://x".to_string()), 0);
    assert_eq!(cache_check(&cache, &key, 0), None);
}

#[test]
fn test_cache_ttl_expiry() {
    let mut cache = RedirectCache::new(10, Some(10));
    cache.insert("k".to_string(), "v".to_string(), 100);
    assert_eq!(cache.get(&"k".to_string(), 109).as_deref(), Some("v"));
    assert_eq!(cache.get(&"k".to_string(), 110), None);

    let mut forever = RedirectCache::new(10, None);
    forever.insert("k".to_string(), "v".to_string(), 100);
    assert_eq!(forever.get(&"k".to_string(), u64::MAX).as_deref(), Some("v"));
}

#[test]
fn test_cache_capacity_evicts_oldest() {
    let mut cache = RedirectCache::new(2, None);
    cache.insert("a".to_string(), "1".to_string(), 0);
    cache.insert("b".to_string(), "2".to_string(), 1);
    cache.insert("c".to_string(), "3".to_string(), 2);
    assert_eq!(cache.get(&"a".to_string(), 3), None);
    assert_eq!(cache.get(&"b".to_string(), 3).as_deref(), Some("2"));
    assert_eq!(cache.get(&"c".to_string(), 3).as_deref(), Some("3"));
}

#[test]
fn test_extract_query_param_decodes_value() {
    let q = Some("query=a%20b%21&url=https%3A%2F%2Fnyaa.si%2Fview%2F1");
    assert_eq!(extract_query_param(q, "query").as_deref(), Some("a b!"));
    assert_eq!(extract_query_param(q, "url").as_deref(), Some("https://nyaa.si/view/1"));
    assert_eq!(extract_query_param(q, "missing"), None);
    assert_eq!(extract_query_param(None, "query"), None);
}

#[test]
fn test_torrent_url_validation() {
    assert!(is_allowed_torrent_url("https://nyaa.si/view/2055976"));
    assert!(is_allowed_torrent_url("https://sukebei.nyaa.si/view/1"));
    assert!(!is_allowed_torrent_url("https://example.com/view/1"));
    assert!(!is_allowed_torrent_url("http://nyaa.si/view/1"));
}

#[test]
fn test_session_lifecycle() {
    let mut session = AuthSession::new();
    assert!(session.needs_login(0));

    // an unsuccessful response leaves the session unchanged
    assert_eq!(session.apply_login_response(false, Some("t0".to_string()), 50), None);
    assert!(session.needs_login(50));

    // a successful response installs the token for one hour
    let token = session.apply_login_response(true, Some("t1".to_string()), 100);
    assert_eq!(token.as_deref(), Some("t1"));
    assert!(!session.needs_login(100));
    assert!(!session.needs_login(3699));
    assert!(session.needs_login(3700));
}

#[test]
fn test_season_artwork_resolution() {
    // a series whose season list holds {number: 2, id: 999}
    let seasons = vec![
        SeasonEntry { number: Some(1), id: Some(998) },
        SeasonEntry { number: Some(2), id: Some(999) },
    ];
    assert_eq!(season_id_for(&seasons, "2"), Some(999));

    // season 999's artwork holds one item {type: 7, image: "X"}
    let artwork = vec![
        ArtworkEntry { kind: Some(2), image: Some("other".to_string()) },
        ArtworkEntry { kind: Some(7), image: Some("X".to_string()) },
    ];
    let season_image = season_poster_from(&artwork);
    assert_eq!(season_image.as_deref(), Some("X"));

    // the season poster wins over a present series-level image
    let chosen = poster_image_choice(season_image, Some("series-level.jpg".to_string()));
    assert_eq!(chosen.as_deref(), Some("X"));
}

#[test]
fn test_season_id_skips_entries_without_id() {
    let seasons = vec![
        SeasonEntry { number: Some(2), id: None },
        SeasonEntry { number: Some(2), id: Some(7) },
    ];
    assert_eq!(season_id_for(&seasons, "2"), Some(7));
    assert_eq!(season_id_for(&seasons, "3"), None);
    assert_eq!(season_id_for(&seasons, "not a number"), None);

    // a season string that does not parse matches no season, not even one
    // whose number field is absent
    let unnumbered = vec![SeasonEntry { number: None, id: Some(5) }];
    assert_eq!(season_id_for(&unnumbered, "not a number"), None);
    assert_eq!(season_id_for(&unnumbered, "2"), None);
}

#[test]
fn test_limit_series_fanart() {
    let artworks: Vec<ArtworkEntry> = (0..5)
        .map(|i| ArtworkEntry { kind: Some(3), image: Some(format!("img{}", i)) })
        .collect();
    let limited = limit_series_fanart(&artworks);
    assert_eq!(limited.len(), 3);
    assert_eq!(limited[0].image.as_deref(), Some("img0"));
    assert_eq!(limited[2].image.as_deref(), Some("img2"));

    let short = vec![ArtworkEntry { kind: Some(3), image: None }];
    assert_eq!(limit_series_fanart(&short).len(), 1);
}

fn candidate_with(kind: Option<&str>, id: Option<IdValue>) -> CandidateRecord {
    CandidateRecord {
        tvdb_id: id,
        id: None,
        object_id_upper: None,
        object_id_camel: None,
        object_id_snake: None,
        image_url: None,
        image: None,
        primary_language: None,
        media_kind: kind.map(str::to_string),
        name: Some("X".to_string()),
        slug: Some("x".to_string()),
        eng_translation: None,
        aliases: Vec::new(),
        raw_text: "{}".to_string(),
    }
}

#[test]
fn test_fanart_plan_dispatch() {
    let series = candidate_with(Some("series"), Some(IdValue::Num(42)));
    assert!(matches!(fanart_plan(&series), FanartAction::FetchSeriesArtworks { series_id: 42 }));

    let movie = candidate_with(Some("movie"), Some(IdValue::Num(7)));
    assert!(matches!(fanart_plan(&movie), FanartAction::FetchMovieExtended { movie_id: 7 }));

    let no_id = candidate_with(Some("series"), None);
    assert!(matches!(fanart_plan(&no_id), FanartAction::Skip));

    let odd_kind = candidate_with(Some("person"), Some(IdValue::Num(1)));
    assert!(matches!(fanart_plan(&odd_kind), FanartAction::Skip));
}

#[test]
fn test_movie_fanart_filter_keeps_backdrops() {
    let artworks = vec![
        ArtworkEntry { kind: Some(15), image: Some("a".to_string()) },
        ArtworkEntry { kind: Some(3), image: Some("b".to_string()) },
        ArtworkEntry { kind: Some(15), image: None },
    ];
    let filtered = movie_fanart_filter(&artworks).expect("backdrops expected");
    assert_eq!(filtered.len(), 2);
    assert_eq!(filtered[0].image.as_deref(), Some("a"));
    assert_eq!(filtered[1].image, None);

    let none = vec![ArtworkEntry { kind: Some(3), image: Some("b".to_string()) }];
    assert!(movie_fanart_filter(&none).is_none());
}

#[test]
fn test_choose_fanart_image() {
    let artworks = vec![
        ArtworkEntry { kind: Some(3), image: None },
        ArtworkEntry { kind: Some(3), image: Some("only.jpg".to_string()) },
    ];
    assert_eq!(choose_fanart_image(&artworks).as_deref(), Some("only.jpg"));

    let imageless = vec![ArtworkEntry { kind: Some(3), image: None }];
    assert_eq!(choose_fanart_image(&imageless), None);
}

#[test]
fn test_find_image_url_grammar() {
    assert_eq!(
        find_image_url("see <a href=\"https://img.example/a.png\">x</a>").as_deref(),
        Some("https://img.example/a.png")
    );
    assert_eq!(
        find_image_url("first http://a.io/x.jpg then https://b.io/y.gif").as_deref(),
        Some("http://a.io/x.jpg")
    );
    assert_eq!(
        find_image_url("pic https://img.example/photo.jpeg tail").as_deref(),
        Some("https://img.example/photo.jpeg")
    );
    assert_eq!(find_image_url("no scheme img.example/a.png"), None);
    assert_eq!(find_image_url("https://img.example/a.txt"), None);
}

#[test]
fn test_torrent_art_from_page() {
    let body = "<html><body>\
        <div id=\"torrent-description\">cover: https://img.example/cover.jpg end</div>\
        </body></html>";
    assert_eq!(torrent_art_from_page(200, body).as_deref(), Some("https://img.example/cover.jpg"));
    assert_eq!(torrent_art_from_page(404, body), None);
    assert_eq!(torrent_art_from_page(200, "<html><div>no container</div></html>"), None);
}

#[test]
fn test_subsplease_probe_plan() {
    assert_eq!(
        subsplease_urls("My Show"),
        vec![
            "https://subsplease.org/shows/my-show".to_string(),
            "https://subsplease.org/shows/my".to_string(),
            "https://subsplease.org/shows/".to_string(),
        ]
    );
    assert_eq!(
        subsplease_urls(""),
        vec![
            "https://subsplease.org/shows/".to_string(),
            "https://subsplease.org/shows/".to_string(),
        ]
    );
}

#[test]
fn test_subsplease_image_from_page() {
    let body = "<html><body><img src=\"/images/poster.webp\"></body></html>";
    assert_eq!(
        subsplease_image_from_page(200, body).as_deref(),
        Some("https://subsplease.org/images/poster.webp")
    );
    assert_eq!(subsplease_image_from_page(500, body), None);
    assert_eq!(subsplease_image_from_page(200, "<html><p>bare</p></html>"), None);
}
