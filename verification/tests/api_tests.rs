use imdbdownloader::api::{
    strip_to_json, sanitize_filename, is_show_type, metadata_is_show, fallback_metadata,
    resolve_metadata, info_path, api_url, media_parts, Metadata,
};

#[test]
fn answers_are_cut_to_their_json() {
    assert_eq!(strip_to_json("junk{\"a\":1}"), "{\"a\":1}");
    assert_eq!(strip_to_json("xx[1,{2}]"), "[1,{2}]");
    assert_eq!(strip_to_json("no json"), "no json");
    assert_eq!(strip_to_json("é{}"), "{}");
    let once = strip_to_json("<html>{\"k\":[]}");
    assert_eq!(strip_to_json(once), once);
}

#[test]
fn titles_become_safe_file_names() {
    assert_eq!(sanitize_filename("My Movie: Part 2!"), "My_Movie_Part_2");
    assert_eq!(sanitize_filename("Amélie (2001)"), "Amlie_2001");
    assert_eq!(sanitize_filename("a-b_c"), "a-b_c");
    let once = sanitize_filename("Déjà vu / 3");
    assert_eq!(sanitize_filename(&once), once);
}

#[test]
fn show_types() {
    assert!(is_show_type("TV Series"));
    assert!(is_show_type("tvMiniSeries"));
    assert!(is_show_type("SPECIAL"));
    assert!(!is_show_type("movie"));
    assert!(!is_show_type(""));
    assert!(is_show_type("TV Séries"));
    assert!(is_show_type("\u{17f}HOW"));
    assert!(!is_show_type("Séries"));
    assert!(!is_show_type("Ｔｖ"));
}

fn meta(media_type: Option<&str>, type_field: Option<&str>) -> Metadata {
    Metadata {
        title: "T".to_string(),
        original_title: None,
        media_type: media_type.map(String::from),
        type_field: type_field.map(String::from),
        year: None,
        episodes: None,
        has_primary_stream: None,
    }
}

#[test]
fn metadata_decides_show_or_movie() {
    assert!(metadata_is_show(&meta(Some("tvSeries"), None)));
    assert!(!metadata_is_show(&meta(Some("movie"), Some("tv"))));
    assert!(metadata_is_show(&meta(None, Some("episode"))));
    assert!(!metadata_is_show(&meta(None, None)));
}

#[test]
fn fallback_when_the_api_gives_nothing() {
    let m = fallback_metadata("miruro", "21355");
    assert_eq!(m.title, "miruro:21355");
    assert_eq!(m.media_type.as_deref(), Some("movie"));
    assert_eq!(m.has_primary_stream, Some(false));
    assert!(m.episodes.is_none() && m.year.is_none() && m.type_field.is_none());
    let r = resolve_metadata(Some(meta(Some("tv"), None)), "p", "i");
    assert_eq!(r.media_type.as_deref(), Some("tv"));
    let f = resolve_metadata(None, "p", "i");
    assert_eq!(f.title, "p:i");
}

#[test]
fn api_paths() {
    assert_eq!(info_path("imdb", "tt1", &vec![]), "/info?provider=imdb&id=tt1");
    assert_eq!(info_path("miruro", "21355", &vec!["ssub".to_string(), "x".to_string()]), "/info?provider=miruro&id=21355&args=ssub&args=x");
    assert_eq!(api_url("https://aniapi.kobosh.com", "/info"), "https://aniapi.kobosh.com/info");
}

#[test]
fn media_ids_split_into_provider_id_and_arguments() {
    let owned = |v: &[&str]| v.iter().map(|s| s.to_string()).collect::<Vec<String>>();
    assert_eq!(media_parts("miruro:21355:ssub"), ("miruro".to_string(), "21355".to_string(), owned(&["ssub"])));
    assert_eq!(media_parts("tt0903747"), ("imdb".to_string(), "tt0903747".to_string(), Vec::new()));
    assert_eq!(media_parts("a::b"), ("a".to_string(), String::new(), owned(&["b"])));
    assert_eq!(media_parts(""), ("imdb".to_string(), String::new(), Vec::new()));
    assert_eq!(media_parts("p:x:"), ("p".to_string(), "x".to_string(), owned(&[""])));
    for id in ["tmdb:1396", "x:y:z:w", "é:ü", ":"] {
        let parts: Vec<&str> = id.split(':').collect();
        assert_eq!(media_parts(id), (parts[0].to_string(), parts[1].to_string(), owned(&parts[2..])));
    }
}
