use imdbdownloader::config::Config;
use imdbdownloader::subtitles::{
    effective_imdb_id, absolute_url, url_extension, direct_subtitle, subtitles_path, select_subtitle,
    listed_subtitle_url, subtitle_extension, replace_extension, language_code, can_make_language_code,
    embed_command, downloading_message, subtitle_mode, subtitle_file_path, SubtitleMode, try_language_code, temp_subtitle_path, embed_command_fd, SubtitleEntry,
};

fn config() -> Config {
    Config {
        threads: 1,
        fragments: 8,
        api_key: String::new(),
        embed_subs: true,
        sub_lang: "Japanese".to_string(),
        sub_imdb_id: String::new(),
        base_url: "https://api.example".to_string(),
        sub_only: false,
        skip_existing: false,
        use_ram_disk: false,
        ram_disk_path: None,
    }
}

fn entry(lang: Option<&str>, url: Option<&str>, format: Option<&str>, filename: Option<&str>) -> SubtitleEntry {
    SubtitleEntry {
        language: lang.map(String::from),
        url: url.map(String::from),
        format: format.map(String::from),
        filename: filename.map(String::from),
    }
}

#[test]
fn imdb_id_for_subtitles() {
    let mut c = config();
    assert_eq!(effective_imdb_id(&c, "tt1"), "tt1");
    c.sub_imdb_id = "tt2".to_string();
    assert_eq!(effective_imdb_id(&c, "tt1"), "tt2");
}

#[test]
fn links_and_extensions() {
    assert_eq!(absolute_url("https://x/a.vtt", "https://api"), "https://x/a.vtt");
    assert_eq!(absolute_url("/subs/a.vtt", "https://api"), "https://api/subs/a.vtt");
    assert_eq!(url_extension("https://x/a/b.SRT?x=1.2"), "srt");
    assert_eq!(url_extension("https://x/noext"), "vtt");
    assert_eq!(url_extension("https://a.B/noext"), "b/noext");
    assert_eq!(url_extension("noext"), "vtt");
    assert_eq!(url_extension("https://a/c."), "vtt");
}

#[test]
fn direct_links_make_an_entry() {
    let c = config();
    let (e, url) = direct_subtitle("/sub/file.ASS?t=1", &c);
    assert_eq!(url, "https://api.example/sub/file.ASS?t=1");
    assert_eq!(e.language.as_deref(), Some("Japanese"));
    assert_eq!(e.format.as_deref(), Some("ass"));
    assert_eq!(e.filename.as_deref(), Some("subtitle.ass"));
    let mut c2 = config();
    c2.sub_lang = String::new();
    let (e2, _) = direct_subtitle("https://s/x", &c2);
    assert_eq!(e2.language.as_deref(), Some("English"));
}

#[test]
fn subtitle_list_paths() {
    assert_eq!(subtitles_path("tt1", "2", 5), "/subtitles/show/tt1/2/5");
    assert_eq!(subtitles_path("tt1", "", 0), "/subtitles/movie/tt1");
}

#[test]
fn preferred_language_is_chosen_without_case() {
    let subs = vec![
        entry(Some("English"), Some("/e"), None, None),
        entry(None, None, None, None),
        entry(Some("JAPANESE"), Some("https://j"), None, None),
        entry(Some("japanese"), None, None, None),
    ];
    assert_eq!(select_subtitle(&subs, "Japanese"), 2);
    assert_eq!(select_subtitle(&subs, "German"), 0);
    assert_eq!(select_subtitle(&subs, ""), 1);
    assert_eq!(listed_subtitle_url(&subs[0], "https://api"), "https://api/e");
    assert_eq!(listed_subtitle_url(&subs[1], "https://api"), "");
}

#[test]
fn extensions_of_subtitle_files() {
    assert_eq!(subtitle_extension(&entry(None, None, Some("VTT"), Some("a.srt"))), ".vtt");
    assert_eq!(subtitle_extension(&entry(None, None, Some(""), Some("a.ass"))), ".srt");
    assert_eq!(subtitle_extension(&entry(None, None, None, Some("x.y.ass"))), ".ass");
    assert_eq!(subtitle_extension(&entry(None, None, None, Some("noext"))), ".srt");
    assert_eq!(subtitle_extension(&entry(None, None, None, None)), ".srt");
    assert_eq!(replace_extension("./Show/S1/Show-S1-E1.mp4", ".srt"), "./Show/S1/Show-S1-E1.srt");
    assert_eq!(replace_extension("video", ".temp.mp4"), "video.temp.mp4");
}

#[test]
fn language_codes() {
    assert_eq!(language_code(&entry(Some("English"), None, None, None)), "eng");
    assert_eq!(language_code(&entry(None, None, None, None)), "eng");
    assert_eq!(language_code(&entry(Some("FR"), None, None, None)), "fr");
    assert!(!can_make_language_code(&entry(Some("Ελληνικά"), None, None, None)));
    assert!(can_make_language_code(&entry(Some("日本語"), None, None, None)));
    assert_eq!(language_code(&entry(Some("日本語"), None, None, None)), "日");
    assert_eq!(try_language_code(&entry(Some("Ελληνικά"), None, None, None)), None);
    assert_eq!(try_language_code(&entry(Some("Deutsch"), None, None, None)).as_deref(), Some("deu"));
}

#[test]
fn embedding_command_and_messages() {
    assert_eq!(
        embed_command("v.mp4", "v.srt", "eng", "v.temp.mp4"),
        "ffmpeg -y -i \"v.mp4\" -i \"v.srt\" -c copy -c:s mov_text -metadata:s:s:0 language=eng \"v.temp.mp4\" > /dev/null 2>&1"
    );
    assert_eq!(downloading_message(&entry(None, None, None, None)), "[Subs] Downloading Unknown subtitle...");
    assert_eq!(downloading_message(&entry(Some("English"), None, None, None)), "[Subs] Downloading English subtitle...");
    let mut c = config();
    assert!(matches!(subtitle_mode(&c), SubtitleMode::Embed));
    c.embed_subs = false;
    assert!(matches!(subtitle_mode(&c), SubtitleMode::KeepBeside));
    c.sub_only = true;
    assert!(matches!(subtitle_mode(&c), SubtitleMode::KeepBeside));
}

#[test]
fn memory_disk_subtitle_commands() {
    assert_eq!(temp_subtitle_path(4242, ".srt"), "/tmp/imdb_sub_4242.srt");
    assert_eq!(
        embed_command_fd(3, "/tmp/s.srt", "eng", 4),
        "ffmpeg -y -i \"/dev/fd/3\" -i \"/tmp/s.srt\" -c copy -c:s mov_text -metadata:s:s:0 language=eng \"/dev/fd/4\" > /dev/null 2>&1"
    );
}

#[test]
fn subtitles_are_kept_beside_the_video() {
    assert_eq!(subtitle_file_path("./Film.mp4", &entry(None, None, Some("VTT"), None)), "./Film.vtt");
    assert_eq!(subtitle_file_path("./S/Season_1/S-S1-E2.mp4", &entry(None, None, None, None)), "./S/Season_1/S-S1-E2.srt");
}
