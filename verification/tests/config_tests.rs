use imdbdownloader::config::{resolve_api_key, subtitle_imdb_id, required_tools, build_config, Args};
use imdbdownloader::ram::{ram_disk_hash, to_hex_lower, ram_volume_name, macos_mount_path, ram_output_path, path_file_name, join_path, home_or_default, linux_mount_path};

#[test]
fn api_key_choice() {
    assert_eq!(resolve_api_key(Some("  env \n"), None).as_deref(), Some("env"));
    assert_eq!(resolve_api_key(Some("env"), Some(" cli ")).as_deref(), Some("cli"));
    assert_eq!(resolve_api_key(Some("env"), Some("   ")), None);
    assert_eq!(resolve_api_key(None, None), None);
}

#[test]
fn subtitle_ids() {
    assert_eq!(subtitle_imdb_id(None, "tt0480489"), "tt0480489");
    assert_eq!(subtitle_imdb_id(None, "miruro:21355:ssub"), "");
    assert_eq!(subtitle_imdb_id(Some("tt1"), "miruro:1"), "tt1");
    assert_eq!(subtitle_imdb_id(None, "t"), "");
    assert!(!imdbdownloader::text::can_cut("aé", 2));
}

#[test]
fn tools_needed() {
    assert_eq!(required_tools(false), vec!["yt-dlp", "ffmpeg"]);
    assert_eq!(required_tools(true), vec!["ffmpeg"]);
}

#[test]
fn settings_from_options() {
    let a = Args {
        imdb_id: "tt1".to_string(),
        key: None,
        threads: 3,
        concurrent_fragments: 8,
        embed_subs: true,
        sub_lang: "English".to_string(),
        imdb: None,
        base_url: "https://aniapi.kobosh.com".to_string(),
        sub_only: false,
        skip_existing: true,
        use_ram_disk: false,
    };
    let c = build_config(a, "k".to_string(), "tt1".to_string(), None);
    assert_eq!(c.threads, 3);
    assert_eq!(c.fragments, 8);
    assert!(c.embed_subs && c.skip_existing && !c.sub_only);
    assert_eq!(c.sub_imdb_id, "tt1");
}

#[test]
fn ram_disk_names() {
    assert_eq!(ram_disk_hash("abc"), "ba7816bf8f01cfea414140de5dae2223b00361a396177a9cb410ff61f20015ad");
    assert_eq!(to_hex_lower(&[0x00, 0x0f, 0xa0, 0xff]), "000fa0ff");
    assert_eq!(ram_volume_name("ab"), "tmp_ab");
    assert_eq!(macos_mount_path("tmp_ab"), "/Volumes/tmp_ab");
}

#[test]
fn paths_on_the_memory_disk_follow_std() {
    for p in ["./Show/Season_1/Show-S1-E1.mp4", "a.mp4", "a/b/", "a/b/.", "a/..", "/", "", ".", "..", "x//y", "./"] {
        let std_name = std::path::Path::new(p).file_name().map(|f| f.to_str().unwrap());
        assert_eq!(path_file_name(p), std_name, "path {:?}", p);
    }
    for (d, n) in [("/mnt/ram", "a.mp4"), ("/mnt/ram/", "a.mp4"), ("", "a.mp4")] {
        let std_join = std::path::Path::new(d).join(n).to_string_lossy().to_string();
        assert_eq!(join_path(d, n), std_join);
    }
    assert_eq!(ram_output_path("/mnt/ram", "./Show/S-S1-E1.mp4").as_deref(), Some("/mnt/ram/S-S1-E1.mp4"));
    assert_eq!(ram_output_path("/mnt/ram", "a/.."), None);
    assert_eq!(home_or_default(None), "/root");
    assert_eq!(home_or_default(Some("/home/u")), "/home/u");
    assert_eq!(linux_mount_path("/home/u", "tmp_ab"), "/home/u/tmp_ab");
}
