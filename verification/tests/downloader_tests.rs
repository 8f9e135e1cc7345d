use imdbdownloader::downloader::{
    sort_seasons, episode_count, plan_season_tasks, plan_all_tasks, initial_workers, new_manager,
    menu_choice, typed_number, season_choice, single_episode_path, movie_path, movie_download_path,
    bulk_summary, count_failed, ytdlp_command, next_retry, retry_message, progress_percent,
    read_output_line, SeasonEntry, EpisodeCount, Header,
};
use imdbdownloader::types::Progress;

fn season(name: &str, n: usize) -> SeasonEntry {
    SeasonEntry { name: name.to_string(), episodes: EpisodeCount::Listed(n) }
}

#[test]
fn seasons_are_sorted_by_number_and_stably() {
    let s = vec![season("10", 1), season("2", 1), season("abc", 1), season("1", 1), season("x", 1), season("+2", 1)];
    let names: Vec<String> = sort_seasons(s).into_iter().map(|e| e.name).collect();
    assert_eq!(names, vec!["abc", "x", "1", "2", "+2", "10"]);
}

#[test]
fn episode_counts() {
    assert_eq!(episode_count(&EpisodeCount::Listed(12)), 12);
    assert_eq!(episode_count(&EpisodeCount::Number(Some(8))), 8);
    assert_eq!(episode_count(&EpisodeCount::Number(None)), 0);
    assert_eq!(episode_count(&EpisodeCount::Number(Some(-1))), usize::MAX);
}

#[test]
fn tasks_of_a_season_and_of_a_show() {
    let t = plan_season_tasks("My_Show", &season("1", 2), "tt9");
    assert_eq!(t.len(), 2);
    assert_eq!(t[1].episode, 2);
    assert_eq!(t[1].season, "1");
    assert_eq!(t[1].base_dir, "./My_Show/Season_1");
    assert_eq!(t[1].file_name_base, "./My_Show/Season_1/My_Show-S1-E2");
    assert_eq!(t[1].imdb_id, "tt9");
    assert_eq!(t[1].claimed_by, usize::MAX);
    assert!(!t[1].downloaded && !t[1].failed && !t[1].failure_printed && t[1].sub_url.is_empty());
    let all = plan_all_tasks("S", &vec![season("1", 2), SeasonEntry { name: "2".to_string(), episodes: EpisodeCount::Number(Some(1)) }, season("3", 0)], "tt9");
    let eps: Vec<(String, usize)> = all.iter().map(|t| (t.season.clone(), t.episode)).collect();
    assert_eq!(eps, vec![("1".to_string(), 1), ("1".to_string(), 2), ("2".to_string(), 1)]);
}

#[test]
fn workers_start_idle() {
    let w = initial_workers(3);
    assert_eq!(w.len(), 3);
    assert_eq!(w[2].id, 3);
    assert_eq!(w[0].status, "Idle");
    let m = new_manager(Vec::new(), 2, false);
    assert_eq!(m.workers.len(), 2);
    assert!(!m.is_bulk);
}

#[test]
fn typed_answers() {
    assert_eq!(menu_choice(" 2\n"), 2);
    assert_eq!(menu_choice("three"), 0);
    assert_eq!(menu_choice("-1"), -1);
    assert_eq!(typed_number("12\n"), 12);
    assert_eq!(typed_number("x"), 0);
    assert_eq!(season_choice("2\n", 2), Some(1));
    assert_eq!(season_choice("3", 2), None);
    assert_eq!(season_choice("0", 2), None);
    assert_eq!(season_choice("", 2), None);
}

#[test]
fn output_paths() {
    assert_eq!(single_episode_path("Show", "1", 3), "./Show-S1-E3.mp4");
    assert_eq!(movie_path("Film"), "./Film.mp4");
    assert_eq!(movie_download_path("tt5311514"), "/download/movie/tt5311514");
}

#[test]
fn summaries_and_failures() {
    assert_eq!(bulk_summary(false, 0), "\nAll downloads completed.");
    assert_eq!(bulk_summary(true, 0), "\nAll subtitles processed successfully.");
    assert_eq!(bulk_summary(true, 2), "\nSubtitles processing finished. 2 episodes had errors or missing files.");
    assert_eq!(bulk_summary(false, 1), "\nNot all eps are downloaded and they need to run the command again");
    let mut t = plan_season_tasks("S", &season("1", 3), "tt");
    t[0].failed = true;
    t[2].failed = true;
    assert_eq!(count_failed(&t), 2);
}

#[test]
fn downloader_command_line() {
    let h = vec![
        Header { name: "Referer".to_string(), value: Some("https://r".to_string()) },
        Header { name: "Origin".to_string(), value: Some("https://o".to_string()) },
        Header { name: "X-Num".to_string(), value: None },
        Header { name: "User-Agent".to_string(), value: Some("UA".to_string()) },
    ];
    assert_eq!(
        ytdlp_command("https://s/m.m3u8", "./a.mp4", &h, 8),
        "yt-dlp -f \"bestvideo+bestaudio/best\" --format-sort \"res,quality\" --user-agent \"UA\" --concurrent-fragments 8 --extractor-args \"generic:impersonate\" --newline --referer \"https://r\" --add-header \"Origin:https://o\" \"https://s/m.m3u8\" -o \"./a.mp4\" 2>&1"
    );
    assert_eq!(
        ytdlp_command("u", "o", &Vec::new(), 3),
        "yt-dlp -f \"bestvideo+bestaudio/best\" --format-sort \"res,quality\" --user-agent \"Mozilla/5.0 (Macintosh; Intel Mac OS X 10.15; rv:152.0) Gecko/20100101 Firefox/152.0\" --concurrent-fragments 3 --extractor-args \"generic:impersonate\" --newline \"u\" -o \"o\" 2>&1"
    );
}

#[test]
fn retries_stop_after_three() {
    assert_eq!(next_retry(0), Some(1));
    assert_eq!(next_retry(2), Some(3));
    assert_eq!(next_retry(3), None);
    assert_eq!(retry_message(2), "yt-dlp failed, retrying in 5s (2/3)");
}

#[test]
fn progress_lines() {
    assert_eq!(progress_percent("[download]  42.5% of 10.00MiB at 1MiB/s").as_deref(), Some("42.5"));
    assert_eq!(progress_percent("x [download] 100% [download]\t7.25%").as_deref(), Some("7.25"));
    assert_eq!(progress_percent("[download] 100%"), None);
    assert_eq!(progress_percent("[download]42.0%"), None);
    assert_eq!(progress_percent("[download] 1.2.3%"), None);
    assert_eq!(progress_percent("[download]\u{a0}\u{3000}9.5%").as_deref(), Some("9.5"));
    assert_eq!(progress_percent("[download] 1.2.3% then [download] 4.50%").as_deref(), Some("4.50"));
    assert_eq!(progress_percent("[DOWNLOAD] 4.5%"), None);
    assert!(read_output_line("  \n").is_none());
    match read_output_line("  [download]   3.0% \n") {
        Some((Progress::Percent(p), line)) => {
            assert_eq!(p, "3.0");
            assert_eq!(line, "[download]   3.0%");
        }
        _ => panic!("expected a percentage"),
    }
    assert!(matches!(read_output_line("[info] x"), Some((Progress::Zero, _))));
}
