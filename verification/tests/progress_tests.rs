use imdbdownloader::progress::{render_frame, can_render, get_terminal_width, width_or_default};
use imdbdownloader::types::{Task, WorkerStatus, DownloadManager, Progress};

fn task(season: &str, episode: usize, downloaded: bool, failed: bool) -> Task {
    Task {
        season: season.to_string(),
        episode,
        base_dir: String::new(),
        file_name_base: String::new(),
        imdb_id: String::new(),
        sub_url: String::new(),
        downloaded,
        failed,
        failure_printed: false,
        claimed_by: usize::MAX,
    }
}

fn manager() -> DownloadManager {
    DownloadManager {
        tasks: vec![task("1", 1, true, false), task("1", 2, false, true), task("1", 3, false, false), task("1", 4, false, false)],
        workers: vec![WorkerStatus {
            id: 1,
            status: "Downloading".to_string(),
            progress: Progress::Zero,
            current_task: Some(task("1", 3, false, false)),
            last_output: "[download]  12.0% of 100MiB".to_string(),
        }],
        is_bulk: true,
    }
}

fn expected(with_failure: bool) -> String {
    let status = " 50% (2/4 episodes, 1 failed)";
    let bar = format!("[{}{}]", "#".repeat(16), "-".repeat(17));
    let mut s = String::from("\x1b[4A\x1b[G");
    if with_failure {
        s.push_str("\x1b[KS1E2 Failed to download.\n");
    }
    s.push_str(&format!("\x1b[KTotal Progress: {}{}\n\x1b[K\n", bar, status));
    s.push_str("\x1b[KThread 1: S1E3     | [Downloading]\n");
    s.push_str("\x1b[K  [download]  12.0% of 100MiB\n");
    s
}

#[test]
fn frame_shows_bar_failures_and_workers() {
    let mut m = manager();
    assert!(can_render(&m, 80));
    let frame = render_frame(&mut m, 80).unwrap();
    assert_eq!(frame, expected(true));
    assert!(m.tasks[1].failure_printed);
}

#[test]
fn each_failure_is_reported_once() {
    let mut m = manager();
    let _ = render_frame(&mut m, 80);
    let again = render_frame(&mut m, 80).unwrap();
    assert_eq!(again, expected(false));
}

#[test]
fn nothing_is_drawn_outside_bulk_downloads() {
    let mut m = manager();
    m.is_bulk = false;
    assert_eq!(render_frame(&mut m, 80), None);
    assert!(!m.tasks[1].failure_printed);
}

#[test]
fn narrow_terminals_cut_lines_and_use_a_short_bar() {
    let mut m = manager();
    let frame = render_frame(&mut m, 20).unwrap();
    assert!(frame.contains("Total Progress: [#####-----] 50% (2/4 episodes, 1 failed)"));
    assert!(frame.contains("\x1b[KThread 1: S1E3     |\n"));
    assert!(frame.contains("\x1b[K  [download]  12.0\n"));
}

#[test]
fn frames_that_would_split_a_character_are_refused() {
    let mut m = manager();
    m.workers[0].last_output = "ééééééééééé".to_string();
    assert!(!can_render(&m, 7));
    assert!(!can_render(&m, 3));
    assert!(can_render(&m, 6));
}

#[test]
fn terminal_width_has_a_default() {
    assert_eq!(width_or_default(None), 80);
    assert_eq!(width_or_default(Some((120, 40))), 120);
    let w = get_terminal_width();
    assert!(w > 0 && w <= 65535);
}

#[test]
fn any_width_will_do_without_workers_or_outside_bulk() {
    let mut m = manager();
    m.workers.clear();
    assert!(can_render(&m, 1));
    assert!(render_frame(&mut m, 1).is_some());
    let mut n = manager();
    n.is_bulk = false;
    assert_eq!(render_frame(&mut n, 1), None);
}
