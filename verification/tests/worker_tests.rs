use imdbdownloader::config::Config;
use imdbdownloader::types::{Task, WorkerStatus, DownloadManager, Progress};
use imdbdownloader::worker::{
    claim_task, finish_task, retire_worker, update_worker, worker_action, single_action,
    skip_before_fetch, settled_outcome, task_output_path, show_download_path, can_record,
    TaskOutcome, WorkerAction,
};

fn task(episode: usize) -> Task {
    Task {
        season: "2".to_string(),
        episode,
        base_dir: "./T/Season_2".to_string(),
        file_name_base: format!("./T/Season_2/T-S2-E{}", episode),
        imdb_id: "tt1".to_string(),
        sub_url: String::new(),
        downloaded: false,
        failed: false,
        failure_printed: false,
        claimed_by: usize::MAX,
    }
}

fn worker(id: usize) -> WorkerStatus {
    WorkerStatus { id, status: "Idle".to_string(), progress: Progress::Zero, current_task: None, last_output: "old".to_string() }
}

fn manager() -> DownloadManager {
    DownloadManager { tasks: vec![task(1), task(2), task(3)], workers: vec![worker(1), worker(2)], is_bulk: true }
}

fn config() -> Config {
    Config {
        threads: 2,
        fragments: 8,
        api_key: "k".to_string(),
        embed_subs: false,
        sub_lang: "English".to_string(),
        sub_imdb_id: String::new(),
        base_url: "https://api".to_string(),
        sub_only: false,
        skip_existing: false,
        use_ram_disk: false,
        ram_disk_path: None,
    }
}

#[test]
fn tasks_are_handed_out_in_order_and_never_twice() {
    let mut m = manager();
    m.tasks[0].downloaded = true;
    let a = claim_task(&mut m, 1).unwrap();
    assert_eq!(a.episode, 2);
    assert_eq!(a.claimed_by, 1);
    assert_eq!(m.tasks[1].claimed_by, 1);
    assert_eq!(m.workers[0].status, "Downloading");
    assert_eq!(m.workers[0].current_task.as_ref().unwrap().episode, 2);
    assert_eq!(m.workers[0].last_output, "old");
    let b = claim_task(&mut m, 2).unwrap();
    assert_eq!(b.episode, 3);
    assert!(claim_task(&mut m, 1).is_none());
    assert_eq!(m.workers[0].current_task.as_ref().unwrap().episode, 2);
}

#[test]
fn finishing_records_the_result_and_the_status() {
    let mut m = manager();
    let t = claim_task(&mut m, 2).unwrap();
    finish_task(&mut m, 2, &t.season, t.episode, TaskOutcome::Downloaded);
    assert!(m.tasks[0].downloaded && !m.tasks[0].failed);
    assert_eq!(m.workers[1].status, "Done");
    assert!(matches!(m.workers[1].progress, Progress::Complete));
    let u = claim_task(&mut m, 1).unwrap();
    let e = TaskOutcome::Failed("yt-dlp failed with status: 1".to_string());
    assert!(can_record(&e));
    finish_task(&mut m, 1, &u.season, u.episode, e);
    assert!(m.tasks[1].failed && !m.tasks[1].downloaded);
    assert_eq!(m.workers[0].status, "Error: yt-dlp failed w");
    retire_worker(&mut m, 1);
    assert_eq!(m.workers[0].status, "Finished");
    assert!(m.workers[0].current_task.is_none());
    assert!(!can_record(&TaskOutcome::Failed("ééééééééé".to_string())));
}

#[test]
fn workers_report_progress() {
    let mut m = manager();
    update_worker(&mut m, 2, "Downloading", Some(Progress::Percent("42.5".to_string())), "[download] 42.5%");
    assert_eq!(m.workers[1].status, "Downloading");
    assert_eq!(m.workers[1].last_output, "[download] 42.5%");
    assert!(matches!(&m.workers[1].progress, Progress::Percent(p) if p == "42.5"));
    assert_eq!(m.workers[0].status, "Idle");
    update_worker(&mut m, 9, "X", None, "y");
    assert_eq!(m.workers[0].status, "Idle");
    assert_eq!(m.workers[1].status, "Downloading");
}

#[test]
fn actions_follow_the_settings() {
    let mut c = config();
    assert!(matches!(worker_action(&c, "u", false), WorkerAction::Download));
    assert!(matches!(worker_action(&c, "", false), WorkerAction::NoStream));
    c.sub_only = true;
    assert!(matches!(worker_action(&c, "", true), WorkerAction::EmbedSubtitles));
    assert!(matches!(worker_action(&c, "u", false), WorkerAction::MissingFile));
    assert!(matches!(single_action(&c, "", true), WorkerAction::NoStream));
    c.use_ram_disk = true;
    assert!(matches!(worker_action(&c, "", false), WorkerAction::DownloadInRam));
    c.skip_existing = true;
    assert!(skip_before_fetch(&c, true));
    assert!(!skip_before_fetch(&c, false));
    assert!(matches!(settled_outcome(&WorkerAction::NoStream), Some(TaskOutcome::Failed(e)) if e == "No stream URL"));
    assert!(matches!(settled_outcome(&WorkerAction::MissingFile), Some(TaskOutcome::Failed(e)) if e == "File is missing"));
    assert!(settled_outcome(&WorkerAction::Download).is_none());
}

#[test]
fn paths_of_a_task() {
    assert_eq!(task_output_path(&task(4)), "./T/Season_2/T-S2-E4.mp4");
    assert_eq!(show_download_path("tt1", "2", 4), "/download/show/tt1/2/4");
}

#[test]
fn every_task_ends_recorded_once_workers_return() {
    let mut m = manager();
    m.tasks.push(task(4));
    let mut turn = 0usize;
    loop {
        let w = turn % 2 + 1;
        match claim_task(&mut m, w) {
            None => break,
            Some(t) => {
                let outcome = if t.episode % 2 == 0 { TaskOutcome::Downloaded } else { TaskOutcome::Failed("x".to_string()) };
                finish_task(&mut m, w, &t.season, t.episode, outcome);
            }
        }
        turn += 1;
    }
    assert_eq!(turn, 4);
    for t in &m.tasks {
        assert!(t.claimed_by != usize::MAX);
        assert!(t.downloaded != t.failed);
    }
}

#[test]
fn rounds_take_one_task_each_until_none_is_free() {
    let mut m = manager();
    m.tasks.push(task(4));
    let free = |m: &DownloadManager| m.tasks.iter().filter(|t| !t.downloaded && !t.failed && t.claimed_by == usize::MAX).count();
    assert_eq!(free(&m), 4);
    for round in 0..6usize {
        let w = round % 2 + 1;
        if let Some(t) = claim_task(&mut m, w) {
            finish_task(&mut m, w, &t.season, t.episode, TaskOutcome::Failed("no stream".to_string()));
        }
        assert_eq!(free(&m), 4usize.saturating_sub(round + 1));
        for t in &m.tasks {
            assert_eq!(t.claimed_by != usize::MAX, t.downloaded != t.failed);
            assert!(!t.downloaded);
        }
    }
    let eps: Vec<usize> = m.tasks.iter().map(|t| t.episode).collect();
    assert_eq!(eps, vec![1, 2, 3, 4]);
    assert_eq!(m.tasks.iter().map(|t| t.claimed_by).collect::<Vec<_>>(), vec![1, 2, 1, 2]);
}

#[test]
fn interleaved_workers_record_each_task_once() {
    let mut m = manager();
    m.tasks.push(task(4));
    let a = claim_task(&mut m, 1).unwrap();
    let b = claim_task(&mut m, 2).unwrap();
    assert_eq!((a.episode, b.episode), (1, 2));
    finish_task(&mut m, 2, &b.season, b.episode, TaskOutcome::Downloaded);
    assert!(m.tasks[1].downloaded && !m.tasks[0].downloaded && !m.tasks[0].failed);
    let c = claim_task(&mut m, 2).unwrap();
    finish_task(&mut m, 1, &a.season, a.episode, TaskOutcome::Failed("gone".to_string()));
    let d = claim_task(&mut m, 1).unwrap();
    assert_eq!((c.episode, d.episode), (3, 4));
    assert!(claim_task(&mut m, 1).is_none());
    finish_task(&mut m, 1, &d.season, d.episode, TaskOutcome::Downloaded);
    finish_task(&mut m, 2, &c.season, c.episode, TaskOutcome::Failed("gone".to_string()));
    let got: Vec<(usize, bool, bool)> = m.tasks.iter().map(|t| (t.claimed_by, t.downloaded, t.failed)).collect();
    assert_eq!(got, vec![(1, false, true), (2, true, false), (2, false, true), (1, true, false)]);
}
