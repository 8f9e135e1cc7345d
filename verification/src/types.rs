//! The state that the download workers share: the episodes to fetch and what
//! each worker is doing.

use vstd::prelude::*;

verus! {

/// One episode to download, and how far it has come.
#[derive(Clone, Debug)]
pub struct Task {
    pub season: String,
    pub episode: usize,
    pub base_dir: String,
    pub file_name_base: String,
    pub imdb_id: String,
    pub sub_url: String,
    pub downloaded: bool,
    pub failed: bool,
    pub failure_printed: bool,
    /// The id of the worker that took the task, `usize::MAX` while nobody has.
    pub claimed_by: usize,
}

impl Task {
    /// A field-by-field copy of the task.
    pub fn duplicate(&self) -> (r: Task)
        ensures
            r == *self,
    {
        Task {
            season: self.season.clone(),
            episode: self.episode,
            base_dir: self.base_dir.clone(),
            file_name_base: self.file_name_base.clone(),
            imdb_id: self.imdb_id.clone(),
            sub_url: self.sub_url.clone(),
            downloaded: self.downloaded,
            failed: self.failed,
            failure_printed: self.failure_printed,
            claimed_by: self.claimed_by,
        }
    }
}

/// The progress a worker last reported for its download.
#[derive(Clone, Debug)]
pub enum Progress {
    /// Nothing done yet (or no percentage seen on the last line).
    Zero,
    /// The download is complete.
    Complete,
    /// The percentage as the downloader printed it, such as `42.5`.
    Percent(String),
}

/// What one worker thread is doing.
pub struct WorkerStatus {
    pub id: usize,
    pub status: String,
    pub progress: Progress,
    pub current_task: Option<Task>,
    pub last_output: String,
}

/// The episodes of a bulk download and the workers that fetch them.
pub struct DownloadManager {
    pub tasks: Vec<Task>,
    pub workers: Vec<WorkerStatus>,
    pub is_bulk: bool,
}

/// No task is both downloaded and failed.
pub open spec fn tasks_consistent(tasks: Seq<Task>) -> bool {
    forall|i: int| 0 <= i < tasks.len() ==> !(#[trigger] tasks[i].downloaded && tasks[i].failed)
}

} // verus!
