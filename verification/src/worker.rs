//! What a download worker decides: which episode it takes next, what it does
//! with it, and how the shared state records the result.

use vstd::prelude::*;
use crate::config::Config;
use crate::text::{push_decimal, decimal, truncated_bytes, cut_allowed, truncate_bytes};
use crate::types::{Task, WorkerStatus, DownloadManager, Progress, tasks_consistent};

verus! {

/// The task is still to be done and nobody has taken it.
pub open spec fn claimable(t: Task) -> bool {
    !t.downloaded && !t.failed && t.claimed_by == usize::MAX
}

/// The task as taken by worker `worker_id`.
pub open spec fn claimed(t: Task, worker_id: usize) -> Task {
    Task { claimed_by: worker_id, ..t }
}

/// `k` is the first worker with id `id`.
pub open spec fn first_worker(ws: Seq<WorkerStatus>, id: usize, k: int) -> bool {
    0 <= k < ws.len() && ws[k].id == id && forall|j: int| 0 <= j < k ==> ws[j].id != id
}

/// A worker that starts on task `t`.
pub open spec fn began(old: WorkerStatus, new: WorkerStatus, t: Task) -> bool {
    &&& new.id == old.id
    &&& new.status@ == "Downloading"@
    &&& new.progress is Zero
    &&& new.current_task == Some(t)
    &&& new.last_output == old.last_output
}

/// `new` is `old` with the first worker of id `id` started on `t` and every
/// other worker untouched; nothing changes when there is no such worker.
pub open spec fn workers_began(old: Seq<WorkerStatus>, new: Seq<WorkerStatus>, id: usize, t: Task) -> bool {
    &&& new.len() == old.len()
    &&& forall|k: int|
        0 <= k < old.len() ==> if first_worker(old, id, k) {
            began(old[k], new[k], t)
        } else {
            new[k] == old[k]
        }
}

/// Finds the first worker with id `id`.
fn find_worker(ws: &Vec<WorkerStatus>, id: usize) -> (r: Option<usize>)
    ensures
        match r {
            Some(k) => first_worker(ws@, id, k as int),
            None => forall|k: int| 0 <= k < ws@.len() ==> ws@[k].id != id,
        },
{
    let n = ws.len();
    let mut k: usize = 0;
    while k < n
        invariant
            n == ws@.len(),
            k <= n,
            forall|j: int| 0 <= j < k ==> ws@[j].id != id,
        decreases n - k,
    {
        if ws[k].id == id {
            return Some(k);
        }
        k = k + 1;
    }
    None
}

/// The first task at or after `i` that is still to be done and that nobody
/// has taken.
pub open spec fn claimable_from(tasks: Seq<Task>, i: int) -> Option<int>
    decreases tasks.len() - i,
{
    if i < 0 || i >= tasks.len() {
        None
    } else if claimable(tasks[i]) {
        Some(i)
    } else {
        claimable_from(tasks, i + 1)
    }
}

/// `claimable_from` gives the first such task, and `None` only when there is none.
pub proof fn lemma_claimable_from(tasks: Seq<Task>, i: int)
    requires
        0 <= i,
    ensures
        match claimable_from(tasks, i) {
            Some(k) => i <= k < tasks.len() && claimable(tasks[k]) && forall|j: int|
                i <= j < k ==> !claimable(#[trigger] tasks[j]),
            None => forall|j: int| i <= j < tasks.len() ==> !claimable(#[trigger] tasks[j]),
        },
    decreases tasks.len() - i,
{
    if i < tasks.len() && !claimable(tasks[i]) {
        lemma_claimable_from(tasks, i + 1);
    }
}

/// The tasks after worker `worker_id` took the first free one (unchanged
/// when none is free).
pub open spec fn after_claim(tasks: Seq<Task>, worker_id: usize) -> Seq<Task> {
    match claimable_from(tasks, 0) {
        Some(i) => tasks.update(i, claimed(tasks[i], worker_id)),
        None => tasks,
    }
}

/// The tasks after `outcome` was recorded for episode `episode` of season
/// `season`: the first task of that episode takes it.
pub open spec fn after_finish(tasks: Seq<Task>, season: Seq<char>, episode: usize, outcome: TaskOutcome) -> Seq<Task> {
    Seq::new(
        tasks.len(),
        |k: int|
            if first_task_of(tasks, season, episode, k) {
                recorded(tasks[k], outcome)
            } else {
                tasks[k]
            },
    )
}

/// Finds the first task that is still to be done and that nobody has taken.
fn find_claimable(tasks: &Vec<Task>) -> (r: Option<usize>)
    ensures
        match r {
            Some(i) => claimable_from(tasks@, 0) == Some(i as int),
            None => claimable_from(tasks@, 0) is None,
        },
{
    let n = tasks.len();
    let mut i: usize = 0;
    while i < n
        invariant
            n == tasks@.len(),
            i <= n,
            claimable_from(tasks@, 0) == claimable_from(tasks@, i as int),
        decreases n - i,
    {
        let t = &tasks[i];
        if !t.downloaded && !t.failed && t.claimed_by == usize::MAX {
            return Some(i);
        }
        i = i + 1;
    }
    None
}

/// Takes the first task that is still to be done and that nobody has taken,
/// marks it as taken by `worker_id`, and shows it as that worker's current
/// download. `None` when no task is left.
pub fn claim_task(manager: &mut DownloadManager, worker_id: usize) -> (r: Option<Task>)
    ensures
        final(manager).is_bulk == old(manager).is_bulk,
        match claimable_from(old(manager).tasks@, 0) {
            None => {
                &&& r is None
                &&& final(manager).tasks@ == old(manager).tasks@
                &&& final(manager).workers@ == old(manager).workers@
            },
            Some(i) => {
                &&& r == Some(claimed(old(manager).tasks@[i], worker_id))
                &&& final(manager).tasks@ == old(manager).tasks@.update(i, r->0)
                &&& workers_began(old(manager).workers@, final(manager).workers@, worker_id, r->0)
            },
        },
        final(manager).tasks@ == after_claim(old(manager).tasks@, worker_id),
{
    let i = match find_claimable(&manager.tasks) {
        Some(i) => i,
        None => {
            return None;
        },
    };
    let ghost old_tasks = manager.tasks@;
    proof {
        lemma_claimable_from(old_tasks, 0);
    }
    let ghost old_workers = manager.workers@;
    let mut t = manager.tasks[i].duplicate();
    t.claimed_by = worker_id;
    let given = t.duplicate();
    manager.tasks.set(i, t);
    match find_worker(&manager.workers, worker_id) {
        Some(k) => {
            let w = manager.workers.remove(k);
            let nw = WorkerStatus {
                id: w.id,
                status: String::from_str("Downloading"),
                progress: Progress::Zero,
                current_task: Some(given.duplicate()),
                last_output: w.last_output,
            };
            manager.workers.insert(k, nw);
            assert(manager.workers@ =~= old_workers.update(k as int, nw));
            assert(began(old_workers[k as int], nw, given));
            assert forall|m: int| 0 <= m < old_workers.len() && first_worker(old_workers, worker_id, m)
                implies m == k by {
                if m < k {
                    assert(old_workers[m].id != worker_id);
                } else if m > k {
                    assert(old_workers[k as int].id == worker_id);
                }
            }
        },
        None => {},
    }
    assert(workers_began(old_workers, manager.workers@, worker_id, given));
    assert(manager.tasks@ == old_tasks.update(i as int, given));
    Some(given)
}

/// How a taken task ended.
pub enum TaskOutcome {
    /// The episode is on disk (downloaded now, or found there).
    Downloaded,
    /// The episode could not be had, with the reason.
    Failed(String),
}

/// `k` is the first task of episode `episode` of season `season`.
pub open spec fn first_task_of(tasks: Seq<Task>, season: Seq<char>, episode: usize, k: int) -> bool {
    0 <= k < tasks.len() && tasks[k].season@ == season && tasks[k].episode == episode && forall|
        j: int,
    |
        0 <= j < k ==> !(tasks[j].season@ == season && tasks[j].episode == episode)
}

/// The task with its result recorded.
pub open spec fn recorded(t: Task, outcome: TaskOutcome) -> Task {
    Task { downloaded: outcome is Downloaded, failed: outcome is Failed, ..t }
}

/// The status a worker shows when its task ended: `Done`, or `Error: ` and
/// the first 15 bytes of the reason.
pub open spec fn outcome_status(outcome: TaskOutcome) -> Seq<char> {
    match outcome {
        TaskOutcome::Downloaded => "Done"@,
        TaskOutcome::Failed(e) => "Error: "@ + truncated_bytes(e@, 15),
    }
}

/// A worker that ended a task.
pub open spec fn ended(old: WorkerStatus, new: WorkerStatus, outcome: TaskOutcome) -> bool {
    &&& new.id == old.id
    &&& new.status@ == outcome_status(outcome)
    &&& new.progress == (if outcome is Downloaded {
        Progress::Complete
    } else {
        old.progress
    })
    &&& new.current_task == old.current_task
    &&& new.last_output == old.last_output
}

/// `new` is `old` with the first worker of id `id` changed as `ended` says.
pub open spec fn workers_ended(
    old: Seq<WorkerStatus>,
    new: Seq<WorkerStatus>,
    id: usize,
    outcome: TaskOutcome,
) -> bool {
    &&& new.len() == old.len()
    &&& forall|k: int|
        0 <= k < old.len() ==> if first_worker(old, id, k) {
            ended(old[k], new[k], outcome)
        } else {
            new[k] == old[k]
        }
}

/// The reason of a failure can be cut to 15 bytes without splitting a character.
pub open spec fn outcome_printable(outcome: TaskOutcome) -> bool {
    match outcome {
        TaskOutcome::Downloaded => true,
        TaskOutcome::Failed(e) => cut_allowed(e@, 15),
    }
}

/// Decides `outcome_printable`.
pub fn can_record(outcome: &TaskOutcome) -> (r: bool)
    ensures
        r == outcome_printable(*outcome),
{
    match outcome {
        TaskOutcome::Downloaded => true,
        TaskOutcome::Failed(e) => crate::text::can_cut(e.as_str(), 15),
    }
}

/// Finds the first task of the given episode.
fn find_task(tasks: &Vec<Task>, season: &str, episode: usize) -> (r: Option<usize>)
    ensures
        match r {
            Some(k) => first_task_of(tasks@, season@, episode, k as int),
            None => forall|k: int|
                0 <= k < tasks@.len() ==> !(tasks@[k].season@ == season@ && tasks@[k].episode
                    == episode),
        },
{
    let n = tasks.len();
    let mut k: usize = 0;
    while k < n
        invariant
            n == tasks@.len(),
            k <= n,
            forall|j: int|
                0 <= j < k ==> !(tasks@[j].season@ == season@ && tasks@[j].episode == episode),
        decreases n - k,
    {
        if tasks[k].episode == episode && crate::text::str_eq(tasks[k].season.as_str(), season) {
            return Some(k);
        }
        k = k + 1;
    }
    None
}

/// Records how worker `worker_id` ended its task: the first task of that
/// episode takes the result, and the worker shows `Done` or the error.
pub fn finish_task(
    manager: &mut DownloadManager,
    worker_id: usize,
    season: &str,
    episode: usize,
    outcome: TaskOutcome,
)
    requires
        outcome_printable(outcome),
    ensures
        final(manager).is_bulk == old(manager).is_bulk,
        final(manager).tasks@.len() == old(manager).tasks@.len(),
        forall|k: int|
            0 <= k < old(manager).tasks@.len() ==> #[trigger] final(manager).tasks@[k] == if first_task_of(
                old(manager).tasks@,
                season@,
                episode,
                k,
            ) {
                recorded(old(manager).tasks@[k], outcome)
            } else {
                old(manager).tasks@[k]
            },
        workers_ended(old(manager).workers@, final(manager).workers@, worker_id, outcome),
        final(manager).tasks@ == after_finish(old(manager).tasks@, season@, episode, outcome),
{
    let ghost old_tasks = manager.tasks@;
    let ghost old_workers = manager.workers@;
    let ok = match &outcome {
        TaskOutcome::Downloaded => true,
        TaskOutcome::Failed(_) => false,
    };
    match find_task(&manager.tasks, season, episode) {
        Some(k) => {
            let mut t = manager.tasks[k].duplicate();
            t.downloaded = ok;
            t.failed = !ok;
            manager.tasks.set(k, t);
            assert forall|m: int| 0 <= m < old_tasks.len() && first_task_of(old_tasks, season@, episode, m)
                implies m == k by {
                if m < k {
                    assert(!(old_tasks[m].season@ == season@ && old_tasks[m].episode == episode));
                } else if m > k {
                    assert(old_tasks[k as int].season@ == season@ && old_tasks[k as int].episode == episode);
                }
            }
        },
        None => {},
    }
    match find_worker(&manager.workers, worker_id) {
        Some(k) => {
            let w = manager.workers.remove(k);
            let (status, progress) = match &outcome {
                TaskOutcome::Downloaded => (String::from_str("Done"), Progress::Complete),
                TaskOutcome::Failed(e) => {
                    let mut st = String::from_str("Error: ");
                    st.append(truncate_bytes(e.as_str(), 15));
                    (st, w.progress)
                },
            };
            let nw = WorkerStatus {
                id: w.id,
                status,
                progress,
                current_task: w.current_task,
                last_output: w.last_output,
            };
            manager.workers.insert(k, nw);
            assert(manager.workers@ =~= old_workers.update(k as int, nw));
            assert(ended(old_workers[k as int], nw, outcome));
            assert forall|m: int| 0 <= m < old_workers.len() && first_worker(old_workers, worker_id, m)
                implies m == k by {
                if m < k {
                    assert(old_workers[m].id != worker_id);
                } else if m > k {
                    assert(old_workers[k as int].id == worker_id);
                }
            }
        },
        None => {},
    }
    assert(manager.tasks@ =~= after_finish(old_tasks, season@, episode, outcome));
}

/// A worker that has no task left.
pub open spec fn retired(old: WorkerStatus, new: WorkerStatus) -> bool {
    &&& new.id == old.id
    &&& new.status@ == "Finished"@
    &&& new.progress is Zero
    &&& new.current_task is None
    &&& new.last_output == old.last_output
}

/// Shows worker `worker_id` as finished: no task left for it.
pub fn retire_worker(manager: &mut DownloadManager, worker_id: usize)
    ensures
        final(manager).is_bulk == old(manager).is_bulk,
        final(manager).tasks@ == old(manager).tasks@,
        final(manager).workers@.len() == old(manager).workers@.len(),
        forall|k: int|
            0 <= k < old(manager).workers@.len() ==> if first_worker(old(manager).workers@, worker_id, k) {
                retired(old(manager).workers@[k], #[trigger] final(manager).workers@[k])
            } else {
                final(manager).workers@[k] == old(manager).workers@[k]
            },
{
    let ghost old_workers = manager.workers@;
    match find_worker(&manager.workers, worker_id) {
        Some(k) => {
            let w = manager.workers.remove(k);
            let nw = WorkerStatus {
                id: w.id,
                status: String::from_str("Finished"),
                progress: Progress::Zero,
                current_task: None,
                last_output: w.last_output,
            };
            manager.workers.insert(k, nw);
            assert(manager.workers@ =~= old_workers.update(k as int, nw));
            assert forall|m: int| 0 <= m < old_workers.len() && first_worker(old_workers, worker_id, m)
                implies m == k by {
                if m < k {
                    assert(old_workers[m].id != worker_id);
                } else if m > k {
                    assert(old_workers[k as int].id == worker_id);
                }
            }
        },
        None => {},
    }
}

/// What a worker does with a taken episode once the API has answered.
pub enum WorkerAction {
    /// Download through the memory disk.
    DownloadInRam,
    /// The video is there: fetch and embed its subtitles only.
    EmbedSubtitles,
    /// Only subtitles were asked for, but the video is not there.
    MissingFile,
    /// The API gave no stream.
    NoStream,
    /// Download the stream, then its subtitles.
    Download,
}

/// The action for a taken episode, given the settings, the stream URL the
/// API gave, and whether the output file exists.
pub open spec fn worker_action_spec(
    use_ram_disk: bool,
    sub_only: bool,
    stream_url: Seq<char>,
    output_exists: bool,
) -> WorkerAction {
    if use_ram_disk {
        WorkerAction::DownloadInRam
    } else if sub_only {
        if output_exists {
            WorkerAction::EmbedSubtitles
        } else {
            WorkerAction::MissingFile
        }
    } else if stream_url.len() == 0 {
        WorkerAction::NoStream
    } else {
        WorkerAction::Download
    }
}

/// Chooses what a worker does with a taken episode.
pub fn worker_action(config: &Config, stream_url: &str, output_exists: bool) -> (r: WorkerAction)
    ensures
        r == worker_action_spec(config.use_ram_disk, config.sub_only, stream_url@, output_exists),
{
    if config.use_ram_disk {
        WorkerAction::DownloadInRam
    } else if config.sub_only {
        if output_exists {
            WorkerAction::EmbedSubtitles
        } else {
            WorkerAction::MissingFile
        }
    } else if stream_url.is_empty() {
        WorkerAction::NoStream
    } else {
        WorkerAction::Download
    }
}

/// The episode is skipped before asking the API: existing outputs are to be
/// kept and this one exists.
pub fn skip_before_fetch(config: &Config, output_exists: bool) -> (r: bool)
    ensures
        r == (config.skip_existing && output_exists),
{
    config.skip_existing && output_exists
}

/// How an action that needs no download ends: `Some` outcome for the actions
/// that settle the task at once, `None` for those that still have work to do.
pub fn settled_outcome(action: &WorkerAction) -> (r: Option<TaskOutcome>)
    ensures
        match action {
            WorkerAction::MissingFile => r matches Some(TaskOutcome::Failed(e)) && e@ == "File is missing"@,
            WorkerAction::NoStream => r matches Some(TaskOutcome::Failed(e)) && e@ == "No stream URL"@,
            _ => r is None,
        },
{
    match action {
        WorkerAction::MissingFile => Some(TaskOutcome::Failed(String::from_str("File is missing"))),
        WorkerAction::NoStream => Some(TaskOutcome::Failed(String::from_str("No stream URL"))),
        _ => None,
    }
}

/// The file a task's episode is saved to: its base name with `.mp4`.
pub fn task_output_path(task: &Task) -> (r: String)
    ensures
        r@ == task.file_name_base@ + ".mp4"@,
{
    let mut r = task.file_name_base.clone();
    r.append(".mp4");
    r
}

/// The API path that gives the stream of one episode of a show.
pub open spec fn show_download_path_spec(imdb_id: Seq<char>, season: Seq<char>, episode: nat) -> Seq<char> {
    "/download/show/"@ + imdb_id + "/"@ + season + "/"@ + decimal(episode)
}

/// Builds the API path that gives the stream of one episode of a show.
pub fn show_download_path(imdb_id: &str, season: &str, episode: usize) -> (r: String)
    ensures
        r@ == show_download_path_spec(imdb_id@, season@, episode as nat),
{
    let mut r = String::from_str("/download/show/");
    r.append(imdb_id);
    r.append("/");
    r.append(season);
    r.append("/");
    push_decimal(&mut r, episode);
    r
}

/// The action for a movie or a single episode: without a stream there is
/// nothing to do; else as for a worker's task.
pub open spec fn single_action_spec(
    use_ram_disk: bool,
    sub_only: bool,
    stream_url: Seq<char>,
    output_exists: bool,
) -> WorkerAction {
    if stream_url.len() == 0 {
        WorkerAction::NoStream
    } else {
        worker_action_spec(use_ram_disk, sub_only, stream_url, output_exists)
    }
}

/// Chooses what to do with a movie or a single episode.
pub fn single_action(config: &Config, stream_url: &str, output_exists: bool) -> (r: WorkerAction)
    ensures
        r == single_action_spec(config.use_ram_disk, config.sub_only, stream_url@, output_exists),
{
    if stream_url.is_empty() {
        WorkerAction::NoStream
    } else {
        worker_action(config, stream_url, output_exists)
    }
}

/// What a bulk worker does with a taken episode, for every setting: with
/// the memory disk it downloads there; else, when only subtitles are asked
/// for, it embeds them into the video that is there or reports it missing;
/// else it downloads the stream, or reports that there is none.
pub proof fn lemma_worker_action_cases(
    use_ram_disk: bool,
    sub_only: bool,
    stream_url: Seq<char>,
    output_exists: bool,
)
    ensures
        use_ram_disk ==> worker_action_spec(use_ram_disk, sub_only, stream_url, output_exists)
            == WorkerAction::DownloadInRam,
        !use_ram_disk && sub_only && output_exists ==> worker_action_spec(
            use_ram_disk,
            sub_only,
            stream_url,
            output_exists,
        ) == WorkerAction::EmbedSubtitles,
        !use_ram_disk && sub_only && !output_exists ==> worker_action_spec(
            use_ram_disk,
            sub_only,
            stream_url,
            output_exists,
        ) == WorkerAction::MissingFile,
        !use_ram_disk && !sub_only && stream_url.len() == 0 ==> worker_action_spec(
            use_ram_disk,
            sub_only,
            stream_url,
            output_exists,
        ) == WorkerAction::NoStream,
        !use_ram_disk && !sub_only && stream_url.len() > 0 ==> worker_action_spec(
            use_ram_disk,
            sub_only,
            stream_url,
            output_exists,
        ) == WorkerAction::Download,
{
}

/// A movie or a single episode is handled as a bulk worker handles an
/// episode once a stream is there, and without a stream nothing is done:
/// in particular, with only subtitles asked for, the memory disk off and the
/// video there, its subtitles are embedded and nothing is downloaded again.
pub proof fn lemma_single_action_cases(
    use_ram_disk: bool,
    sub_only: bool,
    stream_url: Seq<char>,
    output_exists: bool,
)
    ensures
        stream_url.len() == 0 ==> single_action_spec(use_ram_disk, sub_only, stream_url, output_exists)
            == WorkerAction::NoStream,
        stream_url.len() > 0 ==> single_action_spec(use_ram_disk, sub_only, stream_url, output_exists)
            == worker_action_spec(use_ram_disk, sub_only, stream_url, output_exists),
        stream_url.len() > 0 && use_ram_disk ==> single_action_spec(
            use_ram_disk,
            sub_only,
            stream_url,
            output_exists,
        ) == WorkerAction::DownloadInRam,
        stream_url.len() > 0 && !use_ram_disk && sub_only && output_exists ==> single_action_spec(
            use_ram_disk,
            sub_only,
            stream_url,
            output_exists,
        ) == WorkerAction::EmbedSubtitles,
        stream_url.len() > 0 && !use_ram_disk && sub_only && !output_exists ==> single_action_spec(
            use_ram_disk,
            sub_only,
            stream_url,
            output_exists,
        ) == WorkerAction::MissingFile,
        stream_url.len() > 0 && !use_ram_disk && !sub_only ==> single_action_spec(
            use_ram_disk,
            sub_only,
            stream_url,
            output_exists,
        ) == WorkerAction::Download,
{
}

/// A worker that shows a new status, progress (kept when `None`) and output line.
pub open spec fn reported_status(
    old: WorkerStatus,
    new: WorkerStatus,
    status: Seq<char>,
    progress: Option<Progress>,
    output: Seq<char>,
) -> bool {
    &&& new.id == old.id
    &&& new.status@ == status
    &&& new.progress == match progress {
        Some(p) => p,
        None => old.progress,
    }
    &&& new.current_task == old.current_task
    &&& new.last_output@ == output
}

/// Shows a new status, progress (kept when `None`) and output line for
/// worker `worker_id`.
pub fn update_worker(
    manager: &mut DownloadManager,
    worker_id: usize,
    status: &str,
    progress: Option<Progress>,
    output: &str,
)
    ensures
        final(manager).is_bulk == old(manager).is_bulk,
        final(manager).tasks@ == old(manager).tasks@,
        final(manager).workers@.len() == old(manager).workers@.len(),
        forall|k: int|
            0 <= k < old(manager).workers@.len() ==> if first_worker(old(manager).workers@, worker_id, k) {
                reported_status(
                    old(manager).workers@[k],
                    #[trigger] final(manager).workers@[k],
                    status@,
                    progress,
                    output@,
                )
            } else {
                final(manager).workers@[k] == old(manager).workers@[k]
            },
{
    let ghost old_workers = manager.workers@;
    match find_worker(&manager.workers, worker_id) {
        Some(k) => {
            let w = manager.workers.remove(k);
            let p = match progress {
                Some(p) => p,
                None => w.progress,
            };
            let nw = WorkerStatus {
                id: w.id,
                status: String::from_str(status),
                progress: p,
                current_task: w.current_task,
                last_output: String::from_str(output),
            };
            manager.workers.insert(k, nw);
            assert(manager.workers@ =~= old_workers.update(k as int, nw));
            assert forall|m: int| 0 <= m < old_workers.len() && first_worker(old_workers, worker_id, m)
                implies m == k by {
                if m < k {
                    assert(old_workers[m].id != worker_id);
                } else if m > k {
                    assert(old_workers[k as int].id == worker_id);
                }
            }
        },
        None => {},
    }
}

/// Tasks are handed out in order and never twice: once the first free task
/// is taken by a worker (whose id is not the "nobody" mark), the next free
/// task, if any, comes after it.
pub proof fn lemma_claim_moves_on(tasks: Seq<Task>, worker_id: usize)
    requires
        worker_id != usize::MAX,
        claimable_from(tasks, 0) is Some,
    ensures
        ({
            let i = claimable_from(tasks, 0)->0;
            let after = tasks.update(i, claimed(tasks[i], worker_id));
            match claimable_from(after, 0) {
                Some(k) => k > i,
                None => true,
            }
        }),
{
    let i = claimable_from(tasks, 0)->0;
    let after = tasks.update(i, claimed(tasks[i], worker_id));
    lemma_claimable_from(tasks, 0);
    lemma_claimable_from(after, 0);
    if let Some(k) = claimable_from(after, 0) {
        if k < i {
            assert(after[k] == tasks[k]);
        }
        if k == i {
            assert(!claimable(after[k]));
        }
    }
}

/// Taking a task and recording a result keep the tasks consistent: no task
/// ends up both downloaded and failed.
pub proof fn lemma_worker_steps_consistent(
    tasks: Seq<Task>,
    i: int,
    worker_id: usize,
    outcome: TaskOutcome,
)
    requires
        tasks_consistent(tasks),
        0 <= i < tasks.len(),
    ensures
        tasks_consistent(tasks.update(i, claimed(tasks[i], worker_id))),
        tasks_consistent(tasks.update(i, recorded(tasks[i], outcome))),
{
    let a = tasks.update(i, claimed(tasks[i], worker_id));
    let b = tasks.update(i, recorded(tasks[i], outcome));
    assert forall|j: int| 0 <= j < a.len() implies !(#[trigger] a[j].downloaded && a[j].failed) by {
        if j != i {
            assert(a[j] == tasks[j]);
        }
    }
    assert forall|j: int| 0 <= j < b.len() implies !(#[trigger] b[j].downloaded && b[j].failed) by {
        if j != i {
            assert(b[j] == tasks[j]);
        }
    }
}

/// No two tasks are for the same episode of the same season.
pub open spec fn distinct_episodes(tasks: Seq<Task>) -> bool {
    forall|i: int, j: int|
        0 <= i < j < tasks.len() ==> !(#[trigger] tasks[i].season@ == #[trigger] tasks[j].season@
            && tasks[i].episode == tasks[j].episode)
}

/// The state of the tasks during a bulk download: no task is both
/// downloaded and failed, and a task is only ever downloaded or failed once
/// a worker has taken it.
pub open spec fn work_invariant(tasks: Seq<Task>) -> bool {
    &&& tasks_consistent(tasks)
    &&& forall|i: int|
        0 <= i < tasks.len() ==> (#[trigger] tasks[i].downloaded || tasks[i].failed)
            ==> tasks[i].claimed_by != usize::MAX
}

/// Freshly planned tasks (none downloaded or failed) are in that state.
pub proof fn lemma_fresh_tasks(tasks: Seq<Task>)
    requires
        forall|i: int| 0 <= i < tasks.len() ==> !#[trigger] tasks[i].downloaded && !tasks[i].failed,
    ensures
        work_invariant(tasks),
{
}

/// One round of a worker: it takes the first free task (`claim_task`) and,
/// once done with it, records its outcome under the same episode
/// (`finish_task`). Among tasks for distinct episodes, that records exactly
/// the taken task: it ends taken by the worker and either downloaded or
/// failed, no other task changes, and the state stays as `work_invariant` says.
#[verifier::spinoff_prover]
pub proof fn lemma_worker_round(tasks: Seq<Task>, worker_id: usize, outcome: TaskOutcome)
    requires
        distinct_episodes(tasks),
        work_invariant(tasks),
        worker_id != usize::MAX,
        claimable_from(tasks, 0) is Some,
    ensures
        ({
            let i = claimable_from(tasks, 0)->0;
            let taken = tasks.update(i, claimed(tasks[i], worker_id));
            let done = taken.update(i, recorded(taken[i], outcome));
            &&& work_invariant(taken)
            &&& distinct_episodes(taken)
            &&& forall|k: int|
                0 <= k < taken.len() ==> (first_task_of(
                    taken,
                    tasks[i].season@,
                    tasks[i].episode,
                    k,
                ) <==> k == i)
            &&& done[i].claimed_by == worker_id
            &&& done[i].downloaded != done[i].failed
            &&& forall|k: int| 0 <= k < tasks.len() && k != i ==> done[k] == tasks[k]
            &&& work_invariant(done)
            &&& distinct_episodes(done)
        }),
{
    lemma_claimable_from(tasks, 0);
    let i = claimable_from(tasks, 0)->0;
    let taken = tasks.update(i, claimed(tasks[i], worker_id));
    let done = taken.update(i, recorded(taken[i], outcome));
    assert forall|k: int|
        0 <= k < taken.len() implies (first_task_of(taken, tasks[i].season@, tasks[i].episode, k)
        <==> k == i) by {
        if k == i {
            assert forall|j: int| 0 <= j < k implies !(taken[j].season@ == tasks[i].season@
                && taken[j].episode == tasks[i].episode) by {
                assert(taken[j] == tasks[j]);
                assert(!(tasks[j].season@ == tasks[i].season@ && tasks[j].episode == tasks[i].episode));
            }
        } else if k < i {
            assert(taken[k] == tasks[k]);
            assert(!(tasks[k].season@ == tasks[i].season@ && tasks[k].episode == tasks[i].episode));
        } else {
            assert(taken[i].season@ == tasks[i].season@ && taken[i].episode == tasks[i].episode);
        }
    }
    assert forall|a: int, b: int|
        0 <= a < b < taken.len() implies !(#[trigger] taken[a].season@ == #[trigger] taken[b].season@
        && taken[a].episode == taken[b].episode) by {
        assert(taken[a].season@ == tasks[a].season@ && taken[a].episode == tasks[a].episode);
        assert(taken[b].season@ == tasks[b].season@ && taken[b].episode == tasks[b].episode);
        assert(!(tasks[a].season@ == tasks[b].season@ && tasks[a].episode == tasks[b].episode));
    }
    assert forall|a: int, b: int|
        0 <= a < b < done.len() implies !(#[trigger] done[a].season@ == #[trigger] done[b].season@
        && done[a].episode == done[b].episode) by {
        assert(done[a].season@ == tasks[a].season@ && done[a].episode == tasks[a].episode);
        assert(done[b].season@ == tasks[b].season@ && done[b].episode == tasks[b].episode);
        assert(!(tasks[a].season@ == tasks[b].season@ && tasks[a].episode == tasks[b].episode));
    }
    assert forall|k: int| 0 <= k < taken.len() implies !(#[trigger] taken[k].downloaded
        && taken[k].failed) by {
        if k != i {
            assert(taken[k] == tasks[k]);
        }
    }
    assert forall|k: int| 0 <= k < taken.len() implies ((#[trigger] taken[k].downloaded
        || taken[k].failed) ==> taken[k].claimed_by != usize::MAX) by {
        if k != i {
            assert(taken[k] == tasks[k]);
        }
    }
    assert forall|k: int| 0 <= k < done.len() implies !(#[trigger] done[k].downloaded
        && done[k].failed) by {
        if k != i {
            assert(done[k] == tasks[k]);
        }
    }
    assert forall|k: int| 0 <= k < done.len() implies ((#[trigger] done[k].downloaded
        || done[k].failed) ==> done[k].claimed_by != usize::MAX) by {
        if k != i {
            assert(done[k] == tasks[k]);
        }
    }
}

/// When no task is left to take and every taken task has been recorded
/// (all workers have returned), every task has been taken and is exactly one
/// of downloaded and failed.
pub proof fn lemma_all_recorded(tasks: Seq<Task>)
    requires
        work_invariant(tasks),
        claimable_from(tasks, 0) is None,
        forall|i: int|
            0 <= i < tasks.len() ==> #[trigger] tasks[i].claimed_by != usize::MAX ==> (
            tasks[i].downloaded || tasks[i].failed),
    ensures
        forall|i: int|
            0 <= i < tasks.len() ==> #[trigger] tasks[i].claimed_by != usize::MAX
                && tasks[i].downloaded != tasks[i].failed,
{
    lemma_claimable_from(tasks, 0);
    assert forall|i: int| 0 <= i < tasks.len() implies #[trigger] tasks[i].claimed_by
        != usize::MAX && tasks[i].downloaded != tasks[i].failed by {
        assert(!claimable(tasks[i]));
        assert(!(tasks[i].downloaded && tasks[i].failed));
    }
}


/// One round of a worker, as `claim_task` and then `finish_task` for the
/// episode it took do it: the first free task is taken by `worker_id` and
/// `outcome` is recorded for its episode. Nothing changes when no task is free.
pub open spec fn after_round(tasks: Seq<Task>, worker_id: usize, outcome: TaskOutcome) -> Seq<Task> {
    match claimable_from(tasks, 0) {
        Some(i) => after_finish(after_claim(tasks, worker_id), tasks[i].season@, tasks[i].episode, outcome),
        None => tasks,
    }
}

/// The tasks after the given rounds, each a worker id and the outcome that
/// worker reached, in the order they happened.
pub open spec fn after_rounds(tasks: Seq<Task>, rounds: Seq<(usize, TaskOutcome)>) -> Seq<Task>
    decreases rounds.len(),
{
    if rounds.len() == 0 {
        tasks
    } else {
        after_rounds(after_round(tasks, rounds[0].0, rounds[0].1), rounds.drop_first())
    }
}

/// How many tasks are still free to take.
pub open spec fn free_count(tasks: Seq<Task>) -> nat
    decreases tasks.len(),
{
    if tasks.len() == 0 {
        0
    } else {
        free_count(tasks.drop_last()) + if claimable(tasks.last()) {
            1nat
        } else {
            0nat
        }
    }
}

/// Replacing one task changes the free count by what that task contributed.
proof fn lemma_free_count_update(tasks: Seq<Task>, i: int, t: Task)
    requires
        0 <= i < tasks.len(),
    ensures
        free_count(tasks.update(i, t)) + (if claimable(tasks[i]) { 1int } else { 0int })
            == free_count(tasks) + (if claimable(t) { 1int } else { 0int }),
    decreases tasks.len(),
{
    let u = tasks.update(i, t);
    if i == tasks.len() - 1 {
        assert(u.drop_last() =~= tasks.drop_last());
    } else {
        assert(u.drop_last() =~= tasks.drop_last().update(i, t));
        lemma_free_count_update(tasks.drop_last(), i, t);
    }
}

/// No task is free exactly when the free count is zero.
proof fn lemma_free_count_zero(tasks: Seq<Task>)
    ensures
        free_count(tasks) == 0 <==> forall|k: int| 0 <= k < tasks.len() ==> !claimable(#[trigger] tasks[k]),
    decreases tasks.len(),
{
    if tasks.len() > 0 {
        lemma_free_count_zero(tasks.drop_last());
        if free_count(tasks) == 0 {
            assert forall|k: int| 0 <= k < tasks.len() implies !claimable(#[trigger] tasks[k]) by {
                if k < tasks.len() - 1 {
                    assert(tasks[k] == tasks.drop_last()[k]);
                }
            }
        }
        if forall|k: int| 0 <= k < tasks.len() ==> !claimable(#[trigger] tasks[k]) {
            assert forall|k: int| 0 <= k < tasks.drop_last().len() implies !claimable(
                #[trigger] tasks.drop_last()[k],
            ) by {
                assert(tasks.drop_last()[k] == tasks[k]);
            }
            assert(!claimable(tasks[tasks.len() - 1]));
        }
    }
}

/// The state of the tasks between rounds: what `work_invariant` says, and a
/// task is taken exactly when it is downloaded or failed.
pub open spec fn settled(tasks: Seq<Task>) -> bool {
    &&& work_invariant(tasks)
    &&& distinct_episodes(tasks)
    &&& forall|k: int|
        0 <= k < tasks.len() ==> (#[trigger] tasks[k].claimed_by != usize::MAX) == (tasks[k].downloaded
            || tasks[k].failed)
}

/// One round from a settled state: if a task was free, exactly that task is
/// taken and recorded, every other task is unchanged, and one task fewer is free.
#[verifier::spinoff_prover]
proof fn lemma_round_settled(tasks: Seq<Task>, worker_id: usize, outcome: TaskOutcome)
    requires
        settled(tasks),
        worker_id != usize::MAX,
    ensures
        ({
            let next = after_round(tasks, worker_id, outcome);
            &&& settled(next)
            &&& next.len() == tasks.len()
            &&& forall|k: int|
                0 <= k < tasks.len() ==> #[trigger] next[k].season@ == tasks[k].season@
                    && next[k].episode == tasks[k].episode
            &&& claimable_from(tasks, 0) is Some ==> free_count(next) + 1 == free_count(tasks)
            &&& claimable_from(tasks, 0) is None ==> next == tasks
        }),
{
    if let Some(i) = claimable_from(tasks, 0) {
        lemma_worker_round(tasks, worker_id, outcome);
        lemma_claimable_from(tasks, 0);
        let taken = tasks.update(i, claimed(tasks[i], worker_id));
        let done = taken.update(i, recorded(taken[i], outcome));
        let next = after_round(tasks, worker_id, outcome);
        assert(after_claim(tasks, worker_id) == taken);
        assert(next =~= done);
        assert forall|k: int| 0 <= k < next.len() implies (#[trigger] next[k].claimed_by
            != usize::MAX) == (next[k].downloaded || next[k].failed) by {
            if k != i {
                assert(next[k] == tasks[k]);
            }
        }
        assert(done =~= tasks.update(i, done[i]));
        lemma_free_count_update(tasks, i, done[i]);
    }
}

/// A whole bulk download, as any sequence of worker rounds (each takes the
/// first free task and records its outcome). Starting from fresh tasks for
/// distinct episodes, with workers whose ids are not the "nobody" mark:
/// no task is ever both downloaded and failed, a task is taken exactly when
/// its result is recorded, the episodes stay as planned, each round takes one
/// task while any is free, and once no task is free (which is so after at
/// least as many rounds as tasks) every task has been taken and is exactly one
/// of downloaded and failed.
#[verifier::spinoff_prover]
pub proof fn lemma_whole_run(tasks: Seq<Task>, rounds: Seq<(usize, TaskOutcome)>)
    requires
        distinct_episodes(tasks),
        forall|k: int| 0 <= k < tasks.len() ==> claimable(#[trigger] tasks[k]),
        forall|r: int| 0 <= r < rounds.len() ==> (#[trigger] rounds[r]).0 != usize::MAX,
    ensures
        ({
            let end = after_rounds(tasks, rounds);
            &&& end.len() == tasks.len()
            &&& work_invariant(end)
            &&& distinct_episodes(end)
            &&& forall|k: int|
                0 <= k < end.len() ==> #[trigger] end[k].season@ == tasks[k].season@
                    && end[k].episode == tasks[k].episode
            &&& forall|k: int|
                0 <= k < end.len() ==> (#[trigger] end[k].claimed_by != usize::MAX) == (
                end[k].downloaded != end[k].failed)
            &&& free_count(end) == (if rounds.len() >= tasks.len() { 0 } else { (tasks.len() - rounds.len()) as nat })
            &&& (claimable_from(end, 0) is None <==> free_count(end) == 0)
            &&& claimable_from(end, 0) is None ==> forall|k: int|
                0 <= k < end.len() ==> #[trigger] end[k].claimed_by != usize::MAX && end[k].downloaded
                    != end[k].failed
        }),
{
    assert(free_count(tasks) == tasks.len()) by {
        lemma_free_count_full(tasks);
    }
    lemma_rounds_settled(tasks, rounds);
    let end = after_rounds(tasks, rounds);
    lemma_claimable_from(end, 0);
    lemma_free_count_zero(end);
}

/// Every fresh task is free.
proof fn lemma_free_count_full(tasks: Seq<Task>)
    requires
        forall|k: int| 0 <= k < tasks.len() ==> claimable(#[trigger] tasks[k]),
    ensures
        free_count(tasks) == tasks.len(),
    decreases tasks.len(),
{
    if tasks.len() > 0 {
        assert forall|k: int| 0 <= k < tasks.drop_last().len() implies claimable(
            #[trigger] tasks.drop_last()[k],
        ) by {
            assert(tasks.drop_last()[k] == tasks[k]);
        }
        lemma_free_count_full(tasks.drop_last());
        assert(claimable(tasks[tasks.len() - 1]));
    }
}

/// Rounds from a settled state keep it settled, keep the episodes, and take
/// one task per round while any is free.
proof fn lemma_rounds_settled(tasks: Seq<Task>, rounds: Seq<(usize, TaskOutcome)>)
    requires
        settled(tasks),
        forall|r: int| 0 <= r < rounds.len() ==> (#[trigger] rounds[r]).0 != usize::MAX,
    ensures
        ({
            let end = after_rounds(tasks, rounds);
            &&& settled(end)
            &&& end.len() == tasks.len()
            &&& forall|k: int|
                0 <= k < end.len() ==> #[trigger] end[k].season@ == tasks[k].season@
                    && end[k].episode == tasks[k].episode
            &&& free_count(end) == (if rounds.len() >= free_count(tasks) { 0 } else { (free_count(tasks) - rounds.len()) as nat })
        }),
    decreases rounds.len(),
{
    if rounds.len() > 0 {
        let next = after_round(tasks, rounds[0].0, rounds[0].1);
        assert(rounds[0].0 != usize::MAX);
        lemma_round_settled(tasks, rounds[0].0, rounds[0].1);
        let rest = rounds.drop_first();
        assert forall|r: int| 0 <= r < rest.len() implies (#[trigger] rest[r]).0 != usize::MAX by {
            assert(rest[r] == rounds[r + 1]);
        }
        lemma_rounds_settled(next, rest);
        let end = after_rounds(next, rest);
        assert(end == after_rounds(tasks, rounds));
        lemma_claimable_from(tasks, 0);
        lemma_free_count_zero(tasks);
    }
}


/// Task `k` is held by worker `worker_id`: taken by it and not yet recorded.
pub open spec fn holds(tasks: Seq<Task>, worker_id: usize, k: int) -> bool {
    0 <= k < tasks.len() && tasks[k].claimed_by == worker_id && !tasks[k].downloaded
        && !tasks[k].failed
}

/// The tasks after one event of a bulk download, a worker id with `None`
/// when that worker takes the next free task (`claim_task`) and `Some` with
/// an outcome when it records that outcome for the episode of the task it
/// holds (`finish_task`). A worker that holds no task records nothing.
pub open spec fn after_event(tasks: Seq<Task>, event: (usize, Option<TaskOutcome>)) -> Seq<Task> {
    match event.1 {
        None => after_claim(tasks, event.0),
        Some(outcome) => if exists|k: int| holds(tasks, event.0, k) {
            let k = choose|k: int| holds(tasks, event.0, k);
            after_finish(tasks, tasks[k].season@, tasks[k].episode, outcome)
        } else {
            tasks
        },
    }
}

/// The tasks after the given events, in the order they happened.
pub open spec fn after_events(tasks: Seq<Task>, events: Seq<(usize, Option<TaskOutcome>)>) -> Seq<Task>
    decreases events.len(),
{
    if events.len() == 0 {
        tasks
    } else {
        after_events(after_event(tasks, events[0]), events.drop_first())
    }
}

/// How many of the events are a worker taking a task.
pub open spec fn take_count(events: Seq<(usize, Option<TaskOutcome>)>) -> nat
    decreases events.len(),
{
    if events.len() == 0 {
        0
    } else {
        take_count(events.drop_first()) + if events[0].1 is None {
            1nat
        } else {
            0nat
        }
    }
}

/// The state of the tasks at any moment of a bulk download.
pub open spec fn run_state(tasks: Seq<Task>) -> bool {
    work_invariant(tasks) && distinct_episodes(tasks)
}

/// The facts one event gives about the next state.
spec fn step_facts(tasks: Seq<Task>, next: Seq<Task>, takes: bool) -> bool {
    &&& run_state(next)
    &&& next.len() == tasks.len()
    &&& forall|k: int|
        0 <= k < tasks.len() ==> #[trigger] next[k].season@ == tasks[k].season@ && next[k].episode
            == tasks[k].episode
    &&& free_count(next) == if takes && free_count(tasks) > 0 {
        (free_count(tasks) - 1) as nat
    } else {
        free_count(tasks)
    }
}

/// A worker taking the next free task.
#[verifier::spinoff_prover]
proof fn lemma_take_step(tasks: Seq<Task>, worker_id: usize)
    requires
        run_state(tasks),
        worker_id != usize::MAX,
    ensures
        step_facts(tasks, after_claim(tasks, worker_id), true),
{
    lemma_claimable_from(tasks, 0);
    lemma_free_count_zero(tasks);
    if let Some(i) = claimable_from(tasks, 0) {
        lemma_worker_round(tasks, worker_id, TaskOutcome::Downloaded);
        let taken = tasks.update(i, claimed(tasks[i], worker_id));
        lemma_free_count_update(tasks, i, taken[i]);
    }
}

/// A worker recording the outcome of task `k`, which it holds.
#[verifier::spinoff_prover]
proof fn lemma_record_step(tasks: Seq<Task>, worker_id: usize, k: int, outcome: TaskOutcome)
    requires
        run_state(tasks),
        worker_id != usize::MAX,
        holds(tasks, worker_id, k),
    ensures
        step_facts(tasks, after_finish(tasks, tasks[k].season@, tasks[k].episode, outcome), false),
{
    let next = after_finish(tasks, tasks[k].season@, tasks[k].episode, outcome);
    let done = tasks.update(k, recorded(tasks[k], outcome));
    assert forall|j: int| 0 <= j < tasks.len() implies (first_task_of(
        tasks,
        tasks[k].season@,
        tasks[k].episode,
        j,
    ) <==> j == k) by {
        if j < k {
            assert(!(tasks[j].season@ == tasks[k].season@ && tasks[j].episode == tasks[k].episode));
        } else if j > k {
            assert(tasks[k].season@ == tasks[k].season@ && tasks[k].episode == tasks[k].episode);
        } else {
            assert forall|m: int| 0 <= m < k implies !(tasks[m].season@ == tasks[k].season@
                && tasks[m].episode == tasks[k].episode) by {
                assert(!(tasks[m].season@ == tasks[k].season@ && tasks[m].episode
                    == tasks[k].episode));
            }
        }
    }
    assert(next =~= done);
    assert forall|a: int, b: int|
        0 <= a < b < done.len() implies !(#[trigger] done[a].season@ == #[trigger] done[b].season@
        && done[a].episode == done[b].episode) by {
        assert(done[a].season@ == tasks[a].season@ && done[a].episode == tasks[a].episode);
        assert(done[b].season@ == tasks[b].season@ && done[b].episode == tasks[b].episode);
        assert(!(tasks[a].season@ == tasks[b].season@ && tasks[a].episode == tasks[b].episode));
    }
    assert forall|j: int| 0 <= j < done.len() implies !(#[trigger] done[j].downloaded
        && done[j].failed) by {
        if j != k {
            assert(done[j] == tasks[j]);
        }
    }
    assert forall|j: int| 0 <= j < done.len() implies ((#[trigger] done[j].downloaded
        || done[j].failed) ==> done[j].claimed_by != usize::MAX) by {
        if j != k {
            assert(done[j] == tasks[j]);
        }
    }
    lemma_free_count_update(tasks, k, done[k]);
}

/// One event keeps `run_state` and the episodes; a take while a task is free
/// makes one task fewer free, and a record leaves the free tasks as they were.
proof fn lemma_event_step(tasks: Seq<Task>, event: (usize, Option<TaskOutcome>))
    requires
        run_state(tasks),
        event.0 != usize::MAX,
    ensures
        step_facts(tasks, after_event(tasks, event), event.1 is None),
{
    match event.1 {
        None => {
            lemma_take_step(tasks, event.0);
        },
        Some(outcome) => {
            if exists|k: int| holds(tasks, event.0, k) {
                let k = choose|k: int| holds(tasks, event.0, k);
                lemma_record_step(tasks, event.0, k, outcome);
            }
        },
    }
}

/// Events from a `run_state` keep it and the episodes, and each take while
/// a task is free makes one task fewer free.
proof fn lemma_events(tasks: Seq<Task>, events: Seq<(usize, Option<TaskOutcome>)>)
    requires
        run_state(tasks),
        forall|e: int| 0 <= e < events.len() ==> (#[trigger] events[e]).0 != usize::MAX,
    ensures
        ({
            let end = after_events(tasks, events);
            &&& run_state(end)
            &&& end.len() == tasks.len()
            &&& forall|k: int|
                0 <= k < end.len() ==> #[trigger] end[k].season@ == tasks[k].season@
                    && end[k].episode == tasks[k].episode
            &&& free_count(end) == if take_count(events) >= free_count(tasks) {
                0
            } else {
                (free_count(tasks) - take_count(events)) as nat
            }
        }),
    decreases events.len(),
{
    if events.len() > 0 {
        assert(events[0].0 != usize::MAX);
        lemma_event_step(tasks, events[0]);
        let rest = events.drop_first();
        assert forall|e: int| 0 <= e < rest.len() implies (#[trigger] rest[e]).0 != usize::MAX by {
            assert(rest[e] == events[e + 1]);
        }
        lemma_events(after_event(tasks, events[0]), rest);
    }
}

/// A whole bulk download with its workers running at once: any interleaving
/// of workers taking the next free task and recording the outcome of the
/// task they hold. Starting from fresh tasks for distinct episodes, with
/// workers whose ids are not the "nobody" mark: no task is ever both
/// downloaded and failed, only taken tasks are recorded, the episodes stay as
/// planned, and each take while a task is free takes one. Once all workers
/// have returned (no task is free and none is held), every task has been
/// taken and is exactly one of downloaded and failed.
#[verifier::spinoff_prover]
pub proof fn lemma_interleaved_run(tasks: Seq<Task>, events: Seq<(usize, Option<TaskOutcome>)>)
    requires
        distinct_episodes(tasks),
        forall|k: int| 0 <= k < tasks.len() ==> claimable(#[trigger] tasks[k]),
        forall|e: int| 0 <= e < events.len() ==> (#[trigger] events[e]).0 != usize::MAX,
    ensures
        ({
            let end = after_events(tasks, events);
            &&& end.len() == tasks.len()
            &&& work_invariant(end)
            &&& distinct_episodes(end)
            &&& forall|k: int|
                0 <= k < end.len() ==> #[trigger] end[k].season@ == tasks[k].season@
                    && end[k].episode == tasks[k].episode
            &&& free_count(end) == if take_count(events) >= tasks.len() {
                0
            } else {
                (tasks.len() - take_count(events)) as nat
            }
            &&& (claimable_from(end, 0) is None && forall|k: int, w: usize| !holds(end, w, k))
                ==> forall|k: int|
                0 <= k < end.len() ==> #[trigger] end[k].claimed_by != usize::MAX
                    && end[k].downloaded != end[k].failed
        }),
{
    lemma_free_count_full(tasks);
    lemma_events(tasks, events);
    let end = after_events(tasks, events);
    lemma_claimable_from(end, 0);
    if claimable_from(end, 0) is None && forall|k: int, w: usize| !holds(end, w, k) {
        assert forall|k: int| 0 <= k < end.len() implies #[trigger] end[k].claimed_by != usize::MAX
            && end[k].downloaded != end[k].failed by {
            assert(!claimable(end[k]));
            assert(!holds(end, end[k].claimed_by, k));
            assert(!(end[k].downloaded && end[k].failed));
            assert((end[k].downloaded || end[k].failed) ==> end[k].claimed_by != usize::MAX);
        }
    }
}

} // verus!
