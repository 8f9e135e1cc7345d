//! The progress display of a bulk download: a bar for the whole job and two
//! lines per worker, redrawn in place on the terminal.

use vstd::prelude::*;
use crate::text::{
    byte_len, decimal, repeat_char, truncated_bytes, cut_allowed, push_decimal, push_repeat,
    byte_length, truncate_bytes, can_cut,
};
use crate::types::{Task, WorkerStatus, DownloadManager, tasks_consistent};

verus! {

/// The number of tasks that are downloaded.
pub open spec fn downloaded_count(tasks: Seq<Task>) -> nat
    decreases tasks.len(),
{
    if tasks.len() == 0 {
        0
    } else {
        downloaded_count(tasks.drop_last()) + if tasks.last().downloaded {
            1nat
        } else {
            0nat
        }
    }
}

/// The number of tasks that failed.
pub open spec fn failed_count(tasks: Seq<Task>) -> nat
    decreases tasks.len(),
{
    if tasks.len() == 0 {
        0
    } else {
        failed_count(tasks.drop_last()) + if tasks.last().failed {
            1nat
        } else {
            0nat
        }
    }
}

/// The line that reports a failed episode.
pub open spec fn failure_line(t: Task) -> Seq<char> {
    "S"@ + t.season@ + "E"@ + decimal(t.episode as nat) + " Failed to download."@
}

/// The failures not reported yet, in task order.
pub open spec fn failure_lines(tasks: Seq<Task>) -> Seq<Seq<char>>
    decreases tasks.len(),
{
    if tasks.len() == 0 {
        seq![]
    } else if tasks.last().failed && !tasks.last().failure_printed {
        failure_lines(tasks.drop_last()).push(failure_line(tasks.last()))
    } else {
        failure_lines(tasks.drop_last())
    }
}

/// The task once its failure, if any, has been reported.
pub open spec fn reported(t: Task) -> Task {
    Task { failure_printed: t.failure_printed || t.failed, ..t }
}

/// The percentage of tasks that are processed (downloaded or failed).
pub open spec fn percent_of(processed: nat, total: nat) -> nat {
    if total > 0 {
        processed * 100 / total
    } else {
        0
    }
}

/// The summary after the bar, such as ` 50% (2/4 episodes, 1 failed)`.
pub open spec fn status_text(processed: nat, total: nat, failed: nat) -> Seq<char> {
    " "@ + decimal(percent_of(processed, total)) + "% ("@ + decimal(processed) + "/"@ + decimal(
        total,
    ) + " episodes"@ + (if failed > 0 {
        ", "@ + decimal(failed) + " failed"@
    } else {
        seq![]
    }) + ")"@
}

/// The text before the bar.
pub open spec fn bar_prefix() -> Seq<char> {
    "Total Progress: "@
}

/// The width of the bar: what the terminal leaves beside the prefix and the
/// summary, or 10 when that is too little.
pub open spec fn bar_width(terminal_width: nat, prefix_len: nat, status_len: nat) -> nat {
    if terminal_width > prefix_len + status_len + 2 {
        (terminal_width - prefix_len - status_len - 2) as nat
    } else {
        10
    }
}

/// How much of the bar is filled.
pub open spec fn filled_width(processed: nat, width: nat, total: nat) -> nat {
    if total > 0 {
        processed * width / total
    } else {
        0
    }
}

/// The bar itself, such as `[##--]`.
pub open spec fn bar_text(width: nat, filled: nat) -> Seq<char> {
    "["@ + repeat_char('#', filled) + repeat_char('-', (width - filled) as nat) + "]"@
}

/// The episode a worker is on, such as `S1E3`, or `None`.
pub open spec fn task_label(t: Option<Task>) -> Seq<char> {
    match t {
        Some(t) => "S"@ + t.season@ + "E"@ + decimal(t.episode as nat),
        None => "None"@,
    }
}

/// The start of a worker's status line, such as `Thread 2: S1E3`.
pub open spec fn status_head(w: WorkerStatus) -> Seq<char> {
    "Thread "@ + decimal(w.id as nat) + ": "@ + task_label(w.current_task)
}

/// `s` padded with spaces to at least 18 bytes.
pub open spec fn padded(s: Seq<char>) -> Seq<char> {
    s + repeat_char(' ', if byte_len(s) < 18 { (18 - byte_len(s)) as nat } else { 0 })
}

/// A worker's status line before it is fitted to the terminal.
pub open spec fn status_line(w: WorkerStatus) -> Seq<char> {
    padded(status_head(w)) + " | ["@ + w.status@ + "]"@
}

/// The two lines of one worker: its status and its last output, each cut to
/// the terminal width (the output four bytes shorter, for its indent).
pub open spec fn worker_block(w: WorkerStatus, tw: nat) -> Seq<char> {
    "\u{1b}[K"@ + truncated_bytes(status_line(w), tw) + "\n"@ + "\u{1b}[K  "@ + truncated_bytes(
        w.last_output@,
        (tw - 4) as nat,
    ) + "\n"@
}

/// The blocks of all workers, in order.
pub open spec fn worker_blocks(ws: Seq<WorkerStatus>, tw: nat) -> Seq<char>
    decreases ws.len(),
{
    if ws.len() == 0 {
        seq![]
    } else {
        worker_blocks(ws.drop_last(), tw) + worker_block(ws.last(), tw)
    }
}

/// The failure reports, one line each.
pub open spec fn failure_block(lines: Seq<Seq<char>>) -> Seq<char>
    decreases lines.len(),
{
    if lines.len() == 0 {
        seq![]
    } else {
        failure_block(lines.drop_last()) + "\u{1b}[K"@ + lines.last() + "\n"@
    }
}

/// The escape sequence that moves the cursor up over the previous frame.
pub open spec fn cursor_up(lines: nat) -> Seq<char> {
    "\u{1b}["@ + decimal(lines) + "A\u{1b}[G"@
}

/// The line with the overall bar, for `done` downloaded and `failed` failed
/// tasks out of `total`.
pub open spec fn total_line_for(done: nat, failed: nat, total: nat, tw: nat) -> Seq<char> {
    let processed = done + failed;
    let status = status_text(processed, total, failed);
    let width = bar_width(tw, byte_len(bar_prefix()), byte_len(status));
    "\u{1b}[K"@ + bar_prefix() + bar_text(width, filled_width(processed, width, total)) + status
        + "\n\u{1b}[K\n"@
}

/// The line with the overall bar.
pub open spec fn total_line(tasks: Seq<Task>, tw: nat) -> Seq<char> {
    total_line_for(downloaded_count(tasks), failed_count(tasks), tasks.len(), tw)
}

/// The whole frame drawn for `tasks` and `ws` on a terminal `tw` columns wide.
pub open spec fn frame_text(tasks: Seq<Task>, ws: Seq<WorkerStatus>, tw: nat) -> Seq<char> {
    cursor_up(ws.len() * 2 + 2) + failure_block(failure_lines(tasks)) + total_line(tasks, tw)
        + worker_blocks(ws, tw)
}

/// The frame can be drawn without an arithmetic overflow or a slice that cuts
/// a character in two. With a task both downloaded and failed the processed
/// count could pass the total and the bar's filled part its width; the
/// workers never make such a task (`lemma_interleaved_run`).
pub open spec fn renderable(tasks: Seq<Task>, ws: Seq<WorkerStatus>, tw: nat) -> bool {
    &&& ws.len() > 0 ==> 4 <= tw
    &&& tasks_consistent(tasks)
    &&& tasks.len() * 100 <= usize::MAX
    &&& tasks.len() * (tw + 10) <= usize::MAX
    &&& ws.len() * 2 + 2 <= usize::MAX
    &&& forall|i: int|
        0 <= i < ws.len() ==> cut_allowed(status_line(#[trigger] ws[i]), tw) && cut_allowed(
            ws[i].last_output@,
            (tw - 4) as nat,
        )
}

/// Counts the downloaded and the failed tasks, marks every failure as
/// reported, and writes the report lines of those not reported before.
fn report_failures(tasks: &mut Vec<Task>) -> (r: (usize, usize, String))
    ensures
        r.0 == downloaded_count(old(tasks)@),
        r.1 == failed_count(old(tasks)@),
        r.2@ == failure_block(failure_lines(old(tasks)@)),
        final(tasks)@ == old(tasks)@.map_values(|t: Task| reported(t)),
{
    let n = tasks.len();
    let ghost start = tasks@;
    let mut done: usize = 0;
    let mut failed: usize = 0;
    let mut text = String::new();
    let mut i: usize = 0;
    while i < n
        invariant
            n == start.len(),
            tasks@.len() == n,
            i <= n,
            done == downloaded_count(start.subrange(0, i as int)),
            failed == failed_count(start.subrange(0, i as int)),
            done <= i,
            failed <= i,
            text@ == failure_block(failure_lines(start.subrange(0, i as int))),
            forall|j: int| 0 <= j < i ==> tasks@[j] == reported(start[j]),
            forall|j: int| i <= j < n ==> tasks@[j] == start[j],
        decreases n - i,
    {
        let ghost pre = start.subrange(0, i as int);
        let ghost next = start.subrange(0, i + 1);
        assert(next.drop_last() =~= pre);
        assert(next.last() == start[i as int]);
        let t = tasks[i].duplicate();
        if t.downloaded {
            done = done + 1;
        }
        if t.failed {
            failed = failed + 1;
            if !t.failure_printed {
                text.append("\u{1b}[K");
                text.append("S");
                text.append(t.season.as_str());
                text.append("E");
                push_decimal(&mut text, t.episode);
                text.append(" Failed to download.");
                text.append("\n");
                assert(failure_lines(next) == failure_lines(pre).push(failure_line(start[i as int])));
                assert(failure_lines(next).drop_last() =~= failure_lines(pre));
                assert(text@ =~= failure_block(failure_lines(next)));
            }
        }
        let mut u = t;
        u.failure_printed = u.failure_printed || u.failed;
        tasks.set(i, u);
        i = i + 1;
    }
    assert(start.subrange(0, n as int) =~= start);
    assert(tasks@ =~= start.map_values(|t: Task| reported(t)));
    (done, failed, text)
}

/// Writes the summary after the bar.
fn status_text_exec(processed: usize, total: usize, failed: usize, percent: usize) -> (r: String)
    requires
        percent == percent_of(processed as nat, total as nat),
    ensures
        r@ == status_text(processed as nat, total as nat, failed as nat),
{
    let mut r = String::new();
    r.append(" ");
    push_decimal(&mut r, percent);
    r.append("% (");
    push_decimal(&mut r, processed);
    r.append("/");
    push_decimal(&mut r, total);
    r.append(" episodes");
    let ghost counts = r@;
    if failed > 0 {
        r.append(", ");
        push_decimal(&mut r, failed);
        r.append(" failed");
    }
    r.append(")");
    assert(counts.len() <= r@.len());
    assert(r@ =~= status_text(processed as nat, total as nat, failed as nat));
    r
}

/// Writes a worker's status line before it is fitted to the terminal.
fn status_line_exec(w: &WorkerStatus) -> (r: String)
    ensures
        r@ == status_line(*w),
{
    let mut head = String::new();
    head.append("Thread ");
    push_decimal(&mut head, w.id);
    head.append(": ");
    match &w.current_task {
        Some(t) => {
            head.append("S");
            head.append(t.season.as_str());
            head.append("E");
            push_decimal(&mut head, t.episode);
        },
        None => {
            head.append("None");
        },
    }
    assert(head@ =~= status_head(*w));
    let bl = byte_length(head.as_str());
    let pad: usize = if bl < 18 {
        18 - bl
    } else {
        0
    };
    push_repeat(&mut head, ' ', pad);
    head.append(" | [");
    head.append(w.status.as_str());
    head.append("]");
    assert(head@ =~= status_line(*w));
    head
}

/// Writes one worker's two lines.
fn push_worker_block(out: &mut String, w: &WorkerStatus, tw: usize)
    requires
        4 <= tw,
        cut_allowed(status_line(*w), tw as nat),
        cut_allowed(w.last_output@, (tw - 4) as nat),
    ensures
        final(out)@ == old(out)@ + worker_block(*w, tw as nat),
{
    let head = status_line_exec(w);
    let line = truncate_bytes(head.as_str(), tw);
    let last = truncate_bytes(w.last_output.as_str(), tw - 4);
    out.append("\u{1b}[K");
    out.append(line);
    out.append("\n");
    out.append("\u{1b}[K  ");
    out.append(last);
    out.append("\n");
    assert(out@ =~= old(out)@ + worker_block(*w, tw as nat));
}

/// The frame can be drawn: decides `renderable`.
pub fn can_render(manager: &DownloadManager, terminal_width: usize) -> (r: bool)
    ensures
        r == renderable(manager.tasks@, manager.workers@, terminal_width as nat),
{
    if manager.workers.len() > 0 && terminal_width < 4 {
        return false;
    }
    let n = manager.tasks.len();
    let mut i: usize = 0;
    while i < n
        invariant
            n == manager.tasks@.len(),
            i <= n,
            forall|j: int| 0 <= j < i ==> !(#[trigger] manager.tasks@[j].downloaded
                && manager.tasks@[j].failed),
        decreases n - i,
    {
        if manager.tasks[i].downloaded && manager.tasks[i].failed {
            return false;
        }
        i = i + 1;
    }
    if n > usize::MAX / 100 {
        return false;
    }
    if terminal_width > usize::MAX - 10 || (n > 0 && terminal_width + 10 > usize::MAX / n) {
        proof {
            if n > 0 && terminal_width <= usize::MAX - 10 {
                assert(n * (terminal_width + 10) > usize::MAX) by (nonlinear_arith)
                    requires
                        terminal_width + 10 > usize::MAX / n,
                        n > 0,
                ;
            } else if n > 0 {
                assert(n * (terminal_width + 10) >= terminal_width + 10) by (nonlinear_arith)
                    requires
                        n >= 1,
                ;
            }
        }
        if n > 0 {
            return false;
        }
    }
    proof {
        if n > 0 {
            assert(n * (terminal_width + 10) <= usize::MAX) by (nonlinear_arith)
                requires
                    terminal_width + 10 <= usize::MAX / n,
                    n > 0,
            ;
        }
    }
    let wn = manager.workers.len();
    if wn > (usize::MAX - 2) / 2 {
        return false;
    }
    let mut k: usize = 0;
    while k < wn
        invariant
            wn > 0 ==> 4 <= terminal_width,
            wn == manager.workers@.len(),
            k <= wn,
            forall|j: int|
                0 <= j < k ==> cut_allowed(status_line(#[trigger] manager.workers@[j]), terminal_width as nat)
                    && cut_allowed(manager.workers@[j].last_output@, (terminal_width - 4) as nat),
        decreases wn - k,
    {
        let w = &manager.workers[k];
        let probe = status_line_exec(w);
        if !can_cut(probe.as_str(), terminal_width) {
            return false;
        }
        if !can_cut(w.last_output.as_str(), terminal_width - 4) {
            return false;
        }
        k = k + 1;
    }
    true
}

/// With no task both downloaded and failed, the processed tasks are at most
/// all of them.
pub proof fn lemma_processed_at_most_total(tasks: Seq<Task>)
    requires
        tasks_consistent(tasks),
    ensures
        downloaded_count(tasks) + failed_count(tasks) <= tasks.len(),
    decreases tasks.len(),
{
    if tasks.len() > 0 {
        assert(tasks.last() == tasks[tasks.len() - 1]);
        lemma_processed_at_most_total(tasks.drop_last());
    }
}

/// Computes `percent_of`.
fn percent_exec(processed: usize, total: usize) -> (r: usize)
    requires
        processed <= total,
        total * 100 <= usize::MAX,
    ensures
        r == percent_of(processed as nat, total as nat),
{
    assert(processed * 100 <= total * 100) by (nonlinear_arith)
        requires
            processed <= total,
    ;
    if total > 0 {
        processed * 100 / total
    } else {
        0
    }
}

/// Computes the width of the bar and how much of it is filled.
fn bar_dims(processed: usize, total: usize, pl: usize, sl: usize, tw: usize) -> (r: (usize, usize))
    requires
        processed <= total,
        total * (tw + 10) <= usize::MAX,
    ensures
        r.0 == bar_width(tw as nat, pl as nat, sl as nat),
        r.1 == filled_width(processed as nat, r.0 as nat, total as nat),
        r.1 <= r.0,
{
    let width: usize = if sl < tw && pl < tw - sl && tw - sl - pl > 2 {
        tw - pl - sl - 2
    } else {
        10
    };
    assert(width <= tw + 10);
    assert(processed * width <= total * (tw + 10)) by (nonlinear_arith)
        requires
            processed <= total,
            width <= tw + 10,
    ;
    let filled = if total > 0 {
        processed * width / total
    } else {
        0
    };
    assert(filled <= width) by (nonlinear_arith)
        requires
            processed <= total,
            total > 0 ==> filled as int == (processed * width) as int / (total as int),
            total == 0 ==> filled == 0,
    ;
    (width, filled)
}

/// Writes the line with the overall bar.
fn push_total_line(out: &mut String, done: usize, failed: usize, total: usize, tw: usize)
    requires
        done + failed <= total,
        total * 100 <= usize::MAX,
        total * (tw + 10) <= usize::MAX,
    ensures
        final(out)@ == old(out)@ + total_line_for(done as nat, failed as nat, total as nat, tw as nat),
{
    let processed = done + failed;
    let percent = percent_exec(processed, total);
    let status = status_text_exec(processed, total, failed, percent);
    let prefix = "Total Progress: ";
    let pl = byte_length(prefix);
    let sl = byte_length(status.as_str());
    let (width, filled) = bar_dims(processed, total, pl, sl, tw);
    out.append("\u{1b}[K");
    out.append(prefix);
    out.append("[");
    push_repeat(out, '#', filled);
    push_repeat(out, '-', width - filled);
    out.append("]");
    out.append(status.as_str());
    out.append("\n\u{1b}[K\n");
    assert(out@ =~= old(out)@ + total_line_for(done as nat, failed as nat, total as nat, tw as nat));
}

/// Writes the blocks of all workers.
fn push_worker_blocks(out: &mut String, ws: &Vec<WorkerStatus>, tw: usize)
    requires
        ws@.len() > 0 ==> 4 <= tw,
        forall|i: int|
            0 <= i < ws@.len() ==> cut_allowed(status_line(#[trigger] ws@[i]), tw as nat)
                && cut_allowed(ws@[i].last_output@, (tw - 4) as nat),
    ensures
        final(out)@ == old(out)@ + worker_blocks(ws@, tw as nat),
{
    let wn = ws.len();
    let mut k: usize = 0;
    while k < wn
        invariant
            wn > 0 ==> 4 <= tw,
            wn == ws@.len(),
            k <= wn,
            forall|i: int|
                0 <= i < ws@.len() ==> cut_allowed(status_line(#[trigger] ws@[i]), tw as nat)
                    && cut_allowed(ws@[i].last_output@, (tw - 4) as nat),
            out@ == old(out)@ + worker_blocks(ws@.subrange(0, k as int), tw as nat),
        decreases wn - k,
    {
        assert(ws@.subrange(0, k + 1).drop_last() =~= ws@.subrange(0, k as int));
        assert(cut_allowed(status_line(ws@[k as int]), tw as nat));
        push_worker_block(out, &ws[k], tw);
        k = k + 1;
        assert(out@ =~= old(out)@ + worker_blocks(ws@.subrange(0, k as int), tw as nat));
    }
    assert(ws@.subrange(0, wn as int) =~= ws@);
}

/// Draws the progress frame of a bulk download and marks the failures it
/// reports, so that each is reported once. Does nothing outside a bulk
/// download, whatever the width.
pub fn render_frame(manager: &mut DownloadManager, terminal_width: usize) -> (r: Option<String>)
    requires
        old(manager).is_bulk ==> renderable(
            old(manager).tasks@,
            old(manager).workers@,
            terminal_width as nat,
        ),
    ensures
        !old(manager).is_bulk ==> r is None && final(manager).tasks@ == old(manager).tasks@,
        old(manager).is_bulk ==> r is Some && r->0@ == frame_text(
            old(manager).tasks@,
            old(manager).workers@,
            terminal_width as nat,
        ) && final(manager).tasks@ == old(manager).tasks@.map_values(|t: Task| reported(t)),
        final(manager).workers@ == old(manager).workers@,
        final(manager).is_bulk == old(manager).is_bulk,
{
    if !manager.is_bulk {
        return None;
    }
    let ghost tasks0 = manager.tasks@;
    let (done, failed, failures) = report_failures(&mut manager.tasks);
    let total = manager.tasks.len();
    proof {
        lemma_processed_at_most_total(tasks0);
    }
    let mut out = String::new();
    out.append("\u{1b}[");
    push_decimal(&mut out, manager.workers.len() * 2 + 2);
    out.append("A\u{1b}[G");
    out.append(failures.as_str());
    push_total_line(&mut out, done, failed, total, terminal_width);
    push_worker_blocks(&mut out, &manager.workers, terminal_width);
    assert(out@ =~= frame_text(tasks0, manager.workers@, terminal_width as nat));
    Some(out)
}

/// Reported failures stay reported: after a frame has marked the failures,
/// none is left to report, and the counts of downloaded and failed tasks
/// are the same as before.
pub proof fn lemma_failures_reported_once(tasks: Seq<Task>)
    ensures
        failure_lines(tasks.map_values(|t: Task| reported(t))) == Seq::<Seq<char>>::empty(),
        downloaded_count(tasks.map_values(|t: Task| reported(t))) == downloaded_count(tasks),
        failed_count(tasks.map_values(|t: Task| reported(t))) == failed_count(tasks),
    decreases tasks.len(),
{
    let m = tasks.map_values(|t: Task| reported(t));
    if tasks.len() > 0 {
        assert(m.drop_last() =~= tasks.drop_last().map_values(|t: Task| reported(t)));
        lemma_failures_reported_once(tasks.drop_last());
        assert(m.last() == reported(tasks.last()));
    } else {
        assert(m.len() == 0);
    }
}

/// When a worker's status line fits the terminal and its last output fits
/// after the two-space indent (four bytes are kept free), its block is the
/// two lines shown whole.
pub proof fn lemma_worker_block_fits(w: WorkerStatus, tw: nat)
    requires
        4 <= tw,
        byte_len(status_line(w)) <= tw,
        byte_len(w.last_output@) <= tw - 4,
    ensures
        worker_block(w, tw) == "\u{1b}[K"@ + status_line(w) + "\n"@ + "\u{1b}[K  "@ + w.last_output@
            + "\n"@,
{
}

/// The workers' part of a frame for one worker is that worker's block.
pub proof fn lemma_worker_blocks_one(w: WorkerStatus, tw: nat)
    ensures
        worker_blocks(seq![w], tw) == worker_block(w, tw),
{
    let one = seq![w];
    assert(one.drop_last() =~= Seq::<WorkerStatus>::empty());
    assert(one.last() == w);
    assert(worker_blocks(one.drop_last(), tw) =~= Seq::<char>::empty());
    assert(Seq::<char>::empty() + worker_block(w, tw) =~= worker_block(w, tw));
}

/// The workers' part of a frame for two groups of workers, one after the
/// other, is the part for the first group followed by the part for the
/// second: every worker gets its block, in order, and the length is the sum
/// of the blocks' lengths.
pub proof fn lemma_worker_blocks_concat(a: Seq<WorkerStatus>, b: Seq<WorkerStatus>, tw: nat)
    ensures
        worker_blocks(a + b, tw) == worker_blocks(a, tw) + worker_blocks(b, tw),
        worker_blocks(a + b, tw).len() == worker_blocks(a, tw).len() + worker_blocks(b, tw).len(),
    decreases b.len(),
{
    if b.len() == 0 {
        assert(a + b =~= a);
        assert(worker_blocks(a, tw) + Seq::<char>::empty() =~= worker_blocks(a, tw));
    } else {
        assert((a + b).drop_last() =~= a + b.drop_last());
        assert((a + b).last() == b.last());
        lemma_worker_blocks_concat(a, b.drop_last(), tw);
        assert(worker_blocks(a, tw) + worker_blocks(b.drop_last(), tw) + worker_block(b.last(), tw)
            =~= worker_blocks(a, tw) + (worker_blocks(b.drop_last(), tw) + worker_block(b.last(), tw)));
    }
}

/// Each worker's two lines stand in the frame's workers' part after those of
/// the workers before it and before those of the workers after it.
pub proof fn lemma_worker_block_in_place(ws: Seq<WorkerStatus>, i: int, tw: nat)
    requires
        0 <= i < ws.len(),
    ensures
        worker_blocks(ws, tw) == worker_blocks(ws.take(i), tw) + worker_block(ws[i], tw)
            + worker_blocks(ws.skip(i + 1), tw),
{
    assert(ws =~= (ws.take(i) + seq![ws[i]]) + ws.skip(i + 1));
    lemma_worker_blocks_concat(ws.take(i) + seq![ws[i]], ws.skip(i + 1), tw);
    lemma_worker_blocks_concat(ws.take(i), seq![ws[i]], tw);
    lemma_worker_blocks_one(ws[i], tw);
}

/// Drawing twice with nothing changed in between: the second frame reports
/// no failure and shows the same overall line as the first; it is the first
/// frame without its failure reports.
pub proof fn lemma_second_frame(tasks: Seq<Task>, ws: Seq<WorkerStatus>, tw: nat)
    ensures
        frame_text(tasks.map_values(|t: Task| reported(t)), ws, tw) == cursor_up(ws.len() * 2 + 2)
            + total_line(tasks, tw) + worker_blocks(ws, tw),
        frame_text(tasks, ws, tw) == cursor_up(ws.len() * 2 + 2) + failure_block(failure_lines(tasks))
            + total_line(tasks, tw) + worker_blocks(ws, tw),
{
    lemma_failures_reported_once(tasks);
    let m = tasks.map_values(|t: Task| reported(t));
    assert(failure_block(failure_lines(m)) =~= Seq::<char>::empty());
    assert(total_line(m, tw) == total_line(tasks, tw));
    assert(cursor_up(ws.len() * 2 + 2) + Seq::<char>::empty() =~= cursor_up(ws.len() * 2 + 2));
}

/// The bar never overflows and the percentage never passes 100, as long as
/// no more tasks are processed than there are.
pub proof fn lemma_bar_fits(processed: nat, total: nat, width: nat)
    requires
        processed <= total,
    ensures
        filled_width(processed, width, total) <= width,
        percent_of(processed, total) <= 100,
{
    if total > 0 {
        assert(processed * width / total <= width) by (nonlinear_arith)
            requires
                processed <= total,
                total > 0,
        ;
        assert(processed * 100 / total <= 100) by (nonlinear_arith)
            requires
                processed <= total,
                total > 0,
        ;
    }
}

/// The terminal's size in columns and rows, when standard output is a
/// terminal (`term_size::dimensions`). Whatever the terminal reports, both
/// numbers are positive and fit in 16 bits (the ioctl's `u16` fields);
/// which numbers come back depends on the terminal, and nothing more is stated.
#[verifier::external_body]
fn terminal_dimensions() -> (r: Option<(usize, usize)>)
    ensures
        r matches Some((w, h)) ==> 0 < w <= 65535 && 0 < h <= 65535,
{
    term_size::dimensions()
}

/// The width to draw with: the terminal's columns, or 80 when unknown.
pub fn width_or_default(dims: Option<(usize, usize)>) -> (r: usize)
    ensures
        r == match dims {
            Some((w, _h)) => w,
            None => 80,
        },
{
    match dims {
        Some((w, _h)) => w,
        None => 80,
    }
}

/// The width of the terminal in columns, or 80 when it cannot be told.
pub fn get_terminal_width() -> (r: usize)
    ensures
        0 < r <= 65535,
{
    width_or_default(terminal_dimensions())
}

} // verus!
