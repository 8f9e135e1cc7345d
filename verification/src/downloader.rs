//! Planning of movie and show downloads: the seasons of a show in order, the
//! episodes to fetch, the paths they are saved to, and the downloader's
//! command line, retries and progress lines.

use vstd::prelude::*;
use crate::text::{
    decimal, parse_i32, parse_i32_spec, parse_usize, parse_usize_spec, trim, trimmed, push_decimal,
    is_space, is_digit, str_eq, to_owned_string, lemma_decimal_digits,
};
use crate::types::{Task, WorkerStatus, DownloadManager, Progress};

verus! {

/// How many episodes the API lists for a season.
pub enum EpisodeCount {
    /// The season's episodes as a list of that length.
    Listed(usize),
    /// The season's episodes as a number, `None` when it is not an integer.
    Number(Option<i64>),
}

/// One season of a show, as the API names it.
pub struct SeasonEntry {
    pub name: String,
    pub episodes: EpisodeCount,
}

/// The number of episodes: the list's length, or the number converted as
/// `as usize` does (a negative number wraps around), or 0.
pub open spec fn episode_count_spec(e: EpisodeCount) -> usize {
    match e {
        EpisodeCount::Listed(n) => n,
        EpisodeCount::Number(Some(x)) => x as usize,
        EpisodeCount::Number(None) => 0,
    }
}

/// The number of episodes of a season.
pub fn episode_count(e: &EpisodeCount) -> (r: usize)
    ensures
        r == episode_count_spec(*e),
{
    match e {
        EpisodeCount::Listed(n) => *n,
        EpisodeCount::Number(Some(x)) => *x as usize,
        EpisodeCount::Number(None) => 0,
    }
}

/// The number a season's name is ordered by: its value as an `i32`, or 0.
pub open spec fn season_key(name: Seq<char>) -> int {
    match parse_i32_spec(name) {
        Some(v) => v as int,
        None => 0,
    }
}

/// A season's name that is a number in the range of `i32` is ordered by that
/// number; any other name counts as 0.
pub proof fn lemma_season_key_number(name: Seq<char>)
    ensures
        parse_i32_spec(name) matches Some(v) ==> season_key(name) == v as int,
        parse_i32_spec(name) is None ==> season_key(name) == 0,
{
}

/// The season written as the decimal number `n` is ordered by `n`.
pub proof fn lemma_season_key_decimal(n: nat)
    requires
        n <= i32::MAX,
    ensures
        season_key(decimal(n)) == n as int,
{
    lemma_decimal_digits(n);
    assert(parse_i32_spec(decimal(n)) == Some(n as i32));
}

/// `s` with `x` inserted after every entry whose key is at most `x`'s.
pub open spec fn insert_in_order(s: Seq<SeasonEntry>, x: SeasonEntry) -> Seq<SeasonEntry>
    decreases s.len(),
{
    if s.len() == 0 {
        seq![x]
    } else if season_key(s.last().name@) <= season_key(x.name@) {
        s.push(x)
    } else {
        insert_in_order(s.drop_last(), x).push(s.last())
    }
}

/// The seasons stably sorted by their keys: ordered by number, and seasons
/// with the same number kept in the order they came in.
pub open spec fn sorted_seasons(s: Seq<SeasonEntry>) -> Seq<SeasonEntry>
    decreases s.len(),
{
    if s.len() == 0 {
        seq![]
    } else {
        insert_in_order(sorted_seasons(s.drop_last()), s.last())
    }
}

/// Inserting at `j`, the first place from the end where the key is no
/// longer larger, is `insert_in_order`.
proof fn lemma_insert_at(s: Seq<SeasonEntry>, x: SeasonEntry, j: int)
    requires
        0 <= j <= s.len(),
        forall|k: int| j <= k < s.len() ==> season_key(#[trigger] s[k].name@) > season_key(x.name@),
        j > 0 ==> season_key(s[j - 1].name@) <= season_key(x.name@),
    ensures
        insert_in_order(s, x) == s.subrange(0, j).push(x) + s.subrange(j, s.len() as int),
    decreases s.len(),
{
    if s.len() == 0 {
        assert(s.subrange(0, j).push(x) + s.subrange(j, s.len() as int) =~= seq![x]);
    } else if j == s.len() {
        assert(s.subrange(0, j).push(x) + s.subrange(j, s.len() as int) =~= s.push(x));
    } else {
        lemma_insert_at(s.drop_last(), x, j);
        assert(s.subrange(0, j).push(x) + s.subrange(j, s.len() as int) =~= (s.drop_last().subrange(
            0,
            j,
        ).push(x) + s.drop_last().subrange(j, s.drop_last().len() as int)).push(s.last()));
    }
}

/// The key of a season's name.
fn season_key_exec(name: &String) -> (r: i32)
    ensures
        r as int == season_key(name@),
{
    match parse_i32(name.as_str()) {
        Some(v) => v,
        None => 0,
    }
}

/// Inserts `x` into `out` as `insert_in_order` does.
fn insert_season(out: &mut Vec<SeasonEntry>, x: SeasonEntry)
    ensures
        final(out)@ == insert_in_order(old(out)@, x),
{
    let kx = season_key_exec(&x.name);
    let mut j = out.len();
    while j > 0 && season_key_exec(&out[j - 1].name) > kx
        invariant
            j <= out@.len(),
            out@ == old(out)@,
            kx as int == season_key(x.name@),
            forall|k: int| j <= k < out@.len() ==> season_key(#[trigger] out@[k].name@) > season_key(
                x.name@,
            ),
        decreases j,
    {
        j = j - 1;
    }
    proof {
        lemma_insert_at(out@, x, j as int);
    }
    out.insert(j, x);
    assert(out@ =~= old(out)@.subrange(0, j as int).push(x) + old(out)@.subrange(
        j as int,
        old(out)@.len() as int,
    ));
}

/// The seasons ordered by number, seasons with the same number (or none)
/// keeping their order.
pub fn sort_seasons(seasons: Vec<SeasonEntry>) -> (r: Vec<SeasonEntry>)
    ensures
        r@ == sorted_seasons(seasons@),
{
    let mut input = seasons;
    let ghost all = input@;
    let mut rev: Vec<SeasonEntry> = Vec::new();
    while input.len() > 0
        invariant
            all == input@ + rev@.reverse(),
        decreases input@.len(),
    {
        let ghost before = input@;
        let x = input.pop().unwrap();
        rev.push(x);
        assert(all == input@ + rev@.reverse()) by {
            assert(before =~= input@.push(x));
            assert(rev@.reverse() =~= seq![x] + rev@.drop_last().reverse());
            assert(input@ + rev@.reverse() =~= before + rev@.drop_last().reverse());
        }
    }
    assert(all =~= rev@.reverse());
    let mut out: Vec<SeasonEntry> = Vec::new();
    let ghost mut done: Seq<SeasonEntry> = Seq::empty();
    while rev.len() > 0
        invariant
            all == done + rev@.reverse(),
            out@ == sorted_seasons(done),
        decreases rev@.len(),
    {
        let ghost before = rev@;
        let x = rev.pop().unwrap();
        proof {
            assert(before =~= rev@.push(x));
            assert(before.reverse() =~= seq![x] + rev@.reverse());
            assert(done.push(x).drop_last() =~= done);
            done = done.push(x);
            assert(all =~= done + rev@.reverse());
        }
        insert_season(&mut out, x);
    }
    assert(done =~= all);
    out
}

/// The sorted seasons are in numeric order: of two seasons in the result,
/// the earlier one's number (its name read as an `i32`, or 0 when it is not
/// one) is at most the later one's; so a season with a smaller number comes
/// before one with a larger number.
pub proof fn lemma_sorted_seasons_numeric(s: Seq<SeasonEntry>)
    ensures
        forall|i: int, j: int|
            0 <= i < j < sorted_seasons(s).len() ==> (match parse_i32_spec(
                #[trigger] sorted_seasons(s)[i].name@,
            ) {
                Some(v) => v as int,
                None => 0,
            }) <= (match parse_i32_spec(#[trigger] sorted_seasons(s)[j].name@) {
                Some(v) => v as int,
                None => 0,
            }),
        forall|i: int, j: int|
            0 <= i < sorted_seasons(s).len() && 0 <= j < sorted_seasons(s).len() && (match parse_i32_spec(
                #[trigger] sorted_seasons(s)[i].name@,
            ) {
                Some(v) => v as int,
                None => 0,
            }) < (match parse_i32_spec(#[trigger] sorted_seasons(s)[j].name@) {
                Some(v) => v as int,
                None => 0,
            }) ==> i < j,
{
    lemma_sorted_seasons_ordered(s);
    let r = sorted_seasons(s);
    assert forall|i: int, j: int|
        0 <= i < j < r.len() implies (match parse_i32_spec(#[trigger] r[i].name@) {
        Some(v) => v as int,
        None => 0,
    }) <= (match parse_i32_spec(#[trigger] r[j].name@) {
        Some(v) => v as int,
        None => 0,
    }) by {
        assert(season_key(r[i].name@) <= season_key(r[j].name@));
    }
    assert forall|i: int, j: int|
        0 <= i < r.len() && 0 <= j < r.len() && (match parse_i32_spec(#[trigger] r[i].name@) {
            Some(v) => v as int,
            None => 0,
        }) < (match parse_i32_spec(#[trigger] r[j].name@) {
            Some(v) => v as int,
            None => 0,
        }) implies i < j by {
        if j <= i {
            assert(season_key(r[j].name@) <= season_key(r[i].name@));
        }
    }
}

/// The seasons are in order of their keys.
pub open spec fn seasons_ordered(s: Seq<SeasonEntry>) -> bool {
    forall|i: int, j: int|
        0 <= i < j < s.len() ==> season_key(#[trigger] s[i].name@) <= season_key(#[trigger] s[j].name@)
}

/// The seasons whose key is `k`.
pub open spec fn with_key(k: int) -> spec_fn(SeasonEntry) -> bool {
    |e: SeasonEntry| season_key(e.name@) == k
}

proof fn lemma_insert_bounded(s: Seq<SeasonEntry>, x: SeasonEntry, m: int)
    requires
        forall|i: int| 0 <= i < s.len() ==> season_key(#[trigger] s[i].name@) <= m,
        season_key(x.name@) <= m,
    ensures
        forall|i: int|
            0 <= i < insert_in_order(s, x).len() ==> season_key(
                #[trigger] insert_in_order(s, x)[i].name@,
            ) <= m,
        insert_in_order(s, x).len() == s.len() + 1,
    decreases s.len(),
{
    if s.len() > 0 && season_key(s.last().name@) > season_key(x.name@) {
        lemma_insert_bounded(s.drop_last(), x, m);
        let r = insert_in_order(s, x);
        assert forall|i: int| 0 <= i < r.len() implies season_key(#[trigger] r[i].name@) <= m by {
            if i < r.len() - 1 {
                assert(r[i] == insert_in_order(s.drop_last(), x)[i]);
            } else {
                assert(r[i] == s[s.len() - 1]);
            }
        }
    }
}

proof fn lemma_insert_ordered(s: Seq<SeasonEntry>, x: SeasonEntry)
    requires
        seasons_ordered(s),
    ensures
        seasons_ordered(insert_in_order(s, x)),
        insert_in_order(s, x).to_multiset() == s.to_multiset().insert(x),
        forall|k: int|
            #[trigger] insert_in_order(s, x).filter(with_key(k)) == if season_key(x.name@) == k {
                s.filter(with_key(k)).push(x)
            } else {
                s.filter(with_key(k))
            },
    decreases s.len(),
{
    broadcast use vstd::seq_lib::to_multiset_build;
    broadcast use vstd::seq_lib::group_seq_properties;

    let r = insert_in_order(s, x);
    if s.len() == 0 || season_key(s.last().name@) <= season_key(x.name@) {
        assert(r =~= s.push(x));
        assert forall|k: int|
            #[trigger] insert_in_order(s, x).filter(with_key(k)) == if season_key(x.name@) == k {
                s.filter(with_key(k)).push(x)
            } else {
                s.filter(with_key(k))
            } by {
            s.lemma_filter_push(x, with_key(k));
        }
    }
    if s.len() == 0 {
    } else if season_key(s.last().name@) <= season_key(x.name@) {
        assert forall|i: int, j: int| 0 <= i < j < r.len() implies season_key(
            #[trigger] r[i].name@,
        ) <= season_key(#[trigger] r[j].name@) by {
            if j == r.len() - 1 && i < j {
                assert(season_key(s[i].name@) <= season_key(s[s.len() - 1].name@));
            }
        }
    } else {
        let d = s.drop_last();
        let l = s.last();
        assert(seasons_ordered(d));
        lemma_insert_ordered(d, x);
        assert forall|i: int| 0 <= i < d.len() implies season_key(#[trigger] d[i].name@) <= season_key(
            l.name@,
        ) by {
            assert(s[i] == d[i]);
        }
        lemma_insert_bounded(d, x, season_key(l.name@));
        let ri = insert_in_order(d, x);
        assert forall|i: int, j: int| 0 <= i < j < r.len() implies season_key(
            #[trigger] r[i].name@,
        ) <= season_key(#[trigger] r[j].name@) by {
            if j == r.len() - 1 {
                assert(r[i] == ri[i]);
            } else {
                assert(r[i] == ri[i]);
                assert(r[j] == ri[j]);
            }
        }
        assert(s =~= d.push(l));
        assert forall|k: int|
            #[trigger] insert_in_order(s, x).filter(with_key(k)) == if season_key(x.name@) == k {
                s.filter(with_key(k)).push(x)
            } else {
                s.filter(with_key(k))
            } by {
            d.lemma_filter_push(l, with_key(k));
            ri.lemma_filter_push(l, with_key(k));
            assert(insert_in_order(d, x).filter(with_key(k)) == if season_key(x.name@) == k {
                d.filter(with_key(k)).push(x)
            } else {
                d.filter(with_key(k))
            });
        }
    }
}

/// The sorted seasons are in order of their numbers.
pub proof fn lemma_sorted_seasons_ordered(s: Seq<SeasonEntry>)
    ensures
        seasons_ordered(sorted_seasons(s)),
        sorted_seasons(s).to_multiset() == s.to_multiset(),
        forall|k: int| #[trigger] sorted_seasons(s).filter(with_key(k)) == s.filter(with_key(k)),
    decreases s.len(),
{
    broadcast use vstd::seq_lib::to_multiset_build;
    broadcast use vstd::seq_lib::group_seq_properties;

    if s.len() == 0 {
        assert(s.to_multiset() =~= vstd::multiset::Multiset::<SeasonEntry>::empty());
        assert forall|k: int| #[trigger] sorted_seasons(s).filter(with_key(k)) == s.filter(
            with_key(k),
        ) by {
            assert(sorted_seasons(s) =~= s);
        }
    } else {
        let d = s.drop_last();
        lemma_sorted_seasons_ordered(d);
        lemma_insert_ordered(sorted_seasons(d), s.last());
        assert(s =~= d.push(s.last()));
        assert forall|k: int| #[trigger] sorted_seasons(s).filter(with_key(k)) == s.filter(
            with_key(k),
        ) by {
            d.lemma_filter_push(s.last(), with_key(k));
            assert(insert_in_order(sorted_seasons(d), s.last()).filter(with_key(k)) == if season_key(
                s.last().name@,
            ) == k {
                sorted_seasons(d).filter(with_key(k)).push(s.last())
            } else {
                sorted_seasons(d).filter(with_key(k))
            });
        }
    }
}

/// The folder of a season: `./<title>/Season_<season>`.
pub open spec fn season_dir(title: Seq<char>, season: Seq<char>) -> Seq<char> {
    "./"@ + title + "/Season_"@ + season
}

/// The path of an episode without extension:
/// `./<title>/Season_<season>/<title>-S<season>-E<episode>`.
pub open spec fn episode_base(title: Seq<char>, season: Seq<char>, episode: nat) -> Seq<char> {
    season_dir(title, season) + "/"@ + title + "-S"@ + season + "-E"@ + decimal(episode)
}

/// `t` is the fresh task for the given episode: in the season's folder, not
/// taken, not done and with no subtitle link yet.
pub open spec fn is_planned_task(
    t: Task,
    title: Seq<char>,
    season: Seq<char>,
    episode: nat,
    imdb_id: Seq<char>,
) -> bool {
    &&& t.season@ == season
    &&& t.episode == episode
    &&& t.base_dir@ == season_dir(title, season)
    &&& t.file_name_base@ == episode_base(title, season, episode)
    &&& t.imdb_id@ == imdb_id
    &&& t.sub_url@ == Seq::<char>::empty()
    &&& !t.downloaded
    &&& !t.failed
    &&& !t.failure_printed
    &&& t.claimed_by == usize::MAX
}

/// The episodes of the seasons, season after season, each numbered from 1.
pub open spec fn planned_episodes(seasons: Seq<SeasonEntry>) -> Seq<(Seq<char>, nat)>
    decreases seasons.len(),
{
    if seasons.len() == 0 {
        seq![]
    } else {
        let last = seasons.last();
        planned_episodes(seasons.drop_last()) + Seq::new(
            episode_count_spec(last.episodes) as nat,
            |e: int| (last.name@, (e + 1) as nat),
        )
    }
}

/// The tasks in `ts` are the fresh tasks of the episodes `eps`, in order.
pub open spec fn tasks_plan(
    ts: Seq<Task>,
    title: Seq<char>,
    eps: Seq<(Seq<char>, nat)>,
    imdb_id: Seq<char>,
) -> bool {
    &&& ts.len() == eps.len()
    &&& forall|k: int|
        0 <= k < ts.len() ==> is_planned_task(#[trigger] ts[k], title, eps[k].0, eps[k].1, imdb_id)
}

/// Builds the fresh task of one episode.
fn planned_task(title: &str, season: &str, episode: usize, imdb_id: &str) -> (r: Task)
    ensures
        is_planned_task(r, title@, season@, episode as nat, imdb_id@),
{
    let mut dir = String::from_str("./");
    dir.append(title);
    dir.append("/Season_");
    dir.append(season);
    let mut base = dir.clone();
    base.append("/");
    base.append(title);
    base.append("-S");
    base.append(season);
    base.append("-E");
    push_decimal(&mut base, episode);
    Task {
        season: String::from_str(season),
        episode,
        base_dir: dir,
        file_name_base: base,
        imdb_id: String::from_str(imdb_id),
        sub_url: String::new(),
        downloaded: false,
        failed: false,
        failure_printed: false,
        claimed_by: usize::MAX,
    }
}

/// Appends the tasks of episodes 1 to `count` of one season.
fn push_season_tasks(out: &mut Vec<Task>, title: &str, season: &str, count: usize, imdb_id: &str)
    ensures
        final(out)@.len() == old(out)@.len() + count,
        final(out)@.subrange(0, old(out)@.len() as int) == old(out)@,
        tasks_plan(
            final(out)@.subrange(old(out)@.len() as int, final(out)@.len() as int),
            title@,
            Seq::new(count as nat, |e: int| (season@, (e + 1) as nat)),
            imdb_id@,
        ),
{
    let ghost start = old(out)@.len();
    let mut ep: usize = 0;
    while ep < count
        invariant
            ep <= count,
            out@.len() == start + ep,
            out@.subrange(0, start as int) == old(out)@,
            start == old(out)@.len(),
            tasks_plan(
                out@.subrange(start as int, out@.len() as int),
                title@,
                Seq::new(ep as nat, |e: int| (season@, (e + 1) as nat)),
                imdb_id@,
            ),
        decreases count - ep,
    {
        ep = ep + 1;
        let t = planned_task(title, season, ep, imdb_id);
        let ghost before = out@;
        out.push(t);
        assert(out@.subrange(0, start as int) =~= before.subrange(0, start as int));
        let ghost seg = out@.subrange(start as int, out@.len() as int);
        assert(seg =~= before.subrange(start as int, before.len() as int).push(t));
        let ghost eps = Seq::new(ep as nat, |e: int| (season@, (e + 1) as nat));
        assert forall|k: int| 0 <= k < seg.len() implies is_planned_task(
            #[trigger] seg[k],
            title@,
            eps[k].0,
            eps[k].1,
            imdb_id@,
        ) by {
            if k < seg.len() - 1 {
                assert(seg[k] == before.subrange(start as int, before.len() as int)[k]);
            }
        }
    }
}

/// The tasks of every episode of one season, numbered from 1.
pub fn plan_season_tasks(title: &str, season: &SeasonEntry, imdb_id: &str) -> (r: Vec<Task>)
    ensures
        tasks_plan(r@, title@, planned_episodes(seq![*season]), imdb_id@),
{
    let count = episode_count(&season.episodes);
    let mut out: Vec<Task> = Vec::new();
    push_season_tasks(&mut out, title, season.name.as_str(), count, imdb_id);
    proof {
        assert(seq![*season].drop_last() =~= Seq::<SeasonEntry>::empty());
        assert(seq![*season].last() == *season);
        assert(planned_episodes(Seq::<SeasonEntry>::empty()) =~= Seq::<(Seq<char>, nat)>::empty());
        assert(planned_episodes(seq![*season]) =~= Seq::new(
            count as nat,
            |e: int| (season.name@, (e + 1) as nat),
        ));
        assert(out@.subrange(0, out@.len() as int) =~= out@);
    }
    out
}

/// The tasks of every episode of every season, season after season.
pub fn plan_all_tasks(title: &str, seasons: &Vec<SeasonEntry>, imdb_id: &str) -> (r: Vec<Task>)
    ensures
        tasks_plan(r@, title@, planned_episodes(seasons@), imdb_id@),
{
    let mut out: Vec<Task> = Vec::new();
    let n = seasons.len();
    let mut i: usize = 0;
    while i < n
        invariant
            n == seasons@.len(),
            i <= n,
            tasks_plan(out@, title@, planned_episodes(seasons@.subrange(0, i as int)), imdb_id@),
        decreases n - i,
    {
        let count = episode_count(&seasons[i].episodes);
        let ghost before = out@;
        push_season_tasks(&mut out, title, seasons[i].name.as_str(), count, imdb_id);
        proof {
            let sub = seasons@.subrange(0, i + 1);
            assert(sub.drop_last() =~= seasons@.subrange(0, i as int));
            assert(sub.last() == seasons@[i as int]);
            let eps_new = Seq::new(count as nat, |e: int| (seasons@[i as int].name@, (e + 1) as nat));
            let all = planned_episodes(sub);
            assert(all == planned_episodes(seasons@.subrange(0, i as int)) + eps_new);
            let seg = out@.subrange(before.len() as int, out@.len() as int);
            assert forall|k: int| 0 <= k < out@.len() implies is_planned_task(
                #[trigger] out@[k],
                title@,
                all[k].0,
                all[k].1,
                imdb_id@,
            ) by {
                if k < before.len() {
                    assert(out@[k] == out@.subrange(0, before.len() as int)[k]);
                } else {
                    assert(out@[k] == seg[k - before.len()]);
                }
            }
        }
        i = i + 1;
    }
    assert(seasons@.subrange(0, n as int) =~= seasons@);
    out
}

/// A worker as it starts: idle, with no task.
pub open spec fn is_idle_worker(w: WorkerStatus, id: usize) -> bool {
    &&& w.id == id
    &&& w.status@ == "Idle"@
    &&& w.progress is Zero
    &&& w.current_task is None
    &&& w.last_output@ == Seq::<char>::empty()
}

/// The workers of a bulk download, numbered from 1.
pub fn initial_workers(threads: usize) -> (r: Vec<WorkerStatus>)
    ensures
        r@.len() == threads,
        forall|k: int| 0 <= k < threads ==> is_idle_worker(#[trigger] r@[k], (k + 1) as usize),
{
    let mut ws: Vec<WorkerStatus> = Vec::new();
    let mut i: usize = 0;
    while i < threads
        invariant
            i <= threads,
            ws@.len() == i,
            forall|k: int| 0 <= k < i ==> is_idle_worker(#[trigger] ws@[k], (k + 1) as usize),
        decreases threads - i,
    {
        ws.push(
            WorkerStatus {
                id: i + 1,
                status: String::from_str("Idle"),
                progress: Progress::Zero,
                current_task: None,
                last_output: String::new(),
            },
        );
        i = i + 1;
    }
    ws
}

/// The shared state of a bulk download before it starts.
pub fn new_manager(tasks: Vec<Task>, threads: usize, is_bulk: bool) -> (r: DownloadManager)
    ensures
        r.tasks@ == tasks@,
        r.workers@.len() == threads,
        forall|k: int| 0 <= k < threads ==> is_idle_worker(#[trigger] r.workers@[k], (k + 1) as usize),
        r.is_bulk == is_bulk,
{
    DownloadManager { tasks, workers: initial_workers(threads), is_bulk }
}

/// The menu option typed by the user: the trimmed input as an `i32`, or 0.
pub fn menu_choice(input: &str) -> (r: i32)
    ensures
        r == match parse_i32_spec(trimmed(input@)) {
            Some(v) => v,
            None => 0,
        },
{
    match parse_i32(trim(input)) {
        Some(v) => v,
        None => 0,
    }
}

/// A number typed by the user: the trimmed input as a `usize`, or 0.
pub fn typed_number(input: &str) -> (r: usize)
    ensures
        r == match parse_usize_spec(trimmed(input@)) {
            Some(v) => v,
            None => 0,
        },
{
    match parse_usize(trim(input)) {
        Some(v) => v,
        None => 0,
    }
}

/// The season picked from a list of `count` seasons by the typed number
/// (counted from 1): its index, or `None` when the number is 0 or too large.
pub fn season_choice(input: &str, count: usize) -> (r: Option<usize>)
    ensures
        ({
            let n = match parse_usize_spec(trimmed(input@)) {
                Some(v) => v,
                None => 0,
            };
            r == if n == 0 || n > count {
                None
            } else {
                Some((n - 1) as usize)
            }
        }),
{
    let n = typed_number(input);
    if n == 0 || n > count {
        None
    } else {
        Some(n - 1)
    }
}

/// The file one episode is saved to outside a bulk download:
/// `./<title>-S<season>-E<episode>.mp4`.
pub open spec fn single_episode_path_spec(title: Seq<char>, season: Seq<char>, episode: nat) -> Seq<char> {
    "./"@ + title + "-S"@ + season + "-E"@ + decimal(episode) + ".mp4"@
}

/// Builds the file one episode is saved to outside a bulk download.
pub fn single_episode_path(title: &str, season: &str, episode: usize) -> (r: String)
    ensures
        r@ == single_episode_path_spec(title@, season@, episode as nat),
{
    let mut r = String::from_str("./");
    r.append(title);
    r.append("-S");
    r.append(season);
    r.append("-E");
    push_decimal(&mut r, episode);
    r.append(".mp4");
    r
}

/// Builds the file a movie is saved to: `./<title>.mp4`.
pub fn movie_path(title: &str) -> (r: String)
    ensures
        r@ == "./"@ + title@ + ".mp4"@,
{
    let mut r = String::from_str("./");
    r.append(title);
    r.append(".mp4");
    r
}

/// Builds the API path that gives the stream of a movie.
pub fn movie_download_path(imdb_id: &str) -> (r: String)
    ensures
        r@ == "/download/movie/"@ + imdb_id@,
{
    let mut r = String::from_str("/download/movie/");
    r.append(imdb_id);
    r
}

/// What is said once a bulk job has ended.
pub open spec fn bulk_summary_spec(sub_only: bool, failed: nat) -> Seq<char> {
    if failed > 0 {
        if sub_only {
            "\nSubtitles processing finished. "@ + decimal(failed)
                + " episodes had errors or missing files."@
        } else {
            "\nNot all eps are downloaded and they need to run the command again"@
        }
    } else if sub_only {
        "\nAll subtitles processed successfully."@
    } else {
        "\nAll downloads completed."@
    }
}

/// Writes what is said once a bulk job has ended with `failed` failures.
pub fn bulk_summary(sub_only: bool, failed: usize) -> (r: String)
    ensures
        r@ == bulk_summary_spec(sub_only, failed as nat),
{
    if failed > 0 {
        if sub_only {
            let mut r = String::from_str("\nSubtitles processing finished. ");
            push_decimal(&mut r, failed);
            r.append(" episodes had errors or missing files.");
            r
        } else {
            String::from_str("\nNot all eps are downloaded and they need to run the command again")
        }
    } else if sub_only {
        String::from_str("\nAll subtitles processed successfully.")
    } else {
        String::from_str("\nAll downloads completed.")
    }
}

/// The number of tasks that failed.
pub fn count_failed(tasks: &Vec<Task>) -> (r: usize)
    ensures
        r == crate::progress::failed_count(tasks@),
{
    let n = tasks.len();
    let mut c: usize = 0;
    let mut i: usize = 0;
    while i < n
        invariant
            n == tasks@.len(),
            i <= n,
            c <= i,
            c == crate::progress::failed_count(tasks@.subrange(0, i as int)),
        decreases n - i,
    {
        assert(tasks@.subrange(0, i + 1).drop_last() =~= tasks@.subrange(0, i as int));
        if tasks[i].failed {
            c = c + 1;
        }
        i = i + 1;
    }
    assert(tasks@.subrange(0, n as int) =~= tasks@);
    c
}

/// One extra HTTP header the API asks the download to send.
pub struct Header {
    pub name: String,
    /// The header's value when the API gave it as text; other values are ignored.
    pub value: Option<String>,
}

/// What the API answers for a download: the stream, the headers to send,
/// and a direct subtitle link (each empty when absent).
pub struct DownloadInfo {
    pub stream_url: String,
    pub headers: Vec<Header>,
    pub sub_url: String,
}

/// The text value of the first header called `name`, if it has one.
pub open spec fn header_text(hs: Seq<Header>, name: Seq<char>) -> Option<Seq<char>>
    decreases hs.len(),
{
    if hs.len() == 0 {
        None
    } else if hs[0].name@ == name {
        match hs[0].value {
            Some(v) => Some(v@),
            None => None,
        }
    } else {
        header_text(hs.drop_first(), name)
    }
}

/// The user agent the downloader sends unless the API names another.
pub open spec fn default_user_agent() -> Seq<char> {
    "Mozilla/5.0 (Macintosh; Intel Mac OS X 10.15; rv:152.0) Gecko/20100101 Firefox/152.0"@
}

/// The `--add-header` options for the headers other than the user agent and
/// the referer, in order, for those with a text value.
pub open spec fn extra_header_options(hs: Seq<Header>) -> Seq<char>
    decreases hs.len(),
{
    if hs.len() == 0 {
        seq![]
    } else {
        let h = hs.last();
        extra_header_options(hs.drop_last()) + if h.name@ != "User-Agent"@ && h.name@
            != "Referer"@ && h.value is Some {
            "--add-header \""@ + h.name@ + ":"@ + h.value->0@ + "\" "@
        } else {
            seq![]
        }
    }
}

/// The header options for one header: its own `--add-header "name:value" `
/// when it is neither the user agent nor the referer and has a text value,
/// else nothing.
pub proof fn lemma_header_options_one(h: Header)
    ensures
        extra_header_options(seq![h]) == if h.name@ != "User-Agent"@ && h.name@ != "Referer"@
            && h.value is Some {
            "--add-header \""@ + h.name@ + ":"@ + h.value->0@ + "\" "@
        } else {
            Seq::<char>::empty()
        },
{
    let one = seq![h];
    assert(one.drop_last() =~= Seq::<Header>::empty());
    assert(one.last() == h);
    assert(extra_header_options(one.drop_last()) =~= Seq::<char>::empty());
    let h_own = if h.name@ != "User-Agent"@ && h.name@ != "Referer"@ && h.value is Some {
        "--add-header \""@ + h.name@ + ":"@ + h.value->0@ + "\" "@
    } else {
        Seq::<char>::empty()
    };
    assert(Seq::<char>::empty() + h_own =~= h_own);
}

/// The header options for two lists of headers, one after the other, are
/// the options of the first followed by those of the second: each header
/// adds its own option, in order, and the earlier options are kept.
pub proof fn lemma_header_options_concat(a: Seq<Header>, b: Seq<Header>)
    ensures
        extra_header_options(a + b) == extra_header_options(a) + extra_header_options(b),
    decreases b.len(),
{
    if b.len() == 0 {
        assert(a + b =~= a);
        assert(extra_header_options(a) + Seq::<char>::empty() =~= extra_header_options(a));
    } else {
        assert((a + b).drop_last() =~= a + b.drop_last());
        assert((a + b).last() == b.last());
        lemma_header_options_concat(a, b.drop_last());
        let h = b.last();
        let own = if h.name@ != "User-Agent"@ && h.name@ != "Referer"@ && h.value is Some {
            "--add-header \""@ + h.name@ + ":"@ + h.value->0@ + "\" "@
        } else {
            Seq::<char>::empty()
        };
        assert(extra_header_options(a) + extra_header_options(b.drop_last()) + own
            =~= extra_header_options(a) + (extra_header_options(b.drop_last()) + own));
    }
}

/// Appending a header appends its own option, if it has one, and keeps the
/// options of the headers before it.
pub proof fn lemma_header_options_push(hs: Seq<Header>, h: Header)
    ensures
        extra_header_options(hs.push(h)) == extra_header_options(hs) + extra_header_options(seq![h]),
{
    assert(hs.push(h) =~= hs + seq![h]);
    lemma_header_options_concat(hs, seq![h]);
}

/// The shell command that downloads `url` to `output` with `fragments`
/// concurrent fragments and the API's headers, all output on standard output.
pub open spec fn ytdlp_command_spec(
    url: Seq<char>,
    output: Seq<char>,
    headers: Seq<Header>,
    fragments: nat,
) -> Seq<char> {
    let ua = match header_text(headers, "User-Agent"@) {
        Some(v) => v,
        None => default_user_agent(),
    };
    "yt-dlp -f \"bestvideo+bestaudio/best\" --format-sort \"res,quality\" --user-agent \""@ + ua
        + "\" --concurrent-fragments "@ + decimal(fragments)
        + " --extractor-args \"generic:impersonate\" --newline "@ + (match header_text(
        headers,
        "Referer"@,
    ) {
        Some(r) => "--referer \""@ + r + "\" "@,
        None => seq![],
    }) + extra_header_options(headers) + "\""@ + url + "\" -o \""@ + output + "\" 2>&1"@
}

/// A header with another name does not change which value the first header
/// called `name` has.
proof fn lemma_header_text_push(hs: Seq<Header>, h: Header, name: Seq<char>)
    requires
        h.name@ != name,
    ensures
        header_text(hs.push(h), name) == header_text(hs, name),
    decreases hs.len(),
{
    if hs.len() == 0 {
        let one = hs.push(h);
        assert(one.drop_first() =~= Seq::<Header>::empty());
        assert(one[0] == h);
        assert(header_text(one.drop_first(), name) is None);
    } else {
        assert(hs.push(h).drop_first() =~= hs.drop_first().push(h));
        assert(hs.push(h)[0] == hs[0]);
        lemma_header_text_push(hs.drop_first(), h, name);
    }
}

/// A header other than the user agent and the referer, appended to the
/// API's headers, changes the command only by its own option, put after
/// the options of the headers before it and before the stream and output.
pub proof fn lemma_ytdlp_command_push(
    url: Seq<char>,
    output: Seq<char>,
    headers: Seq<Header>,
    h: Header,
    fragments: nat,
)
    requires
        h.name@ != "User-Agent"@,
        h.name@ != "Referer"@,
    ensures
        ({
            let before = ytdlp_command_spec(url, output, headers, fragments);
            let after = ytdlp_command_spec(url, output, headers.push(h), fragments);
            let tail = "\""@ + url + "\" -o \""@ + output + "\" 2>&1"@;
            let head = before.subrange(0, before.len() - tail.len());
            &&& before == head + tail
            &&& after == head + extra_header_options(seq![h]) + tail
        }),
{
    lemma_header_text_push(headers, h, "User-Agent"@);
    lemma_header_text_push(headers, h, "Referer"@);
    lemma_header_options_push(headers, h);
    let ua = match header_text(headers, "User-Agent"@) {
        Some(v) => v,
        None => default_user_agent(),
    };
    let referer = match header_text(headers, "Referer"@) {
        Some(r) => "--referer \""@ + r + "\" "@,
        None => Seq::<char>::empty(),
    };
    let pre = "yt-dlp -f \"bestvideo+bestaudio/best\" --format-sort \"res,quality\" --user-agent \""@
        + ua + "\" --concurrent-fragments "@ + decimal(fragments)
        + " --extractor-args \"generic:impersonate\" --newline "@ + referer;
    let tail = "\""@ + url + "\" -o \""@ + output + "\" 2>&1"@;
    let before = ytdlp_command_spec(url, output, headers, fragments);
    assert(before =~= (pre + extra_header_options(headers)) + tail);
    assert(before.subrange(0, before.len() - tail.len()) =~= pre + extra_header_options(headers));
    assert(ytdlp_command_spec(url, output, headers.push(h), fragments) =~= (pre
        + extra_header_options(headers)) + extra_header_options(seq![h]) + tail);
}

/// Finds the text value of the first header called `name`.
fn find_header<'a>(hs: &'a Vec<Header>, name: &str) -> (r: Option<&'a str>)
    ensures
        match r {
            Some(v) => header_text(hs@, name@) == Some(v@),
            None => header_text(hs@, name@) is None,
        },
{
    let n = hs.len();
    let mut i: usize = 0;
    assert(hs@.subrange(0, n as int) =~= hs@);
    while i < n
        invariant
            n == hs@.len(),
            i <= n,
            header_text(hs@, name@) == header_text(hs@.subrange(i as int, n as int), name@),
        decreases n - i,
    {
        assert(hs@.subrange(i as int, n as int).drop_first() =~= hs@.subrange(i + 1, n as int));
        assert(hs@.subrange(i as int, n as int)[0] == hs@[i as int]);
        if str_eq(hs[i].name.as_str(), name) {
            return match &hs[i].value {
                Some(v) => Some(v.as_str()),
                None => None,
            };
        }
        i = i + 1;
    }
    None
}

/// Builds the downloader's shell command.
pub fn ytdlp_command(url: &str, output: &str, headers: &Vec<Header>, fragments: usize) -> (r: String)
    ensures
        r@ == ytdlp_command_spec(url@, output@, headers@, fragments as nat),
{
    let mut cmd = String::from_str("yt-dlp -f \"bestvideo+bestaudio/best\" --format-sort \"res,quality\" --user-agent \"");
    match find_header(headers, "User-Agent") {
        Some(ua) => cmd.append(ua),
        None => cmd.append("Mozilla/5.0 (Macintosh; Intel Mac OS X 10.15; rv:152.0) Gecko/20100101 Firefox/152.0"),
    }
    cmd.append("\" --concurrent-fragments ");
    push_decimal(&mut cmd, fragments);
    cmd.append(" --extractor-args \"generic:impersonate\" --newline ");
    match find_header(headers, "Referer") {
        Some(r) => {
            cmd.append("--referer \"");
            cmd.append(r);
            cmd.append("\" ");
        },
        None => {},
    }
    let ghost head = cmd@;
    let n = headers.len();
    let mut i: usize = 0;
    while i < n
        invariant
            n == headers@.len(),
            i <= n,
            cmd@ == head + extra_header_options(headers@.subrange(0, i as int)),
        decreases n - i,
    {
        assert(headers@.subrange(0, i + 1).drop_last() =~= headers@.subrange(0, i as int));
        let h = &headers[i];
        if !str_eq(h.name.as_str(), "User-Agent") && !str_eq(h.name.as_str(), "Referer") {
            match &h.value {
                Some(v) => {
                    cmd.append("--add-header \"");
                    cmd.append(h.name.as_str());
                    cmd.append(":");
                    cmd.append(v.as_str());
                    cmd.append("\" ");
                },
                None => {},
            }
        }
        i = i + 1;
        assert(cmd@ =~= head + extra_header_options(headers@.subrange(0, i as int)));
    }
    assert(headers@.subrange(0, n as int) =~= headers@);
    cmd.append("\"");
    cmd.append(url);
    cmd.append("\" -o \"");
    cmd.append(output);
    cmd.append("\" 2>&1");
    cmd
}

/// The most times a failed download is tried again.
pub open spec fn max_retries() -> nat {
    3
}

/// After a failed attempt, with `retries` retries already made: the number of
/// the retry to make next, or `None` when the download is given up.
pub fn next_retry(retries: usize) -> (r: Option<usize>)
    ensures
        r == if retries >= max_retries() {
            None::<usize>
        } else {
            Some((retries + 1) as usize)
        },
{
    if retries >= 3 {
        None
    } else {
        Some(retries + 1)
    }
}

/// The message shown before retry number `n`.
pub fn retry_message(n: usize) -> (r: String)
    ensures
        r@ == "yt-dlp failed, retrying in 5s ("@ + decimal(n as nat) + "/"@ + decimal(max_retries())
            + ")"@,
{
    let mut r = String::from_str("yt-dlp failed, retrying in 5s (");
    push_decimal(&mut r, n);
    r.append("/");
    push_decimal(&mut r, 3);
    r.append(")");
    r
}

/// The length of the run of whitespace that starts at `k`.
pub open spec fn space_run(t: Seq<char>, k: int) -> nat
    decreases t.len() - k,
{
    if 0 <= k < t.len() && is_space(t[k]) {
        1 + space_run(t, k + 1)
    } else {
        0
    }
}

/// The length of the run of decimal digits that starts at `k`.
pub open spec fn digit_run(t: Seq<char>, k: int) -> nat
    decreases t.len() - k,
{
    if 0 <= k < t.len() && is_digit(t[k]) {
        1 + digit_run(t, k + 1)
    } else {
        0
    }
}

/// The tag the downloader puts before its progress.
pub open spec fn download_tag() -> Seq<char> {
    seq!['[', 'd', 'o', 'w', 'n', 'l', 'o', 'a', 'd', ']']
}

/// The percentage in a progress report that starts at `i`: `[download]`,
/// whitespace, digits, a point, digits and `%`, such as
/// `[download]  42.5%`. The percentage is the part between the whitespace and `%`.
pub open spec fn progress_at(t: Seq<char>, i: int) -> Option<Seq<char>> {
    if 0 <= i && i + 10 <= t.len() && t.subrange(i, i + 10) == download_tag() {
        let k = i + 10;
        let w = space_run(t, k);
        let a = digit_run(t, k + w);
        let dot = k + w + a;
        let b = digit_run(t, dot + 1);
        let pct = dot + 1 + b;
        if w >= 1 && a >= 1 && dot < t.len() && t[dot] == '.' && b >= 1 && pct < t.len() && t[pct]
            == '%' {
            Some(t.subrange(k + w, pct))
        } else {
            None
        }
    } else {
        None
    }
}

/// The percentage of the first progress report at or after `i` in `t`.
pub open spec fn progress_from(t: Seq<char>, i: int) -> Option<Seq<char>>
    decreases t.len() - i,
{
    if i < 0 || i >= t.len() {
        None
    } else {
        match progress_at(t, i) {
            Some(c) => Some(c),
            None => progress_from(t, i + 1),
        }
    }
}

/// The pattern of a progress report: `\[download\]\s+([0-9]+\.[0-9]+)%`.
pub open spec fn progress_pattern() -> Seq<char> {
    "\\[download\\]\\s+([0-9]+\\.[0-9]+)%"@
}

/// The first capture group of the leftmost match of `pattern` in `text`
/// (`regex::Regex::new(pattern)`, then `captures` and group 1). It is only
/// called with the progress pattern, which the crate compiles. The crate
/// finds the leftmost position where the pattern matches. At a position the
/// pattern matches exactly as `progress_at` says: each repetition is
/// followed by a character it cannot take, so greedy matching takes whole
/// runs and never backs off; `\s` is Unicode White_Space (the crate's
/// perl_space table, the characters `is_space` lists); `[0-9]` is the ASCII
/// digits. Group 1 is the part between the whitespace and `%`.
#[verifier::external_body]
fn regex_first_group(pattern: &str, text: &str) -> (r: Option<String>)
    requires
        pattern@ == progress_pattern(),
    ensures
        match r {
            Some(p) => progress_from(text@, 0) == Some(p@),
            None => progress_from(text@, 0) is None,
        },
{
    regex::Regex::new(pattern).unwrap().captures(text).and_then(|c| c.get(1)).map(
        |m| m.as_str().to_string(),
    )
}

/// The percentage of the first progress report in a line of the downloader's
/// output, as it printed it.
pub fn progress_percent(line: &str) -> (r: Option<String>)
    ensures
        match r {
            Some(p) => progress_from(line@, 0) == Some(p@),
            None => progress_from(line@, 0) is None,
        },
{
    regex_first_group("\\[download\\]\\s+([0-9]+\\.[0-9]+)%", line)
}

/// What a line of the downloader's output shows: `None` for a blank line,
/// else the trimmed line with the progress it reports (zero when none).
pub fn read_output_line(line: &str) -> (r: Option<(Progress, String)>)
    ensures
        trimmed(line@).len() == 0 ==> r is None,
        trimmed(line@).len() > 0 ==> (r matches Some((p, clean)) && clean@ == trimmed(line@) && match p {
            Progress::Percent(v) => progress_from(trimmed(line@), 0) == Some(v@),
            Progress::Zero => progress_from(trimmed(line@), 0) is None,
            Progress::Complete => false,
        }),
{
    let clean = trim(line);
    if clean.unicode_len() == 0 {
        return None;
    }
    let p = match progress_percent(clean) {
        Some(v) => Progress::Percent(v),
        None => Progress::Zero,
    };
    Some((p, to_owned_string(clean)))
}

} // verus!
