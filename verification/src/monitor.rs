//! Change detection for workflow runs: the status last seen of each run, the
//! lines that report runs that are new or whose status changed, and the
//! notification that gathers those lines.

use vstd::prelude::*;
use crate::gitea::{ActionWorkflowRun, ActionWorkflowRunsResponse, Repository};
use crate::text::{decimal, int_decimal, join_strings, join_with, lemma_decimal_chars, lemma_decimal_injective};

verus! {

/// The text of a run id in a key: its decimal rendering, or nothing when the run
/// has no id.
pub open spec fn id_text(id: Option<i64>) -> Seq<char> {
    match id {
        Some(i) => int_decimal(i as int),
        None => Seq::empty(),
    }
}

/// The key under which a run is remembered: `"{owner/repo}#{run_id}"`, where a run
/// without an id gives `"{owner/repo}#"`.
pub open spec fn run_key(full_name: Seq<char>, id: Option<i64>) -> Seq<char> {
    full_name + "#"@ + id_text(id)
}

/// The conclusion of a run as reported, `"running"` while it has none.
pub open spec fn conclusion_text(conclusion: Option<String>) -> Seq<char> {
    match conclusion {
        Some(c) => c@,
        None => "running"@,
    }
}

/// The line that reports a run: `"{key}:\n{status} - {conclusion}"`.
pub open spec fn run_line(key: Seq<char>, run: ActionWorkflowRun) -> Seq<char> {
    key + ":\n"@ + run.status@ + " - "@ + conclusion_text(run.conclusion)
}

/// Whether a run seen with `status` is reported: it was never seen, or it was
/// last seen with another status.
pub open spec fn status_changed(known: Map<Seq<char>, Seq<char>>, key: Seq<char>, status: Seq<char>) -> bool {
    !known.contains_key(key) || known[key] != status
}

/// The runs that a response lists (none when it has no list).
pub open spec fn listed_runs(response: ActionWorkflowRunsResponse) -> Seq<ActionWorkflowRun> {
    match response.workflow_runs {
        Some(runs) => runs@,
        None => Seq::empty(),
    }
}

/// The statuses known after seeing `runs` of the repository `full_name` in order,
/// starting from `known`, and the lines reported on the way.
pub open spec fn track_runs(
    known: Map<Seq<char>, Seq<char>>,
    full_name: Seq<char>,
    runs: Seq<ActionWorkflowRun>,
) -> (Map<Seq<char>, Seq<char>>, Seq<Seq<char>>)
    decreases runs.len(),
{
    if runs.len() == 0 {
        (known, Seq::empty())
    } else {
        let (before, lines) = track_runs(known, full_name, runs.drop_last());
        let run = runs.last();
        let key = run_key(full_name, run.id);
        (
            before.insert(key, run.status@),
            if status_changed(before, key, run.status@) {
                lines.push(run_line(key, run))
            } else {
                lines
            },
        )
    }
}

/// The text of a run id holds no `'#'`, and two ids with the same text are equal.
proof fn lemma_id_text(x: Option<i64>, y: Option<i64>)
    ensures
        forall|i: int| 0 <= i < id_text(x).len() ==> #[trigger] id_text(x)[i] != '#',
        id_text(x) == id_text(y) ==> x == y,
{
    if let Some(i) = x {
        lemma_decimal_chars(i as int);
    }
    if let Some(j) = y {
        lemma_decimal_chars(j as int);
    }
    if id_text(x) == id_text(y) {
        if let (Some(i), Some(j)) = (x, y) {
            lemma_decimal_injective(i as int, j as int);
        }
    }
}

/// Each run has a key of its own: two keys are equal only for the same
/// repository and the same run id.
pub proof fn lemma_run_key_injective(a: Seq<char>, n: Option<i64>, b: Seq<char>, m: Option<i64>)
    requires
        run_key(a, n) == run_key(b, m),
    ensures
        a == b,
        n == m,
{
    let dn = id_text(n);
    let dm = id_text(m);
    let k = run_key(a, n);
    lemma_id_text(n, m);
    lemma_id_text(m, n);
    assert(k =~= a + "#"@ + dn);
    assert(k =~= b + "#"@ + dm);
    assert("#"@.len() == 1 && "#"@[0] == '#') by {
        reveal_strlit("#");
    }
    let len = k.len();
    if dn.len() < dm.len() {
        let p = len - dn.len() - 1;
        assert(k[p] == '#');
        assert(k[p] == dm[p - (len - dm.len())]);
        assert(false);
    } else if dm.len() < dn.len() {
        let p = len - dm.len() - 1;
        assert(k[p] == '#');
        assert(k[p] == dn[p - (len - dn.len())]);
        assert(false);
    }
    assert(dn =~= k.skip(len - dn.len()));
    assert(dm =~= k.skip(len - dm.len()));
    assert(a =~= k.take(a.len() as int));
    assert(b =~= k.take(b.len() as int));
}

/// Seeing a run again with the status it was just recorded with reports
/// nothing and changes nothing.
pub proof fn lemma_rerecord_silent(known: Map<Seq<char>, Seq<char>>, key: Seq<char>, status: Seq<char>)
    ensures
        !status_changed(known.insert(key, status), key, status),
        known.insert(key, status).insert(key, status) == known.insert(key, status),
{
    assert(known.insert(key, status).insert(key, status) =~= known.insert(key, status));
}

/// No two of `runs` share a run id (so at most one of them has none).
pub open spec fn run_ids_distinct(runs: Seq<ActionWorkflowRun>) -> bool {
    forall|i: int, j: int|
        0 <= i < runs.len() && 0 <= j < runs.len() && i != j ==> #[trigger] runs[i].id != #[trigger] runs[j].id
}

/// No run after the `i`-th of `runs` has its run id.
pub open spec fn last_of_its_id(runs: Seq<ActionWorkflowRun>, i: int) -> bool {
    forall|j: int| i < j < runs.len() ==> #[trigger] runs[j].id != runs[i].id
}

/// After seeing `runs`, each run that no later run of the list shares a run
/// id with is remembered with its own status; every other key keeps what
/// was known of it before.
pub proof fn lemma_track_runs_remembers(
    known: Map<Seq<char>, Seq<char>>,
    full_name: Seq<char>,
    runs: Seq<ActionWorkflowRun>,
)
    ensures
        forall|i: int|
            0 <= i < runs.len() && #[trigger] last_of_its_id(runs, i) ==> {
                let after = track_runs(known, full_name, runs).0;
                &&& after.contains_key(run_key(full_name, runs[i].id))
                &&& after[run_key(full_name, runs[i].id)] == runs[i].status@
            },
        forall|k: Seq<char>|
            (forall|i: int| 0 <= i < runs.len() ==> run_key(full_name, #[trigger] runs[i].id) != k)
                ==> #[trigger] track_runs(known, full_name, runs).0.get(k) == known.get(k),
    decreases runs.len(),
{
    if runs.len() > 0 {
        let prefix = runs.drop_last();
        lemma_track_runs_remembers(known, full_name, prefix);
        let last = runs.last();
        let last_key = run_key(full_name, last.id);
        assert forall|i: int|
            0 <= i < runs.len() && #[trigger] last_of_its_id(runs, i)
            implies {
                let after = track_runs(known, full_name, runs).0;
                &&& after.contains_key(run_key(full_name, runs[i].id))
                &&& after[run_key(full_name, runs[i].id)] == runs[i].status@
            } by {
            if i < runs.len() - 1 {
                assert(prefix[i] == runs[i]);
                assert(runs[runs.len() - 1].id != runs[i].id);
                if run_key(full_name, runs[i].id) == last_key {
                    lemma_run_key_injective(full_name, runs[i].id, full_name, last.id);
                }
                assert forall|j: int| i < j < prefix.len() implies #[trigger] prefix[j].id != prefix[i].id by {
                    assert(prefix[j] == runs[j]);
                }
                assert(last_of_its_id(prefix, i));
            }
        }
        assert forall|k: Seq<char>|
            (forall|i: int| 0 <= i < runs.len() ==> run_key(full_name, #[trigger] runs[i].id) != k)
            implies #[trigger] track_runs(known, full_name, runs).0.get(k) == known.get(k) by {
            assert(run_key(full_name, runs[runs.len() - 1].id) != k);
            assert forall|i: int| 0 <= i < prefix.len() implies run_key(full_name, #[trigger] prefix[i].id) != k by {
                assert(prefix[i] == runs[i]);
            }
            let before = track_runs(known, full_name, prefix).0;
            assert(before.get(k) == known.get(k));
            assert(track_runs(known, full_name, runs).0 == before.insert(last_key, last.status@));
            assert(before.insert(last_key, last.status@).get(k) == before.get(k));
        }
    }
}

/// Seeing the runs of one repository never changes what is known of the runs
/// of another repository.
pub proof fn lemma_other_repository_untouched(
    known: Map<Seq<char>, Seq<char>>,
    full_name: Seq<char>,
    runs: Seq<ActionWorkflowRun>,
    other: Seq<char>,
    id: Option<i64>,
)
    requires
        other != full_name,
    ensures
        track_runs(known, full_name, runs).0.get(run_key(other, id)) == known.get(run_key(other, id)),
{
    lemma_track_runs_remembers(known, full_name, runs);
    assert forall|i: int| 0 <= i < runs.len() implies run_key(full_name, #[trigger] runs[i].id) != run_key(other, id) by {
        if run_key(full_name, runs[i].id) == run_key(other, id) {
            lemma_run_key_injective(full_name, runs[i].id, other, id);
        }
    }
}

/// Polling again a repository whose runs did not change, when no two of its runs
/// share a run id, reports nothing and leaves what is known unchanged.
pub proof fn lemma_repoll_silent(known: Map<Seq<char>, Seq<char>>, full_name: Seq<char>, runs: Seq<ActionWorkflowRun>)
    requires
        run_ids_distinct(runs),
    ensures
        track_runs(track_runs(known, full_name, runs).0, full_name, runs).0 == track_runs(known, full_name, runs).0,
        track_runs(track_runs(known, full_name, runs).0, full_name, runs).1 == Seq::<Seq<char>>::empty(),
{
    let after = track_runs(known, full_name, runs).0;
    lemma_track_runs_remembers(known, full_name, runs);
    assert forall|i: int| 0 <= i < runs.len() implies {
        &&& after.contains_key(run_key(full_name, #[trigger] runs[i].id))
        &&& after[run_key(full_name, runs[i].id)] == runs[i].status@
    } by {
        assert(last_of_its_id(runs, i));
    }
    lemma_track_known_runs_silent(after, full_name, runs);
}

/// Seeing runs whose statuses are all already known reports nothing and
/// changes nothing.
proof fn lemma_track_known_runs_silent(known: Map<Seq<char>, Seq<char>>, full_name: Seq<char>, runs: Seq<ActionWorkflowRun>)
    requires
        forall|i: int| 0 <= i < runs.len() ==> {
            &&& known.contains_key(run_key(full_name, #[trigger] runs[i].id))
            &&& known[run_key(full_name, runs[i].id)] == runs[i].status@
        },
    ensures
        track_runs(known, full_name, runs).0 == known,
        track_runs(known, full_name, runs).1 == Seq::<Seq<char>>::empty(),
    decreases runs.len(),
{
    if runs.len() > 0 {
        let prefix = runs.drop_last();
        assert forall|i: int| 0 <= i < prefix.len() implies {
            &&& known.contains_key(run_key(full_name, #[trigger] prefix[i].id))
            &&& known[run_key(full_name, prefix[i].id)] == prefix[i].status@
        } by {
            assert(prefix[i] == runs[i]);
        }
        lemma_track_known_runs_silent(known, full_name, prefix);
        let last = runs.last();
        let key = run_key(full_name, last.id);
        assert(runs[runs.len() - 1] == last);
        assert(known.insert(key, last.status@) =~= known);
    }
}

/// The statuses known after one whole poll, starting from `known`: the runs that
/// each polled repository lists, repository after repository, and the lines
/// reported on the way.
pub open spec fn track_poll(
    known: Map<Seq<char>, Seq<char>>,
    polled: Seq<(Repository, ActionWorkflowRunsResponse)>,
) -> (Map<Seq<char>, Seq<char>>, Seq<Seq<char>>)
    decreases polled.len(),
{
    if polled.len() == 0 {
        (known, Seq::empty())
    } else {
        let (before, lines) = track_poll(known, polled.drop_last());
        let last = polled.last();
        let (after, more) = track_runs(before, last.0.full_name@, listed_runs(last.1));
        (after, lines + more)
    }
}

/// Recording the runs of one more repository extends a poll: after
/// [`KnownRuns::record_runs`] has been called for each polled repository in turn,
/// what is known and the lines gathered are those of [`track_poll`].
pub proof fn lemma_track_poll_step(
    known: Map<Seq<char>, Seq<char>>,
    polled: Seq<(Repository, ActionWorkflowRunsResponse)>,
    repo: Repository,
    response: ActionWorkflowRunsResponse,
)
    ensures
        track_poll(known, polled.push((repo, response))).0
            == track_runs(track_poll(known, polled).0, repo.full_name@, listed_runs(response)).0,
        track_poll(known, polled.push((repo, response))).1
            == track_poll(known, polled).1 + track_runs(track_poll(known, polled).0, repo.full_name@, listed_runs(response)).1,
{
    assert(polled.push((repo, response)).drop_last() =~= polled);
}

/// Whether `(p, i)` names a run of a poll: the `i`-th run listed for the `p`-th repository.
pub open spec fn polled_run(polled: Seq<(Repository, ActionWorkflowRunsResponse)>, p: int, i: int) -> bool {
    0 <= p < polled.len() && 0 <= i < listed_runs(polled[p].1).len()
}

/// The key of the `i`-th run listed for the `p`-th repository of a poll.
pub open spec fn poll_run_key(polled: Seq<(Repository, ActionWorkflowRunsResponse)>, p: int, i: int) -> Seq<char> {
    run_key(polled[p].0.full_name@, listed_runs(polled[p].1)[i].id)
}

/// The status of the `i`-th run listed for the `p`-th repository of a poll.
pub open spec fn poll_run_status(polled: Seq<(Repository, ActionWorkflowRunsResponse)>, p: int, i: int) -> Seq<char> {
    listed_runs(polled[p].1)[i].status@
}

/// No two runs of a poll share a key.
pub open spec fn poll_keys_distinct(polled: Seq<(Repository, ActionWorkflowRunsResponse)>) -> bool {
    forall|p1: int, i1: int, p2: int, i2: int|
        polled_run(polled, p1, i1) && polled_run(polled, p2, i2) && (p1 != p2 || i1 != i2)
            ==> #[trigger] poll_run_key(polled, p1, i1) != #[trigger] poll_run_key(polled, p2, i2)
}

proof fn lemma_poll_prefix(polled: Seq<(Repository, ActionWorkflowRunsResponse)>)
    requires
        polled.len() > 0,
    ensures
        forall|p: int, i: int| #[trigger] polled_run(polled.drop_last(), p, i) ==> {
            &&& polled_run(polled, p, i)
            &&& poll_run_key(polled.drop_last(), p, i) == poll_run_key(polled, p, i)
            &&& poll_run_status(polled.drop_last(), p, i) == poll_run_status(polled, p, i)
        },
        poll_keys_distinct(polled) ==> poll_keys_distinct(polled.drop_last()),
{
    let prefix = polled.drop_last();
    assert forall|p: int, i: int| #[trigger] polled_run(prefix, p, i) implies {
        &&& polled_run(polled, p, i)
        &&& poll_run_key(prefix, p, i) == poll_run_key(polled, p, i)
        &&& poll_run_status(prefix, p, i) == poll_run_status(polled, p, i)
    } by {
        assert(prefix[p] == polled[p]);
    }
    if poll_keys_distinct(polled) {
        assert forall|p1: int, i1: int, p2: int, i2: int|
            polled_run(prefix, p1, i1) && polled_run(prefix, p2, i2) && (p1 != p2 || i1 != i2)
            implies #[trigger] poll_run_key(prefix, p1, i1) != #[trigger] poll_run_key(prefix, p2, i2) by {
            assert(polled_run(polled, p1, i1) && polled_run(polled, p2, i2));
        }
    }
}

/// After a poll in which no two runs share a key, every polled run is known
/// with its status.
pub proof fn lemma_track_poll_remembers(known: Map<Seq<char>, Seq<char>>, polled: Seq<(Repository, ActionWorkflowRunsResponse)>)
    requires
        poll_keys_distinct(polled),
    ensures
        forall|p: int, i: int| #[trigger] polled_run(polled, p, i) ==> {
            &&& track_poll(known, polled).0.contains_key(poll_run_key(polled, p, i))
            &&& track_poll(known, polled).0[poll_run_key(polled, p, i)] == poll_run_status(polled, p, i)
        },
    decreases polled.len(),
{
    if polled.len() > 0 {
        let prefix = polled.drop_last();
        lemma_poll_prefix(polled);
        lemma_track_poll_remembers(known, prefix);
        let before = track_poll(known, prefix).0;
        let lastp = polled.len() - 1;
        let last = polled.last();
        let name = last.0.full_name@;
        let runs = listed_runs(last.1);
        assert(polled[lastp] == last);
        lemma_track_runs_remembers(before, name, runs);
        let after = track_poll(known, polled).0;
        assert(after == track_runs(before, name, runs).0);
        assert forall|p: int, i: int| #[trigger] polled_run(polled, p, i) implies {
            &&& after.contains_key(poll_run_key(polled, p, i))
            &&& after[poll_run_key(polled, p, i)] == poll_run_status(polled, p, i)
        } by {
            if p == lastp {
                assert forall|j: int| i < j < runs.len() implies #[trigger] runs[j].id != runs[i].id by {
                    assert(polled_run(polled, p, j));
                    assert(poll_run_key(polled, p, j) != poll_run_key(polled, p, i));
                }
                assert(last_of_its_id(runs, i));
            } else {
                assert(polled_run(prefix, p, i));
                let k = poll_run_key(polled, p, i);
                assert forall|j: int| 0 <= j < runs.len() implies run_key(name, #[trigger] runs[j].id) != k by {
                    assert(polled_run(polled, lastp, j));
                    assert(poll_run_key(polled, lastp, j) != poll_run_key(polled, p, i));
                }
                assert(after.get(k) == before.get(k));
            }
        }
    }
}

/// A poll in which every polled run is already known with its status reports
/// nothing and changes nothing.
pub proof fn lemma_track_poll_known_silent(known: Map<Seq<char>, Seq<char>>, polled: Seq<(Repository, ActionWorkflowRunsResponse)>)
    requires
        forall|p: int, i: int| #[trigger] polled_run(polled, p, i) ==> {
            &&& known.contains_key(poll_run_key(polled, p, i))
            &&& known[poll_run_key(polled, p, i)] == poll_run_status(polled, p, i)
        },
    ensures
        track_poll(known, polled).0 == known,
        track_poll(known, polled).1 == Seq::<Seq<char>>::empty(),
    decreases polled.len(),
{
    if polled.len() > 0 {
        let prefix = polled.drop_last();
        lemma_poll_prefix(polled);
        lemma_track_poll_known_silent(known, prefix);
        let lastp = polled.len() - 1;
        let last = polled.last();
        let name = last.0.full_name@;
        let runs = listed_runs(last.1);
        assert(polled[lastp] == last);
        assert forall|i: int| 0 <= i < runs.len() implies {
            &&& known.contains_key(run_key(name, #[trigger] runs[i].id))
            &&& known[run_key(name, runs[i].id)] == runs[i].status@
        } by {
            assert(polled_run(polled, lastp, i));
        }
        lemma_track_known_runs_silent(known, name, runs);
        assert(Seq::<Seq<char>>::empty() + Seq::<Seq<char>>::empty() =~= Seq::<Seq<char>>::empty());
    }
}

/// Polling all repositories again, when the server answers as before and no two
/// polled runs share a key, reports nothing and leaves what is known as the first
/// poll left it.
pub proof fn lemma_repoll_all_silent(known: Map<Seq<char>, Seq<char>>, polled: Seq<(Repository, ActionWorkflowRunsResponse)>)
    requires
        poll_keys_distinct(polled),
    ensures
        track_poll(track_poll(known, polled).0, polled).0 == track_poll(known, polled).0,
        track_poll(track_poll(known, polled).0, polled).1 == Seq::<Seq<char>>::empty(),
{
    lemma_track_poll_remembers(known, polled);
    lemma_track_poll_known_silent(track_poll(known, polled).0, polled);
}

/// The number of repositories that one poll asks for.
pub const REPOSITORY_LIMIT: i32 = 100;

/// The page of workflow runs that one poll asks for each repository.
pub const LATEST_RUN_PAGE: i32 = 1;

/// The number of workflow runs that one poll asks for each repository: only the latest.
pub const LATEST_RUN_LIMIT: i32 = 1;

/// A run is reported exactly when its key is unknown or was last seen with
/// another status: an equal status is silent, any different status is reported.
pub proof fn lemma_status_changed(known: Map<Seq<char>, Seq<char>>, key: Seq<char>, status: Seq<char>)
    ensures
        !known.contains_key(key) ==> status_changed(known, key, status),
        known.contains_key(key) && known[key] != status ==> status_changed(known, key, status),
        known.contains_key(key) && known[key] == status ==> !status_changed(known, key, status),
{
}

/// The key of a run is the repository name, `#`, then the decimal run id, or
/// nothing after `#` when the run has no id.
pub proof fn lemma_run_key_shape(full_name: Seq<char>, id: Option<i64>)
    ensures
        id matches Some(i) ==> run_key(full_name, id) == full_name + "#"@ + int_decimal(i as int),
        id is None ==> run_key(full_name, id) == full_name + "#"@,
{
    if id is None {
        assert(full_name + "#"@ + Seq::<char>::empty() =~= full_name + "#"@);
    }
}

/// The line of a run shows its key, its own status, and its own conclusion, or
/// `running` when it has none.
pub proof fn lemma_run_line_shape(key: Seq<char>, run: ActionWorkflowRun)
    ensures
        run.conclusion matches Some(c) ==> run_line(key, run) == key + ":\n"@ + run.status@ + " - "@ + c@,
        run.conclusion is None ==> run_line(key, run) == key + ":\n"@ + run.status@ + " - "@ + "running"@,
{
}

/// Each run of a response is judged on its own: seeing one more run sets its key
/// to its status, and adds its line exactly when its key was unknown or known with
/// another status after the runs before it, whatever those runs reported.
pub proof fn lemma_track_runs_push(
    known: Map<Seq<char>, Seq<char>>,
    full_name: Seq<char>,
    runs: Seq<ActionWorkflowRun>,
    run: ActionWorkflowRun,
)
    ensures
        ({
            let before = track_runs(known, full_name, runs);
            let after = track_runs(known, full_name, runs.push(run));
            let key = run_key(full_name, run.id);
            &&& after.0 == before.0.insert(key, run.status@)
            &&& (!before.0.contains_key(key) || before.0[key] != run.status@) ==> after.1 == before.1.push(run_line(key, run))
            &&& (before.0.contains_key(key) && before.0[key] == run.status@) ==> after.1 == before.1
        }),
        track_runs(known, full_name, Seq::empty()) == (known, Seq::<Seq<char>>::empty()),
{
    assert(runs.push(run).drop_last() =~= runs);
    assert(runs.push(run).last() == run);
}

/// The notification's title and the separator between its lines.
pub proof fn lemma_notification_text()
    ensures
        notification_title() == "工作流运行状态变更"@,
        line_separator() == "\n\n"@,
{
}

/// The title of the notification.
pub open spec fn notification_title() -> Seq<char> {
    "工作流运行状态变更"@
}

/// The separator between two reported runs in a notification's body.
pub open spec fn line_separator() -> Seq<char> {
    "\n\n"@
}

/// The map from keys to statuses that a list of `(key, status)` entries holds.
pub open spec fn entries_map(entries: Seq<(Seq<char>, Seq<char>)>) -> Map<Seq<char>, Seq<char>> {
    Map::new(
        |k: Seq<char>| exists|i: int| 0 <= i < entries.len() && #[trigger] entries[i].0 == k,
        |k: Seq<char>| entries[choose|i: int| 0 <= i < entries.len() && #[trigger] entries[i].0 == k].1,
    )
}

/// No key occurs twice among `entries`.
pub open spec fn keys_distinct(entries: Seq<(Seq<char>, Seq<char>)>) -> bool {
    forall|i: int, j: int|
        0 <= i < entries.len() && 0 <= j < entries.len() && i != j ==> #[trigger] entries[i].0 != #[trigger] entries[j].0
}

proof fn lemma_entries_lookup(entries: Seq<(Seq<char>, Seq<char>)>, i: int)
    requires
        keys_distinct(entries),
        0 <= i < entries.len(),
    ensures
        entries_map(entries).contains_key(entries[i].0),
        entries_map(entries)[entries[i].0] == entries[i].1,
{
    let k = entries[i].0;
    assert(entries_map(entries).dom().contains(k));
    let j = choose|j: int| 0 <= j < entries.len() && #[trigger] entries[j].0 == k;
    assert(j == i);
}

proof fn lemma_entries_update(entries: Seq<(Seq<char>, Seq<char>)>, i: int, v: Seq<char>)
    requires
        keys_distinct(entries),
        0 <= i < entries.len(),
    ensures
        keys_distinct(entries.update(i, (entries[i].0, v))),
        entries_map(entries.update(i, (entries[i].0, v))) == entries_map(entries).insert(entries[i].0, v),
{
    let after = entries.update(i, (entries[i].0, v));
    let k = entries[i].0;
    assert(keys_distinct(after));
    assert forall|x: Seq<char>| #[trigger] entries_map(after).contains_key(x)
        <==> entries_map(entries).insert(k, v).contains_key(x) by {
        if entries_map(after).contains_key(x) {
            let j = choose|j: int| 0 <= j < after.len() && #[trigger] after[j].0 == x;
            assert(entries[j].0 == x);
        }
        if entries_map(entries).contains_key(x) {
            let j = choose|j: int| 0 <= j < entries.len() && #[trigger] entries[j].0 == x;
            assert(after[j].0 == x);
        }
        if x == k {
            assert(after[i].0 == x);
        }
    }
    assert forall|x: Seq<char>| #[trigger] entries_map(after).contains_key(x)
        implies entries_map(after)[x] == entries_map(entries).insert(k, v)[x] by {
        let j = choose|j: int| 0 <= j < after.len() && #[trigger] after[j].0 == x;
        lemma_entries_lookup(after, j);
        if j != i {
            lemma_entries_lookup(entries, j);
        }
    }
    assert(entries_map(after) =~= entries_map(entries).insert(k, v));
}

proof fn lemma_entries_push(entries: Seq<(Seq<char>, Seq<char>)>, k: Seq<char>, v: Seq<char>)
    requires
        keys_distinct(entries),
        forall|i: int| 0 <= i < entries.len() ==> #[trigger] entries[i].0 != k,
    ensures
        keys_distinct(entries.push((k, v))),
        !entries_map(entries).contains_key(k),
        entries_map(entries.push((k, v))) == entries_map(entries).insert(k, v),
{
    let after = entries.push((k, v));
    assert(keys_distinct(after));
    assert forall|x: Seq<char>| #[trigger] entries_map(after).contains_key(x)
        <==> entries_map(entries).insert(k, v).contains_key(x) by {
        if entries_map(after).contains_key(x) {
            let j = choose|j: int| 0 <= j < after.len() && #[trigger] after[j].0 == x;
            if j < entries.len() {
                assert(entries[j].0 == x);
            }
        }
        if entries_map(entries).contains_key(x) {
            let j = choose|j: int| 0 <= j < entries.len() && #[trigger] entries[j].0 == x;
            assert(after[j].0 == x);
        }
        if x == k {
            assert(after[entries.len() as int].0 == x);
        }
    }
    assert forall|x: Seq<char>| #[trigger] entries_map(after).contains_key(x)
        implies entries_map(after)[x] == entries_map(entries).insert(k, v)[x] by {
        let j = choose|j: int| 0 <= j < after.len() && #[trigger] after[j].0 == x;
        lemma_entries_lookup(after, j);
        if j < entries.len() {
            lemma_entries_lookup(entries, j);
        }
    }
    assert(entries_map(after) =~= entries_map(entries).insert(k, v));
}

/// The status last seen of each run, by key.
pub struct KnownRuns {
    entries: Vec<(String, String)>,
}

impl View for KnownRuns {
    type V = Map<Seq<char>, Seq<char>>;

    closed spec fn view(&self) -> Map<Seq<char>, Seq<char>> {
        entries_map(self.entries.deep_view())
    }
}

impl KnownRuns {
    #[verifier::type_invariant]
    spec fn well_formed(self) -> bool {
        keys_distinct(self.entries.deep_view())
    }

    /// No run known yet.
    pub fn new() -> (k: Self)
        ensures
            k@ == Map::<Seq<char>, Seq<char>>::empty(),
    {
        let k = KnownRuns { entries: Vec::new() };
        assert(k@ =~= Map::<Seq<char>, Seq<char>>::empty());
        k
    }

    /// Remembers `status` for `key`, and gives back the status it replaces, if any.
    pub fn insert(&mut self, key: String, status: String) -> (prev: Option<String>)
        ensures
            final(self)@ == old(self)@.insert(key@, status@),
            prev.deep_view() == (if old(self)@.contains_key(key@) { Some(old(self)@[key@]) } else { None }),
    {
        proof {
            use_type_invariant(&*self);
        }
        let mut entries: Vec<(String, String)> = Vec::new();
        std::mem::swap(&mut entries, &mut self.entries);
        let ghost seen = entries.deep_view();
        let mut i: usize = 0;
        while i < entries.len()
            invariant
                i <= entries.len(),
                seen == entries.deep_view(),
                old(self)@ == entries_map(seen),
                seen.len() == entries.len(),
                keys_distinct(seen),
                forall|j: int| 0 <= j < i ==> #[trigger] seen[j].0 != key@,
            decreases entries.len() - i,
        {
            assert(seen[i as int] == (entries[i as int].0@, entries[i as int].1@));
            if entries[i].0 == key {
                let prev = entries[i].1.clone();
                proof {
                    lemma_entries_lookup(seen, i as int);
                    lemma_entries_update(seen, i as int, status@);
                }
                entries.set(i, (key, status));
                assert(entries.deep_view() =~= seen.update(i as int, (seen[i as int].0, status@)));
                self.entries = entries;
                return Some(prev);
            }
            i = i + 1;
        }
        proof {
            lemma_entries_push(seen, key@, status@);
        }
        entries.push((key, status));
        assert(entries.deep_view() =~= seen.push((key@, status@)));
        self.entries = entries;
        None
    }
}


/// The key under which `run` of the repository `full_name` is remembered.
pub fn make_run_key(full_name: &String, run: &ActionWorkflowRun) -> (k: String)
    ensures
        k@ == run_key(full_name@, run.id),
{
    let mut k = full_name.clone();
    k.append("#");
    if let Some(id) = run.id {
        let number = decimal(id);
        k.append(number.as_str());
    }
    k
}

/// The line that reports `run` under `key`.
pub fn make_run_line(key: &String, run: &ActionWorkflowRun) -> (line: String)
    ensures
        line@ == run_line(key@, *run),
{
    let mut line = key.clone();
    line.append(":\n");
    line.append(run.status.as_str());
    line.append(" - ");
    match &run.conclusion {
        Some(c) => line.append(c.as_str()),
        None => line.append("running"),
    }
    line
}

impl KnownRuns {
    /// Remembers the status of `run` of the repository `full_name`, and gives back
    /// the line that reports it when the run is new or its status changed.
    pub fn record_run(&mut self, full_name: &String, run: &ActionWorkflowRun) -> (line: Option<String>)
        ensures
            final(self)@ == old(self)@.insert(run_key(full_name@, run.id), run.status@),
            line.deep_view() == (if status_changed(old(self)@, run_key(full_name@, run.id), run.status@) {
                Some(run_line(run_key(full_name@, run.id), *run))
            } else {
                None
            }),
    {
        let key = make_run_key(full_name, run);
        let line = make_run_line(&key, run);
        match self.insert(key, run.status.clone()) {
            Some(known_status) => {
                if known_status != run.status {
                    Some(line)
                } else {
                    None
                }
            },
            None => Some(line),
        }
    }

    /// Remembers the status of each run that `response` lists for `repo`, in order,
    /// and appends to `lines` the line of each run that is new or whose status changed.
    pub fn record_runs(
        &mut self,
        repo: &Repository,
        response: &ActionWorkflowRunsResponse,
        lines: &mut Vec<String>,
    )
        ensures
            final(self)@ == track_runs(old(self)@, repo.full_name@, listed_runs(*response)).0,
            final(lines).deep_view() == old(lines).deep_view() + track_runs(
                old(self)@,
                repo.full_name@,
                listed_runs(*response),
            ).1,
    {
        let ghost start = self@;
        let ghost lines0 = lines.deep_view();
        match &response.workflow_runs {
            None => {
                assert(lines.deep_view() =~= lines0 + Seq::<Seq<char>>::empty());
            },
            Some(runs) => {
                let mut i: usize = 0;
                assert(runs@.take(0) =~= Seq::<ActionWorkflowRun>::empty());
                assert(lines.deep_view() =~= lines0 + Seq::<Seq<char>>::empty());
                while i < runs.len()
                    invariant
                        i <= runs.len(),
                        runs@ == listed_runs(*response),
                        self@ == track_runs(start, repo.full_name@, runs@.take(i as int)).0,
                        lines.deep_view() == lines0 + track_runs(start, repo.full_name@, runs@.take(i as int)).1,
                    decreases runs.len() - i,
                {
                    assert(runs@.take(i + 1).drop_last() =~= runs@.take(i as int));
                    assert(runs@.take(i + 1).last() == runs@[i as int]);
                    let ghost before = lines.deep_view();
                    let line = self.record_run(&repo.full_name, &runs[i]);
                    if let Some(l) = line {
                        lines.push(l);
                        assert(lines.deep_view() =~= before.push(l@));
                    }
                    i = i + 1;
                    assert(lines.deep_view() =~= lines0 + track_runs(start, repo.full_name@, runs@.take(i as int)).1);
                }
                assert(runs@.take(i as int) =~= runs@);
            },
        }
    }
}

/// A notification: its title and its body.
#[derive(Clone, Debug)]
pub struct Notification {
    pub title: String,
    pub body: String,
}

/// The notification that reports `lines`: none when there is nothing to report,
/// else the fixed title and the lines separated by blank lines.
pub fn change_notification(lines: &Vec<String>) -> (n: Option<Notification>)
    ensures
        n is None <==> lines.len() == 0,
        n matches Some(n) ==> n.title@ == notification_title() && n.body@ == join_with(
            lines.deep_view(),
            line_separator(),
        ),
{
    if lines.len() == 0 {
        None
    } else {
        let title = String::from_str("工作流运行状态变更");
        let body = join_strings(lines, "\n\n");
        Some(Notification { title, body })
    }
}

} // verus!
