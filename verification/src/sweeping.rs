//! What a sweep takes away and what it leaves, and which worktree a name means.

use crate::dict;
use crate::paths;
use crate::ports;
use crate::ports::AssignmentView;
use crate::repo::WorktreeEntryView;
use crate::slug;
use crate::text;
use crate::worktrees;
use crate::worktrees::{
    BlockView, ComposeStepView, ContainerView, GcStepView, OpenedView, RecordedWorktreeView,
    SightingView, SpotView, StateDirView,
};
use vstd::prelude::*;

verus! {

/// Whether two places are one: by their paths, by what these resolve to, or by a name in one and the
/// same directory.
pub open spec fn is_one_place(a: SpotView, b: SpotView) -> bool {
    ||| paths::same_path(a.path, b.path)
    ||| paths::same_path(a.resolved, b.resolved)
    ||| {
        &&& a.parent is Some
        &&& b.parent is Some
        &&& paths::same_path(a.parent.unwrap(), b.parent.unwrap())
        &&& paths::file_name_of(a.path) == paths::file_name_of(b.path)
    }
}

/// Whether a worktree of a repository was seen at a place: something is there, it opens as a worktree
/// of that repository, and its root is the place itself.
pub open spec fn is_lived_in(s: SightingView, repo_key: Seq<char>) -> bool {
    s.exists && (s.opened matches OpenedView::Worktree { repo, root, .. } ==> repo.key_of()
        == repo_key && is_one_place(root, s.spot)) && s.opened is Worktree
}

proof fn sightings_are_live(seen: Seq<SightingView>, repo_key: Seq<char>, k: int, spot: SpotView)
    requires
        0 <= k <= seen.len(),
    ensures
        worktrees::live_upto(seen, repo_key, k).contains(spot) <==> exists|i: int|
            0 <= i < k && is_lived_in(#[trigger] seen[i], repo_key) && seen[i].spot == spot,
    decreases k,
{
    if k > 0 {
        sightings_are_live(seen, repo_key, k - 1, spot);
        let before = worktrees::live_upto(seen, repo_key, k - 1);
        let s = seen[k - 1];
        assert(worktrees::checkout_of(s, repo_key) == worktrees::Checkout::Live <==> is_lived_in(
            s,
            repo_key,
        ));
        if is_lived_in(s, repo_key) {
            let after = before.push(s.spot);
            if before.contains(spot) {
                let i = choose|i: int| 0 <= i < before.len() && before[i] == spot;
                assert(after[i] == spot);
            }
            assert(after[before.len() as int] == s.spot);
            if after.contains(spot) && s.spot != spot {
                let i = choose|i: int| 0 <= i < after.len() && after[i] == spot;
                assert(before[i] == spot);
            }
        }
    }
}

/// The worktrees that live are those that were seen where they are recorded.
pub proof fn worktrees_live_where_they_are_seen(
    seen: Seq<SightingView>,
    repo_key: Seq<char>,
    spot: SpotView,
)
    ensures
        worktrees::live_of(seen, repo_key).contains(spot) <==> exists|i: int|
            0 <= i < seen.len() && is_lived_in(#[trigger] seen[i], repo_key) && seen[i].spot == spot,
{
    sightings_are_live(seen, repo_key, seen.len() as int, spot);
}

/// Whether an owner is known and lives nowhere.
pub open spec fn has_left(owner: Option<SpotView>, live: Seq<SpotView>) -> bool {
    owner is Some && forall|i: int|
        0 <= i < live.len() ==> !is_one_place(#[trigger] live[i], owner.unwrap())
}

proof fn leaving_is_not_living(live: Seq<SpotView>, owner: SpotView)
    ensures
        has_left(Some(owner), live) <==> !worktrees::is_live(live, owner),
{
    assert forall|i: int| 0 <= i < live.len() implies (is_one_place(#[trigger] live[i], owner)
        <==> worktrees::same_spot(live[i], owner)) by {}
}

proof fn left_blocks_are_stale(b: BlockView, repo_key: Seq<char>, live: Seq<SpotView>)
    ensures
        worktrees::is_stale(b, repo_key, live) <==> b.assignment.repo_key == repo_key && has_left(
            b.owner,
            live,
        ),
{
    if let Some(owner) = b.owner {
        leaving_is_not_living(live, owner);
    }
}

proof fn left_states_are_abandoned(s: StateDirView, repo_key: Seq<char>, live: Seq<SpotView>)
    ensures
        worktrees::is_abandoned(s, repo_key, live) <==> s.repo_key == repo_key && has_left(
            s.owner,
            live,
        ),
{
    if let Some(owner) = s.owner {
        leaving_is_not_living(live, owner);
    }
}

/// A sweep releases exactly the blocks of its own repository whose worktree is known and lives
/// nowhere.
pub proof fn sweeps_release_what_was_left(
    state_dir: Seq<char>,
    repo_key: Seq<char>,
    live: Seq<SpotView>,
    blocks: Seq<BlockView>,
    states: Seq<StateDirView>,
    stride: u16,
    file: Seq<char>,
)
    ensures
        worktrees::gc_steps(state_dir, repo_key, live, blocks, states, stride, true).contains(
            GcStepView::RemoveFile(file),
        ) <==> exists|i: int|
            0 <= i < blocks.len() && (#[trigger] blocks[i]).file == file
                && blocks[i].assignment.repo_key == repo_key && has_left(blocks[i].owner, live),
{
    let steps = worktrees::gc_steps(state_dir, repo_key, live, blocks, states, stride, true);
    worktrees::sweeps_spare_what_is_live(state_dir, repo_key, live, blocks, states, stride, true);
    if steps.contains(GcStepView::RemoveFile(file)) {
        let j = choose|j: int| 0 <= j < steps.len() && steps[j] == GcStepView::RemoveFile(file);
        assert(worktrees::justified(steps[j], repo_key, live, blocks, states));
        let i = choose|i: int|
            0 <= i < blocks.len() && (#[trigger] blocks[i]).file == file && worktrees::is_stale(
                blocks[i],
                repo_key,
                live,
            );
        left_blocks_are_stale(blocks[i], repo_key, live);
        assert(blocks[i].file == file);
    }
    if exists|i: int|
        0 <= i < blocks.len() && (#[trigger] blocks[i]).file == file
            && blocks[i].assignment.repo_key == repo_key && has_left(blocks[i].owner, live) {
        let i = choose|i: int|
            0 <= i < blocks.len() && (#[trigger] blocks[i]).file == file
                && blocks[i].assignment.repo_key == repo_key && has_left(blocks[i].owner, live);
        left_blocks_are_stale(blocks[i], repo_key, live);
        worktrees::stale_blocks_are_released(state_dir, repo_key, live, blocks, states, stride, i);
    }
}

/// A sweep drops exactly the state of its own repository whose worktree is known and lives nowhere,
/// and stops no processes but those of such state.
pub proof fn sweeps_drop_what_was_left(
    state_dir: Seq<char>,
    repo_key: Seq<char>,
    live: Seq<SpotView>,
    blocks: Seq<BlockView>,
    states: Seq<StateDirView>,
    stride: u16,
    dir: Seq<char>,
)
    ensures
        ({
            let steps = worktrees::gc_steps(
                state_dir,
                repo_key,
                live,
                blocks,
                states,
                stride,
                true,
            );
            let left = exists|i: int|
                0 <= i < states.len() && (#[trigger] states[i]).dir == dir && states[i].repo_key
                    == repo_key && has_left(states[i].owner, live);
            &&& steps.contains(GcStepView::RemoveDir(dir)) <==> left
            &&& steps.contains(GcStepView::StopAll(dir)) ==> left
        }),
{
    let steps = worktrees::gc_steps(state_dir, repo_key, live, blocks, states, stride, true);
    worktrees::sweeps_spare_what_is_live(state_dir, repo_key, live, blocks, states, stride, true);
    if steps.contains(GcStepView::RemoveDir(dir)) || steps.contains(GcStepView::StopAll(dir)) {
        let j = choose|j: int|
            0 <= j < steps.len() && (steps[j] == GcStepView::RemoveDir(dir) || steps[j]
                == GcStepView::StopAll(dir));
        assert(worktrees::justified(steps[j], repo_key, live, blocks, states));
        let i = choose|i: int|
            0 <= i < states.len() && (#[trigger] states[i]).dir == dir && worktrees::is_abandoned(
                states[i],
                repo_key,
                live,
            );
        left_states_are_abandoned(states[i], repo_key, live);
        assert(states[i].dir == dir);
    }
    if exists|i: int|
        0 <= i < states.len() && (#[trigger] states[i]).dir == dir && states[i].repo_key == repo_key
            && has_left(states[i].owner, live) {
        let i = choose|i: int|
            0 <= i < states.len() && (#[trigger] states[i]).dir == dir && states[i].repo_key
                == repo_key && has_left(states[i].owner, live);
        left_states_are_abandoned(states[i], repo_key, live);
        worktrees::abandoned_state_is_dropped(state_dir, repo_key, live, blocks, states, stride, i);
    }
}

/// Whether a container is of a project and its worktree lives nowhere.
pub open spec fn is_left_behind(
    c: ContainerView,
    owner: SpotView,
    live: Seq<SpotView>,
    project: Seq<char>,
    id: Seq<char>,
) -> bool {
    c.project == project && c.id == id && has_left(Some(owner), live)
}

proof fn left_containers_are_orphans(
    containers: Seq<ContainerView>,
    owners: Seq<SpotView>,
    live: Seq<SpotView>,
    k: int,
    i: int,
)
    requires
        0 <= i < k <= containers.len(),
        has_left(Some(owners[i]), live),
    ensures
        dict::lookup(
            worktrees::orphans_upto(containers, owners, live, k),
            containers[i].project,
        ) matches Some(ids) && ids.contains(containers[i].id),
    decreases k,
{
    let before = worktrees::orphans_upto(containers, owners, live, k - 1);
    let c = containers[k - 1];
    let project = containers[i].project;
    let id = containers[i].id;
    leaving_is_not_living(live, owners[i]);
    let known = match dict::lookup(before, c.project) {
        Some(ids) => ids,
        None => Seq::empty(),
    };
    dict::put_then_lookup(before, c.project, known.push(c.id), project);
    if i < k - 1 {
        left_containers_are_orphans(containers, owners, live, k - 1, i);
        let ids = dict::lookup(before, project).unwrap();
        let j = choose|j: int| 0 <= j < ids.len() && ids[j] == id;
        if project == c.project {
            assert(known.push(c.id)[j] == id);
        }
    } else {
        assert(known.push(c.id)[known.len() as int] == id);
    }
}

/// The containers that a sweep removes are exactly those whose worktree lives nowhere.
pub proof fn containers_left_behind_are_removed(
    containers: Seq<ContainerView>,
    owners: Seq<SpotView>,
    live: Seq<SpotView>,
    project: Seq<char>,
    id: Seq<char>,
)
    ensures
        (dict::lookup(
            worktrees::orphans_upto(containers, owners, live, containers.len() as int),
            project,
        ) matches Some(ids) && ids.contains(id)) <==> exists|i: int|
            0 <= i < containers.len() && is_left_behind(
                #[trigger] containers[i],
                owners[i],
                live,
                project,
                id,
            ),
{
    let n = containers.len() as int;
    let swept = worktrees::orphans_upto(containers, owners, live, n);
    worktrees::live_containers_are_spared(containers, owners, live, project, id, Seq::empty());
    if dict::lookup(swept, project) matches Some(ids) && ids.contains(id) {
        let i = choose|i: int| worktrees::is_orphan(containers, owners, live, project, id, i);
        leaving_is_not_living(live, owners[i]);
        assert(is_left_behind(containers[i], owners[i], live, project, id));
    }
    if exists|i: int|
        0 <= i < containers.len() && is_left_behind(
            #[trigger] containers[i],
            owners[i],
            live,
            project,
            id,
        ) {
        let i = choose|i: int|
            0 <= i < containers.len() && is_left_behind(
                #[trigger] containers[i],
                owners[i],
                live,
                project,
                id,
            );
        left_containers_are_orphans(containers, owners, live, n, i);
    }
}

proof fn orphans_are_run(orphans: Seq<(Seq<char>, Seq<Seq<char>>)>, k: int, args: Seq<Seq<char>>)
    requires
        0 <= k <= orphans.len(),
    ensures
        worktrees::container_steps(orphans, true, k).contains(ComposeStepView::Run(args))
            <==> exists|i: int|
            0 <= i < k && args == seq!["rm"@, "-f"@] + (#[trigger] orphans[i]).1,
    decreases k,
{
    if k > 0 {
        orphans_are_run(orphans, k - 1, args);
        let before = worktrees::container_steps(orphans, true, k - 1);
        let after = worktrees::container_steps(orphans, true, k);
        let step = ComposeStepView::Run(args);
        if before.contains(step) {
            let i = choose|i: int| 0 <= i < before.len() && before[i] == step;
            assert(after[i] == step);
        }
        let own = ComposeStepView::Run(seq!["rm"@, "-f"@] + orphans[k - 1].1);
        assert(after[before.len() as int + 1] == own);
        if after.contains(step) && !before.contains(step) {
            let i = choose|i: int| 0 <= i < after.len() && after[i] == step;
            if i < before.len() {
                assert(before[i] == step);
            }
            assert(args == seq!["rm"@, "-f"@] + orphans[k - 1].1);
        }
    }
}

/// A sweep runs one removal for each project with containers left behind, of just those containers,
/// and runs nothing else.
pub proof fn sweeps_remove_just_the_containers_left_behind(
    orphans: Seq<(Seq<char>, Seq<Seq<char>>)>,
    args: Seq<Seq<char>>,
)
    ensures
        worktrees::container_steps(orphans, true, orphans.len() as int).contains(
            ComposeStepView::Run(args),
        ) <==> exists|i: int|
            0 <= i < orphans.len() && args == seq!["rm"@, "-f"@] + (#[trigger] orphans[i]).1,
{
    orphans_are_run(orphans, orphans.len() as int, args);
}

/// Whether a linked worktree goes by a name: its id, its branch, or the name of its directory.
pub open spec fn is_meant(
    entry: WorktreeEntryView,
    id: Option<Seq<char>>,
    target: Seq<char>,
) -> bool {
    id is Some && (id == Some(target) || entry.branch == Some(target) || paths::file_name_of(
        entry.path,
    ) == Some(target))
}

proof fn named_from(
    entries: Seq<WorktreeEntryView>,
    ids: Seq<Option<Seq<char>>>,
    target: Seq<char>,
    k: int,
) -> (at: int)
    requires
        0 <= k <= entries.len(),
        ids.len() == entries.len(),
    ensures
        match worktrees::find_named(entries, ids, target, k) {
            Some(path) => k <= at < entries.len() && entries[at].path == path && is_meant(
                entries[at],
                ids[at],
                target,
            ) && forall|i: int|
                k <= i < at ==> !is_meant(#[trigger] entries[i], ids[i], target),
            None => forall|i: int|
                k <= i < entries.len() ==> !is_meant(#[trigger] entries[i], ids[i], target),
        },
    decreases entries.len() - k,
{
    if k >= entries.len() || is_meant(entries[k], ids[k], target) {
        k
    } else {
        named_from(entries, ids, target, k + 1)
    }
}

/// A name means the first linked worktree that goes by it, and none where none does. The primary
/// checkout is never meant.
pub proof fn names_mean_linked_worktrees(
    entries: Seq<WorktreeEntryView>,
    ids: Seq<Option<Seq<char>>>,
    target: Seq<char>,
) -> (at: int)
    requires
        ids.len() == entries.len(),
    ensures
        match worktrees::find_named(entries, ids, target, 0) {
            Some(path) => 0 <= at < entries.len() && entries[at].path == path && is_meant(
                entries[at],
                ids[at],
                target,
            ) && forall|i: int|
                0 <= i < at ==> !is_meant(#[trigger] entries[i], ids[i], target),
            None => forall|i: int|
                0 <= i < entries.len() ==> !is_meant(#[trigger] entries[i], ids[i], target),
        },
{
    named_from(entries, ids, target, 0)
}

/// Whether a record goes by a name: its id, the place that the name is, or the name of its directory.
pub open spec fn is_meant_by_record(
    row: RecordedWorktreeView,
    spot: Option<SpotView>,
    target: Seq<char>,
    named: SpotView,
) -> bool {
    ||| row.worktree_id == target
    ||| row.path is Some && spot is Some && is_one_place(spot.unwrap(), named)
    ||| row.path is Some && paths::file_name_of(row.path.unwrap()) == Some(target)
}

proof fn matches_are_meant(
    rows: Seq<RecordedWorktreeView>,
    spots: Seq<Option<SpotView>>,
    target: Seq<char>,
    named: SpotView,
    k: int,
    row: RecordedWorktreeView,
)
    requires
        0 <= k <= rows.len(),
    ensures
        worktrees::matches_upto(rows, spots, target, named, k).contains(row) <==> exists|i: int|
            0 <= i < k && #[trigger] rows[i] == row && is_meant_by_record(
                row,
                spots[i],
                target,
                named,
            ),
    decreases k,
{
    if k > 0 {
        matches_are_meant(rows, spots, target, named, k - 1, row);
        let before = worktrees::matches_upto(rows, spots, target, named, k - 1);
        let last = rows[k - 1];
        assert(worktrees::names_record(last, spots[k - 1], target, named) <==> is_meant_by_record(
            last,
            spots[k - 1],
            target,
            named,
        ));
        if is_meant_by_record(last, spots[k - 1], target, named) {
            let after = before.push(last);
            if before.contains(row) {
                let i = choose|i: int| 0 <= i < before.len() && before[i] == row;
                assert(after[i] == row);
            }
            assert(after[before.len() as int] == last);
            if after.contains(row) && last != row {
                let i = choose|i: int| 0 <= i < after.len() && after[i] == row;
                assert(before[i] == row);
            }
        }
    }
}

/// The records that a name may mean are exactly those that go by it.
pub proof fn names_mean_recorded_worktrees(
    rows: Seq<RecordedWorktreeView>,
    spots: Seq<Option<SpotView>>,
    target: Seq<char>,
    named: SpotView,
    row: RecordedWorktreeView,
)
    ensures
        worktrees::matches_upto(rows, spots, target, named, rows.len() as int).contains(row)
            <==> exists|i: int|
            0 <= i < rows.len() && #[trigger] rows[i] == row && is_meant_by_record(
                row,
                spots[i],
                target,
                named,
            ),
{
    matches_are_meant(rows, spots, target, named, rows.len() as int, row);
}

proof fn rows_come_from_entries(
    repo_key: Seq<char>,
    entries: Seq<WorktreeEntryView>,
    ids: Seq<Option<Seq<char>>>,
    recorded: Seq<AssignmentView>,
    k: int,
    i: int,
) -> (at: int)
    requires
        0 <= i < k <= entries.len(),
        ids.len() == entries.len(),
        ids[i] is Some,
    ensures
        ({
            let rows = worktrees::rows_upto(repo_key, entries, ids, recorded, k);
            &&& 0 <= at < rows.len()
            &&& rows[at].id == ids[i].unwrap()
            &&& rows[at].path == entries[i].path
            &&& ports::find_assignment(recorded, repo_key, ids[i].unwrap(), 0) is None
                ==> rows[at].ports == "-"@
            &&& ports::find_assignment(recorded, repo_key, ids[i].unwrap(), 0) matches Some(a)
                ==> rows[at].ports == worktrees::ports_text(a)
        }),
    decreases k,
{
    if i == k - 1 {
        worktrees::rows_upto(repo_key, entries, ids, recorded, k - 1).len() as int
    } else {
        rows_come_from_entries(repo_key, entries, ids, recorded, k - 1, i)
    }
}

/// Every linked worktree of a repository is listed with its own path and its own ports.
pub proof fn every_linked_worktree_is_listed(
    repo_key: Seq<char>,
    entries: Seq<WorktreeEntryView>,
    ids: Seq<Option<Seq<char>>>,
    recorded: Seq<AssignmentView>,
    i: int,
) -> (at: int)
    requires
        0 <= i < entries.len(),
        ids.len() == entries.len(),
        ids[i] is Some,
    ensures
        ({
            let rows = worktrees::rows_upto(
                repo_key,
                entries,
                ids,
                recorded,
                entries.len() as int,
            );
            &&& 0 <= at < rows.len()
            &&& rows[at].id == ids[i].unwrap()
            &&& rows[at].path == entries[i].path
            &&& ports::find_assignment(recorded, repo_key, ids[i].unwrap(), 0) is None
                ==> rows[at].ports == "-"@
            &&& ports::find_assignment(recorded, repo_key, ids[i].unwrap(), 0) matches Some(a)
                ==> rows[at].ports == worktrees::ports_text(a)
        }),
{
    rows_come_from_entries(repo_key, entries, ids, recorded, entries.len() as int, i)
}

/// A worktree is told about a manifest that it does not have exactly where it has none, is not the main
/// checkout, and the main checkout has one; and the main checkout about its own where that is there
/// and not committed.
pub proof fn missing_manifests_are_told_of(
    here: bool,
    in_main: bool,
    main: Seq<char>,
    present: bool,
    committed: bool,
)
    ensures
        worktrees::missing_of(here, in_main, main, present, committed) is Some <==> !here && !in_main
            && present,
        worktrees::untracked_of(main, present, committed) is Some <==> present && !committed,
{
}

/// A new worktree goes where it is told to, and otherwise beside the checkout that it is made from; a
/// blank branch, and a base for a detached one, are refused.
pub proof fn new_worktrees_go_beside_their_checkout(
    root: Seq<char>,
    parent: Seq<char>,
    name: Seq<char>,
    branch: Seq<char>,
    base: bool,
    explicit: Option<Seq<char>>,
    detach: bool,
)
    requires
        paths::parent_of(root) == Some(parent),
        paths::file_name_of(root) == Some(name),
    ensures
        ({
            let r = worktrees::target_of(root, branch, base, explicit, detach);
            &&& text::trim_of(branch).len() == 0 ==> r is Err
            &&& base && detach ==> r is Err
            &&& text::trim_of(branch).len() > 0 && !(base && detach) ==> r == Ok::<
                Seq<char>,
                Seq<char>,
            >(
                match explicit {
                    Some(path) => path,
                    None => paths::join_of(parent, name + "-"@ + slug::slug_of(branch)),
                },
            )
        }),
{
}

/// A branch that exists is checked out as it is, a new one is made from the base that is given or from
/// where the checkout stands, and a detached worktree has none.
pub proof fn branches_are_checked_out_or_made(
    branch: Seq<char>,
    base: Option<Seq<char>>,
    path: Seq<char>,
)
    ensures
        ({
            let from = match base {
                Some(base) => base,
                None => "HEAD"@,
            };
            &&& worktrees::add_args_of(branch, base, path, false, true) == seq![
                "worktree"@,
                "add"@,
                path,
                branch,
            ]
            &&& worktrees::add_args_of(branch, base, path, false, false) == seq![
                "worktree"@,
                "add"@,
                "-b"@,
                branch,
                path,
                from,
            ]
            &&& forall|there: bool| #[trigger]
                worktrees::add_args_of(branch, base, path, true, there) == seq![
                    "worktree"@,
                    "add"@,
                    "--detach"@,
                    path,
                    from,
                ]
        }),
{
}

/// Whether an environment's line `at` is the first that names a compose project, and names this one.
pub open spec fn names_project(lines: Seq<Seq<char>>, at: int, project: Seq<char>) -> bool {
    &&& 0 <= at < lines.len()
    &&& project.len() > 0
    &&& text::starts_with_of(lines[at], "COMPOSE_PROJECT_NAME="@)
    &&& project == text::trim_of(lines[at].skip("COMPOSE_PROJECT_NAME="@.len() as int))
    &&& forall|i: int|
        0 <= i < at ==> !text::starts_with_of(#[trigger] lines[i], "COMPOSE_PROJECT_NAME="@)
}

proof fn projects_are_read(lines: Seq<Seq<char>>, k: int, project: Seq<char>)
    requires
        0 <= k,
        forall|i: int|
            0 <= i < k && i < lines.len() ==> !text::starts_with_of(
                #[trigger] lines[i],
                "COMPOSE_PROJECT_NAME="@,
            ),
    ensures
        worktrees::project_from(lines, k) == Some(project) <==> exists|at: int| #[trigger]
            names_project(lines, at, project),
    decreases lines.len() - k,
{
    if k < lines.len() {
        if text::starts_with_of(lines[k], "COMPOSE_PROJECT_NAME="@) {
            if worktrees::project_from(lines, k) == Some(project) {
                assert(names_project(lines, k, project));
            }
            if exists|at: int| #[trigger] names_project(lines, at, project) {
                let at = choose|at: int| #[trigger] names_project(lines, at, project);
                if at > k {
                    assert(!text::starts_with_of(lines[k], "COMPOSE_PROJECT_NAME="@));
                }
                assert(at == k);
            }
        } else {
            projects_are_read(lines, k + 1, project);
        }
    }
}

/// Whether a state directory is that of a worktree of the repository that lives nowhere, and its
/// environment names a compose project.
pub open spec fn leaves_project(
    s: StateDirView,
    repo_key: Seq<char>,
    live: Seq<SpotView>,
    project: Seq<char>,
) -> bool {
    &&& s.repo_key == repo_key
    &&& has_left(s.owner, live)
    &&& s.env matches Some(env) && exists|at: int| #[trigger]
        names_project(text::lines_of(env), at, project)
}

proof fn left_projects_add_up(
    states: Seq<StateDirView>,
    repo_key: Seq<char>,
    live: Seq<SpotView>,
    k: int,
    project: Seq<char>,
)
    requires
        0 <= k <= states.len(),
    ensures
        worktrees::abandoned_projects(states, repo_key, live, k).contains(project) <==> exists|i: int|
            0 <= i < k && leaves_project(#[trigger] states[i], repo_key, live, project),
    decreases k,
{
    if k > 0 {
        let before = worktrees::abandoned_projects(states, repo_key, live, k - 1);
        let now = worktrees::abandoned_projects(states, repo_key, live, k);
        let s = states[k - 1];
        left_projects_add_up(states, repo_key, live, k - 1, project);
        left_states_are_abandoned(s, repo_key, live);
        if let Some(env) = s.env {
            projects_are_read(text::lines_of(env), 0, project);
        }
        if before.contains(project) {
            let j = choose|j: int| 0 <= j < before.len() && before[j] == project;
            assert(now[j] == project);
        }
        if leaves_project(s, repo_key, live, project) {
            assert(now[before.len() as int] == project);
        }
        if now.contains(project) && !before.contains(project) {
            let j = choose|j: int| 0 <= j < now.len() && now[j] == project;
            if j < before.len() {
                assert(before[j] == project);
            }
            assert(leaves_project(s, repo_key, live, project));
        }
    }
}

/// The compose projects that a sweep hands on are exactly those that the worktrees which live nowhere
/// have left behind.
pub proof fn sweeps_hand_on_what_was_left(
    states: Seq<StateDirView>,
    repo_key: Seq<char>,
    live: Seq<SpotView>,
    project: Seq<char>,
)
    ensures
        worktrees::abandoned_projects(states, repo_key, live, states.len() as int).contains(project)
            <==> exists|i: int|
            0 <= i < states.len() && leaves_project(#[trigger] states[i], repo_key, live, project),
{
    left_projects_add_up(states, repo_key, live, states.len() as int, project);
}

} // verus!
