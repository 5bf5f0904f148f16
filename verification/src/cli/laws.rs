//! What holds of every start, stop, restart and removal.

use crate::cli;
use crate::cli::show;
use crate::cli::start;
use crate::cli::start::{BuildNeed, BuiltView, SeenView, StartStepView};
use crate::cli::wait;
use crate::compose::ContainerStateView;
use crate::config::{BuildMode, ReconcileMode};
use crate::ctx;
use crate::ctx::{Ctx, PreparedRunnerView};
use crate::dict;
use crate::dryrun;
use crate::env;
use crate::lists;
use crate::manifest;
use crate::manifest::{NodeKindView, NodeView, Runtime, Wait};
use crate::paths;
use crate::ports::{AssignmentView, PortMode};
use crate::text;
use crate::update;
use crate::worktrees::RecordedWorktreeView;
use vstd::prelude::*;

verus! {

/// Whether a node is a service that runs as a process on the host.
pub open spec fn is_on_the_host(node: NodeView) -> bool {
    node.kind matches NodeKindView::Service(s) && (s.runtime == Some(Runtime::Host) || (s.runtime
        is None && s.compose is None))
}

/// Whether a node is a service that runs in a container.
pub open spec fn is_in_compose(node: NodeView) -> bool {
    node.kind matches NodeKindView::Service(s) && (s.runtime == Some(Runtime::Compose) || (s.runtime
        is None && s.compose is Some))
}

/// Whether a runner is that of a service: it has the compose file that the service names, beside its
/// manifest, and the project of its worktree and app.
pub open spec fn runs_for(runner: PreparedRunnerView, slug: Seq<char>, node: NodeView) -> bool {
    &&& node.kind matches NodeKindView::Service(s)
    &&& s.compose matches Some(reference)
    &&& paths::same_path(runner.runner.file, paths::join_of(node.manifest_dir, reference.file))
    &&& runner.runner.project == (match node.app {
        Some(app) => slug + "-"@ + app,
        None => slug,
    })
}

proof fn runners_are_their_own(runners: Seq<PreparedRunnerView>, key: (Seq<char>, Seq<char>), k: int)
    requires
        0 <= k,
    ensures
        match start::runner_of(runners, key, k) {
            Some(i) => k <= i < runners.len() && paths::same_path(runners[i].runner.file, key.0)
                && runners[i].runner.project == key.1,
            None => forall|i: int|
                k <= i < runners.len() ==> !(paths::same_path(
                    (#[trigger] runners[i]).runner.file,
                    key.0,
                ) && runners[i].runner.project == key.1),
        },
    decreases runners.len() - k,
{
    if k < runners.len() {
        runners_are_their_own(runners, key, k + 1);
    }
}

/// A node starts as what it is, with the environment of its app: a job runs its command, a service on
/// the host runs its target or its command, and a service in a container is started by the runner of
/// its compose file and project, by the name that it has there. Nothing is started without its
/// environment, and no container without its runner.
pub proof fn nodes_start_as_what_they_are(
    c: Ctx,
    selection: Seq<usize>,
    position: int,
    assigned: Seq<(Seq<char>, u16)>,
    runners: Seq<PreparedRunnerView>,
    alone: bool,
)
    requires
        0 <= position < selection.len(),
        selection.len() <= usize::MAX,
        runners.len() <= usize::MAX,
    ensures
        ({
            let node = c.node_views()[selection[position] as int];
            let r = start::start_of(c, selection, position, assigned, runners, alone);
            let vars = c.layered(node.app, assigned, false);
            &&& vars is Err ==> r is Err
            &&& vars is Ok && (node.kind is Job || is_on_the_host(node)) ==> r is Ok
            &&& is_in_compose(node) && r is Ok ==> exists|i: int|
                0 <= i < runners.len() && #[trigger] runs_for(runners[i], c.slug@, node)
            &&& r matches Ok(start) ==> {
                &&& vars matches Ok(layers) && start.env == layers.vars
                &&& node.kind matches NodeKindView::Job(job) ==> start.step == (StartStepView::Job {
                    node: selection[position],
                    command: job.run,
                }) && start.end == position + 1
                &&& is_on_the_host(node) ==> {
                    &&& start.step matches StartStepView::Process { node: index, command }
                    &&& index == selection[position]
                    &&& node.kind->Service_0.target is None ==> command
                        == node.kind->Service_0.command
                    &&& node.kind->Service_0.target matches Some(target) ==> command == Some(
                        target.command_of(),
                    )
                    &&& start.end == position + 1
                }
                &&& is_in_compose(node) ==> {
                    &&& start.step matches StartStepView::Batch { runner, nodes, services }
                    &&& runner < runners.len()
                    &&& runs_for(runners[runner as int], c.slug@, node)
                    &&& nodes.len() > 0
                    &&& nodes[0] == selection[position]
                    &&& services.len() == nodes.len()
                    &&& services[0] == node.kind->Service_0.compose.unwrap().service
                    &&& alone ==> start.end == position + 1
                }
            }
        }),
{
    let node = c.node_views()[selection[position] as int];
    start::starts_move_on(c, selection, position, assigned, runners, alone);
    if is_in_compose(node) {
        if let Some(key) = ctx::runner_key_of(c.slug@, node) {
            runners_are_their_own(runners, key, 0);
            if let Some(i) = start::runner_of(runners, key, 0) {
                assert(runs_for(runners[i], c.slug@, node));
            }
        }
    }
}

proof fn group_shares(
    c: Ctx,
    selection: Seq<usize>,
    key: (Seq<char>, Seq<char>),
    assigned: Seq<(Seq<char>, u16)>,
    vars: Seq<(Seq<char>, Seq<char>)>,
    end: int,
)
    requires
        0 <= end <= selection.len(),
    ensures
        start::group_end_from(c, selection, key, assigned, vars, end) matches Ok(e) ==> {
            &&& end <= e <= selection.len()
            &&& forall|i: int|
                end <= i < e ==> ctx::runner_key_of(
                    c.slug@,
                    c.node_views()[#[trigger] selection[i] as int],
                ) is Some && (c.layered(
                    c.node_views()[selection[i] as int].app,
                    assigned,
                    false,
                ) matches Ok(layers) && layers.vars == vars)
            &&& e < selection.len() ==> !(ctx::has_runner(
                c.slug@,
                c.node_views()[selection[e] as int],
                key,
            ) && (c.layered(c.node_views()[selection[e] as int].app, assigned, false) matches Ok(
                layers,
            ) && layers.vars == vars))
        },
    decreases selection.len() - end,
{
    if end < selection.len() {
        group_shares(c, selection, key, assigned, vars, end + 1);
    }
}

/// Containers that start together are all of one environment, each by its own name in the compose
/// file; and the next node is left to the next step only where it has another runner or another
/// environment.
pub proof fn batches_share_their_environment(
    c: Ctx,
    selection: Seq<usize>,
    position: int,
    assigned: Seq<(Seq<char>, u16)>,
    runners: Seq<PreparedRunnerView>,
)
    requires
        0 <= position < selection.len(),
        selection.len() <= usize::MAX,
    ensures
        start::start_of(c, selection, position, assigned, runners, false) matches Ok(begun) ==> (
        begun.step matches StartStepView::Batch { runner, nodes, services } ==> {
            &&& nodes == selection.subrange(position, begun.end as int)
            &&& services.len() == nodes.len()
            &&& forall|i: int|
                0 <= i < nodes.len() ==> {
                    let node = c.node_views()[#[trigger] nodes[i] as int];
                    &&& node.kind matches NodeKindView::Service(s)
                    &&& s.compose matches Some(reference)
                    &&& services[i] == reference.service
                    &&& c.layered(node.app, assigned, false) matches Ok(layers)
                    &&& layers.vars == begun.env
                }
            &&& begun.end < selection.len() ==> {
                let first = c.node_views()[selection[position] as int];
                let next = c.node_views()[selection[begun.end as int] as int];
                ctx::runner_key_of(c.slug@, next) is None || !ctx::same_key(
                    ctx::runner_key_of(c.slug@, next).unwrap(),
                    ctx::runner_key_of(c.slug@, first).unwrap(),
                ) || !(c.layered(next.app, assigned, false) matches Ok(layers) && layers.vars
                    == begun.env)
            }
        }),
{
    let node = c.node_views()[selection[position] as int];
    start::starts_move_on(c, selection, position, assigned, runners, false);
    if let Ok(layers) = c.layered(node.app, assigned, false) {
        if let Some(key) = ctx::runner_key_of(c.slug@, node) {
            group_shares(c, selection, key, assigned, layers.vars, position + 1);
        }
    }
    if let Ok(begun) = start::start_of(c, selection, position, assigned, runners, false) {
        if let StartStepView::Batch { runner, nodes, services } = begun.step {
            assert forall|i: int| 0 <= i < nodes.len() implies ({
                let node = c.node_views()[#[trigger] nodes[i] as int];
                &&& node.kind matches NodeKindView::Service(s)
                &&& s.compose matches Some(reference)
                &&& services[i] == reference.service
                &&& c.layered(node.app, assigned, false) matches Ok(layers)
                &&& layers.vars == begun.env
            }) by {
                assert(nodes[i] == selection[position + i]);
            }
        }
    }
}

proof fn hosts_are_kept(nodes: Seq<NodeView>, order: Seq<usize>, k: int, x: usize)
    requires
        0 <= k <= order.len(),
    ensures
        start::hosts_reversed(nodes, order, k).contains(x) <==> is_on_the_host(nodes[x as int])
            && order.take(k).contains(x),
    decreases k,
{
    if k > 0 {
        hosts_are_kept(nodes, order, k - 1, x);
        let before = start::hosts_reversed(nodes, order, k - 1);
        let last = order[k - 1];
        let now = start::hosts_reversed(nodes, order, k);
        assert(nodes[last as int].runtime_of() == Some(Runtime::Host) <==> is_on_the_host(
            nodes[last as int],
        ));
        let earlier = order.take(k - 1);
        let upto = order.take(k);
        assert(upto[k - 1] == last);
        if earlier.contains(x) {
            let i = choose|i: int| 0 <= i < earlier.len() && earlier[i] == x;
            assert(upto[i] == x);
        }
        if upto.contains(x) && last != x {
            let i = choose|i: int| 0 <= i < upto.len() && upto[i] == x;
            assert(earlier[i] == x);
        }
        if is_on_the_host(nodes[last as int]) {
            assert(now[0] == last);
            if before.contains(x) {
                let i = choose|i: int| 0 <= i < before.len() && before[i] == x;
                assert(now[i + 1] == x);
            }
            if now.contains(x) && x != last {
                let i = choose|i: int| 0 <= i < now.len() && now[i] == x;
                assert(before[i - 1] == x);
            }
        }
    }
}

/// Stopping a stack stops every service that runs on the host, and nothing else by hand: containers
/// go with their project.
pub proof fn every_host_service_is_stopped(nodes: Seq<NodeView>, edges: Seq<Seq<usize>>, x: usize)
    requires
        manifest::resolved(nodes, edges),
        nodes.len() <= usize::MAX,
    ensures
        start::stop_order_of(nodes, edges) matches Ok(v) ==> (x < nodes.len() && is_on_the_host(
            nodes[x as int],
        ) ==> v.contains(x)) && (v.contains(x) ==> is_on_the_host(nodes[x as int])),
{
    let p = |i: int| nodes[i].service_of() is Some;
    let services = ctx::service_indices(nodes);
    lists::indices_are_exact(nodes.len() as int, p);
    ctx::edges_form_a_graph(nodes, edges);
    assert forall|i: int| 0 <= i < services.len() implies #[trigger] services[i]
        < edges.len() by {
        assert(services.contains(services[i]));
    }
    manifest::order_is_sound(nodes, edges, services, Set::full());
    if let Ok(d) = manifest::order_of(nodes, edges, services) {
        hosts_are_kept(nodes, d, d.len() as int, x);
        assert(d.take(d.len() as int) =~= d);
        if x < nodes.len() && is_on_the_host(nodes[x as int]) {
            assert(p(x as int));
            assert(services.contains(x));
            assert(d.contains(x));
        }
    }
}

/// Whether a node goes by a name: its id, or `app:id`.
pub open spec fn answers_to(node: NodeView, name: Seq<char>) -> bool {
    node.id == name || manifest::goes_by(node, name)
}

/// Whether a name means a node: the first that goes by it.
pub open spec fn is_meant_by(nodes: Seq<NodeView>, name: Seq<char>, i: int) -> bool {
    &&& 0 <= i < nodes.len()
    &&& answers_to(nodes[i], name)
    &&& forall|j: int| 0 <= j < i ==> !answers_to(#[trigger] nodes[j], name)
}

proof fn positions_are_meant(nodes: Seq<NodeView>, name: Seq<char>, k: int)
    requires
        0 <= k <= nodes.len(),
    ensures
        match cli::position_of(nodes, name, k) {
            Some(i) => k <= i < nodes.len() && answers_to(nodes[i], name) && forall|j: int|
                k <= j < i ==> !answers_to(#[trigger] nodes[j], name),
            None => forall|j: int| k <= j < nodes.len() ==> !answers_to(#[trigger] nodes[j], name),
        },
    decreases nodes.len() - k,
{
    if k < nodes.len() {
        let node = nodes[k];
        assert(answers_to(node, name) <==> node.id == name || node.qual_of() == name);
        positions_are_meant(nodes, name, k + 1);
    }
}

proof fn refused_restarts(nodes: Seq<NodeView>, names: Seq<Seq<char>>, k: int)
    requires
        0 <= k <= names.len(),
    ensures
        cli::restart_error(nodes, names, k) is None <==> forall|n: int|
            k <= n < names.len() ==> exists|i: int|
                is_meant_by(nodes, #[trigger] names[n], i) && #[trigger] nodes[i].kind is Service,
    decreases names.len() - k,
{
    if k < names.len() {
        refused_restarts(nodes, names, k + 1);
        positions_are_meant(nodes, names[k], 0);
        match cli::position_of(nodes, names[k], 0) {
            Some(i) => {
                assert(is_meant_by(nodes, names[k], i));
                assert(nodes[i].job_of() is Some <==> nodes[i].kind is Job);
                if nodes[i].kind is Service {
                    assert(nodes[i].kind is Service);
                } else {
                    assert forall|j: int| is_meant_by(nodes, names[k], j) implies !(
                    #[trigger] nodes[j].kind is Service) by {
                        if j < i {
                            assert(!answers_to(nodes[j], names[k]));
                        } else if i < j {
                            assert(!answers_to(nodes[i], names[k]));
                        }
                    }
                }
            },
            None => {},
        }
    }
}

/// A restart is refused where a name means no node, or a job, and otherwise touches exactly the
/// services that are named.
pub proof fn restarts_touch_the_named_services(
    nodes: Seq<NodeView>,
    edges: Seq<Seq<usize>>,
    names: Seq<Seq<char>>,
)
    requires
        manifest::resolved(nodes, edges),
        nodes.len() <= usize::MAX,
    ensures
        (exists|n: int|
            0 <= n < names.len() && forall|i: int|
                !(is_meant_by(nodes, #[trigger] names[n], i) && #[trigger] nodes[i].kind is Service))
            ==> cli::restart_of(nodes, edges, names) is Err,
        cli::restart_of(nodes, edges, names) matches Ok(d) ==> {
            &&& forall|x: usize| #[trigger]
                d.contains(x) ==> x < nodes.len() && nodes[x as int].kind is Service && exists|
                    n: int,
                |
                    0 <= n < names.len() && is_meant_by(nodes, #[trigger] names[n], x as int)
            &&& forall|x: usize, n: int|
                0 <= n < names.len() && #[trigger] is_meant_by(nodes, names[n], x as int)
                    ==> d.contains(x)
        },
{
    refused_restarts(nodes, names, 0);
    crate::laws::restarts_touch_what_is_named(nodes, edges, names);
    if let Ok(d) = cli::restart_of(nodes, edges, names) {
        assert forall|x: usize| #[trigger] d.contains(x) implies x < nodes.len()
            && nodes[x as int].kind is Service && exists|n: int|
            0 <= n < names.len() && is_meant_by(nodes, #[trigger] names[n], x as int) by {
            assert(cli::is_restarted(nodes, names)(x as int));
            let n = choose|n: int|
                0 <= n < names.len() && cli::position_of(nodes, #[trigger] names[n], 0) == Some(
                    x as int,
                );
            positions_are_meant(nodes, names[n], 0);
            assert(is_meant_by(nodes, names[n], x as int));
            let i = choose|i: int|
                is_meant_by(nodes, names[n], i) && #[trigger] nodes[i].kind is Service;
            if i < x {
                assert(!answers_to(nodes[i], names[n]));
            } else if x < i {
                assert(!answers_to(nodes[x as int], names[n]));
            }
        }
        assert forall|x: usize, n: int|
            0 <= n < names.len() && #[trigger] is_meant_by(
                nodes,
                names[n],
                x as int,
            ) implies d.contains(x) by {
            positions_are_meant(nodes, names[n], 0);
            let found = cli::position_of(nodes, names[n], 0);
            if let Some(i) = found {
                if i < x {
                    assert(!answers_to(nodes[i], names[n]));
                } else if x < i {
                    assert(!answers_to(nodes[x as int], names[n]));
                }
            } else {
                assert(!answers_to(nodes[x as int], names[n]));
            }
            assert(cli::position_of(nodes, names[n], 0) == Some(x as int));
            assert(cli::is_restarted(nodes, names)(x as int));
        }
    }
}

/// What `rm` removes is the linked worktree that is found, or the one that a single record with a
/// path names. A primary checkout is never removed, and where several records are named none is.
pub proof fn removals_are_unambiguous(
    found: Option<Seq<char>>,
    primary: bool,
    rows: Seq<RecordedWorktreeView>,
    target: Seq<char>,
    path: Seq<char>,
)
    ensures
        cli::removal_of(found, primary, rows, target) == Ok::<Seq<char>, Seq<char>>(path) <==> {
            &&& !primary
            &&& found == Some(path) || (found is None && rows.len() == 1 && rows[0].worktree_id
                != "main"@ && rows[0].path == Some(path))
        },
{
}

/// Whether the containers of a project hold one by a name that was started and has not ended.
pub open spec fn container_is_up(states: Seq<ContainerStateView>, name: Seq<char>) -> bool {
    exists|i: int|
        0 <= i < states.len() && (#[trigger] states[i]).service == name && (forall|j: int|
            0 <= j < i ==> (#[trigger] states[j]).service != name) && states[i].state != "exited"@
            && states[i].state != "dead"@ && states[i].state != "created"@ && states[i].state
            != ""@
}

proof fn containers_are_first(states: Seq<ContainerStateView>, name: Seq<char>, k: int) -> (at: int)
    requires
        0 <= k <= states.len(),
    ensures
        match wait::container_named(states, name, k) {
            Some(state) => k <= at < states.len() && states[at] == state && state.service == name
                && forall|j: int| k <= j < at ==> (#[trigger] states[j]).service != name,
            None => forall|j: int| k <= j < states.len() ==> (#[trigger] states[j]).service != name,
        },
    decreases states.len() - k,
{
    if k >= states.len() || states[k].service == name {
        k
    } else {
        containers_are_first(states, name, k + 1)
    }
}

/// Whether a service was seen to run: its process is alive, or its container is up.
pub open spec fn is_seen_up(node: NodeView, seen: SeenView) -> bool {
    match seen {
        SeenView::Process(alive) => alive,
        SeenView::Containers(states) => node.kind matches NodeKindView::Service(s)
            && container_is_up(
            states,
            match s.compose {
                Some(reference) => reference.service,
                None => ""@,
            },
        ),
    }
}

proof fn seeing_is_running(node: NodeView, seen: SeenView)
    requires
        node.kind is Service,
    ensures
        start::is_up(node, seen) <==> is_seen_up(node, seen),
{
    if let SeenView::Containers(states) = seen {
        let name = start::container_name(node);
        let at = containers_are_first(states, name, 0);
        match wait::container_named(states, name, 0) {
            Some(state) => {
                assert(states[at].service == name);
                if container_is_up(states, name) {
                    let i = choose|i: int|
                        0 <= i < states.len() && (#[trigger] states[i]).service == name && (forall|
                            j: int,
                        |
                            0 <= j < i ==> (#[trigger] states[j]).service != name)
                            && states[i].state != "exited"@ && states[i].state != "dead"@
                            && states[i].state != "created"@ && states[i].state != ""@;
                    assert(i == at);
                }
            },
            None => {},
        }
    }
}

proof fn running_is_seen(nodes: Seq<NodeView>, services: Seq<usize>, seen: Seq<SeenView>, k: int)
    requires
        0 <= k <= services.len(),
        seen.len() <= services.len(),
        forall|i: int|
            0 <= i < services.len() ==> nodes[#[trigger] services[i] as int].kind is Service,
    ensures
        match start::running_from(nodes, services, seen, k) {
            Ok(Some(name)) => exists|i: int|
                k <= i < seen.len() && is_seen_up(
                    nodes[#[trigger] services[i] as int],
                    seen[i],
                ) && manifest::goes_by(nodes[services[i] as int], name),
            Ok(None) => seen.len() >= services.len() || k >= services.len(),
            Err(next) => k <= seen.len() ==> seen.len() < services.len() && next
                == services[seen.len() as int],
        },
        !(start::running_from(nodes, services, seen, k) matches Ok(Some(_))) ==> forall|i: int|
            k <= i < seen.len() ==> !is_seen_up(nodes[#[trigger] services[i] as int], seen[i]),
    decreases services.len() - k,
{
    if k < services.len() && k < seen.len() {
        let node = nodes[services[k] as int];
        seeing_is_running(node, seen[k]);
        assert(manifest::goes_by(node, node.qual_of()));
        running_is_seen(nodes, services, seen, k + 1);
    }
}

/// A stack is found to run exactly where one of its services was seen up, and is found at rest only
/// once every service has been looked at.
pub proof fn stacks_run_where_a_service_is_up(
    nodes: Seq<NodeView>,
    services: Seq<usize>,
    seen: Seq<SeenView>,
)
    requires
        seen.len() <= services.len(),
        forall|i: int|
            0 <= i < services.len() ==> nodes[#[trigger] services[i] as int].kind is Service,
    ensures
        (start::running_from(nodes, services, seen, 0) matches Ok(Some(_))) <==> exists|i: int|
            0 <= i < seen.len() && is_seen_up(nodes[#[trigger] services[i] as int], seen[i]),
        start::running_from(nodes, services, seen, 0) == Ok::<Option<Seq<char>>, usize>(None)
            ==> seen.len() == services.len(),
        start::running_from(nodes, services, seen, 0) matches Err(next) ==> seen.len()
            < services.len() && next == services[seen.len() as int],
{
    running_is_seen(nodes, services, seen, 0);
}

/// The command line decides about building before the configuration does: `--build` builds, and
/// `--no-build` alone never does. Images are built without a question only where every run builds, and
/// a question is put only where there is something to build.
pub proof fn builds_follow_the_command_line(
    configured: BuildMode,
    force: bool,
    skip: bool,
    buildable: nat,
)
    ensures
        force ==> cli::built_as(configured, force, skip) == BuildMode::Always,
        skip && !force ==> cli::built_as(configured, force, skip) == BuildMode::Never,
        !skip && !force ==> cli::built_as(configured, force, skip) == configured,
        cli::image_plan(BuildMode::Always, buildable) == (true, false),
        cli::image_plan(BuildMode::Never, buildable) == (false, false),
        cli::image_plan(BuildMode::Ask, buildable) == (false, buildable != 0),
{
}

/// A compose project is left alone only where that was configured, no refresh is asked for, it is up,
/// and it was started with the very configuration that it has now.
pub proof fn unchanged_projects_are_left_alone(
    mode: ReconcileMode,
    refresh: bool,
    up: bool,
    started_with: Option<Seq<char>>,
    now: Seq<char>,
)
    ensures
        mode == ReconcileMode::Always || refresh || !up || started_with is None || started_with
            != Some(now) ==> !cli::left_alone(mode, refresh, up, started_with, now),
        cli::left_alone(ReconcileMode::Auto, false, true, Some(now), now),
{
}

/// A release is installed where it is newer or where that is forced, and never where only a check was
/// asked for.
pub proof fn updates_install_newer_releases(force: bool, current: Seq<char>, latest: Seq<char>)
    ensures
        !cli::installs(true, force, current, latest),
        cli::installs(false, true, current, latest),
        cli::installs(false, false, current, latest) <==> update::newer(latest, current),
{
}

/// Ports move only where another mode is asked for than the worktree has: a linked worktree has its
/// block, and the primary checkout what it recorded, or the declared ports.
pub proof fn ports_move_with_their_mode(
    requested: Option<PortMode>,
    current: Option<AssignmentView>,
    primary: bool,
)
    ensures
        requested is None ==> !cli::moves_ports(requested, current, primary),
        !primary ==> (cli::moves_ports(requested, current, primary) <==> requested == Some(
            PortMode::Declared,
        )),
        primary && current is None ==> (cli::moves_ports(requested, current, primary) <==> requested
            == Some(PortMode::Block)),
        primary && current is Some ==> (cli::moves_ports(requested, current, primary) <==> requested
            is Some && requested != Some(current.unwrap().mode)),
{
}

/// A command that ended by itself is told by its own code, and one that a signal ended by that signal,
/// past every code of its own.
pub proof fn ends_are_told_apart(code: i32, signal: i32)
    ensures
        cli::told_as(Some(code), None) == code,
        cli::told_as(Some(code), Some(signal)) == code,
        cli::told_as(None, Some(signal)) == 128 + signal,
{
}

/// A command that is shown can be taken back: a shell reads each word as the argument that it is.
pub proof fn shown_commands_are_read_back(arg: Seq<char>)
    ensures
        manifest::shell_reads(cli::shell_word(arg), false) == arg,
{
    if arg.len() > 0 && env::all_plain(arg) {
        assert forall|i: int| 0 <= i < arg.len() implies #[trigger] arg[i] != '\'' && arg[i]
            != '\\' by {
            assert(env::plain_char(arg[i]));
        }
        manifest::plain_words_are_read(arg);
    } else {
        manifest::quoting_is_undone(arg);
    }
}

/// Whether the address of a port is shown in a line.
pub open spec fn shows_port(line: Seq<char>, name: Seq<char>, port: u16) -> bool {
    text::starts_with_of(line, name) && text::contains_of(
        line,
        "http://localhost:"@ + text::decimal_of(port as nat),
    )
}

proof fn ports_are_reachable(
    nodes: Seq<NodeView>,
    selection: Seq<usize>,
    assigned: Seq<(Seq<char>, u16)>,
    k: int,
    i: int,
    j: int,
) -> (at: int)
    requires
        0 <= i < k <= selection.len(),
        nodes[selection[i] as int].kind is Service,
        0 <= j < ctx::assigned_of(nodes[selection[i] as int], assigned).len(),
    ensures
        0 <= at < show::reachable_upto(nodes, selection, assigned, k).len(),
        show::reachable_upto(nodes, selection, assigned, k)[at] == ctx::assigned_of(
            nodes[selection[i] as int],
            assigned,
        )[j],
    decreases k,
{
    if i == k - 1 {
        show::reachable_upto(nodes, selection, assigned, k - 1).len() as int + j
    } else {
        ports_are_reachable(nodes, selection, assigned, k - 1, i, j)
    }
}

proof fn reachable_ports_have_a_line(
    labels: Seq<(Seq<char>, u16)>,
    aliases: Seq<(u16, Seq<char>)>,
    width: nat,
    k: int,
    i: int,
)
    requires
        0 <= i < k <= labels.len(),
    ensures
        show::reachable_lines(labels, aliases, width, k).len() == k,
        shows_port(
            show::reachable_lines(labels, aliases, width, k)[i],
            labels[i].0,
            labels[i].1,
        ),
    decreases k,
{
    reveal_with_fuel(show::reachable_lines, 2);
    if i < k - 1 {
        reachable_ports_have_a_line(labels, aliases, width, k - 1, i);
    } else {
        if k > 1 {
            reachable_ports_have_a_line(labels, aliases, width, k - 1, 0);
        }
        let (name, port) = labels[i];
        let padded = env::padded(name, width);
        let address = "http://localhost:"@ + text::decimal_of(port as nat);
        let url = show::url_of(aliases, port);
        let rest = match env::alias_at(aliases, port, 0) {
            Some(host) => "   http://"@ + host + ":"@ + text::decimal_of(port as nat),
            None => ""@,
        };
        let line = padded + "   "@ + url;
        assert(line =~= (padded + "   "@) + address + rest);
        text::part_is_contained(padded + "   "@, address, rest);
        assert(line.take(name.len() as int) =~= name);
    }
}

/// What is said once a stack is up names every port of every selected service, with the address that
/// it answers at.
pub proof fn summaries_name_every_port(
    nodes: Seq<NodeView>,
    selection: Seq<usize>,
    assigned: Seq<(Seq<char>, u16)>,
    aliases: Seq<(u16, Seq<char>)>,
    i: int,
    j: int,
) -> (at: int)
    requires
        0 <= i < selection.len(),
        nodes[selection[i] as int].kind is Service,
        0 <= j < ctx::assigned_of(nodes[selection[i] as int], assigned).len(),
    ensures
        0 <= at < show::summary_of(nodes, selection, assigned, aliases).len(),
        shows_port(
            show::summary_of(nodes, selection, assigned, aliases)[at],
            ctx::assigned_of(nodes[selection[i] as int], assigned)[j].0,
            ctx::assigned_of(nodes[selection[i] as int], assigned)[j].1,
        ),
{
    let n = selection.len() as int;
    let reachable = show::reachable_upto(nodes, selection, assigned, n);
    let at = ports_are_reachable(nodes, selection, assigned, n, i, j);
    let width = show::label_width(reachable, reachable.len() as int);
    let lines = show::reachable_lines(reachable, aliases, width, reachable.len() as int);
    reachable_ports_have_a_line(reachable, aliases, width, reachable.len() as int, at);
    let all = show::summary_of(nodes, selection, assigned, aliases);
    assert(all[at + 1] == lines[at]);
    at + 1
}

/// Whether a container of a name has come to what its service is for: it runs, and is healthy where it
/// says how it is; or it was to end, and ended well.
pub open spec fn has_come_up(states: Seq<ContainerStateView>, node: NodeView) -> bool {
    &&& node.kind matches NodeKindView::Service(s)
    &&& exists|i: int|
        {
            &&& 0 <= i < states.len()
            &&& (#[trigger] states[i]).service == (match s.compose {
                Some(reference) => reference.service,
                None => ""@,
            })
            &&& forall|j: int| 0 <= j < i ==> (#[trigger] states[j]).service != states[i].service
            &&& {
                ||| wait::is_in(states[i], "running"@) && (states[i].health matches Some(health)
                    ==> text::lower_of(health) == text::lower_of("healthy"@))
                ||| s.wait == Wait::Exit && wait::is_in(states[i], "exited"@) && states[i].exit_code
                    == Some(0i64)
            }
        }
}

/// A compose project stands, and may be left alone, only where each of its services has come to what it
/// is for.
pub proof fn services_stand_once_they_have_come_up(
    node: NodeView,
    states: Seq<ContainerStateView>,
)
    requires
        node.kind is Service,
    ensures
        start::stands(node, states) <==> has_come_up(states, node),
{
    let name = start::container_name(node);
    let at = containers_are_first(states, name, 0);
    match wait::container_named(states, name, 0) {
        Some(state) => {
            assert(states[at].service == name);
            if has_come_up(states, node) {
                let i = choose|i: int|
                    {
                        &&& 0 <= i < states.len()
                        &&& (#[trigger] states[i]).service == name
                        &&& forall|j: int|
                            0 <= j < i ==> (#[trigger] states[j]).service != states[i].service
                        &&& {
                            ||| wait::is_in(states[i], "running"@) && (
                            states[i].health matches Some(health) ==> text::lower_of(health)
                                == text::lower_of("healthy"@))
                            ||| node.kind->Service_0.wait == Wait::Exit && wait::is_in(
                                states[i],
                                "exited"@,
                            ) && states[i].exit_code == Some(0i64)
                        }
                    };
                assert(i == at);
            }
        },
        None => {},
    }
}

/// Whether what is known of a compose file says that it builds an image for a service.
pub open spec fn says_it_builds(
    built: BuiltView,
    slug: Seq<char>,
    node: NodeView,
    runners: Seq<PreparedRunnerView>,
) -> bool {
    &&& is_in_compose(node)
    &&& built.runner < runners.len()
    &&& runs_for(runners[built.runner as int], slug, node)
    &&& node.kind matches NodeKindView::Service(s) && s.compose matches Some(reference)
        && built.services.contains(reference.service)
}

/// Whether one of what is known of the compose files says that an image is built for a service.
pub open spec fn is_built(
    slug: Seq<char>,
    node: NodeView,
    runners: Seq<PreparedRunnerView>,
    known: Seq<BuiltView>,
) -> bool {
    exists|b: int| 0 <= b < known.len() && says_it_builds(#[trigger] known[b], slug, node, runners)
}

proof fn what_is_known_is_asked(known: Seq<BuiltView>, runner: int, k: int)
    requires
        0 <= k,
    ensures
        start::built_by(known, runner, k) matches Some(services) ==> exists|b: int|
            k <= b < known.len() && (#[trigger] known[b]).runner == runner && known[b].services
                == services,
    decreases known.len() - k,
{
    if k < known.len() {
        if known[k].runner != runner {
            what_is_known_is_asked(known, runner, k + 1);
        } else {
            assert(known[k].runner == runner);
        }
    }
}

proof fn named_builds_are_built(
    c: Ctx,
    selection: Seq<usize>,
    assigned: Seq<(Seq<char>, u16)>,
    runners: Seq<PreparedRunnerView>,
    known: Seq<BuiltView>,
    names: Seq<Seq<char>>,
    k: int,
    list: Seq<Seq<char>>,
    x: Seq<char>,
)
    requires
        0 <= k <= selection.len(),
        start::buildable_from(c, selection, assigned, runners, known, names, k) == Ok::<
            BuildNeed,
            Seq<char>,
        >(BuildNeed::Names(list)),
    ensures
        names.contains(x) ==> list.contains(x),
        list.contains(x) ==> names.contains(x) || exists|i: int|
            k <= i < selection.len() && x == c.node_views()[#[trigger] selection[i] as int].qual_of()
                && is_built(c.slug@, c.node_views()[selection[i] as int], runners, known),
    decreases selection.len() - k,
{
    if k < selection.len() {
        let node = c.node_views()[selection[k] as int];
        if node.runtime_of() != Some(Runtime::Compose) {
            named_builds_are_built(c, selection, assigned, runners, known, names, k + 1, list, x);
        } else {
            let key = ctx::runner_key_of(c.slug@, node)->Some_0;
            let runner = start::runner_for(c.slug@, node, runners)->Ok_0;
            let services = start::built_by(known, runner, 0)->Some_0;
            runners_are_their_own(runners, key, 0);
            what_is_known_is_asked(known, runner, 0);
            let b = choose|b: int|
                0 <= b < known.len() && (#[trigger] known[b]).runner == runner && known[b].services
                    == services;
            if services.contains(start::container_name(node)) {
                assert(says_it_builds(known[b], c.slug@, node, runners));
                assert(is_built(c.slug@, node, runners, known));
                dict::members_are_added(names, node.qual_of(), x);
                let more = dict::with_member(names, node.qual_of());
                named_builds_are_built(c, selection, assigned, runners, known, more, k + 1, list, x);
            } else {
                named_builds_are_built(c, selection, assigned, runners, known, names, k + 1, list, x);
            }
        }
    }
}

proof fn builds_are_named(
    c: Ctx,
    selection: Seq<usize>,
    assigned: Seq<(Seq<char>, u16)>,
    runners: Seq<PreparedRunnerView>,
    known: Seq<BuiltView>,
    names: Seq<Seq<char>>,
    k: int,
    list: Seq<Seq<char>>,
    i: int,
)
    requires
        0 <= k <= i < selection.len(),
        start::buildable_from(c, selection, assigned, runners, known, names, k) == Ok::<
            BuildNeed,
            Seq<char>,
        >(BuildNeed::Names(list)),
        is_in_compose(c.node_views()[selection[i] as int]),
        forall|b: int|
            0 <= b < known.len() && (#[trigger] known[b]).runner < runners.len() && runs_for(
                runners[known[b].runner as int],
                c.slug@,
                c.node_views()[selection[i] as int],
            ) ==> says_it_builds(
                known[b],
                c.slug@,
                c.node_views()[selection[i] as int],
                runners,
            ),
    ensures
        list.contains(c.node_views()[selection[i] as int].qual_of()),
    decreases selection.len() - k,
{
    let node = c.node_views()[selection[k] as int];
    if k == i {
        let key = ctx::runner_key_of(c.slug@, node)->Some_0;
        let runner = start::runner_for(c.slug@, node, runners)->Ok_0;
        let services = start::built_by(known, runner, 0)->Some_0;
        assert(node.runtime_of() == Some(Runtime::Compose));
        runners_are_their_own(runners, key, 0);
        what_is_known_is_asked(known, runner, 0);
        let b = choose|b: int|
            0 <= b < known.len() && (#[trigger] known[b]).runner == runner && known[b].services
                == services;
        assert(runs_for(runners[runner], c.slug@, node));
        assert(says_it_builds(known[b], c.slug@, node, runners));
        let more = dict::with_member(names, node.qual_of());
        dict::members_are_added(names, node.qual_of(), node.qual_of());
        named_builds_are_built(
            c,
            selection,
            assigned,
            runners,
            known,
            more,
            k + 1,
            list,
            node.qual_of(),
        );
    } else if node.runtime_of() != Some(Runtime::Compose) {
        builds_are_named(c, selection, assigned, runners, known, names, k + 1, list, i);
    } else {
        let runner = start::runner_for(c.slug@, node, runners)->Ok_0;
        let services = start::built_by(known, runner, 0)->Some_0;
        if services.contains(start::container_name(node)) {
            let more = dict::with_member(names, node.qual_of());
            builds_are_named(c, selection, assigned, runners, known, more, k + 1, list, i);
        } else {
            builds_are_named(c, selection, assigned, runners, known, names, k + 1, list, i);
        }
    }
}

/// The services that are named for having an image built are the selected ones for which their own
/// compose file builds one.
pub proof fn built_services_are_named(
    c: Ctx,
    selection: Seq<usize>,
    assigned: Seq<(Seq<char>, u16)>,
    runners: Seq<PreparedRunnerView>,
    known: Seq<BuiltView>,
    list: Seq<Seq<char>>,
    i: int,
    x: Seq<char>,
)
    requires
        start::buildable_from(c, selection, assigned, runners, known, Seq::empty(), 0) == Ok::<
            BuildNeed,
            Seq<char>,
        >(BuildNeed::Names(list)),
        0 <= i < selection.len(),
    ensures
        list.contains(x) ==> exists|j: int|
            0 <= j < selection.len() && x == c.node_views()[#[trigger] selection[j] as int].qual_of()
                && is_built(c.slug@, c.node_views()[selection[j] as int], runners, known),
        is_in_compose(c.node_views()[selection[i] as int]) && (forall|b: int|
            0 <= b < known.len() && (#[trigger] known[b]).runner < runners.len() && runs_for(
                runners[known[b].runner as int],
                c.slug@,
                c.node_views()[selection[i] as int],
            ) ==> says_it_builds(
                known[b],
                c.slug@,
                c.node_views()[selection[i] as int],
                runners,
            )) ==> list.contains(c.node_views()[selection[i] as int].qual_of()),
{
    named_builds_are_built(c, selection, assigned, runners, known, Seq::empty(), 0, list, x);
    let node = c.node_views()[selection[i] as int];
    if is_in_compose(node) && (forall|b: int|
        0 <= b < known.len() && (#[trigger] known[b]).runner < runners.len() && runs_for(
            runners[known[b].runner as int],
            c.slug@,
            node,
        ) ==> says_it_builds(known[b], c.slug@, node, runners)) {
        builds_are_named(c, selection, assigned, runners, known, Seq::empty(), 0, list, i);
    }
}

/// Whether a line is what a dry run says of a restart: which service it is about, and that what runs is
/// stopped before it is started.
pub open spec fn tells_of_restart(line: Seq<char>, node: NodeView, alive: Option<i32>) -> bool {
    &&& text::contains_of(line, node.qual_of() + ": would "@)
    &&& is_in_compose(node) ==> (node.kind matches NodeKindView::Service(s) && s.compose matches Some(
        reference,
    ) && text::contains_of(line, " stop "@ + reference.service + ", then up -d"@))
    &&& !is_in_compose(node) ==> text::ends_with_of(line, "start again"@)
    &&& !is_in_compose(node) && alive is Some ==> text::contains_of(
        line,
        "stop (pid "@ + text::signed_decimal_of(alive.unwrap() as int) + "), then "@,
    )
}

proof fn compose_restarts_are_told(c: Ctx, node: NodeView, mode: BuildMode, key: (Seq<char>, Seq<char>))
    requires
        node.runtime_of() == Some(Runtime::Compose),
        ctx::runner_key_of(c.slug@, node) == Some(key),
    ensures
        tells_of_restart(
            node.qual_of() + ": would run docker compose -f "@ + key.0 + " -p "@ + key.1 + " stop "@
                + start::container_name(node) + ", then up -d"@ + dryrun::build_note_of(mode)
                + " "@ + start::container_name(node),
            node,
            None,
        ),
{
    let name = start::container_name(node);
    let line = node.qual_of() + ": would run docker compose -f "@ + key.0 + " -p "@ + key.1
        + " stop "@ + name + ", then up -d"@ + dryrun::build_note_of(mode) + " "@ + name;
    reveal_strlit(": would run docker compose -f ");
    reveal_strlit(": would ");
    let long = ": would run docker compose -f "@;
    assert(long.take(8) =~= ": would "@);
    let head = node.qual_of() + ": would "@;
    let rest = line.skip(head.len() as int);
    assert(line =~= Seq::<char>::empty() + head + rest) by {
        assert(line.take(head.len() as int) =~= head);
    }
    text::part_is_contained(Seq::empty(), head, rest);
    let before = node.qual_of() + long + key.0 + " -p "@ + key.1;
    let part = " stop "@ + name + ", then up -d"@;
    let after = dryrun::build_note_of(mode) + " "@ + name;
    assert(line =~= before + part + after);
    text::part_is_contained(before, part, after);
}

proof fn host_restarts_are_told(node: NodeView, alive: Option<i32>)
    requires
        !is_in_compose(node),
    ensures
        tells_of_restart(
            node.qual_of() + ": would "@ + (match alive {
                Some(pid) => "stop (pid "@ + text::signed_decimal_of(pid as int) + "), then "@,
                None => ""@,
            }) + "start again"@,
            node,
            alive,
        ),
{
    let stop = match alive {
        Some(pid) => "stop (pid "@ + text::signed_decimal_of(pid as int) + "), then "@,
        None => ""@,
    };
    let head = node.qual_of() + ": would "@;
    let line = head + stop + "start again"@;
    assert(line =~= Seq::<char>::empty() + head + (stop + "start again"@));
    text::part_is_contained(Seq::empty(), head, stop + "start again"@);
    text::part_is_contained(head, stop, "start again"@);
    assert(line.skip(line.len() - "start again"@.len()) =~= "start again"@);
}

/// A dry run of a restart tells of every selected service in turn, and of nothing else.
pub proof fn every_restart_is_told(
    c: Ctx,
    selection: Seq<usize>,
    mode: BuildMode,
    alive: Seq<Option<i32>>,
    lines: Seq<Seq<char>>,
    k: int,
    told: Seq<Seq<char>>,
    i: int,
)
    requires
        start::restart_from(c, selection, mode, alive, lines, k) == Ok::<Seq<Seq<char>>, Seq<char>>(
            told,
        ),
        0 <= k <= selection.len(),
        0 <= i < told.len(),
    ensures
        told.len() == lines.len() + selection.len() - k,
        i < lines.len() ==> told[i] == lines[i],
        i >= lines.len() ==> tells_of_restart(
            told[i],
            c.node_views()[selection[i - lines.len() + k] as int],
            alive[i - lines.len() + k],
        ),
    decreases selection.len() - k,
{
    if k < selection.len() {
        let node = c.node_views()[selection[k] as int];
        if node.runtime_of() == Some(Runtime::Compose) {
            let key = ctx::runner_key_of(c.slug@, node)->Some_0;
            let line = node.qual_of() + ": would run docker compose -f "@ + key.0 + " -p "@ + key.1
                + " stop "@ + start::container_name(node) + ", then up -d"@
                + dryrun::build_note_of(mode) + " "@ + start::container_name(node);
            compose_restarts_are_told(c, node, mode, key);
            every_restart_is_told(c, selection, mode, alive, lines.push(line), k + 1, told, i);
        } else {
            let line = node.qual_of() + ": would "@ + (match alive[k] {
                Some(pid) => "stop (pid "@ + text::signed_decimal_of(pid as int) + "), then "@,
                None => ""@,
            }) + "start again"@;
            host_restarts_are_told(node, alive[k]);
            every_restart_is_told(c, selection, mode, alive, lines.push(line), k + 1, told, i);
        }
    }
}

} // verus!
