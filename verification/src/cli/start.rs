//! Starting and stopping a stack, step by step: what comes next, and what is said of it.

use crate::cli::wait;
use crate::compose;
use crate::compose::{ComposeRunner, ComposeRunnerView, ContainerState, ContainerStateView};
use crate::config::BuildMode;
use crate::ctx;
use crate::ctx::{Ctx, PreparedRunner, PreparedRunnerView};
use crate::dict;
use crate::dict::Dict;
use crate::dryrun;
use crate::lists;
use crate::manifest;
use crate::manifest::{Node, NodeView, Runtime, Wait};
use crate::paths;
use crate::ports::Assignment;
use crate::run;
use crate::text;
use vstd::prelude::*;

verus! {

/// What starting one node, or several compose services at once, comes to.
#[derive(Debug)]
#[allow(inconsistent_fields)]
pub enum StartStep {
    /// Run a job to completion.
    Job { node: usize, command: String },
    /// Start the compose services of some nodes with one call of a runner.
    Batch { runner: usize, nodes: Vec<usize>, services: Vec<String> },
    /// Start a host process, unless it is alive already.
    Process { node: usize, command: Option<String> },
}

/// The contents of a [`StartStep`].
#[verifier::ext_equal]
#[allow(inconsistent_fields)]
pub enum StartStepView {
    Job { node: usize, command: Seq<char> },
    Batch { runner: usize, nodes: Seq<usize>, services: Seq<Seq<char>> },
    Process { node: usize, command: Option<Seq<char>> },
}

impl View for StartStep {
    type V = StartStepView;

    open spec fn view(&self) -> StartStepView {
        match self {
            StartStep::Job { node, command } => StartStepView::Job { node: *node, command: command@ },
            StartStep::Batch { runner, nodes, services } => StartStepView::Batch { runner: *runner, nodes: nodes@, services: text::views(services@) },
            StartStep::Process { node, command } => StartStepView::Process { node: *node, command: text::opt_view(*command) },
        }
    }
}

impl Clone for StartStep {
    fn clone(&self) -> (r: Self)
        ensures
            r@ == self@,
    {
        match self {
            StartStep::Job { node, command } => StartStep::Job { node: *node, command: command.clone() },
            StartStep::Batch { runner, nodes, services } => StartStep::Batch { runner: *runner, nodes: text::clone_plain(nodes), services: text::clone_texts(services) },
            StartStep::Process { node, command } => StartStep::Process { node: *node, command: text::clone_opt(command) },
        }
    }
}

/// A step of a start, the environment it runs in, and where the selection goes on after it.
#[derive(Debug)]
pub struct Start {
    pub step: StartStep,
    pub env: Dict<String>,
    pub end: usize,
}

/// The contents of a [`Start`].
#[verifier::ext_equal]
pub struct StartView {
    pub step: StartStepView,
    pub env: Seq<(Seq<char>, Seq<char>)>,
    pub end: usize,
}

impl View for Start {
    type V = StartView;

    open spec fn view(&self) -> StartView {
        StartView {
            step: self.step@,
            env: self.env@,
            end: self.end,
        }
    }
}

impl Clone for Start {
    fn clone(&self) -> (r: Self)
        ensures
            r@ == self@,
    {
        Start {
            step: self.step.clone(),
            env: self.env.duplicate(),
            end: self.end,
        }
    }
}

/// The services of a compose project that build an image, as the runner's configuration says.
#[derive(Debug)]
pub struct Built {
    pub runner: usize,
    pub services: Vec<String>,
}

/// The contents of a [`Built`].
#[verifier::ext_equal]
pub struct BuiltView {
    pub runner: usize,
    pub services: Seq<Seq<char>>,
}

impl View for Built {
    type V = BuiltView;

    open spec fn view(&self) -> BuiltView {
        BuiltView {
            runner: self.runner,
            services: text::views(self.services@),
        }
    }
}

impl Clone for Built {
    fn clone(&self) -> (r: Self)
        ensures
            r@ == self@,
    {
        Built {
            runner: self.runner,
            services: text::clone_texts(&self.services),
        }
    }
}

/// What is seen of a service: the containers of its project, or whether its process is alive.
#[derive(Debug)]
#[allow(inconsistent_fields)]
pub enum Seen {
    Containers(Vec<ContainerState>),
    Process(bool),
}

/// The contents of a [`Seen`].
#[verifier::ext_equal]
#[allow(inconsistent_fields)]
pub enum SeenView {
    Containers(Seq<ContainerStateView>),
    Process(bool),
}

impl View for Seen {
    type V = SeenView;

    open spec fn view(&self) -> SeenView {
        match self {
            Seen::Containers(f0) => SeenView::Containers(text::views(f0@)),
            Seen::Process(f0) => SeenView::Process(*f0),
        }
    }
}

impl Clone for Seen {
    fn clone(&self) -> (r: Self)
        ensures
            r@ == self@,
    {
        match self {
            Seen::Containers(f0) => Seen::Containers(text::clone_all(f0)),
            Seen::Process(f0) => Seen::Process(*f0),
        }
    }
}

// ---------------------------------------------------------------------------
// The next step of a start
// ---------------------------------------------------------------------------

/// The runner of a compose file and project, from `k` on.
pub open spec fn runner_of(
    runners: Seq<PreparedRunnerView>,
    key: (Seq<char>, Seq<char>),
    k: int,
) -> Option<int>
    decreases runners.len() - k,
{
    if k < 0 || k >= runners.len() {
        None
    } else if ctx::same_key((runners[k].runner.file, runners[k].runner.project), key) {
        Some(k)
    } else {
        runner_of(runners, key, k + 1)
    }
}

/// The runner of a node that compose starts, or why there is none.
pub open spec fn runner_for(
    slug: Seq<char>,
    node: NodeView,
    runners: Seq<PreparedRunnerView>,
) -> Result<int, Seq<char>> {
    match ctx::runner_key_of(slug, node) {
        None => Err(node.qual_of() + ": missing compose reference"@),
        Some(key) => match runner_of(runners, key, 0) {
            None => Err(node.qual_of() + ": no compose runner"@),
            Some(k) => Ok(k),
        },
    }
}

/// The container that a node is, in its compose file.
pub open spec fn container_name(node: NodeView) -> Seq<char> {
    match node.service_of() {
        Some(service) => match service.compose {
            Some(reference) => reference.service,
            None => ""@,
        },
        None => ""@,
    }
}

/// The containers that nodes are.
pub open spec fn container_names(nodes: Seq<NodeView>, list: Seq<usize>) -> Seq<Seq<char>> {
    Seq::new(list.len(), |i: int| container_name(nodes[list[i] as int]))
}

/// Where the compose services end, from `end` on, that share a runner and an environment.
pub open spec fn group_end_from(
    c: Ctx,
    selection: Seq<usize>,
    key: (Seq<char>, Seq<char>),
    assigned: Seq<(Seq<char>, u16)>,
    vars: Seq<(Seq<char>, Seq<char>)>,
    end: int,
) -> Result<int, Seq<char>>
    decreases selection.len() - end,
{
    if end < 0 || end >= selection.len() {
        Ok(end)
    } else {
        let node = c.node_views()[selection[end] as int];
        if !ctx::has_runner(c.slug@, node, key) {
            Ok(end)
        } else {
            match c.layered(node.app, assigned, false) {
                Err(e) => Err(e),
                Ok(layers) => if layers.vars == vars {
                    group_end_from(c, selection, key, assigned, vars, end + 1)
                } else {
                    Ok(end)
                },
            }
        }
    }
}

/// The step that starts the node at a position of the selection. `alone` starts one node at a time;
/// otherwise consecutive compose services that share a runner and an environment start together:
/// compose's own dependencies decide their order.
pub open spec fn start_of(
    c: Ctx,
    selection: Seq<usize>,
    position: int,
    assigned: Seq<(Seq<char>, u16)>,
    runners: Seq<PreparedRunnerView>,
    alone: bool,
) -> Result<StartView, Seq<char>> {
    let index = selection[position];
    let node = c.node_views()[index as int];
    match c.layered(node.app, assigned, false) {
        Err(e) => Err(e),
        Ok(layers) => match node.job_of() {
            Some(job) => Ok(
                StartView {
                    step: StartStepView::Job { node: index, command: job.run },
                    env: layers.vars,
                    end: (position + 1) as usize,
                },
            ),
            None => if node.runtime_of() == Some(Runtime::Compose) {
                match runner_for(c.slug@, node, runners) {
                    Err(e) => Err(e),
                    Ok(runner) => {
                        let ended = if alone {
                            Ok(position + 1)
                        } else {
                            group_end_from(
                                c,
                                selection,
                                ctx::runner_key_of(c.slug@, node).unwrap(),
                                assigned,
                                layers.vars,
                                position + 1,
                            )
                        };
                        match ended {
                            Err(e) => Err(e),
                            Ok(end) => {
                                let batch = selection.subrange(position, end);
                                Ok(
                                    StartView {
                                        step: StartStepView::Batch {
                                            runner: runner as usize,
                                            nodes: batch,
                                            services: container_names(c.node_views(), batch),
                                        },
                                        env: layers.vars,
                                        end: end as usize,
                                    },
                                )
                            },
                        }
                    },
                }
            } else {
                Ok(
                    StartView {
                        step: StartStepView::Process { node: index, command: node.command_of() },
                        env: layers.vars,
                        end: (position + 1) as usize,
                    },
                )
            },
        },
    }
}

fn find_runner(runners: &Vec<PreparedRunner>, file: &str, project: &str) -> (r: Option<usize>)
    ensures
        match r {
            Some(k) => k < runners@.len() && runner_of(
                text::views(runners@),
                (file@, project@),
                0,
            ) == Some(k as int),
            None => runner_of(text::views(runners@), (file@, project@), 0) is None,
        },
{
    let ghost all = text::views(runners@);
    let mut k: usize = 0;
    while k < runners.len()
        invariant
            all == text::views(runners@),
            k <= runners@.len(),
            runner_of(all, (file@, project@), 0) == runner_of(all, (file@, project@), k as int),
        decreases runners@.len() - k,
    {
        assert(all[k as int] == runners@[k as int]@);
        if paths::is_same_path(&runners[k].runner.file, file) && text::same(
            &runners[k].runner.project,
            project,
        ) {
            return Some(k);
        }
        k += 1;
    }
    None
}

fn runner_at(c: &Ctx, node: &Node, runners: &Vec<PreparedRunner>) -> (r: Result<usize, String>)
    ensures
        match r {
            Ok(k) => k < runners@.len() && runner_for(c.slug@, node@, text::views(runners@)) == Ok::<
                int,
                Seq<char>,
            >(k as int),
            Err(e) => runner_for(c.slug@, node@, text::views(runners@)) == Err::<int, Seq<char>>(
                e@,
            ),
        },
{
    match c.runner_key(node) {
        None => Err(text::concat(&node.qual(), ": missing compose reference")),
        Some(key) => match find_runner(runners, &key.0, &key.1) {
            None => Err(text::concat(&node.qual(), ": no compose runner")),
            Some(k) => Ok(k),
        },
    }
}

/// The container that a node is, in its compose file.
pub fn container_of(node: &Node) -> (r: String)
    ensures
        r@ == container_name(node@),
{
    match node.service() {
        Some(service) => match &service.compose {
            Some(reference) => reference.service.clone(),
            None => text::own(""),
        },
        None => text::own(""),
    }
}

fn same_vars(a: &Dict<String>, b: &Dict<String>) -> (r: bool)
    ensures
        r == (a@ == b@),
{
    let n: usize = a.len();
    if n != b.len() {
        return false;
    }
    let mut k: usize = 0;
    while k < n
        invariant
            n == a@.len(),
            n == b@.len(),
            k <= n,
            forall|i: int| 0 <= i < k ==> #[trigger] a@[i] == b@[i],
        decreases n - k,
    {
        if !text::same(a.key_at(k), b.key_at(k)) || !text::same(a.value_at(k), b.value_at(k)) {
            assert(a@[k as int] != b@[k as int]);
            return false;
        }
        k += 1;
    }
    assert(a@ =~= b@);
    true
}

/// Where consecutive compose services end that share a runner and an environment.
///
/// Compose's `depends_on` graph owns their internal start order; each service's declared wait
/// condition is still checked before anything else starts.
pub fn compose_group_end(
    c: &Ctx,
    selection: &Vec<usize>,
    start: usize,
    key: &(String, String),
    assignment: &Assignment,
    vars: &Dict<String>,
) -> (r: Result<usize, String>)
    requires
        manifest::inside(selection@, c.nodes@.len()),
        start < selection.len(),
    ensures
        match r {
            Ok(end) => start < end <= selection@.len() && group_end_from(
                *c,
                selection@,
                (key.0@, key.1@),
                assignment@.ports,
                vars@,
                start + 1,
            ) == Ok::<int, Seq<char>>(end as int),
            Err(e) => group_end_from(
                *c,
                selection@,
                (key.0@, key.1@),
                assignment@.ports,
                vars@,
                start + 1,
            ) == Err::<int, Seq<char>>(e@),
        },
{
    let ghost wanted = (key.0@, key.1@);
    let mut end: usize = start + 1;
    while end < selection.len()
        invariant
            manifest::inside(selection@, c.nodes@.len()),
            wanted == (key.0@, key.1@),
            start < end <= selection@.len(),
            group_end_from(*c, selection@, wanted, assignment@.ports, vars@, start + 1)
                == group_end_from(*c, selection@, wanted, assignment@.ports, vars@, end as int),
        decreases selection@.len() - end,
    {
        let node = &c.nodes[selection[end]];
        assert(c.node_views()[selection@[end as int] as int] == node@);
        match c.runner_key(node) {
            None => {
                return Ok(end);
            },
            Some(other) => {
                if !paths::is_same_path(&other.0, &key.0) || !text::same(&other.1, &key.1) {
                    return Ok(end);
                }
            },
        }
        match c.node_env(node, assignment) {
            Err(e) => {
                return Err(e);
            },
            Ok(theirs) => {
                if !same_vars(&theirs, vars) {
                    return Ok(end);
                }
            },
        }
        end += 1;
    }
    Ok(end)
}

/// The step that starts the node at a position of the selection, with those that start together
/// with it.
pub fn start_at(
    c: &Ctx,
    selection: &Vec<usize>,
    position: usize,
    assignment: &Assignment,
    runners: &Vec<PreparedRunner>,
    alone: bool,
) -> (r: Result<Start, String>)
    requires
        manifest::inside(selection@, c.nodes@.len()),
        position < selection.len(),
    ensures
        match r {
            Ok(start) => start_of(
                *c,
                selection@,
                position as int,
                assignment@.ports,
                text::views(runners@),
                alone,
            ) == Ok::<StartView, Seq<char>>(start@),
            Err(e) => start_of(
                *c,
                selection@,
                position as int,
                assignment@.ports,
                text::views(runners@),
                alone,
            ) == Err::<StartView, Seq<char>>(e@),
        },
        r matches Ok(start) ==> position < start.end <= selection@.len(),
{
    let index: usize = selection[position];
    let node = &c.nodes[index];
    assert(c.node_views()[index as int] == node@);
    let env = match c.node_env(node, assignment) {
        Ok(env) => env,
        Err(e) => {
            return Err(e);
        },
    };
    if let Some(job) = node.job() {
        return Ok(
            Start {
                step: StartStep::Job { node: index, command: job.run.clone() },
                env,
                end: position + 1,
            },
        );
    }
    let contained = match node.runtime() {
        Some(Runtime::Compose) => true,
        _ => false,
    };
    if !contained {
        return Ok(
            Start {
                step: StartStep::Process { node: index, command: node.command() },
                env,
                end: position + 1,
            },
        );
    }
    let runner = match runner_at(c, node, runners) {
        Ok(runner) => runner,
        Err(e) => {
            return Err(e);
        },
    };
    let end = if alone {
        position + 1
    } else {
        match c.runner_key(node) {
            None => position + 1,
            Some(key) => match compose_group_end(c, selection, position, &key, assignment, &env) {
                Ok(end) => end,
                Err(e) => {
                    return Err(e);
                },
            },
        }
    };
    let ghost batch = selection@.subrange(position as int, end as int);
    let ghost goal = container_names(c.node_views(), batch);
    let mut nodes: Vec<usize> = Vec::new();
    let mut services: Vec<String> = Vec::new();
    let mut k: usize = position;
    assert(nodes@ =~= batch.take(0));
    assert(text::views(services@) =~= goal.take(0));
    while k < end
        invariant
            manifest::inside(selection@, c.nodes@.len()),
            position <= k <= end,
            end <= selection@.len(),
            batch == selection@.subrange(position as int, end as int),
            goal == container_names(c.node_views(), batch),
            nodes@ == batch.take(k - position),
            text::views(services@) == goal.take(k - position),
        decreases end - k,
    {
        assert(c.node_views()[selection@[k as int] as int]
            == c.nodes@[selection@[k as int] as int]@);
        assert(batch[k - position] == selection@[k as int]);
        nodes.push(selection[k]);
        text::add(&mut services, &container_of(&c.nodes[selection[k]]));
        k += 1;
        assert(nodes@ =~= batch.take(k - position));
        assert(text::views(services@) =~= goal.take(k - position));
    }
    assert(batch.take(k - position) =~= batch);
    assert(goal.take(k - position) =~= goal);
    Ok(Start { step: StartStep::Batch { runner, nodes, services }, env, end })
}

// ---------------------------------------------------------------------------
// What is said
// ---------------------------------------------------------------------------

/// What happens to a node.
#[derive(Debug, Clone, Copy, PartialEq, Eq, Structural)]
pub enum Happening {
    Running,
    Done,
    Starting,
    Restarting,
    AlreadyRunning,
    Started(i32),
    Stopped,
    NotRunning,
}

/// What is said of what happens to a node.
pub open spec fn happening_of(h: Happening) -> Seq<char> {
    match h {
        Happening::Running => "running"@,
        Happening::Done => "done"@,
        Happening::Starting => "starting container"@,
        Happening::Restarting => "restarting container"@,
        Happening::AlreadyRunning => "already running"@,
        Happening::Started(pid) => "started (pid "@ + text::signed_decimal_of(pid as int) + ")"@,
        Happening::Stopped => "stopped"@,
        Happening::NotRunning => "not running"@,
    }
}

/// What is said of what happens to a node.
pub fn happening(node: &Node, h: Happening) -> (r: String)
    ensures
        r@ == node@.qual_of() + ": "@ + happening_of(h),
{
    let what = match h {
        Happening::Running => text::own("running"),
        Happening::Done => text::own("done"),
        Happening::Starting => text::own("starting container"),
        Happening::Restarting => text::own("restarting container"),
        Happening::AlreadyRunning => text::own("already running"),
        Happening::Started(pid) => {
            let mut what = text::own("started (pid ");
            what.append(&text::signed_decimal(pid as i64));
            what.append(")");
            what
        },
        Happening::Stopped => text::own("stopped"),
        Happening::NotRunning => text::own("not running"),
    };
    let mut line = node.qual();
    line.append(": ");
    line.append(&what);
    line
}

/// Why several compose services did not start.
pub fn batch_failure(runner: &ComposeRunner, services: &Vec<String>, error: &str) -> (r: String)
    ensures
        r@ == "compose services ["@ + text::join_of(text::views(services@), ", "@)
            + "] failed to start: "@ + error@ + "\n  compose file "@ + runner@.file
            + "\n  project "@ + runner@.project + "\n  logs     docker compose -f "@ + runner@.file
            + " -p "@ + runner@.project + " logs "@ + text::join_of(text::views(services@), " "@),
{
    let mut e = text::own("compose services [");
    e.append(&text::join(services, ", "));
    e.append("] failed to start: ");
    e.append(error);
    e.append("\n  compose file ");
    e.append(&runner.file);
    e.append("\n  project ");
    e.append(&runner.project);
    e.append("\n  logs     docker compose -f ");
    e.append(&runner.file);
    e.append(" -p ");
    e.append(&runner.project);
    e.append(" logs ");
    e.append(&text::join(services, " "));
    e
}

// ---------------------------------------------------------------------------
// Builds
// ---------------------------------------------------------------------------

/// What is needed to name the services that build an image.
#[derive(Debug)]
pub enum BuildStep {
    /// Resolve the configuration of a runner, in an environment.
    Resolve { runner: usize, env: Dict<String> },
    /// The services, as the user addresses them.
    Names(Vec<String>),
}

/// What is needed, as the contracts speak of it.
#[verifier::ext_equal]
#[allow(inconsistent_fields)]
pub enum BuildNeed {
    Resolve { runner: int, vars: Seq<(Seq<char>, Seq<char>)> },
    Names(Seq<Seq<char>>),
}

/// The need that a step stands for.
pub open spec fn need_of(step: BuildStep) -> BuildNeed {
    match step {
        BuildStep::Resolve { runner, env } => BuildNeed::Resolve { runner: runner as int, vars: env@ },
        BuildStep::Names(names) => BuildNeed::Names(text::views(names@)),
    }
}

/// The services that a runner's configuration builds, from entry `k` on.
pub open spec fn built_by(known: Seq<BuiltView>, runner: int, k: int) -> Option<Seq<Seq<char>>>
    decreases known.len() - k,
{
    if k < 0 || k >= known.len() {
        None
    } else if known[k].runner == runner {
        Some(known[k].services)
    } else {
        built_by(known, runner, k + 1)
    }
}

/// What is needed to name the selected services from `k` on that build an image, after `names`.
pub open spec fn buildable_from(
    c: Ctx,
    selection: Seq<usize>,
    assigned: Seq<(Seq<char>, u16)>,
    runners: Seq<PreparedRunnerView>,
    known: Seq<BuiltView>,
    names: Seq<Seq<char>>,
    k: int,
) -> Result<BuildNeed, Seq<char>>
    decreases selection.len() - k,
{
    if k < 0 || k >= selection.len() {
        Ok(BuildNeed::Names(names))
    } else {
        let node = c.node_views()[selection[k] as int];
        if node.runtime_of() != Some(Runtime::Compose) {
            buildable_from(c, selection, assigned, runners, known, names, k + 1)
        } else {
            match runner_for(c.slug@, node, runners) {
                Err(e) => Err(e),
                Ok(runner) => match built_by(known, runner, 0) {
                    Some(services) => buildable_from(
                        c,
                        selection,
                        assigned,
                        runners,
                        known,
                        if services.contains(container_name(node)) {
                            dict::with_member(names, node.qual_of())
                        } else {
                            names
                        },
                        k + 1,
                    ),
                    None => match c.layered(node.app, assigned, false) {
                        Err(e) => Err(e),
                        Ok(layers) => Ok(BuildNeed::Resolve { runner, vars: layers.vars }),
                    },
                },
            }
        }
    }
}

fn find_built<'a>(known: &'a Vec<Built>, runner: usize) -> (r: Option<&'a Vec<String>>)
    ensures
        match r {
            Some(services) => built_by(text::views(known@), runner as int, 0) == Some(
                text::views(services@),
            ),
            None => built_by(text::views(known@), runner as int, 0) is None,
        },
{
    let ghost all = text::views(known@);
    let mut k: usize = 0;
    while k < known.len()
        invariant
            all == text::views(known@),
            k <= known@.len(),
            built_by(all, runner as int, 0) == built_by(all, runner as int, k as int),
        decreases known@.len() - k,
    {
        assert(all[k as int] == known@[k as int]@);
        if known[k].runner == runner {
            return Some(&known[k].services);
        }
        k += 1;
    }
    None
}

/// The selected services that build an image, named the way the user addresses them, in ascending
/// order. Resolving each compose file's configuration is what separates a service that builds from
/// one that only names an image: as long as one is not known yet, the answer is which.
pub fn buildable_services(
    c: &Ctx,
    selection: &Vec<usize>,
    assignment: &Assignment,
    runners: &Vec<PreparedRunner>,
    known: &Vec<Built>,
) -> (r: Result<BuildStep, String>)
    requires
        manifest::inside(selection@, c.nodes@.len()),
    ensures
        match r {
            Ok(step) => buildable_from(
                *c,
                selection@,
                assignment@.ports,
                text::views(runners@),
                text::views(known@),
                Seq::empty(),
                0,
            ) == Ok::<BuildNeed, Seq<char>>(need_of(step)),
            Err(e) => buildable_from(
                *c,
                selection@,
                assignment@.ports,
                text::views(runners@),
                text::views(known@),
                Seq::empty(),
                0,
            ) == Err::<BuildNeed, Seq<char>>(e@),
        },
{
    let ghost all = text::views(runners@);
    let ghost built = text::views(known@);
    let ghost goal = buildable_from(
        *c,
        selection@,
        assignment@.ports,
        all,
        built,
        Seq::empty(),
        0,
    );
    let mut names: Vec<String> = Vec::new();
    let mut k: usize = 0;
    assert(text::views(names@) =~= Seq::<Seq<char>>::empty());
    while k < selection.len()
        invariant
            manifest::inside(selection@, c.nodes@.len()),
            all == text::views(runners@),
            built == text::views(known@),
            k <= selection@.len(),
            goal == buildable_from(
                *c,
                selection@,
                assignment@.ports,
                all,
                built,
                Seq::empty(),
                0,
            ),
            goal == buildable_from(
                *c,
                selection@,
                assignment@.ports,
                all,
                built,
                text::views(names@),
                k as int,
            ),
        decreases selection@.len() - k,
    {
        let node = &c.nodes[selection[k]];
        assert(c.node_views()[selection@[k as int] as int] == node@);
        let contained = match node.runtime() {
            Some(Runtime::Compose) => true,
            _ => false,
        };
        if contained {
            let runner = match runner_at(c, node, runners) {
                Ok(runner) => runner,
                Err(e) => {
                    return Err(e);
                },
            };
            match find_built(known, runner) {
                Some(services) => {
                    if text::among(services, &container_of(node)) {
                        dict::add_member(&mut names, node.qual());
                    }
                },
                None => {
                    return match c.node_env(node, assignment) {
                        Ok(env) => Ok(BuildStep::Resolve { runner, env }),
                        Err(e) => Err(e),
                    };
                },
            }
        }
        k += 1;
    }
    Ok(BuildStep::Names(names))
}

// ---------------------------------------------------------------------------
// What is up
// ---------------------------------------------------------------------------

/// Whether a container state means that the container is up.
pub open spec fn up_state(state: Seq<char>) -> bool {
    state != "exited"@ && state != "dead"@ && state != "created"@ && state != ""@
}

/// Whether a service is up: its container has not exited, or its process is alive.
pub open spec fn is_up(node: NodeView, seen: SeenView) -> bool {
    match seen {
        SeenView::Containers(states) => match wait::container_named(states, container_name(node), 0) {
            Some(state) => up_state(state.state),
            None => false,
        },
        SeenView::Process(alive) => alive,
    }
}

/// What is known of the services of a stack, or which of them has to be looked at.
#[derive(Debug)]
pub enum Running {
    /// A service that is up.
    Found(String),
    /// Nothing is up.
    Nothing,
    /// A node that has to be looked at.
    Look(usize),
}

/// The first service from `k` on that is up, as far as anyone has looked.
pub open spec fn running_from(
    nodes: Seq<NodeView>,
    services: Seq<usize>,
    seen: Seq<SeenView>,
    k: int,
) -> Result<Option<Seq<char>>, usize>
    decreases services.len() - k,
{
    if k < 0 || k >= services.len() {
        Ok(None)
    } else if k >= seen.len() {
        Err(services[k])
    } else if is_up(nodes[services[k] as int], seen[k]) {
        Ok(Some(nodes[services[k] as int].qual_of()))
    } else {
        running_from(nodes, services, seen, k + 1)
    }
}

/// What is known of the services of a stack, as the contracts speak of it.
pub open spec fn known_of(r: Running) -> Result<Option<Seq<char>>, usize> {
    match r {
        Running::Found(name) => Ok(Some(name@)),
        Running::Nothing => Ok(None),
        Running::Look(node) => Err(node),
    }
}

fn find_up(node: &Node, seen: &Seen) -> (r: bool)
    ensures
        r == is_up(node@, seen@),
{
    match seen {
        Seen::Containers(states) => match wait::find_container(states, &container_of(node)) {
            Some(state) => !text::same(&state.state, "exited") && !text::same(&state.state, "dead")
                && !text::same(&state.state, "created") && !text::same(&state.state, ""),
            None => false,
        },
        Seen::Process(alive) => *alive,
    }
}

/// The first service of this worktree that is still up: a live process, or a container in the
/// worktree's own compose project that has not exited. Enough to refuse a change that would move
/// ports out from under a running stack, and to name what has to stop first. `seen` is what was
/// seen of the services so far, in their order.
pub fn running_service(c: &Ctx, seen: &Vec<Seen>) -> (r: Running)
    ensures
        known_of(r) == running_from(
            c.node_views(),
            ctx::service_indices(c.node_views()),
            text::views(seen@),
            0,
        ),
{
    let services = c.all_service_indices();
    let ghost nodes = c.node_views();
    let ghost all = text::views(seen@);
    let count: usize = c.nodes.len();
    proof {
        assert(nodes.len() == count);
        lists::indices_are_exact(
            nodes.len() as int,
            |i: int| nodes[i].service_of() is Some,
        );
    }
    let mut k: usize = 0;
    while k < services.len()
        invariant
            nodes == c.node_views(),
            all == text::views(seen@),
            services@ == ctx::service_indices(nodes),
            forall|x: usize| #[trigger] services@.contains(x) ==> x < nodes.len(),
            k <= services@.len(),
            running_from(nodes, services@, all, 0) == running_from(
                nodes,
                services@,
                all,
                k as int,
            ),
        decreases services@.len() - k,
    {
        assert(services@.contains(services@[k as int]));
        if k >= seen.len() {
            return Running::Look(services[k]);
        }
        let node = &c.nodes[services[k]];
        assert(nodes[services@[k as int] as int] == node@);
        assert(all[k as int] == seen@[k as int]@);
        if find_up(node, &seen[k]) {
            return Running::Found(node.qual());
        }
        k += 1;
    }
    Running::Nothing
}

/// Whether a compose service is up as it was started: it runs, or it was started to finish and has
/// finished well.
pub open spec fn stands(node: NodeView, states: Seq<ContainerStateView>) -> bool {
    match wait::container_named(states, container_name(node), 0) {
        Some(state) => wait::runs(state) || (node.service_of() matches Some(service) && service.wait
            == Wait::Exit && wait::says(state.state, "exited"@) && state.exit_code == Some(0i64)),
        None => false,
    }
}

/// Whether the services of a batch are all up as they were started.
pub fn batch_stands(c: &Ctx, nodes: &Vec<usize>, states: &Vec<ContainerState>) -> (r: bool)
    requires
        manifest::inside(nodes@, c.nodes@.len()),
    ensures
        r == forall|i: int|
            0 <= i < nodes@.len() ==> stands(
                c.node_views()[#[trigger] nodes@[i] as int],
                text::views(states@),
            ),
{
    let mut k: usize = 0;
    while k < nodes.len()
        invariant
            manifest::inside(nodes@, c.nodes@.len()),
            k <= nodes@.len(),
            forall|i: int|
                0 <= i < k ==> stands(
                    c.node_views()[#[trigger] nodes@[i] as int],
                    text::views(states@),
                ),
        decreases nodes@.len() - k,
    {
        let node = &c.nodes[nodes[k]];
        assert(c.node_views()[nodes@[k as int] as int] == node@);
        let one_shot = match node.service() {
            Some(service) => match service.wait {
                Wait::Exit => true,
                Wait::Running => false,
            },
            None => false,
        };
        let up = match wait::find_container(states, &container_of(node)) {
            Some(state) => wait::is_running(state) || (one_shot && text::same_ignoring_case(
                &state.state,
                "exited",
            ) && match state.exit_code {
                Some(code) => code == 0,
                None => false,
            }),
            None => false,
        };
        if !up {
            assert(!stands(c.node_views()[nodes@[k as int] as int], text::views(states@)));
            return false;
        }
        k += 1;
    }
    true
}

// ---------------------------------------------------------------------------
// Restarting
// ---------------------------------------------------------------------------

/// What a restart would do with the nodes from `k` on, after `lines`.
pub open spec fn restart_from(
    c: Ctx,
    selection: Seq<usize>,
    mode: BuildMode,
    alive: Seq<Option<i32>>,
    lines: Seq<Seq<char>>,
    k: int,
) -> Result<Seq<Seq<char>>, Seq<char>>
    decreases selection.len() - k,
{
    if k < 0 || k >= selection.len() {
        Ok(lines)
    } else {
        let node = c.node_views()[selection[k] as int];
        if node.runtime_of() == Some(Runtime::Compose) {
            match ctx::runner_key_of(c.slug@, node) {
                None => Err(node.qual_of() + ": missing compose reference"@),
                Some(key) => restart_from(
                    c,
                    selection,
                    mode,
                    alive,
                    lines.push(
                        node.qual_of() + ": would run docker compose -f "@ + key.0 + " -p "@ + key.1
                            + " stop "@ + container_name(node) + ", then up -d"@
                            + dryrun::build_note_of(mode) + " "@ + container_name(node),
                    ),
                    k + 1,
                ),
            }
        } else {
            restart_from(
                c,
                selection,
                mode,
                alive,
                lines.push(
                    node.qual_of() + ": would "@ + (match alive[k] {
                        Some(pid) => "stop (pid "@ + text::signed_decimal_of(pid as int)
                            + "), then "@,
                        None => ""@,
                    }) + "start again"@,
                ),
                k + 1,
            )
        }
    }
}

/// The compose calls that restart one service: a stop, only where the service has a container, and
/// then the start. A service that was never started, or was removed by `down`, just starts.
pub fn restart_calls(runner: &ComposeRunner, states: &Vec<ContainerState>, service: &str, build: bool) -> (r:
    (Option<Vec<String>>, Vec<String>))
    ensures
        match r.0 {
            Some(stop) => wait::container_named(text::views(states@), service@, 0) is Some
                && text::views(stop@) == seq!["stop"@, service@],
            None => wait::container_named(text::views(states@), service@, 0) is None,
        },
        text::views(r.1@) == compose::up_arguments(seq![service@], build),
{
    let stop = match wait::find_container(states, service) {
        Some(_) => Some(runner.stop_service(service)),
        None => None,
    };
    (stop, runner.up_service(service, build))
}

/// What a restart would do. `alive` holds the process of each selected node that is alive.
pub fn restart_preview(c: &Ctx, selection: &Vec<usize>, mode: BuildMode, alive: &Vec<Option<i32>>) -> (r:
    Result<Vec<String>, String>)
    requires
        manifest::inside(selection@, c.nodes@.len()),
        alive@.len() == selection@.len(),
    ensures
        match r {
            Ok(lines) => restart_from(
                *c,
                selection@,
                mode,
                alive@,
                seq!["dry run: nothing is restarted"@],
                0,
            ) == Ok::<Seq<Seq<char>>, Seq<char>>(text::views(lines@)),
            Err(e) => restart_from(
                *c,
                selection@,
                mode,
                alive@,
                seq!["dry run: nothing is restarted"@],
                0,
            ) == Err::<Seq<Seq<char>>, Seq<char>>(e@),
        },
{
    let ghost first = seq!["dry run: nothing is restarted"@];
    let mut lines: Vec<String> = text::single(text::own("dry run: nothing is restarted"));
    let mut k: usize = 0;
    assert(text::views(lines@) =~= first);
    while k < selection.len()
        invariant
            manifest::inside(selection@, c.nodes@.len()),
            alive@.len() == selection@.len(),
            first == seq!["dry run: nothing is restarted"@],
            k <= selection@.len(),
            restart_from(*c, selection@, mode, alive@, first, 0) == restart_from(
                *c,
                selection@,
                mode,
                alive@,
                text::views(lines@),
                k as int,
            ),
        decreases selection@.len() - k,
    {
        let node = &c.nodes[selection[k]];
        assert(c.node_views()[selection@[k as int] as int] == node@);
        let contained = match node.runtime() {
            Some(Runtime::Compose) => true,
            _ => false,
        };
        if contained {
            match c.runner_key(node) {
                None => {
                    return Err(text::concat(&node.qual(), ": missing compose reference"));
                },
                Some(key) => {
                    let container = container_of(node);
                    let mut line = node.qual();
                    line.append(": would run docker compose -f ");
                    line.append(&key.0);
                    line.append(" -p ");
                    line.append(&key.1);
                    line.append(" stop ");
                    line.append(&container);
                    line.append(", then up -d");
                    line.append(dryrun::build_note(mode));
                    line.append(" ");
                    line.append(&container);
                    text::add(&mut lines, &line);
                },
            }
        } else {
            let stopping = match alive[k] {
                Some(pid) => {
                    let mut stopping = text::own("stop (pid ");
                    stopping.append(&text::signed_decimal(pid as i64));
                    stopping.append("), then ");
                    stopping
                },
                None => text::own(""),
            };
            let mut line = node.qual();
            line.append(": would ");
            line.append(&stopping);
            line.append("start again");
            text::add(&mut lines, &line);
        }
        k += 1;
    }
    Ok(lines)
}

// ---------------------------------------------------------------------------
// Stopping
// ---------------------------------------------------------------------------

/// The host services among the first `k` nodes of an order, last first.
pub open spec fn hosts_reversed(nodes: Seq<NodeView>, order: Seq<usize>, k: int) -> Seq<usize>
    decreases k,
{
    if k <= 0 {
        Seq::empty()
    } else if nodes[order[k - 1] as int].runtime_of() == Some(Runtime::Host) {
        seq![order[k - 1]] + hosts_reversed(nodes, order, k - 1)
    } else {
        hosts_reversed(nodes, order, k - 1)
    }
}

/// The host services in the order they are stopped: the reverse of the order they start in.
pub open spec fn stop_order_of(nodes: Seq<NodeView>, edges: Seq<Seq<usize>>) -> Result<
    Seq<usize>,
    Seq<char>,
> {
    match manifest::order_of(nodes, edges, ctx::service_indices(nodes)) {
        Err(e) => Err(e),
        Ok(order) => Ok(hosts_reversed(nodes, order, order.len() as int)),
    }
}

/// The host services in the order they are stopped: the reverse of the order they start in.
pub fn stop_order(c: &Ctx) -> (r: Result<Vec<usize>, String>)
    requires
        c.well_formed(),
    ensures
        match r {
            Ok(v) => stop_order_of(c.node_views(), text::views(c.edges@)) == Ok::<
                Seq<usize>,
                Seq<char>,
            >(v@),
            Err(e) => stop_order_of(c.node_views(), text::views(c.edges@)) == Err::<
                Seq<usize>,
                Seq<char>,
            >(e@),
        },
        r matches Ok(v) ==> manifest::inside(v@, c.nodes@.len()),
{
    let ghost nodes = c.node_views();
    let ghost edges = text::views(c.edges@);
    let services = c.all_service_indices();
    let count: usize = c.nodes.len();
    proof {
        assert(nodes.len() == count);
        lists::indices_are_exact(
            nodes.len() as int,
            |i: int| nodes[i].service_of() is Some,
        );
        ctx::edges_form_a_graph(nodes, edges);
        assert forall|i: int| 0 <= i < services@.len() implies #[trigger] services@[i]
            < nodes.len() by {
            assert(services@.contains(services@[i]));
        }
        manifest::order_is_sound(nodes, edges, services@, Set::full());
    }
    let order = match manifest::order(&c.nodes, &c.edges, &services) {
        Ok(order) => order,
        Err(e) => {
            return Err(e);
        },
    };
    assert forall|i: int| 0 <= i < order@.len() implies #[trigger] order@[i] < nodes.len() by {
        assert(order@.contains(order@[i]));
    }
    let mut out: Vec<usize> = Vec::new();
    let mut k: usize = order.len();
    let ghost goal = hosts_reversed(nodes, order@, order@.len() as int);
    assert(out@ + hosts_reversed(nodes, order@, k as int) =~= goal);
    while k > 0
        invariant
            nodes == c.node_views(),
            k <= order@.len(),
            forall|i: int| 0 <= i < order@.len() ==> #[trigger] order@[i] < nodes.len(),
            goal == hosts_reversed(nodes, order@, order@.len() as int),
            out@ + hosts_reversed(nodes, order@, k as int) == goal,
            manifest::inside(out@, c.nodes@.len()),
        decreases k,
    {
        let ghost before = out@;
        k -= 1;
        let index = order[k];
        assert(nodes[index as int] == c.nodes@[index as int]@);
        let host = match c.nodes[index].runtime() {
            Some(Runtime::Host) => true,
            _ => false,
        };
        if host {
            out.push(index);
            assert(out@ + hosts_reversed(nodes, order@, k as int) =~= before + (seq![index]
                + hosts_reversed(nodes, order@, k as int)));
        }
    }
    assert(out@ =~= goal);
    Ok(out)
}

/// What `down` would do with the processes of the first `k` nodes.
pub open spec fn stop_lines(nodes: Seq<NodeView>, order: Seq<usize>, pids: Seq<Option<i32>>, k: int) -> Seq<
    Seq<char>,
>
    decreases k,
{
    if k <= 0 {
        Seq::empty()
    } else {
        let before = stop_lines(nodes, order, pids, k - 1);
        match pids[k - 1] {
            Some(pid) => before.push(
                "would stop "@ + nodes[order[k - 1] as int].qual_of() + " (pid "@
                    + text::signed_decimal_of(pid as int) + ")"@,
            ),
            None => before,
        }
    }
}

/// What `down` would do with the first `k` compose projects.
pub open spec fn project_lines(keys: Seq<(Seq<char>, Seq<char>)>, volumes: bool, k: int) -> Seq<
    Seq<char>,
>
    decreases k,
{
    if k <= 0 {
        Seq::empty()
    } else {
        project_lines(keys, volumes, k - 1).push(
            "would run docker compose -f "@ + keys[k - 1].0 + " -p "@ + keys[k - 1].1
                + " down --remove-orphans"@ + (if volumes {
                " --volumes"@
            } else {
                ""@
            }),
        )
    }
}

/// What `down` would do. `pids` holds the recorded process of each node of the order.
pub fn down_preview(c: &Ctx, order: &Vec<usize>, pids: &Vec<Option<i32>>, volumes: bool) -> (r: Vec<
    String,
>)
    requires
        manifest::inside(order@, c.nodes@.len()),
        pids@.len() == order@.len(),
    ensures
        text::views(r@) == seq!["dry run: nothing is stopped"@] + stop_lines(
            c.node_views(),
            order@,
            pids@,
            order@.len() as int,
        ) + project_lines(
            ctx::keys_among(
                c.slug@,
                c.node_views(),
                ctx::any_key(),
                c.node_views().len() as int,
            ),
            volumes,
            ctx::keys_among(
                c.slug@,
                c.node_views(),
                ctx::any_key(),
                c.node_views().len() as int,
            ).len() as int,
        ),
{
    let ghost nodes = c.node_views();
    let mut lines: Vec<String> = text::single(text::own("dry run: nothing is stopped"));
    let ghost first = text::views(lines@);
    assert(first =~= seq!["dry run: nothing is stopped"@]);
    let mut k: usize = 0;
    assert(first + Seq::<Seq<char>>::empty() =~= first);
    while k < order.len()
        invariant
            nodes == c.node_views(),
            manifest::inside(order@, c.nodes@.len()),
            pids@.len() == order@.len(),
            k <= order@.len(),
            text::views(lines@) == first + stop_lines(nodes, order@, pids@, k as int),
        decreases order@.len() - k,
    {
        let node = &c.nodes[order[k]];
        assert(nodes[order@[k as int] as int] == node@);
        if let Some(pid) = pids[k] {
            let mut line = text::own("would stop ");
            line.append(&node.qual());
            line.append(" (pid ");
            line.append(&text::signed_decimal(pid as i64));
            line.append(")");
            text::add(&mut lines, &line);
        }
        k += 1;
        assert(text::views(lines@) =~= first + stop_lines(nodes, order@, pids@, k as int));
    }
    let ghost second = text::views(lines@);
    let identities = c.compose_identities();
    let ghost keys = text::pair_views(identities@);
    let mut k: usize = 0;
    assert(second + Seq::<Seq<char>>::empty() =~= second);
    while k < identities.len()
        invariant
            keys == text::pair_views(identities@),
            k <= identities@.len(),
            text::views(lines@) == second + project_lines(keys, volumes, k as int),
        decreases identities@.len() - k,
    {
        let mut line = text::own("would run docker compose -f ");
        line.append(&identities[k].0);
        line.append(" -p ");
        line.append(&identities[k].1);
        line.append(" down --remove-orphans");
        line.append(
            if volumes {
                " --volumes"
            } else {
                ""
            },
        );
        text::add(&mut lines, &line);
        k += 1;
        assert(text::views(lines@) =~= second + project_lines(keys, volumes, k as int));
    }
    lines
}

/// Whether a recorded process belongs to one of the host services of an order.
pub open spec fn is_known(nodes: Seq<NodeView>, order: Seq<usize>, name: Seq<char>) -> bool {
    exists|i: int|
        0 <= i < order.len() && run::sanitized(nodes[#[trigger] order[i] as int].qual_of()) == name
}

/// What is said of a recorded process that was stopped and whose service no longer exists in the
/// manifest.
pub fn stale_line(c: &Ctx, order: &Vec<usize>, name: &str) -> (r: Option<String>)
    requires
        manifest::inside(order@, c.nodes@.len()),
    ensures
        text::opt_view(r) == (if is_known(c.node_views(), order@, name@) {
            None
        } else {
            Some(name@ + ": stopped (stale)"@)
        }),
{
    let ghost nodes = c.node_views();
    let mut k: usize = 0;
    while k < order.len()
        invariant
            nodes == c.node_views(),
            manifest::inside(order@, c.nodes@.len()),
            k <= order@.len(),
            forall|i: int|
                0 <= i < k ==> run::sanitized(nodes[#[trigger] order@[i] as int].qual_of()) != name@,
        decreases order@.len() - k,
    {
        assert(nodes[order@[k as int] as int] == c.nodes@[order@[k as int] as int]@);
        if text::same(&run::sanitize(&c.nodes[order[k]].qual()), name) {
            return None;
        }
        k += 1;
    }
    Some(text::concat(name, ": stopped (stale)"))
}

// ---------------------------------------------------------------------------
// Laws
// ---------------------------------------------------------------------------

/// A start moves on: every step takes at least the node it was asked for, and a batch holds exactly
/// the nodes up to where the selection goes on, all with one runner.
pub proof fn starts_move_on(
    c: Ctx,
    selection: Seq<usize>,
    position: int,
    assigned: Seq<(Seq<char>, u16)>,
    runners: Seq<PreparedRunnerView>,
    alone: bool,
)
    requires
        0 <= position < selection.len(),
        selection.len() <= usize::MAX,
    ensures
        match start_of(c, selection, position, assigned, runners, alone) {
            Ok(start) => {
                &&& position < start.end <= selection.len()
                &&& start.step is Batch ==> start.step->nodes == selection.subrange(
                    position,
                    start.end as int,
                ) && forall|i: int|
                    position < i < start.end ==> ctx::has_runner(
                        c.slug@,
                        c.node_views()[#[trigger] selection[i] as int],
                        ctx::runner_key_of(
                            c.slug@,
                            c.node_views()[selection[position] as int],
                        ).unwrap(),
                    )
            },
            Err(_) => true,
        },
{
    let node = c.node_views()[selection[position] as int];
    if let Ok(layers) = c.layered(node.app, assigned, false) {
        if let Some(key) = ctx::runner_key_of(c.slug@, node) {
            group_end_is_sound(c, selection, key, assigned, layers.vars, position + 1);
        }
    }
}

proof fn group_end_is_sound(
    c: Ctx,
    selection: Seq<usize>,
    key: (Seq<char>, Seq<char>),
    assigned: Seq<(Seq<char>, u16)>,
    vars: Seq<(Seq<char>, Seq<char>)>,
    end: int,
)
    requires
        0 <= end <= selection.len(),
    ensures
        match group_end_from(c, selection, key, assigned, vars, end) {
            Ok(e) => end <= e <= selection.len() && forall|i: int|
                end <= i < e ==> ctx::has_runner(
                    c.slug@,
                    c.node_views()[#[trigger] selection[i] as int],
                    key,
                ),
            Err(_) => true,
        },
    decreases selection.len() - end,
{
    if end < selection.len() {
        group_end_is_sound(c, selection, key, assigned, vars, end + 1);
    }
}

} // verus!
