//! The commands: what they are asked, what they decide, and what they say.

use crate::config::{BuildMode, ReconcileMode};
use crate::ctx;
use crate::ctx::Ctx;
use crate::env;
use crate::env::EnvPlan;
use crate::manifest;
use crate::manifest::{Node, NodeView};
use crate::ports;
use crate::ports::{Assignment, AssignmentView, PortMode};
use crate::text;
use crate::update;
use crate::worktrees::{RecordedWorktree, RecordedWorktreeView};
use vstd::prelude::*;

pub mod laws;
pub mod setup;
pub mod show;
pub mod start;
pub mod wait;

verus! {

// ---------------------------------------------------------------------------
// Arguments
// ---------------------------------------------------------------------------

#[derive(Debug)]
pub struct UpdateArgs {
    /// Say whether a newer release exists, and install nothing.
    pub check: bool,
    /// Install the latest release even when this binary is that version.
    pub force: bool,
}

#[derive(Debug)]
pub struct DiscoverArgs {
    /// Write the report to this path instead of stdout.
    pub report: Option<String>,
    /// Emit JSON (the default when writing to a file).
    pub json: bool,
    /// Print the answer set implied by the report's defaults.
    pub default_answers: bool,
    pub cwd: Option<String>,
}

#[derive(Debug)]
pub struct InitArgs {
    /// Answers produced from a discovery report.
    pub answers: Option<String>,
    /// Accept every default without prompting.
    pub accept_defaults: bool,
    /// Regenerate existing manifests from discovery, discarding local edits. Without it, an
    /// existing manifest only gains the services it lacks.
    pub force: bool,
    /// Ask every question again, ignoring the answers the manifest records.
    pub reanswer: bool,
    /// Print the manifests without writing them.
    pub print: bool,
    /// Also write the answers used, so the run can be replayed.
    pub save_answers: Option<String>,
    pub cwd: Option<String>,
}

#[derive(Debug)]
pub struct DoctorArgs {
    pub cwd: Option<String>,
}

#[derive(Debug)]
pub struct NewArgs {
    /// Branch to check out, creating it when it does not exist.
    pub branch: String,
    /// Base revision for a new branch (defaults to HEAD).
    pub base: Option<String>,
    /// Explicit checkout directory.
    pub path: Option<String>,
    /// Create a detached worktree at the base revision.
    pub detach: bool,
    /// Create the worktree without starting its stack.
    pub no_up: bool,
    pub cwd: Option<String>,
}

#[derive(Debug)]
pub struct RmArgs {
    /// Worktree path, branch, directory name, or an id from a listing.
    pub target: String,
    /// Discard uncommitted changes in the worktree.
    pub force: bool,
    /// Skip `down` before removing.
    pub no_down: bool,
    /// Also remove compose volumes.
    pub volumes: bool,
    pub cwd: Option<String>,
}

#[derive(Debug)]
pub struct ListArgs {
    /// Every recorded worktree, in every repository.
    pub all: bool,
    pub cwd: Option<String>,
}

#[derive(Debug)]
pub struct GcArgs {
    /// Also run `git worktree prune` for removed checkouts.
    pub prune: bool,
    /// Sweep every repository the state dir holds a record of, including ones whose repository is
    /// itself gone.
    pub all: bool,
    pub cwd: Option<String>,
}

#[derive(Debug)]
pub struct UpArgs {
    /// Services to start (id or app:id). Defaults to the current app, or everything at the
    /// workspace root.
    pub services: Vec<String>,
    /// Restrict to whole apps.
    pub apps: Vec<String>,
    /// Start every service in the repository.
    pub all: bool,
    /// Build the compose images before starting them, whatever `build` in config.toml says.
    pub build: bool,
    /// Skip building the images of the compose services being started, whatever `build` in
    /// config.toml says.
    pub no_build: bool,
    /// Reconcile compose projects that are already up, whatever `reconcile` in config.toml says.
    pub refresh: bool,
    /// Which ports to use: `declared` takes each service's `prefer`, `generated` allocates every
    /// port from this worktree's block. Changing the mode re-allocates the worktree's ports.
    pub ports: Option<PortMode>,
    /// Directory to resolve the repository from.
    pub cwd: Option<String>,
}

#[derive(Debug)]
pub struct DownArgs {
    /// Also remove named volumes (destroys per-worktree database state).
    pub volumes: bool,
    pub cwd: Option<String>,
}

#[derive(Debug)]
pub struct RestartArgs {
    /// Services to restart (id or app:id). Dependencies are left alone; each service keeps its
    /// assigned port and environment.
    pub services: Vec<String>,
    /// Build the compose images before starting them, whatever `build` in config.toml says.
    pub build: bool,
    /// Skip building the images of the compose services being restarted, whatever `build` in
    /// config.toml says.
    pub no_build: bool,
    pub cwd: Option<String>,
}

#[derive(Debug)]
pub struct StatusArgs {
    /// Also run each service's health probe (may take a few seconds).
    pub probe: bool,
    pub cwd: Option<String>,
}

#[derive(Debug)]
pub struct LogsArgs {
    /// The service whose output is printed; the whole stack's where `all` is set.
    pub service: Option<String>,
    pub all: bool,
    pub follow: bool,
    pub lines: usize,
    pub cwd: Option<String>,
}

#[derive(Debug)]
pub struct PortsArgs {
    /// Discard the current assignment and allocate fresh ports in the mode this worktree recorded.
    pub reassign: bool,
    /// Drop the assignment and allocate nothing: this worktree's ports stop being reserved, and
    /// the next `up` allocates from scratch.
    pub release: bool,
    pub cwd: Option<String>,
}

#[derive(Debug)]
pub struct ExecArgs {
    /// Run with a specific app's environment instead of the current app's.
    pub app: Option<String>,
    /// Directory to resolve the repository from; the command runs there.
    pub cwd: Option<String>,
    /// Command and arguments, taken verbatim.
    pub command: Vec<String>,
}

#[derive(Debug)]
pub struct EnvArgs {
    /// Show the merged environment of a specific app.
    pub app: Option<String>,
    /// Emit `export KEY=value` lines.
    pub export: bool,
    /// Show which layer set each value.
    pub explain: bool,
    pub cwd: Option<String>,
}

// ---------------------------------------------------------------------------
// Build and reconcile
// ---------------------------------------------------------------------------

/// The build decision of a run, from the configured mode and the two flags.
pub open spec fn built_as(configured: BuildMode, force: bool, skip: bool) -> BuildMode {
    match (force, skip) {
        (true, _) => BuildMode::Always,
        (false, true) => BuildMode::Never,
        (false, false) => configured,
    }
}

/// The build decision for this run. The command line wins over the configured mode, so `--build`
/// forces a build and `--no-build` skips one whatever `config.toml` says; with neither flag the
/// configured `build` applies.
pub fn build_mode(configured: BuildMode, force: bool, skip: bool) -> (r: BuildMode)
    ensures
        r == (if force {
            BuildMode::Always
        } else if skip {
            BuildMode::Never
        } else {
            configured
        }),
        r == built_as(configured, force, skip),
{
    if force {
        BuildMode::Always
    } else if skip {
        BuildMode::Never
    } else {
        configured
    }
}

/// What `up` does about building compose images.
#[derive(Debug)]
pub enum BuildChoice {
    Build,
    Skip,
    /// Ask once, and build on a yes.
    Ask(String),
}

/// Whether images are built without a question, and whether the question is put.
pub open spec fn image_plan(mode: BuildMode, buildable: nat) -> (bool, bool) {
    (mode == BuildMode::Always, mode == BuildMode::Ask && buildable > 0)
}

/// Whether this run builds compose images, asking once when the mode says so. A selection with
/// nothing to build never asks, so `build = "ask"` stays quiet in a stack that only pulls.
pub fn compose_build(mode: BuildMode, buildable: &Vec<String>) -> (r: BuildChoice)
    ensures
        match mode {
            BuildMode::Always => r is Build,
            BuildMode::Never => r is Skip,
            BuildMode::Ask => if buildable@.len() == 0 {
                r is Skip
            } else {
                r matches BuildChoice::Ask(question) && question@ == "Build images for "@
                    + text::join_of(text::views(buildable@), ", "@)
            },
        },
        (r is Build, r is Ask) == image_plan(mode, buildable@.len()),
{
    match mode {
        BuildMode::Always => BuildChoice::Build,
        BuildMode::Never => BuildChoice::Skip,
        BuildMode::Ask => if buildable.len() == 0 {
            BuildChoice::Skip
        } else {
            BuildChoice::Ask(text::concat("Build images for ", &text::join(buildable, ", ")))
        },
    }
}

/// Whether a compose project is left as it is.
pub open spec fn left_alone(
    mode: ReconcileMode,
    refresh: bool,
    up: bool,
    started_with: Option<Seq<char>>,
    now: Seq<char>,
) -> bool {
    match started_with {
        Some(before) => mode == ReconcileMode::Auto && !refresh && up && before == now,
        None => false,
    }
}

/// Whether `up` reconciles a compose project: every time, or, where it is told to leave an
/// unchanged one alone, unless the project is already up on the configuration it was started with.
pub fn reconciles(mode: ReconcileMode, refresh: bool, up: bool, started_with: &Option<String>, now: &str) -> (r:
    bool)
    ensures
        r == !(mode == ReconcileMode::Auto && !refresh && up && text::opt_view(*started_with)
            == Some(now@)),
        r == !left_alone(mode, refresh, up, text::opt_view(*started_with), now@),
{
    let unchanged = match started_with {
        Some(before) => text::same(before, now),
        None => false,
    };
    match mode {
        ReconcileMode::Always => true,
        ReconcileMode::Auto => refresh || !up || !unchanged,
    }
}

// ---------------------------------------------------------------------------
// Updating
// ---------------------------------------------------------------------------

/// What `update` does about the latest release.
#[derive(Debug)]
pub enum UpdateAction {
    Say(String),
    Install,
}

/// Whether `update` installs the latest release.
pub open spec fn installs(check: bool, force: bool, current: Seq<char>, latest: Seq<char>) -> bool {
    !check && (force || update::newer(latest, current))
}

/// What `update` does: it installs a newer release, or the latest one where it is forced to, and
/// `--check` only says what there is.
pub fn update_action(args: &UpdateArgs, current: &str, latest: &str) -> (r: UpdateAction)
    ensures
        ({
            let stale = update::newer(latest@, current@);
            match r {
                UpdateAction::Install => !args.check && (stale || args.force),
                UpdateAction::Say(line) => (args.check || (!stale && !args.force)) && line@ == (
                if stale {
                    "magictree "@ + latest@ + " is available (this is "@ + current@ + ")"@
                } else {
                    "magictree "@ + current@ + " is the latest release"@
                }),
            }
        }),
        r is Install <==> installs(args.check, args.force, current@, latest@),
{
    let stale = update::is_newer(latest, current);
    if !args.check && (stale || args.force) {
        return UpdateAction::Install;
    }
    if stale {
        let mut line = text::own("magictree ");
        line.append(latest);
        line.append(" is available (this is ");
        line.append(current);
        line.append(")");
        UpdateAction::Say(line)
    } else {
        let mut line = text::own("magictree ");
        line.append(current);
        line.append(" is the latest release");
        UpdateAction::Say(line)
    }
}

/// Whether a command ends by naming a newer release: `update` is about the binary itself, a failed
/// command has said enough of its own, and a dry run writes nothing, not even the check's cache.
pub fn announces(updating: bool, dry_run: bool, succeeded: bool) -> (r: bool)
    ensures
        r == (!updating && !dry_run && succeeded),
{
    !updating && !dry_run && succeeded
}

// ---------------------------------------------------------------------------
// Selection
// ---------------------------------------------------------------------------

/// The first node, from `k` on, that goes by a name.
pub open spec fn position_of(nodes: Seq<NodeView>, name: Seq<char>, k: int) -> Option<int>
    decreases nodes.len() - k,
{
    if k < 0 || k >= nodes.len() {
        None
    } else if nodes[k].id == name || nodes[k].qual_of() == name {
        Some(k)
    } else {
        position_of(nodes, name, k + 1)
    }
}

/// Why the names from `k` on cannot be restarted.
pub open spec fn restart_error(nodes: Seq<NodeView>, names: Seq<Seq<char>>, k: int) -> Option<
    Seq<char>,
>
    decreases names.len() - k,
{
    if k < 0 || k >= names.len() {
        None
    } else {
        match position_of(nodes, names[k], 0) {
            None => Some("unknown service '"@ + names[k] + "'"@),
            Some(i) => if nodes[i].job_of() is Some {
                Some(
                    "'"@ + names[k] + "' is a job, not a service; only services can be restarted"@,
                )
            } else {
                restart_error(nodes, names, k + 1)
            },
        }
    }
}

/// Whether a node is named.
pub open spec fn is_restarted(nodes: Seq<NodeView>, names: Seq<Seq<char>>) -> spec_fn(int) -> bool {
    |i: int| exists|k: int| 0 <= k < names.len() && position_of(nodes, #[trigger] names[k], 0) == Some(i)
}

/// The nodes that `restart` touches, in dependency order.
pub open spec fn restart_of(nodes: Seq<NodeView>, edges: Seq<Seq<usize>>, names: Seq<Seq<char>>) -> Result<
    Seq<usize>,
    Seq<char>,
> {
    match restart_error(nodes, names, 0) {
        Some(e) => Err(e),
        None => manifest::order_selected_of(
            nodes,
            edges,
            crate::lists::indices(nodes.len() as int, is_restarted(nodes, names)),
        ),
    }
}

fn find_position(nodes: &Vec<Node>, name: &str) -> (r: Option<usize>)
    ensures
        match r {
            Some(i) => i < nodes@.len() && position_of(text::views(nodes@), name@, 0) == Some(
                i as int,
            ),
            None => position_of(text::views(nodes@), name@, 0) is None,
        },
{
    let ghost all = text::views(nodes@);
    let mut k: usize = 0;
    while k < nodes.len()
        invariant
            all == text::views(nodes@),
            k <= nodes@.len(),
            position_of(all, name@, 0) == position_of(all, name@, k as int),
        decreases nodes@.len() - k,
    {
        assert(all[k as int] == nodes@[k as int]@);
        if text::same(&nodes[k].id, name) || text::same(&nodes[k].qual(), name) {
            return Some(k);
        }
        k += 1;
    }
    None
}

proof fn selection_is_inside(nodes: Seq<NodeView>, names: Seq<Seq<char>>, n: int)
    ensures
        manifest::inside(
            crate::lists::indices(n, is_restarted(nodes, names)),
            if n < 0 {
                0
            } else {
                n as nat
            },
        ),
    decreases n,
{
    if n > 0 {
        selection_is_inside(nodes, names, n - 1);
    }
}

/// Resolve the names given to `restart` into dependency-ordered indices. Nothing is pulled in:
/// restart touches exactly the services named.
pub fn restart_selection(c: &Ctx, names: &Vec<String>) -> (r: Result<Vec<usize>, String>)
    requires
        c.well_formed(),
    ensures
        match r {
            Ok(v) => restart_of(c.node_views(), text::views(c.edges@), text::views(names@)) == Ok::<
                Seq<usize>,
                Seq<char>,
            >(v@),
            Err(e) => restart_of(c.node_views(), text::views(c.edges@), text::views(names@))
                == Err::<Seq<usize>, Seq<char>>(e@),
        },
{
    let ghost nodes = c.node_views();
    let ghost all = text::views(names@);
    let mut marked: Vec<bool> = Vec::new();
    while marked.len() < c.nodes.len()
        invariant
            marked@.len() <= c.nodes@.len(),
            forall|i: int| 0 <= i < marked@.len() ==> !marked@[i],
        decreases c.nodes@.len() - marked@.len(),
    {
        marked.push(false);
    }
    let mut k: usize = 0;
    while k < names.len()
        invariant
            nodes == c.node_views(),
            all == text::views(names@),
            marked@.len() == c.nodes@.len(),
            k <= names@.len(),
            restart_error(nodes, all, 0) == restart_error(nodes, all, k as int),
            forall|i: int|
                0 <= i < marked@.len() ==> (#[trigger] marked@[i] == exists|j: int|
                    0 <= j < k && position_of(nodes, #[trigger] all[j], 0) == Some(i)),
        decreases names@.len() - k,
    {
        let name = &names[k];
        assert(all[k as int] == name@);
        let i = match find_position(&c.nodes, name) {
            Some(i) => i,
            None => {
                let mut e = text::own("unknown service '");
                e.append(name);
                e.append("'");
                return Err(e);
            },
        };
        assert(nodes[i as int] == c.nodes@[i as int]@);
        if c.nodes[i].job().is_some() {
            let mut e = text::own("'");
            e.append(name);
            e.append("' is a job, not a service; only services can be restarted");
            return Err(e);
        }
        let ghost before = marked@;
        marked.set(i, true);
        assert forall|m: int| 0 <= m < marked@.len() implies (#[trigger] marked@[m] == exists|j: int|
            0 <= j < k + 1 && position_of(nodes, #[trigger] all[j], 0) == Some(m)) by {
            if m == i {
                assert(position_of(nodes, all[k as int], 0) == Some(m));
            } else {
                assert(marked@[m] == before[m]);
            }
        }
        k += 1;
    }
    let ghost p = is_restarted(nodes, all);
    let mut selection: Vec<usize> = Vec::new();
    let mut i: usize = 0;
    while i < marked.len()
        invariant
            nodes == c.node_views(),
            all == text::views(names@),
            p == is_restarted(nodes, all),
            marked@.len() == c.nodes@.len(),
            i <= marked@.len(),
            forall|i: int|
                0 <= i < marked@.len() ==> (#[trigger] marked@[i] == exists|j: int|
                    0 <= j < all.len() && position_of(nodes, #[trigger] all[j], 0) == Some(i)),
            selection@ == crate::lists::indices(i as int, p),
        decreases marked@.len() - i,
    {
        assert(p(i as int) == marked@[i as int]);
        if marked[i] {
            selection.push(i);
        }
        i += 1;
    }
    proof {
        selection_is_inside(nodes, all, i as int);
        ctx::edges_form_a_graph(nodes, text::views(c.edges@));
    }
    manifest::order_selected(&c.nodes, &c.edges, &selection)
}

/// The app whose environment is shown: the one named, or that of the current directory.
pub fn chosen_app(named: &Option<String>, c: &Ctx) -> (r: Option<String>)
    ensures
        text::opt_view(r) == (match *named {
            Some(app) => Some(app@),
            None => c.loaded@.current_app,
        }),
{
    match named {
        Some(app) => Some(app.clone()),
        None => text::clone_opt(&c.loaded.current_app),
    }
}

/// The environment as `env` prints it.
pub fn env_text(args: &EnvArgs, plan: &EnvPlan) -> (r: String)
    ensures
        r@ == (if args.explain {
            env::explained(plan.vars@, plan.sources@, env::key_width(plan.vars@))
        } else if args.export {
            env::lines_with("export "@, plan.vars@)
        } else {
            env::lines_with(""@, plan.vars@)
        }),
{
    if args.explain {
        plan.explain()
    } else if args.export {
        plan.export()
    } else {
        plan.dotenv()
    }
}

// ---------------------------------------------------------------------------
// Worktrees
// ---------------------------------------------------------------------------

/// The checkouts of the first `k` records, one per line.
pub open spec fn checkout_lines(rows: Seq<RecordedWorktreeView>, k: int) -> Seq<char>
    decreases k,
{
    if k <= 0 {
        Seq::empty()
    } else {
        checkout_lines(rows, k - 1) + "\n  "@ + (match rows[k - 1].path {
            Some(path) => path,
            None => rows[k - 1].repo_key + "/"@ + rows[k - 1].worktree_id,
        })
    }
}

/// Why `rm` refuses a primary checkout.
pub open spec fn primary_refused(target: Seq<char>) -> Seq<char> {
    "'"@ + target + "' is a repository's primary checkout, which `rm` does not remove"@
}

/// The checkout that `rm` removes: one of this repository first, then the one record that the
/// target names. A primary checkout is the repository's own and is refused, and so is a name that
/// several records share.
pub open spec fn removal_of(
    found: Option<Seq<char>>,
    primary: bool,
    rows: Seq<RecordedWorktreeView>,
    target: Seq<char>,
) -> Result<Seq<char>, Seq<char>> {
    if primary {
        Err(primary_refused(target))
    } else {
        match found {
            Some(path) => Ok(path),
            None => if rows.len() == 0 {
                Err("no worktree matches '"@ + target + "'"@)
            } else if rows.len() > 1 {
                Err(
                    "'"@ + target + "' names several worktrees; name one by its path:"@
                        + checkout_lines(rows, rows.len() as int),
                )
            } else if rows[0].worktree_id == "main"@ {
                Err(primary_refused(target))
            } else {
                match rows[0].path {
                    Some(path) => Ok(path),
                    None => Err("no worktree matches '"@ + target + "'"@),
                }
            },
        }
    }
}

fn refuse_primary(target: &str) -> (r: String)
    ensures
        r@ == primary_refused(target@),
{
    let mut e = text::own("'");
    e.append(target);
    e.append("' is a repository's primary checkout, which `rm` does not remove");
    e
}

/// Accept a path, a branch name, a directory name, or an id from a listing for `rm`. `found` is the
/// linked worktree of the current repository that the target names, `primary` says whether it names
/// a primary checkout, and `rows` are the records it names in any repository.
pub fn resolve_target(
    found: &Option<String>,
    primary: bool,
    rows: &Vec<RecordedWorktree>,
    target: &str,
) -> (r: Result<String, String>)
    ensures
        match r {
            Ok(path) => removal_of(text::opt_view(*found), primary, text::views(rows@), target@) == Ok::<
                Seq<char>,
                Seq<char>,
            >(path@),
            Err(e) => removal_of(text::opt_view(*found), primary, text::views(rows@), target@) == Err::<
                Seq<char>,
                Seq<char>,
            >(e@),
        },
{
    if primary {
        return Err(refuse_primary(target));
    }
    if let Some(path) = found {
        return Ok(path.clone());
    }
    let ghost all = text::views(rows@);
    if rows.len() == 1 {
        let row = &rows[0];
        assert(all[0] == row@);
        if text::same(&row.worktree_id, "main") {
            return Err(refuse_primary(target));
        }
        if let Some(path) = &row.path {
            return Ok(path.clone());
        }
    }
    if rows.len() <= 1 {
        let mut e = text::own("no worktree matches '");
        e.append(target);
        e.append("'");
        return Err(e);
    }
    let mut list = text::own("");
    proof {
        reveal_strlit("");
    }
    assert(list@ =~= Seq::<char>::empty());
    let mut k: usize = 0;
    while k < rows.len()
        invariant
            all == text::views(rows@),
            k <= rows@.len(),
            list@ == checkout_lines(all, k as int),
        decreases rows@.len() - k,
    {
        let row = &rows[k];
        assert(all[k as int] == row@);
        list.append("\n  ");
        match &row.path {
            Some(path) => {
                list.append(path);
            },
            None => {
                let mut name = row.repo_key.clone();
                name.append("/");
                name.append(&row.worktree_id);
                list.append(&name);
            },
        }
        k += 1;
    }
    let mut e = text::own("'");
    e.append(target);
    e.append("' names several worktrees; name one by its path:");
    e.append(&list);
    Err(e)
}

/// What `rm` would do.
pub fn removal_preview(target: &str, force: bool) -> (r: Vec<String>)
    ensures
        text::views(r@) == seq![
            "dry run: nothing is stopped or removed"@,
            "would run down in "@ + target@,
            "would run git worktree remove "@ + target@ + (if force {
                " --force"@
            } else {
                ""@
            }),
            "the branch would be kept"@,
        ],
{
    let mut command = text::concat("would run git worktree remove ", target);
    command.append(
        if force {
            " --force"
        } else {
            ""
        },
    );
    let mut lines: Vec<String> = Vec::new();
    text::add(&mut lines, "dry run: nothing is stopped or removed");
    text::add(&mut lines, &text::concat("would run down in ", target));
    text::add(&mut lines, &command);
    text::add(&mut lines, "the branch would be kept");
    assert(text::views(lines@) =~= seq![
        "dry run: nothing is stopped or removed"@,
        "would run down in "@ + target@,
        "would run git worktree remove "@ + target@ + (if force {
            " --force"@
        } else {
            ""@
        }),
        "the branch would be kept"@,
    ]);
    lines
}

/// What `rm` says of a checkout that is already gone.
pub fn already_gone(target: &str) -> (r: String)
    ensures
        r@ == "worktree checkout "@ + target@
            + " is already gone\n\nrun `magictree gc --prune` to release its port block and drop its recorded processes"@,
{
    let mut e = text::own("worktree checkout ");
    e.append(target);
    e.append(
        " is already gone\n\nrun `magictree gc --prune` to release its port block and drop its recorded processes",
    );
    e
}

/// What `new` would do.
pub fn creation_preview(args: &Vec<String>, path: &str) -> (r: Vec<String>)
    ensures
        text::views(r@) == seq![
            "dry run: no worktree is created"@,
            "would run git "@ + text::join_of(text::views(args@), " "@),
            "would then run ensure in "@ + path@,
        ],
{
    let mut lines: Vec<String> = Vec::new();
    text::add(&mut lines, "dry run: no worktree is created");
    text::add(&mut lines, &text::concat("would run git ", &text::join(args, " ")));
    text::add(&mut lines, &text::concat("would then run ensure in ", path));
    assert(text::views(lines@) =~= seq![
        "dry run: no worktree is created"@,
        "would run git "@ + text::join_of(text::views(args@), " "@),
        "would then run ensure in "@ + path@,
    ]);
    lines
}

/// Why `new` creates no worktree: starting a stack needs a manifest the new worktree will actually
/// have, and checking first avoids leaving a half-created worktree behind.
pub fn creation_refused(no_up: bool, hint: &Option<String>) -> (r: Option<String>)
    ensures
        text::opt_view(r) == (match *hint {
            Some(hint) => if no_up {
                None
            } else {
                Some("cannot start a stack in the new worktree\n\n"@ + hint@)
            },
            None => None,
        }),
{
    if no_up {
        return None;
    }
    match hint {
        Some(hint) => Some(text::concat("cannot start a stack in the new worktree\n\n", hint)),
        None => None,
    }
}

/// Why there is nothing to start in a new worktree.
pub fn nothing_to_start(path: &str, hint: &Option<String>) -> (r: Option<String>)
    ensures
        text::opt_view(r) == (match *hint {
            Some(hint) => Some(path@ + " has no stack definition\n\n"@ + hint@),
            None => None,
        }),
{
    match hint {
        Some(hint) => {
            let mut e = text::concat(path, " has no stack definition\n\n");
            e.append(hint);
            Some(e)
        },
        None => None,
    }
}

// ---------------------------------------------------------------------------
// Ports under a running stack
// ---------------------------------------------------------------------------

/// Whether a run moves the ports of a worktree to another mode.
pub open spec fn moves_ports(
    requested: Option<PortMode>,
    current: Option<AssignmentView>,
    primary: bool,
) -> bool {
    match requested {
        Some(mode) => ports::mode_of(current, primary) != mode,
        None => false,
    }
}

/// Whether a run asks for ports in another mode than the worktree has. A mode change re-allocates,
/// which cannot happen under a running stack: containers keep publishing the ports they were
/// created with while `ports`, `env` and the health probes move on to the new ones.
pub fn changes_mode(requested: Option<PortMode>, current: Option<&Assignment>, primary: bool) -> (r:
    bool)
    ensures
        r == (requested matches Some(mode) && mode != ports::mode_of(
            match current {
                Some(a) => Some(a@),
                None => None,
            },
            primary,
        )),
        r == moves_ports(
            requested,
            match current {
                Some(a) => Some(a@),
                None => None,
            },
            primary,
        ),
{
    match requested {
        Some(mode) => mode != ports::effective_mode(current, primary),
        None => false,
    }
}

/// Why the ports of a running stack stay as they are.
pub fn running_refusal(service: &str, doing: &str) -> (r: String)
    ensures
        r@ == "'"@ + service@ + "' is running; run `magictree down` before "@ + doing@
            + " this worktree's ports"@,
{
    let mut e = text::own("'");
    e.append(service);
    e.append("' is running; run `magictree down` before ");
    e.append(doing);
    e.append(" this worktree's ports");
    e
}

// ---------------------------------------------------------------------------
// Running a command
// ---------------------------------------------------------------------------

/// The exit code that a child's end is told by.
pub open spec fn told_as(code: Option<i32>, signal: Option<i32>) -> int {
    match (code, signal) {
        (Some(code), _) => code as int,
        (None, Some(signal)) => 128 + signal,
        (None, None) => 128,
    }
}

/// A child's status as an exit code: its own, or 128+signal when a signal killed it (the shell
/// convention), so a caller can see why it stopped.
pub fn exit_code(code: Option<i32>, signal: Option<i32>) -> (r: i32)
    requires
        signal matches Some(s) ==> s <= i32::MAX - 128,
    ensures
        r == (match code {
            Some(code) => code as int,
            None => 128 + (match signal {
                Some(signal) => signal as int,
                None => 0,
            }),
        }),
        r == told_as(code, signal),
{
    match code {
        Some(code) => code,
        None => match signal {
            Some(signal) => 128 + signal,
            None => 128,
        },
    }
}

/// An argument as a shell takes it back.
pub open spec fn shell_word(arg: Seq<char>) -> Seq<char> {
    if arg.len() > 0 && env::all_plain(arg) {
        arg
    } else {
        "'"@ + text::replace_of(arg, '\'', "'\\''"@) + "'"@
    }
}

/// A command rendered the way a shell would take it back.
pub open spec fn shell_words(command: Seq<Seq<char>>) -> Seq<Seq<char>> {
    Seq::new(command.len(), |i: int| shell_word(command[i]))
}

/// A command rendered the way a shell would take it back, for a dry run to show exactly what it
/// would have run.
pub fn shell_join(command: &Vec<String>) -> (r: String)
    ensures
        r@ == text::join_of(shell_words(text::views(command@)), " "@),
{
    let ghost all = text::views(command@);
    let ghost goal = shell_words(all);
    let mut words: Vec<String> = Vec::new();
    let mut k: usize = 0;
    assert(text::views(words@) =~= goal.take(0));
    while k < command.len()
        invariant
            all == text::views(command@),
            goal == shell_words(all),
            k <= command@.len(),
            text::views(words@) == goal.take(k as int),
        decreases command@.len() - k,
    {
        let arg = &command[k];
        assert(all[k as int] == arg@);
        if text::length(arg) > 0 && env::is_plain(arg) {
            text::add(&mut words, arg);
        } else {
            let mut word = text::own("'");
            word.append(&text::replace(arg, '\'', "'\\''"));
            word.append("'");
            text::add(&mut words, &word);
        }
        k += 1;
        assert(text::views(words@) =~= goal.take(k as int));
    }
    assert(goal.take(k as int) =~= goal);
    text::join(&words, " ")
}

/// Where `logs --follow` reads on, given how far it has read and how long the file is. A file that
/// was truncated or rotated (`up` truncates the log on every start) is read from the top.
pub fn follow_from(offset: u64, length: u64) -> (r: Option<u64>)
    ensures
        r == (if length < offset {
            if length > 0 {
                Some(0u64)
            } else {
                None
            }
        } else if length > offset {
            Some(offset)
        } else {
            None
        }),
{
    let start: u64 = if length < offset {
        0
    } else {
        offset
    };
    if length > start {
        Some(start)
    } else {
        None
    }
}

} // verus!
