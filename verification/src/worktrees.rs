//! Worktrees: where they are made, which of them are still there, and what is left of those that
//! are not.

use crate::dict;
use crate::dict::Dict;
use crate::manifest;
use crate::paths;
use crate::paths::Paths;
use crate::ports;
use crate::ports::{Assignment, AssignmentView};
use crate::repo;
use crate::repo::{Repo, RepoView, WorktreeEntry, WorktreeEntryView};
use crate::slug;
use crate::text;
use crate::text::Texts;
use vstd::prelude::*;

verus! {

/// A path as the file system resolves it.
#[derive(Debug)]
pub struct Spot {
    /// The path, made absolute.
    pub path: String,
    /// The path with its links resolved; the path itself where it cannot be resolved.
    pub resolved: String,
    /// The parent with its links resolved, where the path has one.
    pub parent: Option<String>,
}

/// The contents of a [`Spot`].
#[verifier::ext_equal]
pub struct SpotView {
    pub path: Seq<char>,
    pub resolved: Seq<char>,
    pub parent: Option<Seq<char>>,
}

impl View for Spot {
    type V = SpotView;

    open spec fn view(&self) -> SpotView {
        SpotView {
            path: self.path@,
            resolved: self.resolved@,
            parent: text::opt_view(self.parent),
        }
    }
}

impl Clone for Spot {
    fn clone(&self) -> (r: Self)
        ensures
            r@ == self@,
    {
        Spot {
            path: self.path.clone(),
            resolved: self.resolved.clone(),
            parent: text::clone_opt(&self.parent),
        }
    }
}

/// What git says of a directory.
#[derive(Debug)]
#[allow(inconsistent_fields)]
pub enum Opened {
    /// A checkout, its root, and the primary checkout of its repository.
    Worktree { repo: Repo, root: Spot, main_root: String },
    /// Not a checkout.
    Nothing,
    /// git could not be run at all.
    Failed,
}

/// The contents of a [`Opened`].
#[verifier::ext_equal]
#[allow(inconsistent_fields)]
pub enum OpenedView {
    Worktree { repo: RepoView, root: SpotView, main_root: Seq<char> },
    Nothing,
    Failed,
}

impl View for Opened {
    type V = OpenedView;

    open spec fn view(&self) -> OpenedView {
        match self {
            Opened::Worktree { repo, root, main_root } => OpenedView::Worktree { repo: repo@, root: root@, main_root: main_root@ },
            Opened::Nothing => OpenedView::Nothing,
            Opened::Failed => OpenedView::Failed,
        }
    }
}

impl Clone for Opened {
    fn clone(&self) -> (r: Self)
        ensures
            r@ == self@,
    {
        match self {
            Opened::Worktree { repo, root, main_root } => Opened::Worktree { repo: repo.clone(), root: root.clone(), main_root: main_root.clone() },
            Opened::Nothing => Opened::Nothing,
            Opened::Failed => Opened::Failed,
        }
    }
}

/// What was seen at a recorded path.
#[derive(Debug)]
pub struct Sighting {
    pub spot: Spot,
    pub exists: bool,
    pub opened: Opened,
}

/// The contents of a [`Sighting`].
#[verifier::ext_equal]
pub struct SightingView {
    pub spot: SpotView,
    pub exists: bool,
    pub opened: OpenedView,
}

impl View for Sighting {
    type V = SightingView;

    open spec fn view(&self) -> SightingView {
        SightingView {
            spot: self.spot@,
            exists: self.exists,
            opened: self.opened@,
        }
    }
}

impl Clone for Sighting {
    fn clone(&self) -> (r: Self)
        ensures
            r@ == self@,
    {
        Sighting {
            spot: self.spot.clone(),
            exists: self.exists,
            opened: self.opened.clone(),
        }
    }
}

/// A port block, and the file it is recorded in.
#[derive(Debug)]
pub struct Block {
    pub file: String,
    pub assignment: Assignment,
    /// Where the block's worktree is, where the record names one.
    pub owner: Option<Spot>,
}

/// The contents of a [`Block`].
#[verifier::ext_equal]
pub struct BlockView {
    pub file: Seq<char>,
    pub assignment: AssignmentView,
    pub owner: Option<SpotView>,
}

impl View for Block {
    type V = BlockView;

    open spec fn view(&self) -> BlockView {
        BlockView {
            file: self.file@,
            assignment: self.assignment@,
            owner: text::opt_view(self.owner),
        }
    }
}

impl Clone for Block {
    fn clone(&self) -> (r: Self)
        ensures
            r@ == self@,
    {
        Block {
            file: self.file.clone(),
            assignment: self.assignment.clone(),
            owner: match &self.owner { Some(x) => Some(x.clone()), None => None },
        }
    }
}

/// The state directory of one worktree.
#[derive(Debug)]
pub struct StateDir {
    pub dir: String,
    /// The repository it stands under.
    pub repo_key: String,
    /// Its mirror of the assignment, where that is readable.
    pub assignment: Option<Assignment>,
    /// Where the worktree is, where the mirror names one.
    pub owner: Option<Spot>,
    /// The environment that `up` wrote.
    pub env: Option<String>,
    /// The recorded processes that are alive, by name.
    pub running: Dict<i32>,
}

/// The contents of a [`StateDir`].
#[verifier::ext_equal]
pub struct StateDirView {
    pub dir: Seq<char>,
    pub repo_key: Seq<char>,
    pub assignment: Option<AssignmentView>,
    pub owner: Option<SpotView>,
    pub env: Option<Seq<char>>,
    pub running: Seq<(Seq<char>, i32)>,
}

impl View for StateDir {
    type V = StateDirView;

    open spec fn view(&self) -> StateDirView {
        StateDirView {
            dir: self.dir@,
            repo_key: self.repo_key@,
            assignment: text::opt_view(self.assignment),
            owner: text::opt_view(self.owner),
            env: text::opt_view(self.env),
            running: self.running@,
        }
    }
}

impl Clone for StateDir {
    fn clone(&self) -> (r: Self)
        ensures
            r@ == self@,
    {
        StateDir {
            dir: self.dir.clone(),
            repo_key: self.repo_key.clone(),
            assignment: match &self.assignment { Some(x) => Some(x.clone()), None => None },
            owner: match &self.owner { Some(x) => Some(x.clone()), None => None },
            env: text::clone_opt(&self.env),
            running: self.running.duplicate(),
        }
    }
}

/// A step of a sweep.
#[derive(Debug)]
pub enum GcStep {
    Say(String),
    RemoveFile(String),
    /// Stop every process that a state directory records.
    StopAll(String),
    RemoveDir(String),
    /// Remove a directory that is empty; one that is not stays.
    RemoveEmptyDir(String),
}

/// The contents of a [`GcStep`].
#[verifier::ext_equal]
pub enum GcStepView {
    Say(Seq<char>),
    RemoveFile(Seq<char>),
    StopAll(Seq<char>),
    RemoveDir(Seq<char>),
    RemoveEmptyDir(Seq<char>),
}

impl View for GcStep {
    type V = GcStepView;

    open spec fn view(&self) -> GcStepView {
        match self {
            GcStep::Say(f0) => GcStepView::Say(f0@),
            GcStep::RemoveFile(f0) => GcStepView::RemoveFile(f0@),
            GcStep::StopAll(f0) => GcStepView::StopAll(f0@),
            GcStep::RemoveDir(f0) => GcStepView::RemoveDir(f0@),
            GcStep::RemoveEmptyDir(f0) => GcStepView::RemoveEmptyDir(f0@),
        }
    }
}

impl Clone for GcStep {
    fn clone(&self) -> (r: Self)
        ensures
            r@ == self@,
    {
        match self {
            GcStep::Say(f0) => GcStep::Say(f0.clone()),
            GcStep::RemoveFile(f0) => GcStep::RemoveFile(f0.clone()),
            GcStep::StopAll(f0) => GcStep::StopAll(f0.clone()),
            GcStep::RemoveDir(f0) => GcStep::RemoveDir(f0.clone()),
            GcStep::RemoveEmptyDir(f0) => GcStep::RemoveEmptyDir(f0.clone()),
        }
    }
}

/// What a sweep does, and the compose projects that it leaves to be swept.
#[derive(Debug)]
pub struct Sweep {
    pub steps: Vec<GcStep>,
    pub projects: Vec<String>,
}

/// The contents of a [`Sweep`].
#[verifier::ext_equal]
pub struct SweepView {
    pub steps: Seq<GcStepView>,
    pub projects: Seq<Seq<char>>,
}

impl View for Sweep {
    type V = SweepView;

    open spec fn view(&self) -> SweepView {
        SweepView {
            steps: text::views(self.steps@),
            projects: text::views(self.projects@),
        }
    }
}

impl Clone for Sweep {
    fn clone(&self) -> (r: Self)
        ensures
            r@ == self@,
    {
        Sweep {
            steps: text::clone_all(&self.steps),
            projects: text::clone_texts(&self.projects),
        }
    }
}

/// A container that docker lists.
#[derive(Debug)]
pub struct Container {
    pub id: String,
    /// The worktree it was started for.
    pub owner: String,
    pub project: String,
}

/// The contents of a [`Container`].
#[verifier::ext_equal]
pub struct ContainerView {
    pub id: Seq<char>,
    pub owner: Seq<char>,
    pub project: Seq<char>,
}

impl View for Container {
    type V = ContainerView;

    open spec fn view(&self) -> ContainerView {
        ContainerView {
            id: self.id@,
            owner: self.owner@,
            project: self.project@,
        }
    }
}

impl Clone for Container {
    fn clone(&self) -> (r: Self)
        ensures
            r@ == self@,
    {
        Container {
            id: self.id.clone(),
            owner: self.owner.clone(),
            project: self.project.clone(),
        }
    }
}

/// A step of the compose sweep.
#[derive(Debug)]
#[allow(inconsistent_fields)]
pub enum ComposeStep {
    Say(String),
    /// Arguments to call docker with.
    Run(Vec<String>),
}

/// The contents of a [`ComposeStep`].
#[verifier::ext_equal]
#[allow(inconsistent_fields)]
pub enum ComposeStepView {
    Say(Seq<char>),
    Run(Seq<Seq<char>>),
}

impl View for ComposeStep {
    type V = ComposeStepView;

    open spec fn view(&self) -> ComposeStepView {
        match self {
            ComposeStep::Say(f0) => ComposeStepView::Say(f0@),
            ComposeStep::Run(f0) => ComposeStepView::Run(text::views(f0@)),
        }
    }
}

impl Clone for ComposeStep {
    fn clone(&self) -> (r: Self)
        ensures
            r@ == self@,
    {
        match self {
            ComposeStep::Say(f0) => ComposeStep::Say(f0.clone()),
            ComposeStep::Run(f0) => ComposeStep::Run(text::clone_texts(f0)),
        }
    }
}

/// One worktree the state dir holds a record of, for `list --all`.
#[derive(Debug)]
pub struct RecordedWorktree {
    /// Repository the record belongs to, as its state dir is keyed.
    pub repo_key: String,
    /// The repository's primary checkout, when a record names one. The key is a hash, so this is
    /// what tells two repositories apart.
    pub repo_path: Option<String>,
    /// Identity git assigned the worktree; `main` is the primary checkout.
    pub worktree_id: String,
    /// The recorded checkout path.
    pub path: Option<String>,
    /// Ports the record still reserves. Empty once `ports --release` dropped the block, whatever
    /// the state directory's stale mirror still says.
    pub ports: String,
    /// Whether the recorded path is still a worktree of the recorded repository. `None` when no
    /// record ever named a path, which is also what `gc` leaves alone.
    pub live: Option<bool>,
}

/// The contents of a [`RecordedWorktree`].
#[verifier::ext_equal]
pub struct RecordedWorktreeView {
    pub repo_key: Seq<char>,
    pub repo_path: Option<Seq<char>>,
    pub worktree_id: Seq<char>,
    pub path: Option<Seq<char>>,
    pub ports: Seq<char>,
    pub live: Option<bool>,
}

impl View for RecordedWorktree {
    type V = RecordedWorktreeView;

    open spec fn view(&self) -> RecordedWorktreeView {
        RecordedWorktreeView {
            repo_key: self.repo_key@,
            repo_path: text::opt_view(self.repo_path),
            worktree_id: self.worktree_id@,
            path: text::opt_view(self.path),
            ports: self.ports@,
            live: self.live,
        }
    }
}

impl Clone for RecordedWorktree {
    fn clone(&self) -> (r: Self)
        ensures
            r@ == self@,
    {
        RecordedWorktree {
            repo_key: self.repo_key.clone(),
            repo_path: text::clone_opt(&self.repo_path),
            worktree_id: self.worktree_id.clone(),
            path: text::clone_opt(&self.path),
            ports: self.ports.clone(),
            live: self.live,
        }
    }
}

/// An administrative directory of a linked worktree.
#[derive(Debug)]
pub struct AdminDir {
    pub dir: String,
    /// The checkout it points at, with its links resolved.
    pub checkout: Option<String>,
}

/// The contents of a [`AdminDir`].
#[verifier::ext_equal]
pub struct AdminDirView {
    pub dir: Seq<char>,
    pub checkout: Option<Seq<char>>,
}

impl View for AdminDir {
    type V = AdminDirView;

    open spec fn view(&self) -> AdminDirView {
        AdminDirView {
            dir: self.dir@,
            checkout: text::opt_view(self.checkout),
        }
    }
}

impl Clone for AdminDir {
    fn clone(&self) -> (r: Self)
        ensures
            r@ == self@,
    {
        AdminDir {
            dir: self.dir.clone(),
            checkout: text::clone_opt(&self.checkout),
        }
    }
}

/// A row of `list`.
#[derive(Debug)]
pub struct Row {
    pub id: String,
    pub path: String,
    pub ports: String,
}

/// The contents of a [`Row`].
#[verifier::ext_equal]
pub struct RowView {
    pub id: Seq<char>,
    pub path: Seq<char>,
    pub ports: Seq<char>,
}

impl View for Row {
    type V = RowView;

    open spec fn view(&self) -> RowView {
        RowView {
            id: self.id@,
            path: self.path@,
            ports: self.ports@,
        }
    }
}

impl Clone for Row {
    fn clone(&self) -> (r: Self)
        ensures
            r@ == self@,
    {
        Row {
            id: self.id.clone(),
            path: self.path.clone(),
            ports: self.ports.clone(),
        }
    }
}

/// What a recorded checkout resolves to.
#[derive(Debug, Clone, Copy, PartialEq, Eq, Structural)]
pub enum Checkout {
    /// Still a worktree of the recorded repository.
    Live,
    /// Gone, or no longer a worktree of that repository.
    Gone,
    /// git could not be run at all: not an answer, so records are left alone rather than reclaimed
    /// or reported as gone on a guess.
    Unknown,
}

// ---------------------------------------------------------------------------
// Making and removing
// ---------------------------------------------------------------------------

/// Where `new` would place a worktree for a branch: beside the primary checkout, named after both.
pub open spec fn place_of(root: Seq<char>, branch: Seq<char>) -> Result<Seq<char>, Seq<char>> {
    match paths::parent_of(root) {
        None => Err("worktree root has no parent directory"@),
        Some(parent) => Ok(
            paths::join_of(
                parent,
                (match paths::file_name_of(root) {
                    Some(name) => name,
                    None => "repo"@,
                }) + "-"@ + slug::slug_of(branch),
            ),
        ),
    }
}

/// Where `new` would place a worktree for this branch: beside the primary checkout, whichever of
/// the repository's worktrees, `entries`, it is called in.
pub fn plan_path(repo: &Repo, entries: &Vec<WorktreeEntry>, branch: &str) -> (r: Result<
    String,
    String,
>)
    ensures
        ({
            let place = place_of(repo@.primary_root(text::views(entries@)), branch@);
            match r {
                Ok(path) => place == Ok::<Seq<char>, Seq<char>>(path@),
                Err(e) => place == Err::<Seq<char>, Seq<char>>(e@),
            }
        }),
{
    let root = repo.main_worktree_root(entries);
    match paths::parent(&root) {
        None => Err(text::own("worktree root has no parent directory")),
        Some(parent) => {
            let mut name = match paths::file_name(&root) {
                Some(name) => name,
                None => text::own("repo"),
            };
            name.append("-");
            name.append(&slug::slugify(branch));
            Ok(paths::join(&parent, &name))
        },
    }
}

/// Where a new worktree goes, or why there is none.
pub open spec fn target_of(
    root: Seq<char>,
    branch: Seq<char>,
    base: bool,
    explicit: Option<Seq<char>>,
    detach: bool,
) -> Result<Seq<char>, Seq<char>> {
    if text::trim_of(branch).len() == 0 {
        Err("branch name is required"@)
    } else if base && detach {
        Err("--base and --detach cannot be combined"@)
    } else {
        match explicit {
            Some(path) => Ok(path),
            None => place_of(root, branch),
        }
    }
}

/// Where a worktree for `branch` is created.
///
/// Placement mirrors the primary checkout's parent directory, unless an explicit path is given,
/// which stands here as an absolute path.
pub fn target_path(
    repo: &Repo,
    entries: &Vec<WorktreeEntry>,
    branch: &str,
    base: &Option<String>,
    explicit: &Option<String>,
    detach: bool,
) -> (r: Result<String, String>)
    ensures
        ({
            let target = target_of(
                repo@.primary_root(text::views(entries@)),
                branch@,
                base is Some,
                text::opt_view(*explicit),
                detach,
            );
            match r {
                Ok(path) => target == Ok::<Seq<char>, Seq<char>>(path@),
                Err(e) => target == Err::<Seq<char>, Seq<char>>(e@),
            }
        }),
{
    if text::length(&text::trim(branch)) == 0 {
        return Err(text::own("branch name is required"));
    }
    if base.is_some() && detach {
        return Err(text::own("--base and --detach cannot be combined"));
    }
    match explicit {
        Some(path) => Ok(path.clone()),
        None => plan_path(repo, entries, branch),
    }
}

/// The git arguments that add a worktree: an existing local branch is checked out; otherwise the
/// branch is created from the base.
pub open spec fn add_args_of(
    branch: Seq<char>,
    base: Option<Seq<char>>,
    path: Seq<char>,
    detach: bool,
    exists: bool,
) -> Seq<Seq<char>> {
    let from = match base {
        Some(base) => base,
        None => "HEAD"@,
    };
    if detach {
        seq!["worktree"@, "add"@, "--detach"@, path, from]
    } else if exists {
        seq!["worktree"@, "add"@, path, branch]
    } else {
        seq!["worktree"@, "add"@, "-b"@, branch, path, from]
    }
}

/// The exact git arguments that create a worktree, shared with the dry run so the two can never
/// disagree. `exists` says whether the branch is there already.
pub fn add_args(branch: &str, base: &Option<String>, path: &str, detach: bool, exists: bool) -> (r:
    Vec<String>)
    ensures
        text::views(r@) == add_args_of(branch@, text::opt_view(*base), path@, detach, exists),
{
    let from = match base {
        Some(base) => base.clone(),
        None => text::own("HEAD"),
    };
    let mut args: Vec<String> = Vec::new();
    text::add(&mut args, "worktree");
    text::add(&mut args, "add");
    if detach {
        // git's contract is `worktree add [--detach] <path> [<commit-ish>]`: the path comes first,
        // the revision after it.
        text::add(&mut args, "--detach");
        text::add(&mut args, path);
        text::add(&mut args, &from);
    } else if exists {
        text::add(&mut args, path);
        text::add(&mut args, branch);
    } else {
        text::add(&mut args, "-b");
        text::add(&mut args, branch);
        text::add(&mut args, path);
        text::add(&mut args, &from);
    }
    assert(text::views(args@) =~= add_args_of(
        branch@,
        text::opt_view(*base),
        path@,
        detach,
        exists,
    ));
    args
}

/// The git arguments that create a worktree at `path`, which must not be there yet.
pub fn create(
    branch: &str,
    base: &Option<String>,
    path: &str,
    detach: bool,
    taken: bool,
    exists: bool,
) -> (r: Result<Vec<String>, String>)
    ensures
        match r {
            Ok(args) => !taken && text::views(args@) == add_args_of(
                branch@,
                text::opt_view(*base),
                path@,
                detach,
                exists,
            ),
            Err(e) => taken && e@ == "target path already exists: "@ + path@,
        },
{
    if taken {
        return Err(text::concat("target path already exists: ", path));
    }
    Ok(add_args(branch, base, path, detach, exists))
}

/// What became of `git worktree add`.
pub fn created(success: bool, stderr: &str) -> (r: Result<(), String>)
    ensures
        match r {
            Ok(_) => success,
            Err(e) => !success && e@ == "git worktree add failed: "@ + text::trim_of(stderr@),
        },
{
    if success {
        Ok(())
    } else {
        Err(text::concat("git worktree add failed: ", &text::trim(stderr)))
    }
}

/// Whether two paths are one worktree. Neither has to exist on disk: a path may be reached through
/// a symlink, and a deleted checkout cannot be resolved, so its directory name counts with its
/// resolved parent.
pub open spec fn same_spot(a: SpotView, b: SpotView) -> bool {
    ||| paths::same_path(a.path, b.path)
    ||| paths::same_path(a.resolved, b.resolved)
    ||| (paths::file_name_of(a.path) == paths::file_name_of(b.path) && match (a.parent, b.parent) {
        (Some(x), Some(y)) => paths::same_path(x, y),
        _ => false,
    })
}

/// Compare two worktree paths without requiring either to exist on disk.
pub fn same_worktree(a: &Spot, b: &Spot) -> (r: bool)
    ensures
        r == same_spot(a@, b@),
{
    if paths::is_same_path(&a.path, &b.path) || paths::is_same_path(&a.resolved, &b.resolved) {
        return true;
    }
    if !text::same_opt(&paths::file_name(&a.path), &paths::file_name(&b.path)) {
        return false;
    }
    match (&a.parent, &b.parent) {
        (Some(x), Some(y)) => paths::is_same_path(x, y),
        _ => false,
    }
}

/// The git arguments that remove a worktree. The branch is never deleted, and neither is the
/// worktree that the command runs in.
pub fn remove(current: &Spot, target: &Spot, force: bool) -> (r: Result<Vec<String>, String>)
    ensures
        match r {
            Ok(args) => !same_spot(target@, current@) && text::views(args@) == (if force {
                seq!["worktree"@, "remove"@, "--force"@, target@.path]
            } else {
                seq!["worktree"@, "remove"@, target@.path]
            }),
            Err(e) => same_spot(target@, current@) && e@
                == "refusing to remove the current worktree"@,
        },
{
    if same_worktree(target, current) {
        return Err(text::own("refusing to remove the current worktree"));
    }
    let mut args: Vec<String> = Vec::new();
    text::add(&mut args, "worktree");
    text::add(&mut args, "remove");
    if force {
        text::add(&mut args, "--force");
        text::add(&mut args, &target.path);
        assert(text::views(args@) =~= seq!["worktree"@, "remove"@, "--force"@, target@.path]);
    } else {
        text::add(&mut args, &target.path);
        assert(text::views(args@) =~= seq!["worktree"@, "remove"@, target@.path]);
    }
    Ok(args)
}

/// What became of `git worktree remove`.
pub fn removed(target: &str, success: bool, stderr: &str) -> (r: Result<(), String>)
    ensures
        match r {
            Ok(_) => success,
            Err(e) => !success && e@ == (if text::contains_of(
                stderr@,
                "contains modified or untracked files"@,
            ) {
                target@ + " has uncommitted changes; re-run with --force to discard them"@
            } else {
                "git worktree remove failed: "@ + text::trim_of(stderr@)
            }),
        },
{
    if success {
        return Ok(());
    }
    if text::contains(stderr, "contains modified or untracked files") {
        return Err(
            text::concat(
                target,
                " has uncommitted changes; re-run with --force to discard them",
            ),
        );
    }
    Err(text::concat("git worktree remove failed: ", &text::trim(stderr)))
}

/// The git arguments that drop deleted checkouts from the administrative list, or say which would
/// be dropped.
pub fn prune(dry_run: bool) -> (r: Vec<String>)
    ensures
        text::views(r@) == (if dry_run {
            seq!["worktree"@, "prune"@, "--dry-run"@, "--verbose"@]
        } else {
            seq!["worktree"@, "prune"@, "--verbose"@]
        }),
{
    let mut args: Vec<String> = Vec::new();
    text::add(&mut args, "worktree");
    text::add(&mut args, "prune");
    if dry_run {
        text::add(&mut args, "--dry-run");
        text::add(&mut args, "--verbose");
        assert(text::views(args@) =~= seq!["worktree"@, "prune"@, "--dry-run"@, "--verbose"@]);
    } else {
        text::add(&mut args, "--verbose");
        assert(text::views(args@) =~= seq!["worktree"@, "prune"@, "--verbose"@]);
    }
    args
}

/// What became of `git worktree prune`.
pub fn pruned(success: bool, stderr: &str) -> (r: Result<(), String>)
    ensures
        match r {
            Ok(_) => success,
            Err(e) => !success && e@ == "git worktree prune failed: "@ + text::trim_of(stderr@),
        },
{
    if success {
        Ok(())
    } else {
        Err(text::concat("git worktree prune failed: ", &text::trim(stderr)))
    }
}

// ---------------------------------------------------------------------------
// Manifests that a worktree lacks
// ---------------------------------------------------------------------------

/// Why new worktrees will not have the manifest of the main checkout.
pub open spec fn untracked_of(main: Seq<char>, present: bool, committed: bool) -> Option<Seq<char>> {
    if !present || committed {
        None
    } else {
        Some(
            "the main checkout has an uncommitted magictree.toml, so new worktrees will not inherit it\n  commit it there so every worktree inherits the stack definition:\n    git -C "@
                + main + " add magictree.toml && git -C "@ + main
                + " commit -m \"add magictree.toml\""@,
        )
    }
}

/// The main checkout has a manifest that git does not track, so no new worktree will inherit it.
/// Returns the explanation, or `None` when there is nothing to warn about.
pub fn untracked_manifest_hint(main: &str, present: bool, committed: bool) -> (r: Option<String>)
    ensures
        text::opt_view(r) == untracked_of(main@, present, committed),
{
    if !present || committed {
        return None;
    }
    let mut hint = text::own(
        "the main checkout has an uncommitted magictree.toml, so new worktrees will not inherit it\n  commit it there so every worktree inherits the stack definition:\n    git -C ",
    );
    hint.append(main);
    hint.append(" add magictree.toml && git -C ");
    hint.append(main);
    hint.append(" commit -m \"add magictree.toml\"");
    Some(hint)
}

/// Why a worktree has no manifest while the main checkout has one.
pub open spec fn missing_of(
    here: bool,
    in_main: bool,
    main: Seq<char>,
    present: bool,
    committed: bool,
) -> Option<Seq<char>> {
    if here || in_main || !present {
        None
    } else {
        match untracked_of(main, present, committed) {
            Some(hint) => Some(
                hint + "\n  or copy it into this worktree for a one-off:  cp "@ + main
                    + "/magictree.toml ."@,
            ),
            None => Some(
                "the main checkout has magictree.toml, but this branch does not, so this worktree has no stack definition\n  check out a branch that contains it, or copy it:  cp "@
                    + main + "/magictree.toml ."@,
            ),
        }
    }
}

/// Explain why a worktree has no manifest when the main checkout has one.
///
/// A committed manifest is inherited by every worktree for free; an uncommitted one is not, and
/// the resulting "no magictree.toml found" says nothing about why. `here` says whether the worktree
/// has one, `in_main` whether this is the main checkout, and `present` and `committed` speak of the
/// manifest of the main checkout. Returns `None` when there is nothing useful to add.
pub fn missing_manifest_hint(here: bool, in_main: bool, main: &str, present: bool, committed: bool) -> (r:
    Option<String>)
    ensures
        text::opt_view(r) == missing_of(here, in_main, main@, present, committed),
{
    if here || in_main || !present {
        return None;
    }
    match untracked_manifest_hint(main, present, committed) {
        Some(hint) => {
            let mut hint = hint;
            hint.append("\n  or copy it into this worktree for a one-off:  cp ");
            hint.append(main);
            hint.append("/magictree.toml .");
            Some(hint)
        },
        None => {
            let mut hint = text::own(
                "the main checkout has magictree.toml, but this branch does not, so this worktree has no stack definition\n  check out a branch that contains it, or copy it:  cp ",
            );
            hint.append(main);
            hint.append("/magictree.toml .");
            Some(hint)
        },
    }
}

// ---------------------------------------------------------------------------
// Which checkouts are still there
// ---------------------------------------------------------------------------

/// What a recorded checkout resolves to.
///
/// A directory at the path is not enough. A worktree removed outside magictree leaves the directory
/// behind, and a path can be reused by something else; both pin the block forever if mere existence
/// counts as live. A path git resolves is live only when it is the worktree root of the repository
/// the record was written for.
pub open spec fn checkout_of(s: SightingView, repo_key: Seq<char>) -> Checkout {
    if !s.exists {
        Checkout::Gone
    } else {
        match s.opened {
            OpenedView::Worktree { repo, root, .. } => if repo.key_of() == repo_key && same_spot(
                root,
                s.spot,
            ) {
                Checkout::Live
            } else {
                Checkout::Gone
            },
            OpenedView::Nothing => Checkout::Gone,
            OpenedView::Failed => Checkout::Unknown,
        }
    }
}

/// Whether a recorded checkout is still a worktree of the repository the record names.
pub fn checkout_state(s: &Sighting, repo_key: &str) -> (r: Checkout)
    ensures
        r == checkout_of(s@, repo_key@),
{
    if !s.exists {
        return Checkout::Gone;
    }
    match &s.opened {
        Opened::Worktree { repo, root, .. } => if text::same(&repo.key(), repo_key)
            && same_worktree(root, &s.spot) {
            Checkout::Live
        } else {
            Checkout::Gone
        },
        Opened::Nothing => Checkout::Gone,
        Opened::Failed => Checkout::Unknown,
    }
}

/// The first `k` sightings that are live.
pub open spec fn live_upto(seen: Seq<SightingView>, repo_key: Seq<char>, k: int) -> Seq<SpotView>
    decreases k,
{
    if k <= 0 {
        Seq::empty()
    } else if checkout_of(seen[k - 1], repo_key) == Checkout::Live {
        live_upto(seen, repo_key, k - 1).push(seen[k - 1].spot)
    } else {
        live_upto(seen, repo_key, k - 1)
    }
}

/// The checkouts that are still worktrees of a repository.
pub open spec fn live_of(seen: Seq<SightingView>, repo_key: Seq<char>) -> Seq<SpotView> {
    live_upto(seen, repo_key, seen.len() as int)
}

/// The checkouts that are still worktrees of a repository.
pub fn live_worktrees(seen: &Vec<Sighting>, repo_key: &str) -> (r: Vec<Spot>)
    ensures
        text::views(r@) == live_of(text::views(seen@), repo_key@),
{
    let ghost all = text::views(seen@);
    let mut out: Vec<Spot> = Vec::new();
    let mut k: usize = 0;
    assert(text::views(out@) =~= Seq::<SpotView>::empty());
    while k < seen.len()
        invariant
            all == text::views(seen@),
            k <= seen@.len(),
            text::views(out@) == live_upto(all, repo_key@, k as int),
        decreases seen@.len() - k,
    {
        broadcast use text::views_push;

        assert(all[k as int] == seen@[k as int]@);
        if checkout_state(&seen[k], repo_key) == Checkout::Live {
            out.push(seen[k].spot.clone());
        }
        k += 1;
    }
    out
}

/// Whether one of the live checkouts stands at a spot.
pub open spec fn is_live(live: Seq<SpotView>, owner: SpotView) -> bool {
    exists|i: int| 0 <= i < live.len() && same_spot(#[trigger] live[i], owner)
}

fn among_live(live: &Vec<Spot>, owner: &Spot) -> (r: bool)
    ensures
        r == is_live(text::views(live@), owner@),
{
    let ghost all = text::views(live@);
    let mut i: usize = 0;
    while i < live.len()
        invariant
            all == text::views(live@),
            i <= live@.len(),
            forall|j: int| 0 <= j < i ==> !same_spot(#[trigger] all[j], owner@),
        decreases live@.len() - i,
    {
        assert(all[i as int] == live@[i as int]@);
        if same_worktree(&live[i], owner) {
            return true;
        }
        i += 1;
    }
    false
}

// ---------------------------------------------------------------------------
// Reclaiming
// ---------------------------------------------------------------------------

/// The last port of a block.
pub open spec fn block_end(base: u16, stride: u16) -> u16 {
    if base + stride - 1 > u16::MAX {
        u16::MAX
    } else {
        (base + stride - 1) as u16
    }
}

/// A block and its worktree, as a message names them.
pub open spec fn block_text(a: AssignmentView, stride: u16) -> Seq<char> {
    " block "@ + text::decimal_of(a.base as nat) + "-"@ + text::decimal_of(
        block_end(a.base, stride) as nat,
    ) + " (worktree "@ + a.worktree_id + ")"@
}

fn show_block(verb: &str, a: &Assignment, stride: u16) -> (r: String)
    requires
        stride >= 1,
    ensures
        r@ == verb@ + block_text(a@, stride),
{
    let mut tail = text::own(" block ");
    tail.append(&text::decimal(a.base as u64));
    tail.append("-");
    let last: u16 = if a.base > u16::MAX - (stride - 1) {
        u16::MAX
    } else {
        a.base + (stride - 1)
    };
    tail.append(&text::decimal(last as u64));
    tail.append(" (worktree ");
    tail.append(&a.worktree_id);
    tail.append(")");
    text::concat(verb, &tail)
}

/// Whether a block belongs to a worktree of this repository that is gone. Blocks of another
/// repository, and blocks written before paths were recorded, are left alone.
pub open spec fn is_stale(b: BlockView, repo_key: Seq<char>, live: Seq<SpotView>) -> bool {
    b.assignment.repo_key == repo_key && match b.owner {
        Some(owner) => !is_live(live, owner),
        None => false,
    }
}

/// What becomes of the first `k` blocks.
pub open spec fn block_steps(
    blocks: Seq<BlockView>,
    repo_key: Seq<char>,
    live: Seq<SpotView>,
    stride: u16,
    apply: bool,
    k: int,
) -> Seq<GcStepView>
    decreases k,
{
    if k <= 0 {
        Seq::empty()
    } else {
        let before = block_steps(blocks, repo_key, live, stride, apply, k - 1);
        let b = blocks[k - 1];
        if !is_stale(b, repo_key, live) {
            before
        } else if apply {
            before.push(GcStepView::Say("released"@ + block_text(b.assignment, stride))).push(
                GcStepView::RemoveFile(b.file),
            )
        } else {
            before.push(GcStepView::Say("would release"@ + block_text(b.assignment, stride)))
        }
    }
}

/// The compose project that an environment names, from line `k` on.
pub open spec fn project_from(lines: Seq<Seq<char>>, k: int) -> Option<Seq<char>>
    decreases lines.len() - k,
{
    if k < 0 || k >= lines.len() {
        None
    } else {
        match text::strip_prefix_of(lines[k], "COMPOSE_PROJECT_NAME="@) {
            Some(value) => if text::trim_of(value).len() > 0 {
                Some(text::trim_of(value))
            } else {
                None
            },
            None => project_from(lines, k + 1),
        }
    }
}

/// The compose project a worktree last ran, from the environment `up` wrote.
pub fn recorded_project(env: &str) -> (r: Option<String>)
    ensures
        text::opt_view(r) == project_from(text::lines_of(env@), 0),
{
    let lines = text::lines(env);
    let ghost all = text::lines_of(env@);
    let mut k: usize = 0;
    while k < lines.len()
        invariant
            all == text::lines_of(env@),
            all == text::views(lines@),
            k <= lines@.len(),
            project_from(all, 0) == project_from(all, k as int),
        decreases lines@.len() - k,
    {
        assert(all[k as int] == lines@[k as int]@);
        if let Some(value) = text::strip_prefix(&lines[k], "COMPOSE_PROJECT_NAME=") {
            let value = text::trim(&value);
            return if text::length(&value) > 0 {
                Some(value)
            } else {
                None
            };
        }
        k += 1;
    }
    None
}

/// Whether a state directory describes a worktree of this repository that is gone. Without an owner
/// the state cannot be attributed to a checkout, and dropping it would be a guess.
pub open spec fn is_abandoned(s: StateDirView, repo_key: Seq<char>, live: Seq<SpotView>) -> bool {
    s.repo_key == repo_key && match s.owner {
        Some(owner) => !is_live(live, owner),
        None => false,
    }
}

/// The checkout that a state directory names.
pub open spec fn owner_text(s: StateDirView) -> Seq<char> {
    match s.assignment {
        Some(a) => match a.worktree_path {
            Some(path) => path,
            None => ""@,
        },
        None => ""@,
    }
}

/// What is said of the first `k` processes that are alive.
pub open spec fn running_steps(
    running: Seq<(Seq<char>, i32)>,
    owner: Seq<char>,
    apply: bool,
    k: int,
) -> Seq<GcStepView>
    decreases k,
{
    if k <= 0 {
        Seq::empty()
    } else {
        running_steps(running, owner, apply, k - 1).push(
            GcStepView::Say(
                (if apply {
                    "stopping "@
                } else {
                    "would stop "@
                }) + running[k - 1].0 + " (pid "@ + text::signed_decimal_of(
                    running[k - 1].1 as int,
                ) + ") of worktree "@ + owner,
            ),
        )
    }
}

/// What becomes of one abandoned state directory.
pub open spec fn abandoned_steps(s: StateDirView, apply: bool) -> Seq<GcStepView> {
    running_steps(s.running, owner_text(s), apply, s.running.len() as int) + (if apply {
        seq![GcStepView::StopAll(s.dir), GcStepView::RemoveDir(s.dir)]
    } else {
        Seq::empty()
    })
}

/// What becomes of the first `k` state directories.
pub open spec fn state_steps(
    states: Seq<StateDirView>,
    repo_key: Seq<char>,
    live: Seq<SpotView>,
    apply: bool,
    k: int,
) -> Seq<GcStepView>
    decreases k,
{
    if k <= 0 {
        Seq::empty()
    } else {
        let before = state_steps(states, repo_key, live, apply, k - 1);
        if is_abandoned(states[k - 1], repo_key, live) {
            before + abandoned_steps(states[k - 1], apply)
        } else {
            before
        }
    }
}

/// How many of the first `k` state directories are abandoned.
pub open spec fn abandoned_count(
    states: Seq<StateDirView>,
    repo_key: Seq<char>,
    live: Seq<SpotView>,
    k: int,
) -> nat
    decreases k,
{
    if k <= 0 {
        0
    } else if is_abandoned(states[k - 1], repo_key, live) {
        abandoned_count(states, repo_key, live, k - 1) + 1
    } else {
        abandoned_count(states, repo_key, live, k - 1)
    }
}

/// The compose projects of the abandoned ones among the first `k` state directories.
pub open spec fn abandoned_projects(
    states: Seq<StateDirView>,
    repo_key: Seq<char>,
    live: Seq<SpotView>,
    k: int,
) -> Seq<Seq<char>>
    decreases k,
{
    if k <= 0 {
        Seq::empty()
    } else {
        let before = abandoned_projects(states, repo_key, live, k - 1);
        let s = states[k - 1];
        match s.env {
            Some(env) => match project_from(text::lines_of(env), 0) {
                Some(project) => if is_abandoned(s, repo_key, live) {
                    before.push(project)
                } else {
                    before
                },
                None => before,
            },
            None => before,
        }
    }
}

/// What a sweep of one repository does.
pub open spec fn gc_steps(
    state_dir: Seq<char>,
    repo_key: Seq<char>,
    live: Seq<SpotView>,
    blocks: Seq<BlockView>,
    states: Seq<StateDirView>,
    stride: u16,
    apply: bool,
) -> Seq<GcStepView> {
    let released = block_steps(blocks, repo_key, live, stride, apply, blocks.len() as int);
    released + (if released.len() == 0 {
        seq![GcStepView::Say("no stale port blocks for this repository"@)]
    } else {
        Seq::empty()
    }) + state_steps(states, repo_key, live, apply, states.len() as int) + (if abandoned_count(
        states,
        repo_key,
        live,
        states.len() as int,
    ) == 0 {
        seq![GcStepView::Say("no stale worktree state for this repository"@)]
    } else {
        Seq::empty()
    }) + (if apply {
        seq![
            GcStepView::RemoveEmptyDir(
                paths::join_of(paths::join_of(state_dir, "worktrees"@), repo_key),
            ),
        ]
    } else {
        Seq::empty()
    })
}

fn say(steps: &mut Vec<GcStep>, line: String)
    ensures
        text::views(final(steps)@) == text::views(old(steps)@).push(GcStepView::Say(line@)),
{
    broadcast use text::views_push;

    steps.push(GcStep::Say(line));
}

fn sweep_blocks(
    blocks: &Vec<Block>,
    repo_key: &str,
    live: &Vec<Spot>,
    stride: u16,
    apply: bool,
) -> (r: Vec<GcStep>)
    requires
        stride >= 1,
    ensures
        text::views(r@) == block_steps(
            text::views(blocks@),
            repo_key@,
            text::views(live@),
            stride,
            apply,
            blocks@.len() as int,
        ),
{
    let ghost all = text::views(blocks@);
    let mut steps: Vec<GcStep> = Vec::new();
    let mut k: usize = 0;
    assert(text::views(steps@) =~= Seq::<GcStepView>::empty());
    while k < blocks.len()
        invariant
            stride >= 1,
            all == text::views(blocks@),
            k <= blocks@.len(),
            text::views(steps@) == block_steps(
                all,
                repo_key@,
                text::views(live@),
                stride,
                apply,
                k as int,
            ),
        decreases blocks@.len() - k,
    {
        broadcast use text::views_push;

        let block = &blocks[k];
        assert(all[k as int] == block@);
        let stale = text::same(&block.assignment.repo_key, repo_key) && match &block.owner {
            Some(owner) => !among_live(live, owner),
            None => false,
        };
        if stale {
            let verb = if apply {
                "released"
            } else {
                "would release"
            };
            say(&mut steps, show_block(verb, &block.assignment, stride));
            if apply {
                steps.push(GcStep::RemoveFile(block.file.clone()));
            }
        }
        k += 1;
    }
    steps
}

fn sweep_abandoned(steps: &mut Vec<GcStep>, s: &StateDir, apply: bool)
    ensures
        text::views(final(steps)@) == text::views(old(steps)@) + abandoned_steps(s@, apply),
{
    broadcast use text::views_push;

    let ghost start = text::views(steps@);
    let owner = match &s.assignment {
        Some(a) => match &a.worktree_path {
            Some(path) => path.clone(),
            None => text::own(""),
        },
        None => text::own(""),
    };
    let n: usize = s.running.len();
    let mut k: usize = 0;
    assert(start + Seq::<GcStepView>::empty() =~= start);
    while k < n
        invariant
            n == s@.running.len(),
            owner@ == owner_text(s@),
            k <= n,
            text::views(steps@) == start + running_steps(
                s@.running,
                owner@,
                apply,
                k as int,
            ),
        decreases n - k,
    {
        let mut line = if apply {
            text::own("stopping ")
        } else {
            text::own("would stop ")
        };
        line.append(s.running.key_at(k));
        line.append(" (pid ");
        line.append(&text::signed_decimal(*s.running.value_at(k) as i64));
        line.append(") of worktree ");
        line.append(&owner);
        say(steps, line);
        k += 1;
        assert(text::views(steps@) =~= start + running_steps(
            s@.running,
            owner@,
            apply,
            k as int,
        ));
    }
    if apply {
        steps.push(GcStep::StopAll(s.dir.clone()));
        steps.push(GcStep::RemoveDir(s.dir.clone()));
    }
    assert(text::views(steps@) =~= start + abandoned_steps(s@, apply));
}

/// Release port blocks whose worktree no longer exists, stop the processes they left running, and
/// drop their state directories.
///
/// A checkout whose directory is gone is dead even when git still lists it, because nothing can be
/// running there. A directory that is left but is no longer a worktree is dead for the same reason.
/// The compose projects of the worktrees that are gone are handed on: their names are the only way
/// to reach a project whose containers are already gone.
pub fn gc(
    paths: &Paths,
    repo_key: &str,
    seen: &Vec<Sighting>,
    blocks: &Vec<Block>,
    states: &Vec<StateDir>,
    stride: u16,
    apply: bool,
) -> (r: Sweep)
    requires
        stride >= 1,
    ensures
        ({
            let live = live_of(text::views(seen@), repo_key@);
            &&& text::views(r.steps@) == gc_steps(
                paths.state_dir@,
                repo_key@,
                live,
                text::views(blocks@),
                text::views(states@),
                stride,
                apply,
            )
            &&& text::views(r.projects@) == abandoned_projects(
                text::views(states@),
                repo_key@,
                live,
                states@.len() as int,
            )
        }),
{
    let live = live_worktrees(seen, repo_key);
    let ghost lives = text::views(live@);
    let mut steps = sweep_blocks(blocks, repo_key, &live, stride, apply);
    let ghost released = text::views(steps@);
    if steps.len() == 0 {
        say(&mut steps, text::own("no stale port blocks for this repository"));
        assert(text::views(steps@) =~= released + seq![
            GcStepView::Say("no stale port blocks for this repository"@),
        ]);
    } else {
        assert(released + Seq::<GcStepView>::empty() =~= released);
    }
    let ghost before = text::views(steps@);
    let ghost all = text::views(states@);
    let mut projects: Vec<String> = Vec::new();
    let mut count: usize = 0;
    let mut k: usize = 0;
    assert(text::views(projects@) =~= Seq::<Seq<char>>::empty());
    assert(before + Seq::<GcStepView>::empty() =~= before);
    while k < states.len()
        invariant
            all == text::views(states@),
            lives == text::views(live@),
            count <= k <= states.len(),
            count == abandoned_count(all, repo_key@, lives, k as int),
            text::views(steps@) == before + state_steps(all, repo_key@, lives, apply, k as int),
            text::views(projects@) == abandoned_projects(all, repo_key@, lives, k as int),
        decreases states@.len() - k,
    {
        let s = &states[k];
        assert(all[k as int] == s@);
        let abandoned = text::same(&s.repo_key, repo_key) && match &s.owner {
            Some(owner) => !among_live(&live, owner),
            None => false,
        };
        if abandoned {
            count += 1;
            if let Some(env) = &s.env {
                if let Some(project) = recorded_project(env) {
                    text::add(&mut projects, &project);
                }
            }
            sweep_abandoned(&mut steps, s, apply);
        }
        k += 1;
        assert(text::views(steps@) =~= before + state_steps(
            all,
            repo_key@,
            lives,
            apply,
            k as int,
        ));
    }
    let ghost swept = text::views(steps@);
    if count == 0 {
        say(&mut steps, text::own("no stale worktree state for this repository"));
        assert(text::views(steps@) =~= swept + seq![
            GcStepView::Say("no stale worktree state for this repository"@),
        ]);
    } else {
        assert(swept + Seq::<GcStepView>::empty() =~= swept);
    }
    let ghost told = text::views(steps@);
    if apply {
        // An empty repository directory would otherwise be read as a repository by the next
        // `gc --all`.
        broadcast use text::views_push;

        let root = paths::join(&paths.worktrees_dir(), repo_key);
        steps.push(GcStep::RemoveEmptyDir(root));
        assert(text::views(steps@) =~= told + seq![
            GcStepView::RemoveEmptyDir(
                paths::join_of(paths::join_of(paths.state_dir@, "worktrees"@), repo_key@),
            ),
        ]);
    } else {
        assert(told + Seq::<GcStepView>::empty() =~= told);
    }
    Sweep { steps, projects }
}

/// The repositories of the first `k` blocks.
pub open spec fn block_repositories(blocks: Seq<BlockView>, k: int) -> Seq<Seq<char>>
    decreases k,
{
    if k <= 0 {
        Seq::empty()
    } else {
        dict::with_member(
            block_repositories(blocks, k - 1),
            blocks[k - 1].assignment.repo_key,
        )
    }
}

/// The repositories of blocks, with the first `k` names.
pub open spec fn with_names(known: Seq<Seq<char>>, names: Seq<Seq<char>>, k: int) -> Seq<Seq<char>>
    decreases k,
{
    if k <= 0 {
        known
    } else {
        dict::with_member(with_names(known, names, k - 1), names[k - 1])
    }
}

/// Repository keys the state dir holds blocks or worktree state for.
pub open spec fn repositories_of(blocks: Seq<BlockView>, dirs: Seq<Seq<char>>) -> Seq<Seq<char>> {
    with_names(block_repositories(blocks, blocks.len() as int), dirs, dirs.len() as int)
}

fn add_names(known: &mut Vec<String>, names: &Vec<String>)
    ensures
        text::views(final(known)@) == with_names(
            text::views(old(known)@),
            text::views(names@),
            names@.len() as int,
        ),
{
    let ghost start = text::views(known@);
    let ghost all = text::views(names@);
    let mut k: usize = 0;
    while k < names.len()
        invariant
            all == text::views(names@),
            k <= names@.len(),
            text::views(known@) == with_names(start, all, k as int),
        decreases names@.len() - k,
    {
        assert(all[k as int] == names@[k as int]@);
        dict::add_member(known, names[k].clone());
        k += 1;
    }
}

/// Repository keys the state dir holds blocks or worktree state for, in ascending order. `dirs` are
/// the directories of worktree state.
pub fn recorded_repositories(blocks: &Vec<Block>, dirs: &Vec<String>) -> (r: Vec<String>)
    ensures
        text::views(r@) == repositories_of(text::views(blocks@), text::views(dirs@)),
{
    let ghost all = text::views(blocks@);
    let mut keys: Vec<String> = Vec::new();
    let mut k: usize = 0;
    assert(text::views(keys@) =~= Seq::<Seq<char>>::empty());
    while k < blocks.len()
        invariant
            all == text::views(blocks@),
            k <= blocks@.len(),
            text::views(keys@) == block_repositories(all, k as int),
        decreases blocks@.len() - k,
    {
        assert(all[k as int] == blocks@[k as int]@);
        dict::add_member(&mut keys, blocks[k].assignment.repo_key.clone());
        k += 1;
    }
    add_names(&mut keys, dirs);
    keys
}

/// The checkouts that the first `k` blocks record for a repository.
pub open spec fn block_worktrees(blocks: Seq<BlockView>, repo_key: Seq<char>, k: int) -> Seq<
    Seq<char>,
>
    decreases k,
{
    if k <= 0 {
        Seq::empty()
    } else {
        let before = block_worktrees(blocks, repo_key, k - 1);
        let a = blocks[k - 1].assignment;
        match a.worktree_path {
            Some(path) => if a.repo_key == repo_key {
                paths::with_path(before, path)
            } else {
                before
            },
            None => before,
        }
    }
}

/// The checkouts that blocks record, with those of the first `k` state directories.
pub open spec fn with_state_worktrees(
    known: Seq<Seq<char>>,
    states: Seq<StateDirView>,
    repo_key: Seq<char>,
    k: int,
) -> Seq<Seq<char>>
    decreases k,
{
    if k <= 0 {
        known
    } else {
        let before = with_state_worktrees(known, states, repo_key, k - 1);
        match states[k - 1].assignment {
            Some(a) => match a.worktree_path {
                Some(path) => if states[k - 1].repo_key == repo_key {
                    paths::with_path(before, path)
                } else {
                    before
                },
                None => before,
            },
            None => before,
        }
    }
}

/// Every checkout recorded for a repository, from its blocks and its state dirs.
pub open spec fn checkouts_of(
    blocks: Seq<BlockView>,
    states: Seq<StateDirView>,
    repo_key: Seq<char>,
) -> Seq<Seq<char>> {
    with_state_worktrees(
        block_worktrees(blocks, repo_key, blocks.len() as int),
        states,
        repo_key,
        states.len() as int,
    )
}

/// Every checkout recorded for a repository, from its blocks and its state dirs.
pub fn recorded_worktrees(blocks: &Vec<Block>, states: &Vec<StateDir>, repo_key: &str) -> (r: Vec<
    String,
>)
    ensures
        text::views(r@) == checkouts_of(text::views(blocks@), text::views(states@), repo_key@),
{
    let ghost all = text::views(blocks@);
    let mut found: Vec<String> = Vec::new();
    let mut k: usize = 0;
    assert(text::views(found@) =~= Seq::<Seq<char>>::empty());
    while k < blocks.len()
        invariant
            all == text::views(blocks@),
            k <= blocks@.len(),
            text::views(found@) == block_worktrees(all, repo_key@, k as int),
        decreases blocks@.len() - k,
    {
        let a = &blocks[k].assignment;
        assert(all[k as int].assignment == a@);
        if let Some(path) = &a.worktree_path {
            if text::same(&a.repo_key, repo_key) {
                paths::add_path(&mut found, path.clone());
            }
        }
        k += 1;
    }
    let ghost known = text::views(found@);
    let ghost dirs = text::views(states@);
    let mut k: usize = 0;
    while k < states.len()
        invariant
            dirs == text::views(states@),
            k <= states@.len(),
            text::views(found@) == with_state_worktrees(known, dirs, repo_key@, k as int),
        decreases states@.len() - k,
    {
        let s = &states[k];
        assert(dirs[k as int] == s@);
        if let Some(a) = &s.assignment {
            if let Some(path) = &a.worktree_path {
                if text::same(&s.repo_key, repo_key) {
                    paths::add_path(&mut found, path.clone());
                }
            }
        }
        k += 1;
    }
    found
}

/// `gc` for every repository the state dir holds a record of, in the order of
/// [`recorded_repositories`]: `seen` says for each of them what is at its recorded checkouts.
///
/// A repository-scoped sweep needs the repository, so it cannot reach the case that matters most:
/// the repository itself is gone, while its worktrees' processes, volumes and port blocks are still
/// there. This walks the records instead, and applies the same rule.
pub fn gc_all(
    paths: &Paths,
    dirs: &Vec<String>,
    seen: &Vec<Vec<Sighting>>,
    blocks: &Vec<Block>,
    states: &Vec<StateDir>,
    stride: u16,
    apply: bool,
) -> (r: Vec<Sweep>)
    requires
        stride >= 1,
        seen@.len() == repositories_of(text::views(blocks@), text::views(dirs@)).len(),
    ensures
        ({
            let repositories = repositories_of(text::views(blocks@), text::views(dirs@));
            &&& r@.len() == repositories.len()
            &&& forall|i: int|
                0 <= i < repositories.len() ==> text::views((#[trigger] r@[i]).steps@) == gc_steps(
                    paths.state_dir@,
                    repositories[i],
                    live_of(text::views(seen@[i]@), repositories[i]),
                    text::views(blocks@),
                    text::views(states@),
                    stride,
                    apply,
                ) && text::views(r@[i].projects@) == abandoned_projects(
                    text::views(states@),
                    repositories[i],
                    live_of(text::views(seen@[i]@), repositories[i]),
                    states@.len() as int,
                )
        }),
{
    let keys = recorded_repositories(blocks, dirs);
    let ghost repositories = text::views(keys@);
    let mut out: Vec<Sweep> = Vec::new();
    let mut i: usize = 0;
    while i < keys.len()
        invariant
            stride >= 1,
            repositories == text::views(keys@),
            seen@.len() == keys@.len(),
            i <= keys@.len(),
            out@.len() == i,
            forall|j: int|
                0 <= j < i ==> text::views((#[trigger] out@[j]).steps@) == gc_steps(
                    paths.state_dir@,
                    repositories[j],
                    live_of(text::views(seen@[j]@), repositories[j]),
                    text::views(blocks@),
                    text::views(states@),
                    stride,
                    apply,
                ) && text::views(out@[j].projects@) == abandoned_projects(
                    text::views(states@),
                    repositories[j],
                    live_of(text::views(seen@[j]@), repositories[j]),
                    states@.len() as int,
                ),
        decreases keys@.len() - i,
    {
        assert(repositories[i as int] == keys@[i as int]@);
        let sweep = gc(paths, &keys[i], &seen[i], blocks, states, stride, apply);
        out.push(sweep);
        i += 1;
    }
    out
}

/// What is said of a process that `rm` stops.
pub fn stopping_line(name: &str, pid: i32, worktree_id: &str) -> (r: String)
    ensures
        r@ == "stopping "@ + name@ + " (pid "@ + text::signed_decimal_of(pid as int)
            + ") of worktree "@ + worktree_id@,
{
    let mut line = text::own("stopping ");
    line.append(name);
    line.append(" (pid ");
    line.append(&text::signed_decimal(pid as i64));
    line.append(") of worktree ");
    line.append(worktree_id);
    line
}

/// What is said once the port block of a removed worktree is released: without a record nothing was
/// reserved.
///
/// `rm` drops everything magictree recorded for a worktree itself, so a removal leaves nothing
/// behind for a later sweep to find.
pub fn forget(assignment: &Option<Assignment>, stride: u16) -> (r: Option<String>)
    requires
        stride >= 1,
    ensures
        text::opt_view(r) == (match *assignment {
            Some(a) => Some("released"@ + block_text(a@, stride)),
            None => None,
        }),
{
    match assignment {
        Some(a) => Some(show_block("released", a, stride)),
        None => None,
    }
}

// ---------------------------------------------------------------------------
// Compose resources of worktrees that are gone
// ---------------------------------------------------------------------------

/// The docker arguments that list the containers of a repository: another repository's worktrees
/// are not ours to decide about, however stale their paths look from here.
pub fn container_query(repo_key: &str) -> (r: Vec<String>)
    ensures
        text::views(r@) == seq![
            "ps"@,
            "-a"@,
            "--filter"@,
            "label=magictree.repo="@ + repo_key@,
            "--format"@,
            "{{.ID}}\t{{.Label \"magictree.worktree\"}}\t{{.Label \"magictree.project\"}}"@,
        ],
{
    let mut args: Vec<String> = Vec::new();
    text::add(&mut args, "ps");
    text::add(&mut args, "-a");
    text::add(&mut args, "--filter");
    text::add(&mut args, &text::concat("label=magictree.repo=", repo_key));
    text::add(&mut args, "--format");
    text::add(
        &mut args,
        "{{.ID}}\t{{.Label \"magictree.worktree\"}}\t{{.Label \"magictree.project\"}}",
    );
    assert(text::views(args@) =~= seq![
        "ps"@,
        "-a"@,
        "--filter"@,
        "label=magictree.repo="@ + repo_key@,
        "--format"@,
        "{{.ID}}\t{{.Label \"magictree.worktree\"}}\t{{.Label \"magictree.project\"}}"@,
    ]);
    args
}

/// A part of a line, where it has so many.
pub open spec fn part_of(parts: Seq<Seq<char>>, i: int) -> Seq<char> {
    if 0 <= i < parts.len() {
        parts[i]
    } else {
        ""@
    }
}

/// The container that a line names; none where it has no owner.
pub open spec fn container_of(line: Seq<char>) -> Option<ContainerView> {
    let parts = text::split_of(line, '\t');
    if text::trim_of(line).len() == 0 || part_of(parts, 1).len() == 0 {
        None
    } else {
        Some(
            ContainerView { id: part_of(parts, 0), owner: part_of(parts, 1), project: part_of(parts, 2) },
        )
    }
}

/// The containers that the first `k` lines name.
pub open spec fn containers_upto(lines: Seq<Seq<char>>, k: int) -> Seq<ContainerView>
    decreases k,
{
    if k <= 0 {
        Seq::empty()
    } else {
        match container_of(lines[k - 1]) {
            Some(c) => containers_upto(lines, k - 1).push(c),
            None => containers_upto(lines, k - 1),
        }
    }
}

fn pick_part(parts: &Vec<String>, i: usize) -> (r: String)
    ensures
        r@ == part_of(text::views(parts@), i as int),
{
    if i < parts.len() {
        parts[i].clone()
    } else {
        text::own("")
    }
}

/// The containers that docker lists and that belong to a worktree.
pub fn containers(output: &str) -> (r: Vec<Container>)
    ensures
        text::views(r@) == containers_upto(
            text::lines_of(output@),
            text::lines_of(output@).len() as int,
        ),
{
    let lines = text::lines(output);
    let ghost all = text::lines_of(output@);
    let mut out: Vec<Container> = Vec::new();
    let mut k: usize = 0;
    assert(text::views(out@) =~= Seq::<ContainerView>::empty());
    while k < lines.len()
        invariant
            all == text::views(lines@),
            k <= lines@.len(),
            text::views(out@) == containers_upto(all, k as int),
        decreases lines@.len() - k,
    {
        broadcast use text::views_push;

        assert(all[k as int] == lines@[k as int]@);
        if text::length(&text::trim(&lines[k])) > 0 {
            let parts = text::split(&lines[k], '\t');
            let owner = pick_part(&parts, 1);
            if text::length(&owner) > 0 {
                out.push(
                    Container { id: pick_part(&parts, 0), owner, project: pick_part(&parts, 2) },
                );
            }
        }
        k += 1;
    }
    out
}

/// The ids of the first `k` containers whose worktree is gone, by project.
pub open spec fn orphans_upto(
    containers: Seq<ContainerView>,
    owners: Seq<SpotView>,
    live: Seq<SpotView>,
    k: int,
) -> Seq<(Seq<char>, Seq<Seq<char>>)>
    decreases k,
{
    if k <= 0 {
        Seq::empty()
    } else {
        let before = orphans_upto(containers, owners, live, k - 1);
        let c = containers[k - 1];
        if is_live(live, owners[k - 1]) {
            before
        } else {
            dict::put(
                before,
                c.project,
                (match dict::lookup(before, c.project) {
                    Some(ids) => ids,
                    None => Seq::empty(),
                }).push(c.id),
            )
        }
    }
}

/// The ids of the containers whose worktree is gone, by project. `owners` are the places of their
/// worktrees.
pub fn orphans(containers: &Vec<Container>, owners: &Vec<Spot>, live: &Vec<Spot>) -> (r: Dict<Texts>)
    requires
        owners@.len() == containers@.len(),
    ensures
        r@ == orphans_upto(
            text::views(containers@),
            text::views(owners@),
            text::views(live@),
            containers@.len() as int,
        ),
{
    let ghost all = text::views(containers@);
    let ghost places = text::views(owners@);
    let mut out: Dict<Texts> = Dict::new();
    let mut k: usize = 0;
    while k < containers.len()
        invariant
            all == text::views(containers@),
            places == text::views(owners@),
            owners@.len() == containers@.len(),
            k <= containers@.len(),
            out@ == orphans_upto(all, places, text::views(live@), k as int),
        decreases containers@.len() - k,
    {
        let c = &containers[k];
        assert(all[k as int] == c@);
        assert(places[k as int] == owners@[k as int]@);
        if !among_live(live, &owners[k]) {
            let mut list = match out.get(&c.project) {
                Some(ids) => text::clone_texts(&ids.list),
                None => Vec::new(),
            };
            assert(dict::lookup(out@, c@.project) is None ==> text::views(list@) =~= Seq::<
                Seq<char>,
            >::empty());
            text::add(&mut list, &c.id);
            out.insert(c.project.clone(), Texts { list });
        }
        k += 1;
    }
    out
}

/// The names of the first `k` projects.
pub open spec fn project_names(orphans: Seq<(Seq<char>, Seq<Seq<char>>)>, k: int) -> Seq<Seq<char>>
    decreases k,
{
    if k <= 0 {
        Seq::empty()
    } else {
        dict::with_member(project_names(orphans, k - 1), orphans[k - 1].0)
    }
}

/// The projects to sweep: those of containers whose worktree is gone, and those that worktrees
/// recorded, because a project whose containers are already gone is otherwise invisible.
pub open spec fn swept_projects(
    orphans: Seq<(Seq<char>, Seq<Seq<char>>)>,
    recorded: Seq<Seq<char>>,
) -> Seq<Seq<char>> {
    with_names(project_names(orphans, orphans.len() as int), recorded, recorded.len() as int)
}

/// The projects to sweep, in ascending order.
pub fn compose_projects(orphans: &Dict<Texts>, recorded: &Vec<String>) -> (r: Vec<String>)
    ensures
        text::views(r@) == swept_projects(orphans@, text::views(recorded@)),
{
    let n: usize = orphans.len();
    let mut names: Vec<String> = Vec::new();
    let mut k: usize = 0;
    assert(text::views(names@) =~= Seq::<Seq<char>>::empty());
    while k < n
        invariant
            n == orphans@.len(),
            k <= n,
            text::views(names@) == project_names(orphans@, k as int),
        decreases n - k,
    {
        dict::add_member(&mut names, orphans.key_at(k).clone());
        k += 1;
    }
    add_names(&mut names, recorded);
    names
}

/// What becomes of the containers of the first `k` projects.
pub open spec fn container_steps(
    orphans: Seq<(Seq<char>, Seq<Seq<char>>)>,
    apply: bool,
    k: int,
) -> Seq<ComposeStepView>
    decreases k,
{
    if k <= 0 {
        Seq::empty()
    } else {
        let said = container_steps(orphans, apply, k - 1).push(
            ComposeStepView::Say(
                (if apply {
                    "removing "@
                } else {
                    "would remove "@
                }) + text::decimal_of(orphans[k - 1].1.len())
                    + " orphaned container(s) in project '"@ + orphans[k - 1].0 + "'"@,
            ),
        );
        if apply {
            said.push(ComposeStepView::Run(seq!["rm"@, "-f"@] + orphans[k - 1].1))
        } else {
            said
        }
    }
}

/// Remove containers of worktrees that no longer exist. Resources of unrelated projects are never
/// touched.
pub fn sweep_compose(orphans: &Dict<Texts>, projects: &Vec<String>, apply: bool) -> (r: Vec<
    ComposeStep,
>)
    ensures
        text::views(r@) == (if projects@.len() == 0 {
            seq![ComposeStepView::Say("no orphaned compose containers for this repository"@)]
        } else {
            container_steps(orphans@, apply, orphans@.len() as int)
        }),
{
    broadcast use text::views_push;

    let mut steps: Vec<ComposeStep> = Vec::new();
    assert(text::views(steps@) =~= Seq::<ComposeStepView>::empty());
    if projects.len() == 0 {
        steps.push(
            ComposeStep::Say(text::own("no orphaned compose containers for this repository")),
        );
        assert(text::views(steps@) =~= seq![
            ComposeStepView::Say("no orphaned compose containers for this repository"@),
        ]);
        return steps;
    }
    let n: usize = orphans.len();
    let mut k: usize = 0;
    while k < n
        invariant
            n == orphans@.len(),
            k <= n,
            text::views(steps@) == container_steps(orphans@, apply, k as int),
        decreases n - k,
    {
        broadcast use text::views_push;

        let ids = &orphans.value_at(k).list;
        let mut line = if apply {
            text::own("removing ")
        } else {
            text::own("would remove ")
        };
        line.append(&text::decimal(ids.len() as u64));
        line.append(" orphaned container(s) in project '");
        line.append(orphans.key_at(k));
        line.append("'");
        steps.push(ComposeStep::Say(line));
        if apply {
            let mut args: Vec<String> = Vec::new();
            text::add(&mut args, "rm");
            text::add(&mut args, "-f");
            assert(text::views(args@) =~= seq!["rm"@, "-f"@]);
            text::add_all(&mut args, ids);
            steps.push(ComposeStep::Run(args));
        }
        k += 1;
    }
    steps
}

/// The docker arguments that list the volumes of a project. Compose labels volumes with its own
/// keys and a service label never reaches them, so they are looked up through their project.
pub fn volume_query(project: &str) -> (r: Vec<String>)
    ensures
        text::views(r@) == seq![
            "volume"@,
            "ls"@,
            "--filter"@,
            "label=com.docker.compose.project="@ + project@,
            "--format"@,
            "{{.Name}}"@,
        ],
{
    let mut args: Vec<String> = Vec::new();
    text::add(&mut args, "volume");
    text::add(&mut args, "ls");
    text::add(&mut args, "--filter");
    text::add(&mut args, &text::concat("label=com.docker.compose.project=", project));
    text::add(&mut args, "--format");
    text::add(&mut args, "{{.Name}}");
    assert(text::views(args@) =~= seq![
        "volume"@,
        "ls"@,
        "--filter"@,
        "label=com.docker.compose.project="@ + project@,
        "--format"@,
        "{{.Name}}"@,
    ]);
    args
}

/// What becomes of the volumes that the first `k` lines name.
pub open spec fn volume_steps(lines: Seq<Seq<char>>, apply: bool, k: int) -> Seq<ComposeStepView>
    decreases k,
{
    if k <= 0 {
        Seq::empty()
    } else {
        let before = volume_steps(lines, apply, k - 1);
        let name = text::trim_of(lines[k - 1]);
        if name.len() == 0 {
            before
        } else if apply {
            before.push(ComposeStepView::Say("removing volume "@ + name)).push(
                ComposeStepView::Run(seq!["volume"@, "rm"@, name]),
            )
        } else {
            before.push(ComposeStepView::Say("would remove volume "@ + name))
        }
    }
}

/// Remove the volumes that docker lists. A volume still attached to a container of another project
/// is not ours to force: a failed removal is reported, and the rest is reclaimed.
pub fn sweep_volumes(output: &str, apply: bool) -> (r: Vec<ComposeStep>)
    ensures
        text::views(r@) == volume_steps(
            text::lines_of(output@),
            apply,
            text::lines_of(output@).len() as int,
        ),
{
    let lines = text::lines(output);
    let ghost all = text::lines_of(output@);
    let mut steps: Vec<ComposeStep> = Vec::new();
    let mut k: usize = 0;
    assert(text::views(steps@) =~= Seq::<ComposeStepView>::empty());
    while k < lines.len()
        invariant
            all == text::views(lines@),
            k <= lines@.len(),
            text::views(steps@) == volume_steps(all, apply, k as int),
        decreases lines@.len() - k,
    {
        broadcast use text::views_push;

        assert(all[k as int] == lines@[k as int]@);
        let name = text::trim(&lines[k]);
        if text::length(&name) > 0 {
            if apply {
                steps.push(ComposeStep::Say(text::concat("removing volume ", &name)));
                let mut args: Vec<String> = Vec::new();
                text::add(&mut args, "volume");
                text::add(&mut args, "rm");
                text::add(&mut args, &name);
                assert(text::views(args@) =~= seq!["volume"@, "rm"@, name@]);
                steps.push(ComposeStep::Run(args));
            } else {
                steps.push(ComposeStep::Say(text::concat("would remove volume ", &name)));
            }
        }
        k += 1;
    }
    steps
}

/// What is said of a volume that could not be removed.
pub fn volume_failed(name: &str, error: &str) -> (r: String)
    ensures
        r@ == "could not remove volume "@ + name@ + ": "@ + error@,
{
    let mut line = text::own("could not remove volume ");
    line.append(name);
    line.append(": ");
    line.append(error);
    line
}

/// What is said when docker cannot be consulted, so a sweep never presents a clean result that is
/// really "docker is broken". Without an answer from docker at all, it is not available.
pub fn docker_skipped(args: &Vec<String>, stderr: &Option<String>) -> (r: String)
    ensures
        r@ == (match *stderr {
            None => "warning: docker is not available; compose checks were skipped"@,
            Some(stderr) => "warning: docker "@ + (if args@.len() > 0 {
                args@[0]@
            } else {
                "command"@
            }) + " failed ("@ + text::trim_of(stderr@) + "); compose checks were skipped"@,
        }),
{
    match stderr {
        None => text::own("warning: docker is not available; compose checks were skipped"),
        Some(stderr) => {
            let mut line = text::own("warning: docker ");
            if args.len() > 0 {
                line.append(&args[0]);
            } else {
                line.append("command");
            }
            line.append(" failed (");
            line.append(&text::trim(stderr));
            line.append("); compose checks were skipped");
            line
        },
    }
}

/// What is said of a docker call that failed.
pub fn docker_failed(args: &Vec<String>, stderr: &str) -> (r: String)
    ensures
        r@ == "docker "@ + text::join_of(text::views(args@), " "@) + " failed: "@ + text::trim_of(
            stderr@,
        ),
{
    let mut line = text::own("docker ");
    line.append(&text::join(args, " "));
    line.append(" failed: ");
    line.append(&text::trim(stderr));
    line
}

// ---------------------------------------------------------------------------
// Listing
// ---------------------------------------------------------------------------

/// The ports of an assignment, each with its name.
pub open spec fn port_parts(ports: Seq<(Seq<char>, u16)>) -> Seq<Seq<char>> {
    Seq::new(ports.len(), |i: int| ports[i].0 + "="@ + text::decimal_of(ports[i].1 as nat))
}

/// One-line summary of a block's ports.
pub open spec fn ports_text(a: AssignmentView) -> Seq<char> {
    text::join_of(text::sorted_of(port_parts(a.ports)), " "@)
}

/// One-line summary of a block's ports, for `list`.
pub fn describe_ports(assignment: &Assignment) -> (r: String)
    ensures
        r@ == ports_text(assignment@),
{
    let n: usize = assignment.ports.len();
    let ghost goal = port_parts(assignment@.ports);
    let mut parts: Vec<String> = Vec::new();
    let mut k: usize = 0;
    assert(text::views(parts@) =~= goal.take(0));
    while k < n
        invariant
            n == assignment@.ports.len(),
            goal == port_parts(assignment@.ports),
            k <= n,
            text::views(parts@) == goal.take(k as int),
        decreases n - k,
    {
        let mut part = assignment.ports.key_at(k).clone();
        part.append("=");
        part.append(&text::decimal(*assignment.ports.value_at(k) as u64));
        text::add(&mut parts, &part);
        k += 1;
        assert(text::views(parts@) =~= goal.take(k as int));
    }
    assert(goal.take(n as int) =~= goal);
    text::join(&text::sort(&parts), " ")
}

/// Where an administrative directory's `gitdir` file points: a relative pointer is resolved against
/// the directory that holds the file, not against the one the reader happens to be running in.
pub fn admin_pointer(dir: &str, raw: &str) -> (r: String)
    ensures
        r@ == paths::join_of(dir@, text::trim_of(raw@)),
{
    paths::join(dir, &text::trim(raw))
}

/// The identity of the worktree at a place, among the administrative directories from `k` on.
pub open spec fn admin_from(dirs: Seq<AdminDirView>, worktree: Seq<char>, k: int) -> Option<
    Seq<char>,
>
    decreases dirs.len() - k,
{
    if k < 0 || k >= dirs.len() {
        None
    } else if dirs[k].checkout matches Some(checkout) && paths::same_path(checkout, worktree) {
        Some(repo::linked_id_of(dirs[k].dir))
    } else {
        admin_from(dirs, worktree, k + 1)
    }
}

/// Find the identity of the worktree at `worktree`, from the administrative directory git assigned
/// it.
pub fn admin_id(dirs: &Vec<AdminDir>, worktree: &str) -> (r: Option<String>)
    ensures
        text::opt_view(r) == admin_from(text::views(dirs@), worktree@, 0),
{
    let ghost all = text::views(dirs@);
    let mut k: usize = 0;
    while k < dirs.len()
        invariant
            all == text::views(dirs@),
            k <= dirs@.len(),
            admin_from(all, worktree@, 0) == admin_from(all, worktree@, k as int),
        decreases dirs@.len() - k,
    {
        assert(all[k as int] == dirs@[k as int]@);
        if let Some(checkout) = &dirs[k].checkout {
            if paths::is_same_path(checkout, worktree) {
                return Some(repo::linked_worktree_id(&dirs[k].dir));
            }
        }
        k += 1;
    }
    None
}

/// The rows of the first `k` worktrees. One without an identity is the primary checkout, which is
/// not a worktree `rm` can remove.
pub open spec fn rows_upto(
    repo_key: Seq<char>,
    entries: Seq<WorktreeEntryView>,
    ids: Seq<Option<Seq<char>>>,
    recorded: Seq<AssignmentView>,
    k: int,
) -> Seq<RowView>
    decreases k,
{
    if k <= 0 {
        Seq::empty()
    } else {
        let before = rows_upto(repo_key, entries, ids, recorded, k - 1);
        match ids[k - 1] {
            Some(id) => before.push(
                RowView {
                    id,
                    path: entries[k - 1].path,
                    ports: match ports::find_assignment(recorded, repo_key, id, 0) {
                        Some(a) => ports_text(a),
                        None => "-"@,
                    },
                },
            ),
            None => before,
        }
    }
}

/// The identities of worktrees, where they have one.
pub open spec fn id_views(ids: Seq<Option<String>>) -> Seq<Option<Seq<char>>> {
    Seq::new(ids.len(), |i: int| text::opt_view(ids[i]))
}

/// Rows for `list`: the linked worktrees of this repository with their ports. `ids` holds the
/// identity of each worktree that git lists.
pub fn worktree_rows(
    repo: &Repo,
    entries: &Vec<WorktreeEntry>,
    ids: &Vec<Option<String>>,
    recorded: &Vec<Assignment>,
) -> (r: Vec<Row>)
    requires
        ids@.len() == entries@.len(),
    ensures
        text::views(r@) == rows_upto(
            repo@.key_of(),
            text::views(entries@),
            id_views(ids@),
            text::views(recorded@),
            entries@.len() as int,
        ),
{
    let key = repo.key();
    let ghost all = text::views(entries@);
    let ghost names = id_views(ids@);
    let ghost known = text::views(recorded@);
    let mut rows: Vec<Row> = Vec::new();
    let mut k: usize = 0;
    assert(text::views(rows@) =~= Seq::<RowView>::empty());
    while k < entries.len()
        invariant
            key@ == repo@.key_of(),
            all == text::views(entries@),
            names == id_views(ids@),
            known == text::views(recorded@),
            ids@.len() == entries@.len(),
            k <= entries@.len(),
            text::views(rows@) == rows_upto(key@, all, names, known, k as int),
        decreases entries@.len() - k,
    {
        broadcast use text::views_push;

        assert(all[k as int] == entries@[k as int]@);
        assert(names[k as int] == text::opt_view(ids@[k as int]));
        if let Some(id) = &ids[k] {
            let ports = match ports::load(recorded, &key, id) {
                Some(a) => describe_ports(a),
                None => text::own("-"),
            };
            rows.push(Row { id: id.clone(), path: entries[k].path.clone(), ports });
        }
        k += 1;
    }
    rows
}

/// The order of records: by repository, then by worktree.
pub open spec fn key_before(a: (Seq<char>, Seq<char>), b: (Seq<char>, Seq<char>)) -> bool {
    text::before(a.0, b.0) || a.0 == b.0 && text::before(a.1, b.1)
}

/// A record as the first mention of its worktree makes it.
pub open spec fn first_record(
    repo_key: Seq<char>,
    id: Seq<char>,
    path: Option<Seq<char>>,
    ports: Option<Seq<char>>,
) -> RecordedWorktreeView {
    RecordedWorktreeView {
        repo_key,
        repo_path: None,
        worktree_id: id,
        path,
        ports: match ports {
            Some(ports) => ports,
            None => ""@,
        },
        live: None,
    }
}

/// A record with another mention of its worktree: a path stays, and ports are replaced.
pub open spec fn merged_record(
    row: RecordedWorktreeView,
    path: Option<Seq<char>>,
    ports: Option<Seq<char>>,
) -> RecordedWorktreeView {
    RecordedWorktreeView {
        path: if row.path is Some {
            row.path
        } else {
            path
        },
        ports: match ports {
            Some(ports) => ports,
            None => row.ports,
        },
        ..row
    }
}

/// The records with one mention of a worktree.
pub open spec fn with_record(
    rows: Seq<RecordedWorktreeView>,
    repo_key: Seq<char>,
    id: Seq<char>,
    path: Option<Seq<char>>,
    ports: Option<Seq<char>>,
) -> Seq<RecordedWorktreeView>
    decreases rows.len(),
{
    if rows.len() == 0 {
        seq![first_record(repo_key, id, path, ports)]
    } else {
        let last = rows.last();
        if last.repo_key == repo_key && last.worktree_id == id {
            rows.drop_last().push(merged_record(last, path, ports))
        } else if key_before((repo_key, id), (last.repo_key, last.worktree_id)) {
            with_record(rows.drop_last(), repo_key, id, path, ports).push(last)
        } else {
            rows.push(first_record(repo_key, id, path, ports))
        }
    }
}

fn add_record(
    rows: &mut Vec<RecordedWorktree>,
    repo_key: &str,
    id: &str,
    path: &Option<String>,
    ports: &Option<String>,
)
    ensures
        text::views(final(rows)@) == with_record(
            text::views(old(rows)@),
            repo_key@,
            id@,
            text::opt_view(*path),
            text::opt_view(*ports),
        ),
    decreases old(rows)@.len(),
{
    broadcast use text::views_push;

    let ghost before = text::views(rows@);
    let fresh = RecordedWorktree {
        repo_key: text::own(repo_key),
        repo_path: None,
        worktree_id: text::own(id),
        path: text::clone_opt(path),
        ports: match ports {
            Some(ports) => ports.clone(),
            None => text::own(""),
        },
        live: None,
    };
    match rows.pop() {
        None => {
            rows.push(fresh);
            assert(text::views(rows@) =~= seq![
                first_record(repo_key@, id@, text::opt_view(*path), text::opt_view(*ports)),
            ]);
        },
        Some(last) => {
            assert(before.last() == last@);
            assert(text::views(rows@) =~= before.drop_last());
            if text::same(&last.repo_key, repo_key) && text::same(&last.worktree_id, id) {
                let mut last = last;
                if last.path.is_none() {
                    last.path = text::clone_opt(path);
                }
                if let Some(ports) = ports {
                    last.ports = ports.clone();
                }
                rows.push(last);
            } else if text::is_before(repo_key, &last.repo_key) || text::same(
                repo_key,
                &last.repo_key,
            ) && text::is_before(id, &last.worktree_id) {
                add_record(rows, repo_key, id, path, ports);
                rows.push(last);
            } else {
                rows.push(last);
                rows.push(fresh);
                assert(before.drop_last().push(before.last()) =~= before);
            }
        },
    }
}

/// The records that the first `k` blocks make.
pub open spec fn block_records(blocks: Seq<BlockView>, k: int) -> Seq<RecordedWorktreeView>
    decreases k,
{
    if k <= 0 {
        Seq::empty()
    } else {
        let a = blocks[k - 1].assignment;
        with_record(
            block_records(blocks, k - 1),
            a.repo_key,
            a.worktree_id,
            a.worktree_path,
            Some(ports_text(a)),
        )
    }
}

/// The records of blocks, with those of the first `k` state directories. A state directory is the
/// only record left once its block is released; one that names no checkout is skipped.
pub open spec fn with_state_records(
    rows: Seq<RecordedWorktreeView>,
    states: Seq<StateDirView>,
    k: int,
) -> Seq<RecordedWorktreeView>
    decreases k,
{
    if k <= 0 {
        rows
    } else {
        let before = with_state_records(rows, states, k - 1);
        match states[k - 1].assignment {
            Some(a) => match a.worktree_path {
                Some(path) => with_record(before, a.repo_key, a.worktree_id, Some(path), None),
                None => before,
            },
            None => before,
        }
    }
}

/// Every worktree the state dir holds a record of.
pub open spec fn records_of(blocks: Seq<BlockView>, states: Seq<StateDirView>) -> Seq<
    RecordedWorktreeView,
> {
    with_state_records(block_records(blocks, blocks.len() as int), states, states.len() as int)
}

/// Every worktree the state dir holds a record of, in every repository, before anyone looked whether
/// its checkout still exists.
///
/// A worktree is recorded on two shapes: the port block that reserves its ports, and its state
/// directory. Neither implies the other, so the union is what magictree watched, rather than what
/// is running.
pub fn records(blocks: &Vec<Block>, states: &Vec<StateDir>) -> (r: Vec<RecordedWorktree>)
    ensures
        text::views(r@) == records_of(text::views(blocks@), text::views(states@)),
{
    let ghost all = text::views(blocks@);
    let mut rows: Vec<RecordedWorktree> = Vec::new();
    let mut k: usize = 0;
    assert(text::views(rows@) =~= Seq::<RecordedWorktreeView>::empty());
    while k < blocks.len()
        invariant
            all == text::views(blocks@),
            k <= blocks@.len(),
            text::views(rows@) == block_records(all, k as int),
        decreases blocks@.len() - k,
    {
        let a = &blocks[k].assignment;
        assert(all[k as int].assignment == a@);
        let ports = Some(describe_ports(a));
        add_record(&mut rows, &a.repo_key, &a.worktree_id, &a.worktree_path, &ports);
        k += 1;
    }
    let ghost known = text::views(rows@);
    let ghost dirs = text::views(states@);
    let mut k: usize = 0;
    while k < states.len()
        invariant
            dirs == text::views(states@),
            k <= states@.len(),
            text::views(rows@) == with_state_records(known, dirs, k as int),
        decreases states@.len() - k,
    {
        assert(dirs[k as int] == states@[k as int]@);
        if let Some(a) = &states[k].assignment {
            if a.worktree_path.is_some() {
                add_record(&mut rows, &a.repo_key, &a.worktree_id, &a.worktree_path, &None);
            }
        }
        k += 1;
    }
    rows
}

/// What was seen at the checkouts of records.
pub open spec fn sight_views(seen: Seq<Option<Sighting>>) -> Seq<Option<SightingView>> {
    Seq::new(seen.len(), |i: int| text::opt_view(seen[i]))
}

/// Whether a record's checkout is live, where that is known.
pub open spec fn liveness(row: RecordedWorktreeView, seen: Option<SightingView>) -> Option<bool> {
    match (row.path, seen) {
        (Some(_), Some(s)) => match checkout_of(s, row.repo_key) {
            Checkout::Live => Some(true),
            Checkout::Gone => Some(false),
            Checkout::Unknown => None,
        },
        _ => None,
    }
}

/// The primary checkouts that the first `k` records name through git: the first live one of each
/// repository decides.
pub open spec fn live_roots(
    rows: Seq<RecordedWorktreeView>,
    seen: Seq<Option<SightingView>>,
    k: int,
) -> Seq<(Seq<char>, Seq<char>)>
    decreases k,
{
    if k <= 0 {
        Seq::empty()
    } else {
        let before = live_roots(rows, seen, k - 1);
        let row = rows[k - 1];
        if liveness(row, seen[k - 1]) == Some(true) && dict::lookup(before, row.repo_key) is None {
            match seen[k - 1].unwrap().opened {
                OpenedView::Worktree { main_root, .. } => dict::put(before, row.repo_key, main_root),
                _ => before,
            }
        } else {
            before
        }
    }
}

/// The primary checkouts, with those that the first `k` records are of: a record of the primary
/// checkout is authoritative over one derived from a linked worktree.
pub open spec fn with_primary_roots(
    roots: Seq<(Seq<char>, Seq<char>)>,
    rows: Seq<RecordedWorktreeView>,
    k: int,
) -> Seq<(Seq<char>, Seq<char>)>
    decreases k,
{
    if k <= 0 {
        roots
    } else {
        let before = with_primary_roots(roots, rows, k - 1);
        match rows[k - 1].path {
            Some(path) => if rows[k - 1].worktree_id == "main"@ {
                dict::put(before, rows[k - 1].repo_key, path)
            } else {
                before
            },
            None => before,
        }
    }
}

/// The primary checkout of each repository, where it is known.
pub open spec fn roots_of(rows: Seq<RecordedWorktreeView>, seen: Seq<Option<SightingView>>) -> Seq<
    (Seq<char>, Seq<char>),
> {
    with_primary_roots(live_roots(rows, seen, rows.len() as int), rows, rows.len() as int)
}

/// The records with what was seen of their checkouts.
pub open spec fn seen_rows(rows: Seq<RecordedWorktreeView>, seen: Seq<Option<SightingView>>) -> Seq<
    RecordedWorktreeView,
> {
    Seq::new(
        rows.len(),
        |i: int|
            RecordedWorktreeView {
                repo_path: dict::lookup(roots_of(rows, seen), rows[i].repo_key),
                live: liveness(rows[i], seen[i]),
                ..rows[i]
            },
    )
}

fn find_liveness(row: &RecordedWorktree, seen: &Option<Sighting>) -> (r: Option<bool>)
    ensures
        r == liveness(row@, text::opt_view(*seen)),
{
    match (&row.path, seen) {
        (Some(_), Some(s)) => match checkout_state(s, &row.repo_key) {
            Checkout::Live => Some(true),
            Checkout::Gone => Some(false),
            Checkout::Unknown => None,
        },
        _ => None,
    }
}

fn find_roots(rows: &Vec<RecordedWorktree>, seen: &Vec<Option<Sighting>>) -> (r: Dict<String>)
    requires
        seen@.len() == rows@.len(),
    ensures
        r@ == roots_of(text::views(rows@), sight_views(seen@)),
{
    let ghost all = text::views(rows@);
    let ghost sights = sight_views(seen@);
    let mut roots: Dict<String> = Dict::new();
    let mut k: usize = 0;
    while k < rows.len()
        invariant
            all == text::views(rows@),
            sights == sight_views(seen@),
            seen@.len() == rows@.len(),
            k <= rows@.len(),
            roots@ == live_roots(all, sights, k as int),
        decreases rows@.len() - k,
    {
        let row = &rows[k];
        assert(all[k as int] == row@);
        assert(sights[k as int] == text::opt_view(seen@[k as int]));
        let live = match find_liveness(row, &seen[k]) {
            Some(live) => live,
            None => false,
        };
        if live && !roots.contains(&row.repo_key) {
            if let Some(s) = &seen[k] {
                if let Opened::Worktree { main_root, .. } = &s.opened {
                    roots.insert(row.repo_key.clone(), main_root.clone());
                }
            }
        }
        k += 1;
    }
    let ghost derived = roots@;
    let mut k: usize = 0;
    while k < rows.len()
        invariant
            all == text::views(rows@),
            k <= rows@.len(),
            roots@ == with_primary_roots(derived, all, k as int),
        decreases rows@.len() - k,
    {
        let row = &rows[k];
        assert(all[k as int] == row@);
        if let Some(path) = &row.path {
            if text::same(&row.worktree_id, "main") {
                roots.insert(row.repo_key.clone(), path.clone());
            }
        }
        k += 1;
    }
    roots
}

/// Rows for `list --all`: every worktree the state dir holds a record of, in every repository,
/// whether or not its checkout still exists. `seen` holds what is at the path of each record.
pub fn all_worktree_rows(rows: &Vec<RecordedWorktree>, seen: &Vec<Option<Sighting>>) -> (r: Vec<
    RecordedWorktree,
>)
    requires
        seen@.len() == rows@.len(),
    ensures
        text::views(r@) == seen_rows(text::views(rows@), sight_views(seen@)),
{
    let roots = find_roots(rows, seen);
    let ghost all = text::views(rows@);
    let ghost sights = sight_views(seen@);
    let ghost goal = seen_rows(all, sights);
    let mut out: Vec<RecordedWorktree> = Vec::new();
    let mut k: usize = 0;
    assert(text::views(out@) =~= goal.take(0));
    while k < rows.len()
        invariant
            all == text::views(rows@),
            sights == sight_views(seen@),
            goal == seen_rows(all, sights),
            roots@ == roots_of(all, sights),
            seen@.len() == rows@.len(),
            k <= rows@.len(),
            text::views(out@) == goal.take(k as int),
        decreases rows@.len() - k,
    {
        broadcast use text::views_push;

        let row = &rows[k];
        assert(all[k as int] == row@);
        assert(sights[k as int] == text::opt_view(seen@[k as int]));
        let mut seen_row = row.clone();
        seen_row.repo_path = match roots.get(&row.repo_key) {
            Some(path) => Some(path.clone()),
            None => None,
        };
        seen_row.live = find_liveness(row, &seen[k]);
        out.push(seen_row);
        k += 1;
        assert(text::views(out@) =~= goal.take(k as int));
    }
    assert(goal.take(k as int) =~= goal);
    out
}

/// What `list --all` says of a record: `gone` once the checkout no longer exists, which is what
/// `gc --all` reclaims; `primary` for the checkout a repository's own stack runs in; `live` for a
/// linked worktree; and `unknown` while nobody can tell.
pub open spec fn mark_of(row: RecordedWorktreeView) -> Seq<char> {
    if row.live == Some(false) {
        "gone"@
    } else if row.worktree_id == "main"@ {
        "primary"@
    } else if row.live == Some(true) {
        "live"@
    } else {
        "unknown"@
    }
}

/// What `list --all` says of a record.
pub fn mark(row: &RecordedWorktree) -> (r: &'static str)
    ensures
        r@ == mark_of(row@),
{
    let gone = match row.live {
        Some(live) => !live,
        None => false,
    };
    if gone {
        "gone"
    } else if text::same(&row.worktree_id, "main") {
        "primary"
    } else if row.live.is_some() {
        "live"
    } else {
        "unknown"
    }
}

/// Whether a checkout goes by a name: its branch, or its directory name.
pub open spec fn goes_by(entry: WorktreeEntryView, target: Seq<char>) -> bool {
    entry.branch == Some(target) || paths::file_name_of(entry.path) == Some(target)
}

/// The linked worktree that goes by a name, or has it as the identity `list` prints, from entry `k`
/// on. The primary checkout has no identity among the linked worktrees, and is none of them.
pub open spec fn find_named(
    entries: Seq<WorktreeEntryView>,
    ids: Seq<Option<Seq<char>>>,
    target: Seq<char>,
    k: int,
) -> Option<Seq<char>>
    decreases entries.len() - k,
{
    if k < 0 || k >= entries.len() {
        None
    } else if ids[k] matches Some(id) && (id == target || goes_by(entries[k], target)) {
        Some(entries[k].path)
    } else {
        find_named(entries, ids, target, k + 1)
    }
}

/// Whether a primary checkout goes by a name.
pub open spec fn primary_goes_by(
    entries: Seq<WorktreeEntryView>,
    ids: Seq<Option<Seq<char>>>,
    target: Seq<char>,
) -> bool {
    exists|k: int| 0 <= k < entries.len() && ids[k] is None && goes_by(#[trigger] entries[k], target)
}

fn is_text(o: &Option<String>, x: &str) -> (r: bool)
    ensures
        r == (text::opt_view(*o) == Some(x@)),
{
    match o {
        Some(s) => text::same(s, x),
        None => false,
    }
}

fn is_known_as(entry: &WorktreeEntry, target: &str) -> (r: bool)
    ensures
        r == goes_by(entry@, target@),
{
    is_text(&entry.branch, target) || is_text(&paths::file_name(&entry.path), target)
}

/// The linked worktree of a repository that a `rm` target names: a path on disk, a branch, a directory
/// name, or the identity `list` prints. `direct` is the target where it is a directory, with its
/// links resolved. `None` means this repository has no such linked worktree.
pub fn find_worktree(
    direct: &Option<String>,
    entries: &Vec<WorktreeEntry>,
    ids: &Vec<Option<String>>,
    target: &str,
) -> (r: Option<String>)
    requires
        ids@.len() == entries@.len(),
    ensures
        text::opt_view(r) == (match *direct {
            Some(path) => Some(path@),
            None => find_named(text::views(entries@), id_views(ids@), target@, 0),
        }),
{
    if let Some(path) = direct {
        return Some(path.clone());
    }
    let ghost all = text::views(entries@);
    let ghost names = id_views(ids@);
    let mut k: usize = 0;
    while k < entries.len()
        invariant
            *direct is None,
            all == text::views(entries@),
            names == id_views(ids@),
            ids@.len() == entries@.len(),
            k <= entries@.len(),
            find_named(all, names, target@, 0) == find_named(all, names, target@, k as int),
        decreases entries@.len() - k,
    {
        assert(all[k as int] == entries@[k as int]@);
        assert(names[k as int] == text::opt_view(ids@[k as int]));
        if let Some(id) = &ids[k] {
            if text::same(id, target) || is_known_as(&entries[k], target) {
                return Some(entries[k].path.clone());
            }
        }
        k += 1;
    }
    None
}

/// Whether a `rm` target names a primary checkout, and no linked worktree. Where the target is a
/// directory, `direct` says whether that is in a primary checkout.
pub fn names_primary(
    direct: Option<bool>,
    entries: &Vec<WorktreeEntry>,
    ids: &Vec<Option<String>>,
    target: &str,
) -> (r: bool)
    requires
        ids@.len() == entries@.len(),
    ensures
        r == (match direct {
            Some(primary) => primary,
            None => find_named(text::views(entries@), id_views(ids@), target@, 0) is None
                && primary_goes_by(text::views(entries@), id_views(ids@), target@),
        }),
{
    if let Some(primary) = direct {
        return primary;
    }
    if find_worktree(&None, entries, ids, target).is_some() {
        return false;
    }
    let ghost all = text::views(entries@);
    let ghost names = id_views(ids@);
    let mut k: usize = 0;
    while k < entries.len()
        invariant
            direct is None,
            all == text::views(entries@),
            names == id_views(ids@),
            ids@.len() == entries@.len(),
            k <= entries@.len(),
            find_named(all, names, target@, 0) is None,
            forall|i: int|
                0 <= i < k ==> !(names[i] is None && goes_by(#[trigger] all[i], target@)),
        decreases entries@.len() - k,
    {
        assert(all[k as int] == entries@[k as int]@);
        assert(names[k as int] == text::opt_view(ids@[k as int]));
        if ids[k].is_none() && is_known_as(&entries[k], target) {
            assert(primary_goes_by(all, names, target@));
            return true;
        }
        k += 1;
    }
    false
}

/// The places of records.
pub open spec fn spot_views(spots: Seq<Option<Spot>>) -> Seq<Option<SpotView>> {
    Seq::new(spots.len(), |i: int| text::opt_view(spots[i]))
}

/// Whether a `rm` target names a record: by the identity `list` prints, a directory name, or the
/// path of the checkout, however that is spelled.
pub open spec fn names_record(
    row: RecordedWorktreeView,
    spot: Option<SpotView>,
    target: Seq<char>,
    named: SpotView,
) -> bool {
    row.worktree_id == target || match row.path {
        Some(path) => (spot matches Some(spot) && same_spot(spot, named)) || paths::file_name_of(
            path,
        ) == Some(target),
        None => false,
    }
}

/// The records among the first `k` that a `rm` target names.
pub open spec fn matches_upto(
    rows: Seq<RecordedWorktreeView>,
    spots: Seq<Option<SpotView>>,
    target: Seq<char>,
    named: SpotView,
    k: int,
) -> Seq<RecordedWorktreeView>
    decreases k,
{
    if k <= 0 {
        Seq::empty()
    } else if names_record(rows[k - 1], spots[k - 1], target, named) {
        matches_upto(rows, spots, target, named, k - 1).push(rows[k - 1])
    } else {
        matches_upto(rows, spots, target, named, k - 1)
    }
}

/// The records a `rm` target names, wherever they live: the identity `list` prints, a directory
/// name, or the path of the checkout. `spots` holds the place of each record's checkout, and `named`
/// that of the target read as a path.
pub fn recorded_matches(
    rows: &Vec<RecordedWorktree>,
    spots: &Vec<Option<Spot>>,
    target: &str,
    named: &Spot,
) -> (r: Vec<RecordedWorktree>)
    requires
        spots@.len() == rows@.len(),
    ensures
        text::views(r@) == matches_upto(
            text::views(rows@),
            spot_views(spots@),
            target@,
            named@,
            rows@.len() as int,
        ),
{
    let ghost all = text::views(rows@);
    let ghost places = spot_views(spots@);
    let mut out: Vec<RecordedWorktree> = Vec::new();
    let mut k: usize = 0;
    assert(text::views(out@) =~= Seq::<RecordedWorktreeView>::empty());
    while k < rows.len()
        invariant
            all == text::views(rows@),
            places == spot_views(spots@),
            spots@.len() == rows@.len(),
            k <= rows@.len(),
            text::views(out@) == matches_upto(all, places, target@, named@, k as int),
        decreases rows@.len() - k,
    {
        broadcast use text::views_push;

        let row = &rows[k];
        assert(all[k as int] == row@);
        assert(places[k as int] == text::opt_view(spots@[k as int]));
        let hit = text::same(&row.worktree_id, target) || match &row.path {
            Some(path) => (match &spots[k] {
                Some(spot) => same_worktree(spot, named),
                None => false,
            }) || is_text(&paths::file_name(path), target),
            None => false,
        };
        if hit {
            out.push(row.clone());
        }
        k += 1;
    }
    out
}

// ---------------------------------------------------------------------------
// Laws
// ---------------------------------------------------------------------------

/// Whether a step removes something that a record justifies: the file of a stale block, or the
/// directory of an abandoned worktree.
pub open spec fn justified(
    step: GcStepView,
    repo_key: Seq<char>,
    live: Seq<SpotView>,
    blocks: Seq<BlockView>,
    states: Seq<StateDirView>,
) -> bool {
    match step {
        GcStepView::RemoveFile(file) => exists|i: int|
            0 <= i < blocks.len() && (#[trigger] blocks[i]).file == file && is_stale(
                blocks[i],
                repo_key,
                live,
            ),
        GcStepView::StopAll(dir) => exists|i: int|
            0 <= i < states.len() && (#[trigger] states[i]).dir == dir && is_abandoned(
                states[i],
                repo_key,
                live,
            ),
        GcStepView::RemoveDir(dir) => exists|i: int|
            0 <= i < states.len() && (#[trigger] states[i]).dir == dir && is_abandoned(
                states[i],
                repo_key,
                live,
            ),
        _ => true,
    }
}

proof fn block_steps_are_justified(
    blocks: Seq<BlockView>,
    states: Seq<StateDirView>,
    repo_key: Seq<char>,
    live: Seq<SpotView>,
    stride: u16,
    apply: bool,
    k: int,
)
    requires
        k <= blocks.len(),
    ensures
        forall|i: int|
            0 <= i < block_steps(blocks, repo_key, live, stride, apply, k).len() ==> justified(
                #[trigger] block_steps(blocks, repo_key, live, stride, apply, k)[i],
                repo_key,
                live,
                blocks,
                states,
            ),
        !apply ==> forall|i: int|
            0 <= i < block_steps(blocks, repo_key, live, stride, apply, k).len() ==> (
            #[trigger] block_steps(blocks, repo_key, live, stride, apply, k)[i]) is Say,
        forall|i: int|
            0 <= i < k && is_stale(#[trigger] blocks[i], repo_key, live) && apply ==> block_steps(
                blocks,
                repo_key,
                live,
                stride,
                apply,
                k,
            ).contains(GcStepView::RemoveFile(blocks[i].file)),
    decreases k,
{
    if k > 0 {
        block_steps_are_justified(blocks, states, repo_key, live, stride, apply, k - 1);
        let before = block_steps(blocks, repo_key, live, stride, apply, k - 1);
        let after = block_steps(blocks, repo_key, live, stride, apply, k);
        assert(blocks[k - 1].file == blocks[k - 1].file);
        assert forall|i: int|
            0 <= i < k && is_stale(#[trigger] blocks[i], repo_key, live) && apply implies after.contains(
            GcStepView::RemoveFile(blocks[i].file),
        ) by {
            let step = GcStepView::RemoveFile(blocks[i].file);
            if i == k - 1 {
                assert(after.last() == step);
            } else {
                let j = choose|j: int| 0 <= j < before.len() && before[j] == step;
                assert(after[j] == step);
            }
        }
    }
}

proof fn running_steps_only_speak(
    running: Seq<(Seq<char>, i32)>,
    owner: Seq<char>,
    apply: bool,
    k: int,
)
    ensures
        forall|i: int|
            0 <= i < running_steps(running, owner, apply, k).len() ==> (#[trigger] running_steps(
                running,
                owner,
                apply,
                k,
            )[i]) is Say,
    decreases k,
{
    if k > 0 {
        running_steps_only_speak(running, owner, apply, k - 1);
    }
}

proof fn state_steps_are_justified(
    blocks: Seq<BlockView>,
    states: Seq<StateDirView>,
    repo_key: Seq<char>,
    live: Seq<SpotView>,
    apply: bool,
    k: int,
)
    requires
        k <= states.len(),
    ensures
        forall|i: int|
            0 <= i < state_steps(states, repo_key, live, apply, k).len() ==> justified(
                #[trigger] state_steps(states, repo_key, live, apply, k)[i],
                repo_key,
                live,
                blocks,
                states,
            ),
        !apply ==> forall|i: int|
            0 <= i < state_steps(states, repo_key, live, apply, k).len() ==> (
            #[trigger] state_steps(states, repo_key, live, apply, k)[i]) is Say,
    decreases k,
{
    if k > 0 {
        state_steps_are_justified(blocks, states, repo_key, live, apply, k - 1);
        let s = states[k - 1];
        running_steps_only_speak(s.running, owner_text(s), apply, s.running.len() as int);
        assert(s.dir == s.dir);
        if is_abandoned(s, repo_key, live) {
            let before = state_steps(states, repo_key, live, apply, k - 1);
            let more = abandoned_steps(s, apply);
            let after = state_steps(states, repo_key, live, apply, k);
            assert forall|i: int| 0 <= i < after.len() implies justified(
                #[trigger] after[i],
                repo_key,
                live,
                blocks,
                states,
            ) && (!apply ==> after[i] is Say) by {
                if i < before.len() {
                    assert(after[i] == before[i]);
                } else {
                    assert(after[i] == more[i - before.len()]);
                }
            }
        }
    }
}

/// A sweep takes away only what belongs to worktrees of this repository that are gone, and a dry
/// run takes away nothing at all.
pub proof fn sweeps_spare_what_is_live(
    state_dir: Seq<char>,
    repo_key: Seq<char>,
    live: Seq<SpotView>,
    blocks: Seq<BlockView>,
    states: Seq<StateDirView>,
    stride: u16,
    apply: bool,
)
    ensures
        ({
            let steps = gc_steps(state_dir, repo_key, live, blocks, states, stride, apply);
            &&& forall|i: int|
                0 <= i < steps.len() ==> justified(
                    #[trigger] steps[i],
                    repo_key,
                    live,
                    blocks,
                    states,
                )
            &&& !apply ==> forall|i: int| 0 <= i < steps.len() ==> (#[trigger] steps[i]) is Say
        }),
{
    block_steps_are_justified(
        blocks,
        states,
        repo_key,
        live,
        stride,
        apply,
        blocks.len() as int,
    );
    state_steps_are_justified(blocks, states, repo_key, live, apply, states.len() as int);
    let released = block_steps(blocks, repo_key, live, stride, apply, blocks.len() as int);
    let swept = state_steps(states, repo_key, live, apply, states.len() as int);
    let steps = gc_steps(state_dir, repo_key, live, blocks, states, stride, apply);
    let told = if released.len() == 0 {
        1int
    } else {
        0int
    };
    assert forall|i: int| 0 <= i < steps.len() implies justified(
        #[trigger] steps[i],
        repo_key,
        live,
        blocks,
        states,
    ) && (!apply ==> steps[i] is Say) by {
        let r: int = released.len() as int;
        if i < r {
            assert(steps[i] == released[i]);
        } else if i >= r + told && i < r + told + swept.len() {
            assert(steps[i] == swept[i - r - told]);
        }
    }
}

/// A sweep that is applied releases every block of this repository whose worktree is gone.
pub proof fn stale_blocks_are_released(
    state_dir: Seq<char>,
    repo_key: Seq<char>,
    live: Seq<SpotView>,
    blocks: Seq<BlockView>,
    states: Seq<StateDirView>,
    stride: u16,
    i: int,
)
    requires
        0 <= i < blocks.len(),
        is_stale(blocks[i], repo_key, live),
    ensures
        gc_steps(state_dir, repo_key, live, blocks, states, stride, true).contains(
            GcStepView::RemoveFile(blocks[i].file),
        ),
{
    block_steps_are_justified(
        blocks,
        states,
        repo_key,
        live,
        stride,
        true,
        blocks.len() as int,
    );
    let released = block_steps(blocks, repo_key, live, stride, true, blocks.len() as int);
    let step = GcStepView::RemoveFile(blocks[i].file);
    assert(released.contains(step));
    let j = choose|j: int| 0 <= j < released.len() && released[j] == step;
    assert(gc_steps(state_dir, repo_key, live, blocks, states, stride, true)[j] == step);
}

/// Whether records stand in ascending order of repository and worktree, each once.
pub open spec fn in_order(rows: Seq<RecordedWorktreeView>) -> bool {
    forall|i: int, j: int|
        0 <= i < j < rows.len() ==> key_before(
            ((#[trigger] rows[i]).repo_key, rows[i].worktree_id),
            ((#[trigger] rows[j]).repo_key, rows[j].worktree_id),
        )
}

/// Whether a worktree has a record.
pub open spec fn is_recorded(
    rows: Seq<RecordedWorktreeView>,
    repo_key: Seq<char>,
    id: Seq<char>,
) -> bool {
    exists|i: int|
        0 <= i < rows.len() && (#[trigger] rows[i]).repo_key == repo_key && rows[i].worktree_id
            == id
}

proof fn key_before_transitive(
    a: (Seq<char>, Seq<char>),
    b: (Seq<char>, Seq<char>),
    c: (Seq<char>, Seq<char>),
)
    requires
        key_before(a, b),
        key_before(b, c),
    ensures
        key_before(a, c),
{
    text::before_irreflexive(a.0);
    if text::before(a.0, b.0) && text::before(b.0, c.0) {
        text::before_transitive(a.0, b.0, c.0);
    }
    if a.0 == b.0 && b.0 == c.0 {
        text::before_transitive(a.1, b.1, c.1);
    }
}

proof fn key_before_total(a: (Seq<char>, Seq<char>), b: (Seq<char>, Seq<char>))
    ensures
        key_before(a, b) || a == b || key_before(b, a),
{
    text::before_total(a.0, b.0);
    text::before_total(a.1, b.1);
}

proof fn with_record_keeps_order(
    rows: Seq<RecordedWorktreeView>,
    repo_key: Seq<char>,
    id: Seq<char>,
    path: Option<Seq<char>>,
    ports: Option<Seq<char>>,
)
    requires
        in_order(rows),
    ensures
        in_order(with_record(rows, repo_key, id, path, ports)),
        is_recorded(with_record(rows, repo_key, id, path, ports), repo_key, id),
        forall|r: Seq<char>, w: Seq<char>|
            is_recorded(rows, r, w) ==> #[trigger] is_recorded(
                with_record(rows, repo_key, id, path, ports),
                r,
                w,
            ),
        forall|r: Seq<char>, w: Seq<char>| #[trigger]
            is_recorded(with_record(rows, repo_key, id, path, ports), r, w) ==> is_recorded(
                rows,
                r,
                w,
            ) || (r == repo_key && w == id),
    decreases rows.len(),
{
    let out = with_record(rows, repo_key, id, path, ports);
    let key = (repo_key, id);
    if rows.len() == 0 {
        assert(out[0].repo_key == repo_key);
    } else {
        let last = rows.last();
        let rest = rows.drop_last();
        let last_key = (last.repo_key, last.worktree_id);
        assert(in_order(rest));
        key_before_total(key, last_key);
        if last_key == key {
            assert(out.last().repo_key == repo_key);
            assert forall|r: Seq<char>, w: Seq<char>| is_recorded(rows, r, w) implies #[trigger] is_recorded(
                out,
                r,
                w,
            ) by {
                let i = choose|i: int|
                    0 <= i < rows.len() && (#[trigger] rows[i]).repo_key == r
                        && rows[i].worktree_id == w;
                assert(out[i].repo_key == r);
            }
            assert forall|r: Seq<char>, w: Seq<char>| #[trigger] is_recorded(out, r, w) implies is_recorded(
                rows,
                r,
                w,
            ) || (r == repo_key && w == id) by {
                let i = choose|i: int|
                    0 <= i < out.len() && (#[trigger] out[i]).repo_key == r && out[i].worktree_id
                        == w;
                assert(rows[i].repo_key == r);
            }
        } else if key_before(key, last_key) {
            let placed = with_record(rest, repo_key, id, path, ports);
            with_record_keeps_order(rest, repo_key, id, path, ports);
            assert(out == placed.push(last));
            assert forall|i: int| 0 <= i < placed.len() implies key_before(
                ((#[trigger] placed[i]).repo_key, placed[i].worktree_id),
                last_key,
            ) by {
                assert(is_recorded(placed, placed[i].repo_key, placed[i].worktree_id));
                if is_recorded(rest, placed[i].repo_key, placed[i].worktree_id) {
                    let j = choose|j: int|
                        0 <= j < rest.len() && (#[trigger] rest[j]).repo_key == placed[i].repo_key
                            && rest[j].worktree_id == placed[i].worktree_id;
                    assert(rows[j] == rest[j]);
                    assert(rows[rows.len() - 1] == last);
                }
            }
            assert forall|r: Seq<char>, w: Seq<char>| is_recorded(rows, r, w) implies #[trigger] is_recorded(
                out,
                r,
                w,
            ) by {
                let i = choose|i: int|
                    0 <= i < rows.len() && (#[trigger] rows[i]).repo_key == r
                        && rows[i].worktree_id == w;
                if i < rest.len() {
                    assert(rest[i].repo_key == r);
                    assert(is_recorded(rest, r, w));
                    assert(is_recorded(placed, r, w));
                    let j = choose|j: int|
                        0 <= j < placed.len() && (#[trigger] placed[j]).repo_key == r
                            && placed[j].worktree_id == w;
                    assert(out[j].repo_key == r);
                } else {
                    assert(out.last().repo_key == r);
                }
            }
            let at = choose|at: int|
                0 <= at < placed.len() && (#[trigger] placed[at]).repo_key == repo_key
                    && placed[at].worktree_id == id;
            assert(out[at].repo_key == repo_key);
            assert forall|r: Seq<char>, w: Seq<char>| #[trigger] is_recorded(out, r, w) implies is_recorded(
                rows,
                r,
                w,
            ) || (r == repo_key && w == id) by {
                let i = choose|i: int|
                    0 <= i < out.len() && (#[trigger] out[i]).repo_key == r && out[i].worktree_id
                        == w;
                if i < placed.len() {
                    assert(placed[i].repo_key == r);
                    assert(is_recorded(placed, r, w));
                    if is_recorded(rest, r, w) {
                        let j = choose|j: int|
                            0 <= j < rest.len() && (#[trigger] rest[j]).repo_key == r
                                && rest[j].worktree_id == w;
                        assert(rows[j].repo_key == r);
                    }
                } else {
                    assert(rows.last().repo_key == r);
                }
            }
        } else {
            assert(out == rows.push(first_record(repo_key, id, path, ports)));
            assert forall|i: int| 0 <= i < rows.len() implies key_before(
                ((#[trigger] rows[i]).repo_key, rows[i].worktree_id),
                key,
            ) by {
                if i < rows.len() - 1 {
                    key_before_transitive((rows[i].repo_key, rows[i].worktree_id), last_key, key);
                }
            }
            assert(out.last().repo_key == repo_key);
            assert forall|r: Seq<char>, w: Seq<char>| is_recorded(rows, r, w) implies #[trigger] is_recorded(
                out,
                r,
                w,
            ) by {
                let i = choose|i: int|
                    0 <= i < rows.len() && (#[trigger] rows[i]).repo_key == r
                        && rows[i].worktree_id == w;
                assert(out[i].repo_key == r);
            }
            assert forall|r: Seq<char>, w: Seq<char>| #[trigger] is_recorded(out, r, w) implies is_recorded(
                rows,
                r,
                w,
            ) || (r == repo_key && w == id) by {
                let i = choose|i: int|
                    0 <= i < out.len() && (#[trigger] out[i]).repo_key == r && out[i].worktree_id
                        == w;
                if i < rows.len() {
                    assert(rows[i].repo_key == r);
                }
            }
        }
    }
}

proof fn block_records_are_in_order(blocks: Seq<BlockView>, k: int)
    requires
        k <= blocks.len(),
    ensures
        in_order(block_records(blocks, k)),
        forall|i: int|
            0 <= i < k ==> is_recorded(
                block_records(blocks, k),
                (#[trigger] blocks[i]).assignment.repo_key,
                blocks[i].assignment.worktree_id,
            ),
    decreases k,
{
    if k > 0 {
        block_records_are_in_order(blocks, k - 1);
        let a = blocks[k - 1].assignment;
        with_record_keeps_order(
            block_records(blocks, k - 1),
            a.repo_key,
            a.worktree_id,
            a.worktree_path,
            Some(ports_text(a)),
        );
    }
}

proof fn state_records_are_in_order(
    rows: Seq<RecordedWorktreeView>,
    states: Seq<StateDirView>,
    k: int,
)
    requires
        in_order(rows),
        k <= states.len(),
    ensures
        in_order(with_state_records(rows, states, k)),
        forall|r: Seq<char>, w: Seq<char>|
            is_recorded(rows, r, w) ==> #[trigger] is_recorded(
                with_state_records(rows, states, k),
                r,
                w,
            ),
        forall|i: int|
            0 <= i < k && ((#[trigger] states[i]).assignment matches Some(a) && a.worktree_path is Some)
                ==> is_recorded(
                with_state_records(rows, states, k),
                states[i].assignment.unwrap().repo_key,
                states[i].assignment.unwrap().worktree_id,
            ),
    decreases k,
{
    if k > 0 {
        state_records_are_in_order(rows, states, k - 1);
        if let Some(a) = states[k - 1].assignment {
            if a.worktree_path is Some {
                with_record_keeps_order(
                    with_state_records(rows, states, k - 1),
                    a.repo_key,
                    a.worktree_id,
                    a.worktree_path,
                    None,
                );
            }
        }
    }
}

proof fn abandoned_state_has_a_step(
    states: Seq<StateDirView>,
    repo_key: Seq<char>,
    live: Seq<SpotView>,
    k: int,
    i: int,
)
    requires
        0 <= i < k <= states.len(),
        is_abandoned(states[i], repo_key, live),
    ensures
        state_steps(states, repo_key, live, true, k).contains(
            GcStepView::RemoveDir(states[i].dir),
        ),
    decreases k,
{
    let before = state_steps(states, repo_key, live, true, k - 1);
    let after = state_steps(states, repo_key, live, true, k);
    let step = GcStepView::RemoveDir(states[i].dir);
    if i == k - 1 {
        assert(after[after.len() - 1] == step);
    } else {
        abandoned_state_has_a_step(states, repo_key, live, k - 1, i);
        let j = choose|j: int| 0 <= j < before.len() && before[j] == step;
        assert(after[j] == step);
    }
}

/// A sweep that is applied drops every state directory of this repository whose worktree is gone.
pub proof fn abandoned_state_is_dropped(
    state_dir: Seq<char>,
    repo_key: Seq<char>,
    live: Seq<SpotView>,
    blocks: Seq<BlockView>,
    states: Seq<StateDirView>,
    stride: u16,
    i: int,
)
    requires
        0 <= i < states.len(),
        is_abandoned(states[i], repo_key, live),
    ensures
        gc_steps(state_dir, repo_key, live, blocks, states, stride, true).contains(
            GcStepView::RemoveDir(states[i].dir),
        ),
{
    let step = GcStepView::RemoveDir(states[i].dir);
    abandoned_state_has_a_step(states, repo_key, live, states.len() as int, i);
    let released = block_steps(blocks, repo_key, live, stride, true, blocks.len() as int);
    let swept = state_steps(states, repo_key, live, true, states.len() as int);
    let j = choose|j: int| 0 <= j < swept.len() && swept[j] == step;
    let told = if released.len() == 0 {
        1int
    } else {
        0int
    };
    assert(gc_steps(state_dir, repo_key, live, blocks, states, stride, true)[released.len() + told
        + j] == step);
}

/// Whether a container is one of a project whose worktree is gone.
pub open spec fn is_orphan(
    containers: Seq<ContainerView>,
    owners: Seq<SpotView>,
    live: Seq<SpotView>,
    project: Seq<char>,
    id: Seq<char>,
    i: int,
) -> bool {
    &&& 0 <= i < containers.len()
    &&& containers[i].project == project
    &&& containers[i].id == id
    &&& !is_live(live, owners[i])
}

proof fn orphans_are_gone(
    containers: Seq<ContainerView>,
    owners: Seq<SpotView>,
    live: Seq<SpotView>,
    k: int,
    project: Seq<char>,
    id: Seq<char>,
)
    requires
        k <= containers.len(),
        dict::lookup(orphans_upto(containers, owners, live, k), project) matches Some(ids)
            && ids.contains(id),
    ensures
        exists|i: int| is_orphan(containers, owners, live, project, id, i),
    decreases k,
{
    if k > 0 {
        let before = orphans_upto(containers, owners, live, k - 1);
        let c = containers[k - 1];
        if is_live(live, owners[k - 1]) {
            orphans_are_gone(containers, owners, live, k - 1, project, id);
        } else {
            let known = match dict::lookup(before, c.project) {
                Some(ids) => ids,
                None => Seq::empty(),
            };
            dict::put_then_lookup(before, c.project, known.push(c.id), project);
            if project == c.project && !known.contains(id) {
                let j = choose|j: int|
                    0 <= j < known.push(c.id).len() && known.push(c.id)[j] == id;
                if j < known.len() {
                    assert(known[j] == id);
                }
                assert(is_orphan(containers, owners, live, project, id, k - 1));
            } else {
                orphans_are_gone(containers, owners, live, k - 1, project, id);
            }
        }
    }
}

proof fn dry_container_steps_only_speak(orphans: Seq<(Seq<char>, Seq<Seq<char>>)>, k: int)
    ensures
        forall|i: int|
            0 <= i < container_steps(orphans, false, k).len() ==> (
            #[trigger] container_steps(orphans, false, k)[i]) is Say,
    decreases k,
{
    if k > 0 {
        dry_container_steps_only_speak(orphans, k - 1);
    }
}

proof fn dry_volume_steps_only_speak(lines: Seq<Seq<char>>, k: int)
    ensures
        forall|i: int|
            0 <= i < volume_steps(lines, false, k).len() ==> (
            #[trigger] volume_steps(lines, false, k)[i]) is Say,
    decreases k,
{
    if k > 0 {
        dry_volume_steps_only_speak(lines, k - 1);
    }
}

/// A container that is swept belongs to a worktree that is gone, and a dry run touches neither
/// containers nor volumes.
pub proof fn live_containers_are_spared(
    containers: Seq<ContainerView>,
    owners: Seq<SpotView>,
    live: Seq<SpotView>,
    project: Seq<char>,
    id: Seq<char>,
    lines: Seq<Seq<char>>,
)
    ensures
        ({
            let swept = orphans_upto(containers, owners, live, containers.len() as int);
            &&& (dict::lookup(swept, project) matches Some(ids) && ids.contains(id)) ==> exists|
                i: int,
            |
                is_orphan(containers, owners, live, project, id, i)
            &&& forall|i: int|
                0 <= i < container_steps(swept, false, swept.len() as int).len() ==> (
                #[trigger] container_steps(swept, false, swept.len() as int)[i]) is Say
            &&& forall|i: int|
                0 <= i < volume_steps(lines, false, lines.len() as int).len() ==> (
                #[trigger] volume_steps(lines, false, lines.len() as int)[i]) is Say
        }),
{
    let swept = orphans_upto(containers, owners, live, containers.len() as int);
    if let Some(ids) = dict::lookup(swept, project) {
        if ids.contains(id) {
            orphans_are_gone(containers, owners, live, containers.len() as int, project, id);
        }
    }
    dry_container_steps_only_speak(swept, swept.len() as int);
    dry_volume_steps_only_speak(lines, lines.len() as int);
}

proof fn block_repositories_are_kept(blocks: Seq<BlockView>, k: int, i: int)
    requires
        0 <= i < k <= blocks.len(),
    ensures
        block_repositories(blocks, k).contains(blocks[i].assignment.repo_key),
    decreases k,
{
    let key = blocks[i].assignment.repo_key;
    if i < k - 1 {
        block_repositories_are_kept(blocks, k - 1, i);
    }
    dict::members_are_added(
        block_repositories(blocks, k - 1),
        blocks[k - 1].assignment.repo_key,
        key,
    );
}

proof fn names_are_kept(known: Seq<Seq<char>>, names: Seq<Seq<char>>, k: int, x: Seq<char>)
    requires
        k <= names.len(),
        known.contains(x) || exists|i: int| 0 <= i < k && names[i] == x,
    ensures
        with_names(known, names, k).contains(x),
    decreases k,
{
    if k > 0 {
        if known.contains(x) || names[k - 1] != x {
            names_are_kept(known, names, k - 1, x);
        }
        dict::members_are_added(with_names(known, names, k - 1), names[k - 1], x);
    }
}

/// `gc --all` reaches every repository that a block or a state directory is recorded for, whether
/// or not the repository itself still exists.
pub proof fn every_repository_is_swept(blocks: Seq<BlockView>, dirs: Seq<Seq<char>>)
    ensures
        forall|i: int|
            0 <= i < blocks.len() ==> repositories_of(blocks, dirs).contains(
                (#[trigger] blocks[i]).assignment.repo_key,
            ),
        forall|i: int|
            0 <= i < dirs.len() ==> repositories_of(blocks, dirs).contains(#[trigger] dirs[i]),
{
    let known = block_repositories(blocks, blocks.len() as int);
    assert forall|i: int| 0 <= i < blocks.len() implies repositories_of(blocks, dirs).contains(
        (#[trigger] blocks[i]).assignment.repo_key,
    ) by {
        block_repositories_are_kept(blocks, blocks.len() as int, i);
        names_are_kept(known, dirs, dirs.len() as int, blocks[i].assignment.repo_key);
    }
    assert forall|i: int| 0 <= i < dirs.len() implies repositories_of(blocks, dirs).contains(
        #[trigger] dirs[i],
    ) by {
        names_are_kept(known, dirs, dirs.len() as int, dirs[i]);
    }
}

proof fn identified_worktrees_are_found(
    entries: Seq<WorktreeEntryView>,
    ids: Seq<Option<Seq<char>>>,
    target: Seq<char>,
    k: int,
    i: int,
)
    requires
        0 <= k <= i < entries.len(),
        ids.len() == entries.len(),
        ids[i] == Some(target),
    ensures
        find_named(entries, ids, target, k) is Some,
    decreases entries.len() - k,
{
    if k < i {
        identified_worktrees_are_found(entries, ids, target, k + 1, i);
    }
}

proof fn rows_have_identities(
    repo_key: Seq<char>,
    entries: Seq<WorktreeEntryView>,
    ids: Seq<Option<Seq<char>>>,
    recorded: Seq<AssignmentView>,
    k: int,
    j: int,
)
    requires
        0 <= k <= entries.len(),
        ids.len() == entries.len(),
        0 <= j < rows_upto(repo_key, entries, ids, recorded, k).len(),
    ensures
        exists|i: int|
            0 <= i < k && #[trigger] ids[i] == Some(
                rows_upto(repo_key, entries, ids, recorded, k)[j].id,
            ),
    decreases k,
{
    if k > 0 {
        let before = rows_upto(repo_key, entries, ids, recorded, k - 1);
        if j < before.len() {
            rows_have_identities(repo_key, entries, ids, recorded, k - 1, j);
            let i = choose|i: int| 0 <= i < k - 1 && #[trigger] ids[i] == Some(before[j].id);
            assert(ids[i] == Some(rows_upto(repo_key, entries, ids, recorded, k)[j].id));
        } else {
            assert(ids[k - 1] == Some(rows_upto(repo_key, entries, ids, recorded, k)[j].id));
        }
    }
}

/// Every id that `list` prints names a worktree to `rm`.
pub proof fn listed_worktrees_are_found(
    repo_key: Seq<char>,
    entries: Seq<WorktreeEntryView>,
    ids: Seq<Option<Seq<char>>>,
    recorded: Seq<AssignmentView>,
    j: int,
)
    requires
        ids.len() == entries.len(),
        0 <= j < rows_upto(repo_key, entries, ids, recorded, entries.len() as int).len(),
    ensures
        find_named(
            entries,
            ids,
            rows_upto(repo_key, entries, ids, recorded, entries.len() as int)[j].id,
            0,
        ) is Some,
{
    let id = rows_upto(repo_key, entries, ids, recorded, entries.len() as int)[j].id;
    rows_have_identities(repo_key, entries, ids, recorded, entries.len() as int, j);
    let i = choose|i: int| 0 <= i < entries.len() && #[trigger] ids[i] == Some(id);
    identified_worktrees_are_found(entries, ids, id, 0, i);
}

/// `list --all` shows every worktree that a block or a state directory records, once, repository by
/// repository.
pub proof fn every_record_is_listed(
    blocks: Seq<BlockView>,
    states: Seq<StateDirView>,
    seen: Seq<Option<SightingView>>,
)
    ensures
        ({
            let rows = seen_rows(records_of(blocks, states), seen);
            &&& in_order(rows)
            &&& forall|i: int|
                0 <= i < blocks.len() ==> is_recorded(
                    rows,
                    (#[trigger] blocks[i]).assignment.repo_key,
                    blocks[i].assignment.worktree_id,
                )
            &&& forall|i: int|
                0 <= i < states.len() && ((#[trigger] states[i]).assignment matches Some(a)
                    && a.worktree_path is Some) ==> is_recorded(
                    rows,
                    states[i].assignment.unwrap().repo_key,
                    states[i].assignment.unwrap().worktree_id,
                )
        }),
{
    let found = block_records(blocks, blocks.len() as int);
    block_records_are_in_order(blocks, blocks.len() as int);
    state_records_are_in_order(found, states, states.len() as int);
    let known = records_of(blocks, states);
    let rows = seen_rows(known, seen);
    assert forall|r: Seq<char>, w: Seq<char>| is_recorded(known, r, w) implies #[trigger] is_recorded(
        rows,
        r,
        w,
    ) by {
        let i = choose|i: int|
            0 <= i < known.len() && (#[trigger] known[i]).repo_key == r && known[i].worktree_id
                == w;
        assert(rows[i].repo_key == r);
    }
    assert forall|i: int, j: int| 0 <= i < j < rows.len() implies key_before(
        ((#[trigger] rows[i]).repo_key, rows[i].worktree_id),
        ((#[trigger] rows[j]).repo_key, rows[j].worktree_id),
    ) by {
        assert(known[i].repo_key == rows[i].repo_key && known[j].repo_key == rows[j].repo_key);
    }
    assert forall|i: int| 0 <= i < blocks.len() implies is_recorded(
        rows,
        (#[trigger] blocks[i]).assignment.repo_key,
        blocks[i].assignment.worktree_id,
    ) by {
        assert(is_recorded(
            found,
            blocks[i].assignment.repo_key,
            blocks[i].assignment.worktree_id,
        ));
        assert(is_recorded(
            known,
            blocks[i].assignment.repo_key,
            blocks[i].assignment.worktree_id,
        ));
    }
}

/// Whether two paths are one worktree does not depend on which of them comes first.
pub proof fn same_worktree_is_symmetric(a: SpotView, b: SpotView)
    ensures
        same_spot(a, b) == same_spot(b, a),
{
}

} // verus!
