//! Manifests: what they may say, the services and jobs they declare, and the order these start in.

use crate::dict;
use crate::dict::Dict;
use crate::paths;
use crate::text;
use vstd::prelude::*;

verus! {

/// A manifest: the services, jobs and steps of one app or of a workspace.
#[derive(Debug)]
pub struct Manifest {
    pub version: u32,
    pub workspace: Option<Workspace>,
    pub app: Option<AppMeta>,
    pub env: Dict<String>,
    pub bootstrap: Bootstrap,
    pub services: Vec<Service>,
    pub jobs: Dict<Job>,
}

/// The contents of a [`Manifest`].
#[verifier::ext_equal]
pub struct ManifestView {
    pub version: u32,
    pub workspace: Option<WorkspaceView>,
    pub app: Option<AppMetaView>,
    pub env: Seq<(Seq<char>, Seq<char>)>,
    pub bootstrap: BootstrapView,
    pub services: Seq<ServiceView>,
    pub jobs: Seq<(Seq<char>, JobView)>,
}

impl View for Manifest {
    type V = ManifestView;

    open spec fn view(&self) -> ManifestView {
        ManifestView {
            version: self.version,
            workspace: text::opt_view(self.workspace),
            app: text::opt_view(self.app),
            env: self.env@,
            bootstrap: self.bootstrap@,
            services: text::views(self.services@),
            jobs: self.jobs@,
        }
    }
}

impl Clone for Manifest {
    fn clone(&self) -> (r: Self)
        ensures
            r@ == self@,
    {
        Manifest {
            version: self.version,
            workspace: match &self.workspace { Some(x) => Some(x.clone()), None => None },
            app: match &self.app { Some(x) => Some(x.clone()), None => None },
            env: self.env.duplicate(),
            bootstrap: self.bootstrap.clone(),
            services: text::clone_all(&self.services),
            jobs: self.jobs.duplicate(),
        }
    }
}

/// The apps a repository contains, as directories relative to the workspace manifest.
#[derive(Debug)]
pub struct Workspace {
    pub apps: Vec<String>,
}

/// The contents of a [`Workspace`].
#[verifier::ext_equal]
pub struct WorkspaceView {
    pub apps: Seq<Seq<char>>,
}

impl View for Workspace {
    type V = WorkspaceView;

    open spec fn view(&self) -> WorkspaceView {
        WorkspaceView {
            apps: text::views(self.apps@),
        }
    }
}

impl Clone for Workspace {
    fn clone(&self) -> (r: Self)
        ensures
            r@ == self@,
    {
        Workspace {
            apps: text::clone_texts(&self.apps),
        }
    }
}

/// What a manifest says about the app it belongs to.
#[derive(Debug)]
pub struct AppMeta {
    pub id: Option<String>,
}

/// The contents of a [`AppMeta`].
#[verifier::ext_equal]
pub struct AppMetaView {
    pub id: Option<Seq<char>>,
}

impl View for AppMeta {
    type V = AppMetaView;

    open spec fn view(&self) -> AppMetaView {
        AppMetaView {
            id: text::opt_view(self.id),
        }
    }
}

impl Clone for AppMeta {
    fn clone(&self) -> (r: Self)
        ensures
            r@ == self@,
    {
        AppMeta {
            id: text::clone_opt(&self.id),
        }
    }
}

/// The steps around `up`.
#[derive(Debug)]
pub struct Bootstrap {
    /// Paths linked from the primary checkout.
    pub sync: Vec<String>,
    /// Steps that run before services start.
    pub run: Vec<RunStep>,
    /// Steps that run once every service the `up` selected is healthy, so a script can use the
    /// stack it just started instead of racing it.
    pub after: Vec<RunStep>,
}

/// The contents of a [`Bootstrap`].
#[verifier::ext_equal]
pub struct BootstrapView {
    pub sync: Seq<Seq<char>>,
    pub run: Seq<RunStepView>,
    pub after: Seq<RunStepView>,
}

impl View for Bootstrap {
    type V = BootstrapView;

    open spec fn view(&self) -> BootstrapView {
        BootstrapView {
            sync: text::views(self.sync@),
            run: text::views(self.run@),
            after: text::views(self.after@),
        }
    }
}

impl Clone for Bootstrap {
    fn clone(&self) -> (r: Self)
        ensures
            r@ == self@,
    {
        Bootstrap {
            sync: text::clone_texts(&self.sync),
            run: text::clone_all(&self.run),
            after: text::clone_all(&self.after),
        }
    }
}

/// One bootstrap step.
#[derive(Debug)]
pub enum RunStep {
    Simple(String),
    Detailed {
        command: String,
        /// Files whose contents decide whether the step runs again.
        inputs: Vec<String>,
        /// Paths the step produces; a step whose outputs are missing runs again.
        outputs: Vec<String>,
        /// Ask before running; a run without a terminal always declines.
        ask: bool,
    },
}

/// The contents of a [`RunStep`].
#[verifier::ext_equal]
pub enum RunStepView {
    Simple(Seq<char>),
    Detailed { command: Seq<char>, inputs: Seq<Seq<char>>, outputs: Seq<Seq<char>>, ask: bool },
}

impl View for RunStep {
    type V = RunStepView;

    open spec fn view(&self) -> RunStepView {
        match self {
            RunStep::Simple(f0) => RunStepView::Simple(f0@),
            RunStep::Detailed { command, inputs, outputs, ask } => RunStepView::Detailed { command: command@, inputs: text::views(inputs@), outputs: text::views(outputs@), ask: *ask },
        }
    }
}

impl Clone for RunStep {
    fn clone(&self) -> (r: Self)
        ensures
            r@ == self@,
    {
        match self {
            RunStep::Simple(f0) => RunStep::Simple(f0.clone()),
            RunStep::Detailed { command, inputs, outputs, ask } => RunStep::Detailed { command: command.clone(), inputs: text::clone_texts(inputs), outputs: text::clone_texts(outputs), ask: *ask },
        }
    }
}

/// How a service is launched.
#[derive(Debug, Clone, Copy, PartialEq, Eq, Structural)]
pub enum Runtime {
    Compose,
    Host,
}

/// Whether a service's ports are published.
#[derive(Debug, Clone, Copy, PartialEq, Eq, Structural)]
pub enum Expose {
    Port,
    Nothing,
}

/// What `up` waits for. Most services keep running; an initialiser is finished when its
/// container exits, and dependents must not start before that.
#[derive(Debug, Clone, Copy, PartialEq, Eq, Structural)]
pub enum Wait {
    Running,
    Exit,
}

/// When a job runs.
#[derive(Debug, Clone, Copy, PartialEq, Eq, Structural)]
pub enum When {
    Up,
    Manual,
}

/// A host process or a compose container.
#[derive(Debug)]
pub struct Service {
    pub id: String,
    pub runtime: Option<Runtime>,
    pub compose: Option<ComposeRef>,
    pub target: Option<Target>,
    pub command: Option<String>,
    pub port: Option<PortSpec>,
    /// One entry per exposed port, for a service that exposes several.
    pub ports: Vec<PortSpec>,
    pub expose: Expose,
    pub needs: Vec<String>,
    pub health: Option<Health>,
    /// `Running` waits for a healthy or running container; `Exit` waits for a one-shot
    /// container to finish successfully.
    pub wait: Wait,
}

/// The contents of a [`Service`].
#[verifier::ext_equal]
pub struct ServiceView {
    pub id: Seq<char>,
    pub runtime: Option<Runtime>,
    pub compose: Option<ComposeRefView>,
    pub target: Option<TargetView>,
    pub command: Option<Seq<char>>,
    pub port: Option<PortSpecView>,
    pub ports: Seq<PortSpecView>,
    pub expose: Expose,
    pub needs: Seq<Seq<char>>,
    pub health: Option<HealthView>,
    pub wait: Wait,
}

impl View for Service {
    type V = ServiceView;

    open spec fn view(&self) -> ServiceView {
        ServiceView {
            id: self.id@,
            runtime: self.runtime,
            compose: text::opt_view(self.compose),
            target: text::opt_view(self.target),
            command: text::opt_view(self.command),
            port: text::opt_view(self.port),
            ports: text::views(self.ports@),
            expose: self.expose,
            needs: text::views(self.needs@),
            health: text::opt_view(self.health),
            wait: self.wait,
        }
    }
}

impl Clone for Service {
    fn clone(&self) -> (r: Self)
        ensures
            r@ == self@,
    {
        Service {
            id: self.id.clone(),
            runtime: self.runtime,
            compose: match &self.compose { Some(x) => Some(x.clone()), None => None },
            target: match &self.target { Some(x) => Some(x.clone()), None => None },
            command: text::clone_opt(&self.command),
            port: match &self.port { Some(x) => Some(x.clone()), None => None },
            ports: text::clone_all(&self.ports),
            expose: self.expose,
            needs: text::clone_texts(&self.needs),
            health: match &self.health { Some(x) => Some(x.clone()), None => None },
            wait: self.wait,
        }
    }
}

/// How a host service is launched. `mise` and `just` are task-runner front-ends for the same
/// command string; `profile` selects a mise environment, `args` are appended to the recipe.
#[derive(Debug)]
#[allow(inconsistent_fields)]
pub enum Target {
    Command { command: String },
    Mise { task: String, profile: Option<String> },
    Just { recipe: String, args: Vec<String> },
    Npm { script: String, args: Vec<String> },
    Pnpm { script: String, args: Vec<String> },
    Uv { group: Option<String>, module: Option<String>, script: Option<String>, args: Vec<String> },
    Python { module: String, args: Vec<String> },
}

/// The contents of a [`Target`].
#[verifier::ext_equal]
#[allow(inconsistent_fields)]
pub enum TargetView {
    Command { command: Seq<char> },
    Mise { task: Seq<char>, profile: Option<Seq<char>> },
    Just { recipe: Seq<char>, args: Seq<Seq<char>> },
    Npm { script: Seq<char>, args: Seq<Seq<char>> },
    Pnpm { script: Seq<char>, args: Seq<Seq<char>> },
    Uv { group: Option<Seq<char>>, module: Option<Seq<char>>, script: Option<Seq<char>>, args: Seq<Seq<char>> },
    Python { module: Seq<char>, args: Seq<Seq<char>> },
}

impl View for Target {
    type V = TargetView;

    open spec fn view(&self) -> TargetView {
        match self {
            Target::Command { command } => TargetView::Command { command: command@ },
            Target::Mise { task, profile } => TargetView::Mise { task: task@, profile: text::opt_view(*profile) },
            Target::Just { recipe, args } => TargetView::Just { recipe: recipe@, args: text::views(args@) },
            Target::Npm { script, args } => TargetView::Npm { script: script@, args: text::views(args@) },
            Target::Pnpm { script, args } => TargetView::Pnpm { script: script@, args: text::views(args@) },
            Target::Uv { group, module, script, args } => TargetView::Uv { group: text::opt_view(*group), module: text::opt_view(*module), script: text::opt_view(*script), args: text::views(args@) },
            Target::Python { module, args } => TargetView::Python { module: module@, args: text::views(args@) },
        }
    }
}

impl Clone for Target {
    fn clone(&self) -> (r: Self)
        ensures
            r@ == self@,
    {
        match self {
            Target::Command { command } => Target::Command { command: command.clone() },
            Target::Mise { task, profile } => Target::Mise { task: task.clone(), profile: text::clone_opt(profile) },
            Target::Just { recipe, args } => Target::Just { recipe: recipe.clone(), args: text::clone_texts(args) },
            Target::Npm { script, args } => Target::Npm { script: script.clone(), args: text::clone_texts(args) },
            Target::Pnpm { script, args } => Target::Pnpm { script: script.clone(), args: text::clone_texts(args) },
            Target::Uv { group, module, script, args } => Target::Uv { group: text::clone_opt(group), module: text::clone_opt(module), script: text::clone_opt(script), args: text::clone_texts(args) },
            Target::Python { module, args } => Target::Python { module: module.clone(), args: text::clone_texts(args) },
        }
    }
}

/// A service of a compose file.
#[derive(Debug)]
pub struct ComposeRef {
    pub file: String,
    pub service: String,
}

/// The contents of a [`ComposeRef`].
#[verifier::ext_equal]
pub struct ComposeRefView {
    pub file: Seq<char>,
    pub service: Seq<char>,
}

impl View for ComposeRef {
    type V = ComposeRefView;

    open spec fn view(&self) -> ComposeRefView {
        ComposeRefView {
            file: self.file@,
            service: self.service@,
        }
    }
}

impl Clone for ComposeRef {
    fn clone(&self) -> (r: Self)
        ensures
            r@ == self@,
    {
        ComposeRef {
            file: self.file.clone(),
            service: self.service.clone(),
        }
    }
}

/// A port that a service exposes.
#[derive(Debug)]
pub struct PortSpec {
    /// Identifies the port inside the service; defaults to the service id.
    pub name: Option<String>,
    /// Container-side port to publish on the allocated host port.
    pub target: Option<u16>,
    /// Environment variable receiving the allocated port.
    pub env: Option<String>,
    /// The port this service runs on in the primary checkout.
    pub prefer: Option<u16>,
    /// Require this port; fail loudly when it is unavailable.
    pub require: Option<u16>,
    /// Use the worktree's own `localhost` name in URLs that target this port.
    pub browser_alias: bool,
}

/// The contents of a [`PortSpec`].
#[verifier::ext_equal]
pub struct PortSpecView {
    pub name: Option<Seq<char>>,
    pub target: Option<u16>,
    pub env: Option<Seq<char>>,
    pub prefer: Option<u16>,
    pub require: Option<u16>,
    pub browser_alias: bool,
}

impl View for PortSpec {
    type V = PortSpecView;

    open spec fn view(&self) -> PortSpecView {
        PortSpecView {
            name: text::opt_view(self.name),
            target: self.target,
            env: text::opt_view(self.env),
            prefer: self.prefer,
            require: self.require,
            browser_alias: self.browser_alias,
        }
    }
}

impl Clone for PortSpec {
    fn clone(&self) -> (r: Self)
        ensures
            r@ == self@,
    {
        PortSpec {
            name: text::clone_opt(&self.name),
            target: self.target,
            env: text::clone_opt(&self.env),
            prefer: self.prefer,
            require: self.require,
            browser_alias: self.browser_alias,
        }
    }
}

/// How a host service's readiness is probed.
#[derive(Debug)]
pub struct Health {
    pub http: Option<String>,
    pub tcp: Option<bool>,
    pub command: Option<String>,
    pub timeout: Option<u64>,
}

/// The contents of a [`Health`].
#[verifier::ext_equal]
pub struct HealthView {
    pub http: Option<Seq<char>>,
    pub tcp: Option<bool>,
    pub command: Option<Seq<char>>,
    pub timeout: Option<u64>,
}

impl View for Health {
    type V = HealthView;

    open spec fn view(&self) -> HealthView {
        HealthView {
            http: text::opt_view(self.http),
            tcp: self.tcp,
            command: text::opt_view(self.command),
            timeout: self.timeout,
        }
    }
}

impl Clone for Health {
    fn clone(&self) -> (r: Self)
        ensures
            r@ == self@,
    {
        Health {
            http: text::clone_opt(&self.http),
            tcp: self.tcp,
            command: text::clone_opt(&self.command),
            timeout: self.timeout,
        }
    }
}

/// A one-shot command.
#[derive(Debug)]
pub struct Job {
    pub run: String,
    pub when: When,
    pub needs: Vec<String>,
}

/// The contents of a [`Job`].
#[verifier::ext_equal]
pub struct JobView {
    pub run: Seq<char>,
    pub when: When,
    pub needs: Seq<Seq<char>>,
}

impl View for Job {
    type V = JobView;

    open spec fn view(&self) -> JobView {
        JobView {
            run: self.run@,
            when: self.when,
            needs: text::views(self.needs@),
        }
    }
}

impl Clone for Job {
    fn clone(&self) -> (r: Self)
        ensures
            r@ == self@,
    {
        Job {
            run: self.run.clone(),
            when: self.when,
            needs: text::clone_texts(&self.needs),
        }
    }
}

/// An app and its manifest.
#[derive(Debug)]
pub struct App {
    pub id: String,
    pub dir: String,
    pub manifest: Manifest,
}

/// The contents of a [`App`].
#[verifier::ext_equal]
pub struct AppView {
    pub id: Seq<char>,
    pub dir: Seq<char>,
    pub manifest: ManifestView,
}

impl View for App {
    type V = AppView;

    open spec fn view(&self) -> AppView {
        AppView {
            id: self.id@,
            dir: self.dir@,
            manifest: self.manifest@,
        }
    }
}

impl Clone for App {
    fn clone(&self) -> (r: Self)
        ensures
            r@ == self@,
    {
        App {
            id: self.id.clone(),
            dir: self.dir.clone(),
            manifest: self.manifest.clone(),
        }
    }
}

/// The manifests that apply to a directory.
#[derive(Debug)]
pub struct Loaded {
    pub workspace_dir: String,
    pub workspace: Manifest,
    pub apps: Vec<App>,
    pub current_app: Option<String>,
    /// True when the resolved manifest is a single app with no `[workspace]`.
    pub root_is_app: bool,
}

/// The contents of a [`Loaded`].
#[verifier::ext_equal]
pub struct LoadedView {
    pub workspace_dir: Seq<char>,
    pub workspace: ManifestView,
    pub apps: Seq<AppView>,
    pub current_app: Option<Seq<char>>,
    pub root_is_app: bool,
}

impl View for Loaded {
    type V = LoadedView;

    open spec fn view(&self) -> LoadedView {
        LoadedView {
            workspace_dir: self.workspace_dir@,
            workspace: self.workspace@,
            apps: text::views(self.apps@),
            current_app: text::opt_view(self.current_app),
            root_is_app: self.root_is_app,
        }
    }
}

impl Clone for Loaded {
    fn clone(&self) -> (r: Self)
        ensures
            r@ == self@,
    {
        Loaded {
            workspace_dir: self.workspace_dir.clone(),
            workspace: self.workspace.clone(),
            apps: text::clone_all(&self.apps),
            current_app: text::clone_opt(&self.current_app),
            root_is_app: self.root_is_app,
        }
    }
}

/// What a node of the dependency graph is.
#[derive(Debug)]
pub enum NodeKind {
    Service(Box<Service>),
    Job(Box<Job>),
}

/// The contents of a [`NodeKind`].
#[verifier::ext_equal]
pub enum NodeKindView {
    Service(ServiceView),
    Job(JobView),
}

impl View for NodeKind {
    type V = NodeKindView;

    open spec fn view(&self) -> NodeKindView {
        match self {
            NodeKind::Service(f0) => NodeKindView::Service(f0@),
            NodeKind::Job(f0) => NodeKindView::Job(f0@),
        }
    }
}

impl Clone for NodeKind {
    fn clone(&self) -> (r: Self)
        ensures
            r@ == self@,
    {
        match self {
            NodeKind::Service(f0) => NodeKind::Service(Box::new((**f0).clone())),
            NodeKind::Job(f0) => NodeKind::Job(Box::new((**f0).clone())),
        }
    }
}

/// A service or a job, with the app it belongs to and the directory it runs in.
#[derive(Debug)]
pub struct Node {
    pub app: Option<String>,
    pub manifest_dir: String,
    pub dir: String,
    pub id: String,
    pub kind: NodeKind,
}

/// The contents of a [`Node`].
#[verifier::ext_equal]
pub struct NodeView {
    pub app: Option<Seq<char>>,
    pub manifest_dir: Seq<char>,
    pub dir: Seq<char>,
    pub id: Seq<char>,
    pub kind: NodeKindView,
}

impl View for Node {
    type V = NodeView;

    open spec fn view(&self) -> NodeView {
        NodeView {
            app: text::opt_view(self.app),
            manifest_dir: self.manifest_dir@,
            dir: self.dir@,
            id: self.id@,
            kind: self.kind@,
        }
    }
}

impl Clone for Node {
    fn clone(&self) -> (r: Self)
        ensures
            r@ == self@,
    {
        Node {
            app: text::clone_opt(&self.app),
            manifest_dir: self.manifest_dir.clone(),
            dir: self.dir.clone(),
            id: self.id.clone(),
            kind: self.kind.clone(),
        }
    }
}

/// The file name of a manifest.
pub const MANIFEST_FILE: &'static str = "magictree.toml";

/// The only manifest version there is.
pub const MANIFEST_VERSION: u32 = 1;

// ---------------------------------------------------------------------------
// Steps, ports and targets
// ---------------------------------------------------------------------------

impl Bootstrap {
    /// True when this manifest has no steps around `up`, and so needs no bootstrap target of its
    /// own.
    pub fn is_empty(&self) -> (r: bool)
        ensures
            r == (self@.sync.len() == 0 && self@.run.len() == 0 && self@.after.len() == 0),
    {
        self.sync.len() == 0 && self.run.len() == 0 && self.after.len() == 0
    }
}

impl RunStepView {
    /// The shell command of the step.
    pub open spec fn command_of(self) -> Seq<char> {
        match self {
            RunStepView::Simple(command) => command,
            RunStepView::Detailed { command, .. } => command,
        }
    }

    /// The files that decide whether the step runs again.
    pub open spec fn inputs_of(self) -> Seq<Seq<char>> {
        match self {
            RunStepView::Simple(_) => Seq::empty(),
            RunStepView::Detailed { inputs, .. } => inputs,
        }
    }

    /// The paths the step produces.
    pub open spec fn outputs_of(self) -> Seq<Seq<char>> {
        match self {
            RunStepView::Simple(_) => Seq::empty(),
            RunStepView::Detailed { outputs, .. } => outputs,
        }
    }

    /// Whether the step asks before it runs.
    pub open spec fn asks_of(self) -> bool {
        match self {
            RunStepView::Simple(_) => false,
            RunStepView::Detailed { ask, .. } => ask,
        }
    }
}

impl RunStep {
    pub fn command(&self) -> (r: &str)
        ensures
            r@ == self@.command_of(),
    {
        match self {
            RunStep::Simple(command) => command.as_str(),
            RunStep::Detailed { command, .. } => command.as_str(),
        }
    }

    pub fn inputs(&self) -> (r: Vec<String>)
        ensures
            text::views(r@) == self@.inputs_of(),
    {
        match self {
            RunStep::Simple(_) => {
                let r: Vec<String> = Vec::new();
                assert(text::views(r@) =~= Seq::<Seq<char>>::empty());
                r
            },
            RunStep::Detailed { inputs, .. } => text::clone_texts(inputs),
        }
    }

    pub fn outputs(&self) -> (r: Vec<String>)
        ensures
            text::views(r@) == self@.outputs_of(),
    {
        match self {
            RunStep::Simple(_) => {
                let r: Vec<String> = Vec::new();
                assert(text::views(r@) =~= Seq::<Seq<char>>::empty());
                r
            },
            RunStep::Detailed { outputs, .. } => text::clone_texts(outputs),
        }
    }

    pub fn asks(&self) -> (r: bool)
        ensures
            r == self@.asks_of(),
    {
        match self {
            RunStep::Simple(_) => false,
            RunStep::Detailed { ask, .. } => *ask,
        }
    }
}

impl PortSpecView {
    /// The port with its name filled in: the service id where it has none.
    pub open spec fn named(self, id: Seq<char>) -> PortSpecView {
        PortSpecView {
            name: Some(
                match self.name {
                    Some(name) => name,
                    None => id,
                },
            ),
            ..self
        }
    }
}

impl PortSpec {
    /// The port with its name filled in.
    fn named(&self, id: &str) -> (r: PortSpec)
        ensures
            r@ == self@.named(id@),
    {
        let mut r = self.clone();
        if r.name.is_none() {
            r.name = Some(text::own(id));
        }
        r
    }
}

impl ServiceView {
    /// All port declarations, singular form first, each with its name filled in.
    pub open spec fn ports_of(self) -> Seq<PortSpecView> {
        (match self.port {
            Some(port) => seq![port.named(self.id)],
            None => Seq::empty(),
        }) + Seq::new(self.ports.len(), |i: int| self.ports[i].named(self.id))
    }

    /// How the service is launched: as declared, or in a container when it names a compose
    /// service and on the host when it does not.
    pub open spec fn runtime_of(self) -> Runtime {
        match self.runtime {
            Some(runtime) => runtime,
            None => if self.compose is Some {
                Runtime::Compose
            } else {
                Runtime::Host
            },
        }
    }
}

impl Service {
    /// All port declarations, singular form first.
    pub fn ports(&self) -> (r: Vec<PortSpec>)
        ensures
            text::views(r@) == self@.ports_of(),
    {
        broadcast use text::views_push;

        let mut r: Vec<PortSpec> = Vec::new();
        let ghost all = self@.ports_of();
        if let Some(port) = &self.port {
            r.push(port.named(&self.id));
        }
        let ghost first = r@.len();
        assert(text::views(r@) =~= all.take(first as int));
        let mut i: usize = 0;
        while i < self.ports.len()
            invariant
                i <= self.ports@.len(),
                all == self@.ports_of(),
                first == (if self.port is Some {
                    1nat
                } else {
                    0nat
                }),
                text::views(r@) == all.take(first + i),
            decreases self.ports@.len() - i,
        {
            broadcast use text::views_push;

            r.push(self.ports[i].named(&self.id));
            i += 1;
            assert(text::views(r@) =~= all.take(first + i));
        }
        assert(all.take(first + i) =~= all);
        r
    }

    /// How the service is launched.
    pub fn launched_by(&self) -> (r: Runtime)
        ensures
            r == self@.runtime_of(),
    {
        match self.runtime {
            Some(runtime) => runtime,
            None => if self.compose.is_some() {
                Runtime::Compose
            } else {
                Runtime::Host
            },
        }
    }
}

/// The characters that would change how a shell splits a command into words.
pub open spec fn shell_special(c: char) -> bool {
    c == ' ' || c == '\t' || c == '\n' || c == '\'' || c == '"' || c == '\\' || c == ';' || c == '|'
        || c == '&' || c == '(' || c == ')' || c == '<' || c == '>'
}

/// An argument as a shell command takes it: quoted where it is empty or holds a special
/// character. `${VAR}` is left for the shell to expand.
pub open spec fn quoted(arg: Seq<char>) -> Seq<char> {
    if arg.len() == 0 || exists|i: int| 0 <= i < arg.len() && shell_special(#[trigger] arg[i]) {
        "'"@ + text::replace_of(arg, '\'', "'\\''"@) + "'"@
    } else {
        arg
    }
}

/// Quote one argument for the shell command `Target::command` builds.
///
/// Arguments are repository-controlled, and `${VAR}` expansion inside them is a feature, so
/// quoting only fires when the argument would otherwise change tokenization: whitespace, quotes,
/// backslashes, and shell control characters.
pub fn quote_arg(arg: &str) -> (r: String)
    ensures
        r@ == quoted(arg@),
{
    let v = text::chars(arg);
    let mut special = v.len() == 0;
    let mut i: usize = 0;
    while i < v.len() && !special
        invariant
            v@ == arg@,
            i <= v@.len(),
            special ==> arg@.len() == 0 || exists|k: int|
                0 <= k < arg@.len() && shell_special(#[trigger] arg@[k]),
            !special ==> arg@.len() > 0 && forall|k: int|
                0 <= k < i ==> !shell_special(#[trigger] arg@[k]),
        decreases v@.len() - i,
    {
        let c = v[i];
        special = c == ' ' || c == '\t' || c == '\n' || c == '\'' || c == '"' || c == '\\' || c == ';'
            || c == '|' || c == '&' || c == '(' || c == ')' || c == '<' || c == '>';
        assert(special == shell_special(arg@[i as int]));
        i += 1;
    }
    if !special {
        return text::own(arg);
    }
    let inner = text::replace(arg, '\'', "'\\''");
    let mut r = text::own("'");
    r.append(&inner);
    r.append("'");
    r
}

/// A command with quoted arguments after it.
pub open spec fn with_args_of(base: Seq<char>, args: Seq<Seq<char>>) -> Seq<char>
    decreases args.len(),
{
    if args.len() == 0 {
        base
    } else {
        with_args_of(base, args.drop_last()) + " "@ + quoted(args.last())
    }
}

fn with_args(base: String, args: &Vec<String>) -> (r: String)
    ensures
        r@ == with_args_of(base@, text::views(args@)),
{
    let ghost all = text::views(args@);
    let mut r = base;
    let mut i: usize = 0;
    assert(all.take(0) =~= Seq::<Seq<char>>::empty());
    while i < args.len()
        invariant
            i <= args@.len(),
            all == text::views(args@),
            r@ == with_args_of(base@, all.take(i as int)),
        decreases args@.len() - i,
    {
        assert(all.take(i + 1).drop_last() =~= all.take(i as int));
        r.append(" ");
        r.append(&quote_arg(&args[i]));
        i += 1;
    }
    assert(all.take(i as int) =~= all);
    r
}

impl TargetView {
    /// The shell command of the target, before its variables are expanded.
    pub open spec fn command_of(self) -> Seq<char> {
        match self {
            TargetView::Command { command } => command,
            TargetView::Mise { task, profile: Some(profile) } => "mise --profile "@ + profile + " run "@
                + task,
            TargetView::Mise { task, profile: None } => "mise run "@ + task,
            TargetView::Just { recipe, args } => with_args_of("just "@ + recipe, args),
            TargetView::Npm { script, args } => with_args_of("npm run "@ + script, args),
            TargetView::Pnpm { script, args } => with_args_of("pnpm run "@ + script, args),
            TargetView::Uv { group, module, script, args } => {
                let prefix = match group {
                    Some(group) => "uv run --group "@ + group,
                    None => "uv run"@,
                };
                match (script, module) {
                    (Some(script), _) => with_args_of(prefix + " "@ + script, args),
                    (None, Some(module)) => with_args_of(prefix + " python -m "@ + module, args),
                    (None, None) => prefix,
                }
            },
            TargetView::Python { module, args } => with_args_of("python3 -m "@ + module, args),
        }
    }
}

impl Target {
    /// The exact shell command magictree runs, before env expansion.
    pub fn command(&self) -> (r: String)
        ensures
            r@ == self@.command_of(),
    {
        match self {
            Target::Command { command } => command.clone(),
            Target::Mise { task, profile } => match profile {
                Some(profile) => {
                    let mut r = text::own("mise --profile ");
                    r.append(profile);
                    r.append(" run ");
                    r.append(task);
                    r
                },
                None => text::concat("mise run ", task),
            },
            Target::Just { recipe, args } => with_args(text::concat("just ", recipe), args),
            Target::Npm { script, args } => with_args(text::concat("npm run ", script), args),
            Target::Pnpm { script, args } => with_args(text::concat("pnpm run ", script), args),
            Target::Uv { group, module, script, args } => {
                let prefix = match group {
                    Some(group) => text::concat("uv run --group ", group),
                    None => text::own("uv run"),
                };
                match script {
                    Some(script) => {
                        let mut r = prefix;
                        r.append(" ");
                        r.append(script);
                        with_args(r, args)
                    },
                    None => match module {
                        Some(module) => {
                            let mut r = prefix;
                            r.append(" python -m ");
                            r.append(module);
                            with_args(r, args)
                        },
                        None => prefix,
                    },
                }
            },
            Target::Python { module, args } => with_args(text::concat("python3 -m ", module), args),
        }
    }
}

impl Health {
    /// The seconds a service may take to become ready.
    pub fn timeout_secs(&self, default: u64) -> (r: u64)
        ensures
            r == (match self@.timeout {
                Some(timeout) => timeout,
                None => default,
            }),
    {
        match self.timeout {
            Some(timeout) => timeout,
            None => default,
        }
    }
}

// ---------------------------------------------------------------------------
// Nodes
// ---------------------------------------------------------------------------

impl NodeView {
    /// The node's name in the whole stack: `app:id`, or the bare id at workspace level.
    pub open spec fn qual_of(self) -> Seq<char> {
        match self.app {
            Some(app) => app + ":"@ + self.id,
            None => self.id,
        }
    }

    pub open spec fn service_of(self) -> Option<ServiceView> {
        match self.kind {
            NodeKindView::Service(service) => Some(service),
            NodeKindView::Job(_) => None,
        }
    }

    pub open spec fn job_of(self) -> Option<JobView> {
        match self.kind {
            NodeKindView::Service(_) => None,
            NodeKindView::Job(job) => Some(job),
        }
    }

    pub open spec fn needs_of(self) -> Seq<Seq<char>> {
        match self.kind {
            NodeKindView::Service(service) => service.needs,
            NodeKindView::Job(job) => job.needs,
        }
    }

    pub open spec fn runtime_of(self) -> Option<Runtime> {
        match self.service_of() {
            Some(service) => Some(service.runtime_of()),
            None => None,
        }
    }

    /// The shell command of a host service, whatever its target flavour.
    pub open spec fn command_of(self) -> Option<Seq<char>> {
        match self.service_of() {
            Some(service) => match service.target {
                Some(target) => Some(target.command_of()),
                None => service.command,
            },
            None => None,
        }
    }
}

impl Node {
    pub fn qual(&self) -> (r: String)
        ensures
            r@ == self@.qual_of(),
    {
        match &self.app {
            Some(app) => {
                let mut r = app.clone();
                r.append(":");
                r.append(&self.id);
                r
            },
            None => self.id.clone(),
        }
    }

    pub fn service(&self) -> (r: Option<&Service>)
        ensures
            match r {
                Some(service) => self@.service_of() == Some(service@),
                None => self@.service_of() is None,
            },
    {
        match &self.kind {
            NodeKind::Service(service) => Some(service),
            NodeKind::Job(_) => None,
        }
    }

    pub fn job(&self) -> (r: Option<&Job>)
        ensures
            match r {
                Some(job) => self@.job_of() == Some(job@),
                None => self@.job_of() is None,
            },
    {
        match &self.kind {
            NodeKind::Service(_) => None,
            NodeKind::Job(job) => Some(job),
        }
    }

    pub fn needs(&self) -> (r: &Vec<String>)
        ensures
            text::views(r@) == self@.needs_of(),
    {
        match &self.kind {
            NodeKind::Service(service) => &service.needs,
            NodeKind::Job(job) => &job.needs,
        }
    }

    pub fn is_running_service(&self) -> (r: bool)
        ensures
            r == self@.service_of() is Some,
    {
        match &self.kind {
            NodeKind::Service(_) => true,
            NodeKind::Job(_) => false,
        }
    }

    /// Services with no explicit runtime default to a host process.
    pub fn runtime(&self) -> (r: Option<Runtime>)
        ensures
            r == self@.runtime_of(),
    {
        match self.service() {
            Some(service) => Some(service.launched_by()),
            None => None,
        }
    }

    /// The shell command for a host service, whatever its target flavour.
    pub fn command(&self) -> (r: Option<String>)
        ensures
            text::opt_view(r) == self@.command_of(),
    {
        match self.service() {
            Some(service) => match &service.target {
                Some(target) => Some(target.command()),
                None => text::clone_opt(&service.command),
            },
            None => None,
        }
    }
}

/// A service of `m` as a node.
pub open spec fn service_node(app: Option<Seq<char>>, dir: Seq<char>, service: ServiceView) -> NodeView {
    NodeView { app, manifest_dir: dir, dir, id: service.id, kind: NodeKindView::Service(service) }
}

/// A job of `m` as a node.
pub open spec fn job_node(app: Option<Seq<char>>, dir: Seq<char>, job: (Seq<char>, JobView)) -> NodeView {
    NodeView { app, manifest_dir: dir, dir, id: job.0, kind: NodeKindView::Job(job.1) }
}

/// The nodes of one manifest: its services as declared, then its jobs by name.
pub open spec fn manifest_nodes(app: Option<Seq<char>>, dir: Seq<char>, m: ManifestView) -> Seq<NodeView> {
    Seq::new(m.services.len(), |i: int| service_node(app, dir, m.services[i])) + Seq::new(
        m.jobs.len(),
        |i: int| job_node(app, dir, m.jobs[i]),
    )
}

/// The nodes of the first apps.
pub open spec fn app_nodes(l: LoadedView, apps: Seq<AppView>) -> Seq<NodeView>
    decreases apps.len(),
{
    if apps.len() == 0 {
        Seq::empty()
    } else {
        let app = apps.last();
        app_nodes(l, apps.drop_last()) + manifest_nodes(
            if l.root_is_app {
                None
            } else {
                Some(app.id)
            },
            app.dir,
            app.manifest,
        )
    }
}

/// The nodes of everything that was loaded: those of the workspace first, so shared
/// infrastructure starts before the apps that use it. A repository with no workspace layer has
/// one app, whose nodes carry no app name.
pub open spec fn nodes_of(l: LoadedView) -> Seq<NodeView> {
    (if l.root_is_app {
        Seq::empty()
    } else {
        manifest_nodes(None, l.workspace_dir, l.workspace)
    }) + app_nodes(l, l.apps)
}

fn push_nodes(out: &mut Vec<Node>, app: &Option<String>, dir: &String, m: &Manifest)
    ensures
        text::views(final(out)@) == text::views(old(out)@) + manifest_nodes(
            text::opt_view(*app),
            dir@,
            m@,
        ),
{
    let ghost start = text::views(out@);
    let ghost all = manifest_nodes(text::opt_view(*app), dir@, m@);
    let mut i: usize = 0;
    assert(start + all.take(0) =~= start);
    while i < m.services.len()
        invariant
            i <= m.services@.len(),
            all == manifest_nodes(text::opt_view(*app), dir@, m@),
            text::views(out@) == start + all.take(i as int),
        decreases m.services@.len() - i,
    {
        broadcast use text::views_push;

        let service = &m.services[i];
        let node = Node {
            app: text::clone_opt(app),
            manifest_dir: dir.clone(),
            dir: dir.clone(),
            id: service.id.clone(),
            kind: NodeKind::Service(Box::new(service.clone())),
        };
        assert(node@ == all[i as int]);
        out.push(node);
        i += 1;
        assert(start + all.take(i as int) =~= (start + all.take(i - 1)).push(all[i - 1]));
    }
    let mut j: usize = 0;
    while j < m.jobs.len()
        invariant
            i == m.services@.len(),
            j <= m.jobs@.len(),
            all == manifest_nodes(text::opt_view(*app), dir@, m@),
            text::views(out@) == start + all.take(i + j),
        decreases m.jobs@.len() - j,
    {
        broadcast use text::views_push;

        let node = Node {
            app: text::clone_opt(app),
            manifest_dir: dir.clone(),
            dir: dir.clone(),
            id: m.jobs.key_at(j).clone(),
            kind: NodeKind::Job(Box::new(m.jobs.value_at(j).clone())),
        };
        assert(node@ == all[i + j]);
        out.push(node);
        j += 1;
        assert(start + all.take(i + j) =~= (start + all.take(i + j - 1)).push(all[i + j - 1]));
    }
    assert(all.take(i + j) =~= all);
}

/// Flatten the loaded manifests into a single node list, workspace-level services first so shared
/// infrastructure starts before the apps that use it.
pub fn nodes(loaded: &Loaded) -> (r: Vec<Node>)
    ensures
        text::views(r@) == nodes_of(loaded@),
{
    let mut out: Vec<Node> = Vec::new();
    let ghost head = if loaded.root_is_app {
        Seq::<NodeView>::empty()
    } else {
        manifest_nodes(None, loaded@.workspace_dir, loaded@.workspace)
    };
    assert(text::views(out@) =~= Seq::<NodeView>::empty());
    if !loaded.root_is_app {
        push_nodes(&mut out, &None, &loaded.workspace_dir, &loaded.workspace);
        assert(text::views(out@) =~= head);
    }
    let ghost apps = loaded@.apps;
    let mut i: usize = 0;
    assert(apps.take(0) =~= Seq::<AppView>::empty());
    assert(head + app_nodes(loaded@, apps.take(0)) =~= head);
    while i < loaded.apps.len()
        invariant
            i <= loaded.apps@.len(),
            apps == loaded@.apps,
            text::views(out@) == head + app_nodes(loaded@, apps.take(i as int)),
        decreases loaded.apps@.len() - i,
    {
        let app = &loaded.apps[i];
        let tag = if loaded.root_is_app {
            None
        } else {
            Some(app.id.clone())
        };
        let ghost before = text::views(out@);
        push_nodes(&mut out, &tag, &app.dir, &app.manifest);
        i += 1;
        proof {
            let now = apps.take(i as int);
            assert(now.drop_last() =~= apps.take(i - 1));
            assert(now.last() == app@);
            assert(head + app_nodes(loaded@, now) =~= before + manifest_nodes(
                text::opt_view(tag),
                app@.dir,
                app@.manifest,
            ));
        }
    }
    assert(apps.take(i as int) =~= apps);
    out
}

// ---------------------------------------------------------------------------
// Dependencies
// ---------------------------------------------------------------------------

/// The last node named `qual` among the first `k`.
pub open spec fn last_qual(nodes: Seq<NodeView>, qual: Seq<char>, k: int) -> Option<int>
    decreases k,
{
    if k <= 0 {
        None
    } else if nodes[k - 1].qual_of() == qual {
        Some(k - 1)
    } else {
        last_qual(nodes, qual, k - 1)
    }
}

/// The first workspace-level node with this id, from `k` on.
pub open spec fn first_shared(nodes: Seq<NodeView>, id: Seq<char>, k: int) -> Option<int>
    decreases nodes.len() - k,
{
    if k < 0 || k >= nodes.len() {
        None
    } else if nodes[k].app is None && nodes[k].id == id {
        Some(k)
    } else {
        first_shared(nodes, id, k + 1)
    }
}

/// How many of the first `k` nodes have this id.
pub open spec fn count_id(nodes: Seq<NodeView>, id: Seq<char>, k: int) -> nat
    decreases k,
{
    if k <= 0 {
        0
    } else {
        count_id(nodes, id, k - 1) + (if nodes[k - 1].id == id {
            1nat
        } else {
            0nat
        })
    }
}

/// The first node with this id, from `k` on.
pub open spec fn first_id(nodes: Seq<NodeView>, id: Seq<char>, k: int) -> Option<int>
    decreases nodes.len() - k,
{
    if k < 0 || k >= nodes.len() {
        None
    } else if nodes[k].id == id {
        Some(k)
    } else {
        first_id(nodes, id, k + 1)
    }
}

pub open spec fn missing_dependency(node: NodeView, need: Seq<char>) -> Seq<char> {
    node.qual_of() + ": dependency '"@ + need + "' does not exist"@
}

pub open spec fn ambiguous_dependency(node: NodeView, need: Seq<char>) -> Seq<char> {
    node.qual_of() + ": dependency '"@ + need + "' is ambiguous; qualify it as app:service"@
}

/// The node that `need` means to `node`. `app:service` is looked up in the whole stack. A bare
/// name is the service of the same app, else the workspace-level service, else the only node of
/// that id.
pub open spec fn resolve(nodes: Seq<NodeView>, node: NodeView, need: Seq<char>) -> Result<
    int,
    Seq<char>,
> {
    let n = nodes.len() as int;
    if need.contains(':') {
        match last_qual(nodes, need, n) {
            Some(i) => Ok(i),
            None => Err(missing_dependency(node, need)),
        }
    } else {
        let same_app = match node.app {
            Some(app) => last_qual(nodes, app + ":"@ + need, n),
            None => None,
        };
        match same_app {
            Some(i) => Ok(i),
            None => match first_shared(nodes, need, 0) {
                Some(i) => Ok(i),
                None => if count_id(nodes, need, n) == 0 {
                    Err(missing_dependency(node, need))
                } else if count_id(nodes, need, n) == 1 {
                    Ok(first_id(nodes, need, 0).unwrap())
                } else {
                    Err(ambiguous_dependency(node, need))
                },
            },
        }
    }
}

/// The first need of `node`, from `k` on, that resolves to nothing.
pub open spec fn need_error(nodes: Seq<NodeView>, node: NodeView, k: int) -> Option<Seq<char>>
    decreases node.needs_of().len() - k,
{
    if k < 0 || k >= node.needs_of().len() {
        None
    } else {
        match resolve(nodes, node, node.needs_of()[k]) {
            Ok(_) => need_error(nodes, node, k + 1),
            Err(e) => Some(e),
        }
    }
}

/// The first need of any node, from node `i` on, that resolves to nothing.
pub open spec fn dependency_error(nodes: Seq<NodeView>, i: int) -> Option<Seq<char>>
    decreases nodes.len() - i,
{
    if i < 0 || i >= nodes.len() {
        None
    } else {
        match need_error(nodes, nodes[i], 0) {
            Some(e) => Some(e),
            None => dependency_error(nodes, i + 1),
        }
    }
}

/// Whether `edges` holds, for each node, the nodes its needs resolve to, in order.
pub open spec fn resolved(nodes: Seq<NodeView>, edges: Seq<Seq<usize>>) -> bool {
    &&& edges.len() == nodes.len()
    &&& forall|i: int|
        0 <= i < nodes.len() ==> needs_resolved(nodes, nodes[i], #[trigger] edges[i])
}

pub open spec fn needs_resolved(nodes: Seq<NodeView>, node: NodeView, deps: Seq<usize>) -> bool {
    &&& deps.len() == node.needs_of().len()
    &&& forall|k: int|
        0 <= k < deps.len() ==> resolve(nodes, node, node.needs_of()[k]) == Ok::<int, Seq<char>>(
            #[trigger] deps[k] as int,
        ) && deps[k] < nodes.len()
}

fn find_qual(nodes: &Vec<Node>, qual: &str) -> (r: Option<usize>)
    ensures
        match r {
            Some(i) => last_qual(text::views(nodes@), qual@, nodes@.len() as int) == Some(i as int)
                && i < nodes@.len(),
            None => last_qual(text::views(nodes@), qual@, nodes@.len() as int) is None,
        },
{
    let mut k: usize = nodes.len();
    while k > 0
        invariant
            k <= nodes@.len(),
            last_qual(text::views(nodes@), qual@, nodes@.len() as int) == last_qual(
                text::views(nodes@),
                qual@,
                k as int,
            ),
        decreases k,
    {
        let q = nodes[k - 1].qual();
        if text::same(&q, qual) {
            return Some(k - 1);
        }
        k -= 1;
    }
    None
}

fn find_shared(nodes: &Vec<Node>, id: &str) -> (r: Option<usize>)
    ensures
        match r {
            Some(i) => first_shared(text::views(nodes@), id@, 0) == Some(i as int) && i
                < nodes@.len(),
            None => first_shared(text::views(nodes@), id@, 0) is None,
        },
{
    let mut k: usize = 0;
    while k < nodes.len()
        invariant
            k <= nodes@.len(),
            first_shared(text::views(nodes@), id@, 0) == first_shared(
                text::views(nodes@),
                id@,
                k as int,
            ),
        decreases nodes@.len() - k,
    {
        if nodes[k].app.is_none() && text::same(&nodes[k].id, id) {
            return Some(k);
        }
        k += 1;
    }
    None
}

proof fn first_id_after(nodes: Seq<NodeView>, id: Seq<char>, k: int)
    requires
        0 <= k <= nodes.len(),
        count_id(nodes, id, k) == 0,
    ensures
        first_id(nodes, id, 0) == first_id(nodes, id, k),
    decreases k,
{
    if k > 0 {
        first_id_after(nodes, id, k - 1);
    }
}

/// The number of nodes with this id, and the first of them.
fn find_ids(nodes: &Vec<Node>, id: &str) -> (r: (usize, usize))
    ensures
        r.0 == count_id(text::views(nodes@), id@, nodes@.len() as int),
        r.0 > 0 ==> first_id(text::views(nodes@), id@, 0) == Some(r.1 as int) && r.1 < nodes@.len(),
{
    let mut count: usize = 0;
    let mut first: usize = 0;
    let mut k: usize = 0;
    while k < nodes.len()
        invariant
            k <= nodes@.len(),
            count <= k,
            count == count_id(text::views(nodes@), id@, k as int),
            count > 0 ==> first_id(text::views(nodes@), id@, 0) == Some(first as int) && first
                < nodes@.len(),
        decreases nodes@.len() - k,
    {
        if text::same(&nodes[k].id, id) {
            if count == 0 {
                proof {
                    first_id_after(text::views(nodes@), id@, k as int);
                }
                first = k;
            }
            count += 1;
        }
        k += 1;
    }
    (count, first)
}

fn resolve_need(nodes: &Vec<Node>, node: &Node, need: &String) -> (r: Result<usize, String>)
    ensures
        match r {
            Ok(i) => resolve(text::views(nodes@), node@, need@) == Ok::<int, Seq<char>>(i as int)
                && i < nodes@.len(),
            Err(e) => resolve(text::views(nodes@), node@, need@) == Err::<int, Seq<char>>(e@),
        },
{
    let found = if text::contains_char(need, ':') {
        find_qual(nodes, need)
    } else {
        let same_app = match &node.app {
            Some(app) => {
                let mut qual = app.clone();
                qual.append(":");
                qual.append(need);
                find_qual(nodes, &qual)
            },
            None => None,
        };
        match same_app {
            Some(i) => Some(i),
            None => match find_shared(nodes, need) {
                Some(i) => Some(i),
                None => {
                    let (count, first) = find_ids(nodes, need);
                    if count > 1 {
                        let mut e = node.qual();
                        e.append(": dependency '");
                        e.append(need);
                        e.append("' is ambiguous; qualify it as app:service");
                        return Err(e);
                    }
                    if count == 1 {
                        Some(first)
                    } else {
                        None
                    }
                },
            },
        }
    };
    match found {
        Some(i) => Ok(i),
        None => {
            let mut e = node.qual();
            e.append(": dependency '");
            e.append(need);
            e.append("' does not exist");
            Err(e)
        },
    }
}

/// Resolve `needs` strings into node indices.
///
/// A bare name resolves to the service of the same app first, then to a workspace-level service.
/// `app:service` always resolves globally.
pub fn dependencies(nodes: &Vec<Node>) -> (r: Result<Vec<Vec<usize>>, String>)
    ensures
        match r {
            Ok(edges) => dependency_error(text::views(nodes@), 0) is None && resolved(
                text::views(nodes@),
                text::views(edges@),
            ),
            Err(e) => dependency_error(text::views(nodes@), 0) == Some(e@),
        },
{
    let ghost all = text::views(nodes@);
    let mut edges: Vec<Vec<usize>> = Vec::new();
    let mut i: usize = 0;
    while i < nodes.len()
        invariant
            all == text::views(nodes@),
            i <= nodes@.len(),
            edges@.len() == i,
            dependency_error(all, 0) == dependency_error(all, i as int),
            forall|j: int| 0 <= j < i ==> needs_resolved(all, all[j], #[trigger] edges@[j]@),
        decreases nodes@.len() - i,
    {
        let node = &nodes[i];
        let needs = node.needs();
        let mut deps: Vec<usize> = Vec::new();
        let mut k: usize = 0;
        while k < needs.len()
            invariant
                all == text::views(nodes@),
                i < nodes@.len(),
                node@ == all[i as int],
                text::views(needs@) == node@.needs_of(),
                k <= needs@.len(),
                deps@.len() == k,
                dependency_error(all, 0) == dependency_error(all, i as int),
                need_error(all, node@, 0) == need_error(all, node@, k as int),
                forall|j: int|
                    0 <= j < k ==> resolve(all, node@, node@.needs_of()[j]) == Ok::<int, Seq<char>>(
                        #[trigger] deps@[j] as int,
                    ) && deps@[j] < nodes@.len(),
            decreases needs@.len() - k,
        {
            assert(node@.needs_of()[k as int] == needs@[k as int]@);
            match resolve_need(nodes, node, &needs[k]) {
                Ok(target) => {
                    deps.push(target);
                },
                Err(e) => {
                    return Err(e);
                },
            }
            k += 1;
        }
        edges.push(deps);
        i += 1;
    }
    Ok(edges)
}

/// Resolving never points outside the list of nodes.
pub proof fn resolve_is_in_range(nodes: Seq<NodeView>, node: NodeView, need: Seq<char>)
    ensures
        resolve(nodes, node, need) matches Ok(i) ==> 0 <= i < nodes.len(),
{
    let n = nodes.len() as int;
    last_qual_in_range(nodes, need, n);
    if let Some(app) = node.app {
        last_qual_in_range(nodes, app + ":"@ + need, n);
    }
    first_shared_in_range(nodes, need, 0);
    first_id_found(nodes, need, n);
}

proof fn last_qual_in_range(nodes: Seq<NodeView>, qual: Seq<char>, k: int)
    ensures
        last_qual(nodes, qual, k) matches Some(i) ==> 0 <= i < k && nodes[i].qual_of() == qual,
    decreases k,
{
    if k > 0 {
        last_qual_in_range(nodes, qual, k - 1);
    }
}

proof fn first_shared_in_range(nodes: Seq<NodeView>, id: Seq<char>, k: int)
    ensures
        first_shared(nodes, id, k) matches Some(i) ==> k <= i < nodes.len() && nodes[i].id == id,
    decreases nodes.len() - k,
{
    if 0 <= k < nodes.len() {
        first_shared_in_range(nodes, id, k + 1);
    }
}

proof fn first_id_found(nodes: Seq<NodeView>, id: Seq<char>, k: int)
    requires
        0 <= k <= nodes.len(),
    ensures
        count_id(nodes, id, k) > 0 ==> (first_id(nodes, id, 0) matches Some(i) && 0 <= i < k
            && nodes[i].id == id),
    decreases k,
{
    if k > 0 {
        first_id_found(nodes, id, k - 1);
        if count_id(nodes, id, k - 1) == 0 {
            first_id_after(nodes, id, k - 1);
        }
    }
}

// ---------------------------------------------------------------------------
// Order
// ---------------------------------------------------------------------------

/// The nodes finished after visiting `i`, dependencies first: `done` with what `i` still needs
/// after it, and then `i`. `path` is the chain of nodes whose visit led here; a node met again on
/// it closes a cycle, which is given back.
pub open spec fn visit_of(
    i: usize,
    edges: Seq<Seq<usize>>,
    scope: Seq<bool>,
    done: Seq<usize>,
    path: Seq<usize>,
) -> Result<Seq<usize>, Seq<usize>>
    decreases edges.len() - path.len(), 1nat, 0int,
{
    if done.contains(i) {
        Ok(done)
    } else if path.contains(i) || path.len() >= edges.len() {
        Err(path.push(i))
    } else {
        match visit_from(edges[i as int], 0, edges, scope, done, path.push(i)) {
            Ok(d) => Ok(d.push(i)),
            Err(c) => Err(c),
        }
    }
}

/// The nodes finished after visiting those of `deps` from `k` on that are in scope.
pub open spec fn visit_from(
    deps: Seq<usize>,
    k: int,
    edges: Seq<Seq<usize>>,
    scope: Seq<bool>,
    done: Seq<usize>,
    path: Seq<usize>,
) -> Result<Seq<usize>, Seq<usize>>
    decreases edges.len() - path.len(), 2nat, deps.len() - k,
{
    if k < 0 || k >= deps.len() {
        Ok(done)
    } else if !scope[deps[k] as int] {
        visit_from(deps, k + 1, edges, scope, done, path)
    } else {
        match visit_of(deps[k], edges, scope, done, path) {
            Ok(d) => visit_from(deps, k + 1, edges, scope, d, path),
            Err(c) => Err(c),
        }
    }
}

/// The nodes of a graph whose edges stay inside it.
pub open spec fn graph(edges: Seq<Seq<usize>>) -> bool {
    forall|i: int, j: int|
        0 <= i < edges.len() && 0 <= j < edges[i].len() ==> #[trigger] edges[i][j] < edges.len()
}

pub open spec fn inside(s: Seq<usize>, n: nat) -> bool {
    forall|i: int| 0 <= i < s.len() ==> #[trigger] s[i] < n
}

/// A list without repetitions holds no more numbers than there are below its bound.
proof fn distinct_below(s: Seq<usize>, n: nat)
    requires
        s.no_duplicates(),
        inside(s, n),
    ensures
        s.len() <= n,
    decreases n,
{
    if n == 0 {
        if s.len() > 0 {
            assert(s[0] < 0);
        }
    } else {
        let top = (n - 1) as nat;
        if exists|k: int| 0 <= k < s.len() && #[trigger] s[k] == top {
            let k = choose|k: int| 0 <= k < s.len() && #[trigger] s[k] == top;
            let t = s.remove(k);
            assert forall|i: int| 0 <= i < t.len() implies #[trigger] t[i] < top by {
                if i < k {
                    assert(t[i] == s[i]);
                } else {
                    assert(t[i] == s[i + 1]);
                }
            }
            assert(t.no_duplicates());
            distinct_below(t, top);
        } else {
            assert forall|i: int| 0 <= i < s.len() implies #[trigger] s[i] < top by {
                assert(s[i] < n);
            }
            distinct_below(s, top);
        }
    }
}

/// A chain that has room for `i` and does not hold it is shorter than the graph.
proof fn path_has_room(path: Seq<usize>, i: usize, n: nat)
    requires
        path.no_duplicates(),
        inside(path, n),
        i < n,
        !path.contains(i),
    ensures
        path.len() < n,
{
    let p = path.push(i);
    assert(p.no_duplicates());
    assert(inside(p, n));
    distinct_below(p, n);
}

spec fn tracks(state: Seq<u8>, done: Seq<usize>, path: Seq<usize>) -> bool {
    forall|i: usize|
        i < state.len() ==> {
            &&& (#[trigger] state[i as int] == 2) == done.contains(i)
            &&& (state[i as int] == 1) == (path.contains(i) && !done.contains(i))
        }
}

fn visit(
    i: usize,
    edges: &Vec<Vec<usize>>,
    scope: &Vec<bool>,
    state: &mut Vec<u8>,
    result: &mut Vec<usize>,
    path: &mut Vec<usize>,
) -> (r: Result<(), Vec<usize>>)
    requires
        graph(text::views(edges@)),
        i < edges@.len(),
        scope@.len() == edges@.len(),
        old(state)@.len() == edges@.len(),
        old(path)@.no_duplicates(),
        inside(old(path)@, edges@.len()),
        tracks(old(state)@, old(result)@, old(path)@),
        forall|x: usize| #[trigger] old(path)@.contains(x) ==> !old(result)@.contains(x),
    ensures
        match r {
            Ok(_) => visit_of(i, text::views(edges@), scope@, old(result)@, old(path)@) == Ok::<
                Seq<usize>,
                Seq<usize>,
            >(final(result)@) && final(path)@ == old(path)@ && final(state)@.len() == edges@.len()
                && tracks(final(state)@, final(result)@, final(path)@) && forall|x: usize| #[trigger]
                old(path)@.contains(x) ==> !final(result)@.contains(x),
            Err(c) => visit_of(i, text::views(edges@), scope@, old(result)@, old(path)@) == Err::<
                Seq<usize>,
                Seq<usize>,
            >(c@),
        },
    decreases edges@.len() - old(path)@.len(),
{
    let ghost all = text::views(edges@);
    let ghost done0 = result@;
    let ghost path0 = path@;
    if state[i] == 2 {
        return Ok(());
    }
    if state[i] == 1 {
        let mut c = text::clone_plain(path);
        c.push(i);
        return Err(c);
    }
    proof {
        assert(!path0.contains(i));
        path_has_room(path0, i, edges@.len());
    }
    state.set(i, 1);
    path.push(i);
    let ghost path1 = path@;
    assert(path1.no_duplicates());
    assert(inside(path1, edges@.len()));
    assert forall|x: usize| #[trigger] path1.contains(x) implies !done0.contains(x) by {
        if x != i {
            let k = choose|k: int| 0 <= k < path1.len() && path1[k] == x;
            assert(path0[k] == x);
            assert(path0.contains(x));
        }
    }
    assert(tracks(state@, done0, path1)) by {
        assert forall|x: usize| x < state@.len() implies {
            &&& (#[trigger] state@[x as int] == 2) == done0.contains(x)
            &&& (state@[x as int] == 1) == (path1.contains(x) && !done0.contains(x))
        } by {
            if x == i {
                assert(path1[path1.len() - 1] == i);
            } else {
                assert(old(state)@[x as int] == state@[x as int]);
                if path0.contains(x) {
                    let k = choose|k: int| 0 <= k < path0.len() && path0[k] == x;
                    assert(path1[k] == x);
                }
                if path1.contains(x) {
                    let k = choose|k: int| 0 <= k < path1.len() && path1[k] == x;
                    assert(path0[k] == x);
                }
            }
        }
    }
    let deps = &edges[i];
    let mut k: usize = 0;
    while k < deps.len()
        invariant
            all == text::views(edges@),
            graph(all),
            i < edges@.len(),
            deps@ == all[i as int],
            scope@.len() == edges@.len(),
            state@.len() == edges@.len(),
            path@ == path1,
            path1.len() == path0.len() + 1,
            path1 == path0.push(i),
            path0 == old(path)@,
            path0.len() < edges@.len(),
            path1.no_duplicates(),
            inside(path1, edges@.len()),
            tracks(state@, result@, path1),
            !done0.contains(i),
            !path0.contains(i),
            done0 == old(result)@,
            forall|x: usize| #[trigger] path1.contains(x) ==> !result@.contains(x),
            k <= deps@.len(),
            visit_from(deps@, 0, all, scope@, done0, path1) == visit_from(
                deps@,
                k as int,
                all,
                scope@,
                result@,
                path1,
            ),
        decreases deps@.len() - k,
    {
        let dep: usize = deps[k];
        assert(all[i as int][k as int] < all.len());
        if scope[dep] {
            match visit(dep, edges, scope, state, result, path) {
                Ok(()) => {},
                Err(c) => {
                    return Err(c);
                },
            }
        }
        k += 1;
    }
    path.pop();
    assert(path@ =~= path0);
    let ghost done1 = result@;
    assert(path1[path1.len() - 1] == i);
    assert(path1.contains(i));
    state.set(i, 2);
    result.push(i);
    assert(result@[result@.len() - 1] == i);
    assert forall|x: usize| #[trigger] path0.contains(x) implies !result@.contains(x) by {
        let k = choose|k: int| 0 <= k < path0.len() && path0[k] == x;
        assert(path1[k] == x);
        assert(path1.contains(x));
        if result@.contains(x) {
            let m = choose|m: int| 0 <= m < result@.len() && result@[m] == x;
            if m < done1.len() {
                assert(done1[m] == x);
            }
        }
    }
    assert(tracks(state@, result@, path0)) by {
        assert forall|x: usize| x < state@.len() implies {
            &&& (#[trigger] state@[x as int] == 2) == result@.contains(x)
            &&& (state@[x as int] == 1) == (path0.contains(x) && !result@.contains(x))
        } by {
            if done1.contains(x) {
                let m = choose|m: int| 0 <= m < done1.len() && done1[m] == x;
                assert(result@[m] == x);
            }
            if x != i {
                if result@.contains(x) {
                    let m = choose|m: int| 0 <= m < result@.len() && result@[m] == x;
                    assert(done1[m] == x);
                }
                if path0.contains(x) {
                    let m = choose|m: int| 0 <= m < path0.len() && path0[m] == x;
                    assert(path1[m] == x);
                }
                if path1.contains(x) {
                    let m = choose|m: int| 0 <= m < path1.len() && path1[m] == x;
                    assert(path0[m] == x);
                }
            }
        }
    }
    Ok(())
}

/// The names of nodes, in order.
pub open spec fn quals_of(nodes: Seq<NodeView>, path: Seq<usize>) -> Seq<Seq<char>> {
    Seq::new(path.len(), |i: int| nodes[path[i] as int].qual_of())
}

/// The order in which `selection` and what it needs start, from its `k`th member on: the nodes,
/// or the message that names a cycle.
pub open spec fn order_from(
    nodes: Seq<NodeView>,
    edges: Seq<Seq<usize>>,
    scope: Seq<bool>,
    selection: Seq<usize>,
    k: int,
    done: Seq<usize>,
) -> Result<Seq<usize>, Seq<char>>
    decreases selection.len() - k,
{
    if k < 0 || k >= selection.len() {
        Ok(done)
    } else {
        match visit_of(selection[k], edges, scope, done, Seq::empty()) {
            Ok(d) => order_from(nodes, edges, scope, selection, k + 1, d),
            Err(c) => Err("dependency cycle: "@ + text::join_of(quals_of(nodes, c), " -> "@)),
        }
    }
}

/// Every node is in scope.
pub open spec fn whole_scope(n: nat) -> Seq<bool> {
    Seq::new(n, |i: int| true)
}

/// Only the selected nodes are in scope.
pub open spec fn selected_scope(n: nat, selection: Seq<usize>) -> Seq<bool> {
    Seq::new(n, |i: int| selection.contains(i as usize))
}

/// The order in which the selection and everything it needs start.
pub open spec fn order_of(
    nodes: Seq<NodeView>,
    edges: Seq<Seq<usize>>,
    selection: Seq<usize>,
) -> Result<Seq<usize>, Seq<char>> {
    order_from(nodes, edges, whole_scope(nodes.len()), selection, 0, Seq::empty())
}

/// The order in which exactly the selection starts.
pub open spec fn order_selected_of(
    nodes: Seq<NodeView>,
    edges: Seq<Seq<usize>>,
    selection: Seq<usize>,
) -> Result<Seq<usize>, Seq<char>> {
    order_from(
        nodes,
        edges,
        selected_scope(nodes.len(), selection),
        selection,
        0,
        Seq::empty(),
    )
}

/// A cycle stays inside the graph it was found in.
proof fn cycle_inside(
    i: usize,
    edges: Seq<Seq<usize>>,
    scope: Seq<bool>,
    done: Seq<usize>,
    path: Seq<usize>,
)
    requires
        graph(edges),
        i < edges.len(),
        inside(path, edges.len()),
    ensures
        visit_of(i, edges, scope, done, path) matches Err(c) ==> inside(c, edges.len()),
    decreases edges.len() - path.len(), 1nat, 0int,
{
    if !done.contains(i) && !path.contains(i) && path.len() < edges.len() {
        assert(inside(path.push(i), edges.len()));
        cycle_inside_from(edges[i as int], 0, edges, scope, done, path.push(i));
    }
}

proof fn cycle_inside_from(
    deps: Seq<usize>,
    k: int,
    edges: Seq<Seq<usize>>,
    scope: Seq<bool>,
    done: Seq<usize>,
    path: Seq<usize>,
)
    requires
        graph(edges),
        inside(deps, edges.len()),
        inside(path, edges.len()),
    ensures
        visit_from(deps, k, edges, scope, done, path) matches Err(c) ==> inside(c, edges.len()),
    decreases edges.len() - path.len(), 2nat, deps.len() - k,
{
    if 0 <= k < deps.len() {
        if !scope[deps[k] as int] {
            cycle_inside_from(deps, k + 1, edges, scope, done, path);
        } else {
            cycle_inside(deps[k], edges, scope, done, path);
            if let Ok(d) = visit_of(deps[k], edges, scope, done, path) {
                cycle_inside_from(deps, k + 1, edges, scope, d, path);
            }
        }
    }
}

fn order_scoped(
    nodes: &Vec<Node>,
    edges: &Vec<Vec<usize>>,
    selection: &Vec<usize>,
    scope: &Vec<bool>,
) -> (r: Result<Vec<usize>, String>)
    requires
        graph(text::views(edges@)),
        edges@.len() == nodes@.len(),
        scope@.len() == nodes@.len(),
        inside(selection@, nodes@.len()),
    ensures
        match r {
            Ok(v) => order_from(
                text::views(nodes@),
                text::views(edges@),
                scope@,
                selection@,
                0,
                Seq::empty(),
            ) == Ok::<Seq<usize>, Seq<char>>(v@),
            Err(e) => order_from(
                text::views(nodes@),
                text::views(edges@),
                scope@,
                selection@,
                0,
                Seq::empty(),
            ) == Err::<Seq<usize>, Seq<char>>(e@),
        },
{
    let ghost all = text::views(nodes@);
    let ghost graph_edges = text::views(edges@);
    let mut state: Vec<u8> = Vec::new();
    while state.len() < nodes.len()
        invariant
            state@.len() <= nodes@.len(),
            forall|i: int| 0 <= i < state@.len() ==> state@[i] == 0,
        decreases nodes@.len() - state@.len(),
    {
        state.push(0);
    }
    let mut result: Vec<usize> = Vec::new();
    let mut k: usize = 0;
    assert(tracks(state@, result@, Seq::empty()));
    assert(result@ =~= Seq::<usize>::empty());
    while k < selection.len()
        invariant
            all == text::views(nodes@),
            graph_edges == text::views(edges@),
            graph(graph_edges),
            edges@.len() == nodes@.len(),
            scope@.len() == nodes@.len(),
            state@.len() == nodes@.len(),
            inside(selection@, nodes@.len()),
            k <= selection@.len(),
            tracks(state@, result@, Seq::empty()),
            order_from(all, graph_edges, scope@, selection@, 0, Seq::empty()) == order_from(
                all,
                graph_edges,
                scope@,
                selection@,
                k as int,
                result@,
            ),
        decreases selection@.len() - k,
    {
        let mut path: Vec<usize> = Vec::new();
        assert(path@ =~= Seq::<usize>::empty());
        proof {
            cycle_inside(selection@[k as int], graph_edges, scope@, result@, Seq::empty());
        }
        match visit(selection[k], edges, scope, &mut state, &mut result, &mut path) {
            Ok(()) => {},
            Err(c) => {
                let mut names: Vec<String> = Vec::new();
                let mut j: usize = 0;
                while j < c.len()
                    invariant
                        all == text::views(nodes@),
                        inside(c@, nodes@.len()),
                        j <= c@.len(),
                        text::views(names@) == quals_of(all, c@).take(j as int),
                    decreases c@.len() - j,
                {
                    broadcast use text::views_push;

                    names.push(nodes[c[j]].qual());
                    j += 1;
                    assert(text::views(names@) =~= quals_of(all, c@).take(j as int));
                }
                assert(quals_of(all, c@).take(j as int) =~= quals_of(all, c@));
                let list = text::join(&names, " -> ");
                return Err(text::concat("dependency cycle: ", &list));
            },
        }
        k += 1;
    }
    Ok(result)
}

/// Expand the selection to include dependencies and return a topological order with dependencies
/// first.
pub fn order(nodes: &Vec<Node>, edges: &Vec<Vec<usize>>, selection: &Vec<usize>) -> (r: Result<
    Vec<usize>,
    String,
>)
    requires
        graph(text::views(edges@)),
        edges@.len() == nodes@.len(),
        inside(selection@, nodes@.len()),
    ensures
        match r {
            Ok(v) => order_of(text::views(nodes@), text::views(edges@), selection@) == Ok::<
                Seq<usize>,
                Seq<char>,
            >(v@),
            Err(e) => order_of(text::views(nodes@), text::views(edges@), selection@) == Err::<
                Seq<usize>,
                Seq<char>,
            >(e@),
        },
{
    let mut scope: Vec<bool> = Vec::new();
    while scope.len() < nodes.len()
        invariant
            scope@.len() <= nodes@.len(),
            forall|i: int| 0 <= i < scope@.len() ==> scope@[i],
        decreases nodes@.len() - scope@.len(),
    {
        scope.push(true);
    }
    assert(scope@ =~= whole_scope(nodes@.len()));
    order_scoped(nodes, edges, selection, &scope)
}

/// Topologically order exactly the selected nodes; unselected dependencies are left out, while
/// dependencies selected explicitly still precede their users.
pub fn order_selected(nodes: &Vec<Node>, edges: &Vec<Vec<usize>>, selection: &Vec<usize>) -> (r:
    Result<Vec<usize>, String>)
    requires
        graph(text::views(edges@)),
        edges@.len() == nodes@.len(),
        inside(selection@, nodes@.len()),
    ensures
        match r {
            Ok(v) => order_selected_of(text::views(nodes@), text::views(edges@), selection@) == Ok::<
                Seq<usize>,
                Seq<char>,
            >(v@),
            Err(e) => order_selected_of(text::views(nodes@), text::views(edges@), selection@)
                == Err::<Seq<usize>, Seq<char>>(e@),
        },
{
    let mut scope: Vec<bool> = Vec::new();
    while scope.len() < nodes.len()
        invariant
            scope@.len() <= nodes@.len(),
            forall|i: int| 0 <= i < scope@.len() ==> !scope@[i],
        decreases nodes@.len() - scope@.len(),
    {
        scope.push(false);
    }
    let mut k: usize = 0;
    while k < selection.len()
        invariant
            scope@.len() == nodes@.len(),
            inside(selection@, nodes@.len()),
            k <= selection@.len(),
            forall|i: int|
                0 <= i < scope@.len() ==> scope@[i] == selection@.take(k as int).contains(
                    i as usize,
                ),
        decreases selection@.len() - k,
    {
        let ghost before = selection@.take(k as int);
        let ghost now = selection@.take(k + 1);
        let i: usize = selection[k];
        scope.set(i, true);
        k += 1;
        assert forall|x: int| 0 <= x < scope@.len() implies scope@[x] == now.contains(x as usize) by {
            assert(x < scope.len());
            if before.contains(x as usize) {
                let m = choose|m: int| 0 <= m < before.len() && before[m] == x as usize;
                assert(now[m] == x as usize);
            }
            if now.contains(x as usize) {
                let m = choose|m: int| 0 <= m < now.len() && now[m] == x as usize;
                if m < before.len() {
                    assert(before[m] == x as usize);
                } else {
                    assert(x == i);
                }
            }
            if x == i {
                assert(now[k - 1] == i);
            }
        }
    }
    assert(selection@.take(k as int) =~= selection@);
    assert(scope@ =~= selected_scope(nodes@.len(), selection@));
    order_scoped(nodes, edges, selection, &scope)
}

/// Whether each listed node comes after the nodes in scope that it needs.
pub open spec fn needs_first(edges: Seq<Seq<usize>>, scope: Seq<bool>, done: Seq<usize>) -> bool {
    forall|k: int, j: int|
        0 <= k < done.len() && 0 <= j < edges[done[k] as int].len()
            && scope[edges[done[k] as int][j] as int] ==> done.take(k).contains(
            #[trigger] edges[done[k] as int][j],
        )
}

/// Whether each node of a chain needs the next.
pub open spec fn chain(edges: Seq<Seq<usize>>, path: Seq<usize>) -> bool {
    forall|k: int|
        0 < k < path.len() ==> edges[path[k - 1] as int].contains(#[trigger] path[k])
}

/// Whether a chain of needs ends in a node that it already went through.
pub open spec fn cycle(edges: Seq<Seq<usize>>, path: Seq<usize>) -> bool {
    &&& path.len() >= 2
    &&& inside(path, edges.len())
    &&& chain(edges, path)
    &&& path.drop_last().contains(path.last())
}

/// Whether a set of nodes holds what its members need.
pub open spec fn closed_under(edges: Seq<Seq<usize>>, s: Set<usize>) -> bool {
    forall|i: usize, j: int|
        s.contains(i) && i < edges.len() && 0 <= j < edges[i as int].len() ==> s.contains(
            #[trigger] edges[i as int][j],
        )
}

spec fn finished(edges: Seq<Seq<usize>>, scope: Seq<bool>, done: Seq<usize>) -> bool {
    &&& done.no_duplicates()
    &&& inside(done, edges.len())
    &&& needs_first(edges, scope, done)
}

spec fn within(done: Seq<usize>, s: Set<usize>) -> bool {
    forall|x: usize| #[trigger] done.contains(x) ==> s.contains(x)
}

spec fn apart(done: Seq<usize>, path: Seq<usize>) -> bool {
    forall|x: usize| #[trigger] path.contains(x) ==> !done.contains(x)
}

spec fn extends(d: Seq<usize>, done: Seq<usize>) -> bool {
    forall|x: usize| #[trigger] done.contains(x) ==> d.contains(x)
}

proof fn finish_one(edges: Seq<Seq<usize>>, scope: Seq<bool>, d: Seq<usize>, i: usize)
    requires
        finished(edges, scope, d),
        i < edges.len(),
        !d.contains(i),
        forall|j: int|
            0 <= j < edges[i as int].len() && scope[edges[i as int][j] as int] ==> d.contains(
                #[trigger] edges[i as int][j],
            ),
    ensures
        finished(edges, scope, d.push(i)),
{
    let e = d.push(i);
    assert(e.no_duplicates()) by {
        assert forall|a: int, b: int| 0 <= a < e.len() && 0 <= b < e.len() && a != b implies e[a] != e[b] by {
            if a < d.len() {
                assert(d[a] == e[a]);
                assert(d.contains(e[a]));
            }
            if b < d.len() {
                assert(d[b] == e[b]);
                assert(d.contains(e[b]));
            }
        }
    }
    assert forall|k: int, j: int|
        0 <= k < e.len() && 0 <= j < edges[e[k] as int].len()
            && scope[edges[e[k] as int][j] as int] implies e.take(k).contains(
        #[trigger] edges[e[k] as int][j],
    ) by {
        if k < d.len() {
            assert(e[k] == d[k]);
            assert(d.take(k).contains(edges[d[k] as int][j]));
            assert(e.take(k) =~= d.take(k));
        } else {
            assert(e.take(k) =~= d);
        }
    }
}

proof fn visit_sound(
    i: usize,
    edges: Seq<Seq<usize>>,
    scope: Seq<bool>,
    done: Seq<usize>,
    path: Seq<usize>,
    s: Set<usize>,
)
    requires
        graph(edges),
        i < edges.len(),
        finished(edges, scope, done),
        path.no_duplicates(),
        inside(path, edges.len()),
        apart(done, path),
        chain(edges, path.push(i)),
        closed_under(edges, s),
        s.contains(i),
        within(done, s),
    ensures
        match visit_of(i, edges, scope, done, path) {
            Ok(d) => finished(edges, scope, d) && d.contains(i) && extends(d, done) && apart(d, path)
                && within(d, s),
            Err(c) => cycle(edges, c),
        },
    decreases edges.len() - path.len(), 1nat, 0int,
{
    if done.contains(i) {
    } else if path.contains(i) {
        let c = path.push(i);
        let k = choose|k: int| 0 <= k < path.len() && path[k] == i;
        assert(c.drop_last() =~= path);
        assert(path[k] == c.last());
    } else {
        path_has_room(path, i, edges.len());
        let p = path.push(i);
        assert(p.no_duplicates());
        assert(apart(done, p)) by {
            assert forall|x: usize| #[trigger] p.contains(x) implies !done.contains(x) by {
                let k = choose|k: int| 0 <= k < p.len() && p[k] == x;
                if k < path.len() {
                    assert(path[k] == x);
                    assert(path.contains(x));
                }
            }
        }
        assert(p.last() == i);
        visit_from_sound(edges[i as int], 0, edges, scope, done, p, s);
        if let Ok(d) = visit_from(edges[i as int], 0, edges, scope, done, p) {
            assert(p[p.len() - 1] == i);
            assert(p.contains(i));
            finish_one(edges, scope, d, i);
            let e = d.push(i);
            assert(e[e.len() - 1] == i);
            assert(extends(e, done)) by {
                assert forall|x: usize| #[trigger] done.contains(x) implies e.contains(x) by {
                    assert(d.contains(x));
                    let k = choose|k: int| 0 <= k < d.len() && d[k] == x;
                    assert(e[k] == x);
                }
            }
            assert(apart(e, path)) by {
                assert forall|x: usize| #[trigger] path.contains(x) implies !e.contains(x) by {
                    let k = choose|k: int| 0 <= k < path.len() && path[k] == x;
                    assert(p[k] == x);
                    assert(p.contains(x));
                    if e.contains(x) {
                        let m = choose|m: int| 0 <= m < e.len() && e[m] == x;
                        if m < d.len() {
                            assert(d[m] == x);
                        }
                    }
                }
            }
            assert(within(e, s)) by {
                assert forall|x: usize| #[trigger] e.contains(x) implies s.contains(x) by {
                    let m = choose|m: int| 0 <= m < e.len() && e[m] == x;
                    if m < d.len() {
                        assert(d[m] == x);
                        assert(d.contains(x));
                    }
                }
            }
        }
    }
}

proof fn visit_from_sound(
    deps: Seq<usize>,
    k: int,
    edges: Seq<Seq<usize>>,
    scope: Seq<bool>,
    done: Seq<usize>,
    path: Seq<usize>,
    s: Set<usize>,
)
    requires
        graph(edges),
        path.len() > 0,
        path.last() < edges.len(),
        deps == edges[path.last() as int],
        0 <= k <= deps.len(),
        finished(edges, scope, done),
        path.no_duplicates(),
        inside(path, edges.len()),
        apart(done, path),
        chain(edges, path),
        closed_under(edges, s),
        s.contains(path.last()),
        within(done, s),
        forall|j: int|
            0 <= j < k && scope[deps[j] as int] ==> done.contains(#[trigger] deps[j]),
    ensures
        match visit_from(deps, k, edges, scope, done, path) {
            Ok(d) => finished(edges, scope, d) && extends(d, done) && apart(d, path) && within(d, s)
                && forall|j: int|
                0 <= j < deps.len() && scope[deps[j] as int] ==> d.contains(#[trigger] deps[j]),
            Err(c) => cycle(edges, c),
        },
    decreases edges.len() - path.len(), 2nat, deps.len() - k,
{
    if k < deps.len() {
        let dep = deps[k];
        assert(edges[path.last() as int][k] < edges.len());
        if !scope[dep as int] {
            visit_from_sound(deps, k + 1, edges, scope, done, path, s);
        } else {
            let p = path.push(dep);
            assert(chain(edges, p)) by {
                assert forall|j: int| 0 < j < p.len() implies edges[p[j - 1] as int].contains(
                    #[trigger] p[j],
                ) by {
                    if j < path.len() {
                        assert(path[j] == p[j]);
                    } else {
                        assert(p[j - 1] == path.last());
                        assert(deps[k] == dep);
                    }
                }
            }
            visit_sound(dep, edges, scope, done, path, s);
            if let Ok(d) = visit_of(dep, edges, scope, done, path) {
                assert forall|j: int| 0 <= j < k + 1 && scope[deps[j] as int] implies d.contains(
                    #[trigger] deps[j],
                ) by {
                    if j < k {
                        assert(done.contains(deps[j]));
                    }
                }
                visit_from_sound(deps, k + 1, edges, scope, d, path, s);
                if let Ok(e) = visit_from(deps, k + 1, edges, scope, d, path) {
                    assert(extends(e, done)) by {
                        assert forall|x: usize| #[trigger] done.contains(x) implies e.contains(x) by {
                            assert(d.contains(x));
                        }
                    }
                }
            }
        }
    }
}

proof fn order_from_sound(
    nodes: Seq<NodeView>,
    edges: Seq<Seq<usize>>,
    scope: Seq<bool>,
    selection: Seq<usize>,
    k: int,
    done: Seq<usize>,
    s: Set<usize>,
)
    requires
        graph(edges),
        inside(selection, edges.len()),
        0 <= k <= selection.len(),
        finished(edges, scope, done),
        closed_under(edges, s),
        forall|x: usize| #[trigger] selection.contains(x) ==> s.contains(x),
        within(done, s),
        forall|j: int| 0 <= j < k ==> done.contains(#[trigger] selection[j]),
    ensures
        match order_from(nodes, edges, scope, selection, k, done) {
            Ok(d) => finished(edges, scope, d) && within(d, s) && forall|j: int|
                0 <= j < selection.len() ==> d.contains(#[trigger] selection[j]),
            Err(e) => exists|c: Seq<usize>| #[trigger]
                cycle(edges, c) && e == "dependency cycle: "@ + text::join_of(
                    quals_of(nodes, c),
                    " -> "@,
                ),
        },
    decreases selection.len() - k,
{
    if k < selection.len() {
        let i = selection[k];
        assert(selection.contains(i));
        assert(apart(done, Seq::empty()));
        assert(chain(edges, Seq::<usize>::empty().push(i)));
        visit_sound(i, edges, scope, done, Seq::empty(), s);
        match visit_of(i, edges, scope, done, Seq::empty()) {
            Ok(d) => {
                assert forall|j: int| 0 <= j < k + 1 implies d.contains(#[trigger] selection[j]) by {
                    if j < k {
                        assert(done.contains(selection[j]));
                    }
                }
                order_from_sound(nodes, edges, scope, selection, k + 1, d, s);
            },
            Err(c) => {
                assert(cycle(edges, c));
            },
        }
    }
}

/// The start order of a selection lists no node twice, lists every selected node, puts every node
/// after all that it needs, and lists nothing that the selection does not need: it stays inside
/// every set of nodes that holds the selection and what its own members need. Where there is no
/// such order, the message names a cycle.
pub proof fn order_is_sound(
    nodes: Seq<NodeView>,
    edges: Seq<Seq<usize>>,
    selection: Seq<usize>,
    s: Set<usize>,
)
    requires
        graph(edges),
        edges.len() == nodes.len(),
        inside(selection, edges.len()),
        closed_under(edges, s),
        forall|x: usize| #[trigger] selection.contains(x) ==> s.contains(x),
    ensures
        match order_of(nodes, edges, selection) {
            Ok(d) => {
                &&& d.no_duplicates()
                &&& forall|x: usize| #[trigger] d.contains(x) ==> x < nodes.len() && s.contains(x)
                &&& forall|x: usize| #[trigger] selection.contains(x) ==> d.contains(x)
                &&& forall|k: int, j: int|
                    0 <= k < d.len() && 0 <= j < edges[d[k] as int].len() ==> d.take(k).contains(
                        #[trigger] edges[d[k] as int][j],
                    )
            },
            Err(e) => exists|c: Seq<usize>| #[trigger]
                cycle(edges, c) && e == "dependency cycle: "@ + text::join_of(
                    quals_of(nodes, c),
                    " -> "@,
                ),
        },
{
    let scope = whole_scope(nodes.len());
    order_from_sound(nodes, edges, scope, selection, 0, Seq::empty(), s);
    if let Ok(d) = order_of(nodes, edges, selection) {
        assert forall|x: usize| #[trigger] d.contains(x) implies x < nodes.len() && s.contains(x) by {
            let m = choose|m: int| 0 <= m < d.len() && d[m] == x;
            assert(d[m] < edges.len());
        }
        assert forall|x: usize| #[trigger] selection.contains(x) implies d.contains(x) by {
            let m = choose|m: int| 0 <= m < selection.len() && selection[m] == x;
            assert(d.contains(selection[m]));
        }
        assert forall|k: int, j: int|
            0 <= k < d.len() && 0 <= j < edges[d[k] as int].len() implies d.take(k).contains(
            #[trigger] edges[d[k] as int][j],
        ) by {
            assert(d[k] < edges.len());
            assert(edges[d[k] as int][j] < edges.len());
            assert(scope[edges[d[k] as int][j] as int]);
        }
    }
}

/// The order of exactly the selected nodes lists each of them once and nothing else, a selected
/// dependency before its selected users; where there is none, the message names a cycle.
pub proof fn order_selected_is_sound(
    nodes: Seq<NodeView>,
    edges: Seq<Seq<usize>>,
    selection: Seq<usize>,
)
    requires
        graph(edges),
        edges.len() == nodes.len(),
        nodes.len() <= usize::MAX,
        inside(selection, edges.len()),
    ensures
        match order_selected_of(nodes, edges, selection) {
            Ok(d) => {
                &&& d.no_duplicates()
                &&& forall|x: usize| d.contains(x) <==> selection.contains(x)
                &&& forall|k: int, j: int|
                    0 <= k < d.len() && 0 <= j < edges[d[k] as int].len() && selection.contains(
                        edges[d[k] as int][j],
                    ) ==> d.take(k).contains(#[trigger] edges[d[k] as int][j])
            },
            Err(e) => exists|c: Seq<usize>| #[trigger]
                cycle(edges, c) && e == "dependency cycle: "@ + text::join_of(
                    quals_of(nodes, c),
                    " -> "@,
                ),
        },
{
    let scope = selected_scope(nodes.len(), selection);
    let s = Set::<usize>::full();
    order_from_sound(nodes, edges, scope, selection, 0, Seq::empty(), s);
    if let Ok(d) = order_selected_of(nodes, edges, selection) {
        assert forall|x: usize| d.contains(x) implies selection.contains(x) by {
            order_from_in_scope(nodes, edges, scope, selection, 0, Seq::empty());
            let m = choose|m: int| 0 <= m < d.len() && d[m] == x;
            assert(d[m] < edges.len());
            assert(scope[x as int]);
        }
        assert forall|x: usize| selection.contains(x) implies d.contains(x) by {
            let m = choose|m: int| 0 <= m < selection.len() && selection[m] == x;
            assert(d.contains(selection[m]));
        }
        assert forall|k: int, j: int|
            0 <= k < d.len() && 0 <= j < edges[d[k] as int].len() && selection.contains(
                edges[d[k] as int][j],
            ) implies d.take(k).contains(#[trigger] edges[d[k] as int][j]) by {
            assert(d[k] < edges.len());
            assert(edges[d[k] as int][j] < edges.len());
            assert(scope[edges[d[k] as int][j] as int]);
        }
    }
}

spec fn scoped(scope: Seq<bool>, done: Seq<usize>) -> bool {
    forall|x: usize| #[trigger] done.contains(x) ==> scope[x as int]
}

proof fn visit_in_scope(
    i: usize,
    edges: Seq<Seq<usize>>,
    scope: Seq<bool>,
    done: Seq<usize>,
    path: Seq<usize>,
)
    requires
        scope[i as int],
        scoped(scope, done),
    ensures
        visit_of(i, edges, scope, done, path) matches Ok(d) ==> scoped(scope, d),
    decreases edges.len() - path.len(), 1nat, 0int,
{
    if !done.contains(i) && !path.contains(i) && path.len() < edges.len() {
        visit_from_in_scope(edges[i as int], 0, edges, scope, done, path.push(i));
        if let Ok(d) = visit_from(edges[i as int], 0, edges, scope, done, path.push(i)) {
            let e = d.push(i);
            assert forall|x: usize| #[trigger] e.contains(x) implies scope[x as int] by {
                let m = choose|m: int| 0 <= m < e.len() && e[m] == x;
                if m < d.len() {
                    assert(d[m] == x);
                    assert(d.contains(x));
                }
            }
        }
    }
}

proof fn visit_from_in_scope(
    deps: Seq<usize>,
    k: int,
    edges: Seq<Seq<usize>>,
    scope: Seq<bool>,
    done: Seq<usize>,
    path: Seq<usize>,
)
    requires
        scoped(scope, done),
    ensures
        visit_from(deps, k, edges, scope, done, path) matches Ok(d) ==> scoped(scope, d),
    decreases edges.len() - path.len(), 2nat, deps.len() - k,
{
    if 0 <= k < deps.len() {
        if !scope[deps[k] as int] {
            visit_from_in_scope(deps, k + 1, edges, scope, done, path);
        } else {
            visit_in_scope(deps[k], edges, scope, done, path);
            if let Ok(d) = visit_of(deps[k], edges, scope, done, path) {
                visit_from_in_scope(deps, k + 1, edges, scope, d, path);
            }
        }
    }
}

proof fn order_from_in_scope(
    nodes: Seq<NodeView>,
    edges: Seq<Seq<usize>>,
    scope: Seq<bool>,
    selection: Seq<usize>,
    k: int,
    done: Seq<usize>,
)
    requires
        0 <= k,
        scope == selected_scope(edges.len(), selection),
        edges.len() <= usize::MAX,
        inside(selection, edges.len()),
        scoped(scope, done),
    ensures
        order_from(nodes, edges, scope, selection, k, done) matches Ok(d) ==> scoped(scope, d),
    decreases selection.len() - k,
{
    if k < selection.len() {
        assert(selection.contains(selection[k]));
        assert(scope[selection[k] as int]);
        visit_in_scope(selection[k], edges, scope, done, Seq::empty());
        if let Ok(d) = visit_of(selection[k], edges, scope, done, Seq::empty()) {
            order_from_in_scope(nodes, edges, scope, selection, k + 1, d);
        }
    }
}

/// A graph whose nodes can be ranked so that every node ranks above what it needs has a start
/// order for every selection.
pub proof fn ranked_graphs_have_an_order(
    nodes: Seq<NodeView>,
    edges: Seq<Seq<usize>>,
    selection: Seq<usize>,
    rank: spec_fn(usize) -> int,
)
    requires
        graph(edges),
        edges.len() == nodes.len(),
        inside(selection, edges.len()),
        forall|i: int, j: int|
            0 <= i < edges.len() && 0 <= j < edges[i].len() ==> rank(i as usize) > rank(
                #[trigger] edges[i][j],
            ),
    ensures
        order_of(nodes, edges, selection) is Ok,
{
    order_is_sound(nodes, edges, selection, Set::full());
    if order_of(nodes, edges, selection) is Err {
        let e = order_of(nodes, edges, selection)->Err_0;
        let c = choose|c: Seq<usize>| #[trigger]
            cycle(edges, c) && e == "dependency cycle: "@ + text::join_of(
                quals_of(nodes, c),
                " -> "@,
            );
        let k = choose|k: int| 0 <= k < c.drop_last().len() && c.drop_last()[k] == c.last();
        ranks_fall(edges, c, rank, k, c.len() - 1);
    }
}

proof fn ranks_fall(edges: Seq<Seq<usize>>, c: Seq<usize>, rank: spec_fn(usize) -> int, a: int, b: int)
    requires
        0 <= a < b < c.len(),
        inside(c, edges.len()),
        chain(edges, c),
        forall|i: int, j: int|
            0 <= i < edges.len() && 0 <= j < edges[i].len() ==> rank(i as usize) > rank(
                #[trigger] edges[i][j],
            ),
    ensures
        rank(c[a]) > rank(c[b]),
    decreases b - a,
{
    let i = c[b - 1];
    assert(c[b - 1] < edges.len());
    assert(edges[i as int].contains(c[b]));
    let j = choose|j: int| 0 <= j < edges[i as int].len() && edges[i as int][j] == c[b];
    assert(rank(i as int as usize) > rank(edges[i as int][j]));
    if a < b - 1 {
        ranks_fall(edges, c, rank, a, b - 1);
    }
}

// ---------------------------------------------------------------------------
// Validation
// ---------------------------------------------------------------------------

/// The environment keys that magictree sets itself.
pub open spec fn reserved_env(key: Seq<char>) -> bool {
    text::starts_with_of(key, "MAGICTREE_"@) || key == "COMPOSE_PROJECT_NAME"@ || key
        == "COMPOSE_FILE"@
}

pub fn is_reserved_env(key: &str) -> (r: bool)
    ensures
        r == reserved_env(key@),
{
    text::starts_with(key, "MAGICTREE_") || text::same(key, "COMPOSE_PROJECT_NAME") || text::same(
        key,
        "COMPOSE_FILE",
    )
}

/// `scope: service 'id'` and what is wrong with it.
pub open spec fn service_complaint(scope: Seq<char>, id: Seq<char>, what: Seq<char>) -> Seq<char> {
    scope + ": service '"@ + id + "'"@ + what
}

fn complain(scope: &str, id: &str, what: &str) -> (r: String)
    ensures
        r@ == service_complaint(scope@, id@, what@),
{
    let mut r = text::own(scope);
    r.append(": service '");
    r.append(id);
    r.append("'");
    r.append(what);
    r
}

/// What is wrong with how a service is launched.
pub open spec fn launch_error(s: ServiceView) -> Option<Seq<char>> {
    match s.runtime_of() {
        Runtime::Compose => match s.compose {
            None => Some(" uses runtime = \"compose\" but has no compose reference"@),
            Some(reference) => if reference.file.len() == 0 || reference.service.len() == 0 {
                Some(" needs compose.file and compose.service"@)
            } else if s.target is Some || s.command is Some {
                Some(" is a compose service and cannot also declare a command or target"@)
            } else {
                None
            },
        },
        Runtime::Host => if s.target is None && s.command is None {
            Some(" is a host service and needs either command or [services.target]"@)
        } else if s.target is Some && s.command is Some {
            Some(" cannot set both command and target"@)
        } else {
            match s.target {
                Some(TargetView::Uv { script: None, module: None, .. }) => Some(
                    " uses a uv target with neither script nor module"@,
                ),
                _ => None,
            }
        },
    }
}

fn check_launch(s: &Service) -> (r: Option<String>)
    ensures
        text::opt_view(r) == launch_error(s@),
{
    match s.launched_by() {
        Runtime::Compose => match &s.compose {
            None => Some(text::own(" uses runtime = \"compose\" but has no compose reference")),
            Some(reference) => if text::length(&reference.file) == 0 || text::length(
                &reference.service,
            ) == 0 {
                Some(text::own(" needs compose.file and compose.service"))
            } else if s.target.is_some() || s.command.is_some() {
                Some(
                    text::own(
                        " is a compose service and cannot also declare a command or target",
                    ),
                )
            } else {
                None
            },
        },
        Runtime::Host => if s.target.is_none() && s.command.is_none() {
            Some(text::own(" is a host service and needs either command or [services.target]"))
        } else if s.target.is_some() && s.command.is_some() {
            Some(text::own(" cannot set both command and target"))
        } else {
            match &s.target {
                Some(Target::Uv { script, module, .. }) => if script.is_none() && module.is_none() {
                    Some(text::own(" uses a uv target with neither script nor module"))
                } else {
                    None
                },
                _ => None,
            }
        },
    }
}

/// The names of ports.
pub open spec fn port_names(ports: Seq<PortSpecView>) -> Seq<Seq<char>> {
    Seq::new(ports.len(), |i: int| ports[i].name.unwrap())
}

/// What is wrong with the ports of a service, from port `k` on.
pub open spec fn port_error(ports: Seq<PortSpecView>, k: int) -> Option<Seq<char>>
    decreases ports.len() - k,
{
    if k < 0 || k >= ports.len() {
        None
    } else {
        let name = ports[k].name.unwrap();
        if port_names(ports).take(k).contains(name) {
            Some(" declares port '"@ + name + "' more than once"@)
        } else if ports[k].prefer is Some && ports[k].require is Some {
            Some(" port '"@ + name + "' cannot set both prefer and require"@)
        } else if ports[k].env is Some && reserved_env(ports[k].env.unwrap()) {
            Some(
                " port '"@ + name + "' names reserved environment variable '"@ + ports[k].env.unwrap()
                    + "'"@,
            )
        } else {
            port_error(ports, k + 1)
        }
    }
}

fn check_ports(s: &Service) -> (r: Option<String>)
    ensures
        text::opt_view(r) == port_error(s@.ports_of(), 0),
{
    let ports = s.ports();
    let ghost all = s@.ports_of();
    let mut names: Vec<String> = Vec::new();
    let mut k: usize = 0;
    assert(text::views(names@) =~= port_names(all).take(0));
    while k < ports.len()
        invariant
            text::views(ports@) == all,
            all == s@.ports_of(),
            k <= ports@.len(),
            text::views(names@) == port_names(all).take(k as int),
            port_error(all, 0) == port_error(all, k as int),
        decreases ports@.len() - k,
    {
        broadcast use text::views_push;

        assert(all[k as int] == ports@[k as int]@);
        let name = match &ports[k].name {
            Some(name) => name.clone(),
            None => s.id.clone(),
        };
        assert(name@ == all[k as int].name.unwrap());
        if text::among(&names, &name) {
            let mut e = text::own(" declares port '");
            e.append(&name);
            e.append("' more than once");
            return Some(e);
        }
        if ports[k].prefer.is_some() && ports[k].require.is_some() {
            let mut e = text::own(" port '");
            e.append(&name);
            e.append("' cannot set both prefer and require");
            return Some(e);
        }
        if let Some(variable) = &ports[k].env {
            if is_reserved_env(variable) {
                let mut e = text::own(" port '");
                e.append(&name);
                e.append("' names reserved environment variable '");
                e.append(variable);
                e.append("'");
                return Some(e);
            }
        }
        names.push(name);
        k += 1;
        assert(text::views(names@) =~= port_names(all).take(k as int));
    }
    None
}

/// The ids of services.
pub open spec fn service_ids(services: Seq<ServiceView>) -> Seq<Seq<char>> {
    Seq::new(services.len(), |i: int| services[i].id)
}

/// What is wrong with the services of a manifest, from service `k` on.
pub open spec fn service_error(services: Seq<ServiceView>, scope: Seq<char>, k: int) -> Option<Seq<char>>
    decreases services.len() - k,
{
    if k < 0 || k >= services.len() {
        None
    } else {
        let s = services[k];
        if service_ids(services).take(k).contains(s.id) {
            Some(scope + ": duplicate service id '"@ + s.id + "'"@)
        } else {
            match launch_error(s) {
                Some(what) => Some(service_complaint(scope, s.id, what)),
                None => match port_error(s.ports_of(), 0) {
                    Some(what) => Some(service_complaint(scope, s.id, what)),
                    None => service_error(services, scope, k + 1),
                },
            }
        }
    }
}

/// The first job, from `k` on, that has the id of a service.
pub open spec fn overlap(m: ManifestView, k: int) -> Option<Seq<char>>
    decreases m.jobs.len() - k,
{
    if k < 0 || k >= m.jobs.len() {
        None
    } else if service_ids(m.services).contains(m.jobs[k].0) {
        Some(m.jobs[k].0)
    } else {
        overlap(m, k + 1)
    }
}

/// The first environment key, from `k` on, that magictree owns.
pub open spec fn reserved_key(env: Seq<(Seq<char>, Seq<char>)>, k: int) -> Option<Seq<char>>
    decreases env.len() - k,
{
    if k < 0 || k >= env.len() {
        None
    } else if reserved_env(env[k].0) {
        Some(env[k].0)
    } else {
        reserved_key(env, k + 1)
    }
}

/// What is wrong with a manifest.
pub open spec fn manifest_error(m: ManifestView, scope: Seq<char>) -> Option<Seq<char>> {
    if m.version != MANIFEST_VERSION {
        Some(
            scope + ": unsupported manifest version "@ + text::decimal_of(m.version as nat)
                + " (expected 1)"@,
        )
    } else {
        match service_error(m.services, scope, 0) {
            Some(e) => Some(e),
            None => match overlap(m, 0) {
                Some(id) => Some(scope + ": '"@ + id + "' is declared as both a service and a job"@),
                None => match reserved_key(m.env, 0) {
                    Some(key) => Some(
                        scope + ": environment key '"@ + key + "' is reserved by magictree"@,
                    ),
                    None => None,
                },
            },
        }
    }
}

fn check_services(m: &Manifest, scope: &str) -> (r: Option<String>)
    ensures
        text::opt_view(r) == service_error(m@.services, scope@, 0),
{
    let ghost all = m@.services;
    let mut ids: Vec<String> = Vec::new();
    let mut k: usize = 0;
    assert(text::views(ids@) =~= service_ids(all).take(0));
    while k < m.services.len()
        invariant
            all == m@.services,
            k <= m.services@.len(),
            text::views(ids@) == service_ids(all).take(k as int),
            service_error(all, scope@, 0) == service_error(all, scope@, k as int),
        decreases m.services@.len() - k,
    {
        broadcast use text::views_push;

        let service = &m.services[k];
        assert(all[k as int] == service@);
        if text::among(&ids, &service.id) {
            let mut e = text::own(scope);
            e.append(": duplicate service id '");
            e.append(&service.id);
            e.append("'");
            return Some(e);
        }
        ids.push(service.id.clone());
        if let Some(what) = check_launch(service) {
            return Some(complain(scope, &service.id, &what));
        }
        if let Some(what) = check_ports(service) {
            return Some(complain(scope, &service.id, &what));
        }
        k += 1;
        assert(text::views(ids@) =~= service_ids(all).take(k as int));
    }
    None
}

/// The first job that has the id of a service.
fn service_job_overlap(m: &Manifest) -> (r: Option<String>)
    ensures
        text::opt_view(r) == overlap(m@, 0),
{
    let mut ids: Vec<String> = Vec::new();
    let mut i: usize = 0;
    while i < m.services.len()
        invariant
            i <= m.services@.len(),
            text::views(ids@) == service_ids(m@.services).take(i as int),
        decreases m.services@.len() - i,
    {
        broadcast use text::views_push;

        ids.push(m.services[i].id.clone());
        i += 1;
        assert(text::views(ids@) =~= service_ids(m@.services).take(i as int));
    }
    assert(service_ids(m@.services).take(i as int) =~= service_ids(m@.services));
    let mut k: usize = 0;
    while k < m.jobs.len()
        invariant
            text::views(ids@) == service_ids(m@.services),
            k <= m.jobs@.len(),
            overlap(m@, 0) == overlap(m@, k as int),
        decreases m.jobs@.len() - k,
    {
        if text::among(&ids, m.jobs.key_at(k)) {
            return Some(m.jobs.key_at(k).clone());
        }
        k += 1;
    }
    None
}

/// Checks one manifest.
pub fn validate_manifest(m: &Manifest, scope: &str) -> (r: Result<(), String>)
    ensures
        match r {
            Ok(_) => manifest_error(m@, scope@) is None,
            Err(e) => manifest_error(m@, scope@) == Some(e@),
        },
{
    if m.version != MANIFEST_VERSION {
        let mut e = text::own(scope);
        e.append(": unsupported manifest version ");
        e.append(&text::decimal(m.version as u64));
        e.append(" (expected 1)");
        return Err(e);
    }
    if let Some(e) = check_services(m, scope) {
        return Err(e);
    }
    if let Some(id) = service_job_overlap(m) {
        let mut e = text::own(scope);
        e.append(": '");
        e.append(&id);
        e.append("' is declared as both a service and a job");
        return Err(e);
    }
    let mut k: usize = 0;
    while k < m.env.len()
        invariant
            k <= m.env@.len(),
            m.version == MANIFEST_VERSION,
            service_error(m@.services, scope@, 0) is None,
            overlap(m@, 0) is None,
            reserved_key(m@.env, 0) == reserved_key(m@.env, k as int),
        decreases m.env@.len() - k,
    {
        let key = m.env.key_at(k);
        if is_reserved_env(key) {
            let mut e = text::own(scope);
            e.append(": environment key '");
            e.append(key);
            e.append("' is reserved by magictree");
            return Err(e);
        }
        k += 1;
    }
    Ok(())
}

/// The ids of apps.
pub open spec fn app_ids(apps: Seq<AppView>) -> Seq<Seq<char>> {
    Seq::new(apps.len(), |i: int| apps[i].id)
}

/// What is wrong with the apps, from app `k` on.
pub open spec fn app_error(apps: Seq<AppView>, k: int) -> Option<Seq<char>>
    decreases apps.len() - k,
{
    if k < 0 || k >= apps.len() {
        None
    } else if app_ids(apps).take(k).contains(apps[k].id) {
        Some("duplicate app id '"@ + apps[k].id + "'"@)
    } else {
        match manifest_error(apps[k].manifest, "app '"@ + apps[k].id + "'"@) {
            Some(e) => Some(e),
            None => app_error(apps, k + 1),
        }
    }
}

/// What is wrong with everything that was loaded.
pub open spec fn loaded_error(l: LoadedView) -> Option<Seq<char>> {
    if l.root_is_app {
        app_error(l.apps, 0)
    } else {
        match manifest_error(l.workspace, "workspace"@) {
            Some(e) => Some(e),
            None => app_error(l.apps, 0),
        }
    }
}

/// The first app with this id, from `k` on.
pub open spec fn app_at(apps: Seq<AppView>, id: Seq<char>, k: int) -> Option<AppView>
    decreases apps.len() - k,
{
    if k < 0 || k >= apps.len() {
        None
    } else if apps[k].id == id {
        Some(apps[k])
    } else {
        app_at(apps, id, k + 1)
    }
}

impl Loaded {
    /// Checks every manifest that was loaded.
    pub fn validate(&self) -> (r: Result<(), String>)
        ensures
            match r {
                Ok(_) => loaded_error(self@) is None,
                Err(e) => loaded_error(self@) == Some(e@),
            },
    {
        if !self.root_is_app {
            if let Err(e) = validate_manifest(&self.workspace, "workspace") {
                return Err(e);
            }
        }
        let ghost all = self@.apps;
        let mut seen: Vec<String> = Vec::new();
        let mut k: usize = 0;
        assert(text::views(seen@) =~= app_ids(all).take(0));
        while k < self.apps.len()
            invariant
                all == self@.apps,
                loaded_error(self@) == app_error(all, 0),
                k <= self.apps@.len(),
                text::views(seen@) == app_ids(all).take(k as int),
                app_error(all, 0) == app_error(all, k as int),
            decreases self.apps@.len() - k,
        {
            broadcast use text::views_push;

            let app = &self.apps[k];
            assert(all[k as int] == app@);
            if text::among(&seen, &app.id) {
                let mut e = text::own("duplicate app id '");
                e.append(&app.id);
                e.append("'");
                return Err(e);
            }
            seen.push(app.id.clone());
            let mut scope = text::own("app '");
            scope.append(&app.id);
            scope.append("'");
            if let Err(e) = validate_manifest(&app.manifest, &scope) {
                return Err(e);
            }
            k += 1;
            assert(text::views(seen@) =~= app_ids(all).take(k as int));
        }
        Ok(())
    }

    /// The app with this id.
    pub fn app(&self, id: &str) -> (r: Option<&App>)
        ensures
            match r {
                Some(app) => app_at(self@.apps, id@, 0) == Some(app@),
                None => app_at(self@.apps, id@, 0) is None,
            },
    {
        let mut k: usize = 0;
        while k < self.apps.len()
            invariant
                k <= self.apps@.len(),
                app_at(self@.apps, id@, 0) == app_at(self@.apps, id@, k as int),
            decreases self.apps@.len() - k,
        {
            if text::same(&self.apps[k].id, id) {
                return Some(&self.apps[k]);
            }
            k += 1;
        }
        None
    }
}

// ---------------------------------------------------------------------------
// Loading
// ---------------------------------------------------------------------------

/// What reading a manifest file gave.
#[derive(Debug)]
pub enum Reading {
    Parsed(Manifest),
    Failed(String),
}

/// The contents of a [`Reading`].
#[verifier::ext_equal]
pub enum ReadingView {
    Parsed(ManifestView),
    Failed(Seq<char>),
}

impl View for Reading {
    type V = ReadingView;

    open spec fn view(&self) -> ReadingView {
        match self {
            Reading::Parsed(f0) => ReadingView::Parsed(f0@),
            Reading::Failed(f0) => ReadingView::Failed(f0@),
        }
    }
}

impl Clone for Reading {
    fn clone(&self) -> (r: Self)
        ensures
            r@ == self@,
    {
        match self {
            Reading::Parsed(f0) => Reading::Parsed(f0.clone()),
            Reading::Failed(f0) => Reading::Failed(f0.clone()),
        }
    }
}

/// A directory that holds a manifest file, and what reading it gave.
#[derive(Debug)]
pub struct Found {
    pub dir: String,
    pub reading: Reading,
}

/// The contents of a [`Found`].
#[verifier::ext_equal]
pub struct FoundView {
    pub dir: Seq<char>,
    pub reading: ReadingView,
}

impl View for Found {
    type V = FoundView;

    open spec fn view(&self) -> FoundView {
        FoundView {
            dir: self.dir@,
            reading: self.reading@,
        }
    }
}

impl Clone for Found {
    fn clone(&self) -> (r: Self)
        ensures
            r@ == self@,
    {
        Found {
            dir: self.dir.clone(),
            reading: self.reading.clone(),
        }
    }
}

/// What reading the manifest of `dir` gave, from entry `k` on.
pub open spec fn reading_at(found: Seq<FoundView>, dir: Seq<char>, k: int) -> Option<ReadingView>
    decreases found.len() - k,
{
    if k < 0 || k >= found.len() {
        None
    } else if found[k].dir == dir {
        Some(found[k].reading)
    } else {
        reading_at(found, dir, k + 1)
    }
}

/// The manifest file of a directory.
pub open spec fn manifest_path(dir: Seq<char>) -> Seq<char> {
    paths::join_of(dir, MANIFEST_FILE@)
}

/// The nearest directory with a manifest: `dir` itself or one above it.
pub open spec fn find_up_of(found: Seq<FoundView>, dir: Seq<char>) -> Option<Seq<char>>
    decreases dir.len(),
{
    if reading_at(found, dir, 0) is Some {
        Some(dir)
    } else {
        match paths::parent_of(dir) {
            Some(parent) => if parent.len() < dir.len() {
                find_up_of(found, parent)
            } else {
                None
            },
            None => None,
        }
    }
}

/// The id of the app whose manifest lies in `dir`: the one it declares, or the directory's name.
pub open spec fn app_id_of(dir: Seq<char>, m: ManifestView) -> Seq<char> {
    match m.app {
        Some(AppMetaView { id: Some(id) }) => id,
        _ => paths::name_or(dir, "app"@),
    }
}

/// The apps that a workspace lists from entry `k` on, after those in `apps`.
pub open spec fn load_apps_of(
    found: Seq<FoundView>,
    dir: Seq<char>,
    rels: Seq<Seq<char>>,
    k: int,
    apps: Seq<AppView>,
) -> Result<Seq<AppView>, Seq<char>>
    decreases rels.len() - k,
{
    if k < 0 || k >= rels.len() {
        Ok(apps)
    } else {
        let app_dir = paths::join_of(dir, rels[k]);
        match reading_at(found, app_dir, 0) {
            None => Err(
                "[workspace].apps lists '"@ + rels[k] + "' but "@ + manifest_path(app_dir)
                    + " does not exist"@,
            ),
            Some(ReadingView::Failed(e)) => Err(e),
            Some(ReadingView::Parsed(m)) => {
                let id = app_id_of(app_dir, m);
                if app_ids(apps).contains(id) {
                    Err("duplicate app id '"@ + id + "' (from "@ + manifest_path(app_dir) + ")"@)
                } else {
                    load_apps_of(
                        found,
                        dir,
                        rels,
                        k + 1,
                        apps.push(AppView { id, dir: app_dir, manifest: m }),
                    )
                }
            },
        }
    }
}

/// The deepest of the first `k` apps that `cwd` lies in, the last of several equally deep ones.
pub open spec fn current_of(apps: Seq<AppView>, cwd: Seq<char>, k: int) -> Option<int>
    decreases k,
{
    if k <= 0 {
        None
    } else {
        let before = current_of(apps, cwd, k - 1);
        if !paths::below(cwd, apps[k - 1].dir) {
            before
        } else {
            match before {
                Some(i) => if paths::depth_of(apps[i].dir) > paths::depth_of(apps[k - 1].dir) {
                    before
                } else {
                    Some(k - 1)
                },
                None => Some(k - 1),
            }
        }
    }
}

/// The manifests that apply in `cwd`. The nearest manifest decides: one that lists apps is the
/// workspace; any other is an app of the workspace above it, or stands alone.
pub open spec fn load_of(cwd: Seq<char>, found: Seq<FoundView>) -> Result<LoadedView, Seq<char>> {
    match find_up_of(found, cwd) {
        None => Err(
            "no magictree.toml found in "@ + cwd + " or any parent directory"@,
        ),
        Some(dir) => match reading_at(found, dir, 0).unwrap() {
            ReadingView::Failed(e) => Err(e),
            ReadingView::Parsed(nearest) => match nearest.workspace {
                Some(workspace) => match load_apps_of(found, dir, workspace.apps, 0, Seq::empty()) {
                    Err(e) => Err(e),
                    Ok(apps) => Ok(
                        LoadedView {
                            workspace_dir: dir,
                            workspace: nearest,
                            apps,
                            current_app: match current_of(apps, cwd, apps.len() as int) {
                                Some(i) => Some(apps[i].id),
                                None => None,
                            },
                            root_is_app: false,
                        },
                    ),
                },
                None => match enclosing(dir, found) {
                    Some((_, ReadingView::Failed(e))) => Err(e),
                    Some((above, ReadingView::Parsed(m))) => match m.workspace {
                        Some(workspace) => load_member(dir, nearest, above, m, workspace, found),
                        None => Ok(alone(dir, nearest)),
                    },
                    None => Ok(alone(dir, nearest)),
                },
            },
        },
    }
}

/// The nearest manifest above `dir`.
pub open spec fn enclosing(dir: Seq<char>, found: Seq<FoundView>) -> Option<(Seq<char>, ReadingView)> {
    match paths::parent_of(dir) {
        Some(parent) => match find_up_of(found, parent) {
            Some(above) => Some((above, reading_at(found, above, 0).unwrap())),
            None => None,
        },
        None => None,
    }
}

/// A repository with one app and no workspace layer.
pub open spec fn alone(dir: Seq<char>, m: ManifestView) -> LoadedView {
    let id = app_id_of(dir, m);
    LoadedView {
        workspace_dir: dir,
        workspace: m,
        apps: seq![AppView { id, dir, manifest: m }],
        current_app: Some(id),
        root_is_app: true,
    }
}

/// The app in `dir` as a member of the workspace in `above`.
pub open spec fn load_member(
    dir: Seq<char>,
    nearest: ManifestView,
    above: Seq<char>,
    m: ManifestView,
    workspace: WorkspaceView,
    found: Seq<FoundView>,
) -> Result<LoadedView, Seq<char>> {
    match load_apps_of(found, above, workspace.apps, 0, Seq::empty()) {
        Err(e) => Err(e),
        Ok(apps) => {
            let id = app_id_of(dir, nearest);
            if app_ids(apps).contains(id) {
                Ok(
                    LoadedView {
                        workspace_dir: above,
                        workspace: m,
                        apps,
                        current_app: Some(id),
                        root_is_app: false,
                    },
                )
            } else {
                Err(
                    "app '"@ + id + "' at "@ + dir + " is not listed in [workspace].apps of "@
                        + manifest_path(above),
                )
            }
        },
    }
}

fn read_at<'a>(found: &'a Vec<Found>, dir: &str) -> (r: Option<&'a Reading>)
    ensures
        match r {
            Some(reading) => reading_at(text::views(found@), dir@, 0) == Some(reading@),
            None => reading_at(text::views(found@), dir@, 0) is None,
        },
{
    let mut k: usize = 0;
    while k < found.len()
        invariant
            k <= found@.len(),
            reading_at(text::views(found@), dir@, 0) == reading_at(
                text::views(found@),
                dir@,
                k as int,
            ),
        decreases found@.len() - k,
    {
        if text::same(&found[k].dir, dir) {
            return Some(&found[k].reading);
        }
        k += 1;
    }
    None
}

fn find_up(found: &Vec<Found>, dir: &str) -> (r: Option<String>)
    ensures
        text::opt_view(r) == find_up_of(text::views(found@), dir@),
    decreases dir@.len(),
{
    if read_at(found, dir).is_some() {
        return Some(text::own(dir));
    }
    match paths::parent(dir) {
        Some(above) => find_up(found, &above),
        None => None,
    }
}

fn app_id(dir: &str, m: &Manifest) -> (r: String)
    ensures
        r@ == app_id_of(dir@, m@),
{
    match &m.app {
        Some(AppMeta { id: Some(id) }) => id.clone(),
        _ => paths::file_name_or(dir, "app"),
    }
}

fn manifest_file(dir: &str) -> (r: String)
    ensures
        r@ == manifest_path(dir@),
{
    paths::join(dir, MANIFEST_FILE)
}

fn has_app(apps: &Vec<App>, id: &str) -> (r: bool)
    ensures
        r == app_ids(text::views(apps@)).contains(id@),
{
    let ghost ids = app_ids(text::views(apps@));
    let mut k: usize = 0;
    while k < apps.len()
        invariant
            ids == app_ids(text::views(apps@)),
            k <= apps@.len(),
            forall|j: int| 0 <= j < k ==> ids[j] != id@,
        decreases apps@.len() - k,
    {
        if text::same(&apps[k].id, id) {
            assert(ids[k as int] == id@);
            return true;
        }
        k += 1;
    }
    false
}

fn load_apps(found: &Vec<Found>, dir: &str, rels: &Vec<String>) -> (r: Result<Vec<App>, String>)
    ensures
        match r {
            Ok(apps) => load_apps_of(
                text::views(found@),
                dir@,
                text::views(rels@),
                0,
                Seq::empty(),
            ) == Ok::<Seq<AppView>, Seq<char>>(text::views(apps@)),
            Err(e) => load_apps_of(
                text::views(found@),
                dir@,
                text::views(rels@),
                0,
                Seq::empty(),
            ) == Err::<Seq<AppView>, Seq<char>>(e@),
        },
{
    let ghost all = text::views(found@);
    let ghost list = text::views(rels@);
    let mut apps: Vec<App> = Vec::new();
    let mut k: usize = 0;
    assert(text::views(apps@) =~= Seq::<AppView>::empty());
    while k < rels.len()
        invariant
            all == text::views(found@),
            list == text::views(rels@),
            k <= rels@.len(),
            load_apps_of(all, dir@, list, 0, Seq::empty()) == load_apps_of(
                all,
                dir@,
                list,
                k as int,
                text::views(apps@),
            ),
        decreases rels@.len() - k,
    {
        broadcast use text::views_push;

        let rel = &rels[k];
        assert(list[k as int] == rel@);
        let app_dir = paths::join(dir, rel);
        match read_at(found, &app_dir) {
            None => {
                let mut e = text::own("[workspace].apps lists '");
                e.append(rel);
                e.append("' but ");
                e.append(&manifest_file(&app_dir));
                e.append(" does not exist");
                return Err(e);
            },
            Some(Reading::Failed(e)) => {
                return Err(e.clone());
            },
            Some(Reading::Parsed(m)) => {
                let id = app_id(&app_dir, m);
                if has_app(&apps, &id) {
                    let mut e = text::own("duplicate app id '");
                    e.append(&id);
                    e.append("' (from ");
                    e.append(&manifest_file(&app_dir));
                    e.append(")");
                    return Err(e);
                }
                apps.push(App { id, dir: app_dir, manifest: m.clone() });
            },
        }
        k += 1;
    }
    Ok(apps)
}

fn current_app(apps: &Vec<App>, cwd: &str) -> (r: Option<usize>)
    ensures
        match r {
            Some(i) => current_of(text::views(apps@), cwd@, apps@.len() as int) == Some(i as int)
                && i < apps@.len(),
            None => current_of(text::views(apps@), cwd@, apps@.len() as int) is None,
        },
{
    let ghost all = text::views(apps@);
    let mut best: Option<usize> = None;
    let mut k: usize = 0;
    while k < apps.len()
        invariant
            all == text::views(apps@),
            k <= apps@.len(),
            match best {
                Some(i) => current_of(all, cwd@, k as int) == Some(i as int) && i < k,
                None => current_of(all, cwd@, k as int) is None,
            },
        decreases apps@.len() - k,
    {
        if paths::is_below(cwd, &apps[k].dir) {
            best = match best {
                Some(i) => if paths::depth(&apps[i].dir) > paths::depth(&apps[k].dir) {
                    Some(i)
                } else {
                    Some(k)
                },
                None => Some(k),
            };
        }
        k += 1;
    }
    best
}

fn load_alone(dir: String, m: &Manifest) -> (r: Loaded)
    ensures
        r@ == alone(dir@, m@),
{
    broadcast use text::views_push;

    let id = app_id(&dir, m);
    let mut apps: Vec<App> = Vec::new();
    apps.push(App { id: id.clone(), dir: dir.clone(), manifest: m.clone() });
    assert(text::views(apps@) =~= seq![AppView { id: id@, dir: dir@, manifest: m@ }]);
    Loaded {
        workspace_dir: dir,
        workspace: m.clone(),
        apps,
        current_app: Some(id),
        root_is_app: true,
    }
}

proof fn find_up_has_reading(found: Seq<FoundView>, dir: Seq<char>)
    ensures
        find_up_of(found, dir) matches Some(d) ==> reading_at(found, d, 0) is Some,
    decreases dir.len(),
{
    if reading_at(found, dir, 0) is None {
        if let Some(parent) = paths::parent_of(dir) {
            if parent.len() < dir.len() {
                find_up_has_reading(found, parent);
            }
        }
    }
}

impl Loaded {
    /// The manifests that apply in `cwd`, an absolute path, given the manifest files that were
    /// found: those of `cwd` and of the directories above it, and those of the apps they list.
    pub fn load(cwd: &str, found: &Vec<Found>) -> (r: Result<Loaded, String>)
        ensures
            match r {
                Ok(loaded) => load_of(cwd@, text::views(found@)) == Ok::<LoadedView, Seq<char>>(
                    loaded@,
                ),
                Err(e) => load_of(cwd@, text::views(found@)) == Err::<LoadedView, Seq<char>>(e@),
            },
    {
        let ghost all = text::views(found@);
        let dir = match find_up(found, cwd) {
            Some(dir) => dir,
            None => {
                let mut e = text::own("no magictree.toml found in ");
                e.append(cwd);
                e.append(" or any parent directory");
                return Err(e);
            },
        };
        proof {
            find_up_has_reading(all, cwd@);
        }
        let nearest = match read_at(found, &dir) {
            Some(Reading::Parsed(m)) => m,
            Some(Reading::Failed(e)) => {
                return Err(e.clone());
            },
            None => {
                return Err(String::new());
            },
        };
        if let Some(workspace) = &nearest.workspace {
            let apps = match load_apps(found, &dir, &workspace.apps) {
                Ok(apps) => apps,
                Err(e) => {
                    return Err(e);
                },
            };
            let current_app = match current_app(&apps, cwd) {
                Some(i) => Some(apps[i].id.clone()),
                None => None,
            };
            return Ok(
                Loaded {
                    workspace_dir: dir,
                    workspace: nearest.clone(),
                    apps,
                    current_app,
                    root_is_app: false,
                },
            );
        }
        if let Some(parent) = paths::parent(&dir) {
            proof {
                find_up_has_reading(all, parent@);
            }
            if let Some(above) = find_up(found, &parent) {
                match read_at(found, &above) {
                    Some(Reading::Failed(e)) => {
                        return Err(e.clone());
                    },
                    Some(Reading::Parsed(m)) => {
                        if let Some(workspace) = &m.workspace {
                            let apps = match load_apps(found, &above, &workspace.apps) {
                                Ok(apps) => apps,
                                Err(e) => {
                                    return Err(e);
                                },
                            };
                            let id = app_id(&dir, nearest);
                            if !has_app(&apps, &id) {
                                let mut e = text::own("app '");
                                e.append(&id);
                                e.append("' at ");
                                e.append(&dir);
                                e.append(" is not listed in [workspace].apps of ");
                                e.append(&manifest_file(&above));
                                return Err(e);
                            }
                            return Ok(
                                Loaded {
                                    workspace_dir: above,
                                    workspace: m.clone(),
                                    apps,
                                    current_app: Some(id),
                                    root_is_app: false,
                                },
                            );
                        }
                    },
                    None => {},
                }
            }
        }
        Ok(load_alone(dir, nearest))
    }
}

// ---------------------------------------------------------------------------
// What loading owes
// ---------------------------------------------------------------------------

/// Whether a node goes by a qualified name: `app:id` for a node of an app, and its bare id
/// otherwise.
pub open spec fn goes_by(node: NodeView, name: Seq<char>) -> bool {
    match node.app {
        Some(app) => name == app + ":"@ + node.id,
        None => name == node.id,
    }
}

/// Whether some node goes by a name.
pub open spec fn is_known(nodes: Seq<NodeView>, name: Seq<char>) -> bool {
    exists|i: int| 0 <= i < nodes.len() && goes_by(#[trigger] nodes[i], name)
}

/// Whether some node of the repository as a whole has an id.
pub open spec fn is_known_to_all(nodes: Seq<NodeView>, id: Seq<char>) -> bool {
    exists|i: int| 0 <= i < nodes.len() && (#[trigger] nodes[i]).app is None && nodes[i].id == id
}

/// Whether a need of `node` means the node at `i`. A qualified need means a node that goes by it,
/// wherever it is. A bare one means the node of the same app; where the app has none, the node of the
/// repository as a whole; and where there is none either, the only node of that id.
pub open spec fn means(nodes: Seq<NodeView>, node: NodeView, need: Seq<char>, i: int) -> bool {
    0 <= i < nodes.len() && if need.contains(':') {
        goes_by(nodes[i], need)
    } else {
        let own = match node.app {
            Some(app) => Some(app + ":"@ + need),
            None => None,
        };
        if own is Some && is_known(nodes, own.unwrap()) {
            goes_by(nodes[i], own.unwrap())
        } else if is_known_to_all(nodes, need) {
            nodes[i].app is None && nodes[i].id == need
        } else {
            nodes[i].id == need && forall|j: int|
                0 <= j < nodes.len() && (#[trigger] nodes[j]).id == need ==> j == i
        }
    }
}

/// What a node needs.
pub open spec fn needs_in(node: NodeView) -> Seq<Seq<char>> {
    match node.kind {
        NodeKindView::Service(service) => service.needs,
        NodeKindView::Job(job) => job.needs,
    }
}

proof fn last_qual_is_known(nodes: Seq<NodeView>, name: Seq<char>, k: int)
    requires
        0 <= k <= nodes.len(),
    ensures
        match last_qual(nodes, name, k) {
            Some(i) => 0 <= i < k && goes_by(nodes[i], name),
            None => forall|i: int| 0 <= i < k ==> !goes_by(#[trigger] nodes[i], name),
        },
    decreases k,
{
    if k > 0 {
        last_qual_is_known(nodes, name, k - 1);
        assert(goes_by(nodes[k - 1], name) <==> nodes[k - 1].qual_of() == name);
    }
}

proof fn first_shared_is_known(nodes: Seq<NodeView>, id: Seq<char>, k: int)
    requires
        0 <= k <= nodes.len(),
    ensures
        match first_shared(nodes, id, k) {
            Some(i) => k <= i < nodes.len() && nodes[i].app is None && nodes[i].id == id,
            None => forall|i: int|
                k <= i < nodes.len() ==> (#[trigger] nodes[i]).app is Some || nodes[i].id != id,
        },
    decreases nodes.len() - k,
{
    if k < nodes.len() {
        first_shared_is_known(nodes, id, k + 1);
    }
}

proof fn ids_are_counted(nodes: Seq<NodeView>, id: Seq<char>, k: int)
    requires
        0 <= k <= nodes.len(),
    ensures
        count_id(nodes, id, k) == 0 <==> forall|i: int|
            0 <= i < k ==> (#[trigger] nodes[i]).id != id,
        count_id(nodes, id, k) == 1 ==> forall|i: int, j: int|
            0 <= i < k && 0 <= j < k && (#[trigger] nodes[i]).id == id && (#[trigger] nodes[j]).id
                == id ==> i == j,
        count_id(nodes, id, k) > 1 ==> exists|i: int, j: int|
            0 <= i < j < k && (#[trigger] nodes[i]).id == id && (#[trigger] nodes[j]).id == id,
    decreases k,
{
    if k > 0 {
        ids_are_counted(nodes, id, k - 1);
        if nodes[k - 1].id == id && count_id(nodes, id, k - 1) == 1 {
            let i = choose|i: int| 0 <= i < k - 1 && (#[trigger] nodes[i]).id == id;
            assert(nodes[i].id == id && nodes[k - 1].id == id);
        }
    }
}

/// A need resolves exactly where it means a node, and to a node that it means: a qualified need to
/// the node that goes by it in the whole stack, a bare one to its own app first, then to the
/// repository as a whole, then to the only node of that id. It is refused only where it means none.
pub proof fn needs_resolve_to_what_they_mean(nodes: Seq<NodeView>, node: NodeView, need: Seq<char>)
    ensures
        match resolve(nodes, node, need) {
            Ok(i) => means(nodes, node, need, i),
            Err(_) => forall|i: int| !#[trigger] means(nodes, node, need, i),
        },
        is_known(nodes, need) && need.contains(':') ==> (resolve(nodes, node, need) matches Ok(i)
            && goes_by(nodes[i], need)),
{
    let n = nodes.len() as int;
    last_qual_is_known(nodes, need, n);
    if let Some(app) = node.app {
        last_qual_is_known(nodes, app + ":"@ + need, n);
    }
    first_shared_is_known(nodes, need, 0);
    ids_are_counted(nodes, need, n);
    first_id_found(nodes, need, n);
    if let Err(_) = resolve(nodes, node, need) {
        assert forall|i: int| !#[trigger] means(nodes, node, need, i) by {
            if !need.contains(':') && 0 <= i < nodes.len() && nodes[i].id == need {
                let (a, b) = choose|a: int, b: int|
                    0 <= a < b < n && (#[trigger] nodes[a]).id == need && (
                    #[trigger] nodes[b]).id == need;
                assert(nodes[a].id == need && nodes[b].id == need);
            }
        }
    }
}

proof fn need_errors_are_unmet(nodes: Seq<NodeView>, node: NodeView, k: int)
    requires
        0 <= k <= node.needs_of().len(),
    ensures
        need_error(nodes, node, k) is None <==> forall|j: int|
            k <= j < node.needs_of().len() ==> resolve(
                nodes,
                node,
                #[trigger] node.needs_of()[j],
            ) is Ok,
    decreases node.needs_of().len() - k,
{
    if k < node.needs_of().len() {
        need_errors_are_unmet(nodes, node, k + 1);
        assert(resolve(nodes, node, node.needs_of()[k]) is Ok || resolve(
            nodes,
            node,
            node.needs_of()[k],
        ) is Err);
    }
}

proof fn dependency_errors_are_unmet(nodes: Seq<NodeView>, k: int)
    requires
        0 <= k <= nodes.len(),
    ensures
        dependency_error(nodes, k) is None <==> forall|i: int|
            k <= i < nodes.len() ==> need_error(nodes, #[trigger] nodes[i], 0) is None,
    decreases nodes.len() - k,
{
    if k < nodes.len() {
        dependency_errors_are_unmet(nodes, k + 1);
    }
}

/// Whether a need of `node` means some node.
pub open spec fn is_met(nodes: Seq<NodeView>, node: NodeView, need: Seq<char>) -> bool {
    exists|i: int| #[trigger] means(nodes, node, need, i)
}

proof fn met_needs_resolve(nodes: Seq<NodeView>, node: NodeView, need: Seq<char>)
    ensures
        resolve(nodes, node, need) is Ok <==> is_met(nodes, node, need),
{
    needs_resolve_to_what_they_mean(nodes, node, need);
    if let Ok(m) = resolve(nodes, node, need) {
        assert(means(nodes, node, need, m));
    }
}

proof fn met_nodes_have_no_error(nodes: Seq<NodeView>, node: NodeView)
    ensures
        need_error(nodes, node, 0) is None <==> forall|j: int|
            0 <= j < needs_in(node).len() ==> is_met(nodes, node, #[trigger] needs_in(node)[j]),
{
    need_errors_are_unmet(nodes, node, 0);
    assert(node.needs_of() == needs_in(node));
    assert forall|j: int| 0 <= j < needs_in(node).len() implies (resolve(
        nodes,
        node,
        #[trigger] needs_in(node)[j],
    ) is Ok <==> is_met(nodes, node, needs_in(node)[j])) by {
        met_needs_resolve(nodes, node, needs_in(node)[j]);
    }
}

/// A stack is refused for its dependencies exactly where some need of some node means nothing.
pub proof fn stacks_are_refused_for_unmet_needs_only(nodes: Seq<NodeView>)
    ensures
        dependency_error(nodes, 0) is None <==> forall|i: int, j: int|
            0 <= i < nodes.len() && 0 <= j < needs_in(nodes[i]).len() ==> is_met(
                nodes,
                nodes[i],
                #[trigger] needs_in(nodes[i])[j],
            ),
{
    dependency_errors_are_unmet(nodes, 0);
    assert forall|i: int| 0 <= i < nodes.len() implies (need_error(nodes, #[trigger] nodes[i], 0)
        is None <==> forall|j: int|
        0 <= j < needs_in(nodes[i]).len() ==> is_met(
            nodes,
            nodes[i],
            #[trigger] needs_in(nodes[i])[j],
        )) by {
        met_nodes_have_no_error(nodes, nodes[i]);
    }
    if dependency_error(nodes, 0) is None {
        assert forall|i: int, j: int|
            0 <= i < nodes.len() && 0 <= j < needs_in(nodes[i]).len() implies is_met(
            nodes,
            nodes[i],
            #[trigger] needs_in(nodes[i])[j],
        ) by {
            assert(need_error(nodes, nodes[i], 0) is None);
        }
    } else {
        let i = choose|i: int|
            0 <= i < nodes.len() && !(need_error(nodes, #[trigger] nodes[i], 0) is None);
        assert(need_error(nodes, nodes[i], 0) is Some);
    }
}

/// The edges of a loaded stack are its needs: each node has one edge for each of its needs, in their
/// order, to a node that the need means.
pub proof fn edges_are_the_needs(nodes: Seq<NodeView>, edges: Seq<Seq<usize>>, i: int, k: int)
    requires
        resolved(nodes, edges),
        0 <= i < nodes.len(),
    ensures
        edges.len() == nodes.len(),
        edges[i].len() == needs_in(nodes[i]).len(),
        0 <= k < edges[i].len() ==> means(nodes, nodes[i], needs_in(nodes[i])[k], edges[i][k] as int),
{
    assert(needs_resolved(nodes, nodes[i], edges[i]));
    assert(nodes[i].needs_of() == needs_in(nodes[i]));
    if 0 <= k < edges[i].len() {
        assert(edges[i][k] < nodes.len());
        needs_resolve_to_what_they_mean(nodes, nodes[i], needs_in(nodes[i])[k]);
    }
}

/// Whether a node stands for a service or a job of a manifest.
pub open spec fn is_declared(node: NodeView, app: Option<Seq<char>>, dir: Seq<char>, m: ManifestView) -> bool {
    &&& node.app == app
    &&& node.dir == dir
    &&& node.manifest_dir == dir
    &&& match node.kind {
        NodeKindView::Service(service) => node.id == service.id && m.services.contains(service),
        NodeKindView::Job(job) => m.jobs.contains((node.id, job)),
    }
}

/// The name that the nodes of an app carry: none where the repository is one app.
pub open spec fn tag_of(l: LoadedView, app: AppView) -> Option<Seq<char>> {
    if l.root_is_app {
        None
    } else {
        Some(app.id)
    }
}

proof fn one_manifests_nodes(app: Option<Seq<char>>, dir: Seq<char>, m: ManifestView)
    ensures
        ({
            let own = manifest_nodes(app, dir, m);
            &&& forall|k: int| 0 <= k < own.len() ==> is_declared(#[trigger] own[k], app, dir, m)
            &&& forall|i: int|
                0 <= i < m.services.len() ==> own.contains(
                    NodeView {
                        app,
                        manifest_dir: dir,
                        dir,
                        id: m.services[i].id,
                        kind: NodeKindView::Service(#[trigger] m.services[i]),
                    },
                )
            &&& forall|i: int|
                0 <= i < m.jobs.len() ==> own.contains(
                    NodeView {
                        app,
                        manifest_dir: dir,
                        dir,
                        id: (#[trigger] m.jobs[i]).0,
                        kind: NodeKindView::Job(m.jobs[i].1),
                    },
                )
        }),
{
    let own = manifest_nodes(app, dir, m);
    assert forall|k: int| 0 <= k < own.len() implies is_declared(#[trigger] own[k], app, dir, m) by {
        if k < m.services.len() {
            assert(own[k] == service_node(app, dir, m.services[k]));
            assert(m.services.contains(m.services[k]));
        } else {
            let j = k - m.services.len();
            assert(own[k] == job_node(app, dir, m.jobs[j]));
            assert(m.jobs.contains(m.jobs[j]));
        }
    }
    assert forall|i: int| 0 <= i < m.services.len() implies own.contains(
        NodeView {
            app,
            manifest_dir: dir,
            dir,
            id: m.services[i].id,
            kind: NodeKindView::Service(#[trigger] m.services[i]),
        },
    ) by {
        assert(own[i] == service_node(app, dir, m.services[i]));
    }
    assert forall|i: int| 0 <= i < m.jobs.len() implies own.contains(
        NodeView {
            app,
            manifest_dir: dir,
            dir,
            id: (#[trigger] m.jobs[i]).0,
            kind: NodeKindView::Job(m.jobs[i].1),
        },
    ) by {
        assert(own[m.services.len() + i] == job_node(app, dir, m.jobs[i]));
    }
}

proof fn all_apps_nodes(l: LoadedView, apps: Seq<AppView>)
    ensures
        ({
            let all = app_nodes(l, apps);
            &&& forall|k: int|
                0 <= k < all.len() ==> exists|a: int|
                    0 <= a < apps.len() && is_declared(
                        #[trigger] all[k],
                        tag_of(l, apps[a]),
                        (#[trigger] apps[a]).dir,
                        apps[a].manifest,
                    )
            &&& forall|a: int, k: int|
                0 <= a < apps.len() && 0 <= k < manifest_nodes(
                    tag_of(l, apps[a]),
                    apps[a].dir,
                    apps[a].manifest,
                ).len() ==> all.contains(
                    #[trigger] manifest_nodes(
                        tag_of(l, apps[a]),
                        apps[a].dir,
                        apps[a].manifest,
                    )[k],
                )
        }),
    decreases apps.len(),
{
    if apps.len() > 0 {
        let before = apps.drop_last();
        let last = apps.last();
        let head = app_nodes(l, before);
        let own = manifest_nodes(tag_of(l, last), last.dir, last.manifest);
        let all = app_nodes(l, apps);
        all_apps_nodes(l, before);
        one_manifests_nodes(tag_of(l, last), last.dir, last.manifest);
        assert(all == head + own);
        assert forall|k: int| 0 <= k < all.len() implies exists|a: int|
            0 <= a < apps.len() && is_declared(
                #[trigger] all[k],
                tag_of(l, apps[a]),
                (#[trigger] apps[a]).dir,
                apps[a].manifest,
            ) by {
            if k < head.len() {
                assert(all[k] == head[k]);
                let a = choose|a: int|
                    0 <= a < before.len() && is_declared(
                        head[k],
                        tag_of(l, before[a]),
                        (#[trigger] before[a]).dir,
                        before[a].manifest,
                    );
                assert(apps[a] == before[a]);
            } else {
                assert(all[k] == own[k - head.len()]);
                assert(apps[apps.len() - 1] == last);
            }
        }
        assert forall|a: int, k: int|
            0 <= a < apps.len() && 0 <= k < manifest_nodes(
                tag_of(l, apps[a]),
                apps[a].dir,
                apps[a].manifest,
            ).len() implies all.contains(
            #[trigger] manifest_nodes(tag_of(l, apps[a]), apps[a].dir, apps[a].manifest)[k],
        ) by {
            if a < before.len() {
                assert(apps[a] == before[a]);
                let x = manifest_nodes(tag_of(l, before[a]), before[a].dir, before[a].manifest)[k];
                assert(head.contains(x));
                let m = choose|m: int| 0 <= m < head.len() && head[m] == x;
                assert(all[m] == x);
            } else {
                assert(all[head.len() + k] == own[k]);
            }
        }
    }
}

/// A stack holds every service and every job of every manifest that was loaded, and nothing else.
/// Those of an app carry its name, unless the repository is one app; those of the workspace carry
/// none, come before those of the apps, and are left out where the repository is one app. Each runs
/// in the directory of the manifest that declares it.
pub proof fn stacks_hold_what_is_declared(l: LoadedView)
    ensures
        ({
            let all = nodes_of(l);
            &&& forall|k: int|
                0 <= k < all.len() ==> (!l.root_is_app && is_declared(
                    #[trigger] all[k],
                    None,
                    l.workspace_dir,
                    l.workspace,
                )) || exists|a: int|
                    0 <= a < l.apps.len() && is_declared(
                        all[k],
                        tag_of(l, l.apps[a]),
                        (#[trigger] l.apps[a]).dir,
                        l.apps[a].manifest,
                    )
            &&& forall|a: int, i: int|
                0 <= a < l.apps.len() && 0 <= i < l.apps[a].manifest.services.len() ==> all.contains(
                    NodeView {
                        app: tag_of(l, l.apps[a]),
                        manifest_dir: l.apps[a].dir,
                        dir: l.apps[a].dir,
                        id: l.apps[a].manifest.services[i].id,
                        kind: NodeKindView::Service(#[trigger] l.apps[a].manifest.services[i]),
                    },
                )
            &&& forall|a: int, i: int|
                0 <= a < l.apps.len() && 0 <= i < l.apps[a].manifest.jobs.len() ==> all.contains(
                    NodeView {
                        app: tag_of(l, l.apps[a]),
                        manifest_dir: l.apps[a].dir,
                        dir: l.apps[a].dir,
                        id: (#[trigger] l.apps[a].manifest.jobs[i]).0,
                        kind: NodeKindView::Job(l.apps[a].manifest.jobs[i].1),
                    },
                )
            &&& !l.root_is_app ==> forall|i: int|
                0 <= i < l.workspace.services.len() ==> all.contains(
                    NodeView {
                        app: None,
                        manifest_dir: l.workspace_dir,
                        dir: l.workspace_dir,
                        id: l.workspace.services[i].id,
                        kind: NodeKindView::Service(#[trigger] l.workspace.services[i]),
                    },
                )
            &&& !l.root_is_app ==> forall|i: int|
                0 <= i < l.workspace.jobs.len() ==> all.contains(
                    NodeView {
                        app: None,
                        manifest_dir: l.workspace_dir,
                        dir: l.workspace_dir,
                        id: (#[trigger] l.workspace.jobs[i]).0,
                        kind: NodeKindView::Job(l.workspace.jobs[i].1),
                    },
                )
            &&& forall|i: int, j: int|
                0 <= i < j < all.len() && (#[trigger] all[i]).app is Some ==> (
                #[trigger] all[j]).app is Some
        }),
{
    let all = nodes_of(l);
    let head = if l.root_is_app {
        Seq::<NodeView>::empty()
    } else {
        manifest_nodes(None, l.workspace_dir, l.workspace)
    };
    let rest = app_nodes(l, l.apps);
    assert(all == head + rest);
    one_manifests_nodes(None, l.workspace_dir, l.workspace);
    all_apps_nodes(l, l.apps);
    assert forall|x: NodeView| #[trigger] rest.contains(x) implies all.contains(x) by {
        let m = choose|m: int| 0 <= m < rest.len() && rest[m] == x;
        assert(all[head.len() + m] == x);
    }
    assert forall|x: NodeView| #[trigger] head.contains(x) implies all.contains(x) by {
        let m = choose|m: int| 0 <= m < head.len() && head[m] == x;
        assert(all[m] == x);
    }
    assert forall|k: int| 0 <= k < all.len() implies (!l.root_is_app && is_declared(
        #[trigger] all[k],
        None,
        l.workspace_dir,
        l.workspace,
    )) || exists|a: int|
        0 <= a < l.apps.len() && is_declared(
            all[k],
            tag_of(l, l.apps[a]),
            (#[trigger] l.apps[a]).dir,
            l.apps[a].manifest,
        ) by {
        if k < head.len() {
            assert(all[k] == head[k]);
        } else {
            assert(all[k] == rest[k - head.len()]);
        }
    }
    assert forall|a: int, i: int|
        0 <= a < l.apps.len() && 0 <= i < l.apps[a].manifest.services.len() implies all.contains(
        NodeView {
            app: tag_of(l, l.apps[a]),
            manifest_dir: l.apps[a].dir,
            dir: l.apps[a].dir,
            id: l.apps[a].manifest.services[i].id,
            kind: NodeKindView::Service(#[trigger] l.apps[a].manifest.services[i]),
        },
    ) by {
        let app = l.apps[a];
        let own = manifest_nodes(tag_of(l, app), app.dir, app.manifest);
        assert(own[i] == service_node(tag_of(l, app), app.dir, app.manifest.services[i]));
        assert(rest.contains(own[i]));
    }
    assert forall|a: int, i: int|
        0 <= a < l.apps.len() && 0 <= i < l.apps[a].manifest.jobs.len() implies all.contains(
        NodeView {
            app: tag_of(l, l.apps[a]),
            manifest_dir: l.apps[a].dir,
            dir: l.apps[a].dir,
            id: (#[trigger] l.apps[a].manifest.jobs[i]).0,
            kind: NodeKindView::Job(l.apps[a].manifest.jobs[i].1),
        },
    ) by {
        let app = l.apps[a];
        let own = manifest_nodes(tag_of(l, app), app.dir, app.manifest);
        let k = app.manifest.services.len() + i;
        assert(own[k] == job_node(tag_of(l, app), app.dir, app.manifest.jobs[i]));
        assert(rest.contains(own[k]));
    }
    assert forall|i: int, j: int|
        0 <= i < j < all.len() && (#[trigger] all[i]).app is Some implies (
    #[trigger] all[j]).app is Some by {
        if i < head.len() {
            assert(all[i] == head[i]);
            assert(is_declared(head[i], None, l.workspace_dir, l.workspace));
        } else {
            assert(all[i] == rest[i - head.len()]);
            assert(all[j] == rest[j - head.len()]);
            let a = choose|a: int|
                0 <= a < l.apps.len() && is_declared(
                    rest[i - head.len()],
                    tag_of(l, l.apps[a]),
                    (#[trigger] l.apps[a]).dir,
                    l.apps[a].manifest,
                );
            assert(!l.root_is_app);
        }
    }
}

/// What a shell reads: inside single quotes everything stands for itself, outside them a backslash
/// stands for the character behind it.
pub open spec fn shell_reads(s: Seq<char>, inside: bool) -> Seq<char>
    decreases s.len(),
{
    if s.len() == 0 {
        Seq::empty()
    } else if s[0] == '\'' {
        shell_reads(s.skip(1), !inside)
    } else if s[0] == '\\' && !inside && s.len() > 1 {
        seq![s[1]] + shell_reads(s.skip(2), inside)
    } else {
        seq![s[0]] + shell_reads(s.skip(1), inside)
    }
}

/// Quoting a text for a shell is undone by the shell, whatever the text holds.
pub proof fn quoting_is_undone(arg: Seq<char>)
    ensures
        shell_reads("'"@ + text::replace_of(arg, '\'', "'\\''"@) + "'"@, false) == arg,
{
    reveal_strlit("'");
    let inner = text::replace_of(arg, '\'', "'\\''"@);
    let whole = "'"@ + inner + "'"@;
    let end = seq!['\''];
    assert("'"@ =~= end);
    assert(whole.skip(1) =~= inner + end);
    assert(whole[0] == '\'');
    inner_quotes_are_undone(arg, end);
    assert(end.skip(1) =~= Seq::<char>::empty());
    assert(shell_reads(Seq::<char>::empty(), false) =~= Seq::<char>::empty());
    assert(shell_reads(end, true) =~= Seq::<char>::empty());
    assert(arg + Seq::<char>::empty() =~= arg);
}

proof fn inner_quotes_are_undone(arg: Seq<char>, tail: Seq<char>)
    ensures
        shell_reads(text::replace_of(arg, '\'', "'\\''"@) + tail, true) == arg + shell_reads(
            tail,
            true,
        ),
    decreases arg.len(),
{
    reveal_strlit("'\\''");
    let with = "'\\''"@;
    if arg.len() == 0 {
        assert(text::replace_of(arg, '\'', with) + tail =~= tail);
        assert(arg + shell_reads(tail, true) =~= shell_reads(tail, true));
    } else {
        let x = arg[0];
        let rest = arg.skip(1);
        assert(arg =~= seq![x] + rest);
        text::replaced_in_parts(seq![x], rest, '\'', with);
        text::one_replaced(x, '\'', with);
        inner_quotes_are_undone(rest, tail);
        let after = text::replace_of(rest, '\'', with) + tail;
        let whole = text::replace_of(arg, '\'', with) + tail;
        let read = shell_reads(after, true);
        if x == '\'' {
            assert(whole =~= with + after);
            assert(whole[0] == '\'' && whole[1] == '\\' && whole[2] == '\'' && whole[3] == '\'');
            let second = whole.skip(1);
            assert(second[0] == '\\' && second[1] == '\'');
            let third = second.skip(2);
            assert(third[0] == '\'');
            assert(third.skip(1) =~= after);
            assert(shell_reads(third, false) == read);
            assert(shell_reads(second, false) == seq!['\''] + read);
            assert(shell_reads(whole, true) == seq!['\''] + read);
        } else {
            assert(whole =~= seq![x] + after);
            assert(whole.skip(1) =~= after);
            assert(shell_reads(whole, true) == seq![x] + read);
        }
        assert(seq![x] + (rest + shell_reads(tail, true)) =~= arg + shell_reads(tail, true));
    }
}

/// A text without quotes and backslashes is read as it is.
pub proof fn plain_words_are_read(arg: Seq<char>)
    requires
        forall|i: int| 0 <= i < arg.len() ==> #[trigger] arg[i] != '\'' && arg[i] != '\\',
    ensures
        shell_reads(arg, false) == arg,
    decreases arg.len(),
{
    if arg.len() > 0 {
        let rest = arg.skip(1);
        assert forall|i: int| 0 <= i < rest.len() implies #[trigger] rest[i] != '\'' && rest[i]
            != '\\' by {
            assert(arg[i + 1] != '\'' && arg[i + 1] != '\\');
        }
        plain_words_are_read(rest);
        assert(seq![arg[0]] + rest =~= arg);
    }
}

/// An argument reaches a command as it is declared: quoted or not, the shell reads it back.
pub proof fn arguments_reach_their_command(arg: Seq<char>)
    ensures
        shell_reads(quoted(arg), false) == arg,
{
    if arg.len() == 0 || exists|i: int| 0 <= i < arg.len() && shell_special(#[trigger] arg[i]) {
        quoting_is_undone(arg);
    } else {
        assert forall|i: int| 0 <= i < arg.len() implies #[trigger] arg[i] != '\'' && arg[i]
            != '\\' by {
            assert(!shell_special(arg[i]));
        }
        plain_words_are_read(arg);
    }
}

proof fn arguments_follow(base: Seq<char>, args: Seq<Seq<char>>, i: int)
    requires
        0 <= i < args.len(),
    ensures
        text::starts_with_of(with_args_of(base, args), base),
        text::contains_of(with_args_of(base, args), " "@ + quoted(args[i])),
    decreases args.len(),
{
    let before = with_args_of(base, args.drop_last());
    let own = " "@ + quoted(args.last());
    let whole = with_args_of(base, args);
    assert(whole =~= before + own + Seq::<char>::empty());
    if i < args.len() - 1 {
        arguments_follow(base, args.drop_last(), i);
        text::contained_in_more(Seq::empty(), before, own, " "@ + quoted(args[i]));
        assert(whole =~= Seq::<char>::empty() + before + own);
    } else {
        text::part_is_contained(before, own, Seq::empty());
    }
    begins_with_its_base(base, args);
}

proof fn begins_with_its_base(base: Seq<char>, args: Seq<Seq<char>>)
    ensures
        text::starts_with_of(with_args_of(base, args), base),
    decreases args.len(),
{
    if args.len() == 0 {
        assert(base.take(base.len() as int) =~= base);
    } else {
        begins_with_its_base(base, args.drop_last());
        let before = with_args_of(base, args.drop_last());
        let whole = with_args_of(base, args);
        assert(whole.take(base.len() as int) =~= before.take(base.len() as int));
    }
}

/// A target runs the step that it names with its own tool, and hands it every argument: a command as it
/// is, a mise task in its profile, a just recipe, an npm or pnpm script, a Python module, and a uv
/// script or module in its dependency group.
pub proof fn targets_run_their_step(target: TargetView)
    ensures
        match target {
            TargetView::Command { command } => target.command_of() == command,
            TargetView::Mise { task, profile } => target.command_of() == (match profile {
                Some(profile) => "mise --profile "@ + profile + " run "@ + task,
                None => "mise run "@ + task,
            }),
            TargetView::Just { recipe, args } => text::starts_with_of(
                target.command_of(),
                "just "@ + recipe,
            ),
            TargetView::Npm { script, args } => text::starts_with_of(
                target.command_of(),
                "npm run "@ + script,
            ),
            TargetView::Pnpm { script, args } => text::starts_with_of(
                target.command_of(),
                "pnpm run "@ + script,
            ),
            TargetView::Python { module, args } => text::starts_with_of(
                target.command_of(),
                "python3 -m "@ + module,
            ),
            TargetView::Uv { group, module, script, args } => {
                let runner = match group {
                    Some(group) => "uv run --group "@ + group,
                    None => "uv run"@,
                };
                &&& script matches Some(script) ==> text::starts_with_of(
                    target.command_of(),
                    runner + " "@ + script,
                )
                &&& script is None ==> (module matches Some(module) ==> text::starts_with_of(
                    target.command_of(),
                    runner + " python -m "@ + module,
                ))
            },
        },
{
    match target {
        TargetView::Just { recipe, args } => begins_with_its_base("just "@ + recipe, args),
        TargetView::Npm { script, args } => begins_with_its_base("npm run "@ + script, args),
        TargetView::Pnpm { script, args } => begins_with_its_base("pnpm run "@ + script, args),
        TargetView::Python { module, args } => begins_with_its_base("python3 -m "@ + module, args),
        TargetView::Uv { group, module, script, args } => {
            let runner = match group {
                Some(group) => "uv run --group "@ + group,
                None => "uv run"@,
            };
            if let Some(script) = script {
                begins_with_its_base(runner + " "@ + script, args);
            } else if let Some(module) = module {
                begins_with_its_base(runner + " python -m "@ + module, args);
            }
        },
        _ => {},
    }
}

/// Every argument of a target is handed on, quoted for the shell.
pub proof fn targets_hand_on_their_arguments(
    name: Seq<char>,
    args: Seq<Seq<char>>,
    i: int,
)
    requires
        0 <= i < args.len(),
    ensures
        text::contains_of(
            (TargetView::Just { recipe: name, args }).command_of(),
            " "@ + quoted(args[i]),
        ),
        text::contains_of(
            (TargetView::Npm { script: name, args }).command_of(),
            " "@ + quoted(args[i]),
        ),
        text::contains_of(
            (TargetView::Pnpm { script: name, args }).command_of(),
            " "@ + quoted(args[i]),
        ),
{
    arguments_follow("just "@ + name, args, i);
    arguments_follow("npm run "@ + name, args, i);
    arguments_follow("pnpm run "@ + name, args, i);
}

} // verus!
