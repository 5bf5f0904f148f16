//! What discovery found, and the questions it leaves open.

use crate::dict::Dict;
use crate::paths;
use crate::slug;
use crate::text;
use vstd::prelude::*;

verus! {

pub const REPORT_VERSION: u32 = 1;

pub const ANSWERS_VERSION: u32 = 1;

/// Everything discovery could determine, plus what it could not.
#[derive(Debug)]
pub struct Report {
    pub report_version: u32,
    /// Fingerprint of the facts. Answers are only accepted for the report they were computed from,
    /// which keeps `init` a pure function.
    pub report_hash: String,
    pub repo: RepoFacts,
    pub apps: Vec<AppFacts>,
    pub facts: Vec<Fact>,
    pub unknowns: Vec<Unknown>,
}

/// The contents of a [`Report`].
#[verifier::ext_equal]
pub struct ReportView {
    pub report_version: u32,
    pub report_hash: Seq<char>,
    pub repo: RepoFactsView,
    pub apps: Seq<AppFactsView>,
    pub facts: Seq<FactView>,
    pub unknowns: Seq<UnknownView>,
}

impl View for Report {
    type V = ReportView;

    open spec fn view(&self) -> ReportView {
        ReportView {
            report_version: self.report_version,
            report_hash: self.report_hash@,
            repo: self.repo@,
            apps: text::views(self.apps@),
            facts: text::views(self.facts@),
            unknowns: text::views(self.unknowns@),
        }
    }
}

impl Clone for Report {
    fn clone(&self) -> (r: Self)
        ensures
            r@ == self@,
    {
        Report {
            report_version: self.report_version,
            report_hash: self.report_hash.clone(),
            repo: self.repo.clone(),
            apps: text::clone_all(&self.apps),
            facts: text::clone_all(&self.facts),
            unknowns: text::clone_all(&self.unknowns),
        }
    }
}

/// What is known of the repository itself.
#[derive(Debug)]
pub struct RepoFacts {
    pub root: String,
    pub git_common_dir: String,
    pub is_git_repo: bool,
    pub worktrees: Vec<WorktreeFact>,
}

/// The contents of a [`RepoFacts`].
#[verifier::ext_equal]
pub struct RepoFactsView {
    pub root: Seq<char>,
    pub git_common_dir: Seq<char>,
    pub is_git_repo: bool,
    pub worktrees: Seq<WorktreeFactView>,
}

impl View for RepoFacts {
    type V = RepoFactsView;

    open spec fn view(&self) -> RepoFactsView {
        RepoFactsView {
            root: self.root@,
            git_common_dir: self.git_common_dir@,
            is_git_repo: self.is_git_repo,
            worktrees: text::views(self.worktrees@),
        }
    }
}

impl Clone for RepoFacts {
    fn clone(&self) -> (r: Self)
        ensures
            r@ == self@,
    {
        RepoFacts {
            root: self.root.clone(),
            git_common_dir: self.git_common_dir.clone(),
            is_git_repo: self.is_git_repo,
            worktrees: text::clone_all(&self.worktrees),
        }
    }
}

/// A worktree of the repository.
#[derive(Debug)]
pub struct WorktreeFact {
    pub path: String,
    pub branch: Option<String>,
    pub is_main: bool,
}

/// The contents of a [`WorktreeFact`].
#[verifier::ext_equal]
pub struct WorktreeFactView {
    pub path: Seq<char>,
    pub branch: Option<Seq<char>>,
    pub is_main: bool,
}

impl View for WorktreeFact {
    type V = WorktreeFactView;

    open spec fn view(&self) -> WorktreeFactView {
        WorktreeFactView {
            path: self.path@,
            branch: text::opt_view(self.branch),
            is_main: self.is_main,
        }
    }
}

impl Clone for WorktreeFact {
    fn clone(&self) -> (r: Self)
        ensures
            r@ == self@,
    {
        WorktreeFact {
            path: self.path.clone(),
            branch: text::clone_opt(&self.branch),
            is_main: self.is_main,
        }
    }
}

/// An app that was found.
#[derive(Debug)]
pub struct AppFacts {
    pub id: String,
    /// Path relative to the repository root.
    pub dir: String,
    /// Where this app was discovered from.
    pub source: String,
    /// The command that installs what it depends on, as its lockfiles imply it.
    pub install: Option<String>,
    /// The files whose change makes that command run again.
    pub install_inputs: Vec<String>,
}

/// The contents of a [`AppFacts`].
#[verifier::ext_equal]
pub struct AppFactsView {
    pub id: Seq<char>,
    pub dir: Seq<char>,
    pub source: Seq<char>,
    pub install: Option<Seq<char>>,
    pub install_inputs: Seq<Seq<char>>,
}

impl View for AppFacts {
    type V = AppFactsView;

    open spec fn view(&self) -> AppFactsView {
        AppFactsView {
            id: self.id@,
            dir: self.dir@,
            source: self.source@,
            install: text::opt_view(self.install),
            install_inputs: text::views(self.install_inputs@),
        }
    }
}

impl Clone for AppFacts {
    fn clone(&self) -> (r: Self)
        ensures
            r@ == self@,
    {
        AppFacts {
            id: self.id.clone(),
            dir: self.dir.clone(),
            source: self.source.clone(),
            install: text::clone_opt(&self.install),
            install_inputs: text::clone_texts(&self.install_inputs),
        }
    }
}

/// One extracted fact, traceable back to the file it came from.
#[derive(Debug)]
pub struct Fact {
    pub id: String,
    /// Path relative to the repository root.
    pub source: String,
    pub kind: FactKind,
    /// App this fact belongs to, when it is app-scoped.
    pub app: Option<String>,
    pub confidence: Confidence,
    pub data: FactData,
}

/// The contents of a [`Fact`].
#[verifier::ext_equal]
pub struct FactView {
    pub id: Seq<char>,
    pub source: Seq<char>,
    pub kind: FactKind,
    pub app: Option<Seq<char>>,
    pub confidence: Confidence,
    pub data: FactDataView,
}

impl View for Fact {
    type V = FactView;

    open spec fn view(&self) -> FactView {
        FactView {
            id: self.id@,
            source: self.source@,
            kind: self.kind,
            app: text::opt_view(self.app),
            confidence: self.confidence,
            data: self.data@,
        }
    }
}

impl Clone for Fact {
    fn clone(&self) -> (r: Self)
        ensures
            r@ == self@,
    {
        Fact {
            id: self.id.clone(),
            source: self.source.clone(),
            kind: self.kind,
            app: text::clone_opt(&self.app),
            confidence: self.confidence,
            data: self.data.clone(),
        }
    }
}

/// What kind of file a fact comes from.
#[derive(Debug, Clone, Copy, PartialEq, Eq, Structural)]
pub enum FactKind {
    Compose,
    Node,
    Storybook,
    Workspace,
    Mise,
    Just,
    Python,
    EnvExample,
    Procfile,
}

/// How sure a fact is.
#[derive(Debug, Clone, Copy, PartialEq, Eq, Structural)]
pub enum Confidence {
    High,
    Medium,
    Low,
}

/// Extracted data. Every variant is a plain description of what a file said.
#[derive(Debug)]
#[allow(inconsistent_fields)]
pub enum FactData {
    Compose {
        services: Vec<ComposeServiceFact>,
        has_build: bool,
        files: Vec<String>,
    },
    Node {
        name: Option<String>,
        package_manager: Option<String>,
        scripts: Vec<ScriptFact>,
        has_workspaces: bool,
        dependencies: Vec<String>,
        /// Ports written into a script rather than read from the environment.
        ports: Vec<PortLiteralFact>,
    },
    Storybook {
        /// Configuration directory Storybook reads, when the app has one.
        config_dir: Option<String>,
        /// Steps that serve the dev server, in the `<runner>:<script>` form the run answers use.
        dev_scripts: Vec<String>,
        /// `@storybook/addon-mcp` is installed, so the dev server also answers the MCP endpoint an
        /// agent connects to.
        has_mcp: bool,
    },
    Workspace {
        tool: String,
        packages: Vec<String>,
    },
    Mise {
        tasks: Vec<String>,
        tools: Vec<String>,
        has_env: bool,
        has_profiles: bool,
    },
    Just {
        recipes: Vec<String>,
        modules: Vec<String>,
        /// Variables the justfile reads from the environment. Only these can carry a value in from
        /// outside.
        env_variables: Vec<String>,
        /// Variables the justfile sets for a recipe (`$NAME=default`). These are outputs: an
        /// ambient value is overwritten, never read.
        exported_parameters: Vec<String>,
        /// Recipe name to its body, so a direct command can be recovered from the tooling without
        /// inventing one.
        recipe_bodies: Dict<String>,
        /// Just variable to the environment variable it is read from.
        variables: Dict<String>,
        /// Ports written into a recipe body.
        ports: Vec<PortLiteralFact>,
    },
    Python {
        manager: String,
        has_uv_lock: bool,
        dependency_groups: Vec<String>,
        scripts: Vec<String>,
    },
    EnvExample {
        variables: Vec<String>,
        file: String,
        /// Ports pinned to a number in the template.
        ports: Vec<PortLiteralFact>,
    },
    Procfile {
        processes: Vec<ScriptFact>,
        /// Ports pinned by a process command.
        ports: Vec<PortLiteralFact>,
    },
}

/// The contents of a [`FactData`].
#[verifier::ext_equal]
#[allow(inconsistent_fields)]
pub enum FactDataView {
    Compose { services: Seq<ComposeServiceFactView>, has_build: bool, files: Seq<Seq<char>> },
    Node { name: Option<Seq<char>>, package_manager: Option<Seq<char>>, scripts: Seq<ScriptFactView>, has_workspaces: bool, dependencies: Seq<Seq<char>>, ports: Seq<PortLiteralFactView> },
    Storybook { config_dir: Option<Seq<char>>, dev_scripts: Seq<Seq<char>>, has_mcp: bool },
    Workspace { tool: Seq<char>, packages: Seq<Seq<char>> },
    Mise { tasks: Seq<Seq<char>>, tools: Seq<Seq<char>>, has_env: bool, has_profiles: bool },
    Just { recipes: Seq<Seq<char>>, modules: Seq<Seq<char>>, env_variables: Seq<Seq<char>>, exported_parameters: Seq<Seq<char>>, recipe_bodies: Seq<(Seq<char>, Seq<char>)>, variables: Seq<(Seq<char>, Seq<char>)>, ports: Seq<PortLiteralFactView> },
    Python { manager: Seq<char>, has_uv_lock: bool, dependency_groups: Seq<Seq<char>>, scripts: Seq<Seq<char>> },
    EnvExample { variables: Seq<Seq<char>>, file: Seq<char>, ports: Seq<PortLiteralFactView> },
    Procfile { processes: Seq<ScriptFactView>, ports: Seq<PortLiteralFactView> },
}

impl View for FactData {
    type V = FactDataView;

    open spec fn view(&self) -> FactDataView {
        match self {
            FactData::Compose { services, has_build, files } => FactDataView::Compose { services: text::views(services@), has_build: *has_build, files: text::views(files@) },
            FactData::Node { name, package_manager, scripts, has_workspaces, dependencies, ports } => FactDataView::Node { name: text::opt_view(*name), package_manager: text::opt_view(*package_manager), scripts: text::views(scripts@), has_workspaces: *has_workspaces, dependencies: text::views(dependencies@), ports: text::views(ports@) },
            FactData::Storybook { config_dir, dev_scripts, has_mcp } => FactDataView::Storybook { config_dir: text::opt_view(*config_dir), dev_scripts: text::views(dev_scripts@), has_mcp: *has_mcp },
            FactData::Workspace { tool, packages } => FactDataView::Workspace { tool: tool@, packages: text::views(packages@) },
            FactData::Mise { tasks, tools, has_env, has_profiles } => FactDataView::Mise { tasks: text::views(tasks@), tools: text::views(tools@), has_env: *has_env, has_profiles: *has_profiles },
            FactData::Just { recipes, modules, env_variables, exported_parameters, recipe_bodies, variables, ports } => FactDataView::Just { recipes: text::views(recipes@), modules: text::views(modules@), env_variables: text::views(env_variables@), exported_parameters: text::views(exported_parameters@), recipe_bodies: recipe_bodies@, variables: variables@, ports: text::views(ports@) },
            FactData::Python { manager, has_uv_lock, dependency_groups, scripts } => FactDataView::Python { manager: manager@, has_uv_lock: *has_uv_lock, dependency_groups: text::views(dependency_groups@), scripts: text::views(scripts@) },
            FactData::EnvExample { variables, file, ports } => FactDataView::EnvExample { variables: text::views(variables@), file: file@, ports: text::views(ports@) },
            FactData::Procfile { processes, ports } => FactDataView::Procfile { processes: text::views(processes@), ports: text::views(ports@) },
        }
    }
}

impl Clone for FactData {
    fn clone(&self) -> (r: Self)
        ensures
            r@ == self@,
    {
        match self {
            FactData::Compose { services, has_build, files } => FactData::Compose { services: text::clone_all(services), has_build: *has_build, files: text::clone_texts(files) },
            FactData::Node { name, package_manager, scripts, has_workspaces, dependencies, ports } => FactData::Node { name: text::clone_opt(name), package_manager: text::clone_opt(package_manager), scripts: text::clone_all(scripts), has_workspaces: *has_workspaces, dependencies: text::clone_texts(dependencies), ports: text::clone_all(ports) },
            FactData::Storybook { config_dir, dev_scripts, has_mcp } => FactData::Storybook { config_dir: text::clone_opt(config_dir), dev_scripts: text::clone_texts(dev_scripts), has_mcp: *has_mcp },
            FactData::Workspace { tool, packages } => FactData::Workspace { tool: tool.clone(), packages: text::clone_texts(packages) },
            FactData::Mise { tasks, tools, has_env, has_profiles } => FactData::Mise { tasks: text::clone_texts(tasks), tools: text::clone_texts(tools), has_env: *has_env, has_profiles: *has_profiles },
            FactData::Just { recipes, modules, env_variables, exported_parameters, recipe_bodies, variables, ports } => FactData::Just { recipes: text::clone_texts(recipes), modules: text::clone_texts(modules), env_variables: text::clone_texts(env_variables), exported_parameters: text::clone_texts(exported_parameters), recipe_bodies: recipe_bodies.duplicate(), variables: variables.duplicate(), ports: text::clone_all(ports) },
            FactData::Python { manager, has_uv_lock, dependency_groups, scripts } => FactData::Python { manager: manager.clone(), has_uv_lock: *has_uv_lock, dependency_groups: text::clone_texts(dependency_groups), scripts: text::clone_texts(scripts) },
            FactData::EnvExample { variables, file, ports } => FactData::EnvExample { variables: text::clone_texts(variables), file: file.clone(), ports: text::clone_all(ports) },
            FactData::Procfile { processes, ports } => FactData::Procfile { processes: text::clone_all(processes), ports: text::clone_all(ports) },
        }
    }
}

/// A port written into a file rather than read from the environment.
#[derive(Debug)]
pub struct PortLiteralFact {
    pub port: u16,
    pub kind: PortKind,
    /// The literal as written: `-p 3005`, `--port=8000`, `DATABASE_PORT=5433`, `localhost:5173`.
    pub literal: String,
    /// Step it sits in: a script, recipe, or task name; a variable name in an env file; absent for
    /// a raw command.
    pub container: Option<String>,
    /// The text containing it, so the fix can be shown in context.
    pub text: String,
}

/// The contents of a [`PortLiteralFact`].
#[verifier::ext_equal]
pub struct PortLiteralFactView {
    pub port: u16,
    pub kind: PortKind,
    pub literal: Seq<char>,
    pub container: Option<Seq<char>>,
    pub text: Seq<char>,
}

impl View for PortLiteralFact {
    type V = PortLiteralFactView;

    open spec fn view(&self) -> PortLiteralFactView {
        PortLiteralFactView {
            port: self.port,
            kind: self.kind,
            literal: self.literal@,
            container: text::opt_view(self.container),
            text: self.text@,
        }
    }
}

impl Clone for PortLiteralFact {
    fn clone(&self) -> (r: Self)
        ensures
            r@ == self@,
    {
        PortLiteralFact {
            port: self.port,
            kind: self.kind,
            literal: self.literal.clone(),
            container: text::clone_opt(&self.container),
            text: self.text.clone(),
        }
    }
}

/// How the port was written, which decides what the fix looks like.
#[derive(Debug, Clone, Copy, PartialEq, Eq, Structural)]
pub enum PortKind {
    /// A command-line flag: `-p 3005`, `--port=8000`.
    Flag,
    /// An inline or env-file assignment: `PORT=3005`.
    Assignment,
    /// A URL or address literal: `localhost:5173`.
    Url,
}

/// A service of a compose file.
#[derive(Debug)]
pub struct ComposeServiceFact {
    pub name: String,
    pub image: Option<String>,
    pub has_build: bool,
    /// Host:container mappings as written, including variable defaults.
    pub ports: Vec<String>,
    pub depends_on: Vec<String>,
    pub has_healthcheck: bool,
    pub profiles: Vec<String>,
    pub command: Option<String>,
}

/// The contents of a [`ComposeServiceFact`].
#[verifier::ext_equal]
pub struct ComposeServiceFactView {
    pub name: Seq<char>,
    pub image: Option<Seq<char>>,
    pub has_build: bool,
    pub ports: Seq<Seq<char>>,
    pub depends_on: Seq<Seq<char>>,
    pub has_healthcheck: bool,
    pub profiles: Seq<Seq<char>>,
    pub command: Option<Seq<char>>,
}

impl View for ComposeServiceFact {
    type V = ComposeServiceFactView;

    open spec fn view(&self) -> ComposeServiceFactView {
        ComposeServiceFactView {
            name: self.name@,
            image: text::opt_view(self.image),
            has_build: self.has_build,
            ports: text::views(self.ports@),
            depends_on: text::views(self.depends_on@),
            has_healthcheck: self.has_healthcheck,
            profiles: text::views(self.profiles@),
            command: text::opt_view(self.command),
        }
    }
}

impl Clone for ComposeServiceFact {
    fn clone(&self) -> (r: Self)
        ensures
            r@ == self@,
    {
        ComposeServiceFact {
            name: self.name.clone(),
            image: text::clone_opt(&self.image),
            has_build: self.has_build,
            ports: text::clone_texts(&self.ports),
            depends_on: text::clone_texts(&self.depends_on),
            has_healthcheck: self.has_healthcheck,
            profiles: text::clone_texts(&self.profiles),
            command: text::clone_opt(&self.command),
        }
    }
}

/// A named command.
#[derive(Debug)]
pub struct ScriptFact {
    pub name: String,
    pub command: String,
}

/// The contents of a [`ScriptFact`].
#[verifier::ext_equal]
pub struct ScriptFactView {
    pub name: Seq<char>,
    pub command: Seq<char>,
}

impl View for ScriptFact {
    type V = ScriptFactView;

    open spec fn view(&self) -> ScriptFactView {
        ScriptFactView {
            name: self.name@,
            command: self.command@,
        }
    }
}

impl Clone for ScriptFact {
    fn clone(&self) -> (r: Self)
        ensures
            r@ == self@,
    {
        ScriptFact {
            name: self.name.clone(),
            command: self.command.clone(),
        }
    }
}

/// A question that cannot be answered from the repository alone.
#[derive(Debug)]
pub struct Unknown {
    pub id: String,
    pub scope: Scope,
    pub kind: UnknownKind,
    pub question: String,
    pub options: Vec<String>,
    pub evidence: Vec<String>,
    pub default: Option<String>,
}

/// The contents of a [`Unknown`].
#[verifier::ext_equal]
pub struct UnknownView {
    pub id: Seq<char>,
    pub scope: ScopeView,
    pub kind: UnknownKind,
    pub question: Seq<char>,
    pub options: Seq<Seq<char>>,
    pub evidence: Seq<Seq<char>>,
    pub default: Option<Seq<char>>,
}

impl View for Unknown {
    type V = UnknownView;

    open spec fn view(&self) -> UnknownView {
        UnknownView {
            id: self.id@,
            scope: self.scope@,
            kind: self.kind,
            question: self.question@,
            options: text::views(self.options@),
            evidence: text::views(self.evidence@),
            default: text::opt_view(self.default),
        }
    }
}

impl Clone for Unknown {
    fn clone(&self) -> (r: Self)
        ensures
            r@ == self@,
    {
        Unknown {
            id: self.id.clone(),
            scope: self.scope.clone(),
            kind: self.kind,
            question: self.question.clone(),
            options: text::clone_texts(&self.options),
            evidence: text::clone_texts(&self.evidence),
            default: text::clone_opt(&self.default),
        }
    }
}

/// What a question is about.
#[derive(Debug)]
pub enum Scope {
    Workspace,
    App { app: String },
}

/// The contents of a [`Scope`].
#[verifier::ext_equal]
pub enum ScopeView {
    Workspace,
    App { app: Seq<char> },
}

impl View for Scope {
    type V = ScopeView;

    open spec fn view(&self) -> ScopeView {
        match self {
            Scope::Workspace => ScopeView::Workspace,
            Scope::App { app } => ScopeView::App { app: app@ },
        }
    }
}

impl Clone for Scope {
    fn clone(&self) -> (r: Self)
        ensures
            r@ == self@,
    {
        match self {
            Scope::Workspace => Scope::Workspace,
            Scope::App { app } => Scope::App { app: app.clone() },
        }
    }
}

/// What an answer looks like.
#[derive(Debug, Clone, Copy, PartialEq, Eq, Structural)]
pub enum UnknownKind {
    Choice,
    MultiChoice,
    Bool,
    Text,
}

/// Answers to a report's unknowns, produced by the wizard or an agent.
#[derive(Debug)]
pub struct AnswerSet {
    pub answers_version: u32,
    pub report_hash: String,
    pub answers: Dict<Answer>,
}

/// The contents of a [`AnswerSet`].
#[verifier::ext_equal]
pub struct AnswerSetView {
    pub answers_version: u32,
    pub report_hash: Seq<char>,
    pub answers: Seq<(Seq<char>, AnswerView)>,
}

impl View for AnswerSet {
    type V = AnswerSetView;

    open spec fn view(&self) -> AnswerSetView {
        AnswerSetView {
            answers_version: self.answers_version,
            report_hash: self.report_hash@,
            answers: self.answers@,
        }
    }
}

impl Clone for AnswerSet {
    fn clone(&self) -> (r: Self)
        ensures
            r@ == self@,
    {
        AnswerSet {
            answers_version: self.answers_version,
            report_hash: self.report_hash.clone(),
            answers: self.answers.duplicate(),
        }
    }
}

/// An answer.
#[derive(Debug)]
pub enum Answer {
    One(String),
    Many(Vec<String>),
    Flag(bool),
}

/// The contents of a [`Answer`].
#[verifier::ext_equal]
pub enum AnswerView {
    One(Seq<char>),
    Many(Seq<Seq<char>>),
    Flag(bool),
}

impl View for Answer {
    type V = AnswerView;

    open spec fn view(&self) -> AnswerView {
        match self {
            Answer::One(f0) => AnswerView::One(f0@),
            Answer::Many(f0) => AnswerView::Many(text::views(f0@)),
            Answer::Flag(f0) => AnswerView::Flag(*f0),
        }
    }
}

impl Clone for Answer {
    fn clone(&self) -> (r: Self)
        ensures
            r@ == self@,
    {
        match self {
            Answer::One(f0) => Answer::One(f0.clone()),
            Answer::Many(f0) => Answer::Many(text::clone_texts(f0)),
            Answer::Flag(f0) => Answer::Flag(*f0),
        }
    }
}

impl ScopeView {
    pub open spec fn app_of(self) -> Option<Seq<char>> {
        match self {
            ScopeView::Workspace => None,
            ScopeView::App { app } => Some(app),
        }
    }

    pub open spec fn label_of(self) -> Seq<char> {
        match self {
            ScopeView::Workspace => "workspace"@,
            ScopeView::App { app } => app,
        }
    }
}

impl Scope {
    pub fn app(&self) -> (r: Option<&str>)
        ensures
            match r {
                Some(app) => self@.app_of() == Some(app@),
                None => self@.app_of() is None,
            },
    {
        match self {
            Scope::Workspace => None,
            Scope::App { app } => Some(app.as_str()),
        }
    }

    pub fn label(&self) -> (r: String)
        ensures
            r@ == self@.label_of(),
    {
        match self {
            Scope::Workspace => text::own("workspace"),
            Scope::App { app } => app.clone(),
        }
    }

    /// Whether two scopes are the same.
    pub fn same(&self, other: &Scope) -> (r: bool)
        ensures
            r == (self@ == other@),
    {
        match (self, other) {
            (Scope::Workspace, Scope::Workspace) => true,
            (Scope::App { app: left }, Scope::App { app: right }) => text::same(left, right),
            _ => false,
        }
    }
}

impl AnswerView {
    /// The one value of an answer.
    pub open spec fn one(self) -> Option<Seq<char>> {
        match self {
            AnswerView::One(value) => Some(value),
            _ => None,
        }
    }

    /// The values of an answer.
    pub open spec fn many(self) -> Seq<Seq<char>> {
        match self {
            AnswerView::Many(values) => values,
            AnswerView::One(value) => seq![value],
            AnswerView::Flag(_) => Seq::empty(),
        }
    }

    /// The flag of an answer.
    pub open spec fn flag(self) -> Option<bool> {
        match self {
            AnswerView::Flag(value) => Some(value),
            _ => None,
        }
    }

    /// An answer as it is shown.
    pub open spec fn shown(self) -> Seq<char> {
        match self {
            AnswerView::One(value) => value,
            AnswerView::Many(values) => if values.len() == 0 {
                "none"@
            } else {
                text::join_of(values, ", "@)
            },
            AnswerView::Flag(value) => if value {
                "yes"@
            } else {
                "no"@
            },
        }
    }
}

impl Answer {
    pub fn as_one(&self) -> (r: Option<&str>)
        ensures
            match r {
                Some(value) => self@.one() == Some(value@),
                None => self@.one() is None,
            },
    {
        match self {
            Answer::One(value) => Some(value.as_str()),
            _ => None,
        }
    }

    pub fn as_many(&self) -> (r: Vec<String>)
        ensures
            text::views(r@) == self@.many(),
    {
        match self {
            Answer::Many(values) => text::clone_texts(values),
            Answer::One(value) => text::single(value.clone()),
            Answer::Flag(_) => {
                let r: Vec<String> = Vec::new();
                assert(text::views(r@) =~= Seq::<Seq<char>>::empty());
                r
            },
        }
    }

    pub fn as_flag(&self) -> (r: Option<bool>)
        ensures
            r == self@.flag(),
    {
        match self {
            Answer::Flag(value) => Some(*value),
            _ => None,
        }
    }

    /// An answer as it is shown.
    pub fn display(&self) -> (r: String)
        ensures
            r@ == self@.shown(),
    {
        match self {
            Answer::One(value) => value.clone(),
            Answer::Many(values) => if values.len() == 0 {
                text::own("none")
            } else {
                text::join(values, ", ")
            },
            Answer::Flag(value) => if *value {
                text::own("yes")
            } else {
                text::own("no")
            },
        }
    }

    /// Whether two answers are the same.
    pub fn same(&self, other: &Answer) -> (r: bool)
        ensures
            r == (self@ == other@),
    {
        match (self, other) {
            (Answer::One(a), Answer::One(b)) => text::same(a, b),
            (Answer::Many(a), Answer::Many(b)) => text::same_list(a, b),
            (Answer::Flag(a), Answer::Flag(b)) => *a == *b,
            _ => false,
        }
    }
}

// ---------------------------------------------------------------------------
// Fingerprint
// ---------------------------------------------------------------------------

/// A number in four bytes, least significant first.
pub open spec fn little_endian(n: u32) -> Seq<u8> {
    seq![
        (n % 256) as u8,
        ((n / 256) % 256) as u8,
        ((n / 65536) % 256) as u8,
        (n / 16777216) as u8,
    ]
}

/// Texts in UTF-8, one after the other.
pub open spec fn text_bytes(texts: Seq<Seq<char>>) -> Seq<u8>
    decreases texts.len(),
{
    if texts.len() == 0 {
        Seq::empty()
    } else {
        text_bytes(texts.drop_last()) + vstd::utf8::encode_utf8(texts.last())
    }
}

/// The texts by which apps count.
pub open spec fn app_texts(apps: Seq<AppFactsView>) -> Seq<Seq<char>>
    decreases apps.len(),
{
    if apps.len() == 0 {
        Seq::empty()
    } else {
        app_texts(apps.drop_last()).push(apps.last().id).push(apps.last().dir).push(
            apps.last().source,
        ).push(
            match apps.last().install {
                Some(command) => command,
                None => ""@,
            },
        ) + apps.last().install_inputs
    }
}

/// The fingerprint of a report: its version, its apps in order, and its facts, as serialised, in
/// ascending order.
pub open spec fn hash_of(version: u32, apps: Seq<AppFactsView>, facts: Seq<Seq<char>>) -> Seq<char> {
    let data = little_endian(version) + text_bytes(app_texts(apps)) + text_bytes(
        text::sorted_of(facts),
    );
    "sha256:"@ + slug::hex_of(slug::sha256_of(data).take(32))
}

fn append_texts(out: &mut Vec<u8>, texts: &Vec<String>)
    ensures
        final(out)@ == old(out)@ + text_bytes(text::views(texts@)),
{
    let ghost start = out@;
    let ghost all = text::views(texts@);
    let mut i: usize = 0;
    assert(all.take(0) =~= Seq::<Seq<char>>::empty());
    assert(start + Seq::<u8>::empty() =~= start);
    while i < texts.len()
        invariant
            all == text::views(texts@),
            i <= texts@.len(),
            out@ == start + text_bytes(all.take(i as int)),
        decreases texts@.len() - i,
    {
        assert(all.take(i + 1).drop_last() =~= all.take(i as int));
        let ghost before = out@;
        out.extend_from_slice(texts[i].as_str().as_bytes());
        assert(out@ =~= before + vstd::utf8::encode_utf8(texts@[i as int]@));
        i += 1;
        assert(out@ =~= start + text_bytes(all.take(i as int)));
    }
    assert(all.take(i as int) =~= all);
}

impl Report {
    /// Stable fingerprint over facts and apps, independent of formatting. `facts` are the facts as
    /// serialised.
    pub fn compute_hash(&self, facts: &Vec<String>) -> (r: String)
        ensures
            r@ == hash_of(self@.report_version, self@.apps, text::views(facts@)),
    {
        let n: u32 = self.report_version;
        let mut data: Vec<u8> = Vec::new();
        data.push((n % 256) as u8);
        data.push(((n / 256) % 256) as u8);
        data.push(((n / 65536) % 256) as u8);
        data.push((n / 16777216) as u8);
        assert(data@ =~= little_endian(n));
        let ghost apps = self@.apps;
        let mut texts: Vec<String> = Vec::new();
        let mut i: usize = 0;
        assert(apps.take(0) =~= Seq::<AppFactsView>::empty());
        assert(text::views(texts@) =~= Seq::<Seq<char>>::empty());
        while i < self.apps.len()
            invariant
                apps == self@.apps,
                i <= self.apps@.len(),
                text::views(texts@) == app_texts(apps.take(i as int)),
            decreases self.apps@.len() - i,
        {
            assert(apps.take(i + 1).drop_last() =~= apps.take(i as int));
            text::add(&mut texts, &self.apps[i].id);
            text::add(&mut texts, &self.apps[i].dir);
            text::add(&mut texts, &self.apps[i].source);
            match &self.apps[i].install {
                Some(command) => {
                    text::add(&mut texts, command);
                },
                None => {
                    text::add(&mut texts, "");
                },
            }
            text::add_all(&mut texts, &self.apps[i].install_inputs);
            i += 1;
        }
        assert(apps.take(i as int) =~= apps);
        append_texts(&mut data, &texts);
        let sorted = text::sort(facts);
        append_texts(&mut data, &sorted);
        let digest = slug::sha256(data.as_slice());
        text::concat("sha256:", &slug::hex(&digest, 32))
    }

    /// The report with its fingerprint.
    pub fn finalize(self, facts: &Vec<String>) -> (r: Report)
        ensures
            r@ == (ReportView {
                report_hash: hash_of(
                    self@.report_version,
                    self@.apps,
                    text::views(facts@),
                ),
                ..self@
            }),
    {
        let hash = self.compute_hash(facts);
        let mut r = self;
        r.report_hash = hash;
        r
    }
}

/// The order in which facts were found does not matter to the fingerprint.
pub proof fn fact_order_does_not_matter(
    version: u32,
    apps: Seq<AppFactsView>,
    a: Seq<Seq<char>>,
    b: Seq<Seq<char>>,
)
    requires
        a.to_multiset() == b.to_multiset(),
    ensures
        hash_of(version, apps, a) == hash_of(version, apps, b),
{
    text::sorting_is_sound(a);
    text::sorting_is_sound(b);
    text::sorted_lists_are_equal(text::sorted_of(a), text::sorted_of(b));
}

// ---------------------------------------------------------------------------
// Looking things up
// ---------------------------------------------------------------------------

/// The questions of one scope, from `k` on.
pub open spec fn unknowns_in(unknowns: Seq<UnknownView>, scope: ScopeView, k: int) -> Seq<UnknownView>
    decreases unknowns.len() - k,
{
    if k < 0 || k >= unknowns.len() {
        Seq::empty()
    } else if unknowns[k].scope == scope {
        seq![unknowns[k]] + unknowns_in(unknowns, scope, k + 1)
    } else {
        unknowns_in(unknowns, scope, k + 1)
    }
}

/// The first fact with this id, from `k` on.
pub open spec fn fact_at(facts: Seq<FactView>, id: Seq<char>, k: int) -> Option<FactView>
    decreases facts.len() - k,
{
    if k < 0 || k >= facts.len() {
        None
    } else if facts[k].id == id {
        Some(facts[k])
    } else {
        fact_at(facts, id, k + 1)
    }
}

/// The Storybook steps of an app among the first `k` facts.
pub open spec fn storybook_steps(facts: Seq<FactView>, app: Seq<char>, k: int) -> Seq<Seq<char>>
    decreases k,
{
    if k <= 0 {
        Seq::empty()
    } else {
        let before = storybook_steps(facts, app, k - 1);
        if facts[k - 1].app == Some(app) {
            match facts[k - 1].data {
                FactDataView::Storybook { dev_scripts, .. } => before + dev_scripts,
                _ => before,
            }
        } else {
            before
        }
    }
}

/// Whether a fact says that an app's Storybook answers MCP.
pub open spec fn says_mcp(fact: FactView, app: Seq<char>) -> bool {
    fact.app == Some(app) && (fact.data matches FactDataView::Storybook { has_mcp, .. } && has_mcp)
}

impl Fact {
    /// Whether a fact belongs to an app.
    pub fn belongs_to(&self, app: &str) -> (r: bool)
        ensures
            r == (self@.app == Some(app@)),
    {
        match &self.app {
            Some(own) => text::same(own, app),
            None => false,
        }
    }
}

impl Report {
    /// The questions of one scope.
    pub fn unknowns_for(&self, scope: &Scope) -> (r: Vec<&Unknown>)
        ensures
            text::views(r@) == unknowns_in(self@.unknowns, scope@, 0),
    {
        let ghost all = self@.unknowns;
        let mut out: Vec<&Unknown> = Vec::new();
        let mut k: usize = 0;
        assert(text::views(out@) + unknowns_in(all, scope@, 0) =~= unknowns_in(all, scope@, 0));
        while k < self.unknowns.len()
            invariant
                all == self@.unknowns,
                k <= self.unknowns@.len(),
                unknowns_in(all, scope@, 0) == text::views(out@) + unknowns_in(
                    all,
                    scope@,
                    k as int,
                ),
            decreases self.unknowns@.len() - k,
        {
            broadcast use text::views_push;

            let unknown = &self.unknowns[k];
            assert(all[k as int] == unknown@);
            let ghost before = text::views(out@);
            if unknown.scope.same(scope) {
                out.push(unknown);
                assert(before + (seq![unknown@] + unknowns_in(all, scope@, k + 1)) =~= text::views(
                    out@,
                ) + unknowns_in(all, scope@, k + 1));
            }
            k += 1;
        }
        assert(text::views(out@) + Seq::<UnknownView>::empty() =~= text::views(out@));
        out
    }

    /// The fact with this id.
    pub fn fact_evidence(&self, id: &str) -> (r: Option<&Fact>)
        ensures
            match r {
                Some(fact) => fact_at(self@.facts, id@, 0) == Some(fact@),
                None => fact_at(self@.facts, id@, 0) is None,
            },
    {
        let mut k: usize = 0;
        while k < self.facts.len()
            invariant
                k <= self.facts@.len(),
                fact_at(self@.facts, id@, 0) == fact_at(self@.facts, id@, k as int),
            decreases self.facts@.len() - k,
        {
            if text::same(&self.facts[k].id, id) {
                return Some(&self.facts[k]);
            }
            k += 1;
        }
        None
    }

    /// The steps an app declares that serve Storybook, as `<runner>:<script>`.
    ///
    /// They are the ones that need their port passed on the command line: Storybook's dev server
    /// reads no environment variable of its own.
    pub fn storybook_scripts(&self, app: &str) -> (r: Vec<String>)
        ensures
            text::views(r@) == storybook_steps(self@.facts, app@, self@.facts.len() as int),
    {
        let ghost all = self@.facts;
        let mut out: Vec<String> = Vec::new();
        let mut k: usize = 0;
        assert(text::views(out@) =~= Seq::<Seq<char>>::empty());
        while k < self.facts.len()
            invariant
                all == self@.facts,
                k <= self.facts@.len(),
                text::views(out@) == storybook_steps(all, app@, k as int),
            decreases self.facts@.len() - k,
        {
            let fact = &self.facts[k];
            assert(all[k as int] == fact@);
            if fact.belongs_to(app) {
                if let FactData::Storybook { dev_scripts, .. } = &fact.data {
                    text::add_all(&mut out, dev_scripts);
                }
            }
            k += 1;
        }
        out
    }

    /// True when an app installs the addon that answers MCP from the dev server.
    pub fn storybook_has_mcp(&self, app: &str) -> (r: bool)
        ensures
            r == exists|i: int| 0 <= i < self@.facts.len() && says_mcp(#[trigger] self@.facts[i], app@),
    {
        let ghost all = self@.facts;
        let mut k: usize = 0;
        while k < self.facts.len()
            invariant
                all == self@.facts,
                k <= self.facts@.len(),
                forall|i: int| 0 <= i < k ==> !says_mcp(#[trigger] all[i], app@),
            decreases self.facts@.len() - k,
        {
            let fact = &self.facts[k];
            assert(all[k as int] == fact@);
            if fact.belongs_to(app) {
                if let FactData::Storybook { has_mcp, .. } = &fact.data {
                    if *has_mcp {
                        assert(says_mcp(all[k as int], app@));
                        return true;
                    }
                }
            }
            k += 1;
        }
        false
    }
}

/// Absolute path helper used by extractors.
pub fn join(root: &str, relative: &str) -> (r: String)
    ensures
        r@ == paths::join_of(root@, relative@),
{
    paths::join(root, relative)
}

} // verus!
