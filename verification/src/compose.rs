//! Docker compose: what is said to it, and what it answers.

use crate::env;
use crate::env::Alias;
use crate::manifest::Expose;
use crate::paths;
use crate::slug;
use crate::text;
use crate::value;
use crate::value::Value;
use vstd::prelude::*;

verus! {

/// A published port.
#[derive(Debug)]
pub struct PortMapping {
    /// Allocated host port, when one is assigned.
    pub host: Option<u16>,
    /// Container-side port.
    pub target: Option<u16>,
}

/// The contents of a [`PortMapping`].
#[verifier::ext_equal]
pub struct PortMappingView {
    pub host: Option<u16>,
    pub target: Option<u16>,
}

impl View for PortMapping {
    type V = PortMappingView;

    open spec fn view(&self) -> PortMappingView {
        PortMappingView {
            host: self.host,
            target: self.target,
        }
    }
}

impl Clone for PortMapping {
    fn clone(&self) -> (r: Self)
        ensures
            r@ == self@,
    {
        PortMapping {
            host: self.host,
            target: self.target,
        }
    }
}

/// What the override says about one compose service.
#[derive(Debug)]
pub struct GroupService {
    pub name: String,
    pub expose: Expose,
    pub mappings: Vec<PortMapping>,
    /// Variables that the container gets in place of those its compose file gives it.
    pub environment: Vec<(String, String)>,
}

/// The contents of a [`GroupService`].
#[verifier::ext_equal]
pub struct GroupServiceView {
    pub name: Seq<char>,
    pub expose: Expose,
    pub mappings: Seq<PortMappingView>,
    pub environment: Seq<(Seq<char>, Seq<char>)>,
}

impl View for GroupService {
    type V = GroupServiceView;

    open spec fn view(&self) -> GroupServiceView {
        GroupServiceView {
            name: self.name@,
            expose: self.expose,
            mappings: text::views(self.mappings@),
            environment: text::pair_views(self.environment@),
        }
    }
}

impl Clone for GroupService {
    fn clone(&self) -> (r: Self)
        ensures
            r@ == self@,
    {
        GroupService {
            name: self.name.clone(),
            expose: self.expose,
            mappings: text::clone_all(&self.mappings),
            environment: text::clone_pairs(&self.environment),
        }
    }
}

/// The services of one compose file that belong to one project.
#[derive(Debug)]
pub struct ComposeGroup {
    /// Absolute path to the repository's compose file (the first `-f`).
    pub file: String,
    pub project: String,
    /// Worktree this stack belongs to, recorded as a container label.
    pub worktree_path: String,
    /// Repository this stack belongs to. `gc` sweeps by this so a run in one repository can never
    /// collect another repository's containers.
    pub repo_key: String,
    pub services: Vec<GroupService>,
}

/// The contents of a [`ComposeGroup`].
#[verifier::ext_equal]
pub struct ComposeGroupView {
    pub file: Seq<char>,
    pub project: Seq<char>,
    pub worktree_path: Seq<char>,
    pub repo_key: Seq<char>,
    pub services: Seq<GroupServiceView>,
}

impl View for ComposeGroup {
    type V = ComposeGroupView;

    open spec fn view(&self) -> ComposeGroupView {
        ComposeGroupView {
            file: self.file@,
            project: self.project@,
            worktree_path: self.worktree_path@,
            repo_key: self.repo_key@,
            services: text::views(self.services@),
        }
    }
}

impl Clone for ComposeGroup {
    fn clone(&self) -> (r: Self)
        ensures
            r@ == self@,
    {
        ComposeGroup {
            file: self.file.clone(),
            project: self.project.clone(),
            worktree_path: self.worktree_path.clone(),
            repo_key: self.repo_key.clone(),
            services: text::clone_all(&self.services),
        }
    }
}

/// What is known of one container.
#[derive(Debug)]
pub struct ContainerState {
    pub service: String,
    pub state: String,
    pub health: Option<String>,
    /// Exit status for a container that has stopped. A one-shot init container that exits zero has
    /// done its job rather than failed.
    pub exit_code: Option<i64>,
}

/// The contents of a [`ContainerState`].
#[verifier::ext_equal]
pub struct ContainerStateView {
    pub service: Seq<char>,
    pub state: Seq<char>,
    pub health: Option<Seq<char>>,
    pub exit_code: Option<i64>,
}

impl View for ContainerState {
    type V = ContainerStateView;

    open spec fn view(&self) -> ContainerStateView {
        ContainerStateView {
            service: self.service@,
            state: self.state@,
            health: text::opt_view(self.health),
            exit_code: self.exit_code,
        }
    }
}

impl Clone for ContainerState {
    fn clone(&self) -> (r: Self)
        ensures
            r@ == self@,
    {
        ContainerState {
            service: self.service.clone(),
            state: self.state.clone(),
            health: text::clone_opt(&self.health),
            exit_code: self.exit_code,
        }
    }
}

/// How docker compose is called for one project.
#[derive(Debug)]
pub struct ComposeRunner {
    pub file: String,
    pub override_file: Option<String>,
    pub project: String,
}

/// The contents of a [`ComposeRunner`].
#[verifier::ext_equal]
pub struct ComposeRunnerView {
    pub file: Seq<char>,
    pub override_file: Option<Seq<char>>,
    pub project: Seq<char>,
}

impl View for ComposeRunner {
    type V = ComposeRunnerView;

    open spec fn view(&self) -> ComposeRunnerView {
        ComposeRunnerView {
            file: self.file@,
            override_file: text::opt_view(self.override_file),
            project: self.project@,
        }
    }
}

impl Clone for ComposeRunner {
    fn clone(&self) -> (r: Self)
        ensures
            r@ == self@,
    {
        ComposeRunner {
            file: self.file.clone(),
            override_file: text::clone_opt(&self.override_file),
            project: self.project.clone(),
        }
    }
}

// ---------------------------------------------------------------------------
// Calls
// ---------------------------------------------------------------------------

impl ComposeRunnerView {
    /// The arguments of a docker call for this project; the override is named where it exists.
    pub open spec fn arguments(self, has_override: bool, args: Seq<Seq<char>>) -> Seq<Seq<char>> {
        seq!["compose"@, "-f"@, self.file] + (match self.override_file {
            Some(file) => if has_override {
                seq!["-f"@, file]
            } else {
                Seq::empty()
            },
            None => Seq::empty(),
        }) + seq!["-p"@, self.project] + args
    }
}

impl ComposeRunner {
    pub fn new(file: String, override_file: Option<String>, project: String) -> (r: Self)
        ensures
            r@ == (ComposeRunnerView {
                file: file@,
                override_file: text::opt_view(override_file),
                project: project@,
            }),
    {
        ComposeRunner { file, override_file, project }
    }

    /// The arguments of a docker call for this project.
    pub fn arguments(&self, has_override: bool, args: &Vec<String>) -> (r: Vec<String>)
        ensures
            text::views(r@) == self@.arguments(has_override, text::views(args@)),
    {
        let mut r: Vec<String> = Vec::new();
        text::add(&mut r, "compose");
        text::add(&mut r, "-f");
        text::add(&mut r, &self.file);
        if let Some(file) = &self.override_file {
            if has_override {
                text::add(&mut r, "-f");
                text::add(&mut r, file);
            }
        }
        text::add(&mut r, "-p");
        text::add(&mut r, &self.project);
        let ghost head = text::views(r@);
        let mut i: usize = 0;
        assert(head + text::views(args@).take(0) =~= head);
        while i < args.len()
            invariant
                i <= args@.len(),
                text::views(r@) == head + text::views(args@).take(i as int),
            decreases args@.len() - i,
        {
            text::add(&mut r, &args[i]);
            i += 1;
            assert(text::views(r@) =~= head + text::views(args@).take(i as int));
        }
        assert(text::views(args@).take(i as int) =~= text::views(args@));
        assert(text::views(r@) =~= self@.arguments(has_override, text::views(args@)));
        r
    }

    /// What a failed call is reported as.
    pub fn failure(&self, args: &Vec<String>, stderr: &str) -> (r: String)
        ensures
            r@ == "docker compose "@ + text::join_of(text::views(args@), " "@) + " failed for "@
                + self.file@ + ": "@ + text::trim_of(stderr@),
    {
        let mut e = text::own("docker compose ");
        e.append(&text::join(args, " "));
        e.append(" failed for ");
        e.append(&self.file);
        e.append(": ");
        e.append(&text::trim(stderr));
        e
    }

    /// The call that starts one service, after building its image where asked to.
    pub fn up_service(&self, service: &str, build: bool) -> (r: Vec<String>)
        ensures
            text::views(r@) == up_arguments(seq![service@], build),
    {
        let services = text::single(text::own(service));
        self.up_services(&services, build)
    }

    /// The call that starts several services.
    pub fn up_services(&self, services: &Vec<String>, build: bool) -> (r: Vec<String>)
        ensures
            text::views(r@) == up_arguments(text::views(services@), build),
    {
        let mut r: Vec<String> = Vec::new();
        text::add(&mut r, "up");
        text::add(&mut r, "-d");
        if build {
            text::add(&mut r, "--build");
        }
        let ghost head = text::views(r@);
        let mut i: usize = 0;
        assert(head + text::views(services@).take(0) =~= head);
        while i < services.len()
            invariant
                i <= services@.len(),
                text::views(r@) == head + text::views(services@).take(i as int),
            decreases services@.len() - i,
        {
            text::add(&mut r, &services[i]);
            i += 1;
            assert(text::views(r@) =~= head + text::views(services@).take(i as int));
        }
        assert(text::views(services@).take(i as int) =~= text::views(services@));
        assert(text::views(r@) =~= up_arguments(text::views(services@), build));
        r
    }

    /// The call that stops one service's containers, keeping them: the next `up -d` starts them
    /// again with fresh configuration. A service with no container is a no-op.
    pub fn stop_service(&self, service: &str) -> (r: Vec<String>)
        ensures
            text::views(r@) == seq!["stop"@, service@],
            text::views(r@) == stop_arguments(service@),
    {
        let mut r: Vec<String> = Vec::new();
        text::add(&mut r, "stop");
        text::add(&mut r, service);
        assert(text::views(r@) =~= seq!["stop"@, service@]);
        r
    }

    /// The call that removes the project's containers.
    pub fn down(&self, volumes: bool) -> (r: Vec<String>)
        ensures
            text::views(r@) == (if volumes {
                seq!["down"@, "--remove-orphans"@, "--volumes"@]
            } else {
                seq!["down"@, "--remove-orphans"@]
            }),
            text::views(r@) == down_arguments(volumes),
    {
        let mut r: Vec<String> = Vec::new();
        text::add(&mut r, "down");
        text::add(&mut r, "--remove-orphans");
        if volumes {
            text::add(&mut r, "--volumes");
            assert(text::views(r@) =~= seq!["down"@, "--remove-orphans"@, "--volumes"@]);
        } else {
            assert(text::views(r@) =~= seq!["down"@, "--remove-orphans"@]);
        }
        r
    }

    /// The call that lists all containers of this project, including ones that have exited, so a
    /// one-shot initialiser is visible after it finishes.
    pub fn ps(&self) -> (r: Vec<String>)
        ensures
            text::views(r@) == seq!["ps"@, "-a"@, "--format"@, "json"@],
    {
        let mut r: Vec<String> = Vec::new();
        text::add(&mut r, "ps");
        text::add(&mut r, "-a");
        text::add(&mut r, "--format");
        text::add(&mut r, "json");
        assert(text::views(r@) =~= seq!["ps"@, "-a"@, "--format"@, "json"@]);
        r
    }
}

/// The arguments that stop a service's containers and keep them.
pub open spec fn stop_arguments(service: Seq<char>) -> Seq<Seq<char>> {
    seq!["stop"@, service]
}

/// The arguments that remove a project's containers, with its volumes where asked to.
pub open spec fn down_arguments(volumes: bool) -> Seq<Seq<char>> {
    if volumes {
        seq!["down"@, "--remove-orphans"@, "--volumes"@]
    } else {
        seq!["down"@, "--remove-orphans"@]
    }
}

/// The arguments that start services, after building their images where asked to.
pub open spec fn up_arguments(services: Seq<Seq<char>>, build: bool) -> Seq<Seq<char>> {
    (if build {
        seq!["up"@, "-d"@, "--build"@]
    } else {
        seq!["up"@, "-d"@]
    }) + services
}

// ---------------------------------------------------------------------------
// Container states
// ---------------------------------------------------------------------------

/// The value under the first of two keys that is there.
pub open spec fn either(v: Value, a: Seq<char>, b: Seq<char>) -> Option<Value> {
    match v.get_of(a) {
        Some(x) => Some(x),
        None => v.get_of(b),
    }
}

/// The text under the first of two keys that is there.
pub open spec fn text_field(v: Value, a: Seq<char>, b: Seq<char>) -> Option<Seq<char>> {
    match either(v, a, b) {
        Some(x) => x.text_of(),
        None => None,
    }
}

/// The exit status that an entry gives, as a number or as text.
pub open spec fn exit_code_of(v: Value) -> Option<i64> {
    let found = match either(v, "ExitCode"@, "exitCode"@) {
        Some(x) => Some(x),
        None => v.get_of("exit_code"@),
    };
    match found {
        Some(Value::Number(n)) => text::signed_of(n@),
        Some(Value::Text(s)) => text::signed_of(s@),
        _ => None,
    }
}

/// The container that an entry describes.
pub open spec fn container_of(v: Value) -> ContainerStateView {
    ContainerStateView {
        service: match text_field(v, "Service"@, "service"@) {
            Some(s) => s,
            None => Seq::empty(),
        },
        state: match text_field(v, "State"@, "state"@) {
            Some(s) => s,
            None => Seq::empty(),
        },
        health: match text_field(v, "Health"@, "health"@) {
            Some(s) => if s.len() > 0 {
                Some(s)
            } else {
                None
            },
            None => None,
        },
        exit_code: exit_code_of(v),
    }
}

/// The containers that entries describe.
pub open spec fn containers_of(entries: Seq<Value>) -> Seq<ContainerStateView> {
    Seq::new(entries.len(), |i: int| container_of(entries[i]))
}

/// The entries of lines that each hold one, from line `k` on; none where a line is not JSON.
pub open spec fn line_entries(lines: Seq<Seq<char>>, k: int) -> Option<Seq<Value>>
    decreases lines.len() - k,
{
    if k < 0 || k >= lines.len() {
        Some(Seq::empty())
    } else if text::trim_of(lines[k]).len() == 0 {
        line_entries(lines, k + 1)
    } else {
        match (value::json_value(lines[k]), line_entries(lines, k + 1)) {
            (Some(v), Some(rest)) => Some(seq![v] + rest),
            _ => None,
        }
    }
}

/// The containers that `docker compose ps` lists: an array, or one entry per line.
pub open spec fn parse_ps_of(raw: Seq<char>) -> Result<Seq<ContainerStateView>, Seq<char>> {
    let trimmed = text::trim_of(raw);
    if trimmed.len() == 0 {
        Ok(Seq::empty())
    } else if trimmed[0] == '[' {
        match value::json_value(trimmed) {
            Some(Value::List(entries)) => Ok(containers_of(entries@)),
            _ => Err("parsing docker compose ps output"@),
        }
    } else {
        match line_entries(text::lines_of(trimmed), 0) {
            Some(entries) => Ok(containers_of(entries)),
            None => Err("parsing docker compose ps line"@),
        }
    }
}

fn get_either<'a>(v: &'a Value, a: &str, b: &str) -> (r: Option<&'a Value>)
    ensures
        match r {
            Some(x) => either(*v, a@, b@) == Some(*x),
            None => either(*v, a@, b@) is None,
        },
{
    match v.get(a) {
        Some(x) => Some(x),
        None => v.get(b),
    }
}

fn string_field(v: &Value, a: &str, b: &str) -> (r: Option<String>)
    ensures
        text::opt_view(r) == text_field(*v, a@, b@),
{
    match get_either(v, a, b) {
        Some(x) => match x.as_text() {
            Some(s) => Some(s.clone()),
            None => None,
        },
        None => None,
    }
}

fn exit_code(v: &Value) -> (r: Option<i64>)
    ensures
        r == exit_code_of(*v),
{
    let found = match get_either(v, "ExitCode", "exitCode") {
        Some(x) => Some(x),
        None => v.get("exit_code"),
    };
    match found {
        Some(Value::Number(n)) => text::parse_signed(n),
        Some(Value::Text(s)) => text::parse_signed(s),
        _ => None,
    }
}

/// The container that one entry of `docker compose ps` describes.
pub fn container(v: &Value) -> (r: ContainerState)
    ensures
        r@ == container_of(*v),
{
    let service = match string_field(v, "Service", "service") {
        Some(s) => s,
        None => String::new(),
    };
    let state = match string_field(v, "State", "state") {
        Some(s) => s,
        None => String::new(),
    };
    let health = match string_field(v, "Health", "health") {
        Some(s) => if text::length(&s) > 0 {
            Some(s)
        } else {
            None
        },
        None => None,
    };
    let r = ContainerState { service, state, health, exit_code: exit_code(v) };
    assert(r@.service =~= container_of(*v).service);
    assert(r@.state =~= container_of(*v).state);
    r
}

proof fn line_entries_step(lines: Seq<Seq<char>>, k: int, done: Seq<Value>, v: Value)
    requires
        0 <= k < lines.len(),
        text::trim_of(lines[k]).len() != 0,
        value::json_value(lines[k]) == Some(v),
    ensures
        (match line_entries(lines, k) {
            Some(rest) => Some(containers_of(done + rest)),
            None => None,
        }) == (match line_entries(lines, k + 1) {
            Some(rest) => Some(containers_of(done.push(v) + rest)),
            None => None,
        }),
{
    if let Some(rest) = line_entries(lines, k + 1) {
        assert(done + (seq![v] + rest) =~= done.push(v) + rest);
    }
}

/// The containers that `docker compose ps` lists.
pub fn parse_ps(raw: &str) -> (r: Result<Vec<ContainerState>, String>)
    ensures
        match r {
            Ok(states) => parse_ps_of(raw@) == Ok::<Seq<ContainerStateView>, Seq<char>>(
                text::views(states@),
            ),
            Err(e) => parse_ps_of(raw@) == Err::<Seq<ContainerStateView>, Seq<char>>(e@),
        },
{
    let trimmed = text::trim(raw);
    let mut states: Vec<ContainerState> = Vec::new();
    if text::length(&trimmed) == 0 {
        assert(text::views(states@) =~= Seq::<ContainerStateView>::empty());
        return Ok(states);
    }
    if trimmed.as_str().get_char(0) == '[' {
        match value::parse_json(&trimmed) {
            Some(Value::List(entries)) => {
                let ghost all = containers_of(entries@);
                let mut i: usize = 0;
                assert(text::views(states@) =~= all.take(0));
                while i < entries.len()
                    invariant
                        all == containers_of(entries@),
                        i <= entries@.len(),
                        text::views(states@) == all.take(i as int),
                    decreases entries@.len() - i,
                {
                    broadcast use text::views_push;

                    states.push(container(&entries[i]));
                    i += 1;
                    assert(text::views(states@) =~= all.take(i as int));
                }
                assert(all.take(i as int) =~= all);
                Ok(states)
            },
            _ => Err(text::own("parsing docker compose ps output")),
        }
    } else {
        let lines = text::lines(&trimmed);
        let ghost all = text::lines_of(trimmed@);
        let ghost mut done = Seq::<Value>::empty();
        let mut k: usize = 0;
        assert(text::views(states@) =~= containers_of(done));
        assert(forall|rest: Seq<Value>| #[trigger] (done + rest) =~= rest);
        while k < lines.len()
            invariant
                text::views(lines@) == all,
                all == text::lines_of(trimmed@),
                trimmed@ == text::trim_of(raw@),
                trimmed@.len() > 0,
                trimmed@[0] != '[',
                k <= lines@.len(),
                text::views(states@) == containers_of(done),
                (match line_entries(all, 0) {
                    Some(rest) => Some(containers_of(rest)),
                    None => None,
                }) == (match line_entries(all, k as int) {
                    Some(rest) => Some(containers_of(done + rest)),
                    None => None,
                }),
            decreases lines@.len() - k,
        {
            broadcast use text::views_push;

            let line = &lines[k];
            assert(all[k as int] == line@);
            if text::length(&text::trim(line)) > 0 {
                match value::parse_json(line) {
                    Some(v) => {
                        proof {
                            line_entries_step(all, k as int, done, v);
                        }
                        states.push(container(&v));
                        proof {
                            assert(containers_of(done.push(v)) =~= containers_of(done).push(
                                container_of(v),
                            ));
                            done = done.push(v);
                        }
                    },
                    None => {
                        return Err(text::own("parsing docker compose ps line"));
                    },
                }
            }
            k += 1;
        }
        assert(done + Seq::<Value>::empty() =~= done);
        Ok(states)
    }
}

/// The names of the entries, from `k` on, whose value says how an image is built.
pub open spec fn built_from(entries: Seq<(Value, Value)>, k: int) -> Seq<Seq<char>>
    decreases entries.len() - k,
{
    if k < 0 || k >= entries.len() {
        Seq::empty()
    } else {
        (match entries[k].0.text_of() {
            Some(name) => if entries[k].1.get_of("build"@) is Some {
                seq![name]
            } else {
                Seq::empty()
            },
            None => Seq::empty(),
        }) + built_from(entries, k + 1)
    }
}

/// The services of a resolved compose configuration that build an image.
pub open spec fn services_with_build_of(config: Seq<char>) -> Result<Seq<Seq<char>>, Seq<char>> {
    match value::json_value(config) {
        Some(v) => Ok(built_from(v.entries_under("services"@), 0)),
        None => Err("parsing docker compose config output"@),
    }
}

/// The services that build an image, in the configuration that `docker compose config` resolves.
pub fn services_with_build(config: &str) -> (r: Result<Vec<String>, String>)
    ensures
        match r {
            Ok(names) => services_with_build_of(config@) == Ok::<Seq<Seq<char>>, Seq<char>>(
                text::views(names@),
            ),
            Err(e) => services_with_build_of(config@) == Err::<Seq<Seq<char>>, Seq<char>>(e@),
        },
{
    let doc = match value::parse_json(config) {
        Some(v) => v,
        None => {
            return Err(text::own("parsing docker compose config output"));
        },
    };
    let mut names: Vec<String> = Vec::new();
    assert(text::views(names@) =~= Seq::<Seq<char>>::empty());
    let services = match doc.get("services") {
        Some(v) => v,
        None => {
            return Ok(names);
        },
    };
    let ghost all = services.entries_of();
    let n: usize = services.entry_count();
    let mut k: usize = 0;
    assert(text::views(names@) + built_from(all, 0) =~= built_from(all, 0));
    while k < n
        invariant
            n == all.len(),
            all == services.entries_of(),
            k <= n,
            built_from(all, 0) == text::views(names@) + built_from(all, k as int),
        decreases n - k,
    {
        let ghost before = text::views(names@);
        if let Some(name) = services.key(k).as_text() {
            if services.under(k).get("build").is_some() {
                text::add(&mut names, name);
                assert(before + (seq![name@] + built_from(all, k + 1)) =~= text::views(names@)
                    + built_from(all, k + 1));
            } else {
                assert(before + (Seq::<Seq<char>>::empty() + built_from(all, k + 1)) =~= before
                    + built_from(all, k + 1));
            }
        } else {
            assert(before + (Seq::<Seq<char>>::empty() + built_from(all, k + 1)) =~= before
                + built_from(all, k + 1));
        }
        k += 1;
    }
    assert(text::views(names@) + Seq::<Seq<char>>::empty() =~= text::views(names@));
    Ok(names)
}

// ---------------------------------------------------------------------------
// The override
// ---------------------------------------------------------------------------

/// The file name of the override of one compose file.
pub open spec fn override_name(file: Seq<char>) -> Seq<char> {
    "override-"@ + slug::short_hash_of(file) + ".yml"@
}

/// The path of the override of one compose file.
pub fn override_path(runtime_dir: &str, file: &str) -> (r: String)
    ensures
        r@ == paths::join_of(runtime_dir@, override_name(file@)),
{
    let mut name = text::own("override-");
    name.append(&slug::short_hash(file));
    name.append(".yml");
    paths::join(runtime_dir, &name)
}

/// The published ports of a service, from mapping `k` on.
pub open spec fn mapping_lines(name: Seq<char>, mappings: Seq<PortMappingView>, k: int) -> Result<
    Seq<char>,
    Seq<char>,
>
    decreases mappings.len() - k,
{
    if k < 0 || k >= mappings.len() {
        Ok(Seq::empty())
    } else {
        match (mappings[k].host, mappings[k].target) {
            (None, _) => Err("service '"@ + name + "' has an unallocated port"@),
            (_, None) => Err(
                "service '"@ + name + "' has a port without a container-side target"@,
            ),
            (Some(host), Some(target)) => match mapping_lines(name, mappings, k + 1) {
                Err(e) => Err(e),
                Ok(rest) => Ok(
                    "      - \"127.0.0.1:"@ + text::decimal_of(host as nat) + ":"@ + text::decimal_of(
                        target as nat,
                    ) + "\"\n"@ + rest,
                ),
            },
        }
    }
}

/// The labels of a service's containers.
pub open spec fn label_lines(g: ComposeGroupView, name: Seq<char>) -> Seq<char> {
    "  \""@ + name + "\":\n    labels:\n      magictree.worktree: \""@ + g.worktree_path
        + "\"\n      magictree.project: \""@ + g.project + "\"\n      magictree.repo: \""@ + g.repo_key
        + "\"\n"@
}

/// A text as a double-quoted scalar of a compose file: a dollar sign is doubled, so that nothing is
/// interpolated a second time.
pub open spec fn scalar_of(value: Seq<char>) -> Seq<char> {
    let slashes = text::replace_of(value, '\\', "\\\\"@);
    let quotes = text::replace_of(slashes, '"', "\\\""@);
    let breaks = text::replace_of(quotes, '\n', "\\n"@);
    "\""@ + text::replace_of(breaks, '$', "$$"@) + "\""@
}

/// The first `k` variables of a service.
pub open spec fn variable_lines(vars: Seq<(Seq<char>, Seq<char>)>, k: int) -> Seq<char>
    decreases k,
{
    if k <= 0 {
        Seq::empty()
    } else {
        variable_lines(vars, k - 1) + "      "@ + scalar_of(vars[k - 1].0) + ": "@ + scalar_of(
            vars[k - 1].1,
        ) + "\n"@
    }
}

/// The variables of a service, where it has any.
pub open spec fn environment_lines(vars: Seq<(Seq<char>, Seq<char>)>) -> Seq<char> {
    if vars.len() == 0 {
        Seq::empty()
    } else {
        "    environment:\n"@ + variable_lines(vars, vars.len() as int)
    }
}

/// What the override says about one service. A service publishes exactly its declared ports;
/// where it declares none, or exposes none, the ports of the repository's file are cleared.
pub open spec fn service_lines(g: ComposeGroupView, s: GroupServiceView) -> Result<
    Seq<char>,
    Seq<char>,
> {
    if s.expose == Expose::Port && s.mappings.len() > 0 {
        match mapping_lines(s.name, s.mappings, 0) {
            Err(e) => Err(e),
            Ok(lines) => Ok(
                label_lines(g, s.name) + "    ports: !override\n"@ + lines + environment_lines(
                    s.environment,
                ),
            ),
        }
    } else {
        Ok(label_lines(g, s.name) + "    ports: !reset []\n"@)
    }
}

/// What the override says about the services from `k` on.
pub open spec fn override_lines(g: ComposeGroupView, k: int) -> Result<Seq<char>, Seq<char>>
    decreases g.services.len() - k,
{
    if k < 0 || k >= g.services.len() {
        Ok(Seq::empty())
    } else {
        match service_lines(g, g.services[k]) {
            Err(e) => Err(e),
            Ok(lines) => match override_lines(g, k + 1) {
                Err(e) => Err(e),
                Ok(rest) => Ok(lines + rest),
            },
        }
    }
}

/// The generated override of one compose file.
pub open spec fn override_of(g: ComposeGroupView) -> Result<Seq<char>, Seq<char>> {
    match override_lines(g, 0) {
        Err(e) => Err(e),
        Ok(lines) => Ok("# generated by magictree - do not edit\nservices:\n"@ + lines),
    }
}

fn write_mappings(name: &str, mappings: &Vec<PortMapping>, k: usize) -> (r: Result<String, String>)
    requires
        k <= mappings@.len(),
    ensures
        match r {
            Ok(t) => mapping_lines(name@, text::views(mappings@), k as int) == Ok::<
                Seq<char>,
                Seq<char>,
            >(t@),
            Err(e) => mapping_lines(name@, text::views(mappings@), k as int) == Err::<
                Seq<char>,
                Seq<char>,
            >(e@),
        },
    decreases mappings@.len() - k,
{
    if k == mappings.len() {
        let r = String::new();
        assert(r@ =~= Seq::<char>::empty());
        return Ok(r);
    }
    match (mappings[k].host, mappings[k].target) {
        (None, _) => {
            let mut e = text::own("service '");
            e.append(name);
            e.append("' has an unallocated port");
            Err(e)
        },
        (_, None) => {
            let mut e = text::own("service '");
            e.append(name);
            e.append("' has a port without a container-side target");
            Err(e)
        },
        (Some(host), Some(target)) => match write_mappings(name, mappings, k + 1) {
            Err(e) => Err(e),
            Ok(rest) => {
                let mut r = text::own("      - \"127.0.0.1:");
                r.append(&text::decimal(host as u64));
                r.append(":");
                r.append(&text::decimal(target as u64));
                r.append("\"\n");
                r.append(&rest);
                Ok(r)
            },
        },
    }
}

fn write_labels(g: &ComposeGroup, name: &str) -> (r: String)
    ensures
        r@ == label_lines(g@, name@),
{
    let mut r = text::own("  \"");
    r.append(name);
    r.append("\":\n    labels:\n      magictree.worktree: \"");
    r.append(&g.worktree_path);
    r.append("\"\n      magictree.project: \"");
    r.append(&g.project);
    r.append("\"\n      magictree.repo: \"");
    r.append(&g.repo_key);
    r.append("\"\n");
    r
}

fn scalar(value: &str) -> (r: String)
    ensures
        r@ == scalar_of(value@),
{
    let value = text::replace(value, '\\', "\\\\");
    let value = text::replace(&value, '"', "\\\"");
    let value = text::replace(&value, '\n', "\\n");
    let mut r = text::own("\"");
    r.append(&text::replace(&value, '$', "$$"));
    r.append("\"");
    r
}

fn write_environment(vars: &Vec<(String, String)>) -> (r: String)
    ensures
        r@ == environment_lines(text::pair_views(vars@)),
{
    let ghost all = text::pair_views(vars@);
    if vars.len() == 0 {
        let r = String::new();
        assert(r@ =~= Seq::<char>::empty());
        return r;
    }
    let mut lines = String::new();
    let mut k: usize = 0;
    assert(lines@ =~= Seq::<char>::empty());
    while k < vars.len()
        invariant
            all == text::pair_views(vars@),
            k <= vars@.len(),
            lines@ == variable_lines(all, k as int),
        decreases vars@.len() - k,
    {
        assert(all[k as int] == (vars@[k as int].0@, vars@[k as int].1@));
        lines.append("      ");
        lines.append(&scalar(&vars[k].0));
        lines.append(": ");
        lines.append(&scalar(&vars[k].1));
        lines.append("\n");
        k += 1;
    }
    text::concat("    environment:\n", &lines)
}

fn write_service(g: &ComposeGroup, s: &GroupService) -> (r: Result<String, String>)
    ensures
        match r {
            Ok(t) => service_lines(g@, s@) == Ok::<Seq<char>, Seq<char>>(t@),
            Err(e) => service_lines(g@, s@) == Err::<Seq<char>, Seq<char>>(e@),
        },
{
    let mut out = write_labels(g, &s.name);
    if s.expose == Expose::Port && s.mappings.len() > 0 {
        match write_mappings(&s.name, &s.mappings, 0) {
            Err(e) => Err(e),
            Ok(lines) => {
                out.append("    ports: !override\n");
                out.append(&lines);
                out.append(&write_environment(&s.environment));
                Ok(out)
            },
        }
    } else {
        out.append("    ports: !reset []\n");
        Ok(out)
    }
}

fn write_services(g: &ComposeGroup, k: usize) -> (r: Result<String, String>)
    requires
        k <= g.services@.len(),
    ensures
        match r {
            Ok(t) => override_lines(g@, k as int) == Ok::<Seq<char>, Seq<char>>(t@),
            Err(e) => override_lines(g@, k as int) == Err::<Seq<char>, Seq<char>>(e@),
        },
    decreases g.services@.len() - k,
{
    if k == g.services.len() {
        let r = String::new();
        assert(r@ =~= Seq::<char>::empty());
        return Ok(r);
    }
    match write_service(g, &g.services[k]) {
        Err(e) => Err(e),
        Ok(lines) => match write_services(g, k + 1) {
            Err(e) => Err(e),
            Ok(rest) => {
                let mut r = lines;
                r.append(&rest);
                Ok(r)
            },
        },
    }
}

/// The generated override for one compose file. The repository's compose file is never modified.
/// The service label records which worktree the stack belongs to so `gc` can find leftovers after
/// the checkout is gone.
pub fn write_override(group: &ComposeGroup) -> (r: Result<String, String>)
    ensures
        match r {
            Ok(t) => override_of(group@) == Ok::<Seq<char>, Seq<char>>(t@),
            Err(e) => override_of(group@) == Err::<Seq<char>, Seq<char>>(e@),
        },
{
    match write_services(group, 0) {
        Err(e) => Err(e),
        Ok(lines) => Ok(
            text::concat("# generated by magictree - do not edit\nservices:\n", &lines),
        ),
    }
}

/// The variables among the first `k` entries of an environment that target a local port with an
/// alias, with the alias in their URLs.
pub open spec fn aliased_upto(
    entries: Seq<(Value, Value)>,
    aliases: Seq<(u16, Seq<char>)>,
    k: int,
) -> Seq<(Seq<char>, Seq<char>)>
    decreases k,
{
    if k <= 0 {
        Seq::empty()
    } else {
        let before = aliased_upto(entries, aliases, k - 1);
        match (entries[k - 1].0.text_of(), entries[k - 1].1.text_of()) {
            (Some(key), Some(value)) => match env::rewrite_of(value, aliases) {
                Some(rewritten) => before.push((key, rewritten)),
                None => before,
            },
            _ => before,
        }
    }
}

/// The environment of a service in a resolved compose configuration.
pub open spec fn environment_of(config: Value, name: Seq<char>) -> Seq<(Value, Value)> {
    match config.get_of("services"@) {
        Some(services) => match services.get_of(name) {
            Some(service) => service.entries_under("environment"@),
            None => Seq::empty(),
        },
        None => Seq::empty(),
    }
}

/// A service with the aliases in its environment. Only a service that publishes a port gets them: a
/// browser resolves the alias by itself, and the processes of a service that no browser reaches do
/// not.
pub open spec fn aliased_service(
    s: GroupServiceView,
    config: Value,
    aliases: Seq<(u16, Seq<char>)>,
) -> GroupServiceView {
    if s.expose == Expose::Port && s.mappings.len() > 0 {
        let entries = environment_of(config, s.name);
        GroupServiceView { environment: aliased_upto(entries, aliases, entries.len() as int), ..s }
    } else {
        s
    }
}

/// A group with the aliases in the environments of its services.
pub open spec fn aliased_group(
    g: ComposeGroupView,
    config: Value,
    aliases: Seq<(u16, Seq<char>)>,
) -> ComposeGroupView {
    ComposeGroupView {
        services: Seq::new(
            g.services.len(),
            |i: int| aliased_service(g.services[i], config, aliases),
        ),
        ..g
    }
}

fn find_environment<'a>(config: &'a Value, name: &str) -> (r: Option<&'a Value>)
    ensures
        match r {
            Some(v) => environment_of(*config, name@) == v.entries_of(),
            None => environment_of(*config, name@) == Seq::<(Value, Value)>::empty(),
        },
{
    match config.get("services") {
        Some(services) => match services.get(name) {
            Some(service) => service.get("environment"),
            None => None,
        },
        None => None,
    }
}

fn alias_variables(environment: &Value, aliases: &Vec<Alias>) -> (r: Vec<(String, String)>)
    ensures
        text::pair_views(r@) == aliased_upto(
            environment.entries_of(),
            env::alias_views(aliases@),
            environment.entries_of().len() as int,
        ),
{
    let ghost entries = environment.entries_of();
    let ghost hosts = env::alias_views(aliases@);
    let n: usize = environment.entry_count();
    let mut out: Vec<(String, String)> = Vec::new();
    let mut k: usize = 0;
    assert(text::pair_views(out@) =~= Seq::<(Seq<char>, Seq<char>)>::empty());
    while k < n
        invariant
            entries == environment.entries_of(),
            hosts == env::alias_views(aliases@),
            n == entries.len(),
            k <= n,
            text::pair_views(out@) == aliased_upto(entries, hosts, k as int),
        decreases n - k,
    {
        broadcast use text::pair_views_push;

        match (environment.key(k).as_text(), environment.under(k).as_text()) {
            (Some(key), Some(value)) => {
                if let Some(rewritten) = env::rewrite_localhost_urls(value, aliases) {
                    out.push((key.clone(), rewritten));
                }
            },
            _ => {},
        }
        k += 1;
    }
    out
}

/// A group with the aliases in the environments of its services, given the configuration that
/// `docker compose config --format json` resolves.
pub fn with_aliases(group: &ComposeGroup, config: &str, aliases: &Vec<Alias>) -> (r: Result<
    ComposeGroup,
    String,
>)
    ensures
        match r {
            Ok(g) => value::json_value(config@) matches Some(v) && g@ == aliased_group(
                group@,
                v,
                env::alias_views(aliases@),
            ),
            Err(e) => value::json_value(config@) is None && e@
                == "parsing docker compose config output"@,
        },
{
    let document = match value::parse_json(config) {
        Some(v) => v,
        None => {
            return Err(text::own("parsing docker compose config output"));
        },
    };
    let ghost goal = aliased_group(group@, document, env::alias_views(aliases@)).services;
    let mut services: Vec<GroupService> = Vec::new();
    let mut k: usize = 0;
    assert(text::views(services@) =~= goal.take(0));
    while k < group.services.len()
        invariant
            goal == aliased_group(group@, document, env::alias_views(aliases@)).services,
            k <= group.services@.len(),
            text::views(services@) == goal.take(k as int),
        decreases group.services@.len() - k,
    {
        broadcast use text::views_push;

        let own = &group.services[k];
        assert(group@.services[k as int] == own@);
        let mut service = own.clone();
        if service.expose == Expose::Port && service.mappings.len() > 0 {
            service.environment = match find_environment(&document, &service.name) {
                Some(environment) => alias_variables(environment, aliases),
                None => Vec::new(),
            };
            assert(text::pair_views(service.environment@) =~= aliased_upto(
                environment_of(document, own@.name),
                env::alias_views(aliases@),
                environment_of(document, own@.name).len() as int,
            ));
        }
        services.push(service);
        k += 1;
        assert(text::views(services@) =~= goal.take(k as int));
    }
    assert(goal.take(k as int) =~= goal);
    Ok(
        ComposeGroup {
            file: group.file.clone(),
            project: group.project.clone(),
            worktree_path: group.worktree_path.clone(),
            repo_key: group.repo_key.clone(),
            services,
        },
    )
}

/// The environment of a service that publishes nothing stays as its compose file gives it.
pub proof fn unreachable_services_keep_localhost(
    g: ComposeGroupView,
    config: Value,
    aliases: Seq<(u16, Seq<char>)>,
    i: int,
)
    requires
        0 <= i < g.services.len(),
        g.services[i].expose != Expose::Port || g.services[i].mappings.len() == 0,
    ensures
        aliased_group(g, config, aliases).services[i] == g.services[i],
{
}

/// A group is written exactly when every port of every service that publishes is allocated and
/// has a container side.
pub proof fn overrides_need_both_sides(g: ComposeGroupView)
    ensures
        override_of(g) is Ok <==> forall|i: int, j: int|
            0 <= i < g.services.len() && 0 <= j < g.services[i].mappings.len()
                && g.services[i].expose == Expose::Port ==> (
            #[trigger] g.services[i].mappings[j]).host is Some && g.services[i].mappings[j].target is Some,
{
    services_need_both_sides(g, 0);
}

proof fn services_need_both_sides(g: ComposeGroupView, k: int)
    requires
        0 <= k <= g.services.len(),
    ensures
        override_lines(g, k) is Ok <==> forall|i: int, j: int|
            k <= i < g.services.len() && 0 <= j < g.services[i].mappings.len()
                && g.services[i].expose == Expose::Port ==> (
            #[trigger] g.services[i].mappings[j]).host is Some && g.services[i].mappings[j].target is Some,
    decreases g.services.len() - k,
{
    if k < g.services.len() {
        services_need_both_sides(g, k + 1);
        mappings_need_both_sides(g.services[k].name, g.services[k].mappings, 0);
    }
}

proof fn mappings_need_both_sides(name: Seq<char>, mappings: Seq<PortMappingView>, k: int)
    requires
        0 <= k <= mappings.len(),
    ensures
        mapping_lines(name, mappings, k) is Ok <==> forall|j: int|
            k <= j < mappings.len() ==> (#[trigger] mappings[j]).host is Some
                && mappings[j].target is Some,
    decreases mappings.len() - k,
{
    if k < mappings.len() {
        mappings_need_both_sides(name, mappings, k + 1);
    }
}

/// Whether an entry says a text under a key, in either spelling, the first before the second.
pub open spec fn says_text(v: Value, first: Seq<char>, second: Seq<char>, said: Seq<char>) -> bool {
    match v.get_of(first) {
        Some(found) => found.text_of() == Some(said),
        None => v.get_of(second) matches Some(found) && found.text_of() == Some(said),
    }
}

/// A container is what its entry says: its service, its state, its health where there is any, and the
/// code that it ended with, written as a number or as text.
pub proof fn containers_are_what_their_entries_say(v: Value, said: Seq<char>)
    ensures
        says_text(v, "Service"@, "service"@, said) ==> container_of(v).service == said,
        says_text(v, "State"@, "state"@, said) ==> container_of(v).state == said,
        says_text(v, "Health"@, "health"@, said) ==> container_of(v).health == (if said.len() > 0 {
            Some(said)
        } else {
            None
        }),
        v.get_of("Health"@) is None && v.get_of("health"@) is None ==> container_of(v).health
            is None,
        v.get_of("ExitCode"@) matches Some(Value::Number(n)) ==> container_of(v).exit_code
            == text::signed_of(n@),
        v.get_of("ExitCode"@) matches Some(Value::Text(n)) ==> container_of(v).exit_code
            == text::signed_of(n@),
        v.get_of("ExitCode"@) is None && v.get_of("exitCode"@) is None && v.get_of("exit_code"@)
            is None ==> container_of(v).exit_code is None,
{
}

/// A list of containers is read one for one, and in its order; nothing at all is no container.
pub proof fn listed_containers_are_read(raw: Seq<char>, entries: Vec<Value>)
    requires
        text::trim_of(raw).len() > 0,
        text::trim_of(raw)[0] == '[',
        value::json_value(text::trim_of(raw)) == Some(Value::List(entries)),
    ensures
        parse_ps_of(raw) matches Ok(r) && r.len() == entries@.len() && forall|i: int|
            0 <= i < r.len() ==> #[trigger] r[i] == container_of(entries@[i]),
        forall|blank: Seq<char>|
            text::trim_of(blank).len() == 0 ==> #[trigger] parse_ps_of(blank) == Ok::<
                Seq<ContainerStateView>,
                Seq<char>,
            >(Seq::empty()),
{
}

proof fn built_services(entries: Seq<(Value, Value)>, k: int, name: Seq<char>)
    requires
        0 <= k <= entries.len(),
    ensures
        built_from(entries, k).contains(name) <==> exists|i: int|
            k <= i < entries.len() && (#[trigger] entries[i]).0.text_of() == Some(name)
                && entries[i].1.get_of("build"@) is Some,
    decreases entries.len() - k,
{
    if k < entries.len() {
        built_services(entries, k + 1, name);
        let rest = built_from(entries, k + 1);
        let now = built_from(entries, k);
        if let Some(own) = entries[k].0.text_of() {
            if entries[k].1.get_of("build"@) is Some {
                assert(now == seq![own] + rest);
                assert(now[0] == own);
                if rest.contains(name) {
                    let i = choose|i: int| 0 <= i < rest.len() && rest[i] == name;
                    assert(now[i + 1] == name);
                }
                if now.contains(name) && own != name {
                    let i = choose|i: int| 0 <= i < now.len() && now[i] == name;
                    assert(rest[i - 1] == name);
                }
            } else {
                assert(now =~= rest);
            }
        } else {
            assert(now =~= rest);
        }
    }
}

/// The services that are built are exactly those whose configuration has a build.
pub proof fn built_services_have_a_build(config: Seq<char>, v: Value, name: Seq<char>)
    requires
        value::json_value(config) == Some(v),
    ensures
        services_with_build_of(config) matches Ok(r) && (r.contains(name) <==> exists|i: int|
            0 <= i < v.entries_under("services"@).len() && (
            #[trigger] v.entries_under("services"@)[i]).0.text_of() == Some(name)
                && v.entries_under("services"@)[i].1.get_of("build"@) is Some),
{
    built_services(v.entries_under("services"@), 0, name);
}

/// A runner calls compose with its own file, its override where there is one, and its own project,
/// before what it is asked to do; and `up` starts just the services that are named.
pub proof fn runners_call_their_own_project(
    r: ComposeRunnerView,
    has_override: bool,
    args: Seq<Seq<char>>,
    services: Seq<Seq<char>>,
    build: bool,
)
    ensures
        ({
            let a = r.arguments(has_override, args);
            let n = a.len() as int;
            let m = args.len() as int;
            &&& a[0] == "compose"@ && a[1] == "-f"@ && a[2] == r.file
            &&& a[n - m - 2] == "-p"@ && a[n - m - 1] == r.project
            &&& a.skip(n - m) == args
            &&& has_override && r.override_file is Some ==> n == m + 7 && a[3] == "-f"@ && a[4]
                == r.override_file.unwrap()
            &&& !has_override || r.override_file is None ==> n == m + 5
        }),
        ({
            let a = up_arguments(services, build);
            &&& a[0] == "up"@ && a[1] == "-d"@
            &&& a.skip(a.len() - services.len()) == services
            &&& build ==> a[2] == "--build"@ && a.len() == services.len() + 3
            &&& !build ==> a.len() == services.len() + 2
        }),
{
    let a = r.arguments(has_override, args);
    assert(a.skip(a.len() - args.len()) =~= args);
    let b = up_arguments(services, build);
    assert(b.skip(b.len() - services.len()) =~= services);
}

proof fn rewritten_entries(
    entries: Seq<(Value, Value)>,
    aliases: Seq<(u16, Seq<char>)>,
    k: int,
    key: Seq<char>,
    value: Seq<char>,
)
    requires
        0 <= k <= entries.len(),
    ensures
        aliased_upto(entries, aliases, k).contains((key, value)) <==> exists|i: int|
            0 <= i < k && (#[trigger] entries[i]).0.text_of() == Some(key) && (
            entries[i].1.text_of() matches Some(raw) && env::rewrite_of(raw, aliases) == Some(
                value,
            )),
    decreases k,
{
    if k > 0 {
        rewritten_entries(entries, aliases, k - 1, key, value);
        let before = aliased_upto(entries, aliases, k - 1);
        let now = aliased_upto(entries, aliases, k);
        if let (Some(own), Some(raw)) = (entries[k - 1].0.text_of(), entries[k - 1].1.text_of()) {
            if let Some(rewritten) = env::rewrite_of(raw, aliases) {
                assert(now[before.len() as int] == (own, rewritten));
                if before.contains((key, value)) {
                    let i = choose|i: int| 0 <= i < before.len() && before[i] == (key, value);
                    assert(now[i] == (key, value));
                }
                if now.contains((key, value)) && (own, rewritten) != (key, value) {
                    let i = choose|i: int| 0 <= i < now.len() && now[i] == (key, value);
                    assert(before[i] == (key, value));
                }
            }
        }
    }
}

/// A service that publishes ports has exactly those variables of its compose file set anew that name
/// an address which goes by another host, and to that host.
pub proof fn published_services_go_by_their_host(
    g: ComposeGroupView,
    config: Value,
    aliases: Seq<(u16, Seq<char>)>,
    i: int,
    key: Seq<char>,
    value: Seq<char>,
)
    requires
        0 <= i < g.services.len(),
        g.services[i].expose == Expose::Port,
        g.services[i].mappings.len() > 0,
    ensures
        ({
            let entries = environment_of(config, g.services[i].name);
            let own = aliased_group(g, config, aliases).services[i];
            &&& own.name == g.services[i].name
            &&& own.mappings == g.services[i].mappings
            &&& own.environment.contains((key, value)) <==> exists|j: int|
                0 <= j < entries.len() && (#[trigger] entries[j]).0.text_of() == Some(key) && (
                entries[j].1.text_of() matches Some(raw) && env::rewrite_of(raw, aliases) == Some(
                    value,
                ))
        }),
{
    let entries = environment_of(config, g.services[i].name);
    rewritten_entries(entries, aliases, entries.len() as int, key, value);
}

/// What a quoted YAML scalar of a compose file says: a backslash stands for the character behind it,
/// or for a line break, and two dollars stand for one.
pub open spec fn scalar_reads(s: Seq<char>) -> Seq<char>
    decreases s.len(),
{
    if s.len() == 0 {
        Seq::empty()
    } else if s[0] == '\\' && s.len() > 1 {
        seq![
            if s[1] == 'n' {
                '\n'
            } else {
                s[1]
            },
        ] + scalar_reads(s.skip(2))
    } else if s[0] == '$' && s.len() > 1 && s[1] == '$' {
        seq!['$'] + scalar_reads(s.skip(2))
    } else {
        seq![s[0]] + scalar_reads(s.skip(1))
    }
}

/// The inside of a quoted scalar.
spec fn inner_scalar(value: Seq<char>) -> Seq<char> {
    let slashes = text::replace_of(value, '\\', "\\\\"@);
    let quotes = text::replace_of(slashes, '"', "\\\""@);
    let breaks = text::replace_of(quotes, '\n', "\\n"@);
    text::replace_of(breaks, '$', "$$"@)
}

/// How a character is written in a quoted scalar.
spec fn written_char(x: char) -> Seq<char> {
    if x == '\\' {
        seq!['\\', '\\']
    } else if x == '"' {
        seq!['\\', '"']
    } else if x == '\n' {
        seq!['\\', 'n']
    } else if x == '$' {
        seq!['$', '$']
    } else {
        seq![x]
    }
}

proof fn untouched_pair(a: char, b: char, c: char, with: Seq<char>)
    requires
        a != c,
        b != c,
    ensures
        text::replace_of(seq![a, b], c, with) == seq![a, b],
{
    assert(seq![a, b] =~= seq![a] + seq![b]);
    text::replaced_in_parts(seq![a], seq![b], c, with);
    text::one_replaced(a, c, with);
    text::one_replaced(b, c, with);
}

proof fn scalars_are_written(x: char, rest: Seq<char>)
    ensures
        inner_scalar(seq![x] + rest) == written_char(x) + inner_scalar(rest),
{
    reveal_strlit("\\\\");
    reveal_strlit("\\\"");
    reveal_strlit("\\n");
    reveal_strlit("$$");
    assert("\\\\"@ =~= seq!['\\', '\\']);
    assert("\\\""@ =~= seq!['\\', '"']);
    assert("\\n"@ =~= seq!['\\', 'n']);
    assert("$$"@ =~= seq!['$', '$']);
    let r1 = text::replace_of(rest, '\\', "\\\\"@);
    let r2 = text::replace_of(r1, '"', "\\\""@);
    let r3 = text::replace_of(r2, '\n', "\\n"@);
    text::replaced_in_parts(seq![x], rest, '\\', "\\\\"@);
    text::one_replaced(x, '\\', "\\\\"@);
    let p1 = text::replace_of(seq![x], '\\', "\\\\"@);
    text::replaced_in_parts(p1, r1, '"', "\\\""@);
    let p2 = text::replace_of(p1, '"', "\\\""@);
    text::replaced_in_parts(p2, r2, '\n', "\\n"@);
    let p3 = text::replace_of(p2, '\n', "\\n"@);
    text::replaced_in_parts(p3, r3, '$', "$$"@);
    let p4 = text::replace_of(p3, '$', "$$"@);
    if x == '\\' {
        untouched_pair('\\', '\\', '"', "\\\""@);
        untouched_pair('\\', '\\', '\n', "\\n"@);
        untouched_pair('\\', '\\', '$', "$$"@);
    } else if x == '"' {
        text::one_replaced(x, '"', "\\\""@);
        untouched_pair('\\', '"', '\n', "\\n"@);
        untouched_pair('\\', '"', '$', "$$"@);
    } else if x == '\n' {
        text::one_replaced(x, '"', "\\\""@);
        text::one_replaced(x, '\n', "\\n"@);
        untouched_pair('\\', 'n', '$', "$$"@);
    } else {
        text::one_replaced(x, '"', "\\\""@);
        text::one_replaced(x, '\n', "\\n"@);
        text::one_replaced(x, '$', "$$"@);
    }
    assert(p4 == written_char(x));
}

proof fn inner_scalars_are_read(value: Seq<char>)
    ensures
        scalar_reads(inner_scalar(value)) == value,
    decreases value.len(),
{
    if value.len() == 0 {
        assert(inner_scalar(value) =~= Seq::<char>::empty());
        assert(scalar_reads(Seq::<char>::empty()) =~= value);
    } else {
        let x = value[0];
        let rest = value.skip(1);
        assert(value =~= seq![x] + rest);
        scalars_are_written(x, rest);
        inner_scalars_are_read(rest);
        let after = inner_scalar(rest);
        let whole = written_char(x) + after;
        if x == '\\' || x == '"' || x == '\n' || x == '$' {
            assert(whole.skip(2) =~= after);
            assert(whole[0] == written_char(x)[0] && whole[1] == written_char(x)[1]);
        } else {
            assert(whole.skip(1) =~= after);
            assert(whole[0] == x);
        }
        assert(scalar_reads(whole) == seq![x] + scalar_reads(after));
    }
}

/// A value reaches a container as it is: it is written between quotes, and reading it, with its escapes
/// and its dollars, gives it back.
pub proof fn scalars_are_read_back(value: Seq<char>)
    ensures
        scalar_of(value).len() >= 2,
        scalar_of(value)[0] == '"',
        scalar_of(value).last() == '"',
        scalar_reads(scalar_of(value).subrange(1, scalar_of(value).len() - 1)) == value,
{
    reveal_strlit("\"");
    let s = scalar_of(value);
    assert(s.subrange(1, s.len() - 1) =~= inner_scalar(value));
    inner_scalars_are_read(value);
}

/// Starting services brings up those services in the background, and builds images just where asked to;
/// stopping one removes nothing; and data goes with the containers just where asked to.
pub proof fn compose_does_what_is_asked(
    services: Seq<Seq<char>>,
    build: bool,
    service: Seq<char>,
    volumes: bool,
)
    requires
        !services.contains("--build"@),
    ensures
        up_arguments(services, build)[0] == "up"@,
        up_arguments(services, build)[1] == "-d"@,
        up_arguments(services, build).contains("--build"@) <==> build,
        forall|i: int|
            0 <= i < services.len() ==> up_arguments(services, build).contains(
                #[trigger] services[i],
            ),
        up_arguments(services, build).len() == services.len() + (if build {
            3int
        } else {
            2
        }),
        stop_arguments(service).len() == 2,
        stop_arguments(service)[0] == "stop"@,
        stop_arguments(service)[1] == service,
        down_arguments(volumes)[0] == "down"@,
        down_arguments(volumes).contains("--remove-orphans"@),
        down_arguments(volumes).contains("--volumes"@) <==> volumes,
        down_arguments(volumes).len() == (if volumes {
            3int
        } else {
            2
        }),
{
    reveal_strlit("up");
    reveal_strlit("-d");
    reveal_strlit("--build");
    reveal_strlit("down");
    reveal_strlit("--remove-orphans");
    reveal_strlit("--volumes");
    let up = up_arguments(services, build);
    let head: int = if build {
        3
    } else {
        2
    };
    assert forall|i: int| 0 <= i < services.len() implies up.contains(#[trigger] services[i]) by {
        assert(up[head + i] == services[i]);
    }
    if build {
        assert(up[2] == "--build"@);
    } else if up.contains("--build"@) {
        let i = choose|i: int| 0 <= i < up.len() && up[i] == "--build"@;
        assert("up"@.len() != "--build"@.len());
        assert("-d"@.len() != "--build"@.len());
        assert(services[i - 2] == "--build"@);
    }
    let down = down_arguments(volumes);
    assert(down[1] == "--remove-orphans"@);
    if volumes {
        assert(down[2] == "--volumes"@);
    } else {
        assert("down"@.len() != "--volumes"@.len());
        assert("--remove-orphans"@.len() != "--volumes"@.len());
    }
}

} // verus!
