use magictree::cli::show::{
    container_status, port_report, ports_preview, print_summary, process_status, release_lines,
    status_line, status_probe,
};
use magictree::cli::start::{
    batch_failure, batch_stands, buildable_services, down_preview, happening, restart_calls,
    restart_preview, running_service, stale_line, start_at, stop_order, BuildStep, Built, Happening, Running, Seen,
    StartStep,
};
use magictree::cli::wait::{readiness, wait_container, wait_for_exit, WaitFor};
use magictree::cli::{
    announces, build_mode, changes_mode, compose_build, env_text, exit_code, follow_from,
    reconciles, restart_selection, running_refusal, shell_join, BuildChoice, EnvArgs,
};
use magictree::compose::{ComposeRunner, ContainerState};
use magictree::config::{BuildMode, Config, ReconcileMode};
use magictree::ctx::{legacy_runtime_dir, runtime_dir_for, Ctx, ProcessReport};
use magictree::dict::Dict;
use magictree::dryrun::{self, Presence};
use magictree::health::PollStep;
use magictree::manifest::{
    Bootstrap, ComposeRef, Expose, Found, Health, Job, Loaded, Manifest, PortSpec, Reading, RunStep,
    Service, Wait, When, Workspace, MANIFEST_VERSION,
};
use magictree::paths::Paths;
use magictree::ports::{Assignment, PortMode, ASSIGNMENT_VERSION};
use magictree::repo::Repo;

fn strings(list: &[&str]) -> Vec<String> {
    list.iter().map(|item| item.to_string()).collect()
}

fn manifest(services: Vec<Service>) -> Manifest {
    Manifest {
        version: MANIFEST_VERSION,
        workspace: None,
        app: None,
        env: Dict::new(),
        bootstrap: Bootstrap { sync: Vec::new(), run: Vec::new(), after: Vec::new() },
        services,
        jobs: Dict::new(),
    }
}

fn port(prefer: u16, env: Option<&str>, alias: bool) -> PortSpec {
    PortSpec {
        name: None,
        target: Some(80),
        env: env.map(str::to_string),
        prefer: Some(prefer),
        require: None,
        browser_alias: alias,
    }
}

fn host(id: &str, needs: &[&str]) -> Service {
    Service {
        id: id.to_string(),
        runtime: None,
        compose: None,
        target: None,
        command: Some(format!("run {id}")),
        port: Some(port(3000, Some("WEB_PORT"), true)),
        ports: Vec::new(),
        expose: Expose::Port,
        needs: strings(needs),
        health: Some(Health {
            http: Some("/health".to_string()),
            tcp: None,
            command: None,
            timeout: None,
        }),
        wait: Wait::Running,
    }
}

fn container(id: &str, wait: Wait, prefer: Option<u16>) -> Service {
    Service {
        id: id.to_string(),
        runtime: None,
        compose: Some(ComposeRef { file: "compose.yml".to_string(), service: format!("{id}-c") }),
        target: None,
        command: None,
        port: prefer.map(|prefer| port(prefer, None, false)),
        ports: Vec::new(),
        expose: if prefer.is_some() { Expose::Port } else { Expose::Nothing },
        needs: Vec::new(),
        health: None,
        wait,
    }
}

/// A workspace with a database, an initialiser and an app.
fn stack(primary: bool, cwd: &str) -> Ctx {
    let mut root = manifest(vec![
        container("db", Wait::Running, Some(5432)),
        container("init", Wait::Exit, None),
    ]);
    root.workspace = Some(Workspace { apps: strings(&["web"]) });
    root.jobs.insert(
        "seed".to_string(),
        Job { run: "just seed".to_string(), when: When::Up, needs: strings(&["db"]) },
    );
    root.bootstrap.sync = strings(&["node_modules"]);
    root.bootstrap.run = vec![RunStep::Detailed {
        command: "npm ci".to_string(),
        inputs: strings(&["package-lock.json"]),
        outputs: strings(&["node_modules"]),
        ask: false,
    }];
    let mut app = manifest(vec![host("web", &["db"])]);
    app.env.insert("URL".to_string(), "http://localhost:${WEB_PORT}/".to_string());
    let found = vec![
        Found { dir: "/repo".to_string(), reading: Reading::Parsed(root) },
        Found { dir: "/repo/web".to_string(), reading: Reading::Parsed(app) },
    ];
    let git_dir = if primary { "/repo/.git" } else { "/main/.git/worktrees/x" };
    let common = if primary { "/repo/.git" } else { "/main/.git" };
    Ctx::load(
        Paths { state_dir: "/s".to_string(), config_dir: "/c".to_string() },
        Config::default(),
        Repo::open("/repo".to_string(), common.to_string(), git_dir.to_string()),
        "/rt".to_string(),
        Loaded::load(cwd, &found).expect("manifests"),
    )
    .expect("stack")
}

fn assignment(ports: &[(&str, u16)]) -> Assignment {
    let mut out = Assignment {
        version: ASSIGNMENT_VERSION,
        repo_key: "k".to_string(),
        worktree_id: "main".to_string(),
        worktree_path: None,
        base: 20000,
        mode: PortMode::Declared,
        ports: Dict::new(),
    };
    for (name, port) in ports {
        out.ports.insert(name.to_string(), *port);
    }
    out
}

fn assigned() -> Assignment {
    assignment(&[("db", 5432), ("web:web", 3000)])
}

fn names(ctx: &Ctx, selection: &[usize]) -> Vec<String> {
    selection.iter().map(|index| ctx.nodes[*index].qual()).collect()
}

fn state(service: &str, state: &str, health: Option<&str>, exit_code: Option<i64>) -> ContainerState {
    ContainerState {
        service: service.to_string(),
        state: state.to_string(),
        health: health.map(str::to_string),
        exit_code,
    }
}

#[test]
fn a_selection_brings_what_it_needs() {
    let ctx = stack(true, "/repo");
    let all = ctx.scope(&Vec::new(), &Vec::new(), false).expect("scope");
    assert_eq!(names(&ctx, &all), strings(&["db", "init", "seed", "web:web"]));
    let web = ctx.scope(&strings(&["web"]), &Vec::new(), false).expect("scope");
    assert_eq!(names(&ctx, &web), strings(&["db", "init", "seed", "web:web"]));
    let db = ctx.scope(&strings(&["db"]), &Vec::new(), false).expect("scope");
    assert_eq!(names(&ctx, &db), strings(&["db", "seed"]));
    let app = ctx.scope(&Vec::new(), &strings(&["web"]), false).expect("scope");
    assert_eq!(names(&ctx, &app), strings(&["db", "init", "seed", "web:web"]));
    assert_eq!(
        ctx.scope(&strings(&["nope"]), &Vec::new(), false).unwrap_err(),
        "no services matched the given selectors"
    );
}

#[test]
fn standing_in_an_app_keeps_the_shared_services() {
    let ctx = stack(true, "/repo/web");
    let here = ctx.scope(&Vec::new(), &Vec::new(), false).expect("scope");
    assert_eq!(names(&ctx, &here), strings(&["db", "init", "seed", "web:web"]));
    assert_eq!(ctx.loaded.current_app.as_deref(), Some("web"));
}

#[test]
fn ports_are_requested_under_qualified_names() {
    let ctx = stack(true, "/repo");
    let requests = ctx.port_requests(&ctx.all_service_indices());
    let keys: Vec<(String, Option<u16>)> =
        requests.into_iter().map(|request| (request.name, request.prefer)).collect();
    assert_eq!(
        keys,
        vec![("db".to_string(), Some(5432)), ("web:web".to_string(), Some(3000))]
    );
    let web = ctx.find_node("web").expect("web");
    assert_eq!(ctx.port_key(web, &Some("admin".to_string())), "web:web:admin");
    assert_eq!(ctx.port_var_name(web, &None), "MAGICTREE_PORT_web_web");
}

#[test]
fn the_environment_publishes_every_port() {
    let ctx = stack(true, "/repo");
    let plan = ctx.build_env(&Some("web".to_string()), &assigned()).expect("env");
    let value = |name: &str| plan.vars.get(name).cloned();
    assert_eq!(value("WEB_PORT").as_deref(), Some("3000"));
    assert_eq!(value("MAGICTREE_PORT_db").as_deref(), Some("5432"));
    assert_eq!(value("MAGICTREE_SLUG").as_deref(), Some("main"));
    assert_eq!(value("COMPOSE_PROJECT_NAME").as_deref(), Some("main"));
    // The app marks its port, so its own URL names the alias.
    assert_eq!(value("URL").as_deref(), Some("http://main.localhost:3000/"));

    let preview = ctx.preview_plan(&Some("web".to_string()), Some(PortMode::Block)).expect("env");
    assert_eq!(preview.vars.get("WEB_PORT").map(String::as_str), Some("<allocated>"));
    let declared = ctx.preview_plan(&None, None).expect("env");
    assert_eq!(declared.vars.get("WEB_PORT").map(String::as_str), Some("3000"));
}

#[test]
fn an_app_must_not_set_a_published_variable() {
    let mut ctx = stack(true, "/repo");
    ctx.loaded.workspace.env.insert("WEB_PORT".to_string(), "1".to_string());
    assert_eq!(
        ctx.build_env(&None, &assigned()).unwrap_err(),
        "workspace [env] sets 'WEB_PORT', which service 'web:web' publishes in port.env; magictree already sets it for the whole stack, so remove the line"
    );
}

#[test]
fn runtime_state_has_one_home() {
    let mut ctx = stack(true, "/repo");
    assert_eq!(runtime_dir_for(&ctx.paths, &ctx.repo, false, true), legacy_runtime_dir(&ctx.repo));
    let current = runtime_dir_for(&ctx.paths, &ctx.repo, false, false);
    assert_eq!(current, format!("/s/worktrees/{}/main", ctx.repo.key()));
    assert_eq!(ctx.adopt_legacy_runtime(), Some(("/rt".to_string(), current.clone())));
    assert_eq!(ctx.runtime_dir, current);
    assert_eq!(ctx.adopt_legacy_runtime(), None);
}

#[test]
fn compose_services_of_a_project_start_together() {
    let ctx = stack(true, "/repo");
    let selection = ctx.scope(&Vec::new(), &Vec::new(), false).expect("scope");
    let runners = ctx.compose_runners(&selection, &assigned()).expect("runners");
    assert_eq!(runners.len(), 1);
    assert_eq!(runners[0].runner.file, "/repo/compose.yml");
    assert!(runners[0].contents.contains("\"127.0.0.1:5432:80\""));

    let first = start_at(&ctx, &selection, 0, &assigned(), &runners, false).expect("start");
    assert!(matches!(
        &first.step,
        StartStep::Batch { runner: 0, services, .. } if *services == strings(&["db-c", "init-c"])
    ));
    assert_eq!(first.end, 2);
    let second = start_at(&ctx, &selection, 2, &assigned(), &runners, false).expect("start");
    assert!(matches!(&second.step, StartStep::Job { command, .. } if command == "just seed"));
    let third = start_at(&ctx, &selection, 3, &assigned(), &runners, false).expect("start");
    assert!(
        matches!(&third.step, StartStep::Process { command, .. } if command.as_deref() == Some("run web"))
    );
    assert_eq!(third.end, 4);

    let alone = start_at(&ctx, &selection, 0, &assigned(), &runners, true).expect("start");
    assert_eq!(alone.end, 1);
}

#[test]
fn a_compose_file_written_in_two_ways_is_one_group() {
    let mut second = container("cache", Wait::Running, None);
    second.compose = Some(ComposeRef { file: "./compose.yml".to_string(), service: "cache-c".to_string() });
    let mut other = container("mail", Wait::Running, None);
    other.compose = Some(ComposeRef { file: "a/compose.yml".to_string(), service: "mail-c".to_string() });
    let root = manifest(vec![container("db", Wait::Running, None), second, other]);
    let found = vec![Found { dir: "/repo".to_string(), reading: Reading::Parsed(root) }];
    let ctx = Ctx::load(
        Paths { state_dir: "/s".to_string(), config_dir: "/c".to_string() },
        Config::default(),
        Repo::open("/repo".to_string(), "/repo/.git".to_string(), "/repo/.git/".to_string()),
        "/rt".to_string(),
        Loaded::load("/repo", &found).expect("manifests"),
    )
    .expect("stack");
    assert!(ctx.repo.is_main_worktree());
    let selection = ctx.scope(&Vec::new(), &Vec::new(), false).expect("scope");
    let groups = ctx.compose_groups(&selection, &assignment(&[]));
    let files: Vec<&str> = groups.iter().map(|group| group.file.as_str()).collect();
    assert_eq!(files, vec!["/repo/a/compose.yml", "/repo/compose.yml"]);
    let services: Vec<&str> = groups[1].services.iter().map(|service| service.name.as_str()).collect();
    assert_eq!(services, vec!["db-c", "cache-c"]);
    assert_eq!(ctx.compose_identities().len(), 2);
}

#[test]
fn services_stop_in_reverse() {
    let ctx = stack(true, "/repo");
    let order = stop_order(&ctx).expect("order");
    assert_eq!(names(&ctx, &order), strings(&["web:web"]));
    assert_eq!(
        down_preview(&ctx, &order, &vec![Some(7)], true),
        strings(&[
            "dry run: nothing is stopped",
            "would stop web:web (pid 7)",
            "would run docker compose -f /repo/compose.yml -p main down --remove-orphans --volumes",
        ])
    );
    assert_eq!(stale_line(&ctx, &order, "web_web"), None);
    assert_eq!(stale_line(&ctx, &order, "old").as_deref(), Some("old: stopped (stale)"));
}

#[test]
fn a_restart_touches_exactly_what_is_named() {
    let ctx = stack(true, "/repo");
    let selection = restart_selection(&ctx, &strings(&["web", "db"])).expect("selection");
    assert_eq!(names(&ctx, &selection), strings(&["db", "web:web"]));
    let alone = restart_selection(&ctx, &strings(&["web:web"])).expect("selection");
    assert_eq!(names(&ctx, &alone), strings(&["web:web"]));
    assert_eq!(
        restart_selection(&ctx, &strings(&["nope"])).unwrap_err(),
        "unknown service 'nope'"
    );
    assert_eq!(
        restart_selection(&ctx, &strings(&["seed"])).unwrap_err(),
        "'seed' is a job, not a service; only services can be restarted"
    );
    assert_eq!(
        restart_preview(&ctx, &selection, BuildMode::Always, &vec![None, Some(7)]).expect("preview"),
        strings(&[
            "dry run: nothing is restarted",
            "db: would run docker compose -f /repo/compose.yml -p main stop db-c, then up -d --build db-c",
            "web:web: would stop (pid 7), then start again",
        ])
    );
}

#[test]
fn waiting_follows_the_declaration() {
    let ctx = stack(true, "/repo");
    let web = ctx.find_node("web").expect("web");
    assert!(matches!(
        readiness(&ctx, web, &assigned(), false),
        Ok(WaitFor::Http { port: 3000, path, timeout: 60 }) if path == "/health"
    ));
    assert_eq!(
        readiness(&ctx, web, &assignment(&[]), false).unwrap_err(),
        "web:web: health.http needs an allocated port"
    );
    let db = ctx.find_node("db").expect("db");
    assert!(matches!(readiness(&ctx, db, &assigned(), true), Ok(WaitFor::Container { timeout: 60 })));
    let init = ctx.find_node("init").expect("init");
    assert!(matches!(readiness(&ctx, init, &assigned(), true), Ok(WaitFor::Exit { timeout: 600 })));
}

#[test]
fn containers_are_waited_for() {
    let up = vec![state("db-c", "running", Some("healthy"), None)];
    assert!(matches!(wait_container(&up, "db-c", 1, 0), PollStep::Ready));
    let starting = vec![state("db-c", "running", Some("starting"), None)];
    assert!(matches!(wait_container(&starting, "db-c", 1, 0), PollStep::Wait));
    assert!(
        matches!(wait_container(&starting, "db-c", 1, 1000), PollStep::Failed(m) if m == "timed out after 1s waiting for container 'db-c'")
    );
    let failed = vec![state("db-c", "exited", None, Some(3))];
    assert!(
        matches!(wait_container(&failed, "db-c", 1, 0), PollStep::Failed(m) if m == "container exited with status 3 during startup")
    );
    assert!(
        matches!(wait_for_exit(&failed, "db-c", 1, 0), PollStep::Failed(m) if m == "'db-c' exited with status 3")
    );
    let done = vec![state("db-c", "Exited", None, Some(0))];
    assert!(matches!(wait_for_exit(&done, "db-c", 1, 0), PollStep::Ready));
    assert!(matches!(wait_container(&done, "db-c", 1, 0), PollStep::Ready));
    let unknown = vec![state("db-c", "exited", None, None)];
    assert!(matches!(wait_for_exit(&unknown, "db-c", 1, 0), PollStep::Failed(_)));
    assert!(matches!(wait_for_exit(&Vec::new(), "db-c", 1, 999), PollStep::Wait));
}

#[test]
fn a_running_service_is_found_by_looking() {
    let ctx = stack(true, "/repo");
    let mut seen: Vec<Seen> = Vec::new();
    assert!(matches!(running_service(&ctx, &seen), Running::Look(0)));
    seen.push(Seen::Containers(vec![state("db-c", "exited", None, Some(0))]));
    assert!(matches!(running_service(&ctx, &seen), Running::Look(1)));
    seen.push(Seen::Containers(Vec::new()));
    assert!(matches!(running_service(&ctx, &seen), Running::Look(_)));
    seen.push(Seen::Process(false));
    assert!(matches!(running_service(&ctx, &seen), Running::Nothing));
    seen[2] = Seen::Process(true);
    assert!(matches!(running_service(&ctx, &seen), Running::Found(name) if name == "web:web"));
    assert_eq!(
        running_refusal("web:web", "changing"),
        "'web:web' is running; run `magictree down` before changing this worktree's ports"
    );
}

#[test]
fn a_batch_stands_while_its_services_do() {
    let ctx = stack(true, "/repo");
    let mut states =
        vec![state("db-c", "running", None, None), state("init-c", "exited", None, Some(0))];
    assert!(batch_stands(&ctx, &vec![0, 1], &states));
    states[1].exit_code = Some(1);
    assert!(!batch_stands(&ctx, &vec![0, 1], &states));
    assert!(reconciles(ReconcileMode::Always, false, true, &Some("a".to_string()), "a"));
    assert!(!reconciles(ReconcileMode::Auto, false, true, &Some("a".to_string()), "a"));
    assert!(reconciles(ReconcileMode::Auto, true, true, &Some("a".to_string()), "a"));
    assert!(reconciles(ReconcileMode::Auto, false, false, &Some("a".to_string()), "a"));
    assert!(reconciles(ReconcileMode::Auto, false, true, &Some("b".to_string()), "a"));
}

#[test]
fn what_builds_is_asked_for_once() {
    let ctx = stack(true, "/repo");
    let selection = vec![0, 1];
    let runners = ctx.compose_runners(&selection, &assigned()).expect("runners");
    let none: Vec<Built> = Vec::new();
    let step = buildable_services(&ctx, &selection, &assigned(), &runners, &none).expect("step");
    assert!(matches!(step, BuildStep::Resolve { runner: 0, .. }));
    let known = vec![Built { runner: 0, services: strings(&["db-c"]) }];
    let step = buildable_services(&ctx, &selection, &assigned(), &runners, &known).expect("step");
    let BuildStep::Names(found) = step else { panic!("not resolved") };
    assert_eq!(found, strings(&["db"]));
    assert!(
        matches!(compose_build(BuildMode::Ask, &found), BuildChoice::Ask(q) if q == "Build images for db")
    );
    assert!(matches!(compose_build(BuildMode::Ask, &Vec::new()), BuildChoice::Skip));
    assert!(matches!(compose_build(BuildMode::Always, &Vec::new()), BuildChoice::Build));
    assert_eq!(build_mode(BuildMode::Ask, true, false), BuildMode::Always);
    assert_eq!(build_mode(BuildMode::Ask, false, true), BuildMode::Never);
    assert_eq!(build_mode(BuildMode::Ask, false, false), BuildMode::Ask);
}

#[test]
fn a_stack_says_where_it_is_reached() {
    let ctx = stack(true, "/repo");
    let selection = ctx.scope(&Vec::new(), &Vec::new(), false).expect("scope");
    let lines = print_summary(&ctx, &selection, &assigned()).join("\n");
    assert!(lines.contains("db        http://localhost:5432"), "{lines}");
    assert!(lines.contains("web:web   http://localhost:3000"), "{lines}");
    assert!(lines.contains("http://main.localhost:3000"), "{lines}");
    assert!(
        lines.contains("1 service(s) are internal to the stack (expose = \"none\"): init"),
        "{lines}"
    );
    let web = ctx.find_node("web").expect("web");
    let line = status_line(&ctx, web, &assigned(), &process_status(Some(7)), Some(true));
    assert!(
        line.starts_with("web:web                  host     running (pid 7) healthy      http://localhost:3000"),
        "{line}"
    );
    assert!(matches!(status_probe(&ctx, web, &assigned()), Some(WaitFor::Http { .. })));
    assert!(status_probe(&ctx, web, &assignment(&[])).is_none());
    let db = ctx.find_node("db").expect("db");
    assert_eq!(
        container_status(db, &vec![state("db-c", "running", Some("healthy"), None)]),
        "running (healthy)"
    );
    assert_eq!(container_status(db, &Vec::new()), "not created");
    assert_eq!(process_status(None), "stopped");
}

#[test]
fn ports_are_reported() {
    let ctx = stack(true, "/repo");
    let report = port_report(&ctx, &assigned());
    assert_eq!(report[0], "worktree main (declared ports)");
    assert_eq!(report[1], "db                       5432   http://localhost:5432");
    let mut generated = assignment(&[("db", 20000)]);
    generated.mode = PortMode::Block;
    assert_eq!(
        port_report(&ctx, &generated)[0],
        "worktree main (generated ports, block 20000-20019)"
    );
    let preview = ports_preview(&stack(false, "/repo")).join("\n");
    assert!(preview.contains("declares 5432, allocated from the block"), "{preview}");
    assert_eq!(release_lines(&None, false), strings(&["no assignment to release"]));
    assert_eq!(release_lines(&Some("/b".to_string()), true), strings(&["released /b"]));
    assert!(changes_mode(Some(PortMode::Block), None, true));
    assert!(!changes_mode(None, None, true));
}

#[test]
fn a_dry_run_shows_the_whole_plan() {
    let ctx = stack(false, "/repo");
    let selection = ctx.scope(&Vec::new(), &Vec::new(), false).expect("scope");
    let paths = dryrun::sync_paths(&ctx, &selection, "/main");
    assert_eq!(
        paths,
        vec![vec![("/main/node_modules".to_string(), "/repo/node_modules".to_string())]]
    );
    let presence = vec![vec![Presence { here: false, there: true }]];
    let lines = dryrun::up(&ctx, &selection, None, BuildMode::Never, "/main", &presence).expect("plan");
    let text = lines.join("\n");
    for wanted in [
        "worktree id    x (slug x)",
        "[1/5] bootstrap . \u{00b7} sync node_modules",
        "(.)",
        "      - 127.0.0.1:<allocated>:80",
        "  port     allocated on first real up",
        "  sync  node_modules: symlink from /main/node_modules",
        "  run   npm ci   (skipped when unchanged (package-lock.json) and present: node_modules)",
        "    init-c: ports: !reset [] (no host port)",
        "seed  just seed",
        "4. web:web",
        "- write /rt/env",
    ] {
        assert!(text.contains(wanted), "{wanted}\n---\n{text}");
    }
    assert_eq!(dryrun::build_note(BuildMode::Always), " --build");
}

#[test]
fn a_restart_stops_only_what_exists() {
    let runner = ComposeRunner::new("/c.yml".to_string(), None, "p".to_string());
    let states = vec![state("db", "exited", None, Some(0))];
    let (stop, start) = restart_calls(&runner, &states, "db", true);
    assert_eq!(stop, Some(strings(&["stop", "db"])));
    assert_eq!(start, strings(&["up", "-d", "--build", "db"]));
    let (stop, start) = restart_calls(&runner, &states, "api", false);
    assert_eq!(stop, None);
    assert_eq!(start, strings(&["up", "-d", "api"]));
}

#[test]
fn a_dry_run_follows_the_ports_of_its_mode() {
    let shown = |primary: bool, mode: Option<PortMode>| {
        let ctx = stack(primary, "/repo");
        let selection = ctx.scope(&Vec::new(), &Vec::new(), false).expect("scope");
        dryrun::up(&ctx, &selection, mode, BuildMode::Never, "/main", &Vec::new())
            .expect("plan")
            .join("\n")
    };
    let fixed = "      - 127.0.0.1:5432 (fixed):80";
    assert!(shown(true, None).contains(fixed));
    assert!(shown(true, None).contains("  port     3000 (fixed)"), "{}", shown(true, None));
    assert!(!shown(true, Some(PortMode::Block)).contains("(fixed)"));
    assert!(!shown(false, None).contains("(fixed)"));
    assert!(!shown(false, Some(PortMode::Declared)).contains("(fixed)"));
}

#[test]
fn a_dry_run_shows_its_head_before_a_refused_environment() {
    let mut root = manifest(vec![host("api", &[])]);
    root.workspace = Some(Workspace { apps: Vec::new() });
    root.env.insert("URL".to_string(), "http://${NOWHERE}/".to_string());
    let found = vec![Found { dir: "/repo".to_string(), reading: Reading::Parsed(root) }];
    let ctx = Ctx::load(
        Paths { state_dir: "/s".to_string(), config_dir: "/c".to_string() },
        Config::default(),
        Repo::open("/repo".to_string(), "/repo/.git".to_string(), "/repo/.git".to_string()),
        "/rt".to_string(),
        Loaded::load("/repo", &found).expect("manifests"),
    )
    .expect("stack");
    let selection = ctx.scope(&Vec::new(), &Vec::new(), false).expect("scope");
    let refused = dryrun::up(&ctx, &selection, None, BuildMode::Never, "/main", &Vec::new())
        .expect_err("an unknown variable");
    assert!(refused.reason.contains("unknown variable '${NOWHERE}'"), "{}", refused.reason);
    assert_eq!(refused.head.len(), 8);
    assert_eq!(
        refused.head[0],
        "dry run: nothing below is executed or written\n\nworktree root  /repo"
    );
    assert_eq!(refused.head[5], "runtime dir    /rt/");
    assert_eq!(
        refused.head[7],
        "\n# environment (ports marked <allocated> are chosen on the first real up)"
    );
}

#[test]
fn a_manual_job_waits_to_be_named() {
    let mut app = manifest(vec![host("web", &[])]);
    app.jobs.insert(
        "seed".to_string(),
        Job { run: "just seed".to_string(), when: When::Manual, needs: Vec::new() },
    );
    app.jobs.insert(
        "migrate".to_string(),
        Job { run: "just migrate".to_string(), when: When::Up, needs: Vec::new() },
    );
    let mut root = manifest(Vec::new());
    root.workspace = Some(Workspace { apps: strings(&["web"]) });
    let found = vec![
        Found { dir: "/repo".to_string(), reading: Reading::Parsed(root) },
        Found { dir: "/repo/web".to_string(), reading: Reading::Parsed(app) },
    ];
    let ctx = Ctx::load(
        Paths { state_dir: "/s".to_string(), config_dir: "/c".to_string() },
        Config::default(),
        Repo::open("/repo".to_string(), "/repo/.git".to_string(), "/repo/.git".to_string()),
        "/rt".to_string(),
        Loaded::load("/repo", &found).expect("manifests"),
    )
    .expect("stack");
    for (services, apps, all) in [(vec![], vec!["web"], false), (vec![], vec![], true)] {
        let selected = ctx.scope(&strings(&services), &strings(&apps), all).expect("scope");
        assert!(!names(&ctx, &selected).contains(&"web:seed".to_string()));
        assert!(names(&ctx, &selected).contains(&"web:migrate".to_string()));
    }
    let named = ctx.scope(&strings(&["seed"]), &Vec::new(), false).expect("scope");
    assert_eq!(names(&ctx, &named), strings(&["web:migrate", "web:seed"]));
}

#[test]
fn a_compose_file_is_resolved_with_the_environment_of_its_app() {
    let ctx = stack(true, "/repo");
    let selection = ctx.scope(&Vec::new(), &Vec::new(), false).expect("scope");
    let groups = ctx.compose_groups(&selection, &assigned());
    let vars = ctx.group_env(&groups[0], &selection, &assigned()).expect("environment");
    assert_eq!(vars.get("WEB_PORT").map(String::as_str), Some("3000"));
    assert!(vars.get("URL").is_none(), "the app's own variables stay with the app");
}

#[test]
fn failures_say_what_to_look_at() {
    let ctx = stack(true, "/repo");
    let web = ctx.find_node("web").expect("web");
    let process = ProcessReport { pid: Some(7), alive: false, tail: strings(&["boom"]) };
    let report = ctx.describe_failure(web, &assigned(), None, &process, "timed out");
    assert!(report.starts_with("web:web: timed out\n  port     3000 (injected as WEB_PORT)"), "{report}");
    assert!(report.contains("\n  process  exited\n  log      /rt/log/web_web.log"), "{report}");
    assert!(report.contains("\n  | boom"), "{report}");
    let runner = ComposeRunner::new("/c.yml".to_string(), None, "p".to_string());
    assert_eq!(
        batch_failure(&runner, &strings(&["a", "b"]), "no"),
        "compose services [a, b] failed to start: no\n  compose file /c.yml\n  project p\n  logs     docker compose -f /c.yml -p p logs a b"
    );
    assert_eq!(happening(web, Happening::Started(7)), "web:web: started (pid 7)");
    assert_eq!(happening(web, Happening::AlreadyRunning), "web:web: already running");
}

#[test]
fn small_decisions_of_the_command_line() {
    assert_eq!(exit_code(Some(3), None), 3);
    assert_eq!(exit_code(None, Some(9)), 137);
    assert_eq!(exit_code(None, None), 128);
    assert_eq!(shell_join(&strings(&["echo", "a b", "it's", ""])), "echo 'a b' 'it'\\''s' ''");
    assert_eq!(follow_from(10, 12), Some(10));
    assert_eq!(follow_from(10, 4), Some(0));
    assert_eq!(follow_from(10, 10), None);
    assert!(announces(false, false, true));
    assert!(!announces(true, false, true) && !announces(false, true, true));
    assert!(!announces(false, false, false));
    let ctx = stack(true, "/repo");
    let plan = ctx.build_env(&None, &assigned()).expect("env");
    let args = |export: bool, explain: bool| EnvArgs { app: None, export, explain, cwd: None };
    assert_eq!(env_text(&args(false, false), &plan), plan.dotenv());
    assert_eq!(env_text(&args(true, false), &plan), plan.export());
    assert_eq!(env_text(&args(true, true), &plan), plan.explain());
}
