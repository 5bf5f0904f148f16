use magictree::dict::Dict;
use magictree::manifest::{
    dependencies, is_reserved_env, nodes, order, order_selected, quote_arg, validate_manifest,
    AppMeta, Bootstrap, ComposeRef, Expose, Found, Health, Job, Loaded, Manifest, PortSpec, Reading,
    RunStep, Runtime, Service, Target, Wait, When, Workspace, MANIFEST_VERSION,
};

fn manifest(services: Vec<Service>) -> Manifest {
    Manifest {
        version: MANIFEST_VERSION,
        workspace: None,
        app: None,
        env: Dict::new(),
        bootstrap: Bootstrap { sync: Vec::new(), run: Vec::new(), after: Vec::new() },
        services,
        jobs: Dict::new(),
    }
}

fn host(id: &str, needs: &[&str]) -> Service {
    Service {
        id: id.to_string(),
        runtime: None,
        compose: None,
        target: None,
        command: Some(format!("run {id}")),
        port: None,
        ports: Vec::new(),
        expose: Expose::Port,
        needs: needs.iter().map(|need| need.to_string()).collect(),
        health: None,
        wait: Wait::Running,
    }
}

fn port(name: Option<&str>) -> PortSpec {
    PortSpec {
        name: name.map(str::to_string),
        target: None,
        env: None,
        prefer: None,
        require: None,
        browser_alias: false,
    }
}

fn found(dir: &str, manifest: Manifest) -> Found {
    Found { dir: dir.to_string(), reading: Reading::Parsed(manifest) }
}

fn refused(change: impl Fn(&mut Service)) -> String {
    let mut service = host("web", &[]);
    change(&mut service);
    validate_manifest(&manifest(vec![service]), "app").unwrap_err()
}

#[test]
fn targets_are_shell_commands() {
    let args = vec!["-p".to_string(), "${PORT}".to_string(), "a b".to_string()];
    let just = Target::Just { recipe: "dev".to_string(), args: args.clone() };
    assert_eq!(just.command(), "just dev -p ${PORT} 'a b'");
    let mise = Target::Mise { task: "dev".to_string(), profile: Some("ci".to_string()) };
    assert_eq!(mise.command(), "mise --profile ci run dev");
    let uv = Target::Uv {
        group: Some("dev".to_string()),
        module: Some("app".to_string()),
        script: None,
        args: vec!["x".to_string()],
    };
    assert_eq!(uv.command(), "uv run --group dev python -m app x");
    let npm = Target::Npm { script: "dev".to_string(), args: Vec::new() };
    assert_eq!(npm.command(), "npm run dev");
    let python = Target::Python { module: "http".to_string(), args: Vec::new() };
    assert_eq!(python.command(), "python3 -m http");
}

#[test]
fn arguments_are_quoted_only_where_they_would_split() {
    assert_eq!(quote_arg("${PORT}"), "${PORT}");
    assert_eq!(quote_arg(""), "''");
    assert_eq!(quote_arg("it's"), "'it'\\''s'");
    assert_eq!(quote_arg("a;b"), "'a;b'");
}

#[test]
fn a_service_lists_its_ports_under_names() {
    let mut service = host("web", &[]);
    service.port = Some(port(None));
    service.ports = vec![port(Some("admin"))];
    let names: Vec<Option<String>> = service.ports().into_iter().map(|port| port.name).collect();
    assert_eq!(names, vec![Some("web".to_string()), Some("admin".to_string())]);
    assert_eq!(service.launched_by(), Runtime::Host);
}

#[test]
fn a_health_probe_has_its_own_time() {
    let mut health = Health { http: None, tcp: Some(true), command: None, timeout: None };
    assert_eq!(health.timeout_secs(60), 60);
    health.timeout = Some(5);
    assert_eq!(health.timeout_secs(60), 5);
}

#[test]
fn a_wrong_manifest_is_refused() {
    let mut old = manifest(Vec::new());
    old.version = 2;
    assert_eq!(
        validate_manifest(&old, "app").unwrap_err(),
        "app: unsupported manifest version 2 (expected 1)"
    );
    assert_eq!(
        validate_manifest(&manifest(vec![host("web", &[]), host("web", &[])]), "app").unwrap_err(),
        "app: duplicate service id 'web'"
    );
    assert_eq!(
        refused(|service| service.runtime = Some(Runtime::Compose)),
        "app: service 'web' uses runtime = \"compose\" but has no compose reference"
    );
    assert_eq!(
        refused(|service| {
            service.compose = Some(ComposeRef { file: String::new(), service: "db".to_string() })
        }),
        "app: service 'web' needs compose.file and compose.service"
    );
    assert_eq!(
        refused(|service| {
            service.compose =
                Some(ComposeRef { file: "c.yml".to_string(), service: "db".to_string() })
        }),
        "app: service 'web' is a compose service and cannot also declare a command or target"
    );
    assert_eq!(
        refused(|service| service.command = None),
        "app: service 'web' is a host service and needs either command or [services.target]"
    );
    assert_eq!(
        refused(|service| service.target = Some(Target::Command { command: "x".to_string() })),
        "app: service 'web' cannot set both command and target"
    );
    assert_eq!(
        refused(|service| {
            service.command = None;
            service.target =
                Some(Target::Uv { group: None, module: None, script: None, args: Vec::new() })
        }),
        "app: service 'web' uses a uv target with neither script nor module"
    );
    assert_eq!(
        refused(|service| service.ports = vec![port(None), port(Some("web"))]),
        "app: service 'web' declares port 'web' more than once"
    );
    assert_eq!(
        refused(|service| {
            let mut both = port(None);
            both.prefer = Some(1);
            both.require = Some(2);
            service.port = Some(both)
        }),
        "app: service 'web' port 'web' cannot set both prefer and require"
    );
    assert_eq!(
        refused(|service| {
            let mut reserved = port(None);
            reserved.env = Some("COMPOSE_FILE".to_string());
            service.port = Some(reserved)
        }),
        "app: service 'web' port 'web' names reserved environment variable 'COMPOSE_FILE'"
    );
    let mut twice = manifest(vec![host("web", &[])]);
    twice.jobs.insert(
        "web".to_string(),
        Job { run: "x".to_string(), when: When::Up, needs: Vec::new() },
    );
    assert_eq!(
        validate_manifest(&twice, "app").unwrap_err(),
        "app: 'web' is declared as both a service and a job"
    );
    let mut reserved = manifest(Vec::new());
    reserved.env.insert("MAGICTREE_X".to_string(), "1".to_string());
    assert_eq!(
        validate_manifest(&reserved, "app").unwrap_err(),
        "app: environment key 'MAGICTREE_X' is reserved by magictree"
    );
    assert!(validate_manifest(&manifest(vec![host("web", &[])]), "app").is_ok());
    assert!(is_reserved_env("COMPOSE_PROJECT_NAME") && !is_reserved_env("PORT"));
}

#[test]
fn manifests_are_found_upwards() {
    let mut root = manifest(vec![host("db", &[])]);
    root.workspace = Some(Workspace { apps: vec!["web".to_string()] });
    let all = vec![found("/repo", root), found("/repo/web", manifest(vec![host("web", &[])]))];
    let loaded = Loaded::load("/repo/web/src", &all).expect("manifests");
    assert_eq!(loaded.workspace_dir, "/repo");
    assert_eq!(loaded.current_app.as_deref(), Some("web"));
    assert!(!loaded.root_is_app);
    assert_eq!(loaded.apps[0].dir, "/repo/web");
    assert!(loaded.app("web").is_some() && loaded.app("api").is_none());

    let quals: Vec<String> = nodes(&loaded).iter().map(|node| node.qual()).collect();
    assert_eq!(quals, vec!["db".to_string(), "web:web".to_string()]);

    let alone = Loaded::load("/solo/x", &vec![found("/solo", manifest(Vec::new()))]).expect("solo");
    assert!(alone.root_is_app);
    assert_eq!(
        Loaded::load("/other", &all).unwrap_err(),
        "no magictree.toml found in /other or any parent directory"
    );
}

#[test]
fn wrong_apps_are_refused() {
    let mut root = manifest(Vec::new());
    root.workspace = Some(Workspace { apps: vec!["web".to_string()] });
    assert_eq!(
        Loaded::load("/repo", &vec![found("/repo", root.clone())]).unwrap_err(),
        "[workspace].apps lists 'web' but /repo/web/magictree.toml does not exist"
    );
    let broken = Found {
        dir: "/repo/web".to_string(),
        reading: Reading::Failed("parsing web".to_string()),
    };
    assert_eq!(
        Loaded::load("/repo", &vec![found("/repo", root.clone()), broken]).unwrap_err(),
        "parsing web"
    );
    root.workspace = Some(Workspace { apps: vec!["a".to_string(), "b".to_string()] });
    let mut named = manifest(Vec::new());
    named.app = Some(AppMeta { id: Some("x".to_string()) });
    let all = vec![
        found("/repo", root),
        found("/repo/a", named.clone()),
        found("/repo/b", named),
    ];
    assert_eq!(
        Loaded::load("/repo", &all).unwrap_err(),
        "duplicate app id 'x' (from /repo/b/magictree.toml)"
    );
}

fn graph(services: Vec<Service>) -> Result<Vec<String>, String> {
    let all = vec![found("/solo", manifest(services))];
    let nodes = nodes(&Loaded::load("/solo", &all)?);
    let edges = dependencies(&nodes)?;
    let selection = (0..nodes.len()).collect();
    let ordered = order(&nodes, &edges, &selection)?;
    Ok(ordered.into_iter().map(|index| nodes[index].qual()).collect())
}

#[test]
fn dependencies_start_first() {
    let ordered = graph(vec![host("web", &["api"]), host("api", &["db"]), host("db", &[])]);
    assert_eq!(ordered, Ok(vec!["db".to_string(), "api".to_string(), "web".to_string()]));
    assert_eq!(
        graph(vec![host("a", &["b"]), host("b", &["a"])]).unwrap_err(),
        "dependency cycle: a -> b -> a"
    );
    assert_eq!(
        graph(vec![host("a", &["x"])]).unwrap_err(),
        "a: dependency 'x' does not exist"
    );
    assert_eq!(
        graph(vec![host("a", &["x:y"])]).unwrap_err(),
        "a: dependency 'x:y' does not exist"
    );
}

#[test]
fn a_closed_order_pulls_in_and_a_selected_one_does_not() {
    let all = vec![found("/solo", manifest(vec![host("web", &["db"]), host("db", &[])]))];
    let nodes = nodes(&Loaded::load("/solo", &all).expect("solo"));
    let edges = dependencies(&nodes).expect("edges");
    assert_eq!(order(&nodes, &edges, &vec![0]), Ok(vec![1, 0]));
    assert_eq!(order_selected(&nodes, &edges, &vec![0]), Ok(vec![0]));
    assert_eq!(order_selected(&nodes, &edges, &vec![0, 1]), Ok(vec![1, 0]));
}

#[test]
fn an_ambiguous_dependency_is_refused() {
    let mut root = manifest(Vec::new());
    root.workspace =
        Some(Workspace { apps: vec!["a".to_string(), "b".to_string(), "c".to_string()] });
    let all = vec![
        found("/repo", root),
        found("/repo/a", manifest(vec![host("db", &[])])),
        found("/repo/b", manifest(vec![host("db", &[])])),
        found("/repo/c", manifest(vec![host("web", &["db"])])),
    ];
    let nodes = nodes(&Loaded::load("/repo", &all).expect("repo"));
    assert_eq!(
        dependencies(&nodes).unwrap_err(),
        "c:web: dependency 'db' is ambiguous; qualify it as app:service"
    );
}

#[test]
fn steps_say_what_they_read_and_write() {
    let simple = RunStep::Simple("make".to_string());
    assert_eq!(simple.command(), "make");
    assert!(simple.inputs().is_empty() && simple.outputs().is_empty() && !simple.asks());
    let detailed = RunStep::Detailed {
        command: "npm ci".to_string(),
        inputs: vec!["package-lock.json".to_string()],
        outputs: vec!["node_modules".to_string()],
        ask: true,
    };
    assert_eq!(detailed.outputs(), vec!["node_modules".to_string()]);
    assert!(detailed.asks());
}
