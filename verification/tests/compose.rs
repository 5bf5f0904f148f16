use magictree::compose::{
    override_path, parse_ps, services_with_build, with_aliases, write_override, ComposeGroup, ComposeRunner,
    GroupService, PortMapping,
};
use magictree::env::Alias;
use magictree::manifest::Expose;

#[test]
fn reads_container_exit_codes() {
    // `docker compose ps --format json` may emit a bare object per line or an array; both are
    // accepted, and ExitCode decides whether an exited container is an initialiser that finished
    // or a failure.
    let line = r#"{"Service":"objects-init","State":"exited","ExitCode":0,"Health":""}"#;
    let states = parse_ps(line).expect("parse");
    assert_eq!(states.len(), 1);
    assert_eq!(states[0].service, "objects-init");
    assert_eq!(states[0].exit_code, Some(0));

    let array = r#"[{"Service":"api","State":"exited","ExitCode":2},{"Service":"db","State":"running","Health":"healthy"}]"#;
    let states = parse_ps(array).expect("parse");
    assert_eq!(states[0].exit_code, Some(2));
    assert_eq!(states[1].health.as_deref(), Some("healthy"));
    assert_eq!(states[1].exit_code, None);
}

#[test]
fn empty_output_is_not_an_error() {
    assert!(parse_ps("").expect("parse").is_empty());
}

#[test]
fn one_object_per_line_is_read_line_by_line() {
    let raw = "{\"Service\":\"db\",\"State\":\"running\"}\n\n{\"Service\":\"api\",\"State\":\"created\",\"ExitCode\":\"3\"}\n";
    let states = parse_ps(raw).expect("parse");
    assert_eq!(states.len(), 2);
    assert_eq!(states[1].state, "created");
    assert_eq!(states[1].exit_code, Some(3));
    assert!(parse_ps("not json").is_err());
}

fn runner() -> ComposeRunner {
    ComposeRunner::new(
        "/repo/compose.yaml".to_string(),
        Some("/state/override.yml".to_string()),
        "demo".to_string(),
    )
}

#[test]
fn calls_name_the_file_the_override_and_the_project() {
    let runner = runner();
    assert_eq!(
        runner.arguments(true, &runner.up_service("api", true)),
        vec![
            "compose", "-f", "/repo/compose.yaml", "-f", "/state/override.yml", "-p", "demo", "up",
            "-d", "--build", "api"
        ]
    );
    assert_eq!(
        runner.arguments(false, &runner.down(true)),
        vec!["compose", "-f", "/repo/compose.yaml", "-p", "demo", "down", "--remove-orphans", "--volumes"]
    );
    assert_eq!(runner.stop_service("api"), vec!["stop", "api"]);
    assert_eq!(runner.ps(), vec!["ps", "-a", "--format", "json"]);
    assert_eq!(
        runner.up_services(&vec!["db".to_string(), "api".to_string()], false),
        vec!["up", "-d", "db", "api"]
    );
}

#[test]
fn only_services_with_a_build_are_built() {
    let config = r#"{"services":{"api":{"build":{"context":"."}},"db":{"image":"postgres"}}}"#;
    assert_eq!(services_with_build(config), Ok(vec!["api".to_string()]));
    assert_eq!(
        services_with_build("nothing"),
        Err("parsing docker compose config output".to_string())
    );
}

fn group(target: Option<u16>) -> ComposeGroup {
    ComposeGroup {
        file: "/repo/compose.yaml".to_string(),
        project: "demo".to_string(),
        worktree_path: "/repo".to_string(),
        repo_key: "abc".to_string(),
        services: vec![
            GroupService {
                name: "db".to_string(),
                expose: Expose::Port,
                mappings: vec![PortMapping { host: Some(20001), target }],
                environment: Vec::new(),
            },
        ],
    }
}

#[test]
fn overrides_publish_only_the_assigned_ports() {
    let yaml = write_override(&group(Some(5432))).expect("override");
    assert!(yaml.contains("127.0.0.1:20001:5432"), "{yaml}");
    assert!(yaml.contains("!override"), "{yaml}");
    assert!(write_override(&group(None)).is_err());
}

#[test]
fn override_files_are_named_after_the_compose_file() {
    let path = override_path("/state", "/repo/compose.yaml");
    assert!(path.starts_with("/state/override-"), "{path}");
    assert!(path.ends_with(".yml"), "{path}");
    assert_ne!(path, override_path("/state", "/repo/infra/compose.yaml"));
}

#[test]
fn aliases_reach_the_services_that_a_browser_reaches() {
    let config = r#"{"services":{"db":{"environment":{"URL":"http://localhost:20001/x","COST":"$5","N":1}}}}"#;
    let aliases = vec![Alias { port: 20001, host: "demo.localhost".to_string() }];
    let aliased = with_aliases(&group(Some(5432)), config, &aliases).expect("config");
    assert_eq!(
        aliased.services[0].environment,
        vec![("URL".to_string(), "http://demo.localhost:20001/x".to_string())]
    );
    let yaml = write_override(&aliased).expect("override");
    assert!(
        yaml.ends_with("    environment:\n      \"URL\": \"http://demo.localhost:20001/x\"\n"),
        "{yaml}"
    );

    // A service that publishes nothing keeps its own environment.
    let mut internal = group(Some(5432));
    internal.services[0].expose = Expose::Nothing;
    let aliased = with_aliases(&internal, config, &aliases).expect("config");
    assert!(aliased.services[0].environment.is_empty());
    assert!(with_aliases(&internal, "{", &aliases).is_err());
}

#[test]
fn variables_of_an_override_are_quoted() {
    let mut quoted = group(Some(5432));
    quoted.services[0].environment = vec![("A".to_string(), "a\\b\"c$d\ne".to_string())];
    let yaml = write_override(&quoted).expect("override");
    assert!(yaml.contains("\"A\": \"a\\\\b\\\"c$$d\\ne\"\n"), "{yaml}");
}
