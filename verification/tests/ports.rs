use magictree::config::Config;
use magictree::dict::Dict;
use magictree::ports::{
    assign_in_block, block_path, effective_mode, ensure, load, reassign, Assignment, BlockOutcome,
    PortMode, PortRequest, Situation, ASSIGNMENT_VERSION,
};
use magictree::slug::hash64;

fn request(name: &str, prefer: Option<u16>, require: Option<u16>) -> PortRequest {
    PortRequest { name: name.to_string(), prefer, require }
}

fn situation(worktree_id: &str, primary: bool, recorded: Vec<Assignment>, busy: &[u16]) -> Situation {
    Situation {
        repo_key: "k".to_string(),
        worktree_id: worktree_id.to_string(),
        worktree_path: format!("/{worktree_id}"),
        primary,
        config_file: "/c/config.toml".to_string(),
        taken: recorded.iter().map(|assignment| assignment.base).collect(),
        recorded,
        busy: busy.to_vec(),
    }
}

fn port(assignment: &Assignment, name: &str) -> u16 {
    *assignment.ports.get(name).expect("port")
}

fn first_base(config: &Config, worktree_id: &str) -> u16 {
    let slots = config.slots() as u64;
    let slot = hash64(&format!("k:{worktree_id}")) % slots;
    config.port_range_start + (slot as u16) * config.port_stride
}

#[test]
fn a_linked_worktree_takes_its_block() {
    let config = Config::default();
    let requests = vec![request("db", Some(5432), None), request("web", None, None)];
    let ensured =
        ensure(&config, &situation("x", false, Vec::new(), &[]), &requests, None).expect("ports");
    let base = first_base(&config, "x");
    assert!(ensured.fresh);
    assert_eq!(ensured.assignment.base, base);
    assert_eq!(ensured.assignment.mode, PortMode::Block);
    assert_eq!(port(&ensured.assignment, "db"), base);
    assert_eq!(port(&ensured.assignment, "web"), base + 1);
    assert_eq!(ensured.assignment.worktree_path.as_deref(), Some("/x"));
}

#[test]
fn the_primary_checkout_takes_what_is_declared() {
    let config = Config::default();
    let requests = vec![request("db", Some(5432), None), request("web", None, None)];
    let ensured =
        ensure(&config, &situation("main", true, Vec::new(), &[]), &requests, None).expect("ports");
    assert_eq!(ensured.assignment.mode, PortMode::Declared);
    assert_eq!(port(&ensured.assignment, "db"), 5432);
    assert_eq!(port(&ensured.assignment, "web"), ensured.assignment.base);

    // The primary checkout's own tooling expects the declared port, so nothing else is taken.
    let busy = ensure(&config, &situation("main", true, Vec::new(), &[5432]), &requests, None);
    assert_eq!(
        busy.unwrap_err(),
        "declared port 5432 for 'db' is not available; free it, or run `magictree up --ports generated`"
    );
}

#[test]
fn a_recorded_assignment_stays_and_grows() {
    let config = Config::default();
    let first = ensure(
        &config,
        &situation("x", false, Vec::new(), &[]),
        &vec![request("db", None, None)],
        None,
    )
    .expect("ports")
    .assignment;
    let again = ensure(
        &config,
        &situation("x", false, vec![first.clone()], &[]),
        &vec![request("db", None, None), request("web", None, None)],
        None,
    )
    .expect("ports");
    assert!(!again.fresh && again.changed && again.dropped.is_none());
    assert_eq!(port(&again.assignment, "db"), port(&first, "db"));
    assert_eq!(port(&again.assignment, "web"), first.base + 1);

    let same = ensure(
        &config,
        &situation("x", false, vec![again.assignment.clone()], &[]),
        &vec![request("db", None, None)],
        None,
    )
    .expect("ports");
    assert!(!same.changed);
}

#[test]
fn another_mode_allocates_again() {
    let config = Config::default();
    let requests = vec![request("db", Some(5432), None)];
    let declared = ensure(&config, &situation("main", true, Vec::new(), &[]), &requests, None)
        .expect("ports")
        .assignment;
    let generated = ensure(
        &config,
        &situation("main", true, vec![declared.clone()], &[]),
        &requests,
        Some(PortMode::Block),
    )
    .expect("ports");
    assert!(generated.fresh);
    // The block stays this worktree's own, so no other block is dropped.
    assert_eq!(generated.assignment.base, declared.base);
    assert_eq!(generated.dropped, None);
    assert_ne!(port(&generated.assignment, "db"), 5432);
    assert_eq!(effective_mode(Some(&declared), true), PortMode::Declared);
    assert_eq!(effective_mode(None, false), PortMode::Block);
}

#[test]
fn two_worktrees_share_no_port() {
    let config = Config::default();
    let requests = vec![request("db", None, None), request("web", None, None)];
    let mut recorded: Vec<Assignment> = Vec::new();
    for id in ["a", "b", "c", "d"] {
        let next = ensure(&config, &situation(id, false, recorded.clone(), &[]), &requests, None)
            .expect("ports")
            .assignment;
        recorded.push(next);
    }
    let mut ports: Vec<u16> = Vec::new();
    for assignment in &recorded {
        ports.push(port(assignment, "db"));
        ports.push(port(assignment, "web"));
    }
    ports.sort();
    ports.dedup();
    assert_eq!(ports.len(), 8);
}

#[test]
fn a_required_port_is_taken_or_refused() {
    let config = Config::default();
    let requests = vec![request("db", None, Some(5432))];
    let ensured =
        ensure(&config, &situation("x", false, Vec::new(), &[]), &requests, None).expect("ports");
    assert_eq!(port(&ensured.assignment, "db"), 5432);
    let busy = ensure(&config, &situation("x", false, Vec::new(), &[5432]), &requests, None);
    assert_eq!(busy.unwrap_err(), "port.require 5432 for 'db' is not available");
    let twice = vec![request("db", None, Some(5432)), request("web", None, Some(5432))];
    let refused = ensure(&config, &situation("x", false, Vec::new(), &[]), &twice, None);
    assert_eq!(refused.unwrap_err(), "port.require 5432 is requested more than once");
    let added = ensure(
        &config,
        &situation("x", false, vec![ensured.assignment], &[]),
        &vec![request("web", None, Some(5432))],
        None,
    );
    assert_eq!(added.unwrap_err(), "port.require 5432 is already used in this worktree");
}

#[test]
fn a_full_machine_says_so() {
    let mut config = Config::default();
    config.port_range_start = 20000;
    config.port_range_end = 20019;
    config.port_stride = 20;
    let requests = vec![request("db", None, None)];
    let first = ensure(&config, &situation("a", false, Vec::new(), &[]), &requests, None)
        .expect("ports")
        .assignment;
    assert_eq!(first.base, 20000);
    let full = ensure(&config, &situation("b", false, vec![first.clone()], &[]), &requests, None);
    assert_eq!(
        full.unwrap_err(),
        "no free port block in 20000..20019 \u{2014} run `magictree gc` or widen the range in /c/config.toml"
    );
    let many: Vec<PortRequest> =
        (0..21).map(|i| request(&format!("s{i:02}"), None, None)).collect();
    let left = ensure(&config, &situation("a", false, vec![first], &[]), &many, None);
    assert!(left.unwrap_err().starts_with("no free port left in block 20000 for '"));
}

#[test]
fn a_busy_block_is_not_used() {
    let config = Config::default();
    let requests = vec![request("db", None, None)];
    let outcome = assign_in_block(&config, 20000, PortMode::Block, &requests, &vec![20000], &Vec::new());
    assert!(matches!(outcome, Ok(BlockOutcome::Unusable)));
    let outcome = assign_in_block(&config, 20000, PortMode::Block, &requests, &Vec::new(), &Vec::new());
    assert!(matches!(outcome, Ok(BlockOutcome::Assigned(ports)) if ports.get("db").copied() == Some(20000)));
}

#[test]
fn a_block_is_recorded_under_its_first_port() {
    assert_eq!(block_path("/s/blocks", 20020), "/s/blocks/20020.json");
    let recorded = vec![Assignment {
        version: ASSIGNMENT_VERSION,
        repo_key: "k".to_string(),
        worktree_id: "x".to_string(),
        worktree_path: None,
        base: 20020,
        mode: PortMode::Block,
        ports: Dict::new(),
    }];
    assert_eq!(
        reassign("/s/blocks", &recorded, "k", "x").as_deref(),
        Some("/s/blocks/20020.json")
    );
    assert_eq!(reassign("/s/blocks", &recorded, "k", "y"), None);
    assert!(load(&recorded, "k", "x").is_some());
    assert!(load(&recorded, "other", "x").is_none());
}
