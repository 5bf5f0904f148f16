use magictree::cli::show::{list_all_lines, list_lines};
use magictree::cli::{
    already_gone, creation_preview, creation_refused, nothing_to_start, removal_preview,
    resolve_target,
};
use magictree::dict::Dict;
use magictree::paths::Paths;
use magictree::ports::{Assignment, PortMode, ASSIGNMENT_VERSION};
use magictree::repo::{Repo, WorktreeEntry};
use magictree::worktrees::{
    add_args, admin_id, admin_pointer, all_worktree_rows, checkout_state, compose_projects,
    container_query, containers, create, created, describe_ports, docker_failed, docker_skipped,
    find_worktree, forget, gc, gc_all, live_worktrees, mark, missing_manifest_hint, names_primary,
    orphans,
    plan_path, prune, pruned, recorded_matches, recorded_project, recorded_repositories,
    recorded_worktrees, records, remove, removed, same_worktree, stopping_line, sweep_compose,
    sweep_volumes, target_path, untracked_manifest_hint, volume_failed, volume_query, worktree_rows,
    AdminDir, Block, Checkout, ComposeStep, GcStep, Opened, RecordedWorktree, Sighting, Spot,
    StateDir,
};

fn strings(list: &[&str]) -> Vec<String> {
    list.iter().map(|item| item.to_string()).collect()
}

fn repo(root: &str, git_dir: &str) -> Repo {
    Repo::open(root.to_string(), "/repo/.git".to_string(), git_dir.to_string())
}

fn main_repo() -> Repo {
    repo("/repo", "/repo/.git")
}

fn spot(path: &str) -> Spot {
    Spot { path: path.to_string(), resolved: path.to_string(), parent: Some("/".to_string()) }
}

fn assignment(id: &str, path: Option<&str>, base: u16) -> Assignment {
    let mut ports = Dict::new();
    ports.insert("web".to_string(), base + 1);
    ports.insert("db".to_string(), base);
    Assignment {
        version: ASSIGNMENT_VERSION,
        repo_key: main_repo().key(),
        worktree_id: id.to_string(),
        worktree_path: path.map(str::to_string),
        base,
        mode: PortMode::Block,
        ports,
    }
}

fn block(id: &str, path: Option<&str>, base: u16) -> Block {
    Block {
        file: format!("/s/blocks/{base}.json"),
        assignment: assignment(id, path, base),
        owner: path.map(spot),
    }
}

fn state(id: &str, path: &str, base: u16) -> StateDir {
    let mut running = Dict::new();
    running.insert("web".to_string(), 7);
    StateDir {
        dir: format!("/s/worktrees/{}/{id}", main_repo().key()),
        repo_key: main_repo().key(),
        assignment: Some(assignment(id, Some(path), base)),
        owner: Some(spot(path)),
        env: Some("A=1\nCOMPOSE_PROJECT_NAME=proj\n".to_string()),
        running,
    }
}

fn live(path: &str) -> Sighting {
    Sighting {
        spot: spot(path),
        exists: true,
        opened: Opened::Worktree {
            repo: repo(path, "/repo/.git/worktrees/x"),
            root: spot(path),
            main_root: "/repo".to_string(),
        },
    }
}

fn gone(path: &str) -> Sighting {
    Sighting { spot: spot(path), exists: false, opened: Opened::Nothing }
}

fn paths() -> Paths {
    Paths { state_dir: "/s".to_string(), config_dir: "/c".to_string() }
}

fn entry(path: &str, branch: Option<&str>) -> WorktreeEntry {
    WorktreeEntry {
        path: path.to_string(),
        branch: branch.map(str::to_string),
        detached: false,
        bare: false,
    }
}

#[test]
fn a_worktree_is_created_beside_the_primary_checkout() {
    let none = Vec::new();
    let linked = repo("/elsewhere/x", "/repo/.git/worktrees/x");
    let entries = vec![entry("/repo", Some("main")), entry("/elsewhere/x", Some("x"))];
    assert_eq!(plan_path(&linked, &entries, "y").as_deref(), Ok("/repo-y"));
    let repo = main_repo();
    assert_eq!(plan_path(&repo, &none, "feat/Billing").as_deref(), Ok("/repo-feat-billing"));
    assert_eq!(
        target_path(&repo, &none, "x", &None, &Some("/elsewhere".to_string()), false).as_deref(),
        Ok("/elsewhere")
    );
    assert_eq!(
        target_path(&repo, &none, " ", &None, &None, false).unwrap_err(),
        "branch name is required"
    );
    assert_eq!(
        target_path(&repo, &none, "x", &Some("HEAD".to_string()), &None, true).unwrap_err(),
        "--base and --detach cannot be combined"
    );
    assert_eq!(
        add_args("x", &None, "/p", false, false),
        strings(&["worktree", "add", "-b", "x", "/p", "HEAD"])
    );
    assert_eq!(
        add_args("x", &None, "/p", false, true),
        strings(&["worktree", "add", "/p", "x"])
    );
    assert_eq!(
        add_args("x", &None, "/p", true, true),
        strings(&["worktree", "add", "--detach", "/p", "HEAD"])
    );
    assert_eq!(
        create("x", &None, "/p", false, true, true).unwrap_err(),
        "target path already exists: /p"
    );
    assert_eq!(created(false, " bad \n").unwrap_err(), "git worktree add failed: bad");
    assert!(created(true, "").is_ok());
    assert_eq!(
        creation_preview(&strings(&["worktree", "add"]), "/p"),
        strings(&[
            "dry run: no worktree is created",
            "would run git worktree add",
            "would then run ensure in /p",
        ])
    );
}

#[test]
fn the_current_worktree_is_not_removed() {
    assert_eq!(
        remove(&spot("/repo"), &spot("/repo"), true).unwrap_err(),
        "refusing to remove the current worktree"
    );
    assert_eq!(
        remove(&spot("/repo"), &spot("/x"), true),
        Ok(strings(&["worktree", "remove", "--force", "/x"]))
    );
    assert_eq!(
        removed("/x", false, "fatal: contains modified or untracked files").unwrap_err(),
        "/x has uncommitted changes; re-run with --force to discard them"
    );
    assert_eq!(removed("/x", false, "no\n").unwrap_err(), "git worktree remove failed: no");
    assert_eq!(prune(true), strings(&["worktree", "prune", "--dry-run", "--verbose"]));
    assert_eq!(pruned(false, "no").unwrap_err(), "git worktree prune failed: no");
    assert_eq!(
        removal_preview("/x", true),
        strings(&[
            "dry run: nothing is stopped or removed",
            "would run down in /x",
            "would run git worktree remove /x --force",
            "the branch would be kept",
        ])
    );
    assert!(already_gone("/x").starts_with("worktree checkout /x is already gone"));
}

#[test]
fn a_checkout_is_recognised_through_links() {
    let link = Spot {
        path: "/var/x".to_string(),
        resolved: "/private/var/x".to_string(),
        parent: Some("/private/var".to_string()),
    };
    let real = Spot {
        path: "/private/var/x".to_string(),
        resolved: "/private/var/x".to_string(),
        parent: Some("/private/var".to_string()),
    };
    assert!(same_worktree(&link, &real) && same_worktree(&real, &link));
    assert!(!same_worktree(&link, &spot("/y")) && !same_worktree(&spot("/y"), &link));
}

#[test]
fn a_missing_manifest_is_explained() {
    assert_eq!(untracked_manifest_hint("/repo", true, true), None);
    assert_eq!(untracked_manifest_hint("/repo", false, false), None);
    let hint = untracked_manifest_hint("/repo", true, false).expect("hint");
    assert!(hint.starts_with("the main checkout has an uncommitted magictree.toml"), "{hint}");
    assert_eq!(missing_manifest_hint(true, false, "/repo", true, true), None);
    assert_eq!(missing_manifest_hint(false, true, "/repo", true, true), None);
    let hint = missing_manifest_hint(false, false, "/repo", true, true).expect("hint");
    assert!(hint.contains("but this branch does not"), "{hint}");
    let hint = missing_manifest_hint(false, false, "/repo", true, false).expect("hint");
    assert!(hint.ends_with("cp /repo/magictree.toml ."), "{hint}");
    assert_eq!(creation_refused(true, &Some("h".to_string())), None);
    assert_eq!(
        creation_refused(false, &Some("h".to_string())).as_deref(),
        Some("cannot start a stack in the new worktree\n\nh")
    );
    assert_eq!(
        nothing_to_start("/x", &Some("h".to_string())).as_deref(),
        Some("/x has no stack definition\n\nh")
    );
}

#[test]
fn a_checkout_is_live_gone_or_unknown() {
    let key = main_repo().key();
    assert!(matches!(checkout_state(&live("/x"), &key), Checkout::Live));
    assert!(matches!(checkout_state(&live("/x"), "other"), Checkout::Gone));
    assert!(matches!(checkout_state(&gone("/x"), &key), Checkout::Gone));
    let broken = Sighting { spot: spot("/x"), exists: true, opened: Opened::Failed };
    assert!(matches!(checkout_state(&broken, &key), Checkout::Unknown));
    assert_eq!(live_worktrees(&vec![live("/x"), gone("/y")], &key).len(), 1);
}

fn said(steps: &[GcStep]) -> Vec<String> {
    steps
        .iter()
        .filter_map(|step| match step {
            GcStep::Say(line) => Some(line.clone()),
            _ => None,
        })
        .collect()
}

#[test]
fn a_sweep_releases_what_is_gone_and_spares_what_is_live() {
    let key = main_repo().key();
    let blocks = vec![block("x", Some("/x"), 20000), block("y", Some("/y"), 20020), block("z", None, 20040)];
    let states = vec![state("x", "/x", 20000), state("y", "/y", 20020)];
    let seen = vec![live("/x"), gone("/y")];
    let sweep = gc(&paths(), &key, &seen, &blocks, &states, 20, true);
    assert_eq!(sweep.projects, strings(&["proj"]));
    let removed: Vec<String> = sweep
        .steps
        .iter()
        .filter_map(|step| match step {
            GcStep::RemoveFile(path) | GcStep::RemoveDir(path) => Some(path.clone()),
            _ => None,
        })
        .collect();
    assert_eq!(
        removed,
        vec!["/s/blocks/20020.json".to_string(), format!("/s/worktrees/{key}/y")]
    );
    assert_eq!(
        said(&sweep.steps),
        strings(&[
            "released block 20020-20039 (worktree y)",
            "stopping web (pid 7) of worktree /y",
        ])
    );
    let dry = gc(&paths(), &key, &seen, &blocks, &states, 20, false);
    assert!(dry.steps.iter().all(|step| matches!(step, GcStep::Say(_))));
    assert_eq!(
        said(&gc(&paths(), &key, &vec![live("/x")], &Vec::new(), &Vec::new(), 20, true).steps),
        strings(&[
            "no stale port blocks for this repository",
            "no stale worktree state for this repository",
        ])
    );
}

#[test]
fn every_recorded_repository_is_swept() {
    let blocks = vec![block("y", Some("/y"), 20020)];
    let states = vec![state("y", "/y", 20020)];
    let dirs = strings(&["aaaa"]);
    let keys = recorded_repositories(&blocks, &dirs);
    assert_eq!(keys.len(), 2);
    assert_eq!(recorded_worktrees(&blocks, &states, &main_repo().key()), strings(&["/y"]));
    let seen: Vec<Vec<Sighting>> = keys
        .iter()
        .map(|key| if *key == main_repo().key() { vec![gone("/y")] } else { Vec::new() })
        .collect();
    let sweeps = gc_all(&paths(), &dirs, &seen, &blocks, &states, 20, true);
    assert_eq!(sweeps.len(), 2);
    let all: Vec<String> = sweeps.iter().flat_map(|sweep| said(&sweep.steps)).collect();
    assert!(all.contains(&"released block 20020-20039 (worktree y)".to_string()), "{all:?}");
}

#[test]
fn orphaned_containers_are_removed_by_project() {
    assert_eq!(container_query("k")[3], "label=magictree.repo=k");
    let listed = containers("c1\t/x\tp1\nc2\t/y\tp2\nc3\t\tp3\n\n");
    assert_eq!(listed.len(), 2);
    let owners = vec![spot("/x"), spot("/y")];
    let found = orphans(&listed, &owners, &vec![spot("/x")]);
    assert_eq!(found.len(), 1);
    assert_eq!(found.get("p2").map(|ids| ids.list.clone()), Some(strings(&["c2"])));
    let projects = compose_projects(&found, &strings(&["p1"]));
    assert_eq!(projects, strings(&["p1", "p2"]));
    let steps = sweep_compose(&found, &projects, true);
    assert!(
        matches!(&steps[0], ComposeStep::Say(line) if line == "removing 1 orphaned container(s) in project 'p2'")
    );
    assert!(matches!(&steps[1], ComposeStep::Run(args) if *args == strings(&["rm", "-f", "c2"])));
    let none = sweep_compose(&Dict::new(), &Vec::new(), true);
    assert!(
        matches!(&none[0], ComposeStep::Say(line) if line == "no orphaned compose containers for this repository")
    );
    assert_eq!(volume_query("p")[3], "label=com.docker.compose.project=p");
    let volumes = sweep_volumes(" v1 \n\n", false);
    assert_eq!(volumes.len(), 1);
    assert!(matches!(&volumes[0], ComposeStep::Say(line) if line == "would remove volume v1"));
    assert_eq!(volume_failed("v1", "busy"), "could not remove volume v1: busy");
    assert_eq!(
        docker_skipped(&strings(&["ps"]), &None),
        "warning: docker is not available; compose checks were skipped"
    );
    assert_eq!(
        docker_skipped(&strings(&["ps"]), &Some(" no ".to_string())),
        "warning: docker ps failed (no); compose checks were skipped"
    );
    assert_eq!(docker_failed(&strings(&["rm", "x"]), "no"), "docker rm x failed: no");
    assert_eq!(recorded_project("COMPOSE_PROJECT_NAME= p \n").as_deref(), Some("p"));
    assert_eq!(recorded_project("COMPOSE_PROJECT_NAME=\n"), None);
}

#[test]
fn a_removal_forgets_the_worktree() {
    assert_eq!(
        forget(&Some(assignment("x", None, 20000)), 20).as_deref(),
        Some("released block 20000-20019 (worktree x)")
    );
    assert_eq!(forget(&None, 20), None);
    assert_eq!(stopping_line("web", 7, "x"), "stopping web (pid 7) of worktree x");
}

#[test]
fn linked_worktrees_are_listed_with_their_ports() {
    assert_eq!(describe_ports(&assignment("x", None, 20000)), "db=20000 web=20001");
    assert_eq!(admin_pointer("/repo/.git/worktrees/x", "/x/.git\n"), "/x/.git");
    assert_eq!(
        admin_pointer("/repo/.git/worktrees/x", "../../../x/.git\n"),
        "/repo/.git/worktrees/x/../../../x/.git"
    );
    let dirs = vec![AdminDir {
        dir: "/repo/.git/worktrees/x".to_string(),
        checkout: Some("/x".to_string()),
    }];
    assert_eq!(admin_id(&dirs, "/x").as_deref(), Some("x"));
    assert_eq!(admin_id(&dirs, "/repo"), None);
    let entries = vec![entry("/repo", Some("main")), entry("/x", Some("feat"))];
    let ids = vec![None, Some("x".to_string())];
    let rows = worktree_rows(&main_repo(), &entries, &ids, &vec![assignment("x", None, 20000)]);
    assert_eq!(rows.len(), 1);
    let lines = list_lines(&rows);
    assert_eq!(lines[0], format!("{:<10} {:<44} ports", "worktree", "path"));
    assert_eq!(lines[1], format!("{:<10} {:<44} db=20000 web=20001", "x", "/x"));
    assert_eq!(find_worktree(&None, &entries, &ids, "feat").as_deref(), Some("/x"));
    assert_eq!(find_worktree(&None, &entries, &ids, "x").as_deref(), Some("/x"));
    assert_eq!(find_worktree(&Some("/d".to_string()), &entries, &ids, "d").as_deref(), Some("/d"));
    assert_eq!(find_worktree(&None, &entries, &ids, "nope"), None);
    // The primary checkout is no worktree to remove, by its branch, its name or its path.
    for target in ["main", "repo"] {
        assert_eq!(find_worktree(&None, &entries, &ids, target), None);
        assert!(names_primary(None, &entries, &ids, target));
    }
    assert!(!names_primary(None, &entries, &ids, "feat"));
    assert!(!names_primary(None, &entries, &ids, "nope"));
    assert!(names_primary(Some(true), &entries, &ids, "/repo"));
    assert_eq!(
        resolve_target(&Some("/repo".to_string()), true, &Vec::new(), "/repo").unwrap_err(),
        "'/repo' is a repository's primary checkout, which `rm` does not remove"
    );
}

#[test]
fn every_record_is_listed_and_marked() {
    let blocks = vec![block("main", Some("/repo"), 20000), block("x", Some("/x"), 20020)];
    let states = vec![state("y", "/y", 20040)];
    let rows = records(&blocks, &states);
    assert_eq!(rows.len(), 3);
    let seen: Vec<Option<Sighting>> = rows
        .iter()
        .map(|row| match row.path.as_deref() {
            Some("/y") => Some(gone("/y")),
            Some(path) => Some(live(path)),
            None => None,
        })
        .collect();
    let rows = all_worktree_rows(&rows, &seen);
    let marks: Vec<(String, String)> =
        rows.iter().map(|row| (row.worktree_id.clone(), mark(row).to_string())).collect();
    assert!(marks.contains(&("main".to_string(), "primary".to_string())), "{marks:?}");
    assert!(marks.contains(&("x".to_string(), "live".to_string())), "{marks:?}");
    assert!(marks.contains(&("y".to_string(), "gone".to_string())), "{marks:?}");
    let lines = list_all_lines(&rows);
    assert_eq!(lines[0], "/repo");
    assert_eq!(lines.len(), 4);

    let spots: Vec<Option<Spot>> = rows.iter().map(|row| row.path.as_deref().map(spot)).collect();
    let found = recorded_matches(&rows, &spots, "x", &spot("/cwd/x"));
    assert_eq!(found.len(), 1);
    assert_eq!(resolve_target(&None, false, &found, "x").as_deref(), Ok("/x"));
    let primary = recorded_matches(&rows, &spots, "main", &spot("/cwd/main"));
    assert_eq!(
        resolve_target(&None, false, &primary, "main").unwrap_err(),
        "'main' is a repository's primary checkout, which `rm` does not remove"
    );
    assert_eq!(
        resolve_target(&None, false, &Vec::new(), "q").unwrap_err(),
        "no worktree matches 'q'"
    );
    let both: Vec<RecordedWorktree> = vec![found[0].clone(), found[0].clone()];
    assert!(resolve_target(&None, false, &both, "x").unwrap_err().contains("\n  /x"));
}
