use magictree::cli::setup::{
    accept_defaults, answered, describe_applied, describe_planned, keeping_line, recorded_warnings,
    report_written, show_report,
};
use magictree::dict::Dict;
use magictree::discover::extractors::{
    app_dirs, extract, install_command, install_inputs, node_runner, repo_facts, workspace_patterns,
};
use magictree::discover::report::{Answer, FactData, FactKind, Report, UnknownKind};
use magictree::discover::snapshot::{
    levels_below, may_be_read, pattern_dir, Entry, Snapshot, WALK_DEPTH,
};
use magictree::doctor::{self, check, compare};
use magictree::init::wizard::{ask, hear, open_questions, with_replayed, Heard};
use magictree::init::{
    default_answers, nothing_recorded, nothing_stored, plan, preview, record, recorded, warnings, Applied, Existing,
    Generated, ServiceBlock,
};
use magictree::manifest::{
    Bootstrap, ComposeRef, Expose, Found, Loaded, Manifest, PortSpec, Reading, RunStep, Service, Wait,
    MANIFEST_VERSION,
};

/// A repository of these files.
fn snapshot(files: &[(&str, &str)]) -> Snapshot {
    let mut entries: Dict<Entry> = Dict::new();
    let mut dirs: Vec<(String, Vec<String>)> = vec![("/r".to_string(), Vec::new())];
    for (path, contents) in files {
        let mut parent = "/r".to_string();
        let parts: Vec<&str> = path.split('/').collect();
        for (i, part) in parts.iter().enumerate() {
            let index = dirs.iter().position(|(dir, _)| *dir == parent).expect("parent");
            if !dirs[index].1.contains(&part.to_string()) {
                dirs[index].1.push(part.to_string());
            }
            let here = format!("{parent}/{part}");
            if i + 1 == parts.len() {
                entries.insert(here, Entry::File(Some(contents.to_string())));
            } else {
                if !dirs.iter().any(|(dir, _)| *dir == here) {
                    dirs.push((here.clone(), Vec::new()));
                }
                parent = here;
            }
        }
    }
    for (dir, names) in dirs {
        entries.insert(dir, Entry::Dir(names));
    }
    Snapshot { root: "/r".to_string(), entries }
}

const PACKAGE: &str = r#"{"name":"web","packageManager":"pnpm@9","scripts":{"dev":"next dev -p 3005","build":"next build"},"dependencies":{"next":"1"}}"#;
const COMPOSE: &str = "services:\n  db:\n    image: postgres\n    ports:\n      - \"${DB_PORT:-5432}:5432\"\n  api:\n    build: .\n    depends_on: [db]\n";

fn repository() -> Snapshot {
    snapshot(&[
        ("pnpm-workspace.yaml", "packages:\n  - apps/*\n"),
        ("docker-compose.yml", COMPOSE),
        ("apps/web/package.json", PACKAGE),
        ("apps/web/pnpm-lock.yaml", ""),
        ("apps/notes/README.md", ""),
    ])
}

fn report(snapshot: &Snapshot) -> Report {
    let repo = repo_facts("/r", None, &Vec::new());
    extract(snapshot, repo).report.finalize(&Vec::new())
}

#[test]
fn a_repository_is_read_into_facts() {
    let snapshot = repository();
    assert_eq!(workspace_patterns(&snapshot), vec!["apps/*".to_string()]);
    let report = report(&snapshot);
    assert_eq!(app_dirs(&report.apps), vec!["apps/web".to_string()]);
    assert_eq!(report.apps[0].id, "web");
    assert_eq!(report.apps[0].source, "pnpm");
    let kinds: Vec<FactKind> = report.facts.iter().map(|fact| fact.kind).collect();
    assert!(kinds.contains(&FactKind::Workspace), "{kinds:?}");
    assert!(kinds.contains(&FactKind::Node), "{kinds:?}");
    let compose = report.facts.iter().find(|fact| fact.kind == FactKind::Compose).expect("compose");
    match &compose.data {
        FactData::Compose { services, has_build, .. } => {
            assert!(*has_build);
            assert_eq!(services[0].name, "api");
            assert_eq!(services[0].depends_on, vec!["db".to_string()]);
            assert_eq!(services[1].ports, vec!["${DB_PORT:-5432}:5432".to_string()]);
        }
        _ => panic!("not a compose fact"),
    }
    for (i, fact) in report.facts.iter().enumerate() {
        assert_eq!(fact.id, format!("f{}", i + 1));
    }
    assert!(report.report_hash.starts_with("sha256:"));
    assert_eq!(report.report_hash.len(), "sha256:".len() + 64);
}

#[test]
fn a_pattern_that_matches_nothing_is_named() {
    let snapshot = snapshot(&[("pnpm-workspace.yaml", "packages: [\"libs/*\"]\n")]);
    let warnings = extract(&snapshot, repo_facts("/r", None, &Vec::new())).warnings;
    assert!(warnings.iter().any(|line| line.contains("libs/*")), "{warnings:?}");
}

#[test]
fn lockfiles_decide_how_to_install() {
    let snapshot = repository();
    assert_eq!(install_command(&snapshot, "/r/apps/web").as_deref(), Some("pnpm install"));
    assert!(install_inputs(&snapshot, "/r/apps/web").contains(&"pnpm-lock.yaml".to_string()));
    assert_eq!(node_runner(&snapshot, "/r/apps/web", &Some("pnpm@9".to_string())), "pnpm");
    assert_eq!(install_command(&snapshot, "/r"), None);
}

#[test]
fn the_fingerprint_ignores_the_order_of_the_facts() {
    let report = report(&repository());
    let (a, b) = ("a".to_string(), "b".to_string());
    let forward = report.compute_hash(&vec![a.clone(), b.clone()]);
    assert_eq!(forward, report.compute_hash(&vec![b.clone(), a.clone()]));
    assert_ne!(forward, report.compute_hash(&vec![a.clone(), a]));
}

#[test]
fn a_report_is_shown() {
    let report = report(&repository());
    let text = show_report(&report).join("\n");
    assert!(text.contains("repo   /r"), "{text}");
    assert!(text.contains("apps   apps/web"), "{text}");
    assert!(text.contains("# hardcoded ports"), "{text}");
    assert!(text.contains("-p 3005"), "{text}");
    assert_eq!(
        report_written(&report, "/out.json", true),
        format!(
            "dry run: would write /out.json ({} facts, {} unknowns)",
            report.facts.len(),
            report.unknowns.len()
        )
    );
}

#[test]
fn defaults_answer_every_choice_with_an_offer() {
    let report = report(&repository());
    let answers = default_answers(&report);
    assert_eq!(answers.report_hash, report.report_hash);
    for unknown in &report.unknowns {
        if unknown.kind == UnknownKind::Choice {
            let answer = answers.answers.get(&unknown.id).expect("answer");
            assert!(unknown.options.iter().any(|option| Some(option.as_str()) == answer.as_one()));
        }
    }
    assert_eq!(answered(&answers).len(), answers.answers.len());
}

#[test]
fn a_plan_is_written_then_left_alone() {
    let snapshot = repository();
    let report = report(&snapshot);
    let none = nothing_recorded();
    let session = accept_defaults(&report, &none);
    let stored = record(&report, &session.answers, &none, &session.asked);
    let planned = plan(&report, &session.answers, &stored, "/r").expect("plan");
    assert_eq!(planned[0].path, "/r/apps/web/magictree.toml");
    assert_eq!(planned[1].path, "/r/magictree.toml");
    assert!(planned[1].records_answers && !planned[0].records_answers);
    let missing: Vec<Option<Existing>> = planned.iter().map(|_| None).collect();
    let decided = preview(&planned, &missing, false).expect("preview");
    for (applied, contents) in &decided {
        assert!(matches!(applied, Applied::Created(_)));
        assert!(describe_applied(applied).line.starts_with("wrote /r/"));
        assert!(describe_planned(applied, contents).starts_with("# /r/"));
    }
    let root = decided[1].1.clone();
    assert!(root.contains("[workspace]"), "{root}");

    // The root manifest records the answers, and a second run asks nothing.
    let replayed = recorded(&Some(root.clone()), &report).expect("recorded");
    assert!(recorded_warnings(&replayed).is_empty());
    for unknown in &report.unknowns {
        let given = session.answers.answers.get(&unknown.id).expect("answer");
        let kept = replayed.answers.get(&unknown.id).expect("recorded answer");
        assert!(kept.same(given), "{}", unknown.id);
        assert!(replayed.settled(&unknown.id));
    }
    assert!(open_questions(&report, &replayed).is_empty());
    assert!(keeping_line(&replayed, "/r/magictree.toml").is_some());
    let again = with_replayed(&report, &replayed, &Dict::new());
    assert_eq!(again.answers.len(), session.answers.answers.len());
}

#[test]
fn a_new_option_reopens_only_its_question() {
    let report = report(&repository());
    let mut answers = default_answers(&report);
    let run = report
        .unknowns
        .iter()
        .find(|unknown| unknown.id.ends_with(".run"))
        .expect("how the app runs");
    answers.answers.insert(run.id.clone(), Answer::One("skip".to_string()));
    let ids: Vec<String> = report.unknowns.iter().map(|unknown| unknown.id.clone()).collect();
    let stored = record(&report, &answers, &nothing_recorded(), &ids);
    let planned = plan(&report, &answers, &stored, "/r").expect("plan");
    let missing: Vec<Option<Existing>> = planned.iter().map(|_| None).collect();
    let decided = preview(&planned, &missing, false).expect("preview");
    let root = decided[decided.len() - 1].1.clone();

    let same = recorded(&Some(root.clone()), &report).expect("recorded");
    assert!(ids.iter().all(|id| same.settled(id)));
    assert!(same.dropped.is_empty() && same.reopened.len() == 0);

    let mut grown = report.clone();
    let set = grown
        .unknowns
        .iter()
        .position(|unknown| unknown.kind == UnknownKind::MultiChoice)
        .expect("a set question");
    grown.unknowns[set].options.insert(0, "another".to_string());
    let replayed = recorded(&Some(root), &grown).expect("recorded");
    for (i, id) in ids.iter().enumerate() {
        assert_eq!(replayed.settled(id), i != set, "{id}");
    }
    assert_eq!(replayed.reopened.len(), 1);
    assert_eq!(replayed.reopened.get(&ids[set]).expect("reopened").list, vec!["another"]);
    assert!(replayed.dropped.is_empty());
    assert!(replayed.settled(&run.id), "a skipped step stays skipped");
}

#[test]
fn an_unanswered_question_stops_the_plan() {
    let snapshot = repository();
    let report = report(&snapshot);
    let mut answers = default_answers(&report);
    let id = report.unknowns[0].id.clone();
    answers.answers.remove(&id);
    let stored = record(&report, &answers, &nothing_recorded(), &Vec::new());
    let error = plan(&report, &answers, &stored, "/r").unwrap_err();
    assert!(error.contains(&id), "{error}");
    let mut stale = default_answers(&report);
    stale.report_hash = "sha256:0".to_string();
    assert!(plan(&report, &stale, &stored, "/r").is_err());
}

#[test]
fn tagged_values_are_read_only_behind_their_tag() {
    let compose = [
        "services:\n",
        "  web:\n",
        "    image: !pinned nginx\n",
        "    depends_on: !merged [db]\n",
        "    command: !shell run\n",
        "    profiles: !only [dev]\n",
        "    ports: !all [!one \"80:80\", \"81:81\", {target: !n 82}]\n",
        "  ? !named worker\n",
        "  : command: \"printf 'a\\rb'\"\n",
        "    depends_on: [!first web]\n",
        "    !x build: .\n",
    ]
    .concat();
    let report = report(&snapshot(&[("compose.yaml", &compose)]));
    let services = report
        .facts
        .iter()
        .find_map(|fact| match &fact.data {
            FactData::Compose { services, .. } => Some(services),
            _ => None,
        })
        .expect("a compose file");
    let names: Vec<&str> = services.iter().map(|service| service.name.as_str()).collect();
    assert_eq!(names, vec!["web", "worker"]);
    assert_eq!(services[0].image.as_deref(), Some("nginx"));
    assert!(services[0].depends_on.is_empty());
    assert_eq!(services[0].command, None);
    assert!(services[0].profiles.is_empty());
    assert_eq!(services[0].ports, vec!["81:81"]);
    assert_eq!(services[1].command.as_deref(), Some("printf 'a\rb'"));
    assert_eq!(services[1].depends_on, vec!["web"]);
    assert!(!services[1].has_build);
}

#[test]
fn a_moment_is_no_table() {
    let tasks = |contents: &str| {
        report(&snapshot(&[("mise.toml", contents)]))
            .facts
            .iter()
            .find_map(|fact| match &fact.data {
                FactData::Mise { tasks, tools, .. } => Some((tasks.clone(), tools.clone())),
                _ => None,
            })
            .expect("a mise file")
    };
    let (names, tools) = tasks("tools = 1979-05-27T07:32:00Z\n[tasks.dev]\nrun = \"vite\"\n");
    assert_eq!(names, vec!["dev"]);
    assert!(tools.is_empty());
    assert!(tasks("tasks = 07:32:00\n").0.is_empty());
}

#[test]
fn a_snapshot_holds_what_discovery_reads() {
    for name in ["package.json", "vite.config.mts", ".env", ".env.local", ".justfile", "Procfile"] {
        assert!(may_be_read(name), "{name}");
    }
    for name in [".json", "json", "README.md", "justfile.bak", "main.rs", "package.JSON"] {
        assert!(!may_be_read(name), "{name}");
    }
    assert_eq!(levels_below("apps", WALK_DEPTH), Some(WALK_DEPTH - 1));
    assert_eq!(levels_below("node_modules", WALK_DEPTH), Some(0));
    assert_eq!(levels_below(".git", 3), Some(0));
    assert_eq!(levels_below(".storybook", 3), Some(2));
    assert_eq!(levels_below(".storybook", 0), Some(0));
    assert_eq!(levels_below("apps", 0), None);
    assert_eq!(pattern_dir("/r", "apps/*"), "/r/apps");
    assert_eq!(pattern_dir("/r", "/*"), "/r");
    assert_eq!(pattern_dir("/r", "./packages/web"), "/r/packages/web");
}

#[test]
fn a_new_lockfile_is_a_new_report() {
    let before = report(&snapshot(&[("package.json", "{}")]));
    let after = report(&snapshot(&[("package.json", "{}"), ("package-lock.json", "{}")]));
    assert_eq!(before.apps[0].install.as_deref(), Some("npm install"));
    assert_eq!(before.apps[0].install_inputs, vec!["package.json"]);
    assert_eq!(after.apps[0].install_inputs, vec!["package-lock.json", "package.json"]);
    assert_ne!(before.report_hash, after.report_hash);
    let none = nothing_recorded();
    let session = accept_defaults(&before, &none);
    let stored = record(&before, &session.answers, &none, &session.asked);
    let planned = plan(&before, &session.answers, &stored, "/r").expect("plan");
    assert!(
        planned[0].contents().contains("{ command = \"npm install\", inputs = [\"package.json\"] }"),
        "{}",
        planned[0].contents()
    );
    // Answers that were given for the earlier report are not taken for the later one.
    assert!(plan(&after, &session.answers, &stored, "/r").is_err());
}

#[test]
fn an_existing_manifest_only_gains_what_it_lacks() {
    let snapshot = repository();
    let report = report(&snapshot);
    let none = nothing_recorded();
    let session = accept_defaults(&report, &none);
    let stored = record(&report, &session.answers, &none, &session.asked);
    let planned = plan(&report, &session.answers, &stored, "/r").expect("plan");
    let existing: Vec<Option<Existing>> = planned
        .iter()
        .map(|file| {
            let services = file.services.iter().map(|block| service(&block.id)).collect();
            Some(Existing {
                contents: file.contents(),
                reading: Reading::Parsed(manifest(services)),
            })
        })
        .collect();
    for (applied, contents) in preview(&planned, &existing, false).expect("preview") {
        assert!(matches!(applied, Applied::Unchanged(_)), "{contents}");
    }
    for (applied, _) in preview(&planned, &existing, true).expect("preview") {
        assert!(matches!(applied, Applied::Created(_)));
    }
    let bare: Vec<Option<Existing>> = planned
        .iter()
        .map(|_| {
            Some(Existing {
                contents: "version = 1\n# mine\n".to_string(),
                reading: Reading::Parsed(manifest(Vec::new())),
            })
        })
        .collect();
    for (i, (applied, contents)) in preview(&planned, &bare, false).expect("preview").iter().enumerate() {
        assert!(contents.starts_with("version = 1\n# mine\n"), "{contents}");
        if let Applied::Updated { added, .. } = applied {
            assert_eq!(added.len(), planned[i].services.len());
        }
    }
    let broken: Vec<Option<Existing>> = planned
        .iter()
        .map(|_| {
            Some(Existing {
                contents: "x".to_string(),
                reading: Reading::Failed("bad".to_string()),
            })
        })
        .collect();
    assert_eq!(
        preview(&planned, &broken, false).unwrap_err(),
        "reading the services of /r/apps/web/magictree.toml: bad"
    );
}

fn preview_one(step: &str, services: Vec<Service>) -> (Applied, String) {
    let planned = vec![Generated {
        path: "/r/magictree.toml".to_string(),
        header: String::new(),
        services: vec![ServiceBlock {
            id: "web".to_string(),
            step: Some(step.to_string()),
            text: "[[services]]\n".to_string(),
        }],
        records_answers: false,
        stored: nothing_stored(),
    }];
    let existing = vec![Some(Existing {
        contents: "version = 1\n".to_string(),
        reading: Reading::Parsed(manifest(services)),
    })];
    preview(&planned, &existing, false).expect("preview").remove(0)
}

#[test]
fn a_step_is_not_added_a_second_time() {
    let running = |command: &str| {
        let mut site = service("site");
        site.command = Some(command.to_string());
        vec![site]
    };
    for (step, command) in [
        ("yarn:dev", "yarn run dev"),
        ("bun:dev", "bun run dev -p 3000"),
        ("npm:dev", "npm run dev"),
        ("just:dev", "just dev"),
        ("mise:dev", "mise run dev"),
        ("command:node server.js", "node server.js"),
        ("procfile:web", "<command from Procfile:web>"),
    ] {
        let (applied, contents) = preview_one(step, running(command));
        assert!(matches!(applied, Applied::Unchanged(_)), "{step}");
        assert_eq!(contents, "version = 1\n");
    }
    for (step, command) in [("yarn:dev", "yarn run build"), ("yarn:dev", "bun run dev")] {
        let (applied, _) = preview_one(step, running(command));
        assert!(matches!(applied, Applied::Updated { added, .. } if added == vec!["web"]), "{step}");
    }
}

#[test]
fn a_procfile_offers_its_processes() {
    let report = report(&snapshot(&[
        ("package.json", "{}"),
        ("Procfile", "web: node server.js\n"),
    ]));
    assert_eq!(report.apps.len(), 1);
    assert_eq!(report.apps[0].dir, ".");
    let id = format!("{}.run", report.apps[0].id);
    let question = report.unknowns.iter().find(|unknown| unknown.id == id).expect("question");
    assert_eq!(question.kind, UnknownKind::Choice);
    assert!(question.options.contains(&"procfile:web".to_string()), "{:?}", question.options);
}

#[test]
fn an_app_without_a_way_to_run_is_asked_about() {
    let snapshot = snapshot(&[
        ("pnpm-workspace.yaml", "packages:\n  - apps/*\n"),
        ("apps/api/go.mod", "module x\n"),
    ]);
    let report = report(&snapshot);
    let id = format!("{}.run", report.apps[0].id);
    let question = report.unknowns.iter().find(|unknown| unknown.id == id).expect("question");
    assert_eq!(question.kind, UnknownKind::Text);
    assert_eq!(question.default.as_deref(), Some("skip"));
    let none = nothing_recorded();
    let session = accept_defaults(&report, &none);
    let mut answers = session.answers;
    let stored = record(&report, &answers, &none, &session.asked);
    let planned = plan(&report, &answers, &stored, "/r").expect("plan");
    assert!(planned.iter().all(|file| file.services.is_empty()));
    answers.answers.insert(id, Answer::One("command:go run .".to_string()));
    let planned = plan(&report, &answers, &stored, "/r").expect("plan");
    assert!(planned[0].contents().contains("command = \"go run .\""), "{}", planned[0].contents());
}

#[test]
fn a_date_is_no_table() {
    let report = report(&snapshot(&[(
        "pyproject.toml",
        "[project]\nscripts = 1979-05-27\n[dependency-groups]\ndev = []\n",
    )]));
    let found = report.facts.iter().any(|fact| {
        matches!(
            &fact.data,
            FactData::Python { scripts, dependency_groups, .. }
                if scripts.is_empty() && *dependency_groups == vec!["dev"]
        )
    });
    assert!(found);
}

#[test]
fn a_changed_record_leaves_the_other_lines_alone() {
    let snapshot = repository();
    let report = report(&snapshot);
    let none = nothing_recorded();
    let session = accept_defaults(&report, &none);
    let stored = record(&report, &session.answers, &none, &session.asked);
    let planned = plan(&report, &session.answers, &stored, "/r").expect("plan");
    let missing: Vec<Option<Existing>> = planned.iter().map(|_| None).collect();
    let first = preview(&planned, &missing, false).expect("preview");
    // The record is taken out, and a comment stands at the top.
    let kept: Vec<&str> = first[1]
        .1
        .lines()
        .filter(|line| !line.starts_with("answers =") && !line.starts_with("declined ="))
        .collect();
    assert!(kept.len() < first[1].1.lines().count(), "{}", first[1].1);
    let edited = format!("# mine\n{}\n", kept.join("\n"));
    let existing: Vec<Option<Existing>> = planned
        .iter()
        .enumerate()
        .map(|(i, file)| {
            let services = file.services.iter().map(|block| service(&block.id)).collect();
            let contents = if i == 1 { edited.clone() } else { first[i].1.clone() };
            Some(Existing {
                contents,
                reading: Reading::Parsed(manifest(services)),
            })
        })
        .collect();
    let second = preview(&planned, &existing, false).expect("preview");
    assert!(matches!(second[0].0, Applied::Unchanged(_)));
    assert!(matches!(second[1].0, Applied::Updated { .. }), "{}", second[1].1);
    for line in edited.lines() {
        assert!(second[1].1.lines().any(|other| other == line), "{line}");
    }
    let replayed = recorded(&Some(second[1].1.clone()), &report).expect("recorded");
    assert!(open_questions(&report, &replayed).is_empty());
}

#[test]
fn a_pinned_port_is_worth_a_warning() {
    let report = report(&repository());
    let answers = default_answers(&report);
    let text = warnings(&report, &answers).join("\n");
    assert!(text.contains("3005"), "{text}");
}

#[test]
fn questions_are_asked_one_line_at_a_time() {
    let report = report(&repository());
    let question = report
        .unknowns
        .iter()
        .find(|unknown| unknown.kind == UnknownKind::Choice)
        .expect("choice");
    let text = ask(question, &Vec::new());
    assert!(text.contains(&question.question) && text.ends_with("> "), "{text}");
    assert!(matches!(hear(question, Some("1\n"), false), Heard::Answered(Answer::One(_))));
    assert!(matches!(hear(question, Some("no such option\n"), false), Heard::Again(_)));
    assert!(matches!(hear(question, Some("no such option\n"), true), Heard::Failed(_)));
    assert!(
        matches!(hear(question, None, false), Heard::Failed(m) if m == "input ended before every question was answered")
    );
}

fn manifest(services: Vec<Service>) -> Manifest {
    Manifest {
        version: MANIFEST_VERSION,
        workspace: None,
        app: None,
        env: Dict::new(),
        bootstrap: Bootstrap { sync: Vec::new(), run: Vec::new(), after: Vec::new() },
        services,
        jobs: Dict::new(),
    }
}

fn service(id: &str) -> Service {
    Service {
        id: id.to_string(),
        runtime: None,
        compose: None,
        target: None,
        command: Some("x".to_string()),
        port: None,
        ports: Vec::new(),
        expose: Expose::Nothing,
        needs: Vec::new(),
        health: None,
        wait: Wait::Running,
    }
}

#[test]
fn drift_is_found_and_described() {
    let report = report(&repository());
    let mut old = service("cache");
    old.command = None;
    old.compose = Some(ComposeRef { file: "docker-compose.yml".to_string(), service: "redis".to_string() });
    let mut root = manifest(vec![old]);
    root.bootstrap.run = vec![RunStep::Detailed {
        command: "make".to_string(),
        inputs: vec!["gone.lock".to_string()],
        outputs: Vec::new(),
        ask: false,
    }];
    let found = vec![Found { dir: "/r".to_string(), reading: Reading::Parsed(root) }];
    let loaded = Loaded::load("/r", &found).expect("manifests");
    let inputs = doctor::input_paths(&loaded);
    assert_eq!(inputs[0].path, "/r/gone.lock");
    let manifests = doctor::manifest_paths(&loaded);
    assert_eq!(manifests, vec!["/r/magictree.toml".to_string()]);
    let drift = compare(&report, &loaded, &manifests, &vec![inputs[0].path.clone()]);
    let summaries: Vec<&str> = drift.iter().map(|entry| entry.summary.as_str()).collect();
    assert!(
        summaries.contains(&"manifest references compose service 'redis', which no longer exists"),
        "{summaries:?}"
    );
    assert!(
        summaries.contains(&"magictree.toml is not committed, so new worktrees will not inherit it"),
        "{summaries:?}"
    );
    assert!(
        summaries.contains(&"bootstrap input 'gone.lock' for `make` does not exist"),
        "{summaries:?}"
    );
    let findings = doctor::describe(&drift);
    let count = drift.iter().filter(|entry| entry.is_drift()).count();
    assert_eq!(findings.result, Err(format!("{count} drift finding(s)")));
    assert!(findings.lines.iter().any(|line| line.starts_with("info  compose service 'db'")));

    let quiet = doctor::describe(&Vec::new());
    assert_eq!(quiet.lines, vec!["no drift: manifests match the repository".to_string()]);
    assert!(quiet.result.is_ok());
    assert!(check(&report, "/elsewhere", &found, &Vec::new(), &Vec::new()).is_err());
}

#[test]
fn a_storybook_that_is_handed_its_port_is_no_finding() {
    let report = report(&snapshot(&[(
        "package.json",
        r#"{"name":"web","scripts":{"storybook":"storybook dev -p 6006"}}"#,
    )]));
    let pins = |command: &str| {
        let mut book = service("storybook");
        book.command = Some(command.to_string());
        book.expose = Expose::Port;
        book.port = Some(PortSpec {
            name: None,
            target: None,
            env: Some("STORYBOOK_PORT".to_string()),
            prefer: Some(6006),
            require: None,
            browser_alias: false,
        });
        let found =
            vec![Found { dir: "/r".to_string(), reading: Reading::Parsed(manifest(vec![book])) }];
        let loaded = Loaded::load("/r", &found).expect("manifests");
        compare(&report, &loaded, &Vec::new(), &Vec::new())
            .iter()
            .filter(|entry| entry.summary.contains("pins port 6006"))
            .count()
    };
    assert_eq!(pins("yarn run storybook -p ${STORYBOOK_PORT:-6006} --no-open"), 0);
    assert_eq!(pins("yarn run storybook"), 1);
}

#[test]
fn a_manifest_is_written_in_full() {
    let snapshot = repository();
    let report = report(&snapshot);
    let none = nothing_recorded();
    let session = accept_defaults(&report, &none);
    let stored = record(&report, &session.answers, &none, &session.asked);
    let planned = plan(&report, &session.answers, &stored, "/r").expect("plan");
    assert_eq!(
        planned[0].contents(),
        r#"version = 1

[app]
id = "web"

[bootstrap]
run = [
  { command = "pnpm install", inputs = ["pnpm-lock.yaml", "package.json"] },
]

[[services]]
id = "web"
target = { kind = "pnpm", script = "dev" }
port = { env = "PORT" }
health = { http = "/", timeout = 120 }
"#
    );
    assert_eq!(
        planned[1].header,
        r#"version = 1

# Recorded by `magictree init`; replayed so only new questions are asked.
answers = { "compose.expose" = [], "compose.shared" = ["api", "db"], "web.run" = "pnpm:dev" }
declined = { "compose.expose" = ["db"] }

[workspace]
apps = ["apps/web"]
"#
    );
}
