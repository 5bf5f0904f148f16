use magictree::bootstrap::{
    confirm, decide_step, inputs_digest, is_ignored_cache, key_for, outputs_to_unlink, prompt,
    proving_step, question_line, record_step, share_source, source_dir, source_state_file,
    step_failure, step_messages, step_outcome, step_question, sync_file, Input, Source, State, StepDecision, StepFacts,
    StepOutcome, SyncAction, SyncFacts, Tree,
};
use magictree::dict::Dict;
use magictree::manifest::{Bootstrap, RunStep};
use magictree::paths::Paths;
use magictree::repo::Repo;

const DIR: &str = "/repo";

fn strings(list: &[&str]) -> Vec<String> {
    list.iter().map(|item| item.to_string()).collect()
}

fn step(command: &str, inputs: &[&str], outputs: &[&str], ask: bool) -> RunStep {
    RunStep::Detailed {
        command: command.to_string(),
        inputs: strings(inputs),
        outputs: strings(outputs),
        ask,
    }
}

fn nothing_recorded() -> State {
    State { bootstrap: Dict::new() }
}

fn file(name: &str, contents: &str) -> Input {
    Input { relative: name.to_string(), tree: Tree::File(contents.as_bytes().to_vec()) }
}

fn facts(digest: Option<String>, present: &[bool]) -> StepFacts {
    StepFacts {
        digest,
        there: None,
        present: present.to_vec(),
        linked: present.iter().map(|_| false).collect(),
    }
}

/// One step, as `up` takes it; also says whether the command ran.
fn run_step(
    state: &mut State,
    step: &RunStep,
    facts: &StepFacts,
    answer: &dyn Fn(&str) -> bool,
) -> (Vec<String>, bool) {
    let decision = decide_step(DIR, step, facts, state, &None);
    let yes = step_question(decision, step.asks()) && answer(&prompt(step.command()));
    let outcome = step_outcome(decision, step.asks(), yes);
    record_step(state, DIR, step.command(), &facts.digest, outcome);
    let messages = step_messages(step.command(), &outputs_to_unlink(step, facts), outcome);
    (messages, outcome == StepOutcome::Ran)
}

#[test]
fn an_asked_step_runs_only_on_a_yes() {
    let mut state = nothing_recorded();
    let command = "echo done > marker";
    let asked = step(command, &[], &[], true);

    let (declined, ran) = run_step(&mut state, &asked, &facts(None, &[]), &|_| false);
    assert_eq!(declined, vec![format!("run {command}: skipped")]);
    assert!(!ran, "a declined step must not run");

    let (accepted, ran) = run_step(&mut state, &asked, &facts(None, &[]), &|_| true);
    assert_eq!(accepted, vec![format!("run {command}: ok")]);
    assert!(ran, "an accepted step runs");
}

#[test]
fn a_cached_step_is_never_asked_about() {
    let mut state = nothing_recorded();
    let asked = step("true", &["input.txt"], &[], true);
    let digest = inputs_digest(&vec![file("input.txt", "v1")]);

    let (messages, _) =
        run_step(&mut state, &asked, &facts(Some(digest.clone()), &[]), &|_| true);
    assert_eq!(messages, vec!["run true: ok"]);

    let (again, _) = run_step(&mut state, &asked, &facts(Some(digest), &[]), &|_| {
        panic!("a cached step must not be asked about")
    });
    assert_eq!(again, vec!["run true: cached"]);
}

#[test]
fn a_declined_step_is_not_cached() {
    let mut state = nothing_recorded();
    let asked = step("true", &["input.txt"], &[], true);
    let digest = inputs_digest(&vec![file("input.txt", "v1")]);

    run_step(&mut state, &asked, &facts(Some(digest.clone()), &[]), &|_| false);

    // The decline cached nothing, so a later yes runs the step.
    let (messages, _) = run_step(&mut state, &asked, &facts(Some(digest), &[]), &|_| true);
    assert_eq!(messages, vec!["run true: ok"]);
}

#[test]
fn a_step_with_outputs_skips_while_present() {
    let mut state = nothing_recorded();
    let made = step("true", &[], &["out.txt"], false);

    let (first, _) = run_step(&mut state, &made, &facts(None, &[false]), &|_| true);
    assert_eq!(first, vec!["run true: ok"]);

    let (again, _) = run_step(&mut state, &made, &facts(None, &[true]), &|_| {
        panic!("a present output must not run the step")
    });
    assert_eq!(again, vec!["run true: present"]);
}

#[test]
fn a_missing_output_makes_a_cached_step_run() {
    let mut state = nothing_recorded();
    let command = "touch out.txt";
    let made = step(command, &["input.txt"], &["out.txt"], false);
    let digest = inputs_digest(&vec![file("input.txt", "v1")]);

    let (first, _) =
        run_step(&mut state, &made, &facts(Some(digest.clone()), &[false]), &|_| true);
    assert_eq!(first, vec![format!("run {command}: ok")]);

    let (cached, _) =
        run_step(&mut state, &made, &facts(Some(digest.clone()), &[true]), &|_| true);
    assert_eq!(cached, vec![format!("run {command}: cached")]);

    // The declared artefact is missing even though the digest is unchanged: the record must not
    // overrule that.
    let (run_again, _) = run_step(&mut state, &made, &facts(Some(digest), &[false]), &|_| true);
    assert_eq!(run_again, vec![format!("run {command}: ok")]);
}

#[test]
fn a_step_ends_as_it_was_decided_and_answered() {
    for confirmed in [false, true] {
        for asks in [false, true] {
            for (decision, outcome) in [
                (StepDecision::Linked, StepOutcome::Linked),
                (StepDecision::Present, StepOutcome::Present),
                (StepDecision::Cached, StepOutcome::Cached),
            ] {
                assert_eq!(step_outcome(decision, asks, confirmed), outcome);
                assert!(!step_question(decision, asks));
            }
        }
    }
    assert!(step_question(StepDecision::Due, true));
    assert!(!step_question(StepDecision::Due, false));
    assert_eq!(step_outcome(StepDecision::Due, false, false), StepOutcome::Ran);
    assert_eq!(step_outcome(StepDecision::Due, true, false), StepOutcome::Declined);
    assert_eq!(step_outcome(StepDecision::Due, true, true), StepOutcome::Ran);
}

#[test]
fn an_asked_step_with_outputs_rests_until_one_is_missing() {
    let mut state = nothing_recorded();
    let asked = step("make", &["input.txt"], &["out.txt"], true);
    let digest = inputs_digest(&vec![file("input.txt", "v1")]);
    let at = |present: bool| facts(Some(digest.clone()), &[present]);

    let (messages, ran) = run_step(&mut state, &asked, &at(false), &|_| false);
    assert_eq!(messages, vec!["run make: skipped"]);
    assert!(!ran);
    assert!(run_step(&mut state, &asked, &at(false), &|_| true).1);
    let (messages, _) = run_step(&mut state, &asked, &at(true), &|_| {
        panic!("a cached step must not be asked about")
    });
    assert_eq!(messages, vec!["run make: cached"]);
    assert!(!run_step(&mut state, &asked, &at(false), &|_| false).1);
    assert!(run_step(&mut state, &asked, &at(false), &|_| true).1);
}

#[test]
fn hash_dir_ignores_python_caches() {
    let digest = |source: &str, cache: &str| {
        inputs_digest(&vec![Input {
            relative: "src".to_string(),
            tree: Tree::Dir(vec![
                (
                    "__pycache__".to_string(),
                    Tree::Dir(vec![(
                        "app.pyc".to_string(),
                        Tree::File(cache.as_bytes().to_vec()),
                    )]),
                ),
                ("app.py".to_string(), Tree::File(source.as_bytes().to_vec())),
            ]),
        }])
    };
    let before = digest("print('v1')", "cache-v1");

    // A rewritten bytecode cache must not invalidate the input.
    assert_eq!(before, digest("print('v1')", "cache-v2"), "a .pyc change is not a source change");

    // A real source change still does.
    assert_ne!(before, digest("print('v2')", "cache-v2"), "a source change invalidates the input");
}

#[test]
fn the_digest_is_the_sha256_of_names_and_contents() {
    assert_eq!(
        inputs_digest(&vec![file("input.txt", "v1")]),
        "ac1a3938a3a5a52efd6ffb3e981c544562f5d318528c11c75137981407f5fa60"
    );
    assert_eq!(
        inputs_digest(&Vec::new()),
        "e3b0c44298fc1c149afbf4c8996fb92427ae41e4649b934ca495991b7852b855"
    );
}

#[test]
fn caches_are_ignored_by_name() {
    assert!(is_ignored_cache("node_modules"));
    assert!(is_ignored_cache("app.pyc"));
    assert!(!is_ignored_cache(".pyc"));
    assert!(!is_ignored_cache("app.py"));
}

#[test]
fn a_link_counts_only_while_the_primary_checkout_proves_it() {
    let install = step("pnpm install", &["pnpm-lock.yaml"], &["node_modules"], false);
    let digest = inputs_digest(&vec![file("pnpm-lock.yaml", "v1")]);
    let mut linked = facts(Some(digest.clone()), &[true]);
    linked.linked = vec![true];
    linked.there = Some(digest.clone());

    let mut installed = Dict::new();
    installed.insert(key_for("/main", "pnpm install"), digest.clone());
    let source = Some(Source {
        manifest_dir: "/main".to_string(),
        state: State { bootstrap: installed },
    });
    assert_eq!(
        decide_step(DIR, &install, &linked, &nothing_recorded(), &source),
        StepDecision::Linked
    );

    // Without the record of the primary checkout the link proves nothing, and the step runs after
    // the link is gone.
    assert_eq!(
        decide_step(DIR, &install, &linked, &nothing_recorded(), &None),
        StepDecision::Due
    );
    assert_eq!(outputs_to_unlink(&install, &linked), vec!["node_modules"]);
    assert_eq!(
        step_messages("pnpm install", &strings(&["node_modules"]), StepOutcome::Ran),
        vec![
            "run pnpm install: unlinked node_modules from the primary checkout",
            "run pnpm install: ok"
        ]
    );
}

#[test]
fn a_step_without_inputs_runs_every_time() {
    let mut state = nothing_recorded();
    let bare = RunStep::Simple("make".to_string());
    assert!(run_step(&mut state, &bare, &facts(None, &[]), &|_| true).1);
    assert!(run_step(&mut state, &bare, &facts(None, &[]), &|_| true).1);
}

fn sync(facts: SyncFacts, steps: Vec<RunStep>, link: bool) -> SyncAction {
    let bootstrap = Bootstrap { sync: strings(&["node_modules"]), run: steps, after: Vec::new() };
    sync_file("/wt", "/main", "/wt/web", &bootstrap, "node_modules", &facts, &None, link)
}

fn seen(destination_exists: bool, source_exists: bool) -> SyncFacts {
    SyncFacts { destination_exists, source_exists, here: None, there: None }
}

fn left(action: SyncAction) -> String {
    match action {
        SyncAction::Leave(message) => message,
        SyncAction::Link { message, .. } => panic!("linked: {message}"),
    }
}

#[test]
fn a_path_is_linked_from_the_same_place_in_the_primary_checkout() {
    match sync(seen(false, true), Vec::new(), true) {
        SyncAction::Link { from, to, message } => {
            assert_eq!(from, "/main/web/node_modules");
            assert_eq!(to, "/wt/web/node_modules");
            assert_eq!(message, "sync node_modules: linked");
        }
        SyncAction::Leave(message) => panic!("{message}"),
    }
}

#[test]
fn a_path_that_is_not_linked_says_why() {
    assert_eq!(left(sync(seen(true, true), Vec::new(), true)), "sync node_modules: present");
    assert_eq!(
        left(sync(seen(false, false), Vec::new(), true)),
        "sync node_modules: missing in main checkout"
    );
    assert_eq!(
        left(sync(seen(false, true), Vec::new(), false)),
        "sync node_modules: disabled by config (sync = false), left to install"
    );
    // The step that makes the path declares no inputs, so nothing proves that the copies match.
    let install = step("pnpm install", &[], &["node_modules"], false);
    assert_eq!(
        left(sync(seen(false, true), vec![install], true)),
        "sync node_modules: no inputs prove the primary checkout's copy matches, left to install"
    );
}

#[test]
fn a_path_of_a_step_is_linked_only_for_the_same_inputs() {
    let install = step("pnpm install", &["pnpm-lock.yaml"], &["node_modules"], false);
    let bootstrap = Bootstrap {
        sync: strings(&["node_modules"]),
        run: vec![install],
        after: Vec::new(),
    };
    assert_eq!(
        proving_step(&bootstrap, "node_modules").map(|step| step.command().to_string()),
        Some("pnpm install".to_string())
    );
    assert!(proving_step(&bootstrap, "dist").is_none());

    let mut installed = Dict::new();
    installed.insert(key_for("/main/web", "pnpm install"), "abc".to_string());
    let source = Some(Source {
        manifest_dir: "/main/web".to_string(),
        state: State { bootstrap: installed },
    });
    let facts = |here: &str, there: &str| SyncFacts {
        destination_exists: false,
        source_exists: true,
        here: Some(here.to_string()),
        there: Some(there.to_string()),
    };
    let sync = |facts: SyncFacts| {
        sync_file("/wt", "/main", "/wt/web", &bootstrap, "node_modules", &facts, &source, true)
    };
    assert!(matches!(sync(facts("abc", "abc")), SyncAction::Link { .. }));
    assert_eq!(
        left(sync(facts("def", "abc"))),
        "sync node_modules: the primary checkout installed different pnpm-lock.yaml, left to install"
    );
}

fn repo(git_dir: &str) -> Repo {
    Repo::open("/wt".to_string(), "/main/.git".to_string(), git_dir.to_string())
}

#[test]
fn the_primary_checkout_is_a_source_for_linked_worktrees_only() {
    let linked = repo("/main/.git/worktrees/wt");
    let source = share_source(&linked, "/wt/web", "/main", nothing_recorded()).unwrap();
    assert_eq!(source.manifest_dir, "/main/web");
    assert!(share_source(&repo("/main/.git"), "/main", "/main", nothing_recorded()).is_none());
    assert_eq!(source_dir("/wt", "/wt", "/main"), "/main");

    let paths = Paths { state_dir: "/state".to_string(), config_dir: "/config".to_string() };
    assert_eq!(
        source_state_file(&paths, &linked),
        format!("/state/worktrees/{}/main/state.json", linked.key())
    );
}

#[test]
fn only_a_yes_on_a_terminal_confirms() {
    assert_eq!(prompt("just seed"), "Run task: just seed");
    assert_eq!(question_line("Run task: just seed"), "Run task: just seed (y/N) ");
    assert!(confirm(true, &Some(" YES\n".to_string())));
    assert!(confirm(true, &Some("y".to_string())));
    assert!(!confirm(true, &Some("sure".to_string())));
    assert!(!confirm(true, &None));
    assert!(!confirm(false, &Some("y".to_string())));
    assert_eq!(step_failure("after", "just seed"), "after step 'just seed' failed");
}
