use magictree::dict::Dict;
use magictree::discover::report::{
    Answer, RepoFacts, Report, Scope, Unknown, UnknownKind, REPORT_VERSION,
};
use magictree::init::nothing_recorded;
use magictree::init::wizard::{
    ask, hear, open_questions, parse_answer, prompt, with_replayed, Heard,
};

fn unknown(kind: UnknownKind, options: &[&str], default: Option<&str>) -> Unknown {
    named("x", kind, options, default)
}

fn named(id: &str, kind: UnknownKind, options: &[&str], default: Option<&str>) -> Unknown {
    Unknown {
        id: id.to_string(),
        scope: Scope::Workspace,
        kind,
        question: "q".to_string(),
        options: options.iter().map(|value| value.to_string()).collect(),
        evidence: Vec::new(),
        default: default.map(|value| value.to_string()),
    }
}

#[test]
fn empty_input_takes_the_default() {
    let question = unknown(UnknownKind::Choice, &["pnpm:dev", "skip"], Some("pnpm:dev"));
    assert!(matches!(
        parse_answer(&question, "").unwrap(),
        Answer::One(value) if value == "pnpm:dev"
    ));
}

#[test]
fn empty_input_without_a_default_is_an_error() {
    let question = unknown(UnknownKind::Choice, &["a", "b"], None);
    assert!(parse_answer(&question, "").is_err());
}

#[test]
fn choice_accepts_a_number_or_the_value() {
    let question = unknown(UnknownKind::Choice, &["pnpm:dev", "skip"], None);
    assert!(matches!(
        parse_answer(&question, "2").unwrap(),
        Answer::One(value) if value == "skip"
    ));
    assert!(matches!(
        parse_answer(&question, "pnpm:dev").unwrap(),
        Answer::One(value) if value == "pnpm:dev"
    ));
}

#[test]
fn multi_choice_accepts_lists_and_keywords() {
    let question = unknown(
        UnknownKind::MultiChoice,
        &["postgres", "redis", "worker"],
        Some("postgres,redis"),
    );
    assert!(matches!(
        parse_answer(&question, "1,3").unwrap(),
        Answer::Many(values) if values == vec!["postgres".to_string(), "worker".to_string()]
    ));
    assert!(matches!(
        parse_answer(&question, "all").unwrap(),
        Answer::Many(values) if values.len() == 3
    ));
    assert!(matches!(
        parse_answer(&question, "none").unwrap(),
        Answer::Many(values) if values.is_empty()
    ));
    // Empty input takes the declared default, not every option.
    assert!(matches!(
        parse_answer(&question, "").unwrap(),
        Answer::Many(values) if values == vec!["postgres".to_string(), "redis".to_string()]
    ));
}

#[test]
fn invalid_answers_are_rejected_with_the_options_listed() {
    let question = unknown(UnknownKind::Choice, &["a", "b"], None);
    let error = parse_answer(&question, "c").unwrap_err();
    assert!(error.contains('a') && error.contains('b'), "{error}");

    let multi = unknown(UnknownKind::MultiChoice, &["a", "b"], None);
    assert!(parse_answer(&multi, "a,z").is_err());
}

#[test]
fn bool_accepts_common_spellings() {
    let question = unknown(UnknownKind::Bool, &[], None);
    assert!(matches!(
        parse_answer(&question, "yes").unwrap(),
        Answer::Flag(true)
    ));
    assert!(matches!(
        parse_answer(&question, "n").unwrap(),
        Answer::Flag(false)
    ));
    assert!(parse_answer(&question, "maybe").is_err());
}

#[test]
fn text_is_taken_verbatim() {
    let question = unknown(UnknownKind::Text, &[], None);
    assert!(matches!(
        parse_answer(&question, "/health").unwrap(),
        Answer::One(value) if value == "/health"
    ));
}

#[test]
fn prompt_answers_every_question_in_order() {
    let report = Report {
        report_version: REPORT_VERSION,
        report_hash: "sha256:x".to_string(),
        repo: RepoFacts {
            root: "/tmp".to_string(),
            git_common_dir: "/tmp/.git".to_string(),
            is_git_repo: true,
            worktrees: Vec::new(),
        },
        apps: Vec::new(),
        facts: Vec::new(),
        unknowns: vec![
            named("members", UnknownKind::MultiChoice, &["a", "b"], Some("a")),
            named("run", UnknownKind::Choice, &["x", "y"], Some("y")),
        ],
    };
    let input = "b\n1\n".lines().map(|line| line.to_string()).collect();
    let talk = prompt(&report, &input);
    let answers = talk.result.unwrap();

    assert_eq!(answers.report_hash, "sha256:x");
    assert!(matches!(
        answers.answers.get("members"),
        Some(Answer::Many(values)) if values == &vec!["b".to_string()]
    ));
    assert!(matches!(
        answers.answers.get("run"),
        Some(Answer::One(value)) if value == "x"
    ));
    let rendered = talk.output;
    assert!(rendered.contains("workspace"), "{rendered}");
}
