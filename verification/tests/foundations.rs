use magictree::dict::Dict;
use magictree::env::{build, interpolate, rewrite_localhost_urls, Alias, EnvSource};
use magictree::health::{addresses, wait_for_command, wait_for_port, PollStep};
use magictree::paths::{display_relative, join, Paths};
use magictree::repo::{parse_worktrees, Repo};
use magictree::run::{
    log_file, log_tail, pid_file, pid_line, process_start, read_pid, read_stamp, recorded, stop,
    stop_all, stop_end, PidFile, StopAction, StopEnd,
};
use magictree::slug::{hash64, short_hash, slugify};
use magictree::text;
use magictree::value::{parse_toml, Value};

fn dict(pairs: &[(&str, &str)]) -> Dict<String> {
    let mut out = Dict::new();
    for (key, value) in pairs {
        out.insert(key.to_string(), value.to_string());
    }
    out
}

#[test]
fn slugs_are_lowercase_words() {
    assert_eq!(slugify("Feat/Billing v2"), "feat-billing-v2");
    assert_eq!(slugify("--a--"), "a");
    assert_eq!(slugify("é"), "worktree");
    assert_eq!(slugify(""), "worktree");
    let long = slugify("aaaaaaaaaaaaaaaaaaaaaaaaaaaaaaa-bbbb");
    assert_eq!(long, "aaaaaaaaaaaaaaaaaaaaaaaaaaaaaaa");
}

#[test]
fn a_slug_is_its_own_slug() {
    for text in ["Feat/Billing", "", "a_b-c", "aaaaaaaaaaaaaaaaaaaaaaaaaaaaaaa-bbbb"] {
        let slug = slugify(text);
        assert_eq!(slugify(&slug), slug);
    }
}

#[test]
fn hashes_are_the_head_of_the_sha256() {
    assert_eq!(short_hash("abc"), "ba7816bf");
    assert_eq!(hash64("abc"), 0xba78_16bf_8f01_cfea);
    assert_eq!(short_hash(""), "e3b0c442");
}

#[test]
fn paths_are_joined_and_shown() {
    assert_eq!(join("/a", "b"), "/a/b");
    assert_eq!(join("/a/", "b"), "/a/b");
    assert_eq!(join("/a", "/b"), "/b");
    assert_eq!(display_relative("/repo/apps/web", "/repo"), "apps/web");
    assert_eq!(display_relative("/other", "/repo"), "/other");
}

#[test]
fn machine_paths_come_from_the_environment_or_home() {
    let paths = Paths::new(None, None, Some("/home/me".to_string())).expect("paths");
    assert_eq!(paths.state_dir, "/home/me/.local/state/magictree");
    assert_eq!(paths.config_file(), "/home/me/.config/magictree/config.toml");
    assert_eq!(paths.blocks_dir(), "/home/me/.local/state/magictree/blocks");
    assert_eq!(
        paths.worktree_dir("k", "main"),
        "/home/me/.local/state/magictree/worktrees/k/main"
    );
    let paths = Paths::new(Some("/s".to_string()), Some("/c".to_string()), None).expect("paths");
    assert_eq!(paths.config_dir, "/c");
    assert_eq!(Paths::new(None, None, None).unwrap_err(), "HOME is not set");
}

const LISTING: &str = "worktree /repo\nHEAD 1\nbranch refs/heads/main\n\nworktree /repo-x\nHEAD 2\ndetached\n\nworktree /bare\nbare\n";

#[test]
fn git_lists_worktrees() {
    let entries = parse_worktrees(LISTING);
    assert_eq!(entries.len(), 3);
    assert_eq!(entries[0].branch.as_deref(), Some("main"));
    assert!(entries[1].detached && entries[1].branch.is_none());
    assert!(entries[2].bare);
}

fn checkout(root: &str, git_dir: &str) -> Repo {
    Repo::open(root.to_string(), "/repo/.git".to_string(), git_dir.to_string())
}

#[test]
fn worktrees_share_a_key_and_have_their_own_id() {
    let main = checkout("/repo", "/repo/.git");
    let linked = checkout("/repo-x", "/repo/.git/worktrees/repo-x");
    assert_eq!(main.key(), linked.key());
    assert_eq!(main.key(), short_hash("/repo/.git"));
    assert_eq!(main.worktree_id(), "main");
    assert!(main.is_main_worktree() && !linked.is_main_worktree());
    assert_eq!(linked.worktree_id(), "repo-x");
    assert_eq!(linked.main_worktree_root(&linked.worktrees(LISTING)), "/repo");
    assert_eq!(linked.main_worktree_root(&Vec::new()), "/repo-x");
}

#[test]
fn environments_are_layered() {
    let plan = build(
        &dict(&[("PORT", "1")]),
        &dict(&[("A", "w ${PORT}"), ("B", "w")]),
        &dict(&[("A", "a")]),
        &Vec::new(),
    )
    .expect("plan");
    assert_eq!(plan.vars.get("A").map(String::as_str), Some("a"));
    assert_eq!(plan.vars.get("B").map(String::as_str), Some("w"));
    assert_eq!(plan.sources.get("A").copied(), Some(EnvSource::App));
    assert_eq!(plan.dotenv(), "A=a\nB=w\nPORT=1\n");
    assert_eq!(plan.export(), "export A=a\nexport B=w\nexport PORT=1\n");
    assert_eq!(
        plan.explain(),
        "A     app        a\nB     workspace  w\nPORT  computed   1\n"
    );
}

#[test]
fn a_computed_variable_is_not_overridden() {
    let error = build(&dict(&[("PORT", "1")]), &dict(&[("PORT", "2")]), &Dict::new(), &Vec::new())
        .unwrap_err();
    assert_eq!(error, "environment key 'PORT' is set by magictree and cannot be overridden");
}

#[test]
fn variables_are_expanded_from_what_is_known() {
    let known = dict(&[("A", "1")]);
    assert_eq!(interpolate("x${A}y${A}", &known).as_deref(), Ok("x1y1"));
    assert_eq!(interpolate("plain $A", &known).as_deref(), Ok("plain $A"));
    assert_eq!(interpolate("${A", &known).as_deref(), Ok("${A"));
    assert_eq!(
        interpolate("${B}", &known).unwrap_err(),
        "unknown variable '${B}' in environment value '${B}'"
    );
}

#[test]
fn quoted_values_survive_a_shell() {
    let plan = build(&dict(&[("A", "a b\"c"), ("B", "")]), &Dict::new(), &Dict::new(), &Vec::new())
        .expect("plan");
    assert_eq!(plan.dotenv(), "A=\"a b\\\"c\"\nB=\"\"\n");
}

#[test]
fn only_urls_of_marked_ports_are_rewritten() {
    let aliases = vec![Alias { port: 3000, host: "x.localhost".to_string() }];
    assert_eq!(
        rewrite_localhost_urls("http://localhost:3000/a,ws://localhost:3000", &aliases).as_deref(),
        Some("http://x.localhost:3000/a,ws://x.localhost:3000")
    );
    assert_eq!(rewrite_localhost_urls("http://localhost:30001", &aliases), None);
    assert_eq!(rewrite_localhost_urls("http://localhost:3001", &aliases), None);
    assert_eq!(rewrite_localhost_urls("redis://localhost:3000", &aliases), None);
    assert_eq!(rewrite_localhost_urls("http://localhost:3000.x", &aliases), None);
    assert_eq!(rewrite_localhost_urls("http://localhost:3000", &Vec::new()), None);
}

#[test]
fn pid_files_name_a_process_and_its_start() {
    assert_eq!(pid_file("/rt", "web:web"), "/rt/run/web_web.pid");
    assert_eq!(log_file("/rt", "web:web"), "/rt/log/web_web.log");
    assert_eq!(pid_line(7, &Some("Mon_1".to_string())), "7 Mon_1\n");
    assert_eq!(read_pid("7 Mon_1\n"), Some(7));
    assert_eq!(read_stamp("7 Mon_1\n").as_deref(), Some("Mon_1"));
    assert_eq!(read_stamp("7\n"), None);
    assert_eq!(read_pid("x"), None);
    assert_eq!(process_start("Mon Jan  1\n").as_deref(), Some("Mon_Jan_1"));
    assert_eq!(process_start("\n"), None);
    let start = process_start("Mon Jan  1\n");
    let line = pid_line(2147483647, &start);
    assert_eq!(read_pid(&line), Some(2147483647));
    assert_eq!(read_stamp(&line), start);
    assert_eq!(stop(&Some(line), true, &start), StopAction::Terminate(2147483647));
    assert_eq!(read_stamp(&pid_line(7, &None)), None);
}

#[test]
fn a_recycled_pid_is_left_alone() {
    let raw = Some("7 Mon_1\n".to_string());
    let ours = Some("Mon_1".to_string());
    let theirs = Some("Tue_2".to_string());
    assert_eq!(stop(&raw, true, &ours), StopAction::Terminate(7));
    assert_eq!(stop(&raw, true, &theirs), StopAction::Forget);
    assert_eq!(stop(&raw, false, &None), StopAction::Forget);
    assert_eq!(stop(&None, true, &ours), StopAction::Nothing);
    assert_eq!(stop(&Some("7".to_string()), true, &None), StopAction::Terminate(7));
    assert_eq!(stop_end("7 Mon_1", true, &ours), StopEnd::Kill(7));
    assert_eq!(stop_end("7 Mon_1", true, &theirs), StopEnd::Gone);
    assert_eq!(stop_end("7 Mon_1", false, &ours), StopEnd::Gone);
}

#[test]
fn every_recorded_process_is_stopped() {
    let file = |name: &str, contents: Option<&str>| PidFile {
        name: name.to_string(),
        contents: contents.map(str::to_string),
    };
    let files = vec![
        file("web.pid", Some("8 s")),
        file("api.pid", Some("9 s")),
        file("notes.txt", Some("1")),
        file("broken.pid", Some("x")),
        file("gone.pid", None),
    ];
    assert_eq!(stop_all(&files), vec!["api".to_string(), "web".to_string()]);
    assert_eq!(recorded(&files).get("web").copied(), Some(8));
}

#[test]
fn the_end_of_a_log_skips_blank_lines() {
    assert_eq!(log_tail("a\n\nb\n \nc\n", 2), vec!["b".to_string(), "c".to_string()]);
    assert_eq!(log_tail("", 3), Vec::<String>::new());
}

#[test]
fn waiting_ends_with_an_answer_a_death_or_the_time() {
    let probe = wait_for_port(3000, &Some("/health".to_string()), 2);
    assert!(matches!(probe.step(true, Some(false), 9000), PollStep::Ready));
    assert!(matches!(probe.step(false, Some(true), 0), PollStep::Wait));
    assert!(
        matches!(probe.step(false, Some(false), 0), PollStep::Failed(m) if m == "the process exited during startup")
    );
    assert!(
        matches!(probe.step(false, None, 2000), PollStep::Failed(m) if m == "timed out after 2s waiting for http://localhost:3000/health")
    );
    assert_eq!(wait_for_port(3000, &None, 2).what, "tcp localhost:3000");
    assert_eq!(wait_for_command("true", 2).what, "`true`");
    assert_eq!(addresses(80), vec!["127.0.0.1:80".to_string(), "[::1]:80".to_string()]);
}

#[test]
fn toml_is_read_as_a_document() {
    let document = parse_toml("a = \"x\"\n[t]\nb = [1, true]\n").expect("toml");
    assert_eq!(document.get_text("a").map(String::as_str), Some("x"));
    let list = document.get("t").and_then(|t| t.get("b")).expect("list");
    assert_eq!(list.item_count(), 2);
    assert!(matches!(list.item(0), Value::Number(n) if n == "1"));
    assert_eq!(list.item(1).as_flag(), Some(true));
    assert!(parse_toml("a = ").is_none());
}

#[test]
fn texts_are_cut_and_ordered() {
    assert_eq!(text::lines("a\r\nb\n"), vec!["a".to_string(), "b".to_string()]);
    assert_eq!(text::words(" a\tb  c "), vec!["a".to_string(), "b".to_string(), "c".to_string()]);
    assert_eq!(text::trim("\u{3000}x\n"), "x");
    assert_eq!(text::split_once("a=b=c", '='), Some(("a".to_string(), "b=c".to_string())));
    assert_eq!(text::rsplit_once("a=b=c", '='), Some(("a=b".to_string(), "c".to_string())));
    assert_eq!(
        text::sort(&vec!["b".to_string(), "a".to_string(), "B".to_string()]),
        vec!["B".to_string(), "a".to_string(), "b".to_string()]
    );
    assert_eq!(text::decimal(0), "0");
    assert_eq!(text::decimal(u64::MAX), "18446744073709551615");
    assert_eq!(text::signed_decimal(-12), "-12");
    assert_eq!(text::parse_port("65535"), Some(65535));
    assert_eq!(text::parse_port("65536"), None);
    assert_eq!(text::parse_port("+7"), Some(7));
    assert_eq!(text::parse_port(""), None);
}
