use magictree::update::{
    check_download, checked_version, disabled, fresh, is_newer, latest, notice, read_check, remember,
    runs_as, write_error, Check, VersionSource, CHECK_INTERVAL, RETRY_INTERVAL,
};

const NOW: u64 = 1_700_000_000;

#[test]
fn a_later_release_is_newer() {
    assert!(is_newer("0.1.3", "0.1.2"));
    assert!(is_newer("0.2.0", "0.1.9"));
    assert!(is_newer("1.0.0", "0.99.99"));
}

#[test]
fn the_same_release_or_an_earlier_one_is_not() {
    // An installed build that is ahead of the latest release — a checkout
    // built by hand — is left alone rather than announced as out of date.
    assert!(!is_newer("0.1.2", "0.1.2"));
    assert!(!is_newer("0.1.1", "0.1.2"));
    assert!(!is_newer("0.0.0", "0.1.2"));
}

#[test]
fn a_tag_compares_as_the_version_it_names() {
    assert!(is_newer("v0.1.3", "0.1.2"));
    assert!(is_newer("0.1.3", "v0.1.2"));
}

#[test]
fn anything_that_is_not_a_version_is_never_newer() {
    assert!(!is_newer("latest", "0.1.2"));
    assert!(!is_newer("0.1", "0.1.2"));
    assert!(!is_newer("0.1.2.3", "0.1.2"));
    assert!(!is_newer("", "0.1.2"));
    assert!(!is_newer("0.1.3", "dev"));
}

#[test]
fn a_check_that_found_a_release_is_trusted_for_a_day() {
    let found = |ago: u64| Check {
        checked_at: NOW - ago,
        version: Some("0.1.3".to_string()),
    };
    assert!(fresh(&found(0), NOW));
    assert!(fresh(&found(CHECK_INTERVAL - 1), NOW));
    assert!(!fresh(&found(CHECK_INTERVAL), NOW));
}

#[test]
fn a_check_that_found_nothing_is_retried_sooner() {
    let missed = |ago: u64| Check {
        checked_at: NOW - ago,
        version: None,
    };
    assert!(fresh(&missed(0), NOW));
    assert!(fresh(&missed(RETRY_INTERVAL - 1), NOW));
    assert!(!fresh(&missed(RETRY_INTERVAL), NOW));
}

#[test]
fn a_clock_that_moved_backwards_does_not_park_the_check() {
    let ahead = Check {
        checked_at: NOW + 60,
        version: Some("0.1.3".to_string()),
    };
    assert!(!fresh(&ahead, NOW));
}

#[test]
fn a_fresh_check_is_answered_without_asking_github() {
    // The daily budget is the whole point: a command that finds a recent answer must read it and
    // leave it, not ask for a new one.
    let cached = read_check("{\"checked_at\":1700000000,\"version\":\"0.1.2\"}");
    match checked_version(&cached, NOW) {
        VersionSource::Cached(version) => assert_eq!(version.as_deref(), Some("0.1.2")),
        VersionSource::Ask => panic!("a fresh check was asked again"),
    }
    assert!(matches!(checked_version(&cached, NOW + CHECK_INTERVAL), VersionSource::Ask));
    assert!(matches!(checked_version(&None, NOW), VersionSource::Ask));
    assert!(read_check("{\"version\":\"0.1.2\"}").is_none());
    assert!(read_check("{\"checked_at\":1}").unwrap().version.is_none());
}

const RELEASE: &str = r#"{"tag_name":"v0.1.3","html_url":"https://example.com/r","assets":[
    {"name":"magictree-0.1.3-x86_64-unknown-linux-gnu.tar.gz","browser_download_url":"https://example.com/a","digest":null}]}"#;

#[test]
fn a_release_names_the_build_of_a_platform() {
    let release = latest(RELEASE, "url").expect("release");
    assert_eq!(release.version(), "0.1.3");
    assert_eq!(
        release.artifact("x86_64-unknown-linux-gnu"),
        Ok("magictree-0.1.3-x86_64-unknown-linux-gnu.tar.gz".to_string())
    );
    assert_eq!(
        release.artifact("riscv64"),
        Err("release v0.1.3 carries no build for riscv64\n\nhttps://example.com/r".to_string())
    );
    assert!(latest("[]", "url").is_err());
}

#[test]
fn a_download_has_to_match_the_published_digest() {
    let digest = "sha256:ba7816bf8f01cfea414140de5dae2223b00361a396177a9cb410ff61f20015ad";
    assert!(check_download(b"abc", &Some(digest.to_string()), "x").is_ok());
    assert!(check_download(b"abc", &Some(digest.to_uppercase().replace("SHA256", "sha256")), "x").is_ok());
    assert!(check_download(b"abd", &Some(digest.to_string()), "x").is_err());
    assert!(check_download(b"abd", &None, "x").is_ok());
}

#[test]
fn a_build_has_to_run_and_report_its_version() {
    assert!(runs_as(true, "magictree 0.1.3\n", "0.1.3"));
    assert!(!runs_as(true, "magictree 0.1.2\n", "0.1.3"));
    assert!(!runs_as(false, "magictree 0.1.3\n", "0.1.3"));
    assert!(!runs_as(true, "", "0.1.3"));
}

#[test]
fn the_notice_names_a_newer_release_only() {
    assert_eq!(
        notice(&Some("0.1.3".to_string()), "0.1.2").as_deref(),
        Some("magictree 0.1.3 is available (this is 0.1.2); run `magictree update`")
    );
    assert_eq!(notice(&Some("0.1.2".to_string()), "0.1.2"), None);
    assert_eq!(notice(&None, "0.1.2"), None);
    assert!(disabled(&Some("1".to_string())));
    assert!(disabled(&Some(String::new())));
    assert!(!disabled(&Some("0".to_string())));
    assert!(!disabled(&None));
    let check = remember("0.1.3", NOW);
    assert!(fresh(&check, NOW) && check.version.as_deref() == Some("0.1.3"));
}

#[test]
fn a_refused_write_names_the_way_out() {
    assert!(write_error("/usr/bin/magictree", true, "denied").contains("sudo magictree update"));
    assert_eq!(write_error("/x", false, "disk full"), "writing /x: disk full");
}
