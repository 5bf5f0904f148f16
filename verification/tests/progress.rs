use magictree::progress::{Progress, Unit};

#[test]
fn a_silent_progress_prints_nothing() {
    // Off a terminal and quiet: the header and detail paths must not write.
    let progress = Progress::silent();
    assert!(!progress.live);
    assert!(progress.quiet);
    assert_eq!(progress.total(), 0);
    let mut progress = progress;
    let step = progress.step();
    assert!(step.header().is_none());
    assert!(step.detail("linked").is_none());
    assert!(step.note("waiting").is_none());
    assert!(step.result("done", "0.1").is_none());
    assert!(progress.finish("0.1").is_none());
}

#[test]
fn a_step_prints_its_number_and_result() {
    let mut progress = Progress::new(
        vec![
            Unit::new("bootstrap .", "just generate"),
            Unit::new("job", "seed"),
        ],
        false,
        false,
    );
    assert_eq!(progress.total(), 2);
    // Each `step()` consumes one unit of the plan, in order.
    let first = progress.step();
    assert_eq!(first.label, "[1/2] bootstrap . \u{00b7} just generate");
    assert_eq!(first.header().as_deref(), Some("[1/2] bootstrap . \u{00b7} just generate"));
    assert_eq!(first.result("ok", "1.3").as_deref(), Some("     ok"));
    let second = progress.step();
    assert_eq!(second.label, "[2/2] job \u{00b7} seed");
    assert_eq!(second.result("done", "1.3").as_deref(), Some("     done"));
    assert_eq!(progress.next, 2);
}

#[test]
fn notes_are_silent_off_a_terminal() {
    let mut progress = Progress::new(vec![Unit::new("service", "web:web")], false, false);
    assert!(!progress.live);
    let step = progress.step();
    assert!(step.note("waiting for health").is_none(), "no line is painted off a terminal");
    assert_eq!(step.result("healthy", "0.1").as_deref(), Some("     healthy"));
}

#[test]
fn quiet_suppresses_details_but_not_results() {
    let mut progress = Progress::new(vec![Unit::new("job", "seed")], true, false);
    assert!(progress.quiet);
    let step = progress.step();
    assert!(step.detail("hidden").is_none());
    assert_eq!(step.result("done", "0.1").as_deref(), Some("     done"));
}

#[test]
fn a_terminal_sees_the_time_and_the_note() {
    let mut progress = Progress::new(vec![Unit::new("service", "web:web")], false, true);
    let step = progress.step();
    assert_eq!(step.detail("linked").as_deref(), Some("     linked"));
    assert_eq!(step.result("healthy", "1.3").as_deref(), Some("     healthy 1.3s"));
    assert_eq!(
        step.note("waiting for health").as_deref(),
        Some("[1/1] service \u{00b7} web:web \u{00b7} waiting for health")
    );
    assert_eq!(progress.finish("42.3").as_deref(), Some("1 steps in 42.3s"));
    assert_eq!(progress.step().label, "[2/?] \u{00b7} ");
    assert!(Progress::silent().finish("0.1").is_none());
}
