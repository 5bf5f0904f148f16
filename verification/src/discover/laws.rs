//! What holds of every report.

use crate::discover::extractors;
use crate::discover::report::{
    AppFactsView, FactDataView, FactView, ScriptFactView, UnknownKind, UnknownView,
};
use crate::discover::snapshot::SnapshotView;
use crate::discover::unknowns;
use crate::text;
use vstd::prelude::*;

verus! {

/// Whether the facts are numbered in their order: `f1`, `f2` and so on.
pub open spec fn numbered(facts: Seq<FactView>) -> bool {
    forall|i: int|
        0 <= i < facts.len() ==> (#[trigger] facts[i]).id == "f"@ + text::decimal_of((i + 1) as nat)
}

proof fn apps_are_numbered(
    snapshot: SnapshotView,
    apps: Seq<AppFactsView>,
    facts: Seq<FactView>,
    k: int,
)
    requires
        numbered(facts),
    ensures
        numbered(extractors::with_apps(snapshot, apps, facts, k)),
    decreases k,
{
    if k > 0 {
        apps_are_numbered(snapshot, apps, facts, k - 1);
    }
}

proof fn compose_is_numbered(
    snapshot: SnapshotView,
    files: Seq<Seq<char>>,
    facts: Seq<FactView>,
    k: int,
)
    requires
        numbered(facts),
    ensures
        numbered(extractors::with_compose(snapshot, files, facts, k)),
    decreases k,
{
    if k > 0 {
        compose_is_numbered(snapshot, files, facts, k - 1);
    }
}

proof fn env_is_numbered(
    snapshot: SnapshotView,
    names: Seq<Seq<char>>,
    facts: Seq<FactView>,
    k: int,
)
    requires
        numbered(facts),
    ensures
        numbered(extractors::with_env(snapshot, names, facts, k)),
    decreases k,
{
    if k > 0 {
        env_is_numbered(snapshot, names, facts, k - 1);
    }
}

/// Every fact of a report carries its number, so no two facts share an id.
pub proof fn facts_are_numbered(snapshot: SnapshotView)
    ensures
        numbered(extractors::facts_of(snapshot)),
{
    let apps = extractors::apps_of(snapshot);
    let tooling = match extractors::workspace_tool(snapshot) {
        Some((name, path)) => extractors::with_fact(
            snapshot.root,
            Seq::empty(),
            path,
            crate::discover::report::FactKind::Workspace,
            None,
            crate::discover::report::Confidence::High,
            crate::discover::report::FactDataView::Workspace {
                tool: name,
                packages: extractors::dirs_of(apps),
            },
        ),
        None => Seq::empty(),
    };
    assert(numbered(tooling));
    apps_are_numbered(snapshot, apps, tooling, apps.len() as int);
    let facts = extractors::workspace_facts(snapshot);
    let files = extractors::compose_files_of(snapshot);
    compose_is_numbered(snapshot, files, facts, files.len() as int);
    let compose = extractors::with_compose(snapshot, files, facts, files.len() as int);
    let mise = extractors::with_mise(snapshot, None, snapshot.root, compose);
    assert(numbered(mise));
    let just = extractors::with_just(snapshot, None, snapshot.root, mise);
    assert(numbered(just));
    env_is_numbered(
        snapshot,
        extractors::env_templates(),
        just,
        extractors::env_templates().len() as int,
    );
}

/// Whether a question that offers a choice has one of its options as its default.
pub open spec fn offers_its_default(unknown: UnknownView) -> bool {
    unknown.kind == UnknownKind::Choice ==> (unknown.default matches Some(value)
        && unknown.options.contains(value))
}

/// Whether all questions that offer a choice have one of their options as their default.
pub open spec fn all_offer_their_default(questions: Seq<UnknownView>) -> bool {
    forall|i: int| 0 <= i < questions.len() ==> offers_its_default(#[trigger] questions[i])
}

proof fn preferred_is_offered(app: Seq<char>, variables: Seq<Seq<char>>, k: int)
    requires
        variables.len() > 0,
        0 <= k,
    ensures
        variables.contains(unknowns::preferred_from(app, variables, k)),
    decreases variables.len() - k,
{
    if k >= variables.len() {
        assert(variables[0] == unknowns::preferred_from(app, variables, k));
    } else if unknowns::names_app(app, variables[k]) {
        assert(variables[k] == unknowns::preferred_from(app, variables, k));
    } else {
        preferred_is_offered(app, variables, k + 1);
    }
}

proof fn steps_offer_their_default(
    app: Seq<char>,
    suffix: Seq<char>,
    question: Seq<char>,
    list: Seq<extractors::CandidateView>,
)
    ensures
        all_offer_their_default(unknowns::step_question(app, suffix, question, list)),
{
    if list.len() > 0 {
        let options = seq!["skip"@] + unknowns::values_of(list);
        assert(options[1] == list[0].value);
        assert(options.contains(list[0].value));
    }
}

proof fn app_offers_its_defaults(
    snapshot: SnapshotView,
    apps: Seq<AppFactsView>,
    facts: Seq<FactView>,
    k: int,
)
    requires
        k <= apps.len(),
    ensures
        all_offer_their_default(unknowns::app_questions_upto(snapshot, apps, facts, k)),
    decreases k,
{
    if k > 0 {
        app_offers_its_defaults(snapshot, apps, facts, k - 1);
        let app = apps[k - 1];
        let variables = unknowns::port_variables_of(app.id, facts);
        if variables.len() > 0 {
            preferred_is_offered(app.id, variables, 0);
        }
        steps_offer_their_default(
            app.id,
            ".run"@,
            "How should this app be started?"@,
            unknowns::runs_of(snapshot, app, facts),
        );
    }
}

proof fn storybook_offers_its_defaults(apps: Seq<AppFactsView>, facts: Seq<FactView>, k: int)
    requires
        k <= apps.len(),
    ensures
        all_offer_their_default(unknowns::storybook_questions_upto(apps, facts, k)),
    decreases k,
{
    if k > 0 {
        storybook_offers_its_defaults(apps, facts, k - 1);
        steps_offer_their_default(
            apps[k - 1].id,
            ".storybook"@,
            "Which script serves Storybook, when it should run beside the app?"@,
            unknowns::storybooks_of(apps[k - 1], facts),
        );
    }
}

proof fn apps_are_asked(
    snapshot: SnapshotView,
    apps: Seq<AppFactsView>,
    facts: Seq<FactView>,
    i: int,
    k: int,
) -> (at: int)
    requires
        0 <= i < k <= apps.len(),
    ensures
        0 <= at < unknowns::app_questions_upto(snapshot, apps, facts, k).len(),
        unknowns::app_questions_upto(snapshot, apps, facts, k)[at].id == apps[i].id + ".run"@,
    decreases k,
{
    let before = unknowns::app_questions_upto(snapshot, apps, facts, k - 1);
    if i < k - 1 {
        apps_are_asked(snapshot, apps, facts, i, k - 1)
    } else {
        let own = unknowns::app_questions(snapshot, apps[i], facts);
        let run = unknowns::run_question(apps[i].id, unknowns::runs_of(snapshot, apps[i], facts));
        assert(run.len() == 1);
        assert(own[own.len() - 1] == run[0]);
        before.len() + own.len() - 1
    }
}

/// How an app is started is asked of every app, also where its files name no way to run it.
pub proof fn every_app_is_asked_about(
    snapshot: SnapshotView,
    apps: Seq<AppFactsView>,
    facts: Seq<FactView>,
    i: int,
)
    requires
        0 <= i < apps.len(),
    ensures
        exists|j: int|
            0 <= j < unknowns::unknowns_of(snapshot, apps, facts).len() && (
            #[trigger] unknowns::unknowns_of(snapshot, apps, facts)[j]).id == apps[i].id + ".run"@,
{
    let at = apps_are_asked(snapshot, apps, facts, i, apps.len() as int);
    let first = unknowns::members_question(apps) + unknowns::compose_questions(facts);
    let all = unknowns::unknowns_of(snapshot, apps, facts);
    let asked = unknowns::app_questions_upto(snapshot, apps, facts, apps.len() as int);
    assert(all[first.len() + at] == asked[at]);
}

/// Whether a value is among those of candidates.
pub open spec fn has_value(list: Seq<extractors::CandidateView>, value: Seq<char>) -> bool {
    exists|i: int| 0 <= i < list.len() && (#[trigger] list[i]).value == value
}

proof fn added_values_stay(
    list: Seq<extractors::CandidateView>,
    x: extractors::CandidateView,
    value: Seq<char>,
)
    requires
        x.value == value || has_value(list, value),
    ensures
        has_value(unknowns::with_candidate(list, x), value),
    decreases list.len(),
{
    let placed = unknowns::with_candidate(list, x);
    if list.len() == 0 || !unknowns::offered_before(x, list.last()) {
        assert(placed[list.len() as int] == x);
        if has_value(list, value) {
            let i = choose|i: int| 0 <= i < list.len() && (#[trigger] list[i]).value == value;
            assert(placed[i] == list[i]);
        }
    } else {
        let rest = list.drop_last();
        assert(placed[placed.len() - 1] == list.last());
        if x.value != value {
            let i = choose|i: int| 0 <= i < list.len() && (#[trigger] list[i]).value == value;
            if i < rest.len() {
                assert(rest[i] == list[i]);
            }
        }
        if x.value == value || has_value(rest, value) {
            added_values_stay(rest, x, value);
            let before = unknowns::with_candidate(rest, x);
            let i = choose|i: int| 0 <= i < before.len() && (#[trigger] before[i]).value == value;
            assert(placed[i] == before[i]);
        }
    }
}

proof fn ranked_values_stay(list: Seq<extractors::CandidateView>, value: Seq<char>)
    requires
        has_value(list, value),
    ensures
        has_value(unknowns::ranked(list), value),
    decreases list.len(),
{
    let i = choose|i: int| 0 <= i < list.len() && (#[trigger] list[i]).value == value;
    if i < list.len() - 1 {
        assert(list.drop_last()[i] == list[i]);
        ranked_values_stay(list.drop_last(), value);
    }
    added_values_stay(unknowns::ranked(list.drop_last()), list.last(), value);
}

proof fn unrepeated_values_stay(list: Seq<extractors::CandidateView>, value: Seq<char>)
    requires
        has_value(list, value),
    ensures
        has_value(unknowns::unrepeated(list), value),
        unknowns::unrepeated(list).len() > 0,
    decreases list.len(),
{
    if list.len() > 1 {
        let kept = unknowns::unrepeated(list.drop_last());
        let i = choose|i: int| 0 <= i < list.len() && (#[trigger] list[i]).value == value;
        assert(list.drop_last()[0] == list[0]);
        unrepeated_values_stay(list.drop_last(), list[0].value);
        if i < list.len() - 1 {
            assert(list.drop_last()[i] == list[i]);
            unrepeated_values_stay(list.drop_last(), value);
            let j = choose|j: int| 0 <= j < kept.len() && (#[trigger] kept[j]).value == value;
            assert(unknowns::unrepeated(list)[j] == kept[j]);
        } else {
            let all = unknowns::unrepeated(list);
            assert(all[all.len() - 1].value == value);
        }
    }
}

proof fn runs_stay(
    snapshot: SnapshotView,
    app: AppFactsView,
    facts: Seq<FactView>,
    k: int,
    n: int,
    value: Seq<char>,
)
    requires
        0 < k <= n <= facts.len(),
        facts[k - 1].app == Some(app.id),
        has_value(unknowns::runs_in(snapshot, app, facts[k - 1]), value),
    ensures
        has_value(unknowns::runs_upto(snapshot, app, facts, n), value),
    decreases n,
{
    let before = unknowns::runs_upto(snapshot, app, facts, n - 1);
    let all = unknowns::runs_upto(snapshot, app, facts, n);
    if k == n {
        let own = unknowns::runs_in(snapshot, app, facts[k - 1]);
        let i = choose|i: int| 0 <= i < own.len() && (#[trigger] own[i]).value == value;
        assert(all[before.len() + i] == own[i]);
    } else {
        runs_stay(snapshot, app, facts, k, n - 1, value);
        let i = choose|i: int| 0 <= i < before.len() && (#[trigger] before[i]).value == value;
        assert(all[i] == before[i]);
    }
}

proof fn processes_are_runs(
    list: Seq<ScriptFactView>,
    evidence: Seq<char>,
    k: int,
    j: int,
)
    requires
        0 <= j < k <= list.len(),
    ensures
        has_value(unknowns::process_runs(list, evidence, k), "procfile:"@ + list[j].name),
    decreases k,
{
    let all = unknowns::process_runs(list, evidence, k);
    if j == k - 1 {
        assert(all[all.len() - 1].value == "procfile:"@ + list[j].name);
    } else {
        processes_are_runs(list, evidence, k - 1, j);
        let before = unknowns::process_runs(list, evidence, k - 1);
        let i = choose|i: int|
            0 <= i < before.len() && (#[trigger] before[i]).value == "procfile:"@ + list[j].name;
        assert(all[i] == before[i]);
    }
}

/// Every way to run an app that one of its facts names is among the options it is asked about.
pub proof fn named_ways_are_offered(
    snapshot: SnapshotView,
    app: AppFactsView,
    facts: Seq<FactView>,
    k: int,
    value: Seq<char>,
)
    requires
        0 <= k < facts.len(),
        facts[k].app == Some(app.id),
        has_value(unknowns::runs_in(snapshot, app, facts[k]), value),
    ensures
        ({
            let asked = unknowns::run_question(app.id, unknowns::runs_of(snapshot, app, facts));
            asked.len() == 1 && asked[0].kind == UnknownKind::Choice && asked[0].options.contains(
                value,
            )
        }),
{
    let n = facts.len() as int;
    runs_stay(snapshot, app, facts, k + 1, n, value);
    ranked_values_stay(unknowns::runs_upto(snapshot, app, facts, n), value);
    unrepeated_values_stay(unknowns::ranked(unknowns::runs_upto(snapshot, app, facts, n)), value);
    let list = unknowns::runs_of(snapshot, app, facts);
    let i = choose|i: int| 0 <= i < list.len() && (#[trigger] list[i]).value == value;
    let options = seq!["skip"@] + unknowns::values_of(list);
    assert(options[i + 1] == value);
}

/// Every process of a Procfile is a way to run the app that the Procfile belongs to.
pub proof fn processes_are_offered(
    snapshot: SnapshotView,
    app: AppFactsView,
    facts: Seq<FactView>,
    k: int,
    j: int,
)
    requires
        0 <= k < facts.len(),
        facts[k].app == Some(app.id),
        facts[k].data matches FactDataView::Procfile { processes, .. } && 0 <= j < processes.len(),
    ensures
        ({
            let asked = unknowns::run_question(app.id, unknowns::runs_of(snapshot, app, facts));
            asked.len() == 1 && asked[0].kind == UnknownKind::Choice && asked[0].options.contains(
                "procfile:"@ + facts[k].data->Procfile_processes[j].name,
            )
        }),
{
    let processes = facts[k].data->Procfile_processes;
    processes_are_runs(processes, facts[k].id, processes.len() as int, j);
    named_ways_are_offered(snapshot, app, facts, k, "procfile:"@ + processes[j].name);
}

/// Every question of a report that offers a choice has a default, and it is one of the options:
/// accepting the defaults never gives an answer that was not on offer.
pub proof fn choices_offer_their_default(
    snapshot: SnapshotView,
    apps: Seq<AppFactsView>,
    facts: Seq<FactView>,
)
    ensures
        all_offer_their_default(unknowns::unknowns_of(snapshot, apps, facts)),
{
    app_offers_its_defaults(snapshot, apps, facts, apps.len() as int);
    storybook_offers_its_defaults(apps, facts, apps.len() as int);
}

/// Whether no two questions have the same id.
pub open spec fn distinct_ids(questions: Seq<UnknownView>) -> bool {
    forall|i: int, j: int|
        0 <= i < j < questions.len() ==> (#[trigger] questions[i]).id != (#[trigger] questions[j]).id
}

/// Whether no two apps have the same id.
pub open spec fn distinct_apps(apps: Seq<AppFactsView>) -> bool {
    forall|i: int, j: int|
        0 <= i < j < apps.len() ==> (#[trigger] apps[i]).id != (#[trigger] apps[j]).id
}

/// Whether each question is about one of the first `k` apps, under one of these suffixes.
spec fn all_about(
    questions: Seq<UnknownView>,
    apps: Seq<AppFactsView>,
    suffixes: Seq<Seq<char>>,
    k: int,
) -> bool {
    forall|i: int|
        0 <= i < questions.len() ==> about((#[trigger] questions[i]).id, apps, suffixes, k)
}

spec fn about(id: Seq<char>, apps: Seq<AppFactsView>, suffixes: Seq<Seq<char>>, k: int) -> bool {
    exists|a: int, s: int|
        0 <= a < k && 0 <= s < suffixes.len() && id == #[trigger] apps[a].id + #[trigger] suffixes[s]
}

/// Whether the suffixes end in letters of their own.
spec fn told_by_their_end(suffixes: Seq<Seq<char>>) -> bool {
    &&& forall|s: int| 0 <= s < suffixes.len() ==> (#[trigger] suffixes[s]).len() > 0
    &&& forall|s: int, t: int|
        0 <= s < t < suffixes.len() ==> (#[trigger] suffixes[s]).last() != (
        #[trigger] suffixes[t]).last()
}

proof fn same_suffix(a: Seq<char>, s: Seq<char>, b: Seq<char>, t: Seq<char>)
    requires
        s.len() > 0,
        t.len() > 0,
        a + s == b + t,
    ensures
        s.last() == t.last(),
        s == t ==> a == b,
{
    assert((a + s).last() == s.last());
    assert((b + t).last() == t.last());
    if s == t {
        assert(a.len() == b.len());
        assert((a + s).take(a.len() as int) =~= a);
        assert((b + t).take(b.len() as int) =~= b);
    }
}

proof fn distinct_together(a: Seq<UnknownView>, b: Seq<UnknownView>)
    requires
        distinct_ids(a),
        distinct_ids(b),
        forall|i: int, j: int|
            0 <= i < a.len() && 0 <= j < b.len() ==> (#[trigger] a[i]).id != (#[trigger] b[j]).id,
    ensures
        distinct_ids(a + b),
{
    let all = a + b;
    assert forall|i: int, j: int| 0 <= i < j < all.len() implies (#[trigger] all[i]).id != (
    #[trigger] all[j]).id by {
        if j < a.len() {
            assert(all[i] == a[i] && all[j] == a[j]);
        } else if i < a.len() {
            assert(all[i] == a[i] && all[j] == b[j - a.len()]);
        } else {
            assert(all[i] == b[i - a.len()] && all[j] == b[j - a.len()]);
        }
    }
}

spec fn app_suffixes() -> Seq<Seq<char>> {
    seq![".port_env"@, ".setup"@, ".run"@, ".storybook"@]
}

proof fn suffixes_are_told_by_their_end()
    ensures
        told_by_their_end(app_suffixes()),
        app_suffixes()[0].last() == 'v',
        app_suffixes()[1].last() == 'p',
        app_suffixes()[2].last() == 'n',
        app_suffixes()[3].last() == 'k',
{
    reveal_strlit(".port_env");
    reveal_strlit(".setup");
    reveal_strlit(".run");
    reveal_strlit(".storybook");
}

proof fn one_apps_questions(
    snapshot: SnapshotView,
    apps: Seq<AppFactsView>,
    facts: Seq<FactView>,
    a: int,
)
    requires
        0 <= a < apps.len(),
    ensures
        ({
            let own = unknowns::app_questions(snapshot, apps[a], facts);
            &&& distinct_ids(own)
            &&& forall|i: int|
                0 <= i < own.len() ==> exists|s: int|
                    0 <= s < 3 && (#[trigger] own[i]).id == apps[a].id + #[trigger] app_suffixes()[s]
        }),
{
    let app = apps[a].id;
    let suffixes = app_suffixes();
    let port = unknowns::port_question(app, unknowns::port_variables_of(app, facts));
    let setup = unknowns::setup_question(app, unknowns::setups_of(snapshot, apps[a], facts));
    let run = unknowns::run_question(app, unknowns::runs_of(snapshot, apps[a], facts));
    suffixes_are_told_by_their_end();
    assert(suffixes[0] == ".port_env"@ && suffixes[1] == ".setup"@ && suffixes[2] == ".run"@);
    assert(port.len() <= 1 && setup.len() <= 1 && run.len() == 1);
    assert forall|i: int| 0 <= i < port.len() implies (#[trigger] port[i]).id == app + suffixes[0] by {}
    assert forall|i: int| 0 <= i < setup.len() implies (#[trigger] setup[i]).id == app
        + suffixes[1] by {}
    assert forall|i: int| 0 <= i < run.len() implies (#[trigger] run[i]).id == app + suffixes[2] by {}
    if app + suffixes[0] == app + suffixes[1] {
        same_suffix(app, suffixes[0], app, suffixes[1]);
    }
    if app + suffixes[0] == app + suffixes[2] {
        same_suffix(app, suffixes[0], app, suffixes[2]);
    }
    if app + suffixes[1] == app + suffixes[2] {
        same_suffix(app, suffixes[1], app, suffixes[2]);
    }
    distinct_together(port, setup);
    distinct_together(port + setup, run);
    let own = port + setup + run;
    assert forall|i: int| 0 <= i < own.len() implies exists|s: int|
        0 <= s < 3 && (#[trigger] own[i]).id == app + #[trigger] suffixes[s] by {
        if i < port.len() {
            assert(own[i] == port[i]);
            assert(own[i].id == app + suffixes[0]);
        } else if i < port.len() + setup.len() {
            assert(own[i] == setup[i - port.len()]);
            assert(own[i].id == app + suffixes[1]);
        } else {
            assert(own[i] == run[i - port.len() - setup.len()]);
            assert(own[i].id == app + suffixes[2]);
        }
    }
}

proof fn all_apps_questions(
    snapshot: SnapshotView,
    apps: Seq<AppFactsView>,
    facts: Seq<FactView>,
    k: int,
)
    requires
        distinct_apps(apps),
        0 <= k <= apps.len(),
    ensures
        distinct_ids(unknowns::app_questions_upto(snapshot, apps, facts, k)),
        all_about(
            unknowns::app_questions_upto(snapshot, apps, facts, k),
            apps,
            app_suffixes().take(3),
            k,
        ),
    decreases k,
{
    if k > 0 {
        all_apps_questions(snapshot, apps, facts, k - 1);
        one_apps_questions(snapshot, apps, facts, k - 1);
        suffixes_are_told_by_their_end();
        let suffixes = app_suffixes().take(3);
        let before = unknowns::app_questions_upto(snapshot, apps, facts, k - 1);
        let own = unknowns::app_questions(snapshot, apps[k - 1], facts);
        assert forall|i: int, j: int| 0 <= i < before.len() && 0 <= j < own.len() implies (
        #[trigger] before[i]).id != (#[trigger] own[j]).id by {
            assert(about(before[i].id, apps, suffixes, k - 1));
            let (a, s) = choose|a: int, s: int|
                0 <= a < k - 1 && 0 <= s < suffixes.len() && before[i].id == #[trigger] apps[a].id
                    + #[trigger] suffixes[s];
            let t = choose|t: int|
                0 <= t < 3 && own[j].id == apps[k - 1].id + #[trigger] app_suffixes()[t];
            assert(suffixes[s] == app_suffixes()[s]);
            if before[i].id == own[j].id {
                same_suffix(apps[a].id, suffixes[s], apps[k - 1].id, app_suffixes()[t]);
                assert(s == t);
                assert(apps[a].id != apps[k - 1].id);
            }
        }
        distinct_together(before, own);
        let all = before + own;
        assert forall|i: int| 0 <= i < all.len() implies about(
            (#[trigger] all[i]).id,
            apps,
            suffixes,
            k,
        ) by {
            if i < before.len() {
                assert(all[i] == before[i]);
                assert(about(before[i].id, apps, suffixes, k - 1));
                let (a, s) = choose|a: int, s: int|
                    0 <= a < k - 1 && 0 <= s < suffixes.len() && before[i].id
                        == #[trigger] apps[a].id + #[trigger] suffixes[s];
                assert(all[i].id == apps[a].id + suffixes[s]);
            } else {
                let j = i - before.len();
                assert(all[i] == own[j]);
                let t = choose|t: int|
                    0 <= t < 3 && own[j].id == apps[k - 1].id + #[trigger] app_suffixes()[t];
                assert(suffixes[t] == app_suffixes()[t]);
                assert(all[i].id == apps[k - 1].id + suffixes[t]);
            }
        }
    }
}

proof fn all_storybook_questions(apps: Seq<AppFactsView>, facts: Seq<FactView>, k: int)
    requires
        distinct_apps(apps),
        0 <= k <= apps.len(),
    ensures
        distinct_ids(unknowns::storybook_questions_upto(apps, facts, k)),
        all_about(
            unknowns::storybook_questions_upto(apps, facts, k),
            apps,
            app_suffixes().skip(3),
            k,
        ),
    decreases k,
{
    if k > 0 {
        all_storybook_questions(apps, facts, k - 1);
        suffixes_are_told_by_their_end();
        let suffixes = app_suffixes().skip(3);
        assert(suffixes.len() == 1 && suffixes[0] == ".storybook"@);
        let before = unknowns::storybook_questions_upto(apps, facts, k - 1);
        let own = unknowns::storybook_question(apps[k - 1], facts);
        assert(own.len() <= 1);
        assert forall|j: int| 0 <= j < own.len() implies (#[trigger] own[j]).id == apps[k - 1].id
            + suffixes[0] by {}
        assert forall|i: int, j: int| 0 <= i < before.len() && 0 <= j < own.len() implies (
        #[trigger] before[i]).id != (#[trigger] own[j]).id by {
            assert(about(before[i].id, apps, suffixes, k - 1));
            let (a, s) = choose|a: int, s: int|
                0 <= a < k - 1 && 0 <= s < suffixes.len() && before[i].id == #[trigger] apps[a].id
                    + #[trigger] suffixes[s];
            if before[i].id == own[j].id {
                same_suffix(apps[a].id, suffixes[0], apps[k - 1].id, suffixes[0]);
                assert(apps[a].id != apps[k - 1].id);
            }
        }
        distinct_together(before, own);
        let all = before + own;
        assert forall|i: int| 0 <= i < all.len() implies about(
            (#[trigger] all[i]).id,
            apps,
            suffixes,
            k,
        ) by {
            if i < before.len() {
                assert(all[i] == before[i]);
                assert(about(before[i].id, apps, suffixes, k - 1));
                let (a, s) = choose|a: int, s: int|
                    0 <= a < k - 1 && 0 <= s < suffixes.len() && before[i].id
                        == #[trigger] apps[a].id + #[trigger] suffixes[s];
                assert(all[i].id == apps[a].id + suffixes[s]);
            } else {
                assert(all[i] == own[i - before.len()]);
                assert(all[i].id == apps[k - 1].id + suffixes[0]);
            }
        }
    }
}

/// Where no two apps share an id, no two questions do: an answer is always the answer to one
/// question.
pub proof fn questions_are_told_apart(
    snapshot: SnapshotView,
    apps: Seq<AppFactsView>,
    facts: Seq<FactView>,
)
    requires
        distinct_apps(apps),
    ensures
        distinct_ids(unknowns::unknowns_of(snapshot, apps, facts)),
{
    let n = apps.len() as int;
    let members = unknowns::members_question(apps);
    let compose = unknowns::compose_questions(facts);
    let own = unknowns::app_questions_upto(snapshot, apps, facts, n);
    let storybook = unknowns::storybook_questions_upto(apps, facts, n);
    all_apps_questions(snapshot, apps, facts, n);
    all_storybook_questions(apps, facts, n);
    suffixes_are_told_by_their_end();
    reveal_strlit("stack.members");
    reveal_strlit("compose.shared");
    reveal_strlit("compose.expose");
    assert("stack.members"@.last() == 's');
    assert("compose.shared"@.last() == 'd');
    assert("compose.expose"@.last() == 'e');
    assert(members.len() <= 1);
    assert forall|i: int| 0 <= i < members.len() implies (#[trigger] members[i]).id.last() == 's' by {}
    assert(compose.len() <= 2);
    assert forall|i: int| 0 <= i < compose.len() implies (#[trigger] compose[i]).id == (if i == 0 {
        "compose.shared"@
    } else {
        "compose.expose"@
    }) by {}
    distinct_together(members, compose);
    assert forall|j: int| 0 <= j < own.len() implies ({
        let c = (#[trigger] own[j]).id.last();
        c == 'v' || c == 'p' || c == 'n'
    }) by {
        let suffixes = app_suffixes().take(3);
        assert(about(own[j].id, apps, suffixes, n));
        let (a, s) = choose|a: int, s: int|
            0 <= a < n && 0 <= s < suffixes.len() && own[j].id == #[trigger] apps[a].id
                + #[trigger] suffixes[s];
        assert(suffixes[s] == app_suffixes()[s]);
        assert(own[j].id.last() == suffixes[s].last());
    }
    assert forall|j: int| 0 <= j < storybook.len() implies (#[trigger] storybook[j]).id.last()
        == 'k' by {
        let suffixes = app_suffixes().skip(3);
        assert(about(storybook[j].id, apps, suffixes, n));
        let (a, s) = choose|a: int, s: int|
            0 <= a < n && 0 <= s < suffixes.len() && storybook[j].id == #[trigger] apps[a].id
                + #[trigger] suffixes[s];
        assert(suffixes[s] == app_suffixes()[s + 3]);
        assert(storybook[j].id.last() == suffixes[s].last());
    }
    let first = members + compose;
    assert forall|i: int| 0 <= i < first.len() implies ({
        let c = (#[trigger] first[i]).id.last();
        c == 's' || c == 'd' || c == 'e'
    }) by {
        if i < members.len() {
            assert(first[i] == members[i]);
        } else {
            assert(first[i] == compose[i - members.len()]);
        }
    }
    distinct_together(first, own);
    let second = first + own;
    assert forall|i: int| 0 <= i < second.len() implies (#[trigger] second[i]).id.last() != 'k' by {
        if i < first.len() {
            assert(second[i] == first[i]);
        } else {
            assert(second[i] == own[i - first.len()]);
        }
    }
    distinct_together(second, storybook);
}

} // verus!
