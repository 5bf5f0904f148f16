//! What is asked about a repository, and what is offered.

use crate::dict;
use crate::discover::extractors;
use crate::discover::extractors::CandidateView;
use crate::discover::laws;
use crate::discover::report::{
    AppFactsView, ComposeServiceFactView, FactDataView, FactKind, FactView, ScriptFactView,
    UnknownKind,
};
use crate::discover::snapshot::SnapshotView;
use crate::discover::unknowns;
use crate::text;
use vstd::prelude::*;

verus! {

/// Whether a script is called like one that runs an app for development.
pub open spec fn is_called_like_a_run(name: Seq<char>) -> bool {
    name == "dev"@ || name == "start"@ || name == "serve"@ || exists|rest: Seq<char>|
        name == #[trigger] ("dev:"@ + rest) || name == "start:"@ + rest
}

proof fn runs_have_a_score(name: Seq<char>)
    requires
        is_called_like_a_run(name),
    ensures
        unknowns::script_score(name) > 0,
{
    if !(name == "dev"@ || name == "start"@ || name == "serve"@) {
        let rest = choose|rest: Seq<char>|
            name == #[trigger] ("dev:"@ + rest) || name == "start:"@ + rest;
        if name == "dev:"@ + rest {
            assert(name.take("dev:"@.len() as int) =~= "dev:"@);
        } else {
            assert(name.take("start:"@.len() as int) =~= "start:"@);
        }
    }
}

proof fn scripts_are_runs(
    list: Seq<ScriptFactView>,
    runner: Seq<char>,
    evidence: Seq<char>,
    k: int,
    j: int,
)
    requires
        0 <= j < k <= list.len(),
        is_called_like_a_run(list[j].name),
    ensures
        laws::has_value(
            unknowns::script_runs(list, runner, evidence, k),
            runner + ":"@ + list[j].name,
        ),
    decreases k,
{
    let before = unknowns::script_runs(list, runner, evidence, k - 1);
    let now = unknowns::script_runs(list, runner, evidence, k);
    let value = runner + ":"@ + list[j].name;
    if j < k - 1 {
        scripts_are_runs(list, runner, evidence, k - 1, j);
        let i = choose|i: int| 0 <= i < before.len() && (#[trigger] before[i]).value == value;
        assert(now[i].value == value);
    } else {
        runs_have_a_score(list[j].name);
        assert(now[before.len() as int].value == value);
    }
}

/// A script of an app that is called like one that runs it is among the ways to run it, with the
/// app's own package manager.
pub proof fn run_scripts_are_offered(
    snapshot: SnapshotView,
    app: AppFactsView,
    facts: Seq<FactView>,
    k: int,
    j: int,
)
    requires
        0 <= k < facts.len(),
        facts[k].app == Some(app.id),
        facts[k].data is Node,
        0 <= j < facts[k].data->Node_scripts.len(),
        is_called_like_a_run(facts[k].data->Node_scripts[j].name),
    ensures
        ({
            let asked = unknowns::run_question(app.id, unknowns::runs_of(snapshot, app, facts));
            let runner = extractors::node_runner_of(
                snapshot,
                extractors::app_root_of(snapshot.root, app.dir),
                facts[k].data->Node_package_manager,
            );
            asked.len() == 1 && asked[0].id == app.id + ".run"@ && asked[0].kind
                == UnknownKind::Choice && asked[0].options.contains(
                runner + ":"@ + facts[k].data->Node_scripts[j].name,
            )
        }),
{
    let scripts = facts[k].data->Node_scripts;
    let runner = extractors::node_runner_of(
        snapshot,
        extractors::app_root_of(snapshot.root, app.dir),
        facts[k].data->Node_package_manager,
    );
    scripts_are_runs(scripts, runner, facts[k].id, scripts.len() as int, j);
    laws::named_ways_are_offered(snapshot, app, facts, k, runner + ":"@ + scripts[j].name);
}

/// Whether the scores of a list never rise.
spec fn best_first(list: Seq<CandidateView>) -> bool {
    forall|i: int, j: int|
        0 <= i < j < list.len() ==> (#[trigger] list[i]).score >= (#[trigger] list[j]).score
}

proof fn placing_keeps_the_order(list: Seq<CandidateView>, x: CandidateView)
    requires
        best_first(list),
    ensures
        best_first(unknowns::with_candidate(list, x)),
        forall|y: CandidateView|
            #[trigger] unknowns::with_candidate(list, x).contains(y) ==> y == x || list.contains(y),
        unknowns::with_candidate(list, x).len() == list.len() + 1,
    decreases list.len(),
{
    let now = unknowns::with_candidate(list, x);
    if list.len() == 0 || !unknowns::offered_before(x, list.last()) {
        assert forall|y: CandidateView| #[trigger] now.contains(y) implies y == x || list.contains(
            y,
        ) by {
            let i = choose|i: int| 0 <= i < now.len() && now[i] == y;
            if i < list.len() {
                assert(list[i] == y);
            }
        }
    } else {
        let rest = list.drop_last();
        placing_keeps_the_order(rest, x);
        let inner = unknowns::with_candidate(rest, x);
        assert forall|y: CandidateView| #[trigger] now.contains(y) implies y == x || list.contains(
            y,
        ) by {
            let i = choose|i: int| 0 <= i < now.len() && now[i] == y;
            if i < inner.len() {
                assert(inner.contains(inner[i]));
                if y != x {
                    let m = choose|m: int| 0 <= m < rest.len() && rest[m] == y;
                    assert(list[m] == y);
                }
            } else {
                assert(list[list.len() - 1] == y);
            }
        }
        assert forall|i: int, j: int| 0 <= i < j < now.len() implies (#[trigger] now[i]).score >= (
        #[trigger] now[j]).score by {
            if j == inner.len() {
                assert(inner.contains(inner[i]));
                if inner[i] != x {
                    let m = choose|m: int| 0 <= m < rest.len() && rest[m] == inner[i];
                    assert(list[m] == inner[i]);
                }
            } else {
                assert(inner[i].score >= inner[j].score);
            }
        }
    }
}

proof fn ranking_puts_the_best_first(list: Seq<CandidateView>)
    ensures
        best_first(unknowns::ranked(list)),
        unknowns::ranked(list).len() == list.len(),
        forall|y: CandidateView| #[trigger] unknowns::ranked(list).contains(y) ==> list.contains(y),
    decreases list.len(),
{
    if list.len() > 0 {
        let rest = list.drop_last();
        ranking_puts_the_best_first(rest);
        placing_keeps_the_order(unknowns::ranked(rest), list.last());
        assert forall|y: CandidateView| #[trigger] unknowns::ranked(list).contains(
            y,
        ) implies list.contains(y) by {
            if y == list.last() {
                assert(list[list.len() - 1] == y);
            } else {
                assert(unknowns::ranked(rest).contains(y));
                let i = choose|i: int| 0 <= i < rest.len() && rest[i] == y;
                assert(list[i] == y);
            }
        }
    }
}

proof fn the_first_stays(list: Seq<CandidateView>)
    requires
        list.len() > 0,
    ensures
        unknowns::unrepeated(list).len() > 0,
        unknowns::unrepeated(list)[0] == list[0],
    decreases list.len(),
{
    if list.len() > 1 {
        the_first_stays(list.drop_last());
    }
}

proof fn ranked_values(list: Seq<CandidateView>, x: CandidateView)
    requires
        list.contains(x),
    ensures
        unknowns::ranked(list).contains(x),
    decreases list.len(),
{
    let rest = list.drop_last();
    let before = unknowns::ranked(rest);
    if x != list.last() {
        let i = choose|i: int| 0 <= i < list.len() && list[i] == x;
        assert(rest[i] == x);
        ranked_values(rest, x);
    }
    placed_candidates(before, list.last(), x);
}

proof fn placed_candidates(list: Seq<CandidateView>, x: CandidateView, y: CandidateView)
    requires
        y == x || list.contains(y),
    ensures
        unknowns::with_candidate(list, x).contains(y),
    decreases list.len(),
{
    let now = unknowns::with_candidate(list, x);
    if list.len() == 0 || !unknowns::offered_before(x, list.last()) {
        if y == x {
            assert(now[list.len() as int] == y);
        } else {
            let i = choose|i: int| 0 <= i < list.len() && list[i] == y;
            assert(now[i] == y);
        }
    } else {
        let rest = list.drop_last();
        let inner = unknowns::with_candidate(rest, x);
        if y != x && y == list.last() {
            assert(now[inner.len() as int] == y);
        } else {
            if y != x {
                let i = choose|i: int| 0 <= i < list.len() && list[i] == y;
                assert(rest[i] == y);
            }
            placed_candidates(rest, x, y);
            let j = choose|j: int| 0 <= j < inner.len() && inner[j] == y;
            assert(now[j] == y);
        }
    }
}

/// The way to run an app that is taken by default is the best of those that its files name: none has a
/// higher score.
pub proof fn the_best_way_is_the_default(
    snapshot: SnapshotView,
    app: AppFactsView,
    facts: Seq<FactView>,
    x: CandidateView,
)
    requires
        unknowns::runs_upto(snapshot, app, facts, facts.len() as int).contains(x),
    ensures
        ({
            let found = unknowns::runs_upto(snapshot, app, facts, facts.len() as int);
            let asked = unknowns::run_question(app.id, unknowns::runs_of(snapshot, app, facts));
            &&& asked.len() == 1
            &&& asked[0].default is Some
            &&& exists|d: CandidateView| #[trigger]
                found.contains(d) && d.value == asked[0].default.unwrap() && d.score >= x.score
        }),
{
    let found = unknowns::runs_upto(snapshot, app, facts, facts.len() as int);
    let order = unknowns::ranked(found);
    ranking_puts_the_best_first(found);
    ranked_values(found, x);
    the_first_stays(order);
    let i = choose|i: int| 0 <= i < order.len() && order[i] == x;
    assert(order[0].score >= order[i].score);
    assert(order.contains(order[0]));
    assert(found.contains(order[0]));
}

proof fn published_services(services: Seq<ComposeServiceFactView>, k: int, name: Seq<char>)
    requires
        0 <= k <= services.len(),
    ensures
        unknowns::published_names(services, k).contains(name) <==> exists|i: int|
            0 <= i < k && (#[trigger] services[i]).name == name && services[i].ports.len() > 0,
    decreases k,
{
    if k > 0 {
        published_services(services, k - 1, name);
        let before = unknowns::published_names(services, k - 1);
        let now = unknowns::published_names(services, k);
        let own = services[k - 1];
        if own.ports.len() > 0 {
            assert(now[before.len() as int] == own.name);
            if before.contains(name) {
                let i = choose|i: int| 0 <= i < before.len() && before[i] == name;
                assert(now[i] == name);
            }
            if now.contains(name) && own.name != name {
                let i = choose|i: int| 0 <= i < now.len() && now[i] == name;
                assert(before[i] == name);
            }
        }
    }
}

/// A compose file is asked about: every service of it may be shared, exactly those that publish a port
/// may be reached from the host, and that is asked only where one does.
pub proof fn compose_services_are_asked_about(
    id: Seq<char>,
    services: Seq<ComposeServiceFactView>,
    name: Seq<char>,
)
    ensures
        ({
            let asked = unknowns::service_questions(id, services);
            let publishes = exists|i: int|
                0 <= i < services.len() && (#[trigger] services[i]).ports.len() > 0;
            &&& asked.len() == (if publishes {
                2int
            } else {
                1int
            })
            &&& asked[0].id == "compose.shared"@
            &&& asked[0].options.contains(name) <==> exists|i: int|
                0 <= i < services.len() && (#[trigger] services[i]).name == name
            &&& publishes ==> asked[1].id == "compose.expose"@ && (asked[1].options.contains(name)
                <==> exists|i: int|
                0 <= i < services.len() && (#[trigger] services[i]).name == name
                    && services[i].ports.len() > 0)
            &&& publishes ==> asked[1].default == Some(""@)
        }),
{
    let n = services.len() as int;
    let names = unknowns::service_names(services);
    let published = unknowns::published_names(services, n);
    published_services(services, n, name);
    if exists|i: int| 0 <= i < n && (#[trigger] services[i]).ports.len() > 0 {
        let i = choose|i: int| 0 <= i < n && (#[trigger] services[i]).ports.len() > 0;
        published_services(services, n, services[i].name);
        assert(services[i].name == services[i].name);
        assert(published.contains(services[i].name));
    }
    if published.len() > 0 {
        published_services(services, n, published[0]);
        assert(published.contains(published[0]));
    }
    if names.contains(name) {
        let i = choose|i: int| 0 <= i < names.len() && names[i] == name;
        assert(services[i].name == name);
    }
    if exists|i: int| 0 <= i < n && (#[trigger] services[i]).name == name {
        let i = choose|i: int| 0 <= i < n && (#[trigger] services[i]).name == name;
        assert(names[i] == name);
    }
}

/// Whether a variable is called like one that carries a port.
pub open spec fn is_called_like_a_port(name: Seq<char>) -> bool {
    text::contains_of(text::upper_of(name), "PORT"@) && text::upper_of(name) != "SUPPORT"@
}

proof fn port_names_are_added(names: Seq<Seq<char>>, list: Seq<Seq<char>>, k: int, x: Seq<char>)
    requires
        0 <= k <= list.len(),
    ensures
        unknowns::with_port_names(names, list, k).contains(x) <==> names.contains(x) || (
        is_called_like_a_port(x) && exists|i: int| 0 <= i < k && #[trigger] list[i] == x),
    decreases k,
{
    if k > 0 {
        port_names_are_added(names, list, k - 1, x);
        let before = unknowns::with_port_names(names, list, k - 1);
        dict::members_are_added(before, list[k - 1], x);
    }
}

/// Whether a fact says that a variable is read: a justfile of the app, or an example of the
/// repository's environment.
pub open spec fn is_read_in(fact: FactView, app: Seq<char>, x: Seq<char>) -> bool {
    match fact.data {
        FactDataView::Just { env_variables, .. } => fact.app == Some(app) && exists|i: int|
            0 <= i < env_variables.len() && #[trigger] env_variables[i] == x,
        FactDataView::EnvExample { variables, .. } => fact.app is None && exists|i: int|
            0 <= i < variables.len() && #[trigger] variables[i] == x,
        _ => false,
    }
}

/// Whether a fact is an example of an environment.
spec fn is_template(fact: FactView) -> bool {
    fact.data is EnvExample
}

proof fn port_names_come_from_facts(
    app: Seq<char>,
    facts: Seq<FactView>,
    templates: bool,
    names: Seq<Seq<char>>,
    k: int,
    x: Seq<char>,
)
    requires
        0 <= k <= facts.len(),
    ensures
        unknowns::port_names_upto(app, facts, templates, names, k).contains(x) <==> names.contains(x)
            || (is_called_like_a_port(x) && exists|i: int|
            0 <= i < k && is_read_in(#[trigger] facts[i], app, x) && is_template(facts[i])
                == templates),
    decreases k,
{
    if k > 0 {
        port_names_come_from_facts(app, facts, templates, names, k - 1, x);
        let before = unknowns::port_names_upto(app, facts, templates, names, k - 1);
        let list = unknowns::port_variables_in(app, facts[k - 1], templates);
        port_names_are_added(before, list, list.len() as int, x);
        assert((exists|i: int| 0 <= i < list.len() && #[trigger] list[i] == x) <==> is_read_in(
            facts[k - 1],
            app,
            x,
        ) && is_template(facts[k - 1]) == templates);
    }
}

proof fn placed_variables(app: Seq<char>, list: Seq<Seq<char>>, x: Seq<char>, y: Seq<char>)
    ensures
        unknowns::with_variable(app, list, x).contains(y) <==> y == x || list.contains(y),
    decreases list.len(),
{
    let now = unknowns::with_variable(app, list, x);
    if list.len() == 0 || !unknowns::more_specific(app, x, list.last()) {
        assert(now[list.len() as int] == x);
        if list.contains(y) {
            let i = choose|i: int| 0 <= i < list.len() && list[i] == y;
            assert(now[i] == y);
        }
        if now.contains(y) && y != x {
            let i = choose|i: int| 0 <= i < now.len() && now[i] == y;
            assert(list[i] == y);
        }
    } else {
        let rest = list.drop_last();
        let inner = unknowns::with_variable(app, rest, x);
        placed_variables(app, rest, x, y);
        assert(now[inner.len() as int] == list.last());
        assert(list[list.len() - 1] == list.last());
        if inner.contains(y) {
            let i = choose|i: int| 0 <= i < inner.len() && inner[i] == y;
            assert(now[i] == y);
        }
        if list.contains(y) && y != list.last() {
            let i = choose|i: int| 0 <= i < list.len() && list[i] == y;
            assert(rest[i] == y);
        }
        if rest.contains(y) {
            let i = choose|i: int| 0 <= i < rest.len() && rest[i] == y;
            assert(list[i] == y);
        }
        if now.contains(y) && y != list.last() {
            let i = choose|i: int| 0 <= i < now.len() && now[i] == y;
            assert(inner[i] == y);
        }
    }
}

proof fn sorting_keeps_variables(app: Seq<char>, list: Seq<Seq<char>>, y: Seq<char>)
    ensures
        unknowns::by_specificity(app, list).contains(y) <==> list.contains(y),
    decreases list.len(),
{
    if list.len() > 0 {
        let rest = list.drop_last();
        sorting_keeps_variables(app, rest, y);
        placed_variables(app, unknowns::by_specificity(app, rest), list.last(), y);
        assert(list[list.len() - 1] == list.last());
        if rest.contains(y) {
            let i = choose|i: int| 0 <= i < rest.len() && rest[i] == y;
            assert(list[i] == y);
        }
        if list.contains(y) && y != list.last() {
            let i = choose|i: int| 0 <= i < list.len() && list[i] == y;
            assert(rest[i] == y);
        }
    }
}

/// The variables that may carry an app's port are exactly those that are called like one and that its
/// justfile, or an example of the repository's environment, reads.
pub proof fn port_variables_are_read_somewhere(
    app: Seq<char>,
    facts: Seq<FactView>,
    x: Seq<char>,
)
    ensures
        unknowns::port_variables_of(app, facts).contains(x) <==> is_called_like_a_port(x) && exists|
            i: int,
        |
            0 <= i < facts.len() && is_read_in(#[trigger] facts[i], app, x),
{
    let n = facts.len() as int;
    let none = Seq::<Seq<char>>::empty();
    let own = unknowns::port_names_upto(app, facts, false, none, n);
    port_names_come_from_facts(app, facts, false, none, n, x);
    port_names_come_from_facts(app, facts, true, own, n, x);
    sorting_keeps_variables(app, unknowns::port_names_upto(app, facts, true, own, n), x);
    if exists|i: int| 0 <= i < n && is_read_in(#[trigger] facts[i], app, x) {
        let i = choose|i: int| 0 <= i < n && is_read_in(#[trigger] facts[i], app, x);
        assert(is_template(facts[i]) == true || is_template(facts[i]) == false);
    }
}

proof fn first_compose_fact(facts: Seq<FactView>, k: int) -> (at: int)
    requires
        0 <= k <= facts.len(),
    ensures
        match unknowns::compose_fact_from(facts, k) {
            Some(f) => k <= at < facts.len() && facts[at] == f && f.kind == FactKind::Compose
                && forall|j: int| k <= j < at ==> (#[trigger] facts[j]).kind != FactKind::Compose,
            None => forall|j: int| k <= j < facts.len() ==> (#[trigger] facts[j]).kind
                != FactKind::Compose,
        },
    decreases facts.len() - k,
{
    if k >= facts.len() || facts[k].kind == FactKind::Compose {
        k
    } else {
        first_compose_fact(facts, k + 1)
    }
}

/// The compose services that are asked about are those of the first compose file, and nothing is asked
/// where there is none.
pub proof fn the_first_compose_file_is_asked_about(facts: Seq<FactView>) -> (at: int)
    ensures
        (forall|j: int| 0 <= j < facts.len() ==> (#[trigger] facts[j]).kind != FactKind::Compose)
            ==> unknowns::compose_questions(facts).len() == 0,
        (exists|j: int| 0 <= j < facts.len() && (#[trigger] facts[j]).kind == FactKind::Compose)
            ==> 0 <= at < facts.len() && facts[at].kind == FactKind::Compose && (forall|j: int|
            0 <= j < at ==> (#[trigger] facts[j]).kind != FactKind::Compose) && (
        facts[at].data is Compose ==> unknowns::compose_questions(facts)
            == unknowns::service_questions(facts[at].id, facts[at].data->Compose_services)),
{
    first_compose_fact(facts, 0)
}

} // verus!
