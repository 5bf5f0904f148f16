//! What `discover` and `init` print, and which answers `init` works from.

use crate::dict;
use crate::dict::Dict;
use crate::discover::ports;
use crate::discover::report::{
    Answer, AnswerSet, AnswerSetView, AnswerView, AppFacts, AppFactsView, ComposeServiceFact,
    ComposeServiceFactView, Confidence, Fact, FactData, FactDataView, FactKind, FactView,
    PortLiteralFact, PortLiteralFactView, Report, ReportView, Unknown, UnknownView,
};
use crate::discover::report;
use crate::env;
use crate::init;
use crate::init::{Applied, AppliedView, Dropped, DroppedView, Recorded, RecordedView};
use crate::text;
use crate::text::Texts;
use vstd::prelude::*;

verus! {

// ---------------------------------------------------------------------------
// Discovery
// ---------------------------------------------------------------------------

/// The names of compose services.
pub open spec fn service_names(services: Seq<ComposeServiceFactView>) -> Seq<Seq<char>> {
    Seq::new(services.len(), |i: int| services[i].name)
}

/// A count and what is counted.
pub open spec fn count_of(n: nat, what: Seq<char>) -> Seq<char> {
    text::decimal_of(n) + what
}

/// A fact in a few words.
pub open spec fn fact_text(data: FactDataView) -> Seq<char> {
    match data {
        FactDataView::Compose { services, .. } => count_of(
            services.len(),
            " compose service(s): "@,
        ) + text::join_of(service_names(services), ", "@),
        FactDataView::Node { scripts, package_manager, .. } => count_of(
            scripts.len(),
            " script(s), manager "@,
        ) + (match package_manager {
            Some(manager) => manager,
            None => "unknown"@,
        }),
        FactDataView::Workspace { tool, packages } => tool + ", "@ + count_of(
            packages.len(),
            " package(s)"@,
        ),
        FactDataView::Storybook { config_dir, dev_scripts, has_mcp } => "storybook, config "@ + (
        match config_dir {
            Some(dir) => dir,
            None => "none"@,
        }) + ", "@ + count_of(dev_scripts.len(), " dev script(s)"@) + (if has_mcp {
            ", MCP addon"@
        } else {
            ""@
        }),
        FactDataView::Mise { tasks, tools, .. } => count_of(tasks.len(), " task(s), "@) + count_of(
            tools.len(),
            " tool(s)"@,
        ),
        FactDataView::Just { recipes, modules, env_variables, .. } => count_of(
            recipes.len(),
            " recipe(s), "@,
        ) + count_of(modules.len(), " module(s), "@) + count_of(env_variables.len(), " env var(s)"@),
        FactDataView::Python { manager, dependency_groups, .. } => manager + ", groups: "@
            + text::join_of(dependency_groups, ", "@),
        FactDataView::EnvExample { variables, .. } => count_of(variables.len(), " variable(s)"@),
        FactDataView::Procfile { processes, .. } => count_of(processes.len(), " process(es)"@),
    }
}

fn counted(n: usize, what: &str) -> (r: String)
    ensures
        r@ == count_of(n as nat, what@),
{
    text::concat(&text::decimal(n as u64), what)
}

fn names_of(services: &Vec<ComposeServiceFact>) -> (r: Vec<String>)
    ensures
        text::views(r@) == service_names(text::views(services@)),
{
    let ghost all = text::views(services@);
    let ghost goal = service_names(all);
    let mut names: Vec<String> = Vec::new();
    let mut k: usize = 0;
    assert(text::views(names@) =~= goal.take(0));
    while k < services.len()
        invariant
            all == text::views(services@),
            goal == service_names(all),
            k <= services@.len(),
            text::views(names@) == goal.take(k as int),
        decreases services@.len() - k,
    {
        assert(all[k as int] == services@[k as int]@);
        text::add(&mut names, &services[k].name);
        k += 1;
        assert(text::views(names@) =~= goal.take(k as int));
    }
    assert(goal.take(k as int) =~= goal);
    names
}

/// A fact in a few words.
pub fn describe_fact(data: &FactData) -> (r: String)
    ensures
        r@ == fact_text(data@),
{
    match data {
        FactData::Compose { services, .. } => {
            let mut line = counted(services.len(), " compose service(s): ");
            line.append(&text::join(&names_of(services), ", "));
            line
        },
        FactData::Node { scripts, package_manager, .. } => {
            let mut line = counted(scripts.len(), " script(s), manager ");
            match package_manager {
                Some(manager) => {
                    line.append(manager);
                },
                None => {
                    line.append("unknown");
                },
            }
            line
        },
        FactData::Workspace { tool, packages } => {
            let mut line = tool.clone();
            line.append(", ");
            line.append(&counted(packages.len(), " package(s)"));
            line
        },
        FactData::Storybook { config_dir, dev_scripts, has_mcp } => {
            let mut line = text::own("storybook, config ");
            match config_dir {
                Some(dir) => {
                    line.append(dir);
                },
                None => {
                    line.append("none");
                },
            }
            line.append(", ");
            line.append(&counted(dev_scripts.len(), " dev script(s)"));
            line.append(
                if *has_mcp {
                    ", MCP addon"
                } else {
                    ""
                },
            );
            line
        },
        FactData::Mise { tasks, tools, .. } => {
            let mut line = counted(tasks.len(), " task(s), ");
            line.append(&counted(tools.len(), " tool(s)"));
            line
        },
        FactData::Just { recipes, modules, env_variables, .. } => {
            let mut line = counted(recipes.len(), " recipe(s), ");
            line.append(&counted(modules.len(), " module(s), "));
            line.append(&counted(env_variables.len(), " env var(s)"));
            line
        },
        FactData::Python { manager, dependency_groups, .. } => {
            let mut line = manager.clone();
            line.append(", groups: ");
            line.append(&text::join(dependency_groups, ", "));
            line
        },
        FactData::EnvExample { variables, .. } => counted(variables.len(), " variable(s)"),
        FactData::Procfile { processes, .. } => counted(processes.len(), " process(es)"),
    }
}

/// Whether one of the steps is this script.
pub open spec fn serves(steps: Seq<Seq<char>>, script: Seq<char>) -> bool {
    exists|i: int|
        0 <= i < steps.len() && (text::split_once_of(#[trigger] steps[i], ':') matches Some(parts)
            && parts.1 == script)
}

/// The variable a pinned port should read in `discover`'s advice. A committed template is nobody's
/// process yet; a script that serves Storybook reads no variable at all, so the one `init` hands it
/// is the one a rewrite has to name.
pub open spec fn advised_variable(
    facts: Seq<FactView>,
    fact: FactView,
    literal: PortLiteralFactView,
) -> Option<Seq<char>> {
    if fact.kind == FactKind::EnvExample {
        None
    } else {
        let step = match literal.container {
            Some(name) => name,
            None => ""@,
        };
        let app = match fact.app {
            Some(app) => app,
            None => ""@,
        };
        if serves(report::storybook_steps(facts, app, facts.len() as int), step) {
            Some("STORYBOOK_PORT"@)
        } else {
            Some("PORT"@)
        }
    }
}

fn is_served(steps: &Vec<String>, script: &str) -> (r: bool)
    ensures
        r == serves(text::views(steps@), script@),
{
    let ghost all = text::views(steps@);
    let mut k: usize = 0;
    while k < steps.len()
        invariant
            all == text::views(steps@),
            k <= steps@.len(),
            forall|i: int|
                0 <= i < k ==> !(text::split_once_of(#[trigger] all[i], ':') matches Some(parts)
                    && parts.1 == script@),
        decreases steps@.len() - k,
    {
        assert(all[k as int] == steps@[k as int]@);
        if let Some((_, name)) = text::split_once(&steps[k], ':') {
            if text::same(&name, script) {
                return true;
            }
        }
        k += 1;
    }
    false
}

/// The variable a pinned port should read in `discover`'s advice.
pub fn port_variable_for(report: &Report, fact: &Fact, literal: &PortLiteralFact) -> (r: Option<
    &'static str,
>)
    ensures
        match r {
            Some(name) => advised_variable(report@.facts, fact@, literal@) == Some(name@),
            None => advised_variable(report@.facts, fact@, literal@) is None,
        },
{
    if fact.kind == FactKind::EnvExample {
        return None;
    }
    let step = match &literal.container {
        Some(name) => name.clone(),
        None => text::own(""),
    };
    let app = match &fact.app {
        Some(app) => app.clone(),
        None => text::own(""),
    };
    if is_served(&report.storybook_scripts(&app), &step) {
        Some(init::STORYBOOK_PORT)
    } else {
        Some("PORT")
    }
}

/// How sure a fact is, in a word.
pub open spec fn confidence_word(c: Confidence) -> Seq<char> {
    match c {
        Confidence::High => "high"@,
        Confidence::Medium => "medium"@,
        Confidence::Low => "low"@,
    }
}

/// The lines of the first `k` facts.
pub open spec fn fact_lines(facts: Seq<FactView>, k: int) -> Seq<Seq<char>>
    decreases k,
{
    if k <= 0 {
        Seq::empty()
    } else {
        fact_lines(facts, k - 1).push(
            env::padded(facts[k - 1].id, 6) + " "@ + env::padded(facts[k - 1].source, 10) + " "@
                + env::padded(confidence_word(facts[k - 1].confidence), 8) + " "@ + fact_text(
                facts[k - 1].data,
            ),
        )
    }
}

/// The lines of the first `k` ports that are written into a file.
pub open spec fn pinned_lines(
    facts: Seq<FactView>,
    pinned: Seq<(FactView, PortLiteralFactView)>,
    k: int,
) -> Seq<Seq<char>>
    decreases k,
{
    if k <= 0 {
        Seq::empty()
    } else {
        let fact = pinned[k - 1].0;
        let literal = pinned[k - 1].1;
        pinned_lines(facts, pinned, k - 1).push(
            env::padded(fact.id, 6) + " "@ + env::padded(fact.source, 24) + " "@ + env::padded(
                ports::step_label_of(
                    fact.kind,
                    match literal.container {
                        Some(name) => name,
                        None => ""@,
                    },
                ) + " "@ + literal.literal,
                24,
            ) + " "@ + ports::suggestion_of(literal, advised_variable(facts, fact, literal)),
        )
    }
}

/// The lines of the first `k` questions.
pub open spec fn unknown_lines(unknowns: Seq<UnknownView>, k: int) -> Seq<Seq<char>>
    decreases k,
{
    if k <= 0 {
        Seq::empty()
    } else {
        let u = unknowns[k - 1];
        let said = unknown_lines(unknowns, k - 1).push(
            env::padded(u.id, 22) + " "@ + env::padded(u.scope.label_of(), 10) + " "@ + u.question,
        );
        if u.options.len() > 0 {
            said.push(env::padded(""@, 22) + " options: "@ + text::join_of(u.options, ", "@))
        } else {
            said
        }
    }
}

/// The directories of apps.
pub open spec fn app_dirs(apps: Seq<AppFactsView>) -> Seq<Seq<char>> {
    Seq::new(apps.len(), |i: int| apps[i].dir)
}

/// `(none)`, where there is nothing to list.
pub open spec fn nothing_listed(n: nat) -> Seq<Seq<char>> {
    if n == 0 {
        seq!["(none)"@]
    } else {
        Seq::empty()
    }
}

/// A report as `discover` prints it on a terminal.
pub open spec fn report_lines(report: ReportView) -> Seq<Seq<char>> {
    let pinned = ports::all_of(report.facts);
    seq![
        "repo   "@ + report.repo.root,
        "apps   "@ + (if report.apps.len() == 0 {
            "(none detected)"@
        } else {
            text::join_of(app_dirs(report.apps), ", "@)
        }),
        "\n# facts"@,
    ] + fact_lines(report.facts, report.facts.len() as int) + seq!["\n# hardcoded ports"@]
        + nothing_listed(pinned.len()) + pinned_lines(
        report.facts,
        pinned,
        pinned.len() as int,
    ) + seq!["\n# unknowns"@] + nothing_listed(report.unknowns.len()) + unknown_lines(
        report.unknowns,
        report.unknowns.len() as int,
    ) + seq![
        "\nreport hash "@ + report.report_hash,
        "write it with: magictree discover --report discovery.json"@,
    ]
}

fn add_facts(lines: &mut Vec<String>, report: &Report)
    ensures
        text::views(final(lines)@) == text::views(old(lines)@) + fact_lines(
            report@.facts,
            report@.facts.len() as int,
        ),
{
    let ghost start = text::views(lines@);
    let ghost all = report@.facts;
    let mut k: usize = 0;
    assert(start + Seq::<Seq<char>>::empty() =~= start);
    while k < report.facts.len()
        invariant
            all == report@.facts,
            k <= report.facts@.len(),
            text::views(lines@) == start + fact_lines(all, k as int),
        decreases report.facts@.len() - k,
    {
        let fact = &report.facts[k];
        assert(all[k as int] == fact@);
        let word = match fact.confidence {
            Confidence::High => "high",
            Confidence::Medium => "medium",
            Confidence::Low => "low",
        };
        let mut line = env::pad(&fact.id, 6);
        line.append(" ");
        line.append(&env::pad(&fact.source, 10));
        line.append(" ");
        line.append(&env::pad(word, 8));
        line.append(" ");
        line.append(&describe_fact(&fact.data));
        text::add(lines, &line);
        k += 1;
        assert(text::views(lines@) =~= start + fact_lines(all, k as int));
    }
}

fn all_facts<'a>(report: &'a Report) -> (r: Vec<&'a Fact>)
    ensures
        text::views(r@) == report@.facts,
{
    let ghost all = report@.facts;
    let mut out: Vec<&'a Fact> = Vec::new();
    let mut k: usize = 0;
    assert(text::views(out@) =~= all.take(0));
    while k < report.facts.len()
        invariant
            all == report@.facts,
            k <= report.facts@.len(),
            text::views(out@) == all.take(k as int),
        decreases report.facts@.len() - k,
    {
        broadcast use text::views_push;

        let fact: &'a Fact = &report.facts[k];
        assert(all[k as int] == fact@);
        out.push(fact);
        k += 1;
        assert(text::views(out@) =~= all.take(k as int));
    }
    assert(all.take(k as int) =~= all);
    out
}

fn add_nothing(lines: &mut Vec<String>, n: usize)
    ensures
        text::views(final(lines)@) == text::views(old(lines)@) + nothing_listed(n as nat),
{
    let ghost start = text::views(lines@);
    if n == 0 {
        text::add(lines, "(none)");
        assert(text::views(lines@) =~= start + seq!["(none)"@]);
    } else {
        assert(start + Seq::<Seq<char>>::empty() =~= start);
    }
}

fn add_pinned(lines: &mut Vec<String>, report: &Report)
    ensures
        text::views(final(lines)@) == text::views(old(lines)@) + nothing_listed(
            ports::all_of(report@.facts).len(),
        ) + pinned_lines(
            report@.facts,
            ports::all_of(report@.facts),
            ports::all_of(report@.facts).len() as int,
        ),
{
    let pinned = ports::all(&all_facts(report));
    let ghost all = text::views(pinned@);
    assert(all.len() == pinned@.len());
    add_nothing(lines, pinned.len());
    let ghost start = text::views(lines@);
    let mut k: usize = 0;
    assert(start + Seq::<Seq<char>>::empty() =~= start);
    while k < pinned.len()
        invariant
            all == text::views(pinned@),
            k <= pinned@.len(),
            text::views(lines@) == start + pinned_lines(report@.facts, all, k as int),
        decreases pinned@.len() - k,
    {
        let fact = pinned[k].0;
        let literal = pinned[k].1;
        assert(all[k as int] == (fact@, literal@));
        let container = match &literal.container {
            Some(name) => name.clone(),
            None => text::own(""),
        };
        let mut what = ports::step_label(fact.kind, &container);
        what.append(" ");
        what.append(&literal.literal);
        let mut line = env::pad(&fact.id, 6);
        line.append(" ");
        line.append(&env::pad(&fact.source, 24));
        line.append(" ");
        line.append(&env::pad(&what, 24));
        line.append(" ");
        line.append(&ports::suggestion(literal, port_variable_for(report, fact, literal)));
        text::add(lines, &line);
        k += 1;
        assert(text::views(lines@) =~= start + pinned_lines(report@.facts, all, k as int));
    }
}

fn add_unknowns(lines: &mut Vec<String>, report: &Report)
    ensures
        text::views(final(lines)@) == text::views(old(lines)@) + nothing_listed(
            report@.unknowns.len(),
        ) + unknown_lines(report@.unknowns, report@.unknowns.len() as int),
{
    add_nothing(lines, report.unknowns.len());
    let ghost start = text::views(lines@);
    let ghost all = report@.unknowns;
    let mut k: usize = 0;
    assert(start + Seq::<Seq<char>>::empty() =~= start);
    while k < report.unknowns.len()
        invariant
            all == report@.unknowns,
            k <= report.unknowns@.len(),
            text::views(lines@) == start + unknown_lines(all, k as int),
        decreases report.unknowns@.len() - k,
    {
        let unknown = &report.unknowns[k];
        assert(all[k as int] == unknown@);
        let mut line = env::pad(&unknown.id, 22);
        line.append(" ");
        line.append(&env::pad(&unknown.scope.label(), 10));
        line.append(" ");
        line.append(&unknown.question);
        text::add(lines, &line);
        if unknown.options.len() > 0 {
            let mut line = env::pad("", 22);
            line.append(" options: ");
            line.append(&text::join(&unknown.options, ", "));
            text::add(lines, &line);
        }
        k += 1;
        assert(text::views(lines@) =~= start + unknown_lines(all, k as int));
    }
}

/// A report as `discover` prints it on a terminal.
pub fn show_report(report: &Report) -> (r: Vec<String>)
    ensures
        text::views(r@) == report_lines(report@),
{
    let ghost apps = report@.apps;
    let ghost goal = app_dirs(apps);
    let mut dirs: Vec<String> = Vec::new();
    let mut k: usize = 0;
    assert(text::views(dirs@) =~= goal.take(0));
    while k < report.apps.len()
        invariant
            apps == report@.apps,
            goal == app_dirs(apps),
            k <= report.apps@.len(),
            text::views(dirs@) == goal.take(k as int),
        decreases report.apps@.len() - k,
    {
        assert(apps[k as int] == report.apps@[k as int]@);
        text::add(&mut dirs, &report.apps[k].dir);
        k += 1;
        assert(text::views(dirs@) =~= goal.take(k as int));
    }
    assert(goal.take(k as int) =~= goal);
    let mut named = text::own("apps   ");
    if dirs.len() == 0 {
        named.append("(none detected)");
    } else {
        named.append(&text::join(&dirs, ", "));
    }
    let repo = text::concat("repo   ", &report.repo.root);
    let mut lines: Vec<String> = Vec::new();
    text::add(&mut lines, &repo);
    text::add(&mut lines, &named);
    text::add(&mut lines, "\n# facts");
    assert(text::views(lines@) =~= seq![repo@, named@, "\n# facts"@]);
    add_facts(&mut lines, report);
    let ghost before = text::views(lines@);
    text::add(&mut lines, "\n# hardcoded ports");
    assert(text::views(lines@) =~= before + seq!["\n# hardcoded ports"@]);
    add_pinned(&mut lines, report);
    let ghost before = text::views(lines@);
    text::add(&mut lines, "\n# unknowns");
    assert(text::views(lines@) =~= before + seq!["\n# unknowns"@]);
    add_unknowns(&mut lines, report);
    let ghost before = text::views(lines@);
    let hash = text::concat("\nreport hash ", &report.report_hash);
    text::add(&mut lines, &hash);
    text::add(&mut lines, "write it with: magictree discover --report discovery.json");
    assert(text::views(lines@) =~= before + seq![
        hash@,
        "write it with: magictree discover --report discovery.json"@,
    ]);
    lines
}

/// What is said of a report that goes to a file.
pub fn report_written(report: &Report, path: &str, dry_run: bool) -> (r: String)
    ensures
        r@ == (if dry_run {
            "dry run: would write "@
        } else {
            "wrote "@
        }) + path@ + " ("@ + text::decimal_of(report@.facts.len()) + " facts, "@ + text::decimal_of(
            report@.unknowns.len(),
        ) + " unknowns)"@,
{
    let mut line = if dry_run {
        text::own("dry run: would write ")
    } else {
        text::own("wrote ")
    };
    line.append(path);
    line.append(" (");
    line.append(&text::decimal(report.facts.len() as u64));
    line.append(" facts, ");
    line.append(&text::decimal(report.unknowns.len() as u64));
    line.append(" unknowns)");
    line
}

// ---------------------------------------------------------------------------
// Init
// ---------------------------------------------------------------------------

/// What is said of the first `k` recorded answers that are no longer offered.
pub open spec fn dropped_lines(dropped: Seq<DroppedView>, k: int) -> Seq<Seq<char>>
    decreases k,
{
    if k <= 0 {
        Seq::empty()
    } else {
        dropped_lines(dropped, k - 1).push(
            "warning: asking again about '"@ + dropped[k - 1].id + "': the recorded answer '"@
                + dropped[k - 1].answer.shown() + "' is no longer offered"@,
        )
    }
}

/// What is said of the first `k` questions that now offer something their recorded answer never
/// decided.
pub open spec fn reopened_lines(reopened: Seq<(Seq<char>, Seq<Seq<char>>)>, k: int) -> Seq<Seq<char>>
    decreases k,
{
    if k <= 0 {
        Seq::empty()
    } else {
        reopened_lines(reopened, k - 1).push(
            "warning: "@ + reopened[k - 1].0 + " now offers '"@ + text::join_of(
                reopened[k - 1].1,
                "', '"@,
            )
                + "', which its recorded answer never decided\nrun `magictree init` to be asked about it, or `magictree init --reanswer`"@,
        )
    }
}

/// What `init` says of the answers that an earlier run recorded.
pub fn recorded_warnings(recorded: &Recorded) -> (r: Vec<String>)
    ensures
        text::views(r@) == dropped_lines(recorded@.dropped, recorded@.dropped.len() as int)
            + reopened_lines(recorded@.reopened, recorded@.reopened.len() as int),
{
    let ghost all = recorded@.dropped;
    let mut lines: Vec<String> = Vec::new();
    let mut k: usize = 0;
    assert(text::views(lines@) =~= Seq::<Seq<char>>::empty());
    while k < recorded.dropped.len()
        invariant
            all == recorded@.dropped,
            k <= recorded.dropped@.len(),
            text::views(lines@) == dropped_lines(all, k as int),
        decreases recorded.dropped@.len() - k,
    {
        let entry = &recorded.dropped[k];
        assert(all[k as int] == entry@);
        let mut line = text::own("warning: asking again about '");
        line.append(&entry.id);
        line.append("': the recorded answer '");
        line.append(&entry.answer.display());
        line.append("' is no longer offered");
        text::add(&mut lines, &line);
        k += 1;
    }
    let ghost first = text::views(lines@);
    let n: usize = recorded.reopened.len();
    let mut k: usize = 0;
    assert(first + Seq::<Seq<char>>::empty() =~= first);
    while k < n
        invariant
            n == recorded@.reopened.len(),
            k <= n,
            text::views(lines@) == first + reopened_lines(recorded@.reopened, k as int),
        decreases n - k,
    {
        let mut line = text::own("warning: ");
        line.append(recorded.reopened.key_at(k));
        line.append(" now offers '");
        line.append(&text::join(&recorded.reopened.value_at(k).list, "', '"));
        line.append(
            "', which its recorded answer never decided\nrun `magictree init` to be asked about it, or `magictree init --reanswer`",
        );
        text::add(&mut lines, &line);
        k += 1;
        assert(text::views(lines@) =~= first + reopened_lines(recorded@.reopened, k as int));
    }
    lines
}

/// The questions among the first `k` answers that no recorded answer decided.
pub open spec fn newly_answered(
    answers: Seq<(Seq<char>, AnswerView)>,
    recorded: Seq<(Seq<char>, AnswerView)>,
    k: int,
) -> Seq<Seq<char>>
    decreases k,
{
    if k <= 0 {
        Seq::empty()
    } else if dict::lookup(recorded, answers[k - 1].0) is None {
        newly_answered(answers, recorded, k - 1).push(answers[k - 1].0)
    } else {
        newly_answered(answers, recorded, k - 1)
    }
}

/// Answers, and the questions that they decide now.
#[derive(Debug)]
pub struct Session {
    pub answers: AnswerSet,
    /// A question is decided against the options on offer when it is answered, so only the ones
    /// this run answered count as decided: a replayed answer keeps what it turned down before,
    /// which is what leaves a newly offered option open for the next run to ask about.
    pub asked: Vec<String>,
}

/// The answers that `--accept-defaults` works from: every default, with the recorded answers on top.
pub fn accept_defaults(report: &Report, recorded: &Recorded) -> (r: Session)
    ensures
        ({
            let defaults = init::defaults_upto(report@.unknowns, report@.unknowns.len() as int);
            let answers = dict::put_all(defaults, recorded@.answers);
            &&& r.answers@ == (AnswerSetView {
                answers_version: report::ANSWERS_VERSION,
                report_hash: report@.report_hash,
                answers,
            })
            &&& text::views(r.asked@) == newly_answered(
                answers,
                recorded@.answers,
                answers.len() as int,
            )
        }),
{
    let mut answers = init::default_answers(report);
    let ghost defaults = answers@.answers;
    let n: usize = recorded.answers.len();
    let ghost over = recorded@.answers;
    let mut k: usize = 0;
    assert(over.take(0) =~= Seq::<(Seq<char>, AnswerView)>::empty());
    while k < n
        invariant
            over == recorded@.answers,
            n == over.len(),
            k <= n,
            answers.answers_version == report::ANSWERS_VERSION,
            answers.report_hash@ == report@.report_hash,
            answers.answers@ == dict::put_all(defaults, over.take(k as int)),
        decreases n - k,
    {
        assert(over.take(k + 1).drop_last() =~= over.take(k as int));
        answers.answers.insert(
            recorded.answers.key_at(k).clone(),
            recorded.answers.value_at(k).clone(),
        );
        k += 1;
    }
    assert(over.take(k as int) =~= over);
    let ghost all = answers.answers@;
    let count: usize = answers.answers.len();
    let mut asked: Vec<String> = Vec::new();
    let mut k: usize = 0;
    assert(text::views(asked@) =~= Seq::<Seq<char>>::empty());
    while k < count
        invariant
            all == answers.answers@,
            count == all.len(),
            k <= count,
            text::views(asked@) == newly_answered(all, recorded@.answers, k as int),
        decreases count - k,
    {
        let id = answers.answers.key_at(k);
        if !recorded.answers.contains(id) {
            text::add(&mut asked, id);
        }
        k += 1;
    }
    Session { answers, asked }
}

/// The questions that answers decide.
pub fn answered(answers: &AnswerSet) -> (r: Vec<String>)
    ensures
        text::views(r@) == Seq::new(answers@.answers.len(), |i: int| answers@.answers[i].0),
{
    let ghost goal = Seq::new(answers@.answers.len(), |i: int| answers@.answers[i].0);
    let n: usize = answers.answers.len();
    let mut out: Vec<String> = Vec::new();
    let mut k: usize = 0;
    assert(text::views(out@) =~= goal.take(0));
    while k < n
        invariant
            n == answers@.answers.len(),
            goal == Seq::new(answers@.answers.len(), |i: int| answers@.answers[i].0),
            k <= n,
            text::views(out@) == goal.take(k as int),
        decreases n - k,
    {
        text::add(&mut out, answers.answers.key_at(k));
        k += 1;
        assert(text::views(out@) =~= goal.take(k as int));
    }
    assert(goal.take(k as int) =~= goal);
    out
}

/// What `--accept-defaults` says of the recorded answers it keeps.
pub fn keeping_line(recorded: &Recorded, manifest: &str) -> (r: Option<String>)
    ensures
        text::opt_view(r) == (if recorded@.answers.len() == 0 {
            None
        } else {
            Some(
                "keeping "@ + text::decimal_of(recorded@.answers.len())
                    + " answer(s) recorded in "@ + manifest@,
            )
        }),
{
    if recorded.answers.len() == 0 {
        return None;
    }
    let mut line = text::own("keeping ");
    line.append(&text::decimal(recorded.answers.len() as u64));
    line.append(" answer(s) recorded in ");
    line.append(manifest);
    Some(line)
}

/// What `init` says of a manifest it has handled.
#[derive(Debug)]
pub struct Said {
    pub line: String,
    pub warning: Option<String>,
}

/// The line that `init` prints of a manifest.
pub open spec fn applied_line(applied: AppliedView) -> Seq<char> {
    match applied {
        AppliedView::Created(path) => "wrote "@ + path,
        AppliedView::Updated { path, added, recorded } => "updated "@ + path + ": "@ + (
        if added.len() > 0 {
            "added service '"@ + text::join_of(added, "', '"@) + "'"@ + (if recorded is Some {
                ", recorded the answers"@
            } else {
                ""@
            })
        } else if recorded is Some {
            "recorded the answers"@
        } else {
            ""@
        }),
        AppliedView::Unchanged(path) => "unchanged "@ + path
            + ": every service is already declared"@,
    }
}

/// What `init` warns of: an answer that changed and that an update cannot apply to a service
/// already written. A changed answer that also added a service did take effect, so the note would
/// only confuse.
pub open spec fn applied_warning(applied: AppliedView) -> Option<Seq<char>> {
    match applied {
        AppliedView::Updated { path, added, recorded } => match recorded {
            Some(changed) => if changed.len() > 0 && added.len() == 0 {
                Some(
                    "warning: the answer for '"@ + text::join_of(changed, "', '"@)
                        + "' changed; the services already in "@ + path
                        + " keep what they declare\nre-run with `magictree init --force` to rewrite them"@,
                )
            } else {
                None
            },
            None => None,
        },
        _ => None,
    }
}

/// What `init` says of a manifest it has handled.
pub fn describe_applied(applied: &Applied) -> (r: Said)
    ensures
        r.line@ == applied_line(applied@),
        text::opt_view(r.warning) == applied_warning(applied@),
{
    match applied {
        Applied::Created(path) => Said { line: text::concat("wrote ", path), warning: None },
        Applied::Unchanged(path) => {
            let mut line = text::concat("unchanged ", path);
            line.append(": every service is already declared");
            Said { line, warning: None }
        },
        Applied::Updated { path, added, recorded } => {
            let changes = if added.len() > 0 {
                let mut changes = text::own("added service '");
                changes.append(&text::join(added, "', '"));
                changes.append("'");
                changes.append(
                    if recorded.is_some() {
                        ", recorded the answers"
                    } else {
                        ""
                    },
                );
                changes
            } else if recorded.is_some() {
                text::own("recorded the answers")
            } else {
                text::own("")
            };
            let mut line = text::concat("updated ", path);
            line.append(": ");
            line.append(&changes);
            let warning = match recorded {
                Some(changed) => if changed.list.len() > 0 && added.len() == 0 {
                    let mut e = text::own("warning: the answer for '");
                    e.append(&text::join(&changed.list, "', '"));
                    e.append("' changed; the services already in ");
                    e.append(path);
                    e.append(
                        " keep what they declare\nre-run with `magictree init --force` to rewrite them",
                    );
                    Some(e)
                } else {
                    None
                },
                None => None,
            };
            Said { line, warning }
        },
    }
}

/// What a dry run of `init` prints of a manifest, given what it would hold.
pub fn describe_planned(applied: &Applied, contents: &str) -> (r: String)
    ensures
        r@ == (match applied@ {
            AppliedView::Unchanged(path) => "unchanged "@ + path + "\n"@,
            AppliedView::Created(path) => "# "@ + path + "\n"@ + contents@ + "\n"@,
            AppliedView::Updated { path, .. } => "# "@ + path + "\n"@ + contents@ + "\n"@,
        }),
{
    match applied {
        Applied::Unchanged(path) => {
            let mut out = text::concat("unchanged ", path);
            out.append("\n");
            out
        },
        Applied::Created(path) => {
            let mut out = text::concat("# ", path);
            out.append("\n");
            out.append(contents);
            out.append("\n");
            out
        },
        Applied::Updated { path, .. } => {
            let mut out = text::concat("# ", path);
            out.append("\n");
            out.append(contents);
            out.append("\n");
            out
        },
    }
}

} // verus!
