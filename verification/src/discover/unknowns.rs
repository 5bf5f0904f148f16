//! The questions that the facts of a repository leave open.

use crate::dict;
use crate::discover::extractors;
use crate::discover::extractors::{Candidate, CandidateView};
use crate::discover::report::{
    AppFacts, AppFactsView, ComposeServiceFact, ComposeServiceFactView, Fact, FactData,
    FactDataView, FactKind, FactView, Scope, ScopeView, ScriptFact, ScriptFactView, Unknown,
    UnknownKind, UnknownView,
};
use crate::discover::snapshot::{Snapshot, SnapshotView};
use crate::text;
use vstd::prelude::*;

verus! {

// ---------------------------------------------------------------------------
// Candidates
// ---------------------------------------------------------------------------

/// A candidate.
pub open spec fn candidate(value: Seq<char>, score: u32, evidence: Seq<char>) -> CandidateView {
    CandidateView { value, score, evidence }
}

/// Whether `a` is offered before `b`: the higher score first, then by value.
pub open spec fn offered_before(a: CandidateView, b: CandidateView) -> bool {
    a.score > b.score || (a.score == b.score && text::before(a.value, b.value))
}

/// A list with a candidate at its place, behind those that are no worse.
pub open spec fn with_candidate(list: Seq<CandidateView>, x: CandidateView) -> Seq<CandidateView>
    decreases list.len(),
{
    if list.len() == 0 || !offered_before(x, list.last()) {
        list.push(x)
    } else {
        with_candidate(list.drop_last(), x).push(list.last())
    }
}

/// The candidates in the order they are offered.
pub open spec fn ranked(list: Seq<CandidateView>) -> Seq<CandidateView>
    decreases list.len(),
{
    if list.len() == 0 {
        list
    } else {
        with_candidate(ranked(list.drop_last()), list.last())
    }
}

/// The candidates without one that repeats the value of the one before it.
pub open spec fn unrepeated(list: Seq<CandidateView>) -> Seq<CandidateView>
    decreases list.len(),
{
    if list.len() <= 1 {
        list
    } else {
        let kept = unrepeated(list.drop_last());
        if kept.last().value == list.last().value {
            kept
        } else {
            kept.push(list.last())
        }
    }
}

fn place_candidate(list: &mut Vec<Candidate>, x: Candidate)
    ensures
        text::views(final(list)@) == with_candidate(text::views(old(list)@), x@),
{
    let ghost all = text::views(list@);
    let mut i: usize = list.len();
    assert(all.take(all.len() as int) =~= all);
    assert(with_candidate(all, x@) + all.skip(all.len() as int) =~= with_candidate(all, x@));
    while i > 0 && (x.score > list[i - 1].score || (x.score == list[i - 1].score && text::is_before(
        &x.value,
        &list[i - 1].value,
    )))
        invariant
            all == text::views(list@),
            i <= list@.len(),
            with_candidate(all, x@) == with_candidate(all.take(i as int), x@) + all.skip(i as int),
        decreases i,
    {
        assert(all.take(i as int).drop_last() =~= all.take(i - 1));
        assert(all.take(i as int).last() == all[i - 1]);
        assert(with_candidate(all.take(i - 1), x@).push(all[i - 1]) + all.skip(i as int)
            =~= with_candidate(all.take(i - 1), x@) + all.skip(i - 1));
        i -= 1;
    }
    assert(i > 0 ==> all.take(i as int).last() == all[i - 1]);
    let ghost view = x@;
    list.insert(i, x);
    assert(text::views(list@) =~= all.take(i as int).push(view) + all.skip(i as int));
}

fn rank(list: Vec<Candidate>) -> (r: Vec<Candidate>)
    ensures
        text::views(r@) == unrepeated(ranked(text::views(list@))),
{
    let ghost all = text::views(list@);
    let mut sorted: Vec<Candidate> = Vec::new();
    let mut i: usize = 0;
    assert(text::views(sorted@) =~= all.take(0));
    while i < list.len()
        invariant
            all == text::views(list@),
            i <= list@.len(),
            text::views(sorted@) == ranked(all.take(i as int)),
        decreases list@.len() - i,
    {
        assert(all.take(i + 1).drop_last() =~= all.take(i as int));
        place_candidate(&mut sorted, list[i].clone());
        i += 1;
    }
    assert(all.take(i as int) =~= all);
    let ghost order = text::views(sorted@);
    let mut out: Vec<Candidate> = Vec::new();
    let mut k: usize = 0;
    assert(text::views(out@) =~= order.take(0));
    while k < sorted.len()
        invariant
            order == text::views(sorted@),
            k <= sorted@.len(),
            text::views(out@) == unrepeated(order.take(k as int)),
            k > 0 ==> out@.len() > 0,
            k == 0 ==> out@.len() == 0,
        decreases sorted@.len() - k,
    {
        broadcast use text::views_push;

        assert(order.take(k + 1).drop_last() =~= order.take(k as int));
        assert(order.take(k + 1).last() == sorted@[k as int]@);
        let n = out.len();
        assert(n > 0 ==> text::views(out@).last() == out@[n - 1]@);
        if n > 0 && text::same(&out[n - 1].value, &sorted[k].value) {
        } else {
            out.push(sorted[k].clone());
            assert(k == 0 ==> text::views(out@) =~= order.take(1));
        }
        k += 1;
    }
    assert(order.take(k as int) =~= order);
    out
}

fn push_candidate(out: &mut Vec<Candidate>, value: String, score: u32, evidence: &str)
    ensures
        text::views(final(out)@) == text::views(old(out)@).push(
            candidate(value@, score, evidence@),
        ),
{
    broadcast use text::views_push;

    out.push(Candidate { value, score, evidence: text::own(evidence) });
}

/// The values of candidates.
pub open spec fn values_of(list: Seq<CandidateView>) -> Seq<Seq<char>> {
    Seq::new(list.len(), |i: int| list[i].value)
}

/// The facts that candidates came from.
pub open spec fn evidence_of(list: Seq<CandidateView>) -> Seq<Seq<char>> {
    Seq::new(list.len(), |i: int| list[i].evidence)
}

fn values(list: &Vec<Candidate>) -> (r: Vec<String>)
    ensures
        text::views(r@) == values_of(text::views(list@)),
{
    let ghost goal = values_of(text::views(list@));
    let mut out: Vec<String> = Vec::new();
    let mut i: usize = 0;
    assert(text::views(out@) =~= goal.take(0));
    while i < list.len()
        invariant
            goal == values_of(text::views(list@)),
            i <= list@.len(),
            text::views(out@) == goal.take(i as int),
        decreases list@.len() - i,
    {
        text::add(&mut out, &list[i].value);
        i += 1;
        assert(text::views(out@) =~= goal.take(i as int));
    }
    assert(goal.take(i as int) =~= goal);
    out
}

fn evidence(list: &Vec<Candidate>) -> (r: Vec<String>)
    ensures
        text::views(r@) == evidence_of(text::views(list@)),
{
    let ghost goal = evidence_of(text::views(list@));
    let mut out: Vec<String> = Vec::new();
    let mut i: usize = 0;
    assert(text::views(out@) =~= goal.take(0));
    while i < list.len()
        invariant
            goal == evidence_of(text::views(list@)),
            i <= list@.len(),
            text::views(out@) == goal.take(i as int),
        decreases list@.len() - i,
    {
        text::add(&mut out, &list[i].evidence);
        i += 1;
        assert(text::views(out@) =~= goal.take(i as int));
    }
    assert(goal.take(i as int) =~= goal);
    out
}

// ---------------------------------------------------------------------------
// Setup steps
// ---------------------------------------------------------------------------

/// Whether a step's name says that it generates files.
pub open spec fn generates(name: Seq<char>) -> bool {
    let low = text::lower_of(name);
    text::contains_of(low, "openapi"@) || text::contains_of(low, "codegen"@) || text::contains_of(
        low,
        "generate"@,
    ) || text::contains_of(low, "protobuf"@) || text::contains_of(low, "prisma"@)
        || text::contains_of(low, "graphql"@) || low == "gen"@ || text::starts_with_of(low, "gen:"@)
}

fn is_generation(name: &str) -> (r: bool)
    ensures
        r == generates(name@),
{
    let low = text::to_lower(name);
    text::contains(&low, "openapi") || text::contains(&low, "codegen") || text::contains(
        &low,
        "generate",
    ) || text::contains(&low, "protobuf") || text::contains(&low, "prisma") || text::contains(
        &low,
        "graphql",
    ) || text::same(&low, "gen") || text::starts_with(&low, "gen:")
}

/// The score of a step that generates files; recipes win, since the task runner usually supplies
/// the extra environment a generation step needs.
pub open spec fn generation_score(name: Seq<char>, score: u32) -> u32 {
    if generates(name) {
        score
    } else {
        0
    }
}

/// The recipes among the first `k` that generate files.
pub open spec fn recipe_setups(list: Seq<Seq<char>>, evidence: Seq<char>, k: int) -> Seq<CandidateView>
    decreases k,
{
    if k <= 0 {
        Seq::empty()
    } else {
        let before = recipe_setups(list, evidence, k - 1);
        let name = list[k - 1];
        if generation_score(name, 80) > 0 {
            before.push(candidate("just:"@ + name, generation_score(name, 80), evidence))
        } else {
            before
        }
    }
}

fn add_recipe_setups(out: &mut Vec<Candidate>, list: &Vec<String>, evidence: &str)
    ensures
        text::views(final(out)@) == text::views(old(out)@) + recipe_setups(
            text::views(list@),
            evidence@,
            list@.len() as int,
        ),
{
    let ghost start = text::views(out@);
    let ghost all = text::views(list@);
    let mut k: usize = 0;
    assert(start + Seq::<CandidateView>::empty() =~= start);
    while k < list.len()
        invariant
            all == text::views(list@),
            k <= list@.len(),
            text::views(out@) == start + recipe_setups(all, evidence@, k as int),
        decreases list@.len() - k,
    {
        assert(all[k as int] == list@[k as int]@);
        let name = &list[k];
        let score: u32 = if is_generation(name) { 80 } else { 0 };
        let ghost before = recipe_setups(all, evidence@, k as int);
        if score > 0 {
            let value = text::concat("just:", name);
            push_candidate(out, value, score, evidence);
            assert(text::views(out@) =~= start + before.push(out@.last()@));
        }
        k += 1;
    }
}

/// The scripts among the first `k` that generate files.
pub open spec fn script_setups(list: Seq<ScriptFactView>, runner: Seq<char>, evidence: Seq<char>, k: int) -> Seq<CandidateView>
    decreases k,
{
    if k <= 0 {
        Seq::empty()
    } else {
        let before = script_setups(list, runner, evidence, k - 1);
        let name = list[k - 1].name;
        if generation_score(name, 70) > 0 {
            before.push(candidate(runner + ":"@ + name, generation_score(name, 70), evidence))
        } else {
            before
        }
    }
}

fn add_script_setups(out: &mut Vec<Candidate>, list: &Vec<ScriptFact>, runner: &str, evidence: &str)
    ensures
        text::views(final(out)@) == text::views(old(out)@) + script_setups(
            text::views(list@),
            runner@, evidence@,
            list@.len() as int,
        ),
{
    let ghost start = text::views(out@);
    let ghost all = text::views(list@);
    let mut k: usize = 0;
    assert(start + Seq::<CandidateView>::empty() =~= start);
    while k < list.len()
        invariant
            all == text::views(list@),
            k <= list@.len(),
            text::views(out@) == start + script_setups(all, runner@, evidence@, k as int),
        decreases list@.len() - k,
    {
        assert(all[k as int] == list@[k as int]@);
        let name = &list[k].name;
        let score: u32 = if is_generation(name) { 70 } else { 0 };
        let ghost before = script_setups(all, runner@, evidence@, k as int);
        if score > 0 {
            let mut value = text::own(runner);
            value.append(":");
            value.append(name);
            push_candidate(out, value, score, evidence);
            assert(text::views(out@) =~= start + before.push(out@.last()@));
        }
        k += 1;
    }
}

/// The setup steps that one fact of an app declares.
pub open spec fn setups_in(snapshot: SnapshotView, app: AppFactsView, fact: FactView) -> Seq<
    CandidateView,
> {
    match fact.data {
        FactDataView::Just { recipes, .. } => recipe_setups(recipes, fact.id, recipes.len() as int),
        FactDataView::Node { scripts, package_manager, .. } => script_setups(
            scripts,
            extractors::node_runner_of(
                snapshot,
                extractors::app_root_of(snapshot.root, app.dir),
                package_manager,
            ),
            fact.id,
            scripts.len() as int,
        ),
        _ => Seq::empty(),
    }
}

/// The setup steps that the first `k` facts declare for an app.
pub open spec fn setups_upto(
    snapshot: SnapshotView,
    app: AppFactsView,
    facts: Seq<FactView>,
    k: int,
) -> Seq<CandidateView>
    decreases k,
{
    if k <= 0 {
        Seq::empty()
    } else if facts[k - 1].app == Some(app.id) {
        setups_upto(snapshot, app, facts, k - 1) + setups_in(snapshot, app, facts[k - 1])
    } else {
        setups_upto(snapshot, app, facts, k - 1)
    }
}

/// Setup steps a repository declares for generating files a dev server needs.
pub open spec fn setups_of(snapshot: SnapshotView, app: AppFactsView, facts: Seq<FactView>) -> Seq<
    CandidateView,
> {
    unrepeated(ranked(setups_upto(snapshot, app, facts, facts.len() as int)))
}

fn add_setups(out: &mut Vec<Candidate>, snapshot: &Snapshot, app: &AppFacts, fact: &Fact)
    ensures
        text::views(final(out)@) == text::views(old(out)@) + setups_in(snapshot@, app@, fact@),
{
    let ghost start = text::views(out@);
    assert(start + Seq::<CandidateView>::empty() =~= start);
    match &fact.data {
        FactData::Just { recipes, .. } => {
            add_recipe_setups(out, recipes, &fact.id);
        },
        FactData::Node { scripts, package_manager, .. } => {
            let dir = extractors::app_root(&snapshot.root, &app.dir);
            let runner = extractors::node_runner(snapshot, &dir, package_manager);
            add_script_setups(out, scripts, &runner, &fact.id);
        },
        _ => {},
    }
}

/// Setup steps a repository declares for generating files a dev server needs (API clients, schema
/// types). Only names that exist in the repository are offered, and only ones that are for
/// generation rather than serving.
pub fn setup_candidates(snapshot: &Snapshot, app: &AppFacts, facts: &Vec<Fact>) -> (r: Vec<
    Candidate,
>)
    ensures
        text::views(r@) == setups_of(snapshot@, app@, text::views(facts@)),
{
    let ghost all = text::views(facts@);
    let mut out: Vec<Candidate> = Vec::new();
    let mut k: usize = 0;
    assert(text::views(out@) =~= Seq::<CandidateView>::empty());
    while k < facts.len()
        invariant
            all == text::views(facts@),
            k <= facts@.len(),
            text::views(out@) == setups_upto(snapshot@, app@, all, k as int),
        decreases facts@.len() - k,
    {
        assert(all[k as int] == facts@[k as int]@);
        if facts[k].belongs_to(&app.id) {
            add_setups(&mut out, snapshot, app, &facts[k]);
        }
        k += 1;
    }
    rank(out)
}

// ---------------------------------------------------------------------------
// Ways to run an app
// ---------------------------------------------------------------------------

/// Whether a command is already expressible with a runner there is a target for.
pub open spec fn covered(command: Seq<char>) -> bool {
    let first = text::first_word_of(command);
    first == "npm"@ || first == "pnpm"@ || first == "yarn"@ || first == "bun"@ || first == "mise"@
        || first == "just"@ || text::starts_with_of(command, "uv run npx"@)
}

/// True when a command is already expressible with a runner we have a target for, so offering it
/// again as a raw command would just duplicate it.
fn native_runner_covers(command: &str) -> (r: bool)
    ensures
        r == covered(command@),
{
    let first = text::first_word(command);
    text::same(&first, "npm") || text::same(&first, "pnpm") || text::same(&first, "yarn")
        || text::same(&first, "bun") || text::same(&first, "mise") || text::same(&first, "just")
        || text::starts_with(command, "uv run npx")
}

/// How well a package script starts an app.
pub open spec fn script_score(name: Seq<char>) -> u32 {
    if name == "dev"@ {
        100
    } else if name == "start"@ || name == "serve"@ {
        90
    } else if text::starts_with_of(name, "dev:"@) {
        80
    } else if text::starts_with_of(name, "start:"@) {
        70
    } else {
        0
    }
}

fn score_script(name: &str) -> (r: u32)
    ensures
        r == script_score(name@),
{
    if text::same(name, "dev") {
        100
    } else if text::same(name, "start") || text::same(name, "serve") {
        90
    } else if text::starts_with(name, "dev:") {
        80
    } else if text::starts_with(name, "start:") {
        70
    } else {
        0
    }
}

/// How well a recipe or a task starts an app: `best` where it is the dev server.
pub open spec fn step_score(name: Seq<char>, best: u32) -> u32 {
    if name == "dev"@ {
        best
    } else if name == "serve"@ || name == "start"@ {
        (best - 10) as u32
    } else {
        0
    }
}

fn score_step(name: &str, best: u32) -> (r: u32)
    requires
        best >= 10,
    ensures
        r == step_score(name@, best),
{
    if text::same(name, "dev") {
        best
    } else if text::same(name, "serve") || text::same(name, "start") {
        best - 10
    } else {
        0
    }
}

/// How well the dev recipe of a module starts an app.
pub open spec fn module_score(name: Seq<char>) -> u32 {
    if name == "dev"@ || name == "api"@ || name == "web"@ || name == "stack"@ {
        75
    } else {
        0
    }
}

fn score_module(name: &str) -> (r: u32)
    ensures
        r == module_score(name@),
{
    if text::same(name, "dev") || text::same(name, "api") || text::same(name, "web") || text::same(
        name,
        "stack",
    ) {
        75
    } else {
        0
    }
}

/// The scripts among the first `k` that start an app.
pub open spec fn script_runs(list: Seq<ScriptFactView>, runner: Seq<char>, evidence: Seq<char>, k: int) -> Seq<CandidateView>
    decreases k,
{
    if k <= 0 {
        Seq::empty()
    } else {
        let before = script_runs(list, runner, evidence, k - 1);
        let name = list[k - 1].name;
        if script_score(name) > 0 {
            before.push(candidate(runner + ":"@ + name, script_score(name), evidence))
        } else {
            before
        }
    }
}

fn add_script_runs(out: &mut Vec<Candidate>, list: &Vec<ScriptFact>, runner: &str, evidence: &str)
    ensures
        text::views(final(out)@) == text::views(old(out)@) + script_runs(
            text::views(list@),
            runner@, evidence@,
            list@.len() as int,
        ),
{
    let ghost start = text::views(out@);
    let ghost all = text::views(list@);
    let mut k: usize = 0;
    assert(start + Seq::<CandidateView>::empty() =~= start);
    while k < list.len()
        invariant
            all == text::views(list@),
            k <= list@.len(),
            text::views(out@) == start + script_runs(all, runner@, evidence@, k as int),
        decreases list@.len() - k,
    {
        assert(all[k as int] == list@[k as int]@);
        let name = &list[k].name;
        let score: u32 = score_script(name);
        let ghost before = script_runs(all, runner@, evidence@, k as int);
        if score > 0 {
            let mut value = text::own(runner);
            value.append(":");
            value.append(name);
            push_candidate(out, value, score, evidence);
            assert(text::views(out@) =~= start + before.push(out@.last()@));
        }
        k += 1;
    }
}

/// The modules among the first `k` that start an app.
pub open spec fn module_runs(list: Seq<Seq<char>>, evidence: Seq<char>, k: int) -> Seq<CandidateView>
    decreases k,
{
    if k <= 0 {
        Seq::empty()
    } else {
        let before = module_runs(list, evidence, k - 1);
        let name = list[k - 1];
        if module_score(name) > 0 {
            before.push(candidate("just:"@ + name + "::dev"@, module_score(name), evidence))
        } else {
            before
        }
    }
}

fn add_module_runs(out: &mut Vec<Candidate>, list: &Vec<String>, evidence: &str)
    ensures
        text::views(final(out)@) == text::views(old(out)@) + module_runs(
            text::views(list@),
            evidence@,
            list@.len() as int,
        ),
{
    let ghost start = text::views(out@);
    let ghost all = text::views(list@);
    let mut k: usize = 0;
    assert(start + Seq::<CandidateView>::empty() =~= start);
    while k < list.len()
        invariant
            all == text::views(list@),
            k <= list@.len(),
            text::views(out@) == start + module_runs(all, evidence@, k as int),
        decreases list@.len() - k,
    {
        assert(all[k as int] == list@[k as int]@);
        let name = &list[k];
        let score: u32 = score_module(name);
        let ghost before = module_runs(all, evidence@, k as int);
        if score > 0 {
            let mut value = text::own("just:");
            value.append(name);
            value.append("::dev");
            push_candidate(out, value, score, evidence);
            assert(text::views(out@) =~= start + before.push(out@.last()@));
        }
        k += 1;
    }
}

/// The tasks among the first `k` that start an app.
pub open spec fn task_runs(list: Seq<Seq<char>>, evidence: Seq<char>, k: int) -> Seq<CandidateView>
    decreases k,
{
    if k <= 0 {
        Seq::empty()
    } else {
        let before = task_runs(list, evidence, k - 1);
        let name = list[k - 1];
        if step_score(name, 90) > 0 {
            before.push(candidate("mise:"@ + name, step_score(name, 90), evidence))
        } else {
            before
        }
    }
}

fn add_task_runs(out: &mut Vec<Candidate>, list: &Vec<String>, evidence: &str)
    ensures
        text::views(final(out)@) == text::views(old(out)@) + task_runs(
            text::views(list@),
            evidence@,
            list@.len() as int,
        ),
{
    let ghost start = text::views(out@);
    let ghost all = text::views(list@);
    let mut k: usize = 0;
    assert(start + Seq::<CandidateView>::empty() =~= start);
    while k < list.len()
        invariant
            all == text::views(list@),
            k <= list@.len(),
            text::views(out@) == start + task_runs(all, evidence@, k as int),
        decreases list@.len() - k,
    {
        assert(all[k as int] == list@[k as int]@);
        let name = &list[k];
        let score: u32 = score_step(name, 90);
        let ghost before = task_runs(all, evidence@, k as int);
        if score > 0 {
            let value = text::concat("mise:", name);
            push_candidate(out, value, score, evidence);
            assert(text::views(out@) =~= start + before.push(out@.last()@));
        }
        k += 1;
    }
}

/// The first `k` scripts of a Python project.
pub open spec fn uv_runs(list: Seq<Seq<char>>, evidence: Seq<char>, k: int) -> Seq<CandidateView>
    decreases k,
{
    if k <= 0 {
        Seq::empty()
    } else {
        let before = uv_runs(list, evidence, k - 1);
        let name = list[k - 1];
        before.push(candidate("uv:"@ + name, 60u32, evidence))
    }
}

fn add_uv_runs(out: &mut Vec<Candidate>, list: &Vec<String>, evidence: &str)
    ensures
        text::views(final(out)@) == text::views(old(out)@) + uv_runs(
            text::views(list@),
            evidence@,
            list@.len() as int,
        ),
{
    let ghost start = text::views(out@);
    let ghost all = text::views(list@);
    let mut k: usize = 0;
    assert(start + Seq::<CandidateView>::empty() =~= start);
    while k < list.len()
        invariant
            all == text::views(list@),
            k <= list@.len(),
            text::views(out@) == start + uv_runs(all, evidence@, k as int),
        decreases list@.len() - k,
    {
        assert(all[k as int] == list@[k as int]@);
        let name = &list[k];
        let ghost before = uv_runs(all, evidence@, k as int);
        let value = text::concat("uv:", name);
        push_candidate(out, value, 60, evidence);
        assert(text::views(out@) =~= start + before.push(out@.last()@));
        k += 1;
    }
}

/// The first `k` processes of a Procfile.
pub open spec fn process_runs(list: Seq<ScriptFactView>, evidence: Seq<char>, k: int) -> Seq<CandidateView>
    decreases k,
{
    if k <= 0 {
        Seq::empty()
    } else {
        let before = process_runs(list, evidence, k - 1);
        let name = list[k - 1].name;
        before.push(candidate("procfile:"@ + name, 50u32, evidence))
    }
}

fn add_process_runs(out: &mut Vec<Candidate>, list: &Vec<ScriptFact>, evidence: &str)
    ensures
        text::views(final(out)@) == text::views(old(out)@) + process_runs(
            text::views(list@),
            evidence@,
            list@.len() as int,
        ),
{
    let ghost start = text::views(out@);
    let ghost all = text::views(list@);
    let mut k: usize = 0;
    assert(start + Seq::<CandidateView>::empty() =~= start);
    while k < list.len()
        invariant
            all == text::views(list@),
            k <= list@.len(),
            text::views(out@) == start + process_runs(all, evidence@, k as int),
        decreases list@.len() - k,
    {
        assert(all[k as int] == list@[k as int]@);
        let name = &list[k].name;
        let ghost before = process_runs(all, evidence@, k as int);
        let value = text::concat("procfile:", name);
        push_candidate(out, value, 50, evidence);
        assert(text::views(out@) =~= start + before.push(out@.last()@));
        k += 1;
    }
}

/// The command that a recipe comes down to, where no runner already covers it.
pub open spec fn direct_command(
    recipe: Seq<char>,
    bodies: Seq<(Seq<char>, Seq<char>)>,
    variables: Seq<(Seq<char>, Seq<char>)>,
) -> Option<Seq<char>> {
    match dict::lookup(bodies, recipe) {
        None => None,
        Some(body) => match extractors::inlined(body, variables) {
            None => None,
            Some(command) => if covered(command) {
                None
            } else {
                Some(command)
            },
        },
    }
}

/// The recipes among the first `k` that start an app, each with the command it comes down to.
pub open spec fn recipe_runs(
    recipes: Seq<Seq<char>>,
    bodies: Seq<(Seq<char>, Seq<char>)>,
    variables: Seq<(Seq<char>, Seq<char>)>,
    evidence: Seq<char>,
    k: int,
) -> Seq<CandidateView>
    decreases k,
{
    if k <= 0 {
        Seq::empty()
    } else {
        let before = recipe_runs(recipes, bodies, variables, evidence, k - 1);
        let recipe = recipes[k - 1];
        let score = step_score(recipe, 95);
        if score == 0 {
            before
        } else {
            let named = before.push(candidate("just:"@ + recipe, score, evidence));
            match direct_command(recipe, bodies, variables) {
                None => named,
                Some(command) => named.push(
                    candidate("command:"@ + command, (score - 5) as u32, evidence),
                ),
            }
        }
    }
}

fn recipe_command(
    recipe: &str,
    bodies: &crate::dict::Dict<String>,
    variables: &crate::dict::Dict<String>,
) -> (r: Option<String>)
    ensures
        text::opt_view(r) == direct_command(recipe@, bodies@, variables@),
{
    match bodies.get(recipe) {
        None => None,
        Some(body) => match extractors::inline_recipe(body, variables) {
            None => None,
            Some(command) => if native_runner_covers(&command) {
                None
            } else {
                Some(command)
            },
        },
    }
}

fn add_recipe_runs(
    out: &mut Vec<Candidate>,
    recipes: &Vec<String>,
    bodies: &crate::dict::Dict<String>,
    variables: &crate::dict::Dict<String>,
    evidence: &str,
)
    ensures
        text::views(final(out)@) == text::views(old(out)@) + recipe_runs(
            text::views(recipes@),
            bodies@,
            variables@,
            evidence@,
            recipes@.len() as int,
        ),
{
    let ghost start = text::views(out@);
    let ghost all = text::views(recipes@);
    let mut k: usize = 0;
    assert(start + Seq::<CandidateView>::empty() =~= start);
    while k < recipes.len()
        invariant
            all == text::views(recipes@),
            k <= recipes@.len(),
            text::views(out@) == start + recipe_runs(all, bodies@, variables@, evidence@, k as int),
        decreases recipes@.len() - k,
    {
        let recipe = &recipes[k];
        assert(all[k as int] == recipe@);
        let ghost before = recipe_runs(all, bodies@, variables@, evidence@, k as int);
        let score = score_step(recipe, 95);
        if score > 0 {
            push_candidate(out, text::concat("just:", recipe), score, evidence);
            let ghost named = before.push(candidate("just:"@ + recipe@, score, evidence@));
            assert(text::views(out@) =~= start + named);
            // The recipe body often names a command that runs without the task runner. Offer it so
            // the repository's tooling can be left out of the loop, but only when no native runner
            // already covers it; otherwise it is the same command twice.
            if let Some(command) = recipe_command(recipe, bodies, variables) {
                push_candidate(out, text::concat("command:", &command), score - 5, evidence);
                assert(text::views(out@) =~= start + named.push(
                    candidate("command:"@ + command@, (score - 5) as u32, evidence@),
                ));
            }
        }
        k += 1;
    }
}

/// The ways to run an app that one of its facts names.
pub open spec fn runs_in(snapshot: SnapshotView, app: AppFactsView, fact: FactView) -> Seq<
    CandidateView,
> {
    match fact.data {
        FactDataView::Node { scripts, package_manager, .. } => script_runs(
            scripts,
            extractors::node_runner_of(
                snapshot,
                extractors::app_root_of(snapshot.root, app.dir),
                package_manager,
            ),
            fact.id,
            scripts.len() as int,
        ),
        FactDataView::Just { recipes, modules, recipe_bodies, variables, .. } => recipe_runs(
            recipes,
            recipe_bodies,
            variables,
            fact.id,
            recipes.len() as int,
        ) + module_runs(modules, fact.id, modules.len() as int),
        FactDataView::Mise { tasks, .. } => task_runs(tasks, fact.id, tasks.len() as int),
        FactDataView::Python { scripts, .. } => uv_runs(scripts, fact.id, scripts.len() as int),
        FactDataView::Procfile { processes, .. } => process_runs(
            processes,
            fact.id,
            processes.len() as int,
        ),
        _ => Seq::empty(),
    }
}

/// The ways to run an app that the first `k` facts name.
pub open spec fn runs_upto(
    snapshot: SnapshotView,
    app: AppFactsView,
    facts: Seq<FactView>,
    k: int,
) -> Seq<CandidateView>
    decreases k,
{
    if k <= 0 {
        Seq::empty()
    } else if facts[k - 1].app == Some(app.id) {
        runs_upto(snapshot, app, facts, k - 1) + runs_in(snapshot, app, facts[k - 1])
    } else {
        runs_upto(snapshot, app, facts, k - 1)
    }
}

/// Candidate ways to run an app, drawn only from files that exist.
pub open spec fn runs_of(snapshot: SnapshotView, app: AppFactsView, facts: Seq<FactView>) -> Seq<
    CandidateView,
> {
    unrepeated(ranked(runs_upto(snapshot, app, facts, facts.len() as int)))
}

fn add_runs(out: &mut Vec<Candidate>, snapshot: &Snapshot, app: &AppFacts, fact: &Fact)
    ensures
        text::views(final(out)@) == text::views(old(out)@) + runs_in(snapshot@, app@, fact@),
{
    let ghost start = text::views(out@);
    assert(start + Seq::<CandidateView>::empty() =~= start);
    match &fact.data {
        FactData::Node { scripts, package_manager, .. } => {
            let dir = extractors::app_root(&snapshot.root, &app.dir);
            let runner = extractors::node_runner(snapshot, &dir, package_manager);
            add_script_runs(out, scripts, &runner, &fact.id);
        },
        FactData::Just { recipes, modules, recipe_bodies, variables, .. } => {
            add_recipe_runs(out, recipes, recipe_bodies, variables, &fact.id);
            add_module_runs(out, modules, &fact.id);
            assert(text::views(out@) =~= start + runs_in(snapshot@, app@, fact@));
        },
        FactData::Mise { tasks, .. } => {
            add_task_runs(out, tasks, &fact.id);
        },
        FactData::Python { scripts, .. } => {
            add_uv_runs(out, scripts, &fact.id);
        },
        FactData::Procfile { processes, .. } => {
            add_process_runs(out, processes, &fact.id);
        },
        _ => {},
    }
}

/// Candidate ways to run an app, drawn only from files that exist.
pub fn run_candidates(snapshot: &Snapshot, app: &AppFacts, facts: &Vec<Fact>) -> (r: Vec<Candidate>)
    ensures
        text::views(r@) == runs_of(snapshot@, app@, text::views(facts@)),
{
    let ghost all = text::views(facts@);
    let mut out: Vec<Candidate> = Vec::new();
    let mut k: usize = 0;
    assert(text::views(out@) =~= Seq::<CandidateView>::empty());
    while k < facts.len()
        invariant
            all == text::views(facts@),
            k <= facts@.len(),
            text::views(out@) == runs_upto(snapshot@, app@, all, k as int),
        decreases facts@.len() - k,
    {
        assert(all[k as int] == facts@[k as int]@);
        if facts[k].belongs_to(&app.id) {
            add_runs(&mut out, snapshot, app, &facts[k]);
        }
        k += 1;
    }
    rank(out)
}

// ---------------------------------------------------------------------------
// Storybook
// ---------------------------------------------------------------------------

/// The first `k` steps that serve Storybook.
pub open spec fn storybook_runs(list: Seq<Seq<char>>, evidence: Seq<char>, k: int) -> Seq<CandidateView>
    decreases k,
{
    if k <= 0 {
        Seq::empty()
    } else {
        let before = storybook_runs(list, evidence, k - 1);
        let name = list[k - 1];
        before.push(candidate(name, 100u32, evidence))
    }
}

fn add_storybook_runs(out: &mut Vec<Candidate>, list: &Vec<String>, evidence: &str)
    ensures
        text::views(final(out)@) == text::views(old(out)@) + storybook_runs(
            text::views(list@),
            evidence@,
            list@.len() as int,
        ),
{
    let ghost start = text::views(out@);
    let ghost all = text::views(list@);
    let mut k: usize = 0;
    assert(start + Seq::<CandidateView>::empty() =~= start);
    while k < list.len()
        invariant
            all == text::views(list@),
            k <= list@.len(),
            text::views(out@) == start + storybook_runs(all, evidence@, k as int),
        decreases list@.len() - k,
    {
        assert(all[k as int] == list@[k as int]@);
        let name = &list[k];
        let ghost before = storybook_runs(all, evidence@, k as int);
        let value = name.clone();
        push_candidate(out, value, 100, evidence);
        assert(text::views(out@) =~= start + before.push(out@.last()@));
        k += 1;
    }
}

/// The steps that serve Storybook that the first `k` facts name for an app.
pub open spec fn storybooks_upto(app: AppFactsView, facts: Seq<FactView>, k: int) -> Seq<
    CandidateView,
>
    decreases k,
{
    if k <= 0 {
        Seq::empty()
    } else {
        let before = storybooks_upto(app, facts, k - 1);
        if facts[k - 1].app == Some(app.id) {
            match facts[k - 1].data {
                FactDataView::Storybook { dev_scripts, .. } => before + storybook_runs(
                    dev_scripts,
                    facts[k - 1].id,
                    dev_scripts.len() as int,
                ),
                _ => before,
            }
        } else {
            before
        }
    }
}

/// Steps that serve Storybook, as choices the way the run answers are.
pub open spec fn storybooks_of(app: AppFactsView, facts: Seq<FactView>) -> Seq<CandidateView> {
    unrepeated(ranked(storybooks_upto(app, facts, facts.len() as int)))
}

/// Steps that serve Storybook, as choices the way the run answers are: the app has to be able to
/// start it beside the app's own dev server, not instead of it.
pub fn storybook_candidates(app: &AppFacts, facts: &Vec<Fact>) -> (r: Vec<Candidate>)
    ensures
        text::views(r@) == storybooks_of(app@, text::views(facts@)),
{
    let ghost all = text::views(facts@);
    let mut out: Vec<Candidate> = Vec::new();
    let mut k: usize = 0;
    assert(text::views(out@) =~= Seq::<CandidateView>::empty());
    while k < facts.len()
        invariant
            all == text::views(facts@),
            k <= facts@.len(),
            text::views(out@) == storybooks_upto(app@, all, k as int),
        decreases facts@.len() - k,
    {
        assert(all[k as int] == facts@[k as int]@);
        if facts[k].belongs_to(&app.id) {
            if let FactData::Storybook { dev_scripts, .. } = &facts[k].data {
                add_storybook_runs(&mut out, dev_scripts, &facts[k].id);
            }
        }
        k += 1;
    }
    rank(out)
}

// ---------------------------------------------------------------------------
// Port variables
// ---------------------------------------------------------------------------

/// Whether a variable's name says that it carries a port.
pub open spec fn names_a_port(name: Seq<char>) -> bool {
    text::contains_of(text::upper_of(name), "PORT"@) && text::upper_of(name) != "SUPPORT"@
}

fn looks_like_port(name: &str) -> (r: bool)
    ensures
        r == names_a_port(name@),
{
    let upper = text::to_upper(name);
    text::contains(&upper, "PORT") && !text::same(&upper, "SUPPORT")
}

/// The names with the port variables among the first `k` of `list` added.
pub open spec fn with_port_names(names: Seq<Seq<char>>, list: Seq<Seq<char>>, k: int) -> Seq<
    Seq<char>,
>
    decreases k,
{
    if k <= 0 {
        names
    } else if names_a_port(list[k - 1]) {
        dict::with_member(with_port_names(names, list, k - 1), list[k - 1])
    } else {
        with_port_names(names, list, k - 1)
    }
}

/// The variables that a fact offers an app for its port: those the app's justfile reads, and those
/// of an env template of the repository.
pub open spec fn port_variables_in(app: Seq<char>, fact: FactView, templates: bool) -> Seq<Seq<char>> {
    match fact.data {
        FactDataView::Just { env_variables, .. } => if !templates && fact.app == Some(app) {
            env_variables
        } else {
            Seq::empty()
        },
        FactDataView::EnvExample { variables, .. } => if templates && fact.app is None {
            variables
        } else {
            Seq::empty()
        },
        _ => Seq::empty(),
    }
}

/// The names with the port variables of the first `k` facts added.
pub open spec fn port_names_upto(
    app: Seq<char>,
    facts: Seq<FactView>,
    templates: bool,
    names: Seq<Seq<char>>,
    k: int,
) -> Seq<Seq<char>>
    decreases k,
{
    if k <= 0 {
        names
    } else {
        let list = port_variables_in(app, facts[k - 1], templates);
        with_port_names(
            port_names_upto(app, facts, templates, names, k - 1),
            list,
            list.len() as int,
        )
    }
}

/// Whether a variable's name holds that of the app.
pub open spec fn names_app(app: Seq<char>, name: Seq<char>) -> bool {
    text::contains_of(text::upper_of(name), text::upper_of(app))
}

/// Whether a variable is one of a worktree.
pub open spec fn names_worktree(name: Seq<char>) -> bool {
    text::starts_with_of(text::upper_of(name), "WT_"@)
}

/// Whether `a` is offered before `b`: a variable naming the app is the most specific, then one of
/// a worktree, then by name.
pub open spec fn more_specific(app: Seq<char>, a: Seq<char>, b: Seq<char>) -> bool {
    if names_app(app, a) != names_app(app, b) {
        names_app(app, a)
    } else if names_worktree(a) != names_worktree(b) {
        names_worktree(a)
    } else {
        text::before(a, b)
    }
}

/// A list with a variable at its place.
pub open spec fn with_variable(app: Seq<char>, list: Seq<Seq<char>>, x: Seq<char>) -> Seq<Seq<char>>
    decreases list.len(),
{
    if list.len() == 0 || !more_specific(app, x, list.last()) {
        list.push(x)
    } else {
        with_variable(app, list.drop_last(), x).push(list.last())
    }
}

/// The variables in the order they are offered.
pub open spec fn by_specificity(app: Seq<char>, list: Seq<Seq<char>>) -> Seq<Seq<char>>
    decreases list.len(),
{
    if list.len() == 0 {
        list
    } else {
        with_variable(app, by_specificity(app, list.drop_last()), list.last())
    }
}

/// Environment variables that plausibly carry an app's port.
pub open spec fn port_variables_of(app: Seq<char>, facts: Seq<FactView>) -> Seq<Seq<char>> {
    let n = facts.len() as int;
    let own = port_names_upto(app, facts, false, Seq::empty(), n);
    by_specificity(app, port_names_upto(app, facts, true, own, n))
}

fn add_port_names(names: &mut Vec<String>, list: &Vec<String>)
    ensures
        text::views(final(names)@) == with_port_names(
            text::views(old(names)@),
            text::views(list@),
            list@.len() as int,
        ),
{
    let ghost start = text::views(names@);
    let ghost all = text::views(list@);
    let mut k: usize = 0;
    while k < list.len()
        invariant
            all == text::views(list@),
            k <= list@.len(),
            text::views(names@) == with_port_names(start, all, k as int),
        decreases list@.len() - k,
    {
        assert(all[k as int] == list@[k as int]@);
        if looks_like_port(&list[k]) {
            dict::add_member(names, list[k].clone());
        }
        k += 1;
    }
}

fn add_fact_ports(names: &mut Vec<String>, app: &str, facts: &Vec<Fact>, templates: bool)
    ensures
        text::views(final(names)@) == port_names_upto(
            app@,
            text::views(facts@),
            templates,
            text::views(old(names)@),
            facts@.len() as int,
        ),
{
    let ghost start = text::views(names@);
    let ghost all = text::views(facts@);
    let mut k: usize = 0;
    while k < facts.len()
        invariant
            all == text::views(facts@),
            k <= facts@.len(),
            text::views(names@) == port_names_upto(app@, all, templates, start, k as int),
        decreases facts@.len() - k,
    {
        assert(all[k as int] == facts@[k as int]@);
        let fact = &facts[k];
        match &fact.data {
            FactData::Just { env_variables, .. } => {
                if !templates && fact.belongs_to(app) {
                    add_port_names(names, env_variables);
                }
            },
            FactData::EnvExample { variables, .. } => {
                if templates && fact.app.is_none() {
                    add_port_names(names, variables);
                }
            },
            _ => {},
        }
        k += 1;
    }
}

fn is_more_specific(app: &str, a: &str, b: &str) -> (r: bool)
    ensures
        r == more_specific(app@, a@, b@),
{
    let app_upper = text::to_upper(app);
    let a_upper = text::to_upper(a);
    let b_upper = text::to_upper(b);
    let a_app = text::contains(&a_upper, &app_upper);
    let b_app = text::contains(&b_upper, &app_upper);
    if a_app != b_app {
        return a_app;
    }
    let a_worktree = text::starts_with(&a_upper, "WT_");
    let b_worktree = text::starts_with(&b_upper, "WT_");
    if a_worktree != b_worktree {
        return a_worktree;
    }
    text::is_before(a, b)
}

fn place_variable(app: &str, list: &mut Vec<String>, x: &String)
    ensures
        text::views(final(list)@) == with_variable(app@, text::views(old(list)@), x@),
{
    let ghost all = text::views(list@);
    let mut i: usize = list.len();
    assert(all.take(all.len() as int) =~= all);
    assert(with_variable(app@, all, x@) + all.skip(all.len() as int) =~= with_variable(
        app@,
        all,
        x@,
    ));
    while i > 0 && is_more_specific(app, x, &list[i - 1])
        invariant
            all == text::views(list@),
            i <= list@.len(),
            with_variable(app@, all, x@) == with_variable(app@, all.take(i as int), x@) + all.skip(
                i as int,
            ),
        decreases i,
    {
        assert(all.take(i as int).drop_last() =~= all.take(i - 1));
        assert(all.take(i as int).last() == all[i - 1]);
        assert(with_variable(app@, all.take(i - 1), x@).push(all[i - 1]) + all.skip(i as int)
            =~= with_variable(app@, all.take(i - 1), x@) + all.skip(i - 1));
        i -= 1;
    }
    assert(i > 0 ==> all.take(i as int).last() == all[i - 1]);
    list.insert(i, x.clone());
    assert(text::views(list@) =~= all.take(i as int).push(x@) + all.skip(i as int));
}

/// Environment variables that plausibly carry an app's port, gathered from the justfile it uses and
/// any committed env template.
pub fn port_variable_candidates(app: &AppFacts, facts: &Vec<Fact>) -> (r: Vec<String>)
    ensures
        text::views(r@) == port_variables_of(app@.id, text::views(facts@)),
{
    let mut names: Vec<String> = Vec::new();
    assert(text::views(names@) =~= Seq::<Seq<char>>::empty());
    add_fact_ports(&mut names, &app.id, facts, false);
    add_fact_ports(&mut names, &app.id, facts, true);
    // A variable naming the app itself is the most specific option.
    let ghost all = text::views(names@);
    let mut ordered: Vec<String> = Vec::new();
    let mut i: usize = 0;
    assert(text::views(ordered@) =~= all.take(0));
    while i < names.len()
        invariant
            all == text::views(names@),
            i <= names@.len(),
            text::views(ordered@) == by_specificity(app@.id, all.take(i as int)),
        decreases names@.len() - i,
    {
        assert(all.take(i + 1).drop_last() =~= all.take(i as int));
        place_variable(&app.id, &mut ordered, &names[i]);
        i += 1;
    }
    assert(all.take(i as int) =~= all);
    ordered
}

// ---------------------------------------------------------------------------
// Questions
// ---------------------------------------------------------------------------

/// Which apps are part of the default stack; asked of more than one app.
pub open spec fn members_question(apps: Seq<AppFactsView>) -> Seq<UnknownView> {
    if apps.len() > 1 {
        seq![
            UnknownView {
                id: "stack.members"@,
                scope: ScopeView::Workspace,
                kind: UnknownKind::MultiChoice,
                question: "Which apps are part of the default stack?"@,
                options: extractors::dirs_of(apps),
                evidence: Seq::empty(),
                default: None,
            },
        ]
    } else {
        Seq::empty()
    }
}

/// The first compose fact, from `k` on.
pub open spec fn compose_fact_from(facts: Seq<FactView>, k: int) -> Option<FactView>
    decreases facts.len() - k,
{
    if k < 0 || k >= facts.len() {
        None
    } else if facts[k].kind == FactKind::Compose {
        Some(facts[k])
    } else {
        compose_fact_from(facts, k + 1)
    }
}

/// The names of services.
pub open spec fn service_names(services: Seq<ComposeServiceFactView>) -> Seq<Seq<char>> {
    Seq::new(services.len(), |i: int| services[i].name)
}

/// The names of those of the first `k` services that publish a port.
pub open spec fn published_names(services: Seq<ComposeServiceFactView>, k: int) -> Seq<Seq<char>>
    decreases k,
{
    if k <= 0 {
        Seq::empty()
    } else if services[k - 1].ports.len() > 0 {
        published_names(services, k - 1).push(services[k - 1].name)
    } else {
        published_names(services, k - 1)
    }
}

/// What is asked of the services of a compose file: which are shared, and which of those that
/// publish a port must be reachable from the host. The compose file describes the stack, so every
/// service is managed by default. Nothing is exposed by default: a service only needs a host port
/// when something outside its compose network calls it.
pub open spec fn service_questions(id: Seq<char>, services: Seq<ComposeServiceFactView>) -> Seq<
    UnknownView,
> {
    let names = service_names(services);
    let published = published_names(services, services.len() as int);
    let shared = seq![
        UnknownView {
            id: "compose.shared"@,
            scope: ScopeView::Workspace,
            kind: UnknownKind::MultiChoice,
            question: "Which compose services are shared infrastructure rather than app-owned?"@,
            options: names,
            evidence: seq![id],
            default: Some(text::join_of(names, ","@)),
        },
    ];
    if published.len() > 0 {
        shared.push(
            UnknownView {
                id: "compose.expose"@,
                scope: ScopeView::Workspace,
                kind: UnknownKind::MultiChoice,
                question: "Which compose services must be reachable from the host?"@,
                options: published,
                evidence: seq![id],
                default: Some(""@),
            },
        )
    } else {
        shared
    }
}

/// What is asked of the compose file.
pub open spec fn compose_questions(facts: Seq<FactView>) -> Seq<UnknownView> {
    match compose_fact_from(facts, 0) {
        None => Seq::empty(),
        Some(fact) => match fact.data {
            FactDataView::Compose { services, .. } => service_questions(fact.id, services),
            _ => Seq::empty(),
        },
    }
}

/// The first variable that names the app, from `k` on; the first of all where none does.
pub open spec fn preferred_from(app: Seq<char>, variables: Seq<Seq<char>>, k: int) -> Seq<char>
    decreases variables.len() - k,
{
    if k < 0 || k >= variables.len() {
        variables[0]
    } else if names_app(app, variables[k]) {
        variables[k]
    } else {
        preferred_from(app, variables, k + 1)
    }
}

/// An app that reads its port from a specific variable will ignore PORT, so the generated manifest
/// has to name that variable.
pub open spec fn port_question(app: Seq<char>, variables: Seq<Seq<char>>) -> Seq<UnknownView> {
    if variables.len() > 0 {
        seq![
            UnknownView {
                id: app + ".port_env"@,
                scope: ScopeView::App { app },
                kind: UnknownKind::Choice,
                question: "Which variable should carry this app's port?"@,
                options: variables,
                evidence: Seq::empty(),
                default: Some(preferred_from(app, variables, 0)),
            },
        ]
    } else {
        Seq::empty()
    }
}

/// The recipes among the first `k` candidates.
pub open spec fn recipes_in(list: Seq<CandidateView>, k: int) -> Seq<Seq<char>>
    decreases k,
{
    if k <= 0 {
        Seq::empty()
    } else if text::starts_with_of(list[k - 1].value, "just:"@) {
        recipes_in(list, k - 1).push(list[k - 1].value)
    } else {
        recipes_in(list, k - 1)
    }
}

/// The setup steps taken by default: every recipe, or the first step where there is no recipe.
pub open spec fn default_setups(list: Seq<CandidateView>) -> Seq<Seq<char>> {
    let recipes = recipes_in(list, list.len() as int);
    if recipes.len() > 0 {
        recipes
    } else if list.len() > 0 {
        seq![list[0].value]
    } else {
        Seq::empty()
    }
}

/// Files a dev server imports may be generated rather than committed, so the steps that produce
/// them belong in bootstrap.
pub open spec fn setup_question(app: Seq<char>, list: Seq<CandidateView>) -> Seq<UnknownView> {
    if list.len() > 0 {
        seq![
            UnknownView {
                id: app + ".setup"@,
                scope: ScopeView::App { app },
                kind: UnknownKind::MultiChoice,
                question: "Which steps generate files before this app can start?"@,
                options: seq!["none"@] + values_of(list),
                evidence: evidence_of(list),
                default: Some(text::join_of(default_setups(list), ","@)),
            },
        ]
    } else {
        Seq::empty()
    }
}

/// One way to start something out of several; the best is the default.
pub open spec fn step_question(
    app: Seq<char>,
    suffix: Seq<char>,
    question: Seq<char>,
    list: Seq<CandidateView>,
) -> Seq<UnknownView> {
    if list.len() > 0 {
        seq![
            UnknownView {
                id: app + suffix,
                scope: ScopeView::App { app },
                kind: UnknownKind::Choice,
                question,
                options: seq!["skip"@] + values_of(list),
                evidence: evidence_of(list),
                default: Some(list[0].value),
            },
        ]
    } else {
        Seq::empty()
    }
}

/// How an app is started is always asked: one of the ways its files name, or, where they name none,
/// a command in words.
pub open spec fn run_question(app: Seq<char>, list: Seq<CandidateView>) -> Seq<UnknownView> {
    if list.len() > 0 {
        step_question(app, ".run"@, "How should this app be started?"@, list)
    } else {
        seq![
            UnknownView {
                id: app + ".run"@,
                scope: ScopeView::App { app },
                kind: UnknownKind::Text,
                question: "How should this app be started? (command:<command>, or skip)"@,
                options: Seq::empty(),
                evidence: Seq::empty(),
                default: Some("skip"@),
            },
        ]
    }
}

/// What is asked of one app.
pub open spec fn app_questions(snapshot: SnapshotView, app: AppFactsView, facts: Seq<FactView>) -> Seq<
    UnknownView,
> {
    port_question(app.id, port_variables_of(app.id, facts)) + setup_question(
        app.id,
        setups_of(snapshot, app, facts),
    ) + run_question(app.id, runs_of(snapshot, app, facts))
}

/// What is asked of the first `k` apps.
pub open spec fn app_questions_upto(
    snapshot: SnapshotView,
    apps: Seq<AppFactsView>,
    facts: Seq<FactView>,
    k: int,
) -> Seq<UnknownView>
    decreases k,
{
    if k <= 0 {
        Seq::empty()
    } else {
        app_questions_upto(snapshot, apps, facts, k - 1) + app_questions(snapshot, apps[k - 1], facts)
    }
}

/// Storybook is a second server, not another way to start the app: its dev server runs beside the
/// app's own, and it is what an agent talks to over MCP.
pub open spec fn storybook_question(app: AppFactsView, facts: Seq<FactView>) -> Seq<UnknownView> {
    step_question(
        app.id,
        ".storybook"@,
        "Which script serves Storybook, when it should run beside the app?"@,
        storybooks_of(app, facts),
    )
}

/// What is asked of the Storybooks of the first `k` apps.
pub open spec fn storybook_questions_upto(apps: Seq<AppFactsView>, facts: Seq<FactView>, k: int) -> Seq<
    UnknownView,
>
    decreases k,
{
    if k <= 0 {
        Seq::empty()
    } else {
        storybook_questions_upto(apps, facts, k - 1) + storybook_question(apps[k - 1], facts)
    }
}

/// Everything that cannot be known from the repository alone.
pub open spec fn unknowns_of(
    snapshot: SnapshotView,
    apps: Seq<AppFactsView>,
    facts: Seq<FactView>,
) -> Seq<UnknownView> {
    members_question(apps) + compose_questions(facts) + app_questions_upto(
        snapshot,
        apps,
        facts,
        apps.len() as int,
    ) + storybook_questions_upto(apps, facts, apps.len() as int)
}

fn push_unknown(out: &mut Vec<Unknown>, unknown: Unknown)
    ensures
        text::views(final(out)@) == text::views(old(out)@) + seq![unknown@],
{
    let ghost start = out@;
    out.push(unknown);
    assert(text::views(out@) =~= text::views(start) + seq![unknown@]);
}

fn workspace_scope() -> (r: Scope)
    ensures
        r@ == ScopeView::Workspace,
{
    Scope::Workspace
}

fn app_scope(app: &str) -> (r: Scope)
    ensures
        r@ == (ScopeView::App { app: app@ }),
{
    Scope::App { app: text::own(app) }
}

fn empty_texts() -> (r: Vec<String>)
    ensures
        text::views(r@) == Seq::<Seq<char>>::empty(),
{
    let r: Vec<String> = Vec::new();
    assert(text::views(r@) =~= Seq::<Seq<char>>::empty());
    r
}

fn ask_services(out: &mut Vec<Unknown>, id: &str, services: &Vec<ComposeServiceFact>)
    ensures
        text::views(final(out)@) == text::views(old(out)@) + service_questions(
            id@,
            text::views(services@),
        ),
{
    let ghost start = text::views(out@);
    let ghost all = text::views(services@);
    let ghost goal = service_names(all);
    let mut names: Vec<String> = Vec::new();
    let mut published: Vec<String> = Vec::new();
    let mut i: usize = 0;
    assert(text::views(names@) =~= goal.take(0));
    assert(text::views(published@) =~= Seq::<Seq<char>>::empty());
    while i < services.len()
        invariant
            all == text::views(services@),
            goal == service_names(all),
            i <= services@.len(),
            text::views(names@) == goal.take(i as int),
            text::views(published@) == published_names(all, i as int),
        decreases services@.len() - i,
    {
        assert(all[i as int] == services@[i as int]@);
        text::add(&mut names, &services[i].name);
        if services[i].ports.len() > 0 {
            text::add(&mut published, &services[i].name);
        }
        i += 1;
        assert(text::views(names@) =~= goal.take(i as int));
    }
    assert(goal.take(i as int) =~= goal);
    let every = text::join(&names, ",");
    push_unknown(
        out,
        Unknown {
            id: text::own("compose.shared"),
            scope: workspace_scope(),
            kind: UnknownKind::MultiChoice,
            question: text::own(
                "Which compose services are shared infrastructure rather than app-owned?",
            ),
            options: names,
            evidence: text::single(text::own(id)),
            default: Some(every),
        },
    );
    let ghost shared = text::views(out@).last();
    if published.len() > 0 {
        push_unknown(
            out,
            Unknown {
                id: text::own("compose.expose"),
                scope: workspace_scope(),
                kind: UnknownKind::MultiChoice,
                question: text::own("Which compose services must be reachable from the host?"),
                options: published,
                evidence: text::single(text::own(id)),
                default: Some(text::own("")),
            },
        );
    }
    assert(text::views(out@) =~= start + service_questions(id@, all));
}

fn ask_compose(out: &mut Vec<Unknown>, facts: &Vec<Fact>)
    ensures
        text::views(final(out)@) == text::views(old(out)@) + compose_questions(text::views(facts@)),
{
    let ghost start = text::views(out@);
    let ghost all = text::views(facts@);
    assert(start + Seq::<UnknownView>::empty() =~= start);
    let mut k: usize = 0;
    while k < facts.len()
        invariant
            all == text::views(facts@),
            start == text::views(out@),
            start + Seq::<UnknownView>::empty() == start,
            start == text::views(old(out)@),
            k <= facts@.len(),
            compose_fact_from(all, 0) == compose_fact_from(all, k as int),
        decreases facts@.len() - k,
    {
        assert(all[k as int] == facts@[k as int]@);
        if facts[k].kind == FactKind::Compose {
            if let FactData::Compose { services, .. } = &facts[k].data {
                ask_services(out, &facts[k].id, services);
            }
            return;
        }
        k += 1;
    }
}

fn preferred_variable(app: &str, variables: &Vec<String>) -> (r: String)
    requires
        variables@.len() > 0,
    ensures
        r@ == preferred_from(app@, text::views(variables@), 0),
{
    let ghost all = text::views(variables@);
    let mut k: usize = 0;
    while k < variables.len()
        invariant
            all == text::views(variables@),
            k <= variables@.len(),
            preferred_from(app@, all, 0) == preferred_from(app@, all, k as int),
        decreases variables@.len() - k,
    {
        assert(all[k as int] == variables@[k as int]@);
        if text::contains(&text::to_upper(&variables[k]), &text::to_upper(app)) {
            return variables[k].clone();
        }
        k += 1;
    }
    assert(all[0] == variables@[0]@);
    variables[0].clone()
}

fn ask_port(out: &mut Vec<Unknown>, app: &str, variables: Vec<String>)
    ensures
        text::views(final(out)@) == text::views(old(out)@) + port_question(
            app@,
            text::views(variables@),
        ),
{
    let ghost start = text::views(out@);
    assert(start + Seq::<UnknownView>::empty() =~= start);
    if variables.len() > 0 {
        let preferred = preferred_variable(app, &variables);
        push_unknown(
            out,
            Unknown {
                id: text::concat(app, ".port_env"),
                scope: app_scope(app),
                kind: UnknownKind::Choice,
                question: text::own("Which variable should carry this app's port?"),
                options: variables,
                evidence: empty_texts(),
                default: Some(preferred),
            },
        );
    }
}

fn setup_defaults(list: &Vec<Candidate>) -> (r: Vec<String>)
    ensures
        text::views(r@) == default_setups(text::views(list@)),
{
    let ghost all = text::views(list@);
    let mut recipes: Vec<String> = Vec::new();
    let mut k: usize = 0;
    assert(text::views(recipes@) =~= Seq::<Seq<char>>::empty());
    while k < list.len()
        invariant
            all == text::views(list@),
            k <= list@.len(),
            text::views(recipes@) == recipes_in(all, k as int),
        decreases list@.len() - k,
    {
        assert(all[k as int] == list@[k as int]@);
        if text::starts_with(&list[k].value, "just:") {
            text::add(&mut recipes, &list[k].value);
        }
        k += 1;
    }
    if recipes.len() == 0 && list.len() > 0 {
        assert(all[0] == list@[0]@);
        return text::single(list[0].value.clone());
    }
    recipes
}

fn with_first(first: &str, rest: &Vec<String>) -> (r: Vec<String>)
    ensures
        text::views(r@) == seq![first@] + text::views(rest@),
{
    let mut out = text::single(text::own(first));
    text::add_all(&mut out, rest);
    out
}

fn ask_setup(out: &mut Vec<Unknown>, app: &str, list: &Vec<Candidate>)
    ensures
        text::views(final(out)@) == text::views(old(out)@) + setup_question(
            app@,
            text::views(list@),
        ),
{
    let ghost start = text::views(out@);
    assert(start + Seq::<UnknownView>::empty() =~= start);
    if list.len() > 0 {
        push_unknown(
            out,
            Unknown {
                id: text::concat(app, ".setup"),
                scope: app_scope(app),
                kind: UnknownKind::MultiChoice,
                question: text::own("Which steps generate files before this app can start?"),
                options: with_first("none", &values(list)),
                evidence: evidence(list),
                default: Some(text::join(&setup_defaults(list), ",")),
            },
        );
    }
}

fn ask_step(
    out: &mut Vec<Unknown>,
    app: &str,
    suffix: &str,
    question: &str,
    list: &Vec<Candidate>,
)
    ensures
        text::views(final(out)@) == text::views(old(out)@) + step_question(
            app@,
            suffix@,
            question@,
            text::views(list@),
        ),
{
    let ghost start = text::views(out@);
    assert(start + Seq::<UnknownView>::empty() =~= start);
    if list.len() > 0 {
        assert(text::views(list@)[0] == list@[0]@);
        push_unknown(
            out,
            Unknown {
                id: text::concat(app, suffix),
                scope: app_scope(app),
                kind: UnknownKind::Choice,
                question: text::own(question),
                options: with_first("skip", &values(list)),
                evidence: evidence(list),
                default: Some(list[0].value.clone()),
            },
        );
    }
}

fn ask_run(out: &mut Vec<Unknown>, app: &str, list: &Vec<Candidate>)
    ensures
        text::views(final(out)@) == text::views(old(out)@) + run_question(app@, text::views(list@)),
{
    if list.len() > 0 {
        ask_step(out, app, ".run", "How should this app be started?", list);
    } else {
        push_unknown(
            out,
            Unknown {
                id: text::concat(app, ".run"),
                scope: app_scope(app),
                kind: UnknownKind::Text,
                question: text::own(
                    "How should this app be started? (command:<command>, or skip)",
                ),
                options: empty_texts(),
                evidence: empty_texts(),
                default: Some(text::own("skip")),
            },
        );
    }
}

fn ask_app(out: &mut Vec<Unknown>, snapshot: &Snapshot, app: &AppFacts, facts: &Vec<Fact>)
    ensures
        text::views(final(out)@) == text::views(old(out)@) + app_questions(
            snapshot@,
            app@,
            text::views(facts@),
        ),
{
    let ghost start = text::views(out@);
    ask_port(out, &app.id, port_variable_candidates(app, facts));
    ask_setup(out, &app.id, &setup_candidates(snapshot, app, facts));
    ask_run(out, &app.id, &run_candidates(snapshot, app, facts));
    assert(text::views(out@) =~= start + app_questions(snapshot@, app@, text::views(facts@)));
}

/// Everything that cannot be known from the repository alone, as a closed list of questions.
pub fn derive_unknowns(snapshot: &Snapshot, apps: &Vec<AppFacts>, facts: &Vec<Fact>) -> (r: Vec<
    Unknown,
>)
    ensures
        text::views(r@) == unknowns_of(snapshot@, text::views(apps@), text::views(facts@)),
{
    let ghost all = text::views(apps@);
    let ghost known = text::views(facts@);
    let mut out: Vec<Unknown> = Vec::new();
    assert(text::views(out@) =~= Seq::<UnknownView>::empty());
    if apps.len() > 1 {
        push_unknown(
            &mut out,
            Unknown {
                id: text::own("stack.members"),
                scope: workspace_scope(),
                kind: UnknownKind::MultiChoice,
                question: text::own("Which apps are part of the default stack?"),
                options: extractors::app_dirs(apps),
                evidence: empty_texts(),
                default: None,
            },
        );
    }
    assert(text::views(out@) =~= members_question(all));
    ask_compose(&mut out, facts);
    let ghost before = text::views(out@);
    let mut k: usize = 0;
    assert(before + Seq::<UnknownView>::empty() =~= before);
    while k < apps.len()
        invariant
            all == text::views(apps@),
            known == text::views(facts@),
            k <= apps@.len(),
            text::views(out@) == before + app_questions_upto(snapshot@, all, known, k as int),
        decreases apps@.len() - k,
    {
        assert(all[k as int] == apps@[k as int]@);
        let ghost earlier = app_questions_upto(snapshot@, all, known, k as int);
        ask_app(&mut out, snapshot, &apps[k], facts);
        k += 1;
        assert(text::views(out@) =~= before + app_questions_upto(snapshot@, all, known, k as int));
    }
    let ghost asked = text::views(out@);
    let mut i: usize = 0;
    assert(asked + Seq::<UnknownView>::empty() =~= asked);
    while i < apps.len()
        invariant
            all == text::views(apps@),
            known == text::views(facts@),
            i <= apps@.len(),
            text::views(out@) == asked + storybook_questions_upto(all, known, i as int),
        decreases apps@.len() - i,
    {
        assert(all[i as int] == apps@[i as int]@);
        ask_step(
            &mut out,
            &apps[i].id,
            ".storybook",
            "Which script serves Storybook, when it should run beside the app?",
            &storybook_candidates(&apps[i], facts),
        );
        i += 1;
        assert(text::views(out@) =~= asked + storybook_questions_upto(all, known, i as int));
    }
    out
}

} // verus!
