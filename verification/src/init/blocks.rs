//! What holds of the services that are written into a manifest.

use crate::dict;
use crate::discover::extractors;
use crate::discover::report::{
    AnswerSetView, AnswerView, AppFactsView, ComposeServiceFactView, FactDataView, FactView,
    ReportView, UnknownKind, UnknownView,
};
use crate::init;
use crate::init::laws;
use crate::init::{AppliedView, ExistingView, GeneratedView, ServiceBlockView, StoredView};
use crate::manifest::{ReadingView, ServiceView, TargetView};
use crate::paths;
use crate::text;
use vstd::prelude::*;

verus! {

/// Whether a fact is of a compose file that has a service.
pub open spec fn composes(fact: FactView, name: Seq<char>) -> bool {
    fact.data matches FactDataView::Compose { services, .. } && exists|i: int|
        0 <= i < services.len() && (#[trigger] services[i]).name == name
}

proof fn services_are_found(services: Seq<ComposeServiceFactView>, name: Seq<char>, k: int) -> (at:
    int)
    requires
        0 <= k <= services.len(),
    ensures
        match init::service_from(services, name, k) {
            Some(s) => k <= at < services.len() && services[at] == s && s.name == name && forall|
                j: int,
            |
                k <= j < at ==> (#[trigger] services[j]).name != name,
            None => forall|j: int|
                k <= j < services.len() ==> (#[trigger] services[j]).name != name,
        },
    decreases services.len() - k,
{
    if k >= services.len() || services[k].name == name {
        k
    } else {
        services_are_found(services, name, k + 1)
    }
}

proof fn services_come_from_facts(facts: Seq<FactView>, k: int, name: Seq<char>)
    requires
        0 <= k <= facts.len(),
    ensures
        (exists|i: int|
            0 <= i < init::services_upto(facts, k).len() && (
            #[trigger] init::services_upto(facts, k)[i]).name == name) <==> exists|j: int|
            0 <= j < k && composes(#[trigger] facts[j], name),
    decreases k,
{
    if k > 0 {
        services_come_from_facts(facts, k - 1, name);
        let before = init::services_upto(facts, k - 1);
        let now = init::services_upto(facts, k);
        if let FactDataView::Compose { services, .. } = facts[k - 1].data {
            assert(now == before + services);
            if exists|i: int| 0 <= i < before.len() && (#[trigger] before[i]).name == name {
                let i = choose|i: int| 0 <= i < before.len() && (#[trigger] before[i]).name == name;
                assert(now[i].name == name);
            }
            if composes(facts[k - 1], name) {
                let i = choose|i: int|
                    0 <= i < services.len() && (#[trigger] services[i]).name == name;
                assert(now[before.len() + i].name == name);
            }
            if exists|i: int| 0 <= i < now.len() && (#[trigger] now[i]).name == name {
                let i = choose|i: int| 0 <= i < now.len() && (#[trigger] now[i]).name == name;
                if i < before.len() {
                    assert(before[i].name == name);
                } else {
                    assert(services[i - before.len()].name == name);
                    assert(composes(facts[k - 1], name));
                }
            }
        } else {
            assert(now == before);
        }
    }
}

proof fn files_have_the_service(facts: Seq<FactView>, name: Seq<char>, k: int) -> (at: int)
    requires
        0 <= k <= facts.len(),
    ensures
        (exists|j: int| k <= j < facts.len() && composes(#[trigger] facts[j], name)) ==> k <= at
            < facts.len() && composes(facts[at], name) && init::file_from(facts, name, k)
            == facts[at].source && forall|j: int|
            k <= j < at ==> !composes(#[trigger] facts[j], name),
    decreases facts.len() - k,
{
    if k >= facts.len() {
        k
    } else {
        if let FactDataView::Compose { services, .. } = facts[k].data {
            let at = services_are_found(services, name, 0);
            if init::service_from(services, name, 0) is Some {
                assert(services[at].name == name);
            }
        }
        if composes(facts[k], name) {
            k
        } else {
            files_have_the_service(facts, name, k + 1)
        }
    }
}

proof fn compose_text(
    head: Seq<char>,
    name: Seq<char>,
    file: Seq<char>,
    lines: Seq<char>,
    tail: Seq<char>,
)
    ensures
        ({
            let whole = head + "[[services]]\nid = \""@ + name
                + "\"\nruntime = \"compose\"\ncompose = { file = \""@ + file
                + "\", service = \""@ + name + "\" }\n"@ + lines + tail;
            &&& text::contains_of(whole, "[[services]]\nid = \""@ + name + "\"\n"@)
            &&& text::contains_of(
                whole,
                "compose = { file = \""@ + file + "\", service = \""@ + name + "\" }\n"@,
            )
            &&& text::contains_of(whole, lines)
        }),
{
    let whole = head + "[[services]]\nid = \""@ + name
        + "\"\nruntime = \"compose\"\ncompose = { file = \""@ + file + "\", service = \""@ + name
        + "\" }\n"@ + lines + tail;
    let own = "[[services]]\nid = \""@ + name + "\"\n"@;
    let runtime = "runtime = \"compose\"\n"@;
    let reference = "compose = { file = \""@ + file + "\", service = \""@ + name + "\" }\n"@;
    compose_words();
    assert(whole =~= head + own + (runtime + reference + lines + tail));
    text::part_is_contained(head, own, runtime + reference + lines + tail);
    assert(whole =~= (head + own + runtime) + reference + (lines + tail));
    text::part_is_contained(head + own + runtime, reference, lines + tail);
    assert(whole =~= (head + own + runtime + reference) + lines + tail);
    text::part_is_contained(head + own + runtime + reference, lines, tail);
}

proof fn compose_words()
    ensures
        "\"\nruntime = \"compose\"\ncompose = { file = \""@ == "\"\n"@
            + "runtime = \"compose\"\n"@ + "compose = { file = \""@,
{
    reveal_strlit("\"\nruntime = \"compose\"\ncompose = { file = \"");
    reveal_strlit("\"\n");
    reveal_strlit("runtime = \"compose\"\n");
    reveal_strlit("compose = { file = \"");
    assert("\"\nruntime = \"compose\"\ncompose = { file = \""@ =~= "\"\n"@
        + "runtime = \"compose\"\n"@ + "compose = { file = \""@);
}

/// A compose service that a manifest shares is written under its own name, with the first compose
/// file that has it; no port of it is published unless that was answered; and a service that no
/// compose file has is refused.
pub proof fn shared_services_are_written(
    facts: Seq<FactView>,
    name: Seq<char>,
    exposed: Seq<Seq<char>>,
    first: bool,
) -> (at: int)
    ensures
        ({
            let r = init::compose_block(facts, name, exposed, first);
            let known = exists|j: int| 0 <= j < facts.len() && composes(#[trigger] facts[j], name);
            &&& !known ==> r is Err
            &&& known && !exposed.contains(name) ==> r is Ok
            &&& r matches Ok(block) ==> {
                &&& 0 <= at < facts.len()
                &&& composes(facts[at], name)
                &&& forall|j: int| 0 <= j < at ==> !composes(#[trigger] facts[j], name)
                &&& block.id == name
                &&& block.step is None
                &&& text::contains_of(block.text, "[[services]]\nid = \""@ + name + "\"\n"@)
                &&& text::contains_of(
                    block.text,
                    "compose = { file = \""@ + facts[at].source + "\", service = \""@ + name
                        + "\" }\n"@,
                )
                &&& !exposed.contains(name) ==> text::contains_of(
                    block.text,
                    "expose = \"none\"\n"@,
                )
            }
        }),
{
    let at = files_have_the_service(facts, name, 0);
    services_come_from_facts(facts, facts.len() as int, name);
    let all = init::services_upto(facts, facts.len() as int);
    let found = services_are_found(all, name, 0);
    if let Some(service) = init::service_from(all, name, 0) {
        assert(all[found].name == name);
        let file = init::file_from(facts, name, 0);
        let exposure = init::exposure_of(name, file, service.ports, exposed.contains(name));
        if let Ok(block) = init::compose_block(facts, name, exposed, first) {
            let lines = exposure->Ok_0;
            let head = if first {
                init::SHARED_SERVICES_COMMENT@ + "\n\n"@
            } else {
                ""@
            };
            let tail = if init::initializer(name) {
                "wait = \"exit\"\n"@
            } else {
                ""@
            };
            compose_text(head, name, file, lines, tail);
        }
    }
    at
}

/// A manifest shares each service that was asked for, once for each answer and in that order.
pub proof fn every_shared_service_is_written(
    facts: Seq<FactView>,
    shared: Seq<Seq<char>>,
    exposed: Seq<Seq<char>>,
    k: int,
)
    requires
        0 <= k <= shared.len(),
    ensures
        init::compose_blocks(facts, shared, exposed, k) matches Ok(blocks) ==> {
            &&& blocks.len() == k
            &&& forall|i: int|
                0 <= i < k ==> (#[trigger] blocks[i]).id == shared[i] && init::compose_block(
                    facts,
                    shared[i],
                    exposed,
                    i == 0,
                ) == Ok::<ServiceBlockView, Seq<char>>(blocks[i])
        },
        (exists|i: int|
            0 <= i < k && forall|j: int|
                0 <= j < facts.len() ==> !composes(#[trigger] facts[j], #[trigger] shared[i]))
            ==> init::compose_blocks(facts, shared, exposed, k) is Err,
    decreases k,
{
    if k > 0 {
        every_shared_service_is_written(facts, shared, exposed, k - 1);
        let at = shared_services_are_written(facts, shared[k - 1], exposed, k == 1);
        if exists|i: int|
            0 <= i < k && forall|j: int|
                0 <= j < facts.len() ==> !composes(#[trigger] facts[j], #[trigger] shared[i]) {
            let i = choose|i: int|
                0 <= i < k && forall|j: int|
                    0 <= j < facts.len() ==> !composes(#[trigger] facts[j], #[trigger] shared[i]);
            if i < k - 1 {
                assert(init::compose_blocks(facts, shared, exposed, k - 1) is Err);
            }
        }
    }
}

/// The container's side of every port that a service publishes, in order, with the variable that
/// moves it.
proof fn mappings_are_published(ports: Seq<Seq<char>>, k: int, i: int) -> (at: int)
    requires
        0 <= i < k <= ports.len(),
        extractors::target_of(ports[i]) is Some,
    ensures
        0 <= at < init::mappings_upto(ports, k).len(),
        init::mappings_upto(ports, k)[at] == (
            extractors::target_of(ports[i]).unwrap(),
            extractors::host_variable_of(ports[i]),
        ),
    decreases k,
{
    if i == k - 1 {
        init::mappings_upto(ports, k - 1).len() as int
    } else {
        mappings_are_published(ports, k - 1, i)
    }
}

proof fn port_lines_are_written(mappings: Seq<(u16, Option<Seq<char>>)>, k: int, i: int)
    requires
        0 <= i < k <= mappings.len(),
    ensures
        text::contains_of(
            init::port_lines(mappings, k),
            "target = "@ + text::decimal_of(mappings[i].0 as nat),
        ),
        mappings[i].1 matches Some(variable) ==> text::contains_of(
            init::port_lines(mappings, k),
            "env = \""@ + variable + "\" }"@,
        ),
    decreases k,
{
    reveal_strlit("\", target = ");
    reveal_strlit("\", ");
    reveal_strlit("target = ");
    reveal_strlit(", env = \"");
    reveal_strlit(", ");
    reveal_strlit("env = \"");
    assert("\", target = "@ =~= "\", "@ + "target = "@);
    assert(", env = \""@ =~= ", "@ + "env = \""@);
    let before = init::port_lines(mappings, k - 1);
    let now = init::port_lines(mappings, k);
    let (target, variable) = mappings[k - 1];
    let name = "  { name = \""@ + init::port_name_of(variable, k as nat) + "\", "@;
    let own = "target = "@ + text::decimal_of(target as nat);
    let rest = init::env_part(variable) + ",\n"@;
    assert(now =~= (before + name) + own + rest);
    if i == k - 1 {
        text::part_is_contained(before + name, own, rest);
        if let Some(v) = variable {
            let env = "env = \""@ + v + "\" }"@;
            assert(now =~= (before + name + own + ", "@) + env + ",\n"@);
            text::part_is_contained(before + name + own + ", "@, env, ",\n"@);
        }
    } else {
        port_lines_are_written(mappings, k - 1, i);
        let after = name + own + rest;
        assert(now =~= Seq::<char>::empty() + before + after);
        text::contained_in_more(
            Seq::empty(),
            before,
            after,
            "target = "@ + text::decimal_of(mappings[i].0 as nat),
        );
        if let Some(v) = mappings[i].1 {
            text::contained_in_more(Seq::empty(), before, after, "env = \""@ + v + "\" }"@);
        }
    }
}

/// A service whose ports are published declares the container's side of each of them, and the
/// variable that its compose file already reads for it; one with no such port is refused.
pub proof fn published_ports_are_declared(
    name: Seq<char>,
    file: Seq<char>,
    ports: Seq<Seq<char>>,
    i: int,
)
    requires
        0 <= i < ports.len(),
        extractors::target_of(ports[i]) is Some,
    ensures
        ({
            let r = init::exposure_of(name, file, ports, true);
            &&& r is Ok
            &&& text::contains_of(
                r->Ok_0,
                "target = "@ + text::decimal_of(extractors::target_of(ports[i]).unwrap() as nat),
            )
            &&& extractors::host_variable_of(ports[i]) matches Some(variable) ==> text::contains_of(
                r->Ok_0,
                "env = \""@ + variable + "\" }"@,
            )
        }),
{
    reveal_strlit("port = { target = ");
    reveal_strlit("port = { ");
    reveal_strlit("target = ");
    reveal_strlit(", env = \"");
    reveal_strlit(", ");
    reveal_strlit("env = \"");
    assert("port = { target = "@ =~= "port = { "@ + "target = "@);
    assert(", env = \""@ =~= ", "@ + "env = \""@);
    let all = init::mappings_upto(ports, ports.len() as int);
    let at = mappings_are_published(ports, ports.len() as int, i);
    let own = "target = "@ + text::decimal_of(all[at].0 as nat);
    let r = init::exposure_of(name, file, ports, true)->Ok_0;
    if all.len() == 1 {
        let rest = init::env_part(all[0].1) + "\n"@;
        assert(r =~= "port = { "@ + own + rest);
        text::part_is_contained("port = { "@, own, rest);
        if let Some(v) = all[0].1 {
            let env = "env = \""@ + v + "\" }"@;
            assert(r =~= ("port = { "@ + own + ", "@) + env + "\n"@);
            text::part_is_contained("port = { "@ + own + ", "@, env, "\n"@);
        }
    } else {
        let lines = init::port_lines(all, all.len() as int);
        port_lines_are_written(all, all.len() as int, at);
        assert(r =~= "ports = [\n"@ + lines + "]\n"@);
        text::contained_in_more("ports = [\n"@, lines, "]\n"@, own);
        if let Some(v) = all[at].1 {
            text::contained_in_more(
                "ports = [\n"@,
                lines,
                "]\n"@,
                "env = \""@ + v + "\" }"@,
            );
        }
    }
}

/// What a manifest says to run a step of a tool.
pub open spec fn way_to_run(kind: Seq<char>, step: Seq<char>) -> Seq<char> {
    if kind == "npm"@ || kind == "pnpm"@ || kind == "uv"@ {
        "target = { kind = \""@ + kind + "\", script = \""@ + step + "\" }\n"@
    } else if kind == "just"@ {
        "target = { kind = \"just\", recipe = \""@ + step + "\" }\n"@
    } else {
        "target = { kind = \"mise\", task = \""@ + step + "\" }\n"@
    }
}

/// The variable that an app reads its port from: the answered one, or `PORT`.
pub open spec fn answered_variable(answers: Seq<(Seq<char>, AnswerView)>, app: Seq<char>) -> Seq<
    char,
> {
    match dict::lookup(answers, app + ".port_env"@) {
        Some(AnswerView::One(name)) => if name == ""@ || name == "none"@ {
            "PORT"@
        } else {
            name
        },
        _ => "PORT"@,
    }
}

proof fn tools_are_told_apart()
    ensures
        "npm"@ != "pnpm"@,
        "npm"@ != "uv"@,
        "pnpm"@ != "uv"@,
        "just"@ != "npm"@,
        "just"@ != "pnpm"@,
        "just"@ != "mise"@,
        "just"@ != "uv"@,
        "mise"@ != "npm"@,
        "mise"@ != "pnpm"@,
        "mise"@ != "uv"@,
        "just"@ != "yarn"@,
        "just"@ != "bun"@,
        "mise"@ != "yarn"@,
        "mise"@ != "bun"@,
        "uv"@ != "yarn"@,
        "uv"@ != "bun"@,
{
    reveal_strlit("npm");
    reveal_strlit("pnpm");
    reveal_strlit("uv");
    reveal_strlit("just");
    reveal_strlit("mise");
    reveal_strlit("yarn");
    reveal_strlit("bun");
    assert("npm"@.len() == 3 && "pnpm"@.len() == 4 && "uv"@.len() == 2);
    assert("just"@[0] == 'j' && "mise"@[0] == 'm' && "yarn"@[0] == 'y' && "pnpm"@[0] == 'p');
    assert("just"@.len() == 4 && "mise"@.len() == 4 && "bun"@.len() == 3 && "npm"@[0] == 'n');
}

proof fn ways_are_written(kind: Seq<char>, step: Seq<char>, spec: Seq<char>)
    requires
        kind == "npm"@ || kind == "pnpm"@ || kind == "uv"@ || kind == "just"@ || kind == "mise"@,
    ensures
        init::target_of(kind, step, spec) == Ok::<Seq<char>, Seq<char>>(way_to_run(kind, step)),
{
    tools_are_told_apart();
    reveal_strlit("npm");
    reveal_strlit("pnpm");
    reveal_strlit("uv");
    reveal_strlit("target = { kind = \"");
    reveal_strlit("\", script = \"");
    reveal_strlit("target = { kind = \"npm\", script = \"");
    reveal_strlit("target = { kind = \"pnpm\", script = \"");
    reveal_strlit("target = { kind = \"uv\", script = \"");
    assert("target = { kind = \"npm\", script = \""@ =~= "target = { kind = \""@ + "npm"@
        + "\", script = \""@);
    assert("target = { kind = \"pnpm\", script = \""@ =~= "target = { kind = \""@ + "pnpm"@
        + "\", script = \""@);
    assert("target = { kind = \"uv\", script = \""@ =~= "target = { kind = \""@ + "uv"@
        + "\", script = \""@);
}

/// An app runs by the step that was answered for it: its service has the app's name, runs that step
/// with its own tool, and gets its port in the variable that was answered. No answer, or `skip`,
/// writes no service; and what a tool's Storybook starts is left to Storybook.
pub proof fn apps_run_as_answered(
    facts: Seq<FactView>,
    answers: Seq<(Seq<char>, AnswerView)>,
    app: Seq<char>,
    kind: Seq<char>,
    step: Seq<char>,
)
    requires
        kind == "npm"@ || kind == "pnpm"@ || kind == "uv"@ || kind == "just"@ || kind == "mise"@,
    ensures
        (dict::lookup(answers, app + ".run"@) is None || dict::lookup(answers, app + ".run"@)
            == Some(AnswerView::One("skip"@))) ==> init::run_block_of(facts, answers, app) == Ok::<
            Option<ServiceBlockView>,
            Seq<char>,
        >(None),
        dict::lookup(answers, app + ".run"@) == Some(AnswerView::One(kind + ":"@ + step))
            && !init::starts_storybook(facts, app, kind + ":"@ + step) ==> {
            &&& init::run_block_of(facts, answers, app) matches Ok(Some(block))
            &&& block.id == app
            &&& block.step == Some(kind + ":"@ + step)
            &&& text::contains_of(block.text, "[[services]]\nid = \""@ + app + "\"\n"@)
            &&& text::contains_of(block.text, way_to_run(kind, step))
            &&& text::contains_of(
                block.text,
                "port = { env = \""@ + answered_variable(answers, app) + "\" }\n"@,
            )
        },
{
    reveal_strlit(":");
    reveal_strlit("skip");
    reveal_strlit("npm");
    reveal_strlit("pnpm");
    reveal_strlit("uv");
    reveal_strlit("just");
    reveal_strlit("mise");
    reveal_strlit("");
    let spec = kind + ":"@ + step;
    if dict::lookup(answers, app + ".run"@) == Some(AnswerView::One(spec))
        && !init::starts_storybook(facts, app, spec) {
        let at = kind.len() as int;
        assert(spec[at] == ':');
        assert(!kind.contains(':')) by {
            if kind.contains(':') {
                let i = choose|i: int| 0 <= i < kind.len() && kind[i] == ':';
                assert(kind[i] == ':');
            }
        }
        assert(spec != "skip"@) by {
            if spec == "skip"@ {
                assert("skip"@[at] == ':');
            }
        }
        text::index_from_is_least(spec, ':', 0);
        assert forall|j: int| 0 <= j < at implies spec[j] != ':' by {
            assert(spec[j] == kind[j]);
            assert(kind.contains(kind[j]));
        }
        assert(text::index_of(spec, ':') == Some(at));
        assert(spec.take(at) =~= kind);
        assert(spec.skip(at + 1) =~= step);
        assert(text::split_once_of(spec, ':') == Some((kind, step)));
        ways_are_written(kind, step, spec);
        let variable = init::port_variable_of(answers, app);
        assert(variable == answered_variable(answers, app)) by {
            if let Some(AnswerView::One(name)) = dict::lookup(answers, app + ".port_env"@) {
                if name.len() == 0 {
                    assert(name =~= ""@);
                }
            }
        }
        let own = "[[services]]\nid = \""@ + app + "\"\n"@;
        let note = init::left_out_note(facts, app, kind);
        let way = way_to_run(kind, step);
        let port = "port = { env = \""@ + variable + "\" }\n"@;
        let block = init::run_block_of(facts, answers, app)->Ok_0.unwrap();
        let end = init::HEALTH_LINE@;
        assert(block.text =~= Seq::<char>::empty() + own + (note + way + port + end));
        text::part_is_contained(Seq::empty(), own, note + way + port + end);
        assert(block.text =~= (own + note) + way + (port + end));
        text::part_is_contained(own + note, way, port + end);
        assert(block.text =~= (own + note + way) + port + end);
        text::part_is_contained(own + note + way, port, end);
    }
}

/// The step that a service runs, as a run answer names it.
pub open spec fn names_step(target: TargetView, step: Seq<char>) -> bool {
    match target {
        TargetView::Npm { script, .. } => step == "npm:"@ + script,
        TargetView::Pnpm { script, .. } => step == "pnpm:"@ + script,
        TargetView::Just { recipe, .. } => step == "just:"@ + recipe,
        TargetView::Mise { task, .. } => step == "mise:"@ + task,
        TargetView::Uv { script, .. } => script is Some && step == "uv:"@ + script.unwrap(),
        _ => false,
    }
}

/// A manifest that is there is added to, never written over, unless that is forced; one that cannot be
/// read is left alone; and one that is not there is written whole.
pub proof fn manifests_are_not_written_over(
    file: GeneratedView,
    found: ExistingView,
    force: bool,
)
    ensures
        init::decided_of(file, None, force) == Ok::<(AppliedView, Seq<char>), Seq<char>>(
            (AppliedView::Created(file.path), file.whole()),
        ),
        found.reading is Failed && !force ==> init::decided_of(file, Some(found), force) is Err,
        !force ==> (init::decided_of(file, Some(found), force) matches Ok(r) ==> !(r.0 is Created)),
        !force && !file.records_answers ==> (init::decided_of(file, Some(found), force) matches Ok(r)
            ==> text::starts_with_of(r.1, found.contents)),
        !force && found.reading is Parsed && !file.records_answers ==> init::decided_of(
            file,
            Some(found),
            force,
        ) is Ok,
{
    if let ReadingView::Parsed(m) = found.reading {
        laws::updates_only_add(
            GeneratedView { records_answers: false, ..file },
            found.contents,
            m.services,
            StoredView::none(),
        );
        if !file.records_answers {
            assert(GeneratedView { records_answers: false, ..file } == file);
        }
    }
}

/// A service is added to a manifest only where no service there has its id, and none runs its step by a
/// target of its tool; and a service without a step is added wherever its id is free.
pub proof fn declared_services_are_not_added(
    services: Seq<ServiceView>,
    blocks: Seq<ServiceBlockView>,
    block: ServiceBlockView,
    i: int,
)
    requires
        0 <= i < services.len(),
    ensures
        services[i].id == block.id ==> !init::missing_upto(
            services,
            blocks,
            blocks.len() as int,
        ).contains(block),
        services[i].target is Some && block.step is Some && names_step(
            services[i].target.unwrap(),
            block.step.unwrap(),
        ) ==> !init::missing_upto(services, blocks, blocks.len() as int).contains(block),
        blocks.contains(block) && block.step is None && (forall|j: int|
            0 <= j < services.len() ==> (#[trigger] services[j]).id != block.id)
            ==> init::missing_upto(services, blocks, blocks.len() as int).contains(block),
{
    laws::updates_add_what_is_missing(services, blocks);
    if services[i].id == block.id {
        assert(init::declares_id(services, block.id));
        assert(!init::lacks(services, block));
    }
    if let (Some(target), Some(step)) = (services[i].target, block.step) {
        if names_step(target, step) {
            assert(init::runs_step(services[i], step));
            assert(init::declares_step(services, step));
            assert(!init::lacks(services, block));
        }
    }
}

/// Whether an answer is one that a question takes: an option, options, yes or no, or any text.
pub open spec fn is_taken(question: UnknownView, answer: AnswerView) -> bool {
    match (question.kind, answer) {
        (UnknownKind::Choice, AnswerView::One(value)) => exists|i: int|
            0 <= i < question.options.len() && #[trigger] question.options[i] == value,
        (UnknownKind::MultiChoice, AnswerView::Many(values)) => forall|i: int|
            0 <= i < values.len() ==> question.options.contains(#[trigger] values[i]),
        (UnknownKind::Text, AnswerView::One(_)) => true,
        (UnknownKind::Bool, AnswerView::Flag(_)) => true,
        _ => false,
    }
}

/// A question takes an answer of its own kind only where every part of it was offered.
pub proof fn questions_take_what_they_offer(question: UnknownView, answer: AnswerView)
    requires
        question.kind == UnknownKind::Choice ==> answer is One,
        question.kind == UnknownKind::MultiChoice ==> answer is Many,
        question.kind == UnknownKind::Text ==> answer is One,
        question.kind == UnknownKind::Bool ==> answer is Flag,
    ensures
        question.offers(answer) <==> is_taken(question, answer),
{
    let options = question.options;
    match answer {
        AnswerView::One(value) => {
            if options.contains(value) {
                let i = choose|i: int| 0 <= i < options.len() && options[i] == value;
                assert(options[i] == value);
            }
            if exists|i: int| 0 <= i < options.len() && #[trigger] options[i] == value {
                let i = choose|i: int| 0 <= i < options.len() && #[trigger] options[i] == value;
                assert(options.contains(options[i]));
            }
        },
        AnswerView::Many(values) => {
            assert(answer.many() == values);
        },
        AnswerView::Flag(_) => {
            assert(answer.flag() is Some);
        },
    }
}

proof fn refused_answers_are_dropped(
    unknowns: Seq<UnknownView>,
    stored: StoredView,
    k: int,
    id: Seq<char>,
)
    requires
        0 <= k <= stored.answers.len(),
        forall|j: int|
            0 <= j < stored.answers.len() && (#[trigger] stored.answers[j]).0 == id ==> match init::question_from(
                unknowns,
                id,
                0,
            ) {
                Some(question) => !question.offers(stored.answers[j].1),
                None => true,
            },
    ensures
        dict::lookup(init::sorted_upto(unknowns, stored, k).answers, id) is None,
    decreases k,
{
    if k > 0 {
        refused_answers_are_dropped(unknowns, stored, k - 1, id);
        let before = init::sorted_upto(unknowns, stored, k - 1);
        let (own, answer) = stored.answers[k - 1];
        dict::put_then_lookup(before.answers, own, answer, id);
    }
}

proof fn questions_are_found(unknowns: Seq<UnknownView>, id: Seq<char>, k: int) -> (at: int)
    requires
        0 <= k <= unknowns.len(),
    ensures
        match init::question_from(unknowns, id, k) {
            Some(q) => k <= at < unknowns.len() && unknowns[at] == q && q.id == id,
            None => forall|j: int| k <= j < unknowns.len() ==> (#[trigger] unknowns[j]).id != id,
        },
    decreases unknowns.len() - k,
{
    if k >= unknowns.len() || unknowns[k].id == id {
        k
    } else {
        questions_are_found(unknowns, id, k + 1)
    }
}

/// An answer that is recorded for a question that is no longer asked decides nothing.
pub proof fn answers_without_a_question_are_dropped(
    unknowns: Seq<UnknownView>,
    stored: StoredView,
    id: Seq<char>,
)
    requires
        forall|j: int| 0 <= j < unknowns.len() ==> (#[trigger] unknowns[j]).id != id,
    ensures
        dict::lookup(init::sorted_record(unknowns, stored).answers, id) is None,
{
    let at = questions_are_found(unknowns, id, 0);
    refused_answers_are_dropped(unknowns, stored, stored.answers.len() as int, id);
}

/// An answer that is recorded, and that its question no longer takes, decides nothing.
pub proof fn answers_no_longer_offered_are_dropped(
    unknowns: Seq<UnknownView>,
    stored: StoredView,
    id: Seq<char>,
)
    requires
        forall|i: int, j: int|
            0 <= i < unknowns.len() && 0 <= j < stored.answers.len() && (#[trigger] unknowns[i]).id
                == id && (#[trigger] stored.answers[j]).0 == id ==> !unknowns[i].offers(
                stored.answers[j].1,
            ),
    ensures
        dict::lookup(init::sorted_record(unknowns, stored).answers, id) is None,
{
    let at = questions_are_found(unknowns, id, 0);
    if init::question_from(unknowns, id, 0) is Some {
        assert(unknowns[at].id == id);
    }
    refused_answers_are_dropped(unknowns, stored, stored.answers.len() as int, id);
}

proof fn placed_manifests(list: Seq<GeneratedView>, x: GeneratedView, y: GeneratedView)
    ensures
        init::with_manifest(list, x).contains(y) <==> y == x || list.contains(y),
    decreases list.len(),
{
    let now = init::with_manifest(list, x);
    if list.len() == 0 || !paths::path_before(x.path, list.last().path) {
        assert(now[list.len() as int] == x);
        if list.contains(y) {
            let i = choose|i: int| 0 <= i < list.len() && list[i] == y;
            assert(now[i] == y);
        }
        if now.contains(y) && y != x {
            let i = choose|i: int| 0 <= i < now.len() && now[i] == y;
            assert(list[i] == y);
        }
    } else {
        let rest = list.drop_last();
        let inner = init::with_manifest(rest, x);
        placed_manifests(rest, x, y);
        assert(now[inner.len() as int] == list.last());
        assert(list[list.len() - 1] == list.last());
        if inner.contains(y) {
            let i = choose|i: int| 0 <= i < inner.len() && inner[i] == y;
            assert(now[i] == y);
        }
        if list.contains(y) && y != list.last() {
            let i = choose|i: int| 0 <= i < list.len() && list[i] == y;
            assert(rest[i] == y);
        }
        if rest.contains(y) {
            let i = choose|i: int| 0 <= i < rest.len() && rest[i] == y;
            assert(list[i] == y);
        }
        if now.contains(y) && y != list.last() {
            let i = choose|i: int| 0 <= i < now.len() && now[i] == y;
            assert(inner[i] == y);
        }
    }
}

proof fn sorting_keeps_manifests(list: Seq<GeneratedView>, y: GeneratedView)
    ensures
        init::by_path(list).contains(y) <==> list.contains(y),
    decreases list.len(),
{
    if list.len() > 0 {
        let rest = list.drop_last();
        sorting_keeps_manifests(rest, y);
        placed_manifests(init::by_path(rest), list.last(), y);
        assert(list[list.len() - 1] == list.last());
        if rest.contains(y) {
            let i = choose|i: int| 0 <= i < rest.len() && rest[i] == y;
            assert(list[i] == y);
        }
        if list.contains(y) && y != list.last() {
            let i = choose|i: int| 0 <= i < list.len() && list[i] == y;
            assert(rest[i] == y);
        }
    }
}

/// Whether a manifest is the one that is written for an app: it lies in the app's directory, says the
/// app's id, and runs the app as answered.
pub open spec fn is_manifest_of(
    g: GeneratedView,
    report: ReportView,
    answers: Seq<(Seq<char>, AnswerView)>,
    root: Seq<char>,
    app: AppFactsView,
) -> bool {
    let dir = if app.dir == "."@ {
        root
    } else {
        paths::join_of(root, app.dir)
    };
    &&& g.path == paths::join_of(dir, "magictree.toml"@)
    &&& text::contains_of(g.header, "\n[app]\nid = \""@ + app.id + "\"\n"@)
    &&& init::run_block_of(report.facts, answers, app.id) matches Ok(Some(block))
        ==> g.services.contains(block)
    &&& g.records_answers <==> app.dir == "."@
}

proof fn app_manifests_are_theirs(
    report: ReportView,
    answers: Seq<(Seq<char>, AnswerView)>,
    stored: StoredView,
    root: Seq<char>,
    app: AppFactsView,
)
    ensures
        init::app_manifest(report, answers, stored, root, app) matches Ok(g) ==> is_manifest_of(
            g,
            report,
            answers,
            root,
            app,
        ),
{
    if let Ok(g) = init::app_manifest(report, answers, stored, root, app) {
        let at_root = app.dir == "."@;
        let head = init::head_of(
            if at_root {
                Some(stored)
            } else {
                None
            },
        );
        let own = "\n[app]\nid = \""@ + app.id + "\"\n"@;
        let section = init::bootstrap_of(app, init::setups_of(answers, app.id))->Ok_0;
        let tail = match section {
            Some(lines) => "\n"@ + lines,
            None => ""@,
        };
        assert(g.header =~= head + own + tail);
        text::part_is_contained(head, own, tail);
        let run = init::run_block_of(report.facts, answers, app.id)->Ok_0;
        let storybook = init::storybook_block_of(report.facts, answers, app.id)->Ok_0;
        if let Some(block) = run {
            let services = init::with_block(init::with_block(Seq::empty(), run), storybook);
            assert(services[0] == block);
            assert(g.services[0] == block);
        }
    }
}

/// Whether one of some manifests is the one of an app.
pub open spec fn holds_manifest_of(
    list: Seq<GeneratedView>,
    report: ReportView,
    answers: Seq<(Seq<char>, AnswerView)>,
    root: Seq<char>,
    app: AppFactsView,
) -> bool {
    exists|j: int|
        0 <= j < list.len() && is_manifest_of(#[trigger] list[j], report, answers, root, app)
}

proof fn apps_get_a_manifest(
    report: ReportView,
    answers: Seq<(Seq<char>, AnswerView)>,
    stored: StoredView,
    root: Seq<char>,
    members: Seq<Seq<char>>,
    k: int,
    i: int,
    list: Seq<GeneratedView>,
)
    requires
        0 <= i < k <= report.apps.len(),
        report.apps.len() <= 1 || members.contains(report.apps[i].dir),
        init::app_manifests(report, answers, stored, root, members, k) == Ok::<
            Seq<GeneratedView>,
            Seq<char>,
        >(list),
    ensures
        holds_manifest_of(list, report, answers, root, report.apps[i]),
    decreases k,
{
    let before = init::app_manifests(report, answers, stored, root, members, k - 1)->Ok_0;
    if i < k - 1 {
        apps_get_a_manifest(report, answers, stored, root, members, k - 1, i, before);
        let j = choose|j: int|
            0 <= j < before.len() && is_manifest_of(
                #[trigger] before[j],
                report,
                answers,
                root,
                report.apps[i],
            );
        assert(list[j] == before[j]);
    } else {
        app_manifests_are_theirs(report, answers, stored, root, report.apps[i]);
        let at = before.len() as int;
        assert(is_manifest_of(list[at], report, answers, root, report.apps[i]));
    }
}

proof fn manifests_are_of_an_app(
    report: ReportView,
    answers: Seq<(Seq<char>, AnswerView)>,
    stored: StoredView,
    root: Seq<char>,
    members: Seq<Seq<char>>,
    k: int,
    list: Seq<GeneratedView>,
    j: int,
) -> (i: int)
    requires
        0 <= k <= report.apps.len(),
        init::app_manifests(report, answers, stored, root, members, k) == Ok::<
            Seq<GeneratedView>,
            Seq<char>,
        >(list),
        0 <= j < list.len(),
    ensures
        0 <= i < k,
        report.apps.len() <= 1 || members.contains(report.apps[i].dir),
        is_manifest_of(list[j], report, answers, root, report.apps[i]),
    decreases k,
{
    let before = init::app_manifests(report, answers, stored, root, members, k - 1)->Ok_0;
    if j < before.len() {
        assert(list[j] == before[j]);
        manifests_are_of_an_app(report, answers, stored, root, members, k - 1, before, j)
    } else {
        app_manifests_are_theirs(report, answers, stored, root, report.apps[k - 1]);
        k - 1
    }
}

proof fn members_are_picked(more: Seq<Seq<char>>, k: int, x: Seq<char>)
    requires
        0 <= k <= more.len(),
    ensures
        extractors::with_members(Seq::empty(), more, k).contains(x) <==> exists|i: int|
            0 <= i < k && #[trigger] more[i] == x,
    decreases k,
{
    if k > 0 {
        members_are_picked(more, k - 1, x);
        dict::members_are_added(
            extractors::with_members(Seq::empty(), more, k - 1),
            more[k - 1],
            x,
        );
    }
}

/// Whether an app belongs to the stack that was answered for: every app does where nothing was
/// answered, or where it is the only one.
pub open spec fn is_in_the_stack(
    report: ReportView,
    answers: Seq<(Seq<char>, AnswerView)>,
    app: AppFactsView,
) -> bool {
    ||| report.apps.len() <= 1
    ||| dict::lookup(answers, "stack.members"@) is None
    ||| dict::lookup(answers, "stack.members"@).unwrap().many().contains(app.dir)
}

proof fn the_stack_is_what_was_answered(
    report: ReportView,
    answers: Seq<(Seq<char>, AnswerView)>,
    members: Seq<Seq<char>>,
    i: int,
)
    requires
        init::members_of(report, answers) == Ok::<Seq<Seq<char>>, Seq<char>>(members),
        0 <= i < report.apps.len(),
    ensures
        (report.apps.len() <= 1 || members.contains(report.apps[i].dir)) == is_in_the_stack(
            report,
            answers,
            report.apps[i],
        ),
{
    let all = extractors::dirs_of(report.apps);
    assert(all[i] == report.apps[i].dir);
    if let Some(answer) = dict::lookup(answers, "stack.members"@) {
        let picked = answer.many();
        members_are_picked(picked, picked.len() as int, report.apps[i].dir);
        if picked.contains(report.apps[i].dir) {
            let j = choose|j: int| 0 <= j < picked.len() && picked[j] == report.apps[i].dir;
            assert(picked[j] == report.apps[i].dir);
        }
    }
}

/// A plan holds a manifest for each app of the stack, in the app's own directory and with its own id and
/// its own way to run.
pub proof fn plans_hold_the_apps_of_the_stack(
    report: ReportView,
    answers: AnswerSetView,
    stored: StoredView,
    root: Seq<char>,
    list: Seq<GeneratedView>,
    i: int,
)
    requires
        init::plan_of(report, answers, stored, root) == Ok::<Seq<GeneratedView>, Seq<char>>(list),
        0 <= i < report.apps.len(),
        is_in_the_stack(report, answers.answers, report.apps[i]),
    ensures
        holds_manifest_of(list, report, answers.answers, root, report.apps[i]),
{
    let given = answers.answers;
    let n = report.apps.len() as int;
    let app = report.apps[i];
    let members = init::members_of(report, given)->Ok_0;
    the_stack_is_what_was_answered(report, given, members, i);
    let unsorted = init::unsorted_plan(report, given, stored, root, members)->Ok_0;
    let apps = init::app_manifests(report, given, stored, root, members, n)->Ok_0;
    apps_get_a_manifest(report, given, stored, root, members, n, i, apps);
    let j = choose|j: int|
        0 <= j < apps.len() && is_manifest_of(#[trigger] apps[j], report, given, root, app);
    let g = apps[j];
    if init::workspace_layer(report, given) {
        assert(unsorted[j + 1] == g);
    }
    assert(unsorted.contains(g));
    sorting_keeps_manifests(unsorted, g);
    let at = choose|at: int| 0 <= at < list.len() && list[at] == g;
    assert(is_manifest_of(list[at], report, given, root, app));
}

/// A plan for several apps holds a manifest at the root that lists the stack and records the answers.
pub proof fn plans_describe_the_stack(
    report: ReportView,
    answers: AnswerSetView,
    stored: StoredView,
    root: Seq<char>,
    list: Seq<GeneratedView>,
) -> (at: int)
    requires
        init::plan_of(report, answers, stored, root) == Ok::<Seq<GeneratedView>, Seq<char>>(list),
        report.apps.len() > 1,
    ensures
        0 <= at < list.len(),
        list[at].path == paths::join_of(root, "magictree.toml"@),
        text::contains_of(list[at].header, "\n[workspace]\napps = ["@),
        list[at].records_answers,
{
    let given = answers.answers;
    let members = init::members_of(report, given)->Ok_0;
    let unsorted = init::unsorted_plan(report, given, stored, root, members)->Ok_0;
    let g = init::workspace_manifest(report, given, stored, root, members)->Ok_0;
    assert(unsorted[0] == g);
    assert(unsorted.contains(g));
    sorting_keeps_manifests(unsorted, g);
    let head = init::head_of(Some(stored));
    let own = "\n[workspace]\napps = ["@;
    let tail = text::join_of(init::in_quotes(members), ", "@) + "]\n"@;
    assert(g.header =~= head + own + tail);
    text::part_is_contained(head, own, tail);
    choose|at: int| 0 <= at < list.len() && list[at] == g
}

/// A plan writes nowhere but at the root and where an app of the stack is: an app that was left out gets
/// no manifest.
pub proof fn plans_write_for_the_stack_only(
    report: ReportView,
    answers: AnswerSetView,
    stored: StoredView,
    root: Seq<char>,
    list: Seq<GeneratedView>,
    at: int,
)
    requires
        init::plan_of(report, answers, stored, root) == Ok::<Seq<GeneratedView>, Seq<char>>(list),
        0 <= at < list.len(),
    ensures
        list[at].path == paths::join_of(root, "magictree.toml"@) || exists|i: int|
            0 <= i < report.apps.len() && is_in_the_stack(
                report,
                answers.answers,
                #[trigger] report.apps[i],
            ) && is_manifest_of(list[at], report, answers.answers, root, report.apps[i]),
{
    let given = answers.answers;
    let n = report.apps.len() as int;
    let g = list[at];
    let members = init::members_of(report, given)->Ok_0;
    let unsorted = init::unsorted_plan(report, given, stored, root, members)->Ok_0;
    let apps = init::app_manifests(report, given, stored, root, members, n)->Ok_0;
    assert(list.contains(g));
    sorting_keeps_manifests(unsorted, g);
    let m = choose|m: int| 0 <= m < unsorted.len() && unsorted[m] == g;
    let layered = init::workspace_layer(report, given);
    if !(layered && m == 0) {
        let j = if layered {
            m - 1
        } else {
            m
        };
        assert(apps[j] == g);
        let i = manifests_are_of_an_app(report, given, stored, root, members, n, apps, j);
        the_stack_is_what_was_answered(report, given, members, i);
        assert(is_in_the_stack(report, given, report.apps[i]));
    }
}

proof fn strangers_are_noticed(names: Seq<Seq<char>>, known: Seq<Seq<char>>, k: int, i: int)
    requires
        0 <= k <= i < names.len(),
        !known.contains(names[i]),
    ensures
        init::stranger_from(names, known, k) is Some,
    decreases names.len() - k,
{
    if k < i && known.contains(names[k]) {
        strangers_are_noticed(names, known, k + 1, i);
    }
}

/// Nothing is planned from answers of another version or for another report, nor with an app in the
/// stack that is not there.
pub proof fn plans_are_refused_for_cause(
    report: ReportView,
    answers: AnswerSetView,
    stored: StoredView,
    root: Seq<char>,
)
    requires
        ({
            ||| answers.answers_version != 1
            ||| answers.report_hash.len() > 0 && answers.report_hash != report.report_hash
            ||| dict::lookup(answers.answers, "stack.members"@) matches Some(answer) && exists|m: int|
                0 <= m < answer.many().len() && forall|i: int|
                    0 <= i < report.apps.len() ==> (#[trigger] report.apps[i]).dir
                        != #[trigger] answer.many()[m]
        }),
    ensures
        init::plan_of(report, answers, stored, root) is Err,
{
    if init::answers_error(report, answers) is None {
        let answer = dict::lookup(answers.answers, "stack.members"@).unwrap();
        let given = answer.many();
        let all = extractors::dirs_of(report.apps);
        let m = choose|m: int|
            0 <= m < given.len() && forall|i: int|
                0 <= i < report.apps.len() ==> (#[trigger] report.apps[i]).dir
                    != #[trigger] given[m];
        let picked = extractors::with_members(Seq::empty(), given, given.len() as int);
        members_are_picked(given, given.len() as int, given[m]);
        assert(picked.contains(given[m]));
        let at = choose|at: int| 0 <= at < picked.len() && picked[at] == given[m];
        if all.contains(given[m]) {
            let i = choose|i: int| 0 <= i < all.len() && all[i] == given[m];
            assert(report.apps[i].dir == given[m]);
        }
        strangers_are_noticed(picked, all, 0, at);
    }
}

} // verus!
