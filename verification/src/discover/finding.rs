//! What a repository's files say, and that a report says it too.

use crate::discover::extractors;
use crate::discover::extractors::JustFactsView;
use crate::discover::report::{
    AppFactsView, ComposeServiceFactView, FactDataView, FactKind, FactView, ScriptFactView,
};
use crate::discover::snapshot::SnapshotView;
use crate::paths;
use crate::text;
use crate::value::Value;
use vstd::prelude::*;

verus! {

/// Whether a report holds a fact of a kind and an app, with these data.
pub open spec fn is_said(
    facts: Seq<FactView>,
    kind: FactKind,
    app: Option<Seq<char>>,
    data: FactDataView,
) -> bool {
    exists|i: int|
        0 <= i < facts.len() && (#[trigger] facts[i]).kind == kind && facts[i].app == app
            && facts[i].data == data
}

/// Whether what the first report says, the second says too.
spec fn keeps(a: Seq<FactView>, b: Seq<FactView>) -> bool {
    a.len() <= b.len() && forall|i: int| 0 <= i < a.len() ==> #[trigger] a[i] == b[i]
}

proof fn kept_is_said(
    a: Seq<FactView>,
    b: Seq<FactView>,
    kind: FactKind,
    app: Option<Seq<char>>,
    data: FactDataView,
)
    requires
        keeps(a, b),
        is_said(a, kind, app, data),
    ensures
        is_said(b, kind, app, data),
{
    let i = choose|i: int|
        0 <= i < a.len() && (#[trigger] a[i]).kind == kind && a[i].app == app && a[i].data == data;
    assert(b[i].kind == kind);
}

/// The scripts that a `package.json` declares.
pub open spec fn declared_scripts(package: Value) -> Seq<(Value, Value)> {
    match package.get_of("scripts"@) {
        Some(table) => table.entries_of(),
        None => Seq::empty(),
    }
}

/// Whether scripts are those that a `package.json` declares: each under its name, with its command.
pub open spec fn are_scripts_of(scripts: Seq<ScriptFactView>, package: Value) -> bool {
    &&& scripts.len() == declared_scripts(package).len()
    &&& forall|i: int|
        0 <= i < scripts.len() ==> (declared_scripts(package)[i].0.text_of() matches Some(name)
            ==> (#[trigger] scripts[i]).name == name) && (
        declared_scripts(package)[i].1.text_of() matches Some(command) ==> scripts[i].command
            == command)
}

/// Whether names are the keys of a table.
pub open spec fn are_keys_of(names: Seq<Seq<char>>, table: Option<Value>) -> bool {
    match table {
        Some(table) => names.len() == table.entries_of().len() && forall|i: int|
            0 <= i < names.len() ==> (table.entries_of()[i].0.text_of() matches Some(name) ==> (
            #[trigger] names[i]) == name),
        None => names.len() == 0,
    }
}

/// What a report says of an app whose directory has a `package.json`, a `pyproject.toml`, a
/// `justfile` or a `mise.toml`.
pub open spec fn says_what_the_app_has(
    snapshot: SnapshotView,
    app: AppFactsView,
    facts: Seq<FactView>,
) -> bool {
    let dir = if app.dir == "."@ {
        snapshot.root
    } else {
        paths::join_of(snapshot.root, app.dir)
    };
    &&& snapshot.json_at(paths::join_of(dir, "package.json"@)) matches Some(package) ==> is_said(
        facts,
        FactKind::Node,
        Some(app.id),
        extractors::node_data_of(package),
    )
    &&& snapshot.toml_at(paths::join_of(dir, "pyproject.toml"@)) matches Some(project) ==> is_said(
        facts,
        FactKind::Python,
        Some(app.id),
        extractors::python_data_of(snapshot, dir, project),
    )
    &&& snapshot.text_at(paths::join_of(dir, "justfile"@)) matches Some(raw) ==> is_said(
        facts,
        FactKind::Just,
        Some(app.id),
        extractors::just_data_of(Some(raw)),
    )
    &&& snapshot.toml_at(paths::join_of(dir, "mise.toml"@)) matches Some(tasks) ==> is_said(
        facts,
        FactKind::Mise,
        Some(app.id),
        extractors::mise_data_of(Some(tasks)),
    )
}

proof fn apps_are_said(snapshot: SnapshotView, app: AppFactsView, facts: Seq<FactView>)
    ensures
        keeps(facts, extractors::with_app(snapshot, app, facts)),
        says_what_the_app_has(snapshot, app, extractors::with_app(snapshot, app, facts)),
{
    let dir = extractors::app_root_of(snapshot.root, app.dir);
    let node = extractors::with_node(snapshot, app.id, dir, facts);
    let python = extractors::with_python(snapshot, app.id, dir, node);
    let just = extractors::with_just(snapshot, Some(app.id), dir, python);
    let all = extractors::with_mise(snapshot, Some(app.id), dir, just);
    assert(keeps(facts, node));
    assert(keeps(node, python));
    assert(keeps(python, just));
    assert(keeps(just, all));
    assert(keeps(python, all));
    assert(keeps(node, all));
    if let Some(package) = snapshot.json_at(paths::join_of(dir, "package.json"@)) {
        let data = extractors::node_data_of(package);
        assert(node[facts.len() as int].kind == FactKind::Node);
        assert(is_said(node, FactKind::Node, Some(app.id), data));
        kept_is_said(node, all, FactKind::Node, Some(app.id), data);
    }
    if let Some(project) = snapshot.toml_at(paths::join_of(dir, "pyproject.toml"@)) {
        let data = extractors::python_data_of(snapshot, dir, project);
        assert(python[node.len() as int].kind == FactKind::Python);
        assert(is_said(python, FactKind::Python, Some(app.id), data));
        kept_is_said(python, all, FactKind::Python, Some(app.id), data);
    }
    if let Some(raw) = snapshot.text_at(paths::join_of(dir, "justfile"@)) {
        let data = extractors::just_data_of(Some(raw));
        assert(just[python.len() as int].kind == FactKind::Just);
        assert(is_said(just, FactKind::Just, Some(app.id), data));
        kept_is_said(just, all, FactKind::Just, Some(app.id), data);
    }
    if let Some(tasks) = snapshot.toml_at(paths::join_of(dir, "mise.toml"@)) {
        let data = extractors::mise_data_of(Some(tasks));
        assert(all[just.len() as int].kind == FactKind::Mise);
        assert(is_said(all, FactKind::Mise, Some(app.id), data));
    }
}

proof fn saying_is_kept(
    snapshot: SnapshotView,
    app: AppFactsView,
    a: Seq<FactView>,
    b: Seq<FactView>,
)
    requires
        keeps(a, b),
        says_what_the_app_has(snapshot, app, a),
    ensures
        says_what_the_app_has(snapshot, app, b),
{
    let dir = extractors::app_root_of(snapshot.root, app.dir);
    if let Some(package) = snapshot.json_at(paths::join_of(dir, "package.json"@)) {
        kept_is_said(a, b, FactKind::Node, Some(app.id), extractors::node_data_of(package));
    }
    if let Some(project) = snapshot.toml_at(paths::join_of(dir, "pyproject.toml"@)) {
        kept_is_said(
            a,
            b,
            FactKind::Python,
            Some(app.id),
            extractors::python_data_of(snapshot, dir, project),
        );
    }
    if let Some(raw) = snapshot.text_at(paths::join_of(dir, "justfile"@)) {
        kept_is_said(a, b, FactKind::Just, Some(app.id), extractors::just_data_of(Some(raw)));
    }
    if let Some(tasks) = snapshot.toml_at(paths::join_of(dir, "mise.toml"@)) {
        kept_is_said(a, b, FactKind::Mise, Some(app.id), extractors::mise_data_of(Some(tasks)));
    }
}

proof fn all_apps_are_said(
    snapshot: SnapshotView,
    apps: Seq<AppFactsView>,
    facts: Seq<FactView>,
    k: int,
)
    requires
        0 <= k <= apps.len(),
    ensures
        keeps(facts, extractors::with_apps(snapshot, apps, facts, k)),
        forall|i: int|
            0 <= i < k ==> says_what_the_app_has(
                snapshot,
                #[trigger] apps[i],
                extractors::with_apps(snapshot, apps, facts, k),
            ),
    decreases k,
{
    if k > 0 {
        all_apps_are_said(snapshot, apps, facts, k - 1);
        let before = extractors::with_apps(snapshot, apps, facts, k - 1);
        let now = extractors::with_apps(snapshot, apps, facts, k);
        apps_are_said(snapshot, apps[k - 1], before);
        assert forall|i: int| 0 <= i < k implies says_what_the_app_has(
            snapshot,
            #[trigger] apps[i],
            now,
        ) by {
            if i < k - 1 {
                saying_is_kept(snapshot, apps[i], before, now);
            }
        }
    }
}

/// Whether services are those of a compose file: each entry that has a name is there, under that name,
/// with its image, whether it is built, and the ports it publishes.
pub open spec fn are_services_of(
    services: Seq<ComposeServiceFactView>,
    entries: Seq<(Value, Value)>,
) -> bool {
    forall|i: int|
        0 <= i < entries.len() ==> ((#[trigger] entries[i]).0.text_of() matches Some(name)
            ==> services.contains(extractors::compose_service_of(name, entries[i].1)))
}

proof fn placed_services(list: Seq<ComposeServiceFactView>, x: ComposeServiceFactView)
    ensures
        extractors::with_service(list, x).contains(x),
        forall|y: ComposeServiceFactView|
            list.contains(y) ==> #[trigger] extractors::with_service(list, x).contains(y),
    decreases list.len(),
{
    let now = extractors::with_service(list, x);
    if list.len() == 0 || !text::before(x.name, list.last().name) {
        assert(now[list.len() as int] == x);
        assert forall|y: ComposeServiceFactView| list.contains(y) implies #[trigger] now.contains(
            y,
        ) by {
            let i = choose|i: int| 0 <= i < list.len() && list[i] == y;
            assert(now[i] == y);
        }
    } else {
        let rest = list.drop_last();
        placed_services(rest, x);
        let inner = extractors::with_service(rest, x);
        let i = choose|i: int| 0 <= i < inner.len() && inner[i] == x;
        assert(now[i] == x);
        assert forall|y: ComposeServiceFactView| list.contains(y) implies #[trigger] now.contains(
            y,
        ) by {
            let i = choose|i: int| 0 <= i < list.len() && list[i] == y;
            if i < rest.len() {
                assert(rest[i] == y);
                assert(inner.contains(y));
                let j = choose|j: int| 0 <= j < inner.len() && inner[j] == y;
                assert(now[j] == y);
            } else {
                assert(now[inner.len() as int] == y);
            }
        }
    }
}

proof fn services_are_listed(entries: Seq<(Value, Value)>, k: int, i: int)
    requires
        0 <= i < k <= entries.len(),
    ensures
        entries[i].0.text_of() matches Some(name) ==> extractors::services_upto(entries, k).contains(
            extractors::compose_service_of(name, entries[i].1),
        ),
    decreases k,
{
    let before = extractors::services_upto(entries, k - 1);
    if i < k - 1 {
        services_are_listed(entries, k - 1, i);
    }
    if let Some(name) = entries[k - 1].0.text_of() {
        placed_services(before, extractors::compose_service_of(name, entries[k - 1].1));
    }
}

proof fn compose_is_kept(
    snapshot: SnapshotView,
    files: Seq<Seq<char>>,
    facts: Seq<FactView>,
    k: int,
)
    ensures
        keeps(facts, extractors::with_compose(snapshot, files, facts, k)),
    decreases k,
{
    if k > 0 {
        compose_is_kept(snapshot, files, facts, k - 1);
    }
}

/// Whether a report says which services a compose file has.
pub open spec fn says_the_services(facts: Seq<FactView>, table: Value) -> bool {
    exists|i: int|
        0 <= i < facts.len() && (#[trigger] facts[i]).kind == FactKind::Compose && facts[i].app
            is None && (facts[i].data matches FactDataView::Compose { services, .. }
            && are_services_of(services, table.entries_of()))
}

proof fn compose_is_said(
    snapshot: SnapshotView,
    files: Seq<Seq<char>>,
    facts: Seq<FactView>,
    k: int,
    i: int,
    table: Value,
)
    requires
        0 <= i < k <= files.len(),
        snapshot.yaml_at(files[i]) matches Some(document) && document.get_of("services"@) == Some(
            table,
        ),
        table.untagged() is Table,
    ensures
        says_the_services(extractors::with_compose(snapshot, files, facts, k), table),
    decreases k,
{
    let before = extractors::with_compose(snapshot, files, facts, k - 1);
    let now = extractors::with_compose(snapshot, files, facts, k);
    if i < k - 1 {
        compose_is_said(snapshot, files, facts, k - 1, i, table);
        let j = choose|j: int|
            0 <= j < before.len() && (#[trigger] before[j]).kind == FactKind::Compose
                && before[j].app is None && (before[j].data matches FactDataView::Compose {
                services,
                ..
            } && are_services_of(services, table.entries_of()));
        assert(now[j] == before[j]);
    } else {
        let entries = table.entries_of();
        let services = extractors::services_upto(entries, entries.len() as int);
        assert forall|m: int| 0 <= m < entries.len() implies ((
        #[trigger] entries[m]).0.text_of() matches Some(name) ==> services.contains(
            extractors::compose_service_of(name, entries[m].1),
        )) by {
            services_are_listed(entries, entries.len() as int, m);
        }
        let own = now[before.len() as int];
        assert(own.kind == FactKind::Compose);
        assert(are_services_of(services, entries));
    }
}

proof fn env_is_kept(
    snapshot: SnapshotView,
    names: Seq<Seq<char>>,
    facts: Seq<FactView>,
    k: int,
)
    ensures
        keeps(facts, extractors::with_env(snapshot, names, facts, k)),
    decreases k,
{
    if k > 0 {
        env_is_kept(snapshot, names, facts, k - 1);
    }
}

/// A report says what the files of each app say: its scripts, its Python project, its recipes and its
/// tasks, each as a fact of that app.
pub proof fn reports_say_what_apps_have(snapshot: SnapshotView, i: int)
    requires
        0 <= i < extractors::apps_of(snapshot).len(),
    ensures
        says_what_the_app_has(
            snapshot,
            extractors::apps_of(snapshot)[i],
            extractors::facts_of(snapshot),
        ),
{
    let apps = extractors::apps_of(snapshot);
    let tooling = match extractors::workspace_tool(snapshot) {
        Some((name, path)) => extractors::with_fact(
            snapshot.root,
            Seq::empty(),
            path,
            FactKind::Workspace,
            None,
            crate::discover::report::Confidence::High,
            FactDataView::Workspace { tool: name, packages: extractors::dirs_of(apps) },
        ),
        None => Seq::empty(),
    };
    all_apps_are_said(snapshot, apps, tooling, apps.len() as int);
    let own = extractors::workspace_facts(snapshot);
    root_is_kept(snapshot, apps, own);
    saying_is_kept(snapshot, apps[i], own, extractors::facts_of(snapshot));
}

proof fn root_is_kept(snapshot: SnapshotView, apps: Seq<AppFactsView>, facts: Seq<FactView>)
    ensures
        keeps(facts, extractors::with_root_stack(snapshot, apps, facts)),
{
    let files = extractors::compose_files_of(snapshot);
    let compose = extractors::with_compose(snapshot, files, facts, files.len() as int);
    let mise = extractors::with_mise(snapshot, None, snapshot.root, compose);
    let just = extractors::with_just(snapshot, None, snapshot.root, mise);
    let templates = extractors::env_templates();
    let env = extractors::with_env(snapshot, templates, just, templates.len() as int);
    let all = extractors::with_procfile(snapshot, apps, env);
    compose_is_kept(snapshot, files, facts, files.len() as int);
    assert(keeps(compose, mise));
    assert(keeps(mise, just));
    env_is_kept(snapshot, templates, just, templates.len() as int);
    assert(keeps(env, all));
    assert(keeps(facts, mise));
    assert(keeps(facts, just));
    assert(keeps(facts, env));
}

/// Whether a file of a repository is one that compose reads by itself.
pub open spec fn is_compose_file(name: Seq<char>) -> bool {
    name == "compose.yaml"@ || name == "compose.yml"@ || name == "docker-compose.yaml"@ || name
        == "docker-compose.yml"@
}

proof fn present_files(
    snapshot: SnapshotView,
    dir: Seq<char>,
    names: Seq<Seq<char>>,
    k: int,
    i: int,
) -> (at: int)
    requires
        0 <= i < k <= names.len(),
        snapshot.file_at(paths::join_of(dir, names[i])),
    ensures
        0 <= at < extractors::present(snapshot, dir, names, k).len(),
        extractors::present(snapshot, dir, names, k)[at] == names[i],
    decreases k,
{
    if i == k - 1 {
        extractors::present(snapshot, dir, names, k - 1).len() as int
    } else {
        present_files(snapshot, dir, names, k - 1, i)
    }
}

/// A compose file at the root of a repository is a fact of every report: each of its services is
/// there, under its own name and with what the file says of it.
pub proof fn reports_say_what_compose_has(snapshot: SnapshotView, name: Seq<char>, table: Value)
    requires
        is_compose_file(name),
        snapshot.yaml_at(paths::join_of(snapshot.root, name)) matches Some(document)
            && document.get_of("services"@) == Some(table),
        table.untagged() is Table,
    ensures
        says_the_services(extractors::facts_of(snapshot), table),
{
    let apps = extractors::apps_of(snapshot);
    let facts = extractors::workspace_facts(snapshot);
    let files = extractors::compose_files_of(snapshot);
    let compose = extractors::with_compose(snapshot, files, facts, files.len() as int);
    let names = extractors::compose_names();
    assert(names[0] == "compose.yaml"@ && names[1] == "compose.yml"@ && names[2]
        == "docker-compose.yaml"@ && names[3] == "docker-compose.yml"@);
    let n = choose|n: int| 0 <= n < names.len() && #[trigger] names[n] == name;
    let at = present_files(snapshot, snapshot.root, names, names.len() as int, n);
    let own = extractors::compose_in(snapshot, snapshot.root);
    assert(own[at] == paths::join_of(snapshot.root, name));
    assert(files[at] == own[at]);
    compose_is_said(snapshot, files, facts, files.len() as int, at, table);
    let mise = extractors::with_mise(snapshot, None, snapshot.root, compose);
    let just = extractors::with_just(snapshot, None, snapshot.root, mise);
    let templates = extractors::env_templates();
    let env = extractors::with_env(snapshot, templates, just, templates.len() as int);
    let all = extractors::with_procfile(snapshot, apps, env);
    assert(keeps(compose, mise));
    assert(keeps(mise, just));
    env_is_kept(snapshot, templates, just, templates.len() as int);
    assert(keeps(env, all));
    assert(keeps(compose, just));
    assert(keeps(compose, env));
    assert(keeps(compose, all));
    let j = choose|j: int|
        0 <= j < compose.len() && (#[trigger] compose[j]).kind == FactKind::Compose
            && compose[j].app is None && (compose[j].data matches FactDataView::Compose {
            services,
            ..
        } && are_services_of(services, table.entries_of()));
    assert(all[j] == compose[j]);
    assert(all == extractors::facts_of(snapshot));
}

/// The scripts of a `package.json`, and the tasks of a `mise.toml`, are told as they are declared.
pub proof fn declared_steps_are_told(package: Value, tasks: Value)
    ensures
        extractors::node_data_of(package) matches FactDataView::Node { scripts, .. }
            && are_scripts_of(scripts, package),
        extractors::mise_data_of(Some(tasks)) matches FactDataView::Mise { tasks: names, .. }
            && are_keys_of(names, tasks.get_of("tasks"@)),
{
}

proof fn recipes_are_kept(lines: Seq<Seq<char>>, i: int, facts: JustFactsView, name: Seq<char>)
    requires
        0 <= i <= lines.len(),
        facts.recipes.contains(name),
    ensures
        extractors::just_lines(lines, i, facts).recipes.contains(name),
    decreases lines.len() - i,
{
    if i < lines.len() {
        let next = extractors::just_line(lines, i, facts);
        let at = choose|at: int| 0 <= at < facts.recipes.len() && facts.recipes[at] == name;
        assert(next.0.recipes[at] == name);
        if i < next.1 <= lines.len() {
            recipes_are_kept(lines, next.1, next.0, name);
        }
    }
}

/// Whether a line declares a recipe: it begins at the margin with the recipe's name, and a colon that
/// does not bind a variable follows.
pub open spec fn declares_recipe(line: Seq<char>, name: Seq<char>) -> bool {
    &&& line.len() > 0
    &&& line[0] != ' ' && line[0] != '\t' && line[0] != '#' && line[0] != '['
    &&& text::trim_of(line).len() > 0
    &&& !text::starts_with_of(line, "mod "@)
    &&& !text::starts_with_of(line, "set "@)
    &&& !text::starts_with_of(line, "import "@)
    &&& !text::starts_with_of(line, "alias "@)
    &&& !text::starts_with_of(line, "unexport "@)
    &&& !text::starts_with_of(line, "export "@)
    &&& text::split_once_of(line, ':') matches Some((head, rest))
    &&& text::trim_start_of(rest).len() == 0 || text::trim_start_of(rest)[0] != '='
    &&& text::trim_of(text::first_word_of(head)) == name
    &&& name.len() > 0
    &&& extractors::recipe_name(name)
}

proof fn bodies_end_before(lines: Seq<Seq<char>>, i: int, to: int)
    requires
        0 <= i <= to < lines.len(),
        !extractors::indented(lines[to]),
    ensures
        i <= extractors::body_end(lines, i) <= to,
    decreases to - i,
{
    if i < to {
        if text::trim_of(lines[i]).len() > 0 && extractors::indented(lines[i]) {
            bodies_end_before(lines, i + 1, to);
        }
    }
}

proof fn bodies_stay_inside(lines: Seq<Seq<char>>, i: int)
    requires
        0 <= i <= lines.len(),
    ensures
        i <= extractors::body_end(lines, i) <= lines.len(),
    decreases lines.len() - i,
{
    if i < lines.len() && text::trim_of(lines[i]).len() > 0 && extractors::indented(lines[i]) {
        bodies_stay_inside(lines, i + 1);
    }
}

proof fn recipes_are_reached(
    lines: Seq<Seq<char>>,
    from: int,
    facts: JustFactsView,
    at: int,
    name: Seq<char>,
)
    requires
        0 <= from <= at < lines.len(),
        declares_recipe(lines[at], name),
    ensures
        extractors::just_lines(lines, from, facts).recipes.contains(name),
    decreases lines.len() - from,
{
    let next = extractors::just_line(lines, from, facts);
    bodies_stay_inside(lines, from + 1);
    if from < at {
        bodies_end_before(lines, from + 1, at);
        recipes_are_reached(lines, next.1, next.0, at, name);
    } else {
        assert(next.0.recipes[facts.recipes.len() as int] == name);
        recipes_are_kept(lines, next.1, next.0, name);
    }
}

/// Every recipe that a justfile declares is one of its recipes.
pub proof fn declared_recipes_are_told(raw: Seq<char>, at: int, name: Seq<char>)
    requires
        0 <= at < text::lines_of(raw).len(),
        declares_recipe(text::lines_of(raw)[at], name),
    ensures
        extractors::justfile_of(raw).recipes.contains(name),
        extractors::just_data_of(Some(raw)) matches FactDataView::Just { recipes, .. }
            && recipes.contains(name),
{
    let lines = text::lines_of(raw);
    let start = JustFactsView {
        recipes: Seq::empty(),
        modules: Seq::empty(),
        env_variables: Seq::empty(),
        exported_parameters: extractors::set_in_lines(lines, lines.len() as int),
        recipe_bodies: Seq::empty(),
        variables: Seq::empty(),
    };
    recipes_are_reached(lines, 0, start, at, name);
}

/// Which tool installs what a directory depends on follows from the lock file that is there.
pub proof fn lock_files_name_the_installer(snapshot: SnapshotView, dir: Seq<char>)
    ensures
        ({
            let there = |name: Seq<char>| snapshot.file_at(paths::join_of(dir, name));
            let r = extractors::install_command_of(snapshot, dir);
            &&& there("pnpm-lock.yaml"@) ==> r == Some("pnpm install"@)
            &&& there("yarn.lock"@) && !there("pnpm-lock.yaml"@) ==> r == Some("yarn install"@)
            &&& there("package-lock.json"@) && !there("pnpm-lock.yaml"@) && !there("yarn.lock"@) && !there(
                "bun.lockb"@,
            ) && !there("bun.lock"@) ==> r == Some("npm install"@)
            &&& there("uv.lock"@) && !there("pnpm-lock.yaml"@) && !there("yarn.lock"@) && !there(
                "bun.lockb"@,
            ) && !there("bun.lock"@) && !there("package-lock.json"@) ==> r == Some(
                "uv sync --group dev"@,
            )
            &&& r is Some <==> there("pnpm-lock.yaml"@) || there("yarn.lock"@) || there("bun.lockb"@)
                || there("bun.lock"@) || there("package-lock.json"@) || there("uv.lock"@) || there(
                "poetry.lock"@,
            ) || there("pyproject.toml"@) || there("package.json"@)
        }),
{
}

} // verus!
