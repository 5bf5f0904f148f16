//! Where the apps of a repository are found.

use crate::dict;
use crate::discover::extractors;
use crate::discover::snapshot::SnapshotView;
use crate::paths;
use crate::text;
use vstd::prelude::*;

verus! {

/// Whether a file of this name makes its directory that of an app.
pub open spec fn marks_an_app(file: Seq<char>) -> bool {
    file == "package.json"@ || file == "pyproject.toml"@ || file == "go.mod"@ || file
        == "Cargo.toml"@ || file == "justfile"@
}

/// Whether a directory is there, and that of an app.
pub open spec fn is_app_at(snapshot: SnapshotView, path: Seq<char>) -> bool {
    &&& snapshot.dir_at(path)
    &&& exists|file: Seq<char>| #[trigger]
        marks_an_app(file) && snapshot.file_at(paths::join_of(path, file))
}

proof fn apps_are_marked(snapshot: SnapshotView, path: Seq<char>)
    ensures
        is_app_at(snapshot, path) <==> snapshot.dir_at(path) && extractors::app_dir(snapshot, path),
{
    if extractors::app_dir(snapshot, path) {
        assert(marks_an_app("package.json"@));
        assert(marks_an_app("pyproject.toml"@));
        assert(marks_an_app("go.mod"@));
        assert(marks_an_app("Cargo.toml"@));
        assert(marks_an_app("justfile"@));
    }
}

proof fn sets_are_joined(set: Seq<Seq<char>>, more: Seq<Seq<char>>, k: int, x: Seq<char>)
    requires
        0 <= k <= more.len(),
    ensures
        extractors::with_members(set, more, k).contains(x) <==> set.contains(x) || exists|i: int|
            0 <= i < k && #[trigger] more[i] == x,
    decreases k,
{
    if k > 0 {
        sets_are_joined(set, more, k - 1, x);
        dict::members_are_added(extractors::with_members(set, more, k - 1), more[k - 1], x);
    }
}

proof fn patterns_are_all_tried(
    snapshot: SnapshotView,
    patterns: Seq<Seq<char>>,
    k: int,
    x: Seq<char>,
)
    requires
        0 <= k <= patterns.len(),
    ensures
        extractors::matched_upto(snapshot, patterns, k).contains(x) <==> exists|j: int|
            0 <= j < k && extractors::matched_by(snapshot, #[trigger] patterns[j]).contains(x),
    decreases k,
{
    if k > 0 {
        patterns_are_all_tried(snapshot, patterns, k - 1, x);
        let now = extractors::matched_by(snapshot, patterns[k - 1]);
        let before = extractors::matched_upto(snapshot, patterns, k - 1);
        sets_are_joined(before, now, now.len() as int, x);
        if now.contains(x) {
            let i = choose|i: int| 0 <= i < now.len() && now[i] == x;
            assert(now[i] == x);
        }
    }
}

/// Whether a workspace file of the repository lists a pattern.
pub open spec fn is_pattern(snapshot: SnapshotView, pattern: Seq<char>) -> bool {
    ||| extractors::pnpm_globs(snapshot).contains(pattern)
    ||| extractors::npm_globs(snapshot).contains(pattern)
    ||| extractors::lerna_globs(snapshot).contains(pattern)
}

/// Whether a repository has an app in a directory.
pub open spec fn has_app(snapshot: SnapshotView, dir: Seq<char>) -> bool {
    exists|i: int|
        0 <= i < extractors::apps_of(snapshot).len() && (#[trigger] extractors::apps_of(
            snapshot,
        )[i]).dir == dir
}

proof fn listed_dirs_are_apps(dirs: Seq<Seq<char>>, source: Seq<char>, k: int, j: int) -> (i: int)
    requires
        0 <= j < k <= dirs.len(),
    ensures
        0 <= i < extractors::listed_apps(dirs, source, k).len(),
        extractors::listed_apps(dirs, source, k)[i].dir == dirs[j],
    decreases k,
{
    let before = extractors::listed_apps(dirs, source, k - 1);
    let earlier = dirs.take(k - 1);
    if j < k - 1 {
        listed_dirs_are_apps(dirs, source, k - 1, j)
    } else if earlier.contains(dirs[j]) {
        let m = choose|m: int| 0 <= m < earlier.len() && earlier[m] == dirs[j];
        assert(dirs[m] == dirs[j]);
        listed_dirs_are_apps(dirs, source, k - 1, m)
    } else {
        before.len() as int
    }
}

proof fn what_is_matched_is_an_app(snapshot: SnapshotView, pattern: Seq<char>, x: Seq<char>)
    requires
        is_pattern(snapshot, pattern),
        extractors::matched_by(snapshot, pattern).contains(x),
    ensures
        has_app(snapshot, x),
{
    let a = extractors::pnpm_globs(snapshot);
    let b = extractors::npm_globs(snapshot);
    let c = extractors::lerna_globs(snapshot);
    patterns_are_all_tried(snapshot, a, a.len() as int, x);
    patterns_are_all_tried(snapshot, b, b.len() as int, x);
    patterns_are_all_tried(snapshot, c, c.len() as int, x);
    let ea = extractors::expanded_globs(snapshot, a);
    let eb = extractors::expanded_globs(snapshot, b);
    let ec = extractors::expanded_globs(snapshot, c);
    let dirs = extractors::package_dirs(snapshot);
    assert(dirs == ea + eb + ec);
    let j = if a.contains(pattern) {
        let n = choose|n: int| 0 <= n < a.len() && a[n] == pattern;
        assert(extractors::matched_by(snapshot, a[n]).contains(x));
        choose|j: int| 0 <= j < ea.len() && ea[j] == x
    } else if b.contains(pattern) {
        let n = choose|n: int| 0 <= n < b.len() && b[n] == pattern;
        assert(extractors::matched_by(snapshot, b[n]).contains(x));
        ea.len() + choose|j: int| 0 <= j < eb.len() && eb[j] == x
    } else {
        let n = choose|n: int| 0 <= n < c.len() && c[n] == pattern;
        assert(extractors::matched_by(snapshot, c[n]).contains(x));
        ea.len() + eb.len() + choose|j: int| 0 <= j < ec.len() && ec[j] == x
    };
    assert(dirs[j] == x);
    let source = match extractors::workspace_tool(snapshot) {
        Some(tool) => tool.0,
        None => "layout"@,
    };
    let i = listed_dirs_are_apps(dirs, source, dirs.len() as int, j);
    assert(extractors::apps_of(snapshot)[i].dir == x);
}

proof fn children_are_apps(
    snapshot: SnapshotView,
    dir: Seq<char>,
    prefix: Seq<char>,
    names: Seq<Seq<char>>,
    k: int,
    i: int,
)
    requires
        0 <= i < k <= names.len(),
        is_app_at(snapshot, paths::join_of(dir, names[i])),
    ensures
        extractors::apps_in(snapshot, dir, prefix, names, k).contains(prefix + "/"@ + names[i]),
    decreases k,
{
    let before = extractors::apps_in(snapshot, dir, prefix, names, k - 1);
    let x = prefix + "/"@ + names[i];
    apps_are_marked(snapshot, paths::join_of(dir, names[k - 1]));
    dict::members_are_added(before, prefix + "/"@ + names[k - 1], x);
    if i < k - 1 {
        children_are_apps(snapshot, dir, prefix, names, k - 1, i);
    }
}

/// A workspace pattern `prefix/*` brings every app that lies in the directory.
pub proof fn apps_lie_where_patterns_say(
    snapshot: SnapshotView,
    prefix: Seq<char>,
    names: Seq<Seq<char>>,
    i: int,
)
    requires
        is_pattern(snapshot, prefix + "/*"@),
        snapshot.names_at(paths::join_of(snapshot.root, prefix)) == Some(names),
        0 <= i < names.len(),
        is_app_at(snapshot, paths::join_of(paths::join_of(snapshot.root, prefix), names[i])),
    ensures
        has_app(snapshot, prefix + "/"@ + names[i]),
{
    let pattern = prefix + "/*"@;
    reveal_strlit("/*");
    reveal_strlit("/**");
    assert(pattern.skip(pattern.len() - 2) =~= "/*"@);
    assert(pattern.take(pattern.len() - 2) =~= prefix);
    if text::ends_with_of(pattern, "/**"@) {
        assert(pattern.skip(pattern.len() - 3)[1] == "/**"@[1]);
        assert(pattern[pattern.len() - 2] == '/');
    }
    children_are_apps(
        snapshot,
        paths::join_of(snapshot.root, prefix),
        prefix,
        names,
        names.len() as int,
        i,
    );
    what_is_matched_is_an_app(snapshot, pattern, prefix + "/"@ + names[i]);
}

/// A workspace pattern without a star brings the directory it names.
pub proof fn named_directories_are_apps(snapshot: SnapshotView, dir: Seq<char>)
    requires
        is_pattern(snapshot, dir),
        dir.len() > 0,
        dir.last() != '*' && dir.last() != '/',
        snapshot.dir_at(paths::join_of(snapshot.root, dir)),
    ensures
        has_app(snapshot, dir),
{
    reveal_strlit("/*");
    reveal_strlit("/**");
    reveal_strlit("/*/");
    if text::ends_with_of(dir, "/**"@) {
        assert(dir.skip(dir.len() - 3)[2] == dir.last());
    }
    if text::ends_with_of(dir, "/*"@) {
        assert(dir.skip(dir.len() - 2)[1] == dir.last());
    }
    if text::ends_with_of(dir, "/*/"@) {
        assert(dir.skip(dir.len() - 3)[2] == dir.last());
    }
    let found = extractors::matched_by(snapshot, dir);
    assert(found[0] == dir);
    what_is_matched_is_an_app(snapshot, dir, dir);
}

proof fn names_add_up(
    snapshot: SnapshotView,
    dir: Seq<char>,
    depth: int,
    names: Seq<Seq<char>>,
    k: int,
    out: Seq<Seq<char>>,
    x: Seq<char>,
)
    requires
        0 <= k <= names.len(),
    ensures
        extractors::app_dirs_among(snapshot, dir, depth, names, k, out).contains(x) <==> out.contains(
            x,
        ) || extractors::app_dirs_among(snapshot, dir, depth, names, k, Seq::empty()).contains(x),
    decreases 9 - depth, 0int, k,
{
    if k > 0 && 0 <= depth <= 8 {
        let none = Seq::<Seq<char>>::empty();
        let with = extractors::app_dirs_among(snapshot, dir, depth, names, k - 1, out);
        let without = extractors::app_dirs_among(snapshot, dir, depth, names, k - 1, none);
        let path = paths::join_of(dir, names[k - 1]);
        names_add_up(snapshot, dir, depth, names, k - 1, out, x);
        if !extractors::generated(names[k - 1]) && snapshot.dir_at(path) {
            match paths::relative_of(path, snapshot.root) {
                Some(relative) => if extractors::app_dir(snapshot, path) {
                    dict::members_are_added(with, relative, x);
                    dict::members_are_added(without, relative, x);
                    below_add_up(snapshot, path, depth + 1, dict::with_member(with, relative), x);
                    below_add_up(snapshot, path, depth + 1, dict::with_member(without, relative), x);
                } else {
                    below_add_up(snapshot, path, depth + 1, with, x);
                    below_add_up(snapshot, path, depth + 1, without, x);
                },
                None => {
                    below_add_up(snapshot, path, depth + 1, with, x);
                    below_add_up(snapshot, path, depth + 1, without, x);
                },
            }
        }
    }
}

proof fn below_add_up(
    snapshot: SnapshotView,
    dir: Seq<char>,
    depth: int,
    out: Seq<Seq<char>>,
    x: Seq<char>,
)
    ensures
        extractors::app_dirs_below(snapshot, dir, depth, out).contains(x) <==> out.contains(x)
            || extractors::app_dirs_below(snapshot, dir, depth, Seq::empty()).contains(x),
    decreases 9 - depth, 1int, 0int,
{
    if 0 <= depth <= 8 {
        if let Some(names) = snapshot.names_at(dir) {
            names_add_up(snapshot, dir, depth, names, names.len() as int, out, x);
        }
    }
}

/// Whether a directory is reached from another one that is `depth` levels down: through directories that
/// are not generated, and no deeper than eight levels.
pub open spec fn is_reached(
    snapshot: SnapshotView,
    dir: Seq<char>,
    depth: int,
    way: Seq<Seq<char>>,
) -> bool
    decreases way.len(),
{
    &&& way.len() > 0
    &&& 0 <= depth <= 8
    &&& snapshot.names_at(dir) matches Some(names) && names.contains(way[0])
    &&& !text::starts_with_of(way[0], "."@) && way[0] != "node_modules"@ && way[0] != "target"@
        && way[0] != "dist"@
    &&& snapshot.dir_at(paths::join_of(dir, way[0]))
    &&& way.len() > 1 ==> is_reached(snapshot, paths::join_of(dir, way[0]), depth + 1, way.skip(1))
}

/// The directory that a way leads to.
pub open spec fn end_of(dir: Seq<char>, way: Seq<Seq<char>>) -> Seq<char>
    decreases way.len(),
{
    if way.len() == 0 {
        dir
    } else {
        end_of(paths::join_of(dir, way[0]), way.skip(1))
    }
}

proof fn what_a_name_brings(
    snapshot: SnapshotView,
    dir: Seq<char>,
    depth: int,
    names: Seq<Seq<char>>,
    k: int,
    i: int,
    x: Seq<char>,
)
    requires
        0 <= i < k <= names.len(),
        0 <= depth <= 8,
        !extractors::generated(names[i]),
        snapshot.dir_at(paths::join_of(dir, names[i])),
        (extractors::app_dir(snapshot, paths::join_of(dir, names[i])) && paths::relative_of(
            paths::join_of(dir, names[i]),
            snapshot.root,
        ) == Some(x)) || extractors::app_dirs_below(
            snapshot,
            paths::join_of(dir, names[i]),
            depth + 1,
            Seq::empty(),
        ).contains(x),
    ensures
        extractors::app_dirs_among(snapshot, dir, depth, names, k, Seq::empty()).contains(x),
    decreases k,
{
    let before = extractors::app_dirs_among(snapshot, dir, depth, names, k - 1, Seq::empty());
    let path = paths::join_of(dir, names[k - 1]);
    if i < k - 1 {
        what_a_name_brings(snapshot, dir, depth, names, k - 1, i, x);
    }
    if !extractors::generated(names[k - 1]) && snapshot.dir_at(path) {
        match paths::relative_of(path, snapshot.root) {
            Some(relative) => if extractors::app_dir(snapshot, path) {
                dict::members_are_added(before, relative, x);
                below_add_up(snapshot, path, depth + 1, dict::with_member(before, relative), x);
            } else {
                below_add_up(snapshot, path, depth + 1, before, x);
            },
            None => {
                below_add_up(snapshot, path, depth + 1, before, x);
            },
        }
    }
}

proof fn reached_apps_are_found(
    snapshot: SnapshotView,
    dir: Seq<char>,
    depth: int,
    way: Seq<Seq<char>>,
    x: Seq<char>,
)
    requires
        is_reached(snapshot, dir, depth, way),
        is_app_at(snapshot, end_of(dir, way)),
        paths::relative_of(end_of(dir, way), snapshot.root) == Some(x),
    ensures
        extractors::app_dirs_below(snapshot, dir, depth, Seq::empty()).contains(x),
    decreases way.len(),
{
    let names = snapshot.names_at(dir)->Some_0;
    let i = choose|i: int| 0 <= i < names.len() && names[i] == way[0];
    let path = paths::join_of(dir, way[0]);
    if way.len() > 1 {
        reached_apps_are_found(snapshot, path, depth + 1, way.skip(1), x);
    } else {
        assert(way.skip(1).len() == 0);
        assert(end_of(path, way.skip(1)) == path);
        assert(end_of(dir, way) == path);
        apps_are_marked(snapshot, path);
    }
    what_a_name_brings(snapshot, dir, depth, names, names.len() as int, i, x);
}

/// A workspace pattern `prefix/**` brings every app below the directory that is reached through
/// directories which are not generated.
pub proof fn nested_apps_are_found(
    snapshot: SnapshotView,
    prefix: Seq<char>,
    way: Seq<Seq<char>>,
    dir: Seq<char>,
)
    requires
        is_pattern(snapshot, prefix + "/**"@),
        is_reached(snapshot, paths::join_of(snapshot.root, prefix), 0, way),
        is_app_at(snapshot, end_of(paths::join_of(snapshot.root, prefix), way)),
        paths::relative_of(end_of(paths::join_of(snapshot.root, prefix), way), snapshot.root)
            == Some(dir),
    ensures
        has_app(snapshot, dir),
{
    let pattern = prefix + "/**"@;
    reveal_strlit("/**");
    assert(pattern.skip(pattern.len() - 3) =~= "/**"@);
    assert(pattern.take(pattern.len() - 3) =~= prefix);
    reached_apps_are_found(snapshot, paths::join_of(snapshot.root, prefix), 0, way, dir);
    what_is_matched_is_an_app(snapshot, pattern, dir);
}

/// Whether a directory conventionally holds apps.
pub open spec fn holds_apps(parent: Seq<char>) -> bool {
    parent == "apps"@ || parent == "packages"@ || parent == "services"@ || parent == "cmd"@ || parent
        == "web"@ || parent == "api"@
}

proof fn children_are_listed(
    snapshot: SnapshotView,
    dir: Seq<char>,
    names: Seq<Seq<char>>,
    k: int,
    i: int,
)
    requires
        0 <= i < k <= names.len(),
        is_app_at(snapshot, paths::join_of(dir, names[i])),
    ensures
        extractors::app_children(snapshot, dir, names, k).contains(names[i]),
    decreases k,
{
    let before = extractors::app_children(snapshot, dir, names, k - 1);
    let now = extractors::app_children(snapshot, dir, names, k);
    apps_are_marked(snapshot, paths::join_of(dir, names[k - 1]));
    if i < k - 1 {
        children_are_listed(snapshot, dir, names, k - 1, i);
        let j = choose|j: int| 0 <= j < before.len() && before[j] == names[i];
        assert(now[j] == names[i]);
    } else {
        assert(now[before.len() as int] == names[i]);
    }
}

proof fn parents_are_all_looked_at(
    snapshot: SnapshotView,
    parents: Seq<Seq<char>>,
    k: int,
    p: int,
    j: int,
) -> (at: int)
    requires
        0 <= p < k <= parents.len(),
        0 <= j < extractors::layout_apps(snapshot, parents[p]).len(),
    ensures
        0 <= at < extractors::layout_upto(snapshot, parents, k).len(),
        extractors::layout_upto(snapshot, parents, k)[at] == extractors::layout_apps(
            snapshot,
            parents[p],
        )[j],
    decreases k,
{
    if p < k - 1 {
        parents_are_all_looked_at(snapshot, parents, k - 1, p, j)
    } else {
        extractors::layout_upto(snapshot, parents, k - 1).len() + j
    }
}

proof fn nothing_is_matched(snapshot: SnapshotView)
    requires
        forall|pattern: Seq<char>| !#[trigger] is_pattern(snapshot, pattern),
    ensures
        extractors::package_dirs(snapshot).len() == 0,
{
    let a = extractors::pnpm_globs(snapshot);
    let b = extractors::npm_globs(snapshot);
    let c = extractors::lerna_globs(snapshot);
    if a.len() > 0 {
        assert(a.contains(a[0]));
        assert(is_pattern(snapshot, a[0]));
    }
    if b.len() > 0 {
        assert(b.contains(b[0]));
        assert(is_pattern(snapshot, b[0]));
    }
    if c.len() > 0 {
        assert(c.contains(c[0]));
        assert(is_pattern(snapshot, c[0]));
    }
}

proof fn laid_out_apps_are_apps(snapshot: SnapshotView, parent: Seq<char>, j: int)
    requires
        forall|pattern: Seq<char>| !#[trigger] is_pattern(snapshot, pattern),
        holds_apps(parent),
        0 <= j < extractors::layout_apps(snapshot, parent).len(),
    ensures
        has_app(snapshot, extractors::layout_apps(snapshot, parent)[j].dir),
{
    let parents = extractors::layout_parents();
    let p = if parent == "apps"@ {
        0
    } else if parent == "packages"@ {
        1
    } else if parent == "services"@ {
        2
    } else if parent == "cmd"@ {
        3
    } else if parent == "web"@ {
        4
    } else {
        5int
    };
    assert(parents[p] == parent);
    nothing_is_matched(snapshot);
    let at = parents_are_all_looked_at(snapshot, parents, parents.len() as int, p, j);
    assert(extractors::apps_of(snapshot)[at].dir == extractors::layout_apps(
        snapshot,
        parent,
    )[j].dir);
}

/// Where no workspace file lists any, the apps are those that lie in a conventional directory.
pub proof fn conventional_directories_are_looked_at(
    snapshot: SnapshotView,
    parent: Seq<char>,
    names: Seq<Seq<char>>,
    i: int,
)
    requires
        forall|pattern: Seq<char>| !#[trigger] is_pattern(snapshot, pattern),
        holds_apps(parent),
        snapshot.names_at(paths::join_of(snapshot.root, parent)) == Some(names),
        !is_app_at(snapshot, paths::join_of(snapshot.root, parent)),
        0 <= i < names.len(),
        is_app_at(snapshot, paths::join_of(paths::join_of(snapshot.root, parent), names[i])),
    ensures
        has_app(snapshot, parent + "/"@ + names[i]),
{
    broadcast use vstd::seq_lib::group_to_multiset_ensures;

    let dir = paths::join_of(snapshot.root, parent);
    apps_are_marked(snapshot, dir);
    children_are_listed(snapshot, dir, names, names.len() as int, i);
    let children = extractors::app_children(snapshot, dir, names, names.len() as int);
    let sorted = text::sorted_of(children);
    text::sorting_is_sound(children);
    assert(children.to_multiset().count(names[i]) > 0);
    assert(sorted.to_multiset().count(names[i]) > 0);
    assert(sorted.contains(names[i]));
    let j = choose|j: int| 0 <= j < sorted.len() && sorted[j] == names[i];
    assert(extractors::layout_apps(snapshot, parent)[j].dir == parent + "/"@ + names[i]);
    laid_out_apps_are_apps(snapshot, parent, j);
}

/// A conventional directory that is an app itself is that app, where no workspace file lists any.
pub proof fn conventional_directories_may_be_apps(snapshot: SnapshotView, parent: Seq<char>)
    requires
        forall|pattern: Seq<char>| !#[trigger] is_pattern(snapshot, pattern),
        holds_apps(parent),
        is_app_at(snapshot, paths::join_of(snapshot.root, parent)),
    ensures
        has_app(snapshot, parent),
{
    apps_are_marked(snapshot, paths::join_of(snapshot.root, parent));
    assert(extractors::layout_apps(snapshot, parent)[0].dir == parent);
    laid_out_apps_are_apps(snapshot, parent, 0);
}

/// Every app is installed as its own directory says, and an app that shares its name with another is
/// called after its directory.
pub proof fn apps_are_installed_where_they_are(snapshot: SnapshotView, i: int)
    requires
        0 <= i < extractors::apps_of(snapshot).len(),
    ensures
        ({
            let app = extractors::apps_of(snapshot)[i];
            let dir = if app.dir == "."@ {
                snapshot.root
            } else {
                paths::join_of(snapshot.root, app.dir)
            };
            &&& app.install == extractors::install_command_of(snapshot, dir)
            &&& app.install_inputs == extractors::install_inputs_of(snapshot, dir)
        }),
        forall|j: int|
            0 <= j < extractors::apps_of(snapshot).len() && j != i && (#[trigger] extractors::apps_of(
                snapshot,
            )[j]).id == extractors::apps_of(snapshot)[i].id ==> extractors::apps_of(snapshot)[i].id
                == text::replace_of(extractors::apps_of(snapshot)[i].dir, '/', "-"@)
                || extractors::apps_of(snapshot)[j].id == text::replace_of(
                extractors::apps_of(snapshot)[j].dir,
                '/',
                "-"@,
            ),
{
    let dirs = extractors::package_dirs(snapshot);
    let source = match extractors::workspace_tool(snapshot) {
        Some(tool) => tool.0,
        None => "layout"@,
    };
    let listed = extractors::listed_apps(dirs, source, dirs.len() as int);
    let apps = if listed.len() == 0 {
        extractors::apps_by_layout(snapshot)
    } else {
        listed
    };
    let named = extractors::told_apart(apps);
    let all = extractors::apps_of(snapshot);
    assert(all == extractors::installed(snapshot, named));
    assert(all[i].dir == apps[i].dir);
    assert forall|j: int| 0 <= j < all.len() && j != i && (#[trigger] all[j]).id == all[i].id implies all[i].id
        == text::replace_of(all[i].dir, '/', "-"@) || all[j].id == text::replace_of(
        all[j].dir,
        '/',
        "-"@,
    ) by {
        assert(all[j].dir == apps[j].dir);
        if !extractors::ambiguous(apps, i) && !extractors::ambiguous(apps, j) {
            assert(apps[j].id == apps[i].id);
            assert(extractors::ambiguous(apps, i));
        }
    }
}

} // verus!
