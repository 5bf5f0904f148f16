//! What holds of every manifest that is accepted, and of which manifests apply in a directory.

use crate::manifest;
use crate::manifest::{
    AppMetaView, AppView, FoundView, LoadedView, ManifestView, PortSpecView, ReadingView, Runtime,
    ServiceView, TargetView,
};
use crate::paths;
use crate::text;
use vstd::prelude::*;

verus! {

/// Whether a variable is one that magictree sets itself.
pub open spec fn is_reserved(key: Seq<char>) -> bool {
    key == "COMPOSE_PROJECT_NAME"@ || key == "COMPOSE_FILE"@ || exists|rest: Seq<char>|
        key == #[trigger] ("MAGICTREE_"@ + rest)
}

proof fn reserved_is_reserved(key: Seq<char>)
    ensures
        manifest::reserved_env(key) <==> is_reserved(key),
{
    let start = "MAGICTREE_"@;
    if text::starts_with_of(key, start) {
        let rest = key.skip(start.len() as int);
        assert(key =~= start + rest);
    }
    if exists|rest: Seq<char>| key == #[trigger] (start + rest) {
        let rest = choose|rest: Seq<char>| key == #[trigger] (start + rest);
        assert((start + rest).take(start.len() as int) =~= start);
    }
}

/// Whether a service runs in a container: as it says, or where it names a compose service.
pub open spec fn in_a_container(s: ServiceView) -> bool {
    s.runtime == Some(Runtime::Compose) || (s.runtime is None && s.compose is Some)
}

/// Whether there is one way to launch a service: a container has a compose file and a service in it,
/// and no command; a process on the host has a command or a target, and not both.
pub open spec fn has_one_way_to_launch(s: ServiceView) -> bool {
    if in_a_container(s) {
        &&& s.compose matches Some(reference)
        &&& reference.file.len() > 0
        &&& reference.service.len() > 0
        &&& s.target is None
        &&& s.command is None
    } else {
        &&& s.target is Some <==> s.command is None
        &&& s.target matches Some(TargetView::Uv { script, module, .. }) ==> script is Some
            || module is Some
    }
}

/// The port of a service at a place, its single one first.
pub open spec fn port_at(s: ServiceView, k: int) -> PortSpecView {
    match s.port {
        Some(port) => if k == 0 {
            port
        } else {
            s.ports[k - 1]
        },
        None => s.ports[k],
    }
}

/// What a port of a service is called: its name, or the id of the service.
pub open spec fn name_at(s: ServiceView, k: int) -> Seq<char> {
    match port_at(s, k).name {
        Some(name) => name,
        None => s.id,
    }
}

/// How many ports a service has.
pub open spec fn ports_in(s: ServiceView) -> int {
    s.ports.len() + (if s.port is Some {
        1int
    } else {
        0int
    })
}

/// Whether the ports of a service can be told apart, none both wants and insists on a number, and
/// none is published in a variable that magictree sets.
pub open spec fn ports_are_sound(s: ServiceView) -> bool {
    &&& forall|i: int, j: int|
        0 <= i < j < ports_in(s) ==> #[trigger] name_at(s, i) != #[trigger] name_at(s, j)
    &&& forall|i: int|
        0 <= i < ports_in(s) ==> !((#[trigger] port_at(s, i)).prefer is Some && port_at(
            s,
            i,
        ).require is Some)
    &&& forall|i: int|
        0 <= i < ports_in(s) ==> ((#[trigger] port_at(s, i)).env matches Some(variable)
            ==> !is_reserved(variable))
}

proof fn ports_at_places(s: ServiceView)
    ensures
        s.ports_of().len() == ports_in(s),
        forall|i: int|
            0 <= i < ports_in(s) ==> {
                let p = #[trigger] s.ports_of()[i];
                p.name == Some(name_at(s, i)) && p.prefer == port_at(s, i).prefer && p.require
                    == port_at(s, i).require && p.env == port_at(s, i).env
            },
{
}

/// Whether the ports from `k` on are sound, beside those before.
spec fn sound_from(s: ServiceView, k: int) -> bool {
    &&& forall|i: int, j: int|
        0 <= i < j < ports_in(s) && k <= j ==> #[trigger] name_at(s, i) != #[trigger] name_at(s, j)
    &&& forall|i: int|
        k <= i < ports_in(s) ==> !((#[trigger] port_at(s, i)).prefer is Some && port_at(
            s,
            i,
        ).require is Some)
    &&& forall|i: int|
        k <= i < ports_in(s) ==> ((#[trigger] port_at(s, i)).env matches Some(variable)
            ==> !is_reserved(variable))
}

proof fn port_errors(s: ServiceView, k: int)
    requires
        0 <= k <= ports_in(s),
    ensures
        manifest::port_error(s.ports_of(), k) is None <==> sound_from(s, k),
    decreases ports_in(s) - k,
{
    ports_at_places(s);
    if k < ports_in(s) {
        port_errors(s, k + 1);
        let all = s.ports_of();
        let names = manifest::port_names(all).take(k);
        assert(all[k].name == Some(name_at(s, k)));
        assert(port_at(s, k).env == all[k].env);
        if names.contains(name_at(s, k)) {
            let i = choose|i: int| 0 <= i < names.len() && names[i] == name_at(s, k);
            assert(all[i].name == Some(name_at(s, i)));
            assert(name_at(s, i) == name_at(s, k));
        } else {
            assert forall|i: int| 0 <= i < k implies #[trigger] name_at(s, i) != name_at(s, k) by {
                assert(all[i].name == Some(name_at(s, i)));
                assert(names[i] == name_at(s, i));
            }
        }
        if let Some(variable) = all[k].env {
            reserved_is_reserved(variable);
        }
        assert(sound_from(s, k) ==> sound_from(s, k + 1));
    }
}

/// Whether a manifest may be used: it has the version that is known, its services have ids of their
/// own, one way to be launched and sound ports, no job is called like a service, and no variable is
/// one that magictree sets.
pub open spec fn is_acceptable(m: ManifestView) -> bool {
    &&& m.version == 1
    &&& forall|i: int, j: int|
        0 <= i < j < m.services.len() ==> (#[trigger] m.services[i]).id != (
        #[trigger] m.services[j]).id
    &&& forall|i: int|
        0 <= i < m.services.len() ==> has_one_way_to_launch(#[trigger] m.services[i])
    &&& forall|i: int| 0 <= i < m.services.len() ==> ports_are_sound(#[trigger] m.services[i])
    &&& forall|i: int, j: int|
        0 <= i < m.services.len() && 0 <= j < m.jobs.len() ==> (#[trigger] m.services[i]).id != (
        #[trigger] m.jobs[j]).0
    &&& forall|i: int| 0 <= i < m.env.len() ==> !is_reserved((#[trigger] m.env[i]).0)
}

proof fn service_errors(services: Seq<ServiceView>, scope: Seq<char>, k: int)
    requires
        0 <= k <= services.len(),
    ensures
        manifest::service_error(services, scope, k) is None <==> {
            &&& forall|i: int, j: int|
                0 <= i < j < services.len() && k <= j ==> (#[trigger] services[i]).id != (
                #[trigger] services[j]).id
            &&& forall|i: int|
                k <= i < services.len() ==> has_one_way_to_launch(#[trigger] services[i])
            &&& forall|i: int| k <= i < services.len() ==> ports_are_sound(#[trigger] services[i])
        },
    decreases services.len() - k,
{
    if k < services.len() {
        service_errors(services, scope, k + 1);
        let s = services[k];
        let ids = manifest::service_ids(services).take(k);
        if ids.contains(s.id) {
            let i = choose|i: int| 0 <= i < ids.len() && ids[i] == s.id;
            assert(services[i].id == services[k].id);
        } else {
            assert forall|i: int| 0 <= i < k implies (#[trigger] services[i]).id != s.id by {
                assert(ids[i] == services[i].id);
            }
        }
        ports_at_places(s);
        port_errors(s, 0);
        assert(sound_from(s, 0) <==> ports_are_sound(s));
        assert(manifest::launch_error(s) is None <==> has_one_way_to_launch(s));
    }
}

proof fn overlaps(m: ManifestView, k: int)
    requires
        0 <= k <= m.jobs.len(),
    ensures
        manifest::overlap(m, k) is None <==> forall|i: int, j: int|
            0 <= i < m.services.len() && k <= j < m.jobs.len() ==> (#[trigger] m.services[i]).id
                != (#[trigger] m.jobs[j]).0,
    decreases m.jobs.len() - k,
{
    if k < m.jobs.len() {
        overlaps(m, k + 1);
        let ids = manifest::service_ids(m.services);
        if ids.contains(m.jobs[k].0) {
            let i = choose|i: int| 0 <= i < ids.len() && ids[i] == m.jobs[k].0;
            assert(m.services[i].id == m.jobs[k].0);
        } else {
            assert forall|i: int| 0 <= i < m.services.len() implies (#[trigger] m.services[i]).id
                != m.jobs[k].0 by {
                assert(ids[i] == m.services[i].id);
            }
        }
    }
}

proof fn reserved_keys(env: Seq<(Seq<char>, Seq<char>)>, k: int)
    requires
        0 <= k <= env.len(),
    ensures
        manifest::reserved_key(env, k) is None <==> forall|i: int|
            k <= i < env.len() ==> !is_reserved((#[trigger] env[i]).0),
    decreases env.len() - k,
{
    if k < env.len() {
        reserved_keys(env, k + 1);
        reserved_is_reserved(env[k].0);
    }
}

/// A manifest is refused exactly where it may not be used.
pub proof fn manifests_are_refused_for_cause(m: ManifestView, scope: Seq<char>)
    ensures
        manifest::manifest_error(m, scope) is None <==> is_acceptable(m),
{
    service_errors(m.services, scope, 0);
    overlaps(m, 0);
    reserved_keys(m.env, 0);
}

proof fn app_errors(apps: Seq<AppView>, k: int)
    requires
        0 <= k <= apps.len(),
    ensures
        manifest::app_error(apps, k) is None <==> {
            &&& forall|i: int, j: int|
                0 <= i < j < apps.len() && k <= j ==> (#[trigger] apps[i]).id != (
                #[trigger] apps[j]).id
            &&& forall|i: int|
                k <= i < apps.len() ==> is_acceptable((#[trigger] apps[i]).manifest)
        },
    decreases apps.len() - k,
{
    if k < apps.len() {
        app_errors(apps, k + 1);
        let ids = manifest::app_ids(apps).take(k);
        if ids.contains(apps[k].id) {
            let i = choose|i: int| 0 <= i < ids.len() && ids[i] == apps[k].id;
            assert(apps[i].id == apps[k].id);
        } else {
            assert forall|i: int| 0 <= i < k implies (#[trigger] apps[i]).id != apps[k].id by {
                assert(ids[i] == apps[i].id);
            }
        }
        manifests_are_refused_for_cause(apps[k].manifest, "app '"@ + apps[k].id + "'"@);
    }
}

/// What was loaded is refused exactly where one of its manifests may not be used, or two apps have
/// one id. A lone app is looked at once: it has no workspace around it.
pub proof fn workspaces_are_refused_for_cause(l: LoadedView)
    ensures
        manifest::loaded_error(l) is None <==> {
            &&& l.root_is_app || is_acceptable(l.workspace)
            &&& forall|i: int, j: int|
                0 <= i < j < l.apps.len() ==> (#[trigger] l.apps[i]).id != (#[trigger] l.apps[j]).id
            &&& forall|i: int|
                0 <= i < l.apps.len() ==> is_acceptable((#[trigger] l.apps[i]).manifest)
        },
{
    manifests_are_refused_for_cause(l.workspace, "workspace"@);
    app_errors(l.apps, 0);
}

/// Whether the manifest of a directory was read.
pub open spec fn is_read(found: Seq<FoundView>, dir: Seq<char>, m: ManifestView) -> bool {
    exists|i: int|
        0 <= i < found.len() && (#[trigger] found[i]).dir == dir && found[i].reading
            == ReadingView::Parsed(m) && forall|j: int|
            0 <= j < i ==> (#[trigger] found[j]).dir != dir
}

proof fn readings_are_first(found: Seq<FoundView>, dir: Seq<char>, k: int) -> (at: int)
    requires
        0 <= k <= found.len(),
    ensures
        match manifest::reading_at(found, dir, k) {
            Some(reading) => k <= at < found.len() && found[at].dir == dir && found[at].reading
                == reading && forall|j: int| k <= j < at ==> (#[trigger] found[j]).dir != dir,
            None => forall|j: int| k <= j < found.len() ==> (#[trigger] found[j]).dir != dir,
        },
    decreases found.len() - k,
{
    if k >= found.len() || found[k].dir == dir {
        k
    } else {
        readings_are_first(found, dir, k + 1)
    }
}

proof fn apps_are_loaded(
    found: Seq<FoundView>,
    dir: Seq<char>,
    rels: Seq<Seq<char>>,
    k: int,
    apps: Seq<AppView>,
)
    requires
        0 <= k <= rels.len(),
        apps.len() == k,
        forall|i: int| 0 <= i < k ==> app_is_listed(found, dir, rels[i], #[trigger] apps[i]),
        forall|i: int, j: int|
            0 <= i < j < apps.len() ==> (#[trigger] apps[i]).id != (#[trigger] apps[j]).id,
    ensures
        manifest::load_apps_of(found, dir, rels, k, apps) matches Ok(all) ==> {
            &&& all.len() == rels.len()
            &&& forall|i: int|
                0 <= i < all.len() ==> app_is_listed(found, dir, rels[i], #[trigger] all[i])
            &&& forall|i: int, j: int|
                0 <= i < j < all.len() ==> (#[trigger] all[i]).id != (#[trigger] all[j]).id
        },
    decreases rels.len() - k,
{
    if k < rels.len() {
        let app_dir = paths::join_of(dir, rels[k]);
        let at = readings_are_first(found, app_dir, 0);
        if let Some(ReadingView::Parsed(m)) = manifest::reading_at(found, app_dir, 0) {
            let id = manifest::app_id_of(app_dir, m);
            let ids = manifest::app_ids(apps);
            if !ids.contains(id) {
                let app = AppView { id, dir: app_dir, manifest: m };
                let now = apps.push(app);
                assert(found[at].dir == app_dir);
                assert(is_read(found, app_dir, m));
                assert forall|i: int, j: int| 0 <= i < j < now.len() implies (#[trigger] now[i]).id
                    != (#[trigger] now[j]).id by {
                    assert(ids[i] == apps[i].id);
                }
                assert forall|i: int| 0 <= i < k + 1 implies app_is_listed(
                    found,
                    dir,
                    rels[i],
                    #[trigger] now[i],
                ) by {
                    if i < k {
                        assert(now[i] == apps[i]);
                    }
                }
                apps_are_loaded(found, dir, rels, k + 1, now);
            }
        }
    }
}

/// Whether an app is what a workspace lists: its directory is the one listed, its manifest the one in
/// it, and its id the one that the manifest declares, or else the name of the directory.
pub open spec fn app_is_listed(
    found: Seq<FoundView>,
    dir: Seq<char>,
    rel: Seq<char>,
    app: AppView,
) -> bool {
    &&& app.dir == paths::join_of(dir, rel)
    &&& is_read(found, app.dir, app.manifest)
    &&& app.id == (match app.manifest.app {
        Some(AppMetaView { id: Some(id) }) => id,
        _ => paths::name_or(app.dir, "app"@),
    })
}

proof fn current_is_deepest(apps: Seq<AppView>, cwd: Seq<char>, k: int)
    requires
        0 <= k <= apps.len(),
    ensures
        match manifest::current_of(apps, cwd, k) {
            Some(i) => 0 <= i < k && paths::below(cwd, apps[i].dir) && forall|j: int|
                0 <= j < k && paths::below(cwd, (#[trigger] apps[j]).dir) ==> paths::depth_of(
                    apps[j].dir,
                ) <= paths::depth_of(apps[i].dir),
            None => forall|j: int| 0 <= j < k ==> !paths::below(cwd, (#[trigger] apps[j]).dir),
        },
    decreases k,
{
    if k > 0 {
        current_is_deepest(apps, cwd, k - 1);
    }
}

/// In the directory of a workspace or below it, where no manifest is nearer, the workspace is loaded
/// with the apps that it lists, one for each entry and in that order; and the directory stands in the
/// deepest app that it lies in, or in none.
pub proof fn workspaces_hold_what_they_list(cwd: Seq<char>, found: Seq<FoundView>, l: LoadedView)
    requires
        manifest::load_of(cwd, found) == Ok::<LoadedView, Seq<char>>(l),
    ensures
        !l.root_is_app ==> {
            &&& is_read(found, l.workspace_dir, l.workspace)
            &&& l.workspace.workspace matches Some(w)
            &&& l.apps.len() == w.apps.len()
            &&& forall|i: int|
                0 <= i < l.apps.len() ==> app_is_listed(
                    found,
                    l.workspace_dir,
                    w.apps[i],
                    #[trigger] l.apps[i],
                )
            &&& forall|i: int, j: int|
                0 <= i < j < l.apps.len() ==> (#[trigger] l.apps[i]).id != (#[trigger] l.apps[j]).id
            &&& l.current_app matches Some(id) ==> exists|i: int|
                0 <= i < l.apps.len() && (#[trigger] l.apps[i]).id == id
        },
        l.root_is_app ==> {
            &&& is_read(found, l.workspace_dir, l.workspace)
            &&& l.workspace.workspace is None
            &&& l.apps.len() == 1
            &&& l.apps[0].dir == l.workspace_dir
            &&& l.apps[0].manifest == l.workspace
            &&& l.current_app == Some(l.apps[0].id)
        },
{
    let dir = manifest::find_up_of(found, cwd).unwrap();
    nearest_is_read(found, cwd);
    let at = readings_are_first(found, dir, 0);
    assert(found[at].dir == dir);
    if let ReadingView::Parsed(nearest) = manifest::reading_at(found, dir, 0).unwrap() {
        assert(is_read(found, dir, nearest));
        match nearest.workspace {
            Some(w) => {
                apps_are_loaded(found, dir, w.apps, 0, Seq::empty());
                let apps = l.apps;
                current_is_deepest(apps, cwd, apps.len() as int);
            },
            None => {
                if let Some((above, ReadingView::Parsed(m))) = manifest::enclosing(dir, found) {
                    let parent = paths::parent_of(dir).unwrap();
                    nearest_is_read(found, parent);
                    let there = readings_are_first(found, above, 0);
                    assert(found[there].dir == above);
                    assert(is_read(found, above, m));
                    if let Some(w) = m.workspace {
                        apps_are_loaded(found, above, w.apps, 0, Seq::empty());
                        let ids = manifest::app_ids(l.apps);
                        let id = manifest::app_id_of(dir, nearest);
                        let i = choose|i: int| 0 <= i < ids.len() && ids[i] == id;
                        assert(l.apps[i].id == id);
                    }
                }
            },
        }
    }
}

proof fn nearest_is_read(found: Seq<FoundView>, dir: Seq<char>)
    ensures
        manifest::find_up_of(found, dir) matches Some(d) ==> manifest::reading_at(found, d, 0)
            is Some,
    decreases dir.len(),
{
    if manifest::reading_at(found, dir, 0) is None {
        if let Some(parent) = paths::parent_of(dir) {
            if parent.len() < dir.len() {
                nearest_is_read(found, parent);
            }
        }
    }
}

/// Where a command runs in a directory with a manifest of its own that lists apps, that manifest is
/// the workspace, and the directory stands in the deepest of the apps that it lies in.
pub proof fn the_nearest_manifest_decides(
    cwd: Seq<char>,
    found: Seq<FoundView>,
    m: ManifestView,
    l: LoadedView,
)
    requires
        is_read(found, cwd, m),
        manifest::load_of(cwd, found) == Ok::<LoadedView, Seq<char>>(l),
    ensures
        m.workspace is Some ==> {
            &&& l.workspace_dir == cwd
            &&& l.workspace == m
            &&& match l.current_app {
                Some(id) => exists|i: int|
                    0 <= i < l.apps.len() && (#[trigger] l.apps[i]).id == id && paths::below(
                        cwd,
                        l.apps[i].dir,
                    ) && forall|j: int|
                        0 <= j < l.apps.len() && paths::below(cwd, (#[trigger] l.apps[j]).dir)
                            ==> paths::depth_of(l.apps[j].dir) <= paths::depth_of(l.apps[i].dir),
                None => forall|j: int|
                    0 <= j < l.apps.len() ==> !paths::below(cwd, (#[trigger] l.apps[j]).dir),
            }
        },
        m.workspace is None ==> l.current_app == Some(
            match m.app {
                Some(AppMetaView { id: Some(id) }) => id,
                _ => paths::name_or(cwd, "app"@),
            },
        ),
{
    let i = choose|i: int|
        0 <= i < found.len() && (#[trigger] found[i]).dir == cwd && found[i].reading
            == ReadingView::Parsed(m) && forall|j: int|
            0 <= j < i ==> (#[trigger] found[j]).dir != cwd;
    let at = readings_are_first(found, cwd, 0);
    assert(found[i].dir == cwd);
    assert(at == i);
    assert(manifest::reading_at(found, cwd, 0) == Some(ReadingView::Parsed(m)));
    if m.workspace is Some {
        current_is_deepest(l.apps, cwd, l.apps.len() as int);
        if let Some(a) = manifest::current_of(l.apps, cwd, l.apps.len() as int) {
            assert(l.apps[a].id == l.current_app.unwrap());
        }
    }
}

proof fn listed_apps_load(
    found: Seq<FoundView>,
    dir: Seq<char>,
    rels: Seq<Seq<char>>,
    apps: Seq<AppView>,
    k: int,
)
    requires
        0 <= k <= rels.len(),
        apps.len() == rels.len(),
        forall|i: int| 0 <= i < rels.len() ==> app_is_listed(found, dir, rels[i], #[trigger] apps[i]),
        forall|i: int, j: int|
            0 <= i < j < apps.len() ==> (#[trigger] apps[i]).id != (#[trigger] apps[j]).id,
    ensures
        manifest::load_apps_of(found, dir, rels, k, apps.take(k)) == Ok::<Seq<AppView>, Seq<char>>(
            apps,
        ),
    decreases rels.len() - k,
{
    if k < rels.len() {
        let app = apps[k];
        let at = readings_are_first(found, app.dir, 0);
        assert(app_is_listed(found, dir, rels[k], apps[k]));
        let i = choose|i: int|
            0 <= i < found.len() && (#[trigger] found[i]).dir == app.dir && found[i].reading
                == ReadingView::Parsed(app.manifest) && forall|j: int|
                0 <= j < i ==> (#[trigger] found[j]).dir != app.dir;
        assert(found[i].dir == app.dir);
        assert(at == i);
        let ids = manifest::app_ids(apps.take(k));
        if ids.contains(app.id) {
            let j = choose|j: int| 0 <= j < ids.len() && ids[j] == app.id;
            assert(apps[j].id == apps[k].id);
        }
        assert(apps.take(k).push(app) =~= apps.take(k + 1));
        listed_apps_load(found, dir, rels, apps, k + 1);
    } else {
        assert(apps.take(k) =~= apps);
    }
}

/// A workspace whose listed apps can all be read, and have ids of their own, is loaded with them.
pub proof fn whole_workspaces_load(
    cwd: Seq<char>,
    found: Seq<FoundView>,
    m: ManifestView,
    apps: Seq<AppView>,
)
    requires
        is_read(found, cwd, m),
        m.workspace matches Some(w) && apps.len() == w.apps.len() && forall|i: int|
            0 <= i < apps.len() ==> app_is_listed(found, cwd, w.apps[i], #[trigger] apps[i]),
        forall|i: int, j: int|
            0 <= i < j < apps.len() ==> (#[trigger] apps[i]).id != (#[trigger] apps[j]).id,
    ensures
        manifest::load_of(cwd, found) matches Ok(l) && l.workspace_dir == cwd && l.workspace == m
            && l.apps == apps && !l.root_is_app,
{
    let i = choose|i: int|
        0 <= i < found.len() && (#[trigger] found[i]).dir == cwd && found[i].reading
            == ReadingView::Parsed(m) && forall|j: int|
            0 <= j < i ==> (#[trigger] found[j]).dir != cwd;
    let at = readings_are_first(found, cwd, 0);
    assert(found[i].dir == cwd);
    assert(at == i);
    listed_apps_load(found, cwd, m.workspace.unwrap().apps, apps, 0);
    assert(apps.take(0) =~= Seq::<AppView>::empty());
}

proof fn nothing_is_above(found: Seq<FoundView>, cwd: Seq<char>, dir: Seq<char>)
    requires
        dir.len() < cwd.len(),
        forall|i: int| 0 <= i < found.len() ==> (#[trigger] found[i]).dir == cwd,
    ensures
        manifest::find_up_of(found, dir) is None,
    decreases dir.len(),
{
    let at = readings_are_first(found, dir, 0);
    if let Some(parent) = paths::parent_of(dir) {
        if parent.len() < dir.len() {
            nothing_is_above(found, cwd, parent);
        }
    }
}

/// A manifest that lists no apps, with no other around it, is an app on its own.
pub proof fn a_lone_manifest_is_an_app(cwd: Seq<char>, found: Seq<FoundView>, m: ManifestView)
    requires
        is_read(found, cwd, m),
        m.workspace is None,
        forall|i: int| 0 <= i < found.len() ==> (#[trigger] found[i]).dir == cwd,
        paths::parent_of(cwd) matches Some(parent) ==> parent.len() < cwd.len(),
    ensures
        manifest::load_of(cwd, found) matches Ok(l) && l.root_is_app && l.workspace_dir == cwd
            && l.workspace == m && l.apps.len() == 1 && l.apps[0].manifest == m && l.apps[0].dir
            == cwd,
{
    let i = choose|i: int|
        0 <= i < found.len() && (#[trigger] found[i]).dir == cwd && found[i].reading
            == ReadingView::Parsed(m) && forall|j: int|
            0 <= j < i ==> (#[trigger] found[j]).dir != cwd;
    let at = readings_are_first(found, cwd, 0);
    assert(found[i].dir == cwd);
    assert(at == i);
    if let Some(parent) = paths::parent_of(cwd) {
        nothing_is_above(found, cwd, parent);
    }
}

} // verus!
