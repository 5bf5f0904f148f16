//! What holds of every stack, across selecting, previewing, starting, restarting and stopping it.

use crate::cli;
use crate::cli::start;
use crate::ctx;
use crate::ctx::Selectors;
use crate::dict;
use crate::lists;
use crate::manifest;
use crate::manifest::{LoadedView, NodeKindView, NodeView, Runtime, When};
use crate::ports::{PortMode, PortRequestView};
use crate::text;
use vstd::prelude::*;

verus! {

/// Whether the nodes of a set, where they are chosen, are all that a command line selects.
pub open spec fn holds_chosen(
    l: LoadedView,
    s: Selectors,
    nodes: Seq<NodeView>,
    set: Set<usize>,
) -> bool {
    forall|i: usize|
        #![trigger set.contains(i)]
        i < nodes.len() && ctx::chosen(l, s, nodes)(i as int) ==> set.contains(i)
}

/// What a command line selects starts whole: every node that it chooses is there once, the services
/// that all apps share come with anything that belongs to an app, each node comes after everything
/// it needs, and nothing else is started: the selection stays inside every set of nodes that holds
/// what was chosen and what its own members need.
pub proof fn selections_are_whole(
    l: LoadedView,
    s: Selectors,
    nodes: Seq<NodeView>,
    edges: Seq<Seq<usize>>,
    set: Set<usize>,
)
    requires
        manifest::resolved(nodes, edges),
        nodes.len() <= usize::MAX,
        manifest::closed_under(edges, set),
        holds_chosen(l, s, nodes, set),
    ensures
        ctx::scope_of(l, s, nodes, edges) matches Ok(d) ==> {
            &&& d.no_duplicates()
            &&& forall|x: usize| #[trigger] d.contains(x) ==> x < nodes.len() && set.contains(x)
            &&& forall|i: usize|
                i < nodes.len() && ctx::chosen(l, s, nodes)(i as int) ==> #[trigger] d.contains(i)
            &&& ctx::brings_shared(l, s, nodes) ==> forall|i: usize|
                i < nodes.len() && ctx::is_shared(nodes[i as int]) ==> #[trigger] d.contains(i)
            &&& forall|k: int, j: int|
                0 <= k < d.len() && 0 <= j < edges[d[k] as int].len() ==> d.take(k).contains(
                    #[trigger] edges[d[k] as int][j],
                )
        },
{
    let p = ctx::chosen(l, s, nodes);
    let selection = lists::indices(nodes.len() as int, p);
    lists::indices_are_exact(nodes.len() as int, p);
    ctx::edges_form_a_graph(nodes, edges);
    assert forall|i: int| 0 <= i < selection.len() implies #[trigger] selection[i]
        < edges.len() by {
        assert(selection.contains(selection[i]));
    }
    assert forall|x: usize| #[trigger] selection.contains(x) implies set.contains(x) by {
        assert(x < nodes.len() && p(x as int));
    }
    manifest::order_is_sound(nodes, edges, selection, set);
    if let Ok(d) = ctx::scope_of(l, s, nodes, edges) {
        assert forall|i: usize| i < nodes.len() && p(i as int) implies #[trigger] d.contains(i) by {
            assert(selection.contains(i));
        }
        if ctx::brings_shared(l, s, nodes) {
            assert forall|i: usize|
                i < nodes.len() && ctx::is_shared(nodes[i as int]) implies #[trigger] d.contains(i) by {
                assert(ctx::selected(l, s, nodes, nodes[i as int]));
                assert(p(i as int));
            }
        }
    }
}

/// A manual job never runs unattended: it is selected only where it is itself named, or where
/// another node of the selection needs it.
pub proof fn manual_jobs_wait_to_be_named(
    l: LoadedView,
    s: Selectors,
    nodes: Seq<NodeView>,
    edges: Seq<Seq<usize>>,
    x: usize,
)
    requires
        manifest::resolved(nodes, edges),
        nodes.len() <= usize::MAX,
        x < nodes.len(),
        ctx::is_manual(nodes[x as int]),
    ensures
        ctx::scope_of(l, s, nodes, edges) matches Ok(d) ==> d.contains(x) ==> ctx::called(
            s,
            nodes[x as int],
        ) || exists|y: usize| #[trigger] d.contains(y) && y != x && edges[y as int].contains(x),
{
    if let Ok(d) = ctx::scope_of(l, s, nodes, edges) {
        selections_are_whole(l, s, nodes, edges, Set::full());
        if d.contains(x) && !ctx::called(s, nodes[x as int]) && !exists|y: usize| #[trigger]
            d.contains(y) && y != x && edges[y as int].contains(x) {
            let rest = Set::new(|y: usize| d.contains(y) && y != x);
            assert(!ctx::chosen(l, s, nodes)(x as int));
            assert(manifest::closed_under(edges, rest)) by {
                assert forall|y: usize, j: int|
                    rest.contains(y) && 0 <= j < edges[y as int].len() implies rest.contains(
                    #[trigger] edges[y as int][j],
                ) by {
                    let k = choose|k: int| 0 <= k < d.len() && d[k] == y;
                    let need = edges[d[k] as int][j];
                    assert(d.take(k).contains(need));
                    let m = choose|m: int| 0 <= m < d.take(k).len() && d.take(k)[m] == need;
                    assert(d[m] == need);
                    assert(d.contains(need));
                    assert(edges[y as int].contains(need));
                }
            }
            assert(holds_chosen(l, s, nodes, rest)) by {
                assert forall|i: usize|
                    i < nodes.len() && ctx::chosen(l, s, nodes)(i as int) implies #[trigger] rest.contains(
                    i,
                ) by {
                    assert(d.contains(i));
                }
            }
            selections_are_whole(l, s, nodes, edges, rest);
            assert(rest.contains(x));
        }
    }
}

proof fn gathers<A, T>(list: Seq<A>, f: spec_fn(A) -> Seq<T>, k: int, i: int, j: int) -> (at: int)
    requires
        0 <= i < k <= list.len(),
        0 <= j < f(list[i]).len(),
    ensures
        0 <= at < lists::gather(list, f, k).len(),
        lists::gather(list, f, k)[at] == f(list[i])[j],
    decreases k,
{
    if i == k - 1 {
        lists::gather(list, f, k - 1).len() as int + j
    } else {
        gathers(list, f, k - 1, i, j)
    }
}

proof fn singles<A, T>(list: Seq<A>, f: spec_fn(A) -> Seq<T>, k: int)
    requires
        0 <= k <= list.len(),
        forall|i: int| 0 <= i < list.len() ==> f(#[trigger] list[i]).len() == 1,
    ensures
        lists::gather(list, f, k).len() == k,
        forall|i: int| 0 <= i < k ==> (#[trigger] lists::gather(list, f, k)[i]) == f(list[i])[0],
    decreases k,
{
    if k > 0 {
        singles(list, f, k - 1);
    }
}

/// A dry run shows a port for everything that a real run would ask a port for.
pub proof fn previews_cover_requests(
    nodes: Seq<NodeView>,
    mode: PortMode,
    i: int,
    j: int,
)
    requires
        0 <= i < nodes.len(),
        0 <= j < ctx::requests_of(nodes[i]).len(),
    ensures
        dict::lookup(ctx::preview_ports(nodes, mode), ctx::requests_of(nodes[i])[j].name) is Some,
{
    let node = nodes[i];
    let service = node.service_of().unwrap();
    let declared = service.ports_of();
    let requests = ctx::request_for(node);
    let shown = ctx::preview_port(node, mode);
    singles(declared, requests, declared.len() as int);
    singles(declared, shown, declared.len() as int);
    let own = ctx::preview_of(mode)(node);
    assert(own == lists::gathered(declared, shown));
    let request = ctx::requests_of(node)[j];
    assert(request == requests(declared[j])[0]);
    assert(own[j] == shown(declared[j])[0]);
    assert(own[j].0 == request.name);
    let all = lists::gathered(nodes, ctx::preview_of(mode));
    let at = gathers(nodes, ctx::preview_of(mode), nodes.len() as int, i, j);
    assert(all[at].0 == request.name);
    dict::put_all_keys(Seq::<(Seq<char>, u16)>::empty(), all, request.name);
}

/// A restart touches exactly the services that are named, each once, a named dependency before its
/// named users.
pub proof fn restarts_touch_what_is_named(
    nodes: Seq<NodeView>,
    edges: Seq<Seq<usize>>,
    names: Seq<Seq<char>>,
)
    requires
        manifest::resolved(nodes, edges),
        nodes.len() <= usize::MAX,
    ensures
        cli::restart_of(nodes, edges, names) matches Ok(d) ==> {
            &&& d.no_duplicates()
            &&& forall|x: usize| #[trigger]
                d.contains(x) <==> x < nodes.len() && cli::is_restarted(nodes, names)(x as int)
            &&& forall|k: int, j: int|
                0 <= k < d.len() && 0 <= j < edges[d[k] as int].len() && d.contains(
                    edges[d[k] as int][j],
                ) ==> d.take(k).contains(#[trigger] edges[d[k] as int][j])
        },
{
    let p = cli::is_restarted(nodes, names);
    let selection = lists::indices(nodes.len() as int, p);
    lists::indices_are_exact(nodes.len() as int, p);
    ctx::edges_form_a_graph(nodes, edges);
    assert forall|i: int| 0 <= i < selection.len() implies #[trigger] selection[i]
        < edges.len() by {
        assert(selection.contains(selection[i]));
    }
    manifest::order_selected_is_sound(nodes, edges, selection);
    if let Ok(d) = cli::restart_of(nodes, edges, names) {
        assert forall|x: usize| #[trigger] d.contains(x) <==> x < nodes.len() && p(x as int) by {
            assert(d.contains(x) <==> selection.contains(x));
        }
        assert forall|k: int, j: int|
            0 <= k < d.len() && 0 <= j < edges[d[k] as int].len() && d.contains(
                edges[d[k] as int][j],
            ) implies d.take(k).contains(#[trigger] edges[d[k] as int][j]) by {
            assert(selection.contains(edges[d[k] as int][j]));
        }
    }
}

proof fn reversed_position(nodes: Seq<NodeView>, order: Seq<usize>, k: int, a: int) -> (at: int)
    requires
        0 <= k <= order.len(),
        0 <= a < start::hosts_reversed(nodes, order, k).len(),
    ensures
        0 <= at < k,
        order[at] == start::hosts_reversed(nodes, order, k)[a],
        nodes[order[at] as int].runtime_of() == Some(Runtime::Host),
    decreases k,
{
    if nodes[order[k - 1] as int].runtime_of() == Some(Runtime::Host) {
        if a == 0 {
            k - 1
        } else {
            reversed_position(nodes, order, k - 1, a - 1)
        }
    } else {
        reversed_position(nodes, order, k - 1, a)
    }
}

proof fn reversed_positions(
    nodes: Seq<NodeView>,
    order: Seq<usize>,
    k: int,
    a: int,
    b: int,
) -> (at: (int, int))
    requires
        0 <= k <= order.len(),
        0 <= a < b < start::hosts_reversed(nodes, order, k).len(),
    ensures
        0 <= at.1 < at.0 < k,
        order[at.0] == start::hosts_reversed(nodes, order, k)[a],
        order[at.1] == start::hosts_reversed(nodes, order, k)[b],
    decreases k,
{
    if nodes[order[k - 1] as int].runtime_of() == Some(Runtime::Host) {
        if a == 0 {
            (k - 1, reversed_position(nodes, order, k - 1, b - 1))
        } else {
            reversed_positions(nodes, order, k - 1, a - 1, b - 1)
        }
    } else {
        reversed_positions(nodes, order, k - 1, a, b)
    }
}

/// No service is stopped before one that needs it.
pub proof fn services_stop_before_what_they_need(
    nodes: Seq<NodeView>,
    edges: Seq<Seq<usize>>,
    a: int,
    b: int,
)
    requires
        manifest::resolved(nodes, edges),
        nodes.len() <= usize::MAX,
        start::stop_order_of(nodes, edges) matches Ok(v) && 0 <= a < b < v.len(),
    ensures
        ({
            let v = start::stop_order_of(nodes, edges)->Ok_0;
            v[a] != v[b] && !edges[v[b] as int].contains(v[a])
        }),
{
    let services = ctx::service_indices(nodes);
    lists::indices_are_exact(nodes.len() as int, |i: int| nodes[i].service_of() is Some);
    ctx::edges_form_a_graph(nodes, edges);
    assert forall|i: int| 0 <= i < services.len() implies #[trigger] services[i]
        < edges.len() by {
        assert(services.contains(services[i]));
    }
    manifest::order_is_sound(nodes, edges, services, Set::full());
    let d = manifest::order_of(nodes, edges, services)->Ok_0;
    let v = start::stop_order_of(nodes, edges)->Ok_0;
    let (x, y) = reversed_positions(nodes, d, d.len() as int, a, b);
    if edges[v[b] as int].contains(v[a]) {
        let needs = edges[d[y] as int];
        let j = choose|j: int| 0 <= j < needs.len() && needs[j] == v[a];
        assert(d.take(y).contains(edges[d[y] as int][j]));
        let m = choose|m: int| 0 <= m < d.take(y).len() && d.take(y)[m] == d[x];
        assert(d[m] == d[x]);
    }
}

/// Whether a node is a service.
pub open spec fn is_service(node: NodeView) -> bool {
    node.kind is Service
}

/// Whether a node is a job that runs on every `up` of its scope.
pub open spec fn runs_on_up(node: NodeView) -> bool {
    node.kind matches NodeKindView::Job(job) && job.when == When::Up
}

/// Whether a node is a job that only runs when it is named.
pub open spec fn runs_when_named(node: NodeView) -> bool {
    node.kind matches NodeKindView::Job(job) && job.when == When::Manual
}

/// Nothing on the command line.
pub open spec fn no_selectors() -> Selectors {
    Selectors { services: Seq::empty(), apps: Seq::empty(), all: false }
}

/// Whether a service name on the command line means a node: its id, or `app:id`.
pub open spec fn is_called(s: Selectors, node: NodeView) -> bool {
    exists|k: int|
        0 <= k < s.services.len() && (#[trigger] s.services[k] == node.id || manifest::goes_by(
            node,
            s.services[k],
        ))
}

/// Whether an app name on the command line means the app of a node.
pub open spec fn app_is_called(s: Selectors, node: NodeView) -> bool {
    node.app matches Some(app) && exists|k: int| 0 <= k < s.apps.len() && #[trigger] s.apps[k] == app
}

/// Whether the command line asks for a node by its own name or by that of its app.
pub open spec fn is_asked_for(s: Selectors, node: NodeView) -> bool {
    is_called(s, node) || (app_is_called(s, node) && !runs_when_named(node))
}

proof fn asking_is_naming(l: LoadedView, s: Selectors, node: NodeView)
    requires
        s.explicit(),
        !s.all,
    ensures
        ctx::named(l, s, node) <==> is_asked_for(s, node),
{
    let qual = node.qual_of();
    assert(manifest::goes_by(node, qual));
    if s.services.contains(node.id) {
        let k = choose|k: int| 0 <= k < s.services.len() && s.services[k] == node.id;
        assert(s.services[k] == node.id);
    }
    if s.services.contains(qual) {
        let k = choose|k: int| 0 <= k < s.services.len() && s.services[k] == qual;
        assert(manifest::goes_by(node, s.services[k]));
    }
    if is_called(s, node) {
        let k = choose|k: int|
            0 <= k < s.services.len() && (#[trigger] s.services[k] == node.id || manifest::goes_by(
                node,
                s.services[k],
            ));
        assert(s.services.contains(s.services[k]));
        assert(s.services[k] == node.id || s.services[k] == qual);
    }
    if let Some(app) = node.app {
        if s.apps.contains(app) {
            let k = choose|k: int| 0 <= k < s.apps.len() && s.apps[k] == app;
            assert(s.apps[k] == app);
        }
        if app_is_called(s, node) {
            let k = choose|k: int| 0 <= k < s.apps.len() && #[trigger] s.apps[k] == app;
            assert(s.apps.contains(app));
        }
    }
}

/// Standing in an app of a workspace selects that app and what the repository shares, and nothing
/// beyond it: the selection holds every service of the app and every shared service, and stays inside
/// every set of nodes that holds those, the `up` jobs of the app and of the workspace, and what its
/// own members need. So a service of another app is only there where something selected needs it.
pub proof fn standing_in_an_app_selects_that_app(
    l: LoadedView,
    nodes: Seq<NodeView>,
    edges: Seq<Seq<usize>>,
    set: Set<usize>,
)
    requires
        manifest::resolved(nodes, edges),
        nodes.len() <= usize::MAX,
        !l.root_is_app,
        l.current_app is Some,
        manifest::closed_under(edges, set),
        forall|i: usize|
            i < nodes.len() && (nodes[i as int].app == l.current_app || nodes[i as int].app is None)
                && (is_service(nodes[i as int]) || runs_on_up(nodes[i as int]))
                ==> #[trigger] set.contains(i),
    ensures
        ctx::scope_of(l, no_selectors(), nodes, edges) matches Ok(d) ==> {
            &&& forall|x: usize| #[trigger] d.contains(x) ==> x < nodes.len() && set.contains(x)
            &&& forall|i: usize|
                i < nodes.len() && is_service(nodes[i as int]) && (nodes[i as int].app
                    == l.current_app || nodes[i as int].app is None) ==> #[trigger] d.contains(i)
            &&& forall|i: usize|
                i < nodes.len() && runs_on_up(nodes[i as int]) && (nodes[i as int].app is None || (
                nodes[i as int].app == l.current_app && exists|j: int|
                    0 <= j < nodes.len() && is_service(#[trigger] nodes[j]) && nodes[j].app
                        == l.current_app)) ==> #[trigger] d.contains(i)
        },
        ctx::scope_of(l, no_selectors(), nodes, edges) matches Err(e) ==> exists|c: Seq<usize>|
            #[trigger] manifest::cycle(edges, c),
{
    let s = no_selectors();
    assert forall|i: usize|
        i < nodes.len() && ctx::chosen(l, s, nodes)(i as int) implies #[trigger] set.contains(i) by {
        let node = nodes[i as int];
        if !ctx::selected(l, s, nodes, node) {
            if let Some(app) = node.app {
                let j = choose|j: int|
                    0 <= j < nodes.len() && ctx::named(l, s, #[trigger] nodes[j]) && nodes[j].app
                        == Some(app);
                assert(nodes[j].app == l.current_app);
            }
        }
    }
    selections_are_whole(l, s, nodes, edges, set);
    if let Ok(d) = ctx::scope_of(l, s, nodes, edges) {
        assert forall|i: usize|
            i < nodes.len() && is_service(nodes[i as int]) && (nodes[i as int].app == l.current_app
                || nodes[i as int].app is None) implies #[trigger] d.contains(i) by {
            assert(ctx::selected(l, s, nodes, nodes[i as int]));
            assert(ctx::chosen(l, s, nodes)(i as int));
        }
        assert forall|i: usize|
            i < nodes.len() && runs_on_up(nodes[i as int]) && (nodes[i as int].app is None || (
            nodes[i as int].app == l.current_app && exists|j: int|
                0 <= j < nodes.len() && is_service(#[trigger] nodes[j]) && nodes[j].app
                    == l.current_app)) implies #[trigger] d.contains(i) by {
            if nodes[i as int].app is Some {
                let j = choose|j: int|
                    0 <= j < nodes.len() && is_service(#[trigger] nodes[j]) && nodes[j].app
                        == l.current_app;
                assert(ctx::named(l, s, nodes[j]));
            }
            assert(ctx::comes_along(l, s, nodes, nodes[i as int]));
            assert(ctx::chosen(l, s, nodes)(i as int));
        }
    }
    refused_selections_have_a_cycle(l, s, nodes, edges);
}

proof fn refused_selections_have_a_cycle(
    l: LoadedView,
    s: Selectors,
    nodes: Seq<NodeView>,
    edges: Seq<Seq<usize>>,
)
    requires
        manifest::resolved(nodes, edges),
        nodes.len() <= usize::MAX,
        !s.explicit() || s.all || exists|i: int|
            0 <= i < nodes.len() && ctx::named(l, s, #[trigger] nodes[i]),
    ensures
        ctx::scope_of(l, s, nodes, edges) is Err ==> exists|c: Seq<usize>| #[trigger]
            manifest::cycle(edges, c),
{
    let p = ctx::chosen(l, s, nodes);
    let selection = lists::indices(nodes.len() as int, p);
    lists::indices_are_exact(nodes.len() as int, p);
    ctx::edges_form_a_graph(nodes, edges);
    assert forall|i: int| 0 <= i < selection.len() implies #[trigger] selection[i]
        < edges.len() by {
        assert(selection.contains(selection[i]));
    }
    manifest::order_is_sound(nodes, edges, selection, Set::full());
}

/// `--all`, or no selector where there is no app to stand in, selects the whole repository: every
/// service, and with each app that has a service its `up` jobs. A manual job is not part of it unless
/// something needs it.
pub proof fn everything_is_selected_from_the_root(
    l: LoadedView,
    s: Selectors,
    nodes: Seq<NodeView>,
    edges: Seq<Seq<usize>>,
    set: Set<usize>,
)
    requires
        manifest::resolved(nodes, edges),
        nodes.len() <= usize::MAX,
        s.all || (s.services.len() == 0 && s.apps.len() == 0 && (l.root_is_app || l.current_app
            is None)),
        manifest::closed_under(edges, set),
        forall|i: usize|
            i < nodes.len() && !runs_when_named(nodes[i as int]) ==> #[trigger] set.contains(i),
    ensures
        ctx::scope_of(l, s, nodes, edges) matches Ok(d) ==> {
            &&& forall|x: usize| #[trigger] d.contains(x) ==> x < nodes.len() && set.contains(x)
            &&& forall|i: usize|
                i < nodes.len() && is_service(nodes[i as int]) ==> #[trigger] d.contains(i)
            &&& forall|i: usize|
                i < nodes.len() && runs_on_up(nodes[i as int]) && (exists|j: int|
                    0 <= j < nodes.len() && is_service(#[trigger] nodes[j]) && nodes[j].app
                        == nodes[i as int].app) ==> #[trigger] d.contains(i)
        },
        ctx::scope_of(l, s, nodes, edges) matches Err(e) ==> exists|c: Seq<usize>| #[trigger]
            manifest::cycle(edges, c),
{
    selections_are_whole(l, s, nodes, edges, set);
    if let Ok(d) = ctx::scope_of(l, s, nodes, edges) {
        assert forall|i: usize| i < nodes.len() && is_service(nodes[i as int]) implies
            #[trigger] d.contains(i) by {
            assert(ctx::chosen(l, s, nodes)(i as int));
        }
        assert forall|i: usize|
            i < nodes.len() && runs_on_up(nodes[i as int]) && (exists|j: int|
                0 <= j < nodes.len() && is_service(#[trigger] nodes[j]) && nodes[j].app
                    == nodes[i as int].app) implies #[trigger] d.contains(i) by {
            let j = choose|j: int|
                0 <= j < nodes.len() && is_service(#[trigger] nodes[j]) && nodes[j].app
                    == nodes[i as int].app;
            assert(ctx::named(l, s, nodes[j]));
            assert(ctx::selected(l, s, nodes, nodes[j]));
            assert(ctx::comes_along(l, s, nodes, nodes[i as int]));
            assert(ctx::chosen(l, s, nodes)(i as int));
        }
    }
    refused_selections_have_a_cycle(l, s, nodes, edges);
}

/// What is named is selected, with what it needs and what the repository shares, and nothing else: a
/// node by its id or by `app:id`, and everything of a named app but its manual jobs. Where anything
/// that is named belongs to an app, every shared service comes with it. The selection stays inside
/// every set of nodes that holds what is named, the shared services where they come, the `up` jobs of
/// the named apps and of the workspace, and what its own members need. Selectors that name nothing
/// are refused.
pub proof fn what_is_named_is_selected(
    l: LoadedView,
    s: Selectors,
    nodes: Seq<NodeView>,
    edges: Seq<Seq<usize>>,
    set: Set<usize>,
)
    requires
        manifest::resolved(nodes, edges),
        nodes.len() <= usize::MAX,
        s.services.len() > 0 || s.apps.len() > 0,
        !s.all,
        manifest::closed_under(edges, set),
        forall|i: usize|
            i < nodes.len() && is_asked_for(s, nodes[i as int]) ==> #[trigger] set.contains(i),
        (exists|j: int|
            0 <= j < nodes.len() && is_asked_for(s, #[trigger] nodes[j]) && nodes[j].app is Some)
            ==> forall|i: usize|
            i < nodes.len() && is_service(nodes[i as int]) && nodes[i as int].app is None
                ==> #[trigger] set.contains(i),
        forall|i: usize|
            i < nodes.len() && runs_on_up(nodes[i as int]) && (nodes[i as int].app is None || exists|
                j: int,
            |
                0 <= j < nodes.len() && is_asked_for(s, #[trigger] nodes[j]) && nodes[j].app
                    == nodes[i as int].app) ==> #[trigger] set.contains(i),
    ensures
        (forall|i: int| 0 <= i < nodes.len() ==> !is_asked_for(s, #[trigger] nodes[i]))
            ==> ctx::scope_of(l, s, nodes, edges) is Err,
        (exists|i: int| 0 <= i < nodes.len() && is_asked_for(s, #[trigger] nodes[i])) ==> (
        ctx::scope_of(l, s, nodes, edges) is Err ==> exists|c: Seq<usize>| #[trigger]
            manifest::cycle(edges, c)),
        ctx::scope_of(l, s, nodes, edges) matches Ok(d) ==> {
            &&& forall|x: usize| #[trigger] d.contains(x) ==> x < nodes.len() && set.contains(x)
            &&& forall|i: usize|
                i < nodes.len() && is_asked_for(s, nodes[i as int]) ==> #[trigger] d.contains(i)
            &&& forall|i: usize, j: int|
                i < nodes.len() && is_service(nodes[i as int]) && nodes[i as int].app is None && 0
                    <= j < nodes.len() && is_asked_for(s, #[trigger] nodes[j]) && nodes[j].app
                    is Some ==> #[trigger] d.contains(i)
            &&& forall|i: usize, j: int|
                i < nodes.len() && runs_on_up(nodes[i as int]) && 0 <= j < nodes.len()
                    && is_asked_for(s, #[trigger] nodes[j]) && nodes[j].app == nodes[i as int].app
                    ==> #[trigger] d.contains(i)
        },
{
    assert forall|i: int| 0 <= i < nodes.len() implies (ctx::named(l, s, #[trigger] nodes[i])
        <==> is_asked_for(s, nodes[i])) by {
        asking_is_naming(l, s, nodes[i]);
    }
    assert forall|i: usize|
        i < nodes.len() && ctx::chosen(l, s, nodes)(i as int) implies #[trigger] set.contains(i) by {
        let node = nodes[i as int];
        if !is_asked_for(s, node) {
            if ctx::selected(l, s, nodes, node) {
                let j = choose|j: int|
                    0 <= j < nodes.len() && ctx::named(l, s, #[trigger] nodes[j]) && nodes[j].app
                        is Some;
                assert(is_asked_for(s, nodes[j]) && nodes[j].app is Some);
            } else if let Some(app) = node.app {
                let j = choose|j: int|
                    0 <= j < nodes.len() && ctx::named(l, s, #[trigger] nodes[j]) && nodes[j].app
                        == Some(app);
                assert(is_asked_for(s, nodes[j]) && nodes[j].app == node.app);
            }
        }
    }
    selections_are_whole(l, s, nodes, edges, set);
    if exists|i: int| 0 <= i < nodes.len() && is_asked_for(s, #[trigger] nodes[i]) {
        let i = choose|i: int| 0 <= i < nodes.len() && is_asked_for(s, #[trigger] nodes[i]);
        assert(ctx::named(l, s, nodes[i]));
        refused_selections_have_a_cycle(l, s, nodes, edges);
    }
    if let Ok(d) = ctx::scope_of(l, s, nodes, edges) {
        assert forall|i: usize| i < nodes.len() && is_asked_for(s, nodes[i as int]) implies
            #[trigger] d.contains(i) by {
            assert(ctx::chosen(l, s, nodes)(i as int));
        }
        assert forall|i: usize, j: int|
            i < nodes.len() && is_service(nodes[i as int]) && nodes[i as int].app is None && 0 <= j
                < nodes.len() && is_asked_for(s, #[trigger] nodes[j]) && nodes[j].app is Some implies
        #[trigger] d.contains(i) by {
            assert(ctx::named(l, s, nodes[j]));
            assert(ctx::is_shared(nodes[i as int]));
        }
        assert forall|i: usize, j: int|
            i < nodes.len() && runs_on_up(nodes[i as int]) && 0 <= j < nodes.len() && is_asked_for(
                s,
                #[trigger] nodes[j],
            ) && nodes[j].app == nodes[i as int].app implies #[trigger] d.contains(i) by {
            assert(ctx::named(l, s, nodes[j]));
            assert(ctx::selected(l, s, nodes, nodes[j]));
            assert(ctx::comes_along(l, s, nodes, nodes[i as int]));
            assert(ctx::chosen(l, s, nodes)(i as int));
        }
    }
}

} // verus!
