//! How the ports of a stack reach what uses them: what holds between declaring, requesting, naming
//! and publishing them.

use crate::compose;
use crate::compose::{ComposeGroupView, PortMappingView};
use crate::ctx;
use crate::ctx::{BootstrapTargetView, Ctx};
use crate::dict;
use crate::lists;
use crate::manifest::{
    BootstrapView, Expose, LoadedView, NodeKindView, NodeView, PortSpecView, Runtime, ServiceView,
};
use crate::paths;
use crate::ports::{PortMode, PortRequestView};
use crate::text;
use vstd::prelude::*;

verus! {

/// How many ports a service declares.
pub open spec fn port_count(service: ServiceView) -> nat {
    service.ports.len() + (if service.port is Some {
        1nat
    } else {
        0nat
    })
}

/// Whether a service declares a port, on its own or in its list.
pub open spec fn declares(service: ServiceView, port: PortSpecView) -> bool {
    service.port == Some(port) || exists|k: int|
        0 <= k < service.ports.len() && #[trigger] service.ports[k] == port
}

/// Whether a node is a service that declares a port.
pub open spec fn has_declared(node: NodeView, port: PortSpecView) -> bool {
    node.kind matches NodeKindView::Service(service) && service.id == node.id && declares(
        service,
        port,
    )
}

/// Whether a node is a service that publishes the ports it declares.
pub open spec fn is_exposed(node: NodeView) -> bool {
    node.kind matches NodeKindView::Service(service) && service.expose == Expose::Port
}

/// Whether every service of a stack goes by its own id.
pub open spec fn ids_agree(nodes: Seq<NodeView>) -> bool {
    forall|i: int|
        0 <= i < nodes.len() ==> ((#[trigger] nodes[i]).kind matches NodeKindView::Service(service)
            ==> service.id == nodes[i].id)
}

/// What a node is called: `app:id`, or its id where all apps share it.
pub open spec fn full_name(node: NodeView) -> Seq<char> {
    match node.app {
        Some(app) => app + ":"@ + node.id,
        None => node.id,
    }
}

/// What a port is recorded under: the name of its service, with its own name behind it where the
/// service has several ports and it is called otherwise than the service.
pub open spec fn recorded_name(node: NodeView, port: PortSpecView) -> Seq<char> {
    let several = node.kind matches NodeKindView::Service(service) && port_count(service) > 1;
    match port.name {
        Some(own) => if several && own != node.id {
            full_name(node) + ":"@ + own
        } else {
            full_name(node)
        },
        None => full_name(node),
    }
}

proof fn gathers<A, T>(list: Seq<A>, f: spec_fn(A) -> Seq<T>, k: int, i: int, j: int) -> (at: int)
    requires
        0 <= i < k <= list.len(),
        0 <= j < f(list[i]).len(),
    ensures
        0 <= at < lists::gather(list, f, k).len(),
        lists::gather(list, f, k)[at] == f(list[i])[j],
    decreases k,
{
    if i == k - 1 {
        lists::gather(list, f, k - 1).len() as int + j
    } else {
        gathers(list, f, k - 1, i, j)
    }
}

proof fn gathered_from<A, T>(list: Seq<A>, f: spec_fn(A) -> Seq<T>, k: int, at: int) -> (from: (
    int,
    int,
))
    requires
        0 <= k <= list.len(),
        0 <= at < lists::gather(list, f, k).len(),
    ensures
        0 <= from.0 < k,
        0 <= from.1 < f(list[from.0]).len(),
        lists::gather(list, f, k)[at] == f(list[from.0])[from.1],
    decreases k,
{
    if k <= 0 {
        (0, 0)
    } else {
        let before = lists::gather(list, f, k - 1).len();
        if at < before {
            gathered_from(list, f, k - 1, at)
        } else {
            (k - 1, at - before)
        }
    }
}

proof fn one_each<A, T>(list: Seq<A>, f: spec_fn(A) -> Seq<T>, k: int)
    requires
        0 <= k <= list.len(),
        forall|i: int| 0 <= i < list.len() ==> f(#[trigger] list[i]).len() == 1,
    ensures
        lists::gather(list, f, k).len() == k,
    decreases k,
{
    if k > 0 {
        one_each(list, f, k - 1);
    }
}

proof fn last_wins<T>(e: Seq<(Seq<char>, T)>, over: Seq<(Seq<char>, T)>, q: Seq<char>, v: T)
    requires
        exists|i: int| 0 <= i < over.len() && (#[trigger] over[i]).0 == q,
        forall|i: int| 0 <= i < over.len() && (#[trigger] over[i]).0 == q ==> over[i].1 == v,
    ensures
        dict::lookup(dict::put_all(e, over), q) == Some(v),
    decreases over.len(),
{
    let rest = over.drop_last();
    dict::put_then_lookup(dict::put_all(e, rest), over.last().0, over.last().1, q);
    if over.last().0 != q {
        let i = choose|i: int| 0 <= i < over.len() && (#[trigger] over[i]).0 == q;
        assert(rest[i].0 == q);
        last_wins(e, rest, q, v);
    } else {
        assert(over[over.len() - 1].0 == q);
    }
}

proof fn others_stay<T>(e: Seq<(Seq<char>, T)>, over: Seq<(Seq<char>, T)>, q: Seq<char>)
    requires
        forall|i: int| 0 <= i < over.len() ==> (#[trigger] over[i]).0 != q,
    ensures
        dict::lookup(dict::put_all(e, over), q) == dict::lookup(e, q),
    decreases over.len(),
{
    if over.len() > 0 {
        let rest = over.drop_last();
        dict::put_then_lookup(dict::put_all(e, rest), over.last().0, over.last().1, q);
        assert(over[over.len() - 1].0 != q);
        assert forall|i: int| 0 <= i < rest.len() implies (#[trigger] rest[i]).0 != q by {
            assert(over[i].0 != q);
        }
        others_stay(e, rest, q);
    }
}

/// The port at a place, as its service declares it.
spec fn declared_at(service: ServiceView, k: int) -> PortSpecView {
    match service.port {
        Some(port) => if k == 0 {
            port
        } else {
            service.ports[k - 1]
        },
        None => service.ports[k],
    }
}

proof fn ports_are_declared(service: ServiceView, k: int)
    requires
        0 <= k < service.ports_of().len(),
    ensures
        service.ports_of().len() == port_count(service),
        service.ports_of()[k] == declared_at(service, k).named(service.id),
        declares(service, declared_at(service, k)),
{
    match service.port {
        Some(_) => {
            if k > 0 {
                assert(service.ports[k - 1] == declared_at(service, k));
            }
        },
        None => {
            assert(service.ports[k] == declared_at(service, k));
        },
    }
}

proof fn declared_ports_have_a_place(service: ServiceView, port: PortSpecView) -> (k: int)
    requires
        declares(service, port),
    ensures
        0 <= k < service.ports_of().len(),
        service.ports_of()[k] == port.named(service.id),
        declared_at(service, k) == port,
        service.ports_of().len() == port_count(service),
{
    if service.port == Some(port) {
        0
    } else {
        let i = choose|i: int| 0 <= i < service.ports.len() && #[trigger] service.ports[i] == port;
        if service.port is Some {
            i + 1
        } else {
            i
        }
    }
}

proof fn keys_are_recorded_names(node: NodeView, port: PortSpecView)
    requires
        has_declared(node, port),
    ensures
        ({
            let service = node.service_of().unwrap();
            ctx::key_of(
                node,
                ctx::own_name(node, service.ports_of(), port.named(service.id)),
            ) == recorded_name(node, port)
        }),
{
    let service = node.service_of().unwrap();
    let k = declared_ports_have_a_place(service, port);
}

/// A service that publishes its ports asks for each of them, under the name it is recorded by and
/// with the number it wants or insists on, and for nothing else. Nothing is asked for a job, or for a
/// service that publishes none.
pub proof fn declared_ports_are_requested(node: NodeView)
    requires
        node.kind matches NodeKindView::Service(service) ==> service.id == node.id,
    ensures
        !is_exposed(node) ==> ctx::requests_of(node).len() == 0,
        is_exposed(node) ==> ctx::requests_of(node).len() == port_count(
            node.kind->Service_0,
        ),
        forall|port: PortSpecView|
            is_exposed(node) && #[trigger] has_declared(node, port) ==> ctx::requests_of(
                node,
            ).contains(
                (PortRequestView {
                    name: recorded_name(node, port),
                    prefer: port.prefer,
                    require: port.require,
                }),
            ),
        forall|r: PortRequestView| #[trigger]
            ctx::requests_of(node).contains(r) ==> exists|port: PortSpecView| #[trigger]
                has_declared(node, port) && r.name == recorded_name(node, port) && r.prefer
                    == port.prefer && r.require == port.require,
{
    if is_exposed(node) {
        let service = node.kind->Service_0;
        let all = service.ports_of();
        let f = ctx::request_for(node);
        one_each(all, f, all.len() as int);
        assert forall|port: PortSpecView| #[trigger]
            has_declared(node, port) implies ctx::requests_of(node).contains(
            (PortRequestView {
                name: recorded_name(node, port),
                prefer: port.prefer,
                require: port.require,
            }),
        ) by {
            let k = declared_ports_have_a_place(service, port);
            keys_are_recorded_names(node, port);
            let at = gathers(all, f, all.len() as int, k, 0);
            assert(ctx::requests_of(node)[at] == f(all[k])[0]);
        }
        assert forall|r: PortRequestView| #[trigger]
            ctx::requests_of(node).contains(r) implies exists|port: PortSpecView| #[trigger]
            has_declared(node, port) && r.name == recorded_name(node, port) && r.prefer
                == port.prefer && r.require == port.require by {
            let at = choose|at: int|
                0 <= at < ctx::requests_of(node).len() && ctx::requests_of(node)[at] == r;
            let (k, j) = gathered_from(all, f, all.len() as int, at);
            ports_are_declared(service, k);
            let port = declared_at(service, k);
            assert(has_declared(node, port));
            keys_are_recorded_names(node, port);
        }
    }
}

/// What a service is told of its ports is what was assigned to them: each of its ports that has a
/// number is there with it, and nothing is there that was not assigned.
pub proof fn services_hold_their_assigned_ports(node: NodeView, assigned: Seq<(Seq<char>, u16)>)
    requires
        node.kind matches NodeKindView::Service(service) ==> service.id == node.id,
    ensures
        !is_service_of(node) ==> ctx::assigned_of(node, assigned).len() == 0,
        forall|port: PortSpecView, v: u16|
            #[trigger] has_declared(node, port) && #[trigger] holds_number(
                assigned,
                recorded_name(node, port),
                v,
            ) ==> ctx::assigned_of(node, assigned).contains((recorded_name(node, port), v)),
        forall|i: int|
            0 <= i < ctx::assigned_of(node, assigned).len() ==> holds_number(
                assigned,
                (#[trigger] ctx::assigned_of(node, assigned)[i]).0,
                ctx::assigned_of(node, assigned)[i].1,
            ) && (ctx::assigned_of(node, assigned)[i].0 == full_name(node) || exists|port: PortSpecView|
                #[trigger]
                has_declared(node, port) && ctx::assigned_of(node, assigned)[i].0 == recorded_name(
                    node,
                    port,
                )),
{
    if let Some(service) = node.service_of() {
        let all = service.ports_of();
        let f = ctx::labelled(node, assigned);
        let found = lists::gathered(all, f);
        let r = ctx::assigned_of(node, assigned);
        assert forall|port: PortSpecView, v: u16|
            #[trigger] has_declared(node, port) && #[trigger] holds_number(
                assigned,
                recorded_name(node, port),
                v,
            ) implies r.contains((recorded_name(node, port), v)) by {
            let k = declared_ports_have_a_place(service, port);
            keys_are_recorded_names(node, port);
            assert(f(all[k]) == seq![(recorded_name(node, port), v)]);
            let at = gathers(all, f, all.len() as int, k, 0);
            assert(r[at] == (recorded_name(node, port), v));
        }
        assert forall|i: int| 0 <= i < r.len() implies holds_number(
            assigned,
            (#[trigger] r[i]).0,
            r[i].1,
        ) && (r[i].0 == full_name(node) || exists|port: PortSpecView| #[trigger]
            has_declared(node, port) && r[i].0 == recorded_name(node, port)) by {
            if found.len() > 0 {
                let (k, j) = gathered_from(all, f, all.len() as int, i);
                ports_are_declared(service, k);
                let port = declared_at(service, k);
                assert(has_declared(node, port));
                keys_are_recorded_names(node, port);
                assert(r[i] == f(all[k])[j]);
            }
        }
    }
}

/// Whether a node is a service.
pub open spec fn is_service_of(node: NodeView) -> bool {
    node.kind is Service
}

/// Whether a port of that name has that number.
pub open spec fn holds_number(assigned: Seq<(Seq<char>, u16)>, name: Seq<char>, v: u16) -> bool {
    dict::lookup(assigned, name) == Some(v)
}

/// Whether a service of a stack publishes a port in a variable.
pub open spec fn publishes_in(node: NodeView, port: PortSpecView, variable: Seq<char>) -> bool {
    is_exposed(node) && has_declared(node, port) && port.env == Some(variable)
}

proof fn declared_entries(
    nodes: Seq<NodeView>,
    assigned: Seq<(Seq<char>, u16)>,
    i: int,
    port: PortSpecView,
    variable: Seq<char>,
    v: u16,
) -> (at: int)
    requires
        0 <= i < nodes.len(),
        publishes_in(nodes[i], port, variable),
        holds_number(assigned, recorded_name(nodes[i], port), v),
    ensures
        ({
            let all = lists::gathered(nodes, ctx::declared_variables(assigned));
            0 <= at < all.len() && all[at] == (variable, text::decimal_of(v as nat))
        }),
{
    let node = nodes[i];
    let service = node.kind->Service_0;
    let ports = service.ports_of();
    let f = ctx::declared_variable(node, assigned);
    let k = declared_ports_have_a_place(service, port);
    keys_are_recorded_names(node, port);
    assert(f(ports[k]) == seq![(variable, v)]);
    let j = gathers(ports, f, ports.len() as int, k, 0);
    let g = ctx::declared_variables(assigned);
    assert(g(node)[j] == (variable, text::decimal_of(v as nat)));
    gathers(nodes, g, nodes.len() as int, i, j)
}

proof fn declared_entries_come_from_ports(
    nodes: Seq<NodeView>,
    assigned: Seq<(Seq<char>, u16)>,
    at: int,
) -> (from: (int, PortSpecView, u16))
    requires
        ids_agree(nodes),
        0 <= at < lists::gathered(nodes, ctx::declared_variables(assigned)).len(),
    ensures
        0 <= from.0 < nodes.len(),
        publishes_in(
            nodes[from.0],
            from.1,
            lists::gathered(nodes, ctx::declared_variables(assigned))[at].0,
        ),
        holds_number(assigned, recorded_name(nodes[from.0], from.1), from.2),
        lists::gathered(nodes, ctx::declared_variables(assigned))[at].1 == text::decimal_of(
            from.2 as nat,
        ),
{
    let g = ctx::declared_variables(assigned);
    let (i, j) = gathered_from(nodes, g, nodes.len() as int, at);
    let node = nodes[i];
    let service = node.kind->Service_0;
    let ports = service.ports_of();
    let f = ctx::declared_variable(node, assigned);
    let (k, m) = gathered_from(ports, f, ports.len() as int, j);
    ports_are_declared(service, k);
    let port = declared_at(service, k);
    assert(has_declared(node, port));
    keys_are_recorded_names(node, port);
    (i, port, f(ports[k])[m].1)
}

/// A port that is published in a variable of its own is set in it for the whole stack: every
/// environment that is computed holds the variable, with the number that the port was assigned.
pub proof fn published_ports_are_set(
    identity: Seq<(Seq<char>, Seq<char>)>,
    nodes: Seq<NodeView>,
    assigned: Seq<(Seq<char>, u16)>,
    i: int,
    port: PortSpecView,
    variable: Seq<char>,
    v: u16,
)
    requires
        ids_agree(nodes),
        0 <= i < nodes.len(),
        publishes_in(nodes[i], port, variable),
        holds_number(assigned, recorded_name(nodes[i], port), v),
        forall|j: int, p: PortSpecView|
            0 <= j < nodes.len() && #[trigger] publishes_in(nodes[j], p, variable)
                ==> recorded_name(nodes[j], p) == recorded_name(nodes[i], port),
    ensures
        dict::lookup(ctx::computed_of(identity, nodes, assigned), variable) == Some(
            text::decimal_of(v as nat),
        ),
{
    let all = lists::gathered(nodes, ctx::declared_variables(assigned));
    let at = declared_entries(nodes, assigned, i, port, variable, v);
    assert(all[at].0 == variable);
    assert forall|k: int| 0 <= k < all.len() && (#[trigger] all[k]).0 == variable implies all[k].1
        == text::decimal_of(v as nat) by {
        let (j, p, w) = declared_entries_come_from_ports(nodes, assigned, k);
        assert(publishes_in(nodes[j], p, variable));
    }
    last_wins(
        dict::put_all(identity, lists::gathered(nodes, ctx::port_variables(assigned))),
        all,
        variable,
        text::decimal_of(v as nat),
    );
}

/// The characters of a name as a variable has them: `-` and `:` become `_`.
pub open spec fn in_a_variable(c: char) -> char {
    if c == '-' || c == ':' {
        '_'
    } else {
        c
    }
}

proof fn replaced_one_for_one(s: Seq<char>, c: char)
    ensures
        text::replace_of(s, c, "_"@).len() == s.len(),
        forall|i: int|
            0 <= i < s.len() ==> #[trigger] text::replace_of(s, c, "_"@)[i] == (if s[i] == c {
                '_'
            } else {
                s[i]
            }),
    decreases s.len(),
{
    reveal_strlit("_");
    if s.len() > 0 {
        replaced_one_for_one(s.drop_last(), c);
    }
}

/// The variable of a port is called after its app and its service, and after the port where it has a
/// name of its own, all joined by `_`.
pub proof fn port_variables_are_called_after_their_service(node: NodeView, name: Option<Seq<char>>)
    ensures
        ({
            let words = (match node.app {
                Some(app) => app + "_"@,
                None => Seq::empty(),
            }) + node.id + (match name {
                Some(own) => "_"@ + own,
                None => Seq::empty(),
            });
            let start = "MAGICTREE_PORT_"@;
            let r = ctx::var_name_of(node, name);
            &&& r.len() == start.len() + words.len()
            &&& r.take(start.len() as int) == start
            &&& forall|i: int|
                0 <= i < words.len() ==> #[trigger] r[start.len() + i] == in_a_variable(words[i])
        }),
{
    let words = (match node.app {
        Some(app) => app + "_"@,
        None => Seq::empty(),
    }) + node.id + (match name {
        Some(own) => "_"@ + own,
        None => Seq::empty(),
    });
    let base = match node.app {
        Some(app) => app + "_"@ + node.id,
        None => node.id,
    };
    let stem = match name {
        Some(name) => base + "_"@ + name,
        None => base,
    };
    assert(stem =~= words);
    let once = text::replace_of(stem, ':', "_"@);
    replaced_one_for_one(stem, ':');
    replaced_one_for_one(once, '-');
    let start = "MAGICTREE_PORT_"@;
    assert((start + text::replace_of(once, '-', "_"@)).take(start.len() as int) =~= start);
}

/// Every environment says what the worktree is: its slug, its directory and the workspace, and the
/// slug once more as the name of the compose project.
pub proof fn environments_say_what_the_worktree_is(
    slug: Seq<char>,
    worktree: Seq<char>,
    workspace: Seq<char>,
)
    ensures
        ({
            let vars = ctx::identity_variables(slug, worktree, workspace);
            &&& dict::lookup(vars, "MAGICTREE_SLUG"@) == Some(slug)
            &&& dict::lookup(vars, "MAGICTREE_WORKTREE"@) == Some(worktree)
            &&& dict::lookup(vars, "MAGICTREE_WORKSPACE"@) == Some(workspace)
            &&& dict::lookup(vars, "COMPOSE_PROJECT_NAME"@) == Some(slug)
        }),
{
    reveal_strlit("MAGICTREE_SLUG");
    reveal_strlit("MAGICTREE_WORKTREE");
    reveal_strlit("MAGICTREE_WORKSPACE");
    reveal_strlit("COMPOSE_PROJECT_NAME");
    let over = seq![
        ("MAGICTREE_SLUG"@, slug),
        ("MAGICTREE_WORKTREE"@, worktree),
        ("MAGICTREE_WORKSPACE"@, workspace),
        ("COMPOSE_PROJECT_NAME"@, slug),
    ];
    assert("MAGICTREE_SLUG"@.len() == 14);
    assert("MAGICTREE_WORKTREE"@.len() == 18);
    assert("MAGICTREE_WORKSPACE"@.len() == 19);
    assert("COMPOSE_PROJECT_NAME"@.len() == 20);
    let e = Seq::<(Seq<char>, Seq<char>)>::empty();
    assert(over[0].0 == "MAGICTREE_SLUG"@);
    assert(over[1].0 == "MAGICTREE_WORKTREE"@);
    assert(over[2].0 == "MAGICTREE_WORKSPACE"@);
    assert(over[3].0 == "COMPOSE_PROJECT_NAME"@);
    last_wins(e, over, "MAGICTREE_SLUG"@, slug);
    last_wins(e, over, "MAGICTREE_WORKTREE"@, worktree);
    last_wins(e, over, "MAGICTREE_WORKSPACE"@, workspace);
    last_wins(e, over, "COMPOSE_PROJECT_NAME"@, slug);
}

/// A variable that no port is published or numbered in keeps what the worktree gives it.
pub proof fn other_variables_are_not_touched(
    identity: Seq<(Seq<char>, Seq<char>)>,
    nodes: Seq<NodeView>,
    assigned: Seq<(Seq<char>, u16)>,
    variable: Seq<char>,
)
    requires
        ids_agree(nodes),
        variable.len() < "MAGICTREE_PORT_"@.len() || variable.take(
            "MAGICTREE_PORT_"@.len() as int,
        ) != "MAGICTREE_PORT_"@,
        forall|j: int, p: PortSpecView|
            0 <= j < nodes.len() ==> !#[trigger] publishes_in(nodes[j], p, variable),
    ensures
        dict::lookup(ctx::computed_of(identity, nodes, assigned), variable) == dict::lookup(
            identity,
            variable,
        ),
{
    let own = lists::gathered(nodes, ctx::declared_variables(assigned));
    let numbered = lists::gathered(nodes, ctx::port_variables(assigned));
    assert forall|k: int| 0 <= k < own.len() implies (#[trigger] own[k]).0 != variable by {
        let (j, p, w) = declared_entries_come_from_ports(nodes, assigned, k);
        assert(publishes_in(nodes[j], p, own[k].0));
    }
    assert forall|k: int| 0 <= k < numbered.len() implies (#[trigger] numbered[k]).0 != variable by {
        let g = ctx::port_variables(assigned);
        let (i, j) = gathered_from(nodes, g, nodes.len() as int, k);
        let node = nodes[i];
        let ports = node.service_of().unwrap().ports_of();
        let f = ctx::port_variable(node, assigned);
        let (m, n) = gathered_from(ports, f, ports.len() as int, j);
        let name = ctx::own_name(node, ports, ports[m]);
        assert(numbered[k].0 == ctx::var_name_of(node, name));
        port_variables_are_called_after_their_service(node, name);
    }
    others_stay(dict::put_all(identity, numbered), own, variable);
    others_stay(identity, numbered, variable);
}

/// A browser reaches a port by the host of its worktree exactly where the port is declared so and
/// has a number: `<slug>.localhost`.
pub proof fn browser_ports_go_by_the_worktree(
    nodes: Seq<NodeView>,
    assigned: Seq<(Seq<char>, u16)>,
    slug: Seq<char>,
)
    requires
        ids_agree(nodes),
    ensures
        forall|i: int, port: PortSpecView, v: u16|
            0 <= i < nodes.len() && is_exposed(nodes[i]) && #[trigger] has_declared(nodes[i], port)
                && port.browser_alias && #[trigger] holds_number(
                assigned,
                recorded_name(nodes[i], port),
                v,
            ) ==> ctx::aliases_of(nodes, assigned, slug).contains((v, slug + ".localhost"@)),
        forall|at: int|
            0 <= at < ctx::aliases_of(nodes, assigned, slug).len() ==> (
            #[trigger] ctx::aliases_of(nodes, assigned, slug)[at]).1 == slug + ".localhost"@
                && exists|i: int, port: PortSpecView|
                0 <= i < nodes.len() && is_exposed(nodes[i]) && #[trigger] has_declared(
                    nodes[i],
                    port,
                ) && port.browser_alias && holds_number(
                    assigned,
                    recorded_name(nodes[i], port),
                    ctx::aliases_of(nodes, assigned, slug)[at].0,
                ),
{
    let host = slug + ".localhost"@;
    let g = ctx::aliases_in(assigned, host);
    let r = ctx::aliases_of(nodes, assigned, slug);
    assert forall|i: int, port: PortSpecView, v: u16|
        0 <= i < nodes.len() && is_exposed(nodes[i]) && #[trigger] has_declared(nodes[i], port)
            && port.browser_alias && #[trigger] holds_number(
            assigned,
            recorded_name(nodes[i], port),
            v,
        ) implies r.contains((v, host)) by {
        let node = nodes[i];
        let service = node.kind->Service_0;
        let ports = service.ports_of();
        let f = ctx::alias_for(node, assigned, host);
        let k = declared_ports_have_a_place(service, port);
        keys_are_recorded_names(node, port);
        assert(f(ports[k]) == seq![(v, host)]);
        let j = gathers(ports, f, ports.len() as int, k, 0);
        assert(g(node)[j] == (v, host));
        let at = gathers(nodes, g, nodes.len() as int, i, j);
        assert(r[at] == (v, host));
    }
    assert forall|at: int| 0 <= at < r.len() implies (#[trigger] r[at]).1 == host
        && exists|i: int, port: PortSpecView|
        0 <= i < nodes.len() && is_exposed(nodes[i]) && #[trigger] has_declared(nodes[i], port)
            && port.browser_alias && holds_number(
            assigned,
            recorded_name(nodes[i], port),
            r[at].0,
        ) by {
        let (i, j) = gathered_from(nodes, g, nodes.len() as int, at);
        let node = nodes[i];
        let service = node.kind->Service_0;
        let ports = service.ports_of();
        let f = ctx::alias_for(node, assigned, host);
        let (k, m) = gathered_from(ports, f, ports.len() as int, j);
        ports_are_declared(service, k);
        let port = declared_at(service, k);
        assert(has_declared(node, port));
        keys_are_recorded_names(node, port);
        assert(f(ports[k])[m] == r[at]);
        assert(holds_number(assigned, recorded_name(nodes[i], port), r[at].0));
    }
}

proof fn owners_publish(nodes: Seq<NodeView>, variable: Seq<char>, k: int)
    requires
        0 <= k,
    ensures
        ctx::owner_of(nodes, variable, k) is Some <==> exists|i: int|
            k <= i < nodes.len() && ctx::publishes(#[trigger] nodes[i], variable),
    decreases nodes.len() - k,
{
    if k < nodes.len() {
        owners_publish(nodes, variable, k + 1);
        if ctx::publishes(nodes[k], variable) {
            assert(ctx::publishes(nodes[k], variable));
        }
    }
}

proof fn refused_keys(
    nodes: Seq<NodeView>,
    source: Seq<char>,
    layer: Seq<(Seq<char>, Seq<char>)>,
    k: int,
)
    requires
        0 <= k,
    ensures
        ctx::published_key(nodes, source, layer, k) is Some <==> exists|i: int|
            k <= i < layer.len() && ctx::owner_of(nodes, (#[trigger] layer[i]).0, 0) is Some,
    decreases layer.len() - k,
{
    if k < layer.len() {
        refused_keys(nodes, source, layer, k + 1);
        if ctx::owner_of(nodes, layer[k].0, 0) is Some {
            assert(ctx::owner_of(nodes, layer[k].0, 0) is Some);
        }
    }
}

/// A manifest is refused where it sets a variable that a service of the stack publishes a port in,
/// and only there.
pub proof fn published_variables_are_not_overridden(
    nodes: Seq<NodeView>,
    source: Seq<char>,
    layer: Seq<(Seq<char>, Seq<char>)>,
)
    requires
        ids_agree(nodes),
    ensures
        ctx::published_key(nodes, source, layer, 0) is Some <==> exists|
            i: int,
            j: int,
            port: PortSpecView,
        |
            0 <= i < layer.len() && 0 <= j < nodes.len() && #[trigger] publishes_in(
                nodes[j],
                port,
                layer[i].0,
            ),
{
    refused_keys(nodes, source, layer, 0);
    if ctx::published_key(nodes, source, layer, 0) is Some {
        let i = choose|i: int|
            0 <= i < layer.len() && ctx::owner_of(nodes, (#[trigger] layer[i]).0, 0) is Some;
        owners_publish(nodes, layer[i].0, 0);
        let j = choose|j: int|
            0 <= j < nodes.len() && ctx::publishes(#[trigger] nodes[j], layer[i].0);
        let service = nodes[j].kind->Service_0;
        let k = choose|k: int|
            0 <= k < service.ports_of().len() && (#[trigger] service.ports_of()[k]).env == Some(
                layer[i].0,
            );
        ports_are_declared(service, k);
        assert(publishes_in(nodes[j], declared_at(service, k), layer[i].0));
    }
    if exists|i: int, j: int, port: PortSpecView|
        0 <= i < layer.len() && 0 <= j < nodes.len() && #[trigger] publishes_in(
            nodes[j],
            port,
            layer[i].0,
        ) {
        let (i, j, port) = choose|i: int, j: int, port: PortSpecView|
            0 <= i < layer.len() && 0 <= j < nodes.len() && #[trigger] publishes_in(
                nodes[j],
                port,
                layer[i].0,
            );
        let service = nodes[j].kind->Service_0;
        let k = declared_ports_have_a_place(service, port);
        assert(service.ports_of()[k].env == Some(layer[i].0));
        assert(ctx::publishes(nodes[j], layer[i].0));
        owners_publish(nodes, layer[i].0, 0);
        assert(ctx::owner_of(nodes, layer[i].0, 0) is Some);
    }
}

/// A dry run shows for each port what a real run could give it: the number that it insists on; the
/// one that it wants, where declared numbers are used; and otherwise none yet.
pub proof fn previews_show_what_is_declared(
    nodes: Seq<NodeView>,
    mode: PortMode,
    i: int,
    port: PortSpecView,
)
    requires
        ids_agree(nodes),
        0 <= i < nodes.len(),
        is_exposed(nodes[i]),
        has_declared(nodes[i], port),
        forall|j: int, p: PortSpecView|
            0 <= j < nodes.len() && #[trigger] has_declared(nodes[j], p) && recorded_name(
                nodes[j],
                p,
            ) == recorded_name(nodes[i], port) ==> p.require == port.require && p.prefer
                == port.prefer,
    ensures
        dict::lookup(ctx::preview_ports(nodes, mode), recorded_name(nodes[i], port)) == Some(
            if port.require is Some {
                port.require.unwrap()
            } else if port.prefer is Some && mode == PortMode::Declared {
                port.prefer.unwrap()
            } else {
                0u16
            },
        ),
{
    let want = if port.require is Some {
        port.require.unwrap()
    } else if port.prefer is Some && mode == PortMode::Declared {
        port.prefer.unwrap()
    } else {
        0u16
    };
    let name = recorded_name(nodes[i], port);
    let g = ctx::preview_of(mode);
    let all = lists::gathered(nodes, g);
    {
        let node = nodes[i];
        let service = node.kind->Service_0;
        let ports = service.ports_of();
        let f = ctx::preview_port(node, mode);
        let k = declared_ports_have_a_place(service, port);
        keys_are_recorded_names(node, port);
        let j = gathers(ports, f, ports.len() as int, k, 0);
        let at = gathers(nodes, g, nodes.len() as int, i, j);
        assert(all[at].0 == name);
    }
    assert forall|at: int| 0 <= at < all.len() && (#[trigger] all[at]).0 == name implies all[at].1
        == want by {
        let (a, j) = gathered_from(nodes, g, nodes.len() as int, at);
        let node = nodes[a];
        let service = node.kind->Service_0;
        let ports = service.ports_of();
        let f = ctx::preview_port(node, mode);
        let (k, m) = gathered_from(ports, f, ports.len() as int, j);
        ports_are_declared(service, k);
        let p = declared_at(service, k);
        assert(has_declared(nodes[a], p));
        keys_are_recorded_names(node, p);
    }
    last_wins(Seq::<(Seq<char>, u16)>::empty(), all, name, want);
}

/// Whether a node is a service that compose runs, and which one of which file it is.
pub open spec fn runs_in_compose(node: NodeView, service: Seq<char>) -> bool {
    &&& node.kind matches NodeKindView::Service(s)
    &&& s.runtime == Some(Runtime::Compose) || s.runtime is None
    &&& s.compose matches Some(reference)
    &&& reference.service == service
}

/// The compose project of a service is that of its worktree and its app: two services share one
/// exactly where they are of the same worktree and the same app, and no service on the host has one.
pub proof fn apps_have_projects_of_their_own(slug: Seq<char>, a: NodeView, b: NodeView)
    ensures
        ctx::runner_key_of(slug, a) is Some <==> exists|service: Seq<char>| #[trigger]
            runs_in_compose(a, service),
        ctx::runner_key_of(slug, a) is Some && ctx::runner_key_of(slug, b) is Some
            ==> (ctx::runner_key_of(slug, a).unwrap().1 == ctx::runner_key_of(slug, b).unwrap().1
            <==> a.app == b.app),
        ctx::runner_key_of(slug, a) matches Some(x) ==> (a.app is None ==> x.1 == slug) && (
        a.app matches Some(app) ==> x.1 == slug + "-"@ + app),
{
    reveal_strlit("-");
    if let Some(s) = a.service_of() {
        if let Some(reference) = s.compose {
            if ctx::runner_key_of(slug, a) is Some {
                assert(runs_in_compose(a, reference.service));
            }
        }
    }
    if let (Some(x), Some(y)) = (a.app, b.app) {
        if slug + "-"@ + x == slug + "-"@ + y {
            assert(x =~= (slug + "-"@ + x).skip(slug.len() as int + 1));
            assert(y =~= (slug + "-"@ + y).skip(slug.len() as int + 1));
        }
    }
    if a.app is Some {
        assert((slug + "-"@ + a.app.unwrap()).len() > slug.len());
    }
    if b.app is Some {
        assert((slug + "-"@ + b.app.unwrap()).len() > slug.len());
    }
}

/// A group of compose services holds each service of its project once it is declared, with every port
/// that the service declares bound to the number it was assigned.
pub proof fn groups_bind_assigned_ports(
    c: Ctx,
    assigned: Seq<(Seq<char>, u16)>,
    key: (Seq<char>, Seq<char>),
    i: int,
    port: PortSpecView,
) -> (at: int)
    requires
        0 <= i < c.node_views().len(),
        ctx::runner_key_of(c.slug@, c.node_views()[i]) matches Some(own) && ctx::same_key(own, key),
        is_exposed(c.node_views()[i]),
        has_declared(c.node_views()[i], port),
    ensures
        0 <= at < c.group(assigned, key).services.len(),
        ({
            let node = c.node_views()[i];
            let member = c.group(assigned, key).services[at];
            &&& member.name == node.kind->Service_0.compose.unwrap().service
            &&& member.expose == Expose::Port
            &&& member.mappings.contains(
                PortMappingView {
                    host: dict::lookup(assigned, recorded_name(node, port)),
                    target: port.target,
                },
            )
        }),
{
    let node = c.node_views()[i];
    let service = node.kind->Service_0;
    let ports = service.ports_of();
    let f = ctx::mapping_for(node, assigned);
    let g = ctx::group_member(c.slug@, assigned, key);
    let k = declared_ports_have_a_place(service, port);
    keys_are_recorded_names(node, port);
    let j = gathers(ports, f, ports.len() as int, k, 0);
    assert(g(node)[0].mappings[j] == f(ports[k])[0]);
    gathers(c.node_views(), g, c.node_views().len() as int, i, 0)
}

/// The line that binds a port of the host's own interface to a port of a container.
pub open spec fn binding(host: u16, target: u16) -> Seq<char> {
    "      - \"127.0.0.1:"@ + text::decimal_of(host as nat) + ":"@ + text::decimal_of(target as nat)
        + "\"\n"@
}

proof fn mappings_are_written(name: Seq<char>, mappings: Seq<PortMappingView>, k: int, j: int)
    requires
        0 <= k <= j < mappings.len(),
    ensures
        compose::mapping_lines(name, mappings, k) matches Ok(lines) ==> (mappings[j].host matches Some(
            host,
        ) ==> (mappings[j].target matches Some(target) ==> text::contains_of(
            lines,
            binding(host, target),
        ))),
    decreases mappings.len() - k,
{
    if let (Some(host), Some(target)) = (mappings[k].host, mappings[k].target) {
        if let Ok(rest) = compose::mapping_lines(name, mappings, k + 1) {
            let own = binding(host, target);
            let lines = compose::mapping_lines(name, mappings, k)->Ok_0;
            assert(lines =~= own + rest);
            if k == j {
                text::part_is_contained(Seq::empty(), own, rest);
                assert(Seq::<char>::empty() + own + rest =~= lines);
            } else {
                mappings_are_written(name, mappings, k + 1, j);
                if mappings[j].host is Some && mappings[j].target is Some {
                    let line = binding(mappings[j].host.unwrap(), mappings[j].target.unwrap());
                    text::contained_in_more(own, rest, Seq::empty(), line);
                    assert(own + rest + Seq::<char>::empty() =~= lines);
                }
            }
        }
    }
}

/// Where a service is written in an override: what stands before it, itself, and what stands after.
spec fn stands_between(whole: Seq<char>, parts: (Seq<char>, Seq<char>, Seq<char>)) -> bool {
    whole == parts.0 + parts.1 + parts.2
}

proof fn services_are_written(g: ComposeGroupView, k: int, i: int) -> (parts: (
    Seq<char>,
    Seq<char>,
    Seq<char>,
))
    requires
        0 <= k <= i < g.services.len(),
        compose::override_lines(g, k) is Ok,
    ensures
        stands_between(compose::override_lines(g, k)->Ok_0, parts),
        compose::service_lines(g, g.services[i]) == Ok::<Seq<char>, Seq<char>>(parts.1),
    decreases g.services.len() - k,
{
    let own = compose::service_lines(g, g.services[k])->Ok_0;
    let rest = compose::override_lines(g, k + 1)->Ok_0;
    if k == i {
        assert(own + rest =~= Seq::<char>::empty() + own + rest);
        (Seq::empty(), own, rest)
    } else {
        let (a, b, c) = services_are_written(g, k + 1, i);
        assert(own + rest =~= (own + a) + b + c);
        (own + a, b, c)
    }
}

/// An override says of every service of its group, under its own name, which worktree, project and
/// repository it is of, and binds just the ports that it publishes: each to the host's own interface
/// only, and none where it publishes nothing, whatever its compose file publishes.
pub proof fn overrides_bind_what_is_published(g: ComposeGroupView, i: int) -> (parts: (
    Seq<char>,
    Seq<char>,
    Seq<char>,
))
    requires
        0 <= i < g.services.len(),
        compose::override_of(g) is Ok,
    ensures
        ({
            let s = g.services[i];
            let (before, own, after) = parts;
            &&& compose::override_of(g)->Ok_0 == before + own + after
            &&& text::starts_with_of(own, "  \""@ + s.name + "\":\n"@)
            &&& text::contains_of(own, "magictree.worktree: \""@ + g.worktree_path + "\"\n"@)
            &&& text::contains_of(own, "magictree.project: \""@ + g.project + "\"\n"@)
            &&& text::contains_of(own, "magictree.repo: \""@ + g.repo_key + "\"\n"@)
            &&& s.expose != Expose::Port || s.mappings.len() == 0 ==> text::ends_with_of(
                own,
                "    ports: !reset []\n"@,
            )
            &&& s.expose == Expose::Port && s.mappings.len() > 0 ==> text::contains_of(
                own,
                "    ports: !override\n"@,
            ) && forall|j: int|
                0 <= j < s.mappings.len() ==> (#[trigger] s.mappings[j]).host is Some
                    && s.mappings[j].target is Some && text::contains_of(
                    own,
                    binding(s.mappings[j].host.unwrap(), s.mappings[j].target.unwrap()),
                )
        }),
{
    let s = g.services[i];
    let (a, own, after) = services_are_written(g, 0, i);
    let start = "# generated by magictree - do not edit\nservices:\n"@;
    let before = start + a;
    assert(compose::override_of(g)->Ok_0 =~= before + own + after);
    let name = "  \""@ + s.name + "\":\n"@;
    let labels = compose::label_lines(g, s.name);
    labels_say_whose_it_is(g, s.name);
    let lines = compose::mapping_lines(s.name, s.mappings, 0);
    if s.expose == Expose::Port && s.mappings.len() > 0 {
        let head = "    ports: !override\n"@;
        let tail = compose::environment_lines(s.environment);
        let bound = lines->Ok_0;
        assert(own =~= labels + (head + bound + tail));
        assert(own =~= labels + head + (bound + tail));
        text::part_is_contained(labels, head, bound + tail);
        assert(own =~= (labels + head) + bound + tail);
        compose::overrides_need_both_sides(g);
        assert forall|j: int| 0 <= j < s.mappings.len() implies (#[trigger] s.mappings[j]).host
            is Some && s.mappings[j].target is Some && text::contains_of(
            own,
            binding(s.mappings[j].host.unwrap(), s.mappings[j].target.unwrap()),
        ) by {
            assert(g.services[i].mappings[j].host is Some);
            mappings_are_written(s.name, s.mappings, 0, j);
            text::contained_in_more(
                labels + head,
                bound,
                tail,
                binding(s.mappings[j].host.unwrap(), s.mappings[j].target.unwrap()),
            );
        }
    } else {
        let tail = "    ports: !reset []\n"@;
        assert(own =~= labels + tail);
        assert(own.skip(own.len() - tail.len()) =~= tail);
    }
    let rest = own.skip(labels.len() as int);
    assert(own =~= Seq::<char>::empty() + labels + rest);
    text::contained_in_more(
        Seq::empty(),
        labels,
        rest,
        "magictree.worktree: \""@ + g.worktree_path + "\"\n"@,
    );
    text::contained_in_more(
        Seq::empty(),
        labels,
        rest,
        "magictree.project: \""@ + g.project + "\"\n"@,
    );
    text::contained_in_more(
        Seq::empty(),
        labels,
        rest,
        "magictree.repo: \""@ + g.repo_key + "\"\n"@,
    );
    assert(own.take(name.len() as int) =~= labels.take(name.len() as int));
    (before, own, after)
}

proof fn labels_say_whose_it_is(g: ComposeGroupView, name: Seq<char>)
    ensures
        ({
            let labels = compose::label_lines(g, name);
            &&& text::starts_with_of(labels, "  \""@ + name + "\":\n"@)
            &&& text::contains_of(labels, "magictree.worktree: \""@ + g.worktree_path + "\"\n"@)
            &&& text::contains_of(labels, "magictree.project: \""@ + g.project + "\"\n"@)
            &&& text::contains_of(labels, "magictree.repo: \""@ + g.repo_key + "\"\n"@)
        }),
{
    let labels = compose::label_lines(g, name);
    reveal_strlit("  \"");
    reveal_strlit("\":\n");
    reveal_strlit("\":\n    labels:\n      magictree.worktree: \"");
    reveal_strlit("\"\n      magictree.project: \"");
    reveal_strlit("\"\n      magictree.repo: \"");
    reveal_strlit("\"\n");
    reveal_strlit("magictree.worktree: \"");
    reveal_strlit("magictree.project: \"");
    reveal_strlit("magictree.repo: \"");
    reveal_strlit("    labels:\n      ");
    reveal_strlit("      ");
    let first = "  \""@ + name + "\":\n"@;
    let between = "    labels:\n      "@;
    let gap = "      "@;
    let worktree = "magictree.worktree: \""@ + g.worktree_path + "\"\n"@;
    let project = "magictree.project: \""@ + g.project + "\"\n"@;
    let repo = "magictree.repo: \""@ + g.repo_key + "\"\n"@;
    assert("\":\n    labels:\n      magictree.worktree: \""@ =~= "\":\n"@ + between
        + "magictree.worktree: \""@);
    assert("\"\n      magictree.project: \""@ =~= "\"\n"@ + gap + "magictree.project: \""@);
    assert("\"\n      magictree.repo: \""@ =~= "\"\n"@ + gap + "magictree.repo: \""@);
    assert(labels =~= first + between + worktree + gap + project + gap + repo);
    assert(labels.take(first.len() as int) =~= first);
    text::part_is_contained(first + between, worktree, gap + project + gap + repo);
    assert(labels =~= (first + between) + worktree + (gap + project + gap + repo));
    text::part_is_contained(first + between + worktree + gap, project, gap + repo);
    assert(labels =~= (first + between + worktree + gap) + project + (gap + repo));
    text::part_is_contained(first + between + worktree + gap + project + gap, repo, Seq::empty());
    assert(labels =~= (first + between + worktree + gap + project + gap) + repo
        + Seq::<char>::empty());
}

/// Whether a manifest has something to do once in a new worktree.
pub open spec fn has_something_to_do(b: BootstrapView) -> bool {
    b.sync.len() > 0 || b.run.len() > 0 || b.after.len() > 0
}

/// Whether the apps of a workspace lie in directories of their own.
pub open spec fn apps_lie_apart(l: LoadedView) -> bool {
    &&& forall|i: int, j: int|
        0 <= i < j < l.apps.len() ==> !paths::same_path(
            (#[trigger] l.apps[i]).dir,
            (#[trigger] l.apps[j]).dir,
        )
    &&& forall|i: int|
        0 <= i < l.apps.len() && !l.root_is_app ==> !paths::same_path(
            l.workspace_dir,
            (#[trigger] l.apps[i]).dir,
        )
}

/// Whether a directory is that of the workspace or of one of the first `k` apps.
spec fn lies_in(l: LoadedView, k: int, dir: Seq<char>) -> bool {
    (!l.root_is_app && dir == l.workspace_dir) || exists|j: int|
        0 <= j < k && (#[trigger] l.apps[j]).dir == dir
}

proof fn targets_come_from(
    l: LoadedView,
    nodes: Seq<NodeView>,
    selection: Seq<usize>,
    k: int,
    t: BootstrapTargetView,
)
    requires
        apps_lie_apart(l),
        0 <= k <= l.apps.len(),
    ensures
        ctx::targets_of(l, nodes, selection, k).contains(t) <==> is_set_up(
            l,
            nodes,
            selection,
            k,
            t,
        ),
        forall|i: int|
            0 <= i < ctx::targets_of(l, nodes, selection, k).len() ==> lies_in(
                l,
                k,
                (#[trigger] ctx::targets_of(l, nodes, selection, k)[i]).dir,
            ),
    decreases k,
{
    let now = ctx::targets_of(l, nodes, selection, k);
    if k > 0 {
        targets_come_from(l, nodes, selection, k - 1, t);
        let before = ctx::targets_of(l, nodes, selection, k - 1);
        let app = l.apps[k - 1];
        let dirs = ctx::target_dirs(before);
        assert(!paths::holds(dirs, app.dir)) by {
            if paths::holds(dirs, app.dir) {
                let i = choose|i: int|
                    0 <= i < dirs.len() && paths::same_path(#[trigger] dirs[i], app.dir);
                assert(before[i].dir == dirs[i]);
                assert(lies_in(l, k - 1, before[i].dir));
                if l.root_is_app || dirs[i] != l.workspace_dir {
                    let j = choose|j: int| 0 <= j < k - 1 && (#[trigger] l.apps[j]).dir == dirs[i];
                    assert(paths::same_path(l.apps[j].dir, l.apps[k - 1].dir));
                }
            }
        }
        if (l.root_is_app || ctx::in_selection(nodes, selection, app.id)) && ctx::has_steps(
            app.manifest.bootstrap,
        ) {
            let own = BootstrapTargetView {
                dir: app.dir,
                app: Some(app.id),
                steps: app.manifest.bootstrap,
            };
            assert(now == before.push(own));
            assert(now[before.len() as int] == own);
            if before.contains(t) {
                let i = choose|i: int| 0 <= i < before.len() && before[i] == t;
                assert(now[i] == t);
            }
            if now.contains(t) && t != own {
                let i = choose|i: int| 0 <= i < now.len() && now[i] == t;
                assert(before[i] == t);
            }
        }
        assert forall|i: int| 0 <= i < now.len() implies lies_in(l, k, (#[trigger] now[i]).dir) by {
            if i < before.len() {
                let dir = before[i].dir;
                assert(lies_in(l, k - 1, dir));
                if !(!l.root_is_app && dir == l.workspace_dir) {
                    let j = choose|j: int| 0 <= j < k - 1 && (#[trigger] l.apps[j]).dir == dir;
                    assert(l.apps[j].dir == dir);
                }
            } else {
                assert(l.apps[k - 1].dir == now[i].dir);
            }
        }
    } else {
        if !l.root_is_app && ctx::has_steps(l.workspace.bootstrap) {
            assert(now[0].dir == l.workspace_dir);
        }
    }
}

/// Whether something is set up for a selection: the workspace where it has steps of its own, and each
/// app with steps that something selected belongs to.
pub open spec fn is_set_up(
    l: LoadedView,
    nodes: Seq<NodeView>,
    selection: Seq<usize>,
    k: int,
    t: BootstrapTargetView,
) -> bool {
    ||| {
        &&& !l.root_is_app
        &&& has_something_to_do(l.workspace.bootstrap)
        &&& t == (BootstrapTargetView {
            dir: l.workspace_dir,
            app: None,
            steps: l.workspace.bootstrap,
        })
    }
    ||| exists|i: int|
        {
            &&& 0 <= i < k
            &&& has_something_to_do((#[trigger] l.apps[i]).manifest.bootstrap)
            &&& l.root_is_app || exists|j: int|
                0 <= j < selection.len() && nodes[#[trigger] selection[j] as int].app == Some(
                    l.apps[i].id,
                )
            &&& t == (BootstrapTargetView {
                dir: l.apps[i].dir,
                app: Some(l.apps[i].id),
                steps: l.apps[i].manifest.bootstrap,
            })
        }
}

/// What is set up before a selection starts is the workspace and the apps that the selection touches,
/// each with its own steps in its own directory, and nothing else.
pub proof fn selected_apps_are_set_up(
    l: LoadedView,
    nodes: Seq<NodeView>,
    selection: Seq<usize>,
    t: BootstrapTargetView,
)
    requires
        apps_lie_apart(l),
    ensures
        ctx::targets_of(l, nodes, selection, l.apps.len() as int).contains(t) <==> is_set_up(
            l,
            nodes,
            selection,
            l.apps.len() as int,
            t,
        ),
{
    targets_come_from(l, nodes, selection, l.apps.len() as int, t);
}

proof fn placed_keys(
    keys: Seq<(Seq<char>, Seq<char>)>,
    x: (Seq<char>, Seq<char>),
    y: (Seq<char>, Seq<char>),
)
    requires
        y == x || keys.contains(y),
    ensures
        ctx::with_key(keys, x).contains(y),
    decreases keys.len(),
{
    let now = ctx::with_key(keys, x);
    if keys.len() == 0 || !ctx::key_before(x, keys.last()) {
        if y == x {
            assert(now[keys.len() as int] == y);
        } else {
            let i = choose|i: int| 0 <= i < keys.len() && keys[i] == y;
            assert(now[i] == y);
        }
    } else {
        let rest = keys.drop_last();
        let inner = ctx::with_key(rest, x);
        if y != x && y == keys.last() {
            assert(now[inner.len() as int] == y);
        } else {
            if y != x {
                let i = choose|i: int| 0 <= i < keys.len() && keys[i] == y;
                assert(rest[i] == y);
            }
            placed_keys(rest, x, y);
            let j = choose|j: int| 0 <= j < inner.len() && inner[j] == y;
            assert(now[j] == y);
        }
    }
}

proof fn ordered_keys_stay(keys: Seq<(Seq<char>, Seq<char>)>, k: int, i: int)
    requires
        0 <= i < k <= keys.len(),
    ensures
        ctx::ordered_keys(keys, k).contains(keys[i]),
    decreases k,
{
    if i < k - 1 {
        ordered_keys_stay(keys, k - 1, i);
    }
    placed_keys(ctx::ordered_keys(keys, k - 1), keys[k - 1], keys[i]);
}

proof fn keys_are_held(
    slug: Seq<char>,
    nodes: Seq<NodeView>,
    wanted: spec_fn((Seq<char>, Seq<char>)) -> bool,
    k: int,
    i: int,
) -> (at: int)
    requires
        0 <= i < k <= nodes.len(),
        ctx::runner_key_of(slug, nodes[i]) is Some,
        wanted(ctx::runner_key_of(slug, nodes[i]).unwrap()),
    ensures
        0 <= at < ctx::keys_among(slug, nodes, wanted, k).len(),
        ctx::same_key(
            ctx::keys_among(slug, nodes, wanted, k)[at],
            ctx::runner_key_of(slug, nodes[i]).unwrap(),
        ),
    decreases k,
{
    let before = ctx::keys_among(slug, nodes, wanted, k - 1);
    if i == k - 1 {
        let key = ctx::runner_key_of(slug, nodes[i]).unwrap();
        if ctx::holds_key(before, key) {
            choose|j: int| 0 <= j < before.len() && ctx::same_key(#[trigger] before[j], key)
        } else {
            before.len() as int
        }
    } else {
        keys_are_held(slug, nodes, wanted, k - 1, i)
    }
}

/// Every compose service that is selected is in a group: one of its own compose file and project.
pub proof fn selected_containers_are_in_a_group(
    c: Ctx,
    selection: Seq<usize>,
    assigned: Seq<(Seq<char>, u16)>,
    i: int,
) -> (at: int)
    requires
        0 <= i < selection.len(),
        selection[i] < c.node_views().len(),
        ctx::runner_key_of(c.slug@, c.node_views()[selection[i] as int]) is Some,
    ensures
        ({
            let key = ctx::runner_key_of(c.slug@, c.node_views()[selection[i] as int]).unwrap();
            let groups = c.groups(selection, assigned);
            &&& 0 <= at < groups.len()
            &&& paths::same_path(groups[at].file, key.0)
            &&& groups[at].project == key.1
            &&& groups[at].worktree_path == c.repo@.worktree_root
        }),
{
    let nodes = c.node_views();
    let n = nodes.len() as int;
    let x = selection[i] as int;
    let key = ctx::runner_key_of(c.slug@, nodes[x]).unwrap();
    let wanted = ctx::touched_keys(c.slug@, nodes, selection);
    assert(ctx::has_runner(c.slug@, nodes[selection[i] as int], key));
    assert(wanted(key));
    let found = ctx::keys_among(c.slug@, nodes, wanted, n);
    let m = keys_are_held(c.slug@, nodes, wanted, n, x);
    ordered_keys_stay(found, found.len() as int, m);
    let keys = ctx::ordered_keys(found, found.len() as int);
    let at = choose|at: int| 0 <= at < keys.len() && keys[at] == found[m];
    assert(c.groups(selection, assigned)[at] == c.group(assigned, keys[at]));
    at
}

/// Each group is prepared with a runner of its own: of its own file and project, with the override that
/// binds its ports; and none is left out.
pub proof fn every_group_has_a_runner(
    runtime_dir: Seq<char>,
    groups: Seq<ComposeGroupView>,
    k: int,
)
    requires
        0 <= k <= groups.len(),
    ensures
        ctx::prepare_from(runtime_dir, groups, k) matches Ok(r) ==> {
            &&& r.len() == groups.len() - k
            &&& forall|i: int|
                0 <= i < r.len() ==> (#[trigger] r[i]).runner.file == groups[k + i].file
                    && r[i].runner.project == groups[k + i].project && r[i].runner.override_file
                    is Some && compose::override_of(groups[k + i]) == Ok::<Seq<char>, Seq<char>>(
                    r[i].contents,
                )
        },
        ctx::prepare_from(runtime_dir, groups, k) is Err <==> exists|i: int|
            k <= i < groups.len() && compose::override_of(#[trigger] groups[i]) is Err,
    decreases groups.len() - k,
{
    if k < groups.len() {
        every_group_has_a_runner(runtime_dir, groups, k + 1);
        if let Ok(r) = ctx::prepare_from(runtime_dir, groups, k) {
            let rest = ctx::prepare_from(runtime_dir, groups, k + 1)->Ok_0;
            assert forall|i: int| 0 <= i < r.len() implies (#[trigger] r[i]).runner.file == groups[k
                + i].file && r[i].runner.project == groups[k + i].project
                && r[i].runner.override_file is Some && compose::override_of(groups[k + i]) == Ok::<
                Seq<char>,
                Seq<char>,
            >(r[i].contents) by {
                if i > 0 {
                    assert(r[i] == rest[i - 1]);
                }
            }
        }
    }
}

} // verus!
