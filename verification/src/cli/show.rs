//! What the commands print of a stack: its summary, its status, its ports, and the worktrees.

use crate::cli::start;
use crate::cli::wait;
use crate::cli::wait::{WaitFor, WaitForView};
use crate::compose::{ContainerState, ContainerStateView};
use crate::ctx;
use crate::ctx::Ctx;
use crate::dict;
use crate::env;
use crate::env::Alias;
use crate::lists;
use crate::manifest;
use crate::manifest::{Node, NodeView, Runtime};
use crate::ports;
use crate::ports::{Assignment, AssignmentView, PortMode, PortRequest, PortRequestView};
use crate::text;
use crate::worktrees;
use crate::worktrees::{RecordedWorktree, RecordedWorktreeView, Row, RowView};
use vstd::prelude::*;

verus! {

// ---------------------------------------------------------------------------
// Addresses
// ---------------------------------------------------------------------------

/// Where a port is reached: on `localhost`, and at its alias where it has one.
pub open spec fn url_of(aliases: Seq<(u16, Seq<char>)>, port: u16) -> Seq<char> {
    "http://localhost:"@ + text::decimal_of(port as nat) + (match env::alias_at(aliases, port, 0) {
        Some(host) => "   http://"@ + host + ":"@ + text::decimal_of(port as nat),
        None => ""@,
    })
}

fn find_alias<'a>(aliases: &'a Vec<Alias>, port: u16) -> (r: Option<&'a str>)
    ensures
        match r {
            Some(host) => env::alias_at(env::alias_views(aliases@), port, 0) == Some(host@),
            None => env::alias_at(env::alias_views(aliases@), port, 0) is None,
        },
{
    let ghost all = env::alias_views(aliases@);
    let mut k: usize = 0;
    while k < aliases.len()
        invariant
            all == env::alias_views(aliases@),
            k <= aliases@.len(),
            env::alias_at(all, port, 0) == env::alias_at(all, port, k as int),
        decreases aliases@.len() - k,
    {
        assert(all[k as int] == (aliases@[k as int].port, aliases@[k as int].host@));
        if aliases[k].port == port {
            return Some(aliases[k].host.as_str());
        }
        k += 1;
    }
    None
}

fn show_url(aliases: &Vec<Alias>, port: u16) -> (r: String)
    ensures
        r@ == url_of(env::alias_views(aliases@), port),
{
    let number = text::decimal(port as u64);
    let alias = match find_alias(aliases, port) {
        Some(host) => {
            let mut alias = text::own("   http://");
            alias.append(host);
            alias.append(":");
            alias.append(&number);
            alias
        },
        None => text::own(""),
    };
    let mut url = text::concat("http://localhost:", &number);
    url.append(&alias);
    url
}

// ---------------------------------------------------------------------------
// Summary
// ---------------------------------------------------------------------------

/// The ports of the first `k` selected services.
pub open spec fn reachable_upto(
    nodes: Seq<NodeView>,
    selection: Seq<usize>,
    assigned: Seq<(Seq<char>, u16)>,
    k: int,
) -> Seq<(Seq<char>, u16)>
    decreases k,
{
    if k <= 0 {
        Seq::empty()
    } else {
        let node = nodes[selection[k - 1] as int];
        let before = reachable_upto(nodes, selection, assigned, k - 1);
        if node.service_of() is Some {
            before + ctx::assigned_of(node, assigned)
        } else {
            before
        }
    }
}

/// The services among the first `k` selected nodes that have no port.
pub open spec fn internal_upto(
    nodes: Seq<NodeView>,
    selection: Seq<usize>,
    assigned: Seq<(Seq<char>, u16)>,
    k: int,
) -> Seq<Seq<char>>
    decreases k,
{
    if k <= 0 {
        Seq::empty()
    } else {
        let node = nodes[selection[k - 1] as int];
        let before = internal_upto(nodes, selection, assigned, k - 1);
        if node.service_of() is Some && ctx::assigned_of(node, assigned).len() == 0 {
            before.push(node.qual_of())
        } else {
            before
        }
    }
}

/// The bytes of the longest of the first `k` labels.
pub open spec fn label_width(labels: Seq<(Seq<char>, u16)>, k: int) -> nat
    decreases k,
{
    if k <= 0 {
        0
    } else {
        let before = label_width(labels, k - 1);
        let last = env::byte_len(labels[k - 1].0);
        if last > before {
            last
        } else {
            before
        }
    }
}

/// The lines of the first `k` ports.
pub open spec fn reachable_lines(
    labels: Seq<(Seq<char>, u16)>,
    aliases: Seq<(u16, Seq<char>)>,
    width: nat,
    k: int,
) -> Seq<Seq<char>>
    decreases k,
{
    if k <= 0 {
        Seq::empty()
    } else {
        reachable_lines(labels, aliases, width, k - 1).push(
            env::padded(labels[k - 1].0, width) + "   "@ + url_of(aliases, labels[k - 1].1),
        )
    }
}

/// Everything reachable, so it is obvious how to use the stack once it is up.
pub open spec fn summary_of(
    nodes: Seq<NodeView>,
    selection: Seq<usize>,
    assigned: Seq<(Seq<char>, u16)>,
    aliases: Seq<(u16, Seq<char>)>,
) -> Seq<Seq<char>> {
    let n = selection.len() as int;
    let reachable = reachable_upto(nodes, selection, assigned, n);
    let internal = internal_upto(nodes, selection, assigned, n);
    if reachable.len() == 0 && internal.len() == 0 {
        Seq::empty()
    } else {
        seq![""@] + reachable_lines(
            reachable,
            aliases,
            label_width(reachable, reachable.len() as int),
            reachable.len() as int,
        ) + (if internal.len() > 0 {
            seq![
                "\n"@ + text::decimal_of(internal.len())
                    + " service(s) are internal to the stack (expose = \"none\"): "@
                    + text::join_of(internal, ", "@),
            ]
        } else {
            Seq::empty()
        }) + seq!["\n  magictree status --probe   magictree logs <service>   magictree down"@]
    }
}

fn add_ports(out: &mut Vec<(String, u16)>, more: Vec<(String, u16)>)
    ensures
        dict::entry_views(final(out)@) == dict::entry_views(old(out)@) + dict::entry_views(more@),
{
    let ghost start = out@;
    let ghost list = more@;
    let mut more = more;
    out.append(&mut more);
    assert(dict::entry_views(out@) =~= dict::entry_views(start) + dict::entry_views(list));
}

/// Everything reachable, so it is obvious how to use the stack once it is up.
pub fn print_summary(c: &Ctx, selection: &Vec<usize>, assignment: &Assignment) -> (r: Vec<String>)
    requires
        manifest::inside(selection@, c.nodes@.len()),
    ensures
        text::views(r@) == summary_of(
            c.node_views(),
            selection@,
            assignment@.ports,
            ctx::aliases_of(c.node_views(), assignment@.ports, c.slug@),
        ),
{
    let ghost nodes = c.node_views();
    let ghost assigned = assignment@.ports;
    let mut reachable: Vec<(String, u16)> = Vec::new();
    let mut internal: Vec<String> = Vec::new();
    let mut k: usize = 0;
    assert(dict::entry_views(reachable@) =~= Seq::<(Seq<char>, u16)>::empty());
    assert(text::views(internal@) =~= Seq::<Seq<char>>::empty());
    while k < selection.len()
        invariant
            nodes == c.node_views(),
            assigned == assignment@.ports,
            manifest::inside(selection@, c.nodes@.len()),
            k <= selection@.len(),
            dict::entry_views(reachable@) == reachable_upto(
                nodes,
                selection@,
                assigned,
                k as int,
            ),
            text::views(internal@) == internal_upto(nodes, selection@, assigned, k as int),
        decreases selection@.len() - k,
    {
        let node = &c.nodes[selection[k]];
        assert(nodes[selection@[k as int] as int] == node@);
        if node.service().is_some() {
            let ports = c.assigned_ports(node, assignment);
            assert(dict::entry_views(ports@).len() == ports@.len());
            if ports.len() == 0 {
                text::add(&mut internal, &node.qual());
                assert(dict::entry_views(reachable@) + dict::entry_views(ports@)
                    =~= dict::entry_views(reachable@));
            } else {
                add_ports(&mut reachable, ports);
            }
        }
        k += 1;
    }
    let ghost labels = dict::entry_views(reachable@);
    assert(labels.len() == reachable@.len());
    let mut lines: Vec<String> = Vec::new();
    assert(text::views(lines@) =~= Seq::<Seq<char>>::empty());
    if reachable.len() == 0 && internal.len() == 0 {
        return lines;
    }
    let aliases = c.aliases(assignment);
    let ghost hosts = env::alias_views(aliases@);
    text::add(&mut lines, "");
    assert(text::views(lines@) =~= seq![""@]);
    let mut width: usize = 0;
    let mut k: usize = 0;
    while k < reachable.len()
        invariant
            labels == dict::entry_views(reachable@),
            k <= reachable@.len(),
            width == label_width(labels, k as int),
        decreases reachable@.len() - k,
    {
        assert(labels[k as int].0 == reachable@[k as int].0@);
        let n: usize = reachable[k].0.as_str().as_bytes().len();
        if n > width {
            width = n;
        }
        k += 1;
    }
    let mut k: usize = 0;
    assert(seq![""@] + Seq::<Seq<char>>::empty() =~= seq![""@]);
    while k < reachable.len()
        invariant
            labels == dict::entry_views(reachable@),
            hosts == env::alias_views(aliases@),
            k <= reachable@.len(),
            text::views(lines@) == seq![""@] + reachable_lines(
                labels,
                hosts,
                width as nat,
                k as int,
            ),
        decreases reachable@.len() - k,
    {
        assert(labels[k as int] == (reachable@[k as int].0@, reachable@[k as int].1));
        let mut line = env::pad(&reachable[k].0, width);
        line.append("   ");
        line.append(&show_url(&aliases, reachable[k].1));
        text::add(&mut lines, &line);
        k += 1;
        assert(text::views(lines@) =~= seq![""@] + reachable_lines(
            labels,
            hosts,
            width as nat,
            k as int,
        ));
    }
    let ghost before = text::views(lines@);
    if internal.len() > 0 {
        let mut line = text::concat("\n", &text::decimal(internal.len() as u64));
        line.append(" service(s) are internal to the stack (expose = \"none\"): ");
        line.append(&text::join(&internal, ", "));
        text::add(&mut lines, &line);
        assert(text::views(lines@) =~= before + seq![line@]);
    } else {
        assert(before + Seq::<Seq<char>>::empty() =~= before);
    }
    let ghost told = text::views(lines@);
    text::add(
        &mut lines,
        "\n  magictree status --probe   magictree logs <service>   magictree down",
    );
    assert(text::views(lines@) =~= told + seq![
        "\n  magictree status --probe   magictree logs <service>   magictree down"@,
    ]);
    lines
}

// ---------------------------------------------------------------------------
// Status
// ---------------------------------------------------------------------------

/// The state of a service's container.
pub open spec fn container_status_of(states: Seq<ContainerStateView>, container: Seq<char>) -> Seq<
    char,
> {
    match wait::container_named(states, container, 0) {
        Some(state) => match state.health {
            Some(health) => if health.len() > 0 {
                state.state + " ("@ + health + ")"@
            } else {
                state.state
            },
            None => state.state,
        },
        None => "not created"@,
    }
}

/// The state of a compose service.
pub fn container_status(node: &Node, states: &Vec<ContainerState>) -> (r: String)
    ensures
        r@ == container_status_of(text::views(states@), start::container_name(node@)),
{
    match wait::find_container(states, &start::container_of(node)) {
        Some(state) => match &state.health {
            Some(health) => if text::length(health) > 0 {
                let mut line = state.state.clone();
                line.append(" (");
                line.append(health);
                line.append(")");
                line
            } else {
                state.state.clone()
            },
            None => state.state.clone(),
        },
        None => text::own("not created"),
    }
}

/// The state of a host service, given its process where that is alive.
pub fn process_status(alive: Option<i32>) -> (r: String)
    ensures
        r@ == (match alive {
            Some(pid) => "running (pid "@ + text::signed_decimal_of(pid as int) + ")"@,
            None => "stopped"@,
        }),
{
    match alive {
        Some(pid) => {
            let mut line = text::own("running (pid ");
            line.append(&text::signed_decimal(pid as i64));
            line.append(")");
            line
        },
        None => text::own("stopped"),
    }
}

/// The seconds that `status` gives a probe.
pub const PROBE_SECS: u64 = 2;

/// What `status --probe` tries of a service: its declared probe, where it has a port.
pub open spec fn status_probe_of(node: NodeView, assigned: Seq<(Seq<char>, u16)>) -> Option<
    WaitForView,
> {
    match node.service_of() {
        Some(service) => match (
            service.health,
            wait::probed_port(ctx::assigned_of(node, assigned)),
        ) {
            (Some(health), Some(port)) => match wait::probe_of(
                health,
                Some(port),
                PROBE_SECS,
                node.qual_of(),
            ) {
                Ok(Some(probe)) => Some(probe),
                _ => Some(WaitForView::Nothing),
            },
            _ => None,
        },
        None => None,
    }
}

/// What `status --probe` tries of a service: its declared probe, where it has a port. A declaration
/// that names no probe counts as healthy.
pub fn status_probe(c: &Ctx, node: &Node, assignment: &Assignment) -> (r: Option<WaitFor>)
    ensures
        text::opt_view(r) == status_probe_of(node@, assignment@.ports),
{
    if let Some(service) = node.service() {
        if let Some(health) = &service.health {
            if let Some(port) = wait::first_port(c, node, assignment) {
                return match wait::find_probe(health, Some(port), PROBE_SECS, &node.qual()) {
                    Ok(Some(probe)) => Some(probe),
                    _ => Some(WaitFor::Nothing),
                };
            }
        }
    }
    None
}

/// The line that `status` prints of a service.
pub open spec fn status_line_of(
    node: NodeView,
    assigned: Seq<(Seq<char>, u16)>,
    aliases: Seq<(u16, Seq<char>)>,
    state: Seq<char>,
    healthy: Option<bool>,
) -> Seq<char> {
    env::padded(node.qual_of(), 24) + " "@ + env::padded(
        if node.runtime_of() == Some(Runtime::Compose) {
            "compose"@
        } else {
            "host"@
        },
        8,
    ) + " "@ + env::padded(
        state + (match healthy {
            Some(true) => " healthy"@,
            Some(false) => " unhealthy"@,
            None => ""@,
        }),
        28,
    ) + " "@ + (match wait::probed_port(ctx::assigned_of(node, assigned)) {
        Some(port) => url_of(aliases, port),
        None => ""@,
    })
}

/// The line that `status` prints of a service: its name, how it is launched, its state and the
/// answer of its probe, and where it is reached. Without an assignment it is reached nowhere.
pub fn status_line(
    c: &Ctx,
    node: &Node,
    assignment: &Assignment,
    state: &str,
    healthy: Option<bool>,
) -> (r: String)
    ensures
        r@ == status_line_of(
            node@,
            assignment@.ports,
            ctx::aliases_of(c.node_views(), assignment@.ports, c.slug@),
            state@,
            healthy,
        ),
{
    let launched = match node.runtime() {
        Some(Runtime::Compose) => "compose",
        _ => "host",
    };
    let mut said = text::own(state);
    said.append(
        match healthy {
            Some(healthy) => if healthy {
                " healthy"
            } else {
                " unhealthy"
            },
            None => "",
        },
    );
    let url = match wait::first_port(c, node, assignment) {
        Some(port) => show_url(&c.aliases(assignment), port),
        None => text::own(""),
    };
    let mut line = env::pad(&node.qual(), 24);
    line.append(" ");
    line.append(&env::pad(launched, 8));
    line.append(" ");
    line.append(&env::pad(&said, 28));
    line.append(" ");
    line.append(&url);
    line
}

// ---------------------------------------------------------------------------
// Ports
// ---------------------------------------------------------------------------

/// What a dry run says of a port that a service asks for.
pub open spec fn request_line(request: PortRequestView, mode: PortMode) -> Seq<char> {
    env::padded(request.name, 24) + " "@ + (match request.require {
        Some(port) => "required "@ + text::decimal_of(port as nat),
        None => match (request.prefer, mode) {
            (Some(port), PortMode::Declared) => "declared "@ + text::decimal_of(port as nat),
            (Some(port), PortMode::Block) => "declares "@ + text::decimal_of(port as nat)
                + ", allocated from the block"@,
            (None, _) => "allocated from the block"@,
        },
    })
}

/// What a dry run says of the first `k` ports that services ask for.
pub open spec fn request_lines(requests: Seq<PortRequestView>, mode: PortMode, k: int) -> Seq<
    Seq<char>,
>
    decreases k,
{
    if k <= 0 {
        Seq::empty()
    } else {
        request_lines(requests, mode, k - 1).push(request_line(requests[k - 1], mode))
    }
}

/// What `ports` says in a dry run.
pub open spec fn ports_preview_of(c: Ctx) -> Seq<Seq<char>> {
    let mode = if c.repo@.is_main() {
        PortMode::Declared
    } else {
        PortMode::Block
    };
    let requests = lists::gathered(
        ctx::service_indices(c.node_views()),
        ctx::requests_at(c.node_views()),
    );
    seq![
        "dry run: no assignment is read, claimed, or released"@,
        "worktree "@ + c.slug@ + " takes "@ + mode.description() + " ports"@ + (match mode {
            PortMode::Declared => "; `up --ports generated` allocates from its block instead"@,
            PortMode::Block => ": a linked worktree never takes a declared port"@,
        }),
    ] + (if requests.len() == 0 {
        seq!["no service exposes a port"@]
    } else {
        Seq::empty()
    }) + request_lines(requests, mode, requests.len() as int) + seq![
        "distinct blocks are assigned per worktree from "@ + text::decimal_of(
            c.config.port_range_start as nat,
        ) + ".."@ + text::decimal_of(c.config.port_range_end as nat) + " (stride "@
            + text::decimal_of(c.config.port_stride as nat) + ")"@,
    ]
}

fn show_request(request: &PortRequest, mode: PortMode) -> (r: String)
    ensures
        r@ == request_line(request@, mode),
{
    let what = match request.require {
        Some(port) => text::concat("required ", &text::decimal(port as u64)),
        None => match request.prefer {
            Some(port) => match mode {
                PortMode::Declared => text::concat("declared ", &text::decimal(port as u64)),
                PortMode::Block => {
                    let mut what = text::concat("declares ", &text::decimal(port as u64));
                    what.append(", allocated from the block");
                    what
                },
            },
            None => text::own("allocated from the block"),
        },
    };
    let mut line = env::pad(&request.name, 24);
    line.append(" ");
    line.append(&what);
    line
}

/// What `ports` says in a dry run: nothing is read, claimed, or released.
pub fn ports_preview(c: &Ctx) -> (r: Vec<String>)
    ensures
        text::views(r@) == ports_preview_of(*c),
{
    let mode = if c.repo.is_main_worktree() {
        PortMode::Declared
    } else {
        PortMode::Block
    };
    let mut takes = text::own("worktree ");
    takes.append(&c.slug);
    takes.append(" takes ");
    takes.append(&mode.describe());
    takes.append(" ports");
    takes.append(
        match mode {
            PortMode::Declared => "; `up --ports generated` allocates from its block instead",
            PortMode::Block => ": a linked worktree never takes a declared port",
        },
    );
    let mut lines: Vec<String> = Vec::new();
    text::add(&mut lines, "dry run: no assignment is read, claimed, or released");
    text::add(&mut lines, &takes);
    let ghost first = text::views(lines@);
    assert(first =~= seq!["dry run: no assignment is read, claimed, or released"@, takes@]);
    let ghost nodes = c.node_views();
    let services = c.all_service_indices();
    let count: usize = c.nodes.len();
    proof {
        assert(nodes.len() == count);
        lists::indices_are_exact(
            nodes.len() as int,
            |i: int| nodes[i].service_of() is Some,
        );
        assert forall|i: int| 0 <= i < services@.len() implies #[trigger] services@[i]
            < nodes.len() by {
            assert(services@.contains(services@[i]));
        }
    }
    let requests = c.port_requests(&services);
    let ghost all = text::views(requests@);
    if requests.len() == 0 {
        text::add(&mut lines, "no service exposes a port");
        assert(text::views(lines@) =~= first + seq!["no service exposes a port"@]);
    } else {
        assert(first + Seq::<Seq<char>>::empty() =~= first);
    }
    let ghost second = text::views(lines@);
    let mut k: usize = 0;
    assert(second + Seq::<Seq<char>>::empty() =~= second);
    while k < requests.len()
        invariant
            all == text::views(requests@),
            k <= requests@.len(),
            text::views(lines@) == second + request_lines(all, mode, k as int),
        decreases requests@.len() - k,
    {
        assert(all[k as int] == requests@[k as int]@);
        text::add(&mut lines, &show_request(&requests[k], mode));
        k += 1;
        assert(text::views(lines@) =~= second + request_lines(all, mode, k as int));
    }
    let ghost third = text::views(lines@);
    let mut range = text::own("distinct blocks are assigned per worktree from ");
    range.append(&text::decimal(c.config.port_range_start as u64));
    range.append("..");
    range.append(&text::decimal(c.config.port_range_end as u64));
    range.append(" (stride ");
    range.append(&text::decimal(c.config.port_stride as u64));
    range.append(")");
    text::add(&mut lines, &range);
    assert(text::views(lines@) =~= third + seq![range@]);
    lines
}

/// Whether one of the ports lies in a block.
pub open spec fn in_block(ports: Seq<(Seq<char>, u16)>, base: u16, stride: u16) -> bool {
    exists|i: int|
        0 <= i < ports.len() && base <= (#[trigger] ports[i]).1 && ports[i].1 < (if base + stride
            > u16::MAX {
            u16::MAX as int
        } else {
            base + stride
        })
}

/// The lines of the first `k` ports of an assignment.
pub open spec fn port_lines(
    ports: Seq<(Seq<char>, u16)>,
    aliases: Seq<(u16, Seq<char>)>,
    k: int,
) -> Seq<Seq<char>>
    decreases k,
{
    if k <= 0 {
        Seq::empty()
    } else {
        port_lines(ports, aliases, k - 1).push(
            env::padded(ports[k - 1].0, 24) + " "@ + env::padded(
                text::decimal_of(ports[k - 1].1 as nat),
                6,
            ) + " "@ + url_of(aliases, ports[k - 1].1),
        )
    }
}

/// Where the ports of an assignment come from.
pub open spec fn origin_of(a: AssignmentView, stride: u16) -> Seq<char> {
    let block = text::decimal_of(a.base as nat) + "-"@ + text::decimal_of(
        worktrees::block_end(a.base, stride) as nat,
    );
    match a.mode {
        PortMode::Block => "generated ports, block "@ + block,
        PortMode::Declared => if in_block(a.ports, a.base, stride) {
            "declared ports plus block "@ + block
        } else {
            "declared ports"@
        },
    }
}

fn any_in_block(a: &Assignment, stride: u16) -> (r: bool)
    ensures
        r == in_block(a@.ports, a.base, stride),
{
    let end: u32 = if a.base as u32 + stride as u32 > u16::MAX as u32 {
        u16::MAX as u32
    } else {
        a.base as u32 + stride as u32
    };
    let n: usize = a.ports.len();
    let mut k: usize = 0;
    while k < n
        invariant
            n == a@.ports.len(),
            k <= n,
            end == (if a.base + stride > u16::MAX {
                u16::MAX as int
            } else {
                a.base + stride
            }),
            forall|i: int|
                0 <= i < k ==> !(a.base <= (#[trigger] a@.ports[i]).1 && a@.ports[i].1 < end),
        decreases n - k,
    {
        let port: u16 = *a.ports.value_at(k);
        assert(a@.ports[k as int].1 == port);
        if port >= a.base && (port as u32) < end {
            return true;
        }
        k += 1;
    }
    false
}

/// What `ports` says of an assignment.
pub fn port_report(c: &Ctx, assignment: &Assignment) -> (r: Vec<String>)
    requires
        c.config.port_stride >= 1,
    ensures
        text::views(r@) == seq![
            "worktree "@ + c.slug@ + " ("@ + origin_of(assignment@, c.config.port_stride) + ")"@,
        ] + port_lines(
            assignment@.ports,
            ctx::aliases_of(c.node_views(), assignment@.ports, c.slug@),
            assignment@.ports.len() as int,
        ),
{
    let stride = c.config.port_stride;
    let last: u16 = if assignment.base > u16::MAX - (stride - 1) {
        u16::MAX
    } else {
        assignment.base + (stride - 1)
    };
    let mut block = text::decimal(assignment.base as u64);
    block.append("-");
    block.append(&text::decimal(last as u64));
    let origin = match assignment.mode {
        PortMode::Block => text::concat("generated ports, block ", &block),
        PortMode::Declared => if any_in_block(assignment, stride) {
            text::concat("declared ports plus block ", &block)
        } else {
            text::own("declared ports")
        },
    };
    let mut first = text::own("worktree ");
    first.append(&c.slug);
    first.append(" (");
    first.append(&origin);
    first.append(")");
    let aliases = c.aliases(assignment);
    let ghost hosts = env::alias_views(aliases@);
    let ghost said = first@;
    let mut lines: Vec<String> = text::single(first);
    assert(text::views(lines@) =~= seq![said]);
    let n: usize = assignment.ports.len();
    let mut k: usize = 0;
    assert(seq![said] + Seq::<Seq<char>>::empty() =~= seq![said]);
    while k < n
        invariant
            n == assignment@.ports.len(),
            hosts == env::alias_views(aliases@),
            k <= n,
            text::views(lines@) == seq![said] + port_lines(assignment@.ports, hosts, k as int),
        decreases n - k,
    {
        let port: u16 = *assignment.ports.value_at(k);
        let mut line = env::pad(assignment.ports.key_at(k), 24);
        line.append(" ");
        line.append(&env::pad(&text::decimal(port as u64), 6));
        line.append(" ");
        line.append(&show_url(&aliases, port));
        text::add(&mut lines, &line);
        k += 1;
        assert(text::views(lines@) =~= seq![said] + port_lines(
            assignment@.ports,
            hosts,
            k as int,
        ));
    }
    lines
}

/// What is said once an assignment was dropped, given its block file where there was one. `--release`
/// also says what that means for the ports.
pub fn release_lines(file: &Option<String>, reassign: bool) -> (r: Vec<String>)
    ensures
        text::views(r@) == (match *file {
            Some(file) => if reassign {
                seq!["released "@ + file@]
            } else {
                seq![
                    "released "@ + file@,
                    "these ports are no longer reserved; the next command that needs them allocates again"@,
                ]
            },
            None => seq!["no assignment to release"@],
        }),
{
    let mut lines: Vec<String> = Vec::new();
    match file {
        Some(file) => {
            let said = text::concat("released ", file);
            text::add(&mut lines, &said);
            if reassign {
                assert(text::views(lines@) =~= seq![said@]);
            } else {
                text::add(
                    &mut lines,
                    "these ports are no longer reserved; the next command that needs them allocates again",
                );
                assert(text::views(lines@) =~= seq![
                    said@,
                    "these ports are no longer reserved; the next command that needs them allocates again"@,
                ]);
            }
        },
        None => {
            text::add(&mut lines, "no assignment to release");
            assert(text::views(lines@) =~= seq!["no assignment to release"@]);
        },
    }
    lines
}

// ---------------------------------------------------------------------------
// Worktrees
// ---------------------------------------------------------------------------

/// The lines of the first `k` rows of `list`.
pub open spec fn row_lines(rows: Seq<RowView>, k: int) -> Seq<Seq<char>>
    decreases k,
{
    if k <= 0 {
        Seq::empty()
    } else {
        row_lines(rows, k - 1).push(
            env::padded(rows[k - 1].id, 10) + " "@ + env::padded(rows[k - 1].path, 44) + " "@
                + rows[k - 1].ports,
        )
    }
}

/// What `list` prints.
pub fn list_lines(rows: &Vec<Row>) -> (r: Vec<String>)
    ensures
        text::views(r@) == seq![
            env::padded("worktree"@, 10) + " "@ + env::padded("path"@, 44) + " ports"@,
        ] + row_lines(text::views(rows@), rows@.len() as int),
{
    let ghost all = text::views(rows@);
    let mut head = env::pad("worktree", 10);
    head.append(" ");
    head.append(&env::pad("path", 44));
    head.append(" ports");
    let ghost said = head@;
    let mut lines: Vec<String> = text::single(head);
    assert(text::views(lines@) =~= seq![said]);
    let mut k: usize = 0;
    assert(seq![said] + Seq::<Seq<char>>::empty() =~= seq![said]);
    while k < rows.len()
        invariant
            all == text::views(rows@),
            k <= rows@.len(),
            text::views(lines@) == seq![said] + row_lines(all, k as int),
        decreases rows@.len() - k,
    {
        assert(all[k as int] == rows@[k as int]@);
        let mut line = env::pad(&rows[k].id, 10);
        line.append(" ");
        line.append(&env::pad(&rows[k].path, 44));
        line.append(" ");
        line.append(&rows[k].ports);
        text::add(&mut lines, &line);
        k += 1;
        assert(text::views(lines@) =~= seq![said] + row_lines(all, k as int));
    }
    lines
}

/// How a repository is named: by its primary checkout, or by its key where nobody knows it.
pub open spec fn repository_name(row: RecordedWorktreeView) -> Seq<char> {
    match row.repo_path {
        Some(path) => path,
        None => row.repo_key,
    }
}

/// The line of a record.
pub open spec fn record_line(row: RecordedWorktreeView) -> Seq<char> {
    "  "@ + env::padded(row.worktree_id, 10) + " "@ + env::padded(worktrees::mark_of(row), 8) + " "@
        + env::padded(
        match row.path {
            Some(path) => path,
            None => "-"@,
        },
        44,
    ) + " "@ + (if row.ports.len() > 0 {
        row.ports
    } else {
        "-"@
    })
}

/// The lines of the first `k` records, under the name of their repository.
pub open spec fn record_lines(rows: Seq<RecordedWorktreeView>, k: int) -> Seq<Seq<char>>
    decreases k,
{
    if k <= 0 {
        Seq::empty()
    } else {
        let before = record_lines(rows, k - 1);
        (if k == 1 || rows[k - 2].repo_key != rows[k - 1].repo_key {
            before.push(repository_name(rows[k - 1]))
        } else {
            before
        }).push(record_line(rows[k - 1]))
    }
}

/// What `list --all` prints: the records, repository by repository, each with its mark.
pub fn list_all_lines(rows: &Vec<RecordedWorktree>) -> (r: Vec<String>)
    ensures
        text::views(r@) == record_lines(text::views(rows@), rows@.len() as int),
{
    let ghost all = text::views(rows@);
    let mut lines: Vec<String> = Vec::new();
    let mut k: usize = 0;
    assert(text::views(lines@) =~= Seq::<Seq<char>>::empty());
    while k < rows.len()
        invariant
            all == text::views(rows@),
            k <= rows@.len(),
            text::views(lines@) == record_lines(all, k as int),
        decreases rows@.len() - k,
    {
        let row = &rows[k];
        assert(all[k as int] == row@);
        if k > 0 {
            assert(all[k - 1] == rows@[k - 1]@);
        }
        if k == 0 || !text::same(&rows[k - 1].repo_key, &row.repo_key) {
            match &row.repo_path {
                Some(path) => {
                    text::add(&mut lines, path);
                },
                None => {
                    text::add(&mut lines, &row.repo_key);
                },
            }
        }
        let mut line = text::concat("  ", &env::pad(&row.worktree_id, 10));
        line.append(" ");
        line.append(&env::pad(worktrees::mark(row), 8));
        line.append(" ");
        match &row.path {
            Some(path) => {
                line.append(&env::pad(path, 44));
            },
            None => {
                line.append(&env::pad("-", 44));
            },
        }
        line.append(" ");
        if text::length(&row.ports) > 0 {
            line.append(&row.ports);
        } else {
            line.append("-");
        }
        text::add(&mut lines, &line);
        k += 1;
    }
    lines
}

} // verus!
