//! Waiting for services: what is waited for, and when waiting ends.

use crate::compose::{ContainerState, ContainerStateView};
use crate::ctx;
use crate::ctx::Ctx;
use crate::health::PollStep;
use crate::manifest::{HealthView, Node, NodeView, Wait};
use crate::ports::Assignment;
use crate::text;
use vstd::prelude::*;

verus! {

/// What is waited for, and for how many seconds.
#[derive(Debug)]
#[allow(inconsistent_fields)]
pub enum WaitFor {
    /// An answer at a path on a port.
    Http { port: u16, path: String, timeout: u64 },
    /// A connection to a port.
    Tcp { port: u16, timeout: u64 },
    /// A command that succeeds.
    Command { command: String, timeout: u64 },
    /// A container that runs and is healthy.
    Container { timeout: u64 },
    /// A container that has run to completion.
    Exit { timeout: u64 },
    Nothing,
}

/// The contents of a [`WaitFor`].
#[verifier::ext_equal]
#[allow(inconsistent_fields)]
pub enum WaitForView {
    Http { port: u16, path: Seq<char>, timeout: u64 },
    Tcp { port: u16, timeout: u64 },
    Command { command: Seq<char>, timeout: u64 },
    Container { timeout: u64 },
    Exit { timeout: u64 },
    Nothing,
}

impl View for WaitFor {
    type V = WaitForView;

    open spec fn view(&self) -> WaitForView {
        match self {
            WaitFor::Http { port, path, timeout } => WaitForView::Http {
                port: *port,
                path: path@,
                timeout: *timeout,
            },
            WaitFor::Tcp { port, timeout } => WaitForView::Tcp { port: *port, timeout: *timeout },
            WaitFor::Command { command, timeout } => WaitForView::Command {
                command: command@,
                timeout: *timeout,
            },
            WaitFor::Container { timeout } => WaitForView::Container { timeout: *timeout },
            WaitFor::Exit { timeout } => WaitForView::Exit { timeout: *timeout },
            WaitFor::Nothing => WaitForView::Nothing,
        }
    }
}

/// The port that a service is probed on: its first.
pub open spec fn probed_port(assigned: Seq<(Seq<char>, u16)>) -> Option<u16> {
    if assigned.len() > 0 {
        Some(assigned[0].1)
    } else {
        None
    }
}

/// The probe that a declaration asks for on a port: an HTTP path first, then the port alone, then a
/// command.
pub open spec fn probe_of(health: HealthView, port: Option<u16>, timeout: u64, name: Seq<char>) -> Result<
    Option<WaitForView>,
    Seq<char>,
> {
    if let Some(path) = health.http {
        match port {
            Some(port) => Ok(Some(WaitForView::Http { port, path, timeout })),
            None => Err(name + ": health.http needs an allocated port"@),
        }
    } else if health.tcp == Some(true) {
        match port {
            Some(port) => Ok(Some(WaitForView::Tcp { port, timeout })),
            None => Err(name + ": health.tcp needs an allocated port"@),
        }
    } else if let Some(command) = health.command {
        Ok(Some(WaitForView::Command { command, timeout }))
    } else {
        Ok(None)
    }
}

/// The seconds that a probe is given.
pub open spec fn probe_timeout(health: HealthView, default: u64) -> u64 {
    match health.timeout {
        Some(timeout) => timeout,
        None => default,
    }
}

/// Timeout for a one-shot initialiser: generous, because it may run migrations or provision an
/// identity provider.
pub open spec fn initializer_of(health_timeout: u64) -> u64 {
    if health_timeout > 600 {
        health_timeout
    } else {
        600
    }
}

/// Timeout for a one-shot initialiser.
pub fn initializer_timeout(c: &Ctx) -> (r: u64)
    ensures
        r == initializer_of(c.config.health_timeout_secs),
{
    if c.config.health_timeout_secs > 600 {
        c.config.health_timeout_secs
    } else {
        600
    }
}

/// What has to happen before a service counts as started: a one-shot container has to finish, and
/// anything else has to answer its probe. Without a probe a container has to run, and a process is
/// not waited for.
pub open spec fn readiness_of(
    node: NodeView,
    assigned: Seq<(Seq<char>, u16)>,
    health_timeout: u64,
    container: bool,
) -> Result<WaitForView, Seq<char>> {
    let service = node.service_of().unwrap();
    let fallback = if container {
        WaitForView::Container { timeout: health_timeout }
    } else {
        WaitForView::Nothing
    };
    if container && service.wait == Wait::Exit {
        Ok(WaitForView::Exit { timeout: initializer_of(health_timeout) })
    } else {
        match service.health {
            Some(health) => match probe_of(
                health,
                probed_port(ctx::assigned_of(node, assigned)),
                probe_timeout(health, health_timeout),
                node.qual_of(),
            ) {
                Err(e) => Err(e),
                Ok(Some(probe)) => Ok(probe),
                Ok(None) => Ok(fallback),
            },
            None => Ok(fallback),
        }
    }
}

pub(crate) fn first_port(c: &Ctx, node: &Node, assignment: &Assignment) -> (r: Option<u16>)
    ensures
        r == probed_port(ctx::assigned_of(node@, assignment@.ports)),
{
    let assigned = c.assigned_ports(node, assignment);
    assert(crate::dict::entry_views(assigned@).len() == assigned@.len());
    if assigned.len() > 0 {
        Some(assigned[0].1)
    } else {
        None
    }
}

pub(crate) fn find_probe(
    health: &crate::manifest::Health,
    port: Option<u16>,
    timeout: u64,
    name: &str,
) -> (r: Result<Option<WaitFor>, String>)
    ensures
        match r {
            Ok(probe) => probe_of(health@, port, timeout, name@) == Ok::<
                Option<WaitForView>,
                Seq<char>,
            >(text::opt_view(probe)),
            Err(e) => probe_of(health@, port, timeout, name@) == Err::<
                Option<WaitForView>,
                Seq<char>,
            >(e@),
        },
{
    if let Some(path) = &health.http {
        return match port {
            Some(port) => Ok(Some(WaitFor::Http { port, path: path.clone(), timeout })),
            None => Err(text::concat(name, ": health.http needs an allocated port")),
        };
    }
    let tcp = match health.tcp {
        Some(tcp) => tcp,
        None => false,
    };
    if tcp {
        return match port {
            Some(port) => Ok(Some(WaitFor::Tcp { port, timeout })),
            None => Err(text::concat(name, ": health.tcp needs an allocated port")),
        };
    }
    match &health.command {
        Some(command) => Ok(Some(WaitFor::Command { command: command.clone(), timeout })),
        None => Ok(None),
    }
}

/// What has to happen before a service counts as started. `container` says whether compose starts
/// it.
pub fn readiness(c: &Ctx, node: &Node, assignment: &Assignment, container: bool) -> (r: Result<
    WaitFor,
    String,
>)
    requires
        node@.service_of() is Some,
    ensures
        match r {
            Ok(wait) => readiness_of(
                node@,
                assignment@.ports,
                c.config.health_timeout_secs,
                container,
            ) == Ok::<WaitForView, Seq<char>>(wait@),
            Err(e) => readiness_of(
                node@,
                assignment@.ports,
                c.config.health_timeout_secs,
                container,
            ) == Err::<WaitForView, Seq<char>>(e@),
        },
{
    if let Some(service) = node.service() {
        let one_shot = match service.wait {
            Wait::Exit => true,
            Wait::Running => false,
        };
        if container && one_shot {
            return Ok(WaitFor::Exit { timeout: initializer_timeout(c) });
        }
        if let Some(health) = &service.health {
            let timeout = health.timeout_secs(c.config.health_timeout_secs);
            match find_probe(health, first_port(c, node, assignment), timeout, &node.qual()) {
                Err(e) => {
                    return Err(e);
                },
                Ok(Some(probe)) => {
                    return Ok(probe);
                },
                Ok(None) => {},
            }
        }
    }
    if container {
        Ok(WaitFor::Container { timeout: c.config.health_timeout_secs })
    } else {
        Ok(WaitFor::Nothing)
    }
}

/// The first container of a service, from `k` on.
pub open spec fn container_named(states: Seq<ContainerStateView>, service: Seq<char>, k: int) -> Option<
    ContainerStateView,
>
    decreases states.len() - k,
{
    if k < 0 || k >= states.len() {
        None
    } else if states[k].service == service {
        Some(states[k])
    } else {
        container_named(states, service, k + 1)
    }
}

/// The container of a service.
pub fn find_container<'a>(states: &'a Vec<ContainerState>, service: &str) -> (r: Option<
    &'a ContainerState,
>)
    ensures
        match r {
            Some(state) => container_named(text::views(states@), service@, 0) == Some(state@),
            None => container_named(text::views(states@), service@, 0) is None,
        },
{
    let ghost all = text::views(states@);
    let mut k: usize = 0;
    while k < states.len()
        invariant
            all == text::views(states@),
            k <= states@.len(),
            container_named(all, service@, 0) == container_named(all, service@, k as int),
        decreases states@.len() - k,
    {
        assert(all[k as int] == states@[k as int]@);
        if text::same(&states[k].service, service) {
            return Some(&states[k]);
        }
        k += 1;
    }
    None
}

/// Whether a text says a word, in any case.
pub open spec fn says(s: Seq<char>, word: Seq<char>) -> bool {
    text::lower_of(s) == text::lower_of(word)
}

/// Whether a container runs, and is healthy where that is known.
pub open spec fn runs(state: ContainerStateView) -> bool {
    says(state.state, "running"@) && match state.health {
        Some(health) => says(health, "healthy"@),
        None => true,
    }
}

pub(crate) fn is_running(state: &ContainerState) -> (r: bool)
    ensures
        r == runs(state@),
{
    text::same_ignoring_case(&state.state, "running") && match &state.health {
        Some(health) => text::same_ignoring_case(health, "healthy"),
        None => true,
    }
}

/// A round of waiting, as the contracts speak of it.
#[verifier::ext_equal]
pub enum Round {
    Ready,
    Wait,
    Failed(Seq<char>),
}

/// The round that a step stands for.
pub open spec fn round_of(step: PollStep) -> Round {
    match step {
        PollStep::Ready => Round::Ready,
        PollStep::Wait => Round::Wait,
        PollStep::Failed(e) => Round::Failed(e@),
    }
}

/// The round that ends waiting once its time is up.
pub open spec fn pressed(timeout: u64, elapsed_millis: u64, waiting: Seq<char>) -> Round {
    if elapsed_millis >= timeout * 1000 {
        Round::Failed("timed out after "@ + text::decimal_of(timeout as nat) + waiting)
    } else {
        Round::Wait
    }
}

fn press(timeout: u64, elapsed_millis: u64, waiting: &str) -> (r: PollStep)
    ensures
        round_of(r) == pressed(timeout, elapsed_millis, waiting@),
{
    if elapsed_millis as u128 >= timeout as u128 * 1000 {
        let mut e = text::concat("timed out after ", &text::decimal(timeout));
        e.append(waiting);
        PollStep::Failed(e)
    } else {
        PollStep::Wait
    }
}

/// A round of waiting for a container to run. An initialiser that ran to completion has done its
/// job, so it is not a startup failure.
pub open spec fn container_round(
    states: Seq<ContainerStateView>,
    container: Seq<char>,
    timeout: u64,
    elapsed_millis: u64,
) -> Round {
    let late = pressed(
        timeout,
        elapsed_millis,
        "s waiting for container '"@ + container + "'"@,
    );
    match container_named(states, container, 0) {
        Some(state) => if runs(state) {
            Round::Ready
        } else if says(state.state, "exited"@) {
            match state.exit_code {
                Some(code) => if code == 0 {
                    Round::Ready
                } else {
                    Round::Failed(
                        "container exited with status "@ + text::signed_decimal_of(code as int)
                            + " during startup"@,
                    )
                },
                None => Round::Failed("container exited during startup"@),
            }
        } else {
            late
        },
        None => late,
    }
}

/// A round of waiting for a container to run.
pub fn wait_container(
    states: &Vec<ContainerState>,
    container: &str,
    timeout: u64,
    elapsed_millis: u64,
) -> (r: PollStep)
    ensures
        round_of(r) == container_round(text::views(states@), container@, timeout, elapsed_millis),
{
    if let Some(state) = find_container(states, container) {
        if is_running(state) {
            return PollStep::Ready;
        }
        if text::same_ignoring_case(&state.state, "exited") {
            return match state.exit_code {
                Some(code) => if code == 0 {
                    PollStep::Ready
                } else {
                    let mut e = text::own("container exited with status ");
                    e.append(&text::signed_decimal(code));
                    e.append(" during startup");
                    PollStep::Failed(e)
                },
                None => PollStep::Failed(text::own("container exited during startup")),
            };
        }
    }
    let mut waiting = text::own("s waiting for container '");
    waiting.append(container);
    waiting.append("'");
    press(timeout, elapsed_millis, &waiting)
}

/// A round of waiting for a one-shot container to run to completion, and to succeed. A migration
/// whose exit code is unknown is not a success anyone can vouch for.
pub open spec fn exit_round(
    states: Seq<ContainerStateView>,
    container: Seq<char>,
    timeout: u64,
    elapsed_millis: u64,
) -> Round {
    let late = pressed(
        timeout,
        elapsed_millis,
        "s waiting for '"@ + container + "' to finish"@,
    );
    match container_named(states, container, 0) {
        Some(state) => if says(state.state, "exited"@) {
            match state.exit_code {
                Some(code) => if code == 0 {
                    Round::Ready
                } else {
                    Round::Failed(
                        "'"@ + container + "' exited with status "@ + text::signed_decimal_of(
                            code as int,
                        ),
                    )
                },
                None => Round::Failed(
                    "'"@ + container
                        + "' exited but docker compose did not report its exit code; inspect it with `docker compose logs "@
                        + container + "`"@,
                ),
            }
        } else {
            late
        },
        None => late,
    }
}

/// A round of waiting for a one-shot container to run to completion.
pub fn wait_for_exit(
    states: &Vec<ContainerState>,
    container: &str,
    timeout: u64,
    elapsed_millis: u64,
) -> (r: PollStep)
    ensures
        round_of(r) == exit_round(text::views(states@), container@, timeout, elapsed_millis),
{
    if let Some(state) = find_container(states, container) {
        if text::same_ignoring_case(&state.state, "exited") {
            return match state.exit_code {
                Some(code) => if code == 0 {
                    PollStep::Ready
                } else {
                    let mut e = text::own("'");
                    e.append(container);
                    e.append("' exited with status ");
                    e.append(&text::signed_decimal(code));
                    PollStep::Failed(e)
                },
                None => {
                    let mut e = text::own("'");
                    e.append(container);
                    e.append(
                        "' exited but docker compose did not report its exit code; inspect it with `docker compose logs ",
                    );
                    e.append(container);
                    e.append("`");
                    PollStep::Failed(e)
                },
            };
        }
    }
    let mut waiting = text::own("s waiting for '");
    waiting.append(container);
    waiting.append("' to finish");
    press(timeout, elapsed_millis, &waiting)
}

// ---------------------------------------------------------------------------
// Laws
// ---------------------------------------------------------------------------

/// A service that declares a probe is waited for by that probe, and by the first it declares: its
/// HTTP path on its port, else its port alone, else its command, for the seconds that it declares or
/// the configured ones. A probe of a port is refused where the service has none. A one-shot container
/// is waited for until it has finished, for ten minutes at least; a container without a probe until
/// it runs; and only a process that declares no probe is not waited for at all.
pub proof fn services_are_waited_for_as_declared(
    node: NodeView,
    assigned: Seq<(Seq<char>, u16)>,
    health_timeout: u64,
    container: bool,
)
    requires
        node.kind is Service,
    ensures
        ({
            let service = node.kind->Service_0;
            let found = ctx::assigned_of(node, assigned);
            let one_shot = container && service.wait == Wait::Exit;
            let r = readiness_of(node, assigned, health_timeout, container);
            &&& one_shot ==> (r matches Ok(WaitForView::Exit { timeout }) && timeout >= 600
                && timeout >= health_timeout && (timeout == 600 || timeout == health_timeout))
            &&& !one_shot ==> (service.health matches Some(health) ==> {
                let timeout = if health.timeout is Some {
                    health.timeout.unwrap()
                } else {
                    health_timeout
                };
                &&& health.http matches Some(path) ==> if found.len() > 0 {
                    r == Ok::<WaitForView, Seq<char>>(
                        WaitForView::Http { port: found[0].1, path, timeout },
                    )
                } else {
                    r is Err
                }
                &&& health.http is None && health.tcp == Some(true) ==> if found.len() > 0 {
                    r == Ok::<WaitForView, Seq<char>>(
                        WaitForView::Tcp { port: found[0].1, timeout },
                    )
                } else {
                    r is Err
                }
                &&& health.http is None && health.tcp != Some(true) ==> (
                health.command matches Some(command) ==> r == Ok::<WaitForView, Seq<char>>(
                    WaitForView::Command { command, timeout },
                ))
            })
            &&& !one_shot && (service.health matches Some(health) ==> health.http is None
                && health.tcp != Some(true) && health.command is None) ==> r == Ok::<
                WaitForView,
                Seq<char>,
            >(
                if container {
                    WaitForView::Container { timeout: health_timeout }
                } else {
                    WaitForView::Nothing
                },
            )
            &&& r == Ok::<WaitForView, Seq<char>>(WaitForView::Nothing) ==> !container && (
            service.health matches Some(health) ==> health.http is None && health.tcp != Some(true)
                && health.command is None)
        }),
{
}

proof fn first_container(states: Seq<ContainerStateView>, container: Seq<char>, k: int, i: int)
    requires
        0 <= k <= i < states.len(),
        states[i].service == container,
        forall|j: int| k <= j < i ==> (#[trigger] states[j]).service != container,
    ensures
        container_named(states, container, k) == Some(states[i]),
    decreases i - k,
{
    if k < i {
        first_container(states, container, k + 1, i);
    }
}

proof fn no_container(states: Seq<ContainerStateView>, container: Seq<char>, k: int)
    requires
        0 <= k <= states.len(),
        forall|j: int| k <= j < states.len() ==> (#[trigger] states[j]).service != container,
    ensures
        container_named(states, container, k) is None,
    decreases states.len() - k,
{
    if k < states.len() {
        no_container(states, container, k + 1);
    }
}

/// Whether a container is in this state, in any case.
pub open spec fn is_in(state: ContainerStateView, word: Seq<char>) -> bool {
    text::lower_of(state.state) == text::lower_of(word)
}

/// A container counts as started exactly where it runs, and is healthy if it says how it is, or where
/// it has exited with success; an exit with anything else fails the start at once. While it does
/// neither it is waited for until its time is up, and then the start fails.
pub proof fn containers_are_ready_once_they_run(
    states: Seq<ContainerStateView>,
    container: Seq<char>,
    timeout: u64,
    elapsed_millis: u64,
    i: int,
)
    requires
        0 <= i < states.len(),
        states[i].service == container,
        forall|j: int| 0 <= j < i ==> (#[trigger] states[j]).service != container,
    ensures
        ({
            let r = container_round(states, container, timeout, elapsed_millis);
            let state = states[i];
            let healthy = state.health matches Some(health) ==> text::lower_of(health)
                == text::lower_of("healthy"@);
            let running = is_in(state, "running"@) && healthy;
            let exited = is_in(state, "exited"@);
            &&& r == Round::Ready <==> running || (exited && state.exit_code == Some(0i64))
            &&& !running && exited && state.exit_code != Some(0i64) ==> r is Failed
            &&& !running && !exited ==> (r is Failed <==> elapsed_millis >= timeout * 1000) && (r
                == Round::Wait <==> elapsed_millis < timeout * 1000)
        }),
{
    first_container(states, container, 0, i);
}

/// A one-shot container has done its work exactly where it has exited with success; one that exited
/// with anything else, or with a status nobody knows, failed. While it has not exited it is waited
/// for, running or not, until its time is up.
pub proof fn one_shots_are_done_once_they_succeed(
    states: Seq<ContainerStateView>,
    container: Seq<char>,
    timeout: u64,
    elapsed_millis: u64,
    i: int,
)
    requires
        0 <= i < states.len(),
        states[i].service == container,
        forall|j: int| 0 <= j < i ==> (#[trigger] states[j]).service != container,
    ensures
        ({
            let r = exit_round(states, container, timeout, elapsed_millis);
            let exited = is_in(states[i], "exited"@);
            &&& r == Round::Ready <==> exited && states[i].exit_code == Some(0i64)
            &&& exited && states[i].exit_code != Some(0i64) ==> r is Failed
            &&& !exited ==> (r is Failed <==> elapsed_millis >= timeout * 1000) && (r == Round::Wait
                <==> elapsed_millis < timeout * 1000)
        }),
{
    first_container(states, container, 0, i);
}

/// A container that is not there yet is neither ready nor done: it is waited for until its time is
/// up.
pub proof fn absent_containers_are_waited_for(
    states: Seq<ContainerStateView>,
    container: Seq<char>,
    timeout: u64,
    elapsed_millis: u64,
)
    requires
        forall|j: int| 0 <= j < states.len() ==> (#[trigger] states[j]).service != container,
    ensures
        if elapsed_millis >= timeout * 1000 {
            container_round(states, container, timeout, elapsed_millis) is Failed && exit_round(
                states,
                container,
                timeout,
                elapsed_millis,
            ) is Failed
        } else {
            container_round(states, container, timeout, elapsed_millis) == Round::Wait
                && exit_round(states, container, timeout, elapsed_millis) == Round::Wait
        },
{
    no_container(states, container, 0);
}

/// A probe's round, given whether it was answered, whether the process is known to live, and how long
/// it was waited.
pub open spec fn probe_round(
    what: Seq<char>,
    timeout: u64,
    answered: bool,
    alive: Option<bool>,
    elapsed_millis: u64,
) -> Round {
    if answered {
        Round::Ready
    } else if alive == Some(false) {
        Round::Failed("the process exited during startup"@)
    } else if elapsed_millis >= timeout * 1000 {
        Round::Failed(
            "timed out after "@ + text::decimal_of(timeout as nat) + "s waiting for "@ + what,
        )
    } else {
        Round::Wait
    }
}

/// A probe succeeds exactly where it is answered. Waiting for it fails at once where the process is
/// known to be gone, and otherwise exactly when its time is up; a process of which nothing is known
/// is given its time.
pub proof fn probes_decide_by_their_answer(
    what: Seq<char>,
    timeout: u64,
    answered: bool,
    alive: Option<bool>,
    elapsed_millis: u64,
)
    ensures
        ({
            let r = probe_round(what, timeout, answered, alive, elapsed_millis);
            &&& r == Round::Ready <==> answered
            &&& !answered && alive == Some(false) ==> r is Failed
            &&& !answered && alive != Some(false) ==> (r == Round::Wait <==> elapsed_millis < timeout
                * 1000)
        }),
{
}

} // verus!
