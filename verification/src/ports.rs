//! Port assignments: which host port each service of a worktree gets.
//!
//! Every worktree owns a block of consecutive ports. The primary checkout takes the ports its
//! manifest declares; a linked worktree takes every port from its block. A port that any worktree
//! has recorded stays reserved, so two worktrees never share one.

use crate::config::Config;
use crate::dict;
use crate::dict::Dict;
use crate::paths;
use crate::slug;
use crate::text;
use vstd::prelude::*;

verus! {

pub const ASSIGNMENT_VERSION: u32 = 1;

/// Where a worktree's ports come from.
#[derive(Debug, Clone, Copy, PartialEq, Eq, Structural)]
pub enum PortMode {
    /// The ports the manifest declares, where it declares one.
    Declared,
    /// The worktree's own block.
    Block,
}

/// The ports of one worktree.
#[derive(Debug)]
pub struct Assignment {
    pub version: u32,
    pub repo_key: String,
    pub worktree_id: String,
    /// Absolute path of the worktree this block belongs to, used to detect blocks left behind by
    /// removed worktrees.
    pub worktree_path: Option<String>,
    /// First port of the worktree's block.
    pub base: u16,
    pub mode: PortMode,
    /// Qualified service name to allocated host port.
    pub ports: Dict<u16>,
}

/// The contents of a [`Assignment`].
#[verifier::ext_equal]
pub struct AssignmentView {
    pub version: u32,
    pub repo_key: Seq<char>,
    pub worktree_id: Seq<char>,
    pub worktree_path: Option<Seq<char>>,
    pub base: u16,
    pub mode: PortMode,
    pub ports: Seq<(Seq<char>, u16)>,
}

impl View for Assignment {
    type V = AssignmentView;

    open spec fn view(&self) -> AssignmentView {
        AssignmentView {
            version: self.version,
            repo_key: self.repo_key@,
            worktree_id: self.worktree_id@,
            worktree_path: text::opt_view(self.worktree_path),
            base: self.base,
            mode: self.mode,
            ports: self.ports@,
        }
    }
}

impl Clone for Assignment {
    fn clone(&self) -> (r: Self)
        ensures
            r@ == self@,
    {
        Assignment {
            version: self.version,
            repo_key: self.repo_key.clone(),
            worktree_id: self.worktree_id.clone(),
            worktree_path: text::clone_opt(&self.worktree_path),
            base: self.base,
            mode: self.mode,
            ports: self.ports.duplicate(),
        }
    }
}

/// A port that a service asks for.
#[derive(Debug)]
pub struct PortRequest {
    pub name: String,
    pub prefer: Option<u16>,
    pub require: Option<u16>,
}

/// The contents of a [`PortRequest`].
#[verifier::ext_equal]
pub struct PortRequestView {
    pub name: Seq<char>,
    pub prefer: Option<u16>,
    pub require: Option<u16>,
}

impl View for PortRequest {
    type V = PortRequestView;

    open spec fn view(&self) -> PortRequestView {
        PortRequestView {
            name: self.name@,
            prefer: self.prefer,
            require: self.require,
        }
    }
}

impl Clone for PortRequest {
    fn clone(&self) -> (r: Self)
        ensures
            r@ == self@,
    {
        PortRequest {
            name: self.name.clone(),
            prefer: self.prefer,
            require: self.require,
        }
    }
}

impl PortMode {
    pub open spec fn description(self) -> Seq<char> {
        match self {
            PortMode::Declared => "declared"@,
            PortMode::Block => "generated"@,
        }
    }

    /// The mode as it is named to the user.
    pub fn describe(&self) -> (r: String)
        ensures
            r@ == self.description(),
    {
        match self {
            PortMode::Declared => text::own("declared"),
            PortMode::Block => text::own("generated"),
        }
    }
}

/// The mode a worktree allocates in: a linked worktree always takes its block, and the primary
/// checkout what it recorded, the declared ports at first.
pub open spec fn mode_of(current: Option<AssignmentView>, primary: bool) -> PortMode {
    if !primary {
        PortMode::Block
    } else {
        match current {
            Some(a) => a.mode,
            None => PortMode::Declared,
        }
    }
}

/// The mode a worktree allocates in.
pub fn effective_mode(current: Option<&Assignment>, primary: bool) -> (r: PortMode)
    ensures
        r == mode_of(
            match current {
                Some(a) => Some(a@),
                None => None,
            },
            primary,
        ),
{
    if !primary {
        PortMode::Block
    } else {
        match current {
            Some(a) => a.mode,
            None => PortMode::Declared,
        }
    }
}

// ---------------------------------------------------------------------------
// Recorded assignments
// ---------------------------------------------------------------------------

/// Whether an assignment belongs to this worktree.
pub open spec fn belongs(a: AssignmentView, repo_key: Seq<char>, worktree_id: Seq<char>) -> bool {
    a.repo_key == repo_key && a.worktree_id == worktree_id
}

/// The worktree's assignment among those recorded, from entry `k` on.
pub open spec fn find_assignment(
    recorded: Seq<AssignmentView>,
    repo_key: Seq<char>,
    worktree_id: Seq<char>,
    k: int,
) -> Option<AssignmentView>
    decreases recorded.len() - k,
{
    if k < 0 || k >= recorded.len() {
        None
    } else if belongs(recorded[k], repo_key, worktree_id) {
        Some(recorded[k])
    } else {
        find_assignment(recorded, repo_key, worktree_id, k + 1)
    }
}

/// Read this worktree's existing assignment, among those recorded, without allocating one.
pub fn load<'a>(recorded: &'a Vec<Assignment>, repo_key: &str, worktree_id: &str) -> (r: Option<
    &'a Assignment,
>)
    ensures
        match r {
            Some(a) => find_assignment(text::views(recorded@), repo_key@, worktree_id@, 0) == Some(
                a@,
            ),
            None => find_assignment(text::views(recorded@), repo_key@, worktree_id@, 0) is None,
        },
{
    let mut k: usize = 0;
    while k < recorded.len()
        invariant
            k <= recorded@.len(),
            find_assignment(text::views(recorded@), repo_key@, worktree_id@, 0) == find_assignment(
                text::views(recorded@),
                repo_key@,
                worktree_id@,
                k as int,
            ),
        decreases recorded@.len() - k,
    {
        let a = &recorded[k];
        if text::same(&a.repo_key, repo_key) && text::same(&a.worktree_id, worktree_id) {
            return Some(a);
        }
        k += 1;
    }
    None
}

/// The file that records a block.
pub open spec fn block_path_of(blocks: Seq<char>, base: u16) -> Seq<char> {
    paths::join_of(blocks, text::decimal_of(base as nat) + ".json"@)
}

/// The file that records a block.
pub fn block_path(blocks: &str, base: u16) -> (r: String)
    ensures
        r@ == block_path_of(blocks@, base),
{
    paths::join(blocks, &text::concat(&text::decimal(base as u64), ".json"))
}

/// The file to remove so that this worktree's assignment is dropped and the next `up` allocates
/// fresh ports; none where nothing is assigned.
pub fn reassign(blocks: &str, recorded: &Vec<Assignment>, repo_key: &str, worktree_id: &str) -> (r:
    Option<String>)
    ensures
        text::opt_view(r) == (match find_assignment(
            text::views(recorded@),
            repo_key@,
            worktree_id@,
            0,
        ) {
            Some(a) => Some(block_path_of(blocks@, a.base)),
            None => None,
        }),
{
    match load(recorded, repo_key, worktree_id) {
        Some(a) => Some(block_path(blocks, a.base)),
        None => None,
    }
}

/// The ports of an assignment's first `n` entries.
pub open spec fn values_of(ports: Seq<(Seq<char>, u16)>) -> Seq<u16> {
    Seq::new(ports.len(), |i: int| ports[i].1)
}

/// The ports that the first `k` recorded assignments reserve for other worktrees.
pub open spec fn held(
    recorded: Seq<AssignmentView>,
    repo_key: Seq<char>,
    worktree_id: Seq<char>,
    k: int,
) -> Seq<u16>
    decreases k,
{
    if k <= 0 {
        Seq::empty()
    } else if belongs(recorded[k - 1], repo_key, worktree_id) {
        held(recorded, repo_key, worktree_id, k - 1)
    } else {
        held(recorded, repo_key, worktree_id, k - 1) + values_of(recorded[k - 1].ports)
    }
}

/// The ports that other worktrees have recorded.
pub open spec fn held_by_others(
    recorded: Seq<AssignmentView>,
    repo_key: Seq<char>,
    worktree_id: Seq<char>,
) -> Seq<u16> {
    held(recorded, repo_key, worktree_id, recorded.len() as int)
}

fn append_values(out: &mut Vec<u16>, ports: &Dict<u16>)
    ensures
        final(out)@ == old(out)@ + values_of(ports@),
{
    let ghost start = out@;
    let mut i: usize = 0;
    assert(start + values_of(ports@).take(0) =~= start);
    while i < ports.len()
        invariant
            i <= ports@.len(),
            out@ == start + values_of(ports@).take(i as int),
        decreases ports@.len() - i,
    {
        out.push(*ports.value_at(i));
        i += 1;
        assert(out@ =~= start + values_of(ports@).take(i as int));
    }
    assert(values_of(ports@).take(i as int) =~= values_of(ports@));
}

fn held_ports(recorded: &Vec<Assignment>, repo_key: &str, worktree_id: &str) -> (r: Vec<u16>)
    ensures
        r@ == held_by_others(text::views(recorded@), repo_key@, worktree_id@),
{
    let mut out: Vec<u16> = Vec::new();
    let mut k: usize = 0;
    while k < recorded.len()
        invariant
            k <= recorded@.len(),
            out@ == held(text::views(recorded@), repo_key@, worktree_id@, k as int),
        decreases recorded@.len() - k,
    {
        let a = &recorded[k];
        if !(text::same(&a.repo_key, repo_key) && text::same(&a.worktree_id, worktree_id)) {
            append_values(&mut out, &a.ports);
        }
        k += 1;
    }
    out
}

/// Whether a list of ports holds `p`.
fn holds(ports: &Vec<u16>, p: u16) -> (r: bool)
    ensures
        r == ports@.contains(p),
{
    let mut i: usize = 0;
    while i < ports.len()
        invariant
            i <= ports@.len(),
            forall|k: int| 0 <= k < i ==> ports@[k] != p,
        decreases ports@.len() - i,
    {
        if ports[i] == p {
            assert(ports@[i as int] == p);
            return true;
        }
        i += 1;
    }
    false
}

// ---------------------------------------------------------------------------
// One block
// ---------------------------------------------------------------------------

/// Ports claimed so far: by name, and all of them.
#[verifier::ext_equal]
pub struct Claimed {
    pub ports: Seq<(Seq<char>, u16)>,
    pub used: Seq<u16>,
}

impl Claimed {
    /// With `port` claimed for `name`.
    pub open spec fn with(self, name: Seq<char>, port: u16) -> Claimed {
        Claimed { ports: dict::put(self.ports, name, port), used: self.used.push(port) }
    }
}

/// Whether a port is listening, or reserved for another worktree.
pub open spec fn unavailable(port: u16, busy: Seq<u16>, held: Seq<u16>) -> bool {
    busy.contains(port) || held.contains(port)
}

pub open spec fn requested_twice(port: u16) -> Seq<char> {
    "port.require "@ + text::decimal_of(port as nat) + " is requested more than once"@
}

pub open spec fn required_unavailable(port: u16, name: Seq<char>) -> Seq<char> {
    "port.require "@ + text::decimal_of(port as nat) + " for '"@ + name + "' is not available"@
}

pub open spec fn declared_unavailable(port: u16, name: Seq<char>) -> Seq<char> {
    "declared port "@ + text::decimal_of(port as nat) + " for '"@ + name
        + "' is not available; free it, or run `magictree up --ports generated`"@
}

/// The required ports, from request `k` on, claimed on top of `s`.
pub open spec fn claim_required(
    requests: Seq<PortRequestView>,
    k: int,
    s: Claimed,
    busy: Seq<u16>,
    held: Seq<u16>,
) -> Result<Claimed, Seq<char>>
    decreases requests.len() - k,
{
    if k < 0 || k >= requests.len() {
        Ok(s)
    } else {
        match requests[k].require {
            None => claim_required(requests, k + 1, s, busy, held),
            Some(port) => if s.used.contains(port) {
                Err(requested_twice(port))
            } else if unavailable(port, busy, held) {
                Err(required_unavailable(port, requests[k].name))
            } else {
                claim_required(requests, k + 1, s.with(requests[k].name, port), busy, held)
            },
        }
    }
}

/// The declared ports, from request `k` on, claimed on top of `s`.
pub open spec fn claim_declared(
    requests: Seq<PortRequestView>,
    k: int,
    s: Claimed,
    busy: Seq<u16>,
    held: Seq<u16>,
) -> Result<Claimed, Seq<char>>
    decreases requests.len() - k,
{
    if k < 0 || k >= requests.len() {
        Ok(s)
    } else if dict::lookup(s.ports, requests[k].name) is Some {
        claim_declared(requests, k + 1, s, busy, held)
    } else {
        match requests[k].prefer {
            None => claim_declared(requests, k + 1, s, busy, held),
            Some(port) => if s.used.contains(port) || unavailable(port, busy, held) {
                Err(declared_unavailable(port, requests[k].name))
            } else {
                claim_declared(requests, k + 1, s.with(requests[k].name, port), busy, held)
            },
        }
    }
}

/// The next port of a block, from `offset` on, that is neither used nor reserved, and the offset
/// after it. There is none where the block or the range ends, or where that port is listening.
pub open spec fn next_port(
    config: Config,
    base: u16,
    offset: int,
    used: Seq<u16>,
    busy: Seq<u16>,
    held: Seq<u16>,
) -> Option<(u16, int)>
    decreases config.port_stride - offset,
{
    if offset >= config.port_stride || base + offset > config.port_range_end {
        None
    } else {
        let port = (base + offset) as u16;
        if used.contains(port) || held.contains(port) {
            next_port(config, base, offset + 1, used, busy, held)
        } else if busy.contains(port) {
            None
        } else {
            Some((port, offset + 1))
        }
    }
}

/// Block ports for the requests, from `k` on, that have none; nothing where the block cannot
/// serve them all.
pub open spec fn claim_block(
    config: Config,
    base: u16,
    requests: Seq<PortRequestView>,
    k: int,
    s: Claimed,
    offset: int,
    busy: Seq<u16>,
    held: Seq<u16>,
) -> Option<Claimed>
    decreases requests.len() - k,
{
    if k < 0 || k >= requests.len() {
        Some(s)
    } else if dict::lookup(s.ports, requests[k].name) is Some {
        claim_block(config, base, requests, k + 1, s, offset, busy, held)
    } else {
        match next_port(config, base, offset, s.used, busy, held) {
            None => None,
            Some((port, next)) => claim_block(
                config,
                base,
                requests,
                k + 1,
                s.with(requests[k].name, port),
                next,
                busy,
                held,
            ),
        }
    }
}

/// The required and declared ports of the requests.
pub open spec fn claim_fixed(
    mode: PortMode,
    requests: Seq<PortRequestView>,
    busy: Seq<u16>,
    held: Seq<u16>,
) -> Result<Claimed, Seq<char>> {
    let none = Claimed { ports: Seq::empty(), used: Seq::empty() };
    match claim_required(requests, 0, none, busy, held) {
        Err(e) => Err(e),
        Ok(s) => match mode {
            PortMode::Declared => claim_declared(requests, 0, s, busy, held),
            PortMode::Block => Ok(s),
        },
    }
}

/// The ports of the requests in the block at `base`: the required ones, in declared mode the
/// declared ones, and the rest from the block. Nothing where the block cannot serve them.
pub open spec fn assign_of(
    config: Config,
    base: u16,
    mode: PortMode,
    requests: Seq<PortRequestView>,
    busy: Seq<u16>,
    held: Seq<u16>,
) -> Result<Option<Claimed>, Seq<char>> {
    match claim_fixed(mode, requests, busy, held) {
        Err(e) => Err(e),
        Ok(s) => Ok(claim_block(config, base, requests, 0, s, 0, busy, held)),
    }
}

/// What trying a block gave.
#[derive(Debug)]
pub enum BlockOutcome {
    Assigned(Dict<u16>),
    /// The block cannot satisfy the request; another slot may work.
    Unusable,
}

fn port_message(before: &str, port: u16, after: &str) -> (r: String)
    ensures
        r@ == before@ + text::decimal_of(port as nat) + after@,
{
    let mut e = text::own(before);
    e.append(&text::decimal(port as u64));
    e.append(after);
    e
}

fn named_port_message(before: &str, port: u16, name: &str, after: &str) -> (r: String)
    ensures
        r@ == before@ + text::decimal_of(port as nat) + " for '"@ + name@ + after@,
{
    let mut e = text::own(before);
    e.append(&text::decimal(port as u64));
    e.append(" for '");
    e.append(name);
    e.append(after);
    e
}

fn search_block(
    config: &Config,
    base: u16,
    offset: u32,
    used: &Vec<u16>,
    busy: &Vec<u16>,
    held: &Vec<u16>,
) -> (r: Option<(u16, u32)>)
    requires
        offset <= 65535,
    ensures
        match r {
            Some((port, next)) => next_port(*config, base, offset as int, used@, busy@, held@)
                == Some((port, next as int)) && next <= 65535,
            None => next_port(*config, base, offset as int, used@, busy@, held@) is None,
        },
{
    let mut at: u32 = offset;
    while at < config.port_stride as u32 && base as u32 + at <= config.port_range_end as u32
        invariant
            at <= 65535,
            next_port(*config, base, offset as int, used@, busy@, held@) == next_port(
                *config,
                base,
                at as int,
                used@,
                busy@,
                held@,
            ),
        decreases config.port_stride - at,
    {
        let port: u16 = (base as u32 + at) as u16;
        if !holds(used, port) && !holds(held, port) {
            if holds(busy, port) {
                return None;
            }
            return Some((port, at + 1));
        }
        at += 1;
    }
    None
}

/// The ports of the requests in the block at `base`, given the ports that are listening and those
/// that other worktrees hold.
pub fn assign_in_block(
    config: &Config,
    base: u16,
    mode: PortMode,
    requests: &Vec<PortRequest>,
    busy: &Vec<u16>,
    held: &Vec<u16>,
) -> (r: Result<BlockOutcome, String>)
    ensures
        match r {
            Ok(BlockOutcome::Assigned(ports)) => assign_of(
                *config,
                base,
                mode,
                text::views(requests@),
                busy@,
                held@,
            ) matches Ok(Some(s)) && s.ports == ports@,
            Ok(BlockOutcome::Unusable) => assign_of(
                *config,
                base,
                mode,
                text::views(requests@),
                busy@,
                held@,
            ) == Ok::<Option<Claimed>, Seq<char>>(None),
            Err(e) => assign_of(*config, base, mode, text::views(requests@), busy@, held@) == Err::<
                Option<Claimed>,
                Seq<char>,
            >(e@),
        },
{
    let ghost all = text::views(requests@);
    let ghost none = Claimed { ports: Seq::empty(), used: Seq::empty() };
    let mut ports: Dict<u16> = Dict::new();
    let mut used: Vec<u16> = Vec::new();
    let mut k: usize = 0;
    assert((Claimed { ports: ports@, used: used@ }) =~= none);
    while k < requests.len()
        invariant
            all == text::views(requests@),
            none == (Claimed { ports: Seq::empty(), used: Seq::empty() }),
            k <= requests@.len(),
            claim_required(all, 0, none, busy@, held@) == claim_required(
                all,
                k as int,
                Claimed { ports: ports@, used: used@ },
                busy@,
                held@,
            ),
        decreases requests@.len() - k,
    {
        let request = &requests[k];
        assert(all[k as int] == request@);
        if let Some(required) = request.require {
            if holds(&used, required) {
                return Err(
                    port_message("port.require ", required, " is requested more than once"),
                );
            }
            if holds(busy, required) || holds(held, required) {
                return Err(
                    named_port_message(
                        "port.require ",
                        required,
                        &request.name,
                        "' is not available",
                    ),
                );
            }
            used.push(required);
            ports.insert(request.name.clone(), required);
        }
        k += 1;
    }
    let ghost required = Claimed { ports: ports@, used: used@ };
    if mode == PortMode::Declared {
        let mut k: usize = 0;
        while k < requests.len()
            invariant
                all == text::views(requests@),
                none == (Claimed { ports: Seq::empty(), used: Seq::empty() }),
                claim_required(all, 0, none, busy@, held@) == Ok::<Claimed, Seq<char>>(required),
                mode == PortMode::Declared,
                k <= requests@.len(),
                claim_declared(all, 0, required, busy@, held@) == claim_declared(
                    all,
                    k as int,
                    Claimed { ports: ports@, used: used@ },
                    busy@,
                    held@,
                ),
            decreases requests@.len() - k,
        {
            let request = &requests[k];
            assert(all[k as int] == request@);
            if !ports.contains(&request.name) {
                if let Some(preferred) = request.prefer {
                    if holds(&used, preferred) || holds(busy, preferred) || holds(held, preferred) {
                        return Err(
                            named_port_message(
                                "declared port ",
                                preferred,
                                &request.name,
                                "' is not available; free it, or run `magictree up --ports generated`",
                            ),
                        );
                    }
                    used.push(preferred);
                    ports.insert(request.name.clone(), preferred);
                }
            }
            k += 1;
        }
    }
    let ghost fixed = Claimed { ports: ports@, used: used@ };
    let mut offset: u32 = 0;
    let mut k: usize = 0;
    while k < requests.len()
        invariant
            all == text::views(requests@),
            claim_fixed(mode, all, busy@, held@) == Ok::<Claimed, Seq<char>>(fixed),
            k <= requests@.len(),
            offset <= 65535,
            claim_block(*config, base, all, 0, fixed, 0, busy@, held@) == claim_block(
                *config,
                base,
                all,
                k as int,
                Claimed { ports: ports@, used: used@ },
                offset as int,
                busy@,
                held@,
            ),
        decreases requests@.len() - k,
    {
        let request = &requests[k];
        assert(all[k as int] == request@);
        if !ports.contains(&request.name) {
            match search_block(config, base, offset, &used, busy, held) {
                None => {
                    return Ok(BlockOutcome::Unusable);
                },
                Some((port, next)) => {
                    used.push(port);
                    ports.insert(request.name.clone(), port);
                    offset = next;
                },
            }
        }
        k += 1;
    }
    Ok(BlockOutcome::Assigned(ports))
}

// ---------------------------------------------------------------------------
// Extending an assignment
// ---------------------------------------------------------------------------

/// The next port of a block, from `offset` on, that is not used, reserved or listening.
pub open spec fn spare_port(
    config: Config,
    base: u16,
    offset: int,
    used: Seq<u16>,
    busy: Seq<u16>,
    held: Seq<u16>,
) -> Option<u16>
    decreases config.port_stride - offset,
{
    if offset >= config.port_stride || base + offset > config.port_range_end {
        None
    } else {
        let port = (base + offset) as u16;
        if used.contains(port) || unavailable(port, busy, held) {
            spare_port(config, base, offset + 1, used, busy, held)
        } else {
            Some(port)
        }
    }
}

/// The port that a new request gets beside the ports a worktree already has.
pub open spec fn extend_of(
    config: Config,
    base: u16,
    mode: PortMode,
    used: Seq<u16>,
    request: PortRequestView,
    busy: Seq<u16>,
    held: Seq<u16>,
) -> Result<u16, Seq<char>> {
    match request.require {
        Some(port) => if used.contains(port) {
            Err(
                "port.require "@ + text::decimal_of(port as nat)
                    + " is already used in this worktree"@,
            )
        } else if unavailable(port, busy, held) {
            Err(required_unavailable(port, request.name))
        } else {
            Ok(port)
        },
        None => match (request.prefer, mode) {
            (Some(port), PortMode::Declared) => if used.contains(port) || unavailable(
                port,
                busy,
                held,
            ) {
                Err(declared_unavailable(port, request.name))
            } else {
                Ok(port)
            },
            _ => match spare_port(config, base, 0, used, busy, held) {
                Some(port) => Ok(port),
                None => Err(
                    "no free port left in block "@ + text::decimal_of(base as nat) + " for '"@
                        + request.name + "' — run `magictree ports --reassign`"@,
                ),
            },
        },
    }
}

fn extend(
    config: &Config,
    base: u16,
    mode: PortMode,
    used: &Vec<u16>,
    request: &PortRequest,
    busy: &Vec<u16>,
    held: &Vec<u16>,
) -> (r: Result<u16, String>)
    ensures
        match r {
            Ok(port) => extend_of(*config, base, mode, used@, request@, busy@, held@) == Ok::<
                u16,
                Seq<char>,
            >(port),
            Err(e) => extend_of(*config, base, mode, used@, request@, busy@, held@) == Err::<
                u16,
                Seq<char>,
            >(e@),
        },
{
    if let Some(required) = request.require {
        if holds(used, required) {
            return Err(
                port_message("port.require ", required, " is already used in this worktree"),
            );
        }
        if holds(busy, required) || holds(held, required) {
            return Err(
                named_port_message("port.require ", required, &request.name, "' is not available"),
            );
        }
        return Ok(required);
    }
    if mode == PortMode::Declared {
        if let Some(preferred) = request.prefer {
            if holds(used, preferred) || holds(busy, preferred) || holds(held, preferred) {
                return Err(
                    named_port_message(
                        "declared port ",
                        preferred,
                        &request.name,
                        "' is not available; free it, or run `magictree up --ports generated`",
                    ),
                );
            }
            return Ok(preferred);
        }
    }
    let mut at: u32 = 0;
    while at < config.port_stride as u32 && base as u32 + at <= config.port_range_end as u32
        invariant
            at <= 65535,
            spare_port(*config, base, 0, used@, busy@, held@) == spare_port(
                *config,
                base,
                at as int,
                used@,
                busy@,
                held@,
            ),
            request.require is None,
            request.prefer is None || mode == PortMode::Block,
        decreases config.port_stride - at,
    {
        let port: u16 = (base as u32 + at) as u16;
        if !holds(used, port) && !holds(busy, port) && !holds(held, port) {
            return Ok(port);
        }
        at += 1;
    }
    Err(
        named_port_message(
            "no free port left in block ",
            base,
            &request.name,
            "' — run `magictree ports --reassign`",
        ),
    )
}

/// The ports of a worktree with one for each request, from `k` on, that has none.
pub open spec fn extend_all(
    config: Config,
    base: u16,
    mode: PortMode,
    ports: Seq<(Seq<char>, u16)>,
    requests: Seq<PortRequestView>,
    k: int,
    busy: Seq<u16>,
    held: Seq<u16>,
) -> Result<Seq<(Seq<char>, u16)>, Seq<char>>
    decreases requests.len() - k,
{
    if k < 0 || k >= requests.len() {
        Ok(ports)
    } else if dict::lookup(ports, requests[k].name) is Some {
        extend_all(config, base, mode, ports, requests, k + 1, busy, held)
    } else {
        match extend_of(config, base, mode, values_of(ports), requests[k], busy, held) {
            Err(e) => Err(e),
            Ok(port) => extend_all(
                config,
                base,
                mode,
                dict::put(ports, requests[k].name, port),
                requests,
                k + 1,
                busy,
                held,
            ),
        }
    }
}

// ---------------------------------------------------------------------------
// Allocation
// ---------------------------------------------------------------------------

/// The first port of a block.
pub open spec fn block_base(config: Config, slot: int) -> u16 {
    (config.port_range_start + slot * config.port_stride) as u16
}

/// The slot at which a worktree begins to look for a block.
pub open spec fn first_slot(config: Config, repo_key: Seq<char>, worktree_id: Seq<char>) -> int {
    slug::hash64_of(repo_key + ":"@ + worktree_id) as int % config.slots_of()
}

/// The first block, from the `step`th slot after `start` on, that no worktree has taken and that
/// can serve the requests.
pub open spec fn find_block(
    config: Config,
    start: int,
    step: int,
    taken: Seq<u16>,
    mode: PortMode,
    requests: Seq<PortRequestView>,
    busy: Seq<u16>,
    held: Seq<u16>,
) -> Result<Option<(u16, Seq<(Seq<char>, u16)>)>, Seq<char>>
    decreases config.slots_of() - step,
{
    if step >= config.slots_of() {
        Ok(None)
    } else {
        let base = block_base(config, (start + step) % config.slots_of());
        if taken.contains(base) {
            find_block(config, start, step + 1, taken, mode, requests, busy, held)
        } else {
            match assign_of(config, base, mode, requests, busy, held) {
                Err(e) => Err(e),
                Ok(Some(s)) => Ok(Some((base, s.ports))),
                Ok(None) => find_block(
                    config,
                    start,
                    step + 1,
                    taken,
                    mode,
                    requests,
                    busy,
                    held,
                ),
            }
        }
    }
}

/// Whose ports are asked for, and what is known of the machine.
#[derive(Debug)]
pub struct Situation {
    pub repo_key: String,
    pub worktree_id: String,
    pub worktree_path: String,
    /// Whether this is the primary checkout.
    pub primary: bool,
    /// Where the configuration file lies, for messages.
    pub config_file: String,
    /// Every assignment on this machine.
    pub recorded: Vec<Assignment>,
    /// First port of every block that has a file, readable or not.
    pub taken: Vec<u16>,
    /// Ports that something is known to listen on.
    pub busy: Vec<u16>,
}

/// A worktree's assignment, and what has to be written.
#[derive(Debug)]
pub struct Ensured {
    pub assignment: Assignment,
    /// The block was not recorded for this worktree before.
    pub fresh: bool,
    /// The recorded assignment differs, and its block file has to be rewritten.
    pub changed: bool,
    /// The block that the worktree had in another mode, and no longer has.
    pub dropped: Option<u16>,
}

impl Situation {
    /// The worktree's recorded assignment.
    pub open spec fn current(self) -> Option<AssignmentView> {
        find_assignment(text::views(self.recorded@), self.repo_key@, self.worktree_id@, 0)
    }

    /// The ports that other worktrees hold.
    pub open spec fn held(self) -> Seq<u16> {
        held_by_others(text::views(self.recorded@), self.repo_key@, self.worktree_id@)
    }

    /// The mode to allocate in: the one asked for, or the worktree's own. A linked worktree never
    /// takes declared ports.
    pub open spec fn mode(self, requested: Option<PortMode>) -> PortMode {
        match requested {
            Some(mode) => if self.primary {
                mode
            } else {
                PortMode::Block
            },
            None => mode_of(self.current(), self.primary),
        }
    }

    /// The blocks that this worktree cannot take: every one that has a file but its own.
    pub open spec fn taken_by_others(self) -> Seq<u16> {
        match self.current() {
            Some(a) => self.taken@.filter(|base: u16| base != a.base),
            None => self.taken@,
        }
    }
}

/// The assignment that `ensure` gives a worktree.
pub open spec fn ensured_of(
    config: Config,
    s: Situation,
    requests: Seq<PortRequestView>,
    requested: Option<PortMode>,
) -> Result<AssignmentView, Seq<char>> {
    let mode = s.mode(requested);
    match s.current() {
        Some(a) if a.mode == mode => match extend_all(
            config,
            a.base,
            mode,
            a.ports,
            requests,
            0,
            s.busy@,
            s.held(),
        ) {
            Err(e) => Err(e),
            Ok(ports) => Ok(AssignmentView { worktree_path: Some(s.worktree_path@), ports, ..a }),
        },
        _ => if config.slots_of() == 0 {
            Err("config: port range is too small for the configured stride"@)
        } else {
            match find_block(
                config,
                first_slot(config, s.repo_key@, s.worktree_id@),
                0,
                s.taken_by_others(),
                mode,
                requests,
                s.busy@,
                s.held(),
            ) {
                Err(e) => Err(e),
                Ok(Some((base, ports))) => Ok(
                    AssignmentView {
                        version: ASSIGNMENT_VERSION,
                        repo_key: s.repo_key@,
                        worktree_id: s.worktree_id@,
                        worktree_path: Some(s.worktree_path@),
                        base,
                        mode,
                        ports,
                    },
                ),
                Ok(None) => Err(
                    "no free port block in "@ + text::decimal_of(config.port_range_start as nat)
                        + ".."@ + text::decimal_of(config.port_range_end as nat)
                        + " — run `magictree gc` or widen the range in "@ + s.config_file@,
                ),
            }
        },
    }
}

fn others_taken(taken: &Vec<u16>, own: u16) -> (r: Vec<u16>)
    ensures
        r@ == taken@.filter(|base: u16| base != own),
{
    broadcast use vstd::seq_lib::group_filter_ensures;

    let ghost keep = |base: u16| base != own;
    let mut out: Vec<u16> = Vec::new();
    let mut i: usize = 0;
    assert(taken@.take(0).filter(keep) =~= Seq::<u16>::empty());
    while i < taken.len()
        invariant
            keep == (|base: u16| base != own),
            i <= taken@.len(),
            out@ == taken@.take(i as int).filter(keep),
        decreases taken@.len() - i,
    {
        assert(taken@.take(i + 1) =~= taken@.take(i as int).push(taken@[i as int]));
        proof {
            taken@.take(i as int).lemma_filter_push(taken@[i as int], keep);
        }
        if taken[i] != own {
            out.push(taken[i]);
        }
        i += 1;
    }
    assert(taken@.take(i as int) =~= taken@);
    out
}

proof fn slot_fits(config: Config, slot: int)
    requires
        config.valid(),
        0 <= slot < config.slots_of(),
    ensures
        config.port_range_start + slot * config.port_stride + config.port_stride - 1
            <= config.port_range_end,
        slot * config.port_stride >= 0,
{
    let span = config.port_range_end - config.port_range_start + 1;
    let stride = config.port_stride as int;
    assert(span / stride * stride <= span) by (nonlinear_arith)
        requires
            stride > 0,
    ;
    assert((slot + 1) * stride <= (span / stride) * stride) by (nonlinear_arith)
        requires
            slot + 1 <= span / stride,
            stride > 0,
    ;
    assert((slot + 1) * stride == slot * stride + stride) by (nonlinear_arith);
    assert(slot * stride >= 0) by (nonlinear_arith)
        requires
            slot >= 0,
            stride > 0,
    ;
}

/// Re-allocating in the mode that the worktree recorded keeps that mode, though the record itself is
/// dropped first.
pub proof fn reassigned_ports_keep_the_mode(before: Situation, after: Situation)
    requires
        after.primary == before.primary,
    ensures
        after.mode(Some(before.mode(None))) == before.mode(None),
{
}

/// Return this worktree's port assignment, allocating a block on first use and extending it when
/// new services appear.
///
/// A port that nothing is known to listen on counts as free. The caller probes the ports it is
/// given, and asks again with those it found busy.
pub fn ensure(
    config: &Config,
    s: &Situation,
    requests: &Vec<PortRequest>,
    requested: Option<PortMode>,
) -> (r: Result<Ensured, String>)
    requires
        config.valid(),
    ensures
        match r {
            Ok(e) => {
                &&& ensured_of(*config, *s, text::views(requests@), requested) == Ok::<
                    AssignmentView,
                    Seq<char>,
                >(e.assignment@)
                &&& e.fresh == !(s.current() matches Some(a) && a.mode == s.mode(requested))
                &&& e.changed == (e.fresh || s.current().unwrap() != e.assignment@)
                &&& e.dropped == (match s.current() {
                    Some(a) => if e.fresh && a.base != e.assignment.base {
                        Some(a.base)
                    } else {
                        None
                    },
                    None => None,
                })
            },
            Err(e) => ensured_of(*config, *s, text::views(requests@), requested) == Err::<
                AssignmentView,
                Seq<char>,
            >(e@),
        },
{
    let current = load(&s.recorded, &s.repo_key, &s.worktree_id);
    let held = held_ports(&s.recorded, &s.repo_key, &s.worktree_id);
    let mode = match requested {
        Some(mode) => if s.primary {
            mode
        } else {
            PortMode::Block
        },
        None => effective_mode(current, s.primary),
    };
    if let Some(a) = current {
        if a.mode == mode {
            return extend_assignment(config, s, a, requests, &held, Ghost(requested));
        }
    }
    let slots: u32 = config.slots();
    if slots == 0 {
        return Err(text::own("config: port range is too small for the configured stride"));
    }
    let taken = match current {
        Some(a) => others_taken(&s.taken, a.base),
        None => text::clone_plain(&s.taken),
    };
    let mut name = s.repo_key.clone();
    name.append(":");
    name.append(&s.worktree_id);
    let start: u32 = (slug::hash64(&name) % slots as u64) as u32;
    let ghost all = text::views(requests@);
    let mut step: u32 = 0;
    while step < slots
        invariant
            config.valid(),
            slots == config.slots_of(),
            slots <= 65536,
            start < slots,
            step <= slots,
            all == text::views(requests@),
            mode == s.mode(requested),
            taken@ == s.taken_by_others(),
            held@ == s.held(),
            start == first_slot(*config, s.repo_key@, s.worktree_id@),
            match current {
                Some(a) => s.current() == Some(a@) && a.mode != mode,
                None => s.current() is None,
            },
            find_block(*config, start as int, 0, taken@, mode, all, s.busy@, held@) == find_block(
                *config,
                start as int,
                step as int,
                taken@,
                mode,
                all,
                s.busy@,
                held@,
            ),
        decreases slots - step,
    {
        let slot: u32 = (start + step) % slots;
        proof {
            slot_fits(*config, slot as int);
        }
        let offset: u32 = slot * config.port_stride as u32;
        let base: u16 = config.port_range_start + offset as u16;
        assert(base == block_base(*config, (start + step) % (slots as int)));
        if !holds(&taken, base) {
            match assign_in_block(config, base, mode, requests, &s.busy, &held) {
                Err(e) => {
                    return Err(e);
                },
                Ok(BlockOutcome::Assigned(ports)) => {
                    let assignment = Assignment {
                        version: ASSIGNMENT_VERSION,
                        repo_key: s.repo_key.clone(),
                        worktree_id: s.worktree_id.clone(),
                        worktree_path: Some(s.worktree_path.clone()),
                        base,
                        mode,
                        ports,
                    };
                    let dropped = match current {
                        Some(a) => if a.base != base {
                            Some(a.base)
                        } else {
                            None
                        },
                        None => None,
                    };
                    return Ok(Ensured { assignment, fresh: true, changed: true, dropped });
                },
                Ok(BlockOutcome::Unusable) => {},
            }
        }
        step += 1;
    }
    let mut e = text::own("no free port block in ");
    e.append(&text::decimal(config.port_range_start as u64));
    e.append("..");
    e.append(&text::decimal(config.port_range_end as u64));
    e.append(" — run `magictree gc` or widen the range in ");
    e.append(&s.config_file);
    Err(e)
}

fn extend_assignment(
    config: &Config,
    s: &Situation,
    a: &Assignment,
    requests: &Vec<PortRequest>,
    held: &Vec<u16>,
    requested: Ghost<Option<PortMode>>,
) -> (r: Result<Ensured, String>)
    requires
        s.current() == Some(a@),
        a.mode == s.mode(requested@),
        held@ == s.held(),
    ensures
        match r {
            Ok(e) => {
                &&& ensured_of(*config, *s, text::views(requests@), requested@) == Ok::<
                    AssignmentView,
                    Seq<char>,
                >(e.assignment@)
                &&& !e.fresh
                &&& e.changed == (a@ != e.assignment@)
                &&& e.dropped is None
            },
            Err(e) => ensured_of(*config, *s, text::views(requests@), requested@) == Err::<
                AssignmentView,
                Seq<char>,
            >(e@),
        },
{
    let ghost all = text::views(requests@);
    let ghost mode = a.mode;
    let mut next = a.clone();
    let path = Some(s.worktree_path.clone());
    let mut changed = !text::same_opt(&next.worktree_path, &path);
    next.worktree_path = path;
    let mut ports = a.ports.duplicate();
    let mut k: usize = 0;
    while k < requests.len()
        invariant
            all == text::views(requests@),
            k <= requests@.len(),
            held@ == s.held(),
            s.current() == Some(a@),
            a.mode == s.mode(requested@),
            changed || ports@ == a.ports@,
            !changed ==> a@.worktree_path == Some(s.worktree_path@),
            changed ==> a@.worktree_path != Some(s.worktree_path@) || ports@ != a.ports@,
            ports@.len() >= a.ports@.len(),
            ports@.len() == a.ports@.len() ==> ports@ == a.ports@,
            extend_all(*config, a.base, a.mode, a.ports@, all, 0, s.busy@, held@) == extend_all(
                *config,
                a.base,
                a.mode,
                ports@,
                all,
                k as int,
                s.busy@,
                held@,
            ),
        decreases requests@.len() - k,
    {
        let request = &requests[k];
        assert(all[k as int] == request@);
        if !ports.contains(&request.name) {
            let mut used: Vec<u16> = Vec::new();
            append_values(&mut used, &ports);
            assert(used@ =~= values_of(ports@));
            match extend(config, a.base, a.mode, &used, request, &s.busy, held) {
                Err(e) => {
                    return Err(e);
                },
                Ok(port) => {
                    proof {
                        put_grows(ports@, request@.name, port);
                    }
                    ports.insert(request.name.clone(), port);
                    changed = true;
                },
            }
        }
        k += 1;
    }
    let assignment = Assignment { ports, ..next };
    Ok(Ensured { assignment, fresh: false, changed, dropped: None })
}

proof fn put_grows(e: Seq<(Seq<char>, u16)>, k: Seq<char>, v: u16)
    requires
        dict::lookup(e, k) is None,
    ensures
        dict::put(e, k, v).len() == e.len() + 1,
    decreases e.len(),
{
    if e.len() > 0 {
        if !text::before(k, e[0].0) && e[0].0 != k {
            put_grows(e.skip(1), k, v);
        }
    }
}

// ---------------------------------------------------------------------------
// Laws
// ---------------------------------------------------------------------------

/// Whether no two names share a port.
pub open spec fn distinct_ports(ports: Seq<(Seq<char>, u16)>) -> bool {
    forall|a: Seq<char>, b: Seq<char>|
        a != b && #[trigger] dict::lookup(ports, a) is Some && #[trigger] dict::lookup(ports, b) is Some
            ==> dict::lookup(ports, a) != dict::lookup(ports, b)
}

/// Whether every port is outside `away`.
pub open spec fn avoids(ports: Seq<(Seq<char>, u16)>, away: Seq<u16>) -> bool {
    forall|a: Seq<char>|
        #[trigger] dict::lookup(ports, a) matches Some(p) ==> !away.contains(p)
}

/// Whether every request has a port.
pub open spec fn serves(ports: Seq<(Seq<char>, u16)>, requests: Seq<PortRequestView>) -> bool {
    forall|k: int|
        0 <= k < requests.len() ==> dict::lookup(ports, (#[trigger] requests[k]).name) is Some
}

/// Whether no two requests have one name.
pub open spec fn distinct_names(requests: Seq<PortRequestView>) -> bool {
    forall|i: int, j: int|
        0 <= i < j < requests.len() ==> (#[trigger] requests[i]).name != (#[trigger] requests[j]).name
}

/// Whether a port may be given out: some request requires it, in declared mode some request
/// declares it, or it lies in the block.
pub open spec fn allowed(
    config: Config,
    base: u16,
    mode: PortMode,
    requests: Seq<PortRequestView>,
    p: u16,
) -> bool {
    ||| exists|k: int| 0 <= k < requests.len() && (#[trigger] requests[k]).require == Some(p)
    ||| mode == PortMode::Declared && exists|k: int|
        0 <= k < requests.len() && (#[trigger] requests[k]).prefer == Some(p)
    ||| base <= p < base + config.port_stride && p <= config.port_range_end
}

/// What an allocation in one block is made from.
pub struct Terms {
    pub config: Config,
    pub base: u16,
    pub mode: PortMode,
    pub requests: Seq<PortRequestView>,
    pub busy: Seq<u16>,
    pub held: Seq<u16>,
}

spec fn sound(t: Terms, s: Claimed) -> bool {
    &&& distinct_ports(s.ports)
    &&& forall|a: Seq<char>|
        #[trigger] dict::lookup(s.ports, a) matches Some(p) ==> s.used.contains(p)
    &&& forall|p: u16| #[trigger]
        s.used.contains(p) ==> !unavailable(p, t.busy, t.held) && allowed(
            t.config,
            t.base,
            t.mode,
            t.requests,
            p,
        )
}

spec fn keeps(before: Seq<(Seq<char>, u16)>, after: Seq<(Seq<char>, u16)>) -> bool {
    forall|a: Seq<char>|
        #[trigger] dict::lookup(before, a) is Some ==> dict::lookup(after, a) == dict::lookup(
            before,
            a,
        )
}

proof fn claim_is_sound(t: Terms, s: Claimed, name: Seq<char>, p: u16)
    requires
        sound(t, s),
        !s.used.contains(p),
        !unavailable(p, t.busy, t.held),
        allowed(t.config, t.base, t.mode, t.requests, p),
    ensures
        sound(t, s.with(name, p)),
        dict::lookup(s.with(name, p).ports, name) == Some(p),
        dict::lookup(s.ports, name) is None ==> keeps(s.ports, s.with(name, p).ports),
        forall|q: Seq<char>|
            q != name ==> #[trigger] dict::lookup(s.with(name, p).ports, q) == dict::lookup(
                s.ports,
                q,
            ),
{
    let n = s.with(name, p);
    assert forall|q: Seq<char>| #[trigger] dict::lookup(n.ports, q) == (if q == name {
        Some(p)
    } else {
        dict::lookup(s.ports, q)
    }) by {
        dict::put_then_lookup(s.ports, name, p, q);
    }
    assert(n.used[n.used.len() - 1] == p);
    assert forall|x: u16| n.used.contains(x) <==> x == p || s.used.contains(x) by {
        if n.used.contains(x) {
            let m = choose|m: int| 0 <= m < n.used.len() && n.used[m] == x;
            if m < s.used.len() {
                assert(s.used[m] == x);
            }
        }
        if s.used.contains(x) {
            let m = choose|m: int| 0 <= m < s.used.len() && s.used[m] == x;
            assert(n.used[m] == x);
        }
    }
    assert forall|a: Seq<char>, b: Seq<char>|
        a != b && #[trigger] dict::lookup(n.ports, a) is Some && #[trigger] dict::lookup(
            n.ports,
            b,
        ) is Some implies dict::lookup(n.ports, a) != dict::lookup(n.ports, b) by {
        if a != name {
            assert(dict::lookup(s.ports, a) is Some);
        }
        if b != name {
            assert(dict::lookup(s.ports, b) is Some);
        }
    }
}

proof fn required_sound(t: Terms, k: int, s: Claimed)
    requires
        0 <= k <= t.requests.len(),
        sound(t, s),
    ensures
        claim_required(t.requests, k, s, t.busy, t.held) matches Ok(n) ==> sound(t, n) && (
        distinct_names(t.requests) ==> forall|j: int|
            k <= j < t.requests.len() && (#[trigger] t.requests[j]).require is Some ==> dict::lookup(
                n.ports,
                t.requests[j].name,
            ) == t.requests[j].require) && forall|q: Seq<char>|
            (forall|j: int| k <= j < t.requests.len() ==> (#[trigger] t.requests[j]).name != q)
                ==> #[trigger] dict::lookup(n.ports, q) == dict::lookup(s.ports, q),
    decreases t.requests.len() - k,
{
    if k < t.requests.len() {
        match t.requests[k].require {
            None => {
                required_sound(t, k + 1, s);
            },
            Some(p) => {
                if !s.used.contains(p) && !unavailable(p, t.busy, t.held) {
                    let m = s.with(t.requests[k].name, p);
                    assert(allowed(t.config, t.base, t.mode, t.requests, p));
                    claim_is_sound(t, s, t.requests[k].name, p);
                    required_sound(t, k + 1, m);
                    if let Ok(n) = claim_required(t.requests, k + 1, m, t.busy, t.held) {
                        if distinct_names(t.requests) {
                            assert(forall|j: int|
                                k + 1 <= j < t.requests.len() ==> (#[trigger] t.requests[j]).name
                                    != t.requests[k].name);
                            assert(dict::lookup(n.ports, t.requests[k].name) == Some(p));
                        }
                        assert forall|q: Seq<char>|
                            (forall|j: int|
                                k <= j < t.requests.len() ==> (#[trigger] t.requests[j]).name
                                    != q) implies #[trigger] dict::lookup(n.ports, q)
                            == dict::lookup(s.ports, q) by {
                            assert(t.requests[k].name != q);
                            assert(dict::lookup(m.ports, q) == dict::lookup(s.ports, q));
                        }
                    }
                }
            },
        }
    }
}

proof fn declared_sound(t: Terms, k: int, s: Claimed)
    requires
        0 <= k <= t.requests.len(),
        t.mode == PortMode::Declared,
        sound(t, s),
    ensures
        claim_declared(t.requests, k, s, t.busy, t.held) matches Ok(n) ==> sound(t, n) && keeps(
            s.ports,
            n.ports,
        ),
    decreases t.requests.len() - k,
{
    if k < t.requests.len() {
        if dict::lookup(s.ports, t.requests[k].name) is Some {
            declared_sound(t, k + 1, s);
        } else {
            match t.requests[k].prefer {
                None => {
                    declared_sound(t, k + 1, s);
                },
                Some(p) => {
                    if !s.used.contains(p) && !unavailable(p, t.busy, t.held) {
                        let m = s.with(t.requests[k].name, p);
                        claim_is_sound(t, s, t.requests[k].name, p);
                        declared_sound(t, k + 1, m);
                        if let Ok(n) = claim_declared(t.requests, k + 1, m, t.busy, t.held) {
                            assert(keeps(s.ports, n.ports)) by {
                                assert forall|a: Seq<char>| #[trigger]
                                    dict::lookup(s.ports, a) is Some implies dict::lookup(
                                    n.ports,
                                    a,
                                ) == dict::lookup(s.ports, a) by {
                                    assert(dict::lookup(m.ports, a) == dict::lookup(s.ports, a));
                                }
                            }
                        }
                    }
                },
            }
        }
    }
}

proof fn next_port_sound(config: Config, base: u16, offset: int, used: Seq<u16>, busy: Seq<u16>, held: Seq<u16>)
    requires
        0 <= offset,
    ensures
        next_port(config, base, offset, used, busy, held) matches Some((p, next)) ==> !used.contains(p)
            && !unavailable(p, busy, held) && base <= p < base + config.port_stride && p
            <= config.port_range_end && offset < next <= config.port_stride,
    decreases config.port_stride - offset,
{
    if offset < config.port_stride && base + offset <= config.port_range_end {
        let port = (base + offset) as u16;
        if used.contains(port) || held.contains(port) {
            next_port_sound(config, base, offset + 1, used, busy, held);
        }
    }
}

proof fn block_sound(t: Terms, k: int, s: Claimed, offset: int)
    requires
        0 <= k <= t.requests.len(),
        0 <= offset,
        sound(t, s),
    ensures
        claim_block(t.config, t.base, t.requests, k, s, offset, t.busy, t.held) matches Some(n)
            ==> sound(t, n) && keeps(s.ports, n.ports) && forall|j: int|
            k <= j < t.requests.len() ==> dict::lookup(n.ports, (#[trigger] t.requests[j]).name) is Some,
    decreases t.requests.len() - k,
{
    if k < t.requests.len() {
        let name = t.requests[k].name;
        if dict::lookup(s.ports, name) is Some {
            block_sound(t, k + 1, s, offset);
        } else {
            next_port_sound(t.config, t.base, offset, s.used, t.busy, t.held);
            if let Some((p, next)) = next_port(t.config, t.base, offset, s.used, t.busy, t.held) {
                let m = s.with(name, p);
                claim_is_sound(t, s, name, p);
                block_sound(t, k + 1, m, next);
                if let Some(n) = claim_block(
                    t.config,
                    t.base,
                    t.requests,
                    k + 1,
                    m,
                    next,
                    t.busy,
                    t.held,
                ) {
                    assert(dict::lookup(m.ports, name) is Some);
                    assert(keeps(s.ports, n.ports)) by {
                        assert forall|a: Seq<char>| #[trigger]
                            dict::lookup(s.ports, a) is Some implies dict::lookup(n.ports, a)
                            == dict::lookup(s.ports, a) by {
                            assert(dict::lookup(m.ports, a) == dict::lookup(s.ports, a));
                        }
                    }
                }
            }
        }
    }
}

/// A fresh assignment gives every request a port and no two names the same port; it gives out no
/// port that something listens on or that another worktree holds; every port is one that a request
/// requires, in declared mode one that a request declares, or one of the block; and a request that
/// requires a port gets exactly that port.
pub proof fn fresh_assignments_are_sound(
    config: Config,
    base: u16,
    mode: PortMode,
    requests: Seq<PortRequestView>,
    busy: Seq<u16>,
    held: Seq<u16>,
)
    ensures
        assign_of(config, base, mode, requests, busy, held) matches Ok(Some(s)) ==> {
            &&& distinct_ports(s.ports)
            &&& serves(s.ports, requests)
            &&& avoids(s.ports, busy)
            &&& avoids(s.ports, held)
            &&& forall|a: Seq<char>|
                #[trigger] dict::lookup(s.ports, a) matches Some(p) ==> allowed(
                    config,
                    base,
                    mode,
                    requests,
                    p,
                )
            &&& distinct_names(requests) ==> forall|k: int|
                0 <= k < requests.len() && (#[trigger] requests[k]).require is Some ==> dict::lookup(
                    s.ports,
                    requests[k].name,
                ) == requests[k].require
        },
{
    let t = Terms { config, base, mode, requests, busy, held };
    let none = Claimed { ports: Seq::empty(), used: Seq::empty() };
    assert(sound(t, none));
    required_sound(t, 0, none);
    if let Ok(r) = claim_required(requests, 0, none, busy, held) {
        if mode == PortMode::Declared {
            declared_sound(t, 0, r);
        }
        if let Ok(f) = claim_fixed(mode, requests, busy, held) {
            block_sound(t, 0, f, 0);
            if let Some(s) = claim_block(config, base, requests, 0, f, 0, busy, held) {
                assert forall|a: Seq<char>| #[trigger]
                    dict::lookup(s.ports, a) matches Some(p) ==> !busy.contains(p)
                        && !held.contains(p) && allowed(config, base, mode, requests, p) by {
                    if let Some(p) = dict::lookup(s.ports, a) {
                        assert(s.used.contains(p));
                    }
                }
                if distinct_names(requests) {
                    assert forall|k: int|
                        0 <= k < requests.len() && (
                        #[trigger] requests[k]).require is Some implies dict::lookup(
                        s.ports,
                        requests[k].name,
                    ) == requests[k].require by {
                        let name = requests[k].name;
                        assert(dict::lookup(r.ports, name) == requests[k].require);
                        assert(dict::lookup(f.ports, name) == requests[k].require);
                    }
                }
            }
        }
    }
}

proof fn unrequired_stay(
    requests: Seq<PortRequestView>,
    k: int,
    s: Claimed,
    busy: Seq<u16>,
    held: Seq<u16>,
    q: Seq<char>,
)
    requires
        0 <= k <= requests.len(),
        forall|j: int|
            k <= j < requests.len() && (#[trigger] requests[j]).name == q ==> requests[j].require
                is None,
    ensures
        claim_required(requests, k, s, busy, held) matches Ok(n) ==> dict::lookup(n.ports, q)
            == dict::lookup(s.ports, q),
    decreases requests.len() - k,
{
    if k < requests.len() {
        match requests[k].require {
            None => {
                unrequired_stay(requests, k + 1, s, busy, held, q);
            },
            Some(p) => {
                dict::put_then_lookup(s.ports, requests[k].name, p, q);
                unrequired_stay(requests, k + 1, s.with(requests[k].name, p), busy, held, q);
            },
        }
    }
}

proof fn claimed_stay(
    requests: Seq<PortRequestView>,
    k: int,
    s: Claimed,
    busy: Seq<u16>,
    held: Seq<u16>,
    q: Seq<char>,
)
    requires
        0 <= k <= requests.len(),
        dict::lookup(s.ports, q) is Some,
    ensures
        claim_declared(requests, k, s, busy, held) matches Ok(n) ==> dict::lookup(n.ports, q)
            == dict::lookup(s.ports, q),
    decreases requests.len() - k,
{
    if k < requests.len() {
        claimed_stay(requests, k + 1, s, busy, held, q);
        if let Some(p) = requests[k].prefer {
            if dict::lookup(s.ports, requests[k].name) is None {
                dict::put_then_lookup(s.ports, requests[k].name, p, q);
                claimed_stay(requests, k + 1, s.with(requests[k].name, p), busy, held, q);
            }
        }
    }
}

proof fn declared_are_taken(
    requests: Seq<PortRequestView>,
    k: int,
    s: Claimed,
    busy: Seq<u16>,
    held: Seq<u16>,
    j: int,
)
    requires
        0 <= k <= j < requests.len(),
        distinct_names(requests),
        requests[j].prefer is Some,
        dict::lookup(s.ports, requests[j].name) is None,
    ensures
        claim_declared(requests, k, s, busy, held) matches Ok(n) ==> dict::lookup(
            n.ports,
            requests[j].name,
        ) == requests[j].prefer,
    decreases requests.len() - k,
{
    let q = requests[j].name;
    if k == j {
        let p = requests[j].prefer.unwrap();
        dict::put_then_lookup(s.ports, q, p, q);
        claimed_stay(requests, k + 1, s.with(q, p), busy, held, q);
    } else {
        assert(requests[k].name != requests[j].name);
        declared_are_taken(requests, k + 1, s, busy, held, j);
        if let Some(p) = requests[k].prefer {
            dict::put_then_lookup(s.ports, requests[k].name, p, q);
            declared_are_taken(requests, k + 1, s.with(requests[k].name, p), busy, held, j);
        }
    }
}

/// On declared ports, a service runs on the port it declares or the allocation is refused: a
/// declared port is never traded for a free one, neither in a fresh assignment nor in one that
/// grows.
pub proof fn declared_ports_are_taken_or_refused(
    config: Config,
    base: u16,
    requests: Seq<PortRequestView>,
    used: Seq<u16>,
    busy: Seq<u16>,
    held: Seq<u16>,
    k: int,
)
    requires
        distinct_names(requests),
        0 <= k < requests.len(),
        requests[k].require is None,
        requests[k].prefer is Some,
    ensures
        assign_of(config, base, PortMode::Declared, requests, busy, held) matches Ok(Some(s))
            ==> dict::lookup(s.ports, requests[k].name) == requests[k].prefer,
        extend_of(config, base, PortMode::Declared, used, requests[k], busy, held) matches Ok(p)
            ==> Some(p) == requests[k].prefer,
{
    let t = Terms { config, base, mode: PortMode::Declared, requests, busy, held };
    let none = Claimed { ports: Seq::empty(), used: Seq::empty() };
    let name = requests[k].name;
    assert(sound(t, none));
    required_sound(t, 0, none);
    assert forall|j: int|
        0 <= j < requests.len() && (#[trigger] requests[j]).name == name implies requests[j].require
        is None by {
        assert(j == k);
    }
    unrequired_stay(requests, 0, none, busy, held, name);
    if let Ok(r) = claim_required(requests, 0, none, busy, held) {
        declared_sound(t, 0, r);
        declared_are_taken(requests, 0, r, busy, held, k);
        if let Ok(f) = claim_declared(requests, 0, r, busy, held) {
            block_sound(t, 0, f, 0);
        }
    }
}

/// A linked worktree, or a checkout on generated ports, takes no declared port: what is not
/// required comes from its own block.
pub proof fn generated_ports_stay_in_the_block(
    config: Config,
    base: u16,
    requests: Seq<PortRequestView>,
    busy: Seq<u16>,
    held: Seq<u16>,
    name: Seq<char>,
)
    ensures
        assign_of(config, base, PortMode::Block, requests, busy, held) matches Ok(Some(s)) ==> (
        dict::lookup(s.ports, name) matches Some(p) ==> (base <= p < base + config.port_stride && p
            <= config.port_range_end) || exists|k: int|
            0 <= k < requests.len() && (#[trigger] requests[k]).require == Some(p)),
{
    fresh_assignments_are_sound(config, base, PortMode::Block, requests, busy, held);
}

proof fn spare_port_sound(config: Config, base: u16, offset: int, used: Seq<u16>, busy: Seq<u16>, held: Seq<u16>)
    requires
        0 <= offset,
    ensures
        spare_port(config, base, offset, used, busy, held) matches Some(p) ==> !used.contains(p)
            && !unavailable(p, busy, held) && base <= p < base + config.port_stride && p
            <= config.port_range_end,
    decreases config.port_stride - offset,
{
    if offset < config.port_stride && base + offset <= config.port_range_end {
        let port = (base + offset) as u16;
        if used.contains(port) || unavailable(port, busy, held) {
            spare_port_sound(config, base, offset + 1, used, busy, held);
        }
    }
}

proof fn lookup_is_a_value(ports: Seq<(Seq<char>, u16)>, a: Seq<char>)
    ensures
        dict::lookup(ports, a) matches Some(p) ==> values_of(ports).contains(p),
    decreases ports.len(),
{
    if ports.len() > 0 {
        if ports[0].0 == a {
            assert(values_of(ports)[0] == ports[0].1);
        } else {
            lookup_is_a_value(ports.skip(1), a);
            if let Some(p) = dict::lookup(ports.skip(1), a) {
                let m = choose|m: int|
                    0 <= m < values_of(ports.skip(1)).len() && values_of(ports.skip(1))[m] == p;
                assert(values_of(ports)[m + 1] == p);
            }
        }
    }
}

/// Extending an assignment keeps every port it had, gives every request a port, and gives out no
/// port that is used, listened on or held by another worktree.
pub proof fn extended_assignments_are_sound(
    config: Config,
    base: u16,
    mode: PortMode,
    ports: Seq<(Seq<char>, u16)>,
    requests: Seq<PortRequestView>,
    k: int,
    busy: Seq<u16>,
    held: Seq<u16>,
)
    requires
        0 <= k <= requests.len(),
        distinct_ports(ports),
    ensures
        extend_all(config, base, mode, ports, requests, k, busy, held) matches Ok(n) ==> {
            &&& distinct_ports(n)
            &&& forall|a: Seq<char>| #[trigger]
                dict::lookup(ports, a) is Some ==> dict::lookup(n, a) == dict::lookup(ports, a)
            &&& forall|a: Seq<char>|
                #[trigger] dict::lookup(n, a) matches Some(p) ==> dict::lookup(ports, a) is Some || (
                !busy.contains(p) && !held.contains(p))
            &&& forall|j: int|
                k <= j < requests.len() ==> dict::lookup(n, (#[trigger] requests[j]).name) is Some
        },
    decreases requests.len() - k,
{
    if k < requests.len() {
        let name = requests[k].name;
        if dict::lookup(ports, name) is Some {
            extended_assignments_are_sound(config, base, mode, ports, requests, k + 1, busy, held);
        } else {
            let used = values_of(ports);
            spare_port_sound(config, base, 0, used, busy, held);
            if let Ok(p) = extend_of(config, base, mode, used, requests[k], busy, held) {
                assert(!used.contains(p) && !unavailable(p, busy, held));
                let next = dict::put(ports, name, p);
                assert forall|q: Seq<char>| #[trigger] dict::lookup(next, q) == (if q == name {
                    Some(p)
                } else {
                    dict::lookup(ports, q)
                }) by {
                    dict::put_then_lookup(ports, name, p, q);
                }
                assert forall|a: Seq<char>, b: Seq<char>|
                    a != b && #[trigger] dict::lookup(next, a) is Some && #[trigger] dict::lookup(
                        next,
                        b,
                    ) is Some implies dict::lookup(next, a) != dict::lookup(next, b) by {
                    lookup_is_a_value(ports, a);
                    lookup_is_a_value(ports, b);
                    if a != name && b != name {
                        assert(dict::lookup(ports, a) is Some && dict::lookup(ports, b) is Some);
                    }
                }
                extended_assignments_are_sound(
                    config,
                    base,
                    mode,
                    next,
                    requests,
                    k + 1,
                    busy,
                    held,
                );
                if let Ok(n) = extend_all(config, base, mode, next, requests, k + 1, busy, held) {
                    assert(dict::lookup(next, name) is Some);
                    assert forall|a: Seq<char>| #[trigger]
                        dict::lookup(ports, a) is Some implies dict::lookup(n, a) == dict::lookup(
                        ports,
                        a,
                    ) by {
                        assert(dict::lookup(next, a) is Some);
                    }
                    assert forall|a: Seq<char>|
                        #[trigger] dict::lookup(n, a) matches Some(q) ==> dict::lookup(
                            ports,
                            a,
                        ) is Some || (!busy.contains(q) && !held.contains(q)) by {
                        if a == name {
                            assert(dict::lookup(next, a) == Some(p));
                        } else {
                            assert(dict::lookup(next, a) == dict::lookup(ports, a));
                        }
                    }
                }
            }
        }
    }
}

proof fn find_block_sound(
    config: Config,
    start: int,
    step: int,
    taken: Seq<u16>,
    mode: PortMode,
    requests: Seq<PortRequestView>,
    busy: Seq<u16>,
    held: Seq<u16>,
)
    ensures
        find_block(config, start, step, taken, mode, requests, busy, held) matches Ok(
            Some((base, ports)),
        ) ==> !taken.contains(base) && distinct_ports(ports) && serves(ports, requests) && avoids(
            ports,
            busy,
        ) && avoids(ports, held),
    decreases config.slots_of() - step,
{
    if step < config.slots_of() {
        let base = block_base(config, (start + step) % config.slots_of());
        fresh_assignments_are_sound(config, base, mode, requests, busy, held);
        find_block_sound(config, start, step + 1, taken, mode, requests, busy, held);
    }
}

/// Whatever a worktree is given, every request has a port; a port that it did not have before is
/// one that nothing is known to listen on and that no other worktree holds. So where the worktree
/// shared no port with another before, and gave no two names one port, it does neither after.
pub proof fn worktrees_never_share_a_port(
    config: Config,
    s: Situation,
    requests: Seq<PortRequestView>,
    requested: Option<PortMode>,
)
    requires
        s.current() matches Some(a) ==> distinct_ports(a.ports) && avoids(a.ports, s.held()),
    ensures
        ensured_of(config, s, requests, requested) matches Ok(a) ==> {
            &&& serves(a.ports, requests)
            &&& distinct_ports(a.ports)
            &&& avoids(a.ports, s.held())
            &&& forall|name: Seq<char>|
                #[trigger] dict::lookup(a.ports, name) matches Some(p) ==> !s.busy@.contains(p) || (
                s.current() matches Some(c) && dict::lookup(c.ports, name) == Some(p))
        },
{
    let mode = s.mode(requested);
    match s.current() {
        Some(a) if a.mode == mode => {
            extended_assignments_are_sound(
                config,
                a.base,
                mode,
                a.ports,
                requests,
                0,
                s.busy@,
                s.held(),
            );
            if let Ok(n) = extend_all(
                config,
                a.base,
                mode,
                a.ports,
                requests,
                0,
                s.busy@,
                s.held(),
            ) {
                assert forall|name: Seq<char>|
                    #[trigger] dict::lookup(n, name) matches Some(p) ==> !s.held().contains(p) by {
                    if let Some(p) = dict::lookup(a.ports, name) {
                        assert(dict::lookup(n, name) == Some(p));
                    }
                }
            }
        },
        _ => {
            find_block_sound(
                config,
                first_slot(config, s.repo_key@, s.worktree_id@),
                0,
                s.taken_by_others(),
                mode,
                requests,
                s.busy@,
                s.held(),
            );
        },
    }
}

/// The blocks of two slots have no port in common, and each lies in the configured range.
pub proof fn blocks_do_not_overlap(config: Config, a: int, b: int)
    requires
        config.valid(),
        0 <= a < config.slots_of(),
        0 <= b < config.slots_of(),
        a != b,
    ensures
        block_base(config, a) + config.port_stride <= block_base(config, b) || block_base(config, b)
            + config.port_stride <= block_base(config, a),
        config.port_range_start <= block_base(config, a),
        block_base(config, a) + config.port_stride - 1 <= config.port_range_end,
{
    slot_fits(config, a);
    slot_fits(config, b);
    let stride = config.port_stride as int;
    if a < b {
        assert(a * stride + stride <= b * stride) by (nonlinear_arith)
            requires
                a + 1 <= b,
                stride > 0,
        ;
    } else {
        assert(b * stride + stride <= a * stride) by (nonlinear_arith)
            requires
                b + 1 <= a,
                stride > 0,
        ;
    }
}

proof fn extend_nothing(
    config: Config,
    base: u16,
    mode: PortMode,
    ports: Seq<(Seq<char>, u16)>,
    requests: Seq<PortRequestView>,
    k: int,
    busy: Seq<u16>,
    held: Seq<u16>,
)
    requires
        0 <= k <= requests.len(),
        serves(ports, requests),
    ensures
        extend_all(config, base, mode, ports, requests, k, busy, held) == Ok::<
            Seq<(Seq<char>, u16)>,
            Seq<char>,
        >(ports),
    decreases requests.len() - k,
{
    if k < requests.len() {
        assert(dict::lookup(ports, requests[k].name) is Some);
        extend_nothing(config, base, mode, ports, requests, k + 1, busy, held);
    }
}

/// A recorded assignment is stable: asked again for what it already has, in its own mode, a
/// worktree keeps its ports, whatever listens meanwhile.
pub proof fn recorded_ports_stay(
    config: Config,
    s: Situation,
    requests: Seq<PortRequestView>,
    requested: Option<PortMode>,
)
    requires
        s.current() matches Some(a) && a.mode == s.mode(requested) && serves(a.ports, requests),
    ensures
        ensured_of(config, s, requests, requested) matches Ok(a) && a.ports
            == s.current().unwrap().ports && a.base == s.current().unwrap().base,
{
    let a = s.current().unwrap();
    extend_nothing(config, a.base, a.mode, a.ports, requests, 0, s.busy@, s.held());
}

// ---------------------------------------------------------------------------
// What an assignment owes
// ---------------------------------------------------------------------------

/// Whether another worktree has recorded a port.
pub open spec fn recorded_elsewhere(s: Situation, p: u16) -> bool {
    exists|i: int, j: int|
        0 <= i < s.recorded@.len() && !(s.recorded@[i].repo_key@ == s.repo_key@
            && s.recorded@[i].worktree_id@ == s.worktree_id@) && 0 <= j
            < s.recorded@[i].ports@.len() && (#[trigger] s.recorded@[i].ports@[j]).1 == p
}

/// Whether a worktree has a port under some name.
pub open spec fn has_port(ports: Seq<(Seq<char>, u16)>, p: u16) -> bool {
    exists|j: int| 0 <= j < ports.len() && (#[trigger] ports[j]).1 == p
}

/// Whether a port is one of the block at `base`.
pub open spec fn in_block(config: Config, base: u16, p: u16) -> bool {
    base <= p < base + config.port_stride && p <= config.port_range_end
}

/// Whether a worktree has already a port under a name, in the mode that is asked for.
pub open spec fn already_has(s: Situation, requested: Option<PortMode>, name: Seq<char>) -> bool {
    s.current() matches Some(a) && a.mode == s.mode(requested) && dict::lookup(a.ports, name) is Some
}

proof fn held_is_recorded(
    recorded: Seq<AssignmentView>,
    repo_key: Seq<char>,
    worktree_id: Seq<char>,
    k: int,
    p: u16,
)
    requires
        0 <= k <= recorded.len(),
    ensures
        held(recorded, repo_key, worktree_id, k).contains(p) <==> exists|i: int, j: int|
            0 <= i < k && !(recorded[i].repo_key == repo_key && recorded[i].worktree_id
                == worktree_id) && 0 <= j < recorded[i].ports.len() && (
            #[trigger] recorded[i].ports[j]).1 == p,
    decreases k,
{
    let all = held(recorded, repo_key, worktree_id, k);
    if k > 0 {
        held_is_recorded(recorded, repo_key, worktree_id, k - 1, p);
        let before = held(recorded, repo_key, worktree_id, k - 1);
        let own = recorded[k - 1];
        if !belongs(own, repo_key, worktree_id) {
            let values = values_of(own.ports);
            if all.contains(p) {
                let m = choose|m: int| 0 <= m < all.len() && all[m] == p;
                if m < before.len() {
                    assert(before[m] == p);
                    assert(before.contains(p));
                } else {
                    assert(values[m - before.len()] == p);
                    assert(recorded[k - 1].ports[m - before.len()].1 == p);
                }
            }
            if before.contains(p) {
                let m = choose|m: int| 0 <= m < before.len() && before[m] == p;
                assert(all[m] == p);
            }
            assert forall|j: int| 0 <= j < own.ports.len() && (
            #[trigger] recorded[k - 1].ports[j]).1 == p implies all.contains(p) by {
                assert(all[before.len() + j] == p);
            }
        }
    }
}

/// The ports that are held from a worktree are exactly those that other worktrees have recorded.
pub proof fn held_ports_are_those_of_others(s: Situation, p: u16)
    ensures
        s.held().contains(p) <==> recorded_elsewhere(s, p),
{
    let recorded = text::views(s.recorded@);
    held_is_recorded(recorded, s.repo_key@, s.worktree_id@, recorded.len() as int, p);
    if s.held().contains(p) {
        let (i, j) = choose|i: int, j: int|
            0 <= i < recorded.len() && !(recorded[i].repo_key == s.repo_key@
                && recorded[i].worktree_id == s.worktree_id@) && 0 <= j < recorded[i].ports.len()
                && (#[trigger] recorded[i].ports[j]).1 == p;
        assert(s.recorded@[i].ports@[j].1 == p);
    }
    if recorded_elsewhere(s, p) {
        let (i, j) = choose|i: int, j: int|
            0 <= i < s.recorded@.len() && !(s.recorded@[i].repo_key@ == s.repo_key@
                && s.recorded@[i].worktree_id@ == s.worktree_id@) && 0 <= j
                < s.recorded@[i].ports@.len() && (#[trigger] s.recorded@[i].ports@[j]).1 == p;
        assert(recorded[i].ports[j].1 == p);
    }
}

proof fn found_assignment(
    recorded: Seq<AssignmentView>,
    repo_key: Seq<char>,
    worktree_id: Seq<char>,
    k: int,
) -> (i: int)
    requires
        0 <= k <= recorded.len(),
    ensures
        k <= i <= recorded.len(),
        forall|j: int|
            k <= j < i ==> (#[trigger] recorded[j]).repo_key != repo_key || recorded[j].worktree_id
                != worktree_id,
        match find_assignment(recorded, repo_key, worktree_id, k) {
            Some(a) => i < recorded.len() && recorded[i] == a && a.repo_key == repo_key
                && a.worktree_id == worktree_id,
            None => i == recorded.len(),
        },
    decreases recorded.len() - k,
{
    if k == recorded.len() || belongs(recorded[k], repo_key, worktree_id) {
        k
    } else {
        found_assignment(recorded, repo_key, worktree_id, k + 1)
    }
}

/// A worktree's assignment is the first that was recorded for its repository and its id; it has none
/// only where none was.
pub proof fn a_worktree_finds_its_own_record(s: Situation)
    ensures
        match s.current() {
            Some(a) => exists|i: int|
                0 <= i < s.recorded@.len() && (#[trigger] s.recorded@[i])@ == a && a.repo_key
                    == s.repo_key@ && a.worktree_id == s.worktree_id@ && forall|j: int|
                    0 <= j < i ==> (#[trigger] s.recorded@[j]).repo_key@ != s.repo_key@
                        || s.recorded@[j].worktree_id@ != s.worktree_id@,
            None => forall|i: int|
                0 <= i < s.recorded@.len() ==> (#[trigger] s.recorded@[i]).repo_key@ != s.repo_key@
                    || s.recorded@[i].worktree_id@ != s.worktree_id@,
        },
{
    let recorded = text::views(s.recorded@);
    let i = found_assignment(recorded, s.repo_key@, s.worktree_id@, 0);
    assert forall|j: int| 0 <= j < i implies (#[trigger] s.recorded@[j]).repo_key@ != s.repo_key@
        || s.recorded@[j].worktree_id@ != s.worktree_id@ by {
        assert(recorded[j].repo_key != s.repo_key@ || recorded[j].worktree_id != s.worktree_id@);
    }
    if s.current() is Some {
        assert(s.recorded@[i]@ == recorded[i]);
    }
}

/// A linked worktree allocates from its block whatever is asked for and whatever was recorded; the
/// primary checkout does what is asked, else what it recorded, else takes the declared ports.
pub proof fn linked_worktrees_allocate_from_their_block(s: Situation, requested: Option<PortMode>)
    ensures
        !s.primary ==> s.mode(requested) == PortMode::Block,
        s.primary && requested is Some ==> Some(s.mode(requested)) == requested,
        s.primary && requested is None ==> s.mode(requested) == (match s.current() {
            Some(a) => a.mode,
            None => PortMode::Declared,
        }),
{
}

proof fn spare_port_is_first(
    config: Config,
    base: u16,
    offset: int,
    used: Seq<u16>,
    busy: Seq<u16>,
    held: Seq<u16>,
)
    requires
        0 <= offset,
    ensures
        match spare_port(config, base, offset, used, busy, held) {
            Some(p) => in_block(config, base, p) && !used.contains(p) && !busy.contains(p)
                && !held.contains(p) && forall|q: u16|
                base + offset <= q < p ==> #[trigger] used.contains(q) || busy.contains(q)
                    || held.contains(q),
            None => forall|q: u16|
                base + offset <= q && in_block(config, base, q) ==> #[trigger] used.contains(q)
                    || busy.contains(q) || held.contains(q),
        },
    decreases config.port_stride - offset,
{
    if offset < config.port_stride && base + offset <= config.port_range_end {
        let port = (base + offset) as u16;
        if used.contains(port) || unavailable(port, busy, held) {
            spare_port_is_first(config, base, offset + 1, used, busy, held);
            let r = spare_port(config, base, offset + 1, used, busy, held);
            assert forall|q: u16|
                base + offset <= q && in_block(config, base, q) && (r is Some ==> q
                    < r.unwrap()) implies #[trigger] used.contains(q) || busy.contains(q)
                || held.contains(q) by {
                if q != port {
                    assert(base + offset + 1 <= q);
                }
            }
        } else {
            assert forall|q: u16| base + offset <= q < port implies #[trigger] used.contains(q)
                || busy.contains(q) || held.contains(q) by {}
        }
    }
}

/// One more port beside those a worktree has: a required port is taken exactly where it is not used,
/// listened on or held, and refused otherwise; on declared ports so is a declared one; and any other
/// request gets the first port of the block that is none of these, and is refused only where the
/// block has none left.
pub proof fn one_more_port(
    config: Config,
    base: u16,
    mode: PortMode,
    used: Seq<u16>,
    request: PortRequestView,
    busy: Seq<u16>,
    held: Seq<u16>,
)
    ensures
        ({
            let r = extend_of(config, base, mode, used, request, busy, held);
            let free = |p: u16| !used.contains(p) && !busy.contains(p) && !held.contains(p);
            &&& request.require matches Some(p) ==> (r is Ok <==> free(p)) && (r is Ok
                ==> r->Ok_0 == p)
            &&& request.require is None && mode == PortMode::Declared ==> (
            request.prefer matches Some(p) ==> (r is Ok <==> free(p)) && (r is Ok ==> r->Ok_0 == p))
            &&& request.require is None && (mode == PortMode::Block || request.prefer is None) ==> {
                &&& r is Ok ==> free(r->Ok_0) && in_block(config, base, r->Ok_0) && forall|q: u16|
                    base <= q < r->Ok_0 ==> !#[trigger] free(q)
                &&& r is Err ==> forall|q: u16| in_block(config, base, q) ==> !#[trigger] free(q)
            }
        }),
{
    spare_port_is_first(config, base, 0, used, busy, held);
    let r = extend_of(config, base, mode, used, request, busy, held);
    let free = |p: u16| !used.contains(p) && !busy.contains(p) && !held.contains(p);
    if request.require is None && (mode == PortMode::Block || request.prefer is None) {
        assert forall|q: u16|
            base <= q && in_block(config, base, q) && (r is Ok ==> q < r->Ok_0) implies !#[trigger] free(
            q,
        ) by {
            assert(used.contains(q) || busy.contains(q) || held.contains(q));
        }
    }
}

proof fn values_hold(ports: Seq<(Seq<char>, u16)>, p: u16)
    ensures
        values_of(ports).contains(p) <==> has_port(ports, p),
{
    let v = values_of(ports);
    if v.contains(p) {
        let m = choose|m: int| 0 <= m < v.len() && v[m] == p;
        assert(ports[m].1 == p);
    }
    if has_port(ports, p) {
        let j = choose|j: int| 0 <= j < ports.len() && (#[trigger] ports[j]).1 == p;
        assert(v[j] == p);
    }
}

proof fn put_keeps_values(ports: Seq<(Seq<char>, u16)>, name: Seq<char>, q: u16, p: u16)
    requires
        dict::lookup(ports, name) is None,
    ensures
        has_port(dict::put(ports, name, q), p) <==> has_port(ports, p) || p == q,
    decreases ports.len(),
{
    let n = dict::put(ports, name, q);
    if ports.len() == 0 {
        assert(n[0].1 == q);
    } else if text::before(name, ports[0].0) {
        assert(n[0].1 == q);
        if has_port(ports, p) {
            let j = choose|j: int| 0 <= j < ports.len() && (#[trigger] ports[j]).1 == p;
            assert(n[j + 1].1 == p);
        }
        if has_port(n, p) {
            let j = choose|j: int| 0 <= j < n.len() && (#[trigger] n[j]).1 == p;
            if j > 0 {
                assert(ports[j - 1].1 == p);
            }
        }
    } else {
        let rest = ports.skip(1);
        put_keeps_values(rest, name, q, p);
        let tail = dict::put(rest, name, q);
        if has_port(tail, p) {
            let j = choose|j: int| 0 <= j < tail.len() && (#[trigger] tail[j]).1 == p;
            assert(n[j + 1].1 == p);
        }
        if has_port(rest, p) {
            let j = choose|j: int| 0 <= j < rest.len() && (#[trigger] rest[j]).1 == p;
            assert(ports[j + 1].1 == p);
        }
        if has_port(n, p) {
            let j = choose|j: int| 0 <= j < n.len() && (#[trigger] n[j]).1 == p;
            if j == 0 {
                assert(ports[0].1 == p);
            } else {
                assert(tail[j - 1].1 == p);
            }
        }
        if has_port(ports, p) {
            let j = choose|j: int| 0 <= j < ports.len() && (#[trigger] ports[j]).1 == p;
            if j == 0 {
                assert(n[0].1 == p);
            } else {
                assert(rest[j - 1].1 == p);
            }
        }
    }
}

/// The port that a request gets where it has none: what it requires, on declared ports what it
/// declares, and else one of the block.
spec fn is_due(config: Config, base: u16, mode: PortMode, request: PortRequestView, p: u16) -> bool {
    match request.require {
        Some(q) => p == q,
        None => if mode == PortMode::Declared && request.prefer is Some {
            request.prefer == Some(p)
        } else {
            in_block(config, base, p)
        },
    }
}

proof fn extending_gives_what_is_due(
    config: Config,
    base: u16,
    mode: PortMode,
    ports: Seq<(Seq<char>, u16)>,
    requests: Seq<PortRequestView>,
    from: int,
    k: int,
    busy: Seq<u16>,
    held: Seq<u16>,
)
    requires
        0 <= from <= k < requests.len(),
        dict::lookup(ports, requests[k].name) is None,
        forall|j: int| from <= j < k ==> (#[trigger] requests[j]).name != requests[k].name,
    ensures
        extend_all(config, base, mode, ports, requests, from, busy, held) matches Ok(n) ==> (
        dict::lookup(n, requests[k].name) matches Some(p) && is_due(
            config,
            base,
            mode,
            requests[k],
            p,
        ) && !has_port(ports, p) && !busy.contains(p) && !held.contains(p)),
    decreases requests.len() - from,
{
    let name = requests[from].name;
    let used = values_of(ports);
    spare_port_is_first(config, base, 0, used, busy, held);
    if dict::lookup(ports, name) is Some {
        extending_gives_what_is_due(config, base, mode, ports, requests, from + 1, k, busy, held);
    } else if let Ok(p) = extend_of(config, base, mode, used, requests[from], busy, held) {
        let next = dict::put(ports, name, p);
        values_hold(ports, p);
        if from == k {
            dict::put_then_lookup(ports, name, p, name);
            extending_keeps(config, base, mode, next, requests, from + 1, busy, held, name);
        } else {
            dict::put_then_lookup(ports, name, p, requests[k].name);
            extending_gives_what_is_due(config, base, mode, next, requests, from + 1, k, busy, held);
            if let Ok(n) = extend_all(config, base, mode, next, requests, from + 1, busy, held) {
                put_keeps_values(ports, name, p, dict::lookup(n, requests[k].name).unwrap());
            }
        }
    }
}

proof fn extending_keeps(
    config: Config,
    base: u16,
    mode: PortMode,
    ports: Seq<(Seq<char>, u16)>,
    requests: Seq<PortRequestView>,
    from: int,
    busy: Seq<u16>,
    held: Seq<u16>,
    name: Seq<char>,
)
    requires
        0 <= from <= requests.len(),
    ensures
        extend_all(config, base, mode, ports, requests, from, busy, held) matches Ok(n) ==> ((
        dict::lookup(ports, name) is Some || forall|j: int|
            from <= j < requests.len() ==> (#[trigger] requests[j]).name != name) ==> dict::lookup(
            n,
            name,
        ) == dict::lookup(ports, name)),
    decreases requests.len() - from,
{
    if from < requests.len() {
        let own = requests[from].name;
        if dict::lookup(ports, own) is Some {
            extending_keeps(config, base, mode, ports, requests, from + 1, busy, held, name);
        } else if let Ok(p) = extend_of(
            config,
            base,
            mode,
            values_of(ports),
            requests[from],
            busy,
            held,
        ) {
            dict::put_then_lookup(ports, own, p, name);
            extending_keeps(
                config,
                base,
                mode,
                dict::put(ports, own, p),
                requests,
                from + 1,
                busy,
                held,
                name,
            );
        }
    }
}

proof fn fresh_gives_what_is_due(
    config: Config,
    base: u16,
    mode: PortMode,
    requests: Seq<PortRequestView>,
    busy: Seq<u16>,
    held: Seq<u16>,
    k: int,
)
    requires
        distinct_names(requests),
        0 <= k < requests.len(),
    ensures
        assign_of(config, base, mode, requests, busy, held) matches Ok(Some(s)) ==> (dict::lookup(
            s.ports,
            requests[k].name,
        ) matches Some(p) && is_due(config, base, mode, requests[k], p) && !busy.contains(p)
            && !held.contains(p)),
{
    fresh_assignments_are_sound(config, base, mode, requests, busy, held);
    if requests[k].require is None && mode == PortMode::Declared && requests[k].prefer is Some {
        declared_ports_are_taken_or_refused(config, base, requests, Seq::empty(), busy, held, k);
    }
    if let Ok(Some(s)) = assign_of(config, base, mode, requests, busy, held) {
        let name = requests[k].name;
        assert(dict::lookup(s.ports, name) is Some);
        if requests[k].require is None && (mode == PortMode::Block || requests[k].prefer is None) {
            let t = Terms { config, base, mode, requests, busy, held };
            let none = Claimed { ports: Seq::empty(), used: Seq::empty() };
            assert forall|j: int|
                0 <= j < requests.len() && (#[trigger] requests[j]).name == name implies
                requests[j].require is None by {
                assert(j == k);
            }
            assert(sound(t, none));
            required_sound(t, 0, none);
            unrequired_stay(requests, 0, none, busy, held, name);
            let r = claim_required(requests, 0, none, busy, held)->Ok_0;
            if mode == PortMode::Declared {
                declared_sound(t, 0, r);
                undeclared_stay(requests, 0, r, busy, held, name);
            }
            let f = claim_fixed(mode, requests, busy, held)->Ok_0;
            from_the_block(t, 0, f, 0, name);
        }
    }
}

proof fn undeclared_stay(
    requests: Seq<PortRequestView>,
    k: int,
    s: Claimed,
    busy: Seq<u16>,
    held: Seq<u16>,
    q: Seq<char>,
)
    requires
        0 <= k <= requests.len(),
        forall|j: int|
            k <= j < requests.len() && (#[trigger] requests[j]).name == q ==> requests[j].prefer
                is None,
    ensures
        claim_declared(requests, k, s, busy, held) matches Ok(n) ==> dict::lookup(n.ports, q)
            == dict::lookup(s.ports, q),
    decreases requests.len() - k,
{
    if k < requests.len() {
        undeclared_stay(requests, k + 1, s, busy, held, q);
        if let Some(p) = requests[k].prefer {
            dict::put_then_lookup(s.ports, requests[k].name, p, q);
            undeclared_stay(requests, k + 1, s.with(requests[k].name, p), busy, held, q);
        }
    }
}

proof fn from_the_block(t: Terms, k: int, s: Claimed, offset: int, q: Seq<char>)
    requires
        0 <= k <= t.requests.len(),
        0 <= offset,
    ensures
        claim_block(t.config, t.base, t.requests, k, s, offset, t.busy, t.held) matches Some(n) ==> (
        dict::lookup(n.ports, q) == dict::lookup(s.ports, q) || (dict::lookup(
            n.ports,
            q,
        ) matches Some(p) && in_block(t.config, t.base, p))),
    decreases t.requests.len() - k,
{
    if k < t.requests.len() {
        from_the_block(t, k + 1, s, offset, q);
        next_port_sound(t.config, t.base, offset, s.used, t.busy, t.held);
        if let Some((p, next)) = next_port(t.config, t.base, offset, s.used, t.busy, t.held) {
            dict::put_then_lookup(s.ports, t.requests[k].name, p, q);
            from_the_block(t, k + 1, s.with(t.requests[k].name, p), next, q);
        }
    }
}

proof fn found_blocks_give_what_is_due(
    config: Config,
    start: int,
    step: int,
    taken: Seq<u16>,
    mode: PortMode,
    requests: Seq<PortRequestView>,
    busy: Seq<u16>,
    held: Seq<u16>,
    k: int,
)
    requires
        distinct_names(requests),
        0 <= k < requests.len(),
    ensures
        find_block(config, start, step, taken, mode, requests, busy, held) matches Ok(
            Some((base, ports)),
        ) ==> (dict::lookup(ports, requests[k].name) matches Some(p) && is_due(
            config,
            base,
            mode,
            requests[k],
            p,
        ) && !busy.contains(p) && !held.contains(p)),
    decreases config.slots_of() - step,
{
    if step < config.slots_of() {
        let base = block_base(config, (start + step) % config.slots_of());
        fresh_gives_what_is_due(config, base, mode, requests, busy, held, k);
        found_blocks_give_what_is_due(
            config,
            start,
            step + 1,
            taken,
            mode,
            requests,
            busy,
            held,
            k,
        );
    }
}

/// Every request that a worktree has no port for yet gets the port that is due to it, whether the
/// assignment is new or grows, and nothing else: what it requires, in any worktree; on declared ports
/// what it declares; and otherwise a port of the worktree's own block. That port is one that the
/// worktree did not use, that nothing listens on and that no other worktree has recorded; where a
/// required or declared port is any of these the whole request is refused.
pub proof fn requests_get_what_is_due(
    config: Config,
    s: Situation,
    requests: Seq<PortRequestView>,
    requested: Option<PortMode>,
    k: int,
)
    requires
        distinct_names(requests),
        0 <= k < requests.len(),
        !already_has(s, requested, requests[k].name),
    ensures
        ensured_of(config, s, requests, requested) matches Ok(a) ==> (dict::lookup(
            a.ports,
            requests[k].name,
        ) matches Some(p) && {
            &&& a.mode == s.mode(requested)
            &&& requests[k].require is Some ==> requests[k].require == Some(p)
            &&& requests[k].require is None && a.mode == PortMode::Declared && requests[k].prefer
                is Some ==> requests[k].prefer == Some(p)
            &&& requests[k].require is None && (a.mode == PortMode::Block || requests[k].prefer
                is None) ==> a.base <= p < a.base + config.port_stride && p <= config.port_range_end
            &&& !s.busy@.contains(p)
            &&& !recorded_elsewhere(s, p)
            &&& (s.current() matches Some(c) ==> (c.mode == a.mode ==> !has_port(c.ports, p)))
        }),
        ({
            let fixed = match requests[k].require {
                Some(p) => Some(p),
                None => if s.mode(requested) == PortMode::Declared {
                    requests[k].prefer
                } else {
                    None
                },
            };
            fixed matches Some(p) ==> (s.busy@.contains(p) || recorded_elsewhere(s, p) || (
            s.current() matches Some(c) && c.mode == s.mode(requested) && has_port(c.ports, p))
                ==> ensured_of(config, s, requests, requested) is Err)
        }),
{
    let mode = s.mode(requested);
    match s.current() {
        Some(a) if a.mode == mode => {
            assert forall|j: int| 0 <= j < k implies (#[trigger] requests[j]).name
                != requests[k].name by {
                assert(requests[j].name != requests[k].name);
            }
            extending_gives_what_is_due(
                config,
                a.base,
                mode,
                a.ports,
                requests,
                0,
                k,
                s.busy@,
                s.held(),
            );
        },
        _ => {
            found_blocks_give_what_is_due(
                config,
                first_slot(config, s.repo_key@, s.worktree_id@),
                0,
                s.taken_by_others(),
                mode,
                requests,
                s.busy@,
                s.held(),
                k,
            );
        },
    }
    if let Ok(a) = ensured_of(config, s, requests, requested) {
        held_ports_are_those_of_others(s, dict::lookup(a.ports, requests[k].name).unwrap());
    }
}

proof fn unnamed_stay(t: Terms, k: int, s: Claimed, offset: int, q: Seq<char>)
    requires
        0 <= k <= t.requests.len(),
        0 <= offset,
        forall|j: int| 0 <= j < t.requests.len() ==> (#[trigger] t.requests[j]).name != q,
    ensures
        claim_block(t.config, t.base, t.requests, k, s, offset, t.busy, t.held) matches Some(n)
            ==> dict::lookup(n.ports, q) == dict::lookup(s.ports, q),
    decreases t.requests.len() - k,
{
    if k < t.requests.len() {
        assert(t.requests[k].name != q);
        unnamed_stay(t, k + 1, s, offset, q);
        next_port_sound(t.config, t.base, offset, s.used, t.busy, t.held);
        if let Some((p, next)) = next_port(t.config, t.base, offset, s.used, t.busy, t.held) {
            dict::put_then_lookup(s.ports, t.requests[k].name, p, q);
            unnamed_stay(t, k + 1, s.with(t.requests[k].name, p), next, q);
        }
    }
}

proof fn found_blocks_hold_nothing_else(
    config: Config,
    start: int,
    step: int,
    taken: Seq<u16>,
    mode: PortMode,
    requests: Seq<PortRequestView>,
    busy: Seq<u16>,
    held: Seq<u16>,
    q: Seq<char>,
)
    requires
        0 <= step,
        config.valid(),
        forall|j: int| 0 <= j < requests.len() ==> (#[trigger] requests[j]).name != q,
    ensures
        find_block(config, start, step, taken, mode, requests, busy, held) matches Ok(
            Some((base, ports)),
        ) ==> dict::lookup(ports, q) is None,
    decreases config.slots_of() - step,
{
    if step < config.slots_of() {
        let base = block_base(config, (start + step) % config.slots_of());
        let t = Terms { config, base, mode, requests, busy, held };
        let none = Claimed { ports: Seq::empty(), used: Seq::empty() };
        unrequired_stay(requests, 0, none, busy, held, q);
        if let Ok(r) = claim_required(requests, 0, none, busy, held) {
            undeclared_stay(requests, 0, r, busy, held, q);
        }
        if let Ok(f) = claim_fixed(mode, requests, busy, held) {
            unnamed_stay(t, 0, f, 0, q);
        }
        found_blocks_hold_nothing_else(
            config,
            start,
            step + 1,
            taken,
            mode,
            requests,
            busy,
            held,
            q,
        );
    }
}

/// An assignment is this worktree's own, keeps every port it had in its mode, and holds nothing that
/// was neither asked for nor recorded. A new block starts on one of the slots of the configured range
/// that no other worktree has taken.
pub proof fn assignments_hold_what_was_asked_for(
    config: Config,
    s: Situation,
    requests: Seq<PortRequestView>,
    requested: Option<PortMode>,
    name: Seq<char>,
)
    requires
        config.valid(),
    ensures
        ensured_of(config, s, requests, requested) matches Ok(a) ==> {
            &&& a.repo_key == s.repo_key@
            &&& a.worktree_id == s.worktree_id@
            &&& a.worktree_path == Some(s.worktree_path@)
            &&& a.mode == s.mode(requested)
            &&& already_has(s, requested, name) ==> a.base == s.current().unwrap().base
                && dict::lookup(a.ports, name) == dict::lookup(s.current().unwrap().ports, name)
            &&& !already_has(s, requested, name) && (forall|j: int|
                0 <= j < requests.len() ==> (#[trigger] requests[j]).name != name) ==> dict::lookup(
                a.ports,
                name,
            ) is None
            &&& !(s.current() matches Some(c) && c.mode == a.mode) ==> (exists|slot: int|
                0 <= slot < config.slots_of() && a.base == #[trigger] block_base(config, slot)) && (
            s.taken@.contains(a.base) ==> (s.current() matches Some(c) && c.base == a.base))
        },
{
    let mode = s.mode(requested);
    a_worktree_finds_its_own_record(s);
    match s.current() {
        Some(a) if a.mode == mode => {
            extending_keeps(
                config,
                a.base,
                mode,
                a.ports,
                requests,
                0,
                s.busy@,
                s.held(),
                name,
            );
        },
        _ => {
            let start = first_slot(config, s.repo_key@, s.worktree_id@);
            if forall|j: int| 0 <= j < requests.len() ==> (#[trigger] requests[j]).name != name {
                found_blocks_hold_nothing_else(
                    config,
                    start,
                    0,
                    s.taken_by_others(),
                    mode,
                    requests,
                    s.busy@,
                    s.held(),
                    name,
                );
            }
            if config.slots_of() > 0 {
                vstd::arithmetic::div_mod::lemma_mod_bound(
                    slug::hash64_of(s.repo_key@ + ":"@ + s.worktree_id@) as int,
                    config.slots_of() as int,
                );
            }
            found_blocks_are_slots(
                config,
                if start >= 0 {
                    start
                } else {
                    0
                },
                0,
                s.taken_by_others(),
                mode,
                requests,
                s.busy@,
                s.held(),
            );
            if let Ok(a) = ensured_of(config, s, requests, requested) {
                if s.taken@.contains(a.base) {
                    if let Some(c) = s.current() {
                        if c.base != a.base {
                            let keep = |base: u16| base != c.base;
                            let m = choose|m: int|
                                0 <= m < s.taken@.len() && s.taken@[m] == a.base;
                            s.taken@.filter_lemma(keep);
                            assert(keep(s.taken@[m]));
                            assert(s.taken@.filter(keep).contains(s.taken@[m]));
                            assert(s.taken_by_others() == s.taken@.filter(keep));
                        }
                    }
                }
            }
        },
    }
}

proof fn found_blocks_are_slots(
    config: Config,
    start: int,
    step: int,
    taken: Seq<u16>,
    mode: PortMode,
    requests: Seq<PortRequestView>,
    busy: Seq<u16>,
    held: Seq<u16>,
)
    requires
        config.valid(),
        0 <= start,
        0 <= step,
    ensures
        find_block(config, start, step, taken, mode, requests, busy, held) matches Ok(
            Some((base, ports)),
        ) ==> !taken.contains(base) && exists|slot: int|
            0 <= slot < config.slots_of() && base == #[trigger] block_base(config, slot),
    decreases config.slots_of() - step,
{
    if step < config.slots_of() {
        let slot = (start + step) % config.slots_of();
        let base = block_base(config, slot);
        assert(0 <= slot < config.slots_of());
        found_blocks_are_slots(config, start, step + 1, taken, mode, requests, busy, held);
    }
}

proof fn plain_requests_fill_the_block(
    config: Config,
    base: u16,
    requests: Seq<PortRequestView>,
    k: int,
    s: Claimed,
    held: Seq<u16>,
    busy: Seq<u16>,
)
    requires
        0 <= k <= requests.len(),
        requests.len() <= config.port_stride,
        base + config.port_stride - 1 <= config.port_range_end,
        distinct_names(requests),
        forall|q: u16| in_block(config, base, q) ==> !#[trigger] busy.contains(q),
        forall|q: u16| in_block(config, base, q) ==> !#[trigger] held.contains(q),
        forall|q: u16| #[trigger] s.used.contains(q) ==> base <= q < base + k,
        forall|j: int| k <= j < requests.len() ==> dict::lookup(s.ports, (#[trigger] requests[j]).name) is None,
        forall|j: int|
            0 <= j < k ==> dict::lookup(s.ports, (#[trigger] requests[j]).name) == Some(
                (base + j) as u16,
            ),
    ensures
        claim_block(config, base, requests, k, s, k, busy, held) matches Some(n) && forall|j: int|
            0 <= j < requests.len() ==> dict::lookup(n.ports, (#[trigger] requests[j]).name) == Some(
                (base + j) as u16,
            ),
    decreases requests.len() - k,
{
    if k < requests.len() {
        let port = (base + k) as u16;
        assert(in_block(config, base, port));
        assert(!busy.contains(port) && !held.contains(port));
        assert(!s.used.contains(port));
        let name = requests[k].name;
        let next = s.with(name, port);
        assert(next_port(config, base, k, s.used, busy, held) == Some((port, k + 1)));
        assert forall|q: u16| #[trigger] next.used.contains(q) implies base <= q < base + k + 1 by {
            let m = choose|m: int| 0 <= m < next.used.len() && next.used[m] == q;
            if m < s.used.len() {
                assert(s.used[m] == q);
                assert(s.used.contains(q));
            }
        }
        assert forall|j: int| 0 <= j < requests.len() && j != k implies dict::lookup(
            next.ports,
            (#[trigger] requests[j]).name,
        ) == dict::lookup(s.ports, requests[j].name) by {
            dict::put_then_lookup(s.ports, name, port, requests[j].name);
            if j < k {
                assert(requests[j].name != requests[k].name);
            } else {
                assert(requests[k].name != requests[j].name);
            }
        }
        dict::put_then_lookup(s.ports, name, port, name);
        plain_requests_fill_the_block(config, base, requests, k + 1, next, held, busy);
    }
}

proof fn nothing_is_fixed(requests: Seq<PortRequestView>, k: int, busy: Seq<u16>, held: Seq<u16>)
    requires
        0 <= k <= requests.len(),
        forall|j: int|
            0 <= j < requests.len() ==> (#[trigger] requests[j]).require is None
                && requests[j].prefer is None,
    ensures
        ({
            let none = Claimed { ports: Seq::empty(), used: Seq::empty() };
            claim_required(requests, k, none, busy, held) == Ok::<Claimed, Seq<char>>(none)
                && claim_declared(requests, k, none, busy, held) == Ok::<Claimed, Seq<char>>(none)
        }),
    decreases requests.len() - k,
{
    if k < requests.len() {
        assert(requests[k].require is None && requests[k].prefer is None);
        nothing_is_fixed(requests, k + 1, busy, held);
    }
}

/// On a machine where nothing listens and no other worktree has anything, a worktree that asks for
/// plain ports gets them: its block is the one of its own slot, and its requests take the ports of
/// that block one after the other.
pub proof fn a_first_allocation_succeeds(
    config: Config,
    s: Situation,
    requests: Seq<PortRequestView>,
    requested: Option<PortMode>,
)
    requires
        config.valid(),
        config.slots_of() > 0,
        s.recorded@.len() == 0,
        s.taken@.len() == 0,
        s.busy@.len() == 0,
        distinct_names(requests),
        requests.len() <= config.port_stride,
        forall|j: int|
            0 <= j < requests.len() ==> (#[trigger] requests[j]).require is None
                && requests[j].prefer is None,
    ensures
        ensured_of(config, s, requests, requested) matches Ok(a) && a.base == block_base(
            config,
            slug::hash64_of(s.repo_key@ + ":"@ + s.worktree_id@) as int % config.slots_of(),
        ) && forall|j: int|
            0 <= j < requests.len() ==> dict::lookup(a.ports, (#[trigger] requests[j]).name) == Some(
                (a.base + j) as u16,
            ),
{
    let start = first_slot(config, s.repo_key@, s.worktree_id@);
    assert(0 <= start < config.slots_of());
    vstd::arithmetic::div_mod::lemma_small_mod(start as nat, config.slots_of() as nat);
    let base = block_base(config, start);
    slot_fits(config, start);
    let held = s.held();
    assert(held.len() == 0);
    nothing_is_fixed(requests, 0, s.busy@, held);
    let none = Claimed { ports: Seq::empty(), used: Seq::empty() };
    plain_requests_fill_the_block(config, base, requests, 0, none, held, s.busy@);
    assert(s.current() is None);
    assert(s.taken_by_others() == s.taken@);
    assert(!s.taken@.contains(base));
}

proof fn skips_the_served(
    config: Config,
    base: u16,
    mode: PortMode,
    ports: Seq<(Seq<char>, u16)>,
    requests: Seq<PortRequestView>,
    from: int,
    k: int,
    busy: Seq<u16>,
    held: Seq<u16>,
)
    requires
        0 <= from <= k <= requests.len(),
        forall|j: int|
            from <= j < k ==> dict::lookup(ports, (#[trigger] requests[j]).name) is Some,
    ensures
        extend_all(config, base, mode, ports, requests, from, busy, held) == extend_all(
            config,
            base,
            mode,
            ports,
            requests,
            k,
            busy,
            held,
        ),
    decreases k - from,
{
    if from < k {
        assert(dict::lookup(ports, requests[from].name) is Some);
        skips_the_served(config, base, mode, ports, requests, from + 1, k, busy, held);
    }
}

/// A recorded assignment grows by one port whenever there is one to grow by. Where all requests but
/// one have their port, the one that is new is served exactly where the port it requires, or on
/// declared ports the one it declares, is free, or else where its block has a free port; and every
/// port that was recorded stays.
pub proof fn an_assignment_grows_by_one(
    config: Config,
    s: Situation,
    requests: Seq<PortRequestView>,
    requested: Option<PortMode>,
    k: int,
)
    requires
        0 <= k < requests.len(),
        s.current() matches Some(a) && a.mode == s.mode(requested),
        !already_has(s, requested, requests[k].name),
        forall|j: int|
            0 <= j < requests.len() && j != k ==> already_has(
                s,
                requested,
                (#[trigger] requests[j]).name,
            ),
    ensures
        ({
            let a = s.current().unwrap();
            let r = ensured_of(config, s, requests, requested);
            let free = |p: u16|
                !has_port(a.ports, p) && !s.busy@.contains(p) && !recorded_elsewhere(s, p);
            &&& requests[k].require matches Some(p) ==> (r is Ok <==> free(p))
            &&& requests[k].require is None && a.mode == PortMode::Declared ==> (
            requests[k].prefer matches Some(p) ==> (r is Ok <==> free(p)))
            &&& requests[k].require is None && (a.mode == PortMode::Block || requests[k].prefer
                is None) ==> (r is Ok <==> exists|p: u16|
                a.base <= p < a.base + config.port_stride && p <= config.port_range_end
                    && #[trigger] free(p))
            &&& r is Ok ==> r->Ok_0.base == a.base && exists|p: u16|
                r->Ok_0.ports == #[trigger] dict::put(a.ports, requests[k].name, p)
        }),
{
    let a = s.current().unwrap();
    let mode = a.mode;
    let used = values_of(a.ports);
    let busy = s.busy@;
    let held = s.held();
    let free = |p: u16| !has_port(a.ports, p) && !s.busy@.contains(p) && !recorded_elsewhere(s, p);
    let r = extend_of(config, a.base, mode, used, requests[k], busy, held);
    assert forall|p: u16| #[trigger] free(p) <==> !used.contains(p) && !busy.contains(p)
        && !held.contains(p) by {
        values_hold(a.ports, p);
        held_ports_are_those_of_others(s, p);
    }
    spare_port_is_first(config, a.base, 0, used, busy, held);
    skips_the_served(config, a.base, mode, a.ports, requests, 0, k, busy, held);
    if let Ok(p) = r {
        assert(free(p));
        let next = dict::put(a.ports, requests[k].name, p);
        assert forall|j: int| k + 1 <= j < requests.len() implies dict::lookup(
            next,
            (#[trigger] requests[j]).name,
        ) is Some by {
            assert(already_has(s, requested, requests[j].name));
            dict::put_then_lookup(a.ports, requests[k].name, p, requests[j].name);
        }
        skips_the_served(
            config,
            a.base,
            mode,
            next,
            requests,
            k + 1,
            requests.len() as int,
            busy,
            held,
        );
    } else if requests[k].require is None && (mode == PortMode::Block || requests[k].prefer
        is None) {
        assert forall|p: u16| in_block(config, a.base, p) implies !#[trigger] free(p) by {
            assert(used.contains(p) || busy.contains(p) || held.contains(p));
        }
    }
}

/// What is assigned is the worktree's own: it carries its repository, its id and its directory, and
/// the mode that the worktree is to have.
pub proof fn assignments_are_of_their_worktree(
    config: Config,
    s: Situation,
    requests: Seq<PortRequestView>,
    requested: Option<PortMode>,
)
    ensures
        ensured_of(config, s, requests, requested) matches Ok(a) ==> {
            &&& a.repo_key == s.repo_key@
            &&& a.worktree_id == s.worktree_id@
            &&& a.worktree_path == Some(s.worktree_path@)
            &&& !s.primary ==> a.mode == PortMode::Block
            &&& s.primary && requested is Some ==> a.mode == requested.unwrap()
            &&& s.primary && requested is None && s.current() is None ==> a.mode
                == PortMode::Declared
            &&& s.primary && requested is None && s.current() is Some ==> a.mode
                == s.current().unwrap().mode
        },
{
    a_worktree_finds_its_own_record(s);
}

} // verus!
