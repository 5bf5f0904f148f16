//! Bootstrap steps: when a step runs, and which paths are linked from the primary checkout.

use crate::dict;
use crate::dict::Dict;
use crate::manifest::Bootstrap;
use crate::manifest::BootstrapView;
use crate::manifest::RunStep;
use crate::manifest::RunStepView;
use crate::paths;
use crate::paths::Paths;
use crate::repo::Repo;
use crate::slug;
use crate::text;
use vstd::prelude::*;

verus! {

/// What the bootstrap of a worktree recorded: the inputs each command last ran for.
#[derive(Debug)]
pub struct State {
    pub bootstrap: Dict<String>,
}

/// The primary checkout as a source for `sync`ed outputs. There is none for the primary checkout
/// itself: it is the source, and never links into itself.
#[derive(Debug)]
pub struct Source {
    /// The primary checkout's copy of the manifest directory being bootstrapped.
    pub manifest_dir: String,
    /// What the primary checkout's own bootstrap recorded, so a linked output can be checked
    /// against the inputs it was installed for.
    pub state: State,
}

/// The part of a manifest directory's path below its checkout.
pub open spec fn prefix_of(manifest_dir: Seq<char>, worktree_root: Seq<char>) -> Seq<char> {
    match paths::relative_of(manifest_dir, worktree_root) {
        Some(prefix) => prefix,
        None => Seq::empty(),
    }
}

fn prefix(manifest_dir: &str, worktree_root: &str) -> (r: String)
    ensures
        r@ == prefix_of(manifest_dir@, worktree_root@),
{
    match paths::relative(manifest_dir, worktree_root) {
        Some(prefix) => prefix,
        None => {
            let r = String::new();
            assert(r@ =~= Seq::<char>::empty());
            r
        },
    }
}

/// The primary checkout's copy of a manifest directory.
pub open spec fn counterpart(manifest_dir: Seq<char>, worktree_root: Seq<char>, source_root: Seq<char>) -> Seq<
    char,
> {
    let prefix = prefix_of(manifest_dir, worktree_root);
    if prefix.len() == 0 {
        source_root
    } else {
        paths::join_of(source_root, prefix)
    }
}

/// The primary checkout's copy of a manifest directory. Joining nothing would leave a trailing
/// separator, and the state key is the manifest path verbatim as the primary checkout recorded it.
pub fn source_dir(manifest_dir: &str, worktree_root: &str, source_root: &str) -> (r: String)
    ensures
        r@ == counterpart(manifest_dir@, worktree_root@, source_root@),
{
    let below = prefix(manifest_dir, worktree_root);
    if text::length(&below) == 0 {
        text::own(source_root)
    } else {
        paths::join(source_root, &below)
    }
}

/// Resolve the primary checkout's copy of `manifest_dir`, with the state it recorded. Paths are
/// relative per manifest, so the same app directory rule `sync_files` uses applies here.
pub fn share_source(repo: &Repo, manifest_dir: &str, source_root: &str, state: State) -> (r: Option<
    Source,
>)
    ensures
        match r {
            Some(source) => !repo@.is_main() && source.manifest_dir@ == counterpart(
                manifest_dir@,
                repo@.worktree_root,
                source_root@,
            ) && source.state == state,
            None => repo@.is_main(),
        },
{
    if repo.is_main_worktree() {
        return None;
    }
    let manifest_dir = source_dir(manifest_dir, &repo.worktree_root, source_root);
    Some(Source { manifest_dir, state })
}

/// Where the primary checkout's bootstrap state is kept.
pub fn source_state_file(paths: &Paths, repo: &Repo) -> (r: String)
    ensures
        r@ == paths::join_of(
            paths::join_of(
                paths::join_of(
                    paths::join_of(paths.state_dir@, "worktrees"@),
                    repo@.key_of(),
                ),
                "main"@,
            ),
            "state.json"@,
        ),
{
    let dir = paths.worktree_dir(&repo.key(), "main");
    paths::join(&dir, "state.json")
}

// ---------------------------------------------------------------------------
// Digests of inputs
// ---------------------------------------------------------------------------

/// Some bytes.
#[derive(Debug)]
pub struct Bytes {
    pub data: Vec<u8>,
}

impl View for Bytes {
    type V = Seq<u8>;

    open spec fn view(&self) -> Seq<u8> {
        self.data@
    }
}

/// A file or a directory, as it was read.
#[derive(Debug)]
pub enum Tree {
    File(Vec<u8>),
    Dir(Vec<(String, Tree)>),
    /// A socket or another special file; it counts by its name only.
    Special,
}

/// Whether a name is one of the caches that builds write next to sources, or git's own
/// bookkeeping.
pub open spec fn ignored(name: Seq<char>) -> bool {
    ||| name == "__pycache__"@
    ||| name == ".git"@
    ||| name == "node_modules"@
    ||| name == ".venv"@
    ||| name == ".pytest_cache"@
    ||| name == ".ruff_cache"@
    ||| name == ".mypy_cache"@
    ||| name == ".DS_Store"@
    ||| has_extension(name, ".pyc"@)
    ||| has_extension(name, ".pyo"@)
    ||| has_extension(name, ".pyi"@)
}

/// Whether a file name has an extension; a name that is nothing but a dot and letters has none.
pub open spec fn has_extension(name: Seq<char>, extension: Seq<char>) -> bool {
    text::ends_with_of(name, extension) && name.len() > extension.len()
}

pub(crate) fn has_ext(name: &str, extension: &str) -> (r: bool)
    ensures
        r == has_extension(name@, extension@),
{
    text::ends_with(name, extension) && text::length(name) > text::length(extension)
}

/// Whether a directory input ignores an entry of this name.
pub fn is_ignored_cache(name: &str) -> (r: bool)
    ensures
        r == ignored(name@),
{
    text::same(name, "__pycache__") || text::same(name, ".git") || text::same(name, "node_modules")
        || text::same(name, ".venv") || text::same(name, ".pytest_cache") || text::same(
        name,
        ".ruff_cache",
    ) || text::same(name, ".mypy_cache") || text::same(name, ".DS_Store") || has_ext(name, ".pyc")
        || has_ext(name, ".pyo") || has_ext(name, ".pyi")
}

/// The bytes that stand for a file or a directory: a file's contents, and a directory's names and
/// contents in the order of the names, without what it ignores.
pub open spec fn tree_bytes(t: Tree) -> Seq<u8>
    decreases t, 0int,
{
    match t {
        Tree::File(data) => data@,
        Tree::Dir(entries) => flat(dir_entries(entries@, entries@.len() as int)),
        Tree::Special => Seq::empty(),
    }
}

/// The first `k` entries of a directory by name, each with the bytes that stand for it.
pub open spec fn dir_entries(entries: Seq<(String, Tree)>, k: int) -> Seq<(Seq<char>, Seq<u8>)>
    decreases entries, k,
{
    if k <= 0 || k > entries.len() {
        Seq::empty()
    } else {
        let before = dir_entries(entries, k - 1);
        let name = entries[k - 1].0@;
        if ignored(name) {
            before
        } else {
            dict::put(before, name, tree_bytes(entries[k - 1].1))
        }
    }
}

/// Names and bytes, one after the other.
pub open spec fn flat(e: Seq<(Seq<char>, Seq<u8>)>) -> Seq<u8>
    decreases e.len(),
{
    if e.len() == 0 {
        Seq::empty()
    } else {
        flat(e.drop_last()) + vstd::utf8::encode_utf8(e.last().0) + e.last().1
    }
}

fn append_bytes(out: &mut Vec<u8>, more: &[u8])
    ensures
        final(out)@ == old(out)@ + more@,
{
    out.extend_from_slice(more);
    assert(out@ =~= old(out)@ + more@);
}

fn tree_data(t: &Tree) -> (r: Vec<u8>)
    ensures
        r@ == tree_bytes(*t),
    decreases *t,
{
    let mut out: Vec<u8> = Vec::new();
    assert(out@ =~= Seq::<u8>::empty());
    match t {
        Tree::File(data) => {
            append_bytes(&mut out, data.as_slice());
            assert(out@ =~= data@);
        },
        Tree::Special => {},
        Tree::Dir(entries) => {
            let mut found: Dict<Bytes> = Dict::new();
            let mut k: usize = 0;
            while k < entries.len()
                invariant
                    *t == Tree::Dir(*entries),
                    k <= entries@.len(),
                    found@ == dir_entries(entries@, k as int),
                decreases entries@.len() - k,
            {
                if !is_ignored_cache(&entries[k].0) {
                    assert(decreases_to!(*t => t->Dir_0));
                    assert(decreases_to!(t->Dir_0 => t->Dir_0@));
                    assert(decreases_to!(entries@ => entries@[k as int]));
                    assert(decreases_to!(entries@[k as int] => entries@[k as int].1));
                    let data = tree_data(&entries[k].1);
                    found.insert(entries[k].0.clone(), Bytes { data });
                }
                k += 1;
            }
            let mut i: usize = 0;
            assert(found@.take(0) =~= Seq::<(Seq<char>, Seq<u8>)>::empty());
            while i < found.len()
                invariant
                    i <= found@.len(),
                    out@ == flat(found@.take(i as int)),
                decreases found@.len() - i,
            {
                assert(found@.take(i + 1).drop_last() =~= found@.take(i as int));
                append_bytes(&mut out, found.key_at(i).as_str().as_bytes());
                append_bytes(&mut out, found.value_at(i).data.as_slice());
                i += 1;
            }
            assert(found@.take(i as int) =~= found@);
        },
    }
    out
}

/// An input of a step, as it was read.
#[derive(Debug)]
pub struct Input {
    pub relative: String,
    pub tree: Tree,
}

/// The bytes of the first `k` inputs: the name of each, and what it holds.
pub open spec fn input_bytes(inputs: Seq<Input>, k: int) -> Seq<u8>
    decreases k,
{
    if k <= 0 {
        Seq::empty()
    } else {
        input_bytes(inputs, k - 1) + vstd::utf8::encode_utf8(inputs[k - 1].relative@) + tree_bytes(
            inputs[k - 1].tree,
        )
    }
}

/// The digest of a step's inputs, in hexadecimal.
pub open spec fn digest_of(inputs: Seq<Input>) -> Seq<char> {
    let d = slug::sha256_of(input_bytes(inputs, inputs.len() as int));
    slug::hex_of(d.take(32))
}

/// The digest of a step's inputs. It changes whenever anything that counts does: a constant digest
/// would make the step report "cached" forever.
pub fn inputs_digest(inputs: &Vec<Input>) -> (r: String)
    ensures
        r@ == digest_of(inputs@),
{
    let mut data: Vec<u8> = Vec::new();
    let mut k: usize = 0;
    assert(data@ =~= Seq::<u8>::empty());
    while k < inputs.len()
        invariant
            k <= inputs@.len(),
            data@ == input_bytes(inputs@, k as int),
        decreases inputs@.len() - k,
    {
        append_bytes(&mut data, inputs[k].relative.as_str().as_bytes());
        let tree = tree_data(&inputs[k].tree);
        append_bytes(&mut data, tree.as_slice());
        k += 1;
    }
    let digest = slug::sha256(data.as_slice());
    slug::hex(&digest, 32)
}

// ---------------------------------------------------------------------------
// Steps
// ---------------------------------------------------------------------------

/// Under what a command is recorded. Two apps can declare the same command with different inputs,
/// so the entry belongs to the manifest that declared it.
pub open spec fn state_key(manifest_dir: Seq<char>, command: Seq<char>) -> Seq<char> {
    manifest_dir + "::"@ + command
}

/// Under what a command is recorded.
pub fn key_for(manifest_dir: &str, command: &str) -> (r: String)
    ensures
        r@ == state_key(manifest_dir@, command@),
{
    let mut r = text::own(manifest_dir);
    r.append("::");
    r.append(command);
    r
}

/// Whether the primary checkout's copy of a step answers the inputs declared here: the same
/// digest on both sides, and recorded by the primary checkout for this command.
pub open spec fn installed_there(
    step: RunStepView,
    here: Seq<char>,
    there: Option<Seq<char>>,
    source_dir: Seq<char>,
    source_state: Seq<(Seq<char>, Seq<char>)>,
) -> bool {
    there == Some(here) && dict::lookup(
        source_state,
        state_key(source_dir, step.command_of()),
    ) == Some(here)
}

fn source_installed(step: &RunStep, here: &String, there: &Option<String>, source: &Source) -> (r: bool)
    ensures
        r == installed_there(
            step@,
            here@,
            text::opt_view(*there),
            source.manifest_dir@,
            source.state.bootstrap@,
        ),
{
    match there {
        Some(there) => if text::same(there, here) {
            let key = key_for(&source.manifest_dir, step.command());
            match source.state.bootstrap.get(&key) {
                Some(recorded) => text::same(recorded, here),
                None => false,
            }
        } else {
            false
        },
        None => false,
    }
}

/// What was observed of a step before it is decided.
#[derive(Debug)]
pub struct StepFacts {
    /// The digest of its inputs, where it declares any.
    pub digest: Option<String>,
    /// The digest of the same inputs in the primary checkout, where they exist there.
    pub there: Option<String>,
    /// Whether each declared output exists.
    pub present: Vec<bool>,
    /// Whether each declared output is a symbolic link.
    pub linked: Vec<bool>,
}

/// What happens to a step.
#[derive(Debug, Clone, Copy, PartialEq, Eq, Structural)]
pub enum StepDecision {
    /// A link to the primary checkout answers its inputs, which are recorded.
    Linked,
    /// Its outputs are there, and there is nothing to compare.
    Present,
    /// Its inputs are those of its last run.
    Cached,
    /// It runs, after a question where it asks.
    Due,
}

pub open spec fn any(flags: Seq<bool>) -> bool {
    exists|i: int| 0 <= i < flags.len() && #[trigger] flags[i]
}

pub open spec fn all(flags: Seq<bool>) -> bool {
    forall|i: int| 0 <= i < flags.len() ==> #[trigger] flags[i]
}

/// Whether a step's linked outputs still answer the inputs it declares.
pub open spec fn links_current(step: RunStepView, facts: StepFacts, source: Option<Source>) -> bool {
    any(facts.linked@) && (facts.digest matches Some(here) && source matches Some(source)
        && installed_there(
        step,
        here@,
        text::opt_view(facts.there),
        source.manifest_dir@,
        source.state.bootstrap@,
    ))
}

/// What happens to a step. A declared output that is missing, or linked without proof that the
/// link answers this checkout's inputs, is the one thing no record may overrule.
pub open spec fn decided(
    step: RunStepView,
    key: Seq<char>,
    facts: StepFacts,
    state: Seq<(Seq<char>, Seq<char>)>,
    source: Option<Source>,
) -> StepDecision {
    let linked_ok = links_current(step, facts, source);
    let present = all(facts.present@) && (any(facts.linked@) ==> linked_ok);
    let has_outputs = step.outputs_of().len() > 0;
    if has_outputs && !present {
        StepDecision::Due
    } else if linked_ok {
        StepDecision::Linked
    } else if facts.digest is None && has_outputs {
        StepDecision::Present
    } else if facts.digest matches Some(d) && dict::lookup(state, key) == Some(d@) {
        StepDecision::Cached
    } else {
        StepDecision::Due
    }
}

fn any_of(flags: &Vec<bool>) -> (r: bool)
    ensures
        r == any(flags@),
{
    let mut i: usize = 0;
    while i < flags.len()
        invariant
            i <= flags@.len(),
            forall|k: int| 0 <= k < i ==> !#[trigger] flags@[k],
        decreases flags@.len() - i,
    {
        if flags[i] {
            assert(flags@[i as int]);
            return true;
        }
        i += 1;
    }
    false
}

fn all_of(flags: &Vec<bool>) -> (r: bool)
    ensures
        r == all(flags@),
{
    let mut i: usize = 0;
    while i < flags.len()
        invariant
            i <= flags@.len(),
            forall|k: int| 0 <= k < i ==> #[trigger] flags@[k],
        decreases flags@.len() - i,
    {
        if !flags[i] {
            assert(!flags@[i as int]);
            return false;
        }
        i += 1;
    }
    true
}

fn linked_outputs_current(step: &RunStep, facts: &StepFacts, source: &Option<Source>) -> (r: bool)
    ensures
        r == links_current(step@, *facts, *source),
{
    if !any_of(&facts.linked) {
        return false;
    }
    match (&facts.digest, source) {
        (Some(here), Some(source)) => source_installed(step, here, &facts.there, source),
        _ => false,
    }
}

/// What happens to a step, given what was observed of it, what this worktree recorded, and the
/// primary checkout.
pub fn decide_step(
    manifest_dir: &str,
    step: &RunStep,
    facts: &StepFacts,
    state: &State,
    source: &Option<Source>,
) -> (r: StepDecision)
    ensures
        r == decided(
            step@,
            state_key(manifest_dir@, step@.command_of()),
            *facts,
            state.bootstrap@,
            *source,
        ),
{
    let linked_ok = linked_outputs_current(step, facts, source);
    let present = all_of(&facts.present) && (!any_of(&facts.linked) || linked_ok);
    let outputs = step.outputs();
    assert(text::views(outputs@).len() == outputs@.len());
    let has_outputs = outputs.len() > 0;
    if has_outputs && !present {
        return StepDecision::Due;
    }
    if linked_ok {
        return StepDecision::Linked;
    }
    match &facts.digest {
        None => if has_outputs {
            StepDecision::Present
        } else {
            StepDecision::Due
        },
        Some(digest) => {
            let key = key_for(manifest_dir, step.command());
            match state.bootstrap.get(&key) {
                Some(recorded) => if text::same(recorded, digest) {
                    StepDecision::Cached
                } else {
                    StepDecision::Due
                },
                None => StepDecision::Due,
            }
        },
    }
}

/// How a step ended.
#[derive(Debug, Clone, Copy, PartialEq, Eq, Structural)]
pub enum StepOutcome {
    Linked,
    Present,
    Cached,
    Declined,
    Ran,
}

/// Whether a step's question is put at all: only a step that is due has anything to decide.
pub open spec fn put_to_user(decision: StepDecision, asks: bool) -> bool {
    decision == StepDecision::Due && asks
}

/// How a step ends, given what was decided of it, whether it asks, and whether its question was
/// answered with a yes.
pub open spec fn outcome_of(decision: StepDecision, asks: bool, confirmed: bool) -> StepOutcome {
    match decision {
        StepDecision::Linked => StepOutcome::Linked,
        StepDecision::Present => StepOutcome::Present,
        StepDecision::Cached => StepOutcome::Cached,
        StepDecision::Due => if asks && !confirmed {
            StepOutcome::Declined
        } else {
            StepOutcome::Ran
        },
    }
}

/// Whether a step's question is put at all.
pub fn step_question(decision: StepDecision, asks: bool) -> (r: bool)
    ensures
        r == put_to_user(decision, asks),
{
    decision == StepDecision::Due && asks
}

/// How a step ends. A step that asks runs only on a yes, and what is not due is not run whatever
/// the answer.
pub fn step_outcome(decision: StepDecision, asks: bool, confirmed: bool) -> (r: StepOutcome)
    ensures
        r == outcome_of(decision, asks, confirmed),
{
    match decision {
        StepDecision::Linked => StepOutcome::Linked,
        StepDecision::Present => StepOutcome::Present,
        StepDecision::Cached => StepOutcome::Cached,
        StepDecision::Due => if asks && !confirmed {
            StepOutcome::Declined
        } else {
            StepOutcome::Ran
        },
    }
}

/// Whether the inputs of a step are recorded after it ended so: they are after a run, and where a
/// link answers them.
pub open spec fn records(outcome: StepOutcome) -> bool {
    outcome == StepOutcome::Linked || outcome == StepOutcome::Ran
}

/// What is recorded after a step that declares inputs of this digest ended so.
pub open spec fn recorded_after(
    state: Seq<(Seq<char>, Seq<char>)>,
    key: Seq<char>,
    digest: Option<Seq<char>>,
    outcome: StepOutcome,
) -> Seq<(Seq<char>, Seq<char>)> {
    match digest {
        Some(d) => if records(outcome) {
            dict::put(state, key, d)
        } else {
            state
        },
        None => state,
    }
}

/// The record after a step: a step that ran, or whose link answers its inputs, is recorded under
/// their digest; a declined, cached or present step changes nothing.
pub fn record_step(state: &mut State, manifest_dir: &str, command: &str, digest: &Option<String>, outcome: StepOutcome)
    ensures
        final(state).bootstrap@ == recorded_after(
            old(state).bootstrap@,
            state_key(manifest_dir@, command@),
            text::opt_view(*digest),
            outcome,
        ),
{
    if outcome == StepOutcome::Linked || outcome == StepOutcome::Ran {
        if let Some(digest) = digest {
            state.bootstrap.insert(key_for(manifest_dir, command), digest.clone());
        }
    }
}

/// The outputs, from `k` on, that are links and have to be removed before the step runs, so it
/// never writes through a link into the primary checkout.
pub open spec fn links_among(outputs: Seq<Seq<char>>, linked: Seq<bool>, k: int) -> Seq<Seq<char>>
    decreases outputs.len() - k,
{
    if k < 0 || k >= outputs.len() {
        Seq::empty()
    } else if k < linked.len() && linked[k] {
        seq![outputs[k]] + links_among(outputs, linked, k + 1)
    } else {
        links_among(outputs, linked, k + 1)
    }
}

/// The outputs that are links and have to be removed before the step runs.
pub fn outputs_to_unlink(step: &RunStep, facts: &StepFacts) -> (r: Vec<String>)
    ensures
        text::views(r@) == links_among(step@.outputs_of(), facts.linked@, 0),
{
    let outputs = step.outputs();
    let ghost list = step@.outputs_of();
    let mut r: Vec<String> = Vec::new();
    let mut k: usize = 0;
    assert(text::views(r@) + links_among(list, facts.linked@, 0) =~= links_among(
        list,
        facts.linked@,
        0,
    ));
    while k < outputs.len()
        invariant
            text::views(outputs@) == list,
            k <= outputs@.len(),
            links_among(list, facts.linked@, 0) == text::views(r@) + links_among(
                list,
                facts.linked@,
                k as int,
            ),
        decreases outputs@.len() - k,
    {
        let ghost before = text::views(r@);
        assert(list[k as int] == outputs@[k as int]@);
        if k < facts.linked.len() && facts.linked[k] {
            text::add(&mut r, &outputs[k]);
            assert(before + (seq![list[k as int]] + links_among(list, facts.linked@, k + 1))
                =~= text::views(r@) + links_among(list, facts.linked@, k + 1));
        }
        k += 1;
    }
    assert(text::views(r@) + Seq::<Seq<char>>::empty() =~= text::views(r@));
    r
}

/// `run <command>: ` and how it ended.
pub open spec fn step_message(command: Seq<char>, what: Seq<char>) -> Seq<char> {
    "run "@ + command + ": "@ + what
}

fn message(command: &str, what: &str) -> (r: String)
    ensures
        r@ == step_message(command@, what@),
{
    let mut r = text::own("run ");
    r.append(command);
    r.append(": ");
    r.append(what);
    r
}

pub open spec fn outcome_word(outcome: StepOutcome) -> Seq<char> {
    match outcome {
        StepOutcome::Linked => "present"@,
        StepOutcome::Present => "present"@,
        StepOutcome::Cached => "cached"@,
        StepOutcome::Declined => "skipped"@,
        StepOutcome::Ran => "ok"@,
    }
}

/// What a step says: the links it removed, and how it ended.
pub open spec fn step_messages_of(command: Seq<char>, unlinked: Seq<Seq<char>>, outcome: StepOutcome) -> Seq<
    Seq<char>,
> {
    Seq::new(
        unlinked.len(),
        |i: int|
            step_message(
                command,
                "unlinked "@ + unlinked[i] + " from the primary checkout"@,
            ),
    ).push(step_message(command, outcome_word(outcome)))
}

/// What a step says: the links it removed, and how it ended.
pub fn step_messages(command: &str, unlinked: &Vec<String>, outcome: StepOutcome) -> (r: Vec<String>)
    ensures
        text::views(r@) == step_messages_of(command@, text::views(unlinked@), outcome),
{
    let ghost list = text::views(unlinked@);
    let ghost all = step_messages_of(command@, list, outcome);
    let mut r: Vec<String> = Vec::new();
    let mut i: usize = 0;
    assert(text::views(r@) =~= all.take(0));
    while i < unlinked.len()
        invariant
            list == text::views(unlinked@),
            all == step_messages_of(command@, list, outcome),
            i <= unlinked@.len(),
            text::views(r@) == all.take(i as int),
        decreases unlinked@.len() - i,
    {
        let mut what = text::own("unlinked ");
        what.append(&unlinked[i]);
        what.append(" from the primary checkout");
        let m = message(command, &what);
        assert(m@ == all[i as int]);
        text::add(&mut r, &m);
        i += 1;
        assert(all.take(i as int) =~= all.take(i - 1).push(all[i - 1]));
    }
    let word = match outcome {
        StepOutcome::Linked => "present",
        StepOutcome::Present => "present",
        StepOutcome::Cached => "cached",
        StepOutcome::Declined => "skipped",
        StepOutcome::Ran => "ok",
    };
    text::add(&mut r, &message(command, word));
    assert(text::views(r@) =~= all);
    r
}

/// What a failed step is reported as.
pub fn step_failure(phase: &str, command: &str) -> (r: String)
    ensures
        r@ == phase@ + " step '"@ + command@ + "' failed"@,
{
    let mut r = text::own(phase);
    r.append(" step '");
    r.append(command);
    r.append("' failed");
    r
}

// ---------------------------------------------------------------------------
// Sync
// ---------------------------------------------------------------------------

/// The first step, from `k` on, that declares a path as one of its outputs.
pub open spec fn gate_of(steps: Seq<RunStepView>, relative: Seq<char>, k: int) -> Option<RunStepView>
    decreases steps.len() - k,
{
    if k < 0 || k >= steps.len() {
        None
    } else if steps[k].outputs_of().contains(relative) {
        Some(steps[k])
    } else {
        gate_of(steps, relative, k + 1)
    }
}

/// The step that proves a path: the first of `run`, and then of `after`, that declares it.
pub open spec fn gate_in(b: BootstrapView, relative: Seq<char>) -> Option<RunStepView> {
    match gate_of(b.run, relative, 0) {
        Some(step) => Some(step),
        None => gate_of(b.after, relative, 0),
    }
}

fn find_gate<'a>(steps: &'a Vec<RunStep>, relative: &str) -> (r: Option<&'a RunStep>)
    ensures
        match r {
            Some(step) => gate_of(text::views(steps@), relative@, 0) == Some(step@),
            None => gate_of(text::views(steps@), relative@, 0) is None,
        },
{
    let mut k: usize = 0;
    while k < steps.len()
        invariant
            k <= steps@.len(),
            gate_of(text::views(steps@), relative@, 0) == gate_of(
                text::views(steps@),
                relative@,
                k as int,
            ),
        decreases steps@.len() - k,
    {
        let outputs = steps[k].outputs();
        if text::among(&outputs, relative) {
            return Some(&steps[k]);
        }
        k += 1;
    }
    None
}

/// What was observed of a path before it is decided.
#[derive(Debug)]
pub struct SyncFacts {
    /// Whether something is already there.
    pub destination_exists: bool,
    /// Whether the primary checkout has it.
    pub source_exists: bool,
    /// The digest of the proving step's inputs here.
    pub here: Option<String>,
    /// The digest of the same inputs in the primary checkout, where they exist there.
    pub there: Option<String>,
}

/// What happens to a path.
#[derive(Debug)]
pub enum SyncAction {
    /// It stays as it is.
    Leave(String),
    /// It is linked.
    Link { from: String, to: String, message: String },
}

pub open spec fn sync_message(relative: Seq<char>, what: Seq<char>) -> Seq<char> {
    "sync "@ + relative + ": "@ + what
}

fn sync_text(relative: &str, what: &str) -> (r: String)
    ensures
        r@ == sync_message(relative@, what@),
{
    let mut r = text::own("sync ");
    r.append(relative);
    r.append(": ");
    r.append(what);
    r
}

/// Why a path is not linked; none where it is. A path that a step declares as one of its outputs
/// is only linked while the primary checkout's copy answers this checkout's inputs.
pub open spec fn not_linked(
    b: BootstrapView,
    relative: Seq<char>,
    facts: SyncFacts,
    source: Option<Source>,
    link: bool,
) -> Option<Seq<char>> {
    if !link {
        Some("disabled by config (sync = false), left to install"@)
    } else if facts.destination_exists {
        Some("present"@)
    } else if !facts.source_exists {
        Some("missing in main checkout"@)
    } else {
        match gate_in(b, relative) {
            None => None,
            Some(step) => match (source, facts.here) {
                (Some(source), Some(here)) => if step.inputs_of().len() == 0 {
                    Some("no inputs prove the primary checkout's copy matches, left to install"@)
                } else if !installed_there(
                    step,
                    here@,
                    text::opt_view(facts.there),
                    source.manifest_dir@,
                    source.state.bootstrap@,
                ) {
                    Some(
                        "the primary checkout installed different "@ + text::join_of(
                            step.inputs_of(),
                            ", "@,
                        ) + ", left to install"@,
                    )
                } else {
                    None
                },
                _ => Some("no inputs prove the primary checkout's copy matches, left to install"@),
            },
        }
    }
}

fn why_not_linked(b: &Bootstrap, relative: &str, facts: &SyncFacts, source: &Option<Source>, link: bool) -> (r:
    Option<String>)
    ensures
        text::opt_view(r) == not_linked(b@, relative@, *facts, *source, link),
{
    if !link {
        return Some(text::own("disabled by config (sync = false), left to install"));
    }
    if facts.destination_exists {
        return Some(text::own("present"));
    }
    if !facts.source_exists {
        return Some(text::own("missing in main checkout"));
    }
    let gate = match find_gate(&b.run, relative) {
        Some(step) => Some(step),
        None => find_gate(&b.after, relative),
    };
    match gate {
        None => None,
        Some(step) => match (source, &facts.here) {
            (Some(source), Some(here)) => {
                let inputs = step.inputs();
                assert(text::views(inputs@).len() == inputs@.len());
                if inputs.len() == 0 {
                    Some(
                        text::own(
                            "no inputs prove the primary checkout's copy matches, left to install",
                        ),
                    )
                } else if !source_installed(step, here, &facts.there, source) {
                    let mut m = text::own("the primary checkout installed different ");
                    m.append(&text::join(&inputs, ", "));
                    m.append(", left to install");
                    Some(m)
                } else {
                    None
                }
            },
            _ => Some(
                text::own("no inputs prove the primary checkout's copy matches, left to install"),
            ),
        },
    }
}

/// The step whose inputs decide about a path: where there is one, their digests have to be known
/// before the path is decided.
pub fn proving_step<'a>(b: &'a Bootstrap, relative: &str) -> (r: Option<&'a RunStep>)
    ensures
        match r {
            Some(step) => gate_in(b@, relative@) == Some(step@),
            None => gate_in(b@, relative@) is None,
        },
{
    match find_gate(&b.run, relative) {
        Some(step) => Some(step),
        None => find_gate(&b.after, relative),
    }
}

/// Whether to link an untracked or generated path from the primary checkout into this worktree.
/// Paths are relative to the manifest that declares them, so an app manifest's
/// `sync = ["node_modules"]` links `<app>/node_modules`. Existing paths are never replaced.
pub fn sync_file(
    worktree_root: &str,
    source_root: &str,
    manifest_dir: &str,
    b: &Bootstrap,
    relative: &str,
    facts: &SyncFacts,
    source: &Option<Source>,
    link: bool,
) -> (r: SyncAction)
    ensures
        match r {
            SyncAction::Leave(m) => not_linked(b@, relative@, *facts, *source, link) matches Some(
                what,
            ) && m@ == sync_message(relative@, what),
            SyncAction::Link { from, to, message } => {
                &&& not_linked(b@, relative@, *facts, *source, link) is None
                &&& from@ == paths::join_of(
                    paths::join_of(source_root@, prefix_of(manifest_dir@, worktree_root@)),
                    relative@,
                )
                &&& to@ == paths::join_of(manifest_dir@, relative@)
                &&& message@ == sync_message(relative@, "linked"@)
            },
        },
{
    match why_not_linked(b, relative, facts, source, link) {
        Some(what) => SyncAction::Leave(sync_text(relative, &what)),
        None => {
            let dir = paths::join(source_root, &prefix(manifest_dir, worktree_root));
            SyncAction::Link {
                from: paths::join(&dir, relative),
                to: paths::join(manifest_dir, relative),
                message: sync_text(relative, "linked"),
            }
        },
    }
}

// ---------------------------------------------------------------------------
// Questions
// ---------------------------------------------------------------------------

/// The question `up` puts before a step marked `ask`.
pub fn prompt(command: &str) -> (r: String)
    ensures
        r@ == "Run task: "@ + command@,
{
    text::concat("Run task: ", command)
}

/// A yes/no question as it is printed.
pub fn question_line(question: &str) -> (r: String)
    ensures
        r@ == question@ + " (y/N) "@,
{
    text::concat(question, " (y/N) ")
}

/// Whether an answer is a yes.
pub open spec fn yes(answer: Seq<char>) -> bool {
    let word = text::lower_of(text::trim_of(answer));
    word == "y"@ || word == "yes"@
}

/// Whether a yes/no question was answered with a yes. Anything but y/yes is a no, and a run
/// without a terminal — scripts, agents, CI — always answers no, so an unattended `up` neither
/// blocks nor takes unconfirmed action.
pub fn confirm(terminal: bool, answer: &Option<String>) -> (r: bool)
    ensures
        r == (terminal && (answer matches Some(answer) && yes(answer@))),
{
    if !terminal {
        return false;
    }
    match answer {
        Some(answer) => {
            let word = text::to_lower(&text::trim(answer));
            text::same(&word, "y") || text::same(&word, "yes")
        },
        None => false,
    }
}

// ---------------------------------------------------------------------------
// Laws
// ---------------------------------------------------------------------------

/// A missing output makes a step run, whatever was recorded: no digest can stand in for an
/// artefact that is not there.
pub proof fn missing_outputs_are_made(
    step: RunStepView,
    key: Seq<char>,
    facts: StepFacts,
    state: Seq<(Seq<char>, Seq<char>)>,
    source: Option<Source>,
)
    requires
        step.outputs_of().len() > 0,
        !all(facts.present@),
    ensures
        decided(step, key, facts, state, source) == StepDecision::Due,
{
}

/// A linked output is trusted only with proof that the primary checkout installed it for exactly
/// these inputs.
pub proof fn unproven_links_are_not_trusted(
    step: RunStepView,
    key: Seq<char>,
    facts: StepFacts,
    state: Seq<(Seq<char>, Seq<char>)>,
    source: Option<Source>,
)
    requires
        step.outputs_of().len() > 0,
        any(facts.linked@),
        decided(step, key, facts, state, source) != StepDecision::Due,
    ensures
        source matches Some(s) && facts.digest matches Some(here) && installed_there(
            step,
            here@,
            text::opt_view(facts.there),
            s.manifest_dir@,
            s.state.bootstrap@,
        ),
{
}

/// A step that declares neither inputs nor outputs runs every time.
pub proof fn bare_steps_always_run(
    step: RunStepView,
    key: Seq<char>,
    facts: StepFacts,
    state: Seq<(Seq<char>, Seq<char>)>,
    source: Option<Source>,
)
    requires
        step.outputs_of().len() == 0,
        facts.digest is None,
    ensures
        decided(step, key, facts, state, source) == StepDecision::Due,
{
}

/// Once a step ran for some inputs, it is cached for them as long as its outputs are there and are
/// not links; for other inputs it is due.
pub proof fn recorded_steps_are_cached(
    step: RunStepView,
    key: Seq<char>,
    facts: StepFacts,
    state: Seq<(Seq<char>, Seq<char>)>,
    source: Option<Source>,
    digest: Seq<char>,
)
    requires
        all(facts.present@),
        !any(facts.linked@),
        facts.digest is Some,
    ensures
        decided(step, key, facts, dict::put(state, key, digest), source) == (if facts.digest.unwrap()@
            == digest {
            StepDecision::Cached
        } else {
            StepDecision::Due
        }),
{
    dict::put_then_lookup(state, key, digest, key);
}

/// How one pass over a step ends: what is decided of it, and then what the answer makes of that.
pub open spec fn taken(
    step: RunStepView,
    key: Seq<char>,
    facts: StepFacts,
    state: Seq<(Seq<char>, Seq<char>)>,
    source: Option<Source>,
    confirmed: bool,
) -> StepOutcome {
    outcome_of(decided(step, key, facts, state, source), step.asks_of(), confirmed)
}

/// The record after one pass over a step.
pub open spec fn state_after(
    step: RunStepView,
    key: Seq<char>,
    facts: StepFacts,
    state: Seq<(Seq<char>, Seq<char>)>,
    source: Option<Source>,
    confirmed: bool,
) -> Seq<(Seq<char>, Seq<char>)> {
    recorded_after(
        state,
        key,
        text::opt_view(facts.digest),
        taken(step, key, facts, state, source, confirmed),
    )
}

/// A step marked `ask` runs only on a yes; one that is not marked never waits for an answer; and
/// only a step that is due is asked about, so the answer decides nothing else.
pub proof fn asked_steps_run_on_a_yes(
    step: RunStepView,
    key: Seq<char>,
    facts: StepFacts,
    state: Seq<(Seq<char>, Seq<char>)>,
    source: Option<Source>,
    confirmed: bool,
)
    ensures
        taken(step, key, facts, state, source, confirmed) == StepOutcome::Ran <==> (decided(
            step,
            key,
            facts,
            state,
            source,
        ) == StepDecision::Due && (step.asks_of() ==> confirmed)),
        taken(step, key, facts, state, source, confirmed) == StepOutcome::Declined <==> (
        put_to_user(decided(step, key, facts, state, source), step.asks_of()) && !confirmed),
        !put_to_user(decided(step, key, facts, state, source), step.asks_of()) ==> taken(
            step,
            key,
            facts,
            state,
            source,
            true,
        ) == taken(step, key, facts, state, source, false),
{
}

/// A declined step records nothing, so it is asked about again and a later yes runs it.
pub proof fn declined_steps_are_asked_again(
    step: RunStepView,
    key: Seq<char>,
    facts: StepFacts,
    state: Seq<(Seq<char>, Seq<char>)>,
    source: Option<Source>,
)
    requires
        taken(step, key, facts, state, source, false) == StepOutcome::Declined,
    ensures
        ({
            let after = state_after(step, key, facts, state, source, false);
            &&& after == state
            &&& put_to_user(decided(step, key, facts, after, source), step.asks_of())
            &&& taken(step, key, facts, after, source, true) == StepOutcome::Ran
        }),
{
}

/// After a step ran, the next pass with the same inputs, while every output is there and none is a
/// link, neither asks nor runs: the step is cached, or present where it declares no inputs, and
/// the record stays as it is. Once an output is missing the step is due again, whatever was
/// recorded: it runs, after a yes where it asks.
pub proof fn run_steps_rest_until_an_output_is_missing(
    step: RunStepView,
    key: Seq<char>,
    first: StepFacts,
    state: Seq<(Seq<char>, Seq<char>)>,
    source: Option<Source>,
    confirmed: bool,
    kept: StepFacts,
    lost: StepFacts,
    answer: bool,
)
    requires
        taken(step, key, first, state, source, confirmed) == StepOutcome::Ran,
        first.digest is Some || step.outputs_of().len() > 0,
        text::opt_view(kept.digest) == text::opt_view(first.digest),
        all(kept.present@),
        !any(kept.linked@),
        step.outputs_of().len() > 0 ==> !all(lost.present@),
    ensures
        ({
            let after = state_after(step, key, first, state, source, confirmed);
            &&& taken(step, key, kept, after, source, answer) == (if first.digest is Some {
                StepOutcome::Cached
            } else {
                StepOutcome::Present
            })
            &&& !put_to_user(decided(step, key, kept, after, source), step.asks_of())
            &&& state_after(step, key, kept, after, source, answer) == after
            &&& step.outputs_of().len() > 0 ==> taken(step, key, lost, after, source, answer) == (
            if step.asks_of() && !answer {
                StepOutcome::Declined
            } else {
                StepOutcome::Ran
            })
        }),
{
    if let Some(digest) = first.digest {
        dict::put_then_lookup(state, key, digest@, key);
    }
}

/// A path that a step declares as its output is linked only where the primary checkout installed
/// it for the same inputs: a branch with different lockfiles never runs the primary checkout's
/// dependencies.
pub proof fn gated_paths_are_proven(
    b: BootstrapView,
    relative: Seq<char>,
    facts: SyncFacts,
    source: Option<Source>,
    link: bool,
)
    requires
        gate_in(b, relative) is Some,
        not_linked(b, relative, facts, source, link) is None,
    ensures
        source matches Some(s) && facts.here matches Some(here) && installed_there(
            gate_in(b, relative).unwrap(),
            here@,
            text::opt_view(facts.there),
            s.manifest_dir@,
            s.state.bootstrap@,
        ),
{
}

/// The command that a step runs.
pub open spec fn runs_command(step: RunStepView) -> Seq<char> {
    match step {
        RunStepView::Simple(command) => command,
        RunStepView::Detailed { command, .. } => command,
    }
}

/// Whether a step declares a path as one that it makes.
pub open spec fn makes(step: RunStepView, path: Seq<char>) -> bool {
    step matches RunStepView::Detailed { outputs, .. } && exists|i: int|
        0 <= i < outputs.len() && #[trigger] outputs[i] == path
}

/// Whether a step declares any path that it makes.
pub open spec fn makes_something(step: RunStepView) -> bool {
    step matches RunStepView::Detailed { outputs, .. } && outputs.len() > 0
}

/// Whether a step declares any file that it reads.
pub open spec fn reads_something(step: RunStepView) -> bool {
    step matches RunStepView::Detailed { inputs, .. } && inputs.len() > 0
}

/// Whether the primary checkout ran a step for the very inputs that are here: its own inputs are the
/// same, and it recorded a run of the step, in its copy of the manifest's directory, for them.
pub open spec fn was_installed_for(
    step: RunStepView,
    here: Option<Seq<char>>,
    there: Option<Seq<char>>,
    source: Option<Source>,
) -> bool {
    &&& here is Some
    &&& there == here
    &&& source matches Some(s)
    &&& dict::lookup(s.state.bootstrap@, s.manifest_dir@ + "::"@ + runs_command(step)) == here
}

/// Whether a path is made by the steps of a manifest, and by which: the first one that makes it, those
/// that run before the services start before those that run after.
pub open spec fn is_made_by(b: BootstrapView, path: Seq<char>, step: RunStepView) -> bool {
    ||| exists|i: int|
        0 <= i < b.run.len() && #[trigger] b.run[i] == step && makes(step, path) && forall|j: int|
            0 <= j < i ==> !makes(#[trigger] b.run[j], path)
    ||| (forall|j: int| 0 <= j < b.run.len() ==> !makes(#[trigger] b.run[j], path)) && exists|i: int|
        0 <= i < b.after.len() && #[trigger] b.after[i] == step && makes(step, path) && forall|
            j: int,
        |
            0 <= j < i ==> !makes(#[trigger] b.after[j], path)
}

proof fn gates_make_the_path(steps: Seq<RunStepView>, path: Seq<char>, k: int) -> (at: int)
    requires
        0 <= k <= steps.len(),
    ensures
        match gate_of(steps, path, k) {
            Some(step) => k <= at < steps.len() && steps[at] == step && makes(step, path)
                && forall|j: int| k <= j < at ==> !makes(#[trigger] steps[j], path),
            None => forall|j: int| k <= j < steps.len() ==> !makes(#[trigger] steps[j], path),
        },
    decreases steps.len() - k,
{
    if k >= steps.len() {
        k
    } else {
        let outputs = steps[k].outputs_of();
        if outputs.contains(path) {
            let i = choose|i: int| 0 <= i < outputs.len() && outputs[i] == path;
            assert(outputs[i] == path);
            k
        } else {
            assert(!makes(steps[k], path));
            gates_make_the_path(steps, path, k + 1)
        }
    }
}

/// A path is linked from the primary checkout exactly where linking is on, nothing is there yet, the
/// primary checkout has it, and, where a step makes it, that step reads something and the primary
/// checkout ran it for just these inputs.
pub proof fn paths_are_linked_with_proof(
    b: BootstrapView,
    relative: Seq<char>,
    facts: SyncFacts,
    source: Option<Source>,
    link: bool,
)
    ensures
        not_linked(b, relative, facts, source, link) is None <==> {
            &&& link
            &&& !facts.destination_exists
            &&& facts.source_exists
            &&& forall|step: RunStepView| #[trigger]
                is_made_by(b, relative, step) ==> reads_something(step) && was_installed_for(
                    step,
                    text::opt_view(facts.here),
                    text::opt_view(facts.there),
                    source,
                )
        },
{
    let first = gates_make_the_path(b.run, relative, 0);
    let second = gates_make_the_path(b.after, relative, 0);
    match gate_in(b, relative) {
        Some(step) => {
            assert(is_made_by(b, relative, step)) by {
                if gate_of(b.run, relative, 0) is Some {
                    assert(b.run[first] == step);
                } else {
                    assert(b.after[second] == step);
                }
            }
            assert forall|other: RunStepView| #[trigger] is_made_by(b, relative, other) implies other
                == step by {
                if gate_of(b.run, relative, 0) is Some {
                    assert(makes(b.run[first], relative));
                    let i = choose|i: int|
                        0 <= i < b.run.len() && #[trigger] b.run[i] == other && makes(
                            other,
                            relative,
                        ) && forall|j: int| 0 <= j < i ==> !makes(#[trigger] b.run[j], relative);
                    assert(makes(b.run[i], relative));
                    assert(i == first);
                } else {
                    assert(makes(b.after[second], relative));
                    let i = choose|i: int|
                        0 <= i < b.after.len() && #[trigger] b.after[i] == other && makes(
                            other,
                            relative,
                        ) && forall|j: int| 0 <= j < i ==> !makes(#[trigger] b.after[j], relative);
                    assert(makes(b.after[i], relative));
                    assert(i == second);
                }
            }
            assert(step.inputs_of().len() > 0 <==> reads_something(step));
        },
        None => {
            assert forall|step: RunStepView| !#[trigger] is_made_by(b, relative, step) by {
                assert(forall|j: int|
                    0 <= j < b.run.len() ==> !makes(#[trigger] b.run[j], relative));
                assert(forall|j: int|
                    0 <= j < b.after.len() ==> !makes(#[trigger] b.after[j], relative));
            }
        },
    }
}

/// What is decided of a step: one that makes something runs where any of that is missing, or where
/// any of it is a link to the primary checkout without proof that it was installed there for these
/// inputs. A proven link stands. Otherwise a step with inputs rests while they are those of its last
/// run, one with outputs alone rests while they are there, and any other runs every time.
pub proof fn steps_run_when_they_are_due(
    step: RunStepView,
    key: Seq<char>,
    facts: StepFacts,
    state: Seq<(Seq<char>, Seq<char>)>,
    source: Option<Source>,
)
    ensures
        ({
            let r = decided(step, key, facts, state, source);
            let here = text::opt_view(facts.digest);
            let missing = exists|i: int| 0 <= i < facts.present@.len() && !#[trigger] facts.present@[i];
            let linked = exists|i: int| 0 <= i < facts.linked@.len() && #[trigger] facts.linked@[i];
            let proven = was_installed_for(step, here, text::opt_view(facts.there), source);
            &&& makes_something(step) && missing ==> r == StepDecision::Due
            &&& makes_something(step) && linked && !proven ==> r == StepDecision::Due
            &&& !missing && linked && proven ==> r == StepDecision::Linked
            &&& !missing && !linked && here is None ==> r == (if makes_something(step) {
                StepDecision::Present
            } else {
                StepDecision::Due
            })
            &&& !missing && !linked && here is Some ==> r == (if dict::lookup(state, key) == here {
                StepDecision::Cached
            } else {
                StepDecision::Due
            })
        }),
{
    assert(step.outputs_of().len() > 0 <==> makes_something(step));
    let linked = facts.linked@;
    let present = facts.present@;
    assert(any(linked) <==> exists|i: int| 0 <= i < linked.len() && #[trigger] linked[i]);
    assert(all(present) <==> !exists|i: int| 0 <= i < present.len() && !#[trigger] present[i]);
}

/// A pass over a step records its inputs exactly where it ran or stood as a link: those and no others.
pub proof fn passes_record_what_they_did(
    step: RunStepView,
    key: Seq<char>,
    facts: StepFacts,
    state: Seq<(Seq<char>, Seq<char>)>,
    source: Option<Source>,
    confirmed: bool,
    other: Seq<char>,
)
    requires
        other != key,
    ensures
        ({
            let outcome = taken(step, key, facts, state, source, confirmed);
            let after = state_after(step, key, facts, state, source, confirmed);
            &&& dict::lookup(after, other) == dict::lookup(state, other)
            &&& dict::lookup(after, key) == (if facts.digest is Some && (outcome == StepOutcome::Ran
                || outcome == StepOutcome::Linked) {
                Some(facts.digest.unwrap()@)
            } else {
                dict::lookup(state, key)
            })
        }),
{
    if let Some(digest) = facts.digest {
        dict::put_then_lookup(state, key, digest@, key);
        dict::put_then_lookup(state, key, digest@, other);
    }
}

/// What is linked into a directory comes from the same directory of the primary checkout: an app's from
/// the app, and the root's from the root.
pub proof fn links_come_from_the_same_directory(
    worktree_root: Seq<char>,
    source_root: Seq<char>,
    app: Seq<char>,
)
    requires
        worktree_root.len() > 0,
        worktree_root.last() != '/',
        paths::is_plain_name(app),
    ensures
        prefix_of(paths::join_of(worktree_root, app), worktree_root) == app,
        counterpart(paths::join_of(worktree_root, app), worktree_root, source_root)
            == paths::join_of(source_root, app),
        prefix_of(worktree_root, worktree_root).len() == 0,
        counterpart(worktree_root, worktree_root, source_root) == source_root,
{
    paths::names_lie_below_their_directory(worktree_root, app);
    paths::directories_nest(worktree_root, worktree_root, worktree_root);
}

} // verus!
