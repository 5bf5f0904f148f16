//! What `up` would do, as text: nothing is executed or written.

use crate::bootstrap;
use crate::config::BuildMode;
use crate::ctx;
use crate::ctx::{BootstrapTarget, BootstrapTargetView, Ctx};
use crate::dict;
use crate::dict::Dict;
use crate::env;
use crate::lists;
use crate::manifest;
use crate::manifest::{
    Expose, Node, NodeKind, NodeKindView, NodeView, PortSpec, PortSpecView, RunStep, RunStepView,
    Runtime, Service, ServiceView,
};
use crate::paths;
use crate::ports::{PortMode, PortRequest, PortRequestView};
use crate::run;
use crate::text;
use vstd::prelude::*;

verus! {

/// What the plan says about the images a compose service would start from: the `up` flag, and the
/// note when the build is still a question.
pub fn build_note(mode: BuildMode) -> (r: &'static str)
    ensures
        r@ == build_note_of(mode),
{
    match mode {
        BuildMode::Never => "",
        BuildMode::Always => " --build",
        BuildMode::Ask => " --build, asks before building",
    }
}

/// What the plan says about the images a compose service would start from.
pub open spec fn build_note_of(mode: BuildMode) -> Seq<char> {
    match mode {
        BuildMode::Never => ""@,
        BuildMode::Always => " --build"@,
        BuildMode::Ask => " --build, asks before building"@,
    }
}

/// A compose service of the plan: its name, and the lines that say what happens to its ports.
#[derive(Debug)]
pub struct Planned {
    pub name: String,
    pub lines: Vec<String>,
}

/// The contents of a [`Planned`].
#[verifier::ext_equal]
pub struct PlannedView {
    pub name: Seq<char>,
    pub lines: Seq<Seq<char>>,
}

impl View for Planned {
    type V = PlannedView;

    open spec fn view(&self) -> PlannedView {
        PlannedView {
            name: self.name@,
            lines: text::views(self.lines@),
        }
    }
}

impl Clone for Planned {
    fn clone(&self) -> (r: Self)
        ensures
            r@ == self@,
    {
        Planned {
            name: self.name.clone(),
            lines: text::clone_texts(&self.lines),
        }
    }
}

/// A part of the plan: the header of a step, which is numbered, or a line.
#[derive(Debug)]
#[allow(inconsistent_fields)]
pub enum Item {
    Unit { phase: String, subject: String },
    Line(String),
}

/// The contents of a [`Item`].
#[verifier::ext_equal]
#[allow(inconsistent_fields)]
pub enum ItemView {
    Unit { phase: Seq<char>, subject: Seq<char> },
    Line(Seq<char>),
}

impl View for Item {
    type V = ItemView;

    open spec fn view(&self) -> ItemView {
        match self {
            Item::Unit { phase, subject } => ItemView::Unit { phase: phase@, subject: subject@ },
            Item::Line(f0) => ItemView::Line(f0@),
        }
    }
}

impl Clone for Item {
    fn clone(&self) -> (r: Self)
        ensures
            r@ == self@,
    {
        match self {
            Item::Unit { phase, subject } => Item::Unit { phase: phase.clone(), subject: subject.clone() },
            Item::Line(f0) => Item::Line(f0.clone()),
        }
    }
}

/// The compose services of one file and project.
#[derive(Debug)]
pub struct PlannedGroup {
    pub services: Vec<Planned>,
}

impl View for PlannedGroup {
    type V = Seq<PlannedView>;

    open spec fn view(&self) -> Seq<PlannedView> {
        text::views(self.services@)
    }
}

// ---------------------------------------------------------------------------
// Lines
// ---------------------------------------------------------------------------

/// A line of the plan.
pub open spec fn line(text: Seq<char>) -> ItemView {
    ItemView::Line(text)
}

/// The header of a step.
pub open spec fn unit(phase: Seq<char>, subject: Seq<char>) -> ItemView {
    ItemView::Unit { phase, subject }
}

/// Lines as parts of the plan.
pub open spec fn as_items(lines: Seq<Seq<char>>) -> Seq<ItemView> {
    Seq::new(lines.len(), |i: int| line(lines[i]))
}

/// How many of the first `k` parts are headers.
pub open spec fn units_upto(items: Seq<ItemView>, k: int) -> nat
    decreases k,
{
    if k <= 0 {
        0
    } else if items[k - 1] is Unit {
        units_upto(items, k - 1) + 1
    } else {
        units_upto(items, k - 1)
    }
}

/// A part of the plan as it is printed: a header carries its number among all headers.
pub open spec fn printed(items: Seq<ItemView>, i: int) -> Seq<char> {
    match items[i] {
        ItemView::Line(text) => text,
        ItemView::Unit { phase, subject } => "["@ + text::decimal_of(units_upto(items, i + 1)) + "/"@
            + text::decimal_of(units_upto(items, items.len() as int)) + "] "@ + phase + " · "@
            + subject,
    }
}

/// The plan as it is printed, line by line.
pub open spec fn rendered(items: Seq<ItemView>) -> Seq<Seq<char>> {
    Seq::new(items.len(), |i: int| printed(items, i))
}

fn add_line(out: &mut Vec<Item>, text: &str)
    ensures
        text::views(final(out)@) == text::views(old(out)@).push(line(text@)),
{
    broadcast use text::views_push;

    out.push(Item::Line(text::own(text)));
}

fn add_unit(out: &mut Vec<Item>, phase: &str, subject: &str)
    ensures
        text::views(final(out)@) == text::views(old(out)@).push(unit(phase@, subject@)),
{
    broadcast use text::views_push;

    out.push(Item::Unit { phase: text::own(phase), subject: text::own(subject) });
}

fn add_lines(out: &mut Vec<Item>, lines: &Vec<String>)
    ensures
        text::views(final(out)@) == text::views(old(out)@) + as_items(text::views(lines@)),
{
    let ghost start = text::views(out@);
    let ghost goal = as_items(text::views(lines@));
    let mut i: usize = 0;
    assert(start + goal.take(0) =~= start);
    while i < lines.len()
        invariant
            goal == as_items(text::views(lines@)),
            i <= lines@.len(),
            text::views(out@) == start + goal.take(i as int),
        decreases lines@.len() - i,
    {
        add_line(out, &lines[i]);
        i += 1;
        assert(text::views(out@) =~= start + goal.take(i as int));
    }
    assert(goal.take(i as int) =~= goal);
}

fn count_units(items: &Vec<Item>) -> (r: usize)
    ensures
        r == units_upto(text::views(items@), items@.len() as int),
{
    let ghost all = text::views(items@);
    let mut n: usize = 0;
    let mut i: usize = 0;
    while i < items.len()
        invariant
            all == text::views(items@),
            n <= i <= items.len(),
            n == units_upto(all, i as int),
        decreases items@.len() - i,
    {
        assert(all[i as int] == items@[i as int]@);
        if let Item::Unit { .. } = &items[i] {
            n += 1;
        }
        i += 1;
    }
    n
}

/// The plan as it is printed, line by line.
pub fn render(items: &Vec<Item>) -> (r: Vec<String>)
    ensures
        text::views(r@) == rendered(text::views(items@)),
{
    let ghost all = text::views(items@);
    let ghost goal = rendered(all);
    let total = count_units(items);
    let mut out: Vec<String> = Vec::new();
    let mut n: usize = 0;
    let mut i: usize = 0;
    assert(text::views(out@) =~= goal.take(0));
    while i < items.len()
        invariant
            all == text::views(items@),
            goal == rendered(all),
            total == units_upto(all, all.len() as int),
            n <= i <= items.len(),
            n == units_upto(all, i as int),
            text::views(out@) == goal.take(i as int),
        decreases items@.len() - i,
    {
        assert(all[i as int] == items@[i as int]@);
        match &items[i] {
            Item::Line(text) => {
                text::add(&mut out, text);
            },
            Item::Unit { phase, subject } => {
                n += 1;
                let mut header = text::own("[");
                header.append(&text::decimal(n as u64));
                header.append("/");
                header.append(&text::decimal(total as u64));
                header.append("] ");
                header.append(phase);
                header.append(" · ");
                header.append(subject);
                text::add(&mut out, &header);
            },
        }
        i += 1;
        assert(text::views(out@) =~= goal.take(i as int));
    }
    assert(goal.take(i as int) =~= goal);
    out
}

// ---------------------------------------------------------------------------
// Steps
// ---------------------------------------------------------------------------

/// What decides whether a step runs.
pub open spec fn marker_of(step: RunStepView) -> Seq<char> {
    let inputs = text::join_of(step.inputs_of(), ", "@);
    let outputs = text::join_of(step.outputs_of(), ", "@);
    (if step.inputs_of().len() == 0 && step.outputs_of().len() == 0 {
        "always runs"@
    } else if step.outputs_of().len() == 0 {
        "skipped when unchanged: "@ + inputs
    } else if step.inputs_of().len() == 0 {
        "runs when missing: "@ + outputs
    } else {
        "skipped when unchanged ("@ + inputs + ") and present: "@ + outputs
    }) + (if step.asks_of() {
        ", asks before running"@
    } else {
        ""@
    })
}

/// One bootstrap step in the plan, with what decides whether it runs.
pub open spec fn step_line(step: RunStepView) -> Seq<char> {
    "  run   "@ + step.command_of() + "   ("@ + marker_of(step) + ")"@
}

fn show_step(step: &RunStep) -> (r: String)
    ensures
        r@ == step_line(step@),
{
    let inputs = step.inputs();
    let outputs = step.outputs();
    let ins = text::join(&inputs, ", ");
    let outs = text::join(&outputs, ", ");
    let mut marker = if inputs.len() == 0 && outputs.len() == 0 {
        text::own("always runs")
    } else if outputs.len() == 0 {
        text::concat("skipped when unchanged: ", &ins)
    } else if inputs.len() == 0 {
        text::concat("runs when missing: ", &outs)
    } else {
        let mut both = text::own("skipped when unchanged (");
        both.append(&ins);
        both.append(") and present: ");
        both.append(&outs);
        both
    };
    marker.append(
        if step.asks() {
            ", asks before running"
        } else {
            ""
        },
    );
    let mut out = text::own("  run   ");
    out.append(step.command());
    out.append("   (");
    out.append(&marker);
    out.append(")");
    out
}

/// What the first `k` steps of a phase come to.
pub open spec fn step_items(steps: Seq<RunStepView>, phase: Seq<char>, k: int) -> Seq<ItemView>
    decreases k,
{
    if k <= 0 {
        Seq::empty()
    } else {
        step_items(steps, phase, k - 1).push(unit(phase, steps[k - 1].command_of())).push(
            line(step_line(steps[k - 1])),
        )
    }
}

fn add_steps(out: &mut Vec<Item>, steps: &Vec<RunStep>, phase: &str)
    ensures
        text::views(final(out)@) == text::views(old(out)@) + step_items(
            text::views(steps@),
            phase@,
            steps@.len() as int,
        ),
{
    let ghost start = text::views(out@);
    let ghost all = text::views(steps@);
    let mut k: usize = 0;
    assert(start + Seq::<ItemView>::empty() =~= start);
    while k < steps.len()
        invariant
            all == text::views(steps@),
            k <= steps@.len(),
            text::views(out@) == start + step_items(all, phase@, k as int),
        decreases steps@.len() - k,
    {
        assert(all[k as int] == steps@[k as int]@);
        add_unit(out, phase, steps[k].command());
        add_line(out, &show_step(&steps[k]));
        k += 1;
        assert(text::views(out@) =~= start + step_items(all, phase@, k as int));
    }
}

/// Whether a file that is synced is in this worktree, and in the primary checkout.
#[derive(Debug, Clone, Copy, PartialEq, Eq, Structural)]
pub struct Presence {
    pub here: bool,
    pub there: bool,
}

/// What was seen of file `i` of target `t`; nothing where nobody looked.
pub open spec fn seen(presence: Seq<Vec<Presence>>, t: int, i: int) -> Presence {
    if 0 <= t < presence.len() && 0 <= i < presence[t]@.len() {
        presence[t]@[i]
    } else {
        Presence { here: false, there: false }
    }
}

/// The copy of a synced file in the primary checkout.
pub open spec fn sync_source(
    dir: Seq<char>,
    worktree_root: Seq<char>,
    main_root: Seq<char>,
    path: Seq<char>,
) -> Seq<char> {
    paths::join_of(bootstrap::counterpart(dir, worktree_root, main_root), path)
}

/// What is said of a file that is synced.
pub open spec fn sync_line(path: Seq<char>, source: Seq<char>, p: Presence, main: bool) -> Seq<char> {
    "  sync  "@ + path + (if p.here {
        ": already present, would skip"@
    } else if p.there && !main {
        ": symlink from "@ + source
    } else if p.there {
        ": present in this worktree, would skip"@
    } else {
        ": missing everywhere, would report and continue"@
    })
}

/// What is said of the first `k` files of a target.
pub open spec fn sync_items(
    c: Ctx,
    main_root: Seq<char>,
    target: BootstrapTargetView,
    presence: Seq<Vec<Presence>>,
    t: int,
    k: int,
) -> Seq<ItemView>
    decreases k,
{
    if k <= 0 {
        Seq::empty()
    } else {
        let path = target.steps.sync[k - 1];
        sync_items(c, main_root, target, presence, t, k - 1).push(
            line(
                sync_line(
                    path,
                    sync_source(target.dir, c.repo@.worktree_root, main_root, path),
                    seen(presence, t, k - 1),
                    c.repo@.is_main(),
                ),
            ),
        )
    }
}

/// Whether a manifest has something to do before the start.
pub open spec fn starts(target: BootstrapTargetView) -> bool {
    target.steps.sync.len() > 0 || target.steps.run.len() > 0
}

/// What one manifest does before the start.
pub open spec fn target_items(
    c: Ctx,
    main_root: Seq<char>,
    target: BootstrapTargetView,
    presence: Seq<Vec<Presence>>,
    t: int,
) -> Seq<ItemView> {
    let rel = paths::shown_dir_of(target.dir, c.repo@.worktree_root);
    let phase = "bootstrap "@ + rel;
    if !starts(target) {
        Seq::empty()
    } else {
        (if target.steps.sync.len() > 0 {
            seq![unit(phase, "sync "@ + text::join_of(target.steps.sync, ", "@))]
        } else {
            Seq::empty()
        }) + seq![line("("@ + rel + ")"@)] + sync_items(
            c,
            main_root,
            target,
            presence,
            t,
            target.steps.sync.len() as int,
        ) + step_items(target.steps.run, phase, target.steps.run.len() as int)
    }
}

/// What the first `k` manifests do before the start.
pub open spec fn targets_items(
    c: Ctx,
    main_root: Seq<char>,
    targets: Seq<BootstrapTargetView>,
    presence: Seq<Vec<Presence>>,
    k: int,
) -> Seq<ItemView>
    decreases k,
{
    if k <= 0 {
        Seq::empty()
    } else {
        targets_items(c, main_root, targets, presence, k - 1) + target_items(
            c,
            main_root,
            targets[k - 1],
            presence,
            k - 1,
        )
    }
}

/// Whether any manifest has something to do before the start.
pub open spec fn any_starts(targets: Seq<BootstrapTargetView>) -> bool {
    exists|i: int| 0 <= i < targets.len() && starts(#[trigger] targets[i])
}

/// The bootstrap section of the plan.
pub open spec fn bootstrap_section(
    c: Ctx,
    main_root: Seq<char>,
    targets: Seq<BootstrapTargetView>,
    presence: Seq<Vec<Presence>>,
) -> Seq<ItemView> {
    (if any_starts(targets) {
        seq![line("\n# bootstrap"@)]
    } else {
        Seq::empty()
    }) + targets_items(c, main_root, targets, presence, targets.len() as int)
}

fn look(presence: &Vec<Vec<Presence>>, t: usize, i: usize) -> (r: Presence)
    ensures
        r == seen(presence@, t as int, i as int),
{
    if t < presence.len() && i < presence[t].len() {
        presence[t][i]
    } else {
        Presence { here: false, there: false }
    }
}

fn add_target(
    out: &mut Vec<Item>,
    c: &Ctx,
    main_root: &str,
    target: &BootstrapTarget,
    presence: &Vec<Vec<Presence>>,
    t: usize,
)
    ensures
        text::views(final(out)@) == text::views(old(out)@) + target_items(
            *c,
            main_root@,
            target@,
            presence@,
            t as int,
        ),
{
    let ghost start = text::views(out@);
    assert(start + Seq::<ItemView>::empty() =~= start);
    if target.steps.sync.len() == 0 && target.steps.run.len() == 0 {
        return;
    }
    let rel = paths::shown_dir(&target.dir, &c.repo.worktree_root);
    let phase = text::concat("bootstrap ", &rel);
    if target.steps.sync.len() > 0 {
        add_unit(out, &phase, &text::concat("sync ", &text::join(&target.steps.sync, ", ")));
    }
    let mut place = text::own("(");
    place.append(&rel);
    place.append(")");
    add_line(out, &place);
    let ghost before = text::views(out@);
    let source_dir = bootstrap::source_dir(&target.dir, &c.repo.worktree_root, main_root);
    let main = c.repo.is_main_worktree();
    let ghost all = target@.steps.sync;
    let mut k: usize = 0;
    assert(before + Seq::<ItemView>::empty() =~= before);
    while k < target.steps.sync.len()
        invariant
            all == target@.steps.sync,
            main == c.repo@.is_main(),
            source_dir@ == bootstrap::counterpart(
                target@.dir,
                c.repo@.worktree_root,
                main_root@,
            ),
            k <= target.steps.sync@.len(),
            text::views(out@) == before + sync_items(
                *c,
                main_root@,
                target@,
                presence@,
                t as int,
                k as int,
            ),
        decreases target.steps.sync@.len() - k,
    {
        let path = &target.steps.sync[k];
        assert(all[k as int] == path@);
        let p = look(presence, t, k);
        let what = if p.here {
            text::own(": already present, would skip")
        } else if p.there && !main {
            text::concat(": symlink from ", &paths::join(&source_dir, path))
        } else if p.there {
            text::own(": present in this worktree, would skip")
        } else {
            text::own(": missing everywhere, would report and continue")
        };
        let mut said = text::own("  sync  ");
        said.append(path);
        said.append(&what);
        add_line(out, &said);
        k += 1;
        assert(text::views(out@) =~= before + sync_items(
            *c,
            main_root@,
            target@,
            presence@,
            t as int,
            k as int,
        ));
    }
    add_steps(out, &target.steps.run, &phase);
    assert(text::views(out@) =~= start + target_items(
        *c,
        main_root@,
        target@,
        presence@,
        t as int,
    ));
}

fn add_bootstrap(
    out: &mut Vec<Item>,
    c: &Ctx,
    main_root: &str,
    targets: &Vec<BootstrapTarget>,
    presence: &Vec<Vec<Presence>>,
)
    ensures
        text::views(final(out)@) == text::views(old(out)@) + bootstrap_section(
            *c,
            main_root@,
            text::views(targets@),
            presence@,
        ),
{
    let ghost start = text::views(out@);
    let ghost all = text::views(targets@);
    let mut any = false;
    let mut i: usize = 0;
    while i < targets.len() && !any
        invariant
            all == text::views(targets@),
            i <= targets@.len(),
            any ==> any_starts(all),
            !any ==> forall|k: int| 0 <= k < i ==> !starts(#[trigger] all[k]),
        decreases targets@.len() - i,
    {
        assert(all[i as int] == targets@[i as int]@);
        if targets[i].steps.sync.len() > 0 || targets[i].steps.run.len() > 0 {
            assert(starts(all[i as int]));
            any = true;
        }
        i += 1;
    }
    if any {
        add_line(out, "\n# bootstrap");
    }
    let ghost before = text::views(out@);
    let mut k: usize = 0;
    assert(before + Seq::<ItemView>::empty() =~= before);
    while k < targets.len()
        invariant
            all == text::views(targets@),
            k <= targets@.len(),
            text::views(out@) == before + targets_items(
                *c,
                main_root@,
                all,
                presence@,
                k as int,
            ),
        decreases targets@.len() - k,
    {
        assert(all[k as int] == targets@[k as int]@);
        add_target(out, c, main_root, &targets[k], presence, k);
        k += 1;
        assert(text::views(out@) =~= before + targets_items(
            *c,
            main_root@,
            all,
            presence@,
            k as int,
        ));
    }
    assert(text::views(out@) =~= start + bootstrap_section(*c, main_root@, all, presence@));
}

/// What the first `k` manifests do once everything is healthy.
pub open spec fn after_items(c: Ctx, targets: Seq<BootstrapTargetView>, k: int) -> Seq<ItemView>
    decreases k,
{
    if k <= 0 {
        Seq::empty()
    } else {
        let before = after_items(c, targets, k - 1);
        let target = targets[k - 1];
        let rel = paths::shown_dir_of(target.dir, c.repo@.worktree_root);
        if target.steps.after.len() == 0 {
            before
        } else {
            before.push(line("("@ + rel + ")"@)) + step_items(
                target.steps.after,
                "after "@ + rel,
                target.steps.after.len() as int,
            )
        }
    }
}

/// Whether any manifest has something to do once everything is healthy.
pub open spec fn any_after(targets: Seq<BootstrapTargetView>) -> bool {
    exists|i: int| 0 <= i < targets.len() && (#[trigger] targets[i]).steps.after.len() > 0
}

/// The section of the plan for what happens once everything is healthy.
pub open spec fn after_section(c: Ctx, targets: Seq<BootstrapTargetView>) -> Seq<ItemView> {
    if any_after(targets) {
        seq![line("\n# after (once every service above is healthy)"@)] + after_items(
            c,
            targets,
            targets.len() as int,
        )
    } else {
        Seq::empty()
    }
}

fn add_after(out: &mut Vec<Item>, c: &Ctx, targets: &Vec<BootstrapTarget>)
    ensures
        text::views(final(out)@) == text::views(old(out)@) + after_section(
            *c,
            text::views(targets@),
        ),
{
    let ghost start = text::views(out@);
    let ghost all = text::views(targets@);
    assert(start + Seq::<ItemView>::empty() =~= start);
    let mut any = false;
    let mut i: usize = 0;
    while i < targets.len() && !any
        invariant
            all == text::views(targets@),
            i <= targets@.len(),
            any ==> any_after(all),
            !any ==> forall|k: int| 0 <= k < i ==> (#[trigger] all[k]).steps.after.len() == 0,
        decreases targets@.len() - i,
    {
        assert(all[i as int] == targets@[i as int]@);
        if targets[i].steps.after.len() > 0 {
            assert(all[i as int].steps.after.len() > 0);
            any = true;
        }
        i += 1;
    }
    if !any {
        return;
    }
    add_line(out, "\n# after (once every service above is healthy)");
    let ghost before = text::views(out@);
    let mut k: usize = 0;
    assert(before + Seq::<ItemView>::empty() =~= before);
    while k < targets.len()
        invariant
            all == text::views(targets@),
            k <= targets@.len(),
            text::views(out@) == before + after_items(*c, all, k as int),
        decreases targets@.len() - k,
    {
        let target = &targets[k];
        assert(all[k as int] == target@);
        if target.steps.after.len() > 0 {
            let rel = paths::shown_dir(&target.dir, &c.repo.worktree_root);
            let mut place = text::own("(");
            place.append(&rel);
            place.append(")");
            add_line(out, &place);
            add_steps(out, &target.steps.after, &text::concat("after ", &rel));
        }
        k += 1;
        assert(text::views(out@) =~= before + after_items(*c, all, k as int));
    }
    assert(text::views(out@) =~= start + after_section(*c, all));
}

// ---------------------------------------------------------------------------
// Services
// ---------------------------------------------------------------------------

/// The host port that is known before the start: the one that is required, in any worktree, or the
/// preferred one where the ports are those the manifest declares.
pub open spec fn fixed_port(require: Option<u16>, prefer: Option<u16>, mode: PortMode) -> Option<u16> {
    match require {
        Some(port) => Some(port),
        None => match mode {
            PortMode::Declared => prefer,
            PortMode::Block => None,
        },
    }
}

fn known_port(require: Option<u16>, prefer: Option<u16>, mode: PortMode) -> (r: Option<u16>)
    ensures
        r == fixed_port(require, prefer, mode),
{
    match require {
        Some(port) => Some(port),
        None => match mode {
            PortMode::Declared => prefer,
            PortMode::Block => None,
        },
    }
}

/// The host port of a request that is known before the start.
pub open spec fn wanted(
    requests: Seq<PortRequestView>,
    mode: PortMode,
    name: Seq<char>,
    k: int,
) -> Option<u16>
    decreases requests.len() - k,
{
    if k < 0 || k >= requests.len() {
        None
    } else if requests[k].name == name {
        fixed_port(requests[k].require, requests[k].prefer, mode)
    } else {
        wanted(requests, mode, name, k + 1)
    }
}

fn find_wanted(requests: &Vec<PortRequest>, mode: PortMode, name: &str) -> (r: Option<u16>)
    ensures
        r == wanted(text::views(requests@), mode, name@, 0),
{
    let ghost all = text::views(requests@);
    let mut k: usize = 0;
    while k < requests.len()
        invariant
            all == text::views(requests@),
            k <= requests@.len(),
            wanted(all, mode, name@, 0) == wanted(all, mode, name@, k as int),
        decreases requests@.len() - k,
    {
        assert(all[k as int] == requests@[k as int]@);
        if text::same(&requests[k].name, name) {
            return known_port(requests[k].require, requests[k].prefer, mode);
        }
        k += 1;
    }
    None
}

/// One published port: container-side target plus any fixed host port the manifest demands for it.
pub open spec fn mapping_line(target: Option<u16>, fixed: Option<u16>) -> Seq<char> {
    "      - 127.0.0.1:"@ + (match fixed {
        Some(port) => text::decimal_of(port as nat) + " (fixed)"@,
        None => "<allocated>"@,
    }) + ":"@ + (match target {
        Some(port) => text::decimal_of(port as nat),
        None => "<port.target>"@,
    })
}

/// The first `k` published ports of a node.
pub open spec fn mapping_lines(
    node: NodeView,
    requests: Seq<PortRequestView>,
    mode: PortMode,
    k: int,
) -> Seq<Seq<char>>
    decreases k,
{
    if k <= 0 {
        Seq::empty()
    } else {
        let declared = node.service_of().unwrap().ports_of();
        let port = declared[k - 1];
        mapping_lines(node, requests, mode, k - 1).push(
            mapping_line(
                port.target,
                wanted(requests, mode, ctx::key_of(node, ctx::own_name(node, declared, port)), 0),
            ),
        )
    }
}

/// What happens to the ports of a compose service.
pub open spec fn service_lines(
    node: NodeView,
    name: Seq<char>,
    requests: Seq<PortRequestView>,
    mode: PortMode,
) -> Seq<Seq<char>> {
    let service = node.service_of().unwrap();
    match service.expose {
        Expose::Nothing => seq!["    "@ + name + ": ports: !reset [] (no host port)"@],
        Expose::Port => seq!["    "@ + name + ": ports: !override"@] + mapping_lines(
            node,
            requests,
            mode,
            service.ports_of().len() as int,
        ),
    }
}

/// The file and project of a compose service, as the plan names them.
pub open spec fn group_name(c: Ctx, node: NodeView, file: Seq<char>) -> Seq<char> {
    paths::display_relative_of(paths::join_of(node.manifest_dir, file), c.repo@.worktree_root)
        + " (project "@ + ctx::project_of(c.slug@, node) + ")"@
}

/// The compose services of the first `k` selected nodes, by file and project.
pub open spec fn groups_upto(
    c: Ctx,
    selection: Seq<usize>,
    requests: Seq<PortRequestView>,
    mode: PortMode,
    k: int,
) -> Seq<(Seq<char>, Seq<PlannedView>)>
    decreases k,
{
    if k <= 0 {
        Seq::empty()
    } else {
        let before = groups_upto(c, selection, requests, mode, k - 1);
        let node = c.node_views()[selection[k - 1] as int];
        match node.service_of() {
            Some(service) => match (service.runtime_of(), service.compose) {
                (Runtime::Compose, Some(reference)) => {
                    let key = group_name(c, node, reference.file);
                    let list = match dict::lookup(before, key) {
                        Some(list) => list,
                        None => Seq::empty(),
                    };
                    dict::put(
                        before,
                        key,
                        list.push(
                            PlannedView {
                                name: reference.service,
                                lines: service_lines(node, reference.service, requests, mode),
                            },
                        ),
                    )
                },
                _ => before,
            },
            None => before,
        }
    }
}

/// The names of planned services.
pub open spec fn planned_names(services: Seq<PlannedView>) -> Seq<Seq<char>> {
    Seq::new(services.len(), |i: int| services[i].name)
}

/// The lines of the first `k` planned services.
pub open spec fn planned_lines(services: Seq<PlannedView>, k: int) -> Seq<Seq<char>>
    decreases k,
{
    if k <= 0 {
        Seq::empty()
    } else {
        planned_lines(services, k - 1) + services[k - 1].lines
    }
}

/// The command that starts a group.
pub open spec fn start_line(build: BuildMode) -> Seq<char> {
    "  docker compose -f <compose file> -f <override> -p <project> up -d"@ + build_note_of(build)
        + "  (skipped when this project is already up on an unchanged configuration; --refresh forces it)"@
}

/// What the first `k` groups come to.
pub open spec fn group_items(
    groups: Seq<(Seq<char>, Seq<PlannedView>)>,
    runtime_dir: Seq<char>,
    build: BuildMode,
    k: int,
) -> Seq<ItemView>
    decreases k,
{
    if k <= 0 {
        Seq::empty()
    } else {
        let file = groups[k - 1].0;
        let services = groups[k - 1].1;
        group_items(groups, runtime_dir, build, k - 1).push(
            unit("compose "@ + file, text::join_of(planned_names(services), " "@)),
        ).push(line(file)).push(
            line("  would write "@ + runtime_dir + "/override-<hash>.yml and run:"@),
        ) + as_items(planned_lines(services, services.len() as int)) + seq![line(start_line(build))]
    }
}

/// The compose section of the plan.
pub open spec fn compose_section(
    groups: Seq<(Seq<char>, Seq<PlannedView>)>,
    runtime_dir: Seq<char>,
    build: BuildMode,
) -> Seq<ItemView> {
    if groups.len() > 0 {
        seq![line("\n# compose"@)] + group_items(groups, runtime_dir, build, groups.len() as int)
    } else {
        Seq::empty()
    }
}

fn show_mapping(target: Option<u16>, fixed: Option<u16>) -> (r: String)
    ensures
        r@ == mapping_line(target, fixed),
{
    let host = match fixed {
        Some(port) => text::concat(&text::decimal(port as u64), " (fixed)"),
        None => text::own("<allocated>"),
    };
    let inner = match target {
        Some(port) => text::decimal(port as u64),
        None => text::own("<port.target>"),
    };
    let mut out = text::own("      - 127.0.0.1:");
    out.append(&host);
    out.append(":");
    out.append(&inner);
    out
}

fn own_port_name(node: &Node, count: usize, port: &PortSpec) -> (r: Option<String>)
    requires
        port.name is Some,
    ensures
        text::opt_view(r) == (if count > 1 && port@.name.unwrap() != node@.id {
            port@.name
        } else {
            None
        }),
{
    match &port.name {
        Some(name) => if count > 1 && !text::same(name, &node.id) {
            Some(name.clone())
        } else {
            None
        },
        None => None,
    }
}

fn show_service(
    c: &Ctx,
    node: &Node,
    service: &Service,
    name: &str,
    requests: &Vec<PortRequest>,
    mode: PortMode,
) -> (r: Vec<String>)
    requires
        node@.service_of() == Some(service@),
    ensures
        text::views(r@) == service_lines(node@, name@, text::views(requests@), mode),
{
    match service.expose {
        Expose::Nothing => {
            let mut said = text::own("    ");
            said.append(name);
            said.append(": ports: !reset [] (no host port)");
            text::single(said)
        },
        Expose::Port => {
            let mut said = text::own("    ");
            said.append(name);
            said.append(": ports: !override");
            let mut out = text::single(said);
            let ghost first = text::views(out@);
            let declared = service.ports();
            let ghost all = text::views(declared@);
            let mut k: usize = 0;
            assert(first + Seq::<Seq<char>>::empty() =~= first);
            while k < declared.len()
                invariant
                    all == text::views(declared@),
                    all == service@.ports_of(),
                    node@.service_of() == Some(service@),
                    k <= declared@.len(),
                    text::views(out@) == first + mapping_lines(
                        node@,
                        text::views(requests@),
                        mode,
                        k as int,
                    ),
                decreases declared@.len() - k,
            {
                let port = &declared[k];
                assert(all[k as int] == port@);
                let name = own_port_name(node, declared.len(), port);
                let key = c.port_key(node, &name);
                text::add(&mut out, &show_mapping(port.target, find_wanted(requests, mode, &key)));
                k += 1;
                assert(text::views(out@) =~= first + mapping_lines(
                    node@,
                    text::views(requests@),
                    mode,
                    k as int,
                ));
            }
            out
        },
    }
}

fn plan_groups(
    c: &Ctx,
    selection: &Vec<usize>,
    requests: &Vec<PortRequest>,
    mode: PortMode,
) -> (r: Dict<PlannedGroup>)
    requires
        manifest::inside(selection@, c.nodes@.len()),
    ensures
        r@ == groups_upto(*c, selection@, text::views(requests@), mode, selection@.len() as int),
{
    let ghost wants = text::views(requests@);
    let mut groups: Dict<PlannedGroup> = Dict::new();
    let mut k: usize = 0;
    while k < selection.len()
        invariant
            manifest::inside(selection@, c.nodes@.len()),
            wants == text::views(requests@),
            k <= selection@.len(),
            groups@ == groups_upto(*c, selection@, wants, mode, k as int),
        decreases selection@.len() - k,
    {
        broadcast use text::views_push;

        let node = &c.nodes[selection[k]];
        assert(c.node_views()[selection@[k as int] as int] == node@);
        if let Some(service) = node.service() {
            let contained = match service.launched_by() {
                Runtime::Compose => true,
                Runtime::Host => false,
            };
            if contained {
                if let Some(reference) = &service.compose {
                    let mut key = paths::display_relative(
                        &paths::join(&node.manifest_dir, &reference.file),
                        &c.repo.worktree_root,
                    );
                    key.append(" (project ");
                    key.append(&c.project_for(node));
                    key.append(")");
                    let mut services = match groups.get(&key) {
                        Some(group) => text::clone_all(&group.services),
                        None => Vec::new(),
                    };
                    assert(dict::lookup(groups@, key@) is None ==> text::views(services@)
                        =~= Seq::<PlannedView>::empty());
                    services.push(
                        Planned {
                            name: reference.service.clone(),
                            lines: show_service(c, node, service, &reference.service, requests, mode),
                        },
                    );
                    groups.insert(key, PlannedGroup { services });
                }
            }
        }
        k += 1;
    }
    groups
}

fn add_compose(
    out: &mut Vec<Item>,
    groups: &Dict<PlannedGroup>,
    runtime_dir: &str,
    build: BuildMode,
)
    ensures
        text::views(final(out)@) == text::views(old(out)@) + compose_section(
            groups@,
            runtime_dir@,
            build,
        ),
{
    let ghost start = text::views(out@);
    let n: usize = groups.len();
    assert(start + Seq::<ItemView>::empty() =~= start);
    if n == 0 {
        return;
    }
    add_line(out, "\n# compose");
    let ghost before = text::views(out@);
    let mut k: usize = 0;
    assert(before + Seq::<ItemView>::empty() =~= before);
    while k < n
        invariant
            n == groups@.len(),
            k <= n,
            text::views(out@) == before + group_items(groups@, runtime_dir@, build, k as int),
        decreases n - k,
    {
        let file = groups.key_at(k);
        let services = &groups.value_at(k).services;
        let ghost all = text::views(services@);
        let ghost goal = planned_names(all);
        let mut names: Vec<String> = Vec::new();
        let mut lines: Vec<String> = Vec::new();
        let mut i: usize = 0;
        assert(text::views(names@) =~= goal.take(0));
        assert(text::views(lines@) =~= Seq::<Seq<char>>::empty());
        while i < services.len()
            invariant
                all == text::views(services@),
                goal == planned_names(all),
                i <= services@.len(),
                text::views(names@) == goal.take(i as int),
                text::views(lines@) == planned_lines(all, i as int),
            decreases services@.len() - i,
        {
            assert(all[i as int] == services@[i as int]@);
            text::add(&mut names, &services[i].name);
            text::add_all(&mut lines, &services[i].lines);
            i += 1;
            assert(text::views(names@) =~= goal.take(i as int));
        }
        assert(goal.take(i as int) =~= goal);
        add_unit(out, &text::concat("compose ", file), &text::join(&names, " "));
        add_line(out, file);
        let mut write = text::own("  would write ");
        write.append(runtime_dir);
        write.append("/override-<hash>.yml and run:");
        add_line(out, &write);
        add_lines(out, &lines);
        let mut command = text::own(
            "  docker compose -f <compose file> -f <override> -p <project> up -d",
        );
        command.append(build_note(build));
        command.append(
            "  (skipped when this project is already up on an unchanged configuration; --refresh forces it)",
        );
        add_line(out, &command);
        k += 1;
        assert(text::views(out@) =~= before + group_items(groups@, runtime_dir@, build, k as int));
    }
    assert(text::views(out@) =~= start + compose_section(groups@, runtime_dir@, build));
}

/// The first host port among declarations that is known before the start, from `k` on.
pub open spec fn fixed_of(ports: Seq<PortSpecView>, mode: PortMode, k: int) -> Option<u16>
    decreases ports.len() - k,
{
    if k < 0 || k >= ports.len() {
        None
    } else if fixed_port(ports[k].require, ports[k].prefer, mode) is Some {
        fixed_port(ports[k].require, ports[k].prefer, mode)
    } else {
        fixed_of(ports, mode, k + 1)
    }
}

/// The variable that carries the port of a host service.
pub open spec fn carried_by(ports: Seq<PortSpecView>) -> Seq<char> {
    match ctx::first_variable(ports, 0) {
        Some(name) => name,
        None => "PORT"@,
    }
}

/// What a host service comes to.
pub open spec fn host_lines(
    node: NodeView,
    service: ServiceView,
    mode: PortMode,
    runtime_dir: Seq<char>,
) -> Seq<Seq<char>> {
    let name = node.qual_of();
    seq![
        name,
        "  command  "@ + (match node.command_of() {
            Some(command) => command,
            None => ""@,
        }),
        "  port     "@ + (match fixed_of(service.ports_of(), mode, 0) {
            Some(port) => text::decimal_of(port as nat) + " (fixed)"@,
            None => "allocated on first real up"@,
        }),
        "  via      "@ + carried_by(service.ports_of()) + " (the process must read this variable)"@,
        "  health   "@ + (if service.health is Some {
            "probe declared"@
        } else {
            "none"@
        }),
        "  would write "@ + runtime_dir + "/run/"@ + run::sanitized(name) + ".pid, "@ + runtime_dir
            + "/log/"@ + run::sanitized(name) + ".log"@,
    ]
}

/// What the host services among the first `k` selected nodes come to.
pub open spec fn host_items(c: Ctx, selection: Seq<usize>, mode: PortMode, k: int) -> Seq<ItemView>
    decreases k,
{
    if k <= 0 {
        Seq::empty()
    } else {
        let before = host_items(c, selection, mode, k - 1);
        let node = c.node_views()[selection[k - 1] as int];
        match node.service_of() {
            Some(service) => if service.runtime_of() == Runtime::Compose {
                before
            } else {
                before.push(unit("service"@, node.qual_of())) + as_items(
                    host_lines(node, service, mode, c.runtime_dir@),
                )
            },
            None => before,
        }
    }
}

/// The section of the plan for host processes.
pub open spec fn host_section(c: Ctx, selection: Seq<usize>, mode: PortMode) -> Seq<ItemView> {
    let items = host_items(c, selection, mode, selection.len() as int);
    if items.len() > 0 {
        seq![line("\n# host processes"@)] + items
    } else {
        Seq::empty()
    }
}

/// What the jobs among the first `k` selected nodes come to.
pub open spec fn job_items(c: Ctx, selection: Seq<usize>, k: int) -> Seq<ItemView>
    decreases k,
{
    if k <= 0 {
        Seq::empty()
    } else {
        let before = job_items(c, selection, k - 1);
        let node = c.node_views()[selection[k - 1] as int];
        match node.job_of() {
            Some(job) => before.push(unit("job"@, node.qual_of())).push(
                line(node.qual_of() + "  "@ + job.run),
            ),
            None => before,
        }
    }
}

/// The section of the plan for jobs.
pub open spec fn job_section(c: Ctx, selection: Seq<usize>) -> Seq<ItemView> {
    let items = job_items(c, selection, selection.len() as int);
    if items.len() > 0 {
        seq![line("\n# jobs"@)] + items
    } else {
        Seq::empty()
    }
}

/// The first `k` lines of the start order.
pub open spec fn order_items(c: Ctx, selection: Seq<usize>, k: int) -> Seq<ItemView>
    decreases k,
{
    if k <= 0 {
        Seq::empty()
    } else {
        order_items(c, selection, k - 1).push(
            line(
                text::decimal_of(k as nat) + ". "@ + c.node_views()[selection[k
                    - 1] as int].qual_of(),
            ),
        )
    }
}

fn first_fixed(ports: &Vec<PortSpec>, mode: PortMode) -> (r: Option<u16>)
    ensures
        r == fixed_of(text::views(ports@), mode, 0),
{
    let ghost all = text::views(ports@);
    let mut k: usize = 0;
    while k < ports.len()
        invariant
            all == text::views(ports@),
            k <= ports@.len(),
            fixed_of(all, mode, 0) == fixed_of(all, mode, k as int),
        decreases ports@.len() - k,
    {
        assert(all[k as int] == ports@[k as int]@);
        let known = known_port(ports[k].require, ports[k].prefer, mode);
        if known.is_some() {
            return known;
        }
        k += 1;
    }
    None
}

fn carrier(ports: &Vec<PortSpec>) -> (r: String)
    ensures
        r@ == carried_by(text::views(ports@)),
{
    let ghost all = text::views(ports@);
    let mut k: usize = 0;
    while k < ports.len()
        invariant
            all == text::views(ports@),
            k <= ports@.len(),
            ctx::first_variable(all, 0) == ctx::first_variable(all, k as int),
        decreases ports@.len() - k,
    {
        assert(all[k as int] == ports@[k as int]@);
        if let Some(name) = &ports[k].env {
            return name.clone();
        }
        k += 1;
    }
    text::own("PORT")
}

fn show_host(node: &Node, service: &Service, mode: PortMode, runtime_dir: &str) -> (r: Vec<String>)
    requires
        node@.service_of() == Some(service@),
    ensures
        text::views(r@) == host_lines(node@, service@, mode, runtime_dir@),
{
    let name = node.qual();
    let command = match node.command() {
        Some(command) => command,
        None => text::own(""),
    };
    let declared = service.ports();
    let port = match first_fixed(&declared, mode) {
        Some(port) => text::concat(&text::decimal(port as u64), " (fixed)"),
        None => text::own("allocated on first real up"),
    };
    let mut via = text::own("  via      ");
    via.append(&carrier(&declared));
    via.append(" (the process must read this variable)");
    let file = run::sanitize(&name);
    let mut write = text::own("  would write ");
    write.append(runtime_dir);
    write.append("/run/");
    write.append(&file);
    write.append(".pid, ");
    write.append(runtime_dir);
    write.append("/log/");
    write.append(&file);
    write.append(".log");
    let mut out: Vec<String> = Vec::new();
    assert(text::views(out@) =~= Seq::<Seq<char>>::empty());
    text::add(&mut out, &name);
    text::add(&mut out, &text::concat("  command  ", &command));
    text::add(&mut out, &text::concat("  port     ", &port));
    text::add(&mut out, &via);
    text::add(
        &mut out,
        &text::concat(
            "  health   ",
            if service.health.is_some() {
                "probe declared"
            } else {
                "none"
            },
        ),
    );
    text::add(&mut out, &write);
    assert(text::views(out@) =~= host_lines(node@, service@, mode, runtime_dir@));
    out
}

fn append_items(out: &mut Vec<Item>, more: Vec<Item>)
    ensures
        text::views(final(out)@) == text::views(old(out)@) + text::views(more@),
{
    let ghost start = out@;
    let ghost list = more@;
    let mut more = more;
    out.append(&mut more);
    assert(text::views(out@) =~= text::views(start) + text::views(list));
}

fn add_hosts(out: &mut Vec<Item>, c: &Ctx, selection: &Vec<usize>, mode: PortMode)
    requires
        manifest::inside(selection@, c.nodes@.len()),
    ensures
        text::views(final(out)@) == text::views(old(out)@) + host_section(*c, selection@, mode),
{
    let ghost start = text::views(out@);
    let mut items: Vec<Item> = Vec::new();
    let mut k: usize = 0;
    assert(text::views(items@) =~= Seq::<ItemView>::empty());
    while k < selection.len()
        invariant
            manifest::inside(selection@, c.nodes@.len()),
            k <= selection@.len(),
            text::views(items@) == host_items(*c, selection@, mode, k as int),
        decreases selection@.len() - k,
    {
        let node = &c.nodes[selection[k]];
        assert(c.node_views()[selection@[k as int] as int] == node@);
        if let Some(service) = node.service() {
            let contained = match service.launched_by() {
                Runtime::Compose => true,
                Runtime::Host => false,
            };
            if !contained {
                add_unit(&mut items, "service", &node.qual());
                add_lines(&mut items, &show_host(node, service, mode, &c.runtime_dir));
            }
        }
        k += 1;
    }
    assert(start + Seq::<ItemView>::empty() =~= start);
    if items.len() > 0 {
        add_line(out, "\n# host processes");
        append_items(out, items);
        assert(text::views(out@) =~= start + host_section(*c, selection@, mode));
    }
}

fn add_jobs(out: &mut Vec<Item>, c: &Ctx, selection: &Vec<usize>)
    requires
        manifest::inside(selection@, c.nodes@.len()),
    ensures
        text::views(final(out)@) == text::views(old(out)@) + job_section(*c, selection@),
{
    let ghost start = text::views(out@);
    let mut items: Vec<Item> = Vec::new();
    let mut k: usize = 0;
    assert(text::views(items@) =~= Seq::<ItemView>::empty());
    while k < selection.len()
        invariant
            manifest::inside(selection@, c.nodes@.len()),
            k <= selection@.len(),
            text::views(items@) == job_items(*c, selection@, k as int),
        decreases selection@.len() - k,
    {
        let node = &c.nodes[selection[k]];
        assert(c.node_views()[selection@[k as int] as int] == node@);
        if let Some(job) = node.job() {
            let name = node.qual();
            add_unit(&mut items, "job", &name);
            let mut said = name;
            said.append("  ");
            said.append(&job.run);
            add_line(&mut items, &said);
        }
        k += 1;
    }
    assert(start + Seq::<ItemView>::empty() =~= start);
    if items.len() > 0 {
        add_line(out, "\n# jobs");
        append_items(out, items);
        assert(text::views(out@) =~= start + job_section(*c, selection@));
    }
}

fn add_order(out: &mut Vec<Item>, c: &Ctx, selection: &Vec<usize>)
    requires
        manifest::inside(selection@, c.nodes@.len()),
    ensures
        text::views(final(out)@) == text::views(old(out)@).push(line("\n# start order"@))
            + order_items(*c, selection@, selection@.len() as int),
{
    add_line(out, "\n# start order");
    let ghost start = text::views(out@);
    let mut k: usize = 0;
    assert(start + Seq::<ItemView>::empty() =~= start);
    while k < selection.len()
        invariant
            manifest::inside(selection@, c.nodes@.len()),
            k <= selection@.len(),
            text::views(out@) == start + order_items(*c, selection@, k as int),
        decreases selection@.len() - k,
    {
        let node = &c.nodes[selection[k]];
        assert(c.node_views()[selection@[k as int] as int] == node@);
        let mut said = text::decimal(k as u64 + 1);
        said.append(". ");
        said.append(&node.qual());
        add_line(out, &said);
        k += 1;
        assert(text::views(out@) =~= start + order_items(*c, selection@, k as int));
    }
}

// ---------------------------------------------------------------------------
// The plan
// ---------------------------------------------------------------------------

/// Where the ports of the plan come from.
pub open spec fn mode_note(mode: Option<PortMode>) -> Seq<char> {
    match mode {
        Some(PortMode::Declared) =>
            "declared: the ports the manifest declares, as the primary checkout uses them"@,
        Some(PortMode::Block) =>
            "generated: every port from this worktree's block, ignoring declared ports"@,
        None => "the ones this worktree defaults to"@,
    }
}

/// The head of the plan: whose it is.
pub open spec fn head_lines(c: Ctx, mode: Option<PortMode>) -> Seq<Seq<char>> {
    seq![
        "dry run: nothing below is executed or written\n\nworktree root  "@ + c.repo@.worktree_root,
        "repo key       "@ + c.repo@.key_of(),
        "worktree id    "@ + c.repo@.worktree_id_of() + " (slug "@ + c.slug@ + ")"@,
        "port range     "@ + text::decimal_of(c.config.port_range_start as nat) + ".."@
            + text::decimal_of(c.config.port_range_end as nat) + " stride "@ + text::decimal_of(
            c.config.port_stride as nat,
        ) + " (no ports are claimed in a dry run)"@,
        "state dir      "@ + c.paths.state_dir@,
        "runtime dir    "@ + c.runtime_dir@ + "/"@,
        "ports          "@ + mode_note(
            match mode {
                Some(_) => Some(ctx::preview_mode(c.repo@, mode)),
                None => None,
            },
        ),
        "\n# environment (ports marked <allocated> are chosen on the first real up)"@,
    ]
}

/// The first `k` variables of the plan.
pub open spec fn env_lines(vars: Seq<(Seq<char>, Seq<char>)>, k: int) -> Seq<Seq<char>>
    decreases k,
{
    if k <= 0 {
        Seq::empty()
    } else {
        env_lines(vars, k - 1).push(vars[k - 1].0 + "="@ + vars[k - 1].1)
    }
}

/// What `up` would do.
pub open spec fn plan_items(
    c: Ctx,
    selection: Seq<usize>,
    mode: Option<PortMode>,
    build: BuildMode,
    main_root: Seq<char>,
    presence: Seq<Vec<Presence>>,
    vars: Seq<(Seq<char>, Seq<char>)>,
) -> Seq<ItemView> {
    let requests = lists::gathered(selection, ctx::requests_at(c.node_views()));
    let targets = ctx::targets_of(
        c.loaded@,
        c.node_views(),
        selection,
        c.loaded@.apps.len() as int,
    );
    let shown = ctx::preview_mode(c.repo@, mode);
    let groups = groups_upto(c, selection, requests, shown, selection.len() as int);
    as_items(head_lines(c, mode)) + as_items(env_lines(vars, vars.len() as int))
        + bootstrap_section(c, main_root, targets, presence) + compose_section(
        groups,
        c.runtime_dir@,
        build,
    ) + host_section(c, selection, shown) + job_section(c, selection) + seq![line("\n# start order"@)]
        + order_items(c, selection, selection.len() as int) + after_section(c, targets) + seq![
        line("\n# would also"@),
        line("- write "@ + c.runtime_dir@ + "/env"@),
        line("- claim a port block under "@ + c.paths.state_dir@ + "/blocks"@),
    ]
}

fn show_head(c: &Ctx, mode: Option<PortMode>) -> (r: Vec<String>)
    ensures
        text::views(r@) == head_lines(*c, mode),
{
    let mut lines: Vec<String> = Vec::new();
    assert(text::views(lines@) =~= Seq::<Seq<char>>::empty());
    text::add(
        &mut lines,
        &text::concat(
            "dry run: nothing below is executed or written\n\nworktree root  ",
            &c.repo.worktree_root,
        ),
    );
    text::add(&mut lines, &text::concat("repo key       ", &c.repo.key()));
    let mut id = text::own("worktree id    ");
    id.append(&c.repo.worktree_id());
    id.append(" (slug ");
    id.append(&c.slug);
    id.append(")");
    text::add(&mut lines, &id);
    let mut range = text::own("port range     ");
    range.append(&text::decimal(c.config.port_range_start as u64));
    range.append("..");
    range.append(&text::decimal(c.config.port_range_end as u64));
    range.append(" stride ");
    range.append(&text::decimal(c.config.port_stride as u64));
    range.append(" (no ports are claimed in a dry run)");
    text::add(&mut lines, &range);
    text::add(&mut lines, &text::concat("state dir      ", &c.paths.state_dir));
    let mut dir = text::own("runtime dir    ");
    dir.append(&c.runtime_dir);
    dir.append("/");
    text::add(&mut lines, &dir);
    let asked = match mode {
        Some(_) => Some(c.preview_ports_mode(mode)),
        None => None,
    };
    text::add(
        &mut lines,
        &text::concat(
            "ports          ",
            match asked {
                Some(
                    PortMode::Declared,
                ) => "declared: the ports the manifest declares, as the primary checkout uses them",
                Some(
                    PortMode::Block,
                ) => "generated: every port from this worktree's block, ignoring declared ports",
                None => "the ones this worktree defaults to",
            },
        ),
    );
    text::add(
        &mut lines,
        "\n# environment (ports marked <allocated> are chosen on the first real up)",
    );
    assert(text::views(lines@) =~= head_lines(*c, mode));
    lines
}

fn add_env(out: &mut Vec<Item>, vars: &Dict<String>)
    ensures
        text::views(final(out)@) == text::views(old(out)@) + as_items(
            env_lines(vars@, vars@.len() as int),
        ),
{
    let n: usize = vars.len();
    let mut lines: Vec<String> = Vec::new();
    let mut k: usize = 0;
    assert(text::views(lines@) =~= Seq::<Seq<char>>::empty());
    while k < n
        invariant
            n == vars@.len(),
            k <= n,
            text::views(lines@) == env_lines(vars@, k as int),
        decreases n - k,
    {
        let mut said = vars.key_at(k).clone();
        said.append("=");
        said.append(vars.value_at(k));
        text::add(&mut lines, &said);
        k += 1;
    }
    add_lines(out, &lines);
}

/// The files that the selection syncs: for each manifest in turn, the copy in the primary checkout
/// and the place in this worktree.
pub fn sync_paths(c: &Ctx, selection: &Vec<usize>, main_root: &str) -> (r: Vec<Vec<(String, String)>>)
    requires
        manifest::inside(selection@, c.nodes@.len()),
    ensures
        ({
            let targets = ctx::targets_of(
                c.loaded@,
                c.node_views(),
                selection@,
                c.loaded@.apps.len() as int,
            );
            &&& r@.len() == targets.len()
            &&& forall|t: int|
                0 <= t < targets.len() ==> (#[trigger] r@[t])@.len() == targets[t].steps.sync.len()
                    && forall|i: int|
                    0 <= i < r@[t]@.len() ==> (#[trigger] r@[t]@[i]).0@ == sync_source(
                        targets[t].dir,
                        c.repo@.worktree_root,
                        main_root@,
                        targets[t].steps.sync[i],
                    ) && r@[t]@[i].1@ == paths::join_of(targets[t].dir, targets[t].steps.sync[i])
        }),
{
    let targets = c.bootstrap_targets(selection);
    let ghost all = text::views(targets@);
    let mut out: Vec<Vec<(String, String)>> = Vec::new();
    let mut t: usize = 0;
    while t < targets.len()
        invariant
            all == text::views(targets@),
            t <= targets@.len(),
            out@.len() == t,
            forall|u: int|
                0 <= u < t ==> (#[trigger] out@[u])@.len() == all[u].steps.sync.len() && forall|i: int|
                    0 <= i < out@[u]@.len() ==> (#[trigger] out@[u]@[i]).0@ == sync_source(
                        all[u].dir,
                        c.repo@.worktree_root,
                        main_root@,
                        all[u].steps.sync[i],
                    ) && out@[u]@[i].1@ == paths::join_of(all[u].dir, all[u].steps.sync[i]),
        decreases targets@.len() - t,
    {
        let target = &targets[t];
        assert(all[t as int] == target@);
        let source = bootstrap::source_dir(&target.dir, &c.repo.worktree_root, main_root);
        let mut list: Vec<(String, String)> = Vec::new();
        let mut i: usize = 0;
        while i < target.steps.sync.len()
            invariant
                source@ == bootstrap::counterpart(
                    target@.dir,
                    c.repo@.worktree_root,
                    main_root@,
                ),
                i <= target.steps.sync@.len(),
                list@.len() == i,
                forall|j: int|
                    0 <= j < i ==> (#[trigger] list@[j]).0@ == sync_source(
                        target@.dir,
                        c.repo@.worktree_root,
                        main_root@,
                        target@.steps.sync[j],
                    ) && list@[j].1@ == paths::join_of(target@.dir, target@.steps.sync[j]),
            decreases target.steps.sync@.len() - i,
        {
            let path = &target.steps.sync[i];
            assert(target@.steps.sync[i as int] == path@);
            list.push((paths::join(&source, path), paths::join(&target.dir, path)));
            i += 1;
        }
        out.push(list);
        t += 1;
    }
    out
}

/// A plan that stops where the environment cannot be composed: the head, which is shown all the
/// same, and why there is nothing after it.
#[derive(Debug)]
pub struct Refused {
    pub head: Vec<String>,
    pub reason: String,
}

/// What `up` would do, line by line. `main_root` is the primary checkout, and `presence` says for
/// each file of [`sync_paths`] where it is.
pub fn up(
    c: &Ctx,
    selection: &Vec<usize>,
    mode: Option<PortMode>,
    build: BuildMode,
    main_root: &str,
    presence: &Vec<Vec<Presence>>,
) -> (r: Result<Vec<String>, Refused>)
    requires
        manifest::inside(selection@, c.nodes@.len()),
    ensures
        ({
            let layers = c.layered(
                c.loaded@.current_app,
                ctx::preview_ports(c.node_views(), ctx::preview_mode(c.repo@, mode)),
                true,
            );
            match r {
                Ok(lines) => layers is Ok && text::views(lines@) == rendered(
                    plan_items(
                        *c,
                        selection@,
                        mode,
                        build,
                        main_root@,
                        presence@,
                        layers->Ok_0.vars,
                    ),
                ),
                Err(refused) => layers == Err::<env::Layers, Seq<char>>(refused.reason@)
                    && text::views(refused.head@) == head_lines(*c, mode),
            }
        }),
{
    let head = show_head(c, mode);
    let plan = match c.preview_env(mode) {
        Ok(plan) => plan,
        Err(reason) => {
            return Err(Refused { head, reason });
        },
    };
    let shown = c.preview_ports_mode(mode);
    let requests = c.port_requests(selection);
    let targets = c.bootstrap_targets(selection);
    let groups = plan_groups(c, selection, &requests, shown);
    let mut out: Vec<Item> = Vec::new();
    assert(text::views(out@) =~= Seq::<ItemView>::empty());
    add_lines(&mut out, &head);
    assert(text::views(out@) =~= as_items(head_lines(*c, mode)));
    add_env(&mut out, &plan.vars);
    add_bootstrap(&mut out, c, main_root, &targets, presence);
    add_compose(&mut out, &groups, &c.runtime_dir, build);
    add_hosts(&mut out, c, selection, shown);
    add_jobs(&mut out, c, selection);
    let ghost before = text::views(out@);
    add_order(&mut out, c, selection);
    assert(before.push(line("\n# start order"@)) =~= before + seq![line("\n# start order"@)]);
    add_after(&mut out, c, &targets);
    let ghost last = text::views(out@);
    add_line(&mut out, "\n# would also");
    let mut write = text::own("- write ");
    write.append(&c.runtime_dir);
    write.append("/env");
    add_line(&mut out, &write);
    let mut claim = text::own("- claim a port block under ");
    claim.append(&c.paths.state_dir);
    claim.append("/blocks");
    add_line(&mut out, &claim);
    assert(text::views(out@) =~= last + seq![
        line("\n# would also"@),
        line("- write "@ + c.runtime_dir@ + "/env"@),
        line("- claim a port block under "@ + c.paths.state_dir@ + "/blocks"@),
    ]);
    Ok(render(&out))
}

// ---------------------------------------------------------------------------
// Laws
// ---------------------------------------------------------------------------

proof fn appended_keeps(a: Seq<ItemView>, b: Seq<ItemView>, x: ItemView)
    ensures
        a.contains(x) ==> (a + b).contains(x),
        b.contains(x) ==> (a + b).contains(x),
{
    if a.contains(x) {
        let i = choose|i: int| 0 <= i < a.len() && a[i] == x;
        assert((a + b)[i] == x);
    }
    if b.contains(x) {
        let i = choose|i: int| 0 <= i < b.len() && b[i] == x;
        assert((a + b)[a.len() + i] == x);
    }
}

proof fn pushed_keeps(a: Seq<ItemView>, y: ItemView, x: ItemView)
    ensures
        a.contains(x) || x == y ==> a.push(y).contains(x),
{
    if a.contains(x) {
        let i = choose|i: int| 0 <= i < a.len() && a[i] == x;
        assert(a.push(y)[i] == x);
    }
    assert(a.push(y)[a.len() as int] == y);
}

/// Whether a node is a service that runs on the host.
spec fn on_the_host(node: NodeView) -> bool {
    node.kind matches NodeKindView::Service(s) && (s.runtime == Some(Runtime::Host) || (s.runtime
        is None && s.compose is None))
}

proof fn hosts_are_shown(c: Ctx, selection: Seq<usize>, mode: PortMode, k: int, i: int)
    requires
        0 <= i < k <= selection.len(),
        on_the_host(c.node_views()[selection[i] as int]),
    ensures
        ({
            let node = c.node_views()[selection[i] as int];
            let items = host_items(c, selection, mode, k);
            &&& items.contains(unit("service"@, node.qual_of()))
            &&& node.command_of() matches Some(command) ==> items.contains(
                line("  command  "@ + command),
            )
        }),
    decreases k,
{
    let node = c.node_views()[selection[i] as int];
    let before = host_items(c, selection, mode, k - 1);
    let last = c.node_views()[selection[k - 1] as int];
    let header = unit("service"@, node.qual_of());
    let ran = line(
        "  command  "@ + (match node.command_of() {
            Some(command) => command,
            None => ""@,
        }),
    );
    if i < k - 1 {
        hosts_are_shown(c, selection, mode, k - 1, i);
        if let Some(service) = last.service_of() {
            if service.runtime_of() != Runtime::Compose {
                let own = unit("service"@, last.qual_of());
                let more = as_items(host_lines(last, service, mode, c.runtime_dir@));
                pushed_keeps(before, own, header);
                appended_keeps(before.push(own), more, header);
                if node.command_of() is Some {
                    pushed_keeps(before, own, ran);
                    appended_keeps(before.push(own), more, ran);
                }
            }
        }
    } else {
        let service = node.service_of().unwrap();
        let more = as_items(host_lines(node, service, mode, c.runtime_dir@));
        pushed_keeps(before, header, header);
        appended_keeps(before.push(header), more, header);
        assert(more[1] == ran);
        assert(more.contains(ran));
        appended_keeps(before.push(header), more, ran);
    }
}

proof fn jobs_are_shown(c: Ctx, selection: Seq<usize>, k: int, i: int)
    requires
        0 <= i < k <= selection.len(),
        c.node_views()[selection[i] as int].kind is Job,
    ensures
        ({
            let node = c.node_views()[selection[i] as int];
            let items = job_items(c, selection, k);
            &&& items.contains(unit("job"@, node.qual_of()))
            &&& items.contains(line(node.qual_of() + "  "@ + node.kind->Job_0.run))
        }),
    decreases k,
{
    let node = c.node_views()[selection[i] as int];
    let before = job_items(c, selection, k - 1);
    let last = c.node_views()[selection[k - 1] as int];
    let header = unit("job"@, node.qual_of());
    let ran = line(node.qual_of() + "  "@ + node.kind->Job_0.run);
    if i < k - 1 {
        jobs_are_shown(c, selection, k - 1, i);
    }
    if let Some(job) = last.job_of() {
        let own = unit("job"@, last.qual_of());
        let second = line(last.qual_of() + "  "@ + job.run);
        pushed_keeps(before, own, header);
        pushed_keeps(before.push(own), second, header);
        pushed_keeps(before, own, ran);
        pushed_keeps(before.push(own), second, ran);
    }
}

proof fn order_is_shown(c: Ctx, selection: Seq<usize>, k: int, i: int)
    requires
        0 <= i < k <= selection.len(),
    ensures
        order_items(c, selection, k).len() == k,
        order_items(c, selection, k)[i] == line(
            text::decimal_of((i + 1) as nat) + ". "@ + c.node_views()[selection[i] as int].qual_of(),
        ),
    decreases k,
{
    reveal_with_fuel(order_items, 2);
    if i < k - 1 {
        order_is_shown(c, selection, k - 1, i);
    } else if k > 1 {
        order_is_shown(c, selection, k - 1, 0);
    }
}

/// What is planned for a compose service.
spec fn planned_for(node: NodeView, requests: Seq<PortRequestView>, mode: PortMode) -> PlannedView {
    let name = node.kind->Service_0.compose.unwrap().service;
    PlannedView { name, lines: service_lines(node, name, requests, mode) }
}

/// Whether a list of planned services is there under a name, and holds one.
spec fn is_planned(
    groups: Seq<(Seq<char>, Seq<PlannedView>)>,
    key: Seq<char>,
    planned: PlannedView,
) -> bool {
    dict::lookup(groups, key) is Some && dict::lookup(groups, key).unwrap().contains(planned)
}

proof fn groups_hold_their_services(
    c: Ctx,
    selection: Seq<usize>,
    requests: Seq<PortRequestView>,
    mode: PortMode,
    k: int,
    i: int,
)
    requires
        0 <= i < k <= selection.len(),
        c.node_views()[selection[i] as int].kind is Service,
        c.node_views()[selection[i] as int].kind->Service_0.runtime_of() == Runtime::Compose,
        c.node_views()[selection[i] as int].kind->Service_0.compose is Some,
    ensures
        is_planned(
            groups_upto(c, selection, requests, mode, k),
            group_name(
                c,
                c.node_views()[selection[i] as int],
                c.node_views()[selection[i] as int].kind->Service_0.compose.unwrap().file,
            ),
            planned_for(c.node_views()[selection[i] as int], requests, mode),
        ),
    decreases k,
{
    let node = c.node_views()[selection[i] as int];
    let reference = node.kind->Service_0.compose.unwrap();
    let key = group_name(c, node, reference.file);
    let wanted = planned_for(node, requests, mode);
    let before = groups_upto(c, selection, requests, mode, k - 1);
    let now = groups_upto(c, selection, requests, mode, k);
    let last = c.node_views()[selection[k - 1] as int];
    if i < k - 1 {
        groups_hold_their_services(c, selection, requests, mode, k - 1, i);
    }
    if last.kind is Service && last.kind->Service_0.runtime_of() == Runtime::Compose
        && last.kind->Service_0.compose is Some {
        let own = last.kind->Service_0.compose.unwrap();
        let name = group_name(c, last, own.file);
        let list = match dict::lookup(before, name) {
            Some(list) => list,
            None => Seq::empty(),
        };
        let planned = planned_for(last, requests, mode);
        let all = list.push(planned);
        assert(now == dict::put(before, name, all));
        dict::put_then_lookup(before, name, all, key);
        assert(all[list.len() as int] == planned);
        if i < k - 1 && name == key {
            let j = choose|j: int| 0 <= j < list.len() && list[j] == wanted;
            assert(all[j] == wanted);
        }
    } else {
        assert(now == before);
    }
}

/// A dry run leaves out nothing that a real run would start: it shows the command of every service on
/// the host and of every job that is selected, each compose service in its own file and project, and
/// the order that they start in, with the number of each place.
pub proof fn dry_runs_show_everything_selected(
    c: Ctx,
    selection: Seq<usize>,
    mode: Option<PortMode>,
    build: BuildMode,
    main_root: Seq<char>,
    presence: Seq<Vec<Presence>>,
    vars: Seq<(Seq<char>, Seq<char>)>,
    i: int,
)
    requires
        0 <= i < selection.len(),
    ensures
        ({
            let node = c.node_views()[selection[i] as int];
            let name = match node.app {
                Some(app) => app + ":"@ + node.id,
                None => node.id,
            };
            let items = plan_items(c, selection, mode, build, main_root, presence, vars);
            &&& items.contains(ItemView::Line(text::decimal_of((i + 1) as nat) + ". "@ + name))
            &&& node.kind matches NodeKindView::Job(job) ==> items.contains(
                ItemView::Unit { phase: "job"@, subject: name },
            ) && items.contains(ItemView::Line(name + "  "@ + job.run))
            &&& node.kind matches NodeKindView::Service(s) ==> ((s.runtime == Some(Runtime::Host)
                || (s.runtime is None && s.compose is None)) ==> items.contains(
                ItemView::Unit { phase: "service"@, subject: name },
            ) && (s.target is None ==> (s.command matches Some(command) ==> items.contains(
                ItemView::Line("  command  "@ + command),
            ))) && (s.target matches Some(target) ==> items.contains(
                ItemView::Line("  command  "@ + target.command_of()),
            )))
        }),
{
    let node = c.node_views()[selection[i] as int];
    let n = selection.len() as int;
    let requests = lists::gathered(selection, ctx::requests_at(c.node_views()));
    let targets = ctx::targets_of(
        c.loaded@,
        c.node_views(),
        selection,
        c.loaded@.apps.len() as int,
    );
    let shown = ctx::preview_mode(c.repo@, mode);
    let groups = groups_upto(c, selection, requests, shown, n);
    let p1 = as_items(head_lines(c, mode)) + as_items(env_lines(vars, vars.len() as int))
        + bootstrap_section(c, main_root, targets, presence) + compose_section(
        groups,
        c.runtime_dir@,
        build,
    );
    let p2 = host_section(c, selection, shown);
    let p3 = job_section(c, selection);
    let p4 = seq![line("\n# start order"@)];
    let p5 = order_items(c, selection, n);
    let p6 = after_section(c, targets);
    let p7 = seq![
        line("\n# would also"@),
        line("- write "@ + c.runtime_dir@ + "/env"@),
        line("- claim a port block under "@ + c.paths.state_dir@ + "/blocks"@),
    ];
    order_is_shown(c, selection, n, i);
    let placed = p5[i];
    assert(p5.contains(placed));
    appended_keeps(p1 + p2 + p3 + p4, p5, placed);
    appended_keeps(p1 + p2 + p3 + p4 + p5, p6, placed);
    appended_keeps(p1 + p2 + p3 + p4 + p5 + p6, p7, placed);
    assert forall|x: ItemView| p2.contains(x) || p3.contains(x) implies #[trigger] (p1 + p2 + p3 + p4
        + p5 + p6 + p7).contains(x) by {
        appended_keeps(p1, p2, x);
        appended_keeps(p1 + p2, p3, x);
        appended_keeps(p1 + p2 + p3, p4, x);
        appended_keeps(p1 + p2 + p3 + p4, p5, x);
        appended_keeps(p1 + p2 + p3 + p4 + p5, p6, x);
        appended_keeps(p1 + p2 + p3 + p4 + p5 + p6, p7, x);
    }
    if node.kind is Job {
        jobs_are_shown(c, selection, n, i);
        let items = job_items(c, selection, n);
        let header = seq![line("\n# jobs"@)];
        let job = node.kind->Job_0;
        appended_keeps(header, items, unit("job"@, node.qual_of()));
        appended_keeps(header, items, line(node.qual_of() + "  "@ + job.run));
        assert(items.contains(unit("job"@, node.qual_of())));
        assert(items.len() > 0);
    }
    if on_the_host(node) {
        hosts_are_shown(c, selection, shown, n, i);
        let items = host_items(c, selection, shown, n);
        let header = seq![line("\n# host processes"@)];
        appended_keeps(header, items, unit("service"@, node.qual_of()));
        assert(items.contains(unit("service"@, node.qual_of())));
        assert(items.len() > 0);
        if let Some(command) = node.command_of() {
            appended_keeps(header, items, line("  command  "@ + command));
        }
    }
}

/// A dry run shows each selected compose service in the group of its own file and project.
pub proof fn dry_runs_group_compose_services(
    c: Ctx,
    selection: Seq<usize>,
    requests: Seq<PortRequestView>,
    mode: PortMode,
    i: int,
) -> (at: int)
    requires
        0 <= i < selection.len(),
        c.node_views()[selection[i] as int].kind is Service,
        c.node_views()[selection[i] as int].kind->Service_0.runtime_of() == Runtime::Compose,
        c.node_views()[selection[i] as int].kind->Service_0.compose is Some,
    ensures
        ({
            let node = c.node_views()[selection[i] as int];
            let reference = node.kind->Service_0.compose.unwrap();
            &&& dict::lookup(
                groups_upto(c, selection, requests, mode, selection.len() as int),
                group_name(c, node, reference.file),
            ) matches Some(list)
            &&& 0 <= at < list.len()
            &&& list[at].name == reference.service
        }),
{
    groups_hold_their_services(c, selection, requests, mode, selection.len() as int, i);
    let node = c.node_views()[selection[i] as int];
    let reference = node.kind->Service_0.compose.unwrap();
    let list = dict::lookup(
        groups_upto(c, selection, requests, mode, selection.len() as int),
        group_name(c, node, reference.file),
    ).unwrap();
    let planned = planned_for(node, requests, mode);
    choose|j: int| 0 <= j < list.len() && list[j] == planned
}

proof fn wanted_is_fixed(requests: Seq<PortRequestView>, mode: PortMode, name: Seq<char>, k: int, i: int)
    requires
        0 <= k <= i < requests.len(),
        requests[i].name == name,
        forall|j: int| k <= j < i ==> (#[trigger] requests[j]).name != name,
    ensures
        wanted(requests, mode, name, k) == fixed_port(
            requests[i].require,
            requests[i].prefer,
            mode,
        ),
    decreases i - k,
{
    if k < i {
        wanted_is_fixed(requests, mode, name, k + 1, i);
    }
}

/// A dry run calls a port fixed exactly where a real run would not choose it: the number that it
/// insists on, or the one that it wants where declared numbers are used.
pub proof fn dry_runs_show_fixed_ports(
    requests: Seq<PortRequestView>,
    mode: PortMode,
    i: int,
    port: u16,
)
    requires
        0 <= i < requests.len(),
        forall|j: int| 0 <= j < i ==> (#[trigger] requests[j]).name != requests[i].name,
    ensures
        wanted(requests, mode, requests[i].name, 0) == Some(port) <==> requests[i].require == Some(
            port,
        ) || (requests[i].require is None && requests[i].prefer == Some(port) && mode
            == PortMode::Declared),
{
    wanted_is_fixed(requests, mode, requests[i].name, 0, i);
}

} // verus!
