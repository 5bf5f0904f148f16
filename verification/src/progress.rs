//! Where `up` is in its plan: a numbered header per step, printed before the step's work, and one
//! status line for a step that blocks — on a terminal only, so a log file or a test sees the plain
//! form.

use crate::text;
use vstd::prelude::*;

verus! {

/// One step of the plan `up` is about to execute.
#[derive(Debug)]
pub struct Unit {
    pub phase: String,
    pub subject: String,
}

impl Unit {
    pub fn new(phase: &str, subject: &str) -> (r: Self)
        ensures
            r.phase@ == phase@,
            r.subject@ == subject@,
    {
        Unit { phase: text::own(phase), subject: text::own(subject) }
    }
}

/// A plan, and how far it has come.
#[derive(Debug)]
pub struct Progress {
    pub units: Vec<Unit>,
    pub next: usize,
    /// Whether output goes to a terminal: the elapsed suffix and the live status line exist only
    /// there.
    pub live: bool,
    pub quiet: bool,
    /// Whether nothing at all is printed.
    pub silent: bool,
}

/// The header of the step at `index`.
pub open spec fn header(units: Seq<Unit>, index: int) -> Seq<char> {
    if 0 <= index < units.len() {
        "["@ + text::decimal_of((index + 1) as nat) + "/"@ + text::decimal_of(units.len()) + "] "@
            + units[index].phase@ + " · "@ + units[index].subject@
    } else {
        "["@ + text::decimal_of((index + 1) as nat) + "/?]"@ + " · "@
    }
}

impl Progress {
    pub fn new(units: Vec<Unit>, quiet: bool, live: bool) -> (r: Self)
        ensures
            r.units == units,
            r.next == 0,
            r.live == live,
            r.quiet == quiet,
            !r.silent,
    {
        Progress { units, next: 0, live, quiet, silent: false }
    }

    /// Nothing is printed.
    pub fn silent() -> (r: Self)
        ensures
            r.units@.len() == 0,
            r.next == 0,
            !r.live,
            r.quiet,
            r.silent,
    {
        Progress { units: Vec::new(), next: 0, live: false, quiet: true, silent: true }
    }

    pub fn total(&self) -> (r: usize)
        ensures
            r == self.units@.len(),
    {
        self.units.len()
    }

    /// The next step of the plan, labelled `[k/N] {phase} · {subject}`. What is printed before its
    /// work is its [`Step::header`].
    pub fn step(&mut self) -> (r: Step)
        requires
            old(self).next < usize::MAX,
        ensures
            final(self).next == old(self).next + 1,
            final(self).units == old(self).units,
            final(self).live == old(self).live,
            final(self).quiet == old(self).quiet,
            final(self).silent == old(self).silent,
            r.label@ == header(old(self).units@, old(self).next as int),
            r.live == old(self).live,
            r.quiet == old(self).quiet,
            r.silent == old(self).silent,
    {
        let index: usize = self.next;
        self.next = index + 1;
        let mut label = text::own("[");
        label.append(&text::decimal((index + 1) as u64));
        if index < self.units.len() {
            label.append("/");
            label.append(&text::decimal(self.units.len() as u64));
            label.append("] ");
            label.append(&self.units[index].phase);
            label.append(" · ");
            label.append(&self.units[index].subject);
        } else {
            label.append("/?]");
            label.append(" · ");
        }
        Step { label, live: self.live, quiet: self.quiet, silent: self.silent }
    }

    /// What is said once `up` is done, on a terminal: `{N} steps in 42.3s`. `elapsed` is the time it
    /// took, in seconds.
    pub fn finish(&self, elapsed: &str) -> (r: Option<String>)
        ensures
            text::opt_view(r) == (if !self.silent && self.live && self.units@.len() > 0 {
                Some(text::decimal_of(self.units@.len()) + " steps in "@ + elapsed@ + "s"@)
            } else {
                None
            }),
    {
        if !self.silent && self.live && self.units.len() > 0 {
            let mut r = text::decimal(self.units.len() as u64);
            r.append(" steps in ");
            r.append(elapsed);
            r.append("s");
            Some(r)
        } else {
            None
        }
    }
}

/// A step that is under way.
#[derive(Debug)]
pub struct Step {
    pub label: String,
    pub live: bool,
    pub quiet: bool,
    /// Whether nothing at all is printed.
    pub silent: bool,
}

impl Step {
    /// The line that is printed before the step's work: its label, and none where the plan is
    /// silent.
    pub fn header(&self) -> (r: Option<String>)
        ensures
            text::opt_view(r) == (if self.silent {
                None
            } else {
                Some(self.label@)
            }),
    {
        if self.silent {
            None
        } else {
            Some(self.label.clone())
        }
    }

    /// The per-step detail (`cached`, `linked`, `{qual}: starting container`), indented.
    /// Suppressed by `--quiet`.
    pub fn detail(&self, line: &str) -> (r: Option<String>)
        ensures
            text::opt_view(r) == (if self.quiet || self.silent {
                None
            } else {
                Some("     "@ + line@)
            }),
    {
        if self.quiet || self.silent {
            None
        } else {
            Some(text::concat("     ", line))
        }
    }

    /// The result of the step, indented, with the seconds it took on a terminal. Always printed,
    /// unless the plan is silent.
    pub fn result(&self, line: &str, elapsed: &str) -> (r: Option<String>)
        ensures
            text::opt_view(r) == (if self.silent {
                None
            } else if self.live {
                Some("     "@ + line@ + " "@ + elapsed@ + "s"@)
            } else {
                Some("     "@ + line@)
            }),
    {
        if self.silent {
            return None;
        }
        let mut r = text::concat("     ", line);
        if self.live {
            r.append(" ");
            r.append(elapsed);
            r.append("s");
        }
        Some(r)
    }

    /// A status line while the step blocks. Off a terminal there is none, so scripted output stays
    /// byte-stable.
    pub fn note(&self, what: &str) -> (r: Option<String>)
        ensures
            text::opt_view(r) == (if self.live && !self.silent {
                Some(self.label@ + " · "@ + what@)
            } else {
                None
            }),
    {
        if !self.live || self.silent {
            return None;
        }
        let mut r = self.label.clone();
        r.append(" · ");
        r.append(what);
        Some(r)
    }
}

/// A silent plan prints nothing, whatever its steps have to say: no header, no detail, no status
/// line, no result and no end.
pub proof fn silent_steps_stay_silent(p: Progress, step: Step)
    requires
        p.silent,
        step.silent,
    ensures
        forall|r: Option<String>| #[trigger] call_ensures(Step::header, (&step,), r) ==> r is None,
        forall|line: &str, r: Option<String>| #[trigger]
            call_ensures(Step::detail, (&step, line), r) ==> r is None,
        forall|line: &str, elapsed: &str, r: Option<String>| #[trigger]
            call_ensures(Step::result, (&step, line, elapsed), r) ==> r is None,
        forall|what: &str, r: Option<String>| #[trigger]
            call_ensures(Step::note, (&step, what), r) ==> r is None,
        forall|elapsed: &str, r: Option<String>| #[trigger]
            call_ensures(Progress::finish, (&p, elapsed), r) ==> r is None,
{
}

} // verus!
