//! `init`: turn a discovery report plus answers into manifests.
//!
//! This is a pure function. It never reads the repository again and never runs anything, so the same
//! report and answers always produce byte-identical output. The wizard and an agent both go through
//! here, which is what makes their results agree.

pub mod blocks;
pub mod laws;
pub mod wizard;

use crate::dict;
use crate::dict::Dict;
use crate::discover::extractors;
use crate::discover::ports;
use crate::discover::ports::PortLiteralView;
use crate::discover::report;
use crate::discover::report::{
    Answer, AnswerSet, AnswerSetView, AnswerView, AppFacts, AppFactsView, ComposeServiceFact,
    ComposeServiceFactView, Fact, FactData, FactDataView, FactKind, FactView, PortLiteralFact,
    PortLiteralFactView, Report, ReportView, Unknown, UnknownKind, UnknownView, ANSWERS_VERSION,
};
use crate::manifest::{
    Manifest, ManifestView, Reading, ReadingView, Service, ServiceView, Target, TargetView,
};
use crate::paths;
use crate::text;
use crate::text::Texts;
use crate::value;
use crate::value::Value;
use vstd::prelude::*;

verus! {

/// One manifest to write: everything that precedes its first service, then one block per service.
///
/// Kept apart rather than as one string so an existing manifest can be added to without being
/// rewritten: the blocks an update appends are exactly the ones the plan would write into a new
/// file.
#[derive(Debug)]
pub struct Generated {
    pub path: String,
    /// Everything before the first `[[services]]` table.
    pub header: String,
    /// One entry per service, in the order they are written.
    pub services: Vec<ServiceBlock>,
    /// The answers this manifest records, so a later run asks only about what the repository has
    /// since added. Empty for every manifest but the one at the repository root, which is where
    /// `init` was told to work.
    pub stored: Stored,
    /// True for the manifest that carries the record.
    pub records_answers: bool,
}

/// The contents of a [`Generated`].
#[verifier::ext_equal]
pub struct GeneratedView {
    pub path: Seq<char>,
    pub header: Seq<char>,
    pub services: Seq<ServiceBlockView>,
    pub stored: StoredView,
    pub records_answers: bool,
}

impl View for Generated {
    type V = GeneratedView;

    open spec fn view(&self) -> GeneratedView {
        GeneratedView {
            path: self.path@,
            header: self.header@,
            services: text::views(self.services@),
            stored: self.stored@,
            records_answers: self.records_answers,
        }
    }
}

impl Clone for Generated {
    fn clone(&self) -> (r: Self)
        ensures
            r@ == self@,
    {
        Generated {
            path: self.path.clone(),
            header: self.header.clone(),
            services: text::clone_all(&self.services),
            stored: self.stored.clone(),
            records_answers: self.records_answers,
        }
    }
}

/// One `[[services]]` table, with any comment lines that introduce it.
#[derive(Debug)]
pub struct ServiceBlock {
    pub id: String,
    /// The step it starts, in the `<runner>:<script>` form the run answers use. `None` for a
    /// compose service, which starts a container rather than a step.
    pub step: Option<String>,
    pub text: String,
}

/// The contents of a [`ServiceBlock`].
#[verifier::ext_equal]
pub struct ServiceBlockView {
    pub id: Seq<char>,
    pub step: Option<Seq<char>>,
    pub text: Seq<char>,
}

impl View for ServiceBlock {
    type V = ServiceBlockView;

    open spec fn view(&self) -> ServiceBlockView {
        ServiceBlockView {
            id: self.id@,
            step: text::opt_view(self.step),
            text: self.text@,
        }
    }
}

impl Clone for ServiceBlock {
    fn clone(&self) -> (r: Self)
        ensures
            r@ == self@,
    {
        ServiceBlock {
            id: self.id.clone(),
            step: text::clone_opt(&self.step),
            text: self.text.clone(),
        }
    }
}

/// What happens to one manifest.
#[derive(Debug)]
#[allow(inconsistent_fields)]
pub enum Applied {
    /// The file did not exist and is written whole.
    Created(String),
    /// The file existed and changes.
    Updated {
        path: String,
        added: Vec<String>,
        /// `None` when the record was already up to date. `Some` holds the answers that differed
        /// from the ones the manifest was built with: an additive update cannot apply those to a
        /// service already written, so the caller can say as much.
        recorded: Option<Texts>,
    },
    /// The file existed and already declared every service the answers imply.
    Unchanged(String),
}

/// The contents of a [`Applied`].
#[verifier::ext_equal]
#[allow(inconsistent_fields)]
pub enum AppliedView {
    Created(Seq<char>),
    Updated { path: Seq<char>, added: Seq<Seq<char>>, recorded: Option<Seq<Seq<char>>> },
    Unchanged(Seq<char>),
}

impl View for Applied {
    type V = AppliedView;

    open spec fn view(&self) -> AppliedView {
        match self {
            Applied::Created(f0) => AppliedView::Created(f0@),
            Applied::Updated { path, added, recorded } => AppliedView::Updated { path: path@, added: text::views(added@), recorded: text::opt_view(*recorded) },
            Applied::Unchanged(f0) => AppliedView::Unchanged(f0@),
        }
    }
}

impl Clone for Applied {
    fn clone(&self) -> (r: Self)
        ensures
            r@ == self@,
    {
        match self {
            Applied::Created(f0) => Applied::Created(f0.clone()),
            Applied::Updated { path, added, recorded } => Applied::Updated { path: path.clone(), added: text::clone_texts(added), recorded: match recorded { Some(x) => Some(x.clone()), None => None } },
            Applied::Unchanged(f0) => Applied::Unchanged(f0.clone()),
        }
    }
}

/// What a manifest records: the answer to each question, and the options those answers passed over.
///
/// The options matter as much as the answers. A question that offers a choice of several things
/// (which apps are in the stack, which compose services are shared) is decided one option at a time,
/// so an option that was neither chosen nor turned down is one nobody has decided yet. Without this,
/// a service someone added to the compose file would be silently left unmanaged.
#[derive(Debug)]
pub struct Stored {
    pub answers: Dict<Answer>,
    pub declined: Dict<Texts>,
}

/// The contents of a [`Stored`].
#[verifier::ext_equal]
pub struct StoredView {
    pub answers: Seq<(Seq<char>, AnswerView)>,
    pub declined: Seq<(Seq<char>, Seq<Seq<char>>)>,
}

impl View for Stored {
    type V = StoredView;

    open spec fn view(&self) -> StoredView {
        StoredView {
            answers: self.answers@,
            declined: self.declined@,
        }
    }
}

impl Clone for Stored {
    fn clone(&self) -> (r: Self)
        ensures
            r@ == self@,
    {
        Stored {
            answers: self.answers.duplicate(),
            declined: self.declined.duplicate(),
        }
    }
}

/// An answer whose question no longer offers it.
#[derive(Debug)]
pub struct Dropped {
    pub id: String,
    pub answer: Answer,
}

/// The contents of a [`Dropped`].
#[verifier::ext_equal]
pub struct DroppedView {
    pub id: Seq<char>,
    pub answer: AnswerView,
}

impl View for Dropped {
    type V = DroppedView;

    open spec fn view(&self) -> DroppedView {
        DroppedView {
            id: self.id@,
            answer: self.answer@,
        }
    }
}

impl Clone for Dropped {
    fn clone(&self) -> (r: Self)
        ensures
            r@ == self@,
    {
        Dropped {
            id: self.id.clone(),
            answer: self.answer.clone(),
        }
    }
}

/// What a previous run recorded, sorted into what still answers its question and what has to be
/// asked again.
#[derive(Debug)]
pub struct Recorded {
    /// Every recorded answer this report still offers.
    pub answers: Dict<Answer>,
    /// The options those answers turned down when they were given, carried forward so a replayed
    /// question is not re-decided against today's options.
    pub declined: Dict<Texts>,
    /// The answers whose question now offers options they never decided (a compose service someone
    /// added, an app that appeared) with those options.
    pub reopened: Dict<Texts>,
    /// Answers this report no longer offers at all.
    pub dropped: Vec<Dropped>,
}

/// The contents of a [`Recorded`].
#[verifier::ext_equal]
pub struct RecordedView {
    pub answers: Seq<(Seq<char>, AnswerView)>,
    pub declined: Seq<(Seq<char>, Seq<Seq<char>>)>,
    pub reopened: Seq<(Seq<char>, Seq<Seq<char>>)>,
    pub dropped: Seq<DroppedView>,
}

impl View for Recorded {
    type V = RecordedView;

    open spec fn view(&self) -> RecordedView {
        RecordedView {
            answers: self.answers@,
            declined: self.declined@,
            reopened: self.reopened@,
            dropped: text::views(self.dropped@),
        }
    }
}

impl Clone for Recorded {
    fn clone(&self) -> (r: Self)
        ensures
            r@ == self@,
    {
        Recorded {
            answers: self.answers.duplicate(),
            declined: self.declined.duplicate(),
            reopened: self.reopened.duplicate(),
            dropped: text::clone_all(&self.dropped),
        }
    }
}

impl GeneratedView {
    /// The text of the first `k` service blocks, each after an empty line.
    pub open spec fn blocks(self, k: int) -> Seq<char>
        decreases k,
    {
        if k <= 0 {
            ""@
        } else {
            self.blocks(k - 1) + "\n"@ + self.services[k - 1].text
        }
    }

    /// The whole manifest.
    pub open spec fn whole(self) -> Seq<char> {
        self.header + self.blocks(self.services.len() as int)
    }
}

impl Generated {
    /// The whole manifest, as written when the file does not exist yet.
    pub fn contents(&self) -> (r: String)
        ensures
            r@ == self@.whole(),
    {
        let ghost all = self@;
        let mut out = self.header.clone();
        let mut k: usize = 0;
        proof {
            reveal_strlit("");
        }
        assert(self@.header + all.blocks(0) =~= self@.header);
        while k < self.services.len()
            invariant
                all == self@,
                k <= self.services@.len(),
                out@ == all.header + all.blocks(k as int),
            decreases self.services@.len() - k,
        {
            assert(all.services[k as int] == self.services@[k as int]@);
            out.append("\n");
            out.append(&self.services[k].text);
            k += 1;
            assert(out@ =~= all.header + all.blocks(k as int));
        }
        out
    }
}

impl AppliedView {
    pub open spec fn at(self) -> Seq<char> {
        match self {
            AppliedView::Created(path) => path,
            AppliedView::Unchanged(path) => path,
            AppliedView::Updated { path, .. } => path,
        }
    }
}

impl Applied {
    pub fn path(&self) -> (r: &str)
        ensures
            r@ == self@.at(),
    {
        match self {
            Applied::Created(path) => path.as_str(),
            Applied::Unchanged(path) => path.as_str(),
            Applied::Updated { path, .. } => path.as_str(),
        }
    }
}

impl Stored {
    pub fn is_empty(&self) -> (r: bool)
        ensures
            r == (self@.answers.len() == 0),
    {
        self.answers.len() == 0
    }
}

impl StoredView {
    /// No record.
    pub open spec fn none() -> StoredView {
        StoredView { answers: Seq::empty(), declined: Seq::empty() }
    }
}

/// No record.
pub fn nothing_stored() -> (r: Stored)
    ensures
        r@ == StoredView::none(),
{
    Stored { answers: Dict::new(), declined: Dict::new() }
}

// ---------------------------------------------------------------------------
// Questions and answers
// ---------------------------------------------------------------------------

/// The items among the first `k`, without the space around them, that are not empty.
pub open spec fn nonempty_items(items: Seq<Seq<char>>, k: int) -> Seq<Seq<char>>
    decreases k,
{
    if k <= 0 {
        Seq::empty()
    } else {
        let item = text::trim_of(items[k - 1]);
        if item.len() == 0 {
            nonempty_items(items, k - 1)
        } else {
            nonempty_items(items, k - 1).push(item)
        }
    }
}

/// The items of a comma-separated list.
pub open spec fn list_items(s: Seq<char>) -> Seq<Seq<char>> {
    let items = text::split_of(s, ',');
    nonempty_items(items, items.len() as int)
}

impl UnknownView {
    /// The options a set question takes by default: those it declares, or all of them.
    pub open spec fn chosen_by_default(self) -> Seq<Seq<char>> {
        match self.default {
            Some(value) => list_items(value),
            None => self.options,
        }
    }

    /// Whether the question still offers an answer.
    pub open spec fn offers(self, answer: AnswerView) -> bool {
        match self.kind {
            UnknownKind::Choice => match answer.one() {
                Some(value) => self.options.contains(value),
                None => false,
            },
            UnknownKind::MultiChoice => forall|i: int|
                0 <= i < answer.many().len() ==> self.options.contains(#[trigger] answer.many()[i]),
            UnknownKind::Bool => answer.flag() is Some,
            UnknownKind::Text => answer.one() is Some,
        }
    }

    /// The answer taken by default.
    pub open spec fn answered_by_default(self) -> AnswerView {
        match self.kind {
            UnknownKind::MultiChoice => AnswerView::Many(self.chosen_by_default()),
            UnknownKind::Bool => AnswerView::Flag(
                match self.default {
                    Some(value) => value == "true"@ || value == "yes"@,
                    None => false,
                },
            ),
            _ => AnswerView::One(
                match self.default {
                    Some(value) => value,
                    None => ""@,
                },
            ),
        }
    }
}

impl AnswerView {
    /// An answer as the default of its question.
    pub open spec fn as_default(self) -> Seq<char> {
        match self {
            AnswerView::One(value) => value,
            AnswerView::Many(values) => text::join_of(values, ","@),
            AnswerView::Flag(value) => if value {
                "true"@
            } else {
                "false"@
            },
        }
    }
}

pub(crate) fn split_list(s: &str) -> (r: Vec<String>)
    ensures
        text::views(r@) == list_items(s@),
{
    let items = text::split(s, ',');
    let ghost all = text::views(items@);
    let mut out: Vec<String> = Vec::new();
    let mut k: usize = 0;
    assert(text::views(out@) =~= Seq::<Seq<char>>::empty());
    while k < items.len()
        invariant
            all == text::views(items@),
            k <= items@.len(),
            text::views(out@) == nonempty_items(all, k as int),
        decreases items@.len() - k,
    {
        assert(all[k as int] == items@[k as int]@);
        let item = text::trim(&items[k]);
        if text::length(&item) > 0 {
            text::add(&mut out, &item);
        }
        k += 1;
    }
    out
}

impl Unknown {
    /// Multi-choice defaults. A declared default is authoritative, including an empty one; a
    /// question with no declared default falls back to every option. Used only by
    /// `--accept-defaults`, never by the interactive path.
    pub fn default_options(&self) -> (r: Vec<String>)
        ensures
            text::views(r@) == self@.chosen_by_default(),
    {
        match &self.default {
            Some(value) => split_list(value),
            None => text::clone_texts(&self.options),
        }
    }

    /// True when this answer is one the question still offers. A recorded answer that no longer
    /// fits is asked again rather than replayed.
    pub fn accepts(&self, answer: &Answer) -> (r: bool)
        ensures
            r == self@.offers(answer@),
    {
        match self.kind {
            UnknownKind::Choice => match answer.as_one() {
                Some(value) => text::among(&self.options, value),
                None => false,
            },
            UnknownKind::MultiChoice => {
                let values = answer.as_many();
                let ghost all = answer@.many();
                let mut i: usize = 0;
                while i < values.len()
                    invariant
                        all == answer@.many(),
                        all == text::views(values@),
                        i <= values@.len(),
                        self@.kind == UnknownKind::MultiChoice,
                        forall|k: int| 0 <= k < i ==> self@.options.contains(#[trigger] all[k]),
                    decreases values@.len() - i,
                {
                    assert(all[i as int] == values@[i as int]@);
                    if !text::among(&self.options, &values[i]) {
                        assert(!self@.options.contains(answer@.many()[i as int]));
                        return false;
                    }
                    i += 1;
                }
                true
            },
            UnknownKind::Bool => answer.as_flag().is_some(),
            UnknownKind::Text => answer.as_one().is_some(),
        }
    }

    /// The same question with a recorded answer as its default, so re-asking it shows what was
    /// chosen last time and keeping it is one keystroke.
    pub fn with_recorded(&self, recorded: Option<&Answer>) -> (r: Unknown)
        ensures
            r@ == (match recorded {
                Some(answer) => UnknownView { default: Some(answer@.as_default()), ..self@ },
                None => self@,
            }),
    {
        let mut question = self.clone();
        if let Some(answer) = recorded {
            question.default = Some(
                match answer {
                    Answer::One(value) => value.clone(),
                    Answer::Many(values) => text::join(values, ","),
                    Answer::Flag(value) => if *value {
                        text::own("true")
                    } else {
                        text::own("false")
                    },
                },
            );
        }
        question
    }
}

/// The answers that the first `k` questions take by default.
pub open spec fn defaults_upto(unknowns: Seq<UnknownView>, k: int) -> Seq<(Seq<char>, AnswerView)>
    decreases k,
{
    if k <= 0 {
        Seq::empty()
    } else {
        dict::put(
            defaults_upto(unknowns, k - 1),
            unknowns[k - 1].id,
            unknowns[k - 1].answered_by_default(),
        )
    }
}

/// The answer set implied by the report's defaults, for non-interactive use.
pub fn default_answers(report: &Report) -> (r: AnswerSet)
    ensures
        r@ == (AnswerSetView {
            answers_version: ANSWERS_VERSION,
            report_hash: report@.report_hash,
            answers: defaults_upto(report@.unknowns, report@.unknowns.len() as int),
        }),
{
    let ghost all = report@.unknowns;
    let mut answers: Dict<Answer> = Dict::new();
    let mut k: usize = 0;
    while k < report.unknowns.len()
        invariant
            all == report@.unknowns,
            k <= report.unknowns@.len(),
            answers@ == defaults_upto(all, k as int),
        decreases report.unknowns@.len() - k,
    {
        let unknown = &report.unknowns[k];
        assert(all[k as int] == unknown@);
        let answer = match unknown.kind {
            UnknownKind::MultiChoice => Answer::Many(unknown.default_options()),
            UnknownKind::Bool => Answer::Flag(
                match &unknown.default {
                    Some(value) => text::same(value, "true") || text::same(value, "yes"),
                    None => false,
                },
            ),
            _ => Answer::One(
                match &unknown.default {
                    Some(value) => value.clone(),
                    None => text::own(""),
                },
            ),
        };
        answers.insert(unknown.id.clone(), answer);
        k += 1;
    }
    AnswerSet {
        answers_version: ANSWERS_VERSION,
        report_hash: report.report_hash.clone(),
        answers,
    }
}

// ---------------------------------------------------------------------------
// The record
// ---------------------------------------------------------------------------

/// The options among the first `k` that are in neither list.
pub open spec fn left_over(
    options: Seq<Seq<char>>,
    chosen: Seq<Seq<char>>,
    declined: Seq<Seq<char>>,
    k: int,
) -> Seq<Seq<char>>
    decreases k,
{
    if k <= 0 {
        Seq::empty()
    } else if chosen.contains(options[k - 1]) || declined.contains(options[k - 1]) {
        left_over(options, chosen, declined, k - 1)
    } else {
        left_over(options, chosen, declined, k - 1).push(options[k - 1])
    }
}

fn remaining(options: &Vec<String>, chosen: &Vec<String>, declined: &Vec<String>) -> (r: Vec<String>)
    ensures
        text::views(r@) == left_over(
            text::views(options@),
            text::views(chosen@),
            text::views(declined@),
            options@.len() as int,
        ),
{
    let ghost all = text::views(options@);
    let ghost taken = text::views(chosen@);
    let ghost turned_down = text::views(declined@);
    let mut out: Vec<String> = Vec::new();
    let mut k: usize = 0;
    assert(text::views(out@) =~= Seq::<Seq<char>>::empty());
    while k < options.len()
        invariant
            all == text::views(options@),
            taken == text::views(chosen@),
            turned_down == text::views(declined@),
            k <= options@.len(),
            text::views(out@) == left_over(all, taken, turned_down, k as int),
        decreases options@.len() - k,
    {
        assert(all[k as int] == options@[k as int]@);
        if !text::among(chosen, &options[k]) && !text::among(declined, &options[k]) {
            text::add(&mut out, &options[k]);
        }
        k += 1;
    }
    out
}

/// The list under a key, empty where there is none.
pub open spec fn listed(entries: Seq<(Seq<char>, Seq<Seq<char>>)>, key: Seq<char>) -> Seq<Seq<char>> {
    match dict::lookup(entries, key) {
        Some(list) => list,
        None => Seq::empty(),
    }
}

fn list_under(entries: &Dict<Texts>, key: &str) -> (r: Vec<String>)
    ensures
        text::views(r@) == listed(entries@, key@),
{
    match entries.get(key) {
        Some(texts) => text::clone_texts(&texts.list),
        None => {
            let r: Vec<String> = Vec::new();
            assert(text::views(r@) =~= Seq::<Seq<char>>::empty());
            r
        },
    }
}

/// The options that the answer to a question passes over: in a question that was asked, those it
/// did not choose; in one that was replayed, those it turned down when it was given.
pub open spec fn passed_over(
    unknown: UnknownView,
    answer: AnswerView,
    recorded: Seq<(Seq<char>, Seq<Seq<char>>)>,
    asked: Seq<Seq<char>>,
) -> Seq<Seq<char>> {
    if asked.contains(unknown.id) {
        left_over(unknown.options, answer.many(), Seq::empty(), unknown.options.len() as int)
    } else {
        listed(recorded, unknown.id)
    }
}

/// The options that the answers to the first `k` questions pass over.
pub open spec fn declined_upto(
    unknowns: Seq<UnknownView>,
    answers: Seq<(Seq<char>, AnswerView)>,
    recorded: Seq<(Seq<char>, Seq<Seq<char>>)>,
    asked: Seq<Seq<char>>,
    k: int,
) -> Seq<(Seq<char>, Seq<Seq<char>>)>
    decreases k,
{
    if k <= 0 {
        Seq::empty()
    } else {
        let before = declined_upto(unknowns, answers, recorded, asked, k - 1);
        let unknown = unknowns[k - 1];
        match dict::lookup(answers, unknown.id) {
            Some(answer) => {
                let over = passed_over(unknown, answer, recorded, asked);
                if unknown.kind == UnknownKind::MultiChoice && over.len() > 0 {
                    dict::put(before, unknown.id, over)
                } else {
                    before
                }
            },
            None => before,
        }
    }
}

/// The record of a run: its answers, and the options each set question's answer passed over.
pub open spec fn record_of(
    unknowns: Seq<UnknownView>,
    answers: Seq<(Seq<char>, AnswerView)>,
    recorded: Seq<(Seq<char>, Seq<Seq<char>>)>,
    asked: Seq<Seq<char>>,
) -> StoredView {
    StoredView {
        answers,
        declined: declined_upto(unknowns, answers, recorded, asked, unknowns.len() as int),
    }
}

/// The record of a run: its answers, and the options each set question's answer passed over.
///
/// A question that offers several things is answered one option at a time, so what the answer
/// turned down is as much a part of the answer as what it chose. A question the previous run already
/// answered keeps what it turned down then: its answer was given against the options of that day,
/// and an option that has appeared since is one nobody has decided, which is exactly what reopens
/// the question. Recomputing it here would quietly mark the new option as declined and leave it out
/// of the manifest for good.
pub fn record(report: &Report, answers: &AnswerSet, recorded: &Recorded, asked: &Vec<String>) -> (r:
    Stored)
    ensures
        r@ == record_of(
            report@.unknowns,
            answers@.answers,
            recorded@.declined,
            text::views(asked@),
        ),
{
    let ghost all = report@.unknowns;
    let ghost given = answers@.answers;
    let ghost earlier = recorded@.declined;
    let ghost put = text::views(asked@);
    let mut declined: Dict<Texts> = Dict::new();
    let mut k: usize = 0;
    while k < report.unknowns.len()
        invariant
            all == report@.unknowns,
            given == answers@.answers,
            earlier == recorded@.declined,
            put == text::views(asked@),
            k <= report.unknowns@.len(),
            declined@ == declined_upto(all, given, earlier, put, k as int),
        decreases report.unknowns@.len() - k,
    {
        let unknown = &report.unknowns[k];
        assert(all[k as int] == unknown@);
        if let Some(answer) = answers.answers.get(&unknown.id) {
            let over = if text::among(asked, &unknown.id) {
                let none: Vec<String> = Vec::new();
                assert(text::views(none@) =~= Seq::<Seq<char>>::empty());
                remaining(&unknown.options, &answer.as_many(), &none)
            } else {
                list_under(&recorded.declined, &unknown.id)
            };
            let multi = match unknown.kind {
                UnknownKind::MultiChoice => true,
                _ => false,
            };
            if multi && over.len() > 0 {
                declined.insert(unknown.id.clone(), Texts { list: over });
            }
        }
        k += 1;
    }
    Stored { answers: answers.answers.duplicate(), declined }
}

/// The texts of a list, where every item is one.
pub open spec fn all_texts(items: Seq<Value>, k: int) -> Option<Seq<Seq<char>>>
    decreases k,
{
    if k <= 0 {
        Some(Seq::empty())
    } else {
        match (all_texts(items, k - 1), items[k - 1].text_of()) {
            (Some(before), Some(s)) => Some(before.push(s)),
            _ => None,
        }
    }
}

/// A recorded value as an answer.
pub open spec fn answer_in(value: Value) -> Option<AnswerView> {
    match value {
        Value::Text(s) => Some(AnswerView::One(s@)),
        Value::Bool(b) => Some(AnswerView::Flag(b)),
        Value::List(items) => match all_texts(items@, items@.len() as int) {
            Some(texts) => Some(AnswerView::Many(texts)),
            None => None,
        },
        _ => None,
    }
}

/// A recorded value as a list of options.
pub open spec fn options_in(value: Value) -> Option<Seq<Seq<char>>> {
    match value {
        Value::List(items) => all_texts(items@, items@.len() as int),
        _ => None,
    }
}

/// The answers among the first `k` entries.
pub open spec fn answers_upto(entries: Seq<(Value, Value)>, k: int) -> Seq<(Seq<char>, AnswerView)>
    decreases k,
{
    if k <= 0 {
        Seq::empty()
    } else {
        match (entries[k - 1].0.text_of(), answer_in(entries[k - 1].1)) {
            (Some(id), Some(answer)) => dict::put(answers_upto(entries, k - 1), id, answer),
            _ => answers_upto(entries, k - 1),
        }
    }
}

/// The lists of options among the first `k` entries.
pub open spec fn options_upto(entries: Seq<(Value, Value)>, k: int) -> Seq<
    (Seq<char>, Seq<Seq<char>>),
>
    decreases k,
{
    if k <= 0 {
        Seq::empty()
    } else {
        match (entries[k - 1].0.text_of(), options_in(entries[k - 1].1)) {
            (Some(id), Some(options)) => dict::put(options_upto(entries, k - 1), id, options),
            _ => options_upto(entries, k - 1),
        }
    }
}

/// What a document records.
pub open spec fn stored_in(document: Value) -> StoredView {
    let answers = document.entries_under("answers"@);
    let declined = document.entries_under("declined"@);
    StoredView {
        answers: answers_upto(answers, answers.len() as int),
        declined: options_upto(declined, declined.len() as int),
    }
}

/// What a manifest records; none where it is not TOML.
pub open spec fn stored_of(contents: Seq<char>) -> Option<StoredView> {
    match value::toml_value(contents) {
        Some(document) => Some(stored_in(document)),
        None => None,
    }
}

fn texts_of(items: &Vec<Value>) -> (r: Option<Vec<String>>)
    ensures
        match r {
            Some(list) => all_texts(items@, items@.len() as int) == Some(text::views(list@)),
            None => all_texts(items@, items@.len() as int) is None,
        },
{
    let mut out: Vec<String> = Vec::new();
    let mut k: usize = 0;
    assert(text::views(out@) =~= Seq::<Seq<char>>::empty());
    while k < items.len()
        invariant
            k <= items@.len(),
            all_texts(items@, k as int) == Some(text::views(out@)),
        decreases items@.len() - k,
    {
        match items[k].as_text() {
            Some(s) => {
                text::add(&mut out, s);
            },
            None => {
                proof {
                    no_texts_after(items@, k + 1, items@.len() as int);
                }
                return None;
            },
        }
        k += 1;
    }
    Some(out)
}

proof fn no_texts_after(items: Seq<Value>, k: int, n: int)
    requires
        k <= n,
        all_texts(items, k) is None,
    ensures
        all_texts(items, n) is None,
    decreases n - k,
{
    if k < n {
        assert(k > 0);
        no_texts_after(items, k + 1, n);
    }
}

fn answer_from_value(value: &Value) -> (r: Option<Answer>)
    ensures
        text::opt_view(r) == answer_in(*value),
{
    match value {
        Value::Text(s) => Some(Answer::One(s.clone())),
        Value::Bool(b) => Some(Answer::Flag(*b)),
        Value::List(items) => match texts_of(items) {
            Some(list) => Some(Answer::Many(list)),
            None => None,
        },
        _ => None,
    }
}

fn options_from_value(value: &Value) -> (r: Option<Texts>)
    ensures
        text::opt_view(r) == options_in(*value),
{
    match value {
        Value::List(items) => match texts_of(items) {
            Some(list) => Some(Texts { list }),
            None => None,
        },
        _ => None,
    }
}

/// What a document records. Anything that is not the shape the record is written in is left out, so
/// a hand-written line cannot put words in `init`'s mouth.
pub fn read_stored(document: &Value) -> (r: Stored)
    ensures
        r@ == stored_in(*document),
{
    let mut answers: Dict<Answer> = Dict::new();
    if let Some(table) = document.get("answers") {
        let n: usize = table.entry_count();
        let mut k: usize = 0;
        while k < n
            invariant
                n == table.entries_of().len(),
                k <= n,
                answers@ == answers_upto(table.entries_of(), k as int),
            decreases n - k,
        {
            if let Some(id) = table.key(k).as_text() {
                if let Some(answer) = answer_from_value(table.under(k)) {
                    answers.insert(id.clone(), answer);
                }
            }
            k += 1;
        }
    }
    let mut declined: Dict<Texts> = Dict::new();
    if let Some(table) = document.get("declined") {
        let n: usize = table.entry_count();
        let mut k: usize = 0;
        while k < n
            invariant
                n == table.entries_of().len(),
                k <= n,
                declined@ == options_upto(table.entries_of(), k as int),
            decreases n - k,
        {
            if let Some(id) = table.key(k).as_text() {
                if let Some(options) = options_from_value(table.under(k)) {
                    declined.insert(id.clone(), options);
                }
            }
            k += 1;
        }
    }
    Stored { answers, declined }
}

/// The answers a manifest records.
pub fn read_answers(contents: &str) -> (r: Result<Stored, String>)
    ensures
        match r {
            Ok(stored) => stored_of(contents@) == Some(stored@),
            Err(e) => stored_of(contents@) is None && e@ == "reading the recorded answers"@,
        },
{
    match value::parse_toml(contents) {
        Some(document) => Ok(read_stored(&document)),
        None => Err(text::own("reading the recorded answers")),
    }
}

/// The first question with this id, from `k` on.
pub open spec fn question_from(unknowns: Seq<UnknownView>, id: Seq<char>, k: int) -> Option<
    UnknownView,
>
    decreases unknowns.len() - k,
{
    if k < 0 || k >= unknowns.len() {
        None
    } else if unknowns[k].id == id {
        Some(unknowns[k])
    } else {
        question_from(unknowns, id, k + 1)
    }
}

/// The options that a question offers now and a recorded answer never decided. A set question is
/// decided one option at a time, so it is only answered while it offers nothing new.
pub open spec fn undecided(
    unknown: UnknownView,
    answer: AnswerView,
    declined: Seq<(Seq<char>, Seq<Seq<char>>)>,
    id: Seq<char>,
) -> Seq<Seq<char>> {
    if unknown.kind == UnknownKind::MultiChoice {
        left_over(
            unknown.options,
            answer.many(),
            listed(declined, id),
            unknown.options.len() as int,
        )
    } else {
        Seq::empty()
    }
}

impl RecordedView {
    /// Nothing was recorded.
    pub open spec fn none() -> RecordedView {
        RecordedView {
            answers: Seq::empty(),
            declined: Seq::empty(),
            reopened: Seq::empty(),
            dropped: Seq::empty(),
        }
    }

    /// Whether a question has been answered and nothing about it is new.
    pub open spec fn settles(self, id: Seq<char>) -> bool {
        dict::lookup(self.answers, id) is Some && dict::lookup(self.reopened, id) is None
    }

    /// What is known after one more recorded answer.
    pub open spec fn and(self, unknowns: Seq<UnknownView>, id: Seq<char>, answer: AnswerView) -> RecordedView {
        match question_from(unknowns, id, 0) {
            Some(unknown) => if unknown.offers(answer) {
                let open = undecided(unknown, answer, self.declined, id);
                RecordedView {
                    answers: dict::put(self.answers, id, answer),
                    reopened: if open.len() > 0 {
                        dict::put(self.reopened, id, open)
                    } else {
                        self.reopened
                    },
                    ..self
                }
            } else {
                RecordedView { dropped: self.dropped.push(DroppedView { id, answer }), ..self }
            },
            None => RecordedView { dropped: self.dropped.push(DroppedView { id, answer }), ..self },
        }
    }
}

/// What the first `k` answers of a record come to.
pub open spec fn sorted_upto(unknowns: Seq<UnknownView>, stored: StoredView, k: int) -> RecordedView
    decreases k,
{
    if k <= 0 {
        RecordedView { declined: stored.declined, ..RecordedView::none() }
    } else {
        sorted_upto(unknowns, stored, k - 1).and(
            unknowns,
            stored.answers[k - 1].0,
            stored.answers[k - 1].1,
        )
    }
}

/// A record, sorted into what still answers its question and what has to be asked again.
pub open spec fn sorted_record(unknowns: Seq<UnknownView>, stored: StoredView) -> RecordedView {
    sorted_upto(unknowns, stored, stored.answers.len() as int)
}

impl Recorded {
    /// True when this question has been answered and nothing about it is new.
    pub fn settled(&self, id: &str) -> (r: bool)
        ensures
            r == self@.settles(id@),
    {
        self.answers.contains(id) && !self.reopened.contains(id)
    }
}

/// Nothing was recorded.
pub fn nothing_recorded() -> (r: Recorded)
    ensures
        r@ == RecordedView::none(),
{
    let r = Recorded {
        answers: Dict::new(),
        declined: Dict::new(),
        reopened: Dict::new(),
        dropped: Vec::new(),
    };
    assert(r@.dropped =~= Seq::<DroppedView>::empty());
    r
}

fn find_question<'a>(report: &'a Report, id: &str) -> (r: Option<&'a Unknown>)
    ensures
        match r {
            Some(unknown) => question_from(report@.unknowns, id@, 0) == Some(unknown@),
            None => question_from(report@.unknowns, id@, 0) is None,
        },
{
    let ghost all = report@.unknowns;
    let mut k: usize = 0;
    while k < report.unknowns.len()
        invariant
            all == report@.unknowns,
            k <= report.unknowns@.len(),
            question_from(all, id@, 0) == question_from(all, id@, k as int),
        decreases report.unknowns@.len() - k,
    {
        assert(all[k as int] == report.unknowns@[k as int]@);
        if text::same(&report.unknowns[k].id, id) {
            return Some(&report.unknowns[k]);
        }
        k += 1;
    }
    None
}

fn add_recorded(recorded: &mut Recorded, report: &Report, id: &str, answer: &Answer)
    ensures
        final(recorded)@ == old(recorded)@.and(report@.unknowns, id@, answer@),
{
    broadcast use text::views_push;

    let question = find_question(report, id);
    if let Some(unknown) = question {
        if unknown.accepts(answer) {
            let multi = match unknown.kind {
                UnknownKind::MultiChoice => true,
                _ => false,
            };
            if multi {
                let open = remaining(
                    &unknown.options,
                    &answer.as_many(),
                    &list_under(&recorded.declined, id),
                );
                if open.len() > 0 {
                    recorded.reopened.insert(text::own(id), Texts { list: open });
                }
            }
            recorded.answers.insert(text::own(id), answer.clone());
            return;
        }
    }
    recorded.dropped.push(Dropped { id: text::own(id), answer: answer.clone() });
}

/// Sorts a record into what still answers its question and what has to be asked again.
pub fn sort_record(stored: &Stored, report: &Report) -> (r: Recorded)
    ensures
        r@ == sorted_record(report@.unknowns, stored@),
{
    let mut recorded = nothing_recorded();
    recorded.declined = stored.declined.duplicate();
    let n: usize = stored.answers.len();
    let mut k: usize = 0;
    while k < n
        invariant
            n == stored@.answers.len(),
            k <= n,
            recorded@ == sorted_upto(report@.unknowns, stored@, k as int),
        decreases n - k,
    {
        add_recorded(&mut recorded, report, stored.answers.key_at(k), stored.answers.value_at(k));
        k += 1;
    }
    recorded
}

/// The answers a previous run recorded in a manifest; nothing where there is no manifest.
pub fn recorded(contents: &Option<String>, report: &Report) -> (r: Result<Recorded, String>)
    ensures
        match contents {
            None => r matches Ok(found) && found@ == RecordedView::none(),
            Some(raw) => match stored_of(raw@) {
                Some(stored) => r matches Ok(found) && found@ == sorted_record(
                    report@.unknowns,
                    stored,
                ),
                None => r matches Err(e) && e@ == "reading the recorded answers"@,
            },
        },
{
    match contents {
        None => Ok(nothing_recorded()),
        Some(raw) => match read_answers(raw) {
            Ok(stored) => Ok(sort_record(&stored, report)),
            Err(e) => Err(e),
        },
    }
}

// ---------------------------------------------------------------------------
// Writing the record
// ---------------------------------------------------------------------------

/// The comment that explains the recorded answers.
pub const ANSWERS_COMMENT: &'static str =
    "# Recorded by `magictree init`; replayed so only new questions are asked.";

/// Text for a TOML basic string.
pub open spec fn escaped(value: Seq<char>) -> Seq<char> {
    text::replace_of(text::replace_of(value, '\\', "\\\\"@), '"', "\\\""@)
}

/// Text as a TOML basic string.
pub open spec fn quoted(value: Seq<char>) -> Seq<char> {
    "\""@ + escaped(value) + "\""@
}

/// The texts of a list as TOML basic strings.
pub open spec fn quoted_all(values: Seq<Seq<char>>) -> Seq<Seq<char>> {
    Seq::new(values.len(), |i: int| quoted(values[i]))
}

/// A list as a TOML array.
pub open spec fn array_of(values: Seq<Seq<char>>) -> Seq<char> {
    "["@ + text::join_of(quoted_all(values), ", "@) + "]"@
}

/// One answer as a TOML value: a choice, a list, or a flag.
pub open spec fn literal_of(answer: AnswerView) -> Seq<char> {
    match answer {
        AnswerView::One(value) => quoted(value),
        AnswerView::Many(values) => array_of(values),
        AnswerView::Flag(value) => if value {
            "true"@
        } else {
            "false"@
        },
    }
}

/// The first `k` answers as the entries of an inline table.
pub open spec fn answer_entries(entries: Seq<(Seq<char>, AnswerView)>, k: int) -> Seq<char>
    decreases k,
{
    if k <= 0 {
        ""@
    } else {
        answer_entries(entries, k - 1) + (if k > 1 {
            ","@
        } else {
            ""@
        }) + " "@ + quoted(entries[k - 1].0) + " = "@ + literal_of(entries[k - 1].1)
    }
}

/// The first `k` lists as the entries of an inline table.
pub open spec fn list_entries(entries: Seq<(Seq<char>, Seq<Seq<char>>)>, k: int) -> Seq<char>
    decreases k,
{
    if k <= 0 {
        ""@
    } else {
        list_entries(entries, k - 1) + (if k > 1 {
            ","@
        } else {
            ""@
        }) + " "@ + quoted(entries[k - 1].0) + " = "@ + array_of(entries[k - 1].1)
    }
}

/// A record as TOML, with the comment that explains it. Nothing where there is nothing to record.
pub open spec fn section_of(stored: StoredView) -> Option<Seq<char>> {
    if stored.answers.len() == 0 {
        None
    } else {
        Some(
            ANSWERS_COMMENT@ + "\n"@ + "answers = {"@ + answer_entries(
                stored.answers,
                stored.answers.len() as int,
            ) + " }\n"@ + (if stored.declined.len() > 0 {
                "declined = {"@ + list_entries(stored.declined, stored.declined.len() as int)
                    + " }\n"@
            } else {
                ""@
            }),
        )
    }
}

/// The start of a manifest: `version`, then the answers that produced it.
pub open spec fn head_of(stored: Option<StoredView>) -> Seq<char> {
    let section = match stored {
        Some(record) => section_of(record),
        None => None,
    };
    match section {
        Some(lines) => "version = 1\n"@ + "\n"@ + lines,
        None => "version = 1\n"@,
    }
}

fn escape_toml(value: &str) -> (r: String)
    ensures
        r@ == escaped(value@),
{
    text::replace(&text::replace(value, '\\', "\\\\"), '"', "\\\"")
}

fn quote(value: &str) -> (r: String)
    ensures
        r@ == quoted(value@),
{
    let mut out = text::own("\"");
    out.append(&escape_toml(value));
    out.append("\"");
    out
}

fn array(values: &Vec<String>) -> (r: String)
    ensures
        r@ == array_of(text::views(values@)),
{
    let ghost goal = quoted_all(text::views(values@));
    let mut items: Vec<String> = Vec::new();
    let mut i: usize = 0;
    assert(text::views(items@) =~= goal.take(0));
    while i < values.len()
        invariant
            goal == quoted_all(text::views(values@)),
            i <= values@.len(),
            text::views(items@) == goal.take(i as int),
        decreases values@.len() - i,
    {
        text::add(&mut items, &quote(&values[i]));
        i += 1;
        assert(text::views(items@) =~= goal.take(i as int));
    }
    assert(goal.take(i as int) =~= goal);
    let mut out = text::own("[");
    out.append(&text::join(&items, ", "));
    out.append("]");
    out
}

fn answer_literal(answer: &Answer) -> (r: String)
    ensures
        r@ == literal_of(answer@),
{
    match answer {
        Answer::One(value) => quote(value),
        Answer::Many(values) => array(values),
        Answer::Flag(value) => if *value {
            text::own("true")
        } else {
            text::own("false")
        },
    }
}

/// The answers as TOML, with the comment that explains them. `None` when there is nothing to record.
///
/// One line each, because an existing manifest is updated by replacing them: the record is `init`'s
/// own, and nothing else reads it.
fn answers_section(stored: &Stored) -> (r: Option<String>)
    ensures
        text::opt_view(r) == section_of(stored@),
{
    if stored.is_empty() {
        return None;
    }
    let mut answers = text::own("");
    let n: usize = stored.answers.len();
    let mut k: usize = 0;
    while k < n
        invariant
            n == stored@.answers.len(),
            k <= n,
            answers@ == answer_entries(stored@.answers, k as int),
        decreases n - k,
    {
        answers.append(
            if k > 0 {
                ","
            } else {
                ""
            },
        );
        answers.append(" ");
        answers.append(&quote(stored.answers.key_at(k)));
        answers.append(" = ");
        answers.append(&answer_literal(stored.answers.value_at(k)));
        k += 1;
    }
    let mut out = text::own(ANSWERS_COMMENT);
    out.append("\n");
    out.append("answers = {");
    out.append(&answers);
    out.append(" }\n");
    let m: usize = stored.declined.len();
    if m > 0 {
        let mut lists = text::own("");
        let mut i: usize = 0;
        while i < m
            invariant
                m == stored@.declined.len(),
                i <= m,
                lists@ == list_entries(stored@.declined, i as int),
            decreases m - i,
        {
            lists.append(
                if i > 0 {
                    ","
                } else {
                    ""
                },
            );
            lists.append(" ");
            lists.append(&quote(stored.declined.key_at(i)));
            lists.append(" = ");
            lists.append(&array(&stored.declined.value_at(i).list));
            i += 1;
        }
        let mut line = text::own("declined = {");
        line.append(&lists);
        line.append(" }\n");
        out.append(&line);
    } else {
        out.append("");
    }
    Some(out)
}

/// The start of a manifest: `version`, then the answers that produced it.
///
/// The answers have to sit here rather than with the services: a bare key belongs to the table above
/// it, so anything after `[app]` or `[bootstrap]` would end up inside that table.
fn manifest_head(stored: Option<&Stored>) -> (r: String)
    ensures
        r@ == head_of(
            match stored {
                Some(record) => Some(record@),
                None => None,
            },
        ),
{
    let section = match stored {
        Some(record) => answers_section(record),
        None => None,
    };
    let mut out = text::own("version = 1\n");
    if let Some(lines) = section {
        out.append("\n");
        out.append(&lines);
    }
    out
}

// ---------------------------------------------------------------------------
// Compose services
// ---------------------------------------------------------------------------

/// The comment that introduces the compose services a manifest manages.
pub const SHARED_SERVICES_COMMENT: &'static str =
    "# Shared infrastructure from the repository's compose file.";

/// Names that conventionally mark a one-shot initialiser rather than a server. `seed-server` is
/// deliberately not matched: it keeps running.
pub open spec fn initializer(name: Seq<char>) -> bool {
    text::ends_with_of(name, "-init"@) || name == "init"@ || text::starts_with_of(name, "init-"@)
        || name == "migrate"@ || text::starts_with_of(name, "migrate-"@) || text::ends_with_of(
        name,
        "-migrate"@,
    ) || name == "setup"@ || text::ends_with_of(name, "-setup"@)
}

/// A variable's name without what marks it as that of a port.
pub open spec fn unmarked(low: Seq<char>) -> Seq<char> {
    match text::strip_prefix_of(low, "wt_port_"@) {
        Some(rest) => rest,
        None => match text::strip_prefix_of(low, "port_"@) {
            Some(rest) => rest,
            None => match text::strip_suffix_of(low, "_port"@) {
                Some(rest) => rest,
                None => low,
            },
        },
    }
}

/// A text in which everything but ASCII letters and digits is an underscore.
pub open spec fn cleaned(s: Seq<char>) -> Seq<char> {
    Seq::new(
        s.len(),
        |i: int|
            if text::alnum(s[i]) {
                s[i]
            } else {
                '_'
            },
    )
}

/// Whether a text is made of underscores alone.
pub open spec fn only_underscores(s: Seq<char>) -> bool {
    forall|i: int| 0 <= i < s.len() ==> #[trigger] s[i] == '_'
}

/// A readable port name derived from the variable the compose file uses, so multi-port services get
/// names like `minio` and `minio_console` rather than positional ones.
pub open spec fn port_name_of(variable: Option<Seq<char>>, position: nat) -> Seq<char> {
    match variable {
        None => "port"@ + text::decimal_of(position),
        Some(name) => {
            let clean = cleaned(unmarked(text::lower_of(name)));
            if only_underscores(clean) {
                "port"@ + text::decimal_of(position)
            } else {
                clean
            }
        },
    }
}

/// The mappings among the first `k` whose container port is known: that port, and the variable on
/// the host side.
pub open spec fn mappings_upto(ports: Seq<Seq<char>>, k: int) -> Seq<(u16, Option<Seq<char>>)>
    decreases k,
{
    if k <= 0 {
        Seq::empty()
    } else {
        match extractors::target_of(ports[k - 1]) {
            Some(target) => mappings_upto(ports, k - 1).push(
                (target, extractors::host_variable_of(ports[k - 1])),
            ),
            None => mappings_upto(ports, k - 1),
        }
    }
}

/// The variable of a port declaration.
pub open spec fn env_part(variable: Option<Seq<char>>) -> Seq<char> {
    match variable {
        Some(name) => ", env = \""@ + name + "\" }"@,
        None => " }"@,
    }
}

/// The first `k` lines of a list of ports.
pub open spec fn port_lines(mappings: Seq<(u16, Option<Seq<char>>)>, k: int) -> Seq<char>
    decreases k,
{
    if k <= 0 {
        ""@
    } else {
        port_lines(mappings, k - 1) + "  { name = \""@ + port_name_of(
            mappings[k - 1].1,
            k as nat,
        ) + "\", target = "@ + text::decimal_of(mappings[k - 1].0 as nat) + env_part(
            mappings[k - 1].1,
        ) + ",\n"@
    }
}

/// How an exposed service declares its ports. The compose file derives its own URLs from the same
/// variables that set the published port (`${WT_PORT_ZITADEL:-8080}`). Publishing on an allocated
/// port without telling compose makes those URLs point at the default, so the variable is part of
/// the port declaration.
pub open spec fn ports_declared(mappings: Seq<(u16, Option<Seq<char>>)>) -> Seq<char> {
    if mappings.len() == 1 {
        "port = { target = "@ + text::decimal_of(mappings[0].0 as nat) + env_part(mappings[0].1)
            + "\n"@
    } else {
        "ports = [\n"@ + port_lines(mappings, mappings.len() as int) + "]\n"@
    }
}

/// The services of every compose file, among the first `k` facts.
pub open spec fn services_upto(facts: Seq<FactView>, k: int) -> Seq<ComposeServiceFactView>
    decreases k,
{
    if k <= 0 {
        Seq::empty()
    } else {
        match facts[k - 1].data {
            FactDataView::Compose { services, .. } => services_upto(facts, k - 1) + services,
            _ => services_upto(facts, k - 1),
        }
    }
}

/// The first service of this name, from `k` on.
pub open spec fn service_from(services: Seq<ComposeServiceFactView>, name: Seq<char>, k: int) -> Option<
    ComposeServiceFactView,
>
    decreases services.len() - k,
{
    if k < 0 || k >= services.len() {
        None
    } else if services[k].name == name {
        Some(services[k])
    } else {
        service_from(services, name, k + 1)
    }
}

/// The compose file that declares a service, from fact `k` on.
pub open spec fn file_from(facts: Seq<FactView>, name: Seq<char>, k: int) -> Seq<char>
    decreases facts.len() - k,
{
    if k < 0 || k >= facts.len() {
        "compose.yaml"@
    } else {
        match facts[k].data {
            FactDataView::Compose { services, .. } => if service_from(services, name, 0) is Some {
                facts[k].source
            } else {
                file_from(facts, name, k + 1)
            },
            _ => file_from(facts, name, k + 1),
        }
    }
}

/// The part of a service block that says how it is reached.
pub open spec fn exposure_of(name: Seq<char>, file: Seq<char>, ports: Seq<Seq<char>>, exposed: bool) -> Result<
    Seq<char>,
    Seq<char>,
> {
    let mappings = mappings_upto(ports, ports.len() as int);
    if !exposed {
        Ok("expose = \"none\"\n"@)
    } else if mappings.len() == 0 {
        Err(
            "compose service '"@ + name + "' has no published port in "@ + file
                + ", so the container-side port is unknown\nadd `ports:` to that service in the compose file, or leave it out of compose.expose"@,
        )
    } else {
        Ok(ports_declared(mappings))
    }
}

/// The block of one compose service. An initialiser container runs to completion; the services that
/// follow must wait for it, or they start without what it produces.
pub open spec fn compose_block(
    facts: Seq<FactView>,
    name: Seq<char>,
    exposed: Seq<Seq<char>>,
    first: bool,
) -> Result<ServiceBlockView, Seq<char>> {
    match service_from(services_upto(facts, facts.len() as int), name, 0) {
        None => Err("no compose service named '"@ + name + "' in the report"@),
        Some(service) => {
            let file = file_from(facts, name, 0);
            match exposure_of(name, file, service.ports, exposed.contains(name)) {
                Err(e) => Err(e),
                Ok(exposure) => Ok(
                    ServiceBlockView {
                        id: name,
                        step: None,
                        text: (if first {
                            SHARED_SERVICES_COMMENT@ + "\n\n"@
                        } else {
                            ""@
                        }) + "[[services]]\nid = \""@ + name
                            + "\"\nruntime = \"compose\"\ncompose = { file = \""@ + file
                            + "\", service = \""@ + name + "\" }\n"@ + exposure + (
                        if initializer(name) {
                            "wait = \"exit\"\n"@
                        } else {
                            ""@
                        }),
                    },
                ),
            }
        },
    }
}

/// The blocks of the first `k` shared services.
pub open spec fn compose_blocks(
    facts: Seq<FactView>,
    shared: Seq<Seq<char>>,
    exposed: Seq<Seq<char>>,
    k: int,
) -> Result<Seq<ServiceBlockView>, Seq<char>>
    decreases k,
{
    if k <= 0 {
        Ok(Seq::empty())
    } else {
        match compose_blocks(facts, shared, exposed, k - 1) {
            Err(e) => Err(e),
            Ok(before) => match compose_block(facts, shared[k - 1], exposed, k == 1) {
                Err(e) => Err(e),
                Ok(block) => Ok(before.push(block)),
            },
        }
    }
}

fn is_initializer(name: &str) -> (r: bool)
    ensures
        r == initializer(name@),
{
    text::ends_with(name, "-init") || text::same(name, "init") || text::starts_with(name, "init-")
        || text::same(name, "migrate") || text::starts_with(name, "migrate-") || text::ends_with(
        name,
        "-migrate",
    ) || text::same(name, "setup") || text::ends_with(name, "-setup")
}

fn strip_marks(low: &str) -> (r: String)
    ensures
        r@ == unmarked(low@),
{
    match text::strip_prefix(low, "wt_port_") {
        Some(rest) => rest,
        None => match text::strip_prefix(low, "port_") {
            Some(rest) => rest,
            None => match text::strip_suffix(low, "_port") {
                Some(rest) => rest,
                None => text::own(low),
            },
        },
    }
}

fn positional(position: usize) -> (r: String)
    ensures
        r@ == "port"@ + text::decimal_of(position as nat),
{
    text::concat("port", &text::decimal(position as u64))
}

fn port_name(variable: &Option<String>, position: usize) -> (r: String)
    ensures
        r@ == port_name_of(text::opt_view(*variable), position as nat),
{
    match variable {
        None => positional(position),
        Some(name) => {
            let stripped = strip_marks(&text::to_lower(name));
            let v = text::chars(&stripped);
            let ghost goal = cleaned(stripped@);
            let mut out = text::own("");
            let mut blank = true;
            let mut i: usize = 0;
            proof {
                reveal_strlit("");
                assert(out@ =~= goal.take(0));
            }
            while i < v.len()
                invariant
                    v@ == stripped@,
                    goal == cleaned(stripped@),
                    i <= v@.len(),
                    out@ == goal.take(i as int),
                    blank == only_underscores(goal.take(i as int)),
                decreases v@.len() - i,
            {
                let c = if text::is_alnum(v[i]) {
                    v[i]
                } else {
                    '_'
                };
                let ghost before = goal.take(i as int);
                assert(goal.take(i + 1) =~= before.push(c));
                assert(goal.take(i + 1)[i as int] == c);
                if c != '_' {
                    blank = false;
                }
                assert(blank == only_underscores(goal.take(i + 1))) by {
                    if c == '_' {
                        if only_underscores(before) {
                        } else {
                            let m = choose|m: int| 0 <= m < before.len() && #[trigger] before[m] != '_';
                            assert(goal.take(i + 1)[m] != '_');
                        }
                    }
                    if only_underscores(goal.take(i + 1)) {
                        assert forall|m: int| 0 <= m < before.len() implies #[trigger] before[m]
                            == '_' by {
                            assert(goal.take(i + 1)[m] == '_');
                        }
                    }
                }
                out.push(c);
                i += 1;
            }
            assert(goal.take(i as int) =~= goal);
            if blank {
                positional(position)
            } else {
                out
            }
        },
    }
}

/// A port mapping whose container port is known.
#[derive(Debug)]
pub struct Mapping {
    pub target: u16,
    pub variable: Option<String>,
}

impl View for Mapping {
    type V = (u16, Option<Seq<char>>);

    open spec fn view(&self) -> (u16, Option<Seq<char>>) {
        (self.target, text::opt_view(self.variable))
    }
}

fn known_mappings(ports: &Vec<String>) -> (r: Vec<Mapping>)
    ensures
        text::views(r@) == mappings_upto(text::views(ports@), ports@.len() as int),
{
    let ghost all = text::views(ports@);
    let mut out: Vec<Mapping> = Vec::new();
    let mut k: usize = 0;
    assert(text::views(out@) =~= Seq::<(u16, Option<Seq<char>>)>::empty());
    while k < ports.len()
        invariant
            all == text::views(ports@),
            k <= ports@.len(),
            text::views(out@) == mappings_upto(all, k as int),
        decreases ports@.len() - k,
    {
        broadcast use text::views_push;

        assert(all[k as int] == ports@[k as int]@);
        let (target, variable) = extractors::parse_port_mapping(&ports[k]);
        if let Some(target) = target {
            out.push(Mapping { target, variable });
        }
        k += 1;
    }
    out
}

fn env_text(variable: &Option<String>) -> (r: String)
    ensures
        r@ == env_part(text::opt_view(*variable)),
{
    match variable {
        Some(name) => {
            let mut out = text::own(", env = \"");
            out.append(name);
            out.append("\" }");
            out
        },
        None => text::own(" }"),
    }
}

fn declare_ports(mappings: &Vec<Mapping>) -> (r: String)
    requires
        mappings@.len() > 0,
    ensures
        r@ == ports_declared(text::views(mappings@)),
{
    let ghost all = text::views(mappings@);
    if mappings.len() == 1 {
        assert(all[0] == mappings@[0]@);
        let mut out = text::own("port = { target = ");
        out.append(&text::decimal(mappings[0].target as u64));
        out.append(&env_text(&mappings[0].variable));
        out.append("\n");
        return out;
    }
    let mut lines = text::own("");
    let mut k: usize = 0;
    while k < mappings.len()
        invariant
            all == text::views(mappings@),
            k <= mappings@.len(),
            lines@ == port_lines(all, k as int),
        decreases mappings@.len() - k,
    {
        assert(all[k as int] == mappings@[k as int]@);
        lines.append("  { name = \"");
        lines.append(&port_name(&mappings[k].variable, k + 1));
        lines.append("\", target = ");
        lines.append(&text::decimal(mappings[k].target as u64));
        lines.append(&env_text(&mappings[k].variable));
        lines.append(",\n");
        k += 1;
    }
    let mut out = text::own("ports = [\n");
    out.append(&lines);
    out.append("]\n");
    out
}

fn compose_facts(report: &Report) -> (r: Vec<ComposeServiceFact>)
    ensures
        text::views(r@) == services_upto(report@.facts, report@.facts.len() as int),
{
    let ghost all = report@.facts;
    let mut out: Vec<ComposeServiceFact> = Vec::new();
    let mut k: usize = 0;
    assert(text::views(out@) =~= Seq::<ComposeServiceFactView>::empty());
    while k < report.facts.len()
        invariant
            all == report@.facts,
            k <= report.facts@.len(),
            text::views(out@) == services_upto(all, k as int),
        decreases report.facts@.len() - k,
    {
        assert(all[k as int] == report.facts@[k as int]@);
        if let FactData::Compose { services, .. } = &report.facts[k].data {
            let ghost before = out@;
            let mut more = text::clone_all(services);
            let ghost list = more@;
            out.append(&mut more);
            assert(text::views(out@) =~= text::views(before) + text::views(list));
        }
        k += 1;
    }
    out
}

fn find_service<'a>(services: &'a Vec<ComposeServiceFact>, name: &str) -> (r: Option<
    &'a ComposeServiceFact,
>)
    ensures
        match r {
            Some(service) => service_from(text::views(services@), name@, 0) == Some(service@),
            None => service_from(text::views(services@), name@, 0) is None,
        },
{
    let ghost all = text::views(services@);
    let mut k: usize = 0;
    while k < services.len()
        invariant
            all == text::views(services@),
            k <= services@.len(),
            service_from(all, name@, 0) == service_from(all, name@, k as int),
        decreases services@.len() - k,
    {
        assert(all[k as int] == services@[k as int]@);
        if text::same(&services[k].name, name) {
            return Some(&services[k]);
        }
        k += 1;
    }
    None
}

fn compose_file_for(report: &Report, name: &str) -> (r: String)
    ensures
        r@ == file_from(report@.facts, name@, 0),
{
    let ghost all = report@.facts;
    let mut k: usize = 0;
    while k < report.facts.len()
        invariant
            all == report@.facts,
            k <= report.facts@.len(),
            file_from(all, name@, 0) == file_from(all, name@, k as int),
        decreases report.facts@.len() - k,
    {
        assert(all[k as int] == report.facts@[k as int]@);
        if let FactData::Compose { services, .. } = &report.facts[k].data {
            if find_service(services, name).is_some() {
                return report.facts[k].source.clone();
            }
        }
        k += 1;
    }
    text::own("compose.yaml")
}

fn exposure(name: &str, file: &str, ports: &Vec<String>, exposed: bool) -> (r: Result<
    String,
    String,
>)
    ensures
        match r {
            Ok(lines) => exposure_of(name@, file@, text::views(ports@), exposed) == Ok::<
                Seq<char>,
                Seq<char>,
            >(lines@),
            Err(e) => exposure_of(name@, file@, text::views(ports@), exposed) == Err::<
                Seq<char>,
                Seq<char>,
            >(e@),
        },
{
    if !exposed {
        return Ok(text::own("expose = \"none\"\n"));
    }
    let mappings = known_mappings(ports);
    if mappings.len() == 0 {
        let mut e = text::own("compose service '");
        e.append(name);
        e.append("' has no published port in ");
        e.append(file);
        e.append(
            ", so the container-side port is unknown\nadd `ports:` to that service in the compose file, or leave it out of compose.expose",
        );
        return Err(e);
    }
    Ok(declare_ports(&mappings))
}

fn service_block(report: &Report, name: &str, exposed: &Vec<String>, first: bool) -> (r: Result<
    ServiceBlock,
    String,
>)
    ensures
        match r {
            Ok(block) => compose_block(report@.facts, name@, text::views(exposed@), first) == Ok::<
                ServiceBlockView,
                Seq<char>,
            >(block@),
            Err(e) => compose_block(report@.facts, name@, text::views(exposed@), first) == Err::<
                ServiceBlockView,
                Seq<char>,
            >(e@),
        },
{
    let services = compose_facts(report);
    match find_service(&services, name) {
        None => {
            let mut e = text::own("no compose service named '");
            e.append(name);
            e.append("' in the report");
            Err(e)
        },
        Some(service) => {
            let file = compose_file_for(report, name);
            match exposure(name, &file, &service.ports, text::among(exposed, name)) {
                Err(e) => Err(e),
                Ok(reach) => {
                    let mut out = text::own("");
                    if first {
                        out = text::own(SHARED_SERVICES_COMMENT);
                        out.append("\n\n");
                    }
                    out.append("[[services]]\nid = \"");
                    out.append(name);
                    out.append("\"\nruntime = \"compose\"\ncompose = { file = \"");
                    out.append(&file);
                    out.append("\", service = \"");
                    out.append(name);
                    out.append("\" }\n");
                    out.append(&reach);
                    out.append(
                        if is_initializer(name) {
                            "wait = \"exit\"\n"
                        } else {
                            ""
                        },
                    );
                    Ok(ServiceBlock { id: text::own(name), step: None, text: out })
                },
            }
        },
    }
}

proof fn blocks_fail_on(
    facts: Seq<FactView>,
    shared: Seq<Seq<char>>,
    exposed: Seq<Seq<char>>,
    k: int,
    n: int,
)
    requires
        0 < k <= n,
        compose_blocks(facts, shared, exposed, k) is Err,
    ensures
        compose_blocks(facts, shared, exposed, n) == compose_blocks(facts, shared, exposed, k),
    decreases n - k,
{
    if k < n {
        blocks_fail_on(facts, shared, exposed, k + 1, n);
    }
}

/// The infrastructure services that belong to the manifest that owns them.
fn compose_services(report: &Report, shared: &Vec<String>, exposed: &Vec<String>) -> (r: Result<
    Vec<ServiceBlock>,
    String,
>)
    ensures
        ({
            let blocks = compose_blocks(
                report@.facts,
                text::views(shared@),
                text::views(exposed@),
                shared@.len() as int,
            );
            match r {
                Ok(list) => blocks == Ok::<Seq<ServiceBlockView>, Seq<char>>(text::views(list@)),
                Err(e) => blocks == Err::<Seq<ServiceBlockView>, Seq<char>>(e@),
            }
        }),
{
    let ghost names = text::views(shared@);
    let ghost open = text::views(exposed@);
    let mut out: Vec<ServiceBlock> = Vec::new();
    let mut k: usize = 0;
    assert(text::views(out@) =~= Seq::<ServiceBlockView>::empty());
    while k < shared.len()
        invariant
            names == text::views(shared@),
            open == text::views(exposed@),
            k <= shared@.len(),
            compose_blocks(report@.facts, names, open, k as int) == Ok::<
                Seq<ServiceBlockView>,
                Seq<char>,
            >(text::views(out@)),
        decreases shared@.len() - k,
    {
        broadcast use text::views_push;

        assert(names[k as int] == shared@[k as int]@);
        match service_block(report, &shared[k], exposed, k == 0) {
            Ok(block) => {
                out.push(block);
            },
            Err(e) => {
                proof {
                    blocks_fail_on(report@.facts, names, open, k + 1, names.len() as int);
                }
                return Err(e);
            },
        }
        k += 1;
    }
    Ok(out)
}

// ---------------------------------------------------------------------------
// Steps
// ---------------------------------------------------------------------------

/// Storybook's port variable. Storybook reads no environment variable of its own: the variable
/// carries the allocated port onto the command line.
pub const STORYBOOK_PORT: &'static str = "STORYBOOK_PORT";

/// Storybook's port variable with the port the dev server listens on when nothing overrides it.
pub const STORYBOOK_DEFAULT: &'static str = "${STORYBOOK_PORT:-6006}";

/// How Storybook's port is declared.
pub const STORYBOOK_DECLARED: &'static str =
    "port = { env = \"STORYBOOK_PORT\", prefer = 6006 }\n";

/// The command of a setup step.
pub open spec fn step_command_of(spec: Seq<char>) -> Result<Seq<char>, Seq<char>> {
    match text::split_once_of(spec, ':') {
        None => Err("malformed setup step '"@ + spec + "'"@),
        Some((kind, rest)) => if kind == "just"@ {
            Ok("just "@ + rest)
        } else if kind == "mise"@ {
            Ok("mise run "@ + rest)
        } else if kind == "npm"@ || kind == "pnpm"@ || kind == "yarn"@ || kind == "bun"@ {
            Ok(kind + " run "@ + rest)
        } else {
            Err("unsupported setup step '"@ + spec + "' (unknown runner '"@ + kind + "')"@)
        },
    }
}

/// The lines of the first `k` setup steps.
pub open spec fn setup_lines(setup: Seq<Seq<char>>, k: int) -> Result<Seq<char>, Seq<char>>
    decreases k,
{
    if k <= 0 {
        Ok(""@)
    } else {
        match setup_lines(setup, k - 1) {
            Err(e) => Err(e),
            Ok(before) => match step_command_of(setup[k - 1]) {
                Err(e) => Err(e),
                Ok(command) => Ok(before + "  \""@ + command + "\",\n"@),
            },
        }
    }
}

/// The texts of a list in double quotes.
pub open spec fn in_quotes(values: Seq<Seq<char>>) -> Seq<Seq<char>> {
    Seq::new(values.len(), |i: int| "\""@ + values[i] + "\""@)
}

/// The line of the install step.
pub open spec fn install_line(app: AppFactsView) -> Seq<char> {
    let inputs = app.install_inputs;
    match app.install {
        Some(command) => if inputs.len() > 0 {
            "  { command = \""@ + command + "\", inputs = ["@ + text::join_of(
                in_quotes(inputs),
                ", "@,
            ) + "] },\n"@
        } else {
            "  \""@ + command + "\",\n"@
        },
        None => ""@,
    }
}

/// Bootstrap runs the install first, then whatever generates files the dev server imports.
/// Generation steps deliberately declare no `inputs`, so they run on every `up`: a missing generated
/// file is not worth caching around.
pub open spec fn bootstrap_of(app: AppFactsView, setup: Seq<Seq<char>>) -> Result<
    Option<Seq<char>>,
    Seq<char>,
> {
    if app.install is None && setup.len() == 0 {
        Ok(None)
    } else {
        match setup_lines(setup, setup.len() as int) {
            Err(e) => Err(e),
            Ok(lines) => Ok(
                Some(
                    "[bootstrap]\nrun = [\n"@ + install_line(app) + lines + "]\n"@,
                ),
            ),
        }
    }
}

/// The line that starts a step. Only npm and pnpm have first-class targets; yarn and bun fall back
/// to the plain command so nothing is silently reinterpreted.
pub open spec fn target_of(kind: Seq<char>, rest: Seq<char>, spec: Seq<char>) -> Result<
    Seq<char>,
    Seq<char>,
> {
    if kind == "npm"@ {
        Ok("target = { kind = \"npm\", script = \""@ + rest + "\" }\n"@)
    } else if kind == "pnpm"@ {
        Ok("target = { kind = \"pnpm\", script = \""@ + rest + "\" }\n"@)
    } else if kind == "yarn"@ || kind == "bun"@ {
        Ok("command = \""@ + kind + " run "@ + rest + "\"\n"@)
    } else if kind == "just"@ {
        Ok("target = { kind = \"just\", recipe = \""@ + rest + "\" }\n"@)
    } else if kind == "mise"@ {
        Ok("target = { kind = \"mise\", task = \""@ + rest + "\" }\n"@)
    } else if kind == "uv"@ {
        Ok("target = { kind = \"uv\", script = \""@ + rest + "\" }\n"@)
    } else if kind == "command"@ {
        Ok("command = \""@ + escaped(rest) + "\"\n"@)
    } else if kind == "procfile"@ {
        Ok("command = \"<command from Procfile:"@ + rest + ">\"\n"@)
    } else {
        Err("unsupported run answer '"@ + spec + "' (unknown runner '"@ + kind + "')"@)
    }
}

/// The target and port for a service that serves Storybook.
///
/// Storybook takes its port from `-p`/`--port` and from nothing else, so the allocated port is
/// passed on the command line. Appending it after the script's own arguments makes it win over
/// whatever the repository's script pins, which is what keeps a second worktree off the first one's
/// port. `--no-open` stops every `up` from opening a browser on the machine running it. `npm run`
/// consumes everything that is not behind the separator; pnpm, yarn and bun forward the rest
/// themselves.
pub open spec fn storybook_target_of(kind: Seq<char>, script: Seq<char>) -> Result<
    Seq<char>,
    Seq<char>,
> {
    if kind == "npm"@ {
        Ok(
            "target = { kind = \"npm\", script = \""@ + script
                + "\", args = [\"--\", \"-p\", \""@ + STORYBOOK_DEFAULT@
                + "\", \"--no-open\"] }\n"@ + STORYBOOK_DECLARED@,
        )
    } else if kind == "pnpm"@ {
        Ok(
            "target = { kind = \"pnpm\", script = \""@ + script + "\", args = [\"-p\", \""@
                + STORYBOOK_DEFAULT@ + "\", \"--no-open\"] }\n"@ + STORYBOOK_DECLARED@,
        )
    } else if kind == "yarn"@ || kind == "bun"@ {
        Ok(
            "command = \""@ + kind + " run "@ + script + " -p "@ + STORYBOOK_DEFAULT@
                + " --no-open\"\n"@ + STORYBOOK_DECLARED@,
        )
    } else {
        Err("unsupported Storybook answer (unknown runner '"@ + kind + "')"@)
    }
}

fn step_command(spec: &str) -> (r: Result<String, String>)
    ensures
        match r {
            Ok(command) => step_command_of(spec@) == Ok::<Seq<char>, Seq<char>>(command@),
            Err(e) => step_command_of(spec@) == Err::<Seq<char>, Seq<char>>(e@),
        },
{
    match text::split_once(spec, ':') {
        None => {
            let mut e = text::own("malformed setup step '");
            e.append(spec);
            e.append("'");
            Err(e)
        },
        Some((kind, rest)) => if text::same(&kind, "just") {
            Ok(text::concat("just ", &rest))
        } else if text::same(&kind, "mise") {
            Ok(text::concat("mise run ", &rest))
        } else if text::same(&kind, "npm") || text::same(&kind, "pnpm") || text::same(&kind, "yarn")
            || text::same(&kind, "bun") {
            let mut out = kind;
            out.append(" run ");
            out.append(&rest);
            Ok(out)
        } else {
            let mut e = text::own("unsupported setup step '");
            e.append(spec);
            e.append("' (unknown runner '");
            e.append(&kind);
            e.append("')");
            Err(e)
        },
    }
}

proof fn setup_fails_on(setup: Seq<Seq<char>>, k: int, n: int)
    requires
        0 < k <= n,
        setup_lines(setup, k) is Err,
    ensures
        setup_lines(setup, n) == setup_lines(setup, k),
    decreases n - k,
{
    if k < n {
        setup_fails_on(setup, k + 1, n);
    }
}

fn quote_all(values: &Vec<String>) -> (r: Vec<String>)
    ensures
        text::views(r@) == in_quotes(text::views(values@)),
{
    let ghost goal = in_quotes(text::views(values@));
    let mut out: Vec<String> = Vec::new();
    let mut i: usize = 0;
    assert(text::views(out@) =~= goal.take(0));
    while i < values.len()
        invariant
            goal == in_quotes(text::views(values@)),
            i <= values@.len(),
            text::views(out@) == goal.take(i as int),
        decreases values@.len() - i,
    {
        let mut item = text::own("\"");
        item.append(&values[i]);
        item.append("\"");
        text::add(&mut out, &item);
        i += 1;
        assert(text::views(out@) =~= goal.take(i as int));
    }
    assert(goal.take(i as int) =~= goal);
    out
}

fn install_step(app: &AppFacts) -> (r: String)
    ensures
        r@ == install_line(app@),
{
    let inputs = &app.install_inputs;
    match &app.install {
        Some(command) => if inputs.len() > 0 {
            let mut out = text::own("  { command = \"");
            out.append(command);
            out.append("\", inputs = [");
            out.append(&text::join(&quote_all(inputs), ", "));
            out.append("] },\n");
            out
        } else {
            let mut out = text::own("  \"");
            out.append(command);
            out.append("\",\n");
            out
        },
        None => text::own(""),
    }
}

fn bootstrap_section(app: &AppFacts, setup: &Vec<String>) -> (r: Result<
    Option<String>,
    String,
>)
    ensures
        match r {
            Ok(section) => bootstrap_of(app@, text::views(setup@)) == Ok::<
                Option<Seq<char>>,
                Seq<char>,
            >(text::opt_view(section)),
            Err(e) => bootstrap_of(app@, text::views(setup@)) == Err::<
                Option<Seq<char>>,
                Seq<char>,
            >(e@),
        },
{
    if app.install.is_none() && setup.len() == 0 {
        return Ok(None);
    }
    let ghost all = text::views(setup@);
    let mut lines = text::own("");
    let mut k: usize = 0;
    while k < setup.len()
        invariant
            all == text::views(setup@),
            !(app@.install is None && all.len() == 0),
            k <= setup@.len(),
            setup_lines(all, k as int) == Ok::<Seq<char>, Seq<char>>(lines@),
        decreases setup@.len() - k,
    {
        assert(all[k as int] == setup@[k as int]@);
        match step_command(&setup[k]) {
            Ok(command) => {
                lines.append("  \"");
                lines.append(&command);
                lines.append("\",\n");
            },
            Err(e) => {
                proof {
                    setup_fails_on(all, k + 1, all.len() as int);
                }
                return Err(e);
            },
        }
        k += 1;
    }
    let mut out = text::own("[bootstrap]\nrun = [\n");
    out.append(&install_step(app));
    out.append(&lines);
    out.append("]\n");
    Ok(Some(out))
}

fn surround(before: &str, middle: &str, after: &str) -> (r: String)
    ensures
        r@ == before@ + middle@ + after@,
{
    let mut out = text::own(before);
    out.append(middle);
    out.append(after);
    out
}

fn target_line(kind: &str, rest: &str, spec: &str) -> (r: Result<String, String>)
    ensures
        match r {
            Ok(line) => target_of(kind@, rest@, spec@) == Ok::<Seq<char>, Seq<char>>(line@),
            Err(e) => target_of(kind@, rest@, spec@) == Err::<Seq<char>, Seq<char>>(e@),
        },
{
    if text::same(kind, "npm") {
        Ok(surround("target = { kind = \"npm\", script = \"", rest, "\" }\n"))
    } else if text::same(kind, "pnpm") {
        Ok(surround("target = { kind = \"pnpm\", script = \"", rest, "\" }\n"))
    } else if text::same(kind, "yarn") || text::same(kind, "bun") {
        let mut out = text::own("command = \"");
        out.append(kind);
        out.append(" run ");
        out.append(rest);
        out.append("\"\n");
        Ok(out)
    } else if text::same(kind, "just") {
        Ok(surround("target = { kind = \"just\", recipe = \"", rest, "\" }\n"))
    } else if text::same(kind, "mise") {
        Ok(surround("target = { kind = \"mise\", task = \"", rest, "\" }\n"))
    } else if text::same(kind, "uv") {
        Ok(surround("target = { kind = \"uv\", script = \"", rest, "\" }\n"))
    } else if text::same(kind, "command") {
        Ok(surround("command = \"", &escape_toml(rest), "\"\n"))
    } else if text::same(kind, "procfile") {
        Ok(surround("command = \"<command from Procfile:", rest, ">\"\n"))
    } else {
        let mut e = text::own("unsupported run answer '");
        e.append(spec);
        e.append("' (unknown runner '");
        e.append(kind);
        e.append("')");
        Err(e)
    }
}

fn storybook_target(kind: &str, script: &str) -> (r: Result<String, String>)
    ensures
        match r {
            Ok(lines) => storybook_target_of(kind@, script@) == Ok::<Seq<char>, Seq<char>>(lines@),
            Err(e) => storybook_target_of(kind@, script@) == Err::<Seq<char>, Seq<char>>(e@),
        },
{
    if text::same(kind, "npm") {
        let mut out = text::own("target = { kind = \"npm\", script = \"");
        out.append(script);
        out.append("\", args = [\"--\", \"-p\", \"");
        out.append(STORYBOOK_DEFAULT);
        out.append("\", \"--no-open\"] }\n");
        out.append(STORYBOOK_DECLARED);
        Ok(out)
    } else if text::same(kind, "pnpm") {
        let mut out = text::own("target = { kind = \"pnpm\", script = \"");
        out.append(script);
        out.append("\", args = [\"-p\", \"");
        out.append(STORYBOOK_DEFAULT);
        out.append("\", \"--no-open\"] }\n");
        out.append(STORYBOOK_DECLARED);
        Ok(out)
    } else if text::same(kind, "yarn") || text::same(kind, "bun") {
        let mut out = text::own("command = \"");
        out.append(kind);
        out.append(" run ");
        out.append(script);
        out.append(" -p ");
        out.append(STORYBOOK_DEFAULT);
        out.append(" --no-open\"\n");
        out.append(STORYBOOK_DECLARED);
        Ok(out)
    } else {
        let mut e = text::own("unsupported Storybook answer (unknown runner '");
        e.append(kind);
        e.append("')");
        Err(e)
    }
}

// ---------------------------------------------------------------------------
// The services of an app
// ---------------------------------------------------------------------------

/// The one value given for a question; none where it was skipped.
pub open spec fn step_answer(answers: Seq<(Seq<char>, AnswerView)>, id: Seq<char>) -> Option<Seq<char>> {
    match dict::lookup(answers, id) {
        Some(answer) => match answer.one() {
            Some(spec) => if spec == "skip"@ {
                None
            } else {
                Some(spec)
            },
            None => None,
        },
        None => None,
    }
}

/// The variable that carries an app's port.
pub open spec fn port_variable_of(answers: Seq<(Seq<char>, AnswerView)>, app: Seq<char>) -> Seq<char> {
    match dict::lookup(answers, app + ".port_env"@) {
        Some(answer) => match answer.one() {
            Some(name) => if name.len() == 0 || name == "none"@ {
                "PORT"@
            } else {
                name
            },
            None => "PORT"@,
        },
        None => "PORT"@,
    }
}

/// The setup steps that were chosen, `none` left out, among the first `k`.
pub open spec fn chosen_setups(values: Seq<Seq<char>>, k: int) -> Seq<Seq<char>>
    decreases k,
{
    if k <= 0 {
        Seq::empty()
    } else if values[k - 1] == "none"@ {
        chosen_setups(values, k - 1)
    } else {
        chosen_setups(values, k - 1).push(values[k - 1])
    }
}

/// The setup steps of an app.
pub open spec fn setups_of(answers: Seq<(Seq<char>, AnswerView)>, app: Seq<char>) -> Seq<Seq<char>> {
    match dict::lookup(answers, app + ".setup"@) {
        Some(answer) => chosen_setups(answer.many(), answer.many().len() as int),
        None => Seq::empty(),
    }
}

/// Variables the app's task runner used to set for the recipe it ran, from fact `k` on.
pub open spec fn parameters_from(facts: Seq<FactView>, app: Seq<char>, k: int) -> Seq<Seq<char>>
    decreases facts.len() - k,
{
    if k < 0 || k >= facts.len() {
        Seq::empty()
    } else if facts[k].app == Some(app) {
        match facts[k].data {
            FactDataView::Just { exported_parameters, .. } => exported_parameters,
            _ => parameters_from(facts, app, k + 1),
        }
    } else {
        parameters_from(facts, app, k + 1)
    }
}

/// Running a command directly leaves out whatever the task runner's recipe prepared, so what that
/// was is written down. The service may still start without these, so they are not guessed at.
pub open spec fn left_out_note(facts: Seq<FactView>, app: Seq<char>, kind: Seq<char>) -> Seq<char> {
    let parameters = parameters_from(facts, app, 0);
    if kind == "command"@ && parameters.len() > 0 {
        "# the recipe this command came from also set: "@ + text::join_of(parameters, ", "@)
            + "\n# add them under [env] if the service needs them\n"@
    } else {
        ""@
    }
}

/// Whether a run answer starts Storybook itself, so the service that runs it needs Storybook's port
/// handling rather than a variable nothing reads.
pub open spec fn starts_storybook(facts: Seq<FactView>, app: Seq<char>, spec: Seq<char>) -> bool {
    report::storybook_steps(facts, app, facts.len() as int).contains(spec)
}

/// How a service is probed.
pub const HEALTH_LINE: &'static str = "health = { http = \"/\", timeout = 120 }\n";

/// How an app's own service is started and gets its port.
pub open spec fn run_target_of(
    facts: Seq<FactView>,
    answers: Seq<(Seq<char>, AnswerView)>,
    app: Seq<char>,
    kind: Seq<char>,
    rest: Seq<char>,
    spec: Seq<char>,
) -> Result<Seq<char>, Seq<char>> {
    if starts_storybook(facts, app, spec) {
        storybook_target_of(kind, rest)
    } else {
        match target_of(kind, rest, spec) {
            Err(e) => Err(e),
            Ok(line) => Ok(
                line + "port = { env = \""@ + port_variable_of(answers, app) + "\" }\n"@,
            ),
        }
    }
}

/// The block of an app's own service; none where it is not to be run.
pub open spec fn run_block_of(
    facts: Seq<FactView>,
    answers: Seq<(Seq<char>, AnswerView)>,
    app: Seq<char>,
) -> Result<Option<ServiceBlockView>, Seq<char>> {
    match step_answer(answers, app + ".run"@) {
        None => Ok(None),
        Some(spec) => match text::split_once_of(spec, ':') {
            None => Err("malformed run answer '"@ + spec + "'"@),
            Some((kind, rest)) => match run_target_of(facts, answers, app, kind, rest, spec) {
                Err(e) => Err(e),
                Ok(lines) => Ok(
                    Some(
                        ServiceBlockView {
                            id: app,
                            step: Some(spec),
                            text: "[[services]]\nid = \""@ + app + "\"\n"@ + left_out_note(
                                facts,
                                app,
                                kind,
                            ) + lines + HEALTH_LINE@,
                        },
                    ),
                ),
            },
        },
    }
}

/// Whether any fact says that an app's Storybook answers MCP.
pub open spec fn answers_mcp(facts: Seq<FactView>, app: Seq<char>) -> bool {
    exists|i: int| 0 <= i < facts.len() && report::says_mcp(#[trigger] facts[i], app)
}

/// The id of an app's Storybook service: an app that is itself named `storybook` already owns that
/// id.
pub open spec fn storybook_id(app: Seq<char>) -> Seq<char> {
    if app == "storybook"@ {
        "storybook-dev"@
    } else {
        "storybook"@
    }
}

/// The block of an app's Storybook, which runs beside the app rather than instead of it; none where
/// it is not to be run, or where it is the app's own service.
pub open spec fn storybook_block_of(
    facts: Seq<FactView>,
    answers: Seq<(Seq<char>, AnswerView)>,
    app: Seq<char>,
) -> Result<Option<ServiceBlockView>, Seq<char>> {
    match step_answer(answers, app + ".storybook"@) {
        None => Ok(None),
        Some(spec) => if step_answer(answers, app + ".run"@) == Some(spec) {
            Ok(None)
        } else {
            match text::split_once_of(spec, ':') {
                None => Err("malformed storybook answer '"@ + spec + "'"@),
                Some((kind, rest)) => match storybook_target_of(kind, rest) {
                    Err(e) => Err(e),
                    Ok(lines) => Ok(
                        Some(
                            ServiceBlockView {
                                id: storybook_id(app),
                                step: Some(spec),
                                text: (if answers_mcp(facts, app) {
                                    "# @storybook/addon-mcp answers MCP at /mcp on this service\n\n"@
                                } else {
                                    ""@
                                }) + "[[services]]\nid = \""@ + storybook_id(app) + "\"\n"@
                                    + lines + HEALTH_LINE@,
                            },
                        ),
                    ),
                },
            }
        },
    }
}

fn given_step(answers: &AnswerSet, app: &str, suffix: &str) -> (r: Option<String>)
    ensures
        text::opt_view(r) == step_answer(answers@.answers, app@ + suffix@),
{
    match answers.answers.get(&text::concat(app, suffix)) {
        Some(answer) => match answer.as_one() {
            Some(spec) => if text::same(spec, "skip") {
                None
            } else {
                Some(text::own(spec))
            },
            None => None,
        },
        None => None,
    }
}

fn port_variable(answers: &AnswerSet, app: &str) -> (r: String)
    ensures
        r@ == port_variable_of(answers@.answers, app@),
{
    match answers.answers.get(&text::concat(app, ".port_env")) {
        Some(answer) => match answer.as_one() {
            Some(name) => if text::length(name) == 0 || text::same(name, "none") {
                text::own("PORT")
            } else {
                text::own(name)
            },
            None => text::own("PORT"),
        },
        None => text::own("PORT"),
    }
}

fn given_setups(answers: &AnswerSet, app: &str) -> (r: Vec<String>)
    ensures
        text::views(r@) == setups_of(answers@.answers, app@),
{
    let mut out: Vec<String> = Vec::new();
    assert(text::views(out@) =~= Seq::<Seq<char>>::empty());
    if let Some(answer) = answers.answers.get(&text::concat(app, ".setup")) {
        let values = answer.as_many();
        let ghost all = text::views(values@);
        let mut k: usize = 0;
        while k < values.len()
            invariant
                all == text::views(values@),
                k <= values@.len(),
                text::views(out@) == chosen_setups(all, k as int),
            decreases values@.len() - k,
        {
            assert(all[k as int] == values@[k as int]@);
            if !text::same(&values[k], "none") {
                text::add(&mut out, &values[k]);
            }
            k += 1;
        }
    }
    out
}

fn exported_parameters_for(report: &Report, app: &str) -> (r: Vec<String>)
    ensures
        text::views(r@) == parameters_from(report@.facts, app@, 0),
{
    let ghost all = report@.facts;
    let mut k: usize = 0;
    while k < report.facts.len()
        invariant
            all == report@.facts,
            k <= report.facts@.len(),
            parameters_from(all, app@, 0) == parameters_from(all, app@, k as int),
        decreases report.facts@.len() - k,
    {
        assert(all[k as int] == report.facts@[k as int]@);
        if report.facts[k].belongs_to(app) {
            if let FactData::Just { exported_parameters, .. } = &report.facts[k].data {
                return text::clone_texts(exported_parameters);
            }
        }
        k += 1;
    }
    let none: Vec<String> = Vec::new();
    assert(text::views(none@) =~= Seq::<Seq<char>>::empty());
    none
}

fn note_left_out(report: &Report, app: &str, kind: &str) -> (r: String)
    ensures
        r@ == left_out_note(report@.facts, app@, kind@),
{
    let parameters = exported_parameters_for(report, app);
    if text::same(kind, "command") && parameters.len() > 0 {
        let mut out = text::own("# the recipe this command came from also set: ");
        out.append(&text::join(&parameters, ", "));
        out.append("\n# add them under [env] if the service needs them\n");
        out
    } else {
        text::own("")
    }
}

fn serves_storybook(report: &Report, app: &str, spec: &str) -> (r: bool)
    ensures
        r == starts_storybook(report@.facts, app@, spec@),
{
    text::among(&report.storybook_scripts(app), spec)
}

fn run_target(report: &Report, answers: &AnswerSet, app: &str, kind: &str, rest: &str, spec: &str) -> (r:
    Result<String, String>)
    ensures
        match r {
            Ok(lines) => run_target_of(
                report@.facts,
                answers@.answers,
                app@,
                kind@,
                rest@,
                spec@,
            ) == Ok::<Seq<char>, Seq<char>>(lines@),
            Err(e) => run_target_of(
                report@.facts,
                answers@.answers,
                app@,
                kind@,
                rest@,
                spec@,
            ) == Err::<Seq<char>, Seq<char>>(e@),
        },
{
    if serves_storybook(report, app, spec) {
        return storybook_target(kind, rest);
    }
    match target_line(kind, rest, spec) {
        Err(e) => Err(e),
        Ok(line) => {
            let mut out = line;
            out.append("port = { env = \"");
            out.append(&port_variable(answers, app));
            out.append("\" }\n");
            Ok(out)
        },
    }
}

fn run_block(report: &Report, answers: &AnswerSet, app: &str) -> (r: Result<
    Option<ServiceBlock>,
    String,
>)
    ensures
        match r {
            Ok(block) => run_block_of(report@.facts, answers@.answers, app@) == Ok::<
                Option<ServiceBlockView>,
                Seq<char>,
            >(text::opt_view(block)),
            Err(e) => run_block_of(report@.facts, answers@.answers, app@) == Err::<
                Option<ServiceBlockView>,
                Seq<char>,
            >(e@),
        },
{
    match given_step(answers, app, ".run") {
        None => Ok(None),
        Some(spec) => match text::split_once(&spec, ':') {
            None => Err(surround("malformed run answer '", &spec, "'")),
            Some((kind, rest)) => match run_target(report, answers, app, &kind, &rest, &spec) {
                Err(e) => Err(e),
                Ok(lines) => {
                    let mut out = text::own("[[services]]\nid = \"");
                    out.append(app);
                    out.append("\"\n");
                    out.append(&note_left_out(report, app, &kind));
                    out.append(&lines);
                    out.append(HEALTH_LINE);
                    Ok(Some(ServiceBlock { id: text::own(app), step: Some(spec), text: out }))
                },
            },
        },
    }
}

fn storybook_block(report: &Report, answers: &AnswerSet, app: &str) -> (r: Result<
    Option<ServiceBlock>,
    String,
>)
    ensures
        match r {
            Ok(block) => storybook_block_of(report@.facts, answers@.answers, app@) == Ok::<
                Option<ServiceBlockView>,
                Seq<char>,
            >(text::opt_view(block)),
            Err(e) => storybook_block_of(report@.facts, answers@.answers, app@) == Err::<
                Option<ServiceBlockView>,
                Seq<char>,
            >(e@),
        },
{
    match given_step(answers, app, ".storybook") {
        None => Ok(None),
        Some(spec) => {
            if let Some(run) = given_step(answers, app, ".run") {
                if text::same(&run, &spec) {
                    return Ok(None);
                }
            }
            match text::split_once(&spec, ':') {
                None => Err(surround("malformed storybook answer '", &spec, "'")),
                Some((kind, rest)) => match storybook_target(&kind, &rest) {
                    Err(e) => Err(e),
                    Ok(lines) => {
                        let id = if text::same(app, "storybook") {
                            text::own("storybook-dev")
                        } else {
                            text::own("storybook")
                        };
                        let mut out = if report.storybook_has_mcp(app) {
                            text::own("# @storybook/addon-mcp answers MCP at /mcp on this service\n\n")
                        } else {
                            text::own("")
                        };
                        out.append("[[services]]\nid = \"");
                        out.append(&id);
                        out.append("\"\n");
                        out.append(&lines);
                        out.append(HEALTH_LINE);
                        Ok(Some(ServiceBlock { id, step: Some(spec), text: out }))
                    },
                },
            }
        },
    }
}

// ---------------------------------------------------------------------------
// The plan
// ---------------------------------------------------------------------------

/// The ids of those of the first `k` questions that have no answer.
pub open spec fn unanswered_upto(
    unknowns: Seq<UnknownView>,
    answers: Seq<(Seq<char>, AnswerView)>,
    k: int,
) -> Seq<Seq<char>>
    decreases k,
{
    if k <= 0 {
        Seq::empty()
    } else if dict::lookup(answers, unknowns[k - 1].id) is Some {
        unanswered_upto(unknowns, answers, k - 1)
    } else {
        unanswered_upto(unknowns, answers, k - 1).push(unknowns[k - 1].id)
    }
}

/// What keeps answers from being used with a report.
pub open spec fn answers_error(report: ReportView, answers: AnswerSetView) -> Option<Seq<char>> {
    let missing = unanswered_upto(report.unknowns, answers.answers, report.unknowns.len() as int);
    if answers.answers_version != ANSWERS_VERSION {
        Some(
            "answers version "@ + text::decimal_of(answers.answers_version as nat)
                + " is not supported (expected 1)"@,
        )
    } else if answers.report_hash.len() > 0 && answers.report_hash != report.report_hash {
        Some(
            "answers were computed for report "@ + answers.report_hash + " but this report is "@
                + report.report_hash + "; re-run discovery"@,
        )
    } else if missing.len() > 0 {
        Some(
            "unanswered unknowns: "@ + text::join_of(missing, ", "@)
                + "\nrun `magictree init` interactively, or supply --answers"@,
        )
    } else {
        None
    }
}

/// The first text that is not in a list, from `k` on.
pub open spec fn stranger_from(names: Seq<Seq<char>>, known: Seq<Seq<char>>, k: int) -> Option<
    Seq<char>,
>
    decreases names.len() - k,
{
    if k < 0 || k >= names.len() {
        None
    } else if known.contains(names[k]) {
        stranger_from(names, known, k + 1)
    } else {
        Some(names[k])
    }
}

/// The apps of the default stack: those that were picked, in ascending order, or all of them.
pub open spec fn members_of(report: ReportView, answers: Seq<(Seq<char>, AnswerView)>) -> Result<
    Seq<Seq<char>>,
    Seq<char>,
> {
    let all = extractors::dirs_of(report.apps);
    match dict::lookup(answers, "stack.members"@) {
        None => Ok(all),
        Some(answer) => {
            let picked = extractors::with_members(
                Seq::empty(),
                answer.many(),
                answer.many().len() as int,
            );
            match stranger_from(picked, all, 0) {
                Some(name) => Err(
                    "stack.members lists '"@ + name + "', which discovery did not find"@,
                ),
                None => Ok(picked),
            }
        },
    }
}

/// The values given for a question.
pub open spec fn given_list(answers: Seq<(Seq<char>, AnswerView)>, id: Seq<char>) -> Seq<Seq<char>> {
    match dict::lookup(answers, id) {
        Some(answer) => answer.many(),
        None => Seq::empty(),
    }
}

/// Whether the stack is described at the repository root: there are several apps, or compose
/// services to manage that no app at the root owns.
pub open spec fn workspace_layer(report: ReportView, answers: Seq<(Seq<char>, AnswerView)>) -> bool {
    let at_root = report.apps.len() == 1 && report.apps[0].dir == "."@;
    let managed = given_list(answers, "compose.shared"@).len() > 0 || given_list(
        answers,
        "compose.expose"@,
    ).len() > 0;
    report.apps.len() > 1 || (managed && !at_root)
}

/// The compose services that the answers name.
pub open spec fn shared_blocks(report: ReportView, answers: Seq<(Seq<char>, AnswerView)>) -> Result<
    Seq<ServiceBlockView>,
    Seq<char>,
> {
    let shared = given_list(answers, "compose.shared"@);
    compose_blocks(
        report.facts,
        shared,
        given_list(answers, "compose.expose"@),
        shared.len() as int,
    )
}

/// The manifest at the repository root that describes the stack. Compose services live there,
/// because that is where their compose file's paths resolve from.
pub open spec fn workspace_manifest(
    report: ReportView,
    answers: Seq<(Seq<char>, AnswerView)>,
    stored: StoredView,
    root: Seq<char>,
    members: Seq<Seq<char>>,
) -> Result<GeneratedView, Seq<char>> {
    match shared_blocks(report, answers) {
        Err(e) => Err(e),
        Ok(services) => Ok(
            GeneratedView {
                path: paths::join_of(root, "magictree.toml"@),
                header: head_of(Some(stored)) + "\n[workspace]\napps = ["@ + text::join_of(
                    in_quotes(members),
                    ", "@,
                ) + "]\n"@,
                services,
                stored,
                records_answers: true,
            },
        ),
    }
}

/// A list with an element that may be there.
pub open spec fn with_block(list: Seq<ServiceBlockView>, block: Option<ServiceBlockView>) -> Seq<
    ServiceBlockView,
> {
    match block {
        Some(x) => list.push(x),
        None => list,
    }
}

/// The services of an app's manifest. A single app at the repository root owns the compose services
/// too.
pub open spec fn app_services(
    report: ReportView,
    answers: Seq<(Seq<char>, AnswerView)>,
    app: Seq<char>,
) -> Result<Seq<ServiceBlockView>, Seq<char>> {
    match run_block_of(report.facts, answers, app) {
        Err(e) => Err(e),
        Ok(run) => match storybook_block_of(report.facts, answers, app) {
            Err(e) => Err(e),
            Ok(storybook) => {
                let own = with_block(with_block(Seq::empty(), run), storybook);
                if workspace_layer(report, answers) {
                    Ok(own)
                } else {
                    match shared_blocks(report, answers) {
                        Err(e) => Err(e),
                        Ok(shared) => Ok(own + shared),
                    }
                }
            },
        },
    }
}

/// The manifest of an app.
pub open spec fn app_manifest(
    report: ReportView,
    answers: Seq<(Seq<char>, AnswerView)>,
    stored: StoredView,
    root: Seq<char>,
    app: AppFactsView,
) -> Result<GeneratedView, Seq<char>> {
    let dir = extractors::app_root_of(root, app.dir);
    let at_root = app.dir == "."@;
    match bootstrap_of(app, setups_of(answers, app.id)) {
        Err(e) => Err(e),
        Ok(section) => match app_services(report, answers, app.id) {
            Err(e) => Err(e),
            Ok(services) => Ok(
                GeneratedView {
                    path: paths::join_of(dir, "magictree.toml"@),
                    header: head_of(
                        if at_root {
                            Some(stored)
                        } else {
                            None
                        },
                    ) + "\n[app]\nid = \""@ + app.id + "\"\n"@ + (match section {
                        Some(lines) => "\n"@ + lines,
                        None => ""@,
                    }),
                    services,
                    stored: if at_root {
                        stored
                    } else {
                        StoredView::none()
                    },
                    records_answers: at_root,
                },
            ),
        },
    }
}

/// The manifests of those of the first `k` apps that belong to the stack.
pub open spec fn app_manifests(
    report: ReportView,
    answers: Seq<(Seq<char>, AnswerView)>,
    stored: StoredView,
    root: Seq<char>,
    members: Seq<Seq<char>>,
    k: int,
) -> Result<Seq<GeneratedView>, Seq<char>>
    decreases k,
{
    if k <= 0 {
        Ok(Seq::empty())
    } else {
        match app_manifests(report, answers, stored, root, members, k - 1) {
            Err(e) => Err(e),
            Ok(before) => if report.apps.len() > 1 && !members.contains(report.apps[k - 1].dir) {
                Ok(before)
            } else {
                match app_manifest(report, answers, stored, root, report.apps[k - 1]) {
                    Err(e) => Err(e),
                    Ok(generated) => Ok(before.push(generated)),
                }
            },
        }
    }
}

/// A list of manifests with one at its place, by path, behind one of the same path.
pub open spec fn with_manifest(list: Seq<GeneratedView>, x: GeneratedView) -> Seq<GeneratedView>
    decreases list.len(),
{
    if list.len() == 0 || !paths::path_before(x.path, list.last().path) {
        list.push(x)
    } else {
        with_manifest(list.drop_last(), x).push(list.last())
    }
}

/// The manifests in the order of their paths.
pub open spec fn by_path(list: Seq<GeneratedView>) -> Seq<GeneratedView>
    decreases list.len(),
{
    if list.len() == 0 {
        list
    } else {
        with_manifest(by_path(list.drop_last()), list.last())
    }
}

/// Every manifest that the report and answers imply, the one of the stack first.
pub open spec fn unsorted_plan(
    report: ReportView,
    answers: Seq<(Seq<char>, AnswerView)>,
    stored: StoredView,
    root: Seq<char>,
    members: Seq<Seq<char>>,
) -> Result<Seq<GeneratedView>, Seq<char>> {
    if workspace_layer(report, answers) {
        match workspace_manifest(report, answers, stored, root, members) {
            Err(e) => Err(e),
            Ok(workspace) => match app_manifests(
                report,
                answers,
                stored,
                root,
                members,
                report.apps.len() as int,
            ) {
                Err(e) => Err(e),
                Ok(apps) => Ok(seq![workspace] + apps),
            },
        }
    } else {
        app_manifests(report, answers, stored, root, members, report.apps.len() as int)
    }
}

/// Every manifest that the report and answers imply, in the order of their paths.
pub open spec fn plan_of(
    report: ReportView,
    answers: AnswerSetView,
    stored: StoredView,
    root: Seq<char>,
) -> Result<Seq<GeneratedView>, Seq<char>> {
    match answers_error(report, answers) {
        Some(e) => Err(e),
        None => match members_of(report, answers.answers) {
            Err(e) => Err(e),
            Ok(members) => match unsorted_plan(
                report,
                answers.answers,
                stored,
                root,
                members,
            ) {
                Err(e) => Err(e),
                Ok(list) => Ok(by_path(list)),
            },
        },
    }
}

fn check_answers(report: &Report, answers: &AnswerSet) -> (r: Option<String>)
    ensures
        text::opt_view(r) == answers_error(report@, answers@),
{
    if answers.answers_version != ANSWERS_VERSION {
        return Some(
            surround(
                "answers version ",
                &text::decimal(answers.answers_version as u64),
                " is not supported (expected 1)",
            ),
        );
    }
    if text::length(&answers.report_hash) > 0 && !text::same(
        &answers.report_hash,
        &report.report_hash,
    ) {
        let mut e = text::own("answers were computed for report ");
        e.append(&answers.report_hash);
        e.append(" but this report is ");
        e.append(&report.report_hash);
        e.append("; re-run discovery");
        return Some(e);
    }
    let ghost all = report@.unknowns;
    let mut missing: Vec<String> = Vec::new();
    let mut k: usize = 0;
    assert(text::views(missing@) =~= Seq::<Seq<char>>::empty());
    while k < report.unknowns.len()
        invariant
            all == report@.unknowns,
            k <= report.unknowns@.len(),
            text::views(missing@) == unanswered_upto(all, answers@.answers, k as int),
        decreases report.unknowns@.len() - k,
    {
        assert(all[k as int] == report.unknowns@[k as int]@);
        if !answers.answers.contains(&report.unknowns[k].id) {
            text::add(&mut missing, &report.unknowns[k].id);
        }
        k += 1;
    }
    if missing.len() > 0 {
        return Some(
            surround(
                "unanswered unknowns: ",
                &text::join(&missing, ", "),
                "\nrun `magictree init` interactively, or supply --answers",
            ),
        );
    }
    None
}

fn resolve_members(report: &Report, answers: &AnswerSet) -> (r: Result<Vec<String>, String>)
    ensures
        match r {
            Ok(members) => members_of(report@, answers@.answers) == Ok::<
                Seq<Seq<char>>,
                Seq<char>,
            >(text::views(members@)),
            Err(e) => members_of(report@, answers@.answers) == Err::<Seq<Seq<char>>, Seq<char>>(e@),
        },
{
    let all = extractors::app_dirs(&report.apps);
    match answers.answers.get("stack.members") {
        None => Ok(all),
        Some(answer) => {
            let values = answer.as_many();
            let ghost given = text::views(values@);
            let ghost known = text::views(all@);
            let mut picked: Vec<String> = Vec::new();
            let mut k: usize = 0;
            assert(text::views(picked@) =~= Seq::<Seq<char>>::empty());
            while k < values.len()
                invariant
                    given == text::views(values@),
                    k <= values@.len(),
                    text::views(picked@) == extractors::with_members(Seq::empty(), given, k as int),
                decreases values@.len() - k,
            {
                assert(given[k as int] == values@[k as int]@);
                dict::add_member(&mut picked, values[k].clone());
                k += 1;
            }
            let ghost names = text::views(picked@);
            let mut i: usize = 0;
            while i < picked.len()
                invariant
                    names == text::views(picked@),
                    known == text::views(all@),
                    known == extractors::dirs_of(report@.apps),
                    given == answer@.many(),
                    dict::lookup(answers@.answers, "stack.members"@) == Some(answer@),
                    names == extractors::with_members(Seq::empty(), given, given.len() as int),
                    i <= picked@.len(),
                    stranger_from(names, known, 0) == stranger_from(names, known, i as int),
                decreases picked@.len() - i,
            {
                assert(names[i as int] == picked@[i as int]@);
                if !text::among(&all, &picked[i]) {
                    return Err(
                        surround(
                            "stack.members lists '",
                            &picked[i],
                            "', which discovery did not find",
                        ),
                    );
                }
                i += 1;
            }
            Ok(picked)
        },
    }
}

fn answer_list(answers: &AnswerSet, id: &str) -> (r: Vec<String>)
    ensures
        text::views(r@) == given_list(answers@.answers, id@),
{
    match answers.answers.get(id) {
        Some(answer) => answer.as_many(),
        None => {
            let none: Vec<String> = Vec::new();
            assert(text::views(none@) =~= Seq::<Seq<char>>::empty());
            none
        },
    }
}

fn has_workspace_layer(report: &Report, answers: &AnswerSet) -> (r: bool)
    ensures
        r == workspace_layer(report@, answers@.answers),
{
    let ghost all = report@.apps;
    let at_root = report.apps.len() == 1 && text::same(&report.apps[0].dir, ".");
    assert(all.len() > 0 ==> all[0] == report.apps@[0]@);
    let managed = answer_list(answers, "compose.shared").len() > 0 || answer_list(
        answers,
        "compose.expose",
    ).len() > 0;
    report.apps.len() > 1 || (managed && !at_root)
}

fn plan_shared(report: &Report, answers: &AnswerSet) -> (r: Result<Vec<ServiceBlock>, String>)
    ensures
        match r {
            Ok(list) => shared_blocks(report@, answers@.answers) == Ok::<
                Seq<ServiceBlockView>,
                Seq<char>,
            >(text::views(list@)),
            Err(e) => shared_blocks(report@, answers@.answers) == Err::<
                Seq<ServiceBlockView>,
                Seq<char>,
            >(e@),
        },
{
    compose_services(
        report,
        &answer_list(answers, "compose.shared"),
        &answer_list(answers, "compose.expose"),
    )
}

fn plan_workspace(
    report: &Report,
    answers: &AnswerSet,
    stored: &Stored,
    root: &str,
    members: &Vec<String>,
) -> (r: Result<Generated, String>)
    ensures
        ({
            let manifest = workspace_manifest(
                report@,
                answers@.answers,
                stored@,
                root@,
                text::views(members@),
            );
            match r {
                Ok(generated) => manifest == Ok::<GeneratedView, Seq<char>>(generated@),
                Err(e) => manifest == Err::<GeneratedView, Seq<char>>(e@),
            }
        }),
{
    match plan_shared(report, answers) {
        Err(e) => Err(e),
        Ok(services) => {
            let mut header = manifest_head(Some(stored));
            header.append("\n[workspace]\napps = [");
            header.append(&text::join(&quote_all(members), ", "));
            header.append("]\n");
            Ok(
                Generated {
                    path: paths::join(root, "magictree.toml"),
                    header,
                    services,
                    stored: stored.clone(),
                    records_answers: true,
                },
            )
        },
    }
}

fn add_block(list: &mut Vec<ServiceBlock>, block: Option<ServiceBlock>)
    ensures
        text::views(final(list)@) == with_block(text::views(old(list)@), text::opt_view(block)),
{
    broadcast use text::views_push;

    if let Some(x) = block {
        list.push(x);
    }
}

fn plan_services(report: &Report, answers: &AnswerSet, app: &str) -> (r: Result<
    Vec<ServiceBlock>,
    String,
>)
    ensures
        match r {
            Ok(list) => app_services(report@, answers@.answers, app@) == Ok::<
                Seq<ServiceBlockView>,
                Seq<char>,
            >(text::views(list@)),
            Err(e) => app_services(report@, answers@.answers, app@) == Err::<
                Seq<ServiceBlockView>,
                Seq<char>,
            >(e@),
        },
{
    let run = match run_block(report, answers, app) {
        Err(e) => {
            return Err(e);
        },
        Ok(run) => run,
    };
    let storybook = match storybook_block(report, answers, app) {
        Err(e) => {
            return Err(e);
        },
        Ok(storybook) => storybook,
    };
    let mut services: Vec<ServiceBlock> = Vec::new();
    assert(text::views(services@) =~= Seq::<ServiceBlockView>::empty());
    add_block(&mut services, run);
    add_block(&mut services, storybook);
    if !has_workspace_layer(report, answers) {
        match plan_shared(report, answers) {
            Err(e) => {
                return Err(e);
            },
            Ok(shared) => {
                let ghost own = services@;
                let ghost list = shared@;
                let mut shared = shared;
                services.append(&mut shared);
                assert(text::views(services@) =~= text::views(own) + text::views(list));
            },
        }
    }
    Ok(services)
}

fn plan_app(
    report: &Report,
    answers: &AnswerSet,
    stored: &Stored,
    root: &str,
    app: &AppFacts,
) -> (r: Result<Generated, String>)
    ensures
        ({
            let manifest = app_manifest(
                report@,
                answers@.answers,
                stored@,
                root@,
                app@,
            );
            match r {
                Ok(generated) => manifest == Ok::<GeneratedView, Seq<char>>(generated@),
                Err(e) => manifest == Err::<GeneratedView, Seq<char>>(e@),
            }
        }),
{
    let dir = extractors::app_root(root, &app.dir);
    let at_root = text::same(&app.dir, ".");
    let section = match bootstrap_section(app, &given_setups(answers, &app.id)) {
        Err(e) => {
            return Err(e);
        },
        Ok(section) => section,
    };
    let services = match plan_services(report, answers, &app.id) {
        Err(e) => {
            return Err(e);
        },
        Ok(services) => services,
    };
    let mut header = manifest_head(
        if at_root {
            Some(stored)
        } else {
            None
        },
    );
    header.append("\n[app]\nid = \"");
    header.append(&app.id);
    header.append("\"\n");
    let lines = match section {
        Some(lines) => text::concat("\n", &lines),
        None => text::own(""),
    };
    header.append(&lines);
    Ok(
        Generated {
            path: paths::join(&dir, "magictree.toml"),
            header,
            services,
            stored: if at_root {
                stored.clone()
            } else {
                nothing_stored()
            },
            records_answers: at_root,
        },
    )
}

proof fn apps_fail_on(
    report: ReportView,
    answers: Seq<(Seq<char>, AnswerView)>,
    stored: StoredView,
    root: Seq<char>,
    members: Seq<Seq<char>>,
    k: int,
    n: int,
)
    requires
        0 < k <= n,
        app_manifests(report, answers, stored, root, members, k) is Err,
    ensures
        app_manifests(report, answers, stored, root, members, n) == app_manifests(
            report,
            answers,
            stored,
            root,
            members,
            k,
        ),
    decreases n - k,
{
    if k < n {
        apps_fail_on(report, answers, stored, root, members, k + 1, n);
    }
}

fn plan_apps(
    report: &Report,
    answers: &AnswerSet,
    stored: &Stored,
    root: &str,
    members: &Vec<String>,
) -> (r: Result<Vec<Generated>, String>)
    ensures
        ({
            let manifests = app_manifests(
                report@,
                answers@.answers,
                stored@,
                root@,
                text::views(members@),
                report@.apps.len() as int,
            );
            match r {
                Ok(list) => manifests == Ok::<Seq<GeneratedView>, Seq<char>>(text::views(list@)),
                Err(e) => manifests == Err::<Seq<GeneratedView>, Seq<char>>(e@),
            }
        }),
{
    let ghost apps = report@.apps;
    let ghost names = text::views(members@);
    let mut out: Vec<Generated> = Vec::new();
    let mut k: usize = 0;
    assert(text::views(out@) =~= Seq::<GeneratedView>::empty());
    while k < report.apps.len()
        invariant
            apps == report@.apps,
            names == text::views(members@),
            k <= report.apps@.len(),
            app_manifests(
                report@,
                answers@.answers,
                stored@,
                root@,
                names,
                k as int,
            ) == Ok::<Seq<GeneratedView>, Seq<char>>(text::views(out@)),
        decreases report.apps@.len() - k,
    {
        broadcast use text::views_push;

        assert(apps[k as int] == report.apps@[k as int]@);
        let left_out = report.apps.len() > 1 && !text::among(members, &report.apps[k].dir);
        if !left_out {
            match plan_app(report, answers, stored, root, &report.apps[k]) {
                Ok(generated) => {
                    out.push(generated);
                },
                Err(e) => {
                    proof {
                        apps_fail_on(
                            report@,
                            answers@.answers,
                            stored@,
                            root@,
                            names,
                            k + 1,
                            apps.len() as int,
                        );
                    }
                    return Err(e);
                },
            }
        }
        k += 1;
    }
    Ok(out)
}

fn place_manifest(list: &mut Vec<Generated>, x: Generated)
    ensures
        text::views(final(list)@) == with_manifest(text::views(old(list)@), x@),
{
    let ghost all = text::views(list@);
    let mut i: usize = list.len();
    assert(all.take(all.len() as int) =~= all);
    assert(with_manifest(all, x@) + all.skip(all.len() as int) =~= with_manifest(all, x@));
    while i > 0 && paths::is_path_before(&x.path, &list[i - 1].path)
        invariant
            all == text::views(list@),
            i <= list@.len(),
            with_manifest(all, x@) == with_manifest(all.take(i as int), x@) + all.skip(i as int),
        decreases i,
    {
        assert(all.take(i as int).drop_last() =~= all.take(i - 1));
        assert(all.take(i as int).last() == all[i - 1]);
        assert(with_manifest(all.take(i - 1), x@).push(all[i - 1]) + all.skip(i as int)
            =~= with_manifest(all.take(i - 1), x@) + all.skip(i - 1));
        i -= 1;
    }
    assert(i > 0 ==> all.take(i as int).last() == all[i - 1]);
    let ghost view = x@;
    list.insert(i, x);
    assert(text::views(list@) =~= all.take(i as int).push(view) + all.skip(i as int));
}

fn sort_manifests(list: &Vec<Generated>) -> (r: Vec<Generated>)
    ensures
        text::views(r@) == by_path(text::views(list@)),
{
    let ghost all = text::views(list@);
    let mut out: Vec<Generated> = Vec::new();
    let mut i: usize = 0;
    assert(text::views(out@) =~= all.take(0));
    while i < list.len()
        invariant
            all == text::views(list@),
            i <= list@.len(),
            text::views(out@) == by_path(all.take(i as int)),
        decreases list@.len() - i,
    {
        assert(all.take(i + 1).drop_last() =~= all.take(i as int));
        place_manifest(&mut out, list[i].clone());
        i += 1;
    }
    assert(all.take(i as int) =~= all);
    out
}

/// Build every manifest the report and answers imply, and nothing else: the repository itself is not
/// looked at.
pub fn plan(
    report: &Report,
    answers: &AnswerSet,
    record: &Stored,
    repo_root: &str,
) -> (r: Result<Vec<Generated>, String>)
    ensures
        ({
            let planned = plan_of(report@, answers@, record@, repo_root@);
            match r {
                Ok(list) => planned == Ok::<Seq<GeneratedView>, Seq<char>>(text::views(list@)),
                Err(e) => planned == Err::<Seq<GeneratedView>, Seq<char>>(e@),
            }
        }),
{
    if let Some(e) = check_answers(report, answers) {
        return Err(e);
    }
    let members = match resolve_members(report, answers) {
        Err(e) => {
            return Err(e);
        },
        Ok(members) => members,
    };
    let mut planned: Vec<Generated> = Vec::new();
    if has_workspace_layer(report, answers) {
        match plan_workspace(report, answers, record, repo_root, &members) {
            Err(e) => {
                return Err(e);
            },
            Ok(workspace) => {
                planned.push(workspace);
            },
        }
    }
    let ghost first = planned@;
    match plan_apps(report, answers, record, repo_root, &members) {
        Err(e) => {
            return Err(e);
        },
        Ok(apps) => {
            let ghost list = apps@;
            let mut apps = apps;
            planned.append(&mut apps);
            assert(text::views(planned@) =~= text::views(first) + text::views(list));
            assert(first.len() == 0 ==> text::views(planned@) =~= text::views(list));
            assert(first.len() == 1 ==> text::views(first) =~= seq![first[0]@]);
        },
    }
    Ok(sort_manifests(&planned))
}

// ---------------------------------------------------------------------------
// Updating a manifest
// ---------------------------------------------------------------------------

/// Whether a line sets a key.
pub open spec fn sets_key(line: Seq<char>, key: Seq<char>) -> bool {
    match text::strip_prefix_of(line, key) {
        Some(rest) => text::starts_with_of(text::trim_start_of(rest), "="@),
        None => false,
    }
}

/// Whether a line is part of the record.
pub open spec fn record_key(line: Seq<char>) -> bool {
    sets_key(line, "answers"@) || sets_key(line, "declined"@)
}

/// Whether a line is the comment that explains the record.
pub open spec fn record_comment(line: Seq<char>) -> bool {
    text::trim_end_of(line) == ANSWERS_COMMENT@
}

/// The first line of the record, from `k` on.
pub open spec fn record_from(lines: Seq<Seq<char>>, k: int) -> Option<int>
    decreases lines.len() - k,
{
    if k < 0 || k >= lines.len() {
        None
    } else if record_key(lines[k]) {
        Some(k)
    } else {
        record_from(lines, k + 1)
    }
}

/// Where the lines of the record that start at `k` end.
pub open spec fn record_end(lines: Seq<Seq<char>>, k: int) -> int
    decreases lines.len() - k,
{
    if 0 <= k < lines.len() && record_key(lines[k]) {
        record_end(lines, k + 1)
    } else {
        k
    }
}

/// The first line from `k` on that opens a table; the end where none does.
pub open spec fn table_from(lines: Seq<Seq<char>>, k: int) -> int
    decreases lines.len() - k,
{
    if k < 0 || k >= lines.len() || text::starts_with_of(lines[k], "["@) {
        k
    } else {
        table_from(lines, k + 1)
    }
}

/// The lines of a record.
pub open spec fn section_lines(stored: StoredView) -> Seq<Seq<char>> {
    match section_of(stored) {
        Some(section) => text::lines_of(section),
        None => Seq::empty(),
    }
}

/// The lines of a manifest with its record replaced as a whole, comment and both keys; or added
/// before the first table, since a bare key belongs to the table above it; or dropped when there is
/// nothing left to record. Every other line stays as it is.
pub open spec fn lines_with_record(lines: Seq<Seq<char>>, stored: StoredView) -> Seq<Seq<char>> {
    let section = section_lines(stored);
    match record_from(lines, 0) {
        Some(key) => {
            let start = if key > 0 && record_comment(lines[key - 1]) {
                key - 1
            } else {
                key
            };
            lines.take(start) + section + lines.skip(record_end(lines, key + 1))
        },
        None => if section.len() > 0 {
            lines.take(table_from(lines, 0)) + section + lines.skip(table_from(lines, 0))
        } else {
            lines
        },
    }
}

/// A manifest with its record replaced.
pub open spec fn with_answers_of(contents: Seq<char>, stored: StoredView) -> Seq<char> {
    text::join_of(lines_with_record(text::lines_of(contents), stored), "\n"@) + "\n"@
}

fn is_key(line: &str, key: &str) -> (r: bool)
    ensures
        r == sets_key(line@, key@),
{
    match text::strip_prefix(line, key) {
        Some(rest) => text::starts_with(&text::trim_start(&rest), "="),
        None => false,
    }
}

fn is_record_key(line: &str) -> (r: bool)
    ensures
        r == record_key(line@),
{
    is_key(line, "answers") || is_key(line, "declined")
}

fn find_record(lines: &Vec<String>) -> (r: Option<usize>)
    ensures
        match r {
            Some(k) => record_from(text::views(lines@), 0) == Some(k as int) && k < lines.len(),
            None => record_from(text::views(lines@), 0) is None,
        },
{
    let ghost all = text::views(lines@);
    let mut k: usize = 0;
    while k < lines.len()
        invariant
            all == text::views(lines@),
            k <= lines@.len(),
            record_from(all, 0) == record_from(all, k as int),
        decreases lines@.len() - k,
    {
        assert(all[k as int] == lines@[k as int]@);
        if is_record_key(&lines[k]) {
            return Some(k);
        }
        k += 1;
    }
    None
}

fn find_record_end(lines: &Vec<String>, from: usize) -> (r: usize)
    requires
        from <= lines@.len(),
    ensures
        r == record_end(text::views(lines@), from as int),
        from <= r <= lines@.len(),
{
    let ghost all = text::views(lines@);
    let mut k: usize = from;
    while k < lines.len() && is_record_key(&lines[k])
        invariant
            all == text::views(lines@),
            from <= k <= lines@.len(),
            record_end(all, from as int) == record_end(all, k as int),
        decreases lines@.len() - k,
    {
        k += 1;
    }
    k
}

fn find_table(lines: &Vec<String>) -> (r: usize)
    ensures
        r == table_from(text::views(lines@), 0),
        r <= lines@.len(),
{
    let ghost all = text::views(lines@);
    let mut k: usize = 0;
    while k < lines.len() && !text::starts_with(&lines[k], "[")
        invariant
            all == text::views(lines@),
            k <= lines@.len(),
            table_from(all, 0) == table_from(all, k as int),
        decreases lines@.len() - k,
    {
        k += 1;
    }
    k
}

fn splice(lines: &Vec<String>, from: usize, to: usize, section: &Vec<String>) -> (r: Vec<String>)
    requires
        from <= to <= lines@.len(),
    ensures
        text::views(r@) == text::views(lines@).take(from as int) + text::views(section@)
            + text::views(lines@).skip(to as int),
{
    let ghost all = text::views(lines@);
    let mut out: Vec<String> = Vec::new();
    let mut k: usize = 0;
    assert(text::views(out@) =~= all.take(0));
    while k < from
        invariant
            all == text::views(lines@),
            k <= from <= lines@.len(),
            text::views(out@) == all.take(k as int),
        decreases from - k,
    {
        text::add(&mut out, &lines[k]);
        k += 1;
        assert(text::views(out@) =~= all.take(k as int));
    }
    text::add_all(&mut out, section);
    let ghost before = text::views(out@);
    let mut i: usize = to;
    assert(text::views(out@) =~= before + all.subrange(to as int, to as int));
    while i < lines.len()
        invariant
            all == text::views(lines@),
            to <= i <= lines@.len(),
            text::views(out@) == before + all.subrange(to as int, i as int),
        decreases lines@.len() - i,
    {
        text::add(&mut out, &lines[i]);
        i += 1;
        assert(text::views(out@) =~= before + all.subrange(to as int, i as int));
    }
    assert(all.subrange(to as int, i as int) =~= all.skip(to as int));
    out
}

/// The manifest with its record replaced, or added before the first table, or dropped when there is
/// nothing left to record.
fn with_answers(contents: &str, stored: &Stored) -> (r: String)
    ensures
        r@ == with_answers_of(contents@, stored@),
{
    let lines = text::lines(contents);
    let ghost all = text::views(lines@);
    let section = match answers_section(stored) {
        Some(lines) => text::lines(&lines),
        None => {
            let none: Vec<String> = Vec::new();
            assert(text::views(none@) =~= Seq::<Seq<char>>::empty());
            none
        },
    };
    let out = match find_record(&lines) {
        Some(key) => {
            // The comment belongs to the lines it explains, so it goes with them.
            assert(key > 0 ==> all[key - 1] == lines@[key - 1]@);
            let start: usize = if key > 0 && text::same(
                &text::trim_end(&lines[key - 1]),
                ANSWERS_COMMENT,
            ) {
                key - 1
            } else {
                key
            };
            let end = find_record_end(&lines, key + 1);
            splice(&lines, start, end, &section)
        },
        None => if section.len() > 0 {
            let at = find_table(&lines);
            splice(&lines, at, at, &section)
        } else {
            lines
        },
    };
    let mut joined = text::join(&out, "\n");
    joined.append("\n");
    joined
}

/// The step that a command line runs, where it starts with the words that call a runner.
pub open spec fn called_step(command: Seq<char>, call: Seq<char>, runner: Seq<char>) -> Option<
    Seq<char>,
> {
    match text::strip_prefix_of(command, call) {
        Some(rest) => if text::words_of(rest).len() > 0 {
            Some(runner + ":"@ + text::words_of(rest)[0])
        } else {
            None
        },
        None => None,
    }
}

/// The step that `<runner> run` runs in a command line.
pub open spec fn command_step(command: Seq<char>, runner: Seq<char>) -> Option<Seq<char>> {
    called_step(command, runner + " run "@, runner)
}

/// Whether a command line runs a step: it calls the step's runner, or it is the command that the
/// step is, or the line that stands for a process of a Procfile.
pub open spec fn command_runs(command: Seq<char>, step: Seq<char>) -> bool {
    ||| command_step(command, "yarn"@) == Some(step)
    ||| command_step(command, "bun"@) == Some(step)
    ||| command_step(command, "npm"@) == Some(step)
    ||| command_step(command, "pnpm"@) == Some(step)
    ||| command_step(command, "mise"@) == Some(step)
    ||| command_step(command, "uv"@) == Some(step)
    ||| called_step(command, "just "@, "just"@) == Some(step)
    ||| step == "command:"@ + command
    ||| (text::strip_prefix_of(step, "procfile:"@) matches Some(name) && command
        == "<command from Procfile:"@ + name + ">"@)
}

/// The step an existing service runs, in the `<runner>:<recipe>` form the run answers use, when the
/// service declares a target discovery could have offered. Nothing for a compose service.
pub open spec fn declared_step_of(service: ServiceView) -> Option<Seq<char>> {
    match service.target {
        Some(TargetView::Npm { script, .. }) => Some("npm:"@ + script),
        Some(TargetView::Pnpm { script, .. }) => Some("pnpm:"@ + script),
        Some(TargetView::Just { recipe, .. }) => Some("just:"@ + recipe),
        Some(TargetView::Mise { task, .. }) => Some("mise:"@ + task),
        Some(TargetView::Uv { script, .. }) => match script {
            Some(name) => Some("uv:"@ + name),
            None => None,
        },
        _ => None,
    }
}

/// Whether a manifest declares a service of this id.
pub open spec fn declares_id(services: Seq<ServiceView>, id: Seq<char>) -> bool {
    exists|i: int| 0 <= i < services.len() && (#[trigger] services[i]).id == id
}

/// Whether a service runs a step: by its target, or by a command, as a step is written whose runner
/// has no target.
pub open spec fn runs_step(service: ServiceView, step: Seq<char>) -> bool {
    ||| declared_step_of(service) == Some(step)
    ||| (service.command matches Some(command) && command_runs(command, step))
    ||| (service.target matches Some(TargetView::Command { command }) && command_runs(
        command,
        step,
    ))
}

/// Whether a manifest runs this step.
pub open spec fn declares_step(services: Seq<ServiceView>, step: Seq<char>) -> bool {
    exists|i: int| 0 <= i < services.len() && runs_step(#[trigger] services[i], step)
}

/// Whether a manifest lacks a service. A manifest may declare a step under a name of its own: the
/// app's service renamed, or its app id chosen over the derived one. The step is what must not run
/// twice, so a service the manifest already runs is not added again.
pub open spec fn lacks(services: Seq<ServiceView>, block: ServiceBlockView) -> bool {
    !declares_id(services, block.id) && !(match block.step {
        Some(step) => declares_step(services, step),
        None => false,
    })
}

/// The blocks among the first `k` that a manifest lacks.
pub open spec fn missing_upto(services: Seq<ServiceView>, blocks: Seq<ServiceBlockView>, k: int) -> Seq<
    ServiceBlockView,
>
    decreases k,
{
    if k <= 0 {
        Seq::empty()
    } else if lacks(services, blocks[k - 1]) {
        missing_upto(services, blocks, k - 1).push(blocks[k - 1])
    } else {
        missing_upto(services, blocks, k - 1)
    }
}

/// The ids among the first `k` answers that differ from the recorded ones.
pub open spec fn changed_upto(
    stored: Seq<(Seq<char>, AnswerView)>,
    before: Seq<(Seq<char>, AnswerView)>,
    k: int,
) -> Seq<Seq<char>>
    decreases k,
{
    if k <= 0 {
        Seq::empty()
    } else {
        match dict::lookup(before, stored[k - 1].0) {
            Some(previous) => if previous != stored[k - 1].1 {
                changed_upto(stored, before, k - 1).push(stored[k - 1].0)
            } else {
                changed_upto(stored, before, k - 1)
            },
            None => changed_upto(stored, before, k - 1),
        }
    }
}

/// A block's text without a section comment the manifest already carries. The comment introduces a
/// group of services, so a manifest that has it must not gain a second copy when a service joins the
/// group later.
pub open spec fn uncommented(block: Seq<char>, existing: Seq<char>) -> Seq<char> {
    if text::contains_of(existing, SHARED_SERVICES_COMMENT@) {
        match text::strip_prefix_of(block, SHARED_SERVICES_COMMENT@ + "\n"@) {
            Some(rest) => text::without_leading(rest, '\n'),
            None => block,
        }
    } else {
        block
    }
}

/// A manifest with the first `k` blocks appended, each after an empty line.
pub open spec fn appended(contents: Seq<char>, blocks: Seq<ServiceBlockView>, k: int) -> Seq<char>
    decreases k,
{
    if k <= 0 {
        contents
    } else {
        let before = appended(contents, blocks, k - 1) + "\n"@;
        before + uncommented(blocks[k - 1].text, before)
    }
}

/// A text that ends its last line.
pub open spec fn line_ended(contents: Seq<char>) -> Seq<char> {
    if text::ends_with_of(contents, "\n"@) {
        contents
    } else {
        contents + "\n"@
    }
}

/// The ids of blocks.
pub open spec fn block_ids(blocks: Seq<ServiceBlockView>) -> Seq<Seq<char>> {
    Seq::new(blocks.len(), |i: int| blocks[i].id)
}

/// What an existing manifest becomes: the record is brought up to date even when the manifest needs
/// no new service, since a question answered differently is still worth remembering; the services
/// the answers imply and the file does not declare are appended; every other line stays.
pub open spec fn updated(
    file: GeneratedView,
    existing: Seq<char>,
    services: Seq<ServiceView>,
    before: StoredView,
) -> (AppliedView, Seq<char>) {
    let recorded = if file.records_answers && before != file.stored {
        Some(
            changed_upto(file.stored.answers, before.answers, file.stored.answers.len() as int),
        )
    } else {
        None
    };
    let missing = missing_upto(services, file.services, file.services.len() as int);
    let contents = if recorded is Some {
        with_answers_of(existing, file.stored)
    } else {
        existing
    };
    if missing.len() == 0 && recorded is None {
        (AppliedView::Unchanged(file.path), existing)
    } else {
        (
            AppliedView::Updated { path: file.path, added: block_ids(missing), recorded },
            if missing.len() == 0 {
                contents
            } else {
                appended(line_ended(contents), missing, missing.len() as int)
            },
        )
    }
}

/// What is known of a manifest file: its text, and what reading the manifest in it gave.
#[derive(Debug)]
pub struct Existing {
    pub contents: String,
    pub reading: Reading,
}

/// The contents of an [`Existing`].
#[verifier::ext_equal]
pub struct ExistingView {
    pub contents: Seq<char>,
    pub reading: ReadingView,
}

impl View for Existing {
    type V = ExistingView;

    open spec fn view(&self) -> ExistingView {
        ExistingView { contents: self.contents@, reading: self.reading@ }
    }
}

/// What becomes of one file: written whole where it does not exist or is forced, added to where it
/// does.
pub open spec fn decided_of(file: GeneratedView, existing: Option<ExistingView>, force: bool) -> Result<
    (AppliedView, Seq<char>),
    Seq<char>,
> {
    match existing {
        None => Ok((AppliedView::Created(file.path), file.whole())),
        Some(found) => if force {
            Ok((AppliedView::Created(file.path), file.whole()))
        } else {
            match found.reading {
                ReadingView::Failed(e) => Err(
                    "reading the services of "@ + file.path + ": "@ + e,
                ),
                ReadingView::Parsed(manifest) => if file.records_answers {
                    match stored_of(found.contents) {
                        None => Err(
                            "reading the answers of "@ + file.path
                                + ": reading the recorded answers"@,
                        ),
                        Some(before) => Ok(
                            updated(file, found.contents, manifest.services, before),
                        ),
                    }
                } else {
                    Ok(updated(file, found.contents, manifest.services, StoredView::none()))
                },
            }
        },
    }
}

/// What becomes of the first `k` files. Every file is decided before any of them is written, so a
/// manifest that cannot be read leaves the run without half of it applied.
pub open spec fn decided_upto(
    planned: Seq<GeneratedView>,
    existing: Seq<Option<ExistingView>>,
    force: bool,
    k: int,
) -> Result<Seq<(AppliedView, Seq<char>)>, Seq<char>>
    decreases k,
{
    if k <= 0 {
        Ok(Seq::empty())
    } else {
        match decided_upto(planned, existing, force, k - 1) {
            Err(e) => Err(e),
            Ok(before) => match decided_of(planned[k - 1], existing[k - 1], force) {
                Err(e) => Err(e),
                Ok(decision) => Ok(before.push(decision)),
            },
        }
    }
}

fn is_called(command: &str, call: &str, runner: &str, step: &str) -> (r: bool)
    ensures
        r == (called_step(command@, call@, runner@) == Some(step@)),
{
    match text::strip_prefix(command, call) {
        Some(rest) => {
            let words = text::words(&rest);
            if words.len() > 0 {
                assert(text::views(words@)[0] == words@[0]@);
                let mut known = text::own(runner);
                known.append(":");
                known.append(&words[0]);
                text::same(&known, step)
            } else {
                false
            }
        },
        None => false,
    }
}

fn is_run_by(command: &str, runner: &str, step: &str) -> (r: bool)
    ensures
        r == (command_step(command@, runner@) == Some(step@)),
{
    is_called(command, &text::concat(runner, " run "), runner, step)
}

fn is_command_of(command: &str, step: &str) -> (r: bool)
    ensures
        r == command_runs(command@, step@),
{
    if is_run_by(command, "yarn", step) || is_run_by(command, "bun", step) || is_run_by(
        command,
        "npm",
        step,
    ) || is_run_by(command, "pnpm", step) || is_run_by(command, "mise", step) || is_run_by(
        command,
        "uv",
        step,
    ) || is_called(command, "just ", "just", step) || text::same(
        step,
        &text::concat("command:", command),
    ) {
        return true;
    }
    match text::strip_prefix(step, "procfile:") {
        Some(name) => text::same(command, &surround("<command from Procfile:", &name, ">")),
        None => false,
    }
}

fn is_run(service: &Service, step: &str) -> (r: bool)
    ensures
        r == runs_step(service@, step@),
{
    if let Some(known) = declared_step(service) {
        if text::same(&known, step) {
            return true;
        }
    }
    if let Some(command) = &service.command {
        if is_command_of(command, step) {
            return true;
        }
    }
    match &service.target {
        Some(Target::Command { command }) => is_command_of(command, step),
        _ => false,
    }
}

fn declared_step(service: &Service) -> (r: Option<String>)
    ensures
        text::opt_view(r) == declared_step_of(service@),
{
    match &service.target {
        Some(Target::Npm { script, .. }) => Some(text::concat("npm:", script)),
        Some(Target::Pnpm { script, .. }) => Some(text::concat("pnpm:", script)),
        Some(Target::Just { recipe, .. }) => Some(text::concat("just:", recipe)),
        Some(Target::Mise { task, .. }) => Some(text::concat("mise:", task)),
        Some(Target::Uv { script, .. }) => match script {
            Some(name) => Some(text::concat("uv:", name)),
            None => None,
        },
        _ => None,
    }
}

fn is_missing(services: &Vec<Service>, block: &ServiceBlock) -> (r: bool)
    ensures
        r == lacks(text::views(services@), block@),
{
    let ghost all = text::views(services@);
    let mut k: usize = 0;
    while k < services.len()
        invariant
            all == text::views(services@),
            k <= services@.len(),
            forall|i: int| 0 <= i < k ==> (#[trigger] all[i]).id != block@.id,
            forall|i: int|
                0 <= i < k ==> (block@.step matches Some(step) ==> !runs_step(
                    #[trigger] all[i],
                    step,
                )),
        decreases services@.len() - k,
    {
        assert(all[k as int] == services@[k as int]@);
        if text::same(&services[k].id, &block.id) {
            assert(declares_id(all, block@.id));
            return false;
        }
        if let Some(step) = &block.step {
            if is_run(&services[k], step) {
                assert(declares_step(all, step@));
                return false;
            }
        }
        k += 1;
    }
    true
}

fn missing_blocks(services: &Vec<Service>, blocks: &Vec<ServiceBlock>) -> (r: Vec<ServiceBlock>)
    ensures
        text::views(r@) == missing_upto(
            text::views(services@),
            text::views(blocks@),
            blocks@.len() as int,
        ),
{
    let ghost known = text::views(services@);
    let ghost all = text::views(blocks@);
    let mut out: Vec<ServiceBlock> = Vec::new();
    let mut k: usize = 0;
    assert(text::views(out@) =~= Seq::<ServiceBlockView>::empty());
    while k < blocks.len()
        invariant
            known == text::views(services@),
            all == text::views(blocks@),
            k <= blocks@.len(),
            text::views(out@) == missing_upto(known, all, k as int),
        decreases blocks@.len() - k,
    {
        broadcast use text::views_push;

        assert(all[k as int] == blocks@[k as int]@);
        if is_missing(services, &blocks[k]) {
            out.push(blocks[k].clone());
        }
        k += 1;
    }
    out
}

fn changed_answers(stored: &Stored, before: &Stored) -> (r: Vec<String>)
    ensures
        text::views(r@) == changed_upto(
            stored@.answers,
            before@.answers,
            stored@.answers.len() as int,
        ),
{
    let mut out: Vec<String> = Vec::new();
    let n: usize = stored.answers.len();
    let mut k: usize = 0;
    assert(text::views(out@) =~= Seq::<Seq<char>>::empty());
    while k < n
        invariant
            n == stored@.answers.len(),
            k <= n,
            text::views(out@) == changed_upto(stored@.answers, before@.answers, k as int),
        decreases n - k,
    {
        let id = stored.answers.key_at(k);
        if let Some(previous) = before.answers.get(id) {
            if !previous.same(stored.answers.value_at(k)) {
                text::add(&mut out, id);
            }
        }
        k += 1;
    }
    out
}

fn same_answers(a: &Dict<Answer>, b: &Dict<Answer>) -> (r: bool)
    ensures
        r == (a@ == b@),
{
    let n: usize = a.len();
    if n != b.len() {
        return false;
    }
    let mut k: usize = 0;
    while k < n
        invariant
            n == a@.len(),
            n == b@.len(),
            k <= n,
            forall|i: int| 0 <= i < k ==> #[trigger] a@[i] == b@[i],
        decreases n - k,
    {
        if !text::same(a.key_at(k), b.key_at(k)) || !a.value_at(k).same(b.value_at(k)) {
            assert(a@[k as int] != b@[k as int]);
            return false;
        }
        k += 1;
    }
    assert(a@ =~= b@);
    true
}

fn same_lists(a: &Dict<Texts>, b: &Dict<Texts>) -> (r: bool)
    ensures
        r == (a@ == b@),
{
    let n: usize = a.len();
    if n != b.len() {
        return false;
    }
    let mut k: usize = 0;
    while k < n
        invariant
            n == a@.len(),
            n == b@.len(),
            k <= n,
            forall|i: int| 0 <= i < k ==> #[trigger] a@[i] == b@[i],
        decreases n - k,
    {
        if !text::same(a.key_at(k), b.key_at(k)) || !text::same_list(
            &a.value_at(k).list,
            &b.value_at(k).list,
        ) {
            assert(a@[k as int] != b@[k as int]);
            return false;
        }
        k += 1;
    }
    assert(a@ =~= b@);
    true
}

impl Stored {
    /// Whether two records are the same.
    pub fn same(&self, other: &Stored) -> (r: bool)
        ensures
            r == (self@ == other@),
    {
        same_answers(&self.answers, &other.answers) && same_lists(&self.declined, &other.declined)
    }
}

fn without_repeated_comment(block: &str, existing: &str) -> (r: String)
    ensures
        r@ == uncommented(block@, existing@),
{
    if !text::contains(existing, SHARED_SERVICES_COMMENT) {
        return text::own(block);
    }
    match text::strip_prefix(block, &text::concat(SHARED_SERVICES_COMMENT, "\n")) {
        Some(rest) => text::strip_leading(&rest, '\n'),
        None => text::own(block),
    }
}

fn append_blocks(contents: &str, blocks: &Vec<ServiceBlock>) -> (r: String)
    ensures
        r@ == appended(line_ended(contents@), text::views(blocks@), blocks@.len() as int),
{
    let ghost all = text::views(blocks@);
    let ghost start = line_ended(contents@);
    let mut out = text::own(contents);
    if !text::ends_with(contents, "\n") {
        out.append("\n");
    }
    let mut k: usize = 0;
    while k < blocks.len()
        invariant
            all == text::views(blocks@),
            k <= blocks@.len(),
            out@ == appended(start, all, k as int),
        decreases blocks@.len() - k,
    {
        assert(all[k as int] == blocks@[k as int]@);
        out.append("\n");
        let more = without_repeated_comment(&blocks[k].text, &out);
        out.append(&more);
        k += 1;
    }
    out
}

fn ids_of(blocks: &Vec<ServiceBlock>) -> (r: Vec<String>)
    ensures
        text::views(r@) == block_ids(text::views(blocks@)),
{
    let ghost goal = block_ids(text::views(blocks@));
    let mut out: Vec<String> = Vec::new();
    let mut i: usize = 0;
    assert(text::views(out@) =~= goal.take(0));
    while i < blocks.len()
        invariant
            goal == block_ids(text::views(blocks@)),
            i <= blocks@.len(),
            text::views(out@) == goal.take(i as int),
        decreases blocks@.len() - i,
    {
        text::add(&mut out, &blocks[i].id);
        i += 1;
        assert(text::views(out@) =~= goal.take(i as int));
    }
    assert(goal.take(i as int) =~= goal);
    out
}

fn update(file: &Generated, existing: &str, services: &Vec<Service>, before: &Stored) -> (r: (
    Applied,
    String,
))
    ensures
        (r.0@, r.1@) == updated(file@, existing@, text::views(services@), before@),
{
    let recorded = if file.records_answers && !before.same(&file.stored) {
        Some(Texts { list: changed_answers(&file.stored, before) })
    } else {
        None
    };
    let missing = missing_blocks(services, &file.services);
    if missing.len() == 0 && recorded.is_none() {
        return (Applied::Unchanged(file.path.clone()), text::own(existing));
    }
    let contents = if recorded.is_some() {
        with_answers(existing, &file.stored)
    } else {
        text::own(existing)
    };
    let written = if missing.len() == 0 {
        contents
    } else {
        append_blocks(&contents, &missing)
    };
    (Applied::Updated { path: file.path.clone(), added: ids_of(&missing), recorded }, written)
}

fn decide_one(file: &Generated, existing: &Option<Existing>, force: bool) -> (r: Result<
    (Applied, String),
    String,
>)
    ensures
        match r {
            Ok((applied, contents)) => decided_of(file@, text::opt_view(*existing), force) == Ok::<
                (AppliedView, Seq<char>),
                Seq<char>,
            >((applied@, contents@)),
            Err(e) => decided_of(file@, text::opt_view(*existing), force) == Err::<
                (AppliedView, Seq<char>),
                Seq<char>,
            >(e@),
        },
{
    match existing {
        None => Ok((Applied::Created(file.path.clone()), file.contents())),
        Some(found) => {
            if force {
                return Ok((Applied::Created(file.path.clone()), file.contents()));
            }
            match &found.reading {
                Reading::Failed(e) => {
                    let mut error = text::own("reading the services of ");
                    error.append(&file.path);
                    error.append(": ");
                    error.append(e);
                    Err(error)
                },
                Reading::Parsed(manifest) => if file.records_answers {
                    match read_answers(&found.contents) {
                        Err(_) => Err(
                            surround(
                                "reading the answers of ",
                                &file.path,
                                ": reading the recorded answers",
                            ),
                        ),
                        Ok(before) => Ok(
                            update(file, &found.contents, &manifest.services, &before),
                        ),
                    }
                } else {
                    Ok(update(file, &found.contents, &manifest.services, &nothing_stored()))
                },
            }
        },
    }
}

proof fn decisions_fail_on(
    planned: Seq<GeneratedView>,
    existing: Seq<Option<ExistingView>>,
    force: bool,
    k: int,
    n: int,
)
    requires
        0 < k <= n,
        decided_upto(planned, existing, force, k) is Err,
    ensures
        decided_upto(planned, existing, force, n) == decided_upto(planned, existing, force, k),
    decreases n - k,
{
    if k < n {
        decisions_fail_on(planned, existing, force, k + 1, n);
    }
}

/// The views of what may be known of files.
pub open spec fn existing_views(existing: Seq<Option<Existing>>) -> Seq<Option<ExistingView>> {
    Seq::new(existing.len(), |i: int| text::opt_view(existing[i]))
}

/// The views of decisions.
pub open spec fn decision_views(decided: Seq<(Applied, String)>) -> Seq<(AppliedView, Seq<char>)> {
    Seq::new(decided.len(), |i: int| (decided[i].0@, decided[i].1@))
}

/// What every manifest would become: the outcome for each file, and the whole file that outcome
/// leaves behind. `existing` holds what is known of the file of each planned manifest.
///
/// A file that does not exist is written whole. One that does is added to: the services the answers
/// imply and the file does not declare are appended, and every other line, comment and value is left
/// as it is. `force` regenerates the whole file from discovery instead, which discards local edits.
pub fn preview(planned: &Vec<Generated>, existing: &Vec<Option<Existing>>, force: bool) -> (r: Result<
    Vec<(Applied, String)>,
    String,
>)
    requires
        planned@.len() == existing@.len(),
    ensures
        ({
            let decided = decided_upto(
                text::views(planned@),
                existing_views(existing@),
                force,
                planned@.len() as int,
            );
            match r {
                Ok(list) => decided == Ok::<Seq<(AppliedView, Seq<char>)>, Seq<char>>(
                    decision_views(list@),
                ),
                Err(e) => decided == Err::<Seq<(AppliedView, Seq<char>)>, Seq<char>>(e@),
            }
        }),
{
    let ghost files = text::views(planned@);
    let ghost found = existing_views(existing@);
    let mut out: Vec<(Applied, String)> = Vec::new();
    let mut k: usize = 0;
    assert(decision_views(out@) =~= Seq::<(AppliedView, Seq<char>)>::empty());
    while k < planned.len()
        invariant
            files == text::views(planned@),
            found == existing_views(existing@),
            planned@.len() == existing@.len(),
            k <= planned@.len(),
            decided_upto(files, found, force, k as int) == Ok::<
                Seq<(AppliedView, Seq<char>)>,
                Seq<char>,
            >(decision_views(out@)),
        decreases planned@.len() - k,
    {
        assert(files[k as int] == planned@[k as int]@);
        match decide_one(&planned[k], &existing[k], force) {
            Ok(decision) => {
                let ghost before = out@;
                let ghost view = (decision.0@, decision.1@);
                out.push(decision);
                assert(decision_views(out@) =~= decision_views(before).push(view));
            },
            Err(e) => {
                proof {
                    decisions_fail_on(files, found, force, k + 1, files.len() as int);
                }
                return Err(e);
            },
        }
        k += 1;
    }
    Ok(out)
}

// ---------------------------------------------------------------------------
// Warnings
// ---------------------------------------------------------------------------

/// The facts among the first `k` that concern an app: its own, and every fact where the app is the
/// repository itself.
pub open spec fn concerning(facts: Seq<FactView>, app: AppFactsView, k: int) -> Seq<FactView>
    decreases k,
{
    if k <= 0 {
        Seq::empty()
    } else if facts[k - 1].app == Some(app.id) || app.dir == "."@ {
        concerning(facts, app, k - 1).push(facts[k - 1])
    } else {
        concerning(facts, app, k - 1)
    }
}

/// The kind of file that holds the steps of a runner.
pub open spec fn runner_file(kind: Seq<char>) -> Option<FactKind> {
    if kind == "npm"@ || kind == "pnpm"@ || kind == "yarn"@ || kind == "bun"@ {
        Some(FactKind::Node)
    } else if kind == "just"@ {
        Some(FactKind::Just)
    } else if kind == "mise"@ {
        Some(FactKind::Mise)
    } else if kind == "uv"@ {
        Some(FactKind::Python)
    } else if kind == "procfile"@ {
        Some(FactKind::Procfile)
    } else {
        None
    }
}

/// The literals of one step of one fact, among the first `k`.
pub open spec fn pinned_in(
    pairs: Seq<(FactView, PortLiteralFactView)>,
    fact: Seq<char>,
    step: Seq<char>,
    k: int,
) -> Seq<PortLiteralFactView>
    decreases k,
{
    if k <= 0 {
        Seq::empty()
    } else if pairs[k - 1].0.id == fact && pairs[k - 1].1.container == Some(step) {
        pinned_in(pairs, fact, step, k - 1).push(pairs[k - 1].1)
    } else {
        pinned_in(pairs, fact, step, k - 1)
    }
}

/// The ports of literals.
pub open spec fn port_texts(literals: Seq<PortLiteralFactView>) -> Seq<Seq<char>> {
    Seq::new(literals.len(), |i: int| text::decimal_of(literals[i].port as nat))
}

/// What is said of a step that pins ports: every port it pins, and the fix for the first.
pub open spec fn step_warning(
    pairs: Seq<(FactView, PortLiteralFactView)>,
    fact: FactView,
    step: Seq<char>,
    variable: Seq<char>,
) -> Seq<char> {
    let pinned = pinned_in(pairs, fact.id, step, pairs.len() as int);
    fact.source + " "@ + ports::step_label_of(fact.kind, step) + " pins port "@ + text::join_of(
        port_texts(pinned),
        " and "@,
    ) + "; "@ + (if pinned.len() > 0 {
        ports::suggestion_of(pinned[0], Some(variable))
    } else {
        ""@
    })
}

/// Whether a fact is among the first `k` of a list of pairs.
pub open spec fn seen_before(sites: Seq<(FactView, PortLiteralFactView)>, id: Seq<char>, k: int) -> bool {
    exists|i: int| 0 <= i < k && (#[trigger] sites[i]).0.id == id
}

/// What is said of the first `k` places that pin a port: one warning per step, naming every port it
/// pins.
pub open spec fn site_warnings(
    pairs: Seq<(FactView, PortLiteralFactView)>,
    sites: Seq<(FactView, PortLiteralFactView)>,
    step: Seq<char>,
    variable: Seq<char>,
    k: int,
) -> Seq<Seq<char>>
    decreases k,
{
    if k <= 0 {
        Seq::empty()
    } else {
        let before = site_warnings(pairs, sites, step, variable, k - 1);
        if seen_before(sites, sites[k - 1].0.id, k - 1) {
            before
        } else {
            before.push(step_warning(pairs, sites[k - 1].0, step, variable))
        }
    }
}

/// What is said of the first `k` literals of a raw command.
pub open spec fn command_warnings(
    command: Seq<char>,
    literals: Seq<PortLiteralView>,
    variable: Seq<char>,
    k: int,
) -> Seq<Seq<char>>
    decreases k,
{
    if k <= 0 {
        Seq::empty()
    } else {
        let literal = literals[k - 1];
        command_warnings(command, literals, variable, k - 1).push(
            "the command `"@ + command + "` pins port "@ + text::decimal_of(literal.port as nat)
                + "; "@ + ports::suggestion_of(
                PortLiteralFactView {
                    port: literal.port,
                    kind: literal.kind,
                    literal: literal.literal,
                    container: None,
                    text: command,
                },
                Some(variable),
            ),
        )
    }
}

/// What is said of an app whose own service runs this step.
pub open spec fn run_warnings(
    facts: Seq<FactView>,
    variable: Seq<char>,
    kind: Seq<char>,
    rest: Seq<char>,
) -> Seq<Seq<char>> {
    match runner_file(kind) {
        Some(file) => {
            let sites = ports::sites_of(facts, file, rest);
            site_warnings(ports::all_of(facts), sites, rest, variable, sites.len() as int)
        },
        None => if kind == "command"@ {
            command_warnings(rest, ports::scan_of(rest), variable, ports::scan_of(rest).len() as int)
        } else {
            Seq::empty()
        },
    }
}

/// What is said of one app. Storybook is started with the allocated port on its command line, so
/// the literal its script pins is overridden rather than a hazard.
pub open spec fn app_warnings(
    report: ReportView,
    answers: Seq<(Seq<char>, AnswerView)>,
    app: AppFactsView,
) -> Seq<Seq<char>> {
    match step_answer(answers, app.id + ".run"@) {
        None => Seq::empty(),
        Some(spec) => match text::split_once_of(spec, ':') {
            None => Seq::empty(),
            Some((kind, rest)) => if starts_storybook(report.facts, app.id, spec) {
                Seq::empty()
            } else {
                run_warnings(
                    concerning(report.facts, app, report.facts.len() as int),
                    port_variable_of(answers, app.id),
                    kind,
                    rest,
                )
            },
        },
    }
}

/// What is said of the first `k` apps.
pub open spec fn warnings_upto(
    report: ReportView,
    answers: Seq<(Seq<char>, AnswerView)>,
    k: int,
) -> Seq<Seq<char>>
    decreases k,
{
    if k <= 0 {
        Seq::empty()
    } else {
        warnings_upto(report, answers, k - 1) + app_warnings(report, answers, report.apps[k - 1])
    }
}

fn facts_concerning<'a>(report: &'a Report, app: &AppFacts) -> (r: Vec<&'a Fact>)
    ensures
        text::views(r@) == concerning(report@.facts, app@, report@.facts.len() as int),
{
    let ghost all = report@.facts;
    let mut out: Vec<&'a Fact> = Vec::new();
    let mut k: usize = 0;
    assert(text::views(out@) =~= Seq::<FactView>::empty());
    while k < report.facts.len()
        invariant
            all == report@.facts,
            k <= report.facts@.len(),
            text::views(out@) == concerning(all, app@, k as int),
        decreases report.facts@.len() - k,
    {
        broadcast use text::views_push;

        let fact = &report.facts[k];
        assert(all[k as int] == fact@);
        if fact.belongs_to(&app.id) || text::same(&app.dir, ".") {
            out.push(fact);
        }
        k += 1;
    }
    out
}

fn file_of_runner(kind: &str) -> (r: Option<FactKind>)
    ensures
        r == runner_file(kind@),
{
    if text::same(kind, "npm") || text::same(kind, "pnpm") || text::same(kind, "yarn") || text::same(
        kind,
        "bun",
    ) {
        Some(FactKind::Node)
    } else if text::same(kind, "just") {
        Some(FactKind::Just)
    } else if text::same(kind, "mise") {
        Some(FactKind::Mise)
    } else if text::same(kind, "uv") {
        Some(FactKind::Python)
    } else if text::same(kind, "procfile") {
        Some(FactKind::Procfile)
    } else {
        None
    }
}

fn warn_step(
    pairs: &Vec<(&Fact, &PortLiteralFact)>,
    fact: &Fact,
    step: &str,
    variable: &str,
) -> (r: String)
    ensures
        r@ == step_warning(text::views(pairs@), fact@, step@, variable@),
{
    let ghost all = text::views(pairs@);
    let mut listed: Vec<String> = Vec::new();
    let mut first: Option<usize> = None;
    let mut k: usize = 0;
    let ghost none = pinned_in(all, fact@.id, step@, 0);
    assert(text::views(listed@) =~= port_texts(none));
    while k < pairs.len()
        invariant
            all == text::views(pairs@),
            k <= pairs@.len(),
            text::views(listed@) == port_texts(pinned_in(all, fact@.id, step@, k as int)),
            match first {
                Some(i) => i < pairs@.len() && pinned_in(all, fact@.id, step@, k as int).len() > 0
                    && pinned_in(all, fact@.id, step@, k as int)[0] == pairs@[i as int].1@,
                None => pinned_in(all, fact@.id, step@, k as int).len() == 0,
            },
        decreases pairs@.len() - k,
    {
        assert(all[k as int] == (pairs@[k as int].0@, pairs@[k as int].1@));
        let pair = pairs[k];
        let here = match &pair.1.container {
            Some(container) => text::same(container, step),
            None => false,
        };
        if text::same(&pair.0.id, &fact.id) && here {
            let ghost before = pinned_in(all, fact@.id, step@, k as int);
            text::add(&mut listed, &text::decimal(pair.1.port as u64));
            assert(text::views(listed@) =~= port_texts(before.push(pair.1@)));
            if first.is_none() {
                first = Some(k);
            }
        }
        k += 1;
    }
    let mut out = fact.source.clone();
    out.append(" ");
    out.append(&ports::step_label(fact.kind, step));
    out.append(" pins port ");
    out.append(&text::join(&listed, " and "));
    out.append("; ");
    let suggestion = match first {
        Some(i) => ports::suggestion(pairs[i].1, Some(variable)),
        None => text::own(""),
    };
    out.append(&suggestion);
    out
}

fn warn_sites(facts: &Vec<&Fact>, file: FactKind, step: &str, variable: &str) -> (r: Vec<String>)
    ensures
        ({
            let sites = ports::sites_of(text::views(facts@), file, step@);
            text::views(r@) == site_warnings(
                ports::all_of(text::views(facts@)),
                sites,
                step@,
                variable@,
                sites.len() as int,
            )
        }),
{
    let pairs = ports::all(facts);
    let sites = ports::sites(facts, file, step);
    let ghost all = text::views(pairs@);
    let ghost places = text::views(sites@);
    let mut warned: Vec<String> = Vec::new();
    let mut out: Vec<String> = Vec::new();
    let mut k: usize = 0;
    assert(text::views(out@) =~= Seq::<Seq<char>>::empty());
    assert(text::views(warned@) =~= Seq::<Seq<char>>::empty());
    while k < sites.len()
        invariant
            all == text::views(pairs@),
            places == text::views(sites@),
            k <= sites@.len(),
            forall|id: Seq<char>|
                #![trigger text::views(warned@).contains(id)]
                #![trigger seen_before(places, id, k as int)]
                text::views(warned@).contains(id) <==> seen_before(places, id, k as int),
            text::views(out@) == site_warnings(all, places, step@, variable@, k as int),
        decreases sites@.len() - k,
    {
        assert(places[k as int] == (sites@[k as int].0@, sites@[k as int].1@));
        let fact = sites[k].0;
        let ghost before = text::views(warned@);
        if !text::among(&warned, &fact.id) {
            text::add(&mut out, &warn_step(&pairs, fact, step, variable));
            text::add(&mut warned, &fact.id);
        }
        let ghost now = text::views(warned@);
        assert forall|id: Seq<char>| now.contains(id) <==> seen_before(places, id, k + 1) by {
            if now.contains(id) {
                let m = choose|m: int| 0 <= m < now.len() && now[m] == id;
                if m < before.len() {
                    assert(before[m] == id);
                    assert(before.contains(id));
                    let j = choose|j: int| 0 <= j < k && (#[trigger] places[j]).0.id == id;
                    assert(places[j].0.id == id);
                } else {
                    assert(places[k as int].0.id == id);
                }
            }
            if seen_before(places, id, k + 1) {
                let j = choose|j: int| 0 <= j < k + 1 && (#[trigger] places[j]).0.id == id;
                if j < k {
                    assert(seen_before(places, id, k as int));
                    let m = choose|m: int| 0 <= m < before.len() && before[m] == id;
                    assert(now[m] == id);
                } else if before.contains(id) {
                    let m = choose|m: int| 0 <= m < before.len() && before[m] == id;
                    assert(now[m] == id);
                } else {
                    assert(now[before.len() as int] == id);
                }
            }
        }
        k += 1;
    }
    out
}

fn warn_command(command: &str, variable: &str) -> (r: Vec<String>)
    ensures
        text::views(r@) == command_warnings(
            command@,
            ports::scan_of(command@),
            variable@,
            ports::scan_of(command@).len() as int,
        ),
{
    let literals = ports::scan(command);
    let ghost all = text::views(literals@);
    let mut out: Vec<String> = Vec::new();
    let mut k: usize = 0;
    assert(text::views(out@) =~= Seq::<Seq<char>>::empty());
    while k < literals.len()
        invariant
            all == text::views(literals@),
            k <= literals@.len(),
            text::views(out@) == command_warnings(command@, all, variable@, k as int),
        decreases literals@.len() - k,
    {
        assert(all[k as int] == literals@[k as int]@);
        let fact = PortLiteralFact {
            port: literals[k].port,
            kind: literals[k].kind,
            literal: literals[k].literal.clone(),
            container: None,
            text: text::own(command),
        };
        let mut line = text::own("the command `");
        line.append(command);
        line.append("` pins port ");
        line.append(&text::decimal(literals[k].port as u64));
        line.append("; ");
        line.append(&ports::suggestion(&fact, Some(variable)));
        text::add(&mut out, &line);
        k += 1;
    }
    out
}

fn warn_app(report: &Report, answers: &AnswerSet, app: &AppFacts) -> (r: Vec<String>)
    ensures
        text::views(r@) == app_warnings(report@, answers@.answers, app@),
{
    let none: Vec<String> = Vec::new();
    assert(text::views(none@) =~= Seq::<Seq<char>>::empty());
    let spec = match given_step(answers, &app.id, ".run") {
        None => {
            return none;
        },
        Some(spec) => spec,
    };
    match text::split_once(&spec, ':') {
        None => none,
        Some((kind, rest)) => {
            if serves_storybook(report, &app.id, &spec) {
                return none;
            }
            let variable = port_variable(answers, &app.id);
            match file_of_runner(&kind) {
                Some(file) => warn_sites(&facts_concerning(report, app), file, &rest, &variable),
                None => if text::same(&kind, "command") {
                    warn_command(&rest, &variable)
                } else {
                    none
                },
            }
        },
    }
}

/// Hazards the generated manifest cannot repair on its own: a step the run answer points at pins a
/// port, so the variable magictree injects into that step would be ignored, and a second worktree
/// could not pick its own port.
pub fn warnings(report: &Report, answers: &AnswerSet) -> (r: Vec<String>)
    ensures
        text::views(r@) == warnings_upto(report@, answers@.answers, report@.apps.len() as int),
{
    let ghost apps = report@.apps;
    let mut out: Vec<String> = Vec::new();
    let mut k: usize = 0;
    assert(text::views(out@) =~= Seq::<Seq<char>>::empty());
    while k < report.apps.len()
        invariant
            apps == report@.apps,
            k <= report.apps@.len(),
            text::views(out@) == warnings_upto(report@, answers@.answers, k as int),
        decreases report.apps@.len() - k,
    {
        assert(apps[k as int] == report.apps@[k as int]@);
        text::add_all(&mut out, &warn_app(report, answers, &report.apps[k]));
        k += 1;
    }
    out
}

} // verus!
