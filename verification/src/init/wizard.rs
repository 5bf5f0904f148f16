//! The interactive half of `init`.
//!
//! The wizard collects answers; `init::plan` turns them into manifests. Both the wizard and an agent
//! therefore produce identical output, because neither one writes files: they only supply answers.

use crate::dict;
use crate::dict::Dict;
use crate::discover::report::{
    Answer, AnswerSet, AnswerSetView, AnswerView, Report, ScopeView, Unknown, UnknownKind,
    UnknownView, ANSWERS_VERSION,
};
use crate::init;
use crate::init::{Recorded, RecordedView};
use crate::text;
use vstd::prelude::*;

verus! {

/// The first option that is the token, from `k` on.
pub open spec fn option_from(options: Seq<Seq<char>>, token: Seq<char>, k: int) -> Option<Seq<char>>
    decreases options.len() - k,
{
    if k < 0 || k >= options.len() {
        None
    } else if options[k] == token {
        Some(options[k])
    } else {
        option_from(options, token, k + 1)
    }
}

/// The option that a token names: by its position, counted from one, or by its value.
pub open spec fn option_of(options: Seq<Seq<char>>, token: Seq<char>) -> Option<Seq<char>> {
    match text::number_of(token, usize::MAX as nat) {
        Some(n) => if 1 <= n <= options.len() {
            Some(options[n - 1])
        } else {
            option_from(options, token, 0)
        },
        None => option_from(options, token, 0),
    }
}

/// What is said of a token that names no option.
pub open spec fn not_an_option(token: Seq<char>, options: Seq<Seq<char>>, hint: Seq<char>) -> Seq<
    char,
> {
    "'"@ + token + "' is not one of: "@ + text::join_of(options, ", "@) + hint
}

/// The options that the first `k` tokens name.
pub open spec fn picked(options: Seq<Seq<char>>, tokens: Seq<Seq<char>>, k: int) -> Result<
    Seq<Seq<char>>,
    Seq<char>,
>
    decreases k,
{
    if k <= 0 {
        Ok(Seq::empty())
    } else {
        let token = text::trim_of(tokens[k - 1]);
        match picked(options, tokens, k - 1) {
            Err(e) => Err(e),
            Ok(before) => if token.len() == 0 {
                Ok(before)
            } else {
                match option_of(options, token) {
                    Some(value) => Ok(before.push(value)),
                    None => Err(not_an_option(token, options, "\n(or 'all', or 'none')"@)),
                }
            },
        }
    }
}

/// What no input at all stands for.
pub open spec fn unanswered(unknown: UnknownView) -> Result<AnswerView, Seq<char>> {
    match unknown.kind {
        UnknownKind::MultiChoice => Ok(AnswerView::Many(unknown.chosen_by_default())),
        UnknownKind::Bool => Ok(AnswerView::Flag(unknown.default == Some("true"@))),
        _ => match unknown.default {
            Some(value) => Ok(AnswerView::One(value)),
            None => Err("this question has no default; an answer is required"@),
        },
    }
}

/// What one line of input stands for.
pub open spec fn answer_of(unknown: UnknownView, line: Seq<char>) -> Result<AnswerView, Seq<char>> {
    let input = text::trim_of(line);
    let low = text::lower_of(input);
    if input.len() == 0 {
        unanswered(unknown)
    } else {
        match unknown.kind {
            UnknownKind::Bool => if low == "y"@ || low == "yes"@ || low == "true"@ {
                Ok(AnswerView::Flag(true))
            } else if low == "n"@ || low == "no"@ || low == "false"@ {
                Ok(AnswerView::Flag(false))
            } else {
                Err("expected yes or no, got '"@ + low + "'"@)
            },
            UnknownKind::MultiChoice => if low == "none"@ {
                Ok(AnswerView::Many(Seq::empty()))
            } else if low == "all"@ {
                Ok(AnswerView::Many(unknown.options))
            } else {
                let tokens = text::split_of(input, ',');
                match picked(unknown.options, tokens, tokens.len() as int) {
                    Ok(values) => Ok(AnswerView::Many(values)),
                    Err(e) => Err(e),
                }
            },
            UnknownKind::Choice => match option_of(unknown.options, input) {
                Some(value) => Ok(AnswerView::One(value)),
                None => Err(
                    not_an_option(
                        input,
                        unknown.options,
                        "\n(enter a number, or the value itself)"@,
                    ),
                ),
            },
            UnknownKind::Text => Ok(AnswerView::One(input)),
        }
    }
}

/// Accepts either the value or its 1-based position in the option list.
fn resolve_option(options: &Vec<String>, token: &str) -> (r: Option<String>)
    ensures
        text::opt_view(r) == option_of(text::views(options@), token@),
{
    let ghost all = text::views(options@);
    if let Some(n) = text::parse_number(token, usize::MAX as u64) {
        if n >= 1 && n <= options.len() as u64 {
            assert(all[n - 1] == options@[n - 1]@);
            return Some(options[(n - 1) as usize].clone());
        }
    }
    let mut k: usize = 0;
    while k < options.len()
        invariant
            all == text::views(options@),
            k <= options@.len(),
            option_from(all, token@, 0) == option_from(all, token@, k as int),
            option_of(all, token@) == option_from(all, token@, 0),
        decreases options@.len() - k,
    {
        assert(all[k as int] == options@[k as int]@);
        if text::same(&options[k], token) {
            return Some(options[k].clone());
        }
        k += 1;
    }
    None
}

fn refuse(token: &str, options: &Vec<String>, hint: &str) -> (r: String)
    ensures
        r@ == not_an_option(token@, text::views(options@), hint@),
{
    let mut out = text::own("'");
    out.append(token);
    out.append("' is not one of: ");
    out.append(&text::join(options, ", "));
    out.append(hint);
    out
}

proof fn picked_fails_on(options: Seq<Seq<char>>, tokens: Seq<Seq<char>>, k: int, n: int)
    requires
        0 < k <= n,
        picked(options, tokens, k) is Err,
    ensures
        picked(options, tokens, n) == picked(options, tokens, k),
    decreases n - k,
{
    if k < n {
        picked_fails_on(options, tokens, k + 1, n);
    }
}

fn pick(options: &Vec<String>, input: &str) -> (r: Result<Vec<String>, String>)
    ensures
        ({
            let tokens = text::split_of(input@, ',');
            match r {
                Ok(values) => picked(text::views(options@), tokens, tokens.len() as int) == Ok::<
                    Seq<Seq<char>>,
                    Seq<char>,
                >(text::views(values@)),
                Err(e) => picked(text::views(options@), tokens, tokens.len() as int) == Err::<
                    Seq<Seq<char>>,
                    Seq<char>,
                >(e@),
            }
        }),
{
    let tokens = text::split(input, ',');
    let ghost all = text::views(options@);
    let ghost parts = text::views(tokens@);
    let mut out: Vec<String> = Vec::new();
    let mut k: usize = 0;
    assert(text::views(out@) =~= Seq::<Seq<char>>::empty());
    while k < tokens.len()
        invariant
            all == text::views(options@),
            parts == text::views(tokens@),
            parts == text::split_of(input@, ','),
            k <= tokens@.len(),
            picked(all, parts, k as int) == Ok::<Seq<Seq<char>>, Seq<char>>(text::views(out@)),
        decreases tokens@.len() - k,
    {
        assert(parts[k as int] == tokens@[k as int]@);
        let token = text::trim(&tokens[k]);
        if text::length(&token) > 0 {
            match resolve_option(options, &token) {
                Some(value) => {
                    text::add(&mut out, &value);
                },
                None => {
                    let e = refuse(&token, options, "\n(or 'all', or 'none')");
                    proof {
                        picked_fails_on(all, parts, k + 1, parts.len() as int);
                    }
                    return Err(e);
                },
            }
        }
        k += 1;
    }
    Ok(out)
}

fn take_default(unknown: &Unknown) -> (r: Result<Answer, String>)
    ensures
        match r {
            Ok(answer) => unanswered(unknown@) == Ok::<AnswerView, Seq<char>>(answer@),
            Err(e) => unanswered(unknown@) == Err::<AnswerView, Seq<char>>(e@),
        },
{
    match unknown.kind {
        UnknownKind::MultiChoice => Ok(Answer::Many(unknown.default_options())),
        UnknownKind::Bool => Ok(
            Answer::Flag(
                match &unknown.default {
                    Some(value) => text::same(value, "true"),
                    None => false,
                },
            ),
        ),
        _ => match &unknown.default {
            Some(value) => Ok(Answer::One(value.clone())),
            None => Err(text::own("this question has no default; an answer is required")),
        },
    }
}

/// Interpret one line of input for one question.
pub fn parse_answer(unknown: &Unknown, input: &str) -> (r: Result<Answer, String>)
    ensures
        match r {
            Ok(answer) => answer_of(unknown@, input@) == Ok::<AnswerView, Seq<char>>(answer@),
            Err(e) => answer_of(unknown@, input@) == Err::<AnswerView, Seq<char>>(e@),
        },
{
    let input = text::trim(input);
    if text::length(&input) == 0 {
        return take_default(unknown);
    }
    let low = text::to_lower(&input);
    match unknown.kind {
        UnknownKind::Bool => if text::same(&low, "y") || text::same(&low, "yes") || text::same(
            &low,
            "true",
        ) {
            Ok(Answer::Flag(true))
        } else if text::same(&low, "n") || text::same(&low, "no") || text::same(&low, "false") {
            Ok(Answer::Flag(false))
        } else {
            let mut e = text::own("expected yes or no, got '");
            e.append(&low);
            e.append("'");
            Err(e)
        },
        UnknownKind::MultiChoice => if text::same(&low, "none") {
            let none: Vec<String> = Vec::new();
            assert(text::views(none@) =~= Seq::<Seq<char>>::empty());
            Ok(Answer::Many(none))
        } else if text::same(&low, "all") {
            Ok(Answer::Many(text::clone_texts(&unknown.options)))
        } else {
            match pick(&unknown.options, &input) {
                Ok(values) => Ok(Answer::Many(values)),
                Err(e) => Err(e),
            }
        },
        UnknownKind::Choice => match resolve_option(&unknown.options, &input) {
            Some(value) => Ok(Answer::One(value)),
            None => Err(
                refuse(&input, &unknown.options, "\n(enter a number, or the value itself)"),
            ),
        },
        UnknownKind::Text => Ok(Answer::One(input)),
    }
}

// ---------------------------------------------------------------------------
// Asking
// ---------------------------------------------------------------------------

/// Whether an option is taken by default.
pub open spec fn marked(unknown: UnknownView, option: Seq<char>) -> bool {
    match unknown.default {
        Some(value) => match unknown.kind {
            UnknownKind::Choice => value == option,
            UnknownKind::MultiChoice => among_items(text::split_of(value, ','), option),
            _ => false,
        },
        None => false,
    }
}

/// Whether a list holds an item, but for the space around it.
pub open spec fn among_items(items: Seq<Seq<char>>, option: Seq<char>) -> bool {
    exists|i: int| 0 <= i < items.len() && text::trim_of(#[trigger] items[i]) == option
}

/// The lines that show the first `k` options: which are taken by default, and which are `fresh`.
pub open spec fn option_lines(unknown: UnknownView, fresh: Seq<Seq<char>>, k: int) -> Seq<char>
    decreases k,
{
    if k <= 0 {
        ""@
    } else {
        option_lines(unknown, fresh, k - 1) + "  "@ + text::decimal_of(k as nat) + ". "@
            + unknown.options[k - 1] + (if marked(unknown, unknown.options[k - 1]) {
            " (default)"@
        } else {
            ""@
        }) + (if fresh.contains(unknown.options[k - 1]) {
            " (new)"@
        } else {
            ""@
        }) + "\n"@
    }
}

/// What a question is about, as it is shown.
pub open spec fn scope_shown(scope: ScopeView) -> Seq<char> {
    match scope {
        ScopeView::Workspace => "workspace"@,
        ScopeView::App { app } => "app "@ + app,
    }
}

/// A question as it is asked, the `fresh` options marked.
pub open spec fn asked_as(unknown: UnknownView, fresh: Seq<Seq<char>>) -> Seq<char> {
    "\n["@ + scope_shown(unknown.scope) + "] "@ + unknown.question + "\n"@ + option_lines(
        unknown,
        fresh,
        unknown.options.len() as int,
    ) + (if unknown.kind == UnknownKind::MultiChoice {
        "  enter a comma-separated list, or 'all' / 'none'\n"@
    } else {
        ""@
    }) + "> "@
}

fn is_marked(unknown: &Unknown, option: &str) -> (r: bool)
    ensures
        r == marked(unknown@, option@),
{
    match &unknown.default {
        None => false,
        Some(value) => match unknown.kind {
            UnknownKind::Choice => text::same(value, option),
            UnknownKind::MultiChoice => {
                let items = text::split(value, ',');
                let ghost all = text::views(items@);
                let mut i: usize = 0;
                while i < items.len()
                    invariant
                        all == text::views(items@),
                        all == text::split_of(value@, ','),
                        unknown@.default == Some(value@),
                        unknown@.kind == UnknownKind::MultiChoice,
                        i <= items@.len(),
                        forall|k: int| 0 <= k < i ==> text::trim_of(#[trigger] all[k]) != option@,
                    decreases items@.len() - i,
                {
                    assert(all[i as int] == items@[i as int]@);
                    if text::same(&text::trim(&items[i]), option) {
                        assert(text::trim_of(all[i as int]) == option@);
                        return true;
                    }
                    i += 1;
                }
                false
            },
            _ => false,
        },
    }
}

/// A question as it is asked. The options that the question has gained since it was last answered
/// are marked.
pub fn ask(unknown: &Unknown, fresh: &Vec<String>) -> (r: String)
    ensures
        r@ == asked_as(unknown@, text::views(fresh@)),
{
    let ghost all = unknown@.options;
    let mut options = text::own("");
    let mut k: usize = 0;
    while k < unknown.options.len()
        invariant
            all == unknown@.options,
            k <= unknown.options@.len(),
            options@ == option_lines(unknown@, text::views(fresh@), k as int),
        decreases unknown.options@.len() - k,
    {
        assert(all[k as int] == unknown.options@[k as int]@);
        options.append("  ");
        options.append(&text::decimal(k as u64 + 1));
        options.append(". ");
        options.append(&unknown.options[k]);
        options.append(
            if is_marked(unknown, &unknown.options[k]) {
                " (default)"
            } else {
                ""
            },
        );
        options.append(
            if text::among(fresh, &unknown.options[k]) {
                " (new)"
            } else {
                ""
            },
        );
        options.append("\n");
        k += 1;
    }
    let mut out = text::own("\n[");
    out.append(
        &match &unknown.scope {
            crate::discover::report::Scope::Workspace => text::own("workspace"),
            crate::discover::report::Scope::App { app } => text::concat("app ", app),
        },
    );
    out.append("] ");
    out.append(&unknown.question);
    out.append("\n");
    out.append(&options);
    out.append(
        match unknown.kind {
            UnknownKind::MultiChoice => "  enter a comma-separated list, or 'all' / 'none'\n",
            _ => "",
        },
    );
    out.append("> ");
    out
}

/// What becomes of a line of input.
#[derive(Debug)]
pub enum Heard {
    /// It answers the question.
    Answered(Answer),
    /// It does not; this is said, and the question stays open for one more line.
    Again(String),
    /// The session ends with this error.
    Failed(String),
}

/// What a line comes to: an answer, a second try rather than the end of a long session on a typo,
/// or the end where the second try fails too or the input is over.
pub open spec fn heard_of(unknown: UnknownView, line: Option<Seq<char>>, retrying: bool) -> HeardView {
    match line {
        None => HeardView::Failed("input ended before every question was answered"@),
        Some(input) => match answer_of(unknown, input) {
            Ok(answer) => HeardView::Answered(answer),
            Err(e) => if retrying {
                HeardView::Failed(e)
            } else {
                HeardView::Again(e + "\n> "@)
            },
        },
    }
}

/// The contents of a [`Heard`].
#[verifier::ext_equal]
pub enum HeardView {
    Answered(AnswerView),
    Again(Seq<char>),
    Failed(Seq<char>),
}

impl View for Heard {
    type V = HeardView;

    open spec fn view(&self) -> HeardView {
        match self {
            Heard::Answered(answer) => HeardView::Answered(answer@),
            Heard::Again(said) => HeardView::Again(said@),
            Heard::Failed(e) => HeardView::Failed(e@),
        }
    }
}

/// Takes one line for a question; `None` where the input is over.
pub fn hear(unknown: &Unknown, line: Option<&str>, retrying: bool) -> (r: Heard)
    ensures
        r@ == heard_of(
            unknown@,
            match line {
                Some(input) => Some(input@),
                None => None,
            },
            retrying,
        ),
{
    match line {
        None => Heard::Failed(text::own("input ended before every question was answered")),
        Some(input) => match parse_answer(unknown, input) {
            Ok(answer) => Heard::Answered(answer),
            Err(e) => if retrying {
                Heard::Failed(e)
            } else {
                Heard::Again(text::concat(&e, "\n> "))
            },
        },
    }
}

/// What a session comes to: what was shown, and the answers or the error it ended with.
#[verifier::ext_equal]
pub struct TalkView {
    pub output: Seq<char>,
    pub result: Result<Seq<(Seq<char>, AnswerView)>, Seq<char>>,
}

/// The line at a position; none where the input is over.
pub open spec fn line_at(lines: Seq<Seq<char>>, at: int) -> Option<Seq<char>> {
    if 0 <= at < lines.len() {
        Some(lines[at])
    } else {
        None
    }
}

/// What a session comes to from question `i` and line `at` on.
pub open spec fn talk_from(
    questions: Seq<UnknownView>,
    i: int,
    lines: Seq<Seq<char>>,
    at: int,
    output: Seq<char>,
    answers: Seq<(Seq<char>, AnswerView)>,
) -> TalkView
    decreases questions.len() - i,
{
    if i < 0 || i >= questions.len() {
        TalkView { output, result: Ok(answers) }
    } else {
        let question = questions[i];
        let shown = output + asked_as(question, Seq::empty());
        match heard_of(question, line_at(lines, at), false) {
            HeardView::Failed(e) => TalkView { output: shown, result: Err(e) },
            HeardView::Answered(answer) => talk_from(
                questions,
                i + 1,
                lines,
                at + 1,
                shown,
                dict::put(answers, question.id, answer),
            ),
            HeardView::Again(said) => match heard_of(question, line_at(lines, at + 1), true) {
                HeardView::Answered(answer) => talk_from(
                    questions,
                    i + 1,
                    lines,
                    at + 2,
                    shown + said,
                    dict::put(answers, question.id, answer),
                ),
                HeardView::Failed(e) => TalkView { output: shown + said, result: Err(e) },
                HeardView::Again(_) => TalkView { output: shown + said, result: Ok(answers) },
            },
        }
    }
}

fn nth<'a>(lines: &'a Vec<String>, at: usize) -> (r: Option<&'a str>)
    ensures
        match r {
            Some(line) => line_at(text::views(lines@), at as int) == Some(line@),
            None => line_at(text::views(lines@), at as int) is None,
        },
{
    if at < lines.len() {
        assert(text::views(lines@)[at as int] == lines@[at as int]@);
        Some(lines[at].as_str())
    } else {
        None
    }
}

/// What was shown in a session, and the answers or the error it ended with.
#[derive(Debug)]
pub struct Talk {
    pub output: String,
    pub result: Result<AnswerSet, String>,
}

/// Ask every question, in report order, of lines of input.
pub fn prompt(report: &Report, lines: &Vec<String>) -> (r: Talk)
    ensures
        ({
            let talk = talk_from(
                report@.unknowns,
                0,
                text::views(lines@),
                0,
                ""@,
                Seq::empty(),
            );
            r.output@ == talk.output && match r.result {
                Ok(set) => talk.result == Ok::<Seq<(Seq<char>, AnswerView)>, Seq<char>>(
                    set@.answers,
                ) && set@.answers_version == ANSWERS_VERSION && set@.report_hash
                    == report@.report_hash,
                Err(e) => talk.result == Err::<Seq<(Seq<char>, AnswerView)>, Seq<char>>(e@),
            }
        }),
{
    let ghost questions = report@.unknowns;
    let ghost all = text::views(lines@);
    let ghost talk = talk_from(questions, 0, all, 0, ""@, Seq::empty());
    let none: Vec<String> = Vec::new();
    assert(text::views(none@) =~= Seq::<Seq<char>>::empty());
    let mut output = text::own("");
    let mut answers: Dict<Answer> = Dict::new();
    let mut at: usize = 0;
    let mut i: usize = 0;
    while i < report.unknowns.len()
        invariant
            questions == report@.unknowns,
            all == text::views(lines@),
            talk == talk_from(report@.unknowns, 0, text::views(lines@), 0, ""@, Seq::empty()),
            i <= report.unknowns@.len(),
            at <= lines.len(),
            text::views(none@) == Seq::<Seq<char>>::empty(),
            talk == talk_from(questions, i as int, all, at as int, output@, answers@),
        decreases report.unknowns@.len() - i,
    {
        let question = &report.unknowns[i];
        assert(questions[i as int] == question@);
        output.append(&ask(question, &none));
        match hear(question, nth(lines, at), false) {
            Heard::Failed(e) => {
                return Talk { output, result: Err(e) };
            },
            Heard::Answered(answer) => {
                answers.insert(question.id.clone(), answer);
                at += 1;
            },
            Heard::Again(said) => {
                output.append(&said);
                match hear(question, nth(lines, at + 1), true) {
                    Heard::Answered(answer) => {
                        answers.insert(question.id.clone(), answer);
                        at += 2;
                    },
                    Heard::Failed(e) => {
                        return Talk { output, result: Err(e) };
                    },
                    Heard::Again(_) => {},
                }
            },
        }
        i += 1;
    }
    Talk {
        output,
        result: Ok(
            AnswerSet {
                answers_version: ANSWERS_VERSION,
                report_hash: report.report_hash.clone(),
                answers,
            },
        ),
    }
}

// ---------------------------------------------------------------------------
// Replaying
// ---------------------------------------------------------------------------

/// Whether a question was answered before and nothing about it is new.
pub open spec fn settled(recorded: RecordedView, id: Seq<char>) -> bool {
    dict::lookup(recorded.answers, id) is Some && dict::lookup(recorded.reopened, id) is None
}

/// A question with its recorded answer as the default.
pub open spec fn reasked(unknown: UnknownView, recorded: RecordedView) -> UnknownView {
    match dict::lookup(recorded.answers, unknown.id) {
        Some(answer) => UnknownView { default: Some(answer.as_default()), ..unknown },
        None => unknown,
    }
}

/// The questions among the first `k` that are still open.
pub open spec fn open_upto(unknowns: Seq<UnknownView>, recorded: RecordedView, k: int) -> Seq<
    UnknownView,
>
    decreases k,
{
    if k <= 0 {
        Seq::empty()
    } else if settled(recorded, unknowns[k - 1].id) {
        open_upto(unknowns, recorded, k - 1)
    } else {
        open_upto(unknowns, recorded, k - 1).push(reasked(unknowns[k - 1], recorded))
    }
}

/// The questions that are still open, each with the recorded answer as its default.
pub fn open_questions(report: &Report, recorded: &Recorded) -> (r: Vec<Unknown>)
    ensures
        text::views(r@) == open_upto(
            report@.unknowns,
            recorded@,
            report@.unknowns.len() as int,
        ),
{
    let ghost all = report@.unknowns;
    let mut out: Vec<Unknown> = Vec::new();
    let mut k: usize = 0;
    assert(text::views(out@) =~= Seq::<UnknownView>::empty());
    while k < report.unknowns.len()
        invariant
            all == report@.unknowns,
            k <= report.unknowns@.len(),
            text::views(out@) == open_upto(all, recorded@, k as int),
        decreases report.unknowns@.len() - k,
    {
        broadcast use text::views_push;

        let unknown = &report.unknowns[k];
        assert(all[k as int] == unknown@);
        if !recorded.settled(&unknown.id) {
            out.push(unknown.with_recorded(recorded.answers.get(&unknown.id)));
        }
        k += 1;
    }
    out
}

/// The answers of a session on top of the recorded ones.
pub fn with_replayed(report: &Report, recorded: &Recorded, given: &Dict<Answer>) -> (r: AnswerSet)
    ensures
        r@ == (AnswerSetView {
            answers_version: ANSWERS_VERSION,
            report_hash: report@.report_hash,
            answers: dict::put_all(recorded@.answers, given@),
        }),
{
    let mut answers = recorded.answers.duplicate();
    let n: usize = given.len();
    let mut k: usize = 0;
    assert(given@.take(0) =~= Seq::<(Seq<char>, AnswerView)>::empty());
    while k < n
        invariant
            n == given@.len(),
            k <= n,
            answers@ == dict::put_all(recorded@.answers, given@.take(k as int)),
        decreases n - k,
    {
        assert(given@.take(k + 1).drop_last() =~= given@.take(k as int));
        answers.insert(given.key_at(k).clone(), given.value_at(k).clone());
        k += 1;
    }
    assert(given@.take(k as int) =~= given@);
    AnswerSet {
        answers_version: ANSWERS_VERSION,
        report_hash: report.report_hash.clone(),
        answers,
    }
}

// ---------------------------------------------------------------------------
// Laws
// ---------------------------------------------------------------------------

proof fn option_from_is_an_option(options: Seq<Seq<char>>, token: Seq<char>, k: int)
    requires
        0 <= k,
    ensures
        option_from(options, token, k) matches Some(value) ==> options.contains(value),
    decreases options.len() - k,
{
    if k < options.len() && options[k] != token {
        option_from_is_an_option(options, token, k + 1);
    }
}

proof fn option_is_an_option(options: Seq<Seq<char>>, token: Seq<char>)
    ensures
        option_of(options, token) matches Some(value) ==> options.contains(value),
{
    option_from_is_an_option(options, token, 0);
}

proof fn picked_are_options(options: Seq<Seq<char>>, tokens: Seq<Seq<char>>, k: int)
    ensures
        picked(options, tokens, k) matches Ok(values) ==> forall|i: int|
            0 <= i < values.len() ==> options.contains(#[trigger] values[i]),
    decreases k,
{
    if k > 0 {
        picked_are_options(options, tokens, k - 1);
        option_is_an_option(options, text::trim_of(tokens[k - 1]));
    }
}

/// What is read from a line that says something is an answer that the question offers.
pub proof fn parsed_answers_are_offered(unknown: UnknownView, line: Seq<char>)
    requires
        text::trim_of(line).len() > 0,
    ensures
        answer_of(unknown, line) matches Ok(answer) ==> unknown.offers(answer),
{
    let input = text::trim_of(line);
    let tokens = text::split_of(input, ',');
    option_is_an_option(unknown.options, input);
    picked_are_options(unknown.options, tokens, tokens.len() as int);
    if let Ok(answer) = answer_of(unknown, line) {
        if unknown.kind == UnknownKind::MultiChoice {
            assert forall|i: int| 0 <= i < answer.many().len() implies unknown.options.contains(
                #[trigger] answer.many()[i],
            ) by {
                if text::lower_of(input) == "all"@ {
                    assert(answer.many() == unknown.options || answer.many().len() == 0);
                }
            }
        }
    }
}

} // verus!
