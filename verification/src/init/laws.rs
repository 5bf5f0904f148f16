//! What holds of onboarding as a whole.

use crate::dict;
use crate::discover::laws as questions;
use crate::discover::report::{AnswerSetView, AnswerView, ReportView, UnknownKind, UnknownView};
use crate::init;
use crate::init::wizard;
use crate::init::{GeneratedView, RecordedView, ServiceBlockView, StoredView};
use crate::manifest::ServiceView;
use crate::text;
use vstd::prelude::*;

verus! {

proof fn unanswered_grows(
    unknowns: Seq<UnknownView>,
    answers: Seq<(Seq<char>, AnswerView)>,
    i: int,
    k: int,
)
    requires
        0 <= i < k,
        dict::lookup(answers, unknowns[i].id) is None,
    ensures
        init::unanswered_upto(unknowns, answers, k).len() > 0,
    decreases k,
{
    if i < k - 1 {
        unanswered_grows(unknowns, answers, i, k - 1);
    }
}

/// `init` refuses to write a manifest while any question is unanswered, and takes no answers that
/// were computed for another report.
pub proof fn plans_answer_every_question(
    report: ReportView,
    answers: AnswerSetView,
    stored: StoredView,
    root: Seq<char>,
)
    requires
        init::plan_of(report, answers, stored, root) is Ok,
    ensures
        forall|i: int|
            0 <= i < report.unknowns.len() ==> dict::lookup(
                answers.answers,
                (#[trigger] report.unknowns[i]).id,
            ) is Some,
        answers.report_hash.len() == 0 || answers.report_hash == report.report_hash,
{
    assert forall|i: int| 0 <= i < report.unknowns.len() implies dict::lookup(
        answers.answers,
        (#[trigger] report.unknowns[i]).id,
    ) is Some by {
        if dict::lookup(answers.answers, report.unknowns[i].id) is None {
            unanswered_grows(report.unknowns, answers.answers, i, report.unknowns.len() as int);
        }
    }
}

proof fn defaults_are_kept(unknowns: Seq<UnknownView>, k: int, i: int)
    requires
        0 <= i < k,
    ensures
        dict::lookup(init::defaults_upto(unknowns, k), unknowns[i].id) is Some,
    decreases k,
{
    dict::put_then_lookup(
        init::defaults_upto(unknowns, k - 1),
        unknowns[k - 1].id,
        unknowns[k - 1].answered_by_default(),
        unknowns[i].id,
    );
    if i < k - 1 {
        defaults_are_kept(unknowns, k - 1, i);
    }
}

/// Accepting the defaults answers every question, so `init --accept-defaults` never stops at one.
pub proof fn defaults_answer_every_question(unknowns: Seq<UnknownView>)
    ensures
        forall|i: int|
            0 <= i < unknowns.len() ==> dict::lookup(
                init::defaults_upto(unknowns, unknowns.len() as int),
                (#[trigger] unknowns[i]).id,
            ) is Some,
{
    assert forall|i: int| 0 <= i < unknowns.len() implies dict::lookup(
        init::defaults_upto(unknowns, unknowns.len() as int),
        (#[trigger] unknowns[i]).id,
    ) is Some by {
        defaults_are_kept(unknowns, unknowns.len() as int, i);
    }
}

proof fn unsettled_questions_are_open(
    unknowns: Seq<UnknownView>,
    recorded: RecordedView,
    k: int,
    i: int,
)
    requires
        0 <= i < k <= unknowns.len(),
        !wizard::settled(recorded, unknowns[i].id),
    ensures
        exists|j: int|
            0 <= j < wizard::open_upto(unknowns, recorded, k).len() && (
            #[trigger] wizard::open_upto(unknowns, recorded, k)[j]).id == unknowns[i].id,
    decreases k,
{
    let open = wizard::open_upto(unknowns, recorded, k);
    if i == k - 1 {
        assert(open[open.len() - 1].id == unknowns[i].id);
    } else {
        unsettled_questions_are_open(unknowns, recorded, k - 1, i);
        let before = wizard::open_upto(unknowns, recorded, k - 1);
        let j = choose|j: int| 0 <= j < before.len() && (#[trigger] before[j]).id == unknowns[i].id;
        assert(open[j] == before[j]);
    }
}

proof fn found_keys_are_entries(e: Seq<(Seq<char>, AnswerView)>, q: Seq<char>)
    requires
        dict::lookup(e, q) is Some,
    ensures
        exists|i: int| 0 <= i < e.len() && (#[trigger] e[i]).0 == q,
    decreases e.len(),
{
    if e[0].0 != q {
        found_keys_are_entries(e.skip(1), q);
        let i = choose|i: int| 0 <= i < e.skip(1).len() && (#[trigger] e.skip(1)[i]).0 == q;
        assert(e[i + 1].0 == q);
    }
}

/// A session that answers every question it asks leaves none of the report unanswered: what it does
/// not ask about is settled by what an earlier run recorded.
pub proof fn sessions_answer_every_question(
    unknowns: Seq<UnknownView>,
    recorded: RecordedView,
    given: Seq<(Seq<char>, AnswerView)>,
)
    requires
        forall|j: int|
            0 <= j < wizard::open_upto(unknowns, recorded, unknowns.len() as int).len()
                ==> dict::lookup(
                given,
                (#[trigger] wizard::open_upto(unknowns, recorded, unknowns.len() as int)[j]).id,
            ) is Some,
    ensures
        forall|i: int|
            0 <= i < unknowns.len() ==> dict::lookup(
                dict::put_all(recorded.answers, given),
                (#[trigger] unknowns[i]).id,
            ) is Some,
{
    assert forall|i: int| 0 <= i < unknowns.len() implies dict::lookup(
        dict::put_all(recorded.answers, given),
        (#[trigger] unknowns[i]).id,
    ) is Some by {
        if !wizard::settled(recorded, unknowns[i].id) {
            unsettled_questions_are_open(unknowns, recorded, unknowns.len() as int, i);
            found_keys_are_entries(given, unknowns[i].id);
        }
        dict::put_all_keys(recorded.answers, given, unknowns[i].id);
    }
}

proof fn appended_starts_with(contents: Seq<char>, blocks: Seq<ServiceBlockView>, k: int)
    ensures
        init::appended(contents, blocks, k).len() >= contents.len(),
        init::appended(contents, blocks, k).take(contents.len() as int) == contents,
    decreases k,
{
    if k <= 0 {
        assert(contents.take(contents.len() as int) =~= contents);
    } else {
        appended_starts_with(contents, blocks, k - 1);
        let before = init::appended(contents, blocks, k - 1);
        let after = init::appended(contents, blocks, k);
        assert(after.take(contents.len() as int) =~= before.take(contents.len() as int));
    }
}

/// An update that has no new answer to record only adds to the end of a manifest: what was there
/// stays as it was, byte for byte.
pub proof fn updates_only_add(
    file: GeneratedView,
    existing: Seq<char>,
    services: Seq<ServiceView>,
    before: StoredView,
)
    requires
        !file.records_answers || before == file.stored,
    ensures
        text::starts_with_of(init::updated(file, existing, services, before).1, existing),
{
    let missing = init::missing_upto(services, file.services, file.services.len() as int);
    let start = init::line_ended(existing);
    appended_starts_with(start, missing, missing.len() as int);
    let after = init::appended(start, missing, missing.len() as int);
    assert(after.take(existing.len() as int) =~= after.take(start.len() as int).take(
        existing.len() as int,
    ));
    assert(start.take(existing.len() as int) =~= existing);
    assert(existing.take(existing.len() as int) =~= existing);
}

proof fn record_lines_are_keys(lines: Seq<Seq<char>>, k: int)
    requires
        0 <= k <= lines.len(),
    ensures
        k <= init::record_end(lines, k) <= lines.len(),
        forall|i: int|
            k <= i < init::record_end(lines, k) ==> init::record_key(#[trigger] lines[i]),
    decreases lines.len() - k,
{
    if k < lines.len() && init::record_key(lines[k]) {
        record_lines_are_keys(lines, k + 1);
    }
}

proof fn record_from_is_a_key(lines: Seq<Seq<char>>, k: int)
    requires
        0 <= k <= lines.len(),
    ensures
        init::record_from(lines, k) matches Some(i) ==> k <= i < lines.len() && init::record_key(
            lines[i],
        ),
    decreases lines.len() - k,
{
    if k < lines.len() && !init::record_key(lines[k]) {
        record_from_is_a_key(lines, k + 1);
    }
}

proof fn table_from_bounds(lines: Seq<Seq<char>>, k: int)
    requires
        0 <= k <= lines.len(),
    ensures
        k <= init::table_from(lines, k) <= lines.len(),
    decreases lines.len() - k,
{
    if k < lines.len() && !text::starts_with_of(lines[k], "["@) {
        table_from_bounds(lines, k + 1);
    }
}

/// The lines from `a` up to `b` are the record of a manifest: its keys, and the comment that
/// explains them.
pub open spec fn is_record(lines: Seq<Seq<char>>, a: int, b: int) -> bool {
    &&& 0 <= a <= b <= lines.len()
    &&& forall|i: int|
        a <= i < b ==> init::record_key(#[trigger] lines[i]) || init::record_comment(lines[i])
}

/// An update that has new answers to record replaces the lines of the record, and adds to the end
/// of the manifest: every other line stays, in its place.
pub proof fn updates_keep_other_lines(
    file: GeneratedView,
    existing: Seq<char>,
    services: Seq<ServiceView>,
    before: StoredView,
)
    requires
        file.records_answers,
        before != file.stored,
    ensures
        exists|a: int, b: int| #[trigger]
            is_record(text::lines_of(existing), a, b) && text::starts_with_of(
                init::updated(file, existing, services, before).1,
                text::join_of(
                    text::lines_of(existing).take(a) + init::section_lines(file.stored)
                        + text::lines_of(existing).skip(b),
                    "\n"@,
                ) + "\n"@,
            ),
{
    let lines = text::lines_of(existing);
    let section = init::section_lines(file.stored);
    let kept = init::with_answers_of(existing, file.stored);
    record_from_is_a_key(lines, 0);
    table_from_bounds(lines, 0);
    let (a, b) = match init::record_from(lines, 0) {
        Some(key) => (
            if key > 0 && init::record_comment(lines[key - 1]) {
                key - 1
            } else {
                key
            },
            init::record_end(lines, key + 1),
        ),
        None => (init::table_from(lines, 0), init::table_from(lines, 0)),
    };
    if let Some(key) = init::record_from(lines, 0) {
        record_lines_are_keys(lines, key + 1);
        assert forall|i: int| a <= i < b implies init::record_key(#[trigger] lines[i])
            || init::record_comment(lines[i]) by {
            if i > key {
                assert(init::record_key(lines[i]));
            }
        }
    }
    assert(is_record(lines, a, b));
    assert(lines.take(a) + section + lines.skip(b) =~= init::lines_with_record(
        lines,
        file.stored,
    ));
    let missing = init::missing_upto(services, file.services, file.services.len() as int);
    let start = init::line_ended(kept);
    reveal_strlit("\n");
    assert(kept.skip(kept.len() - 1) =~= "\n"@);
    assert(start == kept);
    appended_starts_with(start, missing, missing.len() as int);
    assert(kept.take(kept.len() as int) =~= kept);
}

proof fn missing_are_lacking(
    services: Seq<ServiceView>,
    blocks: Seq<ServiceBlockView>,
    k: int,
)
    requires
        0 <= k <= blocks.len(),
    ensures
        forall|x: ServiceBlockView|
            #[trigger] init::missing_upto(services, blocks, k).contains(x) <==> init::lacks(
                services,
                x,
            ) && blocks.take(k).contains(x),
    decreases k,
{
    let now = init::missing_upto(services, blocks, k);
    if k == 0 {
        assert(blocks.take(0).len() == 0);
    } else {
        missing_are_lacking(services, blocks, k - 1);
        let before = init::missing_upto(services, blocks, k - 1);
        assert forall|x: ServiceBlockView| now.contains(x) <==> init::lacks(services, x)
            && blocks.take(k).contains(x) by {
            if now.contains(x) {
                let m = choose|m: int| 0 <= m < now.len() && now[m] == x;
                if m < before.len() {
                    assert(before[m] == x);
                    assert(before.contains(x));
                    assert(init::lacks(services, x));
                    assert(blocks.take(k - 1).contains(x));
                    let j = choose|j: int| 0 <= j < k - 1 && #[trigger] blocks.take(k - 1)[j] == x;
                    assert(blocks.take(k)[j] == x);
                } else {
                    assert(blocks.take(k)[k - 1] == x);
                }
            }
            if init::lacks(services, x) && blocks.take(k).contains(x) {
                let j = choose|j: int| 0 <= j < k && #[trigger] blocks.take(k)[j] == x;
                if j < k - 1 {
                    assert(blocks.take(k - 1)[j] == x);
                    assert(before.contains(x));
                    let m = choose|m: int| 0 <= m < before.len() && before[m] == x;
                    assert(now[m] == x);
                } else {
                    assert(now[before.len() as int] == x);
                }
            }
        }
    }
}

/// What an update adds is exactly what the manifest lacks: no service is added whose id the manifest
/// declares or whose step it already runs, and no other planned service is left out.
pub proof fn updates_add_what_is_missing(services: Seq<ServiceView>, blocks: Seq<ServiceBlockView>)
    ensures
        forall|x: ServiceBlockView|
            init::missing_upto(services, blocks, blocks.len() as int).contains(x)
                <==> init::lacks(services, x) && blocks.contains(x),
{
    missing_are_lacking(services, blocks, blocks.len() as int);
    assert(blocks.take(blocks.len() as int) =~= blocks);
}

/// A step that the manifest already runs is not added a second time, whatever the service that runs
/// it is called.
pub proof fn steps_are_added_once(
    services: Seq<ServiceView>,
    blocks: Seq<ServiceBlockView>,
    i: int,
    x: ServiceBlockView,
)
    requires
        0 <= i < services.len(),
        x.step matches Some(step) && init::runs_step(services[i], step),
    ensures
        !init::missing_upto(services, blocks, blocks.len() as int).contains(x),
{
    missing_are_lacking(services, blocks, blocks.len() as int);
    assert(init::declares_step(services, x.step.unwrap()));
}

/// The command that is written for a script of yarn or bun is recognised as running that script.
pub proof fn written_scripts_are_recognised(runner: Seq<char>, script: Seq<char>)
    requires
        runner == "yarn"@ || runner == "bun"@,
        text::solid(script),
        script.len() > 0,
    ensures
        init::command_runs(runner + " run "@ + script, runner + ":"@ + script),
{
    let call = runner + " run "@;
    let command = call + script;
    assert(command.take(call.len() as int) =~= call);
    assert(command.skip(call.len() as int) =~= script);
    text::first_word_is_split_off(script, Seq::empty());
    assert(script + Seq::<char>::empty() =~= script);
    assert(text::words_of(script)[0] == script);
    assert(init::command_step(command, runner) == Some(runner + ":"@ + script));
}

// ---------------------------------------------------------------------------
// The record
// ---------------------------------------------------------------------------

proof fn left_over_is_undecided(
    options: Seq<Seq<char>>,
    chosen: Seq<Seq<char>>,
    declined: Seq<Seq<char>>,
    k: int,
)
    requires
        0 <= k <= options.len(),
    ensures
        forall|x: Seq<char>|
            #[trigger] init::left_over(options, chosen, declined, k).contains(x)
                <==> options.take(k).contains(x) && !chosen.contains(x) && !declined.contains(x),
    decreases k,
{
    let now = init::left_over(options, chosen, declined, k);
    if k == 0 {
        assert(options.take(0).len() == 0);
    } else {
        left_over_is_undecided(options, chosen, declined, k - 1);
        let before = init::left_over(options, chosen, declined, k - 1);
        assert forall|x: Seq<char>| now.contains(x) <==> options.take(k).contains(x)
            && !chosen.contains(x) && !declined.contains(x) by {
            if now.contains(x) {
                let m = choose|m: int| 0 <= m < now.len() && now[m] == x;
                if m < before.len() {
                    assert(before[m] == x);
                    assert(before.contains(x));
                    assert(options.take(k - 1).contains(x));
                    let j = choose|j: int| 0 <= j < k - 1 && #[trigger] options.take(k - 1)[j] == x;
                    assert(options.take(k)[j] == x);
                } else {
                    assert(options.take(k)[k - 1] == x);
                }
            }
            if options.take(k).contains(x) && !chosen.contains(x) && !declined.contains(x) {
                let j = choose|j: int| 0 <= j < k && #[trigger] options.take(k)[j] == x;
                if j < k - 1 {
                    assert(options.take(k - 1)[j] == x);
                    assert(before.contains(x));
                    let m = choose|m: int| 0 <= m < before.len() && before[m] == x;
                    assert(now[m] == x);
                } else {
                    assert(now[before.len() as int] == x);
                }
            }
        }
    }
}

proof fn declined_skips(
    unknowns: Seq<UnknownView>,
    answers: Seq<(Seq<char>, AnswerView)>,
    recorded: Seq<(Seq<char>, Seq<Seq<char>>)>,
    asked: Seq<Seq<char>>,
    id: Seq<char>,
    k: int,
)
    requires
        0 <= k <= unknowns.len(),
        forall|j: int| 0 <= j < k ==> (#[trigger] unknowns[j]).id != id,
    ensures
        dict::lookup(init::declined_upto(unknowns, answers, recorded, asked, k), id) is None,
    decreases k,
{
    if k > 0 {
        declined_skips(unknowns, answers, recorded, asked, id, k - 1);
        let before = init::declined_upto(unknowns, answers, recorded, asked, k - 1);
        let unknown = unknowns[k - 1];
        if let Some(answer) = dict::lookup(answers, unknown.id) {
            let over = init::passed_over(unknown, answer, recorded, asked);
            dict::put_then_lookup(before, unknown.id, over, id);
        }
    }
}

proof fn declined_holds(
    unknowns: Seq<UnknownView>,
    answers: Seq<(Seq<char>, AnswerView)>,
    recorded: Seq<(Seq<char>, Seq<Seq<char>>)>,
    asked: Seq<Seq<char>>,
    i: int,
    k: int,
)
    requires
        questions::distinct_ids(unknowns),
        0 <= i < k <= unknowns.len(),
        unknowns[i].kind == UnknownKind::MultiChoice,
        dict::lookup(answers, unknowns[i].id) is Some,
    ensures
        init::listed(
            init::declined_upto(unknowns, answers, recorded, asked, k),
            unknowns[i].id,
        ) == init::passed_over(
            unknowns[i],
            dict::lookup(answers, unknowns[i].id).unwrap(),
            recorded,
            asked,
        ),
    decreases k,
{
    let before = init::declined_upto(unknowns, answers, recorded, asked, k - 1);
    let unknown = unknowns[k - 1];
    let over = init::passed_over(
        unknowns[i],
        dict::lookup(answers, unknowns[i].id).unwrap(),
        recorded,
        asked,
    );
    if i == k - 1 {
        assert forall|j: int| 0 <= j < k - 1 implies (#[trigger] unknowns[j]).id != unknown.id by {
            assert(unknowns[j].id != unknowns[k - 1].id);
        }
        declined_skips(unknowns, answers, recorded, asked, unknown.id, k - 1);
        dict::put_then_lookup(before, unknown.id, over, unknown.id);
        assert(over.len() == 0 ==> over =~= Seq::<Seq<char>>::empty());
    } else {
        declined_holds(unknowns, answers, recorded, asked, i, k - 1);
        assert(unknowns[i].id != unknowns[k - 1].id);
        if let Some(answer) = dict::lookup(answers, unknown.id) {
            let more = init::passed_over(unknown, answer, recorded, asked);
            dict::put_then_lookup(before, unknown.id, more, unknowns[i].id);
        }
    }
}

proof fn question_is_found(unknowns: Seq<UnknownView>, i: int, k: int)
    requires
        questions::distinct_ids(unknowns),
        0 <= k <= i < unknowns.len(),
    ensures
        init::question_from(unknowns, unknowns[i].id, k) == Some(unknowns[i]),
    decreases i - k,
{
    if k < i {
        assert(unknowns[k].id != unknowns[i].id);
        question_is_found(unknowns, i, k + 1);
    }
}

/// Whether an answer is one that a question of its id offers.
pub open spec fn offered(unknowns: Seq<UnknownView>, id: Seq<char>, answer: AnswerView) -> bool {
    exists|i: int|
        0 <= i < unknowns.len() && (#[trigger] unknowns[i]).id == id && unknowns[i].offers(answer)
}

proof fn all_settled(unknowns: Seq<UnknownView>, asked: Seq<Seq<char>>, stored: StoredView, k: int)
    requires
        questions::distinct_ids(unknowns),
        dict::ascending(stored.answers),
        forall|j: int|
            0 <= j < stored.answers.len() ==> offered(
                unknowns,
                (#[trigger] stored.answers[j]).0,
                stored.answers[j].1,
            ),
        forall|j: int|
            0 <= j < stored.answers.len() ==> asked.contains((#[trigger] stored.answers[j]).0),
        exists|recorded: Seq<(Seq<char>, Seq<Seq<char>>)>|
            stored.declined == #[trigger] init::declined_upto(
                unknowns,
                stored.answers,
                recorded,
                asked,
                unknowns.len() as int,
            ),
        0 <= k <= stored.answers.len(),
    ensures
        init::sorted_upto(unknowns, stored, k).dropped.len() == 0,
        init::sorted_upto(unknowns, stored, k).reopened.len() == 0,
        init::sorted_upto(unknowns, stored, k).declined == stored.declined,
        init::sorted_upto(unknowns, stored, k).answers == dict::put_all(
            Seq::<(Seq<char>, AnswerView)>::empty(),
            stored.answers.take(k),
        ),
    decreases k,
{
    let taken = stored.answers.take(k);
    if k == 0 {
        assert(taken =~= Seq::<(Seq<char>, AnswerView)>::empty());
    } else {
        all_settled(unknowns, asked, stored, k - 1);
        assert(taken.drop_last() =~= stored.answers.take(k - 1));
        let id = stored.answers[k - 1].0;
        let answer = stored.answers[k - 1].1;
        assert(offered(unknowns, stored.answers[k - 1].0, stored.answers[k - 1].1));
        let i = choose|i: int|
            0 <= i < unknowns.len() && (#[trigger] unknowns[i]).id == id && unknowns[i].offers(
                answer,
            );
        question_is_found(unknowns, i, 0);
        let recorded = choose|recorded: Seq<(Seq<char>, Seq<Seq<char>>)>|
            stored.declined == #[trigger] init::declined_upto(
                unknowns,
                stored.answers,
                recorded,
                asked,
                unknowns.len() as int,
            );
        entry_is_found(stored.answers, k - 1, 0);
        assert(stored.answers.skip(0) =~= stored.answers);
        if unknowns[i].kind == UnknownKind::MultiChoice {
            declined_holds(
                unknowns,
                stored.answers,
                recorded,
                asked,
                i,
                unknowns.len() as int,
            );
            assert(asked.contains(stored.answers[k - 1].0));
            let options = unknowns[i].options;
            let none = Seq::<Seq<char>>::empty();
            let turned_down = init::left_over(options, answer.many(), none, options.len() as int);
            let open = init::undecided(unknowns[i], answer, stored.declined, id);
            left_over_is_undecided(options, answer.many(), none, options.len() as int);
            left_over_is_undecided(options, answer.many(), turned_down, options.len() as int);
            assert(open.len() == 0) by {
                if open.len() > 0 {
                    assert(open.contains(open[0]));
                    assert(turned_down.contains(open[0]));
                }
            }
        }
    }
}

proof fn entry_is_found(e: Seq<(Seq<char>, AnswerView)>, i: int, k: int)
    requires
        dict::ascending(e),
        0 <= k <= i < e.len(),
    ensures
        dict::lookup(e.skip(k), e[i].0) == Some(e[i].1),
    decreases i - k,
{
    let rest = e.skip(k);
    assert(rest[0] == e[k]);
    if k < i {
        assert(text::before(e[k].0, e[i].0));
        if e[k].0 == e[i].0 {
            text::before_irreflexive(e[k].0);
        }
        assert(rest.skip(1) =~= e.skip(k + 1));
        entry_is_found(e, i, k + 1);
    }
}

/// What a run records is replayed: over the same questions, a later run finds every recorded answer
/// still offered and every question settled, so it has nothing to ask.
pub proof fn recorded_answers_are_replayed(
    unknowns: Seq<UnknownView>,
    answers: Seq<(Seq<char>, AnswerView)>,
    recorded: Seq<(Seq<char>, Seq<Seq<char>>)>,
    asked: Seq<Seq<char>>,
)
    requires
        questions::distinct_ids(unknowns),
        dict::ascending(answers),
        forall|j: int|
            0 <= j < answers.len() ==> offered(unknowns, (#[trigger] answers[j]).0, answers[j].1),
        forall|j: int| 0 <= j < answers.len() ==> asked.contains((#[trigger] answers[j]).0),
    ensures
        ({
            let stored = init::record_of(unknowns, answers, recorded, asked);
            let replayed = init::sorted_record(unknowns, stored);
            &&& replayed.dropped.len() == 0
            &&& replayed.reopened.len() == 0
            &&& forall|j: int|
                0 <= j < answers.len() ==> dict::lookup(
                    replayed.answers,
                    (#[trigger] answers[j]).0,
                ) is Some
        }),
{
    let stored = init::record_of(unknowns, answers, recorded, asked);
    all_settled(unknowns, asked, stored, answers.len() as int);
    assert(answers.take(answers.len() as int) =~= answers);
    let none = Seq::<(Seq<char>, AnswerView)>::empty();
    assert forall|j: int| 0 <= j < answers.len() implies dict::lookup(
        init::sorted_record(unknowns, stored).answers,
        (#[trigger] answers[j]).0,
    ) is Some by {
        dict::put_all_keys(none, answers, answers[j].0);
    }
}

proof fn reopened_stays(unknowns: Seq<UnknownView>, stored: StoredView, i: int, k: int)
    requires
        dict::ascending(stored.answers),
        0 <= i < k <= stored.answers.len(),
    ensures
        dict::lookup(
            init::sorted_upto(unknowns, stored, k).reopened,
            stored.answers[i].0,
        ) == dict::lookup(
            init::sorted_upto(unknowns, stored, i + 1).reopened,
            stored.answers[i].0,
        ),
        init::sorted_upto(unknowns, stored, k).declined == stored.declined,
    decreases k,
{
    declined_is_kept(unknowns, stored, k);
    if i < k - 1 {
        reopened_stays(unknowns, stored, i, k - 1);
        let before = init::sorted_upto(unknowns, stored, k - 1);
        let id = stored.answers[k - 1].0;
        let answer = stored.answers[k - 1].1;
        assert(text::before(stored.answers[i].0, stored.answers[k - 1].0));
        if stored.answers[i].0 == id {
            text::before_irreflexive(id);
        }
        if let Some(unknown) = init::question_from(unknowns, id, 0) {
            let open = init::undecided(unknown, answer, before.declined, id);
            dict::put_then_lookup(before.reopened, id, open, stored.answers[i].0);
        }
    }
}

proof fn declined_is_kept(unknowns: Seq<UnknownView>, stored: StoredView, k: int)
    ensures
        init::sorted_upto(unknowns, stored, k).declined == stored.declined,
    decreases k,
{
    if k > 0 {
        declined_is_kept(unknowns, stored, k - 1);
    }
}

/// An option that a question has gained since it was answered, and that nobody has chosen or turned
/// down, opens the question again.
pub proof fn new_options_are_asked_about(
    unknowns: Seq<UnknownView>,
    stored: StoredView,
    i: int,
    question: int,
    option: Seq<char>,
)
    requires
        questions::distinct_ids(unknowns),
        dict::ascending(stored.answers),
        0 <= i < stored.answers.len(),
        0 <= question < unknowns.len(),
        unknowns[question].id == stored.answers[i].0,
        unknowns[question].kind == UnknownKind::MultiChoice,
        unknowns[question].offers(stored.answers[i].1),
        unknowns[question].options.contains(option),
        !stored.answers[i].1.many().contains(option),
        !init::listed(stored.declined, stored.answers[i].0).contains(option),
    ensures
        ({
            let replayed = init::sorted_record(unknowns, stored);
            dict::lookup(replayed.reopened, stored.answers[i].0) matches Some(open)
                && open.contains(option)
        }),
{
    let id = stored.answers[i].0;
    let answer = stored.answers[i].1;
    let before = init::sorted_upto(unknowns, stored, i);
    question_is_found(unknowns, question, 0);
    declined_is_kept(unknowns, stored, i);
    let options = unknowns[question].options;
    let open = init::undecided(unknowns[question], answer, before.declined, id);
    left_over_is_undecided(
        options,
        answer.many(),
        init::listed(stored.declined, id),
        options.len() as int,
    );
    assert(options.take(options.len() as int) =~= options);
    assert(open.contains(option));
    dict::put_then_lookup(before.reopened, id, open, id);
    reopened_stays(unknowns, stored, i, stored.answers.len() as int);
}

/// Whether answers are those of a whole run: one for every question, which the question offers, and
/// none for anything else.
pub open spec fn whole_answers(
    unknowns: Seq<UnknownView>,
    answers: Seq<(Seq<char>, AnswerView)>,
) -> bool {
    &&& dict::ascending(answers)
    &&& forall|j: int|
        0 <= j < answers.len() ==> offered(unknowns, (#[trigger] answers[j]).0, answers[j].1)
    &&& forall|i: int|
        0 <= i < unknowns.len() ==> dict::lookup(answers, (#[trigger] unknowns[i]).id) is Some
}

/// Whether every question was put to the user.
pub open spec fn all_asked(unknowns: Seq<UnknownView>, asked: Seq<Seq<char>>) -> bool {
    forall|i: int| 0 <= i < unknowns.len() ==> asked.contains((#[trigger] unknowns[i]).id)
}

/// Whether a question offers the same as before. How it is put, and what it takes by default, may
/// have changed.
pub open spec fn offers_the_same(before: UnknownView, after: UnknownView) -> bool {
    after.id == before.id && after.kind == before.kind && after.options == before.options
}

/// Whether the questions are the same, up to one option `o` that the set question `q` has gained at
/// the place `at`.
pub open spec fn gains_option(
    before: Seq<UnknownView>,
    after: Seq<UnknownView>,
    q: int,
    at: int,
    o: Seq<char>,
) -> bool {
    &&& before.len() == after.len()
    &&& 0 <= q < before.len()
    &&& before[q].kind == UnknownKind::MultiChoice
    &&& 0 <= at <= before[q].options.len()
    &&& !before[q].options.contains(o)
    &&& after[q].id == before[q].id
    &&& after[q].kind == before[q].kind
    &&& after[q].options == before[q].options.insert(at, o)
    &&& forall|i: int|
        0 <= i < before.len() && i != q ==> offers_the_same(#[trigger] before[i], after[i])
}

proof fn only_the_new_option_is_left(
    options: Seq<Seq<char>>,
    chosen: Seq<Seq<char>>,
    declined: Seq<Seq<char>>,
    at: int,
    o: Seq<char>,
    k: int,
)
    requires
        0 <= at <= options.len(),
        0 <= k <= options.len() + 1,
        !chosen.contains(o),
        !declined.contains(o),
        forall|i: int|
            0 <= i < options.len() ==> chosen.contains(#[trigger] options[i]) || declined.contains(
                options[i],
            ),
    ensures
        init::left_over(options.insert(at, o), chosen, declined, k) == (if k > at {
            seq![o]
        } else {
            Seq::<Seq<char>>::empty()
        }),
    decreases k,
{
    if k > 0 {
        only_the_new_option_is_left(options, chosen, declined, at, o, k - 1);
        let grown = options.insert(at, o);
        if k - 1 < at {
            assert(grown[k - 1] == options[k - 1]);
        } else if k - 1 == at {
            assert(grown[k - 1] == o);
            assert(Seq::<Seq<char>>::empty().push(o) =~= seq![o]);
        } else {
            assert(grown[k - 1] == options[k - 2]);
        }
    }
}

proof fn nothing_is_left(
    options: Seq<Seq<char>>,
    chosen: Seq<Seq<char>>,
    declined: Seq<Seq<char>>,
    k: int,
)
    requires
        0 <= k <= options.len(),
        forall|i: int|
            0 <= i < options.len() ==> chosen.contains(#[trigger] options[i]) || declined.contains(
                options[i],
            ),
    ensures
        init::left_over(options, chosen, declined, k).len() == 0,
    decreases k,
{
    if k > 0 {
        nothing_is_left(options, chosen, declined, k - 1);
        assert(chosen.contains(options[k - 1]) || declined.contains(options[k - 1]));
    }
}

/// What a recorded answer of a whole run decided of a set question: each option is either chosen or
/// turned down, and nothing else was turned down.
proof fn whole_answers_decide(
    unknowns: Seq<UnknownView>,
    answers: Seq<(Seq<char>, AnswerView)>,
    recorded: Seq<(Seq<char>, Seq<Seq<char>>)>,
    asked: Seq<Seq<char>>,
    i: int,
)
    requires
        questions::distinct_ids(unknowns),
        whole_answers(unknowns, answers),
        all_asked(unknowns, asked),
        0 <= i < unknowns.len(),
        unknowns[i].kind == UnknownKind::MultiChoice,
    ensures
        ({
            let chosen = dict::lookup(answers, unknowns[i].id).unwrap().many();
            let declined = init::listed(
                init::record_of(unknowns, answers, recorded, asked).declined,
                unknowns[i].id,
            );
            &&& forall|k: int|
                0 <= k < unknowns[i].options.len() ==> chosen.contains(
                    #[trigger] unknowns[i].options[k],
                ) || declined.contains(unknowns[i].options[k])
            &&& forall|x: Seq<char>| #[trigger]
                declined.contains(x) ==> unknowns[i].options.contains(x)
        }),
{
    let options = unknowns[i].options;
    let answer = dict::lookup(answers, unknowns[i].id).unwrap();
    let none = Seq::<Seq<char>>::empty();
    assert(asked.contains(unknowns[i].id));
    declined_holds(unknowns, answers, recorded, asked, i, unknowns.len() as int);
    left_over_is_undecided(options, answer.many(), none, options.len() as int);
    assert(options.take(options.len() as int) =~= options);
    assert forall|k: int| 0 <= k < options.len() implies answer.many().contains(
        #[trigger] options[k],
    ) || init::left_over(options, answer.many(), none, options.len() as int).contains(
        options[k],
    ) by {
        assert(options.contains(options[k]));
    }
}

proof fn run_is_replayed(
    before: Seq<UnknownView>,
    after: Seq<UnknownView>,
    answers: Seq<(Seq<char>, AnswerView)>,
    recorded: Seq<(Seq<char>, Seq<Seq<char>>)>,
    asked: Seq<Seq<char>>,
    q: int,
    at: int,
    o: Seq<char>,
    place: int,
    k: int,
)
    requires
        questions::distinct_ids(before),
        whole_answers(before, answers),
        all_asked(before, asked),
        gains_option(before, after, q, at, o),
        0 <= place < answers.len(),
        answers[place].0 == before[q].id,
        0 <= k <= answers.len(),
    ensures
        ({
            let r = init::sorted_upto(after, init::record_of(before, answers, recorded, asked), k);
            &&& r.dropped.len() == 0
            &&& r.declined == init::record_of(before, answers, recorded, asked).declined
            &&& r.answers == dict::put_all(
                Seq::<(Seq<char>, AnswerView)>::empty(),
                answers.take(k),
            )
            &&& r.reopened == (if place < k {
                seq![(before[q].id, seq![o])]
            } else {
                Seq::<(Seq<char>, Seq<Seq<char>>)>::empty()
            })
        }),
    decreases k,
{
    let stored = init::record_of(before, answers, recorded, asked);
    let taken = answers.take(k);
    if k == 0 {
        assert(taken =~= Seq::<(Seq<char>, AnswerView)>::empty());
    } else {
        run_is_replayed(before, after, answers, recorded, asked, q, at, o, place, k - 1);
        assert(taken.drop_last() =~= answers.take(k - 1));
        let id = answers[k - 1].0;
        let answer = answers[k - 1].1;
        assert(offered(before, answers[k - 1].0, answers[k - 1].1));
        let i = choose|i: int|
            0 <= i < before.len() && (#[trigger] before[i]).id == id && before[i].offers(answer);
        entry_is_found(answers, k - 1, 0);
        assert(answers.skip(0) =~= answers);
        assert(i != q ==> offers_the_same(before[i], after[i]));
        assert(questions::distinct_ids(after)) by {
            assert forall|a: int, b: int| 0 <= a < b < after.len() implies (#[trigger] after[a]).id
                != (#[trigger] after[b]).id by {
                assert(a != q ==> offers_the_same(before[a], after[a]));
                assert(b != q ==> offers_the_same(before[b], after[b]));
                assert(before[a].id != before[b].id);
            }
        }
        question_is_found(after, i, 0);
        if before[i].kind == UnknownKind::MultiChoice {
            whole_answers_decide(before, answers, recorded, asked, i);
        }
        let chosen = answer.many();
        let declined = init::listed(stored.declined, id);
        if i == q {
            let options = before[q].options;
            let grown = after[q].options;
            assert forall|m: int| 0 <= m < chosen.len() implies grown.contains(
                #[trigger] chosen[m],
            ) by {
                assert(options.contains(chosen[m]));
                let n = choose|n: int| 0 <= n < options.len() && options[n] == chosen[m];
                assert(grown[if n < at { n } else { n + 1 }] == chosen[m]);
            }
            assert(!chosen.contains(o)) by {
                if chosen.contains(o) {
                    let m = choose|m: int| 0 <= m < chosen.len() && chosen[m] == o;
                    assert(options.contains(chosen[m]));
                }
            }
            only_the_new_option_is_left(
                options,
                chosen,
                declined,
                at,
                o,
                options.len() as int + 1,
            );
            assert(place == k - 1) by {
                if place < k - 1 {
                    assert(text::before(answers[place].0, answers[k - 1].0));
                    text::before_irreflexive(id);
                } else if place > k - 1 {
                    assert(text::before(answers[k - 1].0, answers[place].0));
                    text::before_irreflexive(id);
                }
            }
        } else {
            if before[i].kind == UnknownKind::MultiChoice {
                nothing_is_left(
                    before[i].options,
                    chosen,
                    declined,
                    before[i].options.len() as int,
                );
            }
            assert(place != k - 1) by {
                if i < q {
                    assert(before[i].id != before[q].id);
                } else {
                    assert(before[q].id != before[i].id);
                }
            }
        }
    }
}

proof fn found_entry(e: Seq<(Seq<char>, AnswerView)>, key: Seq<char>) -> (i: int)
    requires
        dict::lookup(e, key) is Some,
    ensures
        0 <= i < e.len(),
        e[i].0 == key,
    decreases e.len(),
{
    if e[0].0 == key {
        0
    } else {
        let i = found_entry(e.skip(1), key);
        assert(e.skip(1)[i] == e[i + 1]);
        i + 1
    }
}

/// One new option opens its own question again, for that option alone, and nothing else. A run that
/// was asked every question and answered each leaves a record; where one set question has since
/// gained one option, the record reopens exactly that question with exactly that option. Every other
/// question stays settled, whatever its answer was, one that was skipped too, and nothing is dropped.
pub proof fn a_new_option_reopens_its_question_alone(
    before: Seq<UnknownView>,
    after: Seq<UnknownView>,
    answers: Seq<(Seq<char>, AnswerView)>,
    previous: RecordedView,
    asked: Seq<Seq<char>>,
    q: int,
    at: int,
    o: Seq<char>,
)
    requires
        questions::distinct_ids(before),
        whole_answers(before, answers),
        all_asked(before, asked),
        gains_option(before, after, q, at, o),
    ensures
        ({
            let stored = init::record_of(before, answers, previous.declined, asked);
            let r = init::sorted_record(after, stored);
            &&& !r.settles(before[q].id)
            &&& r.reopened == seq![(before[q].id, seq![o])]
            &&& r.dropped.len() == 0
            &&& forall|i: int|
                0 <= i < before.len() && i != q ==> r.settles((#[trigger] before[i]).id)
            &&& forall|i: int|
                0 <= i < before.len() ==> dict::lookup(r.answers, (#[trigger] before[i]).id)
                    == dict::lookup(answers, before[i].id)
        }),
{
    let stored = init::record_of(before, answers, previous.declined, asked);
    let r = init::sorted_record(after, stored);
    assert(dict::lookup(answers, before[q].id) is Some);
    let place = found_entry(answers, before[q].id);
    let n = answers.len() as int;
    run_is_replayed(before, after, answers, previous.declined, asked, q, at, o, place, n);
    assert(answers.take(n) =~= answers);
    assert forall|i: int| 0 <= i < before.len() implies dict::lookup(
        r.answers,
        (#[trigger] before[i]).id,
    ) == dict::lookup(answers, before[i].id) by {
        replayed_as_given(answers, before[i].id);
    }
    let list: Seq<(Seq<char>, Seq<Seq<char>>)> = seq![(before[q].id, seq![o])];
    assert(list.skip(1) =~= Seq::<(Seq<char>, Seq<Seq<char>>)>::empty());
    assert forall|i: int| 0 <= i < before.len() && i != q implies r.settles(
        (#[trigger] before[i]).id,
    ) by {
        reveal_with_fuel(dict::lookup, 2);
        assert(dict::lookup(answers, before[i].id) is Some);
        if i < q {
            assert(before[i].id != before[q].id);
        } else {
            assert(before[q].id != before[i].id);
        }
    }
}

proof fn replayed_as_given(answers: Seq<(Seq<char>, AnswerView)>, id: Seq<char>)
    requires
        dict::ascending(answers),
        dict::lookup(answers, id) is Some,
    ensures
        dict::lookup(
            dict::put_all(Seq::<(Seq<char>, AnswerView)>::empty(), answers),
            id,
        ) == dict::lookup(answers, id),
{
    let none = Seq::<(Seq<char>, AnswerView)>::empty();
    let i = found_entry(answers, id);
    dict::put_all_keys(none, answers, id);
    let v = dict::lookup(dict::put_all(none, answers), id).unwrap();
    let j = choose|j: int| 0 <= j < answers.len() && #[trigger] answers[j] == (id, v);
    assert(answers.skip(0) =~= answers);
    entry_is_found(answers, j, 0);
}

/// A run that was asked every question and answered each settles them all: over questions that offer
/// the same, the record has nothing to ask and nothing to drop, and each answer is replayed.
pub proof fn a_whole_run_settles_every_question(
    before: Seq<UnknownView>,
    after: Seq<UnknownView>,
    answers: Seq<(Seq<char>, AnswerView)>,
    previous: RecordedView,
    asked: Seq<Seq<char>>,
)
    requires
        questions::distinct_ids(before),
        whole_answers(before, answers),
        all_asked(before, asked),
        before.len() == after.len(),
        forall|i: int| 0 <= i < before.len() ==> offers_the_same(#[trigger] before[i], after[i]),
    ensures
        ({
            let stored = init::record_of(before, answers, previous.declined, asked);
            let r = init::sorted_record(after, stored);
            &&& r.reopened.len() == 0
            &&& r.dropped.len() == 0
            &&& forall|i: int|
                0 <= i < before.len() ==> r.settles((#[trigger] before[i]).id) && dict::lookup(
                    r.answers,
                    before[i].id,
                ) == dict::lookup(answers, before[i].id)
        }),
{
    let stored = init::record_of(before, answers, previous.declined, asked);
    let r = init::sorted_record(after, stored);
    let n = answers.len() as int;
    unchanged_run_is_replayed(before, after, answers, previous.declined, asked, n);
    assert(answers.take(n) =~= answers);
    assert forall|i: int| 0 <= i < before.len() implies r.settles((#[trigger] before[i]).id)
        && dict::lookup(r.answers, before[i].id) == dict::lookup(answers, before[i].id) by {
        assert(dict::lookup(answers, before[i].id) is Some);
        replayed_as_given(answers, before[i].id);
    }
}

proof fn unchanged_run_is_replayed(
    before: Seq<UnknownView>,
    after: Seq<UnknownView>,
    answers: Seq<(Seq<char>, AnswerView)>,
    recorded: Seq<(Seq<char>, Seq<Seq<char>>)>,
    asked: Seq<Seq<char>>,
    k: int,
)
    requires
        questions::distinct_ids(before),
        whole_answers(before, answers),
        all_asked(before, asked),
        before.len() == after.len(),
        forall|i: int| 0 <= i < before.len() ==> offers_the_same(#[trigger] before[i], after[i]),
        0 <= k <= answers.len(),
    ensures
        ({
            let r = init::sorted_upto(after, init::record_of(before, answers, recorded, asked), k);
            &&& r.dropped.len() == 0
            &&& r.declined == init::record_of(before, answers, recorded, asked).declined
            &&& r.answers == dict::put_all(
                Seq::<(Seq<char>, AnswerView)>::empty(),
                answers.take(k),
            )
            &&& r.reopened.len() == 0
        }),
    decreases k,
{
    let stored = init::record_of(before, answers, recorded, asked);
    let taken = answers.take(k);
    if k == 0 {
        assert(taken =~= Seq::<(Seq<char>, AnswerView)>::empty());
    } else {
        unchanged_run_is_replayed(before, after, answers, recorded, asked, k - 1);
        assert(taken.drop_last() =~= answers.take(k - 1));
        let id = answers[k - 1].0;
        let answer = answers[k - 1].1;
        assert(offered(before, answers[k - 1].0, answers[k - 1].1));
        let i = choose|i: int|
            0 <= i < before.len() && (#[trigger] before[i]).id == id && before[i].offers(answer);
        entry_is_found(answers, k - 1, 0);
        assert(answers.skip(0) =~= answers);
        assert(offers_the_same(before[i], after[i]));
        assert(questions::distinct_ids(after)) by {
            assert forall|a: int, b: int| 0 <= a < b < after.len() implies (#[trigger] after[a]).id
                != (#[trigger] after[b]).id by {
                assert(offers_the_same(before[a], after[a]));
                assert(offers_the_same(before[b], after[b]));
                assert(before[a].id != before[b].id);
            }
        }
        question_is_found(after, i, 0);
        if before[i].kind == UnknownKind::MultiChoice {
            whole_answers_decide(before, answers, recorded, asked, i);
            nothing_is_left(
                before[i].options,
                answer.many(),
                init::listed(stored.declined, id),
                before[i].options.len() as int,
            );
        }
    }
}

} // verus!
