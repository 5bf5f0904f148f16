//! Supervised host processes: where they are recorded, and when they may be stopped.

use crate::dict;
use crate::dict::Dict;
use crate::paths;
use crate::text;
use vstd::prelude::*;

verus! {

/// A name as it stands in a file name.
pub open spec fn sanitized(name: Seq<char>) -> Seq<char> {
    text::replace_of(name, ':', "_"@)
}

pub fn sanitize(name: &str) -> (r: String)
    ensures
        r@ == sanitized(name@),
{
    text::replace(name, ':', "_")
}

/// Where the process of a service is recorded.
pub open spec fn pid_file_of(runtime_dir: Seq<char>, name: Seq<char>) -> Seq<char> {
    paths::join_of(paths::join_of(runtime_dir, "run"@), sanitized(name) + ".pid"@)
}

/// Where the output of a service goes.
pub open spec fn log_file_of(runtime_dir: Seq<char>, name: Seq<char>) -> Seq<char> {
    paths::join_of(paths::join_of(runtime_dir, "log"@), sanitized(name) + ".log"@)
}

pub fn pid_file(runtime_dir: &str, name: &str) -> (r: String)
    ensures
        r@ == pid_file_of(runtime_dir@, name@),
{
    let dir = paths::join(runtime_dir, "run");
    paths::join(&dir, &text::concat(&sanitize(name), ".pid"))
}

pub fn log_file(runtime_dir: &str, name: &str) -> (r: String)
    ensures
        r@ == log_file_of(runtime_dir@, name@),
{
    let dir = paths::join(runtime_dir, "log");
    paths::join(&dir, &text::concat(&sanitize(name), ".log"))
}

/// The process that a pid file names: its first word.
pub open spec fn pid_of(raw: Seq<char>) -> Option<i32> {
    let words = text::words_of(raw);
    if words.len() == 0 {
        None
    } else {
        match text::signed_of(words[0]) {
            Some(n) => if i32::MIN <= n <= i32::MAX {
                Some(n as i32)
            } else {
                None
            },
            None => None,
        }
    }
}

/// The start time that a pid file records: its second word. Files written by older versions hold
/// only the pid.
pub open spec fn stamp_of(raw: Seq<char>) -> Option<Seq<char>> {
    let words = text::words_of(raw);
    if words.len() > 1 && words[1].len() > 0 {
        Some(words[1])
    } else {
        None
    }
}

/// The process that a pid file names.
pub fn read_pid(raw: &str) -> (r: Option<i32>)
    ensures
        r == pid_of(raw@),
{
    let words = text::words(raw);
    assert(text::views(words@).len() == words@.len());
    if words.len() == 0 {
        return None;
    }
    match text::parse_signed(&words[0]) {
        Some(n) => if i32::MIN as i64 <= n && n <= i32::MAX as i64 {
            Some(n as i32)
        } else {
            None
        },
        None => None,
    }
}

/// The start time that a pid file records.
pub fn read_stamp(raw: &str) -> (r: Option<String>)
    ensures
        text::opt_view(r) == stamp_of(raw@),
{
    let words = text::words(raw);
    assert(text::views(words@).len() == words@.len());
    if words.len() > 1 && text::length(&words[1]) > 0 {
        Some(words[1].clone())
    } else {
        None
    }
}

/// The start time that `ps` prints, as one word; none where it prints nothing.
pub open spec fn start_of(output: Seq<char>) -> Option<Seq<char>> {
    let token = text::join_of(text::words_of(output), "_"@);
    if token.len() == 0 {
        None
    } else {
        Some(token)
    }
}

/// The kernel start time that `ps -o lstart=` printed, collapsed to a single token (the pid file
/// keeps pid and stamp on one space-separated line), or None when the pid has no process behind
/// it.
pub fn process_start(output: &str) -> (r: Option<String>)
    ensures
        text::opt_view(r) == start_of(output@),
{
    let token = text::join(&text::words(output), "_");
    if text::length(&token) == 0 {
        None
    } else {
        Some(token)
    }
}

/// The line that records a process and when it started.
pub open spec fn pid_line_of(pid: i32, start: Option<Seq<char>>) -> Seq<char> {
    text::signed_decimal_of(pid as int) + " "@ + (match start {
        Some(stamp) => stamp,
        None => Seq::empty(),
    }) + "\n"@
}

/// The line that records a process and when it started.
pub fn pid_line(pid: i32, start: &Option<String>) -> (r: String)
    ensures
        r@ == pid_line_of(pid, text::opt_view(*start)),
{
    let mut r = text::signed_decimal(pid as i64);
    r.append(" ");
    match start {
        Some(stamp) => {
            r.append(stamp);
        },
        None => {
            assert(r@ + Seq::<char>::empty() =~= r@);
        },
    }
    r.append("\n");
    r
}

// ---------------------------------------------------------------------------
// Stopping
// ---------------------------------------------------------------------------

/// What is done to stop a recorded process.
#[derive(Debug, Clone, Copy, PartialEq, Eq, Structural)]
pub enum StopAction {
    /// No process is recorded.
    Nothing,
    /// What is recorded is not running, or is someone else's: drop the record.
    Forget,
    /// Ask the process group to end.
    Terminate(i32),
}

/// What is done once the wait for a process is over.
#[derive(Debug, Clone, Copy, PartialEq, Eq, Structural)]
pub enum StopEnd {
    /// It is gone, or its pid is someone else's now.
    Gone,
    /// It is still there, and still ours: end it.
    Kill(i32),
}

/// Whether a live pid is still the recorded process: its start time is the recorded one. Without a
/// recorded start time liveness alone decides.
pub open spec fn owned(stamp: Option<Seq<char>>, alive: bool, start: Option<Seq<char>>) -> bool {
    match stamp {
        Some(_) => start == stamp,
        None => alive,
    }
}

pub open spec fn stop_of(raw: Option<Seq<char>>, alive: bool, start: Option<Seq<char>>) -> StopAction {
    match raw {
        None => StopAction::Nothing,
        Some(raw) => match pid_of(raw) {
            None => StopAction::Nothing,
            Some(pid) => if alive && owned(stamp_of(raw), alive, start) {
                StopAction::Terminate(pid)
            } else {
                StopAction::Forget
            },
        },
    }
}

fn is_owned(stamp: &Option<String>, alive: bool, start: &Option<String>) -> (r: bool)
    ensures
        r == owned(text::opt_view(*stamp), alive, text::opt_view(*start)),
{
    match stamp {
        Some(_) => text::same_opt(start, stamp),
        None => alive,
    }
}

/// What to do about a recorded process, given its pid file, whether that pid is alive, and when
/// the process behind it started. A pid recycled after a reboot or wraparound is never mistaken
/// for the recorded process and signalled.
pub fn stop(raw: &Option<String>, alive: bool, start: &Option<String>) -> (r: StopAction)
    ensures
        r == stop_of(text::opt_view(*raw), alive, text::opt_view(*start)),
{
    match raw {
        None => StopAction::Nothing,
        Some(raw) => match read_pid(raw) {
            None => StopAction::Nothing,
            Some(pid) => if alive && is_owned(&read_stamp(raw), alive, start) {
                StopAction::Terminate(pid)
            } else {
                StopAction::Forget
            },
        },
    }
}

/// What to do once the time to end by itself is over.
pub fn stop_end(raw: &str, alive: bool, start: &Option<String>) -> (r: StopEnd)
    ensures
        r == (match pid_of(raw@) {
            Some(pid) => if alive && owned(stamp_of(raw@), alive, text::opt_view(*start)) {
                StopEnd::Kill(pid)
            } else {
                StopEnd::Gone
            },
            None => StopEnd::Gone,
        }),
{
    match read_pid(raw) {
        Some(pid) => if alive && is_owned(&read_stamp(raw), alive, start) {
            StopEnd::Kill(pid)
        } else {
            StopEnd::Gone
        },
        None => StopEnd::Gone,
    }
}

/// A process that started at another time than the recorded one is left alone, whatever runs
/// under its pid.
pub proof fn recycled_pids_are_left_alone(raw: Seq<char>, alive: bool, start: Option<Seq<char>>)
    requires
        stamp_of(raw) is Some,
        start != stamp_of(raw),
    ensures
        !(stop_of(Some(raw), alive, start) is Terminate),
{
}

/// What a pid file records is what is read back from it: the process, and when it started. So a
/// process that is still the recorded one is always found.
pub proof fn recorded_processes_are_read_back(pid: i32, output: Seq<char>)
    ensures
        pid_of(pid_line_of(pid, start_of(output))) == Some(pid),
        stamp_of(pid_line_of(pid, start_of(output))) == start_of(output),
        stop_of(Some(pid_line_of(pid, start_of(output))), true, start_of(output))
            == StopAction::Terminate(pid),
{
    let stamp = match start_of(output) {
        Some(stamp) => stamp,
        None => Seq::empty(),
    };
    let name = text::signed_decimal_of(pid as int);
    let line = pid_line_of(pid, start_of(output));
    let end: Seq<char> = "\n"@;
    let none = Seq::<char>::empty();
    reveal_strlit(" ");
    reveal_strlit("\n");
    reveal_strlit("_");
    text::signed_decimals_are_read_back(pid as i64);
    text::words_are_solid(output);
    text::joined_words_are_solid(text::words_of(output), "_"@);
    assert(text::white('\n') && text::white(' '));
    assert(line =~= name + (seq![' '] + (stamp + end)));
    text::first_word_is_split_off(name, seq![' '] + (stamp + end));
    text::white_space_is_no_word(' ', stamp + end);
    assert(end =~= seq!['\n'] + none);
    text::white_space_is_no_word('\n', none);
    assert(text::words_of(none) =~= Seq::<Seq<char>>::empty());
    if stamp.len() > 0 {
        text::first_word_is_split_off(stamp, end);
        assert(text::words_of(line)[1] == stamp);
    } else {
        assert(stamp + end =~= end);
        assert(start_of(output) is None);
    }
    assert(text::words_of(line)[0] == name);
}

/// A file of the directory of pid files: its name, and what it holds.
#[derive(Debug)]
pub struct PidFile {
    pub name: String,
    pub contents: Option<String>,
}

pub open spec fn pid_file_views(s: Seq<PidFile>) -> Seq<(Seq<char>, Option<Seq<char>>)> {
    Seq::new(s.len(), |i: int| (s[i].name@, text::opt_view(s[i].contents)))
}

/// The process that one file records.
pub open spec fn recorded_in(file: (Seq<char>, Option<Seq<char>>)) -> Option<(Seq<char>, i32)> {
    match (text::strip_suffix_of(file.0, ".pid"@), file.1) {
        (Some(stem), Some(raw)) => if stem.len() > 0 {
            match pid_of(raw) {
                Some(pid) => Some((stem, pid)),
                None => None,
            }
        } else {
            None
        },
        _ => None,
    }
}

/// The processes that the first `k` files record, by name.
pub open spec fn recorded_of(files: Seq<(Seq<char>, Option<Seq<char>>)>, k: int) -> Seq<
    (Seq<char>, i32),
>
    decreases k,
{
    if k <= 0 {
        Seq::empty()
    } else {
        match recorded_in(files[k - 1]) {
            Some((name, pid)) => dict::put(recorded_of(files, k - 1), name, pid),
            None => recorded_of(files, k - 1),
        }
    }
}

/// Every supervised process this worktree recorded, including entries left by services that no
/// longer exist in the manifest. Sorted by name.
pub fn recorded(files: &Vec<PidFile>) -> (r: Dict<i32>)
    ensures
        r@ == recorded_of(pid_file_views(files@), files@.len() as int),
        dict::ascending(r@),
{
    let ghost all = pid_file_views(files@);
    let mut out: Dict<i32> = Dict::new();
    let mut k: usize = 0;
    while k < files.len()
        invariant
            all == pid_file_views(files@),
            k <= files@.len(),
            out@ == recorded_of(all, k as int),
        decreases files@.len() - k,
    {
        let file = &files[k];
        assert(all[k as int] == (file.name@, text::opt_view(file.contents)));
        if let Some(stem) = text::strip_suffix(&file.name, ".pid") {
            if text::length(&stem) > 0 {
                if let Some(raw) = &file.contents {
                    if let Some(pid) = read_pid(raw) {
                        out.insert(stem, pid);
                    }
                }
            }
        }
        k += 1;
    }
    let _n: usize = out.len();
    out
}

/// The processes to stop in a worktree, by name: every one that it recorded, including pid files
/// left behind by services that no longer exist in the manifest.
pub fn stop_all(files: &Vec<PidFile>) -> (r: Vec<String>)
    ensures
        text::views(r@) == dict_keys(recorded_of(pid_file_views(files@), files@.len() as int)),
{
    let found = recorded(files);
    let ghost all = dict_keys(found@);
    let mut out: Vec<String> = Vec::new();
    let mut k: usize = 0;
    assert(text::views(out@) =~= all.take(0));
    while k < found.len()
        invariant
            all == dict_keys(found@),
            k <= found@.len(),
            text::views(out@) == all.take(k as int),
        decreases found@.len() - k,
    {
        text::add(&mut out, found.key_at(k));
        k += 1;
        assert(all.take(k as int) =~= all.take(k - 1).push(all[k - 1]));
    }
    assert(all.take(k as int) =~= all);
    out
}

/// The keys of a dictionary, in order.
pub open spec fn dict_keys<T>(e: Seq<(Seq<char>, T)>) -> Seq<Seq<char>> {
    Seq::new(e.len(), |i: int| e[i].0)
}

// ---------------------------------------------------------------------------
// Output
// ---------------------------------------------------------------------------

/// The lines that hold more than white space, among the first `k`.
pub open spec fn full_lines(lines: Seq<Seq<char>>, k: int) -> Seq<Seq<char>>
    decreases k,
{
    if k <= 0 {
        Seq::empty()
    } else if text::trim_of(lines[k - 1]).len() == 0 {
        full_lines(lines, k - 1)
    } else {
        full_lines(lines, k - 1).push(lines[k - 1])
    }
}

/// The last `count` lines of a log that hold more than white space.
pub open spec fn log_tail_of(raw: Seq<char>, count: int) -> Seq<Seq<char>> {
    let lines = text::lines_of(raw);
    let full = full_lines(lines, lines.len() as int);
    if full.len() > count {
        full.skip(full.len() - count)
    } else {
        full
    }
}

/// The last `count` lines a supervised process wrote, for failure reports.
pub fn log_tail(raw: &str, count: usize) -> (r: Vec<String>)
    ensures
        text::views(r@) == log_tail_of(raw@, count as int),
{
    let lines = text::lines(raw);
    let ghost all = text::lines_of(raw@);
    let mut full: Vec<String> = Vec::new();
    let mut k: usize = 0;
    assert(text::views(full@) =~= Seq::<Seq<char>>::empty());
    while k < lines.len()
        invariant
            text::views(lines@) == all,
            k <= lines@.len(),
            text::views(full@) == full_lines(all, k as int),
        decreases lines@.len() - k,
    {
        assert(all[k as int] == lines@[k as int]@);
        if text::length(&text::trim(&lines[k])) > 0 {
            text::add(&mut full, &lines[k]);
        }
        k += 1;
    }
    let start: usize = if full.len() > count {
        full.len() - count
    } else {
        0
    };
    let ghost list = text::views(full@);
    let mut out: Vec<String> = Vec::new();
    let mut i: usize = start;
    assert(text::views(out@) =~= list.subrange(start as int, start as int));
    while i < full.len()
        invariant
            list == text::views(full@),
            start <= i <= full@.len(),
            text::views(out@) == list.subrange(start as int, i as int),
        decreases full@.len() - i,
    {
        text::add(&mut out, &full[i]);
        i += 1;
        assert(list.subrange(start as int, i as int) =~= list.subrange(
            start as int,
            i - 1,
        ).push(list[i - 1]));
    }
    assert(list.subrange(start as int, i as int) =~= list.skip(start as int));
    assert(list.skip(0) =~= list);
    out
}

/// Whether a line has more than white space in it.
pub open spec fn says_something(line: Seq<char>) -> bool {
    text::trim_of(line).len() > 0
}

proof fn full_lines_say_something(lines: Seq<Seq<char>>, k: int)
    requires
        0 <= k <= lines.len(),
    ensures
        forall|i: int|
            0 <= i < full_lines(lines, k).len() ==> says_something(
                #[trigger] full_lines(lines, k)[i],
            ),
        forall|j: int|
            0 <= j < k && says_something(#[trigger] lines[j]) ==> full_lines(lines, k).contains(
                lines[j],
            ),
        forall|i: int|
            0 <= i < full_lines(lines, k).len() ==> lines.contains(
                #[trigger] full_lines(lines, k)[i],
            ),
    decreases k,
{
    if k > 0 {
        full_lines_say_something(lines, k - 1);
        let before = full_lines(lines, k - 1);
        let now = full_lines(lines, k);
        assert forall|j: int| 0 <= j < k && says_something(#[trigger] lines[j]) implies now.contains(
            lines[j],
        ) by {
            if j < k - 1 {
                assert(before.contains(lines[j]));
                let i = choose|i: int| 0 <= i < before.len() && before[i] == lines[j];
                assert(now[i] == lines[j]);
            } else {
                assert(now[before.len() as int] == lines[j]);
            }
        }
    }
}

/// The end of a log is its last lines that say something, no more than asked for: the very last such
/// line of the log is the last one shown, and where there are few every one is shown.
pub proof fn log_tails_end_where_the_log_ends(raw: Seq<char>, count: int)
    requires
        count >= 0,
    ensures
        log_tail_of(raw, count).len() <= count,
        forall|i: int|
            0 <= i < log_tail_of(raw, count).len() ==> says_something(
                #[trigger] log_tail_of(raw, count)[i],
            ) && text::lines_of(raw).contains(log_tail_of(raw, count)[i]),
        log_tail_of(raw, count).len() < count ==> forall|j: int|
            0 <= j < text::lines_of(raw).len() && says_something(#[trigger] text::lines_of(raw)[j])
                ==> log_tail_of(raw, count).contains(text::lines_of(raw)[j]),
        count > 0 && text::lines_of(raw).len() > 0 && says_something(text::lines_of(raw).last())
            ==> log_tail_of(raw, count).len() > 0 && log_tail_of(raw, count).last()
            == text::lines_of(raw).last(),
{
    let lines = text::lines_of(raw);
    let full = full_lines(lines, lines.len() as int);
    full_lines_say_something(lines, lines.len() as int);
    let r = log_tail_of(raw, count);
    assert forall|i: int| 0 <= i < r.len() implies says_something(#[trigger] r[i])
        && lines.contains(r[i]) by {
        if full.len() > count {
            assert(r[i] == full[i + (full.len() - count)]);
        }
    }
}

/// What a stop does goes by what the pid file says: nothing without a pid to stop; the process is
/// stopped while it is alive and, where the file says when it started, is the one that started then;
/// and otherwise the file is forgotten.
pub proof fn stops_go_by_the_record(
    raw: Seq<char>,
    pid: i32,
    stamp: Option<Seq<char>>,
    alive: bool,
    start: Option<Seq<char>>,
)
    requires
        pid_of(raw) == Some(pid),
        stamp_of(raw) == stamp,
    ensures
        stop_of(None, alive, start) == StopAction::Nothing,
        !alive ==> stop_of(Some(raw), alive, start) == StopAction::Forget,
        alive && stamp is Some && start != stamp ==> stop_of(Some(raw), alive, start)
            == StopAction::Forget,
        alive && (stamp is None || start == stamp) ==> stop_of(Some(raw), alive, start)
            == StopAction::Terminate(pid),
{
}

proof fn other_files_change_nothing(
    files: Seq<(Seq<char>, Option<Seq<char>>)>,
    k: int,
    from: int,
    name: Seq<char>,
)
    requires
        0 <= from <= k <= files.len(),
        forall|j: int|
            from <= j < k ==> (recorded_in(#[trigger] files[j]) matches Some(found) ==> found.0
                != name),
    ensures
        dict::lookup(recorded_of(files, k), name) == dict::lookup(recorded_of(files, from), name),
    decreases k - from,
{
    if from < k {
        other_files_change_nothing(files, k - 1, from, name);
        if let Some((own, pid)) = recorded_in(files[k - 1]) {
            dict::put_then_lookup(recorded_of(files, k - 1), own, pid, name);
        }
    }
}

/// A process is found by the pid file of its name, with the pid that the file holds; and nothing is
/// found where there is no such file.
pub proof fn pid_files_name_their_process(
    files: Seq<(Seq<char>, Option<Seq<char>>)>,
    name: Seq<char>,
    i: int,
    raw: Seq<char>,
    pid: i32,
)
    requires
        name.len() > 0,
        forall|j: int, k: int|
            0 <= j < k < files.len() ==> (#[trigger] files[j]).0 != (#[trigger] files[k]).0,
    ensures
        0 <= i < files.len() && files[i] == (name + ".pid"@, Some(raw)) && pid_of(raw) == Some(pid)
            ==> dict::lookup(recorded_of(files, files.len() as int), name) == Some(pid),
        (forall|j: int| 0 <= j < files.len() ==> (#[trigger] files[j]).0 != name + ".pid"@)
            ==> dict::lookup(recorded_of(files, files.len() as int), name) is None,
{
    let n = files.len() as int;
    let own = name + ".pid"@;
    let end = ".pid"@;
    assert forall|j: int| 0 <= j < n implies (recorded_in(#[trigger] files[j]) matches Some(found)
        ==> files[j].0 == found.0 + end) by {
        if let Some(found) = recorded_in(files[j]) {
            let s = files[j].0;
            assert(s =~= s.take(s.len() - end.len()) + s.skip(s.len() - end.len()));
        }
    }
    if 0 <= i < n && files[i] == (own, Some(raw)) && pid_of(raw) == Some(pid) {
        assert(own.skip(own.len() - end.len()) =~= end);
        assert(own.take(own.len() - end.len()) =~= name);
        assert(recorded_in(files[i]) == Some((name, pid)));
        dict::put_then_lookup(recorded_of(files, i), name, pid, name);
        assert forall|j: int| i + 1 <= j < n implies (recorded_in(#[trigger] files[j]) matches Some(
            found,
        ) ==> found.0 != name) by {
            assert(files[i].0 != files[j].0);
        }
        other_files_change_nothing(files, n, i + 1, name);
    }
    if forall|j: int| 0 <= j < n ==> (#[trigger] files[j]).0 != own {
        assert forall|j: int| 0 <= j < n implies (recorded_in(#[trigger] files[j]) matches Some(
            found,
        ) ==> found.0 != name) by {
            assert(files[j].0 != own);
        }
        other_files_change_nothing(files, n, 0, name);
    }
}

} // verus!
