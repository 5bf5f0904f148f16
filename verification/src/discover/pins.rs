//! That every port a command pins is found, whichever way it is written.

use crate::discover::ports;
use crate::discover::ports::{Class, PortLiteralView};
use crate::discover::report::PortKind;
use crate::text;
use vstd::prelude::*;

verus! {

proof fn run_reaches(t: Seq<char>, class: Class, i: int, end: int)
    requires
        0 <= i <= end <= t.len(),
        forall|j: int| i <= j < end ==> class.has(#[trigger] t[j]),
        end == t.len() || !class.has(t[end]),
    ensures
        ports::run_end(t, class, i) == end,
    decreases end - i,
{
    if i < end {
        assert(class.has(t[i]));
        run_reaches(t, class, i + 1, end);
    }
}

proof fn run_reaches_back(t: Seq<char>, class: Class, i: int, start: int)
    requires
        0 <= start <= i <= t.len(),
        forall|j: int| start <= j < i ==> class.has(#[trigger] t[j]),
        start == 0 || !class.has(t[start - 1]),
    ensures
        ports::run_start(t, class, i) == start,
    decreases i - start,
{
    if start < i {
        assert(class.has(t[i - 1]));
        run_reaches_back(t, class, i - 1, start);
    }
}

proof fn runs_are_of_their_class(t: Seq<char>, class: Class, i: int)
    requires
        0 <= i <= t.len(),
    ensures
        0 <= ports::run_start(t, class, i) <= i,
        forall|j: int| ports::run_start(t, class, i) <= j < i ==> class.has(#[trigger] t[j]),
    decreases i,
{
    if 0 < i && class.has(t[i - 1]) {
        runs_are_of_their_class(t, class, i - 1);
    }
}

proof fn runs_go_on(t: Seq<char>, class: Class, i: int)
    requires
        0 <= i <= t.len(),
    ensures
        i <= ports::run_end(t, class, i) <= t.len(),
    decreases t.len() - i,
{
    if i < t.len() && class.has(t[i]) {
        runs_go_on(t, class, i + 1);
    }
}

proof fn what_stands_is_found(t: Seq<char>, k: int, i: int)
    requires
        0 <= i < k <= t.len(),
        ports::literal_at(t, i) is Some,
    ensures
        ports::found(t, k).contains(ports::literal_at(t, i)->Some_0),
    decreases k,
{
    let x = ports::literal_at(t, i)->Some_0;
    let before = ports::found(t, k - 1);
    if i < k - 1 {
        what_stands_is_found(t, k - 1, i);
        let j = choose|j: int| 0 <= j < before.len() && before[j] == x;
        assert(ports::found(t, k)[j] == x);
    } else {
        assert(ports::found(t, k)[before.len() as int] == x);
    }
}

proof fn what_is_found_stands(t: Seq<char>, k: int, x: PortLiteralView) -> (i: int)
    requires
        0 <= k <= t.len(),
        ports::found(t, k).contains(x),
    ensures
        0 <= i < k,
        ports::literal_at(t, i) == Some(x),
    decreases k,
{
    let all = ports::found(t, k);
    let j = choose|j: int| 0 <= j < all.len() && all[j] == x;
    let before = ports::found(t, k - 1);
    if j < before.len() {
        assert(before[j] == x);
        what_is_found_stands(t, k - 1, x)
    } else {
        k - 1
    }
}

proof fn placing_keeps(list: Seq<PortLiteralView>, x: PortLiteralView, y: PortLiteralView)
    ensures
        ports::placed(list, x).contains(y) <==> y == x || list.contains(y),
    decreases list.len(),
{
    let now = ports::placed(list, x);
    if list.len() == 0 || ports::no_later(list.last(), x) {
        assert(now[list.len() as int] == x);
        if list.contains(y) {
            let i = choose|i: int| 0 <= i < list.len() && list[i] == y;
            assert(now[i] == y);
        }
        if now.contains(y) && y != x {
            let i = choose|i: int| 0 <= i < now.len() && now[i] == y;
            assert(list[i] == y);
        }
    } else {
        let rest = list.drop_last();
        let inner = ports::placed(rest, x);
        placing_keeps(rest, x, y);
        assert(now[inner.len() as int] == list.last());
        assert(list[list.len() - 1] == list.last());
        if inner.contains(y) {
            let i = choose|i: int| 0 <= i < inner.len() && inner[i] == y;
            assert(now[i] == y);
        }
        if list.contains(y) && y != list.last() {
            let i = choose|i: int| 0 <= i < list.len() && list[i] == y;
            assert(rest[i] == y);
        }
        if rest.contains(y) {
            let i = choose|i: int| 0 <= i < rest.len() && rest[i] == y;
            assert(list[i] == y);
        }
        if now.contains(y) && y != list.last() {
            let i = choose|i: int| 0 <= i < now.len() && now[i] == y;
            assert(inner[i] == y);
        }
    }
}

proof fn ordering_keeps(list: Seq<PortLiteralView>, y: PortLiteralView)
    ensures
        ports::in_order(list).contains(y) <==> list.contains(y),
    decreases list.len(),
{
    if list.len() > 0 {
        let rest = list.drop_last();
        ordering_keeps(rest, y);
        placing_keeps(ports::in_order(rest), list.last(), y);
        assert(list[list.len() - 1] == list.last());
        if rest.contains(y) {
            let i = choose|i: int| 0 <= i < rest.len() && rest[i] == y;
            assert(list[i] == y);
        }
        if list.contains(y) && y != list.last() {
            let i = choose|i: int| 0 <= i < list.len() && list[i] == y;
            assert(rest[i] == y);
        }
    }
}

proof fn what_is_kept_was_there(list: Seq<PortLiteralView>, i: int)
    requires
        0 <= i < ports::distinct(list).len(),
    ensures
        list.contains(ports::distinct(list)[i]),
    decreases list.len(),
{
    if list.len() > 1 {
        let rest = list.drop_last();
        let kept = ports::distinct(rest);
        if i < kept.len() {
            what_is_kept_was_there(rest, i);
            let j = choose|j: int| 0 <= j < rest.len() && rest[j] == kept[i];
            assert(list[j] == kept[i]);
        } else {
            assert(list[list.len() - 1] == list.last());
        }
    } else {
        assert(list[i] == ports::distinct(list)[i]);
    }
}

proof fn every_place_is_kept(list: Seq<PortLiteralView>, x: PortLiteralView) -> (i: int)
    requires
        list.contains(x),
    ensures
        0 <= i < ports::distinct(list).len(),
        ports::same_range(ports::distinct(list)[i], x),
    decreases list.len(),
{
    let j = choose|j: int| 0 <= j < list.len() && list[j] == x;
    if list.len() > 1 {
        let rest = list.drop_last();
        let kept = ports::distinct(rest);
        assert(rest[0] == list[0]);
        if j < rest.len() {
            assert(rest[j] == x);
            every_place_is_kept(rest, x)
        } else {
            let first = every_place_is_kept(rest, rest[0]);
            assert(kept.len() > first);
            if ports::same_range(kept.last(), x) {
                kept.len() - 1
            } else {
                kept.len() as int
            }
        }
    } else {
        j
    }
}

proof fn scans_cover(t: Seq<char>, i: int) -> (found: (int, int))
    requires
        0 <= i < t.len(),
        ports::literal_at(t, i) is Some,
    ensures
        ({
            let (at, m) = found;
            &&& 0 <= at < ports::scan_of(t).len()
            &&& ports::same_range(ports::scan_of(t)[at], ports::literal_at(t, i)->Some_0)
            &&& 0 <= m < t.len()
            &&& ports::literal_at(t, m) == Some(ports::scan_of(t)[at])
        }),
{
    let x = ports::literal_at(t, i)->Some_0;
    let all = ports::found(t, t.len() as int);
    what_stands_is_found(t, t.len() as int, i);
    ordering_keeps(all, x);
    let at = every_place_is_kept(ports::in_order(all), x);
    let y = ports::scan_of(t)[at];
    what_is_kept_was_there(ports::in_order(all), at);
    ordering_keeps(all, y);
    (at, what_is_found_stands(t, t.len() as int, y))
}

/// A text with a number behind a head and a separator.
pub open spec fn pinned(
    before: Seq<char>,
    head: Seq<char>,
    sep: char,
    port: u16,
    after: Seq<char>,
) -> Seq<char> {
    before + head.push(sep) + text::decimal_of(port as nat) + after
}

/// Whether a literal is a part of a text and holds a port, behind what leads up to it.
pub open spec fn is_pin(
    x: PortLiteralView,
    kind: PortKind,
    lead: Seq<char>,
    port: u16,
    from: int,
    to: int,
) -> bool {
    &&& x.kind == kind
    &&& x.port == port
    &&& x.from == from
    &&& x.to == to
    &&& x.prefix == lead
    &&& x.suffix.len() == 0
}

/// Whether one of the literals of a text is a part of it and holds a port.
pub open spec fn is_found(
    t: Seq<char>,
    kind: PortKind,
    lead: Seq<char>,
    port: u16,
    from: int,
    to: int,
) -> bool {
    exists|i: int|
        0 <= i < ports::scan_of(t).len() && is_pin(
            #[trigger] ports::scan_of(t)[i],
            kind,
            lead,
            port,
            from,
            to,
        )
}

/// Whether a text is over, or goes on with a blank or the end of a line.
pub open spec fn word_ends(after: Seq<char>) -> bool {
    after.len() == 0 || after[0] == ' ' || after[0] == '\n'
}

/// Whether a word starts behind a text.
pub open spec fn word_starts(before: Seq<char>) -> bool {
    before.len() == 0 || before.last() == ' ' || before.last() == '\n'
}

#[verifier::rlimit(40)]
proof fn the_number_is_read(
    before: Seq<char>,
    head: Seq<char>,
    sep: char,
    port: u16,
    after: Seq<char>,
)
    requires
        port > 0,
        word_ends(after),
    ensures
        ({
            let t = pinned(before, head, sep, port, after);
            let s = (before.len() + head.len()) as int;
            let end = t.len() - after.len();
            &&& s + 1 < end
            &&& t[s] == sep
            &&& forall|i: int| 0 <= i < before.len() ==> t[i] == before[i]
            &&& forall|i: int|
                before.len() <= i < s ==> #[trigger] t[i] == head[i - before.len()]
            &&& forall|i: int| s < i < end ==> text::digit(#[trigger] t[i])
            &&& ports::digits_at(t, s + 1) == Some((port, end))
        }),
{
    let t = pinned(before, head, sep, port, after);
    let d = text::decimal_of(port as nat);
    let s = (before.len() + head.len()) as int;
    let end = t.len() - after.len();
    text::decimals_are_read_back(port as nat);
    assert forall|i: int| s < i < end implies text::digit(#[trigger] t[i]) by {
        assert(t[i] == d[i - s - 1]);
    }
    assert(t.subrange(s + 1, end) =~= d);
    assert(after.len() > 0 ==> t[end] == after[0]);
    run_reaches(t, Class::Digit, s + 1, end);
    assert(text::digit(d[0]));
}

/// Whether a flag says a port: `-p`, or a long one that ends in `port`.
pub open spec fn says_port(flag: Seq<char>) -> bool {
    ||| flag == "-p"@
    ||| {
        &&& flag.len() > 2
        &&& flag[0] == '-' && flag[1] == '-' && flag[2] != '-'
        &&& text::ends_with_of(text::lower_of(flag.skip(2)), "port"@)
    }
}

proof fn long_flags_are_flags(flag: Seq<char>)
    requires
        says_port(flag),
    ensures
        ports::port_flag(flag),
        flag.len() > 0,
        flag[0] == '-',
{
    reveal_strlit("-p");
    reveal_strlit("--");
    if flag != "-p"@ {
        assert(flag.take(2) =~= "--"@);
        assert(flag.skip(1).skip(1) =~= flag.skip(2));
        assert(flag.skip(1)[0] == '-');
        assert(flag.skip(2)[0] != '-');
        assert(ports::undashed(flag.skip(2)) == flag.skip(2));
        assert(ports::undashed(flag.skip(1)) == ports::undashed(flag.skip(1).skip(1)));
        assert(ports::undashed(flag) == ports::undashed(flag.skip(1)));
    }
}

#[verifier::rlimit(40)]
proof fn flags_stand(
    before: Seq<char>,
    flag: Seq<char>,
    sep: char,
    port: u16,
    after: Seq<char>,
)
    requires
        word_starts(before),
        says_port(flag),
        forall|i: int| 0 <= i < flag.len() ==> text::alnum(#[trigger] flag[i]) || flag[i] == '-',
        sep == '=' || sep == ' ',
        port > 0,
        word_ends(after),
    ensures
        ({
            let t = pinned(before, flag, sep, port, after);
            let p = before.len() as int;
            let s = p + flag.len();
            &&& t[p] == '-'
            &&& ports::starts_token(t, p)
            &&& ports::flag_at(t, p) == Some(
                ports::literal_of(
                    t,
                    PortKind::Flag,
                    port,
                    p,
                    s + 1,
                    t.len() - after.len(),
                    Seq::empty(),
                ),
            )
        }),
{
    let t = pinned(before, flag, sep, port, after);
    let p = before.len() as int;
    let s = p + flag.len();
    the_number_is_read(before, flag, sep, port, after);
    long_flags_are_flags(flag);
    assert(t[p] == flag[0]);
    assert(p > 0 ==> t[p - 1] == before.last());
    assert(t.subrange(p, s) =~= flag);
    assert(!Class::Flag.has(sep));
    assert forall|j: int| p <= j < s implies Class::Flag.has(#[trigger] t[j]) by {
        assert(t[j] == flag[j - p]);
    }
    run_reaches(t, Class::Flag, p, s);
    assert(text::digit(t[s + 1]));
    if sep == ' ' {
        run_reaches(t, Class::Space, s, s + 1);
    }
    assert(ports::value_after(t, s) == Some((s + 1, None::<char>)));
}

#[verifier::rlimit(40)]
proof fn flags_stand_alone(
    before: Seq<char>,
    flag: Seq<char>,
    sep: char,
    port: u16,
    after: Seq<char>,
    m: int,
)
    requires
        flag.len() > 0,
        flag[0] == '-',
        forall|i: int| 0 <= i < flag.len() ==> text::alnum(#[trigger] flag[i]) || flag[i] == '-',
        sep == '=' || sep == ' ',
        port > 0,
        word_ends(after),
        ({
            let t = pinned(before, flag, sep, port, after);
            &&& t.len() <= usize::MAX
            &&& 0 <= m < t.len()
            &&& ports::literal_at(t, m) matches Some(y) && y.from == before.len() && y.to == t.len()
                - after.len()
        }),
    ensures
        m == before.len(),
{
    let t = pinned(before, flag, sep, port, after);
    let p = before.len() as int;
    let s = p + flag.len();
    let end = t.len() - after.len();
    the_number_is_read(before, flag, sep, port, after);
    assert(t[p] == flag[0]);
    if t[m] == '-' && ports::starts_token(t, m) {
        assert(m == p);
    } else if t[m] == '=' {
        runs_are_of_their_class(t, Class::Name, m);
        assert(!Class::Name.has(t[p]));
        assert(false);
    } else {
        runs_are_of_their_class(t, Class::Host, m);
        runs_go_on(t, Class::Digit, m + 1);
        assert(p <= m < end);
        if m < s {
            assert(t[m] == flag[m - p]);
        }
        assert(t[m] != ':');
        assert(false);
    }
}

/// A flag that pins a port is found, with the flag and the number that follows it: behind `=` or a blank,
/// and wherever in a command it stands.
#[verifier::rlimit(40)]
pub proof fn flags_that_pin_a_port_are_found(
    before: Seq<char>,
    flag: Seq<char>,
    sep: char,
    port: u16,
    after: Seq<char>,
)
    requires
        word_starts(before),
        says_port(flag),
        forall|i: int| 0 <= i < flag.len() ==> text::alnum(#[trigger] flag[i]) || flag[i] == '-',
        sep == '=' || sep == ' ',
        port > 0,
        word_ends(after),
        pinned(before, flag, sep, port, after).len() <= usize::MAX,
    ensures
        is_found(
            pinned(before, flag, sep, port, after),
            PortKind::Flag,
            flag.push(sep),
            port,
            before.len() as int,
            pinned(before, flag, sep, port, after).len() - after.len(),
        ),
{
    let t = pinned(before, flag, sep, port, after);
    let p = before.len() as int;
    let s = p + flag.len();
    let end = t.len() - after.len();
    the_number_is_read(before, flag, sep, port, after);
    long_flags_are_flags(flag);
    flags_stand(before, flag, sep, port, after);
    assert(t.subrange(p, s + 1) =~= flag.push(sep));
    assert(ports::literal_at(t, p) is Some);
    let (at, m) = scans_cover(t, p);
    flags_stand_alone(before, flag, sep, port, after, m);
    assert(is_pin(ports::scan_of(t)[at], PortKind::Flag, flag.push(sep), port, p, end));
}

#[verifier::rlimit(40)]
proof fn hosts_stand_alone(
    before: Seq<char>,
    host: Seq<char>,
    port: u16,
    after: Seq<char>,
    m: int,
)
    requires
        host.len() > 0,
        text::alnum(host[0]),
        forall|i: int|
            0 <= i < host.len() ==> text::alnum(#[trigger] host[i]) || host[i] == '.' || host[i]
                == '-' || host[i] == '_',
        port > 0,
        word_ends(after),
        ({
            let t = pinned(before, host, ':', port, after);
            &&& t.len() <= usize::MAX
            &&& 0 <= m < t.len()
            &&& ports::literal_at(t, m) matches Some(y) && y.from == before.len() && y.to == t.len()
                - after.len()
        }),
    ensures
        m == before.len() + host.len(),
{
    let t = pinned(before, host, ':', port, after);
    let p = before.len() as int;
    let s = p + host.len();
    let end = t.len() - after.len();
    the_number_is_read(before, host, ':', port, after);
    assert(t[p] == host[0]);
    if t[m] == '-' && ports::starts_token(t, m) {
        assert(m == p);
        assert(false);
    } else if t[m] == '=' {
        runs_are_of_their_class(t, Class::Name, m);
        runs_go_on(t, Class::Digit, ports::past_quote(m + 1, ports::quote_at(t, m + 1)));
        assert(p <= m < end);
        if m < s {
            assert(t[m] == host[m - p]);
        }
        assert(false);
    } else {
        runs_are_of_their_class(t, Class::Host, m);
        runs_go_on(t, Class::Digit, m + 1);
        assert(p <= m < end);
        if m < s {
            assert(t[m] == host[m - p]);
        }
        assert(m == s);
    }
}

/// An address that pins a port is found, with its host and the number behind the colon. A smaller number
/// is that of a time or a version.
#[verifier::rlimit(40)]
pub proof fn hosts_that_pin_a_port_are_found(
    before: Seq<char>,
    host: Seq<char>,
    port: u16,
    after: Seq<char>,
)
    requires
        word_starts(before) || before.last() == '/',
        host.len() > 0,
        text::alnum(host[0]),
        forall|i: int|
            0 <= i < host.len() ==> text::alnum(#[trigger] host[i]) || host[i] == '.' || host[i]
                == '-' || host[i] == '_',
        host.last() != '-',
        port >= 1024,
        word_ends(after),
        pinned(before, host, ':', port, after).len() <= usize::MAX,
    ensures
        is_found(
            pinned(before, host, ':', port, after),
            PortKind::Url,
            host.push(':'),
            port,
            before.len() as int,
            pinned(before, host, ':', port, after).len() - after.len(),
        ),
{
    let t = pinned(before, host, ':', port, after);
    let p = before.len() as int;
    let s = p + host.len();
    let end = t.len() - after.len();
    the_number_is_read(before, host, ':', port, after);
    assert(t[p] == host[0]);
    assert(t[s - 1] == host.last());
    assert(p > 0 ==> t[p - 1] == before.last());
    assert(t.subrange(p, s) =~= host);
    run_reaches_back(t, Class::Host, s, p);
    assert(ports::has_alnum(host));
    assert(t.subrange(p, s + 1) =~= host.push(':'));
    assert(ports::literal_at(t, s) is Some);
    let (at, m) = scans_cover(t, s);
    hosts_stand_alone(before, host, port, after, m);
    assert(is_pin(ports::scan_of(t)[at], PortKind::Url, host.push(':'), port, p, end));
}

#[verifier::rlimit(40)]
proof fn variables_stand_alone(
    before: Seq<char>,
    name: Seq<char>,
    port: u16,
    after: Seq<char>,
    m: int,
)
    requires
        name.len() > 0,
        forall|i: int| 0 <= i < name.len() ==> text::alnum(#[trigger] name[i]) || name[i] == '_',
        port > 0,
        word_ends(after),
        ({
            let t = pinned(before, name, '=', port, after);
            &&& t.len() <= usize::MAX
            &&& 0 <= m < t.len()
            &&& ports::literal_at(t, m) matches Some(y) && y.from == before.len() && y.to == t.len()
                - after.len()
        }),
    ensures
        m == before.len() + name.len(),
{
    let t = pinned(before, name, '=', port, after);
    let p = before.len() as int;
    let s = p + name.len();
    let end = t.len() - after.len();
    the_number_is_read(before, name, '=', port, after);
    assert(t[p] == name[0]);
    if t[m] == '-' && ports::starts_token(t, m) {
        assert(m == p);
        assert(false);
    } else if t[m] == '=' {
        runs_are_of_their_class(t, Class::Name, m);
        runs_go_on(t, Class::Digit, ports::past_quote(m + 1, ports::quote_at(t, m + 1)));
        assert(p <= m < end);
        if m < s {
            assert(t[m] == name[m - p]);
        }
        assert(m == s);
    } else {
        runs_are_of_their_class(t, Class::Host, m);
        runs_go_on(t, Class::Digit, m + 1);
        assert(p <= m < end);
        if m < s {
            assert(t[m] == name[m - p]);
        }
        assert(false);
    }
}

/// A variable that pins a port is found, with its name and the number behind the equals sign.
#[verifier::rlimit(40)]
pub proof fn variables_that_pin_a_port_are_found(
    before: Seq<char>,
    name: Seq<char>,
    port: u16,
    after: Seq<char>,
)
    requires
        word_starts(before),
        name.len() > 0,
        !text::digit(name[0]),
        forall|i: int| 0 <= i < name.len() ==> text::alnum(#[trigger] name[i]) || name[i] == '_',
        text::contains_of(text::upper_of(name), "PORT"@),
        port > 0,
        word_ends(after),
        pinned(before, name, '=', port, after).len() <= usize::MAX,
    ensures
        is_found(
            pinned(before, name, '=', port, after),
            PortKind::Assignment,
            name.push('='),
            port,
            before.len() as int,
            pinned(before, name, '=', port, after).len() - after.len(),
        ),
{
    let t = pinned(before, name, '=', port, after);
    let p = before.len() as int;
    let s = p + name.len();
    let end = t.len() - after.len();
    the_number_is_read(before, name, '=', port, after);
    assert(t[p] == name[0]);
    assert(p > 0 ==> t[p - 1] == before.last());
    assert(t.subrange(p, s) =~= name);
    run_reaches_back(t, Class::Name, s, p);
    assert(text::digit(t[s + 1]));
    assert(ports::quote_at(t, s + 1) is None);
    assert(t.subrange(p, s + 1) =~= name.push('='));
    assert(ports::literal_at(t, s) is Some);
    let (at, m) = scans_cover(t, s);
    variables_stand_alone(before, name, port, after, m);
    assert(is_pin(ports::scan_of(t)[at], PortKind::Assignment, name.push('='), port, p, end));
}

/// Whether a literal is written as its kind is, with its number at `[a, b)`: nothing of it is part of a
/// longer word, a default for a variable or a version.
pub open spec fn is_written_as(t: Seq<char>, x: PortLiteralView, a: int, b: int) -> bool {
    &&& x.from < a < b <= x.to <= b + 1
    &&& x.to <= t.len()
    &&& text::all_digits(t.subrange(a, b))
    &&& text::value_of(t.subrange(a, b)) == x.port
    &&& b < t.len() ==> !text::digit(t[b]) && t[b] != '.' && t[b] != '_'
    &&& match x.kind {
        PortKind::Flag => t[x.from as int] == '-' && (x.from > 0 ==> !text::alnum(
            t[x.from - 1],
        ) && t[x.from - 1] != '-'),
        PortKind::Assignment => x.from > 0 ==> t[x.from - 1] != '$' && t[x.from - 1] != '{' && t[
        x.from - 1] != '.' && t[x.from - 1] != '-',
        PortKind::Url => {
            &&& t[a - 1] == ':'
            &&& t[a - 2] != '-'
            &&& x.from > 0 ==> t[x.from - 1] != '$' && t[x.from - 1] != '{'
        },
    }
}

proof fn numbers_are_numbers(t: Seq<char>, a: int)
    requires
        0 <= a <= t.len(),
        ports::digits_at(t, a) is Some,
    ensures
        ({
            let (port, b) = ports::digits_at(t, a)->Some_0;
            &&& a < b <= t.len()
            &&& text::all_digits(t.subrange(a, b))
            &&& text::value_of(t.subrange(a, b)) == port
            &&& b < t.len() ==> !text::digit(t[b]) && t[b] != '.' && t[b] != '_'
        }),
{
    let b = ports::run_end(t, Class::Digit, a);
    runs_go_on(t, Class::Digit, a);
    runs_end_where_their_class_does(t, Class::Digit, a);
    let d = t.subrange(a, b);
    assert(d[0] == t[a]);
    assert(text::digit(t[a]));
}

proof fn runs_end_where_their_class_does(t: Seq<char>, class: Class, i: int)
    requires
        0 <= i <= t.len(),
    ensures
        ({
            let end = ports::run_end(t, class, i);
            &&& end < t.len() ==> !class.has(t[end])
            &&& forall|j: int| i <= j < end ==> class.has(#[trigger] t[j])
        }),
    decreases t.len() - i,
{
    if i < t.len() && class.has(t[i]) {
        runs_end_where_their_class_does(t, class, i + 1);
    }
}

proof fn literals_stand_as_written(t: Seq<char>, m: int) -> (r: (int, int))
    requires
        0 <= m < t.len() <= usize::MAX,
        ports::literal_at(t, m) is Some,
    ensures
        is_written_as(t, ports::literal_at(t, m)->Some_0, r.0, r.1),
{
    if t[m] == '-' && ports::starts_token(t, m) {
        let name_end = ports::run_end(t, Class::Flag, m);
        runs_go_on(t, Class::Flag, m);
        runs_go_on(t, Class::Space, name_end);
        let a = ports::value_after(t, name_end)->Some_0.0;
        numbers_are_numbers(t, a);
        assert(name_end > m);
        (a, ports::digits_at(t, a)->Some_0.1)
    } else if t[m] == '=' {
        let a = ports::past_quote(m + 1, ports::quote_at(t, m + 1));
        runs_are_of_their_class(t, Class::Name, m);
        numbers_are_numbers(t, a);
        (a, ports::digits_at(t, a)->Some_0.1)
    } else {
        runs_are_of_their_class(t, Class::Host, m);
        numbers_are_numbers(t, m + 1);
        (m + 1, ports::digits_at(t, m + 1)->Some_0.1)
    }
}

/// Every literal that is found is written as its kind is, and holds the number that stands there.
pub proof fn literals_are_what_they_look_like(t: Seq<char>, i: int) -> (r: (int, int))
    requires
        t.len() <= usize::MAX,
        0 <= i < ports::scan_of(t).len(),
    ensures
        is_written_as(t, ports::scan_of(t)[i], r.0, r.1),
{
    let x = ports::scan_of(t)[i];
    let all = ports::found(t, t.len() as int);
    what_is_kept_was_there(ports::in_order(all), i);
    ordering_keeps(all, x);
    let m = what_is_found_stands(t, t.len() as int, x);
    literals_stand_as_written(t, m)
}

proof fn one_pin_is_rewritten(t: Seq<char>, variable: Seq<char>)
    requires
        ports::scan_of(t).len() == 1,
    ensures
        ports::rewrite_of(t, variable) == Some(
            ports::rewritten(t, ports::scan_of(t)[0], variable),
        ),
{
    let all = ports::scan_of(t);
    let one = ports::rewritten(t, all[0], variable);
    assert(ports::rewritten_all(one, all, 0, variable) == one);
    assert(ports::rewritten_all(t, all, 1, variable) == one);
}

/// A command that pins one port by a flag is rewritten to take it from a variable, with the pinned
/// number as what the variable falls back to; the rest of the command stays.
#[verifier::rlimit(40)]
pub proof fn pinned_flags_follow_a_variable(
    before: Seq<char>,
    flag: Seq<char>,
    sep: char,
    port: u16,
    after: Seq<char>,
    variable: Seq<char>,
)
    requires
        word_starts(before),
        says_port(flag),
        forall|i: int| 0 <= i < flag.len() ==> text::alnum(#[trigger] flag[i]) || flag[i] == '-',
        sep == '=' || sep == ' ',
        port > 0,
        word_ends(after),
        pinned(before, flag, sep, port, after).len() <= usize::MAX,
        ports::scan_of(pinned(before, flag, sep, port, after)).len() == 1,
    ensures
        ports::rewrite_of(pinned(before, flag, sep, port, after), variable) == Some(
            before + flag.push(sep) + "${"@ + variable + ":-"@ + text::decimal_of(port as nat) + "}"@
                + after,
        ),
{
    let t = pinned(before, flag, sep, port, after);
    flags_that_pin_a_port_are_found(before, flag, sep, port, after);
    one_pin_is_rewritten(t, variable);
    assert(t.take(before.len() as int) =~= before);
    assert(t.skip(t.len() - after.len()) =~= after);
    assert(ports::rewritten(t, ports::scan_of(t)[0], variable) =~= before + flag.push(sep) + "${"@
        + variable + ":-"@ + text::decimal_of(port as nat) + "}"@ + after);
}

/// A command that pins one port in an address is rewritten to take it from a variable.
#[verifier::rlimit(40)]
pub proof fn pinned_hosts_follow_a_variable(
    before: Seq<char>,
    host: Seq<char>,
    port: u16,
    after: Seq<char>,
    variable: Seq<char>,
)
    requires
        word_starts(before) || before.last() == '/',
        host.len() > 0,
        text::alnum(host[0]),
        forall|i: int|
            0 <= i < host.len() ==> text::alnum(#[trigger] host[i]) || host[i] == '.' || host[i]
                == '-' || host[i] == '_',
        host.last() != '-',
        port >= 1024,
        word_ends(after),
        pinned(before, host, ':', port, after).len() <= usize::MAX,
        ports::scan_of(pinned(before, host, ':', port, after)).len() == 1,
    ensures
        ports::rewrite_of(pinned(before, host, ':', port, after), variable) == Some(
            before + host.push(':') + "${"@ + variable + ":-"@ + text::decimal_of(port as nat) + "}"@
                + after,
        ),
{
    let t = pinned(before, host, ':', port, after);
    hosts_that_pin_a_port_are_found(before, host, port, after);
    one_pin_is_rewritten(t, variable);
    assert(t.take(before.len() as int) =~= before);
    assert(t.skip(t.len() - after.len()) =~= after);
    assert(ports::rewritten(t, ports::scan_of(t)[0], variable) =~= before + host.push(':') + "${"@
        + variable + ":-"@ + text::decimal_of(port as nat) + "}"@ + after);
}

/// A variable that a command pins is left out of the command, with the blanks around it: it would
/// overwrite the value that is handed to the command.
#[verifier::rlimit(40)]
pub proof fn pinned_variables_are_dropped(
    before: Seq<char>,
    name: Seq<char>,
    port: u16,
    after: Seq<char>,
    variable: Seq<char>,
) -> (kept: (int, int))
    requires
        word_starts(before),
        name.len() > 0,
        !text::digit(name[0]),
        forall|i: int| 0 <= i < name.len() ==> text::alnum(#[trigger] name[i]) || name[i] == '_',
        text::contains_of(text::upper_of(name), "PORT"@),
        port > 0,
        word_ends(after),
        pinned(before, name, '=', port, after).len() <= usize::MAX,
        ports::scan_of(pinned(before, name, '=', port, after)).len() == 1,
    ensures
        0 <= kept.0 <= before.len(),
        0 <= kept.1 <= after.len(),
        ports::rewrite_of(pinned(before, name, '=', port, after), variable) == Some(
            before.take(kept.0) + after.skip(kept.1),
        ),
        forall|i: int| kept.0 <= i < before.len() ==> #[trigger] before[i] == ' ',
        forall|i: int| 0 <= i < kept.1 ==> #[trigger] after[i] == ' ',
        kept.0 > 0 ==> before[kept.0 - 1] != ' ',
        kept.1 < after.len() ==> after[kept.1] != ' ',
{
    let t = pinned(before, name, '=', port, after);
    let p = before.len() as int;
    let end = t.len() - after.len();
    variables_that_pin_a_port_are_found(before, name, port, after);
    one_pin_is_rewritten(t, variable);
    let from = ports::run_start(t, Class::Space, p);
    let to = ports::run_end(t, Class::Space, end);
    runs_are_of_their_class(t, Class::Space, p);
    runs_start_where_their_class_does(t, Class::Space, p);
    runs_go_on(t, Class::Space, end);
    runs_end_where_their_class_does(t, Class::Space, end);
    assert(t.take(p) =~= before);
    assert(t.skip(end) =~= after);
    assert forall|i: int| from <= i < before.len() implies #[trigger] before[i] == ' ' by {
        assert(t[i] == before[i]);
        assert(Class::Space.has(t[i]));
    }
    assert forall|i: int| 0 <= i < to - end implies #[trigger] after[i] == ' ' by {
        assert(t[i + end] == after[i]);
        assert(Class::Space.has(t[i + end]));
    }
    assert(t.take(from) =~= before.take(from));
    assert(t.skip(to) =~= after.skip(to - end));
    assert(from > 0 ==> t[from - 1] == before[from - 1]);
    assert(to - end < after.len() ==> t[to] == after[to - end]);
    (from, to - end)
}

proof fn runs_start_where_their_class_does(t: Seq<char>, class: Class, i: int)
    requires
        0 <= i <= t.len(),
    ensures
        ports::run_start(t, class, i) > 0 ==> !class.has(t[ports::run_start(t, class, i) - 1]),
    decreases i,
{
    if 0 < i && class.has(t[i - 1]) {
        runs_start_where_their_class_does(t, class, i - 1);
    }
}

} // verus!
