//! The environment a stack's processes run with.

use crate::dict;
use crate::dict::Dict;
use crate::text;
use vstd::prelude::*;

verus! {

/// Where a variable comes from.
#[derive(Debug, Clone, Copy, PartialEq, Eq, Structural)]
pub enum EnvSource {
    Computed,
    Workspace,
    App,
}

impl View for EnvSource {
    type V = EnvSource;

    open spec fn view(&self) -> EnvSource {
        *self
    }
}

impl EnvSource {
    pub open spec fn label_of(self) -> Seq<char> {
        match self {
            EnvSource::Computed => "computed"@,
            EnvSource::Workspace => "workspace"@,
            EnvSource::App => "app"@,
        }
    }

    pub fn label(&self) -> (r: &'static str)
        ensures
            r@ == self.label_of(),
    {
        match self {
            EnvSource::Computed => "computed",
            EnvSource::Workspace => "workspace",
            EnvSource::App => "app",
        }
    }
}

/// A resolved environment, and where each variable comes from.
#[derive(Debug)]
pub struct EnvPlan {
    pub vars: Dict<String>,
    pub sources: Dict<EnvSource>,
}

// ---------------------------------------------------------------------------
// Rendering
// ---------------------------------------------------------------------------

/// The characters that need no quotes: letters, digits and a few marks.
pub open spec fn plain_char(c: char) -> bool {
    text::alnum(c) || c == '-' || c == '_' || c == '.' || c == '/' || c == ':' || c == '@' || c == ','
        || c == '+' || c == '='
}

pub open spec fn all_plain(s: Seq<char>) -> bool {
    forall|i: int| 0 <= i < s.len() ==> plain_char(#[trigger] s[i])
}

/// A value as a shell takes it: bare where every character is plain, in double quotes otherwise.
pub open spec fn quoted(value: Seq<char>) -> Seq<char> {
    if value.len() == 0 {
        "\"\""@
    } else if all_plain(value) {
        value
    } else {
        "\""@ + text::replace_of(text::replace_of(value, '\\', "\\\\"@), '"', "\\\""@) + "\""@
    }
}

/// Whether every character of `s` is plain.
pub fn is_plain(s: &str) -> (r: bool)
    ensures
        r == all_plain(s@),
{
    let v = text::chars(s);
    let mut i: usize = 0;
    while i < v.len()
        invariant
            v@ == s@,
            i <= v@.len(),
            forall|k: int| 0 <= k < i ==> plain_char(#[trigger] s@[k]),
        decreases v@.len() - i,
    {
        let c = v[i];
        let plain = text::is_alnum(c) || c == '-' || c == '_' || c == '.' || c == '/' || c == ':' || c
            == '@' || c == ',' || c == '+' || c == '=';
        if !plain {
            assert(!plain_char(s@[i as int]));
            return false;
        }
        i += 1;
    }
    true
}

fn quote(value: &str) -> (r: String)
    ensures
        r@ == quoted(value@),
{
    if text::length(value) == 0 {
        return text::own("\"\"");
    }
    if is_plain(value) {
        return text::own(value);
    }
    let escaped = text::replace(value, '\\', "\\\\");
    let escaped = text::replace(&escaped, '"', "\\\"");
    let mut r = text::own("\"");
    r.append(&escaped);
    r.append("\"");
    r
}

/// One line per variable: `prefix`, `key=value` with the value quoted, and a line end.
pub open spec fn lines_with(prefix: Seq<char>, vars: Seq<(Seq<char>, Seq<char>)>) -> Seq<char>
    decreases vars.len(),
{
    if vars.len() == 0 {
        Seq::empty()
    } else {
        lines_with(prefix, vars.drop_last()) + prefix + vars.last().0 + "="@ + quoted(vars.last().1)
            + "\n"@
    }
}

fn write_lines(prefix: &str, vars: &Dict<String>) -> (r: String)
    ensures
        r@ == lines_with(prefix@, vars@),
{
    let mut out = String::new();
    let mut i: usize = 0;
    assert(vars@.take(0) =~= Seq::<(Seq<char>, Seq<char>)>::empty());
    assert(out@ =~= Seq::<char>::empty());
    while i < vars.len()
        invariant
            i <= vars@.len(),
            out@ == lines_with(prefix@, vars@.take(i as int)),
        decreases vars@.len() - i,
    {
        assert(vars@.take(i + 1).drop_last() =~= vars@.take(i as int));
        out.append(prefix);
        out.append(vars.key_at(i));
        out.append("=");
        out.append(&quote(vars.value_at(i)));
        out.append("\n");
        i += 1;
    }
    assert(vars@.take(i as int) =~= vars@);
    out
}

/// `s` followed by spaces up to a width, counted in characters.
pub open spec fn padded(s: Seq<char>, width: nat) -> Seq<char> {
    if s.len() >= width {
        s
    } else {
        s + Seq::new((width - s.len()) as nat, |i: int| ' ')
    }
}

/// `s` followed by spaces up to a width.
pub fn pad(s: &str, width: usize) -> (r: String)
    ensures
        r@ == padded(s@, width as nat),
{
    let n: usize = text::length(s);
    let mut r = text::own(s);
    let mut i: usize = n;
    assert(r@ =~= s@ + Seq::new(0, |i: int| ' '));
    while i < width
        invariant
            n == s@.len(),
            n <= i,
            i <= width || i == n,
            r@ == s@ + Seq::new((i - n) as nat, |i: int| ' '),
        decreases width - i,
    {
        r.push(' ');
        i += 1;
        assert(r@ =~= s@ + Seq::new((i - n) as nat, |i: int| ' '));
    }
    if n >= width {
        assert(r@ =~= s@);
    }
    r
}

/// The number of bytes of a text in UTF-8.
pub open spec fn byte_len(s: Seq<char>) -> nat {
    vstd::utf8::encode_utf8(s).len()
}

/// The bytes of the longest key.
pub open spec fn key_width(vars: Seq<(Seq<char>, Seq<char>)>) -> nat
    decreases vars.len(),
{
    if vars.len() == 0 {
        0
    } else {
        let before = key_width(vars.drop_last());
        let last = byte_len(vars.last().0);
        if last > before {
            last
        } else {
            before
        }
    }
}

pub open spec fn source_label(sources: Seq<(Seq<char>, EnvSource)>, key: Seq<char>) -> Seq<char> {
    match dict::lookup(sources, key) {
        Some(source) => source.label_of(),
        None => "unknown"@,
    }
}

/// One line per variable: its key, padded to `width`, where it comes from, and its value.
pub open spec fn explained(
    vars: Seq<(Seq<char>, Seq<char>)>,
    sources: Seq<(Seq<char>, EnvSource)>,
    width: nat,
) -> Seq<char>
    decreases vars.len(),
{
    if vars.len() == 0 {
        Seq::empty()
    } else {
        explained(vars.drop_last(), sources, width) + padded(vars.last().0, width) + "  "@ + padded(
            source_label(sources, vars.last().0),
            9,
        ) + "  "@ + vars.last().1 + "\n"@
    }
}

impl EnvPlan {
    /// The variables as a `.env` file.
    pub fn dotenv(&self) -> (r: String)
        ensures
            r@ == lines_with(""@, self.vars@),
    {
        write_lines("", &self.vars)
    }

    /// The variables as a shell script that exports them.
    pub fn export(&self) -> (r: String)
        ensures
            r@ == lines_with("export "@, self.vars@),
    {
        write_lines("export ", &self.vars)
    }

    /// The variables with where each comes from.
    pub fn explain(&self) -> (r: String)
        ensures
            r@ == explained(self.vars@, self.sources@, key_width(self.vars@)),
    {
        let ghost all = self.vars@;
        let mut width: usize = 0;
        let mut i: usize = 0;
        assert(all.take(0) =~= Seq::<(Seq<char>, Seq<char>)>::empty());
        while i < self.vars.len()
            invariant
                all == self.vars@,
                i <= all.len(),
                width == key_width(all.take(i as int)),
            decreases all.len() - i,
        {
            assert(all.take(i + 1).drop_last() =~= all.take(i as int));
            let n: usize = self.vars.key_at(i).as_str().as_bytes().len();
            if n > width {
                width = n;
            }
            i += 1;
        }
        assert(all.take(i as int) =~= all);
        let mut out = String::new();
        let mut i: usize = 0;
        assert(out@ =~= Seq::<char>::empty());
        while i < self.vars.len()
            invariant
                all == self.vars@,
                i <= all.len(),
                width == key_width(all),
                out@ == explained(all.take(i as int), self.sources@, width as nat),
            decreases all.len() - i,
        {
            assert(all.take(i + 1).drop_last() =~= all.take(i as int));
            let key = self.vars.key_at(i);
            let source = match self.sources.get(key) {
                Some(source) => source.label(),
                None => "unknown",
            };
            out.append(&pad(key, width));
            out.append("  ");
            out.append(&pad(source, 9));
            out.append("  ");
            out.append(self.vars.value_at(i));
            out.append("\n");
            i += 1;
        }
        assert(all.take(i as int) =~= all);
        out
    }
}

// ---------------------------------------------------------------------------
// Interpolation
// ---------------------------------------------------------------------------

pub open spec fn unknown_variable(name: Seq<char>, value: Seq<char>) -> Seq<char> {
    "unknown variable '${"@ + name + "}' in environment value '"@ + value + "'"@
}

/// `rest`, a part of `value`, with every `${NAME}` replaced by what `vars` holds under `NAME`. An
/// unfinished `${` stands for itself; a name that is not there is an error.
pub open spec fn interpolated(
    value: Seq<char>,
    rest: Seq<char>,
    vars: Seq<(Seq<char>, Seq<char>)>,
) -> Result<Seq<char>, Seq<char>>
    decreases rest.len(),
{
    match text::find_of(rest, "${"@) {
        None => Ok(rest),
        Some(i) => if 0 <= i && i + 2 <= rest.len() {
            let after = rest.skip(i + 2);
            match text::index_of(after, '}') {
                None => Ok(rest),
                Some(e) => if 0 <= e < after.len() {
                    match dict::lookup(vars, after.take(e)) {
                        None => Err(unknown_variable(after.take(e), value)),
                        Some(v) => match interpolated(value, after.skip(e + 1), vars) {
                            Err(m) => Err(m),
                            Ok(t) => Ok(rest.take(i) + v + t),
                        },
                    }
                } else {
                    Ok(rest)
                },
            }
        } else {
            Ok(rest)
        },
    }
}

fn interpolate_rest(value: &str, rest: &str, vars: &Dict<String>) -> (r: Result<String, String>)
    ensures
        match r {
            Ok(t) => interpolated(value@, rest@, vars@) == Ok::<Seq<char>, Seq<char>>(t@),
            Err(e) => interpolated(value@, rest@, vars@) == Err::<Seq<char>, Seq<char>>(e@),
        },
    decreases rest@.len(),
{
    let n: usize = text::length(rest);
    let start = match text::find(rest, "${") {
        None => {
            return Ok(text::own(rest));
        },
        Some(i) => i,
    };
    proof {
        reveal_strlit("${");
    }
    let after = text::substring(rest, start + 2, n);
    assert(after@ =~= rest@.skip(start + 2));
    let m: usize = text::length(&after);
    match text::index(&after, '}') {
        None => Ok(text::own(rest)),
        Some(end) => {
            let name = text::substring(&after, 0, end);
            assert(name@ =~= after@.take(end as int));
            match vars.get(&name) {
                None => {
                    let mut e = text::own("unknown variable '${");
                    e.append(&name);
                    e.append("}' in environment value '");
                    e.append(value);
                    e.append("'");
                    Err(e)
                },
                Some(v) => {
                    let tail = text::substring(&after, end + 1, m);
                    assert(tail@ =~= after@.skip(end + 1));
                    match interpolate_rest(value, &tail, vars) {
                        Err(e) => Err(e),
                        Ok(t) => {
                            let mut out = text::substring(rest, 0, start);
                            assert(out@ =~= rest@.take(start as int));
                            out.append(v);
                            out.append(&t);
                            Ok(out)
                        },
                    }
                },
            }
        },
    }
}

/// `value` with every `${NAME}` replaced by what `resolved` holds under `NAME`.
pub fn interpolate(value: &str, resolved: &Dict<String>) -> (r: Result<String, String>)
    ensures
        match r {
            Ok(t) => interpolated(value@, value@, resolved@) == Ok::<Seq<char>, Seq<char>>(t@),
            Err(e) => interpolated(value@, value@, resolved@) == Err::<Seq<char>, Seq<char>>(e@),
        },
{
    interpolate_rest(value, value, resolved)
}

// ---------------------------------------------------------------------------
// Browser aliases
// ---------------------------------------------------------------------------

/// The host name that stands for `localhost` in URLs that target a port.
#[derive(Debug)]
pub struct Alias {
    pub port: u16,
    pub host: String,
}

/// The ports of a list of aliases, and their hosts.
pub open spec fn alias_views(s: Seq<Alias>) -> Seq<(u16, Seq<char>)> {
    Seq::new(s.len(), |i: int| (s[i].port, s[i].host@))
}

/// The host that stands for `localhost` at a port, from entry `k` on.
pub open spec fn alias_at(aliases: Seq<(u16, Seq<char>)>, port: u16, k: int) -> Option<Seq<char>>
    decreases aliases.len() - k,
{
    if k < 0 || k >= aliases.len() {
        None
    } else if aliases[k].0 == port {
        Some(aliases[k].1)
    } else {
        alias_at(aliases, port, k + 1)
    }
}

/// The URL schemes whose authority is rewritten.
pub open spec fn scheme(n: int) -> Seq<char> {
    if n == 0 {
        "http://"@
    } else if n == 1 {
        "https://"@
    } else if n == 2 {
        "ws://"@
    } else {
        "wss://"@
    }
}

/// What a URL of a scheme on a local port begins with.
pub open spec fn marker(n: int) -> Seq<char> {
    scheme(n) + "localhost:"@
}

/// The earlier of two positions.
pub open spec fn earlier(a: Option<(int, int)>, b: Option<(int, int)>) -> Option<(int, int)> {
    match (a, b) {
        (Some(x), Some(y)) => if y.0 < x.0 {
            Some(y)
        } else {
            Some(x)
        },
        (Some(x), None) => Some(x),
        (None, b) => b,
    }
}

pub open spec fn url_of_scheme(value: Seq<char>, cursor: int, n: int) -> Option<(int, int)> {
    match text::find_from(value, marker(n), cursor) {
        Some(start) => Some((start, n)),
        None => None,
    }
}

/// The first local URL from `cursor` on: where it begins, and its scheme.
pub open spec fn next_url(value: Seq<char>, cursor: int) -> Option<(int, int)> {
    earlier(
        earlier(
            earlier(url_of_scheme(value, cursor, 0), url_of_scheme(value, cursor, 1)),
            url_of_scheme(value, cursor, 2),
        ),
        url_of_scheme(value, cursor, 3),
    )
}

/// The end of the digits that begin at `i`.
pub open spec fn digits_end(value: Seq<char>, i: int) -> int
    decreases value.len() - i,
{
    if 0 <= i < value.len() && text::digit(value[i]) {
        digits_end(value, i + 1)
    } else {
        i
    }
}

/// Whether a port number ends at `i`: nothing follows that could belong to it.
pub open spec fn boundary(value: Seq<char>, i: int) -> bool {
    i >= value.len() || !(text::alnum(value[i]) || value[i] == '-' || value[i] == '.' || value[i] == '_'
        || value[i] == ':')
}

/// The host that replaces `localhost` before the port written from `from` to `to`.
pub open spec fn host_for(
    value: Seq<char>,
    from: int,
    to: int,
    aliases: Seq<(u16, Seq<char>)>,
) -> Option<Seq<char>> {
    if from == to || !boundary(value, to) {
        None
    } else {
        match text::port_of(value.subrange(from, to)) {
            Some(port) => alias_at(aliases, port, 0),
            None => None,
        }
    }
}

/// Whether a URL from `cursor` on targets an aliased port.
pub open spec fn has_alias(value: Seq<char>, cursor: int, aliases: Seq<(u16, Seq<char>)>) -> bool
    decreases value.len() - cursor,
{
    match next_url(value, cursor) {
        None => false,
        Some((start, n)) => {
            let from = start + marker(n).len();
            let to = digits_end(value, from);
            if to <= cursor || to > value.len() {
                false
            } else {
                host_for(value, from, to, aliases) is Some || has_alias(value, to, aliases)
            }
        },
    }
}

/// `value` from `cursor` on, the authority of each URL that targets an aliased port replaced and
/// everything else as it is.
pub open spec fn aliased(value: Seq<char>, cursor: int, aliases: Seq<(u16, Seq<char>)>) -> Seq<char>
    decreases value.len() - cursor,
{
    match next_url(value, cursor) {
        None => value.skip(cursor),
        Some((start, n)) => {
            let from = start + marker(n).len();
            let to = digits_end(value, from);
            if to <= cursor || to > value.len() {
                value.skip(cursor)
            } else {
                (match host_for(value, from, to, aliases) {
                    Some(host) => value.subrange(cursor, start) + scheme(n) + host + ":"@
                        + value.subrange(from, to),
                    None => value.subrange(cursor, to),
                }) + aliased(value, to, aliases)
            }
        },
    }
}

/// `value` with the host of each aliased URL replaced; none where that changes nothing.
pub open spec fn rewrite_of(value: Seq<char>, aliases: Seq<(u16, Seq<char>)>) -> Option<Seq<char>> {
    if aliases.len() > 0 && has_alias(value, 0, aliases) {
        Some(aliased(value, 0, aliases))
    } else {
        None
    }
}

fn find_alias<'a>(aliases: &'a Vec<Alias>, port: u16) -> (r: Option<&'a String>)
    ensures
        match r {
            Some(host) => alias_at(alias_views(aliases@), port, 0) == Some(host@),
            None => alias_at(alias_views(aliases@), port, 0) is None,
        },
{
    let mut k: usize = 0;
    while k < aliases.len()
        invariant
            k <= aliases@.len(),
            alias_at(alias_views(aliases@), port, 0) == alias_at(
                alias_views(aliases@),
                port,
                k as int,
            ),
        decreases aliases@.len() - k,
    {
        if aliases[k].port == port {
            return Some(&aliases[k].host);
        }
        k += 1;
    }
    None
}

fn scheme_text(n: u8) -> (r: &'static str)
    requires
        n < 4,
    ensures
        r@ == scheme(n as int),
{
    if n == 0 {
        "http://"
    } else if n == 1 {
        "https://"
    } else if n == 2 {
        "ws://"
    } else {
        "wss://"
    }
}

fn find_url(v: &Vec<char>, cursor: usize) -> (r: Option<(usize, u8)>)
    requires
        cursor <= v@.len(),
    ensures
        match r {
            Some((start, n)) => next_url(v@, cursor as int) == Some((start as int, n as int)) && n < 4
                && cursor <= start && start + marker(n as int).len() <= v.len(),
            None => next_url(v@, cursor as int) is None,
        },
{
    let mut best: Option<(usize, u8)> = None;
    let mut n: u8 = 0;
    while n < 4
        invariant
            n <= 4,
            cursor <= v@.len(),
            match best {
                Some((start, m)) => m < n && cursor <= start && start + marker(m as int).len()
                    <= v@.len(),
                None => true,
            },
            n > 0 ==> ({
                let u = |k: int| url_of_scheme(v@, cursor as int, k);
                let a = u(0);
                let b = earlier(a, u(1));
                let c = earlier(b, u(2));
                let d = earlier(c, u(3));
                let want = if n == 1 {
                    a
                } else if n == 2 {
                    b
                } else if n == 3 {
                    c
                } else {
                    d
                };
                match best {
                    Some((start, m)) => want == Some((start as int, m as int)),
                    None => want is None,
                }
            }),
            n == 0 ==> best is None,
        decreases 4 - n,
    {
        let m = text::chars(&text::concat(scheme_text(n), "localhost:"));
        assert(m@ == marker(n as int));
        match text::find_chars(v, &m, cursor) {
            Some(start) => {
                best = match best {
                    Some((at, k)) => if start < at {
                        Some((start, n))
                    } else {
                        Some((at, k))
                    },
                    None => Some((start, n)),
                };
            },
            None => {},
        }
        n += 1;
    }
    best
}

fn end_of_digits(v: &Vec<char>, from: usize) -> (r: usize)
    requires
        from <= v@.len(),
    ensures
        r == digits_end(v@, from as int),
        from <= r <= v@.len(),
{
    let mut i: usize = from;
    while i < v.len() && text::is_digit(v[i])
        invariant
            from <= i <= v@.len(),
            digits_end(v@, from as int) == digits_end(v@, i as int),
        decreases v@.len() - i,
    {
        i += 1;
    }
    i
}

fn replacement<'a>(v: &Vec<char>, from: usize, to: usize, aliases: &'a Vec<Alias>) -> (r: Option<
    &'a String,
>)
    requires
        from <= to <= v@.len(),
    ensures
        match r {
            Some(host) => host_for(v@, from as int, to as int, alias_views(aliases@)) == Some(
                host@,
            ),
            None => host_for(v@, from as int, to as int, alias_views(aliases@)) is None,
        },
{
    if from == to {
        return None;
    }
    if to < v.len() {
        let c = v[to];
        if text::is_alnum(c) || c == '-' || c == '.' || c == '_' || c == ':' {
            return None;
        }
    }
    let digits = text::slice(v, from, to);
    match text::parse_port(&digits) {
        Some(port) => find_alias(aliases, port),
        None => None,
    }
}

/// Rewrite HTTP and WebSocket URLs that use an opted-in assigned localhost port.
///
/// Only the URL authority is changed; unrelated localhost URLs and non-HTTP values remain
/// untouched.
pub fn rewrite_localhost_urls(value: &str, aliases: &Vec<Alias>) -> (r: Option<String>)
    ensures
        text::opt_view(r) == rewrite_of(value@, alias_views(aliases@)),
{
    if aliases.len() == 0 {
        return None;
    }
    let ghost list = alias_views(aliases@);
    let v = text::chars(value);
    let mut out = String::new();
    let mut found = false;
    let mut cursor: usize = 0;
    assert(out@ + aliased(value@, 0, list) =~= aliased(value@, 0, list));
    loop
        invariant_except_break
            has_alias(value@, 0, list) == (found || has_alias(value@, cursor as int, list)),
            aliased(value@, 0, list) == out@ + aliased(value@, cursor as int, list),
        invariant
            v@ == value@,
            list == alias_views(aliases@),
            cursor <= v@.len(),
        ensures
            has_alias(value@, 0, list) == found,
            aliased(value@, 0, list) == out@ + value@.skip(cursor as int),
        decreases v@.len() - cursor,
    {
        let (start, n) = match find_url(&v, cursor) {
            None => {
                break;
            },
            Some(u) => u,
        };
        proof {
            reveal_strlit("http://");
            reveal_strlit("https://");
            reveal_strlit("ws://");
            reveal_strlit("wss://");
            reveal_strlit("localhost:");
        }
        let width: usize = text::length(scheme_text(n)) + text::length("localhost:");
        let from: usize = start + width;
        let to: usize = end_of_digits(&v, from);
        let ghost before = out@;
        match replacement(&v, from, to, aliases) {
            Some(host) => {
                found = true;
                let head = text::slice(&v, cursor, start);
                let port = text::slice(&v, from, to);
                let ghost piece = head@ + scheme(n as int) + host@ + ":"@ + port@;
                out.append(&head);
                out.append(scheme_text(n));
                out.append(host);
                out.append(":");
                out.append(&port);
                assert(out@ =~= before + piece);
                assert(before + (piece + aliased(value@, to as int, list)) =~= out@ + aliased(
                    value@,
                    to as int,
                    list,
                ));
            },
            None => {
                let piece = text::slice(&v, cursor, to);
                out.append(&piece);
                assert(before + (piece@ + aliased(value@, to as int, list)) =~= out@ + aliased(
                    value@,
                    to as int,
                    list,
                ));
            },
        }
        cursor = to;
    }
    if !found {
        return None;
    }
    let tail = text::slice(&v, cursor, v.len());
    assert(tail@ =~= value@.skip(cursor as int));
    out.append(&tail);
    Some(out)
}

// ---------------------------------------------------------------------------
// Layers
// ---------------------------------------------------------------------------

/// Variables, and where each comes from.
#[verifier::ext_equal]
pub struct Layers {
    pub vars: Seq<(Seq<char>, Seq<char>)>,
    pub sources: Seq<(Seq<char>, EnvSource)>,
}

impl Layers {
    /// With one variable set.
    pub open spec fn with(self, key: Seq<char>, value: Seq<char>, source: EnvSource) -> Layers {
        Layers {
            vars: dict::put(self.vars, key, value),
            sources: dict::put(self.sources, key, source),
        }
    }
}

/// The first `k` computed variables.
pub open spec fn computed_layer(computed: Seq<(Seq<char>, Seq<char>)>, k: int) -> Layers
    decreases k,
{
    if k <= 0 {
        Layers { vars: Seq::empty(), sources: Seq::empty() }
    } else {
        computed_layer(computed, k - 1).with(
            computed[k - 1].0,
            computed[k - 1].1,
            EnvSource::Computed,
        )
    }
}

pub open spec fn overridden(key: Seq<char>) -> Seq<char> {
    "environment key '"@ + key + "' is set by magictree and cannot be overridden"@
}

/// A manifest's value, with its variables replaced and its aliased URLs rewritten.
pub open spec fn resolved_value(
    raw: Seq<char>,
    vars: Seq<(Seq<char>, Seq<char>)>,
    aliases: Seq<(u16, Seq<char>)>,
) -> Result<Seq<char>, Seq<char>> {
    match interpolated(raw, raw, vars) {
        Err(e) => Err(e),
        Ok(value) => Ok(
            match rewrite_of(value, aliases) {
                Some(value) => value,
                None => value,
            },
        ),
    }
}

/// A manifest's variables, from entry `k` on, set on top of `l`.
pub open spec fn manifest_layer(
    l: Layers,
    layer: Seq<(Seq<char>, Seq<char>)>,
    source: EnvSource,
    aliases: Seq<(u16, Seq<char>)>,
    k: int,
) -> Result<Layers, Seq<char>>
    decreases layer.len() - k,
{
    if k < 0 || k >= layer.len() {
        Ok(l)
    } else {
        let key = layer[k].0;
        if dict::lookup(l.sources, key) == Some(EnvSource::Computed) {
            Err(overridden(key))
        } else {
            match resolved_value(layer[k].1, l.vars, aliases) {
                Err(e) => Err(e),
                Ok(value) => manifest_layer(
                    l.with(key, value, source),
                    layer,
                    source,
                    aliases,
                    k + 1,
                ),
            }
        }
    }
}

/// The merged environment: the computed variables, the workspace's on top of them, and the app's
/// on top of both.
pub open spec fn build_of(
    computed: Seq<(Seq<char>, Seq<char>)>,
    workspace: Seq<(Seq<char>, Seq<char>)>,
    app: Seq<(Seq<char>, Seq<char>)>,
    aliases: Seq<(u16, Seq<char>)>,
) -> Result<Layers, Seq<char>> {
    match manifest_layer(
        computed_layer(computed, computed.len() as int),
        workspace,
        EnvSource::Workspace,
        aliases,
        0,
    ) {
        Err(e) => Err(e),
        Ok(l) => manifest_layer(l, app, EnvSource::App, aliases, 0),
    }
}

fn add_layer(plan: EnvPlan, layer: &Dict<String>, source: EnvSource, aliases: &Vec<Alias>) -> (r:
    Result<EnvPlan, String>)
    ensures
        match r {
            Ok(p) => manifest_layer(
                Layers { vars: plan.vars@, sources: plan.sources@ },
                layer@,
                source,
                alias_views(aliases@),
                0,
            ) == Ok::<Layers, Seq<char>>(Layers { vars: p.vars@, sources: p.sources@ }),
            Err(e) => manifest_layer(
                Layers { vars: plan.vars@, sources: plan.sources@ },
                layer@,
                source,
                alias_views(aliases@),
                0,
            ) == Err::<Layers, Seq<char>>(e@),
        },
{
    let ghost start = Layers { vars: plan.vars@, sources: plan.sources@ };
    let ghost list = alias_views(aliases@);
    let mut vars = plan.vars;
    let mut sources = plan.sources;
    let mut k: usize = 0;
    while k < layer.len()
        invariant
            list == alias_views(aliases@),
            start == (Layers { vars: plan.vars@, sources: plan.sources@ }),
            k <= layer@.len(),
            manifest_layer(start, layer@, source, list, 0) == manifest_layer(
                Layers { vars: vars@, sources: sources@ },
                layer@,
                source,
                list,
                k as int,
            ),
        decreases layer@.len() - k,
    {
        let key = layer.key_at(k);
        let computed = match sources.get(key) {
            Some(found) => *found == EnvSource::Computed,
            None => false,
        };
        if computed {
            let mut e = text::own("environment key '");
            e.append(key);
            e.append("' is set by magictree and cannot be overridden");
            return Err(e);
        }
        let value = match interpolate(layer.value_at(k), &vars) {
            Ok(value) => value,
            Err(e) => {
                return Err(e);
            },
        };
        let value = match rewrite_localhost_urls(&value, aliases) {
            Some(rewritten) => rewritten,
            None => value,
        };
        sources.insert(key.clone(), source);
        vars.insert(key.clone(), value);
        k += 1;
    }
    Ok(EnvPlan { vars, sources })
}

/// Merge the environment layers. Computed values always win; app values override workspace
/// values. Values may reference `${NAME}` from the computed layer or from values resolved earlier
/// in this call.
pub fn build(
    computed: &Dict<String>,
    workspace_env: &Dict<String>,
    app_env: &Dict<String>,
    aliases: &Vec<Alias>,
) -> (r: Result<EnvPlan, String>)
    ensures
        match r {
            Ok(p) => build_of(
                computed@,
                workspace_env@,
                app_env@,
                alias_views(aliases@),
            ) == Ok::<Layers, Seq<char>>(Layers { vars: p.vars@, sources: p.sources@ }),
            Err(e) => build_of(computed@, workspace_env@, app_env@, alias_views(aliases@)) == Err::<
                Layers,
                Seq<char>,
            >(e@),
        },
{
    let mut plan = EnvPlan { vars: Dict::new(), sources: Dict::new() };
    let mut k: usize = 0;
    while k < computed.len()
        invariant
            k <= computed@.len(),
            computed_layer(computed@, k as int) == (Layers {
                vars: plan.vars@,
                sources: plan.sources@,
            }),
        decreases computed@.len() - k,
    {
        plan.sources.insert(computed.key_at(k).clone(), EnvSource::Computed);
        plan.vars.insert(computed.key_at(k).clone(), computed.value_at(k).clone());
        k += 1;
    }
    match add_layer(plan, workspace_env, EnvSource::Workspace, aliases) {
        Err(e) => Err(e),
        Ok(plan) => add_layer(plan, app_env, EnvSource::App, aliases),
    }
}

// ---------------------------------------------------------------------------
// Laws
// ---------------------------------------------------------------------------

proof fn with_lookup(l: Layers, key: Seq<char>, value: Seq<char>, source: EnvSource)
    ensures
        forall|q: Seq<char>| #[trigger]
            dict::lookup(l.with(key, value, source).vars, q) == (if q == key {
                Some(value)
            } else {
                dict::lookup(l.vars, q)
            }),
        forall|q: Seq<char>| #[trigger]
            dict::lookup(l.with(key, value, source).sources, q) == (if q == key {
                Some(source)
            } else {
                dict::lookup(l.sources, q)
            }),
{
    assert forall|q: Seq<char>| #[trigger]
        dict::lookup(l.with(key, value, source).vars, q) == (if q == key {
            Some(value)
        } else {
            dict::lookup(l.vars, q)
        }) by {
        dict::put_then_lookup(l.vars, key, value, q);
    }
    assert forall|q: Seq<char>| #[trigger]
        dict::lookup(l.with(key, value, source).sources, q) == (if q == key {
            Some(source)
        } else {
            dict::lookup(l.sources, q)
        }) by {
        dict::put_then_lookup(l.sources, key, source, q);
    }
}

/// Whether exactly the variables have a source.
pub open spec fn sourced(l: Layers) -> bool {
    forall|q: Seq<char>|
        #[trigger] dict::lookup(l.vars, q) is Some <==> dict::lookup(l.sources, q) is Some
}

proof fn computed_sound(computed: Seq<(Seq<char>, Seq<char>)>, k: int)
    requires
        0 <= k <= computed.len(),
        dict::ascending(computed),
    ensures
        sourced(computed_layer(computed, k)),
        forall|q: Seq<char>|
            #[trigger] dict::lookup(computed_layer(computed, k).sources, q) == (if exists|i: int|
                0 <= i < k && (#[trigger] computed[i]).0 == q {
                Some(EnvSource::Computed)
            } else {
                None
            }),
        forall|i: int|
            0 <= i < k ==> dict::lookup(
                computed_layer(computed, k).vars,
                (#[trigger] computed[i]).0,
            ) == Some(computed[i].1),
    decreases k,
{
    if k > 0 {
        computed_sound(computed, k - 1);
        let l = computed_layer(computed, k - 1);
        with_lookup(l, computed[k - 1].0, computed[k - 1].1, EnvSource::Computed);
        assert forall|i: int| 0 <= i < k implies dict::lookup(
            computed_layer(computed, k).vars,
            (#[trigger] computed[i]).0,
        ) == Some(computed[i].1) by {
            if i < k - 1 {
                assert(text::before(computed[i].0, computed[k - 1].0));
                text::before_irreflexive(computed[i].0);
            }
        }
        assert forall|q: Seq<char>|
            #[trigger] dict::lookup(computed_layer(computed, k).sources, q) == (if exists|i: int|
                0 <= i < k && (#[trigger] computed[i]).0 == q {
                Some(EnvSource::Computed)
            } else {
                None
            }) by {
            if q == computed[k - 1].0 {
                assert(exists|i: int| 0 <= i < k && (#[trigger] computed[i]).0 == q);
            } else {
                if exists|i: int| 0 <= i < k && (#[trigger] computed[i]).0 == q {
                    let i = choose|i: int| 0 <= i < k && (#[trigger] computed[i]).0 == q;
                    assert(0 <= i < k - 1 && computed[i].0 == q);
                }
            }
        }
    }
}

proof fn layer_sound(
    l: Layers,
    layer: Seq<(Seq<char>, Seq<char>)>,
    source: EnvSource,
    aliases: Seq<(u16, Seq<char>)>,
    k: int,
)
    requires
        0 <= k <= layer.len(),
        sourced(l),
        source != EnvSource::Computed,
    ensures
        manifest_layer(l, layer, source, aliases, k) matches Ok(n) ==> {
            &&& sourced(n)
            &&& forall|q: Seq<char>|
                #[trigger] dict::lookup(l.sources, q) == Some(EnvSource::Computed) ==> dict::lookup(
                    n.sources,
                    q,
                ) == Some(EnvSource::Computed) && dict::lookup(n.vars, q) == dict::lookup(l.vars, q)
            &&& forall|i: int|
                k <= i < layer.len() ==> dict::lookup(n.sources, (#[trigger] layer[i]).0) == Some(
                    source,
                )
            &&& forall|q: Seq<char>|
                (forall|i: int| k <= i < layer.len() ==> (#[trigger] layer[i]).0 != q)
                    ==> #[trigger] dict::lookup(n.vars, q) == dict::lookup(l.vars, q)
            &&& forall|q: Seq<char>|
                (forall|i: int| k <= i < layer.len() ==> (#[trigger] layer[i]).0 != q)
                    ==> #[trigger] dict::lookup(n.sources, q) == dict::lookup(l.sources, q)
            &&& forall|q: Seq<char>|
                #[trigger] dict::lookup(n.sources, q) == dict::lookup(l.sources, q) || dict::lookup(
                    n.sources,
                    q,
                ) == Some(source)
        },
    decreases layer.len() - k,
{
    if k < layer.len() {
        let key = layer[k].0;
        if dict::lookup(l.sources, key) != Some(EnvSource::Computed) {
            if let Ok(value) = resolved_value(layer[k].1, l.vars, aliases) {
                let m = l.with(key, value, source);
                with_lookup(l, key, value, source);
                assert(sourced(m));
                layer_sound(m, layer, source, aliases, k + 1);
                if let Ok(n) = manifest_layer(m, layer, source, aliases, k + 1) {
                    assert forall|q: Seq<char>|
                        #[trigger] dict::lookup(l.sources, q) == Some(
                            EnvSource::Computed,
                        ) implies dict::lookup(n.sources, q) == Some(EnvSource::Computed)
                        && dict::lookup(n.vars, q) == dict::lookup(l.vars, q) by {
                        assert(dict::lookup(m.sources, q) == Some(EnvSource::Computed));
                    }
                    assert forall|i: int| k <= i < layer.len() implies dict::lookup(
                        n.sources,
                        (#[trigger] layer[i]).0,
                    ) == Some(source) by {
                        if i == k {
                            assert(dict::lookup(m.sources, key) == Some(source));
                        }
                    }
                    assert forall|q: Seq<char>|
                        (forall|i: int|
                            k <= i < layer.len() ==> (#[trigger] layer[i]).0
                                != q) implies #[trigger] dict::lookup(n.vars, q) == dict::lookup(
                        l.vars,
                        q,
                    ) by {
                        assert(layer[k].0 != q);
                        assert(dict::lookup(m.vars, q) == dict::lookup(l.vars, q));
                    }
                    assert forall|q: Seq<char>|
                        (forall|i: int|
                            k <= i < layer.len() ==> (#[trigger] layer[i]).0
                                != q) implies #[trigger] dict::lookup(n.sources, q)
                        == dict::lookup(l.sources, q) by {
                        assert(layer[k].0 != q);
                        assert(dict::lookup(m.sources, q) == dict::lookup(l.sources, q));
                    }
                    assert forall|q: Seq<char>|
                        #[trigger] dict::lookup(n.sources, q) == dict::lookup(l.sources, q)
                            || dict::lookup(n.sources, q) == Some(source) by {
                        assert(dict::lookup(m.sources, q) == dict::lookup(l.sources, q)
                            || dict::lookup(m.sources, q) == Some(source));
                    }
                }
            }
        }
    }
}

/// In a merged environment every variable has a source; a computed variable has its computed
/// value, which no manifest overrides; a variable of the app comes from the app; and one of the
/// workspace that the app does not set comes from the workspace.
pub proof fn layers_override_in_order(
    computed: Seq<(Seq<char>, Seq<char>)>,
    workspace: Seq<(Seq<char>, Seq<char>)>,
    app: Seq<(Seq<char>, Seq<char>)>,
    aliases: Seq<(u16, Seq<char>)>,
)
    requires
        dict::ascending(computed),
    ensures
        build_of(computed, workspace, app, aliases) matches Ok(n) ==> {
            &&& sourced(n)
            &&& forall|i: int|
                0 <= i < computed.len() ==> dict::lookup(n.vars, (#[trigger] computed[i]).0) == Some(
                    computed[i].1,
                ) && dict::lookup(n.sources, computed[i].0) == Some(EnvSource::Computed)
            &&& forall|i: int|
                0 <= i < app.len() ==> dict::lookup(n.sources, (#[trigger] app[i]).0) == Some(
                    EnvSource::App,
                )
            &&& forall|i: int|
                0 <= i < workspace.len() && (forall|j: int|
                    0 <= j < app.len() ==> (#[trigger] app[j]).0 != workspace[i].0) ==> dict::lookup(
                    n.sources,
                    (#[trigger] workspace[i]).0,
                ) == Some(EnvSource::Workspace)
        },
{
    let c = computed_layer(computed, computed.len() as int);
    computed_sound(computed, computed.len() as int);
    layer_sound(c, workspace, EnvSource::Workspace, aliases, 0);
    if let Ok(w) = manifest_layer(c, workspace, EnvSource::Workspace, aliases, 0) {
        layer_sound(w, app, EnvSource::App, aliases, 0);
        if let Ok(n) = manifest_layer(w, app, EnvSource::App, aliases, 0) {
            assert forall|i: int| 0 <= i < computed.len() implies dict::lookup(
                n.vars,
                (#[trigger] computed[i]).0,
            ) == Some(computed[i].1) && dict::lookup(n.sources, computed[i].0) == Some(
                EnvSource::Computed,
            ) by {
                assert(dict::lookup(c.sources, computed[i].0) == Some(EnvSource::Computed));
                assert(dict::lookup(w.sources, computed[i].0) == Some(EnvSource::Computed));
            }
        }
    }
}

/// A value without `${` is taken as it is.
pub proof fn plain_values_are_unchanged(value: Seq<char>, vars: Seq<(Seq<char>, Seq<char>)>)
    requires
        !text::contains_of(value, "${"@),
    ensures
        interpolated(value, value, vars) == Ok::<Seq<char>, Seq<char>>(value),
{
}

/// Where no URL targets an aliased port, rewriting leaves every character as it is.
pub proof fn other_urls_are_untouched(
    value: Seq<char>,
    cursor: int,
    aliases: Seq<(u16, Seq<char>)>,
)
    requires
        0 <= cursor <= value.len(),
        !has_alias(value, cursor, aliases),
    ensures
        aliased(value, cursor, aliases) == value.skip(cursor),
    decreases value.len() - cursor,
{
    if let Some((start, n)) = next_url(value, cursor) {
        let from = start + marker(n).len();
        let to = digits_end(value, from);
        if cursor < to <= value.len() {
            other_urls_are_untouched(value, to, aliases);
            assert(value.subrange(cursor, to) + value.skip(to) =~= value.skip(cursor));
        }
    }
}

/// `${NAME}` stands for the value of `NAME`: what is before it stays, its value takes its place, and
/// what follows is read on in the same way. A name that no variable has is refused.
pub proof fn variables_are_replaced_by_their_values(
    value: Seq<char>,
    before: Seq<char>,
    name: Seq<char>,
    after: Seq<char>,
    vars: Seq<(Seq<char>, Seq<char>)>,
)
    requires
        !text::contains_of(before, "${"@),
        !name.contains('}'),
    ensures
        ({
            let r = interpolated(value, before + "${"@ + name + "}"@ + after, vars);
            &&& dict::lookup(vars, name) is None ==> r is Err
            &&& dict::lookup(vars, name) matches Some(v) ==> match interpolated(value, after, vars) {
                Ok(t) => r == Ok::<Seq<char>, Seq<char>>(before + v + t),
                Err(_) => r is Err,
            }
        }),
{
    let open = "${"@;
    let rest = before + open + name + "}"@ + after;
    reveal_strlit("${");
    reveal_strlit("}");
    let i = before.len() as int;
    text::find_from_is_least(before, open, 0);
    text::find_from_is_least(rest, open, 0);
    assert(text::stands_at(rest, open, i)) by {
        assert(rest.subrange(i, i + 2) =~= open);
    }
    assert forall|j: int| 0 <= j < i implies !#[trigger] text::stands_at(rest, open, j) by {
        if text::stands_at(rest, open, j) {
            assert(rest.subrange(j, j + 2)[0] == '$');
            assert(rest.subrange(j, j + 2)[1] == '{');
            assert(rest[j + 1] == '{');
            if j + 1 < i {
                assert(before.subrange(j, j + 2) =~= rest.subrange(j, j + 2));
                assert(text::stands_at(before, open, j));
            } else {
                assert(rest[i] == open[0]);
            }
        }
    }
    assert(text::find_of(rest, open) == Some(i));
    let tail = rest.skip(i + 2);
    assert(tail =~= name + "}"@ + after);
    let e = name.len() as int;
    text::index_from_is_least(tail, '}', 0);
    assert(tail[e] == '}');
    assert forall|j: int| 0 <= j < e implies tail[j] != '}' by {
        assert(tail[j] == name[j]);
        assert(name.contains(name[j]));
    }
    assert(text::index_of(tail, '}') == Some(e));
    assert(tail.take(e) =~= name);
    assert(tail.skip(e + 1) =~= after);
    assert(rest.take(i) =~= before);
}

proof fn layer_values(
    l: Layers,
    layer: Seq<(Seq<char>, Seq<char>)>,
    source: EnvSource,
    k: int,
    i: int,
)
    requires
        0 <= k <= i < layer.len(),
        dict::ascending(layer),
        !text::contains_of(layer[i].1, "${"@),
    ensures
        manifest_layer(l, layer, source, Seq::empty(), k) matches Ok(n) ==> dict::lookup(
            n.vars,
            layer[i].0,
        ) == Some(layer[i].1),
    decreases layer.len() - k,
{
    let none = Seq::<(u16, Seq<char>)>::empty();
    let key = layer[k].0;
    if dict::lookup(l.sources, key) != Some(EnvSource::Computed) {
        if let Ok(value) = resolved_value(layer[k].1, l.vars, none) {
            let m = l.with(key, value, source);
            if k == i {
                dict::put_then_lookup(l.vars, key, value, key);
                layer_keeps(m, layer, source, none, k + 1, key);
            } else {
                layer_values(m, layer, source, k + 1, i);
            }
        }
    }
}

proof fn layer_keeps(
    l: Layers,
    layer: Seq<(Seq<char>, Seq<char>)>,
    source: EnvSource,
    aliases: Seq<(u16, Seq<char>)>,
    k: int,
    q: Seq<char>,
)
    requires
        0 <= k <= layer.len(),
        (forall|j: int| k <= j < layer.len() ==> (#[trigger] layer[j]).0 != q) || (dict::ascending(
            layer,
        ) && 0 < k && layer[k - 1].0 == q),
    ensures
        manifest_layer(l, layer, source, aliases, k) matches Ok(n) ==> dict::lookup(n.vars, q)
            == dict::lookup(l.vars, q),
    decreases layer.len() - k,
{
    assert forall|j: int| k <= j < layer.len() implies (#[trigger] layer[j]).0 != q by {
        if 0 < k && layer[k - 1].0 == q && dict::ascending(layer) {
            assert(text::before(layer[k - 1].0, layer[j].0));
            text::before_irreflexive(q);
        }
    }
    if k < layer.len() {
        let key = layer[k].0;
        if let Ok(value) = resolved_value(layer[k].1, l.vars, aliases) {
            dict::put_then_lookup(l.vars, key, value, q);
            layer_keeps(l.with(key, value, source), layer, source, aliases, k + 1, q);
        }
    }
}

proof fn layer_succeeds(
    l: Layers,
    layer: Seq<(Seq<char>, Seq<char>)>,
    source: EnvSource,
    k: int,
)
    requires
        0 <= k <= layer.len(),
        source != EnvSource::Computed,
        forall|j: int|
            k <= j < layer.len() ==> !text::contains_of((#[trigger] layer[j]).1, "${"@)
                && dict::lookup(l.sources, layer[j].0) != Some(EnvSource::Computed),
    ensures
        manifest_layer(l, layer, source, Seq::empty(), k) is Ok,
    decreases layer.len() - k,
{
    if k < layer.len() {
        let none = Seq::<(u16, Seq<char>)>::empty();
        assert(!text::contains_of(layer[k].1, "${"@));
        let value = layer[k].1;
        assert(resolved_value(value, l.vars, none) == Ok::<Seq<char>, Seq<char>>(value));
        let m = l.with(layer[k].0, value, source);
        assert forall|j: int| k + 1 <= j < layer.len() implies !text::contains_of(
            (#[trigger] layer[j]).1,
            "${"@,
        ) && dict::lookup(m.sources, layer[j].0) != Some(EnvSource::Computed) by {
            dict::put_then_lookup(l.sources, layer[k].0, source, layer[j].0);
        }
        layer_succeeds(m, layer, source, k + 1);
    }
}

proof fn computed_keys_are_refused(
    l: Layers,
    layer: Seq<(Seq<char>, Seq<char>)>,
    source: EnvSource,
    aliases: Seq<(u16, Seq<char>)>,
    k: int,
    i: int,
)
    requires
        0 <= k <= i < layer.len(),
        source != EnvSource::Computed,
        dict::ascending(layer),
        dict::lookup(l.sources, layer[i].0) == Some(EnvSource::Computed),
    ensures
        manifest_layer(l, layer, source, aliases, k) is Err,
    decreases layer.len() - k,
{
    if k < i {
        if let Ok(value) = resolved_value(layer[k].1, l.vars, aliases) {
            assert(text::before(layer[k].0, layer[i].0));
            if layer[k].0 == layer[i].0 {
                text::before_irreflexive(layer[i].0);
            }
            dict::put_then_lookup(l.sources, layer[k].0, source, layer[i].0);
            computed_keys_are_refused(
                l.with(layer[k].0, value, source),
                layer,
                source,
                aliases,
                k + 1,
                i,
            );
        }
    }
}

/// Whether a layer sets a variable.
pub open spec fn has_key(layer: Seq<(Seq<char>, Seq<char>)>, key: Seq<char>) -> bool {
    exists|i: int| 0 <= i < layer.len() && (#[trigger] layer[i]).0 == key
}

/// Whether the values of a layer name no variables.
pub open spec fn names_no_variables(layer: Seq<(Seq<char>, Seq<char>)>) -> bool {
    forall|i: int| 0 <= i < layer.len() ==> !text::contains_of((#[trigger] layer[i]).1, "${"@)
}

/// A manifest may not set what magictree computes, and is refused for nothing else where its values
/// name no variables. Where no address is rewritten, a value that names no variables arrives as it is
/// written: that of the app, else that of the workspace, else the computed one; and a key that
/// nothing sets is not there.
pub proof fn written_values_arrive(
    computed: Seq<(Seq<char>, Seq<char>)>,
    workspace: Seq<(Seq<char>, Seq<char>)>,
    app: Seq<(Seq<char>, Seq<char>)>,
)
    requires
        dict::ascending(computed),
        dict::ascending(workspace),
        dict::ascending(app),
    ensures
        ({
            let r = build_of(computed, workspace, app, Seq::empty());
            let clash = (exists|i: int|
                0 <= i < workspace.len() && has_key(computed, (#[trigger] workspace[i]).0))
                || exists|i: int| 0 <= i < app.len() && has_key(computed, (#[trigger] app[i]).0);
            &&& clash ==> r is Err
            &&& !clash && names_no_variables(workspace) && names_no_variables(app) ==> r is Ok
            &&& r matches Ok(n) ==> {
                &&& forall|i: int|
                    0 <= i < app.len() && !text::contains_of((#[trigger] app[i]).1, "${"@)
                        ==> dict::lookup(n.vars, app[i].0) == Some(app[i].1)
                &&& forall|i: int|
                    0 <= i < workspace.len() && !text::contains_of(
                        (#[trigger] workspace[i]).1,
                        "${"@,
                    ) && !has_key(app, workspace[i].0) ==> dict::lookup(n.vars, workspace[i].0)
                        == Some(workspace[i].1)
                &&& forall|i: int|
                    0 <= i < computed.len() ==> dict::lookup(n.vars, (#[trigger] computed[i]).0)
                        == Some(computed[i].1)
                &&& forall|key: Seq<char>|
                    !has_key(app, key) && !has_key(workspace, key) && !has_key(computed, key)
                        ==> #[trigger] dict::lookup(n.vars, key) is None
            }
        }),
{
    let none = Seq::<(u16, Seq<char>)>::empty();
    let c = computed_layer(computed, computed.len() as int);
    computed_sound(computed, computed.len() as int);
    layers_override_in_order(computed, workspace, app, none);
    layer_sound(c, workspace, EnvSource::Workspace, none, 0);
    assert forall|q: Seq<char>| #[trigger] dict::lookup(c.sources, q) == Some(EnvSource::Computed)
        <==> has_key(computed, q) by {}
    if exists|i: int| 0 <= i < workspace.len() && has_key(computed, (#[trigger] workspace[i]).0) {
        let i = choose|i: int|
            0 <= i < workspace.len() && has_key(computed, (#[trigger] workspace[i]).0);
        assert(dict::lookup(c.sources, workspace[i].0) == Some(EnvSource::Computed));
        computed_keys_are_refused(c, workspace, EnvSource::Workspace, none, 0, i);
    } else if names_no_variables(workspace) {
        assert forall|j: int| 0 <= j < workspace.len() implies !text::contains_of(
            (#[trigger] workspace[j]).1,
            "${"@,
        ) && dict::lookup(c.sources, workspace[j].0) != Some(EnvSource::Computed) by {
            assert(!has_key(computed, workspace[j].0));
        }
        layer_succeeds(c, workspace, EnvSource::Workspace, 0);
    }
    if let Ok(w) = manifest_layer(c, workspace, EnvSource::Workspace, none, 0) {
        layer_sound(w, app, EnvSource::App, none, 0);
        assert forall|q: Seq<char>| #[trigger] dict::lookup(w.sources, q) == Some(
            EnvSource::Computed,
        ) <==> has_key(computed, q) by {
            assert(dict::lookup(c.sources, q) == Some(EnvSource::Computed) <==> has_key(
                computed,
                q,
            ));
        }
        if exists|i: int| 0 <= i < app.len() && has_key(computed, (#[trigger] app[i]).0) {
            let i = choose|i: int| 0 <= i < app.len() && has_key(computed, (#[trigger] app[i]).0);
            assert(dict::lookup(w.sources, app[i].0) == Some(EnvSource::Computed));
            computed_keys_are_refused(w, app, EnvSource::App, none, 0, i);
        } else if names_no_variables(app) {
            assert forall|j: int| 0 <= j < app.len() implies !text::contains_of(
                (#[trigger] app[j]).1,
                "${"@,
            ) && dict::lookup(w.sources, app[j].0) != Some(EnvSource::Computed) by {
                assert(!has_key(computed, app[j].0));
            }
            layer_succeeds(w, app, EnvSource::App, 0);
        }
        if let Ok(n) = manifest_layer(w, app, EnvSource::App, none, 0) {
            assert forall|i: int|
                0 <= i < app.len() && !text::contains_of(
                    (#[trigger] app[i]).1,
                    "${"@,
                ) implies dict::lookup(n.vars, app[i].0) == Some(app[i].1) by {
                layer_values(w, app, EnvSource::App, 0, i);
            }
            assert forall|i: int|
                0 <= i < workspace.len() && !text::contains_of(
                    (#[trigger] workspace[i]).1,
                    "${"@,
                ) && !has_key(app, workspace[i].0) implies dict::lookup(n.vars, workspace[i].0)
                == Some(workspace[i].1) by {
                layer_values(c, workspace, EnvSource::Workspace, 0, i);
                assert forall|j: int| 0 <= j < app.len() implies (#[trigger] app[j]).0
                    != workspace[i].0 by {}
            }
            assert forall|key: Seq<char>|
                !has_key(app, key) && !has_key(workspace, key) && !has_key(
                    computed,
                    key,
                ) implies #[trigger] dict::lookup(n.vars, key) is None by {
                assert(forall|j: int| 0 <= j < app.len() ==> (#[trigger] app[j]).0 != key);
                assert(forall|j: int|
                    0 <= j < workspace.len() ==> (#[trigger] workspace[j]).0 != key);
                assert(dict::lookup(n.vars, key) == dict::lookup(w.vars, key));
                assert(dict::lookup(w.vars, key) == dict::lookup(c.vars, key));
                assert(dict::lookup(c.sources, key) is None);
            }
        }
    }
}

proof fn digits_end_there(value: Seq<char>, from: int, to: int)
    requires
        0 <= from <= to <= value.len(),
        forall|i: int| from <= i < to ==> text::digit(#[trigger] value[i]),
        to == value.len() || !text::digit(value[to]),
    ensures
        digits_end(value, from) == to,
    decreases to - from,
{
    if from < to {
        digits_end_there(value, from + 1, to);
    }
}

proof fn first_alias(aliases: Seq<(u16, Seq<char>)>, port: u16, k: int, i: int)
    requires
        0 <= k <= i < aliases.len(),
        aliases[i].0 == port,
        forall|j: int| k <= j < i ==> (#[trigger] aliases[j]).0 != port,
    ensures
        alias_at(aliases, port, k) == Some(aliases[i].1),
    decreases i - k,
{
    if k < i {
        first_alias(aliases, port, k + 1, i);
    }
}

proof fn schemes_begin_apart(value: Seq<char>, n: int)
    requires
        0 <= n <= 3,
        text::starts_with_of(value, marker(n)),
    ensures
        next_url(value, 0) == Some((0int, n)),
{
    reveal_strlit("http://");
    reveal_strlit("https://");
    reveal_strlit("ws://");
    reveal_strlit("wss://");
    reveal_strlit("localhost:");
    let own = marker(n);
    assert(value.subrange(0, own.len() as int) =~= own);
    assert(text::stands_at(value, own, 0));
    assert(url_of_scheme(value, 0, n) == Some((0int, n)));
    assert forall|i: int| 0 <= i < own.len() implies value[i] == own[i] by {
        assert(value.take(own.len() as int)[i] == own[i]);
    }
    assert forall|m: int| 0 <= m <= 3 && m != n implies (#[trigger] url_of_scheme(value, 0, m)
        matches Some((start, k)) ==> start > 0) by {
        let other = marker(m);
        text::find_from_is_least(value, other, 0);
        if text::stands_at(value, other, 0) {
            let part = value.subrange(0, other.len() as int);
            assert(part == other);
            assert(part[0] == value[0] && part[1] == value[1] && part[2] == value[2] && part[4]
                == value[4]);
            assert(own[0] == value[0] && own[2] == value[2] && own[4] == value[4]);
            assert(false);
        }
    }
    assert(url_of_scheme(value, 0, 0) matches Some(x) ==> x.0 > 0 || n == 0);
    assert(url_of_scheme(value, 0, 1) matches Some(x) ==> x.0 > 0 || n == 1);
    assert(url_of_scheme(value, 0, 2) matches Some(x) ==> x.0 > 0 || n == 2);
    assert(url_of_scheme(value, 0, 3) matches Some(x) ==> x.0 > 0 || n == 3);
}

/// An HTTP or WebSocket URL of `localhost` at a port that goes by another host is rewritten to that
/// host, with its scheme and its port kept; what follows is rewritten in turn.
pub proof fn aliased_urls_go_to_their_host(
    n: int,
    port: u16,
    tail: Seq<char>,
    aliases: Seq<(u16, Seq<char>)>,
    i: int,
)
    requires
        0 <= n <= 3,
        0 <= i < aliases.len(),
        aliases[i].0 == port,
        forall|j: int| 0 <= j < i ==> (#[trigger] aliases[j]).0 != port,
        tail.len() == 0 || tail[0] == '/' || tail[0] == '?' || tail[0] == '#' || tail[0] == '"'
            || tail[0] == ' ' || tail[0] == ',',
    ensures
        ({
            let s = if n == 0 {
                "http://"@
            } else if n == 1 {
                "https://"@
            } else if n == 2 {
                "ws://"@
            } else {
                "wss://"@
            };
            let digits = text::decimal_of(port as nat);
            rewrite_of(s + "localhost:"@ + digits + tail, aliases) matches Some(r)
                && text::starts_with_of(r, s + aliases[i].1 + ":"@ + digits)
        }),
{
    let s = scheme(n);
    let digits = text::decimal_of(port as nat);
    let value = s + "localhost:"@ + digits + tail;
    let own = marker(n);
    text::decimals_are_read_back(port as nat);
    assert(value.take(own.len() as int) =~= own);
    schemes_begin_apart(value, n);
    let from = own.len() as int;
    let to = from + digits.len();
    assert forall|k: int| from <= k < to implies text::digit(#[trigger] value[k]) by {
        assert(value[k] == digits[k - from]);
    }
    if tail.len() > 0 {
        assert(value[to] == tail[0]);
    }
    digits_end_there(value, from, to);
    assert(value.subrange(from, to) =~= digits);
    assert(boundary(value, to));
    assert(digits[0] != '+') by {
        assert(text::digit(digits[0]));
    }
    assert(text::port_of(digits) == Some(port));
    first_alias(aliases, port, 0, i);
    assert(host_for(value, from, to, aliases) == Some(aliases[i].1));
    let head = s + aliases[i].1 + ":"@ + digits;
    let r = aliased(value, 0, aliases);
    assert(value.subrange(0, 0) =~= Seq::<char>::empty());
    assert(r =~= head + aliased(value, to, aliases));
    assert(r.take(head.len() as int) =~= head);
}

/// A value that names no port of `localhost` is never rewritten, and nothing is where no port goes by
/// another host.
pub proof fn other_values_are_kept(value: Seq<char>, aliases: Seq<(u16, Seq<char>)>)
    requires
        !text::contains_of(value, "localhost:"@) || aliases.len() == 0,
    ensures
        rewrite_of(value, aliases) is None,
{
    if aliases.len() > 0 {
        assert forall|n: int| 0 <= n <= 3 implies (#[trigger] url_of_scheme(value, 0, n)) is None by {
            text::find_from_is_least(value, marker(n), 0);
            text::find_from_is_least(value, "localhost:"@, 0);
            if let Some(p) = text::find_from(value, marker(n), 0) {
                let at = p + scheme(n).len();
                let own = marker(n);
                assert(value.subrange(at, at + "localhost:"@.len()) =~= "localhost:"@) by {
                    assert forall|j: int| 0 <= j < "localhost:"@.len() implies value[at + j]
                        == "localhost:"@[j] by {
                        assert(value.subrange(p, p + own.len())[scheme(n).len() + j] == own[
                        scheme(n).len() + j]);
                    }
                }
                assert(text::stands_at(value, "localhost:"@, at));
            }
        }
        assert(url_of_scheme(value, 0, 0) is None);
        assert(url_of_scheme(value, 0, 1) is None);
        assert(url_of_scheme(value, 0, 2) is None);
        assert(url_of_scheme(value, 0, 3) is None);
    }
}

/// What a quoted text says: a backslash stands for the character behind it.
pub open spec fn unescaped(s: Seq<char>) -> Seq<char>
    decreases s.len(),
{
    if s.len() == 0 {
        Seq::empty()
    } else if s[0] == '\\' && s.len() > 1 {
        seq![s[1]] + unescaped(s.skip(2))
    } else {
        seq![s[0]] + unescaped(s.skip(1))
    }
}

proof fn escaping_is_undone(value: Seq<char>)
    ensures
        unescaped(
            text::replace_of(text::replace_of(value, '\\', "\\\\"@), '"', "\\\""@),
        ) == value,
    decreases value.len(),
{
    reveal_strlit("\\\\");
    reveal_strlit("\\\"");
    let slashes = "\\\\"@;
    let quotes = "\\\""@;
    let once = text::replace_of(value, '\\', slashes);
    if value.len() > 0 {
        let x = value[0];
        let rest = value.skip(1);
        assert(value =~= seq![x] + rest);
        text::replaced_in_parts(seq![x], rest, '\\', slashes);
        text::one_replaced(x, '\\', slashes);
        escaping_is_undone(rest);
        let after = text::replace_of(rest, '\\', slashes);
        let done = text::replace_of(after, '"', quotes);
        if x == '\\' {
            text::replaced_in_parts(slashes, after, '"', quotes);
            assert(slashes =~= seq!['\\'] + seq!['\\']);
            text::replaced_in_parts(seq!['\\'], seq!['\\'], '"', quotes);
            text::one_replaced('\\', '"', quotes);
            let all = slashes + done;
            assert(text::replace_of(once, '"', quotes) == all);
            assert(all[0] == '\\' && all[1] == '\\');
            assert(all.skip(2) =~= done);
        } else {
            text::replaced_in_parts(seq![x], after, '"', quotes);
            text::one_replaced(x, '"', quotes);
            if x == '"' {
                let all = quotes + done;
                assert(text::replace_of(once, '"', quotes) == all);
                assert(all[0] == '\\' && all[1] == '"');
                assert(all.skip(2) =~= done);
            } else {
                let all = seq![x] + done;
                assert(text::replace_of(once, '"', quotes) == all);
                assert(all[0] == x);
                assert(all.skip(1) =~= done);
            }
        }
        assert(seq![x] + rest =~= value);
    }
}

/// A value that is written can be read back: it stands as it is where it is plain, and otherwise
/// between quotes, from which escaping gives it back. Nothing but a plain value stands unquoted.
pub proof fn quoted_values_are_read_back(value: Seq<char>)
    ensures
        quoted(value) == value && value.len() > 0 && all_plain(value) || {
            &&& quoted(value).len() >= 2
            &&& quoted(value)[0] == '"'
            &&& quoted(value).last() == '"'
            &&& unescaped(quoted(value).subrange(1, quoted(value).len() - 1)) == value
        },
{
    reveal_strlit("\"");
    reveal_strlit("\"\"");
    let q = quoted(value);
    if value.len() == 0 {
        assert(q.subrange(1, q.len() - 1) =~= Seq::<char>::empty());
        assert(unescaped(Seq::<char>::empty()) =~= value);
    } else if !all_plain(value) {
        let inner = text::replace_of(text::replace_of(value, '\\', "\\\\"@), '"', "\\\""@);
        assert(q.subrange(1, q.len() - 1) =~= inner);
        escaping_is_undone(value);
    }
}

} // verus!
