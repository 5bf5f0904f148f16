//! Hardcoded ports: a file that pins a port magictree cannot vary.
//!
//! Every worktree gets its own ports, handed to the process as environment variables. A command
//! that pins a number (`next dev -p 3005`, `uvicorn --port=8000`, `DATABASE_PORT=5433`) ignores
//! that: two worktrees fight over the same number, and the health probe watches a port nothing
//! listens on. This module only finds the literals and renders the rewrite. Whether a literal is a
//! problem is the caller's call.
//!
//! Only files whose step bodies discovery already reads are scanned, which is why a mise task or a
//! uv script is not covered here: the extractors keep their names, not their commands.

use crate::discover::report::{
    Fact, FactData, FactDataView, FactKind, FactView, PortKind, PortLiteralFact,
    PortLiteralFactView,
};
use crate::text;
use vstd::prelude::*;

verus! {

/// A port literal found in a command line or an env file line.
#[derive(Debug)]
pub struct PortLiteral {
    pub port: u16,
    pub kind: PortKind,
    /// The literal as written, including the flag or variable that carries it.
    pub literal: String,
    /// Byte range of `literal` within the scanned text.
    pub start: usize,
    pub end: usize,
    /// Character range of `literal` within the scanned text.
    pub from: usize,
    pub to: usize,
    /// Everything before the number that a fix has to keep: `-p `, `--port=`, `localhost:`, and an
    /// opening quote when the value was quoted.
    pub prefix: String,
    /// A closing quote, kept so the rewrite stays valid shell.
    pub suffix: String,
}

/// The contents of a [`PortLiteral`].
#[verifier::ext_equal]
pub struct PortLiteralView {
    pub port: u16,
    pub kind: PortKind,
    pub literal: Seq<char>,
    pub start: usize,
    pub end: usize,
    pub from: usize,
    pub to: usize,
    pub prefix: Seq<char>,
    pub suffix: Seq<char>,
}

impl View for PortLiteral {
    type V = PortLiteralView;

    open spec fn view(&self) -> PortLiteralView {
        PortLiteralView {
            port: self.port,
            kind: self.kind,
            literal: self.literal@,
            start: self.start,
            end: self.end,
            from: self.from,
            to: self.to,
            prefix: self.prefix@,
            suffix: self.suffix@,
        }
    }
}

impl Clone for PortLiteral {
    fn clone(&self) -> (r: Self)
        ensures
            r@ == self@,
    {
        PortLiteral {
            port: self.port,
            kind: self.kind,
            literal: self.literal.clone(),
            start: self.start,
            end: self.end,
            from: self.from,
            to: self.to,
            prefix: self.prefix.clone(),
            suffix: self.suffix.clone(),
        }
    }
}

impl PortLiteralView {
    /// What replaces the literal when the port comes from `variable`.
    pub open spec fn fixed(self, variable: Seq<char>) -> Option<Seq<char>> {
        match self.kind {
            PortKind::Assignment => None,
            _ => Some(
                self.prefix + "${"@ + variable + ":-"@ + text::decimal_of(self.port as nat) + "}"@
                    + self.suffix,
            ),
        }
    }
}

impl PortLiteral {
    /// What replaces this literal when the port comes from `variable`, or `None` when the fix is to
    /// drop it: an assignment of a number cannot defer to the variable it assigns.
    pub fn fix(&self, variable: &str) -> (r: Option<String>)
        ensures
            match r {
                Some(fixed) => self@.fixed(variable@) == Some(fixed@),
                None => self@.fixed(variable@) is None,
            },
    {
        match self.kind {
            PortKind::Assignment => None,
            _ => {
                let mut out = self.prefix.clone();
                out.append("${");
                out.append(variable);
                out.append(":-");
                out.append(&text::decimal(self.port as u64));
                out.append("}");
                out.append(&self.suffix);
                Some(out)
            },
        }
    }
}

// ---------------------------------------------------------------------------
// Runs of characters
// ---------------------------------------------------------------------------

/// A class of characters that a literal is made of.
#[derive(Clone, Copy)]
pub enum Class {
    Flag,
    Name,
    Host,
    Space,
    Digit,
}

impl Class {
    pub open spec fn has(self, c: char) -> bool {
        match self {
            Class::Flag => text::alnum(c) || c == '-',
            Class::Name => text::alnum(c) || c == '_',
            Class::Host => text::alnum(c) || c == '.' || c == '-' || c == '_',
            Class::Space => c == ' ',
            Class::Digit => text::digit(c),
        }
    }

    fn includes(self, c: char) -> (r: bool)
        ensures
            r == self.has(c),
    {
        match self {
            Class::Flag => text::is_alnum(c) || c == '-',
            Class::Name => text::is_alnum(c) || c == '_',
            Class::Host => text::is_alnum(c) || c == '.' || c == '-' || c == '_',
            Class::Space => c == ' ',
            Class::Digit => text::is_digit(c),
        }
    }
}

/// Where the run of a class that starts at `i` ends.
pub open spec fn run_end(t: Seq<char>, class: Class, i: int) -> int
    decreases t.len() - i,
{
    if 0 <= i < t.len() && class.has(t[i]) {
        run_end(t, class, i + 1)
    } else {
        i
    }
}

/// Where the run of a class that ends before `i` starts.
pub open spec fn run_start(t: Seq<char>, class: Class, i: int) -> int
    decreases i,
{
    if 0 < i <= t.len() && class.has(t[i - 1]) {
        run_start(t, class, i - 1)
    } else {
        i
    }
}

proof fn run_end_bounds(t: Seq<char>, class: Class, i: int)
    requires
        0 <= i <= t.len(),
    ensures
        i <= run_end(t, class, i) <= t.len(),
    decreases t.len() - i,
{
    if i < t.len() && class.has(t[i]) {
        run_end_bounds(t, class, i + 1);
    }
}

proof fn run_start_bounds(t: Seq<char>, class: Class, i: int)
    requires
        0 <= i <= t.len(),
    ensures
        0 <= run_start(t, class, i) <= i,
    decreases i,
{
    if 0 < i && class.has(t[i - 1]) {
        run_start_bounds(t, class, i - 1);
    }
}

fn end_of_run(t: &Vec<char>, class: Class, from: usize) -> (r: usize)
    requires
        from <= t.len(),
    ensures
        r == run_end(t@, class, from as int),
        from <= r <= t.len(),
{
    let mut i: usize = from;
    while i < t.len() && class.includes(t[i])
        invariant
            from <= i <= t@.len(),
            run_end(t@, class, from as int) == run_end(t@, class, i as int),
        decreases t@.len() - i,
    {
        i += 1;
    }
    i
}

fn start_of_run(t: &Vec<char>, class: Class, to: usize) -> (r: usize)
    requires
        to <= t.len(),
    ensures
        r == run_start(t@, class, to as int),
        r <= to,
{
    let mut i: usize = to;
    while i > 0 && class.includes(t[i - 1])
        invariant
            i <= to <= t@.len(),
            run_start(t@, class, to as int) == run_start(t@, class, i as int),
        decreases i,
    {
        i -= 1;
    }
    i
}

/// Whether `c` stands at `i`.
pub open spec fn at(t: Seq<char>, i: int, c: char) -> bool {
    0 <= i < t.len() && t[i] == c
}

fn is_at(t: &Vec<char>, i: usize, c: char) -> (r: bool)
    ensures
        r == at(t@, i as int, c),
{
    i < t.len() && t[i] == c
}

// ---------------------------------------------------------------------------
// Reading one literal
// ---------------------------------------------------------------------------

/// A port number at `start`, with the index just past it.
pub open spec fn digits_at(t: Seq<char>, start: int) -> Option<(u16, int)> {
    let end = run_end(t, Class::Digit, start);
    if end == start {
        None
    } else {
        match text::number_of(t.subrange(start, end), 65535) {
            Some(n) => if n == 0 || at(t, end, '.') || at(t, end, '_') {
                None
            } else {
                Some((n as u16, end))
            },
            None => None,
        }
    }
}

/// An opening quote at `i`.
pub open spec fn quote_at(t: Seq<char>, i: int) -> Option<char> {
    if at(t, i, '"') {
        Some('"')
    } else if at(t, i, '\'') {
        Some('\'')
    } else {
        None
    }
}

/// Past an opening quote.
pub open spec fn past_quote(i: int, quote: Option<char>) -> int {
    if quote is Some {
        i + 1
    } else {
        i
    }
}

/// Whether the quote that was opened is closed at `i`.
pub open spec fn closed_at(t: Seq<char>, i: int, quote: Option<char>) -> bool {
    match quote {
        Some(c) => at(t, i, c),
        None => false,
    }
}

/// A literal at `[from, to)` whose number starts at `value`.
pub open spec fn literal_of(
    t: Seq<char>,
    kind: PortKind,
    port: u16,
    from: int,
    value: int,
    to: int,
    suffix: Seq<char>,
) -> PortLiteralView {
    PortLiteralView {
        port,
        kind,
        literal: t.subrange(from, to),
        start: vstd::utf8::encode_utf8(t.take(from)).len() as usize,
        end: vstd::utf8::encode_utf8(t.take(to)).len() as usize,
        from: from as usize,
        to: to as usize,
        prefix: t.subrange(from, value),
        suffix,
    }
}

/// Whether `i` starts a token, so a `-p` inside a word is not a flag.
pub open spec fn starts_token(t: Seq<char>, i: int) -> bool {
    i == 0 || {
        let c = t[i - 1];
        c == ' ' || c == '\t' || c == '\n' || c == '"' || c == '\'' || c == '&' || c == '|' || c
            == ';' || c == '(' || c == '='
    }
}

/// A flag without its leading dashes.
pub open spec fn undashed(flag: Seq<char>) -> Seq<char>
    decreases flag.len(),
{
    if flag.len() > 0 && flag[0] == '-' {
        undashed(flag.skip(1))
    } else {
        flag
    }
}

/// Whether a flag names a port.
pub open spec fn port_flag(flag: Seq<char>) -> bool {
    flag == "-p"@ || (text::starts_with_of(flag, "--"@) && undashed(flag).len() > 0
        && text::ends_with_of(text::lower_of(undashed(flag)), "port"@))
}

/// Where a flag's value starts, and the quote that opens it.
pub open spec fn value_after(t: Seq<char>, i: int) -> Option<(int, Option<char>)> {
    let spaces = run_end(t, Class::Space, i);
    if at(t, i, '=') {
        Some((past_quote(i + 1, quote_at(t, i + 1)), quote_at(t, i + 1)))
    } else if spaces == i {
        None
    } else {
        Some((past_quote(spaces, quote_at(t, spaces)), quote_at(t, spaces)))
    }
}

/// `-p 3005`, `-p=3005`, `--port 3005`, `--port=3005`, `--http-port=9000`.
pub open spec fn flag_at(t: Seq<char>, start: int) -> Option<PortLiteralView> {
    let name_end = run_end(t, Class::Flag, start);
    if !port_flag(t.subrange(start, name_end)) {
        None
    } else {
        match value_after(t, name_end) {
            None => None,
            Some((value, quote)) => match digits_at(t, value) {
                None => None,
                Some((port, end)) => if closed_at(t, end, quote) {
                    Some(
                        literal_of(
                            t,
                            PortKind::Flag,
                            port,
                            start,
                            value,
                            end + 1,
                            seq![quote->Some_0],
                        ),
                    )
                } else {
                    Some(
                        literal_of(t, PortKind::Flag, port, start, value, end, Seq::empty()),
                    )
                },
            },
        }
    }
}

/// Whether a name is that of a port variable.
pub open spec fn port_name(name: Seq<char>) -> bool {
    name.len() > 0 && text::contains_of(text::upper_of(name), "PORT"@) && (text::lower(name[0])
        || text::upper(name[0]) || name[0] == '_')
}

/// Whether the character before `i` makes a name part of a longer expression.
pub open spec fn inside_expression(t: Seq<char>, i: int) -> bool {
    i > 0 && (t[i - 1] == '$' || t[i - 1] == '{' || t[i - 1] == '.' || t[i - 1] == '-')
}

/// `PORT=3005`, `DATABASE_PORT="5433"`, `export APP_PORT=5173`.
pub open spec fn assignment_at(t: Seq<char>, equals: int) -> Option<PortLiteralView> {
    let start = run_start(t, Class::Name, equals);
    let quote = quote_at(t, equals + 1);
    if !port_name(t.subrange(start, equals)) || inside_expression(t, start) {
        None
    } else {
        match digits_at(t, past_quote(equals + 1, quote)) {
            None => None,
            Some((port, end)) => Some(
                literal_of(
                    t,
                    PortKind::Assignment,
                    port,
                    start,
                    equals + 1,
                    if closed_at(t, end, quote) {
                        end + 1
                    } else {
                        end
                    },
                    Seq::empty(),
                ),
            ),
        }
    }
}

/// Whether a text has a letter or a digit.
pub open spec fn has_alnum(s: Seq<char>) -> bool {
    exists|i: int| 0 <= i < s.len() && text::alnum(#[trigger] s[i])
}

/// `localhost:5173`, `127.0.0.1:5433`, `http://api:8000`.
///
/// `${WT_PORT_DB:-5432}` is a default for a variable, not a literal, and below 1024 a pair like
/// `10:30` is a time or a version, not a port.
pub open spec fn host_port_at(t: Seq<char>, colon: int) -> Option<PortLiteralView> {
    let start = run_start(t, Class::Host, colon);
    if colon == 0 || t[colon - 1] == '-' || !has_alnum(t.subrange(start, colon)) || (start > 0 && (
    t[start - 1] == '{' || t[start - 1] == '$')) {
        None
    } else {
        match digits_at(t, colon + 1) {
            None => None,
            Some((port, end)) => if port < 1024 {
                None
            } else {
                Some(literal_of(t, PortKind::Url, port, start, colon + 1, end, Seq::empty()))
            },
        }
    }
}

/// The literal that the character at `i` gives away.
pub open spec fn literal_at(t: Seq<char>, i: int) -> Option<PortLiteralView> {
    if t[i] == '-' && starts_token(t, i) {
        flag_at(t, i)
    } else if t[i] == '=' {
        assignment_at(t, i)
    } else if t[i] == ':' {
        host_port_at(t, i)
    } else {
        None
    }
}

fn digits(t: &Vec<char>, start: usize) -> (r: Option<(u16, usize)>)
    requires
        start <= t.len(),
    ensures
        match r {
            Some((port, end)) => digits_at(t@, start as int) == Some((port, end as int)) && start < end
                <= t.len(),
            None => digits_at(t@, start as int) is None,
        },
{
    let end = end_of_run(t, Class::Digit, start);
    if end == start {
        return None;
    }
    match text::parse_number(&text::slice(t, start, end), 65535) {
        Some(n) => {
            if n == 0 || is_at(t, end, '.') || is_at(t, end, '_') {
                None
            } else {
                Some((n as u16, end))
            }
        },
        None => None,
    }
}

fn opening_quote(t: &Vec<char>, i: usize) -> (r: Option<char>)
    ensures
        r == quote_at(t@, i as int),
        r is Some ==> i < t.len(),
{
    if is_at(t, i, '"') {
        Some('"')
    } else if is_at(t, i, '\'') {
        Some('\'')
    } else {
        None
    }
}

fn is_closed(t: &Vec<char>, i: usize, quote: Option<char>) -> (r: bool)
    ensures
        r == closed_at(t@, i as int, quote),
        r ==> i < t.len(),
{
    match quote {
        Some(c) => is_at(t, i, c),
        None => false,
    }
}

fn byte_offset(t: &Vec<char>, i: usize) -> (r: usize)
    requires
        i <= t.len(),
    ensures
        r == vstd::utf8::encode_utf8(t@.take(i as int)).len() as usize,
{
    let prefix = text::slice(t, 0, i);
    assert(t@.subrange(0, i as int) =~= t@.take(i as int));
    prefix.as_str().as_bytes().len()
}

fn literal(
    t: &Vec<char>,
    kind: PortKind,
    port: u16,
    from: usize,
    value: usize,
    to: usize,
    suffix: String,
) -> (r: PortLiteral)
    requires
        from <= value <= to <= t@.len(),
    ensures
        r@ == literal_of(t@, kind, port, from as int, value as int, to as int, suffix@),
{
    PortLiteral {
        port,
        kind,
        literal: text::slice(t, from, to),
        start: byte_offset(t, from),
        end: byte_offset(t, to),
        from,
        to,
        prefix: text::slice(t, from, value),
        suffix,
    }
}

fn token_start(t: &Vec<char>, i: usize) -> (r: bool)
    requires
        i < t.len(),
    ensures
        r == starts_token(t@, i as int),
{
    if i == 0 {
        return true;
    }
    let c = t[i - 1];
    c == ' ' || c == '\t' || c == '\n' || c == '"' || c == '\'' || c == '&' || c == '|' || c == ';'
        || c == '(' || c == '='
}

fn is_port_flag(flag: &str) -> (r: bool)
    ensures
        r == port_flag(flag@),
{
    if text::same(flag, "-p") {
        return true;
    }
    let v = text::chars(flag);
    let mut i: usize = 0;
    assert(flag@.skip(0) =~= flag@);
    while i < v.len() && v[i] == '-'
        invariant
            v@ == flag@,
            i <= v@.len(),
            undashed(flag@) == undashed(flag@.skip(i as int)),
        decreases v@.len() - i,
    {
        assert(flag@.skip(i as int).skip(1) =~= flag@.skip(i + 1));
        i += 1;
    }
    let named = text::slice(&v, i, v.len());
    assert(flag@.subrange(i as int, flag@.len() as int) =~= flag@.skip(i as int));
    text::starts_with(flag, "--") && i < v.len() && text::ends_with(&text::to_lower(&named), "port")
}

/// Steps over `=`, spaces, and an opening quote for a flag's value. `None` when the flag has no
/// separated value: `-p3005` is another tool's spelling, not a port here.
fn separated_value(t: &Vec<char>, i: usize) -> (r: Option<(usize, Option<char>)>)
    requires
        i <= t.len(),
    ensures
        match r {
            Some((value, quote)) => value_after(t@, i as int) == Some((value as int, quote)) && i
                <= value <= t.len(),
            None => value_after(t@, i as int) is None,
        },
{
    let spaces = end_of_run(t, Class::Space, i);
    let value: usize = if is_at(t, i, '=') {
        i + 1
    } else if spaces == i {
        return None;
    } else {
        spaces
    };
    match opening_quote(t, value) {
        Some(quote) => Some((value + 1, Some(quote))),
        None => Some((value, None)),
    }
}

fn scan_flag(t: &Vec<char>, start: usize) -> (r: Option<PortLiteral>)
    requires
        start < t.len(),
    ensures
        text::opt_view(r) == flag_at(t@, start as int),
{
    let name_end = end_of_run(t, Class::Flag, start);
    if !is_port_flag(&text::slice(t, start, name_end)) {
        return None;
    }
    match separated_value(t, name_end) {
        None => None,
        Some((value, quote)) => match digits(t, value) {
            None => None,
            Some((port, end)) => {
                let mut suffix = text::own("");
                proof {
                    reveal_strlit("");
                    assert(suffix@ =~= Seq::<char>::empty());
                }
                if is_closed(t, end, quote) {
                    if let Some(c) = quote {
                        suffix.push(c);
                        assert(suffix@ =~= seq![c]);
                    }
                    Some(literal(t, PortKind::Flag, port, start, value, end + 1, suffix))
                } else {
                    Some(literal(t, PortKind::Flag, port, start, value, end, suffix))
                }
            },
        },
    }
}

fn is_port_name(name: &str) -> (r: bool)
    ensures
        r == port_name(name@),
{
    let v = text::chars(name);
    v.len() > 0 && text::contains(&text::to_upper(name), "PORT") && (text::is_lower(v[0])
        || text::is_upper(v[0]) || v[0] == '_')
}

fn scan_assignment(t: &Vec<char>, equals: usize) -> (r: Option<PortLiteral>)
    requires
        equals < t.len(),
    ensures
        text::opt_view(r) == assignment_at(t@, equals as int),
{
    let start = start_of_run(t, Class::Name, equals);
    if !is_port_name(&text::slice(t, start, equals)) {
        return None;
    }
    // Part of a longer expression: `${DB_PORT:-5432}`, `--port=3005`, `x.PORT=1`.
    if start > 0 {
        let c = t[start - 1];
        if c == '$' || c == '{' || c == '.' || c == '-' {
            return None;
        }
    }
    let quote = opening_quote(t, equals + 1);
    let value: usize = if quote.is_some() {
        equals + 2
    } else {
        equals + 1
    };
    match digits(t, value) {
        None => None,
        Some((port, end)) => {
            let suffix = text::own("");
            proof {
                reveal_strlit("");
                assert(suffix@ =~= Seq::<char>::empty());
            }
            let to: usize = if is_closed(t, end, quote) {
                end + 1
            } else {
                end
            };
            Some(literal(t, PortKind::Assignment, port, start, equals + 1, to, suffix))
        },
    }
}

fn any_alnum(s: &str) -> (r: bool)
    ensures
        r == has_alnum(s@),
{
    let v = text::chars(s);
    let mut i: usize = 0;
    while i < v.len()
        invariant
            v@ == s@,
            i <= v@.len(),
            forall|k: int| 0 <= k < i ==> !text::alnum(#[trigger] s@[k]),
        decreases v@.len() - i,
    {
        if text::is_alnum(v[i]) {
            assert(text::alnum(s@[i as int]));
            return true;
        }
        i += 1;
    }
    false
}

fn scan_host_port(t: &Vec<char>, colon: usize) -> (r: Option<PortLiteral>)
    requires
        colon < t.len(),
    ensures
        text::opt_view(r) == host_port_at(t@, colon as int),
{
    if colon == 0 || t[colon - 1] == '-' {
        return None;
    }
    let start = start_of_run(t, Class::Host, colon);
    if !any_alnum(&text::slice(t, start, colon)) {
        return None;
    }
    if start > 0 && (t[start - 1] == '{' || t[start - 1] == '$') {
        return None;
    }
    match digits(t, colon + 1) {
        None => None,
        Some((port, end)) => {
            if port < 1024 {
                return None;
            }
            let suffix = text::own("");
            proof {
                reveal_strlit("");
                assert(suffix@ =~= Seq::<char>::empty());
            }
            Some(literal(t, PortKind::Url, port, start, colon + 1, end, suffix))
        },
    }
}

// ---------------------------------------------------------------------------
// All literals of a text
// ---------------------------------------------------------------------------

/// The literals that the first `k` characters give away.
pub open spec fn found(t: Seq<char>, k: int) -> Seq<PortLiteralView>
    decreases k,
{
    if k <= 0 {
        Seq::empty()
    } else {
        match literal_at(t, k - 1) {
            Some(literal) => found(t, k - 1).push(literal),
            None => found(t, k - 1),
        }
    }
}

/// Whether `a` comes before `b` or at the same place.
pub open spec fn no_later(a: PortLiteralView, b: PortLiteralView) -> bool {
    a.from < b.from || (a.from == b.from && a.to <= b.to)
}

/// Whether two literals cover the same text.
pub open spec fn same_range(a: PortLiteralView, b: PortLiteralView) -> bool {
    a.from == b.from && a.to == b.to
}

/// A list with a literal at its place, behind those at the same place.
pub open spec fn placed(list: Seq<PortLiteralView>, x: PortLiteralView) -> Seq<PortLiteralView>
    decreases list.len(),
{
    if list.len() == 0 || no_later(list.last(), x) {
        list.push(x)
    } else {
        placed(list.drop_last(), x).push(list.last())
    }
}

/// The literals in the order they appear.
pub open spec fn in_order(list: Seq<PortLiteralView>) -> Seq<PortLiteralView>
    decreases list.len(),
{
    if list.len() == 0 {
        list
    } else {
        placed(in_order(list.drop_last()), list.last())
    }
}

/// The literals without one that covers the same text as the one before it.
pub open spec fn distinct(list: Seq<PortLiteralView>) -> Seq<PortLiteralView>
    decreases list.len(),
{
    if list.len() <= 1 {
        list
    } else {
        let kept = distinct(list.drop_last());
        if same_range(kept.last(), list.last()) {
            kept
        } else {
            kept.push(list.last())
        }
    }
}

/// Every port literal in a text, in the order it appears, without duplicates.
pub open spec fn scan_of(t: Seq<char>) -> Seq<PortLiteralView> {
    distinct(in_order(found(t, t.len() as int)))
}

/// Whether a literal is a part of the text that names a port.
pub open spec fn taken_from(literal: PortLiteralView, t: Seq<char>) -> bool {
    &&& literal.from < literal.to <= t.len()
    &&& literal.literal == t.subrange(literal.from as int, literal.to as int)
    &&& literal.port > 0
    &&& literal.kind == PortKind::Url ==> literal.port >= 1024
}

proof fn literal_at_is_taken(t: Seq<char>, i: int)
    requires
        0 <= i < t.len() <= usize::MAX,
        literal_at(t, i) is Some,
    ensures
        taken_from(literal_at(t, i)->Some_0, t),
{
    if t[i] == '-' && starts_token(t, i) {
        let name_end = run_end(t, Class::Flag, i);
        run_end_bounds(t, Class::Flag, i);
        run_end_bounds(t, Class::Space, name_end);
        let value = value_after(t, name_end)->Some_0.0;
        run_end_bounds(t, Class::Digit, value);
    } else if t[i] == '=' {
        run_start_bounds(t, Class::Name, i);
        run_end_bounds(t, Class::Digit, past_quote(i + 1, quote_at(t, i + 1)));
    } else {
        run_start_bounds(t, Class::Host, i);
        run_end_bounds(t, Class::Digit, i + 1);
    }
}

/// Whether the literals stand in order, no two of them at the same place.
pub open spec fn ordered(list: Seq<PortLiteralView>) -> bool {
    forall|i: int, j: int|
        0 <= i < j < list.len() ==> no_later(#[trigger] list[i], #[trigger] list[j])
}

proof fn found_are_taken(t: Seq<char>, k: int)
    requires
        0 <= k <= t.len() <= usize::MAX,
    ensures
        forall|i: int| 0 <= i < found(t, k).len() ==> taken_from(#[trigger] found(t, k)[i], t),
    decreases k,
{
    if k > 0 {
        found_are_taken(t, k - 1);
        if literal_at(t, k - 1) is Some {
            literal_at_is_taken(t, k - 1);
        }
        let before = found(t, k - 1);
        assert forall|i: int| 0 <= i < found(t, k).len() implies taken_from(
            #[trigger] found(t, k)[i],
            t,
        ) by {
            if i < before.len() {
                assert(found(t, k)[i] == before[i]);
            }
        }
    }
}

proof fn placed_keeps(list: Seq<PortLiteralView>, x: PortLiteralView, t: Seq<char>)
    requires
        ordered(list),
        taken_from(x, t),
        forall|i: int| 0 <= i < list.len() ==> taken_from(#[trigger] list[i], t),
    ensures
        ordered(placed(list, x)),
        placed(list, x).len() == list.len() + 1,
        forall|i: int| 0 <= i <= list.len() ==> taken_from(#[trigger] placed(list, x)[i], t),
        forall|i: int|
            0 <= i <= list.len() ==> #[trigger] placed(list, x)[i] == x || list.contains(
                placed(list, x)[i],
            ),
    decreases list.len(),
{
    if list.len() > 0 && !no_later(list.last(), x) {
        let rest = list.drop_last();
        let r = placed(rest, x);
        placed_keeps(rest, x, t);
        assert forall|i: int, j: int|
            0 <= i < j < placed(list, x).len() implies no_later(
            #[trigger] placed(list, x)[i],
            #[trigger] placed(list, x)[j],
        ) by {
            if j == list.len() {
                assert(placed(list, x)[i] == r[i]);
                if r[i] != x {
                    assert(rest.contains(r[i]));
                    let m = choose|m: int| 0 <= m < rest.len() && rest[m] == r[i];
                    assert(no_later(list[m], list[list.len() - 1]));
                }
            } else {
                assert(no_later(r[i], r[j]));
            }
        }
        assert forall|i: int| 0 <= i <= list.len() implies #[trigger] placed(list, x)[i] == x
            || list.contains(placed(list, x)[i]) by {
            if i < list.len() {
                assert(placed(list, x)[i] == r[i]);
                if r[i] != x {
                    let m = choose|m: int| 0 <= m < rest.len() && rest[m] == r[i];
                    assert(list[m] == r[i]);
                }
            } else {
                assert(list[list.len() - 1] == list.last());
            }
        }
    } else {
        assert forall|i: int| 0 <= i <= list.len() implies #[trigger] placed(list, x)[i] == x
            || list.contains(placed(list, x)[i]) by {
            if i < list.len() {
                assert(list[i] == placed(list, x)[i]);
            }
        }
        assert forall|i: int, j: int|
            0 <= i < j < placed(list, x).len() implies no_later(
            #[trigger] placed(list, x)[i],
            #[trigger] placed(list, x)[j],
        ) by {
            if j == list.len() && i < list.len() - 1 {
                assert(no_later(list[i], list[list.len() - 1]));
            }
        }
    }
}

proof fn in_order_keeps(list: Seq<PortLiteralView>, t: Seq<char>)
    requires
        forall|i: int| 0 <= i < list.len() ==> taken_from(#[trigger] list[i], t),
    ensures
        ordered(in_order(list)),
        forall|i: int| 0 <= i < in_order(list).len() ==> taken_from(#[trigger] in_order(list)[i], t),
    decreases list.len(),
{
    if list.len() > 0 {
        in_order_keeps(list.drop_last(), t);
        placed_keeps(in_order(list.drop_last()), list.last(), t);
    }
}

proof fn distinct_keeps(list: Seq<PortLiteralView>, t: Seq<char>)
    requires
        ordered(list),
        forall|i: int| 0 <= i < list.len() ==> taken_from(#[trigger] list[i], t),
    ensures
        list.len() > 0 ==> distinct(list).len() > 0 && same_range(distinct(list).last(), list.last()),
        ordered(distinct(list)),
        forall|i: int| 0 <= i < distinct(list).len() ==> taken_from(#[trigger] distinct(list)[i], t),
        forall|i: int, j: int|
            0 <= i < j < distinct(list).len() ==> !same_range(
                #[trigger] distinct(list)[i],
                #[trigger] distinct(list)[j],
            ),
    decreases list.len(),
{
    if list.len() > 1 {
        let rest = list.drop_last();
        let kept = distinct(rest);
        distinct_keeps(rest, t);
        assert(no_later(list[list.len() - 2], list[list.len() - 1]));
        assert(rest.last() == list[list.len() - 2]);
        assert forall|i: int| 0 <= i < kept.len() implies no_later(#[trigger] kept[i], kept.last()) by {
            if i < kept.len() - 1 {
                assert(no_later(kept[i], kept[kept.len() - 1]));
            }
        }
        assert forall|i: int, j: int|
            0 <= i < j < distinct(list).len() implies !same_range(
            #[trigger] distinct(list)[i],
            #[trigger] distinct(list)[j],
        ) && no_later(distinct(list)[i], distinct(list)[j]) by {
            if j < kept.len() {
                assert(!same_range(kept[i], kept[j]));
                assert(no_later(kept[i], kept[j]));
            } else {
                assert(no_later(kept[i], kept.last()));
            }
        }
    }
}

/// What `scan` finds are parts of the text that name a port, in the order they appear, no two of
/// them the same part.
pub proof fn literals_are_parts_of_the_text(t: Seq<char>)
    requires
        t.len() <= usize::MAX,
    ensures
        forall|i: int| 0 <= i < scan_of(t).len() ==> taken_from(#[trigger] scan_of(t)[i], t),
        forall|i: int, j: int|
            0 <= i < j < scan_of(t).len() ==> no_later(
                #[trigger] scan_of(t)[i],
                #[trigger] scan_of(t)[j],
            ) && !same_range(scan_of(t)[i], scan_of(t)[j]),
{
    found_are_taken(t, t.len() as int);
    in_order_keeps(found(t, t.len() as int), t);
    distinct_keeps(in_order(found(t, t.len() as int)), t);
}

fn place(list: &mut Vec<PortLiteral>, x: PortLiteral)
    ensures
        text::views(final(list)@) == placed(text::views(old(list)@), x@),
{
    let ghost all = text::views(list@);
    let mut i: usize = list.len();
    assert(all.take(all.len() as int) =~= all);
    assert(placed(all, x@) + all.skip(all.len() as int) =~= placed(all, x@));
    while i > 0 && !(list[i - 1].from < x.from || (list[i - 1].from == x.from && list[i - 1].to
        <= x.to))
        invariant
            all == text::views(list@),
            i <= list@.len(),
            placed(all, x@) == placed(all.take(i as int), x@) + all.skip(i as int),
        decreases i,
    {
        assert(all.take(i as int).drop_last() =~= all.take(i - 1));
        assert(all.take(i as int).last() == all[i - 1]);
        assert(placed(all.take(i - 1), x@).push(all[i - 1]) + all.skip(i as int) =~= placed(
            all.take(i - 1),
            x@,
        ) + all.skip(i - 1));
        i -= 1;
    }
    assert(i > 0 ==> all.take(i as int).last() == all[i - 1]);
    let ghost view = x@;
    list.insert(i, x);
    assert(text::views(list@) =~= all.take(i as int).push(view) + all.skip(i as int));
}

/// Every port literal in `text`, in the order it appears, without duplicates.
pub fn scan(text: &str) -> (r: Vec<PortLiteral>)
    ensures
        text::views(r@) == scan_of(text@),
{
    let t = text::chars(text);
    let ghost all = text@;
    let mut sorted: Vec<PortLiteral> = Vec::new();
    let mut i: usize = 0;
    assert(text::views(sorted@) =~= Seq::<PortLiteralView>::empty());
    while i < t.len()
        invariant
            t@ == all,
            i <= t@.len(),
            text::views(sorted@) == in_order(found(all, i as int)),
        decreases t@.len() - i,
    {
        let c = t[i];
        let found_here = if c == '-' && token_start(&t, i) {
            scan_flag(&t, i)
        } else if c == '=' {
            scan_assignment(&t, i)
        } else if c == ':' {
            scan_host_port(&t, i)
        } else {
            None
        };
        assert(text::opt_view(found_here) == literal_at(all, i as int));
        if let Some(literal) = found_here {
            let ghost before = found(all, i as int);
            assert(before.push(literal@).drop_last() =~= before);
            place(&mut sorted, literal);
        }
        i += 1;
    }
    let ghost list = text::views(sorted@);
    let mut out: Vec<PortLiteral> = Vec::new();
    let mut k: usize = 0;
    assert(text::views(out@) =~= list.take(0));
    while k < sorted.len()
        invariant
            list == text::views(sorted@),
            k <= sorted@.len(),
            text::views(out@) == distinct(list.take(k as int)),
            k > 0 ==> out@.len() > 0,
            k == 0 ==> out@.len() == 0,
        decreases sorted@.len() - k,
    {
        broadcast use text::views_push;

        assert(list.take(k + 1).drop_last() =~= list.take(k as int));
        assert(list.take(k + 1).last() == sorted@[k as int]@);
        let n = out.len();
        assert(n > 0 ==> text::views(out@).last() == out@[n - 1]@);
        if n > 0 && out[n - 1].from == sorted[k].from && out[n - 1].to == sorted[k].to {
        } else {
            out.push(sorted[k].clone());
            assert(k == 0 ==> text::views(out@) =~= list.take(1));
        }
        k += 1;
    }
    assert(list.take(k as int) =~= list);
    out
}

// ---------------------------------------------------------------------------
// Rewriting
// ---------------------------------------------------------------------------

/// A text in which one literal was rewritten. An assignment goes, with the spaces around it.
pub open spec fn rewritten(t: Seq<char>, literal: PortLiteralView, variable: Seq<char>) -> Seq<char> {
    if literal.from > literal.to || literal.to > t.len() {
        t
    } else {
        match literal.fixed(variable) {
            Some(fixed) => t.take(literal.from as int) + fixed + t.skip(literal.to as int),
            None => t.take(run_start(t, Class::Space, literal.from as int)) + t.skip(
                run_end(t, Class::Space, literal.to as int),
            ),
        }
    }
}

/// A text in which the first `k` literals were rewritten, the last one first.
pub open spec fn rewritten_all(
    t: Seq<char>,
    literals: Seq<PortLiteralView>,
    k: int,
    variable: Seq<char>,
) -> Seq<char>
    decreases k,
{
    if k <= 0 {
        t
    } else {
        rewritten_all(rewritten(t, literals[k - 1], variable), literals, k - 1, variable)
    }
}

/// A text whose ports come from `variable`. `None` when there is nothing to rewrite.
pub open spec fn rewrite_of(t: Seq<char>, variable: Seq<char>) -> Option<Seq<char>> {
    if scan_of(t).len() == 0 {
        None
    } else {
        Some(rewritten_all(t, scan_of(t), scan_of(t).len() as int, variable))
    }
}

fn rewrite_one(text: &str, literal: &PortLiteral, variable: &str) -> (r: String)
    ensures
        r@ == rewritten(text@, literal@, variable@),
{
    let t = text::chars(text);
    if literal.from > literal.to || literal.to > t.len() {
        return text::own(text);
    }
    match literal.fix(variable) {
        Some(fixed) => {
            let mut out = text::slice(&t, 0, literal.from);
            assert(t@.subrange(0, literal.from as int) =~= t@.take(literal.from as int));
            out.append(&fixed);
            out.append(&text::slice(&t, literal.to, t.len()));
            assert(t@.subrange(literal.to as int, t@.len() as int) =~= t@.skip(literal.to as int));
            out
        },
        None => {
            let from = start_of_run(&t, Class::Space, literal.from);
            let to = end_of_run(&t, Class::Space, literal.to);
            let mut out = text::slice(&t, 0, from);
            assert(t@.subrange(0, from as int) =~= t@.take(from as int));
            out.append(&text::slice(&t, to, t.len()));
            assert(t@.subrange(to as int, t@.len() as int) =~= t@.skip(to as int));
            out
        },
    }
}

/// Rewrite `text` so its ports come from `variable`. An inline assignment is dropped: it would
/// overwrite the value magictree injects. `None` when there is nothing to rewrite.
pub fn rewrite(text: &str, variable: &str) -> (r: Option<String>)
    ensures
        text::opt_view(r) == rewrite_of(text@, variable@),
{
    let literals = scan(text);
    if literals.len() == 0 {
        return None;
    }
    let ghost list = text::views(literals@);
    let mut out = text::own(text);
    // Back to front, so replacing one literal never moves another's range.
    let mut k: usize = literals.len();
    while k > 0
        invariant
            list == text::views(literals@),
            k <= literals@.len(),
            rewritten_all(text@, list, list.len() as int, variable@) == rewritten_all(
                out@,
                list,
                k as int,
                variable@,
            ),
        decreases k,
    {
        out = rewrite_one(&out, &literals[k - 1], variable);
        k -= 1;
    }
    Some(out)
}

// ---------------------------------------------------------------------------
// Recorded literals
// ---------------------------------------------------------------------------

/// The literals that a fact records.
pub open spec fn literals_in(fact: FactView) -> Seq<PortLiteralFactView> {
    match fact.data {
        FactDataView::Node { ports, .. } => ports,
        FactDataView::Just { ports, .. } => ports,
        FactDataView::EnvExample { ports, .. } => ports,
        FactDataView::Procfile { ports, .. } => ports,
        _ => Seq::empty(),
    }
}

/// The first `k` literals of a fact, each with the fact.
pub open spec fn paired(fact: FactView, k: int) -> Seq<(FactView, PortLiteralFactView)> {
    Seq::new(k as nat, |i: int| (fact, literals_in(fact)[i]))
}

/// Every literal that the first `k` facts record, with its fact.
pub open spec fn all_upto(facts: Seq<FactView>, k: int) -> Seq<(FactView, PortLiteralFactView)>
    decreases k,
{
    if k <= 0 {
        Seq::empty()
    } else {
        all_upto(facts, k - 1) + paired(facts[k - 1], literals_in(facts[k - 1]).len() as int)
    }
}

/// Every recorded literal, with the fact it came from.
pub open spec fn all_of(facts: Seq<FactView>) -> Seq<(FactView, PortLiteralFactView)> {
    all_upto(facts, facts.len() as int)
}

/// Whether a literal sits in this step of this kind of file.
pub open spec fn sits_in(
    pair: (FactView, PortLiteralFactView),
    kind: FactKind,
    step: Seq<char>,
) -> bool {
    pair.0.kind == kind && pair.1.container == Some(step)
}

/// The literals of one step among the first `k`.
pub open spec fn sites_upto(
    pairs: Seq<(FactView, PortLiteralFactView)>,
    kind: FactKind,
    step: Seq<char>,
    k: int,
) -> Seq<(FactView, PortLiteralFactView)>
    decreases k,
{
    if k <= 0 {
        Seq::empty()
    } else if sits_in(pairs[k - 1], kind, step) {
        sites_upto(pairs, kind, step, k - 1).push(pairs[k - 1])
    } else {
        sites_upto(pairs, kind, step, k - 1)
    }
}

/// The literals of one step of one kind of file.
pub open spec fn sites_of(facts: Seq<FactView>, kind: FactKind, step: Seq<char>) -> Seq<
    (FactView, PortLiteralFactView),
> {
    sites_upto(all_of(facts), kind, step, all_of(facts).len() as int)
}

fn literals_of(fact: &Fact) -> (r: Option<&Vec<PortLiteralFact>>)
    ensures
        match r {
            Some(list) => text::views(list@) == literals_in(fact@),
            None => literals_in(fact@).len() == 0,
        },
{
    match &fact.data {
        FactData::Node { ports, .. } => Some(ports),
        FactData::Just { ports, .. } => Some(ports),
        FactData::EnvExample { ports, .. } => Some(ports),
        FactData::Procfile { ports, .. } => Some(ports),
        _ => None,
    }
}

/// Every recorded literal, paired with the fact it came from.
pub fn all<'a>(facts: &Vec<&'a Fact>) -> (r: Vec<(&'a Fact, &'a PortLiteralFact)>)
    ensures
        text::views(r@) == all_of(text::views(facts@)),
{
    let ghost list = text::views(facts@);
    let mut out: Vec<(&'a Fact, &'a PortLiteralFact)> = Vec::new();
    let mut k: usize = 0;
    assert(text::views(out@) =~= Seq::<(FactView, PortLiteralFactView)>::empty());
    while k < facts.len()
        invariant
            list == text::views(facts@),
            k <= facts@.len(),
            text::views(out@) == all_upto(list, k as int),
        decreases facts@.len() - k,
    {
        let fact: &'a Fact = facts[k];
        let ghost before = text::views(out@);
        assert(list[k as int] == fact@);
        if let Some(ports) = literals_of(fact) {
            let mut i: usize = 0;
            assert(before + paired(fact@, 0) =~= before);
            while i < ports.len()
                invariant
                    text::views(ports@) == literals_in(fact@),
                    i <= ports@.len(),
                    text::views(out@) == before + paired(fact@, i as int),
                decreases ports@.len() - i,
            {
                broadcast use text::views_push;

                assert(literals_in(fact@)[i as int] == ports@[i as int]@);
                out.push((fact, &ports[i]));
                i += 1;
                assert(text::views(out@) =~= before + paired(fact@, i as int));
            }
        } else {
            assert(before + paired(fact@, 0) =~= before);
        }
        k += 1;
    }
    out
}

fn same_kind(a: FactKind, b: FactKind) -> (r: bool)
    ensures
        r == (a == b),
{
    a == b
}

/// Literals recorded for one step of one file kind: the `dev` script of a package.json, a justfile
/// recipe, a Procfile process, an env template line.
pub fn sites<'a>(facts: &Vec<&'a Fact>, kind: FactKind, step: &str) -> (r: Vec<
    (&'a Fact, &'a PortLiteralFact),
>)
    ensures
        text::views(r@) == sites_of(text::views(facts@), kind, step@),
{
    let pairs = all(facts);
    let ghost list = text::views(pairs@);
    let mut out: Vec<(&'a Fact, &'a PortLiteralFact)> = Vec::new();
    let mut k: usize = 0;
    assert(text::views(out@) =~= Seq::<(FactView, PortLiteralFactView)>::empty());
    while k < pairs.len()
        invariant
            list == text::views(pairs@),
            k <= pairs@.len(),
            text::views(out@) == sites_upto(list, kind, step@, k as int),
        decreases pairs@.len() - k,
    {
        broadcast use text::views_push;

        let pair: (&'a Fact, &'a PortLiteralFact) = pairs[k];
        assert(list[k as int] == (pair.0@, pair.1@));
        let here = match &pair.1.container {
            Some(container) => text::same(container, step),
            None => false,
        };
        if same_kind(pair.0.kind, kind) && here {
            out.push(pair);
        }
        k += 1;
    }
    out
}

/// The rewrite that makes a literal follow `variable`.
pub open spec fn fix_of(literal: PortLiteralFactView, variable: Seq<char>) -> Option<Seq<char>> {
    match literal.kind {
        PortKind::Assignment => None,
        _ => rewrite_of(literal.text, variable),
    }
}

/// The proposed fix for one literal.
pub open spec fn suggestion_of(
    literal: PortLiteralFactView,
    variable: Option<Seq<char>>,
) -> Seq<char> {
    let container = match literal.container {
        Some(name) => name,
        None => ""@,
    };
    if literal.kind == PortKind::Assignment {
        "leave `"@ + container + "` without a value, or read the variable at runtime"@
    } else {
        match variable {
            Some(name) => match fix_of(literal, name) {
                Some(fixed) => "read the port from `"@ + name + "` instead: `"@ + fixed + "`"@,
                None => "read the port from `"@ + name + "` instead"@,
            },
            None =>
                "no service in the manifest allocates this port: declare the one that should, then read its variable here"@,
        }
    }
}

/// The rewrite that makes a literal follow `variable`, or `None` when the literal has to go: an
/// assignment to a number cannot defer to the variable it assigns.
pub fn fix_for(literal: &PortLiteralFact, variable: &str) -> (r: Option<String>)
    ensures
        text::opt_view(r) == fix_of(literal@, variable@),
{
    match literal.kind {
        PortKind::Assignment => None,
        _ => rewrite(&literal.text, variable),
    }
}

/// The proposed fix for one literal, as the sentence to show a user.
///
/// `variable` is the variable that carries this port; `None` when no service in the manifest
/// allocates it, so no rewrite can be offered.
pub fn suggestion(literal: &PortLiteralFact, variable: Option<&str>) -> (r: String)
    ensures
        r@ == suggestion_of(
            literal@,
            match variable {
                Some(name) => Some(name@),
                None => None,
            },
        ),
{
    let container = match &literal.container {
        Some(name) => name.clone(),
        None => text::own(""),
    };
    match literal.kind {
        PortKind::Assignment => {
            let mut out = text::own("leave `");
            out.append(&container);
            out.append("` without a value, or read the variable at runtime");
            out
        },
        _ => match variable {
            Some(name) => {
                let mut out = text::own("read the port from `");
                out.append(name);
                match fix_for(literal, name) {
                    Some(fixed) => {
                        out.append("` instead: `");
                        out.append(&fixed);
                        out.append("`");
                    },
                    None => {
                        out.append("` instead");
                    },
                }
                out
            },
            None => text::own(
                "no service in the manifest allocates this port: declare the one that should, then read its variable here",
            ),
        },
    }
}

/// How a step reads in a finding.
pub open spec fn step_label_of(kind: FactKind, container: Seq<char>) -> Seq<char> {
    match kind {
        FactKind::Node => "script '"@ + container + "'"@,
        FactKind::Just => "recipe '"@ + container + "'"@,
        FactKind::Procfile => "process '"@ + container + "'"@,
        FactKind::EnvExample => "variable '"@ + container + "'"@,
        _ => "step '"@ + container + "'"@,
    }
}

/// How a step reads in a finding: `script 'dev'`, `variable 'DATABASE_PORT'`.
pub fn step_label(kind: FactKind, container: &str) -> (r: String)
    ensures
        r@ == step_label_of(kind, container@),
{
    let mut out = match kind {
        FactKind::Node => text::own("script '"),
        FactKind::Just => text::own("recipe '"),
        FactKind::Procfile => text::own("process '"),
        FactKind::EnvExample => text::own("variable '"),
        _ => text::own("step '"),
    };
    out.append(container);
    out.append("'");
    out
}

} // verus!
