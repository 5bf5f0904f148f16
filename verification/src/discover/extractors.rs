//! Fact extractors. Pure file reads: nothing from the repository is executed.

use crate::dict;
use crate::dict::Dict;
use crate::discover::ports;
use crate::discover::ports::PortLiteralView;
use crate::discover::report::{
    AppFacts, AppFactsView, ComposeServiceFact, ComposeServiceFactView, Confidence, Fact, FactData,
    FactDataView, FactKind, FactView, PortLiteralFact, PortLiteralFactView, RepoFacts,
    RepoFactsView, Report, ReportView, ScriptFact, ScriptFactView, WorktreeFact, WorktreeFactView,
    REPORT_VERSION,
};
use crate::discover::snapshot::{Snapshot, SnapshotView};
use crate::discover::unknowns;
use crate::paths;
use crate::repo::{Repo, RepoView, WorktreeEntry, WorktreeEntryView};
use crate::text;
use crate::value::Value;
use vstd::prelude::*;

verus! {

/// A way to run an app, with a crude score used only to pick a default.
#[derive(Debug)]
pub struct Candidate {
    /// Stable spec, for example `pnpm:dev` or `just:api::dev`.
    pub value: String,
    pub score: u32,
    /// Fact this candidate came from.
    pub evidence: String,
}

/// The contents of a [`Candidate`].
#[verifier::ext_equal]
pub struct CandidateView {
    pub value: Seq<char>,
    pub score: u32,
    pub evidence: Seq<char>,
}

impl View for Candidate {
    type V = CandidateView;

    open spec fn view(&self) -> CandidateView {
        CandidateView {
            value: self.value@,
            score: self.score,
            evidence: self.evidence@,
        }
    }
}

impl Clone for Candidate {
    fn clone(&self) -> (r: Self)
        ensures
            r@ == self@,
    {
        Candidate {
            value: self.value.clone(),
            score: self.score,
            evidence: self.evidence.clone(),
        }
    }
}

/// What a justfile reveals: recipes, modules, the variables it reads from the environment, the
/// variables it sets for recipes, and the recipe bodies themselves so a direct command can be
/// recovered without inventing one.
#[derive(Debug)]
pub struct JustFacts {
    pub recipes: Vec<String>,
    pub modules: Vec<String>,
    pub env_variables: Vec<String>,
    pub exported_parameters: Vec<String>,
    pub recipe_bodies: Dict<String>,
    /// Just variable name to the environment variable it reads.
    pub variables: Dict<String>,
}

/// The contents of a [`JustFacts`].
#[verifier::ext_equal]
pub struct JustFactsView {
    pub recipes: Seq<Seq<char>>,
    pub modules: Seq<Seq<char>>,
    pub env_variables: Seq<Seq<char>>,
    pub exported_parameters: Seq<Seq<char>>,
    pub recipe_bodies: Seq<(Seq<char>, Seq<char>)>,
    pub variables: Seq<(Seq<char>, Seq<char>)>,
}

impl View for JustFacts {
    type V = JustFactsView;

    open spec fn view(&self) -> JustFactsView {
        JustFactsView {
            recipes: text::views(self.recipes@),
            modules: text::views(self.modules@),
            env_variables: text::views(self.env_variables@),
            exported_parameters: text::views(self.exported_parameters@),
            recipe_bodies: self.recipe_bodies@,
            variables: self.variables@,
        }
    }
}

impl Clone for JustFacts {
    fn clone(&self) -> (r: Self)
        ensures
            r@ == self@,
    {
        JustFacts {
            recipes: text::clone_texts(&self.recipes),
            modules: text::clone_texts(&self.modules),
            env_variables: text::clone_texts(&self.env_variables),
            exported_parameters: text::clone_texts(&self.exported_parameters),
            recipe_bodies: self.recipe_bodies.duplicate(),
            variables: self.variables.duplicate(),
        }
    }
}

// ---------------------------------------------------------------------------
// Port mappings
// ---------------------------------------------------------------------------

/// How deep in braces the text is before position `i`.
pub open spec fn brace_depth(raw: Seq<char>, i: int) -> int
    decreases i,
{
    if i <= 0 {
        0
    } else {
        let before = brace_depth(raw, i - 1);
        if raw[i - 1] == '$' && i < raw.len() && raw[i] == '{' {
            before + 1
        } else if raw[i - 1] == '}' && before > 0 {
            before - 1
        } else {
            before
        }
    }
}

/// Whether a `:` at brace depth zero stands at `i`.
pub open spec fn separates(raw: Seq<char>, i: int) -> bool {
    0 <= i < raw.len() && raw[i] == ':' && brace_depth(raw, i) == 0
}

/// The parts of a mapping that end before `i`.
pub open spec fn parts_before(raw: Seq<char>, i: int) -> Seq<Seq<char>>
    decreases i,
{
    if i <= 0 {
        Seq::empty()
    } else if separates(raw, i - 1) {
        parts_before(raw, i - 1).push(raw.subrange(part_start(raw, i - 1), i - 1))
    } else {
        parts_before(raw, i - 1)
    }
}

/// Where the part that holds position `i` starts.
pub open spec fn part_start(raw: Seq<char>, i: int) -> int
    decreases i,
{
    if i <= 0 {
        0
    } else if separates(raw, i - 1) {
        i
    } else {
        part_start(raw, i - 1)
    }
}

/// A compose port mapping split on `:` at brace depth zero, so a default value inside
/// `${VAR:-default}` is not mistaken for a separator.
pub open spec fn mapping_parts(raw: Seq<char>) -> Seq<Seq<char>> {
    let n = raw.len() as int;
    parts_before(raw, n).push(raw.subrange(part_start(raw, n), n))
}

/// The variable that a `${..}` in the text names.
pub open spec fn variable_in(host: Seq<char>) -> Option<Seq<char>> {
    match text::find_of(host, "${"@) {
        None => None,
        Some(start) => {
            let rest = host.skip(start + 2);
            match text::index_of(rest, '}') {
                None => None,
                Some(end) => Some(text::trim_of(before_default(rest.take(end)))),
            }
        },
    }
}

/// What stands before the first `:-`.
pub open spec fn before_default(inner: Seq<char>) -> Seq<char> {
    match text::find_of(inner, ":-"@) {
        Some(i) => inner.take(i),
        None => inner,
    }
}

/// What stands before the first `c`.
pub open spec fn up_to(s: Seq<char>, c: char) -> Seq<char> {
    match text::index_of(s, c) {
        Some(i) => s.take(i),
        None => s,
    }
}

/// A mapping as written, without the space and the quotes around it.
pub open spec fn bare_mapping(raw: Seq<char>) -> Seq<char> {
    text::without_trailing(text::without_leading(text::trim_of(raw), '"'), '"')
}

/// The port of the container in a mapping.
pub open spec fn target_of(raw: Seq<char>) -> Option<u16> {
    text::port_of(text::trim_of(up_to(mapping_parts(bare_mapping(raw)).last(), '/')))
}

/// The variable on the host side of a mapping.
pub open spec fn host_variable_of(raw: Seq<char>) -> Option<Seq<char>> {
    let parts = mapping_parts(bare_mapping(raw));
    if parts.len() < 2 {
        None
    } else {
        variable_in(text::trim_of(parts[parts.len() - 2]))
    }
}

fn before(s: &str, c: char) -> (r: String)
    ensures
        r@ == up_to(s@, c),
{
    match text::index(s, c) {
        Some(i) => text::take(s, i),
        None => text::own(s),
    }
}

fn split_mapping(raw: &str) -> (r: Vec<String>)
    ensures
        text::views(r@) == mapping_parts(raw@),
{
    let v = text::chars(raw);
    let ghost all = raw@;
    let mut parts: Vec<String> = Vec::new();
    let mut depth: usize = 0;
    let mut start: usize = 0;
    let mut i: usize = 0;
    assert(text::views(parts@) =~= Seq::<Seq<char>>::empty());
    while i < v.len()
        invariant
            v@ == all,
            start <= i <= v.len(),
            depth <= i,
            depth == brace_depth(all, i as int),
            start == part_start(all, i as int),
            text::views(parts@) == parts_before(all, i as int),
        decreases v@.len() - i,
    {
        let c = v[i];
        if c == '$' && i + 1 < v.len() && v[i + 1] == '{' {
            depth += 1;
        } else if c == '}' && depth > 0 {
            depth -= 1;
        } else if c == ':' && depth == 0 {
            text::add(&mut parts, &text::slice(&v, start, i));
            start = i + 1;
        }
        i += 1;
    }
    text::add(&mut parts, &text::slice(&v, start, v.len()));
    parts
}

fn variable_name(host: &str) -> (r: Option<String>)
    ensures
        text::opt_view(r) == variable_in(host@),
{
    proof {
        reveal_strlit("${");
    }
    match text::find(host, "${") {
        None => None,
        Some(start) => {
            let rest = text::skip(host, start + 2);
            match text::index(&rest, '}') {
                None => None,
                Some(end) => {
                    let inner = text::take(&rest, end);
                    let name = match text::find(&inner, ":-") {
                        Some(i) => text::take(&inner, i),
                        None => inner,
                    };
                    Some(text::trim(&name))
                },
            }
        },
    }
}

/// Terminal port of a compose mapping, and any variable name used for the host side.
/// `${WT_PORT_DB:-5432}:5432` yields target 5432 and variable WT_PORT_DB.
pub fn parse_port_mapping(raw: &str) -> (r: (Option<u16>, Option<String>))
    ensures
        r.0 == target_of(raw@),
        text::opt_view(r.1) == host_variable_of(raw@),
{
    let bare = text::strip_trailing(&text::strip_leading(&text::trim(raw), '"'), '"');
    let parts = split_mapping(&bare);
    let n = parts.len();
    assert(text::views(parts@).last() == parts@[n - 1]@);
    let target = text::parse_port(&text::trim(&before(&parts[n - 1], '/')));
    let variable = if n < 2 {
        None
    } else {
        assert(text::views(parts@)[n - 2] == parts@[n - 2]@);
        variable_name(&text::trim(&parts[n - 2]))
    };
    (target, variable)
}

// ---------------------------------------------------------------------------
// Justfiles
// ---------------------------------------------------------------------------

/// Whether a character is a letter or a digit of any script, as `char::is_alphanumeric` decides it.
pub uninterp spec fn alphanumeric(c: char) -> bool;

/// `char::is_alphanumeric`: the answer that [`alphanumeric`] names.
#[verifier::external_body]
fn is_alphanumeric(c: char) -> (r: bool)
    ensures
        r == alphanumeric(c),
{
    c.is_alphanumeric()
}

/// Whether a text is a name: ASCII letters, digits and underscores.
pub open spec fn plain_name(s: Seq<char>) -> bool {
    s.len() > 0 && forall|i: int| 0 <= i < s.len() ==> text::alnum(#[trigger] s[i]) || s[i] == '_'
}

/// The names between a marker and the next `quote`, on top of `names`.
pub open spec fn marked_names(
    rest: Seq<char>,
    marker: Seq<char>,
    quote: char,
    names: Seq<Seq<char>>,
) -> Seq<Seq<char>>
    decreases rest.len(),
{
    match text::find_of(rest, marker) {
        Some(start) => if marker.len() == 0 || start < 0 || start + marker.len() > rest.len() {
            names
        } else {
            let after = rest.skip(start + marker.len());
            let found = match text::index_of(after, quote) {
                Some(end) => if plain_name(text::trim_of(after.take(end))) {
                    dict::with_member(names, text::trim_of(after.take(end)))
                } else {
                    names
                },
                None => names,
            };
            marked_names(after, marker, quote, found)
        },
        None => names,
    }
}

/// Environment variable names a justfile reads from the ambient environment, in ascending order:
/// only `env("X")` and `env_var("X")` qualify.
pub open spec fn env_reads_of(raw: Seq<char>) -> Seq<Seq<char>> {
    let a = marked_names(raw, "env(\""@, '"', Seq::empty());
    let b = marked_names(raw, "env_var(\""@, '"', a);
    let c = marked_names(raw, "env('"@, '\'', b);
    marked_names(raw, "env_var('"@, '\'', c)
}

fn is_plain_name(s: &str) -> (r: bool)
    ensures
        r == plain_name(s@),
{
    let v = text::chars(s);
    let mut i: usize = 0;
    while i < v.len()
        invariant
            v@ == s@,
            i <= v@.len(),
            forall|k: int| 0 <= k < i ==> text::alnum(#[trigger] s@[k]) || s@[k] == '_',
        decreases v@.len() - i,
    {
        if !(text::is_alnum(v[i]) || v[i] == '_') {
            assert(!(text::alnum(s@[i as int]) || s@[i as int] == '_'));
            return false;
        }
        i += 1;
    }
    v.len() > 0
}

fn add_marked(raw: &str, marker: &str, quote: char, names: &mut Vec<String>)
    requires
        marker@.len() > 0,
    ensures
        text::views(final(names)@) == marked_names(raw@, marker@, quote, text::views(old(names)@)),
{
    let ghost goal = marked_names(raw@, marker@, quote, text::views(names@));
    let n: usize = text::length(marker);
    let mut rest = text::own(raw);
    loop
        invariant
            n == marker@.len(),
            n > 0,
            goal == marked_names(rest@, marker@, quote, text::views(names@)),
        ensures
            text::views(names@) == goal,
        decreases rest@.len(),
    {
        match text::find(&rest, marker) {
            None => {
                break;
            },
            Some(start) => {
                let after = text::skip(&rest, start + n);
                match text::index(&after, quote) {
                    Some(end) => {
                        let name = text::trim(&text::take(&after, end));
                        if is_plain_name(&name) {
                            dict::add_member(names, name);
                        }
                    },
                    None => {},
                }
                rest = after;
            },
        }
    }
}

/// Environment variable names a justfile reads from the ambient environment: only `env("X")` and
/// `env_var("X")` qualify. Values the justfile assigns, exports, or passes to a recipe are outputs:
/// an ambient value for those is overwritten rather than read.
pub fn env_reads(raw: &str) -> (r: Vec<String>)
    ensures
        text::views(r@) == env_reads_of(raw@),
{
    let mut names: Vec<String> = Vec::new();
    assert(text::views(names@) =~= Seq::<Seq<char>>::empty());
    proof {
        reveal_strlit("env(\"");
        reveal_strlit("env_var(\"");
        reveal_strlit("env('");
        reveal_strlit("env_var('");
    }
    add_marked(raw, "env(\"", '"', &mut names);
    add_marked(raw, "env_var(\"", '"', &mut names);
    add_marked(raw, "env('", '\'', &mut names);
    add_marked(raw, "env_var('", '\'', &mut names);
    names
}

/// Where the name that starts at `i` ends.
pub open spec fn name_end(s: Seq<char>, i: int) -> int
    decreases s.len() - i,
{
    if 0 <= i < s.len() && (text::alnum(s[i]) || s[i] == '_') {
        name_end(s, i + 1)
    } else {
        i
    }
}

/// The name that a `$` at `i` sets, where an `=` follows it.
pub open spec fn set_at(line: Seq<char>, i: int) -> Option<Seq<char>> {
    let end = name_end(line, i + 1);
    let rest = text::trim_start_of(line.skip(end));
    if line[i] == '$' && end > i + 1 && rest.len() > 0 && rest[0] == '=' {
        Some(line.subrange(i + 1, end))
    } else {
        None
    }
}

/// The names that the first `k` characters of a line set, on top of `names`.
pub open spec fn set_in_line(line: Seq<char>, k: int, names: Seq<Seq<char>>) -> Seq<Seq<char>>
    decreases k,
{
    if k <= 0 {
        names
    } else {
        let before = set_in_line(line, k - 1, names);
        match set_at(line, k - 1) {
            Some(name) => dict::with_member(before, name),
            None => before,
        }
    }
}

/// The names that the first `k` lines set.
pub open spec fn set_in_lines(lines: Seq<Seq<char>>, k: int) -> Seq<Seq<char>>
    decreases k,
{
    if k <= 0 {
        Seq::empty()
    } else {
        set_in_line(lines[k - 1], lines[k - 1].len() as int, set_in_lines(lines, k - 1))
    }
}

fn set_name(v: &Vec<char>, i: usize) -> (r: Option<String>)
    requires
        i < v.len(),
    ensures
        text::opt_view(r) == set_at(v@, i as int),
{
    if v[i] != '$' {
        return None;
    }
    let mut end: usize = i + 1;
    while end < v.len() && (text::is_alnum(v[end]) || v[end] == '_')
        invariant
            i < end <= v.len(),
            name_end(v@, i + 1) == name_end(v@, end as int),
        decreases v@.len() - end,
    {
        end += 1;
    }
    let rest = text::trim_start(&text::slice(v, end, v.len()));
    assert(v@.subrange(end as int, v@.len() as int) =~= v@.skip(end as int));
    if end > i + 1 && text::length(&rest) > 0 && rest.as_str().get_char(0) == '=' {
        Some(text::slice(v, i + 1, end))
    } else {
        None
    }
}

/// Names a justfile sets for a recipe with `$NAME=`. An ambient value for these is overwritten by
/// the parameter, so they are not inputs.
pub fn exported_parameters(raw: &str) -> (r: Vec<String>)
    ensures
        text::views(r@) == set_in_lines(text::lines_of(raw@), text::lines_of(raw@).len() as int),
{
    let lines = text::lines(raw);
    let ghost all = text::views(lines@);
    let mut names: Vec<String> = Vec::new();
    let mut k: usize = 0;
    assert(text::views(names@) =~= Seq::<Seq<char>>::empty());
    while k < lines.len()
        invariant
            all == text::views(lines@),
            k <= lines@.len(),
            text::views(names@) == set_in_lines(all, k as int),
        decreases lines@.len() - k,
    {
        let v = text::chars(&lines[k]);
        let ghost before = text::views(names@);
        assert(all[k as int] == v@);
        let mut i: usize = 0;
        while i < v.len()
            invariant
                i <= v@.len(),
                text::views(names@) == set_in_line(v@, i as int, before),
            decreases v@.len() - i,
        {
            if let Some(name) = set_name(&v, i) {
                dict::add_member(&mut names, name);
            }
            i += 1;
        }
        k += 1;
    }
    names
}

/// Whether a line begins with a space or a tab.
pub open spec fn indented(line: Seq<char>) -> bool {
    line.len() > 0 && (line[0] == ' ' || line[0] == '\t')
}

/// Whether a line holds neither a recipe nor a variable.
pub open spec fn passed_over(line: Seq<char>) -> bool {
    text::trim_of(line).len() == 0 || indented(line) || line[0] == '#' || line[0] == '['
}

/// Whether a line is a directive.
pub open spec fn directive(line: Seq<char>) -> bool {
    text::starts_with_of(line, "set "@) || text::starts_with_of(line, "import "@)
        || text::starts_with_of(line, "alias "@) || text::starts_with_of(line, "unexport "@)
}

/// Whether a text can name a recipe.
pub open spec fn recipe_name(name: Seq<char>) -> bool {
    forall|i: int|
        0 <= i < name.len() ==> alphanumeric(#[trigger] name[i]) || name[i] == '-' || name[i] == '_'
}

/// Where the indented body that starts at line `i` ends.
pub open spec fn body_end(lines: Seq<Seq<char>>, i: int) -> int
    decreases lines.len() - i,
{
    if 0 <= i < lines.len() && text::trim_of(lines[i]).len() > 0 && indented(lines[i]) {
        body_end(lines, i + 1)
    } else {
        i
    }
}

/// The lines of a body, without the space around them.
pub open spec fn body_lines(lines: Seq<Seq<char>>, from: int, to: int) -> Seq<Seq<char>> {
    Seq::new((to - from) as nat, |k: int| text::trim_of(lines[from + k]))
}

/// What one line says: what is known after it, and the line to go on with.
pub open spec fn just_line(lines: Seq<Seq<char>>, i: int, facts: JustFactsView) -> (
    JustFactsView,
    int,
) {
    let line = lines[i];
    if passed_over(line) {
        (facts, i + 1)
    } else if text::starts_with_of(line, "mod "@) {
        let rest = line.skip(4);
        if text::words_of(rest).len() > 0 {
            (
                JustFactsView { modules: facts.modules.push(text::words_of(rest)[0]), ..facts },
                i + 1,
            )
        } else {
            (facts, i + 1)
        }
    } else if directive(line) {
        (facts, i + 1)
    } else {
        match text::split_once_of(line, ':') {
            None => (facts, i + 1),
            Some((head, rest)) => {
                let name = text::trim_of(text::first_word_of(head));
                let bound = text::trim_start_of(rest);
                if name.len() == 0 {
                    (facts, i + 1)
                } else if (bound.len() > 0 && bound[0] == '=') || text::starts_with_of(
                    line,
                    "export "@,
                ) {
                    let reads = env_reads_of(
                        text::trim_of(text::without_leading(bound, '=')),
                    );
                    if reads.len() > 0 {
                        (
                            JustFactsView {
                                variables: dict::put(facts.variables, name, reads[0]),
                                ..facts
                            },
                            i + 1,
                        )
                    } else {
                        (facts, i + 1)
                    }
                } else if !recipe_name(name) {
                    (facts, i + 1)
                } else {
                    let end = body_end(lines, i + 1);
                    (
                        JustFactsView {
                            recipes: facts.recipes.push(name),
                            recipe_bodies: dict::put(
                                facts.recipe_bodies,
                                name,
                                text::join_of(body_lines(lines, i + 1, end), "\n"@),
                            ),
                            ..facts
                        },
                        end,
                    )
                }
            },
        }
    }
}

proof fn body_end_bounds(lines: Seq<Seq<char>>, i: int)
    requires
        0 <= i <= lines.len(),
    ensures
        i <= body_end(lines, i) <= lines.len(),
    decreases lines.len() - i,
{
    if i < lines.len() && text::trim_of(lines[i]).len() > 0 && indented(lines[i]) {
        body_end_bounds(lines, i + 1);
    }
}

/// What the lines from `i` on say, on top of `facts`.
pub open spec fn just_lines(lines: Seq<Seq<char>>, i: int, facts: JustFactsView) -> JustFactsView
    decreases lines.len() - i,
{
    if i < 0 || i >= lines.len() {
        facts
    } else {
        let next = just_line(lines, i, facts);
        if next.1 <= i || next.1 > lines.len() {
            next.0
        } else {
            just_lines(lines, next.1, next.0)
        }
    }
}

/// The names with every value of the first `k` entries added.
pub open spec fn with_values(
    names: Seq<Seq<char>>,
    entries: Seq<(Seq<char>, Seq<char>)>,
    k: int,
) -> Seq<Seq<char>>
    decreases k,
{
    if k <= 0 {
        names
    } else {
        dict::with_member(with_values(names, entries, k - 1), entries[k - 1].1)
    }
}

/// What a justfile reveals. The variables it reads are those it reads anywhere and those it binds.
pub open spec fn justfile_of(raw: Seq<char>) -> JustFactsView {
    let lines = text::lines_of(raw);
    let facts = just_lines(
        lines,
        0,
        JustFactsView {
            recipes: Seq::empty(),
            modules: Seq::empty(),
            env_variables: Seq::empty(),
            exported_parameters: set_in_lines(lines, lines.len() as int),
            recipe_bodies: Seq::empty(),
            variables: Seq::empty(),
        },
    );
    JustFactsView {
        env_variables: with_values(
            env_reads_of(raw),
            facts.variables,
            facts.variables.len() as int,
        ),
        ..facts
    }
}

fn is_indented(line: &str) -> (r: bool)
    ensures
        r == indented(line@),
{
    text::length(line) > 0 && (line.get_char(0) == ' ' || line.get_char(0) == '\t')
}

fn is_recipe_name(name: &str) -> (r: bool)
    ensures
        r == recipe_name(name@),
{
    let v = text::chars(name);
    let mut i: usize = 0;
    while i < v.len()
        invariant
            v@ == name@,
            i <= v@.len(),
            forall|k: int|
                0 <= k < i ==> alphanumeric(#[trigger] name@[k]) || name@[k] == '-' || name@[k] == '_',
        decreases v@.len() - i,
    {
        if !(is_alphanumeric(v[i]) || v[i] == '-' || v[i] == '_') {
            assert(!(alphanumeric(name@[i as int]) || name@[i as int] == '-' || name@[i as int] == '_'));
            return false;
        }
        i += 1;
    }
    true
}

/// Reads the line at `i` of a justfile into `facts`, and gives the line to go on with.
fn read_just_line(lines: &Vec<String>, i: usize, facts: &mut JustFacts) -> (r: usize)
    requires
        i < lines.len(),
    ensures
        (final(facts)@, r as int) == just_line(text::views(lines@), i as int, old(facts)@),
        i < r <= lines.len(),
{
    let ghost all = text::views(lines@);
    let ghost start = facts@;
    let line = &lines[i];
    assert(all[i as int] == line@);
    let blank = text::length(&text::trim(line)) == 0;
    if blank || is_indented(line) {
        return i + 1;
    }
    proof {
        reveal_strlit("#");
        reveal_strlit("[");
        reveal_strlit("mod ");
        assert(line@.len() > 0 && line@[0] == '#' ==> line@.take(1) =~= "#"@);
        assert(line@.len() > 0 && line@[0] == '[' ==> line@.take(1) =~= "["@);
        assert(line@.len() > 0 ==> line@.take(1)[0] == line@[0]);
    }
    if text::starts_with(line, "#") || text::starts_with(line, "[") {
        return i + 1;
    }
    if text::starts_with(line, "mod ") {
        let words = text::words(&text::skip(line, 4));
        if words.len() > 0 {
            assert(text::views(words@)[0] == words@[0]@);
            text::add(&mut facts.modules, &words[0]);
        }
        return i + 1;
    }
    if text::starts_with(line, "set ") || text::starts_with(line, "import ") || text::starts_with(
        line,
        "alias ",
    ) || text::starts_with(line, "unexport ") {
        return i + 1;
    }
    match text::split_once(line, ':') {
        None => i + 1,
        Some((head, rest)) => {
            let name = text::trim(&text::first_word(&head));
            if text::length(&name) == 0 {
                return i + 1;
            }
            // `name := value` binds a variable; `export name := value` also exposes it.
            let bound = text::trim_start(&rest);
            if (text::length(&bound) > 0 && bound.as_str().get_char(0) == '=') || text::starts_with(
                line,
                "export ",
            ) {
                let reads = env_reads(&text::trim(&text::strip_leading(&bound, '=')));
                if reads.len() > 0 {
                    assert(text::views(reads@)[0] == reads@[0]@);
                    facts.variables.insert(name, reads[0].clone());
                }
                return i + 1;
            }
            if !is_recipe_name(&name) {
                return i + 1;
            }
            // Collect the indented body that follows.
            let mut body: Vec<String> = Vec::new();
            let mut cursor: usize = i + 1;
            assert(text::views(body@) =~= body_lines(all, i + 1, i + 1));
            while cursor < lines.len() && text::length(&text::trim(&lines[cursor])) > 0
                && is_indented(&lines[cursor])
                invariant
                    all == text::views(lines@),
                    i < cursor <= lines.len(),
                    body_end(all, i + 1) == body_end(all, cursor as int),
                    text::views(body@) == body_lines(all, i + 1, cursor as int),
                decreases lines@.len() - cursor,
            {
                let ghost before = text::views(body@);
                text::add(&mut body, &text::trim(&lines[cursor]));
                cursor += 1;
                assert(before.push(text::trim_of(all[cursor - 1])) =~= body_lines(
                    all,
                    i + 1,
                    cursor as int,
                ));
            }
            let joined = text::join(&body, "\n");
            text::add(&mut facts.recipes, &name);
            facts.recipe_bodies.insert(name, joined);
            cursor
        },
    }
}

/// What the text of a justfile reveals.
pub fn parse_justfile(raw: &str) -> (r: JustFacts)
    ensures
        r@ == justfile_of(raw@),
{
    let mut facts = JustFacts {
        recipes: Vec::new(),
        modules: Vec::new(),
        env_variables: Vec::new(),
        exported_parameters: exported_parameters(raw),
        recipe_bodies: Dict::new(),
        variables: Dict::new(),
    };
    let lines = text::lines(raw);
    let ghost all = text::views(lines@);
    let ghost start = facts@;
    assert(start.recipes =~= Seq::<Seq<char>>::empty());
    assert(start.modules =~= Seq::<Seq<char>>::empty());
    assert(start.env_variables =~= Seq::<Seq<char>>::empty());
    let mut i: usize = 0;
    while i < lines.len()
        invariant
            all == text::views(lines@),
            i <= lines.len(),
            just_lines(all, 0, start) == just_lines(all, i as int, facts@),
        decreases lines@.len() - i,
    {
        i = read_just_line(&lines, i, &mut facts);
    }
    let mut names = env_reads(raw);
    let ghost reads = text::views(names@);
    let ghost bound = facts.variables@;
    let n: usize = facts.variables.len();
    let mut k: usize = 0;
    while k < n
        invariant
            bound == facts.variables@,
            n == bound.len(),
            k <= n,
            text::views(names@) == with_values(reads, bound, k as int),
        decreases n - k,
    {
        dict::add_member(&mut names, facts.variables.value_at(k).clone());
        k += 1;
    }
    facts.env_variables = names;
    facts
}

// ---------------------------------------------------------------------------
// Inlining a recipe
// ---------------------------------------------------------------------------

/// Whether a line only rejects a case, such as
/// `{{ if mode == "ui" { error(...) } else { "" } }}`.
pub open spec fn guard_line(line: Seq<char>) -> bool {
    text::starts_with_of(line, "{{"@) && text::ends_with_of(line, "}}"@) && text::contains_of(
        line,
        "error("@,
    )
}

/// The commands among the first `k` lines.
pub open spec fn commands_in(lines: Seq<Seq<char>>, k: int) -> Seq<Seq<char>>
    decreases k,
{
    if k <= 0 {
        Seq::empty()
    } else {
        let line = text::trim_of(lines[k - 1]);
        if line.len() == 0 || guard_line(line) {
            commands_in(lines, k - 1)
        } else {
            commands_in(lines, k - 1).push(line)
        }
    }
}

/// A command with its first `{{name}}` replaced by `$VARIABLE`; none where the template is not
/// closed or names no variable that is read from the environment.
pub open spec fn substituted(
    command: Seq<char>,
    start: int,
    variables: Seq<(Seq<char>, Seq<char>)>,
) -> Option<Seq<char>> {
    match text::find_from(command, "}}"@, start) {
        None => None,
        Some(end) => match dict::lookup(
            variables,
            text::trim_of(command.subrange(start + 2, end)),
        ) {
            None => None,
            Some(environment) => Some(
                command.take(start) + "$"@ + environment + command.skip(end + 2),
            ),
        },
    }
}

/// How many templates are replaced before a command counts as one that is never used up: the name
/// that stands in for a template may bring templates of its own.
pub const SUBSTITUTIONS: u64 = 0xffff_ffff_ffff_ffff;

/// A command with every template replaced, of which there are at most `left`.
pub open spec fn expanded(
    command: Seq<char>,
    variables: Seq<(Seq<char>, Seq<char>)>,
    left: int,
) -> Option<Seq<char>>
    decreases left,
{
    match text::find_of(command, "{{"@) {
        None => Some(command),
        Some(start) => if left <= 0 {
            None
        } else {
            match substituted(command, start, variables) {
                None => None,
                Some(next) => expanded(next, variables, left - 1),
            }
        },
    }
}

/// The single shell command of a recipe body.
pub open spec fn inlined(body: Seq<char>, variables: Seq<(Seq<char>, Seq<char>)>) -> Option<
    Seq<char>,
> {
    let lines = text::lines_of(body);
    let commands = commands_in(lines, lines.len() as int);
    if commands.len() != 1 {
        None
    } else {
        expanded(commands[0], variables, SUBSTITUTIONS as int)
    }
}

fn substitute(command: &str, start: usize, variables: &Dict<String>) -> (r: Option<String>)
    requires
        text::stands_at(command@, "{{"@, start as int),
    ensures
        text::opt_view(r) == substituted(command@, start as int, variables@),
{
    proof {
        reveal_strlit("{{");
        reveal_strlit("}}");
        text::find_from_is_least(command@, "}}"@, start as int);
    }
    let v = text::chars(command);
    let closing = text::chars("}}");
    match text::find_chars(&v, &closing, start) {
        None => None,
        Some(end) => {
            proof {
                assert(command@.subrange(start as int, start + 2)[0] == '{');
                assert(command@.subrange(start as int, start + 2)[1] == '{');
                assert(command@.subrange(end as int, end + 2)[0] == '}');
                assert(command@.subrange(end as int, end + 2) == "}}"@);
            }
            let inner = text::trim(&text::slice(&v, start + 2, end));
            match variables.get(&inner) {
                None => None,
                Some(environment) => {
                    let mut out = text::take(command, start);
                    out.append("$");
                    out.append(environment);
                    out.append(&text::skip(command, end + 2));
                    Some(out)
                },
            }
        },
    }
}

/// Recover a single shell command from a recipe body, substituting just variables that are read
/// from the environment with their environment form. Returns `None` when the body cannot be reduced
/// to one plain command.
pub fn inline_recipe(body: &str, variables: &Dict<String>) -> (r: Option<String>)
    ensures
        text::opt_view(r) == inlined(body@, variables@),
{
    let lines = text::lines(body);
    let ghost all = text::views(lines@);
    let mut commands: Vec<String> = Vec::new();
    let mut k: usize = 0;
    assert(text::views(commands@) =~= Seq::<Seq<char>>::empty());
    while k < lines.len()
        invariant
            all == text::views(lines@),
            k <= lines@.len(),
            text::views(commands@) == commands_in(all, k as int),
        decreases lines@.len() - k,
    {
        assert(all[k as int] == lines@[k as int]@);
        let line = text::trim(&lines[k]);
        // A guard such as `{{ if mode == "ui" { error(...) } else { "" } }}` only exists to reject a
        // case that is not reproduced.
        let guard = text::starts_with(&line, "{{") && text::ends_with(&line, "}}")
            && text::contains(&line, "error(");
        if text::length(&line) == 0 || guard {
        } else {
            text::add(&mut commands, &line);
        }
        k += 1;
    }
    if commands.len() != 1 {
        return None;
    }
    assert(text::views(commands@)[0] == commands@[0]@);
    let mut command = commands[0].clone();
    let ghost first = command@;
    let mut left: u64 = SUBSTITUTIONS;
    loop
        invariant
            expanded(first, variables@, SUBSTITUTIONS as int) == expanded(
                command@,
                variables@,
                left as int,
            ),
            text::views(commands@).len() == 1,
            first == text::views(commands@)[0],
            text::views(commands@) == commands_in(text::lines_of(body@), text::lines_of(body@).len() as int),
        decreases left,
    {
        proof {
            text::find_from_is_least(command@, "{{"@, 0);
        }
        match text::find(&command, "{{") {
            None => {
                return Some(command);
            },
            Some(start) => {
                if left == 0 {
                    return None;
                }
                match substitute(&command, start, variables) {
                    None => {
                        return None;
                    },
                    Some(next) => {
                        command = next;
                        left -= 1;
                    },
                }
            },
        }
    }
}

// ---------------------------------------------------------------------------
// Reading documents
// ---------------------------------------------------------------------------

/// The texts among the first `k` values.
pub open spec fn texts_in(items: Seq<Value>, k: int) -> Seq<Seq<char>>
    decreases k,
{
    if k <= 0 {
        Seq::empty()
    } else {
        match items[k - 1].text_of() {
            Some(s) => texts_in(items, k - 1).push(s),
            None => texts_in(items, k - 1),
        }
    }
}

/// The texts of a list, or the one text that stands in its place.
pub open spec fn string_list_of(value: Option<Value>) -> Seq<Seq<char>> {
    match value {
        Some(Value::List(items)) => texts_in(items@, items@.len() as int),
        Some(Value::Text(s)) => seq![s@],
        _ => Seq::empty(),
    }
}

/// The text of a key.
pub open spec fn key_text(key: Value) -> Seq<char> {
    match key.text_of() {
        Some(s) => s,
        None => ""@,
    }
}

/// The keys of a table.
pub open spec fn keys_of(value: Option<Value>) -> Seq<Seq<char>> {
    match value {
        Some(table) => Seq::new(table.entries_of().len(), |i: int| key_text(table.entries_of()[i].0)),
        None => Seq::empty(),
    }
}

/// What an optional value holds under a key.
pub open spec fn under_of(value: Option<Value>, key: Seq<char>) -> Option<Value> {
    match value {
        Some(table) => table.get_of(key),
        None => None,
    }
}

fn list_texts(items: &Vec<Value>) -> (r: Vec<String>)
    ensures
        text::views(r@) == texts_in(items@, items@.len() as int),
{
    let mut out: Vec<String> = Vec::new();
    let mut k: usize = 0;
    assert(text::views(out@) =~= Seq::<Seq<char>>::empty());
    while k < items.len()
        invariant
            k <= items@.len(),
            text::views(out@) == texts_in(items@, k as int),
        decreases items@.len() - k,
    {
        if let Some(s) = items[k].as_text() {
            text::add(&mut out, s);
        }
        k += 1;
    }
    out
}

/// What an exec reference stands for.
pub open spec fn held(value: Option<&Value>) -> Option<Value> {
    match value {
        Some(v) => Some(*v),
        None => None,
    }
}

fn string_list(value: Option<&Value>) -> (r: Vec<String>)
    ensures
        text::views(r@) == string_list_of(held(value)),
{
    match value {
        Some(Value::List(items)) => list_texts(items),
        Some(Value::Text(s)) => text::single(s.clone()),
        _ => {
            let r: Vec<String> = Vec::new();
            assert(text::views(r@) =~= Seq::<Seq<char>>::empty());
            r
        },
    }
}

fn key_name(key: &Value) -> (r: String)
    ensures
        r@ == key_text(*key),
{
    match key.as_text() {
        Some(s) => s.clone(),
        None => text::own(""),
    }
}

fn keys(value: Option<&Value>) -> (r: Vec<String>)
    ensures
        text::views(r@) == keys_of(held(value)),
{
    let mut out: Vec<String> = Vec::new();
    assert(text::views(out@) =~= Seq::<Seq<char>>::empty());
    if let Some(table) = value {
        let n: usize = table.entry_count();
        let ghost goal = keys_of(Some(*table));
        let mut i: usize = 0;
        assert(text::views(out@) =~= goal.take(0));
        while i < n
            invariant
                n == table.entries_of().len(),
                goal == keys_of(Some(*table)),
                i <= n,
                text::views(out@) == goal.take(i as int),
            decreases n - i,
        {
            text::add(&mut out, &key_name(table.key(i)));
            i += 1;
            assert(text::views(out@) =~= goal.take(i as int));
        }
        assert(goal.take(i as int) =~= goal);
    }
    out
}

fn under<'a>(value: Option<&'a Value>, key: &str) -> (r: Option<&'a Value>)
    ensures
        held(r) == under_of(held(value), key@),
{
    match value {
        Some(table) => table.get(key),
        None => None,
    }
}

// ---------------------------------------------------------------------------
// Port literals of steps
// ---------------------------------------------------------------------------

/// A literal found in a step.
pub open spec fn labelled(literal: PortLiteralView, step: Seq<char>, body: Seq<char>) -> PortLiteralFactView {
    PortLiteralFactView {
        port: literal.port,
        kind: literal.kind,
        literal: literal.literal,
        container: Some(step),
        text: body,
    }
}

/// The literals of one step.
pub open spec fn step_literals(step: (Seq<char>, Seq<char>)) -> Seq<PortLiteralFactView> {
    let found = ports::scan_of(step.1);
    Seq::new(found.len(), |i: int| labelled(found[i], step.0, step.1))
}

/// The literals of the first `k` steps.
pub open spec fn literals_upto(steps: Seq<(Seq<char>, Seq<char>)>, k: int) -> Seq<
    PortLiteralFactView,
>
    decreases k,
{
    if k <= 0 {
        Seq::empty()
    } else {
        literals_upto(steps, k - 1) + step_literals(steps[k - 1])
    }
}

/// Port literals in a set of steps (a script, recipe, or process body), each labelled with the step
/// it came from.
pub open spec fn port_literals_of(steps: Seq<(Seq<char>, Seq<char>)>) -> Seq<PortLiteralFactView> {
    literals_upto(steps, steps.len() as int)
}

fn add_literals(out: &mut Vec<PortLiteralFact>, step: &str, body: &str)
    ensures
        text::views(final(out)@) == text::views(old(out)@) + step_literals((step@, body@)),
{
    let found = ports::scan(body);
    let ghost start = text::views(out@);
    let ghost goal = step_literals((step@, body@));
    let mut i: usize = 0;
    assert(text::views(out@) =~= start + goal.take(0));
    while i < found.len()
        invariant
            text::views(found@) == ports::scan_of(body@),
            goal == step_literals((step@, body@)),
            i <= found@.len(),
            text::views(out@) == start + goal.take(i as int),
        decreases found@.len() - i,
    {
        broadcast use text::views_push;

        assert(ports::scan_of(body@)[i as int] == found@[i as int]@);
        out.push(
            PortLiteralFact {
                port: found[i].port,
                kind: found[i].kind,
                literal: found[i].literal.clone(),
                container: Some(text::own(step)),
                text: text::own(body),
            },
        );
        i += 1;
        assert(text::views(out@) =~= start + goal.take(i as int));
    }
    assert(goal.take(i as int) =~= goal);
}

/// The name and the text of each script.
pub open spec fn script_steps(scripts: Seq<ScriptFactView>) -> Seq<(Seq<char>, Seq<char>)> {
    Seq::new(scripts.len(), |i: int| (scripts[i].name, scripts[i].command))
}

fn script_literals(scripts: &Vec<ScriptFact>) -> (r: Vec<PortLiteralFact>)
    ensures
        text::views(r@) == port_literals_of(script_steps(text::views(scripts@))),
{
    let ghost steps = script_steps(text::views(scripts@));
    let mut out: Vec<PortLiteralFact> = Vec::new();
    let mut k: usize = 0;
    assert(text::views(out@) =~= Seq::<PortLiteralFactView>::empty());
    while k < scripts.len()
        invariant
            steps == script_steps(text::views(scripts@)),
            k <= scripts@.len(),
            text::views(out@) == literals_upto(steps, k as int),
        decreases scripts@.len() - k,
    {
        assert(steps[k as int] == (scripts@[k as int].name@, scripts@[k as int].command@));
        add_literals(&mut out, &scripts[k].name, &scripts[k].command);
        k += 1;
    }
    out
}

fn body_literals(bodies: &Dict<String>) -> (r: Vec<PortLiteralFact>)
    ensures
        text::views(r@) == port_literals_of(bodies@),
{
    let mut out: Vec<PortLiteralFact> = Vec::new();
    let n: usize = bodies.len();
    let mut k: usize = 0;
    assert(text::views(out@) =~= Seq::<PortLiteralFactView>::empty());
    while k < n
        invariant
            n == bodies@.len(),
            k <= n,
            text::views(out@) == literals_upto(bodies@, k as int),
        decreases n - k,
    {
        add_literals(&mut out, bodies.key_at(k), bodies.value_at(k));
        k += 1;
    }
    out
}

// ---------------------------------------------------------------------------
// Compose files
// ---------------------------------------------------------------------------

/// A scalar as text.
pub open spec fn scalar_of(value: Value) -> Option<Seq<char>> {
    match value {
        Value::Text(s) => Some(s@),
        Value::Number(n) => Some(n@),
        Value::Bool(b) => Some(
            if b {
                "true"@
            } else {
                "false"@
            },
        ),
        _ => None,
    }
}

/// The scalar under a key, as text.
pub open spec fn scalar_under(value: Value, key: Seq<char>) -> Option<Seq<char>> {
    match value.get_of(key) {
        Some(v) => scalar_of(v),
        None => None,
    }
}

/// A port mapping as text.
pub open spec fn port_text(value: Value) -> Option<Seq<char>> {
    match value {
        Value::Text(s) => Some(s@),
        Value::Number(n) => Some(n@),
        Value::Table(_) => match scalar_under(value, "target"@) {
            None => None,
            Some(target) => match scalar_under(value, "published"@) {
                Some(published) => Some(published + ":"@ + target),
                None => Some(target),
            },
        },
        _ => None,
    }
}

/// The port mappings among the first `k` values.
pub open spec fn port_texts(items: Seq<Value>, k: int) -> Seq<Seq<char>>
    decreases k,
{
    if k <= 0 {
        Seq::empty()
    } else {
        match port_text(items[k - 1]) {
            Some(s) => port_texts(items, k - 1).push(s),
            None => port_texts(items, k - 1),
        }
    }
}

/// The texts among the first `k` keys.
pub open spec fn key_texts(entries: Seq<(Value, Value)>, k: int) -> Seq<Seq<char>>
    decreases k,
{
    if k <= 0 {
        Seq::empty()
    } else {
        match entries[k - 1].0.text_of() {
            Some(s) => key_texts(entries, k - 1).push(s),
            None => key_texts(entries, k - 1),
        }
    }
}

/// The services that one depends on: a list of names, or a table under their names.
pub open spec fn depends_of(value: Option<Value>) -> Seq<Seq<char>> {
    match value {
        Some(Value::List(items)) => texts_in(items@, items@.len() as int),
        Some(Value::Table(entries)) => key_texts(entries@, entries@.len() as int),
        _ => Seq::empty(),
    }
}

/// The command of a service: a text, or a list of arguments.
pub open spec fn command_of(value: Option<Value>) -> Option<Seq<char>> {
    match value {
        Some(Value::Text(s)) => Some(s@),
        Some(Value::List(items)) => Some(
            text::join_of(texts_in(items@, items@.len() as int), " "@),
        ),
        _ => None,
    }
}

/// What a compose file says of one service.
pub open spec fn compose_service_of(name: Seq<char>, service: Value) -> ComposeServiceFactView {
    ComposeServiceFactView {
        name,
        image: service.text_under("image"@),
        has_build: service.get_of("build"@) is Some,
        ports: port_texts(service.items_under("ports"@), service.items_under("ports"@).len() as int),
        depends_on: depends_of(service.get_of("depends_on"@)),
        has_healthcheck: service.get_of("healthcheck"@) is Some,
        profiles: string_list_of(service.get_of("profiles"@)),
        command: command_of(service.get_of("command"@)),
    }
}

/// A list of services with one at its place, by name, behind one of the same name.
pub open spec fn with_service(list: Seq<ComposeServiceFactView>, x: ComposeServiceFactView) -> Seq<
    ComposeServiceFactView,
>
    decreases list.len(),
{
    if list.len() == 0 || !text::before(x.name, list.last().name) {
        list.push(x)
    } else {
        with_service(list.drop_last(), x).push(list.last())
    }
}

/// The services among the first `k` entries, by name. An entry whose key is no text is left out.
pub open spec fn services_upto(entries: Seq<(Value, Value)>, k: int) -> Seq<ComposeServiceFactView>
    decreases k,
{
    if k <= 0 {
        Seq::empty()
    } else {
        match entries[k - 1].0.text_of() {
            Some(name) => with_service(
                services_upto(entries, k - 1),
                compose_service_of(name, entries[k - 1].1),
            ),
            None => services_upto(entries, k - 1),
        }
    }
}

/// Whether any service is built.
pub open spec fn any_built(services: Seq<ComposeServiceFactView>) -> bool {
    exists|i: int| 0 <= i < services.len() && (#[trigger] services[i]).has_build
}

/// Renders a scalar as text.
fn scalar(value: &Value) -> (r: Option<String>)
    ensures
        text::opt_view(r) == scalar_of(*value),
{
    match value {
        Value::Text(s) => Some(s.clone()),
        Value::Number(n) => Some(n.clone()),
        Value::Bool(b) => Some(
            if *b {
                text::own("true")
            } else {
                text::own("false")
            },
        ),
        _ => None,
    }
}

fn get_scalar(value: &Value, key: &str) -> (r: Option<String>)
    ensures
        text::opt_view(r) == scalar_under(*value, key@),
{
    match value.get(key) {
        Some(v) => scalar(v),
        None => None,
    }
}

fn port_string(value: &Value) -> (r: Option<String>)
    ensures
        text::opt_view(r) == port_text(*value),
{
    match value {
        Value::Text(s) => Some(s.clone()),
        Value::Number(n) => Some(n.clone()),
        Value::Table(_) => match get_scalar(value, "target") {
            None => None,
            Some(target) => match get_scalar(value, "published") {
                Some(published) => {
                    let mut out = published;
                    out.append(":");
                    out.append(&target);
                    Some(out)
                },
                None => Some(target),
            },
        },
        _ => None,
    }
}

fn depends_on(value: Option<&Value>) -> (r: Vec<String>)
    ensures
        text::views(r@) == depends_of(held(value)),
{
    match value {
        Some(Value::List(items)) => list_texts(items),
        Some(Value::Table(entries)) => {
            let mut out: Vec<String> = Vec::new();
            let mut k: usize = 0;
            assert(text::views(out@) =~= Seq::<Seq<char>>::empty());
            while k < entries.len()
                invariant
                    k <= entries@.len(),
                    text::views(out@) == key_texts(entries@, k as int),
                decreases entries@.len() - k,
            {
                if let Some(s) = entries[k].0.as_text() {
                    text::add(&mut out, s);
                }
                k += 1;
            }
            out
        },
        _ => {
            let r: Vec<String> = Vec::new();
            assert(text::views(r@) =~= Seq::<Seq<char>>::empty());
            r
        },
    }
}

fn compose_service(name: &str, service: &Value) -> (r: ComposeServiceFact)
    ensures
        r@ == compose_service_of(name@, *service),
{
    let mut ports: Vec<String> = Vec::new();
    assert(text::views(ports@) =~= Seq::<Seq<char>>::empty());
    if let Some(list) = service.get("ports") {
        let n: usize = list.item_count();
        let mut k: usize = 0;
        while k < n
            invariant
                n == list.items_of().len(),
                k <= n,
                text::views(ports@) == port_texts(list.items_of(), k as int),
            decreases n - k,
        {
            if let Some(s) = port_string(list.item(k)) {
                text::add(&mut ports, &s);
            }
            k += 1;
        }
    }
    let command = match service.get("command") {
        Some(Value::Text(s)) => Some(s.clone()),
        Some(Value::List(items)) => Some(text::join(&list_texts(items), " ")),
        _ => None,
    };
    ComposeServiceFact {
        name: text::own(name),
        image: match service.get_text("image") {
            Some(image) => Some(image.clone()),
            None => None,
        },
        has_build: service.get("build").is_some(),
        ports,
        depends_on: depends_on(service.get("depends_on")),
        has_healthcheck: service.get("healthcheck").is_some(),
        profiles: string_list(service.get("profiles")),
        command,
    }
}

fn place_service(list: &mut Vec<ComposeServiceFact>, x: ComposeServiceFact)
    ensures
        text::views(final(list)@) == with_service(text::views(old(list)@), x@),
{
    let ghost all = text::views(list@);
    let mut i: usize = list.len();
    assert(all.take(all.len() as int) =~= all);
    assert(with_service(all, x@) + all.skip(all.len() as int) =~= with_service(all, x@));
    while i > 0 && text::is_before(&x.name, &list[i - 1].name)
        invariant
            all == text::views(list@),
            i <= list@.len(),
            with_service(all, x@) == with_service(all.take(i as int), x@) + all.skip(i as int),
        decreases i,
    {
        assert(all.take(i as int).drop_last() =~= all.take(i - 1));
        assert(all.take(i as int).last() == all[i - 1]);
        assert(with_service(all.take(i - 1), x@).push(all[i - 1]) + all.skip(i as int)
            =~= with_service(all.take(i - 1), x@) + all.skip(i - 1));
        i -= 1;
    }
    assert(i > 0 ==> all.take(i as int).last() == all[i - 1]);
    let ghost view = x@;
    list.insert(i, x);
    assert(text::views(list@) =~= all.take(i as int).push(view) + all.skip(i as int));
}

fn compose_services(table: &Value) -> (r: Vec<ComposeServiceFact>)
    ensures
        text::views(r@) == services_upto(table.entries_of(), table.entries_of().len() as int),
{
    let mut out: Vec<ComposeServiceFact> = Vec::new();
    let n: usize = table.entry_count();
    let mut k: usize = 0;
    assert(text::views(out@) =~= Seq::<ComposeServiceFactView>::empty());
    while k < n
        invariant
            n == table.entries_of().len(),
            k <= n,
            text::views(out@) == services_upto(table.entries_of(), k as int),
        decreases n - k,
    {
        if let Some(name) = table.key(k).as_text() {
            place_service(&mut out, compose_service(name, table.under(k)));
        }
        k += 1;
    }
    out
}

fn has_built(services: &Vec<ComposeServiceFact>) -> (r: bool)
    ensures
        r == any_built(text::views(services@)),
{
    let ghost all = text::views(services@);
    let mut i: usize = 0;
    while i < services.len()
        invariant
            all == text::views(services@),
            i <= services@.len(),
            forall|k: int| 0 <= k < i ==> !(#[trigger] all[k]).has_build,
        decreases services@.len() - i,
    {
        if services[i].has_build {
            assert(all[i as int].has_build);
            return true;
        }
        i += 1;
    }
    false
}

// ---------------------------------------------------------------------------
// Package managers
// ---------------------------------------------------------------------------

/// Whether a directory has a file of this name.
pub open spec fn has_in(snapshot: SnapshotView, dir: Seq<char>, name: Seq<char>) -> bool {
    snapshot.file_at(paths::join_of(dir, name))
}

/// Package-manager install command implied by the lockfiles present.
pub open spec fn install_command_of(snapshot: SnapshotView, dir: Seq<char>) -> Option<Seq<char>> {
    if has_in(snapshot, dir, "pnpm-lock.yaml"@) {
        Some("pnpm install"@)
    } else if has_in(snapshot, dir, "yarn.lock"@) {
        Some("yarn install"@)
    } else if has_in(snapshot, dir, "bun.lockb"@) || has_in(snapshot, dir, "bun.lock"@) {
        Some("bun install"@)
    } else if has_in(snapshot, dir, "package-lock.json"@) {
        Some("npm install"@)
    } else if has_in(snapshot, dir, "uv.lock"@) {
        Some("uv sync --group dev"@)
    } else if has_in(snapshot, dir, "poetry.lock"@) {
        Some("poetry install"@)
    } else if has_in(snapshot, dir, "pyproject.toml"@) {
        Some("uv sync"@)
    } else if has_in(snapshot, dir, "package.json"@) {
        Some("npm install"@)
    } else {
        None
    }
}

/// The files of a directory among the first `k` names.
pub open spec fn present(
    snapshot: SnapshotView,
    dir: Seq<char>,
    names: Seq<Seq<char>>,
    k: int,
) -> Seq<Seq<char>>
    decreases k,
{
    if k <= 0 {
        Seq::empty()
    } else if has_in(snapshot, dir, names[k - 1]) {
        present(snapshot, dir, names, k - 1).push(names[k - 1])
    } else {
        present(snapshot, dir, names, k - 1)
    }
}

/// The files that an install depends on.
pub open spec fn install_files() -> Seq<Seq<char>> {
    seq![
        "pnpm-lock.yaml"@,
        "yarn.lock"@,
        "bun.lockb"@,
        "bun.lock"@,
        "package-lock.json"@,
        "package.json"@,
        "uv.lock"@,
        "poetry.lock"@,
        "pyproject.toml"@,
    ]
}

/// Install inputs, used as bootstrap cache keys.
pub open spec fn install_inputs_of(snapshot: SnapshotView, dir: Seq<char>) -> Seq<Seq<char>> {
    present(snapshot, dir, install_files(), install_files().len() as int)
}

/// The runner a package script is invoked through.
pub open spec fn node_runner_of(
    snapshot: SnapshotView,
    dir: Seq<char>,
    package_manager: Option<Seq<char>>,
) -> Seq<char> {
    let manager = match package_manager {
        Some(name) => name,
        None => match install_command_of(snapshot, dir) {
            Some(command) => text::first_word_of(command),
            None => ""@,
        },
    };
    if text::starts_with_of(manager, "pnpm"@) {
        "pnpm"@
    } else if text::starts_with_of(manager, "yarn"@) {
        "yarn"@
    } else if text::starts_with_of(manager, "bun"@) {
        "bun"@
    } else {
        "npm"@
    }
}

fn has(snapshot: &Snapshot, dir: &str, name: &str) -> (r: bool)
    ensures
        r == has_in(snapshot@, dir@, name@),
{
    snapshot.is_file(&paths::join(dir, name))
}

/// Package-manager install command implied by the lockfiles present.
pub fn install_command(snapshot: &Snapshot, app_root: &str) -> (r: Option<String>)
    ensures
        text::opt_view(r) == install_command_of(snapshot@, app_root@),
{
    if has(snapshot, app_root, "pnpm-lock.yaml") {
        return Some(text::own("pnpm install"));
    }
    if has(snapshot, app_root, "yarn.lock") {
        return Some(text::own("yarn install"));
    }
    if has(snapshot, app_root, "bun.lockb") || has(snapshot, app_root, "bun.lock") {
        return Some(text::own("bun install"));
    }
    if has(snapshot, app_root, "package-lock.json") {
        return Some(text::own("npm install"));
    }
    if has(snapshot, app_root, "uv.lock") {
        return Some(text::own("uv sync --group dev"));
    }
    if has(snapshot, app_root, "poetry.lock") {
        return Some(text::own("poetry install"));
    }
    if has(snapshot, app_root, "pyproject.toml") {
        return Some(text::own("uv sync"));
    }
    if has(snapshot, app_root, "package.json") {
        return Some(text::own("npm install"));
    }
    None
}

fn present_files(snapshot: &Snapshot, dir: &str, names: &Vec<String>) -> (r: Vec<String>)
    ensures
        text::views(r@) == present(snapshot@, dir@, text::views(names@), names@.len() as int),
{
    let ghost all = text::views(names@);
    let mut out: Vec<String> = Vec::new();
    let mut k: usize = 0;
    assert(text::views(out@) =~= Seq::<Seq<char>>::empty());
    while k < names.len()
        invariant
            all == text::views(names@),
            k <= names@.len(),
            text::views(out@) == present(snapshot@, dir@, all, k as int),
        decreases names@.len() - k,
    {
        assert(all[k as int] == names@[k as int]@);
        if has(snapshot, dir, &names[k]) {
            text::add(&mut out, &names[k]);
        }
        k += 1;
    }
    out
}

/// Install inputs, used as bootstrap cache keys.
pub fn install_inputs(snapshot: &Snapshot, app_root: &str) -> (r: Vec<String>)
    ensures
        text::views(r@) == install_inputs_of(snapshot@, app_root@),
{
    let names = text::texts(
        &[
            "pnpm-lock.yaml",
            "yarn.lock",
            "bun.lockb",
            "bun.lock",
            "package-lock.json",
            "package.json",
            "uv.lock",
            "poetry.lock",
            "pyproject.toml",
        ],
    );
    assert(text::views(names@) =~= install_files());
    present_files(snapshot, app_root, &names)
}

/// The runner a package script is invoked through. `packageManager` is optional, so the lockfiles
/// are the fallback rather than assuming npm.
pub fn node_runner(snapshot: &Snapshot, app_root: &str, package_manager: &Option<String>) -> (r:
    String)
    ensures
        r@ == node_runner_of(snapshot@, app_root@, text::opt_view(*package_manager)),
{
    let manager = match package_manager {
        Some(name) => name.clone(),
        None => match install_command(snapshot, app_root) {
            Some(command) => text::first_word(&command),
            None => text::own(""),
        },
    };
    // A manager we have no target for falls through to npm's spelling, so nothing is silently
    // reinterpreted.
    if text::starts_with(&manager, "pnpm") {
        text::own("pnpm")
    } else if text::starts_with(&manager, "yarn") {
        text::own("yarn")
    } else if text::starts_with(&manager, "bun") {
        text::own("bun")
    } else {
        text::own("npm")
    }
}

// ---------------------------------------------------------------------------
// Storybook
// ---------------------------------------------------------------------------

/// Whether a command line runs Storybook's dev server, however it is invoked.
pub open spec fn runs_storybook(command: Seq<char>) -> bool {
    let bare = text::trim_start_of(command);
    !text::contains_of(bare, "storybook build"@) && (text::contains_of(bare, "storybook dev"@)
        || text::contains_of(bare, "start-storybook"@))
}

/// Whether a script is conventionally named as the Storybook dev server.
pub open spec fn storybook_name(name: Seq<char>) -> bool {
    let low = text::lower_of(name);
    low == "storybook"@ || low == "storybook:dev"@ || low == "storybook-dev"@ || low == "sb"@
}

/// Whether a package script serves the Storybook dev server.
pub open spec fn storybook_script(script: ScriptFactView, declared: bool) -> bool {
    runs_storybook(script.command) || (declared && storybook_name(script.name))
}

/// Whether a dependency is part of Storybook.
pub open spec fn storybook_package(name: Seq<char>) -> bool {
    name == "storybook"@ || text::starts_with_of(name, "@storybook/"@)
}

/// Whether an app declares Storybook.
pub open spec fn storybook_declared(has_dir: bool, dependencies: Seq<Seq<char>>) -> bool {
    has_dir || exists|i: int| 0 <= i < dependencies.len() && storybook_package(#[trigger] dependencies[i])
}

/// Whether any script runs the dev server.
pub open spec fn any_runs_storybook(scripts: Seq<ScriptFactView>) -> bool {
    exists|i: int| 0 <= i < scripts.len() && runs_storybook((#[trigger] scripts[i]).command)
}

/// The steps among the first `k` scripts that serve Storybook.
pub open spec fn storybook_steps_upto(
    scripts: Seq<ScriptFactView>,
    declared: bool,
    runner: Seq<char>,
    k: int,
) -> Seq<Seq<char>>
    decreases k,
{
    if k <= 0 {
        Seq::empty()
    } else if storybook_script(scripts[k - 1], declared) {
        storybook_steps_upto(scripts, declared, runner, k - 1).push(
            runner + ":"@ + scripts[k - 1].name,
        )
    } else {
        storybook_steps_upto(scripts, declared, runner, k - 1)
    }
}

/// The entry points of a Storybook configuration.
pub open spec fn storybook_mains() -> Seq<Seq<char>> {
    seq!["main.ts"@, "main.mts"@, "main.cts"@, "main.js"@, "main.mjs"@, "main.cjs"@]
}

/// Where an app configures Storybook.
pub open spec fn storybook_dir(app_root: Seq<char>) -> Seq<char> {
    paths::join_of(app_root, ".storybook"@)
}

/// The file that the Storybook fact comes from: the entry point, or the package itself.
pub open spec fn storybook_source(snapshot: SnapshotView, app_root: Seq<char>) -> Seq<char> {
    let dir = storybook_dir(app_root);
    let mains = present(snapshot, dir, storybook_mains(), storybook_mains().len() as int);
    if snapshot.dir_at(dir) && mains.len() > 0 {
        paths::join_of(dir, mains[0])
    } else {
        paths::join_of(app_root, "package.json"@)
    }
}

/// What an app says about Storybook: where it says so, and what. Nothing where nothing indicates
/// Storybook, so an app is never asked about a tool it does not use.
pub open spec fn storybook_of(
    snapshot: SnapshotView,
    app_root: Seq<char>,
    scripts: Seq<ScriptFactView>,
    dependencies: Seq<Seq<char>>,
    package_manager: Option<Seq<char>>,
) -> Option<(Seq<char>, FactDataView)> {
    let has_dir = snapshot.dir_at(storybook_dir(app_root));
    let declared = storybook_declared(has_dir, dependencies);
    if !declared && !any_runs_storybook(scripts) {
        None
    } else {
        Some(
            (
                storybook_source(snapshot, app_root),
                FactDataView::Storybook {
                    config_dir: if has_dir {
                        Some(".storybook"@)
                    } else {
                        None
                    },
                    dev_scripts: storybook_steps_upto(
                        scripts,
                        declared,
                        node_runner_of(snapshot, app_root, package_manager),
                        scripts.len() as int,
                    ),
                    has_mcp: dependencies.contains("@storybook/addon-mcp"@),
                },
            ),
        )
    }
}

fn runs_storybook_dev(command: &str) -> (r: bool)
    ensures
        r == runs_storybook(command@),
{
    let bare = text::trim_start(command);
    !text::contains(&bare, "storybook build") && (text::contains(&bare, "storybook dev")
        || text::contains(&bare, "start-storybook"))
}

fn is_storybook_dev(script: &ScriptFact, declared: bool) -> (r: bool)
    ensures
        r == storybook_script(script@, declared),
{
    let low = text::to_lower(&script.name);
    runs_storybook_dev(&script.command) || (declared && (text::same(&low, "storybook") || text::same(
        &low,
        "storybook:dev",
    ) || text::same(&low, "storybook-dev") || text::same(&low, "sb")))
}

fn declares_storybook(has_dir: bool, dependencies: &Vec<String>) -> (r: bool)
    ensures
        r == storybook_declared(has_dir, text::views(dependencies@)),
{
    if has_dir {
        return true;
    }
    let ghost all = text::views(dependencies@);
    let mut i: usize = 0;
    while i < dependencies.len()
        invariant
            all == text::views(dependencies@),
            i <= dependencies@.len(),
            forall|k: int| 0 <= k < i ==> !storybook_package(#[trigger] all[k]),
        decreases dependencies@.len() - i,
    {
        assert(all[i as int] == dependencies@[i as int]@);
        if text::same(&dependencies[i], "storybook") || text::starts_with(
            &dependencies[i],
            "@storybook/",
        ) {
            assert(storybook_package(all[i as int]));
            return true;
        }
        i += 1;
    }
    false
}

fn any_storybook_script(scripts: &Vec<ScriptFact>) -> (r: bool)
    ensures
        r == any_runs_storybook(text::views(scripts@)),
{
    let ghost all = text::views(scripts@);
    let mut i: usize = 0;
    while i < scripts.len()
        invariant
            all == text::views(scripts@),
            i <= scripts@.len(),
            forall|k: int| 0 <= k < i ==> !runs_storybook((#[trigger] all[k]).command),
        decreases scripts@.len() - i,
    {
        if runs_storybook_dev(&scripts[i].command) {
            assert(runs_storybook(all[i as int].command));
            return true;
        }
        i += 1;
    }
    false
}

fn storybook_facts(
    snapshot: &Snapshot,
    app_root: &str,
    scripts: &Vec<ScriptFact>,
    dependencies: &Vec<String>,
    package_manager: &Option<String>,
) -> (r: Option<(String, FactData)>)
    ensures
        match r {
            Some((source, data)) => storybook_of(
                snapshot@,
                app_root@,
                text::views(scripts@),
                text::views(dependencies@),
                text::opt_view(*package_manager),
            ) == Some((source@, data@)),
            None => storybook_of(
                snapshot@,
                app_root@,
                text::views(scripts@),
                text::views(dependencies@),
                text::opt_view(*package_manager),
            ) is None,
        },
{
    let dir = paths::join(app_root, ".storybook");
    let has_dir = snapshot.is_dir(&dir);
    let declared = declares_storybook(has_dir, dependencies);
    // A script that runs the dev server is evidence on its own: a hoisted workspace can leave the
    // dependency list and the config directory somewhere discovery does not look from here.
    if !declared && !any_storybook_script(scripts) {
        return None;
    }
    let runner = node_runner(snapshot, app_root, package_manager);
    let ghost all = text::views(scripts@);
    let mut dev_scripts: Vec<String> = Vec::new();
    let mut k: usize = 0;
    assert(text::views(dev_scripts@) =~= Seq::<Seq<char>>::empty());
    while k < scripts.len()
        invariant
            all == text::views(scripts@),
            k <= scripts@.len(),
            text::views(dev_scripts@) == storybook_steps_upto(all, declared, runner@, k as int),
        decreases scripts@.len() - k,
    {
        assert(all[k as int] == scripts@[k as int]@);
        if is_storybook_dev(&scripts[k], declared) {
            let mut step = runner.clone();
            step.append(":");
            step.append(&scripts[k].name);
            text::add(&mut dev_scripts, &step);
        }
        k += 1;
    }
    let names = text::texts(
        &["main.ts", "main.mts", "main.cts", "main.js", "main.mjs", "main.cjs"],
    );
    assert(text::views(names@) =~= storybook_mains());
    let mains = present_files(snapshot, &dir, &names);
    let source = if has_dir && mains.len() > 0 {
        assert(text::views(mains@)[0] == mains@[0]@);
        paths::join(&dir, &mains[0])
    } else {
        paths::join(app_root, "package.json")
    };
    Some(
        (
            source,
            FactData::Storybook {
                config_dir: if has_dir {
                    Some(text::own(".storybook"))
                } else {
                    None
                },
                dev_scripts,
                has_mcp: text::among(dependencies, "@storybook/addon-mcp"),
            },
        ),
    )
}

// ---------------------------------------------------------------------------
// Facts of an app
// ---------------------------------------------------------------------------

/// The facts with one more: its id is its number, its source is shown relative to the root.
pub open spec fn with_fact(
    root: Seq<char>,
    facts: Seq<FactView>,
    path: Seq<char>,
    kind: FactKind,
    app: Option<Seq<char>>,
    confidence: Confidence,
    data: FactDataView,
) -> Seq<FactView> {
    facts.push(
        FactView {
            id: "f"@ + text::decimal_of(facts.len() + 1),
            source: paths::display_relative_of(path, root),
            kind,
            app,
            confidence,
            data,
        },
    )
}

/// The scripts of a package.
pub open spec fn scripts_of(value: Option<Value>) -> Seq<ScriptFactView> {
    match value {
        Some(table) => Seq::new(
            table.entries_of().len(),
            |i: int|
                ScriptFactView {
                    name: key_text(table.entries_of()[i].0),
                    command: key_text(table.entries_of()[i].1),
                },
        ),
        None => Seq::empty(),
    }
}

/// The packages that a package depends on.
pub open spec fn dependencies_of(value: Value) -> Seq<Seq<char>> {
    keys_of(value.get_of("dependencies"@)) + keys_of(value.get_of("devDependencies"@))
}

/// What a package.json says.
pub open spec fn node_data_of(value: Value) -> FactDataView {
    FactDataView::Node {
        name: value.text_under("name"@),
        package_manager: value.text_under("packageManager"@),
        scripts: scripts_of(value.get_of("scripts"@)),
        has_workspaces: value.get_of("workspaces"@) is Some,
        dependencies: dependencies_of(value),
        ports: port_literals_of(script_steps(scripts_of(value.get_of("scripts"@)))),
    }
}

/// The facts with those of an app's package.json.
pub open spec fn with_node(
    snapshot: SnapshotView,
    app: Seq<char>,
    app_root: Seq<char>,
    facts: Seq<FactView>,
) -> Seq<FactView> {
    let path = paths::join_of(app_root, "package.json"@);
    match snapshot.json_at(path) {
        None => facts,
        Some(value) => {
            let node = with_fact(
                snapshot.root,
                facts,
                path,
                FactKind::Node,
                Some(app),
                Confidence::High,
                node_data_of(value),
            );
            match storybook_of(
                snapshot,
                app_root,
                scripts_of(value.get_of("scripts"@)),
                dependencies_of(value),
                value.text_under("packageManager"@),
            ) {
                None => node,
                Some((source, data)) => with_fact(
                    snapshot.root,
                    node,
                    source,
                    FactKind::Storybook,
                    Some(app),
                    Confidence::High,
                    data,
                ),
            }
        },
    }
}

/// What a pyproject.toml says.
pub open spec fn python_data_of(snapshot: SnapshotView, app_root: Seq<char>, value: Value) -> FactDataView {
    FactDataView::Python {
        manager: if has_in(snapshot, app_root, "uv.lock"@) {
            "uv"@
        } else if has_in(snapshot, app_root, "poetry.lock"@) {
            "poetry"@
        } else {
            "pip"@
        },
        has_uv_lock: has_in(snapshot, app_root, "uv.lock"@),
        dependency_groups: keys_of(value.get_of("dependency-groups"@)),
        scripts: keys_of(under_of(value.get_of("project"@), "scripts"@)),
    }
}

/// The facts with those of an app's pyproject.toml.
pub open spec fn with_python(
    snapshot: SnapshotView,
    app: Seq<char>,
    app_root: Seq<char>,
    facts: Seq<FactView>,
) -> Seq<FactView> {
    let path = paths::join_of(app_root, "pyproject.toml"@);
    match snapshot.toml_at(path) {
        None => facts,
        Some(value) => with_fact(
            snapshot.root,
            facts,
            path,
            FactKind::Python,
            Some(app),
            Confidence::High,
            python_data_of(snapshot, app_root, value),
        ),
    }
}

/// What a justfile says; nothing where it could not be read.
pub open spec fn just_data_of(raw: Option<Seq<char>>) -> FactDataView {
    let just = match raw {
        Some(content) => justfile_of(content),
        None => JustFactsView {
            recipes: Seq::empty(),
            modules: Seq::empty(),
            env_variables: Seq::empty(),
            exported_parameters: Seq::empty(),
            recipe_bodies: Seq::empty(),
            variables: Seq::empty(),
        },
    };
    FactDataView::Just {
        recipes: just.recipes,
        modules: just.modules,
        env_variables: just.env_variables,
        exported_parameters: just.exported_parameters,
        recipe_bodies: just.recipe_bodies,
        variables: just.variables,
        ports: port_literals_of(just.recipe_bodies),
    }
}

/// The facts with those of the justfile in a directory.
pub open spec fn with_just(
    snapshot: SnapshotView,
    app: Option<Seq<char>>,
    dir: Seq<char>,
    facts: Seq<FactView>,
) -> Seq<FactView> {
    let path = paths::join_of(dir, "justfile"@);
    if snapshot.file_at(path) {
        with_fact(
            snapshot.root,
            facts,
            path,
            FactKind::Just,
            app,
            Confidence::High,
            just_data_of(snapshot.text_at(path)),
        )
    } else {
        facts
    }
}

/// What a mise.toml says; nothing where it could not be read.
pub open spec fn mise_data_of(value: Option<Value>) -> FactDataView {
    FactDataView::Mise {
        tasks: keys_of(under_of(value, "tasks"@)),
        tools: keys_of(under_of(value, "tools"@)),
        has_env: under_of(value, "env"@) is Some,
        has_profiles: under_of(value, "profiles"@) is Some,
    }
}

/// The facts with those of the mise.toml in a directory.
pub open spec fn with_mise(
    snapshot: SnapshotView,
    app: Option<Seq<char>>,
    dir: Seq<char>,
    facts: Seq<FactView>,
) -> Seq<FactView> {
    let path = paths::join_of(dir, "mise.toml"@);
    if snapshot.file_at(path) {
        with_fact(
            snapshot.root,
            facts,
            path,
            FactKind::Mise,
            app,
            Confidence::High,
            mise_data_of(snapshot.toml_at(path)),
        )
    } else {
        facts
    }
}

/// The directory of an app.
pub open spec fn app_root_of(root: Seq<char>, dir: Seq<char>) -> Seq<char> {
    if dir == "."@ {
        root
    } else {
        paths::join_of(root, dir)
    }
}

/// The facts with those of one app.
pub open spec fn with_app(
    snapshot: SnapshotView,
    app: AppFactsView,
    facts: Seq<FactView>,
) -> Seq<FactView> {
    let dir = app_root_of(snapshot.root, app.dir);
    let node = with_node(snapshot, app.id, dir, facts);
    let python = with_python(snapshot, app.id, dir, node);
    with_mise(snapshot, Some(app.id), dir, with_just(snapshot, Some(app.id), dir, python))
}

/// The facts with those of the first `k` apps.
pub open spec fn with_apps(
    snapshot: SnapshotView,
    apps: Seq<AppFactsView>,
    facts: Seq<FactView>,
    k: int,
) -> Seq<FactView>
    decreases k,
{
    if k <= 0 {
        facts
    } else {
        with_app(snapshot, apps[k - 1], with_apps(snapshot, apps, facts, k - 1))
    }
}

fn push_fact(
    snapshot: &Snapshot,
    facts: &mut Vec<Fact>,
    path: &str,
    kind: FactKind,
    app: Option<String>,
    confidence: Confidence,
    data: FactData,
)
    ensures
        text::views(final(facts)@) == with_fact(
            snapshot@.root,
            text::views(old(facts)@),
            path@,
            kind,
            text::opt_view(app),
            confidence,
            data@,
        ),
{
    let ghost before = facts@;
    let source = paths::display_relative(path, &snapshot.root);
    facts.push(Fact { id: text::own(""), source, kind, app, confidence, data });
    let n: usize = facts.len();
    let id = text::concat("f", &text::decimal(n as u64));
    if let Some(fact) = facts.pop() {
        let mut fact = fact;
        fact.id = id;
        facts.push(fact);
    }
    assert(facts@.drop_last() =~= before);
    assert(text::views(facts@) =~= with_fact(
        snapshot@.root,
        text::views(before),
        path@,
        kind,
        text::opt_view(app),
        confidence,
        data@,
    ));
}

fn package_scripts(value: Option<&Value>) -> (r: Vec<ScriptFact>)
    ensures
        text::views(r@) == scripts_of(held(value)),
{
    let mut out: Vec<ScriptFact> = Vec::new();
    assert(text::views(out@) =~= Seq::<ScriptFactView>::empty());
    if let Some(table) = value {
        let n: usize = table.entry_count();
        let ghost goal = scripts_of(Some(*table));
        let mut i: usize = 0;
        assert(text::views(out@) =~= goal.take(0));
        while i < n
            invariant
                n == table.entries_of().len(),
                goal == scripts_of(Some(*table)),
                i <= n,
                text::views(out@) == goal.take(i as int),
            decreases n - i,
        {
            broadcast use text::views_push;

            out.push(
                ScriptFact { name: key_name(table.key(i)), command: key_name(table.under(i)) },
            );
            i += 1;
            assert(text::views(out@) =~= goal.take(i as int));
        }
        assert(goal.take(i as int) =~= goal);
    }
    out
}

fn owned(s: Option<&String>) -> (r: Option<String>)
    ensures
        text::opt_view(r) == (match s {
            Some(value) => Some(value@),
            None => None::<Seq<char>>,
        }),
{
    match s {
        Some(value) => Some(value.clone()),
        None => None,
    }
}

fn extract_node(snapshot: &Snapshot, app: &str, app_root: &str, facts: &mut Vec<Fact>)
    ensures
        text::views(final(facts)@) == with_node(
            snapshot@,
            app@,
            app_root@,
            text::views(old(facts)@),
        ),
{
    let path = paths::join(app_root, "package.json");
    if let Some(value) = snapshot.read_json(&path) {
        let scripts = package_scripts(value.get("scripts"));
        let ports = script_literals(&scripts);
        let mut dependencies = keys(value.get("dependencies"));
        text::add_all(&mut dependencies, &keys(value.get("devDependencies")));
        let package_manager = owned(value.get_text("packageManager"));
        // Storybook is a server of its own rather than another way to start the app, so it is
        // recorded before the node fact takes the scripts.
        let storybook = storybook_facts(
            snapshot,
            app_root,
            &scripts,
            &dependencies,
            &package_manager,
        );
        push_fact(
            snapshot,
            facts,
            &path,
            FactKind::Node,
            Some(text::own(app)),
            Confidence::High,
            FactData::Node {
                name: owned(value.get_text("name")),
                package_manager,
                scripts,
                has_workspaces: value.get("workspaces").is_some(),
                dependencies,
                ports,
            },
        );
        if let Some((source, data)) = storybook {
            push_fact(
                snapshot,
                facts,
                &source,
                FactKind::Storybook,
                Some(text::own(app)),
                Confidence::High,
                data,
            );
        }
    }
}

fn extract_python(snapshot: &Snapshot, app: &str, app_root: &str, facts: &mut Vec<Fact>)
    ensures
        text::views(final(facts)@) == with_python(
            snapshot@,
            app@,
            app_root@,
            text::views(old(facts)@),
        ),
{
    let path = paths::join(app_root, "pyproject.toml");
    if let Some(value) = snapshot.read_toml(&path) {
        let has_uv_lock = has(snapshot, app_root, "uv.lock");
        let manager = if has_uv_lock {
            text::own("uv")
        } else if has(snapshot, app_root, "poetry.lock") {
            text::own("poetry")
        } else {
            text::own("pip")
        };
        push_fact(
            snapshot,
            facts,
            &path,
            FactKind::Python,
            Some(text::own(app)),
            Confidence::High,
            FactData::Python {
                manager,
                has_uv_lock,
                dependency_groups: keys(value.get("dependency-groups")),
                scripts: keys(under(value.get("project"), "scripts")),
            },
        );
    }
}

fn extract_just(snapshot: &Snapshot, app: Option<String>, dir: &str, facts: &mut Vec<Fact>)
    ensures
        text::views(final(facts)@) == with_just(
            snapshot@,
            text::opt_view(app),
            dir@,
            text::views(old(facts)@),
        ),
{
    let path = paths::join(dir, "justfile");
    if snapshot.is_file(&path) {
        let just = match snapshot.read(&path) {
            Some(raw) => parse_justfile(raw),
            None => {
                let just = JustFacts {
                    recipes: Vec::new(),
                    modules: Vec::new(),
                    env_variables: Vec::new(),
                    exported_parameters: Vec::new(),
                    recipe_bodies: Dict::new(),
                    variables: Dict::new(),
                };
                assert(just@.recipes =~= Seq::<Seq<char>>::empty());
                assert(just@.modules =~= Seq::<Seq<char>>::empty());
                assert(just@.env_variables =~= Seq::<Seq<char>>::empty());
                assert(just@.exported_parameters =~= Seq::<Seq<char>>::empty());
                just
            },
        };
        let ports = body_literals(&just.recipe_bodies);
        push_fact(
            snapshot,
            facts,
            &path,
            FactKind::Just,
            app,
            Confidence::High,
            FactData::Just {
                recipes: just.recipes,
                modules: just.modules,
                env_variables: just.env_variables,
                exported_parameters: just.exported_parameters,
                recipe_bodies: just.recipe_bodies,
                variables: just.variables,
                ports,
            },
        );
    }
}

fn extract_mise(snapshot: &Snapshot, app: Option<String>, dir: &str, facts: &mut Vec<Fact>)
    ensures
        text::views(final(facts)@) == with_mise(
            snapshot@,
            text::opt_view(app),
            dir@,
            text::views(old(facts)@),
        ),
{
    let path = paths::join(dir, "mise.toml");
    if snapshot.is_file(&path) {
        let document = snapshot.read_toml(&path);
        let value: Option<&Value> = match &document {
            Some(v) => Some(v),
            None => None,
        };
        push_fact(
            snapshot,
            facts,
            &path,
            FactKind::Mise,
            app,
            Confidence::High,
            FactData::Mise {
                tasks: keys(under(value, "tasks")),
                tools: keys(under(value, "tools")),
                has_env: under(value, "env").is_some(),
                has_profiles: under(value, "profiles").is_some(),
            },
        );
    }
}

/// The directory of an app.
pub fn app_root(root: &str, dir: &str) -> (r: String)
    ensures
        r@ == app_root_of(root@, dir@),
{
    if text::same(dir, ".") {
        text::own(root)
    } else {
        paths::join(root, dir)
    }
}

fn extract_app(snapshot: &Snapshot, app: &AppFacts, facts: &mut Vec<Fact>)
    ensures
        text::views(final(facts)@) == with_app(snapshot@, app@, text::views(old(facts)@)),
{
    let dir = app_root(&snapshot.root, &app.dir);
    extract_node(snapshot, &app.id, &dir, facts);
    extract_python(snapshot, &app.id, &dir, facts);
    extract_just(snapshot, Some(app.id.clone()), &dir, facts);
    extract_mise(snapshot, Some(app.id.clone()), &dir, facts);
}

// ---------------------------------------------------------------------------
// App directories
// ---------------------------------------------------------------------------

/// Whether a directory holds an app.
pub open spec fn app_dir(snapshot: SnapshotView, dir: Seq<char>) -> bool {
    has_in(snapshot, dir, "package.json"@) || has_in(snapshot, dir, "pyproject.toml"@) || has_in(
        snapshot,
        dir,
        "go.mod"@,
    ) || has_in(snapshot, dir, "Cargo.toml"@) || has_in(snapshot, dir, "justfile"@)
}

fn is_app_dir(snapshot: &Snapshot, dir: &str) -> (r: bool)
    ensures
        r == app_dir(snapshot@, dir@),
{
    has(snapshot, dir, "package.json") || has(snapshot, dir, "pyproject.toml") || has(
        snapshot,
        dir,
        "go.mod",
    ) || has(snapshot, dir, "Cargo.toml") || has(snapshot, dir, "justfile")
}

/// Whether a directory is generated and never descended into.
pub open spec fn generated(name: Seq<char>) -> bool {
    text::starts_with_of(name, "."@) || name == "node_modules"@ || name == "target"@ || name
        == "dist"@
}

/// The app directories below `dir`, relative to the root, on top of `out`. Generated trees are
/// never descended into, and nothing deeper than eight levels is looked at.
pub open spec fn app_dirs_below(
    snapshot: SnapshotView,
    dir: Seq<char>,
    depth: int,
    out: Seq<Seq<char>>,
) -> Seq<Seq<char>>
    decreases 9 - depth, 1int, 0int,
{
    if depth < 0 || depth > 8 {
        out
    } else {
        match snapshot.names_at(dir) {
            None => out,
            Some(names) => app_dirs_among(snapshot, dir, depth, names, names.len() as int, out),
        }
    }
}

/// The app directories that the first `k` names in `dir` lead to, on top of `out`.
pub open spec fn app_dirs_among(
    snapshot: SnapshotView,
    dir: Seq<char>,
    depth: int,
    names: Seq<Seq<char>>,
    k: int,
    out: Seq<Seq<char>>,
) -> Seq<Seq<char>>
    decreases 9 - depth, 0int, k,
{
    if k <= 0 || depth < 0 || depth > 8 {
        out
    } else {
        let before = app_dirs_among(snapshot, dir, depth, names, k - 1, out);
        let path = paths::join_of(dir, names[k - 1]);
        if generated(names[k - 1]) || !snapshot.dir_at(path) {
            before
        } else {
            let found = if app_dir(snapshot, path) {
                match paths::relative_of(path, snapshot.root) {
                    Some(relative) => dict::with_member(before, relative),
                    None => before,
                }
            } else {
                before
            };
            app_dirs_below(snapshot, path, depth + 1, found)
        }
    }
}

/// Recursively collect app directories under `dir`, recorded relative to the workspace root.
fn collect_app_dirs(snapshot: &Snapshot, dir: &str, depth: usize, out: &mut Vec<String>)
    requires
        depth <= 9,
    ensures
        text::views(final(out)@) == app_dirs_below(
            snapshot@,
            dir@,
            depth as int,
            text::views(old(out)@),
        ),
    decreases 9 - depth,
{
    if depth > 8 {
        return;
    }
    let ghost start = text::views(out@);
    if let Some(names) = snapshot.names(dir) {
        let ghost all = text::views(names@);
        let mut k: usize = 0;
        while k < names.len()
            invariant
                depth <= 8,
                all == text::views(names@),
                k <= names@.len(),
                text::views(out@) == app_dirs_among(
                    snapshot@,
                    dir@,
                    depth as int,
                    all,
                    k as int,
                    start,
                ),
            decreases names@.len() - k,
        {
            let name = &names[k];
            assert(all[k as int] == name@);
            let path = paths::join(dir, name);
            let skipped = text::starts_with(name, ".") || text::same(name, "node_modules")
                || text::same(name, "target") || text::same(name, "dist");
            if skipped || !snapshot.is_dir(&path) {
            } else {
                if is_app_dir(snapshot, &path) {
                    if let Some(relative) = paths::relative(&path, &snapshot.root) {
                        dict::add_member(out, relative);
                    }
                }
                collect_app_dirs(snapshot, &path, depth + 1, out);
            }
            k += 1;
        }
    }
}

/// The apps directly in a directory among its first `k` names, each under `prefix`.
pub open spec fn apps_in(
    snapshot: SnapshotView,
    dir: Seq<char>,
    prefix: Seq<char>,
    names: Seq<Seq<char>>,
    k: int,
) -> Seq<Seq<char>>
    decreases k,
{
    if k <= 0 {
        Seq::empty()
    } else {
        let before = apps_in(snapshot, dir, prefix, names, k - 1);
        let path = paths::join_of(dir, names[k - 1]);
        if snapshot.dir_at(path) && app_dir(snapshot, path) {
            dict::with_member(before, prefix + "/"@ + names[k - 1])
        } else {
            before
        }
    }
}

/// What precedes `/*` or `/*/` at the end of a pattern.
pub open spec fn star_prefix(pattern: Seq<char>) -> Option<Seq<char>> {
    match text::strip_suffix_of(pattern, "/*"@) {
        Some(prefix) => Some(prefix),
        None => text::strip_suffix_of(pattern, "/*/"@),
    }
}

/// The app directories that a workspace pattern matches, in ascending order: `apps/**` those at any
/// depth, `apps/*` those directly in it, any other pattern the directory it names.
pub open spec fn matched_by(snapshot: SnapshotView, pattern: Seq<char>) -> Seq<Seq<char>> {
    match text::strip_suffix_of(pattern, "/**"@) {
        Some(prefix) => app_dirs_below(
            snapshot,
            paths::join_of(snapshot.root, prefix),
            0,
            Seq::empty(),
        ),
        None => match star_prefix(pattern) {
            Some(prefix) => {
                let dir = paths::join_of(snapshot.root, prefix);
                match snapshot.names_at(dir) {
                    Some(names) => apps_in(snapshot, dir, prefix, names, names.len() as int),
                    None => Seq::empty(),
                }
            },
            None => if snapshot.dir_at(paths::join_of(snapshot.root, pattern)) {
                seq![pattern]
            } else {
                Seq::empty()
            },
        },
    }
}

/// A set with the first `k` of more members.
pub open spec fn with_members(set: Seq<Seq<char>>, more: Seq<Seq<char>>, k: int) -> Seq<Seq<char>>
    decreases k,
{
    if k <= 0 {
        set
    } else {
        dict::with_member(with_members(set, more, k - 1), more[k - 1])
    }
}

/// What the first `k` patterns match, together.
pub open spec fn matched_upto(snapshot: SnapshotView, patterns: Seq<Seq<char>>, k: int) -> Seq<
    Seq<char>,
>
    decreases k,
{
    if k <= 0 {
        Seq::empty()
    } else {
        let now = matched_by(snapshot, patterns[k - 1]);
        with_members(matched_upto(snapshot, patterns, k - 1), now, now.len() as int)
    }
}

/// The directories that workspace patterns match.
pub open spec fn expanded_globs(snapshot: SnapshotView, patterns: Seq<Seq<char>>) -> Seq<Seq<char>> {
    matched_upto(snapshot, patterns, patterns.len() as int)
}

/// What is said of the first `k` patterns: which of them match nothing.
pub open spec fn warnings_upto(snapshot: SnapshotView, patterns: Seq<Seq<char>>, k: int) -> Seq<
    Seq<char>,
>
    decreases k,
{
    if k <= 0 {
        Seq::empty()
    } else {
        let before = warnings_upto(snapshot, patterns, k - 1);
        if matched_by(snapshot, patterns[k - 1]).len() == 0 {
            before.push(
                "warning: workspace glob '"@ + patterns[k - 1] + "' matched no app directories"@,
            )
        } else {
            before
        }
    }
}

fn match_pattern(snapshot: &Snapshot, pattern: &str) -> (r: Vec<String>)
    ensures
        text::views(r@) == matched_by(snapshot@, pattern@),
{
    let mut out: Vec<String> = Vec::new();
    assert(text::views(out@) =~= Seq::<Seq<char>>::empty());
    if let Some(prefix) = text::strip_suffix(pattern, "/**") {
        collect_app_dirs(snapshot, &paths::join(&snapshot.root, &prefix), 0, &mut out);
        return out;
    }
    let prefix = match text::strip_suffix(pattern, "/*") {
        Some(prefix) => Some(prefix),
        None => text::strip_suffix(pattern, "/*/"),
    };
    match prefix {
        Some(prefix) => {
            let dir = paths::join(&snapshot.root, &prefix);
            if let Some(names) = snapshot.names(&dir) {
                let ghost all = text::views(names@);
                let mut k: usize = 0;
                while k < names.len()
                    invariant
                        all == text::views(names@),
                        k <= names@.len(),
                        text::views(out@) == apps_in(snapshot@, dir@, prefix@, all, k as int),
                    decreases names@.len() - k,
                {
                    assert(all[k as int] == names@[k as int]@);
                    let path = paths::join(&dir, &names[k]);
                    if snapshot.is_dir(&path) && is_app_dir(snapshot, &path) {
                        let mut name = prefix.clone();
                        name.append("/");
                        name.append(&names[k]);
                        dict::add_member(&mut out, name);
                    }
                    k += 1;
                }
            }
        },
        None => {
            if snapshot.is_dir(&paths::join(&snapshot.root, pattern)) {
                text::add(&mut out, pattern);
                assert(text::views(out@) =~= seq![pattern@]);
            }
        },
    }
    out
}

fn expand_globs(snapshot: &Snapshot, patterns: &Vec<String>, warnings: &mut Vec<String>) -> (r: Vec<
    String,
>)
    ensures
        text::views(r@) == expanded_globs(snapshot@, text::views(patterns@)),
        text::views(final(warnings)@) == text::views(old(warnings)@) + warnings_upto(
            snapshot@,
            text::views(patterns@),
            patterns@.len() as int,
        ),
{
    let ghost all = text::views(patterns@);
    let ghost said = text::views(warnings@);
    let mut out: Vec<String> = Vec::new();
    let mut k: usize = 0;
    assert(text::views(out@) =~= Seq::<Seq<char>>::empty());
    assert(said + Seq::<Seq<char>>::empty() =~= said);
    while k < patterns.len()
        invariant
            all == text::views(patterns@),
            k <= patterns@.len(),
            text::views(out@) == matched_upto(snapshot@, all, k as int),
            text::views(warnings@) == said + warnings_upto(snapshot@, all, k as int),
        decreases patterns@.len() - k,
    {
        assert(all[k as int] == patterns@[k as int]@);
        let now = match_pattern(snapshot, &patterns[k]);
        let ghost list = text::views(now@);
        let ghost before = text::views(out@);
        if now.len() == 0 {
            let mut line = text::own("warning: workspace glob '");
            line.append(&patterns[k]);
            line.append("' matched no app directories");
            let ghost earlier = warnings_upto(snapshot@, all, k as int);
            text::add(warnings, &line);
            assert((said + earlier).push(line@) =~= said + earlier.push(line@));
        }
        let mut i: usize = 0;
        while i < now.len()
            invariant
                list == text::views(now@),
                i <= now@.len(),
                text::views(out@) == with_members(before, list, i as int),
            decreases now@.len() - i,
        {
            assert(list[i as int] == now@[i as int]@);
            dict::add_member(&mut out, now[i].clone());
            i += 1;
        }
        k += 1;
    }
    out
}

// ---------------------------------------------------------------------------
// The workspace
// ---------------------------------------------------------------------------

/// The package patterns of pnpm-workspace.yaml.
pub open spec fn pnpm_globs(snapshot: SnapshotView) -> Seq<Seq<char>> {
    string_list_of(
        under_of(
            snapshot.yaml_at(paths::join_of(snapshot.root, "pnpm-workspace.yaml"@)),
            "packages"@,
        ),
    )
}

/// The workspace patterns of package.json: a list, or a list under `packages`.
pub open spec fn npm_globs(snapshot: SnapshotView) -> Seq<Seq<char>> {
    let workspaces = under_of(
        snapshot.json_at(paths::join_of(snapshot.root, "package.json"@)),
        "workspaces"@,
    );
    match workspaces {
        Some(Value::Table(entries)) => string_list_of(under_of(workspaces, "packages"@)),
        _ => string_list_of(workspaces),
    }
}

/// The package patterns of lerna.json.
pub open spec fn lerna_globs(snapshot: SnapshotView) -> Seq<Seq<char>> {
    string_list_of(
        under_of(snapshot.json_at(paths::join_of(snapshot.root, "lerna.json"@)), "packages"@),
    )
}

/// The tool that lays out the workspace, and the file that says so.
pub open spec fn workspace_tool(snapshot: SnapshotView) -> Option<(Seq<char>, Seq<char>)> {
    if lerna_globs(snapshot).len() > 0 {
        Some(("lerna"@, paths::join_of(snapshot.root, "lerna.json"@)))
    } else if pnpm_globs(snapshot).len() > 0 {
        Some(("pnpm"@, paths::join_of(snapshot.root, "pnpm-workspace.yaml"@)))
    } else if npm_globs(snapshot).len() > 0 {
        Some(("npm-workspaces"@, paths::join_of(snapshot.root, "package.json"@)))
    } else {
        None
    }
}

/// The directories that the workspace tooling lists.
pub open spec fn package_dirs(snapshot: SnapshotView) -> Seq<Seq<char>> {
    expanded_globs(snapshot, pnpm_globs(snapshot)) + expanded_globs(snapshot, npm_globs(snapshot))
        + expanded_globs(snapshot, lerna_globs(snapshot))
}

/// What is said of the workspace patterns.
pub open spec fn workspace_warnings(snapshot: SnapshotView) -> Seq<Seq<char>> {
    warnings_upto(snapshot, pnpm_globs(snapshot), pnpm_globs(snapshot).len() as int)
        + warnings_upto(snapshot, npm_globs(snapshot), npm_globs(snapshot).len() as int)
        + warnings_upto(snapshot, lerna_globs(snapshot), lerna_globs(snapshot).len() as int)
}

/// What follows the last `/`.
pub open spec fn last_part(dir: Seq<char>) -> Seq<char> {
    match text::last_index_of(dir, '/') {
        Some(i) => dir.skip(i + 1),
        None => dir,
    }
}

/// An app, before it is known how it is installed.
pub open spec fn app_at(id: Seq<char>, dir: Seq<char>, source: Seq<char>) -> AppFactsView {
    AppFactsView { id, dir, source, install: None, install_inputs: Seq::empty() }
}

fn found_app(id: String, dir: String, source: &str) -> (r: AppFacts)
    ensures
        r@ == app_at(id@, dir@, source@),
{
    let install_inputs: Vec<String> = Vec::new();
    assert(text::views(install_inputs@) =~= Seq::<Seq<char>>::empty());
    AppFacts { id, dir, source: text::own(source), install: None, install_inputs }
}

/// The apps of the first `k` directories, each directory once.
pub open spec fn listed_apps(dirs: Seq<Seq<char>>, source: Seq<char>, k: int) -> Seq<AppFactsView>
    decreases k,
{
    if k <= 0 {
        Seq::empty()
    } else {
        let before = listed_apps(dirs, source, k - 1);
        if dirs.take(k - 1).contains(dirs[k - 1]) {
            before
        } else {
            before.push(app_at(last_part(dirs[k - 1]), dirs[k - 1], source))
        }
    }
}

/// The children of a directory among its first `k` names that hold an app.
pub open spec fn app_children(
    snapshot: SnapshotView,
    dir: Seq<char>,
    names: Seq<Seq<char>>,
    k: int,
) -> Seq<Seq<char>>
    decreases k,
{
    if k <= 0 {
        Seq::empty()
    } else {
        let path = paths::join_of(dir, names[k - 1]);
        if snapshot.dir_at(path) && app_dir(snapshot, path) {
            app_children(snapshot, dir, names, k - 1).push(names[k - 1])
        } else {
            app_children(snapshot, dir, names, k - 1)
        }
    }
}

/// The apps of the children of a conventional directory.
pub open spec fn child_apps(parent: Seq<char>, children: Seq<Seq<char>>) -> Seq<AppFactsView> {
    Seq::new(
        children.len(),
        |i: int|
            app_at(children[i], parent + "/"@ + children[i], "layout"@),
    )
}

/// The apps that a conventional directory holds: itself, or its children in ascending order.
pub open spec fn layout_apps(snapshot: SnapshotView, parent: Seq<char>) -> Seq<AppFactsView> {
    let dir = paths::join_of(snapshot.root, parent);
    match snapshot.names_at(dir) {
        None => Seq::empty(),
        Some(names) => if app_dir(snapshot, dir) {
            seq![app_at(parent, parent, "layout"@)]
        } else {
            child_apps(
                parent,
                text::sorted_of(app_children(snapshot, dir, names, names.len() as int)),
            )
        },
    }
}

/// The directories that conventionally hold apps.
pub open spec fn layout_parents() -> Seq<Seq<char>> {
    seq!["apps"@, "packages"@, "services"@, "cmd"@, "web"@, "api"@]
}

/// The apps that the first `k` conventional directories hold.
pub open spec fn layout_upto(snapshot: SnapshotView, parents: Seq<Seq<char>>, k: int) -> Seq<
    AppFactsView,
>
    decreases k,
{
    if k <= 0 {
        Seq::empty()
    } else {
        layout_upto(snapshot, parents, k - 1) + layout_apps(snapshot, parents[k - 1])
    }
}

/// The apps of a repository without workspace tooling: those in conventional directories, or the
/// repository itself.
pub open spec fn apps_by_layout(snapshot: SnapshotView) -> Seq<AppFactsView> {
    let found = layout_upto(snapshot, layout_parents(), layout_parents().len() as int);
    if found.len() == 0 && (has_in(snapshot, snapshot.root, "package.json"@) || has_in(
        snapshot,
        snapshot.root,
        "pyproject.toml"@,
    )) {
        seq![
            app_at(paths::name_or(snapshot.root, "app"@), "."@, "root"@),
        ]
    } else {
        found
    }
}

/// Whether another app has the same id.
pub open spec fn ambiguous(apps: Seq<AppFactsView>, i: int) -> bool {
    exists|j: int| 0 <= j < apps.len() && j != i && (#[trigger] apps[j]).id == apps[i].id
}

/// The apps, those of ambiguous id named by their directory.
pub open spec fn told_apart(apps: Seq<AppFactsView>) -> Seq<AppFactsView> {
    Seq::new(
        apps.len(),
        |i: int|
            if ambiguous(apps, i) {
                AppFactsView { id: text::replace_of(apps[i].dir, '/', "-"@), ..apps[i] }
            } else {
                apps[i]
            },
    )
}

/// The apps, each with how it is installed.
pub open spec fn installed(snapshot: SnapshotView, apps: Seq<AppFactsView>) -> Seq<AppFactsView> {
    Seq::new(
        apps.len(),
        |i: int|
            AppFactsView {
                install: install_command_of(snapshot, app_root_of(snapshot.root, apps[i].dir)),
                install_inputs: install_inputs_of(
                    snapshot,
                    app_root_of(snapshot.root, apps[i].dir),
                ),
                ..apps[i]
            },
    )
}

/// The apps of a repository.
pub open spec fn apps_of(snapshot: SnapshotView) -> Seq<AppFactsView> {
    let dirs = package_dirs(snapshot);
    let source = match workspace_tool(snapshot) {
        Some(tool) => tool.0,
        None => "layout"@,
    };
    let listed = listed_apps(dirs, source, dirs.len() as int);
    installed(
        snapshot,
        told_apart(
            if listed.len() == 0 {
                apps_by_layout(snapshot)
            } else {
                listed
            },
        ),
    )
}

/// The directories of apps.
pub open spec fn dirs_of(apps: Seq<AppFactsView>) -> Seq<Seq<char>> {
    Seq::new(apps.len(), |i: int| apps[i].dir)
}

/// The facts of the workspace and its apps.
pub open spec fn workspace_facts(snapshot: SnapshotView) -> Seq<FactView> {
    let apps = apps_of(snapshot);
    let tooling = match workspace_tool(snapshot) {
        Some((name, path)) => with_fact(
            snapshot.root,
            Seq::empty(),
            path,
            FactKind::Workspace,
            None,
            Confidence::High,
            FactDataView::Workspace { tool: name, packages: dirs_of(apps) },
        ),
        None => Seq::empty(),
    };
    with_apps(snapshot, apps, tooling, apps.len() as int)
}

fn workspace_globs(document: Option<&Value>) -> (r: Vec<String>)
    ensures
        text::views(r@) == string_list_of(under_of(held(document), "packages"@)),
{
    string_list(under(document, "packages"))
}

/// The patterns of pnpm, npm and lerna, in that order.
fn read_globs(snapshot: &Snapshot) -> (r: (Vec<String>, Vec<String>, Vec<String>))
    ensures
        text::views(r.0@) == pnpm_globs(snapshot@),
        text::views(r.1@) == npm_globs(snapshot@),
        text::views(r.2@) == lerna_globs(snapshot@),
{
    let pnpm_document = snapshot.read_yaml(&paths::join(&snapshot.root, "pnpm-workspace.yaml"));
    let pnpm = workspace_globs(
        match &pnpm_document {
            Some(v) => Some(v),
            None => None,
        },
    );
    let npm_document = snapshot.read_json(&paths::join(&snapshot.root, "package.json"));
    let workspaces = under(
        match &npm_document {
            Some(v) => Some(v),
            None => None,
        },
        "workspaces",
    );
    let npm = match workspaces {
        Some(Value::Table(_)) => workspace_globs(workspaces),
        _ => string_list(workspaces),
    };
    let lerna_document = snapshot.read_json(&paths::join(&snapshot.root, "lerna.json"));
    let lerna = workspace_globs(
        match &lerna_document {
            Some(v) => Some(v),
            None => None,
        },
    );
    (pnpm, npm, lerna)
}

/// The workspace patterns of a repository, for whoever has to look the directories up.
pub fn workspace_patterns(snapshot: &Snapshot) -> (r: Vec<String>)
    ensures
        text::views(r@) == pnpm_globs(snapshot@) + npm_globs(snapshot@) + lerna_globs(snapshot@),
{
    let (pnpm, npm, lerna) = read_globs(snapshot);
    let mut out = pnpm;
    text::add_all(&mut out, &npm);
    text::add_all(&mut out, &lerna);
    out
}

fn last_segment(dir: &str) -> (r: String)
    ensures
        r@ == last_part(dir@),
{
    match text::rsplit_once(dir, '/') {
        Some((_, last)) => last,
        None => text::own(dir),
    }
}

fn list_apps(dirs: &Vec<String>, source: &str) -> (r: Vec<AppFacts>)
    ensures
        text::views(r@) == listed_apps(text::views(dirs@), source@, dirs@.len() as int),
{
    let ghost all = text::views(dirs@);
    let mut seen: Vec<String> = Vec::new();
    let mut out: Vec<AppFacts> = Vec::new();
    let mut k: usize = 0;
    assert(text::views(out@) =~= Seq::<AppFactsView>::empty());
    assert(text::views(seen@) =~= all.take(0));
    while k < dirs.len()
        invariant
            all == text::views(dirs@),
            k <= dirs@.len(),
            text::views(seen@) == all.take(k as int),
            text::views(out@) == listed_apps(all, source@, k as int),
        decreases dirs@.len() - k,
    {
        broadcast use text::views_push;

        assert(all[k as int] == dirs@[k as int]@);
        if !text::among(&seen, &dirs[k]) {
            out.push(
                found_app(last_segment(&dirs[k]), dirs[k].clone(), source),
            );
        }
        text::add(&mut seen, &dirs[k]);
        k += 1;
        assert(text::views(seen@) =~= all.take(k as int));
    }
    out
}

fn layout_of(snapshot: &Snapshot, parent: &str) -> (r: Vec<AppFacts>)
    ensures
        text::views(r@) == layout_apps(snapshot@, parent@),
{
    let mut out: Vec<AppFacts> = Vec::new();
    assert(text::views(out@) =~= Seq::<AppFactsView>::empty());
    let dir = paths::join(&snapshot.root, parent);
    if let Some(names) = snapshot.names(&dir) {
        if is_app_dir(snapshot, &dir) {
            out.push(
                found_app(text::own(parent), text::own(parent), "layout"),
            );
            assert(text::views(out@) =~= seq![
                app_at(parent@, parent@, "layout"@),
            ]);
            return out;
        }
        let ghost all = text::views(names@);
        let mut children: Vec<String> = Vec::new();
        let mut k: usize = 0;
        assert(text::views(children@) =~= Seq::<Seq<char>>::empty());
        while k < names.len()
            invariant
                all == text::views(names@),
                k <= names@.len(),
                text::views(children@) == app_children(snapshot@, dir@, all, k as int),
            decreases names@.len() - k,
        {
            assert(all[k as int] == names@[k as int]@);
            let path = paths::join(&dir, &names[k]);
            if snapshot.is_dir(&path) && is_app_dir(snapshot, &path) {
                text::add(&mut children, &names[k]);
            }
            k += 1;
        }
        let sorted = text::sort(&children);
        let ghost goal = child_apps(parent@, text::views(sorted@));
        let mut i: usize = 0;
        assert(text::views(out@) =~= goal.take(0));
        while i < sorted.len()
            invariant
                goal == child_apps(parent@, text::views(sorted@)),
                i <= sorted@.len(),
                text::views(out@) == goal.take(i as int),
            decreases sorted@.len() - i,
        {
            broadcast use text::views_push;

            let mut dir = text::own(parent);
            dir.append("/");
            dir.append(&sorted[i]);
            out.push(found_app(sorted[i].clone(), dir, "layout"));
            i += 1;
            assert(text::views(out@) =~= goal.take(i as int));
        }
        assert(goal.take(i as int) =~= goal);
    }
    out
}

fn append_apps(out: &mut Vec<AppFacts>, more: Vec<AppFacts>)
    ensures
        text::views(final(out)@) == text::views(old(out)@) + text::views(more@),
{
    let ghost start = out@;
    let mut more = more;
    let ghost list = more@;
    out.append(&mut more);
    assert(text::views(out@) =~= text::views(start) + text::views(list));
}

/// No workspace tooling: look for conventional app directories.
fn detect_apps_by_layout(snapshot: &Snapshot) -> (r: Vec<AppFacts>)
    ensures
        text::views(r@) == apps_by_layout(snapshot@),
{
    let parents = text::texts(&["apps", "packages", "services", "cmd", "web", "api"]);
    let ghost all = layout_parents();
    assert(text::views(parents@) =~= all);
    let mut apps: Vec<AppFacts> = Vec::new();
    let mut k: usize = 0;
    assert(text::views(apps@) =~= Seq::<AppFactsView>::empty());
    while k < parents.len()
        invariant
            all == text::views(parents@),
            k <= parents@.len(),
            text::views(apps@) == layout_upto(snapshot@, all, k as int),
        decreases parents@.len() - k,
    {
        assert(all[k as int] == parents@[k as int]@);
        append_apps(&mut apps, layout_of(snapshot, &parents[k]));
        k += 1;
    }
    // A plain single-app repository.
    if apps.len() == 0 && (has(snapshot, &snapshot.root, "package.json") || has(
        snapshot,
        &snapshot.root,
        "pyproject.toml",
    )) {
        apps.push(
            found_app(paths::file_name_or(&snapshot.root, "app"), text::own("."), "root"),
        );
        assert(text::views(apps@) =~= seq![
            app_at(paths::name_or(snapshot@.root, "app"@), "."@, "root"@),
        ]);
    }
    apps
}

fn is_ambiguous(apps: &Vec<AppFacts>, i: usize) -> (r: bool)
    requires
        i < apps@.len(),
    ensures
        r == ambiguous(text::views(apps@), i as int),
{
    let ghost all = text::views(apps@);
    let mut j: usize = 0;
    while j < apps.len()
        invariant
            all == text::views(apps@),
            i < apps@.len(),
            j <= apps@.len(),
            forall|m: int| 0 <= m < j && m != i ==> (#[trigger] all[m]).id != all[i as int].id,
        decreases apps@.len() - j,
    {
        if j != i && text::same(&apps[j].id, &apps[i].id) {
            assert(all[j as int].id == all[i as int].id);
            return true;
        }
        j += 1;
    }
    false
}

/// App ids must be unique for `app:service` references to be meaningful.
fn tell_apart(apps: &Vec<AppFacts>) -> (r: Vec<AppFacts>)
    ensures
        text::views(r@) == told_apart(text::views(apps@)),
{
    let ghost goal = told_apart(text::views(apps@));
    let mut out: Vec<AppFacts> = Vec::new();
    let mut i: usize = 0;
    assert(text::views(out@) =~= goal.take(0));
    while i < apps.len()
        invariant
            goal == told_apart(text::views(apps@)),
            i <= apps@.len(),
            text::views(out@) == goal.take(i as int),
        decreases apps@.len() - i,
    {
        broadcast use text::views_push;

        let mut app = apps[i].clone();
        if is_ambiguous(apps, i) {
            app.id = text::replace(&app.dir, '/', "-");
        }
        assert(app@ == goal[i as int]);
        out.push(app);
        i += 1;
        assert(text::views(out@) =~= goal.take(i as int));
    }
    assert(goal.take(i as int) =~= goal);
    out
}

fn with_installs(snapshot: &Snapshot, apps: &Vec<AppFacts>) -> (r: Vec<AppFacts>)
    ensures
        text::views(r@) == installed(snapshot@, text::views(apps@)),
{
    let ghost goal = installed(snapshot@, text::views(apps@));
    let mut out: Vec<AppFacts> = Vec::new();
    let mut i: usize = 0;
    assert(text::views(out@) =~= goal.take(0));
    while i < apps.len()
        invariant
            goal == installed(snapshot@, text::views(apps@)),
            i <= apps@.len(),
            text::views(out@) == goal.take(i as int),
        decreases apps@.len() - i,
    {
        broadcast use text::views_push;

        let mut app = apps[i].clone();
        let dir = app_root(&snapshot.root, &app.dir);
        app.install = install_command(snapshot, &dir);
        app.install_inputs = install_inputs(snapshot, &dir);
        assert(app@ == goal[i as int]);
        out.push(app);
        i += 1;
        assert(text::views(out@) =~= goal.take(i as int));
    }
    assert(goal.take(i as int) =~= goal);
    out
}

/// The directories of apps.
pub fn app_dirs(apps: &Vec<AppFacts>) -> (r: Vec<String>)
    ensures
        text::views(r@) == dirs_of(text::views(apps@)),
{
    let ghost goal = dirs_of(text::views(apps@));
    let mut out: Vec<String> = Vec::new();
    let mut i: usize = 0;
    assert(text::views(out@) =~= goal.take(0));
    while i < apps.len()
        invariant
            goal == dirs_of(text::views(apps@)),
            i <= apps@.len(),
            text::views(out@) == goal.take(i as int),
        decreases apps@.len() - i,
    {
        text::add(&mut out, &apps[i].dir);
        i += 1;
        assert(text::views(out@) =~= goal.take(i as int));
    }
    assert(goal.take(i as int) =~= goal);
    out
}

/// Workspace tooling decides which directories are apps. Gives the apps and their facts, and adds
/// what is to be said of the patterns to `warnings`.
fn extract_workspace(snapshot: &Snapshot, warnings: &mut Vec<String>) -> (r: (
    Vec<AppFacts>,
    Vec<Fact>,
))
    ensures
        text::views(r.0@) == apps_of(snapshot@),
        text::views(r.1@) == workspace_facts(snapshot@),
        text::views(final(warnings)@) == text::views(old(warnings)@) + workspace_warnings(snapshot@),
{
    let ghost said = text::views(warnings@);
    let (pnpm, npm, lerna) = read_globs(snapshot);
    let mut packages = expand_globs(snapshot, &pnpm, warnings);
    text::add_all(&mut packages, &expand_globs(snapshot, &npm, warnings));
    text::add_all(&mut packages, &expand_globs(snapshot, &lerna, warnings));
    assert(text::views(warnings@) =~= said + workspace_warnings(snapshot@));
    let tool: Option<(String, String)> = if lerna.len() > 0 {
        Some((text::own("lerna"), paths::join(&snapshot.root, "lerna.json")))
    } else if pnpm.len() > 0 {
        Some((text::own("pnpm"), paths::join(&snapshot.root, "pnpm-workspace.yaml")))
    } else if npm.len() > 0 {
        Some((text::own("npm-workspaces"), paths::join(&snapshot.root, "package.json")))
    } else {
        None
    };
    let source = match &tool {
        Some(named) => named.0.clone(),
        None => text::own("layout"),
    };
    let listed = list_apps(&packages, &source);
    let found = if listed.len() == 0 {
        detect_apps_by_layout(snapshot)
    } else {
        listed
    };
    let apps = with_installs(snapshot, &tell_apart(&found));
    let mut facts: Vec<Fact> = Vec::new();
    assert(text::views(facts@) =~= Seq::<FactView>::empty());
    if let Some((name, path)) = tool {
        push_fact(
            snapshot,
            &mut facts,
            &path,
            FactKind::Workspace,
            None,
            Confidence::High,
            FactData::Workspace { tool: name, packages: app_dirs(&apps) },
        );
    }
    let ghost all = text::views(apps@);
    let ghost tooling = text::views(facts@);
    let mut k: usize = 0;
    while k < apps.len()
        invariant
            all == text::views(apps@),
            k <= apps@.len(),
            text::views(facts@) == with_apps(snapshot@, all, tooling, k as int),
        decreases apps@.len() - k,
    {
        assert(all[k as int] == apps@[k as int]@);
        extract_app(snapshot, &apps[k], &mut facts);
        k += 1;
    }
    (apps, facts)
}

// ---------------------------------------------------------------------------
// The repository-level stack
// ---------------------------------------------------------------------------

/// Files that reveal a stack, in the order they are looked for.
pub open spec fn compose_names() -> Seq<Seq<char>> {
    seq!["compose.yaml"@, "compose.yml"@, "docker-compose.yaml"@, "docker-compose.yml"@]
}

/// Directories that conventionally hold compose files.
pub open spec fn stack_dirs() -> Seq<Seq<char>> {
    seq!["infra"@, "deployment"@, "docker"@]
}

/// The paths of names in a directory.
pub open spec fn joined(dir: Seq<char>, names: Seq<Seq<char>>) -> Seq<Seq<char>> {
    Seq::new(names.len(), |i: int| paths::join_of(dir, names[i]))
}

/// The compose files in a directory.
pub open spec fn compose_in(snapshot: SnapshotView, dir: Seq<char>) -> Seq<Seq<char>> {
    joined(dir, present(snapshot, dir, compose_names(), compose_names().len() as int))
}

/// The directories among the first `k` names in a directory.
pub open spec fn subdirs(
    snapshot: SnapshotView,
    dir: Seq<char>,
    names: Seq<Seq<char>>,
    k: int,
) -> Seq<Seq<char>>
    decreases k,
{
    if k <= 0 {
        Seq::empty()
    } else if snapshot.dir_at(paths::join_of(dir, names[k - 1])) {
        subdirs(snapshot, dir, names, k - 1).push(names[k - 1])
    } else {
        subdirs(snapshot, dir, names, k - 1)
    }
}

/// The compose files in the first `k` children of a directory.
pub open spec fn compose_in_children(
    snapshot: SnapshotView,
    dir: Seq<char>,
    children: Seq<Seq<char>>,
    k: int,
) -> Seq<Seq<char>>
    decreases k,
{
    if k <= 0 {
        Seq::empty()
    } else {
        compose_in_children(snapshot, dir, children, k - 1) + compose_in(
            snapshot,
            paths::join_of(dir, children[k - 1]),
        )
    }
}

/// The compose files of a conventional directory: `infra/local/docker-compose.yml` is a common
/// layout. One level down, in a stable order, not a walk of the whole tree.
pub open spec fn compose_below(snapshot: SnapshotView, dir: Seq<char>) -> Seq<Seq<char>> {
    let children = match snapshot.names_at(dir) {
        Some(names) => text::sorted_of(subdirs(snapshot, dir, names, names.len() as int)),
        None => Seq::empty(),
    };
    compose_in(snapshot, dir) + compose_in_children(snapshot, dir, children, children.len() as int)
}

/// The compose files of the first `k` conventional directories.
pub open spec fn compose_below_upto(snapshot: SnapshotView, dirs: Seq<Seq<char>>, k: int) -> Seq<
    Seq<char>,
>
    decreases k,
{
    if k <= 0 {
        Seq::empty()
    } else {
        compose_below_upto(snapshot, dirs, k - 1) + compose_below(
            snapshot,
            paths::join_of(snapshot.root, dirs[k - 1]),
        )
    }
}

/// The compose files of a repository.
pub open spec fn compose_files_of(snapshot: SnapshotView) -> Seq<Seq<char>> {
    compose_in(snapshot, snapshot.root) + compose_below_upto(
        snapshot,
        stack_dirs(),
        stack_dirs().len() as int,
    )
}

/// The facts with those of the first `k` compose files. A file without a table of services says
/// nothing.
pub open spec fn with_compose(
    snapshot: SnapshotView,
    files: Seq<Seq<char>>,
    facts: Seq<FactView>,
    k: int,
) -> Seq<FactView>
    decreases k,
{
    if k <= 0 {
        facts
    } else {
        let before = with_compose(snapshot, files, facts, k - 1);
        let path = files[k - 1];
        match under_of(snapshot.yaml_at(path), "services"@) {
            Some(table) => if table.untagged() is Table {
                let services = services_upto(table.entries_of(), table.entries_of().len() as int);
                with_fact(
                    snapshot.root,
                    before,
                    path,
                    FactKind::Compose,
                    None,
                    Confidence::High,
                    FactDataView::Compose {
                        services,
                        has_build: any_built(services),
                        files: seq![paths::display_relative_of(path, snapshot.root)],
                    },
                )
            } else {
                before
            },
            None => before,
        }
    }
}

/// The variables among the first `k` lines of an env file.
pub open spec fn env_names(lines: Seq<Seq<char>>, k: int) -> Seq<Seq<char>>
    decreases k,
{
    if k <= 0 {
        Seq::empty()
    } else {
        let line = text::trim_of(lines[k - 1]);
        let name = text::trim_of(up_to(line, '='));
        if line.len() == 0 || line[0] == '#' || name.len() == 0 {
            env_names(lines, k - 1)
        } else {
            env_names(lines, k - 1).push(name)
        }
    }
}

/// The assignments among the first `k` lines of an env file, each with its line.
pub open spec fn env_steps(lines: Seq<Seq<char>>, k: int) -> Seq<(Seq<char>, Seq<char>)>
    decreases k,
{
    if k <= 0 {
        Seq::empty()
    } else {
        let line = text::trim_of(lines[k - 1]);
        match text::split_once_of(line, '=') {
            Some((name, _)) => env_steps(lines, k - 1).push((text::trim_of(name), line)),
            None => env_steps(lines, k - 1),
        }
    }
}

/// What an env template says.
pub open spec fn env_data_of(name: Seq<char>, raw: Seq<char>) -> FactDataView {
    let lines = text::lines_of(raw);
    FactDataView::EnvExample {
        variables: env_names(lines, lines.len() as int),
        file: name,
        ports: port_literals_of(env_steps(lines, lines.len() as int)),
    }
}

/// The names of env templates.
pub open spec fn env_templates() -> Seq<Seq<char>> {
    seq![".env.example"@, ".env.sample"@, ".env.template"@]
}

/// The facts with those of the first `k` env templates.
pub open spec fn with_env(
    snapshot: SnapshotView,
    names: Seq<Seq<char>>,
    facts: Seq<FactView>,
    k: int,
) -> Seq<FactView>
    decreases k,
{
    if k <= 0 {
        facts
    } else {
        let before = with_env(snapshot, names, facts, k - 1);
        let path = paths::join_of(snapshot.root, names[k - 1]);
        match snapshot.text_at(path) {
            Some(raw) => with_fact(
                snapshot.root,
                before,
                path,
                FactKind::EnvExample,
                None,
                Confidence::Medium,
                env_data_of(names[k - 1], raw),
            ),
            None => before,
        }
    }
}

/// The processes among the first `k` lines of a Procfile.
pub open spec fn processes_of(lines: Seq<Seq<char>>, k: int) -> Seq<ScriptFactView>
    decreases k,
{
    if k <= 0 {
        Seq::empty()
    } else {
        match text::split_once_of(lines[k - 1], ':') {
            Some((name, command)) => processes_of(lines, k - 1).push(
                ScriptFactView { name: text::trim_of(name), command: text::trim_of(command) },
            ),
            None => processes_of(lines, k - 1),
        }
    }
}

/// The id of the app at the root of the repository, among the apps from `k` on.
pub open spec fn root_app_from(apps: Seq<AppFactsView>, k: int) -> Option<Seq<char>>
    decreases apps.len() - k,
{
    if k < 0 || k >= apps.len() {
        None
    } else if apps[k].dir == "."@ {
        Some(apps[k].id)
    } else {
        root_app_from(apps, k + 1)
    }
}

/// The facts with those of the Procfile, which stands at the root: its processes are ways to run
/// the app there, where there is one.
pub open spec fn with_procfile(
    snapshot: SnapshotView,
    apps: Seq<AppFactsView>,
    facts: Seq<FactView>,
) -> Seq<FactView> {
    let path = paths::join_of(snapshot.root, "Procfile"@);
    match snapshot.text_at(path) {
        Some(raw) => {
            let lines = text::lines_of(raw);
            let processes = processes_of(lines, lines.len() as int);
            with_fact(
                snapshot.root,
                facts,
                path,
                FactKind::Procfile,
                root_app_from(apps, 0),
                Confidence::High,
                FactDataView::Procfile {
                    processes,
                    ports: port_literals_of(script_steps(processes)),
                },
            )
        },
        None => facts,
    }
}

/// The facts with those of the repository-level stack: compose, task runners, env templates,
/// Procfiles.
pub open spec fn with_root_stack(
    snapshot: SnapshotView,
    apps: Seq<AppFactsView>,
    facts: Seq<FactView>,
) -> Seq<FactView> {
    let files = compose_files_of(snapshot);
    let compose = with_compose(snapshot, files, facts, files.len() as int);
    let mise = with_mise(snapshot, None, snapshot.root, compose);
    let just = with_just(snapshot, None, snapshot.root, mise);
    let env = with_env(snapshot, env_templates(), just, env_templates().len() as int);
    with_procfile(snapshot, apps, env)
}

/// Every fact that the files of a repository give.
pub open spec fn facts_of(snapshot: SnapshotView) -> Seq<FactView> {
    with_root_stack(snapshot, apps_of(snapshot), workspace_facts(snapshot))
}

fn join_names(dir: &str, names: &Vec<String>) -> (r: Vec<String>)
    ensures
        text::views(r@) == joined(dir@, text::views(names@)),
{
    let ghost goal = joined(dir@, text::views(names@));
    let mut out: Vec<String> = Vec::new();
    let mut i: usize = 0;
    assert(text::views(out@) =~= goal.take(0));
    while i < names.len()
        invariant
            goal == joined(dir@, text::views(names@)),
            i <= names@.len(),
            text::views(out@) == goal.take(i as int),
        decreases names@.len() - i,
    {
        text::add(&mut out, &paths::join(dir, &names[i]));
        i += 1;
        assert(text::views(out@) =~= goal.take(i as int));
    }
    assert(goal.take(i as int) =~= goal);
    out
}

fn find_compose(snapshot: &Snapshot, dir: &str) -> (r: Vec<String>)
    ensures
        text::views(r@) == compose_in(snapshot@, dir@),
{
    let names = text::texts(
        &["compose.yaml", "compose.yml", "docker-compose.yaml", "docker-compose.yml"],
    );
    assert(text::views(names@) =~= compose_names());
    join_names(dir, &present_files(snapshot, dir, &names))
}

fn sorted_subdirs(snapshot: &Snapshot, dir: &str) -> (r: Vec<String>)
    ensures
        text::views(r@) == (match snapshot@.names_at(dir@) {
            Some(names) => text::sorted_of(subdirs(snapshot@, dir@, names, names.len() as int)),
            None => Seq::empty(),
        }),
{
    let mut children: Vec<String> = Vec::new();
    assert(text::views(children@) =~= Seq::<Seq<char>>::empty());
    match snapshot.names(dir) {
        None => children,
        Some(names) => {
            let ghost all = text::views(names@);
            let mut k: usize = 0;
            while k < names.len()
                invariant
                    all == text::views(names@),
                    k <= names@.len(),
                    text::views(children@) == subdirs(snapshot@, dir@, all, k as int),
                decreases names@.len() - k,
            {
                assert(all[k as int] == names@[k as int]@);
                if snapshot.is_dir(&paths::join(dir, &names[k])) {
                    text::add(&mut children, &names[k]);
                }
                k += 1;
            }
            text::sort(&children)
        },
    }
}

fn find_compose_below(snapshot: &Snapshot, dir: &str) -> (r: Vec<String>)
    ensures
        text::views(r@) == compose_below(snapshot@, dir@),
{
    let mut out = find_compose(snapshot, dir);
    let children = sorted_subdirs(snapshot, dir);
    let ghost start = text::views(out@);
    let ghost all = text::views(children@);
    let mut k: usize = 0;
    assert(start + Seq::<Seq<char>>::empty() =~= start);
    while k < children.len()
        invariant
            all == text::views(children@),
            k <= children@.len(),
            text::views(out@) == start + compose_in_children(snapshot@, dir@, all, k as int),
        decreases children@.len() - k,
    {
        assert(all[k as int] == children@[k as int]@);
        text::add_all(&mut out, &find_compose(snapshot, &paths::join(dir, &children[k])));
        k += 1;
        assert(text::views(out@) =~= start + compose_in_children(snapshot@, dir@, all, k as int));
    }
    out
}

fn compose_files(snapshot: &Snapshot) -> (r: Vec<String>)
    ensures
        text::views(r@) == compose_files_of(snapshot@),
{
    let mut out = find_compose(snapshot, &snapshot.root);
    let dirs = text::texts(&["infra", "deployment", "docker"]);
    let ghost all = stack_dirs();
    assert(text::views(dirs@) =~= all);
    let ghost start = text::views(out@);
    let mut k: usize = 0;
    assert(start + Seq::<Seq<char>>::empty() =~= start);
    while k < dirs.len()
        invariant
            all == text::views(dirs@),
            k <= dirs@.len(),
            text::views(out@) == start + compose_below_upto(snapshot@, all, k as int),
        decreases dirs@.len() - k,
    {
        assert(all[k as int] == dirs@[k as int]@);
        text::add_all(
            &mut out,
            &find_compose_below(snapshot, &paths::join(&snapshot.root, &dirs[k])),
        );
        k += 1;
        assert(text::views(out@) =~= start + compose_below_upto(snapshot@, all, k as int));
    }
    out
}

fn extract_compose(snapshot: &Snapshot, facts: &mut Vec<Fact>)
    ensures
        text::views(final(facts)@) == with_compose(
            snapshot@,
            compose_files_of(snapshot@),
            text::views(old(facts)@),
            compose_files_of(snapshot@).len() as int,
        ),
{
    let files = compose_files(snapshot);
    let ghost all = text::views(files@);
    let ghost start = text::views(facts@);
    let mut k: usize = 0;
    while k < files.len()
        invariant
            all == text::views(files@),
            k <= files@.len(),
            text::views(facts@) == with_compose(snapshot@, all, start, k as int),
        decreases files@.len() - k,
    {
        let path = &files[k];
        assert(all[k as int] == path@);
        let document = snapshot.read_yaml(path);
        let table = under(
            match &document {
                Some(v) => Some(v),
                None => None,
            },
            "services",
        );
        if let Some(table) = table {
            if table.is_table() {
                let services = compose_services(table);
                let has_build = has_built(&services);
                let relative = paths::display_relative(path, &snapshot.root);
                push_fact(
                    snapshot,
                    facts,
                    path,
                    FactKind::Compose,
                    None,
                    Confidence::High,
                    FactData::Compose { services, has_build, files: text::single(relative) },
                );
            }
        }
        k += 1;
    }
}

fn env_variables(lines: &Vec<String>) -> (r: Vec<String>)
    ensures
        text::views(r@) == env_names(text::views(lines@), lines@.len() as int),
{
    let ghost all = text::views(lines@);
    let mut out: Vec<String> = Vec::new();
    let mut k: usize = 0;
    assert(text::views(out@) =~= Seq::<Seq<char>>::empty());
    while k < lines.len()
        invariant
            all == text::views(lines@),
            k <= lines@.len(),
            text::views(out@) == env_names(all, k as int),
        decreases lines@.len() - k,
    {
        assert(all[k as int] == lines@[k as int]@);
        let line = text::trim(&lines[k]);
        let name = text::trim(&before(&line, '='));
        if text::length(&line) == 0 || line.as_str().get_char(0) == '#' || text::length(&name) == 0 {
        } else {
            text::add(&mut out, &name);
        }
        k += 1;
    }
    out
}

fn env_literals(lines: &Vec<String>) -> (r: Vec<PortLiteralFact>)
    ensures
        text::views(r@) == port_literals_of(env_steps(text::views(lines@), lines@.len() as int)),
{
    let ghost all = text::views(lines@);
    let mut out: Vec<PortLiteralFact> = Vec::new();
    let mut k: usize = 0;
    assert(text::views(out@) =~= Seq::<PortLiteralFactView>::empty());
    while k < lines.len()
        invariant
            all == text::views(lines@),
            k <= lines@.len(),
            text::views(out@) == port_literals_of(env_steps(all, k as int)),
        decreases lines@.len() - k,
    {
        assert(all[k as int] == lines@[k as int]@);
        let line = text::trim(&lines[k]);
        if let Some((name, _)) = text::split_once(&line, '=') {
            let name = text::trim(&name);
            let ghost steps = env_steps(all, k as int);
            let ghost more = steps.push((name@, line@));
            add_literals(&mut out, &name, &line);
            proof {
                literals_prefix(steps, more, steps.len() as int);
            }
            assert(env_steps(all, k + 1) == more);
        }
        k += 1;
    }
    out
}

proof fn literals_prefix(
    a: Seq<(Seq<char>, Seq<char>)>,
    b: Seq<(Seq<char>, Seq<char>)>,
    k: int,
)
    requires
        k <= a.len() <= b.len(),
        forall|i: int| 0 <= i < a.len() ==> a[i] == b[i],
    ensures
        literals_upto(a, k) == literals_upto(b, k),
    decreases k,
{
    if k > 0 {
        literals_prefix(a, b, k - 1);
    }
}

fn extract_env(snapshot: &Snapshot, facts: &mut Vec<Fact>)
    ensures
        text::views(final(facts)@) == with_env(
            snapshot@,
            env_templates(),
            text::views(old(facts)@),
            env_templates().len() as int,
        ),
{
    let names = text::texts(&[".env.example", ".env.sample", ".env.template"]);
    let ghost all = env_templates();
    assert(text::views(names@) =~= all);
    let ghost start = text::views(facts@);
    let mut k: usize = 0;
    while k < names.len()
        invariant
            all == text::views(names@),
            k <= names@.len(),
            text::views(facts@) == with_env(snapshot@, all, start, k as int),
        decreases names@.len() - k,
    {
        assert(all[k as int] == names@[k as int]@);
        let path = paths::join(&snapshot.root, &names[k]);
        if let Some(raw) = snapshot.read(&path) {
            let lines = text::lines(raw);
            push_fact(
                snapshot,
                facts,
                &path,
                FactKind::EnvExample,
                None,
                Confidence::Medium,
                FactData::EnvExample {
                    variables: env_variables(&lines),
                    file: names[k].clone(),
                    ports: env_literals(&lines),
                },
            );
        }
        k += 1;
    }
}

fn root_app(apps: &Vec<AppFacts>) -> (r: Option<String>)
    ensures
        text::opt_view(r) == root_app_from(text::views(apps@), 0),
{
    let ghost all = text::views(apps@);
    let mut k: usize = 0;
    while k < apps.len()
        invariant
            all == text::views(apps@),
            k <= apps@.len(),
            root_app_from(all, 0) == root_app_from(all, k as int),
        decreases apps@.len() - k,
    {
        assert(all[k as int] == apps@[k as int]@);
        if text::same(&apps[k].dir, ".") {
            return Some(apps[k].id.clone());
        }
        k += 1;
    }
    None
}

fn extract_procfile(snapshot: &Snapshot, apps: &Vec<AppFacts>, facts: &mut Vec<Fact>)
    ensures
        text::views(final(facts)@) == with_procfile(
            snapshot@,
            text::views(apps@),
            text::views(old(facts)@),
        ),
{
    let path = paths::join(&snapshot.root, "Procfile");
    if let Some(raw) = snapshot.read(&path) {
        let lines = text::lines(raw);
        let ghost all = text::views(lines@);
        let mut processes: Vec<ScriptFact> = Vec::new();
        let mut k: usize = 0;
        assert(text::views(processes@) =~= Seq::<ScriptFactView>::empty());
        while k < lines.len()
            invariant
                all == text::views(lines@),
                k <= lines@.len(),
                text::views(processes@) == processes_of(all, k as int),
            decreases lines@.len() - k,
        {
            broadcast use text::views_push;

            assert(all[k as int] == lines@[k as int]@);
            if let Some((name, command)) = text::split_once(&lines[k], ':') {
                processes.push(
                    ScriptFact { name: text::trim(&name), command: text::trim(&command) },
                );
            }
            k += 1;
        }
        let ports = script_literals(&processes);
        push_fact(
            snapshot,
            facts,
            &path,
            FactKind::Procfile,
            root_app(apps),
            Confidence::High,
            FactData::Procfile { processes, ports },
        );
    }
}

/// Repository-level stack: compose, task runners, env templates, Procfiles.
fn extract_root_stack(snapshot: &Snapshot, apps: &Vec<AppFacts>, facts: &mut Vec<Fact>)
    ensures
        text::views(final(facts)@) == with_root_stack(
            snapshot@,
            text::views(apps@),
            text::views(old(facts)@),
        ),
{
    extract_compose(snapshot, facts);
    extract_mise(snapshot, None, &snapshot.root, facts);
    extract_just(snapshot, None, &snapshot.root, facts);
    extract_env(snapshot, facts);
    extract_procfile(snapshot, apps, facts);
}

/// What discovery finds in the files of a repository, and what it has to say while looking. The
/// report has no fingerprint yet: [`Report::finalize`] gives it one.
#[derive(Debug)]
pub struct Extraction {
    pub report: Report,
    pub warnings: Vec<String>,
}

/// Every fact that the files of a repository give, and the questions they leave open.
pub fn extract(snapshot: &Snapshot, repo: RepoFacts) -> (r: Extraction)
    ensures
        r.report@ == (ReportView {
            report_version: REPORT_VERSION,
            report_hash: ""@,
            repo: repo@,
            apps: apps_of(snapshot@),
            facts: facts_of(snapshot@),
            unknowns: unknowns::unknowns_of(
                snapshot@,
                apps_of(snapshot@),
                facts_of(snapshot@),
            ),
        }),
        text::views(r.warnings@) == workspace_warnings(snapshot@),
{
    let mut warnings: Vec<String> = Vec::new();
    assert(text::views(warnings@) =~= Seq::<Seq<char>>::empty());
    let (apps, facts) = extract_workspace(snapshot, &mut warnings);
    assert(text::views(warnings@) =~= workspace_warnings(snapshot@));
    let mut facts = facts;
    extract_root_stack(snapshot, &apps, &mut facts);
    let unknowns = unknowns::derive_unknowns(snapshot, &apps, &facts);
    Extraction {
        report: Report {
            report_version: REPORT_VERSION,
            report_hash: text::own(""),
            repo,
            apps,
            facts,
            unknowns,
        },
        warnings,
    }
}

/// What a report says of a repository and its worktrees: the first worktree that git lists is the
/// primary checkout.
pub open spec fn repo_facts_of(
    root: Seq<char>,
    repo: Option<RepoView>,
    worktrees: Seq<WorktreeEntryView>,
) -> RepoFactsView {
    RepoFactsView {
        root,
        git_common_dir: match repo {
            Some(repo) => repo.common_dir,
            None => ""@,
        },
        is_git_repo: repo is Some,
        worktrees: Seq::new(
            worktrees.len(),
            |i: int|
                WorktreeFactView {
                    path: worktrees[i].path,
                    branch: worktrees[i].branch,
                    is_main: i == 0,
                },
        ),
    }
}

/// What a report says of the repository at `root` and its worktrees. Outside a repository there are
/// none.
pub fn repo_facts(root: &str, repo: Option<&Repo>, worktrees: &Vec<WorktreeEntry>) -> (r: RepoFacts)
    ensures
        r@ == repo_facts_of(
            root@,
            match repo {
                Some(repo) => Some(repo@),
                None => None,
            },
            text::views(worktrees@),
        ),
{
    let ghost all = text::views(worktrees@);
    let ghost goal = Seq::new(
        all.len(),
        |i: int|
            WorktreeFactView { path: all[i].path, branch: all[i].branch, is_main: i == 0 },
    );
    let mut list: Vec<WorktreeFact> = Vec::new();
    let mut k: usize = 0;
    assert(text::views(list@) =~= goal.take(0));
    while k < worktrees.len()
        invariant
            all == text::views(worktrees@),
            goal == Seq::new(
                all.len(),
                |i: int|
                    WorktreeFactView { path: all[i].path, branch: all[i].branch, is_main: i == 0 },
            ),
            k <= worktrees@.len(),
            text::views(list@) == goal.take(k as int),
        decreases worktrees@.len() - k,
    {
        broadcast use text::views_push;

        assert(all[k as int] == worktrees@[k as int]@);
        list.push(
            WorktreeFact {
                path: worktrees[k].path.clone(),
                branch: text::clone_opt(&worktrees[k].branch),
                is_main: k == 0,
            },
        );
        k += 1;
        assert(text::views(list@) =~= goal.take(k as int));
    }
    assert(goal.take(k as int) =~= goal);
    RepoFacts {
        root: text::own(root),
        git_common_dir: match repo {
            Some(repo) => repo.common_dir.clone(),
            None => text::own(""),
        },
        is_git_repo: repo.is_some(),
        worktrees: list,
    }
}

} // verus!
