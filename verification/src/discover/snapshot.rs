//! The files of a repository, as discovery sees them. Nothing from the repository is executed.

use crate::bootstrap;
use crate::dict;
use crate::dict::Dict;
use crate::paths;
use crate::text;
use crate::value;
use crate::value::Value;
use vstd::prelude::*;

verus! {

/// What stands at a path: a file, with its text where that could be read, or a directory, with the
/// names in it.
#[derive(Debug)]
pub enum Entry {
    File(Option<String>),
    Dir(Vec<String>),
}

/// The contents of a [`Entry`].
#[verifier::ext_equal]
pub enum EntryView {
    File(Option<Seq<char>>),
    Dir(Seq<Seq<char>>),
}

impl View for Entry {
    type V = EntryView;

    open spec fn view(&self) -> EntryView {
        match self {
            Entry::File(f0) => EntryView::File(text::opt_view(*f0)),
            Entry::Dir(f0) => EntryView::Dir(text::views(f0@)),
        }
    }
}

/// The part of a repository that discovery looks at. The entries stand under plain absolute paths:
/// no empty component and no `.` in them.
#[derive(Debug)]
pub struct Snapshot {
    /// Absolute path of the repository root.
    pub root: String,
    pub entries: Dict<Entry>,
}

/// The contents of a [`Snapshot`].
#[verifier::ext_equal]
pub struct SnapshotView {
    pub root: Seq<char>,
    pub entries: Seq<(Seq<char>, EntryView)>,
}

impl View for Snapshot {
    type V = SnapshotView;

    open spec fn view(&self) -> SnapshotView {
        SnapshotView {
            root: self.root@,
            entries: self.entries@,
        }
    }
}

/// The components of a path among the first `k` parts, without those that name nothing.
pub open spec fn plain_parts(parts: Seq<Seq<char>>, k: int) -> Seq<Seq<char>>
    decreases k,
{
    if k <= 0 {
        Seq::empty()
    } else if parts[k - 1].len() == 0 || parts[k - 1] == "."@ {
        plain_parts(parts, k - 1)
    } else {
        plain_parts(parts, k - 1).push(parts[k - 1])
    }
}

/// A path without empty components and without `.`.
pub open spec fn plain_of(path: Seq<char>) -> Seq<char> {
    let parts = text::split_of(path, '/');
    let joined = text::join_of(plain_parts(parts, parts.len() as int), "/"@);
    if path.len() > 0 && path[0] == '/' {
        "/"@ + joined
    } else {
        joined
    }
}

/// A path without empty components and without `.`.
pub fn plain(path: &str) -> (r: String)
    ensures
        r@ == plain_of(path@),
{
    let parts = text::split(path, '/');
    let ghost all = text::views(parts@);
    let mut kept: Vec<String> = Vec::new();
    let mut k: usize = 0;
    assert(text::views(kept@) =~= Seq::<Seq<char>>::empty());
    while k < parts.len()
        invariant
            all == text::views(parts@),
            k <= parts@.len(),
            text::views(kept@) == plain_parts(all, k as int),
        decreases parts@.len() - k,
    {
        assert(all[k as int] == parts@[k as int]@);
        if text::length(&parts[k]) == 0 || text::same(&parts[k], ".") {
        } else {
            text::add(&mut kept, &parts[k]);
        }
        k += 1;
    }
    let joined = text::join(&kept, "/");
    if text::length(path) > 0 && path.get_char(0) == '/' {
        text::concat("/", &joined)
    } else {
        joined
    }
}

/// How deep below the root, or below a directory that a workspace names, discovery looks.
pub const WALK_DEPTH: usize = 10;

/// Whether the text of a file of this name is part of a snapshot.
pub open spec fn is_readable(name: Seq<char>) -> bool {
    ||| bootstrap::has_extension(name, ".json"@)
    ||| bootstrap::has_extension(name, ".yaml"@)
    ||| bootstrap::has_extension(name, ".yml"@)
    ||| bootstrap::has_extension(name, ".toml"@)
    ||| bootstrap::has_extension(name, ".js"@)
    ||| bootstrap::has_extension(name, ".cjs"@)
    ||| bootstrap::has_extension(name, ".mjs"@)
    ||| bootstrap::has_extension(name, ".ts"@)
    ||| bootstrap::has_extension(name, ".cts"@)
    ||| bootstrap::has_extension(name, ".mts"@)
    ||| bootstrap::has_extension(name, ".tsx"@)
    ||| bootstrap::has_extension(name, ".jsx"@)
    ||| text::starts_with_of(name, ".env"@)
    ||| name == "justfile"@
    ||| name == "Justfile"@
    ||| name == ".justfile"@
    ||| name == "Procfile"@
}

/// Whether the text of a file of this name is part of a snapshot.
pub fn may_be_read(name: &str) -> (r: bool)
    ensures
        r == is_readable(name@),
{
    bootstrap::has_ext(name, ".json") || bootstrap::has_ext(name, ".yaml") || bootstrap::has_ext(
        name,
        ".yml",
    ) || bootstrap::has_ext(name, ".toml") || bootstrap::has_ext(name, ".js") || bootstrap::has_ext(
        name,
        ".cjs",
    ) || bootstrap::has_ext(name, ".mjs") || bootstrap::has_ext(name, ".ts") || bootstrap::has_ext(
        name,
        ".cts",
    ) || bootstrap::has_ext(name, ".mts") || bootstrap::has_ext(name, ".tsx") || bootstrap::has_ext(
        name,
        ".jsx",
    ) || text::starts_with(name, ".env") || text::same(name, "justfile") || text::same(
        name,
        "Justfile",
    ) || text::same(name, ".justfile") || text::same(name, "Procfile")
}

/// Whether a directory of this name holds generated output, or is hidden: no app is looked for
/// below it, though it may be one itself.
pub open spec fn is_generated(name: Seq<char>) -> bool {
    ||| text::starts_with_of(name, "."@) && name != ".storybook"@
    ||| name == "node_modules"@
    ||| name == "target"@
    ||| name == "dist"@
}

/// How many levels of a directory are looked at, where `left` are left above it; none where only
/// its name counts.
pub open spec fn levels_of(name: Seq<char>, left: usize) -> Option<usize> {
    if left > 0 {
        if is_generated(name) {
            Some(0)
        } else {
            Some((left - 1) as usize)
        }
    } else if name == ".storybook"@ {
        Some(0)
    } else {
        None
    }
}

/// How many levels of a directory are looked at, where `left` are left above it.
pub fn levels_below(name: &str, left: usize) -> (r: Option<usize>)
    ensures
        r == levels_of(name@, left),
{
    if left > 0 {
        if (text::starts_with(name, ".") && !text::same(name, ".storybook")) || text::same(
            name,
            "node_modules",
        ) || text::same(name, "target") || text::same(name, "dist") {
            Some(0)
        } else {
            Some(left - 1)
        }
    } else if text::same(name, ".storybook") {
        Some(0)
    } else {
        None
    }
}

/// The directory that a workspace pattern starts from: what stands before its first `*`.
pub open spec fn pattern_dir_of(root: Seq<char>, pattern: Seq<char>) -> Seq<char> {
    plain_of(paths::join_of(root, text::without_trailing(text::split_of(pattern, '*')[0], '/')))
}

/// The directory that a workspace pattern starts from.
pub fn pattern_dir(root: &str, pattern: &str) -> (r: String)
    ensures
        r@ == pattern_dir_of(root@, pattern@),
{
    let parts = text::split(pattern, '*');
    assert(text::views(parts@)[0] == parts@[0]@);
    plain(&paths::join(root, &text::strip_trailing(&parts[0], '/')))
}

impl SnapshotView {
    pub open spec fn at(self, path: Seq<char>) -> Option<EntryView> {
        dict::lookup(self.entries, plain_of(path))
    }

    pub open spec fn file_at(self, path: Seq<char>) -> bool {
        self.at(path) matches Some(EntryView::File(_))
    }

    pub open spec fn dir_at(self, path: Seq<char>) -> bool {
        self.at(path) matches Some(EntryView::Dir(_))
    }

    /// The text of a file.
    pub open spec fn text_at(self, path: Seq<char>) -> Option<Seq<char>> {
        match self.at(path) {
            Some(EntryView::File(content)) => content,
            _ => None,
        }
    }

    /// The names in a directory.
    pub open spec fn names_at(self, path: Seq<char>) -> Option<Seq<Seq<char>>> {
        match self.at(path) {
            Some(EntryView::Dir(names)) => Some(names),
            _ => None,
        }
    }

    /// What the YAML document at a path holds.
    pub open spec fn yaml_at(self, path: Seq<char>) -> Option<Value> {
        match self.text_at(path) {
            Some(raw) => value::yaml_value(raw),
            None => None,
        }
    }

    /// What the JSON document at a path holds.
    pub open spec fn json_at(self, path: Seq<char>) -> Option<Value> {
        match self.text_at(path) {
            Some(raw) => value::json_value(raw),
            None => None,
        }
    }

    /// What the TOML document at a path holds.
    pub open spec fn toml_at(self, path: Seq<char>) -> Option<Value> {
        match self.text_at(path) {
            Some(raw) => value::toml_value(raw),
            None => None,
        }
    }
}

impl Snapshot {
    fn get(&self, path: &str) -> (r: Option<&Entry>)
        ensures
            match r {
                Some(entry) => self@.at(path@) == Some(entry@),
                None => self@.at(path@) is None,
            },
    {
        self.entries.get(&plain(path))
    }

    pub fn is_file(&self, path: &str) -> (r: bool)
        ensures
            r == self@.file_at(path@),
    {
        match self.get(path) {
            Some(Entry::File(_)) => true,
            _ => false,
        }
    }

    pub fn is_dir(&self, path: &str) -> (r: bool)
        ensures
            r == self@.dir_at(path@),
    {
        match self.get(path) {
            Some(Entry::Dir(_)) => true,
            _ => false,
        }
    }

    /// The text of a file, where it could be read.
    pub fn read(&self, path: &str) -> (r: Option<&String>)
        ensures
            match r {
                Some(content) => self@.text_at(path@) == Some(content@),
                None => self@.text_at(path@) is None,
            },
    {
        match self.get(path) {
            Some(Entry::File(Some(content))) => Some(content),
            _ => None,
        }
    }

    /// The names in a directory.
    pub fn names(&self, path: &str) -> (r: Option<&Vec<String>>)
        ensures
            match r {
                Some(names) => self@.names_at(path@) == Some(text::views(names@)),
                None => self@.names_at(path@) is None,
            },
    {
        match self.get(path) {
            Some(Entry::Dir(names)) => Some(names),
            _ => None,
        }
    }

    /// What the YAML document at a path holds.
    pub fn read_yaml(&self, path: &str) -> (r: Option<Value>)
        ensures
            r == self@.yaml_at(path@),
    {
        match self.read(path) {
            Some(raw) => value::parse_yaml(raw),
            None => None,
        }
    }

    /// What the JSON document at a path holds.
    pub fn read_json(&self, path: &str) -> (r: Option<Value>)
        ensures
            r == self@.json_at(path@),
    {
        match self.read(path) {
            Some(raw) => value::parse_json(raw),
            None => None,
        }
    }

    /// What the TOML document at a path holds.
    pub fn read_toml(&self, path: &str) -> (r: Option<Value>)
        ensures
            r == self@.toml_at(path@),
    {
        match self.read(path) {
            Some(raw) => value::parse_toml(raw),
            None => None,
        }
    }
}

} // verus!
