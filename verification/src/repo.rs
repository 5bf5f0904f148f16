//! Git repositories and their worktrees.

use crate::paths;
use crate::slug;
use crate::text;
use vstd::prelude::*;

verus! {

/// The id of the primary checkout.
pub const PRIMARY_WORKTREE_ID: &'static str = "main";

/// A checkout of a git repository.
#[derive(Debug)]
pub struct Repo {
    pub worktree_root: String,
    /// The git directory that all worktrees of the repository share.
    pub common_dir: String,
    /// The git directory of this worktree.
    pub git_dir: String,
}

/// The contents of a [`Repo`].
#[verifier::ext_equal]
pub struct RepoView {
    pub worktree_root: Seq<char>,
    pub common_dir: Seq<char>,
    pub git_dir: Seq<char>,
}

impl View for Repo {
    type V = RepoView;

    open spec fn view(&self) -> RepoView {
        RepoView {
            worktree_root: self.worktree_root@,
            common_dir: self.common_dir@,
            git_dir: self.git_dir@,
        }
    }
}

impl Clone for Repo {
    fn clone(&self) -> (r: Self)
        ensures
            r@ == self@,
    {
        Repo {
            worktree_root: self.worktree_root.clone(),
            common_dir: self.common_dir.clone(),
            git_dir: self.git_dir.clone(),
        }
    }
}

/// A worktree as git lists it.
#[derive(Debug)]
pub struct WorktreeEntry {
    pub path: String,
    pub branch: Option<String>,
    pub detached: bool,
    pub bare: bool,
}

/// The contents of a [`WorktreeEntry`].
#[verifier::ext_equal]
pub struct WorktreeEntryView {
    pub path: Seq<char>,
    pub branch: Option<Seq<char>>,
    pub detached: bool,
    pub bare: bool,
}

impl View for WorktreeEntry {
    type V = WorktreeEntryView;

    open spec fn view(&self) -> WorktreeEntryView {
        WorktreeEntryView {
            path: self.path@,
            branch: text::opt_view(self.branch),
            detached: self.detached,
            bare: self.bare,
        }
    }
}

impl Clone for WorktreeEntry {
    fn clone(&self) -> (r: Self)
        ensures
            r@ == self@,
    {
        WorktreeEntry {
            path: self.path.clone(),
            branch: text::clone_opt(&self.branch),
            detached: self.detached,
            bare: self.bare,
        }
    }
}

impl RepoView {
    /// Stable identity for the repository, shared by all of its worktrees.
    pub open spec fn key_of(self) -> Seq<char> {
        slug::short_hash_of(self.common_dir)
    }

    /// Whether this is the primary checkout.
    pub open spec fn is_main(self) -> bool {
        paths::same_path(self.git_dir, self.common_dir)
    }

    /// The primary checkout: the first worktree that has a checkout, or this one where none is
    /// known.
    pub open spec fn primary_root(self, entries: Seq<WorktreeEntryView>) -> Seq<char> {
        match first_checkout(entries, 0) {
            Some(path) => path,
            None => self.worktree_root,
        }
    }

    /// Stable identity for this worktree: `main` for the primary checkout, the administrative
    /// directory name for linked worktrees.
    pub open spec fn worktree_id_of(self) -> Seq<char> {
        if self.is_main() {
            "main"@
        } else {
            linked_id_of(self.git_dir)
        }
    }
}

/// The id of a linked worktree: the name of its administrative directory.
pub open spec fn linked_id_of(git_dir: Seq<char>) -> Seq<char> {
    paths::name_or(git_dir, "worktree"@)
}

/// The id of a linked worktree.
pub fn linked_worktree_id(git_dir: &str) -> (r: String)
    ensures
        r@ == linked_id_of(git_dir@),
{
    paths::file_name_or(git_dir, "worktree")
}

/// The porcelain listing, read line by line: the finished entries, and the one being read.
#[verifier::ext_equal]
pub struct Listing {
    pub done: Seq<WorktreeEntryView>,
    pub current: Option<WorktreeEntryView>,
}

/// A branch name without the prefix that git gives local branches.
pub open spec fn short_branch(branch: Seq<char>) -> Seq<char> {
    match text::strip_prefix_of(branch, "refs/heads/"@) {
        Some(name) => name,
        None => branch,
    }
}

/// The entries, with the one being read after them.
pub open spec fn flushed(l: Listing) -> Seq<WorktreeEntryView> {
    match l.current {
        Some(entry) => l.done.push(entry),
        None => l.done,
    }
}

/// The listing after one more line. A `worktree` line begins an entry; the lines after it say more
/// about that entry.
pub open spec fn listing_line(l: Listing, line: Seq<char>) -> Listing {
    match text::strip_prefix_of(line, "worktree "@) {
        Some(path) => Listing {
            done: flushed(l),
            current: Some(
                WorktreeEntryView { path, branch: None, detached: false, bare: false },
            ),
        },
        None => match l.current {
            None => l,
            Some(entry) => Listing {
                done: l.done,
                current: Some(
                    match text::strip_prefix_of(line, "branch "@) {
                        Some(branch) => WorktreeEntryView {
                            branch: Some(short_branch(branch)),
                            ..entry
                        },
                        None => if line == "detached"@ {
                            WorktreeEntryView { detached: true, ..entry }
                        } else if line == "bare"@ {
                            WorktreeEntryView { bare: true, ..entry }
                        } else {
                            entry
                        },
                    },
                ),
            },
        },
    }
}

/// The listing after the first `k` lines.
pub open spec fn listing_of(lines: Seq<Seq<char>>, k: int) -> Listing
    decreases k,
{
    if k <= 0 {
        Listing { done: Seq::empty(), current: None }
    } else {
        listing_line(listing_of(lines, k - 1), lines[k - 1])
    }
}

/// The worktrees that `git worktree list --porcelain` prints.
pub open spec fn worktrees_of(raw: Seq<char>) -> Seq<WorktreeEntryView> {
    let lines = text::lines_of(raw);
    flushed(listing_of(lines, lines.len() as int))
}

/// The first entry, from `k` on, that has a checkout.
pub open spec fn first_checkout(entries: Seq<WorktreeEntryView>, k: int) -> Option<Seq<char>>
    decreases entries.len() - k,
{
    if k < 0 || k >= entries.len() {
        None
    } else if !entries[k].bare {
        Some(entries[k].path)
    } else {
        first_checkout(entries, k + 1)
    }
}

fn read_line(done: &mut Vec<WorktreeEntry>, current: Option<WorktreeEntry>, line: &String) -> (r:
    Option<WorktreeEntry>)
    ensures
        (Listing { done: text::views(final(done)@), current: text::opt_view(r) }) == listing_line(
            Listing { done: text::views(old(done)@), current: text::opt_view(current) },
            line@,
        ),
{
    broadcast use text::views_push;

    if let Some(path) = text::strip_prefix(line, "worktree ") {
        if let Some(entry) = current {
            done.push(entry);
        }
        return Some(WorktreeEntry { path, branch: None, detached: false, bare: false });
    }
    let mut entry = match current {
        Some(entry) => entry,
        None => {
            return None;
        },
    };
    if let Some(branch) = text::strip_prefix(line, "branch ") {
        entry.branch = Some(
            match text::strip_prefix(&branch, "refs/heads/") {
                Some(name) => name,
                None => branch,
            },
        );
    } else if text::same(line, "detached") {
        entry.detached = true;
    } else if text::same(line, "bare") {
        entry.bare = true;
    }
    Some(entry)
}

/// The worktrees that `git worktree list --porcelain` prints.
pub fn parse_worktrees(raw: &str) -> (r: Vec<WorktreeEntry>)
    ensures
        text::views(r@) == worktrees_of(raw@),
{
    broadcast use text::views_push;

    let lines = text::lines(raw);
    let ghost all = text::lines_of(raw@);
    let mut done: Vec<WorktreeEntry> = Vec::new();
    let mut current: Option<WorktreeEntry> = None;
    let mut k: usize = 0;
    assert(text::views(done@) =~= Seq::<WorktreeEntryView>::empty());
    while k < lines.len()
        invariant
            text::views(lines@) == all,
            k <= lines@.len(),
            listing_of(all, k as int) == (Listing {
                done: text::views(done@),
                current: text::opt_view(current),
            }),
        decreases lines@.len() - k,
    {
        assert(all[k as int] == lines@[k as int]@);
        current = read_line(&mut done, current, &lines[k]);
        k += 1;
    }
    if let Some(entry) = current {
        done.push(entry);
    }
    done
}

impl Repo {
    /// A checkout, from what `git rev-parse` says of it.
    pub fn open(worktree_root: String, common_dir: String, git_dir: String) -> (r: Self)
        ensures
            r@ == (RepoView {
                worktree_root: worktree_root@,
                common_dir: common_dir@,
                git_dir: git_dir@,
            }),
    {
        Repo { worktree_root, common_dir, git_dir }
    }

    /// Stable identity for the repository, shared by all of its worktrees.
    pub fn key(&self) -> (r: String)
        ensures
            r@ == self@.key_of(),
    {
        slug::short_hash(&self.common_dir)
    }

    /// Stable identity for this worktree: `main` for the primary checkout, the administrative
    /// directory name for linked worktrees.
    pub fn worktree_id(&self) -> (r: String)
        ensures
            r@ == self@.worktree_id_of(),
    {
        if self.is_main_worktree() {
            return text::own("main");
        }
        linked_worktree_id(&self.git_dir)
    }

    pub fn is_main_worktree(&self) -> (r: bool)
        ensures
            r == self@.is_main(),
    {
        paths::is_same_path(&self.git_dir, &self.common_dir)
    }

    /// The worktrees of this repository, as `git worktree list --porcelain` prints them.
    pub fn worktrees(&self, raw: &str) -> (r: Vec<WorktreeEntry>)
        ensures
            text::views(r@) == worktrees_of(raw@),
    {
        parse_worktrees(raw)
    }

    /// The primary checkout, used as the source for bootstrap file sync: the first worktree that
    /// has a checkout, or this one where none is known.
    pub fn main_worktree_root(&self, entries: &Vec<WorktreeEntry>) -> (r: String)
        ensures
            r@ == self@.primary_root(text::views(entries@)),
    {
        let mut k: usize = 0;
        while k < entries.len()
            invariant
                k <= entries@.len(),
                first_checkout(text::views(entries@), 0) == first_checkout(
                    text::views(entries@),
                    k as int,
                ),
            decreases entries@.len() - k,
        {
            if !entries[k].bare {
                return entries[k].path.clone();
            }
            k += 1;
        }
        self.worktree_root.clone()
    }
}

/// All worktrees of a repository share its key.
pub proof fn worktrees_share_the_key(a: RepoView, b: RepoView)
    requires
        a.common_dir == b.common_dir,
    ensures
        a.key_of() == b.key_of(),
{
}

/// Whether a line of the listing begins a worktree.
pub open spec fn begins_a_worktree(line: Seq<char>) -> bool {
    exists|path: Seq<char>| line == #[trigger] ("worktree "@ + path)
}

proof fn beginnings_are_stripped(line: Seq<char>)
    ensures
        text::strip_prefix_of(line, "worktree "@) is Some <==> begins_a_worktree(line),
        text::strip_prefix_of(line, "worktree "@) matches Some(path) ==> line == "worktree "@ + path,
{
    let start = "worktree "@;
    if text::starts_with_of(line, start) {
        let path = line.skip(start.len() as int);
        assert(line =~= start + path);
    }
    if begins_a_worktree(line) {
        let path = choose|path: Seq<char>| line == #[trigger] (start + path);
        assert((start + path).take(start.len() as int) =~= start);
    }
}

proof fn stripped(start: Seq<char>, rest: Seq<char>)
    ensures
        text::strip_prefix_of(start + rest, start) == Some(rest),
{
    assert((start + rest).take(start.len() as int) =~= start);
    assert((start + rest).skip(start.len() as int) =~= rest);
}

/// How many of the first `k` lines begin a worktree.
pub open spec fn worktrees_begun(lines: Seq<Seq<char>>, k: int) -> nat
    decreases k,
{
    if k <= 0 {
        0
    } else if begins_a_worktree(lines[k - 1]) {
        worktrees_begun(lines, k - 1) + 1
    } else {
        worktrees_begun(lines, k - 1)
    }
}

proof fn entries_are_begun(lines: Seq<Seq<char>>, k: int)
    requires
        0 <= k <= lines.len(),
    ensures
        flushed(listing_of(lines, k)).len() == worktrees_begun(lines, k),
        forall|j: int|
            0 <= j < k && begins_a_worktree(#[trigger] lines[j]) ==> exists|i: int|
                0 <= i < flushed(listing_of(lines, k)).len() && "worktree "@ + (
                #[trigger] flushed(listing_of(lines, k))[i]).path == lines[j],
    decreases k,
{
    if k > 0 {
        entries_are_begun(lines, k - 1);
        let before = flushed(listing_of(lines, k - 1));
        let now = flushed(listing_of(lines, k));
        beginnings_are_stripped(lines[k - 1]);
        assert forall|i: int| 0 <= i < before.len() implies (#[trigger] before[i]).path
            == now[i].path by {}
        assert forall|j: int| 0 <= j < k && begins_a_worktree(#[trigger] lines[j]) implies exists|
            i: int,
        |
            0 <= i < now.len() && "worktree "@ + (#[trigger] now[i]).path == lines[j] by {
            if j < k - 1 {
                let i = choose|i: int|
                    0 <= i < before.len() && "worktree "@ + (#[trigger] before[i]).path == lines[j];
                assert(now[i].path == before[i].path);
            } else {
                assert("worktree "@ + now[before.len() as int].path == lines[j]);
            }
        }
    }
}

/// A listing holds one entry for each line that begins a worktree, with the path of that line.
pub proof fn every_worktree_is_an_entry(raw: Seq<char>)
    ensures
        worktrees_of(raw).len() == worktrees_begun(
            text::lines_of(raw),
            text::lines_of(raw).len() as int,
        ),
        forall|j: int|
            0 <= j < text::lines_of(raw).len() && begins_a_worktree(#[trigger] text::lines_of(raw)[j])
                ==> exists|i: int|
                0 <= i < worktrees_of(raw).len() && "worktree "@ + (
                #[trigger] worktrees_of(raw)[i]).path == text::lines_of(raw)[j],
{
    let lines = text::lines_of(raw);
    entries_are_begun(lines, lines.len() as int);
    let found = worktrees_of(raw);
    assert(found == flushed(listing_of(lines, lines.len() as int)));
    assert forall|j: int| 0 <= j < lines.len() && begins_a_worktree(
        #[trigger] lines[j],
    ) implies exists|i: int|
        0 <= i < found.len() && "worktree "@ + (#[trigger] found[i]).path == lines[j] by {
        let i = choose|i: int|
            0 <= i < flushed(listing_of(lines, lines.len() as int)).len() && "worktree "@ + (
            #[trigger] flushed(listing_of(lines, lines.len() as int))[i]).path == lines[j];
        assert("worktree "@ + found[i].path == lines[j]);
    }
}

/// The lines after the one that begins a worktree are about that worktree: its branch by its short
/// name, and whether it is detached or bare. Nothing else is changed by them.
pub proof fn lines_are_about_their_worktree(
    l: Listing,
    path: Seq<char>,
    branch: Seq<char>,
)
    ensures
        flushed(listing_line(l, "worktree "@ + path)) == flushed(l).push(
            WorktreeEntryView { path, branch: None, detached: false, bare: false },
        ),
        l.current matches Some(entry) ==> {
            &&& flushed(listing_line(l, "branch refs/heads/"@ + branch)) == l.done.push(
                WorktreeEntryView {
                    path: entry.path,
                    branch: Some(branch),
                    detached: entry.detached,
                    bare: entry.bare,
                },
            )
            &&& flushed(listing_line(l, "detached"@)) == l.done.push(
                WorktreeEntryView {
                    path: entry.path,
                    branch: entry.branch,
                    detached: true,
                    bare: entry.bare,
                },
            )
            &&& flushed(listing_line(l, "bare"@)) == l.done.push(
                WorktreeEntryView {
                    path: entry.path,
                    branch: entry.branch,
                    detached: entry.detached,
                    bare: true,
                },
            )
        },
{
    reveal_strlit("worktree ");
    reveal_strlit("branch ");
    reveal_strlit("refs/heads/");
    reveal_strlit("branch refs/heads/");
    reveal_strlit("detached");
    reveal_strlit("bare");
    stripped("worktree "@, path);
    let line = "branch refs/heads/"@ + branch;
    let name = "refs/heads/"@ + branch;
    assert(line =~= "branch "@ + name);
    stripped("branch "@, name);
    stripped("refs/heads/"@, branch);
    assert(line[0] == 'b');
    assert("worktree "@[0] == 'w');
    assert("branch "@[0] == 'b');
    assert("branch "@[1] == 'r');
    assert("bare"@[1] == 'a');
    assert("detached"@[0] == 'd');
    assert(!text::starts_with_of(line, "worktree "@)) by {
        if text::starts_with_of(line, "worktree "@) {
            assert(line.take(9)[0] == 'w');
        }
    }
    assert(!text::starts_with_of("detached"@, "worktree "@));
    assert(!text::starts_with_of("bare"@, "worktree "@));
    assert(!text::starts_with_of("detached"@, "branch "@)) by {
        if text::starts_with_of("detached"@, "branch "@) {
            assert("detached"@.take(7)[0] == 'b');
        }
    }
    assert(!text::starts_with_of("bare"@, "branch "@));
    assert("detached"@ != "bare"@);
}

proof fn checkouts_are_first(entries: Seq<WorktreeEntryView>, k: int) -> (at: int)
    requires
        0 <= k <= entries.len(),
    ensures
        match first_checkout(entries, k) {
            Some(path) => k <= at < entries.len() && entries[at].path == path && !entries[at].bare
                && forall|j: int| k <= j < at ==> (#[trigger] entries[j]).bare,
            None => forall|j: int| k <= j < entries.len() ==> (#[trigger] entries[j]).bare,
        },
    decreases entries.len() - k,
{
    if k >= entries.len() || !entries[k].bare {
        k
    } else {
        checkouts_are_first(entries, k + 1)
    }
}

/// The primary checkout is the first worktree with files in it, and this one where there is none.
pub proof fn the_primary_checkout_has_files(repo: RepoView, entries: Seq<WorktreeEntryView>) -> (at:
    int)
    ensures
        (forall|j: int| 0 <= j < entries.len() ==> (#[trigger] entries[j]).bare)
            ==> repo.primary_root(entries) == repo.worktree_root,
        (exists|j: int| 0 <= j < entries.len() && !(#[trigger] entries[j]).bare) ==> 0 <= at
            < entries.len() && !entries[at].bare && repo.primary_root(entries) == entries[at].path
            && forall|j: int| 0 <= j < at ==> (#[trigger] entries[j]).bare,
{
    checkouts_are_first(entries, 0)
}

} // verus!
