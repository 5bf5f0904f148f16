//! Paths, as text, and the machine-wide locations magictree owns.

use crate::text;
use vstd::prelude::*;

verus! {

// ---------------------------------------------------------------------------
// Paths as text
// ---------------------------------------------------------------------------

/// `rel` below `base`; an absolute `rel` stands alone.
pub open spec fn join_of(base: Seq<char>, rel: Seq<char>) -> Seq<char> {
    if rel.len() > 0 && rel[0] == '/' {
        rel
    } else if base.len() == 0 || base.last() == '/' {
        base + rel
    } else {
        base + "/"@ + rel
    }
}

/// `rel` below `base`.
pub fn join(base: &str, rel: &str) -> (r: String)
    ensures
        r@ == join_of(base@, rel@),
{
    let n: usize = text::length(base);
    if text::length(rel) > 0 && rel.get_char(0) == '/' {
        text::own(rel)
    } else if n == 0 || base.get_char(n - 1) == '/' {
        text::concat(base, rel)
    } else {
        let mut r = text::own(base);
        r.append("/");
        r.append(rel);
        r
    }
}

// ---------------------------------------------------------------------------
// Components
// ---------------------------------------------------------------------------

/// Where the component that starts at `k` ends: at the next slash, or at the end of the path.
pub open spec fn part_end(path: Seq<char>, k: int) -> int {
    match text::index_from(path, '/', k) {
        Some(e) => e,
        None => path.len() as int,
    }
}

/// Where the components of a path stand, from `k` on: the root, and what stands between slashes.
/// A slash more, and a dot anywhere but at the start, are no components.
pub open spec fn parts_from(path: Seq<char>, k: int) -> Seq<(int, int)>
    decreases path.len() - k,
    when 0 <= k
    via parts_from_ends
{
    if k >= path.len() {
        Seq::empty()
    } else if path[k] == '/' {
        if k == 0 {
            seq![(0int, 1int)] + parts_from(path, 1)
        } else {
            parts_from(path, k + 1)
        }
    } else if k > 0 && path.subrange(k, part_end(path, k)) == seq!['.'] {
        parts_from(path, part_end(path, k))
    } else {
        seq![(k, part_end(path, k))] + parts_from(path, part_end(path, k))
    }
}

#[via_fn]
proof fn parts_from_ends(path: Seq<char>, k: int) {
    if 0 <= k < path.len() && path[k] != '/' {
        text::index_from_is_least(path, '/', k);
    }
}

/// Where the components of a path stand.
pub open spec fn parts_of(path: Seq<char>) -> Seq<(int, int)> {
    parts_from(path, 0)
}

/// The components of a path: `/` for the root, `.` for a leading dot, and the names between
/// slashes.
pub open spec fn components_of(path: Seq<char>) -> Seq<Seq<char>> {
    let parts = parts_of(path);
    Seq::new(parts.len(), |i: int| path.subrange(parts[i].0, parts[i].1))
}

/// The components stand one behind the other, and none is empty.
proof fn parts_are_apart(path: Seq<char>, k: int)
    requires
        0 <= k,
    ensures
        forall|i: int|
            0 <= i < parts_from(path, k).len() ==> k <= (#[trigger] parts_from(path, k)[i]).0
                < parts_from(path, k)[i].1 <= path.len(),
        forall|i: int, j: int|
            0 <= i < j < parts_from(path, k).len() ==> (#[trigger] parts_from(path, k)[i]).1 <= (
            #[trigger] parts_from(path, k)[j]).0,
    decreases path.len() - k,
{
    if k < path.len() {
        text::index_from_is_least(path, '/', k);
        let next = if path[k] == '/' {
            k + 1
        } else {
            part_end(path, k)
        };
        parts_are_apart(path, next);
        let rest = parts_from(path, next);
        let all = parts_from(path, k);
        if all.len() != rest.len() {
            assert(all == seq![(k, next)] + rest);
            assert forall|i: int| 0 <= i < all.len() implies k <= (#[trigger] all[i]).0 < all[i].1
                <= path.len() by {
                if i > 0 {
                    assert(all[i] == rest[i - 1]);
                }
            }
            assert forall|i: int, j: int| 0 <= i < j < all.len() implies (#[trigger] all[i]).1 <= (
            #[trigger] all[j]).0 by {
                assert(all[j] == rest[j - 1]);
                if i > 0 {
                    assert(all[i] == rest[i - 1]);
                }
            }
        }
    }
}

/// The ends of a component, as mathematical numbers.
spec fn ends(s: Seq<(usize, usize)>) -> Seq<(int, int)> {
    Seq::new(s.len(), |i: int| (s[i].0 as int, s[i].1 as int))
}

/// Where the components of a path stand.
fn parts(path: &Vec<char>) -> (r: Vec<(usize, usize)>)
    ensures
        ends(r@) == parts_of(path@),
{
    let mut r: Vec<(usize, usize)> = Vec::new();
    let mut k: usize = 0;
    assert(ends(r@) + parts_of(path@) =~= parts_of(path@));
    while k < path.len()
        invariant
            k <= path@.len(),
            ends(r@) + parts_from(path@, k as int) == parts_of(path@),
        decreases path@.len() - k,
    {
        let ghost before = r@;
        proof {
            text::index_from_is_least(path@, '/', k as int);
        }
        let end: usize = if path[k] == '/' {
            k + 1
        } else {
            match text::index_chars(path, '/', k) {
                Some(e) => e,
                None => path.len(),
            }
        };
        let dot = end == k + 1 && path[k] == '.';
        proof {
            let span = path@.subrange(k as int, end as int);
            if dot {
                assert(span =~= seq!['.']);
            } else if span == seq!['.'] {
                assert(span[0] == path@[k as int]);
                assert(span.len() == seq!['.'].len());
            }
        }
        if k == 0 || !(path[k] == '/' || dot) {
            assert(parts_from(path@, k as int) == seq![(k as int, end as int)] + parts_from(
                path@,
                end as int,
            ));
            r.push((k, end));
            assert(ends(r@) =~= ends(before).push((k as int, end as int)));
            assert(ends(r@) + parts_from(path@, end as int) =~= ends(before) + (seq![
                (k as int, end as int),
            ] + parts_from(path@, end as int)));
        } else {
            assert(parts_from(path@, k as int) == parts_from(path@, end as int));
        }
        k = end;
    }
    assert(ends(r@) + Seq::<(int, int)>::empty() =~= ends(r@));
    r
}

/// The components of a path.
pub fn components(path: &str) -> (r: Vec<String>)
    ensures
        text::views(r@) == components_of(path@),
{
    let path = text::chars(path);
    let parts = parts(&path);
    let mut r: Vec<String> = Vec::new();
    let mut i: usize = 0;
    proof {
        parts_are_apart(path@, 0);
    }
    while i < parts.len()
        invariant
            i <= parts@.len(),
            ends(parts@) == parts_of(path@),
            text::views(r@) == components_of(path@).take(i as int),
            forall|i: int|
                0 <= i < parts_of(path@).len() ==> 0 <= (#[trigger] parts_of(path@)[i]).0
                    < parts_of(path@)[i].1 <= path@.len(),
        decreases parts@.len() - i,
    {
        broadcast use text::views_push;

        assert(ends(parts@)[i as int] == parts_of(path@)[i as int]);
        r.push(text::slice(&path, parts[i].0, parts[i].1));
        i += 1;
        assert(text::views(r@) =~= components_of(path@).take(i as int));
    }
    assert(components_of(path@).take(i as int) =~= components_of(path@));
    r
}

/// Whether a component is a name: not the root, nor `.`, nor `..`.
pub open spec fn is_name(component: Seq<char>) -> bool {
    component != "/"@ && component != "."@ && component != ".."@
}

/// The last component of a path, where it is a name.
pub open spec fn file_name_of(path: Seq<char>) -> Option<Seq<char>> {
    let components = components_of(path);
    if components.len() > 0 && is_name(components.last()) {
        Some(components.last())
    } else {
        None
    }
}

/// The last component of a path, where it is a name.
pub fn file_name(path: &str) -> (r: Option<String>)
    ensures
        text::opt_view(r) == file_name_of(path@),
{
    let mut components = components(path);
    match components.pop() {
        Some(name) => {
            assert(text::views(components@.push(name)).last() == name@);
            if text::same(&name, "/") || text::same(&name, ".") || text::same(&name, "..") {
                None
            } else {
                Some(name)
            }
        },
        None => None,
    }
}

/// A path without its last component: what comes before it, up to the end of the component
/// before. The root, and the empty path, have none.
pub open spec fn parent_of(path: Seq<char>) -> Option<Seq<char>> {
    let parts = parts_of(path);
    if parts.len() == 0 || path.subrange(parts.last().0, parts.last().1) == seq!['/'] {
        None
    } else if parts.len() == 1 {
        Some(Seq::empty())
    } else {
        Some(path.take(parts[parts.len() - 2].1))
    }
}

/// A path without its last component, which is shorter than the path.
pub fn parent(path: &str) -> (r: Option<String>)
    ensures
        text::opt_view(r) == parent_of(path@),
        r matches Some(p) ==> p@.len() < path@.len(),
{
    let path = text::chars(path);
    let parts = parts(&path);
    let n: usize = parts.len();
    proof {
        parts_are_apart(path@, 0);
        assert(ends(parts@).len() == n);
        if n > 0 {
            assert(ends(parts@)[n - 1] == parts_of(path@)[n - 1]);
        }
        if n > 1 {
            assert(ends(parts@)[n - 2] == parts_of(path@)[n - 2]);
        }
    }
    if n == 0 {
        return None;
    }
    let last = parts[n - 1];
    let root = last.1 - last.0 == 1 && path[last.0] == '/';
    proof {
        let span = path@.subrange(last.0 as int, last.1 as int);
        if root {
            assert(span =~= seq!['/']);
        } else if span == seq!['/'] {
            assert(span[0] == path@[last.0 as int]);
            assert(span.len() == seq!['/'].len());
        }
    }
    if root {
        None
    } else if n == 1 {
        let r = String::new();
        assert(r@ =~= Seq::empty());
        Some(r)
    } else {
        let to: usize = parts[n - 2].1;
        assert(path@.subrange(0, to as int) =~= path@.take(to as int));
        Some(text::slice(&path, 0, to))
    }
}

/// Whether the components of `path` begin with those of `base`.
pub open spec fn below(path: Seq<char>, base: Seq<char>) -> bool {
    components_of(base).is_prefix_of(components_of(path))
}

/// Whether the components of `path` begin with those of `base`.
pub fn is_below(path: &str, base: &str) -> (r: bool)
    ensures
        r == below(path@, base@),
{
    let whole = components(path);
    let start = components(base);
    if start.len() > whole.len() {
        return false;
    }
    let mut i: usize = 0;
    while i < start.len()
        invariant
            i <= start@.len() <= whole@.len(),
            text::views(whole@) == components_of(path@),
            text::views(start@) == components_of(base@),
            forall|j: int| 0 <= j < i ==> components_of(base@)[j] == components_of(path@)[j],
        decreases start@.len() - i,
    {
        assert(text::views(whole@)[i as int] == whole@[i as int]@);
        assert(text::views(start@)[i as int] == start@[i as int]@);
        if !text::same(&whole[i], &start[i]) {
            return false;
        }
        i += 1;
    }
    assert(components_of(base@) =~= components_of(path@).take(i as int));
    true
}

/// Whether two paths have the same components.
pub open spec fn same_path(a: Seq<char>, b: Seq<char>) -> bool {
    components_of(a) == components_of(b)
}

/// Whether two paths have the same components.
pub fn is_same_path(a: &str, b: &str) -> (r: bool)
    ensures
        r == same_path(a@, b@),
{
    text::same_list(&components(a), &components(b))
}

/// Whether one of some paths has the components of `path`.
pub open spec fn holds(list: Seq<Seq<char>>, path: Seq<char>) -> bool {
    exists|i: int| 0 <= i < list.len() && same_path(#[trigger] list[i], path)
}

/// Whether one of some paths has the components of `path`.
pub fn is_held(list: &Vec<String>, path: &str) -> (r: bool)
    ensures
        r == holds(text::views(list@), path@),
{
    let ghost all = text::views(list@);
    let mut i: usize = 0;
    while i < list.len()
        invariant
            all == text::views(list@),
            i <= list@.len(),
            forall|j: int| 0 <= j < i ==> !same_path(#[trigger] all[j], path@),
        decreases list@.len() - i,
    {
        assert(all[i as int] == list@[i as int]@);
        if is_same_path(&list[i], path) {
            return true;
        }
        i += 1;
    }
    false
}

/// What follows the components of `base` in `path`, where `path` begins with them.
pub open spec fn relative_of(path: Seq<char>, base: Seq<char>) -> Option<Seq<char>> {
    let parts = parts_of(path);
    let k = components_of(base).len();
    if !below(path, base) {
        None
    } else if k == parts.len() {
        Some(Seq::empty())
    } else {
        Some(path.subrange(parts[k as int].0, parts.last().1))
    }
}

/// What follows the components of `base` in `path`, where `path` begins with them.
pub fn relative(path: &str, base: &str) -> (r: Option<String>)
    ensures
        text::opt_view(r) == relative_of(path@, base@),
{
    if !is_below(path, base) {
        return None;
    }
    let k: usize = depth(base);
    let path = text::chars(path);
    let parts = parts(&path);
    let n: usize = parts.len();
    proof {
        parts_are_apart(path@, 0);
        assert(ends(parts@).len() == n);
        assert(components_of(path@).len() == n);
        if k < n {
            assert(ends(parts@)[k as int] == parts_of(path@)[k as int]);
            assert(ends(parts@)[n - 1] == parts_of(path@)[n - 1]);
        }
    }
    if k == n {
        Some(String::new())
    } else {
        Some(text::slice(&path, parts[k].0, parts[n - 1].1))
    }
}

/// The number of a path's components.
pub open spec fn depth_of(path: Seq<char>) -> nat {
    components_of(path).len()
}

/// The number of a path's components.
pub fn depth(path: &str) -> (r: usize)
    ensures
        r == depth_of(path@),
{
    let parts = parts(&text::chars(path));
    assert(ends(parts@).len() == parts.len());
    parts.len()
}

/// Where a component of this sort stands among others: the root, then `.`, then `..`, then names.
pub open spec fn rank_of(component: Seq<char>) -> int {
    if component == "/"@ {
        0
    } else if component == "."@ {
        1
    } else if component == ".."@ {
        2
    } else {
        3
    }
}

fn rank(component: &str) -> (r: u8)
    ensures
        r == rank_of(component@),
{
    if text::same(component, "/") {
        0
    } else if text::same(component, ".") {
        1
    } else if text::same(component, "..") {
        2
    } else {
        3
    }
}

/// Whether one list of components comes before another, by the first that differs.
pub open spec fn components_before(a: Seq<Seq<char>>, b: Seq<Seq<char>>) -> bool
    decreases a.len(),
{
    if b.len() == 0 {
        false
    } else if a.len() == 0 {
        true
    } else if a[0] == b[0] {
        components_before(a.skip(1), b.skip(1))
    } else if rank_of(a[0]) == rank_of(b[0]) {
        text::before(a[0], b[0])
    } else {
        rank_of(a[0]) < rank_of(b[0])
    }
}

/// Whether `a` comes before `b` in the order of their components.
pub open spec fn path_before(a: Seq<char>, b: Seq<char>) -> bool {
    components_before(components_of(a), components_of(b))
}

/// Whether `a` comes before `b` in the order of their components.
pub fn is_path_before(a: &str, b: &str) -> (r: bool)
    ensures
        r == path_before(a@, b@),
{
    let x = components(a);
    let y = components(b);
    let ghost p = components_of(a@);
    let ghost q = components_of(b@);
    let mut i: usize = 0;
    assert(p.skip(0) =~= p);
    assert(q.skip(0) =~= q);
    while i < x.len() && i < y.len()
        invariant
            p == components_of(a@),
            q == components_of(b@),
            text::views(x@) == p,
            text::views(y@) == q,
            i <= x@.len(),
            i <= y@.len(),
            components_before(p, q) == components_before(p.skip(i as int), q.skip(i as int)),
        decreases x@.len() - i,
    {
        assert(p.skip(i as int).skip(1) =~= p.skip(i + 1));
        assert(q.skip(i as int).skip(1) =~= q.skip(i + 1));
        assert(text::views(x@)[i as int] == x@[i as int]@);
        assert(text::views(y@)[i as int] == y@[i as int]@);
        assert(p.skip(i as int)[0] == p[i as int]);
        assert(q.skip(i as int)[0] == q[i as int]);
        if !text::same(&x[i], &y[i]) {
            let first: u8 = rank(&x[i]);
            let second: u8 = rank(&y[i]);
            return if first == second {
                text::is_before(&x[i], &y[i])
            } else {
                first < second
            };
        }
        i += 1;
    }
    i < y.len()
}

/// The paths with `x` among them: at its place in the order of components, where none has the same
/// components.
pub open spec fn with_path(s: Seq<Seq<char>>, x: Seq<char>) -> Seq<Seq<char>>
    decreases s.len(),
{
    if s.len() == 0 {
        seq![x]
    } else if same_path(s[0], x) {
        s
    } else if path_before(x, s[0]) {
        seq![x] + s
    } else {
        seq![s[0]] + with_path(s.skip(1), x)
    }
}

/// Adds `x` to paths in the order of their components, where none has the same components.
pub fn add_path(v: &mut Vec<String>, x: String)
    ensures
        text::views(final(v)@) == with_path(text::views(old(v)@), x@),
{
    let ghost all = text::views(v@);
    let ghost goal = with_path(all, x@);
    let ghost xv = x@;
    let mut i: usize = 0;
    assert(all.skip(0) =~= all);
    assert(all.take(0) + with_path(all, x@) =~= with_path(all, x@));
    while i < v.len() && !is_same_path(&v[i], &x) && !is_path_before(&x, &v[i])
        invariant
            i <= v@.len(),
            all == text::views(v@),
            goal == all.take(i as int) + with_path(all.skip(i as int), x@),
        decreases v@.len() - i,
    {
        let ghost rest = all.skip(i as int);
        assert(rest.skip(1) =~= all.skip(i + 1));
        assert(rest[0] == v@[i as int]@);
        assert(all.take(i + 1) + with_path(all.skip(i + 1), x@) =~= all.take(i as int) + (seq![
            rest[0],
        ] + with_path(rest.skip(1), x@)));
        i += 1;
    }
    let ghost rest = all.skip(i as int);
    if i < v.len() {
        assert(rest[0] == v@[i as int]@);
    }
    if i < v.len() && is_same_path(&v[i], &x) {
        assert(text::views(v@) =~= all.take(i as int) + rest);
    } else {
        v.insert(i, x);
        assert(text::views(v@) =~= all.take(i as int) + (seq![xv] + rest));
        assert(rest.len() == 0 ==> seq![xv] + rest =~= seq![xv]);
    }
    assert(text::views(v@) == goal);
}

/// A path as it is shown beside `root`: relative to it where it lies below it.
pub open spec fn display_relative_of(path: Seq<char>, root: Seq<char>) -> Seq<char> {
    match relative_of(path, root) {
        Some(rel) => rel,
        None => path,
    }
}

/// A path as it is shown beside `root`: relative to it where it lies below it.
pub fn display_relative(path: &str, root: &str) -> (r: String)
    ensures
        r@ == display_relative_of(path@, root@),
{
    match relative(path, root) {
        Some(rel) => rel,
        None => text::own(path),
    }
}

/// A directory as it is shown beside `root`: `.` for the root itself.
pub open spec fn shown_dir_of(path: Seq<char>, root: Seq<char>) -> Seq<char> {
    if display_relative_of(path, root).len() == 0 {
        "."@
    } else {
        display_relative_of(path, root)
    }
}

/// A directory as it is shown beside `root`: `.` for the root itself.
pub fn shown_dir(path: &str, root: &str) -> (r: String)
    ensures
        r@ == shown_dir_of(path@, root@),
{
    let shown = display_relative(path, root);
    if text::length(&shown) == 0 {
        text::own(".")
    } else {
        shown
    }
}

/// The last component of a path, or `fallback` where it has none.
pub open spec fn name_or(path: Seq<char>, fallback: Seq<char>) -> Seq<char> {
    match file_name_of(path) {
        Some(name) => if name.len() > 0 {
            name
        } else {
            fallback
        },
        None => fallback,
    }
}

/// The last component of a path, or `fallback` where it has none.
pub(crate) fn file_name_or(path: &str, fallback: &str) -> (r: String)
    ensures
        r@ == name_or(path@, fallback@),
{
    match file_name(path) {
        Some(name) => if text::length(&name) > 0 {
            name
        } else {
            text::own(fallback)
        },
        None => text::own(fallback),
    }
}

// ---------------------------------------------------------------------------
// Locations
// ---------------------------------------------------------------------------

/// Machine-global locations owned by magictree.
#[derive(Debug)]
pub struct Paths {
    pub state_dir: String,
    pub config_dir: String,
}

impl Paths {
    /// The locations that the environment names, or those below the home directory. Fails where
    /// one is needed and there is no home directory.
    pub fn new(state: Option<String>, config: Option<String>, home: Option<String>) -> (r: Result<
        Paths,
        String,
    >)
        ensures
            match r {
                Ok(p) => {
                    &&& (state is Some && config is Some) || home is Some
                    &&& p.state_dir@ == (match state {
                        Some(dir) => dir@,
                        None => join_of(home.unwrap()@, ".local/state/magictree"@),
                    })
                    &&& p.config_dir@ == (match config {
                        Some(dir) => dir@,
                        None => join_of(home.unwrap()@, ".config/magictree"@),
                    })
                },
                Err(e) => (state is None || config is None) && home is None && e@
                    == "HOME is not set"@,
            },
    {
        let state_dir = match state {
            Some(dir) => dir,
            None => match &home {
                Some(home) => join(home, ".local/state/magictree"),
                None => {
                    return Err(text::own("HOME is not set"));
                },
            },
        };
        let config_dir = match config {
            Some(dir) => dir,
            None => match &home {
                Some(home) => join(home, ".config/magictree"),
                None => {
                    return Err(text::own("HOME is not set"));
                },
            },
        };
        Ok(Paths { state_dir, config_dir })
    }

    pub fn blocks_dir(&self) -> (r: String)
        ensures
            r@ == join_of(self.state_dir@, "blocks"@),
    {
        join(&self.state_dir, "blocks")
    }

    /// Runtime state of every worktree magictree has touched, keyed by repository then worktree so
    /// it outlives the checkout it describes.
    pub fn worktrees_dir(&self) -> (r: String)
        ensures
            r@ == join_of(self.state_dir@, "worktrees"@),
    {
        join(&self.state_dir, "worktrees")
    }

    pub fn worktree_dir(&self, repo_key: &str, worktree_id: &str) -> (r: String)
        ensures
            r@ == join_of(
                join_of(join_of(self.state_dir@, "worktrees"@), repo_key@),
                worktree_id@,
            ),
    {
        let worktrees = self.worktrees_dir();
        let repo = join(&worktrees, repo_key);
        join(&repo, worktree_id)
    }

    pub fn config_file(&self) -> (r: String)
        ensures
            r@ == join_of(self.config_dir@, "config.toml"@),
    {
        join(&self.config_dir, "config.toml")
    }

    /// Where the last check for a release is kept.
    pub fn update_check_file(&self) -> (r: String)
        ensures
            r@ == join_of(self.state_dir@, "update-check.json"@),
    {
        join(&self.state_dir, "update-check.json")
    }
}

/// Whether a text is one name of a path: not empty, without a slash, and not a dot.
pub open spec fn is_plain_name(name: Seq<char>) -> bool {
    name.len() > 0 && !name.contains('/') && name != seq!['.']
}

proof fn ends_agree(base: Seq<char>, name: Seq<char>, k: int)
    requires
        0 <= k < base.len(),
    ensures
        part_end(base + seq!['/'] + name, k) == part_end(base, k),
        k <= part_end(base, k) <= base.len(),
{
    let path = base + seq!['/'] + name;
    let n = base.len() as int;
    text::index_from_is_least(base, '/', k);
    text::index_from_is_least(path, '/', k);
    assert(path[n] == '/');
    assert forall|j: int| 0 <= j < n implies path[j] == base[j] by {}
}

proof fn joined_parts(base: Seq<char>, name: Seq<char>, k: int)
    requires
        base.len() > 0,
        is_plain_name(name),
        0 <= k <= base.len(),
    ensures
        ({
            let path = base + seq!['/'] + name;
            parts_from(path, k) == parts_from(base, k).push(
                (base.len() as int + 1, path.len() as int),
            )
        }),
    decreases base.len() - k,
{
    let path = base + seq!['/'] + name;
    let n = base.len() as int;
    let own = (n + 1, path.len() as int);
    if k == n {
        assert(path[n] == '/');
        assert(parts_from(base, n) =~= Seq::<(int, int)>::empty());
        text::index_from_is_least(path, '/', n + 1);
        assert(part_end(path, n + 1) == path.len()) by {
            if let Some(e) = text::index_from(path, '/', n + 1) {
                assert(name[e - n - 1] == '/');
                assert(name.contains('/'));
            }
        }
        assert(path[n + 1] == name[0]);
        assert(name[0] != '/') by {
            if name[0] == '/' {
                assert(name.contains(name[0]));
            }
        }
        assert(path.subrange(n + 1, path.len() as int) =~= name);
        assert(parts_from(path, path.len() as int) =~= Seq::<(int, int)>::empty());
        assert(parts_from(path, n + 1) =~= seq![own]);
        assert(parts_from(path, n) == parts_from(path, n + 1));
        assert(parts_from(base, n).push(own) =~= seq![own]);
    } else {
        assert(path[k] == base[k]);
        if base[k] == '/' {
            joined_parts(base, name, k + 1);
            if k == 0 {
                assert(seq![(0int, 1int)] + parts_from(base, 1).push(own) =~= (seq![(0int, 1int)]
                    + parts_from(base, 1)).push(own));
            }
        } else {
            ends_agree(base, name, k);
            let e = part_end(base, k);
            text::index_from_is_least(base, '/', k);
            assert(e > k);
            assert(path.subrange(k, e) =~= base.subrange(k, e));
            joined_parts(base, name, e);
            if !(k > 0 && base.subrange(k, e) == seq!['.']) {
                assert(seq![(k, e)] + parts_from(base, e).push(own) =~= (seq![(k, e)] + parts_from(
                    base,
                    e,
                )).push(own));
            }
        }
    }
}

/// A name below a directory is the directory's own parts with that name behind them. So it lies below
/// the directory, is as deep as it and one more, goes by that name, and is that name relative to it.
pub proof fn names_lie_below_their_directory(base: Seq<char>, name: Seq<char>)
    requires
        base.len() > 0,
        base.last() != '/',
        is_plain_name(name),
    ensures
        components_of(join_of(base, name)) == components_of(base).push(name),
        below(join_of(base, name), base),
        depth_of(join_of(base, name)) == depth_of(base) + 1,
        relative_of(join_of(base, name), base) == Some(name),
        name != ".."@ ==> file_name_of(join_of(base, name)) == Some(name),
{
    reveal_strlit("/");
    reveal_strlit(".");
    let path = base + seq!['/'] + name;
    assert("/"@ =~= seq!['/']);
    assert("."@ =~= seq!['.']);
    if name[0] == '/' {
        assert(name.contains(name[0]));
    }
    assert(join_of(base, name) =~= path);
    joined_parts(base, name, 0);
    parts_are_apart(base, 0);
    let there = parts_of(base);
    let all = parts_of(path);
    let n = base.len() as int;
    assert(path.subrange(n + 1, path.len() as int) =~= name);
    assert forall|i: int| 0 <= i < there.len() implies path.subrange(
        (#[trigger] all[i]).0,
        all[i].1,
    ) == base.subrange(there[i].0, there[i].1) by {
        assert(all[i] == there[i]);
        assert(path.subrange(there[i].0, there[i].1) =~= base.subrange(there[i].0, there[i].1));
    }
    assert(components_of(path) =~= components_of(base).push(name));
    let c = components_of(path);
    assert(components_of(base).is_prefix_of(c)) by {
        assert(c.subrange(0, components_of(base).len() as int) =~= components_of(base));
    }
    assert(c.last() == name);
    if name == "/"@ {
        assert(name.contains(name[0]));
    }
}

/// Lying below is an order of paths: each lies below itself, below what its directories lie below, and
/// two that lie below each other are one.
pub proof fn directories_nest(a: Seq<char>, b: Seq<char>, c: Seq<char>)
    ensures
        below(a, a),
        below(a, b) && below(b, c) ==> below(a, c),
        below(a, b) && below(b, a) ==> same_path(a, b),
        below(a, b) ==> depth_of(b) <= depth_of(a),
{
    let x = components_of(a);
    let y = components_of(b);
    let z = components_of(c);
    assert(x.subrange(0, x.len() as int) =~= x);
    if below(a, b) && below(b, c) {
        assert(x.subrange(0, z.len() as int) =~= y.subrange(0, z.len() as int)) by {
            assert forall|i: int| 0 <= i < z.len() implies x[i] == y[i] by {
                assert(x.subrange(0, y.len() as int)[i] == x[i]);
            }
        }
    }
    if below(a, b) && below(b, a) {
        assert(x.subrange(0, y.len() as int) =~= x);
    }
}

} // verus!
