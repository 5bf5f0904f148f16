//! Text as a sequence of characters: searching, splitting, trimming, numbers and ordering.

use vstd::prelude::*;

verus! {

/// `String::push` appends one character.
pub assume_specification[ String::push ](s: &mut String, c: char)
    ensures
        final(s)@ == old(s)@.push(c),
;

// ---------------------------------------------------------------------------
// Views of collections
// ---------------------------------------------------------------------------

/// The views of a sequence's elements, in order.
pub open spec fn views<T: View>(s: Seq<T>) -> Seq<T::V> {
    Seq::new(s.len(), |i: int| s[i]@)
}

/// The view of an optional value.
pub open spec fn opt_view<T: View>(o: Option<T>) -> Option<T::V> {
    match o {
        Some(x) => Some(x@),
        None => None,
    }
}

/// The views of a sequence that grew by one element.
pub broadcast proof fn views_push<T: View>(s: Seq<T>, x: T)
    ensures
        #[trigger] views(s.push(x)) == views(s).push(x@),
{
    assert(views(s.push(x)) =~= views(s).push(x@));
}

/// Two sequences with the same views, element by element, have the same `views`.
pub proof fn views_equal<T: View>(a: Seq<T>, b: Seq<T>)
    requires
        a.len() == b.len(),
        forall|i: int| 0 <= i < a.len() ==> (#[trigger] a[i])@ == b[i]@,
    ensures
        views(a) == views(b),
{
    assert(views(a) =~= views(b));
}

/// A copy of a list of strings.
pub fn clone_texts(v: &Vec<String>) -> (r: Vec<String>)
    ensures
        r@ == v@,
        views(r@) == views(v@),
{
    let r = v.clone();
    assert(r@ =~= v@);
    r
}

/// A copy of a list, made of copies of its elements.
pub fn clone_all<T: View + Clone>(v: &Vec<T>) -> (r: Vec<T>)
    requires
        forall|a: T, b: T| #[trigger] cloned(a, b) ==> a@ == b@,
    ensures
        views(r@) == views(v@),
{
    let r = v.clone();
    assert forall|i: int| 0 <= i < r@.len() implies (#[trigger] r@[i])@ == v@[i]@ by {
        assert(cloned(v@[i], r@[i]));
    }
    proof {
        views_equal(r@, v@);
    }
    r
}

/// A copy of a list of plain values.
pub fn clone_plain<T: Copy>(v: &Vec<T>) -> (r: Vec<T>)
    ensures
        r@ == v@,
{
    let mut r: Vec<T> = Vec::new();
    let mut i: usize = 0;
    while i < v.len()
        invariant
            i <= v@.len(),
            r@ == v@.take(i as int),
        decreases v@.len() - i,
    {
        r.push(v[i]);
        i += 1;
        assert(r@ =~= v@.take(i as int));
    }
    assert(v@.take(i as int) =~= v@);
    r
}

/// The views of a list of pairs of texts.
pub open spec fn pair_views(s: Seq<(String, String)>) -> Seq<(Seq<char>, Seq<char>)> {
    Seq::new(s.len(), |i: int| (s[i].0@, s[i].1@))
}

/// The pairs of a list that grew by one.
pub broadcast proof fn pair_views_push(s: Seq<(String, String)>, x: (String, String))
    ensures
        #[trigger] pair_views(s.push(x)) == pair_views(s).push((x.0@, x.1@)),
{
    assert(pair_views(s.push(x)) =~= pair_views(s).push((x.0@, x.1@)));
}

/// A copy of a list of pairs of texts.
pub fn clone_pairs(v: &Vec<(String, String)>) -> (r: Vec<(String, String)>)
    ensures
        pair_views(r@) == pair_views(v@),
{
    let mut r: Vec<(String, String)> = Vec::new();
    let mut i: usize = 0;
    while i < v.len()
        invariant
            i <= v@.len(),
            r@.len() == i,
            forall|j: int| 0 <= j < i ==> (#[trigger] r@[j]).0@ == v@[j].0@ && r@[j].1@ == v@[j].1@,
        decreases v@.len() - i,
    {
        r.push((v[i].0.clone(), v[i].1.clone()));
        i += 1;
    }
    assert(pair_views(r@) =~= pair_views(v@));
    r
}

/// A copy of an optional string.
pub fn clone_opt(o: &Option<String>) -> (r: Option<String>)
    ensures
        r == *o,
{
    match o {
        Some(s) => Some(s.clone()),
        None => None,
    }
}

// ---------------------------------------------------------------------------
// Characters
// ---------------------------------------------------------------------------

/// The characters of `s`.
pub fn chars(s: &str) -> (r: Vec<char>)
    ensures
        r@ == s@,
{
    let mut r: Vec<char> = Vec::new();
    for c in it: s.chars()
        invariant
            it.seq() == s@,
            r@ == s@.take(it.index()),
    {
        r.push(c);
    }
    assert(s@.take(s@.len() as int) =~= s@);
    r
}

/// The text made of the characters from `from` up to `to`.
pub fn slice(v: &Vec<char>, from: usize, to: usize) -> (r: String)
    requires
        from <= to <= v@.len(),
    ensures
        r@ == v@.subrange(from as int, to as int),
{
    let mut r = String::new();
    let mut i: usize = from;
    while i < to
        invariant
            from <= i <= to <= v@.len(),
            r@ == v@.subrange(from as int, i as int),
        decreases to - i,
    {
        r.push(v[i]);
        i += 1;
        assert(r@ =~= v@.subrange(from as int, i as int));
    }
    r
}

/// The text made of `v`'s characters.
pub fn from_chars(v: &Vec<char>) -> (r: String)
    ensures
        r@ == v@,
{
    let r = slice(v, 0, v.len());
    assert(v@.subrange(0, v@.len() as int) =~= v@);
    r
}

/// `s` without the characters before `from`, up to `to`.
pub fn substring(s: &str, from: usize, to: usize) -> (r: String)
    requires
        from <= to <= s@.len(),
    ensures
        r@ == s@.subrange(from as int, to as int),
{
    s.substring_char(from, to).to_owned()
}

/// An owned copy of `s`.
pub fn own(s: &str) -> (r: String)
    ensures
        r@ == s@,
{
    s.to_owned()
}

/// The number of characters in `s`.
pub fn length(s: &str) -> (r: usize)
    ensures
        r == s@.len(),
{
    s.unicode_len()
}

/// Whether two texts hold the same characters.
pub fn same(a: &str, b: &str) -> (r: bool)
    ensures
        r == (a@ == b@),
{
    let x = a.to_owned();
    let y = b.to_owned();
    x == y
}

/// Whether two optional texts are the same.
pub fn same_opt(a: &Option<String>, b: &Option<String>) -> (r: bool)
    ensures
        r == (opt_view(*a) == opt_view(*b)),
{
    match (a, b) {
        (Some(x), Some(y)) => same(x, y),
        (None, None) => true,
        _ => false,
    }
}

/// The concatenation of two texts.
pub fn concat(a: &str, b: &str) -> (r: String)
    ensures
        r@ == a@ + b@,
{
    let mut r = a.to_owned();
    r.append(b);
    r
}

// ---------------------------------------------------------------------------
// Searching
// ---------------------------------------------------------------------------

/// Whether `n` stands in `h` at position `i`.
pub open spec fn stands_at(h: Seq<char>, n: Seq<char>, i: int) -> bool {
    0 <= i && i + n.len() <= h.len() && h.subrange(i, i + n.len()) == n
}

/// The first position at or after `i` at which `n` stands in `h`.
pub open spec fn find_from(h: Seq<char>, n: Seq<char>, i: int) -> Option<int>
    decreases h.len() + 1 - i,
{
    if i < 0 || i + n.len() > h.len() {
        None
    } else if stands_at(h, n, i) {
        Some(i)
    } else {
        find_from(h, n, i + 1)
    }
}

/// The first position at which `n` stands in `h`.
pub open spec fn find_of(h: Seq<char>, n: Seq<char>) -> Option<int> {
    find_from(h, n, 0)
}

/// Whether `n` stands anywhere in `h`.
pub open spec fn contains_of(h: Seq<char>, n: Seq<char>) -> bool {
    find_of(h, n) is Some
}

/// `find_from` gives the least position from `i` on, and none where there is none.
pub proof fn find_from_is_least(h: Seq<char>, n: Seq<char>, i: int)
    requires
        0 <= i,
    ensures
        match find_from(h, n, i) {
            Some(p) => i <= p && stands_at(h, n, p) && forall|j: int|
                i <= j < p ==> !#[trigger] stands_at(h, n, j),
            None => forall|j: int| i <= j ==> !#[trigger] stands_at(h, n, j),
        },
    decreases h.len() + 1 - i,
{
    if i + n.len() > h.len() {
    } else if stands_at(h, n, i) {
    } else {
        find_from_is_least(h, n, i + 1);
    }
}

pub fn starts_at(h: &Vec<char>, n: &Vec<char>, i: usize) -> (r: bool)
    ensures
        r == stands_at(h@, n@, i as int),
{
    if i > h.len() || n.len() > h.len() - i {
        return false;
    }
    let mut j: usize = 0;
    while j < n.len()
        invariant
            i + n.len() <= h.len(),
            j <= n.len(),
            forall|k: int| 0 <= k < j ==> h@[i + k] == n@[k],
        decreases n@.len() - j,
    {
        if h[i + j] != n[j] {
            assert(h@.subrange(i as int, i + n@.len())[j as int] != n@[j as int]);
            return false;
        }
        j += 1;
    }
    assert(h@.subrange(i as int, i + n@.len()) =~= n@);
    true
}

/// The first position at or after `from` at which `n` stands in `h`.
pub fn find_chars(h: &Vec<char>, n: &Vec<char>, from: usize) -> (r: Option<usize>)
    ensures
        match r {
            Some(p) => find_from(h@, n@, from as int) == Some(p as int) && from <= p && p + n@.len()
                <= h@.len(),
            None => find_from(h@, n@, from as int) is None,
        },
{
    let mut i: usize = from;
    while i <= h.len() && n.len() <= h.len() - i
        invariant
            from <= i,
            i <= h@.len() || i == from,
            find_from(h@, n@, from as int) == find_from(h@, n@, i as int),
        decreases h@.len() + 1 - i,
    {
        if starts_at(h, n, i) {
            return Some(i);
        }
        if i == h.len() {
            assert(find_from(h@, n@, i + 1) is None);
            return None;
        }
        i += 1;
    }
    None
}

/// The first position at which `n` stands in `h`.
pub fn find(h: &str, n: &str) -> (r: Option<usize>)
    ensures
        match r {
            Some(p) => find_of(h@, n@) == Some(p as int) && p + n@.len() <= h@.len() <= usize::MAX,
            None => find_of(h@, n@) is None,
        },
{
    let hv = chars(h);
    let nv = chars(n);
    let r = find_chars(&hv, &nv, 0);
    assert(hv.len() == h@.len());
    r
}

/// Whether `n` stands anywhere in `h`.
pub fn contains(h: &str, n: &str) -> (r: bool)
    ensures
        r == contains_of(h@, n@),
{
    find(h, n).is_some()
}

/// Whether `s` begins with `p`.
pub open spec fn starts_with_of(s: Seq<char>, p: Seq<char>) -> bool {
    p.len() <= s.len() && s.take(p.len() as int) == p
}

/// Whether `s` ends with `p`.
pub open spec fn ends_with_of(s: Seq<char>, p: Seq<char>) -> bool {
    p.len() <= s.len() && s.skip(s.len() - p.len()) == p
}

/// What follows `p` in `s`, where `s` begins with `p`.
pub open spec fn strip_prefix_of(s: Seq<char>, p: Seq<char>) -> Option<Seq<char>> {
    if starts_with_of(s, p) {
        Some(s.skip(p.len() as int))
    } else {
        None
    }
}

/// What precedes `p` in `s`, where `s` ends with `p`.
pub open spec fn strip_suffix_of(s: Seq<char>, p: Seq<char>) -> Option<Seq<char>> {
    if ends_with_of(s, p) {
        Some(s.take(s.len() - p.len()))
    } else {
        None
    }
}

pub fn starts_with(s: &str, p: &str) -> (r: bool)
    ensures
        r == starts_with_of(s@, p@),
{
    let n: usize = length(s);
    let m: usize = length(p);
    if m > n {
        return false;
    }
    let head = substring(s, 0, m);
    assert(s@.subrange(0, m as int) =~= s@.take(m as int));
    same(&head, p)
}

pub fn ends_with(s: &str, p: &str) -> (r: bool)
    ensures
        r == ends_with_of(s@, p@),
{
    let n: usize = length(s);
    let m: usize = length(p);
    if m > n {
        return false;
    }
    let tail = substring(s, n - m, n);
    assert(s@.subrange(n - m, n as int) =~= s@.skip(n - m));
    same(&tail, p)
}

pub fn strip_prefix(s: &str, p: &str) -> (r: Option<String>)
    ensures
        opt_view(r) == strip_prefix_of(s@, p@),
{
    if starts_with(s, p) {
        let n: usize = length(s);
        let m: usize = length(p);
        assert(s@.subrange(m as int, n as int) =~= s@.skip(m as int));
        Some(substring(s, m, n))
    } else {
        None
    }
}

pub fn strip_suffix(s: &str, p: &str) -> (r: Option<String>)
    ensures
        opt_view(r) == strip_suffix_of(s@, p@),
{
    if ends_with(s, p) {
        let n: usize = length(s);
        let m: usize = length(p);
        assert(s@.subrange(0, n - m) =~= s@.take(n - m));
        Some(substring(s, 0, n - m))
    } else {
        None
    }
}

/// The first position of `c` in `s`.
pub open spec fn index_from(s: Seq<char>, c: char, i: int) -> Option<int>
    decreases s.len() - i,
{
    if i < 0 || i >= s.len() {
        None
    } else if s[i] == c {
        Some(i)
    } else {
        index_from(s, c, i + 1)
    }
}

pub open spec fn index_of(s: Seq<char>, c: char) -> Option<int> {
    index_from(s, c, 0)
}

pub proof fn index_from_is_least(s: Seq<char>, c: char, i: int)
    requires
        0 <= i,
    ensures
        match index_from(s, c, i) {
            Some(p) => i <= p < s.len() && s[p] == c && forall|j: int| i <= j < p ==> s[j] != c,
            None => forall|j: int| i <= j < s.len() ==> s[j] != c,
        },
    decreases s.len() - i,
{
    if i < s.len() && s[i] != c {
        index_from_is_least(s, c, i + 1);
    }
}

/// The first position of `c` at or after `from`.
pub fn index_chars(v: &Vec<char>, c: char, from: usize) -> (r: Option<usize>)
    requires
        from <= v@.len(),
    ensures
        match r {
            Some(p) => index_from(v@, c, from as int) == Some(p as int) && from <= p < v.len(),
            None => index_from(v@, c, from as int) is None,
        },
{
    let mut i: usize = from;
    while i < v.len()
        invariant
            from <= i <= v@.len(),
            index_from(v@, c, from as int) == index_from(v@, c, i as int),
        decreases v@.len() - i,
    {
        if v[i] == c {
            return Some(i);
        }
        i += 1;
    }
    None
}

/// The first position of `c` in `s`.
pub fn index(s: &str, c: char) -> (r: Option<usize>)
    ensures
        match r {
            Some(p) => index_of(s@, c) == Some(p as int) && p < s@.len(),
            None => index_of(s@, c) is None,
        },
{
    let v = chars(s);
    index_chars(&v, c, 0)
}

/// Whether `c` occurs in `s`.
pub fn contains_char(s: &str, c: char) -> (r: bool)
    ensures
        r == s@.contains(c),
{
    let v = chars(s);
    let r = index_chars(&v, c, 0);
    proof {
        index_from_is_least(s@, c, 0);
    }
    r.is_some()
}

// ---------------------------------------------------------------------------
// Splitting
// ---------------------------------------------------------------------------

/// The pieces of `s` between occurrences of `c`.
pub open spec fn split_of(s: Seq<char>, c: char) -> Seq<Seq<char>>
    decreases s.len(),
{
    match index_of(s, c) {
        Some(i) => if 0 <= i < s.len() {
            seq![s.take(i)] + split_of(s.skip(i + 1), c)
        } else {
            seq![s]
        },
        None => seq![s],
    }
}

proof fn index_of_suffix(s: Seq<char>, c: char, from: int, i: int)
    requires
        0 <= from <= i,
        from <= s.len(),
    ensures
        index_from(s, c, i) == match index_from(s.skip(from), c, i - from) {
            Some(p) => Some(p + from),
            None => None,
        },
    decreases s.len() - i,
{
    if i < s.len() {
        assert(s.skip(from)[i - from] == s[i]);
        if s[i] != c {
            index_of_suffix(s, c, from, i + 1);
        }
    }
}

/// The pieces of `s` between occurrences of `c`.
pub fn split(s: &str, c: char) -> (r: Vec<String>)
    ensures
        views(r@) == split_of(s@, c),
        r@.len() >= 1,
{
    let v = chars(s);
    let mut r: Vec<String> = Vec::new();
    let mut start: usize = 0;
    assert(s@.skip(0) =~= s@);
    assert(views(r@) + split_of(s@, c) =~= split_of(s@, c));
    loop
        invariant
            v@ == s@,
            start <= v.len(),
            split_of(s@, c) == views(r@) + split_of(s@.skip(start as int), c),
        ensures
            split_of(s@, c) == views(r@) + seq![s@.skip(start as int)],
            start <= v@.len(),
        decreases v@.len() - start,
    {
        broadcast use views_push;

        proof {
            index_of_suffix(s@, c, start as int, start as int);
        }
        match index_chars(&v, c, start) {
            Some(i) => {
                let piece = slice(&v, start, i);
                let ghost before = views(r@);
                let ghost rest = s@.skip(start as int);
                assert(piece@ =~= rest.take(i - start));
                assert(rest.skip(i - start + 1) =~= s@.skip(i + 1));
                let ghost head = piece@;
                r.push(piece);
                start = i + 1;
                assert(views(r@) + split_of(s@.skip(start as int), c) =~= before + (seq![head]
                    + split_of(s@.skip(start as int), c)));
            },
            None => {
                break;
            },
        }
    }
    broadcast use views_push;

    let last = slice(&v, start, v.len());
    assert(last@ =~= s@.skip(start as int));
    let ghost before = views(r@);
    r.push(last);
    assert(views(r@) =~= before + seq![s@.skip(start as int)]);
    r
}

/// The two sides of the first `c` in `s`.
pub open spec fn split_once_of(s: Seq<char>, c: char) -> Option<(Seq<char>, Seq<char>)> {
    match index_of(s, c) {
        Some(i) => Some((s.take(i), s.skip(i + 1))),
        None => None,
    }
}

/// The two sides of the first `c` in `s`.
pub fn split_once(s: &str, c: char) -> (r: Option<(String, String)>)
    ensures
        match r {
            Some((a, b)) => split_once_of(s@, c) == Some((a@, b@)),
            None => split_once_of(s@, c) is None,
        },
{
    match index(s, c) {
        Some(i) => {
            let n: usize = length(s);
            assert(s@.subrange(0, i as int) =~= s@.take(i as int));
            assert(s@.subrange(i + 1, n as int) =~= s@.skip(i + 1));
            Some((substring(s, 0, i), substring(s, i + 1, n)))
        },
        None => None,
    }
}

/// The last position of `c` in `s`.
pub open spec fn last_index_of(s: Seq<char>, c: char) -> Option<int>
    decreases s.len(),
{
    if s.len() == 0 {
        None
    } else if s.last() == c {
        Some(s.len() - 1)
    } else {
        last_index_of(s.drop_last(), c)
    }
}

/// The last position of `c` in `s`.
pub fn last_index(s: &str, c: char) -> (r: Option<usize>)
    ensures
        match r {
            Some(p) => last_index_of(s@, c) == Some(p as int) && p < s@.len(),
            None => last_index_of(s@, c) is None,
        },
{
    let v = chars(s);
    let mut i: usize = v.len();
    assert(s@.take(s@.len() as int) =~= s@);
    while i > 0
        invariant
            v@ == s@,
            i <= v@.len(),
            last_index_of(s@, c) == last_index_of(s@.take(i as int), c),
        decreases i,
    {
        let ghost prefix = s@.take(i as int);
        assert(prefix.drop_last() =~= s@.take(i - 1));
        if v[i - 1] == c {
            return Some(i - 1);
        }
        i -= 1;
    }
    None
}

/// The two sides of the last `c` in `s`.
pub open spec fn rsplit_once_of(s: Seq<char>, c: char) -> Option<(Seq<char>, Seq<char>)> {
    match last_index_of(s, c) {
        Some(i) => Some((s.take(i), s.skip(i + 1))),
        None => None,
    }
}

/// The two sides of the last `c` in `s`.
pub fn rsplit_once(s: &str, c: char) -> (r: Option<(String, String)>)
    ensures
        match r {
            Some((a, b)) => rsplit_once_of(s@, c) == Some((a@, b@)),
            None => rsplit_once_of(s@, c) is None,
        },
{
    match last_index(s, c) {
        Some(i) => {
            let n: usize = length(s);
            assert(s@.subrange(0, i as int) =~= s@.take(i as int));
            assert(s@.subrange(i + 1, n as int) =~= s@.skip(i + 1));
            Some((substring(s, 0, i), substring(s, i + 1, n)))
        },
        None => None,
    }
}

/// A line's text without the carriage return that ends it.
pub open spec fn without_return(s: Seq<char>) -> Seq<char> {
    if s.len() > 0 && s.last() == '\r' {
        s.drop_last()
    } else {
        s
    }
}

/// The lines of `s`: each ends at a line feed, or at a carriage return and a line feed. What
/// follows the last line feed is a line where it is not empty.
pub open spec fn lines_of(s: Seq<char>) -> Seq<Seq<char>>
    decreases s.len(),
{
    if s.len() == 0 {
        Seq::empty()
    } else {
        match index_of(s, '\n') {
            Some(i) => if 0 <= i < s.len() {
                seq![without_return(s.take(i))] + lines_of(s.skip(i + 1))
            } else {
                seq![s]
            },
            None => seq![s],
        }
    }
}

/// The lines of `s`.
pub fn lines(s: &str) -> (r: Vec<String>)
    ensures
        views(r@) == lines_of(s@),
{
    let v = chars(s);
    let mut r: Vec<String> = Vec::new();
    let mut start: usize = 0;
    assert(s@.skip(0) =~= s@);
    assert(views(r@) + lines_of(s@) =~= lines_of(s@));
    while start < v.len()
        invariant
            v@ == s@,
            start <= v@.len(),
            lines_of(s@) == views(r@) + lines_of(s@.skip(start as int)),
        decreases v@.len() - start,
    {
        broadcast use views_push;

        let ghost before = views(r@);
        let ghost rest = s@.skip(start as int);
        proof {
            index_of_suffix(s@, '\n', start as int, start as int);
        }
        match index_chars(&v, '\n', start) {
            Some(i) => {
                let end: usize = if i > start && v[i - 1] == '\r' {
                    i - 1
                } else {
                    i
                };
                let piece = slice(&v, start, end);
                assert(piece@ =~= without_return(rest.take(i - start)));
                assert(rest.skip(i - start + 1) =~= s@.skip(i + 1));
                let ghost head = piece@;
                r.push(piece);
                start = i + 1;
                assert(views(r@) + lines_of(s@.skip(start as int)) =~= before + (seq![head]
                    + lines_of(s@.skip(start as int))));
            },
            None => {
                let piece = slice(&v, start, v.len());
                assert(piece@ =~= rest);
                r.push(piece);
                start = v.len();
                assert(views(r@) + lines_of(s@.skip(start as int)) =~= before + seq![rest]);
            },
        }
    }
    assert(lines_of(s@.skip(start as int)) =~= Seq::<Seq<char>>::empty());
    assert(views(r@) + Seq::<Seq<char>>::empty() =~= views(r@));
    r
}

/// `sep` between the parts.
pub open spec fn join_of(parts: Seq<Seq<char>>, sep: Seq<char>) -> Seq<char>
    decreases parts.len(),
{
    if parts.len() == 0 {
        Seq::empty()
    } else if parts.len() == 1 {
        parts[0]
    } else {
        join_of(parts.drop_last(), sep) + sep + parts.last()
    }
}

/// `sep` between the parts.
pub fn join(parts: &Vec<String>, sep: &str) -> (r: String)
    ensures
        r@ == join_of(views(parts@), sep@),
{
    let mut r = String::new();
    let mut i: usize = 0;
    let ghost all = views(parts@);
    assert(r@ =~= Seq::<char>::empty());
    while i < parts.len()
        invariant
            i <= parts@.len(),
            all == views(parts@),
            r@ == join_of(all.take(i as int), sep@),
        decreases parts@.len() - i,
    {
        let ghost before = r@;
        if i > 0 {
            r.append(sep);
        }
        r.append(&parts[i]);
        i += 1;
        proof {
            assert(all.take(i as int).drop_last() =~= all.take(i - 1));
            assert(all.take(i as int).last() == parts@[i - 1]@);
            if i == 1 {
                assert(r@ =~= parts@[0]@);
            }
        }
    }
    assert(all.take(i as int) =~= all);
    r
}

/// `s` with `with` in place of each `c`.
pub open spec fn replace_of(s: Seq<char>, c: char, with: Seq<char>) -> Seq<char>
    decreases s.len(),
{
    if s.len() == 0 {
        Seq::empty()
    } else {
        replace_of(s.drop_last(), c, with) + (if s.last() == c {
            with
        } else {
            seq![s.last()]
        })
    }
}

/// `s` with `with` in place of each `c`.
pub fn replace(s: &str, c: char, with: &str) -> (r: String)
    ensures
        r@ == replace_of(s@, c, with@),
{
    let v = chars(s);
    let mut r = String::new();
    let mut i: usize = 0;
    assert(s@.take(0) =~= Seq::<char>::empty());
    while i < v.len()
        invariant
            v@ == s@,
            i <= v@.len(),
            r@ == replace_of(s@.take(i as int), c, with@),
        decreases v@.len() - i,
    {
        let ghost before = r@;
        assert(s@.take(i + 1).drop_last() =~= s@.take(i as int));
        if v[i] == c {
            r.append(with);
        } else {
            r.push(v[i]);
            assert(r@ =~= before + seq![v@[i as int]]);
        }
        i += 1;
    }
    assert(s@.take(i as int) =~= s@);
    r
}

// ---------------------------------------------------------------------------
// White space
// ---------------------------------------------------------------------------

/// The characters that Unicode calls white space.
pub open spec fn white(c: char) -> bool {
    let n = c as u32;
    ||| 9 <= n <= 13
    ||| n == 0x20
    ||| n == 0x85
    ||| n == 0xA0
    ||| n == 0x1680
    ||| 0x2000 <= n <= 0x200A
    ||| n == 0x2028
    ||| n == 0x2029
    ||| n == 0x202F
    ||| n == 0x205F
    ||| n == 0x3000
}

/// Whether `c` is white space.
pub fn is_white(c: char) -> (r: bool)
    ensures
        r == white(c),
{
    let n: u32 = c as u32;
    (9 <= n && n <= 13) || n == 0x20 || n == 0x85 || n == 0xA0 || n == 0x1680 || (0x2000 <= n && n
        <= 0x200A) || n == 0x2028 || n == 0x2029 || n == 0x202F || n == 0x205F || n == 0x3000
}

/// `s` from its first character that is not white space.
pub open spec fn trim_start_of(s: Seq<char>) -> Seq<char>
    decreases s.len(),
{
    if s.len() > 0 && white(s[0]) {
        trim_start_of(s.skip(1))
    } else {
        s
    }
}

/// `s` up to its last character that is not white space.
pub open spec fn trim_end_of(s: Seq<char>) -> Seq<char>
    decreases s.len(),
{
    if s.len() > 0 && white(s.last()) {
        trim_end_of(s.drop_last())
    } else {
        s
    }
}

/// `s` without white space at either end.
pub open spec fn trim_of(s: Seq<char>) -> Seq<char> {
    trim_end_of(trim_start_of(s))
}

/// `s` from its first character that is not white space.
pub fn trim_start(s: &str) -> (r: String)
    ensures
        r@ == trim_start_of(s@),
{
    let v = chars(s);
    let mut i: usize = 0;
    assert(s@.skip(0) =~= s@);
    while i < v.len() && is_white(v[i])
        invariant
            v@ == s@,
            i <= v@.len(),
            trim_start_of(s@) == trim_start_of(s@.skip(i as int)),
        decreases v@.len() - i,
    {
        assert(s@.skip(i as int).skip(1) =~= s@.skip(i + 1));
        i += 1;
    }
    assert(s@.subrange(i as int, s@.len() as int) =~= s@.skip(i as int));
    slice(&v, i, v.len())
}

/// `s` up to its last character that is not white space.
pub fn trim_end(s: &str) -> (r: String)
    ensures
        r@ == trim_end_of(s@),
{
    let v = chars(s);
    let mut i: usize = v.len();
    assert(s@.take(i as int) =~= s@);
    while i > 0 && is_white(v[i - 1])
        invariant
            v@ == s@,
            i <= v@.len(),
            trim_end_of(s@) == trim_end_of(s@.take(i as int)),
        decreases i,
    {
        assert(s@.take(i as int).drop_last() =~= s@.take(i - 1));
        i -= 1;
    }
    assert(s@.subrange(0, i as int) =~= s@.take(i as int));
    slice(&v, 0, i)
}

/// `s` without white space at either end.
pub fn trim(s: &str) -> (r: String)
    ensures
        r@ == trim_of(s@),
{
    let t = trim_start(s);
    trim_end(&t)
}

/// The position of the first white space in `s`, or its length.
pub open spec fn word_end(s: Seq<char>) -> int
    decreases s.len(),
{
    if s.len() == 0 || white(s[0]) {
        0
    } else {
        1 + word_end(s.skip(1))
    }
}

pub proof fn word_end_bounds(s: Seq<char>)
    ensures
        0 <= word_end(s) <= s.len(),
        s.len() > 0 && !white(s[0]) ==> word_end(s) > 0,
    decreases s.len(),
{
    if s.len() == 0 || white(s[0]) {
    } else {
        word_end_bounds(s.skip(1));
    }
}

proof fn trim_start_shorter(s: Seq<char>)
    ensures
        trim_start_of(s).len() <= s.len(),
        trim_start_of(s).len() > 0 ==> !white(trim_start_of(s)[0]),
    decreases s.len(),
{
    if s.len() > 0 && white(s[0]) {
        trim_start_shorter(s.skip(1));
    }
}

/// The words of `s`: the longest stretches without white space.
pub open spec fn words_of(s: Seq<char>) -> Seq<Seq<char>>
    decreases s.len(),
    via words_of_shrinks
{
    let t = trim_start_of(s);
    if t.len() == 0 {
        Seq::empty()
    } else {
        let n = word_end(t);
        seq![t.take(n)] + words_of(t.skip(n))
    }
}

#[via_fn]
proof fn words_of_shrinks(s: Seq<char>) {
    trim_start_shorter(s);
    word_end_bounds(trim_start_of(s));
}

/// Whether `s` has no white space in it.
pub open spec fn solid(s: Seq<char>) -> bool {
    forall|i: int| 0 <= i < s.len() ==> !white(#[trigger] s[i])
}

proof fn word_end_of_solid(w: Seq<char>, rest: Seq<char>)
    requires
        solid(w),
        rest.len() == 0 || white(rest[0]),
    ensures
        word_end(w + rest) == w.len(),
    decreases w.len(),
{
    let s = w + rest;
    if w.len() == 0 {
        assert(s =~= rest);
    } else {
        assert(s[0] == w[0]);
        assert(s.skip(1) =~= w.skip(1) + rest);
        assert forall|i: int| 0 <= i < w.skip(1).len() implies !white(#[trigger] w.skip(1)[i]) by {
            assert(w.skip(1)[i] == w[i + 1]);
        }
        word_end_of_solid(w.skip(1), rest);
    }
}

/// A word at the front is the first word.
pub proof fn first_word_is_split_off(w: Seq<char>, rest: Seq<char>)
    requires
        solid(w),
        w.len() > 0,
        rest.len() == 0 || white(rest[0]),
    ensures
        words_of(w + rest) == seq![w] + words_of(rest),
{
    let s = w + rest;
    assert(s[0] == w[0]);
    assert(trim_start_of(s) == s);
    word_end_of_solid(w, rest);
    assert(s.take(w.len() as int) =~= w);
    assert(s.skip(w.len() as int) =~= rest);
}

/// White space at the front makes no word.
pub proof fn white_space_is_no_word(c: char, rest: Seq<char>)
    requires
        white(c),
    ensures
        words_of(seq![c] + rest) == words_of(rest),
{
    let s = seq![c] + rest;
    assert(s.skip(1) =~= rest);
    assert(trim_start_of(s) == trim_start_of(rest));
}

proof fn word_end_is_solid(s: Seq<char>)
    ensures
        solid(s.take(word_end(s))),
    decreases s.len(),
{
    word_end_bounds(s);
    if s.len() > 0 && !white(s[0]) {
        word_end_is_solid(s.skip(1));
        word_end_bounds(s.skip(1));
        let w = s.take(word_end(s));
        let v = s.skip(1).take(word_end(s.skip(1)));
        assert forall|i: int| 0 <= i < w.len() implies !white(#[trigger] w[i]) by {
            if i > 0 {
                assert(w[i] == v[i - 1]);
            }
        }
    }
}

/// Words have no white space in them.
pub proof fn words_are_solid(s: Seq<char>)
    ensures
        forall|i: int| 0 <= i < words_of(s).len() ==> solid(#[trigger] words_of(s)[i]),
    decreases s.len(),
{
    let t = trim_start_of(s);
    trim_start_shorter(s);
    if t.len() > 0 {
        let n = word_end(t);
        word_end_bounds(t);
        word_end_is_solid(t);
        words_are_solid(t.skip(n));
        assert forall|i: int| 0 <= i < words_of(s).len() implies solid(
            #[trigger] words_of(s)[i],
        ) by {
            if i > 0 {
                assert(words_of(s)[i] == words_of(t.skip(n))[i - 1]);
            }
        }
    }
}

/// What is joined without white space has none.
pub proof fn joined_words_are_solid(parts: Seq<Seq<char>>, sep: Seq<char>)
    requires
        solid(sep),
        forall|i: int| 0 <= i < parts.len() ==> solid(#[trigger] parts[i]),
    ensures
        solid(join_of(parts, sep)),
    decreases parts.len(),
{
    if parts.len() > 1 {
        let front = parts.drop_last();
        assert forall|i: int| 0 <= i < front.len() implies solid(#[trigger] front[i]) by {
            assert(front[i] == parts[i]);
        }
        joined_words_are_solid(front, sep);
        let a = join_of(front, sep);
        let all = a + sep + parts.last();
        assert forall|i: int| 0 <= i < all.len() implies !white(#[trigger] all[i]) by {
            if i < a.len() {
                assert(all[i] == a[i]);
            } else if i < a.len() + sep.len() {
                assert(all[i] == sep[i - a.len()]);
            } else {
                assert(all[i] == parts.last()[i - a.len() - sep.len()]);
            }
        }
    }
}

/// The words of `s`.
pub fn words(s: &str) -> (r: Vec<String>)
    ensures
        views(r@) == words_of(s@),
{
    let v = chars(s);
    let mut r: Vec<String> = Vec::new();
    let mut i: usize = 0;
    assert(s@.skip(0) =~= s@);
    assert(views(r@) + words_of(s@) =~= words_of(s@));
    while i < v.len()
        invariant
            v@ == s@,
            i <= v@.len(),
            words_of(s@) == views(r@) + words_of(s@.skip(i as int)),
        decreases v@.len() - i,
    {
        broadcast use views_push;

        let ghost rest = s@.skip(i as int);
        if is_white(v[i]) {
            assert(rest.skip(1) =~= s@.skip(i + 1));
            assert(words_of(rest) == words_of(rest.skip(1))) by {
                assert(trim_start_of(rest) == trim_start_of(rest.skip(1)));
            }
            i += 1;
        } else {
            let start: usize = i;
            assert(rest.skip(0) =~= rest);
            while i < v.len() && !is_white(v[i])
                invariant
                    v@ == s@,
                    start <= i <= v@.len(),
                    rest == s@.skip(start as int),
                    word_end(rest) == (i - start) + word_end(rest.skip(i - start)),
                decreases v@.len() - i,
            {
                assert(rest.skip(i - start).skip(1) =~= rest.skip(i - start + 1));
                assert(rest.skip(i - start)[0] == v@[i as int]);
                i += 1;
            }
            proof {
                if i < v.len() {
                    assert(rest.skip(i - start)[0] == v@[i as int]);
                }
                assert(word_end(rest) == i - start);
                assert(trim_start_of(rest) == rest);
            }
            let piece = slice(&v, start, i);
            assert(piece@ =~= rest.take(i - start));
            assert(rest.skip(i - start) =~= s@.skip(i as int));
            let ghost before = views(r@);
            r.push(piece);
            assert(words_of(rest) == seq![rest.take(i - start)] + words_of(s@.skip(i as int)));
            assert(views(r@) + words_of(s@.skip(i as int)) =~= before + (seq![rest.take(i - start)]
                + words_of(s@.skip(i as int))));
        }
    }
    assert(words_of(s@.skip(i as int)) =~= Seq::<Seq<char>>::empty());
    assert(views(r@) + Seq::<Seq<char>>::empty() =~= views(r@));
    r
}

// ---------------------------------------------------------------------------
// ASCII
// ---------------------------------------------------------------------------

/// Whether `c` is an ASCII digit.
pub open spec fn digit(c: char) -> bool {
    '0' <= c && c <= '9'
}

/// Whether `c` is an ASCII lower-case letter.
pub open spec fn lower(c: char) -> bool {
    'a' <= c && c <= 'z'
}

/// Whether `c` is an ASCII upper-case letter.
pub open spec fn upper(c: char) -> bool {
    'A' <= c && c <= 'Z'
}

/// Whether `c` is an ASCII letter or digit.
pub open spec fn alnum(c: char) -> bool {
    lower(c) || upper(c) || digit(c)
}

pub fn is_digit(c: char) -> (r: bool)
    ensures
        r == digit(c),
{
    '0' <= c && c <= '9'
}

pub fn is_lower(c: char) -> (r: bool)
    ensures
        r == lower(c),
{
    'a' <= c && c <= 'z'
}

pub fn is_upper(c: char) -> (r: bool)
    ensures
        r == upper(c),
{
    'A' <= c && c <= 'Z'
}

pub fn is_alnum(c: char) -> (r: bool)
    ensures
        r == alnum(c),
{
    is_lower(c) || is_upper(c) || is_digit(c)
}

/// `c` with an ASCII upper-case letter made lower case.
pub open spec fn lower_char(c: char) -> char {
    if upper(c) {
        (c as u8 + 32) as char
    } else {
        c
    }
}

/// `c` with an ASCII lower-case letter made upper case.
pub open spec fn upper_char(c: char) -> char {
    if lower(c) {
        (c as u8 - 32) as char
    } else {
        c
    }
}

/// `s` with its ASCII letters in lower case.
pub open spec fn lower_of(s: Seq<char>) -> Seq<char> {
    Seq::new(s.len(), |i: int| lower_char(s[i]))
}

/// `s` with its ASCII letters in upper case.
pub open spec fn upper_of(s: Seq<char>) -> Seq<char> {
    Seq::new(s.len(), |i: int| upper_char(s[i]))
}

pub fn to_lower_char(c: char) -> (r: char)
    ensures
        r == lower_char(c),
{
    if is_upper(c) {
        (c as u8 + 32) as char
    } else {
        c
    }
}

pub fn to_upper_char(c: char) -> (r: char)
    ensures
        r == upper_char(c),
{
    if is_lower(c) {
        (c as u8 - 32) as char
    } else {
        c
    }
}

/// `s` with its ASCII letters in lower case.
pub fn to_lower(s: &str) -> (r: String)
    ensures
        r@ == lower_of(s@),
{
    let v = chars(s);
    let mut r = String::new();
    let mut i: usize = 0;
    while i < v.len()
        invariant
            v@ == s@,
            i <= v@.len(),
            r@ == lower_of(s@).take(i as int),
        decreases v@.len() - i,
    {
        r.push(to_lower_char(v[i]));
        i += 1;
        assert(r@ =~= lower_of(s@).take(i as int));
    }
    assert(lower_of(s@).take(i as int) =~= lower_of(s@));
    r
}

/// `s` with its ASCII letters in upper case.
pub fn to_upper(s: &str) -> (r: String)
    ensures
        r@ == upper_of(s@),
{
    let v = chars(s);
    let mut r = String::new();
    let mut i: usize = 0;
    while i < v.len()
        invariant
            v@ == s@,
            i <= v@.len(),
            r@ == upper_of(s@).take(i as int),
        decreases v@.len() - i,
    {
        r.push(to_upper_char(v[i]));
        i += 1;
        assert(r@ =~= upper_of(s@).take(i as int));
    }
    assert(upper_of(s@).take(i as int) =~= upper_of(s@));
    r
}

/// Whether two texts are the same but for the case of ASCII letters.
pub fn same_ignoring_case(a: &str, b: &str) -> (r: bool)
    ensures
        r == (lower_of(a@) == lower_of(b@)),
{
    let x = to_lower(a);
    let y = to_lower(b);
    x == y
}

// ---------------------------------------------------------------------------
// Numbers
// ---------------------------------------------------------------------------

/// The digit that stands for `d`.
pub open spec fn digit_char(d: nat) -> char {
    (d + 48) as char
}

/// The decimal digits of `n`, without leading zeros.
pub open spec fn decimal_of(n: nat) -> Seq<char>
    decreases n,
{
    if n < 10 {
        seq![digit_char(n)]
    } else {
        decimal_of(n / 10).push(digit_char(n % 10))
    }
}

/// The decimal digits of `n`.
pub fn decimal(n: u64) -> (r: String)
    ensures
        r@ == decimal_of(n as nat),
    decreases n,
{
    if n < 10 {
        let mut r = String::new();
        r.push((48 + n as u8) as char);
        assert(r@ =~= seq![digit_char(n as nat)]);
        r
    } else {
        let mut r = decimal(n / 10);
        r.push((48 + (n % 10) as u8) as char);
        r
    }
}

/// The decimal digits of `n`, after a minus sign where it is negative.
pub open spec fn signed_decimal_of(n: int) -> Seq<char> {
    if n < 0 {
        "-"@ + decimal_of((-n) as nat)
    } else {
        decimal_of(n as nat)
    }
}

/// The decimal digits of `n`, after a minus sign where it is negative.
pub fn signed_decimal(n: i64) -> (r: String)
    ensures
        r@ == signed_decimal_of(n as int),
{
    if n == i64::MIN {
        concat("-", &decimal(0x8000_0000_0000_0000))
    } else if n < 0 {
        concat("-", &decimal((-n) as u64))
    } else {
        decimal(n as u64)
    }
}

/// Whether every character of `s` is an ASCII digit.
pub open spec fn all_digits(s: Seq<char>) -> bool {
    forall|i: int| 0 <= i < s.len() ==> digit(#[trigger] s[i])
}

/// The number that a sequence of digits stands for.
pub open spec fn value_of(s: Seq<char>) -> nat
    decreases s.len(),
{
    if s.len() == 0 {
        0
    } else {
        10 * value_of(s.drop_last()) + (s.last() as nat - 48) as nat
    }
}

/// The digits of an unsigned number: `s` without one leading plus sign.
pub open spec fn unsigned_digits(s: Seq<char>) -> Seq<char> {
    if s.len() > 0 && s[0] == '+' {
        s.skip(1)
    } else {
        s
    }
}

/// The number that `s` writes, where it writes one that is at most `max`.
pub open spec fn number_of(s: Seq<char>, max: nat) -> Option<nat> {
    let d = unsigned_digits(s);
    if d.len() > 0 && all_digits(d) && value_of(d) <= max {
        Some(value_of(d))
    } else {
        None
    }
}

proof fn value_of_grows(s: Seq<char>, i: int)
    requires
        0 <= i <= s.len(),
    ensures
        value_of(s.take(i)) <= value_of(s),
    decreases s.len() - i,
{
    if i == s.len() {
        assert(s.take(i) =~= s);
    } else {
        value_of_grows(s, i + 1);
        assert(s.take(i + 1).drop_last() =~= s.take(i));
    }
}

/// The number that `s` writes, where it writes one that is at most `max`.
pub fn parse_number(s: &str, max: u64) -> (r: Option<u64>)
    ensures
        match r {
            Some(n) => number_of(s@, max as nat) == Some(n as nat),
            None => number_of(s@, max as nat) is None,
        },
{
    let v = chars(s);
    let start: usize = if v.len() > 0 && v[0] == '+' {
        1
    } else {
        0
    };
    let ghost d = unsigned_digits(s@);
    assert(d =~= s@.skip(start as int));
    if start == v.len() {
        return None;
    }
    let mut n: u64 = 0;
    let mut i: usize = start;
    assert(d.take(0) =~= Seq::<char>::empty());
    while i < v.len()
        invariant
            v@ == s@,
            d == unsigned_digits(s@),
            d =~= s@.skip(start as int),
            start <= i <= v@.len(),
            n == value_of(d.take(i - start)),
            n <= max,
            forall|k: int| 0 <= k < i - start ==> digit(#[trigger] d[k]),
        decreases v@.len() - i,
    {
        let ghost k = i - start;
        assert(d.take(k + 1).drop_last() =~= d.take(k));
        assert(d[k] == v@[i as int]);
        if !is_digit(v[i]) {
            assert(!digit(d[k]));
            return None;
        }
        let x: u64 = (v[i] as u8 - 48) as u64;
        assert(value_of(d.take(k + 1)) == 10 * n + x);
        if n > max / 10 || x > max - 10 * n {
            proof {
                value_of_grows(d, k + 1);
            }
            return None;
        }
        n = 10 * n + x;
        i += 1;
    }
    assert(d.take(i - start) =~= d);
    Some(n)
}

/// The signed number that `s` writes, where it fits into 64 bits.
pub open spec fn signed_of(s: Seq<char>) -> Option<i64> {
    if s.len() > 0 && s[0] == '-' {
        let d = s.skip(1);
        if d.len() > 0 && all_digits(d) && value_of(d) <= 0x8000_0000_0000_0000 {
            Some((-(value_of(d) as int)) as i64)
        } else {
            None
        }
    } else {
        match number_of(s, 0x7fff_ffff_ffff_ffff) {
            Some(n) => Some(n as i64),
            None => None,
        }
    }
}

/// A number is read back from its decimal digits.
pub proof fn decimals_are_read_back(n: nat)
    ensures
        decimal_of(n).len() > 0,
        all_digits(decimal_of(n)),
        value_of(decimal_of(n)) == n,
    decreases n,
{
    if n < 10 {
        let d = decimal_of(n);
        assert(d.drop_last() =~= Seq::<char>::empty());
        assert(value_of(d.drop_last()) == 0);
        assert(d.last() as nat == n + 48);
    } else {
        let front = decimal_of(n / 10);
        decimals_are_read_back(n / 10);
        let d = decimal_of(n);
        assert(d.drop_last() =~= front);
        assert(d.last() as nat == n % 10 + 48);
        assert forall|i: int| 0 <= i < d.len() implies digit(#[trigger] d[i]) by {
            if i < front.len() {
                assert(d[i] == front[i]);
            }
        }
    }
}

/// A number is read back from its digits, which have no white space in them.
pub proof fn signed_decimals_are_read_back(n: i64)
    ensures
        signed_of(signed_decimal_of(n as int)) == Some(n),
        signed_decimal_of(n as int).len() > 0,
        solid(signed_decimal_of(n as int)),
{
    let s = signed_decimal_of(n as int);
    if n < 0 {
        let d = decimal_of((-n) as nat);
        decimals_are_read_back((-n) as nat);
        reveal_strlit("-");
        assert(s.skip(1) =~= d);
        assert forall|i: int| 0 <= i < s.len() implies !white(#[trigger] s[i]) by {
            if i > 0 {
                assert(s[i] == d[i - 1]);
                assert(digit(d[i - 1]));
            }
        }
    } else {
        decimals_are_read_back(n as nat);
        assert(digit(s[0]));
        assert forall|i: int| 0 <= i < s.len() implies !white(#[trigger] s[i]) by {
            assert(digit(s[i]));
        }
    }
}

/// The signed number that `s` writes, where it fits into 64 bits.
pub fn parse_signed(s: &str) -> (r: Option<i64>)
    ensures
        r == signed_of(s@),
{
    let n: usize = length(s);
    if n > 0 && s.get_char(0) == '-' {
        let d = substring(s, 1, n);
        assert(d@ =~= s@.skip(1));
        if n == 1 {
            return None;
        }
        if d.as_str().get_char(0) == '+' {
            assert(!digit(s@.skip(1)[0]));
            return None;
        }
        assert(unsigned_digits(d@) == d@);
        match parse_number(&d, 0x8000_0000_0000_0000) {
            Some(x) => if x == 0x8000_0000_0000_0000 {
                Some(-0x8000_0000_0000_0000i64)
            } else {
                Some(-(x as i64))
            },
            None => None,
        }
    } else {
        match parse_number(s, 0x7fff_ffff_ffff_ffff) {
            Some(x) => Some(x as i64),
            None => None,
        }
    }
}

/// The port number that `s` writes.
pub open spec fn port_of(s: Seq<char>) -> Option<u16> {
    match number_of(s, 65535) {
        Some(n) => Some(n as u16),
        None => None,
    }
}

/// The port number that `s` writes.
pub fn parse_port(s: &str) -> (r: Option<u16>)
    ensures
        r == port_of(s@),
{
    match parse_number(s, 65535) {
        Some(n) => Some(n as u16),
        None => None,
    }
}

// ---------------------------------------------------------------------------
// Order
// ---------------------------------------------------------------------------

/// Whether `a` comes before `b` in the order of a dictionary, by code point.
pub open spec fn before(a: Seq<char>, b: Seq<char>) -> bool
    decreases a.len(),
{
    if b.len() == 0 {
        false
    } else if a.len() == 0 {
        true
    } else if a[0] == b[0] {
        before(a.skip(1), b.skip(1))
    } else {
        a[0] < b[0]
    }
}

/// No text comes before itself.
pub proof fn before_irreflexive(a: Seq<char>)
    ensures
        !before(a, a),
    decreases a.len(),
{
    if a.len() > 0 {
        before_irreflexive(a.skip(1));
    }
}

/// The order is transitive.
pub proof fn before_transitive(a: Seq<char>, b: Seq<char>, c: Seq<char>)
    requires
        before(a, b),
        before(b, c),
    ensures
        before(a, c),
    decreases a.len(),
{
    if a.len() > 0 && a[0] == b[0] && b[0] == c[0] {
        before_transitive(a.skip(1), b.skip(1), c.skip(1));
    }
}

/// Of two different texts, one comes before the other.
pub proof fn before_total(a: Seq<char>, b: Seq<char>)
    ensures
        a == b || before(a, b) || before(b, a),
    decreases a.len(),
{
    if a.len() == 0 || b.len() == 0 {
        if a.len() == 0 && b.len() == 0 {
            assert(a =~= b);
        }
    } else if a[0] == b[0] {
        before_total(a.skip(1), b.skip(1));
        if a.skip(1) == b.skip(1) {
            assert(a =~= seq![a[0]] + a.skip(1));
            assert(b =~= seq![b[0]] + b.skip(1));
        }
    }
}

/// Whether `a` comes before `b`.
pub fn is_before(a: &str, b: &str) -> (r: bool)
    ensures
        r == before(a@, b@),
{
    let x = chars(a);
    let y = chars(b);
    let mut i: usize = 0;
    assert(a@.skip(0) =~= a@);
    assert(b@.skip(0) =~= b@);
    while i < x.len() && i < y.len()
        invariant
            x@ == a@,
            y@ == b@,
            i <= x@.len(),
            i <= y@.len(),
            before(a@, b@) == before(a@.skip(i as int), b@.skip(i as int)),
        decreases x@.len() - i,
    {
        assert(a@.skip(i as int).skip(1) =~= a@.skip(i + 1));
        assert(b@.skip(i as int).skip(1) =~= b@.skip(i + 1));
        if x[i] != y[i] {
            return x[i] < y[i];
        }
        i += 1;
    }
    i < y.len()
}

// ---------------------------------------------------------------------------
// Lists of texts
// ---------------------------------------------------------------------------

/// A sorted list with `x` at its place, after those that are the same.
pub open spec fn inserted(s: Seq<Seq<char>>, x: Seq<char>) -> Seq<Seq<char>>
    decreases s.len(),
{
    if s.len() == 0 {
        seq![x]
    } else if before(x, s[0]) {
        seq![x] + s
    } else {
        seq![s[0]] + inserted(s.skip(1), x)
    }
}

/// A list in ascending order.
pub open spec fn sorted_of(s: Seq<Seq<char>>) -> Seq<Seq<char>>
    decreases s.len(),
{
    if s.len() == 0 {
        s
    } else {
        inserted(sorted_of(s.drop_last()), s.last())
    }
}

/// Whether no text comes before an earlier one.
pub open spec fn is_sorted(s: Seq<Seq<char>>) -> bool {
    forall|i: int, j: int| 0 <= i < j < s.len() ==> !#[trigger] before(s[j], s[i])
}

proof fn inserted_sound(s: Seq<Seq<char>>, x: Seq<char>)
    requires
        is_sorted(s),
    ensures
        is_sorted(inserted(s, x)),
        inserted(s, x).to_multiset() == s.to_multiset().insert(x),
    decreases s.len(),
{
    broadcast use vstd::seq_lib::group_to_multiset_ensures;

    let r = inserted(s, x);
    if s.len() == 0 {
        assert(s.push(x) =~= r);
    } else if before(x, s[0]) {
        assert forall|i: int, j: int| 0 <= i < j < r.len() implies !#[trigger] before(r[j], r[i]) by {
            if i > 0 {
                assert(!before(s[j - 1], s[i - 1]));
            } else if j == 1 {
                if before(s[0], x) {
                    before_transitive(x, s[0], x);
                    before_irreflexive(x);
                }
            } else {
                assert(!before(s[j - 1], s[0]));
                if before(s[j - 1], x) {
                    before_transitive(s[j - 1], x, s[0]);
                }
            }
        }
        assert(s.insert(0, x) =~= r);
        to_multiset_inserted(s, x);
    } else {
        let rest = s.skip(1);
        assert(is_sorted(rest)) by {
            assert forall|i: int, j: int| 0 <= i < j < rest.len() implies !#[trigger] before(
                rest[j],
                rest[i],
            ) by {
                assert(!before(s[j + 1], s[i + 1]));
            }
        }
        inserted_sound(rest, x);
        let q = inserted(rest, x);
        assert(s =~= seq![s[0]] + rest);
        assert(r =~= seq![s[0]] + q);
        vstd::seq_lib::lemma_multiset_commutative(seq![s[0]], rest);
        vstd::seq_lib::lemma_multiset_commutative(seq![s[0]], q);
        assert(r.to_multiset() =~= s.to_multiset().insert(x));
        assert forall|i: int, j: int| 0 <= i < j < r.len() implies !#[trigger] before(r[j], r[i]) by {
            assert(r[j] == q[j - 1]);
            if i > 0 {
                assert(!before(q[j - 1], q[i - 1]));
            } else {
                assert(q.to_multiset().contains(q[j - 1]));
                if q[j - 1] != x {
                    assert(rest.to_multiset().contains(q[j - 1]));
                    assert(rest.contains(q[j - 1]));
                    let m = choose|m: int| 0 <= m < rest.len() && rest[m] == q[j - 1];
                    assert(!before(s[m + 1], s[0]));
                }
            }
        }
    }
}

proof fn to_multiset_inserted(s: Seq<Seq<char>>, x: Seq<char>)
    ensures
        (seq![x] + s).to_multiset() == s.to_multiset().insert(x),
{
    broadcast use vstd::seq_lib::group_to_multiset_ensures;

    vstd::seq_lib::lemma_multiset_commutative(seq![x], s);
    assert(seq![x] =~= Seq::<Seq<char>>::empty().push(x));
    assert((seq![x] + s).to_multiset() =~= s.to_multiset().insert(x));
}

/// Sorting puts the texts in order and neither adds nor loses one.
pub proof fn sorting_is_sound(s: Seq<Seq<char>>)
    ensures
        is_sorted(sorted_of(s)),
        sorted_of(s).to_multiset() == s.to_multiset(),
    decreases s.len(),
{
    broadcast use vstd::seq_lib::group_to_multiset_ensures;

    if s.len() > 0 {
        sorting_is_sound(s.drop_last());
        inserted_sound(sorted_of(s.drop_last()), s.last());
        assert(s =~= s.drop_last().push(s.last()));
    }
}

/// Two sorted lists of the same texts are the same list.
pub proof fn sorted_lists_are_equal(a: Seq<Seq<char>>, b: Seq<Seq<char>>)
    requires
        is_sorted(a),
        is_sorted(b),
        a.to_multiset() == b.to_multiset(),
    ensures
        a == b,
    decreases a.len(),
{
    broadcast use vstd::seq_lib::group_to_multiset_ensures;

    assert(a.to_multiset().len() == a.len());
    assert(b.to_multiset().len() == b.len());
    if a.len() == 0 {
        assert(a =~= b);
    } else {
        let x = a.last();
        let y = b.last();
        assert(b.to_multiset().contains(x)) by {
            assert(a.contains(x));
        }
        assert(a.to_multiset().contains(y)) by {
            assert(b.contains(y));
        }
        assert(b.contains(x));
        assert(a.contains(y));
        let i = choose|i: int| 0 <= i < b.len() && b[i] == x;
        let j = choose|j: int| 0 <= j < a.len() && a[j] == y;
        assert(!before(y, x)) by {
            if i < b.len() - 1 {
                assert(!before(b[b.len() - 1], b[i]));
            } else {
                before_irreflexive(x);
            }
        }
        assert(!before(x, y)) by {
            if j < a.len() - 1 {
                assert(!before(a[a.len() - 1], a[j]));
            } else {
                before_irreflexive(y);
            }
        }
        before_total(x, y);
        assert(x == y);
        assert(a =~= a.drop_last().push(x));
        assert(b =~= b.drop_last().push(y));
        assert(a.drop_last().to_multiset() =~= a.to_multiset().remove(x));
        assert(b.drop_last().to_multiset() =~= b.to_multiset().remove(y));
        assert(is_sorted(a.drop_last())) by {
            assert forall|p: int, q: int| 0 <= p < q < a.drop_last().len() implies !#[trigger] before(
                a.drop_last()[q],
                a.drop_last()[p],
            ) by {
                assert(!before(a[q], a[p]));
            }
        }
        assert(is_sorted(b.drop_last())) by {
            assert forall|p: int, q: int| 0 <= p < q < b.drop_last().len() implies !#[trigger] before(
                b.drop_last()[q],
                b.drop_last()[p],
            ) by {
                assert(!before(b[q], b[p]));
            }
        }
        sorted_lists_are_equal(a.drop_last(), b.drop_last());
    }
}

fn insert_text(v: &mut Vec<String>, x: &String)
    ensures
        views(final(v)@) == inserted(views(old(v)@), x@),
{
    let ghost all = views(v@);
    let ghost goal = inserted(all, x@);
    let mut i: usize = 0;
    assert(all.skip(0) =~= all);
    assert(all.take(0) + inserted(all, x@) =~= inserted(all, x@));
    while i < v.len() && !is_before(x, &v[i])
        invariant
            i <= v@.len(),
            all == views(v@),
            goal == all.take(i as int) + inserted(all.skip(i as int), x@),
        decreases v@.len() - i,
    {
        let ghost rest = all.skip(i as int);
        assert(rest.skip(1) =~= all.skip(i + 1));
        assert(all.take(i + 1) + inserted(all.skip(i + 1), x@) =~= all.take(i as int) + (seq![
            rest[0],
        ] + inserted(rest.skip(1), x@)));
        i += 1;
    }
    let ghost rest = all.skip(i as int);
    v.insert(i, x.clone());
    assert(views(v@) =~= all.take(i as int) + (seq![x@] + rest));
    assert(rest.len() == 0 ==> seq![x@] + rest =~= seq![x@]);
}

/// The texts in ascending order.
pub fn sort(v: &Vec<String>) -> (r: Vec<String>)
    ensures
        views(r@) == sorted_of(views(v@)),
{
    let ghost all = views(v@);
    let mut r: Vec<String> = Vec::new();
    let mut i: usize = 0;
    assert(all.take(0) =~= Seq::<Seq<char>>::empty());
    assert(views(r@) =~= Seq::<Seq<char>>::empty());
    while i < v.len()
        invariant
            all == views(v@),
            i <= v@.len(),
            views(r@) == sorted_of(all.take(i as int)),
        decreases v@.len() - i,
    {
        assert(all.take(i + 1).drop_last() =~= all.take(i as int));
        insert_text(&mut r, &v[i]);
        i += 1;
    }
    assert(all.take(i as int) =~= all);
    r
}

/// Whether `x` is among the texts of `v`.
pub fn among(v: &Vec<String>, x: &str) -> (r: bool)
    ensures
        r == views(v@).contains(x@),
{
    let mut i: usize = 0;
    while i < v.len()
        invariant
            i <= v@.len(),
            forall|k: int| 0 <= k < i ==> views(v@)[k] != x@,
        decreases v@.len() - i,
    {
        if same(&v[i], x) {
            assert(views(v@)[i as int] == x@);
            return true;
        }
        i += 1;
    }
    assert(!views(v@).contains(x@));
    false
}

/// A list of texts as one value.
#[derive(Debug)]
pub struct Texts {
    pub list: Vec<String>,
}

impl View for Texts {
    type V = Seq<Seq<char>>;

    open spec fn view(&self) -> Seq<Seq<char>> {
        views(self.list@)
    }
}

impl Clone for Texts {
    fn clone(&self) -> (r: Self)
        ensures
            r@ == self@,
    {
        Texts { list: clone_texts(&self.list) }
    }
}

/// The text from `i` on.
pub fn skip(s: &str, i: usize) -> (r: String)
    requires
        i <= s@.len(),
    ensures
        r@ == s@.skip(i as int),
{
    let n: usize = length(s);
    assert(s@.subrange(i as int, n as int) =~= s@.skip(i as int));
    substring(s, i, n)
}

/// The first `i` characters of a text.
pub fn take(s: &str, i: usize) -> (r: String)
    requires
        i <= s@.len(),
    ensures
        r@ == s@.take(i as int),
{
    assert(s@.subrange(0, i as int) =~= s@.take(i as int));
    substring(s, 0, i)
}

/// The first word of a text; empty where it has none.
pub open spec fn first_word_of(s: Seq<char>) -> Seq<char> {
    if words_of(s).len() > 0 {
        words_of(s)[0]
    } else {
        ""@
    }
}

pub fn first_word(s: &str) -> (r: String)
    ensures
        r@ == first_word_of(s@),
{
    let words = words(s);
    if words.len() > 0 {
        assert(views(words@)[0] == words@[0]@);
        words[0].clone()
    } else {
        own("")
    }
}

/// `s` without every `c` it begins with.
pub open spec fn without_leading(s: Seq<char>, c: char) -> Seq<char>
    decreases s.len(),
{
    if s.len() > 0 && s[0] == c {
        without_leading(s.skip(1), c)
    } else {
        s
    }
}

/// `s` without every `c` it ends with.
pub open spec fn without_trailing(s: Seq<char>, c: char) -> Seq<char>
    decreases s.len(),
{
    if s.len() > 0 && s.last() == c {
        without_trailing(s.drop_last(), c)
    } else {
        s
    }
}

pub fn strip_leading(s: &str, c: char) -> (r: String)
    ensures
        r@ == without_leading(s@, c),
{
    let v = chars(s);
    let mut i: usize = 0;
    assert(s@.skip(0) =~= s@);
    while i < v.len() && v[i] == c
        invariant
            v@ == s@,
            i <= v@.len(),
            without_leading(s@, c) == without_leading(s@.skip(i as int), c),
        decreases v@.len() - i,
    {
        assert(s@.skip(i as int).skip(1) =~= s@.skip(i + 1));
        i += 1;
    }
    skip(s, i)
}

pub fn strip_trailing(s: &str, c: char) -> (r: String)
    ensures
        r@ == without_trailing(s@, c),
{
    let v = chars(s);
    let mut i: usize = v.len();
    assert(s@.take(i as int) =~= s@);
    while i > 0 && v[i - 1] == c
        invariant
            v@ == s@,
            i <= v@.len(),
            without_trailing(s@, c) == without_trailing(s@.take(i as int), c),
        decreases i,
    {
        assert(s@.take(i as int).drop_last() =~= s@.take(i - 1));
        i -= 1;
    }
    take(s, i)
}

/// A list of one text.
pub fn single(x: String) -> (r: Vec<String>)
    ensures
        views(r@) == seq![x@],
{
    let mut r: Vec<String> = Vec::new();
    r.push(x);
    assert(views(r@) =~= seq![x@]);
    r
}

/// The views of a list of texts.
pub open spec fn str_views(s: Seq<&str>) -> Seq<Seq<char>> {
    Seq::new(s.len(), |i: int| s[i]@)
}

/// Copies of a list of texts.
pub fn texts(parts: &[&str]) -> (r: Vec<String>)
    ensures
        views(r@) == str_views(parts@),
{
    let mut r: Vec<String> = Vec::new();
    let mut i: usize = 0;
    assert(views(r@) =~= str_views(parts@).take(0));
    while i < parts.len()
        invariant
            i <= parts@.len(),
            views(r@) == str_views(parts@).take(i as int),
        decreases parts@.len() - i,
    {
        self::add(&mut r, parts[i]);
        i += 1;
        assert(views(r@) =~= str_views(parts@).take(i as int));
    }
    assert(str_views(parts@).take(i as int) =~= str_views(parts@));
    r
}

/// Adds a copy of `x` to a list.
pub fn add(v: &mut Vec<String>, x: &str)
    ensures
        views(final(v)@) == views(old(v)@).push(x@),
{
    broadcast use views_push;

    v.push(x.to_owned());
}

/// Adds copies of the texts of `more` to a list.
pub fn add_all(v: &mut Vec<String>, more: &Vec<String>)
    ensures
        views(final(v)@) == views(old(v)@) + views(more@),
{
    let ghost start = views(v@);
    let ghost list = views(more@);
    let mut i: usize = 0;
    assert(start + list.take(0) =~= start);
    while i < more.len()
        invariant
            list == views(more@),
            i <= more@.len(),
            views(v@) == start + list.take(i as int),
        decreases more@.len() - i,
    {
        self::add(v, &more[i]);
        i += 1;
        assert((start + list.take(i - 1)).push(list[i - 1]) =~= start + list.take(i as int));
    }
    assert(list.take(i as int) =~= list);
}

/// Whether two lists hold the same texts in the same order.
pub fn same_list(a: &Vec<String>, b: &Vec<String>) -> (r: bool)
    ensures
        r == (views(a@) == views(b@)),
{
    if a.len() != b.len() {
        assert(views(a@).len() != views(b@).len());
        return false;
    }
    let mut i: usize = 0;
    while i < a.len()
        invariant
            i <= a@.len(),
            a@.len() == b@.len(),
            forall|k: int| 0 <= k < i ==> views(a@)[k] == views(b@)[k],
        decreases a@.len() - i,
    {
        if !same(&a[i], &b[i]) {
            assert(views(a@)[i as int] != views(b@)[i as int]);
            return false;
        }
        i += 1;
    }
    assert(views(a@) =~= views(b@));
    true
}

/// A text that was put together contains each of its parts.
pub proof fn part_is_contained(before: Seq<char>, part: Seq<char>, after: Seq<char>)
    ensures
        contains_of(before + part + after, part),
{
    let whole = before + part + after;
    find_from_is_least(whole, part, 0);
    assert(whole.subrange(before.len() as int, (before.len() + part.len()) as int) =~= part);
    assert(stands_at(whole, part, before.len() as int));
}

/// What a text contains, a longer text around it contains too.
pub proof fn contained_in_more(before: Seq<char>, middle: Seq<char>, after: Seq<char>, part: Seq<char>)
    requires
        contains_of(middle, part),
    ensures
        contains_of(before + middle + after, part),
{
    find_from_is_least(middle, part, 0);
    let i = find_of(middle, part).unwrap();
    let whole = before + middle + after;
    let at = before.len() + i;
    find_from_is_least(whole, part, 0);
    assert(whole.subrange(at, at + part.len()) =~= middle.subrange(i, i + part.len()));
    assert(stands_at(whole, part, at));
}

/// What is replaced in a text is replaced in each of its parts.
pub proof fn replaced_in_parts(a: Seq<char>, b: Seq<char>, c: char, with: Seq<char>)
    ensures
        replace_of(a + b, c, with) == replace_of(a, c, with) + replace_of(
            b,
            c,
            with,
        ),
    decreases b.len(),
{
    if b.len() == 0 {
        assert(a + b =~= a);
        assert(replace_of(a, c, with) + Seq::<char>::empty() =~= replace_of(a, c, with));
    } else {
        assert((a + b).drop_last() =~= a + b.drop_last());
        replaced_in_parts(a, b.drop_last(), c, with);
        let last = if b.last() == c {
            with
        } else {
            seq![b.last()]
        };
        let x = replace_of(a, c, with);
        let y = replace_of(b.drop_last(), c, with);
        assert(x + y + last =~= x + (y + last));
    }
}

/// Of a single character, all or nothing is replaced.
pub proof fn one_replaced(x: char, c: char, with: Seq<char>)
    ensures
        replace_of(seq![x], c, with) == (if x == c {
            with
        } else {
            seq![x]
        }),
{
    let one = seq![x];
    assert(one.drop_last() =~= Seq::<char>::empty());
    let nothing = Seq::<char>::empty();
    assert(replace_of(nothing, c, with) =~= nothing);
    let last = if x == c {
        with
    } else {
        seq![x]
    };
    assert(nothing + last =~= last);
}

} // verus!
