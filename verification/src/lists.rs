//! Lists built from lists.

use vstd::prelude::*;

verus! {

/// What `f` gives for each of the first `k` elements, one after the other.
pub open spec fn gather<A, T>(s: Seq<A>, f: spec_fn(A) -> Seq<T>, k: int) -> Seq<T>
    decreases k,
{
    if k <= 0 {
        Seq::empty()
    } else {
        gather(s, f, k - 1) + f(s[k - 1])
    }
}

/// What `f` gives for each element, one after the other.
pub open spec fn gathered<A, T>(s: Seq<A>, f: spec_fn(A) -> Seq<T>) -> Seq<T> {
    gather(s, f, s.len() as int)
}

/// The numbers below `n` for which `p` holds, in ascending order.
pub open spec fn indices(n: int, p: spec_fn(int) -> bool) -> Seq<usize>
    decreases n,
{
    if n <= 0 {
        Seq::empty()
    } else if p(n - 1) {
        indices(n - 1, p).push((n - 1) as usize)
    } else {
        indices(n - 1, p)
    }
}

/// `indices` lists exactly the numbers for which `p` holds, each once, in ascending order.
pub proof fn indices_are_exact(n: int, p: spec_fn(int) -> bool)
    requires
        n <= usize::MAX,
    ensures
        forall|x: usize| indices(n, p).contains(x) <==> x < n && p(x as int),
        forall|i: int, j: int|
            0 <= i < j < indices(n, p).len() ==> indices(n, p)[i] < indices(n, p)[j],
    decreases n,
{
    if n > 0 {
        indices_are_exact(n - 1, p);
        let before = indices(n - 1, p);
        let now = indices(n, p);
        assert forall|x: usize| now.contains(x) <==> x < n && p(x as int) by {
            if now.contains(x) {
                let m = choose|m: int| 0 <= m < now.len() && now[m] == x;
                if m < before.len() {
                    assert(before[m] == x);
                    assert(before.contains(x));
                }
            }
            if x < n && p(x as int) {
                if x < n - 1 {
                    assert(before.contains(x));
                    let m = choose|m: int| 0 <= m < before.len() && before[m] == x;
                    assert(now[m] == x);
                } else {
                    assert(now[now.len() - 1] == x);
                }
            }
        }
        assert forall|i: int, j: int| 0 <= i < j < now.len() implies now[i] < now[j] by {
            if j < before.len() {
                assert(before[i] < before[j]);
            } else if i < before.len() {
                assert(before.contains(before[i]));
            }
        }
    }
}

} // verus!
