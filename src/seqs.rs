//! Facts about sequences of ids that the passes' loops rely on.

use vstd::prelude::*;

verus! {

/// `x` stands among the first `n` items of `s`.
pub open spec fn among_first(s: Seq<usize>, n: int, x: usize) -> bool {
    exists|j: int| 0 <= j < n && j < s.len() && #[trigger] s[j] == x
}

pub proof fn lemma_among_first_step(s: Seq<usize>, n: int)
    requires
        0 <= n < s.len(),
    ensures
        forall|x: usize| #[trigger]
            among_first(s, n + 1, x) <==> (among_first(s, n, x) || x == s[n]),
{
    assert forall|x: usize| #[trigger]
        among_first(s, n + 1, x) <==> (among_first(s, n, x) || x == s[n]) by {
        if x == s[n] {
            assert(s[n] == x);
        }
    }
}

pub proof fn lemma_among_first_fresh(s: Seq<usize>, n: int)
    requires
        0 <= n < s.len(),
        s.no_duplicates(),
    ensures
        !among_first(s, n, s[n]),
{
}

pub proof fn lemma_among_first_all(s: Seq<usize>)
    ensures
        forall|x: usize| #[trigger] among_first(s, s.len() as int, x) <==> s.contains(x),
{
    assert forall|x: usize| #[trigger] among_first(s, s.len() as int, x) <==> s.contains(x) by {
        if s.contains(x) {
            let j = choose|j: int| 0 <= j < s.len() && s[j] == x;
            assert(s[j] == x);
        }
    }
}

/// The items of `s` with `v` pushed are those of `s` and `v`; pushing a
/// new item keeps the items distinct.
pub proof fn lemma_push_contains(s: Seq<usize>, v: usize)
    ensures
        forall|x: usize| #[trigger] s.push(v).contains(x) <==> (s.contains(x) || x == v),
        s.no_duplicates() && !s.contains(v) ==> s.push(v).no_duplicates(),
{
    assert forall|x: usize| #[trigger] s.push(v).contains(x) <==> (s.contains(x) || x == v) by {
        if s.contains(x) {
            let j = choose|j: int| 0 <= j < s.len() && s[j] == x;
            assert(s.push(v)[j] == x);
        }
        if x == v {
            assert(s.push(v)[s.len() as int] == x);
        }
        if s.push(v).contains(x) && x != v {
            let j = choose|j: int| 0 <= j < s.push(v).len() && s.push(v)[j] == x;
            assert(s[j] == x);
        }
    }
    if s.no_duplicates() && !s.contains(v) {
        assert forall|i: int, j: int| 0 <= i < j < s.push(v).len() implies s.push(v)[i] != s.push(v)[j] by {
            if j == s.len() {
                assert(s.contains(s[i]));
            }
        }
    }
}

} // verus!
