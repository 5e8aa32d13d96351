//! Sequences with every occurrence of one element taken out.
use vstd::prelude::*;

verus! {

/// `s` without any occurrence of `x`, order kept.
pub open spec fn remove_all<T>(s: Seq<T>, x: T) -> Seq<T>
    decreases s.len(),
{
    if s.len() == 0 {
        s
    } else {
        let r = remove_all(s.drop_last(), x);
        if s.last() == x {
            r
        } else {
            r.push(s.last())
        }
    }
}

pub proof fn lemma_remove_all<T>(s: Seq<T>, x: T)
    ensures
        forall|y: T| #[trigger] remove_all(s, x).contains(y) <==> s.contains(y) && y != x,
        !s.contains(x) ==> remove_all(s, x) == s,
    decreases s.len(),
{
    if s.len() > 0 {
        lemma_remove_all(s.drop_last(), x);
        assert(s == s.drop_last().push(s.last()));
        let r = remove_all(s.drop_last(), x);
        assert forall|y: T| #[trigger] remove_all(s, x).contains(y) <==> s.contains(y) && y != x by {
            if s.contains(y) && y != x {
                let k = choose|k: int| 0 <= k < s.len() && s[k] == y;
                if k < s.len() - 1 {
                    assert(s.drop_last()[k] == y);
                    assert(r.contains(y));
                    let j = choose|j: int| 0 <= j < r.len() && r[j] == y;
                    if s.last() != x {
                        assert(r.push(s.last())[j] == y);
                    }
                } else {
                    assert(r.push(s.last())[r.len() as int] == y);
                }
            }
            if remove_all(s, x).contains(y) {
                let j = choose|j: int| 0 <= j < remove_all(s, x).len() && remove_all(s, x)[j] == y;
                if j < r.len() {
                    assert(r[j] == y);
                    assert(r.contains(y));
                    let k = choose|k: int| 0 <= k < s.drop_last().len() && s.drop_last()[k] == y;
                    assert(s[k] == y);
                } else {
                    assert(y == s.last());
                    assert(s[s.len() - 1] == y);
                }
            }
        }
        if !s.contains(x) {
            assert(!s.drop_last().contains(x)) by {
                if s.drop_last().contains(x) {
                    let k = choose|k: int| 0 <= k < s.drop_last().len() && s.drop_last()[k] == x;
                    assert(s[k] == x);
                }
            }
        }
    }
}

/// Removing an element keeps a sequence free of duplicates.
pub proof fn lemma_remove_all_distinct<T>(s: Seq<T>, x: T)
    requires
        s.no_duplicates(),
    ensures
        remove_all(s, x).no_duplicates(),
    decreases s.len(),
{
    if s.len() > 0 {
        let rest = s.drop_last();
        assert(rest.no_duplicates());
        lemma_remove_all_distinct(rest, x);
        lemma_remove_all(rest, x);
        if s.last() != x {
            assert(!rest.contains(s.last())) by {
                if rest.contains(s.last()) {
                    let k = choose|k: int| 0 <= k < rest.len() && rest[k] == s.last();
                    assert(s[k] == s[s.len() - 1]);
                }
            }
            assert(!remove_all(rest, x).contains(s.last()));
            let r = remove_all(rest, x);
            assert forall|a: int, b: int| 0 <= a < b < r.push(s.last()).len() implies r.push(s.last())[a]
                != r.push(s.last())[b] by {
                if b == r.len() {
                    assert(r.contains(r[a]));
                }
            }
        }
    }
}

} // verus!
