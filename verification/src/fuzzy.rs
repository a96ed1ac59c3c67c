//! Bounded fuzzy name matching: two normalized names match when both have between 5 and
//! 128 characters and one substitution, insertion or deletion turns one into the other.
use vstd::prelude::*;

use crate::text::to_chars;

verus! {

/// Longest name (in characters) that fuzzy matching considers.
pub const MAX_FUZZY_CHARS: usize = 128;

/// Shortest name (in characters) that fuzzy matching considers.
pub const MIN_FUZZY_CHARS: usize = 5;

/// `e` and `a` are equal or one substitution, deletion or insertion apart.
pub open spec fn one_edit_apart(e: Seq<char>, a: Seq<char>) -> bool {
    ||| e == a
    ||| (e.len() == a.len() && exists|i: int| 0 <= i < e.len() && #[trigger] e.update(i, a[i]) == a)
    ||| (exists|i: int| 0 <= i < e.len() && #[trigger] e.remove(i) == a)
    ||| (exists|i: int| 0 <= i < a.len() && #[trigger] a.remove(i) == e)
}

/// Both names are long enough to be distinctive and short enough to compare cheaply.
pub open spec fn fuzzy_sized(e: Seq<char>, a: Seq<char>) -> bool {
    MIN_FUZZY_CHARS <= e.len() <= MAX_FUZZY_CHARS && MIN_FUZZY_CHARS <= a.len() <= MAX_FUZZY_CHARS
}

/// Equal-length comparison: at most one position differs.
fn one_edit_same_len(e: &Vec<char>, a: &Vec<char>) -> (r: bool)
    requires
        e.len() == a.len(),
    ensures
        r == one_edit_apart(e@, a@),
{
    let n = e.len();
    let mut i: usize = 0;
    let mut edits: u8 = 0;
    let mut p: usize = 0;
    while i < n
        invariant
            i <= n,
            n == e.len(),
            n == a.len(),
            edits <= 1,
            edits == 0 ==> e@.subrange(0, i as int) == a@.subrange(0, i as int),
            edits == 1 ==> p < i && e@[p as int] != a@[p as int] && e@.subrange(0, i as int).update(
                p as int,
                a@[p as int],
            ) == a@.subrange(0, i as int),
        decreases n - i,
    {
        if e[i] == a[i] {
            proof {
                if edits == 1 {
                    assert(e@.subrange(0, i + 1).update(p as int, a@[p as int]) =~= e@.subrange(
                        0,
                        i as int,
                    ).update(p as int, a@[p as int]).push(e@[i as int]));
                    assert(a@.subrange(0, i + 1) =~= a@.subrange(0, i as int).push(a@[i as int]));
                } else {
                    assert(e@.subrange(0, i + 1) =~= e@.subrange(0, i as int).push(e@[i as int]));
                    assert(a@.subrange(0, i + 1) =~= a@.subrange(0, i as int).push(a@[i as int]));
                }
            }
            i = i + 1;
        } else {
            if edits == 1 {
                proof {
                    assert(e@ != a@) by {
                        assert(e@[i as int] != a@[i as int]);
                    }
                    assert forall|j: int| 0 <= j < e@.len() implies #[trigger] e@.update(j, a@[j])
                        != a@ by {
                        if j == p {
                            assert(e@.update(j, a@[j])[i as int] == e@[i as int]);
                        } else {
                            assert(e@.update(j, a@[j])[p as int] == e@[p as int]);
                        }
                    }
                    assert forall|j: int| 0 <= j < e@.len() implies #[trigger] e@.remove(j) != a@ by {
                        assert(e@.remove(j).len() != a@.len());
                    }
                    assert forall|j: int| 0 <= j < a@.len() implies #[trigger] a@.remove(j) != e@ by {
                        assert(a@.remove(j).len() != e@.len());
                    }
                }
                return false;
            }
            proof {
                assert(e@.subrange(0, i + 1).update(i as int, a@[i as int]) =~= a@.subrange(0, i + 1));
            }
            edits = 1;
            p = i;
            i = i + 1;
        }
    }
    proof {
        assert(e@.subrange(0, n as int) =~= e@);
        assert(a@.subrange(0, n as int) =~= a@);
        if edits == 1 {
            assert(e@.update(p as int, a@[p as int]) == a@);
        }
    }
    true
}

/// Comparison of a name with one that is one character shorter: deleting a single
/// character of the longer one yields the shorter one.
fn one_edit_longer(e: &Vec<char>, a: &Vec<char>) -> (r: bool)
    requires
        e.len() == a.len() + 1,
    ensures
        r == one_edit_apart(e@, a@),
{
    let n = e.len();
    let m = a.len();
    let mut left: usize = 0;
    let mut right: usize = 0;
    let mut edits: u8 = 0;
    let mut p: usize = 0;
    while left < n && right < m
        invariant
            n == e.len(),
            m == a.len(),
            n == m + 1,
            left <= n,
            right <= m,
            edits <= 1,
            edits == 0 ==> left == right && e@.subrange(0, left as int) == a@.subrange(0, right as int),
            edits == 1 ==> left == right + 1 && p < left && e@.subrange(0, p as int) == a@.subrange(
                0,
                p as int,
            ) && e@[p as int] != a@[p as int] && e@.subrange(p + 1, left as int) == a@.subrange(
                p as int,
                right as int,
            ),
        decreases n - left,
    {
        if e[left] == a[right] {
            proof {
                if edits == 1 {
                    assert(e@.subrange(p + 1, left + 1) =~= e@.subrange(p + 1, left as int).push(e@[left as int]));
                    assert(a@.subrange(p as int, right + 1) =~= a@.subrange(p as int, right as int).push(a@[right as int]));
                } else {
                    assert(e@.subrange(0, left + 1) =~= e@.subrange(0, left as int).push(e@[left as int]));
                    assert(a@.subrange(0, right + 1) =~= a@.subrange(0, right as int).push(a@[right as int]));
                }
            }
            left = left + 1;
            right = right + 1;
        } else {
            if edits == 1 {
                proof {
                    assert forall|j: int| 0 <= j < e@.len() implies #[trigger] e@.remove(j) != a@ by {
                        if e@.remove(j) == a@ {
                            if j > p {
                                assert(e@.remove(j)[p as int] == e@[p as int]);
                            } else {
                                assert(e@.remove(j)[right as int] == e@[right + 1]);
                            }
                        }
                    }
                    assert forall|j: int| 0 <= j < a@.len() implies #[trigger] a@.remove(j) != e@ by {
                        assert(a@.remove(j).len() != e@.len());
                    }
                    assert(e@ != a@);
                }
                return false;
            }
            proof {
                assert(e@[left as int] != a@[left as int]);
                assert(e@.subrange(left + 1, left + 1) =~= a@.subrange(right as int, right as int));
            }
            edits = 1;
            p = left;
            left = left + 1;
        }
    }
    let result = edits + (if left < n || right < m { 1u8 } else { 0u8 }) <= 1;
    proof {
        if edits == 0 {
            assert(right == m);
            assert(e@.remove(m as int) =~= a@) by {
                assert(e@.subrange(0, m as int) =~= a@);
            }
        } else {
            assert(left == n && right == m);
            assert(e@.remove(p as int) =~= e@.subrange(0, p as int) + e@.subrange(p + 1, n as int));
            assert(a@ =~= a@.subrange(0, p as int) + a@.subrange(p as int, m as int));
        }
    }
    result
}

/// Swaps the roles for the case where the expected name is the shorter one.
proof fn lemma_one_edit_symmetric(e: Seq<char>, a: Seq<char>)
    ensures
        one_edit_apart(e, a) == one_edit_apart(a, e),
{
    if e.len() == a.len() {
        if exists|i: int| 0 <= i < e.len() && #[trigger] e.update(i, a[i]) == a {
            let i = choose|i: int| 0 <= i < e.len() && #[trigger] e.update(i, a[i]) == a;
            assert(a.update(i, e[i]) =~= e);
        }
        if exists|i: int| 0 <= i < a.len() && #[trigger] a.update(i, e[i]) == e {
            let i = choose|i: int| 0 <= i < a.len() && #[trigger] a.update(i, e[i]) == e;
            assert(e.update(i, a[i]) =~= a);
        }
    }
}

/// `one_edit_or_less`: both normalized names have 5 to 128 characters and are at most
/// one substitution, insertion or deletion apart.
pub fn one_edit_or_less(expected: &str, actual: &str) -> (r: bool)
    ensures
        r == (fuzzy_sized(expected@, actual@) && one_edit_apart(expected@, actual@)),
{
    let e = to_chars(expected);
    let a = to_chars(actual);
    if e.len() < MIN_FUZZY_CHARS || a.len() < MIN_FUZZY_CHARS || e.len() > MAX_FUZZY_CHARS
        || a.len() > MAX_FUZZY_CHARS {
        return false;
    }
    let diff = if e.len() >= a.len() {
        e.len() - a.len()
    } else {
        a.len() - e.len()
    };
    if diff > 1 {
        proof {
            assert(e@ != a@);
            assert forall|j: int| 0 <= j < e@.len() implies #[trigger] e@.remove(j) != a@ by {
                assert(e@.remove(j).len() != a@.len());
            }
            assert forall|j: int| 0 <= j < a@.len() implies #[trigger] a@.remove(j) != e@ by {
                assert(a@.remove(j).len() != e@.len());
            }
        }
        return false;
    }
    if e.len() == a.len() {
        one_edit_same_len(&e, &a)
    } else if e.len() > a.len() {
        one_edit_longer(&e, &a)
    } else {
        let r = one_edit_longer(&a, &e);
        proof {
            lemma_one_edit_symmetric(e@, a@);
        }
        r
    }
}

} // verus!
