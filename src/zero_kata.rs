//! Choosing the integer closest to zero, the positive one on a tie.
use vstd::prelude::*;

verus! {

/// Distance of `x` from zero.
pub open spec fn dist(x: i32) -> int {
    if x < 0 {
        -(x as int)
    } else {
        x as int
    }
}

/// `a` is at least as close to zero as `b`: nearer, or as near and not
/// below it (so the positive one of `k` and `-k` comes first).
pub open spec fn at_least_as_close(a: i32, b: i32) -> bool {
    dist(a) < dist(b) || (dist(a) == dist(b) && a >= b)
}

/// `x` is an element of `s` at least as close to zero as every element of `s`.
pub open spec fn is_closest(x: i32, s: Seq<i32>) -> bool {
    s.contains(x) && forall|i: int| 0 <= i < s.len() ==> #[trigger] at_least_as_close(x, s[i])
}

/// The element of `s` closest to zero, the positive one on a tie; `None`
/// when `s` is empty.
pub open spec fn closest_of(s: Seq<i32>) -> Option<i32> {
    if exists|x: i32| is_closest(x, s) {
        Some(choose|x: i32| is_closest(x, s))
    } else {
        None
    }
}

/// Comparator of the selection: whether `a` is at least as close to zero as `b`.
pub fn is_at_least_as_close(a: i32, b: i32) -> (r: bool)
    ensures
        r == at_least_as_close(a, b),
{
    let da: i64 = if a < 0 { -(a as i64) } else { a as i64 };
    let db: i64 = if b < 0 { -(b as i64) } else { b as i64 };
    da < db || (da == db && a >= b)
}

/// Two elements that are each at least as close as the other are equal.
proof fn lemma_closest_unique(x: i32, y: i32, s: Seq<i32>)
    requires
        is_closest(x, s),
        is_closest(y, s),
    ensures
        x == y,
{
    let i = choose|i: int| 0 <= i < s.len() && s[i] == y;
    let j = choose|j: int| 0 <= j < s.len() && s[j] == x;
    assert(at_least_as_close(x, s[i]));
    assert(at_least_as_close(y, s[j]));
}

/// Returns the element of `numbers` closest to zero, preferring the positive
/// one of two elements equally far from zero; `None` when `numbers` is empty.
pub fn closest_to_zero(numbers: &Vec<i32>) -> (r: Option<&i32>)
    ensures
        r.is_none() <==> numbers@.len() == 0,
        match r {
            Some(x) => is_closest(*x, numbers@) && closest_of(numbers@) == Some(*x),
            None => closest_of(numbers@) is None,
        },
{
    if numbers.len() == 0 {
        return None;
    }
    let mut best: usize = 0;
    let mut i: usize = 1;
    while i < numbers.len()
        invariant
            1 <= i <= numbers.len(),
            best < i,
            forall|j: int| 0 <= j < i ==> #[trigger] at_least_as_close(numbers@[best as int], numbers@[j]),
        decreases numbers.len() - i,
    {
        if !is_at_least_as_close(numbers[best], numbers[i]) {
            let ghost old_best = best;
            best = i;
            assert forall|j: int| 0 <= j < i + 1 implies #[trigger] at_least_as_close(
                numbers@[best as int],
                numbers@[j],
            ) by {
                if j < i {
                    assert(at_least_as_close(numbers@[old_best as int], numbers@[j]));
                }
            }
        }
        i = i + 1;
    }
    let x = numbers[best];
    assert(numbers@[best as int] == x);
    assert(is_closest(x, numbers@));
    proof {
        let y = choose|y: i32| is_closest(y, numbers@);
        lemma_closest_unique(x, y, numbers@);
    }
    Some(&numbers[best])
}

/// Same result as `closest_to_zero`, found the other way round: the least
/// non-negative element and the greatest negative element are looked up
/// first, and the nearer of the two to zero is returned, the non-negative one
/// on a tie.
pub fn closest_to_zero_mins(numbers: &Vec<i32>) -> (r: Option<&i32>)
    ensures
        r.is_none() <==> numbers@.len() == 0,
        match r {
            Some(x) => is_closest(*x, numbers@) && closest_of(numbers@) == Some(*x),
            None => closest_of(numbers@) is None,
        },
{
    let mut least_positive: Option<usize> = None;
    let mut least_negative: Option<usize> = None;
    let mut i: usize = 0;
    while i < numbers.len()
        invariant
            i <= numbers.len(),
            match least_positive {
                Some(p) => p < i && numbers@[p as int] >= 0 && forall|j: int|
                    0 <= j < i && #[trigger] numbers@[j] >= 0 ==> numbers@[p as int] <= numbers@[j],
                None => forall|j: int| 0 <= j < i ==> #[trigger] numbers@[j] < 0,
            },
            match least_negative {
                Some(n) => n < i && numbers@[n as int] < 0 && forall|j: int|
                    0 <= j < i && #[trigger] numbers@[j] < 0 ==> numbers@[j] <= numbers@[n as int],
                None => forall|j: int| 0 <= j < i ==> #[trigger] numbers@[j] >= 0,
            },
        decreases numbers.len() - i,
    {
        let v = numbers[i];
        if v >= 0 {
            match least_positive {
                Some(p) => {
                    if v < numbers[p] {
                        least_positive = Some(i);
                    }
                },
                None => {
                    least_positive = Some(i);
                },
            }
        } else {
            match least_negative {
                Some(n) => {
                    if v > numbers[n] {
                        least_negative = Some(i);
                    }
                },
                None => {
                    least_negative = Some(i);
                },
            }
        }
        i = i + 1;
    }
    let best: usize = match (least_positive, least_negative) {
        (Some(p), Some(n)) => {
            if numbers[p] as i64 <= -(numbers[n] as i64) {
                p
            } else {
                n
            }
        },
        (Some(p), None) => p,
        (None, Some(n)) => n,
        (None, None) => {
            assert(numbers@.len() == 0) by {
                if numbers@.len() > 0 {
                    assert(numbers@[0] < 0);
                }
            }
            return None;
        },
    };
    let x = numbers[best];
    assert(numbers@[best as int] == x);
    assert forall|j: int| 0 <= j < numbers@.len() implies #[trigger] at_least_as_close(
        x,
        numbers@[j],
    ) by {
        let y = numbers@[j];
        assert(y >= 0 || y < 0);
    }
    assert(is_closest(x, numbers@));
    proof {
        let y = choose|y: i32| is_closest(y, numbers@);
        lemma_closest_unique(x, y, numbers@);
    }
    Some(&numbers[best])
}

/// The result does not depend on the order of the input: two sequences that
/// hold the same elements the same number of times have the same element
/// closest to zero.
pub proof fn lemma_closest_reorder(s1: Seq<i32>, s2: Seq<i32>)
    requires
        s1.to_multiset() == s2.to_multiset(),
    ensures
        closest_of(s1) == closest_of(s2),
{
    s1.to_multiset_ensures();
    s2.to_multiset_ensures();
    assert forall|x: i32| is_closest(x, s1) <==> is_closest(x, s2) by {
        if s1.contains(x) {
            assert(s1.to_multiset().count(x) > 0);
            assert(s2.contains(x));
        }
        if s2.contains(x) {
            assert(s2.to_multiset().count(x) > 0);
            assert(s1.contains(x));
        }
        if is_closest(x, s1) {
            assert forall|i: int| 0 <= i < s2.len() implies #[trigger] at_least_as_close(x, s2[i]) by {
                assert(s2.contains(s2[i]));
                assert(s1.to_multiset().count(s2[i]) == s2.to_multiset().count(s2[i]));
                assert(s2.to_multiset().count(s2[i]) > 0);
                assert(s1.contains(s2[i]));
                let j = choose|j: int| 0 <= j < s1.len() && s1[j] == s2[i];
                assert(at_least_as_close(x, s1[j]));
            }
        }
        if is_closest(x, s2) {
            assert forall|i: int| 0 <= i < s1.len() implies #[trigger] at_least_as_close(x, s1[i]) by {
                assert(s1.contains(s1[i]));
                assert(s1.to_multiset().count(s1[i]) == s2.to_multiset().count(s1[i]));
                assert(s1.to_multiset().count(s1[i]) > 0);
                assert(s2.contains(s1[i]));
                let j = choose|j: int| 0 <= j < s2.len() && s2[j] == s1[i];
                assert(at_least_as_close(x, s2[j]));
            }
        }
    }
    if exists|x: i32| is_closest(x, s1) {
        let x1 = choose|x: i32| is_closest(x, s1);
        let x2 = choose|x: i32| is_closest(x, s2);
        assert(is_closest(x1, s2));
        lemma_closest_unique(x1, x2, s2);
    }
}

/// The positive one wins a tie: where both `k` and `-k` occur, `k > 0`, and
/// no element is nearer to zero, the result is `k`.
pub proof fn lemma_closest_prefers_positive(s: Seq<i32>, k: i32)
    requires
        k > 0,
        s.contains(k),
        s.contains((-k) as i32),
        forall|i: int| 0 <= i < s.len() ==> dist(#[trigger] s[i]) >= k,
    ensures
        closest_of(s) == Some(k),
{
    assert forall|i: int| 0 <= i < s.len() implies #[trigger] at_least_as_close(k, s[i]) by {
        assert(dist(s[i]) >= k);
    }
    assert(is_closest(k, s));
    let y = choose|y: i32| is_closest(y, s);
    lemma_closest_unique(k, y, s);
}

} // verus!
