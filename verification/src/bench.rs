//! Small benchmark utilities: two Fibonacci implementations and an
//! in-place quicksort.

use vstd::multiset::Multiset;
use vstd::prelude::*;
use vstd::seq_lib::to_multiset_update;

verus! {

/// The Fibonacci sequence starting `1, 1, 2, 3, 5, ...`.
pub open spec fn fib(n: nat) -> nat
    decreases n,
{
    if n <= 1 {
        1
    } else {
        fib((n - 1) as nat) + fib((n - 2) as nat)
    }
}

/// The sequence is monotone.
pub proof fn lemma_fib_monotone(i: nat, j: nat)
    requires
        i <= j,
    ensures
        fib(i) <= fib(j),
    decreases j - i,
{
    if i < j {
        lemma_fib_monotone(i, (j - 1) as nat);
    }
}

/// The doubly-recursive Fibonacci.
pub fn fibonacci_1(n: u64) -> (r: u64)
    requires
        fib(n as nat) <= u64::MAX,
    ensures
        r == fib(n as nat),
    decreases n,
{
    match n {
        0 => 1,
        1 => 1,
        n => {
            proof {
                lemma_fib_monotone((n - 1) as nat, n as nat);
                lemma_fib_monotone((n - 2) as nat, n as nat);
            }
            fibonacci_1(n - 1) + fibonacci_1(n - 2)
        },
    }
}

/// The iterative Fibonacci, one addition per step.
pub fn fibonacci_2(n: u64) -> (r: u64)
    requires
        fib(n as nat) <= u64::MAX,
    ensures
        r == fib(n as nat),
{
    let mut a: u64 = 0;
    let mut b: u64 = 1;

    match n {
        0 => b,
        _ => {
            let mut i: u64 = 0;
            while i < n
                invariant
                    i <= n,
                    b == fib(i as nat),
                    a == if i == 0 {
                        0nat
                    } else {
                        fib((i - 1) as nat)
                    },
                    fib(n as nat) <= u64::MAX,
                decreases n - i,
            {
                proof {
                    lemma_fib_monotone((i + 1) as nat, n as nat);
                }
                let c = a + b;
                a = b;
                b = c;
                i = i + 1;
            }
            b
        },
    }
}

/// Whether a sequence is in nondecreasing order.
pub open spec fn sorted(s: Seq<u32>) -> bool {
    forall|x: int, y: int| 0 <= x < y < s.len() ==> s[x] <= s[y]
}

/// Exchange the elements at two positions.
fn swap_at(v: &mut Vec<u32>, a: usize, b: usize)
    requires
        a < old(v)@.len(),
        b < old(v)@.len(),
    ensures
        final(v)@ == old(v)@.update(a as int, old(v)@[b as int]).update(
            b as int,
            old(v)@[a as int],
        ),
{
    let x = v[a];
    let y = v[b];
    v[a] = y;
    v[b] = x;
}

/// Exchanging two elements permutes the sequence.
proof fn lemma_swap_multiset(s: Seq<u32>, a: int, b: int)
    requires
        0 <= a < s.len(),
        0 <= b < s.len(),
    ensures
        s.update(a, s[b]).update(b, s[a]).to_multiset() == s.to_multiset(),
{
    broadcast use to_multiset_update;

    let s1 = s.update(a, s[b]);
    if a == b {
        assert(s1.update(b, s[a]) =~= s);
    } else {
        assert(s1[b] == s[b]);
        assert(s1.update(b, s[a]).to_multiset() =~= s.to_multiset()) by {
            assert(s1.to_multiset() == s.to_multiset().insert(s[b]).remove(s[a]));
            assert(s1.update(b, s[a]).to_multiset() == s1.to_multiset().insert(s[a]).remove(
                s[b],
            ));
            s.to_multiset_ensures();
            assert(s.to_multiset().count(s[a]) > 0);
        }
    }
}

/// Two sequences with the same contents satisfy the same bounds.
proof fn lemma_multiset_bounds(s1: Seq<u32>, s2: Seq<u32>, p: u32)
    requires
        s1.to_multiset() == s2.to_multiset(),
    ensures
        (forall|m: int| 0 <= m < s1.len() ==> s1[m] <= p) ==> (forall|m: int|
            0 <= m < s2.len() ==> s2[m] <= p),
        (forall|m: int| 0 <= m < s1.len() ==> s1[m] > p) ==> (forall|m: int|
            0 <= m < s2.len() ==> s2[m] > p),
{
    s1.to_multiset_ensures();
    s2.to_multiset_ensures();
    if forall|m: int| 0 <= m < s1.len() ==> s1[m] <= p {
        assert forall|m: int| 0 <= m < s2.len() implies s2[m] <= p by {
            assert(s2.contains(s2[m]));
            assert(s1.to_multiset().count(s2[m]) > 0);
            assert(s1.contains(s2[m]));
        }
    }
    if forall|m: int| 0 <= m < s1.len() ==> s1[m] > p {
        assert forall|m: int| 0 <= m < s2.len() implies s2[m] > p by {
            assert(s2.contains(s2[m]));
            assert(s1.to_multiset().count(s2[m]) > 0);
            assert(s1.contains(s2[m]));
        }
    }
}

/// Partition `v[lo..hi)` around its last element: afterwards the
/// pivot value sits at the returned index, everything left of it is
/// no larger, everything right of it is larger.
fn partition(v: &mut Vec<u32>, lo: usize, hi: usize) -> (mid: usize)
    requires
        lo < hi <= old(v)@.len(),
    ensures
        lo <= mid < hi,
        final(v)@.len() == old(v)@.len(),
        forall|m: int| 0 <= m < old(v)@.len() && !(lo <= m < hi) ==> final(v)@[m] == old(v)@[m],
        final(v)@.subrange(lo as int, hi as int).to_multiset() == old(v)@.subrange(
            lo as int,
            hi as int,
        ).to_multiset(),
        forall|m: int| lo <= m < mid ==> final(v)@[m] <= final(v)@[mid as int],
        forall|m: int| mid < m < hi ==> final(v)@[m] > final(v)@[mid as int],
{
    let pivot = hi - 1;
    let mut i = lo;
    let mut j = lo;
    while j < pivot
        invariant
            lo <= i <= j <= pivot,
            pivot == hi - 1,
            lo < hi <= v@.len(),
            v@.len() == old(v)@.len(),
            forall|m: int| 0 <= m < v@.len() && !(lo <= m < hi) ==> v@[m] == old(v)@[m],
            v@.subrange(lo as int, hi as int).to_multiset() == old(v)@.subrange(
                lo as int,
                hi as int,
            ).to_multiset(),
            forall|m: int| lo <= m < i ==> v@[m] <= v@[pivot as int],
            forall|m: int| i <= m < j ==> v@[m] > v@[pivot as int],
        decreases pivot - j,
    {
        if v[j] <= v[pivot] {
            let ghost s = v@;
            swap_at(v, i, j);
            proof {
                lemma_swap_multiset(
                    s.subrange(lo as int, hi as int),
                    i - lo,
                    j - lo,
                );
                assert(v@.subrange(lo as int, hi as int) =~= s.subrange(
                    lo as int,
                    hi as int,
                ).update(i - lo, s[j as int]).update(j - lo, s[i as int]));
            }
            i = i + 1;
        }
        j = j + 1;
    }
    let ghost s = v@;
    swap_at(v, i, pivot);
    proof {
        lemma_swap_multiset(s.subrange(lo as int, hi as int), i - lo, pivot - lo);
        assert(v@.subrange(lo as int, hi as int) =~= s.subrange(lo as int, hi as int).update(
            i - lo,
            s[pivot as int],
        ).update(pivot - lo, s[i as int]));
    }
    i
}

/// Sort `v[lo..hi)` in place.
fn quicksort_range(v: &mut Vec<u32>, lo: usize, hi: usize)
    requires
        lo <= hi <= old(v)@.len(),
    ensures
        final(v)@.len() == old(v)@.len(),
        forall|m: int| 0 <= m < old(v)@.len() && !(lo <= m < hi) ==> final(v)@[m] == old(v)@[m],
        final(v)@.subrange(lo as int, hi as int).to_multiset() == old(v)@.subrange(
            lo as int,
            hi as int,
        ).to_multiset(),
        sorted(final(v)@.subrange(lo as int, hi as int)),
    decreases hi - lo,
{
    if hi - lo <= 1 {
        assert(final(v)@.subrange(lo as int, hi as int) =~= old(v)@.subrange(lo as int, hi as int));
        return ;
    }
    let mid = partition(v, lo, hi);
    let ghost s1 = v@;
    quicksort_range(v, lo, mid);
    let ghost s2 = v@;
    proof {
        // The left half keeps its contents, so its elements stay at or
        // below the pivot value; the pivot and the right half are
        // untouched.
        lemma_multiset_bounds(
            s1.subrange(lo as int, mid as int),
            s2.subrange(lo as int, mid as int),
            s1[mid as int],
        );
        assert forall|m: int| lo <= m < mid implies s2[m] <= s2[mid as int] by {
            assert(s2.subrange(lo as int, mid as int)[m - lo] == s2[m]);
            assert(s1.subrange(lo as int, mid as int)[m - lo] == s1[m]);
        }
    }
    quicksort_range(v, mid + 1, hi);
    proof {
        let sf = v@;
        // The right half keeps its contents, so its elements stay
        // above the pivot value; the left half and pivot are untouched.
        lemma_multiset_bounds(
            s2.subrange(mid + 1, hi as int),
            sf.subrange(mid + 1, hi as int),
            s2[mid as int],
        );
        assert forall|m: int| mid < m < hi implies sf[m] > sf[mid as int] by {
            assert(sf.subrange(mid + 1, hi as int)[m - (mid + 1)] == sf[m]);
            assert(s2.subrange(mid + 1, hi as int)[m - (mid + 1)] == s2[m]);
        }
        assert forall|m: int| lo <= m < mid implies sf[m] <= sf[mid as int] by {
            assert(sf[m] == s2[m]);
        }
        // The left half was left alone by the second recursive call,
        // so it is still sorted.
        assert(sf.subrange(lo as int, mid as int) =~= s2.subrange(lo as int, mid as int));
        assert(sorted(sf.subrange(lo as int, mid as int)));
        // Sortedness of the whole range from the two sorted halves and
        // the pivot bounds.
        assert(sorted(sf.subrange(lo as int, hi as int))) by {
            assert forall|x: int, y: int|
                lo <= x < y < hi implies sf[x] <= sf[y] by {
                if y <= mid {
                    if x < mid && y < mid {
                        assert(sf.subrange(lo as int, mid as int)[x - lo] == sf[x]);
                        assert(sf.subrange(lo as int, mid as int)[y - lo] == sf[y]);
                    }
                } else if x >= mid {
                    if x > mid {
                        assert(sf.subrange(mid + 1, hi as int)[x - (mid + 1)] == sf[x]);
                        assert(sf.subrange(mid + 1, hi as int)[y - (mid + 1)] == sf[y]);
                    }
                } else {
                    // x below the pivot, y above it
                    assert(sf[x] <= sf[mid as int]);
                    if y > mid {
                        assert(sf[y] > sf[mid as int]);
                    }
                }
            }
            assert forall|x: int, y: int|
                0 <= x < y < hi - lo implies sf.subrange(lo as int, hi as int)[x]
                <= sf.subrange(lo as int, hi as int)[y] by {
                assert(sf.subrange(lo as int, hi as int)[x] == sf[lo + x]);
                assert(sf.subrange(lo as int, hi as int)[y] == sf[lo + y]);
            }
        }
        // The whole range is a permutation: stitch the three pieces
        // back together across both recursive calls.
        lemma_three_way_multiset(s1, s2, v@, lo as int, mid as int, hi as int);
    }
}

/// Combining an in-place permutation of `[lo, mid)` with one of
/// `[mid + 1, hi)`, everything else unchanged, permutes `[lo, hi)`.
proof fn lemma_three_way_multiset(s1: Seq<u32>, s2: Seq<u32>, s3: Seq<u32>, lo: int, mid: int, hi: int)
    requires
        0 <= lo <= mid < hi <= s1.len(),
        s1.len() == s2.len() == s3.len(),
        forall|m: int| 0 <= m < s1.len() && !(lo <= m < mid) ==> s2[m] == s1[m],
        forall|m: int| 0 <= m < s2.len() && !(mid + 1 <= m < hi) ==> s3[m] == s2[m],
        s2.subrange(lo, mid).to_multiset() == s1.subrange(lo, mid).to_multiset(),
        s3.subrange(mid + 1, hi).to_multiset() == s2.subrange(mid + 1, hi).to_multiset(),
    ensures
        s3.subrange(lo, hi).to_multiset() == s1.subrange(lo, hi).to_multiset(),
{
    lemma_split_multiset(s1.subrange(lo, hi), mid - lo);
    lemma_split_multiset(s2.subrange(lo, hi), mid - lo);
    lemma_split_multiset(s3.subrange(lo, hi), mid - lo);
    assert(s2.subrange(lo, hi).subrange(0, mid - lo) =~= s2.subrange(lo, mid));
    assert(s1.subrange(lo, hi).subrange(0, mid - lo) =~= s1.subrange(lo, mid));
    assert(s3.subrange(lo, hi).subrange(0, mid - lo) =~= s3.subrange(lo, mid));
    assert(s3.subrange(lo, mid) =~= s2.subrange(lo, mid));
    assert(s2.subrange(lo, hi).subrange(mid - lo, hi - lo) =~= s2.subrange(mid, hi));
    assert(s1.subrange(lo, hi).subrange(mid - lo, hi - lo) =~= s1.subrange(mid, hi));
    assert(s3.subrange(lo, hi).subrange(mid - lo, hi - lo) =~= s3.subrange(mid, hi));
    assert(s2.subrange(mid, hi) =~= s1.subrange(mid, hi));
    lemma_split_multiset(s2.subrange(mid, hi), 1);
    lemma_split_multiset(s3.subrange(mid, hi), 1);
    assert(s2.subrange(mid, hi).subrange(1, hi - mid) =~= s2.subrange(mid + 1, hi));
    assert(s3.subrange(mid, hi).subrange(1, hi - mid) =~= s3.subrange(mid + 1, hi));
    assert(s3.subrange(mid, hi).subrange(0, 1) =~= s2.subrange(mid, hi).subrange(0, 1));
}

/// The contents of a sequence are the contents of any split of it.
proof fn lemma_split_multiset(s: Seq<u32>, k: int)
    requires
        0 <= k <= s.len(),
    ensures
        s.to_multiset() == s.subrange(0, k).to_multiset().add(
            s.subrange(k, s.len() as int).to_multiset(),
        ),
    decreases s.len() - k,
{
    broadcast use vstd::multiset::group_multiset_axioms;

    if k == s.len() {
        let tail = s.subrange(k, s.len() as int);
        tail.to_multiset_ensures();
        assert(s.subrange(0, k) =~= s);
        assert(tail =~= Seq::<u32>::empty());
        assert(tail.to_multiset().len() == 0);
        assert(tail.to_multiset() =~= Multiset::<u32>::empty());
        assert(s.to_multiset() =~= s.to_multiset().add(Multiset::<u32>::empty()));
    } else {
        lemma_split_multiset(s, k + 1);
        let head = s.subrange(0, k);
        let head1 = s.subrange(0, k + 1);
        let tail = s.subrange(k, s.len() as int);
        let tail1 = s.subrange(k + 1, s.len() as int);
        head.to_multiset_ensures();
        tail.to_multiset_ensures();
        assert(head1 =~= head.push(s[k]));
        assert(head1.to_multiset() =~= head.to_multiset().insert(s[k]));
        assert(tail.remove(0) =~= tail1);
        assert(tail1.to_multiset() =~= tail.to_multiset().remove(tail[0]));
        assert(tail[0] == s[k]);
        assert(tail.contains(s[k]));
        assert(tail.to_multiset().count(s[k]) > 0);
        // Moving one occurrence of the split element across the `add`
        // leaves the combined contents unchanged.
        assert(head.to_multiset().add(tail.to_multiset()) =~= head1.to_multiset().add(
            tail1.to_multiset(),
        ));
    }
}

/// The in-place quicksort: sorts the vector without changing its
/// contents.
pub fn my_quicksort(input: &mut Vec<u32>)
    ensures
        sorted(final(input)@),
        final(input)@.to_multiset() == old(input)@.to_multiset(),
        final(input)@.len() == old(input)@.len(),
{
    if input.len() <= 1 {
        proof {
            if input@.len() == 1 {
                assert(input@[0] <= input@[0]);
            }
        }
        return ;
    }
    let len = input.len();
    quicksort_range(input, 0, len);
    proof {
        assert(input@.subrange(0, len as int) =~= input@);
        assert(old(input)@.subrange(0, len as int) =~= old(input)@);
    }
}

/// A sketch that was never filled in: it leaves the vector exactly as
/// it came, whatever its length.
pub fn functional_quicksort(input: &mut Vec<u32>)
    ensures
        final(input)@ == old(input)@,
{
    if input.len() <= 1 {
        return ;
    }
}

} // verus!
