//! Sums, selections and recurrences over sequences of numbers.

use vstd::prelude::*;

verus! {

/// The sum of the numbers of `s`.
pub open spec fn sum_of(s: Seq<i32>) -> int
    decreases s.len(),
{
    if s.len() == 0 {
        0
    } else {
        sum_of(s.drop_last()) + s.last()
    }
}

/// Adds up the numbers of `slice`, from the first on. No sum on the way
/// may leave the range of `i32`.
pub fn sum(slice: &[i32]) -> (total: i32)
    requires
        forall|k: int|
            0 <= k <= slice@.len() ==> i32::MIN <= #[trigger] sum_of(slice@.take(k)) <= i32::MAX,
    ensures
        total == sum_of(slice@),
{
    let mut total: i32 = 0;
    let mut i: usize = 0;
    while i < slice.len()
        invariant
            i <= slice.len(),
            total == sum_of(slice@.take(i as int)),
            forall|k: int|
                0 <= k <= slice@.len() ==> i32::MIN <= #[trigger] sum_of(slice@.take(k))
                    <= i32::MAX,
        decreases slice.len() - i,
    {
        proof {
            assert(slice@.take(i + 1).drop_last() =~= slice@.take(i as int));
            assert(slice@.take(i + 1).last() == slice@[i as int]);
            assert(i32::MIN <= sum_of(slice@.take(i + 1)) <= i32::MAX);
        }
        total = total + slice[i];
        i += 1;
    }
    proof {
        assert(slice@.take(slice@.len() as int) =~= slice@);
    }
    total
}

/// The numbers of `s` without repetition: each where it occurs first.
pub open spec fn first_occurrences(s: Seq<i32>) -> Seq<i32>
    decreases s.len(),
{
    if s.len() == 0 {
        Seq::empty()
    } else {
        let before = first_occurrences(s.drop_last());
        if s.drop_last().contains(s.last()) {
            before
        } else {
            before.push(s.last())
        }
    }
}

/// The first occurrences hold the same numbers as the sequence, each once.
pub proof fn lemma_first_occurrences(s: Seq<i32>)
    ensures
        first_occurrences(s).no_duplicates(),
        forall|x: i32| first_occurrences(s).contains(x) <==> s.contains(x),
    decreases s.len(),
{
    if s.len() > 0 {
        let head = s.drop_last();
        let before = first_occurrences(head);
        let kept = first_occurrences(s);
        lemma_first_occurrences(head);
        assert forall|x: i32| kept.contains(x) <==> s.contains(x) by {
            if kept.contains(x) {
                let i = choose|i: int| 0 <= i < kept.len() && kept[i] == x;
                if i < before.len() {
                    assert(before[i] == x);
                    assert(before.contains(x));
                    assert(head.contains(x));
                    let j = choose|j: int| 0 <= j < head.len() && head[j] == x;
                    assert(s[j] == x);
                } else {
                    assert(s[s.len() - 1] == x);
                }
            }
            if s.contains(x) {
                let i = choose|i: int| 0 <= i < s.len() && s[i] == x;
                if i < head.len() {
                    assert(head[i] == x);
                }
                if head.contains(x) {
                    assert(before.contains(x));
                    let j = choose|j: int| 0 <= j < before.len() && before[j] == x;
                    assert(kept[j] == x);
                } else {
                    assert(s.last() == x);
                    assert(kept[kept.len() - 1] == x);
                }
            }
        }
        if !head.contains(s.last()) {
            assert(!before.contains(s.last()));
            assert forall|i: int, j: int| 0 <= i < kept.len() && 0 <= j < kept.len() && i != j
                implies kept[i] != kept[j] by {
                if i < before.len() {
                    assert(before[i] == kept[i]);
                    assert(before.contains(kept[i]));
                }
                if j < before.len() {
                    assert(before[j] == kept[j]);
                    assert(before.contains(kept[j]));
                }
            }
        }
    }
}

fn holds(xs: &Vec<i32>, x: i32) -> (found: bool)
    ensures
        found == xs@.contains(x),
{
    let mut i: usize = 0;
    while i < xs.len()
        invariant
            i <= xs.len(),
            forall|j: int| 0 <= j < i ==> xs@[j] != x,
        decreases xs.len() - i,
    {
        if xs[i] == x {
            return true;
        }
        i += 1;
    }
    false
}

/// The numbers of `vs`, each once, in the order in which they first occur.
pub fn unique(vs: &Vec<i32>) -> (xs: Vec<i32>)
    ensures
        xs@ == first_occurrences(vs@),
        xs@.no_duplicates(),
        forall|x: i32| xs@.contains(x) <==> vs@.contains(x),
{
    let mut xs: Vec<i32> = Vec::new();
    let mut i: usize = 0;
    while i < vs.len()
        invariant
            i <= vs.len(),
            xs@ == first_occurrences(vs@.take(i as int)),
        decreases vs.len() - i,
    {
        proof {
            lemma_first_occurrences(vs@.take(i as int));
            assert(vs@.take(i + 1).drop_last() =~= vs@.take(i as int));
            assert(vs@.take(i + 1).last() == vs@[i as int]);
        }
        if !holds(&xs, vs[i]) {
            xs.push(vs[i]);
        }
        i += 1;
    }
    proof {
        assert(vs@.take(vs@.len() as int) =~= vs@);
        lemma_first_occurrences(vs@);
    }
    xs
}

/// The numbers of `s` at the places where `keep` says so, in order.
pub open spec fn chosen(s: Seq<i32>, keep: Seq<bool>) -> Seq<i32>
    decreases s.len(),
{
    if s.len() == 0 || keep.len() != s.len() {
        Seq::empty()
    } else {
        let before = chosen(s.drop_last(), keep.drop_last());
        if keep.last() {
            before.push(s.last())
        } else {
            before
        }
    }
}

/// The numbers of `vs` of which `pred` holds, in order. `pred` is asked
/// once for each number, from the first on; what it answers of a number
/// decides whether the number is kept.
pub fn filter<F: Fn(i32) -> bool>(vs: &Vec<i32>, pred: &F) -> (xs: Vec<i32>)
    requires
        forall|i: int| 0 <= i < vs@.len() ==> call_requires(*pred, (#[trigger] vs@[i],)),
    ensures
        exists|keep: Seq<bool>|
            {
                &&& keep.len() == vs@.len()
                &&& forall|i: int|
                    0 <= i < vs@.len() ==> call_ensures(*pred, (vs@[i],), #[trigger] keep[i])
                &&& xs@ == chosen(vs@, keep)
            },
{
    let mut xs: Vec<i32> = Vec::new();
    let ghost mut keep: Seq<bool> = Seq::empty();
    let mut i: usize = 0;
    while i < vs.len()
        invariant
            i <= vs.len(),
            keep.len() == i,
            forall|j: int| 0 <= j < vs@.len() ==> call_requires(*pred, (#[trigger] vs@[j],)),
            forall|j: int| 0 <= j < i ==> call_ensures(*pred, (vs@[j],), #[trigger] keep[j]),
            xs@ == chosen(vs@.take(i as int), keep),
        decreases vs.len() - i,
    {
        let x = vs[i];
        let kept = pred(x);
        proof {
            let longer = keep.push(kept);
            assert(vs@.take(i + 1).drop_last() =~= vs@.take(i as int));
            assert(longer.drop_last() =~= keep);
            assert(vs@.take(i + 1).last() == x);
            keep = longer;
        }
        if kept {
            xs.push(x);
        }
        i += 1;
    }
    proof {
        assert(vs@.take(vs@.len() as int) =~= vs@);
    }
    xs
}

/// The term at place `i` of the sequence that begins `n1`, `n2` and goes
/// on with the sum of the two terms before.
pub open spec fn fibonacci_term(n1: int, n2: int, i: nat) -> int
    decreases i,
{
    if i == 0 {
        n1
    } else if i == 1 {
        n2
    } else {
        fibonacci_term(n1, n2, (i - 2) as nat) + fibonacci_term(n1, n2, (i - 1) as nat)
    }
}

/// How many terms are given for a request of `how_many`: one for one,
/// else as many as asked for but never fewer than the two given ones.
pub open spec fn fibonacci_count(how_many: usize) -> nat {
    if how_many == 1 {
        1
    } else if how_many < 2 {
        2
    } else {
        how_many as nat
    }
}

/// The first terms of the sequence that begins `n1`, `n2` and goes on
/// with the sum of the two terms before. Every term asked for must fit
/// `i32`.
pub fn fibonacci(n1: i32, n2: i32, how_many: usize) -> (vs: Vec<i32>)
    requires
        forall|i: nat|
            2 <= i < how_many ==> i32::MIN <= #[trigger] fibonacci_term(n1 as int, n2 as int, i)
                <= i32::MAX,
    ensures
        vs@.len() == fibonacci_count(how_many),
        forall|i: int|
            0 <= i < vs@.len() ==> vs@[i] == fibonacci_term(n1 as int, n2 as int, i as nat),
{
    let mut vs: Vec<i32> = Vec::new();
    vs.push(n1);
    if how_many == 1 {
        return vs;
    }
    vs.push(n2);
    let mut i: usize = 2;
    while i < how_many
        invariant
            2 <= i,
            how_many >= 2 ==> i <= how_many,
            how_many < 2 ==> i == 2,
            vs@.len() == i,
            forall|j: int|
                0 <= j < vs@.len() ==> vs@[j] == fibonacci_term(n1 as int, n2 as int, j as nat),
            forall|j: nat|
                2 <= j < how_many ==> i32::MIN <= #[trigger] fibonacci_term(
                    n1 as int,
                    n2 as int,
                    j,
                ) <= i32::MAX,
        decreases how_many - i,
    {
        proof {
            assert(i32::MIN <= fibonacci_term(n1 as int, n2 as int, i as nat) <= i32::MAX);
        }
        let next = vs[i - 2] + vs[i - 1];
        vs.push(next);
        i += 1;
    }
    vs
}

} // verus!
