use vstd::prelude::*;

verus! {

/// How many of the first `n` positions hold the same class in `a` and `b`.
pub open spec fn agreements(a: Seq<usize>, b: Seq<usize>, n: nat) -> nat
    decreases n,
{
    if n == 0 {
        0
    } else {
        agreements(a, b, (n - 1) as nat) + if a[n - 1] == b[n - 1] {
            1nat
        } else {
            0nat
        }
    }
}

pub open spec fn min_len(a: Seq<usize>, b: Seq<usize>) -> nat {
    if a.len() <= b.len() {
        a.len()
    } else {
        b.len()
    }
}

/// The number of samples whose predicted class (the column of the largest
/// output in its row) is the target class; pairs beyond the shorter list
/// are not counted.
pub fn correct_classes(targets: &[usize], predicted: &[usize]) -> (r: usize)
    ensures
        r == agreements(targets@, predicted@, min_len(targets@, predicted@)),
{
    let n = if targets.len() <= predicted.len() {
        targets.len()
    } else {
        predicted.len()
    };
    let mut correct: usize = 0;
    let mut i: usize = 0;
    while i < n
        invariant
            n == min_len(targets@, predicted@),
            i <= n,
            correct == agreements(targets@, predicted@, i as nat),
            correct <= i,
        decreases n - i,
    {
        if predicted[i] == targets[i] {
            correct = correct + 1;
        }
        i = i + 1;
    }
    correct
}

} // verus!
