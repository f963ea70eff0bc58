//! Figures on the pictures of a folder.
use vstd::prelude::*;

verus! {

/// The sum of `sizes`.
pub open spec fn total(sizes: Seq<u64>) -> nat
    decreases sizes.len(),
{
    if sizes.len() == 0 {
        0
    } else {
        total(sizes.drop_last()) + sizes.last() as nat
    }
}

/// The sum of a part is at most the sum of the whole.
pub proof fn lemma_total_grows(sizes: Seq<u64>, n: int)
    requires
        0 <= n <= sizes.len(),
    ensures
        total(sizes.take(n)) <= total(sizes),
    decreases sizes.len() - n,
{
    if n < sizes.len() {
        lemma_total_grows(sizes, n + 1);
        assert(sizes.take(n + 1).drop_last() =~= sizes.take(n));
    } else {
        assert(sizes.take(n) =~= sizes);
    }
}

/// How many pictures there are, and how many millions of bytes they take
/// together, rounded down.  `sizes` holds the size of each picture in bytes.
///
/// `None` where the sizes add up to more than a `u64` holds.
pub fn get_stats(sizes: &Vec<u64>) -> (r: Option<(usize, u64)>)
    ensures
        match r {
            Some((count, megabytes)) => {
                &&& total(sizes@) <= u64::MAX
                &&& count == sizes@.len()
                &&& megabytes == total(sizes@) / 1_000_000
            },
            None => total(sizes@) > u64::MAX,
        },
{
    let mut sum: u64 = 0;
    let mut i: usize = 0;
    assert(sizes@.take(0) =~= Seq::<u64>::empty());
    while i < sizes.len()
        invariant
            i <= sizes.len(),
            sum == total(sizes@.take(i as int)),
        decreases sizes.len() - i,
    {
        proof {
            assert(sizes@.take(i + 1).drop_last() =~= sizes@.take(i as int));
            lemma_total_grows(sizes@, i + 1);
        }
        match sum.checked_add(sizes[i]) {
            Some(next) => {
                sum = next;
            },
            None => {
                return None;
            },
        }
        i += 1;
    }
    assert(sizes@.take(i as int) =~= sizes@);
    Some((sizes.len(), sum / 1_000_000))
}

} // verus!
