//! Bulk-synchronous chunking of a work list, the tally of its outcomes, and
//! the progress counter of a pass.

use vstd::prelude::*;

verus! {

/// The number of chunks of size `k` that `n` items make: `n / k` rounded up.
pub open spec fn chunk_total(n: nat, k: nat) -> nat
    recommends
        k > 0,
{
    ((n + k - 1) / k as int) as nat
}

/// Where chunk `c` starts.
pub open spec fn chunk_start(c: nat, k: nat) -> nat {
    c * k
}

/// Where chunk `c` ends (exclusive): a full chunk, or the end of the list.
pub open spec fn chunk_end(c: nat, n: nat, k: nat) -> nat {
    if (c + 1) * k <= n {
        (c + 1) * k
    } else {
        n
    }
}

/// How many items the first `c` chunks hold together.
pub open spec fn chunks_covered(c: nat, n: nat, k: nat) -> nat
    decreases c,
{
    if c == 0 {
        0
    } else {
        chunks_covered((c - 1) as nat, n, k) + (chunk_end((c - 1) as nat, n, k) - chunk_start(
            (c - 1) as nat,
            k,
        )) as nat
    }
}

/// How many of the outcomes succeeded.
pub open spec fn successes(outcomes: Seq<bool>) -> nat {
    outcomes.filter(|b: bool| b).len()
}

/// The number of chunks of size `k` that `n` items make.
pub fn chunk_count(n: usize, k: usize) -> (r: usize)
    requires
        k > 0,
    ensures
        r == chunk_total(n as nat, k as nat),
{
    let whole = n / k;
    assert(n == whole * k + n % k && n % k < k) by (nonlinear_arith)
        requires
            k > 0,
            whole == n / k,
    ;
    assert(n % k > 0 ==> whole + 1 <= n) by (nonlinear_arith)
        requires
            k > 0,
            n == whole * k + n % k,
            whole >= 0,
    ;
    let r = if n % k == 0 {
        whole
    } else {
        whole + 1
    };
    assert(r == (n + k - 1) / (k as int)) by (nonlinear_arith)
        requires
            k > 0,
            whole == n / k,
            r == if n % k == 0 { whole as int } else { whole + 1 },
    ;
    r
}

/// The bounds of each chunk, in order: chunk `c` runs from `c * k` up to
/// `(c + 1) * k`, or to `n` for the last one.
pub fn chunk_bounds(n: usize, k: usize) -> (r: Vec<(usize, usize)>)
    requires
        k > 0,
    ensures
        r@.len() == chunk_total(n as nat, k as nat),
        forall|c: int|
            0 <= c < r@.len() ==> (#[trigger] r@[c]).0 == chunk_start(c as nat, k as nat) && r@[c].1
                == chunk_end(c as nat, n as nat, k as nat),
{
    let count = chunk_count(n, k);
    let mut r: Vec<(usize, usize)> = Vec::new();
    let mut start: usize = 0;
    let mut c: usize = 0;
    assert(n > 0 ==> count > 0) by (nonlinear_arith)
        requires
            k > 0,
            count == (n + k - 1) / (k as int),
    ;
    while start < n
        invariant
            k > 0,
            count == chunk_total(n as nat, k as nat),
            r@.len() == c,
            start <= n,
            start == c * k || (start == n && c * k >= n),
            c <= count,
            start < n ==> c < count,
            forall|j: int|
                0 <= j < c ==> (#[trigger] r@[j]).0 == chunk_start(j as nat, k as nat) && r@[j].1
                    == chunk_end(j as nat, n as nat, k as nat),
        decreases n - start,
    {
        let end = if n - start >= k {
            start + k
        } else {
            n
        };
        assert((c + 1) * k == start + k) by (nonlinear_arith)
            requires
                start == c * k,
        ;
        r.push((start, end));
        start = end;
        c = c + 1;
        proof {
            if start < n {
                assert(c < count) by (nonlinear_arith)
                    requires
                        start == c * k,
                        start < n,
                        k > 0,
                        count == (n + k - 1) / (k as int),
                ;
            }
        }
    }
    proof {
        assert(c * k >= n);
        assert(c >= count) by (nonlinear_arith)
            requires
                c * k >= n,
                k > 0,
                count == (n + k - 1) / (k as int),
        ;
    }
    r
}

/// Counts the successes and the failures among the outcomes of a pass.
pub fn tally(outcomes: &Vec<bool>) -> (r: (usize, usize))
    ensures
        r.0 == successes(outcomes@),
        r.0 + r.1 == outcomes@.len(),
{
    let ghost ok = |b: bool| b;
    let mut good: usize = 0;
    let mut bad: usize = 0;
    let mut i: usize = 0;
    while i < outcomes.len()
        invariant
            i <= outcomes@.len(),
            ok == (|b: bool| b),
            good == outcomes@.subrange(0, i as int).filter(ok).len(),
            good + bad == i,
        decreases outcomes@.len() - i,
    {
        proof {
            assert(outcomes@.subrange(0, i + 1) =~= outcomes@.subrange(0, i as int).push(
                outcomes@[i as int],
            ));
            outcomes@.subrange(0, i as int).lemma_filter_push(outcomes@[i as int], ok);
        }
        if outcomes[i] {
            good = good + 1;
        } else {
            bad = bad + 1;
        }
        i = i + 1;
    }
    assert(outcomes@.subrange(0, i as int) =~= outcomes@);
    (good, bad)
}

/// Splitting `n` items into chunks of `k` makes `n / k` rounded up chunks,
/// each non-empty and at most `k` long, laid end to end from the first item to
/// the last; together they hold exactly `n` results, whatever each outcome is.
pub proof fn lemma_chunks_partition(n: nat, k: nat)
    requires
        k > 0,
    ensures
        forall|c: nat|
            c < chunk_total(n, k) ==> chunk_start(c, k) < #[trigger] chunk_end(c, n, k)
                <= chunk_start(c, k) + k,
        forall|c: nat|
            c + 1 < chunk_total(n, k) ==> #[trigger] chunk_end(c, n, k) == chunk_start(
                c + 1,
                k,
            ),
        chunks_covered(chunk_total(n, k), n, k) == n,
{
    let total = chunk_total(n, k);
    assert forall|c: nat| c < chunk_total(n, k) implies chunk_start(c, k) < #[trigger] chunk_end(
        c,
        n,
        k,
    ) <= chunk_start(c, k) + k by {
        assert(c * k < n) by (nonlinear_arith)
            requires
                c < (n + k - 1) / (k as int),
                k > 0,
        ;
        assert((c + 1) * k == c * k + k) by (nonlinear_arith);
    }
    assert forall|c: nat| c + 1 < chunk_total(n, k) implies #[trigger] chunk_end(c, n, k)
        == chunk_start(c + 1, k) by {
        assert((c + 1) * k < n) by (nonlinear_arith)
            requires
                c + 1 < (n + k - 1) / (k as int),
                k > 0,
        ;
    }
    if total > 0 {
        assert(((total - 1) as nat) * k < n) by (nonlinear_arith)
            requires
                (total - 1) < (n + k - 1) / (k as int),
                total > 0,
                k > 0,
        ;
    }
    lemma_covered_prefix(total, n, k);
    assert(total * k >= n) by (nonlinear_arith)
        requires
            total == (n + k - 1) / (k as int),
            k > 0,
    ;
}

/// The first `c` chunks cover the items before `c * k`, or all of them.
proof fn lemma_covered_prefix(c: nat, n: nat, k: nat)
    requires
        k > 0,
        c == 0 || (c - 1) * k < n,
    ensures
        chunks_covered(c, n, k) == if c * k <= n {
            c * k
        } else {
            n
        },
    decreases c,
{
    if c > 0 {
        let p = (c - 1) as nat;
        assert(p == 0 || (p - 1) * k < n) by (nonlinear_arith)
            requires
                p == c - 1,
                p * k < n,
                k > 0,
        ;
        lemma_covered_prefix(p, n, k);
        assert(c * k == p * k + k) by (nonlinear_arith)
            requires
                p == c - 1,
        ;
        assert(p * k <= c * k) by (nonlinear_arith)
            requires
                p == c - 1,
                k > 0,
        ;
    }
}

/// The labels handed out by `c` ticks of a counter that stood at `start`.
pub open spec fn tick_labels(start: nat, c: nat) -> Seq<nat>
    decreases c,
{
    if c == 0 {
        Seq::empty()
    } else {
        seq![start + 1] + tick_labels(start + 1, (c - 1) as nat)
    }
}

/// The count of completed units in a pass, from which progress labels are taken.
pub struct ProgressCounter {
    pub completed: u32,
}

impl ProgressCounter {
    /// A counter at zero.
    pub fn new() -> (r: ProgressCounter)
        ensures
            r.completed == 0,
    {
        ProgressCounter { completed: 0 }
    }

    /// Records one completed unit and returns its label, counting from one.
    pub fn tick(&mut self) -> (label: u32)
        requires
            old(self).completed < u32::MAX,
        ensures
            label == old(self).completed + 1,
            final(self).completed == label,
    {
        self.completed = self.completed + 1;
        self.completed
    }
}

/// `c` ticks from `start` hand out `start + 1`, ..., `start + c`: consecutive,
/// with no label repeated and none skipped, so the counter ends at `start + c`.
pub proof fn lemma_tick_labels(start: nat, c: nat)
    ensures
        tick_labels(start, c).len() == c,
        forall|i: int| 0 <= i < c ==> #[trigger] tick_labels(start, c)[i] == start + i + 1,
        tick_labels(start, c).no_duplicates(),
        tick_labels(start, c).to_set() == Set::new(|k: nat| start < k <= start + c),
    decreases c,
{
    if c > 0 {
        lemma_tick_labels(start + 1, (c - 1) as nat);
        let s = tick_labels(start, c);
        assert forall|i: int| 0 <= i < c implies #[trigger] s[i] == start + i + 1 by {
            if i > 0 {
                assert(s[i] == tick_labels(start + 1, (c - 1) as nat)[i - 1]);
            }
        }
    }
    let s = tick_labels(start, c);
    assert forall|k: nat| s.to_set().contains(k) <==> start < k <= start + c by {
        if start < k <= start + c {
            assert(s[k - start - 1] == k);
        }
    }
    assert(s.to_set() =~= Set::new(|k: nat| start < k <= start + c));
}

} // verus!
