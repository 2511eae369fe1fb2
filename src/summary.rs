//! Counts and byte totals over a vault.

use vstd::prelude::*;

use crate::segment::Pad;
use crate::vault::{pads_valid, VaultState};

verus! {

/// Number of pads not marked fully used.
pub open spec fn count_available(pads: Seq<Pad>) -> int
    decreases pads.len(),
{
    if pads.len() == 0 {
        0
    } else {
        count_available(pads.drop_last()) + if pads.last().is_fully_used {
            0int
        } else {
            1int
        }
    }
}

/// Sum of the pad sizes.
pub open spec fn sum_sizes(pads: Seq<Pad>) -> int
    decreases pads.len(),
{
    if pads.len() == 0 {
        0
    } else {
        sum_sizes(pads.drop_last()) + pads.last().size
    }
}

/// Sum of the consumed bytes of the pads.
pub open spec fn sum_used(pads: Seq<Pad>) -> int
    decreases pads.len(),
{
    if pads.len() == 0 {
        0
    } else {
        sum_used(pads.drop_last()) + pads.last().used_total()
    }
}

/// Counts and byte totals over all pads of a vault.
#[derive(Debug, Clone, Copy, PartialEq, Eq)]
pub struct VaultSummary {
    pub total_pads: usize,
    pub available_pads: usize,
    pub fully_used_pads: usize,
    pub total_storage_bytes: u128,
    pub total_used_bytes: u128,
    pub remaining_bytes: u128,
}

proof fn lemma_sums_bounded(pads: Seq<Pad>)
    requires
        pads_valid(pads),
    ensures
        0 <= sum_used(pads) <= sum_sizes(pads) <= pads.len() * 0xffff_ffff_ffff_ffff,
        0 <= count_available(pads) <= pads.len(),
    decreases pads.len(),
{
    if pads.len() > 0 {
        let d = pads.drop_last();
        assert forall|i: int, j: int| 0 <= i < j < d.len() implies (#[trigger] d[i]).id@ != (
        #[trigger] d[j]).id@ by {
            assert(d[i] == pads[i] && d[j] == pads[j]);
        }
        assert forall|i: int| 0 <= i < d.len() implies (#[trigger] d[i]).wf() by {
            assert(d[i] == pads[i]);
        }
        lemma_sums_bounded(d);
        pads.last().lemma_used_bounded();
        let n = d.len() as int;
        assert(n * 0xffff_ffff_ffff_ffff + 0xffff_ffff_ffff_ffff == (n + 1) * 0xffff_ffff_ffff_ffff)
            by (nonlinear_arith);
    }
}

impl VaultState {
    /// How many pads there are, how many are still available, and how many
    /// bytes are stored, consumed and left.
    pub fn usage_summary(&self) -> (r: VaultSummary)
        requires
            self.wf(),
        ensures
            r.total_pads == self.pads@.len(),
            r.available_pads == count_available(self.pads@),
            r.fully_used_pads == self.pads@.len() - count_available(self.pads@),
            r.total_storage_bytes == sum_sizes(self.pads@),
            r.total_used_bytes == sum_used(self.pads@),
            r.remaining_bytes == sum_sizes(self.pads@) - sum_used(self.pads@),
    {
        let n = self.pads.len();
        let mut available: usize = 0;
        let mut storage: u128 = 0;
        let mut used: u128 = 0;
        let mut i: usize = 0;
        while i < n
            invariant
                0 <= i <= n,
                n == self.pads@.len(),
                self.wf(),
                available == count_available(self.pads@.take(i as int)),
                storage == sum_sizes(self.pads@.take(i as int)),
                used == sum_used(self.pads@.take(i as int)),
            decreases n - i,
        {
            let pad = &self.pads[i];
            proof {
                let t = self.pads@.take(i + 1);
                assert(t.drop_last() =~= self.pads@.take(i as int));
                assert forall|a: int, b: int| 0 <= a < b < t.len() implies (#[trigger] t[a]).id@
                    != (#[trigger] t[b]).id@ by {
                    assert(t[a] == self.pads@[a] && t[b] == self.pads@[b]);
                }
                assert forall|a: int| 0 <= a < t.len() implies (#[trigger] t[a]).wf() by {
                    assert(t[a] == self.pads@[a]);
                }
                lemma_sums_bounded(t);
                assert((i + 1) * 0xffff_ffff_ffff_ffff <= 0xffff_ffff_ffff_ffff_ffff_ffff_ffff_ffff)
                    by (nonlinear_arith)
                    requires
                        i < 0x1_0000_0000_0000_0000,
                ;
            }
            if !pad.is_fully_used {
                available = available + 1;
            }
            storage = storage + pad.size as u128;
            used = used + pad.total_used_bytes() as u128;
            i += 1;
        }
        proof {
            assert(self.pads@.take(n as int) =~= self.pads@);
            lemma_sums_bounded(self.pads@);
        }
        VaultSummary {
            total_pads: n,
            available_pads: available,
            fully_used_pads: n - available,
            total_storage_bytes: storage,
            total_used_bytes: used,
            remaining_bytes: storage - used,
        }
    }
}

} // verus!
