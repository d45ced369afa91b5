//! The periodic scheduler report on the serial console: when a report is
//! due, the short names of the slots, and the three slots with the largest
//! quotas.

use vstd::prelude::*;

verus! {

/// Ticks between two reports.
pub const REPORT_INTERVAL: u64 = 500;

/// A report is due once `REPORT_INTERVAL` ticks have passed since the last one.
pub fn report_due(tick: u64, last_report: u64) -> (r: bool)
    requires
        last_report <= tick,
    ensures
        r == (tick - last_report >= REPORT_INTERVAL),
{
    tick - last_report >= REPORT_INTERVAL
}

/// The short name of each slot's device.
pub open spec fn spec_slot_name(i: usize) -> Seq<char> {
    if i == 0 {
        "CPU"@
    } else if i == 1 {
        "CBN"@
    } else if i == 2 {
        "NPU"@
    } else if i == 3 {
        "QPU"@
    } else if i == 4 {
        "STO"@
    } else if i == 5 {
        "NET"@
    } else if i == 6 {
        "GPU"@
    } else {
        "SIO"@
    }
}

/// The short name of the device of slot `i` (0 to 7).
pub fn slot_name(i: usize) -> (r: &'static str)
    requires
        i < 8,
    ensures
        r@ == spec_slot_name(i),
{
    if i == 0 {
        "CPU"
    } else if i == 1 {
        "CBN"
    } else if i == 2 {
        "NPU"
    } else if i == 3 {
        "QPU"
    } else if i == 4 {
        "STO"
    } else if i == 5 {
        "NET"
    } else if i == 6 {
        "GPU"
    } else {
        "SIO"
    }
}

/// Slot `i` is held by one of the non-empty entries of `t`.
pub open spec fn chosen(t: Seq<(usize, u64)>, i: int) -> bool {
    exists|k: int| 0 <= k < 3 && t[k].1 > 0 && t[k].0 == i
}

/// `t` is the top three of the first `n` quotas of `q`: the slots with the
/// largest positive quotas, largest first, an earlier slot before a later one
/// with the same quota, as `(slot, quota)`; `(0, 0)` fills the places left
/// where fewer than three quotas are positive.
pub open spec fn is_top3(q: Seq<u64>, n: int, t: Seq<(usize, u64)>) -> bool {
    &&& t.len() == 3
    &&& t[0].1 >= t[1].1 >= t[2].1
    &&& forall|k: int| 0 <= k < 3 && #[trigger] t[k].1 > 0 ==> t[k].0 < n && q[t[k].0 as int] == t[k].1
    &&& forall|k: int| 0 <= k < 3 && #[trigger] t[k].1 == 0 ==> t[k].0 == 0
    &&& forall|k: int, l: int| 0 <= k < l < 3 && t[l].1 > 0 && #[trigger] t[k].1 == #[trigger] t[l].1 ==> t[k].0 < t[l].0
    &&& forall|i: int| 0 <= i < n && !chosen(t, i) ==> #[trigger] q[i] <= t[2].1
    &&& forall|i: int| 0 <= i < n && !chosen(t, i) && #[trigger] q[i] == t[2].1 && q[i] > 0 ==> i > t[2].0
}

/// The three slots with the largest quotas, largest first (see `is_top3`).
pub fn top_quota_slots(quotas: &[u64; 8]) -> (r: [(usize, u64); 3])
    ensures
        is_top3(quotas@, 8, r@),
{
    let mut top: [(usize, u64); 3] = [(0, 0), (0, 0), (0, 0)];
    let mut i: usize = 0;
    while i < 8
        invariant
            i <= 8,
            is_top3(quotas@, i as int, top@),
        decreases 8 - i,
    {
        let q = quotas[i];
        let ghost t = top@;
        if q > top[0].1 {
            top[2] = top[1];
            top[1] = top[0];
            top[0] = (i, q);
        } else if q > top[1].1 {
            top[2] = top[1];
            top[1] = (i, q);
        } else if q > top[2].1 {
            top[2] = (i, q);
        }
        proof {
            let t2 = top@;
            assert forall|j: int| 0 <= j < i && chosen(t, j) && !chosen(t2, j) implies
                #[trigger] quotas@[j] <= t2[2].1 && (quotas@[j] == t2[2].1 ==> j > t2[2].0) by {
                let k = choose|k: int| 0 <= k < 3 && t[k].1 > 0 && t[k].0 == j;
                if q > t[0].1 {
                    if k < 2 {
                        assert(t2[k + 1].1 > 0 && t2[k + 1].0 == j);
                    }
                } else if q > t[1].1 {
                    if k == 0 {
                        assert(t2[0].1 > 0 && t2[0].0 == j);
                    } else if k == 1 {
                        assert(t2[2].1 > 0 && t2[2].0 == j);
                    }
                } else if q > t[2].1 {
                    if k < 2 {
                        assert(t2[k].1 > 0 && t2[k].0 == j);
                    }
                } else {
                    assert(t2[k].1 > 0 && t2[k].0 == j);
                }
            }
            assert forall|j: int| 0 <= j < i && !chosen(t, j) && !chosen(t2, j) implies
                #[trigger] quotas@[j] <= t2[2].1 && (quotas@[j] == t2[2].1 && quotas@[j] > 0 ==> j > t2[2].0) by {
            }
            assert(!chosen(t2, i as int) ==> q <= t2[2].1 && (q == t2[2].1 && q > 0 ==> i > t2[2].0)) by {
                if !chosen(t2, i as int) {
                    if q > t[0].1 {
                        assert(t2[0].1 > 0 && t2[0].0 == i);
                    } else if q > t[1].1 {
                        assert(t2[1].1 > 0 && t2[1].0 == i);
                    } else if q > t[2].1 {
                        assert(t2[2].1 > 0 && t2[2].0 == i);
                    }
                }
            }
        }
        i = i + 1;
    }
    top
}

} // verus!
