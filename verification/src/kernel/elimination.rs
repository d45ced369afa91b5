//! Audit verdicts and how one audit round applies them to the process table:
//! kept processes lose their strikes, warned ones gain one, and the ones to
//! freeze are frozen once the whole table has been judged.

use vstd::prelude::*;
use crate::kernel::process::{find_index, is_active, Process, ProcState};

verus! {

/// The verdict of an audit on one process.
#[derive(Debug, Clone, Copy, PartialEq, Eq, Structural)]
pub enum EliminationAction {
    /// Quality is fine: strikes are cleared.
    Keep,
    /// Quality is low: one more strike.
    Warn,
    /// Quality stayed low: the process is frozen.
    Freeze,
}

/// Consecutive failed audits after which a low-quality process is frozen.
pub const MAX_STRIKES: u8 = 3;

/// The verdict on one audited process: keep it where its quality meets the
/// threshold; below it, warn while it has fewer than `MAX_STRIKES` strikes,
/// then freeze.
pub fn strike_verdict(meets_threshold: bool, strikes: u8) -> (r: EliminationAction)
    ensures
        r == if meets_threshold {
            EliminationAction::Keep
        } else if strikes < MAX_STRIKES {
            EliminationAction::Warn
        } else {
            EliminationAction::Freeze
        },
{
    if meets_threshold {
        EliminationAction::Keep
    } else if strikes < MAX_STRIKES {
        EliminationAction::Warn
    } else {
        EliminationAction::Freeze
    }
}

/// The first pass: each live process in slot `i` takes verdict `v[i]`
/// (strikes cleared on `Keep`, one more on `Warn`, unchanged on `Freeze`).
pub open spec fn judged(s: Seq<Process>, v: Seq<EliminationAction>) -> Seq<Process> {
    Seq::new(s.len(), |i: int|
        if is_active(s[i]) && v[i] == EliminationAction::Keep {
            Process { audit_strikes: 0, ..s[i] }
        } else if is_active(s[i]) && v[i] == EliminationAction::Warn {
            Process { audit_strikes: (s[i].audit_strikes + 1) as u8, ..s[i] }
        } else {
            s[i]
        })
}

/// The pids of the live processes with verdict `Freeze` among slots `0..n`,
/// in slot order.
pub open spec fn freeze_list(s: Seq<Process>, v: Seq<EliminationAction>, n: int) -> Seq<u16>
    decreases n,
{
    if n <= 0 {
        Seq::empty()
    } else if is_active(s[n - 1]) && v[n - 1] == EliminationAction::Freeze {
        freeze_list(s, v, n - 1).push(s[n - 1].pid)
    } else {
        freeze_list(s, v, n - 1)
    }
}

/// The second pass: for each pid in turn, the first live process with it is
/// frozen and its strikes cleared.
pub open spec fn frozen_all(s: Seq<Process>, pids: Seq<u16>) -> Seq<Process>
    decreases pids.len(),
{
    if pids.len() == 0 {
        s
    } else {
        let t = frozen_all(s, pids.drop_last());
        match find_index(t, pids.last()) {
            Some(k) => t.update(k, Process { state: ProcState::Frozen, audit_strikes: 0, ..t[k] }),
            None => t,
        }
    }
}

/// No live process with verdict `Warn` has 255 strikes already.
pub open spec fn strikes_fit(s: Seq<Process>, v: Seq<EliminationAction>) -> bool {
    forall|i: int| 0 <= i < s.len() && is_active(s[i]) && v[i] == EliminationAction::Warn
        ==> #[trigger] s[i].audit_strikes < 255
}

} // verus!
