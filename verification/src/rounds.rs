//! Repeating a step until it changes nothing.
use crate::reduction::{ChangeIndicator, Reduction};
use vstd::prelude::*;

verus! {

/// The reduction with no change on record.
pub open spec fn unmarked(red: Reduction) -> Reduction {
    Reduction { changed: ChangeIndicator::Unchanged, ..red }
}

/// Whether one round of `step` leads from `start` to `end`.
pub open spec fn round_leads<'a, F: Fn(Reduction<'a>) -> Reduction<'a>>(
    step: F,
    start: Reduction<'a>,
    end: Reduction<'a>,
) -> bool {
    call_ensures(step, (unmarked(start),), end)
}

/// Whether `n` rounds of `step` lead from `start` to `end`.  Before each round the
/// record of changes is cleared; a further round follows only a change.
pub open spec fn rounds_lead<'a, F: Fn(Reduction<'a>) -> Reduction<'a>>(
    step: F,
    start: Reduction<'a>,
    end: Reduction<'a>,
    n: nat,
) -> bool
    decreases n,
{
    if n == 0 {
        start == end
    } else {
        exists|mid: Reduction<'a>|
            {
                &&& rounds_lead(step, start, mid, (n - 1) as nat)
                &&& n > 1 ==> mid.changed == ChangeIndicator::Changed
                &&& #[trigger] round_leads(step, mid, end)
            }
    }
}

impl<'a> Reduction<'a> {
    /// Runs `step` until it changes nothing, or for as many rounds as can be
    /// counted.
    pub fn while_changing<F: Fn(Reduction<'a>) -> Reduction<'a>>(self, step: F) -> (r: Reduction<'a>)
        requires
            forall|red: Reduction<'a>| call_requires(step, (red,)),
        ensures
            exists|n: nat|
                {
                    &&& 1 <= n <= u64::MAX
                    &&& #[trigger] rounds_lead(step, self, r, n)
                    &&& n < u64::MAX ==> r.changed == ChangeIndicator::Unchanged
                },
    {
        let mut red = self;
        let mut n: u64 = 0;
        assert(rounds_lead(step, self, red, 0));
        loop
            invariant
                n < u64::MAX,
                rounds_lead(step, self, red, n as nat),
                n > 0 ==> red.changed == ChangeIndicator::Changed,
                forall|red: Reduction<'a>| call_requires(step, (red,)),
            decreases u64::MAX - n,
        {
            let ghost mid = red;
            red.changed = ChangeIndicator::Unchanged;
            let ghost cleared = red;
            let next = step(red);
            n = n + 1;
            proof {
                assert(cleared == unmarked(mid));
                assert(round_leads(step, mid, next));
                assert(rounds_lead(step, self, mid, (n - 1) as nat));
            }
            red = next;
            assert(rounds_lead(step, self, red, n as nat));
            if red.changed == ChangeIndicator::Unchanged || n == u64::MAX {
                return red;
            }
        }
    }
}

} // verus!
