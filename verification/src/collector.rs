//! Collection of one metrics snapshot: the scripted collector used in place
//! of the system, the memory guard, and the network counter bookkeeping that
//! rates are computed from.

use vstd::prelude::*;

use std::collections::VecDeque;

use crate::clock::unix_secs_now;
use crate::domain::AppError;
use crate::order::reversed;

verus! {

/// Current wall-clock time as Unix epoch seconds (0 before the epoch).
pub fn now_epoch_secs() -> i64 {
    unix_secs_now()
}

/// Whether `e` is a collection error reading `msg`.
pub open spec fn is_collect_error(e: AppError, msg: Seq<char>) -> bool {
    match e {
        AppError::Collect(m) => m@ == msg,
        _ => false,
    }
}

/// The message of a collector whose script has run out.
pub open spec fn exhausted_text() -> Seq<char> {
    "FakeCollector sequence exhausted"@
}

/// A scripted collector: each `collect` hands out the next preset result, in
/// order; once the script is exhausted every call is a collection error.
pub struct FakeCollector<S> {
    sequence: VecDeque<Result<S, AppError>>,
}

impl<S> View for FakeCollector<S> {
    type V = Seq<Result<S, AppError>>;

    closed spec fn view(&self) -> Seq<Result<S, AppError>> {
        self.sequence@
    }
}

impl<S> FakeCollector<S> {
    /// A collector that will return `items` in order, one per call.
    pub fn new(items: Vec<Result<S, AppError>>) -> (r: FakeCollector<S>)
        ensures
            r@ == items@,
    {
        let ghost all = items@;
        let mut sequence: VecDeque<Result<S, AppError>> = VecDeque::new();
        let n = items.len();
        let mut rev = reversed(items);
        while rev.len() > 0
            invariant
                sequence@.len() + rev@.len() == n,
                n == all.len(),
                forall|k: int| 0 <= k < rev@.len() ==> #[trigger] rev@[k] == all[n - 1 - k],
                sequence@ == all.take(sequence@.len() as int),
            decreases rev@.len(),
        {
            let x = rev.pop().unwrap();
            sequence.push_back(x);
            assert(sequence@ =~= all.take(sequence@.len() as int));
        }
        assert(all.take(n as int) =~= all);
        FakeCollector { sequence }
    }

    /// A collector that will return each of `samples`, successfully, in order.
    pub fn from_samples(samples: Vec<S>) -> (r: FakeCollector<S>)
        ensures
            r@.len() == samples@.len(),
            forall|k: int| 0 <= k < samples@.len() ==> #[trigger] r@[k] == Ok::<S, AppError>(samples@[k]),
    {
        let ghost all = samples@;
        let n = samples.len();
        let mut rev = reversed(samples);
        let mut items: Vec<Result<S, AppError>> = Vec::new();
        while rev.len() > 0
            invariant
                items@.len() + rev@.len() == n,
                n == all.len(),
                forall|k: int| 0 <= k < rev@.len() ==> #[trigger] rev@[k] == all[n - 1 - k],
                forall|k: int| 0 <= k < items@.len() ==> #[trigger] items@[k] == Ok::<S, AppError>(all[k]),
            decreases rev@.len(),
        {
            let x = rev.pop().unwrap();
            items.push(Ok(x));
        }
        FakeCollector::new(items)
    }

    /// The number of scripted results still to be returned.
    pub fn remaining(&self) -> (n: usize)
        ensures
            n == self@.len(),
    {
        self.sequence.len()
    }

    /// The next scripted result; once the script is exhausted, a collection
    /// error and no change.
    pub fn collect(&mut self) -> (r: Result<S, AppError>)
        ensures
            old(self)@.len() > 0 ==> r == old(self)@[0] && final(self)@ == old(self)@.drop_first(),
            old(self)@.len() == 0 ==> final(self)@ == old(self)@ && (r matches Err(e) && is_collect_error(e, exhausted_text())),
    {
        match self.sequence.pop_front() {
            Some(result) => {
                assert(self.sequence@ =~= old(self)@.drop_first());
                result
            },
            None => Err(AppError::Collect("FakeCollector sequence exhausted".to_owned())),
        }
    }
}

/// The message of a host that reports no memory.
pub open spec fn zero_memory_text() -> Seq<char> {
    "sysinfo reported zero total memory"@
}

/// A snapshot is refused when the host reports zero total memory.
pub fn check_memory(total_bytes: u64) -> (r: Result<(), AppError>)
    ensures
        total_bytes == 0 ==> (r matches Err(e) && is_collect_error(e, zero_memory_text())),
        total_bytes != 0 ==> r is Ok,
{
    if total_bytes == 0 {
        Err(AppError::Collect("sysinfo reported zero total memory".to_owned()))
    } else {
        Ok(())
    }
}

/// The sum of the received (`first`) or transmitted (`!first`) byte counters
/// of all interfaces, saturating at `u64::MAX`.
pub open spec fn counter_total(ifaces: Seq<(u64, u64)>, first: bool) -> u64
    decreases ifaces.len(),
{
    if ifaces.len() == 0 {
        0
    } else {
        let rest = counter_total(ifaces.drop_last(), first);
        let v = if first {
            ifaces.last().0
        } else {
            ifaces.last().1
        };
        if rest + v > u64::MAX {
            u64::MAX
        } else {
            (rest + v) as u64
        }
    }
}

/// The cumulative `(received, transmitted)` bytes over all interfaces, each
/// given as its `(received, transmitted)` counters; sums saturate.
pub fn sum_network_totals(ifaces: &Vec<(u64, u64)>) -> (r: (u64, u64))
    ensures
        r.0 == counter_total(ifaces@, true),
        r.1 == counter_total(ifaces@, false),
{
    let mut rx: u64 = 0;
    let mut tx: u64 = 0;
    let mut i: usize = 0;
    while i < ifaces.len()
        invariant
            i <= ifaces@.len(),
            rx == counter_total(ifaces@.take(i as int), true),
            tx == counter_total(ifaces@.take(i as int), false),
        decreases ifaces@.len() - i,
    {
        assert(ifaces@.take(i + 1).drop_last() =~= ifaces@.take(i as int));
        let (r, t) = ifaces[i];
        rx = rx.saturating_add(r);
        tx = tx.saturating_add(t);
        i += 1;
    }
    assert(ifaces@.take(ifaces@.len() as int) =~= ifaces@);
    (rx, tx)
}

/// Cumulative network byte counters and the time they were read at.
#[derive(Debug, Clone, Copy, PartialEq, Eq, Structural)]
pub struct NetworkTotals {
    pub rx_bytes: u64,
    pub tx_bytes: u64,
    /// Unix epoch seconds.
    pub timestamp: i64,
}

/// The previous network reading, kept between snapshots so that rates can
/// be computed as deltas.
pub struct NetworkCounters {
    prev: Option<NetworkTotals>,
}

impl View for NetworkCounters {
    type V = Option<NetworkTotals>;

    closed spec fn view(&self) -> Option<NetworkTotals> {
        self.prev
    }
}

impl NetworkCounters {
    /// No reading yet.
    pub fn new() -> (r: NetworkCounters)
        ensures
            r@ is None,
    {
        NetworkCounters { prev: None }
    }

    /// Record the current reading and return the previous one: `None` on the
    /// first snapshot, whose rates are zero.
    pub fn record(&mut self, now: NetworkTotals) -> (prev: Option<NetworkTotals>)
        ensures
            prev == old(self)@,
            final(self)@ == Some(now),
    {
        let prev = self.prev;
        self.prev = Some(now);
        prev
    }
}

} // verus!
