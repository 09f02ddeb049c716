use crate::job::{FetchRequest, RequestView};
use crate::queue::FetchQueue;
use crate::record::{ContractRecord, RecordView};
use crate::source::{Contract, ContractView, FetchError};
use crate::table::{finished, JobTable};
use crate::text::clone_opt_text;
use vstd::prelude::*;

verus! {

/// The quotient of two integers, rounded up.
pub open spec fn ceil_div(a: int, b: int) -> int {
    if a % b == 0 {
        a / b
    } else {
        a / b + 1
    }
}

/// The least number of milliseconds between two calls of the metadata source
/// at a rate of `rate_limit` calls in a second: a second divided by the rate,
/// rounded up, and one more.
pub open spec fn gap_for(rate_limit: u64) -> int {
    ceil_div(1000, rate_limit as int) + 1
}

/// Computes the gap between two calls for a rate limit.
pub fn inter_call_gap_ms(rate_limit: u64) -> (gap: u64)
    requires
        rate_limit > 0,
    ensures
        gap == gap_for(rate_limit),
        2 <= gap <= 1001,
{
    let whole: u64 = 1000 / rate_limit;
    assert(whole <= 1000) by (nonlinear_arith)
        requires
            whole == 1000int / (rate_limit as int),
            rate_limit > 0,
    ;
    if 1000 % rate_limit == 0 {
        assert(whole >= 1) by (nonlinear_arith)
            requires
                whole == 1000int / (rate_limit as int),
                1000int % (rate_limit as int) == 0,
                rate_limit > 0,
        ;
        whole + 1
    } else {
        assert(whole <= 500) by (nonlinear_arith)
            requires
                whole == 1000int / (rate_limit as int),
                rate_limit >= 2,
        ;
        whole + 2
    }
}

/// How long a call has to wait at time `now` after something that happened
/// at time `last`, where `gap` milliseconds have to pass in between.
pub open spec fn wait_after(last: Option<u64>, now: u64, gap: int) -> int {
    match last {
        None => 0,
        Some(t) => if now - t >= gap {
            0
        } else {
            t + gap - now
        },
    }
}

/// The larger of two integers.
pub open spec fn larger(a: int, b: int) -> int {
    if a >= b {
        a
    } else {
        b
    }
}

/// Each call of a log comes at least `gap` milliseconds after the one before.
pub open spec fn spaced(calls: Seq<u64>, gap: int) -> bool {
    forall|i: int| 0 <= i < calls.len() - 1 ==> calls[i + 1] - (#[trigger] calls[i]) >= gap
}

/// The state of the dispatcher.
pub struct DispatcherView {
    /// Calls in a second that the source accepts.
    pub rate_limit: u64,
    /// Whether a fetch is under way.
    pub busy: bool,
    /// When the last call was made.
    pub last_call: Option<u64>,
    /// When the last fetch ended.
    pub last_done: Option<u64>,
    /// The times of all calls made so far, in order.
    pub calls: Seq<u64>,
}

/// What the dispatcher asks of the loop that drives it.
#[derive(Debug, PartialEq, Eq)]
pub enum Action {
    /// Make this request of the source now, then report how it ended.
    Fetch(FetchRequest),
    /// Ask again after this many milliseconds.
    Wait(u64),
    /// Nothing is queued: ask again when something is.
    Idle,
    /// A fetch is under way: report how it ended first.
    Busy,
}

/// The content of an `Action`.
pub enum ActionView {
    Fetch(RequestView),
    Wait(u64),
    Idle,
    Busy,
}

impl View for Action {
    type V = ActionView;

    open spec fn view(&self) -> ActionView {
        match self {
            Action::Fetch(request) => ActionView::Fetch(request@),
            Action::Wait(ms) => ActionView::Wait(*ms),
            Action::Idle => ActionView::Idle,
            Action::Busy => ActionView::Busy,
        }
    }
}

/// How long the dispatcher has to wait at time `now` before its next call.
pub open spec fn wait_needed(d: DispatcherView, now: u64) -> int {
    larger(
        wait_after(d.last_call, now, gap_for(d.rate_limit)),
        wait_after(d.last_done, now, gap_for(d.rate_limit)),
    )
}

/// A number of milliseconds as the machine holds it.
pub open spec fn clipped(ms: int) -> u64 {
    if ms > u64::MAX {
        u64::MAX
    } else {
        ms as u64
    }
}

/// One step of the dispatcher.
pub struct Step {
    pub dispatcher: DispatcherView,
    pub queue: Seq<RequestView>,
    pub action: ActionView,
}

/// The step that the dispatcher takes at time `now`. While a fetch is under
/// way, or nothing is queued, or the gap has not passed, nothing changes.
/// Otherwise the request that has waited longest leaves the queue and is
/// called for, and the call is written to the log.
pub open spec fn next_step(d: DispatcherView, queue: Seq<RequestView>, now: u64) -> Step {
    if d.busy {
        Step { dispatcher: d, queue: queue, action: ActionView::Busy }
    } else if queue.len() == 0 {
        Step { dispatcher: d, queue: queue, action: ActionView::Idle }
    } else if wait_needed(d, now) > 0 {
        Step { dispatcher: d, queue: queue, action: ActionView::Wait(clipped(wait_needed(d, now))) }
    } else {
        Step {
            dispatcher: DispatcherView {
                rate_limit: d.rate_limit,
                busy: true,
                last_call: Some(now),
                last_done: d.last_done,
                calls: d.calls.push(now),
            },
            queue: queue.drop_first(),
            action: ActionView::Fetch(queue[0]),
        }
    }
}

/// The record that a successful fetch at time `now` gives for a chain. It
/// carries no label.
pub open spec fn record_of(chain: Seq<char>, contract: ContractView, now: u64) -> RecordView {
    RecordView {
        chain: chain,
        address: contract.addr,
        name: contract.name,
        abi: contract.abi,
        label: None,
        src: contract.src,
        updated_at: Some(now),
    }
}

/// The record that the end of a fetch gives: none after a failure.
pub open spec fn outcome_record(
    chain: Seq<char>,
    outcome: Result<Contract, FetchError>,
    now: u64,
) -> Option<RecordView> {
    match outcome {
        Ok(contract) => Some(record_of(chain, contract@, now)),
        Err(_) => None,
    }
}

/// Builds the record for a fetched contract.
pub fn record_from_contract(chain: &str, contract: &Contract, now: u64) -> (r: ContractRecord)
    ensures
        r@ == record_of(chain@, contract@, now),
{
    ContractRecord {
        chain: chain.to_owned(),
        address: contract.addr.clone(),
        name: clone_opt_text(&contract.name),
        abi: clone_opt_text(&contract.abi),
        label: None,
        src: clone_opt_text(&contract.src),
        updated_at: Some(now),
    }
}

fn wait_after_exec(last: Option<u64>, now: u64, gap: u64) -> (r: u64)
    ensures
        r == clipped(wait_after(last, now, gap as int)),
{
    match last {
        None => 0,
        Some(t) => {
            if now >= t {
                let elapsed: u64 = now - t;
                if elapsed >= gap {
                    0
                } else {
                    gap - elapsed
                }
            } else {
                let ahead: u64 = t - now;
                if ahead > u64::MAX - gap {
                    u64::MAX
                } else {
                    ahead + gap
                }
            }
        },
    }
}

/// The single worker that calls the metadata source: it takes requests from
/// the queue one at a time and keeps the gap between two calls.
pub struct Dispatcher {
    rate_limit: u64,
    gap: u64,
    busy: bool,
    last_call: Option<u64>,
    last_done: Option<u64>,
    calls: Ghost<Seq<u64>>,
}

impl View for Dispatcher {
    type V = DispatcherView;

    closed spec fn view(&self) -> DispatcherView {
        DispatcherView {
            rate_limit: self.rate_limit,
            busy: self.busy,
            last_call: self.last_call,
            last_done: self.last_done,
            calls: self.calls@,
        }
    }
}

/// The log of a dispatcher fits its state: the calls are spaced by the gap of
/// its rate limit, and the last of them is the last call.
pub open spec fn consistent(d: DispatcherView) -> bool {
    &&& d.rate_limit > 0
    &&& spaced(d.calls, gap_for(d.rate_limit))
    &&& d.last_call == if d.calls.len() == 0 {
        None::<u64>
    } else {
        Some(d.calls.last())
    }
}

impl Dispatcher {
    /// The dispatcher's state is consistent.
    pub closed spec fn wf(&self) -> bool {
        &&& consistent(self@)
        &&& self.gap == gap_for(self.rate_limit)
    }

    /// A dispatcher that has made no call yet.
    pub fn new(rate_limit: u64) -> (d: Self)
        requires
            rate_limit > 0,
        ensures
            d.wf(),
            d@ == (DispatcherView {
                rate_limit: rate_limit,
                busy: false,
                last_call: None,
                last_done: None,
                calls: Seq::empty(),
            }),
    {
        Dispatcher {
            rate_limit: rate_limit,
            gap: inter_call_gap_ms(rate_limit),
            busy: false,
            last_call: None,
            last_done: None,
            calls: Ghost(Seq::empty()),
        }
    }

    /// The rate limit that this dispatcher keeps.
    pub fn rate_limit(&self) -> (rate: u64)
        ensures
            rate == self@.rate_limit,
    {
        self.rate_limit
    }

    /// Tells whether a fetch is under way.
    pub fn is_busy(&self) -> (busy: bool)
        ensures
            busy == self@.busy,
    {
        self.busy
    }

    /// The gap in milliseconds that this dispatcher keeps between two calls.
    pub fn gap_ms(&self) -> (gap: u64)
        requires
            self.wf(),
        ensures
            gap == gap_for(self@.rate_limit),
    {
        self.gap
    }

    /// Decides at time `now` what is to be done next.
    pub fn next(&mut self, queue: &mut FetchQueue, now: u64) -> (action: Action)
        requires
            old(self).wf(),
        ensures
            final(self).wf(),
            final(queue).accepting() == old(queue).accepting(),
            (Step { dispatcher: final(self)@, queue: final(queue)@, action: action@ })
                == next_step(old(self)@, old(queue)@, now),
    {
        if self.busy {
            return Action::Busy;
        }
        if queue.len() == 0 {
            return Action::Idle;
        }
        let after_call = wait_after_exec(self.last_call, now, self.gap);
        let after_done = wait_after_exec(self.last_done, now, self.gap);
        let wait: u64 = if after_call >= after_done {
            after_call
        } else {
            after_done
        };
        if wait > 0 {
            return Action::Wait(wait);
        }
        let ghost log = self.calls@;
        match queue.dequeue() {
            Some(request) => {
                self.busy = true;
                self.last_call = Some(now);
                self.calls = Ghost(log.push(now));
                proof {
                    assert forall|i: int| 0 <= i < log.push(now).len() - 1 implies log.push(now)[i + 1]
                        - (#[trigger] log.push(now)[i]) >= gap_for(self.rate_limit) by {
                        if i < log.len() - 1 {
                            assert(log[i + 1] - log[i] >= gap_for(self.rate_limit));
                        }
                    }
                }
                Action::Fetch(request)
            },
            None => Action::Idle,
        }
    }

    /// Takes note at time `now` that the fetch for `request` has ended. The
    /// job of the request, where the table holds it and it is pending, turns
    /// complete and takes the fetched record, or none after a failure.
    /// Returns the record that is to be written to the store.
    pub fn finish(
        &mut self,
        table: &mut JobTable,
        request: &FetchRequest,
        outcome: Result<Contract, FetchError>,
        now: u64,
    ) -> (record: Option<ContractRecord>)
        requires
            old(self).wf(),
            old(table).wf(),
        ensures
            final(self).wf(),
            final(table).wf(),
            final(self)@ == (DispatcherView {
                rate_limit: old(self)@.rate_limit,
                busy: false,
                last_call: old(self)@.last_call,
                last_done: Some(now),
                calls: old(self)@.calls,
            }),
            crate::job::opt_record(record) == outcome_record(request.chain@, outcome, now),
            final(table)@ == finished(
                old(table)@,
                request.job_id@,
                outcome_record(request.chain@, outcome, now),
            ),
    {
        self.busy = false;
        self.last_done = Some(now);
        let record = match outcome {
            Ok(contract) => Some(record_from_contract(request.chain.as_str(), &contract, now)),
            Err(_) => None,
        };
        let copy = crate::job::clone_opt_record(&record);
        table.complete(request.job_id.as_str(), copy);
        record
    }
}

/// No call is made inside the gap: while less than the gap has passed since
/// the last call was made, or since the last fetch ended, however it ended,
/// the step at time `now` calls for nothing and takes nothing from the queue.
pub proof fn lemma_no_call_inside_the_gap(d: DispatcherView, queue: Seq<RequestView>, now: u64, last: u64)
    requires
        d.last_call == Some(last) || d.last_done == Some(last),
        now - last < gap_for(d.rate_limit),
    ensures
        !(next_step(d, queue, now).action is Fetch),
        next_step(d, queue, now).queue == queue,
        next_step(d, queue, now).dispatcher == d,
{
}

/// The number of calls of a log that fall between two times, both included.
pub open spec fn calls_within(calls: Seq<u64>, from: int, to: int) -> nat
    decreases calls.len(),
{
    if calls.len() == 0 {
        0
    } else {
        let before = calls_within(calls.drop_last(), from, to);
        if from <= calls.last() <= to {
            before + 1
        } else {
            before
        }
    }
}

/// In a spaced log a later call comes after an earlier one by at least as
/// many gaps as there are calls from the one to the other.
pub proof fn lemma_spaced_distance(calls: Seq<u64>, gap: int, i: int, j: int)
    requires
        spaced(calls, gap),
        0 <= i <= j < calls.len(),
    ensures
        calls[j] - calls[i] >= (j - i) * gap,
    decreases j - i,
{
    if i < j {
        lemma_spaced_distance(calls, gap, i, j - 1);
        assert(calls[j - 1 + 1] - calls[j - 1] >= gap);
        assert((j - i) * gap == (j - 1 - i) * gap + gap) by (nonlinear_arith);
    } else {
        assert((j - i) * gap == 0) by (nonlinear_arith)
            requires
                i == j,
        ;
    }
}

/// As many gaps as the rate allows calls take more than a second.
pub proof fn lemma_gaps_exceed_second(rate_limit: u64)
    requires
        rate_limit > 0,
    ensures
        rate_limit * gap_for(rate_limit) > 1000,
{
    let r = rate_limit as int;
    let q = 1000int / r;
    let m = 1000int % r;
    assert(1000 == r * q + m && 0 <= m < r) by (nonlinear_arith)
        requires
            q == 1000int / r,
            m == 1000int % r,
            r > 0,
    ;
    if m == 0 {
        assert(r * (q + 1) > 1000) by (nonlinear_arith)
            requires
                1000 == r * q,
                r > 0,
        ;
    } else {
        assert(r * (q + 2) > 1000) by (nonlinear_arith)
            requires
                1000 == r * q + m,
                m < r,
                r > 0,
        ;
    }
}

proof fn lemma_window_span(calls: Seq<u64>, gap: int, from: int, to: int)
    requires
        spaced(calls, gap),
    ensures
        calls_within(calls, from, to) == 0 || exists|a: int, b: int|
            0 <= a <= b < calls.len() && from <= #[trigger] calls[a] && #[trigger] calls[b] <= to
                && calls_within(calls, from, to) <= b - a + 1,
    decreases calls.len(),
{
    if calls.len() > 0 {
        let front = calls.drop_last();
        let n = front.len() as int;
        assert(spaced(front, gap)) by {
            assert forall|i: int| 0 <= i < front.len() - 1 implies front[i + 1] - (#[trigger] front[i])
                >= gap by {
                assert(calls[i + 1] - calls[i] >= gap);
            }
        }
        lemma_window_span(front, gap, from, to);
        let before = calls_within(front, from, to);
        if from <= calls.last() <= to {
            if before == 0 {
                assert(from <= calls[n] && calls[n] <= to);
            } else {
                let (a, b) = choose|a: int, b: int|
                    0 <= a <= b < front.len() && from <= #[trigger] front[a] && #[trigger] front[b]
                        <= to && before <= b - a + 1;
                assert(calls[a] == front[a]);
                assert(from <= calls[a] && calls[n] <= to);
            }
        } else {
            if before != 0 {
                let (a, b) = choose|a: int, b: int|
                    0 <= a <= b < front.len() && from <= #[trigger] front[a] && #[trigger] front[b]
                        <= to && before <= b - a + 1;
                assert(calls[a] == front[a]);
                assert(calls[b] == front[b]);
                assert(from <= calls[a] && calls[b] <= to);
            }
        }
    }
}

/// A log that keeps the gap of a rate limit holds, in any stretch of one
/// second, no more calls than the rate limit.
pub proof fn lemma_rate_bound(calls: Seq<u64>, rate_limit: u64, start: int)
    requires
        rate_limit > 0,
        spaced(calls, gap_for(rate_limit)),
    ensures
        calls_within(calls, start, start + 1000) <= rate_limit,
{
    let gap = gap_for(rate_limit);
    let count = calls_within(calls, start, start + 1000);
    lemma_window_span(calls, gap, start, start + 1000);
    if count != 0 {
        let (a, b) = choose|a: int, b: int|
            0 <= a <= b < calls.len() && start <= #[trigger] calls[a] && #[trigger] calls[b] <= start
                + 1000 && count <= b - a + 1;
        if b - a >= rate_limit {
            lemma_spaced_distance(calls, gap, a, b);
            lemma_gaps_exceed_second(rate_limit);
            assert((b - a) * gap >= rate_limit * gap) by (nonlinear_arith)
                requires
                    b - a >= rate_limit,
                    gap >= 0,
            ;
        }
    }
}

impl Dispatcher {
    /// Over any stretch of one second the dispatcher has called the source no
    /// more often than its rate limit allows.
    pub proof fn lemma_calls_keep_rate(&self, start: int)
        requires
            self.wf(),
        ensures
            calls_within(self@.calls, start, start + 1000) <= self@.rate_limit,
    {
        lemma_rate_bound(self@.calls, self@.rate_limit, start);
    }
}

} // verus!
