//! Trials of one operation: how each attempt ends, and how a run of
//! attempts becomes a [`BenchResult`].
use crate::result::{opt_text, BenchResult, Status};
use crate::stats::{lemma_max_bounds, max_of, stats};
use vstd::prelude::*;

verus! {

/// How one attempt at running an operation under supervision ended.
#[derive(Debug)]
pub enum Execution {
    /// The operation returned, with success or with its own failure message.
    Finished(Result<(), String>),
    /// The operation aborted; the abort payload, where it was a string.
    Aborted(Option<String>),
    /// The operation did not finish in time and was abandoned.
    TimedOut,
}

/// The characters of a trial outcome.
pub open spec fn outcome_text(r: Result<(), String>) -> Result<(), Seq<char>> {
    match r {
        Ok(()) => Ok(()),
        Err(e) => Err(e@),
    }
}

/// The uniform outcome of an attempt: the operation's own outcome when it
/// finished, `"panic: "` followed by the payload (or `"unknown panic"`) when
/// it aborted, and `"timeout"` when it ran out of time.
pub open spec fn settled(e: Execution) -> Result<(), Seq<char>> {
    match e {
        Execution::Finished(r) => outcome_text(r),
        Execution::Aborted(Some(m)) => Err("panic: "@ + m@),
        Execution::Aborted(None) => Err("panic: "@ + "unknown panic"@),
        Execution::TimedOut => Err("timeout"@),
    }
}

/// Turns the way an attempt ended into a success or a failure message.
pub fn settle(e: Execution) -> (r: Result<(), String>)
    ensures
        outcome_text(r) == settled(e),
{
    match e {
        Execution::Finished(r) => r,
        Execution::Aborted(Some(m)) => Err(String::from_str("panic: ").concat(m.as_str())),
        Execution::Aborted(None) => Err(String::from_str("panic: ").concat("unknown panic")),
        Execution::TimedOut => Err(String::from_str("timeout")),
    }
}

/// One trial as recorded: its elapsed time in nanoseconds and its outcome.
pub type TrialView = (u64, Result<(), Seq<char>>);

/// Durations of the successful trials, in order.
pub open spec fn times_of(h: Seq<TrialView>) -> Seq<u64>
    decreases h.len(),
{
    if h.len() == 0 {
        Seq::empty()
    } else {
        let t = times_of(h.drop_last());
        if h.last().1 is Ok {
            t.push(h.last().0)
        } else {
            t
        }
    }
}

/// Number of successful trials.
pub open spec fn success_count(h: Seq<TrialView>) -> nat
    decreases h.len(),
{
    if h.len() == 0 {
        0
    } else {
        success_count(h.drop_last()) + if h.last().1 is Ok {
            1nat
        } else {
            0nat
        }
    }
}

/// The message of the last failed trial, if any trial failed.
pub open spec fn last_error_of(h: Seq<TrialView>) -> Option<Seq<char>>
    decreases h.len(),
{
    if h.len() == 0 {
        None
    } else {
        match h.last().1 {
            Err(e) => Some(e),
            Ok(()) => last_error_of(h.drop_last()),
        }
    }
}

/// The timings hold one entry per successful trial, never more than trials.
pub proof fn lemma_times_count(h: Seq<TrialView>)
    ensures
        times_of(h).len() == success_count(h),
        success_count(h) <= h.len(),
        success_count(h) == 0 && h.len() > 0 ==> last_error_of(h) is Some,
    decreases h.len(),
{
    if h.len() > 0 {
        lemma_times_count(h.drop_last());
    }
}

/// Status after the trials `h`.
pub open spec fn status_of(h: Seq<TrialView>) -> Status {
    if times_of(h).len() > 0 {
        Status::Success
    } else {
        Status::Failure
    }
}

/// Error message reported after the trials `h`: the last failure, and only
/// when no trial succeeded.
pub open spec fn error_of(h: Seq<TrialView>) -> Option<Seq<char>> {
    if times_of(h).len() > 0 {
        None
    } else {
        last_error_of(h)
    }
}

/// After a full budget of `reps >= 1` trials, the timings hold exactly one
/// entry per successful trial, so at most `reps`; with none the status is
/// `Failure` and an error message is present, with some the status is
/// `Success` and no error message is present.
pub proof fn trial_accounting(h: Seq<TrialView>, reps: nat)
    requires
        reps >= 1,
        h.len() == reps,
    ensures
        times_of(h).len() == success_count(h),
        times_of(h).len() <= reps,
        times_of(h).len() == 0 ==> status_of(h) == Status::Failure && error_of(h) is Some,
        times_of(h).len() > 0 ==> status_of(h) == Status::Success && error_of(h) is None,
{
    lemma_times_count(h);
}

/// A run of one or more trials that all fail with the same message `e`
/// (every one timed out, say, or every one aborted with the same payload)
/// has no timings, status `Failure`, and `e` as its error message.
pub proof fn uniform_failure_reported(h: Seq<TrialView>, e: Seq<char>)
    requires
        h.len() >= 1,
        forall|i: int| 0 <= i < h.len() ==> h[i].1 == Err::<(), Seq<char>>(e),
    ensures
        times_of(h).len() == 0,
        status_of(h) == Status::Failure,
        error_of(h) == Some(e),
{
    lemma_no_success_no_times(h);
    assert(h[h.len() - 1].1 == Err::<(), Seq<char>>(e));
}

proof fn lemma_no_success_no_times(h: Seq<TrialView>)
    requires
        forall|i: int| 0 <= i < h.len() ==> h[i].1 is Err,
    ensures
        times_of(h).len() == 0,
    decreases h.len(),
{
    if h.len() > 0 {
        let t = h.drop_last();
        assert forall|i: int| 0 <= i < t.len() implies t[i].1 is Err by {
            assert(t[i] == h[i]);
        }
        lemma_no_success_no_times(t);
        assert(h[h.len() - 1].1 is Err);
    }
}

/// An aborted attempt's message starts with `"panic: "` and ends with the
/// abort payload.
pub proof fn abort_message_keeps_payload(m: String)
    ensures
        settled(Execution::Aborted(Some(m))) is Err,
        ({
            let msg = settled(Execution::Aborted(Some(m)))->Err_0;
            &&& msg.len() == 7 + m@.len()
            &&& msg.subrange(0, 7) == "panic: "@
            &&& msg.subrange(7, msg.len() as int) == m@
        }),
{
    reveal_strlit("panic: ");
    let msg = "panic: "@ + m@;
    assert(msg.subrange(0, 7) =~= "panic: "@);
    assert(msg.subrange(7, msg.len() as int) =~= m@);
}

/// Two runs whose trials end the same way, whatever their durations, report
/// the same status, the same error message and the same number of timings.
pub proof fn status_ignores_timing(h1: Seq<TrialView>, h2: Seq<TrialView>)
    requires
        h1.len() == h2.len(),
        forall|i: int| 0 <= i < h1.len() ==> h1[i].1 == h2[i].1,
    ensures
        status_of(h1) == status_of(h2),
        error_of(h1) == error_of(h2),
        times_of(h1).len() == times_of(h2).len(),
    decreases h1.len(),
{
    if h1.len() > 0 {
        let (t1, t2) = (h1.drop_last(), h2.drop_last());
        assert forall|i: int| 0 <= i < t1.len() implies t1[i].1 == t2[i].1 by {
            assert(t1[i] == h1[i] && t2[i] == h2[i]);
        }
        status_ignores_timing(t1, t2);
        assert(h1.last().1 == h2.last().1);
    }
}

/// The trials run so far for one operation, out of a fixed budget.
pub struct TrialLog {
    reps: usize,
    times: Vec<u64>,
    last_error: Option<String>,
    runs: usize,
    history: Ghost<Seq<TrialView>>,
}

impl TrialLog {
    /// Number of trials in the budget.
    pub closed spec fn budget(&self) -> nat {
        self.reps as nat
    }

    /// The trials recorded so far, in order.
    pub closed spec fn history(&self) -> Seq<TrialView> {
        self.history@
    }

    pub closed spec fn wf(&self) -> bool {
        &&& self.history@.len() <= self.reps
        &&& self.runs == self.history@.len()
        &&& self.times@ == times_of(self.history@)
        &&& opt_text(self.last_error) == last_error_of(self.history@)
        &&& forall|i: int|
            0 <= i < self.times@.len() ==> self.times@[i] * self.reps <= u64::MAX
    }

    /// An empty log with a budget of `reps` trials.
    pub fn new(reps: usize) -> (r: TrialLog)
        ensures
            r.wf(),
            r.budget() == reps,
            r.history() == Seq::<TrialView>::empty(),
    {
        TrialLog { reps, times: Vec::new(), last_error: None, runs: 0, history: Ghost(Seq::empty()) }
    }

    /// Number of trials in the budget.
    pub fn reps(&self) -> (r: usize)
        ensures
            r == self.budget(),
    {
        self.reps
    }

    /// Whether the whole budget of trials has been used.
    pub fn is_complete(&self) -> (r: bool)
        requires
            self.wf(),
        ensures
            r == (self.history().len() >= self.budget()),
    {
        self.runs >= self.reps
    }

    /// Number of trials recorded so far.
    pub fn runs(&self) -> (r: usize)
        requires
            self.wf(),
        ensures
            r == self.history().len(),
    {
        self.runs
    }

    /// Records a trial that took `elapsed_ns` nanoseconds and ended with
    /// `outcome`: a success adds its duration to the timings, a failure
    /// replaces the remembered error. A trial's duration times the budget
    /// must fit in 64 bits, so that the sums the statistics take fit too.
    pub fn record(&mut self, elapsed_ns: u64, outcome: Result<(), String>)
        requires
            old(self).wf(),
            old(self).history().len() < old(self).budget(),
            elapsed_ns * old(self).budget() <= u64::MAX,
        ensures
            final(self).wf(),
            final(self).budget() == old(self).budget(),
            final(self).history() == old(self).history().push((elapsed_ns, outcome_text(outcome))),
    {
        let ghost h = self.history@.push((elapsed_ns, outcome_text(outcome)));
        assert(h.drop_last() =~= self.history@);
        match outcome {
            Ok(()) => {
                self.times.push(elapsed_ns);
            },
            Err(e) => {
                self.last_error = Some(e);
            },
        }
        self.runs = self.runs + 1;
        self.history = Ghost(h);
    }

    /// The result of the trials recorded, with `peak_memory_kb` as the
    /// memory reading taken after them and empty identifying fields.
    pub fn finish(self, peak_memory_kb: u64) -> (r: BenchResult)
        requires
            self.wf(),
        ensures
            r.wf(),
            r.times@ == times_of(self.history()),
            r.status == status_of(self.history()),
            opt_text(r.error) == error_of(self.history()),
            r.peak_memory_kb == peak_memory_kb,
            r.library@.len() == 0,
            r.format@.len() == 0,
            r.file@.len() == 0,
            r.operation@.len() == 0,
    {
        let ghost s = self.times@;
        proof {
            lemma_times_count(self.history@);
            lemma_max_bounds(s);
            if s.len() > 0 {
                let k = choose|k: int| 0 <= k < s.len() && s[k] == max_of(s);
                assert(s[k] * self.reps <= u64::MAX);
                assert(s.len() * max_of(s) <= self.reps * max_of(s)) by (nonlinear_arith)
                    requires
                        s.len() <= self.reps,
                        max_of(s) >= 0,
                ;
            }
        }
        let summary = stats(self.times.as_slice());
        let ok = self.times.len() > 0;
        let status = if ok {
            Status::Success
        } else {
            Status::Failure
        };
        let error = if ok {
            None
        } else {
            self.last_error
        };
        BenchResult {
            library: String::new(),
            format: String::new(),
            file: String::new(),
            operation: String::new(),
            times: self.times,
            stats: summary,
            peak_memory_kb,
            status,
            error,
        }
    }
}

} // verus!
