//! Readiness-gated dispatcher: the one piece of shared state between the
//! producers of file-open intents and the user-interface surface that
//! consumes them.
//!
//! The dispatcher owns a readiness flag and a pending-file queue. While the
//! surface is not ready, submitted files are queued; the one-time ready
//! signal atomically flips the flag and takes the whole queue for delivery;
//! afterwards every submission is released for immediate delivery. The flag
//! and the queue form a single resource: a caller that shares one dispatcher
//! among threads must guard it with one lock, so that each call below is one
//! atomic step. Under that discipline the proof functions at the end of this
//! module show that every submitted file is delivered exactly once, in
//! submission order.

use vstd::prelude::*;

verus! {

/// The abstract state of a dispatcher: the readiness flag and the queued
/// paths, each path a sequence of characters.
pub struct DispatchState {
    pub ready: bool,
    pub pending: Seq<Seq<char>>,
}

/// The state a dispatcher is created in: not ready, nothing pending.
pub open spec fn init_state() -> DispatchState {
    DispatchState { ready: false, pending: Seq::empty() }
}

/// One `submit` step: the next state, and the batch released for immediate
/// delivery (empty when nothing is to be delivered). An empty submission is
/// a no-op; before readiness the files are appended to the queue; after
/// readiness they are released directly and the queue is untouched.
pub open spec fn step_submit(s: DispatchState, files: Seq<Seq<char>>) -> (DispatchState, Seq<
    Seq<char>,
>) {
    if files.len() == 0 {
        (s, Seq::empty())
    } else if s.ready {
        (s, files)
    } else {
        (DispatchState { ready: false, pending: s.pending + files }, Seq::empty())
    }
}

/// One ready step: the flag is set, the queue is emptied, and its whole
/// contents are released for delivery in one batch.
pub open spec fn step_ready(s: DispatchState) -> (DispatchState, Seq<Seq<char>>) {
    (DispatchState { ready: true, pending: Seq::empty() }, s.pending)
}

/// The readiness flag and the pending-file queue, owned as one value.
///
/// Constructed once at process start and held for the process lifetime. The
/// flag is monotonic — every operation keeps it `true` once it is `true` —
/// and once it is set the queue stays empty.
pub struct Dispatcher {
    ready: bool,
    pending: Vec<String>,
}

impl View for Dispatcher {
    type V = DispatchState;

    closed spec fn view(&self) -> DispatchState {
        DispatchState { ready: self.ready, pending: self.pending.deep_view() }
    }
}

impl Dispatcher {
    #[verifier::type_invariant]
    spec fn inv(self) -> bool {
        self.ready ==> self.pending@.len() == 0
    }

    /// A fresh dispatcher: not ready, nothing pending.
    pub fn new() -> (d: Dispatcher)
        ensures
            d@ == init_state(),
    {
        let d = Dispatcher { ready: false, pending: Vec::new() };
        proof {
            assert(d@.pending =~= Seq::<Seq<char>>::empty());
        }
        d
    }

    /// Submit a batch of file paths. Returns the batch to hand to the
    /// delivery channel now, or `None` when nothing is to be delivered
    /// (the batch was queued, or it was empty).
    ///
    /// An empty submission is a no-op: no delivery occurs and the state is
    /// unchanged. Once the dispatcher is ready, no submission is ever
    /// queued: the state is unchanged and a non-empty batch is released
    /// directly.
    pub fn submit(&mut self, files: Vec<String>) -> (deliver: Option<Vec<String>>)
        ensures
            final(self)@ == step_submit(old(self)@, files.deep_view()).0,
            (match deliver {
                Some(batch) => batch.deep_view() == step_submit(old(self)@, files.deep_view()).1
                    && batch.deep_view().len() > 0,
                None => step_submit(old(self)@, files.deep_view()).1.len() == 0,
            }),
            old(self)@.ready ==> final(self)@ == old(self)@,
            files@.len() == 0 ==> deliver is None && final(self)@ == old(self)@,
            old(self)@.ready ==> final(self)@.ready,
    {
        proof {
            use_type_invariant(&*self);
        }
        let ghost files_view = files.deep_view();
        if files.len() == 0 {
            None
        } else if self.ready {
            Some(files)
        } else {
            let mut queue: Vec<String> = Vec::new();
            core::mem::swap(&mut queue, &mut self.pending);
            let mut incoming = files;
            queue.append(&mut incoming);
            self.pending = queue;
            proof {
                assert(self.pending.deep_view() =~= old(self).pending.deep_view() + files_view);
            }
            None
        }
    }

    /// The one-time ready signal: sets the flag and returns the whole queue,
    /// emptied atomically with the flip, as one ordered batch for delivery.
    ///
    /// A repeated signal is a harmless no-op: the flag is already set, the
    /// queue is already empty, and the returned batch is empty.
    pub fn on_ready(&mut self) -> (batch: Vec<String>)
        ensures
            final(self)@ == step_ready(old(self)@).0,
            batch.deep_view() == step_ready(old(self)@).1,
            old(self)@.ready ==> batch.deep_view().len() == 0,
            final(self)@.ready,
    {
        proof {
            use_type_invariant(&*self);
        }
        let mut batch: Vec<String> = Vec::new();
        core::mem::swap(&mut batch, &mut self.pending);
        self.ready = true;
        proof {
            assert(self.pending.deep_view() =~= Seq::<Seq<char>>::empty());
        }
        batch
    }
}

/// One atomic call on a shared dispatcher, as the lock around it serializes
/// them: a submission of a batch of paths, or the ready signal.
pub enum DispatchEvent {
    Submit(Seq<Seq<char>>),
    Ready,
}

/// Every file submitted over a history of calls, in submission order.
pub open spec fn submitted_files(trace: Seq<DispatchEvent>) -> Seq<Seq<char>>
    decreases trace.len(),
{
    if trace.len() == 0 {
        Seq::empty()
    } else {
        let rest = submitted_files(trace.drop_first());
        match trace.first() {
            DispatchEvent::Submit(files) => files + rest,
            DispatchEvent::Ready => rest,
        }
    }
}

/// Whether a history contains the ready signal.
pub open spec fn has_ready(trace: Seq<DispatchEvent>) -> bool {
    exists|i: int| 0 <= i < trace.len() && trace[i] is Ready
}

/// The dispatcher run over a whole history of calls: the final state, and
/// every file released for delivery, in delivery order.
pub open spec fn run_trace(s: DispatchState, trace: Seq<DispatchEvent>) -> (DispatchState, Seq<
    Seq<char>,
>)
    decreases trace.len(),
{
    if trace.len() == 0 {
        (s, Seq::empty())
    } else {
        let first_step = match trace.first() {
            DispatchEvent::Submit(files) => step_submit(s, files),
            DispatchEvent::Ready => step_ready(s),
        };
        let rest = run_trace(first_step.0, trace.drop_first());
        (rest.0, first_step.1 + rest.1)
    }
}

proof fn lemma_has_ready_unfold(trace: Seq<DispatchEvent>)
    requires
        trace.len() > 0,
    ensures
        has_ready(trace) == (trace.first() is Ready || has_ready(trace.drop_first())),
{
    if has_ready(trace) {
        let i = choose|i: int| 0 <= i < trace.len() && trace[i] is Ready;
        if i > 0 {
            assert(trace.drop_first()[i - 1] is Ready);
        }
    }
    if has_ready(trace.drop_first()) {
        let i = choose|i: int| 0 <= i < trace.drop_first().len() && trace.drop_first()[i] is Ready;
        assert(trace[i + 1] is Ready);
    }
    if trace.first() is Ready {
        assert(trace[0] is Ready);
    }
}

/// How a dispatcher accounts for files over any history of calls, from any
/// state whose flag and queue agree: the files delivered so far, followed by
/// the files still pending, are exactly the files pending at the start
/// followed by the files submitted since, in order; the flag is monotonic
/// and is set exactly when the start state was ready or the history holds
/// the ready signal; and while no ready signal has occurred, nothing at all
/// is delivered.
pub proof fn lemma_run_trace(s: DispatchState, trace: Seq<DispatchEvent>)
    requires
        s.ready ==> s.pending.len() == 0,
    ensures
        ({
            let end = run_trace(s, trace);
            &&& (end.0.ready ==> end.0.pending.len() == 0)
            &&& end.0.ready == (s.ready || has_ready(trace))
            &&& end.1 + end.0.pending == s.pending + submitted_files(trace)
            &&& (!s.ready && !has_ready(trace) ==> end.1 == Seq::<Seq<char>>::empty())
        }),
    decreases trace.len(),
{
    if trace.len() == 0 {
        assert(run_trace(s, trace).1 + run_trace(s, trace).0.pending =~= s.pending
            + submitted_files(trace));
    } else {
        lemma_has_ready_unfold(trace);
        let first_step = match trace.first() {
            DispatchEvent::Submit(files) => step_submit(s, files),
            DispatchEvent::Ready => step_ready(s),
        };
        lemma_run_trace(first_step.0, trace.drop_first());
        let rest = run_trace(first_step.0, trace.drop_first());
        assert(first_step.1 + rest.1 + rest.0.pending =~= first_step.1 + (rest.1
            + rest.0.pending));
        match trace.first() {
            DispatchEvent::Submit(files) => {
                if files.len() == 0 {
                    assert(s.pending + (files + submitted_files(trace.drop_first())) =~= s.pending
                        + submitted_files(trace.drop_first()));
                } else if s.ready {
                    assert(files + (s.pending + submitted_files(trace.drop_first())) =~= s.pending
                        + (files + submitted_files(trace.drop_first())));
                } else {
                    assert((s.pending + files) + submitted_files(trace.drop_first()) =~= s.pending
                        + (files + submitted_files(trace.drop_first())));
                }
            },
            DispatchEvent::Ready => {
                assert(s.pending + (Seq::<Seq<char>>::empty() + submitted_files(
                    trace.drop_first(),
                )) =~= s.pending + submitted_files(trace.drop_first()));
            },
        }
        if !s.ready && !has_ready(trace) {
            assert(run_trace(s, trace).1 =~= Seq::<Seq<char>>::empty());
        }
    }
}

/// Exactly-once delivery: over any serialized history of `submit` calls and
/// ready signals, starting from a fresh dispatcher, the files delivered so
/// far followed by the files still pending are exactly the files submitted,
/// in submission order — so no file is lost and none is delivered twice —
/// and once the ready signal has occurred nothing is pending, so the
/// delivered files are exactly the submitted ones.
pub proof fn lemma_exactly_once(trace: Seq<DispatchEvent>)
    ensures
        ({
            let end = run_trace(init_state(), trace);
            &&& end.1 + end.0.pending == submitted_files(trace)
            &&& (has_ready(trace) ==> end.0.pending.len() == 0 && end.1 == submitted_files(trace))
        }),
{
    lemma_run_trace(init_state(), trace);
    let end = run_trace(init_state(), trace);
    assert(init_state().pending + submitted_files(trace) =~= submitted_files(trace));
    if has_ready(trace) {
        assert(end.1 =~= end.1 + end.0.pending);
    }
}

/// Files submitted while the dispatcher is not ready are never delivered
/// early: they are all queued, in submission order, and the ready signal
/// then flushes exactly those files, in that order, in one batch.
pub proof fn lemma_queued_then_flushed(trace: Seq<DispatchEvent>)
    requires
        forall|i: int| 0 <= i < trace.len() ==> trace[i] is Submit,
    ensures
        ({
            let end = run_trace(init_state(), trace);
            &&& end.1 == Seq::<Seq<char>>::empty()
            &&& end.0.pending == submitted_files(trace)
            &&& step_ready(end.0).1 == submitted_files(trace)
        }),
{
    lemma_run_trace(init_state(), trace);
    let end = run_trace(init_state(), trace);
    assert(!has_ready(trace));
    assert(init_state().pending + submitted_files(trace) =~= submitted_files(trace));
    assert(end.0.pending =~= end.1 + end.0.pending);
}

} // verus!
