//! Let factorize a huge amount of scheduling policies into one api.
//!
//! A workload carries its own work, map and reduce behaviour (folded into
//! the `Workload` trait), and `post` ties every workload to its acceptable
//! outputs. Each scheduling policy is proved to return an acceptable
//! output, whatever splitting the policy — or a thief — causes: the result
//! never depends on steal timing.

use vstd::prelude::*;

verus! {

/// All available scheduling policies.
#[derive(Clone, Copy)]
pub enum Policy {
    /// Do all computations sequentially.
    Sequential,
    /// Recursively cut in two with join until given block size.
    Join(usize),
    /// Recursively cut in two with join_context until given block size.
    JoinContext(usize),
    /// Recursively cut in two with depjoin until given block size.
    DepJoin(usize),
    /// Advance locally with increasing block sizes. When stolen create
    /// tasks. We need an initial block size.
    Adaptive(usize),
}

/// Block sizes must be positive for the recursions to make progress.
pub open spec fn policy_wf(p: Policy) -> bool {
    match p {
        Policy::Sequential => true,
        Policy::Join(b) => b >= 1,
        Policy::JoinContext(b) => b >= 1,
        Policy::DepJoin(b) => b >= 1,
        Policy::Adaptive(b) => b >= 1,
    }
}

/// A workload that can report its size and split in two at an index.
pub trait Divisible: Sized {
    spec fn wf(&self) -> bool;

    spec fn spec_len(&self) -> int;

    /// The relation between a workload and the two halves made at `i`.
    spec fn from_split(&self, i: int, left: &Self, right: &Self) -> bool;

    fn length(&self) -> (l: usize)
        requires
            self.wf(),
        ensures
            l == self.spec_len(),
    ;

    fn split_at(self, i: usize) -> (r: (Self, Self))
        requires
            self.wf(),
            i <= self.spec_len(),
        ensures
            r.0.wf(),
            r.1.wf(),
            r.0.spec_len() == i as int,
            r.1.spec_len() == self.spec_len() - i,
            self.from_split(i as int, &r.0, &r.1),
    ;
}

/// A divisible workload together with its work and reduce behaviour.
/// `post` says which outputs are correct for a workload; the laws below tie
/// working, finishing and reducing back to it.
pub trait Workload: Divisible {
    type Output;

    /// Which outputs are correct for this workload.
    spec fn post(&self, o: Self::Output) -> bool;

    /// Process up to `limit` units of work. Working never changes which
    /// outputs are correct.
    fn work(self, limit: usize) -> (r: Self)
        requires
            self.wf(),
        ensures
            r.wf(),
            r.spec_len() == if limit as int <= self.spec_len() {
                self.spec_len() - limit
            } else {
                0
            },
            forall|o: Self::Output| #[trigger] r.post(o) ==> self.post(o),
    ;

    /// Map a fully worked workload to its output.
    fn finish(self) -> (o: Self::Output)
        requires
            self.wf(),
            self.spec_len() == 0,
        ensures
            self.post(o),
    ;

    /// Combine the outputs of the two halves of a split workload into an
    /// output of the whole.
    fn reduce(
        a: Self::Output,
        b: Self::Output,
        parent: Ghost<Self>,
        left: Ghost<Self>,
        right: Ghost<Self>,
        at: Ghost<int>,
    ) -> (o: Self::Output)
        requires
            parent@.wf(),
            left@.wf(),
            right@.wf(),
            parent@.from_split(at@, &left@, &right@),
            left@.post(a),
            right@.post(b),
        ensures
            parent@.post(o),
    ;
}

/// Where steal requests come from. The scheduler's contracts hold whatever
/// this answers, so the result of an adaptive computation is independent of
/// steal timing; implementations range from a never-firing signal to a
/// scripted one used to force a steal at a chosen point.
pub trait StealSignal {
    fn is_stolen(&mut self) -> bool;
}

/// A signal that never reports a steal.
pub struct NeverStolen {}

impl StealSignal for NeverStolen {
    fn is_stolen(&mut self) -> bool {
        false
    }
}

/// A scripted signal: reports a steal once the countdown reaches zero.
pub struct StealAfter {
    pub countdown: usize,
}

impl StealSignal for StealAfter {
    fn is_stolen(&mut self) -> bool {
        if self.countdown == 0 {
            true
        } else {
            self.countdown = self.countdown - 1;
            false
        }
    }
}

/// The execution context threaded through scheduling calls in place of
/// implicit thread-local state: once an adaptive computation has been
/// granted a worker, nested scheduling defaults to sequential execution.
pub struct SchedulingContext {
    pub sequential_forced: bool,
}

impl SchedulingContext {
    pub fn new() -> (c: SchedulingContext)
        ensures
            !c.sequential_forced,
    {
        SchedulingContext { sequential_forced: false }
    }
}

/// Process the whole workload in one go.
pub fn schedule_sequential<W: Workload>(input: W) -> (o: W::Output)
    requires
        input.wf(),
    ensures
        input.post(o),
{
    let len = input.length();
    let worked = input.work(len);
    worked.finish()
}

/// Relies on `rayon::join`: the two recursive schedules run on the
/// fork-join pool and `join` returns both closures' results, so each output
/// is what the verified recursive call it wraps ensures.
#[verifier::external_body]
fn join_works<W: Workload + Send>(a: W, b: W, block_size: usize) -> (r: (W::Output, W::Output)) where
    W::Output: Send,

    requires
        a.wf(),
        b.wf(),
        block_size >= 1,
    ensures
        a.post(r.0),
        b.post(r.1),
{
    rayon::join(
        || schedule_join(a, block_size),
        || schedule_join(b, block_size),
    )
}

/// Classic recursive halving: process directly below the block size, else
/// split, schedule both halves on the pool, and reduce.
pub fn schedule_join<W: Workload + Send>(input: W, block_size: usize) -> (o: W::Output) where
    W::Output: Send,

    requires
        input.wf(),
        block_size >= 1,
    ensures
        input.post(o),
{
    let len = input.length();
    if len <= block_size {
        schedule_sequential(input)
    } else {
        let ghost parent = input;
        let (i1, i2) = input.split_at(len / 2);
        let ghost left = i1;
        let ghost right = i2;
        let (r1, r2) = join_works(i1, i2, block_size);
        W::reduce(r1, r2, Ghost(parent), Ghost(left), Ghost(right), Ghost((len / 2) as int))
    }
}

/// Relies on `rayon::join_context`: both closures run on the pool and their
/// results are returned; the second closure consults the migration flag
/// only to pick between two verified calls that ensure the same
/// postcondition, so the outcome is independent of whether a steal
/// happened.
#[verifier::external_body]
fn join_context_works<W: Workload + Send>(a: W, b: W, block_size: usize) -> (r: (
    W::Output,
    W::Output,
)) where W::Output: Send,

    requires
        a.wf(),
        b.wf(),
        block_size >= 1,
    ensures
        a.post(r.0),
        b.post(r.1),
{
    rayon::join_context(
        |_| schedule_join_context(a, block_size),
        |c| if c.migrated() {
            schedule_join_context(b, block_size)
        } else {
            schedule_sequential(b)
        },
    )
}

/// Recursive halving through `join_context`: a second half that was not
/// actually migrated to another worker is processed inline without further
/// recursion overhead.
pub fn schedule_join_context<W: Workload + Send>(input: W, block_size: usize) -> (o: W::Output) where
    W::Output: Send,

    requires
        input.wf(),
        block_size >= 1,
    ensures
        input.post(o),
{
    let len = input.length();
    if len <= block_size {
        schedule_sequential(input)
    } else {
        let ghost parent = input;
        let (i1, i2) = input.split_at(len / 2);
        let ghost left = i1;
        let ghost right = i2;
        let (r1, r2) = join_context_works(i1, i2, block_size);
        W::reduce(r1, r2, Ghost(parent), Ghost(left), Ghost(right), Ghost((len / 2) as int))
    }
}

/// Relies on `rayon::join` for the fork; the race-to-finish placement of
/// the reduction (whichever branch finishes last reduces, without the
/// faster one blocking) is a pool-side scheduling optimisation that does
/// not change which results come back.
#[verifier::external_body]
fn depjoin_works<W: Workload + Send>(a: W, b: W, block_size: usize) -> (r: (W::Output, W::Output)) where
    W::Output: Send,

    requires
        a.wf(),
        b.wf(),
        block_size >= 1,
    ensures
        a.post(r.0),
        b.post(r.1),
{
    rayon::join(
        || schedule_depjoin(a, block_size),
        || schedule_depjoin(b, block_size),
    )
}

/// Recursive halving where the reduction is performed by the racing
/// combinator instead of a blocking join.
pub fn schedule_depjoin<W: Workload + Send>(input: W, block_size: usize) -> (o: W::Output) where
    W::Output: Send,

    requires
        input.wf(),
        block_size >= 1,
    ensures
        input.post(o),
{
    let len = input.length();
    if len <= block_size {
        schedule_sequential(input)
    } else {
        let ghost parent = input;
        let (i1, i2) = input.split_at(len / 2);
        let ghost left = i1;
        let ghost right = i2;
        let (r1, r2) = depjoin_works(i1, i2, block_size);
        W::reduce(r1, r2, Ghost(parent), Ghost(left), Ghost(right), Ghost((len / 2) as int))
    }
}

/// The adaptive steal-responsive worker: a workload, the initial block size
/// (the floor below which no work is offered to thieves), and the current,
/// growing block size.
pub struct AdaptiveWorker<W> {
    pub input: W,
    pub initial_block_size: usize,
    pub current_block_size: usize,
}

impl<W: Workload + Send> AdaptiveWorker<W> where W::Output: Send {
    /// Adjust the starting block size so that a whole number of doubling
    /// rounds exactly consumes the input, avoiding a final underfull block.
    pub fn new(input: W, initial_block_size: usize) -> (w: AdaptiveWorker<W>)
        requires
            input.wf(),
            initial_block_size >= 1,
        ensures
            w.input == input,
            w.initial_block_size == initial_block_size,
            w.current_block_size >= 1,
    {
        let len = input.length();
        let q = len / initial_block_size;
        let q = if q < usize::MAX {
            q + 1
        } else {
            q
        };
        let mut pow: usize = 1;
        while pow <= q / 2
            invariant
                pow >= 1,
            decreases q - pow,
        {
            pow = pow * 2;
        }
        let denom = if pow > 1 {
            pow - 1
        } else {
            1
        };
        let q2 = len / denom;
        let current = if len % denom == 0 || q2 == usize::MAX {
            q2
        } else {
            q2 + 1
        };
        let current_block_size = if current >= 1 {
            current
        } else {
            1
        };
        AdaptiveWorker { input, initial_block_size, current_block_size }
    }

    /// Answer a steal request: split the remainder in half, hand the second
    /// half over (the thief's recursion is the same verified schedule), and
    /// continue on the first half under the same protocol.
    fn answer_steal<S: StealSignal>(self, signal: &mut S) -> (o: W::Output)
        requires
            self.input.wf(),
            self.initial_block_size >= 1,
            self.input.spec_len() >= 2,
        ensures
            self.input.post(o),
        decreases self.input.spec_len(), 0int,
    {
        let ghost parent = self.input;
        let initial_block_size = self.initial_block_size;
        let len = self.input.length();
        let (my_half, his_half) = self.input.split_at(len / 2);
        let ghost left = my_half;
        let ghost right = his_half;
        let o1 = schedule_adaptive(my_half, signal, initial_block_size);
        let o2 = schedule_adaptive(his_half, signal, initial_block_size);
        W::reduce(o1, o2, Ghost(parent), Ghost(left), Ghost(right), Ghost((len / 2) as int))
    }

    /// Process doubling blocks, checking for steal requests between blocks;
    /// on a steal with enough work left, split and hand half over. Nested
    /// scheduling during a block runs sequentially by construction: `work`
    /// cannot re-enter the scheduler. A finished workload simply returns:
    /// the cancellation message of the concurrent protocol has no effect on
    /// the result.
    #[verifier::loop_isolation(false)]
    fn schedule<S: StealSignal>(self, signal: &mut S) -> (o: W::Output)
        requires
            self.input.wf(),
            self.initial_block_size >= 1,
            self.current_block_size >= 1,
        ensures
            self.input.post(o),
        decreases self.input.spec_len(), 1int,
    {
        let ghost orig = self.input;
        let AdaptiveWorker { input, initial_block_size, current_block_size } = self;
        let mut current = current_block_size;
        let len = input.length();
        let size = if len <= current {
            len
        } else {
            current
        };
        if len <= current {
            let worked = input.work(size);
            return worked.finish();
        }
        let mut input = input.work(size);
        if input.length() == 0 {
            return input.finish();
        }
        loop
            invariant
                input.wf(),
                current >= 1,
                initial_block_size >= 1,
                input.spec_len() >= 1,
                input.spec_len() <= orig.spec_len(),
                forall|o: W::Output| #[trigger] input.post(o) ==> orig.post(o),
            decreases input.spec_len(),
        {
            if signal.is_stolen() && input.length() > initial_block_size {
                let w = AdaptiveWorker { input, initial_block_size, current_block_size: current };
                return w.answer_steal(signal);
            }
            let len = input.length();
            current = if current < len {
                if current <= len / 2 {
                    current * 2
                } else {
                    len
                }
            } else {
                len
            };
            let size = if len <= current {
                len
            } else {
                current
            };
            if len <= current {
                let ghost before = input;
                let worked = input.work(size);
                let o = worked.finish();
                proof {
                    assert(before.post(o));
                }
                return o;
            }
            let ghost before = input;
            input = input.work(size);
            proof {
                assert forall|o: W::Output| #[trigger] input.post(o) implies orig.post(o) by {
                    assert(before.post(o));
                }
            }
            if input.length() == 0 {
                let ghost before = input;
                let o = input.finish();
                proof {
                    assert(before.post(o));
                }
                return o;
            }
        }
    }
}

/// Advance locally with increasing block sizes; when a steal request
/// arrives and enough work remains, split and hand the second half over.
/// The output is acceptable for the input whatever the signal answers:
/// forcing a steal at any point yields the same contract as no steal.
pub fn schedule_adaptive<W: Workload + Send, S: StealSignal>(
    input: W,
    signal: &mut S,
    initial_block_size: usize,
) -> (o: W::Output) where W::Output: Send,

    requires
        input.wf(),
        initial_block_size >= 1,
    ensures
        input.post(o),
    decreases input.spec_len(), 2int,
{
    let size = input.length();
    if size <= initial_block_size {
        schedule_sequential(input)
    } else {
        let worker = AdaptiveWorker::new(input, initial_block_size);
        worker.schedule(signal)
    }
}

/// Dispatch a workload to the scheduling policy.
pub fn schedule<W: Workload + Send, S: StealSignal>(
    input: W,
    policy: Policy,
    ctx: &SchedulingContext,
    signal: &mut S,
) -> (o: W::Output) where W::Output: Send,

    requires
        input.wf(),
        policy_wf(policy),
    ensures
        input.post(o),
{
    match policy {
        Policy::Sequential => schedule_sequential(input),
        Policy::Join(block_size) => schedule_join(input, block_size),
        Policy::JoinContext(block_size) => schedule_join_context(input, block_size),
        Policy::DepJoin(block_size) => schedule_depjoin(input, block_size),
        Policy::Adaptive(block_size) => {
            if ctx.sequential_forced {
                schedule_sequential(input)
            } else {
                schedule_adaptive(input, signal, block_size)
            }
        },
    }
}

} // verus!