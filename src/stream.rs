//! The decisions of a host asynchronous iterator over a native result
//! sequence. The caller holds the iterator's lock for one step, pulls one
//! element when `wants_pull` says so, and hands it to `step`.

use vstd::prelude::*;
use crate::value::{to_host, to_host_v, BridgeError, HostV, HostValue, Json, JsonV};

verus! {

/// What one pull of the native sequence produced.
#[derive(Debug, PartialEq)]
pub enum Pull {
    Item(Json),
    Failure(String),
    Finished,
}

/// The mathematical form of a `Pull`.
pub enum PullV {
    Item(JsonV),
    Failure(Seq<char>),
    Finished,
}

/// The outcome of one step as the host sees it.
#[derive(Debug, PartialEq)]
pub enum StepOutcome {
    /// The next item.
    Value(HostValue),
    /// The native sequence failed; iteration is over.
    Error(BridgeError),
    /// The sequence is exhausted.
    End,
}

/// The mathematical form of a `StepOutcome`; an error carries its message.
pub enum StepV {
    Value(HostV),
    Error(Seq<char>),
    End,
}

impl Pull {
    pub open spec fn pv(self) -> PullV {
        match self {
            Pull::Item(j) => PullV::Item(j.dv()),
            Pull::Failure(m) => PullV::Failure(m@),
            Pull::Finished => PullV::Finished,
        }
    }
}

impl StepOutcome {
    pub open spec fn sv(self) -> StepV {
        match self {
            StepOutcome::Value(h) => StepV::Value(h.hv()),
            StepOutcome::Error(BridgeError::NativeFailure(m)) => StepV::Error(m@),
            StepOutcome::Error(_) => StepV::Error(Seq::empty()),
            StepOutcome::End => StepV::End,
        }
    }
}

/// One step from a state: whether the sequence is exhausted afterwards, and
/// the outcome. An exhausted iterator ignores what is handed to it.
pub open spec fn step_v(exhausted: bool, p: PullV) -> (bool, StepV) {
    if exhausted {
        (true, StepV::End)
    } else {
        match p {
            PullV::Item(x) => (false, StepV::Value(to_host_v(x))),
            PullV::Failure(m) => (true, StepV::Error(m)),
            PullV::Finished => (true, StepV::End),
        }
    }
}

/// The element at `pos` of a native sequence of successes and failures;
/// past its end the sequence is finished.
pub open spec fn pull_at(src: Seq<Result<JsonV, Seq<char>>>, pos: nat) -> PullV {
    if pos < src.len() {
        match src[pos as int] {
            Ok(x) => PullV::Item(x),
            Err(m) => PullV::Failure(m),
        }
    } else {
        PullV::Finished
    }
}

/// `calls` serialized steps over a native sequence, pulling only while the
/// iterator wants a pull: whether it is exhausted after them, how many
/// elements were pulled, and the outcomes in order.
pub open spec fn run(src: Seq<Result<JsonV, Seq<char>>>, calls: nat) -> (bool, nat, Seq<StepV>)
    decreases calls,
{
    if calls == 0 {
        (false, 0, Seq::empty())
    } else {
        let (ex, pos, outs) = run(src, (calls - 1) as nat);
        if ex {
            (true, pos, outs.push(StepV::End))
        } else {
            let (ex2, o) = step_v(false, pull_at(src, pos));
            (ex2, pos + 1, outs.push(o))
        }
    }
}

/// The state of a host iterator over a native sequence.
#[derive(Debug)]
pub struct StreamBridge {
    exhausted: bool,
}

impl StreamBridge {
    /// Whether the sequence ended or failed.
    pub closed spec fn is_exhausted(self) -> bool {
        self.exhausted
    }

    /// An iterator over a fresh native sequence.
    pub fn new() -> (r: Self)
        ensures
            !r.is_exhausted(),
    {
        StreamBridge { exhausted: false }
    }

    /// Whether the next step must pull one element from the native sequence.
    pub fn wants_pull(&self) -> (r: bool)
        ensures
            r == !self.is_exhausted(),
    {
        !self.exhausted
    }

    /// One step: an item becomes the next host value; a failure becomes the
    /// step's error and ends the iteration; the end of the sequence, or any
    /// step after it, signals completion.
    pub fn step(&mut self, pulled: Pull) -> (r: StepOutcome)
        ensures
            (final(self).is_exhausted(), r.sv()) == step_v(old(self).is_exhausted(), pulled.pv()),
            r is Error ==> r->Error_0 is NativeFailure,
    {
        if self.exhausted {
            return StepOutcome::End;
        }
        match pulled {
            Pull::Item(j) => StepOutcome::Value(to_host(&j)),
            Pull::Failure(m) => {
                self.exhausted = true;
                StepOutcome::Error(BridgeError::NativeFailure(m))
            },
            Pull::Finished => {
                self.exhausted = true;
                StepOutcome::End
            },
        }
    }
}

/// Exhaustion: over a sequence of `n` successes, the first `n` steps yield
/// its elements in order, and every later step yields the end; `n + 1`
/// elements at most are pulled, the last being the end of the sequence.
pub proof fn lemma_stream_exhaustion(src: Seq<Result<JsonV, Seq<char>>>, calls: nat)
    requires
        forall|i: int| 0 <= i < src.len() ==> (#[trigger] src[i]) is Ok,
    ensures
        ({
            let (ex, pos, outs) = run(src, calls);
            &&& outs.len() == calls
            &&& forall|i: int|
                0 <= i < calls ==> #[trigger] outs[i] == if i < src.len() {
                    StepV::Value(to_host_v(src[i]->Ok_0))
                } else {
                    StepV::End
                }
            &&& ex == (calls > src.len())
            &&& pos == if calls > src.len() { src.len() + 1 } else { calls }
        }),
    decreases calls,
{
    if calls > 0 {
        lemma_stream_exhaustion(src, (calls - 1) as nat);
    }
}

/// Error propagation: when the element at `k` is the first failure, steps
/// before `k` yield the elements before it, step `k` yields its error, every
/// later step yields the end, and no element after `k` is pulled.
pub proof fn lemma_stream_error(src: Seq<Result<JsonV, Seq<char>>>, k: nat, calls: nat)
    requires
        k < src.len(),
        src[k as int] is Err,
        forall|i: int| 0 <= i < k ==> (#[trigger] src[i]) is Ok,
    ensures
        ({
            let (ex, pos, outs) = run(src, calls);
            &&& outs.len() == calls
            &&& forall|i: int|
                0 <= i < calls ==> #[trigger] outs[i] == if i < k {
                    StepV::Value(to_host_v(src[i]->Ok_0))
                } else if i == k {
                    StepV::Error(src[k as int]->Err_0)
                } else {
                    StepV::End
                }
            &&& ex == (calls > k)
            &&& pos <= k + 1
            &&& pos == if calls > k { k + 1 } else { calls }
        }),
    decreases calls,
{
    if calls > 0 {
        lemma_stream_error(src, k, (calls - 1) as nat);
    }
}

/// The number of outcomes that deliver a value.
pub open spec fn count_values(outs: Seq<StepV>) -> nat
    decreases outs.len(),
{
    if outs.len() == 0 {
        0
    } else {
        count_values(outs.drop_last()) + if outs.last() is Value {
            1nat
        } else {
            0nat
        }
    }
}

/// Exactly-once delivery: however serialized steps are shared among callers,
/// the steps that deliver a value number as many as the elements of a
/// sequence of successes once it is exhausted, and step `i` delivers element `i`.
pub proof fn lemma_each_element_once(src: Seq<Result<JsonV, Seq<char>>>, calls: nat)
    requires
        forall|i: int| 0 <= i < src.len() ==> (#[trigger] src[i]) is Ok,
    ensures
        count_values(run(src, calls).2) == if calls > src.len() { src.len() } else { calls },
        forall|i: int|
            0 <= i < src.len() && i < calls ==> #[trigger] run(src, calls).2[i] == StepV::Value(
                to_host_v(src[i]->Ok_0),
            ),
    decreases calls,
{
    lemma_stream_exhaustion(src, calls);
    if calls > 0 {
        lemma_each_element_once(src, (calls - 1) as nat);
        lemma_stream_exhaustion(src, (calls - 1) as nat);
        let outs = run(src, calls).2;
        assert(outs.drop_last() =~= run(src, (calls - 1) as nat).2);
    }
}

} // verus!
