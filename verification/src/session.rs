//! A training session: its first snapshot, its epochs, and what the owner
//! and the renderer see of it.
use crate::backprop::is_gradient;
use crate::control::{Signal, Worker};
use crate::error::Error;
use crate::network::{is_randomized, Network};
use crate::scalar::Scalar;
use crate::training::{is_cost, is_descent, Examples, TrainingSet};
use vstd::prelude::*;

verus! {

/// The time from `started` to `now`, both in milliseconds, held to what an
/// `i64` can take.
pub open spec fn span(started: i64, now: i64) -> i64 {
    if now - started > i64::MAX {
        i64::MAX
    } else if now - started < i64::MIN {
        i64::MIN
    } else {
        (now - started) as i64
    }
}

/// The time from `started` to `now`, both in milliseconds. Where the
/// difference does not fit, the nearest value that does is returned.
pub fn elapsed_millis(started: i64, now: i64) -> (elapsed: i64)
    ensures
        elapsed == span(started, now),
{
    match now.checked_sub(started) {
        Some(d) => d,
        None => if now >= started {
            i64::MAX
        } else {
            i64::MIN
        },
    }
}

/// What the renderer sees of a session.
pub struct Progress<T> {
    epoch: u64,
    cost: T,
    elapsed: i64,
    paused: bool,
    examples: TrainingSet<T>,
}

/// The values of a snapshot.
pub struct ProgressView<T> {
    /// The number of the epoch that is trained, or trained next.
    pub epoch: u64,
    /// The cost that was recorded last.
    pub cost: T,
    /// The time spent training, in milliseconds.
    pub elapsed: i64,
    /// The worker waits for a signal.
    pub paused: bool,
    /// The examples that the session trains on.
    pub examples: Examples<T>,
}

impl<T> View for Progress<T> {
    type V = ProgressView<T>;

    closed spec fn view(&self) -> ProgressView<T> {
        ProgressView {
            epoch: self.epoch,
            cost: self.cost,
            elapsed: self.elapsed,
            paused: self.paused,
            examples: self.examples@,
        }
    }
}

impl<T: Scalar> Progress<T> {
    /// The examples of the snapshot are a valid training set.
    pub closed spec fn wf(&self) -> bool {
        self.examples.wf()
    }

    /// The first snapshot of a session: epoch 0, no time spent, not paused.
    pub fn new(cost: T, examples: TrainingSet<T>) -> (p: Progress<T>)
        requires
            examples.wf(),
        ensures
            p.wf(),
            p@ == (ProgressView {
                epoch: 0,
                cost,
                elapsed: 0,
                paused: false,
                examples: examples@,
            }),
    {
        Progress { epoch: 0, cost, elapsed: 0, paused: false, examples }
    }

    /// Starts a session: draws the weights and biases of `net` from the
    /// range from `low` to `high`, and returns the first snapshot, with the
    /// cost of the fresh network.
    ///
    /// A set that does not fit the network is refused, and the network left
    /// as it was.
    pub fn start<F: Fn() -> T>(
        net: &mut Network<T>,
        set: &TrainingSet<T>,
        low: T,
        high: T,
        draw: &F,
    ) -> (r: Result<Progress<T>, Error>)
        requires
            old(net).wf(),
            set.wf(),
            call_requires(*draw, ()),
        ensures
            final(net).wf(),
            final(net)@.architecture == old(net)@.architecture,
            r is Err <==> !set.fits(old(net)@),
            r matches Err(e) ==> e == Error::ConfigurationError && final(net)@ == old(net)@,
            r matches Ok(p) ==> {
                &&& p.wf()
                &&& p@.epoch == 0
                &&& p@.elapsed == 0
                &&& !p@.paused
                &&& p@.examples == set@
                &&& is_randomized(draw, low, high, final(net)@.weights, final(net)@.biases)
                &&& is_cost(final(net)@.weights, final(net)@.biases, set@, p@.cost)
            },
    {
        match set.check(net) {
            Err(e) => {
                return Err(e);
            },
            Ok(()) => {},
        }
        net.randomize(low, high, draw);
        match net.cost(set) {
            Ok(cost) => Ok(Progress::new(cost, set.duplicate())),
            Err(e) => Err(e),
        }
    }

    /// Brings the snapshot up to the state of the worker: its epoch counter
    /// and whether it is paused, and the time from `started` to `now`.
    pub fn publish(&mut self, worker: &Worker, started: i64, now: i64)
        requires
            old(self).wf(),
        ensures
            final(self).wf(),
            final(self)@ == (ProgressView {
                epoch: worker.epoch,
                elapsed: span(started, now),
                paused: worker.paused(),
                ..old(self)@
            }),
    {
        self.epoch = worker.epoch;
        self.paused = worker.paused();
        self.elapsed = elapsed_millis(started, now);
    }

    /// Records a new cost.
    pub fn record_cost(&mut self, cost: T)
        requires
            old(self).wf(),
        ensures
            final(self).wf(),
            final(self)@ == (ProgressView { cost, ..old(self)@ }),
    {
        self.cost = cost;
    }

    /// The number of the epoch that is trained, or trained next.
    pub fn epoch(&self) -> (n: u64)
        ensures
            n == self@.epoch,
    {
        self.epoch
    }

    /// The cost that was recorded last.
    pub fn cost(&self) -> (c: T)
        ensures
            c == self@.cost,
    {
        self.cost
    }

    /// The time spent training, in milliseconds.
    pub fn elapsed(&self) -> (ms: i64)
        ensures
            ms == self@.elapsed,
    {
        self.elapsed
    }

    /// Tells whether the worker waits for a signal.
    pub fn paused(&self) -> (p: bool)
        ensures
            p == self@.paused,
    {
        self.paused
    }

    /// The examples that the session trains on.
    pub fn examples(&self) -> (set: &TrainingSet<T>)
        requires
            self.wf(),
        ensures
            set.wf(),
            set@ == self@.examples,
    {
        &self.examples
    }
}

impl<T: Scalar> Network<T> {
    /// One epoch: the gradient by backpropagation, then one step of
    /// gradient descent along it.
    ///
    /// A gradient of another architecture is refused, and so is a set that
    /// does not fit the network; both networks are then left as they were.
    pub fn train_epoch(&mut self, gradient: &mut Network<T>, set: &TrainingSet<T>, rate: T) -> (r:
        Result<(), Error>)
        requires
            old(self).wf(),
            old(gradient).wf(),
            set.wf(),
        ensures
            final(self).wf(),
            final(gradient).wf(),
            final(self)@.architecture == old(self)@.architecture,
            final(gradient)@.architecture == old(gradient)@.architecture,
            r is Ok <==> old(gradient)@.architecture == old(self)@.architecture && set.fits(
                old(self)@,
            ),
            r matches Err(e) ==> {
                &&& e == (if old(gradient)@.architecture != old(self)@.architecture {
                    Error::DimensionMismatch
                } else {
                    Error::ConfigurationError
                })
                &&& final(self)@ == old(self)@
                &&& final(gradient)@ == old(gradient)@
            },
            r is Ok ==> {
                &&& is_gradient(
                    old(self)@.weights,
                    old(self)@.biases,
                    set@,
                    final(gradient)@.weights,
                    final(gradient)@.biases,
                )
                &&& is_descent(old(self)@, rate, final(gradient)@, final(self)@)
            },
    {
        match self.backprop(gradient, set) {
            Err(e) => {
                return Err(e);
            },
            Ok(()) => {},
        }
        let ghost scratch = self@;
        let moved = self.learn(gradient, rate);
        proof {
            assert(moved is Ok);
            assert(is_descent(scratch, rate, gradient@, self@));
        }
        Ok(())
    }
}

/// The owner's side of the channel: which signal to send next, and what
/// follows from trying to send it.
#[derive(Clone, Copy, Debug, PartialEq, Eq, Structural)]
pub struct Remote {
    /// The last signal that was delivered has paused the worker.
    pub paused: bool,
}

impl Remote {
    /// The signal that the pause key stands for: `Resume` where the worker
    /// was paused, else `Pause`.
    pub open spec fn spec_toggle(&self) -> Signal {
        if self.paused {
            Signal::Resume
        } else {
            Signal::Pause
        }
    }

    /// The remote after `signal` was delivered.
    pub open spec fn after(self, signal: Signal) -> Remote {
        Remote { paused: signal == Signal::Pause }
    }

    /// The remote of a fresh session: the worker is not paused.
    pub fn new() -> (r: Remote)
        ensures
            !r.paused,
    {
        Remote { paused: false }
    }

    /// The signal that the pause key stands for.
    #[verifier::when_used_as_spec(spec_toggle)]
    pub fn toggle(&self) -> (signal: Signal)
        ensures
            signal == self.toggle(),
    {
        if self.paused {
            Signal::Resume
        } else {
            Signal::Pause
        }
    }

    /// Takes note of an attempt to send `signal`.
    ///
    /// A signal that the channel did not take is a failure of the session,
    /// and changes nothing.
    pub fn sent(&mut self, signal: Signal, delivered: bool) -> (r: Result<(), Error>)
        ensures
            r is Ok <==> delivered,
            r matches Err(e) ==> e == Error::ConcurrencyFailure && *final(self) == *old(self),
            r is Ok ==> *final(self) == old(self).after(signal),
    {
        if !delivered {
            return Err(Error::ConcurrencyFailure);
        }
        self.paused = match signal {
            Signal::Pause => true,
            _ => false,
        };
        Ok(())
    }
}

} // verus!
