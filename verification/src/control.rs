//! The control protocol of a training session.
//!
//! A session has a worker, which trains, and an owner, which sends it
//! signals over a channel. The worker here is a state machine: it is told
//! what happened and answers what to do next. Whoever drives it performs the
//! actions: it looks into the channel, runs an epoch, or waits.
use crate::error::Error;
use vstd::prelude::*;

verus! {

/// What the owner of a session can ask of its worker.
#[derive(Clone, Copy, Debug, PartialEq, Eq, Structural)]
pub enum Signal {
    Pause,
    Resume,
    Stop,
}

/// Where a worker stands.
#[derive(Clone, Copy, Debug, PartialEq, Eq, Structural)]
pub enum Phase {
    /// The session is set up; nothing has been trained.
    Idle,
    /// The worker trains, one epoch after the other.
    Running,
    /// The worker waits for a signal.
    Paused,
    /// The worker has ended, for good.
    Stopped,
}

/// What happened since the worker was last asked.
#[derive(Clone, Copy, Debug, PartialEq, Eq, Structural)]
pub enum Event {
    /// The parameters are randomized and the first snapshot is published.
    Begin,
    /// A signal was taken from the channel, by a look or by a wait.
    Received(Signal),
    /// A look into the channel found no signal.
    Quiet,
    /// The channel holds no signal, and the owner has gone.
    Closed,
    /// One epoch was trained.
    Trained,
    /// A lock of the session could not be taken.
    Poisoned,
}

/// What the worker has to do next.
#[derive(Clone, Copy, Debug, PartialEq, Eq, Structural)]
pub enum Action {
    /// Randomize the parameters and publish the first snapshot.
    Prepare,
    /// Look into the channel, without waiting.
    Check,
    /// Publish the epoch counter and train one epoch.
    Train,
    /// Wait for the next signal.
    Wait,
    /// Leave the loop.
    Finish,
}

/// The state of a worker.
#[derive(Clone, Copy, Debug, PartialEq, Eq, Structural)]
pub struct Worker {
    /// Where the worker stands.
    pub phase: Phase,
    /// While running: the channel has been looked into since the last
    /// epoch, and the next epoch may be trained.
    pub ready: bool,
    /// The number of the epoch that is trained, or trained next. Epochs are
    /// counted from 0.
    pub epoch: u64,
    /// The number of the last epoch to train.
    pub limit: u64,
    /// The worker ended because the channel or a lock failed.
    pub failed: bool,
}

impl Worker {
    /// The state is one that a worker can reach.
    pub open spec fn wf(self) -> bool {
        &&& self.epoch <= self.limit
        &&& self.ready ==> self.phase == Phase::Running
        &&& self.failed ==> self.phase == Phase::Stopped
        &&& self.phase == Phase::Idle ==> self.epoch == 0
    }

    /// The worker in the same session, stopped.
    pub open spec fn stopped(self, failed: bool) -> Worker {
        Worker { phase: Phase::Stopped, ready: false, failed, ..self }
    }

    /// The state after `event`.
    ///
    /// A signal counts wherever a started worker receives it: `Pause` halts
    /// a running worker, `Resume` sets a paused one running, `Stop` ends
    /// either. A running worker trains on where the owner has gone; a paused
    /// one, which nobody can wake any more, ends in failure. A lock that
    /// failed ends every worker. Anything else that the state does not wait
    /// for changes nothing.
    pub open spec fn after(self, event: Event) -> Worker {
        match (self.phase, event) {
            (Phase::Stopped, _) => self,
            (_, Event::Poisoned) => self.stopped(true),
            (Phase::Idle, Event::Begin) => Worker { phase: Phase::Running, ..self },
            (Phase::Running, Event::Received(Signal::Pause)) => Worker {
                phase: Phase::Paused,
                ready: false,
                ..self
            },
            (Phase::Running, Event::Received(Signal::Stop)) => self.stopped(false),
            (Phase::Running, Event::Received(Signal::Resume)) => Worker { ready: true, ..self },
            (Phase::Running, Event::Quiet) => Worker { ready: true, ..self },
            (Phase::Running, Event::Closed) => Worker { ready: true, ..self },
            (Phase::Running, Event::Trained) => if !self.ready {
                self
            } else if self.epoch < self.limit {
                Worker { ready: false, epoch: (self.epoch + 1) as u64, ..self }
            } else {
                self.stopped(false)
            },
            (Phase::Paused, Event::Received(Signal::Resume)) => Worker {
                phase: Phase::Running,
                ready: true,
                ..self
            },
            (Phase::Paused, Event::Received(Signal::Stop)) => self.stopped(false),
            (Phase::Paused, Event::Closed) => self.stopped(true),
            _ => self,
        }
    }

    /// What a worker in this state has to do next.
    pub open spec fn pending(&self) -> Action {
        match self.phase {
            Phase::Idle => Action::Prepare,
            Phase::Running => if self.ready {
                Action::Train
            } else {
                Action::Check
            },
            Phase::Paused => Action::Wait,
            Phase::Stopped => Action::Finish,
        }
    }

    /// The state after all of `events`, one after the other.
    pub open spec fn after_all(self, events: Seq<Event>) -> Worker
        decreases events.len(),
    {
        if events.len() == 0 {
            self
        } else {
            self.after_all(events.drop_last()).after(events.last())
        }
    }

    /// The flag that a snapshot shows: the worker waits for a signal.
    pub open spec fn spec_paused(&self) -> bool {
        self.phase == Phase::Paused
    }

    /// How the session has ended, or `Ok` where it has not ended or has
    /// ended in order.
    pub open spec fn spec_outcome(&self) -> Result<(), Error> {
        if self.failed {
            Err(Error::ConcurrencyFailure)
        } else {
            Ok(())
        }
    }

    /// A worker for a session that trains the epochs from 0 to `limit`.
    pub fn new(limit: u64) -> (w: Worker)
        ensures
            w == (Worker { phase: Phase::Idle, ready: false, epoch: 0, limit, failed: false }),
            w.wf(),
    {
        Worker { phase: Phase::Idle, ready: false, epoch: 0, limit, failed: false }
    }

    /// Takes note of `event` and tells what to do next.
    pub fn advance(&mut self, event: Event) -> (action: Action)
        ensures
            *final(self) == old(self).after(event),
            action == final(self).pending(),
            old(self).wf() ==> final(self).wf(),
    {
        match self.phase {
            Phase::Stopped => {},
            Phase::Idle => match event {
                Event::Poisoned => {
                    self.stop(true);
                },
                Event::Begin => {
                    self.phase = Phase::Running;
                },
                _ => {},
            },
            Phase::Running => match event {
                Event::Poisoned => {
                    self.stop(true);
                },
                Event::Received(Signal::Pause) => {
                    self.phase = Phase::Paused;
                    self.ready = false;
                },
                Event::Received(Signal::Stop) => {
                    self.stop(false);
                },
                Event::Received(Signal::Resume) | Event::Quiet | Event::Closed => {
                    self.ready = true;
                },
                Event::Trained => {
                    if self.ready {
                        if self.epoch < self.limit {
                            self.ready = false;
                            self.epoch = self.epoch + 1;
                        } else {
                            self.stop(false);
                        }
                    }
                },
                Event::Begin => {},
            },
            Phase::Paused => match event {
                Event::Poisoned | Event::Closed => {
                    self.stop(true);
                },
                Event::Received(Signal::Resume) => {
                    self.phase = Phase::Running;
                    self.ready = true;
                },
                Event::Received(Signal::Stop) => {
                    self.stop(false);
                },
                _ => {},
            },
        }
        self.action()
    }

    /// Ends the worker.
    fn stop(&mut self, failed: bool)
        ensures
            *final(self) == old(self).stopped(failed),
    {
        self.phase = Phase::Stopped;
        self.ready = false;
        self.failed = failed;
    }

    /// What the worker has to do next.
    #[verifier::when_used_as_spec(pending)]
    pub fn action(&self) -> (action: Action)
        ensures
            action == self.pending(),
    {
        match self.phase {
            Phase::Idle => Action::Prepare,
            Phase::Running => if self.ready {
                Action::Train
            } else {
                Action::Check
            },
            Phase::Paused => Action::Wait,
            Phase::Stopped => Action::Finish,
        }
    }

    /// Tells whether the worker waits for a signal.
    #[verifier::when_used_as_spec(spec_paused)]
    pub fn paused(&self) -> (p: bool)
        ensures
            p == self.spec_paused(),
    {
        match self.phase {
            Phase::Paused => true,
            _ => false,
        }
    }

    /// How the session has ended: with a failure of the channel or a lock,
    /// or not so.
    #[verifier::when_used_as_spec(spec_outcome)]
    pub fn outcome(&self) -> (r: Result<(), Error>)
        ensures
            r == self.spec_outcome(),
    {
        if self.failed {
            Err(Error::ConcurrencyFailure)
        } else {
            Ok(())
        }
    }
}

/// Once a worker has stopped, nothing moves it: it stays stopped, and its
/// epoch counter stays where it is, whatever happens.
pub proof fn lemma_stopped_is_final(w: Worker, events: Seq<Event>)
    requires
        w.phase == Phase::Stopped,
    ensures
        w.after_all(events) == w,
    decreases events.len(),
{
    if events.len() > 0 {
        lemma_stopped_is_final(w, events.drop_last());
    }
}

/// While a worker is paused, its epoch counter stands still until it
/// receives a `Resume`: after any events without one the counter is what it
/// was, and the worker is still paused, or has stopped.
pub proof fn lemma_pause_holds(w: Worker, events: Seq<Event>)
    requires
        w.phase == Phase::Paused,
        forall|i: int| 0 <= i < events.len() ==> events[i] != Event::Received(Signal::Resume),
    ensures
        w.after_all(events).epoch == w.epoch,
        w.after_all(events).phase == Phase::Paused || w.after_all(events).phase == Phase::Stopped,
    decreases events.len(),
{
    if events.len() > 0 {
        lemma_pause_holds(w, events.drop_last());
    }
}

/// A `Pause` that a running worker receives pauses it before another epoch
/// begins.
pub proof fn lemma_pause_takes_effect(w: Worker)
    requires
        w.phase == Phase::Running,
    ensures
        w.after(Event::Received(Signal::Pause)).phase == Phase::Paused,
        w.after(Event::Received(Signal::Pause)).epoch == w.epoch,
        w.after(Event::Received(Signal::Pause)).pending() == Action::Wait,
{
}

/// A `Resume` that a paused worker receives sets it running again, with its
/// epoch counter where it was.
pub proof fn lemma_resume_takes_effect(w: Worker)
    requires
        w.phase == Phase::Paused,
    ensures
        w.after(Event::Received(Signal::Resume)).phase == Phase::Running,
        w.after(Event::Received(Signal::Resume)).epoch == w.epoch,
        w.after(Event::Received(Signal::Resume)).pending() == Action::Train,
{
}

/// A `Stop` that a started worker receives ends it, whether it runs or is
/// paused, and leaves its epoch counter where it is: with what holds of a
/// stopped worker, for good.
pub proof fn lemma_stop_takes_effect(w: Worker, later: Seq<Event>)
    requires
        w.phase == Phase::Running || w.phase == Phase::Paused,
    ensures
        w.after(Event::Received(Signal::Stop)).phase == Phase::Stopped,
        w.after(Event::Received(Signal::Stop)).epoch == w.epoch,
        w.after(Event::Received(Signal::Stop)).after_all(later).epoch == w.epoch,
        w.after(Event::Received(Signal::Stop)).after_all(later).phase == Phase::Stopped,
{
    lemma_stopped_is_final(w.after(Event::Received(Signal::Stop)), later);
}

/// A worker trains at most one epoch before it turns to the channel again:
/// while nothing comes from the channel, its counter grows by one at most.
pub proof fn lemma_one_epoch_between_checks(w: Worker, events: Seq<Event>)
    requires
        w.wf(),
        forall|i: int|
            0 <= i < events.len() ==> (events[i] == Event::Begin || events[i] == Event::Trained
                || events[i] == Event::Poisoned),
    ensures
        w.after_all(events).wf(),
        w.epoch <= w.after_all(events).epoch <= w.epoch + 1,
        w.after_all(events).epoch == w.epoch + 1 ==> w.ready,
        w.after_all(events).ready ==> w.ready && w.after_all(events).epoch == w.epoch,
    decreases events.len(),
{
    if events.len() > 0 {
        lemma_one_epoch_between_checks(w, events.drop_last());
    }
}

/// The epoch counter never falls and never passes the limit, and a valid
/// worker stays valid.
pub proof fn lemma_epoch_never_falls(w: Worker, events: Seq<Event>)
    requires
        w.wf(),
    ensures
        w.after_all(events).wf(),
        w.epoch <= w.after_all(events).epoch <= w.limit,
        w.after_all(events).limit == w.limit,
    decreases events.len(),
{
    if events.len() > 0 {
        lemma_epoch_never_falls(w, events.drop_last());
    }
}

} // verus!
