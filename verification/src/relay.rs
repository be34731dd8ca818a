//! The copy phase of a session: two directions that end independently, a
//! half-close when the first one ends, and an idle timeout.

use vstd::prelude::*;

verus! {

/// One of the two copy operations of a relay.
#[derive(Clone, Copy, Debug, PartialEq, Eq, Structural)]
pub enum Direction {
    ClientToServer,
    ServerToClient,
}

/// One of the two sockets of a relay.
#[derive(Clone, Copy, Debug, PartialEq, Eq, Structural)]
pub enum Side {
    Client,
    Server,
}

/// How a relay came to its end.
#[derive(Clone, Copy, Debug, PartialEq, Eq, Structural)]
pub enum Outcome {
    /// Both directions reached their end.
    Completed,
    /// Nothing moved for too long.
    TimedOut,
}

/// What happened on the relay's sockets.
#[derive(Clone, Copy, Debug, PartialEq, Eq, Structural)]
pub enum RelayEvent {
    /// So many bytes were copied in a direction.
    Copied(Direction, u64),
    /// The source of a direction reached its end or failed.
    Ended(Direction),
    /// No byte moved in either direction for the idle interval.
    IdleTimeout,
}

/// What the caller does next.
#[derive(Clone, Copy, Debug, PartialEq, Eq, Structural)]
pub enum RelayAction {
    /// Keep copying.
    Continue,
    /// Shut one socket down for writing and keep copying the other way.
    ShutdownWrite(Side),
    /// Close both sockets: the relay is over.
    Finish(Outcome),
}

/// The state of a relay: which directions still run, how many bytes each
/// has carried, and whether the idle timeout struck.
#[derive(Clone, Copy, Debug, PartialEq, Eq, Structural)]
pub struct RelayState {
    pub upstream_open: bool,
    pub downstream_open: bool,
    pub upstream_bytes: u64,
    pub downstream_bytes: u64,
    pub timed_out: bool,
}

/// The socket that a direction writes to.
pub open spec fn destination(direction: Direction) -> Side {
    match direction {
        Direction::ClientToServer => Side::Server,
        Direction::ServerToClient => Side::Client,
    }
}

/// A sum that stops at the largest `u64`.
pub open spec fn capped_sum(a: u64, b: u64) -> u64 {
    if a + b > u64::MAX {
        u64::MAX
    } else {
        (a + b) as u64
    }
}

impl RelayState {
    /// Whether a direction still runs.
    pub open spec fn is_open(self, direction: Direction) -> bool {
        match direction {
            Direction::ClientToServer => self.upstream_open,
            Direction::ServerToClient => self.downstream_open,
        }
    }

    /// A relay is finished when both directions have ended.
    pub open spec fn finished(self) -> bool {
        !self.upstream_open && !self.downstream_open
    }

    /// How a finished relay came to its end.
    pub open spec fn outcome(self) -> Outcome {
        if self.timed_out {
            Outcome::TimedOut
        } else {
            Outcome::Completed
        }
    }

    /// The state with one direction ended.
    pub open spec fn end(self, direction: Direction) -> RelayState {
        match direction {
            Direction::ClientToServer => RelayState { upstream_open: false, ..self },
            Direction::ServerToClient => RelayState { downstream_open: false, ..self },
        }
    }

    /// The state with `n` more bytes counted in a direction.
    pub open spec fn count(self, direction: Direction, n: u64) -> RelayState {
        match direction {
            Direction::ClientToServer => RelayState {
                upstream_bytes: capped_sum(self.upstream_bytes, n),
                ..self
            },
            Direction::ServerToClient => RelayState {
                downstream_bytes: capped_sum(self.downstream_bytes, n),
                ..self
            },
        }
    }

    /// The next state and the action for an event. A finished relay stays as
    /// it is. Bytes are counted for a direction that runs. The first
    /// direction to end has its destination shut down for writing; the
    /// second one finishes the relay. The idle timeout ends both at once.
    pub open spec fn step_of(self, event: RelayEvent) -> (RelayState, RelayAction) {
        if self.finished() {
            (self, RelayAction::Finish(self.outcome()))
        } else {
            match event {
                RelayEvent::Copied(d, n) => if self.is_open(d) {
                    (self.count(d, n), RelayAction::Continue)
                } else {
                    (self, RelayAction::Continue)
                },
                RelayEvent::Ended(d) => if !self.is_open(d) {
                    (self, RelayAction::Continue)
                } else if self.end(d).finished() {
                    (self.end(d), RelayAction::Finish(self.outcome()))
                } else {
                    (self.end(d), RelayAction::ShutdownWrite(destination(d)))
                },
                RelayEvent::IdleTimeout => (
                    RelayState {
                        upstream_open: false,
                        downstream_open: false,
                        timed_out: true,
                        ..self
                    },
                    RelayAction::Finish(Outcome::TimedOut),
                ),
            }
        }
    }

    /// A relay at its start: both directions run and nothing was carried.
    pub fn new() -> (r: RelayState)
        ensures
            r == (RelayState {
                upstream_open: true,
                downstream_open: true,
                upstream_bytes: 0,
                downstream_bytes: 0,
                timed_out: false,
            }),
    {
        RelayState {
            upstream_open: true,
            downstream_open: true,
            upstream_bytes: 0,
            downstream_bytes: 0,
            timed_out: false,
        }
    }

    /// Whether both directions have ended.
    pub fn is_finished(&self) -> (r: bool)
        ensures
            r == self.finished(),
    {
        !self.upstream_open && !self.downstream_open
    }

    /// How the relay ends if it ends now.
    pub fn how_ended(&self) -> (r: Outcome)
        ensures
            r == self.outcome(),
    {
        if self.timed_out {
            Outcome::TimedOut
        } else {
            Outcome::Completed
        }
    }

    /// The next state of the relay and the action that the caller performs.
    pub fn step(self, event: RelayEvent) -> (r: (RelayState, RelayAction))
        ensures
            r == self.step_of(event),
    {
        if self.is_finished() {
            return (self, RelayAction::Finish(self.how_ended()));
        }
        match event {
            RelayEvent::Copied(Direction::ClientToServer, n) => {
                if self.upstream_open {
                    let total = self.upstream_bytes.saturating_add(n);
                    (RelayState { upstream_bytes: total, ..self }, RelayAction::Continue)
                } else {
                    (self, RelayAction::Continue)
                }
            },
            RelayEvent::Copied(Direction::ServerToClient, n) => {
                if self.downstream_open {
                    let total = self.downstream_bytes.saturating_add(n);
                    (RelayState { downstream_bytes: total, ..self }, RelayAction::Continue)
                } else {
                    (self, RelayAction::Continue)
                }
            },
            RelayEvent::Ended(Direction::ClientToServer) => {
                if !self.upstream_open {
                    (self, RelayAction::Continue)
                } else {
                    let mut next = self;
                    next.upstream_open = false;
                    if next.downstream_open {
                        (next, RelayAction::ShutdownWrite(Side::Server))
                    } else {
                        (next, RelayAction::Finish(self.how_ended()))
                    }
                }
            },
            RelayEvent::Ended(Direction::ServerToClient) => {
                if !self.downstream_open {
                    (self, RelayAction::Continue)
                } else {
                    let mut next = self;
                    next.downstream_open = false;
                    if next.upstream_open {
                        (next, RelayAction::ShutdownWrite(Side::Client))
                    } else {
                        (next, RelayAction::Finish(self.how_ended()))
                    }
                }
            },
            RelayEvent::IdleTimeout => {
                let mut next = self;
                next.upstream_open = false;
                next.downstream_open = false;
                next.timed_out = true;
                (next, RelayAction::Finish(Outcome::TimedOut))
            },
        }
    }
}

/// The caller is told to finish exactly when the relay is finished after
/// the step, and a finished relay never runs again.
pub proof fn lemma_finish_iff_finished(state: RelayState, event: RelayEvent)
    ensures
        (state.step_of(event).1 is Finish) == state.step_of(event).0.finished(),
        state.finished() ==> state.step_of(event).0 == state,
{
}

/// When one direction ends while the other runs, only the destination of
/// the ended direction is shut down for writing, and the other direction
/// keeps running with its count untouched.
pub proof fn lemma_half_close(state: RelayState, ended: Direction, other: Direction)
    requires
        state.is_open(ended),
        state.is_open(other),
        ended != other,
    ensures
        state.step_of(RelayEvent::Ended(ended)).1 == RelayAction::ShutdownWrite(
            destination(ended),
        ),
        state.step_of(RelayEvent::Ended(ended)).0.is_open(other),
        !state.step_of(RelayEvent::Ended(ended)).0.is_open(ended),
        state.step_of(RelayEvent::Ended(ended)).0.upstream_bytes == state.upstream_bytes,
        state.step_of(RelayEvent::Ended(ended)).0.downstream_bytes == state.downstream_bytes,
{
}

/// No step reopens a direction or lowers a byte count.
pub proof fn lemma_monotone(state: RelayState, event: RelayEvent)
    ensures
        state.step_of(event).0.upstream_open ==> state.upstream_open,
        state.step_of(event).0.downstream_open ==> state.downstream_open,
        state.step_of(event).0.upstream_bytes >= state.upstream_bytes,
        state.step_of(event).0.downstream_bytes >= state.downstream_bytes,
        state.timed_out ==> state.step_of(event).0.timed_out,
{
}

} // verus!
