//! The session with one sensor: what is done next, given what just happened.
//!
//! The session does no work itself. It hands out one request at a time (an
//! [`Action`]) and is told how the request went (an [`Event`]). The caller
//! talks to the sensor and owns the socket.
//!
//! A session starts disconnected, with the request to ask the sensor whether
//! it is connected. While the answer is no, a connection is attempted and the
//! question asked again, without pause and without end. When the answer is
//! yes, the marker is sent, the heart-rate notifications are subscribed to,
//! and the samples are forwarded as they come, until the stream closes.
//!
//! Faults are not all alike. A missing Bluetooth adapter ends the session at
//! once, as a normal exit. Any other failure to connect is followed by
//! another attempt. A marker that cannot be sent ends the session as a
//! failure. A failed subscription changes nothing: the session listens all
//! the same. A sample that cannot be sent is lost, and the session goes on.

use vstd::prelude::*;

use crate::endpoint::Endpoint;
use crate::handler::{marker_datagram, sample_datagram, Datagram, DatagramView, Handler};

verus! {

/// Where a session stands.
#[derive(Clone, Copy, Debug, PartialEq, Eq, Structural)]
pub enum Phase {
    /// No connection has been seen. The sensor is being asked for its state.
    Disconnected,
    /// A connection is being attempted.
    Connecting,
    /// The sensor is connected. The marker is being sent.
    Connected,
    /// The marker is out. The subscription is being requested.
    Subscribed,
    /// The notifications are being listened to, and samples forwarded.
    Streaming,
    /// The session is over.
    Terminated,
}

/// How an attempt to connect went.
#[derive(Clone, Copy, Debug, PartialEq, Eq, Structural)]
pub enum ConnectOutcome {
    /// The attempt returned without an error.
    Established,
    /// The host has no Bluetooth adapter.
    NoAdapter,
    /// The attempt failed for any other reason.
    Failed,
}

/// What the caller reports to the session.
#[derive(Clone, Copy, Debug, PartialEq, Eq, Structural)]
pub enum Event {
    /// The sensor said whether it is connected.
    Status(bool),
    /// An attempt to connect has returned.
    Connect(ConnectOutcome),
    /// The socket was bound and the marker sent (`true`), or one of the two
    /// failed (`false`).
    Announced(bool),
    /// The request for notifications has returned, well (`true`) or not.
    Subscribed(bool),
    /// The sensor delivered a heart-rate sample.
    Sample(u8),
    /// A sample datagram was sent (`true`), or could not be (`false`).
    Sent(bool),
    /// The stream of notifications has ended.
    Closed,
}

/// How the process is to end.
#[derive(Clone, Copy, Debug, PartialEq, Eq, Structural)]
pub enum Exit {
    /// A normal exit.
    Clean,
    /// An abnormal exit.
    Failure,
}

/// What the session asks of the caller.
#[derive(Clone, Debug, PartialEq, Eq)]
pub enum Action {
    /// Ask the sensor whether it is connected; report `Event::Status`.
    Query,
    /// Attempt to connect; report `Event::Connect`.
    Connect,
    /// Bind the socket to `local` and send `marker` from it; report
    /// `Event::Announced`.
    Announce { local: Endpoint, marker: Datagram },
    /// Request heart-rate notifications; report `Event::Subscribed`.
    Subscribe,
    /// Listen to the notifications; report each sample as `Event::Sample`,
    /// and the end of the stream as `Event::Closed`.
    Listen,
    /// Send this datagram from the socket; report `Event::Sent`.
    Forward(Datagram),
    /// End the process.
    Exit(Exit),
    /// Nothing is asked.
    Wait,
}

/// What an action says, apart from how it is held in memory.
pub enum ActionView {
    Query,
    Connect,
    Announce { local: Endpoint, marker: DatagramView },
    Subscribe,
    Listen,
    Forward(DatagramView),
    Exit(Exit),
    Wait,
}

impl View for Action {
    type V = ActionView;

    open spec fn view(&self) -> ActionView {
        match *self {
            Action::Query => ActionView::Query,
            Action::Connect => ActionView::Connect,
            Action::Announce { local, marker } => ActionView::Announce { local, marker: marker@ },
            Action::Subscribe => ActionView::Subscribe,
            Action::Listen => ActionView::Listen,
            Action::Forward(datagram) => ActionView::Forward(datagram@),
            Action::Exit(exit) => ActionView::Exit(exit),
            Action::Wait => ActionView::Wait,
        }
    }
}

/// What a list of actions says, action by action.
pub open spec fn views(actions: Seq<Action>) -> Seq<ActionView> {
    Seq::new(actions.len(), |i: int| actions[i]@)
}

/// A session with one sensor.
#[derive(Clone, Copy, Debug, PartialEq, Eq)]
pub struct Session {
    pub phase: Phase,
    /// The endpoint to which the socket is bound.
    pub host: Endpoint,
    /// Makes the datagrams, all for one receiver.
    pub handler: Handler,
}

impl Session {
    /// This session, moved to `phase`.
    pub open spec fn at(self, phase: Phase) -> Session {
        Session { phase, host: self.host, handler: self.handler }
    }

    /// The receiver of every datagram of this session.
    pub open spec fn client(self) -> Endpoint {
        self.handler.to_addr
    }

    /// The session after `event`, and the request that answers it.
    ///
    /// An event that the phase does not wait for is passed over: the session
    /// stays as it is and asks nothing.
    pub open spec fn next(self, event: Event) -> (Session, ActionView) {
        match (self.phase, event) {
            (Phase::Terminated, _) => (self, ActionView::Wait),
            (_, Event::Connect(ConnectOutcome::NoAdapter)) => (
                self.at(Phase::Terminated),
                ActionView::Exit(Exit::Clean),
            ),
            (Phase::Disconnected, Event::Status(false)) => (
                self.at(Phase::Connecting),
                ActionView::Connect,
            ),
            (Phase::Disconnected, Event::Status(true)) => (
                self.at(Phase::Connected),
                ActionView::Announce { local: self.host, marker: marker_datagram(self.client()) },
            ),
            (Phase::Connecting, Event::Connect(_)) => (
                self.at(Phase::Disconnected),
                ActionView::Query,
            ),
            (Phase::Connected, Event::Announced(true)) => (
                self.at(Phase::Subscribed),
                ActionView::Subscribe,
            ),
            (Phase::Connected, Event::Announced(false)) => (
                self.at(Phase::Terminated),
                ActionView::Exit(Exit::Failure),
            ),
            (Phase::Subscribed, Event::Subscribed(_)) => (
                self.at(Phase::Streaming),
                ActionView::Listen,
            ),
            (Phase::Streaming, Event::Sample(bpm)) => (
                self,
                ActionView::Forward(sample_datagram(self.client(), bpm)),
            ),
            (Phase::Streaming, Event::Closed) => (
                self.at(Phase::Terminated),
                ActionView::Exit(Exit::Clean),
            ),
            _ => (self, ActionView::Wait),
        }
    }

    /// The session after a run of events, and the requests that answered
    /// them, one for each event.
    pub open spec fn run(self, events: Seq<Event>) -> (Session, Seq<ActionView>)
        decreases events.len(),
    {
        if events.len() == 0 {
            (self, Seq::empty())
        } else {
            let (before, actions) = self.run(events.drop_last());
            let (after, action) = before.next(events.last());
            (after, actions.push(action))
        }
    }

    /// A new session, disconnected, and its first request: to ask the sensor
    /// whether it is connected.
    pub fn start(host: Endpoint, client: Endpoint) -> (r: (Session, Action))
        ensures
            r.0 == (Session { phase: Phase::Disconnected, host, handler: Handler { to_addr: client } }),
            r.1@ == ActionView::Query,
    {
        (Session { phase: Phase::Disconnected, host, handler: Handler::new(client) }, Action::Query)
    }

    /// Takes one event and returns the request that answers it.
    pub fn step(&mut self, event: Event) -> (action: Action)
        ensures
            (*final(self), action@) == old(self).next(event),
    {
        match (self.phase, event) {
            (Phase::Terminated, _) => Action::Wait,
            (_, Event::Connect(ConnectOutcome::NoAdapter)) => {
                self.phase = Phase::Terminated;
                Action::Exit(Exit::Clean)
            },
            (Phase::Disconnected, Event::Status(false)) => {
                self.phase = Phase::Connecting;
                Action::Connect
            },
            (Phase::Disconnected, Event::Status(true)) => {
                match self.handler.marker() {
                    Ok(marker) => {
                        self.phase = Phase::Connected;
                        Action::Announce { local: self.host, marker }
                    },
                    // A marker that cannot be made is a marker that cannot be sent.
                    Err(_) => {
                        self.phase = Phase::Terminated;
                        Action::Exit(Exit::Failure)
                    },
                }
            },
            (Phase::Connecting, Event::Connect(_)) => {
                self.phase = Phase::Disconnected;
                Action::Query
            },
            (Phase::Connected, Event::Announced(true)) => {
                self.phase = Phase::Subscribed;
                Action::Subscribe
            },
            (Phase::Connected, Event::Announced(false)) => {
                self.phase = Phase::Terminated;
                Action::Exit(Exit::Failure)
            },
            (Phase::Subscribed, Event::Subscribed(_)) => {
                self.phase = Phase::Streaming;
                Action::Listen
            },
            (Phase::Streaming, Event::Sample(bpm)) => {
                match self.handler.heart_rate_update(bpm) {
                    Ok(datagram) => Action::Forward(datagram),
                    // A sample that cannot be made into a datagram is lost.
                    Err(_) => Action::Wait,
                }
            },
            (Phase::Streaming, Event::Closed) => {
                self.phase = Phase::Terminated;
                Action::Exit(Exit::Clean)
            },
            _ => Action::Wait,
        }
    }

    /// Takes a run of events, one after the other, and returns the requests
    /// that answered them.
    pub fn replay(&mut self, events: &Vec<Event>) -> (actions: Vec<Action>)
        ensures
            (*final(self), views(actions@)) == old(self).run(events@),
    {
        let mut actions: Vec<Action> = Vec::new();
        let mut i: usize = 0;
        assert(events@.subrange(0, 0) =~= Seq::<Event>::empty());
        assert(views(actions@) =~= Seq::<ActionView>::empty());
        while i < events.len()
            invariant
                i <= events.len(),
                (*self, views(actions@)) == old(self).run(events@.subrange(0, i as int)),
            decreases events.len() - i,
        {
            let ghost done = views(actions@);
            let action = self.step(events[i]);
            actions.push(action);
            i += 1;
            proof {
                let prefix = events@.subrange(0, i as int);
                assert(prefix.drop_last() =~= events@.subrange(0, i - 1));
                assert(views(actions@) =~= done.push(action@));
            }
        }
        assert(events@.subrange(0, i as int) =~= events@);
        actions
    }
}

} // verus!
