//! What holds of every run of a session, whatever the caller reports.

use vstd::prelude::*;

use crate::handler::{marker_datagram, sample_datagram, DatagramView};
use crate::session::{ActionView, ConnectOutcome, Event, Exit, Phase, Session};

verus! {

/// No connection has been seen yet.
pub open spec fn before_connection(phase: Phase) -> bool {
    phase is Disconnected || phase is Connecting
}

/// A connection has been seen, and the session is not over.
pub open spec fn connected(phase: Phase) -> bool {
    phase is Connected || phase is Subscribed || phase is Streaming
}

/// The events of `rounds` attempts to connect that all fail: each time the
/// sensor says that it is not connected, and the attempt fails.
pub open spec fn failed_attempts(rounds: nat) -> Seq<Event>
    decreases rounds,
{
    if rounds == 0 {
        Seq::empty()
    } else {
        failed_attempts((rounds - 1) as nat) + seq![
            Event::Status(false),
            Event::Connect(ConnectOutcome::Failed),
        ]
    }
}

/// The requests of `rounds` attempts to connect: each time to connect, and
/// then to ask again.
pub open spec fn attempts(rounds: nat) -> Seq<ActionView>
    decreases rounds,
{
    if rounds == 0 {
        Seq::empty()
    } else {
        attempts((rounds - 1) as nat) + seq![ActionView::Connect, ActionView::Query]
    }
}

/// The samples among `events`, in their order.
pub open spec fn delivered(events: Seq<Event>) -> Seq<u8>
    decreases events.len(),
{
    if events.len() == 0 {
        Seq::empty()
    } else {
        match events.last() {
            Event::Sample(bpm) => delivered(events.drop_last()).push(bpm),
            _ => delivered(events.drop_last()),
        }
    }
}

/// The datagrams that `actions` ask to forward, in their order.
pub open spec fn forwarded(actions: Seq<ActionView>) -> Seq<DatagramView>
    decreases actions.len(),
{
    if actions.len() == 0 {
        Seq::empty()
    } else {
        match actions.last() {
            ActionView::Forward(datagram) => forwarded(actions.drop_last()).push(datagram),
            _ => forwarded(actions.drop_last()),
        }
    }
}

/// A run of one more event is the run so far, and then one step.
pub proof fn lemma_run_push(s: Session, events: Seq<Event>, event: Event)
    ensures
        s.run(events.push(event)) == (
            s.run(events).0.next(event).0,
            s.run(events).1.push(s.run(events).0.next(event).1),
        ),
{
    assert(events.push(event).drop_last() =~= events);
}

/// A run can be taken in two parts: the second part starts where the first
/// one ended, and the requests follow one another.
pub proof fn lemma_run_concat(s: Session, first: Seq<Event>, second: Seq<Event>)
    ensures
        s.run(first + second) == (
            s.run(first).0.run(second).0,
            s.run(first).1 + s.run(first).0.run(second).1,
        ),
    decreases second.len(),
{
    let mid = s.run(first).0;
    if second.len() == 0 {
        assert(first + second =~= first);
        assert(s.run(first).1 + mid.run(second).1 =~= s.run(first).1);
    } else {
        lemma_run_concat(s, first, second.drop_last());
        assert((first + second).drop_last() =~= first + second.drop_last());
        assert((first + second).last() == second.last());
        let before = mid.run(second.drop_last());
        assert(s.run(first).1 + before.1.push(before.0.next(second.last()).1) =~= (s.run(first).1
            + before.1).push(before.0.next(second.last()).1));
    }
}

/// Every event is answered by one request, and no event changes the
/// endpoints of a session.
pub proof fn lemma_run_keeps_endpoints(s: Session, events: Seq<Event>)
    ensures
        s.run(events).1.len() == events.len(),
        s.run(events).0.host == s.host,
        s.run(events).0.handler == s.handler,
    decreases events.len(),
{
    if events.len() > 0 {
        lemma_run_keeps_endpoints(s, events.drop_last());
    }
}

/// The marker goes out once, and before every sample.
///
/// In every run of a session that starts disconnected: at most one request
/// announces the bridge; it asks to bind the socket to the session's host and
/// to send the marker to the session's client; every request to forward a
/// sample comes after it; and it has been made as soon as the session is
/// connected.
pub proof fn lemma_marker_once_and_first(s: Session, events: Seq<Event>)
    requires
        s.phase == Phase::Disconnected,
    ensures
        ({
            let (end, actions) = s.run(events);
            &&& forall|i: int, j: int|
                0 <= i < actions.len() && 0 <= j < actions.len() && #[trigger] actions[i] is Announce
                    && #[trigger] actions[j] is Announce ==> i == j
            &&& forall|i: int|
                0 <= i < actions.len() && #[trigger] actions[i] is Announce ==> actions[i] == (
                ActionView::Announce { local: s.host, marker: marker_datagram(s.client()) })
            &&& forall|i: int|
                0 <= i < actions.len() && #[trigger] actions[i] is Forward ==> exists|j: int|
                    0 <= j < i && #[trigger] actions[j] is Announce
            &&& before_connection(end.phase) ==> forall|i: int|
                0 <= i < actions.len() ==> !(#[trigger] actions[i] is Announce)
            &&& connected(end.phase) ==> exists|j: int|
                0 <= j < actions.len() && #[trigger] actions[j] is Announce
        }),
    decreases events.len(),
{
    if events.len() > 0 {
        let (before, done) = s.run(events.drop_last());
        let (end, actions) = s.run(events);
        lemma_marker_once_and_first(s, events.drop_last());
        lemma_run_keeps_endpoints(s, events.drop_last());
        let last = done.len() as int;
        assert(actions == done.push(before.next(events.last()).1));
        assert(forall|i: int| 0 <= i < last ==> actions[i] == done[i]);
        if actions[last] is Forward {
            assert(before.phase == Phase::Streaming);
            let j = choose|j: int| 0 <= j < done.len() && #[trigger] done[j] is Announce;
            assert(actions[j] is Announce);
        }
        if connected(end.phase) {
            if connected(before.phase) {
                let j = choose|j: int| 0 <= j < done.len() && #[trigger] done[j] is Announce;
                assert(actions[j] is Announce);
            } else {
                assert(actions[last] is Announce);
            }
        }
        assert forall|i: int|
            0 <= i < actions.len() && #[trigger] actions[i] is Forward implies exists|j: int|
            0 <= j < i && #[trigger] actions[j] is Announce by {
            if i < last {
                let j = choose|j: int| 0 <= j < i && #[trigger] done[j] is Announce;
                assert(actions[j] is Announce);
            }
        }
    }
}

/// Samples are forwarded one for one and in their order.
///
/// While a session is streaming, a run of samples leaves it streaming, and
/// is answered sample by sample with the request to forward the datagram that
/// carries that sample to the session's client.
pub proof fn lemma_samples_forwarded_in_order(s: Session, samples: Seq<u8>)
    requires
        s.phase == Phase::Streaming,
    ensures
        s.run(samples.map_values(|bpm: u8| Event::Sample(bpm))) == (
            s,
            samples.map_values(|bpm: u8| ActionView::Forward(sample_datagram(s.client(), bpm))),
        ),
    decreases samples.len(),
{
    let events = samples.map_values(|bpm: u8| Event::Sample(bpm));
    let requests = samples.map_values(
        |bpm: u8| ActionView::Forward(sample_datagram(s.client(), bpm)),
    );
    if samples.len() == 0 {
        assert(s.run(events).1 =~= requests);
    } else {
        lemma_samples_forwarded_in_order(s, samples.drop_last());
        assert(events.drop_last() =~= samples.drop_last().map_values(
            |bpm: u8| Event::Sample(bpm),
        ));
        assert(s.run(events).1 =~= requests);
    }
}

/// No sample is lost, doubled or moved while the stream is open.
///
/// While a session is streaming, in a run of events in which the stream does
/// not close, whatever else is reported between the samples (a datagram sent
/// or not, a late answer to an earlier request): the session stays streaming,
/// and the datagrams that it asks to forward are those of the samples
/// delivered, one for one and in their order.
pub proof fn lemma_stream_keeps_every_sample(s: Session, events: Seq<Event>)
    requires
        s.phase == Phase::Streaming,
        forall|i: int|
            0 <= i < events.len() ==> #[trigger] events[i] != Event::Closed && events[i]
                != Event::Connect(ConnectOutcome::NoAdapter),
    ensures
        s.run(events).0 == s,
        forwarded(s.run(events).1) == delivered(events).map_values(
            |bpm: u8| sample_datagram(s.client(), bpm),
        ),
    decreases events.len(),
{
    let carry = |bpm: u8| sample_datagram(s.client(), bpm);
    if events.len() == 0 {
        assert(forwarded(s.run(events).1) =~= delivered(events).map_values(carry));
    } else {
        lemma_stream_keeps_every_sample(s, events.drop_last());
        let (before, done) = s.run(events.drop_last());
        let action = before.next(events.last()).1;
        assert(s.run(events).1.drop_last() =~= done);
        assert(events[events.len() - 1] == events.last());
        match events.last() {
            Event::Sample(bpm) => {
                assert(action == ActionView::Forward(sample_datagram(s.client(), bpm)));
                assert(delivered(events.drop_last()).push(bpm).map_values(carry) =~= delivered(
                    events.drop_last(),
                ).map_values(carry).push(carry(bpm)));
            },
            _ => {
                assert(action == ActionView::Wait);
            },
        }
    }
}

/// A session that is over stays over and asks nothing more.
pub proof fn lemma_terminated_is_silent(s: Session, events: Seq<Event>)
    requires
        s.phase == Phase::Terminated,
    ensures
        s.run(events).0 == s,
        s.run(events).1.len() == events.len(),
        forall|i: int| 0 <= i < events.len() ==> #[trigger] s.run(events).1[i] == ActionView::Wait,
    decreases events.len(),
{
    if events.len() > 0 {
        lemma_terminated_is_silent(s, events.drop_last());
    }
}

/// The request to exit is the last one that asks for anything.
///
/// In every run of a session that is not over at its start: the session is
/// over at the end exactly if one of the requests was to exit, and every
/// request after that one is to wait.
pub proof fn lemma_exit_is_final(s: Session, events: Seq<Event>)
    requires
        s.phase != Phase::Terminated,
    ensures
        ({
            let (end, actions) = s.run(events);
            &&& end.phase == Phase::Terminated <==> exists|i: int|
                0 <= i < actions.len() && #[trigger] actions[i] is Exit
            &&& forall|i: int, j: int|
                0 <= i < j < actions.len() && #[trigger] actions[i] is Exit ==> #[trigger] actions[j]
                    == ActionView::Wait
        }),
    decreases events.len(),
{
    if events.len() > 0 {
        let (before, done) = s.run(events.drop_last());
        let (end, actions) = s.run(events);
        lemma_exit_is_final(s, events.drop_last());
        let last = done.len() as int;
        assert(actions == done.push(before.next(events.last()).1));
        assert(forall|i: int| 0 <= i < last ==> actions[i] == done[i]);
        if before.phase == Phase::Terminated {
            let i = choose|i: int| 0 <= i < done.len() && #[trigger] done[i] is Exit;
            assert(actions[i] is Exit);
        } else {
            assert(forall|i: int| 0 <= i < last ==> !(#[trigger] done[i] is Exit));
            assert(end.phase == Phase::Terminated <==> actions[last] is Exit);
        }
    }
}

/// Without an adapter nothing is sent and nothing is tried again.
///
/// Take a session that started disconnected and has seen no connection yet.
/// When an attempt to connect reports that there is no adapter, the answer is
/// a normal exit and the session is over. In the whole run, before and after,
/// no request announces the bridge and none forwards a sample; and after the
/// exit every request is to wait, whatever is reported.
pub proof fn lemma_no_adapter_sends_nothing(s: Session, earlier: Seq<Event>, later: Seq<Event>)
    requires
        s.phase == Phase::Disconnected,
        before_connection(s.run(earlier).0.phase),
    ensures
        ({
            let report = seq![Event::Connect(ConnectOutcome::NoAdapter)];
            let (end, actions) = s.run(earlier + report + later);
            &&& end.phase == Phase::Terminated
            &&& actions.len() == earlier.len() + 1 + later.len()
            &&& actions[earlier.len() as int] == ActionView::Exit(Exit::Clean)
            &&& forall|i: int|
                0 <= i < actions.len() ==> !(#[trigger] actions[i] is Announce) && !(actions[i] is Forward)
            &&& forall|i: int|
                earlier.len() < i < actions.len() ==> #[trigger] actions[i] == ActionView::Wait
        }),
{
    let report = seq![Event::Connect(ConnectOutcome::NoAdapter)];
    let (mid, done) = s.run(earlier);
    lemma_marker_once_and_first(s, earlier);
    lemma_run_keeps_endpoints(s, earlier);
    lemma_run_push(s, earlier, Event::Connect(ConnectOutcome::NoAdapter));
    assert(earlier + report =~= earlier.push(Event::Connect(ConnectOutcome::NoAdapter)));
    let (over, upto) = s.run(earlier + report);
    assert(over.phase == Phase::Terminated);
    assert(upto == done.push(ActionView::Exit(Exit::Clean)));
    lemma_run_concat(s, earlier + report, later);
    lemma_terminated_is_silent(over, later);
    let (end, actions) = s.run(earlier + report + later);
    let rest = over.run(later).1;
    assert(actions == upto + rest);
    assert forall|i: int| 0 <= i < actions.len() implies !(#[trigger] actions[i] is Announce) && !(
    actions[i] is Forward) by {
        if i < earlier.len() {
            assert(actions[i] == done[i]);
        } else if i > earlier.len() {
            assert(actions[i] == rest[i - upto.len()]);
        }
    }
    assert forall|i: int| earlier.len() < i < actions.len() implies #[trigger] actions[i]
        == ActionView::Wait by {
        assert(actions[i] == rest[i - upto.len()]);
    }
}

/// Failed attempts are repeated without end.
///
/// A disconnected session that goes through any number of attempts that all
/// fail is disconnected as before, has asked for each of the attempts, and
/// has not asked to exit.
pub proof fn lemma_failed_attempts_are_repeated(s: Session, rounds: nat)
    requires
        s.phase == Phase::Disconnected,
    ensures
        s.run(failed_attempts(rounds)) == (s, attempts(rounds)),
    decreases rounds,
{
    if rounds > 0 {
        let earlier = failed_attempts((rounds - 1) as nat);
        lemma_failed_attempts_are_repeated(s, (rounds - 1) as nat);
        let round = seq![Event::Status(false), Event::Connect(ConnectOutcome::Failed)];
        lemma_run_concat(s, earlier, round);
        lemma_run_push(s, seq![Event::Status(false)], Event::Connect(ConnectOutcome::Failed));
        lemma_run_push(s, Seq::empty(), Event::Status(false));
        assert(Seq::<Event>::empty().push(Event::Status(false)) =~= seq![Event::Status(false)]);
        assert(seq![Event::Status(false)].push(Event::Connect(ConnectOutcome::Failed)) =~= round);
        assert(s.run(round).0 == s);
        assert(s.run(round).1 =~= seq![ActionView::Connect, ActionView::Query]);
    }
}

/// Once a connection has been seen, none is attempted again.
///
/// From the moment at which the sensor has said that it is connected, no
/// request of the session asks to connect, or asks the sensor for its state,
/// whatever is reported.
pub proof fn lemma_no_attempt_after_connection(s: Session, events: Seq<Event>)
    requires
        !before_connection(s.phase),
    ensures
        !before_connection(s.run(events).0.phase),
        forall|i: int|
            0 <= i < s.run(events).1.len() ==> !(#[trigger] s.run(events).1[i] is Connect) && !(
            s.run(events).1[i] is Query),
    decreases events.len(),
{
    if events.len() > 0 {
        lemma_no_attempt_after_connection(s, events.drop_last());
    }
}

} // verus!
