//! The datagrams of the bridge: each is a message for one fixed receiver.

use vstd::prelude::*;

use crate::endpoint::Endpoint;
use crate::osc::{marker_message, sample_message, EncodeError, Message};

verus! {

/// Bytes to be sent to an endpoint.
#[derive(Clone, Debug, PartialEq, Eq)]
pub struct Datagram {
    pub dest: Endpoint,
    pub payload: Vec<u8>,
}

/// What a datagram says, apart from how it is held in memory.
pub struct DatagramView {
    pub dest: Endpoint,
    pub payload: Seq<u8>,
}

impl View for Datagram {
    type V = DatagramView;

    open spec fn view(&self) -> DatagramView {
        DatagramView { dest: self.dest, payload: self.payload@ }
    }
}

/// The datagram that announces the bridge to `dest`.
pub open spec fn marker_datagram(dest: Endpoint) -> DatagramView {
    DatagramView { dest, payload: marker_message().wire() }
}

/// The datagram that carries the sample `bpm` to `dest`.
pub open spec fn sample_datagram(dest: Endpoint, bpm: u8) -> DatagramView {
    DatagramView { dest, payload: sample_message(bpm).wire() }
}

/// Turns what the sensor reports into datagrams for one receiver.
#[derive(Clone, Copy, Debug, PartialEq, Eq)]
pub struct Handler {
    /// The receiver of every datagram.
    pub to_addr: Endpoint,
}

impl Handler {
    pub fn new(to_addr: Endpoint) -> (h: Handler)
        ensures
            h.to_addr == to_addr,
    {
        Handler { to_addr }
    }

    /// The datagram that announces the bridge: the marker message, for the
    /// receiver.
    pub fn marker(&self) -> (r: Result<Datagram, EncodeError>)
        ensures
            r matches Ok(d) && d@ == marker_datagram(self.to_addr),
    {
        match Message::marker().encode() {
            Ok(payload) => Ok(Datagram { dest: self.to_addr, payload }),
            Err(e) => Err(e),
        }
    }

    /// The datagram for one heart-rate sample: the message whose one
    /// argument is `bpm` as a 32-bit integer, for the receiver.
    pub fn heart_rate_update(&self, bpm: u8) -> (r: Result<Datagram, EncodeError>)
        ensures
            r matches Ok(d) && d@ == sample_datagram(self.to_addr, bpm),
    {
        match Message::sample(bpm).encode() {
            Ok(payload) => Ok(Datagram { dest: self.to_addr, payload }),
            Err(e) => Err(e),
        }
    }
}

} // verus!
