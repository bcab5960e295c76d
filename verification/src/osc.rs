//! The messages that go on the wire, and the bytes that carry them.
//!
//! A message has an address and a list of 32-bit integers. On the wire it is
//! three blocks, each a multiple of four bytes long: the address, closed and
//! padded with zero bytes; the type tags, a comma and one `i` for each
//! integer, closed and padded in the same way; and the integers, four bytes
//! each, most significant byte first.

use vstd::prelude::*;
use vstd::string::StringSliceAdditionalSpecFns;
use vstd::utf8::encode_utf8;

verus! {

/// The error type of `rosc`, which is passed through without being read.
#[verifier::external_type_specification]
#[verifier::external_body]
pub struct ExOscError(rosc::OscError);

/// The byte `,`, which opens the type tags.
pub const COMMA: u8 = 0x2c;

/// The byte `i`, the type tag of a 32-bit integer.
pub const TAG_INT: u8 = 0x69;

/// How many zero bytes close a string of `len` bytes: at least one, and as
/// many as bring the whole to a multiple of four.
pub open spec fn padding(len: nat) -> nat {
    (4 - len % 4) as nat
}

pub open spec fn zeros(n: nat) -> Seq<u8> {
    Seq::new(n, |i: int| 0u8)
}

/// A string as it stands on the wire.
pub open spec fn osc_string(s: Seq<u8>) -> Seq<u8> {
    s + zeros(padding(s.len()))
}

/// The type tags of `n` integers.
pub open spec fn int_tags(n: nat) -> Seq<u8> {
    seq![COMMA] + Seq::new(n, |i: int| TAG_INT)
}

/// The four bytes of `x` in two's complement, most significant first.
pub open spec fn be_bytes(x: i32) -> Seq<u8> {
    let u: int = if x < 0 {
        x + 0x1_0000_0000
    } else {
        x as int
    };
    seq![
        (u / 0x100_0000) as u8,
        (u / 0x1_0000 % 0x100) as u8,
        (u / 0x100 % 0x100) as u8,
        (u % 0x100) as u8,
    ]
}

/// The integers of a message as they stand on the wire, one after the other.
pub open spec fn int_data(args: Seq<i32>) -> Seq<u8>
    decreases args.len(),
{
    if args.len() == 0 {
        Seq::empty()
    } else {
        int_data(args.drop_last()) + be_bytes(args.last())
    }
}

/// A message as it stands on the wire.
pub open spec fn osc_message(addr: Seq<u8>, args: Seq<i32>) -> Seq<u8> {
    osc_string(addr) + osc_string(int_tags(args.len())) + int_data(args)
}

/// The encoder refused a message.
#[derive(Clone, Copy, Debug, PartialEq, Eq, Structural)]
pub struct EncodeError;

/// A message: an address and its integer arguments.
#[derive(Clone, Debug, PartialEq, Eq)]
pub struct Message {
    pub addr: String,
    pub args: Vec<i32>,
}

/// What a message says, apart from how it is held in memory.
pub struct MessageView {
    pub addr: Seq<char>,
    pub args: Seq<i32>,
}

impl MessageView {
    /// The bytes that carry this message.
    pub open spec fn wire(self) -> Seq<u8> {
        osc_message(encode_utf8(self.addr), self.args)
    }
}

impl View for Message {
    type V = MessageView;

    open spec fn view(&self) -> MessageView {
        MessageView { addr: self.addr@, args: self.args@ }
    }
}

/// The address under which every message of the bridge is sent.
pub open spec fn heartrate_address() -> Seq<char> {
    "/heartrate"@
}

/// The message that announces the bridge: the address alone.
pub open spec fn marker_message() -> MessageView {
    MessageView { addr: heartrate_address(), args: Seq::empty() }
}

/// The message that carries one heart-rate sample.
pub open spec fn sample_message(bpm: u8) -> MessageView {
    MessageView { addr: heartrate_address(), args: seq![bpm as i32] }
}

/// Encodes a message of integers with `rosc::encoder::encode`.
///
/// The contract is taken from the encoder's source and is not proved here.
/// It claims that the encoder accepts every message whose arguments are all
/// `OscType::Int`, and that it returns the UTF-8 bytes of the address followed
/// by one to four zero bytes up to a multiple of four, then a comma and one
/// `i` for each argument followed by zero bytes in the same way, then each
/// argument as four bytes, most significant first.
#[verifier::external_body]
fn encode_ints(addr: &str, args: &Vec<i32>) -> (r: Result<Vec<u8>, rosc::OscError>)
    ensures
        r is Ok,
        r matches Ok(bytes) ==> bytes@ == osc_message(addr.spec_bytes(), args@),
{
    let args = args.iter().map(|x| rosc::OscType::Int(*x)).collect();
    let message = rosc::OscMessage { addr: addr.to_string(), args };
    rosc::encoder::encode(&rosc::OscPacket::Message(message))
}

impl Message {
    /// The message that announces the bridge.
    pub fn marker() -> (m: Message)
        ensures
            m@ == marker_message(),
    {
        Message { addr: "/heartrate".to_string(), args: Vec::new() }
    }

    /// The message that carries the sample `bpm`.
    pub fn sample(bpm: u8) -> (m: Message)
        ensures
            m@ == sample_message(bpm),
    {
        let mut args: Vec<i32> = Vec::new();
        args.push(bpm as i32);
        Message { addr: "/heartrate".to_string(), args }
    }

    /// The bytes that carry this message.
    ///
    /// The encoder accepts every message of integers, so the result is always
    /// `Ok`; the error is there because the encoder's signature has one.
    pub fn encode(&self) -> (r: Result<Vec<u8>, EncodeError>)
        ensures
            r matches Ok(bytes) && bytes@ == self@.wire(),
    {
        match encode_ints(self.addr.as_str(), &self.args) {
            Ok(bytes) => Ok(bytes),
            Err(_) => Err(EncodeError),
        }
    }
}

/// The address, byte by byte.
pub open spec fn heartrate_bytes() -> Seq<u8> {
    seq![0x2f, 0x68, 0x65, 0x61, 0x72, 0x74, 0x72, 0x61, 0x74, 0x65]
}

/// The sixteen bytes that carry the marker: the address and two zero bytes,
/// then a comma and three zero bytes.
pub open spec fn marker_bytes() -> Seq<u8> {
    heartrate_bytes() + seq![0u8, 0u8, COMMA, 0u8, 0u8, 0u8]
}

/// The twenty bytes that carry the sample `bpm`: the address and two zero
/// bytes, then `,i` and two zero bytes, then the sample as the last of four
/// bytes.
pub open spec fn sample_bytes(bpm: u8) -> Seq<u8> {
    heartrate_bytes() + seq![0u8, 0u8, COMMA, TAG_INT, 0u8, 0u8, 0u8, 0u8, 0u8, bpm]
}

/// The address is written in ASCII: one byte for each character.
pub proof fn lemma_address_bytes()
    ensures
        encode_utf8(heartrate_address()) == heartrate_bytes(),
{
    reveal_strlit("/heartrate");
    let chars = heartrate_address();
    assert(vstd::utf8::is_ascii_chars(chars));
    vstd::utf8::is_ascii_chars_encode_utf8(chars);
    let bytes = encode_utf8(chars);
    assert(bytes.len() == 10);
    assert(bytes[0] == chars[0] as u8);
    assert(bytes[1] == chars[1] as u8);
    assert(bytes[2] == chars[2] as u8);
    assert(bytes[3] == chars[3] as u8);
    assert(bytes[4] == chars[4] as u8);
    assert(bytes[5] == chars[5] as u8);
    assert(bytes[6] == chars[6] as u8);
    assert(bytes[7] == chars[7] as u8);
    assert(bytes[8] == chars[8] as u8);
    assert(bytes[9] == chars[9] as u8);
    assert(bytes =~= heartrate_bytes());
}

/// The marker on the wire, byte by byte.
pub proof fn lemma_marker_wire()
    ensures
        marker_message().wire() == marker_bytes(),
{
    lemma_address_bytes();
    let tags = int_tags(0);
    assert(tags.len() == 1);
    assert(marker_message().wire() =~= marker_bytes());
}

/// A sample on the wire, byte by byte.
pub proof fn lemma_sample_wire(bpm: u8)
    ensures
        sample_message(bpm).wire() == sample_bytes(bpm),
{
    lemma_address_bytes();
    let args = seq![bpm as i32];
    let tags = int_tags(1);
    assert(tags.len() == 2);
    assert(args.drop_last() =~= Seq::<i32>::empty());
    assert(int_data(args.drop_last()) =~= Seq::<u8>::empty());
    assert(int_data(args) =~= be_bytes(bpm as i32));
    assert(be_bytes(bpm as i32) =~= seq![0u8, 0u8, 0u8, bpm]);
    assert(sample_message(bpm).wire() =~= sample_bytes(bpm));
}

/// The receiver can tell every message from every other: two samples are
/// carried by the same bytes only if they are the same sample, and no sample
/// is carried by the bytes of the marker.
pub proof fn lemma_wire_tells_apart(b1: u8, b2: u8)
    ensures
        sample_message(b1).wire() == sample_message(b2).wire() ==> b1 == b2,
        sample_message(b1).wire() != marker_message().wire(),
{
    lemma_marker_wire();
    lemma_sample_wire(b1);
    lemma_sample_wire(b2);
    assert(sample_bytes(b1)[19] == b1);
    assert(sample_bytes(b2)[19] == b2);
    assert(sample_bytes(b1).len() == 20);
    assert(marker_bytes().len() == 16);
}

} // verus!
