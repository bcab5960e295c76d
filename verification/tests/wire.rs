use heartrate_bridge::endpoint::Endpoint;
use heartrate_bridge::handler::{Datagram, Handler};
use heartrate_bridge::osc::Message;

const MARKER: [u8; 16] = [
    0x2f, 0x68, 0x65, 0x61, 0x72, 0x74, 0x72, 0x61, 0x74, 0x65, 0, 0, 0x2c, 0, 0, 0,
];

fn sample_bytes(bpm: u8) -> Vec<u8> {
    let mut bytes = b"/heartrate\0\0,i\0\0\0\0\0".to_vec();
    bytes.push(bpm);
    bytes
}

fn message(addr: &str, args: &[i32]) -> Message {
    Message { addr: addr.to_string(), args: args.to_vec() }
}

fn decode(bytes: &[u8]) -> (String, Vec<rosc::OscType>) {
    match rosc::decoder::decode_udp(bytes) {
        Ok((rest, rosc::OscPacket::Message(m))) => {
            assert!(rest.is_empty());
            (m.addr, m.args)
        }
        other => panic!("not one message: {:?}", other),
    }
}

#[test]
fn marker_has_the_address_and_no_argument() {
    let m = Message::marker();
    assert_eq!(m.addr, "/heartrate");
    assert_eq!(m.args, Vec::<i32>::new());
}

#[test]
fn sample_has_the_address_and_one_argument() {
    let m = Message::sample(62);
    assert_eq!(m.addr, "/heartrate");
    assert_eq!(m.args, vec![62]);
    assert_eq!(Message::sample(0).args, vec![0]);
    assert_eq!(Message::sample(255).args, vec![255]);
}

#[test]
fn marker_is_sixteen_bytes() {
    assert_eq!(Message::marker().encode(), Ok(MARKER.to_vec()));
    assert_eq!(MARKER.to_vec(), b"/heartrate\0\0,\0\0\0".to_vec());
}

#[test]
fn sample_is_twenty_bytes_with_the_sample_last() {
    assert_eq!(Message::sample(62).encode(), Ok(sample_bytes(62)));
    assert_eq!(Message::sample(62).encode().unwrap().len(), 20);
    assert_eq!(Message::sample(62).encode().unwrap()[19], 62);
}

#[test]
fn every_sample_encodes_to_its_own_bytes() {
    for bpm in 0..=255u8 {
        assert_eq!(Message::sample(bpm).encode(), Ok(sample_bytes(bpm)));
    }
}

#[test]
fn a_receiver_reads_the_marker_back() {
    let (addr, args) = decode(&Message::marker().encode().unwrap());
    assert_eq!(addr, "/heartrate");
    assert_eq!(args, Vec::<rosc::OscType>::new());
}

#[test]
fn a_receiver_reads_every_sample_back() {
    for bpm in 0..=255u8 {
        let (addr, args) = decode(&Message::sample(bpm).encode().unwrap());
        assert_eq!(addr, "/heartrate");
        assert_eq!(args, vec![rosc::OscType::Int(bpm as i32)]);
    }
}

#[test]
fn address_is_padded_to_a_multiple_of_four() {
    assert_eq!(message("/a", &[]).encode(), Ok(b"/a\0\0,\0\0\0".to_vec()));
    assert_eq!(message("/ab", &[]).encode(), Ok(b"/ab\0,\0\0\0".to_vec()));
    assert_eq!(message("/abc", &[]).encode(), Ok(b"/abc\0\0\0\0,\0\0\0".to_vec()));
    assert_eq!(message("/abcd", &[]).encode(), Ok(b"/abcd\0\0\0,\0\0\0".to_vec()));
    assert_eq!(message("", &[]).encode(), Ok(b"\0\0\0\0,\0\0\0".to_vec()));
}

#[test]
fn address_outside_ascii_goes_out_as_utf8() {
    assert_eq!(
        message("/\u{e9}", &[]).encode(),
        Ok(vec![0x2f, 0xc3, 0xa9, 0, 0x2c, 0, 0, 0])
    );
}

#[test]
fn type_tags_are_padded_to_a_multiple_of_four() {
    assert_eq!(message("/a", &[1]).encode(), Ok(b"/a\0\0,i\0\0\0\0\0\x01".to_vec()));
    assert_eq!(
        message("/a", &[1, 2]).encode(),
        Ok(b"/a\0\0,ii\0\0\0\0\x01\0\0\0\x02".to_vec())
    );
    assert_eq!(
        message("/a", &[1, 2, 3]).encode(),
        Ok(b"/a\0\0,iii\0\0\0\0\0\0\0\x01\0\0\0\x02\0\0\0\x03".to_vec())
    );
}

#[test]
fn integers_go_out_most_significant_byte_first() {
    assert_eq!(
        message("/a", &[0x01020304]).encode(),
        Ok(b"/a\0\0,i\0\0\x01\x02\x03\x04".to_vec())
    );
    assert_eq!(message("/a", &[256]).encode(), Ok(b"/a\0\0,i\0\0\0\0\x01\0".to_vec()));
    assert_eq!(
        message("/a", &[i32::MAX]).encode(),
        Ok(b"/a\0\0,i\0\0\x7f\xff\xff\xff".to_vec())
    );
}

#[test]
fn negative_integers_go_out_in_twos_complement() {
    assert_eq!(
        message("/a", &[-1]).encode(),
        Ok(b"/a\0\0,i\0\0\xff\xff\xff\xff".to_vec())
    );
    assert_eq!(
        message("/a", &[-2, i32::MIN]).encode(),
        Ok(b"/a\0\0,ii\0\xff\xff\xff\xfe\x80\0\0\0".to_vec())
    );
    assert_eq!(
        message("/a", &[-16777217]).encode(),
        Ok(b"/a\0\0,i\0\0\xfe\xff\xff\xff".to_vec())
    );
}

#[test]
fn handler_addresses_the_marker_to_its_receiver() {
    let to_addr = Endpoint { ip: [127, 0, 0, 1], port: 9001 };
    let handler = Handler::new(to_addr);
    assert_eq!(handler.to_addr, to_addr);
    assert_eq!(handler.marker(), Ok(Datagram { dest: to_addr, payload: MARKER.to_vec() }));
}

#[test]
fn handler_addresses_each_sample_to_its_receiver() {
    let to_addr = Endpoint { ip: [10, 0, 0, 7], port: 7000 };
    let handler = Handler::new(to_addr);
    for bpm in [0u8, 1, 62, 63, 90, 127, 128, 254, 255] {
        assert_eq!(
            handler.heart_rate_update(bpm),
            Ok(Datagram { dest: to_addr, payload: sample_bytes(bpm) })
        );
    }
}

#[test]
fn different_samples_never_share_their_bytes() {
    let marker = Message::marker().encode().unwrap();
    for a in 0..=255u8 {
        let bytes = Message::sample(a).encode().unwrap();
        assert_ne!(bytes, marker);
        if a < 255 {
            assert_ne!(bytes, Message::sample(a + 1).encode().unwrap());
        }
    }
}
