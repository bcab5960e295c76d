use heartrate_bridge::endpoint::{get_addr_from_arg, ConfigError, Endpoint};

fn endpoint(a: u8, b: u8, c: u8, d: u8, port: u16) -> Endpoint {
    Endpoint { ip: [a, b, c, d], port }
}

#[test]
fn parses_loopback_with_port() {
    assert_eq!(get_addr_from_arg("127.0.0.1:9000"), Ok(endpoint(127, 0, 0, 1, 9000)));
    assert_eq!(get_addr_from_arg("127.0.0.1:9001"), Ok(endpoint(127, 0, 0, 1, 9001)));
}

#[test]
fn parses_the_smallest_and_the_largest_endpoint() {
    assert_eq!(get_addr_from_arg("0.0.0.0:0"), Ok(endpoint(0, 0, 0, 0, 0)));
    assert_eq!(
        get_addr_from_arg("255.255.255.255:65535"),
        Ok(endpoint(255, 255, 255, 255, 65535))
    );
}

#[test]
fn parses_fields_of_every_length() {
    assert_eq!(get_addr_from_arg("1.22.133.4:5"), Ok(endpoint(1, 22, 133, 4, 5)));
    assert_eq!(get_addr_from_arg("192.168.10.99:12345"), Ok(endpoint(192, 168, 10, 99, 12345)));
    assert_eq!(get_addr_from_arg("10.0.200.249:80"), Ok(endpoint(10, 0, 200, 249, 80)));
}

#[test]
fn port_may_carry_leading_zeros() {
    assert_eq!(get_addr_from_arg("1.2.3.4:00080"), Ok(endpoint(1, 2, 3, 4, 80)));
    assert_eq!(get_addr_from_arg("1.2.3.4:0000000000065535"), Ok(endpoint(1, 2, 3, 4, 65535)));
    assert_eq!(get_addr_from_arg("1.2.3.4:000"), Ok(endpoint(1, 2, 3, 4, 0)));
}

#[test]
fn bytes_and_text_parse_alike() {
    assert_eq!(Endpoint::parse(b"8.8.4.4:53"), Ok(endpoint(8, 8, 4, 4, 53)));
    assert_eq!(Endpoint::parse(b"8.8.4.4;53"), Err(ConfigError::InvalidAddress));
    assert_eq!(Endpoint::parse(&[]), Err(ConfigError::InvalidAddress));
    assert_eq!(Endpoint::parse(&[0x31, 0x2e, 0x32, 0x2e, 0x33, 0x2e, 0x34, 0x3a, 0xff]), Err(ConfigError::InvalidAddress));
}

#[test]
fn rejects_numbers_out_of_range() {
    assert_eq!(get_addr_from_arg("256.0.0.1:80"), Err(ConfigError::InvalidAddress));
    assert_eq!(get_addr_from_arg("1.2.3.999:80"), Err(ConfigError::InvalidAddress));
    assert_eq!(get_addr_from_arg("1.2.3.4:65536"), Err(ConfigError::InvalidAddress));
    assert_eq!(get_addr_from_arg("1.2.3.4:99999999999999999999"), Err(ConfigError::InvalidAddress));
    assert_eq!(get_addr_from_arg("1.2.3.4:4294967376"), Err(ConfigError::InvalidAddress));
}

#[test]
fn rejects_leading_zeros_in_the_address() {
    assert_eq!(get_addr_from_arg("01.2.3.4:80"), Err(ConfigError::InvalidAddress));
    assert_eq!(get_addr_from_arg("1.2.3.04:80"), Err(ConfigError::InvalidAddress));
    assert_eq!(get_addr_from_arg("1.00.3.4:80"), Err(ConfigError::InvalidAddress));
    assert_eq!(get_addr_from_arg("1.2.0000.4:80"), Err(ConfigError::InvalidAddress));
}

#[test]
fn rejects_missing_fields() {
    assert_eq!(get_addr_from_arg(""), Err(ConfigError::InvalidAddress));
    assert_eq!(get_addr_from_arg("1.2.3.4"), Err(ConfigError::InvalidAddress));
    assert_eq!(get_addr_from_arg("1.2.3.4:"), Err(ConfigError::InvalidAddress));
    assert_eq!(get_addr_from_arg("1.2.3:80"), Err(ConfigError::InvalidAddress));
    assert_eq!(get_addr_from_arg("1..3.4:80"), Err(ConfigError::InvalidAddress));
    assert_eq!(get_addr_from_arg(".2.3.4:80"), Err(ConfigError::InvalidAddress));
    assert_eq!(get_addr_from_arg(":80"), Err(ConfigError::InvalidAddress));
    assert_eq!(get_addr_from_arg("1.2.3.4.5:80"), Err(ConfigError::InvalidAddress));
}

#[test]
fn rejects_anything_around_the_fields() {
    assert_eq!(get_addr_from_arg(" 1.2.3.4:80"), Err(ConfigError::InvalidAddress));
    assert_eq!(get_addr_from_arg("1.2.3.4:80 "), Err(ConfigError::InvalidAddress));
    assert_eq!(get_addr_from_arg("1.2.3.4 :80"), Err(ConfigError::InvalidAddress));
    assert_eq!(get_addr_from_arg("1.2.3.4:80\n"), Err(ConfigError::InvalidAddress));
    assert_eq!(get_addr_from_arg("1.2.3.4:+80"), Err(ConfigError::InvalidAddress));
    assert_eq!(get_addr_from_arg("1.2.3.4:-1"), Err(ConfigError::InvalidAddress));
    assert_eq!(get_addr_from_arg("1.2.3.4:8x"), Err(ConfigError::InvalidAddress));
    assert_eq!(get_addr_from_arg("1.2.3.4:80:81"), Err(ConfigError::InvalidAddress));
    assert_eq!(get_addr_from_arg("1,2,3,4:80"), Err(ConfigError::InvalidAddress));
}

#[test]
fn rejects_names_and_other_families() {
    assert_eq!(get_addr_from_arg("localhost:9000"), Err(ConfigError::InvalidAddress));
    assert_eq!(get_addr_from_arg("[::1]:9000"), Err(ConfigError::InvalidAddress));
    assert_eq!(get_addr_from_arg("::1"), Err(ConfigError::InvalidAddress));
    assert_eq!(get_addr_from_arg("AA:BB:CC:DD:EE:FF"), Err(ConfigError::InvalidAddress));
    assert_eq!(get_addr_from_arg("0x7f.0.0.1:80"), Err(ConfigError::InvalidAddress));
}

#[test]
fn rejects_digits_outside_ascii() {
    assert_eq!(get_addr_from_arg("\u{ff11}.2.3.4:80"), Err(ConfigError::InvalidAddress));
    assert_eq!(get_addr_from_arg("1.2.3.4:\u{ff18}\u{ff10}"), Err(ConfigError::InvalidAddress));
    assert_eq!(get_addr_from_arg("1.2.3.4:80\u{e9}"), Err(ConfigError::InvalidAddress));
}

#[test]
fn every_address_number_round_trips() {
    for n in 0..=255u8 {
        let text = format!("{}.{}.{}.{}:{}", n, 255 - n, n / 2, n, 256 * (n as u16) + 255);
        assert_eq!(
            get_addr_from_arg(&text),
            Ok(endpoint(n, 255 - n, n / 2, n, 256 * (n as u16) + 255))
        );
    }
}

#[test]
fn every_port_round_trips() {
    for port in 0..=65535u16 {
        let text = format!("10.1.2.3:{}", port);
        assert_eq!(get_addr_from_arg(&text), Ok(endpoint(10, 1, 2, 3, port)));
    }
}
