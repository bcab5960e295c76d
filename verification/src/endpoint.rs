//! Endpoints, the text that spells one, and the parser for that text.
//!
//! An endpoint is written `A.B.C.D:PORT`. Each of `A` to `D` is a decimal
//! number from 0 to 255, at most three digits long and without a leading zero
//! unless it is the single digit `0`. `PORT` is a decimal number from 0 to
//! 65535; it may carry leading zeros. Nothing may stand before, between or
//! after these fields: no spaces, no sign, no host name, no IPv6 form.

use vstd::prelude::*;
use vstd::string::StringSliceAdditionalSpecFns;

verus! {

/// The byte `.`, which parts the four numbers of the address.
pub const DOT: u8 = 0x2e;

/// The byte `:`, which parts the address from the port.
pub const COLON: u8 = 0x3a;

/// The byte `0`.
pub const ZERO: u8 = 0x30;

/// An IPv4 address and a port.
#[derive(Clone, Copy, Debug, PartialEq, Eq)]
pub struct Endpoint {
    /// The four numbers of the address, in the order in which they are written.
    pub ip: [u8; 4],
    pub port: u16,
}

/// Why the command line was not accepted.
#[derive(Clone, Copy, Debug, PartialEq, Eq, Structural)]
pub enum ConfigError {
    /// Fewer arguments than the device and the two endpoints.
    Usage,
    /// An endpoint argument is not of the form `A.B.C.D:PORT`.
    InvalidAddress,
}

pub open spec fn is_digit(b: u8) -> bool {
    0x30 <= b <= 0x39
}

pub open spec fn digit_value(b: u8) -> nat {
    if is_digit(b) {
        (b - 0x30) as nat
    } else {
        0
    }
}

/// `s` is one decimal digit or more.
pub open spec fn is_number(s: Seq<u8>) -> bool {
    s.len() > 0 && forall|i: int| 0 <= i < s.len() ==> is_digit(#[trigger] s[i])
}

/// The number that the decimal digits `s` spell.
pub open spec fn number_value(s: Seq<u8>) -> nat
    decreases s.len(),
{
    if s.len() == 0 {
        0
    } else {
        number_value(s.drop_last()) * 10 + digit_value(s.last())
    }
}

/// `s` spells one of the four numbers of an address.
pub open spec fn is_octet_text(s: Seq<u8>) -> bool {
    &&& is_number(s)
    &&& s.len() <= 3
    &&& (s.len() > 1 ==> s[0] != ZERO)
    &&& number_value(s) <= 255
}

/// `s` spells a port.
pub open spec fn is_port_text(s: Seq<u8>) -> bool {
    is_number(s) && number_value(s) <= 65535
}

/// The five fields of an endpoint, joined by their separators.
pub open spec fn join(a: Seq<u8>, b: Seq<u8>, c: Seq<u8>, d: Seq<u8>, p: Seq<u8>) -> Seq<u8> {
    a + seq![DOT] + b + seq![DOT] + c + seq![DOT] + d + seq![COLON] + p
}

/// The shortest decimal spelling of `n`.
pub open spec fn decimal_text(n: nat) -> Seq<u8>
    decreases n,
{
    if n < 10 {
        seq![(0x30 + n) as u8]
    } else {
        decimal_text(n / 10) + seq![(0x30 + n % 10) as u8]
    }
}

impl Endpoint {
    /// The text `s` spells this endpoint: it is made of five fields that are
    /// well formed and have this endpoint's numbers as their values.
    pub open spec fn spelled_by(self, s: Seq<u8>) -> bool {
        exists|a: Seq<u8>, b: Seq<u8>, c: Seq<u8>, d: Seq<u8>, p: Seq<u8>|
            {
                &&& #[trigger] join(a, b, c, d, p) == s
                &&& is_octet_text(a) && number_value(a) == self.ip[0]
                &&& is_octet_text(b) && number_value(b) == self.ip[1]
                &&& is_octet_text(c) && number_value(c) == self.ip[2]
                &&& is_octet_text(d) && number_value(d) == self.ip[3]
                &&& is_port_text(p) && number_value(p) == self.port
            }
    }

    /// This endpoint in its shortest spelling.
    pub open spec fn text(self) -> Seq<u8> {
        join(
            decimal_text(self.ip[0] as nat),
            decimal_text(self.ip[1] as nat),
            decimal_text(self.ip[2] as nat),
            decimal_text(self.ip[3] as nat),
            decimal_text(self.port as nat),
        )
    }
}

/// `s` spells some endpoint.
pub open spec fn is_endpoint_text(s: Seq<u8>) -> bool {
    exists|e: Endpoint| e.spelled_by(s)
}

/// What reading the text `s` gives: the endpoint that `s` spells, or the
/// error that every other text gives.
pub open spec fn parsed(s: Seq<u8>) -> Result<Endpoint, ConfigError> {
    if is_endpoint_text(s) {
        Ok(choose|e: Endpoint| e.spelled_by(s))
    } else {
        Err(ConfigError::InvalidAddress)
    }
}

/// Where the run of digits that starts at `from` ends.
spec fn digits_end(s: Seq<u8>, from: int) -> int
    decreases s.len() - from,
{
    if 0 <= from < s.len() && is_digit(s[from]) {
        digits_end(s, from + 1)
    } else {
        from
    }
}

/// The field of digits that starts at `from`.
spec fn field(s: Seq<u8>, from: int) -> Seq<u8> {
    s.subrange(from, digits_end(s, from))
}

/// The field that starts at `from` is followed by the separator `sep`.
spec fn field_ends_with(s: Seq<u8>, from: int, sep: u8) -> bool {
    digits_end(s, from) < s.len() && s[digits_end(s, from)] == sep
}

/// The five places at which the fields of `s` start, should `s` be an endpoint.
spec fn starts(s: Seq<u8>) -> (int, int, int, int, int) {
    let i0 = 0;
    let i1 = digits_end(s, i0) + 1;
    let i2 = digits_end(s, i1) + 1;
    let i3 = digits_end(s, i2) + 1;
    let i4 = digits_end(s, i3) + 1;
    (i0, i1, i2, i3, i4)
}

/// What a reader that goes through `s` from left to right accepts.
spec fn scans(s: Seq<u8>) -> bool {
    let (i0, i1, i2, i3, i4) = starts(s);
    &&& is_octet_text(field(s, i0)) && field_ends_with(s, i0, DOT)
    &&& is_octet_text(field(s, i1)) && field_ends_with(s, i1, DOT)
    &&& is_octet_text(field(s, i2)) && field_ends_with(s, i2, DOT)
    &&& is_octet_text(field(s, i3)) && field_ends_with(s, i3, COLON)
    &&& is_port_text(field(s, i4)) && digits_end(s, i4) == s.len()
}

proof fn lemma_digits_end_bounds(s: Seq<u8>, from: int)
    requires
        0 <= from <= s.len(),
    ensures
        from <= digits_end(s, from) <= s.len(),
        forall|i: int| from <= i < digits_end(s, from) ==> is_digit(#[trigger] s[i]),
        digits_end(s, from) < s.len() ==> !is_digit(s[digits_end(s, from)]),
    decreases s.len() - from,
{
    if from < s.len() && is_digit(s[from]) {
        lemma_digits_end_bounds(s, from + 1);
    }
}

proof fn lemma_digits_end_is(s: Seq<u8>, from: int, end: int)
    requires
        0 <= from <= end <= s.len(),
        forall|i: int| from <= i < end ==> is_digit(#[trigger] s[i]),
        end < s.len() ==> !is_digit(s[end]),
    ensures
        digits_end(s, from) == end,
    decreases end - from,
{
    if from < end {
        lemma_digits_end_is(s, from + 1, end);
    }
}

/// A number is at least the number that any of its prefixes spells.
proof fn lemma_value_of_prefix(s: Seq<u8>, k: int)
    requires
        0 <= k <= s.len(),
    ensures
        number_value(s.subrange(0, k)) <= number_value(s),
    decreases s.len() - k,
{
    if k == s.len() {
        assert(s.subrange(0, k) =~= s);
    } else {
        lemma_value_of_prefix(s.drop_last(), k);
        assert(s.drop_last().subrange(0, k) =~= s.subrange(0, k));
    }
}

/// The fields of a well-formed text are the ones that a reader finds.
proof fn lemma_fields(s: Seq<u8>, a: Seq<u8>, b: Seq<u8>, c: Seq<u8>, d: Seq<u8>, p: Seq<u8>)
    requires
        s == join(a, b, c, d, p),
        is_octet_text(a),
        is_octet_text(b),
        is_octet_text(c),
        is_octet_text(d),
        is_port_text(p),
    ensures
        scans(s),
        field(s, starts(s).0) == a,
        field(s, starts(s).1) == b,
        field(s, starts(s).2) == c,
        field(s, starts(s).3) == d,
        field(s, starts(s).4) == p,
{
    let i0 = 0int;
    let i1 = i0 + a.len() + 1;
    let i2 = i1 + b.len() + 1;
    let i3 = i2 + c.len() + 1;
    let i4 = i3 + d.len() + 1;
    assert(s.len() == i4 + p.len());
    assert forall|i: int| i0 <= i < i1 - 1 implies is_digit(#[trigger] s[i]) by {
        assert(s[i] == a[i - i0]);
    }
    assert(s[i1 - 1] == DOT);
    lemma_digits_end_is(s, i0, i1 - 1);
    assert(s.subrange(i0, i1 - 1) =~= a);
    assert forall|i: int| i1 <= i < i2 - 1 implies is_digit(#[trigger] s[i]) by {
        assert(s[i] == b[i - i1]);
    }
    assert(s[i2 - 1] == DOT);
    lemma_digits_end_is(s, i1, i2 - 1);
    assert(s.subrange(i1, i2 - 1) =~= b);
    assert forall|i: int| i2 <= i < i3 - 1 implies is_digit(#[trigger] s[i]) by {
        assert(s[i] == c[i - i2]);
    }
    assert(s[i3 - 1] == DOT);
    lemma_digits_end_is(s, i2, i3 - 1);
    assert(s.subrange(i2, i3 - 1) =~= c);
    assert forall|i: int| i3 <= i < i4 - 1 implies is_digit(#[trigger] s[i]) by {
        assert(s[i] == d[i - i3]);
    }
    assert(s[i4 - 1] == COLON);
    lemma_digits_end_is(s, i3, i4 - 1);
    assert(s.subrange(i3, i4 - 1) =~= d);
    assert forall|i: int| i4 <= i < s.len() implies is_digit(#[trigger] s[i]) by {
        assert(s[i] == p[i - i4]);
    }
    lemma_digits_end_is(s, i4, s.len() as int);
    assert(s.subrange(i4, s.len() as int) =~= p);
}

/// What a reader accepts is well formed, and spells the numbers of its fields.
proof fn lemma_scans_sound(s: Seq<u8>, e: Endpoint)
    requires
        scans(s),
        e.ip[0] == number_value(field(s, starts(s).0)),
        e.ip[1] == number_value(field(s, starts(s).1)),
        e.ip[2] == number_value(field(s, starts(s).2)),
        e.ip[3] == number_value(field(s, starts(s).3)),
        e.port == number_value(field(s, starts(s).4)),
    ensures
        e.spelled_by(s),
{
    let (i0, i1, i2, i3, i4) = starts(s);
    lemma_digits_end_bounds(s, i0);
    lemma_digits_end_bounds(s, i1);
    lemma_digits_end_bounds(s, i2);
    lemma_digits_end_bounds(s, i3);
    lemma_digits_end_bounds(s, i4);
    let a = field(s, i0);
    let b = field(s, i1);
    let c = field(s, i2);
    let d = field(s, i3);
    let p = field(s, i4);
    assert(join(a, b, c, d, p) =~= s);
}

/// The numbers of an endpoint are those of the fields that a reader finds in
/// a text that spells it.
proof fn lemma_spelled_fields(s: Seq<u8>, e: Endpoint)
    requires
        e.spelled_by(s),
    ensures
        scans(s),
        e.ip[0] == number_value(field(s, starts(s).0)),
        e.ip[1] == number_value(field(s, starts(s).1)),
        e.ip[2] == number_value(field(s, starts(s).2)),
        e.ip[3] == number_value(field(s, starts(s).3)),
        e.port == number_value(field(s, starts(s).4)),
{
    let (a, b, c, d, p) = choose|a: Seq<u8>, b: Seq<u8>, c: Seq<u8>, d: Seq<u8>, p: Seq<u8>|
        {
            &&& #[trigger] join(a, b, c, d, p) == s
            &&& is_octet_text(a) && number_value(a) == e.ip[0]
            &&& is_octet_text(b) && number_value(b) == e.ip[1]
            &&& is_octet_text(c) && number_value(c) == e.ip[2]
            &&& is_octet_text(d) && number_value(d) == e.ip[3]
            &&& is_port_text(p) && number_value(p) == e.port
        };
    lemma_fields(s, a, b, c, d, p);
}

/// A reader accepts every well-formed text.
proof fn lemma_scans_complete(s: Seq<u8>)
    ensures
        is_endpoint_text(s) ==> scans(s),
{
    if is_endpoint_text(s) {
        let e = choose|e: Endpoint| e.spelled_by(s);
        lemma_spelled_fields(s, e);
    }
}

/// A text spells at most one endpoint.
pub proof fn lemma_spelling_is_unique(s: Seq<u8>, e1: Endpoint, e2: Endpoint)
    requires
        e1.spelled_by(s),
        e2.spelled_by(s),
    ensures
        e1 == e2,
{
    lemma_spelled_fields(s, e1);
    lemma_spelled_fields(s, e2);
    assert(e1.ip =~= e2.ip);
}

/// Reading a text gives an endpoint exactly when the text spells it.
pub proof fn lemma_parsed_is_the_spelled(s: Seq<u8>, e: Endpoint)
    ensures
        parsed(s) == Ok::<Endpoint, ConfigError>(e) <==> e.spelled_by(s),
{
    if is_endpoint_text(s) {
        let chosen = choose|e: Endpoint| e.spelled_by(s);
        if e.spelled_by(s) {
            lemma_spelling_is_unique(s, e, chosen);
        }
    }
}

/// The shortest spelling of a number is a number without a leading zero, as
/// long as the number needs it to be, and spells that number.
proof fn lemma_decimal_text(n: nat)
    ensures
        is_number(decimal_text(n)),
        number_value(decimal_text(n)) == n,
        n > 0 ==> decimal_text(n)[0] != ZERO,
        n < 10 ==> decimal_text(n).len() == 1,
        10 <= n < 100 ==> decimal_text(n).len() == 2,
        100 <= n < 1000 ==> decimal_text(n).len() == 3,
    decreases n,
{
    let t = decimal_text(n);
    if n < 10 {
        assert(t.drop_last() =~= Seq::<u8>::empty());
        assert(number_value(t.drop_last()) == 0);
    } else {
        lemma_decimal_text(n / 10);
        assert(t.drop_last() =~= decimal_text(n / 10));
        assert(t.last() == (0x30 + n % 10) as u8);
        assert(t[0] == decimal_text(n / 10)[0]);
    }
}

/// Every endpoint is spelled by its shortest spelling, and read back from it.
pub proof fn lemma_text_round_trips(e: Endpoint)
    ensures
        e.spelled_by(e.text()),
        parsed(e.text()) == Ok::<Endpoint, ConfigError>(e),
{
    lemma_parsed_is_the_spelled(e.text(), e);
    lemma_decimal_text(e.ip[0] as nat);
    lemma_decimal_text(e.ip[1] as nat);
    lemma_decimal_text(e.ip[2] as nat);
    lemma_decimal_text(e.ip[3] as nat);
    lemma_decimal_text(e.port as nat);
    assert(e.text() == join(
        decimal_text(e.ip[0] as nat),
        decimal_text(e.ip[1] as nat),
        decimal_text(e.ip[2] as nat),
        decimal_text(e.ip[3] as nat),
        decimal_text(e.port as nat),
    ));
}

fn is_digit_byte(b: u8) -> (r: bool)
    ensures
        r == is_digit(b),
{
    0x30 <= b && b <= 0x39
}

/// Finds the end of the run of digits that starts at `from`.
fn scan_digits(s: &[u8], from: usize) -> (end: usize)
    requires
        from <= s.len(),
    ensures
        end == digits_end(s@, from as int),
        from <= end <= s.len(),
        forall|i: int| from <= i < end ==> is_digit(#[trigger] s@[i]),
{
    let mut i: usize = from;
    while i < s.len() && is_digit_byte(s[i])
        invariant
            from <= i <= s.len(),
            forall|j: int| from <= j < i ==> is_digit(#[trigger] s@[j]),
        decreases s.len() - i,
    {
        i += 1;
    }
    proof {
        lemma_digits_end_is(s@, from as int, i as int);
    }
    i
}

/// Reads the digits from `from` to `end` as a number no larger than `cap`.
fn read_number(s: &[u8], from: usize, end: usize, cap: u32) -> (r: Option<u32>)
    requires
        from <= end <= s.len(),
        forall|i: int| from <= i < end ==> is_digit(#[trigger] s@[i]),
        cap <= 65535,
    ensures
        r == if number_value(s@.subrange(from as int, end as int)) <= cap {
            Some(number_value(s@.subrange(from as int, end as int)) as u32)
        } else {
            None
        },
{
    let mut v: u32 = 0;
    let mut i: usize = from;
    assert(s@.subrange(from as int, from as int) =~= Seq::<u8>::empty());
    while i < end
        invariant
            from <= i <= end <= s.len(),
            forall|j: int| from <= j < end ==> is_digit(#[trigger] s@[j]),
            cap <= 65535,
            v <= cap,
            v == number_value(s@.subrange(from as int, i as int)),
        decreases end - i,
    {
        let digit: u32 = (s[i] - 0x30) as u32;
        proof {
            let t = s@.subrange(from as int, i + 1);
            assert(t.drop_last() =~= s@.subrange(from as int, i as int));
            assert(t.last() == s@[i as int]);
        }
        v = v * 10 + digit;
        i += 1;
        if v > cap {
            proof {
                let whole = s@.subrange(from as int, end as int);
                lemma_value_of_prefix(whole, i - from);
                assert(whole.subrange(0, i - from) =~= s@.subrange(from as int, i as int));
            }
            return None;
        }
    }
    Some(v)
}

/// Reads one of the four numbers of the address, and the separator after it.
/// Returns the number and the place after the separator.
fn read_octet(s: &[u8], from: usize, sep: u8) -> (r: Option<(u8, usize)>)
    requires
        from <= s.len(),
    ensures
        match r {
            Some((v, next)) => {
                &&& is_octet_text(field(s@, from as int))
                &&& field_ends_with(s@, from as int, sep)
                &&& v == number_value(field(s@, from as int))
                &&& next == digits_end(s@, from as int) + 1
                &&& next <= s.len()
            },
            None => !(is_octet_text(field(s@, from as int)) && field_ends_with(
                s@,
                from as int,
                sep,
            )),
        },
{
    let end = scan_digits(s, from);
    let len = end - from;
    if len == 0 || len > 3 {
        return None;
    }
    if len > 1 && s[from] == ZERO {
        return None;
    }
    if end >= s.len() || s[end] != sep {
        return None;
    }
    match read_number(s, from, end, 255) {
        Some(v) => Some((v as u8, end + 1)),
        None => None,
    }
}

/// Reads the port, which must run to the end of the text.
fn read_port(s: &[u8], from: usize) -> (r: Option<u16>)
    requires
        from <= s.len(),
    ensures
        match r {
            Some(v) => {
                &&& is_port_text(field(s@, from as int))
                &&& digits_end(s@, from as int) == s.len()
                &&& v == number_value(field(s@, from as int))
            },
            None => !(is_port_text(field(s@, from as int)) && digits_end(s@, from as int)
                == s.len()),
        },
{
    let end = scan_digits(s, from);
    if end == from || end != s.len() {
        return None;
    }
    match read_number(s, from, end, 65535) {
        Some(v) => Some(v as u16),
        None => None,
    }
}

impl Endpoint {
    /// Reads an endpoint written as `A.B.C.D:PORT`.
    ///
    /// Succeeds exactly on the texts that spell an endpoint, with the endpoint
    /// that the text spells; every other text is an invalid address.
    pub fn parse(s: &[u8]) -> (r: Result<Endpoint, ConfigError>)
        ensures
            r == parsed(s@),
            match r {
                Ok(e) => e.spelled_by(s@),
                Err(err) => err == ConfigError::InvalidAddress && !is_endpoint_text(s@),
            },
    {
        proof {
            lemma_scans_complete(s@);
        }
        let (a, i1) = match read_octet(s, 0, DOT) {
            Some(found) => found,
            None => {
                return Err(ConfigError::InvalidAddress);
            },
        };
        let (b, i2) = match read_octet(s, i1, DOT) {
            Some(found) => found,
            None => {
                return Err(ConfigError::InvalidAddress);
            },
        };
        let (c, i3) = match read_octet(s, i2, DOT) {
            Some(found) => found,
            None => {
                return Err(ConfigError::InvalidAddress);
            },
        };
        let (d, i4) = match read_octet(s, i3, COLON) {
            Some(found) => found,
            None => {
                return Err(ConfigError::InvalidAddress);
            },
        };
        let port = match read_port(s, i4) {
            Some(found) => found,
            None => {
                return Err(ConfigError::InvalidAddress);
            },
        };
        let e = Endpoint { ip: [a, b, c, d], port };
        proof {
            lemma_scans_sound(s@, e);
            lemma_parsed_is_the_spelled(s@, e);
        }
        Ok(e)
    }
}

/// Reads a command-line argument as an endpoint.
///
/// The argument is taken byte by byte, so a text with a character outside
/// ASCII is an invalid address like any other ill-formed text.
pub fn get_addr_from_arg(arg: &str) -> (r: Result<Endpoint, ConfigError>)
    ensures
        r == parsed(arg.spec_bytes()),
        match r {
            Ok(e) => e.spelled_by(arg.spec_bytes()),
            Err(err) => err == ConfigError::InvalidAddress && !is_endpoint_text(arg.spec_bytes()),
        },
{
    Endpoint::parse(arg.as_bytes())
}

} // verus!
