//! The discovery message codec.
//!
//! A server announces itself with the ASCII datagram `ECHO_SERVER:<port>`,
//! where `<port>` is its TCP listening port in decimal, in `1..=65535`.
//! `encode` renders exactly that message; `decode` accepts exactly that
//! shape and pairs the carried port with the datagram's sender address,
//! which the transport supplies — the payload never names a host.

use vstd::prelude::*;

verus! {

/// An IPv4 address as its four octets, most significant first.
#[derive(Clone, Copy, Debug, PartialEq, Eq, Structural)]
pub struct HostAddr {
    pub o0: u8,
    pub o1: u8,
    pub o2: u8,
    pub o3: u8,
}

/// A (host, port) pair sufficient to open a TCP connection.
#[derive(Clone, Copy, Debug, PartialEq, Eq, Structural)]
pub struct Endpoint {
    pub host: HostAddr,
    pub port: u16,
}

/// What a received discovery datagram decodes to: a connectable endpoint,
/// or nothing, in which case the listener discards it and keeps receiving.
#[derive(Clone, Copy, Debug, PartialEq, Eq, Structural)]
pub enum DecodeResult {
    Valid(Endpoint),
    Invalid,
}

/// The fixed message prefix, `ECHO_SERVER:` as bytes.
pub open spec fn tag_bytes() -> Seq<u8> {
    seq![69u8, 67u8, 72u8, 79u8, 95u8, 83u8, 69u8, 82u8, 86u8, 69u8, 82u8, 58u8]
}

/// ASCII decimal digit.
pub open spec fn is_digit(b: u8) -> bool {
    48 <= b <= 57
}

pub open spec fn all_digits(s: Seq<u8>) -> bool {
    forall|i: int| 0 <= i < s.len() ==> is_digit(s[i])
}

/// The number a string of decimal digits denotes.
pub open spec fn digits_value(s: Seq<u8>) -> nat
    decreases s.len(),
{
    if s.len() == 0 {
        0
    } else {
        digits_value(s.drop_last()) * 10 + (s.last() - 48) as nat
    }
}

/// The shortest decimal rendering of `n`: no leading zeros except for `0`
/// itself.
pub open spec fn spec_digits(n: nat) -> Seq<u8>
    decreases n,
{
    if n < 10 {
        seq![(n + 48) as u8]
    } else {
        spec_digits(n / 10).push((n % 10 + 48) as u8)
    }
}

/// The exact bytes of the discovery message for `port`.
pub open spec fn spec_encode(port: u16) -> Seq<u8> {
    tag_bytes() + spec_digits(port as nat)
}

/// A well-formed discovery message: the tag, one colon, then at least one
/// digit denoting a port in `1..=65535`. Splitting such a message on `:`
/// yields exactly two fields, since the digits can hold no second colon.
pub open spec fn valid_message(b: Seq<u8>) -> bool {
    &&& b.len() > 12
    &&& b.take(12) == tag_bytes()
    &&& all_digits(b.skip(12))
    &&& 1 <= digits_value(b.skip(12)) <= 65535
}

/// The port a discovery message carries, if it is well formed.
pub open spec fn spec_decode(b: Seq<u8>) -> Option<u16> {
    if valid_message(b) {
        Some(digits_value(b.skip(12)) as u16)
    } else {
        None
    }
}

/// The message tag as a byte vector.
fn make_tag() -> (r: Vec<u8>)
    ensures
        r@ == tag_bytes(),
{
    let mut r: Vec<u8> = Vec::new();
    r.push(69u8);
    r.push(67u8);
    r.push(72u8);
    r.push(79u8);
    r.push(95u8);
    r.push(83u8);
    r.push(69u8);
    r.push(82u8);
    r.push(86u8);
    r.push(69u8);
    r.push(82u8);
    r.push(58u8);
    proof {
        assert(r@ =~= tag_bytes());
    }
    r
}

/// Appends the decimal digits of `n` to `out`.
fn push_digits(n: u16, out: &mut Vec<u8>)
    ensures
        final(out)@ == old(out)@ + spec_digits(n as nat),
    decreases n,
{
    if n < 10 {
        out.push((n + 48) as u8);
        proof {
            assert(out@ =~= old(out)@ + spec_digits(n as nat));
        }
    } else {
        push_digits(n / 10, out);
        out.push((n % 10 + 48) as u8);
        proof {
            assert(out@ =~= old(out)@ + spec_digits(n as nat));
        }
    }
}

/// Renders the discovery message for `port`: exactly `ECHO_SERVER:<port>`
/// with no trailing data.
pub fn encode(port: u16) -> (r: Vec<u8>)
    ensures
        r@ == spec_encode(port),
{
    let mut r = make_tag();
    push_digits(port, &mut r);
    r
}

/// A digit appended on the right multiplies the value by ten and adds the
/// digit.
proof fn lemma_digits_value_snoc(s: Seq<u8>, d: u8)
    ensures
        digits_value(s.push(d)) == digits_value(s) * 10 + (d - 48) as nat,
{
    assert(s.push(d).drop_last() =~= s);
}

/// Decodes a received discovery datagram. A valid message yields the
/// endpoint made of the datagram's sender address and the carried port;
/// anything else — wrong tag, extra colons, a non-digit, an empty or
/// out-of-range port — yields `Invalid`, never a panic, so the listener
/// can skip the datagram and continue.
pub fn decode(b: &[u8], sender: HostAddr) -> (r: DecodeResult)
    ensures
        match spec_decode(b@) {
            Some(p) => r == DecodeResult::Valid(Endpoint { host: sender, port: p }),
            None => r == DecodeResult::Invalid,
        },
{
    let tag = make_tag();
    if b.len() <= 12 {
        return DecodeResult::Invalid;
    }
    let mut i: usize = 0;
    while i < 12
        invariant
            0 <= i <= 12,
            b@.len() > 12,
            tag@ == tag_bytes(),
            b@.take(i as int) =~= tag_bytes().take(i as int),
        decreases 12 - i,
    {
        if b[i] != tag[i] {
            proof {
                assert(b@.take(12)[i as int] != tag_bytes()[i as int]);
            }
            return DecodeResult::Invalid;
        }
        proof {
            assert(b@.take(i + 1) =~= tag_bytes().take(i + 1));
        }
        i = i + 1;
    }
    proof {
        assert(b@.take(12) =~= tag_bytes());
    }
    let mut val: u32 = 0;
    let mut over: bool = false;
    let mut j: usize = 12;
    while j < b.len()
        invariant
            12 <= j <= b@.len(),
            b@.len() > 12,
            all_digits(b@.subrange(12, j as int)),
            !over ==> val <= 65535 && val == digits_value(b@.subrange(12, j as int)),
            over ==> digits_value(b@.subrange(12, j as int)) > 65535,
        decreases b@.len() - j,
    {
        let c = b[j];
        if c < 48 || c > 57 {
            proof {
                assert(!is_digit(b@.skip(12)[j - 12]));
            }
            return DecodeResult::Invalid;
        }
        proof {
            assert(b@.subrange(12, j + 1) =~= b@.subrange(12, j as int).push(b@[j as int]));
            lemma_digits_value_snoc(b@.subrange(12, j as int), b@[j as int]);
        }
        if over {
        } else if val > 6553 || (val == 6553 && c > 53) {
            over = true;
        } else {
            val = val * 10 + (c - 48) as u32;
        }
        j = j + 1;
    }
    proof {
        assert(b@.subrange(12, b@.len() as int) =~= b@.skip(12));
    }
    if over || val == 0 {
        return DecodeResult::Invalid;
    }
    DecodeResult::Valid(Endpoint { host: sender, port: val as u16 })
}

/// The decimal rendering of `n` is at least one byte of digits and denotes
/// `n` itself.
pub proof fn lemma_spec_digits(n: nat)
    ensures
        all_digits(spec_digits(n)),
        digits_value(spec_digits(n)) == n,
        spec_digits(n).len() >= 1,
    decreases n,
{
    if n < 10 {
        let s = seq![(n + 48) as u8];
        assert(s.drop_last() =~= Seq::<u8>::empty());
        assert(digits_value(s.drop_last()) == 0);
        assert(s.last() == (n + 48) as u8);
        assert(digits_value(s) == n);
    } else {
        lemma_spec_digits(n / 10);
        lemma_digits_value_snoc(spec_digits(n / 10), (n % 10 + 48) as u8);
        vstd::arithmetic::div_mod::lemma_fundamental_div_mod(n as int, 10);
        assert forall|i: int| 0 <= i < spec_digits(n).len() implies is_digit(
            spec_digits(n)[i],
        ) by {
            if i < spec_digits(n / 10).len() {
                assert(is_digit(spec_digits(n / 10)[i]));
            }
        }
    }
}

/// Codec round trip: the encoding of any port in `1..=65535` is a valid
/// message and decodes back to that very port.
pub proof fn lemma_codec_round_trip(port: u16)
    requires
        1 <= port,
    ensures
        spec_decode(spec_encode(port)) == Some(port),
{
    lemma_spec_digits(port as nat);
    let m = spec_encode(port);
    assert(m.take(12) =~= tag_bytes());
    assert(m.skip(12) =~= spec_digits(port as nat));
}

} // verus!
