//! Plain value types for IPv4 endpoints, and a verified dotted-quad parser.
//!
//! The engine works on these values; the surrounding program converts them to
//! and from the operating system's socket address types.

use vstd::prelude::*;
use crate::text;

verus! {

/// An IPv4 address as its four octets.
#[derive(Clone, Copy, PartialEq, Eq, Structural, Debug, Hash)]
pub struct Ipv4 {
    pub a: u8,
    pub b: u8,
    pub c: u8,
    pub d: u8,
}

/// An IPv4 endpoint: address and port.
#[derive(Clone, Copy, PartialEq, Eq, Structural, Debug, Hash)]
pub struct SockAddrV4 {
    pub ip: Ipv4,
    pub port: u16,
}

impl Ipv4 {
    /// The wildcard address, `0.0.0.0`.
    pub fn any() -> (r: Ipv4)
        ensures
            r == (Ipv4 { a: 0, b: 0, c: 0, d: 0 }),
    {
        Ipv4 { a: 0, b: 0, c: 0, d: 0 }
    }

    pub fn new(a: u8, b: u8, c: u8, d: u8) -> (r: Ipv4)
        ensures
            r == (Ipv4 { a, b, c, d }),
    {
        Ipv4 { a, b, c, d }
    }
}

impl SockAddrV4 {
    pub fn new(ip: Ipv4, port: u16) -> (r: SockAddrV4)
        ensures
            r == (SockAddrV4 { ip, port }),
    {
        SockAddrV4 { ip, port }
    }
}

/// A valid octet literal: one to three digits, no leading zero, value at most
/// 255, as `Ipv4Addr`'s parser accepts.
pub open spec fn valid_octet(s: Seq<char>) -> bool {
    &&& text::all_digits(s)
    &&& s.len() <= 3
    &&& (s.len() > 1 ==> s[0] != '0')
    &&& text::digits_val(s) <= 255
}

/// What parsing `s` as a dotted-quad IPv4 address yields: `Some` exactly when
/// `s` is four valid octet literals separated by dots.
pub open spec fn spec_parse_ipv4(s: Seq<char>) -> Option<Ipv4> {
    let parts = text::spec_split(s, '.');
    if parts.len() == 4 && valid_octet(parts[0]) && valid_octet(parts[1]) && valid_octet(parts[2])
        && valid_octet(parts[3]) {
        Some(
            Ipv4 {
                a: text::digits_val(parts[0]) as u8,
                b: text::digits_val(parts[1]) as u8,
                c: text::digits_val(parts[2]) as u8,
                d: text::digits_val(parts[3]) as u8,
            },
        )
    } else {
        None
    }
}

/// Parses one octet literal.
fn parse_octet(v: &Vec<char>) -> (r: Option<u8>)
    ensures
        r is Some <==> valid_octet(v@),
        r is Some ==> r == Some(text::digits_val(v@) as u8),
{
    if v.len() == 0 || v.len() > 3 {
        return None;
    }
    if v.len() > 1 && v[0] == '0' {
        return None;
    }
    let mut val: u16 = 0;
    let mut i: usize = 0;
    while i < v.len()
        invariant
            i <= v@.len(),
            v@.len() <= 3,
            forall|j: int| 0 <= j < i ==> text::is_digit(#[trigger] v@[j]),
            val == text::digits_val(v@.subrange(0, i as int)),
            val <= 999,
        decreases v@.len() - i,
    {
        let c = v[i];
        let cu = c as u32;
        if cu < '0' as u32 || cu > '9' as u32 {
            proof {
                assert(!text::is_digit(v@[i as int]));
            }
            return None;
        }
        let ghost pre = v@.subrange(0, i as int);
        proof {
            assert(v@.subrange(0, i + 1 as int).drop_last() =~= pre);
            text::lemma_digits_val_bound(pre);
            assert(text::pow10(2) == 100 && text::pow10(1) == 10 && text::pow10(0) == 1) by {
                reveal_with_fuel(text::pow10, 4);
            }
            assert(text::digits_val(pre) <= 99);
        }
        val = val * 10 + ((cu - '0' as u32) as u16);
        i += 1;
    }
    proof {
        assert(v@.subrange(0, i as int) =~= v@);
    }
    if val > 255 {
        None
    } else {
        Some(val as u8)
    }
}

/// Parses a dotted-quad IPv4 address, as `Ipv4Addr`'s `FromStr` does.
pub fn parse_ipv4(s: &str) -> (r: Option<Ipv4>)
    ensures
        r == spec_parse_ipv4(s@),
{
    let chars = text::chars_of(s);
    parse_ipv4_chars(chars)
}

/// Parses a dotted-quad IPv4 address given as its characters.
pub fn parse_ipv4_chars(chars: Vec<char>) -> (r: Option<Ipv4>)
    ensures
        r == spec_parse_ipv4(chars@),
{
    let ghost cs = chars@;
    let parts = text::split_on(chars, '.');
    proof {
        assert(parts@.map_values(|p: Vec<char>| p@).len() == parts@.len());
    }
    if parts.len() != 4 {
        return None;
    }
    proof {
        assert(text::spec_split(cs, '.')[0] == parts@[0]@);
        assert(text::spec_split(cs, '.')[1] == parts@[1]@);
        assert(text::spec_split(cs, '.')[2] == parts@[2]@);
        assert(text::spec_split(cs, '.')[3] == parts@[3]@);
    }
    let a = match parse_octet(&parts[0]) {
        Some(x) => x,
        None => {
            return None;
        },
    };
    let b = match parse_octet(&parts[1]) {
        Some(x) => x,
        None => {
            return None;
        },
    };
    let c = match parse_octet(&parts[2]) {
        Some(x) => x,
        None => {
            return None;
        },
    };
    let d = match parse_octet(&parts[3]) {
        Some(x) => x,
        None => {
            return None;
        },
    };
    Some(Ipv4 { a, b, c, d })
}

} // verus!
