//! Parsing of port tokens: a single port `N`, a contiguous range `N-M`, or a
//! cross mapping `A:B` whose sides are single ports or equal-length ranges.

use vstd::prelude::*;
use crate::text;

verus! {

pub open spec fn err_not_an_int() -> Seq<char> {
    "Invalid port range syntax, not an int"@
}

pub open spec fn err_unexpected_dash() -> Seq<char> {
    "Invalid port range syntax, unexpected -"@
}

pub open spec fn err_unexpected_colon() -> Seq<char> {
    "Invalid port range syntax, unexpected :"@
}

pub open spec fn err_start_gt_end() -> Seq<char> {
    "Invalid port range syntax, start > end"@
}

pub open spec fn err_length_mismatch() -> Seq<char> {
    "Port range length mismatch"@
}

/// The ports from `a` to `b` inclusive, in ascending order.
pub open spec fn range_seq(a: u16, b: u16) -> Seq<u16> {
    Seq::new(if a <= b { (b - a + 1) as nat } else { 0 }, |i: int| (a + i) as u16)
}

/// What parsing `s` as `start-end` yields: both sides must be ports and the
/// range must not be descending.
pub open spec fn spec_parse_port_ends(s: Seq<char>) -> Result<(u16, u16), Seq<char>> {
    let parts = text::spec_split(s, '-');
    if parts.len() != 2 {
        Err(err_unexpected_dash())
    } else {
        match (text::spec_parse_u16(parts[0]), text::spec_parse_u16(parts[1])) {
            (Some(a), Some(b)) => if a > b {
                Err(err_start_gt_end())
            } else {
                Ok((a, b))
            },
            _ => Err(err_not_an_int()),
        }
    }
}

/// What parsing a port token yields: the local ports and the remote ports it
/// maps them to, index by index.
pub open spec fn spec_parse_port_range(s: Seq<char>) -> Result<(Seq<u16>, Seq<u16>), Seq<char>> {
    if s.contains(':') {
        let parts = text::spec_split(s, ':');
        if parts.len() != 2 {
            Err(err_unexpected_colon())
        } else if parts[0].contains('-') {
            match spec_parse_port_ends(parts[0]) {
                Err(m) => Err(m),
                Ok((a, b)) => match spec_parse_port_ends(parts[1]) {
                    Err(m) => Err(m),
                    Ok((c, d)) => if b - a != d - c {
                        Err(err_length_mismatch())
                    } else {
                        Ok((range_seq(a, b), range_seq(c, d)))
                    },
                },
            }
        } else {
            match (text::spec_parse_u16(parts[0]), text::spec_parse_u16(parts[1])) {
                (Some(p), Some(q)) => Ok((seq![p], seq![q])),
                _ => Err(err_not_an_int()),
            }
        }
    } else if s.contains('-') {
        match spec_parse_port_ends(s) {
            Err(m) => Err(m),
            Ok((a, b)) => Ok((range_seq(a, b), range_seq(a, b))),
        }
    } else {
        match text::spec_parse_u16(s) {
            Some(p) => Ok((seq![p], seq![p])),
            None => Err(err_not_an_int()),
        }
    }
}

/// Parses a single port.
pub fn parse_single(arg: &str) -> (r: Result<u16, &'static str>)
    ensures
        match text::spec_parse_u16(arg@) {
            Some(p) => r == Ok::<u16, &'static str>(p),
            None => r matches Err(m) && m@ == err_not_an_int(),
        },
{
    let chars = text::chars_of(arg);
    match text::parse_u16_chars(&chars) {
        Some(p) => Ok(p),
        None => Err("Invalid port range syntax, not an int"),
    }
}

/// Parses `start-end` given as its characters.
fn parse_port_ends_chars(v: Vec<char>) -> (r: Result<(u16, u16), &'static str>)
    ensures
        match r {
            Ok(p) => spec_parse_port_ends(v@) == Ok::<(u16, u16), Seq<char>>(p) && p.0 <= p.1,
            Err(m) => spec_parse_port_ends(v@) == Err::<(u16, u16), Seq<char>>(m@),
        },
{
    let ghost s = v@;
    let parts = text::split_on(v, '-');
    proof {
        assert(parts@.map_values(|p: Vec<char>| p@).len() == parts@.len());
    }
    if parts.len() != 2 {
        return Err("Invalid port range syntax, unexpected -");
    }
    proof {
        assert(text::spec_split(s, '-')[0] == parts@[0]@);
        assert(text::spec_split(s, '-')[1] == parts@[1]@);
    }
    let start = match text::parse_u16_chars(&parts[0]) {
        Some(p) => p,
        None => {
            return Err("Invalid port range syntax, not an int");
        },
    };
    let end = match text::parse_u16_chars(&parts[1]) {
        Some(p) => p,
        None => {
            return Err("Invalid port range syntax, not an int");
        },
    };
    if start > end {
        return Err("Invalid port range syntax, start > end");
    }
    Ok((start, end))
}

/// Parses `start-end`: two ports separated by one dash, in ascending order.
pub fn parse_port_ends(ends: &str) -> (r: Result<(u16, u16), &'static str>)
    ensures
        match r {
            Ok(p) => spec_parse_port_ends(ends@) == Ok::<(u16, u16), Seq<char>>(p) && p.0 <= p.1,
            Err(m) => spec_parse_port_ends(ends@) == Err::<(u16, u16), Seq<char>>(m@),
        },
{
    let chars = text::chars_of(ends);
    parse_port_ends_chars(chars)
}

/// The ports from `a` to `b` inclusive, as a vector.
fn build_range(a: u16, b: u16) -> (r: Vec<u16>)
    requires
        a <= b,
    ensures
        r@ == range_seq(a, b),
{
    let mut r: Vec<u16> = Vec::new();
    let mut p: u32 = a as u32;
    while p <= b as u32
        invariant
            a <= b,
            a as u32 <= p <= b as u32 + 1,
            r@.len() == p - a,
            forall|i: int| 0 <= i < r@.len() ==> r@[i] == (a + i) as u16,
        decreases b as u32 + 1 - p,
    {
        r.push(#[verifier::truncate] (p as u16));
        p += 1;
    }
    proof {
        assert(r@ =~= range_seq(a, b));
    }
    r
}

/// The ports from `a` to `b` inclusive, as a vector; empty when `a > b`.
pub fn range_vec(a: u16, b: u16) -> (r: Vec<u16>)
    ensures
        r@ == range_seq(a, b),
{
    if a <= b {
        build_range(a, b)
    } else {
        let r: Vec<u16> = Vec::new();
        proof {
            assert(r@ =~= range_seq(a, b));
        }
        r
    }
}

/// Parses a port token into its local ports and the remote ports they map to,
/// pair by pair.
pub fn parse_port_range(arg: &str) -> (r: Result<(Vec<u16>, Vec<u16>), &'static str>)
    ensures
        match r {
            Ok(p) => spec_parse_port_range(arg@) == Ok::<(Seq<u16>, Seq<u16>), Seq<char>>(
                (p.0@, p.1@),
            ) && p.0@.len() == p.1@.len(),
            Err(m) => spec_parse_port_range(arg@) == Err::<(Seq<u16>, Seq<u16>), Seq<char>>(m@),
        },
{
    let chars = text::chars_of(arg);
    let ghost s = chars@;
    if text::contains_char(&chars, ':') {
        let mut parts = text::split_on(chars, ':');
        proof {
            assert(parts@.map_values(|p: Vec<char>| p@).len() == parts@.len());
        }
        if parts.len() != 2 {
            return Err("Invalid port range syntax, unexpected :");
        }
        proof {
            assert(text::spec_split(s, ':')[0] == parts@[0]@);
            assert(text::spec_split(s, ':')[1] == parts@[1]@);
        }
        let second = parts.remove(1);
        let first = parts.remove(0);
        if text::contains_char(&first, '-') {
            let (a, b) = match parse_port_ends_chars(first) {
                Ok(p) => p,
                Err(m) => {
                    return Err(m);
                },
            };
            let (c, d) = match parse_port_ends_chars(second) {
                Ok(p) => p,
                Err(m) => {
                    return Err(m);
                },
            };
            if b - a != d - c {
                return Err("Port range length mismatch");
            }
            let host_ports = build_range(a, b);
            let remote_ports = build_range(c, d);
            Ok((host_ports, remote_ports))
        } else {
            let p = match text::parse_u16_chars(&first) {
                Some(p) => p,
                None => {
                    return Err("Invalid port range syntax, not an int");
                },
            };
            let q = match text::parse_u16_chars(&second) {
                Some(q) => q,
                None => {
                    return Err("Invalid port range syntax, not an int");
                },
            };
            let mut host_ports: Vec<u16> = Vec::new();
            host_ports.push(p);
            let mut remote_ports: Vec<u16> = Vec::new();
            remote_ports.push(q);
            proof {
                assert(host_ports@ =~= seq![p]);
                assert(remote_ports@ =~= seq![q]);
            }
            Ok((host_ports, remote_ports))
        }
    } else if text::contains_char(&chars, '-') {
        let (a, b) = match parse_port_ends_chars(chars) {
            Ok(p) => p,
            Err(m) => {
                return Err(m);
            },
        };
        let host_ports = build_range(a, b);
        let remote_ports = build_range(a, b);
        Ok((host_ports, remote_ports))
    } else {
        let p = match text::parse_u16_chars(&chars) {
            Some(p) => p,
            None => {
                return Err("Invalid port range syntax, not an int");
            },
        };
        let mut host_ports: Vec<u16> = Vec::new();
        host_ports.push(p);
        let mut remote_ports: Vec<u16> = Vec::new();
        remote_ports.push(p);
        proof {
            assert(host_ports@ =~= seq![p]);
            assert(remote_ports@ =~= seq![p]);
        }
        Ok((host_ports, remote_ports))
    }
}

/// Every successful parse of a port token maps local ports to remote ports in
/// ascending lockstep: the pairs are `(h0, r0), (h0+1, r0+1), ...`, one for
/// each index.
pub proof fn lemma_port_pairs_ascend(s: Seq<char>, h: Seq<u16>, r: Seq<u16>)
    requires
        spec_parse_port_range(s) == Ok::<(Seq<u16>, Seq<u16>), Seq<char>>((h, r)),
    ensures
        h.len() == r.len(),
        h.len() >= 1,
        forall|i: int| 0 <= i < h.len() ==> #[trigger] h[i] == h[0] + i && #[trigger] r[i] == r[0]
            + i,
{
}

} // verus!
