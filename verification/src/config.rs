//! The mapping-rule model: a rule set per protocol, keyed by bind endpoint,
//! where a later rule for the same bind endpoint silently replaces an earlier
//! one, and the loader that builds rule sets from command-line tokens.

use vstd::prelude::*;
use crate::net::{Ipv4, SockAddrV4};
use crate::ports;
use crate::jsonval;
use crate::jsonval::JsonVal;

verus! {

/// One protocol's rules, as the sequence of `(bind, remote)` pairs in the
/// order they were defined. The pair defined last for a bind endpoint is the
/// active one.
#[derive(Debug)]
pub struct RuleMap {
    entries: Vec<(SockAddrV4, SockAddrV4)>,
}

/// The value that `s`, read as a map keyed by endpoint, holds for `k`: the
/// value of the last pair whose key is `k`, if any.
pub open spec fn spec_lookup<V>(s: Seq<(SockAddrV4, V)>, k: SockAddrV4) -> Option<V>
    decreases s.len(),
{
    if s.len() == 0 {
        None
    } else if s.last().0 == k {
        Some(s.last().1)
    } else {
        spec_lookup(s.drop_last(), k)
    }
}

impl View for RuleMap {
    type V = Seq<(SockAddrV4, SockAddrV4)>;

    closed spec fn view(&self) -> Seq<(SockAddrV4, SockAddrV4)> {
        self.entries@
    }
}

/// Defining a rule for a bind endpoint and then another for the same endpoint
/// leaves exactly the later one active, whatever was defined before.
pub proof fn lemma_duplicate_bind_last_wins(
    s: Seq<(SockAddrV4, SockAddrV4)>,
    k: SockAddrV4,
    v1: SockAddrV4,
    v2: SockAddrV4,
)
    ensures
        spec_lookup(s.push((k, v1)).push((k, v2)), k) == Some(v2),
{
}

/// If `s[i]` is the last pair with key `k`, the lookup yields its value.
proof fn lemma_lookup_at(s: Seq<(SockAddrV4, SockAddrV4)>, k: SockAddrV4, i: int)
    requires
        0 <= i < s.len(),
        s[i].0 == k,
        forall|j: int| i < j < s.len() ==> (#[trigger] s[j]).0 != k,
    ensures
        spec_lookup(s, k) == Some(s[i].1),
    decreases s.len(),
{
    if i + 1 < s.len() {
        assert(s.drop_last()[i] == s[i]);
        lemma_lookup_at(s.drop_last(), k, i);
    }
}

/// A successful lookup is witnessed by the last pair with that key.
proof fn lemma_lookup_last_index(s: Seq<(SockAddrV4, SockAddrV4)>, k: SockAddrV4)
    requires
        spec_lookup(s, k) is Some,
    ensures
        exists|i: int|
            0 <= i < s.len() && (#[trigger] s[i]).0 == k && spec_lookup(s, k) == Some(s[i].1)
                && forall|j: int| i < j < s.len() ==> (#[trigger] s[j]).0 != k,
    decreases s.len(),
{
    if s.last().0 == k {
        let i = s.len() - 1;
        assert(s[i].0 == k && spec_lookup(s, k) == Some(s[i].1) && forall|j: int|
            i < j < s.len() ==> (#[trigger] s[j]).0 != k);
    } else {
        lemma_lookup_last_index(s.drop_last(), k);
        let i = choose|i: int|
            0 <= i < s.drop_last().len() && (#[trigger] s.drop_last()[i]).0 == k && spec_lookup(
                s.drop_last(),
                k,
            ) == Some(s.drop_last()[i].1) && forall|j: int|
                i < j < s.drop_last().len() ==> (#[trigger] s.drop_last()[j]).0 != k;
        assert(s[i] == s.drop_last()[i]);
        assert(forall|j: int| i < j < s.len() - 1 ==> (#[trigger] s[j]) == s.drop_last()[j]);
        assert(s[i].0 == k && spec_lookup(s, k) == Some(s[i].1) && forall|j: int|
            i < j < s.len() ==> (#[trigger] s[j]).0 != k);
    }
}

impl RuleMap {
    /// A rule set with no rules.
    pub fn new() -> (r: RuleMap)
        ensures
            r@ == Seq::<(SockAddrV4, SockAddrV4)>::empty(),
    {
        let r = RuleMap { entries: Vec::new() };
        proof {
            assert(r@ =~= Seq::<(SockAddrV4, SockAddrV4)>::empty());
        }
        r
    }

    /// Defines the rule `bind -> remote`, replacing any earlier rule for
    /// `bind`.
    pub fn insert(&mut self, bind: SockAddrV4, remote: SockAddrV4)
        ensures
            final(self)@ == old(self)@.push((bind, remote)),
    {
        self.entries.push((bind, remote));
    }

    /// The active remote endpoint for `bind`: the one defined last.
    pub fn get(&self, bind: SockAddrV4) -> (r: Option<SockAddrV4>)
        ensures
            r == spec_lookup(self@, bind),
    {
        let mut i: usize = self.entries.len();
        proof {
            assert(self@.subrange(0, i as int) =~= self@);
        }
        while i > 0
            invariant
                i <= self@.len(),
                spec_lookup(self@, bind) == spec_lookup(self@.subrange(0, i as int), bind),
            decreases i,
        {
            i -= 1;
            let ghost upto = self@.subrange(0, i + 1 as int);
            proof {
                assert(upto.last() == self@[i as int]);
                assert(upto.drop_last() =~= self@.subrange(0, i as int));
            }
            let e = self.entries[i];
            if e.0 == bind {
                return Some(e.1);
            }
        }
        proof {
            assert(self@.subrange(0, 0) =~= Seq::<(SockAddrV4, SockAddrV4)>::empty());
        }
        None
    }

    /// How many rule definitions the set holds, shadowed ones included.
    pub fn len(&self) -> (r: usize)
        ensures
            r == self@.len(),
    {
        self.entries.len()
    }

    /// The active rules: one `(bind, remote)` pair for each bind endpoint that
    /// has a rule, each carrying the remote endpoint defined last for it.
    pub fn active_rules(&self) -> (r: Vec<(SockAddrV4, SockAddrV4)>)
        ensures
            forall|p: int, q: int|
                0 <= p < q < r@.len() ==> (#[trigger] r@[p]).0 != (#[trigger] r@[q]).0,
            forall|p: int|
                0 <= p < r@.len() ==> spec_lookup(self@, (#[trigger] r@[p]).0) == Some(r@[p].1),
            forall|k: SockAddrV4|
                spec_lookup(self@, k) is Some ==> exists|p: int|
                    0 <= p < r@.len() && (#[trigger] r@[p]).0 == k,
    {
        let n = self.entries.len();
        let mut r: Vec<(SockAddrV4, SockAddrV4)> = Vec::new();
        let ghost mut idxs: Seq<int> = Seq::empty();
        let mut i: usize = 0;
        while i < n
            invariant
                i <= n,
                n == self@.len(),
                idxs.len() == r@.len(),
                forall|p: int, q: int| 0 <= p < q < idxs.len() ==> idxs[p] < idxs[q],
                forall|p: int| 0 <= p < idxs.len() ==> 0 <= #[trigger] idxs[p] < i,
                forall|p: int|
                    0 <= p < idxs.len() ==> #[trigger] r@[p] == self@[idxs[p]] && (forall|j: int|
                        idxs[p] < j < n ==> (#[trigger] self@[j]).0 != self@[idxs[p]].0),
                forall|ii: int|
                    0 <= ii < i && (forall|j: int|
                        ii < j < n ==> (#[trigger] self@[j]).0 != (#[trigger] self@[ii]).0)
                        ==> exists|p: int| 0 <= p < r@.len() && #[trigger] r@[p] == self@[ii],
            decreases n - i,
        {
            let e = self.entries[i];
            // Keep the pair only if no later pair redefines its bind endpoint.
            let mut last_of_key: bool = true;
            let mut j: usize = i + 1;
            while j < n
                invariant
                    i < j <= n,
                    n == self@.len(),
                    e == self@[i as int],
                    last_of_key <==> (forall|jj: int|
                        i < jj < j ==> (#[trigger] self@[jj]).0 != self@[i as int].0),
                decreases n - j,
            {
                if self.entries[j].0 == e.0 {
                    last_of_key = false;
                }
                j += 1;
            }
            let ghost old_r = r@;
            let ghost old_idxs = idxs;
            if last_of_key {
                r.push(e);
                proof {
                    idxs = idxs.push(i as int);
                }
            }
            proof {
                assert forall|p: int| 0 <= p < idxs.len() implies #[trigger] r@[p]
                    == self@[idxs[p]] && (forall|j: int|
                    idxs[p] < j < n ==> (#[trigger] self@[j]).0 != self@[idxs[p]].0) by {
                    if p < old_idxs.len() {
                        assert(r@[p] == old_r[p]);
                        assert(idxs[p] == old_idxs[p]);
                    } else {
                        assert(idxs[p] == i as int);
                        assert(r@[p] == self@[i as int]);
                    }
                }
                assert forall|ii: int|
                    0 <= ii < i + 1 && (forall|j: int|
                        ii < j < n ==> (#[trigger] self@[j]).0 != (#[trigger] self@[ii]).0) implies
                    exists|p: int| 0 <= p < r@.len() && #[trigger] r@[p] == self@[ii] by {
                    if ii < i {
                        let p = choose|p: int| 0 <= p < old_r.len() && #[trigger] old_r[p]
                            == self@[ii];
                        assert(r@[p] == self@[ii]);
                    } else {
                        assert(last_of_key);
                        assert(r@[r@.len() - 1] == self@[ii]);
                    }
                }
            }
            i += 1;
        }
        proof {
            assert forall|p: int| 0 <= p < r@.len() implies spec_lookup(
                self@,
                (#[trigger] r@[p]).0,
            ) == Some(r@[p].1) by {
                lemma_lookup_at(self@, self@[idxs[p]].0, idxs[p]);
            }
            assert forall|p: int, q: int| 0 <= p < q < r@.len() implies (#[trigger] r@[p]).0 != (
            #[trigger] r@[q]).0 by {
                assert(r@[p] == self@[idxs[p]]);
                assert(r@[q] == self@[idxs[q]]);
                assert(idxs[p] < idxs[q] < n);
                assert(self@[idxs[q]].0 != self@[idxs[p]].0);
            }
            assert forall|k: SockAddrV4| spec_lookup(self@, k) is Some implies exists|p: int|
                0 <= p < r@.len() && (#[trigger] r@[p]).0 == k by {
                lemma_lookup_last_index(self@, k);
                let ii = choose|ii: int|
                    0 <= ii < n && (#[trigger] self@[ii]).0 == k && spec_lookup(self@, k) == Some(
                        self@[ii].1,
                    ) && forall|j: int| ii < j < n ==> (#[trigger] self@[j]).0 != k;
                assert(exists|p: int| 0 <= p < r@.len() && #[trigger] r@[p] == self@[ii]);
                let p = choose|p: int| 0 <= p < r@.len() && #[trigger] r@[p] == self@[ii];
                assert(r@[p].0 == k);
            }
        }
        r
    }
}

/// The protocol a rule forwards.
#[derive(Clone, Copy, PartialEq, Eq, Structural, Debug)]
pub enum Proto {
    Udp,
    Tcp,
}

/// The finished configuration: one rule set per protocol.
#[derive(Debug)]
pub struct Configs {
    pub udp: RuleMap,
    pub tcp: RuleMap,
}

/// The rule pairs one port token contributes, binding `host` and targeting
/// `target`, local port `h[i]` mapped to remote port `r[i]`.
pub open spec fn spec_rule_pairs(host: Ipv4, target: Ipv4, h: Seq<u16>, r: Seq<u16>) -> Seq<
    (SockAddrV4, SockAddrV4),
> {
    Seq::new(
        h.len(),
        |i: int| (SockAddrV4 { ip: host, port: h[i] }, SockAddrV4 { ip: target, port: r[i] }),
    )
}

/// Processing the remaining argument tokens: a bare `udp` or `tcp` switches
/// the mode; any other token is a port token whose pairs extend the active
/// mode's rules; a port token without a mode selected is an error.
#[verifier::opaque]
pub open spec fn spec_load_args_from(
    host: Ipv4,
    target: Ipv4,
    toks: Seq<Seq<char>>,
    mode: Option<Proto>,
    udp: Seq<(SockAddrV4, SockAddrV4)>,
    tcp: Seq<(SockAddrV4, SockAddrV4)>,
) -> Result<(Seq<(SockAddrV4, SockAddrV4)>, Seq<(SockAddrV4, SockAddrV4)>), Seq<char>>
    decreases toks.len(),
{
    if toks.len() == 0 {
        Ok((udp, tcp))
    } else if toks[0] == "udp"@ {
        spec_load_args_from(host, target, toks.drop_first(), Some(Proto::Udp), udp, tcp)
    } else if toks[0] == "tcp"@ {
        spec_load_args_from(host, target, toks.drop_first(), Some(Proto::Tcp), udp, tcp)
    } else {
        match ports::spec_parse_port_range(toks[0]) {
            Err(m) => Err(m),
            Ok((h, r)) => match mode {
                None => Err("TCP or UDP not selected"@),
                Some(Proto::Udp) => spec_load_args_from(
                    host,
                    target,
                    toks.drop_first(),
                    mode,
                    udp + spec_rule_pairs(host, target, h, r),
                    tcp,
                ),
                Some(Proto::Tcp) => spec_load_args_from(
                    host,
                    target,
                    toks.drop_first(),
                    mode,
                    udp,
                    tcp + spec_rule_pairs(host, target, h, r),
                ),
            },
        }
    }
}

/// What loading from argument tokens yields: the first token is the target
/// address, the rest are mode switches and port tokens; the bind address is
/// the wildcard.
#[verifier::opaque]
pub open spec fn spec_load_from_args(toks: Seq<Seq<char>>) -> Result<
    (Seq<(SockAddrV4, SockAddrV4)>, Seq<(SockAddrV4, SockAddrV4)>),
    Seq<char>,
>
    recommends
        toks.len() >= 1,
{
    match crate::net::spec_parse_ipv4(toks[0]) {
        None => Err("Invalid target IP address"@),
        Some(target) => spec_load_args_from(
            Ipv4 { a: 0, b: 0, c: 0, d: 0 },
            target,
            toks.drop_first(),
            None,
            Seq::empty(),
            Seq::empty(),
        ),
    }
}

/// Adds to `map` the rules a parsed port token contributes.
fn push_rule_pairs(
    map: &mut RuleMap,
    host: Ipv4,
    target: Ipv4,
    host_ports: &Vec<u16>,
    remote_ports: &Vec<u16>,
)
    requires
        host_ports@.len() == remote_ports@.len(),
    ensures
        final(map)@ == old(map)@ + spec_rule_pairs(host, target, host_ports@, remote_ports@),
{
    let ghost before = map@;
    let ghost pairs = spec_rule_pairs(host, target, host_ports@, remote_ports@);
    let mut k: usize = 0;
    while k < host_ports.len()
        invariant
            k <= host_ports@.len(),
            host_ports@.len() == remote_ports@.len(),
            pairs == spec_rule_pairs(host, target, host_ports@, remote_ports@),
            map@ == before + pairs.subrange(0, k as int),
        decreases host_ports@.len() - k,
    {
        map.insert(
            SockAddrV4::new(host, host_ports[k]),
            SockAddrV4::new(target, remote_ports[k]),
        );
        k += 1;
        proof {
            assert(map@ =~= before + pairs.subrange(0, k as int));
        }
    }
    proof {
        assert(pairs.subrange(0, k as int) =~= pairs);
    }
}

/// Applies one argument token to the running state: one step of the loader.
fn apply_token(
    host: Ipv4,
    target: Ipv4,
    arg: &String,
    Ghost(rest): Ghost<Seq<Seq<char>>>,
    mode: &mut Option<Proto>,
    udp_map: &mut RuleMap,
    tcp_map: &mut RuleMap,
) -> (r: Result<(), &'static str>)
    requires
        rest.len() > 0,
        rest[0] == arg@,
    ensures
        match r {
            Ok(_) => spec_load_args_from(
                host,
                target,
                rest,
                *old(mode),
                old(udp_map)@,
                old(tcp_map)@,
            ) == spec_load_args_from(
                host,
                target,
                rest.drop_first(),
                *final(mode),
                final(udp_map)@,
                final(tcp_map)@,
            ),
            Err(m) => spec_load_args_from(
                host,
                target,
                rest,
                *old(mode),
                old(udp_map)@,
                old(tcp_map)@,
            ) == Err::<
                (Seq<(SockAddrV4, SockAddrV4)>, Seq<(SockAddrV4, SockAddrV4)>),
                Seq<char>,
            >(m@),
        },
{
    proof {
        reveal_with_fuel(spec_load_args_from, 1);
    }
    let udp_tok: String = "udp".to_owned();
    let tcp_tok: String = "tcp".to_owned();
    if *arg == udp_tok {
        *mode = Some(Proto::Udp);
        Ok(())
    } else if *arg == tcp_tok {
        *mode = Some(Proto::Tcp);
        Ok(())
    } else {
        match ports::parse_port_range(arg.as_str()) {
            Err(m) => Err(m),
            Ok((host_ports, remote_ports)) => match *mode {
                None => Err("TCP or UDP not selected"),
                Some(Proto::Udp) => {
                    push_rule_pairs(udp_map, host, target, &host_ports, &remote_ports);
                    Ok(())
                },
                Some(Proto::Tcp) => {
                    push_rule_pairs(tcp_map, host, target, &host_ports, &remote_ports);
                    Ok(())
                },
            },
        }
    }
}

impl Configs {
    /// Loads a configuration from argument tokens: target address first, then
    /// mode switches and port tokens.
    pub fn load_from_args(args: &[String]) -> (r: Result<Configs, String>)
        requires
            args@.len() >= 1,
        ensures
            ({
                let toks = args@.map_values(|s: String| s@);
                match r {
                    Ok(c) => crate::config::spec_load_from_args(toks) == Ok::<
                        _,
                        Seq<char>,
                    >((c.udp@, c.tcp@)),
                    Err(m) => crate::config::spec_load_from_args(toks) == Err::<
                        (Seq<(SockAddrV4, SockAddrV4)>, Seq<(SockAddrV4, SockAddrV4)>),
                        _,
                    >(m@),
                }
            }),
    {
        let ghost toks = args@.map_values(|s: String| s@);
        let mut udp_map = RuleMap::new();
        let mut tcp_map = RuleMap::new();
        let host = Ipv4::any();

        let first: &String = &args[0];
        proof {
            reveal(spec_load_from_args);
            assert(toks[0] == args@[0]@);
        }
        let target = match crate::net::parse_ipv4(first.as_str()) {
            Some(t) => t,
            None => {
                return Err("Invalid target IP address".to_owned());
            },
        };

        let mut mode: Option<Proto> = None;
        let mut i: usize = 1;
        proof {
            assert(toks.subrange(1, toks.len() as int) =~= toks.drop_first());
            assert(udp_map@ =~= Seq::<(SockAddrV4, SockAddrV4)>::empty());
            assert(tcp_map@ =~= Seq::<(SockAddrV4, SockAddrV4)>::empty());
        }
        while i < args.len()
            invariant
                1 <= i <= toks.len(),
                toks == args@.map_values(|s: String| s@),
                toks.len() == args@.len(),
                spec_load_from_args(toks) == spec_load_args_from(
                    host,
                    target,
                    toks.subrange(i as int, toks.len() as int),
                    mode,
                    udp_map@,
                    tcp_map@,
                ),
            decreases toks.len() - i,
        {
            let ghost rest = toks.subrange(i as int, toks.len() as int);
            proof {
                assert(rest[0] == toks[i as int]);
                assert(toks[i as int] == args@[i as int]@);
                assert(rest.drop_first() =~= toks.subrange(i + 1, toks.len() as int));
            }
            let arg: &String = &args[i];
            match apply_token(host, target, arg, Ghost(rest), &mut mode, &mut udp_map, &mut tcp_map) {
                Ok(_) => {},
                Err(m) => {
                    return Err(m.to_owned());
                },
            }
            i += 1;
        }
        proof {
            reveal_with_fuel(spec_load_args_from, 1);
            assert(toks.subrange(i as int, toks.len() as int) =~= Seq::<Seq<char>>::empty());
        }
        Ok(Configs { udp: udp_map, tcp: tcp_map })
    }
}

/// Reading a port stored under `key`, where the entry may omit the key: the
/// default then stands in.
pub open spec fn spec_opt_port(e: Seq<(String, JsonVal)>, key: Seq<char>, default: u16) -> Result<
    u16,
    Seq<char>,
> {
    match jsonval::spec_obj_get(e, key) {
        None => Ok(default),
        Some(v) => match jsonval::spec_num(v) {
            Some(q) => Ok(q),
            None => Err("Invalid port range syntax, not a number"@),
        },
    }
}

/// Reading a port stored under `key`, where the entry must hold the key.
pub open spec fn spec_req_port(e: Seq<(String, JsonVal)>, key: Seq<char>) -> Result<
    u16,
    Seq<char>,
> {
    match jsonval::spec_obj_get(e, key) {
        None => Err("No number found for port"@),
        Some(v) => match jsonval::spec_num(v) {
            Some(q) => Ok(q),
            None => Err("Invalid port range syntax, not a number"@),
        },
    }
}

/// The local and remote ports one file-form entry defines: a single
/// `host_port` with an optional `remote_port` defaulting to it, or a
/// `host_port_start`/`host_port_end` range with an optional remote range
/// defaulting to the host range; the two ranges must have equal length.
pub open spec fn spec_entry_ports(e: Seq<(String, JsonVal)>) -> Result<
    (Seq<u16>, Seq<u16>),
    Seq<char>,
> {
    match jsonval::spec_obj_get(e, "host_port"@) {
        Some(hp) => match jsonval::spec_num(hp) {
            None => Err("Invalid port range syntax, not a number"@),
            Some(p) => match spec_opt_port(e, "remote_port"@, p) {
                Err(m) => Err(m),
                Ok(q) => Ok((seq![p], seq![q])),
            },
        },
        None => match jsonval::spec_obj_get(e, "host_port_start"@) {
            None => Err("No ports defined for entry"@),
            Some(hs) => match jsonval::spec_num(hs) {
                None => Err("Invalid port range syntax, not a number"@),
                Some(a) => match spec_req_port(e, "host_port_end"@) {
                    Err(m) => Err(m),
                    Ok(b) => match spec_opt_port(e, "remote_port_start"@, a) {
                        Err(m) => Err(m),
                        Ok(c) => match spec_opt_port(e, "remote_port_end"@, b) {
                            Err(m) => Err(m),
                            Ok(d) => if ports::range_seq(a, b).len() != ports::range_seq(
                                c,
                                d,
                            ).len() {
                                Err("Port length mismatch defined for entry"@)
                            } else {
                                Ok((ports::range_seq(a, b), ports::range_seq(c, d)))
                            },
                        },
                    },
                },
            },
        },
    }
}

/// The bind address one entry defines: the `bind` string, or the wildcard
/// where the key is absent or not a string.
pub open spec fn spec_entry_bind(e: Seq<(String, JsonVal)>) -> Result<Ipv4, Seq<char>> {
    let bs = match jsonval::spec_obj_get(e, "bind"@) {
        Some(JsonVal::Str(s)) => s@,
        _ => "0.0.0.0"@,
    };
    match crate::net::spec_parse_ipv4(bs) {
        Some(ip) => Ok(ip),
        None => Err("Bind address is invalid"@),
    }
}

/// The protocol one entry defines under its required `mode` key.
pub open spec fn spec_entry_mode(e: Seq<(String, JsonVal)>) -> Result<Proto, Seq<char>> {
    match jsonval::spec_obj_get(e, "mode"@) {
        Some(JsonVal::Str(s)) => if s@ == "udp"@ {
            Ok(Proto::Udp)
        } else if s@ == "tcp"@ {
            Ok(Proto::Tcp)
        } else {
            Err("Invalid mode"@)
        },
        _ => Err("No mode defined for entry"@),
    }
}

/// One file-form entry applied to the running rule sets: its ports, bound at
/// its bind address and targeting `remote`, extend the set its mode names.
pub open spec fn spec_apply_entry(
    remote: Ipv4,
    e: Seq<(String, JsonVal)>,
    udp: Seq<(SockAddrV4, SockAddrV4)>,
    tcp: Seq<(SockAddrV4, SockAddrV4)>,
) -> Result<(Seq<(SockAddrV4, SockAddrV4)>, Seq<(SockAddrV4, SockAddrV4)>), Seq<char>> {
    match spec_entry_ports(e) {
        Err(m) => Err(m),
        Ok((h, r)) => match spec_entry_bind(e) {
            Err(m) => Err(m),
            Ok(bind) => match spec_entry_mode(e) {
                Err(m) => Err(m),
                Ok(Proto::Udp) => Ok((udp + spec_rule_pairs(bind, remote, h, r), tcp)),
                Ok(Proto::Tcp) => Ok((udp, tcp + spec_rule_pairs(bind, remote, h, r))),
            },
        },
    }
}

/// A group's entry list applied in order; anything but an object is rejected.
#[verifier::opaque]
pub open spec fn spec_apply_entries(
    remote: Ipv4,
    list: Seq<JsonVal>,
    udp: Seq<(SockAddrV4, SockAddrV4)>,
    tcp: Seq<(SockAddrV4, SockAddrV4)>,
) -> Result<(Seq<(SockAddrV4, SockAddrV4)>, Seq<(SockAddrV4, SockAddrV4)>), Seq<char>>
    decreases list.len(),
{
    if list.len() == 0 {
        Ok((udp, tcp))
    } else {
        match list[0] {
            JsonVal::Obj(e) => match spec_apply_entry(remote, e@, udp, tcp) {
                Err(m) => Err(m),
                Ok((u, t)) => spec_apply_entries(remote, list.drop_first(), u, t),
            },
            _ => Err("Not an object for IPv4 address"@),
        }
    }
}

/// The document's groups applied in order: each group is keyed by the remote
/// address its entries target and must hold a list of entries.
#[verifier::opaque]
pub open spec fn spec_apply_groups(
    groups: Seq<(String, JsonVal)>,
    udp: Seq<(SockAddrV4, SockAddrV4)>,
    tcp: Seq<(SockAddrV4, SockAddrV4)>,
) -> Result<(Seq<(SockAddrV4, SockAddrV4)>, Seq<(SockAddrV4, SockAddrV4)>), Seq<char>>
    decreases groups.len(),
{
    if groups.len() == 0 {
        Ok((udp, tcp))
    } else {
        match crate::net::spec_parse_ipv4(groups[0].0@) {
            None => Err("Invalid IPv4 address"@),
            Some(remote) => match groups[0].1 {
                JsonVal::Arr(list) => match spec_apply_entries(remote, list@, udp, tcp) {
                    Err(m) => Err(m),
                    Ok((u, t)) => spec_apply_groups(groups.drop_first(), u, t),
                },
                _ => Err("Expected a list of entries"@),
            },
        }
    }
}

/// What a parsed configuration document defines: the document must be an
/// object of groups.
pub open spec fn spec_load_from_json(v: JsonVal) -> Result<
    (Seq<(SockAddrV4, SockAddrV4)>, Seq<(SockAddrV4, SockAddrV4)>),
    Seq<char>,
> {
    match v {
        JsonVal::Obj(groups) => spec_apply_groups(groups@, Seq::empty(), Seq::empty()),
        _ => Err("Expected an object of objects"@),
    }
}

/// Reads an optional port from an entry.
fn opt_port(e: &Vec<(String, JsonVal)>, key: &String, default: u16) -> (r: Result<
    u16,
    &'static str,
>)
    ensures
        match r {
            Ok(q) => spec_opt_port(e@, key@, default) == Ok::<u16, Seq<char>>(q),
            Err(m) => spec_opt_port(e@, key@, default) == Err::<u16, Seq<char>>(m@),
        },
{
    match jsonval::obj_get(e, key) {
        None => Ok(default),
        Some(v) => match jsonval::as_port(v) {
            Some(q) => Ok(q),
            None => Err("Invalid port range syntax, not a number"),
        },
    }
}

/// Reads a required port from an entry.
fn req_port(e: &Vec<(String, JsonVal)>, key: &String) -> (r: Result<u16, &'static str>)
    ensures
        match r {
            Ok(q) => spec_req_port(e@, key@) == Ok::<u16, Seq<char>>(q),
            Err(m) => spec_req_port(e@, key@) == Err::<u16, Seq<char>>(m@),
        },
{
    match jsonval::obj_get(e, key) {
        None => Err("No number found for port"),
        Some(v) => match jsonval::as_port(v) {
            Some(q) => Ok(q),
            None => Err("Invalid port range syntax, not a number"),
        },
    }
}

/// Applies one file-form entry to the rule sets.
fn apply_entry(
    remote: Ipv4,
    e: &Vec<(String, JsonVal)>,
    udp_map: &mut RuleMap,
    tcp_map: &mut RuleMap,
) -> (r: Result<(), &'static str>)
    ensures
        match r {
            Ok(_) => spec_apply_entry(remote, e@, old(udp_map)@, old(tcp_map)@) == Ok::<
                _,
                Seq<char>,
            >((final(udp_map)@, final(tcp_map)@)),
            Err(m) => spec_apply_entry(remote, e@, old(udp_map)@, old(tcp_map)@) == Err::<
                (Seq<(SockAddrV4, SockAddrV4)>, Seq<(SockAddrV4, SockAddrV4)>),
                Seq<char>,
            >(m@),
        },
{
    let host_port_key: String = "host_port".to_owned();
    let (host_ports, remote_ports) = match jsonval::obj_get(e, &host_port_key) {
        Some(hp) => {
            let p = match jsonval::as_port(hp) {
                Some(p) => p,
                None => {
                    return Err("Invalid port range syntax, not a number");
                },
            };
            let remote_port_key: String = "remote_port".to_owned();
            let q = match opt_port(e, &remote_port_key, p) {
                Ok(q) => q,
                Err(m) => {
                    return Err(m);
                },
            };
            let mut h: Vec<u16> = Vec::new();
            h.push(p);
            let mut rm: Vec<u16> = Vec::new();
            rm.push(q);
            proof {
                assert(h@ =~= seq![p]);
                assert(rm@ =~= seq![q]);
            }
            (h, rm)
        },
        None => {
            let start_key: String = "host_port_start".to_owned();
            let a = match jsonval::obj_get(e, &start_key) {
                None => {
                    return Err("No ports defined for entry");
                },
                Some(hs) => match jsonval::as_port(hs) {
                    Some(a) => a,
                    None => {
                        return Err("Invalid port range syntax, not a number");
                    },
                },
            };
            let end_key: String = "host_port_end".to_owned();
            let b = match req_port(e, &end_key) {
                Ok(b) => b,
                Err(m) => {
                    return Err(m);
                },
            };
            let rstart_key: String = "remote_port_start".to_owned();
            let c = match opt_port(e, &rstart_key, a) {
                Ok(c) => c,
                Err(m) => {
                    return Err(m);
                },
            };
            let rend_key: String = "remote_port_end".to_owned();
            let d = match opt_port(e, &rend_key, b) {
                Ok(d) => d,
                Err(m) => {
                    return Err(m);
                },
            };
            let h = ports::range_vec(a, b);
            let rm = ports::range_vec(c, d);
            if h.len() != rm.len() {
                return Err("Port length mismatch defined for entry");
            }
            (h, rm)
        },
    };
    let bind_key: String = "bind".to_owned();
    let bind = {
        let parsed = match jsonval::obj_get(e, &bind_key) {
            Some(JsonVal::Str(s)) => crate::net::parse_ipv4(s.as_str()),
            _ => crate::net::parse_ipv4("0.0.0.0"),
        };
        match parsed {
            Some(ip) => ip,
            None => {
                return Err("Bind address is invalid");
            },
        }
    };
    let mode_key: String = "mode".to_owned();
    let udp_tok: String = "udp".to_owned();
    let tcp_tok: String = "tcp".to_owned();
    match jsonval::obj_get(e, &mode_key) {
        Some(JsonVal::Str(s)) => {
            if *s == udp_tok {
                push_rule_pairs(udp_map, bind, remote, &host_ports, &remote_ports);
                Ok(())
            } else if *s == tcp_tok {
                push_rule_pairs(tcp_map, bind, remote, &host_ports, &remote_ports);
                Ok(())
            } else {
                Err("Invalid mode")
            }
        },
        _ => Err("No mode defined for entry"),
    }
}

/// Applies one group's entry list to the rule sets.
fn apply_entries(
    remote: Ipv4,
    list: &Vec<JsonVal>,
    udp_map: &mut RuleMap,
    tcp_map: &mut RuleMap,
) -> (r: Result<(), &'static str>)
    ensures
        match r {
            Ok(_) => spec_apply_entries(remote, list@, old(udp_map)@, old(tcp_map)@) == Ok::<
                _,
                Seq<char>,
            >((final(udp_map)@, final(tcp_map)@)),
            Err(m) => spec_apply_entries(remote, list@, old(udp_map)@, old(tcp_map)@) == Err::<
                (Seq<(SockAddrV4, SockAddrV4)>, Seq<(SockAddrV4, SockAddrV4)>),
                Seq<char>,
            >(m@),
        },
{
    let ghost u0 = udp_map@;
    let ghost t0 = tcp_map@;
    let mut i: usize = 0;
    proof {
        assert(list@.subrange(0, list@.len() as int) =~= list@);
    }
    while i < list.len()
        invariant
            i <= list@.len(),
            u0 == old(udp_map)@,
            t0 == old(tcp_map)@,
            spec_apply_entries(remote, list@, u0, t0) == spec_apply_entries(
                remote,
                list@.subrange(i as int, list@.len() as int),
                udp_map@,
                tcp_map@,
            ),
        decreases list@.len() - i,
    {
        let ghost rest = list@.subrange(i as int, list@.len() as int);
        let ghost cu = udp_map@;
        let ghost ct = tcp_map@;
        proof {
            reveal_with_fuel(spec_apply_entries, 1);
            assert(rest[0] == list@[i as int]);
            assert(rest.drop_first() =~= list@.subrange(i + 1, list@.len() as int));
        }
        match &list[i] {
            JsonVal::Obj(e) => {
                proof {
                    assert(rest[0] matches JsonVal::Obj(ev) && ev@ == e@);
                }
                match apply_entry(remote, e, udp_map, tcp_map) {
                    Ok(_) => {
                        proof {
                            reveal_with_fuel(spec_apply_entries, 1);
                            assert(spec_apply_entries(remote, rest, cu, ct)
                                == spec_apply_entries(remote, rest.drop_first(), udp_map@, tcp_map@));
                        }
                    },
                    Err(m) => {
                        proof {
                            reveal_with_fuel(spec_apply_entries, 1);
                            assert(spec_apply_entry(remote, e@, cu, ct) == Err::<
                                (Seq<(SockAddrV4, SockAddrV4)>, Seq<(SockAddrV4, SockAddrV4)>),
                                Seq<char>,
                            >(m@));
                            assert(spec_apply_entries(remote, rest, cu, ct) == Err::<
                                (Seq<(SockAddrV4, SockAddrV4)>, Seq<(SockAddrV4, SockAddrV4)>),
                                Seq<char>,
                            >(m@));
                        }
                        return Err(m);
                    },
                }
            },
            _ => {
                proof {
                    reveal_with_fuel(spec_apply_entries, 1);
                    assert(!(rest[0] matches JsonVal::Obj(ev)));
                }
                return Err("Not an object for IPv4 address");
            },
        }
        i += 1;
    }
    proof {
        reveal_with_fuel(spec_apply_entries, 1);
        assert(list@.subrange(i as int, list@.len() as int) =~= Seq::<JsonVal>::empty());
    }
    Ok(())
}

/// Applies the document's groups to the rule sets.
fn apply_groups(
    groups: &Vec<(String, JsonVal)>,
    udp_map: &mut RuleMap,
    tcp_map: &mut RuleMap,
) -> (r: Result<(), &'static str>)
    ensures
        match r {
            Ok(_) => spec_apply_groups(groups@, old(udp_map)@, old(tcp_map)@) == Ok::<
                _,
                Seq<char>,
            >((final(udp_map)@, final(tcp_map)@)),
            Err(m) => spec_apply_groups(groups@, old(udp_map)@, old(tcp_map)@) == Err::<
                (Seq<(SockAddrV4, SockAddrV4)>, Seq<(SockAddrV4, SockAddrV4)>),
                Seq<char>,
            >(m@),
        },
{
    let ghost u0 = udp_map@;
    let ghost t0 = tcp_map@;
    let mut i: usize = 0;
    proof {
        assert(groups@.subrange(0, groups@.len() as int) =~= groups@);
    }
    while i < groups.len()
        invariant
            i <= groups@.len(),
            u0 == old(udp_map)@,
            t0 == old(tcp_map)@,
            spec_apply_groups(groups@, u0, t0) == spec_apply_groups(
                groups@.subrange(i as int, groups@.len() as int),
                udp_map@,
                tcp_map@,
            ),
        decreases groups@.len() - i,
    {
        let ghost rest = groups@.subrange(i as int, groups@.len() as int);
        proof {
            reveal_with_fuel(spec_apply_groups, 1);
            assert(rest[0] == groups@[i as int]);
            assert(rest.drop_first() =~= groups@.subrange(i + 1, groups@.len() as int));
        }
        let remote = match crate::net::parse_ipv4(groups[i].0.as_str()) {
            Some(ip) => ip,
            None => {
                return Err("Invalid IPv4 address");
            },
        };
        match &groups[i].1 {
            JsonVal::Arr(list) => {
                match apply_entries(remote, list, udp_map, tcp_map) {
                    Ok(_) => {},
                    Err(m) => {
                        return Err(m);
                    },
                }
            },
            _ => {
                return Err("Expected a list of entries");
            },
        }
        i += 1;
    }
    proof {
        reveal_with_fuel(spec_apply_groups, 1);
        assert(groups@.subrange(i as int, groups@.len() as int) =~= Seq::<
            (String, JsonVal),
        >::empty());
    }
    Ok(())
}

impl Configs {
    /// Builds a configuration from a parsed document.
    pub fn from_json_value(v: &JsonVal) -> (r: Result<Configs, String>)
        ensures
            match r {
                Ok(c) => spec_load_from_json(*v) == Ok::<_, Seq<char>>((c.udp@, c.tcp@)),
                Err(m) => spec_load_from_json(*v) == Err::<
                    (Seq<(SockAddrV4, SockAddrV4)>, Seq<(SockAddrV4, SockAddrV4)>),
                    Seq<char>,
                >(m@),
            },
    {
        match v {
            JsonVal::Obj(groups) => {
                let mut udp_map = RuleMap::new();
                let mut tcp_map = RuleMap::new();
                proof {
                    assert(udp_map@ =~= Seq::<(SockAddrV4, SockAddrV4)>::empty());
                    assert(tcp_map@ =~= Seq::<(SockAddrV4, SockAddrV4)>::empty());
                }
                match apply_groups(groups, &mut udp_map, &mut tcp_map) {
                    Ok(_) => Ok(Configs { udp: udp_map, tcp: tcp_map }),
                    Err(m) => Err(m.to_owned()),
                }
            },
            _ => Err("Expected an object of objects".to_owned()),
        }
    }

    /// Loads a configuration from a document text. Whether the text parses,
    /// and what it defines, depend on its characters alone; a rejected text
    /// yields the parser's own message.
    pub fn load_from_json(config_string: &str) -> (r: Result<Configs, String>)
        ensures
            jsonval::json_parse_of(config_string@) is None ==> r is Err,
            (jsonval::json_parse_of(config_string@) matches Some(v) ==> match r {
                Ok(c) => spec_load_from_json(v) == Ok::<_, Seq<char>>((c.udp@, c.tcp@)),
                Err(m) => spec_load_from_json(v) == Err::<
                    (Seq<(SockAddrV4, SockAddrV4)>, Seq<(SockAddrV4, SockAddrV4)>),
                    Seq<char>,
                >(m@),
            }),
    {
        let v = match jsonval::parse_json_text(config_string) {
            Ok(v) => v,
            Err(e) => {
                return Err(e);
            },
        };
        Self::from_json_value(&v)
    }
}

} // verus!
