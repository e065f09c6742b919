//! The concurrent scan engine's deciding half: recognizing the target
//! string, expanding it into a flat address list, choosing the port set,
//! validating the operator's arguments into a probe plan, and folding probe
//! hits back into the single report the operator reads.
//!
//! The probes themselves are network work and stay outside the library;
//! they take the plan's `(address, port)` pairs and hand back the hit lines
//! in whatever order they arrive.

use vstd::prelude::*;
use cidr_utils::cidr::IpCidr;
use crate::args::CommandArgs;
use crate::strutil::{
    dec_str_sp, dec_val_sp, hex_str_sp, is_dec_digit, join_sp, join_with, parse_bool_or_false,
    parse_u64_or, parse_u64_sp, parse_usize_or, parse_usize_sp, push_dec_u64, push_hex_u16,
    split_on, split_sp, str_views, u64_to_string,
};

verus! {

/// A probe-able address as plain numbers: four dotted octets packed
/// big-endian, or a full 128-bit address.
#[derive(Clone, Copy, PartialEq, Eq, Structural, Debug)]
pub enum IpAddress {
    V4(u32),
    V6(u128),
}

/// An address range read from CIDR notation, reduced to its first and last
/// address.
#[derive(Clone, Copy, PartialEq, Eq, Structural, Debug)]
pub enum CidrRange {
    V4 { first: u32, last: u32 },
    V6 { first: u128, last: u128 },
}

/// A range runs forward: its first address never exceeds its last.
pub open spec fn cidr_wf(c: CidrRange) -> bool {
    match c {
        CidrRange::V4 { first, last } => first <= last,
        CidrRange::V6 { first, last } => first <= last,
    }
}

/// What a scan target string was recognized as.
pub enum ScanTarget {
    Address(IpAddress),
    Cidr(CidrRange),
    Unknown(String),
}

/// What CIDR notation the target string holds, reduced to its first and
/// last address; `None` where it holds none.  A bare address counts, with a
/// full-length prefix.
pub uninterp spec fn cidr_of(s: Seq<char>) -> Option<CidrRange>;

/// Relies on `cidr_utils::cidr::IpCidr::from_str` to read CIDR notation,
/// and on `first`/`last` of the parsed range for its bounds.  The result is
/// a function of the string alone, and the parser masks the prefix before
/// storing it, so first never exceeds last.
#[verifier::external_body]
fn parse_cidr(s: &str) -> (r: Option<CidrRange>)
    ensures
        r == cidr_of(s@),
        r matches Some(c) ==> cidr_wf(c),
{
    match IpCidr::from_str(s) {
        Ok(IpCidr::V4(c)) => Some(CidrRange::V4 { first: c.first(), last: c.last() }),
        Ok(IpCidr::V6(c)) => Some(CidrRange::V6 { first: c.first(), last: c.last() }),
        Err(_) => None,
    }
}

/// One octet of a dotted quad: one to three digits, no leading zero unless
/// it is "0" itself, value at most 255.
pub open spec fn is_octet(f: Seq<char>) -> bool {
    &&& 1 <= f.len() <= 3
    &&& forall|i: int| 0 <= i < f.len() ==> is_dec_digit(f[i])
    &&& f.len() > 1 ==> f[0] != '0'
    &&& dec_val_sp(f) <= 255
}

/// The dotted-quad reading of a target string, where it has one.
pub open spec fn ipv4_of(s: Seq<char>) -> Option<u32> {
    let fs = split_sp(s, '.');
    if fs.len() == 4 && is_octet(fs[0]) && is_octet(fs[1]) && is_octet(fs[2]) && is_octet(
        fs[3],
    ) {
        Some(
            (dec_val_sp(fs[0]) * 0x1000000 + dec_val_sp(fs[1]) * 0x10000 + dec_val_sp(fs[2])
                * 0x100 + dec_val_sp(fs[3])) as u32,
        )
    } else {
        None
    }
}

/// Checks one dotted-quad field and reads its value.
fn check_octet(f: &str) -> (r: Option<u8>)
    ensures
        is_octet(f@) ==> (r matches Some(v) && v == dec_val_sp(f@)),
        !is_octet(f@) ==> r is None,
{
    let len = f.unicode_len();
    if len == 0 || len > 3 {
        return None;
    }
    if len > 1 && f.get_char(0) == '0' {
        return None;
    }
    let mut i: usize = 0;
    let mut val: u32 = 0;
    while i < len
        invariant
            i <= len <= 3,
            len == f@.len(),
            forall|k: int| 0 <= k < i ==> is_dec_digit(f@[k]),
            val == dec_val_sp(f@.take(i as int)),
            i == 0 ==> val == 0,
            i == 1 ==> val <= 9,
            i == 2 ==> val <= 99,
            i == 3 ==> val <= 999,
        decreases len - i,
    {
        let c = f.get_char(i);
        let u = c as u32;
        if u < 0x30 || u > 0x39 {
            proof {
                assert(!is_dec_digit(f@[i as int]));
            }
            return None;
        }
        proof {
            assert(f@.take(i + 1).drop_last() =~= f@.take(i as int));
        }
        val = val * 10 + (u - 0x30);
        i += 1;
    }
    proof {
        assert(f@.take(len as int) =~= f@);
    }
    if val > 255 {
        return None;
    }
    Some(val as u8)
}

/// Reads a dotted-quad address, octet syntax checked strictly.
pub fn parse_ipv4(s: &str) -> (r: Option<u32>)
    ensures
        r == ipv4_of(s@),
{
    let fields = split_on(s, '.');
    if fields.len() != 4 {
        return None;
    }
    proof {
        assert(str_views(fields@)[0] == fields@[0]@);
        assert(str_views(fields@)[1] == fields@[1]@);
        assert(str_views(fields@)[2] == fields@[2]@);
        assert(str_views(fields@)[3] == fields@[3]@);
    }
    let o0 = match check_octet(fields[0].as_str()) {
        Some(v) => v,
        None => {
            return None;
        },
    };
    let o1 = match check_octet(fields[1].as_str()) {
        Some(v) => v,
        None => {
            return None;
        },
    };
    let o2 = match check_octet(fields[2].as_str()) {
        Some(v) => v,
        None => {
            return None;
        },
    };
    let o3 = match check_octet(fields[3].as_str()) {
        Some(v) => v,
        None => {
            return None;
        },
    };
    Some((o0 as u32) * 0x1000000 + (o1 as u32) * 0x10000 + (o2 as u32) * 0x100 + (o3 as u32))
}

/// Recognizes the target string: CIDR notation first (a bare address in
/// CIDR notation counts as a one-address range), then a dotted-quad
/// address, otherwise unknown.
pub fn eval_target(target: String) -> (r: ScanTarget)
    ensures
        cidr_of(target@) matches Some(c) ==> (r matches ScanTarget::Cidr(c2) && c2 == c
            && cidr_wf(c)),
        cidr_of(target@) is None ==> (ipv4_of(target@) matches Some(a) ==> (r
            matches ScanTarget::Address(a2) && a2 == IpAddress::V4(a))),
        cidr_of(target@) is None && ipv4_of(target@) is None ==> (r matches ScanTarget::Unknown(t)
            && t@ == target@),
{
    match parse_cidr(target.as_str()) {
        Some(c) => ScanTarget::Cidr(c),
        None => {
            match parse_ipv4(target.as_str()) {
                Some(a) => ScanTarget::Address(IpAddress::V4(a)),
                None => ScanTarget::Unknown(target),
            }
        },
    }
}

/// Every address a range covers, first to last.
pub open spec fn cidr_addrs(c: CidrRange) -> Seq<IpAddress> {
    match c {
        CidrRange::V4 { first, last } => if first <= last {
            Seq::new((last - first + 1) as nat, |i: int| IpAddress::V4((first + i) as u32))
        } else {
            Seq::empty()
        },
        CidrRange::V6 { first, last } => if first <= last {
            Seq::new((last - first + 1) as nat, |i: int| IpAddress::V6((first + i) as u128))
        } else {
            Seq::empty()
        },
    }
}

/// How many addresses a range covers.
pub open spec fn cidr_count(c: CidrRange) -> int {
    cidr_addrs(c).len() as int
}

/// The flat address list a recognized target denotes: the address itself,
/// the range's enumeration, or nothing for an unknown target.
pub open spec fn target_addrs(t: &ScanTarget) -> Seq<IpAddress> {
    match t {
        ScanTarget::Address(a) => seq![*a],
        ScanTarget::Cidr(c) => cidr_addrs(*c),
        ScanTarget::Unknown(_) => Seq::empty(),
    }
}

/// Expands a recognized target into its flat address list.
pub fn expand_target(t: &ScanTarget) -> (r: Vec<IpAddress>)
    requires
        t matches ScanTarget::Cidr(c) ==> cidr_count(*c) <= usize::MAX,
    ensures
        r@ == target_addrs(t),
{
    match t {
        ScanTarget::Address(a) => {
            let mut out: Vec<IpAddress> = Vec::new();
            out.push(*a);
            proof {
                assert(out@ =~= target_addrs(t));
            }
            out
        },
        ScanTarget::Cidr(c) => {
            match c {
                CidrRange::V4 { first, last } => {
                    let first = *first;
                    let last = *last;
                    let mut out: Vec<IpAddress> = Vec::new();
                    if first > last {
                        proof {
                            assert(out@ =~= target_addrs(t));
                        }
                        return out;
                    }
                    let count: u64 = last as u64 - first as u64 + 1;
                    let mut idx: u64 = 0;
                    while idx < count
                        invariant
                            count == last - first + 1,
                            first <= last,
                            idx <= count,
                            out@ == Seq::new(
                                idx as nat,
                                |i: int| IpAddress::V4((first + i) as u32),
                            ),
                        decreases count - idx,
                    {
                        let a = (first as u64 + idx) as u32;
                        out.push(IpAddress::V4(a));
                        idx += 1;
                        proof {
                            assert(out@ =~= Seq::new(
                                idx as nat,
                                |i: int| IpAddress::V4((first + i) as u32),
                            ));
                        }
                    }
                    out
                },
                CidrRange::V6 { first, last } => {
                    let first = *first;
                    let last = *last;
                    let mut out: Vec<IpAddress> = Vec::new();
                    if first > last {
                        proof {
                            assert(out@ =~= target_addrs(t));
                        }
                        return out;
                    }
                    let count: u128 = last - first + 1;
                    let mut idx: u128 = 0;
                    while idx < count
                        invariant
                            count == last - first + 1,
                            first <= last,
                            idx <= count,
                            out@ == Seq::new(
                                idx as nat,
                                |i: int| IpAddress::V6((first + i) as u128),
                            ),
                        decreases count - idx,
                    {
                        let a = first + idx;
                        out.push(IpAddress::V6(a));
                        idx += 1;
                        proof {
                            assert(out@ =~= Seq::new(
                                idx as nat,
                                |i: int| IpAddress::V6((first + i) as u128),
                            ));
                        }
                    }
                    out
                },
            }
        },
        ScanTarget::Unknown(_) => {
            let out: Vec<IpAddress> = Vec::new();
            proof {
                assert(out@ =~= target_addrs(t));
            }
            out
        },
    }
}

/// The curated list of commonly open ports, the default scan set.
pub open spec fn common_port_seq() -> Seq<u16> {
    seq![
        5601u16, 9300, 80, 23, 443, 21, 22, 25, 3389, 110, 445, 139, 143, 53, 135, 3306, 8080,
        1723, 111, 995, 993, 5900, 1025, 587, 8888, 199, 1720, 465, 548, 113, 81, 6001, 10000,
        514, 5060, 179, 1026, 2000, 8443, 8000, 32768, 554, 26, 1433, 49152, 2001, 515, 8008,
        49154, 1027, 5666, 646, 5000, 5631, 631, 49153, 8081, 2049, 88, 79, 5800, 106, 2121,
        1110, 49155, 6000, 513, 990, 5357, 427, 49156, 543, 544, 5101, 144, 7, 389, 8009, 3128,
        444, 9999, 5009, 7070, 5190, 3000, 5432, 1900, 3986, 13, 1029, 9, 5051, 6646, 49157,
        1028, 873, 1755, 2717, 4899, 9100, 119, 37, 1000, 3001, 5001, 82, 10010, 1030, 9090,
        2107, 1024, 2103, 6004, 1801, 5050, 19, 8031, 1041, 255,
    ]
}

/// The ports a scan probes: the whole range for a full scan, the curated
/// list otherwise.
pub open spec fn port_seq(full: bool) -> Seq<u16> {
    if full {
        Seq::new(65535, |i: int| (i + 1) as u16)
    } else {
        common_port_seq()
    }
}

/// Builds the port list to probe.
pub fn get_ports(full: bool) -> (r: Vec<u16>)
    ensures
        r@ == port_seq(full),
{
    if full {
        let mut out: Vec<u16> = Vec::new();
        let mut p: u32 = 1;
        while p <= 65535
            invariant
                1 <= p <= 65536,
                out@.len() == p - 1,
                forall|k: int| 0 <= k < out@.len() ==> out@[k] == k + 1,
            decreases 65536 - p,
        {
            out.push(p as u16);
            p += 1;
        }
        proof {
            assert(out@ =~= port_seq(true));
        }
        out
    } else {
        let out: Vec<u16> = vec![
            5601, 9300, 80, 23, 443, 21, 22, 25, 3389, 110, 445, 139, 143, 53, 135, 3306, 8080,
            1723, 111, 995, 993, 5900, 1025, 587, 8888, 199, 1720, 465, 548, 113, 81, 6001,
            10000, 514, 5060, 179, 1026, 2000, 8443, 8000, 32768, 554, 26, 1433, 49152, 2001,
            515, 8008, 49154, 1027, 5666, 646, 5000, 5631, 631, 49153, 8081, 2049, 88, 79, 5800,
            106, 2121, 1110, 49155, 6000, 513, 990, 5357, 427, 49156, 543, 544, 5101, 144, 7,
            389, 8009, 3128, 444, 9999, 5009, 7070, 5190, 3000, 5432, 1900, 3986, 13, 1029, 9,
            5051, 6646, 49157, 1028, 873, 1755, 2717, 4899, 9100, 119, 37, 1000, 3001, 5001, 82,
            10010, 1030, 9090, 2107, 1024, 2103, 6004, 1801, 5050, 19, 8031, 1041, 255,
        ];
        proof {
            assert(out@ =~= common_port_seq());
        }
        out
    }
}

/// The pairs of one address with every port, in port order.
pub open spec fn pairs_of(a: IpAddress, ports: Seq<u16>) -> Seq<(IpAddress, u16)> {
    Seq::new(ports.len(), |i: int| (a, ports[i]))
}

/// The full probe list: every address crossed with every port; the first
/// address's probes come first, each in port order.
pub open spec fn cross_probes(addrs: Seq<IpAddress>, ports: Seq<u16>) -> Seq<(IpAddress, u16)>
    decreases addrs.len(),
{
    if addrs.len() == 0 {
        Seq::empty()
    } else {
        cross_probes(addrs.drop_last(), ports) + pairs_of(addrs.last(), ports)
    }
}

/// Crosses the target addresses with the port set.
pub fn build_probes(addrs: &Vec<IpAddress>, ports: &Vec<u16>) -> (r: Vec<(IpAddress, u16)>)
    ensures
        r@ == cross_probes(addrs@, ports@),
{
    let mut out: Vec<(IpAddress, u16)> = Vec::new();
    let mut i: usize = 0;
    proof {
        assert(out@ =~= cross_probes(addrs@.take(0), ports@));
    }
    while i < addrs.len()
        invariant
            i <= addrs@.len(),
            out@ == cross_probes(addrs@.take(i as int), ports@),
        decreases addrs@.len() - i,
    {
        let a = addrs[i];
        let mut j: usize = 0;
        proof {
            assert(out@ =~= cross_probes(addrs@.take(i as int), ports@) + pairs_of(
                addrs@[i as int],
                ports@,
            ).take(0));
        }
        while j < ports.len()
            invariant
                j <= ports@.len(),
                i < addrs@.len(),
                a == addrs@[i as int],
                out@ == cross_probes(addrs@.take(i as int), ports@) + pairs_of(
                    addrs@[i as int],
                    ports@,
                ).take(j as int),
            decreases ports@.len() - j,
        {
            out.push((a, ports[j]));
            j += 1;
            proof {
                assert(out@ =~= cross_probes(addrs@.take(i as int), ports@) + pairs_of(
                    addrs@[i as int],
                    ports@,
                ).take(j as int));
            }
        }
        i += 1;
        proof {
            assert(addrs@.take(i as int).drop_last() =~= addrs@.take(i - 1));
            assert(pairs_of(addrs@[i - 1], ports@).take(ports@.len() as int) =~= pairs_of(
                addrs@[i - 1],
                ports@,
            ));
            assert(out@ =~= cross_probes(addrs@.take(i as int), ports@));
        }
    }
    proof {
        assert(addrs@.take(addrs@.len() as int) =~= addrs@);
    }
    out
}

/// The text of an address: dotted decimal for four octets, eight
/// colon-separated lower-case hexadecimal groups otherwise.  The eight
/// groups are always written in full — zero runs are not folded into `::`
/// — so the rendering is this one fixed function of the numeric value.
pub open spec fn addr_str_sp(a: IpAddress) -> Seq<char> {
    match a {
        IpAddress::V4(v) => dec_str_sp(v as int / 0x1000000) + seq!['.'] + dec_str_sp(
            v as int / 0x10000 % 0x100,
        ) + seq!['.'] + dec_str_sp(v as int / 0x100 % 0x100) + seq!['.'] + dec_str_sp(
            v as int % 0x100,
        ),
        IpAddress::V6(v) => hex_str_sp(v as int / 0x10000000000000000000000000000 % 0x10000)
            + seq![':'] + hex_str_sp(v as int / 0x1000000000000000000000000 % 0x10000)
            + seq![':'] + hex_str_sp(v as int / 0x100000000000000000000 % 0x10000) + seq![':']
            + hex_str_sp(v as int / 0x10000000000000000 % 0x10000) + seq![':'] + hex_str_sp(
            v as int / 0x1000000000000 % 0x10000,
        ) + seq![':'] + hex_str_sp(v as int / 0x100000000 % 0x10000) + seq![':'] + hex_str_sp(
            v as int / 0x10000 % 0x10000,
        ) + seq![':'] + hex_str_sp(v as int % 0x10000),
    }
}

/// Renders an address as text.
pub fn format_addr(a: IpAddress) -> (r: String)
    ensures
        r@ == addr_str_sp(a),
{
    proof {
        reveal_strlit(".");
        reveal_strlit(":");
    }
    match a {
        IpAddress::V4(v) => {
            let mut s = String::new();
            push_dec_u64((v / 0x1000000) as u64, &mut s);
            s.append(".");
            push_dec_u64((v / 0x10000 % 0x100) as u64, &mut s);
            s.append(".");
            push_dec_u64((v / 0x100 % 0x100) as u64, &mut s);
            s.append(".");
            push_dec_u64((v % 0x100) as u64, &mut s);
            proof {
                assert(s@ =~= addr_str_sp(a));
            }
            s
        },
        IpAddress::V6(v) => {
            let mut s = String::new();
            push_hex_u16((v / 0x10000000000000000000000000000 % 0x10000) as u16, &mut s);
            s.append(":");
            push_hex_u16((v / 0x1000000000000000000000000 % 0x10000) as u16, &mut s);
            s.append(":");
            push_hex_u16((v / 0x100000000000000000000 % 0x10000) as u16, &mut s);
            s.append(":");
            push_hex_u16((v / 0x10000000000000000 % 0x10000) as u16, &mut s);
            s.append(":");
            push_hex_u16((v / 0x1000000000000 % 0x10000) as u16, &mut s);
            s.append(":");
            push_hex_u16((v / 0x100000000 % 0x10000) as u16, &mut s);
            s.append(":");
            push_hex_u16((v / 0x10000 % 0x10000) as u16, &mut s);
            s.append(":");
            push_hex_u16((v % 0x10000) as u16, &mut s);
            proof {
                assert(s@ =~= addr_str_sp(a));
            }
            s
        },
    }
}

/// One hit line as the operator reads it.
pub open spec fn hit_line_sp(p: (IpAddress, u16)) -> Seq<char> {
    dec_str_sp(p.1 as int) + " is open on host "@ + addr_str_sp(p.0)
}

/// Renders the report line for one open port.
pub fn format_hit(addr: IpAddress, port: u16) -> (r: String)
    ensures
        r@ == hit_line_sp((addr, port)),
{
    let mut s = u64_to_string(port as u64);
    s.append(" is open on host ");
    let a = format_addr(addr);
    s.append(a.as_str());
    proof {
        assert(s@ =~= hit_line_sp((addr, port)));
    }
    s
}

/// The usage reminder sent back for a short argument list.
pub open spec fn usage_message() -> Seq<char> {
    "[-] Improper args.\n        [*] Usage: portscan [ip] [true/false] [concurrency] [timeout]\n        [*] Example: portscan 192.168.35.5 false 10 0 \u{1f3af}"@
}

/// The refusal of a non-positive concurrency budget.
pub open spec fn concurrency_message() -> Seq<char> {
    "Concurrency value must be greater than 0!"@
}

/// The refusal of a range too wide to spell out address by address.
pub open spec fn range_message() -> Seq<char> {
    "[-] Target range is too large to enumerate"@
}

/// The line reported when no probe succeeded.
pub open spec fn no_results_message() -> Seq<char> {
    "[*] No scan results"@
}

/// The addresses the target string leads to: the range's enumeration, one
/// address, or none at all.
pub open spec fn addrs_of_target_str(s: Seq<char>) -> Seq<IpAddress> {
    match cidr_of(s) {
        Some(c) => cidr_addrs(c),
        None => match ipv4_of(s) {
            Some(a) => seq![IpAddress::V4(a)],
            None => Seq::empty(),
        },
    }
}

/// The probe list an instruction's target and scope lead to.
pub open spec fn probes_for(target: Seq<char>, full: bool) -> Seq<(IpAddress, u16)> {
    cross_probes(addrs_of_target_str(target), port_seq(full))
}

/// A validated probe plan: what to probe, how wide, and how long to wait.
pub struct ScanPlan {
    /// Every `(address, port)` pair to probe, in order.
    pub probes: Vec<(IpAddress, u16)>,
    /// The concurrency budget, also the result channel's capacity.
    pub concurrency: usize,
    /// The per-connection timeout, in milliseconds.
    pub timeout_ms: u64,
}

/// The outcome of validating a scan instruction: a message straight back to
/// the operator, or a plan to run.
pub enum ScanDecision {
    Reject(String),
    Run(ScanPlan),
}

/// Whether a range is narrow enough to spell out address by address.
fn cidr_fits(c: &CidrRange) -> (r: bool)
    ensures
        r == (cidr_count(*c) <= usize::MAX),
{
    match c {
        CidrRange::V4 { first, last } => {
            if *first > *last {
                true
            } else {
                (*last as u64 - *first as u64) <= (usize::MAX - 1) as u64
            }
        },
        CidrRange::V6 { first, last } => {
            if *first > *last {
                true
            } else {
                (*last - *first) <= (usize::MAX - 1) as u128
            }
        },
    }
}

/// Validates a scan instruction's arguments and builds the probe plan.
///
/// Four or fewer tokens earn the usage reminder; a concurrency budget of
/// zero is refused before any work starts; a range too wide to enumerate is
/// refused as well.  Unparseable numbers fall back to their defaults (a
/// concurrency of five, a timeout of one second), and a target that is
/// neither an address nor a range yields a plan with no probes at all.
pub fn plan_portscan(args: &mut CommandArgs) -> (r: ScanDecision)
    requires
        old(args).wf(),
    ensures
        ({
            let rem = old(args).items_view().skip(old(args).taken());
            &&& rem.len() <= 4 ==> (r matches ScanDecision::Reject(m) && m@ == usage_message())
            &&& rem.len() > 4 ==> {
                let conc = parse_usize_sp(rem[2], 5);
                let toolarge = (cidr_of(rem[0]) matches Some(c) && cidr_count(c) > usize::MAX);
                &&& conc == 0 ==> (r matches ScanDecision::Reject(m) && m@
                    == concurrency_message())
                &&& conc > 0 && toolarge ==> (r matches ScanDecision::Reject(m) && m@
                    == range_message())
                &&& conc > 0 && !toolarge ==> (r matches ScanDecision::Run(p) && {
                    &&& p.probes@ == probes_for(rem[0], rem[1] == "true"@)
                    &&& p.concurrency == conc
                    &&& p.timeout_ms == parse_u64_sp(rem[3], 1000)
                })
            }
        }),
{
    let ghost rem = old(args).items_view().skip(old(args).taken());
    let toks = args.collect_remaining();
    if toks.len() <= 4 {
        return ScanDecision::Reject(
            String::from_str(
                "[-] Improper args.\n        [*] Usage: portscan [ip] [true/false] [concurrency] [timeout]\n        [*] Example: portscan 192.168.35.5 false 10 0 \u{1f3af}",
            ),
        );
    }
    proof {
        assert(str_views(toks@)[0] == toks@[0]@);
        assert(str_views(toks@)[1] == toks@[1]@);
        assert(str_views(toks@)[2] == toks@[2]@);
        assert(str_views(toks@)[3] == toks@[3]@);
    }
    let target = eval_target(toks[0].clone());
    let full = parse_bool_or_false(toks[1].as_str());
    let concurrent = parse_usize_or(toks[2].as_str(), 5);
    if concurrent == 0 {
        return ScanDecision::Reject(
            String::from_str("Concurrency value must be greater than 0!"),
        );
    }
    let timeout = parse_u64_or(toks[3].as_str(), 1000);
    let fits = match &target {
        ScanTarget::Cidr(c) => cidr_fits(c),
        _ => true,
    };
    if !fits {
        return ScanDecision::Reject(
            String::from_str("[-] Target range is too large to enumerate"),
        );
    }
    let addrs = expand_target(&target);
    proof {
        assert(addrs@ =~= addrs_of_target_str(rem[0]));
    }
    let ports = get_ports(full);
    let probes = build_probes(&addrs, &ports);
    ScanDecision::Run(ScanPlan { probes, concurrency: concurrent, timeout_ms: timeout })
}

/// Folds the arrived hit lines into the one report the operator reads:
/// the lines joined with line breaks, or the no-result line where nothing
/// was reported.
pub fn collect_scan_results(hits: &Vec<String>) -> (r: String)
    ensures
        hits@.len() == 0 ==> r@ == no_results_message(),
        hits@.len() > 0 ==> r@ == join_sp(str_views(hits@), "\n"@),
{
    if hits.len() == 0 {
        String::from_str("[*] No scan results")
    } else {
        join_with(hits, "\n")
    }
}

/// The canonical hit lines of a plan: one line per probe the reachable set
/// contains, in plan order.
pub open spec fn hit_lines_of(
    probes: Seq<(IpAddress, u16)>,
    reachable: Set<(IpAddress, u16)>,
) -> Seq<Seq<char>>
    decreases probes.len(),
{
    if probes.len() == 0 {
        Seq::empty()
    } else {
        let rest = hit_lines_of(probes.drop_last(), reachable);
        if reachable.contains(probes.last()) {
            rest.push(hit_line_sp(probes.last()))
        } else {
            rest
        }
    }
}

/// For one probe plan and one reachable set, every run reports the same
/// set of hit lines, however the hits were reordered on arrival.
pub proof fn lemma_scan_set_deterministic(
    probes: Seq<(IpAddress, u16)>,
    reachable: Set<(IpAddress, u16)>,
    run1: Seq<Seq<char>>,
    run2: Seq<Seq<char>>,
)
    requires
        run1.to_multiset() == hit_lines_of(probes, reachable).to_multiset(),
        run2.to_multiset() == hit_lines_of(probes, reachable).to_multiset(),
    ensures
        run1.to_set() == run2.to_set(),
{
    run1.to_multiset_ensures();
    run2.to_multiset_ensures();
    assert forall|x: Seq<char>| run1.to_set().contains(x) implies run2.to_set().contains(x) by {
        assert(run1.contains(x));
        assert(run1.to_multiset().count(x) > 0);
        assert(run2.contains(x));
    }
    assert forall|x: Seq<char>| run2.to_set().contains(x) implies run1.to_set().contains(x) by {
        assert(run2.contains(x));
        assert(run2.to_multiset().count(x) > 0);
        assert(run1.contains(x));
    }
    assert(run1.to_set() =~= run2.to_set());
}

} // verus!
