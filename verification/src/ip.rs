//! Textual IP addresses: parsing of the dotted IPv4 and colon-separated IPv6
//! forms, and their canonical renderings (IPv6 with the longest zero run
//! compressed and the IPv4-mapped special case).

use vstd::prelude::*;
use crate::json::{is_digit, digit_val, hex_val};
use crate::text::{dec_str, hex_str, push_char, push_dec_u64, push_hex_u16};

verus! {

broadcast use vstd::seq::group_seq_axioms, vstd::std_specs::vec::group_vec_axioms;

/// Spec-level address value.
pub enum IpV {
    V4(int, int, int, int),
    V6(Seq<u16>),
}

/// A parsed remote address.
pub enum IpAddress {
    V4(u8, u8, u8, u8),
    V6(Vec<u16>),
}

pub open spec fn ip_view(ip: IpAddress) -> IpV {
    match ip {
        IpAddress::V4(a, b, c, d) => IpV::V4(a as int, b as int, c as int, d as int),
        IpAddress::V6(gs) => IpV::V6(gs@),
    }
}

pub open spec fn ip_wf(ip: IpAddress) -> bool {
    match ip {
        IpAddress::V4(..) => true,
        IpAddress::V6(gs) => gs@.len() == 8,
    }
}

// ---------------------------------------------------------------------------
// Parsing
// ---------------------------------------------------------------------------

pub open spec fn spec_find_char(s: Seq<char>, from: int, to: int, c: char) -> int
    decreases to - from,
{
    if from < to && 0 <= from < s.len() {
        if s[from] == c {
            from
        } else {
            spec_find_char(s, from + 1, to, c)
        }
    } else {
        to
    }
}

pub open spec fn spec_has_char(s: Seq<char>, from: int, to: int, c: char) -> bool {
    spec_find_char(s, from, to, c) != to
}

/// One decimal octet, 1 to 3 digits, no leading zero, value at most 255.
pub open spec fn spec_octet(s: Seq<char>, from: int, to: int) -> Option<int> {
    if !(0 <= from < to <= s.len()) {
        None
    } else if to - from > 3 {
        None
    } else if !(forall|k: int| from <= k < to ==> is_digit(s[k])) {
        None
    } else if to - from > 1 && s[from] == '0' {
        None
    } else {
        let v = if to - from == 1 {
            digit_val(s[from])
        } else if to - from == 2 {
            digit_val(s[from]) * 10 + digit_val(s[from + 1])
        } else {
            digit_val(s[from]) * 100 + digit_val(s[from + 1]) * 10 + digit_val(s[from + 2])
        };
        if v <= 255 {
            Some(v)
        } else {
            None
        }
    }
}

/// A dotted-quad IPv4 address filling the whole range.
pub open spec fn spec_parse_v4(s: Seq<char>, from: int, to: int) -> Option<(int, int, int, int)> {
    let p1 = spec_find_char(s, from, to, '.');
    let p2 = spec_find_char(s, p1 + 1, to, '.');
    let p3 = spec_find_char(s, p2 + 1, to, '.');
    if p1 == to || p2 == to || p3 == to || spec_has_char(s, p3 + 1, to, '.') {
        None
    } else {
        match (
            spec_octet(s, from, p1),
            spec_octet(s, p1 + 1, p2),
            spec_octet(s, p2 + 1, p3),
            spec_octet(s, p3 + 1, to),
        ) {
            (Some(a), Some(b), Some(c), Some(d)) => Some((a, b, c, d)),
            _ => None,
        }
    }
}

/// One hexadecimal group of 1 to 4 digits.
pub open spec fn spec_hex_group(s: Seq<char>, from: int, to: int) -> Option<int> {
    if !(0 <= from < to <= s.len()) {
        None
    } else if to - from > 4 {
        None
    } else {
        match (hex_val(s[from]),
               if to - from >= 2 { hex_val(s[from + 1]) } else { Some(0) },
               if to - from >= 3 { hex_val(s[from + 2]) } else { Some(0) },
               if to - from >= 4 { hex_val(s[from + 3]) } else { Some(0) }) {
            (Some(a), Some(b), Some(c), Some(d)) => {
                if to - from == 1 {
                    Some(a)
                } else if to - from == 2 {
                    Some(a * 16 + b)
                } else if to - from == 3 {
                    Some(a * 256 + b * 16 + c)
                } else {
                    Some(a * 4096 + b * 256 + c * 16 + d)
                }
            },
            _ => None,
        }
    }
}

/// Colon-separated groups over a non-empty range; a trailing IPv4 quad counts
/// as two groups where permitted.
pub open spec fn spec_parse_groups(s: Seq<char>, from: int, to: int, v4ok: bool) -> Option<
    Seq<u16>,
>
    decreases to - from,
{
    if !(0 <= from < to <= s.len()) {
        None
    } else {
        let g = spec_find_char(s, from, to, ':');
        if g == to {
            if spec_has_char(s, from, to, '.') {
                if v4ok {
                    match spec_parse_v4(s, from, to) {
                        Some((a, b, c, d)) => Some(
                            seq![(a * 256 + b) as u16, (c * 256 + d) as u16],
                        ),
                        None => None,
                    }
                } else {
                    None
                }
            } else {
                match spec_hex_group(s, from, to) {
                    Some(v) => Some(seq![v as u16]),
                    None => None,
                }
            }
        } else if !(from <= g < to) {
            None
        } else {
            match spec_hex_group(s, from, g) {
                None => None,
                Some(v) => match spec_parse_groups(s, g + 1, to, v4ok) {
                    None => None,
                    Some(rest) => Some(seq![v as u16] + rest),
                },
            }
        }
    }
}

pub open spec fn spec_parse_side(s: Seq<char>, from: int, to: int, v4ok: bool) -> Option<
    Seq<u16>,
> {
    if from == to {
        Some(Seq::empty())
    } else {
        spec_parse_groups(s, from, to, v4ok)
    }
}

/// Position of the first `::`, if any.
pub open spec fn spec_find_dc(s: Seq<char>, from: int, to: int) -> Option<int>
    decreases to - from,
{
    if from + 2 <= to && 0 <= from && from + 2 <= s.len() {
        if s[from] == ':' && s[from + 1] == ':' {
            Some(from)
        } else {
            spec_find_dc(s, from + 1, to)
        }
    } else {
        None
    }
}

pub open spec fn zeros16(n: nat) -> Seq<u16> {
    Seq::new(n, |i: int| 0u16)
}

/// A full IPv6 address: eight groups, or two sides joined by one `::` that
/// stands for at least one zero group.
pub open spec fn spec_parse_v6(s: Seq<char>, from: int, to: int) -> Option<Seq<u16>> {
    match spec_find_dc(s, from, to) {
        None => match spec_parse_side(s, from, to, true) {
            Some(gs) => {
                if gs.len() == 8 && from < to {
                    Some(gs)
                } else {
                    None
                }
            },
            None => None,
        },
        Some(j) => match (spec_parse_side(s, from, j, false), spec_parse_side(s, j + 2, to, true)) {
            (Some(l), Some(r)) => {
                if l.len() + r.len() <= 7 {
                    Some(l + zeros16((8 - l.len() - r.len()) as nat) + r)
                } else {
                    None
                }
            },
            _ => None,
        },
    }
}

/// An address in either textual family, the IPv4 form preferred.
pub open spec fn spec_parse_ip(s: Seq<char>) -> Option<IpV> {
    match spec_parse_v4(s, 0, s.len() as int) {
        Some((a, b, c, d)) => Some(IpV::V4(a, b, c, d)),
        None => match spec_parse_v6(s, 0, s.len() as int) {
            Some(gs) => Some(IpV::V6(gs)),
            None => None,
        },
    }
}

// ---------------------------------------------------------------------------
// Canonical rendering
// ---------------------------------------------------------------------------

pub open spec fn spec_v4_text(a: int, b: int, c: int, d: int) -> Seq<char> {
    dec_str(a) + seq!['.'] + dec_str(b) + seq!['.'] + dec_str(c) + seq!['.'] + dec_str(d)
}

/// Length of the run of zero groups starting at `i`.
pub open spec fn zero_run_at(gs: Seq<u16>, i: int) -> int
    decreases gs.len() - i,
{
    if 0 <= i < gs.len() && gs[i] == 0 {
        1 + zero_run_at(gs, i + 1)
    } else {
        0
    }
}

/// Leftmost longest zero run at or after `i`: (start, length).
pub open spec fn best_zero_run(gs: Seq<u16>, i: int) -> (int, int)
    decreases gs.len() - i,
{
    if i >= gs.len() {
        (i, 0)
    } else {
        let rest = best_zero_run(gs, i + 1);
        let l = zero_run_at(gs, i);
        if l >= rest.1 {
            (i, l)
        } else {
            rest
        }
    }
}

/// Hexadecimal groups joined by `:`.
pub open spec fn spec_join_hex(gs: Seq<u16>) -> Seq<char>
    decreases gs.len(),
{
    if gs.len() == 0 {
        Seq::empty()
    } else if gs.len() == 1 {
        hex_str(gs[0] as int)
    } else {
        hex_str(gs[0] as int) + seq![':'] + spec_join_hex(gs.drop_first())
    }
}

pub open spec fn spec_v6_text(gs: Seq<u16>) -> Seq<char> {
    if gs.len() == 8 && gs[0] == 0 && gs[1] == 0 && gs[2] == 0 && gs[3] == 0 && gs[4] == 0 && gs[5]
        == 0xffff {
        seq![':', ':', 'f', 'f', 'f', 'f', ':'] + spec_v4_text(
            gs[6] as int / 256,
            gs[6] as int % 256,
            gs[7] as int / 256,
            gs[7] as int % 256,
        )
    } else {
        let run = best_zero_run(gs, 0);
        if run.1 > 1 {
            spec_join_hex(gs.subrange(0, run.0)) + seq![':', ':'] + spec_join_hex(
                gs.subrange(run.0 + run.1, gs.len() as int),
            )
        } else {
            spec_join_hex(gs)
        }
    }
}

pub open spec fn spec_ip_text(ip: IpV) -> Seq<char> {
    match ip {
        IpV::V4(a, b, c, d) => spec_v4_text(a, b, c, d),
        IpV::V6(gs) => spec_v6_text(gs),
    }
}

/// The `ip:port` socket form; IPv6 addresses stand in brackets.
pub open spec fn spec_socket_text(ip: IpV, port: int) -> Seq<char> {
    match ip {
        IpV::V4(..) => spec_ip_text(ip) + seq![':'] + dec_str(port),
        IpV::V6(..) => seq!['['] + spec_ip_text(ip) + seq![']', ':'] + dec_str(port),
    }
}

// ---------------------------------------------------------------------------
// Executable parser
// ---------------------------------------------------------------------------

fn find_char(s: &Vec<char>, from: usize, to: usize, c: char) -> (r: usize)
    requires
        from <= to <= s@.len(),
    ensures
        r as int == spec_find_char(s@, from as int, to as int, c),
        from <= r <= to,
{
    let mut j = from;
    while j < to && s[j] != c
        invariant
            from <= j <= to <= s@.len(),
            spec_find_char(s@, from as int, to as int, c) == spec_find_char(
                s@,
                j as int,
                to as int,
                c,
            ),
        decreases to - j,
    {
        j = j + 1;
    }
    j
}

fn octet(s: &Vec<char>, from: usize, to: usize) -> (r: Option<u8>)
    requires
        from <= to <= s@.len(),
    ensures
        match r {
            Some(v) => spec_octet(s@, from as int, to as int) == Some(v as int),
            None => spec_octet(s@, from as int, to as int) is None,
        },
{
    if from >= to || to - from > 3 {
        return None;
    }
    let mut k = from;
    while k < to
        invariant
            from <= k <= to <= s@.len(),
            forall|j: int| from <= j < k ==> is_digit(s@[j]),
        decreases to - k,
    {
        let u = s[k] as u32;
        if !(48 <= u && u <= 57) {
            proof {
                assert(!is_digit(s@[k as int]));
            }
            return None;
        }
        k = k + 1;
    }
    if to - from > 1 && s[from] == '0' {
        return None;
    }
    let v: u32 = if to - from == 1 {
        s[from] as u32 - 48
    } else if to - from == 2 {
        (s[from] as u32 - 48) * 10 + (s[from + 1] as u32 - 48)
    } else {
        (s[from] as u32 - 48) * 100 + (s[from + 1] as u32 - 48) * 10 + (s[from + 2] as u32 - 48)
    };
    if v <= 255 {
        Some(v as u8)
    } else {
        None
    }
}

fn parse_v4(s: &Vec<char>, from: usize, to: usize) -> (r: Option<(u8, u8, u8, u8)>)
    requires
        from <= to <= s@.len(),
    ensures
        match r {
            Some(p) => spec_parse_v4(s@, from as int, to as int) == Some(
                (p.0 as int, p.1 as int, p.2 as int, p.3 as int),
            ),
            None => spec_parse_v4(s@, from as int, to as int) is None,
        },
{
    let p1 = find_char(s, from, to, '.');
    if p1 == to {
        return None;
    }
    let p2 = find_char(s, p1 + 1, to, '.');
    if p2 == to {
        return None;
    }
    let p3 = find_char(s, p2 + 1, to, '.');
    if p3 == to {
        return None;
    }
    if find_char(s, p3 + 1, to, '.') != to {
        return None;
    }
    let (a, b, c, d) = (
        octet(s, from, p1),
        octet(s, p1 + 1, p2),
        octet(s, p2 + 1, p3),
        octet(s, p3 + 1, to),
    );
    match (a, b, c, d) {
        (Some(a), Some(b), Some(c), Some(d)) => Some((a, b, c, d)),
        _ => None,
    }
}

fn hex_group(s: &Vec<char>, from: usize, to: usize) -> (r: Option<u16>)
    requires
        from <= to <= s@.len(),
    ensures
        match r {
            Some(v) => spec_hex_group(s@, from as int, to as int) == Some(v as int),
            None => spec_hex_group(s@, from as int, to as int) is None,
        },
{
    if from >= to || to - from > 4 {
        return None;
    }
    let a = crate::json::hexv(s[from]);
    let b = if to - from >= 2 {
        crate::json::hexv(s[from + 1])
    } else {
        Some(0)
    };
    let c = if to - from >= 3 {
        crate::json::hexv(s[from + 2])
    } else {
        Some(0)
    };
    let d = if to - from >= 4 {
        crate::json::hexv(s[from + 3])
    } else {
        Some(0)
    };
    match (a, b, c, d) {
        (Some(a), Some(b), Some(c), Some(d)) => {
            if to - from == 1 {
                Some(a as u16)
            } else if to - from == 2 {
                Some((a * 16 + b) as u16)
            } else if to - from == 3 {
                Some((a * 256 + b * 16 + c) as u16)
            } else {
                Some((a * 4096 + b * 256 + c * 16 + d) as u16)
            }
        },
        _ => None,
    }
}

fn parse_groups(s: &Vec<char>, from: usize, to: usize, v4ok: bool) -> (r: Option<Vec<u16>>)
    requires
        from <= to <= s@.len(),
    ensures
        match r {
            Some(gs) => spec_parse_groups(s@, from as int, to as int, v4ok) == Some(gs@),
            None => spec_parse_groups(s@, from as int, to as int, v4ok) is None,
        },
    decreases to - from,
{
    if from >= to {
        return None;
    }
    let g = find_char(s, from, to, ':');
    if g == to {
        if find_char(s, from, to, '.') != to {
            if v4ok {
                match parse_v4(s, from, to) {
                    Some((a, b, c, d)) => {
                        let mut gs: Vec<u16> = Vec::new();
                        gs.push(a as u16 * 256 + b as u16);
                        gs.push(c as u16 * 256 + d as u16);
                        proof {
                            assert(gs@ =~= seq![
                                (a as int * 256 + b as int) as u16,
                                (c as int * 256 + d as int) as u16,
                            ]);
                        }
                        Some(gs)
                    },
                    None => None,
                }
            } else {
                None
            }
        } else {
            match hex_group(s, from, to) {
                Some(v) => {
                    let mut gs: Vec<u16> = Vec::new();
                    gs.push(v);
                    proof {
                        assert(gs@ =~= seq![v]);
                    }
                    Some(gs)
                },
                None => None,
            }
        }
    } else {
        match hex_group(s, from, g) {
            None => None,
            Some(v) => match parse_groups(s, g + 1, to, v4ok) {
                None => None,
                Some(mut rest) => {
                    proof {
                        assert(rest@.insert(0, v) =~= seq![v] + rest@);
                    }
                    rest.insert(0, v);
                    Some(rest)
                },
            },
        }
    }
}

fn parse_side(s: &Vec<char>, from: usize, to: usize, v4ok: bool) -> (r: Option<Vec<u16>>)
    requires
        from <= to <= s@.len(),
    ensures
        match r {
            Some(gs) => spec_parse_side(s@, from as int, to as int, v4ok) == Some(gs@),
            None => spec_parse_side(s@, from as int, to as int, v4ok) is None,
        },
{
    if from == to {
        let gs: Vec<u16> = Vec::new();
        proof {
            assert(gs@ =~= Seq::<u16>::empty());
        }
        Some(gs)
    } else {
        parse_groups(s, from, to, v4ok)
    }
}

fn find_dc(s: &Vec<char>, from: usize, to: usize) -> (r: Option<usize>)
    requires
        from <= to <= s@.len(),
    ensures
        match r {
            Some(j) => spec_find_dc(s@, from as int, to as int) == Some(j as int) && from <= j
                && j + 2 <= to,
            None => spec_find_dc(s@, from as int, to as int) is None,
        },
    decreases to - from,
{
    if to >= 2 && from <= to - 2 {
        if s[from] == ':' && s[from + 1] == ':' {
            Some(from)
        } else {
            find_dc(s, from + 1, to)
        }
    } else {
        None
    }
}

fn parse_v6(s: &Vec<char>, from: usize, to: usize) -> (r: Option<Vec<u16>>)
    requires
        from <= to <= s@.len(),
    ensures
        match r {
            Some(gs) => spec_parse_v6(s@, from as int, to as int) == Some(gs@) && gs@.len() == 8,
            None => spec_parse_v6(s@, from as int, to as int) is None,
        },
{
    match find_dc(s, from, to) {
        None => match parse_side(s, from, to, true) {
            Some(gs) => {
                if gs.len() == 8 && from < to {
                    Some(gs)
                } else {
                    None
                }
            },
            None => None,
        },
        Some(j) => {
            let left = parse_side(s, from, j, false);
            let right = parse_side(s, j + 2, to, true);
            match (left, right) {
                (Some(l), Some(rr)) => {
                    if l.len() <= 7 && rr.len() <= 7 - l.len() {
                        let fill = 8 - l.len() - rr.len();
                        let mut gs: Vec<u16> = l;
                        let mut t: usize = 0;
                        while t < fill
                            invariant
                                t <= fill,
                                gs@ =~= l@ + zeros16(t as nat),
                            decreases fill - t,
                        {
                            gs.push(0);
                            proof {
                                assert(l@ + zeros16((t + 1) as nat) =~= (l@ + zeros16(
                                    t as nat,
                                )).push(0u16));
                            }
                            t = t + 1;
                        }
                        let mut rr2 = rr;
                        let ghost rv = rr2@;
                        gs.append(&mut rr2);
                        proof {
                            assert(gs@ =~= l@ + zeros16((8 - l@.len() - rv.len()) as nat) + rv);
                        }
                        Some(gs)
                    } else {
                        None
                    }
                },
                _ => None,
            }
        },
    }
}

/// Parse a textual IP address, trying the IPv4 form first.
pub fn parse_ip(s: &Vec<char>) -> (r: Option<IpAddress>)
    ensures
        match r {
            Some(ip) => spec_parse_ip(s@) == Some(ip_view(ip)) && ip_wf(ip),
            None => spec_parse_ip(s@) is None,
        },
{
    match parse_v4(s, 0, s.len()) {
        Some((a, b, c, d)) => Some(IpAddress::V4(a, b, c, d)),
        None => match parse_v6(s, 0, s.len()) {
            Some(gs) => Some(IpAddress::V6(gs)),
            None => None,
        },
    }
}

// ---------------------------------------------------------------------------
// Executable rendering
// ---------------------------------------------------------------------------

fn zero_run_exec(gs: &Vec<u16>, i: usize) -> (r: usize)
    requires
        i <= gs@.len(),
    ensures
        r as int == zero_run_at(gs@, i as int),
        i + r <= gs@.len(),
    decreases gs@.len() - i,
{
    if i < gs.len() && gs[i] == 0 {
        1 + zero_run_exec(gs, i + 1)
    } else {
        0
    }
}

fn best_run_exec(gs: &Vec<u16>, i: usize) -> (r: (usize, usize))
    requires
        i <= gs@.len(),
    ensures
        (r.0 as int, r.1 as int) == best_zero_run(gs@, i as int),
        i <= r.0,
        r.0 + r.1 <= gs@.len(),
    decreases gs@.len() - i,
{
    if i >= gs.len() {
        (i, 0)
    } else {
        let rest = best_run_exec(gs, i + 1);
        let l = zero_run_exec(gs, i);
        if l >= rest.1 {
            (i, l)
        } else {
            rest
        }
    }
}

fn push_join_hex(out: &mut String, gs: &Vec<u16>, from: usize, to: usize)
    requires
        from <= to <= gs@.len(),
    ensures
        final(out)@ == old(out)@ + spec_join_hex(gs@.subrange(from as int, to as int)),
    decreases to - from,
{
    if from >= to {
        proof {
            assert(gs@.subrange(from as int, to as int) =~= Seq::<u16>::empty());
            assert(old(out)@ + Seq::<char>::empty() =~= old(out)@);
        }
    } else if to - from == 1 {
        push_hex_u16(out, gs[from]);
        proof {
            assert(gs@.subrange(from as int, to as int) =~= seq![gs@[from as int]]);
        }
    } else {
        push_hex_u16(out, gs[from]);
        push_char(out, ':');
        push_join_hex(out, gs, from + 1, to);
        proof {
            let sub = gs@.subrange(from as int, to as int);
            assert(sub[0] == gs@[from as int]);
            assert(sub.drop_first() =~= gs@.subrange(from as int + 1, to as int));
            assert(old(out)@ + hex_str(gs@[from as int] as int) + seq![':'] + spec_join_hex(
                gs@.subrange(from as int + 1, to as int),
            ) =~= old(out)@ + spec_join_hex(sub));
        }
    }
}

fn push_v4_text(out: &mut String, a: u8, b: u8, c: u8, d: u8)
    ensures
        final(out)@ == old(out)@ + spec_v4_text(a as int, b as int, c as int, d as int),
{
    push_dec_u64(out, a as u64);
    push_char(out, '.');
    push_dec_u64(out, b as u64);
    push_char(out, '.');
    push_dec_u64(out, c as u64);
    push_char(out, '.');
    push_dec_u64(out, d as u64);
    proof {
        assert(old(out)@ + dec_str(a as int) + seq!['.'] + dec_str(b as int) + seq!['.'] + dec_str(
            c as int,
        ) + seq!['.'] + dec_str(d as int) =~= old(out)@ + spec_v4_text(
            a as int,
            b as int,
            c as int,
            d as int,
        ));
    }
}

/// Append the canonical text of an address.
pub fn push_ip_text(out: &mut String, ip: &IpAddress)
    requires
        ip_wf(*ip),
    ensures
        final(out)@ == old(out)@ + spec_ip_text(ip_view(*ip)),
{
    match ip {
        IpAddress::V4(a, b, c, d) => {
            push_v4_text(out, *a, *b, *c, *d);
        },
        IpAddress::V6(gs) => {
            if gs[0] == 0 && gs[1] == 0 && gs[2] == 0 && gs[3] == 0 && gs[4] == 0 && gs[5]
                == 0xffff {
                push_char(out, ':');
                push_char(out, ':');
                push_char(out, 'f');
                push_char(out, 'f');
                push_char(out, 'f');
                push_char(out, 'f');
                push_char(out, ':');
                push_v4_text(
                    out,
                    (gs[6] / 256) as u8,
                    (gs[6] % 256) as u8,
                    (gs[7] / 256) as u8,
                    (gs[7] % 256) as u8,
                );
                proof {
                    assert(old(out)@.push(':').push(':').push('f').push('f').push('f').push(
                        'f',
                    ).push(':') =~= old(out)@ + seq![':', ':', 'f', 'f', 'f', 'f', ':']);
                    assert(old(out)@ + seq![':', ':', 'f', 'f', 'f', 'f', ':'] + spec_v4_text(
                        gs@[6] as int / 256,
                        gs@[6] as int % 256,
                        gs@[7] as int / 256,
                        gs@[7] as int % 256,
                    ) =~= old(out)@ + spec_v6_text(gs@));
                }
            } else {
                let run = best_run_exec(gs, 0);
                if run.1 > 1 {
                    push_join_hex(out, gs, 0, run.0);
                    push_char(out, ':');
                    push_char(out, ':');
                    push_join_hex(out, gs, run.0 + run.1, gs.len());
                    proof {
                        assert(old(out)@ + spec_join_hex(gs@.subrange(0, run.0 as int)) + seq![
                            ':',
                        ] + seq![':'] + spec_join_hex(
                            gs@.subrange(run.0 as int + run.1 as int, gs@.len() as int),
                        ) =~= old(out)@ + spec_v6_text(gs@));
                    }
                } else {
                    push_join_hex(out, gs, 0, gs.len());
                    proof {
                        assert(gs@.subrange(0, gs@.len() as int) =~= gs@);
                    }
                }
            }
        },
    }
}

/// Append the `ip:port` socket form.
pub fn push_socket_text(out: &mut String, ip: &IpAddress, port: u16)
    requires
        ip_wf(*ip),
    ensures
        final(out)@ == old(out)@ + spec_socket_text(ip_view(*ip), port as int),
{
    match ip {
        IpAddress::V4(..) => {
            push_ip_text(out, ip);
            push_char(out, ':');
            push_dec_u64(out, port as u64);
            proof {
                assert(old(out)@ + spec_ip_text(ip_view(*ip)) + seq![':'] + dec_str(port as int)
                    =~= old(out)@ + spec_socket_text(ip_view(*ip), port as int));
            }
        },
        IpAddress::V6(..) => {
            push_char(out, '[');
            push_ip_text(out, ip);
            push_char(out, ']');
            push_char(out, ':');
            push_dec_u64(out, port as u64);
            proof {
                assert(old(out)@.push('[') =~= old(out)@ + seq!['[']);
                assert(old(out)@ + seq!['['] + spec_ip_text(ip_view(*ip)) + seq![']'] + seq![':']
                    + dec_str(port as int) =~= old(out)@ + spec_socket_text(
                    ip_view(*ip),
                    port as int,
                ));
            }
        },
    }
}

} // verus!
