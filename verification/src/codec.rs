//! The wire format for the summary structures: a compact text encoding
//! with decimal integers terminated by `;`, length-prefixed strings, and
//! counted lists. Decoding is specified as a function of the character
//! sequence, and encoding then decoding any value is proved to give the
//! value back.

use vstd::prelude::*;

use crate::strutil::dec_rep;
use crate::strutil::is_digit;
use crate::strutil::spec_parse_u64;
use crate::strutil::lemma_dec_rep_digits;
use crate::strutil::lemma_dec_val_of_dec_rep;
use crate::strutil::u64_dec_chars;
use crate::strutil::parse_u64_chars;
use crate::strutil::copy_range;
use crate::strutil::push_chars;
use crate::strutil::chars_to_string;
use crate::strutil::chars_range_to_string;
use crate::strutil::str_to_chars;

verus! {

// ---------------------------------------------------------------------------
// Primitive encodings
// ---------------------------------------------------------------------------

/// A `u64` on the wire: its decimal digits and a `;` terminator.
pub open spec fn enc_u64(n: u64) -> Seq<char> {
    dec_rep(n as nat) + seq![';']
}

/// An `i64` on the wire: a `-` sign when negative, then as a `u64`.
pub open spec fn enc_i64(n: i64) -> Seq<char> {
    if n < 0 {
        seq!['-'] + dec_rep((-(n as int)) as nat) + seq![';']
    } else {
        dec_rep(n as nat) + seq![';']
    }
}

/// A string on the wire: its character count, then its characters raw.
pub open spec fn enc_str(s: Seq<char>) -> Seq<char> {
    enc_u64(s.len() as u64) + s
}

/// An optional `u16` on the wire: `N` for nothing, `S` and the value.
pub open spec fn enc_opt_u16(o: Option<u16>) -> Seq<char> {
    match o {
        None => seq!['N'],
        Some(v) => seq!['S'] + enc_u64(v as u64),
    }
}

/// The end of the digit run beginning at `pos`.
pub open spec fn digits_end(s: Seq<char>, pos: int) -> int
    decreases s.len() - pos,
{
    if pos < s.len() && is_digit(s[pos]) {
        digits_end(s, pos + 1)
    } else {
        pos
    }
}

pub proof fn lemma_digits_end_at(s: Seq<char>, pos: int, k: int)
    requires
        0 <= pos <= k <= s.len(),
        forall|i: int| pos <= i < k ==> is_digit(#[trigger] s[i]),
        k < s.len() ==> !is_digit(s[k]),
    ensures
        digits_end(s, pos) == k,
    decreases k - pos,
{
    if pos < k {
        lemma_digits_end_at(s, pos + 1, k);
    }
}

/// What decoding a `u64` at `pos` yields: the value of the digit run,
/// provided it is nonempty, fits, and a `;` follows; the position after
/// the terminator.
pub open spec fn spec_dec_u64(s: Seq<char>, pos: int) -> Option<(u64, int)> {
    let end = digits_end(s, pos);
    if pos < end && end < s.len() && s[end] == ';' && spec_parse_u64(s.subrange(pos, end)) is Some {
        Some((spec_parse_u64(s.subrange(pos, end)).unwrap(), end + 1))
    } else {
        None
    }
}

/// What decoding an `i64` at `pos` yields.
pub open spec fn spec_dec_i64(s: Seq<char>, pos: int) -> Option<(i64, int)> {
    if pos < s.len() && s[pos] == '-' {
        match spec_dec_u64(s, pos + 1) {
            Some((v, p)) => if v <= 0x8000_0000_0000_0000u64 {
                Some(((-(v as int)) as i64, p))
            } else {
                None
            },
            None => None,
        }
    } else {
        match spec_dec_u64(s, pos) {
            Some((v, p)) => if v <= i64::MAX as u64 {
                Some((v as i64, p))
            } else {
                None
            },
            None => None,
        }
    }
}

/// What decoding a string at `pos` yields: a length, then that many raw
/// characters.
pub open spec fn spec_dec_str(s: Seq<char>, pos: int) -> Option<(Seq<char>, int)> {
    match spec_dec_u64(s, pos) {
        Some((len, p)) => if p + len <= s.len() {
            Some((s.subrange(p, p + len), p + len))
        } else {
            None
        },
        None => None,
    }
}

/// What decoding an optional `u16` at `pos` yields.
pub open spec fn spec_dec_opt_u16(s: Seq<char>, pos: int) -> Option<(Option<u16>, int)> {
    if pos < s.len() && s[pos] == 'N' {
        Some((None, pos + 1))
    } else if pos < s.len() && s[pos] == 'S' {
        match spec_dec_u64(s, pos + 1) {
            Some((v, p)) => if v <= u16::MAX as u64 {
                Some((Some(v as u16), p))
            } else {
                None
            },
            None => None,
        }
    } else {
        None
    }
}

// ---------------------------------------------------------------------------
// Primitive round trips
// ---------------------------------------------------------------------------

/// A window into `s` seen through a larger window: shifting indices.
pub proof fn lemma_subrange_shift(s: Seq<char>, pos: int, len: int, a: int, b: int)
    requires
        0 <= pos,
        pos + len <= s.len(),
        0 <= a <= b <= len,
    ensures
        s.subrange(pos + a, pos + b) == s.subrange(pos, pos + len).subrange(a, b),
{
    assert(s.subrange(pos + a, pos + b) =~= s.subrange(pos, pos + len).subrange(a, b));
}

/// Decoding at an encoded `u64` yields that value and stops after it.
pub proof fn lemma_dec_u64_of_enc(n: u64, s: Seq<char>, pos: int)
    requires
        0 <= pos,
        pos + enc_u64(n).len() <= s.len(),
        s.subrange(pos, pos + enc_u64(n).len()) == enc_u64(n),
    ensures
        spec_dec_u64(s, pos) == Some((n, pos + enc_u64(n).len())),
{
    let d = dec_rep(n as nat);
    lemma_dec_rep_digits(n as nat);
    let k = pos + d.len();
    assert forall|i: int| pos <= i < k implies is_digit(#[trigger] s[i]) by {
        assert(s[i] == s.subrange(pos, pos + enc_u64(n).len())[i - pos]);
        assert(enc_u64(n)[i - pos] == d[i - pos]);
    }
    assert(s[k] == s.subrange(pos, pos + enc_u64(n).len())[d.len() as int]);
    assert(s[k] == ';');
    assert(!is_digit(';')) by {
        assert((';' as u32) == 59);
    }
    lemma_digits_end_at(s, pos, k);
    assert(s.subrange(pos, k) =~= d);
    lemma_dec_val_of_dec_rep(n as nat);
    assert(spec_parse_u64(d) == Some(n));
}

/// Decoding at an encoded `i64` yields that value and stops after it.
pub proof fn lemma_dec_i64_of_enc(n: i64, s: Seq<char>, pos: int)
    requires
        0 <= pos,
        pos + enc_i64(n).len() <= s.len(),
        s.subrange(pos, pos + enc_i64(n).len()) == enc_i64(n),
    ensures
        spec_dec_i64(s, pos) == Some((n, pos + enc_i64(n).len())),
{
    if n < 0 {
        let m = (-(n as int)) as nat;
        let d = dec_rep(m);
        lemma_dec_rep_digits(m);
        let e = enc_i64(n);
        assert(s[pos] == s.subrange(pos, pos + e.len())[0]);
        assert(s[pos] == '-');
        assert(('-' as u32) == 45);
        assert(enc_u64(m as u64) =~= d + seq![';']);
        lemma_subrange_shift(s, pos, e.len() as int, 1, e.len() as int);
        assert(e.subrange(1, e.len() as int) =~= enc_u64(m as u64));
        assert(s.subrange(pos + 1, pos + e.len()) == enc_u64(m as u64));
        lemma_dec_u64_of_enc(m as u64, s, pos + 1);
        assert(m <= 0x8000_0000_0000_0000);
    } else {
        assert(enc_i64(n) =~= enc_u64(n as u64));
        lemma_dec_u64_of_enc(n as u64, s, pos);
    }
}

/// Decoding at an encoded string yields that string and stops after it.
pub proof fn lemma_dec_str_of_enc(t: Seq<char>, s: Seq<char>, pos: int)
    requires
        0 <= pos,
        t.len() <= u64::MAX,
        pos + enc_str(t).len() <= s.len(),
        s.subrange(pos, pos + enc_str(t).len()) == enc_str(t),
    ensures
        spec_dec_str(s, pos) == Some((t, pos + enc_str(t).len())),
{
    let e = enc_str(t);
    let lenc = enc_u64(t.len() as u64);
    lemma_subrange_shift(s, pos, e.len() as int, 0, lenc.len() as int);
    assert(e.subrange(0, lenc.len() as int) =~= lenc);
    assert(s.subrange(pos, pos + lenc.len()) == lenc);
    lemma_dec_u64_of_enc(t.len() as u64, s, pos);
    let p = pos + lenc.len();
    lemma_subrange_shift(s, pos, e.len() as int, lenc.len() as int, e.len() as int);
    assert(e.subrange(lenc.len() as int, e.len() as int) =~= t);
    assert(s.subrange(p, p + t.len()) == t);
}

/// Decoding at an encoded optional `u16` yields it and stops after it.
pub proof fn lemma_dec_opt_u16_of_enc(o: Option<u16>, s: Seq<char>, pos: int)
    requires
        0 <= pos,
        pos + enc_opt_u16(o).len() <= s.len(),
        s.subrange(pos, pos + enc_opt_u16(o).len()) == enc_opt_u16(o),
    ensures
        spec_dec_opt_u16(s, pos) == Some((o, pos + enc_opt_u16(o).len())),
{
    match o {
        None => {
            assert(s[pos] == s.subrange(pos, pos + 1)[0]);
            assert(s[pos] == 'N');
            assert(('N' as u32) == 78);
        },
        Some(v) => {
            let e = enc_opt_u16(o);
            assert(s[pos] == s.subrange(pos, pos + e.len())[0]);
            assert(s[pos] == 'S');
            assert(('S' as u32) == 83);
            assert(('N' as u32) == 78);
            let uenc = enc_u64(v as u64);
            lemma_subrange_shift(s, pos, e.len() as int, 1, e.len() as int);
            assert(e.subrange(1, e.len() as int) =~= uenc);
            assert(s.subrange(pos + 1, pos + e.len()) == uenc);
            lemma_dec_u64_of_enc(v as u64, s, pos + 1);
        },
    }
}

// ---------------------------------------------------------------------------
// Primitive exec encoders and decoders
// ---------------------------------------------------------------------------

fn push_enc_u64(out: &mut Vec<char>, n: u64)
    ensures
        final(out)@ == old(out)@ + enc_u64(n),
{
    let digits = u64_dec_chars(n);
    push_chars(out, &digits);
    out.push(';');
    proof {
        assert(out@ =~= old(out)@ + enc_u64(n));
    }
}

fn push_enc_i64(out: &mut Vec<char>, n: i64)
    ensures
        final(out)@ == old(out)@ + enc_i64(n),
{
    if n < 0 {
        out.push('-');
        let m: u64 = if n == i64::MIN {
            0x8000_0000_0000_0000u64
        } else {
            (-n) as u64
        };
        proof {
            assert(m as nat == (-(n as int)) as nat);
        }
        let digits = u64_dec_chars(m);
        push_chars(out, &digits);
        out.push(';');
        proof {
            assert(out@ =~= old(out)@ + enc_i64(n));
        }
    } else {
        let digits = u64_dec_chars(n as u64);
        push_chars(out, &digits);
        out.push(';');
        proof {
            assert(out@ =~= old(out)@ + enc_i64(n));
        }
    }
}

fn push_enc_str(out: &mut Vec<char>, s: &str)
    ensures
        final(out)@ == old(out)@ + enc_str(s@),
{
    let sv = str_to_chars(s);
    let len: usize = sv.len();
    push_enc_u64(out, len as u64);
    push_chars(out, &sv);
    proof {
        assert(out@ =~= old(out)@ + enc_str(s@));
    }
}

fn push_enc_opt_u16(out: &mut Vec<char>, o: Option<u16>)
    ensures
        final(out)@ == old(out)@ + enc_opt_u16(o),
{
    match o {
        None => {
            out.push('N');
            proof {
                assert(out@ =~= old(out)@ + enc_opt_u16(o));
            }
        },
        Some(v) => {
            out.push('S');
            push_enc_u64(out, v as u64);
            proof {
                assert(out@ =~= old(out)@ + enc_opt_u16(o));
            }
        },
    }
}

fn dec_u64_at(v: &Vec<char>, pos: usize) -> (r: Option<(u64, usize)>)
    requires
        pos <= v@.len(),
    ensures
        match r {
            Some((val, p)) => spec_dec_u64(v@, pos as int) == Some((val, p as int)) && pos < p
                <= v@.len(),
            None => spec_dec_u64(v@, pos as int) is None,
        },
{
    let n: usize = v.len();
    let mut end: usize = pos;
    let mut stop: bool = false;
    while !stop
        invariant
            pos <= end <= n,
            n == v@.len(),
            forall|i: int| pos <= i < end ==> is_digit(#[trigger] v@[i]),
            stop ==> end == n || !is_digit(v@[end as int]),
        decreases n - end, (if stop { 0int } else { 1int }),
    {
        if end >= n {
            stop = true;
        } else {
            let c = v[end];
            let u: u32 = c as u32;
            if 48 <= u && u <= 57 {
                end = end + 1;
            } else {
                stop = true;
            }
        }
    }
    proof {
        lemma_digits_end_at(v@, pos as int, end as int);
    }
    if end == pos || end >= n {
        return None;
    }
    let c = v[end];
    if !(c == ';') {
        return None;
    }
    let digits = copy_range(v, pos, end);
    match parse_u64_chars(&digits) {
        Some(val) => Some((val, end + 1)),
        None => None,
    }
}

fn dec_i64_at(v: &Vec<char>, pos: usize) -> (r: Option<(i64, usize)>)
    requires
        pos <= v@.len(),
    ensures
        match r {
            Some((val, p)) => spec_dec_i64(v@, pos as int) == Some((val, p as int)) && pos < p
                <= v@.len(),
            None => spec_dec_i64(v@, pos as int) is None,
        },
{
    let n: usize = v.len();
    if pos < n && v[pos] == '-' {
        match dec_u64_at(v, pos + 1) {
            Some((val, p)) => {
                if val <= 0x8000_0000_0000_0000u64 {
                    let r: i64 = if val == 0x8000_0000_0000_0000u64 {
                        i64::MIN
                    } else {
                        -(val as i64)
                    };
                    proof {
                        assert(r as int == -(val as int));
                    }
                    Some((r, p))
                } else {
                    None
                }
            },
            None => None,
        }
    } else {
        match dec_u64_at(v, pos) {
            Some((val, p)) => {
                if val <= i64::MAX as u64 {
                    Some((val as i64, p))
                } else {
                    None
                }
            },
            None => None,
        }
    }
}

fn dec_str_at(v: &Vec<char>, pos: usize) -> (r: Option<(String, usize)>)
    requires
        pos <= v@.len(),
    ensures
        match r {
            Some((val, p)) => spec_dec_str(v@, pos as int) matches Some((sv, sp)) && sv == val@
                && sp == p as int && pos < p <= v@.len(),
            None => spec_dec_str(v@, pos as int) is None,
        },
{
    let n: usize = v.len();
    match dec_u64_at(v, pos) {
        Some((len, p)) => {
            if len <= (n - p) as u64 {
                let l: usize = len as usize;
                let s = chars_range_to_string(v, p, p + l);
                Some((s, p + l))
            } else {
                None
            }
        },
        None => None,
    }
}

fn dec_opt_u16_at(v: &Vec<char>, pos: usize) -> (r: Option<(Option<u16>, usize)>)
    requires
        pos <= v@.len(),
    ensures
        match r {
            Some((val, p)) => spec_dec_opt_u16(v@, pos as int) == Some((val, p as int)) && pos < p
                <= v@.len(),
            None => spec_dec_opt_u16(v@, pos as int) is None,
        },
{
    let n: usize = v.len();
    if pos < n && v[pos] == 'N' {
        Some((None, pos + 1))
    } else if pos < n && v[pos] == 'S' {
        match dec_u64_at(v, pos + 1) {
            Some((val, p)) => {
                if val <= u16::MAX as u64 {
                    Some((Some(val as u16), p))
                } else {
                    None
                }
            },
            None => None,
        }
    } else {
        None
    }
}

// ---------------------------------------------------------------------------
// Ports
// ---------------------------------------------------------------------------

/// Whether a value fits the wire format's length fields; every value a
/// program can build does.
pub open spec fn str_ok(t: Seq<char>) -> bool {
    t.len() <= u64::MAX
}

pub open spec fn port_ok(p: crate::models::PortMappingView) -> bool {
    str_ok(p.protocol)
}

/// A port mapping on the wire: container port, host port, protocol.
pub open spec fn enc_port(p: crate::models::PortMappingView) -> Seq<char> {
    enc_u64(p.container_port as u64) + enc_opt_u16(p.host_port) + enc_str(p.protocol)
}

pub open spec fn spec_dec_port(s: Seq<char>, pos: int) -> Option<
    (crate::models::PortMappingView, int),
> {
    match spec_dec_u64(s, pos) {
        Some((cp, p1)) => if cp <= u16::MAX as u64 {
            match spec_dec_opt_u16(s, p1) {
                Some((hp, p2)) => match spec_dec_str(s, p2) {
                    Some((proto, p3)) => Some(
                        (
                            crate::models::PortMappingView {
                                container_port: cp as u16,
                                host_port: hp,
                                protocol: proto,
                            },
                            p3,
                        ),
                    ),
                    None => None,
                },
                None => None,
            }
        } else {
            None
        },
        None => None,
    }
}

pub proof fn lemma_dec_port_of_enc(p: crate::models::PortMappingView, s: Seq<char>, pos: int)
    requires
        0 <= pos,
        port_ok(p),
        pos + enc_port(p).len() <= s.len(),
        s.subrange(pos, pos + enc_port(p).len()) == enc_port(p),
    ensures
        spec_dec_port(s, pos) == Some((p, pos + enc_port(p).len())),
{
    let e = enc_port(p);
    let a = enc_u64(p.container_port as u64);
    let b = enc_opt_u16(p.host_port);
    let c = enc_str(p.protocol);
    let l1 = a.len() as int;
    let l2 = b.len() as int;
    let l3 = c.len() as int;
    lemma_subrange_shift(s, pos, e.len() as int, 0, l1);
    assert(e.subrange(0, l1) =~= a);
    lemma_dec_u64_of_enc(p.container_port as u64, s, pos);
    lemma_subrange_shift(s, pos, e.len() as int, l1, l1 + l2);
    assert(e.subrange(l1, l1 + l2) =~= b);
    lemma_dec_opt_u16_of_enc(p.host_port, s, pos + l1);
    lemma_subrange_shift(s, pos, e.len() as int, l1 + l2, l1 + l2 + l3);
    assert(e.subrange(l1 + l2, l1 + l2 + l3) =~= c);
    lemma_dec_str_of_enc(p.protocol, s, pos + l1 + l2);
}

fn push_enc_port(out: &mut Vec<char>, p: &crate::models::PortMapping)
    ensures
        final(out)@ == old(out)@ + enc_port(p@),
{
    push_enc_u64(out, p.container_port as u64);
    push_enc_opt_u16(out, p.host_port);
    push_enc_str(out, p.protocol.as_str());
    proof {
        assert(out@ =~= old(out)@ + enc_port(p@));
    }
}

fn dec_port_at(v: &Vec<char>, pos: usize) -> (r: Option<(crate::models::PortMapping, usize)>)
    requires
        pos <= v@.len(),
    ensures
        match r {
            Some((val, p)) => spec_dec_port(v@, pos as int) matches Some((pv, pp)) && pv == val@
                && pp == p as int && pos < p <= v@.len(),
            None => spec_dec_port(v@, pos as int) is None,
        },
{
    match dec_u64_at(v, pos) {
        Some((cp, p1)) => {
            if cp <= u16::MAX as u64 {
                match dec_opt_u16_at(v, p1) {
                    Some((hp, p2)) => {
                        match dec_str_at(v, p2) {
                            Some((proto, p3)) => Some(
                                (
                                    crate::models::PortMapping {
                                        container_port: cp as u16,
                                        host_port: hp,
                                        protocol: proto,
                                    },
                                    p3,
                                ),
                            ),
                            None => None,
                        }
                    },
                    None => None,
                }
            } else {
                None
            }
        },
        None => None,
    }
}

// ---------------------------------------------------------------------------
// Lists
// ---------------------------------------------------------------------------

/// A run of encoded port mappings, in order.
pub open spec fn enc_ports(s: Seq<crate::models::PortMappingView>) -> Seq<char>
    decreases s.len(),
{
    if s.len() == 0 {
        Seq::empty()
    } else {
        enc_port(s[0]) + enc_ports(s.skip(1))
    }
}

/// A port list on the wire: its count, then the mappings.
pub open spec fn enc_port_list(s: Seq<crate::models::PortMappingView>) -> Seq<char> {
    enc_u64(s.len() as u64) + enc_ports(s)
}

pub open spec fn ports_ok(s: Seq<crate::models::PortMappingView>) -> bool {
    s.len() <= u64::MAX && forall|i: int| 0 <= i < s.len() ==> port_ok(#[trigger] s[i])
}

pub open spec fn spec_dec_ports(s: Seq<char>, pos: int, count: nat) -> Option<
    (Seq<crate::models::PortMappingView>, int),
>
    decreases count,
{
    if count == 0 {
        Some((Seq::empty(), pos))
    } else {
        match spec_dec_port(s, pos) {
            Some((v, p)) => match spec_dec_ports(s, p, (count - 1) as nat) {
                Some((vs, p2)) => Some((seq![v] + vs, p2)),
                None => None,
            },
            None => None,
        }
    }
}

pub open spec fn spec_dec_port_list(s: Seq<char>, pos: int) -> Option<
    (Seq<crate::models::PortMappingView>, int),
> {
    match spec_dec_u64(s, pos) {
        Some((n, p)) => spec_dec_ports(s, p, n as nat),
        None => None,
    }
}

pub proof fn lemma_dec_ports_of_enc(s: Seq<crate::models::PortMappingView>, w: Seq<char>, pos: int)
    requires
        0 <= pos,
        ports_ok(s),
        pos + enc_ports(s).len() <= w.len(),
        w.subrange(pos, pos + enc_ports(s).len()) == enc_ports(s),
    ensures
        spec_dec_ports(w, pos, s.len() as nat) == Some((s, pos + enc_ports(s).len())),
    decreases s.len(),
{
    if s.len() == 0 {
        assert(s =~= Seq::<crate::models::PortMappingView>::empty());
    } else {
        let e = enc_ports(s);
        let a = enc_port(s[0]);
        let rest = enc_ports(s.skip(1));
        let l1 = a.len() as int;
        lemma_subrange_shift(w, pos, e.len() as int, 0, l1);
        assert(e.subrange(0, l1) =~= a);
        lemma_dec_port_of_enc(s[0], w, pos);
        lemma_subrange_shift(w, pos, e.len() as int, l1, e.len() as int);
        assert(e.subrange(l1, e.len() as int) =~= rest);
        assert(ports_ok(s.skip(1))) by {
            assert(forall|i: int|
                0 <= i < s.skip(1).len() ==> #[trigger] s.skip(1)[i] == s[i + 1]);
        }
        lemma_dec_ports_of_enc(s.skip(1), w, pos + l1);
        assert(seq![s[0]] + s.skip(1) =~= s);
    }
}

pub proof fn lemma_dec_port_list_of_enc(
    s: Seq<crate::models::PortMappingView>,
    w: Seq<char>,
    pos: int,
)
    requires
        0 <= pos,
        ports_ok(s),
        pos + enc_port_list(s).len() <= w.len(),
        w.subrange(pos, pos + enc_port_list(s).len()) == enc_port_list(s),
    ensures
        spec_dec_port_list(w, pos) == Some((s, pos + enc_port_list(s).len())),
{
    let e = enc_port_list(s);
    let a = enc_u64(s.len() as u64);
    let l1 = a.len() as int;
    lemma_subrange_shift(w, pos, e.len() as int, 0, l1);
    assert(e.subrange(0, l1) =~= a);
    lemma_dec_u64_of_enc(s.len() as u64, w, pos);
    lemma_subrange_shift(w, pos, e.len() as int, l1, e.len() as int);
    assert(e.subrange(l1, e.len() as int) =~= enc_ports(s));
    lemma_dec_ports_of_enc(s, w, pos + l1);
}

fn push_enc_port_list(out: &mut Vec<char>, ports: &Vec<crate::models::PortMapping>)
    ensures
        final(out)@ == old(out)@ + enc_port_list(
            ports@.map_values(|p: crate::models::PortMapping| p@),
        ),
{
    let ghost pv = ports@.map_values(|p: crate::models::PortMapping| p@);
    let n: usize = ports.len();
    push_enc_u64(out, n as u64);
    let ghost base = out@;
    let mut i: usize = 0;
    proof {
        assert(out@ =~= base + enc_ports_head(pv, 0));
    }
    while i < n
        invariant
            n == ports@.len(),
            pv == ports@.map_values(|p: crate::models::PortMapping| p@),
            i <= n,
            out@ == base + enc_ports_head(pv, i as int),
        decreases n - i,
    {
        proof {
            lemma_enc_ports_split(pv, i as int);
            assert(pv.skip(i as int)[0] == pv[i as int]);
            assert(pv.skip(i as int).skip(1) =~= pv.skip(i + 1));
            assert(pv[i as int] == ports@[i as int]@);
        }
        push_enc_port(out, &ports[i]);
        proof {
            lemma_enc_ports_split(pv, i + 1);
            assert(enc_ports_head(pv, i + 1) =~= enc_ports_head(pv, i as int) + enc_port(
                pv[i as int],
            ));
            assert(out@ =~= base + enc_ports_head(pv, i + 1));
        }
        i = i + 1;
    }
    proof {
        lemma_enc_ports_split(pv, n as int);
        assert(pv.skip(n as int) =~= Seq::<crate::models::PortMappingView>::empty());
        assert(enc_ports_tail(pv, n as int) =~= Seq::<char>::empty());
        assert(enc_ports(pv) =~= enc_ports_head(pv, n as int));
        assert(out@ =~= old(out)@ + enc_port_list(pv));
    }
}

/// The wire text the ports from index `i` on contribute.
pub open spec fn enc_ports_tail(s: Seq<crate::models::PortMappingView>, i: int) -> Seq<char> {
    enc_ports(s.skip(i))
}

/// Splitting the run at `i`: the whole is the head part plus the tail.
pub proof fn lemma_enc_ports_split(s: Seq<crate::models::PortMappingView>, i: int)
    requires
        0 <= i <= s.len(),
    ensures
        enc_ports(s) == enc_ports_head(s, i) + enc_ports_tail(s, i),
    decreases i,
{
    if i == 0 {
        assert(s.skip(0) =~= s);
        assert(enc_ports_head(s, 0) =~= Seq::<char>::empty());
        assert(enc_ports(s) =~= enc_ports_head(s, 0) + enc_ports_tail(s, 0));
    } else {
        lemma_enc_ports_split(s, i - 1);
        assert(s.skip(i - 1)[0] == s[i - 1]);
        assert(s.skip(i - 1).skip(1) =~= s.skip(i));
        if s.skip(i - 1).len() == 0 {
            assert(i - 1 == s.len());
        } else {
            assert(enc_ports(s.skip(i - 1)) == enc_port(s[i - 1]) + enc_ports(s.skip(i)));
        }
        assert(enc_ports_head(s, i) =~= enc_ports_head(s, i - 1) + enc_port(s[i - 1]));
        assert(enc_ports(s) =~= enc_ports_head(s, i) + enc_ports_tail(s, i));
    }
}

/// The wire text the ports before index `i` contribute.
pub open spec fn enc_ports_head(s: Seq<crate::models::PortMappingView>, i: int) -> Seq<char>
    decreases i,
{
    if i <= 0 {
        Seq::empty()
    } else {
        enc_ports_head(s, i - 1) + enc_port(s[i - 1])
    }
}

fn dec_ports_at(v: &Vec<char>, pos: usize, count: u64) -> (r: Option<
    (Vec<crate::models::PortMapping>, usize),
>)
    requires
        pos <= v@.len(),
    ensures
        match r {
            Some((val, p)) => spec_dec_ports(v@, pos as int, count as nat) matches Some((sv, sp))
                && sv == val@.map_values(|x: crate::models::PortMapping| x@) && sp == p as int && p
                <= v@.len(),
            None => spec_dec_ports(v@, pos as int, count as nat) is None,
        },
{
    let mut acc: Vec<crate::models::PortMapping> = Vec::new();
    let mut p: usize = pos;
    let mut rem: u64 = count;
    loop
        invariant
            p <= v@.len(),
            rem <= count,
            spec_dec_ports(v@, pos as int, count as nat) == (match spec_dec_ports(
                v@,
                p as int,
                rem as nat,
            ) {
                Some((vs, pe)) => Some(
                    (acc@.map_values(|x: crate::models::PortMapping| x@) + vs, pe),
                ),
                None => None::<(Seq<crate::models::PortMappingView>, int)>,
            }),
        decreases rem,
    {
        if rem == 0 {
            proof {
                assert(acc@.map_values(|x: crate::models::PortMapping| x@) + Seq::<
                    crate::models::PortMappingView,
                >::empty() =~= acc@.map_values(|x: crate::models::PortMapping| x@));
            }
            return Some((acc, p));
        }
        let ghost accv = acc@.map_values(|x: crate::models::PortMapping| x@);
        match dec_port_at(v, p) {
            Some((item, p2)) => {
                let ghost itemv = item@;
                acc.push(item);
                proof {
                    assert(acc@.map_values(|x: crate::models::PortMapping| x@) =~= accv.push(
                        itemv,
                    ));
                    assert forall|vs: Seq<crate::models::PortMappingView>|
                        true implies accv + (seq![itemv] + vs) =~= accv.push(itemv) + vs by {}
                }
                p = p2;
                rem = rem - 1;
            },
            None => {
                return None;
            },
        }
    }
}

fn dec_port_list_at(v: &Vec<char>, pos: usize) -> (r: Option<
    (Vec<crate::models::PortMapping>, usize),
>)
    requires
        pos <= v@.len(),
    ensures
        match r {
            Some((val, p)) => spec_dec_port_list(v@, pos as int) matches Some((sv, sp)) && sv
                == val@.map_values(|x: crate::models::PortMapping| x@) && sp == p as int && p
                <= v@.len(),
            None => spec_dec_port_list(v@, pos as int) is None,
        },
{
    match dec_u64_at(v, pos) {
        Some((n, p)) => dec_ports_at(v, p, n),
        None => None,
    }
}

// ---------------------------------------------------------------------------
// String lists
// ---------------------------------------------------------------------------

/// A run of encoded strings, in order.
pub open spec fn enc_strs(s: Seq<Seq<char>>) -> Seq<char>
    decreases s.len(),
{
    if s.len() == 0 {
        Seq::empty()
    } else {
        enc_str(s[0]) + enc_strs(s.skip(1))
    }
}

/// A string list on the wire: its count, then the strings.
pub open spec fn enc_str_list(s: Seq<Seq<char>>) -> Seq<char> {
    enc_u64(s.len() as u64) + enc_strs(s)
}

pub open spec fn strs_ok(s: Seq<Seq<char>>) -> bool {
    s.len() <= u64::MAX && forall|i: int| 0 <= i < s.len() ==> str_ok(#[trigger] s[i])
}

pub open spec fn spec_dec_strs(s: Seq<char>, pos: int, count: nat) -> Option<(Seq<Seq<char>>, int)>
    decreases count,
{
    if count == 0 {
        Some((Seq::empty(), pos))
    } else {
        match spec_dec_str(s, pos) {
            Some((v, p)) => match spec_dec_strs(s, p, (count - 1) as nat) {
                Some((vs, p2)) => Some((seq![v] + vs, p2)),
                None => None,
            },
            None => None,
        }
    }
}

pub open spec fn spec_dec_str_list(s: Seq<char>, pos: int) -> Option<(Seq<Seq<char>>, int)> {
    match spec_dec_u64(s, pos) {
        Some((n, p)) => spec_dec_strs(s, p, n as nat),
        None => None,
    }
}

/// The wire text the strings before index `i` contribute.
pub open spec fn enc_strs_head(s: Seq<Seq<char>>, i: int) -> Seq<char>
    decreases i,
{
    if i <= 0 {
        Seq::empty()
    } else {
        enc_strs_head(s, i - 1) + enc_str(s[i - 1])
    }
}

/// Splitting the run at `i`: the whole is the head part plus the tail.
pub proof fn lemma_enc_strs_split(s: Seq<Seq<char>>, i: int)
    requires
        0 <= i <= s.len(),
    ensures
        enc_strs(s) == enc_strs_head(s, i) + enc_strs(s.skip(i)),
    decreases i,
{
    if i == 0 {
        assert(s.skip(0) =~= s);
        assert(enc_strs(s) =~= enc_strs_head(s, 0) + enc_strs(s.skip(0)));
    } else {
        lemma_enc_strs_split(s, i - 1);
        assert(s.skip(i - 1)[0] == s[i - 1]);
        assert(s.skip(i - 1).skip(1) =~= s.skip(i));
        if s.skip(i - 1).len() == 0 {
            assert(i - 1 == s.len());
        } else {
            assert(enc_strs(s.skip(i - 1)) == enc_str(s[i - 1]) + enc_strs(s.skip(i)));
        }
        assert(enc_strs_head(s, i) =~= enc_strs_head(s, i - 1) + enc_str(s[i - 1]));
        assert(enc_strs(s) =~= enc_strs_head(s, i) + enc_strs(s.skip(i)));
    }
}

pub proof fn lemma_dec_strs_of_enc(s: Seq<Seq<char>>, w: Seq<char>, pos: int)
    requires
        0 <= pos,
        strs_ok(s),
        pos + enc_strs(s).len() <= w.len(),
        w.subrange(pos, pos + enc_strs(s).len()) == enc_strs(s),
    ensures
        spec_dec_strs(w, pos, s.len() as nat) == Some((s, pos + enc_strs(s).len())),
    decreases s.len(),
{
    if s.len() == 0 {
        assert(s =~= Seq::<Seq<char>>::empty());
    } else {
        let e = enc_strs(s);
        let a = enc_str(s[0]);
        let rest = enc_strs(s.skip(1));
        let l1 = a.len() as int;
        lemma_subrange_shift(w, pos, e.len() as int, 0, l1);
        assert(e.subrange(0, l1) =~= a);
        lemma_dec_str_of_enc(s[0], w, pos);
        lemma_subrange_shift(w, pos, e.len() as int, l1, e.len() as int);
        assert(e.subrange(l1, e.len() as int) =~= rest);
        assert(strs_ok(s.skip(1))) by {
            assert(forall|i: int| 0 <= i < s.skip(1).len() ==> #[trigger] s.skip(1)[i] == s[i + 1]);
        }
        lemma_dec_strs_of_enc(s.skip(1), w, pos + l1);
        assert(seq![s[0]] + s.skip(1) =~= s);
    }
}

pub proof fn lemma_dec_str_list_of_enc(s: Seq<Seq<char>>, w: Seq<char>, pos: int)
    requires
        0 <= pos,
        strs_ok(s),
        pos + enc_str_list(s).len() <= w.len(),
        w.subrange(pos, pos + enc_str_list(s).len()) == enc_str_list(s),
    ensures
        spec_dec_str_list(w, pos) == Some((s, pos + enc_str_list(s).len())),
{
    let e = enc_str_list(s);
    let a = enc_u64(s.len() as u64);
    let l1 = a.len() as int;
    lemma_subrange_shift(w, pos, e.len() as int, 0, l1);
    assert(e.subrange(0, l1) =~= a);
    lemma_dec_u64_of_enc(s.len() as u64, w, pos);
    lemma_subrange_shift(w, pos, e.len() as int, l1, e.len() as int);
    assert(e.subrange(l1, e.len() as int) =~= enc_strs(s));
    lemma_dec_strs_of_enc(s, w, pos + l1);
}

fn push_enc_str_list(out: &mut Vec<char>, items: &Vec<String>)
    ensures
        final(out)@ == old(out)@ + enc_str_list(items@.map_values(|s: String| s@)),
{
    let ghost pv = items@.map_values(|s: String| s@);
    let n: usize = items.len();
    push_enc_u64(out, n as u64);
    let ghost base = out@;
    let mut i: usize = 0;
    proof {
        assert(out@ =~= base + enc_strs_head(pv, 0));
    }
    while i < n
        invariant
            n == items@.len(),
            pv == items@.map_values(|s: String| s@),
            i <= n,
            out@ == base + enc_strs_head(pv, i as int),
        decreases n - i,
    {
        proof {
            assert(pv[i as int] == items@[i as int]@);
        }
        push_enc_str(out, items[i].as_str());
        proof {
            assert(enc_strs_head(pv, i + 1) =~= enc_strs_head(pv, i as int) + enc_str(
                pv[i as int],
            ));
            assert(out@ =~= base + enc_strs_head(pv, i + 1));
        }
        i = i + 1;
    }
    proof {
        lemma_enc_strs_split(pv, n as int);
        assert(pv.skip(n as int) =~= Seq::<Seq<char>>::empty());
        assert(enc_strs(pv.skip(n as int)) =~= Seq::<char>::empty());
        assert(enc_strs(pv) =~= enc_strs_head(pv, n as int));
        assert(out@ =~= old(out)@ + enc_str_list(pv));
    }
}

fn dec_strs_at(v: &Vec<char>, pos: usize, count: u64) -> (r: Option<(Vec<String>, usize)>)
    requires
        pos <= v@.len(),
    ensures
        match r {
            Some((val, p)) => spec_dec_strs(v@, pos as int, count as nat) matches Some((sv, sp))
                && sv == val@.map_values(|x: String| x@) && sp == p as int && p <= v@.len(),
            None => spec_dec_strs(v@, pos as int, count as nat) is None,
        },
{
    let mut acc: Vec<String> = Vec::new();
    let mut p: usize = pos;
    let mut rem: u64 = count;
    loop
        invariant
            p <= v@.len(),
            rem <= count,
            spec_dec_strs(v@, pos as int, count as nat) == (match spec_dec_strs(
                v@,
                p as int,
                rem as nat,
            ) {
                Some((vs, pe)) => Some((acc@.map_values(|x: String| x@) + vs, pe)),
                None => None::<(Seq<Seq<char>>, int)>,
            }),
        decreases rem,
    {
        if rem == 0 {
            proof {
                assert(acc@.map_values(|x: String| x@) + Seq::<Seq<char>>::empty() =~= acc@
                    .map_values(|x: String| x@));
            }
            return Some((acc, p));
        }
        let ghost accv = acc@.map_values(|x: String| x@);
        match dec_str_at(v, p) {
            Some((item, p2)) => {
                let ghost itemv = item@;
                acc.push(item);
                proof {
                    assert(acc@.map_values(|x: String| x@) =~= accv.push(itemv));
                    assert forall|vs: Seq<Seq<char>>|
                        true implies accv + (seq![itemv] + vs) =~= accv.push(itemv) + vs by {}
                }
                p = p2;
                rem = rem - 1;
            },
            None => {
                return None;
            },
        }
    }
}

fn dec_str_list_at(v: &Vec<char>, pos: usize) -> (r: Option<(Vec<String>, usize)>)
    requires
        pos <= v@.len(),
    ensures
        match r {
            Some((val, p)) => spec_dec_str_list(v@, pos as int) matches Some((sv, sp)) && sv
                == val@.map_values(|x: String| x@) && sp == p as int && p <= v@.len(),
            None => spec_dec_str_list(v@, pos as int) is None,
        },
{
    match dec_u64_at(v, pos) {
        Some((n, p)) => dec_strs_at(v, p, n),
        None => None,
    }
}

// ---------------------------------------------------------------------------
// Container summaries
// ---------------------------------------------------------------------------

pub open spec fn summary_ok(v: crate::models::ContainerSummaryView) -> bool {
    &&& str_ok(v.id)
    &&& str_ok(v.name)
    &&& str_ok(v.image)
    &&& str_ok(v.status)
    &&& ports_ok(v.ports)
    &&& strs_ok(v.environment)
}

/// A container summary on the wire: its four strings, then its port and
/// environment lists.
pub open spec fn enc_container_summary(v: crate::models::ContainerSummaryView) -> Seq<char> {
    enc_str(v.id) + enc_str(v.name) + enc_str(v.image) + enc_str(v.status) + enc_port_list(v.ports)
        + enc_str_list(v.environment)
}

pub open spec fn spec_dec_container_summary(s: Seq<char>, pos: int) -> Option<
    (crate::models::ContainerSummaryView, int),
> {
    match spec_dec_str(s, pos) {
        Some((id, p1)) => match spec_dec_str(s, p1) {
            Some((name, p2)) => match spec_dec_str(s, p2) {
                Some((image, p3)) => match spec_dec_str(s, p3) {
                    Some((status, p4)) => match spec_dec_port_list(s, p4) {
                        Some((ports, p5)) => match spec_dec_str_list(s, p5) {
                            Some((environment, p6)) => Some(
                                (
                                    crate::models::ContainerSummaryView {
                                        id,
                                        name,
                                        image,
                                        status,
                                        ports,
                                        environment,
                                    },
                                    p6,
                                ),
                            ),
                            None => None,
                        },
                        None => None,
                    },
                    None => None,
                },
                None => None,
            },
            None => None,
        },
        None => None,
    }
}

/// Encoding a container summary and decoding the result yields the same
/// summary, wherever it stands in a longer text.
#[verifier::rlimit(60)]
pub proof fn lemma_container_summary_roundtrip(
    v: crate::models::ContainerSummaryView,
    s: Seq<char>,
    pos: int,
)
    requires
        0 <= pos,
        summary_ok(v),
        pos + enc_container_summary(v).len() <= s.len(),
        s.subrange(pos, pos + enc_container_summary(v).len()) == enc_container_summary(v),
    ensures
        spec_dec_container_summary(s, pos) == Some((v, pos + enc_container_summary(v).len())),
{
    let e = enc_container_summary(v);
    let a1 = enc_str(v.id);
    let a2 = enc_str(v.name);
    let a3 = enc_str(v.image);
    let a4 = enc_str(v.status);
    let a5 = enc_port_list(v.ports);
    let a6 = enc_str_list(v.environment);
    let o1 = a1.len() as int;
    let o2 = o1 + a2.len();
    let o3 = o2 + a3.len();
    let o4 = o3 + a4.len();
    let o5 = o4 + a5.len();
    let o6 = o5 + a6.len();
    lemma_subrange_shift(s, pos, e.len() as int, 0, o1);
    assert(e.subrange(0, o1) =~= a1);
    lemma_dec_str_of_enc(v.id, s, pos);
    lemma_subrange_shift(s, pos, e.len() as int, o1, o2);
    assert(e.subrange(o1, o2) =~= a2);
    lemma_dec_str_of_enc(v.name, s, pos + o1);
    lemma_subrange_shift(s, pos, e.len() as int, o2, o3);
    assert(e.subrange(o2, o3) =~= a3);
    lemma_dec_str_of_enc(v.image, s, pos + o2);
    lemma_subrange_shift(s, pos, e.len() as int, o3, o4);
    assert(e.subrange(o3, o4) =~= a4);
    lemma_dec_str_of_enc(v.status, s, pos + o3);
    lemma_subrange_shift(s, pos, e.len() as int, o4, o5);
    assert(e.subrange(o4, o5) =~= a5);
    lemma_dec_port_list_of_enc(v.ports, s, pos + o4);
    lemma_subrange_shift(s, pos, e.len() as int, o5, o6);
    assert(e.subrange(o5, o6) =~= a6);
    lemma_dec_str_list_of_enc(v.environment, s, pos + o5);
}

/// Renders a container summary in the wire format.
pub fn encode_container_summary(v: &crate::models::ContainerSummary) -> (r: String)
    ensures
        r@ == enc_container_summary(v@),
{
    let mut out: Vec<char> = Vec::new();
    push_enc_str(&mut out, v.id.as_str());
    push_enc_str(&mut out, v.name.as_str());
    push_enc_str(&mut out, v.image.as_str());
    push_enc_str(&mut out, v.status.as_str());
    push_enc_port_list(&mut out, &v.ports);
    push_enc_str_list(&mut out, &v.environment);
    proof {
        assert(out@ =~= enc_container_summary(v@));
    }
    chars_to_string(&out)
}

/// Reads a container summary back from the wire format; nothing unless
/// the whole text is exactly one encoded summary.
pub fn decode_container_summary(s: &str) -> (r: Option<crate::models::ContainerSummary>)
    ensures
        match r {
            Some(v) => spec_dec_container_summary(s@, 0) matches Some((sv, p)) && sv == v@ && p
                == s@.len(),
            None => !(spec_dec_container_summary(s@, 0) matches Some((sv, p)) && p == s@.len()),
        },
{
    let w = str_to_chars(s);
    match dec_str_at(&w, 0) {
        Some((id, p1)) => match dec_str_at(&w, p1) {
            Some((name, p2)) => match dec_str_at(&w, p2) {
                Some((image, p3)) => match dec_str_at(&w, p3) {
                    Some((status, p4)) => match dec_port_list_at(&w, p4) {
                        Some((ports, p5)) => match dec_str_list_at(&w, p5) {
                            Some((environment, p6)) => {
                                if p6 == w.len() {
                                    Some(
                                        crate::models::ContainerSummary {
                                            id,
                                            name,
                                            image,
                                            status,
                                            ports,
                                            environment,
                                        },
                                    )
                                } else {
                                    None
                                }
                            },
                            None => None,
                        },
                        None => None,
                    },
                    None => None,
                },
                None => None,
            },
            None => None,
        },
        None => None,
    }
}

// ---------------------------------------------------------------------------
// Image summaries
// ---------------------------------------------------------------------------

pub open spec fn image_ok(v: crate::models::LocalImageSummaryView) -> bool {
    str_ok(v.id) && strs_ok(v.repo_tags)
}

/// An image summary on the wire: its id, then its tag list.
pub open spec fn enc_local_image_summary(v: crate::models::LocalImageSummaryView) -> Seq<char> {
    enc_str(v.id) + enc_str_list(v.repo_tags)
}

pub open spec fn spec_dec_local_image_summary(s: Seq<char>, pos: int) -> Option<
    (crate::models::LocalImageSummaryView, int),
> {
    match spec_dec_str(s, pos) {
        Some((id, p1)) => match spec_dec_str_list(s, p1) {
            Some((repo_tags, p2)) => Some(
                (crate::models::LocalImageSummaryView { id, repo_tags }, p2),
            ),
            None => None,
        },
        None => None,
    }
}

/// Encoding an image summary and decoding the result yields it back.
pub proof fn lemma_local_image_summary_roundtrip(
    v: crate::models::LocalImageSummaryView,
    s: Seq<char>,
    pos: int,
)
    requires
        0 <= pos,
        image_ok(v),
        pos + enc_local_image_summary(v).len() <= s.len(),
        s.subrange(pos, pos + enc_local_image_summary(v).len()) == enc_local_image_summary(v),
    ensures
        spec_dec_local_image_summary(s, pos) == Some(
            (v, pos + enc_local_image_summary(v).len()),
        ),
{
    let e = enc_local_image_summary(v);
    let a1 = enc_str(v.id);
    let a2 = enc_str_list(v.repo_tags);
    let o1 = a1.len() as int;
    let o2 = o1 + a2.len();
    lemma_subrange_shift(s, pos, e.len() as int, 0, o1);
    assert(e.subrange(0, o1) =~= a1);
    lemma_dec_str_of_enc(v.id, s, pos);
    lemma_subrange_shift(s, pos, e.len() as int, o1, o2);
    assert(e.subrange(o1, o2) =~= a2);
    lemma_dec_str_list_of_enc(v.repo_tags, s, pos + o1);
}

/// Renders an image summary in the wire format.
pub fn encode_local_image_summary(v: &crate::models::LocalImageSummary) -> (r: String)
    ensures
        r@ == enc_local_image_summary(v@),
{
    let mut out: Vec<char> = Vec::new();
    push_enc_str(&mut out, v.id.as_str());
    push_enc_str_list(&mut out, &v.repo_tags);
    proof {
        assert(out@ =~= enc_local_image_summary(v@));
    }
    chars_to_string(&out)
}

/// Reads an image summary back from the wire format.
pub fn decode_local_image_summary(s: &str) -> (r: Option<crate::models::LocalImageSummary>)
    ensures
        match r {
            Some(v) => spec_dec_local_image_summary(s@, 0) matches Some((sv, p)) && sv == v@ && p
                == s@.len(),
            None => !(spec_dec_local_image_summary(s@, 0) matches Some((sv, p)) && p == s@.len()),
        },
{
    let w = str_to_chars(s);
    match dec_str_at(&w, 0) {
        Some((id, p1)) => match dec_str_list_at(&w, p1) {
            Some((repo_tags, p2)) => {
                if p2 == w.len() {
                    Some(crate::models::LocalImageSummary { id, repo_tags })
                } else {
                    None
                }
            },
            None => None,
        },
        None => None,
    }
}

// ---------------------------------------------------------------------------
// Port mappings, alone
// ---------------------------------------------------------------------------

/// Encoding a port mapping and decoding the result yields it back.
pub proof fn lemma_port_mapping_roundtrip(v: crate::models::PortMappingView)
    requires
        port_ok(v),
    ensures
        spec_dec_port(enc_port(v), 0) == Some((v, enc_port(v).len() as int)),
{
    let e = enc_port(v);
    assert(e.subrange(0, e.len() as int) =~= e);
    lemma_dec_port_of_enc(v, e, 0);
}

/// Renders one port mapping in the wire format.
pub fn encode_port_mapping(v: &crate::models::PortMapping) -> (r: String)
    ensures
        r@ == enc_port(v@),
{
    let mut out: Vec<char> = Vec::new();
    push_enc_port(&mut out, v);
    proof {
        assert(out@ =~= enc_port(v@));
    }
    chars_to_string(&out)
}

/// Reads one port mapping back from the wire format.
pub fn decode_port_mapping(s: &str) -> (r: Option<crate::models::PortMapping>)
    ensures
        match r {
            Some(v) => spec_dec_port(s@, 0) matches Some((sv, p)) && sv == v@ && p == s@.len(),
            None => !(spec_dec_port(s@, 0) matches Some((sv, p)) && p == s@.len()),
        },
{
    let w = str_to_chars(s);
    match dec_port_at(&w, 0) {
        Some((v, p)) => {
            if p == w.len() {
                Some(v)
            } else {
                None
            }
        },
        None => None,
    }
}

// ---------------------------------------------------------------------------
// Container metrics
// ---------------------------------------------------------------------------

pub open spec fn cm_ok(v: crate::models::ContainerMetricsView) -> bool {
    str_ok(v.container_id) && str_ok(v.container_name)
}

/// A metrics record on the wire: its two strings, the timestamp, then
/// each counter in a fixed order.
pub open spec fn enc_container_metrics(v: crate::models::ContainerMetricsView) -> Seq<char> {
    enc_str(v.container_id) + enc_str(v.container_name) + enc_i64(v.timestamp) + enc_u64(
        v.cpu_usage_percent_milli,
    ) + enc_u64(v.memory_usage_bytes) + enc_u64(v.memory_limit_bytes) + enc_u64(
        v.memory_usage_percent_milli,
    ) + enc_u64(v.network_rx_bytes) + enc_u64(v.network_tx_bytes) + enc_u64(v.block_read_bytes)
        + enc_u64(v.block_write_bytes) + enc_u64(v.pids)
}

pub open spec fn spec_dec_container_metrics(s: Seq<char>, pos: int) -> Option<
    (crate::models::ContainerMetricsView, int),
> {
    match spec_dec_str(s, pos) {
        Some((container_id, p1)) => match spec_dec_str(s, p1) {
            Some((container_name, p2)) => match spec_dec_i64(s, p2) {
                Some((timestamp, p3)) => match spec_dec_u64(s, p3) {
                    Some((cpu, p4)) => match spec_dec_u64(s, p4) {
                        Some((mu, p5)) => match spec_dec_u64(s, p5) {
                            Some((ml, p6)) => match spec_dec_u64(s, p6) {
                                Some((mp, p7)) => match spec_dec_u64(s, p7) {
                                    Some((rx, p8)) => match spec_dec_u64(s, p8) {
                                        Some((tx, p9)) => match spec_dec_u64(s, p9) {
                                            Some((br, p10)) => match spec_dec_u64(s, p10) {
                                                Some((bw, p11)) => match spec_dec_u64(s, p11) {
                                                    Some((pids, p12)) => Some(
                                                        (
                                                            crate::models::ContainerMetricsView {
                                                                container_id,
                                                                container_name,
                                                                timestamp,
                                                                cpu_usage_percent_milli: cpu,
                                                                memory_usage_bytes: mu,
                                                                memory_limit_bytes: ml,
                                                                memory_usage_percent_milli: mp,
                                                                network_rx_bytes: rx,
                                                                network_tx_bytes: tx,
                                                                block_read_bytes: br,
                                                                block_write_bytes: bw,
                                                                pids,
                                                            },
                                                            p12,
                                                        ),
                                                    ),
                                                    None => None,
                                                },
                                                None => None,
                                            },
                                            None => None,
                                        },
                                        None => None,
                                    },
                                    None => None,
                                },
                                None => None,
                            },
                            None => None,
                        },
                        None => None,
                    },
                    None => None,
                },
                None => None,
            },
            None => None,
        },
        None => None,
    }
}

/// Encoding a metrics record and decoding the result yields it back.
#[verifier::rlimit(100)]
pub proof fn lemma_container_metrics_roundtrip(
    v: crate::models::ContainerMetricsView,
    s: Seq<char>,
    pos: int,
)
    requires
        0 <= pos,
        cm_ok(v),
        pos + enc_container_metrics(v).len() <= s.len(),
        s.subrange(pos, pos + enc_container_metrics(v).len()) == enc_container_metrics(v),
    ensures
        spec_dec_container_metrics(s, pos) == Some((v, pos + enc_container_metrics(v).len())),
{
    let e = enc_container_metrics(v);
    let a1 = enc_str(v.container_id);
    let a2 = enc_str(v.container_name);
    let a3 = enc_i64(v.timestamp);
    let a4 = enc_u64(v.cpu_usage_percent_milli);
    let a5 = enc_u64(v.memory_usage_bytes);
    let a6 = enc_u64(v.memory_limit_bytes);
    let a7 = enc_u64(v.memory_usage_percent_milli);
    let a8 = enc_u64(v.network_rx_bytes);
    let a9 = enc_u64(v.network_tx_bytes);
    let a10 = enc_u64(v.block_read_bytes);
    let a11 = enc_u64(v.block_write_bytes);
    let a12 = enc_u64(v.pids);
    let o1 = a1.len() as int;
    let o2 = o1 + a2.len();
    let o3 = o2 + a3.len();
    let o4 = o3 + a4.len();
    let o5 = o4 + a5.len();
    let o6 = o5 + a6.len();
    let o7 = o6 + a7.len();
    let o8 = o7 + a8.len();
    let o9 = o8 + a9.len();
    let o10 = o9 + a10.len();
    let o11 = o10 + a11.len();
    let o12 = o11 + a12.len();
    lemma_subrange_shift(s, pos, e.len() as int, 0, o1);
    assert(e.subrange(0, o1) =~= a1);
    lemma_dec_str_of_enc(v.container_id, s, pos);
    lemma_subrange_shift(s, pos, e.len() as int, o1, o2);
    assert(e.subrange(o1, o2) =~= a2);
    lemma_dec_str_of_enc(v.container_name, s, pos + o1);
    lemma_subrange_shift(s, pos, e.len() as int, o2, o3);
    assert(e.subrange(o2, o3) =~= a3);
    lemma_dec_i64_of_enc(v.timestamp, s, pos + o2);
    lemma_subrange_shift(s, pos, e.len() as int, o3, o4);
    assert(e.subrange(o3, o4) =~= a4);
    lemma_dec_u64_of_enc(v.cpu_usage_percent_milli, s, pos + o3);
    lemma_subrange_shift(s, pos, e.len() as int, o4, o5);
    assert(e.subrange(o4, o5) =~= a5);
    lemma_dec_u64_of_enc(v.memory_usage_bytes, s, pos + o4);
    lemma_subrange_shift(s, pos, e.len() as int, o5, o6);
    assert(e.subrange(o5, o6) =~= a6);
    lemma_dec_u64_of_enc(v.memory_limit_bytes, s, pos + o5);
    lemma_subrange_shift(s, pos, e.len() as int, o6, o7);
    assert(e.subrange(o6, o7) =~= a7);
    lemma_dec_u64_of_enc(v.memory_usage_percent_milli, s, pos + o6);
    lemma_subrange_shift(s, pos, e.len() as int, o7, o8);
    assert(e.subrange(o7, o8) =~= a8);
    lemma_dec_u64_of_enc(v.network_rx_bytes, s, pos + o7);
    lemma_subrange_shift(s, pos, e.len() as int, o8, o9);
    assert(e.subrange(o8, o9) =~= a9);
    lemma_dec_u64_of_enc(v.network_tx_bytes, s, pos + o8);
    lemma_subrange_shift(s, pos, e.len() as int, o9, o10);
    assert(e.subrange(o9, o10) =~= a10);
    lemma_dec_u64_of_enc(v.block_read_bytes, s, pos + o9);
    lemma_subrange_shift(s, pos, e.len() as int, o10, o11);
    assert(e.subrange(o10, o11) =~= a11);
    lemma_dec_u64_of_enc(v.block_write_bytes, s, pos + o10);
    lemma_subrange_shift(s, pos, e.len() as int, o11, o12);
    assert(e.subrange(o11, o12) =~= a12);
    lemma_dec_u64_of_enc(v.pids, s, pos + o11);
}

fn push_enc_container_metrics(out: &mut Vec<char>, v: &crate::models::ContainerMetrics)
    ensures
        final(out)@ == old(out)@ + enc_container_metrics(v@),
{
    push_enc_str(out, v.container_id.as_str());
    push_enc_str(out, v.container_name.as_str());
    push_enc_i64(out, v.timestamp);
    push_enc_u64(out, v.cpu_usage_percent_milli);
    push_enc_u64(out, v.memory_usage_bytes);
    push_enc_u64(out, v.memory_limit_bytes);
    push_enc_u64(out, v.memory_usage_percent_milli);
    push_enc_u64(out, v.network_rx_bytes);
    push_enc_u64(out, v.network_tx_bytes);
    push_enc_u64(out, v.block_read_bytes);
    push_enc_u64(out, v.block_write_bytes);
    push_enc_u64(out, v.pids);
    proof {
        assert(out@ =~= old(out)@ + enc_container_metrics(v@));
    }
}

/// Renders a metrics record in the wire format.
pub fn encode_container_metrics(v: &crate::models::ContainerMetrics) -> (r: String)
    ensures
        r@ == enc_container_metrics(v@),
{
    let mut out: Vec<char> = Vec::new();
    push_enc_container_metrics(&mut out, v);
    proof {
        assert(out@ =~= enc_container_metrics(v@));
    }
    chars_to_string(&out)
}

fn dec_container_metrics_at(v: &Vec<char>, pos: usize) -> (r: Option<
    (crate::models::ContainerMetrics, usize),
>)
    requires
        pos <= v@.len(),
    ensures
        match r {
            Some((val, p)) => spec_dec_container_metrics(v@, pos as int) matches Some((sv, sp))
                && sv == val@ && sp == p as int && p <= v@.len(),
            None => spec_dec_container_metrics(v@, pos as int) is None,
        },
{
    let r1 = dec_str_at(v, pos);
    match r1 {
        Some((container_id, p1)) => match dec_str_at(v, p1) {
            Some((container_name, p2)) => match dec_i64_at(v, p2) {
                Some((timestamp, p3)) => match dec_u64_at(v, p3) {
                    Some((cpu, p4)) => match dec_u64_at(v, p4) {
                        Some((mu, p5)) => match dec_u64_at(v, p5) {
                            Some((ml, p6)) => match dec_u64_at(v, p6) {
                                Some((mp, p7)) => match dec_u64_at(v, p7) {
                                    Some((rx, p8)) => match dec_u64_at(v, p8) {
                                        Some((tx, p9)) => match dec_u64_at(v, p9) {
                                            Some((br, p10)) => match dec_u64_at(v, p10) {
                                                Some((bw, p11)) => match dec_u64_at(v, p11) {
                                                    Some((pids, p12)) => Some(
                                                        (
                                                            crate::models::ContainerMetrics {
                                                                container_id,
                                                                container_name,
                                                                timestamp,
                                                                cpu_usage_percent_milli: cpu,
                                                                memory_usage_bytes: mu,
                                                                memory_limit_bytes: ml,
                                                                memory_usage_percent_milli: mp,
                                                                network_rx_bytes: rx,
                                                                network_tx_bytes: tx,
                                                                block_read_bytes: br,
                                                                block_write_bytes: bw,
                                                                pids,
                                                            },
                                                            p12,
                                                        ),
                                                    ),
                                                    None => None,
                                                },
                                                None => None,
                                            },
                                            None => None,
                                        },
                                        None => None,
                                    },
                                    None => None,
                                },
                                None => None,
                            },
                            None => None,
                        },
                        None => None,
                    },
                    None => None,
                },
                None => None,
            },
            None => None,
        },
        None => None,
    }
}

/// Reads a metrics record back from the wire format.
pub fn decode_container_metrics(s: &str) -> (r: Option<crate::models::ContainerMetrics>)
    ensures
        match r {
            Some(v) => spec_dec_container_metrics(s@, 0) matches Some((sv, p)) && sv == v@ && p
                == s@.len(),
            None => !(spec_dec_container_metrics(s@, 0) matches Some((sv, p)) && p == s@.len()),
        },
{
    let w = str_to_chars(s);
    match dec_container_metrics_at(&w, 0) {
        Some((v, p)) => {
            if p == w.len() {
                Some(v)
            } else {
                None
            }
        },
        None => None,
    }
}

// ---------------------------------------------------------------------------
// System metrics
// ---------------------------------------------------------------------------

pub open spec fn sm_ok(v: crate::models::SystemMetricsView) -> bool {
    str_ok(v.docker_version)
}

/// A system record on the wire: the timestamp, the three counts, and
/// the engine version string.
pub open spec fn enc_system_metrics(v: crate::models::SystemMetricsView) -> Seq<char> {
    enc_i64(v.timestamp) + enc_u64(v.total_containers as u64) + enc_u64(
        v.running_containers as u64,
    ) + enc_u64(v.total_images as u64) + enc_str(v.docker_version)
}

pub open spec fn spec_dec_system_metrics(s: Seq<char>, pos: int) -> Option<
    (crate::models::SystemMetricsView, int),
> {
    match spec_dec_i64(s, pos) {
        Some((timestamp, p1)) => match spec_dec_u64(s, p1) {
            Some((total, p2)) => if total <= u32::MAX as u64 {
                match spec_dec_u64(s, p2) {
                    Some((running, p3)) => if running <= u32::MAX as u64 {
                        match spec_dec_u64(s, p3) {
                            Some((images, p4)) => if images <= u32::MAX as u64 {
                                match spec_dec_str(s, p4) {
                                    Some((docker_version, p5)) => Some(
                                        (
                                            crate::models::SystemMetricsView {
                                                timestamp,
                                                total_containers: total as u32,
                                                running_containers: running as u32,
                                                total_images: images as u32,
                                                docker_version,
                                            },
                                            p5,
                                        ),
                                    ),
                                    None => None,
                                }
                            } else {
                                None
                            },
                            None => None,
                        }
                    } else {
                        None
                    },
                    None => None,
                }
            } else {
                None
            },
            None => None,
        },
        None => None,
    }
}

/// Encoding a system record and decoding the result yields it back.
pub proof fn lemma_system_metrics_roundtrip(
    v: crate::models::SystemMetricsView,
    s: Seq<char>,
    pos: int,
)
    requires
        0 <= pos,
        sm_ok(v),
        pos + enc_system_metrics(v).len() <= s.len(),
        s.subrange(pos, pos + enc_system_metrics(v).len()) == enc_system_metrics(v),
    ensures
        spec_dec_system_metrics(s, pos) == Some((v, pos + enc_system_metrics(v).len())),
{
    let e = enc_system_metrics(v);
    let a1 = enc_i64(v.timestamp);
    let a2 = enc_u64(v.total_containers as u64);
    let a3 = enc_u64(v.running_containers as u64);
    let a4 = enc_u64(v.total_images as u64);
    let a5 = enc_str(v.docker_version);
    let o1 = a1.len() as int;
    let o2 = o1 + a2.len();
    let o3 = o2 + a3.len();
    let o4 = o3 + a4.len();
    let o5 = o4 + a5.len();
    lemma_subrange_shift(s, pos, e.len() as int, 0, o1);
    assert(e.subrange(0, o1) =~= a1);
    lemma_dec_i64_of_enc(v.timestamp, s, pos);
    lemma_subrange_shift(s, pos, e.len() as int, o1, o2);
    assert(e.subrange(o1, o2) =~= a2);
    lemma_dec_u64_of_enc(v.total_containers as u64, s, pos + o1);
    lemma_subrange_shift(s, pos, e.len() as int, o2, o3);
    assert(e.subrange(o2, o3) =~= a3);
    lemma_dec_u64_of_enc(v.running_containers as u64, s, pos + o2);
    lemma_subrange_shift(s, pos, e.len() as int, o3, o4);
    assert(e.subrange(o3, o4) =~= a4);
    lemma_dec_u64_of_enc(v.total_images as u64, s, pos + o3);
    lemma_subrange_shift(s, pos, e.len() as int, o4, o5);
    assert(e.subrange(o4, o5) =~= a5);
    lemma_dec_str_of_enc(v.docker_version, s, pos + o4);
}

fn push_enc_system_metrics(out: &mut Vec<char>, v: &crate::models::SystemMetrics)
    ensures
        final(out)@ == old(out)@ + enc_system_metrics(v@),
{
    push_enc_i64(out, v.timestamp);
    push_enc_u64(out, v.total_containers as u64);
    push_enc_u64(out, v.running_containers as u64);
    push_enc_u64(out, v.total_images as u64);
    push_enc_str(out, v.docker_version.as_str());
    proof {
        assert(out@ =~= old(out)@ + enc_system_metrics(v@));
    }
}

/// Renders a system record in the wire format.
pub fn encode_system_metrics(v: &crate::models::SystemMetrics) -> (r: String)
    ensures
        r@ == enc_system_metrics(v@),
{
    let mut out: Vec<char> = Vec::new();
    push_enc_system_metrics(&mut out, v);
    proof {
        assert(out@ =~= enc_system_metrics(v@));
    }
    chars_to_string(&out)
}

fn dec_system_metrics_at(v: &Vec<char>, pos: usize) -> (r: Option<
    (crate::models::SystemMetrics, usize),
>)
    requires
        pos <= v@.len(),
    ensures
        match r {
            Some((val, p)) => spec_dec_system_metrics(v@, pos as int) matches Some((sv, sp)) && sv
                == val@ && sp == p as int && p <= v@.len(),
            None => spec_dec_system_metrics(v@, pos as int) is None,
        },
{
    match dec_i64_at(v, pos) {
        Some((timestamp, p1)) => match dec_u64_at(v, p1) {
            Some((total, p2)) => {
                if total <= u32::MAX as u64 {
                    match dec_u64_at(v, p2) {
                        Some((running, p3)) => {
                            if running <= u32::MAX as u64 {
                                match dec_u64_at(v, p3) {
                                    Some((images, p4)) => {
                                        if images <= u32::MAX as u64 {
                                            match dec_str_at(v, p4) {
                                                Some((docker_version, p5)) => Some(
                                                    (
                                                        crate::models::SystemMetrics {
                                                            timestamp,
                                                            total_containers: total as u32,
                                                            running_containers: running as u32,
                                                            total_images: images as u32,
                                                            docker_version,
                                                        },
                                                        p5,
                                                    ),
                                                ),
                                                None => None,
                                            }
                                        } else {
                                            None
                                        }
                                    },
                                    None => None,
                                }
                            } else {
                                None
                            }
                        },
                        None => None,
                    }
                } else {
                    None
                }
            },
            None => None,
        },
        None => None,
    }
}

/// Reads a system record back from the wire format.
pub fn decode_system_metrics(s: &str) -> (r: Option<crate::models::SystemMetrics>)
    ensures
        match r {
            Some(v) => spec_dec_system_metrics(s@, 0) matches Some((sv, p)) && sv == v@ && p
                == s@.len(),
            None => !(spec_dec_system_metrics(s@, 0) matches Some((sv, p)) && p == s@.len()),
        },
{
    let w = str_to_chars(s);
    match dec_system_metrics_at(&w, 0) {
        Some((v, p)) => {
            if p == w.len() {
                Some(v)
            } else {
                None
            }
        },
        None => None,
    }
}

// ---------------------------------------------------------------------------
// The full metrics response
// ---------------------------------------------------------------------------

/// A run of encoded metrics records, in order.
pub open spec fn enc_cms(s: Seq<crate::models::ContainerMetricsView>) -> Seq<char>
    decreases s.len(),
{
    if s.len() == 0 {
        Seq::empty()
    } else {
        enc_container_metrics(s[0]) + enc_cms(s.skip(1))
    }
}

pub open spec fn cms_ok(s: Seq<crate::models::ContainerMetricsView>) -> bool {
    s.len() <= u64::MAX && forall|i: int| 0 <= i < s.len() ==> cm_ok(#[trigger] s[i])
}

pub open spec fn spec_dec_cms(s: Seq<char>, pos: int, count: nat) -> Option<
    (Seq<crate::models::ContainerMetricsView>, int),
>
    decreases count,
{
    if count == 0 {
        Some((Seq::empty(), pos))
    } else {
        match spec_dec_container_metrics(s, pos) {
            Some((v, p)) => match spec_dec_cms(s, p, (count - 1) as nat) {
                Some((vs, p2)) => Some((seq![v] + vs, p2)),
                None => None,
            },
            None => None,
        }
    }
}

/// The wire text the records before index `i` contribute.
pub open spec fn enc_cms_head(s: Seq<crate::models::ContainerMetricsView>, i: int) -> Seq<char>
    decreases i,
{
    if i <= 0 {
        Seq::empty()
    } else {
        enc_cms_head(s, i - 1) + enc_container_metrics(s[i - 1])
    }
}

pub proof fn lemma_enc_cms_split(s: Seq<crate::models::ContainerMetricsView>, i: int)
    requires
        0 <= i <= s.len(),
    ensures
        enc_cms(s) == enc_cms_head(s, i) + enc_cms(s.skip(i)),
    decreases i,
{
    if i == 0 {
        assert(s.skip(0) =~= s);
        assert(enc_cms(s) =~= enc_cms_head(s, 0) + enc_cms(s.skip(0)));
    } else {
        lemma_enc_cms_split(s, i - 1);
        assert(s.skip(i - 1)[0] == s[i - 1]);
        assert(s.skip(i - 1).skip(1) =~= s.skip(i));
        if s.skip(i - 1).len() == 0 {
            assert(i - 1 == s.len());
        } else {
            assert(enc_cms(s.skip(i - 1)) == enc_container_metrics(s[i - 1]) + enc_cms(s.skip(i)));
        }
        assert(enc_cms_head(s, i) =~= enc_cms_head(s, i - 1) + enc_container_metrics(s[i - 1]));
        assert(enc_cms(s) =~= enc_cms_head(s, i) + enc_cms(s.skip(i)));
    }
}

#[verifier::rlimit(100)]
pub proof fn lemma_dec_cms_of_enc(
    s: Seq<crate::models::ContainerMetricsView>,
    w: Seq<char>,
    pos: int,
)
    requires
        0 <= pos,
        cms_ok(s),
        pos + enc_cms(s).len() <= w.len(),
        w.subrange(pos, pos + enc_cms(s).len()) == enc_cms(s),
    ensures
        spec_dec_cms(w, pos, s.len() as nat) == Some((s, pos + enc_cms(s).len())),
    decreases s.len(),
{
    if s.len() == 0 {
        assert(s =~= Seq::<crate::models::ContainerMetricsView>::empty());
    } else {
        let e = enc_cms(s);
        let a = enc_container_metrics(s[0]);
        let rest = enc_cms(s.skip(1));
        let l1 = a.len() as int;
        lemma_subrange_shift(w, pos, e.len() as int, 0, l1);
        assert(e.subrange(0, l1) =~= a);
        lemma_container_metrics_roundtrip(s[0], w, pos);
        lemma_subrange_shift(w, pos, e.len() as int, l1, e.len() as int);
        assert(e.subrange(l1, e.len() as int) =~= rest);
        assert(cms_ok(s.skip(1))) by {
            assert(forall|i: int| 0 <= i < s.skip(1).len() ==> #[trigger] s.skip(1)[i] == s[i + 1]);
        }
        lemma_dec_cms_of_enc(s.skip(1), w, pos + l1);
        assert(seq![s[0]] + s.skip(1) =~= s);
    }
}

pub open spec fn mr_ok(v: crate::models::MetricsResponseView) -> bool {
    sm_ok(v.system) && cms_ok(v.containers)
}

/// The whole metrics payload on the wire: the system record, the count
/// of container records, then the records.
pub open spec fn enc_metrics_response(v: crate::models::MetricsResponseView) -> Seq<char> {
    enc_system_metrics(v.system) + enc_u64(v.containers.len() as u64) + enc_cms(v.containers)
}

pub open spec fn spec_dec_metrics_response(s: Seq<char>, pos: int) -> Option<
    (crate::models::MetricsResponseView, int),
> {
    match spec_dec_system_metrics(s, pos) {
        Some((system, p1)) => match spec_dec_u64(s, p1) {
            Some((n, p2)) => match spec_dec_cms(s, p2, n as nat) {
                Some((containers, p3)) => Some(
                    (crate::models::MetricsResponseView { system, containers }, p3),
                ),
                None => None,
            },
            None => None,
        },
        None => None,
    }
}

/// Encoding the full metrics payload and decoding the result yields it
/// back.
pub proof fn lemma_metrics_response_roundtrip(
    v: crate::models::MetricsResponseView,
    s: Seq<char>,
    pos: int,
)
    requires
        0 <= pos,
        mr_ok(v),
        pos + enc_metrics_response(v).len() <= s.len(),
        s.subrange(pos, pos + enc_metrics_response(v).len()) == enc_metrics_response(v),
    ensures
        spec_dec_metrics_response(s, pos) == Some((v, pos + enc_metrics_response(v).len())),
{
    let e = enc_metrics_response(v);
    let a1 = enc_system_metrics(v.system);
    let a2 = enc_u64(v.containers.len() as u64);
    let a3 = enc_cms(v.containers);
    let o1 = a1.len() as int;
    let o2 = o1 + a2.len();
    let o3 = o2 + a3.len();
    lemma_subrange_shift(s, pos, e.len() as int, 0, o1);
    assert(e.subrange(0, o1) =~= a1);
    lemma_system_metrics_roundtrip(v.system, s, pos);
    lemma_subrange_shift(s, pos, e.len() as int, o1, o2);
    assert(e.subrange(o1, o2) =~= a2);
    lemma_dec_u64_of_enc(v.containers.len() as u64, s, pos + o1);
    lemma_subrange_shift(s, pos, e.len() as int, o2, o3);
    assert(e.subrange(o2, o3) =~= a3);
    lemma_dec_cms_of_enc(v.containers, s, pos + o2);
}

/// Renders the full metrics payload in the wire format.
pub fn encode_metrics_response(v: &crate::models::MetricsResponse) -> (r: String)
    ensures
        r@ == enc_metrics_response(v@),
{
    let ghost cv = v.containers@.map_values(|m: crate::models::ContainerMetrics| m@);
    let mut out: Vec<char> = Vec::new();
    push_enc_system_metrics(&mut out, &v.system);
    let n: usize = v.containers.len();
    push_enc_u64(&mut out, n as u64);
    let ghost base = out@;
    let mut i: usize = 0;
    proof {
        assert(out@ =~= base + enc_cms_head(cv, 0));
    }
    while i < n
        invariant
            n == v.containers@.len(),
            cv == v.containers@.map_values(|m: crate::models::ContainerMetrics| m@),
            i <= n,
            out@ == base + enc_cms_head(cv, i as int),
        decreases n - i,
    {
        proof {
            assert(cv[i as int] == v.containers@[i as int]@);
        }
        push_enc_container_metrics(&mut out, &v.containers[i]);
        proof {
            assert(enc_cms_head(cv, i + 1) =~= enc_cms_head(cv, i as int) + enc_container_metrics(
                cv[i as int],
            ));
            assert(out@ =~= base + enc_cms_head(cv, i + 1));
        }
        i = i + 1;
    }
    proof {
        lemma_enc_cms_split(cv, n as int);
        assert(cv.skip(n as int) =~= Seq::<crate::models::ContainerMetricsView>::empty());
        assert(enc_cms(cv.skip(n as int)) =~= Seq::<char>::empty());
        assert(enc_cms(cv) =~= enc_cms_head(cv, n as int));
        assert(out@ =~= enc_metrics_response(v@));
    }
    chars_to_string(&out)
}

fn dec_cms_at(v: &Vec<char>, pos: usize, count: u64) -> (r: Option<
    (Vec<crate::models::ContainerMetrics>, usize),
>)
    requires
        pos <= v@.len(),
    ensures
        match r {
            Some((val, p)) => spec_dec_cms(v@, pos as int, count as nat) matches Some((sv, sp))
                && sv == val@.map_values(|x: crate::models::ContainerMetrics| x@) && sp == p as int
                && p <= v@.len(),
            None => spec_dec_cms(v@, pos as int, count as nat) is None,
        },
{
    let mut acc: Vec<crate::models::ContainerMetrics> = Vec::new();
    let mut p: usize = pos;
    let mut rem: u64 = count;
    loop
        invariant
            p <= v@.len(),
            rem <= count,
            spec_dec_cms(v@, pos as int, count as nat) == (match spec_dec_cms(
                v@,
                p as int,
                rem as nat,
            ) {
                Some((vs, pe)) => Some(
                    (acc@.map_values(|x: crate::models::ContainerMetrics| x@) + vs, pe),
                ),
                None => None::<(Seq<crate::models::ContainerMetricsView>, int)>,
            }),
        decreases rem,
    {
        if rem == 0 {
            proof {
                assert(acc@.map_values(|x: crate::models::ContainerMetrics| x@) + Seq::<
                    crate::models::ContainerMetricsView,
                >::empty() =~= acc@.map_values(|x: crate::models::ContainerMetrics| x@));
            }
            return Some((acc, p));
        }
        let ghost accv = acc@.map_values(|x: crate::models::ContainerMetrics| x@);
        match dec_container_metrics_at(v, p) {
            Some((item, p2)) => {
                let ghost itemv = item@;
                acc.push(item);
                proof {
                    assert(acc@.map_values(|x: crate::models::ContainerMetrics| x@) =~= accv.push(
                        itemv,
                    ));
                    assert forall|vs: Seq<crate::models::ContainerMetricsView>|
                        true implies accv + (seq![itemv] + vs) =~= accv.push(itemv) + vs by {}
                }
                p = p2;
                rem = rem - 1;
            },
            None => {
                return None;
            },
        }
    }
}

/// Reads the full metrics payload back from the wire format.
pub fn decode_metrics_response(s: &str) -> (r: Option<crate::models::MetricsResponse>)
    ensures
        match r {
            Some(v) => spec_dec_metrics_response(s@, 0) matches Some((sv, p)) && sv == v@ && p
                == s@.len(),
            None => !(spec_dec_metrics_response(s@, 0) matches Some((sv, p)) && p == s@.len()),
        },
{
    let w = str_to_chars(s);
    match dec_system_metrics_at(&w, 0) {
        Some((system, p1)) => match dec_u64_at(&w, p1) {
            Some((n, p2)) => match dec_cms_at(&w, p2, n) {
                Some((containers, p3)) => {
                    if p3 == w.len() {
                        Some(crate::models::MetricsResponse { system, containers })
                    } else {
                        None
                    }
                },
                None => None,
            },
            None => None,
        },
        None => None,
    }
}

} // verus!
