//! IP addresses as plain values: parsing their textual forms from bytes
//! and rendering their canonical textual forms.
//!
//! An IPv4 text is four decimal octets joined by dots, each at most 255,
//! without leading zeros. An IPv6 text is colon-separated hexadecimal
//! groups, with at most one `::` standing for one or more zero groups;
//! its last token may be an embedded dotted-quad IPv4 text standing for
//! the final two groups. The canonical rendering of an IPv6 address
//! uses lower-case hex digits without leading zeros and replaces the
//! leftmost longest run of two or more zero groups by `::`; it always
//! writes hexadecimal groups, never an embedded dotted quad.

use vstd::prelude::*;
use vstd::string::*;
use crate::text::{
    dec_rep, hex_rep, dec_string, hex_string, is_dec_digit, is_hex_digit, hex_digit_val,
    dec_tok_val, hex_tok_val, split_toks, split_bytes, ascii_bytes, lemma_dec_rep_reads_back,
    lemma_hex_rep_reads_back, lemma_split_without_sep, lemma_split_at_sep, lemma_split_toks_len,
};

verus! {

/// An IPv4 address as four octets.
#[derive(Clone, Copy, Debug, PartialEq, Eq, Structural)]
pub struct Ipv4Address {
    pub o0: u8,
    pub o1: u8,
    pub o2: u8,
    pub o3: u8,
}

/// An IPv6 address as eight 16-bit groups, most significant first.
#[derive(Debug)]
pub struct Ipv6Address {
    pub groups: Vec<u16>,
}

impl Ipv6Address {
    /// An IPv6 address holds exactly eight groups.
    pub open spec fn wf(&self) -> bool {
        self.groups@.len() == 8
    }
}

/// An address of either family.
#[derive(Debug)]
pub enum IpAddress {
    V4(Ipv4Address),
    V6(Ipv6Address),
}

impl IpAddress {
    pub open spec fn wf(&self) -> bool {
        match self {
            IpAddress::V4(_) => true,
            IpAddress::V6(a) => a.wf(),
        }
    }
}

// ---------------------------------------------------------------------
// IPv4
// ---------------------------------------------------------------------

/// Whether `t` is a decimal octet numeral: one to three digits, no
/// leading zero, value at most 255.
pub open spec fn is_dec_octet(t: Seq<u8>) -> bool {
    &&& 1 <= t.len() <= 3
    &&& forall|i: int| 0 <= i < t.len() ==> is_dec_digit(#[trigger] t[i])
    &&& (t.len() > 1 ==> t[0] != 48)
    &&& dec_tok_val(t) <= 255
}

/// The address denoted by an IPv4 text, if `s` is one.
pub open spec fn parse_ipv4_spec(s: Seq<u8>) -> Option<Ipv4Address> {
    let t = split_toks(46, s);
    if t.len() == 4 && is_dec_octet(t[0]) && is_dec_octet(t[1]) && is_dec_octet(t[2])
        && is_dec_octet(t[3]) {
        Some(
            Ipv4Address {
                o0: dec_tok_val(t[0]) as u8,
                o1: dec_tok_val(t[1]) as u8,
                o2: dec_tok_val(t[2]) as u8,
                o3: dec_tok_val(t[3]) as u8,
            },
        )
    } else {
        None
    }
}

/// The canonical text of an IPv4 address: dotted decimal.
pub open spec fn ipv4_text(a: Ipv4Address) -> Seq<char> {
    dec_rep(a.o0 as nat) + seq!['.'] + dec_rep(a.o1 as nat) + seq!['.'] + dec_rep(a.o2 as nat)
        + seq!['.'] + dec_rep(a.o3 as nat)
}

/// Reads one decimal octet numeral, or reports that `t` is not one.
fn check_dec_octet(t: &Vec<u8>) -> (r: Option<u8>)
    ensures
        r is Some <==> is_dec_octet(t@),
        r is Some ==> r->0 as nat == dec_tok_val(t@),
{
    if t.len() < 1 || t.len() > 3 {
        return None;
    }
    if t.len() > 1 && t[0] == 48 {
        return None;
    }
    let mut acc: u32 = 0;
    let mut i: usize = 0;
    while i < t.len()
        invariant
            0 <= i <= t@.len() <= 3,
            acc == dec_tok_val(t@.subrange(0, i as int)),
            i == 0 ==> acc == 0,
            i <= 1 ==> acc < 10,
            i <= 2 ==> acc < 100,
            acc < 1000,
            forall|k: int| 0 <= k < i ==> is_dec_digit(#[trigger] t@[k]),
        decreases t@.len() - i,
    {
        let b = t[i];
        if b < 48 || b > 57 {
            return None;
        }
        proof {
            assert(t@.subrange(0, i + 1).drop_last() =~= t@.subrange(0, i as int));
        }
        acc = acc * 10 + (b - 48) as u32;
        i = i + 1;
    }
    proof {
        assert(t@.subrange(0, t@.len() as int) =~= t@);
    }
    if acc > 255 {
        return None;
    }
    Some(acc as u8)
}

/// Parses an IPv4 text; returns the address exactly when `s` is one.
pub fn parse_ipv4(s: &[u8]) -> (r: Option<Ipv4Address>)
    ensures
        r == parse_ipv4_spec(s@),
{
    let toks = split_bytes(46, s);
    if toks.len() != 4 {
        return None;
    }
    let a = check_dec_octet(&toks[0]);
    let b = check_dec_octet(&toks[1]);
    let c = check_dec_octet(&toks[2]);
    let d = check_dec_octet(&toks[3]);
    match (a, b, c, d) {
        (Some(o0), Some(o1), Some(o2), Some(o3)) => Some(Ipv4Address { o0, o1, o2, o3 }),
        _ => None,
    }
}

/// Renders the canonical text of an IPv4 address.
pub fn format_ipv4(a: &Ipv4Address) -> (r: String)
    ensures
        r@ == ipv4_text(*a),
{
    proof {
        reveal_strlit(".");
    }
    let mut s = dec_string(a.o0 as u32);
    s.append(".");
    s.append(dec_string(a.o1 as u32).as_str());
    s.append(".");
    s.append(dec_string(a.o2 as u32).as_str());
    s.append(".");
    s.append(dec_string(a.o3 as u32).as_str());
    s
}

proof fn lemma_octet_text_reads_back(n: nat)
    requires
        n <= 255,
    ensures
        is_dec_octet(ascii_bytes(dec_rep(n))),
        dec_tok_val(ascii_bytes(dec_rep(n))) == n,
        forall|i: int| 0 <= i < dec_rep(n).len() ==> #[trigger] ascii_bytes(dec_rep(n))[i] != 46,
{
    lemma_dec_rep_reads_back(n);
    let b = ascii_bytes(dec_rep(n));
    if b.len() > 1 && b[0] == 48 {
        assert(n == 0);
        assert(b.len() == 1);
    }
    assert forall|i: int| 0 <= i < dec_rep(n).len() implies #[trigger] b[i] != 46 by {
        assert(is_dec_digit(b[i]));
    }
}

/// Round trip: the canonical text of an IPv4 address parses back to
/// exactly that address.
pub proof fn lemma_ipv4_round_trip(a: Ipv4Address)
    ensures
        parse_ipv4_spec(ascii_bytes(ipv4_text(a))) == Some(a),
{
    let t0 = ascii_bytes(dec_rep(a.o0 as nat));
    let t1 = ascii_bytes(dec_rep(a.o1 as nat));
    let t2 = ascii_bytes(dec_rep(a.o2 as nat));
    let t3 = ascii_bytes(dec_rep(a.o3 as nat));
    lemma_octet_text_reads_back(a.o0 as nat);
    lemma_octet_text_reads_back(a.o1 as nat);
    lemma_octet_text_reads_back(a.o2 as nat);
    lemma_octet_text_reads_back(a.o3 as nat);
    let s = ascii_bytes(ipv4_text(a));
    assert('.' as u8 == 46);
    assert(s =~= t0 + seq![46u8] + (t1 + seq![46u8] + (t2 + seq![46u8] + t3)));
    lemma_split_at_sep(46, t0, t1 + seq![46u8] + (t2 + seq![46u8] + t3));
    lemma_split_at_sep(46, t1, t2 + seq![46u8] + t3);
    lemma_split_at_sep(46, t2, t3);
    lemma_split_without_sep(46, t3);
    let toks = split_toks(46, s);
    assert(toks =~~= seq![t0, t1, t2, t3]);
    assert(toks[0] == t0 && toks[1] == t1 && toks[2] == t2 && toks[3] == t3);
}

// ---------------------------------------------------------------------
// IPv6 parsing
// ---------------------------------------------------------------------

/// Whether `t` is a hexadecimal group numeral: one to four hex digits.
pub open spec fn is_hex_group(t: Seq<u8>) -> bool {
    &&& 1 <= t.len() <= 4
    &&& forall|i: int| 0 <= i < t.len() ==> is_hex_digit(#[trigger] t[i])
}

/// Whether the tokens in `[lo, hi)` are all non-empty.
pub open spec fn all_nonempty(t: Seq<Seq<u8>>, lo: int, hi: int) -> bool {
    forall|i: int| lo <= i < hi ==> #[trigger] t[i].len() > 0
}

/// Whether the tokens in `[lo, hi)` are all hexadecimal groups.
pub open spec fn all_hex_groups(t: Seq<Seq<u8>>, lo: int, hi: int) -> bool {
    forall|i: int| lo <= i < hi ==> is_hex_group(#[trigger] t[i])
}

/// The group values of the tokens in `[lo, hi)`.
pub open spec fn group_vals(t: Seq<Seq<u8>>, lo: int, hi: int) -> Seq<u16> {
    Seq::new((hi - lo) as nat, |i: int| hex_tok_val(t[lo + i]) as u16)
}

/// `n` zero groups.
pub open spec fn zero_groups(n: nat) -> Seq<u16> {
    Seq::new(n, |i: int| 0u16)
}

/// The index of the first empty token, or `t.len()`.
pub open spec fn first_empty(t: Seq<Seq<u8>>) -> int
    decreases t.len(),
{
    if t.len() == 0 {
        0
    } else if t[0].len() == 0 {
        0
    } else {
        1 + first_empty(t.drop_first())
    }
}

proof fn lemma_first_empty(t: Seq<Seq<u8>>)
    ensures
        0 <= first_empty(t) <= t.len(),
        forall|k: int| 0 <= k < first_empty(t) ==> #[trigger] t[k].len() > 0,
        first_empty(t) < t.len() ==> t[first_empty(t)].len() == 0,
    decreases t.len(),
{
    if t.len() > 0 && t[0].len() > 0 {
        lemma_first_empty(t.drop_first());
        assert forall|k: int| 0 <= k < first_empty(t) implies #[trigger] t[k].len() > 0 by {
            if k > 0 {
                assert(t.drop_first()[k - 1].len() > 0);
            }
        }
    }
}

/// The groups denoted by the last token of an address: one hexadecimal
/// group, or an embedded dotted-quad IPv4 text standing for its two
/// group values.
pub open spec fn tail_token_groups(t: Seq<u8>) -> Option<Seq<u16>> {
    if is_hex_group(t) {
        Some(seq![hex_tok_val(t) as u16])
    } else {
        match parse_ipv4_spec(t) {
            Some(a) => Some(
                seq![
                    ((a.o0 as nat) * 256 + (a.o1 as nat)) as u16,
                    ((a.o2 as nat) * 256 + (a.o3 as nat)) as u16,
                ],
            ),
            None => None,
        }
    }
}

/// The groups denoted by the tokens `[lo, hi)` when they end the
/// address: hexadecimal groups, the last of which may instead be an
/// embedded dotted-quad IPv4 text.
pub open spec fn end_segment_groups(t: Seq<Seq<u8>>, lo: int, hi: int) -> Option<Seq<u16>>
    recommends
        lo < hi <= t.len(),
{
    match tail_token_groups(t[hi - 1]) {
        Some(tail) => if all_hex_groups(t, lo, hi - 1) {
            Some(group_vals(t, lo, hi - 1) + tail)
        } else {
            None
        },
        None => None,
    }
}

/// The groups denoted by an IPv6 text, if `s` is one.
///
/// The token list of `s` split at `:` falls in one of these shapes:
/// non-empty groups adding up to eight; `["", "", ""]` for `::` alone;
/// two leading empty tokens for a text starting with `::`; two trailing
/// empty tokens for a text ending with `::`; or one interior empty
/// token for a `::` between groups. The `::` stands for at least one
/// zero group, and the last token of the address may be an embedded
/// dotted-quad IPv4 text standing for the final two groups.
pub open spec fn parse_ipv6_spec(s: Seq<u8>) -> Option<Seq<u16>> {
    let t = split_toks(58, s);
    let n = t.len() as int;
    let p = first_empty(t);
    if p == n {
        match end_segment_groups(t, 0, n) {
            Some(g) => if g.len() == 8 {
                Some(g)
            } else {
                None
            },
            None => None,
        }
    } else if n == 3 && t[0].len() == 0 && t[1].len() == 0 && t[2].len() == 0 {
        Some(zero_groups(8))
    } else if p == 0 && n >= 3 && t[1].len() == 0 && all_nonempty(t, 2, n) {
        match end_segment_groups(t, 2, n) {
            Some(g) => if g.len() <= 7 {
                Some(zero_groups((8 - g.len()) as nat) + g)
            } else {
                None
            },
            None => None,
        }
    } else if p == n - 2 && n >= 3 && t[n - 1].len() == 0 && n - 2 <= 7 && all_hex_groups(
        t,
        0,
        n - 2,
    ) {
        Some(group_vals(t, 0, n - 2) + zero_groups((8 - (n - 2)) as nat))
    } else if 1 <= p <= n - 2 && all_nonempty(t, p + 1, n) && all_hex_groups(t, 0, p) {
        match end_segment_groups(t, p + 1, n) {
            Some(g) => if p + g.len() <= 7 {
                Some(group_vals(t, 0, p) + zero_groups((8 - (p + g.len())) as nat) + g)
            } else {
                None
            },
            None => None,
        }
    } else {
        None
    }
}

/// Reads one hexadecimal group numeral, or reports that `t` is not one.
fn check_hex_group(t: &Vec<u8>) -> (r: Option<u16>)
    ensures
        r is Some <==> is_hex_group(t@),
        r is Some ==> r->0 as nat == hex_tok_val(t@),
{
    if t.len() < 1 || t.len() > 4 {
        return None;
    }
    let mut acc: u32 = 0;
    let mut i: usize = 0;
    while i < t.len()
        invariant
            0 <= i <= t@.len() <= 4,
            acc == hex_tok_val(t@.subrange(0, i as int)),
            i == 0 ==> acc == 0,
            i <= 1 ==> acc < 16,
            i <= 2 ==> acc < 256,
            i <= 3 ==> acc < 4096,
            acc < 0x10000,
            forall|k: int| 0 <= k < i ==> is_hex_digit(#[trigger] t@[k]),
        decreases t@.len() - i,
    {
        let b = t[i];
        let d: u32 = if 48 <= b && b <= 57 {
            (b - 48) as u32
        } else if 97 <= b && b <= 102 {
            (b - 87) as u32
        } else if 65 <= b && b <= 70 {
            (b - 55) as u32
        } else {
            return None;
        };
        proof {
            assert(t@.subrange(0, i + 1).drop_last() =~= t@.subrange(0, i as int));
        }
        acc = acc * 16 + d;
        i = i + 1;
    }
    proof {
        assert(t@.subrange(0, t@.len() as int) =~= t@);
    }
    Some(acc as u16)
}

/// Reads the last token of an address: a hexadecimal group, or an
/// embedded dotted-quad IPv4 text standing for two groups.
fn check_tail_token(t: &Vec<u8>) -> (r: Option<Vec<u16>>)
    ensures
        r is Some <==> tail_token_groups(t@) is Some,
        r is Some ==> Some(r->0@) == tail_token_groups(t@) && 1 <= r->0@.len() <= 2,
{
    match check_hex_group(t) {
        Some(v) => {
            let mut out: Vec<u16> = Vec::new();
            out.push(v);
            proof {
                assert(out@ =~= seq![hex_tok_val(t@) as u16]);
            }
            Some(out)
        },
        None => match parse_ipv4(t.as_slice()) {
            Some(a) => {
                let hi: u16 = (a.o0 as u16) * 256 + (a.o1 as u16);
                let lo: u16 = (a.o2 as u16) * 256 + (a.o3 as u16);
                let mut out: Vec<u16> = Vec::new();
                out.push(hi);
                out.push(lo);
                proof {
                    assert(out@ =~= seq![
                        ((a.o0 as nat) * 256 + (a.o1 as nat)) as u16,
                        ((a.o2 as nat) * 256 + (a.o3 as nat)) as u16,
                    ]);
                }
                Some(out)
            },
            None => None,
        },
    }
}

/// Appends the group values of tokens `[lo, hi)` to `out`.
fn push_group_vals(out: &mut Vec<u16>, toks: &Vec<Vec<u8>>, lo: usize, hi: usize) -> (ok: bool)
    requires
        lo <= hi <= old(out).len() + toks@.len(),
        hi <= toks@.len(),
    ensures
        ok <==> all_hex_groups(toks@.map_values(|t: Vec<u8>| t@), lo as int, hi as int),
        ok ==> final(out)@ == old(out)@ + group_vals(
            toks@.map_values(|t: Vec<u8>| t@),
            lo as int,
            hi as int,
        ),
{
    let ghost tv = toks@.map_values(|t: Vec<u8>| t@);
    let mut i: usize = lo;
    while i < hi
        invariant
            lo <= i <= hi <= toks@.len(),
            tv == toks@.map_values(|t: Vec<u8>| t@),
            all_hex_groups(tv, lo as int, i as int),
            out@ == old(out)@ + group_vals(tv, lo as int, i as int),
        decreases hi - i,
    {
        match check_hex_group(&toks[i]) {
            Some(v) => {
                out.push(v);
                proof {
                    assert(group_vals(tv, lo as int, i + 1) =~= group_vals(
                        tv,
                        lo as int,
                        i as int,
                    ).push(hex_tok_val(tv[i as int]) as u16));
                }
            },
            None => {
                proof {
                    assert(!is_hex_group(tv[i as int]));
                }
                return false;
            },
        }
        i = i + 1;
    }
    true
}

/// Appends `n` zero groups to `out`.
fn push_zero_groups(out: &mut Vec<u16>, n: usize)
    ensures
        final(out)@ == old(out)@ + zero_groups(n as nat),
{
    let mut i: usize = 0;
    while i < n
        invariant
            0 <= i <= n,
            out@ == old(out)@ + zero_groups(i as nat),
        decreases n - i,
    {
        out.push(0u16);
        proof {
            assert(zero_groups((i + 1) as nat) =~= zero_groups(i as nat).push(0u16));
        }
        i = i + 1;
    }
}

/// Finds the first empty token.
fn find_first_empty(toks: &Vec<Vec<u8>>) -> (r: usize)
    ensures
        r as int == first_empty(toks@.map_values(|t: Vec<u8>| t@)),
        r <= toks@.len(),
{
    let ghost tv = toks@.map_values(|t: Vec<u8>| t@);
    proof {
        lemma_first_empty(tv);
    }
    let mut i: usize = 0;
    while i < toks.len()
        invariant
            0 <= i <= toks@.len(),
            tv == toks@.map_values(|t: Vec<u8>| t@),
            0 <= first_empty(tv) <= tv.len(),
            forall|k: int| 0 <= k < first_empty(tv) ==> #[trigger] tv[k].len() > 0,
            first_empty(tv) < tv.len() ==> tv[first_empty(tv)].len() == 0,
            forall|k: int| 0 <= k < i ==> #[trigger] tv[k].len() > 0,
        decreases toks@.len() - i,
    {
        if toks[i].len() == 0 {
            proof {
                assert(tv[i as int].len() == 0);
                if first_empty(tv) > i as int {
                    assert(tv[i as int].len() > 0);
                }
                if first_empty(tv) < i as int {
                    assert(tv[first_empty(tv)].len() > 0);
                }
            }
            return i;
        }
        i = i + 1;
    }
    proof {
        assert(first_empty(tv) == tv.len());
    }
    i
}

/// Parses an IPv6 text; returns the address exactly when `s` is one.
#[verifier::rlimit(80)]
pub fn parse_ipv6(s: &[u8]) -> (r: Option<Ipv6Address>)
    ensures
        r is Some <==> parse_ipv6_spec(s@) is Some,
        r is Some ==> r->0.wf() && Some(r->0.groups@) == parse_ipv6_spec(s@),
{
    let toks = split_bytes(58, s);
    let ghost tv = toks@.map_values(|t: Vec<u8>| t@);
    proof {
        assert(tv =~= split_toks(58, s@));
        lemma_first_empty(tv);
    }
    let n = toks.len();
    let p = find_first_empty(&toks);
    let mut groups: Vec<u16> = Vec::new();
    proof {
        lemma_split_toks_len(58, s@);
    }
    if p == n {
        if n - 1 > 8 {
            return None;
        }
        let mut tail = match check_tail_token(&toks[n - 1]) {
            Some(v) => v,
            None => {
                return None;
            },
        };
        if n - 1 + tail.len() != 8 {
            return None;
        }
        if !push_group_vals(&mut groups, &toks, 0, n - 1) {
            return None;
        }
        let ghost tailv = tail@;
        groups.append(&mut tail);
        proof {
            assert(tv[n - 1] == toks@[n - 1]@);
            assert(end_segment_groups(tv, 0, n as int) == Some(
                group_vals(tv, 0, n - 1) + tailv,
            ));
            assert(groups@ =~= group_vals(tv, 0, n - 1) + tailv);
            assert(parse_ipv6_spec(s@) == Some(groups@));
        }
        Some(Ipv6Address { groups })
    } else if n == 3 && toks[0].len() == 0 && toks[1].len() == 0 && toks[2].len() == 0 {
        push_zero_groups(&mut groups, 8);
        proof {
            assert(parse_ipv6_spec(s@) == Some(groups@));
        }
        Some(Ipv6Address { groups })
    } else if p == 0 && n >= 3 && toks[1].len() == 0 {
        // a text starting with `::`
        let mut i: usize = 2;
        while i < n
            invariant
                2 <= i <= n,
                n == tv.len(),
                n >= 3,
                tv == toks@.map_values(|t: Vec<u8>| t@),
                tv =~= split_toks(58, s@),
                first_empty(tv) == 0,
                tv[1].len() == 0,
                !(n == 3 && tv[0].len() == 0 && tv[1].len() == 0 && tv[2].len() == 0),
                forall|k: int| 2 <= k < i ==> #[trigger] tv[k].len() > 0,
            decreases n - i,
        {
            if toks[i].len() == 0 {
                proof {
                    assert(tv[i as int].len() == 0);
                    assert(!all_nonempty(tv, 2, n as int));
                }
                return None;
            }
            i = i + 1;
        }
        if n - 3 > 7 {
            return None;
        }
        let mut tail = match check_tail_token(&toks[n - 1]) {
            Some(v) => v,
            None => {
                return None;
            },
        };
        let count = (n - 3) + tail.len();
        if count > 7 {
            return None;
        }
        push_zero_groups(&mut groups, 8 - count);
        if !push_group_vals(&mut groups, &toks, 2, n - 1) {
            return None;
        }
        let ghost tailv = tail@;
        groups.append(&mut tail);
        proof {
            assert(tv[n - 1] == toks@[n - 1]@);
            assert(end_segment_groups(tv, 2, n as int) == Some(
                group_vals(tv, 2, n - 1) + tailv,
            ));
            assert(groups@ =~= zero_groups((8 - count) as nat) + (group_vals(tv, 2, n - 1)
                + tailv));
            assert(parse_ipv6_spec(s@) == Some(groups@));
        }
        Some(Ipv6Address { groups })
    } else if n >= 3 && p == n - 2 && toks[n - 1].len() == 0 {
        if n - 2 > 7 {
            return None;
        }
        if !push_group_vals(&mut groups, &toks, 0, n - 2) {
            return None;
        }
        push_zero_groups(&mut groups, 8 - (n - 2));
        proof {
            assert(parse_ipv6_spec(s@) == Some(groups@));
        }
        Some(Ipv6Address { groups })
    } else if 1 <= p && p <= n - 2 && n >= 3 {
        let mut i: usize = p + 1;
        while i < n
            invariant
                p + 1 <= i <= n,
                n == tv.len(),
                n >= 3,
                1 <= p <= n - 2,
                tv == toks@.map_values(|t: Vec<u8>| t@),
                tv =~= split_toks(58, s@),
                first_empty(tv) == p as int,
                tv[p as int].len() == 0,
                forall|k: int| 0 <= k < p ==> #[trigger] tv[k].len() > 0,
                !(p as int == n - 2 && tv[n - 1].len() == 0),
                forall|k: int| p + 1 <= k < i ==> #[trigger] tv[k].len() > 0,
            decreases n - i,
        {
            if toks[i].len() == 0 {
                proof {
                    assert(tv[i as int].len() == 0);
                    assert(!all_nonempty(tv, p + 1, n as int));
                }
                return None;
            }
            i = i + 1;
        }
        if !push_group_vals(&mut groups, &toks, 0, p) {
            return None;
        }
        if p > 7 || n - 2 - p > 7 {
            return None;
        }
        let mut tail = match check_tail_token(&toks[n - 1]) {
            Some(v) => v,
            None => {
                return None;
            },
        };
        let count = (n - 2 - p) + tail.len();
        if p + count > 7 {
            return None;
        }
        push_zero_groups(&mut groups, 8 - (p + count));
        if !push_group_vals(&mut groups, &toks, p + 1, n - 1) {
            return None;
        }
        let ghost tailv = tail@;
        groups.append(&mut tail);
        proof {
            assert(tv[n - 1] == toks@[n - 1]@);
            assert(end_segment_groups(tv, p + 1, n as int) == Some(
                group_vals(tv, p + 1, n - 1) + tailv,
            ));
            assert(groups@ =~= group_vals(tv, 0, p as int) + zero_groups(
                (8 - (p + count)) as nat,
            ) + (group_vals(tv, p + 1, n - 1) + tailv));
            assert(parse_ipv6_spec(s@) == Some(groups@));
        }
        Some(Ipv6Address { groups })
    } else {
        return None;
    }
}

// ---------------------------------------------------------------------
// IPv6 formatting
// ---------------------------------------------------------------------

/// The length of the run of zero groups starting at `i`.
pub open spec fn run_len_at(g: Seq<u16>, i: int) -> int
    decreases g.len() - i when 0 <= i <= g.len()
{
    if i >= g.len() || g[i] != 0 {
        0
    } else {
        1 + run_len_at(g, i + 1)
    }
}

/// The leftmost longest run of zero groups starting at or after `i`,
/// as a start index and a length.
pub open spec fn best_run_from(g: Seq<u16>, i: int) -> (int, int)
    decreases g.len() - i when 0 <= i <= g.len()
{
    if i >= g.len() {
        (i, 0)
    } else {
        let rest = best_run_from(g, i + 1);
        let here = run_len_at(g, i);
        if here >= rest.1 {
            (i, here)
        } else {
            rest
        }
    }
}

proof fn lemma_run_len_at_bounds(g: Seq<u16>, i: int)
    requires
        0 <= i <= g.len(),
    ensures
        0 <= run_len_at(g, i) <= g.len() - i,
    decreases g.len() - i,
{
    if i < g.len() && g[i] == 0 {
        lemma_run_len_at_bounds(g, i + 1);
    }
}

proof fn lemma_best_run_bounds(g: Seq<u16>, i: int)
    requires
        0 <= i <= g.len(),
    ensures
        i <= best_run_from(g, i).0,
        0 <= best_run_from(g, i).1,
        best_run_from(g, i).0 + best_run_from(g, i).1 <= g.len(),
    decreases g.len() - i,
{
    if i < g.len() {
        lemma_best_run_bounds(g, i + 1);
        lemma_run_len_at_bounds(g, i);
    }
}

/// The hex group texts of `g[lo..hi]` joined by colons.
pub open spec fn joined(g: Seq<u16>, lo: int, hi: int) -> Seq<char>
    decreases hi - lo when lo <= hi
{
    if lo >= hi {
        Seq::empty()
    } else if lo + 1 == hi {
        hex_rep(g[lo] as nat)
    } else {
        hex_rep(g[lo] as nat) + seq![':'] + joined(g, lo + 1, hi)
    }
}

/// The canonical text of eight groups: the leftmost longest run of two
/// or more zero groups is written `::`.
pub open spec fn ipv6_text_of(g: Seq<u16>) -> Seq<char> {
    let best = best_run_from(g, 0);
    if best.1 >= 2 {
        joined(g, 0, best.0) + seq![':', ':'] + joined(g, best.0 + best.1, g.len() as int)
    } else {
        joined(g, 0, g.len() as int)
    }
}

/// The canonical text of an IPv6 address.
pub open spec fn ipv6_text(a: Ipv6Address) -> Seq<char> {
    ipv6_text_of(a.groups@)
}

proof fn lemma_joined_snoc(g: Seq<u16>, lo: int, i: int)
    requires
        lo <= i,
    ensures
        joined(g, lo, i + 1) == if i == lo {
            hex_rep(g[lo] as nat)
        } else {
            joined(g, lo, i) + seq![':'] + hex_rep(g[i] as nat)
        },
    decreases i - lo,
{
    if i > lo {
        lemma_joined_snoc(g, lo + 1, i);
        if i == lo + 1 {
            assert(joined(g, lo, i + 1) == hex_rep(g[lo] as nat) + seq![':'] + joined(
                g,
                lo + 1,
                i + 1,
            ));
        } else {
            assert(joined(g, lo, i + 1) =~= joined(g, lo, i) + seq![':'] + hex_rep(g[i] as nat));
        }
    }
}

/// Appends the joined hex group texts of `g[lo..hi]` to `s`.
fn append_joined(s: &mut String, a: &Ipv6Address, lo: usize, hi: usize)
    requires
        lo <= hi <= a.groups@.len(),
    ensures
        final(s)@ == old(s)@ + joined(a.groups@, lo as int, hi as int),
{
    proof {
        reveal_strlit(":");
        assert((":")@ =~= seq![':']);
    }
    let ghost g = a.groups@;
    let ghost s0 = s@;
    let mut i: usize = lo;
    while i < hi
        invariant
            lo <= i <= hi <= g.len(),
            g == a.groups@,
            s0 == old(s)@,
            s@ == s0 + joined(g, lo as int, i as int),
        decreases hi - i,
    {
        if i > lo {
            s.append(":");
        }
        let h = hex_string(a.groups[i]);
        s.append(h.as_str());
        proof {
            reveal_strlit(":");
            lemma_joined_snoc(g, lo as int, i as int);
            if i == lo {
                assert(joined(g, lo as int, lo as int) =~= Seq::<char>::empty());
                assert(s@ =~= s0 + joined(g, lo as int, i + 1));
            } else {
                assert((":")@ =~= seq![':']);
                assert(s@ =~= s0 + joined(g, lo as int, i + 1));
            }
        }
        i = i + 1;
    }
}

/// Renders the canonical text of an IPv6 address.
pub fn format_ipv6(a: &Ipv6Address) -> (r: String)
    requires
        a.wf(),
    ensures
        r@ == ipv6_text(*a),
{
    let ghost g = a.groups@;
    // Find the leftmost longest zero run by scanning from the right.
    let mut i: usize = 8;
    let mut run: usize = 0;
    let mut bs: usize = 8;
    let mut bl: usize = 0;
    while i > 0
        invariant
            0 <= i <= 8,
            g == a.groups@,
            g.len() == 8,
            run as int == run_len_at(g, i as int),
            (bs as int, bl as int) == best_run_from(g, i as int),
        decreases i,
    {
        i = i - 1;
        proof {
            lemma_run_len_at_bounds(g, i + 1);
            lemma_best_run_bounds(g, i + 1);
        }
        if a.groups[i] == 0 {
            run = run + 1;
        } else {
            run = 0;
        }
        proof {
            assert(run as int == run_len_at(g, i as int));
        }
        if run >= bl {
            bs = i;
            bl = run;
        }
    }
    proof {
        lemma_best_run_bounds(g, 0);
    }
    let mut s = String::new();
    if bl >= 2 {
        proof {
            reveal_strlit("::");
            assert(("::")@ =~= seq![':', ':']);
        }
        append_joined(&mut s, a, 0, bs);
        s.append("::");
        let ghost mid = s@;
        append_joined(&mut s, a, bs + bl, 8);
        proof {
            assert(s@ =~= joined(g, 0, bs as int) + seq![':', ':'] + joined(
                g,
                bs as int + bl as int,
                8,
            ));
        }
    } else {
        append_joined(&mut s, a, 0, 8);
        proof {
            assert(s@ =~= joined(g, 0, 8));
        }
    }
    s
}

/// Renders the canonical text of an address of either family.
pub open spec fn address_text(a: IpAddress) -> Seq<char> {
    match a {
        IpAddress::V4(v) => ipv4_text(v),
        IpAddress::V6(v) => ipv6_text(v),
    }
}

/// Renders the canonical text of an address of either family.
pub fn format_address(a: &IpAddress) -> (r: String)
    requires
        a.wf(),
    ensures
        r@ == address_text(*a),
{
    match a {
        IpAddress::V4(v) => format_ipv4(v),
        IpAddress::V6(v) => format_ipv6(v),
    }
}


/// The byte texts of the groups `g[lo..hi]`, one per group.
spec fn group_texts(g: Seq<u16>, lo: int, hi: int) -> Seq<Seq<u8>> {
    Seq::new((hi - lo) as nat, |i: int| ascii_bytes(hex_rep(g[lo + i] as nat)))
}

proof fn lemma_group_text_facts(n: u16)
    ensures
        is_hex_group(ascii_bytes(hex_rep(n as nat))),
        hex_tok_val(ascii_bytes(hex_rep(n as nat))) == n,
        forall|i: int|
            0 <= i < hex_rep(n as nat).len() ==> #[trigger] ascii_bytes(hex_rep(n as nat))[i]
                != 58,
{
    lemma_hex_rep_reads_back(n as nat);
    let b = ascii_bytes(hex_rep(n as nat));
    assert forall|i: int| 0 <= i < hex_rep(n as nat).len() implies #[trigger] b[i] != 58 by {
        assert(is_hex_digit(b[i]));
    }
}

proof fn lemma_joined_then(g: Seq<u16>, lo: int, hi: int, y: Seq<u8>)
    requires
        0 <= lo < hi <= g.len(),
    ensures
        split_toks(58, ascii_bytes(joined(g, lo, hi)) + seq![58u8] + y) =~~= group_texts(
            g,
            lo,
            hi,
        ) + split_toks(58, y),
    decreases hi - lo,
{
    let gb = ascii_bytes(hex_rep(g[lo] as nat));
    lemma_group_text_facts(g[lo]);
    if lo + 1 == hi {
        assert(joined(g, lo, hi) == hex_rep(g[lo] as nat));
        lemma_split_at_sep(58, gb, y);
        assert(group_texts(g, lo, hi) =~= seq![gb]);
        assert(seq![gb] + split_toks(58, y) =~~= group_texts(g, lo, hi) + split_toks(58, y));
    } else {
        let rest = ascii_bytes(joined(g, lo + 1, hi));
        assert(':' as u8 == 58);
        assert(ascii_bytes(joined(g, lo, hi)) =~= gb + seq![58u8] + rest);
        lemma_joined_then(g, lo + 1, hi, y);
        lemma_split_at_sep(58, gb, rest + seq![58u8] + y);
        assert((ascii_bytes(joined(g, lo, hi)) + seq![58u8] + y) =~= gb + seq![58u8] + (rest
            + seq![58u8] + y));
        assert(group_texts(g, lo, hi) =~= seq![gb] + group_texts(g, lo + 1, hi));
    }
}

proof fn lemma_joined_alone(g: Seq<u16>, lo: int, hi: int)
    requires
        0 <= lo < hi <= g.len(),
    ensures
        split_toks(58, ascii_bytes(joined(g, lo, hi))) =~~= group_texts(g, lo, hi),
    decreases hi - lo,
{
    let gb = ascii_bytes(hex_rep(g[lo] as nat));
    lemma_group_text_facts(g[lo]);
    if lo + 1 == hi {
        assert(joined(g, lo, hi) == hex_rep(g[lo] as nat));
        lemma_split_without_sep(58, gb);
        assert(group_texts(g, lo, hi) =~= seq![gb]);
    } else {
        let rest = ascii_bytes(joined(g, lo + 1, hi));
        assert(':' as u8 == 58);
        assert(ascii_bytes(joined(g, lo, hi)) =~= gb + seq![58u8] + rest);
        lemma_joined_alone(g, lo + 1, hi);
        lemma_split_at_sep(58, gb, rest);
        assert(group_texts(g, lo, hi) =~= seq![gb] + group_texts(g, lo + 1, hi));
    }
}

proof fn lemma_run_zeros(g: Seq<u16>, i: int)
    requires
        0 <= i <= g.len(),
    ensures
        forall|k: int| i <= k < i + run_len_at(g, i) ==> g[k] == 0,
    decreases g.len() - i,
{
    lemma_run_len_at_bounds(g, i);
    if i < g.len() && g[i] == 0 {
        lemma_run_zeros(g, i + 1);
        assert forall|k: int| i <= k < i + run_len_at(g, i) implies g[k] == 0 by {
            if k > i {
                assert(i + 1 <= k < i + 1 + run_len_at(g, i + 1));
            }
        }
    }
}

proof fn lemma_best_is_run(g: Seq<u16>, i: int)
    requires
        0 <= i <= g.len(),
    ensures
        best_run_from(g, i).1 == run_len_at(g, best_run_from(g, i).0),
        i <= best_run_from(g, i).0 <= g.len(),
    decreases g.len() - i,
{
    if i < g.len() {
        lemma_best_is_run(g, i + 1);
    }
}

proof fn lemma_first_empty_at(t: Seq<Seq<u8>>, p: int)
    requires
        0 <= p <= t.len(),
        forall|k: int| 0 <= k < p ==> #[trigger] t[k].len() > 0,
        p < t.len() ==> t[p].len() == 0,
    ensures
        first_empty(t) == p,
{
    lemma_first_empty(t);
    if first_empty(t) < p {
        assert(t[first_empty(t)].len() > 0);
    }
    if first_empty(t) > p {
        assert(t[p].len() > 0);
    }
}

/// Round trip: the canonical text of eight groups parses back to
/// exactly those groups.
#[verifier::rlimit(80)]
pub proof fn lemma_ipv6_round_trip(g: Seq<u16>)
    requires
        g.len() == 8,
    ensures
        parse_ipv6_spec(ascii_bytes(ipv6_text_of(g))) == Some(g),
{
    let best = best_run_from(g, 0);
    let bs = best.0;
    let bl = best.1;
    lemma_best_is_run(g, 0);
    lemma_best_run_bounds(g, 0);
    lemma_run_zeros(g, bs);
    assert forall|i: int| 0 <= i < 8 implies is_hex_group(
        #[trigger] group_texts(g, 0, 8)[i],
    ) by {
        lemma_group_text_facts(g[i]);
    }
    if bl < 2 {
        let s = ascii_bytes(joined(g, 0, 8));
        lemma_joined_alone(g, 0, 8);
        let t = split_toks(58, s);
        assert(t =~~= group_texts(g, 0, 8));
        assert forall|i: int| 0 <= i < 8 implies is_hex_group(#[trigger] t[i]) by {
            lemma_group_text_facts(g[i]);
            assert(t[i] == ascii_bytes(hex_rep(g[i] as nat)));
        }
        assert forall|k: int| 0 <= k < 8 implies #[trigger] t[k].len() > 0 by {
            lemma_group_text_facts(g[k]);
        }
        lemma_first_empty_at(t, 8);
        assert(all_hex_groups(t, 0, 7));
        assert forall|i: int| 0 <= i < 7 implies #[trigger] group_vals(t, 0, 7)[i] == g[i] by {
            lemma_group_text_facts(g[i]);
        }
        lemma_group_text_facts(g[7]);
        assert(t[7] == ascii_bytes(hex_rep(g[7] as nat)));
        assert(tail_token_groups(t[7]) == Some(seq![hex_tok_val(t[7]) as u16]));
        assert(hex_tok_val(t[7]) as u16 == g[7]);
        let eg = group_vals(t, 0, 7) + seq![hex_tok_val(t[7]) as u16];
        assert(end_segment_groups(t, 0, 8) == Some(eg));
        assert(eg =~= g);
    } else {
        let mid = seq![Seq::<u8>::empty()];
        if bs == 0 && bl == 8 {
            // "::" alone
            let s = ascii_bytes(ipv6_text_of(g));
            assert(joined(g, 0, 0) =~= Seq::<char>::empty());
            assert(joined(g, 8, 8) =~= Seq::<char>::empty());
            assert(s =~= seq![58u8, 58u8]);
            assert(seq![58u8, 58u8] =~= Seq::<u8>::empty() + seq![58u8] + seq![58u8]);
            lemma_split_at_sep(58, Seq::<u8>::empty(), seq![58u8]);
            assert(seq![58u8] =~= Seq::<u8>::empty() + seq![58u8] + Seq::<u8>::empty());
            lemma_split_at_sep(58, Seq::<u8>::empty(), Seq::<u8>::empty());
            lemma_split_without_sep(58, Seq::<u8>::empty());
            let t = split_toks(58, s);
            assert(t =~~= seq![Seq::<u8>::empty(), Seq::<u8>::empty(), Seq::<u8>::empty()]);
            lemma_first_empty_at(t, 0);
            assert(zero_groups(8) =~= g);
        } else if bs == 0 {
            // a text starting with "::"
            let rb = ascii_bytes(joined(g, bl, 8));
            let s = ascii_bytes(ipv6_text_of(g));
            assert(joined(g, 0, 0) =~= Seq::<char>::empty());
            assert(s =~= Seq::<u8>::empty() + seq![58u8] + (Seq::<u8>::empty() + seq![58u8]
                + rb));
            lemma_split_at_sep(58, Seq::<u8>::empty(), Seq::<u8>::empty() + seq![58u8] + rb);
            lemma_split_at_sep(58, Seq::<u8>::empty(), rb);
            lemma_joined_alone(g, bl, 8);
            let t = split_toks(58, s);
            assert(t =~~= mid + mid + group_texts(g, bl, 8));
            let n = t.len() as int;
            assert(n == 2 + (8 - bl));
            assert forall|k: int| 2 <= k < n implies #[trigger] t[k].len() > 0 by {
                lemma_group_text_facts(g[bl + (k - 2)]);
            }
            lemma_first_empty_at(t, 0);
            assert(all_nonempty(t, 2, n));
            assert forall|i: int| 2 <= i < n implies is_hex_group(#[trigger] t[i]) by {
                lemma_group_text_facts(g[bl + (i - 2)]);
            }
            assert forall|i: int|
                0 <= i < n - 3 implies #[trigger] group_vals(t, 2, n - 1)[i] == g[bl + i] by {
                lemma_group_text_facts(g[bl + i]);
            }
            lemma_group_text_facts(g[7]);
            assert(t[n - 1] == ascii_bytes(hex_rep(g[7] as nat)));
            assert(tail_token_groups(t[n - 1]) == Some(seq![hex_tok_val(t[n - 1]) as u16]));
            assert(hex_tok_val(t[n - 1]) as u16 == g[7]);
            assert(all_hex_groups(t, 2, n - 1));
            let eg = group_vals(t, 2, n - 1) + seq![hex_tok_val(t[n - 1]) as u16];
            assert(end_segment_groups(t, 2, n) == Some(eg));
            assert(eg.len() == n - 2);
            assert(zero_groups((8 - eg.len()) as nat) + eg =~= g);
        } else if bs + bl == 8 {
            // a text ending with "::"
            let s = ascii_bytes(ipv6_text_of(g));
            assert(joined(g, 8, 8) =~= Seq::<char>::empty());
            assert(s =~= ascii_bytes(joined(g, 0, bs)) + seq![58u8] + seq![58u8]);
            lemma_joined_then(g, 0, bs, seq![58u8]);
            assert(seq![58u8] =~= Seq::<u8>::empty() + seq![58u8] + Seq::<u8>::empty());
            lemma_split_at_sep(58, Seq::<u8>::empty(), Seq::<u8>::empty());
            lemma_split_without_sep(58, Seq::<u8>::empty());
            let t = split_toks(58, s);
            assert(t =~~= group_texts(g, 0, bs) + mid + mid);
            let n = t.len() as int;
            assert(n == bs + 2);
            assert forall|k: int| 0 <= k < bs implies #[trigger] t[k].len() > 0 by {
                lemma_group_text_facts(g[k]);
            }
            lemma_first_empty_at(t, bs);
            assert forall|i: int| 0 <= i < n - 2 implies is_hex_group(#[trigger] t[i]) by {
                lemma_group_text_facts(g[i]);
            }
            assert forall|i: int|
                0 <= i < n - 2 implies #[trigger] group_vals(t, 0, n - 2)[i] == g[i] by {
                lemma_group_text_facts(g[i]);
            }
            assert(group_vals(t, 0, n - 2) + zero_groups((8 - (n - 2)) as nat) =~= g);
        } else {
            // a "::" between groups
            let rb = ascii_bytes(joined(g, bs + bl, 8));
            let s = ascii_bytes(ipv6_text_of(g));
            assert(s =~= ascii_bytes(joined(g, 0, bs)) + seq![58u8] + (Seq::<u8>::empty()
                + seq![58u8] + rb));
            lemma_joined_then(g, 0, bs, Seq::<u8>::empty() + seq![58u8] + rb);
            lemma_split_at_sep(58, Seq::<u8>::empty(), rb);
            lemma_joined_alone(g, bs + bl, 8);
            let t = split_toks(58, s);
            assert(t =~~= group_texts(g, 0, bs) + mid + group_texts(g, bs + bl, 8));
            let n = t.len() as int;
            assert(n == bs + 1 + (8 - bs - bl));
            assert forall|k: int| 0 <= k < bs implies #[trigger] t[k].len() > 0 by {
                lemma_group_text_facts(g[k]);
            }
            lemma_first_empty_at(t, bs);
            assert forall|k: int| bs + 1 <= k < n implies #[trigger] t[k].len() > 0 by {
                lemma_group_text_facts(g[bs + bl + (k - (bs + 1))]);
            }
            assert(all_nonempty(t, bs + 1, n));
            assert forall|i: int| 0 <= i < bs implies is_hex_group(#[trigger] t[i]) by {
                lemma_group_text_facts(g[i]);
            }
            assert forall|i: int| bs + 1 <= i < n implies is_hex_group(#[trigger] t[i]) by {
                lemma_group_text_facts(g[bs + bl + (i - (bs + 1))]);
            }
            assert forall|i: int|
                0 <= i < bs implies #[trigger] group_vals(t, 0, bs)[i] == g[i] by {
                lemma_group_text_facts(g[i]);
            }
            assert forall|i: int|
                0 <= i < n - 2 - bs implies #[trigger] group_vals(t, bs + 1, n - 1)[i] == g[bs
                + bl + i] by {
                lemma_group_text_facts(g[bs + bl + i]);
            }
            lemma_group_text_facts(g[7]);
            assert(t[n - 1] == ascii_bytes(hex_rep(g[7] as nat)));
            assert(tail_token_groups(t[n - 1]) == Some(seq![hex_tok_val(t[n - 1]) as u16]));
            assert(hex_tok_val(t[n - 1]) as u16 == g[7]);
            assert(all_hex_groups(t, bs + 1, n - 1));
            let eg = group_vals(t, bs + 1, n - 1) + seq![hex_tok_val(t[n - 1]) as u16];
            assert(end_segment_groups(t, bs + 1, n) == Some(eg));
            assert(eg.len() == n - 1 - bs);
            assert(bs + eg.len() <= 7);
            assert(group_vals(t, 0, bs) + zero_groups((8 - (bs + eg.len())) as nat) + eg
                =~= g);
        }
    }
}

} // verus!
