//! Byte-level text utilities: decimal and hexadecimal renderings of
//! integers, digit classification, and splitting a byte string at a
//! separator byte.

use vstd::prelude::*;
use vstd::string::*;

verus! {

// ---------------------------------------------------------------------
// Digit characters and integer renderings
// ---------------------------------------------------------------------

/// The character for one digit value below sixteen, lower case.
pub open spec fn digit_char(d: nat) -> char {
    if d == 0 {
        '0'
    } else if d == 1 {
        '1'
    } else if d == 2 {
        '2'
    } else if d == 3 {
        '3'
    } else if d == 4 {
        '4'
    } else if d == 5 {
        '5'
    } else if d == 6 {
        '6'
    } else if d == 7 {
        '7'
    } else if d == 8 {
        '8'
    } else if d == 9 {
        '9'
    } else if d == 10 {
        'a'
    } else if d == 11 {
        'b'
    } else if d == 12 {
        'c'
    } else if d == 13 {
        'd'
    } else if d == 14 {
        'e'
    } else {
        'f'
    }
}

/// The decimal rendering of `n`, without leading zeros.
pub open spec fn dec_rep(n: nat) -> Seq<char>
    decreases n,
{
    if n < 10 {
        seq![digit_char(n)]
    } else {
        dec_rep(n / 10).push(digit_char(n % 10))
    }
}

/// The lower-case hexadecimal rendering of `n`, without leading zeros.
pub open spec fn hex_rep(n: nat) -> Seq<char>
    decreases n,
{
    if n < 16 {
        seq![digit_char(n)]
    } else {
        hex_rep(n / 16).push(digit_char(n % 16))
    }
}

fn digit_str(d: u8) -> (r: &'static str)
    requires
        d < 16,
    ensures
        r@ == seq![digit_char(d as nat)],
{
    proof {
        reveal_strlit("0");
        reveal_strlit("1");
        reveal_strlit("2");
        reveal_strlit("3");
        reveal_strlit("4");
        reveal_strlit("5");
        reveal_strlit("6");
        reveal_strlit("7");
        reveal_strlit("8");
        reveal_strlit("9");
        reveal_strlit("a");
        reveal_strlit("b");
        reveal_strlit("c");
        reveal_strlit("d");
        reveal_strlit("e");
        reveal_strlit("f");
    }
    match d {
        0 => "0",
        1 => "1",
        2 => "2",
        3 => "3",
        4 => "4",
        5 => "5",
        6 => "6",
        7 => "7",
        8 => "8",
        9 => "9",
        10 => "a",
        11 => "b",
        12 => "c",
        13 => "d",
        14 => "e",
        _ => "f",
    }
}

/// Renders `n` in decimal, without leading zeros.
pub fn dec_string(n: u32) -> (r: String)
    ensures
        r@ == dec_rep(n as nat),
    decreases n,
{
    if n < 10 {
        String::from_str(digit_str(n as u8))
    } else {
        let mut s = dec_string(n / 10);
        s.append(digit_str((n % 10) as u8));
        proof {
            assert(dec_rep(n as nat) =~= dec_rep((n / 10) as nat) + seq![
                digit_char((n % 10) as nat),
            ]);
        }
        s
    }
}

/// Renders `n` in lower-case hexadecimal, without leading zeros.
pub fn hex_string(n: u16) -> (r: String)
    ensures
        r@ == hex_rep(n as nat),
    decreases n,
{
    if n < 16 {
        String::from_str(digit_str(n as u8))
    } else {
        let mut s = hex_string(n / 16);
        s.append(digit_str((n % 16) as u8));
        proof {
            assert(hex_rep(n as nat) =~= hex_rep((n / 16) as nat) + seq![
                digit_char((n % 16) as nat),
            ]);
        }
        s
    }
}

// ---------------------------------------------------------------------
// Digit bytes and token values
// ---------------------------------------------------------------------

/// Whether `b` is an ASCII decimal digit.
pub open spec fn is_dec_digit(b: u8) -> bool {
    48 <= b <= 57
}

/// Whether `b` is an ASCII hexadecimal digit, either case.
pub open spec fn is_hex_digit(b: u8) -> bool {
    is_dec_digit(b) || 97 <= b <= 102 || 65 <= b <= 70
}

/// The value of a hexadecimal digit byte; decimal digits are a subset.
pub open spec fn hex_digit_val(b: u8) -> nat {
    if is_dec_digit(b) {
        (b - 48) as nat
    } else if 97 <= b <= 102 {
        (b - 87) as nat
    } else {
        (b - 55) as nat
    }
}

/// The value of a byte string read as a decimal numeral.
pub open spec fn dec_tok_val(t: Seq<u8>) -> nat
    decreases t.len(),
{
    if t.len() == 0 {
        0
    } else {
        dec_tok_val(t.drop_last()) * 10 + hex_digit_val(t.last())
    }
}

/// The value of a byte string read as a hexadecimal numeral.
pub open spec fn hex_tok_val(t: Seq<u8>) -> nat
    decreases t.len(),
{
    if t.len() == 0 {
        0
    } else {
        hex_tok_val(t.drop_last()) * 16 + hex_digit_val(t.last())
    }
}

// ---------------------------------------------------------------------
// Splitting a byte string at a separator
// ---------------------------------------------------------------------

/// The index of the first occurrence of `sep` in `s`, or `s.len()`.
pub open spec fn upto(sep: u8, s: Seq<u8>) -> int
    decreases s.len(),
{
    if s.len() == 0 {
        0
    } else if s[0] == sep {
        0
    } else {
        1 + upto(sep, s.drop_first())
    }
}

proof fn lemma_upto(sep: u8, s: Seq<u8>)
    ensures
        0 <= upto(sep, s) <= s.len(),
        forall|k: int| 0 <= k < upto(sep, s) ==> s[k] != sep,
        upto(sep, s) < s.len() ==> s[upto(sep, s)] == sep,
    decreases s.len(),
{
    if s.len() > 0 && s[0] != sep {
        lemma_upto(sep, s.drop_first());
        assert forall|k: int| 0 <= k < upto(sep, s) implies s[k] != sep by {
            if k > 0 {
                assert(s.drop_first()[k - 1] != sep);
            }
        }
    }
}

/// The tokens of `s` between occurrences of `sep`: `n` separators yield
/// `n + 1` tokens, empty ones included.
pub open spec fn split_toks(sep: u8, s: Seq<u8>) -> Seq<Seq<u8>>
    decreases s.len() via split_toks_decreases
{
    let e = upto(sep, s);
    if e == s.len() {
        seq![s]
    } else {
        seq![s.subrange(0, e)] + split_toks(sep, s.subrange(e + 1, s.len() as int))
    }
}

#[via_fn]
proof fn split_toks_decreases(sep: u8, s: Seq<u8>) {
    lemma_upto(sep, s);
}

pub proof fn lemma_split_toks_len(sep: u8, s: Seq<u8>)
    ensures
        split_toks(sep, s).len() >= 1,
{
    lemma_upto(sep, s);
}

/// Prepends `p` to the first token of a non-empty token sequence.
spec fn graft(p: Seq<u8>, ts: Seq<Seq<u8>>) -> Seq<Seq<u8>>
    recommends
        ts.len() >= 1,
{
    seq![p + ts[0]] + ts.drop_first()
}

proof fn lemma_split_step(sep: u8, s: Seq<u8>)
    requires
        s.len() > 0,
        s[0] != sep,
    ensures
        split_toks(sep, s) =~~= graft(seq![s[0]], split_toks(sep, s.drop_first())),
{
    let d = s.drop_first();
    lemma_upto(sep, s);
    lemma_upto(sep, d);
    lemma_split_toks_len(sep, d);
    let e = upto(sep, s);
    assert(e == 1 + upto(sep, d));
    if e == s.len() {
        assert(split_toks(sep, s) == seq![s]);
        assert(upto(sep, d) == d.len());
        assert(split_toks(sep, d) == seq![d]);
        assert(seq![s[0]] + d =~= s);
        assert(graft(seq![s[0]], seq![d]) =~~= seq![s]);
    } else {
        let e2 = upto(sep, d);
        assert(s.subrange(e + 1, s.len() as int) =~= d.subrange(e2 + 1, d.len() as int));
        assert(seq![s[0]] + d.subrange(0, e2) =~= s.subrange(0, e));
    }
}

proof fn lemma_split_sep(sep: u8, s: Seq<u8>)
    requires
        s.len() > 0,
        s[0] == sep,
    ensures
        split_toks(sep, s) =~~= seq![Seq::<u8>::empty()] + split_toks(sep, s.drop_first()),
{
    assert(upto(sep, s) == 0);
    assert(s.subrange(0, 0) =~= Seq::<u8>::empty());
    assert(s.subrange(1, s.len() as int) =~= s.drop_first());
}

/// Splits `s` at every occurrence of `sep`.
pub fn split_bytes(sep: u8, s: &[u8]) -> (r: Vec<Vec<u8>>)
    ensures
        r@.len() == split_toks(sep, s@).len(),
        forall|i: int| 0 <= i < r@.len() ==> r@[i]@ == split_toks(sep, s@)[i],
{
    let ghost whole = split_toks(sep, s@);
    let mut toks: Vec<Vec<u8>> = Vec::new();
    let mut cur: Vec<u8> = Vec::new();
    let mut i: usize = 0;
    proof {
        lemma_split_toks_len(sep, s@);
        assert(s@.subrange(0, s@.len() as int) =~= s@);
    }
    while i < s.len()
        invariant
            0 <= i <= s@.len(),
            split_toks(sep, s@.subrange(i as int, s@.len() as int)).len() >= 1,
            whole =~~= toks@.map_values(|t: Vec<u8>| t@) + graft(
                cur@,
                split_toks(sep, s@.subrange(i as int, s@.len() as int)),
            ),
        decreases s@.len() - i,
    {
        let ghost rest = s@.subrange(i as int, s@.len() as int);
        let ghost rest2 = s@.subrange(i + 1, s@.len() as int);
        proof {
            assert(rest.drop_first() =~= rest2);
            lemma_split_toks_len(sep, rest2);
        }
        let b = s[i];
        if b == sep {
            proof {
                lemma_split_sep(sep, rest);
                assert(graft(cur@, split_toks(sep, rest))[0] =~= cur@);
                assert(graft(cur@, split_toks(sep, rest)) =~~= seq![cur@] + graft(
                    Seq::<u8>::empty(),
                    split_toks(sep, rest2),
                ));
            }
            let done = cur;
            cur = Vec::new();
            toks.push(done);
            proof {
                assert(toks@.map_values(|t: Vec<u8>| t@) =~= toks@.drop_last().map_values(
                    |t: Vec<u8>| t@,
                ) + seq![done@]);
            }
        } else {
            proof {
                lemma_split_step(sep, rest);
                assert(graft(cur@, split_toks(sep, rest)) =~~= graft(
                    cur@ + seq![rest[0]],
                    split_toks(sep, rest2),
                ));
            }
            cur.push(b);
        }
        i = i + 1;
    }
    proof {
        let empty = s@.subrange(s@.len() as int, s@.len() as int);
        assert(empty =~= Seq::<u8>::empty());
        assert(upto(sep, empty) == 0);
        assert(split_toks(sep, empty) =~~= seq![Seq::<u8>::empty()]);
        assert(graft(cur@, split_toks(sep, empty)) =~~= seq![cur@]);
    }
    toks.push(cur);
    proof {
        assert(toks@.map_values(|t: Vec<u8>| t@) =~= toks@.drop_last().map_values(
            |t: Vec<u8>| t@,
        ) + seq![cur@]);
        assert forall|j: int| 0 <= j < toks@.len() implies toks@[j]@ == whole[j] by {
            assert(toks@.map_values(|t: Vec<u8>| t@)[j] == toks@[j]@);
        }
    }
    toks
}


/// The bytes of an ASCII text.
pub open spec fn ascii_bytes(s: Seq<char>) -> Seq<u8> {
    s.map_values(|c: char| c as u8)
}

/// A decimal rendering is made of decimal digit bytes, has no leading
/// zero except for zero itself, is as short as its value allows, and
/// reads back as its value.
pub proof fn lemma_dec_rep_reads_back(n: nat)
    ensures
        1 <= dec_rep(n).len(),
        forall|i: int|
            0 <= i < dec_rep(n).len() ==> is_dec_digit(#[trigger] ascii_bytes(dec_rep(n))[i]),
        ascii_bytes(dec_rep(n))[0] == 48 ==> n == 0,
        n < 10 ==> dec_rep(n).len() == 1,
        n < 100 ==> dec_rep(n).len() <= 2,
        n < 1000 ==> dec_rep(n).len() <= 3,
        dec_tok_val(ascii_bytes(dec_rep(n))) == n,
    decreases n,
{
    if n < 10 {
        let b = ascii_bytes(dec_rep(n));
        assert(b =~= seq![digit_char(n) as u8]);
        assert(digit_char(n) as u8 == 48 + n);
        assert(b.drop_last() =~= Seq::<u8>::empty());
        assert(dec_tok_val(b.drop_last()) == 0);
        assert(hex_digit_val(b.last()) == n);
        assert(dec_tok_val(b) == dec_tok_val(b.drop_last()) * 10 + hex_digit_val(b.last()));
    } else {
        lemma_dec_rep_reads_back(n / 10);
        let head = dec_rep(n / 10);
        let d = digit_char(n % 10);
        assert(d as u8 == 48 + n % 10);
        assert(dec_rep(n) == head.push(d));
        assert(ascii_bytes(dec_rep(n)) =~= ascii_bytes(head).push(d as u8));
        assert(ascii_bytes(dec_rep(n)).drop_last() =~= ascii_bytes(head));
        assert(dec_tok_val(ascii_bytes(dec_rep(n))) == dec_tok_val(ascii_bytes(head)) * 10
            + hex_digit_val(d as u8));
        assert(n == (n / 10) * 10 + n % 10);
        assert(ascii_bytes(dec_rep(n))[0] == ascii_bytes(head)[0]);
        assert forall|i: int|
            0 <= i < dec_rep(n).len() implies is_dec_digit(
            #[trigger] ascii_bytes(dec_rep(n))[i],
        ) by {
            if i < head.len() {
                assert(is_dec_digit(ascii_bytes(head)[i]));
            }
        }
    }
}

/// Splitting a byte string that holds no separator yields it whole.
pub proof fn lemma_split_without_sep(sep: u8, s: Seq<u8>)
    requires
        forall|i: int| 0 <= i < s.len() ==> s[i] != sep,
    ensures
        split_toks(sep, s) =~~= seq![s],
    decreases s.len(),
{
    lemma_upto(sep, s);
    if upto(sep, s) < s.len() {
        assert(s[upto(sep, s)] == sep);
    }
}

/// Splitting `x + [sep] + y` when `x` holds no separator peels `x` off
/// as the first token.
pub proof fn lemma_split_at_sep(sep: u8, x: Seq<u8>, y: Seq<u8>)
    requires
        forall|i: int| 0 <= i < x.len() ==> x[i] != sep,
    ensures
        split_toks(sep, x + seq![sep] + y) =~~= seq![x] + split_toks(sep, y),
{
    let s = x + seq![sep] + y;
    let e = upto(sep, s);
    lemma_upto(sep, s);
    assert(s[x.len() as int] == sep);
    if e < x.len() {
        assert(s[e] == x[e]);
        assert(false);
    }
    if e > x.len() {
        assert(s[x.len() as int] != sep);
        assert(false);
    }
    assert(e == x.len());
    assert(e < s.len());
    assert(s.subrange(0, e) =~= x);
    assert(s.subrange(e + 1, s.len() as int) =~= y);
}


/// A hexadecimal rendering is made of hexadecimal digit bytes, is as
/// short as its value allows, and reads back as its value.
pub proof fn lemma_hex_rep_reads_back(n: nat)
    ensures
        1 <= hex_rep(n).len(),
        forall|i: int|
            0 <= i < hex_rep(n).len() ==> is_hex_digit(#[trigger] ascii_bytes(hex_rep(n))[i]),
        n < 0x10 ==> hex_rep(n).len() == 1,
        n < 0x100 ==> hex_rep(n).len() <= 2,
        n < 0x1000 ==> hex_rep(n).len() <= 3,
        n < 0x10000 ==> hex_rep(n).len() <= 4,
        hex_tok_val(ascii_bytes(hex_rep(n))) == n,
    decreases n,
{
    if n < 16 {
        let b = ascii_bytes(hex_rep(n));
        assert(b =~= seq![digit_char(n) as u8]);
        assert(digit_char(n) as u8 == if n < 10 {
            48 + n
        } else {
            87 + n
        });
        assert(b.drop_last() =~= Seq::<u8>::empty());
        assert(hex_tok_val(b.drop_last()) == 0);
        assert(hex_digit_val(b.last()) == n);
        assert(hex_tok_val(b) == hex_tok_val(b.drop_last()) * 16 + hex_digit_val(b.last()));
    } else {
        lemma_hex_rep_reads_back(n / 16);
        let head = hex_rep(n / 16);
        let d = digit_char(n % 16);
        assert(d as u8 == if n % 16 < 10 {
            48 + n % 16
        } else {
            87 + n % 16
        });
        assert(hex_rep(n) == head.push(d));
        assert(ascii_bytes(hex_rep(n)) =~= ascii_bytes(head).push(d as u8));
        assert(ascii_bytes(hex_rep(n)).drop_last() =~= ascii_bytes(head));
        assert(hex_tok_val(ascii_bytes(hex_rep(n))) == hex_tok_val(ascii_bytes(head)) * 16
            + hex_digit_val(d as u8));
        assert(n == (n / 16) * 16 + n % 16);
        assert forall|i: int|
            0 <= i < hex_rep(n).len() implies is_hex_digit(
            #[trigger] ascii_bytes(hex_rep(n))[i],
        ) by {
            if i < head.len() {
                assert(is_hex_digit(ascii_bytes(head)[i]));
            }
        }
    }
}

} // verus!
