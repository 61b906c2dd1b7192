//! Decimal ASCII rendering and parsing of integers.
//!
//! Reading values are fixed-point integers in hundredths of a unit, so every
//! number that reaches a file or the console goes through these routines.
//! Each renderer has a spec-level description, and parsing is proved to
//! invert rendering.

use vstd::prelude::*;
use vstd::slice::slice_subrange;

verus! {

/// The byte commonly written `-`.
pub const MINUS: u8 = 0x2D;

/// The byte commonly written `.`.
pub const DOT: u8 = 0x2E;

pub open spec fn is_digit(b: u8) -> bool {
    0x30 <= b <= 0x39
}

/// The ASCII digit byte for a value below ten.
pub open spec fn digit_byte(d: nat) -> u8 {
    (0x30 + d % 10) as u8
}

/// The numeric value of an ASCII digit byte.
pub open spec fn digit_val(b: u8) -> nat {
    (b as int - 0x30) as nat
}

/// Decimal digits of `n`, most significant first (`"0"` for zero).
pub open spec fn dec_digits(n: nat) -> Seq<u8>
    decreases n,
{
    if n < 10 {
        seq![digit_byte(n)]
    } else {
        dec_digits(n / 10).push(digit_byte(n % 10))
    }
}

/// `n` rendered as exactly two digits; meaningful for `n < 100`.
pub open spec fn pad2(n: nat) -> Seq<u8> {
    seq![digit_byte(n / 10), digit_byte(n)]
}

/// `n` rendered as exactly four digits; meaningful for `n < 10000`.
pub open spec fn pad4(n: nat) -> Seq<u8> {
    seq![digit_byte(n / 1000), digit_byte(n / 100), digit_byte(n / 10), digit_byte(n)]
}

pub open spec fn all_digits(s: Seq<u8>) -> bool {
    forall|i: int| 0 <= i < s.len() ==> is_digit(#[trigger] s[i])
}

/// The numeric value of a digit string, most significant first.
pub open spec fn dec_val(s: Seq<u8>) -> nat
    decreases s.len(),
{
    if s.len() == 0 {
        0
    } else {
        dec_val(s.drop_last()) * 10 + digit_val(s.last())
    }
}

/// A value in hundredths rendered with a sign, an integer part and exactly
/// two fractional digits, as `-3.07` for -307.
pub open spec fn centi_bytes(v: int) -> Seq<u8> {
    let a = abs_centi(v);
    (if v < 0 {
        seq![MINUS]
    } else {
        Seq::<u8>::empty()
    }) + dec_digits(a / 100) + seq![DOT] + pad2(a % 100)
}

pub open spec fn abs_centi(v: int) -> nat {
    if v < 0 {
        (-v) as nat
    } else {
        v as nat
    }
}

/// What a digit string (with at least one digit) may denote, within `u64`.
pub open spec fn parse_u64(s: Seq<u8>) -> Option<u64> {
    if s.len() >= 1 && all_digits(s) && dec_val(s) <= u64::MAX {
        Some(dec_val(s) as u64)
    } else {
        None
    }
}

/// What a rendered hundredths value denotes: an optional minus sign, one or
/// more integer digits, a dot, and exactly two fractional digits.
pub open spec fn parse_centi(s: Seq<u8>) -> Option<i64> {
    let neg = s.len() > 0 && s[0] == MINUS;
    let t = if neg {
        s.skip(1)
    } else {
        s
    };
    if t.len() >= 4 && t[t.len() - 3] == DOT && all_digits(t.take(t.len() - 3)) && all_digits(
        t.skip(t.len() - 2),
    ) {
        let a = dec_val(t.take(t.len() - 3)) * 100 + dec_val(t.skip(t.len() - 2));
        if neg && a <= 0x8000_0000_0000_0000 {
            Some((-(a as int)) as i64)
        } else if !neg && a <= i64::MAX {
            Some(a as i64)
        } else {
            None
        }
    } else {
        None
    }
}

/// Renders `n` in decimal ASCII.
pub fn u64_to_dec(n: u64) -> (r: Vec<u8>)
    ensures
        r@ == dec_digits(n as nat),
    decreases n,
{
    if n < 10 {
        let mut r: Vec<u8> = Vec::new();
        r.push(0x30 + n as u8);
        assert(r@ =~= dec_digits(n as nat));
        r
    } else {
        let mut r = u64_to_dec(n / 10);
        r.push(0x30 + (n % 10) as u8);
        r
    }
}

/// Appends `n` as exactly two digits.
pub fn push_pad2(out: &mut Vec<u8>, n: u8)
    requires
        n < 100,
    ensures
        final(out)@ == old(out)@ + pad2(n as nat),
{
    out.push(0x30 + n / 10);
    out.push(0x30 + n % 10);
    assert(out@ =~= old(out)@ + pad2(n as nat));
}

/// Appends `n` as exactly four digits.
pub fn push_pad4(out: &mut Vec<u8>, n: u16)
    requires
        n < 10000,
    ensures
        final(out)@ == old(out)@ + pad4(n as nat),
{
    out.push(0x30 + (n / 1000) as u8);
    out.push(0x30 + (n / 100 % 10) as u8);
    out.push(0x30 + (n / 10 % 10) as u8);
    out.push(0x30 + (n % 10) as u8);
    assert(out@ =~= old(out)@ + pad4(n as nat));
}

/// Renders a value in hundredths, as `-3.07` for -307.
pub fn centi_to_dec(v: i64) -> (r: Vec<u8>)
    ensures
        r@ == centi_bytes(v as int),
{
    let a: u64 = if v == i64::MIN {
        9223372036854775808u64
    } else if v < 0 {
        (-v) as u64
    } else {
        v as u64
    };
    let mut r: Vec<u8> = Vec::new();
    if v < 0 {
        r.push(MINUS);
    }
    let ip = u64_to_dec(a / 100);
    let mut i: usize = 0;
    while i < ip.len()
        invariant
            i <= ip.len(),
            r@ == (if v < 0 {
                seq![MINUS]
            } else {
                Seq::<u8>::empty()
            }) + ip@.take(i as int),
        decreases ip@.len() - i,
    {
        let b = ip[i];
        r.push(b);
        assert(ip@.take(i + 1) =~= ip@.take(i as int).push(b));
        i = i + 1;
    }
    assert(ip@.take(ip@.len() as int) =~= ip@);
    r.push(DOT);
    push_pad2(&mut r, (a % 100) as u8);
    assert(r@ =~= centi_bytes(v as int));
    r
}

/// Parses a digit string, exactly as `parse_u64` describes.
pub fn dec_to_u64(s: &[u8]) -> (r: Option<u64>)
    ensures
        r == parse_u64(s@),
{
    if s.len() == 0 {
        return None;
    }
    let mut acc: u64 = 0;
    let mut i: usize = 0;
    while i < s.len()
        invariant
            i <= s@.len(),
            all_digits(s@.take(i as int)),
            acc == dec_val(s@.take(i as int)),
            dec_val(s@.take(i as int)) <= u64::MAX,
        decreases s@.len() - i,
    {
        let b = s[i];
        if b < 0x30 || b > 0x39 {
            assert(!all_digits(s@));
            return None;
        }
        let d: u64 = (b - 0x30) as u64;
        let next: Option<u64> = match acc.checked_mul(10) {
            Some(x) => x.checked_add(d),
            None => None,
        };
        assert(s@.take(i + 1).drop_last() =~= s@.take(i as int));
        assert(s@.take(i + 1).last() == b);
        match next {
            Some(x) => {
                acc = x;
            },
            None => {
                proof {
                    lemma_dec_val_monotonic(s@, i + 1);
                }
                return None;
            },
        }
        i = i + 1;
    }
    assert(s@.take(s@.len() as int) =~= s@);
    Some(acc)
}

/// A digit string's value only grows as more digits follow: the value of a
/// prefix bounds the value of the whole.
pub proof fn lemma_dec_val_monotonic(s: Seq<u8>, i: int)
    requires
        0 <= i <= s.len(),
    ensures
        dec_val(s.take(i)) <= dec_val(s),
    decreases s.len() - i,
{
    if i < s.len() {
        assert(s.take(i + 1).drop_last() =~= s.take(i));
        assert(dec_val(s.take(i + 1)) == dec_val(s.take(i)) * 10 + digit_val(s.take(i + 1).last()));
        assert(dec_val(s.take(i)) <= dec_val(s.take(i)) * 10) by (nonlinear_arith);
        lemma_dec_val_monotonic(s, i + 1);
        assert(s.take(s.len() as int) =~= s);
    } else {
        assert(s.take(i) =~= s);
    }
}

/// Parsing a rendered digit string gives the number back.
pub proof fn lemma_dec_digits_round_trip(n: nat)
    ensures
        all_digits(dec_digits(n)),
        dec_digits(n).len() >= 1,
        dec_val(dec_digits(n)) == n,
    decreases n,
{
    if n < 10 {
        assert(dec_digits(n) =~= seq![digit_byte(n)]);
        assert(dec_val(seq![digit_byte(n)].drop_last()) == 0);
    } else {
        lemma_dec_digits_round_trip(n / 10);
        let whole = dec_digits(n);
        assert(whole.drop_last() =~= dec_digits(n / 10));
        assert(whole.last() == digit_byte(n % 10));
        assert(dec_val(whole) == (n / 10) * 10 + n % 10);
        assert((n / 10) * 10 + n % 10 == n) by (nonlinear_arith);
    }
}

/// Parsing a rendered two-digit group gives the number back.
pub proof fn lemma_pad2_round_trip(n: nat)
    requires
        n < 100,
    ensures
        all_digits(pad2(n)),
        pad2(n).len() == 2,
        dec_val(pad2(n)) == n,
{
    let s = pad2(n);
    assert(s.drop_last() =~= seq![digit_byte(n / 10)]);
    assert(seq![digit_byte(n / 10)].drop_last() =~= Seq::<u8>::empty());
    assert(dec_val(Seq::<u8>::empty()) == 0);
    assert(dec_val(seq![digit_byte(n / 10)]) == digit_val(digit_byte(n / 10)));
    assert(dec_val(s) == (n / 10 % 10) * 10 + n % 10);
    assert((n / 10) * 10 + n % 10 == n) by (nonlinear_arith);
}

/// Parsing a rendered hundredths value gives the value back.
pub proof fn lemma_centi_round_trip(v: i64)
    ensures
        parse_centi(centi_bytes(v as int)) == Some(v),
{
    let a = abs_centi(v as int);
    let s = centi_bytes(v as int);
    lemma_dec_digits_round_trip(a / 100);
    lemma_pad2_round_trip(a % 100);
    let ip = dec_digits(a / 100);
    let fp = pad2(a % 100);
    let t = ip + seq![DOT] + fp;
    if v < 0 {
        assert(s =~= seq![MINUS] + t);
        assert(s[0] == MINUS);
        assert(s.skip(1) =~= t);
    } else {
        assert(s =~= t);
        assert(s.len() > 0 ==> s[0] != MINUS);
    }
    assert(t.len() == ip.len() + 3);
    assert(t[t.len() - 3] == DOT);
    assert(t.take(t.len() - 3) =~= ip);
    assert(t.skip(t.len() - 2) =~= fp);
    assert(dec_val(ip) * 100 + dec_val(fp) == (a / 100) * 100 + a % 100);
    assert((a / 100) * 100 + a % 100 == a) by (nonlinear_arith);
    if v < 0 {
        assert(a <= 0x8000_0000_0000_0000);
        assert((-(a as int)) as i64 == v);
    } else {
        assert(a <= i64::MAX);
    }
}

/// Parses a rendered hundredths value, exactly as `parse_centi` describes.
pub fn dec_to_centi(s: &[u8]) -> (r: Option<i64>)
    ensures
        r == parse_centi(s@),
{
    let neg = s.len() > 0 && s[0] == MINUS;
    let t: &[u8] = if neg {
        slice_skip_one(s)
    } else {
        s
    };
    if t.len() < 4 {
        return None;
    }
    if t[t.len() - 3] != DOT {
        return None;
    }
    let ip = slice_take(t, t.len() - 3);
    let fp = slice_skip(t, t.len() - 2);
    let iv = match dec_to_u64(ip) {
        Some(x) => x,
        None => {
            return None;
        },
    };
    let fv = match dec_to_u64(fp) {
        Some(x) => x,
        None => {
            return None;
        },
    };
    proof {
        lemma_dec_val_bound(fp@);
    }
    let scaled: u64 = match iv.checked_mul(100) {
        Some(x) => x,
        None => {
            return None;
        },
    };
    let a: u64 = match scaled.checked_add(fv) {
        Some(x) => x,
        None => {
            return None;
        },
    };
    if neg {
        if a > 0x8000_0000_0000_0000 {
            return None;
        }
        if a == 0x8000_0000_0000_0000 {
            return Some(i64::MIN);
        }
        return Some(-(a as i64));
    }
    if a > i64::MAX as u64 {
        return None;
    }
    Some(a as i64)
}

/// A digit string of length `l` denotes less than `10^l`; stated for the
/// two-digit groups that follow the dot.
proof fn lemma_dec_val_bound(s: Seq<u8>)
    requires
        all_digits(s),
        s.len() <= 2,
    ensures
        dec_val(s) < 100,
    decreases s.len(),
{
    if s.len() > 0 {
        let p = s.drop_last();
        assert(is_digit(s[s.len() - 1]));
        if s.len() == 1 {
            assert(dec_val(p) == 0);
        } else {
            assert(is_digit(s[0]));
            assert(p.drop_last().len() == 0);
            assert(dec_val(p.drop_last()) == 0);
            assert(p.last() == s[0]);
            assert(dec_val(p) == digit_val(s[0]));
        }
        assert(dec_val(p) * 10 <= 90) by (nonlinear_arith)
            requires
                dec_val(p) <= 9,
        ;
    }
}


/// A rendered hundredths value consists of digits, at most one minus sign
/// and one dot: in particular it holds no delimiter of the record formats.
pub proof fn lemma_centi_bytes_plain(v: int)
    ensures
        forall|i: int|
            0 <= i < centi_bytes(v).len() ==> {
                let b = #[trigger] centi_bytes(v)[i];
                is_digit(b) || b == MINUS || b == DOT
            },
{
    let a = abs_centi(v);
    lemma_dec_digits_round_trip(a / 100);
    let s = centi_bytes(v);
    let sign: Seq<u8> = if v < 0 {
        seq![MINUS]
    } else {
        Seq::<u8>::empty()
    };
    assert forall|i: int| 0 <= i < s.len() implies {
        let b = #[trigger] s[i];
        is_digit(b) || b == MINUS || b == DOT
    } by {
        let ip = dec_digits(a / 100);
        assert(s == sign + ip + seq![DOT] + pad2(a % 100));
        if i < sign.len() {
            assert(s[i] == MINUS);
        } else if i < sign.len() + ip.len() {
            assert(s[i] == ip[i - sign.len()]);
            assert(is_digit(ip[i - sign.len()]));
        } else if i == sign.len() + ip.len() {
            assert(s[i] == DOT);
        } else {
            assert(s[i] == pad2(a % 100)[i - sign.len() - ip.len() - 1]);
        }
    }
}

/// The slice without its first element.
pub fn slice_skip_one(s: &[u8]) -> (r: &[u8])
    requires
        s@.len() >= 1,
    ensures
        r@ == s@.skip(1),
{
    slice_skip(s, 1)
}

/// The first `n` elements of the slice.
pub fn slice_take(s: &[u8], n: usize) -> (r: &[u8])
    requires
        n <= s@.len(),
    ensures
        r@ == s@.take(n as int),
{
    let r = slice_subrange(s, 0, n);
    assert(r@ =~= s@.take(n as int));
    r
}

/// The slice from position `n` on.
pub fn slice_skip(s: &[u8], n: usize) -> (r: &[u8])
    requires
        n <= s@.len(),
    ensures
        r@ == s@.skip(n as int),
{
    let r = slice_subrange(s, n, s.len());
    assert(r@ =~= s@.skip(n as int));
    r
}

} // verus!
