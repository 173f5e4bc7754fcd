//! Fixed-point decimal amounts: parsing and formatting of values held as
//! integer counts of 1/10000 of the currency unit.
//!
//! Parsing truncates toward zero to four fractional digits — fractional
//! digits beyond the fourth are read but discarded, never rounded up.
//! Formatting writes the exact value back, with trailing fractional zeros
//! stripped and no decimal point for whole values.

use vstd::prelude::*;

verus! {

/// An ASCII decimal digit.
pub open spec fn is_digit(b: u8) -> bool {
    48 <= b <= 57
}

/// The value of one ASCII digit.
pub open spec fn digit_val(b: u8) -> int {
    b - 48
}

/// Every byte of the string is an ASCII digit.
pub open spec fn all_digits(s: Seq<u8>) -> bool {
    forall|i: int| 0 <= i < s.len() ==> is_digit(#[trigger] s[i])
}

/// The number written by a string of digits, most significant first.
pub open spec fn digits_value(s: Seq<u8>) -> int
    decreases s.len(),
{
    if s.len() == 0 {
        0
    } else {
        digits_value(s.drop_last()) * 10 + digit_val(s.last())
    }
}

proof fn lemma_digits_value_nonneg(s: Seq<u8>)
    requires
        all_digits(s),
    ensures
        digits_value(s) >= 0,
    decreases s.len(),
{
    if s.len() > 0 {
        assert forall|i: int| 0 <= i < s.drop_last().len() implies is_digit(
            #[trigger] s.drop_last()[i],
        ) by {
            assert(s.drop_last()[i] == s[i]);
        }
        lemma_digits_value_nonneg(s.drop_last());
    }
}

/// A digit string is worth at least any of its prefixes.
proof fn lemma_digits_value_prefix_le(s: Seq<u8>, k: int)
    requires
        all_digits(s),
        0 <= k <= s.len(),
    ensures
        digits_value(s.take(k)) <= digits_value(s),
    decreases s.len() - k,
{
    if k == s.len() {
        assert(s.take(k) =~= s);
    } else {
        assert(s.take(k + 1).drop_last() =~= s.take(k));
        assert(s.take(k + 1).last() == s[k]);
        assert forall|i: int| 0 <= i < s.take(k).len() implies is_digit(
            #[trigger] s.take(k)[i],
        ) by {
            assert(s.take(k)[i] == s[i]);
        }
        lemma_digits_value_nonneg(s.take(k));
        lemma_digits_value_prefix_le(s, k + 1);
    }
}

/// Parses an unsigned decimal field: one or more digits, nothing else,
/// value at most `max`.
pub open spec fn spec_parse_uint(s: Seq<u8>, max: int) -> Option<u64> {
    if s.len() > 0 && all_digits(s) && digits_value(s) <= max {
        Some(digits_value(s) as u64)
    } else {
        None
    }
}

/// Reads an unsigned decimal field, rejecting empty strings, non-digits and
/// values above `max`.
pub fn parse_uint(s: &Vec<u8>, max: u64) -> (r: Option<u64>)
    requires
        max <= 0xffff_ffff,
    ensures
        r == spec_parse_uint(s@, max as int),
{
    if s.len() == 0 {
        return None;
    }
    let mut acc: u64 = 0;
    let mut k: usize = 0;
    while k < s.len()
        invariant
            k <= s@.len(),
            max <= 0xffff_ffff,
            forall|i: int| 0 <= i < k ==> is_digit(#[trigger] s@[i]),
            acc == digits_value(s@.take(k as int)),
            acc <= max,
        decreases s@.len() - k,
    {
        let b = s[k];
        if b < 48 || b > 57 {
            proof {
                assert(!is_digit(s@[k as int]));
            }
            return None;
        }
        proof {
            assert(s@.take(k + 1).drop_last() =~= s@.take(k as int));
            assert(s@.take(k + 1).last() == s@[k as int]);
        }
        acc = acc * 10 + ((b - 48) as u64);
        k = k + 1;
        if acc > max {
            proof {
                if all_digits(s@) {
                    lemma_digits_value_prefix_le(s@, k as int);
                }
            }
            return None;
        }
    }
    proof {
        assert(s@.take(s@.len() as int) =~= s@);
    }
    Some(acc)
}

/// The index of the first decimal point, or the length if there is none.
pub open spec fn find_dot(s: Seq<u8>) -> int
    decreases s.len(),
{
    if s.len() == 0 {
        0
    } else if s[0] == 46 {
        0
    } else {
        1 + find_dot(s.drop_first())
    }
}

proof fn lemma_find_dot(s: Seq<u8>)
    ensures
        0 <= find_dot(s) <= s.len(),
        forall|j: int| 0 <= j < find_dot(s) ==> s[j] != 46,
        find_dot(s) < s.len() ==> s[find_dot(s)] == 46,
    decreases s.len(),
{
    if s.len() > 0 && s[0] != 46 {
        lemma_find_dot(s.drop_first());
        assert forall|j: int| 0 <= j < find_dot(s) implies s[j] != 46 by {
            if j > 0 {
                assert(s.drop_first()[j - 1] == s[j]);
            }
        }
        if find_dot(s) < s.len() {
            assert(s.drop_first()[find_dot(s) - 1] == s[find_dot(s)]);
        }
    }
}

/// The contribution of the fractional digit string to the value in units of
/// 1/10000: the first four digits, right-padded with zeros; digits beyond
/// the fourth are truncated away.
pub open spec fn frac_units(f: Seq<u8>) -> int {
    if f.len() >= 4 {
        digits_value(f.take(4))
    } else if f.len() == 3 {
        digits_value(f) * 10
    } else if f.len() == 2 {
        digits_value(f) * 100
    } else if f.len() == 1 {
        digits_value(f) * 1000
    } else {
        0
    }
}

proof fn lemma_frac_units_nonneg(f: Seq<u8>)
    requires
        all_digits(f),
    ensures
        frac_units(f) >= 0,
{
    if f.len() >= 4 {
        assert forall|i: int| 0 <= i < f.take(4).len() implies is_digit(
            #[trigger] f.take(4)[i],
        ) by {
            assert(f.take(4)[i] == f[i]);
        }
        lemma_digits_value_nonneg(f.take(4));
    } else {
        lemma_digits_value_nonneg(f);
    }
}

/// The amount field grammar. An empty field is an absent amount. Otherwise
/// the field is an optional minus sign, one or more integer digits, and
/// optionally a decimal point followed by one or more fractional digits.
/// The value is truncated toward zero to four fractional digits; a value
/// whose magnitude does not fit the fixed-point range is rejected.
pub open spec fn spec_parse_amount(s: Seq<u8>) -> Option<Option<i64>> {
    if s.len() == 0 {
        Some(None)
    } else {
        let neg = s[0] == 45;
        let u = if neg {
            s.drop_first()
        } else {
            s
        };
        let p = find_dot(u);
        let ip = u.take(p);
        let f = if p < u.len() {
            u.subrange(p + 1, u.len() as int)
        } else {
            Seq::<u8>::empty()
        };
        if ip.len() > 0 && all_digits(ip) && (p == u.len() || (f.len() > 0 && all_digits(f))) {
            let mag = digits_value(ip) * 10000 + frac_units(f);
            if mag <= i64::MAX as int {
                Some(Some((if neg { -mag } else { mag }) as i64))
            } else {
                None
            }
        } else {
            None
        }
    }
}

/// Reads an amount field: `None` for an absent amount, the value in units
/// of 1/10000 otherwise, truncated toward zero to four fractional digits.
/// Fails on anything the grammar rejects, and on a magnitude out of range.
#[verifier::loop_isolation(false)]
#[verifier::rlimit(60)]
pub fn parse_amount(s: &Vec<u8>) -> (r: Option<Option<i64>>)
    ensures
        r == spec_parse_amount(s@),
{
    if s.len() == 0 {
        return Some(None);
    }
    let neg = s[0] == 45;
    let start: usize = if neg {
        1
    } else {
        0
    };
    let ghost u = if neg {
        s@.drop_first()
    } else {
        s@
    };
    proof {
        assert forall|j: int| 0 <= j < u.len() implies u[j] == s@[start + j] by {}
        lemma_find_dot(u);
    }
    // find the first decimal point
    let mut p: usize = start;
    while p < s.len() && s[p] != 46
        invariant
            start <= p <= s@.len(),
            forall|j: int| start <= j < p ==> s@[j] != 46,
        decreases s@.len() - p,
    {
        p = p + 1;
    }
    proof {
        let fd = find_dot(u);
        if fd < p - start {
            assert(u[fd] == 46);
            assert(s@[start + fd] != 46);
            assert(false);
        }
        if fd > p - start {
            assert(p < s@.len());
            assert(u[p - start] == s@[p as int]);
            assert(u[p - start] != 46);
            assert(false);
        }
        assert(fd == p - start);
    }
    let ghost ip = u.take(p - start);
    let ghost f = if (p as int) < s@.len() {
        u.subrange(p - start + 1, u.len() as int)
    } else {
        Seq::<u8>::empty()
    };
    // the integer part: one or more digits, worth at most the fixed-point
    // integer range
    if p == start {
        proof {
            assert(ip.len() == 0);
        }
        return None;
    }
    let mut acc: u64 = 0;
    let mut k: usize = start;
    while k < p
        invariant
            start <= k <= p,
            forall|i: int| 0 <= i < k - start ==> is_digit(#[trigger] ip[i]),
            acc == digits_value(ip.take(k - start)),
            acc <= 922_337_203_685_477,
        decreases p - k,
    {
        let b = s[k];
        proof {
            assert(ip[k - start] == u[k - start]);
        }
        if b < 48 || b > 57 {
            proof {
                assert(!is_digit(ip[k - start]));
            }
            return None;
        }
        proof {
            assert(ip.take(k - start + 1).drop_last() =~= ip.take(k - start));
            assert(ip.take(k - start + 1).last() == ip[k - start]);
        }
        acc = acc * 10 + ((b - 48) as u64);
        k = k + 1;
        if acc > 922_337_203_685_477 {
            proof {
                if all_digits(ip) {
                    lemma_digits_value_prefix_le(ip, k - start);
                    if f.len() > 0 && all_digits(f) {
                        lemma_frac_units_nonneg(f);
                    }
                }
            }
            return None;
        }
    }
    proof {
        assert(ip.take(p - start) =~= ip);
    }
    // the fractional part, if any: one or more digits; only the first four
    // carry into the value
    let mut frac: u64 = 0;
    let mut fcount: usize = 0;
    if p < s.len() {
        if p + 1 == s.len() {
            proof {
                assert(f.len() == 0);
            }
            return None;
        }
        let mut k2: usize = p + 1;
        while k2 < s.len()
            invariant
                p + 1 <= k2 <= s@.len(),
                forall|i: int| 0 <= i < k2 - p - 1 ==> is_digit(#[trigger] f[i]),
                fcount == if k2 - p - 1 <= 4 {
                    (k2 - p - 1) as int
                } else {
                    4
                },
                frac == digits_value(f.take(fcount as int)),
                frac <= (if fcount == 0 {
                    0int
                } else if fcount == 1 {
                    9int
                } else if fcount == 2 {
                    99int
                } else if fcount == 3 {
                    999int
                } else {
                    9999int
                }),
            decreases s@.len() - k2,
        {
            let b = s[k2];
            proof {
                assert(f[k2 - p - 1] == u[k2 - start]);
            }
            if b < 48 || b > 57 {
                proof {
                    assert(!is_digit(f[k2 - p - 1]));
                }
                return None;
            }
            if fcount < 4 {
                proof {
                    assert(f.take(fcount + 1).drop_last() =~= f.take(fcount as int));
                    assert(f.take(fcount + 1).last() == f[fcount as int]);
                }
                frac = frac * 10 + ((b - 48) as u64);
                fcount = fcount + 1;
            }
            k2 = k2 + 1;
        }
    }
    // scale a short fractional part up to four digits
    let scaled: u64 = if p >= s.len() {
        0
    } else if fcount == 4 {
        frac
    } else if fcount == 3 {
        frac * 10
    } else if fcount == 2 {
        frac * 100
    } else {
        frac * 1000
    };
    proof {
        if (p as int) < s@.len() {
            if f.len() >= 4 {
                assert(f.take(4) =~= f.take(fcount as int));
            } else {
                assert(f.take(fcount as int) =~= f);
            }
        }
        assert(scaled == frac_units(f));
    }
    let mag: u64 = acc * 10000 + scaled;
    if mag > 0x7fff_ffff_ffff_ffff {
        return None;
    }
    if neg {
        Some(Some(-(mag as i64)))
    } else {
        Some(Some(mag as i64))
    }
}

/// The decimal digit string of a number, most significant first.
pub open spec fn dec_digits(n: nat) -> Seq<u8>
    decreases n,
{
    if n < 10 {
        seq![(48 + n) as u8]
    } else {
        dec_digits(n / 10).push((48 + n % 10) as u8)
    }
}

/// The digits of `f`, exactly `w` wide, zero-padded on the left.
pub open spec fn padded_digits(f: nat, w: nat) -> Seq<u8>
    decreases w,
{
    if w == 0 {
        Seq::<u8>::empty()
    } else {
        padded_digits(f / 10, (w - 1) as nat).push((48 + f % 10) as u8)
    }
}

/// The `w`-wide digits of `f` with trailing zeros stripped; empty when `f`
/// is zero.
pub open spec fn stripped_frac(f: nat, w: nat) -> Seq<u8>
    decreases w,
{
    if w == 0 || f == 0 {
        Seq::<u8>::empty()
    } else if f % 10 == 0 {
        stripped_frac(f / 10, (w - 1) as nat)
    } else {
        padded_digits(f, w)
    }
}

/// The canonical decimal form of a fixed-point value: optional minus sign,
/// integer part, and — only when the fractional part is not zero — a
/// decimal point and the fractional digits with trailing zeros stripped.
pub open spec fn spec_format_units(v: int) -> Seq<u8> {
    let m = (if v < 0 {
        -v
    } else {
        v
    }) as nat;
    let sign: Seq<u8> = if v < 0 {
        seq![45u8]
    } else {
        Seq::<u8>::empty()
    };
    let f = m % 10000;
    if f == 0 {
        sign + dec_digits(m / 10000)
    } else {
        sign + dec_digits(m / 10000) + seq![46u8] + stripped_frac(f, 4)
    }
}

/// Appends the decimal digits of `n`.
pub(crate) fn push_dec_digits(out: &mut Vec<u8>, n: u128)
    ensures
        final(out)@ == old(out)@ + dec_digits(n as nat),
    decreases n,
{
    if n < 10 {
        out.push(48 + (n as u8));
        proof {
            assert(out@ =~= old(out)@ + dec_digits(n as nat));
        }
    } else {
        push_dec_digits(out, n / 10);
        out.push(48 + ((n % 10) as u8));
        proof {
            assert(out@ =~= old(out)@ + dec_digits(n as nat));
        }
    }
}

/// Appends the digits of `f`, exactly `w` wide, zero-padded on the left.
fn push_padded_digits(out: &mut Vec<u8>, f: u32, w: u32)
    ensures
        final(out)@ == old(out)@ + padded_digits(f as nat, w as nat),
    decreases w,
{
    if w == 0 {
        proof {
            assert(out@ =~= old(out)@ + padded_digits(f as nat, 0));
        }
    } else {
        push_padded_digits(out, f / 10, w - 1);
        out.push(48 + ((f % 10) as u8));
        proof {
            assert(out@ =~= old(out)@ + padded_digits(f as nat, w as nat));
        }
    }
}

/// Powers of ten, for bounding a digit count.
pub open spec fn pow10(w: nat) -> int
    decreases w,
{
    if w == 0 {
        1
    } else {
        10 * pow10((w - 1) as nat)
    }
}

/// Writes a fixed-point value in its canonical decimal form: minus sign if
/// negative, integer part, fractional part with trailing zeros stripped and
/// omitted entirely when zero.
pub fn format_units(v: i128) -> (out: Vec<u8>)
    ensures
        out@ == spec_format_units(v as int),
{
    let mut out: Vec<u8> = Vec::new();
    let m: u128 = if v < 0 {
        out.push(45);
        ((-(v + 1)) as u128) + 1
    } else {
        v as u128
    };
    proof {
        assert(m as int == if (v as int) < 0 {
            -(v as int)
        } else {
            v as int
        });
    }
    let ip: u128 = m / 10000;
    let f: u32 = (m % 10000) as u32;
    push_dec_digits(&mut out, ip);
    if f == 0 {
        proof {
            assert(out@ =~= spec_format_units(v as int));
        }
        return out;
    }
    out.push(46);
    let mut g: u32 = f;
    let mut w: u32 = 4;
    proof {
        assert(pow10(0) == 1);
        assert(pow10(1) == 10);
        assert(pow10(2) == 100);
        assert(pow10(3) == 1000);
        assert(pow10(4) == 10000);
    }
    while g % 10 == 0
        invariant
            1 <= w <= 4,
            0 < g,
            (g as int) < pow10(w as nat),
            stripped_frac(f as nat, 4) == stripped_frac(g as nat, w as nat),
        decreases g,
    {
        proof {
            assert(pow10(w as nat) == 10 * pow10((w - 1) as nat));
        }
        g = g / 10;
        w = w - 1;
        proof {
            assert((g as int) < pow10(w as nat));
        }
    }
    push_padded_digits(&mut out, g, w);
    proof {
        assert(stripped_frac(g as nat, w as nat) == padded_digits(g as nat, w as nat));
        assert(out@ =~= spec_format_units(v as int));
    }
    out
}

} // verus!
