//! Decimal text for fixed-point values: exact rendering and parsing.
//!
//! Rendering is canonical (no leading zeros, nine fractional digits) so
//! that two different values never render alike; the lemmas at the end
//! make that unambiguity available to the wire format.

use vstd::prelude::*;

use crate::num::SCALE;

verus! {

/// The decimal digit character for a value in `0 .. 10`.
pub open spec fn digit_char(d: int) -> char {
    if d == 0 {
        '0'
    } else if d == 1 {
        '1'
    } else if d == 2 {
        '2'
    } else if d == 3 {
        '3'
    } else if d == 4 {
        '4'
    } else if d == 5 {
        '5'
    } else if d == 6 {
        '6'
    } else if d == 7 {
        '7'
    } else if d == 8 {
        '8'
    } else {
        '9'
    }
}

/// Whether a character is a decimal digit.
pub open spec fn is_digit(c: char) -> bool {
    '0' <= c <= '9'
}

/// The numeric value of a digit character.
pub open spec fn digit_val(c: char) -> int {
    c as int - '0' as int
}

/// Canonical decimal digits of a natural number, most significant
/// first, with no leading zeros (a lone zero for zero).
pub open spec fn dec_digits(n: nat) -> Seq<char>
    decreases n,
{
    if n < 10 {
        seq![digit_char(n as int)]
    } else {
        dec_digits(n / 10).push(digit_char((n % 10) as int))
    }
}

/// Decimal digits of a natural number padded with leading zeros to a
/// fixed width; digits beyond the width are discarded.
pub open spec fn dec_digits_pad(n: nat, w: nat) -> Seq<char>
    decreases w,
{
    if w == 0 {
        Seq::empty()
    } else {
        dec_digits_pad(n / 10, (w - 1) as nat).push(digit_char((n % 10) as int))
    }
}

/// Canonical text of a signed integer.
pub open spec fn int_text(v: int) -> Seq<char> {
    if v < 0 {
        seq!['-'] + dec_digits((-v) as nat)
    } else {
        dec_digits(v as nat)
    }
}

/// Canonical text of a fixed-point value: optional sign, the whole
/// part, a point, and exactly nine fractional digits.
pub open spec fn fx_text(v: int) -> Seq<char> {
    let mag = if v < 0 {
        -v
    } else {
        v
    };
    let sign: Seq<char> = if v < 0 {
        seq!['-']
    } else {
        Seq::empty()
    };
    sign + dec_digits((mag / (SCALE as int)) as nat) + seq!['.'] + dec_digits_pad(
        (mag % (SCALE as int)) as nat,
        9,
    )
}

/// Text of a fixed-point value cut to three fractional digits, the
/// form used in synthesized pattern descriptions.
pub open spec fn fx3_text(v: int) -> Seq<char> {
    let mag = if v < 0 {
        -v
    } else {
        v
    };
    let sign: Seq<char> = if v < 0 {
        seq!['-']
    } else {
        Seq::empty()
    };
    sign + dec_digits((mag / (SCALE as int)) as nat) + seq!['.'] + dec_digits_pad(
        ((mag % (SCALE as int)) / 1_000_000) as nat,
        3,
    )
}

/// The numeric value of the digit characters at positions
/// `lo .. hi`, most significant first.
pub open spec fn digits_val_range(s: Seq<char>, lo: int, hi: int) -> int
    decreases hi - lo,
{
    if lo >= hi {
        0
    } else {
        digits_val_range(s, lo, hi - 1) * 10 + digit_val(s[hi - 1])
    }
}

/// Whether every character at positions `lo .. hi` is a digit.
pub open spec fn all_digits_range(s: Seq<char>, lo: int, hi: int) -> bool {
    forall|k: int| lo <= k < hi ==> is_digit(#[trigger] s[k])
}

/// Powers of ten.
pub open spec fn pow10(n: nat) -> int
    decreases n,
{
    if n == 0 {
        1
    } else {
        10 * pow10((n - 1) as nat)
    }
}

/// Powers of ten multiply by adding exponents.
pub proof fn lemma_pow10_add(a: nat, b: nat)
    ensures
        pow10(a + b) == pow10(a) * pow10(b),
    decreases a,
{
    if a == 0 {
        assert(pow10(b) == 1 * pow10(b)) by (nonlinear_arith);
    } else {
        lemma_pow10_add((a - 1) as nat, b);
        assert(10 * (pow10((a - 1) as nat) * pow10(b)) == (10 * pow10((a - 1) as nat)) * pow10(
            b,
        )) by (nonlinear_arith);
    }
}

/// Ten to the ninth, spelled out.
pub proof fn lemma_pow10_9()
    ensures
        pow10(9nat) == 1_000_000_000,
{
    assert(pow10(0nat) == 1);
    assert(pow10(1nat) == 10);
    assert(pow10(2nat) == 100);
    assert(pow10(3nat) == 1000);
    assert(pow10(4nat) == 10000);
    assert(pow10(5nat) == 100000);
    assert(pow10(6nat) == 1000000);
    assert(pow10(7nat) == 10000000);
    assert(pow10(8nat) == 100000000);
}

/// Powers of ten are positive.
pub proof fn lemma_pow10_pos(n: nat)
    ensures
        pow10(n) >= 1,
    decreases n,
{
    if n > 0 {
        lemma_pow10_pos((n - 1) as nat);
    }
}

/// The value of a digit range is non-negative.
pub proof fn lemma_digits_nonneg(s: Seq<char>, lo: int, hi: int)
    requires
        all_digits_range(s, lo, hi),
    ensures
        digits_val_range(s, lo, hi) >= 0,
    decreases hi - lo,
{
    if lo < hi {
        lemma_digits_nonneg(s, lo, hi - 1);
        assert(digits_val_range(s, lo, hi - 1) * 10 >= 0) by (nonlinear_arith)
            requires
                digits_val_range(s, lo, hi - 1) >= 0,
        {}
    }
}

/// The value of a digit range is below ten to its length.
pub proof fn lemma_digits_upper(s: Seq<char>, lo: int, hi: int)
    requires
        lo <= hi,
        all_digits_range(s, lo, hi),
    ensures
        digits_val_range(s, lo, hi) < pow10((hi - lo) as nat),
    decreases hi - lo,
{
    if lo == hi {
    } else {
        lemma_digits_upper(s, lo, hi - 1);
        lemma_digits_nonneg(s, lo, hi - 1);
        let v = digits_val_range(s, lo, hi - 1);
        let p = pow10((hi - 1 - lo) as nat);
        assert(v * 10 + 9 < p * 10) by (nonlinear_arith)
            requires
                0 <= v < p,
        {}
        assert(pow10((hi - lo) as nat) == 10 * p);
    }
}

/// The value of a digit range reads only the characters in range.
pub proof fn lemma_digits_val_congr(u1: Seq<char>, u2: Seq<char>, lo: int, hi: int)
    requires
        forall|j: int| lo <= j < hi ==> u1[j] == u2[j],
    ensures
        digits_val_range(u1, lo, hi) == digits_val_range(u2, lo, hi),
    decreases hi - lo,
{
    if lo < hi {
        lemma_digits_val_congr(u1, u2, lo, hi - 1);
    }
}

/// The value of a digit range equals the value of the same
/// characters seen at offset zero.
pub proof fn lemma_digits_val_offset(s: Seq<char>, lo: int, hi: int, u: Seq<char>)
    requires
        lo <= hi,
        hi - lo == u.len(),
        forall|j: int| 0 <= j < u.len() ==> s[lo + j] == #[trigger] u[j],
    ensures
        digits_val_range(s, lo, hi) == digits_val_range(u, 0, u.len() as int),
        all_digits_range(s, lo, hi) == all_digits_range(u, 0, u.len() as int),
    decreases hi - lo,
{
    if lo < hi {
        lemma_digits_val_offset(s, lo, hi - 1, u.subrange(0, u.len() - 1));
        assert(s[hi - 1] == u[u.len() - 1]);
        lemma_digits_val_congr(u, u, 0, u.len() - 1);
        assert(digits_val_range(u.subrange(0, u.len() - 1), 0, u.len() - 1) == digits_val_range(
            u,
            0,
            u.len() - 1,
        )) by {
            lemma_digits_val_congr(u.subrange(0, u.len() - 1), u, 0, u.len() - 1);
        }
        assert(all_digits_range(s, lo, hi) == all_digits_range(u, 0, u.len() as int)) by {
            if all_digits_range(s, lo, hi) {
                assert forall|j: int| 0 <= j < u.len() implies is_digit(#[trigger] u[j]) by {
                    assert(s[lo + j] == u[j] && is_digit(s[lo + j]));
                }
            }
            if all_digits_range(u, 0, u.len() as int) {
                assert forall|j: int| lo <= j < hi implies is_digit(#[trigger] s[j]) by {
                    assert(s[lo + (j - lo)] == u[j - lo] && is_digit(u[j - lo]));
                }
            }
        }
    } else {
        assert(all_digits_range(s, lo, hi) && all_digits_range(u, 0, u.len() as int));
    }
}

/// A digit range is worth at least any of its prefixes.
pub proof fn lemma_digits_ge_prefix(s: Seq<char>, lo: int, mid: int, hi: int)
    requires
        lo <= mid <= hi,
        all_digits_range(s, lo, hi),
    ensures
        digits_val_range(s, lo, hi) >= digits_val_range(s, lo, mid),
    decreases hi - mid,
{
    if mid < hi {
        lemma_digits_ge_prefix(s, lo, mid, hi - 1);
        lemma_digits_nonneg(s, lo, hi - 1);
        let v = digits_val_range(s, lo, hi - 1);
        assert(v * 10 >= v) by (nonlinear_arith)
            requires
                v >= 0,
        {}
    }
}

/// Reading back a canonical numeral yields its number.
pub proof fn lemma_dec_digits_value(m: nat)
    ensures
        digits_val_range(dec_digits(m), 0, dec_digits(m).len() as int) == m,
    decreases m,
{
    let u = dec_digits(m);
    if m < 10 {
        assert(digits_val_range(u, 0, 1) == digits_val_range(u, 0, 0) * 10 + digit_val(u[0]));
    } else {
        lemma_dec_digits_value(m / 10);
        let p = dec_digits(m / 10);
        assert(u == p.push(digit_char((m % 10) as int)));
        assert(forall|j: int| 0 <= j < p.len() ==> u[j] == p[j]);
        lemma_digits_val_congr(u, p, 0, p.len() as int);
        assert(digits_val_range(u, 0, u.len() as int) == digits_val_range(u, 0, p.len() as int)
            * 10 + digit_val(u[u.len() - 1]));
        assert(m == 10 * (m / 10) + m % 10);
    }
}

/// Reading back a padded numeral below ten to the width yields its
/// number.
pub proof fn lemma_pad_value(m: nat, w: nat)
    requires
        m < pow10(w),
    ensures
        digits_val_range(dec_digits_pad(m, w), 0, w as int) == m,
    decreases w,
{
    let u = dec_digits_pad(m, w);
    if w == 0 {
        assert(m == 0);
    } else {
        assert(pow10(w) == 10 * pow10((w - 1) as nat));
        assert(m / 10 < pow10((w - 1) as nat)) by (nonlinear_arith)
            requires
                m < pow10(w),
                pow10(w) == 10 * pow10((w - 1) as nat),
                m >= 0,
        {}
        lemma_pad_value(m / 10, (w - 1) as nat);
        let p = dec_digits_pad(m / 10, (w - 1) as nat);
        lemma_pad_shape(m / 10, (w - 1) as nat);
        assert(u == p.push(digit_char((m % 10) as int)));
        assert(forall|j: int| 0 <= j < p.len() ==> u[j] == p[j]);
        lemma_digits_val_congr(u, p, 0, p.len() as int);
        assert(digits_val_range(u, 0, w as int) == digits_val_range(u, 0, (w - 1) as int) * 10
            + digit_val(u[w - 1]));
        assert(m == 10 * (m / 10) + m % 10);
    }
}

/// Whether a character is a decimal digit, as executable code.
pub fn is_digit_x(c: char) -> (r: bool)
    ensures
        r == is_digit(c),
{
    c >= '0' && c <= '9'
}

/// The numeric value of a range of digit characters, or nothing if a
/// non-digit appears or the value leaves the `i64` range.
pub fn digits_range_val_x(s: &str, lo: usize, hi: usize) -> (r: Option<i128>)
    requires
        lo <= hi <= s@.len(),
    ensures
        r matches Some(v) ==> all_digits_range(s@, lo as int, hi as int) && v == digits_val_range(
            s@,
            lo as int,
            hi as int,
        ) && 0 <= v <= i64::MAX,
        r is None ==> !all_digits_range(s@, lo as int, hi as int) || digits_val_range(
            s@,
            lo as int,
            hi as int,
        ) > i64::MAX,
    decreases hi - lo,
{
    if lo >= hi {
        Some(0)
    } else {
        let c = s.get_char(hi - 1);
        if !is_digit_x(c) {
            assert(!is_digit(s@[hi - 1]));
            return None;
        }
        match digits_range_val_x(s, lo, hi - 1) {
            None => {
                proof {
                    if all_digits_range(s@, lo as int, hi as int) {
                        assert(all_digits_range(s@, lo as int, hi - 1));
                        lemma_digits_nonneg(s@, lo as int, hi - 1);
                        let v = digits_val_range(s@, lo as int, hi - 1);
                        assert(v * 10 >= v) by (nonlinear_arith)
                            requires
                                v >= 0,
                        {}
                    }
                }
                None
            },
            Some(v) => {
                let dv: i128 = (c as u32) as i128 - 48;
                proof {
                    assert(dv == digit_val(s@[hi - 1]));
                }
                let next: i128 = v * 10 + dv;
                if next > i64::MAX as i128 {
                    return None;
                }
                proof {
                    assert(forall|k: int|
                        lo <= k < hi ==> is_digit(#[trigger] s@[k]) == (if k < hi - 1 {
                            is_digit(s@[k])
                        } else {
                            true
                        }));
                }
                Some(next)
            },
        }
    }
}

/// Whether every character of a range is a digit, as executable code.
pub fn all_digits_x(s: &str, lo: usize, hi: usize) -> (r: bool)
    requires
        lo <= hi <= s@.len(),
    ensures
        r == all_digits_range(s@, lo as int, hi as int),
    decreases hi - lo,
{
    if lo >= hi {
        true
    } else {
        if !is_digit_x(s.get_char(hi - 1)) {
            proof {
                assert(!is_digit(s@[hi - 1]));
            }
            false
        } else {
            let rest = all_digits_x(s, lo, hi - 1);
            proof {
                if rest {
                    assert forall|k: int| lo <= k < hi implies is_digit(#[trigger] s@[k]) by {
                        if k < hi - 1 {
                            assert(all_digits_range(s@, lo as int, hi - 1));
                        }
                    }
                }
            }
            rest
        }
    }
}

/// Character-wise equality of two string slices.
pub fn str_eq(a: &str, b: &str) -> (r: bool)
    ensures
        r == (a@ == b@),
{
    let alen: usize = a.unicode_len();
    let blen: usize = b.unicode_len();
    if alen != blen {
        proof {
            assert(a@ != b@);
        }
        return false;
    }
    let mut i: usize = 0;
    while i < alen
        invariant
            0 <= i <= alen,
            alen == a@.len(),
            alen == b@.len(),
            forall|j: int| 0 <= j < i ==> a@[j] == b@[j],
        decreases alen - i,
    {
        if a.get_char(i) != b.get_char(i) {
            proof {
                assert(a@[i as int] != b@[i as int]);
            }
            return false;
        }
        i = i + 1;
    }
    proof {
        assert(a@ =~= b@);
    }
    true
}

/// Equal-length prefixes of equal concatenations match, and so do
/// the remainders.
pub proof fn lemma_concat_cancel(a: Seq<char>, b: Seq<char>, c: Seq<char>, d: Seq<char>)
    requires
        a + b == c + d,
        a.len() == c.len(),
    ensures
        a == c,
        b == d,
{
    assert forall|i: int| 0 <= i < a.len() implies a[i] == c[i] by {
        assert((a + b)[i] == a[i]);
        assert((c + d)[i] == c[i]);
    }
    assert(a =~= c);
    assert((a + b).len() == a.len() + b.len());
    assert((c + d).len() == c.len() + d.len());
    assert(b.len() == d.len());
    assert forall|i: int| 0 <= i < b.len() implies b[i] == d[i] by {
        assert((a + b)[a.len() + i] == b[i]);
        assert((c + d)[c.len() + i] == d[i]);
    }
    assert(b =~= d);
}

/// Concatenation of character sequences is associative.
pub proof fn seq_assoc(a: Seq<char>, b: Seq<char>, c: Seq<char>)
    ensures
        (a + b) + c == a + (b + c),
{
    assert((a + b) + c =~= a + (b + c));
}

/// Every character of a canonical numeral is a digit.
pub proof fn lemma_dec_digits_are_digits(n: nat)
    ensures
        dec_digits(n).len() >= 1,
        forall|i: int| 0 <= i < dec_digits(n).len() ==> is_digit(#[trigger] dec_digits(n)[i]),
    decreases n,
{
    if n >= 10 {
        lemma_dec_digits_are_digits(n / 10);
    }
}

/// Different numbers have different canonical numerals.
pub proof fn lemma_dec_digits_inj(a: nat, b: nat)
    requires
        dec_digits(a) == dec_digits(b),
    ensures
        a == b,
    decreases a,
{
    lemma_dec_digits_are_digits(a);
    lemma_dec_digits_are_digits(b);
    assert(dec_digits(a).last() == digit_char((a % 10) as int));
    assert(dec_digits(b).last() == digit_char((b % 10) as int));
    assert(a % 10 == b % 10);
    if a < 10 && b < 10 {
        assert(a == a % 10 && b == b % 10);
    } else if a < 10 {
        assert(dec_digits(a).len() == 1);
        assert(dec_digits(b).len() == dec_digits(b / 10).len() + 1);
        assert(false);
    } else if b < 10 {
        assert(dec_digits(b).len() == 1);
        assert(dec_digits(a).len() == dec_digits(a / 10).len() + 1);
        assert(false);
    } else {
        assert(dec_digits(a).drop_last() == dec_digits(a / 10));
        assert(dec_digits(b).drop_last() == dec_digits(b / 10));
        lemma_dec_digits_inj(a / 10, b / 10);
        assert(a == 10 * (a / 10) + a % 10);
        assert(b == 10 * (b / 10) + b % 10);
    }
}

/// A padded numeral has exactly its width, all digits.
pub proof fn lemma_pad_shape(n: nat, w: nat)
    ensures
        dec_digits_pad(n, w).len() == w,
        forall|i: int|
            0 <= i < dec_digits_pad(n, w).len() ==> is_digit(#[trigger] dec_digits_pad(n, w)[i]),
    decreases w,
{
    if w > 0 {
        lemma_pad_shape(n / 10, (w - 1) as nat);
    }
}

/// Below ten to the width, different numbers pad differently.
pub proof fn lemma_pad_inj(a: nat, b: nat, w: nat)
    requires
        a < pow10(w),
        b < pow10(w),
        dec_digits_pad(a, w) == dec_digits_pad(b, w),
    ensures
        a == b,
    decreases w,
{
    if w == 0 {
        assert(a == 0 && b == 0);
    } else {
        assert(dec_digits_pad(a, w).last() == digit_char((a % 10) as int));
        assert(dec_digits_pad(b, w).last() == digit_char((b % 10) as int));
        assert(a % 10 == b % 10);
        assert(dec_digits_pad(a, w).drop_last() == dec_digits_pad(a / 10, (w - 1) as nat));
        assert(dec_digits_pad(b, w).drop_last() == dec_digits_pad(b / 10, (w - 1) as nat));
        assert(a / 10 < pow10((w - 1) as nat) && b / 10 < pow10((w - 1) as nat))
            by (nonlinear_arith)
            requires
                a < pow10(w),
                b < pow10(w),
                pow10(w) == 10 * pow10((w - 1) as nat),
                a >= 0,
                b >= 0,
        {}
        lemma_pad_inj(a / 10, b / 10, (w - 1) as nat);
        assert(a == 10 * (a / 10) + a % 10);
        assert(b == 10 * (b / 10) + b % 10);
    }
}

/// Two canonical fixed-point numerals never run together alike: if
/// the texts from two values agree once each is followed by anything,
/// the values and the remainders agree.
pub proof fn lemma_fx_text_unambiguous(x1: int, x2: int, u1: Seq<char>, u2: Seq<char>)
    requires
        fx_text(x1) + u1 == fx_text(x2) + u2,
    ensures
        x1 == x2,
        u1 == u2,
{
    let m1 = if x1 < 0 {
        -x1
    } else {
        x1
    };
    let m2 = if x2 < 0 {
        -x2
    } else {
        x2
    };
    let d1 = dec_digits((m1 / (SCALE as int)) as nat);
    let d2 = dec_digits((m2 / (SCALE as int)) as nat);
    let p1 = dec_digits_pad((m1 % (SCALE as int)) as nat, 9);
    let p2 = dec_digits_pad((m2 % (SCALE as int)) as nat, 9);
    lemma_dec_digits_are_digits((m1 / (SCALE as int)) as nat);
    lemma_dec_digits_are_digits((m2 / (SCALE as int)) as nat);
    lemma_pad_shape((m1 % (SCALE as int)) as nat, 9);
    lemma_pad_shape((m2 % (SCALE as int)) as nat, 9);
    let whole1 = fx_text(x1) + u1;
    let whole2 = fx_text(x2) + u2;
    // The sign is determined: a minus is not a digit.
    if x1 < 0 && x2 >= 0 {
        assert(whole1[0] == '-');
        assert(whole2[0] == d2[0]);
        assert(is_digit(d2[0]));
        assert(false);
    } else if x1 >= 0 && x2 < 0 {
        assert(whole2[0] == '-');
        assert(whole1[0] == d1[0]);
        assert(is_digit(d1[0]));
        assert(false);
    }
    let off: int = if x1 < 0 {
        1
    } else {
        0
    };
    // The whole parts are determined: the point is not a digit.
    assert forall|i: int| 0 <= i < whole1.len() implies whole1[i] == whole2[i] by {}
    if d1.len() < d2.len() {
        assert(whole1[off + d1.len()] == '.');
        assert(whole2[off + d1.len()] == d2[d1.len() as int]);
        assert(is_digit(d2[d1.len() as int]));
        assert(false);
    } else if d2.len() < d1.len() {
        assert(whole2[off + d2.len()] == '.');
        assert(whole1[off + d2.len()] == d1[d2.len() as int]);
        assert(is_digit(d1[d2.len() as int]));
        assert(false);
    }
    let sign1: Seq<char> = if x1 < 0 {
        seq!['-']
    } else {
        Seq::empty()
    };
    assert(fx_text(x1).len() == fx_text(x2).len());
    lemma_concat_cancel(fx_text(x1), u1, fx_text(x2), u2);
    assert(fx_text(x1) == fx_text(x2));
    // Split the equal texts into their parts.
    let head1 = sign1 + d1 + seq!['.'];
    let head2 = sign1 + d2 + seq!['.'];
    assert(fx_text(x1) =~= head1 + p1);
    assert(fx_text(x2) =~= head2 + p2);
    lemma_concat_cancel(head1, p1, head2, p2);
    assert(head1 =~= (sign1 + d1) + seq!['.']);
    assert(head2 =~= (sign1 + d2) + seq!['.']);
    lemma_concat_cancel(sign1 + d1, seq!['.'], sign1 + d2, seq!['.']);
    lemma_concat_cancel(sign1, d1, sign1, d2);
    lemma_dec_digits_inj((m1 / (SCALE as int)) as nat, (m2 / (SCALE as int)) as nat);
    vstd::arithmetic::div_mod::lemma_mod_division_less_than_divisor(m1, SCALE as int);
    vstd::arithmetic::div_mod::lemma_mod_division_less_than_divisor(m2, SCALE as int);
    lemma_pow10_9();
    lemma_pad_inj((m1 % (SCALE as int)) as nat, (m2 % (SCALE as int)) as nat, 9);
    vstd::arithmetic::div_mod::lemma_fundamental_div_mod(m1, SCALE as int);
    vstd::arithmetic::div_mod::lemma_fundamental_div_mod(m2, SCALE as int);
    assert(m1 == m2);
}

/// The one-character string for a decimal digit.
fn digit_str(d: u64) -> (r: &'static str)
    requires
        d < 10,
    ensures
        r@ == seq![digit_char(d as int)],
{
    proof {
        reveal_strlit("0");
        reveal_strlit("1");
        reveal_strlit("2");
        reveal_strlit("3");
        reveal_strlit("4");
        reveal_strlit("5");
        reveal_strlit("6");
        reveal_strlit("7");
        reveal_strlit("8");
        reveal_strlit("9");
    }
    match d {
        0 => "0",
        1 => "1",
        2 => "2",
        3 => "3",
        4 => "4",
        5 => "5",
        6 => "6",
        7 => "7",
        8 => "8",
        _ => "9",
    }
}

/// Canonical decimal text of an unsigned machine integer.
pub fn u64_text(n: u64) -> (r: String)
    ensures
        r@ == dec_digits(n as nat),
    decreases n,
{
    if n < 10 {
        String::from_str(digit_str(n))
    } else {
        let s = u64_text(n / 10);
        s.concat(digit_str(n % 10))
    }
}

/// Decimal text of an unsigned machine integer padded with leading
/// zeros to a fixed width.
pub fn u64_text_pad(n: u64, w: u64) -> (r: String)
    ensures
        r@ == dec_digits_pad(n as nat, w as nat),
    decreases w,
{
    if w == 0 {
        String::new()
    } else {
        let s = u64_text_pad(n / 10, w - 1);
        s.concat(digit_str(n % 10))
    }
}

/// Magnitude of a signed machine integer, widened so the minimum has
/// a representable magnitude.
fn i64_mag(v: i64) -> (r: u64)
    ensures
        r == if v < 0 {
            -(v as int)
        } else {
            v as int
        },
{
    if v < 0 {
        (-(v as i128)) as u64
    } else {
        v as u64
    }
}

/// Canonical decimal text of a signed machine integer.
pub fn i64_text(v: i64) -> (r: String)
    ensures
        r@ == int_text(v as int),
{
    proof {
        reveal_strlit("-");
    }
    if v < 0 {
        let s = String::from_str("-");
        s.concat(u64_text(i64_mag(v)).as_str())
    } else {
        u64_text(v as u64)
    }
}

/// Canonical decimal text of a fixed-point value, nine fractional
/// digits.
pub fn fx_text_of(v: i64) -> (r: String)
    ensures
        r@ == fx_text(v as int),
{
    proof {
        reveal_strlit("-");
        reveal_strlit(".");
    }
    let mag: u64 = i64_mag(v);
    let head = if v < 0 {
        String::from_str("-")
    } else {
        String::new()
    };
    let head = head.concat(u64_text(mag / (SCALE as u64)).as_str());
    let head = head.concat(".");
    head.concat(u64_text_pad(mag % (SCALE as u64), 9).as_str())
}

/// Decimal text of a fixed-point value cut to three fractional digits.
pub fn fx3_text_of(v: i64) -> (r: String)
    ensures
        r@ == fx3_text(v as int),
{
    proof {
        reveal_strlit("-");
        reveal_strlit(".");
    }
    let mag: u64 = i64_mag(v);
    let head = if v < 0 {
        String::from_str("-")
    } else {
        String::new()
    };
    let head = head.concat(u64_text(mag / (SCALE as u64)).as_str());
    let head = head.concat(".");
    head.concat(u64_text_pad((mag % (SCALE as u64)) / 1_000_000, 3).as_str())
}

} // verus!
