//! Offline replay of delimited tick rows.
//!
//! A row holds `symbol,price,volume,timestamp`. A header row is
//! detected by its first token matching `symbol`, `timestamp` or
//! `price` case-insensitively and skipped; rows with fewer than four
//! fields are skipped silently; unparseable numbers fall back to
//! zero, as a defined degenerate value. Reading the file itself is
//! the caller's concern: these functions work on lines.

use vstd::prelude::*;
use vstd::string::{StringExecFns, StrSliceExecFns};

use crate::num::SCALE;
use crate::signal::Tick;
use crate::text::{
    all_digits_range, all_digits_x, digits_range_val_x, digits_val_range, lemma_digits_nonneg,
    lemma_digits_upper, lemma_pow10_pos, pow10,
};

verus! {

/// The first position at or after `i` holding the character `c`, or
/// the length when there is none.
pub open spec fn first_at(s: Seq<char>, i: int, c: char) -> int
    decreases s.len() - i,
{
    if i < 0 || i >= s.len() {
        s.len() as int
    } else if s[i] == c {
        i
    } else {
        first_at(s, i + 1, c)
    }
}

/// Whether a character counts as blank space for trimming.
pub open spec fn is_blank(c: char) -> bool {
    c == ' ' || c == '\t' || c == '\r' || c == '\n'
}

/// The first non-blank position of a range.
pub open spec fn trim_lo(s: Seq<char>, lo: int, hi: int) -> int
    decreases hi - lo,
{
    if lo >= hi {
        lo
    } else if is_blank(s[lo]) {
        trim_lo(s, lo + 1, hi)
    } else {
        lo
    }
}

/// The position after the last non-blank character of a range.
pub open spec fn trim_hi(s: Seq<char>, lo: int, hi: int) -> int
    decreases hi - lo,
{
    if lo >= hi {
        hi
    } else if is_blank(s[hi - 1]) {
        trim_hi(s, lo, hi - 1)
    } else {
        hi
    }
}

/// The fixed-point value of a decimal numeral: an optional sign,
/// digits, and an optional point with more digits, of which the
/// first nine count. Anything else, and a value out of the machine
/// range, is nothing. Exponent forms are deliberately not numerals
/// here: replay rows carry plain decimals, and a row field in
/// exponent form counts as malformed and falls back to zero.
pub open spec fn parse_fx_spec(s: Seq<char>) -> Option<i64> {
    let n = s.len() as int;
    if n == 0 {
        None
    } else {
        let has_sign = s[0] == '-' || s[0] == '+';
        let start: int = if has_sign {
            1
        } else {
            0
        };
        let neg = s[0] == '-';
        let d = first_at(s, start, '.');
        let fp_len: int = if d < n {
            n - d - 1
        } else {
            0
        };
        if !all_digits_range(s, start, d) {
            None
        } else if d < n && !all_digits_range(s, d + 1, n) {
            None
        } else if d - start == 0 && fp_len == 0 {
            None
        } else {
            let cnt: int = if fp_len > 9 {
                9
            } else {
                fp_len
            };
            let frac = digits_val_range(s, d + 1, d + 1 + cnt) * pow10((9 - cnt) as nat);
            let mag = digits_val_range(s, start, d) * (SCALE as int) + frac;
            let v: int = if neg {
                -mag
            } else {
                mag
            };
            if v < i64::MIN || v > i64::MAX {
                None
            } else {
                Some(v as i64)
            }
        }
    }
}

/// The first position at or after `i` holding `c`, as executable
/// code.
pub fn first_at_x(s: &str, i: usize, c: char) -> (r: usize)
    requires
        i <= s@.len(),
    ensures
        r == first_at(s@, i as int, c),
        i <= r <= s@.len(),
    decreases s@.len() - i,
{
    let n = s.unicode_len();
    if i >= n {
        n
    } else if s.get_char(i) == c {
        i
    } else {
        first_at_x(s, i + 1, c)
    }
}

/// The first non-blank position of a range, as executable code.
fn trim_lo_x(s: &str, lo: usize, hi: usize) -> (r: usize)
    requires
        lo <= hi <= s@.len(),
    ensures
        r == trim_lo(s@, lo as int, hi as int),
        lo <= r <= hi,
    decreases hi - lo,
{
    if lo >= hi {
        lo
    } else {
        let c = s.get_char(lo);
        if c == ' ' || c == '\t' || c == '\r' || c == '\n' {
            trim_lo_x(s, lo + 1, hi)
        } else {
            lo
        }
    }
}

/// The position after the last non-blank character, as executable
/// code.
fn trim_hi_x(s: &str, lo: usize, hi: usize) -> (r: usize)
    requires
        lo <= hi <= s@.len(),
    ensures
        r == trim_hi(s@, lo as int, hi as int),
        lo <= r <= hi,
    decreases hi - lo,
{
    if lo >= hi {
        hi
    } else {
        let c = s.get_char(hi - 1);
        if c == ' ' || c == '\t' || c == '\r' || c == '\n' {
            trim_hi_x(s, lo, hi - 1)
        } else {
            hi
        }
    }
}

/// A small table of powers of ten.
fn pow10_x(n: u64) -> (r: i128)
    requires
        n <= 9,
    ensures
        r == pow10(n as nat),
{
    proof {
        crate::text::lemma_pow10_9();
        assert(pow10(0nat) == 1);
        assert(pow10(1nat) == 10);
        assert(pow10(2nat) == 100);
        assert(pow10(3nat) == 1000);
        assert(pow10(4nat) == 10000);
        assert(pow10(5nat) == 100000);
        assert(pow10(6nat) == 1000000);
        assert(pow10(7nat) == 10000000);
        assert(pow10(8nat) == 100000000);
    }
    match n {
        0 => 1,
        1 => 10,
        2 => 100,
        3 => 1_000,
        4 => 10_000,
        5 => 100_000,
        6 => 1_000_000,
        7 => 10_000_000,
        8 => 100_000_000,
        _ => 1_000_000_000,
    }
}

/// Parse a decimal numeral into a fixed-point value, exactly as
/// [`parse_fx_spec`] defines it.
pub fn parse_fx(s: &str) -> (r: Option<i64>)
    ensures
        r == parse_fx_spec(s@),
{
    let n = s.unicode_len();
    if n == 0 {
        return None;
    }
    let c0 = s.get_char(0);
    let has_sign = c0 == '-' || c0 == '+';
    let start: usize = if has_sign {
        1
    } else {
        0
    };
    let neg = c0 == '-';
    let d = first_at_x(s, start, '.');
    let ip = match digits_range_val_x(s, start, d) {
        None => {
            proof {
                if all_digits_range(s@, start as int, d as int) {
                    // The whole part alone already exceeds the range.
                    lemma_digits_nonneg(s@, start as int, d as int);
                    let ipv = digits_val_range(s@, start as int, d as int);
                    assert(ipv * (SCALE as int) >= ipv) by (nonlinear_arith)
                        requires
                            ipv >= 0,
                            SCALE >= 1,
                    {}
                    if d < n && all_digits_range(s@, d + 1, n as int) {
                        let fl: int = n - d - 1;
                        let cnt: int = if fl > 9 {
                            9int
                        } else {
                            fl
                        };
                        lemma_digits_nonneg(s@, d + 1, d + 1 + cnt);
                        lemma_pow10_pos((9 - cnt) as nat);
                        let fv = digits_val_range(s@, d + 1, d + 1 + cnt);
                        let pw = pow10((9 - cnt) as nat);
                        assert(fv * pw >= 0) by (nonlinear_arith)
                            requires
                                fv >= 0,
                                pw >= 1,
                        {}
                    }
                }
            }
            return None;
        },
        Some(v) => v,
    };
    let frac: i128 = if d < n {
        if !all_digits_x(s, d + 1, n) {
            return None;
        }
        let fl: usize = n - d - 1;
        let cnt: usize = if fl > 9 {
            9
        } else {
            fl
        };
        proof {
            assert(all_digits_range(s@, d + 1, d + 1 + cnt));
            lemma_digits_upper(s@, d + 1, d + 1 + cnt);
            lemma_digits_nonneg(s@, d + 1, d + 1 + cnt);
            crate::text::lemma_pow10_9();
            crate::text::lemma_pow10_add(cnt as nat, (9 - cnt) as nat);
            crate::text::lemma_pow10_pos(cnt as nat);
            crate::text::lemma_pow10_pos((9 - cnt) as nat);
            assert(pow10(cnt as nat) <= 1_000_000_000) by (nonlinear_arith)
                requires
                    pow10(cnt as nat) * pow10((9 - cnt) as nat) == 1_000_000_000,
                    pow10(cnt as nat) >= 1,
                    pow10((9 - cnt) as nat) >= 1,
            {}
        }
        let fv = match digits_range_val_x(s, d + 1, d + 1 + cnt) {
            Some(v) => v,
            None => {
                proof {
                    assert(digits_val_range(s@, d + 1, d + 1 + cnt) <= i64::MAX);
                    assert(false);
                }
                0
            },
        };
        let pw = pow10_x(9 - (cnt as u64));
        proof {
            crate::text::lemma_pow10_pos((9 - cnt) as nat);
            let fvv = digits_val_range(s@, d + 1, d + 1 + cnt);
            let pww = pow10((9 - cnt) as nat);
            assert(0 <= fvv * pww <= 1_000_000_000) by (nonlinear_arith)
                requires
                    0 <= fvv < pow10(cnt as nat),
                    1 <= pww,
                    pww == pow10((9 - cnt) as nat),
                    pow10(cnt as nat) * pow10((9 - cnt) as nat) == 1_000_000_000,
            {}
        }
        fv * pw
    } else {
        0
    };
    if d == start && (d >= n || n - d - 1 == 0) {
        return None;
    }
    proof {
        assert((0 <= ip * (SCALE as int)) && ip * (SCALE as int) <= (i64::MAX as int) * (
        SCALE as int)) by (nonlinear_arith)
            requires
                0 <= ip <= i64::MAX,
                SCALE == 1_000_000_000,
        {}
    }
    let mag: i128 = ip * (SCALE as i128) + frac;
    let v: i128 = if neg {
        -mag
    } else {
        mag
    };
    if v < i64::MIN as i128 || v > i64::MAX as i128 {
        None
    } else {
        Some(v as i64)
    }
}

/// The trimmed text of a range of a line.
fn trimmed_field(line: &str, lo: usize, hi: usize) -> (r: String)
    requires
        lo <= hi <= line@.len(),
    ensures
        r@ == line@.subrange(
            trim_lo(line@, lo as int, trim_hi(line@, lo as int, hi as int)),
            trim_hi(line@, lo as int, hi as int),
        ),
{
    let h = trim_hi_x(line, lo, hi);
    let l = trim_lo_x(line, lo, h);
    String::from_str(line.substring_char(l, h))
}

/// The trimmed text of a field parsed as a fixed-point number, zero
/// when unparseable.
fn field_value(line: &str, lo: usize, hi: usize) -> (r: i64)
    requires
        lo <= hi <= line@.len(),
    ensures
        r == (match parse_fx_spec(
            line@.subrange(
                trim_lo(line@, lo as int, trim_hi(line@, lo as int, hi as int)),
                trim_hi(line@, lo as int, hi as int),
            ),
        ) {
            Some(v) => v,
            None => 0,
        }),
{
    let f = trimmed_field(line, lo, hi);
    match parse_fx(f.as_str()) {
        Some(v) => v,
        None => 0,
    }
}

/// The parse of one replay row: the first three commas split the
/// line into symbol, price, volume and timestamp; fields are
/// trimmed, numbers fall back to zero, and a line with fewer than
/// four fields is nothing.
pub open spec fn row_spec(s: Seq<char>) -> Option<(Seq<char>, i64, i64, i64)> {
    let n = s.len() as int;
    let c1 = first_at(s, 0, ',');
    let c2 = first_at(s, c1 + 1, ',');
    let c3 = first_at(s, c2 + 1, ',');
    if c3 >= n {
        None
    } else {
        let sym = s.subrange(trim_lo(s, 0, trim_hi(s, 0, c1)), trim_hi(s, 0, c1));
        let c4 = first_at(s, c3 + 1, ',');
        let price = field_spec(s, c1 + 1, c2);
        let volume = field_spec(s, c2 + 1, c3);
        let ts = field_spec(s, c3 + 1, c4);
        Some((sym, price, volume, ts))
    }
}

/// The numeric value of a trimmed field range, zero when
/// unparseable.
pub open spec fn field_spec(s: Seq<char>, lo: int, hi: int) -> i64 {
    match parse_fx_spec(
        s.subrange(trim_lo(s, lo, trim_hi(s, lo, hi)), trim_hi(s, lo, hi)),
    ) {
        Some(v) => v,
        None => 0,
    }
}

/// The code point of a character with ASCII letters folded to lower
/// case.
pub open spec fn lower_code(c: char) -> int {
    if 'A' <= c <= 'Z' {
        c as int + 32
    } else {
        c as int
    }
}

/// Whether the text at `lo` starts with a token, ignoring ASCII
/// case.
pub open spec fn starts_with_ic(s: Seq<char>, lo: int, tok: Seq<char>) -> bool {
    &&& 0 <= lo
    &&& s.len() - lo >= tok.len()
    &&& forall|k: int| 0 <= k < tok.len() ==> lower_code(s[lo + k]) == lower_code(#[trigger] tok[k])
}

/// Whether a row is a header: its first token, after leading blanks,
/// names a column, ignoring ASCII case.
pub open spec fn is_header_row(s: Seq<char>) -> bool {
    let lo = trim_lo(s, 0, s.len() as int);
    ||| starts_with_ic(s, lo, "symbol"@)
    ||| starts_with_ic(s, lo, "timestamp"@)
    ||| starts_with_ic(s, lo, "price"@)
}

/// Whether a row is blank.
pub open spec fn is_blank_row(s: Seq<char>) -> bool {
    trim_lo(s, 0, s.len() as int) == s.len()
}

/// Case-folded prefix comparison, as executable code.
fn starts_with_ic_x(s: &str, lo: usize, tok: &str) -> (r: bool)
    requires
        lo <= s@.len(),
    ensures
        r == starts_with_ic(s@, lo as int, tok@),
{
    let n = s.unicode_len();
    let m = tok.unicode_len();
    if n - lo < m {
        return false;
    }
    let mut k: usize = 0;
    while k < m
        invariant
            0 <= k <= m,
            m == tok@.len(),
            lo + m <= s@.len(),
            s@.len() <= usize::MAX,
            forall|j: int| 0 <= j < k ==> lower_code(s@[lo + j]) == lower_code(#[trigger] tok@[j]),
        decreases m - k,
    {
        let a: u32 = s.get_char(lo + k) as u32;
        let b: u32 = tok.get_char(k) as u32;
        let af: u32 = if a >= 65 && a <= 90 {
            a + 32
        } else {
            a
        };
        let bf: u32 = if b >= 65 && b <= 90 {
            b + 32
        } else {
            b
        };
        if af != bf {
            proof {
                assert(lower_code(s@[lo + k]) != lower_code(tok@[k as int]));
            }
            return false;
        }
        k = k + 1;
    }
    true
}

/// Header detection, as executable code.
pub fn is_header_row_x(line: &str) -> (r: bool)
    ensures
        r == is_header_row(line@),
{
    let n = line.unicode_len();
    let lo = trim_lo_x(line, 0, n);
    starts_with_ic_x(line, lo, "symbol") || starts_with_ic_x(line, lo, "timestamp")
        || starts_with_ic_x(line, lo, "price")
}

/// Blank-row detection, as executable code.
pub fn is_blank_row_x(line: &str) -> (r: bool)
    ensures
        r == is_blank_row(line@),
{
    let n = line.unicode_len();
    let lo = trim_lo_x(line, 0, n);
    lo == n
}

/// A count clamped to the `i32` range.
pub open spec fn sat_i32(v: int) -> int {
    if v > i32::MAX {
        i32::MAX as int
    } else if v < i32::MIN {
        i32::MIN as int
    } else {
        v
    }
}

/// The number of data rows in a replay stream, from row `i` with
/// `count` rows already seen: blank rows never count, and header
/// rows are skipped only while no data row has been counted.
pub open spec fn replay_count(lines: Seq<String>, i: int, count: int) -> int
    decreases lines.len() - i,
{
    if i < 0 || i >= lines.len() {
        count
    } else if is_blank_row(lines[i]@) {
        replay_count(lines, i + 1, count)
    } else if count == 0 && is_header_row(lines[i]@) {
        replay_count(lines, i + 1, count)
    } else {
        replay_count(lines, i + 1, sat_i32(count + 1))
    }
}

/// Count the data rows of a replay stream, by [`replay_count`].
pub fn count_rows(lines: &Vec<String>) -> (r: i32)
    ensures
        r == replay_count(lines@, 0, 0),
{
    let mut count: i32 = 0;
    let mut i: usize = 0;
    while i < lines.len()
        invariant
            0 <= i <= lines@.len(),
            0 <= count <= i32::MAX,
            replay_count(lines@, 0, 0) == replay_count(lines@, i as int, count as int),
        decreases lines@.len() - i,
    {
        let line: &String = &lines[i];
        if !is_blank_row_x(line.as_str()) {
            let skip = count == 0 && is_header_row_x(line.as_str());
            if !skip {
                count = if count == i32::MAX {
                    i32::MAX
                } else {
                    count + 1
                };
            }
        }
        i = i + 1;
    }
    count
}

/// The row indices a replay run parses, from row `i` with `processed`
/// rows already parsed: blank rows and short rows are skipped, and
/// header rows are skipped only while nothing has been parsed.
pub open spec fn picked_rows(lines: Seq<String>, i: int, processed: int) -> Seq<int>
    decreases lines.len() - i,
{
    if i < 0 || i >= lines.len() {
        Seq::empty()
    } else if is_blank_row(lines[i]@) {
        picked_rows(lines, i + 1, processed)
    } else if processed == 0 && is_header_row(lines[i]@) {
        picked_rows(lines, i + 1, processed)
    } else if row_spec(lines[i]@) is None {
        picked_rows(lines, i + 1, processed)
    } else {
        seq![i] + picked_rows(lines, i + 1, sat_i32(processed + 1))
    }
}

/// Whether a tick is the parse of the row at an index.
pub open spec fn tick_of_row(lines: Seq<String>, idx: int, t: Tick) -> bool {
    &&& 0 <= idx < lines.len()
    &&& row_spec(lines[idx]@) matches Some(p) && t.symbol@ == p.0 && t.price == p.1 && t.volume
        == p.2 && t.timestamp == p.3
}

/// Parse the data rows of a replay stream into ticks, in row order:
/// exactly the rows of [`picked_rows`], each by [`row_spec`].
pub fn parse_replay_lines(lines: &Vec<String>) -> (r: Vec<Tick>)
    ensures
        r@.len() == picked_rows(lines@, 0, 0).len(),
        forall|j: int|
            0 <= j < r@.len() ==> tick_of_row(
                lines@,
                picked_rows(lines@, 0, 0)[j],
                #[trigger] r@[j],
            ),
{
    let mut out: Vec<Tick> = Vec::new();
    let mut processed: i32 = 0;
    let mut i: usize = 0;
    while i < lines.len()
        invariant
            0 <= i <= lines@.len(),
            0 <= processed <= i32::MAX,
            out@.len() + picked_rows(lines@, i as int, processed as int).len() == picked_rows(
                lines@,
                0,
                0,
            ).len(),
            picked_rows(lines@, 0, 0) =~= picked_rows(lines@, 0, 0).subrange(
                0,
                out@.len() as int,
            ) + picked_rows(lines@, i as int, processed as int),
            forall|j: int|
                0 <= j < out@.len() ==> tick_of_row(
                    lines@,
                    picked_rows(lines@, 0, 0)[j],
                    #[trigger] out@[j],
                ),
        decreases lines@.len() - i,
    {
        let line: &String = &lines[i];
        if !is_blank_row_x(line.as_str()) {
            let skip = processed == 0 && is_header_row_x(line.as_str());
            if !skip {
                match parse_tick_row(line.as_str()) {
                    Some(t) => {
                        proof {
                            let full = picked_rows(lines@, 0, 0);
                            let rest = picked_rows(lines@, i as int, processed as int);
                            assert(rest == seq![i as int] + picked_rows(
                                lines@,
                                i + 1,
                                sat_i32(processed as int + 1),
                            ));
                            assert(full[out@.len() as int] == i as int);
                            assert(full.subrange(0, out@.len() as int + 1) =~= full.subrange(
                                0,
                                out@.len() as int,
                            ) + seq![i as int]);
                            assert(full =~= full.subrange(0, out@.len() as int + 1) + picked_rows(
                                lines@,
                                i + 1,
                                sat_i32(processed as int + 1),
                            ));
                        }
                        let ghost out_before = out@;
                        out.push(t);
                        processed = if processed == i32::MAX {
                            i32::MAX
                        } else {
                            processed + 1
                        };
                        proof {
                            let full = picked_rows(lines@, 0, 0);
                            assert forall|j: int| 0 <= j < out@.len() implies tick_of_row(
                                lines@,
                                full[j],
                                #[trigger] out@[j],
                            ) by {
                                if j < out_before.len() {
                                    assert(out@[j] == out_before[j]);
                                    assert(tick_of_row(lines@, full[j], out_before[j]));
                                } else {
                                    assert(out@[j] == t);
                                    assert(full[j] == i as int);
                                    assert(tick_of_row(lines@, i as int, t));
                                }
                            }
                        }
                    },
                    None => {
                    },
                }
            }
        }
        i = i + 1;
    }
    out
}

/// Parse one replay row into a tick, by [`row_spec`].
pub fn parse_tick_row(line: &str) -> (r: Option<Tick>)
    ensures
        r is Some <==> row_spec(line@) is Some,
        r matches Some(t) ==> {
            &&& row_spec(line@) matches Some(p)
            &&& t.symbol@ == p.0
            &&& t.price == p.1
            &&& t.volume == p.2
            &&& t.timestamp == p.3
        },
{
    let n = line.unicode_len();
    let c1 = first_at_x(line, 0, ',');
    if c1 >= n {
        return None;
    }
    let c2 = first_at_x(line, c1 + 1, ',');
    if c2 >= n {
        return None;
    }
    let c3 = first_at_x(line, c2 + 1, ',');
    if c3 >= n {
        return None;
    }
    let c4 = first_at_x(line, c3 + 1, ',');
    let symbol = trimmed_field(line, 0, c1);
    let price = field_value(line, c1 + 1, c2);
    let volume = field_value(line, c2 + 1, c3);
    let timestamp = field_value(line, c3 + 1, c4);
    Some(Tick { symbol, price, volume, timestamp })
}

} // verus!
