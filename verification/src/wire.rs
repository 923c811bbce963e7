//! The wire form of ticks and signals: a JSON object per value.
//!
//! Numbers are canonical fixed-point decimals (nine fractional
//! digits), strings escape quotes, backslashes and control
//! characters, and absent optional fields are omitted entirely
//! rather than written as null — except the indicator averages,
//! which are null before their first observation, as the snapshot
//! defines them. The emitter is exact: [`signal_json`] *is* the wire
//! format. The reader accepts exactly what the emitter writes: it
//! re-renders its candidate and compares, so anything it returns
//! serializes back to the given text.

use vstd::prelude::*;
use vstd::string::{StringExecFns, StrSliceExecFns};

use crate::patterns::PatternMeta;
use crate::signal::{Signal, SignalMeta, Tick};
use crate::text::{digit_char, digits_range_val_x, fx_text, fx_text_of, str_eq};

verus! {

/// The hexadecimal digit character for a value in `0 .. 16`.
pub open spec fn hex_char(d: int) -> char {
    if d < 10 {
        digit_char(d)
    } else if d == 10 {
        'a'
    } else if d == 11 {
        'b'
    } else if d == 12 {
        'c'
    } else if d == 13 {
        'd'
    } else if d == 14 {
        'e'
    } else {
        'f'
    }
}

/// The escape of one character: quotes and backslashes get a
/// backslash, control characters a four-digit escape, anything else
/// stands as it is.
pub open spec fn esc_char(c: char) -> Seq<char> {
    if c == '"' {
        seq!['\\', '"']
    } else if c == '\\' {
        seq!['\\', '\\']
    } else if (c as int) < 32 {
        seq!['\\', 'u', '0', '0', hex_char((c as int) / 16), hex_char((c as int) % 16)]
    } else {
        seq![c]
    }
}

/// The escape of a string, character by character.
pub open spec fn esc(s: Seq<char>) -> Seq<char>
    decreases s.len(),
{
    if s.len() == 0 {
        Seq::empty()
    } else {
        esc_char(s[0]) + esc(s.drop_first())
    }
}

/// Escaping one more character extends the escape at the end.
pub proof fn lemma_esc_snoc(s: Seq<char>, c: char)
    ensures
        esc(s.push(c)) == esc(s) + esc_char(c),
    decreases s.len(),
{
    if s.len() == 0 {
        assert(s.push(c)[0] == c);
        assert(s.push(c).drop_first() =~= s);
        assert(esc(s) == Seq::<char>::empty());
        assert(esc_char(c) =~= Seq::<char>::empty() + esc_char(c));
    } else {
        assert(s.push(c)[0] == s[0]);
        assert(s.push(c).drop_first() =~= s.drop_first().push(c));
        lemma_esc_snoc(s.drop_first(), c);
        assert(esc_char(s[0]) + (esc(s.drop_first()) + esc_char(c)) =~= (esc_char(s[0]) + esc(
            s.drop_first(),
        )) + esc_char(c));
    }
}

/// A string in its quotes, escaped.
pub open spec fn json_str(s: Seq<char>) -> Seq<char> {
    seq!['"'] + esc(s) + seq!['"']
}

/// A character's code point is never negative.
proof fn char_code_nonneg(c: char)
    ensures
        c as int >= 0,
{
}

/// The escape of a character never begins with a quote, and a
/// one-character escape is the character itself, never a backslash.
proof fn lemma_esc_char_shape(c: char)
    ensures
        esc_char(c).len() == 1 || esc_char(c).len() == 2 || esc_char(c).len() == 6,
        esc_char(c)[0] != '"',
        esc_char(c).len() == 1 ==> esc_char(c)[0] == c && c != '"' && c != '\\',
        esc_char(c).len() >= 2 ==> esc_char(c)[0] == '\\',
{
}

/// An escaped string followed by its closing quote reads back one
/// way only: the source strings and the remainders agree.
pub proof fn lemma_esc_unambiguous(s1: Seq<char>, s2: Seq<char>, t1: Seq<char>, t2: Seq<char>)
    requires
        esc(s1) + seq!['"'] + t1 == esc(s2) + seq!['"'] + t2,
    ensures
        s1 == s2,
        t1 == t2,
    decreases s1.len() + s2.len(),
{
    let w1 = esc(s1) + seq!['"'] + t1;
    let w2 = esc(s2) + seq!['"'] + t2;
    if s1.len() == 0 && s2.len() == 0 {
        assert(esc(s1) == Seq::<char>::empty());
        assert(esc(s2) == Seq::<char>::empty());
        assert(s1 =~= s2);
        crate::text::lemma_concat_cancel(
            Seq::<char>::empty() + seq!['"'],
            t1,
            Seq::<char>::empty() + seq!['"'],
            t2,
        );
    } else if s1.len() == 0 {
        lemma_esc_char_shape(s2[0]);
        assert(w1[0] == '"');
        assert(w2[0] == esc_char(s2[0])[0]);
        assert(false);
    } else if s2.len() == 0 {
        lemma_esc_char_shape(s1[0]);
        assert(w2[0] == '"');
        assert(w1[0] == esc_char(s1[0])[0]);
        assert(false);
    } else {
        let c1 = s1[0];
        let c2 = s2[0];
        let e1 = esc_char(c1);
        let e2 = esc_char(c2);
        lemma_esc_char_shape(c1);
        lemma_esc_char_shape(c2);
        assert(w1 =~= e1 + (esc(s1.drop_first()) + seq!['"'] + t1));
        assert(w2 =~= e2 + (esc(s2.drop_first()) + seq!['"'] + t2));
        assert(forall|k: int| 0 <= k < e1.len() ==> w1[k] == e1[k]);
        assert(forall|k: int| 0 <= k < e2.len() ==> w2[k] == e2[k]);
        if e1.len() == 1 && e2.len() == 1 {
            assert(c1 == c2);
        } else if e1.len() == 1 {
            assert(w1[0] == c1 && c1 != '\\');
            assert(w2[0] == '\\');
            assert(false);
        } else if e2.len() == 1 {
            assert(w2[0] == c2 && c2 != '\\');
            assert(w1[0] == '\\');
            assert(false);
        } else if e1.len() == 2 && e2.len() == 6 {
            assert(w1[1] == e1[1] && (e1[1] == '"' || e1[1] == '\\'));
            assert(w2[1] == 'u');
            assert(false);
        } else if e1.len() == 6 && e2.len() == 2 {
            assert(w2[1] == e2[1] && (e2[1] == '"' || e2[1] == '\\'));
            assert(w1[1] == 'u');
            assert(false);
        } else if e1.len() == 2 && e2.len() == 2 {
            assert(w1[1] == e1[1] && w2[1] == e2[1]);
            assert(c1 == c2);
        } else {
            assert(e1.len() == 6 && e2.len() == 6);
            assert(w1[4] == hex_char((c1 as int) / 16) && w1[5] == hex_char((c1 as int) % 16));
            assert(w2[4] == hex_char((c2 as int) / 16) && w2[5] == hex_char((c2 as int) % 16));
            assert((c1 as int) < 32) by {
                if c1 == '"' || c1 == '\\' {
                    assert(esc_char(c1).len() == 2);
                } else if (c1 as int) >= 32 {
                    assert(esc_char(c1).len() == 1);
                }
            }
            assert((c2 as int) < 32) by {
                if c2 == '"' || c2 == '\\' {
                    assert(esc_char(c2).len() == 2);
                } else if (c2 as int) >= 32 {
                    assert(esc_char(c2).len() == 1);
                }
            }
            char_code_nonneg(c1);
            char_code_nonneg(c2);
            vstd::arithmetic::div_mod::lemma_mod_division_less_than_divisor(c1 as int, 16);
            vstd::arithmetic::div_mod::lemma_mod_division_less_than_divisor(c2 as int, 16);
            crate::num::lemma_floor_div_in_range(c1 as int, 16);
            crate::num::lemma_floor_div_in_range(c2 as int, 16);
            vstd::arithmetic::div_mod::lemma_fundamental_div_mod_converse_div(31, 16, 1, 15);
            vstd::arithmetic::div_mod::lemma_div_is_ordered(c1 as int, 31, 16);
            vstd::arithmetic::div_mod::lemma_div_is_ordered(c2 as int, 31, 16);
            assert(0 <= (c1 as int) / 16 <= 1 && 0 <= (c2 as int) / 16 <= 1);
            assert((c1 as int) / 16 == (c2 as int) / 16 && (c1 as int) % 16 == (c2 as int) % 16);
            vstd::arithmetic::div_mod::lemma_fundamental_div_mod(c1 as int, 16);
            vstd::arithmetic::div_mod::lemma_fundamental_div_mod(c2 as int, 16);
            assert(c1 as int == 16 * ((c1 as int) / 16) + (c1 as int) % 16);
            assert(c2 as int == 16 * ((c2 as int) / 16) + (c2 as int) % 16);
            assert(c1 == c2);
        }
        assert(e1 == e2);
        crate::text::lemma_concat_cancel(
            e1,
            esc(s1.drop_first()) + seq!['"'] + t1,
            e2,
            esc(s2.drop_first()) + seq!['"'] + t2,
        );
        lemma_esc_unambiguous(s1.drop_first(), s2.drop_first(), t1, t2);
        assert(s1 =~= seq![c1] + s1.drop_first());
        assert(s2 =~= seq![c2] + s2.drop_first());
    }
}

/// A signal's wire text regrouped around its escaped id.
#[verifier::rlimit(100)]
#[verifier::spinoff_prover]
proof fn lemma_shape_id(x: Signal)
    ensures
        signal_json(x) == ("{\"id\":"@ + seq!['"']) + ((esc(x.id@) + seq!['"']) + tail_after_id(
            x,
        )),
{
    let l1 = "{\"id\":"@;
    let q: Seq<char> = seq!['"'];
    let e = esc(x.id@);
    let ta = tail_after_id(x);
    let l2 = ",\"symbol\":"@;
    let js = json_str(x.symbol@);
    let l3 = ",\"score\":"@;
    let f = fx_text(x.score as int);
    let l4 = ",\"pattern\":"@;
    let jp = json_str(x.pattern@);
    let l5 = ",\"timestamp\":"@;
    let ft = fx_text(x.timestamp as int);
    let suf = signal_json_suffix(x);
    // Hoist the id's pieces out of the left-nested rendering.
    let a0 = l1 + ((q + e) + q);
    crate::text::seq_assoc(l1, q + e, q);
    crate::text::seq_assoc(l1, q, e);
    assert(a0 == ((l1 + q) + e) + q);
    // Pull the head through the remaining segments one at a time.
    crate::text::seq_assoc(a0, l2, js);
    crate::text::seq_assoc(a0, l2 + js, l3);
    crate::text::seq_assoc(a0, (l2 + js) + l3, f);
    crate::text::seq_assoc(a0, ((l2 + js) + l3) + f, l4);
    crate::text::seq_assoc(a0, (((l2 + js) + l3) + f) + l4, jp);
    crate::text::seq_assoc(a0, ((((l2 + js) + l3) + f) + l4) + jp, l5);
    crate::text::seq_assoc(a0, (((((l2 + js) + l3) + f) + l4) + jp) + l5, ft);
    crate::text::seq_assoc(a0, ((((((l2 + js) + l3) + f) + l4) + jp) + l5) + ft, suf);
    assert(signal_json(x) == a0 + ta);
    crate::text::seq_assoc((l1 + q) + e, q, ta);
    crate::text::seq_assoc(l1 + q, e, q + ta);
    crate::text::seq_assoc(e, q, ta);
    assert(a0 + ta == (l1 + q) + ((e + q) + ta));
}

/// Stripping the id: equal wire texts share the id and everything
/// after it.
proof fn lemma_strip_id(a: Signal, b: Signal)
    requires
        signal_json(a) == signal_json(b),
    ensures
        a.id@ == b.id@,
        tail_after_id(a) == tail_after_id(b),
{
    lemma_shape_id(a);
    lemma_shape_id(b);
    let lit1 = "{\"id\":"@ + seq!['"'];
    crate::text::lemma_concat_cancel(
        lit1,
        (esc(a.id@) + seq!['"']) + tail_after_id(a),
        lit1,
        (esc(b.id@) + seq!['"']) + tail_after_id(b),
    );
    lemma_esc_unambiguous(a.id@, b.id@, tail_after_id(a), tail_after_id(b));
}

/// The text after the id regrouped around the escaped symbol.
#[verifier::rlimit(100)]
#[verifier::spinoff_prover]
proof fn lemma_shape_symbol(x: Signal)
    ensures
        tail_after_id(x) == (",\"symbol\":"@ + seq!['"']) + ((esc(x.symbol@) + seq!['"'])
            + tail_after_symbol(x)),
{
    let l2 = ",\"symbol\":"@;
    let q: Seq<char> = seq!['"'];
    let e = esc(x.symbol@);
    let ts = tail_after_symbol(x);
    let l3 = ",\"score\":"@;
    let f = fx_text(x.score as int);
    let l4 = ",\"pattern\":"@;
    let jp = json_str(x.pattern@);
    let l5 = ",\"timestamp\":"@;
    let ft = fx_text(x.timestamp as int);
    let suf = signal_json_suffix(x);
    let a0 = l2 + ((q + e) + q);
    crate::text::seq_assoc(l2, q + e, q);
    crate::text::seq_assoc(l2, q, e);
    assert(a0 == ((l2 + q) + e) + q);
    crate::text::seq_assoc(a0, l3, f);
    crate::text::seq_assoc(a0, l3 + f, l4);
    crate::text::seq_assoc(a0, (l3 + f) + l4, jp);
    crate::text::seq_assoc(a0, ((l3 + f) + l4) + jp, l5);
    crate::text::seq_assoc(a0, (((l3 + f) + l4) + jp) + l5, ft);
    crate::text::seq_assoc(a0, ((((l3 + f) + l4) + jp) + l5) + ft, suf);
    assert(tail_after_id(x) == a0 + ts);
    crate::text::seq_assoc((l2 + q) + e, q, ts);
    crate::text::seq_assoc(l2 + q, e, q + ts);
    crate::text::seq_assoc(e, q, ts);
    assert(a0 + ts == (l2 + q) + ((e + q) + ts));
}

/// Stripping the symbol: equal texts after the id share the symbol
/// and everything after it.
proof fn lemma_strip_symbol(a: Signal, b: Signal)
    requires
        tail_after_id(a) == tail_after_id(b),
    ensures
        a.symbol@ == b.symbol@,
        tail_after_symbol(a) == tail_after_symbol(b),
{
    lemma_shape_symbol(a);
    lemma_shape_symbol(b);
    let lit2 = ",\"symbol\":"@ + seq!['"'];
    crate::text::lemma_concat_cancel(
        lit2,
        (esc(a.symbol@) + seq!['"']) + tail_after_symbol(a),
        lit2,
        (esc(b.symbol@) + seq!['"']) + tail_after_symbol(b),
    );
    lemma_esc_unambiguous(a.symbol@, b.symbol@, tail_after_symbol(a), tail_after_symbol(b));
}

/// Stripping the score: equal texts after the symbol share the score.
#[verifier::rlimit(100)]
#[verifier::spinoff_prover]
proof fn lemma_strip_score(a: Signal, b: Signal)
    requires
        tail_after_symbol(a) == tail_after_symbol(b),
    ensures
        a.score == b.score,
{
    reveal_strlit(",\"score\":");
    let lit3 = ",\"score\":"@;
    let na = tail_after_score(a);
    let nb = tail_after_score(b);
    assert(tail_after_symbol(a) =~= lit3 + (fx_text(a.score as int) + na));
    assert(tail_after_symbol(b) =~= lit3 + (fx_text(b.score as int) + nb));
    crate::text::lemma_concat_cancel(
        lit3,
        fx_text(a.score as int) + na,
        lit3,
        fx_text(b.score as int) + nb,
    );
    crate::text::lemma_fx_text_unambiguous(a.score as int, b.score as int, na, nb);
}

/// Law: the wire text of a signal determines its identity and score.
/// Two signals with the same wire text share `id`, `symbol` and
/// `score`; with the reader's own guarantee, whatever
/// [`signal_from_json`] returns for a signal's wire text carries
/// that signal's `id`, `symbol` and `score`.
pub proof fn lemma_wire_preserves_identity(a: Signal, b: Signal)
    requires
        signal_json(a) == signal_json(b),
    ensures
        a.id@ == b.id@,
        a.symbol@ == b.symbol@,
        a.score == b.score,
{
    lemma_strip_id(a, b);
    lemma_strip_symbol(a, b);
    lemma_strip_score(a, b);
}

/// The wire text of a signal after the quote closing its id.
spec fn tail_after_id(sig: Signal) -> Seq<char> {
    ",\"symbol\":"@ + json_str(sig.symbol@) + ",\"score\":"@ + fx_text(sig.score as int)
        + ",\"pattern\":"@ + json_str(sig.pattern@) + ",\"timestamp\":"@ + fx_text(
        sig.timestamp as int,
    ) + signal_json_suffix(sig)
}

/// The wire text of a signal after the quote closing its symbol.
spec fn tail_after_symbol(sig: Signal) -> Seq<char> {
    ",\"score\":"@ + fx_text(sig.score as int) + ",\"pattern\":"@ + json_str(sig.pattern@)
        + ",\"timestamp\":"@ + fx_text(sig.timestamp as int) + signal_json_suffix(sig)
}

/// The wire text of a signal after its score.
spec fn tail_after_score(sig: Signal) -> Seq<char> {
    ",\"pattern\":"@ + json_str(sig.pattern@) + ",\"timestamp\":"@ + fx_text(sig.timestamp as int)
        + signal_json_suffix(sig)
}


/// An optional number: a canonical decimal, or null.
pub open spec fn opt_num(v: Option<i64>) -> Seq<char> {
    match v {
        None => "null"@,
        Some(x) => fx_text(x as int),
    }
}

/// The wire form of an indicator snapshot.
pub open spec fn meta_json(m: SignalMeta) -> Seq<char> {
    "{\"ema_fast\":"@ + opt_num(m.ema_fast) + ",\"ema_slow\":"@ + opt_num(m.ema_slow)
        + ",\"vwap\":"@ + opt_num(m.vwap) + ",\"volume\":"@ + fx_text(m.volume as int)
        + ",\"volatility\":"@ + fx_text(m.volatility as int) + (match m.rsi {
        None => Seq::<char>::empty(),
        Some(x) => ",\"rsi\":"@ + fx_text(x as int),
    }) + (match m.atr {
        None => Seq::<char>::empty(),
        Some(x) => ",\"atr\":"@ + fx_text(x as int),
    }) + "}"@
}

/// The wire form of a list of strings.
pub open spec fn str_array(tags: Seq<String>, i: int) -> Seq<char>
    decreases tags.len() - i,
{
    if i < 0 || i >= tags.len() {
        Seq::empty()
    } else {
        (if i > 0 {
            ","@
        } else {
            Seq::<char>::empty()
        }) + json_str(tags[i]@) + str_array(tags, i + 1)
    }
}

/// The wire form of a list of numbers.
pub open spec fn num_array(xs: Seq<i64>, i: int) -> Seq<char>
    decreases xs.len() - i,
{
    if i < 0 || i >= xs.len() {
        Seq::empty()
    } else {
        (if i > 0 {
            ","@
        } else {
            Seq::<char>::empty()
        }) + fx_text(xs[i] as int) + num_array(xs, i + 1)
    }
}

/// The wire form of pattern metadata.
pub open spec fn pattern_meta_json(p: PatternMeta) -> Seq<char> {
    "{\"name\":"@ + json_str(p.name@) + ",\"description\":"@ + json_str(p.description@)
        + ",\"tags\":["@ + str_array(p.tags@, 0) + "],\"strength\":"@ + fx_text(p.strength as int)
        + ",\"polarity\":"@ + fx_text(p.polarity as int) + ",\"action\":"@ + json_str(p.action@)
        + ",\"confidence\":"@ + fx_text(p.confidence as int) + ",\"features\":["@ + num_array(
        p.features@,
        0,
    ) + "]}"@
}

/// What follows a signal's timestamp on the wire: the optional
/// snapshot and pattern metadata, then the closing brace. Absent
/// optional fields are omitted entirely.
pub open spec fn signal_json_suffix(sig: Signal) -> Seq<char> {
    (match sig.meta {
        None => Seq::<char>::empty(),
        Some(m) => ",\"meta\":"@ + meta_json(m),
    }) + (match sig.pattern_meta {
        None => Seq::<char>::empty(),
        Some(p) => ",\"pattern_meta\":"@ + pattern_meta_json(p),
    }) + "}"@
}

/// The wire form of a signal.
pub open spec fn signal_json(sig: Signal) -> Seq<char> {
    "{\"id\":"@ + json_str(sig.id@) + ",\"symbol\":"@ + json_str(sig.symbol@) + ",\"score\":"@
        + fx_text(sig.score as int) + ",\"pattern\":"@ + json_str(sig.pattern@)
        + ",\"timestamp\":"@ + fx_text(sig.timestamp as int) + signal_json_suffix(sig)
}

/// The wire form of a tick.
pub open spec fn tick_json(t: Tick) -> Seq<char> {
    "{\"symbol\":"@ + json_str(t.symbol@) + ",\"price\":"@ + fx_text(t.price as int)
        + ",\"volume\":"@ + fx_text(t.volume as int) + ",\"timestamp\":"@ + fx_text(
        t.timestamp as int,
    ) + "}"@
}

/// The one-character string for a hexadecimal digit.
fn hex_str(d: u32) -> (r: &'static str)
    requires
        d < 16,
    ensures
        r@ == seq![hex_char(d as int)],
{
    proof {
        reveal_strlit("0");
        reveal_strlit("1");
        reveal_strlit("2");
        reveal_strlit("3");
        reveal_strlit("4");
        reveal_strlit("5");
        reveal_strlit("6");
        reveal_strlit("7");
        reveal_strlit("8");
        reveal_strlit("9");
        reveal_strlit("a");
        reveal_strlit("b");
        reveal_strlit("c");
        reveal_strlit("d");
        reveal_strlit("e");
        reveal_strlit("f");
    }
    match d {
        0 => "0",
        1 => "1",
        2 => "2",
        3 => "3",
        4 => "4",
        5 => "5",
        6 => "6",
        7 => "7",
        8 => "8",
        9 => "9",
        10 => "a",
        11 => "b",
        12 => "c",
        13 => "d",
        14 => "e",
        _ => "f",
    }
}

/// Escape a string for the wire, exactly as [`esc`] spells it.
pub fn escape_str(s: &str) -> (r: String)
    ensures
        r@ == esc(s@),
{
    let n = s.unicode_len();
    let mut r = String::new();
    let mut i: usize = 0;
    while i < n
        invariant
            0 <= i <= n,
            n == s@.len(),
            r@ == esc(s@.subrange(0, i as int)),
        decreases n - i,
    {
        proof {
            reveal_strlit("\\\"");
            reveal_strlit("\\\\");
            reveal_strlit("\\u00");
            assert(s@.subrange(0, i + 1) =~= s@.subrange(0, i as int).push(s@[i as int]));
            lemma_esc_snoc(s@.subrange(0, i as int), s@[i as int]);
        }
        let c = s.get_char(i);
        if c == '"' {
            r.append("\\\"");
        } else if c == '\\' {
            r.append("\\\\");
        } else if (c as u32) < 32 {
            r.append("\\u00");
            r.append(hex_str((c as u32) / 16));
            r.append(hex_str((c as u32) % 16));
        } else {
            r.append(s.substring_char(i, i + 1));
            proof {
                assert(s@.subrange(i as int, i + 1) =~= seq![s@[i as int]]);
            }
        }
        proof {
            assert(r@ =~= esc(s@.subrange(0, i as int)) + esc_char(s@[i as int]));
        }
        i = i + 1;
    }
    proof {
        assert(s@.subrange(0, n as int) =~= s@);
    }
    r
}

/// A string in its quotes, escaped, as executable code.
fn quoted(s: &str) -> (r: String)
    ensures
        r@ == json_str(s@),
{
    proof {
        reveal_strlit("\"");
    }
    let mut r = String::from_str("\"");
    r.append(escape_str(s).as_str());
    r.append("\"");
    proof {
        assert(r@ =~= json_str(s@));
    }
    r
}

/// An optional number on the wire, as executable code.
fn opt_num_x(v: Option<i64>) -> (r: String)
    ensures
        r@ == opt_num(v),
{
    match v {
        None => String::from_str("null"),
        Some(x) => fx_text_of(x),
    }
}

/// Render an indicator snapshot, exactly as [`meta_json`] spells it.
pub fn meta_to_json(m: &SignalMeta) -> (r: String)
    ensures
        r@ == meta_json(*m),
{
    let mut r = String::from_str("{\"ema_fast\":");
    r.append(opt_num_x(m.ema_fast).as_str());
    r.append(",\"ema_slow\":");
    r.append(opt_num_x(m.ema_slow).as_str());
    r.append(",\"vwap\":");
    r.append(opt_num_x(m.vwap).as_str());
    r.append(",\"volume\":");
    r.append(fx_text_of(m.volume).as_str());
    r.append(",\"volatility\":");
    r.append(fx_text_of(m.volatility).as_str());
    match m.rsi {
        None => {},
        Some(x) => {
            r.append(",\"rsi\":");
            r.append(fx_text_of(x).as_str());
        },
    }
    match m.atr {
        None => {},
        Some(x) => {
            r.append(",\"atr\":");
            r.append(fx_text_of(x).as_str());
        },
    }
    r.append("}");
    proof {
        assert(r@ =~= meta_json(*m));
    }
    r
}

/// The wire form of the first `i` strings of a list.
pub open spec fn str_array_upto(tags: Seq<String>, i: int) -> Seq<char>
    decreases i,
{
    if i <= 0 {
        Seq::empty()
    } else {
        str_array_upto(tags, i - 1) + (if i - 1 > 0 {
            ","@
        } else {
            Seq::<char>::empty()
        }) + json_str(tags[i - 1]@)
    }
}

/// The wire form of the first `i` numbers of a list.
pub open spec fn num_array_upto(xs: Seq<i64>, i: int) -> Seq<char>
    decreases i,
{
    if i <= 0 {
        Seq::empty()
    } else {
        num_array_upto(xs, i - 1) + (if i - 1 > 0 {
            ","@
        } else {
            Seq::<char>::empty()
        }) + fx_text(xs[i - 1] as int)
    }
}

/// One more string extends the rendered list at the end.
proof fn lemma_str_array_upto_snoc(tags: Seq<String>, i: int)
    requires
        0 <= i < tags.len(),
    ensures
        str_array_upto(tags, i + 1) == str_array_upto(tags, i) + (if i > 0 {
            ","@
        } else {
            Seq::<char>::empty()
        }) + json_str(tags[i]@),
{
}

/// One more number extends the rendered list at the end.
proof fn lemma_num_array_upto_snoc(xs: Seq<i64>, i: int)
    requires
        0 <= i < xs.len(),
    ensures
        num_array_upto(xs, i + 1) == num_array_upto(xs, i) + (if i > 0 {
            ","@
        } else {
            Seq::<char>::empty()
        }) + fx_text(xs[i] as int),
{
}

/// The whole rendered list, front-first and back-first, agree.
proof fn lemma_str_array_eq(tags: Seq<String>, i: int)
    requires
        0 <= i <= tags.len(),
    ensures
        str_array_upto(tags, tags.len() as int) == str_array_upto(tags, i) + str_array(tags, i),
    decreases tags.len() - i,
{
    if i == tags.len() {
        assert(str_array(tags, i) == Seq::<char>::empty());
        assert(str_array_upto(tags, i) + Seq::<char>::empty() =~= str_array_upto(tags, i));
    } else {
        lemma_str_array_eq(tags, i + 1);
        lemma_str_array_upto_snoc(tags, i);
        assert(str_array_upto(tags, i) + ((if i > 0 {
            ","@
        } else {
            Seq::<char>::empty()
        }) + json_str(tags[i]@) + str_array(tags, i + 1)) =~= (str_array_upto(tags, i) + (if i
            > 0 {
            ","@
        } else {
            Seq::<char>::empty()
        }) + json_str(tags[i]@)) + str_array(tags, i + 1));
    }
}

/// The loop's rendering equals the specification's.
proof fn lemma_str_array_upto_all(tags: Seq<String>)
    ensures
        str_array_upto(tags, tags.len() as int) == str_array(tags, 0),
{
    lemma_str_array_eq(tags, 0);
    assert(Seq::<char>::empty() + str_array(tags, 0) =~= str_array(tags, 0));
}

/// The whole rendered number list, front-first and back-first, agree.
proof fn lemma_num_array_eq(xs: Seq<i64>, i: int)
    requires
        0 <= i <= xs.len(),
    ensures
        num_array_upto(xs, xs.len() as int) == num_array_upto(xs, i) + num_array(xs, i),
    decreases xs.len() - i,
{
    if i == xs.len() {
        assert(num_array(xs, i) == Seq::<char>::empty());
        assert(num_array_upto(xs, i) + Seq::<char>::empty() =~= num_array_upto(xs, i));
    } else {
        lemma_num_array_eq(xs, i + 1);
        lemma_num_array_upto_snoc(xs, i);
        assert(num_array_upto(xs, i) + ((if i > 0 {
            ","@
        } else {
            Seq::<char>::empty()
        }) + fx_text(xs[i] as int) + num_array(xs, i + 1)) =~= (num_array_upto(xs, i) + (if i
            > 0 {
            ","@
        } else {
            Seq::<char>::empty()
        }) + fx_text(xs[i] as int)) + num_array(xs, i + 1));
    }
}

/// The loop's number rendering equals the specification's.
proof fn lemma_num_array_upto_all(xs: Seq<i64>)
    ensures
        num_array_upto(xs, xs.len() as int) == num_array(xs, 0),
{
    lemma_num_array_eq(xs, 0);
    assert(Seq::<char>::empty() + num_array(xs, 0) =~= num_array(xs, 0));
}

/// Render pattern metadata, exactly as [`pattern_meta_json`] spells
/// it.
pub fn pattern_meta_to_json(p: &PatternMeta) -> (r: String)
    ensures
        r@ == pattern_meta_json(*p),
{
    let mut r = String::from_str("{\"name\":");
    r.append(quoted(p.name.as_str()).as_str());
    r.append(",\"description\":");
    r.append(quoted(p.description.as_str()).as_str());
    r.append(",\"tags\":[");
    let mut i: usize = 0;
    let ghost tags_head = r@;
    while i < p.tags.len()
        invariant
            0 <= i <= p.tags@.len(),
            r@ == tags_head + str_array_upto(p.tags@, i as int),
        decreases p.tags@.len() - i,
    {
        proof {
            lemma_str_array_upto_snoc(p.tags@, i as int);
        }
        if i > 0 {
            r.append(",");
        }
        r.append(quoted(p.tags[i].as_str()).as_str());
        i = i + 1;
        proof {
            assert(r@ =~= tags_head + str_array_upto(p.tags@, i as int));
        }
    }
    proof {
        lemma_str_array_upto_all(p.tags@);
    }
    r.append("],\"strength\":");
    r.append(fx_text_of(p.strength).as_str());
    r.append(",\"polarity\":");
    r.append(fx_text_of(p.polarity).as_str());
    r.append(",\"action\":");
    r.append(quoted(p.action.as_str()).as_str());
    r.append(",\"confidence\":");
    r.append(fx_text_of(p.confidence).as_str());
    r.append(",\"features\":[");
    let mut j: usize = 0;
    let ghost feats_head = r@;
    while j < p.features.len()
        invariant
            0 <= j <= p.features@.len(),
            r@ == feats_head + num_array_upto(p.features@, j as int),
        decreases p.features@.len() - j,
    {
        proof {
            lemma_num_array_upto_snoc(p.features@, j as int);
        }
        if j > 0 {
            r.append(",");
        }
        r.append(fx_text_of(p.features[j]).as_str());
        j = j + 1;
        proof {
            assert(r@ =~= feats_head + num_array_upto(p.features@, j as int));
        }
    }
    proof {
        lemma_num_array_upto_all(p.features@);
    }
    r.append("]}");
    proof {
        assert(r@ =~= pattern_meta_json(*p));
    }
    r
}

/// Render a signal to the wire, exactly as [`signal_json`] spells
/// it.
pub fn signal_to_json(sig: &Signal) -> (r: String)
    ensures
        r@ == signal_json(*sig),
{
    let mut r = String::from_str("{\"id\":");
    r.append(quoted(sig.id.as_str()).as_str());
    r.append(",\"symbol\":");
    r.append(quoted(sig.symbol.as_str()).as_str());
    r.append(",\"score\":");
    r.append(fx_text_of(sig.score).as_str());
    r.append(",\"pattern\":");
    r.append(quoted(sig.pattern.as_str()).as_str());
    r.append(",\"timestamp\":");
    r.append(fx_text_of(sig.timestamp).as_str());
    match &sig.meta {
        None => {},
        Some(m) => {
            r.append(",\"meta\":");
            r.append(meta_to_json(m).as_str());
        },
    }
    match &sig.pattern_meta {
        None => {},
        Some(p) => {
            r.append(",\"pattern_meta\":");
            r.append(pattern_meta_to_json(p).as_str());
        },
    }
    r.append("}");
    proof {
        assert(r@ =~= signal_json(*sig));
    }
    r
}

/// Render a tick to the wire, exactly as [`tick_json`] spells it.
pub fn tick_to_json(t: &Tick) -> (r: String)
    ensures
        r@ == tick_json(*t),
{
    let mut r = String::from_str("{\"symbol\":");
    r.append(quoted(t.symbol.as_str()).as_str());
    r.append(",\"price\":");
    r.append(fx_text_of(t.price).as_str());
    r.append(",\"volume\":");
    r.append(fx_text_of(t.volume).as_str());
    r.append(",\"timestamp\":");
    r.append(fx_text_of(t.timestamp).as_str());
    r.append("}");
    proof {
        assert(r@ =~= tick_json(*t));
    }
    r
}

/// Splitting the text after a known prefix: if the tail at `i` is a
/// concatenation, the tail after the first part is the second.
pub proof fn lemma_skip_concat(s: Seq<char>, i: int, a: Seq<char>, b: Seq<char>)
    requires
        0 <= i <= s.len(),
        s.skip(i) == a + b,
    ensures
        i + a.len() <= s.len(),
        s.skip(i + a.len()) == b,
        forall|j: int| 0 <= j < a.len() ==> #[trigger] s[i + j] == a[j],
        a.len() > 0 ==> s[i] == a[0],
{
    assert(s.skip(i).len() == s.len() - i);
    assert forall|j: int| 0 <= j < a.len() implies #[trigger] s[i + j] == a[j] by {
        assert(s.skip(i)[j] == s[i + j]);
        assert((a + b)[j] == a[j]);
    }
    if a.len() > 0 {
        assert(s[i + 0] == a[0]);
    }
    assert forall|j: int| 0 <= j < b.len() implies s.skip(i + a.len())[j] == b[j] by {
        assert(s.skip(i + a.len())[j] == s[i + a.len() + j]);
        assert(s.skip(i)[a.len() + j] == s[i + a.len() + j]);
        assert((a + b)[a.len() + j] == b[j]);
    }
    assert(s.skip(i + a.len()) =~= b);
}

/// Position after a literal: succeeds exactly when the text carries
/// the literal at `i`, and then lands right after it.
fn expect_lit(s: &str, i: usize, lit: &str) -> (r: Option<usize>)
    requires
        i <= s@.len(),
    ensures
        r matches Some(j) ==> i <= j <= s@.len() && j == i + lit@.len(),
        r is Some <==> (i + lit@.len() <= s@.len() && s@.subrange(i as int, i + lit@.len())
            == lit@),
{
    let n = s.unicode_len();
    let m = lit.unicode_len();
    if n - i < m {
        return None;
    }
    let mut k: usize = 0;
    while k < m
        invariant
            0 <= k <= m,
            m == lit@.len(),
            i + m <= s@.len(),
            s@.len() <= usize::MAX,
            forall|q: int| 0 <= q < k ==> s@[i + q] == lit@[q],
        decreases m - k,
    {
        if s.get_char(i + k) != lit.get_char(k) {
            proof {
                assert(s@.subrange(i as int, i + m as int)[k as int] == s@[i + k]);
            }
            return None;
        }
        k = k + 1;
    }
    proof {
        assert(s@.subrange(i as int, i + m as int) =~= lit@);
    }
    Some(i + m)
}

/// The value of a hexadecimal digit character: exactly the inverse
/// of [`hex_char`] on its range.
fn hex_val(c: char) -> (r: Option<u32>)
    ensures
        r matches Some(v) ==> v < 16,
        forall|d: int| 0 <= d < 16 && c == hex_char(d) ==> r == Some(d as u32),
{
    match c {
        '0' => Some(0),
        '1' => Some(1),
        '2' => Some(2),
        '3' => Some(3),
        '4' => Some(4),
        '5' => Some(5),
        '6' => Some(6),
        '7' => Some(7),
        '8' => Some(8),
        '9' => Some(9),
        'a' => Some(10),
        'b' => Some(11),
        'c' => Some(12),
        'd' => Some(13),
        'e' => Some(14),
        'f' => Some(15),
        _ => None,
    }
}

/// The one-character string for a control character code.
fn ctrl_str(code: u32) -> (r: &'static str)
    requires
        code < 32,
    ensures
        r@.len() == 1,
        r@[0] as int == code,
{
    proof {
        reveal_strlit("\u{0}");
        reveal_strlit("\u{1}");
        reveal_strlit("\u{2}");
        reveal_strlit("\u{3}");
        reveal_strlit("\u{4}");
        reveal_strlit("\u{5}");
        reveal_strlit("\u{6}");
        reveal_strlit("\u{7}");
        reveal_strlit("\u{8}");
        reveal_strlit("\u{9}");
        reveal_strlit("\u{a}");
        reveal_strlit("\u{b}");
        reveal_strlit("\u{c}");
        reveal_strlit("\u{d}");
        reveal_strlit("\u{e}");
        reveal_strlit("\u{f}");
        reveal_strlit("\u{10}");
        reveal_strlit("\u{11}");
        reveal_strlit("\u{12}");
        reveal_strlit("\u{13}");
        reveal_strlit("\u{14}");
        reveal_strlit("\u{15}");
        reveal_strlit("\u{16}");
        reveal_strlit("\u{17}");
        reveal_strlit("\u{18}");
        reveal_strlit("\u{19}");
        reveal_strlit("\u{1a}");
        reveal_strlit("\u{1b}");
        reveal_strlit("\u{1c}");
        reveal_strlit("\u{1d}");
        reveal_strlit("\u{1e}");
        reveal_strlit("\u{1f}");
    }
    match code {
        0 => "\u{0}",
        1 => "\u{1}",
        2 => "\u{2}",
        3 => "\u{3}",
        4 => "\u{4}",
        5 => "\u{5}",
        6 => "\u{6}",
        7 => "\u{7}",
        8 => "\u{8}",
        9 => "\u{9}",
        10 => "\u{a}",
        11 => "\u{b}",
        12 => "\u{c}",
        13 => "\u{d}",
        14 => "\u{e}",
        15 => "\u{f}",
        16 => "\u{10}",
        17 => "\u{11}",
        18 => "\u{12}",
        19 => "\u{13}",
        20 => "\u{14}",
        21 => "\u{15}",
        22 => "\u{16}",
        23 => "\u{17}",
        24 => "\u{18}",
        25 => "\u{19}",
        26 => "\u{1a}",
        27 => "\u{1b}",
        28 => "\u{1c}",
        29 => "\u{1d}",
        30 => "\u{1e}",
        _ => "\u{1f}",
    }
}

/// A quoted string read from position `i`, unescaped, with the
/// position after its closing quote. When the text at `i` is known
/// to carry a quoted string and a remainder, the read succeeds with
/// exactly that string and lands exactly after its closing quote.
#[verifier::rlimit(100)]
#[verifier::spinoff_prover]
fn read_string(s: &str, i: usize, Ghost(hint): Ghost<Option<(Seq<char>, Seq<char>)>>) -> (r:
    Option<(String, usize)>)
    requires
        i <= s@.len(),
        hint matches Some(h) ==> s@.skip(i as int) == json_str(h.0) + h.1,
    ensures
        r matches Some(p) ==> i <= p.1 <= s@.len(),
        hint matches Some(h) ==> (r matches Some(p) && p.0@ == h.0 && p.1 == i + json_str(
            h.0,
        ).len()),
{
    let n = s.unicode_len();
    proof {
        if let Some(h) = hint {
            let q: Seq<char> = seq!['"'];
            crate::text::seq_assoc(q + esc(h.0), q, h.1);
            crate::text::seq_assoc(q, esc(h.0), q + h.1);
            assert(s@.skip(i as int) == q + (esc(h.0) + (q + h.1)));
            lemma_skip_concat(s@, i as int, q, esc(h.0) + (q + h.1));
            assert(s@[i as int] == '"');
        }
    }
    if i >= n || s.get_char(i) != '"' {
        proof {
            if let Some(h) = hint {
                assert(false);
            }
        }
        return None;
    }
    let mut out = String::new();
    let mut k: usize = i + 1;
    let ghost mut remaining: Seq<char> = match hint {
        Some(h) => h.0,
        None => Seq::empty(),
    };
    proof {
        if let Some(h) = hint {
            assert(out@ + remaining =~= h.0);
        }
    }
    while k < n
        invariant
            i + 1 <= k <= n,
            n == s@.len(),
            hint matches Some(h) ==> {
                &&& out@ + remaining == h.0
                &&& s@.skip(k as int) == esc(remaining) + (seq!['"'] + h.1)
                &&& n - i == 2 + esc(h.0).len() + h.1.len()
            },
        decreases n - k,
    {
        proof {
            if let Some(h) = hint {
                if remaining.len() == 0 {
                    assert(esc(remaining) == Seq::<char>::empty());
                    assert(esc(remaining) + (seq!['"'] + h.1) =~= seq!['"'] + h.1);
                    lemma_skip_concat(s@, k as int, seq!['"'], h.1);
                    assert(s@[k as int] == '"');
                } else {
                    let c0 = remaining[0];
                    lemma_esc_char_shape(c0);
                    assert(esc(remaining) == esc_char(c0) + esc(remaining.drop_first()));
                    crate::text::seq_assoc(
                        esc_char(c0),
                        esc(remaining.drop_first()),
                        seq!['"'] + h.1,
                    );
                    lemma_skip_concat(
                        s@,
                        k as int,
                        esc_char(c0),
                        esc(remaining.drop_first()) + (seq!['"'] + h.1),
                    );
                    assert(s@[k as int] == esc_char(c0)[0]);
                }
            }
        }
        let c = s.get_char(k);
        if c == '"' {
            proof {
                if let Some(h) = hint {
                    assert(remaining.len() == 0);
                    assert(out@ + remaining =~= out@);
                    assert(json_str(h.0).len() == 2 + esc(h.0).len());
                    assert(s@.skip(k as int).len() == 1 + h.1.len());
                    assert(k + 1 == i + json_str(h.0).len());
                }
            }
            return Some((out, k + 1));
        }
        if c == '\\' {
            proof {
                if let Some(h) = hint {
                    assert(remaining.len() > 0);
                }
            }
            if k + 1 >= n {
                proof {
                    if let Some(h) = hint {
                        assert(esc_char(remaining[0]).len() >= 2);
                        assert(false);
                    }
                }
                return None;
            }
            let d = s.get_char(k + 1);
            if d == '"' {
                proof {
                    reveal_strlit("\"");
                    if let Some(h) = hint {
                        let c0 = remaining[0];
                        assert(esc_char(c0).len() >= 2 && s@[k + 1] == esc_char(c0)[1]);
                        assert(c0 == '"');
                        assert(out@ + seq!['"'] =~= out@.push('"'));
                        assert((out@ + seq![c0]) + remaining.drop_first() =~= out@ + remaining);
                        lemma_skip_concat(s@, k as int, esc_char(c0), esc(remaining.drop_first()) + (
                        seq!['"'] + h.1));
                        remaining = remaining.drop_first();
                    }
                }
                out.append("\"");
                k = k + 2;
            } else if d == '\\' {
                proof {
                    reveal_strlit("\\");
                    if let Some(h) = hint {
                        let c0 = remaining[0];
                        assert(esc_char(c0).len() >= 2 && s@[k + 1] == esc_char(c0)[1]);
                        assert(c0 == '\\');
                        assert(out@ + seq!['\\'] =~= out@.push('\\'));
                        assert((out@ + seq![c0]) + remaining.drop_first() =~= out@ + remaining);
                        lemma_skip_concat(s@, k as int, esc_char(c0), esc(remaining.drop_first()) + (
                        seq!['"'] + h.1));
                        remaining = remaining.drop_first();
                    }
                }
                out.append("\\");
                k = k + 2;
            } else if d == 'u' {
                proof {
                    if let Some(h) = hint {
                        let c0 = remaining[0];
                        assert(s@[k + 1] == esc_char(c0)[1]);
                        assert(esc_char(c0).len() == 6);
                        assert((c0 as int) < 32);
                        char_code_nonneg(c0);
                        assert(s@[k + 2] == '0' && s@[k + 3] == '0');
                        assert(s@[k + 4] == hex_char((c0 as int) / 16));
                        assert(s@[k + 5] == hex_char((c0 as int) % 16));
                        vstd::arithmetic::div_mod::lemma_mod_division_less_than_divisor(
                            c0 as int,
                            16,
                        );
                        crate::num::lemma_floor_div_in_range(c0 as int, 16);
                        vstd::arithmetic::div_mod::lemma_fundamental_div_mod_converse_div(
                            31,
                            16,
                            1,
                            15,
                        );
                        vstd::arithmetic::div_mod::lemma_div_is_ordered(c0 as int, 31, 16);
                        vstd::arithmetic::div_mod::lemma_fundamental_div_mod(c0 as int, 16);
                    }
                }
                if n - k < 6 {
                    proof {
                        if let Some(h) = hint {
                            assert(false);
                        }
                    }
                    return None;
                }
                if s.get_char(k + 2) != '0' || s.get_char(k + 3) != '0' {
                    proof {
                        if let Some(h) = hint {
                            assert(false);
                        }
                    }
                    return None;
                }
                let h1 = match hex_val(s.get_char(k + 4)) {
                    Some(v) => v,
                    None => {
                        proof {
                            if let Some(h) = hint {
                                assert(false);
                            }
                        }
                        return None;
                    },
                };
                let h2 = match hex_val(s.get_char(k + 5)) {
                    Some(v) => v,
                    None => {
                        proof {
                            if let Some(h) = hint {
                                assert(false);
                            }
                        }
                        return None;
                    },
                };
                let code = h1 * 16 + h2;
                if code >= 32 {
                    proof {
                        if let Some(h) = hint {
                            assert(code as int == remaining[0] as int);
                            assert(false);
                        }
                    }
                    return None;
                }
                let piece = ctrl_str(code);
                proof {
                    if let Some(h) = hint {
                        let c0 = remaining[0];
                        assert(code as int == c0 as int);
                        assert(piece@[0] == c0);
                        assert(piece@ =~= seq![c0]);
                        assert(out@ + seq![c0] =~= out@.push(c0));
                        assert((out@ + seq![c0]) + remaining.drop_first() =~= out@ + remaining);
                        lemma_skip_concat(s@, k as int, esc_char(c0), esc(remaining.drop_first()) + (
                        seq!['"'] + h.1));
                        remaining = remaining.drop_first();
                    }
                }
                out.append(piece);
                k = k + 6;
            } else {
                proof {
                    if let Some(h) = hint {
                        let c0 = remaining[0];
                        assert(s@[k + 1] == esc_char(c0)[1]);
                        assert(esc_char(c0)[1] == '"' || esc_char(c0)[1] == '\\' || esc_char(
                            c0,
                        )[1] == 'u');
                        assert(false);
                    }
                }
                return None;
            }
        } else {
            proof {
                if let Some(h) = hint {
                    let c0 = remaining[0];
                    assert(remaining.len() > 0);
                    assert(esc_char(c0).len() == 1);
                    assert(c0 == s@[k as int]);
                    assert(s@.subrange(k as int, k + 1) =~= seq![c0]);
                    assert(out@ + seq![c0] =~= out@.push(c0));
                    assert((out@ + seq![c0]) + remaining.drop_first() =~= out@ + remaining);
                    lemma_skip_concat(s@, k as int, esc_char(c0), esc(remaining.drop_first()) + (
                    seq!['"'] + h.1));
                    remaining = remaining.drop_first();
                }
            }
            out.append(s.substring_char(k, k + 1));
            k = k + 1;
        }
    }
    proof {
        if let Some(h) = hint {
            assert(s@.skip(k as int).len() >= 1);
            assert(false);
        }
    }
    None
}

/// The first position at or after `i` holding a non-digit, or the
/// length when there is none.
spec fn first_nondigit(s: Seq<char>, i: int) -> int
    decreases s.len() - i,
{
    if i < 0 || i >= s.len() {
        s.len() as int
    } else if !crate::text::is_digit(s[i]) {
        i
    } else {
        first_nondigit(s, i + 1)
    }
}

/// A run of digits followed by a non-digit (or the end) fixes where
/// the first non-digit stands.
proof fn lemma_first_nondigit_at(s: Seq<char>, i: int, len: int)
    requires
        0 <= i,
        0 <= len,
        i + len <= s.len(),
        forall|j: int| i <= j < i + len ==> crate::text::is_digit(#[trigger] s[j]),
        i + len == s.len() || !crate::text::is_digit(s[i + len]),
    ensures
        first_nondigit(s, i) == i + len,
    decreases len,
{
    if len > 0 {
        assert(crate::text::is_digit(s[i]));
        lemma_first_nondigit_at(s, i + 1, len - 1);
    }
}

/// The first non-digit position, as executable code.
fn first_nondigit_x(s: &str, i: usize) -> (r: usize)
    requires
        i <= s@.len(),
    ensures
        r == first_nondigit(s@, i as int),
        i <= r <= s@.len(),
    decreases s@.len() - i,
{
    let n = s.unicode_len();
    if i >= n {
        n
    } else if !crate::text::is_digit_x(s.get_char(i)) {
        i
    } else {
        first_nondigit_x(s, i + 1)
    }
}

/// A canonical decimal read from position `i`, with the position
/// after its last digit. When the text at `i` is known to carry a
/// canonical decimal and a remainder, the read succeeds with exactly
/// that value and lands exactly after the ninth fractional digit.
#[verifier::rlimit(100)]
#[verifier::spinoff_prover]
fn read_number(s: &str, i: usize, Ghost(hint): Ghost<Option<(i64, Seq<char>)>>) -> (r: Option<(
    i64,
    usize,
)>)
    requires
        i <= s@.len(),
        hint matches Some(h) ==> s@.skip(i as int) == fx_text(h.0 as int) + h.1,
    ensures
        r matches Some(p) ==> i <= p.1 <= s@.len(),
        hint matches Some(h) ==> (r matches Some(p) && p.0 == h.0 && p.1 == i + fx_text(
            h.0 as int,
        ).len()),
{
    let n = s.unicode_len();
    let ghost mv: int = match hint {
        Some(h) => if h.0 < 0 {
            -(h.0 as int)
        } else {
            h.0 as int
        },
        None => 0,
    };
    let ghost dd: Seq<char> = crate::text::dec_digits((mv / (crate::num::SCALE as int)) as nat);
    let ghost pd: Seq<char> = crate::text::dec_digits_pad(
        (mv % (crate::num::SCALE as int)) as nat,
        9,
    );
    let ghost sgn: Seq<char> = match hint {
        Some(h) => if h.0 < 0 {
            seq!['-']
        } else {
            Seq::empty()
        },
        None => Seq::empty(),
    };
    proof {
        if let Some(h) = hint {
            crate::text::lemma_dec_digits_are_digits((mv / (crate::num::SCALE as int)) as nat);
            crate::text::lemma_pad_shape((mv % (crate::num::SCALE as int)) as nat, 9);
            vstd::arithmetic::div_mod::lemma_mod_division_less_than_divisor(
                mv,
                crate::num::SCALE as int,
            );
            vstd::arithmetic::div_mod::lemma_fundamental_div_mod(mv, crate::num::SCALE as int);
            crate::num::lemma_floor_div_in_range(mv, crate::num::SCALE as int);
            crate::text::seq_assoc((sgn + dd) + seq!['.'], pd, h.1);
            crate::text::seq_assoc(sgn + dd, seq!['.'], pd + h.1);
            crate::text::seq_assoc(sgn, dd, seq!['.'] + (pd + h.1));
            assert(fx_text(h.0 as int) + h.1 == sgn + (dd + (seq!['.'] + (pd + h.1))));
            lemma_skip_concat(s@, i as int, sgn, dd + (seq!['.'] + (pd + h.1)));
            lemma_skip_concat(s@, i + sgn.len(), dd, seq!['.'] + (pd + h.1));
            lemma_skip_concat(s@, i + sgn.len() + dd.len(), seq!['.'], pd + h.1);
            lemma_skip_concat(s@, i + sgn.len() + dd.len() + 1, pd, h.1);
            assert(crate::text::is_digit(dd[0]) && dd[0] != '-');
        }
    }
    let neg = i < n && s.get_char(i) == '-';
    proof {
        if let Some(h) = hint {
            assert(neg == (h.0 < 0));
        }
    }
    let start_d: usize = if neg {
        i + 1
    } else {
        i
    };
    let e = first_nondigit_x(s, start_d);
    proof {
        if let Some(h) = hint {
            assert(start_d == i + sgn.len());
            assert forall|j: int| start_d <= j < start_d + dd.len() implies crate::text::is_digit(
                #[trigger] s@[j],
            ) by {
                assert(s@[start_d + (j - start_d)] == dd[j - start_d]);
            }
            assert(e as int == start_d + dd.len()) by {
                assert(s@[start_d + dd.len()] == '.');
                lemma_first_nondigit_at(s@, start_d as int, dd.len() as int);
            }
            crate::text::lemma_digits_val_offset(s@, start_d as int, e as int, dd);
            crate::text::lemma_dec_digits_value((mv / (crate::num::SCALE as int)) as nat);
        }
    }
    let ip = match digits_range_val_x(s, start_d, e) {
        Some(v) => v,
        None => {
            proof {
                if let Some(h) = hint {
                    assert(false);
                }
            }
            return None;
        },
    };
    if e == start_d {
        proof {
            if let Some(h) = hint {
                assert(false);
            }
        }
        return None;
    }
    if e >= n || s.get_char(e) != '.' {
        proof {
            if let Some(h) = hint {
                assert(false);
            }
        }
        return None;
    }
    if n - (e + 1) < 9 {
        proof {
            if let Some(h) = hint {
                assert(false);
            }
        }
        return None;
    }
    proof {
        if let Some(h) = hint {
            crate::text::lemma_digits_val_offset(s@, e + 1, e + 10, pd);
            crate::text::lemma_pow10_9();
            crate::text::lemma_pad_value((mv % (crate::num::SCALE as int)) as nat, 9);
        }
    }
    let fv = match digits_range_val_x(s, e + 1, e + 10) {
        Some(v) => v,
        None => {
            proof {
                if let Some(h) = hint {
                    assert(false);
                }
            }
            return None;
        },
    };
    let mag: i128 = ip * (crate::num::SCALE as i128) + fv;
    proof {
        assert(0 <= ip * (crate::num::SCALE as int) <= (i64::MAX as int) * 1_000_000_000)
            by (nonlinear_arith)
            requires
                0 <= ip <= i64::MAX,
        {}
        if let Some(h) = hint {
            assert(mag == mv);
        }
    }
    let v: i128 = if neg {
        -mag
    } else {
        mag
    };
    if v < i64::MIN as i128 || v > i64::MAX as i128 {
        proof {
            if let Some(h) = hint {
                assert(false);
            }
        }
        return None;
    }
    proof {
        if let Some(h) = hint {
            assert(v == h.0);
            assert(e + 10 == i + fx_text(h.0 as int).len());
        }
    }
    Some((v as i64, e + 10))
}

/// An optional number: a canonical decimal or the word null. When
/// the text at `i` is known to carry an optional number and a
/// remainder, the read succeeds with exactly that value.
fn read_opt_number(s: &str, i: usize, Ghost(hint): Ghost<Option<(Option<i64>, Seq<char>)>>) -> (r:
    Option<(Option<i64>, usize)>)
    requires
        i <= s@.len(),
        hint matches Some(h) ==> s@.skip(i as int) == opt_num(h.0) + h.1,
    ensures
        r matches Some(p) ==> i <= p.1 <= s@.len(),
        hint matches Some(h) ==> (r matches Some(p) && p.0 == h.0 && p.1 == i + opt_num(
            h.0,
        ).len()),
{
    proof {
        reveal_strlit("null");
        if let Some(h) = hint {
            match h.0 {
                None => {
                    lemma_skip_concat(s@, i as int, "null"@, h.1);
                    assert(s@.subrange(i as int, i + 4) =~= "null"@);
                },
                Some(x) => {
                    lemma_skip_concat(s@, i as int, fx_text(x as int), h.1);
                    let mg = if x < 0 {
                        -(x as int)
                    } else {
                        x as int
                    };
                    crate::text::lemma_dec_digits_are_digits(
                        (mg / (crate::num::SCALE as int)) as nat,
                    );
                    if x < 0 {
                        assert(fx_text(x as int)[0] == '-');
                    } else {
                        assert(fx_text(x as int)[0] == crate::text::dec_digits(
                            (mg / (crate::num::SCALE as int)) as nat,
                        )[0]);
                    }
                    assert(s@[i as int] != 'n');
                    if i + 4 <= s@.len() && s@.subrange(i as int, i + 4) == "null"@ {
                        assert(s@.subrange(i as int, i + 4)[0] == s@[i as int]);
                        assert(false);
                    }
                },
            }
        }
    }
    match expect_lit(s, i, "null") {
        Some(j) => {
            proof {
                if let Some(h) = hint {
                    if h.0 is Some {
                        assert(false);
                    }
                }
            }
            Some((None, j))
        },
        None => {
            let ghost inner: Option<(i64, Seq<char>)> = match hint {
                Some(h) => match h.0 {
                    Some(x) => Some((x, h.1)),
                    None => None,
                },
                None => None,
            };
            proof {
                if let Some(h) = hint {
                    if h.0 is None {
                        assert(false);
                    }
                }
            }
            match read_number(s, i, Ghost(inner)) {
                Some((v, j)) => Some((Some(v), j)),
                None => None,
            }
        },
    }
}

/// A snapshot's wire text with a remainder, regrouped so each field
/// can be peeled off the front in turn.
#[verifier::rlimit(100)]
#[verifier::spinoff_prover]
proof fn lemma_meta_shape(m: SignalMeta, rest: Seq<char>)
    ensures
        meta_json(m) + rest == "{\"ema_fast\":"@ + (opt_num(m.ema_fast) + (",\"ema_slow\":"@ + (
        opt_num(m.ema_slow) + (",\"vwap\":"@ + (opt_num(m.vwap) + (",\"volume\":"@ + (fx_text(
            m.volume as int,
        ) + (",\"volatility\":"@ + (fx_text(m.volatility as int) + ((match m.rsi {
            None => Seq::<char>::empty(),
            Some(x) => ",\"rsi\":"@ + fx_text(x as int),
        }) + ((match m.atr {
            None => Seq::<char>::empty(),
            Some(x) => ",\"atr\":"@ + fx_text(x as int),
        }) + ("}"@ + rest)))))))))))),
{
    let l1 = "{\"ema_fast\":"@;
    let a1 = opt_num(m.ema_fast);
    let l2 = ",\"ema_slow\":"@;
    let a2 = opt_num(m.ema_slow);
    let l3 = ",\"vwap\":"@;
    let a3 = opt_num(m.vwap);
    let l4 = ",\"volume\":"@;
    let b1 = fx_text(m.volume as int);
    let l5 = ",\"volatility\":"@;
    let b2 = fx_text(m.volatility as int);
    let rs = match m.rsi {
        None => Seq::<char>::empty(),
        Some(x) => ",\"rsi\":"@ + fx_text(x as int),
    };
    let at = match m.atr {
        None => Seq::<char>::empty(),
        Some(x) => ",\"atr\":"@ + fx_text(x as int),
    };
    let cb = "}"@;
    let p1 = l1 + a1;
    let p2 = p1 + l2;
    let p3 = p2 + a2;
    let p4 = p3 + l3;
    let p5 = p4 + a3;
    let p6 = p5 + l4;
    let p7 = p6 + b1;
    let p8 = p7 + l5;
    let p9 = p8 + b2;
    let p10 = p9 + rs;
    let p11 = p10 + at;
    crate::text::seq_assoc(p11, cb, rest);
    crate::text::seq_assoc(p10, at, cb + rest);
    crate::text::seq_assoc(p9, rs, at + (cb + rest));
    crate::text::seq_assoc(p8, b2, rs + (at + (cb + rest)));
    crate::text::seq_assoc(p7, l5, b2 + (rs + (at + (cb + rest))));
    crate::text::seq_assoc(p6, b1, l5 + (b2 + (rs + (at + (cb + rest)))));
    crate::text::seq_assoc(p5, l4, b1 + (l5 + (b2 + (rs + (at + (cb + rest))))));
    crate::text::seq_assoc(p4, a3, l4 + (b1 + (l5 + (b2 + (rs + (at + (cb + rest)))))));
    crate::text::seq_assoc(p3, l3, a3 + (l4 + (b1 + (l5 + (b2 + (rs + (at + (cb + rest))))))));
    crate::text::seq_assoc(
        p2,
        a2,
        l3 + (a3 + (l4 + (b1 + (l5 + (b2 + (rs + (at + (cb + rest)))))))),
    );
    crate::text::seq_assoc(
        p1,
        l2,
        a2 + (l3 + (a3 + (l4 + (b1 + (l5 + (b2 + (rs + (at + (cb + rest))))))))),
    );
    crate::text::seq_assoc(
        l1,
        a1,
        l2 + (a2 + (l3 + (a3 + (l4 + (b1 + (l5 + (b2 + (rs + (at + (cb + rest)))))))))),
    );
}

/// Whether the text at `i` carries a literal, stated over characters.
spec fn lit_at(s: Seq<char>, i: int, lit: Seq<char>) -> bool {
    i + lit.len() <= s.len() && s.subrange(i, i + lit.len()) == lit
}

/// A text that continues with a closing brace or a known different
/// literal does not carry the probed literal, whose prefix differs.
proof fn lemma_lit_differs(s: Seq<char>, i: int, lit: Seq<char>, j: int)
    requires
        0 <= i,
        0 <= j < lit.len(),
        i + j < s.len(),
        s[i + j] != lit[j],
    ensures
        !lit_at(s, i, lit),
{
    if lit_at(s, i, lit) {
        assert(s.subrange(i, i + lit.len())[j] == s[i + j]);
    }
}

/// The candidate snapshot read from an object at `i`. When the text
/// at `i` is known to carry a snapshot and a remainder, the read
/// succeeds with exactly that snapshot.
#[verifier::rlimit(100)]
#[verifier::spinoff_prover]
fn read_meta(s: &str, i: usize, Ghost(hint): Ghost<Option<(SignalMeta, usize)>>) -> (r: Option<(
    SignalMeta,
    usize,
)>)
    requires
        i <= s@.len(),
        hint matches Some(h) ==> h.1 <= s@.len() && s@.skip(i as int) == meta_json(h.0)
            + s@.skip(h.1 as int),
    ensures
        r matches Some(p) ==> i <= p.1 <= s@.len(),
        hint matches Some(h) ==> (r matches Some(p) && p.0 == h.0 && p.1 == i + meta_json(
            h.0,
        ).len()),
{
    let ghost m0: SignalMeta = match hint {
        Some(h) => h.0,
        None => SignalMeta {
            ema_fast: None,
            ema_slow: None,
            vwap: None,
            volume: 0,
            volatility: 0,
            rsi: None,
            atr: None,
        },
    };
    let ghost tail: Seq<char> = match hint {
        Some(h) => s@.skip(h.1 as int),
        None => Seq::empty(),
    };
    let ghost rs: Seq<char> = match m0.rsi {
        None => Seq::<char>::empty(),
        Some(x) => ",\"rsi\":"@ + fx_text(x as int),
    };
    let ghost at: Seq<char> = match m0.atr {
        None => Seq::<char>::empty(),
        Some(x) => ",\"atr\":"@ + fx_text(x as int),
    };
    proof {
        if let Some(h) = hint {
            lemma_meta_shape(m0, tail);
            lemma_skip_concat(
                s@,
                i as int,
                "{\"ema_fast\":"@,
                opt_num(m0.ema_fast) + (",\"ema_slow\":"@ + (opt_num(m0.ema_slow) + (",\"vwap\":"@
                    + (opt_num(m0.vwap) + (",\"volume\":"@ + (fx_text(m0.volume as int) + (
                ",\"volatility\":"@ + (fx_text(m0.volatility as int) + (rs + (at + ("}"@
                    + tail))))))))))),
            );
            lemma_skip_concat(
                s@,
                i + "{\"ema_fast\":"@.len(),
                opt_num(m0.ema_fast),
                ",\"ema_slow\":"@ + (opt_num(m0.ema_slow) + (",\"vwap\":"@ + (opt_num(m0.vwap) + (
                ",\"volume\":"@ + (fx_text(m0.volume as int) + (",\"volatility\":"@ + (fx_text(
                    m0.volatility as int,
                ) + (rs + (at + ("}"@ + tail)))))))))),
            );
            assert(lit_at(s@, i as int, "{\"ema_fast\":"@)) by {
                assert(s@.subrange(i as int, i + "{\"ema_fast\":"@.len()) =~= "{\"ema_fast\":"@);
            }
        }
    }
    let i = match expect_lit(s, i, "{\"ema_fast\":") {
        Some(j) => j,
        None => {
            proof {
                if let Some(h) = hint {
                    assert(false);
                }
            }
            return None;
        },
    };
    let (ema_fast, i) = match read_opt_number(
        s,
        i,
        Ghost(
            match hint {
                Some(h) => Some(
                    (
                        m0.ema_fast,
                        ",\"ema_slow\":"@ + (opt_num(m0.ema_slow) + (",\"vwap\":"@ + (opt_num(
                            m0.vwap,
                        ) + (",\"volume\":"@ + (fx_text(m0.volume as int) + (",\"volatility\":"@
                            + (fx_text(m0.volatility as int) + (rs + (at + ("}"@ + tail)))))))))),
                    ),
                ),
                None => None,
            },
        ),
    ) {
        Some(p) => p,
        None => {
            proof {
                if let Some(h) = hint {
                    assert(false);
                }
            }
            return None;
        },
    };
    proof {
        if let Some(h) = hint {
            lemma_skip_concat(
                s@,
                i as int,
                ",\"ema_slow\":"@,
                opt_num(m0.ema_slow) + (",\"vwap\":"@ + (opt_num(m0.vwap) + (",\"volume\":"@ + (
                fx_text(m0.volume as int) + (",\"volatility\":"@ + (fx_text(m0.volatility as int)
                    + (rs + (at + ("}"@ + tail))))))))),
            );
            lemma_skip_concat(
                s@,
                i + ",\"ema_slow\":"@.len(),
                opt_num(m0.ema_slow),
                ",\"vwap\":"@ + (opt_num(m0.vwap) + (",\"volume\":"@ + (fx_text(m0.volume as int)
                    + (",\"volatility\":"@ + (fx_text(m0.volatility as int) + (rs + (at + ("}"@
                    + tail)))))))),
            );
            assert(lit_at(s@, i as int, ",\"ema_slow\":"@)) by {
                assert(s@.subrange(i as int, i + ",\"ema_slow\":"@.len()) =~= ",\"ema_slow\":"@);
            }
        }
    }
    let i = match expect_lit(s, i, ",\"ema_slow\":") {
        Some(j) => j,
        None => {
            proof {
                if let Some(h) = hint {
                    assert(false);
                }
            }
            return None;
        },
    };
    let (ema_slow, i) = match read_opt_number(
        s,
        i,
        Ghost(
            match hint {
                Some(h) => Some(
                    (
                        m0.ema_slow,
                        ",\"vwap\":"@ + (opt_num(m0.vwap) + (",\"volume\":"@ + (fx_text(
                            m0.volume as int,
                        ) + (",\"volatility\":"@ + (fx_text(m0.volatility as int) + (rs + (at + (
                        "}"@ + tail)))))))),
                    ),
                ),
                None => None,
            },
        ),
    ) {
        Some(p) => p,
        None => {
            proof {
                if let Some(h) = hint {
                    assert(false);
                }
            }
            return None;
        },
    };
    proof {
        if let Some(h) = hint {
            lemma_skip_concat(
                s@,
                i as int,
                ",\"vwap\":"@,
                opt_num(m0.vwap) + (",\"volume\":"@ + (fx_text(m0.volume as int) + (
                ",\"volatility\":"@ + (fx_text(m0.volatility as int) + (rs + (at + ("}"@
                    + tail))))))),
            );
            lemma_skip_concat(
                s@,
                i + ",\"vwap\":"@.len(),
                opt_num(m0.vwap),
                ",\"volume\":"@ + (fx_text(m0.volume as int) + (",\"volatility\":"@ + (fx_text(
                    m0.volatility as int,
                ) + (rs + (at + ("}"@ + tail)))))),
            );
            assert(lit_at(s@, i as int, ",\"vwap\":"@)) by {
                assert(s@.subrange(i as int, i + ",\"vwap\":"@.len()) =~= ",\"vwap\":"@);
            }
        }
    }
    let i = match expect_lit(s, i, ",\"vwap\":") {
        Some(j) => j,
        None => {
            proof {
                if let Some(h) = hint {
                    assert(false);
                }
            }
            return None;
        },
    };
    let (vwap, i) = match read_opt_number(
        s,
        i,
        Ghost(
            match hint {
                Some(h) => Some(
                    (
                        m0.vwap,
                        ",\"volume\":"@ + (fx_text(m0.volume as int) + (",\"volatility\":"@ + (
                        fx_text(m0.volatility as int) + (rs + (at + ("}"@ + tail)))))),
                    ),
                ),
                None => None,
            },
        ),
    ) {
        Some(p) => p,
        None => {
            proof {
                if let Some(h) = hint {
                    assert(false);
                }
            }
            return None;
        },
    };
    proof {
        if let Some(h) = hint {
            lemma_skip_concat(
                s@,
                i as int,
                ",\"volume\":"@,
                fx_text(m0.volume as int) + (",\"volatility\":"@ + (fx_text(m0.volatility as int)
                    + (rs + (at + ("}"@ + tail))))),
            );
            lemma_skip_concat(
                s@,
                i + ",\"volume\":"@.len(),
                fx_text(m0.volume as int),
                ",\"volatility\":"@ + (fx_text(m0.volatility as int) + (rs + (at + ("}"@
                    + tail)))),
            );
            assert(lit_at(s@, i as int, ",\"volume\":"@)) by {
                assert(s@.subrange(i as int, i + ",\"volume\":"@.len()) =~= ",\"volume\":"@);
            }
        }
    }
    let i = match expect_lit(s, i, ",\"volume\":") {
        Some(j) => j,
        None => {
            proof {
                if let Some(h) = hint {
                    assert(false);
                }
            }
            return None;
        },
    };
    let (volume, i) = match read_number(
        s,
        i,
        Ghost(
            match hint {
                Some(h) => Some(
                    (
                        m0.volume,
                        ",\"volatility\":"@ + (fx_text(m0.volatility as int) + (rs + (at + ("}"@
                            + tail)))),
                    ),
                ),
                None => None,
            },
        ),
    ) {
        Some(p) => p,
        None => {
            proof {
                if let Some(h) = hint {
                    assert(false);
                }
            }
            return None;
        },
    };
    proof {
        if let Some(h) = hint {
            lemma_skip_concat(
                s@,
                i as int,
                ",\"volatility\":"@,
                fx_text(m0.volatility as int) + (rs + (at + ("}"@ + tail))),
            );
            lemma_skip_concat(
                s@,
                i + ",\"volatility\":"@.len(),
                fx_text(m0.volatility as int),
                rs + (at + ("}"@ + tail)),
            );
            assert(lit_at(s@, i as int, ",\"volatility\":"@)) by {
                assert(s@.subrange(i as int, i + ",\"volatility\":"@.len())
                    =~= ",\"volatility\":"@);
            }
        }
    }
    let i = match expect_lit(s, i, ",\"volatility\":") {
        Some(j) => j,
        None => {
            proof {
                if let Some(h) = hint {
                    assert(false);
                }
            }
            return None;
        },
    };
    let (volatility, i) = match read_number(
        s,
        i,
        Ghost(
            match hint {
                Some(h) => Some((m0.volatility, rs + (at + ("}"@ + tail)))),
                None => None,
            },
        ),
    ) {
        Some(p) => p,
        None => {
            proof {
                if let Some(h) = hint {
                    assert(false);
                }
            }
            return None;
        },
    };
    proof {
        reveal_strlit(",\"rsi\":");
        reveal_strlit(",\"atr\":");
        reveal_strlit("}");
        if let Some(h) = hint {
            match m0.rsi {
                Some(x) => {
                    crate::text::seq_assoc(",\"rsi\":"@, fx_text(x as int), at + ("}"@ + tail));
                    lemma_skip_concat(
                        s@,
                        i as int,
                        ",\"rsi\":"@,
                        fx_text(x as int) + (at + ("}"@ + tail)),
                    );
                    lemma_skip_concat(
                        s@,
                        i + ",\"rsi\":"@.len(),
                        fx_text(x as int),
                        at + ("}"@ + tail),
                    );
                    assert(lit_at(s@, i as int, ",\"rsi\":"@)) by {
                        assert(s@.subrange(i as int, i + ",\"rsi\":"@.len()) =~= ",\"rsi\":"@);
                    }
                },
                None => {
                    assert(rs + (at + ("}"@ + tail)) =~= at + ("}"@ + tail));
                    match m0.atr {
                        Some(x) => {
                            crate::text::seq_assoc(
                                ",\"atr\":"@,
                                fx_text(x as int),
                                "}"@ + tail,
                            );
                            lemma_skip_concat(
                                s@,
                                i as int,
                                ",\"atr\":"@,
                                fx_text(x as int) + ("}"@ + tail),
                            );
                            lemma_lit_differs(s@, i as int, ",\"rsi\":"@, 2);
                        },
                        None => {
                            lemma_skip_concat(s@, i as int, "}"@, tail);
                            lemma_lit_differs(s@, i as int, ",\"rsi\":"@, 0);
                        },
                    }
                },
            }
        }
    }
    let (rsi, i) = match expect_lit(s, i, ",\"rsi\":") {
        Some(j) => {
            proof {
                if let Some(h) = hint {
                    if m0.rsi is None {
                        assert(false);
                    }
                }
            }
            match read_number(
                s,
                j,
                Ghost(
                    match hint {
                        Some(h) => match m0.rsi {
                            Some(x) => Some((x, at + ("}"@ + tail))),
                            None => None,
                        },
                        None => None,
                    },
                ),
            ) {
                Some((v, j2)) => (Some(v), j2),
                None => {
                    proof {
                        if let Some(h) = hint {
                            assert(false);
                        }
                    }
                    return None;
                },
            }
        },
        None => {
            proof {
                if let Some(h) = hint {
                    if m0.rsi is Some {
                        assert(false);
                    }
                }
            }
            (None, i)
        },
    };
    proof {
        reveal_strlit(",\"atr\":");
        reveal_strlit("}");
        if let Some(h) = hint {
            match m0.atr {
                Some(x) => {
                    crate::text::seq_assoc(",\"atr\":"@, fx_text(x as int), "}"@ + tail);
                    lemma_skip_concat(
                        s@,
                        i as int,
                        ",\"atr\":"@,
                        fx_text(x as int) + ("}"@ + tail),
                    );
                    lemma_skip_concat(
                        s@,
                        i + ",\"atr\":"@.len(),
                        fx_text(x as int),
                        "}"@ + tail,
                    );
                    assert(lit_at(s@, i as int, ",\"atr\":"@)) by {
                        assert(s@.subrange(i as int, i + ",\"atr\":"@.len()) =~= ",\"atr\":"@);
                    }
                },
                None => {
                    assert(at + ("}"@ + tail) =~= "}"@ + tail);
                    lemma_skip_concat(s@, i as int, "}"@, tail);
                    lemma_lit_differs(s@, i as int, ",\"atr\":"@, 0);
                },
            }
        }
    }
    let (atr, i) = match expect_lit(s, i, ",\"atr\":") {
        Some(j) => {
            proof {
                if let Some(h) = hint {
                    if m0.atr is None {
                        assert(false);
                    }
                }
            }
            match read_number(
                s,
                j,
                Ghost(
                    match hint {
                        Some(h) => match m0.atr {
                            Some(x) => Some((x, "}"@ + tail)),
                            None => None,
                        },
                        None => None,
                    },
                ),
            ) {
                Some((v, j2)) => (Some(v), j2),
                None => {
                    proof {
                        if let Some(h) = hint {
                            assert(false);
                        }
                    }
                    return None;
                },
            }
        },
        None => {
            proof {
                if let Some(h) = hint {
                    if m0.atr is Some {
                        assert(false);
                    }
                }
            }
            (None, i)
        },
    };
    proof {
        if let Some(h) = hint {
            lemma_skip_concat(s@, i as int, "}"@, tail);
            assert(lit_at(s@, i as int, "}"@)) by {
                assert(s@.subrange(i as int, i + "}"@.len()) =~= "}"@);
            }
        }
    }
    let i = match expect_lit(s, i, "}") {
        Some(j) => j,
        None => {
            proof {
                if let Some(h) = hint {
                    assert(false);
                }
            }
            return None;
        },
    };
    proof {
        if let Some(h) = hint {
            assert(s@.skip(i as int) == tail);
            assert(s@.skip(i as int).len() == s@.len() - i);
            assert(s@.skip(h.1 as int).len() == s@.len() - h.1);
            assert(i == h.1);
        }
    }
    Some((SignalMeta { ema_fast, ema_slow, vwap, volume, volatility, rsi, atr }, i))
}

/// Pattern metadata's wire text with a remainder, regrouped so each
/// field can be peeled off the front in turn.
#[verifier::rlimit(100)]
#[verifier::spinoff_prover]
proof fn lemma_pattern_meta_shape(m: PatternMeta, rest: Seq<char>)
    ensures
        pattern_meta_json(m) + rest == "{\"name\":"@ + (json_str(m.name@) + (",\"description\":"@
            + (json_str(m.description@) + (",\"tags\":["@ + (str_array(m.tags@, 0) + (
        "],\"strength\":"@ + (fx_text(m.strength as int) + (",\"polarity\":"@ + (fx_text(
            m.polarity as int,
        ) + (",\"action\":"@ + (json_str(m.action@) + (",\"confidence\":"@ + (fx_text(
            m.confidence as int,
        ) + (",\"features\":["@ + (num_array(m.features@, 0) + ("]}"@ + rest)))))))))))))))),
{
    let l1 = "{\"name\":"@;
    let j1 = json_str(m.name@);
    let l2 = ",\"description\":"@;
    let j2 = json_str(m.description@);
    let l3 = ",\"tags\":["@;
    let tg = str_array(m.tags@, 0);
    let l4 = "],\"strength\":"@;
    let f1 = fx_text(m.strength as int);
    let l5 = ",\"polarity\":"@;
    let f2 = fx_text(m.polarity as int);
    let l6 = ",\"action\":"@;
    let j3 = json_str(m.action@);
    let l7 = ",\"confidence\":"@;
    let f3 = fx_text(m.confidence as int);
    let l8 = ",\"features\":["@;
    let ft = num_array(m.features@, 0);
    let l9 = "]}"@;
    let p1 = l1 + j1;
    let p2 = p1 + l2;
    let p3 = p2 + j2;
    let p4 = p3 + l3;
    let p5 = p4 + tg;
    let p6 = p5 + l4;
    let p7 = p6 + f1;
    let p8 = p7 + l5;
    let p9 = p8 + f2;
    let p10 = p9 + l6;
    let p11 = p10 + j3;
    let p12 = p11 + l7;
    let p13 = p12 + f3;
    let p14 = p13 + l8;
    let p15 = p14 + ft;
    crate::text::seq_assoc(p15, l9, rest);
    crate::text::seq_assoc(p14, ft, l9 + rest);
    crate::text::seq_assoc(p13, l8, ft + (l9 + rest));
    crate::text::seq_assoc(p12, f3, l8 + (ft + (l9 + rest)));
    crate::text::seq_assoc(p11, l7, f3 + (l8 + (ft + (l9 + rest))));
    crate::text::seq_assoc(p10, j3, l7 + (f3 + (l8 + (ft + (l9 + rest)))));
    crate::text::seq_assoc(p9, l6, j3 + (l7 + (f3 + (l8 + (ft + (l9 + rest))))));
    crate::text::seq_assoc(p8, f2, l6 + (j3 + (l7 + (f3 + (l8 + (ft + (l9 + rest)))))));
    crate::text::seq_assoc(p7, l5, f2 + (l6 + (j3 + (l7 + (f3 + (l8 + (ft + (l9 + rest))))))));
    crate::text::seq_assoc(
        p6,
        f1,
        l5 + (f2 + (l6 + (j3 + (l7 + (f3 + (l8 + (ft + (l9 + rest)))))))),
    );
    crate::text::seq_assoc(
        p5,
        l4,
        f1 + (l5 + (f2 + (l6 + (j3 + (l7 + (f3 + (l8 + (ft + (l9 + rest))))))))),
    );
    crate::text::seq_assoc(
        p4,
        tg,
        l4 + (f1 + (l5 + (f2 + (l6 + (j3 + (l7 + (f3 + (l8 + (ft + (l9 + rest)))))))))),
    );
    crate::text::seq_assoc(
        p3,
        l3,
        tg + (l4 + (f1 + (l5 + (f2 + (l6 + (j3 + (l7 + (f3 + (l8 + (ft + (l9 + rest))))))))))),
    );
    crate::text::seq_assoc(
        p2,
        j2,
        l3 + (tg + (l4 + (f1 + (l5 + (f2 + (l6 + (j3 + (l7 + (f3 + (l8 + (ft + (l9
            + rest)))))))))))),
    );
    crate::text::seq_assoc(
        p1,
        l2,
        j2 + (l3 + (tg + (l4 + (f1 + (l5 + (f2 + (l6 + (j3 + (l7 + (f3 + (l8 + (ft + (l9
            + rest))))))))))))),
    );
    crate::text::seq_assoc(
        l1,
        j1,
        l2 + (j2 + (l3 + (tg + (l4 + (f1 + (l5 + (f2 + (l6 + (j3 + (l7 + (f3 + (l8 + (ft + (l9
            + rest)))))))))))))),
    );
}

/// What a tag list's rendering begins with: a quote at the start, a
/// comma between entries, and nothing once the entries are out.
proof fn lemma_tags_head(s: Seq<char>, i: int, tags: Seq<String>, idx: int, close: Seq<char>)
    requires
        0 <= i <= s.len(),
        0 <= idx <= tags.len(),
        s.skip(i) == str_array(tags, idx) + close,
        close.len() > 0,
        close[0] == ']',
    ensures
        idx < tags.len() && idx == 0 ==> i < s.len() && s[i] == '"' && s.skip(i) == json_str(
            tags[0]@,
        ) + (str_array(tags, 1) + close),
        idx < tags.len() && idx > 0 ==> i < s.len() && s[i] == ',',
        idx == tags.len() ==> i < s.len() && s[i] == ']',
{
    reveal_strlit(",");
    if idx == tags.len() {
        assert(str_array(tags, idx) == Seq::<char>::empty());
        assert(str_array(tags, idx) + close =~= close);
        assert(s.skip(i)[0] == s[i]);
        assert(s[i] == close[0]);
    } else if idx == 0 {
        assert(str_array(tags, 0) == Seq::<char>::empty() + json_str(tags[0]@) + str_array(
            tags,
            1,
        ));
        crate::text::seq_assoc(
            Seq::<char>::empty() + json_str(tags[0]@),
            str_array(tags, 1),
            close,
        );
        assert(Seq::<char>::empty() + json_str(tags[0]@) =~= json_str(tags[0]@));
        lemma_skip_concat(s, i, json_str(tags[0]@), str_array(tags, 1) + close);
        assert(json_str(tags[0]@)[0] == '"');
    } else {
        assert(str_array(tags, idx) == ","@ + json_str(tags[idx]@) + str_array(tags, idx + 1));
        crate::text::seq_assoc(","@ + json_str(tags[idx]@), str_array(tags, idx + 1), close);
        crate::text::seq_assoc(","@, json_str(tags[idx]@), str_array(tags, idx + 1) + close);
        lemma_skip_concat(s, i, ","@, json_str(tags[idx]@) + (str_array(tags, idx + 1) + close));
        assert(s[i] == ","@[0]);
        assert(","@[0] == ',');
    }
}

/// What a feature list's rendering begins with: a sign or digit at
/// the start, a comma between entries, and nothing once the entries
/// are out.
proof fn lemma_feats_head(s: Seq<char>, i: int, xs: Seq<i64>, idx: int, close: Seq<char>)
    requires
        0 <= i <= s.len(),
        0 <= idx <= xs.len(),
        s.skip(i) == num_array(xs, idx) + close,
        close.len() > 0,
        close[0] == ']',
    ensures
        idx < xs.len() && idx == 0 ==> i < s.len() && s[i] != ']' && s[i] != ',' && s.skip(i)
            == fx_text(xs[0] as int) + (num_array(xs, 1) + close),
        idx < xs.len() && idx > 0 ==> i < s.len() && s[i] == ',',
        idx == xs.len() ==> i < s.len() && s[i] == ']',
{
    reveal_strlit(",");
    if idx == xs.len() {
        assert(num_array(xs, idx) == Seq::<char>::empty());
        assert(num_array(xs, idx) + close =~= close);
        assert(s.skip(i)[0] == s[i]);
        assert(s[i] == close[0]);
    } else if idx == 0 {
        assert(num_array(xs, 0) == Seq::<char>::empty() + fx_text(xs[0] as int) + num_array(
            xs,
            1,
        ));
        crate::text::seq_assoc(
            Seq::<char>::empty() + fx_text(xs[0] as int),
            num_array(xs, 1),
            close,
        );
        assert(Seq::<char>::empty() + fx_text(xs[0] as int) =~= fx_text(xs[0] as int));
        lemma_skip_concat(s, i, fx_text(xs[0] as int), num_array(xs, 1) + close);
        let mg = if xs[0] < 0 {
            -(xs[0] as int)
        } else {
            xs[0] as int
        };
        crate::text::lemma_dec_digits_are_digits((mg / (crate::num::SCALE as int)) as nat);
        if xs[0] < 0 {
            assert(fx_text(xs[0] as int)[0] == '-');
        } else {
            assert(fx_text(xs[0] as int)[0] == crate::text::dec_digits(
                (mg / (crate::num::SCALE as int)) as nat,
            )[0]);
        }
    } else {
        assert(num_array(xs, idx) == ","@ + fx_text(xs[idx] as int) + num_array(xs, idx + 1));
        crate::text::seq_assoc(","@ + fx_text(xs[idx] as int), num_array(xs, idx + 1), close);
        crate::text::seq_assoc(","@, fx_text(xs[idx] as int), num_array(xs, idx + 1) + close);
        lemma_skip_concat(s, i, ","@, fx_text(xs[idx] as int) + (num_array(xs, idx + 1) + close));
        assert(s[i] == ","@[0]);
        assert(","@[0] == ',');
    }
}

/// The candidate pattern metadata read from an object at `i`. When
/// the text at `i` is known to carry pattern metadata and a
/// remainder, the read succeeds with value-equal metadata.
#[verifier::rlimit(100)]
#[verifier::spinoff_prover]
fn read_pattern_meta(s: &str, i: usize, Ghost(hint): Ghost<Option<(PatternMeta, usize)>>) -> (r:
    Option<(PatternMeta, usize)>)
    requires
        i <= s@.len(),
        hint matches Some(h) ==> h.1 <= s@.len() && s@.skip(i as int) == pattern_meta_json(h.0)
            + s@.skip(h.1 as int),
    ensures
        r matches Some(p) ==> p.1 <= s@.len(),
        hint matches Some(h) ==> (r matches Some(p) && crate::patterns::meta_like(p.0, h.0)
            && p.1 == i + pattern_meta_json(h.0).len()),
{
    let ghost hinted = hint is Some;
    let ghost m0: PatternMeta = match hint {
        Some(h) => h.0,
        None => arbitrary(),
    };
    let ghost tail: Seq<char> = match hint {
        Some(h) => s@.skip(h.1 as int),
        None => Seq::empty(),
    };
    let ghost rest5: Seq<char> = "],\"strength\":"@ + (fx_text(m0.strength as int) + (
    ",\"polarity\":"@ + (fx_text(m0.polarity as int) + (",\"action\":"@ + (json_str(m0.action@) + (
    ",\"confidence\":"@ + (fx_text(m0.confidence as int) + (",\"features\":["@ + (num_array(
        m0.features@,
        0,
    ) + ("]}"@ + tail))))))))));
    proof {
        if hinted {
            lemma_pattern_meta_shape(m0, tail);
            lemma_skip_concat(
                s@,
                i as int,
                "{\"name\":"@,
                json_str(m0.name@) + (",\"description\":"@ + (json_str(m0.description@) + (
                ",\"tags\":["@ + (str_array(m0.tags@, 0) + rest5)))),
            );
            lemma_skip_concat(
                s@,
                i + "{\"name\":"@.len(),
                json_str(m0.name@),
                ",\"description\":"@ + (json_str(m0.description@) + (",\"tags\":["@ + (str_array(
                    m0.tags@,
                    0,
                ) + rest5))),
            );
            assert(lit_at(s@, i as int, "{\"name\":"@)) by {
                assert(s@.subrange(i as int, i + "{\"name\":"@.len()) =~= "{\"name\":"@);
            }
        }
    }
    let i = match expect_lit(s, i, "{\"name\":") {
        Some(j) => j,
        None => {
            proof {
                if hinted {
                    assert(false);
                }
            }
            return None;
        },
    };
    let (name, i) = match read_string(
        s,
        i,
        Ghost(
            if hinted {
                Some(
                    (
                        m0.name@,
                        ",\"description\":"@ + (json_str(m0.description@) + (",\"tags\":["@ + (
                        str_array(m0.tags@, 0) + rest5))),
                    ),
                )
            } else {
                None
            },
        ),
    ) {
        Some(p) => p,
        None => {
            proof {
                if hinted {
                    assert(false);
                }
            }
            return None;
        },
    };
    proof {
        if hinted {
            lemma_skip_concat(
                s@,
                i as int,
                ",\"description\":"@,
                json_str(m0.description@) + (",\"tags\":["@ + (str_array(m0.tags@, 0) + rest5)),
            );
            lemma_skip_concat(
                s@,
                i + ",\"description\":"@.len(),
                json_str(m0.description@),
                ",\"tags\":["@ + (str_array(m0.tags@, 0) + rest5),
            );
            assert(lit_at(s@, i as int, ",\"description\":"@)) by {
                assert(s@.subrange(i as int, i + ",\"description\":"@.len())
                    =~= ",\"description\":"@);
            }
        }
    }
    let i = match expect_lit(s, i, ",\"description\":") {
        Some(j) => j,
        None => {
            proof {
                if hinted {
                    assert(false);
                }
            }
            return None;
        },
    };
    let (description, i) = match read_string(
        s,
        i,
        Ghost(
            if hinted {
                Some((m0.description@, ",\"tags\":["@ + (str_array(m0.tags@, 0) + rest5)))
            } else {
                None
            },
        ),
    ) {
        Some(p) => p,
        None => {
            proof {
                if hinted {
                    assert(false);
                }
            }
            return None;
        },
    };
    proof {
        if hinted {
            lemma_skip_concat(s@, i as int, ",\"tags\":["@, str_array(m0.tags@, 0) + rest5);
            assert(lit_at(s@, i as int, ",\"tags\":["@)) by {
                assert(s@.subrange(i as int, i + ",\"tags\":["@.len()) =~= ",\"tags\":["@);
            }
        }
    }
    let i = match expect_lit(s, i, ",\"tags\":[") {
        Some(j) => j,
        None => {
            proof {
                if hinted {
                    assert(false);
                }
            }
            return None;
        },
    };
    let mut tags: Vec<String> = Vec::new();
    let mut i = i;
    let n = s.unicode_len();
    let ghost mut idx: int = 0;
    proof {
        reveal_strlit("],\"strength\":");
        if hinted {
            assert(rest5.len() > 0 && rest5[0] == ']') by {
                assert(rest5[0] == "],\"strength\":"@[0]);
            }
            lemma_tags_head(s@, i as int, m0.tags@, 0, rest5);
            if m0.tags@.len() > 0 {
                lemma_skip_concat(
                    s@,
                    i as int,
                    json_str(m0.tags@[0]@),
                    str_array(m0.tags@, 1) + rest5,
                );
            }
        }
    }
    if i < n && s.get_char(i) == '"' {
        proof {
            if hinted {
                assert(m0.tags@.len() > 0);
            }
        }
        let (first, j) = match read_string(
            s,
            i,
            Ghost(
                if hinted && m0.tags@.len() > 0 {
                    Some((m0.tags@[0]@, str_array(m0.tags@, 1) + rest5))
                } else {
                    None
                },
            ),
        ) {
            Some(p) => p,
            None => {
                proof {
                    if hinted {
                        assert(false);
                    }
                }
                return None;
            },
        };
        tags.push(first);
        i = j;
        proof {
            idx = 1;
        }
        while i < n && s.get_char(i) == ','
            invariant
                i <= n,
                n == s@.len(),
                hinted == (hint is Some),
                hint matches Some(h) ==> h.0 == m0,
                hinted ==> {
                    &&& 1 <= idx <= m0.tags@.len()
                    &&& s@.skip(i as int) == str_array(m0.tags@, idx) + rest5
                    &&& tags@.len() == idx
                    &&& forall|q: int| 0 <= q < idx ==> tags@[q]@ == #[trigger] m0.tags@[q]@
                    &&& rest5.len() > 0 && rest5[0] == ']'
                },
            decreases n - i,
        {
            proof {
                if hinted {
                    lemma_tags_head(s@, i as int, m0.tags@, idx, rest5);
                    assert(idx < m0.tags@.len());
                    crate::text::seq_assoc(
                        ","@ + json_str(m0.tags@[idx]@),
                        str_array(m0.tags@, idx + 1),
                        rest5,
                    );
                    crate::text::seq_assoc(
                        ","@,
                        json_str(m0.tags@[idx]@),
                        str_array(m0.tags@, idx + 1) + rest5,
                    );
                    lemma_skip_concat(
                        s@,
                        i as int,
                        ","@,
                        json_str(m0.tags@[idx]@) + (str_array(m0.tags@, idx + 1) + rest5),
                    );
                    reveal_strlit(",");
                    lemma_skip_concat(
                        s@,
                        i + 1,
                        json_str(m0.tags@[idx]@),
                        str_array(m0.tags@, idx + 1) + rest5,
                    );
                }
            }
            let (next, j) = match read_string(
                s,
                i + 1,
                Ghost(
                    if hinted && 0 <= idx < m0.tags@.len() {
                        Some((m0.tags@[idx]@, str_array(m0.tags@, idx + 1) + rest5))
                    } else {
                        None
                    },
                ),
            ) {
                Some(p) => p,
                None => {
                    proof {
                        if hinted {
                            assert(false);
                        }
                    }
                    return None;
                },
            };
            tags.push(next);
            proof {
                assert(j > i);
            }
            i = j;
            proof {
                if hinted {
                    idx = idx + 1;
                }
            }
        }
        proof {
            if hinted {
                lemma_tags_head(s@, i as int, m0.tags@, idx, rest5);
                assert(idx == m0.tags@.len());
            }
        }
    } else {
        proof {
            if hinted {
                assert(m0.tags@.len() == 0);
            }
        }
    }
    proof {
        if hinted {
            assert(str_array(m0.tags@, idx) == Seq::<char>::empty());
            assert(str_array(m0.tags@, idx) + rest5 =~= rest5);
            lemma_skip_concat(
                s@,
                i as int,
                "],\"strength\":"@,
                fx_text(m0.strength as int) + (",\"polarity\":"@ + (fx_text(m0.polarity as int) + (
                ",\"action\":"@ + (json_str(m0.action@) + (",\"confidence\":"@ + (fx_text(
                    m0.confidence as int,
                ) + (",\"features\":["@ + (num_array(m0.features@, 0) + ("]}"@ + tail))))))))),
            );
            lemma_skip_concat(
                s@,
                i + "],\"strength\":"@.len(),
                fx_text(m0.strength as int),
                ",\"polarity\":"@ + (fx_text(m0.polarity as int) + (",\"action\":"@ + (json_str(
                    m0.action@,
                ) + (",\"confidence\":"@ + (fx_text(m0.confidence as int) + (",\"features\":["@ + (
                num_array(m0.features@, 0) + ("]}"@ + tail)))))))),
            );
            assert(lit_at(s@, i as int, "],\"strength\":"@)) by {
                assert(s@.subrange(i as int, i + "],\"strength\":"@.len()) =~= "],\"strength\":"@);
            }
        }
    }
    let i = match expect_lit(s, i, "],\"strength\":") {
        Some(j) => j,
        None => {
            proof {
                if hinted {
                    assert(false);
                }
            }
            return None;
        },
    };
    let (strength, i) = match read_number(
        s,
        i,
        Ghost(
            if hinted {
                Some(
                    (
                        m0.strength,
                        ",\"polarity\":"@ + (fx_text(m0.polarity as int) + (",\"action\":"@ + (
                        json_str(m0.action@) + (",\"confidence\":"@ + (fx_text(
                            m0.confidence as int,
                        ) + (",\"features\":["@ + (num_array(m0.features@, 0) + ("]}"@
                            + tail)))))))),
                    ),
                )
            } else {
                None
            },
        ),
    ) {
        Some(p) => p,
        None => {
            proof {
                if hinted {
                    assert(false);
                }
            }
            return None;
        },
    };
    proof {
        if hinted {
            lemma_skip_concat(
                s@,
                i as int,
                ",\"polarity\":"@,
                fx_text(m0.polarity as int) + (",\"action\":"@ + (json_str(m0.action@) + (
                ",\"confidence\":"@ + (fx_text(m0.confidence as int) + (",\"features\":["@ + (
                num_array(m0.features@, 0) + ("]}"@ + tail))))))),
            );
            lemma_skip_concat(
                s@,
                i + ",\"polarity\":"@.len(),
                fx_text(m0.polarity as int),
                ",\"action\":"@ + (json_str(m0.action@) + (",\"confidence\":"@ + (fx_text(
                    m0.confidence as int,
                ) + (",\"features\":["@ + (num_array(m0.features@, 0) + ("]}"@ + tail)))))),
            );
            assert(lit_at(s@, i as int, ",\"polarity\":"@)) by {
                assert(s@.subrange(i as int, i + ",\"polarity\":"@.len()) =~= ",\"polarity\":"@);
            }
        }
    }
    let i = match expect_lit(s, i, ",\"polarity\":") {
        Some(j) => j,
        None => {
            proof {
                if hinted {
                    assert(false);
                }
            }
            return None;
        },
    };
    let (polarity, i) = match read_number(
        s,
        i,
        Ghost(
            if hinted {
                Some(
                    (
                        m0.polarity,
                        ",\"action\":"@ + (json_str(m0.action@) + (",\"confidence\":"@ + (fx_text(
                            m0.confidence as int,
                        ) + (",\"features\":["@ + (num_array(m0.features@, 0) + ("]}"@ + tail)))))),
                    ),
                )
            } else {
                None
            },
        ),
    ) {
        Some(p) => p,
        None => {
            proof {
                if hinted {
                    assert(false);
                }
            }
            return None;
        },
    };
    proof {
        if hinted {
            lemma_skip_concat(
                s@,
                i as int,
                ",\"action\":"@,
                json_str(m0.action@) + (",\"confidence\":"@ + (fx_text(m0.confidence as int) + (
                ",\"features\":["@ + (num_array(m0.features@, 0) + ("]}"@ + tail))))),
            );
            lemma_skip_concat(
                s@,
                i + ",\"action\":"@.len(),
                json_str(m0.action@),
                ",\"confidence\":"@ + (fx_text(m0.confidence as int) + (",\"features\":["@ + (
                num_array(m0.features@, 0) + ("]}"@ + tail)))),
            );
            assert(lit_at(s@, i as int, ",\"action\":"@)) by {
                assert(s@.subrange(i as int, i + ",\"action\":"@.len()) =~= ",\"action\":"@);
            }
        }
    }
    let i = match expect_lit(s, i, ",\"action\":") {
        Some(j) => j,
        None => {
            proof {
                if hinted {
                    assert(false);
                }
            }
            return None;
        },
    };
    let (action, i) = match read_string(
        s,
        i,
        Ghost(
            if hinted {
                Some(
                    (
                        m0.action@,
                        ",\"confidence\":"@ + (fx_text(m0.confidence as int) + (",\"features\":["@
                            + (num_array(m0.features@, 0) + ("]}"@ + tail)))),
                    ),
                )
            } else {
                None
            },
        ),
    ) {
        Some(p) => p,
        None => {
            proof {
                if hinted {
                    assert(false);
                }
            }
            return None;
        },
    };
    proof {
        if hinted {
            lemma_skip_concat(
                s@,
                i as int,
                ",\"confidence\":"@,
                fx_text(m0.confidence as int) + (",\"features\":["@ + (num_array(m0.features@, 0)
                    + ("]}"@ + tail))),
            );
            lemma_skip_concat(
                s@,
                i + ",\"confidence\":"@.len(),
                fx_text(m0.confidence as int),
                ",\"features\":["@ + (num_array(m0.features@, 0) + ("]}"@ + tail)),
            );
            assert(lit_at(s@, i as int, ",\"confidence\":"@)) by {
                assert(s@.subrange(i as int, i + ",\"confidence\":"@.len())
                    =~= ",\"confidence\":"@);
            }
        }
    }
    let i = match expect_lit(s, i, ",\"confidence\":") {
        Some(j) => j,
        None => {
            proof {
                if hinted {
                    assert(false);
                }
            }
            return None;
        },
    };
    let (confidence, i) = match read_number(
        s,
        i,
        Ghost(
            if hinted {
                Some(
                    (
                        m0.confidence,
                        ",\"features\":["@ + (num_array(m0.features@, 0) + ("]}"@ + tail)),
                    ),
                )
            } else {
                None
            },
        ),
    ) {
        Some(p) => p,
        None => {
            proof {
                if hinted {
                    assert(false);
                }
            }
            return None;
        },
    };
    proof {
        if hinted {
            lemma_skip_concat(
                s@,
                i as int,
                ",\"features\":["@,
                num_array(m0.features@, 0) + ("]}"@ + tail),
            );
            assert(lit_at(s@, i as int, ",\"features\":["@)) by {
                assert(s@.subrange(i as int, i + ",\"features\":["@.len()) =~= ",\"features\":["@);
            }
        }
    }
    let i = match expect_lit(s, i, ",\"features\":[") {
        Some(j) => j,
        None => {
            proof {
                if hinted {
                    assert(false);
                }
            }
            return None;
        },
    };
    let mut features: Vec<i64> = Vec::new();
    let mut i = i;
    let ghost mut fdx: int = 0;
    proof {
        reveal_strlit("]}");
        if hinted {
            assert(("]}"@ + tail).len() > 0 && ("]}"@ + tail)[0] == ']') by {
                assert(("]}"@ + tail)[0] == "]}"@[0]);
            }
            lemma_feats_head(s@, i as int, m0.features@, 0, "]}"@ + tail);
            if m0.features@.len() > 0 {
                lemma_skip_concat(
                    s@,
                    i as int,
                    fx_text(m0.features@[0] as int),
                    num_array(m0.features@, 1) + ("]}"@ + tail),
                );
            }
        }
    }
    if i < n && s.get_char(i) != ']' {
        proof {
            if hinted {
                assert(m0.features@.len() > 0);
            }
        }
        let (first, j) = match read_number(
            s,
            i,
            Ghost(
                if hinted && m0.features@.len() > 0 {
                    Some((m0.features@[0], num_array(m0.features@, 1) + ("]}"@ + tail)))
                } else {
                    None
                },
            ),
        ) {
            Some(p) => p,
            None => {
                proof {
                    if hinted {
                        assert(false);
                    }
                }
                return None;
            },
        };
        features.push(first);
        i = j;
        proof {
            fdx = 1;
        }
        while i < n && s.get_char(i) == ','
            invariant
                i <= n,
                n == s@.len(),
                hinted == (hint is Some),
                hint matches Some(h) ==> h.0 == m0,
                hinted ==> {
                    &&& 1 <= fdx <= m0.features@.len()
                    &&& s@.skip(i as int) == num_array(m0.features@, fdx) + ("]}"@ + tail)
                    &&& features@ =~= m0.features@.subrange(0, fdx)
                    &&& "]}"@.len() > 0 && "]}"@[0] == ']'
                },
            decreases n - i,
        {
            proof {
                if hinted {
                    lemma_feats_head(s@, i as int, m0.features@, fdx, "]}"@ + tail);
                    assert(fdx < m0.features@.len());
                    crate::text::seq_assoc(
                        ","@ + fx_text(m0.features@[fdx] as int),
                        num_array(m0.features@, fdx + 1),
                        "]}"@ + tail,
                    );
                    crate::text::seq_assoc(
                        ","@,
                        fx_text(m0.features@[fdx] as int),
                        num_array(m0.features@, fdx + 1) + ("]}"@ + tail),
                    );
                    lemma_skip_concat(
                        s@,
                        i as int,
                        ","@,
                        fx_text(m0.features@[fdx] as int) + (num_array(m0.features@, fdx + 1) + (
                        "]}"@ + tail)),
                    );
                    reveal_strlit(",");
                    lemma_skip_concat(
                        s@,
                        i + 1,
                        fx_text(m0.features@[fdx] as int),
                        num_array(m0.features@, fdx + 1) + ("]}"@ + tail),
                    );
                }
            }
            let (next, j) = match read_number(
                s,
                i + 1,
                Ghost(
                    if hinted && 0 <= fdx < m0.features@.len() {
                        Some(
                            (m0.features@[fdx], num_array(m0.features@, fdx + 1) + ("]}"@ + tail)),
                        )
                    } else {
                        None
                    },
                ),
            ) {
                Some(p) => p,
                None => {
                    proof {
                        if hinted {
                            assert(false);
                        }
                    }
                    return None;
                },
            };
            features.push(next);
            proof {
                assert(j > i);
            }
            i = j;
            proof {
                if hinted {
                    assert(features@ =~= m0.features@.subrange(0, fdx + 1));
                    fdx = fdx + 1;
                }
            }
        }
        proof {
            if hinted {
                lemma_feats_head(s@, i as int, m0.features@, fdx, "]}"@ + tail);
                assert(fdx == m0.features@.len());
            }
        }
    } else {
        proof {
            if hinted {
                assert(m0.features@.len() == 0);
            }
        }
    }
    proof {
        if hinted {
            assert(num_array(m0.features@, fdx) == Seq::<char>::empty());
            assert(num_array(m0.features@, fdx) + ("]}"@ + tail) =~= "]}"@ + tail);
            lemma_skip_concat(s@, i as int, "]}"@, tail);
            assert(lit_at(s@, i as int, "]}"@)) by {
                assert(s@.subrange(i as int, i + "]}"@.len()) =~= "]}"@);
            }
            assert(features@ =~= m0.features@.subrange(0, fdx));
            assert(m0.features@.subrange(0, m0.features@.len() as int) =~= m0.features@);
        }
    }
    let i = match expect_lit(s, i, "]}") {
        Some(j) => j,
        None => {
            proof {
                if hinted {
                    assert(false);
                }
            }
            return None;
        },
    };
    proof {
        if let Some(h) = hint {
            assert(s@.skip(i as int) == tail);
            assert(s@.skip(i as int).len() == s@.len() - i);
            assert(s@.skip(h.1 as int).len() == s@.len() - h.1);
            assert(i == h.1);
        }
    }
    Some(
        (
            PatternMeta {
                name,
                description,
                tags,
                strength,
                polarity,
                action,
                confidence,
                features,
            },
            i,
        ),
    )
}

/// A signal's wire text regrouped so each field can be peeled off
/// the front in turn.
#[verifier::rlimit(100)]
#[verifier::spinoff_prover]
proof fn lemma_signal_shape(x: Signal)
    ensures
        signal_json(x) == "{\"id\":"@ + (json_str(x.id@) + (",\"symbol\":"@ + (json_str(x.symbol@)
            + (",\"score\":"@ + (fx_text(x.score as int) + (",\"pattern\":"@ + (json_str(
            x.pattern@,
        ) + (",\"timestamp\":"@ + (fx_text(x.timestamp as int) + ((match x.meta {
            None => Seq::<char>::empty(),
            Some(m) => ",\"meta\":"@ + meta_json(m),
        }) + ((match x.pattern_meta {
            None => Seq::<char>::empty(),
            Some(p) => ",\"pattern_meta\":"@ + pattern_meta_json(p),
        }) + "}"@))))))))))),
{
    let l1 = "{\"id\":"@;
    let j1 = json_str(x.id@);
    let l2 = ",\"symbol\":"@;
    let j2 = json_str(x.symbol@);
    let l3 = ",\"score\":"@;
    let f1 = fx_text(x.score as int);
    let l4 = ",\"pattern\":"@;
    let j3 = json_str(x.pattern@);
    let l5 = ",\"timestamp\":"@;
    let f2 = fx_text(x.timestamp as int);
    let ms = match x.meta {
        None => Seq::<char>::empty(),
        Some(m) => ",\"meta\":"@ + meta_json(m),
    };
    let ps = match x.pattern_meta {
        None => Seq::<char>::empty(),
        Some(p) => ",\"pattern_meta\":"@ + pattern_meta_json(p),
    };
    let cb = "}"@;
    let p1 = l1 + j1;
    let p2 = p1 + l2;
    let p3 = p2 + j2;
    let p4 = p3 + l3;
    let p5 = p4 + f1;
    let p6 = p5 + l4;
    let p7 = p6 + j3;
    let p8 = p7 + l5;
    let p9 = p8 + f2;
    assert(signal_json_suffix(x) == (ms + ps) + cb);
    crate::text::seq_assoc(ms, ps, cb);
    assert(signal_json(x) == p9 + (ms + (ps + cb)));
    crate::text::seq_assoc(p8, f2, ms + (ps + cb));
    crate::text::seq_assoc(p7, l5, f2 + (ms + (ps + cb)));
    crate::text::seq_assoc(p6, j3, l5 + (f2 + (ms + (ps + cb))));
    crate::text::seq_assoc(p5, l4, j3 + (l5 + (f2 + (ms + (ps + cb)))));
    crate::text::seq_assoc(p4, f1, l4 + (j3 + (l5 + (f2 + (ms + (ps + cb))))));
    crate::text::seq_assoc(p3, l3, f1 + (l4 + (j3 + (l5 + (f2 + (ms + (ps + cb)))))));
    crate::text::seq_assoc(p2, j2, l3 + (f1 + (l4 + (j3 + (l5 + (f2 + (ms + (ps + cb))))))));
    crate::text::seq_assoc(
        p1,
        l2,
        j2 + (l3 + (f1 + (l4 + (j3 + (l5 + (f2 + (ms + (ps + cb)))))))),
    );
    crate::text::seq_assoc(
        l1,
        j1,
        l2 + (j2 + (l3 + (f1 + (l4 + (j3 + (l5 + (f2 + (ms + (ps + cb))))))))),
    );
}

/// Lists of strings with equal views render alike.
proof fn lemma_str_array_congr(t1: Seq<String>, t2: Seq<String>, i: int)
    requires
        t1.len() == t2.len(),
        forall|q: int| 0 <= q < t1.len() ==> t1[q]@ == #[trigger] t2[q]@,
    ensures
        str_array(t1, i) == str_array(t2, i),
    decreases t1.len() - i,
{
    if 0 <= i < t1.len() {
        lemma_str_array_congr(t1, t2, i + 1);
    }
}

/// Value-equal pattern metadata renders alike.
proof fn lemma_pattern_meta_json_congr(a: PatternMeta, b: PatternMeta)
    requires
        crate::patterns::meta_like(a, b),
    ensures
        pattern_meta_json(a) == pattern_meta_json(b),
{
    lemma_str_array_congr(a.tags@, b.tags@, 0);
}

/// The candidate signal of a wire text, before revalidation. When
/// the text is known to be a signal's wire form, the read succeeds
/// and reconstructs that signal up to value equality of its parts.
#[verifier::rlimit(100)]
#[verifier::spinoff_prover]
fn read_signal(s: &str, Ghost(hint): Ghost<Option<Signal>>) -> (r: Option<Signal>)
    requires
        hint matches Some(x) ==> s@ == signal_json(x),
    ensures
        hint matches Some(x) ==> (r matches Some(c) && {
            &&& c.id@ == x.id@
            &&& c.symbol@ == x.symbol@
            &&& c.score == x.score
            &&& c.pattern@ == x.pattern@
            &&& c.timestamp == x.timestamp
            &&& c.meta == x.meta
            &&& (c.pattern_meta is Some <==> x.pattern_meta is Some)
            &&& (c.pattern_meta is Some ==> crate::patterns::meta_like(
                c.pattern_meta->0,
                x.pattern_meta->0,
            ))
        }),
{
    let ghost hinted = hint is Some;
    let ghost x0: Signal = match hint {
        Some(x) => x,
        None => arbitrary(),
    };
    let ghost ms: Seq<char> = match x0.meta {
        None => Seq::<char>::empty(),
        Some(m) => ",\"meta\":"@ + meta_json(m),
    };
    let ghost ps: Seq<char> = match x0.pattern_meta {
        None => Seq::<char>::empty(),
        Some(p) => ",\"pattern_meta\":"@ + pattern_meta_json(p),
    };
    let n = s.unicode_len();
    proof {
        if hinted {
            lemma_signal_shape(x0);
            assert(s@.skip(0) =~= s@);
            lemma_skip_concat(
                s@,
                0,
                "{\"id\":"@,
                json_str(x0.id@) + (",\"symbol\":"@ + (json_str(x0.symbol@) + (",\"score\":"@ + (
                fx_text(x0.score as int) + (",\"pattern\":"@ + (json_str(x0.pattern@) + (
                ",\"timestamp\":"@ + (fx_text(x0.timestamp as int) + (ms + (ps + "}"@)))))))))),
            );
            lemma_skip_concat(
                s@,
                0 + "{\"id\":"@.len() as int,
                json_str(x0.id@),
                ",\"symbol\":"@ + (json_str(x0.symbol@) + (",\"score\":"@ + (fx_text(
                    x0.score as int,
                ) + (",\"pattern\":"@ + (json_str(x0.pattern@) + (",\"timestamp\":"@ + (fx_text(
                    x0.timestamp as int,
                ) + (ms + (ps + "}"@))))))))),
            );
            assert(lit_at(s@, 0, "{\"id\":"@)) by {
                assert(s@.subrange(0, 0 + "{\"id\":"@.len() as int) =~= "{\"id\":"@);
            }
        }
    }
    let i = match expect_lit(s, 0, "{\"id\":") {
        Some(j) => j,
        None => {
            proof {
                if hinted {
                    assert(false);
                }
            }
            return None;
        },
    };
    let (id, i) = match read_string(
        s,
        i,
        Ghost(
            if hinted {
                Some(
                    (
                        x0.id@,
                        ",\"symbol\":"@ + (json_str(x0.symbol@) + (",\"score\":"@ + (fx_text(
                            x0.score as int,
                        ) + (",\"pattern\":"@ + (json_str(x0.pattern@) + (",\"timestamp\":"@ + (
                        fx_text(x0.timestamp as int) + (ms + (ps + "}"@))))))))),
                    ),
                )
            } else {
                None
            },
        ),
    ) {
        Some(p) => p,
        None => {
            proof {
                if hinted {
                    assert(false);
                }
            }
            return None;
        },
    };
    proof {
        if hinted {
            lemma_skip_concat(
                s@,
                i as int,
                ",\"symbol\":"@,
                json_str(x0.symbol@) + (",\"score\":"@ + (fx_text(x0.score as int) + (
                ",\"pattern\":"@ + (json_str(x0.pattern@) + (",\"timestamp\":"@ + (fx_text(
                    x0.timestamp as int,
                ) + (ms + (ps + "}"@)))))))),
            );
            lemma_skip_concat(
                s@,
                i + ",\"symbol\":"@.len(),
                json_str(x0.symbol@),
                ",\"score\":"@ + (fx_text(x0.score as int) + (",\"pattern\":"@ + (json_str(
                    x0.pattern@,
                ) + (",\"timestamp\":"@ + (fx_text(x0.timestamp as int) + (ms + (ps + "}"@))))))),
            );
            assert(lit_at(s@, i as int, ",\"symbol\":"@)) by {
                assert(s@.subrange(i as int, i + ",\"symbol\":"@.len()) =~= ",\"symbol\":"@);
            }
        }
    }
    let i = match expect_lit(s, i, ",\"symbol\":") {
        Some(j) => j,
        None => {
            proof {
                if hinted {
                    assert(false);
                }
            }
            return None;
        },
    };
    let (symbol, i) = match read_string(
        s,
        i,
        Ghost(
            if hinted {
                Some(
                    (
                        x0.symbol@,
                        ",\"score\":"@ + (fx_text(x0.score as int) + (",\"pattern\":"@ + (json_str(
                            x0.pattern@,
                        ) + (",\"timestamp\":"@ + (fx_text(x0.timestamp as int) + (ms + (ps
                            + "}"@))))))),
                    ),
                )
            } else {
                None
            },
        ),
    ) {
        Some(p) => p,
        None => {
            proof {
                if hinted {
                    assert(false);
                }
            }
            return None;
        },
    };
    proof {
        if hinted {
            lemma_skip_concat(
                s@,
                i as int,
                ",\"score\":"@,
                fx_text(x0.score as int) + (",\"pattern\":"@ + (json_str(x0.pattern@) + (
                ",\"timestamp\":"@ + (fx_text(x0.timestamp as int) + (ms + (ps + "}"@)))))),
            );
            lemma_skip_concat(
                s@,
                i + ",\"score\":"@.len(),
                fx_text(x0.score as int),
                ",\"pattern\":"@ + (json_str(x0.pattern@) + (",\"timestamp\":"@ + (fx_text(
                    x0.timestamp as int,
                ) + (ms + (ps + "}"@))))),
            );
            assert(lit_at(s@, i as int, ",\"score\":"@)) by {
                assert(s@.subrange(i as int, i + ",\"score\":"@.len()) =~= ",\"score\":"@);
            }
        }
    }
    let i = match expect_lit(s, i, ",\"score\":") {
        Some(j) => j,
        None => {
            proof {
                if hinted {
                    assert(false);
                }
            }
            return None;
        },
    };
    let (score, i) = match read_number(
        s,
        i,
        Ghost(
            if hinted {
                Some(
                    (
                        x0.score,
                        ",\"pattern\":"@ + (json_str(x0.pattern@) + (",\"timestamp\":"@ + (fx_text(
                            x0.timestamp as int,
                        ) + (ms + (ps + "}"@))))),
                    ),
                )
            } else {
                None
            },
        ),
    ) {
        Some(p) => p,
        None => {
            proof {
                if hinted {
                    assert(false);
                }
            }
            return None;
        },
    };
    proof {
        if hinted {
            lemma_skip_concat(
                s@,
                i as int,
                ",\"pattern\":"@,
                json_str(x0.pattern@) + (",\"timestamp\":"@ + (fx_text(x0.timestamp as int) + (ms
                    + (ps + "}"@)))),
            );
            lemma_skip_concat(
                s@,
                i + ",\"pattern\":"@.len(),
                json_str(x0.pattern@),
                ",\"timestamp\":"@ + (fx_text(x0.timestamp as int) + (ms + (ps + "}"@))),
            );
            assert(lit_at(s@, i as int, ",\"pattern\":"@)) by {
                assert(s@.subrange(i as int, i + ",\"pattern\":"@.len()) =~= ",\"pattern\":"@);
            }
        }
    }
    let i = match expect_lit(s, i, ",\"pattern\":") {
        Some(j) => j,
        None => {
            proof {
                if hinted {
                    assert(false);
                }
            }
            return None;
        },
    };
    let (pattern, i) = match read_string(
        s,
        i,
        Ghost(
            if hinted {
                Some(
                    (
                        x0.pattern@,
                        ",\"timestamp\":"@ + (fx_text(x0.timestamp as int) + (ms + (ps + "}"@))),
                    ),
                )
            } else {
                None
            },
        ),
    ) {
        Some(p) => p,
        None => {
            proof {
                if hinted {
                    assert(false);
                }
            }
            return None;
        },
    };
    proof {
        if hinted {
            lemma_skip_concat(
                s@,
                i as int,
                ",\"timestamp\":"@,
                fx_text(x0.timestamp as int) + (ms + (ps + "}"@)),
            );
            lemma_skip_concat(
                s@,
                i + ",\"timestamp\":"@.len(),
                fx_text(x0.timestamp as int),
                ms + (ps + "}"@),
            );
            assert(lit_at(s@, i as int, ",\"timestamp\":"@)) by {
                assert(s@.subrange(i as int, i + ",\"timestamp\":"@.len()) =~= ",\"timestamp\":"@);
            }
        }
    }
    let i = match expect_lit(s, i, ",\"timestamp\":") {
        Some(j) => j,
        None => {
            proof {
                if hinted {
                    assert(false);
                }
            }
            return None;
        },
    };
    let (timestamp, i) = match read_number(
        s,
        i,
        Ghost(
            if hinted {
                Some((x0.timestamp, ms + (ps + "}"@)))
            } else {
                None
            },
        ),
    ) {
        Some(p) => p,
        None => {
            proof {
                if hinted {
                    assert(false);
                }
            }
            return None;
        },
    };
    let (meta, pattern_meta) = match read_signal_tail(s, i, Ghost(hint)) {
        Some(p) => (p.0, p.1),
        None => {
            proof {
                if hinted {
                    assert(false);
                }
            }
            return None;
        },
    };
    Some(Signal { id, symbol, score, pattern, timestamp, meta, pattern_meta })
}

/// The optional sections and closing brace of a signal's wire text,
/// read from position `i`, which must consume the rest of the text.
/// When the text is known to be the tail of a signal's wire form,
/// the read succeeds with the signal's own optional parts.
#[verifier::rlimit(100)]
#[verifier::spinoff_prover]
fn read_signal_tail(s: &str, i: usize, Ghost(hint): Ghost<Option<Signal>>) -> (r: Option<(
    Option<SignalMeta>,
    Option<PatternMeta>,
    usize,
)>)
    requires
        i <= s@.len(),
        hint matches Some(x) ==> s@.skip(i as int) == (match x.meta {
            None => Seq::<char>::empty(),
            Some(m) => ",\"meta\":"@ + meta_json(m),
        }) + ((match x.pattern_meta {
            None => Seq::<char>::empty(),
            Some(p) => ",\"pattern_meta\":"@ + pattern_meta_json(p),
        }) + "}"@),
    ensures
        hint matches Some(x) ==> (r matches Some(p) && {
            &&& p.0 == x.meta
            &&& (p.1 is Some <==> x.pattern_meta is Some)
            &&& (p.1 is Some ==> crate::patterns::meta_like(p.1->0, x.pattern_meta->0))
        }),
{
    let ghost hinted = hint is Some;
    let ghost x0: Signal = match hint {
        Some(x) => x,
        None => arbitrary(),
    };
    let ghost ms: Seq<char> = match x0.meta {
        None => Seq::<char>::empty(),
        Some(m) => ",\"meta\":"@ + meta_json(m),
    };
    let ghost ps: Seq<char> = match x0.pattern_meta {
        None => Seq::<char>::empty(),
        Some(p) => ",\"pattern_meta\":"@ + pattern_meta_json(p),
    };
    let n = s.unicode_len();
    proof {
        reveal_strlit(",\"meta\":");
        reveal_strlit(",\"pattern_meta\":");
        reveal_strlit("}");
        if hinted {
            match x0.meta {
                Some(m) => {
                    crate::text::seq_assoc(",\"meta\":"@, meta_json(m), ps + "}"@);
                    lemma_skip_concat(
                        s@,
                        i as int,
                        ",\"meta\":"@,
                        meta_json(m) + (ps + "}"@),
                    );
                    lemma_skip_concat(
                        s@,
                        i + ",\"meta\":"@.len(),
                        meta_json(m),
                        ps + "}"@,
                    );
                    assert(lit_at(s@, i as int, ",\"meta\":"@)) by {
                        assert(s@.subrange(i as int, i + ",\"meta\":"@.len()) =~= ",\"meta\":"@);
                    }
                },
                None => {
                    assert(ms + (ps + "}"@) =~= ps + "}"@);
                    match x0.pattern_meta {
                        Some(p) => {
                            crate::text::seq_assoc(
                                ",\"pattern_meta\":"@,
                                pattern_meta_json(p),
                                "}"@,
                            );
                            lemma_skip_concat(
                                s@,
                                i as int,
                                ",\"pattern_meta\":"@,
                                pattern_meta_json(p) + "}"@,
                            );
                            lemma_lit_differs(s@, i as int, ",\"meta\":"@, 2);
                        },
                        None => {
                            assert(ps + "}"@ =~= "}"@);
                            lemma_skip_concat(s@, i as int, "}"@, Seq::empty());
                            lemma_lit_differs(s@, i as int, ",\"meta\":"@, 0);
                        },
                    }
                },
            }
        }
    }
    let (meta, i) = match expect_lit(s, i, ",\"meta\":") {
        Some(j) => {
            proof {
                if hinted {
                    if x0.meta is None {
                        assert(false);
                    }
                }
            }
            match read_meta(
                s,
                j,
                Ghost(
                    if hinted && x0.meta is Some {
                        Some(
                            (
                                x0.meta->0,
                                ((i + ",\"meta\":"@.len() + meta_json(x0.meta->0).len())
                                    as usize),
                            ),
                        )
                    } else {
                        None
                    },
                ),
            ) {
                Some((m, j2)) => (Some(m), j2),
                None => {
                    proof {
                        if hinted {
                            assert(false);
                        }
                    }
                    return None;
                },
            }
        },
        None => {
            proof {
                if hinted {
                    if x0.meta is Some {
                        assert(false);
                    }
                }
            }
            (None, i)
        },
    };
    proof {
        reveal_strlit(",\"pattern_meta\":");
        reveal_strlit("}");
        if hinted {
            match x0.pattern_meta {
                Some(p) => {
                    crate::text::seq_assoc(",\"pattern_meta\":"@, pattern_meta_json(p), "}"@);
                    lemma_skip_concat(
                        s@,
                        i as int,
                        ",\"pattern_meta\":"@,
                        pattern_meta_json(p) + "}"@,
                    );
                    lemma_skip_concat(
                        s@,
                        i + ",\"pattern_meta\":"@.len(),
                        pattern_meta_json(p),
                        "}"@,
                    );
                    assert(lit_at(s@, i as int, ",\"pattern_meta\":"@)) by {
                        assert(s@.subrange(i as int, i + ",\"pattern_meta\":"@.len())
                            =~= ",\"pattern_meta\":"@);
                    }
                },
                None => {
                    assert(ps + "}"@ =~= "}"@);
                    lemma_skip_concat(s@, i as int, "}"@, Seq::empty());
                    lemma_lit_differs(s@, i as int, ",\"pattern_meta\":"@, 0);
                },
            }
        }
    }
    let (pattern_meta, i) = match expect_lit(s, i, ",\"pattern_meta\":") {
        Some(j) => {
            proof {
                if hinted {
                    if x0.pattern_meta is None {
                        assert(false);
                    }
                }
            }
            match read_pattern_meta(
                s,
                j,
                Ghost(
                    if hinted && x0.pattern_meta is Some {
                        Some(
                            (
                                x0.pattern_meta->0,
                                ((i + ",\"pattern_meta\":"@.len() + pattern_meta_json(
                                    x0.pattern_meta->0,
                                ).len()) as usize),
                            ),
                        )
                    } else {
                        None
                    },
                ),
            ) {
                Some((p, j2)) => (Some(p), j2),
                None => {
                    proof {
                        if hinted {
                            assert(false);
                        }
                    }
                    return None;
                },
            }
        },
        None => {
            proof {
                if hinted {
                    if x0.pattern_meta is Some {
                        assert(false);
                    }
                }
            }
            (None, i)
        },
    };
    proof {
        if hinted {
            assert(s@.skip(i as int) =~= "}"@ + Seq::<char>::empty());
            lemma_skip_concat(s@, i as int, "}"@, Seq::empty());
            assert(lit_at(s@, i as int, "}"@)) by {
                assert(s@.subrange(i as int, i + "}"@.len()) =~= "}"@);
            }
        }
    }
    let i = match expect_lit(s, i, "}") {
        Some(j) => j,
        None => {
            proof {
                if hinted {
                    assert(false);
                }
            }
            return None;
        },
    };
    if i != n {
        proof {
            if hinted {
                assert(s@.skip(i as int) =~= Seq::<char>::empty());
                assert(false);
            }
        }
        return None;
    }
    Some((meta, pattern_meta, i))
}

/// Read a signal back from the wire. Whatever comes back serializes
/// to exactly the given text — the candidate is re-rendered and
/// compared before it is returned — and reading succeeds on every
/// text the emitter writes.
pub fn signal_from_json(s: &str) -> (r: Option<Signal>)
    ensures
        r matches Some(sig) ==> s@ == signal_json(sig),
        (exists|sig: Signal| s@ == signal_json(sig)) ==> r is Some,
{
    let ghost hint: Option<Signal> = if exists|sig: Signal| s@ == signal_json(sig) {
        Some(choose|sig: Signal| s@ == signal_json(sig))
    } else {
        None
    };
    match read_signal(s, Ghost(hint)) {
        None => {
            proof {
                if let Some(x) = hint {
                    assert(false);
                }
            }
            None
        },
        Some(sig) => {
            proof {
                if let Some(x) = hint {
                    if sig.pattern_meta is Some {
                        lemma_pattern_meta_json_congr(sig.pattern_meta->0, x.pattern_meta->0);
                    }
                    assert(signal_json(sig) == signal_json(x));
                }
            }
            let rendered = signal_to_json(&sig);
            if str_eq(rendered.as_str(), s) {
                Some(sig)
            } else {
                proof {
                    if let Some(x) = hint {
                        assert(false);
                    }
                }
                None
            }
        },
    }
}

} // verus!
