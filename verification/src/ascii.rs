//! Decimal numbers written as ASCII text, as the text protocols carry them.
use vstd::prelude::*;
use crate::wire::copy_range;

verus! {

/// The ASCII digits of `n`, without leading zeros.
pub open spec fn dec_text(n: nat) -> Seq<u8>
    decreases n,
{
    if n < 10 {
        seq![(48 + n) as u8]
    } else {
        dec_text(n / 10).push((48 + n % 10) as u8)
    }
}

/// The text of a signed value: a minus sign before negative values.
pub open spec fn int_text(v: int) -> Seq<u8> {
    if v < 0 {
        seq![45u8] + dec_text((-v) as nat)
    } else {
        dec_text(v as nat)
    }
}

/// Whether every byte is an ASCII digit.
pub open spec fn ascii_digits(d: Seq<u8>) -> bool {
    forall|i: int| 0 <= i < d.len() ==> 48 <= #[trigger] d[i] <= 57
}

/// The value of a string of ASCII digits.
pub open spec fn dec_value(d: Seq<u8>) -> nat
    decreases d.len(),
{
    if d.len() == 0 {
        0
    } else {
        dec_value(d.drop_last()) * 10 + (d.last() - 48) as nat
    }
}

/// The value `str::parse::<i64>` gives: an optional sign, then at least one digit,
/// the value within range.
pub open spec fn parse_i64_spec(s: Seq<u8>) -> Option<i64> {
    let neg = s.len() > 0 && s[0] == 45;
    let d = if s.len() > 0 && (s[0] == 43 || s[0] == 45) { s.drop_first() } else { s };
    if d.len() == 0 || !ascii_digits(d) {
        None
    } else if neg {
        if dec_value(d) > 0x8000_0000_0000_0000 { None } else { Some((-dec_value(d)) as i64) }
    } else {
        if dec_value(d) > 0x7fff_ffff_ffff_ffff { None } else { Some(dec_value(d) as i64) }
    }
}

/// Appends the decimal text of `n`.
pub fn push_dec(out: &mut Vec<u8>, n: u64)
    ensures
        final(out)@ == old(out)@ + dec_text(n as nat),
    decreases n,
{
    let ghost start = out@;
    if n >= 10 {
        push_dec(out, n / 10);
    }
    out.push((48 + n % 10) as u8);
    assert(out@ =~= start + dec_text(n as nat));
}

/// Appends the decimal text of a signed value.
pub fn push_int(out: &mut Vec<u8>, v: i64)
    ensures
        final(out)@ == old(out)@ + int_text(v as int),
{
    let ghost start = out@;
    if v < 0 {
        out.push(45u8);
        let m: u64 = ((-(v + 1)) as u64) + 1;
        push_dec(out, m);
        assert(out@ =~= start + int_text(v as int));
    } else {
        push_dec(out, v as u64);
    }
}

proof fn lemma_dec_prefix_le(d: Seq<u8>, k: nat)
    requires
        k <= d.len(),
        ascii_digits(d),
    ensures
        dec_value(d.subrange(0, k as int)) <= dec_value(d),
    decreases d.len() - k,
{
    if k < d.len() {
        lemma_dec_prefix_le(d, k + 1);
        assert(d.subrange(0, (k + 1) as int).drop_last() == d.subrange(0, k as int));
        assert(48 <= d[k as int] <= 57);
    } else {
        assert(d.subrange(0, k as int) =~= d);
    }
}

/// Parses a signed decimal integer like `str::parse::<i64>`.
pub fn parse_i64(s: &[u8]) -> (r: Option<i64>)
    ensures
        r == parse_i64_spec(s@),
{
    let neg = s.len() > 0 && s[0] == 45;
    let start: usize = if s.len() > 0 && (s[0] == 43 || s[0] == 45) { 1 } else { 0 };
    let ghost d = if s@.len() > 0 && (s@[0] == 43 || s@[0] == 45) { s@.drop_first() } else { s@ };
    assert(d == s@.subrange(start as int, s@.len() as int));
    if start == s.len() {
        return None;
    }
    let limit: u64 = if neg { 0x8000_0000_0000_0000 } else { 0x7fff_ffff_ffff_ffff };
    let mut value: u64 = 0;
    let mut i: usize = start;
    while i < s.len()
        invariant
            start <= i <= s@.len(),
            d == s@.subrange(start as int, s@.len() as int),
            d == (if s@.len() > 0 && (s@[0] == 43 || s@[0] == 45) { s@.drop_first() } else { s@ }),
            ascii_digits(s@.subrange(start as int, i as int)),
            value == dec_value(s@.subrange(start as int, i as int)),
            value <= limit,
            limit >= 0x7fff_ffff_ffff_ffff,
            limit == (if neg { 0x8000_0000_0000_0000u64 } else { 0x7fff_ffff_ffff_ffffu64 }),
            neg == (s@.len() > 0 && s@[0] == 45),
        decreases s.len() - i,
    {
        let c = s[i];
        assert(s@.subrange(start as int, i + 1).drop_last() == s@.subrange(start as int, i as int));
        if !(48 <= c && c <= 57) {
            assert(d[i - start] == c);
            assert(!ascii_digits(d));
            return None;
        }
        let digit = (c - 48) as u64;
        if value > (limit - digit) / 10 {
            proof {
                assert(value * 10 + digit > limit) by (nonlinear_arith)
                    requires
                        value > (limit - digit) / 10,
                        digit <= 9,
                        limit >= 9,
                ;
                if ascii_digits(d) {
                    lemma_dec_prefix_le(d, (i + 1 - start) as nat);
                    assert(d.subrange(0, (i + 1 - start) as int) == s@.subrange(start as int, i + 1));
                }
            }
            return None;
        }
        proof {
            assert(value * 10 + digit <= limit) by (nonlinear_arith)
                requires
                    value <= (limit - digit) / 10,
                    digit <= 9,
                    limit >= 9,
            ;
        }
        value = value * 10 + digit;
        i = i + 1;
        assert(ascii_digits(s@.subrange(start as int, i as int)));
    }
    assert(s@.subrange(start as int, i as int) == d);
    if neg {
        if value == 0x8000_0000_0000_0000 {
            Some(-0x7fff_ffff_ffff_ffffi64 - 1)
        } else {
            Some(-(value as i64))
        }
    } else {
        Some(value as i64)
    }
}

/// The digits of `n` read back as `n`.
pub proof fn lemma_dec_text_digits(n: nat)
    ensures
        ascii_digits(dec_text(n)),
        dec_text(n).len() > 0,
        dec_value(dec_text(n)) == n,
        dec_text(n)[0] != 45 && dec_text(n)[0] != 43,
    decreases n,
{
    if n >= 10 {
        lemma_dec_text_digits(n / 10);
        let t = dec_text(n);
        assert(t.drop_last() == dec_text(n / 10));
        assert(t.last() == (48 + n % 10) as u8);
        assert((n / 10) * 10 + n % 10 == n);
        assert(t[0] == dec_text(n / 10)[0]);
    } else {
        assert(dec_text(n).drop_last() =~= Seq::<u8>::empty());
        reveal_with_fuel(dec_value, 2);
    }
}

/// Parsing the text of a value gives the value back.
pub proof fn lemma_int_text_roundtrip(v: i64)
    ensures
        parse_i64_spec(int_text(v as int)) == Some(v),
{
    if v < 0 {
        lemma_dec_text_digits((-v) as nat);
        assert(int_text(v as int).drop_first() == dec_text((-v) as nat));
    } else {
        lemma_dec_text_digits(v as nat);
    }
}

/// An ASCII decimal digit.
pub open spec fn digit_byte(b: u8) -> bool {
    48 <= b <= 57
}

/// One digit or more, and nothing else.
pub open spec fn digits_text(t: Seq<u8>) -> bool {
    t.len() > 0 && forall|i: int| 0 <= i < t.len() ==> digit_byte(#[trigger] t[i])
}

/// Digits after an optional sign.
pub open spec fn signed_digits_text(t: Seq<u8>) -> bool {
    if t.len() > 0 && (t[0] == 43 || t[0] == 45) {
        digits_text(t.drop_first())
    } else {
        digits_text(t)
    }
}

/// Digits with at most one decimal point among them, and at least one digit.
pub open spec fn mantissa_text(t: Seq<u8>) -> bool {
    &&& forall|i: int| 0 <= i < t.len() ==> digit_byte(#[trigger] t[i]) || t[i] == 46
    &&& forall|i: int, j: int| 0 <= i < j < t.len() ==> !(#[trigger] t[i] == 46 && #[trigger] t[j] == 46)
    &&& exists|i: int| 0 <= i < t.len() && digit_byte(#[trigger] t[i])
}

/// The exponent mark, in either case.
pub open spec fn exp_mark(b: u8) -> bool {
    b == 101 || b == 69
}

/// Where the first exponent mark at or after `i` stands, else the end.
pub open spec fn exp_index(t: Seq<u8>, i: int) -> int
    decreases t.len() - i,
{
    if i < 0 || i >= t.len() {
        t.len() as int
    } else if exp_mark(t[i]) {
        i
    } else {
        exp_index(t, i + 1)
    }
}

/// A decimal number: a mantissa up to the first exponent mark, then, if there is one,
/// a signed exponent.
pub open spec fn number_text(t: Seq<u8>) -> bool {
    let k = exp_index(t, 0);
    mantissa_text(t.subrange(0, k)) && (k == t.len() || signed_digits_text(t.subrange(k + 1, t.len() as int)))
}

proof fn lemma_exp_index_bounds(t: Seq<u8>, i: int)
    requires
        0 <= i <= t.len(),
    ensures
        i <= exp_index(t, i) <= t.len(),
        exp_index(t, i) < t.len() ==> exp_mark(t[exp_index(t, i)]),
    decreases t.len() - i,
{
    if i < t.len() && !exp_mark(t[i]) {
        lemma_exp_index_bounds(t, i + 1);
    }
}

/// A byte in lower case, when it is an ASCII letter.
pub open spec fn lower_byte(b: u8) -> u8 {
    if 65 <= b <= 90 { (b + 32) as u8 } else { b }
}

/// Whether `t` spells `w` (given in lower case), letter case aside.
pub open spec fn spells(t: Seq<u8>, w: Seq<u8>) -> bool {
    t.len() == w.len() && forall|i: int| 0 <= i < t.len() ==> lower_byte(#[trigger] t[i]) == w[i]
}

/// The text of a floating-point number as a float parser takes it: an optional sign,
/// then `inf`, `infinity` or `nan` in any letter case, or a decimal number with an
/// optional exponent. Text with other bytes, spaces among them, is no number.
pub open spec fn float_text(t: Seq<u8>) -> bool {
    let body = if t.len() > 0 && (t[0] == 43 || t[0] == 45) { t.drop_first() } else { t };
    ||| spells(body, seq![105u8, 110, 102])
    ||| spells(body, seq![105u8, 110, 102, 105, 110, 105, 116, 121])
    ||| spells(body, seq![110u8, 97, 110])
    ||| number_text(body)
}

fn lower_u8(b: u8) -> (r: u8)
    ensures
        r == lower_byte(b),
{
    if 65 <= b && b <= 90 { b + 32 } else { b }
}

fn spells_exec(t: &[u8], w: &[u8]) -> (r: bool)
    ensures
        r == spells(t@, w@),
{
    if t.len() != w.len() {
        return false;
    }
    let mut i: usize = 0;
    while i < t.len()
        invariant
            i <= t.len(),
            t.len() == w.len(),
            forall|k: int| 0 <= k < i ==> lower_byte(#[trigger] t@[k]) == w@[k],
        decreases t.len() - i,
    {
        if lower_u8(t[i]) != w[i] {
            return false;
        }
        i = i + 1;
    }
    true
}

fn digits_exec(t: &[u8], from: usize) -> (r: bool)
    requires
        from <= t.len(),
    ensures
        r == digits_text(t@.subrange(from as int, t@.len() as int)),
{
    let ghost s = t@.subrange(from as int, t@.len() as int);
    if from == t.len() {
        return false;
    }
    let mut i: usize = from;
    while i < t.len()
        invariant
            from <= i <= t.len(),
            s == t@.subrange(from as int, t@.len() as int),
            forall|k: int| 0 <= k < i - from ==> digit_byte(#[trigger] s[k]),
        decreases t.len() - i,
    {
        if !(48 <= t[i] && t[i] <= 57) {
            assert(s[i - from] == t@[i as int]);
            return false;
        }
        assert(s[i - from] == t@[i as int]);
        i = i + 1;
    }
    true
}

fn signed_digits_exec(t: &[u8], from: usize) -> (r: bool)
    requires
        from <= t.len(),
    ensures
        r == signed_digits_text(t@.subrange(from as int, t@.len() as int)),
{
    let ghost s = t@.subrange(from as int, t@.len() as int);
    if from < t.len() && (t[from] == 43 || t[from] == 45) {
        assert(s[0] == t@[from as int]);
        assert(s.drop_first() =~= t@.subrange(from + 1, t@.len() as int));
        digits_exec(t, from + 1)
    } else {
        digits_exec(t, from)
    }
}

fn number_exec(t: &[u8]) -> (r: bool)
    ensures
        r == number_text(t@),
{
    let mut i: usize = 0;
    let mut dots: usize = 0;
    let mut dot_at: usize = 0;
    let mut digit_at: Option<usize> = None;
    while i < t.len() && !(t[i] == 101 || t[i] == 69)
        invariant
            i <= t.len(),
            exp_index(t@, 0) == exp_index(t@, i as int),
            forall|k: int| 0 <= k < i ==> digit_byte(#[trigger] t@[k]) || t@[k] == 46,
            dots <= 1,
            dots == 0 ==> forall|k: int| 0 <= k < i ==> #[trigger] t@[k] != 46,
            dots == 1 ==> dot_at < i && t@[dot_at as int] == 46 && forall|k: int| 0 <= k < i && k != dot_at ==> #[trigger] t@[k] != 46,
            match digit_at {
                Some(j) => j < i && digit_byte(t@[j as int]),
                None => forall|k: int| 0 <= k < i ==> !digit_byte(#[trigger] t@[k]),
            },
        decreases t.len() - i,
    {
        let b = t[i];
        proof {
            lemma_exp_index_bounds(t@, i + 1);
        }
        if 48 <= b && b <= 57 {
            digit_at = Some(i);
        } else if b == 46 {
            if dots == 1 {
                proof {
                    let k = exp_index(t@, 0);
                    let mk = t@.subrange(0, k);
                    assert(mk[dot_at as int] == 46 && mk[i as int] == 46);
                }
                return false;
            }
            dots = 1;
            dot_at = i;
        } else {
            proof {
                let k = exp_index(t@, 0);
                let mk = t@.subrange(0, k);
                assert(mk[i as int] == b);
            }
            return false;
        }
        i = i + 1;
    }
    let k = i;
    proof {
        lemma_exp_index_bounds(t@, k as int);
        assert(exp_index(t@, 0) == k);
    }
    let ghost m = t@.subrange(0, k as int);
    proof {
        assert forall|x: int| 0 <= x < m.len() implies digit_byte(#[trigger] m[x]) || m[x] == 46 by {
            assert(m[x] == t@[x]);
        }
        assert forall|x: int, y: int| 0 <= x < y < m.len() implies !(#[trigger] m[x] == 46 && #[trigger] m[y] == 46) by {
            assert(m[x] == t@[x] && m[y] == t@[y]);
        }
        if let Some(j) = digit_at {
            assert(m[j as int] == t@[j as int]);
        } else {
            assert forall|x: int| 0 <= x < m.len() implies !digit_byte(#[trigger] m[x]) by {
                assert(m[x] == t@[x]);
            }
        }
    }
    let has_digit = digit_at.is_some();
    let tail_ok = if k == t.len() { true } else { signed_digits_exec(t, k + 1) };
    has_digit && tail_ok
}

/// Whether `t` is the text of a floating-point number.
pub fn is_float_text(t: &[u8]) -> (r: bool)
    ensures
        r == float_text(t@),
{
    let start: usize = if t.len() > 0 && (t[0] == 43 || t[0] == 45) { 1 } else { 0 };
    let body = copy_range(t, start, t.len() - start);
    proof {
        if start == 1 {
            assert(body@ =~= t@.drop_first());
        } else {
            assert(body@ =~= t@);
        }
    }
    let inf: [u8; 3] = [105, 110, 102];
    let infinity: [u8; 8] = [105, 110, 102, 105, 110, 105, 116, 121];
    let nan: [u8; 3] = [110, 97, 110];
    proof {
        assert(inf@ =~= seq![105u8, 110, 102]);
        assert(infinity@ =~= seq![105u8, 110, 102, 105, 110, 105, 116, 121]);
        assert(nan@ =~= seq![110u8, 97, 110]);
    }
    spells_exec(body.as_slice(), inf.as_slice()) || spells_exec(body.as_slice(), infinity.as_slice())
        || spells_exec(body.as_slice(), nan.as_slice()) || number_exec(body.as_slice())
}

} // verus!
