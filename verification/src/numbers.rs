//! Decimal numbers read from text: `u32::from_str`, and the fixed-point
//! reading of a decimal fraction that stands for the seconds and
//! milliseconds of lyric timestamps.

use vstd::prelude::*;

verus! {

pub open spec fn is_digit(c: char) -> bool {
    '0' <= c <= '9'
}

pub open spec fn all_digits(s: Seq<char>) -> bool {
    forall|i: int| 0 <= i < s.len() ==> is_digit(#[trigger] s[i])
}

pub open spec fn digit_value(c: char) -> nat {
    (c as u32 - '0' as u32) as nat
}

/// The number that a string of decimal digits writes.
pub open spec fn digits_value(s: Seq<char>) -> nat
    decreases s.len(),
{
    if s.len() == 0 {
        0
    } else {
        digits_value(s.drop_last()) * 10 + digit_value(s.last())
    }
}

pub proof fn lemma_digits_value_prefix(s: Seq<char>, i: int)
    requires
        0 <= i <= s.len(),
    ensures
        digits_value(s.take(i)) <= digits_value(s),
    decreases s.len() - i,
{
    if i < s.len() {
        lemma_digits_value_prefix(s.drop_last(), i);
        assert(s.drop_last().take(i) =~= s.take(i));
        if i == s.len() - 1 {
            assert(s.take(i) =~= s.drop_last());
        }
    } else {
        assert(s.take(i) =~= s);
    }
}

/// `digits_value` of the whole slice, when every character is a digit and
/// the value does not exceed `limit`.
pub fn digits_checked(d: &[char], limit: u64) -> (r: Option<u64>)
    requires
        limit >= 9,
    ensures
        match r {
            Some(v) => all_digits(d@) && v == digits_value(d@) && v <= limit,
            None => !all_digits(d@) || digits_value(d@) > limit,
        },
{
    let mut v: u64 = 0;
    let mut i: usize = 0;
    while i < d.len()
        invariant
            i <= d.len(),
            all_digits(d@.take(i as int)),
            v == digits_value(d@.take(i as int)),
            v <= limit,
            limit >= 9,
        decreases d.len() - i,
    {
        let c = d[i];
        assert(d@.take(i + 1).drop_last() =~= d@.take(i as int));
        if !('0' <= c && c <= '9') {
            return None;
        }
        let dv = (c as u32 - '0' as u32) as u64;
        if v > (limit - dv) / 10 {
            proof {
                assert(v * 10 + dv > limit) by (nonlinear_arith)
                    requires
                        v > ((limit - dv) as int) / 10,
                        dv <= 9,
                        dv <= limit || v > 0,
                ;
                lemma_digits_value_prefix(d@, i + 1);
                if all_digits(d@) {
                    assert(all_digits(d@.take(i + 1)));
                }
            }
            return None;
        }
        proof {
            assert(v * 10 + dv <= limit) by (nonlinear_arith)
                requires
                    v <= ((limit - dv) as int) / 10,
                    dv <= limit,
            ;
        }
        v = v * 10 + dv;
        i = i + 1;
        assert(all_digits(d@.take(i as int))) by {
            assert forall|k: int| 0 <= k < i implies is_digit(#[trigger] d@.take(i as int)[k]) by {
                if k < i - 1 {
                    assert(d@.take(i as int)[k] == d@.take(i - 1)[k]);
                }
            }
        }
    }
    assert(d@.take(d.len() as int) =~= d@);
    Some(v)
}

/// What `u32::from_str` reads: an optional `+`, then at least one decimal
/// digit, the whole text, with a value that fits in a `u32`.
pub open spec fn parse_u32_spec(s: Seq<char>) -> Option<u32> {
    let d = if s.len() > 1 && s[0] == '+' {
        s.drop_first()
    } else {
        s
    };
    if d.len() == 0 || !all_digits(d) || digits_value(d) > u32::MAX {
        None
    } else {
        Some(digits_value(d) as u32)
    }
}

pub fn parse_u32(s: &[char]) -> (r: Option<u32>)
    ensures
        r == parse_u32_spec(s@),
{
    let d = if s.len() > 1 && s[0] == '+' {
        &s[1..s.len()]
    } else {
        s
    };
    assert(s.len() > 1 && s@[0] == '+' ==> d@ =~= s@.drop_first());
    if d.len() == 0 {
        return None;
    }
    match digits_checked(d, 0xffff_ffff) {
        Some(v) => Some(v as u32),
        None => None,
    }
}

// ---------------------------------------------------------------------------
// Fixed-point decimals.

/// A decimal written `[+-]? digits [. digits]` or `[+-]? . digits`: its sign,
/// its integer digits and its fraction digits.
pub open spec fn decimal_parts(s: Seq<char>) -> Option<(bool, Seq<char>, Seq<char>)> {
    let signed = s.len() > 0 && (s[0] == '+' || s[0] == '-');
    let negative = s.len() > 0 && s[0] == '-';
    let body = if signed {
        s.drop_first()
    } else {
        s
    };
    let (whole, frac) = match crate::text::find(body, '.') {
        Some(p) => (body.subrange(0, p), body.subrange(p + 1, body.len() as int)),
        None => (body, Seq::<char>::empty()),
    };
    if all_digits(whole) && all_digits(frac) && (whole.len() > 0 || frac.len() > 0) {
        Some((negative, whole, frac))
    } else {
        None
    }
}

pub open spec fn pow10(k: nat) -> nat
    decreases k,
{
    if k == 0 {
        1
    } else {
        10 * pow10((k - 1) as nat)
    }
}

/// The first `k` fraction digits read as a number of `10^-k` units; missing
/// digits count as zeros and later ones are dropped.
pub open spec fn frac_units(frac: Seq<char>, k: nat) -> nat
    decreases k,
{
    if k == 0 {
        0
    } else {
        (if frac.len() > 0 {
            digit_value(frac[0])
        } else {
            0
        }) * pow10((k - 1) as nat) + frac_units(
            if frac.len() > 0 {
                frac.drop_first()
            } else {
                frac
            },
            (k - 1) as nat,
        )
    }
}

/// The decimal `s` counted in units of `10^-k`, truncated toward zero, when
/// it is well formed and the count fits in an `i64`.
pub open spec fn decimal_units(s: Seq<char>, k: nat) -> Option<i64> {
    match decimal_parts(s) {
        Some((negative, whole, frac)) => {
            let units = digits_value(whole) * pow10(k) + frac_units(frac, k);
            if units > i64::MAX {
                None
            } else if negative {
                Some(-(units as int) as i64)
            } else {
                Some(units as i64)
            }
        },
        None => None,
    }
}

proof fn lemma_frac_units_empty(k: nat)
    ensures
        frac_units(Seq::empty(), k) == 0,
    decreases k,
{
    if k > 0 {
        lemma_frac_units_empty((k - 1) as nat);
    }
}

/// A run of digits with no sign and no point is that many whole units:
/// its value times `10^k` units of `10^-k`.
pub proof fn lemma_whole_units(w: Seq<char>, k: nat)
    requires
        w.len() > 0,
        all_digits(w),
        digits_value(w) * pow10(k) <= i64::MAX,
    ensures
        decimal_units(w, k) == Some((digits_value(w) * pow10(k)) as i64),
{
    crate::text::lemma_find_from_bounds(w, '.', 0);
    if crate::text::find(w, '.') is Some {
        let p = crate::text::find(w, '.')->0;
        assert(is_digit(w[p]));
    }
    assert(!is_digit('+') && !is_digit('-'));
    assert(is_digit(w[0]));
    assert(all_digits(Seq::<char>::empty()));
    lemma_frac_units_empty(k);
}

/// A whole part and two fraction digits, `W.DE`, is `W` units of one and
/// `DE` hundredths, counted in thousandths.
pub proof fn lemma_hundredths_units(w: Seq<char>, f: Seq<char>)
    requires
        w.len() > 0,
        all_digits(w),
        f.len() == 2,
        all_digits(f),
        digits_value(w) * 1000 + 1000 <= i64::MAX,
    ensures
        decimal_units(w + seq!['.'] + f, 3) == Some(
            (digits_value(w) * 1000 + 10 * digits_value(f)) as i64,
        ),
        digits_value(f) < 100,
{
    let t = w + seq!['.'] + f;
    crate::text::lemma_find_from_bounds(t, '.', 0);
    assert(t[w.len() as int] == '.');
    match crate::text::find(t, '.') {
        Some(k) => {
            if k < w.len() {
                assert(t[k] == w[k]);
                assert(is_digit(w[k]));
            }
        },
        None => {},
    }
    assert(crate::text::find(t, '.') == Some(w.len() as int));
    assert(t.subrange(0, w.len() as int) =~= w);
    assert(t.subrange(w.len() as int + 1, t.len() as int) =~= f);
    assert(is_digit(t[0]));
    assert(!is_digit('+') && !is_digit('-'));
    reveal_with_fuel(pow10, 4);
    reveal_with_fuel(frac_units, 4);
    assert(f.drop_first().drop_first() =~= Seq::<char>::empty());
    assert(frac_units(f, 3) == digit_value(f[0]) * 100 + digit_value(f[1]) * 10);
    let f0 = f.drop_last();
    assert(f0 =~= seq![f[0]]);
    assert(f0.drop_last() =~= Seq::<char>::empty());
    assert(digits_value(f0.drop_last()) == 0);
    assert(digits_value(f0) == digits_value(f0.drop_last()) * 10 + digit_value(f0.last()));
    assert(digits_value(f0) == digit_value(f[0]));
    assert(digits_value(f) == digits_value(f0) * 10 + digit_value(f.last()));
    assert(digits_value(f) == digit_value(f[0]) * 10 + digit_value(f[1]));
    assert(digit_value(f[0]) <= 9 && digit_value(f[1]) <= 9);
}

proof fn lemma_frac_units_bound(frac: Seq<char>, k: nat)
    requires
        all_digits(frac),
    ensures
        frac_units(frac, k) < pow10(k),
    decreases k,
{
    if k > 0 {
        let rest = if frac.len() > 0 {
            frac.drop_first()
        } else {
            frac
        };
        assert(all_digits(rest)) by {
            if frac.len() > 0 {
                assert forall|i: int| 0 <= i < rest.len() implies is_digit(#[trigger] rest[i]) by {
                    assert(rest[i] == frac[i + 1]);
                }
            }
        }
        lemma_frac_units_bound(rest, (k - 1) as nat);
        let d: nat = if frac.len() > 0 {
            digit_value(frac[0])
        } else {
            0
        };
        if frac.len() > 0 {
            assert(is_digit(frac[0]));
        }
        assert(d <= 9);
        let p = pow10((k - 1) as nat);
        assert(d * p + frac_units(rest, (k - 1) as nat) < 10 * p) by (nonlinear_arith)
            requires
                d <= 9,
                frac_units(rest, (k - 1) as nat) < p,
        ;
    }
}

/// Reads the first `k` fraction digits (`k <= 3`).
fn frac_units_exec(frac: &[char], k: usize) -> (r: u64)
    requires
        k <= 3,
        all_digits(frac@),
    ensures
        r == frac_units(frac@, k as nat),
        r < 1000,
    decreases k,
{
    if k == 0 {
        return 0;
    }
    let (d, rest): (u64, &[char]) = if frac.len() > 0 {
        ((frac[0] as u32 - '0' as u32) as u64, &frac[1..frac.len()])
    } else {
        (0, frac)
    };
    proof {
        if frac.len() > 0 {
            assert(rest@ =~= frac@.drop_first());
            assert(is_digit(frac@[0]));
        }
        assert(all_digits(rest@)) by {
            assert forall|i: int| 0 <= i < rest@.len() implies is_digit(#[trigger] rest@[i]) by {
                if frac.len() > 0 {
                    assert(rest@[i] == frac@[i + 1]);
                }
            }
        }
        lemma_frac_units_bound(rest@, (k - 1) as nat);
        reveal_with_fuel(pow10, 4);
    }
    let p: u64 = if k == 1 {
        1
    } else if k == 2 {
        10
    } else {
        100
    };
    let tail = frac_units_exec(rest, k - 1);
    assert(p == pow10((k - 1) as nat));
    assert(d * p + tail < 1000) by (nonlinear_arith)
        requires
            d <= 9,
            tail < p,
            p <= 100,
    ;
    d * p + tail
}

/// `decimal_units` for `k <= 3`.
pub fn decimal_units_exec(s: &[char], k: usize) -> (r: Option<i64>)
    requires
        k <= 3,
    ensures
        r == decimal_units(s@, k as nat),
{
    let signed = s.len() > 0 && (s[0] == '+' || s[0] == '-');
    let negative = s.len() > 0 && s[0] == '-';
    let body: &[char] = if signed {
        &s[1..s.len()]
    } else {
        s
    };
    assert(signed ==> body@ =~= s@.drop_first());
    proof {
        crate::text::lemma_find_from_bounds(body@, '.', 0);
    }
    let (whole, frac): (&[char], &[char]) = match crate::text::find_char(body, '.') {
        Some(p) => (&body[0..p], &body[p + 1..body.len()]),
        None => (body, &body[body.len()..body.len()]),
    };
    assert(frac@.len() == 0 ==> frac@ =~= Seq::<char>::empty());
    if whole.len() == 0 && frac.len() == 0 {
        return None;
    }
    let mut frac_ok = true;
    let mut i: usize = 0;
    while i < frac.len()
        invariant
            i <= frac.len(),
            frac_ok == forall|j: int| 0 <= j < i ==> is_digit(#[trigger] frac@[j]),
        decreases frac.len() - i,
    {
        if !('0' <= frac[i] && frac[i] <= '9') {
            frac_ok = false;
        }
        i = i + 1;
    }
    if !frac_ok {
        return None;
    }
    let limit: u64 = 0x7fff_ffff_ffff_ffff;
    let w = match digits_checked(whole, limit) {
        Some(w) => w,
        None => {
            proof {
                lemma_pow10_pos(k as nat);
                if all_digits(whole@) {
                    assert(digits_value(whole@) * pow10(k as nat) >= digits_value(whole@))
                        by (nonlinear_arith)
                        requires
                            pow10(k as nat) >= 1,
                    {}
                }
            }
            return None;
        },
    };
    let f = frac_units_exec(frac, k);
    let scale: u64 = if k == 0 {
        1
    } else if k == 1 {
        10
    } else if k == 2 {
        100
    } else {
        1000
    };
    proof {
        reveal_with_fuel(pow10, 4);
    }
    assert(scale == pow10(k as nat));
    if w > (limit - f) / scale {
        assert(w * scale + f > limit) by (nonlinear_arith)
            requires
                w > ((limit - f) as int) / (scale as int),
                scale >= 1,
                f < 1000,
        ;
        return None;
    }
    assert(w * scale + f <= limit) by (nonlinear_arith)
        requires
            w <= ((limit - f) as int) / (scale as int),
            scale >= 1,
            f < 1000,
    ;
    let units = (w * scale + f) as i64;
    if negative {
        Some(-units)
    } else {
        Some(units)
    }
}

proof fn lemma_pow10_pos(k: nat)
    ensures
        pow10(k) >= 1,
    decreases k,
{
    if k > 0 {
        lemma_pow10_pos((k - 1) as nat);
    }
}

// ---------------------------------------------------------------------------
// `usize::from_str`.

/// What `usize::from_str` reads: an optional `+`, then at least one decimal
/// digit, the whole text, with a value that fits in a `usize`.
pub open spec fn parse_usize_spec(s: Seq<char>) -> Option<usize> {
    let d = if s.len() > 1 && s[0] == '+' {
        s.drop_first()
    } else {
        s
    };
    if d.len() == 0 || !all_digits(d) || digits_value(d) > usize::MAX {
        None
    } else {
        Some(digits_value(d) as usize)
    }
}

pub fn parse_usize(s: &[char]) -> (r: Option<usize>)
    ensures
        r == parse_usize_spec(s@),
{
    let d = if s.len() > 1 && s[0] == '+' {
        &s[1..s.len()]
    } else {
        s
    };
    assert(s.len() > 1 && s@[0] == '+' ==> d@ =~= s@.drop_first());
    if d.len() == 0 {
        return None;
    }
    match digits_checked(d, usize::MAX as u64) {
        Some(v) => Some(v as usize),
        None => None,
    }
}

// ---------------------------------------------------------------------------
// Writing numbers: decimal and lower-case hexadecimal, as `format!` does.

/// The digit for a value below 16: `0`-`9`, then `a`-`f`.
pub open spec fn digit_char(d: nat) -> char {
    if d < 10 {
        ((48 + d) as u8) as char
    } else {
        ((87 + d) as u8) as char
    }
}

/// `n` written in `base`, most significant digit first, without leading
/// zeros (`0` is written `0`).
pub open spec fn digits_in(n: nat, base: nat) -> Seq<char>
    recommends
        2 <= base <= 16,
    decreases n,
{
    if base < 2 || n < base {
        seq![digit_char(n % 16)]
    } else {
        proof {
            assert(n / base < n) by (nonlinear_arith)
                requires
                    base >= 2,
                    n >= base,
            ;
        }
        digits_in(n / base, base).push(digit_char(n % base))
    }
}

/// The value of a digit written by `digit_char`.
pub open spec fn digit_of(c: char) -> nat {
    if c <= '9' {
        (c as u32 - 48) as nat
    } else {
        (c as u32 - 87) as nat
    }
}

/// The number that a string of digits writes in `base`.
pub open spec fn value_in(s: Seq<char>, base: nat) -> nat
    decreases s.len(),
{
    if s.len() == 0 {
        0
    } else {
        value_in(s.drop_last(), base) * base + digit_of(s.last())
    }
}

proof fn lemma_digit_char_inverse(d: nat)
    requires
        d < 16,
    ensures
        digit_of(digit_char(d)) == d,
{
    let x: u8 = if d < 10 { (48 + d) as u8 } else { (87 + d) as u8 };
    assert(digit_char(d) == x as char);
    assert(x as char as u32 == x as u32);
}

/// Reading back what `digits_in` writes gives the number again, so two
/// numbers are written alike only when they are equal.
pub proof fn lemma_digits_in_value(n: nat, base: nat)
    requires
        2 <= base <= 16,
    ensures
        value_in(digits_in(n, base), base) == n,
    decreases n,
{
    let s = digits_in(n, base);
    if n < base {
        assert(n % 16 == n);
        lemma_digit_char_inverse(n);
        assert(s == seq![digit_char(n)]);
        assert(s.drop_last() =~= Seq::<char>::empty());
        assert(value_in(s, base) == value_in(s.drop_last(), base) * base + digit_of(s.last()));
        assert(value_in(s.drop_last(), base) == 0);
        assert(0 * base == 0) by (nonlinear_arith);
        assert(value_in(s, base) == n);
    } else {
        assert(n / base < n && n % base < base && (n / base) * base + n % base == n) by (nonlinear_arith)
            requires
                base >= 2,
                n >= base,
        ;
        lemma_digits_in_value(n / base, base);
        lemma_digit_char_inverse(n % base);
        let front = digits_in(n / base, base);
        assert(s == front.push(digit_char(n % base)));
        assert(s.drop_last() =~= front);
        assert(value_in(s, base) == value_in(front, base) * base + digit_of(digit_char(n % base)));
        assert(value_in(front, base) == n / base);
        assert(value_in(s, base) == (n / base) * base + n % base);
    }
}

fn digit_exec(d: u64) -> (c: char)
    requires
        d < 16,
    ensures
        c == digit_char(d as nat),
{
    if d < 10 {
        (48 + d as u8) as char
    } else {
        (87 + d as u8) as char
    }
}

/// `n` in `base` (`format!("{}")` for base 10, `format!("{:x}")` for 16).
pub fn write_digits(n: u64, base: u64) -> (r: Vec<char>)
    requires
        2 <= base <= 16,
    ensures
        r@ == digits_in(n as nat, base as nat),
    decreases n,
{
    if n < base {
        let mut v: Vec<char> = Vec::new();
        v.push(digit_exec(n));
        proof {
            assert(n % 16 == n);
        }
        v
    } else {
        assert(n / base < n) by (nonlinear_arith)
            requires
                base >= 2,
                n >= base,
        ;
        let mut v = write_digits(n / base, base);
        v.push(digit_exec(n % base));
        v
    }
}

/// `s` padded on the left with zeros to `width` characters.
pub open spec fn zero_padded(s: Seq<char>, width: nat) -> Seq<char> {
    if s.len() >= width {
        s
    } else {
        Seq::new((width - s.len()) as nat, |i: int| '0') + s
    }
}

pub fn pad_zeros(s: &[char], width: usize) -> (r: Vec<char>)
    ensures
        r@ == zero_padded(s@, width as nat),
{
    let mut out: Vec<char> = Vec::new();
    let mut k: usize = s.len();
    while k < width
        invariant
            s.len() <= k <= width || (k == s.len() && k >= width),
            out@ == Seq::new((k - s.len()) as nat, |i: int| '0'),
        decreases width - k,
    {
        out.push('0');
        k = k + 1;
        assert(out@ =~= Seq::new((k - s.len()) as nat, |i: int| '0'));
    }
    crate::text::append_chars(&mut out, s);
    assert(s.len() >= width ==> out@ =~= s@);
    assert(s.len() < width ==> out@ =~= zero_padded(s@, width as nat));
    out
}

// ---------------------------------------------------------------------------
// Times kept as the bit patterns of IEEE-754 doubles, compared as `f64`
// compares them, with integer operations only.

/// The key by which `f64::total_cmp` orders values: the bits as a signed
/// integer, with the magnitude bits flipped for negative values.
pub open spec fn double_key(bits: u64) -> i64 {
    (bits as i64) ^ (((((bits as i64) >> 63u64) as u64) >> 1u64) as i64)
}

pub open spec fn double_is_nan(bits: u64) -> bool {
    (bits & 0x7fff_ffff_ffff_ffffu64) > 0x7ff0_0000_0000_0000u64
}

/// `a > b` for the doubles these bits stand for: false when either is NaN,
/// false for two zeros of any sign, otherwise the total order.
pub open spec fn double_gt(a: u64, b: u64) -> bool {
    !double_is_nan(a) && !double_is_nan(b) && ((a | b) & 0x7fff_ffff_ffff_ffffu64) != 0
        && double_key(a) > double_key(b)
}

pub fn total_key(bits: u64) -> (r: i64)
    ensures
        r == double_key(bits),
{
    (bits as i64) ^ (((((bits as i64) >> 63u64) as u64) >> 1u64) as i64)
}

pub fn greater(a: u64, b: u64) -> (r: bool)
    ensures
        r == double_gt(a, b),
{
    (a & 0x7fff_ffff_ffff_ffffu64) <= 0x7ff0_0000_0000_0000u64 && (b & 0x7fff_ffff_ffff_ffffu64)
        <= 0x7ff0_0000_0000_0000u64 && ((a | b) & 0x7fff_ffff_ffff_ffffu64) != 0 && total_key(a)
        > total_key(b)
}

} // verus!
