use vstd::prelude::*;
use crate::value::{Decimal, NumKind, Number};

verus! {

pub open spec fn pow10(n: nat) -> int
    decreases n,
{
    if n == 0 { 1 } else { 10 * pow10((n - 1) as nat) }
}

/// The least value of an integer kind.
pub open spec fn min_of(k: NumKind) -> int {
    match k {
        NumKind::I32 => i32::MIN as int,
        NumKind::I64 => i64::MIN as int,
        _ => 0,
    }
}

/// The greatest value of an integer kind.
pub open spec fn max_of(k: NumKind) -> int {
    match k {
        NumKind::I32 => i32::MAX as int,
        NumKind::U32 => u32::MAX as int,
        NumKind::I64 => i64::MAX as int,
        _ => u64::MAX as int,
    }
}

pub open spec fn is_integer_kind(k: NumKind) -> bool {
    k != NumKind::F64
}

/// The integer held by an integer number.
pub open spec fn int_value(n: Number) -> int {
    match n {
        Number::I32(x) => x as int,
        Number::U32(x) => x as int,
        Number::I64(x) => x as int,
        Number::U64(x) => x as int,
        Number::F64(_) => 0,
    }
}

/// The number of integer kind `k` holding `x` (which lies in its range).
pub open spec fn make_int(k: NumKind, x: int) -> Number {
    match k {
        NumKind::I32 => Number::I32(x as i32),
        NumKind::U32 => Number::U32(x as u32),
        NumKind::I64 => Number::I64(x as i64),
        _ => Number::U64(x as u64),
    }
}

pub open spec fn clamp(x: int, lo: int, hi: int) -> int {
    if x < lo { lo } else if x > hi { hi } else { x }
}

/// A decimal rounded to the nearest integer, halves away from zero.
pub open spec fn round_decimal(d: Decimal) -> int {
    if d.exponent >= 0 {
        d.mantissa * pow10(d.exponent as nat)
    } else {
        let q = pow10((-d.exponent) as nat);
        let a = if d.mantissa < 0 { -d.mantissa } else { d.mantissa as int };
        let r = (a + q / 2) / q;
        if d.mantissa < 0 { -r } else { r }
    }
}

/// Converting a number to another numeric kind: integers convert when the value fits the
/// target, integers become exact decimals, and decimals are rounded and then saturated to
/// the target's range.
pub open spec fn convert_number(n: Number, to: NumKind) -> Option<Number> {
    match n {
        Number::F64(d) => if to == NumKind::F64 {
            Some(n)
        } else {
            Some(make_int(to, clamp(round_decimal(d), min_of(to), max_of(to))))
        },
        _ => if to == NumKind::F64 {
            Some(Number::F64(Decimal { mantissa: int_value(n) as i128, exponent: 0 }))
        } else if min_of(to) <= int_value(n) <= max_of(to) {
            Some(make_int(to, int_value(n)))
        } else {
            None
        },
    }
}

/// Each number of `s` converted to the kind `k`, leaving out those that do not convert.
pub open spec fn convert_items(s: Seq<Number>, k: NumKind) -> Seq<Number>
    decreases s.len(),
{
    if s.len() == 0 {
        Seq::empty()
    } else {
        let rest = convert_items(s.drop_last(), k);
        match convert_number(s.last(), k) {
            Some(n) => rest.push(n),
            None => rest,
        }
    }
}

/// Each number of `s` converted to the kind `k`, or `None` if any does not convert.
pub open spec fn convert_items_strict(s: Seq<Number>, k: NumKind) -> Option<Seq<Number>>
    decreases s.len(),
{
    if s.len() == 0 {
        Some(Seq::empty())
    } else {
        match (convert_items_strict(s.drop_last(), k), convert_number(s.last(), k)) {
            (Some(rest), Some(n)) => Some(rest.push(n)),
            _ => None,
        }
    }
}

/// Converted numbers are of the kind they were converted to.
pub proof fn lemma_converted_kinds(s: Seq<Number>, k: NumKind)
    ensures
        forall|i: int| 0 <= i < convert_items(s, k).len() ==> (#[trigger] convert_items(s, k)[i]).kind() == k,
        convert_items_strict(s, k) matches Some(t) ==> forall|i: int| 0 <= i < t.len() ==> (#[trigger] t[i]).kind() == k,
    decreases s.len(),
{
    if s.len() > 0 {
        lemma_converted_kinds(s.drop_last(), k);
    }
}

pub proof fn lemma_convert_items_push(s: Seq<Number>, x: Number, k: NumKind)
    ensures
        convert_items(s.push(x), k) == match convert_number(x, k) {
            Some(n) => convert_items(s, k).push(n),
            None => convert_items(s, k),
        },
{
    assert(s.push(x).drop_last() =~= s);
}

pub open spec fn is_digit(c: char) -> bool {
    '0' <= c && c <= '9'
}

pub open spec fn digit_of(c: char) -> int {
    c as int - '0' as int
}

/// The value of a sequence of decimal digits.
pub open spec fn digits_value(s: Seq<char>) -> int
    decreases s.len(),
{
    if s.len() == 0 { 0 } else { digits_value(s.drop_last()) * 10 + digit_of(s.last()) }
}

/// The number of consecutive digits of `s` from position `i` on.
pub open spec fn run(s: Seq<char>, i: int) -> int
    decreases s.len() - i,
{
    if 0 <= i < s.len() && is_digit(s[i]) { 1 + run(s, i + 1) } else { 0 }
}

/// The length of the sign that begins `s` at position `i` (0 or 1).
pub open spec fn sign_len(s: Seq<char>, i: int) -> int {
    if 0 <= i < s.len() && (s[i] == '+' || s[i] == '-') { 1 } else { 0 }
}

pub open spec fn apply_sign(s: Seq<char>, i: int, v: int) -> int {
    if 0 <= i < s.len() && s[i] == '-' { -v } else { v }
}

/// The integer that `s` writes: an optional sign and one or more decimal digits.
pub open spec fn integer_text(s: Seq<char>) -> Option<int> {
    let a = sign_len(s, 0);
    let n = run(s, a);
    if n >= 1 && a + n == s.len() {
        Some(apply_sign(s, 0, digits_value(s.subrange(a, a + n))))
    } else {
        None
    }
}

/// The decimal that `s` writes, as a pair (mantissa, exponent): an optional sign, digits,
/// optionally a point followed by digits, with at least one digit before or after the
/// point, and optionally `e` or `E` with an optionally signed exponent of one or more
/// digits.
pub open spec fn decimal_text(s: Seq<char>) -> Option<(int, int)> {
    let a = sign_len(s, 0);
    let n1 = run(s, a);
    let p = a + n1;
    let has_frac = p < s.len() && s[p] == '.';
    let n2 = if has_frac { run(s, p + 1) } else { 0 };
    let q = if has_frac { p + 1 + n2 } else { p };
    let mantissa = apply_sign(
        s,
        0,
        digits_value(s.subrange(a, p) + s.subrange(if has_frac { p + 1 } else { p }, q)),
    );
    if n1 + n2 == 0 {
        None
    } else {
        match exponent_text(s, q) {
            Some(e) => Some((mantissa, e - n2)),
            None => None,
        }
    }
}

/// The exponent written from position `q` to the end of `s`: nothing (zero), or `e` or `E`
/// followed by an optionally signed run of one or more digits.
pub open spec fn exponent_text(s: Seq<char>, q: int) -> Option<int> {
    if q == s.len() {
        Some(0)
    } else if 0 <= q < s.len() && (s[q] == 'e' || s[q] == 'E') {
        let b = q + 1;
        let c = b + sign_len(s, b);
        let n3 = run(s, c);
        if n3 >= 1 && c + n3 == s.len() {
            Some(apply_sign(s, b, digits_value(s.subrange(c, c + n3))))
        } else {
            None
        }
    } else {
        None
    }
}

pub open spec fn fits_i128(v: int) -> bool {
    -(i128::MAX as int) <= v <= i128::MAX as int
}

/// What `parse_integer` returns on `s`.
pub open spec fn parsed_integer(s: Seq<char>) -> Option<i128> {
    match integer_text(s) {
        Some(v) => if fits_i128(v) { Some(v as i128) } else { None },
        None => None,
    }
}

/// What `parse_decimal` returns on `s`.
pub open spec fn parsed_decimal(s: Seq<char>) -> Option<Decimal> {
    match decimal_text(s) {
        Some((m, e)) => if fits_i128(m) && i32::MIN <= e <= i32::MAX {
            Some(Decimal { mantissa: m as i128, exponent: e as i32 })
        } else {
            None
        },
        None => None,
    }
}

/// Reading text as a number of the given kind. An unsigned kind takes no leading `-`.
pub open spec fn text_to_number(s: Seq<char>, to: NumKind) -> Option<Number> {
    if to == NumKind::F64 {
        match parsed_decimal(s) {
            Some(d) => Some(Number::F64(d)),
            None => None,
        }
    } else {
        match integer_text(s) {
            Some(v) => if min_of(to) <= v <= max_of(to) && !(s.len() > 0 && s[0] == '-'
                && min_of(to) == 0) {
                Some(make_int(to, v))
            } else {
                None
            },
            None => None,
        }
    }
}

proof fn lemma_pow10_positive(n: nat)
    ensures
        pow10(n) >= 1,
    decreases n,
{
    if n > 0 {
        lemma_pow10_positive((n - 1) as nat);
    }
}

proof fn lemma_pow10_monotone(a: nat, b: nat)
    requires
        a <= b,
    ensures
        pow10(a) <= pow10(b),
    decreases b,
{
    if a < b {
        lemma_pow10_monotone(a, (b - 1) as nat);
        lemma_pow10_positive((b - 1) as nat);
    }
}

proof fn lemma_pow10_split(a: nat, b: nat)
    ensures
        pow10(a + b) == pow10(a) * pow10(b),
    decreases a,
{
    if a > 0 {
        lemma_pow10_split((a - 1) as nat, b);
        assert(pow10(a + b) == 10 * pow10((a - 1 + b) as nat));
        assert(10 * (pow10((a - 1) as nat) * pow10(b)) == (10 * pow10((a - 1) as nat)) * pow10(b))
            by (nonlinear_arith);
    }
}

proof fn lemma_pow10_large()
    ensures
        pow10(38) == 100_000_000_000_000_000_000_000_000_000_000_000_000,
        pow10(39) == 1_000_000_000_000_000_000_000_000_000_000_000_000_000,
{
    reveal_with_fuel(pow10, 40);
}

fn min_max(k: NumKind) -> (r: (i128, i128))
    requires
        is_integer_kind(k),
    ensures
        r.0 == min_of(k),
        r.1 == max_of(k),
{
    match k {
        NumKind::I32 => (i32::MIN as i128, i32::MAX as i128),
        NumKind::U32 => (0, u32::MAX as i128),
        NumKind::I64 => (i64::MIN as i128, i64::MAX as i128),
        _ => (0, u64::MAX as i128),
    }
}

fn make_int_exec(k: NumKind, x: i128) -> (r: Number)
    requires
        is_integer_kind(k),
        min_of(k) <= x <= max_of(k),
    ensures
        r == make_int(k, x as int),
{
    match k {
        NumKind::I32 => Number::I32(x as i32),
        NumKind::U32 => Number::U32(x as u32),
        NumKind::I64 => Number::I64(x as i64),
        _ => Number::U64(x as u64),
    }
}

/// Rounds a decimal to the nearest integer (halves away from zero) and saturates it to
/// `[lo, hi]`.
fn round_clamped(d: Decimal, lo: i128, hi: i128) -> (r: i128)
    requires
        -0x1_0000_0000_0000_0000 <= lo <= 0 <= hi <= 0x1_0000_0000_0000_0000,
    ensures
        r == clamp(round_decimal(d), lo as int, hi as int),
{
    let m = d.mantissa;
    if d.exponent >= 0 {
        let e = d.exponent as u32;
        let mut v: i128 = m;
        let mut i: u32 = 0;
        if m > hi {
            proof {
                lemma_pow10_positive(e as nat);
                assert(m * pow10(e as nat) >= m) by (nonlinear_arith)
                    requires pow10(e as nat) >= 1, m > 0;
            }
            return hi;
        }
        if m < lo {
            proof {
                lemma_pow10_positive(e as nat);
                assert(m * pow10(e as nat) <= m) by (nonlinear_arith)
                    requires pow10(e as nat) >= 1, m < 0;
            }
            return lo;
        }
        while i < e
            invariant
                i <= e,
                e == d.exponent,
                m == d.mantissa,
                v == m * pow10(i as nat),
                lo <= v <= hi,
                -0x1_0000_0000_0000_0000 <= lo <= 0 <= hi <= 0x1_0000_0000_0000_0000,
            decreases e - i,
        {
            let w = v * 10;
            proof {
                assert(w == m * pow10((i + 1) as nat)) by (nonlinear_arith)
                    requires w == v * 10, v == m * pow10(i as nat),
                        pow10((i + 1) as nat) == 10 * pow10(i as nat);
                lemma_pow10_split((i + 1) as nat, (e - i - 1) as nat);
                lemma_pow10_positive((e - i - 1) as nat);
                assert(m * pow10(e as nat) == w * pow10((e - i - 1) as nat)) by (nonlinear_arith)
                    requires w == m * pow10((i + 1) as nat),
                        pow10(e as nat) == pow10((i + 1) as nat) * pow10((e - i - 1) as nat);
            }
            if w > hi {
                proof {
                    assert(w * pow10((e - i - 1) as nat) >= w) by (nonlinear_arith)
                        requires pow10((e - i - 1) as nat) >= 1, w > 0;
                }
                return hi;
            }
            if w < lo {
                proof {
                    assert(w * pow10((e - i - 1) as nat) <= w) by (nonlinear_arith)
                        requires pow10((e - i - 1) as nat) >= 1, w < 0;
                }
                return lo;
            }
            v = w;
            i = i + 1;
        }
        v
    } else {
        let k: i64 = -(d.exponent as i64);
        let a: u128 = if m < 0 { (-(m + 1)) as u128 + 1 } else { m as u128 };
        if k >= 39 {
            proof {
                lemma_pow10_monotone(39, k as nat);
                lemma_pow10_large();
                let q = pow10(k as nat);
                assert(a < q / 2);
                assert((a + q / 2) / q == 0) by (nonlinear_arith)
                    requires 0 <= a, a < q / 2, q >= 2;
            }
            return 0;
        }
        let mut q: u128 = 1;
        let mut i: i64 = 0;
        proof {
            lemma_pow10_large();
            lemma_pow10_monotone(0, 38);
        }
        while i < k
            invariant
                0 <= i <= k <= 38,
                q == pow10(i as nat),
                q <= pow10(38),
            decreases k - i,
        {
            proof {
                lemma_pow10_monotone((i + 1) as nat, 38);
                lemma_pow10_large();
            }
            q = q * 10;
            i = i + 1;
        }
        proof {
            lemma_pow10_monotone(1, k as nat);
            lemma_pow10_large();
        }
        let r: u128 = (a + q / 2) / q;
        proof {
            let (ai, qi, ri) = (a as int, q as int, r as int);
            assert(ri * qi <= ai + qi / 2) by (nonlinear_arith)
                requires ri == (ai + qi / 2) / qi, qi >= 10, ai >= 0;
            assert(ri < ai || ri == 0) by (nonlinear_arith)
                requires ri * qi <= ai + qi / 2, qi >= 10, ai >= 0, ri >= 0;
        }
        let s: i128 = if m < 0 { -(r as i128) } else { r as i128 };
        if s < lo {
            lo
        } else if s > hi {
            hi
        } else {
            s
        }
    }
}

/// Converts a number to the given kind (see `convert_number`).
pub fn number_to_kind(n: Number, to: NumKind) -> (r: Option<Number>)
    ensures
        r == convert_number(n, to),
{
    let x: i128 = match n {
        Number::I32(x) => x as i128,
        Number::U32(x) => x as i128,
        Number::I64(x) => x as i128,
        Number::U64(x) => x as i128,
        Number::F64(d) => {
            if to == NumKind::F64 {
                return Some(n);
            }
            let (lo, hi) = min_max(to);
            let v = round_clamped(d, lo, hi);
            return Some(make_int_exec(to, v));
        },
    };
    if to == NumKind::F64 {
        return Some(Number::F64(Decimal { mantissa: x, exponent: 0 }));
    }
    let (lo, hi) = min_max(to);
    if lo <= x && x <= hi {
        Some(make_int_exec(to, x))
    } else {
        None
    }
}

proof fn lemma_run_digits(s: Seq<char>, i: int, k: int)
    requires
        0 <= i <= k < i + run(s, i),
    ensures
        0 <= k < s.len(),
        is_digit(s[k]),
    decreases k - i,
{
    if k > i {
        lemma_run_digits(s, i + 1, k);
    }
}

proof fn lemma_digits_nonneg(s: Seq<char>)
    requires
        forall|k: int| 0 <= k < s.len() ==> is_digit(#[trigger] s[k]),
    ensures
        digits_value(s) >= 0,
    decreases s.len(),
{
    if s.len() > 0 {
        lemma_digits_nonneg(s.drop_last());
    }
}

proof fn lemma_digits_grow(p: Seq<char>, r: Seq<char>)
    requires
        forall|k: int| 0 <= k < p.len() ==> is_digit(#[trigger] p[k]),
        forall|k: int| 0 <= k < r.len() ==> is_digit(#[trigger] r[k]),
    ensures
        digits_value(p + r) >= digits_value(p),
    decreases r.len(),
{
    if r.len() > 0 {
        lemma_digits_grow(p, r.drop_last());
        assert((p + r).drop_last() =~= p + r.drop_last());
        assert(forall|k: int| 0 <= k < (p + r.drop_last()).len() ==> is_digit(#[trigger] (p + r.drop_last())[k]));
        lemma_digits_nonneg(p + r.drop_last());
    }
}

/// The end of the run of digits of `s` that starts at `i`.
fn digit_run(s: &[char], i: usize) -> (j: usize)
    requires
        i <= s@.len(),
    ensures
        j == i + run(s@, i as int),
        i <= j <= s@.len(),
{
    let mut j = i;
    while j < s.len() && '0' <= s[j] && s[j] <= '9'
        invariant
            i <= j <= s@.len(),
            run(s@, i as int) == (j - i) + run(s@, j as int),
        decreases s@.len() - j,
    {
        j = j + 1;
    }
    j
}

/// Extends `acc`, the value of the digits `prefix`, by the digits `s[from..to]`; `None`
/// when the value grows past `bound`.
fn accumulate(s: &[char], from: usize, to: usize, acc: u128, bound: u128, Ghost(prefix): Ghost<Seq<char>>)
    -> (r: Option<u128>)
    requires
        from <= to <= s@.len(),
        to - from <= run(s@, from as int),
        acc == digits_value(prefix),
        acc <= bound,
        10 <= bound <= i128::MAX,
        forall|k: int| 0 <= k < prefix.len() ==> is_digit(#[trigger] prefix[k]),
    ensures
        match r {
            Some(v) => v <= bound && v == digits_value(prefix + s@.subrange(from as int, to as int)),
            None => digits_value(prefix + s@.subrange(from as int, to as int)) > bound,
        },
{
    let mut v = acc;
    let mut j = from;
    proof {
        assert(prefix + s@.subrange(from as int, from as int) =~= prefix);
    }
    while j < to
        invariant
            from <= j <= to <= s@.len(),
            to - from <= run(s@, from as int),
            v == digits_value(prefix + s@.subrange(from as int, j as int)),
            v <= bound,
            10 <= bound <= i128::MAX,
            forall|k: int| 0 <= k < prefix.len() ==> is_digit(#[trigger] prefix[k]),
        decreases to - j,
    {
        proof {
            lemma_run_digits(s@, from as int, j as int);
        }
        let d = (s[j] as u32 - '0' as u32) as u128;
        let ghost t = prefix + s@.subrange(from as int, j as int + 1);
        proof {
            assert(t.drop_last() =~= prefix + s@.subrange(from as int, j as int));
            assert(t.last() == s@[j as int]);
            assert forall|k: int| 0 <= k < (s@.subrange(j as int + 1, to as int)).len() implies is_digit(
                #[trigger] s@.subrange(j as int + 1, to as int)[k]) by {
                lemma_run_digits(s@, from as int, j + 1 + k);
            }
            assert forall|k: int| 0 <= k < t.len() implies is_digit(#[trigger] t[k]) by {
                if k >= prefix.len() {
                    lemma_run_digits(s@, from as int, from + k - prefix.len());
                }
            }
            assert(prefix + s@.subrange(from as int, to as int) =~= t + s@.subrange(j as int + 1, to as int));
            lemma_digits_grow(t, s@.subrange(j as int + 1, to as int));
        }
        if v > (bound - d) / 10 {
            return None;
        }
        v = v * 10 + d;
        j = j + 1;
    }
    Some(v)
}

/// Whether `s` is written as an integer (see `integer_text`).
pub fn integer_shape(s: &[char]) -> (r: bool)
    ensures
        r == integer_text(s@) is Some,
{
    let a: usize = if s.len() > 0 && (s[0] == '+' || s[0] == '-') { 1 } else { 0 };
    let e = digit_run(s, a);
    e != a && e == s.len()
}

/// Reads an optionally signed decimal integer (see `integer_text`); `None` also when its
/// magnitude exceeds `i128::MAX`.
pub fn parse_integer(s: &[char]) -> (r: Option<i128>)
    ensures
        r == parsed_integer(s@),
{
    let a: usize = if s.len() > 0 && (s[0] == '+' || s[0] == '-') { 1 } else { 0 };
    let e = digit_run(s, a);
    if e == a || e != s.len() {
        return None;
    }
    proof {
        assert(Seq::<char>::empty() + s@.subrange(a as int, e as int) =~= s@.subrange(a as int, e as int));
    }
    match accumulate(s, a, e, 0, i128::MAX as u128, Ghost(Seq::empty())) {
        Some(v) => if a == 1 && s[0] == '-' { Some(-(v as i128)) } else { Some(v as i128) },
        None => None,
    }
}

proof fn lemma_run_nonneg(s: Seq<char>, i: int)
    ensures
        run(s, i) >= 0,
    decreases s.len() - i,
{
    if 0 <= i < s.len() && is_digit(s[i]) {
        lemma_run_nonneg(s, i + 1);
    }
}

/// Reads the exponent part from position `q` on (see `exponent_text`); `None` also when its
/// magnitude exceeds 2^65.
fn parse_exponent(s: &[char], q: usize) -> (r: Option<i128>)
    requires
        q <= s@.len(),
    ensures
        match r {
            Some(v) => exponent_text(s@, q as int) == Some(v as int),
            None => match exponent_text(s@, q as int) {
                Some(e) => e > 0x2_0000_0000_0000_0000 || e < -0x2_0000_0000_0000_0000,
                None => true,
            },
        },
        r matches Some(v) ==> -0x2_0000_0000_0000_0000 <= v <= 0x2_0000_0000_0000_0000,
{
    if q == s.len() {
        return Some(0);
    }
    if !(s[q] == 'e' || s[q] == 'E') {
        return None;
    }
    let b = q + 1;
    let c: usize = if b < s.len() && (s[b] == '+' || s[b] == '-') { b + 1 } else { b };
    let f = digit_run(s, c);
    if f == c || f != s.len() {
        return None;
    }
    proof {
        assert(Seq::<char>::empty() + s@.subrange(c as int, f as int) =~= s@.subrange(c as int, f as int));
    }
    match accumulate(s, c, f, 0, 0x2_0000_0000_0000_0000, Ghost(Seq::empty())) {
        Some(v) => if c == b + 1 && s[b] == '-' { Some(-(v as i128)) } else { Some(v as i128) },
        None => None,
    }
}

/// Reads a decimal number (see `decimal_text`); `None` also when the mantissa's magnitude
/// exceeds `i128::MAX` or the exponent lies outside the range of `i32`.
#[verifier::rlimit(30)]
pub fn parse_decimal(s: &[char]) -> (r: Option<Decimal>)
    ensures
        r == parsed_decimal(s@),
{
    let ghost sv = s@;
    let a: usize = if s.len() > 0 && (s[0] == '+' || s[0] == '-') { 1 } else { 0 };
    let p = digit_run(s, a);
    let has_frac = p < s.len() && s[p] == '.';
    let q = if has_frac { digit_run(s, p + 1) } else { p };
    let n2: usize = if has_frac { q - p - 1 } else { 0 };
    if p == a && n2 == 0 {
        return None;
    }
    proof {
        lemma_run_nonneg(sv, p as int);
        assert(Seq::<char>::empty() + sv.subrange(a as int, p as int) =~= sv.subrange(a as int, p as int));
        assert forall|k: int| 0 <= k < sv.subrange(a as int, p as int).len() implies is_digit(
            #[trigger] sv.subrange(a as int, p as int)[k]) by {
            lemma_run_digits(sv, a as int, a + k);
        }
    }
    let int_part = match accumulate(s, a, p, 0, i128::MAX as u128, Ghost(Seq::empty())) {
        Some(v) => v,
        None => {
            proof {
                let f = sv.subrange(if has_frac { p + 1 } else { p as int }, q as int);
                assert forall|k: int| 0 <= k < f.len() implies is_digit(#[trigger] f[k]) by {
                    if has_frac {
                        lemma_run_digits(sv, p + 1, p + 1 + k);
                    }
                }
                lemma_digits_grow(sv.subrange(a as int, p as int), f);
            }
            return None;
        },
    };
    let fs: usize = if has_frac { p + 1 } else { p };
    let mant = match accumulate(s, fs, q, int_part, i128::MAX as u128, Ghost(sv.subrange(a as int, p as int))) {
        Some(v) => v,
        None => return None,
    };
    let mantissa: i128 = if a == 1 && s[0] == '-' { -(mant as i128) } else { mant as i128 };
    let exp = match parse_exponent(s, q) {
        Some(v) => v,
        None => return None,
    };
    proof {
        if exponent_text(sv, q as int) is None {
            assert(decimal_text(sv) is None);
        }
    }
    let total: i128 = exp - n2 as i128;
    if total < i32::MIN as i128 || total > i32::MAX as i128 {
        return None;
    }
    Some(Decimal { mantissa, exponent: total as i32 })
}

/// Reads text as a number of the given kind (see `text_to_number`).
pub fn text_to_number_exec(s: &[char], to: NumKind) -> (r: Option<Number>)
    ensures
        r == text_to_number(s@, to),
{
    if to == NumKind::F64 {
        return match parse_decimal(s) {
            Some(d) => Some(Number::F64(d)),
            None => None,
        };
    }
    let (lo, hi) = min_max(to);
    match parse_integer(s) {
        Some(v) => {
            if lo <= v && v <= hi && !(s.len() > 0 && s[0] == '-' && lo == 0) {
                Some(make_int_exec(to, v))
            } else {
                None
            }
        },
        None => None,
    }
}

} // verus!
