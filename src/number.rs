//! Numbers are IEEE-754 single-precision values, held as their bit pattern.
//! The arithmetic itself is carried out by rustc_apfloat's software `Single`.
use rustc_apfloat::ieee::Single;
use rustc_apfloat::Float;
use crate::parse::{digits_end, is_digit};
use vstd::prelude::*;

verus! {

/// The bit pattern that `Single::from_str` gives for a text, if it reads it.
pub uninterp spec fn single_parse(s: Seq<char>) -> Option<u32>;

/// The text that `Single`'s `Display` writes for a bit pattern with `p`
/// significant digits at most.
pub uninterp spec fn single_text(b: u32, p: nat) -> Seq<char>;

/// The bit pattern of `a + b`, rounded to nearest, ties to even.
pub uninterp spec fn single_add(a: u32, b: u32) -> u32;

/// The bit pattern of `a - b`, rounded to nearest, ties to even.
pub uninterp spec fn single_sub(a: u32, b: u32) -> u32;

/// The bit pattern of `a * b`, rounded to nearest, ties to even.
pub uninterp spec fn single_mul(a: u32, b: u32) -> u32;

/// The bit pattern of `a / b`, rounded to nearest, ties to even.
pub uninterp spec fn single_div(a: u32, b: u32) -> u32;

/// The bit pattern of the single nearest to an integer.
pub uninterp spec fn single_of_int(i: int) -> u32;

/// The integer that a single truncates to toward zero, saturated to the range
/// of `i32`, with a NaN giving 0.
pub uninterp spec fn single_to_i32(b: u32) -> i32;

/// The magnitude bits of a single: all but the sign.
pub open spec fn magnitude(b: u32) -> int {
    (b % 0x8000_0000) as int
}

/// A key that orders singles that are not NaN as IEEE does: the magnitude,
/// negated when the sign is set (so both zeros have key 0).
pub open spec fn order_key(b: u32) -> int {
    if b >= 0x8000_0000 { -magnitude(b) } else { magnitude(b) }
}

/// IEEE comparison of two singles: `None` when either is a NaN (a magnitude
/// above that of infinity).
pub open spec fn single_cmp(a: u32, b: u32) -> Option<core::cmp::Ordering> {
    if magnitude(a) > 0x7f80_0000 || magnitude(b) > 0x7f80_0000 {
        None
    } else if order_key(a) < order_key(b) {
        Some(core::cmp::Ordering::Less)
    } else if order_key(a) > order_key(b) {
        Some(core::cmp::Ordering::Greater)
    } else {
        Some(core::cmp::Ordering::Equal)
    }
}

/// Relies on `Single::from_str` (round to nearest): reads a decimal or
/// hexadecimal number, `inf` or `nan`.
#[verifier::external_body]
pub(crate) fn parse_single(s: &str) -> (r: Option<u32>)
    ensures
        r == single_parse(s@),
{
    s.parse::<Single>().ok().map(|x| x.to_bits() as u32)
}

/// Relies on `Single`'s `Display` with a precision of `p` digits (and its
/// default width): LLVM's decimal form, in exponent form (`1.0E+4`) once the
/// digits would need more than three padding zeros; `+Inf`, `-Inf`, `NaN`.
/// A precision of 0 is left out: the printer then keeps no digit.
#[verifier::external_body]
pub(crate) fn single_to_text(b: u32, p: usize) -> (r: String)
    requires
        p >= 1,
    ensures
        r@ == single_text(b, p as nat),
{
    format!("{:.*}", p, Single::from_bits(b as u128))
}

/// Relies on `Single`'s `Add`: IEEE addition.
#[verifier::external_body]
pub(crate) fn add_single(a: u32, b: u32) -> (r: u32)
    ensures
        r == single_add(a, b),
{
    (Single::from_bits(a as u128) + Single::from_bits(b as u128)).value.to_bits() as u32
}

/// Relies on `Single`'s `Sub`: IEEE subtraction.
#[verifier::external_body]
pub(crate) fn sub_single(a: u32, b: u32) -> (r: u32)
    ensures
        r == single_sub(a, b),
{
    (Single::from_bits(a as u128) - Single::from_bits(b as u128)).value.to_bits() as u32
}

/// Relies on `Single`'s `Mul`: IEEE multiplication.
#[verifier::external_body]
pub(crate) fn mul_single(a: u32, b: u32) -> (r: u32)
    ensures
        r == single_mul(a, b),
{
    (Single::from_bits(a as u128) * Single::from_bits(b as u128)).value.to_bits() as u32
}

/// Relies on `Single`'s `Div`: IEEE division.
#[verifier::external_body]
pub(crate) fn div_single(a: u32, b: u32) -> (r: u32)
    ensures
        r == single_div(a, b),
{
    (Single::from_bits(a as u128) / Single::from_bits(b as u128)).value.to_bits() as u32
}

/// Relies on `Single::from_i128`: the nearest single to an integer.
#[verifier::external_body]
pub(crate) fn single_from_int(i: i128) -> (r: u32)
    ensures
        r == single_of_int(i as int),
{
    Single::from_i128(i).value.to_bits() as u32
}

/// Relies on `Single::to_i128` with a width of 32: truncation toward zero,
/// saturated to the range of `i32` (a NaN gives 0), so the result fits.
#[verifier::external_body]
pub(crate) fn single_to_int(b: u32) -> (r: i32)
    ensures
        r == single_to_i32(b),
{
    Single::from_bits(b as u128).to_i128(32).value as i32
}

/// IEEE comparison of two singles.
pub fn compare_single(a: u32, b: u32) -> (r: Option<core::cmp::Ordering>)
    ensures
        r == single_cmp(a, b),
{
    let ma = a % 0x8000_0000;
    let mb = b % 0x8000_0000;
    if ma > 0x7f80_0000 || mb > 0x7f80_0000 {
        return None;
    }
    let ka: i64 = if a >= 0x8000_0000 { -(ma as i64) } else { ma as i64 };
    let kb: i64 = if b >= 0x8000_0000 { -(mb as i64) } else { mb as i64 };
    if ka < kb {
        Some(core::cmp::Ordering::Less)
    } else if ka > kb {
        Some(core::cmp::Ordering::Greater)
    } else {
        Some(core::cmp::Ordering::Equal)
    }
}

/// `n` zeros.
pub open spec fn zeros(n: nat) -> Seq<char>
    decreases n,
{
    if n == 0 { Seq::empty() } else { zeros((n - 1) as nat).push('0') }
}

/// Digits without their trailing zeros, keeping at least one digit.
pub open spec fn strip_zeros(s: Seq<char>) -> Seq<char>
    decreases s.len(),
{
    if s.len() > 1 && s.last() == '0' { strip_zeros(s.drop_last()) } else { s }
}

/// The value of a string of decimal digits.
pub open spec fn digits_value(s: Seq<char>) -> nat
    decreases s.len(),
{
    if s.len() == 0 { 0 } else { digits_value(s.drop_last()) * 10 + (s.last() as nat - '0' as nat) as nat }
}

/// The position of the first `E` at or after `i`, or the length.
pub open spec fn find_e(t: Seq<char>, i: int) -> int
    decreases t.len() - i,
{
    if i < 0 || i >= t.len() || t[i] == 'E' { if i < 0 { 0 } else { i } } else { find_e(t, i + 1) }
}

/// Significant digits `ds`, the first of them at the power `e` of ten, as
/// plain decimal text.
pub open spec fn place(ds: Seq<char>, e: int) -> Seq<char> {
    let n = ds.len() as int;
    if e >= n - 1 {
        ds + zeros((e - n + 1) as nat)
    } else if e >= 0 {
        ds.subrange(0, e + 1) + seq!['.'] + ds.subrange(e + 1, n)
    } else {
        seq!['0', '.'] + zeros((-e - 1) as nat) + ds
    }
}

/// Whether a mantissa is one digit, or one digit, a point and more digits.
pub open spec fn mantissa_form(m: Seq<char>) -> bool {
    m.len() >= 1 && is_digit(m[0]) && (m.len() == 1 || (m.len() >= 3 && m[1] == '.' && digits_end(m, 2) == m.len()))
}

/// A number's text without exponent form: `D.DDDE±N` becomes plain decimal,
/// `+Inf` becomes `inf` and `-Inf` becomes `-inf`; any other text is kept.
pub open spec fn plain(t: Seq<char>) -> Seq<char> {
    let i = find_e(t, 0);
    if t == seq!['+', 'I', 'n', 'f'] {
        seq!['i', 'n', 'f']
    } else if t == seq!['-', 'I', 'n', 'f'] {
        seq!['-', 'i', 'n', 'f']
    } else if i >= t.len() {
        t
    } else {
        let m = t.subrange(0, i);
        let x = t.subrange(i + 1, t.len() as int);
        let neg = m.len() > 0 && m[0] == '-';
        let body = if neg { m.drop_first() } else { m };
        let signed = x.len() > 0 && (x[0] == '-' || x[0] == '+');
        let ed = if signed { x.drop_first() } else { x };
        if !(mantissa_form(body) && 1 <= ed.len() <= 3 && digits_end(ed, 0) == ed.len()) {
            t
        } else {
            let raw = if body.len() == 1 { body } else { seq![body[0]] + body.subrange(2, body.len() as int) };
            let e = if signed && x[0] == '-' { -(digits_value(ed) as int) } else { digits_value(ed) as int };
            (if neg { seq!['-'] } else { Seq::empty() }) + place(strip_zeros(raw), e)
        }
    }
}

fn push_zeros(out: &mut Vec<char>, n: usize)
    ensures
        final(out)@ == old(out)@ + zeros(n as nat),
{
    let mut k: usize = 0;
    while k < n
        invariant
            k <= n,
            out@ == old(out)@ + zeros(k as nat),
        decreases n - k,
    {
        out.push('0');
        k = k + 1;
        assert(out@ =~= old(out)@ + zeros(k as nat));
    }
}

fn push_range(out: &mut Vec<char>, s: &Vec<char>, from: usize, to: usize)
    requires
        from <= to <= s@.len(),
    ensures
        final(out)@ == old(out)@ + s@.subrange(from as int, to as int),
{
    let mut k = from;
    while k < to
        invariant
            from <= k <= to,
            to <= s@.len(),
            out@ == old(out)@ + s@.subrange(from as int, k as int),
        decreases to - k,
    {
        out.push(s[k]);
        k = k + 1;
        assert(out@ =~= old(out)@ + s@.subrange(from as int, k as int));
    }
}

/// Whether `t[from..to]` has mantissa form.
fn mantissa_ok(t: &Vec<char>, from: usize, to: usize) -> (r: bool)
    requires
        from <= to <= t@.len(),
    ensures
        r == mantissa_form(t@.subrange(from as int, to as int)),
{
    let ghost body = t@.subrange(from as int, to as int);
    let blen = to - from;
    if blen < 1 || !('0' <= t[from] && t[from] <= '9') {
        return false;
    }
    if blen == 1 {
        return true;
    }
    if blen < 3 || t[from + 1] != '.' {
        return false;
    }
    let mut k = from + 2;
    while k < to && '0' <= t[k] && t[k] <= '9'
        invariant
            from + 2 <= k <= to,
            to <= t@.len(),
            body == t@.subrange(from as int, to as int),
            digits_end(body, 2) == digits_end(body, k - from),
        decreases to - k,
    {
        k = k + 1;
    }
    k == to
}

/// The value of `t[from..]` when it is one to three decimal digits.
fn exponent_value(t: &Vec<char>, from: usize) -> (r: Option<u64>)
    requires
        from <= t@.len(),
    ensures
        ({
            let ed = t@.subrange(from as int, t@.len() as int);
            match r {
                Some(v) => 1 <= ed.len() <= 3 && digits_end(ed, 0) == ed.len() && v as nat == digits_value(ed) && v < 1000,
                None => !(1 <= ed.len() <= 3 && digits_end(ed, 0) == ed.len()),
            }
        }),
{
    let ghost ed = t@.subrange(from as int, t@.len() as int);
    let n = t.len();
    if n - from < 1 || n - from > 3 {
        return None;
    }
    let mut ev: u64 = 0;
    let mut k = from;
    assert(ed.subrange(0, 0) =~= Seq::<char>::empty());
    while k < n
        invariant
            from <= k <= n,
            n == t@.len(),
            n - from <= 3,
            ed == t@.subrange(from as int, n as int),
            digits_end(ed, 0) == digits_end(ed, k - from),
            ev as nat == digits_value(ed.subrange(0, k - from)),
            k - from == 0 ==> ev == 0,
            k - from == 1 ==> ev <= 9,
            k - from == 2 ==> ev <= 99,
            k - from == 3 ==> ev <= 999,
        decreases n - k,
    {
        if !('0' <= t[k] && t[k] <= '9') {
            assert(ed[k - from] == t@[k as int]);
            return None;
        }
        assert(ed.subrange(0, k + 1 - from).drop_last() =~= ed.subrange(0, k - from));
        ev = ev * 10 + (t[k] as u64 - '0' as u64);
        k = k + 1;
    }
    assert(ed.subrange(0, ed.len() as int) =~= ed);
    Some(ev)
}

/// The digits of a mantissa `t[from..to]` without its point and trailing zeros.
fn significant(t: &Vec<char>, from: usize, to: usize) -> (r: Vec<char>)
    requires
        from <= to <= t@.len(),
        mantissa_form(t@.subrange(from as int, to as int)),
    ensures
        ({
            let body = t@.subrange(from as int, to as int);
            r@ == strip_zeros(if body.len() == 1 { body } else { seq![body[0]] + body.subrange(2, body.len() as int) })
        }),
        r@.len() >= 1,
        r@.len() <= t@.len(),
{
    let ghost body = t@.subrange(from as int, to as int);
    let mut raw: Vec<char> = Vec::new();
    raw.push(t[from]);
    if to - from > 1 {
        push_range(&mut raw, t, from + 2, to);
    }
    assert(raw@ =~= (if body.len() == 1 { body } else { seq![body[0]] + body.subrange(2, body.len() as int) }));
    while raw.len() > 1 && raw[raw.len() - 1] == '0'
        invariant
            raw@.len() >= 1,
            raw@.len() <= t@.len(),
            strip_zeros(raw@) == strip_zeros(if body.len() == 1 { body } else { seq![body[0]] + body.subrange(2, body.len() as int) }),
        decreases raw@.len(),
    {
        raw.pop();
    }
    raw
}

/// Digits placed at a power of ten, as plain decimal text, after a prefix.
fn place_exec(out: &mut Vec<char>, raw: &Vec<char>, e: i64)
    requires
        raw@.len() >= 1,
        -1000 < e < 1000,
    ensures
        final(out)@ == old(out)@ + place(raw@, e as int),
{
    let dn = raw.len();
    if e >= 0 && e as usize >= dn - 1 {
        push_range(out, raw, 0, dn);
        push_zeros(out, e as usize - (dn - 1));
        assert(raw@.subrange(0, dn as int) =~= raw@);
    } else if e >= 0 {
        push_range(out, raw, 0, (e + 1) as usize);
        out.push('.');
        push_range(out, raw, (e + 1) as usize, dn);
    } else {
        out.push('0');
        out.push('.');
        push_zeros(out, (-e - 1) as usize);
        push_range(out, raw, 0, dn);
        assert(raw@.subrange(0, dn as int) =~= raw@);
    }
    assert(final(out)@ =~= old(out)@ + place(raw@, e as int));
}

/// A number's text without exponent form.
pub fn plain_text(t: &Vec<char>) -> (r: Vec<char>)
    ensures
        r@ == plain(t@),
{
    let n = t.len();
    if n == 4 && t[1] == 'I' && t[2] == 'n' && t[3] == 'f' && (t[0] == '+' || t[0] == '-') {
        let mut r: Vec<char> = Vec::new();
        if t[0] == '-' {
            r.push('-');
        }
        r.push('i');
        r.push('n');
        r.push('f');
        assert(t@ =~= seq![t@[0], 'I', 'n', 'f']);
        if t[0] == '-' {
            assert(r@ =~= seq!['-', 'i', 'n', 'f']);
        } else {
            assert(r@ =~= seq!['i', 'n', 'f']);
        }
        return r;
    }
    assert(t@ != seq!['+', 'I', 'n', 'f'] && t@ != seq!['-', 'I', 'n', 'f']) by {
        if t@ == seq!['+', 'I', 'n', 'f'] || t@ == seq!['-', 'I', 'n', 'f'] {
            assert(t@[1] == 'I' && t@[2] == 'n' && t@[3] == 'f');
        }
    }
    let mut i: usize = 0;
    while i < n && t[i] != 'E'
        invariant
            i <= n,
            n == t@.len(),
            find_e(t@, 0) == find_e(t@, i as int),
        decreases n - i,
    {
        i = i + 1;
    }
    if i >= n {
        return t.clone();
    }
    let ghost m = t@.subrange(0, i as int);
    let ghost x = t@.subrange(i + 1, n as int);
    let neg = i > 0 && t[0] == '-';
    let ms: usize = if neg { 1 } else { 0 };
    let ghost body = if neg { m.drop_first() } else { m };
    assert(body =~= t@.subrange(ms as int, i as int));
    let signed = i + 1 < n && (t[i + 1] == '-' || t[i + 1] == '+');
    let es: usize = if signed { i + 2 } else { i + 1 };
    let ghost ed = if signed { x.drop_first() } else { x };
    assert(ed =~= t@.subrange(es as int, n as int));
    if !mantissa_ok(t, ms, i) {
        return t.clone();
    }
    let ev = match exponent_value(t, es) {
        Some(v) => v,
        None => {
            return t.clone();
        },
    };
    let raw = significant(t, ms, i);
    let e: i64 = if signed && t[i + 1] == '-' { -(ev as i64) } else { ev as i64 };
    let mut r: Vec<char> = Vec::new();
    if neg {
        r.push('-');
    }
    let ghost pre = r@;
    place_exec(&mut r, &raw, e);
    assert(pre =~= (if neg { seq!['-'] } else { Seq::<char>::empty() }));
    r
}
} // verus!
