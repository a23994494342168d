//! Rendering of unsigned integers as decimal and hexadecimal text.
use vstd::prelude::*;

verus! {

/// The decimal digit for `d < 10`.
pub open spec fn digit_char(d: nat) -> char {
    if d == 0 {
        '0'
    } else if d == 1 {
        '1'
    } else if d == 2 {
        '2'
    } else if d == 3 {
        '3'
    } else if d == 4 {
        '4'
    } else if d == 5 {
        '5'
    } else if d == 6 {
        '6'
    } else if d == 7 {
        '7'
    } else if d == 8 {
        '8'
    } else {
        '9'
    }
}

/// The lowercase hexadecimal digit for `d < 16`.
pub open spec fn hex_char(d: nat) -> char {
    if d < 10 {
        digit_char(d)
    } else if d == 10 {
        'a'
    } else if d == 11 {
        'b'
    } else if d == 12 {
        'c'
    } else if d == 13 {
        'd'
    } else if d == 14 {
        'e'
    } else {
        'f'
    }
}

/// The decimal representation of `n`, without leading zeros (`{}`).
pub open spec fn decimal(n: nat) -> Seq<char>
    decreases n,
{
    if n < 10 {
        seq![digit_char(n)]
    } else {
        decimal(n / 10).push(digit_char(n % 10))
    }
}

/// `k` zero characters.
pub open spec fn zeros(k: nat) -> Seq<char> {
    Seq::new(k, |i: int| '0')
}

/// The decimal representation of `n`, left-padded with zeros to at least
/// `w` characters (`{:0w}`).
pub open spec fn decimal_padded(n: nat, w: nat) -> Seq<char> {
    if decimal(n).len() >= w {
        decimal(n)
    } else {
        zeros((w - decimal(n).len()) as nat) + decimal(n)
    }
}

/// The last `w` hexadecimal digits of `n`, most significant first.
pub open spec fn hex_digits(n: nat, w: nat) -> Seq<char>
    decreases w,
{
    if w == 0 {
        seq![]
    } else {
        hex_digits(n / 16, (w - 1) as nat).push(hex_char(n % 16))
    }
}

/// The value of a digit character.
pub open spec fn digit_value(c: char) -> nat {
    if c == '0' {
        0
    } else if c == '1' {
        1
    } else if c == '2' {
        2
    } else if c == '3' {
        3
    } else if c == '4' {
        4
    } else if c == '5' {
        5
    } else if c == '6' {
        6
    } else if c == '7' {
        7
    } else if c == '8' {
        8
    } else {
        9
    }
}

/// Whether `c` is one of `0`..`9`.
pub open spec fn is_digit(c: char) -> bool {
    c == '0' || c == '1' || c == '2' || c == '3' || c == '4' || c == '5' || c == '6' || c == '7'
        || c == '8' || c == '9'
}

/// The number that a string of decimal digits denotes.
pub open spec fn digits_value(s: Seq<char>) -> nat
    decreases s.len(),
{
    if s.len() == 0 {
        0
    } else {
        digits_value(s.drop_last()) * 10 + digit_value(s.last())
    }
}

/// Sixteen to the power `w`.
pub open spec fn pow16(w: nat) -> nat
    decreases w,
{
    if w == 0 {
        1
    } else {
        16 * pow16((w - 1) as nat)
    }
}

proof fn lemma_hex_char_injective(x: nat, y: nat)
    requires
        x < 16,
        y < 16,
        hex_char(x) == hex_char(y),
    ensures
        x == y,
{
}

/// Law: `w` hexadecimal digits tell apart every two numbers below `16^w`.
pub proof fn hex_digits_injective(a: nat, b: nat, w: nat)
    requires
        hex_digits(a, w) == hex_digits(b, w),
        a < pow16(w),
        b < pow16(w),
    ensures
        a == b,
    decreases w,
{
    if w > 0 {
        let v = (w - 1) as nat;
        let sa = hex_digits(a, w);
        let sb = hex_digits(b, w);
        assert(sa.drop_last() =~= hex_digits(a / 16, v));
        assert(sb.drop_last() =~= hex_digits(b / 16, v));
        assert(sa.last() == hex_char(a % 16));
        assert(sb.last() == hex_char(b % 16));
        lemma_hex_char_injective(a % 16, b % 16);
        assert(a / 16 < pow16(v) && b / 16 < pow16(v)) by (nonlinear_arith)
            requires
                a < 16 * pow16(v),
                b < 16 * pow16(v),
        ;
        hex_digits_injective(a / 16, b / 16, v);
        assert(a == 16 * (a / 16) + a % 16 && b == 16 * (b / 16) + b % 16) by (nonlinear_arith);
    }
}

proof fn lemma_pow16_positive(w: nat)
    ensures
        pow16(w) > 0,
    decreases w,
{
    if w > 0 {
        lemma_pow16_positive((w - 1) as nat);
    }
}

/// `w` hexadecimal digits of a number are those of its remainder modulo
/// `16^w`.
pub proof fn lemma_hex_digits_mod(n: nat, w: nat)
    ensures
        hex_digits(n, w) == hex_digits(n % pow16(w), w),
    decreases w,
{
    if w > 0 {
        let v = (w - 1) as nat;
        let p = pow16(v);
        lemma_pow16_positive(v);
        let m = n % pow16(w);
        vstd::arithmetic::div_mod::lemma_mod_breakdown(n as int, 16, p as int);
        assert(pow16(w) == 16 * p);
        let q = (n / 16) % p;
        let r = n % 16;
        assert(m == 16 * q + r);
        vstd::arithmetic::div_mod::lemma_fundamental_div_mod_converse(m as int, 16, q as int, r as int);
        lemma_hex_digits_mod(n / 16, v);
    }
}

/// Law: `w` hexadecimal digits of two numbers agree exactly when the
/// numbers agree modulo `16^w`.
pub proof fn hex_digits_agree_iff_congruent(a: nat, b: nat, w: nat)
    ensures
        (hex_digits(a, w) == hex_digits(b, w)) == (a % pow16(w) == b % pow16(w)),
{
    lemma_pow16_positive(w);
    lemma_hex_digits_mod(a, w);
    lemma_hex_digits_mod(b, w);
    if hex_digits(a, w) == hex_digits(b, w) {
        hex_digits_injective(a % pow16(w), b % pow16(w), w);
    }
}

/// Every 64-bit number is below `16^16`.
pub proof fn lemma_u64_below_pow16(x: u64)
    ensures
        (x as nat) < pow16(16),
{
    assert(pow16(16) == 0x1_0000_0000_0000_0000) by {
        reveal_with_fuel(pow16, 17);
    }
}

fn digit(d: u64) -> (c: char)
    requires
        d < 10,
    ensures
        c == digit_char(d as nat),
{
    if d == 0 {
        '0'
    } else if d == 1 {
        '1'
    } else if d == 2 {
        '2'
    } else if d == 3 {
        '3'
    } else if d == 4 {
        '4'
    } else if d == 5 {
        '5'
    } else if d == 6 {
        '6'
    } else if d == 7 {
        '7'
    } else if d == 8 {
        '8'
    } else {
        '9'
    }
}

fn hex_digit(d: u64) -> (c: char)
    requires
        d < 16,
    ensures
        c == hex_char(d as nat),
{
    if d < 10 {
        digit(d)
    } else if d == 10 {
        'a'
    } else if d == 11 {
        'b'
    } else if d == 12 {
        'c'
    } else if d == 13 {
        'd'
    } else if d == 14 {
        'e'
    } else {
        'f'
    }
}

/// The decimal digits of `n` (`format!("{}", n)`).
pub fn decimal_chars(n: u64) -> (r: Vec<char>)
    ensures
        r@ == decimal(n as nat),
{
    let mut out: Vec<char> = Vec::new();
    let mut m = n;
    proof {
        assert(decimal(n as nat) =~= decimal(m as nat) + out@);
    }
    while m >= 10
        invariant
            decimal(n as nat) == decimal(m as nat) + out@,
        decreases m,
    {
        let ghost before = out@;
        out.insert(0, digit(m % 10));
        assert(decimal(m as nat) == decimal((m / 10) as nat).push(digit_char((m % 10) as nat)));
        assert(decimal(n as nat) =~= decimal((m / 10) as nat) + out@);
        m = m / 10;
    }
    let ghost before = out@;
    out.insert(0, digit(m));
    assert(out@ =~= decimal(m as nat) + before);
    out
}

/// The decimal digits of `n`, left-padded with zeros to `w` characters.
pub fn decimal_padded_chars(n: u64, w: usize) -> (r: Vec<char>)
    ensures
        r@ == decimal_padded(n as nat, w as nat),
{
    let d = decimal_chars(n);
    if d.len() >= w {
        return d;
    }
    let mut out: Vec<char> = Vec::new();
    let pad = w - d.len();
    while out.len() < pad
        invariant
            out@.len() <= pad,
            out@ == zeros(out@.len()),
        decreases pad - out@.len(),
    {
        out.push('0');
        assert(out@ =~= zeros(out@.len()));
    }
    crate::text::append_chars(&mut out, &d);
    out
}

/// The last `w` hexadecimal digits of `n`, zero-padded, most significant
/// first.
pub fn hex_chars(n: u64, w: usize) -> (r: Vec<char>)
    ensures
        r@ == hex_digits(n as nat, w as nat),
{
    let mut out: Vec<char> = Vec::new();
    let mut m = n;
    let mut k: usize = 0;
    assert(hex_digits(n as nat, w as nat) =~= hex_digits(m as nat, w as nat) + out@);
    while k < w
        invariant
            k <= w,
            hex_digits(n as nat, w as nat) == hex_digits(m as nat, (w - k) as nat) + out@,
        decreases w - k,
    {
        out.insert(0, hex_digit(m % 16));
        assert(hex_digits(n as nat, w as nat) =~= hex_digits((m / 16) as nat, (w - k - 1) as nat)
            + out@);
        m = m / 16;
        k = k + 1;
    }
    assert(hex_digits(m as nat, 0) =~= Seq::<char>::empty());
    assert(out@ =~= hex_digits(n as nat, w as nat));
    out
}

// ---------------------------------------------------------------------
// Lemmas: decimal text denotes its number
// ---------------------------------------------------------------------

pub proof fn lemma_decimal_digits(n: nat)
    ensures
        digits_value(decimal(n)) == n,
        forall|i: int| 0 <= i < decimal(n).len() ==> is_digit(#[trigger] decimal(n)[i]),
        decimal(n).len() >= 1,
    decreases n,
{
    if n >= 10 {
        lemma_decimal_digits(n / 10);
        let d = decimal(n);
        assert(d.drop_last() =~= decimal(n / 10));
        lemma_digit_roundtrip(n % 10);
        assert(d.last() == digit_char(n % 10));
        assert(digits_value(d) == digits_value(decimal(n / 10)) * 10 + digit_value(d.last()));
        assert((n / 10) * 10 + n % 10 == n);
        assert forall|i: int| 0 <= i < d.len() implies is_digit(#[trigger] d[i]) by {
            if i < d.len() - 1 {
                assert(d[i] == decimal(n / 10)[i]);
            }
        }
    } else {
        lemma_digit_roundtrip(n);
        let d = decimal(n);
        assert(d.drop_last() =~= Seq::<char>::empty());
        assert(digits_value(d) == digits_value(d.drop_last()) * 10 + digit_value(d.last()));
    }
}

proof fn lemma_digit_roundtrip(d: nat)
    requires
        d < 10,
    ensures
        digit_value(digit_char(d)) == d,
        is_digit(digit_char(d)),
{
}

proof fn lemma_zeros_value(k: nat, s: Seq<char>)
    ensures
        digits_value(zeros(k) + s) == digits_value(s) + digits_value(zeros(k)) * pow10(
            s.len(),
        ),
        digits_value(zeros(k)) == 0,
    decreases s.len(), k,
{
    if s.len() == 0 {
        assert(zeros(k) + s =~= zeros(k));
        lemma_zeros_zero(k);
    } else {
        lemma_zeros_value(k, s.drop_last());
        assert((zeros(k) + s).drop_last() =~= zeros(k) + s.drop_last());
        lemma_zeros_zero(k);
    }
}

proof fn lemma_zeros_zero(k: nat)
    ensures
        digits_value(zeros(k)) == 0,
    decreases k,
{
    if k > 0 {
        assert(zeros(k).drop_last() =~= zeros((k - 1) as nat));
        lemma_zeros_zero((k - 1) as nat);
    }
}

/// `10^e`.
pub open spec fn pow10(e: nat) -> nat
    decreases e,
{
    if e == 0 {
        1
    } else {
        10 * pow10((e - 1) as nat)
    }
}

/// Law: zero-padded decimal text denotes its number and is made of digits.
pub proof fn decimal_padded_denotes(n: nat, w: nat)
    ensures
        digits_value(decimal_padded(n, w)) == n,
        forall|i: int|
            0 <= i < decimal_padded(n, w).len() ==> is_digit(#[trigger] decimal_padded(n, w)[i]),
        decimal_padded(n, w).len() >= w,
{
    lemma_decimal_digits(n);
    if decimal(n).len() < w {
        let z = zeros((w - decimal(n).len()) as nat);
        lemma_zeros_value((w - decimal(n).len()) as nat, decimal(n));
        assert forall|i: int|
            0 <= i < decimal_padded(n, w).len() implies is_digit(
            #[trigger] decimal_padded(n, w)[i],
        ) by {
            if i >= z.len() {
                assert(decimal_padded(n, w)[i] == decimal(n)[i - z.len()]);
            }
        }
    }
}

} // verus!
