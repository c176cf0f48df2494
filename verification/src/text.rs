//! Numbers as text: decimal for the wire, hexadecimal for identifiers.

use vstd::prelude::*;

verus! {

/// The character that stands for `d` in any base up to sixteen.
pub open spec fn digit_char(d: nat) -> char {
    if d < 10 {
        (48 + d) as char
    } else {
        (87 + d) as char
    }
}

/// `n` written in `base`, most significant digit first and without leading
/// zeros. Zero is a single digit.
pub open spec fn digits(n: nat, base: nat) -> Seq<char>
    decreases n,
    via digits_decreases
{
    if n < base || base < 2 {
        seq![digit_char(n)]
    } else {
        digits(n / base, base).push(digit_char(n % base))
    }
}

#[via_fn]
proof fn digits_decreases(n: nat, base: nat) {
    if n >= base && base >= 2 {
        lemma_quotient_shrinks(n, base);
    }
}

/// `n` in decimal.
pub open spec fn decimal(n: nat) -> Seq<char> {
    digits(n, 10)
}

/// `n` in lower-case hexadecimal.
pub open spec fn hex(n: nat) -> Seq<char> {
    digits(n, 16)
}

/// The lowest `width` digits of `n` in hexadecimal.
pub open spec fn fixed(n: nat, width: nat) -> Seq<char>
    decreases width,
{
    if width == 0 {
        Seq::empty()
    } else {
        fixed(n / 16, (width - 1) as nat).push(digit_char(n % 16))
    }
}

proof fn lemma_quotient_shrinks(n: nat, base: nat)
    requires
        base >= 2,
        n >= base,
    ensures
        n / base < n,
        n / base >= 1,
        n % base < base,
        n == base * (n / base) + n % base,
{
    vstd::arithmetic::div_mod::lemma_fundamental_div_mod(n as int, base as int);
    assert(n / base < n) by (nonlinear_arith)
        requires
            n == base * (n / base) + n % base,
            n % base >= 0,
            base >= 2,
            n >= base,
    ;
    assert(n / base >= 1) by (nonlinear_arith)
        requires
            n == base * (n / base) + n % base,
            n % base < base,
            base >= 2,
            n >= base,
    ;
}

/// The one-character text of a digit.
fn digit_text(d: u64) -> (text: &'static str)
    requires
        d < 16,
    ensures
        text@ == seq![digit_char(d as nat)],
{
    proof {
        reveal_strlit("0");
        reveal_strlit("1");
        reveal_strlit("2");
        reveal_strlit("3");
        reveal_strlit("4");
        reveal_strlit("5");
        reveal_strlit("6");
        reveal_strlit("7");
        reveal_strlit("8");
        reveal_strlit("9");
        reveal_strlit("a");
        reveal_strlit("b");
        reveal_strlit("c");
        reveal_strlit("d");
        reveal_strlit("e");
        reveal_strlit("f");
    }
    if d == 0 {
        "0"
    } else if d == 1 {
        "1"
    } else if d == 2 {
        "2"
    } else if d == 3 {
        "3"
    } else if d == 4 {
        "4"
    } else if d == 5 {
        "5"
    } else if d == 6 {
        "6"
    } else if d == 7 {
        "7"
    } else if d == 8 {
        "8"
    } else if d == 9 {
        "9"
    } else if d == 10 {
        "a"
    } else if d == 11 {
        "b"
    } else if d == 12 {
        "c"
    } else if d == 13 {
        "d"
    } else if d == 14 {
        "e"
    } else {
        "f"
    }
}

/// Append `n` in `base` to `out`.
fn push_digits(out: &mut String, n: u64, base: u64)
    requires
        2 <= base <= 16,
    ensures
        final(out)@ == old(out)@ + digits(n as nat, base as nat),
    decreases n,
{
    if n >= base {
        proof {
            lemma_quotient_shrinks(n as nat, base as nat);
        }
        push_digits(out, n / base, base);
    }
    out.append(digit_text(n % base));
    proof {
        if n < base {
            assert(n % base == n) by (nonlinear_arith)
                requires
                    n < base,
            ;
        }
        assert(out@ =~= old(out)@ + digits(n as nat, base as nat));
    }
}

/// Append `n` in decimal to `out`.
pub fn push_decimal(out: &mut String, n: u64)
    ensures
        final(out)@ == old(out)@ + decimal(n as nat),
{
    push_digits(out, n, 10);
}

/// Append `n` in hexadecimal to `out`.
pub fn push_hex(out: &mut String, n: u64)
    ensures
        final(out)@ == old(out)@ + hex(n as nat),
{
    push_digits(out, n, 16);
}

/// Append the lowest `width` digits of `n` in hexadecimal to `out`.
pub fn push_fixed(out: &mut String, n: u64, width: usize)
    ensures
        final(out)@ == old(out)@ + fixed(n as nat, width as nat),
    decreases width,
{
    if width > 0 {
        push_fixed(out, n / 16, width - 1);
        out.append(digit_text(n % 16));
    }
    assert(out@ =~= old(out)@ + fixed(n as nat, width as nat));
}

/// Whether `width` hexadecimal digits are enough for `n`.
pub open spec fn fits(n: nat, width: nat) -> bool
    decreases width,
{
    if width == 0 {
        n == 0
    } else {
        fits(n / 16, (width - 1) as nat)
    }
}

/// `a` sorts before `b`: it is smaller at the first place where they differ.
pub open spec fn precedes(a: Seq<char>, b: Seq<char>) -> bool {
    exists|k: int| #[trigger] differs_first_at(a, b, k)
}

/// `a` and `b` agree before `k`, and there `a` is smaller.
pub open spec fn differs_first_at(a: Seq<char>, b: Seq<char>, k: int) -> bool {
    0 <= k < a.len() && k < b.len() && (a[k] as u32) < (b[k] as u32) && forall|j: int|
        0 <= j < k ==> #[trigger] a[j] == b[j]
}

proof fn lemma_fixed_len(n: nat, width: nat)
    ensures
        fixed(n, width).len() == width,
    decreases width,
{
    if width > 0 {
        lemma_fixed_len(n / 16, (width - 1) as nat);
    }
}

proof fn lemma_fixed_order(a: nat, b: nat, width: nat) -> (k: int)
    requires
        a < b,
        fits(a, width),
        fits(b, width),
    ensures
        differs_first_at(fixed(a, width), fixed(b, width), k),
    decreases width,
{
    lemma_fixed_len(a, width);
    lemma_fixed_len(b, width);
    let narrower = (width - 1) as nat;
    lemma_fixed_len(a / 16, narrower);
    lemma_fixed_len(b / 16, narrower);
    let x = fixed(a, width);
    let y = fixed(b, width);
    if a / 16 < b / 16 {
        let k = lemma_fixed_order(a / 16, b / 16, narrower);
        let p = fixed(a / 16, narrower);
        let q = fixed(b / 16, narrower);
        assert(x[k] == p[k] && y[k] == q[k]);
        assert forall|j: int| 0 <= j < k implies #[trigger] x[j] == y[j] by {
            assert(x[j] == p[j] && y[j] == q[j]);
        }
        k
    } else {
        assert(a / 16 == b / 16);
        assert(a % 16 < b % 16);
        let k = width - 1;
        assert forall|j: int| 0 <= j < k implies #[trigger] x[j] == y[j] by {
            assert(x[j] == fixed(a / 16, narrower)[j]);
        }
        k
    }
}

/// Numbers written with the same number of digits, which are enough for them,
/// sort as they count, whatever is written after them.
pub proof fn numbers_of_one_width_sort(
    a: nat,
    b: nat,
    width: nat,
    x: Seq<char>,
    y: Seq<char>,
)
    requires
        a < b,
        fits(a, width),
        fits(b, width),
    ensures
        precedes(fixed(a, width) + x, fixed(b, width) + y),
{
    let k = lemma_fixed_order(a, b, width);
    let p = fixed(a, width);
    let q = fixed(b, width);
    assert((p + x)[k] == p[k] && (q + y)[k] == q[k]);
    assert forall|j: int| 0 <= j < k implies #[trigger] (p + x)[j] == (q + y)[j] by {
        assert((p + x)[j] == p[j] && (q + y)[j] == q[j]);
    }
    assert(differs_first_at(p + x, q + y, k));
}

/// Sixteen digits are enough for any number of sixty-four bits.
pub proof fn sixteen_digits_fit(n: u64)
    ensures
        fits(n as nat, 16),
{
    reveal_with_fuel(fits, 17);
}

/// What a digit counts for, in any base up to sixteen. Anything else counts for
/// less than nothing.
pub open spec fn digit_value(c: char) -> int {
    let code = c as int;
    if 48 <= code <= 57 {
        code - 48
    } else if 97 <= code <= 102 {
        code - 87
    } else {
        -1
    }
}

/// Whether `s` is a number in `base`: some digits, and nothing but digits.
pub open spec fn is_number(s: Seq<char>, base: int) -> bool {
    s.len() > 0 && forall|i: int|
        0 <= i < s.len() ==> 0 <= digit_value(#[trigger] s[i]) && digit_value(s[i]) < base
}

/// The number that `s` is in `base`.
pub open spec fn value(s: Seq<char>, base: int) -> int
    decreases s.len(),
{
    if s.len() == 0 {
        0
    } else {
        value(s.drop_last(), base) * base + digit_value(s.last())
    }
}

proof fn lemma_value_push(s: Seq<char>, c: char, base: int)
    ensures
        value(s.push(c), base) == value(s, base) * base + digit_value(c),
{
    assert(s.push(c).drop_last() =~= s);
}

proof fn lemma_digits_read_back(n: nat, base: nat)
    requires
        2 <= base <= 16,
    ensures
        is_number(digits(n, base), base as int),
        value(digits(n, base), base as int) == n,
        digits(n, base)[0] == '0' ==> n == 0 && digits(n, base).len() == 1,
    decreases n,
{
    if n < base {
        let s = digits(n, base);
        assert(s =~= Seq::<char>::empty().push(digit_char(n)));
        lemma_value_push(Seq::empty(), digit_char(n), base as int);
        assert(value(Seq::empty(), base as int) * base == 0) by (nonlinear_arith)
            requires
                value(Seq::empty(), base as int) == 0,
        ;
    } else {
        lemma_quotient_shrinks(n, base);
        let high = digits(n / base, base);
        let low = digit_char(n % base);
        lemma_digits_read_back(n / base, base);
        lemma_value_push(high, low, base as int);
        vstd::arithmetic::mul::lemma_mul_is_commutative(base as int, (n / base) as int);
        assert(digits(n, base)[0] == high[0]);
        assert forall|i: int| 0 <= i < digits(n, base).len() implies 0 <= digit_value(
            #[trigger] digits(n, base)[i],
        ) && digit_value(digits(n, base)[i]) < base by {
            if i < high.len() {
                assert(digits(n, base)[i] == high[i]);
            }
        }
    }
}

/// A number written in decimal is read back as itself, and is written without
/// leading zeros.
pub proof fn decimals_are_read_back(n: nat)
    ensures
        is_number(decimal(n), 10),
        value(decimal(n), 10) == n,
        decimal(n)[0] == '0' ==> n == 0 && decimal(n).len() == 1,
{
    lemma_digits_read_back(n, 10);
}

/// So is one written in hexadecimal.
pub proof fn hexadecimals_are_read_back(n: nat)
    ensures
        is_number(hex(n), 16),
        value(hex(n), 16) == n,
        hex(n)[0] == '0' ==> n == 0 && hex(n).len() == 1,
{
    lemma_digits_read_back(n, 16);
}

proof fn lemma_fixed_reads_back(n: nat, width: nat)
    requires
        fits(n, width),
    ensures
        fixed(n, width).len() == width,
        value(fixed(n, width), 16) == n,
        forall|i: int|
            0 <= i < width ==> 0 <= digit_value(#[trigger] fixed(n, width)[i]) && digit_value(
                fixed(n, width)[i],
            ) < 16,
    decreases width,
{
    if width > 0 {
        let narrower = (width - 1) as nat;
        let high = fixed(n / 16, narrower);
        lemma_fixed_reads_back(n / 16, narrower);
        lemma_value_push(high, digit_char(n % 16), 16);
        assert forall|i: int| 0 <= i < width implies 0 <= digit_value(
            #[trigger] fixed(n, width)[i],
        ) && digit_value(fixed(n, width)[i]) < 16 by {
            if i < high.len() {
                assert(fixed(n, width)[i] == high[i]);
            }
        }
    }
}

/// Any number of sixty-four bits written with sixteen digits is read back as
/// itself.
pub proof fn sixteen_digits_are_read_back(n: u64)
    ensures
        fixed(n as nat, 16).len() == 16,
        is_number(fixed(n as nat, 16), 16),
        value(fixed(n as nat, 16), 16) == n,
{
    sixteen_digits_fit(n);
    lemma_fixed_reads_back(n as nat, 16);
}

/// Sorting is strict: nothing sorts before itself, and no two texts sort before
/// each other.
pub proof fn sorting_is_strict(a: Seq<char>, b: Seq<char>)
    requires
        precedes(a, b),
    ensures
        a != b,
        !precedes(b, a),
{
    let k = choose|k: int| #[trigger] differs_first_at(a, b, k);
    if precedes(b, a) {
        let j = choose|j: int| #[trigger] differs_first_at(b, a, j);
        if k < j {
            assert(b[k] == a[k]);
        } else if j < k {
            assert(a[j] == b[j]);
        }
    }
}

} // verus!
