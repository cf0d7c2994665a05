//! Decimal and hexadecimal rendering of unsigned integers.
use vstd::prelude::*;

verus! {

/// The digit for value `d` (0..16), lower-case for values from ten on.
pub open spec fn digit_char(d: int) -> char {
    "0123456789abcdef"@[d]
}

/// The digits of `n` in base `base`, most significant first, without leading zeros.
pub open spec fn digits(n: nat, base: nat) -> Seq<char>
    decreases n,
{
    if base < 2 || n < base {
        seq![digit_char(n as int)]
    } else {
        proof {
            assert(n / base < n) by (nonlinear_arith)
                requires
                    base >= 2,
                    n >= base,
            ;
        }
        digits(n / base, base).push(digit_char((n % base) as int))
    }
}

pub open spec fn decimal(n: nat) -> Seq<char> {
    digits(n, 10)
}

pub open spec fn hex(n: nat) -> Seq<char> {
    digits(n, 16)
}

/// Appends the digits of `n` in base `base` to `s`.
pub fn push_digits(s: &mut String, n: u64, base: u64)
    requires
        2 <= base <= 16,
    ensures
        final(s)@ == old(s)@ + digits(n as nat, base as nat),
    decreases n,
{
    if n >= base {
        assert(n / base < n) by (nonlinear_arith)
            requires
                base >= 2,
                n >= base,
        ;
        push_digits(s, n / base, base);
    }
    let d = (n % base) as usize;
    proof {
        reveal_strlit("0123456789abcdef");
    }
    let digit = "0123456789abcdef".substring_char(d, d + 1);
    assert(digit@ =~= seq![digit_char(d as int)]);
    s.append(digit);
}

pub fn push_decimal(s: &mut String, n: u64)
    ensures
        final(s)@ == old(s)@ + decimal(n as nat),
{
    push_digits(s, n, 10);
}

pub fn push_hex(s: &mut String, n: u64)
    ensures
        final(s)@ == old(s)@ + hex(n as nat),
{
    push_digits(s, n, 16);
}

} // verus!
