//! Small numeric routines with exact contracts.

use vstd::prelude::*;

verus! {

/// The Fibonacci sequence: 0, 1, 1, 2, 3, 5, ...
pub open spec fn fib(n: nat) -> nat
    decreases n,
{
    if n == 0 {
        0
    } else if n == 1 {
        1
    } else {
        fib((n - 2) as nat) + fib((n - 1) as nat)
    }
}

/// The largest index whose Fibonacci number fits in 64 bits.
pub const FIBONACCI_MAX_INDEX: u32 = 93;

/// The Fibonacci sequence never decreases.
pub proof fn lemma_fib_monotonic(i: nat, j: nat)
    requires
        i <= j,
    ensures
        fib(i) <= fib(j),
    decreases j,
{
    if i < j {
        lemma_fib_monotonic(i, (j - 1) as nat);
    }
}

/// The sequence that starts with `a`, `b` and continues as the Fibonacci
/// sequence does, read at position `k`.
pub open spec fn fib_from(a: nat, b: nat, k: nat) -> nat
    decreases k,
{
    if k == 0 {
        a
    } else {
        fib_from(b, a + b, (k - 1) as nat)
    }
}

/// Walking `k` steps on from two neighbouring Fibonacci numbers reaches the
/// Fibonacci number `k` places further.
pub proof fn lemma_fib_from(n: nat, k: nat)
    ensures
        fib_from(fib(n), fib(n + 1), k) == fib(n + k),
    decreases k,
{
    if k > 0 {
        lemma_fib_from(n + 1, (k - 1) as nat);
    }
}

/// Every Fibonacci number up to index 93 fits in a `u64`.
pub proof fn lemma_fib_fits(n: nat)
    requires
        n <= 93,
    ensures
        fib(n) <= u64::MAX,
{
    lemma_fib_monotonic(n, 93);
    assert(fib(0) == 0 && fib(1) == 1);
    assert(fib_from(0, 1, 31) == 1346269 && fib_from(0, 1, 32) == 2178309) by {
        reveal_with_fuel(fib_from, 34);
    }
    lemma_fib_from(0, 31);
    lemma_fib_from(0, 32);
    assert(fib_from(1346269, 2178309, 31) == 4052739537881 && fib_from(1346269, 2178309, 32)
        == 6557470319842) by {
        reveal_with_fuel(fib_from, 34);
    }
    lemma_fib_from(31, 31);
    lemma_fib_from(31, 32);
    assert(fib_from(4052739537881, 6557470319842, 31) == 12200160415121876738) by {
        reveal_with_fuel(fib_from, 34);
    }
    lemma_fib_from(62, 31);
}

/// Returns the `n`-th Fibonacci number.
pub fn fibonacci(n: u32) -> (r: u64)
    requires
        n <= FIBONACCI_MAX_INDEX,
    ensures
        r == fib(n as nat),
{
    if n == 0 {
        return 0;
    }
    let mut prev: u64 = 0;
    let mut cur: u64 = 1;
    let mut i: u32 = 1;
    while i < n
        invariant
            1 <= i <= n,
            n <= 93,
            prev == fib((i - 1) as nat),
            cur == fib(i as nat),
        decreases n - i,
    {
        proof {
            lemma_fib_fits((i + 1) as nat);
        }
        let next: u64 = prev + cur;
        prev = cur;
        cur = next;
        i = i + 1;
    }
    cur
}

/// The product 1 * 2 * ... * n.
pub open spec fn factorial(n: nat) -> nat
    decreases n,
{
    if n == 0 {
        1
    } else {
        n * factorial((n - 1) as nat)
    }
}

/// The factorial never decreases.
pub proof fn lemma_factorial_monotonic(i: nat, j: nat)
    requires
        i <= j,
    ensures
        factorial(i) <= factorial(j),
    decreases j,
{
    if i < j {
        lemma_factorial_monotonic(i, (j - 1) as nat);
        let below = factorial((j - 1) as nat);
        assert(below <= j * below) by (nonlinear_arith)
            requires
                j >= 1,
        ;
    }
}

/// Every factorial up to that of 12 fits in a `u32`.
pub proof fn lemma_factorial_fits(n: nat)
    requires
        n <= 12,
    ensures
        factorial(n) <= u32::MAX,
{
    lemma_factorial_monotonic(n, 12);
    assert(factorial(0) == 1);
    assert(factorial(1) == 1 * factorial(0));
    assert(factorial(2) == 2 * factorial(1));
    assert(factorial(3) == 3 * factorial(2));
    assert(factorial(4) == 4 * factorial(3));
    assert(factorial(5) == 5 * factorial(4));
    assert(factorial(6) == 6 * factorial(5));
    assert(factorial(7) == 7 * factorial(6));
    assert(factorial(8) == 8 * factorial(7));
    assert(factorial(9) == 9 * factorial(8));
    assert(factorial(10) == 10 * factorial(9));
    assert(factorial(11) == 11 * factorial(10));
    assert(factorial(12) == 12 * factorial(11));
    assert(factorial(12) == 479001600);
}

/// Returns `n!`.
pub fn calculate_factorial(n: u32) -> (r: u32)
    requires
        n <= 12,
    ensures
        r == factorial(n as nat),
    decreases n,
{
    match n {
        0 => 1,
        _ => {
            proof {
                lemma_factorial_fits(n as nat);
            }
            n * calculate_factorial(n - 1)
        },
    }
}

/// Truncated division: the quotient rounded towards zero.
pub open spec fn truncated_quotient(dividend: int, divisor: int) -> int
    recommends
        divisor != 0,
{
    if dividend >= 0 {
        if divisor > 0 {
            dividend / divisor
        } else {
            -(dividend / (-divisor))
        }
    } else if divisor > 0 {
        -((-dividend) / divisor)
    } else {
        (-dividend) / (-divisor)
    }
}

/// Why a division was refused.
pub open spec fn division_error(dividend: int, divisor: int) -> Option<Seq<char>> {
    if divisor == 0 {
        Some("Division by zero"@)
    } else if dividend == i32::MIN && divisor == -1 {
        Some("Division overflow"@)
    } else {
        None
    }
}

/// Dividing a non-negative number by a positive one gives a quotient
/// between zero and the number; by two or more, at most half of it.
proof fn lemma_quotient_range(x: int, d: int)
    requires
        x >= 0,
        d > 0,
    ensures
        0 <= x / d <= x,
        d >= 2 ==> 2 * (x / d) <= x,
{
    assert(0 <= x / d <= x) by (nonlinear_arith)
        requires
            x >= 0,
            d > 0,
    ;
    if d >= 2 {
        assert(2 * (x / d) <= x) by (nonlinear_arith)
            requires
                x >= 0,
                d >= 2,
        ;
    }
}

/// A truncated quotient of 32-bit numbers is a 32-bit number unless
/// `division_error` names the division.
pub proof fn lemma_truncated_quotient_fits(dividend: int, divisor: int)
    requires
        i32::MIN <= dividend <= i32::MAX,
        i32::MIN <= divisor <= i32::MAX,
        division_error(dividend, divisor) is None,
    ensures
        i32::MIN <= truncated_quotient(dividend, divisor) <= i32::MAX,
{
    let x = if dividend >= 0 {
        dividend
    } else {
        -dividend
    };
    let d = if divisor > 0 {
        divisor
    } else {
        -divisor
    };
    lemma_quotient_range(x, d);
    if d == 1 {
        assert(x / d == x);
    }
}

/// Divides, rounding towards zero, and refuses the two divisions that have
/// no 32-bit result: by zero, and of the least value by -1.
pub fn safe_divide(dividend: i32, divisor: i32) -> (r: Result<i32, String>)
    ensures
        match r {
            Ok(q) => division_error(dividend as int, divisor as int) is None
                && q == truncated_quotient(dividend as int, divisor as int),
            Err(e) => division_error(dividend as int, divisor as int) == Some(e@),
        },
{
    if divisor == 0 {
        return Err("Division by zero".to_owned());
    }
    proof {
        if !(dividend == i32::MIN && divisor == -1) {
            lemma_truncated_quotient_fits(dividend as int, divisor as int);
        }
    }
    match dividend.checked_div(divisor) {
        Some(q) => Ok(q),
        None => Err("Division overflow".to_owned()),
    }
}

/// Doubles `x`.
pub fn calculate(x: i32) -> (r: i32)
    requires
        i32::MIN <= 2 * x <= i32::MAX,
    ensures
        r == 2 * x,
{
    x * 2
}

/// The constant 42.
pub fn get_constant() -> (r: i32)
    ensures
        r == 42,
{
    42
}

/// Doubles `x`; the second argument has no influence on the result.
pub fn function_with_unused_param(x: i32, _y: i32) -> (r: i32)
    requires
        i32::MIN <= 2 * x <= i32::MAX,
    ensures
        r == 2 * x,
{
    x * 2
}

} // verus!
