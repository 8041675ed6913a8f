//! Temperature conversion and Fibonacci numbers in integer arithmetic.

use vstd::prelude::*;

verus! {

/// The Fibonacci sequence: `fib(0) = 0`, `fib(1) = 1`, and every later term is
/// the sum of the two before it.
pub open spec fn fib(n: nat) -> nat
    decreases n,
{
    if n == 0 {
        0
    } else if n == 1 {
        1
    } else {
        fib((n - 1) as nat) + fib((n - 2) as nat)
    }
}

/// The largest index whose Fibonacci number still fits in a `u64`.
pub const FIB_MAX_INDEX: u32 = 93;

/// The value of `fib(FIB_MAX_INDEX)`, the largest Fibonacci number below `2^64`.
pub const FIB_MAX_VALUE: u64 = 12200160415121876738;

/// Truncating division of a signed integer by a positive one: the quotient
/// rounded toward zero, as the hardware computes it.
pub open spec fn div_toward_zero(a: int, b: int) -> int
    recommends
        b > 0,
{
    if a >= 0 {
        a / b
    } else {
        -((-a) / b)
    }
}

/// The Celsius reading for a Fahrenheit one, as an exact integer expression:
/// five ninths of the distance from the freezing point, rounded toward zero.
pub open spec fn fahrenheit2celsius_spec(fahrenheit: int) -> int {
    div_toward_zero(5 * (fahrenheit - 32), 9)
}

/// Convert Fahrenheit to Celsius degrees, rounding toward zero.
///
/// The intermediate product `5 * (fahrenheit - 32)` has to fit in an `i32`.
pub fn fahrenheit2celsius(fahrenheit: i32) -> (celsius: i32)
    requires
        i32::MIN <= 5 * (fahrenheit - 32) <= i32::MAX,
    ensures
        celsius == fahrenheit2celsius_spec(fahrenheit as int),
{
    (5 * (fahrenheit - 32)) / 9
}

/// Fibonacci numbers never decrease from one index to the next.
pub proof fn lemma_fib_step_monotonic(n: nat)
    ensures
        fib(n) <= fib(n + 1),
    decreases n,
{
    if n >= 2 {
        lemma_fib_step_monotonic((n - 1) as nat);
    }
}

/// Fibonacci numbers are monotonic in their index.
pub proof fn lemma_fib_monotonic(m: nat, n: nat)
    requires
        m <= n,
    ensures
        fib(m) <= fib(n),
    decreases n - m,
{
    if m < n {
        lemma_fib_monotonic(m, (n - 1) as nat);
        lemma_fib_step_monotonic((n - 1) as nat);
    }
}

/// `fib(93)` is the last Fibonacci number that a `u64` can hold: the next one
/// already exceeds `u64::MAX`.
pub proof fn lemma_fib_max()
    ensures
        fib(FIB_MAX_INDEX as nat) == FIB_MAX_VALUE,
        fib(FIB_MAX_INDEX as nat + 1) > u64::MAX,
{
    assert(fib(0) == 0);
    assert(fib(1) == 1);
    assert(fib(2) == 1);
    assert(fib(3) == 2);
    assert(fib(4) == 3);
    assert(fib(5) == 5);
    assert(fib(6) == 8);
    assert(fib(7) == 13);
    assert(fib(8) == 21);
    assert(fib(9) == 34);
    assert(fib(10) == 55);
    assert(fib(11) == 89);
    assert(fib(12) == 144);
    assert(fib(13) == 233);
    assert(fib(14) == 377);
    assert(fib(15) == 610);
    assert(fib(16) == 987);
    assert(fib(17) == 1597);
    assert(fib(18) == 2584);
    assert(fib(19) == 4181);
    assert(fib(20) == 6765);
    assert(fib(21) == 10946);
    assert(fib(22) == 17711);
    assert(fib(23) == 28657);
    assert(fib(24) == 46368);
    assert(fib(25) == 75025);
    assert(fib(26) == 121393);
    assert(fib(27) == 196418);
    assert(fib(28) == 317811);
    assert(fib(29) == 514229);
    assert(fib(30) == 832040);
    assert(fib(31) == 1346269);
    assert(fib(32) == 2178309);
    assert(fib(33) == 3524578);
    assert(fib(34) == 5702887);
    assert(fib(35) == 9227465);
    assert(fib(36) == 14930352);
    assert(fib(37) == 24157817);
    assert(fib(38) == 39088169);
    assert(fib(39) == 63245986);
    assert(fib(40) == 102334155);
    assert(fib(41) == 165580141);
    assert(fib(42) == 267914296);
    assert(fib(43) == 433494437);
    assert(fib(44) == 701408733);
    assert(fib(45) == 1134903170);
    assert(fib(46) == 1836311903);
    assert(fib(47) == 2971215073);
    assert(fib(48) == 4807526976);
    assert(fib(49) == 7778742049);
    assert(fib(50) == 12586269025);
    assert(fib(51) == 20365011074);
    assert(fib(52) == 32951280099);
    assert(fib(53) == 53316291173);
    assert(fib(54) == 86267571272);
    assert(fib(55) == 139583862445);
    assert(fib(56) == 225851433717);
    assert(fib(57) == 365435296162);
    assert(fib(58) == 591286729879);
    assert(fib(59) == 956722026041);
    assert(fib(60) == 1548008755920);
    assert(fib(61) == 2504730781961);
    assert(fib(62) == 4052739537881);
    assert(fib(63) == 6557470319842);
    assert(fib(64) == 10610209857723);
    assert(fib(65) == 17167680177565);
    assert(fib(66) == 27777890035288);
    assert(fib(67) == 44945570212853);
    assert(fib(68) == 72723460248141);
    assert(fib(69) == 117669030460994);
    assert(fib(70) == 190392490709135);
    assert(fib(71) == 308061521170129);
    assert(fib(72) == 498454011879264);
    assert(fib(73) == 806515533049393);
    assert(fib(74) == 1304969544928657);
    assert(fib(75) == 2111485077978050);
    assert(fib(76) == 3416454622906707);
    assert(fib(77) == 5527939700884757);
    assert(fib(78) == 8944394323791464);
    assert(fib(79) == 14472334024676221);
    assert(fib(80) == 23416728348467685);
    assert(fib(81) == 37889062373143906);
    assert(fib(82) == 61305790721611591);
    assert(fib(83) == 99194853094755497);
    assert(fib(84) == 160500643816367088);
    assert(fib(85) == 259695496911122585);
    assert(fib(86) == 420196140727489673);
    assert(fib(87) == 679891637638612258);
    assert(fib(88) == 1100087778366101931);
    assert(fib(89) == 1779979416004714189);
    assert(fib(90) == 2880067194370816120);
    assert(fib(91) == 4660046610375530309);
    assert(fib(92) == 7540113804746346429);
    assert(fib(93) == 12200160415121876738);
    assert(fib(94) == fib(93) + fib(92));
}

/// Every Fibonacci number up to index `FIB_MAX_INDEX` fits in a `u64`.
pub proof fn lemma_fib_fits(n: nat)
    requires
        n <= FIB_MAX_INDEX,
    ensures
        fib(n) <= FIB_MAX_VALUE,
{
    lemma_fib_max();
    lemma_fib_monotonic(n, FIB_MAX_INDEX as nat);
}

/// Fibonacci series, in the loop form.
pub fn fibonacci_loop(limit: u32) -> (value: u64)
    requires
        limit <= FIB_MAX_INDEX,
    ensures
        value == fib(limit as nat),
{
    if limit == 0 {
        return 0;
    }
    let mut n: u64 = 1;
    let mut n_minus_1: u64 = 0;
    let mut i: u32 = 1;
    while i < limit
        invariant
            1 <= i <= limit <= FIB_MAX_INDEX,
            n == fib(i as nat),
            n_minus_1 == fib((i - 1) as nat),
        decreases limit - i,
    {
        proof {
            lemma_fib_fits((i + 1) as nat);
        }
        let next: u64 = n + n_minus_1;
        n_minus_1 = n;
        n = next;
        i += 1;
    }
    n
}

/// Fibonacci series, in the recursive form.
pub fn fibonacci_rec(limit: u32) -> (value: u64)
    requires
        limit <= FIB_MAX_INDEX,
    ensures
        value == fib(limit as nat),
    decreases limit,
{
    if limit == 0 {
        0
    } else if limit == 1 {
        1
    } else {
        proof {
            lemma_fib_fits(limit as nat);
        }
        fibonacci_rec(limit - 1) + fibonacci_rec(limit - 2)
    }
}

} // verus!
