use vstd::prelude::*;

verus! {

/// `n!`.
pub open spec fn spec_factorial(n: nat) -> nat
    decreases n,
{
    if n == 0 {
        1
    } else {
        n * spec_factorial((n - 1) as nat)
    }
}

/// The largest argument whose factorial fits in a `u128`.
pub const MAX_FACTORIAL_ARG: i32 = 34;

proof fn lemma_factorial_positive(n: nat)
    ensures
        spec_factorial(n) >= 1,
    decreases n,
{
    if n > 0 {
        lemma_factorial_positive((n - 1) as nat);
        assert(n * spec_factorial((n - 1) as nat) >= 1) by (nonlinear_arith)
            requires
                n >= 1,
                spec_factorial((n - 1) as nat) >= 1,
        ;
    }
}

proof fn lemma_factorial_monotone(a: nat, b: nat)
    requires
        a <= b,
    ensures
        spec_factorial(a) <= spec_factorial(b),
    decreases b - a,
{
    if a < b {
        lemma_factorial_monotone(a, (b - 1) as nat);
        lemma_factorial_positive((b - 1) as nat);
        assert(spec_factorial((b - 1) as nat) <= b * spec_factorial((b - 1) as nat))
            by (nonlinear_arith)
            requires
                b >= 1,
                spec_factorial((b - 1) as nat) >= 1,
        ;
    }
}

proof fn lemma_factorial_fits(n: nat)
    requires
        n <= 34,
    ensures
        spec_factorial(n) <= u128::MAX,
{
    assert(spec_factorial(0) == 1);
    assert(spec_factorial(1) == 1);
    assert(spec_factorial(2) == 2);
    assert(spec_factorial(3) == 6);
    assert(spec_factorial(4) == 24);
    assert(spec_factorial(5) == 120);
    assert(spec_factorial(6) == 720);
    assert(spec_factorial(7) == 5040);
    assert(spec_factorial(8) == 40320);
    assert(spec_factorial(9) == 362880);
    assert(spec_factorial(10) == 3628800);
    assert(spec_factorial(11) == 39916800);
    assert(spec_factorial(12) == 479001600);
    assert(spec_factorial(13) == 6227020800);
    assert(spec_factorial(14) == 87178291200);
    assert(spec_factorial(15) == 1307674368000);
    assert(spec_factorial(16) == 20922789888000);
    assert(spec_factorial(17) == 355687428096000);
    assert(spec_factorial(18) == 6402373705728000);
    assert(spec_factorial(19) == 121645100408832000);
    assert(spec_factorial(20) == 2432902008176640000);
    assert(spec_factorial(21) == 51090942171709440000);
    assert(spec_factorial(22) == 1124000727777607680000);
    assert(spec_factorial(23) == 25852016738884976640000);
    assert(spec_factorial(24) == 620448401733239439360000);
    assert(spec_factorial(25) == 15511210043330985984000000);
    assert(spec_factorial(26) == 403291461126605635584000000);
    assert(spec_factorial(27) == 10888869450418352160768000000);
    assert(spec_factorial(28) == 304888344611713860501504000000);
    assert(spec_factorial(29) == 8841761993739701954543616000000);
    assert(spec_factorial(30) == 265252859812191058636308480000000);
    assert(spec_factorial(31) == 8222838654177922817725562880000000);
    assert(spec_factorial(32) == 263130836933693530167218012160000000);
    assert(spec_factorial(33) == 8683317618811886495518194401280000000);
    assert(spec_factorial(34) == 295232799039604140847618609643520000000);
    lemma_factorial_monotone(n, 34);
}

/// `num!`, for `num` from 0 to 34 (35! does not fit in a `u128`).
pub fn factorial(num: i32) -> (r: u128)
    requires
        0 <= num <= MAX_FACTORIAL_ARG,
    ensures
        r == spec_factorial(num as nat),
{
    let mut product: u128 = 1;
    let mut i: u128 = 1;
    while i <= num as u128
        invariant
            0 <= num <= 34,
            1 <= i <= num + 1,
            product == spec_factorial((i - 1) as nat),
        decreases num + 1 - i,
    {
        proof {
            lemma_factorial_fits(i as nat);
            assert(spec_factorial(i as nat) == i * spec_factorial((i - 1) as nat));
            assert(product * i == i * spec_factorial((i - 1) as nat)) by (nonlinear_arith)
                requires
                    product == spec_factorial((i - 1) as nat),
            ;
        }
        product = product * i;
        i = i + 1;
    }
    product
}

/// `n! / k! / (n - k)!`, the number of ways to choose `k` of `n` items.
pub fn binomial_coefficient(n: i32, k: i32) -> (r: u128)
    requires
        0 <= k <= n <= MAX_FACTORIAL_ARG,
    ensures
        r == spec_factorial(n as nat) / spec_factorial(k as nat) / spec_factorial((n - k) as nat),
{
    proof {
        lemma_factorial_positive(k as nat);
        lemma_factorial_positive((n - k) as nat);
    }
    factorial(n) / factorial(k) / factorial(n - k)
}

} // verus!
