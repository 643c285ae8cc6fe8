use vstd::prelude::*;

use vstd::arithmetic::div_mod::{
    lemma_add_mod_noop, lemma_fundamental_div_mod, lemma_fundamental_div_mod_converse,
    lemma_mod_bound, lemma_mod_mod, lemma_mul_mod_noop, lemma_mul_mod_noop_right, lemma_small_mod,
};
use vstd::arithmetic::power2::{
    lemma2_to64, lemma2_to64_rest, lemma_pow2_pos, lemma_pow2_unfold, pow2,
};

use crate::rng::{
    advanced, cached_value, lcg_iter, lcg_step, lcg_stream, reseeded, restarted, taken,
    NormalCache, RngView, MULTIPLIER,
};

verus! {

/// Running `a` steps and then `b` more is running `a + b` steps.
pub proof fn lemma_iter_add(x: u64, a: nat, b: nat)
    ensures
        lcg_iter(lcg_iter(x, a), b) == lcg_iter(x, a + b),
    decreases b,
{
    if b > 0 {
        lemma_iter_add(x, a, (b - 1) as nat);
    }
}

/// The stream an engine hands out from now on depends on its seed and on how
/// many values it has drawn, and on nothing else: it is the seed's stream
/// from position `drawn` on.
pub proof fn lemma_stream_from_seed(v: RngView, n: nat)
    requires
        v.wf(),
    ensures
        lcg_stream(v.state, n) == lcg_stream(v.seed, v.drawn + n).subrange(
            v.drawn as int,
            (v.drawn + n) as int,
        ),
{
    assert forall|i: int| 0 <= i < n implies lcg_stream(v.state, n)[i] == lcg_stream(
        v.seed,
        v.drawn + n,
    )[v.drawn + i] by {
        lemma_iter_add(v.seed, v.drawn, (i + 1) as nat);
    }
    assert(lcg_stream(v.state, n) =~= lcg_stream(v.seed, v.drawn + n).subrange(
        v.drawn as int,
        (v.drawn + n) as int,
    ));
}

/// Drawing `a` values and then `b` more hands out the same values, in the
/// same order, as drawing `a + b` at once.
pub proof fn lemma_draws_concatenate(x: u64, a: nat, b: nat)
    ensures
        lcg_stream(x, a) + lcg_stream(lcg_iter(x, a), b) == lcg_stream(x, a + b),
        advanced(advanced(RngView { seed: x, state: x, drawn: 0, cached: NormalCache::Empty }, a), b)
            == advanced(RngView { seed: x, state: x, drawn: 0, cached: NormalCache::Empty }, a + b),
{
    assert forall|i: int| a <= i < a + b implies lcg_stream(lcg_iter(x, a), b)[i - a]
        == #[trigger] lcg_stream(x, a + b)[i] by {
        lemma_iter_add(x, a, (i - a + 1) as nat);
    }
    lemma_iter_add(x, a, b);
    assert(lcg_stream(x, a) + lcg_stream(lcg_iter(x, a), b) =~= lcg_stream(x, a + b));
}

/// Two engines with the same seed that have drawn equally many values hand
/// out the same values from then on.
pub proof fn lemma_same_seed_same_stream(a: RngView, b: RngView, n: nat)
    requires
        a.wf(),
        b.wf(),
        a.seed == b.seed,
        a.drawn == b.drawn,
    ensures
        lcg_stream(a.state, n) == lcg_stream(b.state, n),
{
}

/// Restarting, drawing `n` values, restarting again and drawing `n` values
/// gives the same values both times, whatever the engine held before.
pub proof fn lemma_restart_replays(v: RngView, n: nat)
    ensures
        ({
            let first = restarted(v);
            let second = restarted(advanced(first, n));
            lcg_stream(first.state, n) == lcg_stream(second.state, n)
        }),
{
}

/// After a new seed no cached variate is left to hand out, and the engine
/// hands out the new seed's stream.
pub proof fn lemma_reseed_clears_cache(v: RngView, seed: u64, n: nat)
    ensures
        cached_value(reseeded(v, seed).cached) == None::<u64>,
        reseeded(v, seed).wf(),
        lcg_stream(reseeded(v, seed).state, n) == lcg_stream(seed, n),
{
}

/// Handing out a cached variate leaves the state and the count of draws as
/// they were.
pub proof fn lemma_cached_path_draws_nothing(v: RngView)
    requires
        v.cached is Pending,
    ensures
        taken(v).state == v.state,
        taken(v).drawn == v.drawn,
        cached_value(taken(v).cached) == None::<u64>,
{
}

/// `MULTIPLIER^n`.
spec fn mult_pow(n: nat) -> nat
    decreases n,
{
    if n == 0 {
        1
    } else {
        MULTIPLIER as nat * mult_pow((n - 1) as nat)
    }
}

/// `1 + MULTIPLIER + ... + MULTIPLIER^(n-1)`: the state reached from 0 after
/// `n` steps, before reduction modulo 2^64.
spec fn mult_sum(n: nat) -> nat
    decreases n,
{
    if n == 0 {
        0
    } else {
        MULTIPLIER as nat * mult_sum((n - 1) as nat) + 1
    }
}

/// `2 * y` modulo `2 * d` is twice `y` modulo `d`.
proof fn lemma_double_mod(y: int, d: int)
    requires
        d > 0,
    ensures
        (2 * y) % (2 * d) == 2 * (y % d),
{
    lemma_fundamental_div_mod(y, d);
    lemma_mod_bound(y, d);
    assert(2 * y == (y / d) * (2 * d) + 2 * (y % d)) by (nonlinear_arith)
        requires
            y == d * (y / d) + y % d,
    ;
    lemma_fundamental_div_mod_converse(2 * y, 2 * d, y / d, 2 * (y % d));
}

/// A power of two that divides `a * odd` divides `a`.
proof fn lemma_pow2_divides_past_odd(k: nat, a: nat, odd: nat)
    requires
        odd % 2 == 1,
        ((a * odd) as int) % (pow2(k) as int) == 0,
    ensures
        (a as int) % (pow2(k) as int) == 0,
    decreases k,
{
    lemma_pow2_pos(k);
    if k == 0 {
        assert(pow2(0) == 1) by {
            lemma2_to64();
        }
    } else {
        let d = pow2((k - 1) as nat) as int;
        lemma_pow2_unfold(k);
        lemma_pow2_pos((k - 1) as nat);
        lemma_mod_mod((a * odd) as int, 2, d);
        lemma_mul_mod_noop(a as int, odd as int, 2);
        lemma_mod_bound(a as int, 2);
        if a % 2 == 1 {
            assert((a * odd) % 2 == 1);
        }
        let b: nat = a / 2;
        lemma_fundamental_div_mod(a as int, 2);
        assert(a * odd == 2 * (b * odd)) by (nonlinear_arith)
            requires
                a == 2 * b,
        ;
        lemma_double_mod((b * odd) as int, d);
        lemma_pow2_divides_past_odd((k - 1) as nat, b, odd);
        lemma_double_mod(b as int, d);
    }
}

/// `MULTIPLIER^n` is 1 modulo 4.
proof fn lemma_mult_pow_mod4(n: nat)
    ensures
        mult_pow(n) % 4 == 1,
    decreases n,
{
    if n > 0 {
        lemma_mult_pow_mod4((n - 1) as nat);
        lemma_mul_mod_noop(MULTIPLIER as int, mult_pow((n - 1) as nat) as int, 4);
    }
}

/// `mult_sum(n)` has the parity of `n`.
proof fn lemma_mult_sum_parity(n: nat)
    ensures
        mult_sum(n) % 2 == n % 2,
    decreases n,
{
    if n > 0 {
        let g = mult_sum((n - 1) as nat) as int;
        lemma_mult_sum_parity((n - 1) as nat);
        lemma_mul_mod_noop(MULTIPLIER as int, g, 2);
        lemma_add_mod_noop(MULTIPLIER as int * g, 1, 2);
        lemma_add_mod_noop(n - 1, 1, 2);
        lemma_mod_bound(g, 2);
    }
}

/// `mult_sum(a + b) == mult_sum(a) * MULTIPLIER^b + mult_sum(b)`.
proof fn lemma_mult_sum_add(a: nat, b: nat)
    ensures
        mult_sum(a + b) == mult_sum(a) * mult_pow(b) + mult_sum(b),
    decreases b,
{
    if b > 0 {
        lemma_mult_sum_add(a, (b - 1) as nat);
        let ga = mult_sum(a);
        let gb = mult_sum((b - 1) as nat);
        let pb = mult_pow((b - 1) as nat);
        let m = MULTIPLIER as nat;
        assert(m * (ga * pb + gb) + 1 == ga * (m * pb) + (m * gb + 1)) by (nonlinear_arith);
        assert((a + b - 1) as nat == a + (b - 1) as nat);
        assert(mult_sum(a + b) == m * mult_sum((a + b - 1) as nat) + 1);
        assert(mult_pow(b) == m * pb);
        assert(mult_sum(b) == m * gb + 1);
        assert(mult_sum((a + b - 1) as nat) == ga * pb + gb);
        assert(mult_sum(a + b) == ga * (m * pb) + (m * gb + 1));
    } else {
        assert(mult_pow(0) == 1);
        assert(mult_sum(0) == 0);
        assert(mult_sum(a) * 1 == mult_sum(a));
    }
}

/// `MULTIPLIER^n == (MULTIPLIER - 1) * mult_sum(n) + 1`.
proof fn lemma_mult_pow_sum(n: nat)
    ensures
        mult_pow(n) == (MULTIPLIER - 1) * mult_sum(n) + 1,
    decreases n,
{
    if n > 0 {
        lemma_mult_pow_sum((n - 1) as nat);
        let g = mult_sum((n - 1) as nat);
        let m = MULTIPLIER as int;
        assert(m * ((m - 1) * g + 1) == (m - 1) * (m * g + 1) + 1) by (nonlinear_arith);
    }
}

/// The state after `n` steps in closed form.
proof fn lemma_iter_closed(x: u64, n: nat)
    ensures
        lcg_iter(x, n) as int == (mult_pow(n) * x + mult_sum(n)) % 0x1_0000_0000_0000_0000,
    decreases n,
{
    let md: int = 0x1_0000_0000_0000_0000;
    if n == 0 {
        lemma_small_mod(x as nat, md as nat);
        assert(mult_pow(0) == 1);
        assert(mult_sum(0) == 0);
        assert(1 * x == x);
    } else {
        lemma_iter_closed(x, (n - 1) as nat);
        let z: int = mult_pow((n - 1) as nat) * x + mult_sum((n - 1) as nat);
        let m = MULTIPLIER as int;
        let y = lcg_iter(x, (n - 1) as nat);
        assert(lcg_iter(x, n) == lcg_step(y));
        assert(y as int == z % md);
        assert(lcg_iter(x, n) as int == (m * (z % md) + 1) % md);
        lemma_add_mod_noop(m * (z % md), 1, md);
        lemma_add_mod_noop(m * z, 1, md);
        lemma_mul_mod_noop_right(m, z, md);
        assert(m * z + 1 == mult_pow(n) * x + mult_sum(n)) by (nonlinear_arith)
            requires
                z == mult_pow((n - 1) as nat) * x + mult_sum((n - 1) as nat),
                mult_pow(n) == m * mult_pow((n - 1) as nat),
                mult_sum(n) == m * mult_sum((n - 1) as nat) + 1,
        ;
    }
}

/// A power of two divides `mult_sum(n)` only if it divides `n`.
proof fn lemma_mult_sum_divisible(k: nat, n: nat)
    requires
        (mult_sum(n) as int) % (pow2(k) as int) == 0,
    ensures
        (n as int) % (pow2(k) as int) == 0,
    decreases k,
{
    lemma_pow2_pos(k);
    if k == 0 {
        assert(pow2(0) == 1) by {
            lemma2_to64();
        }
    } else {
        let d = pow2((k - 1) as nat) as int;
        lemma_pow2_unfold(k);
        lemma_pow2_pos((k - 1) as nat);
        lemma_mod_mod(mult_sum(n) as int, 2, d);
        lemma_mult_sum_parity(n);
        let h: nat = n / 2;
        lemma_fundamental_div_mod(n as int, 2);
        assert(n == h + h);
        lemma_mult_sum_add(h, h);
        lemma_mult_pow_mod4(h);
        let p = mult_pow(h);
        let odd: nat = (p + 1) / 2;
        lemma_fundamental_div_mod(p as int, 4);
        assert(p + 1 == 2 * odd && odd % 2 == 1) by {
            lemma_fundamental_div_mod_converse((p + 1) as int, 2, (2 * (p / 4) + 1) as int, 0);
            lemma_fundamental_div_mod_converse(odd as int, 2, (p / 4) as int, 1);
        }
        let g = mult_sum(h);
        assert(mult_sum(n) == 2 * (g * odd)) by (nonlinear_arith)
            requires
                mult_sum(n) == g * p + g,
                p + 1 == 2 * odd,
        ;
        lemma_double_mod((g * odd) as int, d);
        lemma_pow2_divides_past_odd((k - 1) as nat, g, odd);
        lemma_mult_sum_divisible((k - 1) as nat, h);
        lemma_double_mod(h as int, d);
    }
}

/// Every run of fewer than 2^64 draws, and more than none, moves the state:
/// the recurrence has full period. In particular each call that draws a
/// fresh pair, or several, leaves the engine in a state it was not in.
pub proof fn lemma_draws_move_state(x: u64, n: nat)
    requires
        0 < n < 0x1_0000_0000_0000_0000,
    ensures
        lcg_iter(x, n) != x,
{
    let md: int = 0x1_0000_0000_0000_0000;
    if lcg_iter(x, n) == x {
        lemma_iter_closed(x, n);
        lemma_mult_pow_sum(n);
        let g = mult_sum(n) as int;
        let c: int = (MULTIPLIER as int - 1) / 2;
        let w: int = 2 * c * x + 1;
        assert(mult_pow(n) * x + g == x + g * w) by (nonlinear_arith)
            requires
                mult_pow(n) == (MULTIPLIER - 1) * g + 1,
                MULTIPLIER - 1 == 2 * c,
                w == 2 * c * x + 1,
        ;
        assert(w == (c * x) * 2 + 1) by (nonlinear_arith)
            requires
                w == 2 * c * x + 1,
        ;
        lemma_fundamental_div_mod_converse(w, 2, c * x, 1);
        assert(w >= 1) by (nonlinear_arith)
            requires
                w == 2 * c * x + 1,
                c >= 0,
                x >= 0,
        ;
        assert(g * w >= 0) by (nonlinear_arith)
            requires
                g >= 0,
                w >= 1,
        ;
        lemma_add_mod_noop(x as int, g * w, md);
        lemma_small_mod(x as nat, md as nat);
        lemma_mod_bound(g * w, md);
        let r = (g * w) % md;
        if r != 0 {
            if x + r < md {
                lemma_small_mod((x + r) as nat, md as nat);
            } else {
                lemma_fundamental_div_mod_converse(x + r, md, 1, x + r - md);
            }
        }
        lemma2_to64_rest();
        lemma_pow2_divides_past_odd(64, g as nat, w as nat);
        lemma_mult_sum_divisible(64, n);
        lemma_small_mod(n, md as nat);
    }
}

/// A request for a standard-normal variate that finds the cache empty draws
/// one or more pairs before it accepts one; whatever the number of pairs
/// (below 2^63), the engine's state afterwards differs from the state before.
pub proof fn lemma_fresh_pairs_move_state(v: RngView, pairs: nat)
    requires
        0 < pairs < 0x8000_0000_0000_0000,
    ensures
        advanced(v, 2 * pairs).state != v.state,
{
    lemma_draws_move_state(v.state, 2 * pairs);
}

} // verus!
