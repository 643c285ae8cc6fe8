use vstd::arithmetic::div_mod::{lemma_add_mod_noop, lemma_small_mod};
use vstd::prelude::*;

verus! {

/// Multiplier of the linear congruential recurrence.
pub const MULTIPLIER: u64 = 6364136223846793005;

/// Increment of the linear congruential recurrence.
pub const INCREMENT: u64 = 1;

/// One step of the recurrence: `MULTIPLIER * x + INCREMENT` modulo 2^64.
pub open spec fn lcg_step(x: u64) -> u64 {
    ((MULTIPLIER as nat * x as nat + INCREMENT as nat) % 0x1_0000_0000_0000_0000) as u64
}

/// The state reached from `x` after `n` steps.
pub open spec fn lcg_iter(x: u64, n: nat) -> u64
    decreases n,
{
    if n == 0 {
        x
    } else {
        lcg_step(lcg_iter(x, (n - 1) as nat))
    }
}

/// The first `n` values an engine in state `x` hands out.
pub open spec fn lcg_stream(x: u64, n: nat) -> Seq<u64> {
    Seq::new(n, |i: int| lcg_iter(x, (i + 1) as nat))
}

/// The wrapping operations of `Rng::next` compute one step of the recurrence.
proof fn lemma_wrapping_step(x: u64)
    ensures
        vstd::wrapping::u64_specs::wrapping_add(
            vstd::wrapping::u64_specs::wrapping_mul(MULTIPLIER, x),
            INCREMENT,
        ) == lcg_step(x),
{
    let m: int = 0x1_0000_0000_0000_0000;
    let p: int = MULTIPLIER as int * x as int;
    let low: int = p % m;
    lemma_add_mod_noop(p, 1, m);
    lemma_small_mod(1, m as nat);
    if low + 1 < m {
        lemma_small_mod((low + 1) as nat, m as nat);
    }
}

/// A standard-normal variate kept for the next request, held as its
/// IEEE-754 bit pattern.
#[derive(Clone, Copy, Debug, PartialEq, Eq, Structural)]
pub enum NormalCache {
    Empty,
    Pending(u64),
}

/// What an engine is, as far as its contracts speak of it.
pub struct RngView {
    pub seed: u64,
    pub state: u64,
    /// How many values were drawn since the state was last set to the seed.
    pub drawn: nat,
    pub cached: NormalCache,
}

/// A linear congruential generator over 64-bit words.
pub struct Rng {
    seed: u64,
    state: u64,
    cached_normal: NormalCache,
    drawn: Ghost<nat>,
}

impl View for Rng {
    type V = RngView;

    closed spec fn view(&self) -> RngView {
        RngView {
            seed: self.seed,
            state: self.state,
            drawn: self.drawn@,
            cached: self.cached_normal,
        }
    }
}

impl RngView {
    /// The state is the seed advanced once per value drawn.
    pub open spec fn wf(self) -> bool {
        self.state == lcg_iter(self.seed, self.drawn)
    }
}

/// The value held for the next request, if any.
pub open spec fn cached_value(c: NormalCache) -> Option<u64> {
    match c {
        NormalCache::Empty => None,
        NormalCache::Pending(bits) => Some(bits),
    }
}

/// An engine set back to its seed: state, count and cache start over.
pub open spec fn restarted(v: RngView) -> RngView {
    RngView { state: v.seed, drawn: 0, cached: NormalCache::Empty, ..v }
}

/// An engine given a new seed: as if built from `seed`.
pub open spec fn reseeded(v: RngView, seed: u64) -> RngView {
    RngView { seed, state: seed, drawn: 0, cached: NormalCache::Empty }
}

/// An engine after `n` more values were drawn from it.
pub open spec fn advanced(v: RngView, n: nat) -> RngView {
    RngView { state: lcg_iter(v.state, n), drawn: v.drawn + n, ..v }
}

/// An engine whose cached variate was handed out.
pub open spec fn taken(v: RngView) -> RngView {
    RngView { cached: NormalCache::Empty, ..v }
}

/// Relies on `std::time::SystemTime::now` and `duration_since`: nanoseconds
/// since the Unix epoch, `None` for a clock set before it. The reading depends
/// on the moment of the call, so nothing is promised of it.
#[verifier::external_body]
fn nanos_since_epoch() -> (r: Option<u128>) {
    std::time::SystemTime::now()
        .duration_since(std::time::UNIX_EPOCH)
        .ok()
        .map(|d| d.as_nanos())
}

impl Rng {
    /// The seed that a clock reading gives: the low 64 bits of the
    /// nanoseconds since the Unix epoch, or 0 for a clock set before it.
    pub fn seed_from_clock(reading: Option<u128>) -> (r: u64)
        ensures
            r == match reading {
                Some(n) => n as u64,
                None => 0u64,
            },
    {
        match reading {
            Some(nanos) => nanos as u64,
            None => 0,
        }
    }

    /// An engine seeded from the clock through `seed_from_clock`. Two engines
    /// made within one tick of the clock hand out the same stream.
    pub fn new() -> (r: Rng)
        ensures
            r@.wf(),
            r@.state == r@.seed,
            r@.drawn == 0,
            r@.cached == NormalCache::Empty,
    {
        Rng::new_seed(Rng::seed_from_clock(nanos_since_epoch()))
    }

    /// An engine whose stream starts at `seed`.
    pub fn new_seed(seed: u64) -> (r: Rng)
        ensures
            r@.wf(),
            r@ == (RngView { seed, state: seed, drawn: 0, cached: NormalCache::Empty }),
    {
        Rng { seed, state: seed, cached_normal: NormalCache::Empty, drawn: Ghost(0) }
    }

    /// The seed the stream started from.
    pub fn seed(&self) -> (r: u64)
        ensures
            r == self@.seed,
    {
        self.seed
    }

    /// The current state word: the last value drawn, or the seed.
    pub fn state(&self) -> (r: u64)
        ensures
            r == self@.state,
    {
        self.state
    }

    /// Whether a standard-normal variate waits in the cache.
    pub fn has_cached_normal(&self) -> (r: bool)
        ensures
            r == (self@.cached is Pending),
    {
        match self.cached_normal {
            NormalCache::Empty => false,
            NormalCache::Pending(_) => true,
        }
    }

    /// Replaces the seed; the state starts over from it and the cache is cleared.
    pub fn set_seed(&mut self, seed: u64)
        ensures
            final(self)@.wf(),
            final(self)@ == reseeded(old(self)@, seed),
    {
        self.seed = seed;
        self.state = seed;
        self.cached_normal = NormalCache::Empty;
        self.drawn = Ghost(0);
    }

    /// Sets the state back to the seed and clears the cache, so that the
    /// stream is handed out again from its start.
    pub fn restart(&mut self)
        ensures
            final(self)@.wf(),
            final(self)@ == restarted(old(self)@),
    {
        self.state = self.seed;
        self.cached_normal = NormalCache::Empty;
        self.drawn = Ghost(0);
    }

    /// Advances the state by one step of the recurrence and returns it.
    pub fn next(&mut self) -> (r: u64)
        requires
            old(self)@.wf(),
        ensures
            final(self)@.wf(),
            r == lcg_step(old(self)@.state),
            final(self)@ == (RngView { state: r, drawn: old(self)@.drawn + 1, ..old(self)@ }),
    {
        proof {
            lemma_wrapping_step(self.state);
        }
        self.state = MULTIPLIER.wrapping_mul(self.state).wrapping_add(INCREMENT);
        self.drawn = Ghost(self.drawn@ + 1);
        self.state
    }

    /// The next `n` values of the stream, in order.
    pub fn draws(&mut self, n: usize) -> (r: Vec<u64>)
        requires
            old(self)@.wf(),
        ensures
            final(self)@.wf(),
            r@ == lcg_stream(old(self)@.state, n as nat),
            final(self)@ == advanced(old(self)@, n as nat),
    {
        let ghost start = self@;
        let mut out: Vec<u64> = Vec::with_capacity(n);
        let mut i: usize = 0;
        while i < n
            invariant
                i <= n,
                self@.wf(),
                self@ == advanced(start, i as nat),
                out@ =~= lcg_stream(start.state, i as nat),
            decreases n - i,
        {
            let x = self.next();
            out.push(x);
            i = i + 1;
        }
        out
    }

    /// Hands out the cached standard-normal variate, if there is one, and
    /// empties the cache. No value is drawn: the state stays as it is.
    pub fn take_cached_normal(&mut self) -> (r: Option<u64>)
        ensures
            r == cached_value(old(self)@.cached),
            final(self)@ == taken(old(self)@),
    {
        match self.cached_normal {
            NormalCache::Empty => None,
            NormalCache::Pending(bits) => {
                self.cached_normal = NormalCache::Empty;
                Some(bits)
            },
        }
    }

    /// Keeps the second variate of an accepted pair for the next request.
    pub fn cache_normal(&mut self, bits: u64)
        requires
            old(self)@.cached == NormalCache::Empty,
        ensures
            final(self)@ == (RngView { cached: NormalCache::Pending(bits), ..old(self)@ }),
    {
        self.cached_normal = NormalCache::Pending(bits);
    }
}

} // verus!
