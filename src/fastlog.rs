use vstd::prelude::*;

verus! {

/// The logarithm table has `2^TABLE_BITS` intervals of equal width over the
/// reduced range [1/2, 1]: node `i` is `(TABLE_INTERVALS + i) / (2 * TABLE_INTERVALS)`.
pub const TABLE_BITS: u64 = 10;

/// Number of intervals of the table (it has one node more).
pub const TABLE_INTERVALS: usize = 1024;

/// Mantissa bits below the table index; they give the interpolation weight
/// `fraction / 2^FRACTION_BITS` inside an interval.
pub const FRACTION_BITS: u64 = 42;

/// Where a logarithm query lands: the query is
/// `(1/2 + (index + fraction / 2^FRACTION_BITS) / (2 * TABLE_INTERVALS)) * 2^exponent`,
/// so its logarithm is `exponent * ln 2` plus the table's value interpolated
/// between nodes `index` and `index + 1`.
#[derive(Clone, Copy, Debug, PartialEq, Eq, Structural)]
pub struct LogQuery {
    pub exponent: i32,
    pub index: usize,
    pub fraction: u64,
}

/// Sign bit of an IEEE-754 double.
pub open spec fn sign_bit(bits: u64) -> u64 {
    bits / 0x8000_0000_0000_0000
}

/// Biased exponent field of an IEEE-754 double.
pub open spec fn exponent_field(bits: u64) -> u64 {
    (bits / 0x10_0000_0000_0000) % 0x800
}

/// Stored mantissa bits of an IEEE-754 double.
pub open spec fn mantissa_field(bits: u64) -> u64 {
    bits % 0x10_0000_0000_0000
}

/// Queries that `ln` cannot take or that lie below the normal range (zero,
/// negatives, subnormals) are clamped to the smallest positive normal double.
pub open spec fn is_clamped(bits: u64) -> bool {
    sign_bit(bits) == 1 || exponent_field(bits) == 0
}

/// The query of the smallest positive normal double, `2^-1022 = (1/2) * 2^-1021`.
pub open spec fn smallest_query() -> LogQuery {
    LogQuery { exponent: -1021i32, index: 0, fraction: 0 }
}

/// Splits a double `x = (2^52 + mantissa) * 2^(exponent_field - 1075)` into
/// the binary exponent that brings it into [1/2, 1), the table interval and
/// the interpolation weight.
pub open spec fn spec_log_query(bits: u64) -> LogQuery {
    if is_clamped(bits) {
        smallest_query()
    } else {
        LogQuery {
            exponent: (exponent_field(bits) - 1022) as i32,
            index: (mantissa_field(bits) / 0x400_0000_0000) as usize,
            fraction: mantissa_field(bits) % 0x400_0000_0000,
        }
    }
}

/// Locates the table interval of a logarithm query given by the bits of a
/// double; no search, only shifts and masks.
pub fn log_query(bits: u64) -> (q: LogQuery)
    ensures
        q == spec_log_query(bits),
        q.index < TABLE_INTERVALS,
        q.fraction < 0x400_0000_0000,
        -1021 <= q.exponent <= 1025,
        !is_clamped(bits) ==> q.index * 0x400_0000_0000 + q.fraction == mantissa_field(bits),
{
    let sign = bits >> 63u64;
    let field = (bits >> 52u64) & 0x7ff;
    let mantissa = bits & 0xf_ffff_ffff_ffff;
    assert(sign == sign_bit(bits) && field == exponent_field(bits) && mantissa == mantissa_field(
        bits,
    )) by (bit_vector)
        requires
            sign == bits >> 63u64,
            field == (bits >> 52u64) & 0x7ff,
            mantissa == bits & 0xf_ffff_ffff_ffff,
    ;
    if sign == 1 || field == 0 {
        LogQuery { exponent: -1021, index: 0, fraction: 0 }
    } else {
        let index = mantissa >> 42u64;
        let fraction = mantissa & 0x3ff_ffff_ffff;
        assert(index == mantissa / 0x400_0000_0000 && fraction == mantissa % 0x400_0000_0000
            && index < 1024) by (bit_vector)
            requires
                mantissa < 0x10_0000_0000_0000,
                index == mantissa >> 42u64,
                fraction == mantissa & 0x3ff_ffff_ffff,
        ;
        LogQuery { exponent: field as i32 - 1022, index: index as usize, fraction }
    }
}

} // verus!
