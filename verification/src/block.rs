//! Block-chain helpers the peer-to-peer layer uses: locator indexes and the
//! compact difficulty encoding.

use vstd::prelude::*;

verus! {

/// Height of a block.
pub type Height = u64;

/// The locator indexes for a chain tip at `from`: see
/// [`locators_indexes`].
pub open spec fn locators_spec(from: u64) -> Seq<u64> {
    locators_from(from, 1, 0)
}

/// The locator indexes from `from` downward with the current backoff
/// `step`, after `len` indexes were already taken; ends with the genesis
/// height. The step doubles before each index once eight are taken.
pub open spec fn locators_from(from: u64, step: int, len: int) -> Seq<u64>
    decreases from,
    when step >= 1
{
    if from == 0 {
        seq![0u64]
    } else {
        let next_step: int = if len >= 8 {
            step * 2
        } else {
            step
        };
        let rest: u64 = if from > next_step {
            (from - next_step) as u64
        } else {
            0u64
        };
        seq![from] + locators_from(rest, next_step, len + 1)
    }
}

/// Get the locator indexes starting from a given height, and going
/// backwards, exponentially backing off: the first eight heights are dense,
/// after that each step is twice the last, and the genesis height is always
/// included. For example, from height 8 every height down to 0 appears,
/// while from height 99 the indexes are
/// 99, 98, 97, 96, 95, 94, 93, 92, 91, 89, 85, 77, 61, 29, 0.
pub fn locators_indexes(from: Height) -> (indexes: Vec<Height>)
    ensures
        indexes@ == locators_spec(from),
{
    let mut indexes: Vec<Height> = Vec::new();
    let mut step: u64 = 1;
    let mut cur: u64 = from;
    let ghost mut subtotal: int = 0;
    proof {
        assert(Seq::<u64>::empty() + locators_from(from, 1, 0) =~= locators_from(from, 1, 0));
    }
    while cur > 0
        invariant
            1 <= step,
            indexes@.len() <= 8 ==> (step == 1 && subtotal == indexes@.len()),
            indexes@.len() >= 9 ==> subtotal == 2 * step + 6,
            cur > 0 ==> from == cur + subtotal,
            locators_spec(from) == indexes@ + locators_from(
                cur,
                step as int,
                indexes@.len() as int,
            ),
        decreases cur,
    {
        let ghost len0 = indexes@.len() as int;
        let ghost step0 = step as int;
        // For the first 8 indexes, don't skip any heights.
        if indexes.len() >= 8 {
            proof {
                if indexes@.len() >= 9 {
                    assert(2 * step == subtotal - 6);
                    assert(from == cur + subtotal);
                }
            }
            step = step * 2;
        }
        indexes.push(cur);
        let next: u64 = if cur > step {
            cur - step
        } else {
            0
        };
        proof {
            subtotal = subtotal + step;
            assert(locators_from(cur, step0, len0) == seq![cur] + locators_from(
                next,
                step as int,
                len0 + 1,
            ));
            assert(indexes@ + locators_from(next, step as int, len0 + 1) =~= indexes@.drop_last()
                + locators_from(cur, step0, len0));
        }
        cur = next;
    }
    // Always include genesis.
    indexes.push(0);
    proof {
        assert(indexes@ =~= indexes@.drop_last() + seq![0u64]);
    }
    indexes
}

/// The mantissa and exponent of the compact difficulty representation: the
/// top byte of `bits` is a base-256 exponent, the low three bytes a signed
/// mantissa. A mantissa using its sign bit encodes the zero target, given
/// here as nothing; otherwise the target is the mantissa shifted left by
/// eight times the exponent less three, bounded here by the mantissa and
/// bit shift returned.
pub open spec fn compact_parts(bits: u32) -> Option<(u32, u32)> {
    let unshifted = bits >> 24;
    let pair: (u32, u32) = if unshifted <= 3 {
        (((bits & 0xFFFFFF) >> (8 * (3 - unshifted)) as u32), 0u32)
    } else {
        ((bits & 0xFFFFFF), (8 * (unshifted - 3)) as u32)
    };
    if pair.0 > 0x7FFFFF {
        None
    } else {
        Some(pair)
    }
}

/// Split a compact difficulty representation into the mantissa and the bit
/// shift that make up the 256-bit target, as `mantissa << shift`; nothing
/// means the zero target. The 256-bit arithmetic itself is left to the
/// embedding program.
pub fn target_from_bits_parts(bits: u32) -> (r: Option<(u32, u32)>)
    ensures
        r == compact_parts(bits),
{
    let unshifted: u32 = bits >> 24;
    proof {
        assert(bits >> 24 <= 255) by (bit_vector);
        assert(bits & 0xFFFFFF <= 0xFFFFFF) by (bit_vector);
    }
    let (mant, expt): (u32, u32) = if unshifted <= 3 {
        ((bits & 0xFFFFFF) >> (8 * (3 - unshifted)), 0)
    } else {
        (bits & 0xFFFFFF, 8 * (unshifted - 3))
    };
    // The mantissa is signed, but may not be negative.
    if mant > 0x7FFFFF {
        None
    } else {
        Some((mant, expt))
    }
}

} // verus!
