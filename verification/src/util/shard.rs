use crate::sync::shard::is_shard_count;
use vstd::prelude::*;

verus! {

/// `power` is the smallest power of two that is not below `value`.
pub open spec fn is_power_of_two_above(value: usize, power: usize) -> bool {
    &&& power != 0
    &&& power & ((power - 1) as usize) == 0
    &&& power >= value
    &&& power == 1 || power / 2 < value
}

/// `usize::next_power_of_two` gives the smallest power of two that is not
/// below its argument, where that power fits into a `usize`.
pub assume_specification[ usize::next_power_of_two ](value: usize) -> (power: usize)
    requires
        value <= usize::MAX / 2 + 1,
    ensures
        is_power_of_two_above(value, power),
;

/// The largest number of threads for which a number of shards is given.
pub open spec fn max_num_threads() -> usize {
    usize::MAX / 8
}

/// `num_shards` is the default number of shards for a machine that runs
/// `num_threads` threads at once: four times the smallest power of two that
/// is not below `num_threads`.
pub open spec fn is_default_num_shards(num_threads: usize, num_shards: usize) -> bool {
    &&& num_shards % 4 == 0
    &&& is_power_of_two_above(num_threads, (num_shards / 4) as usize)
}

/// Returns the default number of shards for a machine that runs
/// `num_threads` threads at once.
pub fn default_num_shards(num_threads: usize) -> (num_shards: usize)
    requires
        num_threads <= max_num_threads(),
    ensures
        is_default_num_shards(num_threads, num_shards),
        is_shard_count(num_shards),
{
    let power = num_threads.next_power_of_two();
    assert(power <= usize::MAX / 4);
    let num_shards = power * 4;
    assert(num_shards & ((num_shards - 1) as usize) == 0) by (bit_vector)
        requires
            power != 0,
            power & ((power - 1) as usize) == 0,
            num_shards / 4 == power,
            num_shards % 4 == 0,
    ;
    num_shards
}

} // verus!
