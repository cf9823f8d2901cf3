use vstd::prelude::*;

verus! {

/// The number of bits of an identifier.
pub open spec fn id_bits() -> nat {
    usize::BITS as nat
}

/// A valid number of shards: a power of two, and at least 4.
pub open spec fn is_shard_count(num_shards: usize) -> bool {
    num_shards >= 4 && num_shards & ((num_shards - 1) as usize) == 0
}

/// The number of zero bits below the lowest set bit of `value`; the number of
/// bits of a `usize` for zero.
pub open spec fn low_zeros(value: usize) -> nat
    decreases value,
{
    if value == 0 {
        id_bits()
    } else if value % 2 == 1 {
        0
    } else {
        1 + low_zeros(value / 2)
    }
}

/// `usize::trailing_zeros` counts the zero bits below the lowest set bit, and
/// all bits for zero.
pub assume_specification[ usize::trailing_zeros ](value: usize) -> (zeros: u32)
    ensures
        zeros == low_zeros(value),
;

/// `usize::is_power_of_two` holds of the numbers with exactly one bit set.
pub assume_specification[ usize::is_power_of_two ](value: usize) -> (power: bool)
    ensures
        power == (value != 0 && value & ((value - 1) as usize) == 0),
;

/// The number of bits that name the shard in an identifier.
pub open spec fn shift_of(num_shards: usize) -> usize {
    low_zeros(num_shards) as usize
}

/// The shard that an identifier names: its low bits.
pub open spec fn shard_of(num_shards: usize, id: usize) -> usize {
    id & ((num_shards - 1) as usize)
}

/// The identifier within its shard: the bits above those that name the
/// shard.
pub open spec fn inner_of(num_shards: usize, id: usize) -> usize {
    id >> shift_of(num_shards)
}

/// The identifier that names slot `inner` of shard `shard`. Where `inner`
/// does not fit into the bits above the shard's, its high bits are lost.
pub open spec fn merged(num_shards: usize, shard: usize, inner: usize) -> usize {
    (inner << shift_of(num_shards)) | shard
}

/// The largest identifier within a shard that an identifier can carry.
pub open spec fn max_inner(num_shards: usize) -> usize {
    usize::MAX >> shift_of(num_shards)
}

/// The `step`-th of the four shards that an insert looks at, counting from
/// zero: a quarter of the shards further on with each step, starting from
/// `round` and going round after the last shard.
pub open spec fn candidate_of(num_shards: usize, round: usize, step: usize) -> usize {
    ((round + step * (num_shards / 4)) % (num_shards as int)) as usize
}

/// A power of two is one shifted left by the number of its low zero bits.
pub proof fn lemma_power_of_two(value: usize)
    requires
        value != 0,
        value & ((value - 1) as usize) == 0,
    ensures
        low_zeros(value) < id_bits(),
        1usize << (low_zeros(value) as usize) == value,
    decreases value,
{
    if value % 2 == 1 {
        assert(value == 1) by (bit_vector)
            requires
                value != 0,
                value & ((value - 1) as usize) == 0,
                value % 2 == 1,
        ;
        assert(1usize << 0usize == 1) by (bit_vector);
    } else {
        let half = value / 2;
        assert(half != 0 && half & ((half - 1) as usize) == 0) by (bit_vector)
            requires
                value != 0,
                value & ((value - 1) as usize) == 0,
                value % 2 == 0,
                half == value / 2,
        ;
        lemma_power_of_two(half);
        let zeros = low_zeros(half) as usize;
        let bits = usize::BITS as usize;
        assert(zeros + 1 < bits && 1usize << ((zeros + 1) as usize) == value) by (bit_vector)
            requires
                1usize << zeros == half,
                half == value / 2,
                value % 2 == 0,
                half != 0,
                zeros < bits,
                bits == usize::BITS,
        ;
    }
}

/// All bits set is the largest `usize`.
proof fn lemma_all_ones()
    ensures
        !0usize == usize::MAX,
{
    let top: usize = usize::MAX;
    assert(top <= !0usize) by (bit_vector);
}

/// The low bits of a number, below a power of two, are what is left of it
/// after division by that power.
pub proof fn lemma_mask_is_mod(value: usize, power: usize)
    requires
        power != 0,
        power & ((power - 1) as usize) == 0,
    ensures
        value & ((power - 1) as usize) == value % power,
        value & ((power - 1) as usize) < power,
    decreases power,
{
    if power == 1 {
        assert(value & 0usize == 0) by (bit_vector);
    } else {
        let half = power / 2;
        let rest = value / 2;
        assert(power % 2 == 0 && half != 0 && half & ((half - 1) as usize) == 0 && value & ((power
            - 1) as usize) == 2 * (rest & ((half - 1) as usize)) + value % 2) by (bit_vector)
            requires
                power != 0,
                power != 1,
                power & ((power - 1) as usize) == 0,
                half == power / 2,
                rest == value / 2,
        ;
        lemma_mask_is_mod(rest, half);
        vstd::arithmetic::div_mod::lemma_breakdown(value as int, 2, half as int);
        assert(2 * (half as int) == power);
    }
}

/// An identifier put together from a shard and a slot that fits gives both
/// back.
pub proof fn lemma_split_merged(num_shards: usize, shard: usize, inner: usize)
    requires
        is_shard_count(num_shards),
        shard < num_shards,
        inner <= max_inner(num_shards),
    ensures
        shard_of(num_shards, merged(num_shards, shard, inner)) == shard,
        inner_of(num_shards, merged(num_shards, shard, inner)) == inner,
{
    lemma_power_of_two(num_shards);
    lemma_all_ones();
    let shift = shift_of(num_shards);
    let bits = usize::BITS as usize;
    let mask = (num_shards - 1) as usize;
    let ones = !0usize;
    assert(((inner << shift) | shard) & mask == shard && ((inner << shift) | shard) >> shift
        == inner) by (bit_vector)
        requires
            1usize << shift == num_shards,
            shift < bits,
            bits == usize::BITS,
            shard < num_shards,
            mask == num_shards - 1,
            ones == !0usize,
            inner <= ones >> shift,
    ;
}

/// Two slots of two shards never share an identifier, as long as the
/// identifiers within the shards fit.
pub proof fn lemma_merged_injective(
    num_shards: usize,
    shard0: usize,
    inner0: usize,
    shard1: usize,
    inner1: usize,
)
    requires
        is_shard_count(num_shards),
        shard0 < num_shards,
        shard1 < num_shards,
        inner0 <= max_inner(num_shards),
        inner1 <= max_inner(num_shards),
        merged(num_shards, shard0, inner0) == merged(num_shards, shard1, inner1),
    ensures
        shard0 == shard1,
        inner0 == inner1,
{
    lemma_split_merged(num_shards, shard0, inner0);
    lemma_split_merged(num_shards, shard1, inner1);
}

/// Every identifier names a shard that exists, and is put together from
/// that shard and its slot there.
pub proof fn lemma_merged_split(num_shards: usize, id: usize)
    requires
        is_shard_count(num_shards),
    ensures
        shard_of(num_shards, id) < num_shards,
        shard_of(num_shards, id) == id % num_shards,
        inner_of(num_shards, id) <= max_inner(num_shards),
        merged(num_shards, shard_of(num_shards, id), inner_of(num_shards, id)) == id,
{
    lemma_power_of_two(num_shards);
    lemma_all_ones();
    lemma_mask_is_mod(id, num_shards);
    let shift = shift_of(num_shards);
    let bits = usize::BITS as usize;
    let mask = (num_shards - 1) as usize;
    let ones = !0usize;
    assert(id >> shift <= ones >> shift && ((id >> shift) << shift) | (id & mask) == id)
        by (bit_vector)
        requires
            1usize << shift == num_shards,
            shift < bits,
            bits == usize::BITS,
            mask == num_shards - 1,
            ones == !0usize,
    ;
}

/// The number of bits that name the shard: the binary logarithm of the number
/// of shards.
pub fn num_shift(num_shards: usize) -> (shift: u32)
    requires
        is_shard_count(num_shards),
    ensures
        shift == shift_of(num_shards),
        shift < usize::BITS,
        1usize << shift == num_shards,
{
    proof {
        lemma_power_of_two(num_shards);
    }
    num_shards.trailing_zeros()
}

/// The bits of an identifier that name the shard.
pub fn rr_mask(num_shards: usize) -> (mask: usize)
    requires
        is_shard_count(num_shards),
    ensures
        mask == num_shards - 1,
{
    num_shards - 1
}

/// The distance between two of the shards that an insert looks at: a quarter
/// of the shards.
pub fn rr_interval(num_shards: usize) -> (interval: usize)
    requires
        is_shard_count(num_shards),
    ensures
        interval == num_shards / 4,
        interval >= 1,
{
    assert(num_shards >> 2 == num_shards / 4) by (bit_vector);
    num_shards >> 2
}

/// Puts the identifier together that names slot `id` of shard `shard_index`.
pub fn merge(num_shards: usize, shard_index: usize, id: usize) -> (merged_id: usize)
    requires
        is_shard_count(num_shards),
    ensures
        merged_id == merged(num_shards, shard_index, id),
{
    (id << num_shift(num_shards)) | shard_index
}

/// Takes an identifier apart: the shard that it names, and the identifier
/// within that shard.
pub fn split(num_shards: usize, id: usize) -> (parts: (usize, usize))
    requires
        is_shard_count(num_shards),
    ensures
        parts.0 == shard_of(num_shards, id),
        parts.1 == inner_of(num_shards, id),
        parts.0 < num_shards,
{
    proof {
        lemma_merged_split(num_shards, id);
    }
    (id & rr_mask(num_shards), id >> num_shift(num_shards))
}

/// The `step`-th of the four shards that an insert looks at in round
/// `round`.
pub fn candidate(num_shards: usize, round: usize, step: usize) -> (index: usize)
    requires
        is_shard_count(num_shards),
        step < 4,
    ensures
        index == candidate_of(num_shards, round, step),
        index < num_shards,
{
    let interval = rr_interval(num_shards);
    assert(step * interval <= 3 * interval) by (nonlinear_arith)
        requires
            step <= 3,
    ;
    let offset = step * interval;
    let sum = round.wrapping_add(offset);
    let mask = rr_mask(num_shards);
    proof {
        lemma_all_ones();
        lemma_mask_is_mod(sum, num_shards);
        lemma_mask_is_mod(usize::MAX, num_shards);
        let ones = !0usize;
        assert(ones & mask == mask) by (bit_vector)
            requires
                ones == !0usize,
        ;
        lemma_wrapped_sum(num_shards as int, round as int, offset as int, sum as int);
    }
    sum & mask
}

/// Going round the end of the identifiers does not change what is left after
/// division by a number that divides their count.
proof fn lemma_wrapped_sum(divisor: int, round: int, offset: int, sum: int)
    requires
        divisor > 0,
        0 <= round <= usize::MAX,
        0 <= offset <= usize::MAX,
        (usize::MAX as int) % divisor == divisor - 1,
        sum == (if round + offset > usize::MAX {
            round + offset - usize::MAX - 1
        } else {
            round + offset
        }),
    ensures
        sum % divisor == (round + offset) % divisor,
{
    if round + offset > usize::MAX {
        let whole = usize::MAX + 1;
        let times = (usize::MAX as int) / divisor + 1;
        vstd::arithmetic::div_mod::lemma_fundamental_div_mod(usize::MAX as int, divisor);
        assert(whole == divisor * times) by (nonlinear_arith)
            requires
                usize::MAX == divisor * ((usize::MAX as int) / divisor) + (divisor - 1),
                whole == usize::MAX + 1,
                times == (usize::MAX as int) / divisor + 1,
        ;
        vstd::arithmetic::div_mod::lemma_mod_multiples_vanish(times, sum, divisor);
    }
}

/// The position of the least of four loads, the first of them where several
/// are the least.
pub fn least_loaded(loads: &[usize; 4]) -> (position: usize)
    ensures
        position < 4,
        forall|other: int| 0 <= other < 4 ==> loads[position as int] <= loads[other],
        forall|other: int| 0 <= other < position ==> loads[position as int] < loads[other],
{
    let mut position: usize = 0;
    let mut step: usize = 1;
    while step < 4
        invariant
            1 <= step <= 4,
            position < step,
            forall|other: int| 0 <= other < step ==> loads[position as int] <= loads[other],
            forall|other: int| 0 <= other < position ==> loads[position as int] < loads[other],
        decreases 4 - step,
    {
        if loads[step] < loads[position] {
            position = step;
        }
        step += 1;
    }
    position
}

/// The sum of the loads, as a `usize` holds it: what does not fit goes round
/// the end of the numbers.
pub open spec fn total_of(loads: Seq<usize>) -> usize
    decreases loads.len(),
{
    if loads.len() == 0 {
        0
    } else {
        total_of(loads.drop_last()).wrapping_add(loads.last())
    }
}

/// Adds the loads of the shards up.
pub fn total_load(loads: &Vec<usize>) -> (total: usize)
    ensures
        total == total_of(loads@),
{
    let mut total: usize = 0;
    let mut index: usize = 0;
    while index < loads.len()
        invariant
            index <= loads.len(),
            total == total_of(loads@.take(index as int)),
        decreases loads.len() - index,
    {
        proof {
            assert(loads@.take(index + 1).drop_last() =~= loads@.take(index as int));
        }
        total = total.wrapping_add(loads[index]);
        index += 1;
    }
    proof {
        assert(loads@.take(index as int) =~= loads@);
    }
    total
}

/// Whether every shard is without load.
pub fn all_idle(loads: &Vec<usize>) -> (idle: bool)
    ensures
        idle == (forall|at: int| 0 <= at < loads.len() ==> loads[at] == 0),
{
    let mut index: usize = 0;
    while index < loads.len()
        invariant
            index <= loads.len(),
            forall|at: int| 0 <= at < index ==> loads[at] == 0,
        decreases loads.len() - index,
    {
        if loads[index] != 0 {
            return false;
        }
        index += 1;
    }
    true
}

/// Whether a swap across two shards locks the shard of its first identifier
/// first: where that shard has the lower index, unless `reverse` is set; where
/// it has the higher index, if `reverse` is set.
pub fn locks_first_shard_first(shard_index0: usize, shard_index1: usize, reverse: bool) -> (first:
    bool)
    ensures
        first == ((shard_index0 < shard_index1) != reverse),
{
    (shard_index0 < shard_index1) ^ reverse
}

} // verus!
