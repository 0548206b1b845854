use vstd::prelude::*;

verus! {

/// The percentage reported once column-group `group_index` of `num_groups`
/// is done: spread linearly from just above 20 up to 70.
pub fn group_progress(group_index: u32, num_groups: u32) -> (r: u32)
    requires
        group_index < num_groups,
    ensures
        r == 20 + (group_index + 1) * 50 / (num_groups as int),
        20 <= r <= 70,
{
    let done = (group_index as u64 + 1) * 50;
    let share = done / (num_groups as u64);
    proof {
        assert(done <= (num_groups as u64) * 50) by (nonlinear_arith)
            requires
                done == (group_index + 1) * 50,
                group_index < num_groups,
        ;
        vstd::arithmetic::div_mod::lemma_div_is_ordered(
            done as int,
            (num_groups as u64 * 50) as int,
            num_groups as int,
        );
        vstd::arithmetic::div_mod::lemma_div_multiples_vanish(50, num_groups as int);
        assert((num_groups as u64 * 50) as int == num_groups * 50);
        assert(50 * (num_groups as int) == num_groups * 50) by (nonlinear_arith);
    }
    20 + share as u32
}

} // verus!
