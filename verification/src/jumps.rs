//! `ctrl-o`: back to where a jump left from. Every jump pushes where the
//! reader stood, and `ctrl-o` pops one — a stack, so a chain of declarations
//! followed down can be walked back up it.
use vstd::prelude::*;

verus! {

/// How many places the stack keeps before it drops the oldest. Nobody walks
/// back a hundred jumps, and the bound keeps a long session from growing it
/// without end.
pub const MOST_PLACES: usize = 100;

/// The stack after remembering `from`: on top, with the oldest place dropped
/// when the stack is full.
pub open spec fn pushed<T>(jumps: Seq<T>, from: T) -> Seq<T> {
    (if jumps.len() == MOST_PLACES { jumps.drop_first() } else { jumps }).push(from)
}

/// Remember `from`, where a jump left from — only when the jump `moved` the
/// reader: one that failed, or landed where it started, would make `ctrl-o`
/// a key that sometimes does nothing.
pub fn remember_jump<T>(jumps: &mut Vec<T>, from: T, moved: bool)
    ensures
        !moved ==> final(jumps)@ == old(jumps)@,
        moved ==> final(jumps)@ == pushed(old(jumps)@, from),
{
    if !moved {
        return;
    }
    if jumps.len() == MOST_PLACES {
        let _ = jumps.remove(0);
    }
    jumps.push(from);
}

/// The stack never holds more than `MOST_PLACES` places, and `ctrl-o` after
/// a jump stands where that jump left from.
pub proof fn lemma_the_jump_stack_is_bounded_and_gives_back_the_last_place<T>(jumps: Seq<T>, from: T)
    requires
        jumps.len() <= MOST_PLACES,
    ensures
        pushed(jumps, from).len() <= MOST_PLACES,
        pushed(jumps, from).last() == from,
        pushed(jumps, from).drop_last() == (if jumps.len() == MOST_PLACES { jumps.drop_first() } else { jumps }),
{
    let kept = if jumps.len() == MOST_PLACES { jumps.drop_first() } else { jumps };
    assert(kept.push(from).drop_last() =~= kept);
}

} // verus!
