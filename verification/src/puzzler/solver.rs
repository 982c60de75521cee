//! The parts of a puzzle and their order.

use vstd::prelude::*;

verus! {

/// Maximum number of puzzle parts.
pub const MAX_PUZZLE_PARTS: u32 = 3;

/// One of the parts of a puzzle.
#[derive(Debug, Clone, Copy, PartialEq, Eq, Hash, Structural)]
pub enum Part {
    First,
    Second,
    Third,
}

/// The part with this number; the parts are numbered from 1.
pub open spec fn part_of(number: int) -> Option<Part> {
    if number == 1 {
        Some(Part::First)
    } else if number == 2 {
        Some(Part::Second)
    } else if number == 3 {
        Some(Part::Third)
    } else {
        None
    }
}

/// Whether a puzzle may have this many parts: one at least, and no more
/// than there are parts.
pub open spec fn is_part_count(parts: u32) -> bool {
    1 <= parts <= MAX_PUZZLE_PARTS
}

/// The parts that a solver of `parts` parts solves, in the order in which
/// it solves them: the first `parts` parts by their numbers. A puzzle
/// cannot have no parts, nor more than there are.
pub fn parts_to_solve(parts: u32) -> (plan: Option<Vec<Part>>)
    ensures
        plan is Some <==> is_part_count(parts),
        plan is Some ==> plan->0@.len() == parts && forall|i: int|
            0 <= i < parts ==> part_of(i + 1) == Some(#[trigger] plan->0@[i]),
{
    if parts < 1 || parts > MAX_PUZZLE_PARTS {
        return None;
    }
    let mut plan: Vec<Part> = Vec::new();
    plan.push(Part::First);
    if parts >= 2 {
        plan.push(Part::Second);
    }
    if parts >= 3 {
        plan.push(Part::Third);
    }
    Some(plan)
}

} // verus!
