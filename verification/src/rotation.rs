//! Taking turns: how packets are spread over paths.
use vstd::arithmetic::div_mod::{
    lemma_add_mod_noop, lemma_fundamental_div_mod_converse, lemma_mod_add_multiples_vanish,
    lemma_mod_bound, lemma_mod_twice, lemma_small_mod,
};
use vstd::prelude::*;

verus! {

/// The turn after a turn. Turns are counted below `usize::MAX` and then start over.
pub open spec fn following(turn: nat) -> nat {
    (turn + 1) % (usize::MAX as nat)
}

/// The path, out of `paths`, whose turn it is.
pub open spec fn path_of(turn: nat, paths: nat) -> nat {
    turn % paths
}

/// The turn that comes a number of turns after a turn.
pub open spec fn later_turn(turn: nat, steps: nat) -> nat
    decreases steps,
{
    if steps == 0 {
        turn
    } else {
        following(later_turn(turn, (steps - 1) as nat))
    }
}

/// The path, out of `paths`, whose turn it is; and passes the turn on.
pub fn take_turn(turn: &mut usize, paths: usize) -> (path: usize)
    requires
        0 < paths,
        *old(turn) < usize::MAX,
    ensures
        path == path_of(*old(turn) as nat, paths as nat),
        path == *old(turn) % paths,
        path < paths,
        *final(turn) == following(*old(turn) as nat),
        *old(turn) + 1 < usize::MAX ==> *final(turn) == *old(turn) + 1,
        *old(turn) + 1 == usize::MAX ==> *final(turn) == 0,
        *final(turn) < usize::MAX,
{
    let path: usize = *turn % paths;
    *turn = (*turn + 1) % usize::MAX;
    path
}

/// As long as the count does not start over, the turn passes from each path to the
/// next, and from the last to the first.
pub proof fn turns_go_round(turn: nat, paths: nat)
    requires
        0 < paths,
        turn + 1 < usize::MAX,
    ensures
        path_of(following(turn), paths) == (path_of(turn, paths) + 1) % paths,
{
    lemma_small_mod(turn + 1, usize::MAX as nat);
    lemma_add_mod_noop(turn as int, 1, paths as int);
    lemma_add_mod_noop((turn % paths) as int, 1, paths as int);
    lemma_mod_twice(turn as int, paths as int);
}

/// Counting on without starting over.
proof fn later_turn_adds(turn: nat, steps: nat)
    requires
        turn + steps < usize::MAX,
    ensures
        later_turn(turn, steps) == turn + steps,
    decreases steps,
{
    if steps > 0 {
        later_turn_adds(turn, (steps - 1) as nat);
        lemma_small_mod(turn + steps, usize::MAX as nat);
    }
}

/// Any `paths` turns in a row in which the count does not start over give every path
/// exactly one turn.
pub proof fn every_path_gets_one_turn(turn: nat, paths: nat, path: nat)
    requires
        path < paths,
        turn + paths <= usize::MAX,
    ensures
        exists|steps: nat|
            steps < paths && #[trigger] path_of(later_turn(turn, steps), paths) == path,
        forall|one: nat, other: nat|
            one < paths && other < paths && #[trigger] path_of(later_turn(turn, one), paths)
                == path && #[trigger] path_of(later_turn(turn, other), paths) == path ==> one
                == other,
{
    let at = turn % paths;
    lemma_mod_bound(turn as int, paths as int);
    assert forall|steps: nat| steps < paths implies #[trigger] path_of(
        later_turn(turn, steps),
        paths,
    ) == (if at + steps < paths {
        at + steps
    } else {
        (at + steps - paths) as nat
    }) by {
        later_turn_adds(turn, steps);
        lemma_add_mod_noop(turn as int, steps as int, paths as int);
        lemma_small_mod(steps, paths);
        assert((turn + steps) % paths == (at + steps) % paths);
        if at + steps < paths {
            lemma_small_mod(at + steps, paths);
        } else {
            lemma_mod_add_multiples_vanish(at + steps - paths, paths as int);
            lemma_small_mod((at + steps - paths) as nat, paths);
        }
    }
    let steps: nat = if at <= path {
        (path - at) as nat
    } else {
        (path + paths - at) as nat
    };
    assert(path_of(later_turn(turn, steps), paths) == path);
}

/// Turns are counted from 0 on, and from the last one back to 0; the path whose turn it
/// is is what the count leaves over when it is divided by the number of paths.
pub proof fn turns_are_counted(turn: nat, rounds: nat, path: nat, paths: nat)
    requires
        path < paths,
    ensures
        turn + 1 < usize::MAX ==> following(turn) == turn + 1,
        turn + 1 == usize::MAX ==> following(turn) == 0,
        turn == rounds * paths + path ==> path_of(turn, paths) == path,
{
    if turn + 1 < usize::MAX {
        lemma_small_mod(turn + 1, usize::MAX as nat);
    }
    if turn == rounds * paths + path {
        lemma_fundamental_div_mod_converse(
            turn as int,
            paths as int,
            rounds as int,
            path as int,
        );
    }
}

} // verus!
