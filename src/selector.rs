//! Choosing the winner among many sampled pairings.

use crate::matcher::{PairingError, Solution};
use crate::random::choose_one;
use rand::rngs::StdRng;
use vstd::prelude::*;

verus! {

/// `s` has the most preferred rooms of all `sols`, and the most accepted rooms
/// of those that tie with it on preferred rooms.
pub open spec fn is_best(sols: Seq<Solution>, s: Solution) -> bool {
    &&& forall|i: int| 0 <= i < sols.len() ==> #[trigger] sols[i].preferred <= s.preferred
    &&& forall|i: int|
        0 <= i < sols.len() && #[trigger] sols[i].preferred == s.preferred ==> sols[i].accepted
            <= s.accepted
}

/// Picks the best of `solutions`: the most preferred rooms, then the most
/// accepted rooms; a tie that remains is broken uniformly at random.
/// Fails with `EmptyInput` when there is nothing to choose from.
pub fn select_best<'a>(solutions: &'a Vec<Solution>, rng: &mut StdRng) -> (r: Result<
    &'a Solution,
    PairingError,
>)
    ensures
        r is Err <==> solutions@.len() == 0,
        r matches Err(e) ==> e == PairingError::EmptyInput,
        r matches Ok(s) ==> solutions@.contains(*s) && is_best(solutions@, *s),
{
    let n = solutions.len();
    if n == 0 {
        return Err(PairingError::EmptyInput);
    }
    let mut best_preferred: usize = solutions[0].preferred;
    let mut i: usize = 1;
    while i < n
        invariant
            n == solutions@.len(),
            1 <= i <= n,
            exists|k: int| 0 <= k < i && solutions@[k].preferred == best_preferred,
            forall|k: int| 0 <= k < i ==> #[trigger] solutions@[k].preferred <= best_preferred,
        decreases n - i,
    {
        if solutions[i].preferred > best_preferred {
            best_preferred = solutions[i].preferred;
        }
        i = i + 1;
    }
    let mut best_accepted: usize = 0;
    let mut seen = false;
    let mut i: usize = 0;
    while i < n
        invariant
            n == solutions@.len(),
            i <= n,
            exists|k: int| 0 <= k < n && solutions@[k].preferred == best_preferred,
            seen <==> exists|k: int| 0 <= k < i && #[trigger] solutions@[k].preferred == best_preferred,
            seen ==> exists|k: int|
                0 <= k < i && solutions@[k].preferred == best_preferred && solutions@[k].accepted
                    == best_accepted,
            forall|k: int|
                0 <= k < i && #[trigger] solutions@[k].preferred == best_preferred
                    ==> solutions@[k].accepted <= best_accepted,
        decreases n - i,
    {
        if solutions[i].preferred == best_preferred && (!seen || solutions[i].accepted > best_accepted) {
            best_accepted = solutions[i].accepted;
            seen = true;
        }
        i = i + 1;
    }
    let mut tied: Vec<usize> = Vec::new();
    let mut i: usize = 0;
    while i < n
        invariant
            n == solutions@.len(),
            i <= n,
            forall|t: int|
                0 <= t < tied@.len() ==> #[trigger] tied@[t] < n && solutions@[tied@[t] as int].preferred
                    == best_preferred && solutions@[tied@[t] as int].accepted == best_accepted,
            (exists|k: int|
                0 <= k < i && solutions@[k].preferred == best_preferred && solutions@[k].accepted
                    == best_accepted) ==> tied@.len() > 0,
        decreases n - i,
    {
        if solutions[i].preferred == best_preferred && solutions[i].accepted == best_accepted {
            tied.push(i);
        }
        i = i + 1;
    }
    let pick = match choose_one(&tied, rng) {
        Some(p) => p,
        None => {
            return Err(PairingError::EmptyInput);
        },
    };
    let winner = &solutions[pick];
    Ok(winner)
}

} // verus!
