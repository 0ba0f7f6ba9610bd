//! One randomized greedy pass that puts a whole population into rooms of two.

use crate::constraints::{lists, Constraints};
use crate::random::{choose_one, shuffle_names};
use rand::rngs::StdRng;
use vstd::multiset::Multiset;
use vstd::prelude::*;

verus! {

broadcast use vstd::seq_lib::group_to_multiset_ensures;

/// How well a room's two occupants suit each other.
#[derive(Clone, Copy, Debug, PartialEq, Eq, Structural)]
pub enum MatchKind {
    /// Each lists the other as preferred.
    Preferred,
    /// Neither lists the other as unpreferred.
    Accepted,
    /// Forced: nothing better was left.
    Unpreferred,
}

/// Why no pairing, or no winner, could be produced.
#[derive(Clone, Copy, Debug, PartialEq, Eq, Structural)]
pub enum PairingError {
    /// A participant has no entry, or an entry names someone outside the population.
    MissingConstraint,
    /// A participant was left without a partner: the population is odd.
    InsufficientPopulation,
    /// There were no solutions to choose from.
    EmptyInput,
}

/// A complete pairing: the rooms in the order they were formed, the kind of
/// each room, and how many rooms are of each kind.
pub struct Solution {
    pub result: Vec<(String, String)>,
    pub kinds: Vec<MatchKind>,
    pub preferred: usize,
    pub accepted: usize,
    pub unpreferred: usize,
}

/// Whether a room of `a` and `b` qualifies as `kind`.
pub open spec fn fits(cs: Constraints, kind: MatchKind, a: Seq<char>, b: Seq<char>) -> bool {
    match kind {
        MatchKind::Preferred => cs.prefers(a, b) && cs.prefers(b, a),
        MatchKind::Accepted => !cs.rejects(a, b) && !cs.rejects(b, a),
        MatchKind::Unpreferred => true,
    }
}

/// The positions in `rest`, in increasing order, of those who would share a
/// room of `kind` with `cur`.
pub open spec fn positions(cs: Constraints, kind: MatchKind, cur: Seq<char>, rest: Seq<String>) -> Seq<
    usize,
>
    decreases rest.len(),
{
    if rest.len() == 0 {
        Seq::empty()
    } else {
        let prev = positions(cs, kind, cur, rest.drop_last());
        if fits(cs, kind, cur, rest.last()@) {
            prev.push((rest.len() - 1) as usize)
        } else {
            prev
        }
    }
}

/// The best kind of room that `cur` can still get among `rest`.
pub open spec fn best_kind(cs: Constraints, cur: Seq<char>, rest: Seq<String>) -> MatchKind {
    if positions(cs, MatchKind::Preferred, cur, rest).len() > 0 {
        MatchKind::Preferred
    } else if positions(cs, MatchKind::Accepted, cur, rest).len() > 0 {
        MatchKind::Accepted
    } else {
        MatchKind::Unpreferred
    }
}

/// The occupants of `rooms`, room by room.
pub open spec fn members(rooms: Seq<(String, String)>) -> Seq<String>
    decreases rooms.len(),
{
    if rooms.len() == 0 {
        Seq::empty()
    } else {
        members(rooms.drop_last()).push(rooms.last().0).push(rooms.last().1)
    }
}

/// How many entries of `kinds` equal `kind`.
pub open spec fn count_kind(kinds: Seq<MatchKind>, kind: MatchKind) -> nat
    decreases kinds.len(),
{
    if kinds.len() == 0 {
        0
    } else {
        count_kind(kinds.drop_last(), kind) + if kinds.last() == kind {
            1nat
        } else {
            0nat
        }
    }
}

/// Every participant has an entry, and every entry of a participant names
/// only participants.
pub open spec fn population_ready(cs: Constraints, people: Seq<String>) -> bool {
    forall|k: int| 0 <= k < people.len() ==> cs.covers(#[trigger] people[k]@, people)
}

/// `sol` is a pairing of `people`: each person sits in exactly one room, each
/// room meets its kind, and the counts agree with the kinds.
pub open spec fn pairs_up(cs: Constraints, people: Seq<String>, sol: Solution) -> bool {
    &&& sol.kinds@.len() == sol.result@.len()
    &&& 2 * sol.result@.len() == people.len()
    &&& members(sol.result@).to_multiset() == people.to_multiset()
    &&& forall|k: int|
        0 <= k < sol.result@.len() ==> fits(
            cs,
            sol.kinds@[k],
            (#[trigger] sol.result@[k]).0@,
            sol.result@[k].1@,
        )
    &&& sol.preferred == count_kind(sol.kinds@, MatchKind::Preferred)
    &&& sol.accepted == count_kind(sol.kinds@, MatchKind::Accepted)
    &&& sol.unpreferred == count_kind(sol.kinds@, MatchKind::Unpreferred)
    &&& sol.preferred + sol.accepted + sol.unpreferred == people.len() / 2
}

/// The state of a pass: who is still unpaired, and the rooms formed so far with
/// their kinds.
pub type Progress = (Seq<String>, Seq<(String, String)>, Seq<MatchKind>);

/// One step of a pass: the last unpaired person takes the one at position
/// `pick` among the others, in a room of the best kind still open to them.
pub open spec fn step(cs: Constraints, st: Progress, pick: usize) -> Progress {
    let cur = st.0.last();
    let rest = st.0.drop_last();
    (
        rest.remove(pick as int),
        st.1.push((cur, rest[pick as int])),
        st.2.push(best_kind(cs, cur@, rest)),
    )
}

/// The state after a pass over `order` has made the choices `picks`.
pub open spec fn run(cs: Constraints, order: Seq<String>, picks: Seq<usize>) -> Progress
    decreases picks.len(),
{
    if picks.len() == 0 {
        (order, Seq::empty(), Seq::empty())
    } else {
        step(cs, run(cs, order, picks.drop_last()), picks.last())
    }
}

/// Each choice in `picks` was open when it was made: someone was unpaired, and
/// the chosen partner gives the best kind of room available.
pub open spec fn admissible(cs: Constraints, order: Seq<String>, picks: Seq<usize>) -> bool
    decreases picks.len(),
{
    if picks.len() == 0 {
        true
    } else {
        let st = run(cs, order, picks.drop_last());
        let cur = st.0.last();
        let rest = st.0.drop_last();
        &&& admissible(cs, order, picks.drop_last())
        &&& st.0.len() > 0
        &&& positions(cs, best_kind(cs, cur@, rest), cur@, rest).contains(picks.last())
    }
}

/// `sol` is what a pass over some reordering of `people` yields for some
/// sequence of open choices.
pub open spec fn drawn_from(cs: Constraints, people: Seq<String>, sol: Solution) -> bool {
    exists|order: Seq<String>, picks: Seq<usize>|
        {
            &&& order.to_multiset() == people.to_multiset()
            &&& #[trigger] admissible(cs, order, picks)
            &&& #[trigger] run(cs, order, picks) == (Seq::<String>::empty(), sol.result@, sol.kinds@)
        }
}

/// Once the order and the choices are fixed, so is the pairing: two passes
/// with the same constraints, the same order and the same choices form the
/// same rooms, of the same kinds.
pub proof fn lemma_fixed_draws_fixed_pairing(
    cs: Constraints,
    order: Seq<String>,
    picks: Seq<usize>,
    first: Solution,
    second: Solution,
)
    requires
        run(cs, order, picks) == (Seq::<String>::empty(), first.result@, first.kinds@),
        run(cs, order, picks) == (Seq::<String>::empty(), second.result@, second.kinds@),
    ensures
        first.result@ == second.result@,
        first.kinds@ == second.kinds@,
{
}

/// A completed pass pairs everyone: every room meets its kind, each person
/// sits in one room, and the counts sum to half the population.
pub proof fn lemma_pass_pairs_everyone(cs: Constraints, people: Seq<String>, sol: Solution)
    requires
        pairs_up(cs, people, sol),
    ensures
        sol.preferred + sol.accepted + sol.unpreferred == people.len() / 2,
        members(sol.result@).to_multiset() == people.to_multiset(),
        forall|k: int|
            0 <= k < sol.result@.len() && sol.kinds@[k] == MatchKind::Preferred ==> cs.prefers(
                (#[trigger] sol.result@[k]).0@,
                sol.result@[k].1@,
            ) && cs.prefers(sol.result@[k].1@, sol.result@[k].0@),
        forall|k: int|
            0 <= k < sol.result@.len() && sol.kinds@[k] == MatchKind::Accepted ==> !cs.rejects(
                (#[trigger] sol.result@[k]).0@,
                sol.result@[k].1@,
            ) && !cs.rejects(sol.result@[k].1@, sol.result@[k].0@),
{
    assert forall|k: int| 0 <= k < sol.result@.len() implies fits(
        cs,
        sol.kinds@[k],
        (#[trigger] sol.result@[k]).0@,
        sol.result@[k].1@,
    ) by {}
}

/// The count of a kind grows by one exactly when a room of that kind is added.
proof fn lemma_count_push(kinds: Seq<MatchKind>, added: MatchKind, kind: MatchKind)
    ensures
        count_kind(kinds.push(added), kind) == count_kind(kinds, kind) + if added == kind {
            1nat
        } else {
            0nat
        },
{
    assert(kinds.push(added).drop_last() =~= kinds);
}

/// Each listed position is in range, qualifies, and the list holds every
/// position that qualifies.
pub proof fn lemma_positions(cs: Constraints, kind: MatchKind, cur: Seq<char>, rest: Seq<String>)
    requires
        rest.len() <= usize::MAX,
    ensures
        forall|t: int|
            0 <= t < positions(cs, kind, cur, rest).len() ==> {
                let p = #[trigger] positions(cs, kind, cur, rest)[t];
                p < rest.len() && fits(cs, kind, cur, rest[p as int]@)
            },
        forall|p: int|
            0 <= p < rest.len() && fits(cs, kind, cur, #[trigger] rest[p]@) ==> positions(
                cs,
                kind,
                cur,
                rest,
            ).contains(p as usize),
        kind == MatchKind::Unpreferred ==> positions(cs, kind, cur, rest).len() == rest.len(),
    decreases rest.len(),
{
    if rest.len() > 0 {
        let prev = rest.drop_last();
        lemma_positions(cs, kind, cur, prev);
        let ps = positions(cs, kind, cur, rest);
        let pp = positions(cs, kind, cur, prev);
        assert forall|t: int| 0 <= t < ps.len() implies {
            let p = #[trigger] ps[t];
            p < rest.len() && fits(cs, kind, cur, rest[p as int]@)
        } by {
            if t < pp.len() {
                assert(ps[t] == pp[t]);
                assert(rest[pp[t] as int] == prev[pp[t] as int]);
            }
        }
        assert forall|p: int| 0 <= p < rest.len() && fits(cs, kind, cur, #[trigger] rest[p]@) implies positions(
            cs,
            kind,
            cur,
            rest,
        ).contains(p as usize) by {
            if p < prev.len() {
                assert(prev[p] == rest[p]);
                let t = choose|t: int| 0 <= t < positions(cs, kind, cur, prev).len() && positions(cs, kind, cur, prev)[t] == p as usize;
                assert(positions(cs, kind, cur, rest)[t] == p as usize);
            } else {
                assert(positions(cs, kind, cur, rest).last() == p as usize);
            }
        }
    }
}

/// Whether `a` and `b` would share a room of `kind`.
pub fn fits_exec(cs: &Constraints, kind: MatchKind, a: &String, b: &String) -> (r: bool)
    requires
        cs.wf(),
    ensures
        r == fits(*cs, kind, a@, b@),
{
    match kind {
        MatchKind::Preferred => cs.prefers_exec(a, b) && cs.prefers_exec(b, a),
        MatchKind::Accepted => !cs.rejects_exec(a, b) && !cs.rejects_exec(b, a),
        MatchKind::Unpreferred => true,
    }
}

/// The positions in `rest` of those who would share a room of `kind` with `cur`.
pub fn positions_of(cs: &Constraints, kind: MatchKind, cur: &String, rest: &Vec<String>) -> (r: Vec<
    usize,
>)
    requires
        cs.wf(),
    ensures
        r@ == positions(*cs, kind, cur@, rest@),
{
    let mut out: Vec<usize> = Vec::new();
    let mut i: usize = 0;
    while i < rest.len()
        invariant
            cs.wf(),
            i <= rest@.len(),
            out@ == positions(*cs, kind, cur@, rest@.subrange(0, i as int)),
        decreases rest@.len() - i,
    {
        assert(rest@.subrange(0, i + 1).drop_last() =~= rest@.subrange(0, i as int));
        if fits_exec(cs, kind, cur, &rest[i]) {
            out.push(i);
        }
        i = i + 1;
    }
    assert(rest@.subrange(0, i as int) =~= rest@);
    out
}

/// The best kind of room open to `cur` among `rest`, and the positions of
/// those who would give it.
pub fn candidates(cs: &Constraints, cur: &String, rest: &Vec<String>) -> (r: (MatchKind, Vec<usize>))
    requires
        cs.wf(),
    ensures
        r.0 == best_kind(*cs, cur@, rest@),
        r.1@ == positions(*cs, r.0, cur@, rest@),
{
    let mutual = positions_of(cs, MatchKind::Preferred, cur, rest);
    if mutual.len() > 0 {
        return (MatchKind::Preferred, mutual);
    }
    let acceptable = positions_of(cs, MatchKind::Accepted, cur, rest);
    if acceptable.len() > 0 {
        return (MatchKind::Accepted, acceptable);
    }
    (MatchKind::Unpreferred, positions_of(cs, MatchKind::Unpreferred, cur, rest))
}

/// Whether every participant has an entry naming only participants.
pub fn check_population(cs: &Constraints, people: &Vec<String>) -> (r: bool)
    requires
        cs.wf(),
    ensures
        r == population_ready(*cs, people@),
{
    let mut k: usize = 0;
    while k < people.len()
        invariant
            cs.wf(),
            k <= people@.len(),
            forall|t: int| 0 <= t < k ==> cs.covers(#[trigger] people@[t]@, people@),
        decreases people@.len() - k,
    {
        if !cs.covers_exec(&people[k], people) {
            return false;
        }
        k = k + 1;
    }
    true
}

/// One randomized greedy pass. The population is shuffled; then, until nobody
/// is left, the last unpaired person is roomed with someone drawn at random
/// among those who give the best kind of room still open to them: a mutually
/// preferred partner, else a mutually acceptable one, else anyone.
///
/// Fails with `MissingConstraint` when someone lacks an entry or an entry
/// names someone outside the population, and with `InsufficientPopulation`
/// when the population is odd.
pub fn solve(people: Vec<String>, constraints: &Constraints, rng: &mut StdRng) -> (r: Result<
    Solution,
    PairingError,
>)
    requires
        constraints.wf(),
    ensures
        r matches Err(PairingError::MissingConstraint) <==> !population_ready(
            *constraints,
            people@,
        ),
        r matches Err(PairingError::InsufficientPopulation) <==> population_ready(
            *constraints,
            people@,
        ) && people@.len() % 2 == 1,
        !(r matches Err(PairingError::EmptyInput)),
        r is Ok <==> population_ready(*constraints, people@) && people@.len() % 2 == 0,
        r matches Ok(sol) ==> pairs_up(*constraints, people@, sol) && drawn_from(
            *constraints,
            people@,
            sol,
        ),
{
    let ghost cs = *constraints;
    let ghost population = people@;
    if !check_population(constraints, &people) {
        return Err(PairingError::MissingConstraint);
    }
    let mut remaining = people;
    shuffle_names(&mut remaining, rng);
    let total: usize = remaining.len();
    let ghost order = remaining@;
    let ghost mut picks: Seq<usize> = Seq::empty();
    let mut result: Vec<(String, String)> = Vec::new();
    let mut kinds: Vec<MatchKind> = Vec::new();
    let mut num_preferred: usize = 0;
    let mut num_accepted: usize = 0;
    let mut num_unpreferred: usize = 0;
    assert(members(result@) =~= Seq::<String>::empty());
    assert(members(result@).to_multiset().add(remaining@.to_multiset()) =~= population.to_multiset());
    while remaining.len() > 0
        invariant
            constraints.wf(),
            cs == *constraints,
            population_ready(cs, population),
            population.len() == total,
            population == people@,
            order.to_multiset() == population.to_multiset(),
            members(result@).to_multiset().add(remaining@.to_multiset()) == population.to_multiset(),
            kinds@.len() == result@.len(),
            2 * result@.len() + remaining@.len() == population.len(),
            forall|k: int|
                0 <= k < result@.len() ==> fits(
                    cs,
                    kinds@[k],
                    (#[trigger] result@[k]).0@,
                    result@[k].1@,
                ),
            num_preferred == count_kind(kinds@, MatchKind::Preferred),
            num_accepted == count_kind(kinds@, MatchKind::Accepted),
            num_unpreferred == count_kind(kinds@, MatchKind::Unpreferred),
            num_preferred + num_accepted + num_unpreferred == result@.len(),
            admissible(cs, order, picks),
            run(cs, order, picks) == (remaining@, result@, kinds@),
        decreases remaining@.len(),
    {
        let ghost before = remaining@;
        let current = match remaining.pop() {
            Some(p) => p,
            None => {
                return Err(PairingError::InsufficientPopulation);
            },
        };
        let ghost rest = remaining@;
        assert(before.drop_last() =~= rest);
        let (kind, options) = candidates(constraints, &current, &remaining);
        proof {
            lemma_positions(cs, kind, current@, rest);
        }
        let pick = match choose_one(&options, rng) {
            Some(p) => p,
            None => {
                assert(rest.len() == 0) by {
                    lemma_positions(cs, MatchKind::Preferred, current@, rest);
                    lemma_positions(cs, MatchKind::Accepted, current@, rest);
                    lemma_positions(cs, MatchKind::Unpreferred, current@, rest);
                }
                assert(population.len() == 2 * result@.len() + 1);
                assert(population.len() % 2 == 1);
                return Err(PairingError::InsufficientPopulation);
            },
        };
        let ghost picked = pick;
        assert(options@.contains(pick));
        let partner = remaining.remove(pick);
        proof {
            assert(partner == rest[pick as int]);
            assert(before =~= rest.push(current));
            assert(remaining@.to_multiset() =~= rest.to_multiset().remove(partner));
            assert(before.to_multiset() =~= rest.to_multiset().insert(current));
            assert(rest.to_multiset().count(partner) > 0);
        }
        let ghost old_result = result@;
        let ghost old_kinds = kinds@;
        proof {
            lemma_count_push(old_kinds, kind, MatchKind::Preferred);
            lemma_count_push(old_kinds, kind, MatchKind::Accepted);
            lemma_count_push(old_kinds, kind, MatchKind::Unpreferred);
            assert(old_result.push((current, partner)).drop_last() =~= old_result);
            assert(picks.push(picked).drop_last() =~= picks);
        }
        result.push((current, partner));
        kinds.push(kind);
        match kind {
            MatchKind::Preferred => {
                num_preferred = num_preferred + 1;
            },
            MatchKind::Accepted => {
                num_accepted = num_accepted + 1;
            },
            MatchKind::Unpreferred => {
                num_unpreferred = num_unpreferred + 1;
            },
        }
        proof {
            assert(members(result@) == members(old_result).push(current).push(partner));
            assert(members(result@).to_multiset() =~= members(old_result).to_multiset().insert(
                current,
            ).insert(partner));
            assert(members(result@).to_multiset().add(remaining@.to_multiset()) =~= members(
                old_result,
            ).to_multiset().add(before.to_multiset()));
            picks = picks.push(picked);
        }
    }
    let sol = Solution {
        result,
        kinds,
        preferred: num_preferred,
        accepted: num_accepted,
        unpreferred: num_unpreferred,
    };
    assert(remaining@ =~= Seq::<String>::empty());
    assert(remaining@.to_multiset() =~= Multiset::<String>::empty());
    assert(members(sol.result@).to_multiset() =~= population.to_multiset());
    assert(sol.result@.len() == population.len() / 2);
    assert(drawn_from(cs, population, sol)) by {
        assert(run(cs, order, picks) == (Seq::<String>::empty(), sol.result@, sol.kinds@));
    }
    Ok(sol)
}

/// A copy of `names`.
fn copy_names(names: &Vec<String>) -> (r: Vec<String>)
    ensures
        r@ == names@,
{
    let mut out: Vec<String> = Vec::new();
    let mut i: usize = 0;
    while i < names.len()
        invariant
            i <= names@.len(),
            out@ == names@.subrange(0, i as int),
        decreases names@.len() - i,
    {
        out.push(names[i].clone());
        i = i + 1;
        assert(out@ =~= names@.subrange(0, i as int));
    }
    assert(names@.subrange(0, i as int) =~= names@);
    out
}

/// Runs `num_solutions` independent passes of `solve` over `people` (none
/// when the count is not positive) and collects their pairings. The first
/// failing pass ends the run with its error.
pub fn find_solutions(
    num_solutions: i64,
    people: &Vec<String>,
    constraints: &Constraints,
    rng: &mut StdRng,
) -> (r: Result<Vec<Solution>, PairingError>)
    requires
        constraints.wf(),
    ensures
        num_solutions <= 0 ==> (r matches Ok(v) && v@.len() == 0),
        num_solutions > 0 ==> (r matches Err(PairingError::MissingConstraint) <==> !population_ready(
            *constraints,
            people@,
        )),
        num_solutions > 0 ==> (r matches Err(PairingError::InsufficientPopulation)
            <==> population_ready(*constraints, people@) && people@.len() % 2 == 1),
        !(r matches Err(PairingError::EmptyInput)),
        r matches Ok(v) ==> {
            &&& num_solutions > 0 ==> v@.len() == num_solutions
            &&& forall|k: int|
                0 <= k < v@.len() ==> pairs_up(*constraints, people@, #[trigger] v@[k])
                    && drawn_from(*constraints, people@, v@[k])
        },
{
    let mut solutions: Vec<Solution> = Vec::new();
    let mut k: i64 = 0;
    while k < num_solutions
        invariant
            constraints.wf(),
            0 <= k,
            num_solutions > 0 ==> k <= num_solutions,
            num_solutions <= 0 ==> k == 0,
            solutions@.len() == k,
            k > 0 ==> population_ready(*constraints, people@) && people@.len() % 2 == 0,
            forall|t: int|
                0 <= t < solutions@.len() ==> pairs_up(*constraints, people@, #[trigger] solutions@[t])
                    && drawn_from(*constraints, people@, solutions@[t]),
        decreases num_solutions - k,
    {
        let sol = solve(copy_names(people), constraints, rng)?;
        solutions.push(sol);
        k = k + 1;
    }
    Ok(solutions)
}

} // verus!
