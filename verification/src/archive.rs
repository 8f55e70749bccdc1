//! Pareto dominance with constraints, and the archive of non-dominated solutions.
//!
//! Objective values and constraint violations are real numbers that the optimiser
//! compares with a small tolerance. What this module decides depends only on the
//! outcome of those comparisons, which it takes as values: for one objective, whether
//! a solution is better, worse or tied with another one.

use vstd::prelude::*;

verus! {

/// How one value of a solution compares with the same value of another solution,
/// tolerance included: lower is better.
#[derive(Debug, Clone, Copy, PartialEq, Eq, Structural)]
pub enum ObjectiveComparison {
    Better,
    Worse,
    Tied,
}

/// The Pareto relation of one solution's objectives to another's.
#[derive(Debug, Clone, Copy, PartialEq, Eq, Structural)]
pub enum Dominance {
    Dominates,
    Dominated,
    Nondominated,
    Incomparable,
}

/// The relation of one solution to another once constraints are taken into account.
#[derive(Debug, Clone, Copy, PartialEq, Eq, Structural)]
pub enum CDRelation {
    Dominates,
    Dominated,
    Equal,
    Nondominated,
}

/// Some objective is better.
pub open spec fn some_better(c: Seq<ObjectiveComparison>) -> bool {
    exists|i: int| 0 <= i < c.len() && c[i] == ObjectiveComparison::Better
}

/// Some objective is worse.
pub open spec fn some_worse(c: Seq<ObjectiveComparison>) -> bool {
    exists|i: int| 0 <= i < c.len() && c[i] == ObjectiveComparison::Worse
}

/// Pareto dominance from the comparisons of the objectives, one by one: better in one
/// and worse in none dominates.
pub open spec fn pareto_dominance(c: Seq<ObjectiveComparison>) -> Dominance {
    if some_better(c) && !some_worse(c) {
        Dominance::Dominates
    } else if some_worse(c) && !some_better(c) {
        Dominance::Dominated
    } else {
        Dominance::Nondominated
    }
}

/// The comparison seen from the other solution.
pub open spec fn flipped(c: ObjectiveComparison) -> ObjectiveComparison {
    match c {
        ObjectiveComparison::Better => ObjectiveComparison::Worse,
        ObjectiveComparison::Worse => ObjectiveComparison::Better,
        ObjectiveComparison::Tied => ObjectiveComparison::Tied,
    }
}

/// All comparisons seen from the other solution.
pub open spec fn flipped_all(c: Seq<ObjectiveComparison>) -> Seq<ObjectiveComparison> {
    c.map_values(|x: ObjectiveComparison| flipped(x))
}

/// The Pareto relation seen from the other solution.
pub open spec fn converse(d: Dominance) -> Dominance {
    match d {
        Dominance::Dominates => Dominance::Dominated,
        Dominance::Dominated => Dominance::Dominates,
        other => other,
    }
}

/// The constrained relation seen from the other solution.
pub open spec fn cd_converse(r: CDRelation) -> CDRelation {
    match r {
        CDRelation::Dominates => CDRelation::Dominated,
        CDRelation::Dominated => CDRelation::Dominates,
        other => other,
    }
}

/// The Pareto relation of two solutions: `Incomparable` when their numbers of
/// objectives differ, otherwise as `pareto_dominance` says of the comparisons of their
/// objectives.
pub fn dominance(lengths_match: bool, cmps: &[ObjectiveComparison]) -> (r: Dominance)
    ensures
        r == (if lengths_match {
            pareto_dominance(cmps@)
        } else {
            Dominance::Incomparable
        }),
{
    if !lengths_match {
        return Dominance::Incomparable;
    }
    let mut better = false;
    let mut worse = false;
    let mut i: usize = 0;
    while i < cmps.len()
        invariant
            i <= cmps@.len(),
            better == exists|k: int| 0 <= k < i && cmps@[k] == ObjectiveComparison::Better,
            worse == exists|k: int| 0 <= k < i && cmps@[k] == ObjectiveComparison::Worse,
        decreases cmps@.len() - i,
    {
        match cmps[i] {
            ObjectiveComparison::Better => {
                better = true;
            },
            ObjectiveComparison::Worse => {
                worse = true;
            },
            ObjectiveComparison::Tied => {},
        }
        i = i + 1;
    }
    if better && !worse {
        Dominance::Dominates
    } else if worse && !better {
        Dominance::Dominated
    } else {
        Dominance::Nondominated
    }
}

/// Seen from the other solution, dominance turns into being dominated and the other
/// way round; the other relations stay.
pub proof fn law_dominance_converse(c: Seq<ObjectiveComparison>)
    ensures
        pareto_dominance(flipped_all(c)) == converse(pareto_dominance(c)),
{
    let f = flipped_all(c);
    assert(some_better(f) == some_worse(c)) by {
        if some_better(f) {
            let i = choose|i: int| 0 <= i < f.len() && f[i] == ObjectiveComparison::Better;
            assert(c[i] == ObjectiveComparison::Worse);
        }
        if some_worse(c) {
            let i = choose|i: int| 0 <= i < c.len() && c[i] == ObjectiveComparison::Worse;
            assert(f[i] == ObjectiveComparison::Better);
        }
    }
    assert(some_worse(f) == some_better(c)) by {
        if some_worse(f) {
            let i = choose|i: int| 0 <= i < f.len() && f[i] == ObjectiveComparison::Worse;
            assert(c[i] == ObjectiveComparison::Better);
        }
        if some_better(c) {
            let i = choose|i: int| 0 <= i < c.len() && c[i] == ObjectiveComparison::Better;
            assert(f[i] == ObjectiveComparison::Worse);
        }
    }
}

/// A solution whose objectives all tie with another's neither dominates it nor is
/// dominated by it, so a solution never dominates itself; with constraints the same
/// holds of two solutions that are both feasible or whose violations tie.
pub proof fn law_ties_do_not_dominate(c: Seq<ObjectiveComparison>, feasible: bool)
    requires
        forall|i: int| 0 <= i < c.len() ==> c[i] == ObjectiveComparison::Tied,
    ensures
        pareto_dominance(c) == Dominance::Nondominated,
        spec_constraint_dominance(feasible, feasible, pareto_dominance(c), ObjectiveComparison::Tied)
            != CDRelation::Dominates,
        spec_constraint_dominance(feasible, feasible, pareto_dominance(c), ObjectiveComparison::Tied)
            != CDRelation::Dominated,
{
    assert(!some_better(c));
    assert(!some_worse(c));
}

/// The constrained relation: a feasible solution dominates an infeasible one; two
/// feasible ones are related by the Pareto relation of their objectives (where
/// neither dominates, they are non-dominated); two infeasible ones by their
/// constraint violations, lower being better, tied ones being equal.
pub open spec fn spec_constraint_dominance(
    a_feasible: bool,
    b_feasible: bool,
    objectives: Dominance,
    violation: ObjectiveComparison,
) -> CDRelation {
    if a_feasible && b_feasible {
        match objectives {
            Dominance::Dominates => CDRelation::Dominates,
            Dominance::Dominated => CDRelation::Dominated,
            _ => CDRelation::Nondominated,
        }
    } else if a_feasible {
        CDRelation::Dominates
    } else if b_feasible {
        CDRelation::Dominated
    } else {
        match violation {
            ObjectiveComparison::Better => CDRelation::Dominates,
            ObjectiveComparison::Worse => CDRelation::Dominated,
            ObjectiveComparison::Tied => CDRelation::Equal,
        }
    }
}

/// The relation of solution `a` to solution `b`, from their feasibility, the Pareto
/// relation of their objectives, and the comparison of their constraint violations.
pub fn constraint_dominance(
    a_feasible: bool,
    b_feasible: bool,
    objectives: Dominance,
    violation: ObjectiveComparison,
) -> (r: CDRelation)
    ensures
        r == spec_constraint_dominance(a_feasible, b_feasible, objectives, violation),
{
    if a_feasible && b_feasible {
        match objectives {
            Dominance::Dominates => CDRelation::Dominates,
            Dominance::Dominated => CDRelation::Dominated,
            _ => CDRelation::Nondominated,
        }
    } else if a_feasible {
        CDRelation::Dominates
    } else if b_feasible {
        CDRelation::Dominated
    } else {
        match violation {
            ObjectiveComparison::Better => CDRelation::Dominates,
            ObjectiveComparison::Worse => CDRelation::Dominated,
            ObjectiveComparison::Tied => CDRelation::Equal,
        }
    }
}

/// Seen from the other solution, the constrained relation turns dominance into being
/// dominated and the other way round.
pub proof fn law_constraint_dominance_converse(
    a_feasible: bool,
    b_feasible: bool,
    objectives: Dominance,
    violation: ObjectiveComparison,
)
    ensures
        spec_constraint_dominance(b_feasible, a_feasible, converse(objectives), flipped(violation))
            == cd_converse(spec_constraint_dominance(a_feasible, b_feasible, objectives, violation)),
{
}

/// Whether a new position replaces a particle's personal best: a feasible one beats an
/// infeasible one; two feasible ones go by Pareto dominance; two infeasible ones by a
/// strictly lower constraint violation.
pub open spec fn spec_is_better(
    a_feasible: bool,
    b_feasible: bool,
    objectives: Dominance,
    a_violation_lower: bool,
) -> bool {
    if a_feasible && b_feasible {
        objectives == Dominance::Dominates
    } else if a_feasible {
        true
    } else if b_feasible {
        false
    } else {
        a_violation_lower
    }
}

/// Whether solution `a` is better than solution `b`, from their feasibility, the
/// Pareto relation of their objectives, and whether `a`'s violation is strictly lower.
pub fn is_better(
    a_feasible: bool,
    b_feasible: bool,
    objectives: Dominance,
    a_violation_lower: bool,
) -> (r: bool)
    ensures
        r == spec_is_better(a_feasible, b_feasible, objectives, a_violation_lower),
{
    if a_feasible && b_feasible {
        objectives == Dominance::Dominates
    } else if a_feasible {
        true
    } else if b_feasible {
        false
    } else {
        a_violation_lower
    }
}

/// "Better" is a strict preference: of two solutions, at most one is better than the
/// other, when the Pareto relation and the violation comparison are read from each
/// side in turn (at most one violation is strictly lower). In particular two feasible
/// solutions are only ever better by Pareto dominance: a feasible solution that is
/// dominated, or that neither dominates nor is dominated, is never better.
pub proof fn law_better_is_strict(
    a_feasible: bool,
    b_feasible: bool,
    objectives: Dominance,
    a_violation_lower: bool,
    b_violation_lower: bool,
)
    requires
        !(a_violation_lower && b_violation_lower),
    ensures
        !(spec_is_better(a_feasible, b_feasible, objectives, a_violation_lower)
            && spec_is_better(b_feasible, a_feasible, converse(objectives), b_violation_lower)),
        a_feasible && b_feasible ==> (spec_is_better(
            a_feasible,
            b_feasible,
            objectives,
            a_violation_lower,
        ) <==> objectives == Dominance::Dominates),
        a_feasible && !b_feasible ==> spec_is_better(
            a_feasible,
            b_feasible,
            objectives,
            a_violation_lower,
        ),
{
}

/// The members whose flag is not set, in their order.
pub open spec fn without_flagged<S>(ms: Seq<S>, drop: Seq<bool>) -> Seq<S>
    decreases ms.len(),
{
    if ms.len() == 0 {
        seq![]
    } else {
        let rest = without_flagged(ms.drop_first(), drop.drop_first());
        if drop[0] {
            rest
        } else {
            seq![ms[0]] + rest
        }
    }
}

/// Every member that `without_flagged` keeps stands in `ms` at an index whose flag is
/// not set; it keeps at most as many as there were.
pub proof fn lemma_without_flagged<S>(ms: Seq<S>, drop: Seq<bool>)
    requires
        drop.len() == ms.len(),
    ensures
        without_flagged(ms, drop).len() <= ms.len(),
        forall|p: int|
            0 <= p < without_flagged(ms, drop).len() ==> exists|j: int|
                0 <= j < ms.len() && !drop[j] && #[trigger] without_flagged(ms, drop)[p] == ms[j],
    decreases ms.len(),
{
    if ms.len() > 0 {
        let rest = without_flagged(ms.drop_first(), drop.drop_first());
        lemma_without_flagged(ms.drop_first(), drop.drop_first());
        assert forall|p: int| 0 <= p < without_flagged(ms, drop).len() implies exists|j: int|
            0 <= j < ms.len() && !drop[j] && #[trigger] without_flagged(ms, drop)[p] == ms[j] by {
            if drop[0] {
                let j = choose|j: int|
                    0 <= j < ms.len() - 1 && !drop.drop_first()[j] && rest[p] == ms.drop_first()[j];
                assert(ms[j + 1] == ms.drop_first()[j]);
            } else if p == 0 {
                assert(without_flagged(ms, drop)[0] == ms[0]);
            } else {
                assert(without_flagged(ms, drop)[p] == rest[p - 1]);
                let j = choose|j: int|
                    0 <= j < ms.len() - 1 && !drop.drop_first()[j] && rest[p - 1]
                        == ms.drop_first()[j];
                assert(ms[j + 1] == ms.drop_first()[j]);
            }
        }
    }
}

/// Removing the flagged members from index `k` on takes off the member at `k` when
/// its flag is set, and keeps it otherwise.
proof fn lemma_without_flagged_step<S>(ms: Seq<S>, drop: Seq<bool>, k: int)
    requires
        drop.len() == ms.len(),
        0 <= k < ms.len(),
    ensures
        without_flagged(ms.skip(k), drop.skip(k)) == (if drop[k] {
            without_flagged(ms.skip(k + 1), drop.skip(k + 1))
        } else {
            seq![ms[k]] + without_flagged(ms.skip(k + 1), drop.skip(k + 1))
        }),
{
    assert(ms.skip(k).drop_first() =~= ms.skip(k + 1));
    assert(drop.skip(k).drop_first() =~= drop.skip(k + 1));
}

/// Some other member dominates the new solution.
pub open spec fn rejects(relations: Seq<CDRelation>) -> bool {
    exists|i: int| 0 <= i < relations.len() && relations[i] == CDRelation::Dominated
}

/// The members that the new solution dominates.
pub open spec fn dominated_flags(relations: Seq<CDRelation>) -> Seq<bool> {
    relations.map_values(|r: CDRelation| r == CDRelation::Dominates)
}

/// The members after an attempt to add `x`, whose relation to member `i` is
/// `relations[i]`: unchanged when a member dominates `x`; otherwise the members that
/// `x` dominates leave and `x` comes last.
pub open spec fn spec_try_add<S>(ms: Seq<S>, x: S, relations: Seq<CDRelation>) -> Seq<S> {
    if rejects(relations) {
        ms
    } else {
        without_flagged(ms, dominated_flags(relations)).push(x)
    }
}

/// The members marked for removal: the first `count` indices of `order` (those
/// within `len`).
pub open spec fn marked_for_removal(order: Seq<usize>, count: int, len: int) -> Seq<bool> {
    Seq::new(
        len as nat,
        |j: int| exists|i: int| 0 <= i < count && i < order.len() && order[i] == j,
    )
}

/// The members after pruning an archive of capacity `cap` whose solutions have
/// `n_objs` objectives: unchanged within capacity; without objectives, the last ones
/// leave; otherwise the surplus leaves, taken from the front of `order` (the members
/// from the most crowded on).
pub open spec fn spec_prune<S>(ms: Seq<S>, cap: int, n_objs: int, order: Seq<usize>) -> Seq<S> {
    if ms.len() <= cap {
        ms
    } else if n_objs == 0 {
        ms.take(cap)
    } else {
        without_flagged(ms, marked_for_removal(order, ms.len() - cap, ms.len() as int))
    }
}

/// `order` lists each index below `n` exactly once.
pub open spec fn is_ranking(order: Seq<usize>, n: int) -> bool {
    &&& order.len() == n
    &&& order.no_duplicates()
    &&& forall|i: int| 0 <= i < order.len() ==> order[i] < n
}

/// The members after offering `x` to an archive of capacity `cap`: unchanged when a
/// member dominates `x`; otherwise `x` is added as `spec_try_add` says and the archive
/// is pruned back to its capacity as `spec_prune` says.
pub open spec fn spec_offer<S>(
    ms: Seq<S>,
    x: S,
    relations: Seq<CDRelation>,
    cap: int,
    n_objs: int,
    order: Seq<usize>,
) -> Seq<S> {
    if rejects(relations) {
        ms
    } else {
        spec_prune(spec_try_add(ms, x, relations), cap, n_objs, order)
    }
}

/// The indices whose flag is not set, in increasing order.
pub open spec fn kept_indices(drop: Seq<bool>) -> Seq<usize>
    decreases drop.len(),
{
    if drop.len() == 0 {
        seq![]
    } else {
        let rest = kept_indices(drop.drop_last());
        if drop.last() {
            rest
        } else {
            rest.push((drop.len() - 1) as usize)
        }
    }
}

/// No member dominates another under `rel`.
pub open spec fn mutually_nondominated<S>(ms: Seq<S>, rel: spec_fn(S, S) -> CDRelation) -> bool {
    forall|i: int, j: int|
        0 <= i < ms.len() && 0 <= j < ms.len() && i != j ==> #[trigger] rel(ms[i], ms[j])
            != CDRelation::Dominates
}

/// `rel` seen from the second solution is its converse.
pub open spec fn antisymmetric<S>(rel: spec_fn(S, S) -> CDRelation) -> bool {
    forall|a: S, b: S| #[trigger] rel(a, b) == cd_converse(rel(b, a))
}

/// The Pareto archive: the non-dominated solutions found so far, at most `capacity`
/// of them once pruned, and the grid used to pick leaders.
pub struct Archive<S> {
    pub members: Vec<S>,
    pub capacity: usize,
    pub grid_divisions: usize,
}

impl<S> Archive<S> {
    /// An empty archive.
    pub fn new(capacity: usize, grid_divisions: usize) -> (a: Self)
        ensures
            a.members@.len() == 0,
            a.capacity == capacity,
            a.grid_divisions == grid_divisions,
    {
        Archive { members: Vec::new(), capacity, grid_divisions }
    }

    /// Removes the members whose flag is set, from the last one down.
    fn remove_flagged(&mut self, drop: &Vec<bool>)
        requires
            drop@.len() == old(self).members@.len(),
        ensures
            final(self).members@ == without_flagged(old(self).members@, drop@),
            final(self).capacity == old(self).capacity,
            final(self).grid_divisions == old(self).grid_divisions,
    {
        let ghost ms = self.members@;
        let mut k: usize = self.members.len();
        assert(ms.skip(k as int) =~= seq![]);
        assert(ms.take(k as int) =~= ms);
        while k > 0
            invariant
                k <= ms.len(),
                drop@.len() == ms.len(),
                self.members@ == ms.take(k as int) + without_flagged(ms.skip(k as int), drop@.skip(k as int)),
                self.capacity == old(self).capacity,
                self.grid_divisions == old(self).grid_divisions,
            decreases k,
        {
            k = k - 1;
            proof {
                lemma_without_flagged_step(ms, drop@, k as int);
            }
            let ghost rest = without_flagged(ms.skip(k + 1), drop@.skip(k + 1));
            if drop[k] {
                self.members.remove(k);
                assert(self.members@ =~= ms.take(k as int) + rest);
            } else {
                assert(self.members@ =~= ms.take(k as int) + (seq![ms[k as int]] + rest));
            }
        }
        assert(ms.take(0) + without_flagged(ms.skip(0), drop@.skip(0)) =~= without_flagged(ms, drop@)) by {
            assert(ms.skip(0) =~= ms);
            assert(drop@.skip(0) =~= drop@);
        }
    }

    /// Offers `solution`, whose relation to member `i` is `relations[i]`, without
    /// regard to the capacity. It is refused, leaving the archive as it was, when a
    /// member dominates it; otherwise the members it dominates leave and it joins
    /// last. `try_add` adds the pruning back to capacity.
    pub fn insert_unpruned(&mut self, solution: S, relations: &[CDRelation]) -> (r: bool)
        requires
            relations@.len() == old(self).members@.len(),
        ensures
            r == !rejects(relations@),
            final(self).members@ == spec_try_add(old(self).members@, solution, relations@),
            final(self).capacity == old(self).capacity,
            final(self).grid_divisions == old(self).grid_divisions,
    {
        let n = relations.len();
        let mut drop: Vec<bool> = Vec::new();
        let mut i: usize = 0;
        while i < n
            invariant
                n == relations@.len(),
                i <= n,
                drop@.len() == i,
                forall|k: int| 0 <= k < i ==> relations@[k] != CDRelation::Dominated,
                forall|k: int| 0 <= k < i ==> drop@[k] == (relations@[k] == CDRelation::Dominates),
            decreases n - i,
        {
            if relations[i] == CDRelation::Dominated {
                return false;
            }
            drop.push(relations[i] == CDRelation::Dominates);
            i = i + 1;
        }
        assert(drop@ =~= dominated_flags(relations@));
        self.remove_flagged(&drop);
        self.members.push(solution);
        true
    }

    /// Brings the archive back to its capacity. Without objectives the last members
    /// leave; otherwise the surplus leaves in the order of `crowding_order`, which
    /// lists the members from the most crowded (lowest crowding distance) on.
    pub fn prune(&mut self, n_objs: usize, crowding_order: &[usize])
        ensures
            final(self).members@ == spec_prune(
                old(self).members@,
                old(self).capacity as int,
                n_objs as int,
                crowding_order@,
            ),
            final(self).capacity == old(self).capacity,
            final(self).grid_divisions == old(self).grid_divisions,
    {
        let n = self.members.len();
        if n <= self.capacity {
            return;
        }
        if n_objs == 0 {
            self.members.truncate(self.capacity);
            return;
        }
        let to_remove = n - self.capacity;
        let mut drop: Vec<bool> = Vec::new();
        let mut j: usize = 0;
        while j < n
            invariant
                j <= n,
                drop@.len() == j,
                forall|k: int| 0 <= k < j ==> !drop@[k],
            decreases n - j,
        {
            drop.push(false);
            j = j + 1;
        }
        let ghost order = crowding_order@;
        let mut i: usize = 0;
        while i < to_remove && i < crowding_order.len()
            invariant
                n == self.members@.len(),
                order == crowding_order@,
                to_remove == n - self.capacity,
                i <= to_remove,
                drop@.len() == n,
                forall|k: int|
                    0 <= k < n ==> #[trigger] drop@[k] == (exists|m: int|
                        0 <= m < i && m < order.len() && order[m] == k),
            decreases to_remove - i,
        {
            let idx = crowding_order[i];
            if idx < n {
                drop.set(idx, true);
            }
            assert forall|k: int| 0 <= k < n implies #[trigger] drop@[k] == (exists|m: int|
                0 <= m < i + 1 && m < order.len() && order[m] == k) by {
                if k == idx {
                    assert(order[i as int] == k);
                }
            }
            i = i + 1;
        }
        assert forall|k: int| 0 <= k < n implies #[trigger] drop@[k] == marked_for_removal(
            order,
            to_remove as int,
            n as int,
        )[k] by {
            if drop@[k] {
                let m = choose|m: int| 0 <= m < i && m < order.len() && order[m] == k;
            }
            if marked_for_removal(order, to_remove as int, n as int)[k] {
                let m = choose|m: int| 0 <= m < to_remove && m < order.len() && order[m] == k;
                assert(m < i);
            }
        }
        assert(drop@ =~= marked_for_removal(order, to_remove as int, n as int));
        self.remove_flagged(&drop);
    }

    /// The members that stay when a solution whose relation to member `i` is
    /// `relations[i]` is offered: `None` when a member dominates it, otherwise the
    /// indices of the members it does not dominate, in order. With the new solution
    /// after them, these are the members that `try_add` ranks by crowding.
    pub fn survivors(&self, relations: &[CDRelation]) -> (r: Option<Vec<usize>>)
        requires
            relations@.len() == self.members@.len(),
        ensures
            r is None <==> rejects(relations@),
            r matches Some(v) ==> {
                &&& v@ == kept_indices(dominated_flags(relations@))
                &&& v@.map_values(|j: usize| self.members@[j as int]) == without_flagged(
                    self.members@,
                    dominated_flags(relations@),
                )
            },
    {
        let n = relations.len();
        let ghost flags = dominated_flags(relations@);
        let mut kept: Vec<usize> = Vec::new();
        let mut i: usize = 0;
        while i < n
            invariant
                n == relations@.len(),
                flags == dominated_flags(relations@),
                i <= n,
                forall|k: int| 0 <= k < i ==> relations@[k] != CDRelation::Dominated,
                kept@ == kept_indices(flags.take(i as int)),
            decreases n - i,
        {
            if relations[i] == CDRelation::Dominated {
                return None;
            }
            assert(flags.take(i + 1).drop_last() =~= flags.take(i as int));
            if relations[i] != CDRelation::Dominates {
                kept.push(i);
            }
            i = i + 1;
        }
        assert(flags.take(n as int) =~= flags);
        proof {
            lemma_kept_indices_select(self.members@, flags);
        }
        Some(kept)
    }

    /// Offers `solution`, whose relation to member `i` is `relations[i]`, and keeps
    /// the archive within its capacity. It is refused, leaving the archive as it was,
    /// when a member dominates it. Otherwise the members it dominates leave, it joins
    /// last, and when that leaves more than `capacity` members the archive is pruned
    /// as `prune` does: `n_objs` is the number of objectives of the solutions, and
    /// `crowding_order` ranks the members after the insertion (those that
    /// `survivors` lists, then the new one) from the most crowded on.
    pub fn try_add(
        &mut self,
        solution: S,
        relations: &[CDRelation],
        n_objs: usize,
        crowding_order: &[usize],
    ) -> (r: bool)
        requires
            relations@.len() == old(self).members@.len(),
            !rejects(relations@) && n_objs != 0 && spec_try_add(
                old(self).members@,
                solution,
                relations@,
            ).len() > old(self).capacity ==> is_ranking(
                crowding_order@,
                spec_try_add(old(self).members@, solution, relations@).len() as int,
            ),
        ensures
            r == !rejects(relations@),
            final(self).members@ == spec_offer(
                old(self).members@,
                solution,
                relations@,
                old(self).capacity as int,
                n_objs as int,
                crowding_order@,
            ),
            final(self).capacity == old(self).capacity,
            final(self).grid_divisions == old(self).grid_divisions,
            old(self).members@.len() <= old(self).capacity ==> final(self).members@.len()
                <= final(self).capacity,
    {
        let ghost ms = self.members@;
        let ghost x = solution;
        let added = self.insert_unpruned(solution, relations);
        if added {
            self.prune(n_objs, crowding_order);
            proof {
                if ms.len() <= self.capacity {
                    law_offer_within_capacity(
                        ms,
                        x,
                        relations@,
                        self.capacity as int,
                        n_objs as int,
                        crowding_order@,
                    );
                }
            }
        }
        added
    }

    /// Whether no member dominates another, where `relations[i][j]` is the relation
    /// of member `i` to member `j`.
    pub fn verify_nondominated(&self, relations: &[Vec<CDRelation>]) -> (r: bool)
        requires
            relations@.len() == self.members@.len(),
            forall|i: int| 0 <= i < relations@.len() ==> #[trigger] relations@[i]@.len()
                == self.members@.len(),
        ensures
            r == forall|i: int, j: int|
                0 <= i < relations@.len() && 0 <= j < relations@.len() && i != j
                    ==> relations@[i]@[j] != CDRelation::Dominates,
    {
        let n = relations.len();
        let mut i: usize = 0;
        while i < n
            invariant
                n == relations@.len(),
                n == self.members@.len(),
                forall|k: int| 0 <= k < n ==> #[trigger] relations@[k]@.len() == n,
                i <= n,
                forall|a: int, b: int|
                    0 <= a < i && 0 <= b < n && a != b ==> relations@[a]@[b]
                        != CDRelation::Dominates,
            decreases n - i,
        {
            let row = &relations[i];
            let mut j: usize = 0;
            while j < n
                invariant
                    n == relations@.len(),
                    row@ == relations@[i as int]@,
                    row@.len() == n,
                    i < n,
                    j <= n,
                    forall|b: int| 0 <= b < j && i != b ==> row@[b] != CDRelation::Dominates,
                decreases n - j,
            {
                if i != j && row[j] == CDRelation::Dominates {
                    return false;
                }
                j = j + 1;
            }
            i = i + 1;
        }
        true
    }
}

/// Adding a solution to a non-dominated archive, with the relations that an
/// antisymmetric relation gives between it and the members, keeps the archive
/// non-dominated.
pub proof fn law_try_add_keeps_nondominated<S>(
    ms: Seq<S>,
    x: S,
    rel: spec_fn(S, S) -> CDRelation,
)
    requires
        antisymmetric(rel),
        mutually_nondominated(ms, rel),
    ensures
        mutually_nondominated(spec_try_add(ms, x, Seq::new(ms.len(), |i: int| rel(x, ms[i]))), rel),
{
    let relations = Seq::new(ms.len(), |i: int| rel(x, ms[i]));
    if !rejects(relations) {
        let flags = dominated_flags(relations);
        let kept = without_flagged(ms, flags);
        lemma_without_flagged(ms, flags);
        lemma_kept_nondominated(ms, flags, rel);
        let out = kept.push(x);
        assert forall|i: int, j: int|
            0 <= i < out.len() && 0 <= j < out.len() && i != j implies #[trigger] rel(out[i], out[j])
            != CDRelation::Dominates by {
            if i < kept.len() && j < kept.len() {
                assert(rel(kept[i], kept[j]) != CDRelation::Dominates);
            } else if i < kept.len() {
                let a = choose|a: int| 0 <= a < ms.len() && !flags[a] && kept[i] == ms[a];
                assert(relations[a] != CDRelation::Dominated);
                assert(rel(ms[a], x) == cd_converse(rel(x, ms[a])));
            } else {
                let b = choose|b: int| 0 <= b < ms.len() && !flags[b] && kept[j] == ms[b];
                assert(flags[b] == (relations[b] == CDRelation::Dominates));
            }
        }
    }
}

/// Removing members from a non-dominated archive keeps it non-dominated.
pub proof fn lemma_kept_nondominated<S>(
    ms: Seq<S>,
    drop: Seq<bool>,
    rel: spec_fn(S, S) -> CDRelation,
)
    requires
        drop.len() == ms.len(),
        mutually_nondominated(ms, rel),
    ensures
        mutually_nondominated(without_flagged(ms, drop), rel),
    decreases ms.len(),
{
    if ms.len() > 0 {
        let tail = ms.drop_first();
        let rest = without_flagged(tail, drop.drop_first());
        assert(mutually_nondominated(tail, rel)) by {
            assert forall|i: int, j: int|
                0 <= i < tail.len() && 0 <= j < tail.len() && i != j implies #[trigger] rel(
                tail[i],
                tail[j],
            ) != CDRelation::Dominates by {
                assert(rel(ms[i + 1], ms[j + 1]) != CDRelation::Dominates);
            }
        }
        lemma_kept_nondominated(tail, drop.drop_first(), rel);
        lemma_without_flagged(tail, drop.drop_first());
        if !drop[0] {
            let out = seq![ms[0]] + rest;
            assert forall|i: int, j: int|
                0 <= i < out.len() && 0 <= j < out.len() && i != j implies #[trigger] rel(
                out[i],
                out[j],
            ) != CDRelation::Dominates by {
                if i > 0 && j > 0 {
                    assert(rel(rest[i - 1], rest[j - 1]) != CDRelation::Dominates);
                } else if i == 0 {
                    let b = choose|b: int|
                        0 <= b < tail.len() && !drop.drop_first()[b] && rest[j - 1] == tail[b];
                    assert(rel(ms[0], ms[b + 1]) != CDRelation::Dominates);
                } else {
                    let a = choose|a: int|
                        0 <= a < tail.len() && !drop.drop_first()[a] && rest[i - 1] == tail[a];
                    assert(rel(ms[a + 1], ms[0]) != CDRelation::Dominates);
                }
            }
        }
    }
}

/// Pruning a non-dominated archive keeps it non-dominated.
pub proof fn law_prune_keeps_nondominated<S>(
    ms: Seq<S>,
    cap: int,
    n_objs: int,
    order: Seq<usize>,
    rel: spec_fn(S, S) -> CDRelation,
)
    requires
        0 <= cap,
        mutually_nondominated(ms, rel),
    ensures
        mutually_nondominated(spec_prune(ms, cap, n_objs, order), rel),
{
    if ms.len() > cap {
        if n_objs == 0 {
            let t = ms.take(cap);
            assert forall|i: int, j: int|
                0 <= i < t.len() && 0 <= j < t.len() && i != j implies #[trigger] rel(t[i], t[j])
                != CDRelation::Dominates by {
                assert(rel(ms[i], ms[j]) != CDRelation::Dominates);
            }
        } else {
            lemma_kept_nondominated(ms, marked_for_removal(order, ms.len() - cap, ms.len() as int), rel);
        }
    }
}

/// Pruning with an order that lists every member once leaves exactly `cap` members
/// when there were more.
pub proof fn law_prune_reaches_capacity<S>(ms: Seq<S>, cap: int, n_objs: int, order: Seq<usize>)
    requires
        0 <= cap,
        order.len() == ms.len(),
        order.no_duplicates(),
        forall|i: int| 0 <= i < order.len() ==> order[i] < ms.len(),
    ensures
        spec_prune(ms, cap, n_objs, order).len() == (if ms.len() <= cap { ms.len() as int } else { cap }),
{
    if ms.len() > cap && n_objs != 0 {
        let count = ms.len() - cap;
        let marks = marked_for_removal(order, count, ms.len() as int);
        lemma_without_flagged_len(ms, marks);
        lemma_count_marked(order, count, ms.len() as int);
    }
}

/// Offering a solution to an archive within its capacity leaves it within its
/// capacity, provided that, where pruning has to rank the members, `order` ranks
/// each of them once.
pub proof fn law_offer_within_capacity<S>(
    ms: Seq<S>,
    x: S,
    relations: Seq<CDRelation>,
    cap: int,
    n_objs: int,
    order: Seq<usize>,
)
    requires
        0 <= cap,
        ms.len() <= cap,
        relations.len() == ms.len(),
        !rejects(relations) && n_objs != 0 && spec_try_add(ms, x, relations).len() > cap
            ==> is_ranking(order, spec_try_add(ms, x, relations).len() as int),
    ensures
        spec_offer(ms, x, relations, cap, n_objs, order).len() <= cap,
{
    if !rejects(relations) {
        let added = spec_try_add(ms, x, relations);
        lemma_without_flagged(ms, dominated_flags(relations));
        if added.len() > cap && n_objs != 0 {
            law_prune_reaches_capacity(added, cap, n_objs, order);
        }
    }
}

/// Offering a solution to a non-dominated archive, with the relations that an
/// antisymmetric relation gives between it and the members, keeps the archive
/// non-dominated, pruning included.
pub proof fn law_offer_keeps_nondominated<S>(
    ms: Seq<S>,
    x: S,
    rel: spec_fn(S, S) -> CDRelation,
    cap: int,
    n_objs: int,
    order: Seq<usize>,
)
    requires
        0 <= cap,
        antisymmetric(rel),
        mutually_nondominated(ms, rel),
    ensures
        mutually_nondominated(
            spec_offer(ms, x, Seq::new(ms.len(), |i: int| rel(x, ms[i])), cap, n_objs, order),
            rel,
        ),
{
    let relations = Seq::new(ms.len(), |i: int| rel(x, ms[i]));
    law_try_add_keeps_nondominated(ms, x, rel);
    law_prune_keeps_nondominated(spec_try_add(ms, x, relations), cap, n_objs, order, rel);
}

/// Removing the flagged members takes off the last member when its flag is set, and
/// keeps it last otherwise.
proof fn lemma_without_flagged_last<S>(ms: Seq<S>, drop: Seq<bool>)
    requires
        drop.len() == ms.len(),
        ms.len() > 0,
    ensures
        without_flagged(ms, drop) == without_flagged(ms.drop_last(), drop.drop_last()) + (if drop.last() {
            seq![]
        } else {
            seq![ms.last()]
        }),
    decreases ms.len(),
{
    if ms.len() == 1 {
        assert(ms.drop_first() =~= seq![]);
        assert(ms.drop_last() =~= seq![]);
        assert(without_flagged(ms.drop_first(), drop.drop_first()) =~= seq![]);
    } else {
        lemma_without_flagged_last(ms.drop_first(), drop.drop_first());
        assert(ms.drop_first().drop_last() =~= ms.drop_last().drop_first());
        assert(drop.drop_first().drop_last() =~= drop.drop_last().drop_first());
        let rest = without_flagged(ms.drop_last().drop_first(), drop.drop_last().drop_first());
        let tail: Seq<S> = if drop.last() {
            seq![]
        } else {
            seq![ms.last()]
        };
        if drop[0] {
            assert(without_flagged(ms, drop) =~= rest + tail);
        } else {
            assert(without_flagged(ms, drop) =~= seq![ms[0]] + (rest + tail));
            assert(seq![ms[0]] + (rest + tail) =~= (seq![ms[0]] + rest) + tail);
        }
    }
}

/// The indices that `kept_indices` lists are below the number of flags, in
/// increasing order.
proof fn lemma_kept_indices_bound(drop: Seq<bool>)
    requires
        drop.len() <= usize::MAX,
    ensures
        forall|p: int| 0 <= p < kept_indices(drop).len() ==> kept_indices(drop)[p] < drop.len(),
        kept_indices(drop).len() <= drop.len(),
    decreases drop.len(),
{
    if drop.len() > 0 {
        lemma_kept_indices_bound(drop.drop_last());
    }
}

/// Picking the members at the indices that `kept_indices` lists is removing the
/// flagged ones.
proof fn lemma_kept_indices_select<S>(ms: Seq<S>, drop: Seq<bool>)
    requires
        drop.len() == ms.len(),
        ms.len() <= usize::MAX,
    ensures
        kept_indices(drop).map_values(|j: usize| ms[j as int]) == without_flagged(ms, drop),
    decreases ms.len(),
{
    if ms.len() == 0 {
        assert(kept_indices(drop).map_values(|j: usize| ms[j as int]) =~= seq![]);
    } else {
        let ms1 = ms.drop_last();
        let d1 = drop.drop_last();
        lemma_kept_indices_select(ms1, d1);
        lemma_kept_indices_bound(d1);
        lemma_without_flagged_last(ms, drop);
        let k1 = kept_indices(d1);
        assert(k1.map_values(|j: usize| ms[j as int]) =~= k1.map_values(|j: usize| ms1[j as int]));
        if drop.last() {
            assert(kept_indices(drop) == k1);
            assert(without_flagged(ms, drop) =~= without_flagged(ms1, d1));
        } else {
            assert(kept_indices(drop) == k1.push((ms.len() - 1) as usize));
            assert(kept_indices(drop).map_values(|j: usize| ms[j as int]) =~= k1.map_values(
                |j: usize| ms[j as int],
            ) + seq![ms.last()]);
        }
    }
}

/// The number of set flags.
pub open spec fn count_true(s: Seq<bool>) -> nat
    decreases s.len(),
{
    if s.len() == 0 {
        0
    } else {
        (if s[0] { 1nat } else { 0nat }) + count_true(s.drop_first())
    }
}

/// `without_flagged` leaves as many members as there are unset flags.
proof fn lemma_without_flagged_len<S>(ms: Seq<S>, drop: Seq<bool>)
    requires
        drop.len() == ms.len(),
    ensures
        without_flagged(ms, drop).len() + count_true(drop) == ms.len(),
    decreases ms.len(),
{
    if ms.len() > 0 {
        lemma_without_flagged_len(ms.drop_first(), drop.drop_first());
    }
}

/// The flags set from the first `count` indices of an order that lists each of `len`
/// indices once number `count`.
proof fn lemma_count_marked(order: Seq<usize>, count: int, len: int)
    requires
        0 <= count <= len,
        order.len() == len,
        order.no_duplicates(),
        forall|i: int| 0 <= i < order.len() ==> order[i] < len,
    ensures
        count_true(marked_for_removal(order, count, len)) == count,
    decreases count,
{
    if count > 0 {
        lemma_count_marked(order, count - 1, len);
        let before = marked_for_removal(order, count - 1, len);
        let after = marked_for_removal(order, count, len);
        let k = order[count - 1] as int;
        assert(after =~= before.update(k, true)) by {
            assert forall|j: int| 0 <= j < len implies after[j] == before.update(k, true)[j] by {
                if j != k && after[j] {
                    let m = choose|m: int| 0 <= m < count && m < order.len() && order[m] == j;
                    assert(m != count - 1);
                }
            }
        }
        assert(!before[k]) by {
            if before[k] {
                let m = choose|m: int| 0 <= m < count - 1 && m < order.len() && order[m] == k;
                assert(order[m] == order[count - 1]);
            }
        }
        lemma_count_true_update(before, k);
    } else {
        lemma_count_true_none(marked_for_removal(order, count, len));
    }
}

/// No flag set, count zero.
proof fn lemma_count_true_none(s: Seq<bool>)
    requires
        forall|j: int| 0 <= j < s.len() ==> !s[j],
    ensures
        count_true(s) == 0,
    decreases s.len(),
{
    if s.len() > 0 {
        lemma_count_true_none(s.drop_first());
    }
}

/// Setting an unset flag adds one to the count.
proof fn lemma_count_true_update(s: Seq<bool>, k: int)
    requires
        0 <= k < s.len(),
        !s[k],
    ensures
        count_true(s.update(k, true)) == count_true(s) + 1,
    decreases s.len(),
{
    if k > 0 {
        assert(s.update(k, true).drop_first() =~= s.drop_first().update(k - 1, true));
        lemma_count_true_update(s.drop_first(), k - 1);
    } else {
        assert(s.update(k, true).drop_first() =~= s.drop_first());
    }
}

/// The rows of a relation matrix.
pub open spec fn matrix_view(m: Seq<Vec<CDRelation>>) -> Seq<Seq<CDRelation>> {
    m.map_values(|row: Vec<CDRelation>| row@)
}

/// The indices that survive when solutions `0..n` are offered in turn to an archive
/// without capacity, `m[i][j]` being the relation of solution `i` to solution `j`.
pub open spec fn spec_merge(m: Seq<Seq<CDRelation>>, n: int) -> Seq<usize>
    decreases n,
{
    if n <= 0 {
        seq![]
    } else {
        let prev = spec_merge(m, n - 1);
        spec_try_add(prev, (n - 1) as usize, Seq::new(prev.len(), |k: int| m[n - 1][prev[k] as int]))
    }
}

/// The non-dominated solutions of a list, by index, where `relations[i][j]` is the
/// relation of solution `i` to solution `j`: each is offered in turn, refused when a
/// kept one dominates it, and it drives out the kept ones that it dominates.
pub fn merge_nondominated(relations: &[Vec<CDRelation>]) -> (r: Vec<usize>)
    requires
        forall|i: int| 0 <= i < relations@.len() ==> #[trigger] relations@[i]@.len()
            == relations@.len(),
    ensures
        r@ == spec_merge(matrix_view(relations@), relations@.len() as int),
        forall|k: int| 0 <= k < r@.len() ==> r@[k] < relations@.len(),
{
    let n = relations.len();
    let ghost m = matrix_view(relations@);
    let mut kept: Archive<usize> = Archive::new(n, 0);
    let mut i: usize = 0;
    while i < n
        invariant
            n == relations@.len(),
            m == matrix_view(relations@),
            forall|a: int| 0 <= a < n ==> #[trigger] relations@[a]@.len() == n,
            i <= n,
            kept.members@ == spec_merge(m, i as int),
            forall|k: int| 0 <= k < kept.members@.len() ==> kept.members@[k] < i,
        decreases n - i,
    {
        let ghost prev = kept.members@;
        let row = &relations[i];
        let mut rels: Vec<CDRelation> = Vec::new();
        let mut k: usize = 0;
        while k < kept.members.len()
            invariant
                prev == kept.members@,
                forall|q: int| 0 <= q < prev.len() ==> prev[q] < i,
                i < n,
                row@ == m[i as int],
                row@.len() == n,
                k <= prev.len(),
                rels@.len() == k,
                forall|q: int| 0 <= q < k ==> rels@[q] == m[i as int][prev[q] as int],
            decreases prev.len() - k,
        {
            let j = kept.members[k];
            rels.push(row[j]);
            k = k + 1;
        }
        assert(rels@ =~= Seq::new(prev.len(), |q: int| m[i as int][prev[q] as int]));
        kept.insert_unpruned(i, rels.as_slice());
        proof {
            let flags = dominated_flags(rels@);
            lemma_without_flagged(prev, flags);
            if !rejects(rels@) {
                assert forall|q: int| 0 <= q < kept.members@.len() implies kept.members@[q] < i + 1 by {
                    let w = without_flagged(prev, flags);
                    if q < w.len() {
                        let a = choose|a: int| 0 <= a < prev.len() && !flags[a] && w[q] == prev[a];
                    }
                }
            }
        }
        i = i + 1;
    }
    kept.members
}

/// `rel` made total from a relation matrix of `n` solutions.
pub open spec fn matrix_relation(m: Seq<Seq<CDRelation>>, n: int) -> spec_fn(usize, usize) -> CDRelation {
    |a: usize, b: usize| if a < n && b < n { m[a as int][b as int] } else { CDRelation::Nondominated }
}

/// Merging keeps no solution that another kept one dominates, when the relation
/// matrix is antisymmetric (the relation of `j` to `i` is the converse of that of `i`
/// to `j`).
pub proof fn law_merge_nondominated(m: Seq<Seq<CDRelation>>, n: int)
    requires
        0 <= n <= usize::MAX,
        forall|i: int, j: int| 0 <= i < n && 0 <= j < n ==> #[trigger] m[i][j] == cd_converse(m[j][i]),
    ensures
        mutually_nondominated(spec_merge(m, n), matrix_relation(m, n)),
        forall|k: int| 0 <= k < spec_merge(m, n).len() ==> spec_merge(m, n)[k] < n,
    decreases n,
{
    let rel = matrix_relation(m, n);
    assert(antisymmetric(rel)) by {
        assert forall|a: usize, b: usize| #[trigger] rel(a, b) == cd_converse(rel(b, a)) by {
            if a < n && b < n {
                assert(m[a as int][b as int] == cd_converse(m[b as int][a as int]));
            }
        }
    }
    if n > 0 {
        let prev = spec_merge(m, n - 1);
        law_merge_nondominated(m, n - 1);
        let rel0 = matrix_relation(m, n - 1);
        assert(mutually_nondominated(prev, rel)) by {
            assert forall|i: int, j: int|
                0 <= i < prev.len() && 0 <= j < prev.len() && i != j implies #[trigger] rel(prev[i], prev[j])
                != CDRelation::Dominates by {
                assert(rel0(prev[i], prev[j]) != CDRelation::Dominates);
            }
        }
        let x = (n - 1) as usize;
        assert forall|k: int| 0 <= k < prev.len() implies m[n - 1][prev[k] as int] == rel(x, prev[k]) by {
            assert(prev[k] < n - 1);
        }
        assert(Seq::new(prev.len(), |k: int| m[n - 1][prev[k] as int]) =~= Seq::new(
            prev.len(),
            |k: int| rel(x, prev[k]),
        ));
        law_try_add_keeps_nondominated(prev, x, rel);
        let rels = Seq::new(prev.len(), |k: int| m[n - 1][prev[k] as int]);
        let flags = dominated_flags(rels);
        lemma_without_flagged(prev, flags);
        assert forall|k: int| 0 <= k < spec_merge(m, n).len() implies spec_merge(m, n)[k] < n by {
            if !rejects(rels) {
                let w = without_flagged(prev, flags);
                if k < w.len() {
                    let a = choose|a: int| 0 <= a < prev.len() && !flags[a] && w[k] == prev[a];
                }
            }
        }
    }
}

/// The number of members whose grid cell is `c`.
pub open spec fn cell_count(cells: Seq<Seq<usize>>, c: Seq<usize>) -> nat
    decreases cells.len(),
{
    if cells.len() == 0 {
        0
    } else {
        (if cells.last() == c { 1nat } else { 0nat }) + cell_count(cells.drop_last(), c)
    }
}

/// The largest number of members that share a cell with one of the first `k` members,
/// and at least 1.
pub open spec fn max_cell_count(cells: Seq<Seq<usize>>, k: int) -> nat
    decreases k,
{
    if k <= 0 {
        1
    } else {
        let m = max_cell_count(cells, k - 1);
        let c = cell_count(cells, cells[k - 1]);
        if c > m { c } else { m }
    }
}

/// The roulette weight of member `i`: members in crowded cells weigh less, a member
/// in a most crowded cell weighs 1.
pub open spec fn leader_weight(cells: Seq<Seq<usize>>, i: int) -> int {
    max_cell_count(cells, cells.len() as int) - cell_count(cells, cells[i]) + 1
}

/// A member shares its cell with itself, and with at most all members.
proof fn lemma_cell_count_bounds(cells: Seq<Seq<usize>>, c: Seq<usize>)
    ensures
        cell_count(cells, c) <= cells.len(),
        cells.contains(c) ==> cell_count(cells, c) >= 1,
    decreases cells.len(),
{
    if cells.len() > 0 {
        lemma_cell_count_bounds(cells.drop_last(), c);
        if cells.contains(c) && cells.last() != c {
            let k = choose|k: int| 0 <= k < cells.len() && cells[k] == c;
            assert(cells.drop_last()[k] == c);
        }
    }
}

/// Counting over one more member adds one when its cell is `c`.
proof fn lemma_cell_count_take(cells: Seq<Seq<usize>>, c: Seq<usize>, j: int)
    requires
        0 <= j < cells.len(),
    ensures
        cell_count(cells.take(j + 1), c) == (if cells[j] == c { 1nat } else { 0nat }) + cell_count(
            cells.take(j),
            c,
        ),
{
    assert(cells.take(j + 1).drop_last() =~= cells.take(j));
}

/// The maximum bounds each of the counts it ranges over, and is at most the number of
/// members (or 1).
proof fn lemma_max_cell_count(cells: Seq<Seq<usize>>, k: int)
    requires
        0 <= k <= cells.len(),
    ensures
        forall|j: int| 0 <= j < k ==> cell_count(cells, #[trigger] cells[j]) <= max_cell_count(cells, k),
        max_cell_count(cells, k) <= (if cells.len() > 0 { cells.len() as int } else { 1 }),
        max_cell_count(cells, k) >= 1,
    decreases k,
{
    if k > 0 {
        lemma_max_cell_count(cells, k - 1);
        lemma_cell_count_bounds(cells, cells[k - 1]);
    }
}

/// Whether two grid cells are the same.
fn same_cell(a: &Vec<usize>, b: &Vec<usize>) -> (r: bool)
    ensures
        r == (a@ == b@),
{
    if a.len() != b.len() {
        return false;
    }
    let mut i: usize = 0;
    while i < a.len()
        invariant
            a@.len() == b@.len(),
            i <= a@.len(),
            forall|k: int| 0 <= k < i ==> a@[k] == b@[k],
        decreases a@.len() - i,
    {
        if a[i] != b[i] {
            return false;
        }
        i = i + 1;
    }
    assert(a@ =~= b@);
    true
}

/// The cells of the members.
pub open spec fn cells_view(cells: Seq<Vec<usize>>) -> Seq<Seq<usize>> {
    cells.map_values(|c: Vec<usize>| c@)
}

/// How many members have the cell `c`.
fn count_cell(cells: &[Vec<usize>], c: &Vec<usize>) -> (r: usize)
    ensures
        r == cell_count(cells_view(cells@), c@),
{
    let ghost cv = cells_view(cells@);
    let mut count: usize = 0;
    let mut j: usize = 0;
    assert(cv.take(0) =~= seq![]);
    while j < cells.len()
        invariant
            cv == cells_view(cells@),
            j <= cells@.len(),
            count == cell_count(cv.take(j as int), c@),
            count <= j,
        decreases cells@.len() - j,
    {
        proof {
            lemma_cell_count_take(cv, c@, j as int);
        }
        if same_cell(&cells[j], c) {
            count = count + 1;
        }
        j = j + 1;
    }
    assert(cv.take(j as int) =~= cv);
    count
}

/// The roulette weight of each member for leader selection, `cells[i]` being the grid
/// cell of member `i`: the largest number of members in one cell, less the number in
/// the member's own cell, plus one.
pub fn leader_fitness(cells: &[Vec<usize>]) -> (r: Vec<usize>)
    ensures
        r@.len() == cells@.len(),
        forall|i: int| 0 <= i < cells@.len() ==> r@[i] == leader_weight(cells_view(cells@), i),
{
    let ghost cv = cells_view(cells@);
    let n = cells.len();
    let mut counts: Vec<usize> = Vec::new();
    let mut max_count: usize = 1;
    let mut i: usize = 0;
    proof {
        lemma_max_cell_count(cv, n as int);
    }
    while i < n
        invariant
            cv == cells_view(cells@),
            n == cells@.len(),
            i <= n,
            counts@.len() == i,
            forall|k: int| 0 <= k < i ==> counts@[k] == cell_count(cv, cv[k]),
            max_count == max_cell_count(cv, i as int),
        decreases n - i,
    {
        let c = count_cell(cells, &cells[i]);
        counts.push(c);
        if c > max_count {
            max_count = c;
        }
        i = i + 1;
    }
    proof {
        lemma_max_cell_count(cv, n as int);
    }
    let mut out: Vec<usize> = Vec::new();
    let mut k: usize = 0;
    while k < n
        invariant
            cv == cells_view(cells@),
            n == cells@.len(),
            counts@.len() == n,
            forall|q: int| 0 <= q < n ==> counts@[q] == cell_count(cv, cv[q]),
            max_count == max_cell_count(cv, n as int),
            forall|j: int| 0 <= j < n ==> cell_count(cv, #[trigger] cv[j]) <= max_cell_count(cv, n as int),
            k <= n,
            out@.len() == k,
            forall|q: int| 0 <= q < k ==> out@[q] == leader_weight(cv, q),
        decreases n - k,
    {
        assert(counts@[k as int] <= max_count) by {
            assert(cell_count(cv, cv[k as int]) <= max_cell_count(cv, n as int));
        }
        assert(counts@[k as int] >= 1) by {
            lemma_cell_count_bounds(cv, cv[k as int]);
            assert(cv[k as int] == cv[k as int]);
            assert(cv.contains(cv[k as int]));
        }
        out.push(max_count - counts[k] + 1);
        k = k + 1;
    }
    out
}

/// The sum of the first `k` weights.
pub open spec fn prefix_sum(w: Seq<usize>, k: int) -> int
    decreases k,
{
    if k <= 0 {
        0
    } else {
        prefix_sum(w, k - 1) + w[k - 1]
    }
}

/// The first member, from `i` on, whose running total of weights reaches `ticket`; the
/// last member when none does.
pub open spec fn first_reaching(w: Seq<usize>, ticket: int, i: int) -> int
    decreases w.len() - i,
{
    if i >= w.len() - 1 {
        w.len() - 1
    } else if prefix_sum(w, i + 1) >= ticket {
        i
    } else {
        first_reaching(w, ticket, i + 1)
    }
}

/// The member that the roulette picks for `ticket`: the first whose running total of
/// weights reaches the ticket, the last one if none does; nothing without members.
pub open spec fn spec_roulette_pick(w: Seq<usize>, ticket: int) -> Option<int> {
    if w.len() == 0 {
        None
    } else {
        Some(first_reaching(w, ticket, 0))
    }
}

proof fn lemma_prefix_sum_bound(w: Seq<usize>, k: int)
    requires
        0 <= k <= w.len(),
    ensures
        0 <= prefix_sum(w, k) <= k * usize::MAX,
    decreases k,
{
    if k > 0 {
        lemma_prefix_sum_bound(w, k - 1);
        assert((k - 1) * usize::MAX + usize::MAX == k * usize::MAX) by (nonlinear_arith);
    }
}

/// Spins the roulette: the index of the first member whose running total of `weights`
/// reaches `ticket`, the last member when none does, nothing without members.
pub fn roulette_pick(weights: &[usize], ticket: u128) -> (r: Option<usize>)
    ensures
        match spec_roulette_pick(weights@, ticket as int) {
            Some(k) => r == Some(k as usize),
            None => r is None,
        },
{
    let n = weights.len();
    if n == 0 {
        return None;
    }
    let mut total: u128 = 0;
    let mut i: usize = 0;
    while i < n - 1
        invariant
            n == weights@.len(),
            n > 0,
            i <= n - 1,
            total == prefix_sum(weights@, i as int),
            first_reaching(weights@, ticket as int, 0) == first_reaching(weights@, ticket as int, i as int),
        decreases n - i,
    {
        proof {
            lemma_prefix_sum_bound(weights@, i + 1);
            assert((i + 1) * usize::MAX <= usize::MAX * usize::MAX) by (nonlinear_arith)
                requires
                    i + 1 <= usize::MAX,
            ;
            assert(usize::MAX * usize::MAX < u128::MAX) by (nonlinear_arith)
                requires
                    usize::MAX < 0x1_0000_0000_0000_0000,
            ;
        }
        total = total + weights[i] as u128;
        if total >= ticket {
            return Some(i);
        }
        i = i + 1;
    }
    Some(n - 1)
}

impl<S> Archive<S> {
    /// Picks the leader that guides a particle: none from an empty archive, the only
    /// member of a one-member archive, otherwise the roulette pick for `ticket` with
    /// `weights` (from `leader_fitness` on the members' grid cells).
    pub fn select_leader(&self, weights: &[usize], ticket: u128) -> (r: Option<usize>)
        requires
            weights@.len() == self.members@.len(),
        ensures
            self.members@.len() == 0 ==> r is None,
            self.members@.len() == 1 ==> r == Some(0usize),
            self.members@.len() > 1 ==> match spec_roulette_pick(weights@, ticket as int) {
                Some(k) => r == Some(k as usize),
                None => r is None,
            },
    {
        if self.members.len() == 0 {
            return None;
        }
        if self.members.len() == 1 {
            return Some(0);
        }
        roulette_pick(weights, ticket)
    }
}

/// Every member weighs at least 1 in leader selection, and a member in a less crowded
/// cell weighs at least as much as one in a more crowded cell.
pub proof fn law_leader_weights(cells: Seq<Seq<usize>>, i: int, j: int)
    requires
        0 <= i < cells.len(),
        0 <= j < cells.len(),
    ensures
        leader_weight(cells, i) >= 1,
        cell_count(cells, cells[i]) <= cell_count(cells, cells[j]) ==> leader_weight(cells, i)
            >= leader_weight(cells, j),
{
    lemma_max_cell_count(cells, cells.len() as int);
    assert(cell_count(cells, cells[i]) <= max_cell_count(cells, cells.len() as int));
}

/// What becomes of a particle's personal best after it moves.
#[derive(Debug, Clone, Copy, PartialEq, Eq, Structural)]
pub enum BestUpdate {
    Replace,
    ReplaceOnCoin,
    Keep,
}

/// The personal best is replaced by a new position that is better; a new position
/// that neither dominates nor is dominated by it replaces it on the toss of a fair
/// coin; otherwise it stays.
pub fn personal_best_update(better: bool, relation: Dominance) -> (r: BestUpdate)
    ensures
        r == (if better {
            BestUpdate::Replace
        } else if relation == Dominance::Nondominated {
            BestUpdate::ReplaceOnCoin
        } else {
            BestUpdate::Keep
        }),
{
    if better {
        BestUpdate::Replace
    } else if relation == Dominance::Nondominated {
        BestUpdate::ReplaceOnCoin
    } else {
        BestUpdate::Keep
    }
}

} // verus!
