use vstd::prelude::*;
use crate::catalog::TaskData;
use crate::chromosome::{clamp_cut, half, total_value, Chromosome};
use crate::geometry::Rect;
use crate::mutation::{mutated, MutationDraws};

verus! {

pub open spec fn score_of(c: Chromosome) -> int {
    total_value(c.rects@)
}

/// `idx` ranks `pop`: it lists every index of `pop` once, from the highest
/// score to the lowest.
pub open spec fn is_ranking(pop: Seq<Chromosome>, idx: Seq<usize>) -> bool {
    &&& idx.len() == pop.len()
    &&& forall|a: int| 0 <= a < idx.len() ==> #[trigger] idx[a] < pop.len()
    &&& forall|a: int, b: int| 0 <= a < idx.len() && 0 <= b < idx.len() && a != b ==> idx[a] != idx[b]
    &&& forall|a: int, b: int|
        0 <= a < b < idx.len() ==> score_of(pop[#[trigger] idx[a] as int]) >= score_of(
            pop[#[trigger] idx[b] as int],
        )
}

/// Member `m` of the population bred from the ranking `idx` of `pop`: for the
/// `k`-th pair of survivors, ranked `2k` and `2k + 1`, its two children cut at
/// `cuts[k]` and then the two survivors themselves.
pub open spec fn bred_member(pop: Seq<Chromosome>, idx: Seq<usize>, cuts: Seq<i32>, task: TaskData, m: int) -> Seq<Rect> {
    let k = m / 4;
    let a = pop[idx[2 * k] as int].rects@;
    let b = pop[idx[2 * k + 1] as int].rects@;
    let x = clamp_cut(cuts[k] as int, task.circle.radius as int);
    if m % 4 == 0 {
        half(a, x, true) + half(b, x, false)
    } else if m % 4 == 1 {
        half(b, x, true) + half(a, x, false)
    } else if m % 4 == 2 {
        a
    } else {
        b
    }
}

/// The greatest score in the population; zero where it is empty.
pub open spec fn best_score(pop: Seq<Chromosome>) -> int
    decreases pop.len(),
{
    if pop.len() == 0 {
        0
    } else {
        let m = best_score(pop.drop_last());
        if pop.len() == 1 || score_of(pop.last()) > m { score_of(pop.last()) } else { m }
    }
}

/// A population and the catalog it is bred against.
pub struct Evolution {
    pub population: Vec<Chromosome>,
    pub task_data: TaskData,
}

impl Evolution {
    pub open spec fn wf(&self) -> bool {
        self.task_data.circle.radius > 0
    }

    /// A population of `n` empty chromosomes. Survivors, half of the
    /// population, are bred in pairs, so `n` is a multiple of four.
    pub fn new(n: i32, task_data: TaskData) -> (r: Evolution)
        requires
            n % 4 == 0,
            n >= 4,
            task_data.circle.radius > 0,
        ensures
            r.wf(),
            r.population@.len() == n,
            forall|m: int| 0 <= m < n ==> (#[trigger] r.population@[m]).rects@.len() == 0,
            r.task_data == task_data,
    {
        let mut population: Vec<Chromosome> = Vec::new();
        let mut i: i32 = 0;
        while i < n
            invariant
                0 <= i <= n,
                population@.len() == i,
                forall|m: int| 0 <= m < i ==> (#[trigger] population@[m]).rects@.len() == 0,
            decreases n - i,
        {
            population.push(Chromosome::new());
            i = i + 1;
        }
        Evolution { population, task_data }
    }

    /// The greatest score in the population, or zero where it is empty.
    pub fn get_best_result(&self) -> (r: i128)
        ensures
            r == best_score(self.population@),
    {
        let mut best: i128 = 0;
        let mut i: usize = 0;
        while i < self.population.len()
            invariant
                0 <= i <= self.population@.len(),
                best == best_score(self.population@.subrange(0, i as int)),
            decreases self.population@.len() - i,
        {
            proof {
                assert(self.population@.subrange(0, i + 1).drop_last() =~= self.population@.subrange(0, i as int));
            }
            let s = self.population[i].score();
            if i == 0 || s > best {
                best = s;
            }
            i = i + 1;
        }
        proof {
            assert(self.population@.subrange(0, self.population@.len() as int) =~= self.population@);
        }
        best
    }

    /// Indices of the population from the highest score to the lowest; equal
    /// scores keep their order.
    pub fn ranking(&self) -> (r: Vec<usize>)
        ensures
            is_ranking(self.population@, r@),
    {
        let pop = &self.population;
        let n = pop.len();
        let mut scores: Vec<i128> = Vec::new();
        let mut idx: Vec<usize> = Vec::new();
        let mut i: usize = 0;
        while i < n
            invariant
                n == pop@.len(),
                0 <= i <= n,
                scores@.len() == i,
                forall|j: int| 0 <= j < i ==> #[trigger] scores@[j] == score_of(pop@[j]),
                idx@.len() == i,
                forall|a: int| 0 <= a < idx@.len() ==> #[trigger] idx@[a] < i,
                forall|a: int, b: int| 0 <= a < idx@.len() && 0 <= b < idx@.len() && a != b ==> idx@[a] != idx@[b],
                forall|a: int, b: int|
                    0 <= a < b < idx@.len() ==> score_of(pop@[#[trigger] idx@[a] as int]) >= score_of(
                        pop@[#[trigger] idx@[b] as int],
                    ),
            decreases n - i,
        {
            let s = pop[i].score();
            scores.push(s);
            let mut pos: usize = 0;
            while pos < idx.len() && scores[idx[pos]] >= s
                invariant
                    0 <= pos <= idx@.len(),
                    scores@.len() == i + 1,
                    forall|a: int| 0 <= a < idx@.len() ==> #[trigger] idx@[a] < i,
                    forall|a: int| 0 <= a < pos ==> score_of(pop@[#[trigger] idx@[a] as int]) >= s,
                    forall|j: int| 0 <= j <= i ==> #[trigger] scores@[j] == score_of(pop@[j]),
                decreases idx@.len() - pos,
            {
                pos = pos + 1;
            }
            let ghost before = idx@;
            idx.insert(pos, i);
            proof {
                assert(idx@ =~= before.insert(pos as int, i));
                assert(s == score_of(pop@[i as int]));
                assert forall|a: int| 0 <= a < idx@.len() implies #[trigger] idx@[a] < i + 1 by {
                    if a > pos {
                        assert(idx@[a] == before[a - 1]);
                    }
                }
                assert forall|a: int, b: int|
                    0 <= a < idx@.len() && 0 <= b < idx@.len() && a != b implies idx@[a] != idx@[b] by {
                    if a < pos && b < pos {
                    } else if a > pos && b > pos {
                        assert(idx@[a] == before[a - 1]);
                        assert(idx@[b] == before[b - 1]);
                    } else if a > pos {
                        assert(idx@[a] == before[a - 1]);
                    } else if b > pos {
                        assert(idx@[b] == before[b - 1]);
                    }
                }
                assert forall|a: int, b: int| 0 <= a < b < idx@.len() implies score_of(
                    pop@[#[trigger] idx@[a] as int],
                ) >= score_of(pop@[#[trigger] idx@[b] as int]) by {
                    if b < pos {
                    } else if a < pos && b == pos {
                    } else if a == pos {
                        assert(idx@[b] == before[b - 1]);
                        if pos < before.len() {
                            assert(score_of(pop@[before[pos as int] as int]) >= score_of(pop@[before[b - 1] as int])
                                || b - 1 == pos);
                        }
                    } else if a < pos {
                        assert(idx@[b] == before[b - 1]);
                    } else {
                        assert(idx@[b] == before[b - 1]);
                        assert(idx@[a] == before[a - 1]);
                    }
                }
            }
            i = i + 1;
        }
        idx
    }

    /// Selection and crossover: ranks the population by score, keeps the top
    /// half, and for each consecutive pair of survivors, the `k`-th cut at
    /// `cuts[k]`, appends the two children and then copies of the two
    /// survivors.
    pub fn advance_crossover(&mut self, cuts: &Vec<i32>)
        requires
            old(self).wf(),
            old(self).population@.len() % 4 == 0,
            cuts@.len() >= old(self).population@.len() / 4,
        ensures
            final(self).wf(),
            final(self).task_data == old(self).task_data,
            final(self).population@.len() == old(self).population@.len(),
            exists|idx: Seq<usize>|
                is_ranking(old(self).population@, idx) && forall|m: int|
                    0 <= m < old(self).population@.len() ==> (#[trigger] final(self).population@[m]).rects@
                        == bred_member(old(self).population@, idx, cuts@, old(self).task_data, m),
    {
        let idx = self.ranking();
        let n = self.population.len();
        let ghost pop = self.population@;
        let mut next: Vec<Chromosome> = Vec::new();
        let mut k: usize = 0;
        while k < n / 4
            invariant
                n == pop.len(),
                n % 4 == 0,
                pop == self.population@,
                is_ranking(pop, idx@),
                self.wf(),
                cuts@.len() >= n / 4,
                0 <= k <= n / 4,
                next@.len() == 4 * k,
                forall|m: int| 0 <= m < 4 * k ==> (#[trigger] next@[m]).rects@ == bred_member(pop, idx@, cuts@, self.task_data, m),
            decreases n / 4 - k,
        {
            let a = &self.population[idx[2 * k]];
            let b = &self.population[idx[2 * k + 1]];
            let (c1, c2) = Chromosome::crossover(a, b, &self.task_data, cuts[k]);
            let ghost before = next@;
            next.push(c1);
            next.push(c2);
            next.push(a.duplicate());
            next.push(b.duplicate());
            proof {
                assert forall|m: int| 0 <= m < 4 * (k + 1) implies (#[trigger] next@[m]).rects@ == bred_member(
                    pop,
                    idx@,
                    cuts@,
                    self.task_data,
                    m,
                ) by {
                    if m < 4 * k {
                        assert(next@[m] == before[m]);
                    } else {
                        assert(m / 4 == k);
                    }
                }
            }
            k = k + 1;
        }
        self.population = next;
    }

    /// Mutates member `m` of the population with the draws `draws[m]`.
    pub fn advance_mutation(&mut self, draws: &Vec<MutationDraws>)
        requires
            draws@.len() == old(self).population@.len(),
        ensures
            final(self).task_data == old(self).task_data,
            final(self).population@.len() == old(self).population@.len(),
            forall|m: int|
                0 <= m < old(self).population@.len() ==> (#[trigger] final(self).population@[m]).rects@
                    == mutated(old(self).population@[m].rects@, draws@[m], old(self).task_data),
    {
        let n = self.population.len();
        let mut next: Vec<Chromosome> = Vec::new();
        let mut m: usize = 0;
        while m < n
            invariant
                n == self.population@.len(),
                draws@.len() == n,
                0 <= m <= n,
                next@.len() == m,
                forall|j: int| 0 <= j < m ==> (#[trigger] next@[j]).rects@ == mutated(self.population@[j].rects@, draws@[j], self.task_data),
            decreases n - m,
        {
            let mut c = self.population[m].duplicate();
            c.mutate(&self.task_data, &draws[m]);
            next.push(c);
            m = m + 1;
        }
        self.population = next;
    }

    /// One generation: selection and crossover with the cuts `cuts`, then
    /// mutation of every member with its draws.
    pub fn advance(&mut self, cuts: &Vec<i32>, draws: &Vec<MutationDraws>)
        requires
            old(self).wf(),
            old(self).population@.len() % 4 == 0,
            cuts@.len() >= old(self).population@.len() / 4,
            draws@.len() == old(self).population@.len(),
        ensures
            final(self).wf(),
            final(self).task_data == old(self).task_data,
            final(self).population@.len() == old(self).population@.len(),
            exists|idx: Seq<usize>|
                is_ranking(old(self).population@, idx) && forall|m: int|
                    0 <= m < old(self).population@.len() ==> (#[trigger] final(self).population@[m]).rects@
                        == mutated(
                        bred_member(old(self).population@, idx, cuts@, old(self).task_data, m),
                        draws@[m],
                        old(self).task_data,
                    ),
    {
        let ghost pop = self.population@;
        self.advance_crossover(cuts);
        let ghost mid = self.population@;
        self.advance_mutation(draws);
        proof {
            let idx = choose|idx: Seq<usize>|
                is_ranking(pop, idx) && forall|m: int|
                    0 <= m < pop.len() ==> (#[trigger] mid[m]).rects@ == bred_member(pop, idx, cuts@, self.task_data, m);
            assert forall|m: int| 0 <= m < pop.len() implies (#[trigger] self.population@[m]).rects@ == mutated(
                bred_member(pop, idx, cuts@, self.task_data, m),
                draws@[m],
                self.task_data,
            ) by {
                assert(mid[m].rects@ == bred_member(pop, idx, cuts@, self.task_data, m));
            }
        }
    }
}

/// The elite copies that selection carries over score at least as much as
/// every member ranked in the bottom half of the previous generation.
pub proof fn lemma_elites_outscore_bottom_half(pop: Seq<Chromosome>, idx: Seq<usize>, cuts: Seq<i32>, task: TaskData, k: int, b: int)
    requires
        is_ranking(pop, idx),
        pop.len() % 4 == 0,
        0 <= k < pop.len() / 4,
        pop.len() / 2 <= b < pop.len(),
    ensures
        total_value(bred_member(pop, idx, cuts, task, 4 * k + 2)) >= score_of(pop[idx[b] as int]),
        total_value(bred_member(pop, idx, cuts, task, 4 * k + 3)) >= score_of(pop[idx[b] as int]),
{
    assert((4 * k + 2) / 4 == k && (4 * k + 2) % 4 == 2);
    assert((4 * k + 3) / 4 == k && (4 * k + 3) % 4 == 3);
    assert(score_of(pop[idx[2 * k] as int]) >= score_of(pop[idx[b] as int]));
    assert(score_of(pop[idx[2 * k + 1] as int]) >= score_of(pop[idx[b] as int]));
}

} // verus!
