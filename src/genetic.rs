//! The genetic algorithm: ranking by fitness, elitism, tournament selection,
//! crossover and mutation.
//!
//! A population record pairs each network with its fitness, in the order of
//! the agents that produced them.
use crate::network::{mixed, mutated, NetworkView, NeuralNetwork, INIT_LIMIT};
use crate::random::random_in;
use rand::rngs::StdRng;
use vstd::prelude::*;

verus! {

/// Individuals drawn for one tournament.
pub const TOURNAMENT_SIZE: usize = 5;

/// The mutation rate of a new algorithm, `0.1` at the scale `RATE_ONE`.
pub const DEFAULT_MUTATION_RATE: u64 = 1_000;

/// The mutation strength of a new algorithm, `0.3` in fixed point.
pub const DEFAULT_MUTATION_STRENGTH: i64 = 3_000;

/// The configuration and generation counter of a run.
#[derive(Clone, Copy, Debug, PartialEq, Eq)]
pub struct GeneticAlgorithm {
    pub population_size: usize,
    pub mutation_rate: u64,
    pub mutation_strength: i64,
    pub elite_count: usize,
    pub generation: u32,
}

/// The fitness column of a population record.
pub open spec fn fitnesses(p: Seq<(NeuralNetwork, u64)>) -> Seq<u64> {
    Seq::new(p.len(), |i: int| p[i].1)
}

/// Every network of the record is well formed and has the topology of the first.
pub open spec fn uniform_record(p: Seq<(NeuralNetwork, u64)>) -> bool {
    &&& p.len() > 0
    &&& forall|i: int| 0 <= i < p.len() ==> (#[trigger] p[i]).0.wf() && p[i].0@.same_topology(p[0].0@)
}

/// The elite count for a population size: a tenth, rounded down, but at least
/// one for a non-empty population.
pub open spec fn elite_count_for(population_size: usize) -> usize {
    if population_size == 0 {
        0
    } else if population_size / 10 == 0 {
        1
    } else {
        population_size / 10
    }
}

/// Individual `i` ranks before individual `j`: higher fitness first, and on
/// equal fitness the earlier one first.
pub open spec fn precedes(f: Seq<u64>, i: usize, j: usize) -> bool {
    f[i as int] > f[j as int] || (f[i as int] == f[j as int] && i < j)
}

/// `i` inserted into the ranked sequence `s` just before the first entry it precedes.
pub open spec fn insert_ranked(s: Seq<usize>, f: Seq<u64>, i: usize) -> Seq<usize>
    decreases s.len(),
{
    if s.len() == 0 {
        seq![i]
    } else if precedes(f, i, s[0]) {
        seq![i] + s
    } else {
        seq![s[0]] + insert_ranked(s.drop_first(), f, i)
    }
}

/// The indices `0..n` in the order of a stable sort by descending fitness.
pub open spec fn ranking(f: Seq<u64>, n: nat) -> Seq<usize>
    decreases n,
{
    if n == 0 {
        Seq::empty()
    } else {
        insert_ranked(ranking(f, (n - 1) as nat), f, (n - 1) as usize)
    }
}

/// Each entry of `s` precedes every later one.
pub open spec fn ranked(f: Seq<u64>, s: Seq<usize>) -> bool {
    forall|k: int, l: int| 0 <= k < l < s.len() ==> precedes(f, #[trigger] s[k], #[trigger] s[l])
}

/// Position `k` of `draws` holds the first draw of the highest fitness among them.
pub open spec fn first_fittest(f: Seq<u64>, draws: Seq<usize>, k: int) -> bool {
    &&& 0 <= k < draws.len()
    &&& forall|m: int| 0 <= m < draws.len() ==> f[#[trigger] draws[m] as int] <= f[draws[k] as int]
    &&& forall|m: int| 0 <= m < k ==> f[#[trigger] draws[m] as int] < f[draws[k] as int]
}

/// `r` wins the tournament over `draws`.
pub open spec fn wins(f: Seq<u64>, draws: Seq<usize>, r: usize) -> bool {
    exists|k: int| #[trigger] first_fittest(f, draws, k) && r == draws[k]
}

/// The fitness of each position of the ranking.
pub open spec fn ranked_fitnesses(f: Seq<u64>) -> Seq<u64> {
    Seq::new(f.len(), |k: int| f[ranking(f, f.len())[k] as int])
}

/// Individual `i` of the record wins some tournament of `TOURNAMENT_SIZE`
/// draws over the positions of the ranking.
pub open spec fn tournament_pick(f: Seq<u64>, i: int) -> bool {
    exists|draws: Seq<usize>, a: usize|
        {
            &&& draws.len() == TOURNAMENT_SIZE
            &&& forall|k: int| 0 <= k < draws.len() ==> #[trigger] draws[k] < f.len()
            &&& #[trigger] wins(ranked_fitnesses(f), draws, a)
            &&& i == ranking(f, f.len())[a as int]
        }
}

/// `child` is a crossover of two tournament winners of the record, then mutated.
pub open spec fn bred_from(p: Seq<(NeuralNetwork, u64)>, child: NetworkView, rate: u64, strength: i64) -> bool {
    exists|i: int, j: int, c: NetworkView|
        {
            &&& 0 <= i < p.len() && 0 <= j < p.len()
            &&& tournament_pick(fitnesses(p), i) && tournament_pick(fitnesses(p), j)
            &&& #[trigger] mixed(p[i].0@, p[j].0@, c)
            &&& mutated(c, child, rate, strength)
        }
}

/// The greatest value of `f` (zero for an empty sequence).
pub open spec fn max_of(f: Seq<u64>) -> int
    decreases f.len(),
{
    if f.len() == 0 {
        0
    } else if f.len() == 1 {
        f[0] as int
    } else if max_of(f.drop_last()) >= f.last() {
        max_of(f.drop_last())
    } else {
        f.last() as int
    }
}

/// The sum of the values of `f`.
pub open spec fn sum_of(f: Seq<u64>) -> int
    decreases f.len(),
{
    if f.len() == 0 {
        0
    } else {
        sum_of(f.drop_last()) + f.last()
    }
}

proof fn lemma_insert_ranked_at(s: Seq<usize>, f: Seq<u64>, i: usize, p: int)
    requires
        0 <= p <= s.len(),
        forall|k: int| 0 <= k < p ==> !precedes(f, i, #[trigger] s[k]),
        p < s.len() ==> precedes(f, i, s[p]),
    ensures
        insert_ranked(s, f, i) == s.insert(p, i),
    decreases s.len(),
{
    if s.len() == 0 {
        assert(s.insert(p, i) =~= seq![i]);
    } else if p == 0 {
        assert(s.insert(p, i) =~= seq![i] + s);
    } else {
        let t = s.drop_first();
        assert forall|k: int| 0 <= k < p - 1 implies !precedes(f, i, #[trigger] t[k]) by {
            assert(t[k] == s[k + 1]);
        }
        lemma_insert_ranked_at(t, f, i, p - 1);
        assert(s.insert(p, i) =~= seq![s[0]] + t.insert(p - 1, i));
    }
}

proof fn lemma_insert_ranked_contents(s: Seq<usize>, f: Seq<u64>, i: usize)
    ensures
        insert_ranked(s, f, i).len() == s.len() + 1,
        forall|k: int| 0 <= k < s.len() + 1 ==> #[trigger] insert_ranked(s, f, i)[k] == i || s.contains(insert_ranked(s, f, i)[k]),
    decreases s.len(),
{
    if s.len() > 0 && !precedes(f, i, s[0]) {
        let t = s.drop_first();
        lemma_insert_ranked_contents(t, f, i);
        let r = insert_ranked(s, f, i);
        assert forall|k: int| 0 <= k < s.len() + 1 implies #[trigger] r[k] == i || s.contains(r[k]) by {
            if k > 0 {
                assert(r[k] == insert_ranked(t, f, i)[k - 1]);
                if r[k] != i {
                    let m = choose|m: int| 0 <= m < t.len() && t[m] == r[k];
                    assert(s[m + 1] == r[k]);
                }
            } else {
                assert(r[0] == s[0]);
            }
        }
    } else if s.len() > 0 {
        let r = insert_ranked(s, f, i);
        assert forall|k: int| 0 <= k < s.len() + 1 implies #[trigger] r[k] == i || s.contains(r[k]) by {
            if k > 0 {
                assert(r[k] == s[k - 1]);
            }
        }
    }
}

proof fn lemma_ranking_shape(f: Seq<u64>, n: nat)
    ensures
        ranking(f, n).len() == n,
        forall|k: int| 0 <= k < n ==> #[trigger] ranking(f, n)[k] < n,
    decreases n,
{
    if n > 0 {
        let s = ranking(f, (n - 1) as nat);
        lemma_ranking_shape(f, (n - 1) as nat);
        lemma_insert_ranked_contents(s, f, (n - 1) as usize);
        assert forall|k: int| 0 <= k < n implies #[trigger] ranking(f, n)[k] < n by {
            let r = ranking(f, n);
            if r[k] != (n - 1) as usize {
                let m = choose|m: int| 0 <= m < s.len() && s[m] == r[k];
            }
        }
    }
}

proof fn lemma_insert_keeps_ranked(s: Seq<usize>, f: Seq<u64>, i: usize)
    requires
        ranked(f, s),
        forall|k: int| 0 <= k < s.len() ==> #[trigger] s[k] < i,
        i < f.len(),
        forall|k: int| 0 <= k < s.len() ==> #[trigger] s[k] < f.len(),
    ensures
        ranked(f, insert_ranked(s, f, i)),
    decreases s.len(),
{
    let r = insert_ranked(s, f, i);
    if s.len() == 0 {
    } else if precedes(f, i, s[0]) {
        assert forall|k: int, l: int| 0 <= k < l < r.len() implies precedes(f, #[trigger] r[k], #[trigger] r[l]) by {
            if k == 0 {
                assert(r[l] == s[l - 1]);
                if l > 1 {
                    assert(precedes(f, s[0], s[l - 1]));
                }
            } else {
                assert(r[k] == s[k - 1] && r[l] == s[l - 1]);
            }
        }
    } else {
        let t = s.drop_first();
        assert(ranked(f, t)) by {
            assert forall|k: int, l: int| 0 <= k < l < t.len() implies precedes(f, #[trigger] t[k], #[trigger] t[l]) by {
                assert(t[k] == s[k + 1] && t[l] == s[l + 1]);
            }
        }
        assert forall|k: int| 0 <= k < t.len() implies #[trigger] t[k] < i && t[k] < f.len() by {
            assert(t[k] == s[k + 1]);
        }
        lemma_insert_keeps_ranked(t, f, i);
        lemma_insert_ranked_contents(t, f, i);
        let u = insert_ranked(t, f, i);
        assert(r == seq![s[0]] + u);
        assert forall|k: int, l: int| 0 <= k < l < r.len() implies precedes(f, #[trigger] r[k], #[trigger] r[l]) by {
            if k == 0 {
                assert(r[l] == u[l - 1]);
                if u[l - 1] != i {
                    let m = choose|m: int| 0 <= m < t.len() && t[m] == u[l - 1];
                    assert(s[m + 1] == u[l - 1]);
                }
            } else {
                assert(r[k] == u[k - 1] && r[l] == u[l - 1]);
            }
        }
    }
}

/// The ranking is a stable sort by descending fitness: each index ranks before
/// every later one, so fitness never rises along it and equal fitness keeps
/// the order of the record.
pub proof fn lemma_ranking_is_stable_descending(f: Seq<u64>, n: nat)
    requires
        n <= f.len(),
        n <= usize::MAX,
    ensures
        ranking(f, n).len() == n,
        forall|k: int| 0 <= k < n ==> #[trigger] ranking(f, n)[k] < n,
        ranked(f, ranking(f, n)),
    decreases n,
{
    lemma_ranking_shape(f, n);
    if n > 0 {
        lemma_ranking_is_stable_descending(f, (n - 1) as nat);
        lemma_insert_keeps_ranked(ranking(f, (n - 1) as nat), f, (n - 1) as usize);
    }
}

proof fn lemma_max_of_bounds(f: Seq<u64>)
    requires
        f.len() > 0,
    ensures
        forall|i: int| 0 <= i < f.len() ==> #[trigger] f[i] <= max_of(f),
        exists|i: int| 0 <= i < f.len() && #[trigger] f[i] == max_of(f),
    decreases f.len(),
{
    if f.len() > 1 {
        let g = f.drop_last();
        lemma_max_of_bounds(g);
        assert forall|i: int| 0 <= i < f.len() implies #[trigger] f[i] <= max_of(f) by {
            if i < g.len() {
                assert(f[i] == g[i]);
            }
        }
        if max_of(g) >= f.last() {
            let i = choose|i: int| 0 <= i < g.len() && #[trigger] g[i] == max_of(g);
            assert(f[i] == g[i]);
        } else {
            assert(f[f.len() - 1] == max_of(f));
        }
    } else {
        assert(f[0] == max_of(f));
    }
}

proof fn lemma_sum_at_most(f: Seq<u64>, m: int)
    requires
        forall|i: int| 0 <= i < f.len() ==> #[trigger] f[i] <= m,
    ensures
        sum_of(f) <= f.len() * m,
        sum_of(f) >= 0,
    decreases f.len(),
{
    if f.len() > 0 {
        let g = f.drop_last();
        assert forall|i: int| 0 <= i < g.len() implies #[trigger] g[i] <= m by {
            assert(g[i] == f[i]);
        }
        lemma_sum_at_most(g, m);
        assert(f.len() * m == g.len() * m + m) by (nonlinear_arith)
            requires
                f.len() == g.len() + 1,
        ;
    }
}

/// The best fitness of a non-empty record is at least its average fitness.
pub proof fn lemma_best_at_least_average(f: Seq<u64>)
    requires
        f.len() > 0,
    ensures
        max_of(f) >= sum_of(f) / (f.len() as int),
{
    lemma_max_of_bounds(f);
    lemma_sum_at_most(f, max_of(f));
    let n = f.len() as int;
    let m = max_of(f);
    let s = sum_of(f);
    assert(s / n <= m) by (nonlinear_arith)
        requires
            n > 0,
            0 <= s <= n * m,
    ;
}

/// The index that wins a tournament over the drawn indices `draws`: the first
/// draw of the highest fitness.
pub fn tournament_winner(fitness: &[u64], draws: &[usize]) -> (r: usize)
    requires
        draws@.len() > 0,
        forall|k: int| 0 <= k < draws@.len() ==> #[trigger] draws@[k] < fitness@.len(),
    ensures
        wins(fitness@, draws@, r),
        r < fitness@.len(),
{
    let f = fitness;
    let mut best: usize = draws[0];
    let ghost mut bk: int = 0;
    let mut m: usize = 1;
    while m < draws.len()
        invariant
            forall|k: int| 0 <= k < draws@.len() ==> #[trigger] draws@[k] < f@.len(),
            1 <= m <= draws@.len(),
            0 <= bk < m,
            best == draws@[bk],
            forall|x: int| 0 <= x < m ==> f@[#[trigger] draws@[x] as int] <= f@[best as int],
            forall|x: int| 0 <= x < bk ==> f@[#[trigger] draws@[x] as int] < f@[best as int],
        decreases draws@.len() - m,
    {
        if f[draws[m]] > f[best] {
            best = draws[m];
            proof {
                bk = m as int;
            }
        }
        m = m + 1;
    }
    assert(first_fittest(f@, draws@, bk));
    best
}

/// The stable ranking of the indices of `fitness` by descending fitness.
pub fn rank_by_fitness(fitness: &[u64]) -> (r: Vec<usize>)
    ensures
        r@ == ranking(fitness@, fitness@.len()),
{
    let f = fitness;
    let n = f.len();
    let mut order: Vec<usize> = Vec::new();
    let mut i: usize = 0;
    while i < n
        invariant
            n == f@.len(),
            i <= n,
            order@ == ranking(f@, i as nat),
        decreases n - i,
    {
        proof {
            lemma_ranking_shape(f@, i as nat);
        }
        let mut p: usize = 0;
        while p < order.len() && f[order[p]] >= f[i]
            invariant
                n == f@.len(),
                i < n,
                order@ == ranking(f@, i as nat),
                order@.len() == i,
                forall|k: int| 0 <= k < i ==> #[trigger] order@[k] < i,
                p <= order@.len(),
                forall|k: int| 0 <= k < p ==> !precedes(f@, i, #[trigger] order@[k]),
            decreases order@.len() - p,
        {
            p = p + 1;
        }
        proof {
            lemma_insert_ranked_at(order@, f@, i, p as int);
        }
        order.insert(p, i);
        i = i + 1;
    }
    order
}

impl GeneticAlgorithm {
    /// The configuration is usable: no more elites than individuals, and a
    /// mutation strength that is a half-width.
    pub open spec fn wf(&self) -> bool {
        &&& self.elite_count <= self.population_size
        &&& self.mutation_strength >= 0
    }

    /// A run at generation zero with the default mutation rate and strength
    /// and the elite count that [`elite_count_for`] gives.
    pub fn new(population_size: usize) -> (r: Self)
        ensures
            r.wf(),
            r.population_size == population_size,
            r.mutation_rate == DEFAULT_MUTATION_RATE,
            r.mutation_strength == DEFAULT_MUTATION_STRENGTH,
            r.elite_count == elite_count_for(population_size),
            r.generation == 0,
    {
        let tenth = population_size / 10;
        let elite_count = if population_size > 0 && tenth == 0 {
            1
        } else {
            tenth
        };
        GeneticAlgorithm {
            population_size,
            mutation_rate: DEFAULT_MUTATION_RATE,
            mutation_strength: DEFAULT_MUTATION_STRENGTH,
            elite_count,
            generation: 0,
        }
    }

    /// `population_size` freshly drawn networks of the given topology.
    pub fn create_initial_population(
        &self,
        input_size: usize,
        hidden_size: usize,
        output_size: usize,
        rng: &mut StdRng,
    ) -> (r: Vec<NeuralNetwork>)
        requires
            input_size > 0,
            hidden_size > 0,
            output_size > 0,
        ensures
            r@.len() == self.population_size,
            forall|k: int| 0 <= k < r@.len() ==> {
                &&& (#[trigger] r@[k]).wf()
                &&& r@[k]@.input_size == input_size
                &&& r@[k]@.hidden_size == hidden_size
                &&& r@[k]@.output_size == output_size
                &&& r@[k]@.shaped_within(INIT_LIMIT as int)
            },
    {
        let mut r: Vec<NeuralNetwork> = Vec::new();
        let mut i: usize = 0;
        while i < self.population_size
            invariant
                input_size > 0,
                hidden_size > 0,
                output_size > 0,
                i <= self.population_size,
                r@.len() == i,
                forall|k: int| 0 <= k < r@.len() ==> {
                    &&& (#[trigger] r@[k]).wf()
                    &&& r@[k]@.input_size == input_size
                    &&& r@[k]@.hidden_size == hidden_size
                    &&& r@[k]@.output_size == output_size
                    &&& r@[k]@.shaped_within(INIT_LIMIT as int)
                },
            decreases self.population_size - i,
        {
            r.push(NeuralNetwork::new(input_size, hidden_size, output_size, rng));
            i = i + 1;
        }
        r
    }

    /// Draws `TOURNAMENT_SIZE` indices of `fitness` uniformly, with
    /// replacement, and returns the winner (see [`tournament_winner`]).
    fn tournament_selection(&self, fitness: &[u64], rng: &mut StdRng) -> (r: usize)
        requires
            fitness@.len() > 0,
        ensures
            r < fitness@.len(),
            exists|draws: Seq<usize>| {
                &&& draws.len() == TOURNAMENT_SIZE
                &&& forall|k: int| 0 <= k < draws.len() ==> #[trigger] draws[k] < fitness@.len()
                &&& #[trigger] wins(fitness@, draws, r)
            },
    {
        let mut draws: Vec<usize> = Vec::new();
        let mut t: usize = 0;
        while t < TOURNAMENT_SIZE
            invariant
                fitness@.len() > 0,
                t <= TOURNAMENT_SIZE,
                draws@.len() == t,
                forall|k: int| 0 <= k < draws@.len() ==> #[trigger] draws@[k] < fitness@.len(),
            decreases TOURNAMENT_SIZE - t,
        {
            let d = random_in(rng, 0, (fitness.len() - 1) as i128);
            draws.push(d as usize);
            t = t + 1;
        }
        let r = tournament_winner(fitness, draws.as_slice());
        r
    }

    /// The next generation: the `elite_count` best networks of the record,
    /// copied unchanged in the order of the ranking, then children of two
    /// tournament winners, crossed over and mutated, up to `population_size`.
    /// The generation counter advances by one.
    pub fn evolve(&mut self, population: &[(NeuralNetwork, u64)], rng: &mut StdRng) -> (r: Vec<NeuralNetwork>)
        requires
            old(self).wf(),
            old(self).generation < u32::MAX,
            population@.len() >= old(self).elite_count,
            uniform_record(population@),
        ensures
            *final(self) == (GeneticAlgorithm { generation: (old(self).generation + 1) as u32, ..*old(self) }),
            r@.len() == old(self).population_size,
            forall|k: int| 0 <= k < old(self).elite_count ==>
                (#[trigger] r@[k])@ == population@[ranking(fitnesses(population@), population@.len())[k] as int].0@,
            forall|k: int| old(self).elite_count <= k < r@.len() ==>
                bred_from(population@, (#[trigger] r@[k])@, old(self).mutation_rate, old(self).mutation_strength),
            forall|k: int| 0 <= k < r@.len() ==> (#[trigger] r@[k]).wf() && r@[k]@.same_topology(population@[0].0@),
    {
        self.generation = self.generation + 1;
        let n = population.len();
        let ghost f = fitnesses(population@);
        let mut fits: Vec<u64> = Vec::new();
        let mut i: usize = 0;
        while i < n
            invariant
                n == population@.len(),
                f == fitnesses(population@),
                i <= n,
                fits@ == f.take(i as int),
            decreases n - i,
        {
            fits.push(population[i].1);
            i = i + 1;
            assert(fits@ =~= f.take(i as int));
        }
        assert(fits@ =~= f);
        let order = rank_by_fitness(fits.as_slice());
        proof {
            lemma_ranking_shape(f, n as nat);
        }
        let mut ranked_fits: Vec<u64> = Vec::new();
        let mut k: usize = 0;
        while k < n
            invariant
                n == population@.len(),
                fits@ == f,
                fits@.len() == n,
                order@.len() == n,
                forall|x: int| 0 <= x < n ==> #[trigger] order@[x] < n,
                k <= n,
                order@ == ranking(f, n as nat),
                f.len() == n,
                ranked_fits@ == ranked_fitnesses(f).take(k as int),
            decreases n - k,
        {
            ranked_fits.push(fits[order[k]]);
            k = k + 1;
            assert(ranked_fits@ =~= ranked_fitnesses(f).take(k as int));
        }
        let ghost elite = self.elite_count;
        let mut next: Vec<NeuralNetwork> = Vec::new();
        let mut e: usize = 0;
        while e < self.elite_count
            invariant
                n == population@.len(),
                order@ == ranking(f, n as nat),
                order@.len() == n,
                forall|x: int| 0 <= x < n ==> #[trigger] order@[x] < n,
                uniform_record(population@),
                self.elite_count <= n,
                e <= self.elite_count,
                next@.len() == e,
                forall|x: int| 0 <= x < e ==> (#[trigger] next@[x])@ == population@[order@[x] as int].0@,
                forall|x: int| 0 <= x < e ==> (#[trigger] next@[x]).wf() && next@[x]@.same_topology(population@[0].0@),
            decreases self.elite_count - e,
        {
            let copy = population[order[e]].0.clone();
            next.push(copy);
            e = e + 1;
        }
        while next.len() < self.population_size
            invariant
                self.wf(),
                n == population@.len(),
                ranked_fits@ == ranked_fitnesses(f),
                ranked_fits@.len() == n,
                f == fitnesses(population@),
                n > 0,
                order@ == ranking(f, n as nat),
                order@.len() == n,
                forall|x: int| 0 <= x < n ==> #[trigger] order@[x] < n,
                uniform_record(population@),
                self.elite_count == elite,
                elite <= next@.len() <= self.population_size,
                forall|x: int| 0 <= x < elite ==> (#[trigger] next@[x])@ == population@[order@[x] as int].0@,
                forall|x: int| elite <= x < next@.len() ==>
                    bred_from(population@, (#[trigger] next@[x])@, self.mutation_rate, self.mutation_strength),
                forall|x: int| 0 <= x < next@.len() ==> (#[trigger] next@[x]).wf() && next@[x]@.same_topology(population@[0].0@),
            decreases self.population_size - next@.len(),
        {
            let a = self.tournament_selection(ranked_fits.as_slice(), rng);
            let b = self.tournament_selection(ranked_fits.as_slice(), rng);
            proof {
                assert(tournament_pick(f, order@[a as int] as int));
                assert(tournament_pick(f, order@[b as int] as int));
            }
            let first_parent = &population[order[a]].0;
            let second_parent = &population[order[b]].0;
            let mut child = first_parent.crossover(second_parent, rng);
            let ghost crossed = child@;
            child.mutate(self.mutation_rate, self.mutation_strength, rng);
            proof {
                let (i, j) = (order@[a as int] as int, order@[b as int] as int);
                assert(mixed(population@[i].0@, population@[j].0@, crossed));
                assert(bred_from(population@, child@, self.mutation_rate, self.mutation_strength));
            }
            next.push(child);
        }
        next
    }

    /// The highest fitness of a non-empty record.
    pub fn get_best_fitness(&self, population: &[(NeuralNetwork, u64)]) -> (r: u64)
        requires
            population@.len() > 0,
        ensures
            r == max_of(fitnesses(population@)),
            exists|i: int| 0 <= i < population@.len() && r == #[trigger] population@[i].1,
            forall|i: int| 0 <= i < population@.len() ==> #[trigger] population@[i].1 <= r,
    {
        let ghost f = fitnesses(population@);
        let mut best: u64 = population[0].1;
        let mut i: usize = 1;
        while i < population.len()
            invariant
                f == fitnesses(population@),
                1 <= i <= population@.len(),
                best == max_of(f.take(i as int)),
            decreases population@.len() - i,
        {
            assert(f.take(i + 1).drop_last() =~= f.take(i as int));
            if population[i].1 > best {
                best = population[i].1;
            }
            i = i + 1;
        }
        proof {
            assert(f.take(i as int) =~= f);
            lemma_max_of_bounds(f);
            assert forall|i: int| 0 <= i < population@.len() implies #[trigger] population@[i].1 <= best by {
                assert(f[i] == population@[i].1);
            }
            let w = choose|w: int| 0 <= w < f.len() && #[trigger] f[w] == max_of(f);
            assert(population@[w].1 == best);
        }
        best
    }

    /// The mean fitness of a non-empty record, rounded down.
    pub fn get_average_fitness(&self, population: &[(NeuralNetwork, u64)]) -> (r: u64)
        requires
            population@.len() > 0,
        ensures
            r == sum_of(fitnesses(population@)) / (population@.len() as int),
    {
        let ghost f = fitnesses(population@);
        let n = population.len();
        let mut sum: u128 = 0;
        let mut i: usize = 0;
        while i < n
            invariant
                f == fitnesses(population@),
                n == population@.len(),
                i <= n,
                sum == sum_of(f.take(i as int)),
                sum <= i * (u64::MAX as int),
            decreases n - i,
        {
            assert(f.take(i + 1).drop_last() =~= f.take(i as int));
            sum = sum + population[i].1 as u128;
            i = i + 1;
        }
        assert(f.take(n as int) =~= f);
        let avg = sum / n as u128;
        assert(avg <= u64::MAX) by (nonlinear_arith)
            requires
                n > 0,
                sum <= n * (u64::MAX as int),
                avg == (sum as int) / (n as int),
        ;
        avg as u64
    }
}

} // verus!
