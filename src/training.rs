//! The generation controller: spawns one agent per network, runs the agents
//! tick by tick on what the environment observes and reports, and at the end
//! of a generation hands the population record to the genetic algorithm.
//!
//! The environment itself (physics, obstacles, rendering) lies outside: each
//! step takes from it plain values (observations, crashes, points) and hands
//! back plain values (decisions, statistics).
use crate::agent::{decision, die_spec, ticked, AIBird, AgentView};
use crate::genetic::{max_of, ranking, sum_of, GeneticAlgorithm};
use crate::network::{within, NeuralNetwork, INPUT_LIMIT};
use rand::rngs::StdRng;
use vstd::prelude::*;

verus! {

/// Agents in a generation.
pub const POPULATION_SIZE: usize = 50;

/// Observations per agent and tick.
pub const INPUT_SIZE: usize = 4;

/// Hidden units of each network.
pub const HIDDEN_SIZE: usize = 8;

/// Outputs of each network; the first one decides.
pub const OUTPUT_SIZE: usize = 1;

/// Ticks a generation may run: thirty seconds at sixty ticks a second.
pub const MAX_GENERATION_TICKS: u64 = 1_800;

/// The state of a training run.
pub struct AITraining {
    pub genetic_algorithm: GeneticAlgorithm,
    pub current_population: Vec<NeuralNetwork>,
    pub training_active: bool,
    pub elapsed_ticks: u64,
    pub max_generation_ticks: u64,
    pub alive_count: usize,
}

/// What observers are shown of the last finished generation; fitness in tenths.
#[derive(Clone, Copy, Debug, Default, PartialEq, Eq)]
pub struct AIStats {
    pub best_fitness: u64,
    pub average_fitness: u64,
    pub best_score: u32,
    pub generation: u32,
}

/// The agents of a sequence.
pub open spec fn agents(b: Seq<AIBird>) -> Seq<AgentView> {
    Seq::new(b.len(), |i: int| b[i]@)
}

/// No agent of `b` is alive.
pub open spec fn all_dead(b: Seq<AIBird>) -> bool {
    forall|i: int| 0 <= i < b.len() ==> !(#[trigger] b[i]).alive
}

/// How many agents of `b` are alive.
pub open spec fn count_alive(b: Seq<AgentView>) -> int
    decreases b.len(),
{
    if b.len() == 0 {
        0
    } else {
        count_alive(b.drop_last()) + if b.last().alive {
            1int
        } else {
            0
        }
    }
}

/// The fitness of each agent once its episode is over: frozen at death, or
/// finalized by the same formula for an agent still alive.
pub open spec fn episode_fitnesses(b: Seq<AIBird>) -> Seq<u64> {
    Seq::new(b.len(), |i: int| die_spec(b[i]@).fitness as u64)
}

/// The score of each agent.
pub open spec fn scores(b: Seq<AIBird>) -> Seq<u64> {
    Seq::new(b.len(), |i: int| b[i].score as u64)
}

/// The agent `a` after a tick in which it may have scored a point.
pub open spec fn scored(a: AgentView, passed: bool) -> AgentView {
    if a.alive && passed && a.score < u32::MAX {
        AgentView { score: (a.score + 1) as u32, ..a }
    } else {
        a
    }
}

impl AITraining {
    /// The run is usable: a valid algorithm, a non-empty population of its
    /// size, all of one topology.
    pub open spec fn wf(&self) -> bool {
        &&& self.genetic_algorithm.wf()
        &&& self.genetic_algorithm.population_size > 0
        &&& self.current_population@.len() == self.genetic_algorithm.population_size
        &&& forall|i: int| 0 <= i < self.current_population@.len() ==>
            (#[trigger] self.current_population@[i]).wf()
                && self.current_population@[i]@.same_topology(self.current_population@[0]@)
    }

    /// A run of [`POPULATION_SIZE`] random networks of the topology
    /// ([`INPUT_SIZE`], [`HIDDEN_SIZE`], [`OUTPUT_SIZE`]), not yet started.
    pub fn new(rng: &mut StdRng) -> (r: Self)
        ensures
            r.wf(),
            r.genetic_algorithm.population_size == POPULATION_SIZE,
            r.genetic_algorithm.generation == 0,
            r.current_population@[0]@.input_size == INPUT_SIZE,
            r.current_population@[0]@.hidden_size == HIDDEN_SIZE,
            r.current_population@[0]@.output_size == OUTPUT_SIZE,
            !r.training_active,
            r.elapsed_ticks == 0,
            r.max_generation_ticks == MAX_GENERATION_TICKS,
            r.alive_count == 0,
    {
        let genetic_algorithm = GeneticAlgorithm::new(POPULATION_SIZE);
        let current_population = genetic_algorithm.create_initial_population(INPUT_SIZE, HIDDEN_SIZE, OUTPUT_SIZE, rng);
        AITraining {
            genetic_algorithm,
            current_population,
            training_active: false,
            elapsed_ticks: 0,
            max_generation_ticks: MAX_GENERATION_TICKS,
            alive_count: 0,
        }
    }
}

/// A dead agent with an empty network, held in a slot while the agent that
/// belongs there is updated.
fn placeholder_bird() -> AIBird {
    AIBird {
        brain: NeuralNetwork {
            weights_input_hidden: Vec::new(),
            weights_hidden_output: Vec::new(),
            bias_hidden: Vec::new(),
            bias_output: Vec::new(),
            input_size: 0,
            hidden_size: 0,
            output_size: 0,
        },
        fitness: 0,
        alive: false,
        score: 0,
        frames_alive: 0,
    }
}

/// Starts a generation: one living agent per network of the population, in
/// its order, and a fresh time budget. A run already under way is left alone.
pub fn spawn_ai_population(training: &mut AITraining, birds: &mut Vec<AIBird>)
    ensures
        old(training).training_active ==> *final(training) == *old(training) && *final(birds) == *old(birds),
        !old(training).training_active ==> {
            &&& final(training).training_active
            &&& final(training).alive_count == old(training).current_population@.len()
            &&& final(training).elapsed_ticks == 0
            &&& final(training).genetic_algorithm == old(training).genetic_algorithm
            &&& final(training).current_population == old(training).current_population
            &&& final(training).max_generation_ticks == old(training).max_generation_ticks
            &&& final(birds)@.len() == old(training).current_population@.len()
            &&& forall|i: int| 0 <= i < final(birds)@.len() ==> (#[trigger] final(birds)@[i])@ == (AgentView {
                brain: old(training).current_population@[i]@,
                fitness: 0,
                alive: true,
                score: 0,
                frames_alive: 0,
            })
        },
{
    if training.training_active {
        return;
    }
    training.training_active = true;
    training.alive_count = training.current_population.len();
    training.elapsed_ticks = 0;
    let mut spawned: Vec<AIBird> = Vec::new();
    let mut i: usize = 0;
    while i < training.current_population.len()
        invariant
            i <= training.current_population@.len(),
            spawned@.len() == i,
            forall|k: int| 0 <= k < i ==> (#[trigger] spawned@[k])@ == (AgentView {
                brain: training.current_population@[k]@,
                fitness: 0,
                alive: true,
                score: 0,
                frames_alive: 0,
            }),
        decreases training.current_population@.len() - i,
    {
        let brain = training.current_population[i].clone();
        spawned.push(AIBird::new(brain));
        i = i + 1;
    }
    *birds = spawned;
}

/// One tick of decisions: each living agent counts the tick and decides on its
/// observation; a dead agent decides nothing.
pub fn ai_bird_thinking(birds: &mut Vec<AIBird>, observations: &Vec<Vec<i64>>) -> (r: Vec<bool>)
    requires
        observations@.len() == old(birds)@.len(),
        forall|i: int| 0 <= i < old(birds)@.len() ==> {
            &&& (#[trigger] old(birds)@[i]).brain.wf()
            &&& observations@[i]@.len() == old(birds)@[i].brain.input_size
            &&& within(observations@[i]@, INPUT_LIMIT as int)
        },
    ensures
        final(birds)@.len() == old(birds)@.len(),
        r@.len() == old(birds)@.len(),
        forall|i: int| 0 <= i < r@.len() ==> #[trigger] r@[i] == decision(old(birds)@[i]@, observations@[i]@),
        forall|i: int| 0 <= i < r@.len() ==> (#[trigger] final(birds)@[i])@ == ticked(old(birds)@[i]@),
{
    let n = birds.len();
    let mut decisions: Vec<bool> = Vec::new();
    let mut slot = placeholder_bird();
    let mut i: usize = 0;
    while i < n
        invariant
            n == birds@.len(),
            n == old(birds)@.len(),
            observations@.len() == n,
            i <= n,
            decisions@.len() == i,
            forall|k: int| 0 <= k < n ==> {
                &&& (#[trigger] old(birds)@[k]).brain.wf()
                &&& observations@[k]@.len() == old(birds)@[k].brain.input_size
                &&& within(observations@[k]@, INPUT_LIMIT as int)
            },
            forall|k: int| 0 <= k < i ==> #[trigger] decisions@[k] == decision(old(birds)@[k]@, observations@[k]@),
            forall|k: int| 0 <= k < i ==> (#[trigger] birds@[k])@ == ticked(old(birds)@[k]@),
            forall|k: int| i <= k < n ==> #[trigger] birds@[k] == old(birds)@[k],
        decreases n - i,
    {
        birds.set_and_swap(i, &mut slot);
        let d = slot.think(observations[i].as_slice());
        slot.update_frames();
        decisions.push(d);
        birds.set_and_swap(i, &mut slot);
        i = i + 1;
    }
    decisions
}

/// Ends the episode of each living agent that the environment reports as
/// crashed, then counts the agents still alive.
pub fn ai_bird_collision(training: &mut AITraining, birds: &mut Vec<AIBird>, crashed: &Vec<bool>)
    requires
        crashed@.len() == old(birds)@.len(),
    ensures
        final(birds)@.len() == old(birds)@.len(),
        forall|i: int| 0 <= i < old(birds)@.len() ==> (#[trigger] final(birds)@[i])@ == if crashed@[i] {
            die_spec(old(birds)@[i]@)
        } else {
            old(birds)@[i]@
        },
        final(training).alive_count == count_alive(agents(final(birds)@)),
        *final(training) == (AITraining { alive_count: final(training).alive_count, ..*old(training) }),
{
    let n = birds.len();
    let mut slot = placeholder_bird();
    let mut alive: usize = 0;
    let mut i: usize = 0;
    while i < n
        invariant
            n == birds@.len(),
            n == old(birds)@.len(),
            crashed@.len() == n,
            i <= n,
            forall|k: int| 0 <= k < i ==> (#[trigger] birds@[k])@ == if crashed@[k] {
                die_spec(old(birds)@[k]@)
            } else {
                old(birds)@[k]@
            },
            forall|k: int| i <= k < n ==> #[trigger] birds@[k] == old(birds)@[k],
            alive == count_alive(agents(birds@).take(i as int)),
            alive <= i,
        decreases n - i,
    {
        let ghost before = birds@;
        birds.set_and_swap(i, &mut slot);
        if crashed[i] {
            slot.die();
        }
        let now_alive = slot.alive;
        birds.set_and_swap(i, &mut slot);
        proof {
            assert(agents(birds@).take(i + 1).drop_last() =~= agents(birds@).take(i as int));
            assert(agents(birds@).take(i as int) =~= agents(before).take(i as int));
            assert(agents(birds@).take(i + 1).last() == birds@[i as int]@);
        }
        if now_alive {
            alive = alive + 1;
        }
        i = i + 1;
    }
    assert(agents(birds@).take(n as int) =~= agents(birds@));
    training.alive_count = alive;
}

/// Gives each living agent that passed an obstacle this tick one more point;
/// the count stops at `u32::MAX`.
pub fn ai_bird_scoring(birds: &mut Vec<AIBird>, passed: &Vec<bool>)
    requires
        passed@.len() == old(birds)@.len(),
    ensures
        final(birds)@.len() == old(birds)@.len(),
        forall|i: int| 0 <= i < old(birds)@.len() ==> (#[trigger] final(birds)@[i])@ == scored(old(birds)@[i]@, passed@[i]),
{
    let n = birds.len();
    let mut slot = placeholder_bird();
    let mut i: usize = 0;
    while i < n
        invariant
            n == birds@.len(),
            n == old(birds)@.len(),
            passed@.len() == n,
            i <= n,
            forall|k: int| 0 <= k < i ==> (#[trigger] birds@[k])@ == scored(old(birds)@[k]@, passed@[k]),
            forall|k: int| i <= k < n ==> #[trigger] birds@[k] == old(birds)@[k],
        decreases n - i,
    {
        birds.set_and_swap(i, &mut slot);
        if slot.alive && passed[i] && slot.score < u32::MAX {
            slot.score = slot.score + 1;
        }
        birds.set_and_swap(i, &mut slot);
        i = i + 1;
    }
}

/// Whether a generation is over after `elapsed` ticks: every agent is dead, or
/// the budget is spent.
pub fn generation_over(birds: &Vec<AIBird>, elapsed: u64, budget: u64) -> (r: bool)
    ensures
        r == (all_dead(birds@) || elapsed >= budget),
{
    if elapsed >= budget {
        return true;
    }
    let mut i: usize = 0;
    while i < birds.len()
        invariant
            elapsed < budget,
            i <= birds@.len(),
            forall|k: int| 0 <= k < i ==> !(#[trigger] birds@[k]).alive,
        decreases birds@.len() - i,
    {
        if birds[i].alive {
            assert(birds@[i as int].alive);
            return false;
        }
        i = i + 1;
    }
    true
}

/// The end of a generation, from `t0` with agents `b0` to `t1` with agents
/// `b1` and statistics `s1`: each agent's fitness is finalized, the record
/// pairs the i-th network with the i-th fitness, the statistics summarize it,
/// the next population is evolved from it (its elites are the best networks of
/// the record, in ranking order), the agents are discarded and the run is idle.
pub open spec fn generation_finished(t0: AITraining, b0: Seq<AIBird>, t1: AITraining, s1: AIStats, b1: Seq<AIBird>) -> bool {
    let f = episode_fitnesses(b0);
    let n = b0.len();
    &&& s1.best_fitness == max_of(f)
    &&& s1.average_fitness == sum_of(f) / (n as int)
    &&& s1.best_score == max_of(scores(b0))
    &&& s1.generation == t0.genetic_algorithm.generation + 1
    &&& t1.genetic_algorithm == (GeneticAlgorithm {
        generation: (t0.genetic_algorithm.generation + 1) as u32,
        ..t0.genetic_algorithm
    })
    &&& t1.current_population@.len() == t0.genetic_algorithm.population_size
    &&& forall|k: int| 0 <= k < t0.genetic_algorithm.elite_count ==>
        (#[trigger] t1.current_population@[k])@ == t0.current_population@[ranking(f, n)[k] as int]@
    &&& !t1.training_active
    &&& t1.elapsed_ticks == 0
    &&& t1.max_generation_ticks == t0.max_generation_ticks
    &&& t1.alive_count == 0
    &&& b1.len() == 0
}

/// The end of a tick for the controller. While a generation runs, the tick is
/// counted; once every agent is dead or the budget is spent, the generation is
/// finished (see [`finish_generation`]). Returns whether a generation ended.
pub fn ai_generation_management(
    training: &mut AITraining,
    stats: &mut AIStats,
    birds: &mut Vec<AIBird>,
    rng: &mut StdRng,
) -> (r: bool)
    requires
        old(training).wf(),
        old(training).genetic_algorithm.generation < u32::MAX,
        old(training).training_active ==> old(birds)@.len() == old(training).current_population@.len(),
    ensures
        final(training).wf(),
        !old(training).training_active ==> !r && *final(training) == *old(training) && *final(stats) == *old(stats)
            && *final(birds) == *old(birds),
        old(training).training_active ==> {
            let elapsed = if old(training).elapsed_ticks < u64::MAX {
                (old(training).elapsed_ticks + 1) as u64
            } else {
                old(training).elapsed_ticks
            };
            &&& r == (all_dead(old(birds)@) || elapsed >= old(training).max_generation_ticks)
            &&& !r ==> *final(training) == (AITraining { elapsed_ticks: elapsed, ..*old(training) })
                && *final(stats) == *old(stats) && *final(birds) == *old(birds)
        },
        r ==> generation_finished(*old(training), old(birds)@, *final(training), *final(stats), final(birds)@),
{
    if !training.training_active {
        return false;
    }
    if training.elapsed_ticks < u64::MAX {
        training.elapsed_ticks = training.elapsed_ticks + 1;
    }
    if !generation_over(birds, training.elapsed_ticks, training.max_generation_ticks) {
        return false;
    }
    finish_generation(training, stats, birds, rng);
    true
}

/// Finishes the current generation at once: after its natural end, or when a
/// run is aborted part way, with the agents as they stand. Agents still alive
/// have their fitness finalized by the same formula as at death.
pub fn finish_generation(training: &mut AITraining, stats: &mut AIStats, birds: &mut Vec<AIBird>, rng: &mut StdRng)
    requires
        old(training).wf(),
        old(training).genetic_algorithm.generation < u32::MAX,
        old(birds)@.len() == old(training).current_population@.len(),
    ensures
        final(training).wf(),
        generation_finished(*old(training), old(birds)@, *final(training), *final(stats), final(birds)@),
{
    let n = birds.len();
    let ghost f = episode_fitnesses(old(birds)@);
    let mut record: Vec<(NeuralNetwork, u64)> = Vec::new();
    let mut best_score: u32 = 0;
    let mut slot = placeholder_bird();
    let mut i: usize = 0;
    while i < n
        invariant
            training.wf(),
            n == birds@.len(),
            n == old(birds)@.len(),
            n == training.current_population@.len(),
            f == episode_fitnesses(old(birds)@),
            i <= n,
            record@.len() == i,
            forall|k: int| 0 <= k < i ==> (#[trigger] record@[k]).0@ == training.current_population@[k]@
                && record@[k].1 == f[k],
            best_score == max_of(scores(old(birds)@).take(i as int)),
            forall|k: int| i <= k < n ==> #[trigger] birds@[k] == old(birds)@[k],
        decreases n - i,
    {
        birds.set_and_swap(i, &mut slot);
        slot.die();
        let fitness = slot.fitness;
        let score = slot.score;
        birds.set_and_swap(i, &mut slot);
        proof {
            assert(scores(old(birds)@).take(i + 1).drop_last() =~= scores(old(birds)@).take(i as int));
        }
        if i == 0 || score > best_score {
            best_score = score;
        }
        record.push((training.current_population[i].clone(), fitness));
        i = i + 1;
    }
    proof {
        assert(scores(old(birds)@).take(n as int) =~= scores(old(birds)@));
        assert(record@.len() > 0);
        assert forall|k: int| 0 <= k < record@.len() implies (#[trigger] record@[k]).0.wf()
            && record@[k].0@.same_topology(record@[0].0@) by {
            assert(training.current_population@[k].wf());
        }
        assert(crate::genetic::fitnesses(record@) =~= f);
    }
    let ga = &training.genetic_algorithm;
    stats.best_fitness = ga.get_best_fitness(record.as_slice());
    stats.average_fitness = ga.get_average_fitness(record.as_slice());
    stats.best_score = best_score;
    stats.generation = training.genetic_algorithm.generation + 1;
    let ghost old_population = training.current_population@;
    let next = training.genetic_algorithm.evolve(record.as_slice(), rng);
    proof {
        crate::genetic::lemma_ranking_is_stable_descending(f, n as nat);
        assert forall|k: int| 0 <= k < training.genetic_algorithm.elite_count implies (#[trigger] next@[k])@
            == old_population[ranking(f, n as nat)[k] as int]@ by {
            let j = ranking(f, n as nat)[k] as int;
            assert(record@[j].0@ == old_population[j]@);
        }
    }
    training.current_population = next;
    *birds = Vec::new();
    training.training_active = false;
    training.elapsed_ticks = 0;
    training.alive_count = 0;
}

} // verus!
