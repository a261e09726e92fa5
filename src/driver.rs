//! The generational loop and the selection of the mined rules.
use crate::chromosome::{corrected, lemma_corrected_in_range, Chromosome};
use crate::fitness::{fitness_spec, DatasetStats, Fitness};
use crate::population::{
    all_in_range, all_wf, correct_all, crossover, dedup, elitism, fill_unique, is_child_pair,
    is_mutant, is_ranking, mean_spec, mutation, rank, GenerationMean, Ranked, IN_RANGE_COUNT,
};
use vstd::prelude::*;

verus! {

/// The fixed parameters of a run.
#[derive(Clone, Copy, PartialEq, Eq, Structural, Debug)]
pub struct GaConfig {
    /// Target number of members; a multiple of 4.
    pub population_size: usize,
    /// Number of generations.
    pub generations: usize,
    /// Chance, in percent, that a crossover child has one bit inverted.
    pub mutation_percent: usize,
    /// How many times a colliding random candidate is drawn again.
    pub redraws: u32,
    /// How many rules the run reports.
    pub top_k: usize,
}

impl GaConfig {
    pub open spec fn wf(self) -> bool {
        &&& 4 <= self.population_size <= IN_RANGE_COUNT
        &&& self.population_size % 4 == 0
        &&& self.mutation_percent <= 100
    }

    /// Population of 20, 100 generations, 5% mutation, the 10 best rules.
    pub fn standard() -> (r: GaConfig)
        ensures
            r.wf(),
            r.population_size == 20,
            r.generations == 100,
            r.mutation_percent == 5,
            r.top_k == 10,
    {
        GaConfig { population_size: 20, generations: 100, mutation_percent: 5, redraws: 64, top_k: 10 }
    }
}

/// A mined rule and its fitness.
#[derive(Clone, Copy, PartialEq, Eq, Structural, Debug)]
pub struct MinedRule {
    pub chromosome: Chromosome,
    pub fitness: Fitness,
}

/// What a run hands back: one mean per generation and the best rules.
pub struct RunResult {
    pub summary: Vec<GenerationMean>,
    pub rules: Vec<MinedRule>,
}

/// A valid population for a run: `size` distinct well-formed members, every
/// field within its domain.
pub open spec fn valid_population(pop: Seq<Chromosome>, size: usize) -> bool {
    pop.no_duplicates() && all_wf(pop) && all_in_range(pop) && pop.len() == size
}

/// The members that elitism keeps: the first `keep` entries of the ranking `ord`.
pub open spec fn survivors_of(pop: Seq<Chromosome>, ord: Seq<Ranked>, keep: usize) -> Seq<Chromosome> {
    Seq::new(keep as nat, |k: int| pop[ord[k].index as int])
}

/// `kids` are `pairs` pairs of mutated crossover children of `pop`.
pub open spec fn is_offspring(pop: Seq<Chromosome>, kids: Seq<Chromosome>, pairs: usize, percent: usize) -> bool {
    &&& kids.len() == 2 * pairs
    &&& forall|k: int|
        0 <= k < pairs ==> #[trigger] is_mutant_pair(pop, kids[2 * k], kids[2 * k + 1], percent)
}

/// `a` and `b` are the two children of a crossover of members of `pop`, each
/// after mutation.
pub open spec fn is_mutant_pair(pop: Seq<Chromosome>, a: Chromosome, b: Chromosome, percent: usize) -> bool {
    exists|x: Chromosome, y: Chromosome|
        #[trigger] is_child_pair(pop, x, y) && is_mutant(x, a, percent) && is_mutant(y, b, percent)
}

/// The members of `prefix` are exactly the range-corrected candidates.
pub open spec fn covers_corrected(prefix: Seq<Chromosome>, cands: Seq<Chromosome>) -> bool {
    forall|c: Chromosome|
        #[trigger] prefix.contains(c) <==> exists|j: int|
            0 <= j < cands.len() && c == corrected(#[trigger] cands[j])
}

/// `next` can follow `pop`: for the ranking `ord` of `pop` and mutated
/// crossover children `kids`, its first `m` members are, without duplicates,
/// the range-corrected survivors and children; the rest were added by the
/// duplicate-free fill. Every survivor is kept.
pub open spec fn is_next_generation(
    stats: DatasetStats,
    config: GaConfig,
    pop: Seq<Chromosome>,
    next: Seq<Chromosome>,
) -> bool {
    exists|ord: Seq<Ranked>, kids: Seq<Chromosome>, m: int|
        is_ranking(stats, pop, ord) && is_offspring(
            pop,
            kids,
            config.population_size / 4,
            config.mutation_percent,
        ) && 0 <= m <= next.len() && #[trigger] covers_corrected(
            next.take(m),
            survivors_of(pop, ord, config.population_size / 2).add(kids),
        ) && forall|k: int| 0 <= k < config.population_size / 2 ==> next.contains(#[trigger] pop[ord[k].index as int])
}

/// The initial population: a duplicate-free fill of range-corrected random
/// chromosomes to the target size.
pub fn initial_population(config: &GaConfig, rng: &mut rand::rngs::ThreadRng) -> (r: Vec<
    Chromosome,
>)
    requires
        config.wf(),
    ensures
        valid_population(r@, config.population_size),
{
    let mut pop: Vec<Chromosome> = Vec::new();
    fill_unique(&mut pop, config.population_size, config.redraws, rng);
    pop
}

proof fn lemma_cover(
    cands: Seq<Chromosome>,
    u0: Seq<Chromosome>,
    u1: Seq<Chromosome>,
    n0: Seq<Chromosome>,
)
    requires
        forall|c: Chromosome| u0.contains(c) <==> cands.contains(c),
        u1.len() == u0.len(),
        forall|i: int| 0 <= i < u1.len() ==> #[trigger] u1[i] == corrected(u0[i]),
        forall|c: Chromosome| n0.contains(c) <==> u1.contains(c),
    ensures
        covers_corrected(n0, cands),
{
    assert forall|c: Chromosome| #[trigger] n0.contains(c) <==> exists|j: int|
        0 <= j < cands.len() && c == corrected(#[trigger] cands[j]) by {
        if n0.contains(c) {
            assert(u1.contains(c));
            let i = choose|i: int| 0 <= i < u1.len() && #[trigger] u1[i] == c;
            assert(u0.contains(u0[i]));
            assert(cands.contains(u0[i]));
            let j = choose|j: int| 0 <= j < cands.len() && #[trigger] cands[j] == u0[i];
            assert(c == corrected(cands[j]));
        }
        if exists|j: int| 0 <= j < cands.len() && c == corrected(#[trigger] cands[j]) {
            let j = choose|j: int| 0 <= j < cands.len() && c == corrected(#[trigger] cands[j]);
            assert(cands.contains(cands[j]));
            assert(u0.contains(cands[j]));
            let i = choose|i: int| 0 <= i < u0.len() && #[trigger] u0[i] == cands[j];
            assert(u1[i] == c);
            assert(u1.contains(c));
        }
    }
}

/// One generation: records the mean fitness of `pop`, keeps its best half,
/// adds the mutated children of `population_size / 4` crossovers of `pop`,
/// removes duplicates, range-corrects, removes the duplicates that correction
/// made, and tops the population up with a duplicate-free random fill.
#[verifier::rlimit(40)]
pub fn generation_step(
    pop: &Vec<Chromosome>,
    stats: &DatasetStats,
    config: &GaConfig,
    summary: &mut Vec<GenerationMean>,
    rng: &mut rand::rngs::ThreadRng,
) -> (r: Vec<Chromosome>)
    requires
        stats.wf(),
        config.wf(),
        valid_population(pop@, config.population_size),
    ensures
        final(summary)@ == old(summary)@.push(mean_spec(*stats, pop@)),
        valid_population(r@, config.population_size),
        is_next_generation(*stats, *config, pop@, r@),
{
    let survivors = elitism(pop, stats, config.population_size, summary);
    let ghost ord = choose|ord: Seq<Ranked>|
        is_ranking(*stats, pop@, ord) && forall|k: int|
            0 <= k < survivors@.len() ==> #[trigger] survivors@[k] == pop@[ord[k].index as int];
    let ghost sv = survivors@;
    assert(sv =~= survivors_of(pop@, ord, config.population_size / 2));
    let mut children = crossover(pop, config.population_size / 4, rng);
    let ghost ch = children@;
    mutation(&mut children, config.mutation_percent, rng);
    let ghost kids = children@;
    assert(is_offspring(pop@, kids, config.population_size / 4, config.mutation_percent)) by {
        assert forall|k: int| 0 <= k < config.population_size / 4 implies #[trigger] is_mutant_pair(
            pop@,
            kids[2 * k],
            kids[2 * k + 1],
            config.mutation_percent,
        ) by {
            assert(is_child_pair(pop@, ch[2 * k], ch[2 * k + 1]));
            assert(is_mutant(ch[2 * k], kids[2 * k], config.mutation_percent));
            assert(is_mutant(ch[2 * k + 1], kids[2 * k + 1], config.mutation_percent));
        }
    }
    assert forall|i: int| 0 <= i < sv.len() implies #[trigger] sv[i].wf() && sv[i].in_range() by {
        assert(sv[i] == pop@[ord[i].index as int]);
    }
    let mut merged = survivors;
    let mut k: usize = 0;
    while k < children.len()
        invariant
            all_wf(sv),
            all_wf(children@),
            children@ == kids,
            merged@ == sv + kids.take(k as int),
            k <= kids.len(),
        decreases kids.len() - k,
    {
        merged.push(children[k]);
        k = k + 1;
        assert(merged@ =~= sv + kids.take(k as int));
    }
    assert(kids.take(k as int) =~= kids);
    let ghost cands = merged@;
    assert(cands =~= survivors_of(pop@, ord, config.population_size / 2).add(kids));
    assert forall|i: int| 0 <= i < cands.len() implies #[trigger] cands[i].wf() by {
        if i < sv.len() {
            assert(cands[i] == sv[i]);
        } else {
            assert(cands[i] == kids[i - sv.len()]);
        }
    }
    let mut unique = dedup(&merged);
    assert forall|i: int| 0 <= i < unique@.len() implies #[trigger] unique@[i].wf() by {
        assert(unique@.contains(unique@[i]));
    }
    let ghost u0 = unique@;
    correct_all(&mut unique);
    let ghost u1 = unique@;
    let mut next = dedup(&unique);
    assert forall|i: int| 0 <= i < next@.len() implies (#[trigger] next@[i]).wf() && next@[i].in_range() by {
        assert(next@.contains(next@[i]));
        let j = choose|j: int| 0 <= j < u1.len() && #[trigger] u1[j] == next@[i];
        assert(u1[j].in_range());
    }
    assert(all_in_range(next@));
    let ghost n0 = next@;
    let ghost m = n0.len() as int;
    fill_unique(&mut next, config.population_size, config.redraws, rng);
    assert(next@.take(m) == n0);
    proof {
        lemma_cover(cands, u0, u1, n0);
    }
    assert forall|q: int| 0 <= q < config.population_size / 2 implies next@.contains(
        #[trigger] pop@[ord[q].index as int],
    ) by {
        let c = pop@[ord[q].index as int];
        assert(cands[q] == c);
        lemma_corrected_in_range(c);
        assert(next@.take(m).contains(c));
        let i = choose|i: int| 0 <= i < m && #[trigger] next@.take(m)[i] == c;
        assert(next@[i] == c);
    }
    assert(covers_corrected(next@.take(m), survivors_of(pop@, ord, config.population_size / 2).add(kids)));
    next
}

/// The `k` best rules of a ranking, best first: pure truncation.
pub fn select_top(pop: &Vec<Chromosome>, ord: &Vec<Ranked>, k: usize) -> (r: Vec<MinedRule>)
    requires
        forall|i: int| 0 <= i < ord@.len() ==> (#[trigger] ord@[i]).index < pop@.len(),
    ensures
        r@.len() == if k < ord@.len() {
            k as nat
        } else {
            ord@.len()
        },
        forall|i: int|
            0 <= i < r@.len() ==> (#[trigger] r@[i]).chromosome == pop@[ord@[i].index as int]
                && r@[i].fitness == ord@[i].fitness,
{
    let n = if k < ord.len() {
        k
    } else {
        ord.len()
    };
    let mut r: Vec<MinedRule> = Vec::new();
    let mut i: usize = 0;
    while i < n
        invariant
            n <= ord@.len(),
            i <= n,
            forall|q: int| 0 <= q < ord@.len() ==> (#[trigger] ord@[q]).index < pop@.len(),
            r@.len() == i,
            forall|q: int|
                0 <= q < i ==> (#[trigger] r@[q]).chromosome == pop@[ord@[q].index as int]
                    && r@[q].fitness == ord@[q].fitness,
        decreases n - i,
    {
        let item = ord[i];
        r.push(MinedRule { chromosome: pop[item.index], fitness: item.fitness });
        i = i + 1;
    }
    r
}

/// `pops` is the history of a run: valid populations, each one following the
/// one before, with `summary[g]` the mean fitness of population `g`.
pub open spec fn is_run_history(
    stats: DatasetStats,
    config: GaConfig,
    pops: Seq<Seq<Chromosome>>,
    summary: Seq<GenerationMean>,
) -> bool {
    &&& pops.len() == summary.len() + 1
    &&& forall|g: int| 0 <= g < pops.len() ==> valid_population(#[trigger] pops[g], config.population_size)
    &&& forall|g: int|
        0 <= g < summary.len() ==> #[trigger] summary[g] == mean_spec(stats, pops[g])
            && is_next_generation(stats, config, pops[g], pops[g + 1])
}

/// A whole run: the initial population, `generations` generation steps, then
/// the final population without duplicates, ranked, and its `top_k` best rules.
pub fn run(stats: &DatasetStats, config: &GaConfig, rng: &mut rand::rngs::ThreadRng) -> (r:
    RunResult)
    requires
        stats.wf(),
        config.wf(),
    ensures
        r.summary@.len() == config.generations,
        r.rules@.len() == if config.top_k < config.population_size {
            config.top_k
        } else {
            config.population_size
        },
        exists|pops: Seq<Seq<Chromosome>>, ord: Seq<Ranked>|
            #[trigger] is_run_history(*stats, *config, pops, r.summary@) && #[trigger] is_ranking(
                *stats,
                pops.last(),
                ord,
            ) && forall|i: int|
                0 <= i < r.rules@.len() ==> (#[trigger] r.rules@[i]).chromosome == pops.last()[ord[i].index as int]
                    && r.rules@[i].fitness == ord[i].fitness,
        forall|i: int, j: int|
            0 <= i < j < r.rules@.len() ==> (#[trigger] r.rules@[i]).fitness.num
                >= (#[trigger] r.rules@[j]).fitness.num,
        forall|i: int|
            0 <= i < r.rules@.len() ==> (#[trigger] r.rules@[i]).fitness.den == stats.common_den()
                && (r.rules@[i].fitness.num as int, r.rules@[i].fitness.den as int) == fitness_spec(
                *stats,
                r.rules@[i].chromosome,
            ),
{
    let mut pop = initial_population(config, rng);
    let mut summary: Vec<GenerationMean> = Vec::new();
    let ghost mut pops: Seq<Seq<Chromosome>> = seq![pop@];
    let mut g: usize = 0;
    while g < config.generations
        invariant
            stats.wf(),
            config.wf(),
            valid_population(pop@, config.population_size),
            summary@.len() == g,
            g <= config.generations,
            is_run_history(*stats, *config, pops, summary@),
            pops.last() == pop@,
        decreases config.generations - g,
    {
        let ghost old_pops = pops;
        let ghost old_summary = summary@;
        let next = generation_step(&pop, stats, config, &mut summary, rng);
        proof {
            pops = pops.push(next@);
            assert forall|q: int| 0 <= q < summary@.len() implies #[trigger] summary@[q] == mean_spec(
                *stats,
                pops[q],
            ) && is_next_generation(*stats, *config, pops[q], pops[q + 1]) by {
                if q < old_summary.len() {
                    assert(summary@[q] == old_summary[q]);
                    assert(pops[q] == old_pops[q] && pops[q + 1] == old_pops[q + 1]);
                } else {
                    assert(pops[q] == pop@ && pops[q + 1] == next@);
                }
            }
            assert forall|q: int| 0 <= q < pops.len() implies valid_population(
                #[trigger] pops[q],
                config.population_size,
            ) by {
                if q < old_pops.len() {
                    assert(pops[q] == old_pops[q]);
                }
            }
        }
        pop = next;
        g = g + 1;
    }
    let unique = dedup(&pop);
    let ord = rank(&unique, stats);
    let rules = select_top(&unique, &ord, config.top_k);
    assert(is_run_history(*stats, *config, pops, summary@));
    assert(is_ranking(*stats, pops.last(), ord@));
    RunResult { summary, rules }
}

} // verus!
