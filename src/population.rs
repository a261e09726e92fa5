//! Operators on a population: ranking, elitism, crossover, mutation, range
//! correction, deduplication and duplicate-free random fill.
use crate::chromosome::{
    compose, compose_bits, correct, corrected, lemma_corrected_in_range, decode, field_max, lemma_compose_decode, flip_bit, flipped_bits, lemma_flip_bit, splice_bits, swap_suffix, wrap_value, Chromosome, Field,
    CHROMOSOME_BITS,
};
use crate::fitness::{
    class_numerator, class_score, fitness, fitness_spec, DatasetStats, Fitness, SCORE_LIMIT,
    U32_LIMIT,
};
use crate::random::{random_bool, random_in};
use vstd::prelude::*;

verus! {

/// A population member's index paired with its fitness.
#[derive(Clone, Copy, PartialEq, Eq, Structural, Debug)]
pub struct Ranked {
    pub index: usize,
    pub fitness: Fitness,
}

/// `x` comes before `y` in a ranking: higher fitness first, ties by index.
pub open spec fn precedes(x: Ranked, y: Ranked) -> bool {
    x.fitness.num > y.fitness.num || (x.fitness.num == y.fitness.num && x.index < y.index)
}

/// Every member is well formed.
pub open spec fn all_wf(pop: Seq<Chromosome>) -> bool {
    forall|i: int| 0 <= i < pop.len() ==> #[trigger] pop[i].wf()
}

/// `ord` lists every index of `pop` once, with its fitness, from best to worst.
pub open spec fn is_ranking(stats: DatasetStats, pop: Seq<Chromosome>, ord: Seq<Ranked>) -> bool {
    &&& ord.len() == pop.len()
    &&& forall|k: int|
        0 <= k < ord.len() ==> {
            &&& (#[trigger] ord[k]).index < pop.len()
            &&& (ord[k].fitness.num as int, ord[k].fitness.den as int) == fitness_spec(
                stats,
                pop[ord[k].index as int],
            )
        }
    &&& forall|k: int, l: int| 0 <= k < l < ord.len() ==> precedes(#[trigger] ord[k], #[trigger] ord[l])
}

/// Ranks a population by fitness, best first; equal fitness keeps the order
/// of the population.
pub fn rank(pop: &Vec<Chromosome>, stats: &DatasetStats) -> (r: Vec<Ranked>)
    requires
        stats.wf(),
    ensures
        is_ranking(*stats, pop@, r@),
        forall|k: int| 0 <= k < r@.len() ==> (#[trigger] r@[k]).fitness.den == stats.common_den(),
{
    let mut ord: Vec<Ranked> = Vec::new();
    let mut i: usize = 0;
    while i < pop.len()
        invariant
            stats.wf(),
            i <= pop@.len(),
            ord@.len() == i,
            forall|k: int|
                0 <= k < ord@.len() ==> {
                    &&& (#[trigger] ord@[k]).index < i
                    &&& (ord@[k].fitness.num as int, ord@[k].fitness.den as int) == fitness_spec(
                        *stats,
                        pop@[ord@[k].index as int],
                    )
                    &&& ord@[k].fitness.den == stats.common_den()
                },
            forall|k: int, l: int|
                0 <= k < l < ord@.len() ==> precedes(#[trigger] ord@[k], #[trigger] ord@[l]),
        decreases pop@.len() - i,
    {
        let f = fitness(pop[i], stats);
        let item = Ranked { index: i, fitness: f };
        let mut pos: usize = 0;
        while pos < ord.len() && ord[pos].fitness.num >= f.num
            invariant
                pos <= ord@.len(),
                forall|k: int| 0 <= k < pos ==> (#[trigger] ord@[k]).fitness.num >= f.num,
            decreases ord@.len() - pos,
        {
            pos = pos + 1;
        }
        let ghost before = ord@;
        ord.insert(pos, item);
        assert forall|k: int, l: int| 0 <= k < l < ord@.len() implies precedes(
            #[trigger] ord@[k],
            #[trigger] ord@[l],
        ) by {
            if l < pos {
                assert(precedes(before[k], before[l]));
            } else if l == pos {
                assert(before[k].fitness.num >= f.num);
            } else if k < pos {
                assert(precedes(before[k], before[l - 1]));
            } else if k == pos {
                assert(before[pos as int].fitness.num < f.num);
                if (l - 1) as int > pos as int {
                    assert(precedes(before[pos as int], before[l - 1]));
                }
            } else {
                assert(precedes(before[k - 1], before[l - 1]));
            }
        }
        i = i + 1;
    }
    ord
}

/// Sum of the class scores of the members that predict outcome `o`.
pub open spec fn class_sum(stats: DatasetStats, pop: Seq<Chromosome>, o: u16) -> int
    decreases pop.len(),
{
    if pop.len() == 0 {
        0
    } else {
        class_sum(stats, pop.drop_last(), o) + if pop.last().field(Field::Outcome) == o {
            class_numerator(stats, pop.last())
        } else {
            0
        }
    }
}

/// The mean fitness of one generation, exactly:
/// `(sum0 / class_den(0) + sum1 / class_den(1)) / members`.
#[derive(Clone, Copy, PartialEq, Eq, Structural, Debug)]
pub struct GenerationMean {
    pub sum0: i128,
    pub sum1: i128,
    pub members: u64,
}

/// The mean fitness of a population.
pub open spec fn mean_spec(stats: DatasetStats, pop: Seq<Chromosome>) -> GenerationMean {
    GenerationMean {
        sum0: class_sum(stats, pop, 0) as i128,
        sum1: class_sum(stats, pop, 1) as i128,
        members: pop.len() as u64,
    }
}

/// Computes the mean fitness of a population.
pub fn generation_mean(pop: &Vec<Chromosome>, stats: &DatasetStats) -> (r: GenerationMean)
    requires
        stats.wf(),
        pop@.len() <= U32_LIMIT,
    ensures
        r.sum0 == class_sum(*stats, pop@, 0),
        r.sum1 == class_sum(*stats, pop@, 1),
        r.members == pop@.len(),
        r == mean_spec(*stats, pop@),
{
    let mut sum0: i128 = 0;
    let mut sum1: i128 = 0;
    let mut i: usize = 0;
    while i < pop.len()
        invariant
            stats.wf(),
            i <= pop@.len() <= U32_LIMIT,
            sum0 == class_sum(*stats, pop@.take(i as int), 0),
            sum1 == class_sum(*stats, pop@.take(i as int), 1),
            -(SCORE_LIMIT * i) <= sum0 <= SCORE_LIMIT * i,
            -(SCORE_LIMIT * i) <= sum1 <= SCORE_LIMIT * i,
        decreases pop@.len() - i,
    {
        let c = pop[i];
        assert(pop@.take(i + 1).drop_last() =~= pop@.take(i as int));
        let score = class_score(c, stats);
        proof {
            assert(SCORE_LIMIT * (i + 1) <= 0x1_0000_0000_0000_0000_0000_0000
                && SCORE_LIMIT * (i + 1) == SCORE_LIMIT * i + SCORE_LIMIT) by (nonlinear_arith)
                requires
                    0 <= i,
                    i + 1 <= U32_LIMIT,
            ;
            assert(-(SCORE_LIMIT * (i + 1)) <= sum0 + score <= SCORE_LIMIT * (i + 1));
            assert(-(SCORE_LIMIT * (i + 1)) <= sum1 + score <= SCORE_LIMIT * (i + 1));
        }
        if decode(c, Field::Outcome) == 0 {
            sum0 = sum0 + score;
        } else {
            sum1 = sum1 + score;
        }
        i = i + 1;
    }
    assert(pop@.take(i as int) =~= pop@);
    GenerationMean { sum0, sum1, members: pop.len() as u64 }
}

/// Elitism: records the mean fitness of the whole population in `summary`
/// and keeps the best `population_size / 2` members, best first.
pub fn elitism(
    pop: &Vec<Chromosome>,
    stats: &DatasetStats,
    population_size: usize,
    summary: &mut Vec<GenerationMean>,
) -> (r: Vec<Chromosome>)
    requires
        stats.wf(),
        pop@.len() <= U32_LIMIT,
        pop@.len() >= population_size / 2,
    ensures
        final(summary)@ == old(summary)@.push(mean_spec(*stats, pop@)),
        r@.len() == population_size / 2,
        exists|ord: Seq<Ranked>|
            is_ranking(*stats, pop@, ord) && forall|k: int|
                0 <= k < r@.len() ==> #[trigger] r@[k] == pop@[ord[k].index as int],
{
    let mean = generation_mean(pop, stats);
    summary.push(mean);
    let ord = rank(pop, stats);
    let keep = population_size / 2;
    let mut r: Vec<Chromosome> = Vec::new();
    let mut k: usize = 0;
    while k < keep
        invariant
            keep == population_size / 2,
            keep <= pop@.len(),
            k <= keep,
            is_ranking(*stats, pop@, ord@),
            r@.len() == k,
            forall|j: int| 0 <= j < k ==> #[trigger] r@[j] == pop@[ord@[j].index as int],
        decreases keep - k,
    {
        let idx = ord[k].index;
        r.push(pop[idx]);
        k = k + 1;
    }
    r
}

/// `x` and `y` are the two children of a crossover of two members of `pop`
/// at an offset in `1..14`.
pub open spec fn is_child_pair(pop: Seq<Chromosome>, x: Chromosome, y: Chromosome) -> bool {
    exists|i: int, j: int, off: u16|
        0 <= i < pop.len() && 0 <= j < pop.len() && 1 <= off < CHROMOSOME_BITS && x.bits
            == #[trigger] splice_bits(pop[i].bits, pop[j].bits, off) && y.bits == splice_bits(
            pop[j].bits,
            pop[i].bits,
            off,
        )
}

/// Crossover: `pairs` times, picks two members of `pop` uniformly with
/// replacement and an offset uniformly in `1..14`, and adds the two children
/// that swap the parents' bits from the offset on.
pub fn crossover(pop: &Vec<Chromosome>, pairs: usize, rng: &mut rand::rngs::ThreadRng) -> (r: Vec<
    Chromosome,
>)
    requires
        pop@.len() > 0,
        all_wf(pop@),
        pairs <= usize::MAX / 2,
    ensures
        r@.len() == 2 * pairs,
        all_wf(r@),
        forall|k: int| 0 <= k < pairs ==> is_child_pair(pop@, #[trigger] r@[2 * k], r@[2 * k + 1]),
{
    let mut r: Vec<Chromosome> = Vec::new();
    let mut k: usize = 0;
    while k < pairs
        invariant
            pop@.len() > 0,
            all_wf(pop@),
            k <= pairs <= usize::MAX / 2,
            r@.len() == 2 * k,
            all_wf(r@),
            forall|q: int| 0 <= q < k ==> is_child_pair(pop@, #[trigger] r@[2 * q], r@[2 * q + 1]),
        decreases pairs - k,
    {
        let i = random_in(rng, 0, pop.len());
        let j = random_in(rng, 0, pop.len());
        let off = random_in(rng, 1, 14) as u16;
        let children = swap_suffix(pop[i], pop[j], off);
        let ghost before = r@;
        r.push(children.0);
        r.push(children.1);
        assert(pop@[i as int] == pop[i as int] && pop@[j as int] == pop[j as int]);
        assert(is_child_pair(pop@, children.0, children.1)) by {
            assert(children.0.bits == splice_bits(pop@[i as int].bits, pop@[j as int].bits, off));
        }
        assert forall|q: int| 0 <= q < k + 1 implies is_child_pair(
            pop@,
            #[trigger] r@[2 * q],
            r@[2 * q + 1],
        ) by {
            if q < k {
                assert(r@[2 * q] == before[2 * q] && r@[2 * q + 1] == before[2 * q + 1]);
            } else {
                assert(r@[2 * q] == children.0 && r@[2 * q + 1] == children.1);
            }
        }
        k = k + 1;
    }
    r
}

/// One member after mutation: with `roll` drawn uniformly from `0..100`, bit
/// `pos` is inverted when `roll < percent`; otherwise the member is unchanged.
pub open spec fn mutated(c: Chromosome, roll: usize, pos: u16, percent: usize) -> Chromosome {
    if roll < percent {
        Chromosome { bits: flipped_bits(c.bits, pos) }
    } else {
        c
    }
}

/// Mutates one member with the given draws.
pub fn mutate_member(c: Chromosome, roll: usize, pos: u16, percent: usize) -> (r: Chromosome)
    requires
        c.wf(),
        pos < CHROMOSOME_BITS,
    ensures
        r.wf(),
        r == mutated(c, roll, pos, percent),
{
    if roll < percent {
        flip_bit(c, pos)
    } else {
        c
    }
}

/// Mutation changes at most one bit: bit `pos` is inverted exactly when
/// `roll < percent`, so that with `roll` uniform in `0..100` it is inverted with
/// probability `percent` in a hundred, and every other bit is kept.
pub proof fn lemma_mutation_flips_at_most_one_bit(
    c: Chromosome,
    roll: usize,
    pos: u16,
    percent: usize,
    j: u16,
)
    requires
        c.wf(),
        pos < CHROMOSOME_BITS,
        j < CHROMOSOME_BITS,
    ensures
        mutated(c, roll, pos, percent).wf(),
        j != pos ==> mutated(c, roll, pos, percent).bit(j) == c.bit(j),
        mutated(c, roll, pos, percent).bit(pos) != c.bit(pos) <==> roll < percent,
{
    lemma_flip_bit(c.bits, pos, j);
    lemma_flip_bit(c.bits, pos, pos);
}

/// `m` is `c` after mutation with some draws.
pub open spec fn is_mutant(c: Chromosome, m: Chromosome, percent: usize) -> bool {
    exists|roll: usize, pos: u16|
        roll < 100 && pos < CHROMOSOME_BITS && m == #[trigger] mutated(c, roll, pos, percent)
}

/// Mutation of every member of `pop`: each one draws `roll` uniformly from
/// `0..100` and, when `roll < percent`, inverts one bit drawn uniformly from
/// `0..14`.
pub fn mutation(pop: &mut Vec<Chromosome>, percent: usize, rng: &mut rand::rngs::ThreadRng)
    requires
        all_wf(old(pop)@),
    ensures
        final(pop)@.len() == old(pop)@.len(),
        all_wf(final(pop)@),
        forall|k: int|
            0 <= k < final(pop)@.len() ==> is_mutant(old(pop)@[k], #[trigger] final(pop)@[k], percent),
{
    let ghost start = pop@;
    let mut out: Vec<Chromosome> = Vec::new();
    let mut k: usize = 0;
    while k < pop.len()
        invariant
            pop@ == start,
            all_wf(start),
            k <= start.len(),
            out@.len() == k,
            all_wf(out@),
            forall|q: int| 0 <= q < k ==> is_mutant(start[q], #[trigger] out@[q], percent),
        decreases start.len() - k,
    {
        let roll = random_in(rng, 0, 100);
        let pos = random_in(rng, 0, 14) as u16;
        let m = mutate_member(pop[k], roll, pos, percent);
        out.push(m);
        assert(out@[k as int] == mutated(start[k as int], roll, pos, percent));
        assert(is_mutant(start[k as int], out@[k as int], percent));
        k = k + 1;
    }
    *pop = out;
}

/// Range correction of every member.
pub fn correct_all(pop: &mut Vec<Chromosome>)
    requires
        all_wf(old(pop)@),
    ensures
        final(pop)@.len() == old(pop)@.len(),
        all_wf(final(pop)@),
        forall|k: int| 0 <= k < final(pop)@.len() ==> (#[trigger] final(pop)@[k]).in_range(),
        forall|k: int| 0 <= k < final(pop)@.len() ==> #[trigger] final(pop)@[k] == corrected(old(pop)@[k]),
        forall|k: int, f: Field|
            0 <= k < final(pop)@.len() ==> #[trigger] final(pop)@[k].field(f) == wrap_value(
                old(pop)@[k].field(f),
                field_max(f),
            ),
{
    let ghost start = pop@;
    let mut out: Vec<Chromosome> = Vec::new();
    let mut k: usize = 0;
    while k < pop.len()
        invariant
            pop@ == start,
            all_wf(start),
            k <= start.len(),
            out@.len() == k,
            all_wf(out@),
            forall|q: int| 0 <= q < k ==> (#[trigger] out@[q]).in_range(),
            forall|q: int| 0 <= q < k ==> #[trigger] out@[q] == corrected(start[q]),
            forall|q: int, f: Field|
                0 <= q < k ==> #[trigger] out@[q].field(f) == wrap_value(
                    start[q].field(f),
                    field_max(f),
                ),
        decreases start.len() - k,
    {
        let c = correct(pop[k]);
        out.push(c);
        assert(out@[k as int] == c);
        k = k + 1;
    }
    *pop = out;
}

/// Whether `c` is a member of `pop`.
pub fn member_of(pop: &Vec<Chromosome>, c: Chromosome) -> (r: bool)
    ensures
        r == pop@.contains(c),
{
    let mut k: usize = 0;
    while k < pop.len()
        invariant
            k <= pop@.len(),
            forall|q: int| 0 <= q < k ==> pop@[q] != c,
        decreases pop@.len() - k,
    {
        if pop[k].bits == c.bits {
            assert(pop@[k as int] == c);
            return true;
        }
        k = k + 1;
    }
    false
}

/// Keeps one copy of every member; a population without duplicates is
/// returned as it is.
pub fn dedup(pop: &Vec<Chromosome>) -> (r: Vec<Chromosome>)
    ensures
        r@.no_duplicates(),
        forall|c: Chromosome| r@.contains(c) <==> pop@.contains(c),
        r@.len() <= pop@.len(),
        pop@.no_duplicates() ==> r@ == pop@,
{
    let mut r: Vec<Chromosome> = Vec::new();
    let mut k: usize = 0;
    while k < pop.len()
        invariant
            k <= pop@.len(),
            r@.no_duplicates(),
            r@.len() <= k,
            forall|c: Chromosome| r@.contains(c) <==> pop@.take(k as int).contains(c),
            pop@.no_duplicates() ==> r@ == pop@.take(k as int),
        decreases pop@.len() - k,
    {
        let c = pop[k];
        let ghost before = r@;
        assert(pop@.take(k + 1) =~= pop@.take(k as int).push(c));
        if !member_of(&r, c) {
            r.push(c);
            assert forall|i: int, j: int|
                0 <= i < r@.len() && 0 <= j < r@.len() && i != j implies r@[i] != r@[j] by {
                if i < before.len() && j < before.len() {
                    assert(before[i] != before[j]);
                } else if i == before.len() {
                    assert(before.contains(before[j]));
                } else {
                    assert(before.contains(before[i]));
                }
            }
            assert forall|x: Chromosome| r@.contains(x) <==> pop@.take(k + 1).contains(x) by {
                if r@.contains(x) && x != c {
                    let i = choose|i: int| 0 <= i < r@.len() && #[trigger] r@[i] == x;
                    assert(before[i] == x);
                    assert(before.contains(x));
                    assert(pop@.take(k as int).contains(x));
                    let i2 = choose|i2: int|
                        0 <= i2 < k && #[trigger] pop@.take(k as int)[i2] == x;
                    assert(pop@.take(k + 1)[i2] == x);
                }
                if pop@.take(k + 1).contains(x) && x != c {
                    let i = choose|i: int| 0 <= i < k + 1 && #[trigger] pop@.take(k + 1)[i] == x;
                    assert(pop@.take(k as int)[i] == x);
                    assert(pop@.take(k as int).contains(x));
                    assert(before.contains(x));
                    let j = choose|j: int| 0 <= j < before.len() && #[trigger] before[j] == x;
                    assert(r@[j] == x);
                }
                if x == c {
                    assert(r@[before.len() as int] == c);
                    assert(pop@.take(k + 1)[k as int] == c);
                }
            }
        } else {
            proof {
                if pop@.no_duplicates() {
                    assert(pop@.take(k as int).contains(c));
                    let i = choose|i: int| 0 <= i < k && #[trigger] pop@.take(k as int)[i] == c;
                    assert(pop@[i] == pop@[k as int]);
                }
            }
            assert forall|x: Chromosome| r@.contains(x) <==> pop@.take(k + 1).contains(x) by {
                if pop@.take(k + 1).contains(x) && x != c {
                    let i = choose|i: int| 0 <= i < k + 1 && #[trigger] pop@.take(k + 1)[i] == x;
                    assert(pop@.take(k as int)[i] == x);
                }
                if r@.contains(x) {
                    assert(pop@.take(k as int).contains(x));
                    let i = choose|i: int| 0 <= i < k && #[trigger] pop@.take(k as int)[i] == x;
                    assert(pop@.take(k + 1)[i] == x);
                }
            }
        }
        k = k + 1;
    }
    assert(pop@.take(k as int) =~= pop@);
    r
}

/// A uniformly random chromosome: fourteen fair coin flips, most significant bit first.
pub fn random_chromosome(rng: &mut rand::rngs::ThreadRng) -> (r: Chromosome)
    ensures
        r.wf(),
{
    let mut bits: u16 = 0;
    let mut i: u16 = 0;
    assert(0u16 < (1u16 << 0u16)) by (bit_vector);
    while i < CHROMOSOME_BITS
        invariant
            i <= 14,
            bits < (1u16 << i),
        decreases 14 - i,
    {
        let b = random_bool(rng);
        assert(bits * 2 + 1 < (1u16 << ((i + 1) as u16))) by (bit_vector)
            requires
                bits < (1u16 << i),
                i < 14,
        ;
        bits = if b { bits * 2 + 1 } else { bits * 2 };
        i = i + 1;
    }
    assert(bits < 16384) by (bit_vector)
        requires
            bits < (1u16 << i),
            i == 14,
    ;
    Chromosome { bits }
}

/// Number of chromosomes whose fields all lie within their domains.
pub const IN_RANGE_COUNT: u16 = 3510;

/// Position of an in-range chromosome in the enumeration of all of them, by
/// protocol type, then service, then flag, then outcome.
pub open spec fn in_range_index(c: Chromosome) -> int {
    c.field(Field::ProtocolType) * 1170 + c.field(Field::Service) * 18 + c.field(Field::TcpFlag)
        * 2 + c.field(Field::Outcome)
}

/// The in-range chromosome at position `i` of that enumeration.
pub open spec fn nth_in_range_spec(i: u16) -> Chromosome {
    Chromosome {
        bits: compose_bits(
            (i / 1170) as u16,
            ((i / 18) % 65) as u16,
            ((i / 2) % 9) as u16,
            (i % 2) as u16,
        ),
    }
}

proof fn lemma_nth_in_range(i: u16)
    requires
        i < IN_RANGE_COUNT,
    ensures
        nth_in_range_spec(i).wf(),
        nth_in_range_spec(i).in_range(),
        in_range_index(nth_in_range_spec(i)) == i,
{
    let p = (i / 1170) as u16;
    let s = ((i / 18) % 65) as u16;
    let t = ((i / 2) % 9) as u16;
    let o = (i % 2) as u16;
    assert(i == (i / 1170) * 1170 + ((i / 18) % 65) * 18 + ((i / 2) % 9) * 2 + i % 2 && i / 1170
        <= 2) by (bit_vector)
        requires
            i < 3510,
    ;
    lemma_compose_decode(p, s, t, o);
    let c = nth_in_range_spec(i);
    assert forall|f: Field| #[trigger] c.field(f) <= field_max(f) by {
        match f {
            Field::ProtocolType => {},
            Field::Service => {},
            Field::TcpFlag => {},
            Field::Outcome => {},
        }
    }
}

/// The in-range chromosome at position `i` of the enumeration by fields.
pub fn nth_in_range(i: u16) -> (r: Chromosome)
    requires
        i < IN_RANGE_COUNT,
    ensures
        r == nth_in_range_spec(i),
        r.wf(),
        r.in_range(),
        in_range_index(r) == i,
{
    proof {
        lemma_nth_in_range(i);
    }
    let r = compose(i / 1170, (i / 18) % 65, (i / 2) % 9, i % 2);
    assert((i / 1170) % 4 == i / 1170 && ((i / 18) % 65) % 128 == (i / 18) % 65 && ((i / 2) % 9)
        % 16 == (i / 2) % 9 && (i % 2) % 2 == i % 2);
    r
}

/// The first in-range chromosome, in the enumeration by fields, that is not a
/// member of `pop`; one exists as long as `pop` has fewer members than there
/// are in-range chromosomes.
pub fn first_free_in_range(pop: &Vec<Chromosome>) -> (r: Chromosome)
    requires
        pop@.len() < IN_RANGE_COUNT,
    ensures
        r.wf(),
        r.in_range(),
        !pop@.contains(r),
        0 <= in_range_index(r) < IN_RANGE_COUNT,
        forall|i: u16| i < in_range_index(r) ==> #[trigger] pop@.contains(nth_in_range_spec(i)),
{
    let mut v: u16 = 0;
    while v < IN_RANGE_COUNT
        invariant
            v <= IN_RANGE_COUNT,
            forall|w: u16| w < v ==> #[trigger] pop@.contains(nth_in_range_spec(w)),
        decreases IN_RANGE_COUNT - v,
    {
        let c = nth_in_range(v);
        if !member_of(pop, c) {
            return c;
        }
        v = v + 1;
    }
    proof {
        let values = pop@.map_values(|c: Chromosome| in_range_index(c));
        let range = vstd::set_lib::set_int_range(0, 3510);
        assert forall|x: int| range.contains(x) implies values.to_set().contains(x) by {
            let w = x as u16;
            lemma_nth_in_range(w);
            assert(pop@.contains(nth_in_range_spec(w)));
            let k = choose|k: int| 0 <= k < pop@.len() && #[trigger] pop@[k] == nth_in_range_spec(w);
            assert(values[k] == x);
        }
        vstd::set_lib::lemma_int_range(0, 3510);
        values.lemma_cardinality_of_set();
        vstd::set_lib::lemma_len_subset(range, values.to_set());
    }
    nth_in_range(0)
}

/// Every member lies within the field domains.
pub open spec fn all_in_range(pop: Seq<Chromosome>) -> bool {
    forall|i: int| 0 <= i < pop.len() ==> #[trigger] pop[i].in_range()
}

/// Duplicate-free random fill: adds range-corrected uniformly random
/// chromosomes that are not yet members until `pop` has `target` members. A
/// candidate that is already a member is drawn again, up to `redraws` times for
/// one slot; should every draw collide, the slot takes the first free in-range
/// chromosome.
pub fn fill_unique(
    pop: &mut Vec<Chromosome>,
    target: usize,
    redraws: u32,
    rng: &mut rand::rngs::ThreadRng,
)
    requires
        old(pop)@.no_duplicates(),
        all_wf(old(pop)@),
        all_in_range(old(pop)@),
        target <= IN_RANGE_COUNT,
    ensures
        final(pop)@.no_duplicates(),
        all_wf(final(pop)@),
        all_in_range(final(pop)@),
        final(pop)@.len() == if old(pop)@.len() >= target {
            old(pop)@.len()
        } else {
            target as nat
        },
        final(pop)@.take(old(pop)@.len() as int) == old(pop)@,
{
    let ghost start = pop@;
    while pop.len() < target
        invariant
            pop@.no_duplicates(),
            all_wf(pop@),
            all_in_range(pop@),
            target <= IN_RANGE_COUNT,
            start.len() <= pop@.len(),
            start.len() < target ==> pop@.len() <= target,
            start.len() >= target ==> pop@ == start,
            pop@.take(start.len() as int) == start,
        decreases target - pop@.len(),
    {
        let ghost before = pop@;
        let mut placed = fill_step(pop, random_chromosome(rng));
        let mut tries: u32 = 0;
        while !placed && tries < redraws
            invariant
                placed ==> pop@ == before.push(pop@.last()),
                !placed ==> pop@ == before,
                pop@.no_duplicates(),
                all_wf(pop@),
                all_in_range(pop@),
                before.len() < IN_RANGE_COUNT,
            decreases redraws - tries,
        {
            placed = fill_step(pop, random_chromosome(rng));
            tries = tries + 1;
        }
        if !placed {
            let c = first_free_in_range(pop);
            proof {
                lemma_corrected_in_range(c);
            }
            placed = fill_step(pop, c);
        }
        assert(pop@.len() == before.len() + 1);
        assert(pop@.take(start.len() as int) =~= before.take(start.len() as int));
    }
}

/// One draw of the duplicate-free fill: the range-corrected `raw` joins `pop`
/// when it is not yet a member, and the result says whether it did; otherwise
/// `pop` is left as it is and the caller draws again.
pub fn fill_step(pop: &mut Vec<Chromosome>, raw: Chromosome) -> (r: bool)
    requires
        raw.wf(),
        old(pop)@.no_duplicates(),
        all_wf(old(pop)@),
        all_in_range(old(pop)@),
    ensures
        r == !old(pop)@.contains(corrected(raw)),
        r ==> final(pop)@ == old(pop)@.push(corrected(raw)),
        !r ==> final(pop)@ == old(pop)@,
        final(pop)@.no_duplicates(),
        all_wf(final(pop)@),
        all_in_range(final(pop)@),
{
    let cand = correct(raw);
    if member_of(pop, cand) {
        return false;
    }
    let ghost before = pop@;
    pop.push(cand);
    assert forall|i: int, j: int|
        0 <= i < pop@.len() && 0 <= j < pop@.len() && i != j implies pop@[i] != pop@[j] by {
        if i < before.len() && j < before.len() {
            assert(before[i] != before[j]);
        } else if i == before.len() {
            assert(before.contains(before[j]));
        } else {
            assert(before.contains(before[i]));
        }
    }
    true
}

} // verus!
