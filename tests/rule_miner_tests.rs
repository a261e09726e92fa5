use rule_miner::chromosome::{
    compose, correct, decode, encode, flip_bit, swap_suffix, Chromosome, Field,
};
use rule_miner::driver::{generation_step, initial_population, run, select_top, GaConfig};
use rule_miner::fitness::{class_score, fitness, DatasetStats, Record};
use rule_miner::population::{
    correct_all, crossover, dedup, elitism, fill_step, fill_unique, first_free_in_range, generation_mean,
    member_of, mutate_member, mutation, nth_in_range, random_chromosome, rank, Ranked,
};

const FIELDS: [Field; 4] = [Field::ProtocolType, Field::Service, Field::TcpFlag, Field::Outcome];

fn rec(p: u16, s: u16, f: u16, o: u16) -> Record {
    Record { protocol_type: p, service: s, flag: f, outcome: o }
}

fn two_record_stats() -> DatasetStats {
    DatasetStats::new(vec![rec(0, 0, 0, 0), rec(1, 1, 1, 1)], [1, 1, 0]).unwrap()
}

fn sample_stats() -> DatasetStats {
    let mut records = Vec::new();
    for i in 0..60u16 {
        records.push(rec(i % 3, i % 7, i % 9, if i % 5 == 0 { 1 } else { 0 }));
    }
    let c1 = records.iter().filter(|r| r.outcome == 1).count() as u32;
    let c0 = records.len() as u32 - c1;
    DatasetStats::new(records, [c0, c1, 0]).unwrap()
}

fn ratio(num: i128, den: i128) -> f64 {
    num as f64 / den as f64
}

#[test]
fn decode_reads_fields_msb_first() {
    // bits: 10 0000011 0101 1
    let c = Chromosome { bits: 0b10_0000011_0101_1 };
    assert_eq!(decode(c, Field::ProtocolType), 2);
    assert_eq!(decode(c, Field::Service), 3);
    assert_eq!(decode(c, Field::TcpFlag), 5);
    assert_eq!(decode(c, Field::Outcome), 1);
}

#[test]
fn compose_places_fields() {
    let c = compose(2, 64, 8, 1);
    assert_eq!(c.bits, 2 * 4096 + 64 * 32 + 8 * 2 + 1);
    for (f, v) in FIELDS.iter().zip([2u16, 64, 8, 1]) {
        assert_eq!(decode(c, *f), v);
    }
}

#[test]
fn encode_decode_round_trip_truncates() {
    let base = compose(1, 40, 3, 0);
    for f in FIELDS {
        for v in [0u16, 1, 2, 3, 7, 64, 100, 127, 128, 200, 65535] {
            let e = encode(base, f, v);
            let modulus = match f {
                Field::ProtocolType => 4,
                Field::Service => 128,
                Field::TcpFlag => 16,
                Field::Outcome => 2,
            };
            assert_eq!(decode(e, f), v % modulus);
            for g in FIELDS {
                if g != f {
                    assert_eq!(decode(e, g), decode(base, g));
                }
            }
            assert!(e.bits < 16384);
        }
    }
}

#[test]
fn encode_changes_the_value() {
    let c = encode(Chromosome { bits: 0 }, Field::Service, 5);
    assert_eq!(c.bits, 5 * 32);
}

#[test]
fn correction_wraps_out_of_range_fields() {
    let c = compose(3, 127, 15, 1);
    let r = correct(c);
    assert_eq!(decode(r, Field::ProtocolType), 0);
    assert_eq!(decode(r, Field::Service), 127 % 65);
    assert_eq!(decode(r, Field::TcpFlag), 15 % 9);
    assert_eq!(decode(r, Field::Outcome), 1);
    let ok = compose(2, 64, 8, 0);
    assert_eq!(correct(ok), ok);
}

#[test]
fn correction_keeps_every_chromosome_in_range() {
    for bits in 0..16384u16 {
        let r = correct(Chromosome { bits });
        assert!(decode(r, Field::ProtocolType) <= 2);
        assert!(decode(r, Field::Service) <= 64);
        assert!(decode(r, Field::TcpFlag) <= 8);
        assert!(decode(r, Field::Outcome) <= 1);
    }
}

#[test]
fn correct_all_corrects_each_member() {
    let mut pop = vec![compose(3, 0, 0, 0), compose(0, 100, 9, 1)];
    correct_all(&mut pop);
    assert_eq!(pop, vec![compose(0, 0, 0, 0), compose(0, 35, 0, 1)]);
}

#[test]
fn flip_bit_inverts_one_bit() {
    let c = Chromosome { bits: 0 };
    assert_eq!(flip_bit(c, 0).bits, 8192);
    assert_eq!(flip_bit(c, 13).bits, 1);
    let d = Chromosome { bits: 0b11_1111111_1111_1 };
    assert_eq!(flip_bit(d, 2).bits, 0b11_0111111_1111_1);
}

#[test]
fn crossover_swaps_suffix_and_is_an_involution() {
    let a = Chromosome { bits: 0b11_1111111_1111_1 };
    let b = Chromosome { bits: 0 };
    let (x, y) = swap_suffix(a, b, 4);
    assert_eq!(x.bits, 0b11_1100000_0000_0);
    assert_eq!(y.bits, 0b00_0011111_1111_1);
    assert_eq!(x.bits.count_ones() + y.bits.count_ones(), 14);
    for off in 0..=14u16 {
        for (p, q) in [(a, b), (compose(1, 33, 7, 0), compose(2, 5, 12, 1))] {
            let (x, y) = swap_suffix(p, q, off);
            assert_eq!(x.bits.count_ones() + y.bits.count_ones(), p.bits.count_ones() + q.bits.count_ones());
            let (p2, q2) = swap_suffix(x, y, off);
            assert_eq!((p2, q2), (p, q));
        }
    }
}

#[test]
fn stats_validation() {
    assert!(DatasetStats::new(vec![], [281, 107, 97]).is_some());
    assert!(DatasetStats::new(vec![], [0, 107, 97]).is_none());
    assert!(DatasetStats::new(vec![], [281, 0, 97]).is_none());
    assert!(DatasetStats::new(vec![], [281, 107, 0]).is_some());
    assert!(DatasetStats::new(vec![], [u32::MAX, 1, 0]).is_none());
    assert!(DatasetStats::new(vec![], [u32::MAX - 1, 1, 0]).is_some());
}

#[test]
fn two_record_scenario_scores_one_and_minus_one() {
    let stats = two_record_stats();
    let good = fitness(compose(0, 0, 0, 0), &stats);
    assert_eq!(good.num, good.den);
    assert_eq!(ratio(good.num, good.den), 1.0);
    let bad = fitness(compose(0, 0, 0, 1), &stats);
    assert_eq!(bad.num, -bad.den);
    assert_eq!(ratio(bad.num, bad.den), -1.0);
    let none = fitness(compose(2, 2, 2, 0), &stats);
    assert_eq!(none.num, 0);
}

#[test]
fn fitness_formula_exact_value() {
    // totals 281, 107, 97; rule (1, 2, 3) predicting 0 matches 3 of class 0,
    // 1 of class 1 and 2 of class 2.
    let mut records = vec![rec(1, 2, 3, 0), rec(1, 2, 3, 0), rec(1, 2, 3, 0)];
    records.push(rec(1, 2, 3, 1));
    records.push(rec(1, 2, 3, 2));
    records.push(rec(1, 2, 3, 2));
    records.push(rec(0, 2, 3, 0));
    let stats = DatasetStats::new(records, [281, 107, 97]).unwrap();
    let c = compose(1, 2, 3, 0);
    assert_eq!(class_score(c, &stats), 3 * (107 + 97) - 3 * 281);
    let f = fitness(c, &stats);
    let expected = 3.0 / 281.0 - 3.0 / 204.0;
    assert!((ratio(f.num, f.den) - expected).abs() < 1e-12);
    let c1 = compose(1, 2, 3, 1);
    let f1 = fitness(c1, &stats);
    let expected1 = 1.0 / 107.0 - 5.0 / 378.0;
    assert!((ratio(f1.num, f1.den) - expected1).abs() < 1e-12);
    assert_eq!(f.den, f1.den);
}

#[test]
fn fitness_is_deterministic_and_in_unit_range() {
    let stats = sample_stats();
    for bits in (0..16384u16).step_by(37) {
        let c = Chromosome { bits };
        let f = fitness(c, &stats);
        assert_eq!(f, fitness(c, &stats));
        assert!(f.den > 0);
        assert!(-f.den <= f.num && f.num <= f.den);
    }
}

#[test]
fn rank_orders_best_first_with_stable_ties() {
    let stats = two_record_stats();
    let pop = vec![compose(2, 2, 2, 0), compose(0, 0, 0, 1), compose(0, 0, 0, 0), compose(1, 0, 0, 0)];
    let ord = rank(&pop, &stats);
    let idx: Vec<usize> = ord.iter().map(|r| r.index).collect();
    assert_eq!(idx, vec![2, 0, 3, 1]);
    assert_eq!(ord[0].fitness, fitness(pop[2], &stats));
}

#[test]
fn generation_mean_sums_by_class() {
    let stats = two_record_stats();
    let pop = vec![compose(0, 0, 0, 0), compose(0, 0, 0, 1), compose(1, 1, 1, 1)];
    let m = generation_mean(&pop, &stats);
    assert_eq!(m.members, 3);
    assert_eq!(m.sum0, 1);
    assert_eq!(m.sum1, -1 + 1);
}

#[test]
fn elitism_keeps_best_half_and_records_mean() {
    let stats = two_record_stats();
    let pop = vec![compose(2, 2, 2, 0), compose(0, 0, 0, 1), compose(0, 0, 0, 0), compose(1, 1, 1, 1)];
    let mut summary = Vec::new();
    let kept = elitism(&pop, &stats, 4, &mut summary);
    assert_eq!(kept, vec![compose(0, 0, 0, 0), compose(1, 1, 1, 1)]);
    assert_eq!(summary.len(), 1);
    assert_eq!(summary[0], generation_mean(&pop, &stats));
}

#[test]
fn elitism_keeps_half_the_configured_size() {
    let stats = sample_stats();
    let pop: Vec<Chromosome> = (0..12u16).map(nth_in_range).collect();
    let mut summary = Vec::new();
    let kept = elitism(&pop, &stats, 20, &mut summary);
    assert_eq!(kept.len(), 10);
    let ord = rank(&pop, &stats);
    for (k, c) in kept.iter().enumerate() {
        assert_eq!(*c, pop[ord[k].index]);
    }
    assert_eq!(summary[0].members, 12);
}

#[test]
fn fill_step_adds_corrected_candidate_once() {
    let mut pop = vec![compose(0, 0, 0, 0)];
    // protocol 3 corrects to 0, service 70 to 5
    let raw = compose(3, 70, 0, 1);
    assert!(fill_step(&mut pop, raw));
    assert_eq!(pop, vec![compose(0, 0, 0, 0), compose(0, 5, 0, 1)]);
    assert!(!fill_step(&mut pop, raw));
    assert_eq!(pop.len(), 2);
    assert!(!fill_step(&mut pop, compose(0, 0, 0, 0)));
    assert_eq!(pop.len(), 2);
}

#[test]
fn select_top_truncates() {
    let pop = vec![compose(0, 0, 0, 0), compose(1, 1, 1, 1)];
    let stats = two_record_stats();
    let ord = rank(&pop, &stats);
    let top = select_top(&pop, &ord, 1);
    assert_eq!(top.len(), 1);
    assert_eq!(top[0].chromosome, pop[ord[0].index]);
    assert_eq!(select_top(&pop, &ord, 10).len(), 2);
    let none: Vec<Ranked> = Vec::new();
    assert!(select_top(&pop, &none, 10).is_empty());
}

#[test]
fn mutate_member_flips_only_on_low_rolls() {
    let c = compose(1, 2, 3, 0);
    for roll in 0..100usize {
        let m = mutate_member(c, roll, 5, 5);
        if roll < 5 {
            assert_eq!((m.bits ^ c.bits).count_ones(), 1);
            assert_eq!(m, flip_bit(c, 5));
        } else {
            assert_eq!(m, c);
        }
    }
}

#[test]
fn mutation_rate_is_near_five_percent() {
    let mut rng = rand::thread_rng();
    let base: Vec<Chromosome> = (0..1000u16).map(|b| Chromosome { bits: b * 16 }).collect();
    let mut flips = 0usize;
    let mut total = 0usize;
    for _ in 0..40 {
        let mut pop = base.clone();
        mutation(&mut pop, 5, &mut rng);
        for (a, b) in base.iter().zip(pop.iter()) {
            let d = (a.bits ^ b.bits).count_ones();
            assert!(d <= 1);
            flips += d as usize;
            total += 1;
        }
    }
    let rate = flips as f64 / total as f64;
    assert!(rate > 0.04 && rate < 0.06, "rate {}", rate);
}

#[test]
fn crossover_makes_children_pairs() {
    let mut rng = rand::thread_rng();
    let pop = vec![compose(0, 0, 0, 0), compose(2, 64, 8, 1)];
    let kids = crossover(&pop, 5, &mut rng);
    assert_eq!(kids.len(), 10);
    for pair in kids.chunks(2) {
        let ones = pair[0].bits.count_ones() + pair[1].bits.count_ones();
        let a = pop[0].bits.count_ones();
        let b = pop[1].bits.count_ones();
        assert!(ones == 2 * a || ones == a + b || ones == 2 * b);
        assert!(pair[0].bits < 16384 && pair[1].bits < 16384);
    }
}

#[test]
fn member_of_and_dedup() {
    let a = compose(0, 1, 2, 0);
    let b = compose(1, 1, 2, 0);
    let pop = vec![a, b, a, b, a];
    assert!(member_of(&pop, a));
    assert!(!member_of(&pop, compose(2, 1, 2, 0)));
    assert_eq!(dedup(&pop), vec![a, b]);
    assert!(dedup(&Vec::new()).is_empty());
}

fn in_range(c: Chromosome) -> bool {
    decode(c, Field::ProtocolType) <= 2
        && decode(c, Field::Service) <= 64
        && decode(c, Field::TcpFlag) <= 8
        && decode(c, Field::Outcome) <= 1
}

#[test]
fn nth_in_range_enumerates_every_in_range_chromosome() {
    assert_eq!(nth_in_range(0), compose(0, 0, 0, 0));
    assert_eq!(nth_in_range(1), compose(0, 0, 0, 1));
    assert_eq!(nth_in_range(2), compose(0, 0, 1, 0));
    assert_eq!(nth_in_range(18), compose(0, 1, 0, 0));
    assert_eq!(nth_in_range(3509), compose(2, 64, 8, 1));
    let all: Vec<Chromosome> = (0..3510u16).map(nth_in_range).collect();
    assert!(all.iter().all(|c| in_range(*c)));
    assert_eq!(dedup(&all).len(), 3510);
    let count = (0..16384u16).filter(|b| in_range(Chromosome { bits: *b })).count();
    assert_eq!(count, 3510);
}

#[test]
fn first_free_in_range_finds_first_gap() {
    let pop = vec![nth_in_range(0), nth_in_range(1), nth_in_range(3)];
    assert_eq!(first_free_in_range(&pop), nth_in_range(2));
    assert_eq!(first_free_in_range(&Vec::new()), compose(0, 0, 0, 0));
}

#[test]
fn fill_reaches_target_without_duplicates() {
    let mut rng = rand::thread_rng();
    for start in [0usize, 5, 20] {
        let mut pop: Vec<Chromosome> = (0..start as u16).map(nth_in_range).collect();
        fill_unique(&mut pop, 20, 64, &mut rng);
        assert_eq!(pop.len(), 20);
        assert_eq!(dedup(&pop).len(), 20);
        assert!(pop.iter().all(|c| in_range(*c)));
        for (i, c) in pop.iter().take(start).enumerate() {
            assert_eq!(*c, nth_in_range(i as u16));
        }
    }
    let mut nearly_full: Vec<Chromosome> =
        (0..3510u16).filter(|i| *i != 1500).map(nth_in_range).collect();
    fill_unique(&mut nearly_full, 3510, 0, &mut rng);
    assert_eq!(nearly_full.len(), 3510);
    assert_eq!(nearly_full[3509], nth_in_range(1500));
}

#[test]
fn random_chromosome_stays_in_width() {
    let mut rng = rand::thread_rng();
    for _ in 0..1000 {
        assert!(random_chromosome(&mut rng).bits < 16384);
    }
}

#[test]
fn initial_population_is_valid() {
    let mut rng = rand::thread_rng();
    let config = GaConfig::standard();
    let pop = initial_population(&config, &mut rng);
    assert_eq!(pop.len(), 20);
    assert_eq!(dedup(&pop).len(), 20);
    assert!(pop.iter().all(|c| in_range(*c)));
}

#[test]
fn generation_step_keeps_size_and_records_mean() {
    let mut rng = rand::thread_rng();
    let config = GaConfig::standard();
    let stats = sample_stats();
    let pop = initial_population(&config, &mut rng);
    let mut summary = Vec::new();
    let next = generation_step(&pop, &stats, &config, &mut summary, &mut rng);
    assert_eq!(next.len(), 20);
    assert_eq!(dedup(&next).len(), 20);
    assert!(next.iter().all(|c| in_range(*c)));
    assert_eq!(summary, vec![generation_mean(&pop, &stats)]);
    let ord = rank(&pop, &stats);
    for r in ord.iter().take(10) {
        assert!(next.contains(&pop[r.index]));
    }
}

#[test]
fn full_run_gives_one_summary_entry_per_generation() {
    let mut rng = rand::thread_rng();
    let config = GaConfig::standard();
    assert_eq!(config.population_size, 20);
    assert_eq!(config.generations, 100);
    let stats = sample_stats();
    let result = run(&stats, &config, &mut rng);
    assert_eq!(result.summary.len(), 100);
    assert_eq!(result.rules.len(), 10);
    for w in result.rules.windows(2) {
        assert!(w[0].fitness.num >= w[1].fitness.num);
    }
    for r in &result.rules {
        assert_eq!(r.fitness, fitness(r.chromosome, &stats));
    }
}
