//! Scoring a chromosome against the statistics of a labelled dataset.
use crate::chromosome::{decode, Chromosome, Field};
use vstd::prelude::*;

verus! {

/// One labelled record: the categorical features and the true outcome class.
#[derive(Clone, Copy, PartialEq, Eq, Structural, Debug)]
pub struct Record {
    pub protocol_type: u16,
    pub service: u16,
    pub flag: u16,
    pub outcome: u16,
}

/// The records of a dataset and the known sizes of the outcome classes 0, 1 and 2.
pub struct DatasetStats {
    pub records: Vec<Record>,
    pub class_totals: [u32; 3],
}

/// An exact fitness value `num / den`; `den` is positive.
#[derive(Clone, Copy, PartialEq, Eq, Structural, Debug)]
pub struct Fitness {
    pub num: i128,
    pub den: i128,
}

/// The record satisfies the three-field condition of a rule.
pub open spec fn rule_matches(r: Record, p: u16, s: u16, t: u16) -> bool {
    r.protocol_type == p && r.service == s && r.flag == t
}

/// Number of records that satisfy the condition and whose outcome equals `o`
/// (when `same`) or differs from it (when not `same`).
pub open spec fn count_matching(rs: Seq<Record>, p: u16, s: u16, t: u16, o: u16, same: bool) -> nat
    decreases rs.len(),
{
    if rs.len() == 0 {
        0
    } else {
        count_matching(rs.drop_last(), p, s, t, o, same) + if rule_matches(rs.last(), p, s, t) && (
        (rs.last().outcome == o) == same) {
            1nat
        } else {
            0nat
        }
    }
}

/// Number of records of outcome class `k`.
pub open spec fn count_class(rs: Seq<Record>, k: u16) -> nat
    decreases rs.len(),
{
    if rs.len() == 0 {
        0
    } else {
        count_class(rs.drop_last(), k) + if rs.last().outcome == k {
            1nat
        } else {
            0nat
        }
    }
}

/// Bound on the magnitude of a class score: the square of `U32_LIMIT`.
pub const SCORE_LIMIT: i128 = 18446744065119617025;

/// Largest value of a `u32`, the bound on the grand total and on the record count.
pub const U32_LIMIT: u64 = 4294967295;

impl DatasetStats {
    pub open spec fn total(self, k: u16) -> int {
        self.class_totals@[k as int] as int
    }

    pub open spec fn grand_total(self) -> int {
        self.total(0) + self.total(1) + self.total(2)
    }

    /// Size of the class that a rule predicts.
    pub open spec fn in_class(self, o: u16) -> int {
        self.total(o)
    }

    /// Size of all the other classes.
    pub open spec fn out_class(self, o: u16) -> int {
        self.grand_total() - self.total(o)
    }

    /// Denominator of the fitness of a rule predicting `o`.
    pub open spec fn class_den(self, o: u16) -> int {
        self.in_class(o) * self.out_class(o)
    }

    /// Denominator shared by all fitness values over these statistics.
    pub open spec fn common_den(self) -> int {
        self.class_den(0) * self.class_den(1)
    }

    /// Both predicted classes are non-empty, and the totals and the record count
    /// fit in a `u32`.
    pub open spec fn wf(self) -> bool {
        self.total(0) > 0 && self.total(1) > 0 && self.grand_total() <= U32_LIMIT
            && self.records@.len() <= U32_LIMIT
    }

    /// The class totals are the class sizes of the records, all in classes 0 to 2.
    pub open spec fn consistent(self) -> bool {
        &&& forall|i: int| 0 <= i < self.records@.len() ==> #[trigger] self.records@[i].outcome <= 2
        &&& self.total(0) == count_class(self.records@, 0)
        &&& self.total(1) == count_class(self.records@, 1)
        &&& self.total(2) == count_class(self.records@, 2)
    }

    /// Checks the statistics once, before any evaluation: `None` when a class
    /// that a rule can predict is empty, or the grand total or the number of
    /// records does not fit in a `u32`.
    pub fn new(records: Vec<Record>, class_totals: [u32; 3]) -> (r: Option<DatasetStats>)
        ensures
            r.is_some() <==> (class_totals@[0] > 0 && class_totals@[1] > 0 && class_totals@[0]
                + class_totals@[1] + class_totals@[2] <= U32_LIMIT && records@.len()
                <= U32_LIMIT),
            r matches Some(s) ==> s.wf() && s.records@ == records@ && s.class_totals@
                == class_totals@,
    {
        let t0 = class_totals[0] as u64;
        let t1 = class_totals[1] as u64;
        let t2 = class_totals[2] as u64;
        if t0 > 0 && t1 > 0 && t0 + t1 + t2 <= U32_LIMIT && records.len() as u64 <= U32_LIMIT {
            Some(DatasetStats { records, class_totals })
        } else {
            None
        }
    }
}

/// Numerator of `a / in_class - b / out_class` over `class_den`.
pub open spec fn class_numerator(stats: DatasetStats, c: Chromosome) -> int {
    let p = c.field(Field::ProtocolType);
    let s = c.field(Field::Service);
    let t = c.field(Field::TcpFlag);
    let o = c.field(Field::Outcome);
    let a = count_matching(stats.records@, p, s, t, o, true);
    let b = count_matching(stats.records@, p, s, t, o, false);
    a * stats.out_class(o) - b * stats.in_class(o)
}

/// The fitness of a chromosome, as an exact fraction over the common denominator.
pub open spec fn fitness_spec(stats: DatasetStats, c: Chromosome) -> (int, int) {
    let o = c.field(Field::Outcome);
    (class_numerator(stats, c) * stats.class_den((1 - o) as u16), stats.common_den())
}

proof fn lemma_product_bound(x: int, y: int)
    requires
        0 <= x,
        0 <= y,
        x + y <= U32_LIMIT,
    ensures
        x * y <= 0x4000_0000_0000_0000,
{
    assert((x - y) * (x - y) >= 0) by (nonlinear_arith);
    assert(4 * (x * y) <= (x + y) * (x + y)) by (nonlinear_arith)
        requires
            (x - y) * (x - y) >= 0,
    ;
    assert((x + y) * (x + y) <= 18446744065119617025) by (nonlinear_arith)
        requires
            0 <= x + y <= 4294967295,
    ;
}

proof fn lemma_count_le(rs: Seq<Record>, p: u16, s: u16, t: u16, o: u16, same: bool)
    ensures
        count_matching(rs, p, s, t, o, same) <= rs.len(),
    decreases rs.len(),
{
    if rs.len() > 0 {
        lemma_count_le(rs.drop_last(), p, s, t, o, same);
    }
}

/// The numerator of a chromosome's fitness over the denominator of its
/// predicted class: `a * out_class - b * in_class`, where among the records that
/// satisfy its three-field condition `a` have the predicted outcome and `b`
/// another one.
pub fn class_score(c: Chromosome, stats: &DatasetStats) -> (r: i128)
    requires
        stats.wf(),
    ensures
        r == class_numerator(*stats, c),
        -SCORE_LIMIT <= r <= SCORE_LIMIT,
{
    let p = decode(c, Field::ProtocolType);
    let s = decode(c, Field::Service);
    let t = decode(c, Field::TcpFlag);
    let o = decode(c, Field::Outcome);
    let mut a: u64 = 0;
    let mut b: u64 = 0;
    let mut i: usize = 0;
    while i < stats.records.len()
        invariant
            0 <= i <= stats.records@.len(),
            stats.records@.len() <= U32_LIMIT,
            a == count_matching(stats.records@.take(i as int), p, s, t, o, true),
            b == count_matching(stats.records@.take(i as int), p, s, t, o, false),
        decreases stats.records@.len() - i,
    {
        let ghost prefix = stats.records@.take(i as int);
        let r = stats.records[i];
        assert(stats.records@.take(i + 1).drop_last() =~= prefix);
        proof {
            lemma_count_le(prefix, p, s, t, o, true);
            lemma_count_le(prefix, p, s, t, o, false);
        }
        if r.protocol_type == p && r.service == s && r.flag == t {
            if r.outcome == o {
                a = a + 1;
            } else {
                b = b + 1;
            }
        }
        i = i + 1;
    }
    assert(stats.records@.take(i as int) =~= stats.records@);
    proof {
        lemma_count_le(stats.records@, p, s, t, o, true);
        lemma_count_le(stats.records@, p, s, t, o, false);
    }
    let grand = stats.class_totals[0] as i128 + stats.class_totals[1] as i128
        + stats.class_totals[2] as i128;
    let in_class = stats.class_totals[o as usize] as i128;
    let out_class = grand - in_class;
    proof {
        assert(0 <= a as int * out_class <= SCORE_LIMIT) by (nonlinear_arith)
            requires
                0 <= a <= U32_LIMIT,
                0 <= out_class <= U32_LIMIT,
        ;
        assert(0 <= b as int * in_class <= SCORE_LIMIT) by (nonlinear_arith)
            requires
                0 <= b <= U32_LIMIT,
                0 <= in_class <= U32_LIMIT,
        ;
    }
    (a as i128) * out_class - (b as i128) * in_class
}

/// Scores a chromosome: `a / in_class - b / out_class`, as an exact fraction
/// over the denominator shared by all chromosomes.
pub fn fitness(c: Chromosome, stats: &DatasetStats) -> (r: Fitness)
    requires
        stats.wf(),
    ensures
        (r.num as int, r.den as int) == fitness_spec(*stats, c),
        r.den == stats.common_den(),
        r.den > 0,
{
    let diff = class_score(c, stats);
    let o = decode(c, Field::Outcome);
    let t0 = stats.class_totals[0] as i128;
    let t1 = stats.class_totals[1] as i128;
    let t2 = stats.class_totals[2] as i128;
    let grand = t0 + t1 + t2;
    let other = 1 - o;
    let other_in = stats.class_totals[other as usize] as i128;
    proof {
        lemma_product_bound(other_in as int, (grand - other_in) as int);
        lemma_product_bound(t0 as int, (t1 + t2) as int);
        lemma_product_bound(t1 as int, (t0 + t2) as int);
    }
    let other_den = other_in * (grand - other_in);
    proof {
        assert(-SCORE_LIMIT * 0x4000_0000_0000_0000 <= diff * other_den <= SCORE_LIMIT
            * 0x4000_0000_0000_0000) by (nonlinear_arith)
            requires
                -SCORE_LIMIT <= diff <= SCORE_LIMIT,
                0 <= other_den <= 0x4000_0000_0000_0000,
        ;
        assert(0 < t0 * (t1 + t2)) by (nonlinear_arith)
            requires
                t0 > 0,
                t1 + t2 > 0,
        ;
        assert(0 < t1 * (t0 + t2)) by (nonlinear_arith)
            requires
                t1 > 0,
                t0 + t2 > 0,
        ;
        assert(0 < (t0 * (t1 + t2)) * (t1 * (t0 + t2)) <= 0x4000_0000_0000_0000
            * 0x4000_0000_0000_0000) by (nonlinear_arith)
            requires
                0 < t0 * (t1 + t2) <= 0x4000_0000_0000_0000,
                0 < t1 * (t0 + t2) <= 0x4000_0000_0000_0000,
        ;
    }
    let num = diff * other_den;
    let den = (t0 * (t1 + t2)) * (t1 * (t0 + t2));
    Fitness { num, den }
}

proof fn lemma_same_le_class(rs: Seq<Record>, p: u16, s: u16, t: u16, o: u16)
    ensures
        count_matching(rs, p, s, t, o, true) <= count_class(rs, o),
    decreases rs.len(),
{
    if rs.len() > 0 {
        lemma_same_le_class(rs.drop_last(), p, s, t, o);
    }
}

proof fn lemma_other_le_classes(rs: Seq<Record>, p: u16, s: u16, t: u16, o: u16)
    requires
        o <= 2,
        forall|i: int| 0 <= i < rs.len() ==> #[trigger] rs[i].outcome <= 2,
    ensures
        count_matching(rs, p, s, t, o, false) + count_class(rs, o) <= count_class(rs, 0)
            + count_class(rs, 1) + count_class(rs, 2),
    decreases rs.len(),
{
    if rs.len() > 0 {
        let init = rs.drop_last();
        assert forall|i: int| 0 <= i < init.len() implies #[trigger] init[i].outcome <= 2 by {
            assert(init[i] == rs[i]);
        }
        assert(rs.last().outcome <= 2);
        lemma_other_le_classes(init, p, s, t, o);
    }
}

/// Fitness is a function of the chromosome and the statistics alone, and when
/// the class totals are the class sizes of the records it lies in `[-1, 1]`.
pub proof fn lemma_fitness_in_unit_range(stats: DatasetStats, c: Chromosome)
    requires
        stats.wf(),
        stats.consistent(),
        c.wf(),
    ensures
        stats.common_den() > 0,
        -fitness_spec(stats, c).1 <= fitness_spec(stats, c).0 <= fitness_spec(stats, c).1,
{
    let p = c.field(Field::ProtocolType);
    let s = c.field(Field::Service);
    let t = c.field(Field::TcpFlag);
    let o = c.field(Field::Outcome);
    assert(o < 2);
    let rs = stats.records@;
    lemma_same_le_class(rs, p, s, t, o);
    lemma_other_le_classes(rs, p, s, t, o);
    let a = count_matching(rs, p, s, t, o, true) as int;
    let b = count_matching(rs, p, s, t, o, false) as int;
    let x = stats.in_class(o);
    let y = stats.out_class(o);
    let z = stats.class_den((1 - o) as u16);
    assert(0 <= a <= x && 0 <= b <= y && x > 0 && y > 0);
    assert(z > 0) by (nonlinear_arith)
        requires
            stats.total(0) > 0,
            stats.total(1) > 0,
            stats.total(2) >= 0,
            z == stats.in_class((1 - o) as u16) * stats.out_class((1 - o) as u16),
            o == 0 ==> stats.in_class((1 - o) as u16) == stats.total(1) && stats.out_class(
                (1 - o) as u16,
            ) == stats.total(0) + stats.total(2),
            o == 1 ==> stats.in_class((1 - o) as u16) == stats.total(0) && stats.out_class(
                (1 - o) as u16,
            ) == stats.total(1) + stats.total(2),
            o < 2,
    ;
    assert(stats.common_den() == x * y * z) by (nonlinear_arith)
        requires
            o < 2,
            o == 0 ==> stats.class_den(0) == x * y && stats.class_den(1) == z,
            o == 1 ==> stats.class_den(1) == x * y && stats.class_den(0) == z,
            stats.common_den() == stats.class_den(0) * stats.class_den(1),
    ;
    assert(x * y * z > 0) by (nonlinear_arith)
        requires
            x > 0,
            y > 0,
            z > 0,
    ;
    assert(-(x * y * z) <= (a * y - b * x) * z <= x * y * z) by (nonlinear_arith)
        requires
            0 <= a <= x,
            0 <= b <= y,
            z > 0,
    ;
}

} // verus!
