//! The fixed 14-bit chromosome and the codec of its four fields.
use vstd::prelude::*;

verus! {

/// Number of bits in a chromosome.
pub const CHROMOSOME_BITS: u16 = 14;

/// Number of distinct chromosomes (two to the power of the bit count).
pub const CHROMOSOME_SPACE: u16 = 16384;

/// The four fields of a chromosome, in bit order.
#[derive(Clone, Copy, PartialEq, Eq, Structural, Debug)]
pub enum Field {
    /// Bits [0, 2): the protocol type, 0..=2.
    ProtocolType,
    /// Bits [2, 9): the service, 0..=64.
    Service,
    /// Bits [9, 13): the TCP flag, 0..=8.
    TcpFlag,
    /// Bits [13, 14): the outcome label, 0 or 1.
    Outcome,
}

/// A candidate rule: 14 bits, bit 0 being the most significant one.
/// The bits live in the low 14 bits of `bits`, bit `i` at weight `2^(13 - i)`.
#[derive(Clone, Copy, PartialEq, Eq, Structural, Debug, Hash)]
pub struct Chromosome {
    pub bits: u16,
}

/// Largest value of a field's domain.
pub open spec fn field_max(f: Field) -> u16 {
    match f {
        Field::ProtocolType => 2,
        Field::Service => 64,
        Field::TcpFlag => 8,
        Field::Outcome => 1,
    }
}

/// Two to the power of the field's width: the number of values its bits can hold.
pub open spec fn field_modulus(f: Field) -> u16 {
    match f {
        Field::ProtocolType => 4,
        Field::Service => 128,
        Field::TcpFlag => 16,
        Field::Outcome => 2,
    }
}

/// Weight of the field's last bit: two to the power of the number of bits after the field.
pub open spec fn field_scale(f: Field) -> u16 {
    match f {
        Field::ProtocolType => 4096,
        Field::Service => 32,
        Field::TcpFlag => 2,
        Field::Outcome => 1,
    }
}

/// The unsigned integer held by the bits of a field, first bit most significant.
pub open spec fn decode_bits(bits: u16, f: Field) -> u16 {
    ((bits / field_scale(f)) % field_modulus(f)) as u16
}

/// Bit `i` of a chromosome, counted from the most significant of the 14.
pub open spec fn bit_at(bits: u16, i: u16) -> bool {
    (bits >> ((13 - i) as u16)) & 1u16 == 1u16
}

/// The chromosome whose fields hold the four given values.
pub open spec fn compose_bits(p: u16, s: u16, t: u16, o: u16) -> u16 {
    (p * 4096 + s * 32 + t * 2 + o) as u16
}

/// `bits` with field `f` replaced by `v` truncated to the field's width.
pub open spec fn encode_bits(bits: u16, f: Field, v: u16) -> u16 {
    let w = (v % field_modulus(f)) as u16;
    let p = decode_bits(bits, Field::ProtocolType);
    let s = decode_bits(bits, Field::Service);
    let t = decode_bits(bits, Field::TcpFlag);
    let o = decode_bits(bits, Field::Outcome);
    match f {
        Field::ProtocolType => compose_bits(w, s, t, o),
        Field::Service => compose_bits(p, w, t, o),
        Field::TcpFlag => compose_bits(p, s, w, o),
        Field::Outcome => compose_bits(p, s, t, w),
    }
}

/// A field value after range correction: wrapped modulo `max + 1` when it exceeds `max`.
pub open spec fn wrap_value(v: u16, max: u16) -> u16 {
    if v > max {
        (v as int % (max as int + 1)) as u16
    } else {
        v
    }
}

impl Chromosome {
    /// The chromosome uses only its 14 bits.
    pub open spec fn wf(self) -> bool {
        self.bits < 16384
    }

    pub open spec fn field(self, f: Field) -> u16 {
        decode_bits(self.bits, f)
    }

    pub open spec fn bit(self, i: u16) -> bool {
        bit_at(self.bits, i)
    }

    /// Every field lies within its domain.
    pub open spec fn in_range(self) -> bool {
        forall|f: Field| #[trigger] self.field(f) <= field_max(f)
    }
}

/// Composing four in-width values and decoding them back gives the values.
pub proof fn lemma_compose_decode(p: u16, s: u16, t: u16, o: u16)
    requires
        p < 4,
        s < 128,
        t < 16,
        o < 2,
    ensures
        compose_bits(p, s, t, o) < 16384,
        decode_bits(compose_bits(p, s, t, o), Field::ProtocolType) == p,
        decode_bits(compose_bits(p, s, t, o), Field::Service) == s,
        decode_bits(compose_bits(p, s, t, o), Field::TcpFlag) == t,
        decode_bits(compose_bits(p, s, t, o), Field::Outcome) == o,
{
    let b = (p * 4096 + s * 32 + t * 2 + o) as u16;
    assert(b < 16384 && (b / 4096) % 4 == p && (b / 32) % 128 == s && (b / 2) % 16 == t
        && (b / 1) % 2 == o) by (nonlinear_arith)
        requires
            p < 4,
            s < 128,
            t < 16,
            o < 2,
            b == p * 4096 + s * 32 + t * 2 + o,
    ;
}

/// Every chromosome is the composition of its four fields.
pub proof fn lemma_decompose(bits: u16)
    requires
        bits < 16384,
    ensures
        decode_bits(bits, Field::ProtocolType) < 4,
        decode_bits(bits, Field::Service) < 128,
        decode_bits(bits, Field::TcpFlag) < 16,
        decode_bits(bits, Field::Outcome) < 2,
        bits == compose_bits(
            decode_bits(bits, Field::ProtocolType),
            decode_bits(bits, Field::Service),
            decode_bits(bits, Field::TcpFlag),
            decode_bits(bits, Field::Outcome),
        ),
{
    assert(bits == ((bits / 4096) % 4) * 4096 + ((bits / 32) % 128) * 32 + ((bits / 2) % 16) * 2
        + (bits / 1) % 2) by (bit_vector)
        requires
            bits < 16384,
    ;
}

/// Reads field `f` of a chromosome as an unsigned integer.
pub fn decode(c: Chromosome, f: Field) -> (r: u16)
    ensures
        r == c.field(f),
        r < field_modulus(f),
{
    match f {
        Field::ProtocolType => (c.bits / 4096) % 4,
        Field::Service => (c.bits / 32) % 128,
        Field::TcpFlag => (c.bits / 2) % 16,
        Field::Outcome => c.bits % 2,
    }
}

/// Builds the chromosome whose fields hold the given values, each truncated to
/// its field's width.
pub fn compose(p: u16, s: u16, t: u16, o: u16) -> (r: Chromosome)
    ensures
        r.wf(),
        r.bits == compose_bits(p % 4, s % 128, t % 16, o % 2),
        r.field(Field::ProtocolType) == p % 4,
        r.field(Field::Service) == s % 128,
        r.field(Field::TcpFlag) == t % 16,
        r.field(Field::Outcome) == o % 2,
{
    proof {
        lemma_compose_decode(p % 4, s % 128, t % 16, o % 2);
    }
    Chromosome { bits: (p % 4) * 4096 + (s % 128) * 32 + (t % 16) * 2 + o % 2 }
}

/// Writes `v`, truncated to the width of field `f`, into that field.
pub fn encode(c: Chromosome, f: Field, v: u16) -> (r: Chromosome)
    requires
        c.wf(),
    ensures
        r.wf(),
        r.bits == encode_bits(c.bits, f, v),
{
    let p = decode(c, Field::ProtocolType);
    let s = decode(c, Field::Service);
    let t = decode(c, Field::TcpFlag);
    let o = decode(c, Field::Outcome);
    assert(p % 4 == p && s % 128 == s && t % 16 == t && o % 2 == o);
    match f {
        Field::ProtocolType => compose(v, s, t, o),
        Field::Service => compose(p, v, t, o),
        Field::TcpFlag => compose(p, s, v, o),
        Field::Outcome => compose(p, s, t, v),
    }
}

/// Encoding a value into a field and decoding that field gives the value modulo
/// two to the power of the field's width; the other fields are left as they were.
pub proof fn lemma_decode_encode(c: Chromosome, f: Field, v: u16, g: Field)
    requires
        c.wf(),
    ensures
        decode_bits(encode_bits(c.bits, f, v), f) == v % field_modulus(f),
        g != f ==> decode_bits(encode_bits(c.bits, f, v), g) == c.field(g),
{
    lemma_decompose(c.bits);
    let w = (v % field_modulus(f)) as u16;
    let p = c.field(Field::ProtocolType);
    let s = c.field(Field::Service);
    let t = c.field(Field::TcpFlag);
    let o = c.field(Field::Outcome);
    match f {
        Field::ProtocolType => lemma_compose_decode(w, s, t, o),
        Field::Service => lemma_compose_decode(p, w, t, o),
        Field::TcpFlag => lemma_compose_decode(p, s, w, o),
        Field::Outcome => lemma_compose_decode(p, s, t, w),
    }
}


/// A chromosome after range correction.
pub open spec fn corrected(c: Chromosome) -> Chromosome {
    Chromosome {
        bits: compose_bits(
            wrap_value(c.field(Field::ProtocolType), 2),
            wrap_value(c.field(Field::Service), 64),
            wrap_value(c.field(Field::TcpFlag), 8),
            wrap_value(c.field(Field::Outcome), 1),
        ),
    }
}

/// Range correction of one chromosome: every field whose value exceeds the
/// field's maximum is replaced by that value modulo `max + 1`.
pub fn correct(c: Chromosome) -> (r: Chromosome)
    requires
        c.wf(),
    ensures
        r.wf(),
        r == corrected(c),
        forall|f: Field| #[trigger] r.field(f) == wrap_value(c.field(f), field_max(f)),
        r.in_range(),
{
    let p = decode(c, Field::ProtocolType);
    let s = decode(c, Field::Service);
    let t = decode(c, Field::TcpFlag);
    let o = decode(c, Field::Outcome);
    let p2: u16 = if p > 2 { p % 3 } else { p };
    let s2: u16 = if s > 64 { s % 65 } else { s };
    let t2: u16 = if t > 8 { t % 9 } else { t };
    let o2: u16 = if o > 1 { o % 2 } else { o };
    assert(p2 <= 2 && s2 <= 64 && t2 <= 8 && o2 <= 1);
    assert(p2 % 4 == p2 && s2 % 128 == s2 && t2 % 16 == t2 && o2 % 2 == o2);
    let r = compose(p2, s2, t2, o2);
    assert(r.field(Field::ProtocolType) == p2);
    assert(r.field(Field::Service) == s2);
    assert(r.field(Field::TcpFlag) == t2);
    assert(r.field(Field::Outcome) == o2);
    assert forall|f: Field| #[trigger] r.field(f) == wrap_value(c.field(f), field_max(f)) by {
        match f {
            Field::ProtocolType => {},
            Field::Service => {},
            Field::TcpFlag => {},
            Field::Outcome => {},
        }
    }
    assert forall|f: Field| #[trigger] r.field(f) <= field_max(f) by {
        match f {
            Field::ProtocolType => {},
            Field::Service => {},
            Field::TcpFlag => {},
            Field::Outcome => {},
        }
    }
    r
}

/// Range correction leaves an in-range chromosome as it is.
pub proof fn lemma_corrected_in_range(c: Chromosome)
    requires
        c.wf(),
        c.in_range(),
    ensures
        corrected(c) == c,
{
    lemma_decompose(c.bits);
    assert(c.field(Field::ProtocolType) <= field_max(Field::ProtocolType));
    assert(c.field(Field::Service) <= field_max(Field::Service));
    assert(c.field(Field::TcpFlag) <= field_max(Field::TcpFlag));
    assert(c.field(Field::Outcome) <= field_max(Field::Outcome));
}

/// After range correction every field of every chromosome is at most its maximum.
pub proof fn lemma_correct_in_range(c: Chromosome, r: Chromosome, f: Field)
    requires
        c.wf(),
        forall|g: Field| #[trigger] r.field(g) == wrap_value(c.field(g), field_max(g)),
    ensures
        r.field(f) <= field_max(f),
{
    assert(r.field(f) == wrap_value(c.field(f), field_max(f)));
    assert(c.field(f) < field_modulus(f));
    match f {
        Field::ProtocolType => {},
        Field::Service => {},
        Field::TcpFlag => {},
        Field::Outcome => {},
    }
}

/// Flipping bit `pos` changes that bit and no other.
pub proof fn lemma_flip_bit(b: u16, pos: u16, j: u16)
    requires
        b < 16384,
        pos < 14,
        j < 14,
    ensures
        (b ^ (1u16 << ((13 - pos) as u16))) < 16384,
        bit_at(b ^ (1u16 << ((13 - pos) as u16)), j) == (bit_at(b, j) != (j == pos)),
{
    assert((b ^ (1u16 << ((13 - pos) as u16))) < 16384 && (((b ^ (1u16 << ((13 - pos) as u16)))
        >> ((13 - j) as u16)) & 1u16 == 1u16) == ((((b >> ((13 - j) as u16)) & 1u16) == 1u16)
        != (j == pos))) by (bit_vector)
        requires
            b < 16384,
            pos < 14,
            j < 14,
    ;
}

/// The bits with bit `pos` inverted.
pub open spec fn flipped_bits(bits: u16, pos: u16) -> u16 {
    bits ^ (1u16 << ((13 - pos) as u16))
}

/// Inverts bit `pos` and keeps every other bit.
pub fn flip_bit(c: Chromosome, pos: u16) -> (r: Chromosome)
    requires
        c.wf(),
        pos < CHROMOSOME_BITS,
    ensures
        r.wf(),
        r.bits == flipped_bits(c.bits, pos),
        forall|j: u16| j < CHROMOSOME_BITS ==> #[trigger] r.bit(j) == (c.bit(j) != (j == pos)),
{
    let r = Chromosome { bits: c.bits ^ (1u16 << (13 - pos)) };
    proof {
        lemma_flip_bit(c.bits, pos, 0);
    }
    assert forall|j: u16| j < CHROMOSOME_BITS implies #[trigger] r.bit(j) == (c.bit(j) != (j
        == pos)) by {
        lemma_flip_bit(c.bits, pos, j);
    }
    r
}

/// Mask of the bits from `offset` to the end.
pub open spec fn low_mask(offset: u16) -> u16 {
    ((1u16 << ((14 - offset) as u16)) - 1u16) as u16
}

/// Bits of `a` before `offset` followed by bits of `b` from `offset` on.
pub open spec fn splice_bits(a: u16, b: u16, offset: u16) -> u16 {
    (a & !low_mask(offset)) | (b & low_mask(offset))
}

proof fn lemma_splice(a: u16, b: u16, offset: u16, j: u16)
    requires
        a < 16384,
        b < 16384,
        offset <= 14,
        j < 14,
    ensures
        splice_bits(a, b, offset) < 16384,
        bit_at(splice_bits(a, b, offset), j) == if j < offset {
            bit_at(a, j)
        } else {
            bit_at(b, j)
        },
        splice_bits(splice_bits(a, b, offset), splice_bits(b, a, offset), offset) == a,
{
    assert(((a & !low_mask(offset)) | (b & low_mask(offset))) < 16384) by (bit_vector)
        requires
            a < 16384,
            b < 16384,
            offset <= 14,
    ;
    assert(((((a & !low_mask(offset)) | (b & low_mask(offset))) >> ((13 - j) as u16)) & 1u16 == 1u16) == if j
        < offset {
        ((a >> ((13 - j) as u16)) & 1u16) == 1u16
    } else {
        ((b >> ((13 - j) as u16)) & 1u16) == 1u16
    }) by (bit_vector)
        requires
            a < 16384,
            b < 16384,
            offset <= 14,
            j < 14,
    ;
    let x = splice_bits(a, b, offset);
    let y = splice_bits(b, a, offset);
    assert((((a & !low_mask(offset)) | (b & low_mask(offset))) & !low_mask(offset))
        | (((b & !low_mask(offset)) | (a & low_mask(offset))) & low_mask(offset))
        == a) by (bit_vector)
        requires
            a < 16384,
            offset <= 14,
    ;
}

/// Single-point crossover: the two children swap the bits of `a` and `b` from
/// `offset` to the end.
pub fn swap_suffix(a: Chromosome, b: Chromosome, offset: u16) -> (r: (Chromosome, Chromosome))
    requires
        a.wf(),
        b.wf(),
        offset <= CHROMOSOME_BITS,
    ensures
        r.0.wf(),
        r.1.wf(),
        r.0.bits == splice_bits(a.bits, b.bits, offset),
        r.1.bits == splice_bits(b.bits, a.bits, offset),
        forall|j: u16|
            j < CHROMOSOME_BITS ==> #[trigger] r.0.bit(j) == if j < offset {
                a.bit(j)
            } else {
                b.bit(j)
            },
        forall|j: u16|
            j < CHROMOSOME_BITS ==> #[trigger] r.1.bit(j) == if j < offset {
                b.bit(j)
            } else {
                a.bit(j)
            },
{
    assert(1u16 << ((14 - offset) as u16) >= 1) by (bit_vector)
        requires
            offset <= 14,
    ;
    let low: u16 = (1u16 << (14 - offset)) - 1;
    let x = Chromosome { bits: (a.bits & !low) | (b.bits & low) };
    let y = Chromosome { bits: (b.bits & !low) | (a.bits & low) };
    proof {
        lemma_splice(a.bits, b.bits, offset, 0);
        lemma_splice(b.bits, a.bits, offset, 0);
    }
    assert forall|j: u16| j < CHROMOSOME_BITS implies #[trigger] x.bit(j) == if j < offset {
        a.bit(j)
    } else {
        b.bit(j)
    } by {
        lemma_splice(a.bits, b.bits, offset, j);
    }
    assert forall|j: u16| j < CHROMOSOME_BITS implies #[trigger] y.bit(j) == if j < offset {
        b.bit(j)
    } else {
        a.bit(j)
    } by {
        lemma_splice(b.bits, a.bits, offset, j);
    }
    (x, y)
}

/// Crossing the two children over again at the same offset gives back the
/// parents, and at every bit position the children hold the parents' two bits.
pub proof fn lemma_crossover_involution(a: Chromosome, b: Chromosome, offset: u16, j: u16)
    requires
        a.wf(),
        b.wf(),
        offset <= CHROMOSOME_BITS,
        j < CHROMOSOME_BITS,
    ensures
        splice_bits(a.bits, b.bits, offset) < 16384,
        splice_bits(b.bits, a.bits, offset) < 16384,
        splice_bits(splice_bits(a.bits, b.bits, offset), splice_bits(b.bits, a.bits, offset), offset)
            == a.bits,
        splice_bits(splice_bits(b.bits, a.bits, offset), splice_bits(a.bits, b.bits, offset), offset)
            == b.bits,
        (bit_at(splice_bits(a.bits, b.bits, offset), j) == bit_at(a.bits, j) && bit_at(
            splice_bits(b.bits, a.bits, offset),
            j,
        ) == bit_at(b.bits, j)) || (bit_at(splice_bits(a.bits, b.bits, offset), j) == bit_at(
            b.bits,
            j,
        ) && bit_at(splice_bits(b.bits, a.bits, offset), j) == bit_at(a.bits, j)),
{
    lemma_splice(a.bits, b.bits, offset, j);
    lemma_splice(b.bits, a.bits, offset, j);
}

} // verus!
