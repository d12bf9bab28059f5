use vstd::prelude::*;

verus! {

/// Whether square `i` is set in bitboard `b`.
pub open spec fn bit(b: u64, i: int) -> bool {
    (b >> (i as u64)) & 1u64 == 1u64
}

pub proof fn lemma_bit_set(b: u64, s: u64, i: u64)
    requires
        s < 64,
        i < 64,
    ensures
        bit(b | (1u64 << s), i as int) == (bit(b, i as int) || i == s),
{
    assert(((b | (1u64 << s)) >> i) & 1u64 == 1u64 <==> ((b >> i) & 1u64 == 1u64 || i == s))
        by (bit_vector)
        requires
            s < 64,
            i < 64,
    ;
}

pub proof fn lemma_bit_clear(b: u64, s: u64, i: u64)
    requires
        s < 64,
        i < 64,
    ensures
        bit(b & !(1u64 << s), i as int) == (bit(b, i as int) && i != s),
{
    assert(((b & !(1u64 << s)) >> i) & 1u64 == 1u64 <==> ((b >> i) & 1u64 == 1u64 && i != s))
        by (bit_vector)
        requires
            s < 64,
            i < 64,
    ;
}

pub proof fn lemma_bit_or(a: u64, b: u64, i: u64)
    requires
        i < 64,
    ensures
        bit(a | b, i as int) == (bit(a, i as int) || bit(b, i as int)),
{
    assert((((a | b) >> i) & 1u64 == 1u64) <==> ((a >> i) & 1u64 == 1u64 || (b >> i) & 1u64
        == 1u64)) by (bit_vector);
}

pub proof fn lemma_bit_and(a: u64, b: u64, i: u64)
    requires
        i < 64,
    ensures
        bit(a & b, i as int) == (bit(a, i as int) && bit(b, i as int)),
{
    assert((((a & b) >> i) & 1u64 == 1u64) <==> ((a >> i) & 1u64 == 1u64 && (b >> i) & 1u64
        == 1u64)) by (bit_vector);
}

pub proof fn lemma_bit_zero(i: u64)
    requires
        i < 64,
    ensures
        !bit(0u64, i as int),
{
    assert((0u64 >> i) & 1u64 != 1u64) by (bit_vector);
}

proof fn lemma_shr_eq(a: u64, b: u64, k: u64)
    requires
        k < 64,
        forall|i: int| 0 <= i < 64 ==> bit(a, i) == bit(b, i),
    ensures
        a >> k == b >> k,
    decreases 64 - k,
{
    assert(bit(a, k as int) == bit(b, k as int));
    if k == 63 {
        assert(a >> k == b >> k) by (bit_vector)
            requires
                k == 63,
                ((a >> k) & 1u64 == 1u64) == ((b >> k) & 1u64 == 1u64),
        ;
    } else {
        lemma_shr_eq(a, b, (k + 1) as u64);
        let k1 = (k + 1) as u64;
        assert(a >> k == b >> k) by (bit_vector)
            requires
                k < 63,
                k1 == k + 1,
                a >> k1 == b >> k1,
                ((a >> k) & 1u64 == 1u64) == ((b >> k) & 1u64 == 1u64),
        ;
    }
}

/// Two bitboards with the same squares set are the same number.
pub proof fn lemma_bits_eq(a: u64, b: u64)
    requires
        forall|i: int| 0 <= i < 64 ==> bit(a, i) == bit(b, i),
    ensures
        a == b,
{
    lemma_shr_eq(a, b, 0);
    assert(a >> 0u64 == a) by (bit_vector);
    assert(b >> 0u64 == b) by (bit_vector);
}

/// A bitboard with no square set is zero.
pub proof fn lemma_bits_zero(a: u64)
    requires
        forall|i: int| 0 <= i < 64 ==> !bit(a, i),
    ensures
        a == 0,
{
    assert forall|i: int| 0 <= i < 64 implies bit(a, i) == bit(0u64, i) by {
        lemma_bit_zero(i as u64);
    }
    lemma_bits_eq(a, 0u64);
}

/// Two bitboards intersect exactly when some square is set in both.
pub proof fn lemma_and_nonzero(a: u64, b: u64)
    ensures
        (a & b != 0) == exists|t: int| 0 <= t < 64 && #[trigger] bit(a, t) && bit(b, t),
{
    if exists|t: int| 0 <= t < 64 && #[trigger] bit(a, t) && bit(b, t) {
        let t = choose|t: int| 0 <= t < 64 && #[trigger] bit(a, t) && bit(b, t);
        lemma_bit_and(a, b, t as u64);
        if a & b == 0 {
            lemma_bit_zero(t as u64);
        }
    } else {
        assert forall|t: int| 0 <= t < 64 implies !bit(a & b, t) by {
            lemma_bit_and(a, b, t as u64);
        }
        lemma_bits_zero(a & b);
    }
}

} // verus!
