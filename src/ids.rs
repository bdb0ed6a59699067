use vstd::prelude::*;
use vstd::relations::injective_on;
use vstd::set_lib::{lemma_int_range, lemma_len_subset, lemma_map_size, set_int_range};

verus! {

/// The bits that a version-4 (random) UUID fixes: the version nibble and
/// the two variant bits.
pub const V4_MASK: u128 = 0xF000_C000_0000_0000_0000u128;

/// The values of the fixed bits in a version-4 UUID.
pub const V4_BITS: u128 = 0x4000_8000_0000_0000_0000u128;

/// An identifier, as the 128-bit big-endian value of a UUID, is a
/// version-4 UUID.
pub open spec fn is_v4(id: u128) -> bool {
    id & V4_MASK == V4_BITS
}

/// Relies on uuid::Uuid::new_v4 and Uuid::as_u128: a random UUID whose
/// version and variant bits are set for version 4.
#[verifier::external_body]
fn random_v4() -> (r: u128)
    ensures
        is_v4(r),
{
    uuid::Uuid::new_v4().as_u128()
}

/// Whether `id` has the version and variant bits of a version-4 UUID.
pub fn is_v4_value(id: u128) -> (r: bool)
    ensures
        r == is_v4(id),
{
    id & V4_MASK == V4_BITS
}

/// A new random version-4 identifier.
pub fn new_id() -> (r: u128)
    ensures
        is_v4(r),
{
    random_v4()
}

/// The random bits of a version-4 UUID below the variant bits.
pub const LOW_BITS: u128 = 0x3FFF_FFFF_FFFF_FFFFu128;

/// The offset of the `k`-th candidate id: the low 62 bits of `k` in bits
/// 0..62 and its top two bits in bits 64..66, all random bits of a
/// version-4 UUID.
pub open spec fn spread(k: u64) -> u128 {
    ((k as u128) & LOW_BITS) | (((k as u128) >> 62u128) << 64u128)
}

/// The `k`-th candidate id derived from the random draw `drawn`.
pub open spec fn candidate(drawn: u128, k: u64) -> u128 {
    drawn ^ spread(k)
}

proof fn lemma_candidate(drawn: u128, j: u64, k: u64)
    ensures
        is_v4(drawn) ==> is_v4(candidate(drawn, k)),
        candidate(drawn, j) == candidate(drawn, k) ==> j == k,
        candidate(drawn, 0) == drawn,
{
    let sj = spread(j);
    let sk = spread(k);
    assert(sk & V4_MASK == 0) by (bit_vector)
        requires
            sk == ((k as u128) & 0x3FFF_FFFF_FFFF_FFFFu128) | (((k as u128) >> 62u128) << 64u128),
    ;
    assert(is_v4(drawn) ==> is_v4(drawn ^ sk)) by (bit_vector)
        requires
            sk & 0xF000_C000_0000_0000_0000u128 == 0,
    ;
    assert(sj == sk ==> j == k) by (bit_vector)
        requires
            sj == ((j as u128) & 0x3FFF_FFFF_FFFF_FFFFu128) | (((j as u128) >> 62u128) << 64u128),
            sk == ((k as u128) & 0x3FFF_FFFF_FFFF_FFFFu128) | (((k as u128) >> 62u128) << 64u128),
    ;
    assert(drawn ^ sj == drawn ^ sk ==> sj == sk) by (bit_vector);
    let s0 = spread(0u64);
    assert(s0 == 0) by (bit_vector)
        requires
            s0 == ((0u64 as u128) & 0x3FFF_FFFF_FFFF_FFFFu128) | (((0u64 as u128) >> 62u128) << 64u128),
    ;
    assert(drawn ^ 0u128 == drawn) by (bit_vector);
}

/// Where the first `m` candidates of a draw all stand in `ids`, `ids` has
/// at least `m` elements: the candidates are distinct.
proof fn lemma_candidates_fit(ids: Seq<u128>, drawn: u128, m: int)
    requires
        0 <= m <= u64::MAX as int + 1,
        forall|j: int| 0 <= j < m ==> ids.contains(#[trigger] candidate(drawn, j as u64)),
    ensures
        m <= ids.len(),
{
    let a = set_int_range(0, m);
    let f = |j: int| candidate(drawn, j as u64);
    lemma_int_range(0, m);
    assert(injective_on(f, a)) by {
        assert forall|x1: int, x2: int| a.contains(x1) && a.contains(x2) && #[trigger] f(x1) == #[trigger] f(x2) implies x1 == x2 by {
            lemma_candidate(drawn, x1 as u64, x2 as u64);
        }
    }
    let b = a.map(f);
    lemma_map_size(a, b, f);
    let held = ids.to_set();
    assert(b.subset_of(held)) by {
        assert forall|v: u128| b.contains(v) implies held.contains(v) by {
            let j = choose|j: int| a.contains(j) && f(j) == v;
            assert(ids.contains(candidate(drawn, j as u64)));
        }
    }
    ids.lemma_cardinality_of_set();
    lemma_len_subset(b, held);
}

fn spread_of(k: u64) -> (r: u128)
    ensures
        r == spread(k),
{
    ((k as u128) & LOW_BITS) | (((k as u128) >> 62u128) << 64u128)
}

fn holds(ids: &Vec<u128>, id: u128) -> (r: bool)
    ensures
        r == ids@.contains(id),
{
    let mut i: usize = 0;
    while i < ids.len()
        invariant
            i <= ids@.len(),
            forall|j: int| 0 <= j < i ==> ids@[j] != id,
        decreases ids.len() - i,
    {
        if ids[i] == id {
            assert(ids@[i as int] == id);
            return true;
        }
        i = i + 1;
    }
    false
}

/// A new random version-4 identifier that is none of `ids`.
///
/// The random draw is kept where it is unused; otherwise the first unused
/// of its candidates, which differ from it in random bits only, is taken.
pub fn unused_id(ids: &Vec<u128>) -> (r: u128)
    ensures
        is_v4(r),
        !ids@.contains(r),
{
    let drawn = random_v4();
    let mut k: usize = 0;
    loop
        invariant
            is_v4(drawn),
            k <= ids@.len(),
            forall|j: int| 0 <= j < k ==> ids@.contains(#[trigger] candidate(drawn, j as u64)),
        decreases ids@.len() - k,
    {
        let c = drawn ^ spread_of(k as u64);
        proof {
            lemma_candidate(drawn, k as u64, k as u64);
        }
        if !holds(ids, c) {
            return c;
        }
        proof {
            assert forall|j: int| 0 <= j < k + 1 implies ids@.contains(#[trigger] candidate(drawn, j as u64)) by {
                if j == k as int {
                    assert(candidate(drawn, k as u64) == c);
                }
            }
            lemma_candidates_fit(ids@, drawn, k + 1);
            assert(ids@.len() == ids.len());
        }
        k = k + 1;
    }
}

} // verus!
