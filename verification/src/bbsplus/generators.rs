//! The generators of BBS+: a base point and a list of distinct points of G1
//! derived from a seed by iterated `expand_message` and hash to curve.
use crate::bbsplus::ciphersuites::{
    generator_dst, generator_seed, generator_seed_bp, generator_seed_dst, spec_generator_dst,
    spec_generator_seed, spec_generator_seed_bp, spec_generator_seed_dst, BbsCiphersuite,
    EXPAND_LEN,
};
use crate::bbsplus::keys::BBSplusPublicKey;
use crate::bytes::{append_bytes, hex_encode, hex_lower, nat_to_be, u64_to_be};
use crate::curve::G1Point;
use vstd::prelude::*;

verus! {

/// The base point and the generators of the commitments and messages.
pub struct Generators {
    pub g1_base_point: G1Point,
    pub q1: G1Point,
    pub q2: G1Point,
    pub message_generators: Vec<G1Point>,
}

/// The encodings of a list of points.
pub open spec fn encodings(points: Seq<G1Point>) -> Seq<Seq<u8>> {
    points.map_values(|p: G1Point| p.bytes@)
}

impl Generators {
    pub open spec fn wf(&self) -> bool {
        &&& self.g1_base_point.wf()
        &&& self.q1.wf()
        &&& self.q2.wf()
        &&& forall|i: int| 0 <= i < self.message_generators@.len() ==> #[trigger] self.message_generators@[i].wf()
    }

    /// `Q1`, `Q2` and the message generators, in this order, as encodings.
    pub open spec fn all_generators(&self) -> Seq<Seq<u8>> {
        seq![self.q1.bytes@, self.q2.bytes@] + encodings(self.message_generators@)
    }
}

/// The number of rounds after which the round counter, a `u32` that starts
/// at 1, would overflow.
pub open spec fn max_rounds() -> nat {
    0xffff_fffe
}

/// The chaining value after `k` rounds: each round appends the round number
/// (4 bytes, big-endian) and expands the result again.
pub open spec fn generator_chain<X: BbsCiphersuite>(v0: Seq<u8>, k: nat) -> Seq<u8>
    decreases k,
{
    if k == 0 {
        v0
    } else {
        X::spec_expand_message(
            generator_chain::<X>(v0, (k - 1) as nat) + nat_to_be(k, 4),
            spec_generator_seed_dst::<X>(),
            48,
        )
    }
}

/// The point that round `k` hashes its chaining value to.
pub open spec fn generator_candidate<X: BbsCiphersuite>(v0: Seq<u8>, k: nat) -> Seq<u8> {
    X::spec_hash_to_g1(generator_chain::<X>(v0, k), spec_generator_dst::<X>())
}

/// The distinct candidates of the first `k` rounds, in the order in which
/// they first came: a candidate that was already found is skipped.
pub open spec fn generator_run<X: BbsCiphersuite>(v0: Seq<u8>, k: nat) -> Seq<Seq<u8>>
    decreases k,
{
    if k == 0 {
        seq![]
    } else {
        let prev = generator_run::<X>(v0, (k - 1) as nat);
        let c = generator_candidate::<X>(v0, k);
        if prev.contains(c) {
            prev
        } else {
            prev.push(c)
        }
    }
}

/// The first chaining value: the seed expanded under `GENERATOR_SEED_DST`.
pub open spec fn generator_chain_start<X: BbsCiphersuite>(seed: Seq<u8>) -> Seq<u8> {
    X::spec_expand_message(seed, spec_generator_seed_dst::<X>(), 48)
}

/// The encoding of the base point of the ciphersuite.
pub open spec fn spec_g1_base_point<X: BbsCiphersuite>() -> Seq<u8> {
    let v = X::spec_expand_message(spec_generator_seed_bp::<X>(), spec_generator_seed_dst::<X>(), 48);
    let v2 = X::spec_expand_message(v + nat_to_be(1, 4), spec_generator_seed_dst::<X>(), 48);
    X::spec_hash_to_g1(v2, spec_generator_dst::<X>())
}

/// The number of generators that is made when `len` are asked for: at least 2.
pub open spec fn generator_count(len: nat) -> nat {
    if len < 2 {
        2
    } else {
        len
    }
}

/// The length asked for is kept when it is at least 2; a smaller one
/// becomes 2.
pub proof fn lemma_generator_count(len: nat)
    ensures
        len >= 2 ==> generator_count(len) == len,
        len < 2 ==> generator_count(len) == 2,
        generator_count(len) >= 2,
        generator_count(len) >= len,
{
}

/// The 4-byte big-endian form of `k` modulo `2^32`, byte by byte.
pub open spec fn u32_be_bytes(k: nat) -> Seq<u8> {
    seq![
        ((((k / 256) / 256) / 256) % 256) as u8,
        (((k / 256) / 256) % 256) as u8,
        ((k / 256) % 256) as u8,
        (k % 256) as u8,
    ]
}

/// Round `k` of the chain (from 1) expands the previous chaining value
/// followed by the 4-byte big-endian `k`.
pub proof fn lemma_generator_chain_round<X: BbsCiphersuite>(v0: Seq<u8>, k: nat)
    requires
        k >= 1,
    ensures
        generator_chain::<X>(v0, k) == X::spec_expand_message(
            generator_chain::<X>(v0, (k - 1) as nat) + u32_be_bytes(k),
            spec_generator_seed_dst::<X>(),
            48,
        ),
{
    reveal_with_fuel(nat_to_be, 5);
    assert(nat_to_be(k, 4) =~= u32_be_bytes(k));
}

/// The first chaining value after the seed's expansion `v0` is the
/// expansion of `v0 || 00 00 00 01`.
pub proof fn lemma_generator_chain_first<X: BbsCiphersuite>(v0: Seq<u8>)
    ensures
        generator_chain::<X>(v0, 1) == X::spec_expand_message(
            v0 + seq![0u8, 0u8, 0u8, 1u8],
            spec_generator_seed_dst::<X>(),
            48,
        ),
{
    lemma_generator_chain_round::<X>(v0, 1);
    assert(u32_be_bytes(1) =~= seq![0u8, 0u8, 0u8, 1u8]);
}

/// The base point is the hash to G1 of the expansion of
/// `expand(GENERATOR_SEED_BP) || 00 00 00 01`.
pub proof fn lemma_base_point_round_one<X: BbsCiphersuite>()
    ensures
        spec_g1_base_point::<X>() == X::spec_hash_to_g1(
            X::spec_expand_message(
                X::spec_expand_message(spec_generator_seed_bp::<X>(), spec_generator_seed_dst::<X>(), 48) + seq![
                    0u8,
                    0u8,
                    0u8,
                    1u8,
                ],
                spec_generator_seed_dst::<X>(),
                48,
            ),
            spec_generator_dst::<X>(),
        ),
{
    reveal_with_fuel(nat_to_be, 5);
    assert(nat_to_be(1, 4) =~= seq![0u8, 0u8, 0u8, 1u8]);
}

/// `Q1` is the hash to G1 of the first round's chaining value: the
/// expansion of `v0 || 00 00 00 01`, `v0` being the seed's expansion.
pub proof fn lemma_first_generator<X: BbsCiphersuite>(g: Generators, v0: Seq<u8>, len: nat)
    requires
        generators_made::<X>(g, v0, len),
    ensures
        g.q1.bytes@ == X::spec_hash_to_g1(
            X::spec_expand_message(v0 + seq![0u8, 0u8, 0u8, 1u8], spec_generator_seed_dst::<X>(), 48),
            spec_generator_dst::<X>(),
        ),
{
    let k = choose|k: nat|
        k <= max_rounds() && #[trigger] generator_run::<X>(v0, k).len() == len
            && generator_run::<X>(v0, k) == g.all_generators();
    let all = g.all_generators();
    assert(all[0] == g.q1.bytes@);
    assert(all.len() >= 2);
    assert(k >= 1) by {
        if k == 0 {
            assert(generator_run::<X>(v0, 0).len() == 0);
        }
    }
    assert(generator_run::<X>(v0, 0) =~= Seq::<Seq<u8>>::empty());
    assert(!generator_run::<X>(v0, 0).contains(generator_candidate::<X>(v0, 1)));
    assert(generator_run::<X>(v0, 1) =~= seq![generator_candidate::<X>(v0, 1)]);
    lemma_generator_run_grows::<X>(v0, 1, k);
    assert(generator_run::<X>(v0, k).subrange(0, 1)[0] == generator_run::<X>(v0, k)[0]);
    assert(all[0] == generator_candidate::<X>(v0, 1));
    lemma_generator_chain_first::<X>(v0);
}

/// The chaining value of the first round: the expansion of
/// `v0 || 00 00 00 01`.
pub open spec fn first_round_value<X: BbsCiphersuite>(v0: Seq<u8>) -> Seq<u8> {
    X::spec_expand_message(v0 + seq![0u8, 0u8, 0u8, 1u8], spec_generator_seed_dst::<X>(), 48)
}

/// The chaining value of the second round: the expansion of the first
/// round's value followed by `00 00 00 02`.
pub open spec fn second_round_value<X: BbsCiphersuite>(v0: Seq<u8>) -> Seq<u8> {
    X::spec_expand_message(
        first_round_value::<X>(v0) + seq![0u8, 0u8, 0u8, 2u8],
        spec_generator_seed_dst::<X>(),
        48,
    )
}

/// `Q2` is the hash to G1 of the second round's chaining value, the
/// expansion of (the first round's value `|| 00 00 00 02`), unless that
/// point equals `Q1`.
pub proof fn lemma_second_generator<X: BbsCiphersuite>(g: Generators, v0: Seq<u8>, len: nat)
    requires
        generators_made::<X>(g, v0, len),
        X::spec_hash_to_g1(second_round_value::<X>(v0), spec_generator_dst::<X>())
            != X::spec_hash_to_g1(first_round_value::<X>(v0), spec_generator_dst::<X>()),
    ensures
        g.q2.bytes@ == X::spec_hash_to_g1(second_round_value::<X>(v0), spec_generator_dst::<X>()),
{
    let k = choose|k: nat|
        k <= max_rounds() && #[trigger] generator_run::<X>(v0, k).len() == len
            && generator_run::<X>(v0, k) == g.all_generators();
    let all = g.all_generators();
    assert(all[1] == g.q2.bytes@);
    assert(all.len() >= 2);
    lemma_generator_chain_first::<X>(v0);
    lemma_generator_chain_round::<X>(v0, 2);
    assert(u32_be_bytes(2) =~= seq![0u8, 0u8, 0u8, 2u8]);
    let c1 = generator_candidate::<X>(v0, 1);
    let c2 = generator_candidate::<X>(v0, 2);
    assert(c1 != c2);
    assert(generator_run::<X>(v0, 0) =~= Seq::<Seq<u8>>::empty());
    assert(!generator_run::<X>(v0, 0).contains(c1));
    assert(generator_run::<X>(v0, 1) =~= seq![c1]);
    assert(!generator_run::<X>(v0, 1).contains(c2)) by {
        if generator_run::<X>(v0, 1).contains(c2) {
            let i = choose|i: int| 0 <= i < generator_run::<X>(v0, 1).len() && generator_run::<X>(v0, 1)[i] == c2;
            assert(i == 0);
        }
    }
    assert(generator_run::<X>(v0, 2) =~= seq![c1, c2]);
    assert(k >= 2) by {
        if k < 2 {
            lemma_generator_run_grows::<X>(v0, k, 1);
        }
    }
    lemma_generator_run_grows::<X>(v0, 2, k);
    assert(generator_run::<X>(v0, k).subrange(0, 2)[1] == generator_run::<X>(v0, k)[1]);
    assert(all[1] == c2);
}

/// Every run lists distinct points.
pub proof fn lemma_generator_run_distinct<X: BbsCiphersuite>(v0: Seq<u8>, k: nat)
    ensures
        generator_run::<X>(v0, k).no_duplicates(),
    decreases k,
{
    if k > 0 {
        lemma_generator_run_distinct::<X>(v0, (k - 1) as nat);
    }
}

/// A run only grows, one point at a time, keeping what it had.
pub proof fn lemma_generator_run_grows<X: BbsCiphersuite>(v0: Seq<u8>, j: nat, k: nat)
    requires
        j <= k,
    ensures
        generator_run::<X>(v0, j).len() <= generator_run::<X>(v0, k).len() <= generator_run::<X>(
            v0,
            j,
        ).len() + (k - j),
        generator_run::<X>(v0, j) == generator_run::<X>(v0, k).subrange(
            0,
            generator_run::<X>(v0, j).len() as int,
        ),
    decreases k,
{
    if j < k {
        lemma_generator_run_grows::<X>(v0, j, (k - 1) as nat);
        let a = generator_run::<X>(v0, j);
        let b = generator_run::<X>(v0, (k - 1) as nat);
        let c = generator_run::<X>(v0, k);
        assert(b.subrange(0, a.len() as int) == c.subrange(0, a.len() as int));
    } else {
        assert(generator_run::<X>(v0, k).subrange(0, generator_run::<X>(v0, k).len() as int)
            =~= generator_run::<X>(v0, k));
    }
}

/// Two runs of the same length list the same points: the generators that a
/// seed gives do not depend on which round completed them.
pub proof fn lemma_generator_run_determined<X: BbsCiphersuite>(v0: Seq<u8>, j: nat, k: nat)
    requires
        generator_run::<X>(v0, j).len() == generator_run::<X>(v0, k).len(),
    ensures
        generator_run::<X>(v0, j) == generator_run::<X>(v0, k),
{
    if j <= k {
        lemma_generator_run_grows::<X>(v0, j, k);
        assert(generator_run::<X>(v0, k).subrange(0, generator_run::<X>(v0, k).len() as int)
            =~= generator_run::<X>(v0, k));
    } else {
        lemma_generator_run_grows::<X>(v0, k, j);
        assert(generator_run::<X>(v0, j).subrange(0, generator_run::<X>(v0, j).len() as int)
            =~= generator_run::<X>(v0, j));
    }
}

/// The seed given, or `GENERATOR_SEED`.
pub open spec fn seed_or_default<X: BbsCiphersuite>(seed: Option<&[u8]>) -> Seq<u8> {
    match seed {
        Some(s) => s@,
        None => spec_generator_seed::<X>(),
    }
}

/// `g` holds the base point of the ciphersuite and the `len` points of the
/// first run from `v0` that found that many.
pub open spec fn generators_made<X: BbsCiphersuite>(g: Generators, v0: Seq<u8>, len: nat) -> bool {
    &&& g.wf()
    &&& g.g1_base_point.bytes@ == spec_g1_base_point::<X>()
    &&& g.message_generators@.len() == len - 2
    &&& exists|k: nat|
        k <= max_rounds() && #[trigger] generator_run::<X>(v0, k).len() == len
            && generator_run::<X>(v0, k) == g.all_generators()
}

/// No run from `v0` within the rounds that the counter allows finds `len`
/// points.
pub open spec fn generators_exhausted<X: BbsCiphersuite>(v0: Seq<u8>, len: nat) -> bool {
    forall|k: nat| k <= max_rounds() ==> #[trigger] generator_run::<X>(v0, k).len() < len
}

/// Whether `points` holds a point with encoding `c`.
fn contains_point(points: &Vec<G1Point>, c: &G1Point) -> (r: bool)
    ensures
        r == encodings(points@).contains(c.bytes@),
{
    let n = points.len();
    for i in 0..n
        invariant
            n == points@.len(),
            forall|j: int| 0 <= j < i ==> points@[j].bytes@ != c.bytes@,
    {
        if points[i].equals(c) {
            assert(encodings(points@)[i as int] == c.bytes@);
            return true;
        }
    }
    assert forall|j: int| 0 <= j < encodings(points@).len() implies encodings(points@)[j]
        != c.bytes@ by {
        assert(points@[j].bytes@ != c.bytes@);
    }
    false
}

/// The base point of the ciphersuite: its `GENERATOR_SEED_BP` expanded, the
/// round number 1 appended, expanded again and hashed to G1.
pub fn make_g1_base_point<X: BbsCiphersuite>() -> (r: G1Point)
    ensures
        r.bytes@ == spec_g1_base_point::<X>(),
        r.bytes@ == X::spec_hash_to_g1(
            X::spec_expand_message(
                X::spec_expand_message(spec_generator_seed_bp::<X>(), spec_generator_seed_dst::<X>(), 48) + seq![
                    0u8,
                    0u8,
                    0u8,
                    1u8,
                ],
                spec_generator_seed_dst::<X>(),
                48,
            ),
            spec_generator_dst::<X>(),
        ),
        r.wf(),
{
    proof {
        X::lemma_suite_facts();
        lemma_base_point_round_one::<X>();
    }
    let seed_bp = generator_seed_bp::<X>();
    let seed_dst = generator_seed_dst::<X>();
    let v = X::expand_message(seed_bp.as_slice(), seed_dst.as_slice(), EXPAND_LEN);
    let mut buffer = v;
    let extra = u64_to_be(1, 4);
    append_bytes(&mut buffer, extra.as_slice());
    let v2 = X::expand_message(buffer.as_slice(), seed_dst.as_slice(), EXPAND_LEN);
    let dst = generator_dst::<X>();
    X::hash_to_g1(v2.as_slice(), dst.as_slice())
}

/// Makes the base point and `len` distinct generators from `seed`, or from
/// `GENERATOR_SEED` when there is none. Round `n` (from 1) appends `n` to the
/// chaining value, expands it, and keeps the hash of the result to G1 unless
/// it was found before; the first two points found are `Q1` and `Q2`. Gives
/// `None` when the 32-bit round counter runs out first.
pub fn make_generators<X: BbsCiphersuite>(seed: Option<&[u8]>, len: usize) -> (r: Option<Generators>)
    requires
        len >= 2,
    ensures
        r matches Some(g) ==> generators_made::<X>(g, generator_chain_start::<X>(seed_or_default::<X>(seed)), len as nat),
        r is None ==> generators_exhausted::<X>(generator_chain_start::<X>(seed_or_default::<X>(seed)), len as nat),
        r matches Some(g) ==> g.g1_base_point.bytes@ == X::spec_hash_to_g1(
            X::spec_expand_message(
                X::spec_expand_message(spec_generator_seed_bp::<X>(), spec_generator_seed_dst::<X>(), 48)
                    + seq![0u8, 0u8, 0u8, 1u8],
                spec_generator_seed_dst::<X>(),
                48,
            ),
            spec_generator_dst::<X>(),
        ),
        r matches Some(g) ==> g.q1.bytes@ == X::spec_hash_to_g1(
            X::spec_expand_message(
                X::spec_expand_message(seed_or_default::<X>(seed), spec_generator_seed_dst::<X>(), 48)
                    + seq![0u8, 0u8, 0u8, 1u8],
                spec_generator_seed_dst::<X>(),
                48,
            ),
            spec_generator_dst::<X>(),
        ),
        r matches Some(g) ==> {
            let v1 = X::spec_expand_message(
                X::spec_expand_message(seed_or_default::<X>(seed), spec_generator_seed_dst::<X>(), 48)
                    + seq![0u8, 0u8, 0u8, 1u8],
                spec_generator_seed_dst::<X>(),
                48,
            );
            let c2 = X::spec_hash_to_g1(
                X::spec_expand_message(v1 + seq![0u8, 0u8, 0u8, 2u8], spec_generator_seed_dst::<X>(), 48),
                spec_generator_dst::<X>(),
            );
            c2 != X::spec_hash_to_g1(v1, spec_generator_dst::<X>()) ==> g.q2.bytes@ == c2
        },
{
    proof {
        X::lemma_suite_facts();
    }
    let default_seed = generator_seed::<X>();
    let seed_bytes: &[u8] = match seed {
        Some(s) => s,
        None => default_seed.as_slice(),
    };
    let ghost v0 = generator_chain_start::<X>(seed_bytes@);
    assert(seed_bytes@ == seed_or_default::<X>(seed));
    let base_point = make_g1_base_point::<X>();
    let seed_dst = generator_seed_dst::<X>();
    let dst = generator_dst::<X>();
    let mut generators: Vec<G1Point> = Vec::new();
    let mut v = X::expand_message(seed_bytes, seed_dst.as_slice(), EXPAND_LEN);
    let mut n: u32 = 1;
    while generators.len() < len
        invariant
            1 <= n <= 0xffff_ffffu32,
            len >= 2,
            v0 == generator_chain_start::<X>(seed_bytes@),
            seed_dst@ == spec_generator_seed_dst::<X>(),
            seed_dst@.len() > 0,
            dst@ == spec_generator_dst::<X>(),
            dst@.len() > 0,
            8160 <= X::max_expand_len(),
            v@ == generator_chain::<X>(v0, (n - 1) as nat),
            encodings(generators@) == generator_run::<X>(v0, (n - 1) as nat),
            forall|i: int| 0 <= i < generators@.len() ==> #[trigger] generators@[i].wf(),
            generators@.len() <= len,
        ensures
            encodings(generators@) == generator_run::<X>(v0, (n - 1) as nat),
            generators@.len() == len || (n == 0xffff_ffffu32 && generators@.len() < len),
            forall|i: int| 0 <= i < generators@.len() ==> #[trigger] generators@[i].wf(),
        decreases 0xffff_ffffu32 - n,
    {
        if n == 0xffff_ffffu32 {
            break;
        }
        let counter = u64_to_be(n as u64, 4);
        append_bytes(&mut v, counter.as_slice());
        let buffer = X::expand_message(v.as_slice(), seed_dst.as_slice(), EXPAND_LEN);
        v = buffer;
        let ghost prev = generators@;
        n = n + 1;
        let candidate = X::hash_to_g1(v.as_slice(), dst.as_slice());
        proof {
            assert(candidate.bytes@ == generator_candidate::<X>(v0, (n - 1) as nat));
        }
        if !contains_point(&generators, &candidate) {
            generators.push(candidate);
            assert(encodings(generators@) =~= encodings(prev).push(candidate.bytes@));
        }
    }
    if generators.len() < len {
        proof {
            assert forall|k: nat| k <= max_rounds() implies #[trigger] generator_run::<X>(v0, k).len()
                < len by {
                lemma_generator_run_grows::<X>(v0, k, max_rounds());
            }
        }
        return None;
    }
    let q1 = generators[0].copy();
    let q2 = generators[1].copy();
    let mut message_generators: Vec<G1Point> = Vec::new();
    let mut i: usize = 2;
    while i < len
        invariant
            2 <= i <= len,
            generators@.len() == len,
            message_generators@ == generators@.subrange(2, i as int),
            forall|j: int| 0 <= j < generators@.len() ==> #[trigger] generators@[j].wf(),
        decreases len - i,
    {
        message_generators.push(generators[i].copy());
        assert(generators@.subrange(2, i + 1) == generators@.subrange(2, i as int).push(
            generators@[i as int],
        ));
        i = i + 1;
    }
    let g = Generators { g1_base_point: base_point, q1, q2, message_generators };
    proof {
        assert(g.all_generators() =~= encodings(generators@));
        let k = (n - 1) as nat;
        assert(k <= max_rounds());
        assert(generator_run::<X>(v0, k).len() == len);
        assert(generator_run::<X>(v0, k) == g.all_generators());
        assert(exists|k: nat|
            k <= max_rounds() && #[trigger] generator_run::<X>(v0, k).len() == len
                && generator_run::<X>(v0, k) == g.all_generators());
        lemma_first_generator::<X>(g, v0, len as nat);
        if X::spec_hash_to_g1(second_round_value::<X>(v0), spec_generator_dst::<X>())
            != X::spec_hash_to_g1(first_round_value::<X>(v0), spec_generator_dst::<X>()) {
            lemma_second_generator::<X>(g, v0, len as nat);
        }
    }
    Some(g)
}

/// The generators that one call of `make_generators` makes are pairwise
/// distinct: `Q1`, `Q2` and every message generator differ from each other.
pub proof fn lemma_generators_distinct<X: BbsCiphersuite>(g: Generators, v0: Seq<u8>, len: nat)
    requires
        generators_made::<X>(g, v0, len),
    ensures
        g.all_generators().no_duplicates(),
{
    let k = choose|k: nat|
        k <= max_rounds() && #[trigger] generator_run::<X>(v0, k).len() == len
            && generator_run::<X>(v0, k) == g.all_generators();
    lemma_generator_run_distinct::<X>(v0, k);
}

/// The same seed and count give the same generators, whichever call made
/// them.
pub proof fn lemma_generators_deterministic<X: BbsCiphersuite>(
    g1: Generators,
    g2: Generators,
    v0: Seq<u8>,
    len: nat,
)
    requires
        generators_made::<X>(g1, v0, len),
        generators_made::<X>(g2, v0, len),
    ensures
        g1.all_generators() == g2.all_generators(),
        g1.g1_base_point.bytes@ == g2.g1_base_point.bytes@,
{
    let k1 = choose|k: nat|
        k <= max_rounds() && #[trigger] generator_run::<X>(v0, k).len() == len
            && generator_run::<X>(v0, k) == g1.all_generators();
    let k2 = choose|k: nat|
        k <= max_rounds() && #[trigger] generator_run::<X>(v0, k).len() == len
            && generator_run::<X>(v0, k) == g2.all_generators();
    lemma_generator_run_determined::<X>(v0, k1, k2);
    assert(g1.g1_base_point.bytes@ =~= g2.g1_base_point.bytes@);
}

/// Asking for more generators from the same seed extends the list: the
/// generators of a call for `len1` are the first `len1` of a call for
/// `len2 >= len1`.
pub proof fn lemma_generators_prefix<X: BbsCiphersuite>(
    g1: Generators,
    g2: Generators,
    v0: Seq<u8>,
    len1: nat,
    len2: nat,
)
    requires
        generators_made::<X>(g1, v0, len1),
        generators_made::<X>(g2, v0, len2),
        len1 <= len2,
    ensures
        g1.all_generators() == g2.all_generators().subrange(0, len1 as int),
{
    let k1 = choose|k: nat|
        k <= max_rounds() && #[trigger] generator_run::<X>(v0, k).len() == len1
            && generator_run::<X>(v0, k) == g1.all_generators();
    let k2 = choose|k: nat|
        k <= max_rounds() && #[trigger] generator_run::<X>(v0, k).len() == len2
            && generator_run::<X>(v0, k) == g2.all_generators();
    if k1 <= k2 {
        lemma_generator_run_grows::<X>(v0, k1, k2);
    } else {
        lemma_generator_run_grows::<X>(v0, k2, k1);
        lemma_generator_run_determined::<X>(v0, k1, k2);
        assert(g2.all_generators().subrange(0, len1 as int) =~= g2.all_generators());
    }
}

impl Generators {
    /// Whether every point decodes to a point of G1.
    pub fn is_well_formed(&self) -> (r: bool)
        ensures
            r == self.wf(),
    {
        if !(self.g1_base_point.is_well_formed() && self.q1.is_well_formed() && self.q2.is_well_formed()) {
            return false;
        }
        let n = self.message_generators.len();
        for i in 0..n
            invariant
                n == self.message_generators@.len(),
                forall|j: int| 0 <= j < i ==> #[trigger] self.message_generators@[j].wf(),
        {
            if !self.message_generators[i].is_well_formed() {
                return false;
            }
        }
        true
    }

    /// The hexadecimal forms of the compressed encodings of the base point,
    /// `Q1`, `Q2` and the message generators, in this order: the values that
    /// are printed and serialised.
    pub fn hex_encodings(&self) -> (r: Vec<Vec<u8>>)
        ensures
            r@.len() == 3 + self.message_generators@.len(),
            r@[0]@ == hex_lower(self.g1_base_point.bytes@),
            r@[1]@ == hex_lower(self.q1.bytes@),
            r@[2]@ == hex_lower(self.q2.bytes@),
            forall|i: int|
                0 <= i < self.message_generators@.len() ==> #[trigger] r@[i + 3]@ == hex_lower(
                    self.message_generators@[i].bytes@,
                ),
    {
        let mut r: Vec<Vec<u8>> = Vec::new();
        r.push(hex_encode(self.g1_base_point.bytes.as_slice()));
        r.push(hex_encode(self.q1.bytes.as_slice()));
        r.push(hex_encode(self.q2.bytes.as_slice()));
        let n = self.message_generators.len();
        for i in 0..n
            invariant
                n == self.message_generators@.len(),
                r@.len() == 3 + i,
                r@[0]@ == hex_lower(self.g1_base_point.bytes@),
                r@[1]@ == hex_lower(self.q1.bytes@),
                r@[2]@ == hex_lower(self.q2.bytes@),
                forall|j: int| 0 <= j < i ==> #[trigger] r@[j + 3]@ == hex_lower(self.message_generators@[j].bytes@),
        {
            r.push(hex_encode(self.message_generators[i].bytes.as_slice()));
        }
        r
    }
}

/// Generators for every signer: `make_generators_fn` applied to no seed and
/// to `len`, raised to 2 when it is smaller.
pub fn global_generators<F>(make_generators_fn: F, len: usize) -> (r: Option<Generators>) where
    F: Fn(Option<&[u8]>, usize) -> Option<Generators>,

    requires
        forall|n: usize| n >= 2 ==> #[trigger] make_generators_fn.requires((None::<&[u8]>, n)),
    ensures
        make_generators_fn.ensures((None::<&[u8]>, generator_count(len as nat) as usize), r),
        len >= 2 ==> make_generators_fn.ensures((None::<&[u8]>, len), r),
        len < 2 ==> make_generators_fn.ensures((None::<&[u8]>, 2usize), r),
{
    let mut len = len;
    if len < 2 {
        len = 2;
    }
    make_generators_fn(None, len)
}

/// Generators bound to one signer: `make_generators_fn` applied to the
/// signer's public key as seed and to `len`, raised to 2 when it is smaller.
pub fn signer_specific_generators<F>(pk: &BBSplusPublicKey, make_generators_fn: F, len: usize) -> (r:
    Option<Generators>) where
    F: Fn(Option<&[u8]>, usize) -> Option<Generators>,

    requires
        forall|s: Option<&[u8]>, n: usize| n >= 2 ==> #[trigger] make_generators_fn.requires((s, n)),
    ensures
        exists|s: &[u8]|
            s@ == pk.0.bytes@ && #[trigger] make_generators_fn.ensures(
                (Some(s), generator_count(len as nat) as usize),
                r,
            ),
        len >= 2 ==> exists|s: &[u8]| s@ == pk.0.bytes@ && #[trigger] make_generators_fn.ensures((Some(s), len), r),
        len < 2 ==> exists|s: &[u8]| s@ == pk.0.bytes@ && #[trigger] make_generators_fn.ensures((Some(s), 2usize), r),
{
    let count = if len < 2 {
        2
    } else {
        len
    };
    let pk_bytes = pk.to_bytes();
    let s = pk_bytes.as_slice();
    let r = make_generators_fn(Some(s), count);
    assert(count == generator_count(len as nat) as usize);
    assert(s@ == pk.0.bytes@ && make_generators_fn.ensures((Some(s), count), r));
    if len >= 2 {
        assert(count == len);
    } else {
        assert(count == 2);
    }
    r
}

} // verus!
