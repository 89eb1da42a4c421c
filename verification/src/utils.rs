//! Helpers of the BBS+ proofs: index bookkeeping, hashing to scalars, the
//! domain of a key and generators, and seeded random scalars.
use crate::bbsplus::ciphersuites::{id_with, id_with_suffix, BbsCiphersuite};
use crate::bbsplus::keys::BBSplusPublicKey;
use crate::bbsplus::message::BBSplusMessage;
use crate::bytes::{append_bytes, be_to_nat, nat_to_be, u64_to_be};
use crate::curve::{scalar_from_okm, scalar_modulus, G1Point, Scalar};
use vstd::prelude::*;
use vstd::string::StringSliceAdditionalSpecFns;

verus! {

/// The indexes below `length` that `indexes` does not hold, in increasing
/// order.
pub open spec fn spec_remaining(length: nat, indexes: Seq<usize>) -> Seq<usize>
    decreases length,
{
    if length == 0 {
        seq![]
    } else {
        let prev = spec_remaining((length - 1) as nat, indexes);
        if indexes.contains((length - 1) as usize) {
            prev
        } else {
            prev.push((length - 1) as usize)
        }
    }
}

/// The remaining indexes are increasing, below `length`, outside `indexes`,
/// and hold every such index.
pub proof fn lemma_remaining_shape(length: nat, indexes: Seq<usize>)
    requires
        length <= usize::MAX + 1,
    ensures
        forall|i: int, j: int| 0 <= i < j < spec_remaining(length, indexes).len() ==> spec_remaining(length, indexes)[i] < spec_remaining(length, indexes)[j],
        forall|i: int| 0 <= i < spec_remaining(length, indexes).len() ==> spec_remaining(length, indexes)[i] < length && !indexes.contains(#[trigger] spec_remaining(length, indexes)[i]),
        forall|k: usize| k < length && !indexes.contains(k) ==> spec_remaining(length, indexes).contains(k),
    decreases length,
{
    if length > 0 {
        let n = (length - 1) as nat;
        lemma_remaining_shape(n, indexes);
        let prev = spec_remaining(n, indexes);
        let cur = spec_remaining(length, indexes);
        assert forall|k: usize| k < length && !indexes.contains(k) implies cur.contains(k) by {
            if k == n {
                assert(cur[cur.len() - 1] == k);
            } else {
                let j = choose|j: int| 0 <= j < prev.len() && prev[j] == k;
                assert(cur[j] == k);
            }
        }
    }
}

/// At most `indexes.len()` indexes below `length` are left out.
pub proof fn lemma_remaining_len(length: nat, indexes: Seq<usize>)
    requires
        length <= usize::MAX + 1,
    ensures
        spec_remaining(length, indexes).len() + indexes.len() >= length,
{
    broadcast use vstd::seq_lib::seq_to_set_is_finite;

    let skipped = skipped_indexes(length, indexes);
    lemma_skipped(length, indexes);
    skipped.unique_seq_to_set();
    assert(skipped.to_set().subset_of(indexes.to_set()));
    vstd::set_lib::lemma_len_subset(skipped.to_set(), indexes.to_set());
    indexes.lemma_cardinality_of_set();
}

/// The indexes below `length` that `indexes` holds, in increasing order.
spec fn skipped_indexes(length: nat, indexes: Seq<usize>) -> Seq<usize>
    decreases length,
{
    if length == 0 {
        seq![]
    } else {
        let prev = skipped_indexes((length - 1) as nat, indexes);
        if indexes.contains((length - 1) as usize) {
            prev.push((length - 1) as usize)
        } else {
            prev
        }
    }
}

proof fn lemma_skipped(length: nat, indexes: Seq<usize>)
    requires
        length <= usize::MAX + 1,
    ensures
        skipped_indexes(length, indexes).no_duplicates(),
        forall|i: int| 0 <= i < skipped_indexes(length, indexes).len() ==> #[trigger] skipped_indexes(length, indexes)[i] < length && indexes.contains(skipped_indexes(length, indexes)[i]),
        skipped_indexes(length, indexes).len() + spec_remaining(length, indexes).len() == length,
    decreases length,
{
    if length > 0 {
        let n = (length - 1) as nat;
        lemma_skipped(n, indexes);
        let prev = skipped_indexes(n, indexes);
        let cur = skipped_indexes(length, indexes);
        if indexes.contains(n as usize) {
            assert forall|i: int, j: int| 0 <= i < cur.len() && 0 <= j < cur.len() && i != j implies cur[i] != cur[j] by {
                if i < prev.len() && j < prev.len() {
                } else if i < prev.len() {
                    assert(prev[i] < n);
                } else {
                    assert(prev[j] < n);
                }
            }
        }
    }
}

/// The indexes below `length` that are not in `indexes`, in increasing
/// order.
pub fn get_remaining_indexes(length: usize, indexes: &[usize]) -> (r: Vec<usize>)
    ensures
        r@ == spec_remaining(length as nat, indexes@),
{
    let mut r: Vec<usize> = Vec::new();
    let mut k: usize = 0;
    while k < length
        invariant
            k <= length,
            r@ == spec_remaining(k as nat, indexes@),
        decreases length - k,
    {
        let mut found = false;
        let mut i: usize = 0;
        while i < indexes.len()
            invariant
                i <= indexes@.len(),
                found <==> exists|j: int| 0 <= j < i && indexes@[j] == k,
            decreases indexes@.len() - i,
        {
            if indexes[i] == k {
                found = true;
            }
            i = i + 1;
        }
        if !found {
            r.push(k);
        }
        k = k + 1;
    }
    r
}

/// The messages at the given indexes, in the order of the indexes.
pub fn get_messages(messages: &[BBSplusMessage], indexes: &[usize]) -> (r: Vec<BBSplusMessage>)
    requires
        forall|i: int| 0 <= i < indexes@.len() ==> #[trigger] indexes@[i] < messages@.len(),
    ensures
        r@.len() == indexes@.len(),
        forall|i: int| 0 <= i < indexes@.len() ==> #[trigger] r@[i] == messages@[indexes@[i] as int],
{
    let mut r: Vec<BBSplusMessage> = Vec::new();
    let n = indexes.len();
    for i in 0..n
        invariant
            n == indexes@.len(),
            forall|i: int| 0 <= i < indexes@.len() ==> #[trigger] indexes@[i] < messages@.len(),
            r@.len() == i,
            forall|j: int| 0 <= j < i ==> #[trigger] r@[j] == messages@[indexes@[j] as int],
    {
        let m = &messages[indexes[i]];
        r.push(BBSplusMessage { value: m.value.copy() });
    }
    r
}

/// The scalars that the 48-byte chunks of `bytes` give, each read as a
/// big-endian integer modulo `r`.
pub open spec fn okm_scalars(bytes: Seq<u8>, count: nat) -> Seq<nat> {
    Seq::new(count, |i: int| be_to_nat(bytes.subrange(48 * i, 48 * i + 48)) % scalar_modulus())
}

/// `hash_to_scalar`: `count` scalars from `msg` expanded under `dst`.
pub open spec fn spec_hash_to_scalars<X: BbsCiphersuite>(msg: Seq<u8>, count: nat, dst: Seq<u8>) -> Seq<nat> {
    okm_scalars(X::spec_expand_message(msg, dst, count * 48), count)
}

/// The default tag of `hash_to_scalar`.
pub open spec fn spec_h2s_dst<X: BbsCiphersuite>() -> Seq<u8> {
    id_with::<X>("H2S_".spec_bytes())
}

/// The tag of the seeded random scalars.
pub open spec fn spec_mock_random_dst<X: BbsCiphersuite>() -> Seq<u8> {
    id_with::<X>("MOCK_RANDOM_SCALARS_DST_".spec_bytes())
}

/// The values of a list of scalars.
pub open spec fn scalar_values(s: Seq<Scalar>) -> Seq<nat> {
    s.map_values(|x: Scalar| x.value())
}

/// Reads the 48-byte chunks of `bytes` as scalars.
fn scalars_from_okm(bytes: &Vec<u8>, count: usize) -> (r: Vec<Scalar>)
    requires
        bytes@.len() == count * 48,
        count * 48 <= 65535,
    ensures
        r@.len() == count,
        forall|i: int| 0 <= i < count ==> (#[trigger] r@[i]).wf(),
        scalar_values(r@) == okm_scalars(bytes@, count as nat),
{
    let mut r: Vec<Scalar> = Vec::new();
    for i in 0..count
        invariant
            bytes@.len() == count * 48,
            count * 48 <= 65535,
            r@.len() == i,
            forall|j: int| 0 <= j < i ==> (#[trigger] r@[j]).wf(),
            forall|j: int| 0 <= j < i ==> #[trigger] r@[j].value() == be_to_nat(bytes@.subrange(48 * j, 48 * j + 48)) % scalar_modulus(),
    {
        assert(48 * i + 48 <= 48 * count) by (nonlinear_arith)
            requires
                i < count,
        ;
        let mut okm = [0u8; 48];
        let base = 48 * i;
        let mut j: usize = 0;
        while j < 48
            invariant
                j <= 48,
                base == 48 * i,
                base + 48 <= bytes@.len(),
                bytes@.len() <= 65535,
                forall|t: int| 0 <= t < j ==> okm@[t] == bytes@[base + t],
            decreases 48 - j,
        {
            okm[j] = bytes[base + j];
            j = j + 1;
        }
        assert(okm@ =~= bytes@.subrange(48 * i, 48 * i + 48));
        r.push(scalar_from_okm(&okm));
    }
    assert(scalar_values(r@) =~= okm_scalars(bytes@, count as nat));
    r
}

/// `hash_to_scalar`: expands `msg` under `dst` (by default the identifier
/// followed by `H2S_`) to `count` chunks of 48 bytes and reads each as a
/// scalar.
pub fn hash_to_scalar<X: BbsCiphersuite>(msg_octets: &[u8], count: usize, dst: Option<&[u8]>) -> (r: Vec<Scalar>)
    requires
        0 < count,
        count * 48 <= X::max_expand_len(),
        dst matches Some(d) ==> d@.len() > 0,
    ensures
        r@.len() == count,
        forall|i: int| 0 <= i < count ==> (#[trigger] r@[i]).wf(),
        scalar_values(r@) == spec_hash_to_scalars::<X>(
            msg_octets@,
            count as nat,
            match dst {
                Some(d) => d@,
                None => spec_h2s_dst::<X>(),
            },
        ),
{
    proof {
        X::lemma_suite_facts();
    }
    let default_dst = id_with_suffix::<X>("H2S_");
    let dst: &[u8] = match dst {
        Some(d) => d,
        None => default_dst.as_slice(),
    };
    let uniform_bytes = X::expand_message(msg_octets, dst, count * 48);
    scalars_from_okm(&uniform_bytes, count)
}

/// The bytes that the domain is hashed from: the public key, the number of
/// message generators (8 bytes), `Q1`, `Q2`, the message generators, the
/// ciphersuite identifier, the length of the header (8 bytes), the header.
pub open spec fn domain_input<X: BbsCiphersuite>(
    pk: Seq<u8>,
    q1: Seq<u8>,
    q2: Seq<u8>,
    h_points: Seq<Seq<u8>>,
    header: Seq<u8>,
) -> Seq<u8> {
    pk + nat_to_be(h_points.len(), 8) + q1 + q2 + crate::bytes::flatten(h_points) + X::spec_id()
        + nat_to_be(header.len(), 8) + header
}

/// The domain scalar of a public key, generators and header.
pub open spec fn spec_domain<X: BbsCiphersuite>(
    pk: Seq<u8>,
    q1: Seq<u8>,
    q2: Seq<u8>,
    h_points: Seq<Seq<u8>>,
    header: Seq<u8>,
) -> nat {
    spec_hash_to_scalars::<X>(domain_input::<X>(pk, q1, q2, h_points, header), 1, spec_h2s_dst::<X>())[0]
}

/// The encodings of a list of points.
pub open spec fn point_encodings(points: Seq<G1Point>) -> Seq<Seq<u8>> {
    points.map_values(|p: G1Point| p.bytes@)
}

/// Appends the encodings of `points`, one after the other.
pub fn append_points(v: &mut Vec<u8>, points: &[G1Point])
    ensures
        final(v)@ == old(v)@ + crate::bytes::flatten(point_encodings(points@)),
{
    let ghost start = v@;
    let n = points.len();
    for i in 0..n
        invariant
            n == points@.len(),
            v@ == start + crate::bytes::flatten(point_encodings(points@.subrange(0, i as int))),
    {
        append_bytes(v, &points[i].bytes);
        assert(point_encodings(points@.subrange(0, i + 1)).drop_last() =~= point_encodings(
            points@.subrange(0, i as int),
        ));
    }
    assert(points@.subrange(0, n as int) =~= points@);
}

/// The domain: the hash to a scalar of the public key, the generators, the
/// ciphersuite identifier and the header.
pub fn calculate_domain<X: BbsCiphersuite>(
    pk: &BBSplusPublicKey,
    q1: &G1Point,
    q2: &G1Point,
    h_points: &[G1Point],
    header: Option<&[u8]>,
) -> (r: Scalar)
    requires
        48 <= X::max_expand_len(),
    ensures
        r.wf(),
        r.value() == spec_domain::<X>(
            pk.0.bytes@,
            q1.bytes@,
            q2.bytes@,
            point_encodings(h_points@),
            match header {
                Some(h) => h@,
                None => seq![],
            },
        ),
{
    let empty: Vec<u8> = Vec::new();
    let header: &[u8] = match header {
        Some(h) => h,
        None => empty.as_slice(),
    };
    let mut dom_input = pk.to_bytes();
    let l = u64_to_be(h_points.len() as u64, 8);
    append_bytes(&mut dom_input, l.as_slice());
    append_bytes(&mut dom_input, &q1.bytes);
    append_bytes(&mut dom_input, &q2.bytes);
    append_points(&mut dom_input, h_points);
    let id = X::id();
    append_bytes(&mut dom_input, id.as_slice());
    let header_len = u64_to_be(header.len() as u64, 8);
    append_bytes(&mut dom_input, header_len.as_slice());
    append_bytes(&mut dom_input, header);
    proof {
        assert(dom_input@ =~= domain_input::<X>(
            pk.0.bytes@,
            q1.bytes@,
            q2.bytes@,
            point_encodings(h_points@),
            header@,
        ));
    }
    let scalars = hash_to_scalar::<X>(dom_input.as_slice(), 1, None);
    let r = scalars[0].copy();
    assert(scalar_values(scalars@)[0] == r.value());
    r
}

/// `count` scalars derived from `seed`: the seed expanded under the
/// identifier followed by `MOCK_RANDOM_SCALARS_DST_`, read 48 bytes at a time.
pub fn calculate_random_scalars<X: BbsCiphersuite>(count: usize, seed: &[u8]) -> (r: Vec<Scalar>)
    requires
        0 < count,
        count * 48 <= X::max_expand_len(),
    ensures
        r@.len() == count,
        forall|i: int| 0 <= i < count ==> (#[trigger] r@[i]).wf(),
        scalar_values(r@) == spec_hash_to_scalars::<X>(seed@, count as nat, spec_mock_random_dst::<X>()),
{
    let dst = id_with_suffix::<X>("MOCK_RANDOM_SCALARS_DST_");
    hash_to_scalar::<X>(seed, count, Some(dst.as_slice()))
}

/// Copies a slice of indexes into a new vector.
pub fn to_usize_vec(s: &[usize]) -> (r: Vec<usize>)
    ensures
        r@ == s@,
{
    let mut r: Vec<usize> = Vec::new();
    let n = s.len();
    for i in 0..n
        invariant
            n == s@.len(),
            r@ == s@.subrange(0, i as int),
    {
        r.push(s[i]);
        assert(s@.subrange(0, i + 1) =~= s@.subrange(0, i as int).push(s@[i as int]));
    }
    assert(s@.subrange(0, n as int) =~= s@);
    r
}

} // verus!
