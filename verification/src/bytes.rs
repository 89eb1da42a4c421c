//! Byte strings: their integer value, fixed-width big-endian encodings, and
//! small helpers that the encoders of this crate share.
use vstd::prelude::*;

verus! {

/// The unsigned integer that a big-endian byte string encodes (OS2IP).
pub open spec fn be_to_nat(s: Seq<u8>) -> nat
    decreases s.len(),
{
    if s.len() == 0 {
        0
    } else {
        be_to_nat(s.drop_last()) * 256 + s.last() as nat
    }
}

/// The `len`-byte big-endian encoding of `n` modulo `256^len` (I2OSP).
pub open spec fn nat_to_be(n: nat, len: nat) -> Seq<u8>
    decreases len,
{
    if len == 0 {
        seq![]
    } else {
        nat_to_be(n / 256, (len - 1) as nat).push((n % 256) as u8)
    }
}

/// The lower-case hexadecimal digit of `d < 16`.
pub open spec fn hex_digit(d: nat) -> u8 {
    if d < 10 {
        (48 + d) as u8
    } else {
        (87 + d) as u8
    }
}

/// The lower-case hexadecimal form of a byte string, two digits a byte, the
/// high one first.
pub open spec fn hex_lower(s: Seq<u8>) -> Seq<u8>
    decreases s.len(),
{
    if s.len() == 0 {
        seq![]
    } else {
        hex_lower(s.drop_last()) + seq![hex_digit(s.last() as nat / 16), hex_digit(s.last() as nat % 16)]
    }
}

/// `hex::encode`: the lower-case hexadecimal form of `bytes`, as ASCII.
#[verifier::external_body]
pub(crate) fn hex_encode(bytes: &[u8]) -> (r: Vec<u8>)
    ensures
        r@ == hex_lower(bytes@),
{
    hex::encode(bytes).into_bytes()
}

/// Concatenating byte strings of width `w` puts the `i`-th at offset `w i`.
pub proof fn lemma_flatten_fixed(parts: Seq<Seq<u8>>, w: nat)
    requires
        forall|i: int| 0 <= i < parts.len() ==> (#[trigger] parts[i]).len() == w,
    ensures
        flatten(parts).len() == w * parts.len(),
        forall|i: int|
            0 <= i < parts.len() ==> #[trigger] flatten(parts).subrange(w * i, w * i + w) == parts[i],
    decreases parts.len(),
{
    if parts.len() > 0 {
        let init = parts.drop_last();
        lemma_flatten_fixed(init, w);
        let f = flatten(parts);
        let fi = flatten(init);
        assert(f == fi + parts.last());
        assert(w * parts.len() == w * init.len() + w) by (nonlinear_arith)
            requires
                parts.len() == init.len() + 1,
        ;
        assert forall|i: int| 0 <= i < parts.len() implies #[trigger] f.subrange(w * i, w * i + w) == parts[i] by {
            if i < init.len() {
                assert(w * i + w <= w * init.len()) by (nonlinear_arith)
                    requires
                        i < init.len(),
                        0 <= i,
                ;
                assert(w * i >= 0) by (nonlinear_arith)
                    requires
                        i >= 0,
                ;
                assert(f.subrange(w * i, w * i + w) =~= fi.subrange(w * i, w * i + w));
                assert(init[i] == parts[i]);
            } else {
                assert(i == init.len());
                assert(f.subrange(w * i, w * i + w) =~= parts.last());
            }
        }
    }
}

/// Concatenation of a sequence of byte strings.
pub open spec fn flatten(parts: Seq<Seq<u8>>) -> Seq<u8>
    decreases parts.len(),
{
    if parts.len() == 0 {
        seq![]
    } else {
        flatten(parts.drop_last()) + parts.last()
    }
}

pub proof fn lemma_nat_to_be_len(n: nat, len: nat)
    ensures
        nat_to_be(n, len).len() == len,
    decreases len,
{
    if len > 0 {
        lemma_nat_to_be_len(n / 256, (len - 1) as nat);
    }
}

/// Appends `s` to `v`.
pub fn append_bytes(v: &mut Vec<u8>, s: &[u8])
    ensures
        final(v)@ == old(v)@ + s@,
{
    let ghost start = v@;
    let n = s.len();
    for i in 0..n
        invariant
            n == s@.len(),
            v@ == start + s@.subrange(0, i as int),
    {
        v.push(s[i]);
        assert(s@.subrange(0, i + 1) == s@.subrange(0, i as int).push(s@[i as int]));
    }
    assert(s@.subrange(0, n as int) == s@);
}

/// The `len` low-order bytes of `n`, most significant first.
pub fn u64_to_be(n: u64, len: usize) -> (r: Vec<u8>)
    requires
        len <= 8,
    ensures
        r@ == nat_to_be(n as nat, len as nat),
        r@.len() == len,
    decreases len,
{
    if len == 0 {
        Vec::new()
    } else {
        let mut r = u64_to_be(n / 256, len - 1);
        r.push((n % 256) as u8);
        r
    }
}

/// Whether two byte strings are equal.
pub fn bytes_eq(a: &[u8], b: &[u8]) -> (r: bool)
    ensures
        r == (a@ == b@),
{
    if a.len() != b.len() {
        return false;
    }
    let n = a.len();
    for i in 0..n
        invariant
            n == a@.len(),
            n == b@.len(),
            forall|j: int| 0 <= j < i ==> a@[j] == b@[j],
    {
        if a[i] != b[i] {
            return false;
        }
    }
    assert(a@ =~= b@);
    true
}

/// Copies a byte slice into a new vector.
pub fn to_vec(s: &[u8]) -> (r: Vec<u8>)
    ensures
        r@ == s@,
{
    let mut r = Vec::new();
    append_bytes(&mut r, s);
    assert(r@ =~= s@);
    r
}

/// Encoding the value of a byte string on its own length gives it back.
pub proof fn lemma_be_roundtrip(s: Seq<u8>)
    ensures
        nat_to_be(be_to_nat(s), s.len()) == s,
    decreases s.len(),
{
    if s.len() > 0 {
        let q = be_to_nat(s.drop_last());
        let v = be_to_nat(s);
        assert(v / 256 == q && v % 256 == s.last() as nat) by (nonlinear_arith)
            requires
                v == q * 256 + s.last() as nat,
                0 <= s.last() < 256,
        ;
        lemma_be_roundtrip(s.drop_last());
        assert(s =~= s.drop_last().push(s.last()));
    }
}

} // verus!
