use ::digest::Digest;
use sha2::Sha256;
use vstd::prelude::*;

verus! {

/// A 256-bit digest.
pub type Hash = [u8; 32];

/// The SHA-256 digest of a byte string.
pub uninterp spec fn sha256(data: Seq<u8>) -> Seq<u8>;

/// Calls `Digest::digest` of `sha2::Sha256`, which feeds `data` to a fresh
/// hasher and finalizes it. Trusted: the 32 bytes that come back are the
/// SHA-256 digest of `data`, a function of `data` alone.
#[verifier::external_body]
pub(crate) fn sha256_digest(data: &[u8]) -> (out: Hash)
    ensures
        out@ == sha256(data@),
{
    Sha256::digest(data).into()
}

/// Whether the low `bits` bits of `byte` are all zero.
pub open spec fn low_bits_clear(byte: u8, bits: u8) -> bool {
    byte % (1u8 << bits) == 0
}

/// Whether `digest` ends in at least `difficulty` zero bits: its last
/// `difficulty / 8` bytes are zero, and the byte before them has its low
/// `difficulty % 8` bits clear.
pub open spec fn meets_difficulty(digest: Seq<u8>, difficulty: u8) -> bool {
    let zero_bytes = (difficulty / 8) as int;
    let zero_bits = difficulty % 8;
    &&& forall|i: int| digest.len() - zero_bytes <= i < digest.len() ==> digest[i] == 0
    &&& zero_bits != 0 ==> low_bits_clear(digest[digest.len() - zero_bytes - 1], zero_bits)
}

/// Tests a digest against a difficulty.
pub fn digest_meets_difficulty(digest: &Hash, difficulty: u8) -> (ok: bool)
    ensures
        ok == meets_difficulty(digest@, difficulty),
{
    let zero_bytes: usize = (difficulty / 8) as usize;
    let zero_bits: u8 = difficulty % 8;
    let mut i: usize = 32 - zero_bytes;
    while i < 32
        invariant
            32 - zero_bytes <= i <= 32,
            zero_bytes == difficulty / 8,
            forall|j: int| 32 - zero_bytes <= j < i ==> digest@[j] == 0,
        decreases 32 - i,
    {
        if digest[i] != 0u8 {
            assert(digest@[i as int] != 0);
            return false;
        }
        i += 1;
    }
    if zero_bits != 0 {
        let next_byte: u8 = digest[32 - zero_bytes - 1];
        assert((1u8 << zero_bits) != 0) by (bit_vector)
            requires
                zero_bits < 8,
        ;
        let modulus: u8 = 1u8 << zero_bits;
        if next_byte % modulus != 0 {
            return false;
        }
    }
    true
}

/// A difficulty of zero accepts every digest.
pub proof fn lemma_zero_difficulty_always_met(digest: Seq<u8>)
    ensures
        meets_difficulty(digest, 0),
{
}

/// A digest that meets a difficulty meets every lower one.
pub proof fn lemma_difficulty_monotone(digest: Seq<u8>, low: u8, high: u8)
    requires
        digest.len() == 32,
        low <= high,
        meets_difficulty(digest, high),
    ensures
        meets_difficulty(digest, low),
{
    let hb = (high / 8) as int;
    let lb = (low / 8) as int;
    let hbits = high % 8;
    let lbits = low % 8;
    if lbits != 0 {
        let byte = digest[32 - lb - 1];
        if lb < hb {
            assert(byte == 0);
            assert(0u8 % (1u8 << lbits) == 0) by (bit_vector)
                requires
                    0 < lbits < 8,
            ;
        } else {
            assert(lb == hb);
            assert(lbits <= hbits);
            assert(byte % (1u8 << lbits) == 0) by (bit_vector)
                requires
                    0 < lbits <= hbits,
                    hbits < 8,
                    byte % (1u8 << hbits) == 0,
            ;
        }
    }
}

/// Bit `k` of a digest, counted from its least significant end: bit `k % 8`
/// of the byte that stands `k / 8` places before the end.
pub open spec fn bit_from_end(digest: Seq<u8>, k: int) -> bool {
    (digest[digest.len() - 1 - k / 8] >> ((k % 8) as u8)) & 1u8 == 1u8
}

/// Whether the last `n` bits of a digest are all zero.
pub open spec fn ends_in_zero_bits(digest: Seq<u8>, n: int) -> bool {
    forall|k: int| 0 <= k < n ==> !#[trigger] bit_from_end(digest, k)
}

/// A set bit among the low `n` bits of a byte.
spec fn bit_set(byte: u8, j: u8) -> bool {
    (byte >> j) & 1u8 == 1u8
}

/// The low `n` bits of a byte are clear exactly when none of them is set, and
/// a byte is zero exactly when none of its eight bits is set.
proof fn lemma_low_bits(byte: u8, n: u8)
    requires
        0 < n <= 8,
    ensures
        (forall|j: u8| j < n ==> !#[trigger] bit_set(byte, j)) <==> (if n == 8 {
            byte == 0
        } else {
            low_bits_clear(byte, n)
        }),
{
    if n == 8 {
        if byte == 0 {
            assert forall|j: u8| j < n implies !#[trigger] bit_set(byte, j) by {
                assert((byte >> j) & 1u8 != 1u8) by (bit_vector)
                    requires
                        byte == 0,
                        j < 8,
                ;
            }
        }
        if forall|j: u8| j < n ==> !#[trigger] bit_set(byte, j) {
            assert(!bit_set(byte, 0) && !bit_set(byte, 1) && !bit_set(byte, 2) && !bit_set(
                byte,
                3,
            ));
            assert(!bit_set(byte, 4) && !bit_set(byte, 5) && !bit_set(byte, 6) && !bit_set(
                byte,
                7,
            ));
            assert(byte == 0) by (bit_vector)
                requires
                    (byte >> 0u8) & 1u8 != 1u8,
                    (byte >> 1u8) & 1u8 != 1u8,
                    (byte >> 2u8) & 1u8 != 1u8,
                    (byte >> 3u8) & 1u8 != 1u8,
                    (byte >> 4u8) & 1u8 != 1u8,
                    (byte >> 5u8) & 1u8 != 1u8,
                    (byte >> 6u8) & 1u8 != 1u8,
                    (byte >> 7u8) & 1u8 != 1u8,
            ;
        }
    } else {
        if low_bits_clear(byte, n) {
            assert forall|j: u8| j < n implies !#[trigger] bit_set(byte, j) by {
                assert((byte >> j) & 1u8 != 1u8) by (bit_vector)
                    requires
                        byte % (1u8 << n) == 0,
                        j < n,
                        n < 8,
                ;
            }
        }
        if forall|j: u8| j < n ==> !#[trigger] bit_set(byte, j) {
            assert(0 < n ==> !bit_set(byte, 0));
            assert(1 < n ==> !bit_set(byte, 1));
            assert(2 < n ==> !bit_set(byte, 2));
            assert(3 < n ==> !bit_set(byte, 3));
            assert(4 < n ==> !bit_set(byte, 4));
            assert(5 < n ==> !bit_set(byte, 5));
            assert(6 < n ==> !bit_set(byte, 6));
            assert(byte % (1u8 << n) == 0) by (bit_vector)
                requires
                    0 < n < 8,
                    0 < n ==> (byte >> 0u8) & 1u8 != 1u8,
                    1 < n ==> (byte >> 1u8) & 1u8 != 1u8,
                    2 < n ==> (byte >> 2u8) & 1u8 != 1u8,
                    3 < n ==> (byte >> 3u8) & 1u8 != 1u8,
                    4 < n ==> (byte >> 4u8) & 1u8 != 1u8,
                    5 < n ==> (byte >> 5u8) & 1u8 != 1u8,
                    6 < n ==> (byte >> 6u8) & 1u8 != 1u8,
            ;
        }
    }
}

/// The test on bytes is the test on bits: a digest meets a difficulty exactly
/// when it ends in that many zero bits.
pub proof fn lemma_meets_difficulty_is_zero_bits(digest: Seq<u8>, difficulty: u8)
    requires
        digest.len() == 32,
    ensures
        meets_difficulty(digest, difficulty) <==> ends_in_zero_bits(digest, difficulty as int),
{
    let zero_bytes = (difficulty / 8) as int;
    let zero_bits = difficulty % 8;
    if meets_difficulty(digest, difficulty) {
        assert forall|k: int| 0 <= k < difficulty implies !#[trigger] bit_from_end(digest, k) by {
            let byte = digest[31 - k / 8];
            let j = (k % 8) as u8;
            if k / 8 < zero_bytes {
                assert(byte == 0);
                lemma_low_bits(byte, 8);
            } else {
                assert(k / 8 == zero_bytes && j < zero_bits);
                lemma_low_bits(byte, zero_bits);
            }
            assert(!bit_set(byte, j));
        }
    }
    if ends_in_zero_bits(digest, difficulty as int) {
        assert forall|i: int| 32 - zero_bytes <= i < 32 implies digest[i] == 0 by {
            let byte = digest[i];
            assert forall|j: u8| j < 8 implies !#[trigger] bit_set(byte, j) by {
                let k = 8 * (31 - i) + j;
                assert(k / 8 == 31 - i && k % 8 == j);
                assert(!bit_from_end(digest, k));
            }
            lemma_low_bits(byte, 8);
        }
        if zero_bits != 0 {
            let byte = digest[32 - zero_bytes - 1];
            assert forall|j: u8| j < zero_bits implies !#[trigger] bit_set(byte, j) by {
                let k = 8 * zero_bytes + j;
                assert(k / 8 == zero_bytes && k % 8 == j);
                assert(!bit_from_end(digest, k));
            }
            lemma_low_bits(byte, zero_bits);
        }
    }
}

} // verus!
