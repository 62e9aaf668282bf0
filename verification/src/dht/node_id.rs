//! Node identifiers of the DHT and the XOR metric on them.

use vstd::prelude::*;
use vstd::std_specs::bits::u8_leading_zeros;
use crate::crypto::sha::{sha256, sha256_digest};
use crate::protocol::wire::push_all;
use crate::cli::{hex_encode, hex_text};

verus! {

#[derive(Clone, Copy, PartialEq, Eq, Hash)]
pub struct NodeID {
    pub id: [u8; 32],
}

/// Byte-wise XOR of two 32-byte identifiers.
pub open spec fn xor_distance(a: Seq<u8>, b: Seq<u8>) -> Seq<u8> {
    Seq::new(32, |i: int| a[i] ^ b[i])
}

/// Index of the first set bit of `d` at or after byte `i`, counting from the
/// most significant bit of `d[0]`.
pub open spec fn first_set_bit_from(d: Seq<u8>, i: nat) -> Option<int>
    decreases 32 - i,
{
    if i >= 32 {
        None
    } else if d[i as int] != 0 {
        Some(i * 8 + u8_leading_zeros(d[i as int]))
    } else {
        first_set_bit_from(d, i + 1)
    }
}

/// Length of the common bit prefix of two IDs; `None` when they are equal.
pub open spec fn common_prefix_bits(a: Seq<u8>, b: Seq<u8>) -> Option<int> {
    first_set_bit_from(xor_distance(a, b), 0)
}

proof fn lemma_first_set_bit_range(d: Seq<u8>, i: nat)
    ensures
        first_set_bit_from(d, i) matches Some(n) ==> 0 <= n < 256,
    decreases 32 - i,
{
    if i < 32 {
        if d[i as int] != 0 {
            vstd::std_specs::bits::axiom_u8_leading_zeros(d[i as int]);
        } else {
            lemma_first_set_bit_range(d, i + 1);
        }
    }
}

/// A common prefix of two distinct IDs is shorter than 256 bits.
pub proof fn lemma_common_prefix_range(a: Seq<u8>, b: Seq<u8>)
    ensures
        common_prefix_bits(a, b) matches Some(n) ==> 0 <= n < 256,
{
    lemma_first_set_bit_range(xor_distance(a, b), 0);
}

impl NodeID {
    /// Whether two IDs hold the same bytes.
    pub fn same_as(&self, other: &NodeID) -> (r: bool)
        ensures
            r == (self.id@ == other.id@),
    {
        let mut i: usize = 0;
        while i < 32
            invariant
                i <= 32,
                forall|k: int| 0 <= k < i ==> self.id@[k] == other.id@[k],
            decreases 32 - i,
        {
            if self.id[i] != other.id[i] {
                return false;
            }
            i = i + 1;
        }
        assert(self.id@ =~= other.id@);
        true
    }

    pub fn from_pubkey(pubkey: &[u8; 32]) -> (r: Self)
        ensures
            r.id@ == sha256_digest(pubkey@ + seq![100u8, 104, 116, 95, 110, 111, 100, 101, 95, 105, 100]),
    {
        let mut data: Vec<u8> = Vec::new();
        push_all(&mut data, pubkey.as_slice());
        let suffix: [u8; 11] = [100u8, 104, 116, 95, 110, 111, 100, 101, 95, 105, 100];
        push_all(&mut data, suffix.as_slice());
        assert(data@ =~= pubkey@ + seq![100u8, 104, 116, 95, 110, 111, 100, 101, 95, 105, 100]);
        NodeID { id: sha256(data.as_slice()) }
    }

    /// The ID as lowercase hex text.
    pub fn to_hex(&self) -> (r: String)
        ensures
            r@ == hex_text(self.id@),
    {
        hex_encode(self.id.as_slice())
    }

    /// XOR distance in the Kademlia keyspace.
    pub fn distance(&self, other: &NodeID) -> (r: [u8; 32])
        ensures
            r@ == xor_distance(self.id@, other.id@),
    {
        let mut dist = [0u8; 32];
        let mut i: usize = 0;
        while i < 32
            invariant
                i <= 32,
                dist@.len() == 32,
                forall|k: int| 0 <= k < i ==> dist@[k] == self.id@[k] ^ other.id@[k],
            decreases 32 - i,
        {
            dist[i] = self.id[i] ^ other.id[i];
            i = i + 1;
        }
        assert(dist@ =~= xor_distance(self.id@, other.id@));
        dist
    }

    /// Index of the first differing bit (0 is the most significant bit of
    /// `id[0]`); `None` when the two IDs are identical.
    pub fn leading_zero_bits(&self, other: &NodeID) -> (r: Option<usize>)
        ensures
            r is None <==> self.id@ == other.id@,
            match r {
                None => common_prefix_bits(self.id@, other.id@) is None,
                Some(n) => common_prefix_bits(self.id@, other.id@) == Some(n as int),
            },
            r matches Some(n) ==> exists|i: int|
                0 <= i < 32 && #[trigger] xor_distance(self.id@, other.id@)[i] != 0
                && (forall|j: int| 0 <= j < i ==> xor_distance(self.id@, other.id@)[j] == 0)
                && n == i * 8 + u8_leading_zeros(xor_distance(self.id@, other.id@)[i]),
            r matches Some(n) ==> n < 256,
    {
        let dist = self.distance(other);
        let mut i: usize = 0;
        while i < 32
            invariant
                i <= 32,
                dist@ == xor_distance(self.id@, other.id@),
                forall|j: int| 0 <= j < i ==> dist@[j] == 0,
                common_prefix_bits(self.id@, other.id@) == first_set_bit_from(dist@, i as nat),
            decreases 32 - i,
        {
            let byte = dist[i];
            if byte != 0 {
                proof {
                    vstd::std_specs::bits::axiom_u8_leading_zeros(byte);
                    let x = self.id@[i as int];
                    let y = other.id@[i as int];
                    assert(x ^ y != 0 ==> x != y) by (bit_vector);
                }
                return Some(i * 8 + byte.leading_zeros() as usize);
            }
            i = i + 1;
        }
        proof {
            assert forall|k: int| 0 <= k < 32 implies self.id@[k] == other.id@[k] by {
                let x = self.id@[k];
                let y = other.id@[k];
                assert(dist@[k] == x ^ y);
                assert(x ^ y == 0 ==> x == y) by (bit_vector);
            }
            assert(self.id@ =~= other.id@);
        }
        None
    }
}

/// The XOR metric is symmetric, and an ID is at distance zero exactly from itself.
pub proof fn lemma_distance_symmetric_and_zero(a: NodeID, b: NodeID)
    ensures
        xor_distance(a.id@, b.id@) == xor_distance(b.id@, a.id@),
        (xor_distance(a.id@, b.id@) == Seq::new(32, |i: int| 0u8)) == (a.id@ == b.id@),
{
    assert forall|k: int| 0 <= k < 32 implies #[trigger] xor_distance(a.id@, b.id@)[k]
        == xor_distance(b.id@, a.id@)[k] by {
        let x = a.id@[k];
        let y = b.id@[k];
        assert(x ^ y == y ^ x) by (bit_vector);
    }
    assert(xor_distance(a.id@, b.id@) =~= xor_distance(b.id@, a.id@));
    if a.id@ == b.id@ {
        assert forall|k: int| 0 <= k < 32 implies #[trigger] xor_distance(a.id@, b.id@)[k] == 0 by {
            let x = a.id@[k];
            assert(x ^ x == 0) by (bit_vector);
        }
        assert(xor_distance(a.id@, b.id@) =~= Seq::new(32, |i: int| 0u8));
    }
    if xor_distance(a.id@, b.id@) == Seq::new(32, |i: int| 0u8) {
        assert forall|k: int| 0 <= k < 32 implies a.id@[k] == b.id@[k] by {
            let x = a.id@[k];
            let y = b.id@[k];
            assert(xor_distance(a.id@, b.id@)[k] == 0);
            assert(x ^ y == 0 ==> x == y) by (bit_vector);
        }
        assert(a.id@ =~= b.id@);
    }
}

} // verus!
