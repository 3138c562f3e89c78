use vstd::prelude::*;

use crate::kpuzzle::kpuzzle::KPuzzle;

verus! {

/// The packed byte buffer behind a pattern or transformation: exactly the
/// puzzle's total size, partitioned per orbit into a permutation segment
/// and an orientation segment at the puzzle's fixed offsets.
#[derive(Debug)]
pub struct PackedOrbitData {
    pub kpuzzle: KPuzzle,
    pub bytes: Vec<u8>,
}

impl PackedOrbitData {
    /// The buffer belongs to its puzzle and has exactly its size.
    pub open spec fn wf(self) -> bool {
        self.kpuzzle.wf() && self.bytes@.len() == self.kpuzzle.num_bytes_spec()
    }

    /// A fresh all-zero buffer for a puzzle.
    pub fn new_zeroed(kpuzzle: KPuzzle) -> (r: PackedOrbitData)
        requires
            kpuzzle.wf(),
        ensures
            r.wf(),
            r.kpuzzle == kpuzzle,
            r.bytes@.len() == kpuzzle.num_bytes_spec(),
            forall|j: int| 0 <= j < r.bytes@.len() ==> r.bytes@[j] == 0,
    {
        let n = kpuzzle.data.num_bytes;
        let mut bytes: Vec<u8> = Vec::new();
        let mut k: usize = 0;
        while k < n
            invariant
                0 <= k <= n,
                bytes@.len() == k,
                forall|j: int| 0 <= j < k as int ==> bytes@[j] == 0,
            decreases n - k,
        {
            bytes.push(0);
            k = k + 1;
        }
        PackedOrbitData { kpuzzle, bytes }
    }

    pub fn kpuzzle(&self) -> (r: &KPuzzle)
        ensures
            r == &self.kpuzzle,
    {
        &self.kpuzzle
    }

    /// The raw bytes, in the puzzle's fixed layout.
    pub fn byte_slice(&self) -> (r: &[u8])
        ensures
            r@ == self.bytes@,
    {
        self.bytes.as_slice()
    }
}

impl Clone for PackedOrbitData {
    fn clone(&self) -> (r: Self)
        ensures
            r.kpuzzle == self.kpuzzle,
            r.bytes@ == self.bytes@,
    {
        let r = PackedOrbitData { kpuzzle: self.kpuzzle.clone(), bytes: self.bytes.clone() };
        proof {
            assert(r.bytes@ =~= self.bytes@);
        }
        r
    }
}


/// The CityHash64 digest of a byte sequence; the outside function computes
/// it, and it depends on the bytes alone.
pub uninterp spec fn city_hash_64_of(bytes: Seq<u8>) -> u64;

/// Relies on `cityhasher::hash` (CityHash64): a digest computed from the
/// bytes alone, the same in every process.
#[verifier::external_body]
pub(crate) fn city_hash_64(bytes: &[u8]) -> (r: u64)
    ensures
        r == city_hash_64_of(bytes@),
{
    cityhasher::hash(bytes)
}

/// Whether two byte vectors hold the same bytes.
pub(crate) fn byte_vecs_equal(a: &Vec<u8>, b: &Vec<u8>) -> (r: bool)
    ensures
        r == (a@ == b@),
{
    if a.len() != b.len() {
        return false;
    }
    let n = a.len();
    let mut i: usize = 0;
    while i < n
        invariant
            0 <= i <= n,
            n == a@.len(),
            n == b@.len(),
            forall|j: int| 0 <= j < i as int ==> a@[j] == b@[j],
        decreases n - i,
    {
        if a[i] != b[i] {
            return false;
        }
        i = i + 1;
    }
    proof {
        assert(a@ =~= b@);
    }
    true
}

impl PackedOrbitData {
    /// The CityHash64 digest of the buffer.
    pub fn hash(&self) -> (r: u64)
        ensures
            r == city_hash_64_of(self.bytes@),
    {
        city_hash_64(self.bytes.as_slice())
    }
}

} // verus!
