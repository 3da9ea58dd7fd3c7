//! Circular ring lookup: binary-search the sorted ring for the point with the
//! smallest hash not below a target, wrapping to the first point when the
//! target is beyond every point.

use vstd::prelude::*;
use vstd::utf8::encode_utf8;

use crate::chash::HashPointS;
use crate::crc32::{crc32_long_spec, ngx_crc32_long};
use crate::ChashError;

verus! {

/// The hash coordinates of a point sequence, in order.
pub open spec fn ring_hashes(s: Seq<HashPointS>) -> Seq<u32> {
    s.map(|i: int, p: HashPointS| p.hash)
}

/// Non-decreasing hash order, as ring assembly guarantees.
pub open spec fn sorted_by_hash(s: Seq<HashPointS>) -> bool {
    forall|i: int, j: int| 0 <= i < j < s.len() ==> s[i].hash <= s[j].hash
}

/// Index of the first hash not below `target`; the length if every hash is
/// below it.
pub open spec fn successor_index(hashes: Seq<u32>, target: u32) -> int
    decreases hashes.len(),
{
    if hashes.len() == 0 {
        0
    } else if hashes[0] >= target {
        0
    } else {
        1 + successor_index(hashes.drop_first(), target)
    }
}

/// A search that bounded every hash before `i` below `target` and every hash
/// from `i` on at or above it has found exactly `successor_index`.
proof fn lemma_successor_from_scan(hashes: Seq<u32>, target: u32, i: int)
    requires
        0 <= i <= hashes.len(),
        forall|j: int| 0 <= j < i ==> hashes[j] < target,
        forall|j: int| i <= j < hashes.len() ==> hashes[j] >= target,
    ensures
        successor_index(hashes, target) == i,
    decreases hashes.len(),
{
    if hashes.len() > 0 && i > 0 {
        lemma_successor_from_scan(hashes.drop_first(), target, i - 1);
    }
}

/// The index the circular lookup of `target` lands on: the successor index,
/// wrapped to the front when the target is beyond every point.
pub open spec fn resolve_index(s: Seq<HashPointS>, target: u32) -> int {
    successor_index(ring_hashes(s), target) % (s.len() as int)
}

/// Binary-search the sorted ring for the point with the smallest hash not
/// below `hash.hash` (only the hash of the probe point matters), wrapping to
/// the first point when no point qualifies. Fails with `EmptyRing` exactly
/// when the ring has no points.
#[verifier::loop_isolation(false)]
pub fn find_hash_point(hashs: &Vec<HashPointS>, hash: &HashPointS) -> (r: Result<
    HashPointS,
    ChashError,
>)
    requires
        sorted_by_hash(hashs@),
    ensures
        match r {
            Ok(p) => hashs@.len() > 0 && 0 <= resolve_index(hashs@, hash.hash) < hashs@.len()
                && p == hashs@[resolve_index(hashs@, hash.hash)],
            Err(e) => e == ChashError::EmptyRing && hashs@.len() == 0,
        },
{
    let n: usize = hashs.len();
    if n == 0 {
        return Err(ChashError::EmptyRing);
    }
    let target: u32 = hash.hash;
    let mut lo: usize = 0;
    let mut hi: usize = n;
    while lo < hi
        invariant
            0 <= lo <= hi <= n,
            forall|j: int| 0 <= j < lo ==> (#[trigger] hashs@[j]).hash < target,
            forall|j: int| hi <= j < n ==> (#[trigger] hashs@[j]).hash >= target,
        decreases hi - lo,
    {
        let m: usize = lo + (hi - lo) / 2;
        if hashs[m].hash < target {
            lo = m + 1;
        } else {
            hi = m;
        }
    }
    proof {
        assert(forall|j: int|
            0 <= j < lo ==> ring_hashes(hashs@)[j] == (#[trigger] hashs@[j]).hash);
        assert(forall|j: int|
            lo <= j < n ==> ring_hashes(hashs@)[j] == (#[trigger] hashs@[j]).hash);
        lemma_successor_from_scan(ring_hashes(hashs@), target, lo as int);
    }
    let idx: usize = lo % n;
    let p = &hashs[idx];
    Ok(HashPointS { server: p.server.clone(), hash: p.hash })
}

/// Compute the key's checksum over its own bytes (no padding) and resolve it
/// on the ring; the probe point carries the key as its owner tag. Fails with
/// `EmptyRing` exactly when the ring has no points.
pub fn find_server(hashs: &Vec<HashPointS>, server: &String) -> (r: Result<
    HashPointS,
    ChashError,
>)
    requires
        sorted_by_hash(hashs@),
    ensures
        ({
            let key = encode_utf8(server@);
            let idx = resolve_index(hashs@, crc32_long_spec(key, key.len()));
            match r {
                Ok(p) => hashs@.len() > 0 && 0 <= idx < hashs@.len() && p == hashs@[idx],
                Err(e) => e == ChashError::EmptyRing && hashs@.len() == 0,
            }
        }),
{
    let len: usize = server.as_str().as_bytes().len();
    proof {
        assert(len as nat == encode_utf8(server@).len());
    }
    let probe = HashPointS { server: server.clone(), hash: ngx_crc32_long(server, len) };
    find_hash_point(hashs, &probe)
}

/// A ring whose point models are strictly increasing is sorted point for
/// point: every ring the builder returns meets the lookup's precondition.
pub proof fn lemma_built_ring_sorted(s: Seq<HashPointS>)
    requires
        crate::chash::model_strictly_sorted(crate::chash::points_model(s)),
    ensures
        sorted_by_hash(s),
{
    let m = crate::chash::points_model(s);
    assert forall|i: int, j: int| 0 <= i < j < s.len() implies (#[trigger] s[i]).hash <= (
    #[trigger] s[j]).hash by {
        assert(m[i].1 == s[i].hash && m[j].1 == s[j].hash);
        assert(m[i].1 < m[j].1);
    }
}

/// Circularity: a target strictly above every hash on a non-empty ring
/// resolves to the ring's first point.
pub proof fn lemma_lookup_wraps(s: Seq<HashPointS>, target: u32)
    requires
        s.len() > 0,
        forall|j: int| 0 <= j < s.len() ==> (#[trigger] s[j]).hash < target,
    ensures
        resolve_index(s, target) == 0,
{
    assert(forall|j: int|
        0 <= j < s.len() ==> ring_hashes(s)[j] == (#[trigger] s[j]).hash);
    lemma_successor_from_scan(ring_hashes(s), target, s.len() as int);
    let n = s.len() as int;
    assert(n % n == 0) by (nonlinear_arith)
        requires
            n > 0,
    ;
}

} // verus!
