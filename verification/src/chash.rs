//! Ring-point generation and ring assembly: every server contributes
//! `CHASH_FACTOR * weight` points derived by repeated re-hashing of a seed
//! built from its address; the points of all servers are sorted by hash and
//! exact duplicates collapsed to the first occurrence.

use vstd::prelude::*;
use vstd::slice::slice_subrange;
use vstd::utf8::encode_utf8;

use crate::crc32::{
    crc32_final_spec, crc32_update_spec, hash_le_bytes, ngx_crc32_final, ngx_crc32_prev,
    ngx_crc32_update, CRC32_INIT,
};
use crate::peer::ServerS;
use crate::ChashError;

verus! {

/// Ring points contributed per unit of weight.
pub const CHASH_FACTOR: u32 = 160;

/// Advisory retry bound for caller-side selection policies; not consumed here.
pub const MAX_RETRIES: u32 = 20;

/// One position on the hash ring: the owning server's address and the
/// 32-bit ring coordinate.
#[derive(Debug)]
pub struct HashPointS {
    pub server: String,
    pub hash: u32,
}

/// The mathematical image of a ring point: the owner's characters and the hash.
pub open spec fn points_model(s: Seq<HashPointS>) -> Seq<(Seq<char>, u32)> {
    s.map(|i: int, p: HashPointS| (p.server@, p.hash))
}

/// Position of the first colon byte in `bytes`; `bytes.len()` if there is none.
pub open spec fn colon_pos(bytes: Seq<u8>) -> int
    decreases bytes.len(),
{
    if bytes.len() == 0 {
        0
    } else if bytes[0] == 58u8 {
        0
    } else {
        1 + colon_pos(bytes.drop_first())
    }
}

/// Whether `bytes` holds a colon separator at all.
pub open spec fn has_colon(bytes: Seq<u8>) -> bool {
    colon_pos(bytes) < bytes.len()
}

/// A scan that saw no colon before `i`, and a colon at `i` unless `i` is the
/// length, has found exactly `colon_pos`.
proof fn lemma_colon_pos_from_scan(bytes: Seq<u8>, i: int)
    requires
        0 <= i <= bytes.len(),
        forall|j: int| 0 <= j < i ==> bytes[j] != 58u8,
        i < bytes.len() ==> bytes[i] == 58u8,
    ensures
        colon_pos(bytes) == i,
    decreases bytes.len(),
{
    if bytes.len() > 0 && i > 0 {
        assert(bytes[0] != 58u8);
        lemma_colon_pos_from_scan(bytes.drop_first(), i - 1);
    }
}

/// The per-server seed: fold in the host bytes, one zero byte (the null
/// terminator nginx hashes between host and port), then the port bytes.
pub open spec fn chash_seed(host: Seq<u8>, port: Seq<u8>) -> u32 {
    crc32_update_spec(
        crc32_update_spec(crc32_update_spec(CRC32_INIT, host, host.len()), Seq::<u8>::empty(), 1),
        port,
        port.len(),
    )
}

/// Seed of a full `host:port` address byte string, split at its first colon.
pub open spec fn addr_seed(bytes: Seq<u8>) -> u32 {
    chash_seed(bytes.take(colon_pos(bytes)), bytes.skip(colon_pos(bytes) + 1))
}

/// Hash of ring point number `k` of a server with the given seed: fold the
/// four bytes of the previous point's hash (all zero for the first point)
/// into the seed and finalize.
pub open spec fn point_hash(seed: u32, k: nat) -> u32
    decreases k,
{
    if k == 0 {
        crc32_final_spec(crc32_update_spec(seed, seq![0u8, 0u8, 0u8, 0u8], 4))
    } else {
        crc32_final_spec(
            crc32_update_spec(seed, hash_le_bytes(point_hash(seed, (k - 1) as nat)), 4),
        )
    }
}

/// The point models one server with address `addr` and weight `weight`
/// contributes, in generation order.
pub open spec fn server_points(addr: Seq<char>, weight: u32) -> Seq<(Seq<char>, u32)> {
    Seq::new(
        (CHASH_FACTOR * weight) as nat,
        |k: int| (addr, point_hash(addr_seed(encode_utf8(addr)), k as nat)),
    )
}

/// Generate the ring points of one server: split `server` at its first `:`
/// into host and port, derive the seed, then emit `CHASH_FACTOR * weight`
/// points by re-hashing the previous point's bytes. Fails with
/// `InvalidAddress` exactly when the address holds no colon.
#[verifier::loop_isolation(false)]
pub fn ngx_chash(server: &String, weight: u32) -> (r: Result<Vec<HashPointS>, ChashError>)
    requires
        CHASH_FACTOR * weight <= u32::MAX,
    ensures
        match r {
            Ok(points) => has_colon(encode_utf8(server@)) && points_model(points@)
                == server_points(server@, weight),
            Err(e) => e == ChashError::InvalidAddress && !has_colon(encode_utf8(server@)),
        },
{
    let bs: &[u8] = server.as_str().as_bytes();
    let n: usize = bs.len();

    let mut mid: usize = 0;
    while mid < n && bs[mid] != 58u8
        invariant
            0 <= mid <= n,
            forall|j: int| 0 <= j < mid ==> bs@[j] != 58u8,
        decreases n - mid,
    {
        mid += 1;
    }
    proof {
        lemma_colon_pos_from_scan(bs@, mid as int);
    }
    if mid == n {
        return Err(ChashError::InvalidAddress);
    }

    let host: &[u8] = slice_subrange(bs, 0, mid);
    let port: &[u8] = slice_subrange(bs, mid + 1, n);
    let mut seed: u32 = CRC32_INIT;
    seed = ngx_crc32_update(seed, host, host.len());
    seed = ngx_crc32_update(seed, slice_subrange(bs, 0, 0), 1);
    seed = ngx_crc32_update(seed, port, port.len());
    proof {
        assert(bs@.subrange(0, 0) =~= Seq::<u8>::empty());
        assert(seed == addr_seed(bs@));
    }

    let count: usize = (CHASH_FACTOR * weight) as usize;
    let mut points: Vec<HashPointS> = Vec::new();
    let mut prev: Vec<u8> = vec![0u8, 0u8, 0u8, 0u8];
    for k in 0..count
        invariant
            points@.len() == k,
            forall|t: int|
                0 <= t < k ==> (#[trigger] points@[t]).hash == point_hash(addr_seed(bs@), t as nat)
                    && points@[t].server@ == server@,
            prev@ == if k == 0 {
                seq![0u8, 0u8, 0u8, 0u8]
            } else {
                hash_le_bytes(point_hash(addr_seed(bs@), (k - 1) as nat))
            },
            seed == addr_seed(bs@),
    {
        let h: u32 = ngx_crc32_final(ngx_crc32_update(seed, prev.as_slice(), 4));
        proof {
            assert(h == point_hash(addr_seed(bs@), k as nat));
        }
        points.push(HashPointS { server: server.clone(), hash: h });
        prev = ngx_crc32_prev(h);
    }
    proof {
        assert(points_model(points@) =~= server_points(server@, weight));
    }
    Ok(points)
}

/// `p` placed into `s` before the first element whose hash is not smaller.
pub open spec fn insert_sorted(
    p: (Seq<char>, u32),
    s: Seq<(Seq<char>, u32)>,
) -> Seq<(Seq<char>, u32)>
    decreases s.len(),
{
    if s.len() == 0 {
        seq![p]
    } else if p.1 <= s[0].1 {
        seq![p] + s
    } else {
        seq![s[0]] + insert_sorted(p, s.drop_first())
    }
}

/// `s` rearranged into ascending hash order by repeated insertion.
pub open spec fn sort_points(s: Seq<(Seq<char>, u32)>) -> Seq<(Seq<char>, u32)>
    decreases s.len(),
{
    if s.len() == 0 {
        s
    } else {
        insert_sorted(s[0], sort_points(s.drop_first()))
    }
}

/// `s` with every run of equal hashes collapsed to its first element.
pub open spec fn dedup_points(s: Seq<(Seq<char>, u32)>) -> Seq<(Seq<char>, u32)>
    decreases s.len(),
{
    if s.len() <= 1 {
        s
    } else if s.last().1 == s[s.len() - 2].1 {
        dedup_points(s.drop_last())
    } else {
        dedup_points(s.drop_last()).push(s.last())
    }
}

/// The concatenated point models of every server, in list order.
pub open spec fn all_points(servers: Seq<ServerS>) -> Seq<(Seq<char>, u32)>
    decreases servers.len(),
{
    if servers.len() == 0 {
        Seq::<(Seq<char>, u32)>::empty()
    } else {
        server_points(servers[0].server@, servers[0].weight) + all_points(servers.drop_first())
    }
}

/// Whether every server address holds a colon separator.
pub open spec fn all_have_colon(servers: Seq<ServerS>) -> bool {
    forall|i: int|
        0 <= i < servers.len() ==> has_colon(encode_utf8(#[trigger] servers[i].server@))
}

/// The complete ring a server list builds: every server's points, sorted by
/// hash, duplicates collapsed to the first occurrence in sorted order.
pub open spec fn upstream_model(servers: Seq<ServerS>) -> Seq<(Seq<char>, u32)> {
    dedup_points(sort_points(all_points(servers)))
}

proof fn lemma_all_points_push(servers: Seq<ServerS>, s: ServerS)
    ensures
        all_points(servers.push(s)) == all_points(servers) + server_points(s.server@, s.weight),
    decreases servers.len(),
{
    let sp = server_points(s.server@, s.weight);
    if servers.len() == 0 {
        assert(servers.push(s).drop_first() =~= Seq::<ServerS>::empty());
        assert(sp + all_points(Seq::<ServerS>::empty()) =~= sp);
        assert(all_points(servers) + sp =~= sp);
    } else {
        assert(servers.push(s).drop_first() =~= servers.drop_first().push(s));
        lemma_all_points_push(servers.drop_first(), s);
        let head = server_points(servers[0].server@, servers[0].weight);
        assert(head + (all_points(servers.drop_first()) + sp) =~= (head + all_points(
            servers.drop_first(),
        )) + sp);
    }
}

proof fn lemma_insert_sorted_at(p: (Seq<char>, u32), s: Seq<(Seq<char>, u32)>, j: int)
    requires
        0 <= j <= s.len(),
        forall|k: int| 0 <= k < j ==> (#[trigger] s[k]).1 < p.1,
        j < s.len() ==> p.1 <= s[j].1,
    ensures
        insert_sorted(p, s) == s.take(j) + seq![p] + s.skip(j),
    decreases s.len(),
{
    if s.len() == 0 {
        assert(insert_sorted(p, s) =~= s.take(0) + seq![p] + s.skip(0));
    } else if j == 0 {
        assert(seq![p] + s =~= s.take(0) + seq![p] + s.skip(0));
    } else {
        assert(s[0].1 < p.1);
        lemma_insert_sorted_at(p, s.drop_first(), j - 1);
        assert(seq![s[0]] + insert_sorted(p, s.drop_first()) =~= s.take(j) + seq![p] + s.skip(j));
    }
}

/// Place `p` into the hash-ordered vector `r`, before the first point whose
/// hash is not smaller.
#[verifier::loop_isolation(false)]
fn insert_point(r: &mut Vec<HashPointS>, p: HashPointS)
    ensures
        points_model(final(r)@) == insert_sorted((p.server@, p.hash), points_model(old(r)@)),
{
    let n: usize = r.len();
    let mut j: usize = 0;
    while j < n && r[j].hash < p.hash
        invariant
            0 <= j <= n,
            forall|k: int| 0 <= k < j ==> (#[trigger] r@[k]).hash < p.hash,
        decreases n - j,
    {
        j += 1;
    }
    proof {
        lemma_insert_sorted_at((p.server@, p.hash), points_model(old(r)@), j as int);
    }
    let ghost before = points_model(r@);
    r.insert(j, p);
    proof {
        assert(points_model(r@) =~= before.take(j as int) + seq![(p.server@, p.hash)]
            + before.skip(j as int));
    }
}

/// Sort ring points ascending by hash (ties in an order fixed by the
/// insertion scheme; they are about to be collapsed anyway).
#[verifier::loop_isolation(false)]
fn sort_hash_points(v: Vec<HashPointS>) -> (r: Vec<HashPointS>)
    ensures
        points_model(r@) == sort_points(points_model(v@)),
{
    let ghost m = points_model(v@);
    let mut r: Vec<HashPointS> = Vec::new();
    let mut i: usize = v.len();
    proof {
        assert(points_model(r@) =~= sort_points(m.skip(i as int)));
    }
    while i > 0
        invariant
            0 <= i <= v@.len(),
            points_model(r@) == sort_points(m.skip(i as int)),
        decreases i,
    {
        i -= 1;
        let p = HashPointS { server: v[i].server.clone(), hash: v[i].hash };
        proof {
            assert(m.skip(i as int).drop_first() =~= m.skip(i + 1));
            assert((p.server@, p.hash) == m.skip(i as int)[0]);
        }
        insert_point(&mut r, p);
    }
    proof {
        assert(m.skip(0) =~= m);
    }
    r
}

/// Collapse each run of equal hashes in the sorted vector to its first
/// element, in a single pass, regardless of which server owns the discarded
/// points.
#[verifier::loop_isolation(false)]
pub fn remove_duplicate(hashs: &mut Vec<HashPointS>)
    ensures
        points_model(final(hashs)@) == dedup_points(points_model(old(hashs)@)),
{
    let ghost m = points_model(old(hashs)@);
    let n: usize = hashs.len();
    if n == 0 {
        proof {
            assert(points_model(hashs@) == dedup_points(m));
        }
        return ;
    }
    let mut out: Vec<HashPointS> = Vec::new();
    out.push(HashPointS { server: hashs[0].server.clone(), hash: hashs[0].hash });
    proof {
        assert(m.take(1) =~= points_model(out@));
    }
    let mut j: usize = 1;
    while j < n
        invariant
            1 <= j <= n,
            out@.len() > 0,
            points_model(out@) == dedup_points(m.take(j as int)),
            out@.last().hash == hashs@[j - 1].hash,
        decreases n - j,
    {
        let last_hash: u32 = out[out.len() - 1].hash;
        proof {
            assert(m.take(j + 1).drop_last() =~= m.take(j as int));
            assert(m.take(j + 1).last() == m[j as int]);
            assert(m.take(j + 1)[j - 1] == m[j - 1]);
        }
        if last_hash != hashs[j].hash {
            out.push(HashPointS { server: hashs[j].server.clone(), hash: hashs[j].hash });
            proof {
                assert(points_model(out@) =~= dedup_points(m.take(j as int)).push(m[j as int]));
            }
        }
        j += 1;
    }
    proof {
        assert(m.take(n as int) =~= m);
    }
    *hashs = out;
}

/// Build the complete hash ring of a server list: generate every server's
/// points, sort them by hash, and drop exact duplicates. Fails with
/// `InvalidAddress`, building nothing, exactly when some server address
/// holds no colon.
#[verifier::loop_isolation(false)]
pub fn ngx_chash_upstream(servers: &Vec<ServerS>) -> (r: Result<Vec<HashPointS>, ChashError>)
    requires
        forall|i: int|
            0 <= i < servers@.len() ==> CHASH_FACTOR * (#[trigger] servers@[i]).weight
                <= u32::MAX,
    ensures
        match r {
            Ok(ring) => all_have_colon(servers@) && points_model(ring@) == upstream_model(
                servers@,
            ),
            Err(e) => e == ChashError::InvalidAddress && !all_have_colon(servers@),
        },
{
    let n: usize = servers.len();
    let mut all: Vec<HashPointS> = Vec::new();
    proof {
        assert(points_model(all@) =~= all_points(servers@.take(0)));
    }
    for i in 0..n
        invariant
            points_model(all@) == all_points(servers@.take(i as int)),
            forall|j: int|
                0 <= j < i ==> has_colon(encode_utf8(#[trigger] servers@[j].server@)),
    {
        let mut pts = match ngx_chash(&servers[i].server, servers[i].weight) {
            Ok(p) => p,
            Err(e) => {
                return Err(e);
            },
        };
        let ghost pts_m = points_model(pts@);
        let ghost pre = points_model(all@);
        all.append(&mut pts);
        proof {
            assert(servers@.take(i + 1) =~= servers@.take(i as int).push(servers@[i as int]));
            lemma_all_points_push(servers@.take(i as int), servers@[i as int]);
            assert(points_model(all@) =~= pre + pts_m);
        }
    }
    proof {
        assert(servers@.take(n as int) =~= servers@);
    }
    let mut sorted = sort_hash_points(all);
    remove_duplicate(&mut sorted);
    Ok(sorted)
}

/// Non-decreasing hash order over point models.
pub open spec fn model_sorted(s: Seq<(Seq<char>, u32)>) -> bool {
    forall|i: int, j: int| 0 <= i < j < s.len() ==> (#[trigger] s[i]).1 <= (#[trigger] s[j]).1
}

/// Strictly increasing hash order over point models: no duplicates.
pub open spec fn model_strictly_sorted(s: Seq<(Seq<char>, u32)>) -> bool {
    forall|i: int, j: int| 0 <= i < j < s.len() ==> (#[trigger] s[i]).1 < (#[trigger] s[j]).1
}

proof fn lemma_insert_sorted_props(p: (Seq<char>, u32), s: Seq<(Seq<char>, u32)>)
    requires
        model_sorted(s),
    ensures
        insert_sorted(p, s).len() == s.len() + 1,
        model_sorted(insert_sorted(p, s)),
        forall|k: int|
            0 <= k < insert_sorted(p, s).len() ==> p.1 <= (#[trigger] insert_sorted(p, s)[k]).1
                || (exists|t: int| 0 <= t < s.len() && insert_sorted(p, s)[k] == s[t]),
    decreases s.len(),
{
    let r = insert_sorted(p, s);
    if s.len() == 0 {
    } else if p.1 <= s[0].1 {
    } else {
        assert(model_sorted(s.drop_first())) by {
            assert(forall|i: int|
                0 <= i < s.drop_first().len() ==> s.drop_first()[i] == s[i + 1]);
        }
        lemma_insert_sorted_props(p, s.drop_first());
        let tail = insert_sorted(p, s.drop_first());
        assert forall|i: int, j: int| 0 <= i < j < r.len() implies (#[trigger] r[i]).1
            <= (#[trigger] r[j]).1 by {
            if i == 0 {
                assert(r[j] == tail[j - 1]);
                if p.1 <= tail[j - 1].1 {
                    assert(s[0].1 < p.1);
                } else {
                    let t = choose|t: int|
                        0 <= t < s.drop_first().len() && tail[j - 1] == s.drop_first()[t];
                    assert(s.drop_first()[t] == s[t + 1]);
                    assert(s[0].1 <= s[t + 1].1);
                }
            } else {
                assert(r[i] == tail[i - 1] && r[j] == tail[j - 1]);
            }
        }
        assert forall|k: int| 0 <= k < r.len() implies p.1 <= (#[trigger] r[k]).1 || (exists|t: int|
            0 <= t < s.len() && r[k] == s[t]) by {
            if k == 0 {
                assert(r[0] == s[0]);
            } else {
                assert(r[k] == tail[k - 1]);
                if !(p.1 <= tail[k - 1].1) {
                    let t = choose|t: int|
                        0 <= t < s.drop_first().len() && tail[k - 1] == s.drop_first()[t];
                    assert(r[k] == s[t + 1]);
                }
            }
        }
    }
}

proof fn lemma_sort_points_props(s: Seq<(Seq<char>, u32)>)
    ensures
        sort_points(s).len() == s.len(),
        model_sorted(sort_points(s)),
    decreases s.len(),
{
    if s.len() > 0 {
        lemma_sort_points_props(s.drop_first());
        lemma_insert_sorted_props(s[0], sort_points(s.drop_first()));
    }
}

proof fn lemma_dedup_points_props(s: Seq<(Seq<char>, u32)>)
    requires
        model_sorted(s),
    ensures
        dedup_points(s).len() <= s.len(),
        model_strictly_sorted(dedup_points(s)),
        s.len() > 0 ==> dedup_points(s).len() > 0 && dedup_points(s).last().1 == s.last().1,
    decreases s.len(),
{
    if s.len() > 1 {
        let shorter = s.drop_last();
        assert(model_sorted(shorter)) by {
            assert(forall|i: int| 0 <= i < shorter.len() ==> shorter[i] == s[i]);
        }
        lemma_dedup_points_props(shorter);
        assert(shorter.last() == s[s.len() - 2]);
        if s.last().1 != s[s.len() - 2].1 {
            let dd = dedup_points(shorter);
            let r = dd.push(s.last());
            assert(s[s.len() - 2].1 <= s.last().1);
            assert forall|i: int, j: int| 0 <= i < j < r.len() implies (#[trigger] r[i]).1 < (
            #[trigger] r[j]).1 by {
                if j == r.len() - 1 {
                    if i < dd.len() - 1 {
                        assert(dd[i].1 < dd.last().1);
                    }
                    assert(r[i].1 <= dd.last().1);
                    assert(dd.last().1 == s[s.len() - 2].1);
                } else {
                    assert(r[i] == dd[i] && r[j] == dd[j]);
                }
            }
        }
    }
}

proof fn lemma_all_points_len(servers: Seq<ServerS>)
    ensures
        all_points(servers).len() == total_points(servers),
    decreases servers.len(),
{
    if servers.len() > 0 {
        lemma_all_points_len(servers.drop_first());
    }
}

/// The number of points all servers generate together, before duplicates are
/// removed: `CHASH_FACTOR` times the sum of the weights.
pub open spec fn total_points(servers: Seq<ServerS>) -> int
    decreases servers.len(),
{
    if servers.len() == 0 {
        0
    } else {
        CHASH_FACTOR * servers[0].weight + total_points(servers.drop_first())
    }
}

/// Ring ordering invariant: every built ring is strictly increasing in its
/// hash values, with no duplicates.
pub proof fn lemma_ring_ordering(servers: Seq<ServerS>)
    ensures
        model_strictly_sorted(upstream_model(servers)),
{
    lemma_sort_points_props(all_points(servers));
    lemma_dedup_points_props(sort_points(all_points(servers)));
}

/// Ring size bound: a built ring holds at most `CHASH_FACTOR * weight`
/// points per server, with equality exactly when no duplicates were removed.
pub proof fn lemma_ring_size_bound(servers: Seq<ServerS>)
    ensures
        upstream_model(servers).len() <= total_points(servers),
{
    lemma_all_points_len(servers);
    lemma_sort_points_props(all_points(servers));
    lemma_dedup_points_props(sort_points(all_points(servers)));
}

/// Stability under no change: building the ring twice from the same server
/// list yields identical rings, point for point.
pub proof fn lemma_build_ring_stable(
    servers: Seq<ServerS>,
    r1: Seq<(Seq<char>, u32)>,
    r2: Seq<(Seq<char>, u32)>,
)
    requires
        r1 == upstream_model(servers),
        r2 == upstream_model(servers),
    ensures
        r1 == r2,
{
}

} // verus!
