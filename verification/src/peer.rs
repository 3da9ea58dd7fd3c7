//! The peer registry: the mutable backend list, and resolution of an owner
//! address to its server record, counting one hit per successful resolution.

use vstd::prelude::*;

verus! {

/// One configured backend server.
pub struct ServerS {
    /// Address in `host:port` form; the hashing seed and the ring-point owner tag.
    pub server: String,
    /// Separate display/connection label (may equal `server`).
    pub peer: String,
    /// Configured weight: how many ring points this server contributes, per unit of resolution.
    pub weight: u32,
    /// Mutable runtime weight, reserved for caller-side load-aware selection.
    pub effective_weight: u32,
    /// Configured connection capacity, reserved for callers.
    pub max_conn: u32,
    /// Current connection count, reserved for callers.
    pub curr_conn: u32,
    /// Scratch field, not read by the ring logic.
    pub hash: u32,
    /// Incremented once per successful resolution of this server.
    pub hit_count: u32,
}

/// A record with empty strings and zero in every numeric field.
pub open spec fn is_zero_server(s: ServerS) -> bool {
    &&& s.server@ == Seq::<char>::empty()
    &&& s.peer@ == Seq::<char>::empty()
    &&& s.weight == 0
    &&& s.effective_weight == 0
    &&& s.max_conn == 0
    &&& s.curr_conn == 0
    &&& s.hash == 0
    &&& s.hit_count == 0
}

impl Default for ServerS {
    /// The zero-valued record, also what a failed resolution returns.
    fn default() -> (r: ServerS)
        ensures
            is_zero_server(r),
    {
        ServerS {
            server: String::new(),
            peer: String::new(),
            weight: 0,
            effective_weight: 0,
            max_conn: 0,
            curr_conn: 0,
            hash: 0,
            hit_count: 0,
        }
    }
}

/// Index of the first record whose address equals `name`; the length of
/// `servers` if there is none.
pub open spec fn peer_index(servers: Seq<ServerS>, name: Seq<char>) -> int
    decreases servers.len(),
{
    if servers.len() == 0 {
        0
    } else if servers[0].server@ == name {
        0
    } else {
        1 + peer_index(servers.drop_first(), name)
    }
}

/// Whether some record in `servers` has address `name`.
pub open spec fn has_peer(servers: Seq<ServerS>, name: Seq<char>) -> bool {
    peer_index(servers, name) < servers.len()
}

/// `servers` with the hit counter of the record at `idx` incremented.
pub open spec fn hit_recorded(servers: Seq<ServerS>, idx: int) -> Seq<ServerS> {
    servers.update(
        idx,
        (ServerS {
            hit_count: (servers[idx].hit_count + 1) as u32,
            ..servers[idx]
        }),
    )
}

/// A scan that saw no match before `i`, and a match at `i` unless `i` is the
/// length, has found exactly `peer_index`.
proof fn lemma_peer_index_from_scan(servers: Seq<ServerS>, name: Seq<char>, i: int)
    requires
        0 <= i <= servers.len(),
        forall|j: int| 0 <= j < i ==> servers[j].server@ != name,
        i < servers.len() ==> servers[i].server@ == name,
    ensures
        peer_index(servers, name) == i,
    decreases servers.len(),
{
    if servers.len() > 0 && i > 0 {
        assert(servers[0].server@ != name);
        lemma_peer_index_from_scan(servers.drop_first(), name, i - 1);
    }
}

/// Scan the backend list for the record whose address equals `server_name`;
/// on a match, count one hit there and hand back a copy of the updated record
/// with `true`. On a miss, leave the list unchanged and hand back the
/// zero-valued record with `false` (the flag is what tells a miss apart from
/// a hit on an all-zero record).
#[verifier::loop_isolation(false)]
pub fn ngx_find_peer(upstream: &mut Vec<ServerS>, server_name: &String) -> (r: (ServerS, bool))
    requires
        forall|j: int|
            0 <= j < old(upstream)@.len() ==> old(upstream)@[j].hit_count < u32::MAX,
    ensures
        ({
            let idx = peer_index(old(upstream)@, server_name@);
            if has_peer(old(upstream)@, server_name@) {
                &&& 0 <= idx < old(upstream)@.len()
                &&& final(upstream)@ == hit_recorded(old(upstream)@, idx)
                &&& r.0 == final(upstream)@[idx]
                &&& r.1 == true
            } else {
                &&& final(upstream)@ == old(upstream)@
                &&& is_zero_server(r.0)
                &&& r.1 == false
            }
        }),
{
    let ghost orig = upstream@;
    let n: usize = upstream.len();
    let mut i: usize = 0;
    while i < n
        invariant
            n == upstream@.len(),
            upstream@ == orig,
            0 <= i <= n,
            forall|j: int| 0 <= j < i ==> orig[j].server@ != server_name@,
            forall|j: int| 0 <= j < n ==> orig[j].hit_count < u32::MAX,
        decreases n - i,
    {
        if upstream[i].server == *server_name {
            proof {
                lemma_peer_index_from_scan(orig, server_name@, i as int);
            }
            let c: u32 = upstream[i].hit_count;
            upstream[i].hit_count = c + 1;
            let rec = ServerS {
                server: upstream[i].server.clone(),
                peer: upstream[i].peer.clone(),
                weight: upstream[i].weight,
                effective_weight: upstream[i].effective_weight,
                max_conn: upstream[i].max_conn,
                curr_conn: upstream[i].curr_conn,
                hash: upstream[i].hash,
                hit_count: upstream[i].hit_count,
            };
            proof {
                assert(upstream@ =~= hit_recorded(orig, i as int));
            }
            return (rec, true);
        }
        i += 1;
    }
    proof {
        lemma_peer_index_from_scan(orig, server_name@, n as int);
    }
    (ServerS::default(), false)
}

} // verus!
