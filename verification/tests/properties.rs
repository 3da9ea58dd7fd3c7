use ngxchash::{
    find_hash_point, find_server, ngx_chash, ngx_chash_upstream, ngx_crc32_final, ngx_crc32_long,
    ngx_crc32_update, ngx_find_peer, ChashError, HashPointS, ServerS, CHASH_FACTOR, CRC32_INIT,
};

fn sample_servers() -> Vec<ServerS> {
    vec![
        ServerS {
            server: "127.0.0.1:8080".to_owned(),
            peer: "127.0.0.1:8080".to_owned(),
            weight: 1,
            ..Default::default()
        },
        ServerS {
            server: "127.0.0.1:443".to_owned(),
            peer: "127.0.0.1:443".to_owned(),
            weight: 2,
            ..Default::default()
        },
    ]
}

#[test]
fn test_checksum_deterministic() {
    let key = "192.168.0.1".to_owned();
    let first = ngx_crc32_long(&key, 11);
    let second = ngx_crc32_long(&key, 11);
    assert_eq!(first, second);
    let padded_first = ngx_crc32_long(&key, 64);
    let padded_second = ngx_crc32_long(&key, 64);
    assert_eq!(padded_first, padded_second);
}

#[test]
fn test_checksum_reference_vectors() {
    assert_eq!(ngx_crc32_long(&"192.168.0.1".to_owned(), 11), 2307365224);
    assert_eq!(ngx_crc32_long(&"192.168.0.10".to_owned(), 12), 3074142674);
}

#[test]
fn test_checksum_zero_padding() {
    // One zero byte folded past the end of the input changes the checksum.
    assert_eq!(ngx_crc32_long(&"192.168.0.1".to_owned(), 12), 2447540606);
    assert_eq!(ngx_crc32_long(&String::new(), 0), 0);
    assert_eq!(ngx_crc32_long(&String::new(), 1), 3523407757);
}

#[test]
fn test_checksum_truncates_past_target_length() {
    // Bytes beyond the padded length are not folded by the call.
    assert_eq!(ngx_crc32_long(&"192.168.0.1xyz".to_owned(), 11), 2307365224);
}

#[test]
fn test_update_and_final_compose() {
    let state = ngx_crc32_update(CRC32_INIT, "192.168.0.1".as_bytes(), 11);
    assert_eq!(ngx_crc32_final(state), 2307365224);
}

#[test]
fn test_point_count_per_server() {
    let points = ngx_chash(&"127.0.0.1:8080".to_owned(), 2).unwrap();
    assert_eq!(points.len(), (CHASH_FACTOR * 2) as usize);
    for p in &points {
        assert_eq!(p.server, "127.0.0.1:8080");
    }
}

#[test]
fn test_ring_ordering() {
    let ring = ngx_chash_upstream(&sample_servers()).unwrap();
    for w in ring.windows(2) {
        assert!(w[0].hash < w[1].hash);
    }
}

#[test]
fn test_ring_size_bound() {
    let servers = sample_servers();
    let ring = ngx_chash_upstream(&servers).unwrap();
    let bound = (CHASH_FACTOR as usize) * 1 + (CHASH_FACTOR as usize) * 2;
    assert!(ring.len() <= bound);
    // No collisions occur for these servers, so the bound is met exactly.
    assert_eq!(ring.len(), 480);
}

#[test]
fn test_circularity() {
    let ring = ngx_chash_upstream(&sample_servers()).unwrap();
    let max_hash = ring.last().unwrap().hash;
    assert_eq!(max_hash, 4289952468);
    let probe = HashPointS { server: String::new(), hash: max_hash + 1 };
    let wrapped = find_hash_point(&ring, &probe).unwrap();
    assert_eq!(wrapped.hash, ring[0].hash);
    assert_eq!(wrapped.server, ring[0].server);
    assert_eq!(wrapped.hash, 15136019);
    assert_eq!(wrapped.server, "127.0.0.1:443");
}

#[test]
fn test_build_ring_stable() {
    let servers = sample_servers();
    let first = ngx_chash_upstream(&servers).unwrap();
    let second = ngx_chash_upstream(&servers).unwrap();
    assert_eq!(first.len(), second.len());
    for (a, b) in first.iter().zip(second.iter()) {
        assert_eq!(a.server, b.server);
        assert_eq!(a.hash, b.hash);
    }
}

#[test]
fn test_end_to_end_hit_count() {
    let mut servers = sample_servers();
    let ring = ngx_chash_upstream(&servers).unwrap();
    let point = find_server(&ring, &"192.168.0.1".to_owned()).unwrap();
    assert_eq!(point.server, "127.0.0.1:443");
    let (record, found) = ngx_find_peer(&mut servers, &point.server);
    assert!(found);
    assert_eq!(record.peer, "127.0.0.1:443");
    assert_eq!(record.hit_count, 1);
    assert_eq!(servers[1].hit_count, 1);
    let (record, found) = ngx_find_peer(&mut servers, &point.server);
    assert!(found);
    assert_eq!(record.hit_count, 2);
}

#[test]
fn test_miss_behavior() {
    let mut servers = sample_servers();
    let (record, found) = ngx_find_peer(&mut servers, &"no.such.server:1".to_owned());
    assert!(!found);
    assert_eq!(record.server, "");
    assert_eq!(record.peer, "");
    assert_eq!(record.weight, 0);
    assert_eq!(record.hit_count, 0);
    // The backend list is untouched by a miss.
    assert_eq!(servers[0].hit_count, 0);
    assert_eq!(servers[1].hit_count, 0);
}

#[test]
fn test_invalid_address() {
    let result = ngx_chash(&"localhost".to_owned(), 1);
    assert_eq!(result.unwrap_err(), ChashError::InvalidAddress);

    let servers = vec![ServerS {
        server: "no-colon-here".to_owned(),
        peer: "no-colon-here".to_owned(),
        weight: 1,
        ..Default::default()
    }];
    let result = ngx_chash_upstream(&servers);
    assert_eq!(result.unwrap_err(), ChashError::InvalidAddress);
}

#[test]
fn test_empty_ring() {
    let empty: Vec<HashPointS> = Vec::new();
    let probe = HashPointS { server: String::new(), hash: 42 };
    assert_eq!(find_hash_point(&empty, &probe).unwrap_err(), ChashError::EmptyRing);
    assert_eq!(find_server(&empty, &"key".to_owned()).unwrap_err(), ChashError::EmptyRing);
}

#[test]
fn test_empty_server_list() {
    let servers: Vec<ServerS> = Vec::new();
    let ring = ngx_chash_upstream(&servers).unwrap();
    assert_eq!(ring.len(), 0);
    assert_eq!(find_server(&ring, &"key".to_owned()).unwrap_err(), ChashError::EmptyRing);
}

#[test]
fn test_duplicate_servers_collapse() {
    // Two identical servers generate identical points; every run of equal
    // hashes is collapsed to its first element.
    let servers = vec![
        ServerS {
            server: "127.0.0.1:8080".to_owned(),
            peer: "a".to_owned(),
            weight: 1,
            ..Default::default()
        },
        ServerS {
            server: "127.0.0.1:8080".to_owned(),
            peer: "b".to_owned(),
            weight: 1,
            ..Default::default()
        },
    ];
    let ring = ngx_chash_upstream(&servers).unwrap();
    assert_eq!(ring.len(), CHASH_FACTOR as usize);
}

#[test]
fn test_empty_host_and_port_still_build() {
    // A lone colon splits into an empty host and an empty port.
    let points = ngx_chash(&":".to_owned(), 1).unwrap();
    assert_eq!(points.len(), CHASH_FACTOR as usize);
}
