use ngxchash::{find_server, ngx_chash_upstream, ngx_crc32_long, ngx_find_peer, ServerS};

#[test]
fn test_find_server() {
    let server = "192.168.0.1";
    assert_eq!(ngx_crc32_long(&server.to_owned(), server.len()), 2307365224);
    let server = "192.168.0.10";
    assert_eq!(ngx_crc32_long(&server.to_owned(), server.len()), 3074142674);

    let mut upstream: Vec<ServerS> = vec![
        ServerS {
            server: "127.0.0.1:8080".to_owned(),
            peer: "127.0.0.1:8080".to_owned(),
            weight: 1,
            ..Default::default()
        },
        ServerS {
            server: "127.0.0.1:443".to_owned(),
            peer: "127.0.0.1:443".to_owned(),
            weight: 2,
            ..Default::default()
        },
    ];
    let hashs = ngx_chash_upstream(&upstream).unwrap();

    let _hash_point = find_server(&hashs, &"192.168.0.1".to_owned()).unwrap();
    assert_eq!(_hash_point.server, "127.0.0.1:443");
    assert_eq!(_hash_point.hash, 2315499649);

    let _hash_point = find_server(&hashs, &"192.168.0.10".to_owned()).unwrap();
    assert_eq!(_hash_point.server, "127.0.0.1:443");
    assert_eq!(_hash_point.hash, 3083802589);

    let _servers = ngx_find_peer(&mut upstream, &"127.0.0.1:443".to_owned());
    assert_eq!(_servers.0.peer, "127.0.0.1:443".to_owned());
}
