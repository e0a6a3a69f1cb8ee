use kiryuu::codec::{escape_percent, percent_decode, percent_encode};
use kiryuu::commands::make_redis_keys;
use kiryuu::engine::{
    cache_hit, plan_announce, range_commands, read_commands, response_body, write_back, Exists,
};
use kiryuu::query::{ip_port, parse_announce, parse_ipv4, Announce, Event, QueryError};
use kiryuu::reply::announce_reply;
use kiryuu::store::to_pipeline;

fn client() -> Vec<u8> {
    vec![1, 2, 3, 4]
}

fn hash_bytes() -> Vec<u8> {
    (0u8..20).collect()
}

fn hash_query(n: u8) -> String {
    (0..n).map(|b| format!("%{:02X}", b)).collect()
}

fn parse(q: &str) -> Result<Announce, QueryError> {
    parse_announce(&client(), q.as_bytes())
}

fn args(v: &[&[u8]]) -> Vec<Vec<u8>> {
    v.iter().map(|a| a.to_vec()).collect()
}

fn key(h: &[u8], suffix: &str) -> Vec<u8> {
    let mut k = h.to_vec();
    k.extend_from_slice(suffix.as_bytes());
    k
}

fn peer() -> Vec<u8> {
    vec![1, 2, 3, 4, 0x1a, 0xe1]
}

#[test]
fn first_ever_leecher() {
    let q = format!("info_hash={}&port=6881&left=100&event=started", hash_query(20));
    let a = parse(&q).unwrap();
    assert_eq!(a.info_hash, hash_bytes());
    assert_eq!(a.ip_port, peer());
    assert_eq!(a.event, Event::Started);
    assert!(!a.is_seeding);
    let plan = plan_announce(&a, &Exists::No, &Exists::No);
    assert_eq!((plan.seed_delta, plan.leech_delta), (0, 1));
    let body = response_body(&a, &Exists::No, &Exists::No, vec![], &vec![], &vec![]);
    assert_eq!(
        body,
        b"d8:completei0e10:incompletei1e8:intervali1800e12:min intervali1800e5:peers0:e".to_vec()
    );
    let h = hash_bytes();
    let cmds = write_back(&a, &Exists::No, &Exists::No, false, &body, 1000, 3);
    assert_eq!(
        cmds,
        vec![
            args(&[b"ZADD", b"TORRENTS", b"1000", &h]),
            args(&[b"ZADD", &key(&h, "_leechers"), b"1000", &peer()]),
            args(&[b"HINCRBY", &h, b"leechers", b"1"]),
            args(&[b"DEL", &key(&h, "_cache")]),
            args(&[b"INCR", b"ANNOUNCE_COUNT"]),
            args(&[b"INCRBY", b"REQ_DURATION_TOTAL_MS", b"3"]),
        ]
    );
}

#[test]
fn completion_moves_leecher_to_seeders() {
    let q = format!("info_hash={}&port=6881&left=0&event=completed", hash_query(20));
    let a = parse(&q).unwrap();
    assert!(a.is_seeding);
    assert_eq!(a.event, Event::Completed);
    let plan = plan_announce(&a, &Exists::No, &Exists::Yes);
    assert_eq!((plan.seed_delta, plan.leech_delta), (1, -1));
    let body = response_body(&a, &Exists::No, &Exists::Yes, vec![], &vec![], &vec![peer()]);
    let mut expected =
        b"d8:completei1e10:incompletei0e8:intervali1800e12:min intervali1800e5:peers6:".to_vec();
    expected.extend_from_slice(&peer());
    expected.push(b'e');
    assert_eq!(body, expected);
    let h = hash_bytes();
    let cmds = write_back(&a, &Exists::No, &Exists::Yes, false, &body, 7, 0);
    assert_eq!(
        cmds,
        vec![
            args(&[b"ZADD", b"TORRENTS", b"7", &h]),
            args(&[b"ZADD", &key(&h, "_seeders"), b"7", &peer()]),
            args(&[b"ZREM", &key(&h, "_leechers"), &peer()]),
            args(&[b"HINCRBY", &h, b"downloaded", b"1"]),
            args(&[b"HINCRBY", &h, b"seeders", b"1"]),
            args(&[b"HINCRBY", &h, b"leechers", b"-1"]),
            args(&[b"DEL", &key(&h, "_cache")]),
            args(&[b"INCR", b"ANNOUNCE_COUNT"]),
            args(&[b"INCRBY", b"REQ_DURATION_TOTAL_MS", b"0"]),
        ]
    );
}

#[test]
fn steady_refresh_served_from_cache() {
    let q = format!("info_hash={}&port=6881&left=0", hash_query(20));
    let a = parse(&q).unwrap();
    assert_eq!(a.event, Event::Empty);
    let cached = b"cached reply".to_vec();
    assert!(cache_hit(&cached));
    let body = response_body(&a, &Exists::Yes, &Exists::No, cached.clone(), &vec![], &vec![]);
    assert_eq!(body, cached);
    let h = hash_bytes();
    let cmds = write_back(&a, &Exists::Yes, &Exists::No, true, &body, 5, 2);
    assert_eq!(
        cmds,
        vec![
            args(&[b"ZADD", b"TORRENTS", b"5", &h]),
            args(&[b"ZADD", &key(&h, "_seeders"), b"5", &peer()]),
            args(&[b"INCR", b"CACHE_HIT_ANNOUNCE_COUNT"]),
            args(&[b"INCR", b"NOCHANGE_ANNOUNCE_COUNT"]),
            args(&[b"SET", &key(&h, "_cache"), &cached, b"EX", b"1800"]),
            args(&[b"INCR", b"ANNOUNCE_COUNT"]),
            args(&[b"INCRBY", b"REQ_DURATION_TOTAL_MS", b"2"]),
        ]
    );
}

#[test]
fn stop_on_absent_peer_changes_nothing() {
    let q = format!("info_hash={}&port=6881&left=5&event=stopped", hash_query(20));
    let a = parse(&q).unwrap();
    assert_eq!(a.event, Event::Stopped);
    let plan = plan_announce(&a, &Exists::No, &Exists::No);
    assert_eq!((plan.seed_delta, plan.leech_delta), (0, 0));
    let body = response_body(&a, &Exists::No, &Exists::No, vec![], &vec![], &vec![]);
    let h = hash_bytes();
    let cmds = write_back(&a, &Exists::No, &Exists::No, false, &body, 9, 1);
    assert_eq!(
        cmds,
        vec![
            args(&[b"ZADD", b"TORRENTS", b"9", &h]),
            args(&[b"INCR", b"NOCHANGE_ANNOUNCE_COUNT"]),
            args(&[b"SET", &key(&h, "_cache"), &body, b"EX", b"1800"]),
            args(&[b"INCR", b"ANNOUNCE_COUNT"]),
            args(&[b"INCRBY", b"REQ_DURATION_TOTAL_MS", b"1"]),
        ]
    );
}

#[test]
fn stop_removes_seeder() {
    let q = format!("info_hash={}&port=6881&event=stopped", hash_query(20));
    let a = parse(&q).unwrap();
    let plan = plan_announce(&a, &Exists::Yes, &Exists::No);
    assert_eq!((plan.seed_delta, plan.leech_delta), (-1, 0));
    let h = hash_bytes();
    let cmds = write_back(&a, &Exists::Yes, &Exists::No, false, &vec![], 9, 1);
    assert_eq!(cmds[1], args(&[b"ZREM", &key(&h, "_seeders"), &peer()]));
    assert_eq!(cmds[2], args(&[b"HINCRBY", &h, b"seeders", b"-1"]));
    assert_eq!(cmds[3], args(&[b"DEL", &key(&h, "_cache")]));
}

#[test]
fn malformed_info_hash_19_bytes() {
    let q = format!("info_hash={}&port=6881&left=1", hash_query(19));
    assert_eq!(parse(&q).unwrap_err(), QueryError::InvalidInfohash);
}

#[test]
fn info_hash_21_bytes_refused() {
    let q = format!("info_hash={}&port=6881&left=1", hash_query(21));
    assert_eq!(parse(&q).unwrap_err(), QueryError::InvalidInfohash);
}

#[test]
fn missing_info_hash_refused() {
    assert_eq!(parse("port=6881").unwrap_err(), QueryError::InvalidInfohash);
}

#[test]
fn port_boundaries() {
    for (p, bytes) in [("0", [0u8, 0]), ("1", [0, 1]), ("65535", [255, 255])] {
        let q = format!("info_hash={}&port={}", hash_query(20), p);
        let a = parse(&q).unwrap();
        assert_eq!(a.ip_port, vec![1, 2, 3, 4, bytes[0], bytes[1]]);
    }
    for p in ["65536", "", "12a", "-1"] {
        let q = format!("info_hash={}&port={}", hash_query(20), p);
        assert_eq!(parse(&q).unwrap_err(), QueryError::ParseFailure);
    }
    let q = format!("info_hash={}", hash_query(20));
    assert_eq!(parse(&q).unwrap_err(), QueryError::ParseFailure);
}

#[test]
fn left_absent_means_leecher() {
    let q = format!("info_hash={}&port=1", hash_query(20));
    assert!(!parse(&q).unwrap().is_seeding);
    let q = format!("info_hash={}&port=1&left=18446744073709551615", hash_query(20));
    assert!(!parse(&q).unwrap().is_seeding);
    let q = format!("info_hash={}&port=1&left=18446744073709551616", hash_query(20));
    assert_eq!(parse(&q).unwrap_err(), QueryError::ParseFailure);
}

#[test]
fn garbage_event_is_none() {
    let q = format!("info_hash={}&port=1&event=whatever", hash_query(20));
    assert_eq!(parse(&q).unwrap().event, Event::Empty);
    let q = format!("info_hash={}&port=1", hash_query(20));
    assert_eq!(parse(&q).unwrap().event, Event::Empty);
}

#[test]
fn duplicate_keys_last_wins() {
    let q = format!("port=1&info_hash={}&port=2&event=stopped&event=completed", hash_query(20));
    let a = parse(&q).unwrap();
    assert_eq!(a.ip_port, vec![1, 2, 3, 4, 0, 2]);
    assert_eq!(a.event, Event::Completed);
}

#[test]
fn ip_override_only_when_ipv4() {
    let q = format!("info_hash={}&port=258&ip=10.0.255.7", hash_query(20));
    assert_eq!(parse(&q).unwrap().ip_port, vec![10, 0, 255, 7, 1, 2]);
    for bad in ["10.0.256.7", "10.0.1", "10.0.01.7", "::1", "a.b.c.d", "1.2.3.4.5"] {
        let q = format!("info_hash={}&port=258&ip={}", hash_query(20), bad);
        assert_eq!(parse(&q).unwrap().ip_port, vec![1, 2, 3, 4, 1, 2]);
    }
}

#[test]
fn parse_ipv4_values() {
    assert_eq!(parse_ipv4(b"0.0.0.0"), Some(vec![0, 0, 0, 0]));
    assert_eq!(parse_ipv4(b"255.1.20.3"), Some(vec![255, 1, 20, 3]));
    assert_eq!(parse_ipv4(b""), None);
    assert_eq!(parse_ipv4(b"1..2.3"), None);
}

#[test]
fn bad_percent_escape_refused() {
    let q = format!("info_hash={}&port=1&peer_id=%zz", hash_query(20));
    assert_eq!(parse(&q).unwrap_err(), QueryError::ParseFailure);
    let q = format!("info_hash={}&port=1&peer_id=%4", hash_query(20));
    assert_eq!(parse(&q).unwrap_err(), QueryError::ParseFailure);
}

#[test]
fn plus_is_not_space_and_peer_id_kept() {
    let q = format!("info_hash={}&port=1&peer_id=a+b%20c", hash_query(20));
    assert_eq!(parse(&q).unwrap().peer_id, b"a+b c".to_vec());
}

#[test]
fn percent_round_trips() {
    let all: Vec<u8> = (0u8..=255).collect();
    let enc = percent_encode(&all);
    assert_eq!(enc.len(), 3 * 256);
    assert_eq!(&enc[0..6], b"%00%01");
    assert_eq!(percent_decode(&enc, 0, enc.len()), Some(all.clone()));
    let raw = b"a%b%25%zz+".to_vec();
    let esc = escape_percent(&raw);
    assert_eq!(esc, b"a%25b%2525%25zz+".to_vec());
    assert_eq!(percent_decode(&esc, 0, esc.len()), Some(raw));
    assert_eq!(percent_decode(b"%41%6a", 0, 6), Some(b"Aj".to_vec()));
}

#[test]
fn keys_are_hash_with_suffix() {
    let h = hash_bytes();
    let (s, l, c) = make_redis_keys(&h);
    assert_eq!(s, key(&h, "_seeders"));
    assert_eq!(l, key(&h, "_leechers"));
    assert_eq!(c, key(&h, "_cache"));
}

#[test]
fn compact_peer_encoding() {
    assert_eq!(ip_port(&vec![192, 168, 0, 1], 0x1234), vec![192, 168, 0, 1, 0x12, 0x34]);
}

#[test]
fn reply_caps_peers_at_fifty_each() {
    let seeders: Vec<Vec<u8>> = (0u8..60).map(|i| vec![i, 0, 0, 0, 0, 1]).collect();
    let leechers: Vec<Vec<u8>> = (0u8..70).map(|i| vec![i, 1, 1, 1, 0, 2]).collect();
    let body = announce_reply(60, 70, &seeders, &leechers);
    let head = b"d8:completei60e10:incompletei70e8:intervali1800e12:min intervali1800e5:peers600:";
    assert_eq!(&body[..head.len()], &head[..]);
    assert_eq!(body.len(), head.len() + 600 + 1);
    assert_eq!(&body[head.len()..head.len() + 6], &seeders[0][..]);
    assert_eq!(&body[head.len() + 294..head.len() + 300], &seeders[49][..]);
    assert_eq!(&body[head.len() + 300..head.len() + 306], &leechers[0][..]);
}

#[test]
fn reply_negative_count() {
    let body = announce_reply(-1, 0, &vec![], &vec![]);
    assert_eq!(
        body,
        b"d8:completei-1e10:incompletei0e8:intervali1800e12:min intervali1800e5:peers0:e".to_vec()
    );
}

#[test]
fn reply_round_trip_recovers_peers() {
    let seeders = vec![vec![1, 2, 3, 4, 5, 6], vec![7, 8, 9, 10, 11, 12]];
    let leechers = vec![vec![13, 14, 15, 16, 17, 18]];
    let body = announce_reply(2, 1, &seeders, &leechers);
    let marker = b"5:peers";
    let at = body.windows(marker.len()).position(|w| w == marker).unwrap() + marker.len();
    let colon = at + body[at..].iter().position(|&b| b == b':').unwrap();
    let n: usize = std::str::from_utf8(&body[at..colon]).unwrap().parse().unwrap();
    let blob = &body[colon + 1..colon + 1 + n];
    assert_eq!(body[colon + 1 + n], b'e');
    let peers: Vec<Vec<u8>> = blob.chunks(6).map(|c| c.to_vec()).collect();
    let mut expected = seeders.clone();
    expected.extend(leechers);
    assert_eq!(peers, expected);
}

#[test]
fn first_round_trip_reads() {
    let q = format!("info_hash={}&port=6881", hash_query(20));
    let a = parse(&q).unwrap();
    let h = hash_bytes();
    assert_eq!(
        read_commands(&a),
        vec![
            args(&[b"ZSCORE", &key(&h, "_seeders"), &peer()]),
            args(&[b"ZSCORE", &key(&h, "_leechers"), &peer()]),
            args(&[b"GET", &key(&h, "_cache")]),
        ]
    );
}

#[test]
fn range_reads_skip_stale_peers() {
    let q = format!("info_hash={}&port=6881", hash_query(20));
    let a = parse(&q).unwrap();
    let h = hash_bytes();
    let now: i64 = 1_700_000_000_000;
    assert_eq!(
        range_commands(&a, now),
        vec![
            args(&[b"ZRANGEBYSCORE", &key(&h, "_seeders"), b"1699998140000", b"1700000000000", b"LIMIT", b"0", b"50"]),
            args(&[b"ZRANGEBYSCORE", &key(&h, "_leechers"), b"1699998140000", b"1700000000000", b"LIMIT", b"0", b"50"]),
        ]
    );
}

#[test]
fn pipeline_holds_commands() {
    let cmds = vec![args(&[b"INCR", b"k"]), args(&[b"GET", b"a\x00b"])];
    let p = to_pipeline(&cmds, true);
    assert_eq!(
        p.get_packed_pipeline(),
        b"*2\r\n$4\r\nINCR\r\n$1\r\nk\r\n*2\r\n$3\r\nGET\r\n$3\r\na\x00b\r\n".to_vec()
    );
    assert_eq!(p.cmd_iter().count(), 2);
}
