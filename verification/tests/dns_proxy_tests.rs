use hickory_proto::op::{Message, ResponseCode};
use ip_firewall::dns_message::{
    blocked_response, checked_reply, is_nxdomain_answer, judge_upstream_reply, parse_query,
    upstream_reply_valid, UpstreamVerdict,
};
use ip_firewall::dns_proxy::{
    bind_error, blocklist_set, cache_key, domain_matches, finish_forward, is_upstream_source,
    query_domain, resolve_query, tcp_frame_length, tcp_length_prefix, with_request_id,
    DomainSet, ProxyEvent, Resolution, ResponseCache,
};

/// A query for `www.example.com`, type A, class IN, id 0x1234.
fn www_example_query() -> Vec<u8> {
    vec![
        0x12, 0x34, 0x01, 0x00, 0x00, 0x01, 0x00, 0x00, 0x00, 0x00, 0x00, 0x00, 0x03, b'w',
        b'w', b'w', 0x07, b'e', b'x', b'a', b'm', b'p', b'l', b'e', 0x03, b'c', b'o', b'm',
        0x00, 0x00, 0x01, 0x00, 0x01,
    ]
}

#[test]
fn blocked_response_preserves_query_id_and_returns_nxdomain() {
    let request = [
        0x12, 0x34, 0x01, 0x00, 0x00, 0x01, 0x00, 0x00, 0x00, 0x00, 0x00, 0x00, 0x03, b'w',
        b'w', b'w', 0x07, b'e', b'x', b'a', b'm', b'p', b'l', b'e', 0x03, b'c', b'o', b'm',
        0x00, 0x00, 0x01, 0x00, 0x01,
    ];
    let response = Message::from_vec(&blocked_response(&request).unwrap()).unwrap();
    assert_eq!(response.id(), 0x1234);
    assert_eq!(response.response_code(), ResponseCode::NXDomain);
}

#[test]
fn blocked_response_header_answers_the_query() {
    let request = www_example_query();
    let reply = blocked_response(&request).unwrap();
    assert_ne!(reply, request);
    assert_eq!(&reply[..2], &[0x12, 0x34]);
    assert_eq!(reply[2] & 0x80, 0x80);
    assert_eq!(reply[2] & 0x04, 0x04);
    assert_eq!(reply[2] & 0x01, 0x01);
    assert_eq!(reply[3] & 0x0f, 3);
    assert_eq!(&reply[4..10], &[0, 1, 0, 0, 0, 0]);
    assert!(is_nxdomain_answer(&request, &reply));
    assert!(!is_nxdomain_answer(&request, &request));
    assert!(!is_nxdomain_answer(&request[..11], &reply));
    let decoded = Message::from_vec(&reply).unwrap();
    assert!(decoded.authoritative());
    assert!(decoded.answers().is_empty());
    assert_eq!(decoded.queries().len(), 1);
}

#[test]
fn blocked_response_refuses_undecodable_packets() {
    let err = blocked_response(&[0x12, 0x34, 0x01]).unwrap_err();
    assert!(err.starts_with("Unable to decode DNS query: "));
}

#[test]
fn checked_reply_keeps_only_answering_headers() {
    let request = www_example_query();
    assert_eq!(
        checked_reply(&request, Ok(request.clone())).unwrap_err(),
        "Unable to encode DNS response: the reply header does not answer the query"
    );
    assert_eq!(
        checked_reply(&request, Err("boom".to_string())).unwrap_err(),
        "Unable to encode DNS response: boom"
    );
    let reply = blocked_response(&request).unwrap();
    assert_eq!(checked_reply(&request, Ok(reply.clone())).unwrap(), reply);
}

#[test]
fn parse_query_reads_id_flag_and_first_question() {
    let info = parse_query(&www_example_query()).unwrap();
    assert_eq!(info.id, 0x1234);
    assert!(!info.truncated);
    assert_eq!(info.question.name, "www.example.com.");
    assert_eq!(
        info.question.labels,
        vec![b"www".to_vec(), b"example".to_vec(), b"com".to_vec()]
    );
    assert_eq!(info.question.query_type, 1);
    assert_eq!(info.question.query_class, 1);
    assert_eq!(query_domain(&info.question.name), "www.example.com");
    assert!(parse_query(&[0x12, 0x34, 0x01]).is_none());
    assert!(parse_query(&[0x12, 0x34, 0x01, 0, 0, 0, 0, 0, 0, 0, 0, 0]).is_none());
}

/// `www_example_query` answered: the response bit set, the name in capitals.
fn upstream_reply(id: [u8; 2], flags: u8) -> Vec<u8> {
    let mut reply = www_example_query();
    reply[0] = id[0];
    reply[1] = id[1];
    reply[2] = flags;
    for byte in reply[12..29].iter_mut() {
        byte.make_ascii_uppercase();
    }
    reply
}

#[test]
fn upstream_replies_must_come_from_a_resolver_and_answer_the_query() {
    let request = parse_query(&www_example_query()).unwrap();
    let reply = || parse_query(&upstream_reply([0x12, 0x34], 0x81));
    assert!(upstream_reply_valid("1.1.1.1:53", &request, reply()));
    assert!(upstream_reply_valid("8.8.8.8:53", &request, reply()));
    assert!(!upstream_reply_valid("9.9.9.9:53", &request, reply()));
    assert!(!upstream_reply_valid("1.1.1.1:53", &request, None));
    let other_id = parse_query(&upstream_reply([0x12, 0x35], 0x81));
    assert!(!upstream_reply_valid("1.1.1.1:53", &request, other_id));
    let mut aaaa = upstream_reply([0x12, 0x34], 0x81);
    aaaa[30] = 28;
    assert!(!upstream_reply_valid("1.1.1.1:53", &request, parse_query(&aaaa)));
    let mut other_name = upstream_reply([0x12, 0x34], 0x81);
    other_name[13] = b'X';
    assert!(!upstream_reply_valid("1.1.1.1:53", &request, parse_query(&other_name)));
}

#[test]
fn truncated_upstream_replies_are_fetched_again_over_tcp() {
    let request = parse_query(&www_example_query()).unwrap();
    let whole = parse_query(&upstream_reply([0x12, 0x34], 0x81));
    let truncated = parse_query(&upstream_reply([0x12, 0x34], 0x83));
    assert!(truncated.as_ref().unwrap().truncated);
    assert!(matches!(
        judge_upstream_reply("1.1.1.1:53", &request, whole),
        UpstreamVerdict::Accept
    ));
    assert!(matches!(
        judge_upstream_reply("1.1.1.1:53", &request, truncated),
        UpstreamVerdict::RetryOverTcp
    ));
    let stray = parse_query(&upstream_reply([0x12, 0x34], 0x83));
    assert!(matches!(
        judge_upstream_reply("10.0.0.1:53", &request, stray),
        UpstreamVerdict::Mismatch
    ));
}

#[test]
fn blocked_domains_match_subdomains_without_matching_lookalikes() {
    let blocked = blocklist_set(vec!["example.com".to_string()]);
    assert!(domain_matches("ads.example.com", &blocked));
    assert!(domain_matches("example.com", &blocked));
    assert!(!domain_matches("notexample.com", &blocked));
}

#[test]
fn blocklist_set_lowercases_and_deduplicates() {
    let a = blocklist_set(vec!["Ads.Example".to_string(), "ads.example".to_string()]);
    let b = blocklist_set(vec!["ads.example".to_string()]);
    assert!(a.same_domains(&b));
    assert!(domain_matches("x.ads.example", &a));
    let c = blocklist_set(vec!["other.example".to_string()]);
    assert!(!a.same_domains(&c));
    assert!(b.is_subset_of(&a));
    assert!(!domain_matches("anything", &DomainSet::new()));
}

#[test]
fn subdomains_of_blocked_names_are_blocked() {
    let blocked = blocklist_set(vec!["tracker.net".to_string()]);
    for name in ["tracker.net", "a.tracker.net", "b.a.tracker.net"] {
        assert!(domain_matches(name, &blocked));
    }
    assert!(!domain_matches("tracker.net.evil", &blocked));
    assert!(!domain_matches("xtracker.net", &blocked));
}

#[test]
fn query_domain_drops_root_dots_and_lowercases() {
    assert_eq!(query_domain("WWW.Example.COM."), "www.example.com");
    assert_eq!(query_domain("a.b.."), "a.b");
}

#[test]
fn cache_serves_fresh_responses_with_the_new_id() {
    let blocked = blocklist_set(vec!["blocked.example".to_string()]);
    let mut cache = ResponseCache::new();
    let query1 = vec![0x00, 0x01, 0xaa, 0xbb];
    let query2 = vec![0x00, 0x02, 0xaa, 0xbb];
    assert!(matches!(
        resolve_query(&query1, "ok.example", &blocked, &mut cache, 1_000),
        Ok((Resolution::Forward, ProxyEvent::Forwarded))
    ));
    let sent = finish_forward(&query1, vec![0x77, 0x77, 0xcc], &mut cache, 1_000);
    assert_eq!(sent, vec![0x00, 0x01, 0xcc]);
    assert_eq!(cache.len(), 1);
    match resolve_query(&query2, "ok.example", &blocked, &mut cache, 30_999) {
        Ok((Resolution::Cached(r), ProxyEvent::CacheHit)) => assert_eq!(r, vec![0x00, 0x02, 0xcc]),
        _ => panic!("expected a cached response"),
    }
    assert!(matches!(
        resolve_query(&query2, "ok.example", &blocked, &mut cache, 31_000),
        Ok((Resolution::Forward, ProxyEvent::Forwarded))
    ));
    assert_eq!(cache.len(), 0);
}

#[test]
fn blocked_queries_are_answered_nxdomain_and_leave_the_cache_alone() {
    let blocked = blocklist_set(vec!["example.com".to_string()]);
    let mut cache = ResponseCache::new();
    let query = www_example_query();
    finish_forward(&query, vec![0, 0, 7], &mut cache, 0);
    assert_eq!(cache.len(), 1);
    match resolve_query(&query, "www.example.com", &blocked, &mut cache, 10) {
        Ok((Resolution::Blocked(reply), ProxyEvent::Blocked)) => {
            assert_eq!(reply, blocked_response(&query).unwrap());
            assert!(is_nxdomain_answer(&query, &reply));
            let decoded = Message::from_vec(&reply).unwrap();
            assert_eq!(decoded.id(), 0x1234);
            assert_eq!(decoded.response_code(), ResponseCode::NXDomain);
        }
        _ => panic!("expected an NXDOMAIN answer"),
    }
    assert_eq!(cache.len(), 1);
    match resolve_query(&[0, 1, 2], "x.example.com", &blocked, &mut cache, 10) {
        Err(e) => assert!(e.starts_with("Unable to decode DNS query: ")),
        Ok(_) => panic!("an undecodable query cannot be answered"),
    }
}

#[test]
fn short_upstream_replies_are_passed_through_uncached() {
    let mut cache = ResponseCache::new();
    let sent = finish_forward(&[1, 2, 3], vec![9], &mut cache, 5);
    assert_eq!(sent, vec![9]);
    assert_eq!(cache.len(), 0);
}

#[test]
fn cache_keys_and_ids() {
    assert_eq!(cache_key(&[1, 2, 3, 4]), vec![3, 4]);
    assert_eq!(cache_key(&[7]), vec![7]);
    assert_eq!(with_request_id(vec![0, 0, 5], &[9, 8, 1]), vec![9, 8, 5]);
}

#[test]
fn cache_prunes_stale_entries_when_full() {
    let mut cache = ResponseCache::new();
    for i in 0..4096u32 {
        let key = i.to_be_bytes().to_vec();
        let mut packet = vec![0, 0];
        packet.extend_from_slice(&key);
        finish_forward(&packet, vec![0, 0, 1], &mut cache, 0);
    }
    assert_eq!(cache.len(), 4096);
    finish_forward(&[0, 0, 9, 9, 9, 9, 9], vec![0, 0, 2], &mut cache, 40_000);
    assert_eq!(cache.len(), 1);
}

#[test]
fn tcp_framing() {
    assert_eq!(tcp_frame_length([0, 0]), None);
    assert_eq!(tcp_frame_length([0x01, 0x02]), Some(258));
    assert_eq!(tcp_frame_length([0xff, 0xff]), Some(65_535));
    assert_eq!(tcp_length_prefix(258), [0x01, 0x02]);
    assert_eq!(tcp_length_prefix(65_536 + 3), [0, 3]);
}

#[test]
fn upstream_sources_and_bind_errors() {
    assert!(is_upstream_source("1.1.1.1:53"));
    assert!(is_upstream_source("8.8.8.8:53"));
    assert!(!is_upstream_source("1.1.1.1:5353"));
    assert_eq!(
        bind_error("UDP", "127.0.0.1:53", false, "denied"),
        "Unable to start UDP DNS on 127.0.0.1:53: denied"
    );
    assert_eq!(
        bind_error("TCP", "[::1]:53", true, "ignored"),
        "Unable to start TCP DNS on [::1]:53: port 53 is already in use. Disable Internet Connection Sharing or another DNS service, then retry. Hosts-file protection can still be used as a fallback."
    );
}

#[test]
fn proxy_event_fields() {
    let (k, a, d) = ProxyEvent::Blocked.fields();
    assert_eq!((k.as_str(), a.as_str(), d.as_str()), ("blocked", "sinkhole", "DNS query blocked"));
    let (k, a, d) = ProxyEvent::CacheHit.fields();
    assert_eq!(
        (k.as_str(), a.as_str(), d.as_str()),
        ("allowed", "cache", "DNS response served from cache")
    );
    let (k, a, d) = ProxyEvent::Forwarded.fields();
    assert_eq!((k.as_str(), a.as_str(), d.as_str()), ("allowed", "forwarded", "DNS query forwarded"));
}
