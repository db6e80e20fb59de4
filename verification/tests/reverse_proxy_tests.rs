use candy::config::{default_weight, LoadBalanceType, Upstream, UpstreamServer};
use candy::web::reverse_proxy::{
    client_ip, pick_server, proxy_target, select_ip_hash, select_least_conn, select_round_robin,
    select_weighted_round_robin, upstream_uri, ProxyTarget,
};
use candy::web::proxy::ip_hash;

fn upstream(weights: &[u32], method: LoadBalanceType) -> Upstream {
    Upstream {
        name: "test".to_string(),
        server: weights
            .iter()
            .enumerate()
            .map(|(i, w)| UpstreamServer { server: format!("192.168.1.{}:8080", 100 + i), weight: *w })
            .collect(),
        method,
    }
}

#[test]
fn test_load_balance_type_equality() {
    assert_eq!(LoadBalanceType::RoundRobin, LoadBalanceType::RoundRobin);
    assert_eq!(LoadBalanceType::WeightedRoundRobin, LoadBalanceType::WeightedRoundRobin);
    assert_eq!(LoadBalanceType::IpHash, LoadBalanceType::IpHash);
    assert_eq!(LoadBalanceType::LeastConn, LoadBalanceType::LeastConn);
    assert_ne!(LoadBalanceType::RoundRobin, LoadBalanceType::WeightedRoundRobin);
    assert_ne!(LoadBalanceType::IpHash, LoadBalanceType::LeastConn);
}

#[test]
fn test_upstream_server_default_weight() {
    let server = UpstreamServer { server: "localhost:8080".to_string(), weight: default_weight() };
    assert_eq!(server.weight, 1);
}

#[test]
fn test_least_conn_counter() {
    let up = upstream(&[1, 1, 2], LoadBalanceType::LeastConn);
    let weights: Vec<u32> = up.server.iter().map(|s| s.weight).collect();
    assert_eq!(select_least_conn(&[1, 2, 1], &weights), 2);
}

#[test]
fn least_conn_more() {
    assert_eq!(select_least_conn(&[], &[]), 0);
    assert_eq!(select_least_conn(&[0, 0], &[1, 1]), 0);
    assert_eq!(select_least_conn(&[0, 0], &[1, 3]), 1);
    assert_eq!(select_least_conn(&[5, 1], &[0, 1]), 1);
    assert_eq!(select_least_conn(&[3, 4], &[1, 2]), 1);
}

#[test]
fn test_round_robin_selection() {
    let up = upstream(&[1, 1, 1], LoadBalanceType::RoundRobin);
    let picks: Vec<usize> = (0..6).map(|c| select_round_robin(c, up.server.len())).collect();
    assert_eq!(picks, vec![0, 1, 2, 0, 1, 2]);
}

#[test]
fn test_round_robin_single_server() {
    for c in 0..5 {
        assert_eq!(select_round_robin(c, 1), 0);
    }
}

#[test]
fn test_round_robin_distribution() {
    let mut counts = vec![0usize; 3];
    for c in 0..300 {
        counts[select_round_robin(c, 3)] += 1;
    }
    assert_eq!(counts, vec![100, 100, 100]);
}

#[test]
fn test_weighted_round_robin_selection() {
    let weights = [1, 2, 3];
    let mut counts = vec![0usize; 3];
    for c in 0..6 {
        counts[select_weighted_round_robin(c, &weights)] += 1;
    }
    assert_eq!(counts, vec![1, 2, 3]);
    let picks: Vec<usize> = (0..6).map(|c| select_weighted_round_robin(c, &weights)).collect();
    assert_eq!(picks, vec![0, 1, 1, 2, 2, 2]);
}

#[test]
fn test_weighted_round_robin_equal_weights() {
    let weights = [2, 2, 2];
    let mut counts = vec![0usize; 3];
    for c in 0..6 {
        counts[select_weighted_round_robin(c, &weights)] += 1;
    }
    assert_eq!(counts, vec![2, 2, 2]);
}

#[test]
fn ip_hash_selection_is_sticky() {
    let a = select_ip_hash("10.0.0.1", 3);
    assert_eq!(a, select_ip_hash("10.0.0.1", 3));
    assert!(a < 3);
}

#[test]
fn client_ip_choice() {
    assert_eq!(client_ip(Some("1.1.1.1, 2.2.2.2"), Some("3.3.3.3")), Some("1.1.1.1".to_string()));
    assert_eq!(client_ip(None, Some("3.3.3.3")), Some("3.3.3.3".to_string()));
    assert_eq!(client_ip(None, None), None);
}

#[test]
fn upstream_addresses() {
    assert_eq!(upstream_uri("127.0.0.1:8080", "/a?b"), "http://127.0.0.1:8080/a?b");
    assert_eq!(upstream_uri("https://x.org//", "/p"), "https://x.org/p");
    assert_eq!(upstream_uri("http://y/", ""), "http://y");
}

#[test]
fn proxy_target_prefers_proxy_pass() {
    let ups = vec![upstream(&[1, 1], LoadBalanceType::RoundRobin)];
    let r = proxy_target(Some("http://backend:9000"), Some("test"), &ups, "/a?b=1", 0, &[], None, None);
    assert_eq!(r, ProxyTarget::Pass("http://backend:9000/a?b=1".to_string()));
}

#[test]
fn proxy_target_round_robin_walks_servers() {
    let ups = vec![upstream(&[1, 1, 1], LoadBalanceType::RoundRobin)];
    let r = proxy_target(None, Some("test"), &ups, "/x", 4, &[], None, None);
    assert_eq!(r, ProxyTarget::Upstream("http://192.168.1.101:8080/x".to_string(), 1));
}

#[test]
fn proxy_target_weighted_round_robin() {
    let ups = vec![upstream(&[3, 1], LoadBalanceType::WeightedRoundRobin)];
    assert_eq!(
        proxy_target(None, Some("test"), &ups, "/", 2, &[], None, None),
        ProxyTarget::Upstream("http://192.168.1.100:8080/".to_string(), 0)
    );
    assert_eq!(
        proxy_target(None, Some("test"), &ups, "/", 7, &[], None, None),
        ProxyTarget::Upstream("http://192.168.1.101:8080/".to_string(), 1)
    );
}

#[test]
fn proxy_target_ip_hash_needs_client_address() {
    let ups = vec![upstream(&[1, 1, 1], LoadBalanceType::IpHash)];
    assert_eq!(proxy_target(None, Some("test"), &ups, "/", 0, &[], None, None), ProxyTarget::BadRequest);
    let expected = ip_hash("10.0.0.7") % 3;
    assert_eq!(
        proxy_target(None, Some("test"), &ups, "/p", 0, &[], Some("10.0.0.7, 10.0.0.1"), Some("1.2.3.4")),
        ProxyTarget::Upstream(format!("http://192.168.1.{}:8080/p", 100 + expected), expected)
    );
    assert_eq!(pick_server(&ups[0], 0, &[], None, Some("10.0.0.7")), Some(expected));
}

#[test]
fn proxy_target_least_conn_and_missing_upstream() {
    let ups = vec![upstream(&[1, 1, 2], LoadBalanceType::LeastConn)];
    assert_eq!(
        proxy_target(None, Some("test"), &ups, "/q", 0, &[1, 2, 1], None, None),
        ProxyTarget::Upstream("http://192.168.1.102:8080/q".to_string(), 2)
    );
    assert_eq!(proxy_target(None, Some("other"), &ups, "/q", 0, &[], None, None), ProxyTarget::InternalError);
    assert_eq!(proxy_target(None, None, &ups, "/q", 0, &[], None, None), ProxyTarget::CustomPage);
}
