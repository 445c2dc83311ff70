use smoothie::router::utils::{rank_servers, record_server_request, ServerRanker, CACHE_AFFINITY_TTL_NANOS};
use smoothie::router::ServerConfig;

fn server(id: &str, power: u32) -> ServerConfig {
    ServerConfig { id: id.into(), address: format!("127.0.0.1:{power}"), tunnel: false, tunnel_address: None, power }
}

#[test]
fn prefers_host_affinity_over_an_unscored_server() {
    let servers = vec![server("a", 1), server("b", 1)];
    let mut ranker = ServerRanker::new();

    ranker.record_request("b", "example.com", 1_000);

    assert_eq!(ranker.rank(&servers, "example.com", 1_000)[0].id, "b");
    assert_eq!(ranker.rank(&servers, "other.example", 1_000)[0].id, "a");
}

#[test]
fn decreases_score_for_each_served_request() {
    let servers = vec![server("a", 1), server("b", 1)];
    let mut ranker = ServerRanker::new();

    ranker.record_request("a", "first.example", 1_000);

    assert_eq!(ranker.rank(&servers, "other.example", 1_000)[0].id, "b");
}

#[test]
fn uses_power_to_break_equal_scores() {
    let servers = vec![server("small", 1), server("large", 4)];
    let mut ranker = ServerRanker::new();

    assert_eq!(ranker.rank(&servers, "example.com", 0)[0].id, "large");
}

#[test]
fn affinity_expires_after_a_day() {
    let servers = vec![server("a", 1), server("b", 1)];
    let mut ranker = ServerRanker::new();
    ranker.record_request("b", "example.com", 5);
    assert_eq!(ranker.rank(&servers, "example.com", 5 + CACHE_AFFINITY_TTL_NANOS - 1)[0].id, "b");
    assert_eq!(ranker.rank(&servers, "example.com", 5 + CACHE_AFFINITY_TTL_NANOS)[0].id, "a");
    assert_eq!(ranker.rank(&servers, "example.com", 5)[0].id, "a");
}

#[test]
fn ties_fall_back_to_the_smaller_id_and_keep_all_servers() {
    let servers = vec![server("c", 2), server("a", 2), server("b", 2), server("d", 9)];
    let mut ranker = ServerRanker::new();
    let ids: Vec<String> = rank_servers(&mut ranker, &servers, "h", 0).into_iter().map(|s| s.id).collect();
    assert_eq!(ids, vec!["d", "a", "b", "c"]);
    assert!(record_server_request(&mut ranker, "d", "h", 0));
    assert!(record_server_request(&mut ranker, "d", "x", 0));
    assert_eq!(ranker.served_count("d"), 2);
    let ids: Vec<String> = rank_servers(&mut ranker, &servers, "h", 0).into_iter().map(|s| s.id).collect();
    assert_eq!(ids, vec!["d", "a", "b", "c"]);
    let ids: Vec<String> = rank_servers(&mut ranker, &servers, "other", 0).into_iter().map(|s| s.id).collect();
    assert_eq!(ids, vec!["a", "b", "c", "d"]);
}
