use botbridge::clients::router::RouterClient;
use botbridge::protocol::entity::{Bot, BotCapabilities, BotId, EntityAvatar};
use botbridge::protocol::result::{ClientError, ClientErrorKind, ClientResult};

// Sub-clients are opaque handles to the router; a number is enough here.
type Handle = u32;

fn bot(id: &str) -> Bot {
    Bot {
        id: BotId::new(id),
        name: id.to_string(),
        avatar: EntityAvatar::Text("B".to_string()),
        capabilities: BotCapabilities::new(),
    }
}

fn ok_bots(ids: &[&str]) -> ClientResult<Vec<Bot>> {
    ClientResult::new_ok(ids.iter().map(|id| bot(id)).collect())
}

fn refresh_all(router: &mut RouterClient<Handle>, results: Vec<ClientResult<Vec<Bot>>>) {
    let keys = router.keys_to_refresh();
    assert_eq!(keys.len(), results.len());
    router.apply_refresh(&keys, results);
}

#[test]
fn inserted_client_is_listed_namespaced() {
    let mut router: RouterClient<Handle> = RouterClient::new();
    router.insert_client("a", 1);
    refresh_all(&mut router, vec![ok_bots(&["m1"])]);
    let listed = router.aggregate_bots();
    assert!(!listed.has_errors());
    let bots = listed.value().unwrap();
    assert_eq!(bots.len(), 1);
    assert_eq!(bots[0].id.as_str(), "a/m1");
    assert_eq!(bots[0].name, "m1");
}

#[test]
fn clean_cache_is_not_refetched() {
    let mut router: RouterClient<Handle> = RouterClient::new();
    router.insert_client("a", 1);
    assert_eq!(router.keys_to_refresh(), vec!["a".to_string()]);
    refresh_all(&mut router, vec![ok_bots(&["m1"])]);
    // A second listing pass has nothing to refetch: the first result was
    // error-free.
    assert_eq!(router.keys_to_refresh().len(), 0);
}

#[test]
fn errored_cache_is_refetched() {
    let mut router: RouterClient<Handle> = RouterClient::new();
    router.insert_client("a", 1);
    refresh_all(
        &mut router,
        vec![ClientResult::new_err(ClientError::new(
            ClientErrorKind::Network,
            "down".to_string(),
        ))],
    );
    // The stored result carried an error, so the key is selected again.
    assert_eq!(router.keys_to_refresh(), vec!["a".to_string()]);
}

#[test]
fn empty_cached_success_is_not_refetched() {
    let mut router: RouterClient<Handle> = RouterClient::new();
    router.insert_client("a", 1);
    refresh_all(&mut router, vec![ok_bots(&[])]);
    assert_eq!(router.keys_to_refresh().len(), 0);
    let listed = router.aggregate_bots();
    assert!(!listed.has_errors());
    assert_eq!(listed.value().unwrap().len(), 0);
}

#[test]
fn one_failing_subclient_does_not_suppress_the_other() {
    let mut router: RouterClient<Handle> = RouterClient::new();
    router.insert_client("x", 1);
    router.insert_client("y", 2);
    let keys = router.keys_to_refresh();
    assert_eq!(keys, vec!["x".to_string(), "y".to_string()]);
    router.apply_refresh(
        &keys,
        vec![
            ok_bots(&["m1", "m2"]),
            ClientResult::new_err(ClientError::new(
                ClientErrorKind::Response,
                "backend said no".to_string(),
            )),
        ],
    );
    let listed = router.aggregate_bots();
    let bots = listed.value().unwrap();
    assert_eq!(bots.len(), 2);
    assert_eq!(bots[0].id.as_str(), "x/m1");
    assert_eq!(bots[1].id.as_str(), "x/m2");
    assert_eq!(listed.errors().len(), 1);
    assert_eq!(listed.errors()[0].message_text(), "backend said no");
}

#[test]
fn all_subclients_failing_is_a_pure_failure() {
    // When every contributor lacks a value the merged value is absent too:
    // the listing is a pure failure carrying all errors in entry order.
    let mut router: RouterClient<Handle> = RouterClient::new();
    router.insert_client("x", 1);
    router.insert_client("y", 2);
    let keys = router.keys_to_refresh();
    router.apply_refresh(
        &keys,
        vec![
            ClientResult::new_err(ClientError::new(ClientErrorKind::Network, "x down".to_string())),
            ClientResult::new_err(ClientError::new(ClientErrorKind::Response, "y said no".to_string())),
        ],
    );
    let listed = router.aggregate_bots();
    assert!(listed.value().is_none());
    let messages: Vec<&str> = listed.errors().iter().map(|e| e.message_text()).collect();
    assert_eq!(messages, vec!["x down", "y said no"]);
}

#[test]
fn uncached_router_lists_empty_success() {
    // Entries exist but nothing is cached yet: an empty success, no failure.
    let mut router: RouterClient<Handle> = RouterClient::new();
    router.insert_client("a", 1);
    let listed = router.aggregate_bots();
    assert!(!listed.has_errors());
    assert_eq!(listed.value().unwrap().len(), 0);
}

#[test]
fn empty_router_lists_empty_success() {
    let router: RouterClient<Handle> = RouterClient::new();
    let listed = router.aggregate_bots();
    assert!(!listed.has_errors());
    assert_eq!(listed.value().unwrap().len(), 0);
}

#[test]
fn route_splits_on_first_separator() {
    let (key, id) = RouterClient::<Handle>::split_route(&BotId::new("a/m1")).ok().unwrap();
    assert_eq!(key, "a");
    assert_eq!(id.as_str(), "m1");

    // Only the first `/` is significant.
    let (key, id) = RouterClient::<Handle>::split_route(&BotId::new("a/m/1")).ok().unwrap();
    assert_eq!(key, "a");
    assert_eq!(id.as_str(), "m/1");
}

#[test]
fn route_without_separator_fails_before_any_lookup() {
    let e = RouterClient::<Handle>::split_route(&BotId::new("m1")).err().unwrap();
    assert_eq!(e.kind, ClientErrorKind::Unknown);
    assert_eq!(e.message_text(), "The bot id does not belong to a router: m1");
}

#[test]
fn route_to_missing_key_resolves_no_client() {
    let mut router: RouterClient<Handle> = RouterClient::new();
    router.insert_client("a", 1);
    let (key, _id) = RouterClient::<Handle>::split_route(&BotId::new("missing/m1")).ok().unwrap();
    assert!(router.get_client(&key).is_none());
    let e = RouterClient::<Handle>::no_client_error(&BotId::new("missing/m1"));
    assert_eq!(e.kind, ClientErrorKind::Unknown);
    assert_eq!(e.message_text(), "This router has no client for the given bot id: missing/m1");
}

#[test]
fn route_to_registered_key_resolves_client() {
    let mut router: RouterClient<Handle> = RouterClient::new();
    router.insert_client("a", 7);
    let (key, id) = RouterClient::<Handle>::split_route(&BotId::new("a/m1")).ok().unwrap();
    assert_eq!(router.get_client(&key), Some(&7));
    assert_eq!(id.as_str(), "m1");
}

#[test]
fn invalidate_one_key_leaves_others_cached() {
    let mut router: RouterClient<Handle> = RouterClient::new();
    router.insert_client("a", 1);
    router.insert_client("b", 2);
    refresh_all(&mut router, vec![ok_bots(&["m1"]), ok_bots(&["m2"])]);
    assert_eq!(router.keys_to_refresh().len(), 0);

    router.invalidate_bots_cache("a");
    // Exactly one refetch: key "a"; key "b" keeps its clean cache.
    assert_eq!(router.keys_to_refresh(), vec!["a".to_string()]);

    refresh_all(&mut router, vec![ok_bots(&["m1-refreshed"])]);
    let listed = router.aggregate_bots();
    let ids: Vec<&str> = listed.value().unwrap().iter().map(|b| b.id.as_str()).collect();
    assert_eq!(ids, vec!["a/m1-refreshed", "b/m2"]);
}

#[test]
fn invalidate_all_clears_every_cache() {
    let mut router: RouterClient<Handle> = RouterClient::new();
    router.insert_client("a", 1);
    router.insert_client("b", 2);
    refresh_all(&mut router, vec![ok_bots(&["m1"]), ok_bots(&["m2"])]);
    router.invalidate_all_bots_cache();
    assert_eq!(router.keys_to_refresh(), vec!["a".to_string(), "b".to_string()]);
}

#[test]
fn insert_replaces_client_and_resets_cache() {
    let mut router: RouterClient<Handle> = RouterClient::new();
    router.insert_client("a", 1);
    refresh_all(&mut router, vec![ok_bots(&["m1"])]);
    assert_eq!(router.keys_to_refresh().len(), 0);

    router.insert_client("a", 2);
    assert_eq!(router.get_client("a"), Some(&2));
    // The replaced entry starts with an unset cache.
    assert_eq!(router.keys_to_refresh(), vec!["a".to_string()]);
}

#[test]
fn remove_client_drops_entry_and_cache() {
    let mut router: RouterClient<Handle> = RouterClient::new();
    router.insert_client("a", 1);
    router.insert_client("b", 2);
    refresh_all(&mut router, vec![ok_bots(&["m1"]), ok_bots(&["m2"])]);
    router.remove_client("a");
    assert!(router.get_client("a").is_none());
    assert_eq!(router.get_client("b"), Some(&2));
    let listed = router.aggregate_bots();
    let ids: Vec<&str> = listed.value().unwrap().iter().map(|b| b.id.as_str()).collect();
    assert_eq!(ids, vec!["b/m2"]);
}

#[test]
fn stale_write_back_is_dropped() {
    let mut router: RouterClient<Handle> = RouterClient::new();
    router.insert_client("a", 1);
    let keys = router.keys_to_refresh();
    // The entry disappears while its directory call is in flight.
    router.remove_client("a");
    router.apply_refresh(&keys, vec![ok_bots(&["m1"])]);
    let listed = router.aggregate_bots();
    assert!(!listed.has_errors());
    assert_eq!(listed.value().unwrap().len(), 0);
}

#[test]
fn prefix_and_unprefix() {
    let id = RouterClient::<Handle>::prefix("a", &BotId::new("m1"));
    assert_eq!(id.as_str(), "a/m1");
    let (key, inner) = RouterClient::<Handle>::unprefix(&id).unwrap();
    assert_eq!(key, "a");
    assert_eq!(inner.as_str(), "m1");
    assert!(RouterClient::<Handle>::unprefix(&BotId::new("m1")).is_none());
}
