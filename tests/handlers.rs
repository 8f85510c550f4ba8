use mycelium_api::api::{add_peer, delete_peer, get_fallback_routes, get_info, get_peers, get_selected_routes};
use mycelium_api::{
    AddPeer, ConnectionState, Endpoint, Metric, PeerManager, RouteRecord, Router, Status,
    INFINITE_METRIC,
};

const EXISTS: &str = "A peer identified by that endpoint already exists";
const NOT_FOUND: &str = "A peer identified by that endpoint does not exist";

fn body(text: &str) -> AddPeer {
    AddPeer { endpoint: text.to_string() }
}

fn empty_router() -> Router {
    Router { node_subnet: "400:1::/64".to_string(), selected: Vec::new(), fallback: Vec::new() }
}

fn record(subnet: &str, hop: &str, metric: u16, seqno: u16) -> RouteRecord {
    RouteRecord { subnet: subnet.to_string(), next_hop: hop.to_string(), metric, seqno }
}

#[test]
fn add_list_delete_scenario() {
    let mut pm = PeerManager::new();
    assert_eq!(Ok(Status::NoContent), add_peer(&mut pm, &body("203.0.113.5:9651")));
    let listed = get_peers(&pm);
    assert_eq!(1, listed.len());
    assert_eq!("tcp://203.0.113.5:9651", listed[0].endpoint.to_text());
    assert_eq!(Endpoint::parse("203.0.113.5:9651").unwrap(), listed[0].endpoint);
    assert_eq!(ConnectionState::Connecting, listed[0].connection_state);
    assert_eq!(Ok(Status::NoContent), delete_peer(&mut pm, "203.0.113.5:9651"));
    assert!(get_peers(&pm).is_empty());
    assert_eq!(
        Err((Status::NotFound, NOT_FOUND.to_string())),
        delete_peer(&mut pm, "203.0.113.5:9651")
    );
}

#[test]
fn empty_routing_table_lists_nothing() {
    let router = empty_router();
    assert!(get_selected_routes(&router).is_empty());
    assert!(get_fallback_routes(&router).is_empty());
}

#[test]
fn listing_twice_gives_equal_results() {
    let mut pm = PeerManager::new();
    add_peer(&mut pm, &body("1.2.3.4:5")).unwrap();
    add_peer(&mut pm, &body("quic://5.6.7.8:9")).unwrap();
    assert_eq!(get_peers(&pm), get_peers(&pm));
    let mut router = empty_router();
    router.selected.push(record("400:2::/64", "tcp://1.2.3.4:5", 7, 3));
    let a = get_selected_routes(&router);
    let b = get_selected_routes(&router);
    assert_eq!(a.len(), b.len());
    assert_eq!(a[0].subnet, b[0].subnet);
    assert_eq!(a[0].metric, b[0].metric);
}

#[test]
fn add_then_delete_restores_peers() {
    let mut pm = PeerManager::new();
    add_peer(&mut pm, &body("10.0.0.1:9651")).unwrap();
    let before = get_peers(&pm);
    assert_eq!(Ok(Status::NoContent), add_peer(&mut pm, &body("10.0.0.2:9651")));
    assert_eq!(Ok(Status::NoContent), delete_peer(&mut pm, "10.0.0.2:9651"));
    assert_eq!(before, get_peers(&pm));
}

#[test]
fn delete_absent_is_not_found_and_changes_nothing() {
    let mut pm = PeerManager::new();
    add_peer(&mut pm, &body("10.0.0.1:9651")).unwrap();
    let before = get_peers(&pm);
    assert_eq!(
        Err((Status::NotFound, NOT_FOUND.to_string())),
        delete_peer(&mut pm, "10.0.0.9:9651")
    );
    assert_eq!(before, get_peers(&pm));
}

#[test]
fn add_twice_conflicts() {
    let mut pm = PeerManager::new();
    assert_eq!(Ok(Status::NoContent), add_peer(&mut pm, &body("203.0.113.5:9651")));
    assert_eq!(
        Err((Status::Conflict, EXISTS.to_string())),
        add_peer(&mut pm, &body("tcp://203.0.113.5:9651"))
    );
    let e = Endpoint::parse("203.0.113.5:9651").unwrap();
    assert_eq!(1, get_peers(&pm).iter().filter(|p| p.endpoint == e).count());
}

#[test]
fn same_address_other_protocol_is_another_peer() {
    let mut pm = PeerManager::new();
    assert_eq!(Ok(Status::NoContent), add_peer(&mut pm, &body("1.1.1.1:1")));
    assert_eq!(Ok(Status::NoContent), add_peer(&mut pm, &body("quic://1.1.1.1:1")));
    assert_eq!(2, get_peers(&pm).len());
}

#[test]
fn malformed_endpoint_rejected_alike() {
    let mut pm = PeerManager::new();
    for text in ["", "nope", "300.1.1.1:1", "1.1.1.1"] {
        let a = add_peer(&mut pm, &body(text));
        let d = delete_peer(&mut pm, text);
        let expected = Err((Status::BadRequest, "invalid socket address syntax".to_string()));
        assert_eq!(expected, a);
        assert_eq!(expected, d);
    }
    assert!(get_peers(&pm).is_empty());
}

#[test]
fn route_views_map_metrics() {
    let mut router = empty_router();
    router.selected.push(record("400:2::/64", "tcp://1.2.3.4:5", 10, 7));
    router.selected.push(record("400:3::/64", "tcp://1.2.3.4:5", INFINITE_METRIC, 8));
    router.fallback.push(record("400:4::/64", "quic://5.6.7.8:9", 65534, 65535));
    let sel = get_selected_routes(&router);
    assert_eq!(2, sel.len());
    assert_eq!("400:2::/64", sel[0].subnet);
    assert_eq!("tcp://1.2.3.4:5", sel[0].next_hop);
    assert_eq!(Metric::Value(10), sel[0].metric);
    assert_eq!(7, sel[0].seqno);
    assert_eq!(Metric::Infinite, sel[1].metric);
    assert_eq!("\"infinite\"", sel[1].metric.to_json());
    let fb = get_fallback_routes(&router);
    assert_eq!(1, fb.len());
    assert_eq!("400:4::/64", fb[0].subnet);
    assert_eq!("quic://5.6.7.8:9", fb[0].next_hop);
    assert_eq!(Metric::Value(65534), fb[0].metric);
    assert_eq!(65535, fb[0].seqno);
}

#[test]
fn info_reports_node_subnet() {
    let router = empty_router();
    assert_eq!("400:1::/64", get_info(&router).node_subnet);
}

#[test]
fn status_codes() {
    assert_eq!(200, Status::Success.code());
    assert_eq!(204, Status::NoContent.code());
    assert_eq!(400, Status::BadRequest.code());
    assert_eq!(404, Status::NotFound.code());
    assert_eq!(409, Status::Conflict.code());
}
