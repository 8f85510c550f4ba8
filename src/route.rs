//! The routing table as the node holds it, and the views of it that the API serves.
use vstd::prelude::*;

use crate::metric::Metric;

verus! {

/// The internal metric value that marks a route as unreachable.
pub const INFINITE_METRIC: u16 = 0xFFFF;

/// A route as the router records it.
pub struct RouteRecord {
    /// The destination subnet, in text form.
    pub subnet: String,
    /// The connection identifier of the neighbour the route goes through.
    pub next_hop: String,
    /// The route's metric; `INFINITE_METRIC` means unreachable.
    pub metric: u16,
    /// The route's sequence number.
    pub seqno: u16,
}

/// The routing state that the API reads: the node's own subnet and its selected and
/// fallback routes.
pub struct Router {
    /// The overlay subnet of this node, in text form.
    pub node_subnet: String,
    /// The route chosen as best for each destination.
    pub selected: Vec<RouteRecord>,
    /// The routes kept as alternatives.
    pub fallback: Vec<RouteRecord>,
}

/// Info about a route, in plain values.
pub struct Route {
    /// The destination subnet, in text form.
    pub subnet: String,
    /// Next hop of the route, in the underlay.
    pub next_hop: String,
    /// Computed metric of the route.
    pub metric: Metric,
    /// Sequence number of the route.
    pub seqno: u16,
}

/// General info about a node.
pub struct Info {
    /// The overlay subnet in use by the node.
    pub node_subnet: String,
}

/// The API metric of an internal metric value.
pub open spec fn metric_of(m: u16) -> Metric {
    if m == INFINITE_METRIC {
        Metric::Infinite
    } else {
        Metric::Value(m)
    }
}

/// The view of one route record.
pub open spec fn route_view(rec: RouteRecord) -> Route {
    Route { subnet: rec.subnet, next_hop: rec.next_hop, metric: metric_of(rec.metric), seqno: rec.seqno }
}

/// The views of a list of route records, in the same order.
pub open spec fn routes_view(recs: Seq<RouteRecord>) -> Seq<Route> {
    recs.map_values(|rec: RouteRecord| route_view(rec))
}

/// The API metric of an internal metric value.
pub fn to_metric(m: u16) -> (r: Metric)
    ensures
        r == metric_of(m),
{
    if m == INFINITE_METRIC {
        Metric::Infinite
    } else {
        Metric::Value(m)
    }
}

/// The view of one route record.
pub fn to_route(rec: &RouteRecord) -> (r: Route)
    ensures
        r == route_view(*rec),
{
    Route {
        subnet: rec.subnet.clone(),
        next_hop: rec.next_hop.clone(),
        metric: to_metric(rec.metric),
        seqno: rec.seqno,
    }
}

/// The views of a list of route records, in the same order.
pub fn to_routes(recs: &Vec<RouteRecord>) -> (r: Vec<Route>)
    ensures
        r@ == routes_view(recs@),
{
    let mut out: Vec<Route> = Vec::new();
    let mut i: usize = 0;
    while i < recs.len()
        invariant
            i <= recs@.len(),
            out@ == routes_view(recs@.subrange(0, i as int)),
        decreases recs@.len() - i,
    {
        out.push(to_route(&recs[i]));
        i = i + 1;
        assert(out@ =~= routes_view(recs@.subrange(0, i as int)));
    }
    assert(recs@.subrange(0, i as int) =~= recs@);
    out
}

} // verus!
