//! The admin request handlers: each takes the node state and the request's input, and
//! gives the reply's status and body.
use vstd::prelude::*;

use crate::endpoint::{endpoint_of, parse_error_message, Endpoint};
use crate::peer::{
    has_endpoint, new_peer, peers_after_add, peers_after_delete, position_of, unique_endpoints,
    PeerManager, PeerStats,
};
use crate::route::{routes_view, to_routes, Info, Route, Router};

verus! {

/// The HTTP statuses that the admin API replies with.
#[derive(Clone, Copy, Debug, PartialEq, Eq, Structural)]
pub enum Status {
    Success,
    NoContent,
    BadRequest,
    NotFound,
    Conflict,
}

/// Payload of an add_peer request
pub struct AddPeer {
    /// The endpoint used to connect to the peer
    pub endpoint: String,
}

/// A reply without a body on success, or a status and a message on failure.
pub type Reply = Result<Status, (Status, String)>;

/// The numeric HTTP code of a status.
pub open spec fn status_code(s: Status) -> u16 {
    match s {
        Status::Success => 200,
        Status::NoContent => 204,
        Status::BadRequest => 400,
        Status::NotFound => 404,
        Status::Conflict => 409,
    }
}

impl Status {
    /// The numeric HTTP code of the status.
    pub fn code(&self) -> (r: u16)
        ensures
            r == status_code(*self),
    {
        match self {
            Status::Success => 200,
            Status::NoContent => 204,
            Status::BadRequest => 400,
            Status::NotFound => 404,
            Status::Conflict => 409,
        }
    }
}

/// The status a reply carries.
pub open spec fn status_of(r: Reply) -> Status {
    match r {
        Ok(s) => s,
        Err((s, _)) => s,
    }
}

/// The body a reply carries: nothing on success, the message on failure.
pub open spec fn body_of(r: Reply) -> Seq<char> {
    match r {
        Ok(_) => Seq::<char>::empty(),
        Err((_, m)) => m@,
    }
}

/// The message of a rejected addition of a known peer.
pub open spec fn peer_exists_message() -> Seq<char> {
    "A peer identified by that endpoint already exists"@
}

/// The message of a rejected removal of an unknown peer.
pub open spec fn peer_not_found_message() -> Seq<char> {
    "A peer identified by that endpoint does not exist"@
}

/// The status of adding the peer whose endpoint text is `text` to the peers `s`.
pub open spec fn add_peer_status(s: Seq<PeerStats>, text: Seq<char>) -> Status {
    match endpoint_of(text) {
        Err(_) => Status::BadRequest,
        Ok(e) => if has_endpoint(s, e) {
            Status::Conflict
        } else {
            Status::NoContent
        },
    }
}

/// The body of the reply to adding the peer whose endpoint text is `text`.
pub open spec fn add_peer_body(s: Seq<PeerStats>, text: Seq<char>) -> Seq<char> {
    match endpoint_of(text) {
        Err(_) => parse_error_message(),
        Ok(e) => if has_endpoint(s, e) {
            peer_exists_message()
        } else {
            Seq::<char>::empty()
        },
    }
}

/// The peers after adding the peer whose endpoint text is `text`.
pub open spec fn add_peer_effect(s: Seq<PeerStats>, text: Seq<char>) -> Seq<PeerStats> {
    match endpoint_of(text) {
        Err(_) => s,
        Ok(e) => peers_after_add(s, e),
    }
}

/// The status of removing the peer whose endpoint text is `text` from the peers `s`.
pub open spec fn delete_peer_status(s: Seq<PeerStats>, text: Seq<char>) -> Status {
    match endpoint_of(text) {
        Err(_) => Status::BadRequest,
        Ok(e) => if has_endpoint(s, e) {
            Status::NoContent
        } else {
            Status::NotFound
        },
    }
}

/// The body of the reply to removing the peer whose endpoint text is `text`.
pub open spec fn delete_peer_body(s: Seq<PeerStats>, text: Seq<char>) -> Seq<char> {
    match endpoint_of(text) {
        Err(_) => parse_error_message(),
        Ok(e) => if has_endpoint(s, e) {
            Seq::<char>::empty()
        } else {
            peer_not_found_message()
        },
    }
}

/// The peers after removing the peer whose endpoint text is `text`.
pub open spec fn delete_peer_effect(s: Seq<PeerStats>, text: Seq<char>) -> Seq<PeerStats> {
    match endpoint_of(text) {
        Err(_) => s,
        Ok(e) => peers_after_delete(s, e),
    }
}

/// Lists the known peers.
pub fn get_peers(peers: &PeerManager) -> (r: Vec<PeerStats>)
    ensures
        r@ == peers@,
{
    peers.peers()
}

/// Adds a peer: 204 when it is new, 400 when the endpoint text is malformed, 409 when a
/// peer with that endpoint is already known.
pub fn add_peer(peers: &mut PeerManager, payload: &AddPeer) -> (r: Reply)
    requires
        old(peers).well_formed(),
    ensures
        final(peers).well_formed(),
        status_of(r) == add_peer_status(old(peers)@, payload.endpoint@),
        body_of(r) == add_peer_body(old(peers)@, payload.endpoint@),
        r is Ok <==> status_of(r) == Status::NoContent,
        final(peers)@ == add_peer_effect(old(peers)@, payload.endpoint@),
{
    let endpoint = match Endpoint::parse(payload.endpoint.as_str()) {
        Ok(endpoint) => endpoint,
        Err(e) => return Err((Status::BadRequest, e.message())),
    };
    match peers.add_peer(endpoint) {
        Ok(()) => Ok(Status::NoContent),
        Err(_) => Err(
            (Status::Conflict, String::from_str("A peer identified by that endpoint already exists")),
        ),
    }
}

/// Removes a peer: 204 when it was known, 400 when the endpoint text is malformed, 404
/// when no peer with that endpoint is known.
pub fn delete_peer(peers: &mut PeerManager, endpoint: &str) -> (r: Reply)
    requires
        old(peers).well_formed(),
    ensures
        final(peers).well_formed(),
        status_of(r) == delete_peer_status(old(peers)@, endpoint@),
        body_of(r) == delete_peer_body(old(peers)@, endpoint@),
        r is Ok <==> status_of(r) == Status::NoContent,
        final(peers)@ == delete_peer_effect(old(peers)@, endpoint@),
{
    let endpoint = match Endpoint::parse(endpoint) {
        Ok(endpoint) => endpoint,
        Err(e) => return Err((Status::BadRequest, e.message())),
    };
    match peers.delete_peer(&endpoint) {
        Ok(()) => Ok(Status::NoContent),
        Err(_) => Err(
            (Status::NotFound, String::from_str("A peer identified by that endpoint does not exist")),
        ),
    }
}

/// Lists the selected routes, one view per route, in the router's order.
pub fn get_selected_routes(router: &Router) -> (r: Vec<Route>)
    ensures
        r@ == routes_view(router.selected@),
{
    to_routes(&router.selected)
}

/// Lists the fallback routes, one view per route, in the router's order.
pub fn get_fallback_routes(router: &Router) -> (r: Vec<Route>)
    ensures
        r@ == routes_view(router.fallback@),
{
    to_routes(&router.fallback)
}

/// Reports the node's own overlay subnet.
pub fn get_info(router: &Router) -> (r: Info)
    ensures
        r.node_subnet == router.node_subnet,
{
    Info { node_subnet: router.node_subnet.clone() }
}

/// Listing twice with no change in between gives equal results: what a peer or route
/// listing returns is determined by the state it reads, and listing changes nothing.
pub proof fn lemma_listing_repeatable(
    peers: &PeerManager,
    router: &Router,
    first_peers: Seq<PeerStats>,
    second_peers: Seq<PeerStats>,
    first_routes: Seq<Route>,
    second_routes: Seq<Route>,
    first_fallback: Seq<Route>,
    second_fallback: Seq<Route>,
)
    requires
        first_peers == peers@,
        second_peers == peers@,
        first_routes == routes_view(router.selected@),
        second_routes == routes_view(router.selected@),
        first_fallback == routes_view(router.fallback@),
        second_fallback == routes_view(router.fallback@),
    ensures
        first_peers == second_peers,
        first_routes == second_routes,
        first_fallback == second_fallback,
{
}

/// Adding a peer whose endpoint is not known and then deleting it by the same text both
/// succeed, and leave the peers as they were before the addition.
pub proof fn lemma_add_then_delete(s: Seq<PeerStats>, text: Seq<char>)
    requires
        unique_endpoints(s),
        endpoint_of(text) is Ok,
        !has_endpoint(s, endpoint_of(text)->Ok_0),
    ensures
        add_peer_status(s, text) == Status::NoContent,
        delete_peer_status(add_peer_effect(s, text), text) == Status::NoContent,
        delete_peer_effect(add_peer_effect(s, text), text) == s,
{
    let e = endpoint_of(text)->Ok_0;
    let t = s.push(new_peer(e));
    assert(t[s.len() as int].endpoint == e);
    assert(position_of(t, e) == s.len());
    assert(t.remove(s.len() as int) =~= s);
}

/// Deleting a peer whose endpoint is not known replies 404 and changes nothing.
pub proof fn lemma_delete_absent(s: Seq<PeerStats>, text: Seq<char>)
    requires
        endpoint_of(text) is Ok,
        !has_endpoint(s, endpoint_of(text)->Ok_0),
    ensures
        delete_peer_status(s, text) == Status::NotFound,
        delete_peer_effect(s, text) == s,
{
}

/// Adding the same new endpoint twice replies 204 and then 409, and afterwards exactly
/// one peer has that endpoint.
pub proof fn lemma_add_twice(s: Seq<PeerStats>, text: Seq<char>)
    requires
        unique_endpoints(s),
        endpoint_of(text) is Ok,
        !has_endpoint(s, endpoint_of(text)->Ok_0),
    ensures
        add_peer_status(s, text) == Status::NoContent,
        add_peer_status(add_peer_effect(s, text), text) == Status::Conflict,
        add_peer_effect(add_peer_effect(s, text), text) == add_peer_effect(s, text),
        has_endpoint(add_peer_effect(s, text), endpoint_of(text)->Ok_0),
        forall|i: int, j: int|
            0 <= i < add_peer_effect(s, text).len() && 0 <= j < add_peer_effect(s, text).len()
                && (#[trigger] add_peer_effect(s, text)[i]).endpoint == endpoint_of(text)->Ok_0
                && (#[trigger] add_peer_effect(s, text)[j]).endpoint == endpoint_of(text)->Ok_0
                ==> i == j,
{
    let e = endpoint_of(text)->Ok_0;
    let t = s.push(new_peer(e));
    assert(t[s.len() as int].endpoint == e);
    assert forall|i: int| 0 <= i < t.len() && (#[trigger] t[i]).endpoint == e implies i
        == s.len() by {
        if i < s.len() {
            assert(t[i] == s[i]);
        }
    }
}

/// A malformed endpoint text is rejected alike by addition and by removal: both reply
/// 400 with the same message and change nothing.
pub proof fn lemma_malformed_rejected_alike(s: Seq<PeerStats>, text: Seq<char>)
    requires
        endpoint_of(text) is Err,
    ensures
        add_peer_status(s, text) == Status::BadRequest,
        delete_peer_status(s, text) == Status::BadRequest,
        add_peer_body(s, text) == delete_peer_body(s, text),
        add_peer_effect(s, text) == s,
        delete_peer_effect(s, text) == s,
{
}

} // verus!
