//! The registry of known peers, keyed by endpoint.
use vstd::prelude::*;

use crate::endpoint::Endpoint;

verus! {

/// The state of the connection to a peer.
#[derive(Clone, Copy, Debug, PartialEq, Eq, Structural)]
pub enum ConnectionState {
    Connecting,
    Alive,
    Dead,
}

/// A snapshot of what is known of one peer.
#[derive(Clone, Copy, Debug, PartialEq, Eq, Structural)]
pub struct PeerStats {
    /// The endpoint that identifies the peer's connection.
    pub endpoint: Endpoint,
    /// The state of the connection.
    pub connection_state: ConnectionState,
}

/// A peer with that endpoint is already known.
#[derive(Clone, Copy, Debug, PartialEq, Eq, Structural)]
pub struct PeerExists;

/// No peer with that endpoint is known.
#[derive(Clone, Copy, Debug, PartialEq, Eq, Structural)]
pub struct PeerNotFound;

/// The peers that the node knows, at most one per endpoint, in the order they were added.
pub struct PeerManager {
    peers: Vec<PeerStats>,
}

/// Whether some peer of `s` has endpoint `e`.
pub open spec fn has_endpoint(s: Seq<PeerStats>, e: Endpoint) -> bool {
    exists|i: int| 0 <= i < s.len() && (#[trigger] s[i]).endpoint == e
}

/// No two peers of `s` share an endpoint.
pub open spec fn unique_endpoints(s: Seq<PeerStats>) -> bool {
    forall|i: int, j: int|
        0 <= i < s.len() && 0 <= j < s.len() && (#[trigger] s[i]).endpoint == (#[trigger] s[j]).endpoint
            ==> i == j
}

/// The position of the last peer of `s` with endpoint `e`, or -1.
pub open spec fn position_of(s: Seq<PeerStats>, e: Endpoint) -> int
    decreases s.len(),
{
    if s.len() == 0 {
        -1
    } else if s.last().endpoint == e {
        s.len() - 1
    } else {
        position_of(s.drop_last(), e)
    }
}

/// A newly added peer: its connection is being set up.
pub open spec fn new_peer(e: Endpoint) -> PeerStats {
    PeerStats { endpoint: e, connection_state: ConnectionState::Connecting }
}

/// The peers after adding `e`: unchanged when it is known, else with a new peer at the end.
pub open spec fn peers_after_add(s: Seq<PeerStats>, e: Endpoint) -> Seq<PeerStats> {
    if has_endpoint(s, e) {
        s
    } else {
        s.push(new_peer(e))
    }
}

/// The peers after removing `e`: without its peer when it is known, else unchanged.
pub open spec fn peers_after_delete(s: Seq<PeerStats>, e: Endpoint) -> Seq<PeerStats> {
    if has_endpoint(s, e) {
        s.remove(position_of(s, e))
    } else {
        s
    }
}

/// `position_of` finds a peer exactly when there is one, and then one with that endpoint;
/// among unique endpoints it is the only one.
pub proof fn lemma_position_of(s: Seq<PeerStats>, e: Endpoint)
    ensures
        (position_of(s, e) >= 0) == has_endpoint(s, e),
        has_endpoint(s, e) ==> 0 <= position_of(s, e) < s.len() && s[position_of(s, e)].endpoint
            == e,
        unique_endpoints(s) ==> forall|i: int|
            0 <= i < s.len() && (#[trigger] s[i]).endpoint == e ==> i == position_of(s, e),
    decreases s.len(),
{
    if s.len() > 0 && s.last().endpoint != e {
        let t = s.drop_last();
        lemma_position_of(t, e);
        if has_endpoint(s, e) {
            let i = choose|i: int| 0 <= i < s.len() && (#[trigger] s[i]).endpoint == e;
            assert(t[i] == s[i]);
        }
        if has_endpoint(t, e) {
            let i = choose|i: int| 0 <= i < t.len() && (#[trigger] t[i]).endpoint == e;
            assert(s[i] == t[i]);
        }
        if unique_endpoints(s) {
            assert(unique_endpoints(t)) by {
                assert forall|i: int, j: int|
                    0 <= i < t.len() && 0 <= j < t.len() && (#[trigger] t[i]).endpoint == (
                    #[trigger] t[j]).endpoint implies i == j by {
                    assert(s[i] == t[i] && s[j] == t[j]);
                }
            }
            assert forall|i: int| 0 <= i < s.len() && (#[trigger] s[i]).endpoint == e implies i
                == position_of(s, e) by {
                assert(s[i] == t[i]);
            }
        }
    } else if s.len() > 0 {
        assert(s[s.len() - 1].endpoint == e);
    }
}

/// Adding keeps endpoints unique.
pub proof fn lemma_add_keeps_unique(s: Seq<PeerStats>, e: Endpoint)
    requires
        unique_endpoints(s),
    ensures
        unique_endpoints(peers_after_add(s, e)),
{
    if !has_endpoint(s, e) {
        let t = s.push(new_peer(e));
        assert forall|i: int, j: int|
            0 <= i < t.len() && 0 <= j < t.len() && (#[trigger] t[i]).endpoint == (
            #[trigger] t[j]).endpoint implies i == j by {
            if i < s.len() {
                assert(t[i] == s[i]);
            }
            if j < s.len() {
                assert(t[j] == s[j]);
            }
        }
    }
}

/// Deleting keeps endpoints unique.
pub proof fn lemma_delete_keeps_unique(s: Seq<PeerStats>, e: Endpoint)
    requires
        unique_endpoints(s),
    ensures
        unique_endpoints(peers_after_delete(s, e)),
{
    if has_endpoint(s, e) {
        lemma_position_of(s, e);
        let p = position_of(s, e);
        let t = s.remove(p);
        assert forall|i: int, j: int|
            0 <= i < t.len() && 0 <= j < t.len() && (#[trigger] t[i]).endpoint == (
            #[trigger] t[j]).endpoint implies i == j by {
            let si = if i < p { i } else { i + 1 };
            let sj = if j < p { j } else { j + 1 };
            assert(t[i] == s[si] && t[j] == s[sj]);
        }
    }
}

impl View for PeerManager {
    type V = Seq<PeerStats>;

    closed spec fn view(&self) -> Seq<PeerStats> {
        self.peers@
    }
}

/// Whether two endpoints are the same.
fn same_endpoint(a: &Endpoint, b: &Endpoint) -> (r: bool)
    ensures
        r == (*a == *b),
{
    a.proto == b.proto && a.octets == b.octets && a.port == b.port
}

impl PeerManager {
    /// The registry's invariant: no two peers share an endpoint.
    pub open spec fn well_formed(&self) -> bool {
        unique_endpoints(self@)
    }

    /// An empty registry.
    pub fn new() -> (r: PeerManager)
        ensures
            r@ == Seq::<PeerStats>::empty(),
            r.well_formed(),
    {
        PeerManager { peers: Vec::new() }
    }

    /// Where the peer with endpoint `e` stands, if there is one.
    fn find(&self, e: &Endpoint) -> (r: Option<usize>)
        requires
            self.well_formed(),
        ensures
            r is Some <==> has_endpoint(self@, *e),
            r is Some ==> r->Some_0 == position_of(self@, *e) && r->Some_0 < self@.len(),
    {
        proof {
            lemma_position_of(self@, *e);
        }
        let mut i: usize = 0;
        while i < self.peers.len()
            invariant
                self.well_formed(),
                i <= self.peers@.len(),
                forall|k: int| 0 <= k < i ==> (#[trigger] self.peers@[k]).endpoint != *e,
            decreases self.peers@.len() - i,
        {
            if same_endpoint(&self.peers[i].endpoint, e) {
                proof {
                    lemma_position_of(self@, *e);
                    assert(self@[i as int].endpoint == *e);
                }
                return Some(i);
            }
            i = i + 1;
        }
        None
    }

    /// A snapshot of every known peer.
    pub fn peers(&self) -> (r: Vec<PeerStats>)
        ensures
            r@ == self@,
    {
        let mut out: Vec<PeerStats> = Vec::new();
        let mut i: usize = 0;
        while i < self.peers.len()
            invariant
                i <= self.peers@.len(),
                out@ == self.peers@.subrange(0, i as int),
            decreases self.peers@.len() - i,
        {
            out.push(self.peers[i]);
            i = i + 1;
            assert(out@ =~= self.peers@.subrange(0, i as int));
        }
        assert(out@ =~= self.peers@);
        out
    }

    /// Adds a peer with endpoint `e`, unless one is already known.
    pub fn add_peer(&mut self, e: Endpoint) -> (r: Result<(), PeerExists>)
        requires
            old(self).well_formed(),
        ensures
            final(self).well_formed(),
            final(self)@ == peers_after_add(old(self)@, e),
            r is Ok <==> !has_endpoint(old(self)@, e),
    {
        proof {
            lemma_add_keeps_unique(self@, e);
        }
        match self.find(&e) {
            Some(_) => Err(PeerExists),
            None => {
                self.peers.push(PeerStats { endpoint: e, connection_state: ConnectionState::Connecting });
                Ok(())
            },
        }
    }

    /// Removes the peer with endpoint `e`, if one is known.
    pub fn delete_peer(&mut self, e: &Endpoint) -> (r: Result<(), PeerNotFound>)
        requires
            old(self).well_formed(),
        ensures
            final(self).well_formed(),
            final(self)@ == peers_after_delete(old(self)@, *e),
            r is Ok <==> has_endpoint(old(self)@, *e),
    {
        proof {
            lemma_delete_keeps_unique(self@, *e);
        }
        match self.find(e) {
            Some(i) => {
                self.peers.remove(i);
                Ok(())
            },
            None => Err(PeerNotFound),
        }
    }
}

} // verus!
