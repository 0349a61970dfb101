//! Routing of intercepted traffic: which destination addresses are sent
//! through which peer, and what happens to each packet read from the
//! tunnel device.
use vstd::prelude::*;
use crate::assoc::{
    entries_map, keys_distinct, lemma_entries_map_dom, lemma_entries_map_index,
    lemma_entries_map_push,
};
use crate::constructors::node::{data_frame, Node, SocketAddress, Topic};
use crate::text::{dotted_quad, dotted_quad_chars, str_eq, string_of, string_views};
use crate::PeerId;

verus! {

/// The port of the overlay's own datagrams, which are never rerouted.
pub open spec fn gossip_port() -> u16 {
    4242
}

/// Routes traffic for the target hosts through the peers that reach them.
pub struct Sniffer {
    /// The hosts whose traffic is rerouted.
    pub target_hosts: Vec<String>,
    /// For each rerouted destination address, the peer it goes through.
    pub ip_to_peer_id: Vec<(String, PeerId)>,
}

/// The route entries read by their text.
pub open spec fn route_entries(v: Seq<(String, PeerId)>) -> Seq<(Seq<char>, Seq<char>)> {
    v.map_values(|e: (String, PeerId)| (e.0@, e.1@))
}

/// Routing `ips` through `peer`, in order: an address that has no route
/// yet gets one; an address that has one keeps it.
pub open spec fn routes_after(
    routes: Map<Seq<char>, Seq<char>>,
    peer: Seq<char>,
    ips: Seq<Seq<char>>,
) -> Map<Seq<char>, Seq<char>>
    decreases ips.len(),
{
    if ips.len() == 0 {
        routes
    } else {
        let m = routes_after(routes, peer, ips.drop_last());
        if m.dom().contains(ips.last()) {
            m
        } else {
            m.insert(ips.last(), peer)
        }
    }
}

/// The addresses that get a new route when `ips` are routed through a
/// peer, in order; each needs a route installed in the system.
pub open spec fn new_routes(routes: Map<Seq<char>, Seq<char>>, peer: Seq<char>, ips: Seq<Seq<char>>) -> Seq<Seq<char>>
    decreases ips.len(),
{
    if ips.len() == 0 {
        Seq::<Seq<char>>::empty()
    } else {
        let prev = new_routes(routes, peer, ips.drop_last());
        if routes_after(routes, peer, ips.drop_last()).dom().contains(ips.last()) {
            prev
        } else {
            prev.push(ips.last())
        }
    }
}

/// Some peer reports `host` reachable.
pub open spec fn host_reachable(avail: Map<Seq<char>, Map<Seq<char>, bool>>, host: Seq<char>) -> bool {
    exists|p: Seq<char>|
        avail.dom().contains(p) && #[trigger] avail[p].dom().contains(host) && avail[p][host]
}

/// The hosts, in order, that some peer reports reachable.
pub open spec fn reachable_hosts(avail: Map<Seq<char>, Map<Seq<char>, bool>>, hosts: Seq<Seq<char>>) -> Seq<Seq<char>>
    decreases hosts.len(),
{
    if hosts.len() == 0 {
        Seq::<Seq<char>>::empty()
    } else {
        let prev = reachable_hosts(avail, hosts.drop_last());
        if host_reachable(avail, hosts.last()) {
            prev.push(hosts.last())
        } else {
            prev
        }
    }
}

/// What to do with a packet read from the tunnel device.
#[derive(Clone, Debug, PartialEq, Eq)]
pub enum TunPacket {
    /// An overlay datagram (destination port 4242): left alone.
    Gossip,
    /// Send `packet` on towards `dest_ip`.
    Forward { dest_ip: String, packet: Vec<u8> },
}

impl Sniffer {
    /// The routing table.
    pub open spec fn routes(&self) -> Map<Seq<char>, Seq<char>> {
        entries_map(route_entries(self.ip_to_peer_id@))
    }

    /// No address has two routes.
    pub open spec fn wf(&self) -> bool {
        keys_distinct(route_entries(self.ip_to_peer_id@))
    }

    /// A sniffer for `target_hosts` with no routes yet.
    pub fn new(target_hosts: Vec<String>) -> (s: Sniffer)
        ensures
            s.wf(),
            string_views(s.target_hosts@) == string_views(target_hosts@),
            s.routes() == Map::<Seq<char>, Seq<char>>::empty(),
    {
        let s = Sniffer { target_hosts, ip_to_peer_id: Vec::new() };
        assert(route_entries(s.ip_to_peer_id@) =~= Seq::<(Seq<char>, Seq<char>)>::empty());
        s
    }

    /// The target hosts for which the node knows a peer, each with such a
    /// peer; these are the hosts whose addresses are to be looked up.
    pub fn hosts_to_resolve(&self, node: &Node) -> (r: Vec<(String, PeerId)>)
        requires
            node.wf(),
        ensures
            forall|i: int|
                0 <= i < r@.len() ==> {
                    let p = #[trigger] r@[i].1@;
                    &&& node@.network_availability.dom().contains(p)
                    &&& node@.network_availability[p].dom().contains(r@[i].0@)
                    &&& node@.network_availability[p][r@[i].0@]
                },
            string_views(r@.map_values(|e: (String, PeerId)| e.0)) == reachable_hosts(
                node@.network_availability,
                string_views(self.target_hosts@),
            ),
    {
        let ghost hosts = string_views(self.target_hosts@);
        let mut r: Vec<(String, PeerId)> = Vec::new();
        for i in 0..self.target_hosts.len()
            invariant
                node.wf(),
                hosts == string_views(self.target_hosts@),
                forall|k: int|
                    0 <= k < r@.len() ==> {
                        let p = #[trigger] r@[k].1@;
                        &&& node@.network_availability.dom().contains(p)
                        &&& node@.network_availability[p].dom().contains(r@[k].0@)
                        &&& node@.network_availability[p][r@[k].0@]
                    },
                string_views(r@.map_values(|e: (String, PeerId)| e.0)) == reachable_hosts(
                    node@.network_availability,
                    hosts.take(i as int),
                ),
        {
            let host = &self.target_hosts[i];
            let ghost before = r@;
            assert(hosts.take(i + 1).drop_last() == hosts.take(i as int));
            match node.get_peer_id_by_host(host) {
                Some(p) => {
                    r.push((host.clone(), p.clone()));
                    assert(host_reachable(node@.network_availability, hosts[i as int]));
                    assert(string_views(r@.map_values(|e: (String, PeerId)| e.0)) =~= string_views(
                        before.map_values(|e: (String, PeerId)| e.0),
                    ).push(hosts[i as int]));
                },
                None => {
                    assert(!host_reachable(node@.network_availability, hosts[i as int]));
                    assert(r@ == before);
                },
            }
        }
        assert(hosts.take(self.target_hosts.len() as int) == hosts);
        r
    }

    /// Position of an address in the routing table.
    fn route_index(&self, ip: &str) -> (r: Option<usize>)
        ensures
            r matches Some(i) ==> i < self.ip_to_peer_id@.len() && self.ip_to_peer_id@[i as int].0@
                == ip@,
            r is None ==> forall|i: int|
                0 <= i < self.ip_to_peer_id@.len() ==> #[trigger] self.ip_to_peer_id@[i].0@ != ip@,
    {
        let mut i: usize = 0;
        while i < self.ip_to_peer_id.len()
            invariant
                i <= self.ip_to_peer_id@.len(),
                forall|k: int| 0 <= k < i ==> #[trigger] self.ip_to_peer_id@[k].0@ != ip@,
            decreases self.ip_to_peer_id@.len() - i,
        {
            if str_eq(self.ip_to_peer_id[i].0.as_str(), ip) {
                return Some(i);
            }
            i = i + 1;
        }
        None
    }

    /// Routes the resolved addresses `ips` of a host through `peer_id`:
    /// every address without a route gets one through that peer, and is
    /// returned (in order) so that the system route can be installed;
    /// existing routes are kept.
    pub fn register_routes(&mut self, peer_id: &PeerId, ips: &Vec<String>) -> (added: Vec<String>)
        requires
            old(self).wf(),
        ensures
            final(self).wf(),
            final(self).target_hosts == old(self).target_hosts,
            final(self).routes() == routes_after(old(self).routes(), peer_id@, string_views(ips@)),
            string_views(added@) == new_routes(old(self).routes(), peer_id@, string_views(ips@)),
    {
        let ghost all = string_views(ips@);
        let ghost start = self.routes();
        let mut added: Vec<String> = Vec::new();
        for i in 0..ips.len()
            invariant
                self.wf(),
                self.target_hosts == old(self).target_hosts,
                start == old(self).routes(),
                all == string_views(ips@),
                self.routes() == routes_after(start, peer_id@, all.take(i as int)),
                string_views(added@) == new_routes(start, peer_id@, all.take(i as int)),
        {
            let ip = &ips[i];
            assert(all.take(i + 1).drop_last() == all.take(i as int));
            let ghost e = route_entries(self.ip_to_peer_id@);
            match self.route_index(ip.as_str()) {
                Some(k) => {
                    proof {
                        lemma_entries_map_index(e, k as int);
                    }
                },
                None => {
                    proof {
                        lemma_entries_map_dom(e, ip@);
                        if entries_map(e).dom().contains(ip@) {
                            let k = choose|k: int| 0 <= k < e.len() && #[trigger] e[k].0 == ip@;
                            assert(self.ip_to_peer_id@[k].0@ == ip@);
                        }
                        lemma_entries_map_push(e, ip@, peer_id@);
                    }
                    let ghost before = added@;
                    self.ip_to_peer_id.push((ip.clone(), peer_id.clone()));
                    assert(route_entries(self.ip_to_peer_id@) =~= e.push((ip@, peer_id@)));
                    added.push(ip.clone());
                    assert(string_views(added@) =~= string_views(before).push(ip@));
                },
            }
        }
        assert(all.take(ips.len() as int) == all);
        added
    }

    /// Reads a packet of `n` bytes from the tunnel device's buffer: the
    /// destination port at bytes 22 and 23 (big-endian) and the destination
    /// address at bytes 16 to 19. Overlay datagrams are left alone; all
    /// else is forwarded with its first `n` bytes.
    pub fn classify_tun_packet(buf: &[u8], n: usize) -> (r: TunPacket)
        requires
            24 <= buf@.len(),
            n <= buf@.len(),
        ensures
            buf@[22] as int * 256 + buf@[23] as int == gossip_port() ==> r is Gossip,
            buf@[22] as int * 256 + buf@[23] as int != gossip_port() ==> (r matches TunPacket::Forward { dest_ip, packet } && dest_ip@ == dotted_quad(
                buf@[16],
                buf@[17],
                buf@[18],
                buf@[19],
            ) && packet@ == buf@.take(n as int)),
    {
        let dest_port: u16 = (buf[22] as u16) * 256 + (buf[23] as u16);
        if dest_port == 4242 {
            return TunPacket::Gossip;
        }
        let ip = dotted_quad_chars(buf[16], buf[17], buf[18], buf[19]);
        let dest_ip = string_of(ip.as_slice());
        let mut packet: Vec<u8> = Vec::new();
        for k in 0..n
            invariant
                n <= buf@.len(),
                packet@ == buf@.take(k as int),
        {
            packet.push(buf[k]);
            assert(buf@.take(k + 1) == buf@.take(k as int).push(buf@[k as int]));
        }
        TunPacket::Forward { dest_ip, packet }
    }

    /// The message that carries a packet for `dest_ip` to the peer routing
    /// that address; `None` when the address has no route or the peer is
    /// not registered with the node.
    pub fn send_packet(&self, node: &Node, dest_ip: &str, packet: Vec<u8>) -> (r: Option<(SocketAddress, Vec<u8>)>)
        requires
            self.wf(),
            node.wf(),
        ensures
            !self.routes().dom().contains(dest_ip@) ==> r is None,
            self.routes().dom().contains(dest_ip@) ==> {
                let p = self.routes()[dest_ip@];
                &&& node@.peer_registry.dom().contains(p) ==> (r matches Some(out) && out.0
                    == node@.peer_registry[p] && out.1@ == data_frame(
                    node@.secret_key,
                    Topic::ReplayTraffic,
                    packet@,
                ))
                &&& !node@.peer_registry.dom().contains(p) ==> r is None
            },
    {
        let ghost e = route_entries(self.ip_to_peer_id@);
        match self.route_index(dest_ip) {
            Some(k) => {
                proof {
                    lemma_entries_map_index(e, k as int);
                }
                node.send_packet(self.ip_to_peer_id[k].1.as_str(), packet)
            },
            None => {
                proof {
                    lemma_entries_map_dom(e, dest_ip@);
                    if entries_map(e).dom().contains(dest_ip@) {
                        let k = choose|k: int| 0 <= k < e.len() && #[trigger] e[k].0 == dest_ip@;
                        assert(self.ip_to_peer_id@[k].0@ == dest_ip@);
                    }
                }
                None
            },
        }
    }
}


/// Routing new addresses never changes an existing route, and afterwards
/// every one of the addresses has a route.
pub proof fn lemma_routes_kept(routes: Map<Seq<char>, Seq<char>>, peer: Seq<char>, ips: Seq<Seq<char>>)
    ensures
        forall|k: Seq<char>|
            #[trigger] routes.dom().contains(k) ==> routes_after(routes, peer, ips).dom().contains(k)
                && routes_after(routes, peer, ips)[k] == routes[k],
        forall|i: int| 0 <= i < ips.len() ==> routes_after(routes, peer, ips).dom().contains(#[trigger] ips[i]),
    decreases ips.len(),
{
    if ips.len() > 0 {
        let init = ips.drop_last();
        lemma_routes_kept(routes, peer, init);
        assert forall|i: int| 0 <= i < ips.len() implies routes_after(routes, peer, ips).dom().contains(#[trigger] ips[i]) by {
            if i < ips.len() - 1 {
                assert(ips[i] == init[i]);
            }
        }
    }
}

/// The hosts to resolve are the target hosts filtered by reachability:
/// every target host that some peer reports reachable is among them, in
/// the targets' order, and nothing else is.
pub proof fn lemma_reachable_hosts_filter(
    avail: Map<Seq<char>, Map<Seq<char>, bool>>,
    hosts: Seq<Seq<char>>,
)
    ensures
        reachable_hosts(avail, hosts) == hosts.filter(|h: Seq<char>| host_reachable(avail, h)),
        forall|i: int|
            0 <= i < hosts.len() && host_reachable(avail, #[trigger] hosts[i]) ==> reachable_hosts(
                avail,
                hosts,
            ).contains(hosts[i]),
        forall|h: Seq<char>|
            #[trigger] reachable_hosts(avail, hosts).contains(h) ==> hosts.contains(h) && host_reachable(
                avail,
                h,
            ),
    decreases hosts.len(),
{
    reveal(Seq::filter);
    if hosts.len() > 0 {
        let init = hosts.drop_last();
        lemma_reachable_hosts_filter(avail, init);
        let r = reachable_hosts(avail, hosts);
        let prev = reachable_hosts(avail, init);
        assert forall|i: int|
            0 <= i < hosts.len() && host_reachable(avail, #[trigger] hosts[i]) implies r.contains(
            hosts[i],
        ) by {
            if i < hosts.len() - 1 {
                assert(init[i] == hosts[i]);
                assert(prev.contains(hosts[i]));
                let k = choose|k: int| 0 <= k < prev.len() && prev[k] == hosts[i];
                assert(r[k] == hosts[i]);
            } else {
                assert(r[r.len() - 1] == hosts[i]);
            }
        }
        assert forall|h: Seq<char>| #[trigger] r.contains(h) implies hosts.contains(h) && host_reachable(
            avail,
            h,
        ) by {
            let k = choose|k: int| 0 <= k < r.len() && r[k] == h;
            if k < prev.len() {
                assert(prev[k] == h);
                assert(prev.contains(h));
                let j = choose|j: int| 0 <= j < init.len() && init[j] == h;
                assert(hosts[j] == h);
            } else {
                assert(hosts[hosts.len() - 1] == h);
            }
        }
    }
}

} // verus!
