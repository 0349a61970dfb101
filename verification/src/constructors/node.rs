//! A node of the datagram overlay: its identity, the peers it has heard
//! of, which hosts each peer can reach, and the messages it exchanges with
//! them. Every message is text of the form `SECRET:TOPIC:BODY`.
use vstd::prelude::*;
use vstd::utf8::*;
use crate::assoc::{
    entries_map, keys_distinct, lemma_entries_map_dom, lemma_entries_map_index,
    lemma_entries_map_push, lemma_entries_map_update,
};
use crate::ids::{fresh_id, is_uuid_v4_text};
use crate::text::{
    bytes_of, chars_equal, chars_of, decode_text, join_with, lacks, lemma_encode_utf8_concat,
    lemma_join_lacks,
    lemma_split_join, lemma_split_on_concat, lemma_split_on_lacking, lemma_split_on_nonempty,
    split_chars, split_on, str_eq, string_of, string_views, text_of,
};
use crate::PeerId;

verus! {

/// An IPv4 socket address: the address as a big-endian 32-bit number, and
/// a port.
#[derive(Clone, Copy, Debug, PartialEq, Eq, Structural)]
pub struct SocketAddress {
    pub ip: u32,
    pub port: u16,
}

/// The kinds of message nodes exchange.
#[derive(Clone, Copy, Debug, PartialEq, Eq, Structural)]
pub enum Topic {
    /// A node announces itself; the body is its identifier.
    GossipAlive,
    /// A node asks which of the listed hosts a peer can reach.
    QueryHosts,
    /// The answer to a query: `host|true` or `host|false` per host.
    HostsReport,
    /// Raw traffic to replay, or the reply to it.
    ReplayTraffic,
}

/// The name of a topic as it is written in a message.
pub open spec fn topic_name(t: Topic) -> Seq<char> {
    match t {
        Topic::GossipAlive => seq!['G', 'O', 'S', 'S', 'I', 'P', '_', 'A', 'L', 'I', 'V', 'E'],
        Topic::QueryHosts => seq!['Q', 'U', 'E', 'R', 'Y', '_', 'H', 'O', 'S', 'T', 'S'],
        Topic::HostsReport => seq!['H', 'O', 'S', 'T', 'S', '_', 'R', 'E', 'P', 'O', 'R', 'T'],
        Topic::ReplayTraffic => seq![
            'R', 'E', 'P', 'L', 'A', 'Y', '_', 'T', 'R', 'A', 'F', 'F', 'I', 'C',
        ],
    }
}

/// The topic whose name is exactly `s`, if any.
pub open spec fn parse_topic(s: Seq<char>) -> Option<Topic> {
    if s == topic_name(Topic::GossipAlive) {
        Some(Topic::GossipAlive)
    } else if s == topic_name(Topic::QueryHosts) {
        Some(Topic::QueryHosts)
    } else if s == topic_name(Topic::HostsReport) {
        Some(Topic::HostsReport)
    } else if s == topic_name(Topic::ReplayTraffic) {
        Some(Topic::ReplayTraffic)
    } else {
        None
    }
}

impl Topic {
    /// The characters of the topic's name.
    pub fn name(&self) -> (v: Vec<char>)
        ensures
            v@ == topic_name(*self),
    {
        match self {
            Topic::GossipAlive => vec!['G', 'O', 'S', 'S', 'I', 'P', '_', 'A', 'L', 'I', 'V', 'E'],
            Topic::QueryHosts => vec!['Q', 'U', 'E', 'R', 'Y', '_', 'H', 'O', 'S', 'T', 'S'],
            Topic::HostsReport => vec!['H', 'O', 'S', 'T', 'S', '_', 'R', 'E', 'P', 'O', 'R', 'T'],
            Topic::ReplayTraffic => vec![
                'R', 'E', 'P', 'L', 'A', 'Y', '_', 'T', 'R', 'A', 'F', 'F', 'I', 'C',
            ],
        }
    }

    /// The topic named by `s`, if any.
    pub fn parse(s: &[char]) -> (t: Option<Topic>)
        ensures
            t == parse_topic(s@),
    {
        let g = Topic::GossipAlive.name();
        let q = Topic::QueryHosts.name();
        let h = Topic::HostsReport.name();
        let r = Topic::ReplayTraffic.name();
        if chars_equal(s, g.as_slice()) {
            Some(Topic::GossipAlive)
        } else if chars_equal(s, q.as_slice()) {
            Some(Topic::QueryHosts)
        } else if chars_equal(s, h.as_slice()) {
            Some(Topic::HostsReport)
        } else if chars_equal(s, r.as_slice()) {
            Some(Topic::ReplayTraffic)
        } else {
            None
        }
    }
}

/// Every topic is read back from its name.
pub proof fn lemma_topic_name_parses(t: Topic)
    ensures
        parse_topic(topic_name(t)) == Some(t),
{
    let g = topic_name(Topic::GossipAlive);
    let q = topic_name(Topic::QueryHosts);
    let h = topic_name(Topic::HostsReport);
    let r = topic_name(Topic::ReplayTraffic);
    assert(g != q && g != h && g != r) by {
        assert(g.len() != q.len());
        assert(g[0] != h[0]);
        assert(g.len() != r.len());
    }
    assert(q != h && q != r) by {
        assert(q.len() != h.len());
        assert(q.len() != r.len());
    }
    assert(h != r) by {
        assert(h.len() != r.len());
    }
}

/// The start of every message: `SECRET:TOPIC:`.
pub open spec fn frame_header(secret: Seq<char>, t: Topic) -> Seq<char> {
    secret + seq![':'] + topic_name(t) + seq![':']
}

/// A message whose body is text.
pub open spec fn text_frame(secret: Seq<char>, t: Topic, body: Seq<char>) -> Seq<u8> {
    encode_utf8(frame_header(secret, t) + body)
}

/// A message whose body is raw bytes.
pub open spec fn data_frame(secret: Seq<char>, t: Topic, data: Seq<u8>) -> Seq<u8> {
    encode_utf8(frame_header(secret, t)) + data
}

fn header_chars(secret: &str, t: Topic) -> (v: Vec<char>)
    ensures
        v@ == frame_header(secret@, t),
{
    let mut v = chars_of(secret);
    v.push(':');
    let name = t.name();
    crate::text::extend_chars(&mut v, name.as_slice());
    v.push(':');
    v
}

/// The message `SECRET:TOPIC:BODY` for a text body.
pub fn text_message(secret: &str, t: Topic, body: &[char]) -> (m: Vec<u8>)
    ensures
        m@ == text_frame(secret@, t, body@),
{
    let mut v = header_chars(secret, t);
    crate::text::extend_chars(&mut v, body);
    let s = string_of(v.as_slice());
    bytes_of(s.as_str())
}

/// The message `SECRET:TOPIC:` followed by raw bytes.
pub fn data_message(secret: &str, t: Topic, data: &[u8]) -> (m: Vec<u8>)
    ensures
        m@ == data_frame(secret@, t, data@),
{
    let h = header_chars(secret, t);
    let s = string_of(h.as_slice());
    let mut m = bytes_of(s.as_str());
    for i in 0..data.len()
        invariant
            m@ == encode_utf8(frame_header(secret@, t)) + data@.take(i as int),
    {
        m.push(data[i]);
        assert(data@.take(i + 1) == data@.take(i as int).push(data@[i as int]));
    }
    assert(data@.take(data.len() as int) == data@);
    m
}

/// The separator of list items in message bodies.
pub open spec fn comma() -> Seq<char> {
    seq![',']
}

/// The text `true`.
pub open spec fn true_text() -> Seq<char> {
    seq!['t', 'r', 'u', 'e']
}

/// The body of a host query: the hosts joined with commas.
pub open spec fn query_body(hosts: Seq<Seq<char>>) -> Seq<char> {
    join_with(hosts, comma())
}

/// One entry of a report: the host followed by `|true`.
pub open spec fn report_entry(host: Seq<char>) -> Seq<char> {
    host + seq!['|'] + true_text()
}

/// The report answering a query body: every listed host marked reachable.
pub open spec fn report_body(hosts_raw: Seq<char>) -> Seq<char> {
    join_with(split_on(hosts_raw, ',').map_values(|h: Seq<char>| report_entry(h)), comma())
}

/// What a report's entries say, read in order: an entry `host|flag` marks
/// the host reachable when the flag is `true`; entries that are not made of
/// exactly two `|`-separated parts are skipped; a later entry for a host
/// overrides an earlier one.
pub open spec fn report_entries_map(entries: Seq<Seq<char>>) -> Map<Seq<char>, bool>
    decreases entries.len(),
{
    if entries.len() == 0 {
        Map::empty()
    } else {
        let m = report_entries_map(entries.drop_last());
        let p = split_on(entries.last(), '|');
        if p.len() == 2 {
            m.insert(p[0], p[1] == true_text())
        } else {
            m
        }
    }
}

/// What a report body says about each host.
pub open spec fn report_map(report: Seq<char>) -> Map<Seq<char>, bool> {
    report_entries_map(split_on(report, ','))
}

/// The abstract state of a node.
pub struct NodeView {
    pub id: Seq<char>,
    pub public_addr: Option<SocketAddress>,
    pub secret_key: Seq<char>,
    pub target_hosts: Seq<Seq<char>>,
    pub network_availability: Map<Seq<char>, Map<Seq<char>, bool>>,
    pub peer_registry: Map<Seq<char>, SocketAddress>,
}

/// A node of the overlay.
pub struct Node {
    /// This node's identifier.
    pub id: PeerId,
    /// The address under which others reach this node, once known.
    pub public_addr: Option<SocketAddress>,
    /// Shared by all nodes of one deployment; messages without it are
    /// ignored.
    pub secret_key: String,
    /// The hosts this node wants to reach through peers.
    pub target_hosts: Vec<String>,
    /// For each peer, the hosts it reported and whether it reaches them.
    pub network_availability: Vec<(String, Vec<(String, bool)>)>,
    /// The address of each known peer.
    pub peer_registry: Vec<(String, SocketAddress)>,
}

/// Host entries read by their text.
pub open spec fn host_entries(v: Seq<(String, bool)>) -> Seq<(Seq<char>, bool)> {
    v.map_values(|e: (String, bool)| (e.0@, e.1))
}

impl Node {
    /// Registry entries read by their text.
    pub open spec fn registry_entries(&self) -> Seq<(Seq<char>, SocketAddress)> {
        self.peer_registry@.map_values(|e: (String, SocketAddress)| (e.0@, e.1))
    }

    /// Availability entries read by their text, each peer's hosts as a map.
    pub open spec fn availability_entries(&self) -> Seq<(Seq<char>, Map<Seq<char>, bool>)> {
        self.network_availability@.map_values(
            |e: (String, Vec<(String, bool)>)| (e.0@, entries_map(host_entries(e.1@))),
        )
    }

    /// The node's bookkeeping is consistent: no peer is listed twice, no
    /// host twice for one peer, and the node never lists itself as a peer
    /// (it ignores its own announcements).
    pub open spec fn wf(&self) -> bool {
        &&& keys_distinct(self.registry_entries())
        &&& keys_distinct(self.availability_entries())
        &&& forall|i: int|
            0 <= i < self.network_availability@.len() ==> keys_distinct(
                host_entries(#[trigger] self.network_availability@[i].1@),
            )
        &&& !entries_map(self.registry_entries()).dom().contains(self.id@)
    }
}

impl View for Node {
    type V = NodeView;

    open spec fn view(&self) -> NodeView {
        NodeView {
            id: self.id@,
            public_addr: self.public_addr,
            secret_key: self.secret_key@,
            target_hosts: string_views(self.target_hosts@),
            network_availability: entries_map(self.availability_entries()),
            peer_registry: entries_map(self.registry_entries()),
        }
    }
}

/// The secret shared by the nodes of this project.
pub open spec fn project_secret() -> Seq<char> {
    seq!['G', 'U', 'A', 'R', 'D', 'I', '_', 'V', 'P', 'N']
}

impl Node {
    /// A fresh node wanting to reach `target_hosts`: a new random
    /// identifier, the project secret, and no peers yet.
    pub fn new(target_hosts: Vec<String>) -> (n: Node)
        ensures
            n.wf(),
            is_uuid_v4_text(n@.id),
            n@.public_addr is None,
            n@.secret_key == project_secret(),
            n@.target_hosts == string_views(target_hosts@),
            n@.network_availability == Map::<Seq<char>, Map<Seq<char>, bool>>::empty(),
            n@.peer_registry == Map::<Seq<char>, SocketAddress>::empty(),
    {
        let secret = vec!['G', 'U', 'A', 'R', 'D', 'I', '_', 'V', 'P', 'N'];
        let n = Node {
            id: fresh_id(),
            public_addr: None,
            secret_key: string_of(secret.as_slice()),
            target_hosts,
            network_availability: Vec::new(),
            peer_registry: Vec::new(),
        };
        assert(n.registry_entries() =~= Seq::<(Seq<char>, SocketAddress)>::empty());
        assert(n.availability_entries() =~= Seq::<(Seq<char>, Map<Seq<char>, bool>)>::empty());
        assert(n@.network_availability =~= Map::<Seq<char>, Map<Seq<char>, bool>>::empty());
        assert(n@.peer_registry =~= Map::<Seq<char>, SocketAddress>::empty());
        n
    }

    /// The announcement this node broadcasts: `SECRET:GOSSIP_ALIVE:ID`.
    pub fn gossip_alive(&self) -> (m: Vec<u8>)
        ensures
            m@ == text_frame(self@.secret_key, Topic::GossipAlive, self@.id),
    {
        let id = chars_of(self.id.as_str());
        text_message(self.secret_key.as_str(), Topic::GossipAlive, id.as_slice())
    }

    /// Position of a peer in the registry.
    fn registry_index(&self, peer_id: &str) -> (r: Option<usize>)
        ensures
            r matches Some(i) ==> i < self.peer_registry@.len() && self.peer_registry@[i as int].0@
                == peer_id@,
            r is None ==> forall|i: int|
                0 <= i < self.peer_registry@.len() ==> #[trigger] self.peer_registry@[i].0@
                    != peer_id@,
    {
        let mut i: usize = 0;
        while i < self.peer_registry.len()
            invariant
                i <= self.peer_registry@.len(),
                forall|k: int| 0 <= k < i ==> #[trigger] self.peer_registry@[k].0@ != peer_id@,
            decreases self.peer_registry@.len() - i,
        {
            if str_eq(self.peer_registry[i].0.as_str(), peer_id) {
                return Some(i);
            }
            i = i + 1;
        }
        None
    }
}


/// Inserts or replaces the flag of `host` in a list of host flags.
fn set_host_flag(hosts: &mut Vec<(String, bool)>, host: String, flag: bool)
    requires
        keys_distinct(host_entries(old(hosts)@)),
    ensures
        keys_distinct(host_entries(final(hosts)@)),
        entries_map(host_entries(final(hosts)@)) == entries_map(host_entries(old(hosts)@)).insert(
            host@,
            flag,
        ),
{
    let ghost e = host_entries(hosts@);
    let mut i: usize = 0;
    while i < hosts.len()
        invariant
            *hosts == *old(hosts),
            e == host_entries(hosts@),
            keys_distinct(e),
            i <= hosts@.len(),
            forall|k: int| 0 <= k < i ==> #[trigger] hosts@[k].0@ != host@,
        decreases hosts@.len() - i,
    {
        if str_eq(hosts[i].0.as_str(), host.as_str()) {
            proof {
                lemma_entries_map_update(e, i as int, flag);
            }
            let ghost k = hosts[i as int].0@;
            hosts.set(i, (host, flag));
            assert(host_entries(hosts@) =~= e.update(i as int, (k, flag)));
            return;
        }
        i = i + 1;
    }
    proof {
        lemma_entries_map_dom(e, host@);
        if entries_map(e).dom().contains(host@) {
            let k = choose|k: int| 0 <= k < e.len() && #[trigger] e[k].0 == host@;
            assert(hosts@[k].0@ == host@);
        }
        lemma_entries_map_push(e, host@, flag);
    }
    let ghost hv = host@;
    hosts.push((host, flag));
    assert(host_entries(hosts@) =~= e.push((hv, flag)));
}

/// Whether `host` is listed as reachable in a list of host flags.
fn host_flag(hosts: &Vec<(String, bool)>, host: &str) -> (b: bool)
    requires
        keys_distinct(host_entries(hosts@)),
    ensures
        b == (entries_map(host_entries(hosts@)).dom().contains(host@) && entries_map(
            host_entries(hosts@),
        )[host@]),
{
    let ghost e = host_entries(hosts@);
    let mut i: usize = 0;
    while i < hosts.len()
        invariant
            e == host_entries(hosts@),
            keys_distinct(e),
            i <= hosts@.len(),
            forall|k: int| 0 <= k < i ==> #[trigger] hosts@[k].0@ != host@,
        decreases hosts@.len() - i,
    {
        if str_eq(hosts[i].0.as_str(), host) {
            proof {
                lemma_entries_map_index(e, i as int);
            }
            return hosts[i].1;
        }
        i = i + 1;
    }
    proof {
        lemma_entries_map_dom(e, host@);
        if entries_map(e).dom().contains(host@) {
            let k = choose|k: int| 0 <= k < e.len() && #[trigger] e[k].0 == host@;
            assert(hosts@[k].0@ == host@);
        }
    }
    false
}

/// How a request to replay traffic is answered.
#[derive(Clone, Debug, PartialEq, Eq)]
pub enum ReplayDecision {
    /// Fewer than six bytes: no target address in it.
    TooShort,
    /// The target port is neither 80 nor 443.
    Blocked { target: SocketAddress },
    /// Forward the payload to the target.
    Forward { target: SocketAddress, payload: Vec<u8> },
}

/// The target of a replay request: its first four bytes are the IPv4
/// address and the next two the port, both big-endian.
pub open spec fn replay_target(data: Seq<u8>) -> SocketAddress {
    SocketAddress {
        ip: (data[0] as int * 16777216 + data[1] as int * 65536 + data[2] as int * 256
            + data[3] as int) as u32,
        port: (data[4] as int * 256 + data[5] as int) as u16,
    }
}

/// Only web traffic may be replayed.
pub open spec fn replay_port_allowed(port: u16) -> bool {
    port == 80 || port == 443
}

/// What a replay request asks for, as `ReplayDecision` states it.
pub open spec fn replay_decision_matches(data: Seq<u8>, d: ReplayDecision) -> bool {
    if data.len() < 6 {
        d is TooShort
    } else if !replay_port_allowed(replay_target(data).port) {
        d == ReplayDecision::Blocked { target: replay_target(data) }
    } else {
        d matches ReplayDecision::Forward { target, payload } && target == replay_target(data)
            && payload@ == data.subrange(6, data.len() as int)
    }
}

/// What a node does with one received datagram.
#[derive(Clone, Debug, PartialEq, Eq)]
pub enum NodeAction {
    /// Nothing: not for this deployment, an unknown topic, this node's own
    /// announcement, or a replay request too short to name a target.
    Ignore,
    /// Send `payload` to `to`.
    Reply { to: SocketAddress, payload: Vec<u8> },
    /// The hosts reported by `peer` were recorded.
    Updated { peer: PeerId },
    /// Replay to a port other than 80 and 443 was refused.
    Blocked { target: SocketAddress },
    /// Send `payload` to `target` over TCP and return the answer to
    /// `reply_to`.
    Forward { target: SocketAddress, payload: Vec<u8>, reply_to: SocketAddress },
}

/// The parts of a received message, split at `:`.
pub open spec fn message_parts(text: Seq<char>) -> Seq<Seq<char>> {
    split_on(text, ':')
}

/// The parts of a received datagram, read as text and split at `:`.
pub open spec fn datagram_parts(data: Seq<u8>) -> Seq<Seq<char>> {
    message_parts(text_of(data))
}

/// Some registered peer has address `addr`.
pub open spec fn has_peer_at(registry: Map<Seq<char>, SocketAddress>, addr: SocketAddress) -> bool {
    exists|p: Seq<char>| registry.dom().contains(p) && #[trigger] registry[p] == addr
}

/// The messages on which handling cannot proceed: they carry the secret
/// and a known topic but no body, or report hosts from an address no peer
/// is registered under.
pub open spec fn message_fails(n: NodeView, text: Seq<char>, src: SocketAddress) -> bool {
    let p = message_parts(text);
    &&& p.len() >= 2
    &&& p[0] == n.secret_key
    &&& parse_topic(p[1]) is Some
    &&& (p.len() < 3 || (parse_topic(p[1]) == Some(Topic::HostsReport) && !has_peer_at(
        n.peer_registry,
        src,
    )))
}

/// The datagrams on which handling cannot proceed: those whose text does
/// (see `message_fails`).
pub open spec fn datagram_fails(n: NodeView, data: Seq<u8>, src: SocketAddress) -> bool {
    message_fails(n, text_of(data), src)
}

/// The effect of handling the message `text` from `src`: the state after
/// and the action taken, for each topic.
pub open spec fn message_effect(
    pre: NodeView,
    post: NodeView,
    text: Seq<char>,
    src: SocketAddress,
    a: NodeAction,
) -> bool {
    let p = message_parts(text);
    if p.len() < 2 || p[0] != pre.secret_key || parse_topic(p[1]) is None {
        a is Ignore && post == pre
    } else {
        match parse_topic(p[1]).unwrap() {
            Topic::GossipAlive => if p[2] == pre.id {
                a is Ignore && post == pre
            } else {
                &&& post == NodeView { peer_registry: pre.peer_registry.insert(p[2], src), ..pre }
                &&& a matches NodeAction::Reply { to, payload }
                &&& to == src
                &&& payload@ == text_frame(
                    pre.secret_key,
                    Topic::QueryHosts,
                    query_body(pre.target_hosts),
                )
            },
            Topic::QueryHosts => {
                &&& post == pre
                &&& a matches NodeAction::Reply { to, payload }
                &&& to == src
                &&& payload@ == text_frame(pre.secret_key, Topic::HostsReport, report_body(p[2]))
            },
            Topic::HostsReport => {
                &&& a matches NodeAction::Updated { peer }
                &&& pre.peer_registry.dom().contains(peer@)
                &&& pre.peer_registry[peer@] == src
                &&& post == NodeView {
                    network_availability: pre.network_availability.insert(peer@, report_map(p[2])),
                    ..pre
                }
            },
            Topic::ReplayTraffic => {
                let d = encode_utf8(p[2]);
                &&& post == pre
                &&& if d.len() < 6 {
                    a is Ignore
                } else if !replay_port_allowed(replay_target(d).port) {
                    a == NodeAction::Blocked { target: replay_target(d) }
                } else {
                    a matches NodeAction::Forward { target, payload, reply_to }
                        && target == replay_target(d) && payload@ == d.subrange(6, d.len() as int)
                        && reply_to == src
                }
            },
        }
    }
}

/// The effect of handling datagram `data` from `src`: that of its text.
pub open spec fn datagram_effect(
    pre: NodeView,
    post: NodeView,
    data: Seq<u8>,
    src: SocketAddress,
    a: NodeAction,
) -> bool {
    message_effect(pre, post, text_of(data), src, a)
}

impl Node {
    /// Records the address of a peer, replacing any earlier one.
    pub fn register_peer(&mut self, peer_id: String, addr: SocketAddress)
        requires
            old(self).wf(),
            peer_id@ != old(self)@.id,
        ensures
            final(self).wf(),
            final(self)@ == (NodeView {
                peer_registry: old(self)@.peer_registry.insert(peer_id@, addr),
                ..old(self)@
            }),
    {
        let ghost e = self.registry_entries();
        match self.registry_index(peer_id.as_str()) {
            Some(i) => {
                proof {
                    lemma_entries_map_update(e, i as int, addr);
                }
                let ghost k = self.peer_registry@[i as int].0@;
                self.peer_registry.set(i, (peer_id, addr));
                assert(self.registry_entries() =~= e.update(i as int, (k, addr)));
            },
            None => {
                proof {
                    lemma_entries_map_dom(e, peer_id@);
                    if entries_map(e).dom().contains(peer_id@) {
                        let k = choose|k: int| 0 <= k < e.len() && #[trigger] e[k].0 == peer_id@;
                        assert(self.peer_registry@[k].0@ == peer_id@);
                    }
                    lemma_entries_map_push(e, peer_id@, addr);
                }
                let ghost pv = peer_id@;
                self.peer_registry.push((peer_id, addr));
                assert(self.registry_entries() =~= e.push((pv, addr)));
            },
        }
        assert(self.availability_entries() == old(self).availability_entries());
    }

    /// Records the hosts reported by a peer, replacing its earlier report.
    fn set_availability(&mut self, peer_id: String, hosts: Vec<(String, bool)>)
        requires
            old(self).wf(),
            keys_distinct(host_entries(hosts@)),
        ensures
            final(self).wf(),
            final(self)@ == (NodeView {
                network_availability: old(self)@.network_availability.insert(
                    peer_id@,
                    entries_map(host_entries(hosts@)),
                ),
                ..old(self)@
            }),
    {
        let ghost e = self.availability_entries();
        let ghost hm = entries_map(host_entries(hosts@));
        let mut i: usize = 0;
        while i < self.network_availability.len()
            invariant
                *self == *old(self),
                self.wf(),
                keys_distinct(host_entries(hosts@)),
                hm == entries_map(host_entries(hosts@)),
                e == self.availability_entries(),
                i <= self.network_availability@.len(),
                forall|k: int| 0 <= k < i ==> #[trigger] self.network_availability@[k].0@ != peer_id@,
            decreases self.network_availability@.len() - i,
        {
            if str_eq(self.network_availability[i].0.as_str(), peer_id.as_str()) {
                proof {
                    lemma_entries_map_update(e, i as int, hm);
                }
                let ghost k = self.network_availability@[i as int].0@;
                let ghost before = self.network_availability@;
                let ghost hv = hosts@;
                self.network_availability.set(i, (peer_id, hosts));
                assert(self.network_availability@[i as int].1@ == hv);
                assert(self.availability_entries() =~= e.update(i as int, (k, hm)));
                assert forall|j: int| 0 <= j < self.network_availability@.len() implies keys_distinct(
                    host_entries(#[trigger] self.network_availability@[j].1@),
                ) by {
                    if j != i {
                        assert(self.network_availability@[j] == before[j]);
                        assert(before == old(self).network_availability@);
                        assert(old(self).wf());
                        assert(keys_distinct(host_entries(old(self).network_availability@[j].1@)));
                    } else {
                        assert(keys_distinct(host_entries(hv)));
                    }
                }
                assert(self.registry_entries() == old(self).registry_entries());
                return;
            }
            i = i + 1;
        }
        proof {
            lemma_entries_map_dom(e, peer_id@);
            if entries_map(e).dom().contains(peer_id@) {
                let k = choose|k: int| 0 <= k < e.len() && #[trigger] e[k].0 == peer_id@;
                assert(self.network_availability@[k].0@ == peer_id@);
            }
            lemma_entries_map_push(e, peer_id@, hm);
        }
        let ghost pv = peer_id@;
        let ghost before = self.network_availability@;
        self.network_availability.push((peer_id, hosts));
        assert(self.availability_entries() =~= e.push((pv, hm)));
        assert forall|j: int| 0 <= j < self.network_availability@.len() implies keys_distinct(
            host_entries(#[trigger] self.network_availability@[j].1@),
        ) by {
            if j < before.len() {
                assert(self.network_availability@[j] == before[j]);
            }
        }
        assert(self.registry_entries() == old(self).registry_entries());
    }

    /// The peer registered under address `addr`, if any.
    pub fn get_peer_id_by_addr(&self, addr: SocketAddress) -> (r: Option<PeerId>)
        requires
            self.wf(),
        ensures
            r matches Some(p) ==> self@.peer_registry.dom().contains(p@) && self@.peer_registry[p@]
                == addr,
            r is None <==> !has_peer_at(self@.peer_registry, addr),
    {
        let ghost e = self.registry_entries();
        let mut i: usize = 0;
        while i < self.peer_registry.len()
            invariant
                self.wf(),
                e == self.registry_entries(),
                i <= self.peer_registry@.len(),
                forall|k: int| 0 <= k < i ==> #[trigger] self.peer_registry@[k].1 != addr,
            decreases self.peer_registry@.len() - i,
        {
            if self.peer_registry[i].1 == addr {
                proof {
                    lemma_entries_map_index(e, i as int);
                }
                let p = self.peer_registry[i].0.clone();
                return Some(p);
            }
            i = i + 1;
        }
        proof {
            assert forall|p: Seq<char>| #[trigger] self@.peer_registry.dom().contains(p) implies self@.peer_registry[p] != addr by {
                lemma_entries_map_dom(e, p);
                let k = choose|k: int| 0 <= k < e.len() && #[trigger] e[k].0 == p;
                lemma_entries_map_index(e, k);
            }
        }
        None
    }

    /// A peer that reports `host` reachable, if any.
    pub fn get_peer_id_by_host(&self, host: &String) -> (r: Option<&String>)
        requires
            self.wf(),
        ensures
            r matches Some(p) ==> self@.network_availability.dom().contains(p@)
                && self@.network_availability[p@].dom().contains(host@)
                && self@.network_availability[p@][host@],
            r is None ==> forall|p: Seq<char>| #[trigger]
                self@.network_availability.dom().contains(p) ==> !(
                self@.network_availability[p].dom().contains(host@)
                    && self@.network_availability[p][host@]),
    {
        let ghost e = self.availability_entries();
        let mut i: usize = 0;
        while i < self.network_availability.len()
            invariant
                self.wf(),
                e == self.availability_entries(),
                i <= self.network_availability@.len(),
                forall|k: int|
                    0 <= k < i ==> !(#[trigger] e[k].1.dom().contains(host@) && e[k].1[host@]),
            decreases self.network_availability@.len() - i,
        {
            let ghost inner = self.network_availability@[i as int].1@;
            assert(keys_distinct(host_entries(inner)));
            if host_flag(&self.network_availability[i].1, host.as_str()) {
                proof {
                    lemma_entries_map_index(e, i as int);
                }
                return Some(&self.network_availability[i].0);
            }
            i = i + 1;
        }
        proof {
            assert forall|p: Seq<char>| #[trigger] self@.network_availability.dom().contains(p) implies !(
            self@.network_availability[p].dom().contains(host@)
                && self@.network_availability[p][host@]) by {
                lemma_entries_map_dom(e, p);
                let k = choose|k: int| 0 <= k < e.len() && #[trigger] e[k].0 == p;
                lemma_entries_map_index(e, k);
            }
        }
        None
    }

    /// The query sent to a newly heard peer: to its registered address,
    /// `SECRET:QUERY_HOSTS:` and this node's target hosts joined with
    /// commas. `None` when the peer is not registered.
    pub fn sync_hosts(&self, peer_id: &str) -> (r: Option<(SocketAddress, Vec<u8>)>)
        requires
            self.wf(),
        ensures
            self@.peer_registry.dom().contains(peer_id@) ==> (r matches Some(out) && out.0
                == self@.peer_registry[peer_id@] && out.1@ == text_frame(
                self@.secret_key,
                Topic::QueryHosts,
                query_body(self@.target_hosts),
            )),
            !self@.peer_registry.dom().contains(peer_id@) ==> r is None,
    {
        match self.registry_index(peer_id) {
            Some(i) => {
                proof {
                    lemma_entries_map_index(self.registry_entries(), i as int);
                }
                let addr = self.peer_registry[i].1;
                let hosts = crate::text::join_strings(&self.target_hosts, ',');
                let payload = text_message(self.secret_key.as_str(), Topic::QueryHosts, hosts.as_slice());
                Some((addr, payload))
            },
            None => {
                proof {
                    lemma_entries_map_dom(self.registry_entries(), peer_id@);
                    if self@.peer_registry.dom().contains(peer_id@) {
                        let k = choose|k: int| 0 <= k < self.registry_entries().len() && #[trigger] self.registry_entries()[k].0 == peer_id@;
                        assert(self.peer_registry@[k].0@ == peer_id@);
                    }
                }
                None
            },
        }
    }

    /// The answer to a host query: `SECRET:HOSTS_REPORT:` and, for every
    /// comma-separated host of the query, `host|true`, joined with commas.
    pub fn handle_host_query(&self, hosts_raw: &str) -> (m: Vec<u8>)
        ensures
            m@ == text_frame(self@.secret_key, Topic::HostsReport, report_body(hosts_raw@)),
    {
        let raw = chars_of(hosts_raw);
        let parts = split_chars(raw.as_slice(), ',');
        let ghost ps = split_on(raw@, ',');
        let ghost entries = ps.map_values(|h: Seq<char>| report_entry(h));
        let mut out: Vec<char> = Vec::new();
        for i in 0..parts.len()
            invariant
                parts@.len() == ps.len(),
                entries == ps.map_values(|h: Seq<char>| report_entry(h)),
                forall|k: int| 0 <= k < parts@.len() ==> #[trigger] parts@[k]@ == ps[k],
                out@ == join_with(entries.take(i as int), comma()),
        {
            let ghost before = out@;
            if i != 0 {
                out.push(',');
            }
            crate::text::extend_chars(&mut out, parts[i].as_slice());
            out.push('|');
            out.push('t');
            out.push('r');
            out.push('u');
            out.push('e');
            assert(entries.take(i + 1).drop_last() == entries.take(i as int));
            assert(entries[i as int] == report_entry(ps[i as int]));
            if i == 0 {
                assert(out@ == entries.take(1)[0]);
            } else {
                assert(out@ == before + comma() + entries[i as int]);
            }
        }
        assert(entries.take(parts.len() as int) == entries);
        text_message(self.secret_key.as_str(), Topic::HostsReport, out.as_slice())
    }

    /// Records a peer's report of which hosts it reaches.
    pub fn handle_host_report(&mut self, peer_id: String, report_raw: &str)
        requires
            old(self).wf(),
        ensures
            final(self).wf(),
            final(self)@ == (NodeView {
                network_availability: old(self)@.network_availability.insert(
                    peer_id@,
                    report_map(report_raw@),
                ),
                ..old(self)@
            }),
    {
        let raw = chars_of(report_raw);
        let entries = split_chars(raw.as_slice(), ',');
        let ghost es = split_on(raw@, ',');
        let mut hosts: Vec<(String, bool)> = Vec::new();
        assert(host_entries(hosts@) =~= Seq::<(Seq<char>, bool)>::empty());
        for i in 0..entries.len()
            invariant
                entries@.len() == es.len(),
                forall|k: int| 0 <= k < entries@.len() ==> #[trigger] entries@[k]@ == es[k],
                keys_distinct(host_entries(hosts@)),
                entries_map(host_entries(hosts@)) == report_entries_map(es.take(i as int)),
        {
            let parts = split_chars(entries[i].as_slice(), '|');
            assert(es.take(i + 1).drop_last() == es.take(i as int));
            if parts.len() == 2 {
                let host = string_of(parts[0].as_slice());
                let t = vec!['t', 'r', 'u', 'e'];
                let flag = chars_equal(parts[1].as_slice(), t.as_slice());
                set_host_flag(&mut hosts, host, flag);
            }
        }
        assert(es.take(entries.len() as int) == es);
        self.set_availability(peer_id, hosts);
    }

    /// The message replaying `packet` to a peer: to its registered address,
    /// `SECRET:REPLAY_TRAFFIC:` followed by the packet. `None` when the peer
    /// is not registered.
    pub fn send_packet(&self, peer_id: &str, packet: Vec<u8>) -> (r: Option<(SocketAddress, Vec<u8>)>)
        requires
            self.wf(),
        ensures
            self@.peer_registry.dom().contains(peer_id@) ==> (r matches Some(out) && out.0
                == self@.peer_registry[peer_id@] && out.1@ == data_frame(
                self@.secret_key,
                Topic::ReplayTraffic,
                packet@,
            )),
            !self@.peer_registry.dom().contains(peer_id@) ==> r is None,
    {
        match self.registry_index(peer_id) {
            Some(i) => {
                proof {
                    lemma_entries_map_index(self.registry_entries(), i as int);
                }
                let addr = self.peer_registry[i].1;
                let payload = data_message(self.secret_key.as_str(), Topic::ReplayTraffic, packet.as_slice());
                Some((addr, payload))
            },
            None => {
                proof {
                    lemma_entries_map_dom(self.registry_entries(), peer_id@);
                    if self@.peer_registry.dom().contains(peer_id@) {
                        let k = choose|k: int| 0 <= k < self.registry_entries().len() && #[trigger] self.registry_entries()[k].0 == peer_id@;
                        assert(self.peer_registry@[k].0@ == peer_id@);
                    }
                }
                None
            },
        }
    }

    /// Reads a replay request: the target address and port from its first
    /// six bytes, and the payload after them. Only ports 80 and 443 are
    /// forwarded.
    pub fn handle_replay(data: &[u8]) -> (d: ReplayDecision)
        ensures
            replay_decision_matches(data@, d),
    {
        if data.len() < 6 {
            return ReplayDecision::TooShort;
        }
        let ip: u32 = (data[0] as u32) * 16777216 + (data[1] as u32) * 65536 + (data[2] as u32) * 256
            + (data[3] as u32);
        let port: u16 = (data[4] as u16) * 256 + (data[5] as u16);
        let target = SocketAddress { ip, port };
        if port != 80 && port != 443 {
            return ReplayDecision::Blocked { target };
        }
        let mut payload: Vec<u8> = Vec::new();
        let mut k: usize = 6;
        while k < data.len()
            invariant
                6 <= k <= data@.len(),
                payload@ == data@.subrange(6, k as int),
            decreases data@.len() - k,
        {
            payload.push(data[k]);
            assert(data@.subrange(6, k + 1) == data@.subrange(6, k as int).push(data@[k as int]));
            k = k + 1;
        }
        ReplayDecision::Forward { target, payload }
    }

    /// The message carrying the answer of a replayed request back:
    /// `SECRET:REPLAY_TRAFFIC:` followed by the answer; `None` when the
    /// answer is empty.
    pub fn replay_response(&self, response: &[u8]) -> (r: Option<Vec<u8>>)
        ensures
            response@.len() == 0 ==> r is None,
            response@.len() > 0 ==> (r matches Some(m) && m@ == data_frame(
                self@.secret_key,
                Topic::ReplayTraffic,
                response@,
            )),
    {
        if response.len() == 0 {
            None
        } else {
            Some(data_message(self.secret_key.as_str(), Topic::ReplayTraffic, response))
        }
    }
}


/// The parts of a message, computed.
fn parts_of(text: &str) -> (parts: Vec<Vec<char>>)
    ensures
        parts@.len() == message_parts(text@).len(),
        parts@.len() >= 1,
        forall|k: int| 0 <= k < parts@.len() ==> #[trigger] parts@[k]@ == message_parts(text@)[k],
{
    let chars = chars_of(text);
    proof {
        lemma_split_on_nonempty(chars@, ':');
    }
    split_chars(chars.as_slice(), ':')
}

impl Node {
    /// Whether handling the datagram `data` from `src` cannot proceed (see
    /// `datagram_fails`).
    pub fn datagram_would_fail(&self, data: &[u8], src: SocketAddress) -> (b: bool)
        requires
            self.wf(),
        ensures
            b == datagram_fails(self@, data@, src),
    {
        let text = decode_text(data);
        self.message_would_fail(text.as_str(), src)
    }

    /// Whether handling the message `text` from `src` cannot proceed (see
    /// `message_fails`).
    pub fn message_would_fail(&self, text: &str, src: SocketAddress) -> (b: bool)
        requires
            self.wf(),
        ensures
            b == message_fails(self@, text@, src),
    {
        let parts = parts_of(text);
        if parts.len() < 2 {
            return false;
        }
        let secret = chars_of(self.secret_key.as_str());
        if !chars_equal(parts[0].as_slice(), secret.as_slice()) {
            return false;
        }
        match Topic::parse(parts[1].as_slice()) {
            None => false,
            Some(t) => {
                if parts.len() < 3 {
                    true
                } else {
                    match t {
                        Topic::HostsReport => self.get_peer_id_by_addr(src).is_none(),
                        _ => false,
                    }
                }
            },
        }
    }

    /// Handles one datagram received from `src`: its bytes are read as text,
    /// ill-formed sequences replaced, and the text handled by
    /// `handle_message`.
    pub fn handle_datagram(&mut self, data: &[u8], src: SocketAddress) -> (a: NodeAction)
        requires
            old(self).wf(),
            !datagram_fails(old(self)@, data@, src),
        ensures
            final(self).wf(),
            datagram_effect(old(self)@, final(self)@, data@, src, a),
    {
        let text = decode_text(data);
        self.handle_message(text.as_str(), src)
    }

    /// Handles one message received from `src`. A message is
    /// `SECRET:TOPIC:BODY`; one without this node's secret or with an
    /// unknown topic is ignored. An announcement from another node
    /// registers it under `src` and answers with a host query; a query is
    /// answered with a report; a report from a registered peer is recorded;
    /// a replay request is read by `handle_replay`.
    pub fn handle_message(&mut self, text: &str, src: SocketAddress) -> (a: NodeAction)
        requires
            old(self).wf(),
            !message_fails(old(self)@, text@, src),
        ensures
            final(self).wf(),
            message_effect(old(self)@, final(self)@, text@, src, a),
    {
        let parts = parts_of(text);
        if parts.len() < 2 {
            return NodeAction::Ignore;
        }
        let secret = chars_of(self.secret_key.as_str());
        if !chars_equal(parts[0].as_slice(), secret.as_slice()) {
            return NodeAction::Ignore;
        }
        match Topic::parse(parts[1].as_slice()) {
            None => NodeAction::Ignore,
            Some(Topic::GossipAlive) => {
                let peer_id = string_of(parts[2].as_slice());
                if peer_id == self.id {
                    return NodeAction::Ignore;
                }
                self.register_peer(peer_id.clone(), src);
                match self.sync_hosts(peer_id.as_str()) {
                    Some((to, payload)) => NodeAction::Reply { to, payload },
                    None => NodeAction::Ignore,
                }
            },
            Some(Topic::QueryHosts) => {
                let body = string_of(parts[2].as_slice());
                let payload = self.handle_host_query(body.as_str());
                NodeAction::Reply { to: src, payload }
            },
            Some(Topic::HostsReport) => {
                match self.get_peer_id_by_addr(src) {
                    None => NodeAction::Ignore,
                    Some(peer) => {
                        if peer == self.id {
                            return NodeAction::Ignore;
                        }
                        let body = string_of(parts[2].as_slice());
                        self.handle_host_report(peer.clone(), body.as_str());
                        NodeAction::Updated { peer }
                    },
                }
            },
            Some(Topic::ReplayTraffic) => {
                let body = string_of(parts[2].as_slice());
                let bytes = bytes_of(body.as_str());
                match Node::handle_replay(bytes.as_slice()) {
                    ReplayDecision::TooShort => NodeAction::Ignore,
                    ReplayDecision::Blocked { target } => NodeAction::Blocked { target },
                    ReplayDecision::Forward { target, payload } => NodeAction::Forward {
                        target,
                        payload,
                        reply_to: src,
                    },
                }
            },
        }
    }

    /// `handle_datagram` where handling can proceed; `None`, with the node
    /// unchanged, on exactly the datagrams on which it cannot.
    pub fn try_handle_datagram(&mut self, data: &[u8], src: SocketAddress) -> (r: Option<NodeAction>)
        requires
            old(self).wf(),
        ensures
            final(self).wf(),
            r is None <==> datagram_fails(old(self)@, data@, src),
            r is None ==> final(self)@ == old(self)@,
            r matches Some(a) ==> datagram_effect(old(self)@, final(self)@, data@, src, a),
    {
        if self.datagram_would_fail(data, src) {
            None
        } else {
            Some(self.handle_datagram(data, src))
        }
    }
}


/// The hosts, each marked reachable.
pub open spec fn all_reachable(hosts: Seq<Seq<char>>) -> Map<Seq<char>, bool>
    decreases hosts.len(),
{
    if hosts.len() == 0 {
        Map::empty()
    } else {
        all_reachable(hosts.drop_last()).insert(hosts.last(), true)
    }
}

/// `all_reachable` holds exactly the listed hosts, each marked `true`.
pub proof fn lemma_all_reachable(hosts: Seq<Seq<char>>)
    ensures
        forall|h: Seq<char>| #[trigger] all_reachable(hosts).dom().contains(h) <==> hosts.contains(h),
        forall|h: Seq<char>| hosts.contains(h) ==> #[trigger] all_reachable(hosts)[h],
    decreases hosts.len(),
{
    if hosts.len() > 0 {
        let init = hosts.drop_last();
        lemma_all_reachable(init);
        assert forall|h: Seq<char>| #[trigger] all_reachable(hosts).dom().contains(h) <==> hosts.contains(h) by {
            assert(all_reachable(init).dom().contains(h) <==> init.contains(h));
            if hosts.contains(h) && h != hosts.last() {
                let k = choose|k: int| 0 <= k < hosts.len() && hosts[k] == h;
                assert(k != hosts.len() - 1);
                assert(init[k] == h);
            }
            if init.contains(h) {
                let k = choose|k: int| 0 <= k < init.len() && init[k] == h;
                assert(hosts[k] == h);
            }
            if h == hosts.last() {
                assert(hosts[hosts.len() - 1] == h);
            }
        }
        assert forall|h: Seq<char>| hosts.contains(h) implies #[trigger] all_reachable(hosts)[h] by {
            if h != hosts.last() {
                let k = choose|k: int| 0 <= k < hosts.len() && hosts[k] == h;
                assert(k != hosts.len() - 1);
                assert(init[k] == h);
                assert(init.contains(h));
                assert(all_reachable(init)[h]);
            }
        }
    }
}

/// A host name that can travel in a query and a report: it holds none of
/// the separators `:`, `,` and `|`.
pub open spec fn plain_host(h: Seq<char>) -> bool {
    lacks(h, ':') && lacks(h, ',') && lacks(h, '|')
}

proof fn lemma_report_entry_parts(h: Seq<char>)
    requires
        plain_host(h),
    ensures
        split_on(report_entry(h), '|') == seq![h, true_text()],
        lacks(report_entry(h), ','),
        lacks(report_entry(h), ':'),
{
    lemma_split_on_concat(h, true_text(), '|');
    lemma_split_on_lacking(h, '|');
    lemma_split_on_lacking(true_text(), '|');
    let e = report_entry(h);
    assert forall|i: int| 0 <= i < e.len() implies #[trigger] e[i] != ',' && e[i] != ':' by {
        if i < h.len() {
            assert(e[i] == h[i]);
        }
    }
}

proof fn lemma_report_entries_all_true(hosts: Seq<Seq<char>>)
    requires
        forall|i: int| 0 <= i < hosts.len() ==> plain_host(#[trigger] hosts[i]),
    ensures
        report_entries_map(hosts.map_values(|h: Seq<char>| report_entry(h))) == all_reachable(hosts),
    decreases hosts.len(),
{
    if hosts.len() > 0 {
        let init = hosts.drop_last();
        assert forall|i: int| 0 <= i < init.len() implies plain_host(#[trigger] init[i]) by {
            assert(init[i] == hosts[i]);
        }
        lemma_report_entries_all_true(init);
        let es = hosts.map_values(|h: Seq<char>| report_entry(h));
        assert(es.drop_last() == init.map_values(|h: Seq<char>| report_entry(h)));
        lemma_report_entry_parts(hosts.last());
        assert(es.last() == report_entry(hosts.last()));
    }
}

/// Answering a query: the report for a query of plain host names marks
/// exactly those hosts reachable.
pub proof fn lemma_report_answers_query(hosts: Seq<Seq<char>>)
    requires
        hosts.len() > 0,
        forall|i: int| 0 <= i < hosts.len() ==> plain_host(#[trigger] hosts[i]),
    ensures
        report_map(report_body(query_body(hosts))) == all_reachable(hosts),
        lacks(report_body(query_body(hosts)), ':'),
{
    assert forall|i: int| 0 <= i < hosts.len() implies lacks(#[trigger] hosts[i], ',') by {
        assert(plain_host(hosts[i]));
    }
    lemma_split_join(hosts, ',');
    let es = hosts.map_values(|h: Seq<char>| report_entry(h));
    assert forall|i: int| 0 <= i < es.len() implies lacks(#[trigger] es[i], ',') && lacks(es[i], ':') by {
        lemma_report_entry_parts(hosts[i]);
    }
    lemma_split_join(es, ',');
    lemma_report_entries_all_true(hosts);
    lemma_join_lacks(es, comma(), ':');
}

/// A text message of a secret and a body without `:` is read back as
/// exactly three parts: the secret, the topic's name and the body.
pub proof fn lemma_text_frame_parts(secret: Seq<char>, t: Topic, body: Seq<char>)
    requires
        lacks(secret, ':'),
        lacks(body, ':'),
    ensures
        datagram_parts(text_frame(secret, t, body)) == seq![secret, topic_name(t), body],
{
    let text = frame_header(secret, t) + body;
    vstd::utf8::encode_utf8_valid_utf8(text);
    vstd::utf8::encode_utf8_decode_utf8(text);
    let name = topic_name(t);
    assert(lacks(name, ':'));
    assert(text == secret + seq![':'] + (name + seq![':'] + body));
    lemma_split_on_concat(secret, name + seq![':'] + body, ':');
    lemma_split_on_concat(name, body, ':');
    lemma_split_on_lacking(secret, ':');
    lemma_split_on_lacking(name, ':');
    lemma_split_on_lacking(body, ':');
}

/// The host exchange between two nodes of one deployment: when a node's
/// query for its (plain, non-empty) list of target hosts is answered by
/// the other node and the answer comes back from the address the other node
/// is registered under, the asking node records every one of its target
/// hosts, and no other, as reachable through that peer.
pub proof fn lemma_host_query_round_trip(
    a_pre: NodeView,
    a_post: NodeView,
    b_pre: NodeView,
    b_post: NodeView,
    a_addr: SocketAddress,
    b_addr: SocketAddress,
    b_act: NodeAction,
    a_act: NodeAction,
)
    requires
        b_pre.secret_key == a_pre.secret_key,
        lacks(a_pre.secret_key, ':'),
        a_pre.target_hosts.len() > 0,
        forall|i: int| 0 <= i < a_pre.target_hosts.len() ==> plain_host(#[trigger] a_pre.target_hosts[i]),
        datagram_effect(
            b_pre,
            b_post,
            text_frame(a_pre.secret_key, Topic::QueryHosts, query_body(a_pre.target_hosts)),
            a_addr,
            b_act,
        ),
        b_act matches NodeAction::Reply { payload, .. } && datagram_effect(a_pre, a_post, payload@, b_addr, a_act),
    ensures
        a_act matches NodeAction::Updated { peer } && a_pre.peer_registry.dom().contains(peer@)
            && a_pre.peer_registry[peer@] == b_addr && a_post.network_availability == a_pre.network_availability.insert(
            peer@,
            all_reachable(a_pre.target_hosts),
        ),
        forall|h: Seq<char>| #[trigger] all_reachable(a_pre.target_hosts).dom().contains(h) <==> a_pre.target_hosts.contains(h),
        forall|h: Seq<char>| a_pre.target_hosts.contains(h) ==> #[trigger] all_reachable(a_pre.target_hosts)[h],
{
    let hosts = a_pre.target_hosts;
    let secret = a_pre.secret_key;
    assert forall|i: int| 0 <= i < hosts.len() implies lacks(#[trigger] hosts[i], ':') by {
        assert(plain_host(hosts[i]));
    }
    lemma_join_lacks(hosts, comma(), ':');
    lemma_text_frame_parts(secret, Topic::QueryHosts, query_body(hosts));
    lemma_topic_name_parses(Topic::QueryHosts);
    lemma_report_answers_query(hosts);
    let report = report_body(query_body(hosts));
    lemma_text_frame_parts(secret, Topic::HostsReport, report);
    lemma_topic_name_parses(Topic::HostsReport);
    lemma_all_reachable(hosts);
}

/// Only web traffic is forwarded: a replay request is forwarded only to
/// port 80 or 443, and always with the bytes after its six-byte target.
pub proof fn lemma_replay_only_web(data: Seq<u8>, d: ReplayDecision)
    requires
        replay_decision_matches(data, d),
    ensures
        d matches ReplayDecision::Forward { target, payload } ==> replay_port_allowed(target.port)
            && target == replay_target(data) && payload@ == data.subrange(6, data.len() as int),
{
}

/// Discovery between two nodes of one deployment: when a node hears
/// another node's announcement from an address, it registers that node
/// under the address and answers with a query for its own target hosts.
pub proof fn lemma_announcement_registers(
    pre: NodeView,
    post: NodeView,
    sender: NodeView,
    src: SocketAddress,
    act: NodeAction,
)
    requires
        sender.secret_key == pre.secret_key,
        lacks(pre.secret_key, ':'),
        lacks(sender.id, ':'),
        sender.id != pre.id,
        datagram_effect(pre, post, text_frame(sender.secret_key, Topic::GossipAlive, sender.id), src, act),
    ensures
        post.peer_registry == pre.peer_registry.insert(sender.id, src),
        post.network_availability == pre.network_availability,
        (act matches NodeAction::Reply { to, payload } && to == src && payload@ == text_frame(
            pre.secret_key,
            Topic::QueryHosts,
            query_body(pre.target_hosts),
        )),
{
    lemma_text_frame_parts(sender.secret_key, Topic::GossipAlive, sender.id);
    lemma_topic_name_parses(Topic::GossipAlive);
}

/// Replaying traffic between two nodes of one deployment: a packet sent
/// with `send_packet` reaches the other node's `handle_replay` unchanged,
/// provided it is UTF-8 text without `:` (the message is read as text and
/// split at `:`).
pub proof fn lemma_replay_delivered(
    pre: NodeView,
    post: NodeView,
    secret: Seq<char>,
    packet: Seq<u8>,
    src: SocketAddress,
    act: NodeAction,
)
    requires
        secret == pre.secret_key,
        lacks(secret, ':'),
        valid_utf8(packet),
        lacks(decode_utf8(packet), ':'),
        datagram_effect(pre, post, data_frame(secret, Topic::ReplayTraffic, packet), src, act),
    ensures
        post == pre,
        packet.len() < 6 ==> act is Ignore,
        packet.len() >= 6 && !replay_port_allowed(replay_target(packet).port) ==> (act
            == NodeAction::Blocked { target: replay_target(packet) }),
        packet.len() >= 6 && replay_port_allowed(replay_target(packet).port) ==> (act matches NodeAction::Forward { target, payload, reply_to } && target == replay_target(packet)
            && payload@ == packet.subrange(6, packet.len() as int) && reply_to == src),
{
    let body = decode_utf8(packet);
    vstd::utf8::decode_utf8_encode_utf8(packet);
    lemma_encode_utf8_concat(frame_header(secret, Topic::ReplayTraffic), body);
    assert(data_frame(secret, Topic::ReplayTraffic, packet) == text_frame(secret, Topic::ReplayTraffic, body));
    lemma_text_frame_parts(secret, Topic::ReplayTraffic, body);
    lemma_topic_name_parses(Topic::ReplayTraffic);
}

/// Which messages can always be handled: one whose first part is not this
/// node's secret, and one that carries the secret, a known topic other than
/// a host report, and a body. Only a message without a body, or a host
/// report from an address no peer is registered under, can fail.
pub proof fn lemma_messages_that_never_fail(n: NodeView, text: Seq<char>, src: SocketAddress)
    ensures
        message_parts(text).len() < 2 || message_parts(text)[0] != n.secret_key ==> !message_fails(
            n,
            text,
            src,
        ),
        message_parts(text).len() >= 3 && parse_topic(message_parts(text)[1]) is Some && parse_topic(
            message_parts(text)[1],
        ) != Some(Topic::HostsReport) ==> !message_fails(n, text, src),
        message_parts(text).len() >= 3 && has_peer_at(n.peer_registry, src) ==> !message_fails(
            n,
            text,
            src,
        ),
{
}

/// A node's own announcement, as `gossip_alive` writes it, can always be
/// handled, from whatever address it comes back; and where the identifier
/// is a single part (it has no `:`, as generated identifiers do not),
/// handling it ignores it and leaves the node as it was.
pub proof fn lemma_own_announcement_ignored(
    n: NodeView,
    post: NodeView,
    src: SocketAddress,
    a: NodeAction,
)
    requires
        lacks(n.secret_key, ':'),
    ensures
        !datagram_fails(n, text_frame(n.secret_key, Topic::GossipAlive, n.id), src),
        lacks(n.id, ':') && datagram_effect(
            n,
            post,
            text_frame(n.secret_key, Topic::GossipAlive, n.id),
            src,
            a,
        ) ==> a is Ignore && post == n,
{
    let name = topic_name(Topic::GossipAlive);
    let text = frame_header(n.secret_key, Topic::GossipAlive) + n.id;
    vstd::utf8::encode_utf8_valid_utf8(text);
    vstd::utf8::encode_utf8_decode_utf8(text);
    assert(lacks(name, ':'));
    assert(text == n.secret_key + seq![':'] + (name + seq![':'] + n.id));
    lemma_split_on_concat(n.secret_key, name + seq![':'] + n.id, ':');
    lemma_split_on_concat(name, n.id, ':');
    lemma_split_on_lacking(n.secret_key, ':');
    lemma_split_on_lacking(name, ':');
    lemma_split_on_nonempty(n.id, ':');
    lemma_topic_name_parses(Topic::GossipAlive);
    let p = message_parts(text);
    assert(p == seq![n.secret_key] + (seq![name] + split_on(n.id, ':')));
    assert(p.len() >= 3);
    assert(p[0] == n.secret_key);
    assert(p[1] == name);
    if lacks(n.id, ':') {
        lemma_split_on_lacking(n.id, ':');
        assert(p[2] == n.id);
    }
}

} // verus!
