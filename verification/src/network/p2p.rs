//! Decisions of the overlay engine: which relays to dial again, the counters
//! it reports, and how a room message becomes a chat line.
use vstd::prelude::*;
use crate::ids::{fresh_id, is_uuid_v4_text};
use crate::network::broadcast::{ChatMessage, EngineEvent, StatsMessage};
use crate::network::xml::UserMessage;
use crate::text::{
    chars_of, contains_seq, find_chars, find_from, join_strings, join_with, lemma_find_from,
    occurs_at, string_of, string_views,
};

verus! {

/// The separator put between listen addresses before they are searched.
pub open spec fn address_separator() -> Seq<char> {
    seq!['|']
}

/// The bootstrap relays, in order, that do not occur in `joined`.
pub open spec fn missing_relays(joined: Seq<char>, bootstraps: Seq<Seq<char>>) -> Seq<Seq<char>>
    decreases bootstraps.len(),
{
    if bootstraps.len() == 0 {
        Seq::<Seq<char>>::empty()
    } else {
        let prev = missing_relays(joined, bootstraps.drop_last());
        if contains_seq(joined, bootstraps.last()) {
            prev
        } else {
            prev.push(bootstraps.last())
        }
    }
}

/// The relays to dial again: each bootstrap address that does not occur in
/// the external addresses joined with `|`, in the order given.
pub fn relays_to_dial(external_addresses: &Vec<String>, bootstraps: &Vec<String>) -> (r: Vec<String>)
    ensures
        string_views(r@) == missing_relays(
            join_with(string_views(external_addresses@), address_separator()),
            string_views(bootstraps@),
        ),
{
    let joined = join_strings(external_addresses, '|');
    let ghost boots = string_views(bootstraps@);
    let mut r: Vec<String> = Vec::new();
    for i in 0..bootstraps.len()
        invariant
            boots == string_views(bootstraps@),
            string_views(r@) == missing_relays(joined@, boots.take(i as int)),
    {
        let b = chars_of(bootstraps[i].as_str());
        let found = find_chars(joined.as_slice(), b.as_slice());
        proof {
            lemma_find_from(joined@, b@, 0);
            if let Some(p) = find_from(joined@, b@, 0) {
                assert(occurs_at(joined@, b@, p));
            }
            assert(boots.take(i + 1).drop_last() == boots.take(i as int));
        }
        if found.is_none() {
            let ghost before = r@;
            r.push(bootstraps[i].clone());
            assert(string_views(r@) == string_views(before).push(boots[i as int]));
        }
    }
    assert(boots.take(bootstraps.len() as int) == boots);
    r
}

/// Sum of a list of counts.
pub open spec fn total(v: Seq<usize>) -> int
    decreases v.len(),
{
    if v.len() == 0 {
        0
    } else {
        total(v.drop_last()) + v.last()
    }
}

/// Number of `true` flags in a list.
pub open spec fn count_true(v: Seq<bool>) -> int
    decreases v.len(),
{
    if v.len() == 0 {
        0
    } else {
        count_true(v.drop_last()) + if v.last() {
            1int
        } else {
            0int
        }
    }
}

/// No more peers are in the room than there are gossip peers.
pub proof fn lemma_count_true_bounded(v: Seq<bool>)
    ensures
        0 <= count_true(v) <= v.len(),
    decreases v.len(),
{
    if v.len() > 0 {
        lemma_count_true_bounded(v.drop_last());
    }
}

proof fn lemma_total_monotone(v: Seq<usize>, i: int)
    requires
        0 <= i <= v.len(),
    ensures
        0 <= total(v.take(i)) <= total(v),
    decreases v.len() - i,
{
    if i < v.len() {
        lemma_total_monotone(v, i + 1);
        assert(v.take(i + 1).drop_last() == v.take(i));
        lemma_total_nonneg(v.take(i));
    } else {
        assert(v.take(i) == v);
        lemma_total_nonneg(v);
    }
}

proof fn lemma_total_nonneg(v: Seq<usize>)
    ensures
        0 <= total(v),
    decreases v.len(),
{
    if v.len() > 0 {
        lemma_total_nonneg(v.drop_last());
    }
}

/// The counters reported on every statistics tick: the entries of all
/// Kademlia buckets, the gossip peers, those of them in the room, and the
/// confirmed external addresses.
pub fn network_stats(bucket_entries: &Vec<usize>, peer_in_room: &Vec<bool>, external_count: usize) -> (s: StatsMessage)
    requires
        total(bucket_entries@) <= u32::MAX,
        peer_in_room@.len() <= u32::MAX,
        external_count <= u32::MAX,
    ensures
        s.kademlia_count == total(bucket_entries@),
        s.gosibsub_count == peer_in_room@.len(),
        s.room_count == count_true(peer_in_room@),
        s.active_ralays_count == external_count,
        s.room_count <= s.gosibsub_count,
{
    let mut kad: usize = 0;
    for i in 0..bucket_entries.len()
        invariant
            total(bucket_entries@) <= u32::MAX,
            kad == total(bucket_entries@.take(i as int)),
    {
        proof {
            lemma_total_monotone(bucket_entries@, i + 1);
            assert(bucket_entries@.take(i + 1).drop_last() == bucket_entries@.take(i as int));
        }
        kad = kad + bucket_entries[i];
    }
    assert(bucket_entries@.take(bucket_entries.len() as int) == bucket_entries@);
    let mut room: usize = 0;
    for i in 0..peer_in_room.len()
        invariant
            peer_in_room@.len() <= u32::MAX,
            room == count_true(peer_in_room@.take(i as int)),
            room <= i,
    {
        assert(peer_in_room@.take(i + 1).drop_last() == peer_in_room@.take(i as int));
        if peer_in_room[i] {
            room = room + 1;
        }
    }
    assert(peer_in_room@.take(peer_in_room.len() as int) == peer_in_room@);
    proof {
        lemma_count_true_bounded(peer_in_room@);
    }
    StatsMessage {
        room_count: room as u32,
        kademlia_count: kad as u32,
        gosibsub_count: peer_in_room.len() as u32,
        active_ralays_count: external_count as u32,
    }
}

/// Whether the engine asks the DHT for the room's providers: only once at
/// least one external address is confirmed.
pub fn should_query_providers(external_count: usize) -> (b: bool)
    ensures
        b == (external_count > 0),
{
    external_count > 0
}

/// What the engine publishes to the room for one event of its own channel:
/// only a line typed by the local user is published, as a fresh identifier
/// and the line's text; every other event publishes nothing.
pub fn outgoing_room_message(event: &EngineEvent) -> (r: Option<(String, String)>)
    ensures
        event is User ==> (r matches Some(p) && is_uuid_v4_text(p.0@) && p.1@
            == event->User_0.content@),
        !(event is User) ==> r is None,
{
    match event {
        EngineEvent::User(msg) => {
            let id = fresh_id();
            let content = string_of(chars_of(msg.content.as_str()).as_slice());
            Some((id, content))
        },
        _ => None,
    }
}

/// The chat line for a room message received from `sender`.
pub fn chat_from_room(message: &UserMessage, sender: &str) -> (c: ChatMessage)
    ensures
        c.id@ == message.id@,
        c.content@ == message.m@,
        c.sender@ == sender@,
{
    ChatMessage {
        id: string_of(chars_of(message.id).as_slice()),
        content: string_of(chars_of(message.m).as_slice()),
        sender: string_of(chars_of(sender).as_slice()),
    }
}


/// A relay is dialled again exactly when it is a bootstrap address that
/// does not occur among the joined external addresses.
pub proof fn lemma_missing_relays(joined: Seq<char>, bootstraps: Seq<Seq<char>>)
    ensures
        forall|r: Seq<char>|
            #[trigger] missing_relays(joined, bootstraps).contains(r) <==> (bootstraps.contains(r)
                && !contains_seq(joined, r)),
    decreases bootstraps.len(),
{
    if bootstraps.len() > 0 {
        let init = bootstraps.drop_last();
        lemma_missing_relays(joined, init);
        assert forall|r: Seq<char>|
            #[trigger] missing_relays(joined, bootstraps).contains(r) <==> (bootstraps.contains(r)
                && !contains_seq(joined, r)) by {
            let prev = missing_relays(joined, init);
            assert(prev.contains(r) <==> (init.contains(r) && !contains_seq(joined, r)));
            if init.contains(r) {
                let k = choose|k: int| 0 <= k < init.len() && init[k] == r;
                assert(bootstraps[k] == r);
            }
            if bootstraps.contains(r) && r != bootstraps.last() {
                let k = choose|k: int| 0 <= k < bootstraps.len() && bootstraps[k] == r;
                assert(k != bootstraps.len() - 1);
                assert(init[k] == r);
            }
            if r == bootstraps.last() {
                assert(bootstraps[bootstraps.len() - 1] == r);
            }
            if !contains_seq(joined, bootstraps.last()) {
                let now = prev.push(bootstraps.last());
                if now.contains(r) && r != bootstraps.last() {
                    let k = choose|k: int| 0 <= k < now.len() && now[k] == r;
                    assert(k != now.len() - 1);
                    assert(prev[k] == r);
                }
                if prev.contains(r) {
                    let k = choose|k: int| 0 <= k < prev.len() && prev[k] == r;
                    assert(now[k] == r);
                }
                if r == bootstraps.last() {
                    assert(now[now.len() - 1] == r);
                }
            }
        }
    }
}

} // verus!
