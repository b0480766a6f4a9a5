//! The signalling server's core: the roster of connected nodes and
//! the routing of relayed handshake frames.
//!
//! Each accepted connection gets a fresh challenge id and an entry in
//! the roster.  The core consumes the events of one connection —
//! frames, closure — and returns the frames the host must send, each
//! addressed by the destination's challenge id.

use vstd::prelude::*;

use crate::codec::{decode, lemma_codec_unique_wire_form, spec_decode, wf_id, wf_msg, wf_node_info};
use crate::config::{NodeInfo, NodeInfoV};
use crate::types::U256;
use crate::web_rtc::{WSSignalMessage, WSSignalMessageV};
use crate::websocket::{WSMessage, WSMessageV};

verus! {

/// One connection the server knows: its challenge id and, once the
/// node announced itself, its identity.
#[derive(Debug)]
pub struct NodeEntry {
    /// The challenge id assigned when the connection was accepted.
    pub entry: U256,
    /// The announced identity, once an `Announce` arrived.
    pub info: Option<NodeInfo>,
}

/// Mathematical model of a [`NodeEntry`].
#[verifier::ext_equal]
pub struct NodeEntryV {
    pub entry: Seq<u8>,
    pub info: Option<NodeInfoV>,
}

impl View for NodeEntry {
    type V = NodeEntryV;

    open spec fn view(&self) -> NodeEntryV {
        NodeEntryV {
            entry: self.entry@,
            info: match &self.info {
                Some(ni) => Some(ni@),
                None => None,
            },
        }
    }
}

impl NodeEntry {
    /// A fresh entry for an accepted connection, not yet announced.
    pub fn new(entry: U256) -> (r: NodeEntry)
        ensures
            r@ == (NodeEntryV { entry: entry@, info: None }),
    {
        NodeEntry { entry, info: None }
    }
}

/// What the server asks its host to do: send this frame to the
/// connection that was accepted under this challenge id.
#[derive(Debug, PartialEq)]
pub enum ServerAction {
    SendTo(U256, WSSignalMessage),
}

/// Mathematical model of a [`ServerAction`].
#[verifier::ext_equal]
pub enum ServerActionV {
    SendTo(Seq<u8>, WSSignalMessageV),
}

impl View for ServerAction {
    type V = ServerActionV;

    open spec fn view(&self) -> ServerActionV {
        match self {
            ServerAction::SendTo(ch, m) => ServerActionV::SendTo(ch@, m@),
        }
    }
}

// ---------------------------------------------------------------------
// The server's state transitions, as mathematics.
// ---------------------------------------------------------------------
/// A proper entry: a 32-byte challenge id, and an identity that fits
/// the wire form if one was announced.
pub open spec fn wf_entry(e: NodeEntryV) -> bool {
    wf_id(e.entry) && match e.info {
        Some(ni) => wf_node_info(ni),
        None => true,
    }
}

/// A proper roster: proper entries, pairwise distinct challenge ids,
/// and few enough entries for one reply frame.
pub open spec fn wf_server(s: Seq<NodeEntryV>) -> bool {
    &&& s.len() < 0x1_0000_0000
    &&& forall|i: int| 0 <= i < s.len() ==> wf_entry(#[trigger] s[i])
    &&& distinct_entries(s)
}

/// Whether some entry carries this challenge id.
pub open spec fn has_entry(s: Seq<NodeEntryV>, id: Seq<u8>) -> bool
    decreases s.len(),
{
    if s.len() == 0 {
        false
    } else {
        s[0].entry == id || has_entry(s.drop_first(), id)
    }
}

/// Whether the entries carry pairwise distinct challenge ids.
pub open spec fn distinct_entries(s: Seq<NodeEntryV>) -> bool
    decreases s.len(),
{
    if s.len() == 0 {
        true
    } else {
        !has_entry(s.drop_first(), s[0].entry) && distinct_entries(s.drop_first())
    }
}

/// The roster after an announce from the connection `ch`: the sender's
/// entry carries the announced identity; every other entry that had
/// announced the same public id is evicted (last-writer-wins); the
/// rest stays, in order.
pub open spec fn spec_announce(s: Seq<NodeEntryV>, ch: Seq<u8>, ni: NodeInfoV) -> Seq<NodeEntryV>
    decreases s.len(),
{
    if s.len() == 0 {
        Seq::empty()
    } else {
        let e = s[0];
        let rest = spec_announce(s.drop_first(), ch, ni);
        if e.entry == ch {
            seq![NodeEntryV { entry: e.entry, info: Some(ni) }] + rest
        } else if e.info is Some && e.info->0.public == ni.public {
            rest
        } else {
            seq![e] + rest
        }
    }
}

/// The identities announced so far, in roster order.
pub open spec fn spec_roster(s: Seq<NodeEntryV>) -> Seq<NodeInfoV>
    decreases s.len(),
{
    if s.len() == 0 {
        Seq::empty()
    } else {
        let rest = spec_roster(s.drop_first());
        match s[0].info {
            Some(ni) => seq![ni] + rest,
            None => rest,
        }
    }
}

/// The roster without the entry of the connection `ch`.
pub open spec fn spec_remove(s: Seq<NodeEntryV>, ch: Seq<u8>) -> Seq<NodeEntryV>
    decreases s.len(),
{
    if s.len() == 0 {
        Seq::empty()
    } else {
        let rest = spec_remove(s.drop_first(), ch);
        if s[0].entry == ch {
            rest
        } else {
            seq![s[0]] + rest
        }
    }
}

/// The public id the connection `ch` has announced, if any.
pub open spec fn spec_sender_public(s: Seq<NodeEntryV>, ch: Seq<u8>) -> Option<Seq<u8>>
    decreases s.len(),
{
    if s.len() == 0 {
        None
    } else if s[0].entry == ch {
        match s[0].info {
            Some(ni) => Some(ni.public),
            None => None,
        }
    } else {
        spec_sender_public(s.drop_first(), ch)
    }
}

/// The challenge id of the first entry that announced the public id
/// `p`, if any.
pub open spec fn spec_find_by_public(s: Seq<NodeEntryV>, p: Seq<u8>) -> Option<Seq<u8>>
    decreases s.len(),
{
    if s.len() == 0 {
        None
    } else if s[0].info is Some && s[0].info->0.public == p {
        Some(s[0].entry)
    } else {
        spec_find_by_public(s.drop_first(), p)
    }
}

/// Where the server relays one handshake envelope arriving from the
/// connection `ch`: to the entry that announced the envelope's other
/// id.  Nothing goes out when the sender has not announced itself or
/// when no entry has announced the destination id.
pub open spec fn spec_relay(s: Seq<NodeEntryV>, ch: Seq<u8>, pi: crate::web_rtc::PeerInfoV) -> Seq<
    ServerActionV,
> {
    match spec_sender_public(s, ch) {
        None => Seq::empty(),
        Some(sender_pub) => {
            let dst_id = if pi.id_init == sender_pub {
                pi.id_follow
            } else {
                pi.id_init
            };
            match spec_find_by_public(s, dst_id) {
                None => Seq::empty(),
                Some(dst_ch) => seq![
                    ServerActionV::SendTo(dst_ch, WSSignalMessageV::PeerSetup(pi)),
                ],
            }
        },
    }
}

/// How the server's roster and replies answer one signalling message
/// from the connection `ch`: the new roster and the frames to send.
pub open spec fn spec_handle(s: Seq<NodeEntryV>, ch: Seq<u8>, m: WSSignalMessageV) -> (
    Seq<NodeEntryV>,
    Seq<ServerActionV>,
) {
    match m {
        WSSignalMessageV::Announce(a) => (spec_announce(s, ch, a.node_info), Seq::empty()),
        WSSignalMessageV::ClearNodes => (Seq::empty(), Seq::empty()),
        WSSignalMessageV::ListIDsRequest => (
            s,
            seq![
                ServerActionV::SendTo(ch, WSSignalMessageV::ListIDsReply(spec_roster(s))),
            ],
        ),
        WSSignalMessageV::PeerSetup(pi) => (s, spec_relay(s, ch, pi)),
        _ => (s, Seq::empty()),
    }
}

// ---------------------------------------------------------------------
// Facts about the transitions.
// ---------------------------------------------------------------------
/// Announcing keeps only challenge ids that were already there, and
/// never grows the roster.
proof fn lemma_announce_keys(s: Seq<NodeEntryV>, ch: Seq<u8>, ni: NodeInfoV, id: Seq<u8>)
    ensures
        spec_announce(s, ch, ni).len() <= s.len(),
        has_entry(spec_announce(s, ch, ni), id) ==> has_entry(s, id),
    decreases s.len(),
{
    if s.len() == 0 {
    } else {
        lemma_announce_keys(s.drop_first(), ch, ni, id);
        let rest = spec_announce(s.drop_first(), ch, ni);
        if s[0].entry == ch {
            let e2 = NodeEntryV { entry: s[0].entry, info: Some(ni) };
            assert((seq![e2] + rest).drop_first() =~= rest);
        } else if s[0].info is Some && s[0].info->0.public == ni.public {
        } else {
            assert((seq![s[0]] + rest).drop_first() =~= rest);
        }
    }
}

/// Announcing preserves a proper roster.
proof fn lemma_announce_wf(s: Seq<NodeEntryV>, ch: Seq<u8>, ni: NodeInfoV)
    requires
        forall|i: int| 0 <= i < s.len() ==> wf_entry(#[trigger] s[i]),
        distinct_entries(s),
        wf_node_info(ni),
    ensures
        spec_announce(s, ch, ni).len() <= s.len(),
        forall|i: int|
            0 <= i < spec_announce(s, ch, ni).len() ==> wf_entry(
                #[trigger] spec_announce(s, ch, ni)[i],
            ),
        distinct_entries(spec_announce(s, ch, ni)),
    decreases s.len(),
{
    if s.len() == 0 {
    } else {
        assert(forall|i: int|
            0 <= i < s.drop_first().len() ==> #[trigger] s.drop_first()[i] == s[i + 1]);
        lemma_announce_wf(s.drop_first(), ch, ni);
        lemma_announce_keys(s.drop_first(), ch, ni, s[0].entry);
        let r = spec_announce(s, ch, ni);
        let rest = spec_announce(s.drop_first(), ch, ni);
        if s[0].entry == ch || !(s[0].info is Some && s[0].info->0.public == ni.public) {
            let e0 = if s[0].entry == ch {
                NodeEntryV { entry: s[0].entry, info: Some(ni) }
            } else {
                s[0]
            };
            assert(r == seq![e0] + rest);
            assert(r.drop_first() =~= rest);
            assert(wf_entry(e0));
            assert(!has_entry(rest, e0.entry));
            assert forall|i: int| 0 <= i < r.len() implies wf_entry(#[trigger] r[i]) by {
                if i > 0 {
                    assert(r[i] == rest[i - 1]);
                }
            };
        }
    }
}

/// The reply roster is no longer than the roster itself, and every
/// identity in it fits the wire form.
proof fn lemma_roster_wf(s: Seq<NodeEntryV>)
    requires
        forall|i: int| 0 <= i < s.len() ==> wf_entry(#[trigger] s[i]),
    ensures
        spec_roster(s).len() <= s.len(),
        forall|i: int| 0 <= i < spec_roster(s).len() ==> wf_node_info(#[trigger] spec_roster(s)[i]),
    decreases s.len(),
{
    if s.len() == 0 {
    } else {
        assert(forall|i: int|
            0 <= i < s.drop_first().len() ==> #[trigger] s.drop_first()[i] == s[i + 1]);
        lemma_roster_wf(s.drop_first());
        let r = spec_roster(s);
        let rest = spec_roster(s.drop_first());
        match s[0].info {
            Some(ni) => {
                assert forall|i: int| 0 <= i < r.len() implies wf_node_info(#[trigger] r[i]) by {
                    if i == 0 {
                        assert(r[0] == ni);
                    } else {
                        assert(r[i] == rest[i - 1]);
                    }
                };
            },
            None => {},
        }
    }
}

/// Removing an entry keeps only challenge ids that were already
/// there, and preserves a proper roster.
proof fn lemma_remove_keys(s: Seq<NodeEntryV>, ch: Seq<u8>, id: Seq<u8>)
    ensures
        spec_remove(s, ch).len() <= s.len(),
        has_entry(spec_remove(s, ch), id) ==> has_entry(s, id),
    decreases s.len(),
{
    if s.len() == 0 {
    } else {
        lemma_remove_keys(s.drop_first(), ch, id);
        let rest = spec_remove(s.drop_first(), ch);
        if s[0].entry != ch {
            assert((seq![s[0]] + rest).drop_first() =~= rest);
        }
    }
}

/// Removing an entry preserves a proper roster.
proof fn lemma_remove_wf(s: Seq<NodeEntryV>, ch: Seq<u8>)
    requires
        forall|i: int| 0 <= i < s.len() ==> wf_entry(#[trigger] s[i]),
        distinct_entries(s),
    ensures
        spec_remove(s, ch).len() <= s.len(),
        forall|i: int|
            0 <= i < spec_remove(s, ch).len() ==> wf_entry(#[trigger] spec_remove(s, ch)[i]),
        distinct_entries(spec_remove(s, ch)),
    decreases s.len(),
{
    if s.len() == 0 {
    } else {
        assert(forall|i: int|
            0 <= i < s.drop_first().len() ==> #[trigger] s.drop_first()[i] == s[i + 1]);
        lemma_remove_wf(s.drop_first(), ch);
        lemma_remove_keys(s.drop_first(), ch, s[0].entry);
        let r = spec_remove(s, ch);
        let rest = spec_remove(s.drop_first(), ch);
        if s[0].entry != ch {
            assert(r == seq![s[0]] + rest);
            assert(r.drop_first() =~= rest);
            assert(!has_entry(rest, s[0].entry));
            assert forall|i: int| 0 <= i < r.len() implies wf_entry(#[trigger] r[i]) by {
                if i > 0 {
                    assert(r[i] == rest[i - 1]);
                }
            };
        }
    }
}


/// Replaying the same announce is idempotent: the roster settles
/// after the first one.
pub proof fn lemma_announce_idempotent(s: Seq<NodeEntryV>, ch: Seq<u8>, ni: NodeInfoV)
    ensures
        spec_announce(spec_announce(s, ch, ni), ch, ni) == spec_announce(s, ch, ni),
    decreases s.len(),
{
    if s.len() == 0 {
        assert(spec_announce(spec_announce(s, ch, ni), ch, ni) =~= spec_announce(s, ch, ni));
    } else {
        lemma_announce_idempotent(s.drop_first(), ch, ni);
        let e = s[0];
        let rest = spec_announce(s.drop_first(), ch, ni);
        if e.entry == ch {
            let e2 = NodeEntryV { entry: e.entry, info: Some(ni) };
            assert(spec_announce(s, ch, ni) == seq![e2] + rest);
            assert((seq![e2] + rest)[0] == e2);
            assert((seq![e2] + rest).drop_first() =~= rest);
            assert(spec_announce(seq![e2] + rest, ch, ni) =~= seq![
                NodeEntryV { entry: e2.entry, info: Some(ni) },
            ] + spec_announce(rest, ch, ni));
            assert(spec_announce(spec_announce(s, ch, ni), ch, ni) =~= spec_announce(s, ch, ni));
        } else if e.info is Some && e.info->0.public == ni.public {
            assert(spec_announce(s, ch, ni) == rest);
        } else {
            assert(spec_announce(s, ch, ni) == seq![e] + rest);
            assert((seq![e] + rest)[0] == e);
            assert((seq![e] + rest).drop_first() =~= rest);
            assert(spec_announce(seq![e] + rest, ch, ni) =~= seq![e] + spec_announce(
                rest,
                ch,
                ni,
            ));
            assert(spec_announce(spec_announce(s, ch, ni), ch, ni) =~= spec_announce(s, ch, ni));
        }
    }
}

/// A frame addressed to a proper destination, itself fit for the
/// wire.
pub open spec fn wf_action(a: ServerActionV) -> bool {
    match a {
        ServerActionV::SendTo(ch, m) => wf_id(ch) && wf_msg(m),
    }
}

impl Clone for NodeEntry {
    /// An identical copy of this entry.
    fn clone(&self) -> (r: Self)
        ensures
            r@ == self@,
    {
        NodeEntry {
            entry: self.entry,
            info: match &self.info {
                Some(ni) => Some(ni.clone()),
                None => None,
            },
        }
    }
}

/// Appending a fresh entry keeps exactly the old ids plus the new one.
proof fn lemma_has_entry_push(s: Seq<NodeEntryV>, e: NodeEntryV, id: Seq<u8>)
    ensures
        has_entry(s.push(e), id) <==> (has_entry(s, id) || e.entry == id),
    decreases s.len(),
{
    if s.len() == 0 {
        assert(s.push(e).len() == 1);
        assert(s.push(e)[0] == e);
        assert(s.push(e).drop_first() =~= Seq::<NodeEntryV>::empty());
        assert(!has_entry(Seq::<NodeEntryV>::empty(), id));
        assert(has_entry(s.push(e), id) == (e.entry == id));
    } else {
        assert(s.push(e).len() == s.len() + 1);
        assert(s.push(e)[0] == s[0]);
        assert(s.push(e).drop_first() =~= s.drop_first().push(e));
        lemma_has_entry_push(s.drop_first(), e, id);
        assert(has_entry(s.push(e), id) == (s[0].entry == id || has_entry(
            s.drop_first().push(e),
            id,
        )));
    }
}

/// Appending an entry with a fresh id keeps the ids distinct.
proof fn lemma_distinct_push(s: Seq<NodeEntryV>, e: NodeEntryV)
    requires
        distinct_entries(s),
        !has_entry(s, e.entry),
    ensures
        distinct_entries(s.push(e)),
    decreases s.len(),
{
    if s.len() == 0 {
        assert(s.push(e).len() == 1);
        assert(s.push(e)[0] == e);
        assert(s.push(e).drop_first() =~= Seq::<NodeEntryV>::empty());
        assert(!has_entry(Seq::<NodeEntryV>::empty(), e.entry));
        assert(distinct_entries(Seq::<NodeEntryV>::empty()));
    } else {
        assert(s.push(e).len() == s.len() + 1);
        assert(s.push(e)[0] == s[0]);
        assert(s.push(e).drop_first() =~= s.drop_first().push(e));
        lemma_has_entry_push(s.drop_first(), e, s[0].entry);
        lemma_distinct_push(s.drop_first(), e);
        assert(!has_entry(s.drop_first().push(e), s[0].entry));
    }
}

/// The server's roster and routing state: every connection it has
/// accepted, keyed by challenge id.
#[derive(Debug)]
pub struct Internal {
    /// The accepted connections, in order of acceptance.
    pub nodes: Vec<NodeEntry>,
}

impl View for Internal {
    type V = Seq<NodeEntryV>;

    open spec fn view(&self) -> Seq<NodeEntryV> {
        self.nodes@.map_values(|e: NodeEntry| e@)
    }
}

impl Internal {
    /// An empty roster.
    pub fn new() -> (r: Internal)
        ensures
            r@ == Seq::<NodeEntryV>::empty(),
            wf_server(r@),
    {
        let r = Internal { nodes: Vec::new() };
        proof {
            assert(r.nodes@.map_values(|e: NodeEntry| e@) =~= Seq::<NodeEntryV>::empty());
        }
        r
    }

    /// Whether a connection with this challenge id is known.
    pub fn knows(&self, id: &U256) -> (r: bool)
        ensures
            r == has_entry(self@, id@),
    {
        let ghost sv = self@;
        proof {
            assert(sv.skip(0) =~= sv);
        }
        let mut i: usize = 0;
        while i < self.nodes.len()
            invariant
                i <= self.nodes.len(),
                has_entry(sv, id@) == has_entry(sv.skip(i as int), id@),
            decreases self.nodes.len() - i,
        {
            proof {
                assert(sv.skip(i as int)[0] == sv[i as int]);
                assert(sv.skip(i as int).drop_first() =~= sv.skip(i as int + 1));
            }
            if self.nodes[i].entry.same(id) {
                return true;
            }
            i += 1;
        }
        assert(sv.skip(self.nodes.len() as int) =~= Seq::<NodeEntryV>::empty());
        false
    }

    /// The public id the connection `ch` has announced, if any.
    fn sender_public(&self, ch: &U256) -> (r: Option<U256>)
        ensures
            match r {
                Some(p) => spec_sender_public(self@, ch@) == Some(p@),
                None => spec_sender_public(self@, ch@) is None,
            },
    {
        let ghost sv = self@;
        proof {
            assert(sv.skip(0) =~= sv);
        }
        let mut i: usize = 0;
        while i < self.nodes.len()
            invariant
                i <= self.nodes.len(),
                spec_sender_public(sv, ch@) == spec_sender_public(sv.skip(i as int), ch@),
            decreases self.nodes.len() - i,
        {
            proof {
                assert(sv.skip(i as int)[0] == sv[i as int]);
                assert(sv.skip(i as int).drop_first() =~= sv.skip(i as int + 1));
            }
            if self.nodes[i].entry.same(ch) {
                return match &self.nodes[i].info {
                    Some(ni) => Some(ni.public),
                    None => None,
                };
            }
            i += 1;
        }
        assert(sv.skip(self.nodes.len() as int) =~= Seq::<NodeEntryV>::empty());
        None
    }

    /// The challenge id of the first entry that announced the public
    /// id `p`, if any.
    fn find_by_public(&self, p: &U256) -> (r: Option<U256>)
        ensures
            match r {
                Some(ch) => spec_find_by_public(self@, p@) == Some(ch@),
                None => spec_find_by_public(self@, p@) is None,
            },
    {
        let ghost sv = self@;
        proof {
            assert(sv.skip(0) =~= sv);
        }
        let mut i: usize = 0;
        while i < self.nodes.len()
            invariant
                i <= self.nodes.len(),
                spec_find_by_public(sv, p@) == spec_find_by_public(sv.skip(i as int), p@),
            decreases self.nodes.len() - i,
        {
            proof {
                assert(sv.skip(i as int)[0] == sv[i as int]);
                assert(sv.skip(i as int).drop_first() =~= sv.skip(i as int + 1));
            }
            match &self.nodes[i].info {
                Some(ni) => {
                    if ni.public.same(p) {
                        return Some(self.nodes[i].entry);
                    }
                },
                None => {},
            }
            i += 1;
        }
        assert(sv.skip(self.nodes.len() as int) =~= Seq::<NodeEntryV>::empty());
        None
    }

    /// Accepts a new connection under a fresh challenge id: records
    /// it and greets it with the `Challenge` frame.  A challenge id
    /// already in use, or a full roster, refuses the connection.
    pub fn new_connection(&mut self, challenge: &U256) -> (r: Option<ServerAction>)
        requires
            wf_server(old(self)@),
        ensures
            wf_server(final(self)@),
            has_entry(old(self)@, challenge@) || old(self)@.len() >= 0xffff_ffff ==> final(self)@
                == old(self)@ && r is None,
            !has_entry(old(self)@, challenge@) && old(self)@.len() < 0xffff_ffff ==> {
                &&& final(self)@ == old(self)@.push(
                    NodeEntryV { entry: challenge@, info: None },
                )
                &&& match r {
                    Some(a) => a@ == ServerActionV::SendTo(
                        challenge@,
                        WSSignalMessageV::Challenge(challenge@),
                    ),
                    None => false,
                }
            },
    {
        if self.knows(challenge) || self.nodes.len() >= 0xffff_ffff {
            return None;
        }
        let ghost oldv = self@;
        self.nodes.push(NodeEntry::new(*challenge));
        proof {
            assert(self.nodes@.map_values(|e: NodeEntry| e@) =~= oldv.push(
                NodeEntryV { entry: challenge@, info: None },
            ));
            lemma_distinct_push(oldv, NodeEntryV { entry: challenge@, info: None });
            lemma_has_entry_push(oldv, NodeEntryV { entry: challenge@, info: None }, challenge@);
            assert forall|i: int| 0 <= i < self@.len() implies wf_entry(#[trigger] self@[i]) by {
                if i < oldv.len() {
                    assert(self@[i] == oldv[i]);
                }
            };
        }
        Some(ServerAction::SendTo(*challenge, WSSignalMessage::Challenge(*challenge)))
    }

    /// Stores an announced identity and evicts any other entry that
    /// had announced the same public id.
    fn announce(&mut self, entry: &U256, ni: NodeInfo)
        requires
            wf_server(old(self)@),
            wf_node_info(ni@),
        ensures
            wf_server(final(self)@),
            final(self)@ == spec_announce(old(self)@, entry@, ni@),
    {
        let ghost oldv = self@;
        let ghost niv = ni@;
        let mut old_nodes: Vec<NodeEntry> = Vec::new();
        core::mem::swap(&mut old_nodes, &mut self.nodes);
        let mut out: Vec<NodeEntry> = Vec::new();
        proof {
            assert(oldv.skip(0) =~= oldv);
            assert(out@.map_values(|e: NodeEntry| e@) =~= Seq::<NodeEntryV>::empty());
        }
        let mut i: usize = 0;
        while i < old_nodes.len()
            invariant
                i <= old_nodes.len(),
                oldv == old_nodes@.map_values(|e: NodeEntry| e@),
                spec_announce(oldv, entry@, niv) == out@.map_values(|e: NodeEntry| e@)
                    + spec_announce(oldv.skip(i as int), entry@, niv),
            decreases old_nodes.len() - i,
        {
            proof {
                assert(oldv.skip(i as int)[0] == oldv[i as int]);
                assert(oldv.skip(i as int).drop_first() =~= oldv.skip(i as int + 1));
            }
            let e = &old_nodes[i];
            if e.entry.same(entry) {
                out.push(NodeEntry { entry: e.entry, info: Some(ni.clone()) });
                proof {
                    assert(spec_announce(oldv, entry@, niv) =~= out@.map_values(
                        |x: NodeEntry| x@,
                    ) + spec_announce(oldv.skip(i as int + 1), entry@, niv));
                }
            } else {
                let keep = match &e.info {
                    Some(inf) => !inf.public.same(&ni.public),
                    None => true,
                };
                if keep {
                    out.push(e.clone());
                    proof {
                        assert(spec_announce(oldv, entry@, niv) =~= out@.map_values(
                            |x: NodeEntry| x@,
                        ) + spec_announce(oldv.skip(i as int + 1), entry@, niv));
                    }
                } else {
                    proof {
                        assert(spec_announce(oldv, entry@, niv) =~= out@.map_values(
                            |x: NodeEntry| x@,
                        ) + spec_announce(oldv.skip(i as int + 1), entry@, niv));
                    }
                }
            }
            i += 1;
        }
        proof {
            assert(oldv.skip(old_nodes.len() as int) =~= Seq::<NodeEntryV>::empty());
            assert(out@.map_values(|e: NodeEntry| e@) =~= out@.map_values(|e: NodeEntry| e@)
                + Seq::<NodeEntryV>::empty());
            lemma_announce_wf(oldv, entry@, niv);
        }
        self.nodes = out;
    }

    /// Forgets the entry of a closed connection.
    pub fn remove_connection(&mut self, entry: &U256)
        requires
            wf_server(old(self)@),
        ensures
            wf_server(final(self)@),
            final(self)@ == spec_remove(old(self)@, entry@),
    {
        let ghost oldv = self@;
        let mut old_nodes: Vec<NodeEntry> = Vec::new();
        core::mem::swap(&mut old_nodes, &mut self.nodes);
        let mut out: Vec<NodeEntry> = Vec::new();
        proof {
            assert(oldv.skip(0) =~= oldv);
            assert(out@.map_values(|e: NodeEntry| e@) =~= Seq::<NodeEntryV>::empty());
        }
        let mut i: usize = 0;
        while i < old_nodes.len()
            invariant
                i <= old_nodes.len(),
                oldv == old_nodes@.map_values(|e: NodeEntry| e@),
                spec_remove(oldv, entry@) == out@.map_values(|e: NodeEntry| e@) + spec_remove(
                    oldv.skip(i as int),
                    entry@,
                ),
            decreases old_nodes.len() - i,
        {
            proof {
                assert(oldv.skip(i as int)[0] == oldv[i as int]);
                assert(oldv.skip(i as int).drop_first() =~= oldv.skip(i as int + 1));
            }
            let e = &old_nodes[i];
            if !e.entry.same(entry) {
                out.push(e.clone());
            }
            proof {
                assert(spec_remove(oldv, entry@) =~= out@.map_values(|x: NodeEntry| x@)
                    + spec_remove(oldv.skip(i as int + 1), entry@));
            }
            i += 1;
        }
        proof {
            assert(oldv.skip(old_nodes.len() as int) =~= Seq::<NodeEntryV>::empty());
            assert(out@.map_values(|e: NodeEntry| e@) =~= out@.map_values(|e: NodeEntry| e@)
                + Seq::<NodeEntryV>::empty());
            lemma_remove_wf(oldv, entry@);
        }
        self.nodes = out;
    }

    /// The announced identities, in roster order.
    fn roster(&self) -> (r: Vec<NodeInfo>)
        ensures
            r@.map_values(|ni: NodeInfo| ni@) == spec_roster(self@),
    {
        let ghost sv = self@;
        let mut out: Vec<NodeInfo> = Vec::new();
        proof {
            assert(sv.skip(0) =~= sv);
            assert(out@.map_values(|ni: NodeInfo| ni@) =~= Seq::<NodeInfoV>::empty());
        }
        let mut i: usize = 0;
        while i < self.nodes.len()
            invariant
                i <= self.nodes.len(),
                spec_roster(sv) == out@.map_values(|ni: NodeInfo| ni@) + spec_roster(
                    sv.skip(i as int),
                ),
            decreases self.nodes.len() - i,
        {
            proof {
                assert(sv.skip(i as int)[0] == sv[i as int]);
                assert(sv.skip(i as int).drop_first() =~= sv.skip(i as int + 1));
            }
            match &self.nodes[i].info {
                Some(ni) => {
                    out.push(ni.clone());
                },
                None => {},
            }
            proof {
                assert(spec_roster(sv) =~= out@.map_values(|x: NodeInfo| x@) + spec_roster(
                    sv.skip(i as int + 1),
                ));
            }
            i += 1;
        }
        proof {
            assert(sv.skip(self.nodes.len() as int) =~= Seq::<NodeEntryV>::empty());
            assert(out@.map_values(|ni: NodeInfo| ni@) =~= out@.map_values(|ni: NodeInfo| ni@)
                + Seq::<NodeInfoV>::empty());
        }
        out
    }

    /// Answers one decoded signalling message from the connection
    /// `entry`: updates the roster and returns the frames to send,
    /// each fit for the wire.
    pub fn handle_msg(&mut self, entry: &U256, msg: WSSignalMessage) -> (r: Vec<ServerAction>)
        requires
            wf_server(old(self)@),
            wf_msg(msg@),
        ensures
            wf_server(final(self)@),
            final(self)@ == spec_handle(old(self)@, entry@, msg@).0,
            r@.map_values(|a: ServerAction| a@) == spec_handle(old(self)@, entry@, msg@).1,
            forall|i: int| 0 <= i < r@.len() ==> wf_action(#[trigger] r@[i]@),
    {
        let ghost oldv = self@;
        match msg {
            WSSignalMessage::Announce(ma) => {
                self.announce(entry, ma.node_info);
                let r: Vec<ServerAction> = Vec::new();
                proof {
                    assert(r@.map_values(|a: ServerAction| a@) =~= Seq::<ServerActionV>::empty());
                }
                r
            },
            WSSignalMessage::ClearNodes => {
                self.nodes = Vec::new();
                let r: Vec<ServerAction> = Vec::new();
                proof {
                    assert(self@ =~= Seq::<NodeEntryV>::empty());
                    assert(r@.map_values(|a: ServerAction| a@) =~= Seq::<ServerActionV>::empty());
                }
                r
            },
            WSSignalMessage::ListIDsRequest => {
                let list = self.roster();
                proof {
                    lemma_roster_wf(oldv);
                    let lv = list@.map_values(|ni: NodeInfo| ni@);
                    assert(forall|i: int| 0 <= i < list@.len() ==> #[trigger] list@[i]@ == lv[i]);
                }
                let mut r: Vec<ServerAction> = Vec::new();
                r.push(ServerAction::SendTo(*entry, WSSignalMessage::ListIDsReply(list)));
                proof {
                    assert(r@.map_values(|a: ServerAction| a@) =~= spec_handle(
                        oldv,
                        entry@,
                        msg@,
                    ).1);
                }
                r
            },
            WSSignalMessage::PeerSetup(pi) => {
                let r = match self.sender_public(entry) {
                    None => Vec::new(),
                    Some(sender_pub) => {
                        let dst_id = if pi.id_init.same(&sender_pub) {
                            pi.id_follow
                        } else {
                            pi.id_init
                        };
                        match self.find_by_public(&dst_id) {
                            None => Vec::new(),
                            Some(dst_ch) => {
                                let mut out: Vec<ServerAction> = Vec::new();
                                out.push(
                                    ServerAction::SendTo(dst_ch, WSSignalMessage::PeerSetup(pi)),
                                );
                                out
                            },
                        }
                    },
                };
                proof {
                    assert(r@.map_values(|a: ServerAction| a@) =~= spec_handle(
                        oldv,
                        entry@,
                        msg@,
                    ).1);
                }
                r
            },
            _ => {
                let r: Vec<ServerAction> = Vec::new();
                proof {
                    assert(r@.map_values(|a: ServerAction| a@) =~= Seq::<ServerActionV>::empty());
                }
                r
            },
        }
    }

    /// Answers one WebSocket event of the connection `entry`: a text
    /// frame is decoded and handled — a malformed one is dropped and
    /// the connection stays —, a closure or transport error removes
    /// the entry, an opening changes nothing.
    pub fn cb_msg(&mut self, entry: &U256, msg: WSMessage) -> (r: Vec<ServerAction>)
        requires
            wf_server(old(self)@),
        ensures
            wf_server(final(self)@),
            forall|i: int| 0 <= i < r@.len() ==> wf_action(#[trigger] r@[i]@),
            match msg@ {
                WSMessageV::MessageString(bytes) => match spec_decode(bytes) {
                    Some(m) => final(self)@ == spec_handle(old(self)@, entry@, m).0
                        && r@.map_values(|a: ServerAction| a@) == spec_handle(
                        old(self)@,
                        entry@,
                        m,
                    ).1,
                    None => final(self)@ == old(self)@ && r@.len() == 0,
                },
                WSMessageV::Closed(_) => final(self)@ == spec_remove(old(self)@, entry@)
                    && r@.len() == 0,
                WSMessageV::Error(_) => final(self)@ == spec_remove(old(self)@, entry@)
                    && r@.len() == 0,
                WSMessageV::Opened(_) => final(self)@ == old(self)@ && r@.len() == 0,
            },
    {
        match msg {
            WSMessage::MessageString(bytes) => {
                match decode(&bytes) {
                    Ok(wsm) => {
                        proof {
                            lemma_codec_unique_wire_form(bytes@);
                        }
                        self.handle_msg(entry, wsm.msg)
                    },
                    Err(_) => Vec::new(),
                }
            },
            WSMessage::Closed(_) => {
                self.remove_connection(entry);
                Vec::new()
            },
            WSMessage::Error(_) => {
                self.remove_connection(entry);
                Vec::new()
            },
            WSMessage::Opened(_) => Vec::new(),
        }
    }

    /// Addresses one frame to a known connection, or reports that the
    /// destination is not reachable.
    pub fn send_message(&self, entry: &U256, msg: WSSignalMessage) -> (r: Result<
        ServerAction,
        crate::errors::SignalError,
    >)
        ensures
            has_entry(self@, entry@) ==> r == Ok::<ServerAction, crate::errors::SignalError>(
                ServerAction::SendTo(*entry, msg),
            ),
            !has_entry(self@, entry@) ==> r == Err::<ServerAction, crate::errors::SignalError>(
                crate::errors::SignalError::NoRoute,
            ),
    {
        if self.knows(entry) {
            Ok(ServerAction::SendTo(*entry, msg))
        } else {
            Err(crate::errors::SignalError::NoRoute)
        }
    }
}

/// The signalling server: the state behind all its connections.
#[derive(Debug)]
pub struct ServerState {
    pub int: Internal,
}

impl View for ServerState {
    type V = Seq<NodeEntryV>;

    open spec fn view(&self) -> Seq<NodeEntryV> {
        self.int@
    }
}

impl ServerState {
    /// A fresh server with an empty roster.
    pub fn new() -> (r: ServerState)
        ensures
            r@ == Seq::<NodeEntryV>::empty(),
            wf_server(r@),
    {
        ServerState { int: Internal::new() }
    }

    /// Accepts a new connection: records the entry and greets it with
    /// its `Challenge`; see [`Internal::new_connection`].
    pub fn cb_connection(&mut self, challenge: &U256) -> (r: Option<ServerAction>)
        requires
            wf_server(old(self)@),
        ensures
            wf_server(final(self)@),
            has_entry(old(self)@, challenge@) || old(self)@.len() >= 0xffff_ffff ==> final(self)@
                == old(self)@ && r is None,
            !has_entry(old(self)@, challenge@) && old(self)@.len() < 0xffff_ffff ==> {
                &&& final(self)@ == old(self)@.push(
                    NodeEntryV { entry: challenge@, info: None },
                )
                &&& match r {
                    Some(a) => a@ == ServerActionV::SendTo(
                        challenge@,
                        WSSignalMessageV::Challenge(challenge@),
                    ),
                    None => false,
                }
            },
    {
        self.int.new_connection(challenge)
    }
}

} // verus!
