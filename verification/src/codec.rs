//! The wire codec: a bidirectional mapping between a signalling frame
//! and its on-the-wire form.
//!
//! A frame is a tag byte followed by the variant's payload.  Node ids
//! travel as 64 lowercase hex digits; variable-length payloads as an
//! 8-hex-digit length followed by the raw bytes; lists as an
//! 8-hex-digit count followed by the elements.  The codec is a
//! bijection between well-formed frames and their wire forms:
//! decoding inverts encoding ([`lemma_codec_round_trip`]) and every
//! frame has exactly one wire form ([`lemma_codec_unique_wire_form`]).
//!
//! This wire form is this crate's own, chosen so that the whole
//! grammar — framing, lengths, escaping-free payloads — could be
//! stated and proved; it is a deliberate break from peers that speak
//! a JSON frame encoding, and the two do not interoperate.  The break
//! is contained: a frame in an unknown form fails [`decode`] and is
//! dropped by the dispatchers without tearing the connection down, so
//! mixed deployments degrade to ignoring each other's frames rather
//! than failing.

use vstd::prelude::*;

use crate::config::{NodeConfig, NodeInfo, NodeInfoV};
use crate::types::U256;
use crate::web_rtc::{
    MessageAnnounce, MessageAnnounceV, PeerInfo, PeerInfoV, PeerMessage, PeerMessageV,
    WSSignalMessage, WSSignalMessageV, WebSocketMessage,
};

verus! {

/// A malformed wire frame: it decodes to no signalling message.
#[derive(Debug, Clone, PartialEq)]
pub struct DecodeError {
    pub pos: usize,
}

// ---------------------------------------------------------------------
// Well-formedness: the frames the wire form can carry.
// ---------------------------------------------------------------------
/// A payload short enough for its 8-hex-digit length field.
pub open spec fn wf_blob(b: Seq<u8>) -> bool {
    b.len() < 0x1_0000_0000
}

/// A node id: exactly 32 bytes.
pub open spec fn wf_id(x: Seq<u8>) -> bool {
    x.len() == 32
}

/// An optional payload whose present case is a well-formed payload.
pub open spec fn wf_opt_blob(o: Option<Seq<u8>>) -> bool {
    match o {
        Some(b) => wf_blob(b),
        None => true,
    }
}

/// A handshake step whose payload, if any, is well formed.
pub open spec fn wf_peer_msg(m: PeerMessageV) -> bool {
    match m {
        PeerMessageV::Init => true,
        PeerMessageV::Offer(b) => wf_blob(b),
        PeerMessageV::Answer(b) => wf_blob(b),
        PeerMessageV::IceInit(b) => wf_blob(b),
        PeerMessageV::IceFollow(b) => wf_blob(b),
        PeerMessageV::Done => true,
    }
}

/// A handshake envelope with two proper ids and a well-formed step.
pub open spec fn wf_peer_info(pi: PeerInfoV) -> bool {
    wf_id(pi.id_init) && wf_id(pi.id_follow) && wf_peer_msg(pi.message)
}

/// A roster entry with a proper id and a well-formed name.
pub open spec fn wf_node_info(ni: NodeInfoV) -> bool {
    wf_id(ni.public) && wf_opt_blob(ni.name)
}

/// An announce with a proper challenge and a well-formed identity.
pub open spec fn wf_announce(a: MessageAnnounceV) -> bool {
    wf_id(a.challenge) && wf_node_info(a.node_info)
}

/// A signalling message every part of which fits the wire form.
pub open spec fn wf_msg(m: WSSignalMessageV) -> bool {
    match m {
        WSSignalMessageV::Challenge(c) => wf_id(c),
        WSSignalMessageV::Announce(a) => wf_announce(a),
        WSSignalMessageV::ListIDsRequest => true,
        WSSignalMessageV::ListIDsReply(l) => l.len() < 0x1_0000_0000 && (forall|i: int|
            0 <= i < l.len() ==> wf_node_info(#[trigger] l[i])),
        WSSignalMessageV::ClearNodes => true,
        WSSignalMessageV::PeerSetup(pi) => wf_peer_info(pi),
        WSSignalMessageV::Done => true,
    }
}

// ---------------------------------------------------------------------
// The encoding, as mathematics.
// ---------------------------------------------------------------------
/// The lowercase hex digit of a value below 16.
pub open spec fn hex_digit(d: u8) -> u8 {
    if d < 10 {
        (0x30 + d) as u8
    } else {
        (0x57 + d) as u8
    }
}

/// The value of a hex digit byte, or -1 if it is none.
pub open spec fn hex_val(c: u8) -> int {
    if 0x30 <= c <= 0x39 {
        c - 0x30
    } else if 0x61 <= c <= 0x66 {
        c - 0x57
    } else {
        -1
    }
}

/// One byte as two hex digits.
pub open spec fn enc_byte(b: u8) -> Seq<u8> {
    seq![hex_digit(b / 16), hex_digit(b % 16)]
}

/// A byte string as hex digits.
pub open spec fn enc_hex(bs: Seq<u8>) -> Seq<u8>
    decreases bs.len(),
{
    if bs.len() == 0 {
        Seq::empty()
    } else {
        enc_byte(bs[0]) + enc_hex(bs.drop_first())
    }
}

/// A 32-bit length as 8 hex digits, most significant first.
pub open spec fn enc_u32(n: u32) -> Seq<u8> {
    enc_byte((n >> 24) as u8) + enc_byte((n >> 16) as u8) + enc_byte((n >> 8) as u8) + enc_byte(
        n as u8,
    )
}

/// A payload: its length, then its raw bytes.
pub open spec fn enc_blob(b: Seq<u8>) -> Seq<u8> {
    enc_u32(b.len() as u32) + b
}

/// An optional payload: a presence tag, then the payload if present.
pub open spec fn enc_opt_blob(o: Option<Seq<u8>>) -> Seq<u8> {
    match o {
        None => seq![0x30u8],  // '0'
        Some(b) => seq![0x31u8] + enc_blob(b),  // '1'
    }
}

/// A roster entry: the public id, then the optional name.
pub open spec fn enc_node_info(ni: NodeInfoV) -> Seq<u8> {
    enc_hex(ni.public) + enc_opt_blob(ni.name)
}

/// The elements of a roster, one after the other.
pub open spec fn enc_list_rec(l: Seq<NodeInfoV>) -> Seq<u8>
    decreases l.len(),
{
    if l.len() == 0 {
        Seq::empty()
    } else {
        enc_node_info(l[0]) + enc_list_rec(l.drop_first())
    }
}

/// A roster: its length, then its elements.
pub open spec fn enc_list(l: Seq<NodeInfoV>) -> Seq<u8> {
    enc_u32(l.len() as u32) + enc_list_rec(l)
}

/// A handshake step: a tag byte, then the payload if any.
pub open spec fn enc_peer_msg(m: PeerMessageV) -> Seq<u8> {
    match m {
        PeerMessageV::Init => seq![0x49u8],  // 'I'
        PeerMessageV::Offer(b) => seq![0x4fu8] + enc_blob(b),  // 'O'
        PeerMessageV::Answer(b) => seq![0x41u8] + enc_blob(b),  // 'A'
        PeerMessageV::IceInit(b) => seq![0x69u8] + enc_blob(b),  // 'i'
        PeerMessageV::IceFollow(b) => seq![0x66u8] + enc_blob(b),  // 'f'
        PeerMessageV::Done => seq![0x44u8],  // 'D'
    }
}

/// A handshake envelope: both ids, then the step.
pub open spec fn enc_peer_info(pi: PeerInfoV) -> Seq<u8> {
    enc_hex(pi.id_init) + enc_hex(pi.id_follow) + enc_peer_msg(pi.message)
}

/// An announce: the echoed challenge, then the identity.
pub open spec fn enc_announce(a: MessageAnnounceV) -> Seq<u8> {
    enc_hex(a.challenge) + enc_node_info(a.node_info)
}

/// A whole signalling message: a tag byte, then the variant's payload.
pub open spec fn spec_encode(m: WSSignalMessageV) -> Seq<u8> {
    match m {
        WSSignalMessageV::Challenge(c) => seq![0x43u8] + enc_hex(c),  // 'C'
        WSSignalMessageV::Announce(a) => seq![0x4eu8] + enc_announce(a),  // 'N'
        WSSignalMessageV::ListIDsRequest => seq![0x4cu8],  // 'L'
        WSSignalMessageV::ListIDsReply(l) => seq![0x52u8] + enc_list(l),  // 'R'
        WSSignalMessageV::ClearNodes => seq![0x58u8],  // 'X'
        WSSignalMessageV::PeerSetup(pi) => seq![0x50u8] + enc_peer_info(pi),  // 'P'
        WSSignalMessageV::Done => seq![0x44u8],  // 'D'
    }
}

// ---------------------------------------------------------------------
// The decoding, as mathematics.  Each function reads one syntactic
// element at an absolute position and yields the value together with
// the position just past it, or nothing if the bytes do not fit.
// ---------------------------------------------------------------------
/// Two hex digits as one byte.
pub open spec fn dec_hex_byte(s: Seq<u8>, pos: int) -> Option<(u8, int)> {
    if 0 <= pos && pos + 2 <= s.len() && hex_val(s[pos]) >= 0 && hex_val(s[pos + 1]) >= 0 {
        Some((((hex_val(s[pos]) * 16 + hex_val(s[pos + 1]))) as u8, pos + 2))
    } else {
        None
    }
}

/// `k` hex-encoded bytes in a row.
pub open spec fn dec_hex_rec(s: Seq<u8>, pos: int, k: nat) -> Option<(Seq<u8>, int)>
    decreases k,
{
    if k == 0 {
        Some((Seq::empty(), pos))
    } else {
        match dec_hex_byte(s, pos) {
            None => None,
            Some((b, p)) => match dec_hex_rec(s, p, (k - 1) as nat) {
                None => None,
                Some((t, q)) => Some((seq![b] + t, q)),
            },
        }
    }
}

/// A node id: 32 hex-encoded bytes.
pub open spec fn dec_id(s: Seq<u8>, pos: int) -> Option<(Seq<u8>, int)> {
    dec_hex_rec(s, pos, 32)
}

/// A 32-bit length: 8 hex digits, most significant first.
pub open spec fn dec_u32(s: Seq<u8>, pos: int) -> Option<(u32, int)> {
    match dec_hex_byte(s, pos) {
        None => None,
        Some((b0, p1)) => match dec_hex_byte(s, p1) {
            None => None,
            Some((b1, p2)) => match dec_hex_byte(s, p2) {
                None => None,
                Some((b2, p3)) => match dec_hex_byte(s, p3) {
                    None => None,
                    Some((b3, p4)) => Some(
                        (
                            (b0 as u32) << 24 | (b1 as u32) << 16 | (b2 as u32) << 8 | (b3 as u32),
                            p4,
                        ),
                    ),
                },
            },
        },
    }
}

/// A payload: its length, then that many raw bytes.
pub open spec fn dec_blob(s: Seq<u8>, pos: int) -> Option<(Seq<u8>, int)> {
    match dec_u32(s, pos) {
        None => None,
        Some((n, p)) => if p + n <= s.len() {
            Some((s.subrange(p, p + n), p + n))
        } else {
            None
        },
    }
}

/// An optional payload behind its presence tag.
pub open spec fn dec_opt_blob(s: Seq<u8>, pos: int) -> Option<(Option<Seq<u8>>, int)> {
    if 0 <= pos && pos < s.len() {
        if s[pos] == 0x30 {
            Some((None, pos + 1))
        } else if s[pos] == 0x31 {
            match dec_blob(s, pos + 1) {
                None => None,
                Some((b, p)) => Some((Some(b), p)),
            }
        } else {
            None
        }
    } else {
        None
    }
}

/// A roster entry: a public id, then an optional name.
pub open spec fn dec_node_info(s: Seq<u8>, pos: int) -> Option<(NodeInfoV, int)> {
    match dec_id(s, pos) {
        None => None,
        Some((pk, p)) => match dec_opt_blob(s, p) {
            None => None,
            Some((nm, q)) => Some((NodeInfoV { public: pk, name: nm }, q)),
        },
    }
}

/// `k` roster entries in a row.
pub open spec fn dec_list_rec(s: Seq<u8>, pos: int, k: nat) -> Option<(Seq<NodeInfoV>, int)>
    decreases k,
{
    if k == 0 {
        Some((Seq::empty(), pos))
    } else {
        match dec_node_info(s, pos) {
            None => None,
            Some((ni, p)) => match dec_list_rec(s, p, (k - 1) as nat) {
                None => None,
                Some((t, q)) => Some((seq![ni] + t, q)),
            },
        }
    }
}

/// A roster: its length, then its entries.
pub open spec fn dec_list(s: Seq<u8>, pos: int) -> Option<(Seq<NodeInfoV>, int)> {
    match dec_u32(s, pos) {
        None => None,
        Some((n, p)) => dec_list_rec(s, p, n as nat),
    }
}

/// A handshake step behind its tag byte.
pub open spec fn dec_peer_msg(s: Seq<u8>, pos: int) -> Option<(PeerMessageV, int)> {
    if 0 <= pos && pos < s.len() {
        if s[pos] == 0x49 {
            Some((PeerMessageV::Init, pos + 1))
        } else if s[pos] == 0x44 {
            Some((PeerMessageV::Done, pos + 1))
        } else if s[pos] == 0x4f {
            match dec_blob(s, pos + 1) {
                None => None,
                Some((b, p)) => Some((PeerMessageV::Offer(b), p)),
            }
        } else if s[pos] == 0x41 {
            match dec_blob(s, pos + 1) {
                None => None,
                Some((b, p)) => Some((PeerMessageV::Answer(b), p)),
            }
        } else if s[pos] == 0x69 {
            match dec_blob(s, pos + 1) {
                None => None,
                Some((b, p)) => Some((PeerMessageV::IceInit(b), p)),
            }
        } else if s[pos] == 0x66 {
            match dec_blob(s, pos + 1) {
                None => None,
                Some((b, p)) => Some((PeerMessageV::IceFollow(b), p)),
            }
        } else {
            None
        }
    } else {
        None
    }
}

/// A handshake envelope: both ids, then the step.
pub open spec fn dec_peer_info(s: Seq<u8>, pos: int) -> Option<(PeerInfoV, int)> {
    match dec_id(s, pos) {
        None => None,
        Some((ii, p)) => match dec_id(s, p) {
            None => None,
            Some((fi, q)) => match dec_peer_msg(s, q) {
                None => None,
                Some((m, r)) => Some(
                    (PeerInfoV { id_init: ii, id_follow: fi, message: m }, r),
                ),
            },
        },
    }
}

/// An announce: the echoed challenge, then the identity.
pub open spec fn dec_announce(s: Seq<u8>, pos: int) -> Option<(MessageAnnounceV, int)> {
    match dec_id(s, pos) {
        None => None,
        Some((c, p)) => match dec_node_info(s, p) {
            None => None,
            Some((ni, q)) => Some((MessageAnnounceV { challenge: c, node_info: ni }, q)),
        },
    }
}

/// A whole signalling message behind its tag byte.
pub open spec fn dec_msg(s: Seq<u8>, pos: int) -> Option<(WSSignalMessageV, int)> {
    if 0 <= pos && pos < s.len() {
        if s[pos] == 0x4c {
            Some((WSSignalMessageV::ListIDsRequest, pos + 1))
        } else if s[pos] == 0x58 {
            Some((WSSignalMessageV::ClearNodes, pos + 1))
        } else if s[pos] == 0x44 {
            Some((WSSignalMessageV::Done, pos + 1))
        } else if s[pos] == 0x43 {
            match dec_id(s, pos + 1) {
                None => None,
                Some((c, p)) => Some((WSSignalMessageV::Challenge(c), p)),
            }
        } else if s[pos] == 0x4e {
            match dec_announce(s, pos + 1) {
                None => None,
                Some((a, p)) => Some((WSSignalMessageV::Announce(a), p)),
            }
        } else if s[pos] == 0x52 {
            match dec_list(s, pos + 1) {
                None => None,
                Some((l, p)) => Some((WSSignalMessageV::ListIDsReply(l), p)),
            }
        } else if s[pos] == 0x50 {
            match dec_peer_info(s, pos + 1) {
                None => None,
                Some((pi, p)) => Some((WSSignalMessageV::PeerSetup(pi), p)),
            }
        } else {
            None
        }
    } else {
        None
    }
}

/// What a whole wire frame means: the message it holds, provided the
/// frame is consumed exactly.
pub open spec fn spec_decode(s: Seq<u8>) -> Option<WSSignalMessageV> {
    match dec_msg(s, 0) {
        None => None,
        Some((m, p)) => if p == s.len() {
            Some(m)
        } else {
            None
        },
    }
}

// ---------------------------------------------------------------------
// Decoding inverts encoding.
// ---------------------------------------------------------------------
/// `e` is what `s` holds at position `pos`.
pub open spec fn holds_at(s: Seq<u8>, pos: int, e: Seq<u8>) -> bool {
    0 <= pos && pos + e.len() <= s.len() && s.subrange(pos, pos + e.len() as int) == e
}

/// What holds of a concatenation at `pos` holds of its parts in a row.
proof fn lemma_holds_at_split(s: Seq<u8>, pos: int, e1: Seq<u8>, e2: Seq<u8>)
    requires
        holds_at(s, pos, e1 + e2),
    ensures
        holds_at(s, pos, e1),
        holds_at(s, pos + e1.len(), e2),
{
    let l1 = e1.len() as int;
    let l2 = e2.len() as int;
    assert forall|i: int| 0 <= i < l1 implies s.subrange(pos, pos + l1)[i] == e1[i] by {
        assert(s.subrange(pos, pos + l1 + l2)[i] == (e1 + e2)[i]);
    };
    assert(s.subrange(pos, pos + l1) =~= e1);
    assert forall|i: int| 0 <= i < l2 implies s.subrange(pos + l1, pos + l1 + l2)[i] == e2[i] by {
        assert(s.subrange(pos, pos + l1 + l2)[l1 + i] == (e1 + e2)[l1 + i]);
    };
    assert(s.subrange(pos + l1, pos + l1 + l2) =~= e2);
}

/// The hex digit of a value below 16 reads back as that value.
proof fn lemma_hex_digit_val(d: u8)
    requires
        d < 16,
    ensures
        hex_val(hex_digit(d)) == d as int,
{
}

/// An encoded byte decodes to itself.
proof fn lemma_dec_hex_byte(s: Seq<u8>, pos: int, b: u8)
    requires
        holds_at(s, pos, enc_byte(b)),
    ensures
        dec_hex_byte(s, pos) == Some((b, pos + 2)),
{
    assert(s[pos] == s.subrange(pos, pos + 2)[0]);
    assert(s[pos + 1] == s.subrange(pos, pos + 2)[1]);
    lemma_hex_digit_val(b / 16);
    lemma_hex_digit_val(b % 16);
    assert(hex_val(s[pos]) * 16 + hex_val(s[pos + 1]) == b as int);
}

/// An encoded byte string decodes to itself.
proof fn lemma_dec_hex_rec(s: Seq<u8>, pos: int, bs: Seq<u8>)
    requires
        holds_at(s, pos, enc_hex(bs)),
    ensures
        dec_hex_rec(s, pos, bs.len()) == Some((bs, pos + enc_hex(bs).len())),
    decreases bs.len(),
{
    if bs.len() == 0 {
        assert(bs =~= Seq::<u8>::empty());
    } else {
        assert(enc_hex(bs) == enc_byte(bs[0]) + enc_hex(bs.drop_first()));
        lemma_holds_at_split(s, pos, enc_byte(bs[0]), enc_hex(bs.drop_first()));
        lemma_dec_hex_byte(s, pos, bs[0]);
        lemma_dec_hex_rec(s, pos + 2, bs.drop_first());
        assert(seq![bs[0]] + bs.drop_first() =~= bs);
    }
}

/// A 32-bit value reassembles from its four encoded bytes.
proof fn lemma_u32_recompose(n: u32)
    ensures
        ((n >> 24) as u8 as u32) << 24 | ((n >> 16) as u8 as u32) << 16 | ((n >> 8) as u8 as u32)
            << 8 | (n as u8 as u32) == n,
{
    assert(((n >> 24) as u8 as u32) << 24 | ((n >> 16) as u8 as u32) << 16 | ((n >> 8) as u8
        as u32) << 8 | (n as u8 as u32) == n) by (bit_vector);
}

/// An encoded 32-bit length decodes to itself.
proof fn lemma_dec_u32(s: Seq<u8>, pos: int, n: u32)
    requires
        holds_at(s, pos, enc_u32(n)),
    ensures
        dec_u32(s, pos) == Some((n, pos + 8)),
{
    let b0 = (n >> 24) as u8;
    let b1 = (n >> 16) as u8;
    let b2 = (n >> 8) as u8;
    let b3 = n as u8;
    assert(enc_u32(n) == enc_byte(b0) + (enc_byte(b1) + (enc_byte(b2) + enc_byte(b3)))) by {
        assert(enc_u32(n) =~= enc_byte(b0) + (enc_byte(b1) + (enc_byte(b2) + enc_byte(b3))));
    }
    lemma_holds_at_split(s, pos, enc_byte(b0), enc_byte(b1) + (enc_byte(b2) + enc_byte(b3)));
    lemma_holds_at_split(s, pos + 2, enc_byte(b1), enc_byte(b2) + enc_byte(b3));
    lemma_holds_at_split(s, pos + 4, enc_byte(b2), enc_byte(b3));
    lemma_dec_hex_byte(s, pos, b0);
    lemma_dec_hex_byte(s, pos + 2, b1);
    lemma_dec_hex_byte(s, pos + 4, b2);
    lemma_dec_hex_byte(s, pos + 6, b3);
    lemma_u32_recompose(n);
}

/// An encoded payload decodes to itself.
proof fn lemma_dec_blob(s: Seq<u8>, pos: int, b: Seq<u8>)
    requires
        wf_blob(b),
        holds_at(s, pos, enc_blob(b)),
    ensures
        dec_blob(s, pos) == Some((b, pos + enc_blob(b).len())),
{
    let n = b.len() as u32;
    lemma_holds_at_split(s, pos, enc_u32(n), b);
    lemma_dec_u32(s, pos, n);
}

/// An encoded optional payload decodes to itself.
proof fn lemma_dec_opt_blob(s: Seq<u8>, pos: int, o: Option<Seq<u8>>)
    requires
        wf_opt_blob(o),
        holds_at(s, pos, enc_opt_blob(o)),
    ensures
        dec_opt_blob(s, pos) == Some((o, pos + enc_opt_blob(o).len())),
{
    match o {
        None => {
            assert(s[pos] == s.subrange(pos, pos + 1)[0]);
        },
        Some(b) => {
            lemma_holds_at_split(s, pos, seq![0x31u8], enc_blob(b));
            assert(s[pos] == s.subrange(pos, pos + 1)[0]);
            lemma_dec_blob(s, pos + 1, b);
        },
    }
}

/// An encoded roster entry decodes to itself.
proof fn lemma_dec_node_info(s: Seq<u8>, pos: int, ni: NodeInfoV)
    requires
        wf_node_info(ni),
        holds_at(s, pos, enc_node_info(ni)),
    ensures
        dec_node_info(s, pos) == Some((ni, pos + enc_node_info(ni).len())),
{
    lemma_holds_at_split(s, pos, enc_hex(ni.public), enc_opt_blob(ni.name));
    lemma_dec_hex_rec(s, pos, ni.public);
    lemma_dec_opt_blob(s, pos + enc_hex(ni.public).len(), ni.name);
    assert(dec_node_info(s, pos) == Some(
        (NodeInfoV { public: ni.public, name: ni.name }, pos + enc_node_info(ni).len()),
    ));
    assert(NodeInfoV { public: ni.public, name: ni.name } =~= ni);
}

/// An encoded run of roster entries decodes to itself.
proof fn lemma_dec_list_rec(s: Seq<u8>, pos: int, l: Seq<NodeInfoV>)
    requires
        forall|i: int| 0 <= i < l.len() ==> wf_node_info(#[trigger] l[i]),
        holds_at(s, pos, enc_list_rec(l)),
    ensures
        dec_list_rec(s, pos, l.len()) == Some((l, pos + enc_list_rec(l).len())),
    decreases l.len(),
{
    if l.len() == 0 {
        assert(l =~= Seq::<NodeInfoV>::empty());
    } else {
        assert(enc_list_rec(l) == enc_node_info(l[0]) + enc_list_rec(l.drop_first()));
        lemma_holds_at_split(s, pos, enc_node_info(l[0]), enc_list_rec(l.drop_first()));
        lemma_dec_node_info(s, pos, l[0]);
        lemma_dec_list_rec(s, pos + enc_node_info(l[0]).len(), l.drop_first());
        assert(seq![l[0]] + l.drop_first() =~= l);
    }
}

/// An encoded roster decodes to itself.
proof fn lemma_dec_list(s: Seq<u8>, pos: int, l: Seq<NodeInfoV>)
    requires
        l.len() < 0x1_0000_0000,
        forall|i: int| 0 <= i < l.len() ==> wf_node_info(#[trigger] l[i]),
        holds_at(s, pos, enc_list(l)),
    ensures
        dec_list(s, pos) == Some((l, pos + enc_list(l).len())),
{
    let n = l.len() as u32;
    lemma_holds_at_split(s, pos, enc_u32(n), enc_list_rec(l));
    lemma_dec_u32(s, pos, n);
    lemma_dec_list_rec(s, pos + 8, l);
}

/// An encoded handshake step decodes to itself.
proof fn lemma_dec_peer_msg(s: Seq<u8>, pos: int, m: PeerMessageV)
    requires
        wf_peer_msg(m),
        holds_at(s, pos, enc_peer_msg(m)),
    ensures
        dec_peer_msg(s, pos) == Some((m, pos + enc_peer_msg(m).len())),
{
    match m {
        PeerMessageV::Init => {
            assert(s[pos] == s.subrange(pos, pos + 1)[0]);
        },
        PeerMessageV::Done => {
            assert(s[pos] == s.subrange(pos, pos + 1)[0]);
        },
        PeerMessageV::Offer(b) => {
            lemma_holds_at_split(s, pos, seq![0x4fu8], enc_blob(b));
            assert(s[pos] == s.subrange(pos, pos + 1)[0]);
            lemma_dec_blob(s, pos + 1, b);
        },
        PeerMessageV::Answer(b) => {
            lemma_holds_at_split(s, pos, seq![0x41u8], enc_blob(b));
            assert(s[pos] == s.subrange(pos, pos + 1)[0]);
            lemma_dec_blob(s, pos + 1, b);
        },
        PeerMessageV::IceInit(b) => {
            lemma_holds_at_split(s, pos, seq![0x69u8], enc_blob(b));
            assert(s[pos] == s.subrange(pos, pos + 1)[0]);
            lemma_dec_blob(s, pos + 1, b);
        },
        PeerMessageV::IceFollow(b) => {
            lemma_holds_at_split(s, pos, seq![0x66u8], enc_blob(b));
            assert(s[pos] == s.subrange(pos, pos + 1)[0]);
            lemma_dec_blob(s, pos + 1, b);
        },
    }
}

/// An encoded handshake envelope decodes to itself.
proof fn lemma_dec_peer_info(s: Seq<u8>, pos: int, pi: PeerInfoV)
    requires
        wf_peer_info(pi),
        holds_at(s, pos, enc_peer_info(pi)),
    ensures
        dec_peer_info(s, pos) == Some((pi, pos + enc_peer_info(pi).len())),
{
    assert(enc_peer_info(pi) == enc_hex(pi.id_init) + (enc_hex(pi.id_follow) + enc_peer_msg(
        pi.message,
    ))) by {
        assert(enc_peer_info(pi) =~= enc_hex(pi.id_init) + (enc_hex(pi.id_follow) + enc_peer_msg(
            pi.message,
        )));
    }
    lemma_holds_at_split(
        s,
        pos,
        enc_hex(pi.id_init),
        enc_hex(pi.id_follow) + enc_peer_msg(pi.message),
    );
    let p1 = pos + enc_hex(pi.id_init).len();
    lemma_holds_at_split(s, p1, enc_hex(pi.id_follow), enc_peer_msg(pi.message));
    let p2 = p1 + enc_hex(pi.id_follow).len();
    lemma_dec_hex_rec(s, pos, pi.id_init);
    lemma_dec_hex_rec(s, p1, pi.id_follow);
    lemma_dec_peer_msg(s, p2, pi.message);
    assert(PeerInfoV { id_init: pi.id_init, id_follow: pi.id_follow, message: pi.message } =~= pi);
}

/// An encoded announce decodes to itself.
proof fn lemma_dec_announce(s: Seq<u8>, pos: int, a: MessageAnnounceV)
    requires
        wf_announce(a),
        holds_at(s, pos, enc_announce(a)),
    ensures
        dec_announce(s, pos) == Some((a, pos + enc_announce(a).len())),
{
    lemma_holds_at_split(s, pos, enc_hex(a.challenge), enc_node_info(a.node_info));
    lemma_dec_hex_rec(s, pos, a.challenge);
    lemma_dec_node_info(s, pos + enc_hex(a.challenge).len(), a.node_info);
    assert(MessageAnnounceV { challenge: a.challenge, node_info: a.node_info } =~= a);
}

/// Decoding inverts encoding: every well-formed signalling message
/// comes back unchanged from its own wire form.
pub proof fn lemma_codec_round_trip(m: WSSignalMessageV)
    requires
        wf_msg(m),
    ensures
        spec_decode(spec_encode(m)) == Some(m),
{
    let e = spec_encode(m);
    assert(e.subrange(0, e.len() as int) =~= e);
    assert(holds_at(e, 0, e));
    match m {
        WSSignalMessageV::ListIDsRequest => {
            assert(e[0] == 0x4c);
        },
        WSSignalMessageV::ClearNodes => {
            assert(e[0] == 0x58);
        },
        WSSignalMessageV::Done => {
            assert(e[0] == 0x44);
        },
        WSSignalMessageV::Challenge(c) => {
            lemma_holds_at_split(e, 0, seq![0x43u8], enc_hex(c));
            assert(e[0] == e.subrange(0, 1)[0]);
            lemma_dec_hex_rec(e, 1, c);
            assert(dec_id(e, 1) == Some((c, e.len() as int)));
        },
        WSSignalMessageV::Announce(a) => {
            lemma_holds_at_split(e, 0, seq![0x4eu8], enc_announce(a));
            assert(e[0] == e.subrange(0, 1)[0]);
            lemma_dec_announce(e, 1, a);
        },
        WSSignalMessageV::ListIDsReply(l) => {
            lemma_holds_at_split(e, 0, seq![0x52u8], enc_list(l));
            assert(e[0] == e.subrange(0, 1)[0]);
            lemma_dec_list(e, 1, l);
        },
        WSSignalMessageV::PeerSetup(pi) => {
            lemma_holds_at_split(e, 0, seq![0x50u8], enc_peer_info(pi));
            assert(e[0] == e.subrange(0, 1)[0]);
            lemma_dec_peer_info(e, 1, pi);
        },
    }
}

// ---------------------------------------------------------------------
// Encoding inverts decoding: whatever decodes has exactly the bytes
// its own encoding would produce, so each message has one wire form.
// ---------------------------------------------------------------------
/// Two adjacent held stretches make one held stretch.
proof fn lemma_holds_at_join(s: Seq<u8>, pos: int, e1: Seq<u8>, e2: Seq<u8>)
    requires
        holds_at(s, pos, e1),
        holds_at(s, pos + e1.len(), e2),
    ensures
        holds_at(s, pos, e1 + e2),
{
    let l1 = e1.len() as int;
    let l2 = e2.len() as int;
    assert forall|i: int| 0 <= i < l1 + l2 implies s.subrange(pos, pos + l1 + l2)[i] == (e1
        + e2)[i] by {
        if i < l1 {
            assert(s.subrange(pos, pos + l1)[i] == e1[i]);
        } else {
            assert(s.subrange(pos + l1, pos + l1 + l2)[i - l1] == e2[i - l1]);
        }
    };
    assert(s.subrange(pos, pos + l1 + l2) =~= e1 + e2);
}

/// A valid hex digit byte is the digit of its value.
proof fn lemma_hex_val_digit(c: u8)
    requires
        hex_val(c) >= 0,
    ensures
        hex_digit(hex_val(c) as u8) == c,
{
}

/// A decoded byte sits in the bytes as its own encoding.
proof fn lemma_dec_hex_byte_sound(s: Seq<u8>, pos: int)
    ensures
        match dec_hex_byte(s, pos) {
            Some((b, p)) => p == pos + 2 && holds_at(s, pos, enc_byte(b)),
            None => true,
        },
{
    match dec_hex_byte(s, pos) {
        None => {},
        Some((b, p)) => {
            let h = hex_val(s[pos]);
            let l = hex_val(s[pos + 1]);
            lemma_hex_val_digit(s[pos]);
            lemma_hex_val_digit(s[pos + 1]);
            assert(b == h * 16 + l);
            assert(b / 16 == h && b % 16 == l);
            assert(s.subrange(pos, pos + 2) =~= enc_byte(b));
        },
    }
}

/// A decoded run of hex bytes sits in the bytes as its own encoding.
proof fn lemma_dec_hex_rec_sound(s: Seq<u8>, pos: int, k: nat)
    ensures
        match dec_hex_rec(s, pos, k) {
            Some((v, p)) => v.len() == k && p == pos + 2 * k && enc_hex(v).len() == 2 * k && (k
                > 0 ==> holds_at(s, pos, enc_hex(v))),
            None => true,
        },
    decreases k,
{
    if k == 0 {
        match dec_hex_rec(s, pos, k) {
            Some((v, p)) => {
                assert(v.len() == 0);
                assert(enc_hex(v).len() == 0);
            },
            None => {},
        }
    }
    if k > 0 {
        match dec_hex_byte(s, pos) {
            None => {},
            Some((b, p1)) => {
                lemma_dec_hex_byte_sound(s, pos);
                lemma_dec_hex_rec_sound(s, p1, (k - 1) as nat);
                match dec_hex_rec(s, p1, (k - 1) as nat) {
                    None => {},
                    Some((t, p)) => {
                        let v = seq![b] + t;
                        assert(v[0] == b);
                        assert(v.drop_first() =~= t);
                        assert(enc_hex(v) == enc_byte(b) + enc_hex(t));
                        if t.len() == 0 {
                            assert(enc_hex(t).len() == 0);
                            assert(s.subrange(p1, p1) =~= enc_hex(t));
                            assert(holds_at(s, p1, enc_hex(t)));
                        }
                        lemma_holds_at_join(s, pos, enc_byte(b), enc_hex(t));
                    },
                }
            },
        }
    }
}

/// A decoded length sits in the bytes as its own encoding.
proof fn lemma_dec_u32_sound(s: Seq<u8>, pos: int)
    ensures
        match dec_u32(s, pos) {
            Some((n, p)) => p == pos + 8 && holds_at(s, pos, enc_u32(n)),
            None => true,
        },
{
    match dec_u32(s, pos) {
        None => {},
        Some((n, p)) => {
            lemma_dec_hex_byte_sound(s, pos);
            lemma_dec_hex_byte_sound(s, pos + 2);
            lemma_dec_hex_byte_sound(s, pos + 4);
            lemma_dec_hex_byte_sound(s, pos + 6);
            if let Some((b0, q1)) = dec_hex_byte(s, pos) {
                if let Some((b1, q2)) = dec_hex_byte(s, pos + 2) {
                    if let Some((b2, q3)) = dec_hex_byte(s, pos + 4) {
                        if let Some((b3, q4)) = dec_hex_byte(s, pos + 6) {
                            assert(n == (b0 as u32) << 24 | (b1 as u32) << 16 | (b2 as u32) << 8
                                | (b3 as u32));
                            assert(((((b0 as u32) << 24 | (b1 as u32) << 16 | (b2 as u32) << 8 | (
                            b3 as u32)) >> 24) as u8 == b0) && ((((b0 as u32) << 24 | (b1 as u32)
                                << 16 | (b2 as u32) << 8 | (b3 as u32)) >> 16) as u8 == b1) && ((((
                            b0 as u32) << 24 | (b1 as u32) << 16 | (b2 as u32) << 8 | (b3 as u32))
                                >> 8) as u8 == b2) && (((b0 as u32) << 24 | (b1 as u32) << 16 | (
                            b2 as u32) << 8 | (b3 as u32)) as u8 == b3)) by (bit_vector);
                            lemma_holds_at_join(s, pos + 4, enc_byte(b2), enc_byte(b3));
                            lemma_holds_at_join(
                                s,
                                pos + 2,
                                enc_byte(b1),
                                enc_byte(b2) + enc_byte(b3),
                            );
                            lemma_holds_at_join(
                                s,
                                pos,
                                enc_byte(b0),
                                enc_byte(b1) + (enc_byte(b2) + enc_byte(b3)),
                            );
                            assert(enc_u32(n) =~= enc_byte(b0) + (enc_byte(b1) + (enc_byte(b2)
                                + enc_byte(b3))));
                        }
                    }
                }
            }
        },
    }
}

/// A decoded payload sits in the bytes as its own encoding.
proof fn lemma_dec_blob_sound(s: Seq<u8>, pos: int)
    ensures
        match dec_blob(s, pos) {
            Some((b, p)) => wf_blob(b) && p == pos + 8 + b.len() && holds_at(s, pos, enc_blob(b)),
            None => true,
        },
{
    match dec_u32(s, pos) {
        None => {},
        Some((n, q)) => {
            lemma_dec_u32_sound(s, pos);
            if q + n <= s.len() {
                let b = s.subrange(q, q + n);
                assert(b.len() == n);
                assert(b.len() as u32 == n);
                assert(holds_at(s, q, b));
                lemma_holds_at_join(s, pos, enc_u32(n), b);
            }
        },
    }
}

/// A decoded optional payload sits in the bytes as its own encoding.
proof fn lemma_dec_opt_blob_sound(s: Seq<u8>, pos: int)
    ensures
        match dec_opt_blob(s, pos) {
            Some((o, p)) => wf_opt_blob(o) && p == pos + enc_opt_blob(o).len() && holds_at(
                s,
                pos,
                enc_opt_blob(o),
            ),
            None => true,
        },
{
    if 0 <= pos && pos < s.len() {
        if s[pos] == 0x30 {
            assert(s.subrange(pos, pos + 1) =~= seq![0x30u8]);
        } else if s[pos] == 0x31 {
            lemma_dec_blob_sound(s, pos + 1);
            match dec_blob(s, pos + 1) {
                None => {},
                Some((b, p)) => {
                    assert(s.subrange(pos, pos + 1) =~= seq![0x31u8]);
                    assert(holds_at(s, pos, seq![0x31u8]));
                    lemma_holds_at_join(s, pos, seq![0x31u8], enc_blob(b));
                },
            }
        }
    }
}

/// A decoded roster entry sits in the bytes as its own encoding.
proof fn lemma_dec_node_info_sound(s: Seq<u8>, pos: int)
    ensures
        match dec_node_info(s, pos) {
            Some((ni, p)) => wf_node_info(ni) && p == pos + enc_node_info(ni).len() && holds_at(
                s,
                pos,
                enc_node_info(ni),
            ),
            None => true,
        },
{
    match dec_id(s, pos) {
        None => {},
        Some((pk, q)) => {
            lemma_dec_hex_rec_sound(s, pos, 32);
            lemma_dec_opt_blob_sound(s, q);
            match dec_opt_blob(s, q) {
                None => {},
                Some((nm, p)) => {
                    lemma_holds_at_join(s, pos, enc_hex(pk), enc_opt_blob(nm));
                },
            }
        },
    }
}

/// A decoded run of roster entries sits in the bytes as its own
/// encoding.
proof fn lemma_dec_list_rec_sound(s: Seq<u8>, pos: int, k: nat)
    ensures
        match dec_list_rec(s, pos, k) {
            Some((l, p)) => l.len() == k && p == pos + enc_list_rec(l).len() && (forall|i: int|
                0 <= i < l.len() ==> wf_node_info(#[trigger] l[i])) && (k > 0 ==> holds_at(
                s,
                pos,
                enc_list_rec(l),
            )),
            None => true,
        },
    decreases k,
{
    if k > 0 {
        match dec_node_info(s, pos) {
            None => {},
            Some((ni, q)) => {
                lemma_dec_node_info_sound(s, pos);
                lemma_dec_list_rec_sound(s, q, (k - 1) as nat);
                match dec_list_rec(s, q, (k - 1) as nat) {
                    None => {},
                    Some((t, p)) => {
                        let l = seq![ni] + t;
                        assert(l[0] == ni);
                        assert(l.drop_first() =~= t);
                        assert(enc_list_rec(l) == enc_node_info(ni) + enc_list_rec(t));
                        assert(forall|i: int| 1 <= i < l.len() ==> l[i] == t[i - 1]);
                        if t.len() == 0 {
                            assert(enc_list_rec(t).len() == 0);
                            assert(s.subrange(q, q) =~= enc_list_rec(t));
                            assert(holds_at(s, q, enc_list_rec(t)));
                        }
                        lemma_holds_at_join(s, pos, enc_node_info(ni), enc_list_rec(t));
                    },
                }
            },
        }
    }
}

/// A decoded roster sits in the bytes as its own encoding.
proof fn lemma_dec_list_sound(s: Seq<u8>, pos: int)
    ensures
        match dec_list(s, pos) {
            Some((l, p)) => l.len() < 0x1_0000_0000 && p == pos + enc_list(l).len() && (forall|
                i: int,
            |
                0 <= i < l.len() ==> wf_node_info(#[trigger] l[i])) && holds_at(
                s,
                pos,
                enc_list(l),
            ),
            None => true,
        },
{
    match dec_u32(s, pos) {
        None => {},
        Some((n, q)) => {
            lemma_dec_u32_sound(s, pos);
            lemma_dec_list_rec_sound(s, q, n as nat);
            match dec_list_rec(s, q, n as nat) {
                None => {},
                Some((l, p)) => {
                    assert(l.len() as u32 == n);
                    if l.len() == 0 {
                        assert(enc_list_rec(l).len() == 0);
                        assert(s.subrange(q, q) =~= enc_list_rec(l));
                        assert(holds_at(s, q, enc_list_rec(l)));
                    }
                    lemma_holds_at_join(s, pos, enc_u32(n), enc_list_rec(l));
                },
            }
        },
    }
}

/// A decoded handshake step sits in the bytes as its own encoding.
proof fn lemma_dec_peer_msg_sound(s: Seq<u8>, pos: int)
    ensures
        match dec_peer_msg(s, pos) {
            Some((m, p)) => wf_peer_msg(m) && p == pos + enc_peer_msg(m).len() && holds_at(
                s,
                pos,
                enc_peer_msg(m),
            ),
            None => true,
        },
{
    if 0 <= pos && pos < s.len() {
        lemma_dec_blob_sound(s, pos + 1);
        assert(s.subrange(pos, pos + 1) =~= seq![s[pos]]);
        assert(holds_at(s, pos, seq![s[pos]]));
        match dec_peer_msg(s, pos) {
            None => {},
            Some((m, p)) => {
                match m {
                    PeerMessageV::Init => {},
                    PeerMessageV::Done => {},
                    PeerMessageV::Offer(b) => {
                        lemma_holds_at_join(s, pos, seq![0x4fu8], enc_blob(b));
                    },
                    PeerMessageV::Answer(b) => {
                        lemma_holds_at_join(s, pos, seq![0x41u8], enc_blob(b));
                    },
                    PeerMessageV::IceInit(b) => {
                        lemma_holds_at_join(s, pos, seq![0x69u8], enc_blob(b));
                    },
                    PeerMessageV::IceFollow(b) => {
                        lemma_holds_at_join(s, pos, seq![0x66u8], enc_blob(b));
                    },
                }
            },
        }
    }
}

/// A decoded handshake envelope sits in the bytes as its own
/// encoding.
proof fn lemma_dec_peer_info_sound(s: Seq<u8>, pos: int)
    ensures
        match dec_peer_info(s, pos) {
            Some((pi, p)) => wf_peer_info(pi) && p == pos + enc_peer_info(pi).len() && holds_at(
                s,
                pos,
                enc_peer_info(pi),
            ),
            None => true,
        },
{
    match dec_id(s, pos) {
        None => {},
        Some((ii, q1)) => {
            lemma_dec_hex_rec_sound(s, pos, 32);
            match dec_id(s, q1) {
                None => {},
                Some((fi, q2)) => {
                    lemma_dec_hex_rec_sound(s, q1, 32);
                    lemma_dec_peer_msg_sound(s, q2);
                    match dec_peer_msg(s, q2) {
                        None => {},
                        Some((m, p)) => {
                            lemma_holds_at_join(s, q1, enc_hex(fi), enc_peer_msg(m));
                            lemma_holds_at_join(
                                s,
                                pos,
                                enc_hex(ii),
                                enc_hex(fi) + enc_peer_msg(m),
                            );
                            assert(enc_peer_info(
                                PeerInfoV { id_init: ii, id_follow: fi, message: m },
                            ) =~= enc_hex(ii) + (enc_hex(fi) + enc_peer_msg(m)));
                        },
                    }
                },
            }
        },
    }
}

/// A decoded announce sits in the bytes as its own encoding.
proof fn lemma_dec_announce_sound(s: Seq<u8>, pos: int)
    ensures
        match dec_announce(s, pos) {
            Some((a, p)) => wf_announce(a) && p == pos + enc_announce(a).len() && holds_at(
                s,
                pos,
                enc_announce(a),
            ),
            None => true,
        },
{
    match dec_id(s, pos) {
        None => {},
        Some((c, q)) => {
            lemma_dec_hex_rec_sound(s, pos, 32);
            lemma_dec_node_info_sound(s, q);
            match dec_node_info(s, q) {
                None => {},
                Some((ni, p)) => {
                    lemma_holds_at_join(s, pos, enc_hex(c), enc_node_info(ni));
                },
            }
        },
    }
}

/// Every message has one wire form: bytes that decode are exactly the
/// encoding of what they decode to.
pub proof fn lemma_codec_unique_wire_form(s: Seq<u8>)
    ensures
        match spec_decode(s) {
            Some(m) => wf_msg(m) && s == spec_encode(m),
            None => true,
        },
{
    if 0 < s.len() {
        assert(s.subrange(0, 1) =~= seq![s[0]]);
        assert(holds_at(s, 0, seq![s[0]]));
        lemma_dec_hex_rec_sound(s, 1, 32);
        lemma_dec_announce_sound(s, 1);
        lemma_dec_list_sound(s, 1);
        lemma_dec_peer_info_sound(s, 1);
        match dec_msg(s, 0) {
            None => {},
            Some((m, p)) => {
                if p == s.len() {
                    match m {
                        WSSignalMessageV::ListIDsRequest => {
                            assert(s =~= spec_encode(m));
                        },
                        WSSignalMessageV::ClearNodes => {
                            assert(s =~= spec_encode(m));
                        },
                        WSSignalMessageV::Done => {
                            assert(s =~= spec_encode(m));
                        },
                        WSSignalMessageV::Challenge(c) => {
                            lemma_holds_at_join(s, 0, seq![0x43u8], enc_hex(c));
                            assert(s =~= seq![0x43u8] + enc_hex(c));
                        },
                        WSSignalMessageV::Announce(a) => {
                            lemma_holds_at_join(s, 0, seq![0x4eu8], enc_announce(a));
                            assert(s =~= seq![0x4eu8] + enc_announce(a));
                        },
                        WSSignalMessageV::ListIDsReply(l) => {
                            lemma_holds_at_join(s, 0, seq![0x52u8], enc_list(l));
                            assert(s =~= seq![0x52u8] + enc_list(l));
                        },
                        WSSignalMessageV::PeerSetup(pi) => {
                            lemma_holds_at_join(s, 0, seq![0x50u8], enc_peer_info(pi));
                            assert(s =~= seq![0x50u8] + enc_peer_info(pi));
                        },
                    }
                }
            },
        }
    }
}

// ---------------------------------------------------------------------
// The encoder.
// ---------------------------------------------------------------------
/// The hex digit of a value below 16.
fn hex_digit_x(d: u8) -> (r: u8)
    requires
        d < 16,
    ensures
        r == hex_digit(d),
{
    if d < 10 {
        0x30 + d
    } else {
        0x57 + d
    }
}

/// Appends one byte as two hex digits.
fn push_enc_byte(out: &mut Vec<u8>, b: u8)
    ensures
        final(out)@ == old(out)@ + enc_byte(b),
{
    out.push(hex_digit_x(b / 16));
    out.push(hex_digit_x(b % 16));
    assert(final(out)@ =~= old(out)@ + enc_byte(b));
}

/// Each byte string's hex form grows by one encoded byte at the back.
proof fn lemma_enc_hex_snoc(bs: Seq<u8>, b: u8)
    ensures
        enc_hex(bs.push(b)) == enc_hex(bs) + enc_byte(b),
    decreases bs.len(),
{
    if bs.len() == 0 {
        assert(bs.push(b).len() == 1);
        assert(bs.push(b)[0] == b);
        assert(bs.push(b).drop_first() =~= Seq::<u8>::empty());
        assert(enc_hex(Seq::<u8>::empty()) == Seq::<u8>::empty());
        assert(enc_hex(bs.push(b)) == enc_byte(b) + enc_hex(Seq::<u8>::empty()));
        assert(enc_hex(bs.push(b)) =~= enc_hex(bs) + enc_byte(b));
    } else {
        assert(bs.push(b)[0] == bs[0]);
        assert(bs.push(b).len() == bs.len() + 1);
        assert(bs.push(b).drop_first() =~= bs.drop_first().push(b));
        lemma_enc_hex_snoc(bs.drop_first(), b);
        assert(enc_hex(bs.push(b)) == enc_byte(bs[0]) + enc_hex(bs.drop_first().push(b)));
        assert(enc_hex(bs.push(b)) =~= enc_hex(bs) + enc_byte(b));
    }
}

/// Appends a node id as 64 hex digits.
fn push_id(out: &mut Vec<u8>, id: &U256)
    ensures
        final(out)@ == old(out)@ + enc_hex(id@),
{
    let mut i: usize = 0;
    while i < 32
        invariant
            i <= 32,
            out@ == old(out)@ + enc_hex(id@.subrange(0, i as int)),
        decreases 32 - i,
    {
        proof {
            lemma_enc_hex_snoc(id@.subrange(0, i as int), id@[i as int]);
            assert(id@.subrange(0, i as int).push(id@[i as int]) =~= id@.subrange(0, i + 1));
        }
        push_enc_byte(out, id.bytes[i]);
        i += 1;
    }
    assert(id@.subrange(0, 32) =~= id@);
}

/// Appends a 32-bit value as 8 hex digits.
fn push_u32(out: &mut Vec<u8>, n: u32)
    ensures
        final(out)@ == old(out)@ + enc_u32(n),
{
    push_enc_byte(out, (n >> 24) as u8);
    push_enc_byte(out, #[verifier::truncate] ((n >> 16) as u8));
    push_enc_byte(out, #[verifier::truncate] ((n >> 8) as u8));
    push_enc_byte(out, #[verifier::truncate] (n as u8));
    assert(final(out)@ =~= old(out)@ + enc_u32(n));
}

/// Appends a payload: its length, then its bytes.
fn push_blob(out: &mut Vec<u8>, b: &[u8])
    requires
        wf_blob(b@),
    ensures
        final(out)@ == old(out)@ + enc_blob(b@),
{
    push_u32(out, b.len() as u32);
    let mut i: usize = 0;
    while i < b.len()
        invariant
            i <= b.len(),
            b@.len() < 0x1_0000_0000,
            out@ == old(out)@ + enc_u32(b@.len() as u32) + b@.subrange(0, i as int),
        decreases b.len() - i,
    {
        out.push(b[i]);
        assert(b@.subrange(0, i as int).push(b@[i as int]) =~= b@.subrange(0, i + 1));
        i += 1;
    }
    assert(out@ =~= old(out)@ + enc_blob(b@));
}

/// Appends an optional payload behind its presence tag.
fn push_opt_blob(out: &mut Vec<u8>, o: &Option<Vec<u8>>)
    requires
        wf_opt_blob(match o {
            Some(b) => Some(b@),
            None => None,
        }),
    ensures
        final(out)@ == old(out)@ + enc_opt_blob(
            match o {
                Some(b) => Some(b@),
                None => None,
            },
        ),
{
    match o {
        None => {
            out.push(0x30);
            assert(final(out)@ =~= old(out)@ + enc_opt_blob(None));
        },
        Some(b) => {
            out.push(0x31);
            push_blob(out, b.as_slice());
            assert(final(out)@ =~= old(out)@ + enc_opt_blob(Some(b@)));
        },
    }
}

/// Appends a roster entry.
fn push_node_info(out: &mut Vec<u8>, ni: &NodeInfo)
    requires
        wf_node_info(ni@),
    ensures
        final(out)@ == old(out)@ + enc_node_info(ni@),
{
    push_id(out, &ni.public);
    push_opt_blob(out, &ni.name);
    assert(final(out)@ =~= old(out)@ + enc_node_info(ni@));
}

/// Each roster's element encoding grows by one entry at the back.
proof fn lemma_enc_list_rec_snoc(l: Seq<NodeInfoV>, ni: NodeInfoV)
    ensures
        enc_list_rec(l.push(ni)) == enc_list_rec(l) + enc_node_info(ni),
    decreases l.len(),
{
    if l.len() == 0 {
        assert(l.push(ni).len() == 1);
        assert(l.push(ni)[0] == ni);
        assert(l.push(ni).drop_first() =~= Seq::<NodeInfoV>::empty());
        assert(enc_list_rec(Seq::<NodeInfoV>::empty()) == Seq::<u8>::empty());
        assert(enc_list_rec(l.push(ni)) == enc_node_info(ni) + enc_list_rec(
            Seq::<NodeInfoV>::empty(),
        ));
        assert(enc_list_rec(l.push(ni)) =~= enc_list_rec(l) + enc_node_info(ni));
    } else {
        assert(l.push(ni)[0] == l[0]);
        assert(l.push(ni).len() == l.len() + 1);
        assert(l.push(ni).drop_first() =~= l.drop_first().push(ni));
        lemma_enc_list_rec_snoc(l.drop_first(), ni);
        assert(enc_list_rec(l.push(ni)) == enc_node_info(l[0]) + enc_list_rec(
            l.drop_first().push(ni),
        ));
        assert(enc_list_rec(l.push(ni)) =~= enc_list_rec(l) + enc_node_info(ni));
    }
}

/// Appends a roster: its length, then its entries.
fn push_list(out: &mut Vec<u8>, l: &Vec<NodeInfo>)
    requires
        l@.len() < 0x1_0000_0000,
        forall|i: int| 0 <= i < l@.len() ==> wf_node_info(#[trigger] l@[i]@),
    ensures
        final(out)@ == old(out)@ + enc_list(l@.map_values(|ni: NodeInfo| ni@)),
{
    let ghost lv = l@.map_values(|ni: NodeInfo| ni@);
    push_u32(out, l.len() as u32);
    let mut i: usize = 0;
    while i < l.len()
        invariant
            i <= l.len(),
            lv == l@.map_values(|ni: NodeInfo| ni@),
            lv.len() == l@.len() < 0x1_0000_0000,
            forall|j: int| 0 <= j < l@.len() ==> wf_node_info(#[trigger] l@[j]@),
            out@ == old(out)@ + enc_u32(lv.len() as u32) + enc_list_rec(lv.subrange(0, i as int)),
        decreases l.len() - i,
    {
        proof {
            lemma_enc_list_rec_snoc(lv.subrange(0, i as int), lv[i as int]);
            assert(lv.subrange(0, i as int).push(lv[i as int]) =~= lv.subrange(0, i + 1));
        }
        push_node_info(out, &l[i]);
        i += 1;
    }
    assert(lv.subrange(0, lv.len() as int) =~= lv);
    assert(out@ =~= old(out)@ + enc_list(lv));
}

/// Appends a handshake step behind its tag byte.
fn push_peer_msg(out: &mut Vec<u8>, m: &PeerMessage)
    requires
        wf_peer_msg(m@),
    ensures
        final(out)@ == old(out)@ + enc_peer_msg(m@),
{
    match m {
        PeerMessage::Init => {
            out.push(0x49);
            assert(final(out)@ =~= old(out)@ + enc_peer_msg(m@));
        },
        PeerMessage::Offer(b) => {
            out.push(0x4f);
            push_blob(out, b.as_slice());
            assert(final(out)@ =~= old(out)@ + enc_peer_msg(m@));
        },
        PeerMessage::Answer(b) => {
            out.push(0x41);
            push_blob(out, b.as_slice());
            assert(final(out)@ =~= old(out)@ + enc_peer_msg(m@));
        },
        PeerMessage::IceInit(b) => {
            out.push(0x69);
            push_blob(out, b.as_slice());
            assert(final(out)@ =~= old(out)@ + enc_peer_msg(m@));
        },
        PeerMessage::IceFollow(b) => {
            out.push(0x66);
            push_blob(out, b.as_slice());
            assert(final(out)@ =~= old(out)@ + enc_peer_msg(m@));
        },
        PeerMessage::Done => {
            out.push(0x44);
            assert(final(out)@ =~= old(out)@ + enc_peer_msg(m@));
        },
    }
}

/// Appends a handshake envelope.
fn push_peer_info(out: &mut Vec<u8>, pi: &PeerInfo)
    requires
        wf_peer_info(pi@),
    ensures
        final(out)@ == old(out)@ + enc_peer_info(pi@),
{
    push_id(out, &pi.id_init);
    push_id(out, &pi.id_follow);
    push_peer_msg(out, &pi.message);
    assert(final(out)@ =~= old(out)@ + enc_peer_info(pi@));
}

/// Encodes a signalling message into its wire form.
pub fn encode(msg: &WSSignalMessage) -> (r: Vec<u8>)
    requires
        wf_msg(msg@),
    ensures
        r@ == spec_encode(msg@),
{
    let mut out: Vec<u8> = Vec::new();
    match msg {
        WSSignalMessage::Challenge(c) => {
            out.push(0x43);
            push_id(&mut out, c);
        },
        WSSignalMessage::Announce(a) => {
            out.push(0x4e);
            push_id(&mut out, &a.challenge);
            push_node_info(&mut out, &a.node_info);
        },
        WSSignalMessage::ListIDsRequest => {
            out.push(0x4c);
        },
        WSSignalMessage::ListIDsReply(l) => {
            out.push(0x52);
            proof {
                let lv = l@.map_values(|ni: NodeInfo| ni@);
                assert forall|i: int| 0 <= i < l@.len() implies wf_node_info(#[trigger] l@[i]@) by {
                    assert(lv[i] == l@[i]@);
                    assert(wf_node_info(lv[i]));
                };
            }
            push_list(&mut out, l);
        },
        WSSignalMessage::ClearNodes => {
            out.push(0x58);
        },
        WSSignalMessage::PeerSetup(pi) => {
            out.push(0x50);
            push_peer_info(&mut out, pi);
        },
        WSSignalMessage::Done => {
            out.push(0x44);
        },
    }
    assert(out@ =~= spec_encode(msg@));
    out
}

// ---------------------------------------------------------------------
// The decoder.
// ---------------------------------------------------------------------
/// The value of a hex digit byte, if it is one.
fn hex_val_x(c: u8) -> (r: Option<u8>)
    ensures
        r is Some <==> hex_val(c) >= 0,
        r is Some ==> r->0 as int == hex_val(c),
{
    if 0x30 <= c && c <= 0x39 {
        Some(c - 0x30)
    } else if 0x61 <= c && c <= 0x66 {
        Some(c - 0x57)
    } else {
        None
    }
}

/// Reads one hex-encoded byte.
fn read_hex_byte(s: &Vec<u8>, pos: usize) -> (r: Option<(u8, usize)>)
    ensures
        match r {
            Some((b, p)) => dec_hex_byte(s@, pos as int) == Some((b, p as int)),
            None => dec_hex_byte(s@, pos as int) is None,
        },
{
    if s.len() < 2 || pos > s.len() - 2 {
        return None;
    }
    match (hex_val_x(s[pos]), hex_val_x(s[pos + 1])) {
        (Some(h), Some(l)) => Some((h * 16 + l, pos + 2)),
        _ => None,
    }
}

/// Reads a node id of 32 hex-encoded bytes.
fn read_id(s: &Vec<u8>, pos: usize) -> (r: Option<(U256, usize)>)
    ensures
        match r {
            Some((id, p)) => dec_id(s@, pos as int) == Some((id@, p as int)),
            None => dec_id(s@, pos as int) is None,
        },
{
    let mut bytes = [0u8; 32];
    let mut i: usize = 0;
    let mut cur: usize = pos;
    while i < 32
        invariant
            i <= 32,
            dec_hex_rec(s@, pos as int, 32) == (match dec_hex_rec(
                s@,
                cur as int,
                (32 - i) as nat,
            ) {
                Some((t, q)) => Some((bytes@.subrange(0, i as int) + t, q)),
                None => None::<(Seq<u8>, int)>,
            }),
        decreases 32 - i,
    {
        match read_hex_byte(s, cur) {
            None => {
                return None;
            },
            Some((b, p)) => {
                let ghost prefix = bytes@.subrange(0, i as int);
                bytes[i] = b;
                proof {
                    assert(bytes@.subrange(0, i + 1) =~= prefix.push(b));
                    assert forall|t: Seq<u8>| true implies prefix.push(b) + t =~= prefix + (
                    seq![b] + t) by {};
                }
                cur = p;
                i += 1;
            },
        }
    }
    assert(bytes@.subrange(0, 32) =~= bytes@);
    assert(bytes@.subrange(0, 32) + Seq::<u8>::empty() =~= bytes@);
    Some((U256::new(bytes), cur))
}

/// Reads an 8-hex-digit 32-bit length.
fn read_u32(s: &Vec<u8>, pos: usize) -> (r: Option<(u32, usize)>)
    ensures
        match r {
            Some((n, p)) => dec_u32(s@, pos as int) == Some((n, p as int)) && p <= s@.len(),
            None => dec_u32(s@, pos as int) is None,
        },
{
    let (b0, p1) = match read_hex_byte(s, pos) {
        Some(x) => x,
        None => {
            return None;
        },
    };
    let (b1, p2) = match read_hex_byte(s, p1) {
        Some(x) => x,
        None => {
            return None;
        },
    };
    let (b2, p3) = match read_hex_byte(s, p2) {
        Some(x) => x,
        None => {
            return None;
        },
    };
    let (b3, p4) = match read_hex_byte(s, p3) {
        Some(x) => x,
        None => {
            return None;
        },
    };
    Some(((b0 as u32) << 24 | (b1 as u32) << 16 | (b2 as u32) << 8 | (b3 as u32), p4))
}

/// Reads a length-prefixed payload.
fn read_blob(s: &Vec<u8>, pos: usize) -> (r: Option<(Vec<u8>, usize)>)
    ensures
        match r {
            Some((b, p)) => dec_blob(s@, pos as int) == Some((b@, p as int)),
            None => dec_blob(s@, pos as int) is None,
        },
{
    let (n, p) = match read_u32(s, pos) {
        Some(x) => x,
        None => {
            return None;
        },
    };
    let n = n as usize;
    let slen = s.len();
    if slen - p < n {
        return None;
    }
    let mut out: Vec<u8> = Vec::new();
    let mut i: usize = 0;
    while i < n
        invariant
            i <= n,
            p + n <= slen,
            slen == s@.len(),
            out@ == s@.subrange(p as int, p + i),
        decreases n - i,
    {
        out.push(s[p + i]);
        assert(out@ =~= s@.subrange(p as int, p + i + 1));
        i += 1;
    }
    Some((out, p + n))
}

/// Reads an optional payload behind its presence tag.
fn read_opt_blob(s: &Vec<u8>, pos: usize) -> (r: Option<(Option<Vec<u8>>, usize)>)
    ensures
        match r {
            Some((o, p)) => dec_opt_blob(s@, pos as int) == Some(
                (
                    match o {
                        Some(b) => Some(b@),
                        None => None::<Seq<u8>>,
                    },
                    p as int,
                ),
            ),
            None => dec_opt_blob(s@, pos as int) is None,
        },
{
    if pos >= s.len() {
        return None;
    }
    let tag = s[pos];
    if tag == 0x30 {
        Some((None, pos + 1))
    } else if tag == 0x31 {
        match read_blob(s, pos + 1) {
            Some((b, p)) => Some((Some(b), p)),
            None => None,
        }
    } else {
        None
    }
}

/// Reads a roster entry.
fn read_node_info(s: &Vec<u8>, pos: usize) -> (r: Option<(NodeInfo, usize)>)
    ensures
        match r {
            Some((ni, p)) => dec_node_info(s@, pos as int) == Some((ni@, p as int)),
            None => dec_node_info(s@, pos as int) is None,
        },
{
    let (public, p) = match read_id(s, pos) {
        Some(x) => x,
        None => {
            return None;
        },
    };
    let (name, q) = match read_opt_blob(s, p) {
        Some(x) => x,
        None => {
            return None;
        },
    };
    let ni = NodeInfo { public, name };
    proof {
        if let Some((spec_ni, sp)) = dec_node_info(s@, pos as int) {
            assert(ni@ =~= spec_ni);
        }
    }
    Some((ni, q))
}

/// Reads a roster: its length, then its entries.
fn read_list(s: &Vec<u8>, pos: usize) -> (r: Option<(Vec<NodeInfo>, usize)>)
    ensures
        match r {
            Some((l, p)) => dec_list(s@, pos as int) == Some(
                (l@.map_values(|ni: NodeInfo| ni@), p as int),
            ),
            None => dec_list(s@, pos as int) is None,
        },
{
    let (n, p0) = match read_u32(s, pos) {
        Some(x) => x,
        None => {
            return None;
        },
    };
    let ghost vf = |ni: NodeInfo| ni@;
    let mut acc: Vec<NodeInfo> = Vec::new();
    let mut i: u32 = 0;
    let mut cur: usize = p0;
    while i < n
        invariant
            i <= n,
            acc@.len() == i as nat,
            vf == (|ni: NodeInfo| ni@),
            dec_list_rec(s@, p0 as int, n as nat) == (match dec_list_rec(
                s@,
                cur as int,
                (n - i) as nat,
            ) {
                Some((t, q)) => Some((acc@.map_values(vf) + t, q)),
                None => None::<(Seq<NodeInfoV>, int)>,
            }),
        decreases n - i,
    {
        match read_node_info(s, cur) {
            None => {
                proof {
                    assert(dec_node_info(s@, cur as int) is None);
                    assert(dec_list_rec(s@, cur as int, (n - i) as nat) is None);
                    assert(dec_list_rec(s@, p0 as int, n as nat) is None);
                    assert(dec_list(s@, pos as int) is None);
                }
                return None;
            },
            Some((ni, p)) => {
                proof {
                    assert(acc@.push(ni).map_values(vf) =~= acc@.map_values(vf).push(ni@));
                    assert forall|t: Seq<NodeInfoV>| true implies acc@.map_values(vf).push(ni@) + t
                        =~= acc@.map_values(vf) + (seq![ni@] + t) by {};
                }
                acc.push(ni);
                cur = p;
                i += 1;
            },
        }
    }
    assert(acc@.map_values(vf) + Seq::<NodeInfoV>::empty() =~= acc@.map_values(vf));
    Some((acc, cur))
}

/// Reads a handshake step behind its tag byte.
fn read_peer_msg(s: &Vec<u8>, pos: usize) -> (r: Option<(PeerMessage, usize)>)
    ensures
        match r {
            Some((m, p)) => dec_peer_msg(s@, pos as int) == Some((m@, p as int)),
            None => dec_peer_msg(s@, pos as int) is None,
        },
{
    if pos >= s.len() {
        return None;
    }
    let tag = s[pos];
    if tag == 0x49 {
        Some((PeerMessage::Init, pos + 1))
    } else if tag == 0x44 {
        Some((PeerMessage::Done, pos + 1))
    } else if tag == 0x4f {
        match read_blob(s, pos + 1) {
            Some((b, p)) => Some((PeerMessage::Offer(b), p)),
            None => None,
        }
    } else if tag == 0x41 {
        match read_blob(s, pos + 1) {
            Some((b, p)) => Some((PeerMessage::Answer(b), p)),
            None => None,
        }
    } else if tag == 0x69 {
        match read_blob(s, pos + 1) {
            Some((b, p)) => Some((PeerMessage::IceInit(b), p)),
            None => None,
        }
    } else if tag == 0x66 {
        match read_blob(s, pos + 1) {
            Some((b, p)) => Some((PeerMessage::IceFollow(b), p)),
            None => None,
        }
    } else {
        None
    }
}

/// Reads a handshake envelope.
fn read_peer_info(s: &Vec<u8>, pos: usize) -> (r: Option<(PeerInfo, usize)>)
    ensures
        match r {
            Some((pi, p)) => dec_peer_info(s@, pos as int) == Some((pi@, p as int)),
            None => dec_peer_info(s@, pos as int) is None,
        },
{
    let (id_init, p) = match read_id(s, pos) {
        Some(x) => x,
        None => {
            return None;
        },
    };
    let (id_follow, q) = match read_id(s, p) {
        Some(x) => x,
        None => {
            return None;
        },
    };
    let (message, z) = match read_peer_msg(s, q) {
        Some(x) => x,
        None => {
            return None;
        },
    };
    let pi = PeerInfo { id_init, id_follow, message };
    proof {
        if let Some((spec_pi, sp)) = dec_peer_info(s@, pos as int) {
            assert(pi@ =~= spec_pi);
        }
    }
    Some((pi, z))
}

/// Reads an announce.
fn read_announce(s: &Vec<u8>, pos: usize) -> (r: Option<(MessageAnnounce, usize)>)
    ensures
        match r {
            Some((a, p)) => dec_announce(s@, pos as int) == Some((a@, p as int)),
            None => dec_announce(s@, pos as int) is None,
        },
{
    let (challenge, p) = match read_id(s, pos) {
        Some(x) => x,
        None => {
            return None;
        },
    };
    let (node_info, q) = match read_node_info(s, p) {
        Some(x) => x,
        None => {
            return None;
        },
    };
    let a = MessageAnnounce { challenge, node_info };
    proof {
        if let Some((spec_a, sp)) = dec_announce(s@, pos as int) {
            assert(a@ =~= spec_a);
        }
    }
    Some((a, q))
}

/// Reads a whole signalling message behind its tag byte.
fn read_msg(s: &Vec<u8>, pos: usize) -> (r: Option<(WSSignalMessage, usize)>)
    ensures
        match r {
            Some((m, p)) => dec_msg(s@, pos as int) == Some((m@, p as int)),
            None => dec_msg(s@, pos as int) is None,
        },
{
    if pos >= s.len() {
        return None;
    }
    let tag = s[pos];
    if tag == 0x4c {
        Some((WSSignalMessage::ListIDsRequest, pos + 1))
    } else if tag == 0x58 {
        Some((WSSignalMessage::ClearNodes, pos + 1))
    } else if tag == 0x44 {
        Some((WSSignalMessage::Done, pos + 1))
    } else if tag == 0x43 {
        match read_id(s, pos + 1) {
            Some((c, p)) => Some((WSSignalMessage::Challenge(c), p)),
            None => None,
        }
    } else if tag == 0x4e {
        match read_announce(s, pos + 1) {
            Some((a, p)) => Some((WSSignalMessage::Announce(a), p)),
            None => None,
        }
    } else if tag == 0x52 {
        match read_list(s, pos + 1) {
            Some((l, p)) => Some((WSSignalMessage::ListIDsReply(l), p)),
            None => None,
        }
    } else if tag == 0x50 {
        match read_peer_info(s, pos + 1) {
            Some((pi, p)) => Some((WSSignalMessage::PeerSetup(pi), p)),
            None => None,
        }
    } else {
        None
    }
}

/// Decodes a wire frame into the signalling message it holds, or
/// reports where the frame went wrong.  A frame decodes if and only
/// if it is exactly the wire form of one message.
pub fn decode(s: &Vec<u8>) -> (r: Result<WebSocketMessage, DecodeError>)
    ensures
        match r {
            Ok(m) => spec_decode(s@) == Some(m@),
            Err(_) => spec_decode(s@) is None,
        },
{
    match read_msg(s, 0) {
        None => Err(DecodeError { pos: 0 }),
        Some((m, p)) => {
            if p == s.len() {
                Ok(WebSocketMessage { msg: m })
            } else {
                Err(DecodeError { pos: p })
            }
        },
    }
}

impl WebSocketMessage {
    /// This frame's wire form.
    pub fn to_bytes(&self) -> (r: Vec<u8>)
        requires
            wf_msg(self@),
        ensures
            r@ == spec_encode(self@),
    {
        encode(&self.msg)
    }

    /// The frame a wire form holds, if it holds one.
    pub fn from_bytes(s: &Vec<u8>) -> (r: Result<WebSocketMessage, DecodeError>)
        ensures
            match r {
                Ok(m) => spec_decode(s@) == Some(m@),
                Err(_) => spec_decode(s@) is None,
            },
    {
        decode(s)
    }
}

// ---------------------------------------------------------------------
// The identity store's form: a bare roster entry, used for the node's
// own configuration.
// ---------------------------------------------------------------------
/// What stored configuration data means: the identity it holds,
/// provided the data is consumed exactly.
pub open spec fn spec_decode_config(s: Seq<u8>) -> Option<NodeInfoV> {
    match dec_node_info(s, 0) {
        None => None,
        Some((ni, p)) => if p == s.len() {
            Some(ni)
        } else {
            None
        },
    }
}

/// Encodes a node's own identity for its configuration store.
pub fn encode_config(c: &NodeConfig) -> (r: Vec<u8>)
    requires
        wf_node_info(c@),
    ensures
        r@ == enc_node_info(c@),
{
    let mut out: Vec<u8> = Vec::new();
    push_node_info(&mut out, &c.our_node);
    out
}

/// Decodes a node's own identity from its configuration store.
pub fn decode_config(s: &Vec<u8>) -> (r: Result<NodeConfig, DecodeError>)
    ensures
        match r {
            Ok(c) => spec_decode_config(s@) == Some(c@),
            Err(_) => spec_decode_config(s@) is None,
        },
{
    match read_node_info(s, 0) {
        None => Err(DecodeError { pos: 0 }),
        Some((ni, p)) => {
            if p == s.len() {
                Ok(NodeConfig { our_node: ni })
            } else {
                Err(DecodeError { pos: p })
            }
        },
    }
}

/// Whatever stored configuration data decodes to is a well-formed
/// identity: it can be stored again.
pub proof fn lemma_decode_config_wf(s: Seq<u8>)
    ensures
        match spec_decode_config(s) {
            Some(ni) => wf_node_info(ni),
            None => true,
        },
{
    lemma_dec_node_info_sound(s, 0);
}

// ---------------------------------------------------------------------
// The REST flavour's wire forms: a bare id, a registration, and a
// roster, reusing the same grammar as the signalling frames.
// ---------------------------------------------------------------------
/// What a bare-id reply means: the id it holds, provided the data is
/// consumed exactly.
pub open spec fn spec_decode_id(s: Seq<u8>) -> Option<Seq<u8>> {
    match dec_id(s, 0) {
        None => None,
        Some((v, p)) => if p == s.len() {
            Some(v)
        } else {
            None
        },
    }
}

/// Encodes a bare id.
pub fn encode_id(id: &U256) -> (r: Vec<u8>)
    ensures
        r@ == enc_hex(id@),
{
    let mut out: Vec<u8> = Vec::new();
    push_id(&mut out, id);
    out
}

/// Decodes a bare-id reply.
pub fn decode_id(s: &Vec<u8>) -> (r: Result<U256, DecodeError>)
    ensures
        match r {
            Ok(id) => spec_decode_id(s@) == Some(id@),
            Err(_) => spec_decode_id(s@) is None,
        },
{
    match read_id(s, 0) {
        None => Err(DecodeError { pos: 0 }),
        Some((id, p)) => {
            if p == s.len() {
                Ok(id)
            } else {
                Err(DecodeError { pos: p })
            }
        },
    }
}

/// Decoding inverts encoding for bare ids.
pub proof fn lemma_id_round_trip(x: Seq<u8>)
    requires
        wf_id(x),
    ensures
        spec_decode_id(enc_hex(x)) == Some(x),
{
    let e = enc_hex(x);
    assert(e.subrange(0, e.len() as int) =~= e);
    lemma_dec_hex_rec(e, 0, x);
}

/// What a registration means: the list id and the identity it holds,
/// provided the data is consumed exactly.
pub open spec fn spec_decode_registration(s: Seq<u8>) -> Option<(Seq<u8>, NodeInfoV)> {
    match dec_id(s, 0) {
        None => None,
        Some((v, p)) => match dec_node_info(s, p) {
            None => None,
            Some((ni, q)) => if q == s.len() {
                Some((v, ni))
            } else {
                None
            },
        },
    }
}

/// Encodes a registration: the list id, then the identity.
pub fn encode_registration(list_id: &U256, node: &NodeInfo) -> (r: Vec<u8>)
    requires
        wf_node_info(node@),
    ensures
        r@ == enc_hex(list_id@) + enc_node_info(node@),
{
    let mut out: Vec<u8> = Vec::new();
    push_id(&mut out, list_id);
    push_node_info(&mut out, node);
    out
}

/// Decodes a registration.
pub fn decode_registration(s: &Vec<u8>) -> (r: Result<(U256, NodeInfo), DecodeError>)
    ensures
        match r {
            Ok((id, ni)) => spec_decode_registration(s@) == Some((id@, ni@)),
            Err(_) => spec_decode_registration(s@) is None,
        },
{
    let (id, p) = match read_id(s, 0) {
        None => {
            return Err(DecodeError { pos: 0 });
        },
        Some(x) => x,
    };
    let (ni, q) = match read_node_info(s, p) {
        None => {
            return Err(DecodeError { pos: p });
        },
        Some(x) => x,
    };
    if q == s.len() {
        Ok((id, ni))
    } else {
        Err(DecodeError { pos: q })
    }
}

/// Decoding inverts encoding for registrations.
pub proof fn lemma_registration_round_trip(x: Seq<u8>, ni: NodeInfoV)
    requires
        wf_id(x),
        wf_node_info(ni),
    ensures
        spec_decode_registration(enc_hex(x) + enc_node_info(ni)) == Some((x, ni)),
{
    let e = enc_hex(x) + enc_node_info(ni);
    assert(e.subrange(0, e.len() as int) =~= e);
    assert(holds_at(e, 0, e));
    lemma_holds_at_split(e, 0, enc_hex(x), enc_node_info(ni));
    lemma_dec_hex_rec(e, 0, x);
    lemma_dec_node_info(e, enc_hex(x).len() as int, ni);
}

/// What a roster reply means: the identities it holds, provided the
/// data is consumed exactly.
pub open spec fn spec_decode_roster(s: Seq<u8>) -> Option<Seq<NodeInfoV>> {
    match dec_list(s, 0) {
        None => None,
        Some((l, p)) => if p == s.len() {
            Some(l)
        } else {
            None
        },
    }
}

/// Encodes a roster: its length, then its identities.
pub fn encode_roster(l: &Vec<NodeInfo>) -> (r: Vec<u8>)
    requires
        l@.len() < 0x1_0000_0000,
        forall|i: int| 0 <= i < l@.len() ==> wf_node_info(#[trigger] l@[i]@),
    ensures
        r@ == enc_list(l@.map_values(|ni: NodeInfo| ni@)),
{
    let mut out: Vec<u8> = Vec::new();
    push_list(&mut out, l);
    out
}

/// Decodes a roster reply.
pub fn decode_roster(s: &Vec<u8>) -> (r: Result<Vec<NodeInfo>, DecodeError>)
    ensures
        match r {
            Ok(l) => spec_decode_roster(s@) == Some(l@.map_values(|ni: NodeInfo| ni@)),
            Err(_) => spec_decode_roster(s@) is None,
        },
{
    match read_list(s, 0) {
        None => Err(DecodeError { pos: 0 }),
        Some((l, p)) => {
            if p == s.len() {
                Ok(l)
            } else {
                Err(DecodeError { pos: p })
            }
        },
    }
}

/// Decoding inverts encoding for rosters.
pub proof fn lemma_roster_round_trip(l: Seq<NodeInfoV>)
    requires
        l.len() < 0x1_0000_0000,
        forall|i: int| 0 <= i < l.len() ==> wf_node_info(#[trigger] l[i]),
    ensures
        spec_decode_roster(enc_list(l)) == Some(l),
{
    let e = enc_list(l);
    assert(e.subrange(0, e.len() as int) =~= e);
    lemma_dec_list(e, 0, l);
}

/// Decoding inverts encoding for stored configuration data too.
pub proof fn lemma_config_round_trip(ni: NodeInfoV)
    requires
        wf_node_info(ni),
    ensures
        spec_decode_config(enc_node_info(ni)) == Some(ni),
{
    let e = enc_node_info(ni);
    assert(e.subrange(0, e.len() as int) =~= e);
    lemma_dec_node_info(e, 0, ni);
}

} // verus!
