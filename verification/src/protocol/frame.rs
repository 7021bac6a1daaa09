//! Length-prefixed packets.

use vstd::prelude::*;
use vstd::slice::slice_subrange;

use crate::bytes::push_all;
use crate::protocol::error::Error;
use crate::protocol::varint::{
    continued, groups_value, length_prefix, lemma_continued_bound, read_varint, signed32, varint_at,
    varint_bytes, varint_cut_is_incomplete, varint_round_trip, write_varint,
};
use crate::protocol::wire::Reader;

verus! {

/// Hard cap on a single pre-login packet.
///
/// The protocol allows 2 MiB packets, but nothing sent before login comes close
/// to this. Anything larger from an unauthenticated peer is memory pressure we
/// have no reason to accept.
pub const MAX_PACKET_SIZE: usize = 32 * 1024;

/// One decoded length-prefixed packet, borrowed from the read buffer.
#[derive(Debug, Clone, PartialEq, Eq)]
pub struct Frame<'a> {
    /// Packet id (the first VarInt of the body).
    pub id: i32,
    /// Everything after the packet id.
    pub body: &'a [u8],
    /// Bytes this frame occupies in the source buffer, including the length
    /// prefix. Use this to know how much to drain, and what to replay verbatim.
    pub total_len: usize,
}

/// A packet as a value: its id, its body and the bytes it takes.
pub ghost struct Packet {
    pub id: i32,
    pub body: Seq<u8>,
    pub total_len: nat,
}

/// What decoding the packet at the front of `buf` gives under a size cap. A
/// payload that is all there and ends before its id does is no packet, and no
/// further bytes can make it one.
pub open spec fn packet_at(buf: Seq<u8>, max_size: nat) -> Result<Packet, Error> {
    match varint_at(buf) {
        Err(error) => Err(error),
        Ok((length, header)) => if length < 0 {
            Err(Error::NegativeLength(length))
        } else if length > max_size {
            Err(Error::PacketTooLarge { max: max_size as usize, actual: length as usize })
        } else if buf.len() < header + length {
            Err(Error::Incomplete)
        } else {
            let payload = buf.subrange(header as int, header + length);
            match varint_at(payload) {
                Err(Error::Incomplete) => Err(Error::NotMinecraft),
                Err(error) => Err(error),
                Ok((id, used)) => Ok(
                    Packet { id, body: payload.skip(used as int), total_len: header + length as nat },
                ),
            }
        },
    }
}

/// `len(id + body) | id | body`.
pub open spec fn packet_bytes(id: i32, body: Seq<u8>) -> Seq<u8> {
    let payload = varint_bytes(id) + body;
    varint_bytes(signed32(payload.len() % 0x1_0000_0000)) + payload
}

impl<'a> Frame<'a> {
    /// The packet as a value.
    pub open spec fn packet(&self) -> Packet {
        Packet { id: self.id, body: self.body@, total_len: self.total_len as nat }
    }

    /// A reader at the start of the body.
    pub fn reader(&self) -> (r: Reader<'a>)
        ensures
            r.wf(),
            r.buffer() == self.body@,
            r.unread() == self.body@,
            r.at() == 0,
    {
        Reader::new(self.body)
    }

    /// Whether this is the packet that should come here.
    pub fn expect_id(&self, expected: i32) -> (r: Result<(), Error>)
        ensures
            r == if self.id == expected {
                Ok::<(), Error>(())
            } else {
                Err(Error::UnexpectedPacket { expected, actual: self.id })
            },
    {
        if self.id == expected {
            Ok(())
        } else {
            Err(Error::UnexpectedPacket { expected, actual: self.id })
        }
    }
}

/// Decodes one uncompressed packet from the front of `buf`.
///
/// Pre-login traffic is never compressed or encrypted, which is exactly the
/// window in which the gateway inspects anything.
pub fn decode_frame(buf: &[u8]) -> (r: Result<Frame<'_>, Error>)
    ensures
        match packet_at(buf@, MAX_PACKET_SIZE as nat) {
            Ok(packet) => r is Ok && r->Ok_0.packet() == packet,
            Err(error) => r is Err && r->Err_0 == error,
        },
{
    decode_frame_limited(buf, MAX_PACKET_SIZE)
}

/// Like [`decode_frame`] but with a caller-chosen size cap.
///
/// Status responses read *from a backend* can legitimately be far larger than
/// anything a client may send (a favicon and a long player sample add up) and
/// that direction is trusted, so it gets its own limit.
pub fn decode_frame_limited(buf: &[u8], max_size: usize) -> (r: Result<Frame<'_>, Error>)
    ensures
        match packet_at(buf@, max_size as nat) {
            Ok(packet) => r is Ok && r->Ok_0.packet() == packet,
            Err(error) => r is Err && r->Err_0 == error,
        },
{
    proof {
        assert(buf@.skip(0) =~= buf@);
        lemma_continued_bound(buf@);
    }
    let mut pos: usize = 0;
    let length: i32 = match read_varint(buf, &mut pos) {
        Ok(length) => length,
        Err(error) => return Err(error),
    };
    if length < 0 {
        return Err(Error::NegativeLength(length));
    }
    let length: usize = length as usize;
    if length > max_size {
        return Err(Error::PacketTooLarge { max: max_size, actual: length });
    }
    let total_len: usize = pos + length;
    if buf.len() < total_len {
        return Err(Error::Incomplete);
    }
    let payload = slice_subrange(buf, pos, total_len);
    proof {
        assert(payload@.skip(0) =~= payload@);
        lemma_continued_bound(payload@);
    }
    let mut id_pos: usize = 0;
    let id: i32 = match read_varint(payload, &mut id_pos) {
        Ok(id) => id,
        // The payload is complete: its id will never be.
        Err(Error::Incomplete) => return Err(Error::NotMinecraft),
        Err(error) => return Err(error),
    };
    let body = slice_subrange(payload, id_pos, payload.len());
    assert(body@ =~= payload@.skip(id_pos as int));
    Ok(Frame { id, body, total_len })
}

/// Encodes `body` as a packet with the given id: `len(id + body) | id | body`.
pub fn encode_packet(id: i32, body: &[u8]) -> (packet: Vec<u8>)
    ensures
        packet@ == packet_bytes(id, body@),
{
    let mut payload: Vec<u8> = Vec::new();
    write_varint(&mut payload, id);
    push_all(&mut payload, body);
    assert(payload@ =~= varint_bytes(id) + body@);
    let mut out: Vec<u8> = Vec::new();
    write_varint(&mut out, length_prefix(payload.len()));
    push_all(&mut out, payload.as_slice());
    assert(out@ =~= packet_bytes(id, body@));
    out
}

/// An encoded packet is decoded again to its id and body, and whatever follows
/// it stays for the next packet.
pub proof fn packet_round_trip(id: i32, body: Seq<u8>, rest: Seq<u8>, max_size: nat)
    requires
        varint_bytes(id).len() + body.len() <= max_size,
        varint_bytes(id).len() + body.len() <= i32::MAX,
    ensures
        packet_at(packet_bytes(id, body) + rest, max_size) == Ok::<Packet, Error>(
            Packet { id, body, total_len: packet_bytes(id, body).len() },
        ),
        (packet_bytes(id, body) + rest).skip(packet_bytes(id, body).len() as int) == rest,
{
    let payload = varint_bytes(id) + body;
    let length = payload.len() as i32;
    let buf = packet_bytes(id, body) + rest;
    let header = varint_bytes(length).len();
    varint_round_trip(length, payload + rest);
    assert(buf =~= varint_bytes(length) + (payload + rest));
    assert(buf.subrange(header as int, header + length) =~= payload);
    varint_round_trip(id, body);
    assert(payload.skip(varint_bytes(id).len() as int) =~= body);
    assert(buf.skip(packet_bytes(id, body).len() as int) =~= rest);
}

/// Every encoded packet that is cut short is incomplete, never an error.
pub proof fn partial_packet_is_incomplete(id: i32, body: Seq<u8>, cut: int, max_size: nat)
    requires
        varint_bytes(id).len() + body.len() <= max_size,
        varint_bytes(id).len() + body.len() <= i32::MAX,
        0 <= cut < packet_bytes(id, body).len(),
    ensures
        packet_at(packet_bytes(id, body).take(cut), max_size) == Err::<Packet, Error>(
            Error::Incomplete,
        ),
{
    let payload = varint_bytes(id) + body;
    let length = payload.len() as i32;
    let header = varint_bytes(length).len();
    let buf = packet_bytes(id, body).take(cut);
    if cut < header {
        varint_cut_is_incomplete(length, cut);
        assert(buf =~= varint_bytes(length).take(cut));
    } else {
        varint_round_trip(length, payload.take(cut - header));
        assert(buf =~= varint_bytes(length) + payload.take(cut - header));
    }
}

/// A VarInt that has been decided stays decided when more bytes arrive.
pub proof fn lemma_varint_stable(bytes: Seq<u8>, more: Seq<u8>)
    requires
        varint_at(bytes) != Err::<(i32, nat), Error>(Error::Incomplete),
    ensures
        varint_at(bytes + more) == varint_at(bytes),
{
    lemma_continued_bound(bytes);
    lemma_continued_stable(bytes, more);
}

proof fn lemma_continued_stable(bytes: Seq<u8>, more: Seq<u8>)
    ensures
        continued(bytes) < bytes.len() ==> {
            &&& continued(bytes + more) == continued(bytes)
            &&& groups_value(bytes + more) == groups_value(bytes)
        },
        continued(bytes + more) >= continued(bytes),
    decreases bytes.len(),
{
    if bytes.len() > 0 {
        assert((bytes + more)[0] == bytes[0]);
        if bytes[0] >= 128 {
            lemma_continued_stable(bytes.drop_first(), more);
            assert((bytes + more).drop_first() =~= bytes.drop_first() + more);
        }
    }
}

/// Once a buffer is decided, as a packet or as an error, bytes that arrive
/// later change nothing: only an incomplete buffer is worth another look.
pub proof fn decided_packet_is_stable(buf: Seq<u8>, more: Seq<u8>, max_size: nat)
    requires
        packet_at(buf, max_size) != Err::<Packet, Error>(Error::Incomplete),
    ensures
        packet_at(buf + more, max_size) == packet_at(buf, max_size),
{
    lemma_varint_stable(buf, more);
    if let Ok((length, header)) = varint_at(buf) {
        if length >= 0 && length <= max_size && buf.len() >= header + length {
            assert((buf + more).subrange(header as int, header + length) =~= buf.subrange(
                header as int,
                header + length,
            ));
        }
    }
}

/// Bytes that continue an incomplete length: it ends with the next byte.
proof fn lemma_length_ends(buf: Seq<u8>)
    requires
        varint_at(buf) == Err::<(i32, nat), Error>(Error::Incomplete),
    ensures
        varint_at(buf.push(1)) is Ok,
        varint_at(buf.push(1))->Ok_0.1 == buf.len() + 1,
{
    lemma_continued_bound(buf);
    lemma_all_continue(buf);
    lemma_continued_bound(buf.push(1));
}

proof fn lemma_all_continue(bytes: Seq<u8>)
    requires
        continued(bytes) == bytes.len(),
    ensures
        continued(bytes.push(1)) == bytes.len(),
    decreases bytes.len(),
{
    if bytes.len() > 0 {
        assert(bytes.push(1).drop_first() =~= bytes.drop_first().push(1));
        assert(bytes.push(1)[0] == bytes[0]);
        if bytes[0] >= 128 {
            lemma_all_continue(bytes.drop_first());
        }
    }
}

proof fn lemma_payload_decides(buf: Seq<u8>, more: Seq<u8>, max_size: nat)
    requires
        packet_at(buf, max_size) == Err::<Packet, Error>(Error::Incomplete),
        varint_at(buf) is Ok,
        more.len() >= varint_at(buf)->Ok_0.0,
    ensures
        packet_at(buf + more, max_size) != Err::<Packet, Error>(Error::Incomplete),
{
    lemma_varint_stable(buf, more);
    lemma_continued_bound(buf);
}

/// A buffer is incomplete only where more bytes can decide it: some continuation
/// is a packet, or an error that is not about missing bytes.
pub proof fn incomplete_buffers_can_be_completed(buf: Seq<u8>, max_size: nat)
    requires
        packet_at(buf, max_size) == Err::<Packet, Error>(Error::Incomplete),
    ensures
        exists|more: Seq<u8>|
            #[trigger] packet_at(buf + more, max_size) != Err::<Packet, Error>(Error::Incomplete),
{
    if varint_at(buf) is Ok {
        let more = Seq::new(varint_at(buf)->Ok_0.0 as nat, |i: int| 0u8);
        lemma_payload_decides(buf, more, max_size);
    } else {
        lemma_length_ends(buf);
        let longer = buf.push(1);
        assert(buf + seq![1u8] =~= longer);
        if packet_at(longer, max_size) == Err::<Packet, Error>(Error::Incomplete) {
            let rest = Seq::new(varint_at(longer)->Ok_0.0 as nat, |i: int| 0u8);
            lemma_payload_decides(longer, rest, max_size);
            assert(buf + (seq![1u8] + rest) =~= longer + rest);
        }
    }
}

/// A buffer that holds all of a payload is decided: nothing that follows a
/// complete frame is waited for.
pub proof fn complete_frames_are_decided(buf: Seq<u8>, max_size: nat)
    requires
        varint_at(buf) is Ok,
        buf.len() >= varint_at(buf)->Ok_0.1 + varint_at(buf)->Ok_0.0,
    ensures
        packet_at(buf, max_size) != Err::<Packet, Error>(Error::Incomplete),
{
}

/// A length below zero, a length above the cap and a length of nothing are
/// refused, each for its reason; with fewer bytes than announced the packet is
/// not all there yet.
pub proof fn lengths_are_checked(length: i32, rest: Seq<u8>, max_size: nat)
    ensures
        length < 0 ==> packet_at(varint_bytes(length) + rest, max_size) == Err::<Packet, Error>(
            Error::NegativeLength(length),
        ),
        length > max_size && length >= 0 ==> packet_at(varint_bytes(length) + rest, max_size)
            == Err::<Packet, Error>(
            Error::PacketTooLarge { max: max_size as usize, actual: length as usize },
        ),
        0 <= length <= max_size && rest.len() < length ==> packet_at(
            varint_bytes(length) + rest,
            max_size,
        ) == Err::<Packet, Error>(Error::Incomplete),
        length == 0 ==> packet_at(varint_bytes(length) + rest, max_size) == Err::<Packet, Error>(
            Error::NotMinecraft,
        ),
        packet_at(Seq::empty(), max_size) == Err::<Packet, Error>(Error::Incomplete),
        MAX_PACKET_SIZE == 32_768,
{
    varint_round_trip(length, rest);
    let buf = varint_bytes(length) + rest;
    let header = varint_bytes(length).len() as int;
    if length == 0 {
        assert(buf.subrange(header, header) =~= Seq::<u8>::empty());
    }
}

/// A packet is its length, its id and its body: the length counts the bytes of
/// the id and the body and no others.
pub proof fn packets_announce_their_length(id: i32, body: Seq<u8>, rest: Seq<u8>)
    requires
        varint_bytes(id).len() + body.len() <= i32::MAX,
    ensures
        ({
            let payload = varint_bytes(id) + body;
            &&& packet_bytes(id, body) == varint_bytes(payload.len() as i32) + payload
            &&& varint_at(packet_bytes(id, body) + rest) is Ok
            &&& varint_at(packet_bytes(id, body) + rest)->Ok_0.0 == payload.len()
        }),
{
    let payload = varint_bytes(id) + body;
    varint_round_trip(payload.len() as i32, payload + rest);
    assert(packet_bytes(id, body) + rest =~= varint_bytes(payload.len() as i32) + (payload
        + rest));
}

} // verus!
