//! Reading fields from a packet body and writing them into one.

use vstd::prelude::*;
use vstd::slice::slice_subrange;
use vstd::string::StrSliceExecFns;
use vstd::utf8::{decode_utf8, encode_utf8, encode_utf8_decode_utf8, encode_utf8_valid_utf8, valid_utf8};

use crate::bytes::{
    be_bytes, be_value, lemma_be_value_bound, lemma_pow256_values, push_all, push_be, read_be,
    signed64, to_signed64, to_unsigned64, unsigned64,
};
use crate::protocol::error::Error;
use crate::protocol::varint::{
    length_prefix, lemma_continued_bound, read_varint, signed32, varint_at, varint_bytes,
    varint_round_trip, write_varint,
};
use crate::text::from_utf8;

verus! {

/// What reading a string of at most `max_chars` characters at the front of
/// `bytes` gives, and how many bytes that consumes. A string is a VarInt byte
/// count and then that many bytes of UTF-8.
pub open spec fn string_at(bytes: Seq<u8>, max_chars: nat) -> (Result<Seq<char>, Error>, nat) {
    match varint_at(bytes) {
        Err(error) => (Err(error), 0),
        Ok((len, used)) => {
            let field = bytes.skip(used as int).take(len as int);
            if len < 0 {
                (Err(Error::NegativeLength(len)), used)
            } else if len > max_chars * 4 {
                (
                    Err(Error::StringTooLong { max: (max_chars * 4) as usize, actual: len as usize }),
                    used,
                )
            } else if bytes.len() - used < len {
                (Err(Error::Incomplete), used)
            } else if !valid_utf8(field) {
                (Err(Error::InvalidUtf8), used + len as nat)
            } else if decode_utf8(field).len() > max_chars {
                (
                    Err(
                        Error::StringTooLong {
                            max: max_chars as usize,
                            actual: decode_utf8(field).len() as usize,
                        },
                    ),
                    used + len as nat,
                )
            } else {
                (Ok(decode_utf8(field)), used + len as nat)
            }
        },
    }
}

/// The encoding of a string field.
pub open spec fn string_bytes(text: Seq<char>) -> Seq<u8> {
    let bytes = encode_utf8(text);
    varint_bytes(signed32(bytes.len() % 0x1_0000_0000)) + bytes
}

/// Characters never take more bytes than four each, nor fewer than one each.
pub proof fn lemma_utf8_len(text: Seq<char>)
    ensures
        text.len() <= encode_utf8(text).len() <= 4 * text.len(),
    decreases text.len(),
{
    if text.len() > 0 {
        lemma_utf8_len(text.drop_first());
    }
}

/// A string that fits its field is read back, whatever follows it.
pub proof fn string_round_trip(text: Seq<char>, max_chars: nat, rest: Seq<u8>)
    requires
        text.len() <= max_chars,
        encode_utf8(text).len() <= i32::MAX,
    ensures
        string_at(string_bytes(text) + rest, max_chars) == (
            Ok::<Seq<char>, Error>(text),
            string_bytes(text).len(),
        ),
{
    let bytes = encode_utf8(text);
    let len = bytes.len() as i32;
    let all = string_bytes(text) + rest;
    lemma_utf8_len(text);
    encode_utf8_valid_utf8(text);
    encode_utf8_decode_utf8(text);
    varint_round_trip(len, bytes + rest);
    assert(all =~= varint_bytes(len) + (bytes + rest));
    let used = varint_bytes(len).len();
    assert(all.skip(used as int).take(len as int) =~= bytes);
}

/// Reader over a byte slice that knows how to stop when it runs out of data.
///
/// Every read returns [`Error::Incomplete`] instead of panicking, which lets the
/// session loop call the parser again after reading more from the socket.
#[derive(Debug, Clone)]
pub struct Reader<'a> {
    buf: &'a [u8],
    pos: usize,
}

impl<'a> Reader<'a> {
    /// All bytes of the body.
    pub closed spec fn buffer(&self) -> Seq<u8> {
        self.buf@
    }

    /// How many bytes have been read.
    pub closed spec fn at(&self) -> nat {
        self.pos as nat
    }

    /// The position lies within the body.
    pub open spec fn wf(&self) -> bool {
        self.at() <= self.buffer().len()
    }

    /// The bytes that are still to be read.
    pub open spec fn unread(&self) -> Seq<u8> {
        self.buffer().skip(self.at() as int)
    }

    /// `self` after reading `used` more bytes of the same body.
    pub open spec fn moved(&self, after: &Reader<'a>, used: nat) -> bool {
        &&& after.wf()
        &&& after.buffer() == self.buffer()
        &&& after.at() == self.at() + used
        &&& after.unread() == self.unread().skip(used as int)
    }

    /// A reader at the start of `buf`.
    pub fn new(buf: &'a [u8]) -> (r: Self)
        ensures
            r.wf(),
            r.buffer() == buf@,
            r.at() == 0,
            r.unread() == buf@,
    {
        assert(buf@.skip(0) =~= buf@);
        Self { buf, pos: 0 }
    }

    /// How many bytes have been read.
    pub fn position(&self) -> (at: usize)
        ensures
            at == self.at(),
    {
        self.pos
    }

    /// How many bytes are left.
    pub fn remaining(&self) -> (n: usize)
        requires
            self.wf(),
        ensures
            n == self.unread().len(),
    {
        self.buf.len() - self.pos
    }

    /// Whether all bytes have been read.
    pub fn is_empty(&self) -> (yes: bool)
        requires
            self.wf(),
        ensures
            yes == (self.unread().len() == 0),
    {
        self.remaining() == 0
    }

    /// The bytes that are left.
    pub fn rest(&self) -> (rest: &'a [u8])
        requires
            self.wf(),
        ensures
            rest@ == self.unread(),
    {
        let rest = slice_subrange(self.buf, self.pos, self.buf.len());
        assert(rest@ =~= self.unread());
        rest
    }

    /// The next `n` bytes.
    pub fn take(&mut self, n: usize) -> (r: Result<&'a [u8], Error>)
        requires
            old(self).wf(),
        ensures
            if n <= old(self).unread().len() {
                &&& r is Ok
                &&& r->Ok_0@ == old(self).unread().take(n as int)
                &&& old(self).moved(final(self), n as nat)
            } else {
                r == Err::<&'a [u8], Error>(Error::Incomplete) && *final(self) == *old(self)
            },
    {
        if self.remaining() < n {
            return Err(Error::Incomplete);
        }
        assert(self.pos + n <= self.buf.len());
        let out = slice_subrange(self.buf, self.pos, self.pos + n);
        self.pos = self.pos + n;
        proof {
            assert(out@ =~= old(self).unread().take(n as int));
            assert(self.unread() =~= old(self).unread().skip(n as int));
        }
        Ok(out)
    }

    /// One byte.
    pub fn u8(&mut self) -> (r: Result<u8, Error>)
        requires
            old(self).wf(),
        ensures
            if old(self).unread().len() >= 1 {
                r == Ok::<u8, Error>(old(self).unread()[0]) && old(self).moved(final(self), 1)
            } else {
                r == Err::<u8, Error>(Error::Incomplete) && *final(self) == *old(self)
            },
    {
        match self.take(1) {
            Ok(b) => Ok(b[0]),
            Err(error) => Err(error),
        }
    }

    /// A big-endian 16-bit number.
    pub fn u16(&mut self) -> (r: Result<u16, Error>)
        requires
            old(self).wf(),
        ensures
            if old(self).unread().len() >= 2 {
                &&& r == Ok::<u16, Error>(be_value(old(self).unread().take(2)) as u16)
                &&& be_value(old(self).unread().take(2)) <= u16::MAX
                &&& old(self).moved(final(self), 2)
            } else {
                r == Err::<u16, Error>(Error::Incomplete) && *final(self) == *old(self)
            },
    {
        match self.take(2) {
            Ok(b) => {
                proof {
                    lemma_be_value_bound(b@);
                    lemma_pow256_values();
                }
                Ok(read_be(b) as u16)
            },
            Err(error) => Err(error),
        }
    }

    /// A big-endian 64-bit number in two's complement.
    pub fn i64(&mut self) -> (r: Result<i64, Error>)
        requires
            old(self).wf(),
        ensures
            if old(self).unread().len() >= 8 {
                &&& r == Ok::<i64, Error>(signed64(be_value(old(self).unread().take(8))))
                &&& old(self).moved(final(self), 8)
            } else {
                r == Err::<i64, Error>(Error::Incomplete) && *final(self) == *old(self)
            },
    {
        match self.take(8) {
            Ok(b) => {
                proof {
                    lemma_be_value_bound(b@);
                    lemma_pow256_values();
                }
                Ok(to_signed64(read_be(b) as u64))
            },
            Err(error) => Err(error),
        }
    }

    /// A big-endian 128-bit number.
    pub fn uuid(&mut self) -> (r: Result<u128, Error>)
        requires
            old(self).wf(),
        ensures
            if old(self).unread().len() >= 16 {
                &&& r == Ok::<u128, Error>(be_value(old(self).unread().take(16)) as u128)
                &&& be_value(old(self).unread().take(16)) <= u128::MAX
                &&& old(self).moved(final(self), 16)
            } else {
                r == Err::<u128, Error>(Error::Incomplete) && *final(self) == *old(self)
            },
    {
        match self.take(16) {
            Ok(b) => {
                proof {
                    lemma_be_value_bound(b@);
                    lemma_pow256_values();
                }
                Ok(read_be(b))
            },
            Err(error) => Err(error),
        }
    }

    /// A VarInt.
    pub fn varint(&mut self) -> (r: Result<i32, Error>)
        requires
            old(self).wf(),
        ensures
            match varint_at(old(self).unread()) {
                Ok((value, used)) => r == Ok::<i32, Error>(value) && old(self).moved(
                    final(self),
                    used,
                ),
                Err(error) => r == Err::<i32, Error>(error) && *final(self) == *old(self),
            },
    {
        let mut pos: usize = self.pos;
        let r = read_varint(self.buf, &mut pos);
        self.pos = pos;
        proof {
            lemma_continued_bound(old(self).unread());
            assert(self.unread() =~= old(self).unread().skip(self.at() - old(self).at()));
        }
        r
    }

    /// Length-prefixed UTF-8 string. `max_chars` follows the protocol's own
    /// limits; the byte budget is 4x that plus the length prefix.
    pub fn string(&mut self, max_chars: usize) -> (r: Result<String, Error>)
        requires
            old(self).wf(),
            max_chars * 4 <= usize::MAX,
        ensures
            match string_at(old(self).unread(), max_chars as nat).0 {
                Ok(text) => r is Ok && r->Ok_0@ == text,
                Err(error) => r == Err::<String, Error>(error),
            },
            old(self).moved(final(self), string_at(old(self).unread(), max_chars as nat).1),
    {
        proof {
            assert(old(self).unread().skip(0) =~= old(self).unread());
        }
        let len: i32 = match self.varint() {
            Ok(len) => len,
            Err(error) => return Err(error),
        };
        let ghost used = self.at() - old(self).at();
        if len < 0 {
            return Err(Error::NegativeLength(len));
        }
        let len: usize = len as usize;
        if len > max_chars * 4 {
            return Err(Error::StringTooLong { max: max_chars * 4, actual: len });
        }
        let bytes = match self.take(len) {
            Ok(bytes) => bytes,
            Err(error) => return Err(error),
        };
        proof {
            assert(self.unread() =~= old(self).unread().skip(used + len));
        }
        match from_utf8(bytes) {
            None => Err(Error::InvalidUtf8),
            Some(s) => {
                let count: usize = s.unicode_len();
                if count > max_chars {
                    return Err(Error::StringTooLong { max: max_chars, actual: count });
                }
                Ok(s.to_owned())
            },
        }
    }
}

/// Growable packet body writer.
#[derive(Debug)]
pub struct Writer {
    buf: Vec<u8>,
}

impl View for Writer {
    type V = Seq<u8>;

    closed spec fn view(&self) -> Seq<u8> {
        self.buf@
    }
}

impl Default for Writer {
    fn default() -> (w: Self)
        ensures
            w@ == Seq::<u8>::empty(),
    {
        Writer { buf: Vec::new() }
    }
}

impl Writer {
    /// An empty body.
    pub fn new() -> (w: Self)
        ensures
            w@ == Seq::<u8>::empty(),
    {
        Writer { buf: Vec::new() }
    }

    /// Appends a VarInt.
    pub fn varint(&mut self, value: i32) -> (w: &mut Self)
        ensures
            w@ == old(self)@ + varint_bytes(value),
            *final(self) == *final(w),
    {
        write_varint(&mut self.buf, value);
        self
    }

    /// Appends one byte.
    pub fn u8(&mut self, value: u8) -> (w: &mut Self)
        ensures
            w@ == old(self)@.push(value),
            *final(self) == *final(w),
    {
        self.buf.push(value);
        self
    }

    /// Appends a big-endian 16-bit number.
    pub fn u16(&mut self, value: u16) -> (w: &mut Self)
        ensures
            w@ == old(self)@ + be_bytes(value as nat, 2),
            *final(self) == *final(w),
    {
        push_be(&mut self.buf, value as u128, 2);
        self
    }

    /// Appends a big-endian 64-bit number in two's complement.
    pub fn i64(&mut self, value: i64) -> (w: &mut Self)
        ensures
            w@ == old(self)@ + be_bytes(unsigned64(value), 8),
            *final(self) == *final(w),
    {
        push_be(&mut self.buf, to_unsigned64(value) as u128, 8);
        self
    }

    /// Appends bytes as they are.
    pub fn bytes(&mut self, value: &[u8]) -> (w: &mut Self)
        ensures
            w@ == old(self)@ + value@,
            *final(self) == *final(w),
    {
        push_all(&mut self.buf, value);
        self
    }

    /// Appends a length-prefixed string.
    pub fn string(&mut self, value: &str) -> (w: &mut Self)
        ensures
            w@ == old(self)@ + string_bytes(value@),
            *final(self) == *final(w),
    {
        let bytes = value.as_bytes();
        write_varint(&mut self.buf, length_prefix(bytes.len()));
        push_all(&mut self.buf, bytes);
        assert(self@ =~= old(self)@ + string_bytes(value@));
        self
    }

    /// The body that was written.
    pub fn into_inner(self) -> (bytes: Vec<u8>)
        ensures
            bytes@ == self@,
    {
        self.buf
    }

    /// The body so far.
    pub fn as_slice(&self) -> (bytes: &[u8])
        ensures
            bytes@ == self@,
    {
        self.buf.as_slice()
    }
}

/// A string is counted in bytes on the wire and in characters by its field: one
/// character too many, a length below zero, a length that no such string has,
/// bytes that are no text and missing bytes are told apart.
pub proof fn strings_are_held_to_their_field(
    text: Seq<char>,
    len: i32,
    bytes: Seq<u8>,
    max_chars: nat,
    rest: Seq<u8>,
)
    requires
        encode_utf8(text).len() <= i32::MAX,
        bytes.len() <= i32::MAX,
    ensures
        text.len() > max_chars && encode_utf8(text).len() <= 4 * max_chars ==> string_at(
            string_bytes(text) + rest,
            max_chars,
        ).0 == Err::<Seq<char>, Error>(
            Error::StringTooLong { max: max_chars as usize, actual: text.len() as usize },
        ),
        len < 0 ==> string_at(varint_bytes(len) + rest, max_chars).0 == Err::<Seq<char>, Error>(
            Error::NegativeLength(len),
        ),
        len >= 0 && len > 4 * max_chars ==> string_at(varint_bytes(len) + rest, max_chars).0
            == Err::<Seq<char>, Error>(
            Error::StringTooLong { max: (max_chars * 4) as usize, actual: len as usize },
        ),
        0 <= len <= 4 * max_chars && rest.len() < len ==> string_at(
            varint_bytes(len) + rest,
            max_chars,
        ).0 == Err::<Seq<char>, Error>(Error::Incomplete),
        bytes.len() <= 4 * max_chars && !valid_utf8(bytes) ==> string_at(
            varint_bytes(bytes.len() as i32) + bytes + rest,
            max_chars,
        ).0 == Err::<Seq<char>, Error>(Error::InvalidUtf8),
{
    let spelled = encode_utf8(text);
    let n = spelled.len() as i32;
    encode_utf8_valid_utf8(text);
    encode_utf8_decode_utf8(text);
    varint_round_trip(n, spelled + rest);
    let all = string_bytes(text) + rest;
    assert(all =~= varint_bytes(n) + (spelled + rest));
    let used = varint_bytes(n).len();
    assert(all.skip(used as int).take(n as int) =~= spelled);
    varint_round_trip(len, rest);
    let m = bytes.len() as i32;
    varint_round_trip(m, bytes + rest);
    let other = varint_bytes(m) + bytes + rest;
    assert(other =~= varint_bytes(m) + (bytes + rest));
    assert(other.skip(varint_bytes(m).len() as int).take(m as int) =~= bytes);
}

} // verus!
