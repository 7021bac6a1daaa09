//! VarInts: 32-bit numbers in groups of seven bits, lowest group first.

use vstd::prelude::*;

use crate::protocol::error::Error;

verus! {

/// Maximum encoded size of a 32-bit VarInt.
pub const MAX_VARINT_LEN: usize = 5;

/// `n`, below two to the 32nd, as the bits of an `i32`.
pub open spec fn signed32(n: nat) -> i32 {
    if n < 0x8000_0000 {
        n as i32
    } else {
        (n - 0x1_0000_0000) as i32
    }
}

/// The bits of `value` read as an unsigned number.
pub open spec fn unsigned32(value: i32) -> nat {
    if value >= 0 {
        value as nat
    } else {
        (value + 0x1_0000_0000) as nat
    }
}

/// Seven bits per byte, lowest first; the high bit says that more follow.
pub open spec fn groups(n: nat) -> Seq<u8>
    decreases n,
{
    if n < 128 {
        seq![n as u8]
    } else {
        seq![(128 + n % 128) as u8] + groups(n / 128)
    }
}

/// The encoding of `value`.
pub open spec fn varint_bytes(value: i32) -> Seq<u8> {
    groups(unsigned32(value))
}

/// How many bytes at the front of `bytes` say that more follow.
pub open spec fn continued(bytes: Seq<u8>) -> nat
    decreases bytes.len(),
{
    if bytes.len() > 0 && bytes[0] >= 128 {
        1 + continued(bytes.drop_first())
    } else {
        0
    }
}

/// The number spelled by the groups at the front of `bytes`.
pub open spec fn groups_value(bytes: Seq<u8>) -> nat
    decreases bytes.len(),
{
    if bytes.len() == 0 {
        0
    } else if bytes[0] < 128 {
        bytes[0] as nat
    } else {
        (bytes[0] - 128) as nat + 128 * groups_value(bytes.drop_first())
    }
}

/// What reading a VarInt at the front of `bytes` gives: the value and the
/// number of bytes it takes, or why there is none.
pub open spec fn varint_at(bytes: Seq<u8>) -> Result<(i32, nat), Error> {
    let more = continued(bytes);
    if more >= MAX_VARINT_LEN {
        Err(Error::VarIntTooLong)
    } else if more == bytes.len() {
        Err(Error::Incomplete)
    } else {
        Ok((signed32(groups_value(bytes) % 0x1_0000_0000), more + 1))
    }
}

/// What reading a VarInt at `pos` in `buf` gives. Past the end there is nothing yet.
pub open spec fn varint_in(buf: Seq<u8>, pos: int) -> Result<(i32, nat), Error> {
    if pos <= buf.len() {
        varint_at(buf.skip(pos))
    } else {
        Err(Error::Incomplete)
    }
}

/// The continuation count is a count of bytes.
pub proof fn lemma_continued_bound(bytes: Seq<u8>)
    ensures
        continued(bytes) <= bytes.len(),
        continued(bytes) < bytes.len() ==> bytes[continued(bytes) as int] < 128,
        forall|i: int| 0 <= i < continued(bytes) ==> bytes[i] >= 128,
    decreases bytes.len(),
{
    if bytes.len() > 0 && bytes[0] >= 128 {
        lemma_continued_bound(bytes.drop_first());
        assert forall|i: int| 0 <= i < continued(bytes) implies bytes[i] >= 128 by {
            if i > 0 {
                assert(bytes[i] == bytes.drop_first()[i - 1]);
            }
        }
    }
}

/// What was written is read back, whatever follows it.
pub proof fn lemma_groups_read_back(n: nat, rest: Seq<u8>)
    ensures
        continued(groups(n) + rest) + 1 == groups(n).len(),
        groups_value(groups(n) + rest) == n,
    decreases n,
{
    let bytes = groups(n) + rest;
    if n < 128 {
        assert(bytes[0] == n as u8);
    } else {
        lemma_groups_read_back(n / 128, rest);
        assert(bytes[0] == (128 + n % 128) as u8);
        assert(bytes.drop_first() =~= groups(n / 128) + rest);
    }
}

/// The first bytes of an encoding, without the last, all say that more follow.
pub proof fn lemma_groups_cut(n: nat, cut: int)
    requires
        0 <= cut < groups(n).len(),
    ensures
        continued(groups(n).take(cut)) == cut,
    decreases n,
{
    let bytes = groups(n).take(cut);
    if n >= 128 && cut > 0 {
        assert(groups(n).drop_first() =~= groups(n / 128));
        lemma_groups_cut(n / 128, cut - 1);
        assert(bytes.drop_first() =~= groups(n / 128).take(cut - 1));
        assert(bytes[0] == groups(n)[0]);
    }
}

/// How many bytes the encoding takes.
pub proof fn lemma_groups_len(n: nat)
    requires
        n < 0x1_0000_0000,
    ensures
        groups(n).len() == if n < 0x80 {
            1int
        } else if n < 0x4000 {
            2
        } else if n < 0x20_0000 {
            3
        } else if n < 0x1000_0000 {
            4
        } else {
            5
        },
{
    reveal_with_fuel(groups, 6);
}

/// Reading an encoded VarInt gives the value and its length, whatever follows.
pub proof fn varint_round_trip(value: i32, rest: Seq<u8>)
    ensures
        varint_at(varint_bytes(value) + rest) == Ok::<(i32, nat), Error>(
            (value, varint_bytes(value).len()),
        ),
        1 <= varint_bytes(value).len() <= MAX_VARINT_LEN,
{
    lemma_groups_read_back(unsigned32(value), rest);
    lemma_groups_len(unsigned32(value));
}

/// An encoded VarInt that is cut short is incomplete, never an error.
pub proof fn varint_cut_is_incomplete(value: i32, cut: int)
    requires
        0 <= cut < varint_bytes(value).len(),
    ensures
        varint_at(varint_bytes(value).take(cut)) == Err::<(i32, nat), Error>(Error::Incomplete),
{
    lemma_groups_cut(unsigned32(value), cut);
    lemma_groups_len(unsigned32(value));
}

/// No encoded VarInt is the beginning of another one.
pub proof fn varints_are_prefix_free(a: i32, b: i32, rest_a: Seq<u8>, rest_b: Seq<u8>)
    requires
        varint_bytes(a) + rest_a == varint_bytes(b) + rest_b,
    ensures
        a == b,
        rest_a == rest_b,
{
    varint_round_trip(a, rest_a);
    varint_round_trip(b, rest_b);
    assert(rest_a =~= (varint_bytes(a) + rest_a).skip(varint_bytes(a).len() as int));
    assert(rest_b =~= (varint_bytes(b) + rest_b).skip(varint_bytes(b).len() as int));
}

/// The bits of `value` as an `i32`.
pub fn to_signed32(value: u32) -> (r: i32)
    ensures
        r == signed32(value as nat),
{
    if value < 0x8000_0000 {
        value as i32
    } else {
        (value as i64 - 0x1_0000_0000) as i32
    }
}

/// The bits of `value` as a `u32`.
pub fn to_unsigned32(value: i32) -> (r: u32)
    ensures
        r == unsigned32(value),
{
    if value >= 0 {
        value as u32
    } else {
        (value as i64 + 0x1_0000_0000) as u32
    }
}

/// Reads a VarInt starting at `*pos`, advancing `pos` past it.
///
/// Returns [`Error::Incomplete`] when the buffer ends mid-VarInt, so a caller
/// streaming from a socket can simply read more and try again.
pub fn read_varint(buf: &[u8], pos: &mut usize) -> (r: Result<i32, Error>)
    ensures
        match varint_in(buf@, *old(pos) as int) {
            Ok((value, used)) => r == Ok::<i32, Error>(value) && *final(pos) == *old(pos) + used,
            Err(error) => r == Err::<i32, Error>(error) && *final(pos) == *old(pos),
        },
        *old(pos) <= buf@.len() ==> *final(pos) <= buf@.len(),
{
    if *pos > buf.len() {
        return Err(Error::Incomplete);
    }
    let ghost bytes = buf@.skip(*pos as int);
    let mut value: u64 = 0;
    let mut unit: u64 = 1;
    let mut cursor: usize = *pos;
    let mut seen: usize = 0;
    proof {
        assert(bytes.skip(0) =~= bytes);
    }
    while cursor < buf.len()
        invariant
            *pos == *old(pos),
            bytes == buf@.skip(*pos as int),
            cursor == *pos + seen,
            cursor <= buf@.len(),
            seen < 5,
            value < unit,
            seen == 0 ==> unit == 1,
            seen == 1 ==> unit == 128,
            seen == 2 ==> unit == 0x4000,
            seen == 3 ==> unit == 0x20_0000,
            seen == 4 ==> unit == 0x1000_0000,
            continued(bytes) == seen + continued(bytes.skip(seen as int)),
            groups_value(bytes) == value + unit * groups_value(bytes.skip(seen as int)),
        decreases buf@.len() - cursor,
    {
        let byte: u8 = buf[cursor];
        let ghost rest = bytes.skip(seen as int);
        proof {
            assert(rest[0] == byte);
            assert(rest.drop_first() =~= bytes.skip(seen + 1));
        }
        cursor = cursor + 1;
        if byte < 128 {
            assert(unit * (byte as u64) <= 0x1000_0000 * 127) by (nonlinear_arith)
                requires
                    unit <= 0x1000_0000,
                    byte < 128,
            ;
            value = value + unit * (byte as u64);
            *pos = cursor;
            proof {
                lemma_continued_bound(bytes);
            }
            return Ok(to_signed32((value % 0x1_0000_0000) as u32));
        }
        let low: u64 = (byte - 128) as u64;
        proof {
            let tail = groups_value(bytes.skip(seen + 1));
            assert(unit * (low + 128 * tail) == unit * low + (unit * 128) * tail) by (nonlinear_arith);
            assert(unit * low + unit <= unit * 128) by (nonlinear_arith)
                requires
                    low < 128,
                    unit >= 0,
            ;
        }
        value = value + unit * low;
        unit = unit * 128;
        seen = seen + 1;
        if seen >= MAX_VARINT_LEN {
            return Err(Error::VarIntTooLong);
        }
    }
    proof {
        lemma_continued_bound(bytes);
    }
    Err(Error::Incomplete)
}

/// Appends the VarInt encoding of `value` to `out`.
pub fn write_varint(out: &mut Vec<u8>, value: i32)
    ensures
        final(out)@ == old(out)@ + varint_bytes(value),
{
    let mut left: u32 = to_unsigned32(value);
    while left >= 128
        invariant
            old(out)@ + varint_bytes(value) == out@ + groups(left as nat),
        decreases left,
    {
        let ghost before = out@;
        out.push((128 + left % 128) as u8);
        proof {
            let n = left as nat;
            assert(out@ + groups(n / 128) =~= before + (seq![(128 + n % 128) as u8] + groups(n / 128)));
        }
        left = left / 128;
    }
    let ghost before = out@;
    out.push(left as u8);
    assert(out@ =~= before + groups(left as nat));
}

/// Number of bytes [`write_varint`] would produce.
pub fn varint_len(value: i32) -> (len: usize)
    ensures
        len == varint_bytes(value).len(),
        1 <= len <= MAX_VARINT_LEN,
{
    proof {
        lemma_groups_len(unsigned32(value));
    }
    let value: u32 = to_unsigned32(value);
    if value < 0x80 {
        1
    } else if value < 0x4000 {
        2
    } else if value < 0x20_0000 {
        3
    } else if value < 0x1000_0000 {
        4
    } else {
        5
    }
}

/// The length prefix that stands for `len`: its low 32 bits.
pub fn length_prefix(len: usize) -> (prefix: i32)
    ensures
        prefix == signed32(len as nat % 0x1_0000_0000),
{
    to_signed32((len as u64 % 0x1_0000_0000) as u32)
}

/// Numbers are written seven bits to a byte, the lowest first, with 128 added to
/// every byte but the last; a negative number is written as the one that has the
/// same 32 bits.
pub proof fn varints_have_seven_bits_to_a_byte(value: i32)
    ensures
        ({
            let n = if value < 0 {
                value + 0x1_0000_0000
            } else {
                value as int
            };
            &&& n < 0x80 ==> varint_bytes(value) == seq![n as u8]
            &&& 0x80 <= n < 0x4000 ==> varint_bytes(value) == seq![
                (128 + n % 128) as u8,
                (n / 128) as u8,
            ]
            &&& 0x4000 <= n < 0x20_0000 ==> varint_bytes(value) == seq![
                (128 + n % 128) as u8,
                (128 + n / 128 % 128) as u8,
                (n / 128 / 128) as u8,
            ]
            &&& 0x20_0000 <= n < 0x1000_0000 ==> varint_bytes(value) == seq![
                (128 + n % 128) as u8,
                (128 + n / 128 % 128) as u8,
                (128 + n / 128 / 128 % 128) as u8,
                (n / 128 / 128 / 128) as u8,
            ]
            &&& n >= 0x1000_0000 ==> varint_bytes(value) == seq![
                (128 + n % 128) as u8,
                (128 + n / 128 % 128) as u8,
                (128 + n / 128 / 128 % 128) as u8,
                (128 + n / 128 / 128 / 128 % 128) as u8,
                (n / 128 / 128 / 128 / 128) as u8,
            ]
        }),
{
    let n = unsigned32(value);
    let n1 = n / 128;
    let n2 = n1 / 128;
    let n3 = n2 / 128;
    let n4 = n3 / 128;
    if n < 0x80 {
        assert(groups(n) =~= seq![n as u8]);
    } else if n < 0x4000 {
        assert(groups(n1) =~= seq![n1 as u8]);
        assert(groups(n) =~= seq![(128 + n % 128) as u8, n1 as u8]);
    } else if n < 0x20_0000 {
        assert(groups(n2) =~= seq![n2 as u8]);
        assert(groups(n1) =~= seq![(128 + n1 % 128) as u8, n2 as u8]);
        assert(groups(n) =~= seq![(128 + n % 128) as u8, (128 + n1 % 128) as u8, n2 as u8]);
    } else if n < 0x1000_0000 {
        assert(groups(n3) =~= seq![n3 as u8]);
        assert(groups(n2) =~= seq![(128 + n2 % 128) as u8, n3 as u8]);
        assert(groups(n1) =~= seq![(128 + n1 % 128) as u8, (128 + n2 % 128) as u8, n3 as u8]);
        assert(groups(n) =~= seq![
            (128 + n % 128) as u8,
            (128 + n1 % 128) as u8,
            (128 + n2 % 128) as u8,
            n3 as u8,
        ]);
    } else {
        assert(groups(n4) =~= seq![n4 as u8]);
        assert(groups(n3) =~= seq![(128 + n3 % 128) as u8, n4 as u8]);
        assert(groups(n2) =~= seq![(128 + n2 % 128) as u8, (128 + n3 % 128) as u8, n4 as u8]);
        assert(groups(n1) =~= seq![
            (128 + n1 % 128) as u8,
            (128 + n2 % 128) as u8,
            (128 + n3 % 128) as u8,
            n4 as u8,
        ]);
        assert(groups(n) =~= seq![
            (128 + n % 128) as u8,
            (128 + n1 % 128) as u8,
            (128 + n2 % 128) as u8,
            (128 + n3 % 128) as u8,
            n4 as u8,
        ]);
    }
}

/// A number ends with the first byte below 128. It is read from at most five
/// bytes: five that all say that more follow are refused, fewer ask for more,
/// and of what five bytes can spell the low 32 bits count.
pub proof fn varints_end_within_five_bytes(bytes: Seq<u8>, k: int)
    ensures
        bytes.len() >= 5 && (forall|i: int| 0 <= i < 5 ==> #[trigger] bytes[i] >= 128) ==> varint_at(
            bytes,
        ) == Err::<(i32, nat), Error>(Error::VarIntTooLong),
        bytes.len() < 5 && (forall|i: int| 0 <= i < bytes.len() ==> #[trigger] bytes[i] >= 128)
            ==> varint_at(bytes) == Err::<(i32, nat), Error>(Error::Incomplete),
        0 <= k < 5 && k < bytes.len() && bytes[k] < 128 && (forall|i: int|
            0 <= i < k ==> #[trigger] bytes[i] >= 128) ==> varint_at(bytes) is Ok && varint_at(
            bytes,
        )->Ok_0.1 == k + 1,
        bytes.len() >= 5 && bytes[4] < 128 && (forall|i: int|
            0 <= i < 4 ==> #[trigger] bytes[i] >= 128) ==> varint_at(bytes)->Ok_0.0 as int
            % 0x1_0000_0000 == ((bytes[0] - 128) + 128 * (bytes[1] - 128) + 0x4000 * (bytes[2]
            - 128) + 0x20_0000 * (bytes[3] - 128) + 0x1000_0000 * bytes[4]) % 0x1_0000_0000,
{
    lemma_continued_bound(bytes);
    let more = continued(bytes);
    if bytes.len() >= 5 && bytes[4] < 128 && (forall|i: int|
        0 <= i < 4 ==> #[trigger] bytes[i] >= 128) {
        assert(more == 4) by {
            if more < 4 {
                assert(bytes[more as int] >= 128);
            }
            if more > 4 {
                assert(bytes[4] >= 128);
            }
        }
        let b1 = bytes.drop_first();
        let b2 = b1.drop_first();
        let b3 = b2.drop_first();
        let b4 = b3.drop_first();
        assert(b1[0] == bytes[1] && b2[0] == bytes[2] && b3[0] == bytes[3] && b4[0] == bytes[4]);
        assert(bytes[0] >= 128 && bytes[1] >= 128 && bytes[2] >= 128 && bytes[3] >= 128);
        assert(groups_value(b4) == bytes[4]);
        assert(groups_value(b3) == (bytes[3] - 128) + 128 * groups_value(b4));
        assert(groups_value(b2) == (bytes[2] - 128) + 128 * groups_value(b3));
        assert(groups_value(b1) == (bytes[1] - 128) + 128 * groups_value(b2));
        assert(groups_value(bytes) == (bytes[0] - 128) + 128 * groups_value(b1));
    }
}

} // verus!
