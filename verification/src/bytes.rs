//! Big-endian integers and small helpers on byte slices.

use vstd::prelude::*;

verus! {

/// The `len` low bytes of `value`, most significant byte first.
pub open spec fn be_bytes(value: nat, len: nat) -> Seq<u8>
    decreases len,
{
    if len == 0 {
        Seq::empty()
    } else {
        be_bytes(value / 256, (len - 1) as nat).push((value % 256) as u8)
    }
}

/// The number whose big-endian digits, base 256, are `bytes`.
pub open spec fn be_value(bytes: Seq<u8>) -> nat
    decreases bytes.len(),
{
    if bytes.len() == 0 {
        0
    } else {
        be_value(bytes.drop_last()) * 256 + bytes.last() as nat
    }
}

/// 256 to the power of `len`.
pub open spec fn pow256(len: nat) -> nat
    decreases len,
{
    if len == 0 {
        1
    } else {
        256 * pow256((len - 1) as nat)
    }
}

/// `n`, below two to the 64th, as the bits of an `i64`.
pub open spec fn signed64(n: nat) -> i64 {
    if n < 0x8000_0000_0000_0000 {
        n as i64
    } else {
        (n - 0x1_0000_0000_0000_0000) as i64
    }
}

/// The bits of `value` read as an unsigned number.
pub open spec fn unsigned64(value: i64) -> nat {
    if value >= 0 {
        value as nat
    } else {
        (value + 0x1_0000_0000_0000_0000) as nat
    }
}

/// The encoding has exactly the length that was asked for.
pub proof fn lemma_be_bytes_len(value: nat, len: nat)
    ensures
        be_bytes(value, len).len() == len,
    decreases len,
{
    if len > 0 {
        lemma_be_bytes_len(value / 256, (len - 1) as nat);
    }
}

/// A number read from `bytes` is below 256 to the power of their count.
pub proof fn lemma_be_value_bound(bytes: Seq<u8>)
    ensures
        be_value(bytes) < pow256(bytes.len()),
    decreases bytes.len(),
{
    if bytes.len() > 0 {
        lemma_be_value_bound(bytes.drop_last());
    }
}

/// Reading what was written gives the number back, if it fits.
pub proof fn be_round_trip(value: nat, len: nat)
    requires
        value < pow256(len),
    ensures
        be_value(be_bytes(value, len)) == value,
        be_bytes(value, len).len() == len,
    decreases len,
{
    lemma_be_bytes_len(value, len);
    if len > 0 {
        be_round_trip(value / 256, (len - 1) as nat);
        let bytes = be_bytes(value, len);
        assert(bytes.drop_last() =~= be_bytes(value / 256, (len - 1) as nat));
    }
}

/// Writing what was read gives the bytes back.
pub proof fn be_round_trip_back(bytes: Seq<u8>)
    ensures
        be_bytes(be_value(bytes), bytes.len()) == bytes,
    decreases bytes.len(),
{
    if bytes.len() > 0 {
        be_round_trip_back(bytes.drop_last());
        let value = be_value(bytes);
        assert(value / 256 == be_value(bytes.drop_last()));
        assert(value % 256 == bytes.last() as nat);
        assert(be_bytes(value, bytes.len()) =~= bytes);
    } else {
        assert(be_bytes(0, 0) =~= bytes);
    }
}

/// The powers that the fixed-width integers need.
pub proof fn lemma_pow256_values()
    ensures
        pow256(1) == 0x100,
        pow256(2) == 0x1_0000,
        pow256(4) == 0x1_0000_0000,
        pow256(8) == 0x1_0000_0000_0000_0000,
        pow256(16) == 0x1_0000_0000_0000_0000_0000_0000_0000_0000,
{
    reveal_with_fuel(pow256, 17);
}

/// A signed number comes back from its unsigned bits.
pub proof fn signed64_round_trip(value: i64)
    ensures
        signed64(unsigned64(value)) == value,
        unsigned64(value) < 0x1_0000_0000_0000_0000,
{
}

/// Appends `bytes` to `out`.
pub fn push_all(out: &mut Vec<u8>, bytes: &[u8])
    ensures
        final(out)@ == old(out)@ + bytes@,
{
    out.extend_from_slice(bytes);
    assert(out@ =~= old(out)@ + bytes@);
}

/// Appends the `len` low bytes of `value`, most significant first.
pub fn push_be(out: &mut Vec<u8>, value: u128, len: usize)
    ensures
        final(out)@ == old(out)@ + be_bytes(value as nat, len as nat),
    decreases len,
{
    if len > 0 {
        push_be(out, value / 256, len - 1);
        out.push((value % 256) as u8);
        assert(out@ =~= old(out)@ + be_bytes(value as nat, len as nat));
    } else {
        assert(out@ =~= old(out)@ + be_bytes(value as nat, len as nat));
    }
}

/// The big-endian number that `bytes` spell.
pub fn read_be(bytes: &[u8]) -> (value: u128)
    requires
        bytes@.len() <= 16,
    ensures
        value == be_value(bytes@),
{
    let mut value: u128 = 0;
    let mut i: usize = 0;
    while i < bytes.len()
        invariant
            i <= bytes@.len() <= 16,
            value == be_value(bytes@.take(i as int)),
        decreases bytes@.len() - i,
    {
        proof {
            lemma_be_value_bound(bytes@.take(i as int));
            lemma_pow256_monotonic(i as nat, 15);
            reveal_with_fuel(pow256, 17);
            assert(bytes@.take(i + 1).drop_last() =~= bytes@.take(i as int));
        }
        value = value * 256 + bytes[i] as u128;
        i = i + 1;
    }
    assert(bytes@.take(i as int) =~= bytes@);
    value
}

/// More bytes hold larger numbers.
pub proof fn lemma_pow256_monotonic(a: nat, b: nat)
    requires
        a <= b,
    ensures
        pow256(a) <= pow256(b),
    decreases b,
{
    if a < b {
        lemma_pow256_monotonic(a, (b - 1) as nat);
    }
}

/// The bits of `value` as an `i64`.
pub fn to_signed64(value: u64) -> (r: i64)
    ensures
        r == signed64(value as nat),
{
    if value < 0x8000_0000_0000_0000 {
        value as i64
    } else {
        (value as i128 - 0x1_0000_0000_0000_0000) as i64
    }
}

/// The bits of `value` as a `u64`.
pub fn to_unsigned64(value: i64) -> (r: u64)
    ensures
        r == unsigned64(value),
{
    if value >= 0 {
        value as u64
    } else {
        (value as i128 + 0x1_0000_0000_0000_0000) as u64
    }
}

/// Whether two byte strings are the same.
pub fn same_bytes(a: &[u8], b: &[u8]) -> (same: bool)
    ensures
        same == (a@ == b@),
{
    if a.len() != b.len() {
        return false;
    }
    let mut i: usize = 0;
    while i < a.len()
        invariant
            i <= a@.len(),
            a@.len() == b@.len(),
            forall|j: int| 0 <= j < i ==> a@[j] == b@[j],
        decreases a@.len() - i,
    {
        if a[i] != b[i] {
            return false;
        }
        i = i + 1;
    }
    assert(a@ =~= b@);
    true
}

/// Whether `prefix` starts `bytes`, as sequences.
pub open spec fn is_prefix<A>(prefix: Seq<A>, bytes: Seq<A>) -> bool {
    prefix.len() <= bytes.len() && bytes.take(prefix.len() as int) == prefix
}

/// The first byte counts most: each byte in front counts 256 times what it would
/// count one place further back.
pub proof fn the_first_byte_counts_most(first: u8, rest: Seq<u8>)
    ensures
        be_value(Seq::empty()) == 0,
        be_value(seq![first]) == first as nat,
        be_value(seq![first] + rest) == first as nat * pow256(rest.len()) + be_value(rest),
    decreases rest.len(),
{
    let all = seq![first] + rest;
    let none = Seq::<u8>::empty();
    assert(seq![first].drop_last() =~= none);
    assert(be_value(none) == 0);
    assert(be_value(seq![first]) == be_value(none) * 256 + first as nat);
    if rest.len() > 0 {
        the_first_byte_counts_most(first, rest.drop_last());
        assert(all.drop_last() =~= seq![first] + rest.drop_last());
        let unit = pow256((rest.len() - 1) as nat);
        let before = be_value(rest.drop_last());
        let last = rest.last() as nat;
        assert(all.last() == rest.last());
        assert(be_value(all) == be_value(all.drop_last()) * 256 + last);
        assert(be_value(rest) == before * 256 + last);
        assert(pow256(rest.len()) == 256 * unit);
        assert((first as nat * unit + before) * 256 + last == first as nat * (256 * unit) + (before
            * 256 + last)) by (nonlinear_arith);
    } else {
        assert(all =~= seq![first]);
        assert(rest =~= none);
        assert(pow256(0) == 1 && be_value(rest) == 0);
        assert(first as nat * pow256(0) == first as nat) by (nonlinear_arith)
            requires
                pow256(0) == 1,
        ;
    }
}

} // verus!
