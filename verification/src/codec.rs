//! Little-endian fields in byte buffers.

use vstd::bytes::*;
use vstd::prelude::*;
use vstd::slice::*;

verus! {

/// The `u64` stored at `at`.
pub open spec fn le_u64(s: Seq<u8>, at: int) -> u64 {
    spec_u64_from_le_bytes(s.subrange(at, at + 8))
}

/// The `u32` stored at `at`.
pub open spec fn le_u32(s: Seq<u8>, at: int) -> u32 {
    spec_u32_from_le_bytes(s.subrange(at, at + 4))
}

/// The `u16` stored at `at`.
pub open spec fn le_u16(s: Seq<u8>, at: int) -> u16 {
    spec_u16_from_le_bytes(s.subrange(at, at + 2))
}

/// `n` zero bytes.
pub open spec fn zeros(n: nat) -> Seq<u8> {
    Seq::new(n, |i: int| 0u8)
}

/// `s` with `patch` in place of the bytes from `at` on.
pub open spec fn patched(s: Seq<u8>, at: int, patch: Seq<u8>) -> Seq<u8> {
    s.subrange(0, at) + patch + s.subrange(at + patch.len(), s.len() as int)
}

/// Reads the `u64` at `at`.
pub fn read_u64(bytes: &[u8], at: usize) -> (value: u64)
    requires
        at + 8 <= bytes.len(),
    ensures
        value == le_u64(bytes@, at as int),
{
    u64_from_le_bytes(slice_subrange(bytes, at, at + 8))
}

/// Reads the `u32` at `at`.
pub fn read_u32(bytes: &[u8], at: usize) -> (value: u32)
    requires
        at + 4 <= bytes.len(),
    ensures
        value == le_u32(bytes@, at as int),
{
    u32_from_le_bytes(slice_subrange(bytes, at, at + 4))
}

/// Reads the `u16` at `at`.
pub fn read_u16(bytes: &[u8], at: usize) -> (value: u16)
    requires
        at + 2 <= bytes.len(),
    ensures
        value == le_u16(bytes@, at as int),
{
    u16_from_le_bytes(slice_subrange(bytes, at, at + 2))
}

/// Appends `tail` to `buffer`.
pub fn push_bytes(buffer: &mut Vec<u8>, tail: &[u8])
    ensures
        final(buffer)@ == old(buffer)@ + tail@,
{
    buffer.extend_from_slice(tail);
    assert(buffer@ =~= old(buffer)@ + tail@);
}

/// Appends a `u64`.
pub fn push_u64(buffer: &mut Vec<u8>, value: u64)
    ensures
        final(buffer)@ == old(buffer)@ + spec_u64_to_le_bytes(value),
{
    let bytes = u64_to_le_bytes(value);
    push_bytes(buffer, bytes.as_slice());
}

/// Appends a `u32`.
pub fn push_u32(buffer: &mut Vec<u8>, value: u32)
    ensures
        final(buffer)@ == old(buffer)@ + spec_u32_to_le_bytes(value),
{
    let bytes = u32_to_le_bytes(value);
    push_bytes(buffer, bytes.as_slice());
}

/// Appends a `u16`.
pub fn push_u16(buffer: &mut Vec<u8>, value: u16)
    ensures
        final(buffer)@ == old(buffer)@ + spec_u16_to_le_bytes(value),
{
    let bytes = u16_to_le_bytes(value);
    push_bytes(buffer, bytes.as_slice());
}

/// Appends `n` zero bytes.
pub fn push_zeros(buffer: &mut Vec<u8>, n: usize)
    requires
        old(buffer)@.len() + n <= usize::MAX,
    ensures
        final(buffer)@ == old(buffer)@ + zeros(n as nat),
{
    let len: usize = buffer.len();
    buffer.resize(len + n, 0);
    assert(buffer@ =~= old(buffer)@ + zeros(n as nat));
}

/// Overwrites the bytes from `at` on with `patch`.
pub fn overwrite(buffer: &mut Vec<u8>, at: usize, patch: &[u8])
    requires
        at + patch.len() <= old(buffer).len(),
    ensures
        final(buffer)@ == patched(old(buffer)@, at as int, patch@),
{
    let ghost before = buffer@;
    let mut i: usize = 0;
    while i < patch.len()
        invariant
            0 <= i <= patch@.len(),
            at + patch.len() <= before.len() == buffer.len(),
            buffer@.len() == before.len(),
            forall|k: int|
                0 <= k < before.len() ==> #[trigger] buffer@[k] == (if at <= k < at + i {
                    patch@[k - at]
                } else {
                    before[k]
                }),
        decreases patch@.len() - i,
    {
        buffer[at + i] = patch[i];
        i += 1;
    }
    assert(buffer@ =~= patched(before, at as int, patch@));
}

/// A field reads back from its own bytes, whatever stands around them.
pub proof fn fields_read_back(before: Seq<u8>, after: Seq<u8>)
    ensures
        forall|x: u64|
            #![trigger spec_u64_to_le_bytes(x)]
            le_u64(before + spec_u64_to_le_bytes(x) + after, before.len() as int) == x
                && spec_u64_to_le_bytes(x).len() == 8,
        forall|x: u32|
            #![trigger spec_u32_to_le_bytes(x)]
            le_u32(before + spec_u32_to_le_bytes(x) + after, before.len() as int) == x
                && spec_u32_to_le_bytes(x).len() == 4,
        forall|x: u16|
            #![trigger spec_u16_to_le_bytes(x)]
            le_u16(before + spec_u16_to_le_bytes(x) + after, before.len() as int) == x
                && spec_u16_to_le_bytes(x).len() == 2,
{
    lemma_auto_spec_u64_to_from_le_bytes();
    lemma_auto_spec_u32_to_from_le_bytes();
    lemma_auto_spec_u16_to_from_le_bytes();
    let n = before.len() as int;
    assert forall|x: u64|
        #![trigger spec_u64_to_le_bytes(x)]
        le_u64(before + spec_u64_to_le_bytes(x) + after, n) == x && spec_u64_to_le_bytes(x).len()
            == 8 by {
        assert((before + spec_u64_to_le_bytes(x) + after).subrange(n, n + 8)
            =~= spec_u64_to_le_bytes(x));
    }
    assert forall|x: u32|
        #![trigger spec_u32_to_le_bytes(x)]
        le_u32(before + spec_u32_to_le_bytes(x) + after, n) == x && spec_u32_to_le_bytes(x).len()
            == 4 by {
        assert((before + spec_u32_to_le_bytes(x) + after).subrange(n, n + 4)
            =~= spec_u32_to_le_bytes(x));
    }
    assert forall|x: u16|
        #![trigger spec_u16_to_le_bytes(x)]
        le_u16(before + spec_u16_to_le_bytes(x) + after, n) == x && spec_u16_to_le_bytes(x).len()
            == 2 by {
        assert((before + spec_u16_to_le_bytes(x) + after).subrange(n, n + 2)
            =~= spec_u16_to_le_bytes(x));
    }
}

/// Overwriting keeps the length: the patch stands in its place, and every other byte is as it
/// was.
pub proof fn patch_stands_in_its_place(s: Seq<u8>, at: int, patch: Seq<u8>, i: int)
    requires
        0 <= at,
        at + patch.len() <= s.len(),
    ensures
        patched(s, at, patch).len() == s.len(),
        at <= i < at + patch.len() ==> patched(s, at, patch)[i] == patch[i - at],
        0 <= i < at || at + patch.len() <= i < s.len() ==> patched(s, at, patch)[i] == s[i],
{
}

} // verus!
