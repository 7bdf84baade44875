//! WebSocket frame masking (RFC 6455, section 5.3) and mask generation.

use vstd::prelude::*;

verus! {

/// The payload after XOR-ing byte `i` with mask byte `(i + offset) % 4`.
pub open spec fn masked(data: Seq<u8>, mask: Seq<u8>, offset: int) -> Seq<u8> {
    Seq::new(data.len(), |i: int| data[i] ^ mask[(i + offset) % 4])
}

/// The four bytes of `x`, least significant first.
pub open spec fn le_bytes(x: u32) -> Seq<u8> {
    seq![(x & 0xff) as u8, ((x >> 8) & 0xff) as u8, ((x >> 16) & 0xff) as u8, (x >> 24) as u8]
}

/// The four bytes of `x`, most significant first.
pub open spec fn be_bytes(x: u32) -> Seq<u8> {
    seq![(x >> 24) as u8, ((x >> 16) & 0xff) as u8, ((x >> 8) & 0xff) as u8, (x & 0xff) as u8]
}

/// Apply a WebSocket mask to `data` in place, starting at mask byte 0.
pub fn apply_mask(data: &mut [u8], mask: [u8; 4])
    ensures
        final(data)@ == masked(old(data)@, mask@, 0),
{
    apply_mask_offset(data, mask, 0);
}

/// Apply a WebSocket mask to `data` in place, where `data[0]` lines up
/// with mask byte `offset % 4` (for payloads processed in pieces).
pub fn apply_mask_offset(data: &mut [u8], mask: [u8; 4], offset: usize)
    ensures
        final(data)@ == masked(old(data)@, mask@, offset as int),
{
    let len = data.len();
    let start = offset % 4;
    let mut i: usize = 0;
    while i < len
        invariant
            len == data@.len(),
            len == old(data)@.len(),
            start == offset % 4,
            i <= len,
            forall|j: int| 0 <= j < i ==> data@[j] == old(data)@[j] ^ mask@[(j + offset) % 4],
            forall|j: int| i <= j < len ==> data@[j] == old(data)@[j],
        decreases len - i,
    {
        let k = (i % 4 + start) % 4;
        proof {
            assert(k == (i + offset) % 4) by (nonlinear_arith)
                requires
                    k == (i % 4 + offset % 4) % 4,
            ;
        }
        let v = data[i] ^ mask[k];
        data[i] = v;
        i += 1;
    }
    proof {
        assert(data@ =~= masked(old(data)@, mask@, offset as int));
    }
}

/// Masking is its own inverse: applying the same mask at the same offset
/// twice gives back the original payload.
pub proof fn lemma_mask_twice_restores(data: Seq<u8>, mask: Seq<u8>, offset: int)
    requires
        mask.len() == 4,
        offset >= 0,
    ensures
        masked(masked(data, mask, offset), mask, offset) == data,
{
    let once = masked(data, mask, offset);
    assert forall|i: int| 0 <= i < data.len() implies #[trigger] masked(once, mask, offset)[i]
        == data[i] by {
        let x = data[i];
        let m = mask[(i + offset) % 4];
        assert((x ^ m) ^ m == x) by (bit_vector);
    }
    assert(masked(once, mask, offset) =~= data);
}

/// Masking a payload in two pieces, the second starting at the mask
/// position where the first ended, gives the same bytes as masking it
/// whole.
pub proof fn lemma_mask_in_pieces(a: Seq<u8>, b: Seq<u8>, mask: Seq<u8>, offset: int)
    requires
        mask.len() == 4,
        offset >= 0,
    ensures
        masked(a + b, mask, offset) == masked(a, mask, offset) + masked(b, mask, offset + a.len()),
{
    let whole = masked(a + b, mask, offset);
    let parts = masked(a, mask, offset) + masked(b, mask, offset + a.len());
    assert forall|i: int| 0 <= i < whole.len() implies whole[i] == parts[i] by {
        if i >= a.len() {
            let j = i - a.len();
            assert((a + b)[i] == b[j]);
            assert((j + (offset + a.len())) % 4 == (i + offset) % 4);
        }
    }
    assert(whole =~= parts);
}

/// Calls `fastrand::u32(..)`: a pseudo-random `u32` from the thread-local
/// generator. Any value may come back, so nothing is stated of it.
#[verifier::external_body]
fn random_u32() -> u32 {
    fastrand::u32(..)
}

/// Calls `u32::to_ne_bytes`: the bytes of `x` in the machine's byte order,
/// which is little-endian or big-endian.
#[verifier::external_body]
fn u32_to_ne_bytes(x: u32) -> (bytes: [u8; 4])
    ensures
        bytes@ == le_bytes(x) || bytes@ == be_bytes(x),
{
    x.to_ne_bytes()
}

/// Generate a random mask for WebSocket client frames, from a fast,
/// non-cryptographic generator: the bytes of a random `u32` in the
/// machine's byte order. Any four bytes may come back.
pub fn generate_mask() -> (mask: [u8; 4]) {
    let x = random_u32();
    u32_to_ne_bytes(x)
}

/// Alias for `generate_mask`, kept for backwards compatibility.
pub fn generate_mask_fast() -> (mask: [u8; 4]) {
    generate_mask()
}

} // verus!
