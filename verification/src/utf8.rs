//! UTF-8 validation for WebSocket text payloads, including the streaming
//! check used when a message is split across fragments in the middle of a
//! multi-byte character.

use vstd::prelude::*;
use vstd::utf8::*;

verus! {

/// `t` is a non-empty proper prefix of the encoding of a single Unicode
/// scalar value: some continuation of it forms a well-formed scalar whose
/// encoding is longer than `t`.
pub open spec fn is_partial_scalar(t: Seq<u8>) -> bool {
    &&& 0 < t.len()
    &&& exists|rest: Seq<u8>|
        #[trigger] valid_first_scalar(t + rest) && t.len() < length_of_first_scalar(t + rest)
}

/// The bytes that the streaming check leaves pending at the end of its
/// input: a proper prefix of a scalar encoding, which later bytes may
/// complete.
pub open spec fn is_pending_tail(t: Seq<u8>) -> bool {
    is_partial_scalar(t)
}

/// `s` splits at `k` into a valid UTF-8 prefix and either nothing or a
/// pending tail that later bytes may complete.
pub open spec fn is_streaming_split(s: Seq<u8>, k: int) -> bool {
    &&& 0 <= k <= s.len()
    &&& valid_utf8(s.subrange(0, k))
    &&& (k == s.len() || is_pending_tail(s.subrange(k, s.len() as int)))
}

/// Calls `simdutf8::basic::from_utf8`, which accepts exactly the byte
/// sequences that are well-formed UTF-8 (the same set as
/// `std::str::from_utf8`); the contract states that the call succeeds
/// precisely on valid UTF-8.
#[verifier::external_body]
fn simdutf8_accepts(data: &[u8]) -> (ok: bool)
    ensures
        ok == valid_utf8(data@),
{
    simdutf8::basic::from_utf8(data).is_ok()
}

/// Validate that the input is valid UTF-8.
///
/// Returns true if the input is valid UTF-8, false otherwise.
pub fn validate_utf8(data: &[u8]) -> (ok: bool)
    ensures
        ok == valid_utf8(data@),
{
    simdutf8_accepts(data)
}


/// Streaming validation: once a fragment `a` splits at `k`, the whole
/// message `a + b` is valid exactly when the pending bytes of `a` followed
/// by `b` are valid, so validation can resume from the pending bytes.
pub proof fn lemma_resume_from_pending(a: Seq<u8>, b: Seq<u8>, k: int)
    requires
        is_streaming_split(a, k),
    ensures
        valid_utf8(a + b) <==> valid_utf8(a.subrange(k, a.len() as int) + b),
{
    let ab = a + b;
    let rest = a.subrange(k, a.len() as int) + b;
    assert(ab.subrange(0, k) =~= a.subrange(0, k));
    assert(ab.subrange(k, ab.len() as int) =~= rest);
    assert(a.subrange(0, k) + rest =~= ab);
    if valid_utf8(rest) {
        valid_utf8_concat(a.subrange(0, k), rest);
    }
    if valid_utf8(ab) {
        assert(ab.subrange(0, ab.len() as int) =~= ab);
        lemma_between_valid_prefixes(ab, k, ab.len() as int);
    }
}

/// Byte-level test for a continuation byte (`10xxxxxx`).
fn is_continuation(b: u8) -> (r: bool)
    ensures
        r == is_continuation_byte(b),
{
    proof {
        assert((b & 0xC0 == 0x80) == (0x80 <= b && b <= 0xBF)) by (bit_vector);
    }
    b & 0xC0 == 0x80
}

/// Two-byte encodings: the decoded value is at most `0x7FF`, and it is not
/// overlong exactly when the lead byte is at least `0xC2`.
proof fn lemma_width_2(b0: u8, b1: u8)
    requires
        0xC0 <= b0 <= 0xDF,
        0x80 <= b1 <= 0xBF,
    ensures
        (0x80 <= codepoint_width_2(b0, b1)) == (b0 >= 0xC2),
        codepoint_width_2(b0, b1) <= 0x7FF,
{
    assert(0xC0 <= b0 <= 0xDF && 0x80 <= b1 <= 0xBF ==> ((0x80 <= (((b0 & 0x1F) as u32) << 6)
        | ((b1 & 0x3f) as u32)) == (b0 >= 0xC2) && (((b0 & 0x1F) as u32) << 6) | ((b1
        & 0x3f) as u32) <= 0x7FF)) by (bit_vector);
}

/// Three-byte encodings: neither overlong nor a surrogate exactly when the
/// second byte lies in the range that Unicode allows after the lead byte.
proof fn lemma_width_3(b0: u8, b1: u8, b2: u8)
    requires
        0xE0 <= b0 <= 0xEF,
        0x80 <= b1 <= 0xBF,
        0x80 <= b2 <= 0xBF,
    ensures
        (not_overlong_encoding(codepoint_width_3(b0, b1, b2), 3) && not_surrogate(
            codepoint_width_3(b0, b1, b2),
        )) == ((b0 == 0xE0 ==> b1 >= 0xA0) && (b0 == 0xED ==> b1 < 0xA0)),
{
    assert(0xE0 <= b0 <= 0xEF && 0x80 <= b1 <= 0xBF && 0x80 <= b2 <= 0xBF ==> ((0x800 <= ((((
    b0 & 0x0F) as u32) << 12) | (((b1 & 0x3f) as u32) << 6) | ((b2 & 0x3f) as u32)) && !(0xD800
        <= ((((b0 & 0x0F) as u32) << 12) | (((b1 & 0x3f) as u32) << 6) | ((b2 & 0x3f) as u32))
        <= 0xDFFF)) == ((b0 == 0xE0 ==> b1 >= 0xA0) && (b0 == 0xED ==> b1 < 0xA0)))) by (bit_vector);
}

/// Four-byte encodings: the value lies in `0x10000..=0x10FFFF` exactly when
/// the lead byte is at most `0xF4` and the second byte lies in the range
/// that Unicode allows after it.
proof fn lemma_width_4(b0: u8, b1: u8, b2: u8, b3: u8)
    requires
        0xF0 <= b0 <= 0xF7,
        0x80 <= b1 <= 0xBF,
        0x80 <= b2 <= 0xBF,
        0x80 <= b3 <= 0xBF,
    ensures
        (0x10000 <= codepoint_width_4(b0, b1, b2, b3) <= 0x10FFFF) == (b0 <= 0xF4 && (b0 == 0xF0
            ==> b1 >= 0x90) && (b0 == 0xF4 ==> b1 < 0x90)),
{
    assert(0xF0 <= b0 <= 0xF7 && 0x80 <= b1 <= 0xBF && 0x80 <= b2 <= 0xBF && 0x80 <= b3 <= 0xBF
        ==> ((0x10000 <= ((((b0 & 0x07) as u32) << 18) | (((b1 & 0x3f) as u32) << 12) | (((b2
        & 0x3f) as u32) << 6) | ((b3 & 0x3f) as u32)) <= 0x10FFFF) == (b0 <= 0xF4 && (b0 == 0xF0
        ==> b1 >= 0x90) && (b0 == 0xF4 ==> b1 < 0x90)))) by (bit_vector);
}


/// A well-formed first scalar stays well-formed, with the same length,
/// whatever bytes follow it.
proof fn lemma_first_scalar_extend(u: Seq<u8>, v: Seq<u8>)
    requires
        valid_first_scalar(u),
    ensures
        valid_first_scalar(u + v),
        length_of_first_scalar(u + v) == length_of_first_scalar(u),
{
    assert((u + v)[0] == u[0]);
    if u.len() >= 2 {
        assert((u + v)[1] == u[1]);
    }
    if u.len() >= 3 {
        assert((u + v)[2] == u[2]);
    }
    if u.len() >= 4 {
        assert((u + v)[3] == u[3]);
    }
}

/// Two valid prefixes of one sequence end on scalar boundaries of each
/// other: the bytes between them are valid UTF-8 as well.
proof fn lemma_between_valid_prefixes(s: Seq<u8>, a: int, b: int)
    requires
        0 <= a <= b <= s.len(),
        valid_utf8(s.subrange(0, a)),
        valid_utf8(s.subrange(0, b)),
    ensures
        valid_utf8(s.subrange(a, b)),
    decreases a,
{
    if a == 0 {
        assert(s.subrange(0, b) =~= s.subrange(a, b));
    } else {
        let pa = s.subrange(0, a);
        let pb = s.subrange(0, b);
        assert(pa[0] == pb[0]);
        let n = length_of_first_scalar(pb);
        assert(length_of_first_scalar(pa) == n);
        let t = s.subrange(n, s.len() as int);
        assert(pop_first_scalar(pa) =~= t.subrange(0, a - n));
        assert(pop_first_scalar(pb) =~= t.subrange(0, b - n));
        lemma_between_valid_prefixes(t, a - n, b - n);
        assert(t.subrange(a - n, b - n) =~= s.subrange(a, b));
    }
}

/// Once a complete scalar follows position `a`, the bytes from `a` to the
/// end cannot be a pending tail.
proof fn lemma_no_pending_after_scalar(s: Seq<u8>, a: int, b: int)
    requires
        0 <= a < b <= s.len(),
        valid_utf8(s.subrange(a, b)),
    ensures
        !is_pending_tail(s.subrange(a, s.len() as int)),
{
    let u = s.subrange(a, b);
    let t = s.subrange(a, s.len() as int);
    assert(valid_first_scalar(u));
    let n = length_of_first_scalar(u);
    assert(u[0] == t[0]);
    if is_partial_scalar(t) {
        let rest = choose|rest: Seq<u8>|
            #[trigger] valid_first_scalar(t + rest) && t.len() < length_of_first_scalar(t + rest);
        assert((t + rest)[0] == t[0]);
        assert(length_of_first_scalar(t + rest) == n);
    }
}

/// A byte sequence has at most one streaming split.
pub proof fn lemma_streaming_split_unique(s: Seq<u8>, k1: int, k2: int)
    requires
        is_streaming_split(s, k1),
        is_streaming_split(s, k2),
    ensures
        k1 == k2,
{
    if k1 < k2 {
        lemma_between_valid_prefixes(s, k1, k2);
        lemma_no_pending_after_scalar(s, k1, k2);
    } else if k2 < k1 {
        lemma_between_valid_prefixes(s, k2, k1);
        lemma_no_pending_after_scalar(s, k2, k1);
    }
}

/// Complete, valid UTF-8 leaves nothing pending: its only streaming split
/// is at its end.
pub proof fn lemma_valid_input_splits_at_end(s: Seq<u8>, k: int)
    requires
        valid_utf8(s),
        is_streaming_split(s, k),
    ensures
        k == s.len(),
{
    assert(s.subrange(0, s.len() as int) =~= s);
    assert(is_streaming_split(s, s.len() as int));
    lemma_streaming_split_unique(s, k, s.len() as int);
}

proof fn lemma_prefix_split_from(s: Seq<u8>, p: int, j: int)
    requires
        0 <= p <= j <= s.len(),
        valid_utf8(s.subrange(0, p)),
        valid_utf8(s.subrange(p, s.len() as int)),
    ensures
        exists|k: int| is_streaming_split(s.subrange(0, j), k),
    decreases j - p,
{
    let sj = s.subrange(0, j);
    if p == j {
        assert(sj.subrange(0, p) =~= s.subrange(0, p));
        assert(is_streaming_split(sj, p));
    } else {
        let u = s.subrange(p, s.len() as int);
        assert(valid_first_scalar(u));
        let n = length_of_first_scalar(u);
        if p + n <= j {
            partial_valid_utf8_extend(s, p);
            assert(pop_first_scalar(u) =~= s.subrange(p + n, s.len() as int));
            lemma_prefix_split_from(s, p + n, j);
        } else {
            let t = sj.subrange(p, j as int);
            let rest = s.subrange(j, s.len() as int);
            assert(t + rest =~= u);
            assert(valid_first_scalar(t + rest) && t.len() < length_of_first_scalar(t + rest));
            assert(is_partial_scalar(t));
            assert(sj.subrange(0, p) =~= s.subrange(0, p));
            assert(is_streaming_split(sj, p));
        }
    }
}

/// Cutting valid UTF-8 at any byte, in the middle of a character or not,
/// leaves a prefix that the streaming check accepts.
pub proof fn lemma_prefix_of_valid_is_accepted(s: Seq<u8>, j: int)
    requires
        valid_utf8(s),
        0 <= j <= s.len(),
    ensures
        exists|k: int| is_streaming_split(s.subrange(0, j), k),
{
    assert(s.subrange(0, 0) =~= Seq::<u8>::empty());
    assert(s.subrange(0, s.len() as int) =~= s);
    lemma_prefix_split_from(s, 0, j);
}


/// The bytes of a proper prefix of a scalar encoding, by Unicode's table of
/// well-formed byte sequences: a lead byte in `0xC2..=0xF4`, fewer bytes
/// than the lead announces, and each byte present in its allowed range.
spec fn partial_scalar_bytes(t: Seq<u8>) -> bool {
    &&& 0 < t.len()
    &&& 0xC2 <= t[0] <= 0xF4
    &&& (t[0] <= 0xDF ==> t.len() == 1)
    &&& (0xE0 <= t[0] <= 0xEF ==> t.len() <= 2 && (t.len() == 2 ==> is_continuation_byte(t[1]) && (
    t[0] == 0xE0 ==> t[1] >= 0xA0) && (t[0] == 0xED ==> t[1] < 0xA0)))
    &&& (0xF0 <= t[0] ==> t.len() <= 3 && (t.len() >= 2 ==> is_continuation_byte(t[1]) && (t[0]
        == 0xF0 ==> t[1] >= 0x90) && (t[0] == 0xF4 ==> t[1] < 0x90)) && (t.len() == 3
        ==> is_continuation_byte(t[2])))
}

proof fn lemma_partial_scalar_necessary(t: Seq<u8>)
    requires
        is_partial_scalar(t),
    ensures
        partial_scalar_bytes(t),
{
    let rest = choose|rest: Seq<u8>|
        #[trigger] valid_first_scalar(t + rest) && t.len() < length_of_first_scalar(t + rest);
    let u = t + rest;
    assert(u[0] == t[0]);
    if t.len() >= 2 {
        assert(u[1] == t[1]);
    }
    if t.len() >= 3 {
        assert(u[2] == t[2]);
    }
    if is_leading_byte_width_2(u[0]) {
        lemma_width_2(u[0], u[1]);
    } else if is_leading_byte_width_3(u[0]) {
        lemma_width_3(u[0], u[1], u[2]);
    } else if is_leading_byte_width_4(u[0]) {
        lemma_width_4(u[0], u[1], u[2], u[3]);
    }
}

proof fn lemma_partial_scalar_sufficient(t: Seq<u8>)
    requires
        partial_scalar_bytes(t),
    ensures
        is_partial_scalar(t),
{
    let b0 = t[0];
    if b0 <= 0xDF {
        let rest = seq![0x80u8];
        let u = t + rest;
        assert(u[0] == b0 && u[1] == 0x80);
        lemma_width_2(b0, 0x80);
        assert(valid_first_scalar(u) && t.len() < length_of_first_scalar(u));
    } else if b0 <= 0xEF {
        let second: u8 = if b0 == 0xE0 { 0xA0 } else { 0x80 };
        let rest = if t.len() == 1 { seq![second, 0x80u8] } else { seq![0x80u8] };
        let u = t + rest;
        assert(u[0] == b0);
        if t.len() == 1 {
            assert(u[1] == second && u[2] == 0x80);
        } else {
            assert(u[1] == t[1] && u[2] == 0x80);
        }
        lemma_width_3(u[0], u[1], u[2]);
        assert(valid_first_scalar(u) && t.len() < length_of_first_scalar(u));
    } else {
        let second: u8 = if b0 == 0xF0 { 0x90 } else { 0x80 };
        let rest = if t.len() == 1 {
            seq![second, 0x80u8, 0x80u8]
        } else if t.len() == 2 {
            seq![0x80u8, 0x80u8]
        } else {
            seq![0x80u8]
        };
        let u = t + rest;
        assert(u[0] == b0);
        if t.len() == 1 {
            assert(u[1] == second && u[2] == 0x80 && u[3] == 0x80);
        } else if t.len() == 2 {
            assert(u[1] == t[1] && u[2] == 0x80 && u[3] == 0x80);
        } else {
            assert(u[1] == t[1] && u[2] == t[2] && u[3] == 0x80);
        }
        lemma_width_4(u[0], u[1], u[2], u[3]);
        assert(valid_first_scalar(u) && t.len() < length_of_first_scalar(u));
    }
}

/// When the bytes from `i` on neither start with a complete scalar nor
/// form a pending tail, no streaming split exists.
proof fn lemma_stuck_means_no_split(s: Seq<u8>, i: int)
    requires
        0 <= i < s.len(),
        valid_utf8(s.subrange(0, i)),
        !valid_first_scalar(s.subrange(i, s.len() as int)),
        !is_pending_tail(s.subrange(i, s.len() as int)),
    ensures
        forall|k: int| !is_streaming_split(s, k),
{
    assert forall|k: int| !is_streaming_split(s, k) by {
        if is_streaming_split(s, k) {
            if k < i {
                lemma_between_valid_prefixes(s, k, i);
                lemma_no_pending_after_scalar(s, k, i);
            } else if i < k {
                assert(s.subrange(0, k) =~= s.subrange(0, k));
                lemma_between_valid_prefixes(s, i, k);
                let u = s.subrange(i, k);
                assert(valid_first_scalar(u));
                lemma_first_scalar_extend(u, s.subrange(k, s.len() as int));
                assert(u + s.subrange(k, s.len() as int) =~= s.subrange(i, s.len() as int));
            }
        }
    }
}

/// Extends the valid prefix by one complete scalar of `n` bytes.
proof fn lemma_extend_valid_prefix(s: Seq<u8>, i: int, n: int)
    requires
        0 <= i,
        i + n <= s.len(),
        valid_utf8(s.subrange(0, i)),
        valid_first_scalar(s.subrange(i, s.len() as int)),
        length_of_first_scalar(s.subrange(i, s.len() as int)) == n,
    ensures
        valid_utf8(s.subrange(0, i + n)),
{
    partial_valid_utf8_extend(s, i);
}

/// The streaming result at a split point `i` with a pending tail.
proof fn lemma_pending_split(s: Seq<u8>, i: int)
    requires
        0 <= i < s.len(),
        valid_utf8(s.subrange(0, i)),
        partial_scalar_bytes(s.subrange(i, s.len() as int)),
    ensures
        is_streaming_split(s, i),
        s.len() - i <= 3,
{
    lemma_partial_scalar_sufficient(s.subrange(i, s.len() as int));
}

/// The streaming result when the scan stops at `i` on bytes that cannot be
/// completed.
proof fn lemma_reject_at(s: Seq<u8>, i: int)
    requires
        0 <= i < s.len(),
        valid_utf8(s.subrange(0, i)),
        !valid_first_scalar(s.subrange(i, s.len() as int)),
        !partial_scalar_bytes(s.subrange(i, s.len() as int)),
    ensures
        forall|k: int| !is_streaming_split(s, k),
{
    let t = s.subrange(i, s.len() as int);
    assert(t[0] == s[i]);
    if is_partial_scalar(t) {
        lemma_partial_scalar_necessary(t);
    }
    lemma_stuck_means_no_split(s, i);
}


/// Check if data is valid UTF-8 with an incomplete sequence at the end.
///
/// Returns:
/// - `(true, n)` if all complete sequences are valid, where `n` is the
///   number of trailing bytes that form an incomplete sequence (0-3 bytes);
/// - `(false, 0)` if there is an invalid UTF-8 sequence.
///
/// Used for streaming validation, where a text message may be split across
/// fragment boundaries in the middle of a multi-byte character.
pub fn validate_utf8_incomplete(data: &[u8]) -> (r: (bool, usize))
    ensures
        r.0 == exists|k: int| is_streaming_split(data@, k),
        r.0 ==> r.1 <= 3 && r.1 <= data@.len() && is_streaming_split(data@, data@.len() - r.1),
        !r.0 ==> r.1 == 0,
{
    let ghost s = data@;
    if data.is_empty() {
        proof {
            assert(s.subrange(0, 0) =~= Seq::<u8>::empty());
            assert(is_streaming_split(s, 0));
        }
        return (true, 0);
    }
    let len = data.len();
    let mut i: usize = 0;
    proof {
        assert(s.subrange(0, 0) =~= Seq::<u8>::empty());
    }
    while i < len
        invariant
            len == s.len(),
            s == data@,
            i <= len,
            valid_utf8(s.subrange(0, i as int)),
        decreases len - i,
    {
        let ghost t = s.subrange(i as int, len as int);
        let b = data[i];
        proof {
            assert(t[0] == b);
        }
        if b < 0x80 {
            // ASCII byte
            proof {
                assert((b & 0x7F) as u32 <= 0x7F) by (bit_vector)
                    requires
                        b < 0x80,
                ;
                lemma_extend_valid_prefix(s, i as int, 1);
            }
            i += 1;
        } else if b < 0xC0 {
            // Unexpected continuation byte at start of sequence
            proof {
                lemma_reject_at(s, i as int);
            }
            return (false, 0);
        } else if b < 0xE0 {
            // 2-byte sequence: need 1 more byte
            if len - i < 2 {
                // 0xC0 and 0xC1 can only start overlong encodings
                if b < 0xC2 {
                    proof {
                        lemma_reject_at(s, i as int);
                    }
                    return (false, 0);
                }
                proof {
                    lemma_pending_split(s, i as int);
                }
                return (true, len - i);
            }
            let b1 = data[i + 1];
            proof {
                assert(t[1] == b1);
            }
            if !is_continuation(b1) {
                proof {
                    lemma_reject_at(s, i as int);
                }
                return (false, 0);
            }
            proof {
                lemma_width_2(b, b1);
            }
            // Check for overlong encoding
            if b < 0xC2 {
                proof {
                    lemma_reject_at(s, i as int);
                }
                return (false, 0);
            }
            proof {
                lemma_extend_valid_prefix(s, i as int, 2);
            }
            i += 2;
        } else if b < 0xF0 {
            // 3-byte sequence: need 2 more bytes
            if len - i < 3 {
                if len - i >= 2 {
                    let b1 = data[i + 1];
                    proof {
                        assert(t[1] == b1);
                    }
                    if !is_continuation(b1) {
                        proof {
                            lemma_reject_at(s, i as int);
                        }
                        return (false, 0);
                    }
                    // Check for overlong and surrogate
                    if b == 0xE0 && b1 < 0xA0 {
                        proof {
                            lemma_reject_at(s, i as int);
                        }
                        return (false, 0);
                    }
                    if b == 0xED && b1 >= 0xA0 {
                        proof {
                            lemma_reject_at(s, i as int);
                        }
                        return (false, 0);
                    }
                }
                proof {
                    lemma_pending_split(s, i as int);
                }
                return (true, len - i);
            }
            let b1 = data[i + 1];
            let b2 = data[i + 2];
            proof {
                assert(t[1] == b1 && t[2] == b2);
            }
            if !is_continuation(b1) || !is_continuation(b2) {
                proof {
                    lemma_reject_at(s, i as int);
                }
                return (false, 0);
            }
            // Check for overlong encoding and surrogate halves
            let cp = ((b as u32 & 0x0F) << 12) | ((b1 as u32 & 0x3F) << 6) | (b2 as u32 & 0x3F);
            proof {
                assert(cp == codepoint_width_3(b, b1, b2)) by (bit_vector)
                    requires
                        cp == ((b as u32 & 0x0F) << 12) | ((b1 as u32 & 0x3F) << 6) | (b2 as u32
                            & 0x3F),
                ;
            }
            if cp < 0x800 || (0xD800 <= cp && cp <= 0xDFFF) {
                proof {
                    lemma_width_3(b, b1, b2);
                    lemma_reject_at(s, i as int);
                }
                return (false, 0);
            }
            proof {
                lemma_extend_valid_prefix(s, i as int, 3);
            }
            i += 3;
        } else if b < 0xF5 {
            // 4-byte sequence: need 3 more bytes
            if len - i < 4 {
                if len - i >= 2 {
                    let b1 = data[i + 1];
                    proof {
                        assert(t[1] == b1);
                    }
                    if !is_continuation(b1) {
                        proof {
                            lemma_reject_at(s, i as int);
                        }
                        return (false, 0);
                    }
                    // Check for overlong and out of range
                    if b == 0xF0 && b1 < 0x90 {
                        proof {
                            lemma_reject_at(s, i as int);
                        }
                        return (false, 0);
                    }
                    if b == 0xF4 && b1 >= 0x90 {
                        proof {
                            lemma_reject_at(s, i as int);
                        }
                        return (false, 0);
                    }
                }
                if len - i >= 3 {
                    let b2 = data[i + 2];
                    proof {
                        assert(t[2] == b2);
                    }
                    if !is_continuation(b2) {
                        proof {
                            lemma_reject_at(s, i as int);
                        }
                        return (false, 0);
                    }
                }
                proof {
                    lemma_pending_split(s, i as int);
                }
                return (true, len - i);
            }
            let b1 = data[i + 1];
            let b2 = data[i + 2];
            let b3 = data[i + 3];
            proof {
                assert(t[1] == b1 && t[2] == b2 && t[3] == b3);
            }
            if !is_continuation(b1) || !is_continuation(b2) || !is_continuation(b3) {
                proof {
                    lemma_reject_at(s, i as int);
                }
                return (false, 0);
            }
            // Check for overlong encoding and maximum scalar value
            let cp = ((b as u32 & 0x07) << 18) | ((b1 as u32 & 0x3F) << 12) | ((b2 as u32 & 0x3F)
                << 6) | (b3 as u32 & 0x3F);
            proof {
                assert(cp == codepoint_width_4(b, b1, b2, b3)) by (bit_vector)
                    requires
                        cp == ((b as u32 & 0x07) << 18) | ((b1 as u32 & 0x3F) << 12) | ((b2 as u32
                            & 0x3F) << 6) | (b3 as u32 & 0x3F),
                ;
                lemma_width_4(b, b1, b2, b3);
            }
            if !(0x10000 <= cp && cp <= 0x10FFFF) {
                proof {
                    lemma_reject_at(s, i as int);
                }
                return (false, 0);
            }
            proof {
                lemma_extend_valid_prefix(s, i as int, 4);
            }
            i += 4;
        } else {
            // Invalid leading byte (>= 0xF5)
            proof {
                if valid_first_scalar(t) {
                    lemma_width_4(t[0], t[1], t[2], t[3]);
                }
                lemma_reject_at(s, i as int);
            }
            return (false, 0);
        }
    }
    proof {
        assert(s.subrange(0, len as int) =~= s);
        assert(is_streaming_split(s, len as int));
    }
    (true, 0)
}

} // verus!
