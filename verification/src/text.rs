//! Byte-level text checks: UTF-8 validity and NUL-freedom.
//!
//! The exchange protocol hands out NUL-terminated UTF-8 buffers, so the
//! library needs to decide, for caller-supplied bytes, whether they can be
//! embedded in such a buffer.  [`is_valid_utf8`] is a verified
//! implementation of vstd's `valid_utf8`; [`bytes_nul_free`] checks for
//! embedded NUL bytes.

use vstd::prelude::*;
use vstd::utf8::*;
use vstd::utf8::{encode_utf8, is_ascii_chars, is_ascii_chars_encode_utf8, encode_utf8_valid_utf8, is_ascii_chars_nat_bound, char_u32_cast};

verus! {

/// True when no byte of the sequence is NUL.
pub open spec fn nul_free(s: Seq<u8>) -> bool {
    forall|i: int| 0 <= i < s.len() ==> s[i] != 0
}

/// NUL-freedom survives concatenation.
pub proof fn lemma_nul_free_concat(a: Seq<u8>, b: Seq<u8>)
    requires
        nul_free(a),
        nul_free(b),
    ensures
        nul_free(a + b),
{
    assert forall|i: int| 0 <= i < (a + b).len() implies (a + b)[i] != 0 by {
        if i < a.len() {
            assert((a + b)[i] == a[i]);
        } else {
            assert((a + b)[i] == b[i - a.len()]);
        }
    }
}

/// A sequence of non-NUL ASCII bytes can stand in a message: it is NUL-free
/// and valid UTF-8.
pub proof fn lemma_ascii_bytes_piece(s: Seq<u8>)
    requires
        forall|i: int| 0 <= i < s.len() ==> 0 < #[trigger] s[i] < 0x80,
    ensures
        nul_free(s),
        valid_utf8(s),
{
    lemma_ascii_valid_utf8(s);
}

/// The UTF-8 encoding of ASCII text without NUL characters is NUL-free and
/// valid.
pub proof fn lemma_ascii_text(chars: Seq<char>)
    requires
        is_ascii_chars(chars),
        forall|i: int| 0 <= i < chars.len() ==> #[trigger] chars[i] != '\0',
    ensures
        encode_utf8(chars).len() == chars.len(),
        nul_free(encode_utf8(chars)),
        valid_utf8(encode_utf8(chars)),
        forall|i: int|
            0 <= i < encode_utf8(chars).len() ==> 0 < #[trigger] encode_utf8(chars)[i] < 0x80,
{
    is_ascii_chars_encode_utf8(chars);
    encode_utf8_valid_utf8(chars);
    is_ascii_chars_nat_bound(chars);
    assert forall|i: int| 0 <= i < encode_utf8(chars).len() implies 0 < #[trigger] encode_utf8(
        chars,
    )[i] < 0x80 by {
        let c = chars[i];
        assert(encode_utf8(chars)[i] == c as u8);
        assert((c as nat) < 128);
        if c as u8 == 0 {
            char_u32_cast(c, c as u32);
            char_u32_cast('\0', 0);
            assert(c == '\0');
        }
    }
}

/// A sequence of ASCII bytes is valid UTF-8.
pub proof fn lemma_ascii_valid_utf8(s: Seq<u8>)
    requires
        forall|i: int| 0 <= i < s.len() ==> s[i] < 0x80,
    ensures
        valid_utf8(s),
{
    assert(s.subrange(0, 0) =~= Seq::<u8>::empty());
    assert(valid_utf8(s.subrange(0, 0)));
    assert(partial_valid_utf8(s, 0));
    partial_valid_utf8_extend_ascii_block(s, 0, s.len() as int);
    assert(s.subrange(0, s.len() as int) =~= s);
}

/// Whether the bytes contain no NUL.
pub fn bytes_nul_free(bytes: &[u8]) -> (r: bool)
    ensures
        r == nul_free(bytes@),
{
    let mut i: usize = 0;
    while i < bytes.len()
        invariant
            0 <= i <= bytes@.len(),
            forall|k: int| 0 <= k < i ==> bytes@[k] != 0,
        decreases bytes@.len() - i,
    {
        if bytes[i] == 0 {
            return false;
        }
        i = i + 1;
    }
    true
}

/// Whether the bytes form a valid UTF-8 encoding, in the sense of vstd's
/// `valid_utf8`: each scalar well-formed, no overlong encodings, no
/// surrogates.
pub fn is_valid_utf8(bytes: &[u8]) -> (r: bool)
    ensures
        r == valid_utf8(bytes@),
{
    let n: usize = bytes.len();
    let mut i: usize = 0;
    while i < n
        invariant
            0 <= i <= n,
            n == bytes@.len(),
            partial_valid_utf8(bytes@, i as int),
        decreases n - i,
    {
        let ghost suffix = bytes@.subrange(i as int, n as int);
        proof {
            assert(suffix[0] == bytes@[i as int]);
        }
        let b0: u8 = bytes[i];
        if b0 < 0x80 {
            // One-byte scalar: always well-formed.
            proof {
                assert(b0 & 0x7f == b0) by (bit_vector)
                    requires
                        b0 < 0x80,
                ;
                assert(decode_first_codepoint(suffix) == (b0 & 0x7f) as u32);
                assert(valid_first_scalar(suffix));
                assert(length_of_first_scalar(suffix) == 1);
                partial_valid_utf8_extend(bytes@, i as int);
            }
            i = i + 1;
        } else if b0 < 0xc0 {
            // A continuation byte cannot lead a scalar.
            proof {
                assert(!valid_leading_and_continuation_bytes_first_codepoint(suffix));
                assert(!valid_utf8(suffix));
                partial_valid_partial_invalid_utf8(bytes@, i as int);
            }
            return false;
        } else if b0 < 0xe0 {
            // Two-byte scalar.
            if i + 1 >= n || !(0x80 <= bytes[i + 1] && bytes[i + 1] < 0xc0) {
                proof {
                    if i + 1 < n {
                        assert(suffix[1] == bytes@[i as int + 1]);
                    }
                    assert(!valid_leading_and_continuation_bytes_first_codepoint(suffix));
                    assert(!valid_utf8(suffix));
                    partial_valid_partial_invalid_utf8(bytes@, i as int);
                }
                return false;
            }
            let b1: u8 = bytes[i + 1];
            let cp: u32 = (((b0 & 0x1f) as u32) << 6u32) | ((b1 & 0x3f) as u32);
            proof {
                assert(suffix[1] == bytes@[i as int + 1]);
                assert(cp == codepoint_width_2(b0, b1));
                assert(decode_first_codepoint(suffix) == cp);
                assert(length_of_first_codepoint(suffix) == 2);
            }
            if cp < 0x80 || (0xd800 <= cp && cp <= 0xdfff) {
                proof {
                    assert(!valid_first_scalar(suffix));
                    assert(!valid_utf8(suffix));
                    partial_valid_partial_invalid_utf8(bytes@, i as int);
                }
                return false;
            }
            proof {
                assert(valid_first_scalar(suffix));
                partial_valid_utf8_extend(bytes@, i as int);
            }
            i = i + 2;
        } else if b0 < 0xf0 {
            // Three-byte scalar.
            if n - i < 3 || !(0x80 <= bytes[i + 1] && bytes[i + 1] < 0xc0) || !(0x80 <= bytes[i
                + 2] && bytes[i + 2] < 0xc0) {
                proof {
                    if i + 1 < n {
                        assert(suffix[1] == bytes@[i as int + 1]);
                    }
                    if i + 2 < n {
                        assert(suffix[2] == bytes@[i as int + 2]);
                    }
                    assert(!valid_leading_and_continuation_bytes_first_codepoint(suffix));
                    assert(!valid_utf8(suffix));
                    partial_valid_partial_invalid_utf8(bytes@, i as int);
                }
                return false;
            }
            let b1: u8 = bytes[i + 1];
            let b2: u8 = bytes[i + 2];
            let cp: u32 = (((b0 & 0x0f) as u32) << 12u32) | (((b1 & 0x3f) as u32) << 6u32) | ((b2
                & 0x3f) as u32);
            proof {
                assert(suffix[1] == bytes@[i as int + 1]);
                assert(suffix[2] == bytes@[i as int + 2]);
                assert(cp == codepoint_width_3(b0, b1, b2));
                assert(decode_first_codepoint(suffix) == cp);
                assert(length_of_first_codepoint(suffix) == 3);
            }
            if cp < 0x800 || (0xd800 <= cp && cp <= 0xdfff) {
                proof {
                    assert(!valid_first_scalar(suffix));
                    assert(!valid_utf8(suffix));
                    partial_valid_partial_invalid_utf8(bytes@, i as int);
                }
                return false;
            }
            proof {
                assert(valid_first_scalar(suffix));
                partial_valid_utf8_extend(bytes@, i as int);
            }
            i = i + 3;
        } else if b0 < 0xf8 {
            // Four-byte scalar.
            if n - i < 4 || !(0x80 <= bytes[i + 1] && bytes[i + 1] < 0xc0) || !(0x80 <= bytes[i
                + 2] && bytes[i + 2] < 0xc0) || !(0x80 <= bytes[i + 3] && bytes[i + 3] < 0xc0) {
                proof {
                    if i + 1 < n {
                        assert(suffix[1] == bytes@[i as int + 1]);
                    }
                    if i + 2 < n {
                        assert(suffix[2] == bytes@[i as int + 2]);
                    }
                    if i + 3 < n {
                        assert(suffix[3] == bytes@[i as int + 3]);
                    }
                    assert(!valid_leading_and_continuation_bytes_first_codepoint(suffix));
                    assert(!valid_utf8(suffix));
                    partial_valid_partial_invalid_utf8(bytes@, i as int);
                }
                return false;
            }
            let b1: u8 = bytes[i + 1];
            let b2: u8 = bytes[i + 2];
            let b3: u8 = bytes[i + 3];
            let cp: u32 = (((b0 & 0x07) as u32) << 18u32) | (((b1 & 0x3f) as u32) << 12u32) | (((b2
                & 0x3f) as u32) << 6u32) | ((b3 & 0x3f) as u32);
            proof {
                assert(suffix[1] == bytes@[i as int + 1]);
                assert(suffix[2] == bytes@[i as int + 2]);
                assert(suffix[3] == bytes@[i as int + 3]);
                assert(cp == codepoint_width_4(b0, b1, b2, b3));
                assert(decode_first_codepoint(suffix) == cp);
                assert(length_of_first_codepoint(suffix) == 4);
            }
            if cp < 0x10000 || cp > 0x10ffff {
                proof {
                    assert(!valid_first_scalar(suffix));
                    assert(!valid_utf8(suffix));
                    partial_valid_partial_invalid_utf8(bytes@, i as int);
                }
                return false;
            }
            proof {
                assert(valid_first_scalar(suffix));
                partial_valid_utf8_extend(bytes@, i as int);
            }
            i = i + 4;
        } else {
            // 0xf8 and beyond lead nothing.
            proof {
                assert(!valid_leading_and_continuation_bytes_first_codepoint(suffix));
                assert(!valid_utf8(suffix));
                partial_valid_partial_invalid_utf8(bytes@, i as int);
            }
            return false;
        }
    }
    proof {
        assert(bytes@.subrange(0, n as int) =~= bytes@);
    }
    true
}

} // verus!
