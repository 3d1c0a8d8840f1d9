//! A UTF-8 well-formedness check, proved against the reference
//! specification of UTF-8 encoding in vstd.

use vstd::prelude::*;
use vstd::utf8::{
    codepoint_width_1, codepoint_width_2, codepoint_width_3, codepoint_width_4,
    decode_first_codepoint, is_continuation_byte, is_leading_byte_width_1, is_leading_byte_width_2,
    is_leading_byte_width_3, is_leading_byte_width_4, length_of_first_scalar,
    partial_valid_partial_invalid_utf8, partial_valid_utf8, partial_valid_utf8_extend,
    valid_first_scalar, valid_utf8,
};

verus! {

/// True exactly when the bytes are a well-formed UTF-8 encoding: each
/// scalar has a legal leading byte, the right number of continuation
/// bytes, no overlong form, and no surrogate value.
pub fn is_valid_utf8(b: &[u8]) -> (r: bool)
    ensures
        r == valid_utf8(b@),
{
    let n = b.len();
    let mut i: usize = 0;
    while i < n
        invariant
            i <= n,
            n == b@.len(),
            partial_valid_utf8(b@, i as int),
        decreases n - i,
    {
        let ghost rest = b@.subrange(i as int, n as int);
        let b0 = b[i];
        proof {
            assert(rest.len() == n - i);
            assert(rest[0] == b@[i as int]);
        }
        if b0 <= 0x7f {
            proof {
                assert(b0 & 0x7f == b0) by (bit_vector)
                    requires
                        b0 <= 0x7f,
                ;
                assert(valid_first_scalar(rest));
                assert(length_of_first_scalar(rest) == 1);
                partial_valid_utf8_extend(b@, i as int);
            }
            i = i + 1;
        } else if 0xc0 <= b0 && b0 <= 0xdf {
            if i + 1 >= n || !is_cont(b[i + 1]) {
                proof {
                    if i + 1 < n {
                        assert(rest[1] == b@[i + 1]);
                    }
                    assert(!valid_first_scalar(rest));
                    fail_at(b@, i as int);
                }
                return false;
            }
            let b1 = b[i + 1];
            let cp: u32 = (((b0 & 0x1F) as u32) << 6u32) | ((b1 & 0x3f) as u32);
            proof {
                assert(rest[1] == b@[i + 1]);
                assert(cp == codepoint_width_2(rest[0], rest[1]));
                assert(decode_first_codepoint(rest) == cp);
            }
            if cp < 0x80 {
                proof {
                    assert(!valid_first_scalar(rest));
                    fail_at(b@, i as int);
                }
                return false;
            }
            proof {
                assert(cp <= 0x7ff) by (bit_vector)
                    requires
                        cp == (((b0 & 0x1F) as u32) << 6u32) | ((b1 & 0x3f) as u32),
                ;
                assert(valid_first_scalar(rest));
                assert(length_of_first_scalar(rest) == 2);
                partial_valid_utf8_extend(b@, i as int);
            }
            i = i + 2;
        } else if 0xe0 <= b0 && b0 <= 0xef {
            if n - i <= 2 || !is_cont(b[i + 1]) || !is_cont(b[i + 2]) {
                proof {
                    if i + 1 < n {
                        assert(rest[1] == b@[i + 1]);
                    }
                    if i + 2 < n {
                        assert(rest[2] == b@[i + 2]);
                    }
                    assert(!valid_first_scalar(rest));
                    fail_at(b@, i as int);
                }
                return false;
            }
            let b1 = b[i + 1];
            let b2 = b[i + 2];
            let cp: u32 = (((b0 & 0x0F) as u32) << 12u32) | (((b1 & 0x3f) as u32) << 6u32) | ((b2
                & 0x3f) as u32);
            proof {
                assert(rest[1] == b@[i + 1]);
                assert(rest[2] == b@[i + 2]);
                assert(cp == codepoint_width_3(rest[0], rest[1], rest[2]));
                assert(decode_first_codepoint(rest) == cp);
            }
            if cp < 0x800 || (0xd800 <= cp && cp <= 0xdfff) {
                proof {
                    assert(!valid_first_scalar(rest));
                    fail_at(b@, i as int);
                }
                return false;
            }
            proof {
                assert(valid_first_scalar(rest));
                assert(length_of_first_scalar(rest) == 3);
                partial_valid_utf8_extend(b@, i as int);
            }
            i = i + 3;
        } else if 0xf0 <= b0 && b0 <= 0xf7 {
            if n - i <= 3 || !is_cont(b[i + 1]) || !is_cont(b[i + 2]) || !is_cont(b[i + 3]) {
                proof {
                    if i + 1 < n {
                        assert(rest[1] == b@[i + 1]);
                    }
                    if i + 2 < n {
                        assert(rest[2] == b@[i + 2]);
                    }
                    if i + 3 < n {
                        assert(rest[3] == b@[i + 3]);
                    }
                    assert(!valid_first_scalar(rest));
                    fail_at(b@, i as int);
                }
                return false;
            }
            let b1 = b[i + 1];
            let b2 = b[i + 2];
            let b3 = b[i + 3];
            let cp: u32 = (((b0 & 0x07) as u32) << 18u32) | (((b1 & 0x3f) as u32) << 12u32) | (((b2
                & 0x3f) as u32) << 6u32) | ((b3 & 0x3f) as u32);
            proof {
                assert(rest[1] == b@[i + 1]);
                assert(rest[2] == b@[i + 2]);
                assert(rest[3] == b@[i + 3]);
                assert(cp == codepoint_width_4(rest[0], rest[1], rest[2], rest[3]));
                assert(decode_first_codepoint(rest) == cp);
            }
            if cp < 0x10000 || cp > 0x10ffff {
                proof {
                    assert(!valid_first_scalar(rest));
                    fail_at(b@, i as int);
                }
                return false;
            }
            proof {
                assert(valid_first_scalar(rest));
                assert(length_of_first_scalar(rest) == 4);
                partial_valid_utf8_extend(b@, i as int);
            }
            i = i + 4;
        } else {
            proof {
                assert(!is_leading_byte_width_1(rest[0]));
                assert(!is_leading_byte_width_2(rest[0]));
                assert(!is_leading_byte_width_3(rest[0]));
                assert(!is_leading_byte_width_4(rest[0]));
                assert(!valid_first_scalar(rest));
                fail_at(b@, i as int);
            }
            return false;
        }
    }
    proof {
        assert(b@.subrange(0, n as int) =~= b@);
    }
    true
}

fn is_cont(b: u8) -> (r: bool)
    ensures
        r == is_continuation_byte(b),
{
    0x80 <= b && b <= 0xbf
}

/// A valid prefix followed by an ill-formed first scalar makes the whole
/// byte sequence ill-formed.
proof fn fail_at(b: Seq<u8>, i: int)
    requires
        0 <= i < b.len(),
        partial_valid_utf8(b, i),
        !valid_first_scalar(b.subrange(i, b.len() as int)),
    ensures
        !valid_utf8(b),
{
    assert(!valid_utf8(b.subrange(i, b.len() as int)));
    partial_valid_partial_invalid_utf8(b, i);
}

} // verus!
