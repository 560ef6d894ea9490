//! Byte-level text properties: a UTF-8 validity check, proved against
//! vstd's model of the encoding.

use vstd::prelude::*;
use vstd::utf8::{
    decode_first_codepoint, is_continuation_byte, is_leading_byte_width_1,
    is_leading_byte_width_2, is_leading_byte_width_3, is_leading_byte_width_4,
    length_of_first_codepoint, pop_first_scalar, valid_first_scalar, valid_utf8,
};

verus! {

/// Whether the bytes form a valid UTF-8 encoding; mirrors
/// [`vstd::utf8::valid_utf8`].
pub fn is_valid_utf8(v: &Vec<u8>) -> (r: bool)
    ensures
        r == valid_utf8(v@),
{
    let n = v.len();
    proof {
        assert(v@.subrange(0, n as int) =~= v@);
    }
    let mut i: usize = 0;
    while i < n
        invariant
            i <= n,
            n == v@.len(),
            valid_utf8(v@) == valid_utf8(v@.subrange(i as int, n as int)),
        decreases n - i,
    {
        let ghost suffix = v@.subrange(i as int, n as int);
        proof {
            assert(suffix.len() > 0);
            assert(suffix[0] == v@[i as int]);
        }
        let b0 = v[i];
        let width: usize;
        if b0 <= 0x7f {
            proof {
                assert(is_leading_byte_width_1(suffix[0]));
                assert(decode_first_codepoint(suffix) == (b0 & 0x7f) as u32);
                assert((b0 & 0x7f) == b0) by (bit_vector)
                    requires
                        b0 <= 0x7f,
                ;
                assert(valid_first_scalar(suffix));
            }
            width = 1;
        } else if 0xc0 <= b0 && b0 <= 0xdf {
            if !(i + 1 < n && v[i + 1] >= 0x80 && v[i + 1] <= 0xbf) {
                proof {
                    assert(suffix.len() >= 2 ==> suffix[1] == v@[i + 1]);
                    assert(!valid_first_scalar(suffix));
                }
                return false;
            }
            let b1 = v[i + 1];
            let cp: u32 = (((b0 & 0x1f) as u32) << 6u32) | ((b1 & 0x3f) as u32);
            proof {
                assert(suffix[1] == v@[i + 1]);
                assert(is_leading_byte_width_2(suffix[0]) && is_continuation_byte(suffix[1]));
                assert(!is_leading_byte_width_1(suffix[0]));
                assert(decode_first_codepoint(suffix) == cp);
                assert(length_of_first_codepoint(suffix) == 2);
                assert(cp <= 0x7ff) by (bit_vector)
                    requires
                        cp == (((b0 & 0x1f) as u32) << 6u32) | ((b1 & 0x3f) as u32),
                ;
            }
            if cp < 0x80 {
                proof {
                    assert(!valid_first_scalar(suffix));
                }
                return false;
            }
            width = 2;
            proof {
                assert(valid_first_scalar(suffix));
            }
        } else if 0xe0 <= b0 && b0 <= 0xef {
            if !(n - i > 2 && v[i + 1] >= 0x80 && v[i + 1] <= 0xbf && v[i + 2] >= 0x80 && v[i + 2]
                <= 0xbf) {
                proof {
                    assert(suffix.len() >= 2 ==> suffix[1] == v@[i + 1]);
                    assert(suffix.len() >= 3 ==> suffix[2] == v@[i + 2]);
                    assert(!valid_first_scalar(suffix));
                }
                return false;
            }
            let b1 = v[i + 1];
            let b2 = v[i + 2];
            let cp: u32 = (((b0 & 0x0f) as u32) << 12u32) | (((b1 & 0x3f) as u32) << 6u32) | ((b2
                & 0x3f) as u32);
            proof {
                assert(suffix[1] == v@[i + 1] && suffix[2] == v@[i + 2]);
                assert(is_leading_byte_width_3(suffix[0]) && is_continuation_byte(suffix[1])
                    && is_continuation_byte(suffix[2]));
                assert(!is_leading_byte_width_1(suffix[0]) && !is_leading_byte_width_2(suffix[0]));
                assert(decode_first_codepoint(suffix) == cp);
                assert(length_of_first_codepoint(suffix) == 3);
            }
            if cp < 0x800 || (0xd800 <= cp && cp <= 0xdfff) {
                proof {
                    assert(!valid_first_scalar(suffix));
                }
                return false;
            }
            width = 3;
            proof {
                assert(valid_first_scalar(suffix));
            }
        } else if 0xf0 <= b0 && b0 <= 0xf7 {
            if !(n - i > 3 && v[i + 1] >= 0x80 && v[i + 1] <= 0xbf && v[i + 2] >= 0x80 && v[i + 2]
                <= 0xbf && v[i + 3] >= 0x80 && v[i + 3] <= 0xbf) {
                proof {
                    assert(suffix.len() >= 2 ==> suffix[1] == v@[i + 1]);
                    assert(suffix.len() >= 3 ==> suffix[2] == v@[i + 2]);
                    assert(suffix.len() >= 4 ==> suffix[3] == v@[i + 3]);
                    assert(!valid_first_scalar(suffix));
                }
                return false;
            }
            let b1 = v[i + 1];
            let b2 = v[i + 2];
            let b3 = v[i + 3];
            let cp: u32 = (((b0 & 0x07) as u32) << 18u32) | (((b1 & 0x3f) as u32) << 12u32) | (((b2
                & 0x3f) as u32) << 6u32) | ((b3 & 0x3f) as u32);
            proof {
                assert(suffix[1] == v@[i + 1] && suffix[2] == v@[i + 2] && suffix[3] == v@[i + 3]);
                assert(is_leading_byte_width_4(suffix[0]) && is_continuation_byte(suffix[1])
                    && is_continuation_byte(suffix[2]) && is_continuation_byte(suffix[3]));
                assert(!is_leading_byte_width_1(suffix[0]) && !is_leading_byte_width_2(suffix[0])
                    && !is_leading_byte_width_3(suffix[0]));
                assert(decode_first_codepoint(suffix) == cp);
                assert(length_of_first_codepoint(suffix) == 4);
            }
            if cp < 0x10000 || cp > 0x10ffff {
                proof {
                    assert(!valid_first_scalar(suffix));
                }
                return false;
            }
            width = 4;
            proof {
                assert(valid_first_scalar(suffix));
            }
        } else {
            proof {
                assert(!is_leading_byte_width_1(suffix[0]) && !is_leading_byte_width_2(suffix[0])
                    && !is_leading_byte_width_3(suffix[0]) && !is_leading_byte_width_4(
                    suffix[0],
                ));
                assert(!valid_first_scalar(suffix));
            }
            return false;
        }
        proof {
            assert(length_of_first_codepoint(suffix) == width);
            assert(pop_first_scalar(suffix) =~= v@.subrange(i + width, n as int));
        }
        i = i + width;
    }
    proof {
        assert(v@.subrange(n as int, n as int) =~= Seq::<u8>::empty());
    }
    true
}

} // verus!
