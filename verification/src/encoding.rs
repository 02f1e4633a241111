//! Executable UTF-8 validation against vstd's encoding model, and trusted
//! conversions between byte payloads and `String` text.

use vstd::prelude::*;
use vstd::utf8::{
    decode_first_codepoint, decode_utf8, encode_utf8, is_continuation_byte,
    length_of_first_codepoint, not_overlong_encoding, not_surrogate, pop_first_scalar,
    valid_first_scalar, valid_leading_and_continuation_bytes_first_codepoint, valid_utf8,
};

use crate::error::ProtocolError;

verus! {

/// Decides whether `data` is a valid UTF-8 encoding, against vstd's `valid_utf8`.
pub fn is_valid_utf8(data: &[u8]) -> (r: bool)
    ensures
        r == valid_utf8(data@),
{
    let ghost whole = data@;
    let n = data.len();
    let mut i: usize = 0;
    proof {
        assert(whole.skip(0) =~= whole);
    }
    while i < n
        invariant
            i <= n,
            n == whole.len(),
            data@ == whole,
            valid_utf8(whole) <==> valid_utf8(whole.skip(i as int)),
        decreases n - i,
    {
        let ghost suffix = whole.skip(i as int);
        proof {
            assert(suffix.len() == n - i);
            assert(suffix[0] == whole[i as int]);
        }
        let b0 = data[i];
        let width: usize;
        if b0 < 0x80 {
            width = 1;
        } else if b0 < 0xc0 {
            // a continuation byte cannot lead a scalar
            proof {
                assert(!valid_leading_and_continuation_bytes_first_codepoint(suffix));
            }
            return false;
        } else if b0 < 0xe0 {
            width = 2;
        } else if b0 < 0xf0 {
            width = 3;
        } else if b0 < 0xf8 {
            width = 4;
        } else {
            proof {
                assert(!valid_leading_and_continuation_bytes_first_codepoint(suffix));
            }
            return false;
        }
        if width > 1 {
            if n - i < width {
                proof {
                    assert(!valid_leading_and_continuation_bytes_first_codepoint(suffix));
                }
                return false;
            }
            let b1 = data[i + 1];
            if !(0x80 <= b1 && b1 <= 0xbf) {
                proof {
                    assert(suffix.len() >= 2 && suffix[1] == whole[i + 1]);
                    assert(!valid_leading_and_continuation_bytes_first_codepoint(suffix));
                }
                return false;
            }
            if width >= 3 {
                let b2 = data[i + 2];
                if !(0x80 <= b2 && b2 <= 0xbf) {
                    proof {
                        assert(suffix.len() >= 3 && suffix[2] == whole[i + 2]);
                        assert(!valid_leading_and_continuation_bytes_first_codepoint(suffix));
                    }
                    return false;
                }
            }
            if width == 4 {
                let b3 = data[i + 3];
                if !(0x80 <= b3 && b3 <= 0xbf) {
                    proof {
                        assert(suffix.len() >= 4 && suffix[3] == whole[i + 3]);
                        assert(!valid_leading_and_continuation_bytes_first_codepoint(suffix));
                    }
                    return false;
                }
            }
            // the leading and continuation bytes are well-formed; now decode the
            // codepoint exactly as the model does and rule out overlong and
            // surrogate encodings
            let cp: u32 = if width == 2 {
                (((b0 & 0x1f) as u32) << 6) | ((b1 & 0x3f) as u32)
            } else if width == 3 {
                (((b0 & 0x0f) as u32) << 12) | (((b1 & 0x3f) as u32) << 6) | ((data[i + 2]
                    & 0x3f) as u32)
            } else {
                (((b0 & 0x07) as u32) << 18) | (((b1 & 0x3f) as u32) << 12) | (((data[i + 2]
                    & 0x3f) as u32) << 6) | ((data[i + 3] & 0x3f) as u32)
            };
            proof {
                assert(suffix.len() >= width);
                assert(suffix[1] == whole[i + 1]);
                if width >= 3 {
                    assert(suffix[2] == whole[i + 2]);
                }
                if width == 4 {
                    assert(suffix[3] == whole[i + 3]);
                }
                assert(valid_leading_and_continuation_bytes_first_codepoint(suffix));
                assert(length_of_first_codepoint(suffix) == width);
                assert(decode_first_codepoint(suffix) == cp);
            }
            if width == 2 && cp < 0x80 {
                proof {
                    assert(!not_overlong_encoding(cp, 2));
                }
                return false;
            }
            if width == 3 && cp < 0x800 {
                proof {
                    assert(!not_overlong_encoding(cp, 3));
                }
                return false;
            }
            if width == 4 && !(0x10000 <= cp && cp <= 0x10ffff) {
                proof {
                    assert(!not_overlong_encoding(cp, 4));
                }
                return false;
            }
            if 0xd800 <= cp && cp <= 0xdfff {
                proof {
                    assert(!not_surrogate(cp));
                }
                return false;
            }
            proof {
                assert(valid_first_scalar(suffix));
                assert(pop_first_scalar(suffix) =~= whole.skip(i + width));
            }
        } else {
            proof {
                assert(valid_first_scalar(suffix));
                assert(pop_first_scalar(suffix) =~= whole.skip(i + 1));
            }
        }
        i = i + width;
    }
    proof {
        assert(whole.skip(i as int).len() == 0);
        assert(valid_utf8(whole.skip(i as int)));
    }
    true
}

/// Relies on `String::from_utf8`: succeeds exactly on valid UTF-8 input and
/// returns the text those bytes encode, per vstd's UTF-8 model.
#[verifier::external_body]
pub(crate) fn bytes_to_text(data: &Vec<u8>) -> (r: Option<String>)
    ensures
        r is Some <==> valid_utf8(data@),
        r matches Some(s) ==> s@ == decode_utf8(data@),
{
    String::from_utf8(data.clone()).ok()
}

/// Relies on `String::into_bytes`: returns the UTF-8 encoding of the text,
/// per vstd's UTF-8 model.
#[verifier::external_body]
pub(crate) fn text_to_bytes(text: String) -> (r: Vec<u8>)
    ensures
        r@ == encode_utf8(text@),
{
    text.into_bytes()
}

/// Decodes a payload as UTF-8 text, reporting failure the way handler-facing
/// helpers do.
pub(crate) fn payload_text(data: &Vec<u8>) -> (r: Result<String, ProtocolError>)
    ensures
        r is Ok <==> valid_utf8(data@),
        r matches Ok(s) ==> s@ == decode_utf8(data@),
        r is Err ==> r->Err_0 is Other,
{
    match bytes_to_text(data) {
        Some(s) => Ok(s),
        None => Err(ProtocolError::Other("invalid UTF-8 payload".to_owned())),
    }
}

} // verus!
