//! UTF-8 validity, stated as the standard byte-sequence grammar and decided
//! by a verified scanner. The wire parser rejects a request whose URI,
//! header fields or body are not valid UTF-8.

use vstd::prelude::*;

verus! {

/// A UTF-8 continuation byte: `10xxxxxx`.
pub open spec fn is_cont_byte(b: u8) -> bool {
    0x80 <= b <= 0xBF
}

/// The bytes of `s` from `i` on form a sequence of well-formed UTF-8
/// encodings: one-byte ASCII, or a two- to four-byte sequence whose lead
/// byte and continuation bytes lie in the ranges the encoding allows
/// (overlong forms and surrogate code points excluded).
pub open spec fn is_utf8_from(s: Seq<u8>, i: int) -> bool
    decreases s.len() - i,
{
    if i >= s.len() {
        true
    } else {
        let b0 = s[i];
        if b0 < 0x80 {
            is_utf8_from(s, i + 1)
        } else if 0xC2 <= b0 <= 0xDF {
            i + 2 <= s.len() && is_cont_byte(s[i + 1]) && is_utf8_from(s, i + 2)
        } else if b0 == 0xE0 {
            i + 3 <= s.len() && 0xA0 <= s[i + 1] <= 0xBF && is_cont_byte(s[i + 2])
                && is_utf8_from(s, i + 3)
        } else if 0xE1 <= b0 <= 0xEC {
            i + 3 <= s.len() && is_cont_byte(s[i + 1]) && is_cont_byte(s[i + 2])
                && is_utf8_from(s, i + 3)
        } else if b0 == 0xED {
            i + 3 <= s.len() && 0x80 <= s[i + 1] <= 0x9F && is_cont_byte(s[i + 2])
                && is_utf8_from(s, i + 3)
        } else if 0xEE <= b0 <= 0xEF {
            i + 3 <= s.len() && is_cont_byte(s[i + 1]) && is_cont_byte(s[i + 2])
                && is_utf8_from(s, i + 3)
        } else if b0 == 0xF0 {
            i + 4 <= s.len() && 0x90 <= s[i + 1] <= 0xBF && is_cont_byte(s[i + 2])
                && is_cont_byte(s[i + 3]) && is_utf8_from(s, i + 4)
        } else if 0xF1 <= b0 <= 0xF3 {
            i + 4 <= s.len() && is_cont_byte(s[i + 1]) && is_cont_byte(s[i + 2])
                && is_cont_byte(s[i + 3]) && is_utf8_from(s, i + 4)
        } else if b0 == 0xF4 {
            i + 4 <= s.len() && 0x80 <= s[i + 1] <= 0x8F && is_cont_byte(s[i + 2])
                && is_cont_byte(s[i + 3]) && is_utf8_from(s, i + 4)
        } else {
            false
        }
    }
}

/// `s` is valid UTF-8 text.
pub open spec fn is_utf8(s: Seq<u8>) -> bool {
    is_utf8_from(s, 0)
}

/// Decides whether `bytes` is valid UTF-8 text.
pub fn check_utf8(bytes: &[u8]) -> (r: bool)
    ensures
        r == is_utf8(bytes@),
{
    let n = bytes.len();
    let mut i: usize = 0;
    while i < n
        invariant
            i <= n,
            n == bytes@.len(),
            is_utf8(bytes@) == is_utf8_from(bytes@, i as int),
        decreases n - i,
    {
        let b0 = bytes[i];
        if b0 < 0x80 {
            i = i + 1;
        } else if 0xC2 <= b0 && b0 <= 0xDF {
            if n - i >= 2 && 0x80 <= bytes[i + 1] && bytes[i + 1] <= 0xBF {
                i = i + 2;
            } else {
                return false;
            }
        } else if b0 == 0xE0 {
            if n - i >= 3 && 0xA0 <= bytes[i + 1] && bytes[i + 1] <= 0xBF
                && 0x80 <= bytes[i + 2] && bytes[i + 2] <= 0xBF {
                i = i + 3;
            } else {
                return false;
            }
        } else if 0xE1 <= b0 && b0 <= 0xEC {
            if n - i >= 3 && 0x80 <= bytes[i + 1] && bytes[i + 1] <= 0xBF
                && 0x80 <= bytes[i + 2] && bytes[i + 2] <= 0xBF {
                i = i + 3;
            } else {
                return false;
            }
        } else if b0 == 0xED {
            if n - i >= 3 && 0x80 <= bytes[i + 1] && bytes[i + 1] <= 0x9F
                && 0x80 <= bytes[i + 2] && bytes[i + 2] <= 0xBF {
                i = i + 3;
            } else {
                return false;
            }
        } else if 0xEE <= b0 && b0 <= 0xEF {
            if n - i >= 3 && 0x80 <= bytes[i + 1] && bytes[i + 1] <= 0xBF
                && 0x80 <= bytes[i + 2] && bytes[i + 2] <= 0xBF {
                i = i + 3;
            } else {
                return false;
            }
        } else if b0 == 0xF0 {
            if n - i >= 4 && 0x90 <= bytes[i + 1] && bytes[i + 1] <= 0xBF
                && 0x80 <= bytes[i + 2] && bytes[i + 2] <= 0xBF
                && 0x80 <= bytes[i + 3] && bytes[i + 3] <= 0xBF {
                i = i + 4;
            } else {
                return false;
            }
        } else if 0xF1 <= b0 && b0 <= 0xF3 {
            if n - i >= 4 && 0x80 <= bytes[i + 1] && bytes[i + 1] <= 0xBF
                && 0x80 <= bytes[i + 2] && bytes[i + 2] <= 0xBF
                && 0x80 <= bytes[i + 3] && bytes[i + 3] <= 0xBF {
                i = i + 4;
            } else {
                return false;
            }
        } else if b0 == 0xF4 {
            if n - i >= 4 && 0x80 <= bytes[i + 1] && bytes[i + 1] <= 0x8F
                && 0x80 <= bytes[i + 2] && bytes[i + 2] <= 0xBF
                && 0x80 <= bytes[i + 3] && bytes[i + 3] <= 0xBF {
                i = i + 4;
            } else {
                return false;
            }
        } else {
            return false;
        }
    }
    true
}

} // verus!
