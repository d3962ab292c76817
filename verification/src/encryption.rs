//! A toy shift cipher over Unicode code points, keyed by a shared
//! secret. Shifting a character lands on the character with the
//! shifted code point; where that code point is no valid character —
//! past the range, or a surrogate — the character is kept unchanged.

use vstd::prelude::*;

use crate::text::push_char;

verus! {

/// Whether a code point value is a valid character: below the
/// surrogate range, or past it and at most the greatest code point.
pub open spec fn is_valid_code(v: int) -> bool {
    (0 <= v < 0xD800) || (0xDFFF < v <= 0x10FFFF)
}

/// Relies on `char::from_u32`: `Some` exactly for values outside the
/// surrogate range and at most the greatest code point, returning the
/// character with that code.
#[verifier::external_body]
fn char_from_u32(v: u32) -> (r: Option<char>)
    ensures
        r is Some <==> is_valid_code(v as int),
        r matches Some(c) ==> c as u32 == v,
{
    char::from_u32(v)
}

/// How one character encrypts: shifted up by the key where that yields
/// a character, kept otherwise.
pub open spec fn shifted_up(c: char, key: u32, r: char) -> bool {
    if is_valid_code(c as u32 as int + key as int) {
        r as u32 as int == c as u32 as int + key as int
    } else {
        r == c
    }
}

/// How one character decrypts: shifted down by the key where that
/// yields a character, kept otherwise.
pub open spec fn shifted_down(c: char, key: u32, r: char) -> bool {
    if is_valid_code(c as u32 as int - key as int) {
        r as u32 as int == c as u32 as int - key as int
    } else {
        r == c
    }
}

/// An established key exchange: both sides hold the shared key.
#[derive(Debug)]
pub struct Exchange {
    pub shared_key: u32,
}

impl Exchange {
    /// Encrypts by shifting each character's code point up by the
    /// shared key. The key bound keeps the shift within `u32` for
    /// every possible character.
    pub fn encrypt(&self, ciphertext: &str) -> (r: String)
        requires
            self.shared_key <= u32::MAX - 0x10FFFF,
        ensures
            r@.len() == ciphertext@.len(),
            forall|i: int|
                0 <= i < ciphertext@.len() ==> shifted_up(ciphertext@[i], self.shared_key, r@[i]),
    {
        let n = ciphertext.unicode_len();
        let mut out = String::new();
        let mut i: usize = 0;
        while i < n
            invariant
                n == ciphertext@.len(),
                i <= n,
                self.shared_key <= u32::MAX - 0x10FFFF,
                out@.len() == i,
                forall|j: int|
                    0 <= j < i ==> shifted_up(ciphertext@[j], self.shared_key, out@[j]),
            decreases n - i,
        {
            let c = ciphertext.get_char(i);
            let v = c as u32 + self.shared_key;
            match char_from_u32(v) {
                Some(shifted) => {
                    push_char(&mut out, shifted);
                    proof {
                        assert(out@[i as int] == shifted);
                        assert(shifted_up(c, self.shared_key, shifted));
                    }
                },
                None => {
                    push_char(&mut out, c);
                    proof {
                        assert(out@[i as int] == c);
                        assert(shifted_up(c, self.shared_key, c));
                    }
                },
            }
            i = i + 1;
        }
        out
    }

    /// Decrypts by shifting each character's code point down by the
    /// shared key; the inverse of [`Exchange::encrypt`] wherever the
    /// shifted character was a valid code point.
    pub fn decrypt(&self, message: &str) -> (r: String)
        ensures
            r@.len() == message@.len(),
            forall|i: int|
                0 <= i < message@.len() ==> shifted_down(message@[i], self.shared_key, r@[i]),
    {
        let n = message.unicode_len();
        let mut out = String::new();
        let mut i: usize = 0;
        while i < n
            invariant
                n == message@.len(),
                i <= n,
                out@.len() == i,
                forall|j: int|
                    0 <= j < i ==> shifted_down(message@[j], self.shared_key, out@[j]),
            decreases n - i,
        {
            let c = message.get_char(i);
            let cv = c as u32;
            if cv >= self.shared_key {
                match char_from_u32(cv - self.shared_key) {
                    Some(shifted) => {
                        push_char(&mut out, shifted);
                        proof {
                            assert(out@[i as int] == shifted);
                            assert(shifted_down(c, self.shared_key, shifted));
                        }
                    },
                    None => {
                        push_char(&mut out, c);
                        proof {
                            assert(out@[i as int] == c);
                            assert(shifted_down(c, self.shared_key, c));
                        }
                    },
                }
            } else {
                push_char(&mut out, c);
                proof {
                    assert(out@[i as int] == c);
                    assert(!is_valid_code(c as u32 as int - self.shared_key as int));
                    assert(shifted_down(c, self.shared_key, c));
                }
            }
            i = i + 1;
        }
        out
    }
}

} // verus!
