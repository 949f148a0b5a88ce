//! Textual ILP addresses: dot-separated labels over a restricted alphabet.

use vstd::prelude::*;

use crate::ParseError;

verus! {

/// Bytes allowed inside an ILP address label: ASCII letters, digits, `_`, `~`
/// and `-`.
pub open spec fn is_label_byte(c: u8) -> bool {
    (0x41 <= c <= 0x5a) || (0x61 <= c <= 0x7a) || (0x30 <= c <= 0x39) || c == 0x5f || c == 0x7e
        || c == 0x2d
}

/// A well-formed ILP address: between 1 and 1023 bytes, dot-separated nonempty
/// labels over the label alphabet. The first label is the address's scheme.
pub open spec fn valid_address(s: Seq<u8>) -> bool {
    &&& 1 <= s.len() <= 1023
    &&& (forall|i: int| 0 <= i < s.len() ==> (is_label_byte(s[i]) || s[i] == 0x2e))
    &&& s[0] != 0x2e
    &&& s[s.len() - 1] != 0x2e
    &&& (forall|i: int| 0 <= i < s.len() - 1 ==> !((#[trigger] s[i]) == 0x2e && s[i + 1] == 0x2e))
}

/// A textual ILP address, always well-formed.
#[derive(Debug, PartialEq, Eq)]
pub struct Address {
    bytes: Vec<u8>,
}

impl View for Address {
    type V = Seq<u8>;

    closed spec fn view(&self) -> Seq<u8> {
        self.bytes@
    }
}

/// Checks every byte of `b` against the address grammar.
fn check_address_bytes(b: &Vec<u8>) -> (r: bool)
    ensures
        r == valid_address(b@),
{
    let n = b.len();
    if n == 0 || n > 1023 {
        return false;
    }
    if b[0] == 0x2e || b[n - 1] == 0x2e {
        return false;
    }
    let mut i: usize = 0;
    while i < n
        invariant
            0 < n == b@.len() <= 1023,
            i <= n,
            forall|j: int| 0 <= j < i ==> (is_label_byte(b@[j]) || b@[j] == 0x2e),
            forall|j: int| 0 <= j < i - 1 ==> !((#[trigger] b@[j]) == 0x2e && b@[j + 1] == 0x2e),
        decreases n - i,
    {
        let c = b[i];
        let is_label = (0x41 <= c && c <= 0x5a) || (0x61 <= c && c <= 0x7a) || (0x30 <= c && c
            <= 0x39) || c == 0x5f || c == 0x7e || c == 0x2d;
        if !is_label && c != 0x2e {
            return false;
        }
        if c == 0x2e && i > 0 && b[i - 1] == 0x2e {
            return false;
        }
        i = i + 1;
    }
    true
}

impl Clone for Address {
    /// Clones preserve the address's bytes.
    fn clone(&self) -> (r: Self)
        ensures
            r@ == self@,
    {
        proof {
            use_type_invariant(self);
        }
        let mut out: Vec<u8> = Vec::new();
        crate::oer::append_bytes(&mut out, &self.bytes);
        proof {
            assert(out@ =~= self.bytes@);
        }
        Address { bytes: out }
    }
}

impl Address {
    /// Every address value satisfies the grammar.
    #[verifier::type_invariant]
    pub open spec fn type_inv(self) -> bool {
        valid_address(self@)
    }

    /// Builds an address from raw bytes, rejecting anything that is not a
    /// well-formed ILP address.
    pub fn try_from(bytes: Vec<u8>) -> (r: Result<Address, ParseError>)
        ensures
            match r {
                Ok(a) => valid_address(bytes@) && a@ == bytes@,
                Err(_) => !valid_address(bytes@),
            },
    {
        if check_address_bytes(&bytes) {
            Ok(Address { bytes })
        } else {
            Err(ParseError::InvalidPacket)
        }
    }

    /// The address's bytes.
    pub fn as_bytes(&self) -> (r: &Vec<u8>)
        ensures
            r@ == self@,
    {
        &self.bytes
    }

    /// The address's length in bytes.
    pub fn len(&self) -> (r: usize)
        ensures
            r == self@.len(),
    {
        self.bytes.len()
    }

    /// Appends `.` and one more label; fails if `suffix` is empty, holds a
    /// byte outside the label alphabet, or would push the address over the
    /// length limit.
    pub fn with_suffix(&self, suffix: &Vec<u8>) -> (r: Result<Address, ParseError>)
        ensures
            match r {
                Ok(a) => a@ == self@ + seq![0x2eu8] + suffix@,
                Err(_) => !(suffix@.len() >= 1 && (forall|i: int|
                    0 <= i < suffix@.len() ==> is_label_byte(suffix@[i])) && self@.len() + 1
                    + suffix@.len() <= 1023),
            },
    {
        proof {
            use_type_invariant(self);
        }
        let m = suffix.len();
        if m == 0 || m > 1022 || 1023 - self.bytes.len() < 1 + m {
            return Err(ParseError::InvalidPacket);
        }
        let mut i: usize = 0;
        while i < m
            invariant
                i <= m == suffix@.len(),
                forall|j: int| 0 <= j < i ==> is_label_byte(suffix@[j]),
            decreases m - i,
        {
            let c = suffix[i];
            let is_label = (0x41 <= c && c <= 0x5a) || (0x61 <= c && c <= 0x7a) || (0x30 <= c && c
                <= 0x39) || c == 0x5f || c == 0x7e || c == 0x2d;
            if !is_label {
                return Err(ParseError::InvalidPacket);
            }
            i = i + 1;
        }
        let mut out: Vec<u8> = Vec::new();
        crate::oer::append_bytes(&mut out, &self.bytes);
        out.push(0x2e);
        crate::oer::append_bytes(&mut out, suffix);
        proof {
            assert(out@ =~= self@ + seq![0x2eu8] + suffix@);
            let s = out@;
            let n = self@.len() as int;
            assert forall|j: int| 0 <= j < s.len() implies (is_label_byte(s[j]) || s[j]
                == 0x2e) by {
                if j < n {
                    assert(s[j] == self@[j]);
                } else if j > n {
                    assert(s[j] == suffix@[j - n - 1]);
                }
            }
            assert(s[0] == self@[0]);
            assert(s[s.len() - 1] == suffix@[suffix@.len() - 1]);
            assert forall|j: int| 0 <= j < s.len() - 1 implies !((#[trigger] s[j]) == 0x2e && s[j
                + 1] == 0x2e) by {
                if j < n - 1 {
                    assert(s[j] == self@[j] && s[j + 1] == self@[j + 1]);
                } else if j == n - 1 {
                    assert(s[j] == self@[n - 1]);
                } else if j == n {
                    assert(s[j + 1] == suffix@[0]);
                } else {
                    assert(s[j] == suffix@[j - n - 1] && s[j + 1] == suffix@[j - n]);
                }
            }
            assert(valid_address(s));
        }
        Ok(Address { bytes: out })
    }
}

} // verus!
