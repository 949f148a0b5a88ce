//! URL-safe base64 without padding, as used inside generated ILP addresses,
//! with round-trip and concatenation lemmas.

use vstd::prelude::*;

use crate::address::is_label_byte;
use crate::oer::suffix as oer_suffix;

verus! {

/// The alphabet byte for a six-bit value.
pub open spec fn b64_char(x: int) -> u8 {
    if x < 26 {
        (65 + x) as u8
    } else if x < 52 {
        (97 + x - 26) as u8
    } else if x < 62 {
        (48 + x - 52) as u8
    } else if x == 62 {
        45
    } else {
        95
    }
}

/// The six-bit value of an alphabet byte, or -1 for a byte outside the
/// alphabet.
pub open spec fn b64_val(c: u8) -> int {
    if 65 <= c <= 90 {
        c - 65
    } else if 97 <= c <= 122 {
        c - 97 + 26
    } else if 48 <= c <= 57 {
        c - 48 + 52
    } else if c == 45 {
        62
    } else if c == 95 {
        63
    } else {
        -1
    }
}

/// URL-safe unpadded base64 encoding of a byte string.
pub open spec fn b64_encode(s: Seq<u8>) -> Seq<u8>
    decreases s.len(),
{
    if s.len() == 0 {
        seq![]
    } else if s.len() == 1 {
        let b0 = s[0] as int;
        seq![b64_char(b0 / 4), b64_char((b0 % 4) * 16)]
    } else if s.len() == 2 {
        let b0 = s[0] as int;
        let b1 = s[1] as int;
        seq![b64_char(b0 / 4), b64_char((b0 % 4) * 16 + b1 / 16), b64_char((b1 % 16) * 4)]
    } else {
        let b0 = s[0] as int;
        let b1 = s[1] as int;
        let b2 = s[2] as int;
        seq![
            b64_char(b0 / 4),
            b64_char((b0 % 4) * 16 + b1 / 16),
            b64_char((b1 % 16) * 4 + b2 / 64),
            b64_char(b2 % 64),
        ] + b64_encode(s.skip(3))
    }
}

/// URL-safe unpadded base64 decoding of a byte string; bytes outside the
/// alphabet and impossible lengths are rejected, spare trailing bits are
/// dropped.
pub open spec fn b64_decode(s: Seq<u8>) -> Option<Seq<u8>>
    decreases s.len(),
{
    if s.len() == 0 {
        Some(seq![])
    } else if s.len() == 1 {
        None
    } else if s.len() == 2 {
        let v0 = b64_val(s[0]);
        let v1 = b64_val(s[1]);
        if v0 < 0 || v1 < 0 {
            None
        } else {
            Some(seq![(v0 * 4 + v1 / 16) as u8])
        }
    } else if s.len() == 3 {
        let v0 = b64_val(s[0]);
        let v1 = b64_val(s[1]);
        let v2 = b64_val(s[2]);
        if v0 < 0 || v1 < 0 || v2 < 0 {
            None
        } else {
            Some(seq![(v0 * 4 + v1 / 16) as u8, ((v1 % 16) * 16 + v2 / 4) as u8])
        }
    } else {
        let v0 = b64_val(s[0]);
        let v1 = b64_val(s[1]);
        let v2 = b64_val(s[2]);
        let v3 = b64_val(s[3]);
        if v0 < 0 || v1 < 0 || v2 < 0 || v3 < 0 {
            None
        } else {
            match b64_decode(s.skip(4)) {
                None => None,
                Some(tail) => Some(
                    seq![
                        (v0 * 4 + v1 / 16) as u8,
                        ((v1 % 16) * 16 + v2 / 4) as u8,
                        ((v2 % 4) * 64 + v3) as u8,
                    ] + tail,
                ),
            }
        }
    }
}

/// The encoding's length: four bytes for each three input bytes, two or
/// three more for a trailing one or two bytes.
pub proof fn lemma_b64_encode_len(s: Seq<u8>)
    ensures
        b64_encode(s).len() == 4 * (s.len() / 3) + (if s.len() % 3 == 0 {
            0int
        } else if s.len() % 3 == 1 {
            2int
        } else {
            3int
        }),
    decreases s.len(),
{
    if s.len() >= 3 {
        lemma_b64_encode_len(s.skip(3));
    }
}

/// Every byte of an encoding is in the URL-safe alphabet, which lies inside
/// the ILP address label alphabet.
pub proof fn lemma_b64_encode_label_bytes(s: Seq<u8>)
    ensures
        forall|i: int| 0 <= i < b64_encode(s).len() ==> is_label_byte(#[trigger] b64_encode(s)[i]),
    decreases s.len(),
{
    let e = b64_encode(s);
    if s.len() == 0 {
    } else if s.len() == 1 {
        assert forall|i: int| 0 <= i < e.len() implies is_label_byte(e[i]) by {
            lemma_b64_char_label((s[0] as int) / 4);
            lemma_b64_char_label(((s[0] as int) % 4) * 16);
        }
    } else if s.len() == 2 {
        assert forall|i: int| 0 <= i < e.len() implies is_label_byte(e[i]) by {
            lemma_b64_char_label((s[0] as int) / 4);
            lemma_b64_char_label(((s[0] as int) % 4) * 16 + (s[1] as int) / 16);
            lemma_b64_char_label(((s[1] as int) % 16) * 4);
        }
    } else {
        lemma_b64_encode_label_bytes(s.skip(3));
        let tail = b64_encode(s.skip(3));
        assert forall|i: int| 0 <= i < e.len() implies is_label_byte(e[i]) by {
            lemma_b64_char_label((s[0] as int) / 4);
            lemma_b64_char_label(((s[0] as int) % 4) * 16 + (s[1] as int) / 16);
            lemma_b64_char_label(((s[1] as int) % 16) * 4 + (s[2] as int) / 64);
            lemma_b64_char_label((s[2] as int) % 64);
            if i >= 4 {
                assert(e[i] == tail[i - 4]);
                assert(is_label_byte(tail[i - 4]));
            }
        }
    }
}

/// Every alphabet byte is a valid address label byte.
proof fn lemma_b64_char_label(x: int)
    requires
        0 <= x < 64,
    ensures
        is_label_byte(b64_char(x)),
{
}

/// Alphabet round trip: the value of the byte for `x` is `x`.
proof fn lemma_b64_char_val(x: int)
    requires
        0 <= x < 64,
    ensures
        b64_val(b64_char(x)) == x,
{
}

/// Encoding splits over concatenation when the first part's length is a
/// multiple of three.
pub proof fn lemma_b64_encode_append(a: Seq<u8>, b: Seq<u8>)
    requires
        a.len() % 3 == 0,
    ensures
        b64_encode(a + b) == b64_encode(a) + b64_encode(b),
    decreases a.len(),
{
    if a.len() == 0 {
        assert(a + b =~= b);
        assert(b64_encode(a) + b64_encode(b) =~= b64_encode(b));
    } else {
        let ab = a + b;
        assert(a.len() >= 3);
        if ab.len() <= 2 {
        } else {
            assert(ab[0] == a[0] && ab[1] == a[1] && ab[2] == a[2]);
            assert(ab.skip(3) =~= a.skip(3) + b);
            assert(a.skip(3).len() % 3 == 0);
            lemma_b64_encode_append(a.skip(3), b);
            let head = seq![
                b64_char((a[0] as int) / 4),
                b64_char(((a[0] as int) % 4) * 16 + (a[1] as int) / 16),
                b64_char(((a[1] as int) % 16) * 4 + (a[2] as int) / 64),
                b64_char((a[2] as int) % 64),
            ];
            assert(b64_encode(ab) == head + (b64_encode(a.skip(3)) + b64_encode(b)));
            assert(head + (b64_encode(a.skip(3)) + b64_encode(b)) =~= (head + b64_encode(a.skip(3)))
                + b64_encode(b));
        }
    }
}

/// Round trip: decoding an encoding gives back the original bytes.
#[verifier::rlimit(100)]
#[verifier::spinoff_prover]
pub proof fn lemma_b64_decode_encode(s: Seq<u8>)
    ensures
        b64_decode(b64_encode(s)) == Some(s),
    decreases s.len(),
{
    let e = b64_encode(s);
    if s.len() == 0 {
        assert(s =~= Seq::<u8>::empty());
    } else if s.len() == 1 {
        let b0 = s[0] as int;
        lemma_b64_char_val(b0 / 4);
        lemma_b64_char_val((b0 % 4) * 16);
        assert(b64_val(e[0]) == b0 / 4);
        assert(b64_val(e[1]) == (b0 % 4) * 16);
        assert((b0 / 4) * 4 + ((b0 % 4) * 16) / 16 == b0);
        assert(b64_decode(e) == Some(seq![(b0) as u8]));
        assert(seq![(b0) as u8] =~= s);
    } else if s.len() == 2 {
        let b0 = s[0] as int;
        let b1 = s[1] as int;
        lemma_b64_char_val(b0 / 4);
        lemma_b64_char_val((b0 % 4) * 16 + b1 / 16);
        lemma_b64_char_val((b1 % 16) * 4);
        let v0 = b64_val(e[0]);
        let v1 = b64_val(e[1]);
        let v2 = b64_val(e[2]);
        assert(v0 * 4 + v1 / 16 == b0);
        assert((v1 % 16) * 16 + v2 / 4 == b1);
        assert(b64_decode(e) == Some(seq![(b0) as u8, (b1) as u8]));
        assert(seq![(b0) as u8, (b1) as u8] =~= s);
    } else {
        let b0 = s[0] as int;
        let b1 = s[1] as int;
        let b2 = s[2] as int;
        lemma_b64_char_val(b0 / 4);
        lemma_b64_char_val((b0 % 4) * 16 + b1 / 16);
        lemma_b64_char_val((b1 % 16) * 4 + b2 / 64);
        lemma_b64_char_val(b2 % 64);
        let v0 = b64_val(e[0]);
        let v1 = b64_val(e[1]);
        let v2 = b64_val(e[2]);
        let v3 = b64_val(e[3]);
        assert(v0 * 4 + v1 / 16 == b0);
        assert((v1 % 16) * 16 + v2 / 4 == b1);
        assert((v2 % 4) * 64 + v3 == b2);
        lemma_b64_decode_encode(s.skip(3));
        lemma_b64_encode_len(s.skip(3));
        assert(e.len() >= 4);
        assert(e.skip(4) =~= b64_encode(s.skip(3)));
        assert(b64_decode(e) == Some(seq![(b0) as u8, (b1) as u8, (b2) as u8] + s.skip(3)));
        assert(seq![(b0) as u8, (b1) as u8, (b2) as u8] + s.skip(3) =~= s);
    }
}

/// The alphabet byte for a six-bit value.
fn b64_char_exec(x: u8) -> (r: u8)
    requires
        x < 64,
    ensures
        r == b64_char(x as int),
{
    if x < 26 {
        65 + x
    } else if x < 52 {
        97 + x - 26
    } else if x < 62 {
        48 + x - 52
    } else if x == 62 {
        45
    } else {
        95
    }
}

/// The six-bit value of an alphabet byte, if it is one.
fn b64_val_exec(c: u8) -> (r: Option<u8>)
    ensures
        match r {
            Some(v) => b64_val(c) == v as int,
            None => b64_val(c) < 0,
        },
{
    if 65 <= c && c <= 90 {
        Some(c - 65)
    } else if 97 <= c && c <= 122 {
        Some(c - 97 + 26)
    } else if 48 <= c && c <= 57 {
        Some(c - 48 + 52)
    } else if c == 45 {
        Some(62)
    } else if c == 95 {
        Some(63)
    } else {
        None
    }
}

/// Encodes `v` as URL-safe unpadded base64.
pub fn b64_encode_bytes(v: &Vec<u8>) -> (r: Vec<u8>)
    ensures
        r@ == b64_encode(v@),
{
    let n = v.len();
    let mut out: Vec<u8> = Vec::new();
    let mut i: usize = 0;
    proof {
        assert(v@.take(0) =~= Seq::<u8>::empty());
    }
    while n - i >= 3
        invariant
            i <= n == v@.len(),
            i % 3 == 0,
            out@ == b64_encode(v@.take(i as int)),
        decreases n - i,
    {
        let b0 = v[i];
        let b1 = v[i + 1];
        let b2 = v[i + 2];
        out.push(b64_char_exec(b0 / 4));
        out.push(b64_char_exec((b0 % 4) * 16 + b1 / 16));
        out.push(b64_char_exec((b1 % 16) * 4 + b2 / 64));
        out.push(b64_char_exec(b2 % 64));
        proof {
            let chunk = v@.subrange(i as int, i as int + 3);
            lemma_b64_encode_append(v@.take(i as int), chunk);
            assert(v@.take(i as int + 3) =~= v@.take(i as int) + chunk);
            assert(chunk.skip(3) =~= Seq::<u8>::empty());
            assert(b64_encode(Seq::<u8>::empty()) =~= Seq::<u8>::empty());
            assert(b64_encode(chunk) =~= seq![
                b64_char((chunk[0] as int) / 4),
                b64_char(((chunk[0] as int) % 4) * 16 + (chunk[1] as int) / 16),
                b64_char(((chunk[1] as int) % 16) * 4 + (chunk[2] as int) / 64),
                b64_char((chunk[2] as int) % 64),
            ]);
            assert(out@ =~= b64_encode(v@.take(i as int + 3)));
        }
        i = i + 3;
    }
    let rem = n - i;
    if rem == 1 {
        let b0 = v[i];
        out.push(b64_char_exec(b0 / 4));
        out.push(b64_char_exec((b0 % 4) * 16));
        proof {
            let chunk = v@.subrange(i as int, i as int + 1);
            lemma_b64_encode_append(v@.take(i as int), chunk);
            assert(v@.take(n as int) =~= v@.take(i as int) + chunk);
            assert(b64_encode(chunk) =~= seq![
                b64_char((chunk[0] as int) / 4),
                b64_char(((chunk[0] as int) % 4) * 16),
            ]);
            assert(out@ =~= b64_encode(v@.take(n as int)));
        }
    } else if rem == 2 {
        let b0 = v[i];
        let b1 = v[i + 1];
        out.push(b64_char_exec(b0 / 4));
        out.push(b64_char_exec((b0 % 4) * 16 + b1 / 16));
        out.push(b64_char_exec((b1 % 16) * 4));
        proof {
            let chunk = v@.subrange(i as int, i as int + 2);
            lemma_b64_encode_append(v@.take(i as int), chunk);
            assert(v@.take(n as int) =~= v@.take(i as int) + chunk);
            assert(b64_encode(chunk) =~= seq![
                b64_char((chunk[0] as int) / 4),
                b64_char(((chunk[0] as int) % 4) * 16 + (chunk[1] as int) / 16),
                b64_char(((chunk[1] as int) % 16) * 4),
            ]);
            assert(out@ =~= b64_encode(v@.take(n as int)));
        }
    }
    proof {
        assert(v@.take(n as int) =~= v@);
    }
    out
}

/// Prepends `a` to a decode result.
pub open spec fn opt_bytes_prepend(a: Seq<u8>, o: Option<Seq<u8>>) -> Option<Seq<u8>> {
    match o {
        None => None,
        Some(t) => Some(a + t),
    }
}

proof fn lemma_opt_bytes_prepend_assoc(a: Seq<u8>, b: Seq<u8>, o: Option<Seq<u8>>)
    ensures
        opt_bytes_prepend(a, opt_bytes_prepend(b, o)) == opt_bytes_prepend(a + b, o),
{
    match o {
        None => {
        },
        Some(t) => {
            assert(a + (b + t) =~= (a + b) + t);
        },
    }
}

/// Decodes URL-safe unpadded base64; rejects bytes outside the alphabet and
/// impossible lengths.
#[verifier::rlimit(100)]
pub fn b64_decode_bytes(v: &Vec<u8>) -> (r: Option<Vec<u8>>)
    ensures
        match r {
            Some(d) => b64_decode(v@) == Some(d@),
            None => b64_decode(v@) is None,
        },
{
    let n = v.len();
    let mut out: Vec<u8> = Vec::new();
    let mut i: usize = 0;
    proof {
        assert(oer_suffix(v@, 0) =~= v@);
    }
    while n - i >= 4
        invariant
            i <= n == v@.len(),
            b64_decode(v@) == opt_bytes_prepend(out@, b64_decode(oer_suffix(v@, i as int))),
        decreases n - i,
    {
        let s = Ghost(oer_suffix(v@, i as int));
        let v0 = match b64_val_exec(v[i]) {
            Some(x) => x,
            None => {
                return None;
            },
        };
        let v1 = match b64_val_exec(v[i + 1]) {
            Some(x) => x,
            None => {
                return None;
            },
        };
        let v2 = match b64_val_exec(v[i + 2]) {
            Some(x) => x,
            None => {
                return None;
            },
        };
        let v3 = match b64_val_exec(v[i + 3]) {
            Some(x) => x,
            None => {
                return None;
            },
        };
        proof {
            assert(s@[0] == v@[i as int] && s@[1] == v@[i as int + 1] && s@[2] == v@[i as int + 2]
                && s@[3] == v@[i as int + 3]);
            assert(s@.skip(4) =~= oer_suffix(v@, i as int + 4));
        }
        let ghost prev_out = out@;
        out.push(v0 * 4 + v1 / 16);
        out.push((v1 % 16) * 16 + v2 / 4);
        out.push((v2 % 4) * 64 + v3);
        proof {
            let chunk = seq![
                (b64_val(s@[0]) * 4 + b64_val(s@[1]) / 16) as u8,
                ((b64_val(s@[1]) % 16) * 16 + b64_val(s@[2]) / 4) as u8,
                ((b64_val(s@[2]) % 4) * 64 + b64_val(s@[3])) as u8,
            ];
            assert(out@ =~= prev_out + chunk);
            assert(b64_decode(s@) == opt_bytes_prepend(
                chunk,
                b64_decode(oer_suffix(v@, i as int + 4)),
            ));
            lemma_opt_bytes_prepend_assoc(
                prev_out,
                chunk,
                b64_decode(oer_suffix(v@, i as int + 4)),
            );
        }
        i = i + 4;
    }
    let rem = n - i;
    if rem == 1 {
        proof {
            assert(oer_suffix(v@, i as int).len() == 1);
        }
        return None;
    }
    if rem == 2 {
        let s = Ghost(oer_suffix(v@, i as int));
        let v0 = match b64_val_exec(v[i]) {
            Some(x) => x,
            None => {
                return None;
            },
        };
        let v1 = match b64_val_exec(v[i + 1]) {
            Some(x) => x,
            None => {
                return None;
            },
        };
        proof {
            assert(s@[0] == v@[i as int] && s@[1] == v@[i as int + 1]);
        }
        let ghost prev_out = out@;
        out.push(v0 * 4 + v1 / 16);
        proof {
            let chunk = seq![(b64_val(s@[0]) * 4 + b64_val(s@[1]) / 16) as u8];
            assert(out@ =~= prev_out + chunk);
            assert(b64_decode(s@) == Some(chunk));
        }
    } else if rem == 3 {
        let s = Ghost(oer_suffix(v@, i as int));
        let v0 = match b64_val_exec(v[i]) {
            Some(x) => x,
            None => {
                return None;
            },
        };
        let v1 = match b64_val_exec(v[i + 1]) {
            Some(x) => x,
            None => {
                return None;
            },
        };
        let v2 = match b64_val_exec(v[i + 2]) {
            Some(x) => x,
            None => {
                return None;
            },
        };
        proof {
            assert(s@[0] == v@[i as int] && s@[1] == v@[i as int + 1] && s@[2] == v@[i as int + 2]);
        }
        let ghost prev_out = out@;
        out.push(v0 * 4 + v1 / 16);
        out.push((v1 % 16) * 16 + v2 / 4);
        proof {
            let chunk = seq![
                (b64_val(s@[0]) * 4 + b64_val(s@[1]) / 16) as u8,
                ((b64_val(s@[1]) % 16) * 16 + b64_val(s@[2]) / 4) as u8,
            ];
            assert(out@ =~= prev_out + chunk);
            assert(b64_decode(s@) == Some(chunk));
        }
    } else {
        proof {
            assert(oer_suffix(v@, i as int).len() == 0);
            assert(b64_decode(oer_suffix(v@, i as int)) == Some(Seq::<u8>::empty()));
            assert(out@ + Seq::<u8>::empty() =~= out@);
        }
    }
    Some(out)
}

} // verus!
