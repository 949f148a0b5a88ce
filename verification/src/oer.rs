//! Canonical OER primitives used by the STREAM wire format: length
//! determinants, variable-length octet strings and variable-length unsigned
//! integers, with round-trip proofs between the encoders and the decoders.

use vstd::prelude::*;

use crate::ParseError;

verus! {

/// 256 raised to the power `k`.
pub open spec fn pow256(k: nat) -> nat
    decreases k,
{
    if k == 0 {
        1
    } else {
        256 * pow256((k - 1) as nat)
    }
}

/// Minimal big-endian representation of `n`: always at least one byte, and no
/// leading zero byte unless `n == 0`.
pub open spec fn min_be(n: nat) -> Seq<u8>
    decreases n,
{
    if n < 256 {
        seq![n as u8]
    } else {
        min_be(n / 256) + seq![(n % 256) as u8]
    }
}

/// Value of a big-endian byte string.
pub open spec fn be_val(s: Seq<u8>) -> nat
    decreases s.len(),
{
    if s.len() == 0 {
        0
    } else {
        (256 * be_val(s.drop_last()) + s.last()) as nat
    }
}

/// OER length determinant: lengths below 128 take one byte, larger lengths use
/// the high-bit length-of-length form.
pub open spec fn enc_len_det(n: nat) -> Seq<u8> {
    if n < 128 {
        seq![n as u8]
    } else {
        seq![(128 + min_be(n).len()) as u8] + min_be(n)
    }
}

/// A length-prefixed octet string.
pub open spec fn enc_var_octet(s: Seq<u8>) -> Seq<u8> {
    enc_len_det(s.len()) + s
}

/// A variable-length unsigned integer: the minimal big-endian bytes of `x`,
/// length-prefixed.
pub open spec fn enc_var_uint(x: u64) -> Seq<u8> {
    enc_var_octet(min_be(x as nat))
}

/// Reads a length determinant from the front of `b`; returns the length and
/// the remaining bytes. A determinant with a zero length-of-length or with a
/// length-of-length above 8 is rejected.
pub open spec fn take_len_det(b: Seq<u8>) -> Option<(nat, Seq<u8>)> {
    if b.len() == 0 {
        None
    } else if b[0] < 128 {
        Some((b[0] as nat, b.skip(1)))
    } else if b[0] == 128 {
        None
    } else {
        let k = (b[0] - 128) as nat;
        if k > 8 || b.len() < 1 + k {
            None
        } else {
            Some((be_val(b.subrange(1, 1 + k as int)), b.skip(1 + k as int)))
        }
    }
}

/// Reads a length-prefixed octet string from the front of `b`; returns the
/// contents and the remaining bytes.
pub open spec fn take_var_octet(b: Seq<u8>) -> Option<(Seq<u8>, Seq<u8>)> {
    match take_len_det(b) {
        None => None,
        Some((n, rest)) => if rest.len() < n {
            None
        } else {
            Some((rest.take(n as int), rest.skip(n as int)))
        },
    }
}

/// Reads a variable-length unsigned integer from the front of `b`. Contents of
/// zero or more than eight bytes are rejected.
pub open spec fn take_var_uint(b: Seq<u8>) -> Option<(u64, Seq<u8>)> {
    match take_var_octet(b) {
        None => None,
        Some((s, rest)) => if s.len() == 0 || s.len() > 8 {
            None
        } else {
            Some(((be_val(s) as u64), rest))
        },
    }
}

/// Like `take_var_uint`, but contents longer than eight bytes saturate to
/// `u64::MAX` instead of failing.
pub open spec fn take_sat_var_uint(b: Seq<u8>) -> Option<(u64, Seq<u8>)> {
    match take_var_octet(b) {
        None => None,
        Some((s, rest)) => if s.len() == 0 {
            None
        } else if s.len() > 8 {
            Some((u64::MAX, rest))
        } else {
            Some(((be_val(s) as u64), rest))
        },
    }
}

/// The suffix of `b` starting at `pos`.
pub open spec fn suffix(b: Seq<u8>, pos: int) -> Seq<u8> {
    b.subrange(pos, b.len() as int)
}

pub proof fn lemma_pow256_pos(k: nat)
    ensures
        pow256(k) >= 1,
    decreases k,
{
    if k > 0 {
        lemma_pow256_pos((k - 1) as nat);
    }
}

pub proof fn lemma_pow256_mono(a: nat, b: nat)
    requires
        a <= b,
    ensures
        pow256(a) <= pow256(b),
    decreases b,
{
    if a < b {
        lemma_pow256_mono(a, (b - 1) as nat);
        lemma_pow256_pos((b - 1) as nat);
    }
}

pub proof fn lemma_pow256_64()
    ensures
        pow256(8) == 0x1_0000_0000_0000_0000,
{
    reveal_with_fuel(pow256, 9);
}

/// The minimal big-endian form of any `n < 256^k` takes at most `k` bytes.
pub proof fn lemma_min_be_len_le(n: nat, k: nat)
    requires
        1 <= k,
        n < pow256(k),
    ensures
        1 <= min_be(n).len() <= k,
    decreases k,
{
    if n >= 256 {
        if k == 1 {
            assert(pow256(1) == 256) by {
                reveal_with_fuel(pow256, 2);
            }
        } else {
            assert(pow256(k) == 256 * pow256((k - 1) as nat));
            lemma_min_be_len_le(n / 256, (k - 1) as nat);
        }
    }
}

/// Decoding the minimal big-endian form of `n` gives back `n`.
pub proof fn lemma_be_val_min_be(n: nat)
    ensures
        be_val(min_be(n)) == n,
    decreases n,
{
    if n < 256 {
        let s = min_be(n);
        assert(s =~= seq![n as u8]);
        assert(s.drop_last() =~= Seq::<u8>::empty());
        assert(be_val(s.drop_last()) == 0);
        assert(be_val(s) == (256 * be_val(s.drop_last()) + s.last()) as nat);
        assert(s.last() == n as u8);
    } else {
        lemma_be_val_min_be(n / 256);
        let s = min_be(n);
        assert(s =~= min_be(n / 256) + seq![(n % 256) as u8]);
        assert(s.drop_last() =~= min_be(n / 256));
        assert(s.last() == (n % 256) as u8);
        assert(be_val(s) == (256 * be_val(s.drop_last()) + s.last()) as nat);
        assert(be_val(s) == (256 * (n / 256) + n % 256) as nat);
    }
}

/// Any `k`-byte string decodes to a value below `256^k`.
pub proof fn lemma_be_val_bound(s: Seq<u8>)
    ensures
        be_val(s) < pow256(s.len()),
    decreases s.len(),
{
    if s.len() == 0 {
    } else {
        lemma_be_val_bound(s.drop_last());
    }
}

/// Reading a length determinant from an encoded determinant followed by
/// anything yields the encoded length and the trailing bytes.
pub proof fn lemma_take_len_det_enc(n: nat, rest: Seq<u8>)
    requires
        n < pow256(8),
    ensures
        take_len_det(enc_len_det(n) + rest) == Some((n, rest)),
{
    let b = enc_len_det(n) + rest;
    if n < 128 {
        assert(b[0] == n as u8);
        assert(b.skip(1) =~= rest);
    } else {
        lemma_min_be_len_le(n, 8);
        let k = min_be(n).len();
        assert(b[0] == (128 + k) as u8);
        assert(b.len() >= 1 + k);
        assert(b.subrange(1, 1 + k as int) =~= min_be(n));
        lemma_be_val_min_be(n);
        assert(b.skip(1 + k as int) =~= rest);
    }
}

/// Reading a var octet string from an encoded one followed by anything yields
/// the encoded contents and the trailing bytes.
pub proof fn lemma_take_var_octet_enc(s: Seq<u8>, rest: Seq<u8>)
    requires
        s.len() < pow256(8),
    ensures
        take_var_octet(enc_var_octet(s) + rest) == Some((s, rest)),
{
    let b = enc_var_octet(s) + rest;
    assert(b =~= enc_len_det(s.len()) + (s + rest));
    lemma_take_len_det_enc(s.len(), s + rest);
    let tail = s + rest;
    assert(tail.take(s.len() as int) =~= s);
    assert(tail.skip(s.len() as int) =~= rest);
}

/// Reading a var uint from an encoded one followed by anything yields the
/// encoded value and the trailing bytes.
pub proof fn lemma_take_var_uint_enc(x: u64, rest: Seq<u8>)
    ensures
        take_var_uint(enc_var_uint(x) + rest) == Some((x, rest)),
        take_sat_var_uint(enc_var_uint(x) + rest) == Some((x, rest)),
{
    lemma_pow256_64();
    lemma_min_be_len_le(x as nat, 8);
    lemma_take_var_octet_enc(min_be(x as nat), rest);
    lemma_be_val_min_be(x as nat);
}

/// A var octet string always consumes at least one byte beyond its contents.
pub proof fn lemma_take_var_octet_consumes(s: Seq<u8>)
    ensures
        match take_var_octet(s) {
            Some((c, rest)) => c.len() + rest.len() < s.len(),
            None => true,
        },
{
    match take_len_det(s) {
        None => {
        },
        Some((n, r0)) => {
            assert(r0.len() <= s.len() - 1);
        },
    }
}

/// A var uint always consumes at least one byte.
pub proof fn lemma_take_var_uint_consumes(s: Seq<u8>)
    ensures
        match take_var_uint(s) {
            Some((x, rest)) => rest.len() < s.len(),
            None => true,
        },
{
    lemma_take_var_octet_consumes(s);
}

/// Reads the byte at `pos`.
pub fn read_u8(b: &Vec<u8>, pos: usize) -> (r: Result<u8, ParseError>)
    ensures
        match r {
            Ok(x) => pos < b@.len() && x == b@[pos as int],
            Err(_) => pos >= b@.len(),
        },
{
    if pos < b.len() {
        Ok(b[pos])
    } else {
        Err(ParseError::InvalidPacket)
    }
}

/// Reads the big-endian value of `b[start..end]`.
fn read_be(b: &Vec<u8>, start: usize, end: usize) -> (val: u64)
    requires
        start <= end <= b@.len(),
        end - start <= 8,
    ensures
        val == be_val(b@.subrange(start as int, end as int)),
{
    let mut val: u64 = 0;
    let mut i: usize = start;
    proof {
        assert(b@.subrange(start as int, start as int) =~= Seq::<u8>::empty());
    }
    while i < end
        invariant
            start <= i <= end <= b@.len(),
            end - start <= 8,
            val == be_val(b@.subrange(start as int, i as int)),
            val < pow256((i - start) as nat),
        decreases end - i,
    {
        proof {
            let cur = b@.subrange(start as int, i as int);
            let next = b@.subrange(start as int, i as int + 1);
            assert(next.drop_last() =~= cur);
            assert(next.last() == b@[i as int]);
            lemma_pow256_mono((i - start + 1) as nat, 8);
            lemma_pow256_64();
        }
        val = val * 256 + (b[i] as u64);
        i = i + 1;
    }
    val
}

/// Reads a length determinant at `pos`; returns the length and the position
/// after the determinant.
pub fn read_len_det(b: &Vec<u8>, pos: usize) -> (r: Result<(u64, usize), ParseError>)
    requires
        pos <= b@.len(),
    ensures
        match r {
            Ok((n, p2)) => pos < p2 <= b@.len() && take_len_det(suffix(b@, pos as int)) == Some(
                ((n as nat), suffix(b@, p2 as int)),
            ),
            Err(_) => take_len_det(suffix(b@, pos as int)) is None,
        },
{
    let s = Ghost(suffix(b@, pos as int));
    if pos >= b.len() {
        return Err(ParseError::InvalidPacket);
    }
    let b0 = b[pos];
    assert(s@[0] == b0);
    if b0 < 128 {
        proof {
            assert(s@.skip(1) =~= suffix(b@, pos as int + 1));
        }
        Ok(((b0 as u64), pos + 1))
    } else if b0 == 128 {
        Err(ParseError::InvalidPacket)
    } else {
        let k = (b0 - 128) as usize;
        if k > 8 || b.len() - (pos + 1) < k {
            assert(s@.len() == b@.len() - pos);
            Err(ParseError::InvalidPacket)
        } else {
            let val = read_be(b, pos + 1, pos + 1 + k);
            proof {
                assert(s@.subrange(1, 1 + k as int) =~= b@.subrange(
                    pos as int + 1,
                    pos as int + 1 + k as int,
                ));
                assert(s@.skip(1 + k as int) =~= suffix(b@, pos as int + 1 + k as int));
                lemma_be_val_bound(b@.subrange(pos as int + 1, pos as int + 1 + k as int));
                lemma_pow256_mono(k as nat, 8);
                lemma_pow256_64();
            }
            Ok((val, pos + 1 + k))
        }
    }
}

/// Reads a var octet string at `pos`; returns the start and end of its
/// contents. The position after the string is the returned end.
pub fn read_var_octet(b: &Vec<u8>, pos: usize) -> (r: Result<(usize, usize), ParseError>)
    requires
        pos <= b@.len(),
    ensures
        match r {
            Ok((cs, ce)) => pos < cs <= ce <= b@.len() && take_var_octet(suffix(b@, pos as int))
                == Some((b@.subrange(cs as int, ce as int), suffix(b@, ce as int))),
            Err(_) => take_var_octet(suffix(b@, pos as int)) is None,
        },
{
    match read_len_det(b, pos) {
        Err(e) => Err(e),
        Ok((n, p2)) => {
            if n > (b.len() - p2) as u64 {
                Err(ParseError::InvalidPacket)
            } else {
                let ce = p2 + (n as usize);
                proof {
                    let rest = suffix(b@, p2 as int);
                    assert(rest.take(n as int) =~= b@.subrange(p2 as int, ce as int));
                    assert(rest.skip(n as int) =~= suffix(b@, ce as int));
                }
                Ok((p2, ce))
            }
        },
    }
}

/// Reads a var uint at `pos`; returns the value and the position after it.
pub fn read_var_uint(b: &Vec<u8>, pos: usize) -> (r: Result<(u64, usize), ParseError>)
    requires
        pos <= b@.len(),
    ensures
        match r {
            Ok((x, p2)) => pos < p2 <= b@.len() && take_var_uint(suffix(b@, pos as int)) == Some(
                (x, suffix(b@, p2 as int)),
            ),
            Err(_) => take_var_uint(suffix(b@, pos as int)) is None,
        },
{
    match read_var_octet(b, pos) {
        Err(e) => Err(e),
        Ok((cs, ce)) => {
            if ce - cs == 0 || ce - cs > 8 {
                Err(ParseError::InvalidPacket)
            } else {
                let val = read_be(b, cs, ce);
                proof {
                    lemma_be_val_bound(b@.subrange(cs as int, ce as int));
                    lemma_pow256_mono((ce - cs) as nat, 8);
                    lemma_pow256_64();
                }
                Ok((val, ce))
            }
        },
    }
}

/// Reads a var uint at `pos`, saturating to `u64::MAX` when the encoding is
/// longer than eight bytes.
pub fn read_sat_var_uint(b: &Vec<u8>, pos: usize) -> (r: Result<(u64, usize), ParseError>)
    requires
        pos <= b@.len(),
    ensures
        match r {
            Ok((x, p2)) => pos < p2 <= b@.len() && take_sat_var_uint(suffix(b@, pos as int))
                == Some((x, suffix(b@, p2 as int))),
            Err(_) => take_sat_var_uint(suffix(b@, pos as int)) is None,
        },
{
    match read_var_octet(b, pos) {
        Err(e) => Err(e),
        Ok((cs, ce)) => {
            if ce - cs == 0 {
                Err(ParseError::InvalidPacket)
            } else if ce - cs > 8 {
                Ok((u64::MAX, ce))
            } else {
                let val = read_be(b, cs, ce);
                proof {
                    lemma_be_val_bound(b@.subrange(cs as int, ce as int));
                    lemma_pow256_mono((ce - cs) as nat, 8);
                    lemma_pow256_64();
                }
                Ok((val, ce))
            }
        },
    }
}

/// Appends the minimal big-endian bytes of `x` to `buf`.
pub fn write_min_be(buf: &mut Vec<u8>, x: u64)
    ensures
        final(buf)@ == old(buf)@ + min_be(x as nat),
    decreases x,
{
    if x < 256 {
        buf.push(x as u8);
        assert(buf@ =~= old(buf)@ + min_be(x as nat));
    } else {
        write_min_be(buf, x / 256);
        buf.push((x % 256) as u8);
        assert(buf@ =~= old(buf)@ + min_be(x as nat));
    }
}

/// Number of bytes in the minimal big-endian form of `x`.
pub fn min_be_len(x: u64) -> (k: usize)
    ensures
        k == min_be(x as nat).len(),
        1 <= k <= 8,
    decreases x,
{
    if x < 256 {
        1
    } else {
        proof {
            lemma_pow256_64();
            lemma_min_be_len_le(x as nat, 8);
        }
        1 + min_be_len(x / 256)
    }
}

/// Appends the length determinant for `n` to `buf`.
pub fn write_len_det(buf: &mut Vec<u8>, n: usize)
    ensures
        final(buf)@ == old(buf)@ + enc_len_det(n as nat),
{
    if n < 128 {
        buf.push(n as u8);
        assert(buf@ =~= old(buf)@ + enc_len_det(n as nat));
    } else {
        let k = min_be_len(n as u64);
        buf.push((128 + k) as u8);
        write_min_be(buf, n as u64);
        assert(buf@ =~= old(buf)@ + enc_len_det(n as nat));
    }
}

/// Copies `b[start..end]` into a fresh vector.
pub fn copy_range(b: &Vec<u8>, start: usize, end: usize) -> (r: Vec<u8>)
    requires
        start <= end <= b@.len(),
    ensures
        r@ == b@.subrange(start as int, end as int),
{
    let mut out: Vec<u8> = Vec::new();
    let mut i: usize = start;
    proof {
        assert(out@ =~= b@.subrange(start as int, start as int));
    }
    while i < end
        invariant
            start <= i <= end <= b@.len(),
            out@ == b@.subrange(start as int, i as int),
        decreases end - i,
    {
        out.push(b[i]);
        i = i + 1;
        assert(out@ =~= b@.subrange(start as int, i as int));
    }
    out
}

/// Appends the bytes of `v` to `buf`.
pub fn append_bytes(buf: &mut Vec<u8>, v: &Vec<u8>)
    ensures
        final(buf)@ == old(buf)@ + v@,
{
    let mut i: usize = 0;
    proof {
        assert(buf@ =~= old(buf)@ + v@.take(0));
    }
    while i < v.len()
        invariant
            i <= v@.len(),
            buf@ == old(buf)@ + v@.take(i as int),
        decreases v@.len() - i,
    {
        buf.push(v[i]);
        i = i + 1;
        assert(buf@ =~= old(buf)@ + v@.take(i as int));
    }
    assert(v@.take(v@.len() as int) =~= v@);
}

/// Appends the var-octet-string encoding of `v` to `buf`.
pub fn write_var_octet(buf: &mut Vec<u8>, v: &Vec<u8>)
    ensures
        final(buf)@ == old(buf)@ + enc_var_octet(v@),
{
    write_len_det(buf, v.len());
    append_bytes(buf, v);
    assert(buf@ =~= old(buf)@ + enc_var_octet(v@));
}

/// Appends the var-uint encoding of `x` to `buf`.
pub fn write_var_uint(buf: &mut Vec<u8>, x: u64)
    ensures
        final(buf)@ == old(buf)@ + enc_var_uint(x),
{
    let k = min_be_len(x);
    write_len_det(buf, k);
    write_min_be(buf, x);
    assert(buf@ =~= old(buf)@ + enc_var_uint(x));
}

} // verus!
