//! The receiving side of STREAM: per-connection secrets derived from one
//! server secret and embedded authentically in ILP addresses, and the
//! stateless receiver that fulfills incoming Prepares.

use vstd::prelude::*;

use crate::address::{is_label_byte, valid_address, Address};
use crate::base64url::{
    b64_decode, b64_decode_bytes, b64_encode, b64_encode_bytes, lemma_b64_decode_encode,
    lemma_b64_encode_append, lemma_b64_encode_label_bytes, lemma_b64_encode_len,
};
use crate::crypto::{
    condition_of, decrypt_spec, fulfillment_of, generate_fulfillment, generate_token,
    hash_sha256, hmac_sha256, hmac_sha256_of, secret_generator_string,
    secret_generator_string_bytes,
};
use crate::ilp::{Fulfill, FulfillV, IlpErrorCode, Prepare, PrepareV, Reject, RejectV};
use crate::oer::copy_range;
use crate::packet::{
    enc_frame, enc_frame_contents, enc_frames, enc_packet, emitted_count,
    lemma_enc_var_octet_len, lemma_enc_var_uint_len, lemma_parse_packet_frames_len,
    packet_from_encrypted_spec, parse_packet, Frame, FrameV, PacketType, StreamPacket,
    StreamPacketBuilder, StreamMaxMoneyFrame,
};
use crate::ParseError;

verus! {

/// Position of the last `.` in `s`, or -1 if there is none.
pub open spec fn last_dot_index(s: Seq<u8>) -> int
    decreases s.len(),
{
    if s.len() == 0 {
        -1
    } else if s.last() == 0x2e {
        s.len() - 1
    } else {
        last_dot_index(s.drop_last())
    }
}

/// The bytes after the last `.` of `s` (all of `s` if it has no dot).
pub open spec fn last_segment(s: Seq<u8>) -> Seq<u8> {
    s.subrange(last_dot_index(s) + 1, s.len() as int)
}

/// What re-deriving a shared secret from a destination address yields, given
/// the generator value `g`: the last address segment must decode to 18 token
/// bytes and a 14-byte tag, and the tag must authenticate everything before
/// it.
pub open spec fn rederive_spec(g: Seq<u8>, dest: Seq<u8>) -> Option<Seq<u8>> {
    if dest.len() < 19 {
        None
    } else {
        match b64_decode(last_segment(dest)) {
            None => None,
            Some(lp) => if lp.len() != 32 {
                None
            } else {
                let secret = hmac_sha256_of(g, lp.take(18));
                if hmac_sha256_of(secret, dest.take(dest.len() - 19)).take(14) == lp.skip(18) {
                    Some(secret)
                } else {
                    None
                }
            },
        }
    }
}

/// A STREAM connection generator: derives `destination_account` and
/// `shared_secret` pairs from a single server secret, and re-derives the
/// secret from a destination it generated.
#[derive(Debug, Clone, PartialEq)]
pub struct ConnectionGenerator {
    secret_generator: Vec<u8>,
}

impl View for ConnectionGenerator {
    type V = Seq<u8>;

    closed spec fn view(&self) -> Seq<u8> {
        self.secret_generator@
    }
}

/// `last_dot_index` ignores a dot-free tail.
proof fn lemma_last_dot_append_nondot(s: Seq<u8>, t: Seq<u8>)
    requires
        forall|i: int| 0 <= i < t.len() ==> (#[trigger] t[i]) != 0x2e,
    ensures
        last_dot_index(s + t) == last_dot_index(s),
    decreases t.len(),
{
    if t.len() == 0 {
        assert(s + t =~= s);
    } else {
        let st = s + t;
        assert(st.last() == t.last());
        assert(st.drop_last() =~= s + t.drop_last());
        lemma_last_dot_append_nondot(s, t.drop_last());
    }
}

impl ConnectionGenerator {
    /// Builds a generator from a 32-byte server secret; the generator value
    /// is `HMAC-SHA256(server_secret, "ilp_stream_secret_generator")`.
    pub fn new(server_secret: &[u8]) -> (r: ConnectionGenerator)
        requires
            server_secret@.len() == 32,
        ensures
            r@ == hmac_sha256_of(server_secret@, secret_generator_string()),
    {
        let ctx = secret_generator_string_bytes();
        let g = hmac_sha256(server_secret, ctx.as_slice());
        ConnectionGenerator { secret_generator: vstd::slice::slice_to_vec(g.as_slice()) }
    }

    /// Generates a destination address and shared secret for `base_address`:
    /// an 18-byte random token is appended as a base64url segment, and a
    /// 14-byte keyed tag over the result is concatenated into that segment,
    /// binding the address text to the secret.
    pub fn generate_address_and_secret(&self, base_address: &Address) -> (r: (Address, [u8; 32]))
        requires
            base_address@.len() + 44 <= 1023,
        ensures
            exists|tok: Seq<u8>| #![trigger b64_encode(tok)]
                {
                    let addr1 = base_address@ + seq![0x2eu8] + b64_encode(tok);
                    &&& tok.len() == 18
                    &&& r.1@ == hmac_sha256_of(self@, tok)
                    &&& hmac_sha256_of(r.1@, addr1).len() == 32
                    &&& r.0@ == addr1 + b64_encode(hmac_sha256_of(r.1@, addr1).take(14))
                },
    {
        let token = generate_token();
        let token_vec = vstd::slice::slice_to_vec(token.as_slice());
        let shared_secret = hmac_sha256(self.secret_generator.as_slice(), token.as_slice());
        let enc_token = b64_encode_bytes(&token_vec);
        proof {
            lemma_b64_encode_len(token_vec@);
            lemma_b64_encode_label_bytes(token_vec@);
        }
        let addr1 = match base_address.with_suffix(&enc_token) {
            Ok(a) => a,
            Err(_) => {
                proof {
                    assert(false);
                }
                unreached()
            },
        };
        let tag_full = hmac_sha256(shared_secret.as_slice(), addr1.as_bytes().as_slice());
        let tag_vec = vstd::slice::slice_to_vec(tag_full.as_slice());
        let tag14 = copy_range(&tag_vec, 0, 14);
        let enc_tag = b64_encode_bytes(&tag14);
        proof {
            lemma_b64_encode_len(tag14@);
            lemma_b64_encode_label_bytes(tag14@);
        }
        let mut dest_bytes = vstd::slice::slice_to_vec(addr1.as_bytes().as_slice());
        crate::oer::append_bytes(&mut dest_bytes, &enc_tag);
        let destination = match Address::try_from(dest_bytes) {
            Ok(a) => a,
            Err(_) => {
                proof {
                    use_type_invariant(&addr1);
                    let a1 = addr1@;
                    let e = b64_encode(tag14@);
                    let d = a1 + e;
                    assert(valid_address(a1));
                    assert(e.len() == 19);
                    assert forall|i: int| 0 <= i < d.len() implies (is_label_byte(d[i]) || d[i]
                        == 0x2e) by {
                        if i < a1.len() {
                            assert(d[i] == a1[i]);
                        } else {
                            assert(d[i] == e[i - a1.len()]);
                        }
                    }
                    assert(d[0] == a1[0]);
                    assert(d[d.len() - 1] == e[e.len() - 1]);
                    assert(is_label_byte(d[d.len() - 1]));
                    assert forall|i: int| 0 <= i < d.len() - 1 implies !((#[trigger] d[i]) == 0x2e
                        && d[i + 1] == 0x2e) by {
                        if i < a1.len() - 1 {
                            assert(d[i] == a1[i] && d[i + 1] == a1[i + 1]);
                        } else if i == a1.len() - 1 {
                            assert(d[i + 1] == e[0]);
                            assert(is_label_byte(e[0]));
                        } else {
                            assert(d[i + 1] == e[i + 1 - a1.len()]);
                            assert(is_label_byte(d[i + 1]));
                        }
                    }
                    assert(valid_address(d));
                    assert(false);
                }
                unreached()
            },
        };
        proof {
            let tok = token@;
            let addr1s = base_address@ + seq![0x2eu8] + b64_encode(tok);
            assert(token_vec@ == tok);
            assert(addr1@ == addr1s);
            assert(tag14@ =~= hmac_sha256_of(shared_secret@, addr1s).take(14));
            assert(destination@ =~= addr1s + b64_encode(
                hmac_sha256_of(shared_secret@, addr1s).take(14),
            ));
        }
        (destination, shared_secret)
    }

    /// Re-derives the shared secret from a destination address: decodes the
    /// last segment into token and tag, recomputes the secret from the token,
    /// and accepts only if the tag authenticates the rest of the address.
    pub fn rederive_secret(&self, destination_account: &Address) -> (r: Result<
        [u8; 32],
        ParseError,
    >)
        ensures
            match r {
                Ok(secret) => rederive_spec(self@, destination_account@) == Some(secret@),
                Err(_) => rederive_spec(self@, destination_account@) is None,
            },
    {
        let dest = destination_account.as_bytes();
        let n = dest.len();
        if n < 19 {
            return Err(ParseError::InvalidPacket);
        }
        let mut i: usize = n;
        proof {
            assert(dest@.take(n as int) =~= dest@);
        }
        while i > 0 && dest[i - 1] != 0x2e
            invariant
                i <= n == dest@.len(),
                last_dot_index(dest@) == last_dot_index(dest@.take(i as int)),
                forall|j: int| i <= j < n ==> (#[trigger] dest@[j]) != 0x2e,
            decreases i,
        {
            proof {
                let cur = dest@.take(i as int);
                assert(cur.last() == dest@[i as int - 1]);
                assert(cur.drop_last() =~= dest@.take(i as int - 1));
            }
            i = i - 1;
        }
        proof {
            if i == 0 {
                assert(dest@.take(0) =~= Seq::<u8>::empty());
                assert(last_dot_index(dest@) == -1);
            } else {
                let cur = dest@.take(i as int);
                assert(cur.last() == dest@[i as int - 1]);
                assert(last_dot_index(cur) == i - 1);
            }
            assert(last_segment(dest@) =~= dest@.subrange(i as int, n as int));
        }
        let seg = copy_range(dest, i, n);
        let local_part = match b64_decode_bytes(&seg) {
            Some(v) => v,
            None => {
                return Err(ParseError::InvalidPacket);
            },
        };
        if local_part.len() != 32 {
            return Err(ParseError::InvalidPacket);
        }
        let token = copy_range(&local_part, 0, 18);
        let tag = copy_range(&local_part, 18, 32);
        let shared_secret = hmac_sha256(self.secret_generator.as_slice(), token.as_slice());
        let prefix = copy_range(dest, 0, n - 19);
        let expected = hmac_sha256(shared_secret.as_slice(), prefix.as_slice());
        let mut k: usize = 0;
        let mut same = true;
        proof {
            assert(expected@.take(0) =~= tag@.take(0));
        }
        while k < 14
            invariant
                k <= 14,
                tag@.len() == 14,
                expected@.len() == 32,
                same == (expected@.take(k as int) == tag@.take(k as int)),
            decreases 14 - k,
        {
            let ghost before = same;
            if expected[k] != tag[k] {
                same = false;
            }
            proof {
                let a = expected@.take(k as int + 1);
                let b = tag@.take(k as int + 1);
                if before && expected@[k as int] == tag@[k as int] {
                    assert(a =~= expected@.take(k as int).push(expected@[k as int]));
                    assert(b =~= tag@.take(k as int).push(tag@[k as int]));
                    assert(a == b);
                } else {
                    if a == b {
                        assert(a[k as int] == b[k as int]);
                        assert(expected@.take(k as int) =~= a.take(k as int));
                        assert(tag@.take(k as int) =~= b.take(k as int));
                    }
                    assert(a != b);
                }
            }
            k = k + 1;
        }
        proof {
            assert(tag@.take(14) =~= tag@);
            assert(token@ =~= local_part@.take(18));
            assert(tag@ =~= local_part@.skip(18));
            assert(prefix@ =~= dest@.take(n as int - 19));
            if same {
                assert(expected@.take(14) == tag@);
            } else {
                assert(expected@.take(14) != tag@);
            }
        }
        if same {
            Ok(shared_secret)
        } else {
            Err(ParseError::InvalidPacket)
        }
    }
}

/// Address round trip: re-deriving from a generated destination address
/// recovers exactly the generated shared secret. `tok` stands for the random
/// token drawn during generation, so this holds of every generation outcome.
pub proof fn lemma_rederive_generated(g: Seq<u8>, base: Seq<u8>, tok: Seq<u8>)
    requires
        valid_address(base),
        base.len() + 44 <= 1023,
        tok.len() == 18,
        hmac_sha256_of(g, tok).len() == 32,
        ({
            let secret = hmac_sha256_of(g, tok);
            let addr1 = base + seq![0x2eu8] + b64_encode(tok);
            hmac_sha256_of(secret, addr1).len() == 32
        }),
    ensures
        ({
            let secret = hmac_sha256_of(g, tok);
            let addr1 = base + seq![0x2eu8] + b64_encode(tok);
            let dest = addr1 + b64_encode(hmac_sha256_of(secret, addr1).take(14));
            rederive_spec(g, dest) == Some(secret)
        }),
{
    let secret = hmac_sha256_of(g, tok);
    let addr1 = base + seq![0x2eu8] + b64_encode(tok);
    let tag = hmac_sha256_of(secret, addr1).take(14);
    let dest = addr1 + b64_encode(tag);
    lemma_b64_encode_len(tok);
    lemma_b64_encode_len(tag);
    assert(b64_encode(tok).len() == 24);
    assert(b64_encode(tag).len() == 19);
    assert(dest.len() == base.len() + 44);
    lemma_b64_encode_label_bytes(tok);
    lemma_b64_encode_label_bytes(tag);
    let joined = b64_encode(tok) + b64_encode(tag);
    assert(dest =~= (base + seq![0x2eu8]) + joined);
    assert forall|i: int| 0 <= i < joined.len() implies (#[trigger] joined[i]) != 0x2e by {
        if i < 24 {
            assert(joined[i] == b64_encode(tok)[i]);
            assert(is_label_byte(joined[i]));
        } else {
            assert(joined[i] == b64_encode(tag)[i - 24]);
            assert(is_label_byte(joined[i]));
        }
    }
    lemma_last_dot_append_nondot(base + seq![0x2eu8], joined);
    assert((base + seq![0x2eu8]).last() == 0x2e);
    assert(last_dot_index(base + seq![0x2eu8]) == base.len());
    assert(last_dot_index(dest) == base.len());
    assert(last_segment(dest) =~= joined);
    lemma_b64_encode_append(tok, tag);
    assert(joined == b64_encode(tok + tag));
    lemma_b64_decode_encode(tok + tag);
    assert(b64_decode(last_segment(dest)) == Some(tok + tag));
    assert((tok + tag).len() == 32);
    assert((tok + tag).take(18) =~= tok);
    assert((tok + tag).skip(18) =~= tag);
    assert(dest.take(dest.len() - 19) =~= addr1);
    assert(hmac_sha256_of(secret, dest.take(dest.len() - 19)).take(14) == tag);
}

/// A destination extended with one more foreign segment never re-derives:
/// the new last segment is not a 32-byte token-and-tag encoding.
pub proof fn lemma_rederive_rejects_suffixed(g: Seq<u8>, d: Seq<u8>, suffix: Seq<u8>)
    requires
        suffix.len() >= 1,
        forall|i: int| 0 <= i < suffix.len() ==> is_label_byte(#[trigger] suffix[i]),
        match b64_decode(suffix) {
            None => true,
            Some(lp) => lp.len() != 32,
        },
    ensures
        rederive_spec(g, d + seq![0x2eu8] + suffix) is None,
{
    let dest = d + seq![0x2eu8] + suffix;
    if dest.len() >= 19 {
        assert(dest =~= (d + seq![0x2eu8]) + suffix);
        assert forall|i: int| 0 <= i < suffix.len() implies (#[trigger] suffix[i]) != 0x2e by {
            assert(is_label_byte(suffix[i]));
        }
        lemma_last_dot_append_nondot(d + seq![0x2eu8], suffix);
        assert((d + seq![0x2eu8]).last() == 0x2e);
        assert(last_dot_index(dest) == d.len());
        assert(last_segment(dest) =~= suffix);
    }
}

/// Builds the receiver's response frames: one `StreamMaxMoney` answering each
/// incoming `StreamMoney`, in order.
pub open spec fn response_frames(fs: Seq<FrameV>) -> Seq<FrameV>
    decreases fs.len(),
{
    if fs.len() == 0 {
        seq![]
    } else {
        let rest = response_frames(fs.skip(1));
        match fs[0] {
            FrameV::StreamMoney { stream_id, shares } => seq![
                FrameV::StreamMaxMoney {
                    stream_id,
                    receive_max: u64::MAX,
                    total_received: 0,
                },
            ] + rest,
            _ => rest,
        }
    }
}

/// `response_frames` distributes over concatenation.
proof fn lemma_response_frames_app(a: Seq<FrameV>, b: Seq<FrameV>)
    ensures
        response_frames(a + b) == response_frames(a) + response_frames(b),
    decreases a.len(),
{
    if a.len() == 0 {
        assert(a + b =~= b);
        assert(response_frames(a) + response_frames(b) =~= response_frames(b));
    } else {
        let ab = a + b;
        assert(ab[0] == a[0]);
        assert(ab.skip(1) =~= a.skip(1) + b);
        lemma_response_frames_app(a.skip(1), b);
        match a[0] {
            FrameV::StreamMoney { stream_id, shares } => {
                let head = seq![
                    FrameV::StreamMaxMoney { stream_id, receive_max: u64::MAX, total_received: 0 },
                ];
                assert(response_frames(ab) == head + (response_frames(a.skip(1))
                    + response_frames(b)));
                assert(head + (response_frames(a.skip(1)) + response_frames(b)) =~= (head
                    + response_frames(a.skip(1))) + response_frames(b));
            },
            _ => {
            },
        }
    }
}

/// A response frame is never the opaque `Unknown` frame.
proof fn lemma_response_frames_no_unknown(fs: Seq<FrameV>)
    ensures
        forall|i: int|
            0 <= i < response_frames(fs).len() ==> !((#[trigger] response_frames(fs)[i])
                is Unknown),
    decreases fs.len(),
{
    if fs.len() > 0 {
        lemma_response_frames_no_unknown(fs.skip(1));
        let rest = response_frames(fs.skip(1));
        match fs[0] {
            FrameV::StreamMoney { stream_id, shares } => {
                assert forall|i: int|
                    0 <= i < response_frames(fs).len() implies !(response_frames(fs)[i]
                    is Unknown) by {
                    if i > 0 {
                        assert(response_frames(fs)[i] == rest[i - 1]);
                    }
                }
            },
            _ => {
            },
        }
    }
}

/// The serialized response frames take at most forty bytes for each incoming
/// frame: only `StreamMoney` frames draw a response, and a `StreamMaxMoney`
/// frame encodes in under forty bytes.
proof fn lemma_enc_frames_response_len(fs: Seq<FrameV>)
    ensures
        enc_frames(response_frames(fs)).len() <= 40 * fs.len(),
    decreases fs.len(),
{
    crate::oer::lemma_pow256_64();
    if fs.len() == 0 {
        assert(response_frames(fs) =~= Seq::<FrameV>::empty());
    } else {
        lemma_enc_frames_response_len(fs.skip(1));
        match fs[0] {
            FrameV::StreamMoney { stream_id, shares } => {
                let smm = FrameV::StreamMaxMoney {
                    stream_id,
                    receive_max: u64::MAX,
                    total_received: 0,
                };
                lemma_enc_var_uint_len(stream_id);
                lemma_enc_var_uint_len(u64::MAX);
                lemma_enc_var_uint_len(0);
                assert(enc_frame_contents(smm).len() <= 27);
                lemma_enc_var_octet_len(enc_frame_contents(smm));
                assert(enc_frame(smm).len() <= 37);
                let r = response_frames(fs);
                assert(r == seq![smm] + response_frames(fs.skip(1)));
                assert(r[0] == smm);
                assert(r.skip(1) =~= response_frames(fs.skip(1)));
                assert(r.len() != 0);
                assert(enc_frames(r) == enc_frame(smm) + enc_frames(response_frames(fs.skip(1))));
            },
            _ => {
                assert(response_frames(fs) == response_frames(fs.skip(1)));
            },
        }
    }
}

/// Whether the receiver fulfills a Prepare: its STREAM payload decrypts and
/// parses, the execution condition matches the one derived from the shared
/// secret, and the amount covers the packet's minimum.
pub open spec fn receive_accepts(secret: Seq<u8>, p: PrepareV) -> bool {
    match packet_from_encrypted_spec(secret, p.data) {
        None => false,
        Some(sp) => condition_of(secret, p.data) == p.execution_condition && p.amount
            >= sp.prepare_amount,
    }
}

/// The STREAM packet the receiver answers with, for an accepted or refused
/// (but decryptable) Prepare.
pub open spec fn response_packet_spec(
    secret: Seq<u8>,
    p: PrepareV,
    t: PacketType,
) -> crate::packet::StreamPacketV
    recommends
        packet_from_encrypted_spec(secret, p.data) is Some,
{
    let sp = packet_from_encrypted_spec(secret, p.data)->Some_0;
    crate::packet::StreamPacketV {
        sequence: sp.sequence,
        ilp_packet_type: t,
        prepare_amount: p.amount,
        frames: response_frames(sp.frames),
    }
}

/// What a Fulfill from the receiver looks like: the true fulfillment for the
/// Prepare's data, and an encrypted response packet of type Fulfill.
pub open spec fn fulfill_response_ok(secret: Seq<u8>, p: PrepareV, f: FulfillV) -> bool {
    &&& f.fulfillment == fulfillment_of(secret, p.data)
    &&& decrypt_spec(secret, f.data) == Some(
        enc_packet(response_packet_spec(secret, p, PacketType::Fulfill)),
    )
}

/// What a Reject from the receiver looks like: `F06` with empty data when the
/// payload cannot be decrypted, else `F99` with an encrypted response packet
/// of type Reject; either way triggered by the receiver's own address.
pub open spec fn reject_response_ok(
    secret: Seq<u8>,
    p: PrepareV,
    client: Seq<u8>,
    rej: RejectV,
) -> bool {
    &&& rej.triggered_by == Some(client)
    &&& if packet_from_encrypted_spec(secret, p.data) is None {
        rej.code == (IlpErrorCode { b0: 0x46, b1: 0x30, b2: 0x36 }) && rej.data.len() == 0
    } else {
        rej.code == (IlpErrorCode { b0: 0x46, b1: 0x39, b2: 0x39 }) && decrypt_spec(
            secret,
            rej.data,
        ) == Some(enc_packet(response_packet_spec(secret, p, PacketType::Reject)))
    }
}

/// Handles an incoming Prepare under an already re-derived shared secret:
/// checks the execution condition, decrypts the STREAM packet, and answers
/// with a Fulfill exactly when the packet is acceptable, else with a Reject.
/// The Prepare's data must lie within the ILP data payload limit of 32767
/// bytes.
#[verifier::rlimit(100)]
#[verifier::spinoff_prover]
pub fn receive_money(shared_secret: &[u8; 32], client_address: &Address, prepare: Prepare) -> (r:
    Result<Fulfill, Reject>)
    requires
        prepare@.data.len() <= 32767,
    ensures
        r is Ok <==> receive_accepts(shared_secret@, prepare@),
        match r {
            Ok(f) => fulfill_response_ok(shared_secret@, prepare@, f@),
            Err(rej) => reject_response_ok(shared_secret@, prepare@, client_address@, rej@),
        },
{
    let secret_slice = shared_secret.as_slice();
    let fulfillment = generate_fulfillment(secret_slice, prepare.data.as_slice());
    let condition = hash_sha256(fulfillment.as_slice());
    let mut is_fulfillable = true;
    let mut ci: usize = 0;
    proof {
        assert(condition@.take(0) =~= prepare.execution_condition@.take(0));
    }
    while ci < 32
        invariant
            ci <= 32,
            condition@.len() == 32,
            prepare.execution_condition@.len() == 32,
            is_fulfillable == (condition@.take(ci as int) == prepare.execution_condition@.take(
                ci as int,
            )),
        decreases 32 - ci,
    {
        let ghost before = is_fulfillable;
        if condition[ci] != prepare.execution_condition[ci] {
            is_fulfillable = false;
        }
        proof {
            let a = condition@.take(ci as int + 1);
            let b = prepare.execution_condition@.take(ci as int + 1);
            if before && condition@[ci as int] == prepare.execution_condition@[ci as int] {
                assert(a =~= condition@.take(ci as int).push(condition@[ci as int]));
                assert(b =~= prepare.execution_condition@.take(ci as int).push(
                    prepare.execution_condition@[ci as int],
                ));
                assert(a == b);
            } else {
                if a == b {
                    assert(a[ci as int] == b[ci as int]);
                    assert(condition@.take(ci as int) =~= a.take(ci as int));
                    assert(prepare.execution_condition@.take(ci as int) =~= b.take(ci as int));
                }
                assert(a != b);
            }
        }
        ci = ci + 1;
    }
    proof {
        assert(condition@.take(32) =~= condition@);
        assert(prepare.execution_condition@.take(32) =~= prepare.execution_condition@);
    }
    let prepare_amount = prepare.amount;
    let data_copy = crate::oer::copy_range(&prepare.data, 0, prepare.data.len());
    proof {
        assert(data_copy@ =~= prepare.data@);
    }
    let stream_packet = match StreamPacket::from_encrypted(secret_slice, data_copy) {
        Ok(p) => p,
        Err(_) => {
            return Err(
                Reject {
                    code: IlpErrorCode::f06_unexpected_payment(),
                    message: Vec::new(),
                    triggered_by: Some(client_address.clone()),
                    data: Vec::new(),
                },
            );
        },
    };
    let mut frames: Vec<Frame> = Vec::new();
    let incoming = stream_packet.frames();
    let n = incoming.len();
    let mut i: usize = 0;
    let ghost fv = crate::packet::frames_view(incoming@);
    proof {
        assert(fv.take(0) =~= Seq::<FrameV>::empty());
        assert(crate::packet::frames_view(frames@) =~= Seq::<FrameV>::empty());
    }
    while i < n
        invariant
            i <= n == incoming@.len(),
            fv == crate::packet::frames_view(incoming@),
            crate::packet::frames_view(frames@) == response_frames(fv.take(i as int)),
        decreases n - i,
    {
        let ghost prev = crate::packet::frames_view(frames@);
        match &incoming[i] {
            Frame::StreamMoney(m) => {
                frames.push(
                    Frame::StreamMaxMoney(
                        StreamMaxMoneyFrame {
                            stream_id: m.stream_id,
                            receive_max: u64::MAX,
                            total_received: 0,
                        },
                    ),
                );
            },
            _ => {
            },
        }
        proof {
            let single = seq![fv[i as int]];
            assert(fv.take(i as int + 1) =~= fv.take(i as int) + single);
            lemma_response_frames_app(fv.take(i as int), single);
            assert(single.skip(1) =~= Seq::<FrameV>::empty());
            assert(response_frames(Seq::<FrameV>::empty()) =~= Seq::<FrameV>::empty());
            match incoming@[i as int]@ {
                FrameV::StreamMoney { stream_id, shares } => {
                    assert(response_frames(single) =~= seq![
                        FrameV::StreamMaxMoney {
                            stream_id,
                            receive_max: u64::MAX,
                            total_received: 0,
                        },
                    ]);
                    assert(crate::packet::frames_view(frames@) =~= prev + response_frames(single));
                },
                _ => {
                    assert(response_frames(single) =~= Seq::<FrameV>::empty());
                    assert(crate::packet::frames_view(frames@) =~= prev + response_frames(single));
                },
            }
            assert(crate::packet::frames_view(frames@) == response_frames(fv.take(i as int + 1)));
        }
        i = i + 1;
    }
    proof {
        assert(fv.take(n as int) =~= fv);
        lemma_response_frames_no_unknown(fv);
        crate::packet::lemma_kept_frames_id(crate::packet::frames_view(frames@));
        match crate::crypto::decrypt_spec(shared_secret@, prepare.data@) {
            None => {
                assert(false);
            },
            Some(pt) => {
                assert(pt.len() + 28 == prepare.data@.len());
                assert(parse_packet(pt) == Some(stream_packet@));
                lemma_parse_packet_frames_len(pt);
                assert(2 * stream_packet@.frames.len() <= pt.len());
            },
        }
        lemma_enc_frames_response_len(fv);
        lemma_enc_var_uint_len(stream_packet@.sequence);
        lemma_enc_var_uint_len(prepare.amount);
        lemma_enc_var_uint_len(emitted_count(response_frames(fv)) as u64);
        assert(enc_frames(response_frames(fv)).len() <= 40 * 16370);
    }
    if is_fulfillable && prepare_amount >= stream_packet.prepare_amount() {
        let response_packet = StreamPacketBuilder {
            sequence: stream_packet.sequence(),
            ilp_packet_type: PacketType::Fulfill,
            prepare_amount,
            frames,
        }.build();
        let encrypted_response = response_packet.into_encrypted(secret_slice);
        Ok(Fulfill { fulfillment, data: encrypted_response })
    } else {
        let response_packet = StreamPacketBuilder {
            sequence: stream_packet.sequence(),
            ilp_packet_type: PacketType::Reject,
            prepare_amount,
            frames,
        }.build();
        let encrypted_response = response_packet.into_encrypted(secret_slice);
        Err(
            Reject {
                code: IlpErrorCode::f99_application_error(),
                message: Vec::new(),
                triggered_by: Some(client_address.clone()),
                data: encrypted_response,
            },
        )
    }
}

/// Whether `dest` lies under the local address `to`.
pub open spec fn is_local_prefix(to: Seq<u8>, dest: Seq<u8>) -> bool {
    dest.len() >= to.len() && dest.take(to.len() as int) == to
}

/// A service that fulfills incoming STREAM Prepares addressed to this
/// receiver; Prepares for other destinations are left to the next service.
#[derive(Debug, Clone, PartialEq)]
pub struct StreamReceiverService {
    connection_generator: ConnectionGenerator,
}

impl View for StreamReceiverService {
    type V = Seq<u8>;

    closed spec fn view(&self) -> Seq<u8> {
        self.connection_generator@
    }
}

impl StreamReceiverService {
    /// Builds the service from a 32-byte server secret.
    pub fn new(server_secret: &[u8]) -> (r: StreamReceiverService)
        requires
            server_secret@.len() == 32,
        ensures
            r@ == hmac_sha256_of(server_secret@, secret_generator_string()),
    {
        StreamReceiverService { connection_generator: ConnectionGenerator::new(server_secret) }
    }

    /// Handles an outgoing Prepare if it is for this receiver: the
    /// destination must lie under `to` and its secret must re-derive. Returns
    /// `None` when the request is not for this receiver and should be passed
    /// to the next service.
    pub fn send_request(&self, to: &Address, prepare: Prepare) -> (r: Option<
        Result<Fulfill, Reject>,
    >)
        requires
            prepare@.data.len() <= 32767,
        ensures
            match r {
                None => !(is_local_prefix(to@, prepare@.destination) && rederive_spec(
                    self@,
                    prepare@.destination,
                ) is Some),
                Some(res) => {
                    &&& is_local_prefix(to@, prepare@.destination)
                    &&& rederive_spec(self@, prepare@.destination) is Some
                    &&& ({
                        let secret = rederive_spec(self@, prepare@.destination)->Some_0;
                        &&& (res is Ok <==> receive_accepts(secret, prepare@))
                        &&& match res {
                            Ok(f) => fulfill_response_ok(secret, prepare@, f@),
                            Err(rej) => reject_response_ok(secret, prepare@, to@, rej@),
                        }
                    })
                },
            },
    {
        let dest = prepare.destination.as_bytes();
        let to_bytes = to.as_bytes();
        let m = to_bytes.len();
        if dest.len() < m {
            return None;
        }
        let mut i: usize = 0;
        while i < m
            invariant
                i <= m == to_bytes@.len() <= dest@.len(),
                dest@.take(i as int) == to_bytes@.take(i as int),
                to_bytes@ == to@,
                dest@ == prepare@.destination,
            decreases m - i,
        {
            if dest[i] != to_bytes[i] {
                proof {
                    if dest@.take(m as int) == to_bytes@ {
                        assert(dest@.take(m as int)[i as int] == to_bytes@[i as int]);
                        assert(dest@[i as int] == to_bytes@[i as int]);
                    }
                }
                return None;
            }
            proof {
                assert(dest@.take(i as int + 1) =~= dest@.take(i as int).push(dest@[i as int]));
                assert(to_bytes@.take(i as int + 1) =~= to_bytes@.take(i as int).push(
                    to_bytes@[i as int],
                ));
            }
            i = i + 1;
        }
        proof {
            assert(to_bytes@.take(m as int) =~= to_bytes@);
        }
        match self.connection_generator.rederive_secret(&prepare.destination) {
            Ok(shared_secret) => Some(receive_money(&shared_secret, to, prepare)),
            Err(_) => None,
        }
    }
}

} // verus!
