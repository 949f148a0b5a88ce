//! The sending side of STREAM: a congestion-controlled state machine that
//! chunks a source amount across Prepare packets, follows the receiver's
//! responses, and closes the connection when everything is dispatched.
//!
//! The machine suspends only between calls: a driver performs the actual
//! request round-trips and hands the Fulfill or Reject back.

use vstd::prelude::*;

use crate::address::Address;
use crate::congestion::{
    add_sat, fulfill_rel, max_amount_spec, reject_rel, CongestionController,
};
use crate::crypto::{condition_of, decrypt_spec, generate_condition, random_condition};
use crate::ilp::{class_of, Fulfill, IlpErrorClass, IlpErrorCode, Prepare, Reject};
use crate::packet::{
    enc_frame, enc_frame_contents, enc_frames, enc_packet, emitted_count,
    lemma_enc_var_octet_len, lemma_enc_var_uint_len, packet_from_encrypted_spec,
    ConnectionCloseFrame, ConnectionNewAddressFrame, ErrorCode, Frame, FrameV, PacketType,
    StreamPacket, StreamPacketBuilder, StreamPacketV, StreamMoneyFrame,
};

verus! {

/// An error that ends a send.
#[derive(Debug, Clone, PartialEq, Eq)]
pub enum Error {
    /// The preflight exchange for the local account details failed.
    ConnectionError,
    /// A final or relative ILP reject; carries the reject's code and message.
    SendMoneyError { code: IlpErrorCode, message: Vec<u8> },
    /// No Fulfill arrived within the liveness window.
    TimeoutError,
}

/// What was sent and what the receiver reported as delivered.
#[derive(Debug, Clone, PartialEq, Eq)]
pub struct StreamDelivery {
    pub from: Address,
    pub to: Address,
    pub sent_amount: u64,
    pub sent_asset_scale: u8,
    pub sent_asset_code: Vec<u8>,
    pub delivered_amount: u64,
    pub delivered_asset_scale: Option<u8>,
    pub delivered_asset_code: Option<Vec<u8>>,
}

impl StreamDelivery {
    /// Adds a reported delivery, saturating at `u64::MAX`.
    fn increment_delivered_amount(&mut self, amount: u64)
        ensures
            *final(self) == (StreamDelivery {
                delivered_amount: add_sat(old(self).delivered_amount, amount),
                ..*old(self)
            }),
    {
        if u64::MAX - self.delivered_amount >= amount {
            self.delivered_amount = self.delivered_amount + amount;
        } else {
            self.delivered_amount = u64::MAX;
        }
    }
}

/// Phase of a send.
#[derive(Debug, Clone, Copy, PartialEq, Eq, Structural)]
pub enum SenderState {
    SendMoney,
    Closing,
    Closed,
}

/// What the sender wants its driver to do next.
#[derive(Debug, Clone, Copy, PartialEq, Eq, Structural)]
pub enum SenderAction {
    /// Stop and surface the latched error.
    Fail,
    /// Stop: no Fulfill within the liveness window.
    Timeout,
    /// Build and send a money Prepare.
    SendMoneyPacket,
    /// Build and send the connection-close Prepare.
    SendClosePacket,
    /// Everything dispatched and closed: take the receipt.
    Finish,
}

/// The milliseconds without a Fulfill after which a send times out.
pub const MAX_TIME_SINCE_LAST_FULFILL_MS: u64 = 30000;

/// The sender's working state.
pub struct SendMoneyState {
    pub state: SenderState,
    pub source_account: Address,
    pub destination_account: Address,
    pub shared_secret: Vec<u8>,
    /// What remains to dispatch; decreased on Prepare, restored on Reject.
    pub source_amount: u64,
    pub congestion_controller: CongestionController,
    pub receipt: StreamDelivery,
    pub should_send_source_account: bool,
    pub sequence: u64,
    pub rejected_packets: u64,
    pub error: Option<Error>,
    /// Total of all amounts dispatched in money Prepares.
    pub dispatched: Ghost<int>,
    /// Total of all amounts restored on Rejects.
    pub restored: Ghost<int>,
}

/// The sender's ledger always balances: what remains to send is the total
/// minus what is dispatched and not restored.
pub open spec fn accounting_inv(s: SendMoneyState) -> bool {
    s.source_amount + s.dispatched@ - s.restored@ == s.receipt.sent_amount && s.restored@ >= 0
        && s.dispatched@ >= s.restored@
}

/// The frames of a money Prepare: one `StreamMoney` for stream 1, preceded by
/// the sender's address on the first packet.
pub open spec fn money_frames_spec(send_source_account: bool, source_account: Seq<u8>) -> Seq<
    FrameV,
> {
    if send_source_account {
        seq![
            FrameV::StreamMoney { stream_id: 1, shares: 1 },
            FrameV::ConnectionNewAddress { source_account },
        ]
    } else {
        seq![FrameV::StreamMoney { stream_id: 1, shares: 1 }]
    }
}

/// The STREAM packet inside a money Prepare.
pub open spec fn money_packet_spec(
    sequence: u64,
    send_source_account: bool,
    source_account: Seq<u8>,
) -> StreamPacketV {
    StreamPacketV {
        sequence,
        ilp_packet_type: PacketType::Prepare,
        prepare_amount: 0,
        frames: money_frames_spec(send_source_account, source_account),
    }
}

/// The STREAM packet inside the connection-close Prepare.
pub open spec fn close_packet_spec(sequence: u64) -> StreamPacketV {
    StreamPacketV {
        sequence,
        ilp_packet_type: PacketType::Prepare,
        prepare_amount: 0,
        frames: seq![
            FrameV::ConnectionClose { code: ErrorCode::NoError, message: Seq::empty() },
        ],
    }
}

/// The last `ConnectionAssetDetails` frame in a packet, if any.
pub open spec fn last_asset_details(fs: Seq<FrameV>) -> Option<(Seq<u8>, u8)>
    decreases fs.len(),
{
    if fs.len() == 0 {
        None
    } else {
        match fs.last() {
            FrameV::ConnectionAssetDetails { source_asset_code, source_asset_scale } => Some(
                (source_asset_code, source_asset_scale),
            ),
            _ => last_asset_details(fs.drop_last()),
        }
    }
}

/// The packet id under which a sequence number is tracked by the congestion
/// controller.
pub open spec fn packet_id_of(sequence: u64) -> u32 {
    (sequence % 0x1_0000_0000) as u32
}

/// The smaller of two amounts.
pub open spec fn min64(a: u64, b: u64) -> u64 {
    if a <= b {
        a
    } else {
        b
    }
}

/// Ledger law: when the sender has nothing left to dispatch, the amounts sent
/// in Prepares minus the amounts restored on Rejects equal exactly the
/// receipt's `sent_amount`.
pub proof fn lemma_sender_accounting(s: SendMoneyState)
    requires
        accounting_inv(s),
        s.source_amount == 0,
    ensures
        s.dispatched@ - s.restored@ == s.receipt.sent_amount,
{
}

/// A money Prepare's STREAM packet encodes in at most two kilobytes: small
/// headers, one `StreamMoney` frame and at most one address frame.
proof fn lemma_money_packet_len(sequence: u64, send_source_account: bool, source_account: Seq<u8>)
    requires
        source_account.len() <= 1023,
    ensures
        enc_packet(money_packet_spec(sequence, send_source_account, source_account)).len() <= 2000,
{
    crate::oer::lemma_pow256_64();
    let p = money_packet_spec(sequence, send_source_account, source_account);
    let fs = p.frames;
    lemma_enc_var_uint_len(sequence);
    lemma_enc_var_uint_len(0);
    lemma_enc_var_uint_len(emitted_count(fs) as u64);
    let mf = FrameV::StreamMoney { stream_id: 1, shares: 1 };
    lemma_enc_var_uint_len(1);
    assert(enc_frame_contents(mf).len() <= 18);
    lemma_enc_var_octet_len(enc_frame_contents(mf));
    assert(enc_frame(mf).len() <= 28);
    if send_source_account {
        let cna = FrameV::ConnectionNewAddress { source_account };
        lemma_enc_var_octet_len(source_account);
        assert(enc_frame_contents(cna).len() <= 1032);
        lemma_enc_var_octet_len(enc_frame_contents(cna));
        assert(enc_frame(cna).len() <= 1042);
        assert(fs =~= seq![mf, cna]);
        assert(fs.skip(1) =~= seq![cna]);
        assert(seq![cna].skip(1) =~= Seq::<FrameV>::empty());
        assert(enc_frames(Seq::<FrameV>::empty()) =~= Seq::<u8>::empty());
        assert(enc_frames(seq![cna]) == enc_frame(cna) + enc_frames(Seq::<FrameV>::empty()));
        assert(enc_frames(fs) == enc_frame(mf) + enc_frames(seq![cna]));
        assert(enc_frames(fs).len() <= 1070);
    } else {
        assert(fs =~= seq![mf]);
        assert(fs.skip(1) =~= Seq::<FrameV>::empty());
        assert(enc_frames(Seq::<FrameV>::empty()) =~= Seq::<u8>::empty());
        assert(enc_frames(fs) == enc_frame(mf) + enc_frames(Seq::<FrameV>::empty()));
        assert(enc_frames(fs).len() <= 28);
    }
}

/// The connection-close packet encodes in under a hundred bytes.
proof fn lemma_close_packet_len(sequence: u64)
    ensures
        enc_packet(close_packet_spec(sequence)).len() <= 100,
{
    crate::oer::lemma_pow256_64();
    let p = close_packet_spec(sequence);
    let fs = p.frames;
    lemma_enc_var_uint_len(sequence);
    lemma_enc_var_uint_len(0);
    lemma_enc_var_uint_len(emitted_count(fs) as u64);
    let cc = FrameV::ConnectionClose { code: ErrorCode::NoError, message: Seq::empty() };
    lemma_enc_var_octet_len(Seq::<u8>::empty());
    assert(enc_frame_contents(cc).len() <= 10);
    lemma_enc_var_octet_len(enc_frame_contents(cc));
    assert(enc_frame(cc).len() <= 20);
    assert(fs =~= seq![cc]);
    assert(fs.skip(1) =~= Seq::<FrameV>::empty());
    assert(enc_frames(Seq::<FrameV>::empty()) =~= Seq::<u8>::empty());
    assert(enc_frames(fs) == enc_frame(cc) + enc_frames(Seq::<FrameV>::empty()));
}

impl SendMoneyState {
    /// Starts a send of `source_amount` from `from` to `to` under
    /// `shared_secret`, with the stock controller configuration: a window of
    /// the full amount, an additive step of a tenth of it, and halving on
    /// congestion.
    pub fn start(
        from: Address,
        to: Address,
        shared_secret: Vec<u8>,
        source_amount: u64,
        sent_asset_code: Vec<u8>,
        sent_asset_scale: u8,
    ) -> (r: SendMoneyState)
        ensures
            r.state == SenderState::SendMoney,
            r.source_account@ == from@,
            r.destination_account@ == to@,
            r.shared_secret@ == shared_secret@,
            r.source_amount == source_amount,
            r.receipt == (StreamDelivery {
                from: r.receipt.from,
                to: r.receipt.to,
                sent_amount: source_amount,
                sent_asset_scale,
                sent_asset_code: r.receipt.sent_asset_code,
                delivered_amount: 0,
                delivered_asset_scale: None,
                delivered_asset_code: None,
            }),
            r.receipt.from@ == from@,
            r.receipt.to@ == to@,
            r.receipt.sent_asset_code@ == sent_asset_code@,
            r.congestion_controller.state == crate::congestion::CongestionState::SlowStart,
            r.congestion_controller.max_in_flight == source_amount,
            r.congestion_controller.increase_amount == source_amount / 10,
            r.congestion_controller.decrease_factor == 2,
            r.congestion_controller.amount_in_flight == 0,
            r.congestion_controller.max_packet_amount is None,
            r.congestion_controller.packets@ == Map::<u32, u64>::empty(),
            r.should_send_source_account == true,
            r.sequence == 1,
            r.rejected_packets == 0,
            r.error is None,
            r.dispatched@ == 0,
            r.restored@ == 0,
            accounting_inv(r),
    {
        let receipt = StreamDelivery {
            from: from.clone(),
            to: to.clone(),
            sent_amount: source_amount,
            sent_asset_scale,
            sent_asset_code,
            delivered_amount: 0,
            delivered_asset_scale: None,
            delivered_asset_code: None,
        };
        SendMoneyState {
            state: SenderState::SendMoney,
            source_account: from,
            destination_account: to,
            shared_secret,
            source_amount,
            congestion_controller: CongestionController::new(
                source_amount,
                source_amount / 10,
                2,
            ),
            receipt,
            should_send_source_account: true,
            sequence: 1,
            rejected_packets: 0,
            error: None,
            dispatched: Ghost(0),
            restored: Ghost(0),
        }
    }

    /// Decides the next step of the main loop: surface a latched error, time
    /// out without a recent Fulfill, send money while some remains, close
    /// once everything is dispatched, and finish after the close.
    pub fn next_step(&self, elapsed_since_last_fulfill_ms: u64) -> (r: SenderAction)
        ensures
            r == (if self.error is Some {
                SenderAction::Fail
            } else if elapsed_since_last_fulfill_ms >= MAX_TIME_SINCE_LAST_FULFILL_MS {
                SenderAction::Timeout
            } else if self.source_amount == 0 {
                if self.state == SenderState::SendMoney {
                    SenderAction::SendClosePacket
                } else {
                    SenderAction::Finish
                }
            } else {
                SenderAction::SendMoneyPacket
            }),
    {
        if self.error.is_some() {
            SenderAction::Fail
        } else if elapsed_since_last_fulfill_ms >= MAX_TIME_SINCE_LAST_FULFILL_MS {
            SenderAction::Timeout
        } else if self.source_amount == 0 {
            if self.state == SenderState::SendMoney {
                SenderAction::SendClosePacket
            } else {
                SenderAction::Finish
            }
        } else {
            SenderAction::SendMoneyPacket
        }
    }

    /// Builds the next money Prepare, or returns `None` when the congestion
    /// window has no room (or nothing remains). On success the amount is
    /// deducted from `source_amount` and recorded in flight under this
    /// packet's id.
    pub fn try_send_money(&mut self, now_ms: u64) -> (r: Option<Prepare>)
        ensures
            match r {
                None => min64(old(self).source_amount, max_amount_spec(old(self).congestion_controller))
                    == 0 && *final(self) == *old(self),
                Some(p) => {
                    let amount = min64(
                        old(self).source_amount,
                        max_amount_spec(old(self).congestion_controller),
                    );
                    let id = packet_id_of(old(self).sequence);
                    &&& amount > 0
                    &&& p.amount == amount
                    &&& p@.destination == old(self).destination_account@
                    &&& p.expires_at_ms == add_sat(now_ms, 30000)
                    &&& decrypt_spec(old(self).shared_secret@, p@.data) == Some(
                        enc_packet(
                            money_packet_spec(
                                old(self).sequence,
                                old(self).should_send_source_account,
                                old(self).source_account@,
                            ),
                        ),
                    )
                    &&& p@.execution_condition == condition_of(old(self).shared_secret@, p@.data)
                    &&& final(self).source_amount == old(self).source_amount - amount
                    &&& final(self).sequence == add_sat(old(self).sequence, 1)
                    &&& final(self).congestion_controller.packets@ == old(self).congestion_controller.packets@.insert(id, amount)
                    &&& final(self).congestion_controller.amount_in_flight == add_sat(
                        old(self).congestion_controller.amount_in_flight,
                        amount,
                    )
                    &&& final(self).congestion_controller.max_in_flight == old(self).congestion_controller.max_in_flight
                    &&& final(self).congestion_controller.state == old(self).congestion_controller.state
                    &&& final(self).congestion_controller.increase_amount == old(self).congestion_controller.increase_amount
                    &&& final(self).congestion_controller.decrease_factor == old(self).congestion_controller.decrease_factor
                    &&& final(self).congestion_controller.max_packet_amount == old(self).congestion_controller.max_packet_amount
                    &&& final(self).dispatched@ == old(self).dispatched@ + amount
                    &&& final(self).restored@ == old(self).restored@
                    &&& final(self).receipt == old(self).receipt
                    &&& final(self).state == old(self).state
                    &&& final(self).error == old(self).error
                    &&& final(self).rejected_packets == old(self).rejected_packets
                    &&& final(self).should_send_source_account == old(self).should_send_source_account
                    &&& final(self).source_account@ == old(self).source_account@
                    &&& final(self).destination_account@ == old(self).destination_account@
                    &&& final(self).shared_secret@ == old(self).shared_secret@
                    &&& (accounting_inv(*old(self)) ==> accounting_inv(*final(self)))
                },
            },
    {
        let window = self.congestion_controller.get_max_amount();
        let amount = if self.source_amount <= window {
            self.source_amount
        } else {
            window
        };
        if amount == 0 {
            return None;
        }
        self.source_amount = self.source_amount - amount;
        let sequence = self.sequence;
        if u64::MAX - self.sequence >= 1 {
            self.sequence = self.sequence + 1;
        } else {
            self.sequence = u64::MAX;
        }
        let mut frames: Vec<Frame> = Vec::new();
        frames.push(Frame::StreamMoney(StreamMoneyFrame { stream_id: 1, shares: 1 }));
        if self.should_send_source_account {
            frames.push(
                Frame::ConnectionNewAddress(
                    ConnectionNewAddressFrame { source_account: self.source_account.clone() },
                ),
            );
        }
        proof {
            assert(crate::packet::frames_view(frames@) =~= money_frames_spec(
                self.should_send_source_account,
                self.source_account@,
            ));
            let fv = crate::packet::frames_view(frames@);
            assert(forall|i: int| 0 <= i < fv.len() ==> !((#[trigger] fv[i]) is Unknown));
            crate::packet::lemma_kept_frames_id(fv);
            use_type_invariant(&self.source_account);
            lemma_money_packet_len(
                sequence,
                self.should_send_source_account,
                self.source_account@,
            );
        }
        let stream_packet = StreamPacketBuilder {
            ilp_packet_type: PacketType::Prepare,
            prepare_amount: 0,
            sequence,
            frames,
        }.build();
        let data = stream_packet.into_encrypted(self.shared_secret.as_slice());
        let execution_condition = generate_condition(
            self.shared_secret.as_slice(),
            data.as_slice(),
        );
        let id: u32 = (sequence % 0x1_0000_0000) as u32;
        self.congestion_controller.prepare(id, amount);
        let expires_at_ms = if u64::MAX - now_ms >= 30000 {
            now_ms + 30000
        } else {
            u64::MAX
        };
        proof {
            self.dispatched@ = self.dispatched@ + amount;
        }
        Some(
            Prepare {
                destination: self.destination_account.clone(),
                amount,
                expires_at_ms,
                execution_condition,
                data,
            },
        )
    }

    /// Builds the connection-close Prepare: one `ConnectionClose` frame, a
    /// zero amount and a random unfulfillable condition, and moves the sender
    /// to `Closing`.
    pub fn make_close_prepare(&mut self, now_ms: u64) -> (p: Prepare)
        ensures
            p.amount == 0,
            p@.destination == old(self).destination_account@,
            p.expires_at_ms == add_sat(now_ms, 30000),
            decrypt_spec(old(self).shared_secret@, p@.data) == Some(
                enc_packet(close_packet_spec(old(self).sequence)),
            ),
            final(self).state == SenderState::Closing,
            final(self).sequence == add_sat(old(self).sequence, 1),
            *final(self) == (SendMoneyState {
                state: SenderState::Closing,
                sequence: final(self).sequence,
                ..*old(self)
            }),
    {
        let sequence = self.sequence;
        if u64::MAX - self.sequence >= 1 {
            self.sequence = self.sequence + 1;
        } else {
            self.sequence = u64::MAX;
        }
        self.state = SenderState::Closing;
        let mut frames: Vec<Frame> = Vec::new();
        frames.push(
            Frame::ConnectionClose(
                ConnectionCloseFrame { code: ErrorCode::NoError, message: Vec::new() },
            ),
        );
        proof {
            assert(crate::packet::frames_view(frames@) =~= close_packet_spec(sequence).frames);
            let fv = crate::packet::frames_view(frames@);
            assert(forall|i: int| 0 <= i < fv.len() ==> !((#[trigger] fv[i]) is Unknown));
            crate::packet::lemma_kept_frames_id(fv);
            lemma_close_packet_len(sequence);
        }
        let stream_packet = StreamPacketBuilder {
            ilp_packet_type: PacketType::Prepare,
            prepare_amount: 0,
            sequence,
            frames,
        }.build();
        let data = stream_packet.into_encrypted(self.shared_secret.as_slice());
        let execution_condition = random_condition();
        let expires_at_ms = if u64::MAX - now_ms >= 30000 {
            now_ms + 30000
        } else {
            u64::MAX
        };
        Prepare {
            destination: self.destination_account.clone(),
            amount: 0,
            expires_at_ms,
            execution_condition,
            data,
        }
    }

    /// Handles a Fulfill for the packet tracked under `id`: frees the window,
    /// stops announcing the source address, and—when the response payload
    /// decrypts to a STREAM Fulfill packet—records the delivered amount and
    /// any first-seen asset details.
    pub fn handle_fulfill(&mut self, id: u32, fulfill: &Fulfill)
        ensures
            fulfill_rel(
                old(self).congestion_controller,
                final(self).congestion_controller,
                id,
            ),
            final(self).should_send_source_account == false,
            ({
                let parsed = packet_from_encrypted_spec(old(self).shared_secret@, fulfill@.data);
                match parsed {
                    Some(sp) => {
                        if sp.ilp_packet_type == PacketType::Fulfill {
                            &&& final(self).receipt.delivered_amount == add_sat(
                                old(self).receipt.delivered_amount,
                                sp.prepare_amount,
                            )
                            &&& (if old(self).receipt.delivered_asset_scale is None {
                                match last_asset_details(sp.frames) {
                                    Some(details) => final(self).receipt.delivered_asset_scale == Some(details.1) && (match
                                        final(self).receipt.delivered_asset_code {
                                        Some(c) => c@ == details.0,
                                        None => false,
                                    }),
                                    None => final(self).receipt.delivered_asset_scale == old(self).receipt.delivered_asset_scale && final(self).receipt.delivered_asset_code == old(self).receipt.delivered_asset_code,
                                }
                            } else {
                                final(self).receipt.delivered_asset_scale == old(self).receipt.delivered_asset_scale && final(self).receipt.delivered_asset_code == old(self).receipt.delivered_asset_code
                            })
                        } else {
                            final(self).receipt == old(self).receipt
                        }
                    },
                    None => final(self).receipt == old(self).receipt,
                }
            }),
            final(self).receipt.sent_amount == old(self).receipt.sent_amount,
            final(self).receipt.from == old(self).receipt.from,
            final(self).receipt.to == old(self).receipt.to,
            final(self).receipt.sent_asset_code == old(self).receipt.sent_asset_code,
            final(self).receipt.sent_asset_scale == old(self).receipt.sent_asset_scale,
            final(self).receipt.delivered_amount >= old(self).receipt.delivered_amount,
            old(self).receipt.delivered_asset_scale is Some ==> final(self).receipt.delivered_asset_scale == old(self).receipt.delivered_asset_scale && final(self).receipt.delivered_asset_code == old(self).receipt.delivered_asset_code,
            final(self).source_amount == old(self).source_amount,
            final(self).sequence == old(self).sequence,
            final(self).state == old(self).state,
            final(self).error == old(self).error,
            final(self).rejected_packets == old(self).rejected_packets,
            final(self).dispatched@ == old(self).dispatched@,
            final(self).restored@ == old(self).restored@,
            final(self).shared_secret@ == old(self).shared_secret@,
            final(self).source_account@ == old(self).source_account@,
            final(self).destination_account@ == old(self).destination_account@,
            accounting_inv(*old(self)) ==> accounting_inv(*final(self)),
    {
        self.congestion_controller.fulfill(id);
        self.should_send_source_account = false;
        let data_copy = crate::oer::copy_range(&fulfill.data, 0, fulfill.data.len());
        proof {
            assert(data_copy@ =~= fulfill.data@);
        }
        match StreamPacket::from_encrypted(self.shared_secret.as_slice(), data_copy) {
            Err(_) => {
            },
            Ok(packet) => {
                if packet.ilp_packet_type() == PacketType::Fulfill {
                    if self.receipt.delivered_asset_scale.is_none() {
                        self.scan_asset_details(&packet);
                    }
                    self.receipt.increment_delivered_amount(packet.prepare_amount());
                }
            },
        }
    }

    /// Scans a response packet for asset details, keeping the last
    /// `ConnectionAssetDetails` frame.
    fn scan_asset_details(&mut self, packet: &StreamPacket)
        ensures
            ({
                let details = last_asset_details(packet@.frames);
                match details {
                    Some(d) => final(self).receipt.delivered_asset_scale == Some(d.1) && (match
                        final(self).receipt.delivered_asset_code {
                        Some(c) => c@ == d.0,
                        None => false,
                    }),
                    None => final(self).receipt.delivered_asset_scale == old(self).receipt.delivered_asset_scale && final(self).receipt.delivered_asset_code
                        == old(self).receipt.delivered_asset_code,
                }
            }),
            *final(self) == (SendMoneyState { receipt: final(self).receipt, ..*old(self) }),
            final(self).receipt == (StreamDelivery {
                delivered_asset_scale: final(self).receipt.delivered_asset_scale,
                delivered_asset_code: final(self).receipt.delivered_asset_code,
                ..old(self).receipt
            }),
    {
        let frames = packet.frames();
        let n = frames.len();
        let ghost fv = packet@.frames;
        let mut i: usize = 0;
        while i < n
            invariant
                i <= n == frames@.len(),
                fv == crate::packet::frames_view(frames@),
                fv == packet@.frames,
                ({
                    let details = last_asset_details(fv.take(i as int));
                    match details {
                        Some(d) => self.receipt.delivered_asset_scale == Some(d.1) && (match
                            self.receipt.delivered_asset_code {
                            Some(c) => c@ == d.0,
                            None => false,
                        }),
                        None => self.receipt.delivered_asset_scale == old(self).receipt.delivered_asset_scale && self.receipt.delivered_asset_code == old(self).receipt.delivered_asset_code,
                    }
                }),
                *self == (SendMoneyState { receipt: self.receipt, ..*old(self) }),
                self.receipt == (StreamDelivery {
                    delivered_asset_scale: self.receipt.delivered_asset_scale,
                    delivered_asset_code: self.receipt.delivered_asset_code,
                    ..old(self).receipt
                }),
            decreases n - i,
        {
            match &frames[i] {
                Frame::ConnectionAssetDetails(f) => {
                    self.receipt.delivered_asset_scale = Some(f.source_asset_scale);
                    let code_copy = crate::oer::copy_range(
                        &f.source_asset_code,
                        0,
                        f.source_asset_code.len(),
                    );
                    proof {
                        assert(code_copy@ =~= f.source_asset_code@);
                    }
                    self.receipt.delivered_asset_code = Some(code_copy);
                },
                _ => {
                },
            }
            proof {
                assert(fv.take(i as int + 1).drop_last() =~= fv.take(i as int));
                assert(fv.take(i as int + 1).last() == fv[i as int]);
            }
            i = i + 1;
        }
        proof {
            assert(fv.take(n as int) =~= fv);
        }
    }

    /// Handles a Reject for the packet tracked under `id`: restores the
    /// amount, counts the rejection, updates the controller (halving the
    /// window on `T04`, capping the packet size on `F08`), and picks up asset
    /// details the receiver may have included. While money is being sent,
    /// every final or relative code other than `F08` and `F99` latches an
    /// error; a reject answering the connection-close packet is the expected
    /// outcome and is ignored.
    pub fn handle_reject(&mut self, id: u32, amount: u64, reject: &Reject)
        ensures
            final(self).source_amount == add_sat(old(self).source_amount, amount),
            final(self).restored@ == old(self).restored@ + amount,
            final(self).dispatched@ == old(self).dispatched@,
            reject_rel(
                old(self).congestion_controller,
                (CongestionController {
                    max_packet_amount: old(self).congestion_controller.max_packet_amount,
                    ..final(self).congestion_controller
                }),
                id,
                reject.code == (IlpErrorCode { b0: 0x54, b1: 0x30, b2: 0x34 }),
            ),
            final(self).congestion_controller.max_packet_amount == (if reject.code
                == (IlpErrorCode { b0: 0x46, b1: 0x30, b2: 0x38 }) {
                Some(if amount / 2 >= 1 {
                    amount / 2
                } else {
                    1u64
                })
            } else {
                old(self).congestion_controller.max_packet_amount
            }),
            final(self).rejected_packets == add_sat(old(self).rejected_packets, 1),
            ({
                let code = reject.code;
                if old(self).state != SenderState::SendMoney || class_of(code)
                    == IlpErrorClass::Temporary || code == (IlpErrorCode {
                    b0: 0x46,
                    b1: 0x30,
                    b2: 0x38,
                }) || code == (IlpErrorCode { b0: 0x46, b1: 0x39, b2: 0x39 }) {
                    final(self).error == old(self).error
                } else {
                    match final(self).error {
                        Some(Error::SendMoneyError { code: c2, message }) => c2 == code && message@
                            == reject.message@,
                        _ => false,
                    }
                }
            }),
            final(self).receipt.sent_amount == old(self).receipt.sent_amount,
            final(self).receipt.from == old(self).receipt.from,
            final(self).receipt.to == old(self).receipt.to,
            final(self).receipt.sent_asset_code == old(self).receipt.sent_asset_code,
            final(self).receipt.sent_asset_scale == old(self).receipt.sent_asset_scale,
            final(self).receipt.delivered_amount == old(self).receipt.delivered_amount,
            (old(self).receipt.delivered_asset_scale is Some
                && old(self).receipt.delivered_asset_code is Some) ==> final(self).receipt.delivered_asset_scale == old(self).receipt.delivered_asset_scale && final(self).receipt.delivered_asset_code == old(self).receipt.delivered_asset_code,
            final(self).state == old(self).state,
            final(self).sequence == old(self).sequence,
            final(self).should_send_source_account == old(self).should_send_source_account,
            final(self).shared_secret@ == old(self).shared_secret@,
            final(self).source_account@ == old(self).source_account@,
            final(self).destination_account@ == old(self).destination_account@,
            (accounting_inv(*old(self)) && old(self).dispatched@ >= old(self).restored@ + amount)
                ==> accounting_inv(*final(self)),
    {
        if u64::MAX - self.source_amount >= amount {
            self.source_amount = self.source_amount + amount;
        } else {
            self.source_amount = u64::MAX;
        }
        proof {
            self.restored@ = self.restored@ + amount;
        }
        let congested = reject.code.b0 == 0x54 && reject.code.b1 == 0x30 && reject.code.b2 == 0x34;
        self.congestion_controller.apply_reject(id, congested);
        let is_f08 = reject.code.b0 == 0x46 && reject.code.b1 == 0x30 && reject.code.b2 == 0x38;
        if is_f08 {
            // The packet was too large; cap future packets at half of what
            // was just refused, but never below 1.
            let lowered = if amount / 2 >= 1 {
                amount / 2
            } else {
                1
            };
            self.congestion_controller.set_max_packet_amount(lowered);
        }
        if u64::MAX - self.rejected_packets >= 1 {
            self.rejected_packets = self.rejected_packets + 1;
        } else {
            self.rejected_packets = u64::MAX;
        }
        if self.receipt.delivered_asset_scale.is_none()
            || self.receipt.delivered_asset_code.is_none() {
            let data_copy = crate::oer::copy_range(&reject.data, 0, reject.data.len());
            proof {
                assert(data_copy@ =~= reject.data@);
            }
            match StreamPacket::from_encrypted(self.shared_secret.as_slice(), data_copy) {
                Err(_) => {
                },
                Ok(packet) => {
                    self.scan_asset_details(&packet);
                },
            }
        }
        let class = reject.code.class();
        let is_f99 = reject.code.b0 == 0x46 && reject.code.b1 == 0x39 && reject.code.b2 == 0x39;
        if self.state != SenderState::SendMoney || class == IlpErrorClass::Temporary || is_f08
            || is_f99 {
            // A reject answering the connection-close packet is the expected
            // outcome of the close and never fails the send.
        } else {
            let message = crate::oer::copy_range(&reject.message, 0, reject.message.len());
            proof {
                assert(message@ =~= reject.message@);
            }
            self.error = Some(Error::SendMoneyError { code: reject.code, message });
        }
    }

    /// Marks the send closed and hands out the receipt.
    pub fn finish(self) -> (r: StreamDelivery)
        ensures
            r == self.receipt,
    {
        self.receipt
    }
}

} // verus!
