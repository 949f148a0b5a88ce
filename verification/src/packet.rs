//! The STREAM packet and frame model: fourteen tagged frame kinds, the outer
//! packet, and a bit-exact binary codec with round-trip proofs.

use vstd::prelude::*;

use crate::address::{valid_address, Address};
use crate::oer::{
    copy_range, enc_var_octet, enc_var_uint, lemma_min_be_len_le, lemma_pow256_64,
    lemma_take_var_octet_enc, lemma_take_var_uint_enc, pow256, read_sat_var_uint, read_u8,
    read_var_octet, read_var_uint, suffix, take_sat_var_uint, take_var_octet, take_var_uint,
    write_var_octet, write_var_uint,
};
use crate::ParseError;

verus! {

/// The STREAM protocol version carried in every packet.
pub const STREAM_VERSION: u8 = 1;

/// The ILP packet type echoed inside a STREAM packet.
#[derive(Debug, Clone, Copy, PartialEq, Eq, Structural)]
pub enum PacketType {
    Prepare,
    Fulfill,
    Reject,
}

/// Wire value of an ILP packet type.
pub open spec fn packet_type_byte(t: PacketType) -> u8 {
    match t {
        PacketType::Prepare => 12,
        PacketType::Fulfill => 13,
        PacketType::Reject => 14,
    }
}

/// ILP packet type decoded from its wire value.
pub open spec fn packet_type_from_byte(b: u8) -> Option<PacketType> {
    if b == 12 {
        Some(PacketType::Prepare)
    } else if b == 13 {
        Some(PacketType::Fulfill)
    } else if b == 14 {
        Some(PacketType::Reject)
    } else {
        None
    }
}

impl PacketType {
    /// The wire value of this packet type.
    pub fn to_byte(&self) -> (r: u8)
        ensures
            r == packet_type_byte(*self),
    {
        match self {
            PacketType::Prepare => 12,
            PacketType::Fulfill => 13,
            PacketType::Reject => 14,
        }
    }

    /// Decodes a packet type from its wire value.
    pub fn try_from_byte(b: u8) -> (r: Result<PacketType, ParseError>)
        ensures
            match r {
                Ok(t) => packet_type_from_byte(b) == Some(t),
                Err(_) => packet_type_from_byte(b) is None,
            },
    {
        if b == 12 {
            Ok(PacketType::Prepare)
        } else if b == 13 {
            Ok(PacketType::Fulfill)
        } else if b == 14 {
            Ok(PacketType::Reject)
        } else {
            Err(ParseError::InvalidPacket)
        }
    }
}

/// The STREAM frame types.
#[derive(Debug, Clone, Copy, PartialEq, Eq, Structural)]
pub enum FrameType {
    ConnectionClose,
    ConnectionNewAddress,
    ConnectionMaxData,
    ConnectionDataBlocked,
    ConnectionMaxStreamId,
    ConnectionStreamIdBlocked,
    ConnectionAssetDetails,
    StreamClose,
    StreamMoney,
    StreamMaxMoney,
    StreamMoneyBlocked,
    StreamData,
    StreamMaxData,
    StreamDataBlocked,
    Unknown,
}

impl FrameType {
    /// Decodes a frame type from its wire value; unassigned values map to
    /// `Unknown`.
    pub fn from_byte(b: u8) -> (r: FrameType)
        ensures
            r == frame_type_from_byte(b),
    {
        if b == 0x01 {
            FrameType::ConnectionClose
        } else if b == 0x02 {
            FrameType::ConnectionNewAddress
        } else if b == 0x03 {
            FrameType::ConnectionMaxData
        } else if b == 0x04 {
            FrameType::ConnectionDataBlocked
        } else if b == 0x05 {
            FrameType::ConnectionMaxStreamId
        } else if b == 0x06 {
            FrameType::ConnectionStreamIdBlocked
        } else if b == 0x07 {
            FrameType::ConnectionAssetDetails
        } else if b == 0x10 {
            FrameType::StreamClose
        } else if b == 0x11 {
            FrameType::StreamMoney
        } else if b == 0x12 {
            FrameType::StreamMaxMoney
        } else if b == 0x13 {
            FrameType::StreamMoneyBlocked
        } else if b == 0x14 {
            FrameType::StreamData
        } else if b == 0x15 {
            FrameType::StreamMaxData
        } else if b == 0x16 {
            FrameType::StreamDataBlocked
        } else {
            FrameType::Unknown
        }
    }
}

/// Frame type decoded from its wire value.
pub open spec fn frame_type_from_byte(b: u8) -> FrameType {
    if b == 0x01 {
        FrameType::ConnectionClose
    } else if b == 0x02 {
        FrameType::ConnectionNewAddress
    } else if b == 0x03 {
        FrameType::ConnectionMaxData
    } else if b == 0x04 {
        FrameType::ConnectionDataBlocked
    } else if b == 0x05 {
        FrameType::ConnectionMaxStreamId
    } else if b == 0x06 {
        FrameType::ConnectionStreamIdBlocked
    } else if b == 0x07 {
        FrameType::ConnectionAssetDetails
    } else if b == 0x10 {
        FrameType::StreamClose
    } else if b == 0x11 {
        FrameType::StreamMoney
    } else if b == 0x12 {
        FrameType::StreamMaxMoney
    } else if b == 0x13 {
        FrameType::StreamMoneyBlocked
    } else if b == 0x14 {
        FrameType::StreamData
    } else if b == 0x15 {
        FrameType::StreamMaxData
    } else if b == 0x16 {
        FrameType::StreamDataBlocked
    } else {
        FrameType::Unknown
    }
}

/// The STREAM error codes.
#[derive(Debug, Clone, Copy, PartialEq, Eq, Structural)]
pub enum ErrorCode {
    NoError,
    InternalError,
    EndpointBusy,
    FlowControlError,
    StreamIdError,
    StreamStateError,
    FrameFormatError,
    ProtocolViolation,
    ApplicationError,
    Unknown,
}

/// Wire value of a STREAM error code.
pub open spec fn error_code_byte(c: ErrorCode) -> u8 {
    match c {
        ErrorCode::NoError => 0x01,
        ErrorCode::InternalError => 0x02,
        ErrorCode::EndpointBusy => 0x03,
        ErrorCode::FlowControlError => 0x04,
        ErrorCode::StreamIdError => 0x05,
        ErrorCode::StreamStateError => 0x06,
        ErrorCode::FrameFormatError => 0x07,
        ErrorCode::ProtocolViolation => 0x08,
        ErrorCode::ApplicationError => 0x09,
        ErrorCode::Unknown => 0x0a,
    }
}

/// STREAM error code decoded from its wire value.
pub open spec fn error_code_from_byte(b: u8) -> ErrorCode {
    if b == 0x01 {
        ErrorCode::NoError
    } else if b == 0x02 {
        ErrorCode::InternalError
    } else if b == 0x03 {
        ErrorCode::EndpointBusy
    } else if b == 0x04 {
        ErrorCode::FlowControlError
    } else if b == 0x05 {
        ErrorCode::StreamIdError
    } else if b == 0x06 {
        ErrorCode::StreamStateError
    } else if b == 0x07 {
        ErrorCode::FrameFormatError
    } else if b == 0x08 {
        ErrorCode::ProtocolViolation
    } else if b == 0x09 {
        ErrorCode::ApplicationError
    } else {
        ErrorCode::Unknown
    }
}

impl ErrorCode {
    /// The wire value of this error code.
    pub fn to_byte(&self) -> (r: u8)
        ensures
            r == error_code_byte(*self),
    {
        match self {
            ErrorCode::NoError => 0x01,
            ErrorCode::InternalError => 0x02,
            ErrorCode::EndpointBusy => 0x03,
            ErrorCode::FlowControlError => 0x04,
            ErrorCode::StreamIdError => 0x05,
            ErrorCode::StreamStateError => 0x06,
            ErrorCode::FrameFormatError => 0x07,
            ErrorCode::ProtocolViolation => 0x08,
            ErrorCode::ApplicationError => 0x09,
            ErrorCode::Unknown => 0x0a,
        }
    }

    /// Decodes an error code from its wire value; unassigned values map to
    /// `Unknown`.
    pub fn from_byte(b: u8) -> (r: ErrorCode)
        ensures
            r == error_code_from_byte(b),
    {
        if b == 0x01 {
            ErrorCode::NoError
        } else if b == 0x02 {
            ErrorCode::InternalError
        } else if b == 0x03 {
            ErrorCode::EndpointBusy
        } else if b == 0x04 {
            ErrorCode::FlowControlError
        } else if b == 0x05 {
            ErrorCode::StreamIdError
        } else if b == 0x06 {
            ErrorCode::StreamStateError
        } else if b == 0x07 {
            ErrorCode::FrameFormatError
        } else if b == 0x08 {
            ErrorCode::ProtocolViolation
        } else if b == 0x09 {
            ErrorCode::ApplicationError
        } else {
            ErrorCode::Unknown
        }
    }
}

/// Mathematical model of a frame: the frame's fields with byte strings
/// abstracted to sequences.
pub enum FrameV {
    ConnectionClose { code: ErrorCode, message: Seq<u8> },
    ConnectionNewAddress { source_account: Seq<u8> },
    ConnectionAssetDetails { source_asset_code: Seq<u8>, source_asset_scale: u8 },
    ConnectionMaxData { max_offset: u64 },
    ConnectionDataBlocked { max_offset: u64 },
    ConnectionMaxStreamId { max_stream_id: u64 },
    ConnectionStreamIdBlocked { max_stream_id: u64 },
    StreamClose { stream_id: u64, code: ErrorCode, message: Seq<u8> },
    StreamMoney { stream_id: u64, shares: u64 },
    StreamMaxMoney { stream_id: u64, receive_max: u64, total_received: u64 },
    StreamMoneyBlocked { stream_id: u64, send_max: u64, total_sent: u64 },
    StreamData { stream_id: u64, offset: u64, data: Seq<u8> },
    StreamMaxData { stream_id: u64, max_offset: u64 },
    StreamDataBlocked { stream_id: u64, max_offset: u64 },
    Unknown,
}

/// Frame closing the whole connection.
#[derive(Debug, Clone, PartialEq, Eq)]
pub struct ConnectionCloseFrame {
    /// Machine-readable reason the connection was closed.
    pub code: ErrorCode,
    /// Human-readable UTF-8 detail, kept as raw bytes.
    pub message: Vec<u8>,
}

/// Frame announcing the sender's ILP address.
#[derive(Debug, Clone, PartialEq, Eq)]
pub struct ConnectionNewAddressFrame {
    /// New ILP address of the endpoint that sent the frame.
    pub source_account: Address,
}

/// Frame announcing the sender's asset code and scale; these must never vary
/// over the lifetime of a connection.
#[derive(Debug, Clone, PartialEq, Eq)]
pub struct ConnectionAssetDetailsFrame {
    /// Asset code of the endpoint that sent the frame.
    pub source_asset_code: Vec<u8>,
    /// Asset scale of the endpoint that sent the frame.
    pub source_asset_scale: u8,
}

/// Total bytes the endpoint is willing to receive on the connection.
#[derive(Debug, Clone, PartialEq, Eq)]
pub struct ConnectionMaxDataFrame {
    pub max_offset: u64,
}

/// Total bytes the endpoint wants to send on the connection.
#[derive(Debug, Clone, PartialEq, Eq)]
pub struct ConnectionDataBlockedFrame {
    pub max_offset: u64,
}

/// Greatest stream id the endpoint is willing to accept.
#[derive(Debug, Clone, PartialEq, Eq)]
pub struct ConnectionMaxStreamIdFrame {
    pub max_stream_id: u64,
}

/// Greatest stream id the endpoint wishes to open.
#[derive(Debug, Clone, PartialEq, Eq)]
pub struct ConnectionStreamIdBlockedFrame {
    pub max_stream_id: u64,
}

/// Frame closing a single stream.
#[derive(Debug, Clone, PartialEq, Eq)]
pub struct StreamCloseFrame {
    pub stream_id: u64,
    /// Machine-readable reason the stream was closed.
    pub code: ErrorCode,
    /// Human-readable UTF-8 detail, kept as raw bytes.
    pub message: Vec<u8>,
}

/// Shares of the ILP Prepare amount destined for one stream.
#[derive(Debug, Clone, PartialEq, Eq)]
pub struct StreamMoneyFrame {
    pub stream_id: u64,
    pub shares: u64,
}

/// Most money the endpoint is willing to receive on one stream.
#[derive(Debug, Clone, PartialEq, Eq)]
pub struct StreamMaxMoneyFrame {
    pub stream_id: u64,
    pub receive_max: u64,
    pub total_received: u64,
}

/// Most money the endpoint wants to send on one stream.
#[derive(Debug, Clone, PartialEq, Eq)]
pub struct StreamMoneyBlockedFrame {
    pub stream_id: u64,
    pub send_max: u64,
    pub total_sent: u64,
}

/// A segment of application data at a byte offset of one stream.
#[derive(Debug, Clone, PartialEq, Eq)]
pub struct StreamDataFrame {
    pub stream_id: u64,
    pub offset: u64,
    pub data: Vec<u8>,
}

/// Total bytes the endpoint is willing to receive on one stream.
#[derive(Debug, Clone, PartialEq, Eq)]
pub struct StreamMaxDataFrame {
    pub stream_id: u64,
    pub max_offset: u64,
}

/// Total bytes the endpoint wants to send on one stream.
#[derive(Debug, Clone, PartialEq, Eq)]
pub struct StreamDataBlockedFrame {
    pub stream_id: u64,
    pub max_offset: u64,
}

/// A STREAM frame: one of fourteen known kinds, or an unknown kind that is
/// skipped on decode and never emitted on encode.
#[derive(Debug, Clone, PartialEq, Eq)]
pub enum Frame {
    ConnectionClose(ConnectionCloseFrame),
    ConnectionNewAddress(ConnectionNewAddressFrame),
    ConnectionAssetDetails(ConnectionAssetDetailsFrame),
    ConnectionMaxData(ConnectionMaxDataFrame),
    ConnectionDataBlocked(ConnectionDataBlockedFrame),
    ConnectionMaxStreamId(ConnectionMaxStreamIdFrame),
    ConnectionStreamIdBlocked(ConnectionStreamIdBlockedFrame),
    StreamClose(StreamCloseFrame),
    StreamMoney(StreamMoneyFrame),
    StreamMaxMoney(StreamMaxMoneyFrame),
    StreamMoneyBlocked(StreamMoneyBlockedFrame),
    StreamData(StreamDataFrame),
    StreamMaxData(StreamMaxDataFrame),
    StreamDataBlocked(StreamDataBlockedFrame),
    Unknown,
}

impl View for ConnectionCloseFrame {
    type V = FrameV;

    open spec fn view(&self) -> FrameV {
        FrameV::ConnectionClose { code: self.code, message: self.message@ }
    }
}

impl View for ConnectionNewAddressFrame {
    type V = FrameV;

    open spec fn view(&self) -> FrameV {
        FrameV::ConnectionNewAddress { source_account: self.source_account@ }
    }
}

impl View for ConnectionAssetDetailsFrame {
    type V = FrameV;

    open spec fn view(&self) -> FrameV {
        FrameV::ConnectionAssetDetails {
            source_asset_code: self.source_asset_code@,
            source_asset_scale: self.source_asset_scale,
        }
    }
}

impl View for ConnectionMaxDataFrame {
    type V = FrameV;

    open spec fn view(&self) -> FrameV {
        FrameV::ConnectionMaxData { max_offset: self.max_offset }
    }
}

impl View for ConnectionDataBlockedFrame {
    type V = FrameV;

    open spec fn view(&self) -> FrameV {
        FrameV::ConnectionDataBlocked { max_offset: self.max_offset }
    }
}

impl View for ConnectionMaxStreamIdFrame {
    type V = FrameV;

    open spec fn view(&self) -> FrameV {
        FrameV::ConnectionMaxStreamId { max_stream_id: self.max_stream_id }
    }
}

impl View for ConnectionStreamIdBlockedFrame {
    type V = FrameV;

    open spec fn view(&self) -> FrameV {
        FrameV::ConnectionStreamIdBlocked { max_stream_id: self.max_stream_id }
    }
}

impl View for StreamCloseFrame {
    type V = FrameV;

    open spec fn view(&self) -> FrameV {
        FrameV::StreamClose {
            stream_id: self.stream_id,
            code: self.code,
            message: self.message@,
        }
    }
}

impl View for StreamMoneyFrame {
    type V = FrameV;

    open spec fn view(&self) -> FrameV {
        FrameV::StreamMoney { stream_id: self.stream_id, shares: self.shares }
    }
}

impl View for StreamMaxMoneyFrame {
    type V = FrameV;

    open spec fn view(&self) -> FrameV {
        FrameV::StreamMaxMoney {
            stream_id: self.stream_id,
            receive_max: self.receive_max,
            total_received: self.total_received,
        }
    }
}

impl View for StreamMoneyBlockedFrame {
    type V = FrameV;

    open spec fn view(&self) -> FrameV {
        FrameV::StreamMoneyBlocked {
            stream_id: self.stream_id,
            send_max: self.send_max,
            total_sent: self.total_sent,
        }
    }
}

impl View for StreamDataFrame {
    type V = FrameV;

    open spec fn view(&self) -> FrameV {
        FrameV::StreamData { stream_id: self.stream_id, offset: self.offset, data: self.data@ }
    }
}

impl View for StreamMaxDataFrame {
    type V = FrameV;

    open spec fn view(&self) -> FrameV {
        FrameV::StreamMaxData { stream_id: self.stream_id, max_offset: self.max_offset }
    }
}

impl View for StreamDataBlockedFrame {
    type V = FrameV;

    open spec fn view(&self) -> FrameV {
        FrameV::StreamDataBlocked { stream_id: self.stream_id, max_offset: self.max_offset }
    }
}

impl View for Frame {
    type V = FrameV;

    open spec fn view(&self) -> FrameV {
        match self {
            Frame::ConnectionClose(f) => f@,
            Frame::ConnectionNewAddress(f) => f@,
            Frame::ConnectionAssetDetails(f) => f@,
            Frame::ConnectionMaxData(f) => f@,
            Frame::ConnectionDataBlocked(f) => f@,
            Frame::ConnectionMaxStreamId(f) => f@,
            Frame::ConnectionStreamIdBlocked(f) => f@,
            Frame::StreamClose(f) => f@,
            Frame::StreamMoney(f) => f@,
            Frame::StreamMaxMoney(f) => f@,
            Frame::StreamMoneyBlocked(f) => f@,
            Frame::StreamData(f) => f@,
            Frame::StreamMaxData(f) => f@,
            Frame::StreamDataBlocked(f) => f@,
            Frame::Unknown => FrameV::Unknown,
        }
    }
}

/// Wire value of a frame's type tag.
pub open spec fn frame_type_byte(f: FrameV) -> u8 {
    match f {
        FrameV::ConnectionClose { .. } => 0x01,
        FrameV::ConnectionNewAddress { .. } => 0x02,
        FrameV::ConnectionMaxData { .. } => 0x03,
        FrameV::ConnectionDataBlocked { .. } => 0x04,
        FrameV::ConnectionMaxStreamId { .. } => 0x05,
        FrameV::ConnectionStreamIdBlocked { .. } => 0x06,
        FrameV::ConnectionAssetDetails { .. } => 0x07,
        FrameV::StreamClose { .. } => 0x10,
        FrameV::StreamMoney { .. } => 0x11,
        FrameV::StreamMaxMoney { .. } => 0x12,
        FrameV::StreamMoneyBlocked { .. } => 0x13,
        FrameV::StreamData { .. } => 0x14,
        FrameV::StreamMaxData { .. } => 0x15,
        FrameV::StreamDataBlocked { .. } => 0x16,
        FrameV::Unknown => 0x00,
    }
}

/// Serialized contents of a frame, without the type tag and length prefix.
pub open spec fn enc_frame_contents(f: FrameV) -> Seq<u8> {
    match f {
        FrameV::ConnectionClose { code, message } => seq![error_code_byte(code)] + enc_var_octet(
            message,
        ),
        FrameV::ConnectionNewAddress { source_account } => enc_var_octet(source_account),
        FrameV::ConnectionAssetDetails { source_asset_code, source_asset_scale } => enc_var_octet(
            source_asset_code,
        ) + seq![source_asset_scale],
        FrameV::ConnectionMaxData { max_offset } => enc_var_uint(max_offset),
        FrameV::ConnectionDataBlocked { max_offset } => enc_var_uint(max_offset),
        FrameV::ConnectionMaxStreamId { max_stream_id } => enc_var_uint(max_stream_id),
        FrameV::ConnectionStreamIdBlocked { max_stream_id } => enc_var_uint(max_stream_id),
        FrameV::StreamClose { stream_id, code, message } => enc_var_uint(stream_id) + seq![
            error_code_byte(code),
        ] + enc_var_octet(message),
        FrameV::StreamMoney { stream_id, shares } => enc_var_uint(stream_id) + enc_var_uint(shares),
        FrameV::StreamMaxMoney { stream_id, receive_max, total_received } => enc_var_uint(stream_id)
            + enc_var_uint(receive_max) + enc_var_uint(total_received),
        FrameV::StreamMoneyBlocked { stream_id, send_max, total_sent } => enc_var_uint(stream_id)
            + enc_var_uint(send_max) + enc_var_uint(total_sent),
        FrameV::StreamData { stream_id, offset, data } => enc_var_uint(stream_id) + enc_var_uint(
            offset,
        ) + enc_var_octet(data),
        FrameV::StreamMaxData { stream_id, max_offset } => enc_var_uint(stream_id) + enc_var_uint(
            max_offset,
        ),
        FrameV::StreamDataBlocked { stream_id, max_offset } => enc_var_uint(stream_id)
            + enc_var_uint(max_offset),
        FrameV::Unknown => seq![],
    }
}

/// A whole serialized frame: type tag, then length-prefixed contents. Unknown
/// frames are never emitted.
pub open spec fn enc_frame(f: FrameV) -> Seq<u8> {
    match f {
        FrameV::Unknown => seq![],
        _ => seq![frame_type_byte(f)] + enc_var_octet(enc_frame_contents(f)),
    }
}

/// Serialized form of a sequence of frames.
pub open spec fn enc_frames(fs: Seq<FrameV>) -> Seq<u8>
    decreases fs.len(),
{
    if fs.len() == 0 {
        seq![]
    } else {
        enc_frame(fs[0]) + enc_frames(fs.skip(1))
    }
}

/// A frame the codec may emit: a known kind whose byte fields are small
/// enough to length-prefix, and whose address (if any) is well formed.
pub open spec fn wf_frame(f: FrameV) -> bool {
    match f {
        FrameV::ConnectionClose { message, .. } => message.len() < 0x1_0000_0000,
        FrameV::ConnectionNewAddress { source_account } => valid_address(source_account),
        FrameV::ConnectionAssetDetails { source_asset_code, .. } => source_asset_code.len()
            < 0x1_0000_0000,
        FrameV::StreamClose { message, .. } => message.len() < 0x1_0000_0000,
        FrameV::StreamData { data, .. } => data.len() < 0x1_0000_0000,
        FrameV::Unknown => false,
        _ => true,
    }
}

/// Parses the contents of a ConnectionClose frame.
pub open spec fn parse_connection_close(s: Seq<u8>) -> Option<FrameV> {
    if s.len() == 0 {
        None
    } else {
        match take_var_octet(s.skip(1)) {
            None => None,
            Some((message, _)) => Some(
                FrameV::ConnectionClose { code: error_code_from_byte(s[0]), message },
            ),
        }
    }
}

/// Parses the contents of a ConnectionNewAddress frame; the address must be
/// well formed.
pub open spec fn parse_connection_new_address(s: Seq<u8>) -> Option<FrameV> {
    match take_var_octet(s) {
        None => None,
        Some((a, _)) => if valid_address(a) {
            Some(FrameV::ConnectionNewAddress { source_account: a })
        } else {
            None
        },
    }
}

/// Parses the contents of a ConnectionAssetDetails frame.
pub open spec fn parse_connection_asset_details(s: Seq<u8>) -> Option<FrameV> {
    match take_var_octet(s) {
        None => None,
        Some((code, rest)) => if rest.len() == 0 {
            None
        } else {
            Some(
                FrameV::ConnectionAssetDetails {
                    source_asset_code: code,
                    source_asset_scale: rest[0],
                },
            )
        },
    }
}

/// Parses the contents of a StreamClose frame.
pub open spec fn parse_stream_close(s: Seq<u8>) -> Option<FrameV> {
    match take_var_uint(s) {
        None => None,
        Some((stream_id, r1)) => if r1.len() == 0 {
            None
        } else {
            match take_var_octet(r1.skip(1)) {
                None => None,
                Some((message, _)) => Some(
                    FrameV::StreamClose {
                        stream_id,
                        code: error_code_from_byte(r1[0]),
                        message,
                    },
                ),
            }
        },
    }
}

/// Parses the contents of a StreamMoney frame.
pub open spec fn parse_stream_money(s: Seq<u8>) -> Option<FrameV> {
    match take_var_uint(s) {
        None => None,
        Some((stream_id, r1)) => match take_var_uint(r1) {
            None => None,
            Some((shares, _)) => Some(FrameV::StreamMoney { stream_id, shares }),
        },
    }
}

/// Parses the contents of a StreamMaxMoney frame; `receive_max` saturates.
pub open spec fn parse_stream_max_money(s: Seq<u8>) -> Option<FrameV> {
    match take_var_uint(s) {
        None => None,
        Some((stream_id, r1)) => match take_sat_var_uint(r1) {
            None => None,
            Some((receive_max, r2)) => match take_var_uint(r2) {
                None => None,
                Some((total_received, _)) => Some(
                    FrameV::StreamMaxMoney { stream_id, receive_max, total_received },
                ),
            },
        },
    }
}

/// Parses the contents of a StreamMoneyBlocked frame; `send_max` saturates.
pub open spec fn parse_stream_money_blocked(s: Seq<u8>) -> Option<FrameV> {
    match take_var_uint(s) {
        None => None,
        Some((stream_id, r1)) => match take_sat_var_uint(r1) {
            None => None,
            Some((send_max, r2)) => match take_var_uint(r2) {
                None => None,
                Some((total_sent, _)) => Some(
                    FrameV::StreamMoneyBlocked { stream_id, send_max, total_sent },
                ),
            },
        },
    }
}

/// Parses the contents of a StreamData frame.
pub open spec fn parse_stream_data(s: Seq<u8>) -> Option<FrameV> {
    match take_var_uint(s) {
        None => None,
        Some((stream_id, r1)) => match take_var_uint(r1) {
            None => None,
            Some((offset, r2)) => match take_var_octet(r2) {
                None => None,
                Some((data, _)) => Some(FrameV::StreamData { stream_id, offset, data }),
            },
        },
    }
}

/// Parses the contents of a frame that carries a single var uint.
pub open spec fn parse_one_uint(s: Seq<u8>) -> Option<u64> {
    match take_var_uint(s) {
        None => None,
        Some((x, _)) => Some(x),
    }
}

/// Parses the contents of a frame that carries two var uints.
pub open spec fn parse_two_uints(s: Seq<u8>) -> Option<(u64, u64)> {
    match take_var_uint(s) {
        None => None,
        Some((a, r1)) => match take_var_uint(r1) {
            None => None,
            Some((b, _)) => Some((a, b)),
        },
    }
}

/// Parses a frame's contents given its type tag. Unknown tags always parse to
/// the opaque `Unknown` frame; trailing bytes inside the contents are ignored.
pub open spec fn parse_frame_contents(t: u8, s: Seq<u8>) -> Option<FrameV> {
    match frame_type_from_byte(t) {
        FrameType::ConnectionClose => parse_connection_close(s),
        FrameType::ConnectionNewAddress => parse_connection_new_address(s),
        FrameType::ConnectionAssetDetails => parse_connection_asset_details(s),
        FrameType::ConnectionMaxData => match parse_one_uint(s) {
            None => None,
            Some(x) => Some(FrameV::ConnectionMaxData { max_offset: x }),
        },
        FrameType::ConnectionDataBlocked => match parse_one_uint(s) {
            None => None,
            Some(x) => Some(FrameV::ConnectionDataBlocked { max_offset: x }),
        },
        FrameType::ConnectionMaxStreamId => match parse_one_uint(s) {
            None => None,
            Some(x) => Some(FrameV::ConnectionMaxStreamId { max_stream_id: x }),
        },
        FrameType::ConnectionStreamIdBlocked => match parse_one_uint(s) {
            None => None,
            Some(x) => Some(FrameV::ConnectionStreamIdBlocked { max_stream_id: x }),
        },
        FrameType::StreamClose => parse_stream_close(s),
        FrameType::StreamMoney => parse_stream_money(s),
        FrameType::StreamMaxMoney => parse_stream_max_money(s),
        FrameType::StreamMoneyBlocked => parse_stream_money_blocked(s),
        FrameType::StreamData => parse_stream_data(s),
        FrameType::StreamMaxData => match parse_two_uints(s) {
            None => None,
            Some((stream_id, max_offset)) => Some(
                FrameV::StreamMaxData { stream_id, max_offset },
            ),
        },
        FrameType::StreamDataBlocked => match parse_two_uints(s) {
            None => None,
            Some((stream_id, max_offset)) => Some(
                FrameV::StreamDataBlocked { stream_id, max_offset },
            ),
        },
        FrameType::Unknown => Some(FrameV::Unknown),
    }
}

/// Parses one whole frame from the front of `b`: type tag, length-prefixed
/// contents, and the contents themselves.
pub open spec fn parse_one_frame(b: Seq<u8>) -> Option<(FrameV, Seq<u8>)> {
    if b.len() == 0 {
        None
    } else {
        match take_var_octet(b.skip(1)) {
            None => None,
            Some((contents, rest)) => match parse_frame_contents(b[0], contents) {
                None => None,
                Some(f) => Some((f, rest)),
            },
        }
    }
}

/// Parses exactly `n` frames, requiring the buffer to be fully consumed.
pub open spec fn parse_n_frames(b: Seq<u8>, n: nat) -> Option<Seq<FrameV>>
    decreases n,
{
    if n == 0 {
        if b.len() == 0 {
            Some(seq![])
        } else {
            None
        }
    } else {
        match parse_one_frame(b) {
            None => None,
            Some((f, rest)) => match parse_n_frames(rest, (n - 1) as nat) {
                None => None,
                Some(fs) => Some(seq![f] + fs),
            },
        }
    }
}

/// Appends a frame type tag followed by the length-prefixed contents.
fn put_tagged(buf: &mut Vec<u8>, t: u8, contents: &Vec<u8>)
    ensures
        final(buf)@ == old(buf)@ + seq![t] + enc_var_octet(contents@),
{
    buf.push(t);
    write_var_octet(buf, contents);
    assert(buf@ =~= old(buf)@ + seq![t] + enc_var_octet(contents@));
}

impl ConnectionCloseFrame {
    /// Serializes the frame's contents.
    pub fn put_contents(&self, buf: &mut Vec<u8>)
        ensures
            final(buf)@ == old(buf)@ + enc_frame_contents(self@),
    {
        buf.push(self.code.to_byte());
        write_var_octet(buf, &self.message);
        assert(buf@ =~= old(buf)@ + enc_frame_contents(self@));
    }

    /// Parses the frame's contents; trailing bytes are ignored.
    pub fn read_contents(b: &Vec<u8>) -> (r: Result<Self, ParseError>)
        ensures
            match r {
                Ok(f) => parse_frame_contents(0x01, b@) == Some(f@),
                Err(_) => parse_frame_contents(0x01, b@) is None,
            },
    {
        match read_u8(b, 0) {
            Err(e) => Err(e),
            Ok(cb) => {
                proof {
                    assert(suffix(b@, 1) =~= b@.skip(1));
                }
                match read_var_octet(b, 1) {
                    Err(e) => Err(e),
                    Ok((cs, ce)) => {
                        let message = copy_range(b, cs, ce);
                        Ok(ConnectionCloseFrame { code: ErrorCode::from_byte(cb), message })
                    },
                }
            },
        }
    }
}

impl ConnectionNewAddressFrame {
    /// Serializes the frame's contents.
    pub fn put_contents(&self, buf: &mut Vec<u8>)
        ensures
            final(buf)@ == old(buf)@ + enc_frame_contents(self@),
    {
        write_var_octet(buf, self.source_account.as_bytes());
        assert(buf@ =~= old(buf)@ + enc_frame_contents(self@));
    }

    /// Parses the frame's contents; the address must be well formed.
    pub fn read_contents(b: &Vec<u8>) -> (r: Result<Self, ParseError>)
        ensures
            match r {
                Ok(f) => parse_frame_contents(0x02, b@) == Some(f@),
                Err(_) => parse_frame_contents(0x02, b@) is None,
            },
    {
        proof {
            assert(suffix(b@, 0) =~= b@);
        }
        match read_var_octet(b, 0) {
            Err(e) => Err(e),
            Ok((cs, ce)) => {
                let bytes = copy_range(b, cs, ce);
                match Address::try_from(bytes) {
                    Err(e) => Err(e),
                    Ok(source_account) => Ok(ConnectionNewAddressFrame { source_account }),
                }
            },
        }
    }
}

impl ConnectionAssetDetailsFrame {
    /// Serializes the frame's contents.
    pub fn put_contents(&self, buf: &mut Vec<u8>)
        ensures
            final(buf)@ == old(buf)@ + enc_frame_contents(self@),
    {
        write_var_octet(buf, &self.source_asset_code);
        buf.push(self.source_asset_scale);
        assert(buf@ =~= old(buf)@ + enc_frame_contents(self@));
    }

    /// Parses the frame's contents; trailing bytes are ignored.
    #[verifier::rlimit(50)]
    pub fn read_contents(b: &Vec<u8>) -> (r: Result<Self, ParseError>)
        ensures
            match r {
                Ok(f) => parse_frame_contents(0x07, b@) == Some(f@),
                Err(_) => parse_frame_contents(0x07, b@) is None,
            },
    {
        proof {
            assert(suffix(b@, 0) =~= b@);
        }
        match read_var_octet(b, 0) {
            Err(e) => Err(e),
            Ok((cs, ce)) => {
                let source_asset_code = copy_range(b, cs, ce);
                match read_u8(b, ce) {
                    Err(e) => Err(e),
                    Ok(scale) => {
                        proof {
                            assert(suffix(b@, ce as int)[0] == b@[ce as int]);
                        }
                        Ok(
                            ConnectionAssetDetailsFrame {
                                source_asset_code,
                                source_asset_scale: scale,
                            },
                        )
                    },
                }
            },
        }
    }
}

impl ConnectionMaxDataFrame {
    /// Serializes the frame's contents.
    pub fn put_contents(&self, buf: &mut Vec<u8>)
        ensures
            final(buf)@ == old(buf)@ + enc_frame_contents(self@),
    {
        write_var_uint(buf, self.max_offset);
    }

    /// Parses the frame's contents; trailing bytes are ignored.
    pub fn read_contents(b: &Vec<u8>) -> (r: Result<Self, ParseError>)
        ensures
            match r {
                Ok(f) => parse_frame_contents(0x03, b@) == Some(f@),
                Err(_) => parse_frame_contents(0x03, b@) is None,
            },
    {
        proof {
            assert(suffix(b@, 0) =~= b@);
        }
        match read_var_uint(b, 0) {
            Err(e) => Err(e),
            Ok((max_offset, _)) => Ok(ConnectionMaxDataFrame { max_offset }),
        }
    }
}

impl ConnectionDataBlockedFrame {
    /// Serializes the frame's contents.
    pub fn put_contents(&self, buf: &mut Vec<u8>)
        ensures
            final(buf)@ == old(buf)@ + enc_frame_contents(self@),
    {
        write_var_uint(buf, self.max_offset);
    }

    /// Parses the frame's contents; trailing bytes are ignored.
    pub fn read_contents(b: &Vec<u8>) -> (r: Result<Self, ParseError>)
        ensures
            match r {
                Ok(f) => parse_frame_contents(0x04, b@) == Some(f@),
                Err(_) => parse_frame_contents(0x04, b@) is None,
            },
    {
        proof {
            assert(suffix(b@, 0) =~= b@);
        }
        match read_var_uint(b, 0) {
            Err(e) => Err(e),
            Ok((max_offset, _)) => Ok(ConnectionDataBlockedFrame { max_offset }),
        }
    }
}

impl ConnectionMaxStreamIdFrame {
    /// Serializes the frame's contents.
    pub fn put_contents(&self, buf: &mut Vec<u8>)
        ensures
            final(buf)@ == old(buf)@ + enc_frame_contents(self@),
    {
        write_var_uint(buf, self.max_stream_id);
    }

    /// Parses the frame's contents; trailing bytes are ignored.
    pub fn read_contents(b: &Vec<u8>) -> (r: Result<Self, ParseError>)
        ensures
            match r {
                Ok(f) => parse_frame_contents(0x05, b@) == Some(f@),
                Err(_) => parse_frame_contents(0x05, b@) is None,
            },
    {
        proof {
            assert(suffix(b@, 0) =~= b@);
        }
        match read_var_uint(b, 0) {
            Err(e) => Err(e),
            Ok((max_stream_id, _)) => Ok(ConnectionMaxStreamIdFrame { max_stream_id }),
        }
    }
}

impl ConnectionStreamIdBlockedFrame {
    /// Serializes the frame's contents.
    pub fn put_contents(&self, buf: &mut Vec<u8>)
        ensures
            final(buf)@ == old(buf)@ + enc_frame_contents(self@),
    {
        write_var_uint(buf, self.max_stream_id);
    }

    /// Parses the frame's contents; trailing bytes are ignored.
    pub fn read_contents(b: &Vec<u8>) -> (r: Result<Self, ParseError>)
        ensures
            match r {
                Ok(f) => parse_frame_contents(0x06, b@) == Some(f@),
                Err(_) => parse_frame_contents(0x06, b@) is None,
            },
    {
        proof {
            assert(suffix(b@, 0) =~= b@);
        }
        match read_var_uint(b, 0) {
            Err(e) => Err(e),
            Ok((max_stream_id, _)) => Ok(ConnectionStreamIdBlockedFrame { max_stream_id }),
        }
    }
}

impl StreamCloseFrame {
    /// Serializes the frame's contents.
    pub fn put_contents(&self, buf: &mut Vec<u8>)
        ensures
            final(buf)@ == old(buf)@ + enc_frame_contents(self@),
    {
        write_var_uint(buf, self.stream_id);
        buf.push(self.code.to_byte());
        write_var_octet(buf, &self.message);
        assert(buf@ =~= old(buf)@ + enc_frame_contents(self@));
    }

    /// Parses the frame's contents; trailing bytes are ignored.
    pub fn read_contents(b: &Vec<u8>) -> (r: Result<Self, ParseError>)
        ensures
            match r {
                Ok(f) => parse_frame_contents(0x10, b@) == Some(f@),
                Err(_) => parse_frame_contents(0x10, b@) is None,
            },
    {
        proof {
            assert(suffix(b@, 0) =~= b@);
        }
        match read_var_uint(b, 0) {
            Err(e) => Err(e),
            Ok((stream_id, p1)) => match read_u8(b, p1) {
                Err(e) => Err(e),
                Ok(cb) => {
                    proof {
                        assert(suffix(b@, p1 as int)[0] == b@[p1 as int]);
                        assert(suffix(b@, p1 as int).skip(1) =~= suffix(b@, p1 as int + 1));
                    }
                    match read_var_octet(b, p1 + 1) {
                        Err(e) => Err(e),
                        Ok((cs, ce)) => {
                            let message = copy_range(b, cs, ce);
                            Ok(
                                StreamCloseFrame {
                                    stream_id,
                                    code: ErrorCode::from_byte(cb),
                                    message,
                                },
                            )
                        },
                    }
                },
            },
        }
    }
}

impl StreamMoneyFrame {
    /// Serializes the frame's contents.
    pub fn put_contents(&self, buf: &mut Vec<u8>)
        ensures
            final(buf)@ == old(buf)@ + enc_frame_contents(self@),
    {
        write_var_uint(buf, self.stream_id);
        write_var_uint(buf, self.shares);
        assert(buf@ =~= old(buf)@ + enc_frame_contents(self@));
    }

    /// Parses the frame's contents; trailing bytes are ignored.
    pub fn read_contents(b: &Vec<u8>) -> (r: Result<Self, ParseError>)
        ensures
            match r {
                Ok(f) => parse_frame_contents(0x11, b@) == Some(f@),
                Err(_) => parse_frame_contents(0x11, b@) is None,
            },
    {
        proof {
            assert(suffix(b@, 0) =~= b@);
        }
        match read_var_uint(b, 0) {
            Err(e) => Err(e),
            Ok((stream_id, p1)) => match read_var_uint(b, p1) {
                Err(e) => Err(e),
                Ok((shares, _)) => Ok(StreamMoneyFrame { stream_id, shares }),
            },
        }
    }
}

impl StreamMaxMoneyFrame {
    /// Serializes the frame's contents.
    pub fn put_contents(&self, buf: &mut Vec<u8>)
        ensures
            final(buf)@ == old(buf)@ + enc_frame_contents(self@),
    {
        write_var_uint(buf, self.stream_id);
        write_var_uint(buf, self.receive_max);
        write_var_uint(buf, self.total_received);
        assert(buf@ =~= old(buf)@ + enc_frame_contents(self@));
    }

    /// Parses the frame's contents; `receive_max` saturates to `u64::MAX` when
    /// its encoding is longer than eight bytes, and trailing bytes are ignored.
    pub fn read_contents(b: &Vec<u8>) -> (r: Result<Self, ParseError>)
        ensures
            match r {
                Ok(f) => parse_frame_contents(0x12, b@) == Some(f@),
                Err(_) => parse_frame_contents(0x12, b@) is None,
            },
    {
        proof {
            assert(suffix(b@, 0) =~= b@);
        }
        match read_var_uint(b, 0) {
            Err(e) => Err(e),
            Ok((stream_id, p1)) => match read_sat_var_uint(b, p1) {
                Err(e) => Err(e),
                Ok((receive_max, p2)) => match read_var_uint(b, p2) {
                    Err(e) => Err(e),
                    Ok((total_received, _)) => Ok(
                        StreamMaxMoneyFrame { stream_id, receive_max, total_received },
                    ),
                },
            },
        }
    }
}

impl StreamMoneyBlockedFrame {
    /// Serializes the frame's contents.
    pub fn put_contents(&self, buf: &mut Vec<u8>)
        ensures
            final(buf)@ == old(buf)@ + enc_frame_contents(self@),
    {
        write_var_uint(buf, self.stream_id);
        write_var_uint(buf, self.send_max);
        write_var_uint(buf, self.total_sent);
        assert(buf@ =~= old(buf)@ + enc_frame_contents(self@));
    }

    /// Parses the frame's contents; `send_max` saturates to `u64::MAX` when
    /// its encoding is longer than eight bytes, and trailing bytes are ignored.
    pub fn read_contents(b: &Vec<u8>) -> (r: Result<Self, ParseError>)
        ensures
            match r {
                Ok(f) => parse_frame_contents(0x13, b@) == Some(f@),
                Err(_) => parse_frame_contents(0x13, b@) is None,
            },
    {
        proof {
            assert(suffix(b@, 0) =~= b@);
        }
        match read_var_uint(b, 0) {
            Err(e) => Err(e),
            Ok((stream_id, p1)) => match read_sat_var_uint(b, p1) {
                Err(e) => Err(e),
                Ok((send_max, p2)) => match read_var_uint(b, p2) {
                    Err(e) => Err(e),
                    Ok((total_sent, _)) => Ok(
                        StreamMoneyBlockedFrame { stream_id, send_max, total_sent },
                    ),
                },
            },
        }
    }
}

impl StreamDataFrame {
    /// Serializes the frame's contents.
    pub fn put_contents(&self, buf: &mut Vec<u8>)
        ensures
            final(buf)@ == old(buf)@ + enc_frame_contents(self@),
    {
        write_var_uint(buf, self.stream_id);
        write_var_uint(buf, self.offset);
        write_var_octet(buf, &self.data);
        assert(buf@ =~= old(buf)@ + enc_frame_contents(self@));
    }

    /// Parses the frame's contents; trailing bytes are ignored.
    pub fn read_contents(b: &Vec<u8>) -> (r: Result<Self, ParseError>)
        ensures
            match r {
                Ok(f) => parse_frame_contents(0x14, b@) == Some(f@),
                Err(_) => parse_frame_contents(0x14, b@) is None,
            },
    {
        proof {
            assert(suffix(b@, 0) =~= b@);
        }
        match read_var_uint(b, 0) {
            Err(e) => Err(e),
            Ok((stream_id, p1)) => match read_var_uint(b, p1) {
                Err(e) => Err(e),
                Ok((offset, p2)) => match read_var_octet(b, p2) {
                    Err(e) => Err(e),
                    Ok((cs, ce)) => {
                        let data = copy_range(b, cs, ce);
                        Ok(StreamDataFrame { stream_id, offset, data })
                    },
                },
            },
        }
    }
}

impl StreamMaxDataFrame {
    /// Serializes the frame's contents.
    pub fn put_contents(&self, buf: &mut Vec<u8>)
        ensures
            final(buf)@ == old(buf)@ + enc_frame_contents(self@),
    {
        write_var_uint(buf, self.stream_id);
        write_var_uint(buf, self.max_offset);
        assert(buf@ =~= old(buf)@ + enc_frame_contents(self@));
    }

    /// Parses the frame's contents; trailing bytes are ignored.
    pub fn read_contents(b: &Vec<u8>) -> (r: Result<Self, ParseError>)
        ensures
            match r {
                Ok(f) => parse_frame_contents(0x15, b@) == Some(f@),
                Err(_) => parse_frame_contents(0x15, b@) is None,
            },
    {
        proof {
            assert(suffix(b@, 0) =~= b@);
        }
        match read_var_uint(b, 0) {
            Err(e) => Err(e),
            Ok((stream_id, p1)) => match read_var_uint(b, p1) {
                Err(e) => Err(e),
                Ok((max_offset, _)) => Ok(StreamMaxDataFrame { stream_id, max_offset }),
            },
        }
    }
}

impl StreamDataBlockedFrame {
    /// Serializes the frame's contents.
    pub fn put_contents(&self, buf: &mut Vec<u8>)
        ensures
            final(buf)@ == old(buf)@ + enc_frame_contents(self@),
    {
        write_var_uint(buf, self.stream_id);
        write_var_uint(buf, self.max_offset);
        assert(buf@ =~= old(buf)@ + enc_frame_contents(self@));
    }

    /// Parses the frame's contents; trailing bytes are ignored.
    pub fn read_contents(b: &Vec<u8>) -> (r: Result<Self, ParseError>)
        ensures
            match r {
                Ok(f) => parse_frame_contents(0x16, b@) == Some(f@),
                Err(_) => parse_frame_contents(0x16, b@) is None,
            },
    {
        proof {
            assert(suffix(b@, 0) =~= b@);
        }
        match read_var_uint(b, 0) {
            Err(e) => Err(e),
            Ok((stream_id, p1)) => match read_var_uint(b, p1) {
                Err(e) => Err(e),
                Ok((max_offset, _)) => Ok(StreamDataBlockedFrame { stream_id, max_offset }),
            },
        }
    }
}

impl Frame {
    /// Appends the frame's serialized form to `buf`; unknown frames emit
    /// nothing.
    pub fn put(&self, buf: &mut Vec<u8>)
        ensures
            final(buf)@ == old(buf)@ + enc_frame(self@),
    {
        let mut contents: Vec<u8> = Vec::new();
        match self {
            Frame::ConnectionClose(f) => {
                f.put_contents(&mut contents);
                put_tagged(buf, 0x01, &contents);
                assert(buf@ =~= old(buf)@ + enc_frame(self@));
            },
            Frame::ConnectionNewAddress(f) => {
                f.put_contents(&mut contents);
                put_tagged(buf, 0x02, &contents);
                assert(buf@ =~= old(buf)@ + enc_frame(self@));
            },
            Frame::ConnectionAssetDetails(f) => {
                f.put_contents(&mut contents);
                put_tagged(buf, 0x07, &contents);
                assert(buf@ =~= old(buf)@ + enc_frame(self@));
            },
            Frame::ConnectionMaxData(f) => {
                f.put_contents(&mut contents);
                put_tagged(buf, 0x03, &contents);
                assert(buf@ =~= old(buf)@ + enc_frame(self@));
            },
            Frame::ConnectionDataBlocked(f) => {
                f.put_contents(&mut contents);
                put_tagged(buf, 0x04, &contents);
                assert(buf@ =~= old(buf)@ + enc_frame(self@));
            },
            Frame::ConnectionMaxStreamId(f) => {
                f.put_contents(&mut contents);
                put_tagged(buf, 0x05, &contents);
                assert(buf@ =~= old(buf)@ + enc_frame(self@));
            },
            Frame::ConnectionStreamIdBlocked(f) => {
                f.put_contents(&mut contents);
                put_tagged(buf, 0x06, &contents);
                assert(buf@ =~= old(buf)@ + enc_frame(self@));
            },
            Frame::StreamClose(f) => {
                f.put_contents(&mut contents);
                put_tagged(buf, 0x10, &contents);
                assert(buf@ =~= old(buf)@ + enc_frame(self@));
            },
            Frame::StreamMoney(f) => {
                f.put_contents(&mut contents);
                put_tagged(buf, 0x11, &contents);
                assert(buf@ =~= old(buf)@ + enc_frame(self@));
            },
            Frame::StreamMaxMoney(f) => {
                f.put_contents(&mut contents);
                put_tagged(buf, 0x12, &contents);
                assert(buf@ =~= old(buf)@ + enc_frame(self@));
            },
            Frame::StreamMoneyBlocked(f) => {
                f.put_contents(&mut contents);
                put_tagged(buf, 0x13, &contents);
                assert(buf@ =~= old(buf)@ + enc_frame(self@));
            },
            Frame::StreamData(f) => {
                f.put_contents(&mut contents);
                put_tagged(buf, 0x14, &contents);
                assert(buf@ =~= old(buf)@ + enc_frame(self@));
            },
            Frame::StreamMaxData(f) => {
                f.put_contents(&mut contents);
                put_tagged(buf, 0x15, &contents);
                assert(buf@ =~= old(buf)@ + enc_frame(self@));
            },
            Frame::StreamDataBlocked(f) => {
                f.put_contents(&mut contents);
                put_tagged(buf, 0x16, &contents);
                assert(buf@ =~= old(buf)@ + enc_frame(self@));
            },
            Frame::Unknown => {
                assert(buf@ =~= old(buf)@ + enc_frame(self@));
            },
        }
    }
}

/// Reads one whole frame at `pos`; returns the frame and the position after
/// it. Frames with unknown type tags read as `Frame::Unknown`.
pub fn read_frame(b: &Vec<u8>, pos: usize) -> (r: Result<(Frame, usize), ParseError>)
    requires
        pos <= b@.len(),
    ensures
        match r {
            Ok((f, p2)) => pos < p2 <= b@.len() && parse_one_frame(suffix(b@, pos as int)) == Some(
                (f@, suffix(b@, p2 as int)),
            ),
            Err(_) => parse_one_frame(suffix(b@, pos as int)) is None,
        },
{
    let blen = b.len();
    match read_u8(b, pos) {
        Err(e) => Err(e),
        Ok(t) => {
            proof {
                assert(suffix(b@, pos as int)[0] == b@[pos as int]);
                assert(suffix(b@, pos as int).skip(1) =~= suffix(b@, pos as int + 1));
            }
            match read_var_octet(b, pos + 1) {
                Err(e) => Err(e),
                Ok((cs, ce)) => {
                    let contents = copy_range(b, cs, ce);
                    match read_frame_contents(t, &contents) {
                        Ok(f) => Ok((f, ce)),
                        Err(e) => Err(e),
                    }
                },
            }
        },
    }
}

/// Parses a frame's contents given its type tag; unknown tags yield
/// `Frame::Unknown`.
#[verifier::rlimit(60)]
pub fn read_frame_contents(t: u8, contents: &Vec<u8>) -> (r: Result<Frame, ParseError>)
    ensures
        match r {
            Ok(f) => parse_frame_contents(t, contents@) == Some(f@),
            Err(_) => parse_frame_contents(t, contents@) is None,
        },
{
    match FrameType::from_byte(t) {
        FrameType::ConnectionClose => match ConnectionCloseFrame::read_contents(contents) {
            Ok(f) => Ok(Frame::ConnectionClose(f)),
            Err(e) => Err(e),
        },
        FrameType::ConnectionNewAddress => match ConnectionNewAddressFrame::read_contents(
            contents,
        ) {
            Ok(f) => Ok(Frame::ConnectionNewAddress(f)),
            Err(e) => Err(e),
        },
        FrameType::ConnectionAssetDetails => match ConnectionAssetDetailsFrame::read_contents(
            contents,
        ) {
            Ok(f) => Ok(Frame::ConnectionAssetDetails(f)),
            Err(e) => Err(e),
        },
        FrameType::ConnectionMaxData => match ConnectionMaxDataFrame::read_contents(contents) {
            Ok(f) => Ok(Frame::ConnectionMaxData(f)),
            Err(e) => Err(e),
        },
        FrameType::ConnectionDataBlocked => match ConnectionDataBlockedFrame::read_contents(
            contents,
        ) {
            Ok(f) => Ok(Frame::ConnectionDataBlocked(f)),
            Err(e) => Err(e),
        },
        FrameType::ConnectionMaxStreamId => match ConnectionMaxStreamIdFrame::read_contents(
            contents,
        ) {
            Ok(f) => Ok(Frame::ConnectionMaxStreamId(f)),
            Err(e) => Err(e),
        },
        FrameType::ConnectionStreamIdBlocked => match
        ConnectionStreamIdBlockedFrame::read_contents(contents) {
            Ok(f) => Ok(Frame::ConnectionStreamIdBlocked(f)),
            Err(e) => Err(e),
        },
        FrameType::StreamClose => match StreamCloseFrame::read_contents(contents) {
            Ok(f) => Ok(Frame::StreamClose(f)),
            Err(e) => Err(e),
        },
        FrameType::StreamMoney => match StreamMoneyFrame::read_contents(contents) {
            Ok(f) => Ok(Frame::StreamMoney(f)),
            Err(e) => Err(e),
        },
        FrameType::StreamMaxMoney => match StreamMaxMoneyFrame::read_contents(contents) {
            Ok(f) => Ok(Frame::StreamMaxMoney(f)),
            Err(e) => Err(e),
        },
        FrameType::StreamMoneyBlocked => match StreamMoneyBlockedFrame::read_contents(contents) {
            Ok(f) => Ok(Frame::StreamMoneyBlocked(f)),
            Err(e) => Err(e),
        },
        FrameType::StreamData => match StreamDataFrame::read_contents(contents) {
            Ok(f) => Ok(Frame::StreamData(f)),
            Err(e) => Err(e),
        },
        FrameType::StreamMaxData => match StreamMaxDataFrame::read_contents(contents) {
            Ok(f) => Ok(Frame::StreamMaxData(f)),
            Err(e) => Err(e),
        },
        FrameType::StreamDataBlocked => match StreamDataBlockedFrame::read_contents(contents) {
            Ok(f) => Ok(Frame::StreamDataBlocked(f)),
            Err(e) => Err(e),
        },
        FrameType::Unknown => Ok(Frame::Unknown),
    }
}

/// View of a sequence of frames.
pub open spec fn frames_view(s: Seq<Frame>) -> Seq<FrameV> {
    s.map_values(|f: Frame| f@)
}

/// How many of these frames are emitted on the wire: every frame except the
/// opaque `Unknown`, which must never be emitted.
pub open spec fn emitted_count(fs: Seq<FrameV>) -> nat
    decreases fs.len(),
{
    if fs.len() == 0 {
        0
    } else {
        emitted_count(fs.drop_last()) + (if fs.last() is Unknown {
            0nat
        } else {
            1nat
        })
    }
}

/// The frames that survive building a packet: everything except `Unknown`,
/// in order.
pub open spec fn kept_frames(fs: Seq<FrameV>) -> Seq<FrameV>
    decreases fs.len(),
{
    if fs.len() == 0 {
        seq![]
    } else if fs.last() is Unknown {
        kept_frames(fs.drop_last())
    } else {
        kept_frames(fs.drop_last()).push(fs.last())
    }
}

/// Without `Unknown` frames, every frame is emitted.
pub proof fn lemma_emitted_count_all(fs: Seq<FrameV>)
    requires
        forall|i: int| 0 <= i < fs.len() ==> !((#[trigger] fs[i]) is Unknown),
    ensures
        emitted_count(fs) == fs.len(),
    decreases fs.len(),
{
    if fs.len() > 0 {
        assert(fs.last() == fs[fs.len() - 1]);
        assert(forall|i: int|
            0 <= i < fs.drop_last().len() ==> !((#[trigger] fs.drop_last()[i]) is Unknown));
        lemma_emitted_count_all(fs.drop_last());
    }
}

/// Without `Unknown` frames, building keeps every frame.
pub proof fn lemma_kept_frames_id(fs: Seq<FrameV>)
    requires
        forall|i: int| 0 <= i < fs.len() ==> !((#[trigger] fs[i]) is Unknown),
    ensures
        kept_frames(fs) == fs,
    decreases fs.len(),
{
    if fs.len() > 0 {
        assert(fs.last() == fs[fs.len() - 1]);
        assert(forall|i: int|
            0 <= i < fs.drop_last().len() ==> !((#[trigger] fs.drop_last()[i]) is Unknown));
        lemma_kept_frames_id(fs.drop_last());
        assert(kept_frames(fs.drop_last()).push(fs.last()) =~= fs);
    }
}

/// Mathematical model of a STREAM packet.
pub struct StreamPacketV {
    pub sequence: u64,
    pub ilp_packet_type: PacketType,
    pub prepare_amount: u64,
    pub frames: Seq<FrameV>,
}

/// A packet the codec may emit: every frame well formed, and few enough
/// frames to count in a `u64`.
pub open spec fn wf_packet(p: StreamPacketV) -> bool {
    &&& p.frames.len() < 0x1_0000_0000
    &&& (forall|i: int| 0 <= i < p.frames.len() ==> wf_frame(#[trigger] p.frames[i]))
}

/// Serialized form of a whole STREAM packet.
pub open spec fn enc_packet(p: StreamPacketV) -> Seq<u8> {
    seq![STREAM_VERSION, packet_type_byte(p.ilp_packet_type)] + enc_var_uint(p.sequence)
        + enc_var_uint(p.prepare_amount) + enc_var_uint(emitted_count(p.frames) as u64)
        + enc_frames(p.frames)
}

/// Parses a whole STREAM packet: version, type, sequence, amount, frame
/// count, then exactly that many frames with nothing left over.
pub open spec fn parse_packet(b: Seq<u8>) -> Option<StreamPacketV> {
    if b.len() < 2 {
        None
    } else if b[0] != STREAM_VERSION {
        None
    } else {
        match packet_type_from_byte(b[1]) {
            None => None,
            Some(ilp_packet_type) => match take_var_uint(b.skip(2)) {
                None => None,
                Some((sequence, r1)) => match take_var_uint(r1) {
                    None => None,
                    Some((prepare_amount, r2)) => match take_var_uint(r2) {
                        None => None,
                        Some((num_frames, r3)) => match parse_n_frames(r3, num_frames as nat) {
                            None => None,
                            Some(frames) => Some(
                                StreamPacketV { sequence, ilp_packet_type, prepare_amount, frames },
                            ),
                        },
                    },
                },
            },
        }
    }
}

/// Builder for STREAM packets.
pub struct StreamPacketBuilder {
    /// The packet's sequence number.
    pub sequence: u64,
    /// The ILP packet type this STREAM packet rides in.
    pub ilp_packet_type: PacketType,
    /// Minimum delivery in a Prepare; actual delivery in a Fulfill or Reject.
    pub prepare_amount: u64,
    /// The packet's frames, in order.
    pub frames: Vec<Frame>,
}

/// A STREAM packet: version 1, an ILP packet type, a sequence number, the
/// prepare amount and an ordered list of frames.
#[derive(Debug, Clone, PartialEq)]
pub struct StreamPacket {
    sequence: u64,
    ilp_packet_type: PacketType,
    prepare_amount: u64,
    frames: Vec<Frame>,
}

impl View for StreamPacket {
    type V = StreamPacketV;

    closed spec fn view(&self) -> StreamPacketV {
        StreamPacketV {
            sequence: self.sequence,
            ilp_packet_type: self.ilp_packet_type,
            prepare_amount: self.prepare_amount,
            frames: frames_view(self.frames@),
        }
    }
}

/// Prepends `a` to a parse result.
pub open spec fn opt_prepend(a: Seq<FrameV>, o: Option<Seq<FrameV>>) -> Option<Seq<FrameV>> {
    match o {
        None => None,
        Some(fs) => Some(a + fs),
    }
}

/// Wraps a frame parse result into a packet parse result.
pub open spec fn opt_packet(
    sequence: u64,
    ilp_packet_type: PacketType,
    prepare_amount: u64,
    o: Option<Seq<FrameV>>,
) -> Option<StreamPacketV> {
    match o {
        None => None,
        Some(frames) => Some(StreamPacketV { sequence, ilp_packet_type, prepare_amount, frames }),
    }
}

proof fn lemma_opt_prepend_assoc(a: Seq<FrameV>, b: Seq<FrameV>, o: Option<Seq<FrameV>>)
    ensures
        opt_prepend(a, opt_prepend(b, o)) == opt_prepend(a + b, o),
{
    match o {
        None => {
        },
        Some(fs) => {
            assert(a + (b + fs) =~= (a + b) + fs);
        },
    }
}

proof fn lemma_frames_view_push(s: Seq<Frame>, f: Frame)
    ensures
        frames_view(s.push(f)) == frames_view(s) + seq![f@],
{
    assert(frames_view(s.push(f)) =~= frames_view(s) + seq![f@]);
}

impl StreamPacketBuilder {
    /// Assembles the packet from the builder's fields. `Unknown` frames must
    /// never be emitted, so they are dropped here.
    pub fn build(self) -> (p: StreamPacket)
        ensures
            p@ == (StreamPacketV {
                sequence: self.sequence,
                ilp_packet_type: self.ilp_packet_type,
                prepare_amount: self.prepare_amount,
                frames: kept_frames(frames_view(self.frames@)),
            }),
    {
        let ghost orig = frames_view(self.frames@);
        let total = self.frames.len();
        let mut source = self.frames;
        let mut frames: Vec<Frame> = Vec::new();
        proof {
            assert(frames_view(source@) =~= orig.skip(0));
            assert(frames_view(frames@) =~= kept_frames(orig.take(0)));
        }
        let mut k: usize = 0;
        while source.len() > 0
            invariant
                k <= total,
                k + source@.len() == total == orig.len(),
                frames_view(source@) == orig.skip(k as int),
                frames_view(frames@) == kept_frames(orig.take(k as int)),
            decreases source@.len(),
        {
            let ghost prev_src = source@;
            let f = source.remove(0);
            proof {
                assert(frames_view(prev_src)[0] == f@);
                assert(orig.skip(k as int)[0] == orig[k as int]);
                assert(source@ =~= prev_src.skip(1));
                assert(frames_view(source@) =~= frames_view(prev_src).skip(1));
                assert(frames_view(prev_src).skip(1) =~= orig.skip(k as int + 1));
                assert(orig.take(k as int + 1).drop_last() =~= orig.take(k as int));
                assert(orig.take(k as int + 1).last() == orig[k as int]);
            }
            match f {
                Frame::Unknown => {
                },
                other => {
                    let ghost prev = frames_view(frames@);
                    frames.push(other);
                    proof {
                        assert(frames_view(frames@) =~= prev.push(orig[k as int]));
                    }
                },
            }
            k = k + 1;
        }
        proof {
            assert(orig.take(orig.len() as int) =~= orig);
        }
        StreamPacket {
            sequence: self.sequence,
            ilp_packet_type: self.ilp_packet_type,
            prepare_amount: self.prepare_amount,
            frames,
        }
    }
}

/// Appending to a frame sequence appends the serialized forms.
pub proof fn lemma_enc_frames_app(a: Seq<FrameV>, b: Seq<FrameV>)
    ensures
        enc_frames(a + b) == enc_frames(a) + enc_frames(b),
    decreases a.len(),
{
    if a.len() == 0 {
        assert(a + b =~= b);
        assert(enc_frames(a) + enc_frames(b) =~= enc_frames(b));
    } else {
        assert((a + b)[0] == a[0]);
        assert((a + b).skip(1) =~= a.skip(1) + b);
        assert((a + b).len() != 0);
        lemma_enc_frames_app(a.skip(1), b);
        assert(enc_frames(a + b) == enc_frame(a[0]) + (enc_frames(a.skip(1)) + enc_frames(b)));
        assert(enc_frame(a[0]) + (enc_frames(a.skip(1)) + enc_frames(b)) =~= (enc_frame(a[0])
            + enc_frames(a.skip(1))) + enc_frames(b));
    }
}

impl StreamPacket {
    /// The packet's sequence number.
    pub fn sequence(&self) -> (r: u64)
        ensures
            r == self@.sequence,
    {
        self.sequence
    }

    /// The ILP packet type this STREAM packet rides in.
    pub fn ilp_packet_type(&self) -> (r: PacketType)
        ensures
            r == self@.ilp_packet_type,
    {
        self.ilp_packet_type
    }

    /// Minimum delivery in a Prepare; actual delivery in a Fulfill or Reject.
    pub fn prepare_amount(&self) -> (r: u64)
        ensures
            r == self@.prepare_amount,
    {
        self.prepare_amount
    }

    /// The packet's frames, in order.
    pub fn frames(&self) -> (r: &Vec<Frame>)
        ensures
            frames_view(r@) == self@.frames,
    {
        &self.frames
    }

    /// Serializes the packet to its cleartext wire form.
    pub fn to_bytes_unencrypted(&self) -> (r: Vec<u8>)
        ensures
            r@ == enc_packet(self@),
    {
        let mut buf: Vec<u8> = Vec::new();
        buf.push(STREAM_VERSION);
        buf.push(self.ilp_packet_type.to_byte());
        write_var_uint(&mut buf, self.sequence);
        write_var_uint(&mut buf, self.prepare_amount);
        let ghost fv = frames_view(self.frames@);
        let n = self.frames.len();
        let mut emitted: u64 = 0;
        let mut j: usize = 0;
        proof {
            assert(emitted_count(fv.take(0)) == 0) by {
                assert(fv.take(0) =~= Seq::<FrameV>::empty());
            }
        }
        while j < n
            invariant
                j <= n == self.frames@.len(),
                fv == frames_view(self.frames@),
                emitted == emitted_count(fv.take(j as int)),
                emitted <= j,
            decreases n - j,
        {
            proof {
                assert(fv.take(j as int + 1).drop_last() =~= fv.take(j as int));
                assert(fv.take(j as int + 1).last() == fv[j as int]);
            }
            match &self.frames[j] {
                Frame::Unknown => {
                },
                _ => {
                    emitted = emitted + 1;
                },
            }
            j = j + 1;
        }
        proof {
            assert(fv.take(n as int) =~= fv);
        }
        write_var_uint(&mut buf, emitted);
        let ghost hdr = buf@;
        let mut i: usize = 0;
        proof {
            assert(fv.take(0) =~= Seq::<FrameV>::empty());
            assert(buf@ =~= hdr + enc_frames(fv.take(0)));
        }
        while i < n
            invariant
                i <= n == self.frames@.len(),
                fv == frames_view(self.frames@),
                buf@ == hdr + enc_frames(fv.take(i as int)),
            decreases n - i,
        {
            self.frames[i].put(&mut buf);
            proof {
                assert(self.frames@[i as int]@ == fv[i as int]);
                assert(fv.take(i as int + 1) =~= fv.take(i as int) + seq![fv[i as int]]);
                lemma_enc_frames_app(fv.take(i as int), seq![fv[i as int]]);
                assert(seq![fv[i as int]].skip(1) =~= Seq::<FrameV>::empty());
                assert(seq![fv[i as int]].len() == 1);
                assert(enc_frames(Seq::<FrameV>::empty()) =~= Seq::<u8>::empty());
                assert(enc_frames(seq![fv[i as int]]) == enc_frame(seq![fv[i as int]][0])
                    + enc_frames(seq![fv[i as int]].skip(1)));
                assert(enc_frames(seq![fv[i as int]]) =~= enc_frame(fv[i as int]));
                assert(buf@ =~= hdr + enc_frames(fv.take(i as int + 1)));
            }
            i = i + 1;
        }
        proof {
            assert(fv.take(n as int) =~= fv);
            assert(hdr + enc_frames(fv) =~= enc_packet(self@));
        }
        buf
    }

    /// Parses a packet from its cleartext wire form: the version must be 1,
    /// the type must be a known ILP packet type, and the frame count must
    /// match the frames present, with no bytes left over.
    #[verifier::rlimit(100)]
    pub fn from_bytes_unencrypted(data: Vec<u8>) -> (r: Result<StreamPacket, ParseError>)
        ensures
            match r {
                Ok(p) => parse_packet(data@) == Some(p@),
                Err(_) => parse_packet(data@) is None,
            },
    {
        let b = &data;
        let blen = b.len();
        if blen < 2 {
            return Err(ParseError::InvalidPacket);
        }
        if b[0] != STREAM_VERSION {
            return Err(ParseError::InvalidPacket);
        }
        let ilp_packet_type = match PacketType::try_from_byte(b[1]) {
            Ok(t) => t,
            Err(e) => {
                return Err(e);
            },
        };
        proof {
            assert(b@.skip(2) =~= suffix(b@, 2));
        }
        let (sequence, p1) = match read_var_uint(b, 2) {
            Ok(v) => v,
            Err(e) => {
                return Err(e);
            },
        };
        let (prepare_amount, p2) = match read_var_uint(b, p1) {
            Ok(v) => v,
            Err(e) => {
                return Err(e);
            },
        };
        let (num_frames, p3) = match read_var_uint(b, p2) {
            Ok(v) => v,
            Err(e) => {
                return Err(e);
            },
        };
        let ghost pos0 = p3 as int;
        let mut frames: Vec<Frame> = Vec::new();
        let mut pos: usize = p3;
        let mut count: u64 = 0;
        proof {
            assert(frames_view(frames@) =~= Seq::<FrameV>::empty());
            assert(parse_packet(data@) == opt_packet(
                sequence,
                ilp_packet_type,
                prepare_amount,
                parse_n_frames(suffix(data@, pos0), num_frames as nat),
            ));
            assert(Seq::<FrameV>::empty() + frames_view(frames@) =~= frames_view(frames@));
        }
        while count < num_frames
            invariant
                p3 <= pos <= data@.len(),
                count <= num_frames,
                b == &data,
                pos0 == p3 as int,
                frames_view(frames@).len() == count as nat,
                parse_n_frames(suffix(data@, pos0), num_frames as nat) == opt_prepend(
                    frames_view(frames@),
                    parse_n_frames(suffix(data@, pos as int), (num_frames - count) as nat),
                ),
                parse_packet(data@) == opt_packet(
                    sequence,
                    ilp_packet_type,
                    prepare_amount,
                    parse_n_frames(suffix(data@, pos0), num_frames as nat),
                ),
            decreases num_frames - count,
        {
            match read_frame(b, pos) {
                Err(e) => {
                    proof {
                        let m = (num_frames - count) as nat;
                        assert(parse_n_frames(suffix(data@, pos as int), m) is None);
                    }
                    return Err(e);
                },
                Ok((f, p2x)) => {
                    proof {
                        let m = (num_frames - count) as nat;
                        let cur = suffix(data@, pos as int);
                        let nxt = suffix(data@, p2x as int);
                        assert(parse_one_frame(cur) == Some((f@, nxt)));
                        assert(parse_n_frames(cur, m) == opt_prepend(
                            seq![f@],
                            parse_n_frames(nxt, (m - 1) as nat),
                        ));
                        lemma_frames_view_push(frames@, f);
                        lemma_opt_prepend_assoc(
                            frames_view(frames@),
                            seq![f@],
                            parse_n_frames(nxt, (m - 1) as nat),
                        );
                    }
                    frames.push(f);
                    pos = p2x;
                    count = count + 1;
                },
            }
        }
        if pos != blen {
            proof {
                assert(suffix(data@, pos as int).len() != 0);
            }
            return Err(ParseError::InvalidPacket);
        }
        proof {
            assert(suffix(data@, pos as int).len() == 0);
            assert(parse_n_frames(suffix(data@, pos as int), 0) == Some(Seq::<FrameV>::empty()));
            assert(frames_view(frames@) + Seq::<FrameV>::empty() =~= frames_view(frames@));
        }
        let p = StreamPacket { sequence, ilp_packet_type, prepare_amount, frames };
        proof {
            assert(parse_packet(data@) == Some(p@));
        }
        Ok(p)
    }

    /// Parses a packet from already-decrypted bytes.
    pub fn from_decrypted(data: Vec<u8>) -> (r: Result<StreamPacket, ParseError>)
        ensures
            match r {
                Ok(p) => parse_packet(data@) == Some(p@),
                Err(_) => parse_packet(data@) is None,
            },
    {
        StreamPacket::from_bytes_unencrypted(data)
    }
}

/// A var uint encodes in at most nine bytes.
pub proof fn lemma_enc_var_uint_len(x: u64)
    ensures
        2 <= enc_var_uint(x).len() <= 9,
{
    lemma_pow256_64();
    lemma_min_be_len_le(x as nat, 8);
}

/// A var octet string encodes in at most nine bytes more than its contents.
pub proof fn lemma_enc_var_octet_len(s: Seq<u8>)
    requires
        s.len() < pow256(8),
    ensures
        s.len() + 1 <= enc_var_octet(s).len() <= s.len() + 9,
{
    if s.len() >= 128 {
        lemma_min_be_len_le(s.len(), 8);
    }
}

/// Encoded frame contents parse back to the frame they came from.
#[verifier::rlimit(100)]
#[verifier::spinoff_prover]
proof fn lemma_parse_frame_contents_enc(f: FrameV)
    requires
        wf_frame(f),
    ensures
        parse_frame_contents(frame_type_byte(f), enc_frame_contents(f)) == Some(f),
{
    lemma_pow256_64();
    let c = enc_frame_contents(f);
    let emp = Seq::<u8>::empty();
    match f {
        FrameV::ConnectionClose { code, message } => {
            assert(c[0] == error_code_byte(code));
            assert(c.skip(1) =~= enc_var_octet(message) + emp);
            lemma_take_var_octet_enc(message, emp);
            assert(error_code_from_byte(error_code_byte(code)) == code);
        },
        FrameV::ConnectionNewAddress { source_account } => {
            assert(c =~= enc_var_octet(source_account) + emp);
            lemma_take_var_octet_enc(source_account, emp);
        },
        FrameV::ConnectionAssetDetails { source_asset_code, source_asset_scale } => {
            assert(c =~= enc_var_octet(source_asset_code) + seq![source_asset_scale]);
            lemma_take_var_octet_enc(source_asset_code, seq![source_asset_scale]);
            assert(seq![source_asset_scale][0] == source_asset_scale);
        },
        FrameV::ConnectionMaxData { max_offset } => {
            assert(c =~= enc_var_uint(max_offset) + emp);
            lemma_take_var_uint_enc(max_offset, emp);
        },
        FrameV::ConnectionDataBlocked { max_offset } => {
            assert(c =~= enc_var_uint(max_offset) + emp);
            lemma_take_var_uint_enc(max_offset, emp);
        },
        FrameV::ConnectionMaxStreamId { max_stream_id } => {
            assert(c =~= enc_var_uint(max_stream_id) + emp);
            lemma_take_var_uint_enc(max_stream_id, emp);
        },
        FrameV::ConnectionStreamIdBlocked { max_stream_id } => {
            assert(c =~= enc_var_uint(max_stream_id) + emp);
            lemma_take_var_uint_enc(max_stream_id, emp);
        },
        FrameV::StreamClose { stream_id, code, message } => {
            let tail = seq![error_code_byte(code)] + enc_var_octet(message);
            assert(c =~= enc_var_uint(stream_id) + tail);
            lemma_take_var_uint_enc(stream_id, tail);
            assert(tail[0] == error_code_byte(code));
            assert(tail.skip(1) =~= enc_var_octet(message) + emp);
            lemma_take_var_octet_enc(message, emp);
            assert(error_code_from_byte(error_code_byte(code)) == code);
        },
        FrameV::StreamMoney { stream_id, shares } => {
            let tail = enc_var_uint(shares) + emp;
            assert(c =~= enc_var_uint(stream_id) + tail);
            lemma_take_var_uint_enc(stream_id, tail);
            assert(tail =~= enc_var_uint(shares) + emp);
            lemma_take_var_uint_enc(shares, emp);
        },
        FrameV::StreamMaxMoney { stream_id, receive_max, total_received } => {
            let t2 = enc_var_uint(total_received);
            let t1 = enc_var_uint(receive_max) + t2;
            assert(c =~= enc_var_uint(stream_id) + t1);
            lemma_take_var_uint_enc(stream_id, t1);
            lemma_take_var_uint_enc(receive_max, t2);
            assert(t2 =~= enc_var_uint(total_received) + emp);
            lemma_take_var_uint_enc(total_received, emp);
        },
        FrameV::StreamMoneyBlocked { stream_id, send_max, total_sent } => {
            let t2 = enc_var_uint(total_sent);
            let t1 = enc_var_uint(send_max) + t2;
            assert(c =~= enc_var_uint(stream_id) + t1);
            lemma_take_var_uint_enc(stream_id, t1);
            lemma_take_var_uint_enc(send_max, t2);
            assert(t2 =~= enc_var_uint(total_sent) + emp);
            lemma_take_var_uint_enc(total_sent, emp);
        },
        FrameV::StreamData { stream_id, offset, data } => {
            let t2 = enc_var_octet(data);
            let t1 = enc_var_uint(offset) + t2;
            assert(c =~= enc_var_uint(stream_id) + t1);
            lemma_take_var_uint_enc(stream_id, t1);
            lemma_take_var_uint_enc(offset, t2);
            assert(t2 =~= enc_var_octet(data) + emp);
            lemma_take_var_octet_enc(data, emp);
        },
        FrameV::StreamMaxData { stream_id, max_offset } => {
            let tail = enc_var_uint(max_offset) + emp;
            assert(c =~= enc_var_uint(stream_id) + tail);
            lemma_take_var_uint_enc(stream_id, tail);
            lemma_take_var_uint_enc(max_offset, emp);
        },
        FrameV::StreamDataBlocked { stream_id, max_offset } => {
            let tail = enc_var_uint(max_offset) + emp;
            assert(c =~= enc_var_uint(stream_id) + tail);
            lemma_take_var_uint_enc(stream_id, tail);
            lemma_take_var_uint_enc(max_offset, emp);
        },
        FrameV::Unknown => {
        },
    }
}

/// The contents of a well-formed frame stay below the length-prefix limit.
proof fn lemma_enc_frame_contents_len(f: FrameV)
    requires
        wf_frame(f),
    ensures
        enc_frame_contents(f).len() < pow256(8),
{
    lemma_pow256_64();
    match f {
        FrameV::ConnectionClose { code, message } => {
            lemma_enc_var_octet_len(message);
        },
        FrameV::ConnectionNewAddress { source_account } => {
            lemma_enc_var_octet_len(source_account);
        },
        FrameV::ConnectionAssetDetails { source_asset_code, .. } => {
            lemma_enc_var_octet_len(source_asset_code);
        },
        FrameV::ConnectionMaxData { max_offset } => {
            lemma_enc_var_uint_len(max_offset);
        },
        FrameV::ConnectionDataBlocked { max_offset } => {
            lemma_enc_var_uint_len(max_offset);
        },
        FrameV::ConnectionMaxStreamId { max_stream_id } => {
            lemma_enc_var_uint_len(max_stream_id);
        },
        FrameV::ConnectionStreamIdBlocked { max_stream_id } => {
            lemma_enc_var_uint_len(max_stream_id);
        },
        FrameV::StreamClose { stream_id, code, message } => {
            lemma_enc_var_uint_len(stream_id);
            lemma_enc_var_octet_len(message);
        },
        FrameV::StreamMoney { stream_id, shares } => {
            lemma_enc_var_uint_len(stream_id);
            lemma_enc_var_uint_len(shares);
        },
        FrameV::StreamMaxMoney { stream_id, receive_max, total_received } => {
            lemma_enc_var_uint_len(stream_id);
            lemma_enc_var_uint_len(receive_max);
            lemma_enc_var_uint_len(total_received);
        },
        FrameV::StreamMoneyBlocked { stream_id, send_max, total_sent } => {
            lemma_enc_var_uint_len(stream_id);
            lemma_enc_var_uint_len(send_max);
            lemma_enc_var_uint_len(total_sent);
        },
        FrameV::StreamData { stream_id, offset, data } => {
            lemma_enc_var_uint_len(stream_id);
            lemma_enc_var_uint_len(offset);
            lemma_enc_var_octet_len(data);
        },
        FrameV::StreamMaxData { stream_id, max_offset } => {
            lemma_enc_var_uint_len(stream_id);
            lemma_enc_var_uint_len(max_offset);
        },
        FrameV::StreamDataBlocked { stream_id, max_offset } => {
            lemma_enc_var_uint_len(stream_id);
            lemma_enc_var_uint_len(max_offset);
        },
        FrameV::Unknown => {
        },
    }
}

/// One encoded well-formed frame, followed by anything, parses back to that
/// frame and the trailing bytes.
proof fn lemma_parse_one_frame_enc(f: FrameV, rest: Seq<u8>)
    requires
        wf_frame(f),
    ensures
        parse_one_frame(enc_frame(f) + rest) == Some((f, rest)),
{
    let t = frame_type_byte(f);
    let c = enc_frame_contents(f);
    let b = enc_frame(f) + rest;
    assert(b[0] == t);
    assert(b.skip(1) =~= enc_var_octet(c) + rest);
    lemma_enc_frame_contents_len(f);
    lemma_take_var_octet_enc(c, rest);
    lemma_parse_frame_contents_enc(f);
}

/// Encoded well-formed frames parse back exactly when their count is given.
#[verifier::rlimit(100)]
#[verifier::spinoff_prover]
proof fn lemma_parse_n_frames_enc(fs: Seq<FrameV>)
    requires
        forall|i: int| 0 <= i < fs.len() ==> wf_frame(#[trigger] fs[i]),
    ensures
        parse_n_frames(enc_frames(fs), fs.len()) == Some(fs),
    decreases fs.len(),
{
    if fs.len() == 0 {
        assert(enc_frames(fs).len() == 0);
        assert(fs =~= Seq::<FrameV>::empty());
    } else {
        lemma_parse_one_frame_enc(fs[0], enc_frames(fs.skip(1)));
        assert(forall|i: int|
            0 <= i < fs.skip(1).len() ==> wf_frame(#[trigger] fs.skip(1)[i]) && fs.skip(1)[i] == fs[i + 1]);
        lemma_parse_n_frames_enc(fs.skip(1));
        assert(seq![fs[0]] + fs.skip(1) =~= fs);
    }
}

/// Each parsed frame consumes at least two bytes: its type tag and at least
/// one byte of length determinant.
proof fn lemma_parse_one_frame_consumes(b: Seq<u8>)
    ensures
        match parse_one_frame(b) {
            Some((f, rest)) => rest.len() + 2 <= b.len(),
            None => true,
        },
{
    if b.len() > 0 {
        crate::oer::lemma_take_var_octet_consumes(b.skip(1));
    }
}

/// A successful frame parse yields exactly the asked-for number of frames,
/// and each one consumed at least two bytes of input.
proof fn lemma_parse_n_frames_props(b: Seq<u8>, n: nat)
    ensures
        match parse_n_frames(b, n) {
            Some(fs) => fs.len() == n && 2 * n <= b.len(),
            None => true,
        },
    decreases n,
{
    if n > 0 {
        lemma_parse_one_frame_consumes(b);
        match parse_one_frame(b) {
            None => {
            },
            Some((f, rest)) => {
                lemma_parse_n_frames_props(rest, (n - 1) as nat);
            },
        }
    }
}

/// A parsed packet holds at most one frame for every two input bytes.
pub proof fn lemma_parse_packet_frames_len(b: Seq<u8>)
    ensures
        match parse_packet(b) {
            Some(p) => 2 * p.frames.len() <= b.len(),
            None => true,
        },
{
    if b.len() >= 2 && b[0] == STREAM_VERSION && packet_type_from_byte(b[1]) is Some {
        crate::oer::lemma_take_var_uint_consumes(b.skip(2));
        match take_var_uint(b.skip(2)) {
            None => {
            },
            Some((sequence, r1)) => {
                crate::oer::lemma_take_var_uint_consumes(r1);
                match take_var_uint(r1) {
                    None => {
                    },
                    Some((prepare_amount, r2)) => {
                        crate::oer::lemma_take_var_uint_consumes(r2);
                        match take_var_uint(r2) {
                            None => {
                            },
                            Some((num_frames, r3)) => {
                                lemma_parse_n_frames_props(r3, num_frames as nat);
                            },
                        }
                    },
                }
            },
        }
    }
}

/// Round trip: a well-formed STREAM packet decodes from its own encoding.
///
/// For every packet whose frames are well formed, parsing the serialized
/// bytes yields exactly the packet that was encoded.
#[verifier::rlimit(100)]
#[verifier::spinoff_prover]
pub proof fn lemma_packet_round_trip(p: StreamPacketV)
    requires
        wf_packet(p),
    ensures
        parse_packet(enc_packet(p)) == Some(p),
{
    let tb = packet_type_byte(p.ilp_packet_type);
    let a1 = enc_var_uint(p.sequence);
    let a2 = enc_var_uint(p.prepare_amount);
    let a3 = enc_var_uint(emitted_count(p.frames) as u64);
    let ff = enc_frames(p.frames);
    let b = enc_packet(p);
    lemma_enc_var_uint_len(p.sequence);
    assert(b.len() >= 2);
    assert(b[0] == STREAM_VERSION);
    assert(b[1] == tb);
    assert(packet_type_from_byte(tb) == Some(p.ilp_packet_type));
    assert(b.skip(2) =~= a1 + (a2 + (a3 + ff)));
    lemma_take_var_uint_enc(p.sequence, a2 + (a3 + ff));
    assert(take_var_uint(b.skip(2)) == Some((p.sequence, a2 + (a3 + ff))));
    lemma_take_var_uint_enc(p.prepare_amount, a3 + ff);
    assert(take_var_uint(a2 + (a3 + ff)) == Some((p.prepare_amount, a3 + ff)));
    assert(forall|i: int| 0 <= i < p.frames.len() ==> !((#[trigger] p.frames[i]) is Unknown));
    lemma_emitted_count_all(p.frames);
    lemma_take_var_uint_enc(p.frames.len() as u64, ff);
    assert(take_var_uint(a3 + ff) == Some((p.frames.len() as u64, ff)));
    assert((p.frames.len() as u64) as nat == p.frames.len());
    lemma_parse_n_frames_enc(p.frames);
    assert(parse_n_frames(ff, (p.frames.len() as u64) as nat) == Some(p.frames));
    assert(parse_packet(b) == Some(
        StreamPacketV {
            sequence: p.sequence,
            ilp_packet_type: p.ilp_packet_type,
            prepare_amount: p.prepare_amount,
            frames: p.frames,
        },
    ));
    assert(StreamPacketV {
        sequence: p.sequence,
        ilp_packet_type: p.ilp_packet_type,
        prepare_amount: p.prepare_amount,
        frames: p.frames,
    } == p);
}

/// Encoded well-formed frames never parse under a wrong frame count.
#[verifier::rlimit(100)]
#[verifier::spinoff_prover]
proof fn lemma_parse_n_frames_wrong_count(fs: Seq<FrameV>, n: nat)
    requires
        forall|i: int| 0 <= i < fs.len() ==> wf_frame(#[trigger] fs[i]),
        n != fs.len(),
    ensures
        parse_n_frames(enc_frames(fs), n) is None,
    decreases fs.len(),
{
    if fs.len() == 0 {
        assert(enc_frames(fs).len() == 0);
    } else {
        assert(wf_frame(fs[0]));
        assert(enc_frame(fs[0]).len() >= 1);
        assert(enc_frames(fs).len() >= 1);
        if n != 0 {
            lemma_parse_one_frame_enc(fs[0], enc_frames(fs.skip(1)));
            assert(forall|i: int|
                0 <= i < fs.skip(1).len() ==> wf_frame(#[trigger] fs.skip(1)[i]) && fs.skip(1)[i]
                    == fs[i + 1]);
            lemma_parse_n_frames_wrong_count(fs.skip(1), (n - 1) as nat);
        }
    }
}

/// A packet whose frame-count prefix disagrees with the frames that follow it
/// is rejected by the decoder.
#[verifier::rlimit(100)]
#[verifier::spinoff_prover]
pub proof fn lemma_rejects_frame_count_mismatch(
    sequence: u64,
    ilp_packet_type: PacketType,
    prepare_amount: u64,
    num_frames: u64,
    fs: Seq<FrameV>,
)
    requires
        forall|i: int| 0 <= i < fs.len() ==> wf_frame(#[trigger] fs[i]),
        num_frames as nat != fs.len(),
    ensures
        parse_packet(
            seq![STREAM_VERSION, packet_type_byte(ilp_packet_type)] + enc_var_uint(sequence)
                + enc_var_uint(prepare_amount) + enc_var_uint(num_frames) + enc_frames(fs),
        ) is None,
{
    let tb = packet_type_byte(ilp_packet_type);
    let a1 = enc_var_uint(sequence);
    let a2 = enc_var_uint(prepare_amount);
    let a3 = enc_var_uint(num_frames);
    let ff = enc_frames(fs);
    let b = seq![STREAM_VERSION, tb] + a1 + a2 + a3 + ff;
    lemma_enc_var_uint_len(sequence);
    assert(b.len() >= 2);
    assert(b[0] == STREAM_VERSION);
    assert(b[1] == tb);
    assert(packet_type_from_byte(tb) == Some(ilp_packet_type));
    assert(b.skip(2) =~= a1 + (a2 + (a3 + ff)));
    lemma_take_var_uint_enc(sequence, a2 + (a3 + ff));
    assert(take_var_uint(b.skip(2)) == Some((sequence, a2 + (a3 + ff))));
    lemma_take_var_uint_enc(prepare_amount, a3 + ff);
    assert(take_var_uint(a2 + (a3 + ff)) == Some((prepare_amount, a3 + ff)));
    lemma_take_var_uint_enc(num_frames, ff);
    assert(take_var_uint(a3 + ff) == Some((num_frames, ff)));
    lemma_parse_n_frames_wrong_count(fs, num_frames as nat);
}

/// One raw frame entry on the wire: a type tag and length-prefixed contents.
pub open spec fn enc_frame_entry(t: u8, c: Seq<u8>) -> Seq<u8> {
    seq![t] + enc_var_octet(c)
}

/// A whole frame region written as raw entries.
pub open spec fn enc_frame_entries(es: Seq<(u8, Seq<u8>)>) -> Seq<u8>
    decreases es.len(),
{
    if es.len() == 0 {
        seq![]
    } else {
        enc_frame_entry(es[0].0, es[0].1) + enc_frame_entries(es.skip(1))
    }
}

/// A frame region of arbitrary raw entries parses entry by entry whenever
/// each entry's contents parse for its tag; entries with unknown tags always
/// parse, to the opaque `Unknown` frame.
pub proof fn lemma_parse_frame_entries(es: Seq<(u8, Seq<u8>)>)
    requires
        forall|i: int| 0 <= i < es.len() ==> (#[trigger] es[i]).1.len() < pow256(8),
        forall|i: int|
            0 <= i < es.len() ==> parse_frame_contents((#[trigger] es[i]).0, es[i].1) is Some,
    ensures
        parse_n_frames(enc_frame_entries(es), es.len()) == Some(
            es.map_values(|e: (u8, Seq<u8>)| parse_frame_contents(e.0, e.1)->Some_0),
        ),
    decreases es.len(),
{
    let parsed = es.map_values(|e: (u8, Seq<u8>)| parse_frame_contents(e.0, e.1)->Some_0);
    if es.len() == 0 {
        assert(enc_frame_entries(es).len() == 0);
        assert(parsed =~= Seq::<FrameV>::empty());
    } else {
        let t = es[0].0;
        let c = es[0].1;
        let rest = enc_frame_entries(es.skip(1));
        let b = enc_frame_entries(es);
        assert(b =~= seq![t] + (enc_var_octet(c) + rest));
        assert(b[0] == t);
        assert(b.skip(1) =~= enc_var_octet(c) + rest);
        lemma_take_var_octet_enc(c, rest);
        let f0 = parse_frame_contents(t, c)->Some_0;
        assert(parse_one_frame(b) == Some((f0, rest)));
        assert(forall|i: int|
            0 <= i < es.skip(1).len() ==> (#[trigger] es.skip(1)[i]) == es[i + 1]);
        lemma_parse_frame_entries(es.skip(1));
        assert(parsed =~= seq![f0] + es.skip(1).map_values(
            |e: (u8, Seq<u8>)| parse_frame_contents(e.0, e.1)->Some_0,
        ));
    }
}

/// A whole packet whose frame region holds raw entries — unknown tags among
/// them — decodes without failing, with every unknown-tag entry skipped as
/// the opaque `Unknown` frame.
#[verifier::rlimit(100)]
#[verifier::spinoff_prover]
pub proof fn lemma_packet_with_raw_entries(
    sequence: u64,
    ilp_packet_type: PacketType,
    prepare_amount: u64,
    es: Seq<(u8, Seq<u8>)>,
)
    requires
        es.len() < 0x1_0000_0000,
        forall|i: int| 0 <= i < es.len() ==> (#[trigger] es[i]).1.len() < pow256(8),
        forall|i: int|
            0 <= i < es.len() ==> parse_frame_contents((#[trigger] es[i]).0, es[i].1) is Some,
    ensures
        parse_packet(
            seq![STREAM_VERSION, packet_type_byte(ilp_packet_type)] + enc_var_uint(sequence)
                + enc_var_uint(prepare_amount) + enc_var_uint(es.len() as u64)
                + enc_frame_entries(es),
        ) == Some(
            StreamPacketV {
                sequence,
                ilp_packet_type,
                prepare_amount,
                frames: es.map_values(|e: (u8, Seq<u8>)| parse_frame_contents(e.0, e.1)->Some_0),
            },
        ),
{
    let tb = packet_type_byte(ilp_packet_type);
    let a1 = enc_var_uint(sequence);
    let a2 = enc_var_uint(prepare_amount);
    let a3 = enc_var_uint(es.len() as u64);
    let ff = enc_frame_entries(es);
    let b = seq![STREAM_VERSION, tb] + a1 + a2 + a3 + ff;
    lemma_enc_var_uint_len(sequence);
    assert(b.len() >= 2);
    assert(b[0] == STREAM_VERSION);
    assert(b[1] == tb);
    assert(packet_type_from_byte(tb) == Some(ilp_packet_type));
    assert(b.skip(2) =~= a1 + (a2 + (a3 + ff)));
    lemma_take_var_uint_enc(sequence, a2 + (a3 + ff));
    assert(take_var_uint(b.skip(2)) == Some((sequence, a2 + (a3 + ff))));
    lemma_take_var_uint_enc(prepare_amount, a3 + ff);
    assert(take_var_uint(a2 + (a3 + ff)) == Some((prepare_amount, a3 + ff)));
    lemma_take_var_uint_enc(es.len() as u64, ff);
    assert(take_var_uint(a3 + ff) == Some((es.len() as u64, ff)));
    assert((es.len() as u64) as nat == es.len());
    lemma_parse_frame_entries(es);
}

/// A frame entry with an unknown type tag is skipped as the opaque `Unknown`
/// frame and does not make the parse fail.
pub proof fn lemma_unknown_frame_type_skipped(t: u8, contents: Seq<u8>, rest: Seq<u8>)
    requires
        frame_type_from_byte(t) == FrameType::Unknown,
        contents.len() < pow256(8),
    ensures
        parse_one_frame(seq![t] + enc_var_octet(contents) + rest) == Some((FrameV::Unknown, rest)),
{
    let b = seq![t] + enc_var_octet(contents) + rest;
    assert(b[0] == t);
    assert(b.skip(1) =~= enc_var_octet(contents) + rest);
    lemma_take_var_octet_enc(contents, rest);
}

/// What parsing an encrypted STREAM packet yields: decrypt under the shared
/// secret, then parse the cleartext.
pub open spec fn packet_from_encrypted_spec(secret: Seq<u8>, data: Seq<u8>) -> Option<
    StreamPacketV,
> {
    match crate::crypto::decrypt_spec(secret, data) {
        None => None,
        Some(pt) => parse_packet(pt),
    }
}

impl StreamPacket {
    /// Decrypts `ciphertext` under `shared_secret` and parses the result.
    pub fn from_encrypted(shared_secret: &[u8], ciphertext: Vec<u8>) -> (r: Result<
        StreamPacket,
        ParseError,
    >)
        ensures
            match r {
                Ok(p) => packet_from_encrypted_spec(shared_secret@, ciphertext@) == Some(p@)
                    && (match crate::crypto::decrypt_spec(shared_secret@, ciphertext@) {
                    Some(pt) => pt.len() + 28 == ciphertext@.len() && parse_packet(pt) == Some(p@),
                    None => false,
                }),
                Err(_) => packet_from_encrypted_spec(shared_secret@, ciphertext@) is None,
            },
    {
        match crate::crypto::decrypt(shared_secret, ciphertext) {
            Err(e) => Err(e),
            Ok(plaintext) => StreamPacket::from_bytes_unencrypted(plaintext),
        }
    }

    /// Serializes the packet and encrypts it under `shared_secret`; the
    /// result decrypts back to the packet's cleartext encoding. The encoding
    /// must lie within AES-GCM's per-nonce input bound.
    pub fn into_encrypted(self, shared_secret: &[u8]) -> (r: Vec<u8>)
        requires
            enc_packet(self@).len() <= 68_719_476_704,
        ensures
            crate::crypto::decrypt_spec(shared_secret@, r@) == Some(enc_packet(self@)),
            r@.len() == enc_packet(self@).len() + 28,
    {
        let bytes = self.to_bytes_unencrypted();
        crate::crypto::encrypt(shared_secret, bytes)
    }
}

} // verus!
