use ilp_stream::address::Address;
use ilp_stream::oer::{read_var_uint, write_len_det, write_var_octet, write_var_uint};
use ilp_stream::packet::{
    ConnectionAssetDetailsFrame, ConnectionCloseFrame, ConnectionDataBlockedFrame,
    ConnectionMaxDataFrame, ConnectionMaxStreamIdFrame, ConnectionNewAddressFrame,
    ConnectionStreamIdBlockedFrame, ErrorCode, Frame, PacketType, StreamCloseFrame,
    StreamDataBlockedFrame, StreamDataFrame, StreamMaxDataFrame, StreamMaxMoneyFrame,
    StreamMoneyBlockedFrame, StreamMoneyFrame, StreamPacket, StreamPacketBuilder,
};

fn reference_packet() -> StreamPacket {
    StreamPacketBuilder {
        sequence: 1,
        ilp_packet_type: PacketType::try_from_byte(12).unwrap(),
        prepare_amount: 99,
        frames: vec![
            Frame::ConnectionClose(ConnectionCloseFrame {
                code: ErrorCode::NoError,
                message: b"oop".to_vec(),
            }),
            Frame::ConnectionNewAddress(ConnectionNewAddressFrame {
                source_account: Address::try_from(b"example.blah".to_vec()).unwrap(),
            }),
            Frame::ConnectionMaxData(ConnectionMaxDataFrame { max_offset: 1000 }),
            Frame::ConnectionDataBlocked(ConnectionDataBlockedFrame { max_offset: 2000 }),
            Frame::ConnectionMaxStreamId(ConnectionMaxStreamIdFrame {
                max_stream_id: 3000,
            }),
            Frame::ConnectionStreamIdBlocked(ConnectionStreamIdBlockedFrame {
                max_stream_id: 4000,
            }),
            Frame::ConnectionAssetDetails(ConnectionAssetDetailsFrame {
                source_asset_code: b"XYZ".to_vec(),
                source_asset_scale: 9,
            }),
            Frame::StreamClose(StreamCloseFrame {
                stream_id: 76,
                code: ErrorCode::InternalError,
                message: b"blah".to_vec(),
            }),
            Frame::StreamMoney(StreamMoneyFrame {
                stream_id: 88,
                shares: 99,
            }),
            Frame::StreamMaxMoney(StreamMaxMoneyFrame {
                stream_id: 11,
                receive_max: 987,
                total_received: 500,
            }),
            Frame::StreamMoneyBlocked(StreamMoneyBlockedFrame {
                stream_id: 66,
                send_max: 20000,
                total_sent: 6000,
            }),
            Frame::StreamData(StreamDataFrame {
                stream_id: 34,
                offset: 9000,
                data: b"hello".to_vec(),
            }),
            Frame::StreamMaxData(StreamMaxDataFrame {
                stream_id: 35,
                max_offset: 8766,
            }),
            Frame::StreamDataBlocked(StreamDataBlockedFrame {
                stream_id: 888,
                max_offset: 44444,
            }),
        ],
    }
    .build()
}

fn reference_bytes() -> Vec<u8> {
    vec![
        1, 12, 1, 1, 1, 99, 1, 14, 1, 5, 1, 3, 111, 111, 112, 2, 13, 12, 101, 120, 97, 109, 112,
        108, 101, 46, 98, 108, 97, 104, 3, 3, 2, 3, 232, 4, 3, 2, 7, 208, 5, 3, 2, 11, 184, 6, 3,
        2, 15, 160, 7, 5, 3, 88, 89, 90, 9, 16, 8, 1, 76, 2, 4, 98, 108, 97, 104, 17, 4, 1, 88, 1,
        99, 18, 8, 1, 11, 2, 3, 219, 2, 1, 244, 19, 8, 1, 66, 2, 78, 32, 2, 23, 112, 20, 11, 1, 34,
        2, 35, 40, 5, 104, 101, 108, 108, 111, 21, 5, 1, 35, 2, 34, 62, 22, 6, 2, 3, 120, 2, 173,
        156,
    ]
}

#[test]
fn it_serializes_to_same_as_javascript() {
    assert_eq!(reference_packet().to_bytes_unencrypted(), reference_bytes());
}

#[test]
fn it_deserializes_from_javascript() {
    assert_eq!(
        StreamPacket::from_bytes_unencrypted(reference_bytes()).unwrap(),
        reference_packet()
    );
}

#[test]
fn it_iterates_through_the_frames() {
    let packet = reference_packet();
    let mut iter = packet.frames().iter();
    assert_eq!(
        iter.next().unwrap(),
        &Frame::ConnectionClose(ConnectionCloseFrame {
            code: ErrorCode::NoError,
            message: b"oop".to_vec(),
        })
    );
    assert_eq!(
        iter.next().unwrap(),
        &Frame::ConnectionNewAddress(ConnectionNewAddressFrame {
            source_account: Address::try_from(b"example.blah".to_vec()).unwrap(),
        })
    );
    assert_eq!(iter.count(), 12);
}

#[test]
fn it_saturates_max_money_frame_receive_max() {
    let mut buffer: Vec<u8> = Vec::new();
    write_var_uint(&mut buffer, 123); // stream_id
    write_var_octet(
        &mut buffer,
        &vec![0x01, 0x02, 0x03, 0x04, 0x05, 0x06, 0x07, 0x08, 0x09], // receive_max
    );
    write_var_uint(&mut buffer, 123); // total_received
    let frame = StreamMaxMoneyFrame::read_contents(&buffer).unwrap();
    assert_eq!(frame.receive_max, u64::MAX);
}

#[test]
fn it_saturates_money_blocked_frame_send_max() {
    let mut buffer: Vec<u8> = Vec::new();
    write_var_uint(&mut buffer, 123); // stream_id
    write_var_octet(
        &mut buffer,
        &vec![0x01, 0x02, 0x03, 0x04, 0x05, 0x06, 0x07, 0x08, 0x09], // send_max
    );
    write_var_uint(&mut buffer, 123); // total_sent
    let frame = StreamMoneyBlockedFrame::read_contents(&buffer).unwrap();
    assert_eq!(frame.send_max, u64::MAX);
}

#[test]
fn var_uint_round_trips() {
    for value in [0u64, 1, 99, 127, 128, 255, 256, 1000, 44444, u64::MAX] {
        let mut buf: Vec<u8> = Vec::new();
        write_var_uint(&mut buf, value);
        let (decoded, end) = read_var_uint(&buf, 0).unwrap();
        assert_eq!(decoded, value);
        assert_eq!(end, buf.len());
    }
}

#[test]
fn long_length_determinant_round_trips() {
    let payload = vec![7u8; 300];
    let mut buf: Vec<u8> = Vec::new();
    write_var_octet(&mut buf, &payload);
    assert_eq!(buf[0], 0x82);
    assert_eq!(buf[1], 0x01);
    assert_eq!(buf[2], 0x2c);
    let decoded = StreamPacketBuilder {
        sequence: 3,
        ilp_packet_type: PacketType::Prepare,
        prepare_amount: 0,
        frames: vec![Frame::StreamData(StreamDataFrame {
            stream_id: 1,
            offset: 0,
            data: payload,
        })],
    }
    .build();
    let bytes = decoded.to_bytes_unencrypted();
    assert_eq!(StreamPacket::from_bytes_unencrypted(bytes).unwrap(), decoded);
}

#[test]
fn rejects_wrong_version() {
    let mut bytes = reference_bytes();
    bytes[0] = 2;
    assert!(StreamPacket::from_bytes_unencrypted(bytes).is_err());
}

#[test]
fn rejects_unknown_packet_type() {
    let mut bytes = reference_bytes();
    bytes[1] = 27;
    assert!(StreamPacket::from_bytes_unencrypted(bytes).is_err());
}

#[test]
fn rejects_frame_count_mismatch() {
    // The reference packet declares 14 frames; claim 15 instead.
    let mut bytes = reference_bytes();
    assert_eq!(bytes[7], 14);
    bytes[7] = 15;
    assert!(StreamPacket::from_bytes_unencrypted(bytes).is_err());
    let mut fewer = reference_bytes();
    fewer[7] = 13;
    assert!(StreamPacket::from_bytes_unencrypted(fewer).is_err());
}

#[test]
fn rejects_trailing_garbage() {
    let mut bytes = reference_bytes();
    bytes.push(0);
    assert!(StreamPacket::from_bytes_unencrypted(bytes).is_err());
}

#[test]
fn skips_unknown_frame_types() {
    let mut bytes: Vec<u8> = vec![1, 12];
    write_var_uint(&mut bytes, 7); // sequence
    write_var_uint(&mut bytes, 0); // prepare_amount
    write_var_uint(&mut bytes, 2); // num_frames
    bytes.push(0x7f); // unknown frame type
    write_var_octet(&mut bytes, &b"mystery".to_vec());
    bytes.push(0x11); // StreamMoney
    let mut contents: Vec<u8> = Vec::new();
    write_var_uint(&mut contents, 5);
    write_var_uint(&mut contents, 6);
    write_var_octet(&mut bytes, &contents);
    let packet = StreamPacket::from_bytes_unencrypted(bytes).unwrap();
    assert_eq!(packet.frames().len(), 2);
    assert_eq!(packet.frames()[0], Frame::Unknown);
    assert_eq!(
        packet.frames()[1],
        Frame::StreamMoney(StreamMoneyFrame {
            stream_id: 5,
            shares: 6,
        })
    );
}

#[test]
fn frame_contents_ignore_trailing_bytes() {
    let mut contents: Vec<u8> = Vec::new();
    write_var_uint(&mut contents, 42);
    contents.push(0xaa);
    let frame = ConnectionMaxDataFrame::read_contents(&contents).unwrap();
    assert_eq!(frame.max_offset, 42);
}

#[test]
fn length_determinant_helper_matches_short_form() {
    let mut buf: Vec<u8> = Vec::new();
    write_len_det(&mut buf, 5);
    assert_eq!(buf, vec![5]);
}

#[test]
fn builder_drops_unknown_frames() {
    let packet = StreamPacketBuilder {
        sequence: 4,
        ilp_packet_type: PacketType::Prepare,
        prepare_amount: 0,
        frames: vec![
            Frame::Unknown,
            Frame::StreamMoney(StreamMoneyFrame {
                stream_id: 1,
                shares: 1,
            }),
            Frame::Unknown,
        ],
    }
    .build();
    assert_eq!(packet.frames().len(), 1);
    assert_eq!(
        packet.frames()[0],
        Frame::StreamMoney(StreamMoneyFrame {
            stream_id: 1,
            shares: 1,
        })
    );
    let bytes = packet.to_bytes_unencrypted();
    let decoded = StreamPacket::from_bytes_unencrypted(bytes).unwrap();
    assert_eq!(decoded, packet);
}
