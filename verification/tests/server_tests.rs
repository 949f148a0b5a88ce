use ilp_stream::address::Address;
use ilp_stream::crypto::generate_condition;
use ilp_stream::ilp::{IlpErrorCode, Prepare, Reject};
use ilp_stream::packet::{Frame, PacketType, StreamMoneyFrame, StreamPacket, StreamPacketBuilder};
use ilp_stream::server::{ConnectionGenerator, StreamReceiverService, receive_money};

fn test_stream_packet() -> StreamPacket {
    StreamPacketBuilder {
        ilp_packet_type: PacketType::Prepare,
        prepare_amount: 0,
        sequence: 1,
        frames: vec![Frame::StreamMoney(StreamMoneyFrame {
            stream_id: 1,
            shares: 1,
        })],
    }
    .build()
}

#[test]
fn generates_valid_ilp_address() {
    let server_secret = [9u8; 32];
    let receiver_address = Address::try_from(b"example.receiver".to_vec()).unwrap();
    let connection_generator = ConnectionGenerator::new(&server_secret[..]);
    let (destination_account, shared_secret) =
        connection_generator.generate_address_and_secret(&receiver_address);

    assert!(destination_account
        .as_bytes()
        .starts_with(receiver_address.as_bytes()));

    assert_eq!(
        connection_generator
            .rederive_secret(&destination_account)
            .unwrap(),
        shared_secret
    );
}

#[test]
fn errors_if_it_cannot_rederive_secret() {
    let server_secret = [9u8; 32];
    let receiver_address = Address::try_from(b"example.receiver".to_vec()).unwrap();
    let connection_generator = ConnectionGenerator::new(&server_secret[..]);
    let (destination_account, _shared_secret) =
        connection_generator.generate_address_and_secret(&receiver_address);

    let destination_account = destination_account.with_suffix(&b"extra".to_vec()).unwrap();

    assert!(connection_generator
        .rederive_secret(&destination_account)
        .is_err());
}

#[test]
fn last_segment_decodes_to_token_and_tag() {
    let server_secret = [3u8; 32];
    let receiver_address = Address::try_from(b"example.receiver".to_vec()).unwrap();
    let connection_generator = ConnectionGenerator::new(&server_secret[..]);
    let (destination_account, _) =
        connection_generator.generate_address_and_secret(&receiver_address);
    let bytes = destination_account.as_bytes();
    let dot = bytes.iter().rposition(|&b| b == b'.').unwrap();
    let segment = &bytes[dot + 1..];
    assert_eq!(segment.len(), 43);
    let decoded = ilp_stream::base64url::b64_decode_bytes(&segment.to_vec()).unwrap();
    assert_eq!(decoded.len(), 32);
}

#[test]
fn fulfills_valid_packet() {
    let client_address = Address::try_from(b"example.destination".to_vec()).unwrap();
    let server_secret = [1u8; 32];
    let connection_generator = ConnectionGenerator::new(&server_secret[..]);
    let (destination_account, shared_secret) =
        connection_generator.generate_address_and_secret(&client_address);
    let stream_packet = test_stream_packet();
    let data = stream_packet.into_encrypted(&shared_secret[..]);
    let execution_condition = generate_condition(&shared_secret[..], &data[..]);

    let prepare = Prepare {
        destination: destination_account,
        amount: 100,
        expires_at_ms: 0,
        execution_condition,
        data,
    };

    let shared_secret = connection_generator
        .rederive_secret(&prepare.destination)
        .unwrap();
    let result = receive_money(&shared_secret, &client_address, prepare);
    assert!(result.is_ok());
}

#[test]
fn fulfills_valid_packet_without_connection_tag() {
    let client_address = Address::try_from(b"example.destination".to_vec()).unwrap();
    let server_secret = [1u8; 32];
    let connection_generator = ConnectionGenerator::new(&server_secret[..]);
    let (destination_account, shared_secret) =
        connection_generator.generate_address_and_secret(&client_address);
    let stream_packet = test_stream_packet();
    let data = stream_packet.into_encrypted(&shared_secret[..]);
    let execution_condition = generate_condition(&shared_secret[..], &data[..]);

    let prepare = Prepare {
        destination: destination_account,
        amount: 100,
        expires_at_ms: 0,
        execution_condition,
        data,
    };

    let shared_secret = connection_generator
        .rederive_secret(&prepare.destination)
        .unwrap();
    let result = receive_money(&shared_secret, &client_address, prepare);
    assert!(result.is_ok());
}

#[test]
fn rejects_modified_data() {
    let client_address = Address::try_from(b"example.destination".to_vec()).unwrap();
    let server_secret = [1u8; 32];
    let connection_generator = ConnectionGenerator::new(&server_secret[..]);
    let (destination_account, shared_secret) =
        connection_generator.generate_address_and_secret(&client_address);
    let stream_packet = test_stream_packet();
    let mut data = stream_packet.into_encrypted(&shared_secret[..]);
    data.extend_from_slice(b"x");
    let execution_condition = generate_condition(&shared_secret[..], &data[..]);

    let prepare = Prepare {
        destination: destination_account,
        amount: 100,
        expires_at_ms: 0,
        execution_condition,
        data,
    };

    let shared_secret = connection_generator
        .rederive_secret(&prepare.destination)
        .unwrap();
    let result = receive_money(&shared_secret, &client_address, prepare);
    assert!(result.is_err());
}

#[test]
fn any_single_byte_mutation_is_rejected() {
    let client_address = Address::try_from(b"example.destination".to_vec()).unwrap();
    let server_secret = [5u8; 32];
    let connection_generator = ConnectionGenerator::new(&server_secret[..]);
    let (destination_account, shared_secret) =
        connection_generator.generate_address_and_secret(&client_address);
    let stream_packet = test_stream_packet();
    let data = stream_packet.into_encrypted(&shared_secret[..]);
    let execution_condition = generate_condition(&shared_secret[..], &data[..]);

    for i in 0..data.len() {
        let mut mutated = data.clone();
        mutated[i] ^= 0x40;
        let prepare = Prepare {
            destination: destination_account.clone(),
            amount: 100,
            expires_at_ms: 0,
            execution_condition,
            data: mutated,
        };
        let result = receive_money(&shared_secret, &client_address, prepare);
        assert!(result.is_err());
    }
}

#[test]
fn rejects_too_little_money() {
    let client_address = Address::try_from(b"example.destination".to_vec()).unwrap();
    let server_secret = [1u8; 32];
    let connection_generator = ConnectionGenerator::new(&server_secret[..]);
    let (destination_account, shared_secret) =
        connection_generator.generate_address_and_secret(&client_address);

    let stream_packet = StreamPacketBuilder {
        ilp_packet_type: PacketType::Prepare,
        prepare_amount: 101,
        sequence: 1,
        frames: vec![Frame::StreamMoney(StreamMoneyFrame {
            stream_id: 1,
            shares: 1,
        })],
    }
    .build();

    let data = stream_packet.into_encrypted(&shared_secret[..]);
    let execution_condition = generate_condition(&shared_secret[..], &data[..]);

    let prepare = Prepare {
        destination: destination_account,
        amount: 100,
        expires_at_ms: 0,
        execution_condition,
        data,
    };

    let shared_secret = connection_generator
        .rederive_secret(&prepare.destination)
        .unwrap();
    let result = receive_money(&shared_secret, &client_address, prepare);
    assert!(result.is_err());
}

#[test]
fn fulfills_correct_packets() {
    let client_address = Address::try_from(b"example.destination".to_vec()).unwrap();
    let server_secret = [1u8; 32];
    let connection_generator = ConnectionGenerator::new(&server_secret[..]);
    let (destination_account, shared_secret) =
        connection_generator.generate_address_and_secret(&client_address);
    let stream_packet = test_stream_packet();
    let data = stream_packet.into_encrypted(&shared_secret[..]);
    let execution_condition = generate_condition(&shared_secret[..], &data[..]);

    let prepare = Prepare {
        destination: destination_account,
        amount: 100,
        expires_at_ms: 0,
        execution_condition,
        data,
    };

    let service = StreamReceiverService::new(&server_secret[..]);
    let result = match service.send_request(&client_address, prepare) {
        Some(result) => result,
        None => panic!("shouldn't get here"),
    };
    assert!(result.is_ok());
}

#[test]
fn rejects_invalid_packets() {
    let client_address = Address::try_from(b"example.destination".to_vec()).unwrap();
    let server_secret = [1u8; 32];
    let connection_generator = ConnectionGenerator::new(&server_secret[..]);
    let (destination_account, shared_secret) =
        connection_generator.generate_address_and_secret(&client_address);
    let stream_packet = test_stream_packet();
    let mut data = stream_packet.into_encrypted(&shared_secret[..]);
    let execution_condition = generate_condition(&shared_secret[..], &data[..]);

    data.extend_from_slice(b"extra");

    let prepare = Prepare {
        destination: destination_account,
        amount: 100,
        expires_at_ms: 0,
        execution_condition,
        data,
    };

    let service = StreamReceiverService::new(&server_secret[..]);
    let result = match service.send_request(&client_address, prepare) {
        Some(result) => result,
        None => panic!("shouldn't get here"),
    };
    assert!(result.is_err());
}

#[test]
fn passes_on_packets_not_for_it() {
    let client_address = Address::try_from(b"example.destination".to_vec()).unwrap();
    let server_secret = [1u8; 32];
    let connection_generator = ConnectionGenerator::new(&server_secret[..]);
    let (destination_account, shared_secret) =
        connection_generator.generate_address_and_secret(&client_address);
    let stream_packet = test_stream_packet();
    let data = stream_packet.into_encrypted(&shared_secret[..]);
    let execution_condition = generate_condition(&shared_secret[..], &data[..]);

    let dest = destination_account.with_suffix(&b"extra".to_vec()).unwrap();

    let prepare = Prepare {
        destination: dest,
        amount: 100,
        expires_at_ms: 0,
        execution_condition,
        data,
    };

    let service = StreamReceiverService::new(&server_secret[..]);
    // The request is not for this receiver, so the service leaves it to the
    // next handler, which here answers with an unreachable Reject.
    let result: Result<ilp_stream::ilp::Fulfill, Reject> =
        match service.send_request(&client_address, prepare) {
            Some(_) => panic!("shouldn't get here"),
            None => Err(Reject {
                code: IlpErrorCode::f02_unreachable(),
                message: Vec::new(),
                triggered_by: Some(
                    Address::try_from(b"example.other-receiver".to_vec()).unwrap(),
                ),
                data: Vec::new(),
            }),
        };
    assert!(result.is_err());
    assert_eq!(
        result.unwrap_err().triggered_by.unwrap(),
        Address::try_from(b"example.other-receiver".to_vec()).unwrap(),
    );
}

#[test]
fn reject_for_undecryptable_data_is_f06() {
    let client_address = Address::try_from(b"example.destination".to_vec()).unwrap();
    let shared_secret = [7u8; 32];
    let prepare = Prepare {
        destination: client_address.clone(),
        amount: 100,
        expires_at_ms: 0,
        execution_condition: [0u8; 32],
        data: b"not a stream packet".to_vec(),
    };
    let result = receive_money(&shared_secret, &client_address, prepare);
    let reject = result.unwrap_err();
    assert_eq!(reject.code, IlpErrorCode::f06_unexpected_payment());
    assert!(reject.data.is_empty());
}

#[test]
fn reject_for_wrong_condition_is_f99_with_stream_response() {
    let client_address = Address::try_from(b"example.destination".to_vec()).unwrap();
    let shared_secret = [7u8; 32];
    let stream_packet = test_stream_packet();
    let data = stream_packet.into_encrypted(&shared_secret[..]);
    let prepare = Prepare {
        destination: client_address.clone(),
        amount: 100,
        expires_at_ms: 0,
        execution_condition: [0u8; 32],
        data,
    };
    let result = receive_money(&shared_secret, &client_address, prepare);
    let reject = result.unwrap_err();
    assert_eq!(reject.code, IlpErrorCode::f99_application_error());
    let response =
        StreamPacket::from_encrypted(&shared_secret[..], reject.data.clone()).unwrap();
    assert_eq!(response.ilp_packet_type(), PacketType::Reject);
    assert_eq!(response.prepare_amount(), 100);
    assert_eq!(response.sequence(), 1);
}

#[test]
fn fulfill_carries_stream_max_money_response() {
    let client_address = Address::try_from(b"example.destination".to_vec()).unwrap();
    let server_secret = [2u8; 32];
    let connection_generator = ConnectionGenerator::new(&server_secret[..]);
    let (destination_account, shared_secret) =
        connection_generator.generate_address_and_secret(&client_address);
    let stream_packet = test_stream_packet();
    let data = stream_packet.into_encrypted(&shared_secret[..]);
    let execution_condition = generate_condition(&shared_secret[..], &data[..]);

    let prepare = Prepare {
        destination: destination_account,
        amount: 250,
        expires_at_ms: 0,
        execution_condition,
        data,
    };

    let fulfill = receive_money(&shared_secret, &client_address, prepare).unwrap();
    let response =
        StreamPacket::from_encrypted(&shared_secret[..], fulfill.data.clone()).unwrap();
    assert_eq!(response.ilp_packet_type(), PacketType::Fulfill);
    assert_eq!(response.prepare_amount(), 250);
    let frames = response.frames();
    assert_eq!(frames.len(), 1);
    match &frames[0] {
        Frame::StreamMaxMoney(f) => {
            assert_eq!(f.stream_id, 1);
            assert_eq!(f.receive_max, u64::MAX);
            assert_eq!(f.total_received, 0);
        }
        other => panic!("unexpected response frame: {:?}", other),
    }
}
