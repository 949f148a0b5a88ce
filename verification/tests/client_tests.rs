use ilp_stream::address::Address;
use ilp_stream::client::{Error, SendMoneyState, SenderAction, SenderState};
use ilp_stream::crypto::{decrypt, encrypt};
use ilp_stream::ilp::{IlpErrorCode, Reject};
use ilp_stream::server::receive_money;

fn example_address(bytes: &[u8]) -> Address {
    Address::try_from(bytes.to_vec()).unwrap()
}

#[test]
fn encrypt_decrypt_round_trips() {
    let secret = [6u8; 32];
    for plaintext in [b"".to_vec(), b"x".to_vec(), b"a longer plaintext value".to_vec()] {
        let ciphertext = encrypt(&secret[..], plaintext.clone());
        assert_eq!(decrypt(&secret[..], ciphertext).unwrap(), plaintext);
    }
}

#[test]
fn decrypt_rejects_mutations() {
    let secret = [6u8; 32];
    let ciphertext = encrypt(&secret[..], b"some plaintext".to_vec());
    for i in 0..ciphertext.len() {
        let mut mutated = ciphertext.clone();
        mutated[i] ^= 1;
        assert!(decrypt(&secret[..], mutated).is_err());
    }
}

#[test]
fn stops_at_final_errors() {
    let from = example_address(b"example.destination");
    let to = example_address(b"example.destination");
    let mut sender = SendMoneyState::start(
        from,
        to,
        vec![0u8; 32],
        100,
        b"XYZ".to_vec(),
        9,
    );
    let mut requests: u64 = 0;
    let receipt = loop {
        match sender.next_step(0) {
            SenderAction::Fail => break Err(sender.error.clone().unwrap()),
            SenderAction::Timeout => break Err(Error::TimeoutError),
            SenderAction::Finish => break Ok(sender.finish()),
            SenderAction::SendClosePacket => {
                let _prepare = sender.make_close_prepare(0);
                let seq = sender.sequence - 1;
                requests += 1;
                let reject = Reject {
                    code: IlpErrorCode::f00_bad_request(),
                    message: b"just some final error".to_vec(),
                    triggered_by: None,
                    data: Vec::new(),
                };
                sender.handle_reject(seq as u32, 0, &reject);
            }
            SenderAction::SendMoneyPacket => {
                let prepare = match sender.try_send_money(0) {
                    Some(p) => p,
                    None => break Err(Error::TimeoutError),
                };
                let seq = sender.sequence - 1;
                requests += 1;
                let reject = Reject {
                    code: IlpErrorCode::f00_bad_request(),
                    message: b"just some final error".to_vec(),
                    triggered_by: None,
                    data: Vec::new(),
                };
                sender.handle_reject(seq as u32, prepare.amount, &reject);
            }
        }
    };
    assert!(receipt.is_err());
    assert_eq!(requests, 1);
}

#[test]
fn happy_path_send_delivers_everything() {
    let client_address = example_address(b"example.destination");
    let server_secret = [1u8; 32];
    let generator = ilp_stream::server::ConnectionGenerator::new(&server_secret[..]);
    let (destination, shared_secret) = generator.generate_address_and_secret(&client_address);

    let mut sender = SendMoneyState::start(
        example_address(b"example.sender"),
        destination,
        shared_secret.to_vec(),
        100,
        b"XYZ".to_vec(),
        9,
    );

    let mut money_round_trips: u64 = 0;
    let receipt = loop {
        match sender.next_step(0) {
            SenderAction::Fail => panic!("send failed: {:?}", sender.error),
            SenderAction::Timeout => panic!("send timed out"),
            SenderAction::Finish => break sender.finish(),
            SenderAction::SendClosePacket => {
                let prepare = sender.make_close_prepare(0);
                let seq = sender.sequence - 1;
                // The close Prepare carries a random condition, so the
                // receiver answers with a Reject.
                match receive_money(&shared_secret, &client_address, prepare) {
                    Ok(_) => panic!("close packet must not be fulfillable"),
                    Err(reject) => sender.handle_reject(seq as u32, 0, &reject),
                }
            }
            SenderAction::SendMoneyPacket => {
                let prepare = sender.try_send_money(0).expect("window is open");
                let seq = sender.sequence - 1;
                let amount = prepare.amount;
                money_round_trips += 1;
                match receive_money(&shared_secret, &client_address, prepare) {
                    Ok(fulfill) => sender.handle_fulfill(seq as u32, &fulfill),
                    Err(_) => sender.handle_reject(seq as u32, amount, &Reject {
                        code: IlpErrorCode::f99_application_error(),
                        message: Vec::new(),
                        triggered_by: None,
                        data: Vec::new(),
                    }),
                }
            }
        }
    };

    assert_eq!(money_round_trips, 1);
    assert_eq!(receipt.sent_amount, 100);
    assert_eq!(receipt.delivered_amount, 100);
}

#[test]
fn sender_ledger_balances_after_rejects() {
    let from = example_address(b"example.sender");
    let to = example_address(b"example.destination");
    let mut sender = SendMoneyState::start(
        from,
        to,
        vec![4u8; 32],
        500,
        b"ABC".to_vec(),
        2,
    );
    // Cap packets so the amount is split across several Prepares.
    sender.congestion_controller.set_max_packet_amount(200);

    let mut dispatched: u64 = 0;
    let mut restored: u64 = 0;
    let mut round: u64 = 0;
    loop {
        if sender.source_amount == 0 {
            break;
        }
        let prepare = sender.try_send_money(0).expect("window is open");
        let seq = sender.sequence - 1;
        dispatched += prepare.amount;
        round += 1;
        if round == 2 {
            // Reject the second packet with a temporary error; its amount is
            // restored and dispatched again later.
            let reject = Reject {
                code: IlpErrorCode::t04_insufficient_liquidity(),
                message: Vec::new(),
                triggered_by: None,
                data: Vec::new(),
            };
            restored += prepare.amount;
            sender.handle_reject(seq as u32, prepare.amount, &reject);
        } else {
            // Pretend the packet was fulfilled without a readable response.
            sender.handle_fulfill(seq as u32, &ilp_stream::ilp::Fulfill {
                fulfillment: [0u8; 32],
                data: Vec::new(),
            });
        }
        assert!(round < 64);
    }
    assert_eq!(dispatched - restored, sender.receipt.sent_amount);
    assert_eq!(sender.error, None);
}

#[test]
fn first_money_packet_announces_the_source_account() {
    let from = example_address(b"example.sender");
    let to = example_address(b"example.destination");
    let secret = vec![9u8; 32];
    let mut sender = SendMoneyState::start(from, to, secret.clone(), 50, b"XYZ".to_vec(), 6);
    sender.congestion_controller.set_max_packet_amount(30);

    let first = sender.try_send_money(0).unwrap();
    assert_eq!(first.amount, 30);
    let packet =
        ilp_stream::packet::StreamPacket::from_encrypted(&secret[..], first.data.clone()).unwrap();
    assert_eq!(packet.sequence(), 1);
    assert_eq!(packet.prepare_amount(), 0);
    assert_eq!(packet.frames().len(), 2);
    match &packet.frames()[1] {
        ilp_stream::packet::Frame::ConnectionNewAddress(f) => {
            assert_eq!(f.source_account.as_bytes().as_slice(), b"example.sender");
        }
        other => panic!("unexpected frame: {:?}", other),
    }

    sender.handle_fulfill(1, &ilp_stream::ilp::Fulfill {
        fulfillment: [0u8; 32],
        data: Vec::new(),
    });

    let second = sender.try_send_money(0).unwrap();
    let packet2 =
        ilp_stream::packet::StreamPacket::from_encrypted(&secret[..], second.data.clone()).unwrap();
    assert_eq!(packet2.sequence(), 2);
    assert_eq!(packet2.frames().len(), 1);
}

#[test]
fn fulfill_response_updates_receipt_and_asset_details() {
    let from = example_address(b"example.sender");
    let to = example_address(b"example.destination");
    let secret = vec![8u8; 32];
    let mut sender = SendMoneyState::start(from, to, secret.clone(), 75, b"XYZ".to_vec(), 6);

    let prepare = sender.try_send_money(0).unwrap();
    assert_eq!(prepare.amount, 75);

    let response = ilp_stream::packet::StreamPacketBuilder {
        sequence: 1,
        ilp_packet_type: ilp_stream::packet::PacketType::Fulfill,
        prepare_amount: 42,
        frames: vec![ilp_stream::packet::Frame::ConnectionAssetDetails(
            ilp_stream::packet::ConnectionAssetDetailsFrame {
                source_asset_code: b"EUR".to_vec(),
                source_asset_scale: 4,
            },
        )],
    }
    .build();
    let fulfill = ilp_stream::ilp::Fulfill {
        fulfillment: [0u8; 32],
        data: response.into_encrypted(&secret[..]),
    };
    sender.handle_fulfill(1, &fulfill);
    assert_eq!(sender.receipt.delivered_amount, 42);
    assert_eq!(sender.receipt.delivered_asset_scale, Some(4));
    assert_eq!(sender.receipt.delivered_asset_code, Some(b"EUR".to_vec()));
}

#[test]
fn timeout_after_liveness_window() {
    let from = example_address(b"example.sender");
    let to = example_address(b"example.destination");
    let sender = SendMoneyState::start(from, to, vec![1u8; 32], 10, b"XYZ".to_vec(), 1);
    assert_eq!(sender.next_step(30000), SenderAction::Timeout);
    assert_eq!(sender.next_step(29999), SenderAction::SendMoneyPacket);
}

#[test]
fn close_packet_follows_the_last_dispatch() {
    let from = example_address(b"example.sender");
    let to = example_address(b"example.destination");
    let secret = vec![2u8; 32];
    let mut sender = SendMoneyState::start(from, to, secret.clone(), 10, b"XYZ".to_vec(), 1);
    let prepare = sender.try_send_money(0).unwrap();
    sender.handle_fulfill(1, &ilp_stream::ilp::Fulfill {
        fulfillment: [0u8; 32],
        data: Vec::new(),
    });
    assert_eq!(prepare.amount, 10);
    assert_eq!(sender.next_step(0), SenderAction::SendClosePacket);
    let close = sender.make_close_prepare(1000);
    assert_eq!(close.amount, 0);
    assert_eq!(close.expires_at_ms, 31000);
    assert_eq!(sender.state, SenderState::Closing);
    let packet =
        ilp_stream::packet::StreamPacket::from_encrypted(&secret[..], close.data.clone()).unwrap();
    assert_eq!(packet.frames().len(), 1);
    match &packet.frames()[0] {
        ilp_stream::packet::Frame::ConnectionClose(f) => {
            assert_eq!(f.code, ilp_stream::packet::ErrorCode::NoError);
            assert!(f.message.is_empty());
        }
        other => panic!("unexpected frame: {:?}", other),
    }
    assert_eq!(sender.next_step(0), SenderAction::Finish);
}

#[test]
fn amount_too_large_reject_caps_packet_size() {
    let from = example_address(b"example.sender");
    let to = example_address(b"example.destination");
    let mut sender = SendMoneyState::start(from, to, vec![3u8; 32], 1000, b"XYZ".to_vec(), 9);
    let prepare = sender.try_send_money(0).unwrap();
    assert_eq!(prepare.amount, 1000);
    let reject = Reject {
        code: IlpErrorCode::f08_amount_too_large(),
        message: Vec::new(),
        triggered_by: None,
        data: Vec::new(),
    };
    sender.handle_reject(1, prepare.amount, &reject);
    // No latched error: the send continues with smaller packets.
    assert_eq!(sender.error, None);
    assert_eq!(sender.congestion_controller.max_packet_amount, Some(500));
    let next = sender.try_send_money(0).unwrap();
    assert_eq!(next.amount, 500);
}
