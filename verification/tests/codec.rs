use accord::frame::{decrypt_frame, encrypt_frame, read_be_u32, FrameError};
use accord::packets::{decode_clientbound, decode_serverbound, encode_clientbound, encode_serverbound, ClientboundPacket, Message, ServerboundPacket};

#[test]
fn encrypt_packet_test() {
    let key = [0u8; 32];
    let nonce = [0u8; 24];

    let packet = ServerboundPacket::Message("test".to_string());
    let packet_data = encode_serverbound(&packet);
    let encrypted = encrypt_frame(&packet_data, &key, &nonce);
    let exp_encrypted = [
        0, 0, 0, 30, 249, 57, 219, 236, 150, 83, 236, 24, 188, 69, 135, 160, 198, 64, 126, 155,
        247, 135, 6, 132, 161, 45, 1, 86, 75, 207, 109, 177, 135, 228,
    ];
    assert_eq!(exp_encrypted, &encrypted[..]);
}

#[test]
fn decrypt_packet_test() {
    let key = [0u8; 32];
    let nonce = [0u8; 24];

    let encrypted = vec![
        0, 0, 0, 30, 249, 57, 219, 236, 150, 83, 236, 24, 188, 69, 135, 160, 198, 64, 126, 155,
        247, 135, 6, 132, 161, 45, 1, 86, 75, 207, 109, 177, 135, 228,
    ];

    let decrypted = decrypt_frame(&encrypted, &key, &nonce).unwrap();
    assert_eq!(
        ServerboundPacket::Message("test".to_string()),
        decode_serverbound(&decrypted.0, 0).unwrap().0
    );
    assert_eq!(decrypted.1, 34);
}

#[test]
fn serverbound_round_trips() {
    let packets = vec![
        ServerboundPacket::Ping,
        ServerboundPacket::EncryptionRequest,
        ServerboundPacket::EncryptionConfirm(vec![1, 2, 3], vec![4, 5]),
        ServerboundPacket::Login { username: "alice".to_string(), password: "pw1".to_string() },
        ServerboundPacket::Message("hi there".to_string()),
        ServerboundPacket::ImageMessage(vec![0u8; 300]),
        ServerboundPacket::Command("kick alice".to_string()),
        ServerboundPacket::FetchMessages(0, 20),
        ServerboundPacket::FetchMessages(-5, 70000),
    ];
    for p in packets {
        let bytes = encode_serverbound(&p);
        let (q, used) = decode_serverbound(&bytes, 0).unwrap();
        assert_eq!(p, q);
        assert_eq!(used, bytes.len());
    }
}

#[test]
fn clientbound_round_trips() {
    let packets = vec![
        ClientboundPacket::Pong,
        ClientboundPacket::EncryptionResponse(vec![9u8; 140], vec![7u8; 32]),
        ClientboundPacket::EncryptionAck,
        ClientboundPacket::LoginAck,
        ClientboundPacket::LoginFailed("User banned.".to_string()),
        ClientboundPacket::UserJoined("bob".to_string()),
        ClientboundPacket::UserLeft("bob".to_string()),
        ClientboundPacket::UsersOnline(vec!["a".to_string(), "b".to_string(), "c".to_string()]),
        ClientboundPacket::Message(Message {
            sender_id: 3,
            sender: "alice".to_string(),
            text: "hello".to_string(),
            time: 1700000000,
        }),
    ];
    for p in packets {
        let bytes = encode_clientbound(&p);
        let (q, used) = decode_clientbound(&bytes, 0).unwrap();
        assert_eq!(p, q);
        assert_eq!(used, bytes.len());
    }
}

#[test]
fn frame_round_trips_with_encryption() {
    let key = [7u8; 32];
    let nonce = [9u8; 24];
    let p = ServerboundPacket::Message("over the wire".to_string());
    let body = encode_serverbound(&p);
    let frame = encrypt_frame(&body, &key, &nonce);
    let (plain, used) = decrypt_frame(&frame, &key, &nonce).unwrap();
    assert_eq!(used, frame.len());
    assert_eq!(plain, body);
    let (q, _) = decode_serverbound(&plain, 0).unwrap();
    assert_eq!(p, q);
}

#[test]
fn frame_errors_are_reported() {
    let key = [0u8; 32];
    let nonce = [0u8; 24];
    assert_eq!(decrypt_frame(&vec![0, 0, 0], &key, &nonce), Err(FrameError::TooShort));
    assert_eq!(decrypt_frame(&vec![0, 0, 0, 30, 1, 2], &key, &nonce), Err(FrameError::NotFullFrame));
    let mut bad = vec![0, 0, 0, 16];
    bad.extend_from_slice(&[0u8; 16]);
    assert_eq!(decrypt_frame(&bad, &key, &nonce), Err(FrameError::BadTag));
}

#[test]
fn read_be_u32_reads_first_four_bytes() {
    assert_eq!(read_be_u32(&[0, 0, 1, 2, 99]), 258);
    assert_eq!(read_be_u32(&[0xff, 0xff, 0xff, 0xff]), u32::MAX);
}

#[test]
fn nonce_streams_are_deterministic() {
    let seed = [5u8; 32];
    let a = accord::crypto::nonce_stream(&seed, 10);
    let b = accord::crypto::nonce_stream(&seed, 10);
    assert_eq!(a, b);
    assert_eq!(a.len(), 10);
    for n in &a {
        assert_eq!(n.len(), 24);
    }
    let other = accord::crypto::nonce_stream(&[6u8; 32], 10);
    assert_ne!(a, other);
}

#[test]
fn session_frames_decode_in_order() {
    let secret = vec![42u8; 32];
    let mut writer_gen = Some(accord::crypto::NonceGen::new(&secret));
    let mut reader_gen = Some(accord::crypto::NonceGen::new(&secret));
    let writer_secret = Some(secret.clone());
    let reader_secret = Some(secret.clone());

    let first = ClientboundPacket::EncryptionAck;
    let second = ClientboundPacket::UserJoined("alice".to_string());
    let mut wire = accord::connection::write_packet_clientbound(&first, &writer_secret, &mut writer_gen);
    wire.extend_from_slice(&accord::connection::write_packet_clientbound(
        &second,
        &writer_secret,
        &mut writer_gen,
    ));

    // A truncated prefix only asks for more input and draws no nonce.
    let partial = wire[..3].to_vec();
    assert!(matches!(
        accord::connection::read_packet_clientbound(&partial, &reader_secret, &mut reader_gen),
        accord::connection::ReadOutcome::NeedMore
    ));

    let mut buffer = wire;
    match accord::connection::read_packet_clientbound(&buffer, &reader_secret, &mut reader_gen) {
        accord::connection::ReadOutcome::Packet(p, consumed) => {
            assert_eq!(p, first);
            buffer.drain(..consumed);
        }
        _ => panic!("expected the first frame to decode"),
    }
    match accord::connection::read_packet_clientbound(&buffer, &reader_secret, &mut reader_gen) {
        accord::connection::ReadOutcome::Packet(p, consumed) => {
            assert_eq!(p, second);
            assert_eq!(consumed, buffer.len());
        }
        _ => panic!("expected the second frame to decode"),
    }

    // A tampered frame is fatal.
    let mut writer_gen2 = Some(accord::crypto::NonceGen::new(&secret));
    let mut reader_gen2 = Some(accord::crypto::NonceGen::new(&secret));
    let mut bad = accord::connection::write_packet_clientbound(&first, &writer_secret, &mut writer_gen2);
    let last = bad.len() - 1;
    bad[last] ^= 1;
    assert!(matches!(
        accord::connection::read_packet_clientbound(&bad, &reader_secret, &mut reader_gen2),
        accord::connection::ReadOutcome::Corrupt
    ));
}

#[test]
fn plaintext_mode_waits_for_full_packets() {
    let p = ServerboundPacket::Login { username: "alice".to_string(), password: "pw".to_string() };
    let bytes = accord::connection::write_packet_serverbound(&p, &None, &mut None);
    let partial = bytes[..bytes.len() - 1].to_vec();
    assert!(matches!(
        accord::connection::read_packet_serverbound(&partial, &None, &mut None),
        accord::connection::ReadOutcome::NeedMore
    ));
    match accord::connection::read_packet_serverbound(&bytes, &None, &mut None) {
        accord::connection::ReadOutcome::Packet(q, consumed) => {
            assert_eq!(q, p);
            assert_eq!(consumed, bytes.len());
        }
        _ => panic!("expected the packet to decode"),
    }
}

#[test]
fn switch_commands_take_on_and_off() {
    let a = accord::connection::command_action("set_whitelist on", 1, true);
    assert!(matches!(a.forward, Some(accord::commands::ChannelCommand::SetWhitelist(true))));
    assert_eq!(a.respond.unwrap(), "Whitelist on.");
    let a = accord::connection::command_action("set_allow_new_accounts off", 1, true);
    assert!(matches!(
        a.forward,
        Some(accord::commands::ChannelCommand::SetAllowNewAccounts(false))
    ));
    assert_eq!(a.respond.unwrap(), "Allow new accounts off.");
    let a = accord::connection::command_action("set_whitelist sideways", 1, true);
    assert!(a.forward.is_none());
    let a = accord::connection::command_action("set_whitelist on", 1, false);
    assert!(a.forward.is_none());
    assert_eq!(a.respond.unwrap(), "Not permitted.");
}

#[test]
fn checked_writer_refuses_nothing_reasonable() {
    let p = ClientboundPacket::UserJoined("alice".to_string());
    let bytes = accord::connection::checked_write_packet_clientbound(&p, &None, &mut None).unwrap();
    assert_eq!(bytes, accord::packets::encode_clientbound(&p));
    let secret = vec![1u8; 32];
    let mut gen = Some(accord::crypto::NonceGen::new(&secret));
    let framed =
        accord::connection::checked_write_packet_clientbound(&p, &Some(secret), &mut gen).unwrap();
    assert!(framed.len() > bytes.len());
}
