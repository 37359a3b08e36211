use accord::channel::AccordChannel;
use accord::commands::{ChannelEffect, ConnectionCommand};
use accord::config::Config;
use accord::packets::{ClientboundPacket, ImageMessage, Message};
use accord::store::{hash_password, Database};
use rsa::PublicKey;

fn new_channel() -> AccordChannel {
    AccordChannel::new(Config::default()).unwrap()
}

fn login(ch: &mut AccordChannel, addr: u64, user: &str, pw: &str) -> Result<(i64, String), String> {
    let salt = vec![1u8; 64];
    let effects = ch.login_attempt(addr, user, pw, &salt);
    match effects.into_iter().next().unwrap() {
        ChannelEffect::ReplyLogin { result, .. } => result,
        _ => panic!("expected a login reply"),
    }
}

#[test]
fn account_creation_and_relogin() {
    let mut ch = new_channel();
    let r = login(&mut ch, 1, "alice", "pw1").unwrap();
    assert_eq!(r.1, "alice");
    let e = login(&mut ch, 2, "alice", "pw1").unwrap_err();
    assert_eq!(e, "Already logged in.");
    ch.user_left(1);
    let r2 = login(&mut ch, 2, "alice", "pw1").unwrap();
    assert_eq!(r2.0, r.0);
    let e2 = login(&mut ch, 3, "alice", "wrong").unwrap_err();
    assert_eq!(e2, "Incorrect password.");
}

#[test]
fn login_policy_rejections() {
    let mut ch = new_channel();
    assert_eq!(login(&mut ch, 1, "bad name", "x").unwrap_err(), "Invalid username!");
    ch.config.allow_new_accounts = false;
    assert_eq!(login(&mut ch, 1, "ghost", "x").unwrap_err(), "Account creation disabled.");
    ch.config.allow_new_accounts = true;
    login(&mut ch, 1, "mallory", "x").unwrap();
    ch.user_left(1);
    ch.db.set_banned("mallory", true);
    assert_eq!(login(&mut ch, 2, "mallory", "x").unwrap_err(), "User banned.");
    ch.config.whitelist_on = true;
    assert_eq!(login(&mut ch, 2, "newbie", "x").unwrap_err(), "User not on whitelist.");
}

#[test]
fn handshake_then_ack() {
    let mut ch = new_channel();
    let effects = ch.encryption_request(7);
    let (key_der, token) = match &effects[0] {
        ChannelEffect::Send {
            command: ConnectionCommand::Write(ClientboundPacket::EncryptionResponse(k, t)),
            ..
        } => (k.clone(), t.clone()),
        _ => panic!("expected the encryption response"),
    };
    assert_eq!(token.len(), 32);
    let pub_key: rsa::RsaPublicKey = rsa::pkcs8::FromPublicKey::from_public_key_der(&key_der).unwrap();
    let mut rng = rand::rngs::OsRng;
    let secret = [3u8; 32];
    let enc_secret = pub_key
        .encrypt(&mut rng, rsa::PaddingScheme::new_pkcs1v15_encrypt(), &secret)
        .unwrap();
    let enc_token = pub_key
        .encrypt(&mut rng, rsa::PaddingScheme::new_pkcs1v15_encrypt(), &token)
        .unwrap();
    let effects = ch.encryption_confirm(7, &enc_secret, &enc_token, &token);
    assert_eq!(effects.len(), 3);
    match &effects[0] {
        ChannelEffect::ReplyConfirm { secret: Some(s), .. } => assert_eq!(&s[..], &secret[..]),
        _ => panic!("expected the secret back"),
    }
    assert!(matches!(
        &effects[1],
        ChannelEffect::Send { command: ConnectionCommand::SetSecret(Some(_)), .. }
    ));
    assert!(matches!(
        &effects[2],
        ChannelEffect::Send {
            command: ConnectionCommand::Write(ClientboundPacket::EncryptionAck),
            ..
        }
    ));
}

#[test]
fn bad_token_is_refused() {
    let mut ch = new_channel();
    let effects = ch.encryption_request(7);
    let (key_der, token) = match &effects[0] {
        ChannelEffect::Send {
            command: ConnectionCommand::Write(ClientboundPacket::EncryptionResponse(k, t)),
            ..
        } => (k.clone(), t.clone()),
        _ => panic!("expected the encryption response"),
    };
    let pub_key: rsa::RsaPublicKey = rsa::pkcs8::FromPublicKey::from_public_key_der(&key_der).unwrap();
    let mut rng = rand::rngs::OsRng;
    let enc_secret = pub_key
        .encrypt(&mut rng, rsa::PaddingScheme::new_pkcs1v15_encrypt(), &[3u8; 32])
        .unwrap();
    let wrong = vec![0u8; 32];
    let enc_token = pub_key
        .encrypt(&mut rng, rsa::PaddingScheme::new_pkcs1v15_encrypt(), &wrong)
        .unwrap();
    let before = ch.db.accounts.len();
    let effects = ch.encryption_confirm(7, &enc_secret, &enc_token, &token);
    assert_eq!(effects.len(), 2);
    assert!(matches!(
        &effects[0],
        ChannelEffect::Send { command: ConnectionCommand::Close, .. }
    ));
    assert!(matches!(&effects[1], ChannelEffect::ReplyConfirm { secret: None, .. }));
    assert_eq!(ch.db.accounts.len(), before);
}

#[test]
fn broadcast_reaches_all_logged_in() {
    let mut ch = new_channel();
    login(&mut ch, 1, "alice", "pw").unwrap();
    login(&mut ch, 2, "bob", "pw").unwrap();
    let p = ClientboundPacket::Message(Message {
        sender_id: 1,
        sender: "alice".to_string(),
        text: "hi".to_string(),
        time: 1700000000,
    });
    let effects = ch.write_packet(&p);
    assert_eq!(effects.len(), 2);
    assert_eq!(ch.db.messages.len(), 1);
    assert_eq!(ch.db.messages[0].content, "hi");
    assert_eq!(ch.db.messages[0].send_time, 1700000000);
    for e in effects {
        assert!(matches!(
            e,
            ChannelEffect::Send { command: ConnectionCommand::Write(ClientboundPacket::Message(_)), .. }
        ));
    }
}

#[test]
fn user_left_broadcasts_and_unregisters() {
    let mut ch = new_channel();
    login(&mut ch, 1, "alice", "pw").unwrap();
    login(&mut ch, 2, "bob", "pw").unwrap();
    let effects = ch.user_left(1);
    assert_eq!(effects.len(), 1);
    match &effects[0] {
        ChannelEffect::Send {
            addr,
            command: ConnectionCommand::Write(ClientboundPacket::UserLeft(u)),
        } => {
            assert_eq!(*addr, 2);
            assert_eq!(u, "alice");
        },
        _ => panic!("expected a user-left broadcast"),
    }
    let p = ClientboundPacket::Pong;
    assert_eq!(ch.write_packet(&p).len(), 1);
}

#[test]
fn image_insert_is_idempotent() {
    let mut db = Database::new();
    let bytes = vec![1u8, 2, 3, 4, 5];
    let h1 = db.insert_image(&bytes);
    let h2 = db.insert_image(&bytes);
    assert_eq!(h1, h2);
    assert_eq!(db.images.len(), 1);
    assert_eq!(db.fetch_image(h1).unwrap(), bytes);
}

#[test]
fn password_hash_is_deterministic() {
    let salt = vec![9u8; 64];
    let a = hash_password("hunter2", &salt);
    let b = hash_password("hunter2", &salt);
    assert_eq!(a, b);
    assert_eq!(a.len(), 32);
    let c = hash_password("hunter3", &salt);
    assert_ne!(a, c);
}

#[test]
fn fetch_clamps_and_orders() {
    let mut ch = new_channel();
    login(&mut ch, 1, "alice", "pw").unwrap();
    for i in 0..70u64 {
        let p = ClientboundPacket::Message(Message {
            sender_id: 1,
            sender: "alice".to_string(),
            text: format!("m{}", i),
            time: 1000 + i,
        });
        ch.write_packet(&p);
    }
    let rows = ch.db.fetch_messages(0, 1000);
    assert_eq!(rows.len(), 64);
    assert_eq!(rows[0].content, "m69");
    assert_eq!(rows[63].content, "m6");
    let none = ch.db.fetch_messages(70, 10);
    assert!(none.is_empty());
    let tail = ch.db.fetch_messages(68, 10);
    assert_eq!(tail.len(), 2);
}

#[test]
fn history_replays_oldest_first() {
    let mut ch = new_channel();
    login(&mut ch, 1, "alice", "pw").unwrap();
    for i in 0..5u64 {
        let p = ClientboundPacket::Message(Message {
            sender_id: 1,
            sender: "alice".to_string(),
            text: format!("m{}", i),
            time: 1000 + i,
        });
        ch.write_packet(&p);
    }
    let effects = ch.fetch_messages(1, 0, 20);
    let messages = match effects.into_iter().next().unwrap() {
        ChannelEffect::ReplyMessages { messages, .. } => messages,
        _ => panic!("expected the history reply"),
    };
    assert_eq!(messages.len(), 5);
    // Newest first from the broker.
    match &messages[0] {
        ClientboundPacket::Message(m) => assert_eq!(m.text, "m4"),
        _ => panic!("expected a text message"),
    }
    // Oldest first after the reader reverses.
    let commands = accord::connection::replay_messages(messages);
    match &commands[0] {
        accord::commands::ConnectionCommand::Write(ClientboundPacket::Message(m)) => {
            assert_eq!(m.text, "m0")
        },
        _ => panic!("expected a write command"),
    }
}

#[test]
fn image_messages_are_rebuilt_from_the_store() {
    let mut ch = new_channel();
    login(&mut ch, 1, "alice", "pw").unwrap();
    let bytes = vec![9u8, 8, 7, 6];
    let p = ClientboundPacket::ImageMessage(ImageMessage {
        sender_id: 1,
        sender: "alice".to_string(),
        image_bytes: bytes.clone(),
        time: 2000,
    });
    ch.write_packet(&p);
    let effects = ch.fetch_messages(1, 0, 10);
    let messages = match effects.into_iter().next().unwrap() {
        ChannelEffect::ReplyMessages { messages, .. } => messages,
        _ => panic!("expected the history reply"),
    };
    assert_eq!(messages.len(), 1);
    match &messages[0] {
        ClientboundPacket::ImageMessage(m) => {
            assert_eq!(m.image_bytes, bytes);
            assert_eq!(m.sender, "alice");
            assert_eq!(m.time, 2000);
        },
        _ => panic!("expected an image message"),
    }
}

#[test]
fn operator_kick_and_gating() {
    let mut ch = new_channel();
    ch.config.operators.push("op".to_string());
    login(&mut ch, 1, "op", "pw").unwrap();
    login(&mut ch, 2, "alice", "pw").unwrap();

    let action = accord::connection::command_action("kick alice", 1, true);
    let cmd = action.forward.unwrap();
    assert!(matches!(&cmd, accord::commands::ChannelCommand::KickUser(t) if t == "alice"));
    assert_eq!(action.respond.unwrap(), "alice kicked.");
    let effects = ch.handle_command(cmd, &vec![0u8; 64]).unwrap();
    assert_eq!(effects.len(), 1);
    match &effects[0] {
        ChannelEffect::Send { addr, command: ConnectionCommand::Close } => assert_eq!(*addr, 2),
        _ => panic!("expected a close for alice"),
    }

    let refused = accord::connection::command_action("kick op", 2, false);
    assert!(refused.forward.is_none());
    assert_eq!(refused.respond.unwrap(), "Not permitted.");

    let unknown = accord::connection::command_action("dance", 2, false);
    assert!(unknown.forward.is_none());
    assert_eq!(unknown.respond.unwrap(), "Unknown command: dance");

    let list = accord::connection::command_action("list", 2, false);
    assert!(matches!(list.forward, Some(accord::commands::ChannelCommand::UsersQuery(2))));
    assert!(list.respond.is_none());
}

#[test]
fn permissions_reflect_config_and_rows() {
    let mut ch = new_channel();
    ch.config.operators.push("op".to_string());
    login(&mut ch, 1, "op", "pw").unwrap();
    ch.db.set_whitelisted("op", true);
    let effects = ch.check_permissions(1, "op");
    match &effects[0] {
        ChannelEffect::ReplyPerms { perms, .. } => {
            assert!(perms.operator);
            assert!(perms.whitelisted);
            assert!(!perms.banned);
        },
        _ => panic!("expected a permissions reply"),
    }
    let effects = ch.check_permissions(1, "nobody");
    match &effects[0] {
        ChannelEffect::ReplyPerms { perms, .. } => {
            assert!(!perms.operator && !perms.whitelisted && !perms.banned);
        },
        _ => panic!("expected a permissions reply"),
    }
}

#[test]
fn users_query_lists_connected() {
    let mut ch = new_channel();
    login(&mut ch, 1, "alice", "pw").unwrap();
    login(&mut ch, 2, "bob", "pw").unwrap();
    let effects = ch.users_query(1);
    match &effects[0] {
        ChannelEffect::Send {
            addr,
            command: ConnectionCommand::Write(ClientboundPacket::UsersOnline(names)),
        } => {
            assert_eq!(*addr, 1);
            assert_eq!(names, &vec!["alice".to_string(), "bob".to_string()]);
        },
        _ => panic!("expected the user list"),
    }
}

#[test]
fn config_toggles_save() {
    let mut ch = new_channel();
    let effects = ch.set_whitelist(true);
    assert!(matches!(effects[0], ChannelEffect::SaveConfig));
    assert!(ch.config.whitelist_on);
    let effects = ch.set_allow_new_accounts(false);
    assert!(matches!(effects[0], ChannelEffect::SaveConfig));
    assert!(!ch.config.allow_new_accounts);
}

#[test]
fn parse_command_splits_on_first_space() {
    let (verb, arg) = accord::connection::parse_command("kick alice bob");
    assert_eq!(verb, "kick");
    assert_eq!(arg.unwrap(), "alice bob");
    let (verb, arg) = accord::connection::parse_command("list");
    assert_eq!(verb, "list");
    assert!(arg.is_none());
    let (verb, arg) = accord::connection::parse_command("kick ");
    assert_eq!(verb, "kick");
    assert_eq!(arg.unwrap(), "");
}

#[test]
fn login_reply_actions_sequence() {
    let (id, writes, announce) =
        accord::connection::login_reply_actions(Ok((7, "alice".to_string())));
    assert_eq!(id, Some((7, "alice".to_string())));
    assert_eq!(writes.len(), 1);
    assert!(matches!(
        &writes[0],
        ConnectionCommand::Write(ClientboundPacket::LoginAck)
    ));
    assert!(matches!(
        announce,
        Some(accord::commands::ChannelCommand::UserJoined(n)) if n == "alice"
    ));

    let (id, writes, announce) =
        accord::connection::login_reply_actions(Err("User banned.".to_string()));
    assert!(id.is_none());
    assert!(announce.is_none());
    assert_eq!(writes.len(), 2);
    assert!(matches!(
        &writes[0],
        ConnectionCommand::Write(ClientboundPacket::LoginFailed(m)) if m == "User banned."
    ));
    assert!(matches!(&writes[1], ConnectionCommand::Close));
}

#[test]
fn from_rows_accepts_good_and_refuses_bad() {
    let good = vec![
        accord::store::AccountRow {
            user_id: 5,
            username: "alice".to_string(),
            password: vec![1u8; 32],
            salt: vec![2u8; 64],
            banned: false,
            whitelisted: true,
        },
        accord::store::AccountRow {
            user_id: 2,
            username: "bob".to_string(),
            password: vec![3u8; 32],
            salt: vec![4u8; 64],
            banned: true,
            whitelisted: false,
        },
    ];
    let db = Database::from_rows(good).unwrap();
    assert_eq!(db.accounts.len(), 2);
    assert_eq!(db.next_user_id, 6);

    let dup_name = vec![
        accord::store::AccountRow {
            user_id: 1,
            username: "alice".to_string(),
            password: vec![0u8; 32],
            salt: vec![0u8; 64],
            banned: false,
            whitelisted: false,
        },
        accord::store::AccountRow {
            user_id: 2,
            username: "alice".to_string(),
            password: vec![0u8; 32],
            salt: vec![0u8; 64],
            banned: false,
            whitelisted: false,
        },
    ];
    assert!(Database::from_rows(dup_name).is_none());

    let bad_salt = vec![accord::store::AccountRow {
        user_id: 1,
        username: "alice".to_string(),
        password: vec![0u8; 32],
        salt: vec![0u8; 10],
        banned: false,
        whitelisted: false,
    }];
    assert!(Database::from_rows(bad_salt).is_none());
}

#[test]
fn dispatcher_routes_commands() {
    let mut ch = new_channel();
    let salt = vec![0u8; 64];
    let effects = ch
        .handle_command(
            accord::commands::ChannelCommand::LoginAttempt {
                addr: 1,
                username: "alice".to_string(),
                password: "pw".to_string(),
            },
            &salt,
        )
        .unwrap();
    assert!(matches!(
        &effects[0],
        ChannelEffect::ReplyLogin { addr: 1, result: Ok(_) }
    ));
    let effects = ch
        .handle_command(
            accord::commands::ChannelCommand::Write(ClientboundPacket::Message(Message {
                sender_id: 1,
                sender: "alice".to_string(),
                text: "hi".to_string(),
                time: 1000,
            })),
            &salt,
        )
        .unwrap();
    assert_eq!(effects.len(), 1);
    assert_eq!(ch.db.messages.len(), 1);
    assert!(ch
        .handle_command(accord::commands::ChannelCommand::Close, &salt)
        .is_none());
}

#[test]
fn user_left_clears_the_name_for_retry() {
    let mut ch = new_channel();
    login(&mut ch, 1, "alice", "pw").unwrap();
    assert_eq!(login(&mut ch, 2, "alice", "pw").unwrap_err(), "Already logged in.");
    let effects = ch.user_left(1);
    assert!(effects.is_empty()); // no other writer remains
    login(&mut ch, 2, "alice", "pw").unwrap();
}
