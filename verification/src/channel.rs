//! The central broker: sole owner of the connected-user table, the key
//! pair, the configuration and the store. Each command it consumes yields a
//! list of effects for the runtime to deliver; all decisions are made here.

use crate::commands::{ChannelCommand, ChannelEffect, ConnectionCommand, UserPermissions};
use crate::config::Config;
use crate::crypto::{random_bytes, rsa_decrypt, rsa_decrypt_of, rsa_generate_keypair};
use crate::packets::{ClientboundPacket, ImageMessage, Message};
use crate::store::{spec_password_hash, AccountRow, Database, MessageRow};
use crate::utils::{bytes_eq, str_eq, valid_username};
use vstd::prelude::*;

verus! {

/// How a login attempt is settled, in the order the policy checks it.
pub enum LoginOutcome {
    InvalidUsername,
    Banned,
    NotWhitelisted,
    WrongPassword,
    AlreadyLoggedIn,
    CreationDisabled,
    /// The account existed; its identifier.
    Existing(i64),
    /// A fresh account was created; its identifier.
    Created(i64),
}

/// The account row carrying the given name, where one exists.
pub open spec fn spec_user_row(db: Database, u: Seq<char>) -> AccountRow {
    db.accounts@[choose|i: int| 0 <= i < db.accounts@.len() && db.accounts@[i].username@ == u]
}

/// The username connected at the given address, where one is.
pub open spec fn spec_name_at(c: AccordChannel, addr: u64) -> Seq<char> {
    c.connected_users@[choose|i: int|
        0 <= i < c.connected_users@.len() && c.connected_users@[i].0 == addr].1@
}

/// The stored bytes of the image with the given hash, where one exists.
pub open spec fn spec_image_data(db: Database, h: i32) -> Seq<u8> {
    db.images@[choose|i: int|
        0 <= i < db.images@.len() && db.images@[i].image_hash == h].data@
}

pub struct AccordChannel {
    /// Connections with a registered writer: broadcast goes to these.
    pub txs: Vec<u64>,
    /// Connection identifier and username of every logged-in user.
    pub connected_users: Vec<(u64, String)>,
    pub db: Database,
    pub config: Config,
    /// PKCS#8 DER of the broker's private key.
    pub priv_key_der: Vec<u8>,
    /// SubjectPublicKeyInfo DER of the matching public key.
    pub pub_key_der: Vec<u8>,
}

impl AccordChannel {
    pub open spec fn txs_has(&self, a: u64) -> bool {
        exists|i: int| 0 <= i < self.txs@.len() && self.txs@[i] == a
    }

    pub open spec fn connected_has_addr(&self, a: u64) -> bool {
        exists|i: int| 0 <= i < self.connected_users@.len() && self.connected_users@[i].0 == a
    }

    pub open spec fn connected_has_user(&self, u: Seq<char>) -> bool {
        exists|i: int| 0 <= i < self.connected_users@.len() && self.connected_users@[i].1@ == u
    }

    /// The broker's invariant: every connected user has a writer, usernames
    /// and identifiers are unique among connected users, and the store is
    /// well formed.
    pub open spec fn wf(&self) -> bool {
        &&& self.db.wf()
        &&& forall|i: int|
            0 <= i < self.connected_users@.len() ==> self.txs_has(
                (#[trigger] self.connected_users@[i]).0,
            )
        &&& forall|i: int, j: int|
            0 <= i < j < self.connected_users@.len() ==> self.connected_users@[i].1@
                != self.connected_users@[j].1@
        &&& forall|i: int, j: int|
            0 <= i < j < self.connected_users@.len() ==> self.connected_users@[i].0
                != self.connected_users@[j].0
        &&& forall|i: int, j: int| 0 <= i < j < self.txs@.len() ==> self.txs@[i] != self.txs@[j]
        &&& forall|i: int|
            0 <= i < self.connected_users@.len() ==> self.db.has_user(
                (#[trigger] self.connected_users@[i]).1@,
            )
    }

    /// The policy of §login, checked in order against the state before the
    /// attempt.
    pub open spec fn spec_login_outcome(
        c: AccordChannel,
        username: Seq<char>,
        password: Seq<char>,
    ) -> LoginOutcome {
        if !valid_username(username) {
            LoginOutcome::InvalidUsername
        } else if c.db.has_user(username) {
            let row = spec_user_row(c.db, username);
            if row.banned {
                LoginOutcome::Banned
            } else if c.config.whitelist_on && !row.whitelisted {
                LoginOutcome::NotWhitelisted
            } else if row.password@ != spec_password_hash(password, row.salt@) {
                LoginOutcome::WrongPassword
            } else if c.connected_has_user(username) {
                LoginOutcome::AlreadyLoggedIn
            } else {
                LoginOutcome::Existing(row.user_id)
            }
        } else {
            if c.config.whitelist_on {
                LoginOutcome::NotWhitelisted
            } else if c.config.allow_new_accounts {
                LoginOutcome::Created(c.db.next_user_id)
            } else {
                LoginOutcome::CreationDisabled
            }
        }
    }

    /// Creates a broker with a fresh RSA key pair, an empty store and no
    /// connections. Fails only if key generation fails.
    pub fn new(config: Config) -> (r: Option<AccordChannel>)
        ensures
            r matches Some(c) ==> c.wf() && c.txs@.len() == 0 && c.connected_users@.len() == 0
                && c.db.accounts@.len() == 0 && c.db.messages@.len() == 0 && c.db.images@.len()
                == 0,
    {
        match rsa_generate_keypair(crate::RSA_BITS) {
            Option::Some((priv_der, pub_der)) => Some(
                AccordChannel {
                    txs: Vec::new(),
                    connected_users: Vec::new(),
                    db: Database::new(),
                    config,
                    priv_key_der: priv_der,
                    pub_key_der: pub_der,
                },
            ),
            Option::None => None,
        }
    }

    /// Answers an encryption request: a fresh 32-byte challenge token goes
    /// both to the requesting connection's writer (inside the response
    /// packet, with the public key) and back to its reader.
    pub fn encryption_request(&self, addr: u64) -> (effects: Vec<ChannelEffect>)
        ensures
            effects@.len() == 2,
            effects@[0] matches ChannelEffect::Send {
                addr: a,
                command: ConnectionCommand::Write(ClientboundPacket::EncryptionResponse(k, t)),
            } && a == addr && k@ == self.pub_key_der@ && t@.len() == 32,
            effects@[1] matches ChannelEffect::ReplyToken { addr: a, token: t } && a == addr
                && t@.len() == 32,
            ({
                let t0 = match effects@[0] {
                    ChannelEffect::Send {
                        command: ConnectionCommand::Write(
                            ClientboundPacket::EncryptionResponse(_, t),
                        ),
                        ..
                    } => t@,
                    _ => Seq::empty(),
                };
                let t1 = match effects@[1] {
                    ChannelEffect::ReplyToken { token: t, .. } => t@,
                    _ => Seq::empty(),
                };
                t0 == t1
            }),
    {
        let token = random_bytes(crate::ENC_TOK_LEN);
        let token2 = vstd::slice::slice_to_vec(token.as_slice());
        let key = vstd::slice::slice_to_vec(self.pub_key_der.as_slice());
        let mut effects: Vec<ChannelEffect> = Vec::new();
        effects.push(
            ChannelEffect::Send {
                addr,
                command: ConnectionCommand::Write(
                    ClientboundPacket::EncryptionResponse(key, token),
                ),
            },
        );
        effects.push(ChannelEffect::ReplyToken { addr, token: token2 });
        effects
    }

    /// Settles the handshake confirmation. Both ciphertexts are decrypted
    /// with the private key; the attempt succeeds exactly when the token
    /// decrypts to the expected one and the secret decrypts to 32 bytes. On
    /// success the writer is told the secret and then, immediately after,
    /// to send the acknowledgement: the first frame under the new secret is
    /// the acknowledgement. On failure the writer is told to close.
    pub fn encryption_confirm(
        &self,
        addr: u64,
        enc_secret: &Vec<u8>,
        enc_token: &Vec<u8>,
        expected_token: &Vec<u8>,
    ) -> (effects: Vec<ChannelEffect>)
        ensures
            ({
                let dt = rsa_decrypt_of(self.priv_key_der@, enc_token@);
                let ds = rsa_decrypt_of(self.priv_key_der@, enc_secret@);
                if dt == Some(expected_token@) && (ds matches Some(sec) && sec.len() == 32) {
                    &&& effects@.len() == 3
                    &&& effects@[0] matches ChannelEffect::ReplyConfirm { addr: a, secret }
                        && a == addr && (secret matches Some(s) && s@ == ds->0)
                    &&& effects@[1] matches ChannelEffect::Send {
                        addr: a,
                        command: ConnectionCommand::SetSecret(Some(s)),
                    } && a == addr && s@ == ds->0
                    &&& effects@[2] matches ChannelEffect::Send {
                        addr: a,
                        command: ConnectionCommand::Write(ClientboundPacket::EncryptionAck),
                    } && a == addr
                } else {
                    &&& effects@.len() == 2
                    &&& effects@[0] matches ChannelEffect::Send {
                        addr: a,
                        command: ConnectionCommand::Close,
                    } && a == addr
                    &&& effects@[1] matches ChannelEffect::ReplyConfirm { addr: a, secret }
                        && a == addr && secret is None
                }
            }),
    {
        let mut effects: Vec<ChannelEffect> = Vec::new();
        let dec_token = rsa_decrypt(self.priv_key_der.as_slice(), enc_token.as_slice());
        let token_ok: bool = match &dec_token {
            Option::Some(t) => bytes_eq(t, expected_token),
            Option::None => false,
        };
        if token_ok {
            let dec_secret = rsa_decrypt(self.priv_key_der.as_slice(), enc_secret.as_slice());
            match dec_secret {
                Option::Some(sec) => {
                    if sec.len() == 32 {
                        let sec2 = vstd::slice::slice_to_vec(sec.as_slice());
                        effects.push(
                            ChannelEffect::ReplyConfirm { addr, secret: Some(sec) },
                        );
                        effects.push(
                            ChannelEffect::Send {
                                addr,
                                command: ConnectionCommand::SetSecret(Some(sec2)),
                            },
                        );
                        effects.push(
                            ChannelEffect::Send {
                                addr,
                                command: ConnectionCommand::Write(
                                    ClientboundPacket::EncryptionAck,
                                ),
                            },
                        );
                        return effects;
                    }
                },
                Option::None => {},
            }
        }
        effects.push(ChannelEffect::Send { addr, command: ConnectionCommand::Close });
        effects.push(ChannelEffect::ReplyConfirm { addr, secret: None });
        effects
    }

    /// Settles a login attempt per the policy, registering the connection
    /// on success. The single effect is the reply to the reader.
    pub fn login_attempt(
        &mut self,
        addr: u64,
        username: &str,
        password: &str,
        salt_entropy: &Vec<u8>,
    ) -> (effects: Vec<ChannelEffect>)
        requires
            old(self).wf(),
            !old(self).connected_has_addr(addr),
            !old(self).txs_has(addr),
            old(self).db.next_user_id < i64::MAX,
            salt_entropy@.len() == 64,
        ensures
            final(self).wf(),
            effects@.len() == 1,
            ({
                let out = Self::spec_login_outcome(*old(self), username@, password@);
                let ok = out is Existing || out is Created;
                &&& (effects@[0] matches ChannelEffect::ReplyLogin { addr: a, result } && a
                    == addr && (match out {
                    LoginOutcome::InvalidUsername => result matches Err(m) && m@
                        == "Invalid username!"@,
                    LoginOutcome::Banned => result matches Err(m) && m@ == "User banned."@,
                    LoginOutcome::NotWhitelisted => result matches Err(m) && m@
                        == "User not on whitelist."@,
                    LoginOutcome::WrongPassword => result matches Err(m) && m@
                        == "Incorrect password."@,
                    LoginOutcome::AlreadyLoggedIn => result matches Err(m) && m@
                        == "Already logged in."@,
                    LoginOutcome::CreationDisabled => result matches Err(m) && m@
                        == "Account creation disabled."@,
                    LoginOutcome::Existing(id) => result matches Ok((i, u)) && i == id && u@
                        == username@,
                    LoginOutcome::Created(id) => result matches Ok((i, u)) && i == id && u@
                        == username@,
                }))
                &&& (ok ==> {
                    &&& final(self).connected_users@.len() == old(self).connected_users@.len() + 1
                    &&& final(self).connected_users@.subrange(
                        0,
                        old(self).connected_users@.len() as int,
                    ) == old(self).connected_users@
                    &&& final(self).connected_users@.last().0 == addr
                    &&& final(self).connected_users@.last().1@ == username@
                    &&& final(self).txs@ == old(self).txs@.push(addr)
                })
                &&& (!ok ==> final(self).connected_users@ == old(self).connected_users@
                    && final(self).txs@ == old(self).txs@)
                &&& (out is Created ==> {
                    &&& final(self).db.accounts@.len() == old(self).db.accounts@.len() + 1
                    &&& final(self).db.accounts@.last().username@ == username@
                    &&& final(self).db.accounts@.last().password@ == spec_password_hash(
                        password@,
                        salt_entropy@,
                    )
                    &&& final(self).db.accounts@.last().salt@ == salt_entropy@
                    &&& final(self).db.next_user_id == old(self).db.next_user_id + 1
                    &&& final(self).db.messages@ == old(self).db.messages@
                    &&& final(self).db.images@ == old(self).db.images@
                })
                &&& (!(out is Created) ==> final(self).db == old(self).db)
            }),
    {
        let result: Result<(i64, String), String>;
        let mut register = false;
        if !crate::utils::verify_username(username) {
            result = Err("Invalid username!".to_owned());
        } else {
            match self.db.get_user(username) {
                Option::Some(row) => {
                    proof {
                        let i = choose|i: int|
                            0 <= i < self.db.accounts@.len() && (
                            #[trigger] self.db.accounts@[i]).same_as(row);
                        let j = choose|j: int|
                            0 <= j < self.db.accounts@.len() && self.db.accounts@[j].username@
                                == username@;
                        assert(self.db.accounts@[i].username@ == username@);
                        assert(i == j);
                        assert(spec_user_row(self.db, username@).same_as(row));
                    }
                    if row.banned {
                        result = Err("User banned.".to_owned());
                    } else if self.config.whitelist_on && !row.whitelisted {
                        result = Err("User not on whitelist.".to_owned());
                    } else {
                        let hash = crate::store::hash_password(password, &row.salt);
                        if !bytes_eq(&hash, &row.password) {
                            result = Err("Incorrect password.".to_owned());
                        } else if self.is_username_connected(username) {
                            result = Err("Already logged in.".to_owned());
                        } else {
                            result = Ok((row.user_id, username.to_owned()));
                            register = true;
                        }
                    }
                },
                Option::None => {
                    if self.config.whitelist_on {
                        result = Err("User not on whitelist.".to_owned());
                    } else if self.config.allow_new_accounts {
                        let hash = crate::store::hash_password(password, salt_entropy);
                        let id = self.db.insert_user(username, &hash, salt_entropy);
                        result = Ok((id, username.to_owned()));
                        register = true;
                    } else {
                        result = Err("Account creation disabled.".to_owned());
                    }
                },
            }
        }
        if register {
            self.connected_users.push((addr, username.to_owned()));
            self.txs.push(addr);
            proof {
                let m = self.connected_users@;
                let o = old(self).connected_users@;
                assert forall|i: int| 0 <= i < m.len() implies self.db.has_user(
                    (#[trigger] m[i]).1@,
                ) by {
                    if i < o.len() {
                        assert(m[i] == o[i]);
                        assert(old(self).db.has_user(o[i].1@));
                        let k = choose|k: int|
                            0 <= k < old(self).db.accounts@.len()
                                && old(self).db.accounts@[k].username@ == o[i].1@;
                        assert(self.db.accounts@.subrange(
                            0,
                            old(self).db.accounts@.len() as int,
                        ) == old(self).db.accounts@ || self.db.accounts@ == old(self).db.accounts@);
                        assert(self.db.accounts@[k] == old(self).db.accounts@[k]);
                        assert(self.db.accounts@[k].username@ == o[i].1@);
                    } else {
                        assert(m[i].1@ == username@);
                        assert(self.db.has_user(username@));
                    }
                }
                if !old(self).db.has_user(username@) {
                    assert(!old(self).connected_has_user(username@)) by {
                        if old(self).connected_has_user(username@) {
                            let i = choose|i: int|
                                0 <= i < o.len() && o[i].1@ == username@;
                            assert(old(self).db.has_user(o[i].1@));
                        }
                    }
                }
                assert forall|i: int| 0 <= i < m.len() implies self.txs_has(
                    (#[trigger] m[i]).0,
                ) by {
                    if i < o.len() {
                        assert(m[i] == o[i]);
                        assert(old(self).txs_has(o[i].0));
                        let k = choose|k: int|
                            0 <= k < old(self).txs@.len() && old(self).txs@[k] == o[i].0;
                        assert(self.txs@[k] == o[i].0);
                    } else {
                        assert(self.txs@.last() == addr);
                    }
                }
                assert forall|i: int, j: int| 0 <= i < j < m.len() implies m[i].1@
                    != m[j].1@ by {
                    if j < o.len() {
                        assert(m[i] == o[i] && m[j] == o[j]);
                    } else {
                        assert(m[i] == o[i]);
                        assert(m[j].1@ == username@);
                        assert(!old(self).connected_has_user(username@));
                    }
                }
                assert forall|i: int, j: int| 0 <= i < j < m.len() implies m[i].0 != m[j].0 by {
                    if j < o.len() {
                        assert(m[i] == o[i] && m[j] == o[j]);
                    } else {
                        assert(m[i] == o[i]);
                        assert(m[j].0 == addr);
                        if m[i].0 == addr {
                            assert(old(self).connected_has_addr(addr));
                        }
                    }
                }
                assert forall|i: int, j: int| 0 <= i < j < self.txs@.len() implies self.txs@[i]
                    != self.txs@[j] by {
                    if j < old(self).txs@.len() {
                    } else {
                        assert(self.txs@[j] == addr);
                        if self.txs@[i] == addr {
                            assert(old(self).txs_has(addr));
                        }
                    }
                }
                assert(self.connected_users@.subrange(0, o.len() as int) =~= o);
            }
        }
        let mut effects: Vec<ChannelEffect> = Vec::new();
        effects.push(ChannelEffect::ReplyLogin { addr, result });
        effects
    }

    /// Whether a username is currently connected.
    fn is_username_connected(&self, username: &str) -> (r: bool)
        ensures
            r == self.connected_has_user(username@),
    {
        let n = self.connected_users.len();
        let mut i: usize = 0;
        while i < n
            invariant
                0 <= i <= n == self.connected_users@.len(),
                forall|k: int| 0 <= k < i ==> self.connected_users@[k].1@ != username@,
            decreases n - i,
        {
            if str_eq(self.connected_users[i].1.as_str(), username) {
                assert(self.connected_users@[i as int].1@ == username@);
                return true;
            }
            i += 1;
        }
        false
    }
}


impl AccordChannel {
    /// Sends `Write(p)` to every logged-in connection, in table order.
    fn broadcast_effects(&self, p: &ClientboundPacket) -> (effects: Vec<ChannelEffect>)
        ensures
            effects@.len() == self.connected_users@.len(),
            forall|i: int|
                0 <= i < effects@.len() ==> (#[trigger] effects@[i] matches ChannelEffect::Send {
                    addr,
                    command: ConnectionCommand::Write(q),
                } && addr == self.connected_users@[i].0 && q@ == p@),
    {
        let n = self.connected_users.len();
        let mut effects: Vec<ChannelEffect> = Vec::new();
        let mut i: usize = 0;
        while i < n
            invariant
                0 <= i <= n == self.connected_users@.len(),
                effects@.len() == i,
                forall|k: int|
                    0 <= k < i ==> (#[trigger] effects@[k] matches ChannelEffect::Send {
                        addr,
                        command: ConnectionCommand::Write(q),
                    } && addr == self.connected_users@[k].0 && q@ == p@),
            decreases n - i,
        {
            effects.push(
                ChannelEffect::Send {
                    addr: self.connected_users[i].0,
                    command: ConnectionCommand::Write(p.duplicate()),
                },
            );
            i += 1;
        }
        effects
    }

    /// Persists a relayed message or image, then fans it out to every
    /// logged-in connection. The message becomes durable before any client
    /// can see it.
    pub fn write_packet(&mut self, p: &ClientboundPacket) -> (effects: Vec<ChannelEffect>)
        requires
            old(self).wf(),
            p@ matches crate::packets::SpecClientboundPacket::Message(m) ==> m.sender_id > 0
                && 0 < m.time <= i64::MAX && m.text.len() > 0,
            p@ matches crate::packets::SpecClientboundPacket::ImageMessage(m) ==> m.sender_id > 0
                && 0 < m.time <= i64::MAX,
        ensures
            final(self).wf(),
            final(self).connected_users@ == old(self).connected_users@,
            final(self).txs@ == old(self).txs@,
            final(self).db.accounts@ == old(self).db.accounts@,
            effects@.len() == old(self).connected_users@.len(),
            forall|i: int|
                0 <= i < effects@.len() ==> (#[trigger] effects@[i] matches ChannelEffect::Send {
                    addr,
                    command: ConnectionCommand::Write(q),
                } && addr == old(self).connected_users@[i].0 && q@ == p@),
            p@ matches crate::packets::SpecClientboundPacket::Message(m) ==> final(self).db.messages@.len() == old(self).db.messages@.len() + 1 && (exists|k: int|
                0 <= k <= old(self).db.messages@.len() && final(self).db.messages@ == old(self).db.messages@.insert(
                    k,
                    #[trigger] final(self).db.messages@[k],
                ) && final(self).db.messages@[k].sender_id == m.sender_id && final(self).db.messages@[k].sender@ == m.sender && final(self).db.messages@[k].content@
                    == m.text && final(self).db.messages@[k].send_time == m.time && final(self).db.messages@[k].image_hash is None),
            p@ matches crate::packets::SpecClientboundPacket::ImageMessage(m) ==> final(self).db.messages@.len() == old(self).db.messages@.len() + 1 && (exists|k: int|
                0 <= k <= old(self).db.messages@.len() && final(self).db.messages@[k].sender_id
                    == m.sender_id && (#[trigger] final(self).db.messages@[k]).sender@ == m.sender
                    && final(self).db.messages@[k].content@.len() == 0 && final(self).db.messages@[k].send_time == m.time && final(self).db.messages@[k].image_hash
                    == Some(crate::store::spec_image_hash(m.image_bytes))) && final(self).db.has_image(crate::store::spec_image_hash(m.image_bytes)),
            !(p@ is Message) && !(p@ is ImageMessage) ==> final(self).db == old(self).db,
    {
        match p {
            ClientboundPacket::Message(m) => {
                let row = MessageRow {
                    sender_id: m.sender_id,
                    sender: m.sender.clone(),
                    content: m.text.clone(),
                    send_time: m.time as i64,
                    image_hash: None,
                };
                let k = self.db.insert_message_row(row);
                assert(self.db.messages@[k as int].sender@ == m.sender@);
            },
            ClientboundPacket::ImageMessage(m) => {
                let h = self.db.insert_image(&m.image_bytes);
                let row = MessageRow {
                    sender_id: m.sender_id,
                    sender: m.sender.clone(),
                    content: String::new(),
                    send_time: m.time as i64,
                    image_hash: Some(h),
                };
                let k = self.db.insert_message_row(row);
                assert(self.db.messages@[k as int].sender@ == m.sender@);
            },
            _ => {},
        }
        proof {
            assert(self.connected_users@ == old(self).connected_users@);
            assert(self.txs@ == old(self).txs@);
            assert forall|k: int| 0 <= k < self.connected_users@.len() implies self.txs_has(
                (#[trigger] self.connected_users@[k]).0,
            ) by {
                assert(old(self).txs_has(old(self).connected_users@[k].0));
                let w = choose|w: int|
                    0 <= w < old(self).txs@.len() && old(self).txs@[w] == old(self).connected_users@[k].0;
                assert(self.txs@[w] == self.connected_users@[k].0);
            }
            assert forall|k: int| 0 <= k < self.connected_users@.len() implies self.db.has_user(
                (#[trigger] self.connected_users@[k]).1@,
            ) by {
                assert(old(self).db.has_user(old(self).connected_users@[k].1@));
                let w = choose|w: int|
                    0 <= w < old(self).db.accounts@.len() && old(self).db.accounts@[w].username@
                        == old(self).connected_users@[k].1@;
                assert(self.db.accounts@[w].username@ == self.connected_users@[k].1@);
            }
        }
        self.broadcast_effects(p)
    }

    /// Announces a user to every connection with a writer, logged in or not.
    pub fn user_joined(&self, username: &str) -> (effects: Vec<ChannelEffect>)
        ensures
            effects@.len() == self.txs@.len(),
            forall|i: int|
                0 <= i < effects@.len() ==> (#[trigger] effects@[i] matches ChannelEffect::Send {
                    addr,
                    command: ConnectionCommand::Write(ClientboundPacket::UserJoined(u)),
                } && addr == self.txs@[i] && u@ == username@),
    {
        let n = self.txs.len();
        let mut effects: Vec<ChannelEffect> = Vec::new();
        let mut i: usize = 0;
        while i < n
            invariant
                0 <= i <= n == self.txs@.len(),
                effects@.len() == i,
                forall|k: int|
                    0 <= k < i ==> (#[trigger] effects@[k] matches ChannelEffect::Send {
                        addr,
                        command: ConnectionCommand::Write(ClientboundPacket::UserJoined(u)),
                    } && addr == self.txs@[k] && u@ == username@),
            decreases n - i,
        {
            effects.push(
                ChannelEffect::Send {
                    addr: self.txs[i],
                    command: ConnectionCommand::Write(
                        ClientboundPacket::UserJoined(username.to_owned()),
                    ),
                },
            );
            i += 1;
        }
        effects
    }

    /// Forgets a connection. If it belonged to a logged-in user, the
    /// remaining writers are told that the user left.
    #[verifier::rlimit(100)]
    #[verifier::spinoff_prover]
    pub fn user_left(&mut self, addr: u64) -> (effects: Vec<ChannelEffect>)
        requires
            old(self).wf(),
        ensures
            final(self).wf(),
            final(self).db == old(self).db,
            final(self).config == old(self).config,
            !final(self).txs_has(addr),
            !final(self).connected_has_addr(addr),
            forall|a: u64|
                a != addr ==> (final(self).txs_has(a) == old(self).txs_has(a) && final(self).connected_has_addr(a) == old(self).connected_has_addr(a)),
            forall|u: Seq<char>|
                final(self).connected_has_user(u) ==> old(self).connected_has_user(u),
            old(self).connected_has_addr(addr) ==> !final(self).connected_has_user(
                spec_name_at(*old(self), addr),
            ),
            old(self).connected_has_addr(addr) ==> effects@.len() == final(self).txs@.len() && (
            forall|i: int|
                0 <= i < effects@.len() ==> (#[trigger] effects@[i] matches ChannelEffect::Send {
                    addr: a,
                    command: ConnectionCommand::Write(ClientboundPacket::UserLeft(u)),
                } && a == final(self).txs@[i] && u@ == spec_name_at(*old(self), addr))),
            !old(self).connected_has_addr(addr) ==> effects@.len() == 0 && final(self).connected_users@ == old(self).connected_users@,
    {
        let ghost oc = self.connected_users@;
        let ghost ot = self.txs@;
        let removed = remove_addr_entry(&mut self.connected_users, addr);
        let removed_tx = remove_addr_value(&mut self.txs, addr);
        let ghost c = self.connected_users@;
        let ghost t = self.txs@;
        proof {
            let ci: int = match removed {
                Option::Some((_, i)) => i as int,
                Option::None => oc.len() as int,
            };
            let ti: int = match removed_tx {
                Option::Some(i) => i as int,
                Option::None => ot.len() as int,
            };
            if removed is Some {
                oc.remove_ensures(ci);
            }
            if removed_tx is Some {
                ot.remove_ensures(ti);
            }
            // Each surviving entry is an old entry at the same or the next
            // index; none of them carries `addr`.
            assert forall|k: int| 0 <= k < c.len() implies (exists|w: int|
                0 <= w < oc.len() && w != ci && oc[w] == #[trigger] c[k]) by {
                if removed is Some {
                    if k < ci {
                        assert(c[k] == oc[k]);
                        assert(oc[ci].0 == addr);
                        assert(k != ci && oc[k] == c[k]);
                    } else {
                        assert(c[k] == oc[k + 1]);
                        assert(k + 1 != ci && oc[k + 1] == c[k]);
                    }
                } else {
                    assert(c[k] == oc[k]);
                    assert(k != ci && oc[k] == c[k]);
                }
            }
            assert forall|k: int| 0 <= k < t.len() implies (exists|w: int|
                0 <= w < ot.len() && w != ti && ot[w] == #[trigger] t[k]) by {
                if removed_tx is Some {
                    if k < ti {
                        assert(t[k] == ot[k]);
                        assert(k != ti && ot[k] == t[k]);
                    } else {
                        assert(t[k] == ot[k + 1]);
                        assert(k + 1 != ti && ot[k + 1] == t[k]);
                    }
                } else {
                    assert(t[k] == ot[k]);
                    assert(k != ti && ot[k] == t[k]);
                }
            }
            assert forall|k: int| 0 <= k < t.len() implies #[trigger] t[k] != addr by {
                let w = choose|w: int| 0 <= w < ot.len() && w != ti && ot[w] == t[k];
                if removed_tx is Some {
                    assert(ot[ti] == addr);
                    assert(ot[w] != ot[ti]);
                } else {
                    assert(ot[w] != addr);
                }
            }
            assert forall|k: int| 0 <= k < c.len() implies (#[trigger] c[k]).0 != addr by {
                let w = choose|w: int| 0 <= w < oc.len() && w != ci && oc[w] == c[k];
                if removed is Some {
                    assert(oc[ci].0 == addr);
                    assert(oc[w].0 != oc[ci].0);
                } else {
                    assert(oc[w].0 != addr);
                }
            }
            // Anything present before, other than `addr`, is still present.
            assert forall|a: u64| a != addr && old(self).txs_has(a) implies self.txs_has(a) by {
                let w = choose|w: int| 0 <= w < ot.len() && ot[w] == a;
                assert(w != ti);
                if removed_tx is Some {
                    if w < ti {
                        assert(t[w] == ot[w]);
                    } else {
                        assert(t[w - 1] == ot[w]);
                    }
                } else {
                    assert(t[w] == ot[w]);
                }
            }
            assert forall|a: u64| a != addr && old(self).connected_has_addr(a) implies
                self.connected_has_addr(a) by {
                let w = choose|w: int| 0 <= w < oc.len() && oc[w].0 == a;
                assert(w != ci);
                if removed is Some {
                    if w < ci {
                        assert(c[w] == oc[w]);
                    } else {
                        assert(c[w - 1] == oc[w]);
                    }
                } else {
                    assert(c[w] == oc[w]);
                }
            }
            // Nothing present now was absent before.
            assert forall|a: u64| self.txs_has(a) implies old(self).txs_has(a) by {
                let k = choose|k: int| 0 <= k < t.len() && t[k] == a;
                let w = choose|w: int| 0 <= w < ot.len() && w != ti && ot[w] == t[k];
                assert(ot[w] == a);
            }
            assert forall|a: u64| self.connected_has_addr(a) implies old(self).connected_has_addr(a) by {
                let k = choose|k: int| 0 <= k < c.len() && c[k].0 == a;
                let w = choose|w: int| 0 <= w < oc.len() && w != ci && oc[w] == c[k];
                assert(oc[w].0 == a);
            }
            assert forall|u: Seq<char>| self.connected_has_user(u) implies old(self).connected_has_user(u) by {
                let k = choose|k: int| 0 <= k < c.len() && c[k].1@ == u;
                let w = choose|w: int| 0 <= w < oc.len() && w != ci && oc[w] == c[k];
                assert(oc[w].1@ == u);
            }
            // The invariant survives.
            assert forall|x: int, y: int| 0 <= x < y < c.len() implies c[x].1@ != c[y].1@ by {
                if removed is Some {
                    let a = if x < ci { oc[x] } else { oc[x + 1] };
                    let b = if y < ci { oc[y] } else { oc[y + 1] };
                    assert(c[x] == a && c[y] == b);
                } else {
                    assert(c[x] == oc[x] && c[y] == oc[y]);
                }
            }
            assert forall|x: int, y: int| 0 <= x < y < c.len() implies c[x].0 != c[y].0 by {
                if removed is Some {
                    let a = if x < ci { oc[x] } else { oc[x + 1] };
                    let b = if y < ci { oc[y] } else { oc[y + 1] };
                    assert(c[x] == a && c[y] == b);
                } else {
                    assert(c[x] == oc[x] && c[y] == oc[y]);
                }
            }
            assert forall|x: int, y: int| 0 <= x < y < t.len() implies t[x] != t[y] by {
                if removed_tx is Some {
                    let a = if x < ti { ot[x] } else { ot[x + 1] };
                    let b = if y < ti { ot[y] } else { ot[y + 1] };
                    assert(t[x] == a && t[y] == b);
                } else {
                    assert(t[x] == ot[x] && t[y] == ot[y]);
                }
            }
            assert forall|k: int| 0 <= k < c.len() implies self.txs_has((#[trigger] c[k]).0) by {
                let w = choose|w: int| 0 <= w < oc.len() && w != ci && oc[w] == c[k];
                assert(old(self).txs_has(oc[w].0));
                let v = choose|v: int| 0 <= v < ot.len() && ot[v] == oc[w].0;
                assert(c[k].0 != addr);
                assert(v != ti);
                if removed_tx is Some {
                    if v < ti {
                        assert(t[v] == ot[v]);
                    } else {
                        assert(t[v - 1] == ot[v]);
                    }
                } else {
                    assert(t[v] == ot[v]);
                }
            }
            assert forall|k: int| 0 <= k < c.len() implies self.db.has_user(
                (#[trigger] c[k]).1@,
            ) by {
                let w = choose|w: int| 0 <= w < oc.len() && w != ci && oc[w] == c[k];
                assert(old(self).db.has_user(oc[w].1@));
            }
            if removed is None {
                assert(!old(self).connected_has_addr(addr));
            } else {
                assert(oc[ci].0 == addr);
                let n = spec_name_at(*old(self), addr);
                let cj = choose|i: int| 0 <= i < oc.len() && oc[i].0 == addr;
                assert(ci == cj);
                assert(n == oc[ci].1@);
                assert forall|k: int| 0 <= k < c.len() implies (#[trigger] c[k]).1@ != n by {
                    let w = choose|w: int| 0 <= w < oc.len() && w != ci && oc[w] == c[k];
                    assert(oc[w].1@ != oc[ci].1@);
                }
            }
        }
        match removed {
            Option::Some((u, _)) => {
                assert(u@ == spec_name_at(*old(self), addr));
                let mut effects: Vec<ChannelEffect> = Vec::new();
                let t2 = self.txs.len();
                let mut i2: usize = 0;
                while i2 < t2
                    invariant
                        0 <= i2 <= t2 == self.txs@.len(),
                        effects@.len() == i2,
                        u@ == spec_name_at(*old(self), addr),
                        forall|k: int|
                            0 <= k < i2 ==> (#[trigger] effects@[k] matches ChannelEffect::Send {
                                addr: a,
                                command: ConnectionCommand::Write(
                                    ClientboundPacket::UserLeft(uu),
                                ),
                            } && a == self.txs@[k] && uu@ == u@),
                    decreases t2 - i2,
                {
                    effects.push(
                        ChannelEffect::Send {
                            addr: self.txs[i2],
                            command: ConnectionCommand::Write(
                                ClientboundPacket::UserLeft(u.clone()),
                            ),
                        },
                    );
                    i2 += 1;
                }
                effects
            },
            Option::None => {
                Vec::new()
            },
        }
    }
}

impl AccordChannel {
    /// The usernames of the logged-in users, in table order.
    pub open spec fn spec_usernames(&self) -> Seq<Seq<char>> {
        Seq::new(self.connected_users@.len(), |i: int| self.connected_users@[i].1@)
    }

    /// Collects the connected usernames.
    fn usernames(&self) -> (r: Vec<String>)
        ensures
            r.deep_view() == self.spec_usernames(),
    {
        let n = self.connected_users.len();
        let mut r: Vec<String> = Vec::new();
        let mut i: usize = 0;
        while i < n
            invariant
                0 <= i <= n == self.connected_users@.len(),
                r@.len() == i,
                forall|k: int|
                    0 <= k < i ==> #[trigger] r.deep_view()[k] == self.connected_users@[k].1@,
            decreases n - i,
        {
            let ghost before = r.deep_view();
            r.push(self.connected_users[i].1.clone());
            proof {
                assert(r.deep_view() =~= before.push(self.connected_users@[i as int].1@));
            }
            i += 1;
        }
        assert(r.deep_view() =~= self.spec_usernames());
        r
    }

    /// Answers a user-list request from a connection: the requester's writer
    /// gets the list of connected usernames.
    pub fn users_query(&self, addr: u64) -> (effects: Vec<ChannelEffect>)
        ensures
            effects@.len() == 1,
            effects@[0] matches ChannelEffect::Send {
                addr: a,
                command: ConnectionCommand::Write(ClientboundPacket::UsersOnline(names)),
            } && a == addr && names.deep_view() == self.spec_usernames(),
    {
        let names = self.usernames();
        let mut effects: Vec<ChannelEffect> = Vec::new();
        effects.push(
            ChannelEffect::Send {
                addr,
                command: ConnectionCommand::Write(ClientboundPacket::UsersOnline(names)),
            },
        );
        effects
    }

    /// Answers the console's user-list query.
    pub fn users_query_tui(&self) -> (effects: Vec<ChannelEffect>)
        ensures
            effects@.len() == 1,
            effects@[0] matches ChannelEffect::ReplyUsersTui { users } && users.deep_view()
                == self.spec_usernames(),
    {
        let names = self.usernames();
        let mut effects: Vec<ChannelEffect> = Vec::new();
        effects.push(ChannelEffect::ReplyUsersTui { users: names });
        effects
    }

    /// Answers a permissions query: the operator flag comes from the
    /// configuration, the banned and whitelisted flags from the account row;
    /// an unknown account has no permissions at all.
    pub fn check_permissions(&self, addr: u64, username: &str) -> (effects: Vec<ChannelEffect>)
        requires
            self.wf(),
        ensures
            effects@.len() == 1,
            effects@[0] matches ChannelEffect::ReplyPerms { addr: a, perms } && a == addr && (
            if self.db.has_user(username@) {
                let row = spec_user_row(self.db, username@);
                &&& perms.operator == self.config.spec_is_operator(username@)
                &&& perms.banned == row.banned
                &&& perms.whitelisted == row.whitelisted
            } else {
                !perms.operator && !perms.banned && !perms.whitelisted
            }),
    {
        let perms = match self.db.get_user(username) {
            Option::Some(row) => {
                proof {
                    let i = choose|i: int|
                        0 <= i < self.db.accounts@.len() && (
                        #[trigger] self.db.accounts@[i]).same_as(row);
                    let j = choose|j: int|
                        0 <= j < self.db.accounts@.len() && self.db.accounts@[j].username@
                            == username@;
                    assert(self.db.accounts@[i].username@ == username@);
                    assert(i == j);
                    assert(spec_user_row(self.db, username@).same_as(row));
                }
                UserPermissions {
                    operator: self.config.is_operator(username),
                    banned: row.banned,
                    whitelisted: row.whitelisted,
                }
            },
            Option::None => UserPermissions::default(),
        };
        let mut effects: Vec<ChannelEffect> = Vec::new();
        effects.push(ChannelEffect::ReplyPerms { addr, perms });
        effects
    }

    /// Tells the writer of the connection logged in under `username`, if
    /// any, to close. Connected usernames are unique, so at most one
    /// connection is affected.
    pub fn kick_user(&self, username: &str) -> (effects: Vec<ChannelEffect>)
        requires
            self.wf(),
        ensures
            self.connected_has_user(username@) ==> effects@.len() == 1 && (
            effects@[0] matches ChannelEffect::Send { addr, command: ConnectionCommand::Close }
                && (exists|i: int|
                0 <= i < self.connected_users@.len() && (#[trigger] self.connected_users@[i]).0
                    == addr && self.connected_users@[i].1@ == username@)),
            !self.connected_has_user(username@) ==> effects@.len() == 0,
    {
        let n = self.connected_users.len();
        let mut effects: Vec<ChannelEffect> = Vec::new();
        let mut i: usize = 0;
        while i < n
            invariant
                0 <= i <= n == self.connected_users@.len(),
                self.wf(),
                forall|k: int| 0 <= k < i ==> self.connected_users@[k].1@ != username@,
                effects@.len() == 0,
            decreases n - i,
        {
            if str_eq(self.connected_users[i].1.as_str(), username) {
                effects.push(
                    ChannelEffect::Send {
                        addr: self.connected_users[i].0,
                        command: ConnectionCommand::Close,
                    },
                );
                assert(self.connected_users@[i as int].1@ == username@);
                return effects;
            }
            i += 1;
        }
        effects
    }

    /// Sets or clears the banned flag; banning also kicks the user's
    /// connection. Unknown accounts are left alone.
    pub fn ban_user(&mut self, username: &str, switch: bool) -> (effects: Vec<ChannelEffect>)
        requires
            old(self).wf(),
        ensures
            final(self).wf(),
            final(self).connected_users@ == old(self).connected_users@,
            final(self).txs@ == old(self).txs@,
            final(self).config == old(self).config,
            final(self).db.messages@ == old(self).db.messages@,
            final(self).db.images@ == old(self).db.images@,
            final(self).db.accounts@.len() == old(self).db.accounts@.len(),
            forall|i: int|
                0 <= i < final(self).db.accounts@.len() ==> {
                    let o = old(self).db.accounts@[i];
                    let m = #[trigger] final(self).db.accounts@[i];
                    if o.username@ == username@ {
                        m == AccountRow { banned: switch, ..o }
                    } else {
                        m == o
                    }
                },
            switch && old(self).connected_has_user(username@) ==> effects@.len() == 1 && (
            effects@[0] matches ChannelEffect::Send {
                addr,
                command: ConnectionCommand::Close,
            }),
            !(switch && old(self).connected_has_user(username@)) ==> effects@.len() == 0,
    {
        let effects = if switch {
            self.kick_user(username)
        } else {
            Vec::new()
        };
        self.db.set_banned(username, switch);
        proof {
            assert forall|u: Seq<char>| old(self).db.has_user(u) implies #[trigger] self.db.has_user(
                u,
            ) by {
                let w = choose|w: int|
                    0 <= w < old(self).db.accounts@.len() && old(self).db.accounts@[w].username@
                        == u;
                assert(self.db.accounts@[w].username@ == old(self).db.accounts@[w].username@);
            }
            lemma_conn_wf_frame(*old(self), *self);
        }
        effects
    }

    /// Sets or clears the whitelisted flag. Unknown accounts are left alone.
    pub fn whitelist_user(&mut self, username: &str, switch: bool) -> (effects: Vec<
        ChannelEffect,
    >)
        requires
            old(self).wf(),
        ensures
            final(self).wf(),
            final(self).connected_users@ == old(self).connected_users@,
            final(self).txs@ == old(self).txs@,
            final(self).config == old(self).config,
            final(self).db.messages@ == old(self).db.messages@,
            final(self).db.images@ == old(self).db.images@,
            final(self).db.accounts@.len() == old(self).db.accounts@.len(),
            forall|i: int|
                0 <= i < final(self).db.accounts@.len() ==> {
                    let o = old(self).db.accounts@[i];
                    let m = #[trigger] final(self).db.accounts@[i];
                    if o.username@ == username@ {
                        m == AccountRow { whitelisted: switch, ..o }
                    } else {
                        m == o
                    }
                },
            effects@.len() == 0,
    {
        self.db.set_whitelisted(username, switch);
        proof {
            assert forall|u: Seq<char>| old(self).db.has_user(u) implies #[trigger] self.db.has_user(
                u,
            ) by {
                let w = choose|w: int|
                    0 <= w < old(self).db.accounts@.len() && old(self).db.accounts@[w].username@
                        == u;
                assert(self.db.accounts@[w].username@ == old(self).db.accounts@[w].username@);
            }
            lemma_conn_wf_frame(*old(self), *self);
        }
        Vec::new()
    }

    /// Turns the whitelist gate on or off and asks for the configuration to
    /// be written out.
    pub fn set_whitelist(&mut self, on: bool) -> (effects: Vec<ChannelEffect>)
        requires
            old(self).wf(),
        ensures
            final(self).wf(),
            final(self).config.whitelist_on == on,
            final(self).config.allow_new_accounts == old(self).config.allow_new_accounts,
            final(self).config.operators@ == old(self).config.operators@,
            final(self).config.port == old(self).config.port,
            final(self).config.db_host@ == old(self).config.db_host@,
            final(self).config.db_port@ == old(self).config.db_port@,
            final(self).config.db_user@ == old(self).config.db_user@,
            final(self).config.db_pass@ == old(self).config.db_pass@,
            final(self).config.db_dbname@ == old(self).config.db_dbname@,
            final(self).config.whitelist@ == old(self).config.whitelist@,
            final(self).config.banned_users@ == old(self).config.banned_users@,
            final(self).connected_users@ == old(self).connected_users@,
            final(self).txs@ == old(self).txs@,
            final(self).db == old(self).db,
            effects@.len() == 1 && effects@[0] is SaveConfig,
    {
        self.config.whitelist_on = on;
        proof {
            lemma_conn_wf_frame(*old(self), *self);
        }
        let mut effects: Vec<ChannelEffect> = Vec::new();
        effects.push(ChannelEffect::SaveConfig);
        effects
    }

    /// Allows or forbids account creation and asks for the configuration to
    /// be written out.
    pub fn set_allow_new_accounts(&mut self, on: bool) -> (effects: Vec<ChannelEffect>)
        requires
            old(self).wf(),
        ensures
            final(self).wf(),
            final(self).config.allow_new_accounts == on,
            final(self).config.whitelist_on == old(self).config.whitelist_on,
            final(self).config.operators@ == old(self).config.operators@,
            final(self).config.port == old(self).config.port,
            final(self).config.db_host@ == old(self).config.db_host@,
            final(self).config.db_port@ == old(self).config.db_port@,
            final(self).config.db_user@ == old(self).config.db_user@,
            final(self).config.db_pass@ == old(self).config.db_pass@,
            final(self).config.db_dbname@ == old(self).config.db_dbname@,
            final(self).config.whitelist@ == old(self).config.whitelist@,
            final(self).config.banned_users@ == old(self).config.banned_users@,
            final(self).connected_users@ == old(self).connected_users@,
            final(self).txs@ == old(self).txs@,
            final(self).db == old(self).db,
            effects@.len() == 1 && effects@[0] is SaveConfig,
    {
        self.config.allow_new_accounts = on;
        proof {
            lemma_conn_wf_frame(*old(self), *self);
        }
        let mut effects: Vec<ChannelEffect> = Vec::new();
        effects.push(ChannelEffect::SaveConfig);
        effects
    }

    /// Answers a history query: the requested slice of the log, newest
    /// first, with image rows rebuilt from the image store. The reader
    /// replays the list in reverse, so the client sees oldest first.
    #[verifier::rlimit(100)]
    #[verifier::spinoff_prover]
    pub fn fetch_messages(&self, addr: u64, offset: i64, count: i64) -> (effects: Vec<
        ChannelEffect,
    >)
        requires
            self.wf(),
        ensures
            effects@.len() == 1,
            effects@[0] matches ChannelEffect::ReplyMessages { addr: a, messages } && a == addr
                && ({
                let total = self.db.messages@.len() as int;
                let off = if offset < 0 { 0int } else { offset as int };
                let cnt = if count < 0 { 0int } else if count > 64 { 64int } else { count as int };
                let avail = if off >= total { 0int } else { total - off };
                let take = if cnt <= avail { cnt } else { avail };
                &&& messages@.len() == take
                &&& forall|i: int|
                    0 <= i < take ==> {
                        let row = self.db.messages@[total - 1 - off - i];
                        (#[trigger] messages@[i])@ == (match row.image_hash {
                            Option::None => crate::packets::SpecClientboundPacket::Message(
                                crate::packets::SpecMessage {
                                    sender_id: row.sender_id,
                                    sender: row.sender@,
                                    text: row.content@,
                                    time: row.send_time as u64,
                                },
                            ),
                            Option::Some(h) => crate::packets::SpecClientboundPacket::ImageMessage(
                                crate::packets::SpecImageMessage {
                                    sender_id: row.sender_id,
                                    sender: row.sender@,
                                    image_bytes: spec_image_data(self.db, h),
                                    time: row.send_time as u64,
                                },
                            ),
                        })
                    }
            }),
    {
        let rows = self.db.fetch_messages(offset, count);
        let ghost total = self.db.messages@.len() as int;
        let ghost off = if offset < 0 { 0int } else { offset as int };
        let n = rows.len();
        let mut messages: Vec<ClientboundPacket> = Vec::new();
        let mut i: usize = 0;
        while i < n
            invariant
                0 <= i <= n == rows@.len(),
                self.wf(),
                total == self.db.messages@.len() as int,
                off >= 0,
                n == 0 || off + n <= total,
                forall|k: int| 0 <= k < n ==> rows@[k] == self.db.messages@[total - 1 - off - k],
                messages@.len() == i,
                forall|k: int|
                    0 <= k < i ==> {
                        let row = self.db.messages@[total - 1 - off - k];
                        (#[trigger] messages@[k])@ == (match row.image_hash {
                            Option::None => crate::packets::SpecClientboundPacket::Message(
                                crate::packets::SpecMessage {
                                    sender_id: row.sender_id,
                                    sender: row.sender@,
                                    text: row.content@,
                                    time: row.send_time as u64,
                                },
                            ),
                            Option::Some(h) => crate::packets::SpecClientboundPacket::ImageMessage(
                                crate::packets::SpecImageMessage {
                                    sender_id: row.sender_id,
                                    sender: row.sender@,
                                    image_bytes: spec_image_data(self.db, h),
                                    time: row.send_time as u64,
                                },
                            ),
                        })
                    },
            decreases n - i,
        {
            let ghost idx = total - 1 - off - i;
            assert(rows@[i as int] == self.db.messages@[idx]);
            assert(self.db.messages@[idx].send_time > 0);
            let row = &rows[i];
            match row.image_hash {
                Option::None => {
                    messages.push(
                        ClientboundPacket::Message(
                            Message {
                                sender_id: row.sender_id,
                                sender: row.sender.clone(),
                                text: row.content.clone(),
                                time: row.send_time as u64,
                            },
                        ),
                    );
                },
                Option::Some(h) => {
                    assert(self.db.has_image(h));
                    let img = match self.db.fetch_image(h) {
                        Option::Some(v) => v,
                        Option::None => vstd::pervasive::unreached(),
                    };
                    proof {
                        let w = choose|w: int|
                            0 <= w < self.db.images@.len() && self.db.images@[w].image_hash == h
                                && img@ == self.db.images@[w].data@;
                        let u = choose|u: int|
                            0 <= u < self.db.images@.len() && self.db.images@[u].image_hash == h;
                        assert(w == u);
                        assert(img@ == spec_image_data(self.db, h));
                    }
                    messages.push(
                        ClientboundPacket::ImageMessage(
                            ImageMessage {
                                sender_id: row.sender_id,
                                sender: row.sender.clone(),
                                image_bytes: img,
                                time: row.send_time as u64,
                            },
                        ),
                    );
                },
            }
            i += 1;
        }
        let mut effects: Vec<ChannelEffect> = Vec::new();
        effects.push(ChannelEffect::ReplyMessages { addr, messages });
        effects
    }

    /// Consumes one command, in the way the broker's loop does: the returned
    /// effects are to be delivered in order. `None` means the broker was
    /// told to shut down. The exact behaviour of each command is stated on
    /// the method that handles it.
    #[verifier::rlimit(100)]
    #[verifier::spinoff_prover]
    pub fn handle_command(&mut self, cmd: ChannelCommand, salt_entropy: &Vec<u8>) -> (r: Option<
        Vec<ChannelEffect>,
    >)
        requires
            old(self).wf(),
            salt_entropy@.len() == 64,
            old(self).db.next_user_id < i64::MAX,
            cmd matches ChannelCommand::LoginAttempt { addr, .. } ==> !old(self).connected_has_addr(addr) && !old(self).txs_has(addr),
            cmd matches ChannelCommand::Write(p) ==> (p@ matches
                crate::packets::SpecClientboundPacket::Message(m) ==> m.sender_id > 0 && 0 < m.time
                <= i64::MAX && m.text.len() > 0) && (p@ matches
                crate::packets::SpecClientboundPacket::ImageMessage(m) ==> m.sender_id > 0 && 0
                < m.time <= i64::MAX),
        ensures
            final(self).wf(),
            r is None <==> cmd is Close,
            cmd is Close ==> *final(self) == *old(self),
            cmd matches ChannelCommand::Write(p) ==> (r matches Some(e) && {
                &&& e@.len() == old(self).connected_users@.len()
                &&& forall|i: int|
                    0 <= i < e@.len() ==> (#[trigger] e@[i] matches ChannelEffect::Send {
                        addr,
                        command: ConnectionCommand::Write(q),
                    } && addr == old(self).connected_users@[i].0 && q@ == p@)
                &&& final(self).connected_users@ == old(self).connected_users@
                &&& final(self).txs@ == old(self).txs@
                &&& final(self).db.accounts@ == old(self).db.accounts@
                &&& (p@ is Message || p@ is ImageMessage ==> final(self).db.messages@.len() == old(self).db.messages@.len() + 1)
                &&& (p@ matches crate::packets::SpecClientboundPacket::ImageMessage(m) ==> final(self).db.has_image(crate::store::spec_image_hash(m.image_bytes)))
                &&& (!(p@ is Message) && !(p@ is ImageMessage) ==> final(self).db == old(self).db)
            }),
            cmd matches ChannelCommand::EncryptionRequest { addr } ==> (r matches Some(e) && {
                &&& *final(self) == *old(self)
                &&& e@.len() == 2
                &&& (e@[0] matches ChannelEffect::Send {
                    addr: a,
                    command: ConnectionCommand::Write(
                        ClientboundPacket::EncryptionResponse(k, t),
                    ),
                } && a == addr && k@ == old(self).pub_key_der@ && t@.len() == 32)
                &&& (e@[1] matches ChannelEffect::ReplyToken { addr: a, token: t } && a == addr
                    && t@.len() == 32)
            }),
            cmd matches ChannelCommand::EncryptionConfirm {
                addr,
                enc_secret,
                enc_token,
                expected_token,
            } ==> (r matches Some(e) && *final(self) == *old(self) && {
                let dt = rsa_decrypt_of(old(self).priv_key_der@, enc_token@);
                let ds = rsa_decrypt_of(old(self).priv_key_der@, enc_secret@);
                if dt == Some(expected_token@) && (ds matches Some(sec) && sec.len() == 32) {
                    &&& e@.len() == 3
                    &&& (e@[0] matches ChannelEffect::ReplyConfirm { addr: a, secret } && a
                        == addr && (secret matches Some(sv) && sv@ == ds->0))
                    &&& (e@[1] matches ChannelEffect::Send {
                        addr: a,
                        command: ConnectionCommand::SetSecret(Some(sv)),
                    } && a == addr && sv@ == ds->0)
                    &&& (e@[2] matches ChannelEffect::Send {
                        addr: a,
                        command: ConnectionCommand::Write(ClientboundPacket::EncryptionAck),
                    } && a == addr)
                } else {
                    &&& e@.len() == 2
                    &&& (e@[0] matches ChannelEffect::Send {
                        addr: a,
                        command: ConnectionCommand::Close,
                    } && a == addr)
                    &&& (e@[1] matches ChannelEffect::ReplyConfirm { addr: a, secret } && a
                        == addr && secret is None)
                }
            }),
            cmd matches ChannelCommand::LoginAttempt { addr, username, password } ==> (r matches
                Some(e) && e@.len() == 1 && {
                let out = Self::spec_login_outcome(*old(self), username@, password@);
                let ok = out is Existing || out is Created;
                &&& (e@[0] matches ChannelEffect::ReplyLogin { addr: a, result } && a == addr && (
                match out {
                    LoginOutcome::InvalidUsername => result matches Err(m) && m@
                        == "Invalid username!"@,
                    LoginOutcome::Banned => result matches Err(m) && m@ == "User banned."@,
                    LoginOutcome::NotWhitelisted => result matches Err(m) && m@
                        == "User not on whitelist."@,
                    LoginOutcome::WrongPassword => result matches Err(m) && m@
                        == "Incorrect password."@,
                    LoginOutcome::AlreadyLoggedIn => result matches Err(m) && m@
                        == "Already logged in."@,
                    LoginOutcome::CreationDisabled => result matches Err(m) && m@
                        == "Account creation disabled."@,
                    LoginOutcome::Existing(id) => result matches Ok((i, u)) && i == id && u@
                        == username@,
                    LoginOutcome::Created(id) => result matches Ok((i, u)) && i == id && u@
                        == username@,
                }))
                &&& (ok ==> final(self).connected_users@.len() == old(self).connected_users@.len() + 1 && final(self).connected_users@.last().0 == addr
                    && final(self).connected_users@.last().1@ == username@ && final(self).txs@
                    == old(self).txs@.push(addr))
                &&& (!ok ==> final(self).connected_users@ == old(self).connected_users@ && final(self).txs@ == old(self).txs@)
                &&& (out is Created ==> final(self).db.accounts@.len() == old(self).db.accounts@.len() + 1 && final(self).db.accounts@.last().username@ == username@
                    && final(self).db.accounts@.last().password@ == spec_password_hash(
                    password@,
                    salt_entropy@,
                ) && final(self).db.accounts@.last().salt@ == salt_entropy@)
                &&& (!(out is Created) ==> final(self).db == old(self).db)
            }),
            cmd matches ChannelCommand::UserJoined(u) ==> (r matches Some(e) && *final(self)
                == *old(self) && e@.len() == old(self).txs@.len() && (forall|i: int|
                0 <= i < e@.len() ==> (#[trigger] e@[i] matches ChannelEffect::Send {
                    addr,
                    command: ConnectionCommand::Write(ClientboundPacket::UserJoined(n)),
                } && addr == old(self).txs@[i] && n@ == u@))),
            cmd matches ChannelCommand::UserLeft(addr) ==> (r matches Some(e) && {
                &&& final(self).db == old(self).db
                &&& !final(self).txs_has(addr)
                &&& !final(self).connected_has_addr(addr)
                &&& (forall|a: u64|
                    a != addr ==> (final(self).txs_has(a) == old(self).txs_has(a) && final(self).connected_has_addr(a) == old(self).connected_has_addr(a)))
                &&& (old(self).connected_has_addr(addr) ==> !final(self).connected_has_user(
                    spec_name_at(*old(self), addr),
                ))
                &&& (old(self).connected_has_addr(addr) ==> e@.len() == final(self).txs@.len()
                    && (forall|i: int|
                    0 <= i < e@.len() ==> (#[trigger] e@[i] matches ChannelEffect::Send {
                        addr: a,
                        command: ConnectionCommand::Write(ClientboundPacket::UserLeft(n)),
                    } && a == final(self).txs@[i] && n@ == spec_name_at(*old(self), addr))))
                &&& (!old(self).connected_has_addr(addr) ==> e@.len() == 0)
            }),
            cmd matches ChannelCommand::UsersQuery(addr) ==> (r matches Some(e) && *final(self)
                == *old(self) && e@.len() == 1 && (e@[0] matches ChannelEffect::Send {
                addr: a,
                command: ConnectionCommand::Write(ClientboundPacket::UsersOnline(names)),
            } && a == addr && names.deep_view() == old(self).spec_usernames())),
            cmd is UsersQueryTui ==> (r matches Some(e) && *final(self) == *old(self) && e@.len()
                == 1 && (e@[0] matches ChannelEffect::ReplyUsersTui { users } && users.deep_view()
                == old(self).spec_usernames())),
            cmd matches ChannelCommand::FetchMessages { addr, offset, count } ==> (r matches Some(
                e,
            ) && *final(self) == *old(self) && e@.len() == 1 && (e@[0] matches
                ChannelEffect::ReplyMessages { addr: a, messages } && a == addr && {
                let total = old(self).db.messages@.len() as int;
                let off = if offset < 0 { 0int } else { offset as int };
                let cnt = if count < 0 { 0int } else if count > 64 { 64int } else { count as int };
                let avail = if off >= total { 0int } else { total - off };
                let take = if cnt <= avail { cnt } else { avail };
                messages@.len() == take
            })),
            cmd matches ChannelCommand::CheckPermissions { addr, username } ==> (r matches Some(e)
                && *final(self) == *old(self) && e@.len() == 1 && (e@[0] matches
                ChannelEffect::ReplyPerms { addr: a, perms } && a == addr && (if old(self).db.has_user(username@) {
                let row = spec_user_row(old(self).db, username@);
                &&& perms.operator == old(self).config.spec_is_operator(username@)
                &&& perms.banned == row.banned
                &&& perms.whitelisted == row.whitelisted
            } else {
                !perms.operator && !perms.banned && !perms.whitelisted
            }))),
            cmd matches ChannelCommand::KickUser(u) ==> (r matches Some(e) && *final(self)
                == *old(self) && {
                &&& (old(self).connected_has_user(u@) ==> e@.len() == 1 && (
                e@[0] matches ChannelEffect::Send { addr, command: ConnectionCommand::Close }
                    && (exists|i: int|
                    0 <= i < old(self).connected_users@.len() && (#[trigger] old(self).connected_users@[i]).0 == addr && old(self).connected_users@[i].1@ == u@)))
                &&& (!old(self).connected_has_user(u@) ==> e@.len() == 0)
            }),
            cmd matches ChannelCommand::BanUser(u, sw) ==> (r matches Some(e) && {
                &&& final(self).connected_users@ == old(self).connected_users@
                &&& final(self).txs@ == old(self).txs@
                &&& final(self).config == old(self).config
                &&& final(self).db.messages@ == old(self).db.messages@
                &&& final(self).db.accounts@.len() == old(self).db.accounts@.len()
                &&& (forall|i: int|
                    0 <= i < final(self).db.accounts@.len() ==> {
                        let o = old(self).db.accounts@[i];
                        let m = #[trigger] final(self).db.accounts@[i];
                        if o.username@ == u@ {
                            m == AccountRow { banned: sw, ..o }
                        } else {
                            m == o
                        }
                    })
                &&& (sw && old(self).connected_has_user(u@) ==> e@.len() == 1 && (
                e@[0] matches ChannelEffect::Send { addr, command: ConnectionCommand::Close }))
                &&& (!(sw && old(self).connected_has_user(u@)) ==> e@.len() == 0)
            }),
            cmd matches ChannelCommand::WhitelistUser(u, sw) ==> (r matches Some(e) && e@.len()
                == 0 && {
                &&& final(self).connected_users@ == old(self).connected_users@
                &&& final(self).txs@ == old(self).txs@
                &&& final(self).config == old(self).config
                &&& final(self).db.messages@ == old(self).db.messages@
                &&& final(self).db.accounts@.len() == old(self).db.accounts@.len()
                &&& (forall|i: int|
                    0 <= i < final(self).db.accounts@.len() ==> {
                        let o = old(self).db.accounts@[i];
                        let m = #[trigger] final(self).db.accounts@[i];
                        if o.username@ == u@ {
                            m == AccountRow { whitelisted: sw, ..o }
                        } else {
                            m == o
                        }
                    })
            }),
            cmd matches ChannelCommand::SetWhitelist(on) ==> (r matches Some(e) && e@.len() == 1
                && e@[0] is SaveConfig && final(self).config.whitelist_on == on && final(self).config.allow_new_accounts == old(self).config.allow_new_accounts && final(self).config.operators@ == old(self).config.operators@ && final(self).db == old(self).db
                && final(self).connected_users@ == old(self).connected_users@ && final(self).txs@
                == old(self).txs@),
            cmd matches ChannelCommand::SetAllowNewAccounts(on) ==> (r matches Some(e) && e@.len()
                == 1 && e@[0] is SaveConfig && final(self).config.allow_new_accounts == on
                && final(self).config.whitelist_on == old(self).config.whitelist_on && final(self).config.operators@ == old(self).config.operators@ && final(self).db == old(self).db
                && final(self).connected_users@ == old(self).connected_users@ && final(self).txs@
                == old(self).txs@),
    {
        match cmd {
            ChannelCommand::Close => None,
            ChannelCommand::Write(p) => Some(self.write_packet(&p)),
            ChannelCommand::EncryptionRequest { addr } => Some(self.encryption_request(addr)),
            ChannelCommand::EncryptionConfirm { addr, enc_secret, enc_token, expected_token } => {
                Some(self.encryption_confirm(addr, &enc_secret, &enc_token, &expected_token))
            },
            ChannelCommand::LoginAttempt { addr, username, password } => {
                Some(self.login_attempt(addr, username.as_str(), password.as_str(), salt_entropy))
            },
            ChannelCommand::UserJoined(username) => Some(self.user_joined(username.as_str())),
            ChannelCommand::UserLeft(addr) => Some(self.user_left(addr)),
            ChannelCommand::UsersQuery(addr) => Some(self.users_query(addr)),
            ChannelCommand::UsersQueryTui => Some(self.users_query_tui()),
            ChannelCommand::FetchMessages { addr, offset, count } => {
                Some(self.fetch_messages(addr, offset, count))
            },
            ChannelCommand::CheckPermissions { addr, username } => {
                Some(self.check_permissions(addr, username.as_str()))
            },
            ChannelCommand::KickUser(username) => Some(self.kick_user(username.as_str())),
            ChannelCommand::BanUser(username, switch) => {
                Some(self.ban_user(username.as_str(), switch))
            },
            ChannelCommand::WhitelistUser(username, switch) => {
                Some(self.whitelist_user(username.as_str(), switch))
            },
            ChannelCommand::SetWhitelist(on) => Some(self.set_whitelist(on)),
            ChannelCommand::SetAllowNewAccounts(on) => Some(self.set_allow_new_accounts(on)),
        }
    }
}

/// The connection-table clauses of the broker invariant carry over when the
/// tables are unchanged and every account name that existed still exists.
proof fn lemma_conn_wf_frame(a: AccordChannel, b: AccordChannel)
    requires
        a.wf(),
        b.connected_users@ == a.connected_users@,
        b.txs@ == a.txs@,
        b.db.wf(),
        forall|u: Seq<char>| a.db.has_user(u) ==> #[trigger] b.db.has_user(u),
    ensures
        b.wf(),
{
    assert forall|i: int| 0 <= i < b.connected_users@.len() implies b.txs_has(
        (#[trigger] b.connected_users@[i]).0,
    ) by {
        assert(b.connected_users@[i] == a.connected_users@[i]);
        assert(a.txs_has(a.connected_users@[i].0));
        let w = choose|w: int| 0 <= w < a.txs@.len() && a.txs@[w] == a.connected_users@[i].0;
        assert(b.txs@[w] == a.connected_users@[i].0);
    }
    assert forall|i: int, j: int| 0 <= i < j < b.connected_users@.len() implies
        b.connected_users@[i].1@ != b.connected_users@[j].1@ by {
        assert(b.connected_users@[i] == a.connected_users@[i]);
        assert(b.connected_users@[j] == a.connected_users@[j]);
    }
    assert forall|i: int, j: int| 0 <= i < j < b.connected_users@.len() implies
        b.connected_users@[i].0 != b.connected_users@[j].0 by {
        assert(b.connected_users@[i] == a.connected_users@[i]);
        assert(b.connected_users@[j] == a.connected_users@[j]);
    }
    assert forall|i: int, j: int| 0 <= i < j < b.txs@.len() implies b.txs@[i] != b.txs@[j] by {
        assert(b.txs@[i] == a.txs@[i] && b.txs@[j] == a.txs@[j]);
    }
    assert forall|i: int| 0 <= i < b.connected_users@.len() implies b.db.has_user(
        (#[trigger] b.connected_users@[i]).1@,
    ) by {
        assert(b.connected_users@[i] == a.connected_users@[i]);
        assert(a.db.has_user(a.connected_users@[i].1@));
    }
}

/// Removes the entry belonging to `addr`, if any, returning its username
/// and its former index. Entry values must be pairwise distinct in the
/// first component, so at most one entry can match.
fn remove_addr_entry(v: &mut Vec<(u64, String)>, addr: u64) -> (r: Option<(String, usize)>)
    requires
        forall|x: int, y: int| 0 <= x < y < old(v)@.len() ==> old(v)@[x].0 != old(v)@[y].0,
    ensures
        r matches Some((name, i)) ==> i < old(v)@.len() && old(v)@[i as int].0 == addr && name@
            == old(v)@[i as int].1@ && final(v)@ == old(v)@.remove(i as int),
        r is None ==> final(v)@ == old(v)@ && (forall|t: int|
            0 <= t < old(v)@.len() ==> (#[trigger] old(v)@[t]).0 != addr),
{
    let n = v.len();
    let mut i: usize = 0;
    while i < n
        invariant
            0 <= i <= n == v@.len(),
            v@ == old(v)@,
            forall|t: int| 0 <= t < i ==> (#[trigger] v@[t]).0 != addr,
        decreases n - i,
    {
        if v[i].0 == addr {
            let (_, u) = v.remove(i);
            return Some((u, i));
        }
        i += 1;
    }
    None
}

/// Removes the entry equal to `addr`, if any, returning its former index.
/// Entries must be pairwise distinct, so at most one can match.
fn remove_addr_value(v: &mut Vec<u64>, addr: u64) -> (r: Option<usize>)
    requires
        forall|x: int, y: int| 0 <= x < y < old(v)@.len() ==> old(v)@[x] != old(v)@[y],
    ensures
        r matches Some(i) ==> i < old(v)@.len() && old(v)@[i as int] == addr && final(v)@ == old(
            v,
        )@.remove(i as int),
        r is None ==> final(v)@ == old(v)@ && (forall|t: int|
            0 <= t < old(v)@.len() ==> #[trigger] old(v)@[t] != addr),
{
    let n = v.len();
    let mut i: usize = 0;
    while i < n
        invariant
            0 <= i <= n == v@.len(),
            v@ == old(v)@,
            forall|t: int| 0 <= t < i ==> #[trigger] v@[t] != addr,
        decreases n - i,
    {
        if v[i] == addr {
            v.remove(i);
            return Some(i);
        }
        i += 1;
    }
    None
}

} // verus!
