//! The typed packets of the wire protocol and their binary codec: every
//! packet is a one-entry map from the variant name to its payload, in
//! MessagePack encoding.

use crate::msgpack::{
    bin_encodable, dec_arr, dec_bin, dec_i64, dec_str, dec_u64, enc_arr, enc_bin, enc_i64,
    enc_str, enc_u64, lemma_dec_enc_arr,
    lemma_dec_enc_bin, lemma_dec_enc_i64, lemma_dec_enc_str, lemma_dec_enc_u64, spec_dec_arr,
    spec_dec_bin, spec_dec_i64, spec_dec_str, spec_dec_u64, spec_enc_arr, spec_enc_bin,
    spec_enc_i64, spec_enc_str, spec_enc_u64, str_encodable,
};
use vstd::prelude::*;
use vstd::utf8::{encode_utf8, is_ascii_chars, is_ascii_chars_encode_utf8};

verus! {

/// A text chat message as the server relays and stores it.
#[derive(Debug, PartialEq, Eq, Clone)]
pub struct Message {
    pub sender_id: i64,
    pub sender: String,
    pub text: String,
    pub time: u64,
}

/// An image chat message; the bytes are opaque to the server.
#[derive(Debug, PartialEq, Eq, Clone)]
pub struct ImageMessage {
    pub sender_id: i64,
    pub sender: String,
    pub image_bytes: Vec<u8>,
    pub time: u64,
}

/// Packets a client sends to the server.
#[derive(Debug, PartialEq, Eq, Clone)]
pub enum ServerboundPacket {
    Ping,
    EncryptionRequest,
    /// Encrypted session secret and encrypted challenge token.
    EncryptionConfirm(Vec<u8>, Vec<u8>),
    Login { username: String, password: String },
    Message(String),
    ImageMessage(Vec<u8>),
    Command(String),
    FetchMessages(i64, i64),
}

/// Packets the server sends to a client.
#[derive(Debug, PartialEq, Eq, Clone)]
pub enum ClientboundPacket {
    Pong,
    /// The server's public key in DER form, and the challenge token.
    EncryptionResponse(Vec<u8>, Vec<u8>),
    EncryptionAck,
    LoginAck,
    LoginFailed(String),
    UserJoined(String),
    UserLeft(String),
    UsersOnline(Vec<String>),
    Message(Message),
    ImageMessage(ImageMessage),
}

// ---------------------------------------------------------------------------
// Mathematical views
// ---------------------------------------------------------------------------
pub struct SpecMessage {
    pub sender_id: i64,
    pub sender: Seq<char>,
    pub text: Seq<char>,
    pub time: u64,
}

pub struct SpecImageMessage {
    pub sender_id: i64,
    pub sender: Seq<char>,
    pub image_bytes: Seq<u8>,
    pub time: u64,
}

pub enum SpecServerboundPacket {
    Ping,
    EncryptionRequest,
    EncryptionConfirm(Seq<u8>, Seq<u8>),
    Login { username: Seq<char>, password: Seq<char> },
    Message(Seq<char>),
    ImageMessage(Seq<u8>),
    Command(Seq<char>),
    FetchMessages(i64, i64),
}

pub enum SpecClientboundPacket {
    Pong,
    EncryptionResponse(Seq<u8>, Seq<u8>),
    EncryptionAck,
    LoginAck,
    LoginFailed(Seq<char>),
    UserJoined(Seq<char>),
    UserLeft(Seq<char>),
    UsersOnline(Seq<Seq<char>>),
    Message(SpecMessage),
    ImageMessage(SpecImageMessage),
}

impl View for Message {
    type V = SpecMessage;

    open spec fn view(&self) -> SpecMessage {
        SpecMessage {
            sender_id: self.sender_id,
            sender: self.sender@,
            text: self.text@,
            time: self.time,
        }
    }
}

impl View for ImageMessage {
    type V = SpecImageMessage;

    open spec fn view(&self) -> SpecImageMessage {
        SpecImageMessage {
            sender_id: self.sender_id,
            sender: self.sender@,
            image_bytes: self.image_bytes@,
            time: self.time,
        }
    }
}

impl View for ServerboundPacket {
    type V = SpecServerboundPacket;

    open spec fn view(&self) -> SpecServerboundPacket {
        match self {
            ServerboundPacket::Ping => SpecServerboundPacket::Ping,
            ServerboundPacket::EncryptionRequest => SpecServerboundPacket::EncryptionRequest,
            ServerboundPacket::EncryptionConfirm(a, b) => SpecServerboundPacket::EncryptionConfirm(
                a@,
                b@,
            ),
            ServerboundPacket::Login { username, password } => SpecServerboundPacket::Login {
                username: username@,
                password: password@,
            },
            ServerboundPacket::Message(m) => SpecServerboundPacket::Message(m@),
            ServerboundPacket::ImageMessage(b) => SpecServerboundPacket::ImageMessage(b@),
            ServerboundPacket::Command(c) => SpecServerboundPacket::Command(c@),
            ServerboundPacket::FetchMessages(o, n) => SpecServerboundPacket::FetchMessages(*o, *n),
        }
    }
}

impl View for ClientboundPacket {
    type V = SpecClientboundPacket;

    open spec fn view(&self) -> SpecClientboundPacket {
        match self {
            ClientboundPacket::Pong => SpecClientboundPacket::Pong,
            ClientboundPacket::EncryptionResponse(a, b) => SpecClientboundPacket::EncryptionResponse(
                a@,
                b@,
            ),
            ClientboundPacket::EncryptionAck => SpecClientboundPacket::EncryptionAck,
            ClientboundPacket::LoginAck => SpecClientboundPacket::LoginAck,
            ClientboundPacket::LoginFailed(m) => SpecClientboundPacket::LoginFailed(m@),
            ClientboundPacket::UserJoined(u) => SpecClientboundPacket::UserJoined(u@),
            ClientboundPacket::UserLeft(u) => SpecClientboundPacket::UserLeft(u@),
            ClientboundPacket::UsersOnline(v) => SpecClientboundPacket::UsersOnline(v.deep_view()),
            ClientboundPacket::Message(m) => SpecClientboundPacket::Message(m@),
            ClientboundPacket::ImageMessage(m) => SpecClientboundPacket::ImageMessage(m@),
        }
    }
}

// ---------------------------------------------------------------------------
// Wire-format bounds
// ---------------------------------------------------------------------------
pub open spec fn spec_sb_wf(p: SpecServerboundPacket) -> bool {
    match p {
        SpecServerboundPacket::EncryptionConfirm(a, b) => bin_encodable(a) && bin_encodable(b),
        SpecServerboundPacket::Login { username, password } => str_encodable(username)
            && str_encodable(password),
        SpecServerboundPacket::Message(m) => str_encodable(m),
        SpecServerboundPacket::ImageMessage(b) => bin_encodable(b),
        SpecServerboundPacket::Command(c) => str_encodable(c),
        _ => true,
    }
}

pub open spec fn spec_cb_wf(p: SpecClientboundPacket) -> bool {
    match p {
        SpecClientboundPacket::EncryptionResponse(a, b) => bin_encodable(a) && bin_encodable(b),
        SpecClientboundPacket::LoginFailed(m) => str_encodable(m),
        SpecClientboundPacket::UserJoined(u) => str_encodable(u),
        SpecClientboundPacket::UserLeft(u) => str_encodable(u),
        SpecClientboundPacket::UsersOnline(v) => v.len() < 0x100000000 && (forall|i: int|
            0 <= i < v.len() ==> str_encodable(#[trigger] v[i])),
        SpecClientboundPacket::Message(m) => str_encodable(m.sender) && str_encodable(m.text),
        SpecClientboundPacket::ImageMessage(m) => str_encodable(m.sender) && bin_encodable(
            m.image_bytes,
        ),
        _ => true,
    }
}

impl ServerboundPacket {
    pub open spec fn wf(&self) -> bool {
        spec_sb_wf(self@)
    }
}

impl ClientboundPacket {
    pub open spec fn wf(&self) -> bool {
        spec_cb_wf(self@)
    }
}

// ---------------------------------------------------------------------------
// Spec-level encoding
// ---------------------------------------------------------------------------
pub open spec fn spec_enc_sb(p: SpecServerboundPacket) -> Seq<u8> {
    match p {
        SpecServerboundPacket::Ping => seq![0x81u8] + spec_enc_str("Ping"@) + seq![0xc0u8],
        SpecServerboundPacket::EncryptionRequest => seq![0x81u8] + spec_enc_str(
            "EncryptionRequest"@,
        ) + seq![0xc0u8],
        SpecServerboundPacket::EncryptionConfirm(a, b) => seq![0x81u8] + spec_enc_str(
            "EncryptionConfirm"@,
        ) + seq![0x92u8] + spec_enc_bin(a) + spec_enc_bin(b),
        SpecServerboundPacket::Login { username, password } => seq![0x81u8] + spec_enc_str(
            "Login"@,
        ) + seq![0x92u8] + spec_enc_str(username) + spec_enc_str(password),
        SpecServerboundPacket::Message(m) => seq![0x81u8] + spec_enc_str("Message"@)
            + spec_enc_str(m),
        SpecServerboundPacket::ImageMessage(b) => seq![0x81u8] + spec_enc_str("ImageMessage"@)
            + spec_enc_bin(b),
        SpecServerboundPacket::Command(c) => seq![0x81u8] + spec_enc_str("Command"@)
            + spec_enc_str(c),
        SpecServerboundPacket::FetchMessages(o, n) => seq![0x81u8] + spec_enc_str(
            "FetchMessages"@,
        ) + seq![0x92u8] + spec_enc_i64(o) + spec_enc_i64(n),
    }
}

/// The encodings of a list of strings, back to back.
pub open spec fn spec_enc_strs(v: Seq<Seq<char>>) -> Seq<u8>
    decreases v.len(),
{
    if v.len() == 0 {
        Seq::empty()
    } else {
        spec_enc_str(v[0]) + spec_enc_strs(v.drop_first())
    }
}

pub open spec fn spec_enc_cb(p: SpecClientboundPacket) -> Seq<u8> {
    match p {
        SpecClientboundPacket::Pong => seq![0x81u8] + spec_enc_str("Pong"@) + seq![0xc0u8],
        SpecClientboundPacket::EncryptionResponse(a, b) => seq![0x81u8] + spec_enc_str(
            "EncryptionResponse"@,
        ) + seq![0x92u8] + spec_enc_bin(a) + spec_enc_bin(b),
        SpecClientboundPacket::EncryptionAck => seq![0x81u8] + spec_enc_str("EncryptionAck"@)
            + seq![0xc0u8],
        SpecClientboundPacket::LoginAck => seq![0x81u8] + spec_enc_str("LoginAck"@) + seq![0xc0u8],
        SpecClientboundPacket::LoginFailed(m) => seq![0x81u8] + spec_enc_str("LoginFailed"@)
            + spec_enc_str(m),
        SpecClientboundPacket::UserJoined(u) => seq![0x81u8] + spec_enc_str("UserJoined"@)
            + spec_enc_str(u),
        SpecClientboundPacket::UserLeft(u) => seq![0x81u8] + spec_enc_str("UserLeft"@)
            + spec_enc_str(u),
        SpecClientboundPacket::UsersOnline(v) => seq![0x81u8] + spec_enc_str("UsersOnline"@)
            + spec_enc_arr(v.len() as int) + spec_enc_strs(v),
        SpecClientboundPacket::Message(m) => seq![0x81u8] + spec_enc_str("Message"@) + seq![0x94u8]
            + spec_enc_i64(m.sender_id) + spec_enc_str(m.sender) + spec_enc_str(m.text)
            + spec_enc_u64(m.time),
        SpecClientboundPacket::ImageMessage(m) => seq![0x81u8] + spec_enc_str("ImageMessage"@)
            + seq![0x94u8] + spec_enc_i64(m.sender_id) + spec_enc_str(m.sender) + spec_enc_bin(
            m.image_bytes,
        ) + spec_enc_u64(m.time),
    }
}

// ---------------------------------------------------------------------------
// Executable encoding
// ---------------------------------------------------------------------------
/// All variant names are short ASCII strings, so they fit the wire format.
proof fn name_facts(s: Seq<char>)
    requires
        is_ascii_chars(s),
        s.len() < 0x100000000,
    ensures
        str_encodable(s),
        encode_utf8(s).len() == s.len(),
{
    is_ascii_chars_encode_utf8(s);
}

/// Serializes a serverbound packet.
pub fn encode_serverbound(p: &ServerboundPacket) -> (r: Vec<u8>)
    requires
        p.wf(),
    ensures
        r@ == spec_enc_sb(p@),
{
    let mut out: Vec<u8> = Vec::new();
    out.push(0x81);
    match p {
        ServerboundPacket::Ping => {
            proof {
                reveal_strlit("Ping");
                name_facts("Ping"@);
            }
            enc_str(&mut out, "Ping");
            out.push(0xc0);
        },
        ServerboundPacket::EncryptionRequest => {
            proof {
                reveal_strlit("EncryptionRequest");
                name_facts("EncryptionRequest"@);
            }
            enc_str(&mut out, "EncryptionRequest");
            out.push(0xc0);
        },
        ServerboundPacket::EncryptionConfirm(a, b) => {
            proof {
                reveal_strlit("EncryptionConfirm");
                name_facts("EncryptionConfirm"@);
            }
            enc_str(&mut out, "EncryptionConfirm");
            out.push(0x92);
            enc_bin(&mut out, a);
            enc_bin(&mut out, b);
        },
        ServerboundPacket::Login { username, password } => {
            proof {
                reveal_strlit("Login");
                name_facts("Login"@);
            }
            enc_str(&mut out, "Login");
            out.push(0x92);
            enc_str(&mut out, username.as_str());
            enc_str(&mut out, password.as_str());
        },
        ServerboundPacket::Message(m) => {
            proof {
                reveal_strlit("Message");
                name_facts("Message"@);
            }
            enc_str(&mut out, "Message");
            enc_str(&mut out, m.as_str());
        },
        ServerboundPacket::ImageMessage(b) => {
            proof {
                reveal_strlit("ImageMessage");
                name_facts("ImageMessage"@);
            }
            enc_str(&mut out, "ImageMessage");
            enc_bin(&mut out, b);
        },
        ServerboundPacket::Command(c) => {
            proof {
                reveal_strlit("Command");
                name_facts("Command"@);
            }
            enc_str(&mut out, "Command");
            enc_str(&mut out, c.as_str());
        },
        ServerboundPacket::FetchMessages(o, n) => {
            proof {
                reveal_strlit("FetchMessages");
                name_facts("FetchMessages"@);
            }
            enc_str(&mut out, "FetchMessages");
            out.push(0x92);
            enc_i64(&mut out, *o);
            enc_i64(&mut out, *n);
        },
    }
    assert(out@ =~= spec_enc_sb(p@));
    out
}

/// Serializes a clientbound packet.
pub fn encode_clientbound(p: &ClientboundPacket) -> (r: Vec<u8>)
    requires
        p.wf(),
    ensures
        r@ == spec_enc_cb(p@),
{
    let mut out: Vec<u8> = Vec::new();
    out.push(0x81);
    match p {
        ClientboundPacket::Pong => {
            proof {
                reveal_strlit("Pong");
                name_facts("Pong"@);
            }
            enc_str(&mut out, "Pong");
            out.push(0xc0);
        },
        ClientboundPacket::EncryptionResponse(a, b) => {
            proof {
                reveal_strlit("EncryptionResponse");
                name_facts("EncryptionResponse"@);
            }
            enc_str(&mut out, "EncryptionResponse");
            out.push(0x92);
            enc_bin(&mut out, a);
            enc_bin(&mut out, b);
        },
        ClientboundPacket::EncryptionAck => {
            proof {
                reveal_strlit("EncryptionAck");
                name_facts("EncryptionAck"@);
            }
            enc_str(&mut out, "EncryptionAck");
            out.push(0xc0);
        },
        ClientboundPacket::LoginAck => {
            proof {
                reveal_strlit("LoginAck");
                name_facts("LoginAck"@);
            }
            enc_str(&mut out, "LoginAck");
            out.push(0xc0);
        },
        ClientboundPacket::LoginFailed(m) => {
            proof {
                reveal_strlit("LoginFailed");
                name_facts("LoginFailed"@);
            }
            enc_str(&mut out, "LoginFailed");
            enc_str(&mut out, m.as_str());
        },
        ClientboundPacket::UserJoined(u) => {
            proof {
                reveal_strlit("UserJoined");
                name_facts("UserJoined"@);
            }
            enc_str(&mut out, "UserJoined");
            enc_str(&mut out, u.as_str());
        },
        ClientboundPacket::UserLeft(u) => {
            proof {
                reveal_strlit("UserLeft");
                name_facts("UserLeft"@);
            }
            enc_str(&mut out, "UserLeft");
            enc_str(&mut out, u.as_str());
        },
        ClientboundPacket::UsersOnline(v) => {
            proof {
                reveal_strlit("UsersOnline");
                name_facts("UsersOnline"@);
            }
            enc_str(&mut out, "UsersOnline");
            enc_arr(&mut out, v.len());
            let ghost names = v.deep_view();
            let mut i: usize = 0;
            assert(out@ =~= seq![0x81u8] + spec_enc_str("UsersOnline"@) + spec_enc_arr(
                names.len() as int,
            ) + spec_enc_strs(names.take(0)));
            while i < v.len()
                invariant
                    0 <= i <= v@.len(),
                    names == v.deep_view(),
                    forall|k: int| 0 <= k < v@.len() ==> str_encodable(#[trigger] names[k]),
                    out@ == seq![0x81u8] + spec_enc_str("UsersOnline"@) + spec_enc_arr(
                        names.len() as int,
                    ) + spec_enc_strs(names.take(i as int)),
                decreases v@.len() - i,
            {
                assert(names[i as int] == v@[i as int]@);
                enc_str(&mut out, v[i].as_str());
                proof {
                    lemma_enc_strs_snoc(names, i as int);
                }
                i += 1;
            }
            assert(names.take(names.len() as int) =~= names);
        },
        ClientboundPacket::Message(m) => {
            proof {
                reveal_strlit("Message");
                name_facts("Message"@);
            }
            enc_str(&mut out, "Message");
            out.push(0x94);
            enc_i64(&mut out, m.sender_id);
            enc_str(&mut out, m.sender.as_str());
            enc_str(&mut out, m.text.as_str());
            enc_u64(&mut out, m.time);
        },
        ClientboundPacket::ImageMessage(m) => {
            proof {
                reveal_strlit("ImageMessage");
                name_facts("ImageMessage"@);
            }
            enc_str(&mut out, "ImageMessage");
            out.push(0x94);
            enc_i64(&mut out, m.sender_id);
            enc_str(&mut out, m.sender.as_str());
            enc_bin(&mut out, &m.image_bytes);
            enc_u64(&mut out, m.time);
        },
    }
    assert(out@ =~= spec_enc_cb(p@));
    out
}

/// Extending the encoded prefix of a string list by one element.
proof fn lemma_enc_strs_snoc(v: Seq<Seq<char>>, i: int)
    requires
        0 <= i < v.len(),
    ensures
        spec_enc_strs(v.take(i + 1)) == spec_enc_strs(v.take(i)) + spec_enc_str(v[i]),
    decreases i,
{
    if i == 0 {
        assert(v.take(1).drop_first() =~= v.take(0));
        assert(spec_enc_strs(v.take(0)) =~= Seq::<u8>::empty());
        assert(spec_enc_strs(v.take(1)) =~= spec_enc_str(v[0]) + spec_enc_strs(v.take(0)));
        assert(spec_enc_strs(v.take(1)) =~= spec_enc_strs(v.take(0)) + spec_enc_str(v[0]));
    } else {
        lemma_enc_strs_snoc(v.drop_first(), i - 1);
        assert(v.take(i + 1).drop_first() =~= v.drop_first().take(i));
        assert(v.take(i).drop_first() =~= v.drop_first().take(i - 1));
        assert(v.take(i + 1)[0] == v[0]);
        assert(v.take(i)[0] == v[0]);
        assert(v.drop_first()[i - 1] == v[i]);
        assert(spec_enc_strs(v.take(i + 1)) == spec_enc_str(v[0]) + spec_enc_strs(
            v.drop_first().take(i),
        ));
        assert(spec_enc_strs(v.take(i)) == spec_enc_str(v[0]) + spec_enc_strs(
            v.drop_first().take(i - 1),
        ));
        assert((spec_enc_str(v[0]) + spec_enc_strs(v.drop_first().take(i - 1)) + spec_enc_str(
            v[i],
        )) =~= spec_enc_str(v[0]) + (spec_enc_strs(v.drop_first().take(i - 1)) + spec_enc_str(
            v[i],
        )));
    }
}


// ---------------------------------------------------------------------------
// Spec-level decoding
// ---------------------------------------------------------------------------
pub open spec fn spec_dec_sb(b: Seq<u8>) -> Option<(SpecServerboundPacket, int)> {
    if b.len() < 1 || b[0] != 0x81 {
        None
    } else {
        match spec_dec_str(b.skip(1)) {
            Option::None => None,
            Option::Some((name, hn)) => {
                let base = 1 + hn;
                let rest = b.skip(base);
                if name == "Ping"@ {
                    if rest.len() >= 1 && rest[0] == 0xc0 {
                        Some((SpecServerboundPacket::Ping, base + 1))
                    } else {
                        None
                    }
                } else if name == "EncryptionRequest"@ {
                    if rest.len() >= 1 && rest[0] == 0xc0 {
                        Some((SpecServerboundPacket::EncryptionRequest, base + 1))
                    } else {
                        None
                    }
                } else if name == "EncryptionConfirm"@ {
                    if rest.len() >= 1 && rest[0] == 0x92 {
                        match spec_dec_bin(rest.skip(1)) {
                            Option::None => None,
                            Option::Some((a, ha)) => match spec_dec_bin(rest.skip(1 + ha)) {
                                Option::None => None,
                                Option::Some((b2, hb)) => Some(
                                    (
                                        SpecServerboundPacket::EncryptionConfirm(a, b2),
                                        base + 1 + ha + hb,
                                    ),
                                ),
                            },
                        }
                    } else {
                        None
                    }
                } else if name == "Login"@ {
                    if rest.len() >= 1 && rest[0] == 0x92 {
                        match spec_dec_str(rest.skip(1)) {
                            Option::None => None,
                            Option::Some((u, hu)) => match spec_dec_str(rest.skip(1 + hu)) {
                                Option::None => None,
                                Option::Some((w, hw)) => Some(
                                    (
                                        SpecServerboundPacket::Login { username: u, password: w },
                                        base + 1 + hu + hw,
                                    ),
                                ),
                            },
                        }
                    } else {
                        None
                    }
                } else if name == "Message"@ {
                    match spec_dec_str(rest) {
                        Option::None => None,
                        Option::Some((m, hm)) => Some(
                            (SpecServerboundPacket::Message(m), base + hm),
                        ),
                    }
                } else if name == "ImageMessage"@ {
                    match spec_dec_bin(rest) {
                        Option::None => None,
                        Option::Some((m, hm)) => Some(
                            (SpecServerboundPacket::ImageMessage(m), base + hm),
                        ),
                    }
                } else if name == "Command"@ {
                    match spec_dec_str(rest) {
                        Option::None => None,
                        Option::Some((m, hm)) => Some(
                            (SpecServerboundPacket::Command(m), base + hm),
                        ),
                    }
                } else if name == "FetchMessages"@ {
                    if rest.len() >= 1 && rest[0] == 0x92 {
                        match spec_dec_i64(rest.skip(1)) {
                            Option::None => None,
                            Option::Some((o, ho)) => match spec_dec_i64(rest.skip(1 + ho)) {
                                Option::None => None,
                                Option::Some((n, hn2)) => Some(
                                    (
                                        SpecServerboundPacket::FetchMessages(o, n),
                                        base + 1 + ho + hn2,
                                    ),
                                ),
                            },
                        }
                    } else {
                        None
                    }
                } else {
                    None
                }
            },
        }
    }
}

/// Decodes `n` strings, back to back, at the head of `b`.
pub open spec fn spec_dec_strs(b: Seq<u8>, n: int) -> Option<(Seq<Seq<char>>, int)>
    decreases n,
{
    if n <= 0 {
        Some((Seq::empty(), 0))
    } else {
        match spec_dec_str(b) {
            Option::None => None,
            Option::Some((s, h)) => match spec_dec_strs(b.skip(h), n - 1) {
                Option::None => None,
                Option::Some((v, h2)) => Some((seq![s] + v, h + h2)),
            },
        }
    }
}

/// Decodes the four fields of a relayed text message at the head of `b`.
pub open spec fn spec_dec_msg_fields(b: Seq<u8>) -> Option<(SpecMessage, int)> {
    if b.len() >= 1 && b[0] == 0x94 {
        match spec_dec_i64(b.skip(1)) {
            Option::None => None,
            Option::Some((sid, h1)) => match spec_dec_str(b.skip(1 + h1)) {
                Option::None => None,
                Option::Some((sender, h2)) => match spec_dec_str(b.skip(1 + h1 + h2)) {
                    Option::None => None,
                    Option::Some((text, h3)) => match spec_dec_u64(b.skip(1 + h1 + h2 + h3)) {
                        Option::None => None,
                        Option::Some((time, h4)) => Some(
                            (
                                SpecMessage { sender_id: sid, sender, text, time },
                                1 + h1 + h2 + h3 + h4,
                            ),
                        ),
                    },
                },
            },
        }
    } else {
        None
    }
}

/// Decodes the four fields of a relayed image message at the head of `b`.
pub open spec fn spec_dec_img_fields(b: Seq<u8>) -> Option<(SpecImageMessage, int)> {
    if b.len() >= 1 && b[0] == 0x94 {
        match spec_dec_i64(b.skip(1)) {
            Option::None => None,
            Option::Some((sid, h1)) => match spec_dec_str(b.skip(1 + h1)) {
                Option::None => None,
                Option::Some((sender, h2)) => match spec_dec_bin(b.skip(1 + h1 + h2)) {
                    Option::None => None,
                    Option::Some((img, h3)) => match spec_dec_u64(b.skip(1 + h1 + h2 + h3)) {
                        Option::None => None,
                        Option::Some((time, h4)) => Some(
                            (
                                SpecImageMessage {
                                    sender_id: sid,
                                    sender,
                                    image_bytes: img,
                                    time,
                                },
                                1 + h1 + h2 + h3 + h4,
                            ),
                        ),
                    },
                },
            },
        }
    } else {
        None
    }
}

/// Dispatches on the decoded variant name; the consumed count is within
/// the payload that follows the name.
pub open spec fn spec_dec_cb_tail(name: Seq<char>, rest: Seq<u8>) -> Option<(
    SpecClientboundPacket,
    int,
)> {

        if name == "Pong"@ {
    if rest.len() >= 1 && rest[0] == 0xc0 {
        Some((SpecClientboundPacket::Pong, 1int))
    } else {
        None
    }
        } else if name == "EncryptionResponse"@ {
    if rest.len() >= 1 && rest[0] == 0x92 {
        match spec_dec_bin(rest.skip(1)) {
            Option::None => None,
            Option::Some((a, ha)) => match spec_dec_bin(rest.skip(1 + ha)) {
                Option::None => None,
                Option::Some((b2, hb)) => Some(
                    (
                        SpecClientboundPacket::EncryptionResponse(a, b2),
                        1 + ha + hb,
                    ),
                ),
            },
        }
    } else {
        None
    }
        } else if name == "EncryptionAck"@ {
    if rest.len() >= 1 && rest[0] == 0xc0 {
        Some((SpecClientboundPacket::EncryptionAck, 1int))
    } else {
        None
    }
        } else if name == "LoginAck"@ {
    if rest.len() >= 1 && rest[0] == 0xc0 {
        Some((SpecClientboundPacket::LoginAck, 1int))
    } else {
        None
    }
        } else if name == "LoginFailed"@ {
    match spec_dec_str(rest) {
        Option::None => None,
        Option::Some((m, hm)) => Some(
            (SpecClientboundPacket::LoginFailed(m), hm),
        ),
    }
        } else if name == "UserJoined"@ {
    match spec_dec_str(rest) {
        Option::None => None,
        Option::Some((m, hm)) => Some(
            (SpecClientboundPacket::UserJoined(m), hm),
        ),
    }
        } else if name == "UserLeft"@ {
    match spec_dec_str(rest) {
        Option::None => None,
        Option::Some((m, hm)) => Some(
            (SpecClientboundPacket::UserLeft(m), hm),
        ),
    }
        } else if name == "UsersOnline"@ {
    match spec_dec_arr(rest) {
        Option::None => None,
        Option::Some((cnt, hc)) => match spec_dec_strs(rest.skip(hc), cnt) {
            Option::None => None,
            Option::Some((v, hv)) => Some(
                (SpecClientboundPacket::UsersOnline(v), hc + hv),
            ),
        },
    }
        } else if name == "Message"@ {
    match spec_dec_msg_fields(rest) {
        Option::None => None,
        Option::Some((m, h)) => Some(
            (SpecClientboundPacket::Message(m), h),
        ),
    }
        } else if name == "ImageMessage"@ {
    match spec_dec_img_fields(rest) {
        Option::None => None,
        Option::Some((m, h)) => Some(
            (SpecClientboundPacket::ImageMessage(m), h),
        ),
    }
        } else {
    None
        }

}

pub open spec fn spec_dec_cb(b: Seq<u8>) -> Option<(SpecClientboundPacket, int)> {
    if b.len() < 1 || b[0] != 0x81 {
        None
    } else {
        match spec_dec_str(b.skip(1)) {
            Option::None => None,
            Option::Some((name, hn)) => {
                let base = 1 + hn;
                match spec_dec_cb_tail(name, b.skip(base)) {
                    Option::None => None,
                    Option::Some((p, h)) => Some((p, base + h)),
                }
            },
        }
    }
}


// ---------------------------------------------------------------------------
// Properties of decoded values
// ---------------------------------------------------------------------------
/// A decoded string always fits the wire format again.
proof fn lemma_spec_dec_str_wf(b: Seq<u8>)
    ensures
        spec_dec_str(b) matches Some((v, n)) ==> str_encodable(v) && 0 < n <= b.len(),
{
    if spec_dec_str(b) is Some {
        let t = b[0];
        let h: int = if t == 0xd9 { 2 } else if t == 0xda { 3 } else if t == 0xdb { 5 } else { 1 };
        let l: int = if 0xa0 <= t < 0xc0 {
            (t - 0xa0) as int
        } else if t == 0xd9 {
            b[1] as int
        } else if t == 0xda {
            crate::msgpack::from_be16(b.subrange(1, 3))
        } else {
            crate::msgpack::from_be32(b.subrange(1, 5))
        };
        let bytes = b.subrange(h, h + l);
        vstd::utf8::decode_utf8_encode_utf8(bytes);
    }
}

/// A decoded byte array always fits the wire format again.
proof fn lemma_spec_dec_bin_wf(b: Seq<u8>)
    ensures
        spec_dec_bin(b) matches Some((v, n)) ==> bin_encodable(v) && 0 < n <= b.len(),
{
}

// ---------------------------------------------------------------------------
// Round trip: decoding an encoded packet gives it back
// ---------------------------------------------------------------------------
#[verifier::rlimit(100)]
#[verifier::spinoff_prover]
proof fn sb_case_0(rest: Seq<u8>)
    requires
        true,
    ensures
        spec_dec_sb(spec_enc_sb(SpecServerboundPacket::Ping) + rest) == Some(
            (SpecServerboundPacket::Ping, spec_enc_sb(SpecServerboundPacket::Ping).len() as int),
        ),
{
    reveal_strlit("Ping");
    name_facts("Ping"@);
    let b = spec_enc_sb(SpecServerboundPacket::Ping) + rest;
    assert(b[0] == 0x81);
    let tail = seq![0xc0u8] + rest;
    assert(b.skip(1) =~= spec_enc_str("Ping"@) + tail);
    lemma_dec_enc_str("Ping"@, tail);
    let l = spec_enc_str("Ping"@).len() as int;
    assert(b.skip(1 + l) =~= tail);
}

#[verifier::rlimit(100)]
#[verifier::spinoff_prover]
proof fn sb_case_1(rest: Seq<u8>)
    requires
        true,
    ensures
        spec_dec_sb(spec_enc_sb(SpecServerboundPacket::EncryptionRequest) + rest) == Some(
            (SpecServerboundPacket::EncryptionRequest, spec_enc_sb(SpecServerboundPacket::EncryptionRequest).len() as int),
        ),
{
    reveal_strlit("Ping");
    reveal_strlit("EncryptionRequest");
    name_facts("EncryptionRequest"@);
    let b = spec_enc_sb(SpecServerboundPacket::EncryptionRequest) + rest;
    assert(b[0] == 0x81);
    let tail = seq![0xc0u8] + rest;
    assert(b.skip(1) =~= spec_enc_str("EncryptionRequest"@) + tail);
    lemma_dec_enc_str("EncryptionRequest"@, tail);
    let l = spec_enc_str("EncryptionRequest"@).len() as int;
    assert(b.skip(1 + l) =~= tail);
}

#[verifier::rlimit(100)]
#[verifier::spinoff_prover]
proof fn sb_case_2(x: Seq<u8>, y: Seq<u8>, rest: Seq<u8>)
    requires
        bin_encodable(x) && bin_encodable(y),
    ensures
        spec_dec_sb(spec_enc_sb(SpecServerboundPacket::EncryptionConfirm(x, y)) + rest) == Some(
            (SpecServerboundPacket::EncryptionConfirm(x, y), spec_enc_sb(SpecServerboundPacket::EncryptionConfirm(x, y)).len() as int),
        ),
{
    reveal_strlit("Ping");
    reveal_strlit("EncryptionRequest");
    reveal_strlit("EncryptionConfirm");
    name_facts("EncryptionConfirm"@);
    let b = spec_enc_sb(SpecServerboundPacket::EncryptionConfirm(x, y)) + rest;
    assert(b[0] == 0x81);
    assert("Ping"@.len() == 4);
    assert("EncryptionRequest"@.len() == 17);
    assert("EncryptionConfirm"@.len() == 17);
    assert("EncryptionConfirm"@ != "Ping"@);
    assert("EncryptionConfirm"@[10] == 'C' && "EncryptionRequest"@[10] == 'R');
    assert("EncryptionConfirm"@ != "EncryptionRequest"@);
    let tail = seq![0x92u8] + spec_enc_bin(x) + spec_enc_bin(y) + rest;
    assert(b.skip(1) =~= spec_enc_str("EncryptionConfirm"@) + tail);
    lemma_dec_enc_str("EncryptionConfirm"@, tail);
    let l = spec_enc_str("EncryptionConfirm"@).len() as int;
    assert(b.skip(1 + l) =~= tail);
    assert(tail[0] == 0x92);
    assert(tail.skip(1) =~= spec_enc_bin(x) + (spec_enc_bin(y) + rest));
    lemma_dec_enc_bin(x, spec_enc_bin(y) + rest);
    let la = spec_enc_bin(x).len() as int;
    assert(tail.skip(1 + la) =~= spec_enc_bin(y) + rest);
    lemma_dec_enc_bin(y, rest);
}

#[verifier::rlimit(100)]
#[verifier::spinoff_prover]
proof fn sb_case_3(u: Seq<char>, w: Seq<char>, rest: Seq<u8>)
    requires
        str_encodable(u) && str_encodable(w),
    ensures
        spec_dec_sb(spec_enc_sb(SpecServerboundPacket::Login { username: u, password: w }) + rest) == Some(
            (SpecServerboundPacket::Login { username: u, password: w }, spec_enc_sb(SpecServerboundPacket::Login { username: u, password: w }).len() as int),
        ),
{
    reveal_strlit("Ping");
    reveal_strlit("EncryptionRequest");
    reveal_strlit("EncryptionConfirm");
    reveal_strlit("Login");
    name_facts("Login"@);
    let b = spec_enc_sb(SpecServerboundPacket::Login { username: u, password: w }) + rest;
    assert(b[0] == 0x81);
    assert("Ping"@.len() == 4);
    assert("Login"@.len() == 5);
    assert("EncryptionConfirm"@.len() == 17);
    assert("EncryptionRequest"@.len() == 17);
    assert("Login"@ != "Ping"@);
    assert("Login"@ != "EncryptionRequest"@);
    assert("Login"@ != "EncryptionConfirm"@);
    let tail = seq![0x92u8] + spec_enc_str(u) + spec_enc_str(w) + rest;
    assert(b.skip(1) =~= spec_enc_str("Login"@) + tail);
    lemma_dec_enc_str("Login"@, tail);
    let l = spec_enc_str("Login"@).len() as int;
    assert(b.skip(1 + l) =~= tail);
    assert(tail[0] == 0x92);
    assert(tail.skip(1) =~= spec_enc_str(u) + (spec_enc_str(w) + rest));
    lemma_dec_enc_str(u, spec_enc_str(w) + rest);
    let la = spec_enc_str(u).len() as int;
    assert(tail.skip(1 + la) =~= spec_enc_str(w) + rest);
    lemma_dec_enc_str(w, rest);
}

#[verifier::rlimit(100)]
#[verifier::spinoff_prover]
proof fn sb_case_4(m: Seq<char>, rest: Seq<u8>)
    requires
        str_encodable(m),
    ensures
        spec_dec_sb(spec_enc_sb(SpecServerboundPacket::Message(m)) + rest) == Some(
            (SpecServerboundPacket::Message(m), spec_enc_sb(SpecServerboundPacket::Message(m)).len() as int),
        ),
{
    reveal_strlit("Ping");
    reveal_strlit("EncryptionRequest");
    reveal_strlit("EncryptionConfirm");
    reveal_strlit("Login");
    reveal_strlit("Message");
    name_facts("Message"@);
    let b = spec_enc_sb(SpecServerboundPacket::Message(m)) + rest;
    assert(b[0] == 0x81);
    assert("EncryptionRequest"@.len() == 17);
    assert("Ping"@.len() == 4);
    assert("EncryptionConfirm"@.len() == 17);
    assert("Message"@.len() == 7);
    assert("Login"@.len() == 5);
    assert("Message"@ != "Ping"@);
    assert("Message"@ != "EncryptionRequest"@);
    assert("Message"@ != "EncryptionConfirm"@);
    assert("Message"@ != "Login"@);
    let tail = spec_enc_str(m) + rest;
    assert(b.skip(1) =~= spec_enc_str("Message"@) + tail);
    lemma_dec_enc_str("Message"@, tail);
    let l = spec_enc_str("Message"@).len() as int;
    assert(b.skip(1 + l) =~= tail);
    lemma_dec_enc_str(m, rest);
}

#[verifier::rlimit(100)]
#[verifier::spinoff_prover]
proof fn sb_case_5(m: Seq<u8>, rest: Seq<u8>)
    requires
        bin_encodable(m),
    ensures
        spec_dec_sb(spec_enc_sb(SpecServerboundPacket::ImageMessage(m)) + rest) == Some(
            (SpecServerboundPacket::ImageMessage(m), spec_enc_sb(SpecServerboundPacket::ImageMessage(m)).len() as int),
        ),
{
    reveal_strlit("Ping");
    reveal_strlit("EncryptionRequest");
    reveal_strlit("EncryptionConfirm");
    reveal_strlit("Login");
    reveal_strlit("Message");
    reveal_strlit("ImageMessage");
    name_facts("ImageMessage"@);
    let b = spec_enc_sb(SpecServerboundPacket::ImageMessage(m)) + rest;
    assert(b[0] == 0x81);
    let tail = spec_enc_bin(m) + rest;
    assert(b.skip(1) =~= spec_enc_str("ImageMessage"@) + tail);
    lemma_dec_enc_str("ImageMessage"@, tail);
    let l = spec_enc_str("ImageMessage"@).len() as int;
    assert(b.skip(1 + l) =~= tail);
    lemma_dec_enc_bin(m, rest);
}

#[verifier::rlimit(100)]
#[verifier::spinoff_prover]
proof fn sb_case_6(m: Seq<char>, rest: Seq<u8>)
    requires
        str_encodable(m),
    ensures
        spec_dec_sb(spec_enc_sb(SpecServerboundPacket::Command(m)) + rest) == Some(
            (SpecServerboundPacket::Command(m), spec_enc_sb(SpecServerboundPacket::Command(m)).len() as int),
        ),
{
    reveal_strlit("Ping");
    reveal_strlit("EncryptionRequest");
    reveal_strlit("EncryptionConfirm");
    reveal_strlit("Login");
    reveal_strlit("Message");
    reveal_strlit("ImageMessage");
    reveal_strlit("Command");
    name_facts("Command"@);
    let b = spec_enc_sb(SpecServerboundPacket::Command(m)) + rest;
    assert(b[0] == 0x81);
    let tail = spec_enc_str(m) + rest;
    assert(b.skip(1) =~= spec_enc_str("Command"@) + tail);
    lemma_dec_enc_str("Command"@, tail);
    let l = spec_enc_str("Command"@).len() as int;
    assert(b.skip(1 + l) =~= tail);
    lemma_dec_enc_str(m, rest);
}

#[verifier::rlimit(100)]
#[verifier::spinoff_prover]
proof fn sb_case_7_payload(o: i64, n: i64, rest: Seq<u8>)
    ensures
        ({
            let tail = seq![0x92u8] + spec_enc_i64(o) + spec_enc_i64(n) + rest;
            let h1 = spec_enc_i64(o).len() as int;
            let h2 = spec_enc_i64(n).len() as int;
            &&& tail[0] == 0x92
            &&& spec_dec_i64(tail.skip(1)) == Some((o, h1))
            &&& spec_dec_i64(tail.skip(1 + h1)) == Some((n, h2))
            &&& tail.len() == 1 + h1 + h2 + rest.len()
        }),
{
    let tail = seq![0x92u8] + spec_enc_i64(o) + spec_enc_i64(n) + rest;
    assert(tail.skip(1) =~= spec_enc_i64(o) + (spec_enc_i64(n) + rest));
    lemma_dec_enc_i64(o, spec_enc_i64(n) + rest);
    let h1 = spec_enc_i64(o).len() as int;
    assert(tail.skip(1 + h1) =~= spec_enc_i64(n) + rest);
    lemma_dec_enc_i64(n, rest);
}

#[verifier::rlimit(100)]
#[verifier::spinoff_prover]
proof fn sb_case_7(o: i64, n: i64, rest: Seq<u8>)
    ensures
        spec_dec_sb(spec_enc_sb(SpecServerboundPacket::FetchMessages(o, n)) + rest) == Some(
            (
                SpecServerboundPacket::FetchMessages(o, n),
                spec_enc_sb(SpecServerboundPacket::FetchMessages(o, n)).len() as int,
            ),
        ),
{
    reveal_strlit("Ping");
    reveal_strlit("EncryptionRequest");
    reveal_strlit("EncryptionConfirm");
    reveal_strlit("Login");
    reveal_strlit("Message");
    reveal_strlit("ImageMessage");
    reveal_strlit("Command");
    reveal_strlit("FetchMessages");
    name_facts("FetchMessages"@);
    let b = spec_enc_sb(SpecServerboundPacket::FetchMessages(o, n)) + rest;
    assert(b[0] == 0x81);
    assert("Ping"@.len() == 4);
    assert("EncryptionRequest"@.len() == 17);
    assert("EncryptionConfirm"@.len() == 17);
    assert("Login"@.len() == 5);
    assert("Message"@.len() == 7);
    assert("ImageMessage"@.len() == 12);
    assert("Command"@.len() == 7);
    assert("FetchMessages"@.len() == 13);
    assert("FetchMessages"@ != "Ping"@);
    assert("FetchMessages"@ != "EncryptionRequest"@);
    assert("FetchMessages"@ != "EncryptionConfirm"@);
    assert("FetchMessages"@ != "Login"@);
    assert("FetchMessages"@ != "Message"@);
    assert("FetchMessages"@ != "ImageMessage"@);
    assert("FetchMessages"@ != "Command"@);
    let tail = seq![0x92u8] + spec_enc_i64(o) + spec_enc_i64(n) + rest;
    assert(b.skip(1) =~= spec_enc_str("FetchMessages"@) + tail);
    lemma_dec_enc_str("FetchMessages"@, tail);
    let l = spec_enc_str("FetchMessages"@).len() as int;
    assert(b.skip(1 + l) =~= tail);
    sb_case_7_payload(o, n, rest);
}

/// Decoding the encoding of any well-formed serverbound packet, whatever
/// bytes follow it, yields the packet and consumes exactly its encoding.
pub proof fn lemma_dec_enc_sb(p: SpecServerboundPacket, rest: Seq<u8>)
    requires
        spec_sb_wf(p),
    ensures
        spec_dec_sb(spec_enc_sb(p) + rest) == Some((p, spec_enc_sb(p).len() as int)),
{
    match p {
        SpecServerboundPacket::Ping => sb_case_0(rest),
        SpecServerboundPacket::EncryptionRequest => sb_case_1(rest),
        SpecServerboundPacket::EncryptionConfirm(x, y) => sb_case_2(x, y, rest),
        SpecServerboundPacket::Login { username, password } => sb_case_3(username, password, rest),
        SpecServerboundPacket::Message(m) => sb_case_4(m, rest),
        SpecServerboundPacket::ImageMessage(m) => sb_case_5(m, rest),
        SpecServerboundPacket::Command(m) => sb_case_6(m, rest),
        SpecServerboundPacket::FetchMessages(o, n) => sb_case_7(o, n, rest),
    }
}

/// Round trip for a list of strings encoded back to back.
proof fn lemma_dec_enc_strs(v: Seq<Seq<char>>, rest: Seq<u8>)
    requires
        forall|i: int| 0 <= i < v.len() ==> str_encodable(#[trigger] v[i]),
    ensures
        spec_dec_strs(spec_enc_strs(v) + rest, v.len() as int) == Some(
            (v, spec_enc_strs(v).len() as int),
        ),
    decreases v.len(),
{
    if v.len() == 0 {
        assert(spec_enc_strs(v) + rest =~= rest);
        assert(v =~= Seq::<Seq<char>>::empty());
    } else {
        let b = spec_enc_strs(v) + rest;
        assert(b =~= spec_enc_str(v[0]) + (spec_enc_strs(v.drop_first()) + rest));
        lemma_dec_enc_str(v[0], spec_enc_strs(v.drop_first()) + rest);
        let l0 = spec_enc_str(v[0]).len() as int;
        assert(b.skip(l0) =~= spec_enc_strs(v.drop_first()) + rest);
        assert(forall|i: int|
            0 <= i < v.drop_first().len() ==> str_encodable(#[trigger] v.drop_first()[i]));
        lemma_dec_enc_strs(v.drop_first(), rest);
        assert(seq![v[0]] + v.drop_first() =~= v);
    }
}

#[verifier::rlimit(100)]
#[verifier::spinoff_prover]
proof fn cb_case_0(rest: Seq<u8>)
    requires
        true,
    ensures
        spec_dec_cb(spec_enc_cb(SpecClientboundPacket::Pong) + rest) == Some(
            (SpecClientboundPacket::Pong, spec_enc_cb(SpecClientboundPacket::Pong).len() as int),
        ),
{
    reveal_strlit("Pong");
    name_facts("Pong"@);
    let b = spec_enc_cb(SpecClientboundPacket::Pong) + rest;
    assert(b[0] == 0x81);
    let tail = seq![0xc0u8] + rest;
    assert(b.skip(1) =~= spec_enc_str("Pong"@) + tail);
    lemma_dec_enc_str("Pong"@, tail);
    let l = spec_enc_str("Pong"@).len() as int;
    assert(b.skip(1 + l) =~= tail);
}

#[verifier::rlimit(100)]
#[verifier::spinoff_prover]
proof fn cb_case_1(x: Seq<u8>, y: Seq<u8>, rest: Seq<u8>)
    requires
        bin_encodable(x) && bin_encodable(y),
    ensures
        spec_dec_cb(spec_enc_cb(SpecClientboundPacket::EncryptionResponse(x, y)) + rest) == Some(
            (SpecClientboundPacket::EncryptionResponse(x, y), spec_enc_cb(SpecClientboundPacket::EncryptionResponse(x, y)).len() as int),
        ),
{
    reveal_strlit("Pong");
    reveal_strlit("EncryptionResponse");
    name_facts("EncryptionResponse"@);
    let b = spec_enc_cb(SpecClientboundPacket::EncryptionResponse(x, y)) + rest;
    assert(b[0] == 0x81);
    let tail = seq![0x92u8] + spec_enc_bin(x) + spec_enc_bin(y) + rest;
    assert(b.skip(1) =~= spec_enc_str("EncryptionResponse"@) + tail);
    lemma_dec_enc_str("EncryptionResponse"@, tail);
    let l = spec_enc_str("EncryptionResponse"@).len() as int;
    assert(b.skip(1 + l) =~= tail);
    assert(tail[0] == 0x92);
    assert(tail.skip(1) =~= spec_enc_bin(x) + (spec_enc_bin(y) + rest));
    lemma_dec_enc_bin(x, spec_enc_bin(y) + rest);
    let la = spec_enc_bin(x).len() as int;
    assert(tail.skip(1 + la) =~= spec_enc_bin(y) + rest);
    lemma_dec_enc_bin(y, rest);
}

#[verifier::rlimit(100)]
#[verifier::spinoff_prover]
proof fn cb_case_2(rest: Seq<u8>)
    requires
        true,
    ensures
        spec_dec_cb(spec_enc_cb(SpecClientboundPacket::EncryptionAck) + rest) == Some(
            (SpecClientboundPacket::EncryptionAck, spec_enc_cb(SpecClientboundPacket::EncryptionAck).len() as int),
        ),
{
    reveal_strlit("Pong");
    reveal_strlit("EncryptionResponse");
    reveal_strlit("EncryptionAck");
    name_facts("EncryptionAck"@);
    let b = spec_enc_cb(SpecClientboundPacket::EncryptionAck) + rest;
    assert(b[0] == 0x81);
    let tail = seq![0xc0u8] + rest;
    assert(b.skip(1) =~= spec_enc_str("EncryptionAck"@) + tail);
    lemma_dec_enc_str("EncryptionAck"@, tail);
    let l = spec_enc_str("EncryptionAck"@).len() as int;
    assert(b.skip(1 + l) =~= tail);
}

#[verifier::rlimit(100)]
#[verifier::spinoff_prover]
proof fn cb_case_3(rest: Seq<u8>)
    requires
        true,
    ensures
        spec_dec_cb(spec_enc_cb(SpecClientboundPacket::LoginAck) + rest) == Some(
            (SpecClientboundPacket::LoginAck, spec_enc_cb(SpecClientboundPacket::LoginAck).len() as int),
        ),
{
    reveal_strlit("Pong");
    reveal_strlit("EncryptionResponse");
    reveal_strlit("EncryptionAck");
    reveal_strlit("LoginAck");
    name_facts("LoginAck"@);
    let b = spec_enc_cb(SpecClientboundPacket::LoginAck) + rest;
    assert(b[0] == 0x81);
    let tail = seq![0xc0u8] + rest;
    assert(b.skip(1) =~= spec_enc_str("LoginAck"@) + tail);
    lemma_dec_enc_str("LoginAck"@, tail);
    let l = spec_enc_str("LoginAck"@).len() as int;
    assert(b.skip(1 + l) =~= tail);
}

#[verifier::rlimit(100)]
#[verifier::spinoff_prover]
proof fn cb_case_4(m: Seq<char>, rest: Seq<u8>)
    requires
        str_encodable(m),
    ensures
        spec_dec_cb(spec_enc_cb(SpecClientboundPacket::LoginFailed(m)) + rest) == Some(
            (SpecClientboundPacket::LoginFailed(m), spec_enc_cb(SpecClientboundPacket::LoginFailed(m)).len() as int),
        ),
{
    reveal_strlit("Pong");
    reveal_strlit("EncryptionResponse");
    reveal_strlit("EncryptionAck");
    reveal_strlit("LoginAck");
    reveal_strlit("LoginFailed");
    name_facts("LoginFailed"@);
    let b = spec_enc_cb(SpecClientboundPacket::LoginFailed(m)) + rest;
    assert(b[0] == 0x81);
    assert("EncryptionAck"@.len() == 13);
    assert("EncryptionResponse"@.len() == 18);
    assert("LoginFailed"@.len() == 11);
    assert("Pong"@.len() == 4);
    assert("LoginAck"@.len() == 8);
    assert("LoginFailed"@ != "Pong"@);
    assert("LoginFailed"@ != "EncryptionResponse"@);
    assert("LoginFailed"@ != "EncryptionAck"@);
    assert("LoginFailed"@ != "LoginAck"@);
    let tail = spec_enc_str(m) + rest;
    assert(b.skip(1) =~= spec_enc_str("LoginFailed"@) + tail);
    lemma_dec_enc_str("LoginFailed"@, tail);
    let l = spec_enc_str("LoginFailed"@).len() as int;
    assert(b.skip(1 + l) =~= tail);
    lemma_dec_enc_str(m, rest);
}

#[verifier::rlimit(100)]
#[verifier::spinoff_prover]
proof fn cb_case_5(m: Seq<char>, rest: Seq<u8>)
    requires
        str_encodable(m),
    ensures
        spec_dec_cb(spec_enc_cb(SpecClientboundPacket::UserJoined(m)) + rest) == Some(
            (SpecClientboundPacket::UserJoined(m), spec_enc_cb(SpecClientboundPacket::UserJoined(m)).len() as int),
        ),
{
    reveal_strlit("Pong");
    reveal_strlit("EncryptionResponse");
    reveal_strlit("EncryptionAck");
    reveal_strlit("LoginAck");
    reveal_strlit("LoginFailed");
    reveal_strlit("UserJoined");
    name_facts("UserJoined"@);
    let b = spec_enc_cb(SpecClientboundPacket::UserJoined(m)) + rest;
    assert(b[0] == 0x81);
    let tail = spec_enc_str(m) + rest;
    assert(b.skip(1) =~= spec_enc_str("UserJoined"@) + tail);
    lemma_dec_enc_str("UserJoined"@, tail);
    let l = spec_enc_str("UserJoined"@).len() as int;
    assert(b.skip(1 + l) =~= tail);
    lemma_dec_enc_str(m, rest);
}

#[verifier::rlimit(100)]
#[verifier::spinoff_prover]
proof fn cb_case_6(m: Seq<char>, rest: Seq<u8>)
    requires
        str_encodable(m),
    ensures
        spec_dec_cb(spec_enc_cb(SpecClientboundPacket::UserLeft(m)) + rest) == Some(
            (SpecClientboundPacket::UserLeft(m), spec_enc_cb(SpecClientboundPacket::UserLeft(m)).len() as int),
        ),
{
    reveal_strlit("Pong");
    reveal_strlit("EncryptionResponse");
    reveal_strlit("EncryptionAck");
    reveal_strlit("LoginAck");
    reveal_strlit("LoginFailed");
    reveal_strlit("UserJoined");
    reveal_strlit("UserLeft");
    name_facts("UserLeft"@);
    let b = spec_enc_cb(SpecClientboundPacket::UserLeft(m)) + rest;
    assert(b[0] == 0x81);
    let tail = spec_enc_str(m) + rest;
    assert(b.skip(1) =~= spec_enc_str("UserLeft"@) + tail);
    lemma_dec_enc_str("UserLeft"@, tail);
    let l = spec_enc_str("UserLeft"@).len() as int;
    assert(b.skip(1 + l) =~= tail);
    lemma_dec_enc_str(m, rest);
}

#[verifier::rlimit(100)]
#[verifier::spinoff_prover]
proof fn cb_case_7(v: Seq<Seq<char>>, rest: Seq<u8>)
    requires
        v.len() < 0x100000000 && (forall|i: int| 0 <= i < v.len() ==> str_encodable(#[trigger] v[i])),
    ensures
        spec_dec_cb(spec_enc_cb(SpecClientboundPacket::UsersOnline(v)) + rest) == Some(
            (SpecClientboundPacket::UsersOnline(v), spec_enc_cb(SpecClientboundPacket::UsersOnline(v)).len() as int),
        ),
{
    reveal_strlit("Pong");
    reveal_strlit("EncryptionResponse");
    reveal_strlit("EncryptionAck");
    reveal_strlit("LoginAck");
    reveal_strlit("LoginFailed");
    reveal_strlit("UserJoined");
    reveal_strlit("UserLeft");
    reveal_strlit("UsersOnline");
    name_facts("UsersOnline"@);
    let b = spec_enc_cb(SpecClientboundPacket::UsersOnline(v)) + rest;
    assert(b[0] == 0x81);
    let tail = spec_enc_arr(v.len() as int) + spec_enc_strs(v) + rest;
    assert(b.skip(1) =~= spec_enc_str("UsersOnline"@) + tail);
    lemma_dec_enc_str("UsersOnline"@, tail);
    let l = spec_enc_str("UsersOnline"@).len() as int;
    assert(b.skip(1 + l) =~= tail);
    assert(tail =~= spec_enc_arr(v.len() as int) + (spec_enc_strs(v) + rest));
    lemma_dec_enc_arr(v.len() as int, spec_enc_strs(v) + rest);
    let lc = spec_enc_arr(v.len() as int).len() as int;
    assert(tail.skip(lc) =~= spec_enc_strs(v) + rest);
    lemma_dec_enc_strs(v, rest);
}

#[verifier::rlimit(100)]
#[verifier::spinoff_prover]
proof fn cb_case_8_payload(m: SpecMessage, rest: Seq<u8>)
    requires
        str_encodable(m.sender) && str_encodable(m.text),
    ensures
        ({
            let tail = seq![0x94u8] + spec_enc_i64(m.sender_id) + spec_enc_str(m.sender)
                + spec_enc_str(m.text) + spec_enc_u64(m.time) + rest;
            let h1 = spec_enc_i64(m.sender_id).len() as int;
            let h2 = spec_enc_str(m.sender).len() as int;
            let h3 = spec_enc_str(m.text).len() as int;
            let h4 = spec_enc_u64(m.time).len() as int;
            &&& tail.len() == 1 + h1 + h2 + h3 + h4 + rest.len()
            &&& spec_dec_msg_fields(tail) == Some((m, 1 + h1 + h2 + h3 + h4))
        }),
{
    let s1 = spec_enc_i64(m.sender_id);
    let s2 = spec_enc_str(m.sender);
    let s3 = spec_enc_str(m.text);
    let s4 = spec_enc_u64(m.time);
    lemma_tail_splits(0x94u8, s1, s2, s3, s4, rest);
    lemma_dec_enc_i64(m.sender_id, s2 + s3 + s4 + rest);
    lemma_dec_enc_str(m.sender, s3 + s4 + rest);
    lemma_dec_enc_str(m.text, s4 + rest);
    lemma_dec_enc_u64(m.time, rest);
}

#[verifier::rlimit(100)]
#[verifier::spinoff_prover]
proof fn cb_case_8(m: SpecMessage, rest: Seq<u8>)
    requires
        str_encodable(m.sender) && str_encodable(m.text),
    ensures
        spec_dec_cb(spec_enc_cb(SpecClientboundPacket::Message(m)) + rest) == Some(
            (
                SpecClientboundPacket::Message(m),
                spec_enc_cb(SpecClientboundPacket::Message(m)).len() as int,
            ),
        ),
{
    reveal_strlit("Pong");
    reveal_strlit("EncryptionResponse");
    reveal_strlit("EncryptionAck");
    reveal_strlit("LoginAck");
    reveal_strlit("LoginFailed");
    reveal_strlit("UserJoined");
    reveal_strlit("UserLeft");
    reveal_strlit("UsersOnline");
    reveal_strlit("Message");
    name_facts("Message"@);
    let b = spec_enc_cb(SpecClientboundPacket::Message(m)) + rest;
    assert(b[0] == 0x81);
    assert("Pong"@.len() == 4);
    assert("EncryptionResponse"@.len() == 18);
    assert("EncryptionAck"@.len() == 13);
    assert("LoginAck"@.len() == 8);
    assert("LoginFailed"@.len() == 11);
    assert("UserJoined"@.len() == 10);
    assert("UserLeft"@.len() == 8);
    assert("UsersOnline"@.len() == 11);
    assert("Message"@.len() == 7);
    assert("Message"@ != "Pong"@);
    assert("Message"@ != "EncryptionResponse"@);
    assert("Message"@ != "EncryptionAck"@);
    assert("Message"@ != "LoginAck"@);
    assert("Message"@ != "LoginFailed"@);
    assert("Message"@ != "UserJoined"@);
    assert("Message"@ != "UserLeft"@);
    assert("Message"@ != "UsersOnline"@);
    let tail = seq![0x94u8] + spec_enc_i64(m.sender_id) + spec_enc_str(m.sender) + spec_enc_str(
        m.text,
    ) + spec_enc_u64(m.time) + rest;
    assert(b.skip(1) =~= spec_enc_str("Message"@) + tail);
    lemma_dec_enc_str("Message"@, tail);
    let l = spec_enc_str("Message"@).len() as int;
    assert(b.skip(1 + l) =~= tail);
    cb_case_8_payload(m, rest);
}

/// Splitting a five-part concatenation at each boundary.
proof fn lemma_tail_splits(h: u8, s1: Seq<u8>, s2: Seq<u8>, s3: Seq<u8>, s4: Seq<u8>, rest: Seq<u8>)
    ensures
        ({
            let tail = seq![h] + s1 + s2 + s3 + s4 + rest;
            &&& tail[0] == h
            &&& tail.skip(1) == s1 + (s2 + s3 + s4 + rest)
            &&& tail.skip(1 + s1.len() as int) == s2 + (s3 + s4 + rest)
            &&& tail.skip(1 + s1.len() as int + s2.len() as int) == s3 + (s4 + rest)
            &&& tail.skip(1 + s1.len() as int + s2.len() as int + s3.len() as int) == s4 + rest
            &&& tail.len() == 1 + s1.len() + s2.len() + s3.len() + s4.len() + rest.len()
        }),
{
    let tail = seq![h] + s1 + s2 + s3 + s4 + rest;
    assert(tail.skip(1) =~= s1 + (s2 + s3 + s4 + rest));
    assert(tail.skip(1 + s1.len() as int) =~= s2 + (s3 + s4 + rest));
    assert(tail.skip(1 + s1.len() as int + s2.len() as int) =~= s3 + (s4 + rest));
    assert(tail.skip(1 + s1.len() as int + s2.len() as int + s3.len() as int) =~= s4 + rest);
}

#[verifier::rlimit(100)]
#[verifier::spinoff_prover]
proof fn cb_case_9_payload(m: SpecImageMessage, rest: Seq<u8>)
    requires
        str_encodable(m.sender) && bin_encodable(m.image_bytes),
    ensures
        ({
            let tail = seq![0x94u8] + spec_enc_i64(m.sender_id) + spec_enc_str(m.sender)
                + spec_enc_bin(m.image_bytes) + spec_enc_u64(m.time) + rest;
            let h1 = spec_enc_i64(m.sender_id).len() as int;
            let h2 = spec_enc_str(m.sender).len() as int;
            let h3 = spec_enc_bin(m.image_bytes).len() as int;
            let h4 = spec_enc_u64(m.time).len() as int;
            &&& tail.len() == 1 + h1 + h2 + h3 + h4 + rest.len()
            &&& spec_dec_img_fields(tail) == Some((m, 1 + h1 + h2 + h3 + h4))
        }),
{
    let s1 = spec_enc_i64(m.sender_id);
    let s2 = spec_enc_str(m.sender);
    let s3 = spec_enc_bin(m.image_bytes);
    let s4 = spec_enc_u64(m.time);
    lemma_tail_splits(0x94u8, s1, s2, s3, s4, rest);
    lemma_dec_enc_i64(m.sender_id, s2 + s3 + s4 + rest);
    lemma_dec_enc_str(m.sender, s3 + s4 + rest);
    lemma_dec_enc_bin(m.image_bytes, s4 + rest);
    lemma_dec_enc_u64(m.time, rest);
}

#[verifier::rlimit(100)]
#[verifier::spinoff_prover]
proof fn cb_case_9(m: SpecImageMessage, rest: Seq<u8>)
    requires
        str_encodable(m.sender) && bin_encodable(m.image_bytes),
    ensures
        spec_dec_cb(spec_enc_cb(SpecClientboundPacket::ImageMessage(m)) + rest) == Some(
            (
                SpecClientboundPacket::ImageMessage(m),
                spec_enc_cb(SpecClientboundPacket::ImageMessage(m)).len() as int,
            ),
        ),
{
    reveal_strlit("Pong");
    reveal_strlit("EncryptionResponse");
    reveal_strlit("EncryptionAck");
    reveal_strlit("LoginAck");
    reveal_strlit("LoginFailed");
    reveal_strlit("UserJoined");
    reveal_strlit("UserLeft");
    reveal_strlit("UsersOnline");
    reveal_strlit("Message");
    reveal_strlit("ImageMessage");
    name_facts("ImageMessage"@);
    let b = spec_enc_cb(SpecClientboundPacket::ImageMessage(m)) + rest;
    assert(b[0] == 0x81);
    assert("Pong"@.len() == 4);
    assert("EncryptionResponse"@.len() == 18);
    assert("EncryptionAck"@.len() == 13);
    assert("LoginAck"@.len() == 8);
    assert("LoginFailed"@.len() == 11);
    assert("UserJoined"@.len() == 10);
    assert("UserLeft"@.len() == 8);
    assert("UsersOnline"@.len() == 11);
    assert("Message"@.len() == 7);
    assert("ImageMessage"@.len() == 12);
    assert("ImageMessage"@ != "Pong"@);
    assert("ImageMessage"@ != "EncryptionResponse"@);
    assert("ImageMessage"@ != "EncryptionAck"@);
    assert("ImageMessage"@ != "LoginAck"@);
    assert("ImageMessage"@ != "LoginFailed"@);
    assert("ImageMessage"@ != "UserJoined"@);
    assert("ImageMessage"@ != "UserLeft"@);
    assert("ImageMessage"@ != "UsersOnline"@);
    assert("ImageMessage"@ != "Message"@);
    let tail = seq![0x94u8] + spec_enc_i64(m.sender_id) + spec_enc_str(m.sender) + spec_enc_bin(
        m.image_bytes,
    ) + spec_enc_u64(m.time) + rest;
    assert(b.skip(1) =~= spec_enc_str("ImageMessage"@) + tail);
    lemma_dec_enc_str("ImageMessage"@, tail);
    let l = spec_enc_str("ImageMessage"@).len() as int;
    assert(b.skip(1 + l) =~= tail);
    cb_case_9_payload(m, rest);
}

/// Decoding the encoding of any well-formed clientbound packet, whatever
/// bytes follow it, yields the packet and consumes exactly its encoding.
pub proof fn lemma_dec_enc_cb(p: SpecClientboundPacket, rest: Seq<u8>)
    requires
        spec_cb_wf(p),
    ensures
        spec_dec_cb(spec_enc_cb(p) + rest) == Some((p, spec_enc_cb(p).len() as int)),
{
    match p {
        SpecClientboundPacket::Pong => cb_case_0(rest),
        SpecClientboundPacket::EncryptionResponse(x, y) => cb_case_1(x, y, rest),
        SpecClientboundPacket::EncryptionAck => cb_case_2(rest),
        SpecClientboundPacket::LoginAck => cb_case_3(rest),
        SpecClientboundPacket::LoginFailed(m) => cb_case_4(m, rest),
        SpecClientboundPacket::UserJoined(m) => cb_case_5(m, rest),
        SpecClientboundPacket::UserLeft(m) => cb_case_6(m, rest),
        SpecClientboundPacket::UsersOnline(v) => cb_case_7(v, rest),
        SpecClientboundPacket::Message(m) => cb_case_8(m, rest),
        SpecClientboundPacket::ImageMessage(m) => cb_case_9(m, rest),
    }
}


// ---------------------------------------------------------------------------
// Executable decoding
// ---------------------------------------------------------------------------
/// Compares a decoded field name against an expected one.
fn name_is(name: &String, lit: &str) -> (r: bool)
    ensures
        r == (name@ == lit@),
{
    let expected: String = lit.to_owned();
    *name == expected
}

/// Parses one serverbound packet at `pos`, returning it and the position
/// just past its encoding. Decoding is deterministic: the result mirrors
/// the spec-level decoder exactly.
#[verifier::rlimit(100)]
#[verifier::spinoff_prover]
pub fn decode_serverbound(buf: &Vec<u8>, pos: usize) -> (r: Option<(ServerboundPacket, usize)>)
    requires
        pos <= buf@.len(),
    ensures
        r is Some <==> spec_dec_sb(buf@.skip(pos as int)) is Some,
        r matches Some((p, np)) ==> pos < np <= buf@.len() && p.wf() && spec_dec_sb(
            buf@.skip(pos as int),
        ) == Some((p@, np - pos)),
{
    let ghost s = buf@.skip(pos as int);
    if pos >= buf.len() {
        return None;
    }
    if buf[pos] != 0x81 {
        assert(s[0] != 0x81);
        return None;
    }
    assert(s[0] == 0x81);
    assert(buf@.skip(pos as int + 1) =~= s.skip(1));
    let name_r = dec_str(buf, pos + 1);
    match name_r {
        Option::None => None,
        Option::Some((name, p1)) => {
            proof {
                lemma_spec_dec_str_wf(s.skip(1));
            }
            let ghost base = p1 - pos;
            let ghost rest_s = s.skip(base as int);
            assert(rest_s =~= buf@.skip(p1 as int));
            if name_is(&name, "Ping") {
                if p1 < buf.len() && buf[p1] == 0xc0 {
                    assert(rest_s[0] == 0xc0);
                    Some((ServerboundPacket::Ping, p1 + 1))
                } else {
                    assert(rest_s.len() >= 1 ==> rest_s[0] == buf@[p1 as int]);
                    None
                }
            } else if name_is(&name, "EncryptionRequest") {
                if p1 < buf.len() && buf[p1] == 0xc0 {
                    assert(rest_s[0] == 0xc0);
                    Some((ServerboundPacket::EncryptionRequest, p1 + 1))
                } else {
                    assert(rest_s.len() >= 1 ==> rest_s[0] == buf@[p1 as int]);
                    None
                }
            } else if name_is(&name, "EncryptionConfirm") {
                if p1 < buf.len() && buf[p1] == 0x92 {
                    assert(rest_s[0] == 0x92);
                    assert(buf@.skip(p1 as int + 1) =~= rest_s.skip(1));
                    match dec_bin(buf, p1 + 1) {
                        Option::None => None,
                        Option::Some((a, p2)) => {
                            proof {
                                lemma_spec_dec_bin_wf(rest_s.skip(1));
                            }
                            assert(buf@.skip(p2 as int) =~= rest_s.skip(1 + (p2 - p1 - 1)));
                            match dec_bin(buf, p2) {
                                Option::None => None,
                                Option::Some((b2, p3)) => {
                                    proof {
                                        lemma_spec_dec_bin_wf(rest_s.skip(1 + (p2 - p1 - 1)));
                                    }
                                    Some((ServerboundPacket::EncryptionConfirm(a, b2), p3))
                                },
                            }
                        },
                    }
                } else {
                    assert(rest_s.len() >= 1 ==> rest_s[0] == buf@[p1 as int]);
                    None
                }
            } else if name_is(&name, "Login") {
                if p1 < buf.len() && buf[p1] == 0x92 {
                    assert(rest_s[0] == 0x92);
                    assert(buf@.skip(p1 as int + 1) =~= rest_s.skip(1));
                    match dec_str(buf, p1 + 1) {
                        Option::None => None,
                        Option::Some((u, p2)) => {
                            proof {
                                lemma_spec_dec_str_wf(rest_s.skip(1));
                            }
                            assert(buf@.skip(p2 as int) =~= rest_s.skip(1 + (p2 - p1 - 1)));
                            match dec_str(buf, p2) {
                                Option::None => None,
                                Option::Some((w, p3)) => {
                                    proof {
                                        lemma_spec_dec_str_wf(rest_s.skip(1 + (p2 - p1 - 1)));
                                    }
                                    Some(
                                        (
                                            ServerboundPacket::Login {
                                                username: u,
                                                password: w,
                                            },
                                            p3,
                                        ),
                                    )
                                },
                            }
                        },
                    }
                } else {
                    assert(rest_s.len() >= 1 ==> rest_s[0] == buf@[p1 as int]);
                    None
                }
            } else if name_is(&name, "Message") {
                match dec_str(buf, p1) {
                    Option::None => None,
                    Option::Some((m, p2)) => {
                        proof {
                            lemma_spec_dec_str_wf(rest_s);
                        }
                        Some((ServerboundPacket::Message(m), p2))
                    },
                }
            } else if name_is(&name, "ImageMessage") {
                match dec_bin(buf, p1) {
                    Option::None => None,
                    Option::Some((m, p2)) => {
                        proof {
                            lemma_spec_dec_bin_wf(rest_s);
                        }
                        Some((ServerboundPacket::ImageMessage(m), p2))
                    },
                }
            } else if name_is(&name, "Command") {
                match dec_str(buf, p1) {
                    Option::None => None,
                    Option::Some((m, p2)) => {
                        proof {
                            lemma_spec_dec_str_wf(rest_s);
                        }
                        Some((ServerboundPacket::Command(m), p2))
                    },
                }
            } else if name_is(&name, "FetchMessages") {
                if p1 < buf.len() && buf[p1] == 0x92 {
                    assert(rest_s[0] == 0x92);
                    assert(buf@.skip(p1 as int + 1) =~= rest_s.skip(1));
                    match dec_i64(buf, p1 + 1) {
                        Option::None => None,
                        Option::Some((o, p2)) => {
                            assert(buf@.skip(p2 as int) =~= rest_s.skip(1 + (p2 - p1 - 1)));
                            match dec_i64(buf, p2) {
                                Option::None => None,
                                Option::Some((n, p3)) => Some(
                                    (ServerboundPacket::FetchMessages(o, n), p3),
                                ),
                            }
                        },
                    }
                } else {
                    assert(rest_s.len() >= 1 ==> rest_s[0] == buf@[p1 as int]);
                    None
                }
            } else {
                None
            }
        },
    }
}


/// Parses a run of `cnt` strings starting at `pos`, mirroring the
/// spec-level list decoder.
#[verifier::rlimit(100)]
#[verifier::spinoff_prover]
fn decode_str_list(buf: &Vec<u8>, pos: usize, cnt: usize) -> (r: Option<(Vec<String>, usize)>)
    requires
        pos <= buf@.len(),
    ensures
        r is Some <==> spec_dec_strs(buf@.skip(pos as int), cnt as int) is Some,
        r matches Some((v, np)) ==> pos <= np <= buf@.len() && spec_dec_strs(
            buf@.skip(pos as int),
            cnt as int,
        ) == Some((v.deep_view(), np - pos)) && v@.len() == cnt && (forall|k: int|
            0 <= k < v.deep_view().len() ==> str_encodable(#[trigger] v.deep_view()[k])),
{
    let mut items: Vec<String> = Vec::new();
    let mut cur: usize = pos;
    let mut i: usize = 0;
    while i < cnt
        invariant
            0 <= i <= cnt,
            pos <= cur <= buf@.len(),
            items@.len() == i,
            forall|k: int|
                0 <= k < items.deep_view().len() ==> str_encodable(
                    #[trigger] items.deep_view()[k],
                ),
            spec_dec_strs(buf@.skip(cur as int), cnt - i) matches Some((v, h))
                ==> spec_dec_strs(buf@.skip(pos as int), cnt as int) == Some(
                (items.deep_view() + v, cur - pos + h),
            ),
            spec_dec_strs(buf@.skip(cur as int), cnt - i) is None ==> spec_dec_strs(
                buf@.skip(pos as int),
                cnt as int,
            ) is None,
        decreases cnt - i,
    {
        let ghost items_old = items.deep_view();
        let ghost cur_s = buf@.skip(cur as int);
        let r = dec_str(buf, cur);
        match r {
            Option::None => {
                assert(spec_dec_strs(cur_s, cnt - i) is None);
                return None;
            },
            Option::Some((st, nxt)) => {
                proof {
                    lemma_spec_dec_str_wf(cur_s);
                }
                assert(buf@.skip(nxt as int) =~= cur_s.skip(nxt - cur));
                items.push(st);
                proof {
                    assert(items.deep_view() =~= items_old + seq![st@]);
                    let nr = spec_dec_strs(buf@.skip(nxt as int), cnt - i - 1);
                    if nr is Some {
                        let pair = nr->0;
                        let vv = pair.0;
                        let hh = pair.1;
                        assert(spec_dec_strs(cur_s, cnt - i) == Some(
                            (seq![st@] + vv, (nxt - cur) + hh),
                        ));
                        assert(items_old + (seq![st@] + vv) =~= items.deep_view() + vv);
                        assert(spec_dec_strs(buf@.skip(pos as int), cnt as int) == Some(
                            (items.deep_view() + vv, nxt - pos + hh),
                        ));
                    } else {
                        assert(spec_dec_strs(cur_s, cnt - i) is None);
                    }
                }
                cur = nxt;
                i += 1;
            },
        }
    }
    assert(spec_dec_strs(buf@.skip(cur as int), 0) == Some((Seq::<Seq<char>>::empty(), 0int)));
    assert(items.deep_view() + Seq::<Seq<char>>::empty() =~= items.deep_view());
    Some((items, cur))
}

/// Parses the four fields of a relayed text message.
#[verifier::rlimit(100)]
#[verifier::spinoff_prover]
fn decode_msg_fields(buf: &Vec<u8>, pos: usize) -> (r: Option<(Message, usize)>)
    requires
        pos <= buf@.len(),
    ensures
        r is Some <==> spec_dec_msg_fields(buf@.skip(pos as int)) is Some,
        r matches Some((m, np)) ==> pos < np <= buf@.len() && str_encodable(m.sender@)
            && str_encodable(m.text@) && spec_dec_msg_fields(buf@.skip(pos as int)) == Some(
            (m@, np - pos),
        ),
{
    let ghost s = buf@.skip(pos as int);
    if pos >= buf.len() || buf[pos] != 0x94 {
        assert(s.len() >= 1 ==> s[0] == buf@[pos as int]);
        return None;
    }
    assert(s[0] == 0x94);
    assert(buf@.skip(pos as int + 1) =~= s.skip(1));
    match dec_i64(buf, pos + 1) {
        Option::None => None,
        Option::Some((sid, p2)) => {
            assert(buf@.skip(p2 as int) =~= s.skip(1 + (p2 - pos - 1)));
            match dec_str(buf, p2) {
                Option::None => None,
                Option::Some((sender, p3)) => {
                    proof {
                        lemma_spec_dec_str_wf(s.skip(1 + (p2 - pos - 1)));
                    }
                    assert(buf@.skip(p3 as int) =~= s.skip(1 + (p2 - pos - 1) + (p3 - p2)));
                    match dec_str(buf, p3) {
                        Option::None => None,
                        Option::Some((text, p4)) => {
                            proof {
                                lemma_spec_dec_str_wf(s.skip(1 + (p2 - pos - 1) + (p3 - p2)));
                            }
                            assert(buf@.skip(p4 as int) =~= s.skip(
                                1 + (p2 - pos - 1) + (p3 - p2) + (p4 - p3),
                            ));
                            match dec_u64(buf, p4) {
                                Option::None => None,
                                Option::Some((time, p5)) => Some(
                                    (Message { sender_id: sid, sender, text, time }, p5),
                                ),
                            }
                        },
                    }
                },
            }
        },
    }
}

/// Parses the four fields of a relayed image message.
#[verifier::rlimit(100)]
#[verifier::spinoff_prover]
fn decode_img_fields(buf: &Vec<u8>, pos: usize) -> (r: Option<(ImageMessage, usize)>)
    requires
        pos <= buf@.len(),
    ensures
        r is Some <==> spec_dec_img_fields(buf@.skip(pos as int)) is Some,
        r matches Some((m, np)) ==> pos < np <= buf@.len() && str_encodable(m.sender@)
            && bin_encodable(m.image_bytes@) && spec_dec_img_fields(buf@.skip(pos as int)) == Some(
            (m@, np - pos),
        ),
{
    let ghost s = buf@.skip(pos as int);
    if pos >= buf.len() || buf[pos] != 0x94 {
        assert(s.len() >= 1 ==> s[0] == buf@[pos as int]);
        return None;
    }
    assert(s[0] == 0x94);
    assert(buf@.skip(pos as int + 1) =~= s.skip(1));
    match dec_i64(buf, pos + 1) {
        Option::None => None,
        Option::Some((sid, p2)) => {
            assert(buf@.skip(p2 as int) =~= s.skip(1 + (p2 - pos - 1)));
            match dec_str(buf, p2) {
                Option::None => None,
                Option::Some((sender, p3)) => {
                    proof {
                        lemma_spec_dec_str_wf(s.skip(1 + (p2 - pos - 1)));
                    }
                    assert(buf@.skip(p3 as int) =~= s.skip(1 + (p2 - pos - 1) + (p3 - p2)));
                    match dec_bin(buf, p3) {
                        Option::None => None,
                        Option::Some((img, p4)) => {
                            proof {
                                lemma_spec_dec_bin_wf(s.skip(1 + (p2 - pos - 1) + (p3 - p2)));
                            }
                            assert(buf@.skip(p4 as int) =~= s.skip(
                                1 + (p2 - pos - 1) + (p3 - p2) + (p4 - p3),
                            ));
                            match dec_u64(buf, p4) {
                                Option::None => None,
                                Option::Some((time, p5)) => Some(
                                    (
                                        ImageMessage {
                                            sender_id: sid,
                                            sender,
                                            image_bytes: img,
                                            time,
                                        },
                                        p5,
                                    ),
                                ),
                            }
                        },
                    }
                },
            }
        },
    }
}

/// Parses the user-list payload: an array header and that many names.
#[verifier::rlimit(100)]
#[verifier::spinoff_prover]
fn decode_users_list(buf: &Vec<u8>, pos: usize) -> (r: Option<(Vec<String>, usize)>)
    requires
        pos <= buf@.len(),
    ensures
        ({
            let s = buf@.skip(pos as int);
            match spec_dec_arr(s) {
                Option::None => r is None,
                Option::Some((cnt, hc)) => match spec_dec_strs(s.skip(hc), cnt) {
                    Option::None => r is None,
                    Option::Some((v, hv)) => {
                        &&& r matches Some((items, np))
                        &&& items.deep_view() == v
                        &&& np - pos == hc + hv
                        &&& pos < np <= buf@.len()
                        &&& items@.len() < 0x100000000
                        &&& forall|k: int|
                            0 <= k < items.deep_view().len() ==> str_encodable(
                                #[trigger] items.deep_view()[k],
                            )
                    },
                },
            }
        }),
{
    let ghost s = buf@.skip(pos as int);
    match dec_arr(buf, pos) {
        Option::None => None,
        Option::Some((cnt, p2)) => {
            assert(buf@.skip(p2 as int) =~= s.skip(p2 - pos));
            match decode_str_list(buf, p2, cnt) {
                Option::None => None,
                Option::Some((items, p3)) => {
                    assert(items@.len() == cnt < 0x100000000);
                    Some((items, p3))
                },
            }
        },
    }
}

/// Parses the payload of a clientbound packet once its variant name is
/// known. `pos` stands just past the name.
#[verifier::rlimit(100)]
#[verifier::spinoff_prover]
fn decode_cb_tail(buf: &Vec<u8>, pos: usize, name: &String) -> (r: Option<(
    ClientboundPacket,
    usize,
)>)
    requires
        pos <= buf@.len(),
    ensures
        r is Some <==> spec_dec_cb_tail(name@, buf@.skip(pos as int)) is Some,
        r matches Some((p, np)) ==> pos < np <= buf@.len() && p.wf() && spec_dec_cb_tail(
            name@,
            buf@.skip(pos as int),
        ) == Some((p@, np - pos)),
{
    let ghost rest_s = buf@.skip(pos as int);
    let p1 = pos;
    if name_is(&name, "Pong") {
                if p1 < buf.len() && buf[p1] == 0xc0 {
                    assert(rest_s[0] == 0xc0);
                    Some((ClientboundPacket::Pong, p1 + 1))
                } else {
                    assert(rest_s.len() >= 1 ==> rest_s[0] == buf@[p1 as int]);
                    None
                }
            } else if name_is(&name, "EncryptionResponse") {
                if p1 < buf.len() && buf[p1] == 0x92 {
                    assert(rest_s[0] == 0x92);
                    assert(buf@.skip(p1 as int + 1) =~= rest_s.skip(1));
                    match dec_bin(buf, p1 + 1) {
                        Option::None => None,
                        Option::Some((a, p2)) => {
                            proof {
                                lemma_spec_dec_bin_wf(rest_s.skip(1));
                            }
                            assert(buf@.skip(p2 as int) =~= rest_s.skip(1 + (p2 - p1 - 1)));
                            match dec_bin(buf, p2) {
                                Option::None => None,
                                Option::Some((b2, p3)) => {
                                    proof {
                                        lemma_spec_dec_bin_wf(rest_s.skip(1 + (p2 - p1 - 1)));
                                    }
                                    Some((ClientboundPacket::EncryptionResponse(a, b2), p3))
                                },
                            }
                        },
                    }
                } else {
                    assert(rest_s.len() >= 1 ==> rest_s[0] == buf@[p1 as int]);
                    None
                }
            } else if name_is(&name, "EncryptionAck") {
                if p1 < buf.len() && buf[p1] == 0xc0 {
                    assert(rest_s[0] == 0xc0);
                    Some((ClientboundPacket::EncryptionAck, p1 + 1))
                } else {
                    assert(rest_s.len() >= 1 ==> rest_s[0] == buf@[p1 as int]);
                    None
                }
            } else if name_is(&name, "LoginAck") {
                if p1 < buf.len() && buf[p1] == 0xc0 {
                    assert(rest_s[0] == 0xc0);
                    Some((ClientboundPacket::LoginAck, p1 + 1))
                } else {
                    assert(rest_s.len() >= 1 ==> rest_s[0] == buf@[p1 as int]);
                    None
                }
            } else if name_is(&name, "LoginFailed") {
                match dec_str(buf, p1) {
                    Option::None => None,
                    Option::Some((m, p2)) => {
                        proof {
                            lemma_spec_dec_str_wf(rest_s);
                        }
                        Some((ClientboundPacket::LoginFailed(m), p2))
                    },
                }
            } else if name_is(&name, "UserJoined") {
                match dec_str(buf, p1) {
                    Option::None => None,
                    Option::Some((m, p2)) => {
                        proof {
                            lemma_spec_dec_str_wf(rest_s);
                        }
                        Some((ClientboundPacket::UserJoined(m), p2))
                    },
                }
            } else if name_is(&name, "UserLeft") {
                match dec_str(buf, p1) {
                    Option::None => None,
                    Option::Some((m, p2)) => {
                        proof {
                            lemma_spec_dec_str_wf(rest_s);
                        }
                        Some((ClientboundPacket::UserLeft(m), p2))
                    },
                }
            } else if name_is(&name, "UsersOnline") {
                match decode_users_list(buf, p1) {
                    Option::None => None,
                    Option::Some((items, p3)) => Some(
                        (ClientboundPacket::UsersOnline(items), p3),
                    ),
                }
            } else if name_is(&name, "Message") {
                match decode_msg_fields(buf, p1) {
                    Option::None => None,
                    Option::Some((m, p2)) => Some((ClientboundPacket::Message(m), p2)),
                }
            } else if name_is(&name, "ImageMessage") {
                match decode_img_fields(buf, p1) {
                    Option::None => None,
                    Option::Some((m, p2)) => Some((ClientboundPacket::ImageMessage(m), p2)),
                }
            } else {
                None
            }
}

/// Parses one clientbound packet at `pos`, returning it and the position
/// just past its encoding. Decoding is deterministic: the result mirrors
/// the spec-level decoder exactly.
pub fn decode_clientbound(buf: &Vec<u8>, pos: usize) -> (r: Option<(ClientboundPacket, usize)>)
    requires
        pos <= buf@.len(),
    ensures
        r is Some <==> spec_dec_cb(buf@.skip(pos as int)) is Some,
        r matches Some((p, np)) ==> pos < np <= buf@.len() && p.wf() && spec_dec_cb(
            buf@.skip(pos as int),
        ) == Some((p@, np - pos)),
{
    let ghost s = buf@.skip(pos as int);
    if pos >= buf.len() {
        return None;
    }
    if buf[pos] != 0x81 {
        assert(s[0] != 0x81);
        return None;
    }
    assert(s[0] == 0x81);
    assert(buf@.skip(pos as int + 1) =~= s.skip(1));
    match dec_str(buf, pos + 1) {
        Option::None => None,
        Option::Some((name, p1)) => {
            assert(buf@.skip(p1 as int) =~= s.skip(p1 - pos));
            match decode_cb_tail(buf, p1, &name) {
                Option::None => None,
                Option::Some((p, np)) => Some((p, np)),
            }
        },
    }
}



// ---------------------------------------------------------------------------
// Duplication
// ---------------------------------------------------------------------------
/// Copies a byte vector.
fn copy_bytes(v: &Vec<u8>) -> (r: Vec<u8>)
    ensures
        r@ == v@,
{
    vstd::slice::slice_to_vec(v.as_slice())
}

/// Copies a list of strings.
fn copy_strings(v: &Vec<String>) -> (r: Vec<String>)
    ensures
        r.deep_view() == v.deep_view(),
{
    let n = v.len();
    let mut r: Vec<String> = Vec::new();
    let mut i: usize = 0;
    while i < n
        invariant
            0 <= i <= n == v@.len(),
            r@.len() == i,
            forall|k: int| 0 <= k < i ==> #[trigger] r.deep_view()[k] == v.deep_view()[k],
        decreases n - i,
    {
        let ghost before = r.deep_view();
        r.push(v[i].clone());
        proof {
            assert(r.deep_view() =~= before.push(v@[i as int]@));
        }
        i += 1;
    }
    assert(r.deep_view() =~= v.deep_view());
    r
}

impl Message {
    /// A field-for-field copy.
    pub fn duplicate(&self) -> (r: Message)
        ensures
            r == *self,
    {
        Message {
            sender_id: self.sender_id,
            sender: self.sender.clone(),
            text: self.text.clone(),
            time: self.time,
        }
    }
}

impl ImageMessage {
    /// A copy carrying the same view.
    pub fn duplicate(&self) -> (r: ImageMessage)
        ensures
            r@ == self@,
    {
        ImageMessage {
            sender_id: self.sender_id,
            sender: self.sender.clone(),
            image_bytes: copy_bytes(&self.image_bytes),
            time: self.time,
        }
    }
}

impl ClientboundPacket {
    /// A copy carrying the same view.
    pub fn duplicate(&self) -> (r: ClientboundPacket)
        ensures
            r@ == self@,
    {
        match self {
            ClientboundPacket::Pong => ClientboundPacket::Pong,
            ClientboundPacket::EncryptionResponse(a, b) => ClientboundPacket::EncryptionResponse(
                copy_bytes(a),
                copy_bytes(b),
            ),
            ClientboundPacket::EncryptionAck => ClientboundPacket::EncryptionAck,
            ClientboundPacket::LoginAck => ClientboundPacket::LoginAck,
            ClientboundPacket::LoginFailed(m) => ClientboundPacket::LoginFailed(m.clone()),
            ClientboundPacket::UserJoined(u) => ClientboundPacket::UserJoined(u.clone()),
            ClientboundPacket::UserLeft(u) => ClientboundPacket::UserLeft(u.clone()),
            ClientboundPacket::UsersOnline(v) => ClientboundPacket::UsersOnline(copy_strings(v)),
            ClientboundPacket::Message(m) => ClientboundPacket::Message(m.duplicate()),
            ClientboundPacket::ImageMessage(m) => ClientboundPacket::ImageMessage(m.duplicate()),
        }
    }
}

} // verus!
