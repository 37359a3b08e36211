//! Reader-side decision logic of a connection: splitting a console command
//! into verb and argument, settling what a command does once the sender's
//! permissions are known, and replaying fetched history to the writer.

use crate::commands::{ChannelCommand, ConnectionCommand};
use crate::crypto::{nonce_of, seal_of, NonceGen};
use crate::frame::{decrypt_frame, encrypt_frame, spec_frame, FrameError};
use crate::msgpack::from_be32;
use crate::packets::{
    decode_clientbound, decode_serverbound, encode_clientbound, encode_serverbound, spec_dec_cb,
    spec_dec_sb, spec_enc_cb, spec_enc_sb, ClientboundPacket, ServerboundPacket,
};
use vstd::prelude::*;
use vstd::string::StrSliceExecFns;

verus! {

/// The index of the first space, or the length when there is none.
pub open spec fn first_space_at(s: Seq<char>) -> int
    decreases s.len(),
{
    if s.len() == 0 {
        0
    } else if s[0] == ' ' {
        0
    } else {
        1 + first_space_at(s.drop_first())
    }
}

/// The first space-separated token.
pub open spec fn token_of(s: Seq<char>) -> Seq<char> {
    s.take(first_space_at(s))
}

/// What follows the first space, where there is one.
pub open spec fn rest_of(s: Seq<char>) -> Option<Seq<char>> {
    if first_space_at(s) == s.len() {
        None
    } else {
        Some(s.skip(first_space_at(s) + 1))
    }
}

/// A scan that saw no space up to `i` pins the first space down.
proof fn lemma_first_space(s: Seq<char>, i: int)
    requires
        0 <= i <= s.len(),
        forall|k: int| 0 <= k < i ==> s[k] != ' ',
        i < s.len() ==> s[i] == ' ',
    ensures
        first_space_at(s) == i,
    decreases i,
{
    if s.len() == 0 {
    } else if s[0] == ' ' {
    } else {
        assert(i >= 1);
        lemma_first_space(s.drop_first(), i - 1);
    }
}

/// Splits a command line into its verb and, where present, what follows the
/// first space.
pub fn parse_command(s: &str) -> (r: (String, Option<String>))
    ensures
        r.0@ == token_of(s@),
        r.1 matches Some(rest) ==> rest_of(s@) == Some(rest@),
        r.1 is None <==> rest_of(s@) is None,
{
    let len = s.unicode_len();
    let mut i: usize = 0;
    while i < len
        invariant
            0 <= i <= len == s@.len(),
            forall|k: int| 0 <= k < i ==> s@[k] != ' ',
        decreases len - i,
    {
        if s.get_char(i) == ' ' {
            proof {
                lemma_first_space(s@, i as int);
            }
            let verb = s.substring_char(0, i).to_owned();
            let rest = s.substring_char(i + 1, len).to_owned();
            assert(verb@ =~= token_of(s@));
            assert(rest@ =~= rest_of(s@)->0);
            return (verb, Some(rest));
        }
        i += 1;
    }
    proof {
        lemma_first_space(s@, len as int);
    }
    let verb = s.substring_char(0, len).to_owned();
    assert(verb@ =~= token_of(s@));
    (verb, None)
}

/// Relies on String::push_str: it appends exactly the given characters.
#[verifier::external_body]
fn string_push_str(dst: &mut String, s: &str)
    ensures
        final(dst)@ == old(dst)@ + s@,
{
    dst.push_str(s)
}

/// Joins two pieces of text.
pub fn concat_str(a: &str, b: &str) -> (r: String)
    ensures
        r@ == a@ + b@,
{
    let mut r: String = a.to_owned();
    string_push_str(&mut r, b);
    r
}

/// What a parsed console command amounts to, once the sender's operator
/// right is known: possibly a command for the broker, and possibly a
/// server-originated reply to the sender alone.
pub struct CommandAction {
    pub forward: Option<ChannelCommand>,
    pub respond: Option<String>,
}

/// Settles an operator-gated command: forwarded with the done-message when
/// permitted, refused otherwise.
fn gated(operator: bool, cmd: ChannelCommand, done: String) -> (r: CommandAction)
    ensures
        operator ==> r.forward == Some(cmd) && r.respond == Some(done),
        !operator ==> r.forward is None && (r.respond matches Some(m) && m@
            == "Not permitted."@),
{
    if operator {
        CommandAction { forward: Some(cmd), respond: Some(done) }
    } else {
        CommandAction { forward: None, respond: Some("Not permitted.".to_owned()) }
    }
}

/// The reply when a command that needs a target got none.
fn no_target() -> (r: CommandAction)
    ensures
        r.forward is None,
        r.respond matches Some(m) && m@ == "No target provided"@,
{
    CommandAction { forward: None, respond: Some("No target provided".to_owned()) }
}

/// Settles an operator-gated on/off toggle.
fn gated_switch(
    arg: Option<String>,
    operator: bool,
    cmd_on: ChannelCommand,
    cmd_off: ChannelCommand,
    done_on: &str,
    done_off: &str,
) -> (r: CommandAction)
    ensures
        arg is None ==> r.forward is None && (r.respond matches Some(m) && m@
            == "No argument provided"@),
        (arg matches Some(a) && (a@ == "on"@ || a@ == "true"@)) && operator ==> r.forward == Some(
            cmd_on,
        ) && (r.respond matches Some(m) && m@ == done_on@),
        (arg matches Some(a) && (a@ == "off"@ || a@ == "false"@)) && operator ==> r.forward
            == Some(cmd_off) && (r.respond matches Some(m) && m@ == done_off@),
        (arg matches Some(a) && !(a@ == "on"@ || a@ == "true"@) && !(a@ == "off"@ || a@
            == "false"@)) ==> r.forward is None && r.respond is Some,
        (arg is Some && !operator) ==> r.forward is None,
{
    proof {
        reveal_strlit("on");
        reveal_strlit("off");
        reveal_strlit("true");
        reveal_strlit("false");
        assert("on"@.len() == 2 && "off"@.len() == 3 && "true"@.len() == 4 && "false"@.len()
            == 5);
    }
    match arg {
        Option::Some(a) => {
            let on = crate::utils::str_eq(a.as_str(), "on") || crate::utils::str_eq(
                a.as_str(),
                "true",
            );
            let off = crate::utils::str_eq(a.as_str(), "off") || crate::utils::str_eq(
                a.as_str(),
                "false",
            );
            if on {
                if operator {
                    CommandAction { forward: Some(cmd_on), respond: Some(done_on.to_owned()) }
                } else {
                    CommandAction { forward: None, respond: Some("Not permitted.".to_owned()) }
                }
            } else if off {
                if operator {
                    CommandAction { forward: Some(cmd_off), respond: Some(done_off.to_owned()) }
                } else {
                    CommandAction { forward: None, respond: Some("Not permitted.".to_owned()) }
                }
            } else {
                let mut m: String = "Invalid argument: ".to_owned();
                string_push_str(&mut m, a.as_str());
                string_push_str(&mut m, ".\nExpected \"on\"/\"off\"");
                CommandAction { forward: None, respond: Some(m) }
            }
        },
        Option::None => {
            CommandAction { forward: None, respond: Some("No argument provided".to_owned()) }
        },
    }
}

/// Settles a console command from a logged-in user at `addr`, given whether
/// that user is an operator. The verb is the text up to the first space and
/// the argument what follows it; `list` is open to everyone, the moderation
/// verbs demand operator rights, and an unknown verb earns only a reply.
pub fn command_action(command: &str, addr: u64, operator: bool) -> (r: CommandAction)
    ensures
        ({
            let verb = token_of(command@);
            let arg = rest_of(command@);
            &&& (verb == "list"@ ==> r.forward == Some(ChannelCommand::UsersQuery(addr))
                && r.respond is None)
            &&& (verb == "kick"@ && arg is Some && operator ==> (r.forward matches Some(
                ChannelCommand::KickUser(t),
            ) && t@ == arg->0) && (r.respond matches Some(m) && m@ == arg->0 + " kicked."@))
            &&& (verb == "kick"@ && arg is Some && !operator ==> r.forward is None && (
            r.respond matches Some(m) && m@ == "Not permitted."@))
            &&& (verb == "ban"@ && arg is Some && operator ==> (r.forward matches Some(
                ChannelCommand::BanUser(t, sw),
            ) && t@ == arg->0 && sw) && (r.respond matches Some(m) && m@ == arg->0
                + " banned."@))
            &&& (verb == "unban"@ && arg is Some && operator ==> (r.forward matches Some(
                ChannelCommand::BanUser(t, sw),
            ) && t@ == arg->0 && !sw) && (r.respond matches Some(m) && m@ == arg->0
                + " unbanned."@))
            &&& (verb == "whitelist"@ && arg is Some && operator ==> (r.forward matches Some(
                ChannelCommand::WhitelistUser(t, sw),
            ) && t@ == arg->0 && sw) && (r.respond matches Some(m) && m@ == arg->0
                + " whitelisted."@))
            &&& (verb == "unwhitelist"@ && arg is Some && operator ==> (r.forward matches Some(
                ChannelCommand::WhitelistUser(t, sw),
            ) && t@ == arg->0 && !sw) && (r.respond matches Some(m) && m@ == arg->0
                + " unwhitelisted."@))
            &&& (verb == "set_whitelist"@ && operator && (arg matches Some(a) && (a == "on"@ || a
                == "true"@)) ==> r.forward == Some(ChannelCommand::SetWhitelist(true)))
            &&& (verb == "set_whitelist"@ && operator && (arg matches Some(a) && (a == "off"@
                || a == "false"@)) ==> r.forward == Some(ChannelCommand::SetWhitelist(false)))
            &&& (verb == "set_allow_new_accounts"@ && operator && (arg matches Some(a) && (a
                == "on"@ || a == "true"@)) ==> r.forward == Some(
                ChannelCommand::SetAllowNewAccounts(true),
            ))
            &&& (verb == "set_allow_new_accounts"@ && operator && (arg matches Some(a) && (a
                == "off"@ || a == "false"@)) ==> r.forward == Some(
                ChannelCommand::SetAllowNewAccounts(false),
            ))
            &&& (!operator && verb != "list"@ ==> r.forward is None)
            &&& (verb != "list"@ && verb != "kick"@ && verb != "ban"@ && verb != "unban"@ && verb
                != "whitelist"@ && verb != "unwhitelist"@ && verb != "set_whitelist"@ && verb
                != "set_allow_new_accounts"@ ==> r.forward is None && (r.respond matches Some(m)
                && m@ == "Unknown command: "@ + verb))
        }),
{
    proof {
        reveal_strlit("list");
        reveal_strlit("kick");
        reveal_strlit("ban");
        reveal_strlit("unban");
        reveal_strlit("whitelist");
        reveal_strlit("unwhitelist");
        reveal_strlit("set_whitelist");
        reveal_strlit("set_allow_new_accounts");
        assert("list"@.len() == 4 && "kick"@.len() == 4 && "ban"@.len() == 3 && "unban"@.len()
            == 5 && "whitelist"@.len() == 9 && "unwhitelist"@.len() == 11
            && "set_whitelist"@.len() == 13 && "set_allow_new_accounts"@.len() == 22);
        assert("list"@[0] == 'l' && "kick"@[0] == 'k');
        assert("list"@ != "kick"@);
    }
    let (verb, arg) = parse_command(command);
    if crate::utils::str_eq(verb.as_str(), "list") {
        CommandAction { forward: Some(ChannelCommand::UsersQuery(addr)), respond: None }
    } else if crate::utils::str_eq(verb.as_str(), "kick") {
        match arg {
            Option::Some(t) => {
                let done = concat_str(t.as_str(), " kicked.");
                gated(operator, ChannelCommand::KickUser(t), done)
            },
            Option::None => no_target(),
        }
    } else if crate::utils::str_eq(verb.as_str(), "ban") {
        match arg {
            Option::Some(t) => {
                let done = concat_str(t.as_str(), " banned.");
                gated(operator, ChannelCommand::BanUser(t, true), done)
            },
            Option::None => no_target(),
        }
    } else if crate::utils::str_eq(verb.as_str(), "unban") {
        match arg {
            Option::Some(t) => {
                let done = concat_str(t.as_str(), " unbanned.");
                gated(operator, ChannelCommand::BanUser(t, false), done)
            },
            Option::None => no_target(),
        }
    } else if crate::utils::str_eq(verb.as_str(), "whitelist") {
        match arg {
            Option::Some(t) => {
                let done = concat_str(t.as_str(), " whitelisted.");
                gated(operator, ChannelCommand::WhitelistUser(t, true), done)
            },
            Option::None => no_target(),
        }
    } else if crate::utils::str_eq(verb.as_str(), "unwhitelist") {
        match arg {
            Option::Some(t) => {
                let done = concat_str(t.as_str(), " unwhitelisted.");
                gated(operator, ChannelCommand::WhitelistUser(t, false), done)
            },
            Option::None => no_target(),
        }
    } else if crate::utils::str_eq(verb.as_str(), "set_whitelist") {
        gated_switch(
            arg,
            operator,
            ChannelCommand::SetWhitelist(true),
            ChannelCommand::SetWhitelist(false),
            "Whitelist on.",
            "Whitelist off.",
        )
    } else if crate::utils::str_eq(verb.as_str(), "set_allow_new_accounts") {
        gated_switch(
            arg,
            operator,
            ChannelCommand::SetAllowNewAccounts(true),
            ChannelCommand::SetAllowNewAccounts(false),
            "Allow new accounts on.",
            "Allow new accounts off.",
        )
    } else {
        let m = concat_str("Unknown command: ", verb.as_str());
        CommandAction { forward: None, respond: Some(m) }
    }
}

/// Settles the reader's reaction to the broker's login reply: on success,
/// the new identity, a LoginAck for the writer, and a UserJoined
/// announcement for the broker; on failure, the reason for the writer and
/// then a close, with no identity and no announcement.
pub fn login_reply_actions(result: Result<(i64, String), String>) -> (r: (
    Option<(i64, String)>,
    Vec<ConnectionCommand>,
    Option<ChannelCommand>,
))
    ensures
        result matches Ok((id, u)) ==> ({
            &&& r.0 matches Some((rid, ru)) && rid == id && ru@ == u@
            &&& r.1@.len() == 1
            &&& (r.1@[0] matches ConnectionCommand::Write(p) && p@
                is LoginAck)
            &&& (r.2 matches Some(ChannelCommand::UserJoined(n)) && n@ == u@)
        }),
        result matches Err(m) ==> ({
            &&& r.0 is None
            &&& r.2 is None
            &&& r.1@.len() == 2
            &&& (r.1@[0] matches ConnectionCommand::Write(p) && p@ matches
                crate::packets::SpecClientboundPacket::LoginFailed(t) && t == m@)
            &&& r.1@[1] is Close
        }),
{
    match result {
        Result::Ok((id, u)) => {
            let mut writes: Vec<ConnectionCommand> = Vec::new();
            writes.push(ConnectionCommand::Write(ClientboundPacket::LoginAck));
            let announce = ChannelCommand::UserJoined(u.clone());
            (Some((id, u)), writes, Some(announce))
        },
        Result::Err(m) => {
            let mut writes: Vec<ConnectionCommand> = Vec::new();
            writes.push(ConnectionCommand::Write(ClientboundPacket::LoginFailed(m)));
            writes.push(ConnectionCommand::Close);
            (None, writes, None)
        },
    }
}

/// Turns the broker's newest-first history reply into writer commands in
/// reverse, so the client receives the messages oldest first.
pub fn replay_messages(messages: Vec<ClientboundPacket>) -> (r: Vec<ConnectionCommand>)
    ensures
        r@.len() == messages@.len(),
        forall|i: int|
            0 <= i < r@.len() ==> (#[trigger] r@[i] matches ConnectionCommand::Write(p) && p@
                == messages@[messages@.len() - 1 - i]@),
{
    let ghost orig = messages@;
    let mut messages = messages;
    let mut r: Vec<ConnectionCommand> = Vec::new();
    while messages.len() > 0
        invariant
            messages@.len() + r@.len() == orig.len(),
            messages@ == orig.take(messages@.len() as int),
            forall|i: int|
                0 <= i < r@.len() ==> (#[trigger] r@[i] matches ConnectionCommand::Write(p) && p@
                    == orig[orig.len() - 1 - i]@),
        decreases messages@.len(),
    {
        let p = match messages.pop() {
            Option::Some(p) => p,
            Option::None => vstd::pervasive::unreached(),
        };
        assert(p == orig[messages@.len() as int]);
        r.push(ConnectionCommand::Write(p));
        assert(messages@ =~= orig.take(messages@.len() as int));
    }
    r
}


// ---------------------------------------------------------------------------
// The byte-level step of the writer and reader halves
// ---------------------------------------------------------------------------
/// Produces the wire bytes for one clientbound packet: the bare encoding
/// before the handshake, and a sealed length-prefixed frame under the
/// session secret after it, drawing exactly one nonce.
pub fn write_packet_clientbound(
    p: &ClientboundPacket,
    secret: &Option<Vec<u8>>,
    gen: &mut Option<NonceGen>,
) -> (r: Vec<u8>)
    requires
        p.wf(),
        spec_enc_cb(p@).len() + 20 <= u32::MAX,
        secret matches Some(s) ==> s@.len() == 32 && (*old(gen) matches Some(g) && g.drawn()
            < u64::MAX),
    ensures
        secret is None ==> r@ == spec_enc_cb(p@) && *final(gen) == *old(gen),
        secret matches Some(s) ==> (*final(gen) matches Some(g2) && *old(gen) matches Some(g1)
            && g2.seed() == g1.seed() && g2.drawn() == g1.drawn() + 1 && r@ == spec_frame(
            s@,
            nonce_of(g1.seed(), g1.drawn() as int),
            spec_enc_cb(p@),
        )),
{
    let body = encode_clientbound(p);
    match secret {
        Option::None => body,
        Option::Some(s) => {
            let g = match gen {
                Option::Some(g) => g,
                Option::None => vstd::pervasive::unreached(),
            };
            let nonce = g.next();
            encrypt_frame(body.as_slice(), s.as_slice(), nonce.as_slice())
        },
    }
}

/// Produces the wire bytes for one serverbound packet, in the same way.
pub fn write_packet_serverbound(
    p: &ServerboundPacket,
    secret: &Option<Vec<u8>>,
    gen: &mut Option<NonceGen>,
) -> (r: Vec<u8>)
    requires
        p.wf(),
        spec_enc_sb(p@).len() + 20 <= u32::MAX,
        secret matches Some(s) ==> s@.len() == 32 && (*old(gen) matches Some(g) && g.drawn()
            < u64::MAX),
    ensures
        secret is None ==> r@ == spec_enc_sb(p@) && *final(gen) == *old(gen),
        secret matches Some(s) ==> (*final(gen) matches Some(g2) && *old(gen) matches Some(g1)
            && g2.seed() == g1.seed() && g2.drawn() == g1.drawn() + 1 && r@ == spec_frame(
            s@,
            nonce_of(g1.seed(), g1.drawn() as int),
            spec_enc_sb(p@),
        )),
{
    let body = encode_serverbound(p);
    match secret {
        Option::None => body,
        Option::Some(s) => {
            let g = match gen {
                Option::Some(g) => g,
                Option::None => vstd::pervasive::unreached(),
            };
            let nonce = g.next();
            encrypt_frame(body.as_slice(), s.as_slice(), nonce.as_slice())
        },
    }
}

/// Whether a clientbound packet fits the wire format: every string and
/// byte field, and the user list, below the 32-bit length bound.
fn packet_fits_cb(p: &ClientboundPacket) -> (r: bool)
    ensures
        r == p.wf(),
{
    match p {
        ClientboundPacket::EncryptionResponse(a, b) => (a.len() as u64) < 0x100000000 && (
        b.len() as u64) < 0x100000000,
        ClientboundPacket::LoginFailed(m) => (m.as_str().as_bytes().len() as u64) < 0x100000000,
        ClientboundPacket::UserJoined(u) => (u.as_str().as_bytes().len() as u64) < 0x100000000,
        ClientboundPacket::UserLeft(u) => (u.as_str().as_bytes().len() as u64) < 0x100000000,
        ClientboundPacket::UsersOnline(v) => {
            assert(v.deep_view().len() == v@.len());
            if !((v.len() as u64) < 0x100000000) {
                return false;
            }
            let n = v.len();
            let mut i: usize = 0;
            while i < n
                invariant
                    0 <= i <= n == v@.len(),
                    p@ == crate::packets::SpecClientboundPacket::UsersOnline(v.deep_view()),
                    v.deep_view().len() == v@.len(),
                    forall|k: int|
                        0 <= k < i ==> crate::msgpack::str_encodable(#[trigger] v.deep_view()[k]),
                decreases n - i,
            {
                proof {
                    assert(v.deep_view()[i as int] == v@[i as int].deep_view());
                    assert(v@[i as int].deep_view() == v@[i as int]@);
                }
                if !((v[i].as_str().as_bytes().len() as u64) < 0x100000000) {
                    assert(!crate::msgpack::str_encodable(v.deep_view()[i as int]));
                    return false;
                }
                assert(crate::msgpack::str_encodable(v.deep_view()[i as int]));
                i += 1;
            }
            true
        },
        ClientboundPacket::Message(m) => (m.sender.as_str().as_bytes().len() as u64)
            < 0x100000000 && (m.text.as_str().as_bytes().len() as u64) < 0x100000000,
        ClientboundPacket::ImageMessage(m) => (m.sender.as_str().as_bytes().len() as u64)
            < 0x100000000 && (m.image_bytes.len() as u64) < 0x100000000,
        _ => true,
    }
}

/// Like `write_packet_clientbound`, but first checks what that function
/// requires of the packet: `None` exactly when the packet does not fit the
/// wire format, in which case no nonce is drawn.
pub fn checked_write_packet_clientbound(
    p: &ClientboundPacket,
    secret: &Option<Vec<u8>>,
    gen: &mut Option<NonceGen>,
) -> (r: Option<Vec<u8>>)
    requires
        secret matches Some(s) ==> s@.len() == 32 && (*old(gen) matches Some(g) && g.drawn()
            < u64::MAX),
    ensures
        r is Some <==> p.wf() && spec_enc_cb(p@).len() + 20 <= u32::MAX,
        r is None ==> *final(gen) == *old(gen),
        secret is None ==> *final(gen) == *old(gen) && (r matches Some(b) ==> b@ == spec_enc_cb(
            p@,
        )),
        secret matches Some(s) ==> (r matches Some(b) ==> (*final(gen) matches Some(g2) && *old(
            gen,
        ) matches Some(g1) && g2.seed() == g1.seed() && g2.drawn() == g1.drawn() + 1 && b@
            == spec_frame(s@, nonce_of(g1.seed(), g1.drawn() as int), spec_enc_cb(p@)))),
{
    if !packet_fits_cb(p) {
        return None;
    }
    let body = encode_clientbound(p);
    if body.len() as u64 > u32::MAX as u64 - 20 {
        return None;
    }
    match secret {
        Option::None => Some(body),
        Option::Some(s) => {
            let g = match gen {
                Option::Some(g) => g,
                Option::None => vstd::pervasive::unreached(),
            };
            let nonce = g.next();
            Some(encrypt_frame(body.as_slice(), s.as_slice(), nonce.as_slice()))
        },
    }
}

/// One decryption step over the inbound buffer.
pub enum FrameStep {
    /// The length prefix, or the frame it announces, is not complete yet.
    NeedMore,
    /// One frame decrypted: its plaintext, and the bytes consumed.
    Plain(Vec<u8>, usize),
    /// A complete frame failed to authenticate: fatal for the connection.
    Corrupt,
}

/// Tries to take one sealed frame off the head of the buffer. A nonce is
/// drawn only once a complete frame is present, so waiting for more input
/// never desynchronizes the stream.
fn read_frame_step(buffer: &Vec<u8>, s: &Vec<u8>, gen: &mut NonceGen) -> (r: FrameStep)
    requires
        s@.len() == 32,
        old(gen).drawn() < u64::MAX,
    ensures
        buffer@.len() < 4 || from_be32(buffer@.subrange(0, 4)) > buffer@.len() - 4 ==> r
            is NeedMore && *final(gen) == *old(gen),
        buffer@.len() >= 4 && from_be32(buffer@.subrange(0, 4)) <= buffer@.len() - 4 ==> ({
            let n = from_be32(buffer@.subrange(0, 4));
            let cipher = buffer@.subrange(4, 4 + n);
            let nonce = nonce_of(old(gen).seed(), old(gen).drawn() as int);
            &&& final(gen).seed() == old(gen).seed()
            &&& final(gen).drawn() == old(gen).drawn() + 1
            &&& ((forall|q: Seq<u8>| cipher != seal_of(s@, nonce, q)) <==> r is Corrupt)
            &&& (forall|q: Seq<u8>|
                cipher == seal_of(s@, nonce, q) ==> (r matches FrameStep::Plain(m, c) && m@ == q
                    && c == 4 + n))
        }),
{
    if buffer.len() < 4 {
        return FrameStep::NeedMore;
    }
    let n = crate::frame::read_be_u32(buffer.as_slice()) as usize;
    if n > buffer.len() - 4 {
        return FrameStep::NeedMore;
    }
    let nonce = gen.next();
    match decrypt_frame(buffer, s.as_slice(), nonce.as_slice()) {
        Result::Ok((plain, consumed)) => FrameStep::Plain(plain, consumed),
        Result::Err(FrameError::BadTag) => FrameStep::Corrupt,
        Result::Err(_) => vstd::pervasive::unreached(),
    }
}

/// The outcome of one read step: wait for more bytes, one decoded packet
/// with the bytes it consumed, or a fatal framing failure.
pub enum ReadOutcome<P> {
    NeedMore,
    Packet(P, usize),
    Corrupt,
}

/// Tries to take one serverbound packet off the head of the buffer: bare
/// before the handshake, sealed frames after it. In plaintext mode anything
/// undecodable merely waits for more input; in ciphertext mode a complete
/// frame that fails to authenticate or decode is fatal.
pub fn read_packet_serverbound(
    buffer: &Vec<u8>,
    secret: &Option<Vec<u8>>,
    gen: &mut Option<NonceGen>,
) -> (r: ReadOutcome<ServerboundPacket>)
    requires
        secret matches Some(s) ==> s@.len() == 32 && (*old(gen) matches Some(g) && g.drawn()
            < u64::MAX),
    ensures
        secret is None ==> *final(gen) == *old(gen) && (match spec_dec_sb(buffer@) {
            Option::Some((p, n)) => r matches ReadOutcome::Packet(q, c) && q@ == p && c == n
                && q.wf(),
            Option::None => r is NeedMore,
        }),
        secret matches Some(s) ==> ({
            let g1 = (*old(gen))->0;
            if buffer@.len() < 4 || from_be32(buffer@.subrange(0, 4)) > buffer@.len() - 4 {
                r is NeedMore && *final(gen) == *old(gen)
            } else {
                let n = from_be32(buffer@.subrange(0, 4));
                let cipher = buffer@.subrange(4, 4 + n);
                let nonce = nonce_of(g1.seed(), g1.drawn() as int);
                &&& (*final(gen) matches Some(g2) && g2.seed() == g1.seed() && g2.drawn()
                    == g1.drawn() + 1)
                &&& ((forall|q: Seq<u8>| cipher != seal_of(s@, nonce, q)) ==> r is Corrupt)
                &&& (forall|q: Seq<u8>|
                    cipher == seal_of(s@, nonce, q) ==> (match spec_dec_sb(q) {
                        Option::Some((p, used)) => r matches ReadOutcome::Packet(pp, c) && pp@
                            == p && c == 4 + n && pp.wf(),
                        Option::None => r is Corrupt,
                    }))
            }
        }),
{
    match secret {
        Option::None => {
            match decode_serverbound(buffer, 0) {
                Option::Some((p, n)) => {
                    assert(buffer@.skip(0) =~= buffer@);
                    ReadOutcome::Packet(p, n)
                },
                Option::None => {
                    assert(buffer@.skip(0) =~= buffer@);
                    ReadOutcome::NeedMore
                },
            }
        },
        Option::Some(s) => {
            let g = match gen {
                Option::Some(g) => g,
                Option::None => vstd::pervasive::unreached(),
            };
            match read_frame_step(buffer, s, g) {
                FrameStep::NeedMore => ReadOutcome::NeedMore,
                FrameStep::Corrupt => ReadOutcome::Corrupt,
                FrameStep::Plain(plain, consumed) => {
                    match decode_serverbound(&plain, 0) {
                        Option::Some((p, _)) => {
                            assert(plain@.skip(0) =~= plain@);
                            ReadOutcome::Packet(p, consumed)
                        },
                        Option::None => {
                            assert(plain@.skip(0) =~= plain@);
                            ReadOutcome::Corrupt
                        },
                    }
                },
            }
        },
    }
}

/// Tries to take one clientbound packet off the head of the buffer, in the
/// same way.
pub fn read_packet_clientbound(
    buffer: &Vec<u8>,
    secret: &Option<Vec<u8>>,
    gen: &mut Option<NonceGen>,
) -> (r: ReadOutcome<ClientboundPacket>)
    requires
        secret matches Some(s) ==> s@.len() == 32 && (*old(gen) matches Some(g) && g.drawn()
            < u64::MAX),
    ensures
        secret is None ==> *final(gen) == *old(gen) && (match spec_dec_cb(buffer@) {
            Option::Some((p, n)) => r matches ReadOutcome::Packet(q, c) && q@ == p && c == n
                && q.wf(),
            Option::None => r is NeedMore,
        }),
        secret matches Some(s) ==> ({
            let g1 = (*old(gen))->0;
            if buffer@.len() < 4 || from_be32(buffer@.subrange(0, 4)) > buffer@.len() - 4 {
                r is NeedMore && *final(gen) == *old(gen)
            } else {
                let n = from_be32(buffer@.subrange(0, 4));
                let cipher = buffer@.subrange(4, 4 + n);
                let nonce = nonce_of(g1.seed(), g1.drawn() as int);
                &&& (*final(gen) matches Some(g2) && g2.seed() == g1.seed() && g2.drawn()
                    == g1.drawn() + 1)
                &&& ((forall|q: Seq<u8>| cipher != seal_of(s@, nonce, q)) ==> r is Corrupt)
                &&& (forall|q: Seq<u8>|
                    cipher == seal_of(s@, nonce, q) ==> (match spec_dec_cb(q) {
                        Option::Some((p, used)) => r matches ReadOutcome::Packet(pp, c) && pp@
                            == p && c == 4 + n && pp.wf(),
                        Option::None => r is Corrupt,
                    }))
            }
        }),
{
    match secret {
        Option::None => {
            match decode_clientbound(buffer, 0) {
                Option::Some((p, n)) => {
                    assert(buffer@.skip(0) =~= buffer@);
                    ReadOutcome::Packet(p, n)
                },
                Option::None => {
                    assert(buffer@.skip(0) =~= buffer@);
                    ReadOutcome::NeedMore
                },
            }
        },
        Option::Some(s) => {
            let g = match gen {
                Option::Some(g) => g,
                Option::None => vstd::pervasive::unreached(),
            };
            match read_frame_step(buffer, s, g) {
                FrameStep::NeedMore => ReadOutcome::NeedMore,
                FrameStep::Corrupt => ReadOutcome::Corrupt,
                FrameStep::Plain(plain, consumed) => {
                    match decode_clientbound(&plain, 0) {
                        Option::Some((p, _)) => {
                            assert(plain@.skip(0) =~= plain@);
                            ReadOutcome::Packet(p, consumed)
                        },
                        Option::None => {
                            assert(plain@.skip(0) =~= plain@);
                            ReadOutcome::Corrupt
                        },
                    }
                },
            }
        },
    }
}

} // verus!
