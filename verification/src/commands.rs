//! Commands used internally for communication between connections and the
//! central broker. Here they are plain data: the runtime that owns the
//! queues routes replies by the connection identifier they carry.

use crate::packets::ClientboundPacket;
use vstd::prelude::*;

verus! {

/// What a user may do, as derived from configuration and the account row.
#[derive(Debug, PartialEq, Eq, Structural, Clone, Copy)]
pub struct UserPermissions {
    pub operator: bool,
    pub whitelisted: bool,
    pub banned: bool,
}

impl Default for UserPermissions {
    /// No permissions at all: the default for unknown accounts.
    fn default() -> (r: Self)
        ensures
            !r.operator && !r.whitelisted && !r.banned,
    {
        UserPermissions { operator: false, whitelisted: false, banned: false }
    }
}

/// Commands a connection's writer half consumes.
#[derive(Debug)]
pub enum ConnectionCommand {
    Write(ClientboundPacket),
    SetSecret(Option<Vec<u8>>),
    Close,
}

/// The outcome of a login attempt: the account's identifier and canonical
/// name, or the reason the attempt was refused.
pub type LoginResult = Result<(i64, String), String>;

/// Commands the central broker consumes. Each carries the identifier of the
/// connection it concerns where a reply or a direct write is due.
#[derive(Debug)]
pub enum ChannelCommand {
    Close,
    Write(ClientboundPacket),
    EncryptionRequest { addr: u64 },
    EncryptionConfirm { addr: u64, enc_secret: Vec<u8>, enc_token: Vec<u8>, expected_token: Vec<u8> },
    LoginAttempt { addr: u64, username: String, password: String },
    UserJoined(String),
    UserLeft(u64),
    UsersQuery(u64),
    UsersQueryTui,
    FetchMessages { addr: u64, offset: i64, count: i64 },
    CheckPermissions { addr: u64, username: String },
    KickUser(String),
    BanUser(String, bool),
    WhitelistUser(String, bool),
    SetWhitelist(bool),
    SetAllowNewAccounts(bool),
}

/// What the broker asks its surroundings to do in response to a command:
/// deliver writer commands, answer the requester, or persist configuration.
pub enum ChannelEffect {
    /// Enqueue a command on the writer belonging to `addr`.
    Send { addr: u64, command: ConnectionCommand },
    /// Answer an EncryptionRequest with the challenge token.
    ReplyToken { addr: u64, token: Vec<u8> },
    /// Answer an EncryptionConfirm: the session secret, or refusal.
    ReplyConfirm { addr: u64, secret: Option<Vec<u8>> },
    /// Answer a LoginAttempt.
    ReplyLogin { addr: u64, result: LoginResult },
    /// Answer a FetchMessages query, newest first.
    ReplyMessages { addr: u64, messages: Vec<ClientboundPacket> },
    /// Answer a CheckPermissions query.
    ReplyPerms { addr: u64, perms: UserPermissions },
    /// Answer a console user-list query.
    ReplyUsersTui { users: Vec<String> },
    /// The configuration changed and should be written out.
    SaveConfig,
}

} // verus!
