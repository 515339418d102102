//! The command taxonomy: a closed set of typed command values, their wire
//! byte codes, and the mapping from an incoming payload to a command.

use vstd::prelude::*;

verus! {

/// Number of bits the command byte occupies at the front of a command
/// message's payload.
pub const COMMAND_BITLENGTH: usize = 8;

/// The wire representation of a command byte.
pub type CommandInt = u8;

// Wire byte codes. Reserved: never renumbered.
pub const CMD_DHKE_INIT: u8 = 1;

pub const CMD_UNENCRYPTED: u8 = 3;

pub const CMD_AUTHENTICATE_TO_ACCOUNT: u8 = 4;

pub const CMD_UNKNOWN_DOMAIN: u8 = 5;

pub const CMD_TARGET_USER_NOT_FOUND: u8 = 6;

pub const CMD_REQUEST_KNOWN_USERS: u8 = 7;

pub const CMD_ERROR: u8 = 8;

pub const CMD_INVALID_COMMAND: u8 = 9;

pub const CMD_BLOCK_ACK: u8 = 11;

pub const CMD_AUTHENTICATION_RESULT: u8 = 12;

pub const CMD_REVOKE_ALL_CLIENTS: u8 = 13;

pub const CMD_SIGN_OUT: u8 = 14;

pub const CMD_REQUEST_DOMAINS: u8 = 15;

pub const CMD_CHANNEL_UPDATE: u8 = 16;

pub const CMD_SIGN_OUT_SUCCESS: u8 = 17;

pub const CMD_DOMAIN_UPDATE: u8 = 18;

pub const CMD_FIND_USER: u8 = 19;

pub const CMD_USER_FOUND: u8 = 20;

/// Sentinel for raw data messages; used only for internal bookkeeping of
/// outbound messages, never sent on the wire as a command byte.
pub const CMD_DATA: u8 = 255;

/// The closed command taxonomy.
#[derive(Debug, Clone, Copy, PartialEq, Eq, Structural)]
pub enum CommandValue {
    /// One of these each way performs the ephemeral key exchange.
    DhkeInit,
    /// Reply when an instruction requiring encryption arrives before a
    /// secure connection is established.
    Unencrypted,
    /// Authenticate a bridge bot for a user-at-domain account.
    AuthenticateToAccount,
    /// Response to `AuthenticateToAccount`.
    AuthenticationResult,
    /// Request the known users on a given domain.
    RequestKnownUsers,
    /// Deauthenticate the sender from a given bot.
    SignOut,
    SignOutSuccess,
    /// Revoke every client's authentication with a given bot.
    RevokeAllClients,
    RequestDomains,
    DomainUpdate,
    /// Response to `RequestKnownUsers`.
    ChannelUpdate,
    /// Response to a data message naming a domain index out of range.
    UnknownDomain,
    TargetUserNotFound,
    /// Find a user by remote id and add it to the known users.
    FindUser,
    /// `FindUser` succeeded; the client should send `RequestKnownUsers`.
    UserFound,
    Error,
    InvalidCommand,
    /// Confirms receipt of one specific block.
    BlockAck,
    /// Internal sentinel for raw data messages.
    Data,
}

/// The wire byte code of each command value.
pub open spec fn spec_command_code(c: CommandValue) -> u8 {
    match c {
        CommandValue::DhkeInit => CMD_DHKE_INIT,
        CommandValue::Unencrypted => CMD_UNENCRYPTED,
        CommandValue::AuthenticateToAccount => CMD_AUTHENTICATE_TO_ACCOUNT,
        CommandValue::AuthenticationResult => CMD_AUTHENTICATION_RESULT,
        CommandValue::RequestKnownUsers => CMD_REQUEST_KNOWN_USERS,
        CommandValue::SignOut => CMD_SIGN_OUT,
        CommandValue::SignOutSuccess => CMD_SIGN_OUT_SUCCESS,
        CommandValue::RevokeAllClients => CMD_REVOKE_ALL_CLIENTS,
        CommandValue::RequestDomains => CMD_REQUEST_DOMAINS,
        CommandValue::DomainUpdate => CMD_DOMAIN_UPDATE,
        CommandValue::ChannelUpdate => CMD_CHANNEL_UPDATE,
        CommandValue::UnknownDomain => CMD_UNKNOWN_DOMAIN,
        CommandValue::TargetUserNotFound => CMD_TARGET_USER_NOT_FOUND,
        CommandValue::FindUser => CMD_FIND_USER,
        CommandValue::UserFound => CMD_USER_FOUND,
        CommandValue::Error => CMD_ERROR,
        CommandValue::InvalidCommand => CMD_INVALID_COMMAND,
        CommandValue::BlockAck => CMD_BLOCK_ACK,
        CommandValue::Data => CMD_DATA,
    }
}

/// The wire byte code of a command value.
pub fn command_code(c: CommandValue) -> (r: u8)
    ensures
        r == spec_command_code(c),
{
    match c {
        CommandValue::DhkeInit => CMD_DHKE_INIT,
        CommandValue::Unencrypted => CMD_UNENCRYPTED,
        CommandValue::AuthenticateToAccount => CMD_AUTHENTICATE_TO_ACCOUNT,
        CommandValue::AuthenticationResult => CMD_AUTHENTICATION_RESULT,
        CommandValue::RequestKnownUsers => CMD_REQUEST_KNOWN_USERS,
        CommandValue::SignOut => CMD_SIGN_OUT,
        CommandValue::SignOutSuccess => CMD_SIGN_OUT_SUCCESS,
        CommandValue::RevokeAllClients => CMD_REVOKE_ALL_CLIENTS,
        CommandValue::RequestDomains => CMD_REQUEST_DOMAINS,
        CommandValue::DomainUpdate => CMD_DOMAIN_UPDATE,
        CommandValue::ChannelUpdate => CMD_CHANNEL_UPDATE,
        CommandValue::UnknownDomain => CMD_UNKNOWN_DOMAIN,
        CommandValue::TargetUserNotFound => CMD_TARGET_USER_NOT_FOUND,
        CommandValue::FindUser => CMD_FIND_USER,
        CommandValue::UserFound => CMD_USER_FOUND,
        CommandValue::Error => CMD_ERROR,
        CommandValue::InvalidCommand => CMD_INVALID_COMMAND,
        CommandValue::BlockAck => CMD_BLOCK_ACK,
        CommandValue::Data => CMD_DATA,
    }
}

/// The commands a peer may send; every other byte value is unknown and is
/// answered with `InvalidCommand`. Reply-only commands are deliberately not
/// accepted here.
pub open spec fn spec_command_from_code(code: u8) -> Option<CommandValue> {
    if code == CMD_DHKE_INIT {
        Some(CommandValue::DhkeInit)
    } else if code == CMD_AUTHENTICATE_TO_ACCOUNT {
        Some(CommandValue::AuthenticateToAccount)
    } else if code == CMD_SIGN_OUT {
        Some(CommandValue::SignOut)
    } else if code == CMD_REVOKE_ALL_CLIENTS {
        Some(CommandValue::RevokeAllClients)
    } else if code == CMD_REQUEST_DOMAINS {
        Some(CommandValue::RequestDomains)
    } else if code == CMD_UNKNOWN_DOMAIN {
        Some(CommandValue::UnknownDomain)
    } else if code == CMD_TARGET_USER_NOT_FOUND {
        Some(CommandValue::TargetUserNotFound)
    } else if code == CMD_REQUEST_KNOWN_USERS {
        Some(CommandValue::RequestKnownUsers)
    } else if code == CMD_ERROR {
        Some(CommandValue::Error)
    } else if code == CMD_BLOCK_ACK {
        Some(CommandValue::BlockAck)
    } else {
        None
    }
}

/// The command named by the first byte of a command message's payload.
pub open spec fn spec_matching_command(payload: Seq<u8>) -> Result<CommandValue, ()> {
    if payload.len() == 0 {
        Err(())
    } else {
        match spec_command_from_code(payload[0]) {
            Some(c) => Ok(c),
            None => Err(()),
        }
    }
}

pub struct Command {}

impl Command {
    /// Maps the first byte of a command message's payload to its typed
    /// command value; an empty payload or an unknown byte is an error.
    pub fn get_matching_command(payload: &Vec<u8>) -> (r: Result<CommandValue, ()>)
        ensures
            r == spec_matching_command(payload@),
    {
        if payload.len() == 0 {
            return Err(());
        }
        let code = payload[0];
        if code == CMD_DHKE_INIT {
            Ok(CommandValue::DhkeInit)
        } else if code == CMD_AUTHENTICATE_TO_ACCOUNT {
            Ok(CommandValue::AuthenticateToAccount)
        } else if code == CMD_SIGN_OUT {
            Ok(CommandValue::SignOut)
        } else if code == CMD_REVOKE_ALL_CLIENTS {
            Ok(CommandValue::RevokeAllClients)
        } else if code == CMD_REQUEST_DOMAINS {
            Ok(CommandValue::RequestDomains)
        } else if code == CMD_UNKNOWN_DOMAIN {
            Ok(CommandValue::UnknownDomain)
        } else if code == CMD_TARGET_USER_NOT_FOUND {
            Ok(CommandValue::TargetUserNotFound)
        } else if code == CMD_REQUEST_KNOWN_USERS {
            Ok(CommandValue::RequestKnownUsers)
        } else if code == CMD_ERROR {
            Ok(CommandValue::Error)
        } else if code == CMD_BLOCK_ACK {
            Ok(CommandValue::BlockAck)
        } else {
            Err(())
        }
    }
}

} // verus!
