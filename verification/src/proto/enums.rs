//! Numbers of the protocol: magic and version, channel types, link errors and
//! message types.

use vstd::prelude::*;

use crate::proto::error::{ProtoError, Result};

pub mod main_msg;
pub mod main_msgc;
pub mod msg;
pub mod msgc;

verus! {

/// "REDQ" in little-endian.
pub const SPICE_MAGIC: u32 = 0x5144_4552;

pub const SPICE_VERSION_MAJOR: u32 = 2;

pub const SPICE_VERSION_MINOR: u32 = 2;

pub const SPICE_TICKET_PUBKEY_BYTES: usize = 162;

pub const SPICE_TICKET_KEY_PAIR_LENGTH: usize = 1024;

pub const SPICE_MAX_PASSWORD_LENGTH: usize = 60;

/// What a channel carries.
#[derive(Debug, Clone, Copy, PartialEq, Eq, Structural)]
pub enum ChannelType {
    Main,
    Display,
    Inputs,
    Cursor,
    Playback,
    Record,
    Tunnel,
    Smartcard,
    UsbRedir,
    Port,
    WebDav,
}

impl ChannelType {
    /// The number that stands for this variant on the wire.
    pub open spec fn code(self) -> u8 {
        match self {
            ChannelType::Main => 1,
            ChannelType::Display => 2,
            ChannelType::Inputs => 3,
            ChannelType::Cursor => 4,
            ChannelType::Playback => 5,
            ChannelType::Record => 6,
            ChannelType::Tunnel => 7,
            ChannelType::Smartcard => 8,
            ChannelType::UsbRedir => 9,
            ChannelType::Port => 10,
            ChannelType::WebDav => 11,
        }
    }

    /// The variant of a number.
    pub open spec fn of(v: u8) -> Result<ChannelType> {
        match v {
            1 => Ok(ChannelType::Main),
            2 => Ok(ChannelType::Display),
            3 => Ok(ChannelType::Inputs),
            4 => Ok(ChannelType::Cursor),
            5 => Ok(ChannelType::Playback),
            6 => Ok(ChannelType::Record),
            7 => Ok(ChannelType::Tunnel),
            8 => Ok(ChannelType::Smartcard),
            9 => Ok(ChannelType::UsbRedir),
            10 => Ok(ChannelType::Port),
            11 => Ok(ChannelType::WebDav),
            _ => Err(ProtoError::BadChannelType(v)),
        }
    }

    /// The number that stands for this variant on the wire.
    pub fn to_u8(self) -> (v: u8)
        ensures
            v == self.code(),
            Self::of(v) == Ok::<ChannelType, ProtoError>(self),
    {
        match self {
            ChannelType::Main => 1,
            ChannelType::Display => 2,
            ChannelType::Inputs => 3,
            ChannelType::Cursor => 4,
            ChannelType::Playback => 5,
            ChannelType::Record => 6,
            ChannelType::Tunnel => 7,
            ChannelType::Smartcard => 8,
            ChannelType::UsbRedir => 9,
            ChannelType::Port => 10,
            ChannelType::WebDav => 11,
        }
    }

    pub fn from_u8(v: u8) -> (r: Result<Self>)
        ensures
            r == Self::of(v),
            r matches Ok(t) ==> t.code() == v,
    {
        match v {
            1 => Ok(ChannelType::Main),
            2 => Ok(ChannelType::Display),
            3 => Ok(ChannelType::Inputs),
            4 => Ok(ChannelType::Cursor),
            5 => Ok(ChannelType::Playback),
            6 => Ok(ChannelType::Record),
            7 => Ok(ChannelType::Tunnel),
            8 => Ok(ChannelType::Smartcard),
            9 => Ok(ChannelType::UsbRedir),
            10 => Ok(ChannelType::Port),
            11 => Ok(ChannelType::WebDav),
            _ => Err(ProtoError::BadChannelType(v)),
        }
    }
}

/// How the peer answers a link attempt.
#[derive(Debug, Clone, Copy, PartialEq, Eq, Structural)]
pub enum LinkError {
    Success,
    Error,
    InvalidMagic,
    InvalidData,
    VersionMismatch,
    NeedSecured,
    NeedUnsecured,
    PermissionDenied,
    BadConnectionId,
    ChannelNotAvailable,
}

impl LinkError {
    /// The number that stands for this variant on the wire.
    pub open spec fn code(self) -> u32 {
        match self {
            LinkError::Success => 0,
            LinkError::Error => 1,
            LinkError::InvalidMagic => 2,
            LinkError::InvalidData => 3,
            LinkError::VersionMismatch => 4,
            LinkError::NeedSecured => 5,
            LinkError::NeedUnsecured => 6,
            LinkError::PermissionDenied => 7,
            LinkError::BadConnectionId => 8,
            LinkError::ChannelNotAvailable => 9,
        }
    }

    /// The variant of a number.
    pub open spec fn of(v: u32) -> Result<LinkError> {
        match v {
            0 => Ok(LinkError::Success),
            1 => Ok(LinkError::Error),
            2 => Ok(LinkError::InvalidMagic),
            3 => Ok(LinkError::InvalidData),
            4 => Ok(LinkError::VersionMismatch),
            5 => Ok(LinkError::NeedSecured),
            6 => Ok(LinkError::NeedUnsecured),
            7 => Ok(LinkError::PermissionDenied),
            8 => Ok(LinkError::BadConnectionId),
            9 => Ok(LinkError::ChannelNotAvailable),
            _ => Err(ProtoError::BadLinkError(v)),
        }
    }

    /// The number that stands for this variant on the wire.
    pub fn to_u32(self) -> (v: u32)
        ensures
            v == self.code(),
            Self::of(v) == Ok::<LinkError, ProtoError>(self),
    {
        match self {
            LinkError::Success => 0,
            LinkError::Error => 1,
            LinkError::InvalidMagic => 2,
            LinkError::InvalidData => 3,
            LinkError::VersionMismatch => 4,
            LinkError::NeedSecured => 5,
            LinkError::NeedUnsecured => 6,
            LinkError::PermissionDenied => 7,
            LinkError::BadConnectionId => 8,
            LinkError::ChannelNotAvailable => 9,
        }
    }

    pub fn from_u32(v: u32) -> (r: Result<Self>)
        ensures
            r == Self::of(v),
            r matches Ok(t) ==> t.code() == v,
    {
        match v {
            0 => Ok(LinkError::Success),
            1 => Ok(LinkError::Error),
            2 => Ok(LinkError::InvalidMagic),
            3 => Ok(LinkError::InvalidData),
            4 => Ok(LinkError::VersionMismatch),
            5 => Ok(LinkError::NeedSecured),
            6 => Ok(LinkError::NeedUnsecured),
            7 => Ok(LinkError::PermissionDenied),
            8 => Ok(LinkError::BadConnectionId),
            9 => Ok(LinkError::ChannelNotAvailable),
            _ => Err(ProtoError::BadLinkError(v)),
        }
    }
}

} // verus!
