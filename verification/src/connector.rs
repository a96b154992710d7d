//! What a protocol module tells the runtime, and is asked by it.
use crate::json::Json;
use crate::model::{DataType, Mode};
use crate::text::{concat2, concat3, same_text, str_of};
use vstd::prelude::*;

verus! {

/// What may be done with a point.
#[derive(Clone, Copy, Debug, PartialEq, Eq, Structural)]
pub enum Access {
    Read,
    Write,
    ReadWrite,
}

/// The access that a configuration declares. A point that declares none, or none that is known,
/// may be read.
pub open spec fn access_of(declared: Option<Seq<char>>) -> Access {
    if declared == Some("write"@) {
        Access::Write
    } else if declared == Some("read_write"@) {
        Access::ReadWrite
    } else {
        Access::Read
    }
}

impl Access {
    pub open spec fn writable(self) -> bool {
        self != Access::Read
    }

    pub open spec fn label(self) -> Seq<char> {
        match self {
            Access::Read => "read"@,
            Access::Write => "write"@,
            Access::ReadWrite => "read_write"@,
        }
    }

    /// The access that a configuration declares.
    pub fn parse(declared: Option<&str>) -> (r: Access)
        ensures
            r == access_of(str_of(declared)),
    {
        match declared {
            Some(s) => if same_text(s, "write") {
                Access::Write
            } else if same_text(s, "read_write") {
                Access::ReadWrite
            } else {
                Access::Read
            },
            None => Access::Read,
        }
    }

    /// Whether the point may be written.
    pub fn can_write(self) -> (r: bool)
        ensures
            r == self.writable(),
    {
        match self {
            Access::Read => false,
            _ => true,
        }
    }

    pub fn as_str(self) -> (r: &'static str)
        ensures
            r@ == self.label(),
    {
        match self {
            Access::Read => "read",
            Access::Write => "write",
            Access::ReadWrite => "read_write",
        }
    }
}

/// The name of an access in an envelope.
pub fn access_str(access: Access) -> (r: &'static str)
    ensures
        r@ == access.label(),
{
    access.as_str()
}

/// The order of the bytes in a word.
#[derive(Clone, Copy, Debug, PartialEq, Eq, Structural)]
pub enum Endianness {
    Big,
    Little,
}

impl Endianness {
    pub open spec fn of(declared: Option<Seq<char>>) -> Endianness {
        if declared == Some("little"@) {
            Endianness::Little
        } else {
            Endianness::Big
        }
    }

    /// The order that a configuration declares; big-endian where it declares no other.
    pub fn parse(declared: Option<&str>) -> (r: Endianness)
        ensures
            r == Endianness::of(str_of(declared)),
    {
        match declared {
            Some(s) => if same_text(s, "little") {
                Endianness::Little
            } else {
                Endianness::Big
            },
            None => Endianness::Big,
        }
    }
}

/// The order of the words in a value.
#[derive(Clone, Copy, Debug, PartialEq, Eq, Structural)]
pub enum WordOrder {
    Big,
    Little,
}

impl WordOrder {
    pub open spec fn of(declared: Option<Seq<char>>) -> WordOrder {
        if declared == Some("little"@) {
            WordOrder::Little
        } else {
            WordOrder::Big
        }
    }

    /// The order that a configuration declares; the high word first where it declares no other.
    pub fn parse(declared: Option<&str>) -> (r: WordOrder)
        ensures
            r == WordOrder::of(str_of(declared)),
    {
        match declared {
            Some(s) => if same_text(s, "little") {
                WordOrder::Little
            } else {
                WordOrder::Big
            },
            None => WordOrder::Big,
        }
    }
}

/// How a device is reached right now.
#[derive(Clone, Copy, Debug, PartialEq, Eq, Structural)]
pub enum LinkStatus {
    Connected,
    Degraded,
    Disconnected,
}

impl LinkStatus {
    pub open spec fn label(self) -> Seq<char> {
        match self {
            LinkStatus::Connected => "connected"@,
            LinkStatus::Degraded => "degraded"@,
            LinkStatus::Disconnected => "disconnected"@,
        }
    }

    pub fn as_str(self) -> (r: &'static str)
        ensures
            r@ == self.label(),
    {
        match self {
            LinkStatus::Connected => "connected",
            LinkStatus::Degraded => "degraded",
            LinkStatus::Disconnected => "disconnected",
        }
    }
}

/// What a module says of a device's link.
#[derive(Debug, PartialEq)]
pub struct LinkReport {
    pub device: String,
    pub status: LinkStatus,
    pub reason: Option<String>,
    /// What the device is, as far as connecting to it told.
    pub info: Option<Json>,
}

impl LinkReport {
    /// A report that says nothing of the device itself.
    pub fn new(device: String, status: LinkStatus, reason: Option<String>) -> (r: LinkReport)
        ensures
            r == (LinkReport { device, status, reason, info: None }),
    {
        LinkReport { device, status, reason, info: None }
    }
}

/// Why a module call failed.
#[derive(Debug, PartialEq)]
pub enum ConnectorError {
    NotConnected(String),
    UnknownPoint { device: String, point: String },
    AccessDenied(String),
    Unsupported(String),
    Decode(String),
    Transport(String),
    Other(String),
}

impl ConnectorError {
    /// The error in words.
    pub open spec fn words(self) -> Seq<char> {
        match self {
            ConnectorError::NotConnected(device) => "device '"@ + device@ + "' is not connected"@,
            ConnectorError::UnknownPoint { device, point } => "unknown point '"@ + point@
                + "' on device '"@ + device@ + "'"@,
            ConnectorError::AccessDenied(point) => "access denied for point '"@ + point@ + "'"@,
            ConnectorError::Unsupported(what) => "unsupported: "@ + what@,
            ConnectorError::Decode(text) => "decode error: "@ + text@,
            ConnectorError::Transport(text) => "transport error: "@ + text@,
            ConnectorError::Other(text) => text@,
        }
    }

    /// The error in words.
    pub fn tell(&self) -> (r: String)
        ensures
            r@ == self.words(),
    {
        match self {
            ConnectorError::NotConnected(device) => concat3(
                "device '",
                device.as_str(),
                "' is not connected",
            ),
            ConnectorError::UnknownPoint { device, point } => {
                let mut out: String = concat3(
                    "unknown point '",
                    point.as_str(),
                    "' on device '",
                );
                out.append(device.as_str());
                out.append("'");
                out
            },
            ConnectorError::AccessDenied(point) => concat3(
                "access denied for point '",
                point.as_str(),
                "'",
            ),
            ConnectorError::Unsupported(what) => concat2("unsupported: ", what.as_str()),
            ConnectorError::Decode(text) => concat2("decode error: ", text.as_str()),
            ConnectorError::Transport(text) => concat2("transport error: ", text.as_str()),
            ConnectorError::Other(text) => text.clone(),
        }
    }
}

/// What a module can do.
#[derive(Debug, PartialEq)]
pub struct Capabilities {
    pub protocol: &'static str,
    pub version: &'static str,
    pub modes: Vec<Mode>,
    pub datatypes: Vec<DataType>,
    pub point_kinds: Vec<String>,
    pub command_verbs: Vec<String>,
    pub features: Vec<String>,
    pub subscribe: bool,
}

/// A command for one point.
#[derive(Debug, PartialEq)]
pub struct CommandRequest {
    pub point: String,
    pub value: Option<Json>,
    pub value_repr: Option<String>,
    pub raw: Option<String>,
}

/// What a command did.
#[derive(Debug, PartialEq)]
pub struct CommandResult {
    pub point: String,
    pub value: Option<Json>,
    pub raw: Option<String>,
}

/// A point that declares an access has that one, and one that declares none that is known may be
/// read and not written.
pub proof fn accesses_are_declared_by_their_names(declared: Option<Seq<char>>)
    ensures
        access_of(declared) == Access::Write <==> declared == Some("write"@),
        access_of(declared) == Access::ReadWrite <==> declared == Some("read_write"@),
        access_of(declared).writable() <==> declared == Some("write"@) || declared == Some(
            "read_write"@,
        ),
        access_of(declared).label() == match declared {
            Some(t) => if t == "write"@ || t == "read_write"@ {
                t
            } else {
                "read"@
            },
            None => "read"@,
        },
{
    reveal_strlit("write");
    reveal_strlit("read_write");
    assert("write"@.len() == 5 && "read_write"@.len() == 10);
}

/// The statuses of a link are told apart by their names.
pub proof fn statuses_are_told_by_their_names(s: LinkStatus)
    ensures
        s == LinkStatus::Connected <==> s.label() == "connected"@,
        s == LinkStatus::Degraded <==> s.label() == "degraded"@,
        s == LinkStatus::Disconnected <==> s.label() == "disconnected"@,
{
    reveal_strlit("connected");
    reveal_strlit("degraded");
    reveal_strlit("disconnected");
    assert("connected"@.len() == 9 && "degraded"@.len() == 8 && "disconnected"@.len() == 12);
}

/// Bytes and words are little-endian where, and only where, that is declared.
pub proof fn orders_are_declared_by_their_names(declared: Option<Seq<char>>)
    ensures
        Endianness::of(declared) == Endianness::Little <==> declared == Some("little"@),
        WordOrder::of(declared) == WordOrder::Little <==> declared == Some("little"@),
{
}

} // verus!
