//! The decisions of the background service: whether to serve, and what a
//! call on its bus interface asks for.
use vstd::prelude::*;

use crate::text::{decode, decoded, same};

verus! {

/// The name under which the service is known on the bus.
pub fn name() -> (name: &'static str)
    ensures
        name@ == "se.tedro.JapaneseDictionary"@,
{
    "se.tedro.JapaneseDictionary"
}

/// The path of the service's object.
pub fn path() -> (path: &'static str)
    ensures
        path@ == "/se/tedro/JapaneseDictionary"@,
{
    "/se/tedro/JapaneseDictionary"
}

/// How a process starts up.
#[derive(Clone, Copy, Debug, PartialEq, Eq, Structural, Hash)]
pub enum Startup {
    /// Serve without the bus.
    Standalone,
    /// Leave serving to the instance that the bus activates, and ask it
    /// for its port.
    AskPort,
    /// Ask the bus for the service's name.
    RequestName,
}

/// How a process starts up: without the bus where that is switched off,
/// by asking for the port where it is to run in the background, else by
/// asking for the name.
pub fn startup(bus_disabled: bool, background: bool) -> (s: Startup)
    ensures
        s == if bus_disabled {
            Startup::Standalone
        } else if background {
            Startup::AskPort
        } else {
            Startup::RequestName
        },
{
    if bus_disabled {
        Startup::Standalone
    } else if background {
        Startup::AskPort
    } else {
        Startup::RequestName
    }
}

/// The answer of the bus to a request for the name.
#[derive(Clone, Copy, Debug, PartialEq, Eq, Structural, Hash)]
pub enum NameReply {
    PrimaryOwner,
    Exists,
    /// The request was queued, or the name was owned by this connection
    /// already.
    Other,
}

/// What follows the request for the name.
#[derive(Clone, Copy, Debug, PartialEq, Eq, Structural, Hash)]
pub enum Ownership {
    /// The name is ours: serve.
    Serve,
    /// Another instance serves: ask it for its port.
    AskPort,
    /// The name could not be had.
    Busy,
}

/// What follows the request for the name.
pub fn after_request(reply: NameReply) -> (next: Ownership)
    ensures
        next == match reply {
            NameReply::PrimaryOwner => Ownership::Serve,
            NameReply::Exists => Ownership::AskPort,
            NameReply::Other => Ownership::Busy,
        },
{
    match reply {
        NameReply::PrimaryOwner => Ownership::Serve,
        NameReply::Exists => Ownership::AskPort,
        NameReply::Other => Ownership::Busy,
    }
}

/// The methods of the service.
#[derive(Clone, Copy, Debug, PartialEq, Eq, Structural, Hash)]
pub enum Method {
    GetPort,
    SendClipboardData,
    Shutdown,
}

/// Why a call is turned down.
#[derive(Clone, Copy, Debug, PartialEq, Eq, Structural, Hash)]
pub enum CallError {
    MissingDestination,
    MissingMember,
    BadPath,
    UnknownPath,
    BadMethod,
    UnknownMethod,
}

impl CallError {
    /// The message that the caller is sent.
    pub fn message(self) -> (message: &'static str)
        ensures
            message@ == match self {
                CallError::MissingDestination => "Missing destination"@,
                CallError::MissingMember => "Missing member"@,
                CallError::BadPath => "Bad path"@,
                CallError::UnknownPath => "Unknown path"@,
                CallError::BadMethod => "Bad method"@,
                CallError::UnknownMethod => "Unknown method"@,
            },
    {
        match self {
            CallError::MissingDestination => "Missing destination",
            CallError::MissingMember => "Missing member",
            CallError::BadPath => "Bad path",
            CallError::UnknownPath => "Unknown path",
            CallError::BadMethod => "Bad method",
            CallError::UnknownMethod => "Unknown method",
        }
    }
}

/// The method that a member name stands for.
pub open spec fn method_named(member: Seq<char>) -> Option<Method> {
    if member == "GetPort"@ {
        Some(Method::GetPort)
    } else if member == "SendClipboardData"@ {
        Some(Method::SendClipboardData)
    } else if member == "Shutdown"@ {
        Some(Method::Shutdown)
    } else {
        None
    }
}

/// The method that a call asks for. The call names the service's object by
/// its path and one of its methods by the member, both in UTF-8. Of what
/// is wrong with a call, the first in this order is reported: no path, no
/// member, a path that is no text, a path of another object, a member
/// that is no text, a member that is no method.
pub open spec fn resolved(path: Option<Seq<u8>>, member: Option<Seq<u8>>) -> Result<
    Method,
    CallError,
> {
    match path {
        None => Err(CallError::MissingDestination),
        Some(path) => match member {
            None => Err(CallError::MissingMember),
            Some(member) => match decoded(path) {
                None => Err(CallError::BadPath),
                Some(path) => if path != "/se/tedro/JapaneseDictionary"@ {
                    Err(CallError::UnknownPath)
                } else {
                    match decoded(member) {
                        None => Err(CallError::BadMethod),
                        Some(member) => match method_named(member) {
                            Some(method) => Ok(method),
                            None => Err(CallError::UnknownMethod),
                        },
                    }
                },
            },
        },
    }
}

/// What optional bytes hold.
pub open spec fn held(bytes: Option<&[u8]>) -> Option<Seq<u8>> {
    match bytes {
        Some(bytes) => Some(bytes@),
        None => None,
    }
}

/// Finds the method that a call asks for, from the path and the member of
/// the message as they came.
pub fn handle_method_call(path: Option<&[u8]>, member: Option<&[u8]>) -> (method: Result<
    Method,
    CallError,
>)
    ensures
        method == resolved(held(path), held(member)),
{
    let path = match path {
        Some(path) => path,
        None => {
            return Err(CallError::MissingDestination);
        },
    };
    let member = match member {
        Some(member) => member,
        None => {
            return Err(CallError::MissingMember);
        },
    };
    let path = match decode(path) {
        Some(path) => path,
        None => {
            return Err(CallError::BadPath);
        },
    };
    if !same(path, self::path()) {
        return Err(CallError::UnknownPath);
    }
    let member = match decode(member) {
        Some(member) => member,
        None => {
            return Err(CallError::BadMethod);
        },
    };
    if same(member, "GetPort") {
        Ok(Method::GetPort)
    } else if same(member, "SendClipboardData") {
        Ok(Method::SendClipboardData)
    } else if same(member, "Shutdown") {
        Ok(Method::Shutdown)
    } else {
        Err(CallError::UnknownMethod)
    }
}

} // verus!
