//! The records that travel through the library, each with its mathematical
//! model.

use vstd::prelude::*;

verus! {

/// The transport protocol of a socket.
#[derive(Clone, Copy, Debug, PartialEq, Eq, Structural)]
pub enum Protocol {
    Tcp,
    Udp,
}

impl Protocol {
    /// The text under which the protocol is reported.
    pub open spec fn label(self) -> Seq<char> {
        match self {
            Protocol::Tcp => "TCP"@,
            Protocol::Udp => "UDP"@,
        }
    }

    /// Renders the protocol as text.
    pub fn as_text(self) -> (text: String)
        ensures
            text@ == self.label(),
    {
        match self {
            Protocol::Tcp => "TCP".to_string(),
            Protocol::Udp => "UDP".to_string(),
        }
    }
}

/// A socket as the socket enumeration saw it.
#[derive(Clone, Debug, PartialEq, Eq)]
pub struct ListeningSocket {
    /// The owning process; 0 stands for a socket that no process owns.
    pub pid: u32,
    pub protocol: Protocol,
    /// The local address, as text.
    pub address: String,
    pub port: u16,
    /// The owner's name as the socket enumeration reported it, if it did.
    pub name_hint: Option<String>,
}

/// The model of a [`ListeningSocket`].
pub ghost struct SocketModel {
    pub pid: u32,
    pub protocol: Protocol,
    pub address: Seq<char>,
    pub port: u16,
    pub name_hint: Option<Seq<char>>,
}

impl DeepView for ListeningSocket {
    type V = SocketModel;

    open spec fn deep_view(&self) -> SocketModel {
        SocketModel {
            pid: self.pid,
            protocol: self.protocol,
            address: self.address@,
            port: self.port,
            name_hint: match self.name_hint {
                Some(hint) => Some(hint@),
                None => None,
            },
        }
    }
}

/// The socket enumeration failed. No detail is kept: a failed enumeration
/// counts as one that found no socket.
#[derive(Clone, Copy, Debug)]
pub struct EnumerationError;

/// One entry of the process table.
#[derive(Clone, Debug, PartialEq, Eq)]
pub struct ProcessRecord {
    pub pid: u32,
    pub name: String,
}

/// The model of a [`ProcessRecord`].
pub ghost struct RecordModel {
    pub pid: u32,
    pub name: Seq<char>,
}

impl DeepView for ProcessRecord {
    type V = RecordModel;

    open spec fn deep_view(&self) -> RecordModel {
        RecordModel { pid: self.pid, name: self.name@ }
    }
}

/// What is reported of one socket.
#[derive(Clone, Debug, PartialEq, Eq)]
pub struct PortReport {
    pub pid: u32,
    /// The name resolved for the owning process.
    pub name: String,
    pub port: u16,
    pub protocol: String,
    pub address: String,
}

/// The model of a [`PortReport`].
pub ghost struct ReportModel {
    pub pid: u32,
    pub name: Seq<char>,
    pub port: u16,
    pub protocol: Seq<char>,
    pub address: Seq<char>,
}

impl DeepView for PortReport {
    type V = ReportModel;

    open spec fn deep_view(&self) -> ReportModel {
        ReportModel {
            pid: self.pid,
            name: self.name@,
            port: self.port,
            protocol: self.protocol@,
            address: self.address@,
        }
    }
}

} // verus!
