//! What a worker has to know to call a frontend back.

use crate::network::{ConnectionInfo, StreamType};
use crate::text;
use vstd::prelude::*;

verus! {

pub const TCP_TRANSPORT: &'static str = "tcp_server";

#[derive(Debug)]
pub struct TcpStreamConnectionInfo {
    pub address: String,
    pub subject: String,
    pub context: String,
    pub stream_type: StreamType,
}

impl Clone for TcpStreamConnectionInfo {
    fn clone(&self) -> (r: Self)
        ensures
            r.address@ == self.address@,
            r.subject@ == self.subject@,
            r.context@ == self.context@,
            r.stream_type == self.stream_type,
    {
        TcpStreamConnectionInfo {
            address: self.address.clone(),
            subject: self.subject.clone(),
            context: self.context.clone(),
            stream_type: self.stream_type,
        }
    }
}

/// What a worker says first when it calls back.
#[derive(Debug)]
pub struct CallHomeHandshake {
    pub subject: String,
    pub stream_type: StreamType,
}

impl Clone for CallHomeHandshake {
    fn clone(&self) -> (r: Self)
        ensures
            r.subject@ == self.subject@,
            r.stream_type == self.stream_type,
    {
        CallHomeHandshake {
            subject: self.subject.clone(),
            stream_type: self.stream_type,
        }
    }
}

impl TcpStreamConnectionInfo {
    /// The text that describes the connection, if it is one of this transport.
    pub fn described_by(info: &ConnectionInfo) -> (r: Option<&str>)
        ensures
            r is Some <==> info.transport@ == TCP_TRANSPORT@,
            r is Some ==> r->0@ == info.info@,
    {
        if text::same_text(info.transport.as_str(), TCP_TRANSPORT) {
            Some(info.info.as_str())
        } else {
            None
        }
    }

    /// Connection info of this transport, described by `info`.
    pub fn into_connection_info(info: String) -> (r: ConnectionInfo)
        ensures
            r.transport@ == TCP_TRANSPORT@,
            r.info == info,
    {
        ConnectionInfo { transport: TCP_TRANSPORT.to_owned(), info }
    }
}

} // verus!
