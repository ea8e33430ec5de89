//! What a worker has to know to send a response back.

use crate::network::ConnectionInfo;
use crate::quic::big_endian;
use crate::quic::fingerprint;
use crate::text;
use vstd::prelude::*;

verus! {

pub const TRANSPORT_NAME: &'static str = "quic-response";

pub const PROTOCOL_VERSION: u8 = 2;

/// Where a response is expected, and by whom.
#[derive(Debug)]
pub struct QuicResponseConnectionInfo {
    pub version: u8,
    pub address: String,
    pub frontend_id: String,
    pub registration_id: u128,
    pub request_id: String,
    pub certificate_sha256: String,
}

impl Clone for QuicResponseConnectionInfo {
    fn clone(&self) -> (r: Self)
        ensures
            r.version == self.version,
            r.address@ == self.address@,
            r.frontend_id@ == self.frontend_id@,
            r.registration_id == self.registration_id,
            r.request_id@ == self.request_id@,
            r.certificate_sha256@ == self.certificate_sha256@,
    {
        QuicResponseConnectionInfo {
            version: self.version,
            address: self.address.clone(),
            frontend_id: self.frontend_id.clone(),
            registration_id: self.registration_id,
            request_id: self.request_id.clone(),
            certificate_sha256: self.certificate_sha256.clone(),
        }
    }
}

/// Why connection info is not for this transport.
#[derive(Clone, Copy, Debug, PartialEq, Eq, Structural)]
pub enum ConnectionInfoError {
    WrongTransport,
    UnsupportedVersion { version: u8 },
}

impl QuicResponseConnectionInfo {
    /// The text that describes the connection, if it is one of this transport.
    pub fn described_by(info: &ConnectionInfo) -> (r: Result<&str, ConnectionInfoError>)
        ensures
            info.transport@ == TRANSPORT_NAME@ ==> r is Ok && r->Ok_0@ == info.info@,
            info.transport@ != TRANSPORT_NAME@ ==> r == Err::<&str, ConnectionInfoError>(
                ConnectionInfoError::WrongTransport,
            ),
    {
        if !text::same_text(info.transport.as_str(), TRANSPORT_NAME) {
            return Err(ConnectionInfoError::WrongTransport);
        }
        Ok(info.info.as_str())
    }

    /// Accepts a description of the version in use.
    pub fn try_from(self) -> (r: Result<Self, ConnectionInfoError>)
        ensures
            self.version == PROTOCOL_VERSION ==> r == Ok::<Self, ConnectionInfoError>(self),
            self.version != PROTOCOL_VERSION ==> r == Err::<Self, ConnectionInfoError>(
                ConnectionInfoError::UnsupportedVersion { version: self.version },
            ),
    {
        if self.version != PROTOCOL_VERSION {
            return Err(ConnectionInfoError::UnsupportedVersion { version: self.version });
        }
        Ok(self)
    }

    /// Connection info of this transport, described by `info`.
    pub fn into_connection_info(info: String) -> (r: ConnectionInfo)
        ensures
            r.transport@ == TRANSPORT_NAME@,
            r.info == info,
    {
        ConnectionInfo { transport: TRANSPORT_NAME.to_owned(), info }
    }
}

/// The registration that connection info belongs to. `described` is what its
/// text describes, if it can be read.
pub fn registration_id(
    connection_info: &ConnectionInfo,
    described: Option<&QuicResponseConnectionInfo>,
) -> (r: Option<u128>)
    ensures
        r == if connection_info.transport@ == TRANSPORT_NAME@ && described is Some {
            Some(described->0.registration_id)
        } else {
            None
        },
{
    if !text::same_text(connection_info.transport.as_str(), TRANSPORT_NAME) {
        return None;
    }
    match described {
        Some(info) => Some(info.registration_id),
        None => None,
    }
}

/// The hyphenated lower-case form of an id.
pub open spec fn id_text(id: u128) -> Seq<char> {
    let hex = fingerprint::hex_text(big_endian::be_bytes(id as nat, 16));
    hex.subrange(0, 8) + seq!['-'] + hex.subrange(8, 12) + seq!['-'] + hex.subrange(12, 16) + seq![
        '-',
    ] + hex.subrange(16, 20) + seq!['-'] + hex.subrange(20, 32)
}

fn push_part(out: &mut String, chars: &Vec<char>, from: usize, to: usize)
    requires
        from <= to <= chars@.len(),
    ensures
        final(out)@ == old(out)@ + chars@.subrange(from as int, to as int),
{
    let mut i: usize = from;
    while i < to
        invariant
            from <= i <= to <= chars@.len(),
            out@ == old(out)@ + chars@.subrange(from as int, i as int),
        decreases to - i,
    {
        out.push(chars[i]);
        assert(chars@.subrange(from as int, i + 1) =~= chars@.subrange(from as int, i as int).push(
            chars@[i as int],
        ));
        assert(out@ =~= old(out)@ + chars@.subrange(from as int, i + 1));
        i += 1;
    }
}

/// Writes an id in its hyphenated form.
pub fn format_id(id: u128) -> (r: String)
    ensures
        r@ == id_text(id),
{
    let mut bytes: Vec<u8> = Vec::new();
    big_endian::put_be(&mut bytes, id, 16);
    proof {
        assert(bytes@ =~= big_endian::be_bytes(id as nat, 16));
        big_endian::lemma_be_bytes_len(id as nat, 16);
    }
    let hex = text::chars_of(fingerprint::encode_hex(bytes.as_slice()).as_str());
    let mut out = String::new();
    push_part(&mut out, &hex, 0, 8);
    out.push('-');
    push_part(&mut out, &hex, 8, 12);
    out.push('-');
    push_part(&mut out, &hex, 12, 16);
    out.push('-');
    push_part(&mut out, &hex, 16, 20);
    out.push('-');
    push_part(&mut out, &hex, 20, 32);
    assert(out@ =~= id_text(id));
    out
}

/// `uuid::Uuid::new_v4`: a random id.
#[verifier::external_body]
pub(crate) fn random_id() -> u128 {
    uuid::Uuid::new_v4().as_u128()
}

/// An id is written as its 32 hexadecimal digits, the most significant first, in
/// five groups of eight, four, four, four and twelve with hyphens between them.
pub proof fn ids_are_written_in_groups(id: u128, i: int)
    ensures
        ({
            let digits = fingerprint::hex_text(big_endian::be_bytes(id as nat, 16));
            let text = id_text(id);
            &&& digits.len() == 32
            &&& text.len() == 36
            &&& text[8] == '-' && text[13] == '-' && text[18] == '-' && text[23] == '-'
            &&& 0 <= i < 8 ==> text[i] == digits[i]
            &&& 8 <= i < 12 ==> text[i + 1] == digits[i]
            &&& 12 <= i < 16 ==> text[i + 2] == digits[i]
            &&& 16 <= i < 20 ==> text[i + 3] == digits[i]
            &&& 20 <= i < 32 ==> text[i + 4] == digits[i]
        }),
{
    big_endian::lemma_be_bytes_len(id as nat, 16);
}

} // verus!
