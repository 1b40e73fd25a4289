//! Recognising the TLS handshake of a server and pulling its certificate chain
//! out of reassembled TCP payload.
//!
//! The framing and decoding of TLS records is done by `rustls`; this module
//! walks the records of a server's first flight (ServerHello, Certificate,
//! ServerKeyExchange, ServerHelloDone) and decides what to extract.
use rustls::internal::msgs::codec::Codec;
use rustls::internal::msgs::enums::{ContentType, ProtocolVersion};
use rustls::internal::msgs::handshake::HandshakePayload;
use rustls::internal::msgs::message::{Message, MessagePayload};
use vstd::prelude::*;

verus! {

/// Length of the header of a TLS record: content type, version and length.
pub const TLS_HEADER_LEN: usize = 5;

/// Content type of a TLS record that carries handshake messages.
pub const CONTENT_TYPE_HANDSHAKE: u8 = 0x16;

/// A TLS record as framed on the wire.
pub struct TlsRecord {
    /// The content-type byte.
    pub content_type: u8,
    /// The protocol version field.
    pub version: u16,
    /// The record body (as many bytes as the length field says).
    pub payload: Vec<u8>,
}

/// The handshake messages this module tells apart.
pub enum Handshake {
    ClientHello,
    ServerHello,
    /// A (pre TLS 1.3) Certificate message: the DER encodings of the chain.
    Certificate(Vec<Vec<u8>>),
    ServerKeyExchange,
    ServerHelloDone,
    /// Any other handshake message.
    Other,
}

/// Mathematical counterpart of [`Handshake`].
pub enum HandshakeView {
    ClientHello,
    ServerHello,
    Certificate(Seq<Seq<u8>>),
    ServerKeyExchange,
    ServerHelloDone,
    Other,
}

impl View for Handshake {
    type V = HandshakeView;

    open spec fn view(&self) -> HandshakeView {
        match self {
            Handshake::ClientHello => HandshakeView::ClientHello,
            Handshake::ServerHello => HandshakeView::ServerHello,
            Handshake::Certificate(c) => HandshakeView::Certificate(c.deep_view()),
            Handshake::ServerKeyExchange => HandshakeView::ServerKeyExchange,
            Handshake::ServerHelloDone => HandshakeView::ServerHelloDone,
            Handshake::Other => HandshakeView::Other,
        }
    }
}

/// The certificate chain could not be found where the handshake should carry it.
#[derive(Debug, Clone, Copy)]
pub struct CertificateNotExtractedError;

/// The value of a big-endian 16-bit field.
pub open spec fn be16(hi: u8, lo: u8) -> nat {
    (hi as nat) * 256 + (lo as nat)
}

/// Whether `b` starts with a complete TLS record: a 5-byte header whose length
/// field does not run past the end of `b`.
pub open spec fn has_record(b: Seq<u8>) -> bool {
    b.len() >= 5 && 5 + be16(b[3], b[4]) <= b.len()
}

/// The length field of the record at the start of `b`.
pub open spec fn record_len(b: Seq<u8>) -> nat {
    be16(b[3], b[4])
}

/// The handshake message that `rustls` decodes from the body of a handshake
/// record of the given protocol version, if the body decodes.
pub uninterp spec fn rustls_handshake(version: u16, body: Seq<u8>) -> Option<HandshakeView>;

/// Reads the TLS record at the start of `bytes` with `rustls`'s
/// `Message::read_bytes` and hands back its content type, version and body.
///
/// Trusted: `rustls` (0.16) reads one byte of content type, a big-endian
/// 16-bit version, a big-endian 16-bit length, then exactly that many body
/// bytes; it fails only when `bytes` is too short for these. Bytes after the
/// record are left alone.
#[verifier::external_body]
pub(crate) fn read_tls_record(bytes: &[u8]) -> (res: Option<TlsRecord>)
    ensures
        res is Some <==> has_record(bytes@),
        res matches Some(r) ==> {
            &&& r.content_type == bytes@[0]
            &&& r.version as nat == be16(bytes@[1], bytes@[2])
            &&& r.payload@ == bytes@.subrange(5, 5 + record_len(bytes@) as int)
        },
{
    let m = Message::read_bytes(bytes)?;
    let content_type: u8 = m.typ.get_u8();
    let version: u16 = m.version.get_u16();
    Some(TlsRecord { content_type, version, payload: m.take_payload() })
}

/// Decodes the body of a handshake record with `rustls`'s
/// `Message::decode_payload`, and tells the resulting handshake message apart.
///
/// Trusted: the result is the name `rustls_handshake` applied to the version
/// and body; nothing more is claimed of how `rustls` decodes.
#[verifier::external_body]
fn decode_handshake(version: u16, body: &[u8]) -> (res: Option<Handshake>)
    ensures
        match res {
            Some(h) => rustls_handshake(version, body@) == Some(h@),
            None => rustls_handshake(version, body@) is None,
        },
{
    let version = ProtocolVersion::read_bytes(&version.to_be_bytes())?;
    let payload = MessagePayload::new_opaque(body.to_vec());
    let mut m = Message { typ: ContentType::Handshake, version, payload };
    if !m.decode_payload() { return None; }
    match m.payload {
        MessagePayload::Handshake(h) => Some(match h.payload {
            HandshakePayload::ClientHello(_) => Handshake::ClientHello,
            HandshakePayload::ServerHello(_) => Handshake::ServerHello,
            HandshakePayload::Certificate(c) => Handshake::Certificate(c.into_iter().map(|x| x.0).collect()),
            HandshakePayload::ServerKeyExchange(_) => Handshake::ServerKeyExchange,
            HandshakePayload::ServerHelloDone => Handshake::ServerHelloDone,
            _ => Handshake::Other,
        }),
        _ => None,
    }
}

/// The handshake frame at the start of `b` and the length of its record body:
/// present when `b` starts with a complete handshake record whose body decodes.
pub open spec fn spec_on_frame(b: Seq<u8>) -> Option<(HandshakeView, nat)> {
    if has_record(b) && b[0] == CONTENT_TYPE_HANDSHAKE {
        match rustls_handshake(be16(b[1], b[2]) as u16, b.subrange(5, 5 + record_len(b) as int)) {
            Some(h) => Some((h, record_len(b))),
            None => None,
        }
    } else {
        None
    }
}

/// What follows the frame at the start of `b` whose record body is `n` bytes long.
pub open spec fn after_frame(b: Seq<u8>, n: nat) -> Seq<u8> {
    b.subrange(n + 5 as int, b.len() as int)
}

/// Parses the TLS record at the start of `rest` into a handshake message and the
/// length of the record's body.
pub fn on_frame(rest: &[u8]) -> (res: Option<(Handshake, usize)>)
    ensures
        match res {
            Some((h, n)) => spec_on_frame(rest@) == Some((h@, n as nat)) && n + 5 <= rest@.len(),
            None => spec_on_frame(rest@) is None,
        },
{
    match read_tls_record(rest) {
        Some(record) => {
            let frame_len: usize = record.payload.len();
            if record.content_type == CONTENT_TYPE_HANDSHAKE {
                match decode_handshake(record.version, record.payload.as_slice()) {
                    Some(h) => Some((h, frame_len)),
                    None => None,
                }
            } else {
                None
            }
        },
        None => None,
    }
}

/// The four frames of a server's first flight, each read from what follows the
/// previous one.
pub open spec fn frame1(b: Seq<u8>) -> Option<(HandshakeView, nat)> {
    spec_on_frame(b)
}

pub open spec fn rest1(b: Seq<u8>) -> Seq<u8> {
    after_frame(b, frame1(b).unwrap().1)
}

pub open spec fn frame2(b: Seq<u8>) -> Option<(HandshakeView, nat)> {
    spec_on_frame(rest1(b))
}

pub open spec fn rest2(b: Seq<u8>) -> Seq<u8> {
    after_frame(rest1(b), frame2(b).unwrap().1)
}

pub open spec fn frame3(b: Seq<u8>) -> Option<(HandshakeView, nat)> {
    spec_on_frame(rest2(b))
}

pub open spec fn rest3(b: Seq<u8>) -> Seq<u8> {
    after_frame(rest2(b), frame3(b).unwrap().1)
}

pub open spec fn frame4(b: Seq<u8>) -> Option<(HandshakeView, nat)> {
    spec_on_frame(rest3(b))
}

/// The flight can be walked without running out of frames: the first frame is
/// there, and if the second is, so are the third and the fourth.
pub open spec fn flight_walkable(b: Seq<u8>) -> bool {
    &&& frame1(b) is Some
    &&& frame2(b) is Some ==> (frame3(b) is Some && frame4(b) is Some)
}

/// The certificate chain of the flight: that of the second frame, when it is a
/// Certificate message.
pub open spec fn flight_certificates(b: Seq<u8>) -> Option<Seq<Seq<u8>>> {
    match frame2(b) {
        Some((HandshakeView::Certificate(c), _)) => Some(c),
        _ => None,
    }
}

/// Walks the server's first flight in `buf` (ServerHello, Certificate,
/// ServerKeyExchange, ServerHelloDone) and returns the certificate chain
/// carried by the second frame.
pub fn parse_tls_frame(buf: &[u8]) -> (res: Result<Vec<Vec<u8>>, CertificateNotExtractedError>)
    requires
        flight_walkable(buf@),
    ensures
        match res {
            Ok(c) => flight_certificates(buf@) == Some(c.deep_view()),
            Err(_) => flight_certificates(buf@) is None,
        },
{
    let tls_hdr_len: usize = TLS_HEADER_LEN;

    // Frame one: ServerHello.
    let (_handshake1, offset1) = match on_frame(buf) {
        Some(f) => f,
        None => { return Err(CertificateNotExtractedError); },
    };
    let (_, rest) = buf.split_at(offset1 + tls_hdr_len);
    assert(rest@ == rest1(buf@));

    // Frame two: Certificate.
    let (handshake2, offset2) = match on_frame(rest) {
        Some(f) => f,
        None => { return Err(CertificateNotExtractedError); },
    };
    let certs = match handshake2 {
        Handshake::Certificate(payload) => Ok(payload),
        _ => Err(CertificateNotExtractedError),
    };
    let (_, rest) = rest.split_at(offset2 + tls_hdr_len);
    assert(rest@ == rest2(buf@));

    // Frame three: ServerKeyExchange.
    let (_handshake3, offset3) = match on_frame(rest) {
        Some(f) => f,
        None => { return certs; },
    };
    let (_, rest) = rest.split_at(offset3 + tls_hdr_len);
    assert(rest@ == rest3(buf@));

    // Frame four: ServerHelloDone.
    let _frame4 = on_frame(rest);
    certs
}

/// Whether `b` starts with a ServerHello frame.
pub open spec fn spec_is_serverhello(b: Seq<u8>) -> bool {
    spec_on_frame(b) matches Some((HandshakeView::ServerHello, _))
}

/// Only a ServerHello counts: `b` is taken to start with one exactly when it
/// starts with a complete handshake record whose body `rustls` decodes as a
/// ServerHello; a first frame that decodes as any other handshake message (a
/// ClientHello among them) does not count, nor does a buffer without one.
pub proof fn lemma_serverhello_exactly(b: Seq<u8>)
    ensures
        spec_is_serverhello(b) <==> {
            &&& has_record(b)
            &&& b[0] == CONTENT_TYPE_HANDSHAKE
            &&& rustls_handshake(be16(b[1], b[2]) as u16, b.subrange(5, 5 + record_len(b) as int))
                == Some(HandshakeView::ServerHello)
        },
        spec_on_frame(b) matches Some((h, _)) && h != HandshakeView::ServerHello ==> !spec_is_serverhello(b),
        spec_on_frame(b) matches Some((HandshakeView::ClientHello, _)) ==> !spec_is_serverhello(b),
        spec_on_frame(b) is None ==> !spec_is_serverhello(b),
{
}

/// Whether `buf` starts with a TLS record carrying a ServerHello.
pub fn is_serverhello(buf: &[u8]) -> (res: bool)
    ensures
        res == spec_is_serverhello(buf@),
        res <==> spec_on_frame(buf@) matches Some((HandshakeView::ServerHello, _)),
        spec_on_frame(buf@) matches Some((h, _)) && h != HandshakeView::ServerHello ==> !res,
{
    proof {
        lemma_serverhello_exactly(buf@);
    }
    match on_frame(buf) {
        None => false,
        Some((handshake, _)) => match handshake {
            Handshake::ServerHello => true,
            _ => false,
        },
    }
}

/// Extracts the certificate chain from a server's first flight, checking first
/// that the flight can be walked: `None` when a frame that the walk needs is
/// missing.
pub fn extract_certificates(buf: &[u8]) -> (res: Option<Result<Vec<Vec<u8>>, CertificateNotExtractedError>>)
    ensures
        res is Some <==> flight_walkable(buf@),
        res matches Some(r) ==> match r {
            Ok(c) => flight_certificates(buf@) == Some(c.deep_view()),
            Err(_) => flight_certificates(buf@) is None,
        },
{
    let (_, n1) = match on_frame(buf) {
        Some(f) => f,
        None => { return None; },
    };
    let (_, rest) = buf.split_at(n1 + TLS_HEADER_LEN);
    assert(rest@ == rest1(buf@));
    if let Some((_, n2)) = on_frame(rest) {
        let (_, rest) = rest.split_at(n2 + TLS_HEADER_LEN);
        assert(rest@ == rest2(buf@));
        match on_frame(rest) {
            Some((_, n3)) => {
                let (_, rest) = rest.split_at(n3 + TLS_HEADER_LEN);
                assert(rest@ == rest3(buf@));
                if on_frame(rest).is_none() {
                    return None;
                }
            },
            None => { return None; },
        }
    }
    Some(parse_tls_frame(buf))
}

} // verus!
