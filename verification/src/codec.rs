//! The messages that peers exchange: a request names a file, a response
//! carries it. Each travels as one length-prefixed message.
use vstd::prelude::*;
use vstd::utf8::{decode_utf8, encode_utf8, valid_utf8};

use crate::varint::{encode_length_prefixed, frame_decode, varint_encode, FrameError};

verus! {

broadcast use vstd::utf8::encode_utf8_decode_utf8;

/// Name of the protocol under which peers exchange files.
pub const PROTOCOL_NAME: &'static str = "/file-exchange/1";

/// Largest request, in bytes, that a peer reads.
pub const MAX_REQUEST_LEN: usize = 1_000_000;

/// Largest response, in bytes, that a peer reads.
pub const MAX_RESPONSE_LEN: usize = 500_000_000;

/// A request for the file with the given name.
#[derive(Debug, Clone, PartialEq, Eq)]
pub struct FileRequest(pub String);

/// A response that carries a file, framed as `response_download` builds it.
#[derive(Debug, Clone, PartialEq, Eq)]
pub struct FileResponse(pub Vec<u8>);

impl View for FileRequest {
    type V = Seq<char>;

    open spec fn view(&self) -> Seq<char> {
        self.0@
    }
}

impl View for FileResponse {
    type V = Seq<u8>;

    open spec fn view(&self) -> Seq<u8> {
        self.0@
    }
}

/// Why a request could not be read.
#[derive(Debug, Clone, Copy, PartialEq, Eq, Structural)]
pub enum RequestError {
    /// The message was empty.
    Empty,
    /// The message was not UTF-8 text.
    InvalidUtf8,
}

/// Why a response could not be read.
#[derive(Debug, Clone, Copy, PartialEq, Eq, Structural)]
pub enum ResponseError {
    /// The message was empty.
    Empty,
}

/// `String::from_utf8`: it gives a string exactly when the bytes are valid
/// UTF-8, and that string is made of those very bytes.
#[verifier::external_body]
fn string_from_utf8(bytes: Vec<u8>) -> (r: Option<String>)
    ensures
        r is Some <==> valid_utf8(bytes@),
        r matches Some(s) ==> encode_utf8(s@) == bytes@,
{
    String::from_utf8(bytes).ok()
}

/// The text that the bytes `b` encode as UTF-8, when they are valid.
pub fn utf8_text(bytes: Vec<u8>) -> (r: Option<String>)
    ensures
        r is Some <==> valid_utf8(bytes@),
        r matches Some(s) ==> s@ == decode_utf8(bytes@),
{
    let r = string_from_utf8(bytes);
    proof {
        if r is Some {
            assert(decode_utf8(encode_utf8(r->0@)) == r->0@);
        }
    }
    r
}

/// The request that a received message holds.
pub open spec fn request_decode(b: Seq<u8>) -> Result<Seq<char>, RequestError> {
    if b.len() == 0 {
        Err(RequestError::Empty)
    } else if !valid_utf8(b) {
        Err(RequestError::InvalidUtf8)
    } else {
        Ok(decode_utf8(b))
    }
}

/// Reads a request from a received message.
pub fn decode_request(bytes: Vec<u8>) -> (r: Result<FileRequest, RequestError>)
    ensures
        match r {
            Ok(req) => request_decode(bytes@) == Ok::<Seq<char>, RequestError>(req@),
            Err(e) => request_decode(bytes@) == Err::<Seq<char>, RequestError>(e),
        },
{
    if bytes.len() == 0 {
        return Err(RequestError::Empty);
    }
    match utf8_text(bytes) {
        Some(s) => Ok(FileRequest(s)),
        None => Err(RequestError::InvalidUtf8),
    }
}

/// The bytes sent for a request: its name as UTF-8, length-prefixed.
pub open spec fn request_frame(name: Seq<char>) -> Seq<u8> {
    varint_encode(encode_utf8(name).len()) + encode_utf8(name)
}

/// Writes a request as a length-prefixed message.
pub fn encode_request(req: &FileRequest) -> (r: Vec<u8>)
    ensures
        r@ == request_frame(req@),
{
    let bytes = req.0.as_str().as_bytes();
    encode_length_prefixed(bytes)
}

/// The response that a received message holds.
pub open spec fn response_decode(b: Seq<u8>) -> Result<Seq<u8>, ResponseError> {
    if b.len() == 0 {
        Err(ResponseError::Empty)
    } else {
        Ok(b)
    }
}

/// Reads a response from a received message.
pub fn decode_response(bytes: Vec<u8>) -> (r: Result<FileResponse, ResponseError>)
    ensures
        match r {
            Ok(resp) => response_decode(bytes@) == Ok::<Seq<u8>, ResponseError>(resp@),
            Err(e) => response_decode(bytes@) == Err::<Seq<u8>, ResponseError>(e),
        },
{
    if bytes.len() == 0 {
        Err(ResponseError::Empty)
    } else {
        Ok(FileResponse(bytes))
    }
}

/// Writes a response as a length-prefixed message.
pub fn encode_response(resp: &FileResponse) -> (r: Vec<u8>)
    ensures
        r@ == varint_encode(resp@.len()) + resp@,
{
    encode_length_prefixed(resp.0.as_slice())
}

/// A text that is not empty takes at least one byte.
proof fn lemma_utf8_nonempty(s: Seq<char>)
    ensures
        s.len() > 0 ==> encode_utf8(s).len() > 0,
{
    if s.len() > 0 && encode_utf8(s).len() == 0 {
        assert(encode_utf8(s) =~= Seq::<u8>::empty());
        assert(decode_utf8(encode_utf8(s)) == s);
        assert(decode_utf8(Seq::<u8>::empty()) =~= Seq::<char>::empty());
    }
}

/// Law: a peer that reads what another peer wrote for a request gets the
/// same request, when its name is not empty and fits the request limit.
pub proof fn lemma_request_roundtrip(name: Seq<char>, rest: Seq<u8>)
    requires
        name.len() > 0,
        encode_utf8(name).len() <= MAX_REQUEST_LEN,
    ensures
        frame_decode(request_frame(name) + rest, MAX_REQUEST_LEN as nat) == Ok::<
            Seq<u8>,
            FrameError,
        >(encode_utf8(name)),
        request_decode(encode_utf8(name)) == Ok::<Seq<char>, RequestError>(name),
{
    broadcast use vstd::utf8::encode_utf8_valid_utf8;

    crate::varint::lemma_frame_roundtrip(encode_utf8(name), MAX_REQUEST_LEN as nat, rest);
    lemma_utf8_nonempty(name);
}

/// Law: a request with an empty name is never read back: the reader takes
/// the empty message for a closed stream.
pub proof fn lemma_empty_request_refused()
    ensures
        request_decode(encode_utf8(Seq::<char>::empty())) == Err::<Seq<char>, RequestError>(
            RequestError::Empty,
        ),
{
    reveal_with_fuel(encode_utf8, 1);
}

/// Law: a peer that reads what another peer wrote for a response gets the
/// same response, when it is not empty and fits the response limit.
pub proof fn lemma_response_roundtrip(resp: Seq<u8>, rest: Seq<u8>)
    requires
        resp.len() > 0,
        resp.len() <= MAX_RESPONSE_LEN,
    ensures
        frame_decode(varint_encode(resp.len()) + resp + rest, MAX_RESPONSE_LEN as nat) == Ok::<
            Seq<u8>,
            FrameError,
        >(resp),
        response_decode(resp) == Ok::<Seq<u8>, ResponseError>(resp),
{
    crate::varint::lemma_frame_roundtrip(resp, MAX_RESPONSE_LEN as nat, rest);
}

/// Law: an empty message is read as a closed stream, a message that is not
/// UTF-8 is refused as such, and any other message is the request for the
/// name that its bytes spell.
pub proof fn lemma_request_cases(b: Seq<u8>)
    ensures
        b.len() == 0 ==> request_decode(b) == Err::<Seq<char>, RequestError>(RequestError::Empty),
        b.len() > 0 && !valid_utf8(b) ==> request_decode(b) == Err::<Seq<char>, RequestError>(
            RequestError::InvalidUtf8,
        ),
        b.len() > 0 && valid_utf8(b) ==> (match request_decode(b) {
            Ok(name) => encode_utf8(name) == b,
            Err(_) => false,
        }),
{
    broadcast use vstd::utf8::decode_utf8_encode_utf8;

}

/// Law: a response is read as sent, unless it is empty.
pub proof fn lemma_response_cases(b: Seq<u8>)
    ensures
        b.len() == 0 ==> response_decode(b) == Err::<Seq<u8>, ResponseError>(ResponseError::Empty),
        b.len() > 0 ==> response_decode(b) == Ok::<Seq<u8>, ResponseError>(b),
{
}

} // verus!
