//! How a file travels between peers: where the sender finds it, how it is
//! framed with its name, and where the receiver stores it.
use vstd::prelude::*;
use vstd::utf8::{decode_utf8, encode_utf8, valid_utf8};

use crate::codec::{utf8_text, FileRequest, FileResponse};
use crate::varint::append_bytes;

verus! {

broadcast use {vstd::utf8::encode_utf8_decode_utf8, vstd::utf8::encode_utf8_valid_utf8};

/// Directory, with its trailing slash, where files are served from and
/// stored to.
pub const MUSIC_PATH: &'static str = "./assets/music/";

/// Extension of the files that peers exchange.
pub const FILE_EXTENSION: &'static str = ".mp3";

/// The name under which a requested file is served.
pub open spec fn served_name(request: Seq<char>) -> Seq<char> {
    request + FILE_EXTENSION@
}

/// The name under which a requested file is served: the request with the
/// extension appended.
pub fn response_file_name(request: &FileRequest) -> (r: String)
    ensures
        r@ == served_name(request@),
{
    let mut name = request.0.clone();
    name.append(FILE_EXTENSION);
    name
}

/// Where the sender reads the requested file.
pub fn response_file_path(request: &FileRequest) -> (r: String)
    ensures
        r@ == MUSIC_PATH@ + served_name(request@),
{
    let mut path = String::from_str(MUSIC_PATH);
    path.append(request.0.as_str());
    path.append(FILE_EXTENSION);
    proof {
        assert(path@ =~= MUSIC_PATH@ + served_name(request@));
    }
    path
}

/// A file on the wire: one byte with the length of its name in UTF-8 (kept
/// modulo 256), the name, then the contents.
pub open spec fn file_frame(name: Seq<char>, contents: Seq<u8>) -> Seq<u8> {
    seq![(encode_utf8(name).len() % 256) as u8] + encode_utf8(name) + contents
}

/// The name and contents that a file frame holds, when it holds any: its
/// first byte must exist, the name must fit in the rest and be UTF-8.
pub open spec fn file_frame_parse(b: Seq<u8>) -> Option<(Seq<char>, Seq<u8>)> {
    if b.len() == 0 {
        None
    } else if 1 + b[0] > b.len() {
        None
    } else if !valid_utf8(b.subrange(1, 1 + b[0])) {
        None
    } else {
        Some((decode_utf8(b.subrange(1, 1 + b[0])), b.subrange(1 + b[0], b.len() as int)))
    }
}

/// The response to a request: the contents of the requested file, framed
/// with the name it is served under.
pub fn response_download(request: &FileRequest, contents: &[u8]) -> (r: FileResponse)
    ensures
        r@ == file_frame(served_name(request@), contents@),
{
    let name = response_file_name(request);
    let name_bytes = name.as_str().as_bytes();
    let mut out: Vec<u8> = Vec::new();
    out.push((name_bytes.len() % 256) as u8);
    append_bytes(&mut out, name_bytes);
    append_bytes(&mut out, contents);
    proof {
        assert(out@ =~= file_frame(served_name(request@), contents@));
    }
    FileResponse(out)
}

/// A file received from a peer, and where it is stored.
#[derive(Debug, Clone, PartialEq, Eq)]
pub struct ReceivedFile {
    pub name: String,
    pub path: String,
    pub contents: Vec<u8>,
}

/// Reads the file that a response carries, and where to store it; `None`
/// when the response is not a file frame.
pub fn save_file(response: &FileResponse) -> (r: Option<ReceivedFile>)
    ensures
        match r {
            Some(f) => {
                &&& file_frame_parse(response@) == Some((f.name@, f.contents@))
                &&& f.path@ == MUSIC_PATH@ + f.name@
            },
            None => file_frame_parse(response@) is None,
        },
{
    let bytes = response.0.as_slice();
    let total = bytes.len();
    if total == 0 {
        return None;
    }
    let n = bytes[0] as usize;
    if n > total - 1 {
        return None;
    }
    let name_bytes = vstd::slice::slice_to_vec(vstd::slice::slice_subrange(bytes, 1, 1 + n));
    match utf8_text(name_bytes) {
        None => None,
        Some(name) => {
            let contents = vstd::slice::slice_to_vec(
                vstd::slice::slice_subrange(bytes, 1 + n, total),
            );
            let mut path = String::from_str(MUSIC_PATH);
            path.append(name.as_str());
            Some(ReceivedFile { name, path, contents })
        },
    }
}

/// Law: the receiver of a response reads back the name and the contents
/// that the sender framed, and stores the file at the path the sender read
/// it from, when the served name takes fewer than 256 bytes.
pub proof fn lemma_transfer_roundtrip(request: Seq<char>, contents: Seq<u8>)
    requires
        encode_utf8(served_name(request)).len() < 256,
    ensures
        file_frame_parse(file_frame(served_name(request), contents)) == Some(
            (served_name(request), contents),
        ),
        MUSIC_PATH@ + served_name(request) == MUSIC_PATH@ + request + FILE_EXTENSION@,
{
    let name = served_name(request);
    let e = encode_utf8(name);
    let b = file_frame(name, contents);
    assert(b[0] == e.len() as u8);
    assert(b.subrange(1, (1 + e.len()) as int) =~= e);
    assert(b.subrange((1 + e.len()) as int, b.len() as int) =~= contents);
    assert(MUSIC_PATH@ + served_name(request) =~= MUSIC_PATH@ + request + FILE_EXTENSION@);
}

/// Law: a response built for a request is never empty, so the receiver
/// always reads it as a response.
pub proof fn lemma_response_not_empty(name: Seq<char>, contents: Seq<u8>)
    ensures
        file_frame(name, contents).len() > 0,
{
}

/// Law: the response to a request starts with one byte holding the length
/// of the served name in UTF-8 modulo 256, then that name's bytes, then the
/// file contents unchanged.
pub proof fn lemma_response_layout(request: Seq<char>, contents: Seq<u8>)
    ensures
        file_frame(served_name(request), contents) == seq![
            (encode_utf8(request + FILE_EXTENSION@).len() % 256) as u8,
        ] + encode_utf8(request + FILE_EXTENSION@) + contents,
{
}

/// Law: a frame made of a length byte `k`, then `k` bytes of UTF-8 text,
/// then anything, holds that text and that rest; one whose length byte
/// announces more bytes than follow, or whose name is not UTF-8, or that is
/// empty, holds nothing.
pub proof fn lemma_frame_parts(name: Seq<u8>, rest: Seq<u8>, short: Seq<u8>)
    requires
        name.len() < 256,
        short.len() < name.len(),
    ensures
        valid_utf8(name) ==> file_frame_parse(seq![name.len() as u8] + name + rest) == Some(
            (decode_utf8(name), rest),
        ),
        !valid_utf8(name) ==> file_frame_parse(seq![name.len() as u8] + name + rest) is None,
        file_frame_parse(seq![name.len() as u8] + short) is None,
        file_frame_parse(Seq::<u8>::empty()) is None,
{
    let b = seq![name.len() as u8] + name + rest;
    assert(b[0] == name.len() as u8);
    assert(b.subrange(1, (1 + name.len()) as int) =~= name);
    assert(b.subrange((1 + name.len()) as int, b.len() as int) =~= rest);
    let c = seq![name.len() as u8] + short;
    assert(c[0] == name.len() as u8);
}

} // verus!
