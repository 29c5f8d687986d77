use vstd::prelude::*;
use vstd::utf8::{decode_utf8, encode_utf8, valid_utf8};
use std::io::{Read, Write};
use crate::idset::ids_view;
use crate::lines::{joined, lines_of, lines_spec, render_lines};

verus! {

/// The gzip stream that flate2 writes for `data` at the default level.
pub uninterp spec fn gzip_of(data: Seq<u8>) -> Seq<u8>;

/// What flate2 reads back from a gzip stream, `None` when the stream is not valid.
pub uninterp spec fn gunzip_of(data: Seq<u8>) -> Option<Seq<u8>>;

/// Relies on flate2::write::GzEncoder with Compression::default: the gzip stream of
/// `data`. Writing into a vector does not fail.
#[verifier::external_body]
fn gzip(data: &[u8]) -> (r: Vec<u8>)
    ensures
        r@ == gzip_of(data@),
{
    let mut encoder = flate2::write::GzEncoder::new(Vec::new(), flate2::Compression::default());
    match encoder.write_all(data) {
        Ok(()) => match encoder.finish() {
            Ok(v) => v,
            Err(_) => Vec::new(),
        },
        Err(_) => Vec::new(),
    }
}

/// Relies on flate2::read::GzDecoder: the bytes that a gzip stream holds, or `None`
/// when the stream is not valid.
#[verifier::external_body]
fn gunzip(data: &[u8]) -> (r: Option<Vec<u8>>)
    ensures
        r matches Some(v) ==> gunzip_of(data@) == Some(v@),
        r is None ==> gunzip_of(data@) is None,
{
    let mut out = Vec::new();
    match flate2::read::GzDecoder::new(data).read_to_end(&mut out) {
        Ok(_) => Some(out),
        Err(_) => None,
    }
}

/// Relies on String::from_utf8: the text that the bytes encode, or `None` when they
/// are not valid UTF-8.
#[verifier::external_body]
fn text_of(bytes: Vec<u8>) -> (r: Option<String>)
    ensures
        r is Some <==> valid_utf8(bytes@),
        r matches Some(s) ==> s@ == decode_utf8(bytes@),
{
    String::from_utf8(bytes).ok()
}

/// Relies on str::as_bytes, copied into a vector: the UTF-8 encoding of `s`.
#[verifier::external_body]
fn bytes_of(s: &str) -> (r: Vec<u8>)
    ensures
        r@ == encode_utf8(s@),
{
    s.as_bytes().to_vec()
}

/// Compresses bytes for storage.
pub fn compress(data: &Vec<u8>) -> (r: Vec<u8>)
    ensures
        r@ == gzip_of(data@),
{
    gzip(data.as_slice())
}

/// The text held in a compressed artifact, or `None` when the stream or the text is
/// not valid.
pub fn decompress_text(gz: &Vec<u8>) -> (r: Option<String>)
    ensures
        r is Some <==> (gunzip_of(gz@) matches Some(b) && valid_utf8(b)),
        r matches Some(s) ==> s@ == decode_utf8(gunzip_of(gz@)->0),
{
    match gunzip(gz.as_slice()) {
        Some(b) => text_of(b),
        None => None,
    }
}

/// The compressed artifact that holds each line followed by a line feed.
pub fn encode_lines(lines: &Vec<String>) -> (r: Vec<u8>)
    ensures
        r@ == gzip_of(encode_utf8(joined(ids_view(lines@)))),
{
    let text = render_lines(lines);
    let bytes = bytes_of(text.as_str());
    compress(&bytes)
}

/// The non-empty lines of a compressed artifact, or `None` when it cannot be read.
pub fn decode_lines(gz: &Vec<u8>) -> (r: Option<Vec<String>>)
    ensures
        r is Some <==> (gunzip_of(gz@) matches Some(b) && valid_utf8(b)),
        r matches Some(ls) ==> ids_view(ls@) == lines_spec(decode_utf8(gunzip_of(gz@)->0)),
{
    match decompress_text(gz) {
        Some(text) => Some(lines_of(text.as_str())),
        None => None,
    }
}

} // verus!
