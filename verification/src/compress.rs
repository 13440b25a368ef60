use vstd::prelude::*;

verus! {

/// The bytes that flate2's gzip encoder, at the default level, produces
/// for the given input. The output depends on the input bytes alone.
pub uninterp spec fn gzip_of(data: Seq<u8>) -> Seq<u8>;

/// The bytes that flate2's gzip decoder recovers from the given input.
pub uninterp spec fn ungzip_of(data: Seq<u8>) -> Seq<u8>;

/// Relies on flate2::write::GzEncoder (new / write_all / finish): gzip
/// compression of the whole input into an in-memory buffer; decompressing
/// the output recovers the input.
#[verifier::external_body]
pub fn gzip_bytes(data: &Vec<u8>) -> (r: Vec<u8>)
    ensures
        r@ == gzip_of(data@),
        ungzip_of(r@) == data@,
{
    let mut enc = flate2::write::GzEncoder::new(Vec::new(), flate2::Compression::default());
    std::io::Write::write_all(&mut enc, data.as_slice())
        .expect("writing to an in-memory gzip stream cannot fail");
    enc.finish().expect("finishing an in-memory gzip stream cannot fail")
}

/// Relies on flate2::read::GzDecoder (new / read_to_end): gzip
/// decompression; it succeeds on anything the gzip encoder produced.
#[verifier::external_body]
pub fn gunzip_bytes(data: &Vec<u8>) -> (r: Option<Vec<u8>>)
    ensures
        r matches Some(v) ==> v@ == ungzip_of(data@),
        (exists|x: Seq<u8>| data@ == gzip_of(x)) ==> r is Some,
{
    let mut dec = flate2::read::GzDecoder::new(data.as_slice());
    let mut out = Vec::new();
    match std::io::Read::read_to_end(&mut dec, &mut out) {
        Ok(_) => Some(out),
        Err(_) => None,
    }
}

} // verus!
