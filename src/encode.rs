use vstd::prelude::*;
use vstd::string::StringExecFns;
use std::io::Write;
use crate::models::BlueprintError;

verus! {

#[verifier::external_type_specification]
#[verifier::external_body]
pub struct ExIoError(std::io::Error);

/// The zlib stream that flate2 writes for `data` at its best compression level.
pub uninterp spec fn zlib_best_of(data: Seq<u8>) -> Seq<u8>;

/// The standard, padded base64 text of `data`.
pub uninterp spec fn base64_of(data: Seq<u8>) -> Seq<char>;

/// Relies on flate2's `ZlibEncoder::new` with `Compression::best()`, its
/// `write_all` and `finish`: the encoder writes only into the in-memory `Vec`,
/// which never fails, so the call succeeds; the bytes written are the
/// compressed stream of `data`, which opens with the two-byte zlib header
/// (miniz_oxide writes it with the first block).
#[verifier::external_body]
fn zlib_compress_best(data: &Vec<u8>) -> (r: Result<Vec<u8>, std::io::Error>)
    ensures
        r is Ok,
        r matches Ok(c) ==> c@ == zlib_best_of(data@) && c@.len() >= 2,
{
    let mut encoder = flate2::write::ZlibEncoder::new(Vec::new(), flate2::Compression::best());
    encoder.write_all(data)?;
    encoder.finish()
}

/// Relies on base64 0.21's `encode` (the padded standard engine): four
/// characters for every started group of three bytes. It panics when that
/// length overflows `usize`, which `requires` rules out.
#[verifier::external_body]
#[allow(deprecated)]
fn to_base64(data: &Vec<u8>) -> (r: String)
    requires
        data@.len() <= usize::MAX / 2,
    ensures
        r@ == base64_of(data@),
        r@.len() == 4 * ((data@.len() + 2) / 3),
{
    base64::encode(data)
}

/// The exchange string: the version character `0` followed by `encoded`.
pub fn with_version_prefix(encoded: &String) -> (r: String)
    ensures
        r@ == seq!['0'] + encoded@,
{
    let prefix = "0".to_owned();
    proof {
        reveal_strlit("0");
    }
    prefix.concat(encoded.as_str())
}

/// Encodes a serialized graph as an exchange string: compressed with zlib at
/// the best level, base64-encoded and prefixed with the version character `0`.
/// It fails, with `CompressionFailure`, only when the compressed stream is too
/// long for its base64 text to fit in memory.
pub fn encode_blueprint(json: &Vec<u8>) -> (r: Result<String, BlueprintError>)
    ensures
        r is Err <==> zlib_best_of(json@).len() > usize::MAX / 2,
        r matches Ok(s) ==> {
            &&& s@ == seq!['0'] + base64_of(zlib_best_of(json@))
            &&& s@.len() == 1 + 4 * ((zlib_best_of(json@).len() + 2) / 3)
            &&& s@.len() > 1
        },
        r matches Err(e) ==> e == BlueprintError::CompressionFailure,
{
    let compressed = match zlib_compress_best(json) {
        Ok(c) => c,
        Err(_) => {
            return Err(BlueprintError::CompressionFailure);
        },
    };
    if compressed.len() > usize::MAX / 2 {
        return Err(BlueprintError::CompressionFailure);
    }
    let encoded = to_base64(&compressed);
    let s = with_version_prefix(&encoded);
    assert(s@.len() == 1 + encoded@.len());
    Ok(s)
}

} // verus!
