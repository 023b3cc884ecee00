//! The snapshot encoding chain: base64, then gzip at best level.
//!
//! Both steps are performed by outside crates behind trusted wrappers; their
//! results are named by uninterpreted functions, as both encodings are
//! deterministic functions of their input.

use vstd::prelude::*;

verus! {

/// What base64's standard padded alphabet makes of a byte string.
pub uninterp spec fn base64_of(s: Seq<u8>) -> Seq<char>;

/// What flate2's gzip stream at best compression makes of the UTF-8 bytes
/// of a string.
pub uninterp spec fn gzip_best_of(s: Seq<char>) -> Seq<u8>;

/// Relies on base64's `Engine::encode` with the `STANDARD` engine: a
/// deterministic, padded, standard-alphabet encoding whose length is
/// `4 * ceil(n / 3)`. The engine computes its output size up front and
/// panics if that computation overflows `usize`, hence the bound on the
/// input length.
#[verifier::external_body]
pub(crate) fn base64_encode(v: &Vec<u8>) -> (r: String)
    requires
        v@.len() <= usize::MAX as int / 4,
    ensures
        r@ == base64_of(v@),
        r@.len() == 4 * ((v@.len() + 2) / 3),
{
    base64::Engine::encode(&base64::engine::general_purpose::STANDARD, v)
}

/// Relies on flate2's `GzEncoder` at `Compression::best` writing into a
/// `Vec`: the produced gzip stream is a deterministic function of the input
/// bytes (the header is fixed: zero mtime, operating-system byte 255, and
/// the rust-backend deflate is deterministic), and the encoder cannot fail
/// here — the in-memory writer never errors, and the deflate stream is
/// driven only with the crate's own valid parameters, so its error statuses
/// are unreachable.
#[verifier::external_body]
pub(crate) fn gzip_best(s: &str) -> (r: Option<Vec<u8>>)
    ensures
        r is Some,
        r.unwrap()@ == gzip_best_of(s@),
{
    let mut encoder = flate2::write::GzEncoder::new(Vec::new(), flate2::Compression::best());
    if std::io::Write::write_all(&mut encoder, s.as_bytes()).is_err() {
        return None;
    }
    encoder.finish().ok()
}

} // verus!
