//! Digests of archive bytes. A digest tells two archives apart; it is no
//! guard against tampering.

use vstd::prelude::*;

verus! {

/// The MD5 digest of `data`, written as lower-case hexadecimal digits.
pub uninterp spec fn md5_hex(data: Seq<u8>) -> Seq<char>;

/// The number of characters of every digest.
pub const DIGEST_LEN: usize = 32;

/// `md5::compute`, formatted with `{:x}`: sixteen bytes, two digits each.
/// The text depends on the bytes alone.
#[verifier::external_body]
fn md5_hex_of(data: &[u8]) -> (hex: String)
    ensures
        hex@ == md5_hex(data@),
        hex@.len() == DIGEST_LEN,
{
    format!("{:x}", md5::compute(data))
}

/// The digest of an archive, computed from exactly these bytes.
pub fn archive_digest(archive: &Vec<u8>) -> (digest: String)
    ensures
        digest@ == md5_hex(archive@),
        digest@.len() == DIGEST_LEN,
{
    md5_hex_of(archive.as_slice())
}

/// The digest that stands for "nothing cached": the empty text, which no
/// archive has.
pub open spec fn absent_digest() -> Seq<char> {
    Seq::<char>::empty()
}

/// The digest of what is cached, or of nothing.
pub open spec fn digest_of_cached(cached: Option<Seq<u8>>) -> Seq<char> {
    match cached {
        Some(bytes) => md5_hex(bytes),
        None => absent_digest(),
    }
}

/// The digest to send for a cached archive, or the empty digest where
/// nothing is cached.
pub fn cached_digest(cached: Option<&Vec<u8>>) -> (digest: String)
    ensures
        digest@ == digest_of_cached(
            match cached {
                Some(bytes) => Some(bytes@),
                None => None,
            },
        ),
        cached is Some <==> digest@.len() > 0,
{
    match cached {
        Some(bytes) => archive_digest(bytes),
        None => String::new(),
    }
}

/// Whether a client that holds `local` is up to date with a server whose
/// archive has the digest `server`: the two are equal and `local` is not the
/// empty digest.
pub open spec fn is_fresh(local: Seq<char>, server: Seq<char>) -> bool {
    local.len() > 0 && local == server
}

/// Decides whether the client's copy is fresh.
pub fn digests_match(local: &String, server: &String) -> (fresh: bool)
    ensures
        fresh == is_fresh(local@, server@),
{
    !local.as_str().is_empty() && *local == *server
}

} // verus!
