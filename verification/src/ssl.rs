//! The TLS certificate and key of a server.
use vstd::prelude::*;

verus! {

/// The bytes read from a file, or nothing where it could not be read.
pub open spec fn read_or_empty(data: Option<Vec<u8>>) -> Seq<u8> {
    match data {
        Some(d) => d@,
        None => Seq::empty(),
    }
}

/// The certificate and key of a server, from what was read from its
/// certificate path and its key path; a file that could not be read gives
/// no bytes.
pub fn get_ssl(certificate: Option<Vec<u8>>, key: Option<Vec<u8>>) -> (r: (Vec<u8>, Vec<u8>))
    ensures
        r.0@ == read_or_empty(certificate),
        r.1@ == read_or_empty(key),
{
    let c = match certificate {
        Some(d) => d,
        None => Vec::new(),
    };
    let k = match key {
        Some(d) => d,
        None => Vec::new(),
    };
    (c, k)
}

} // verus!
