//! Response compression.
use vstd::prelude::*;
use crate::global::{ACCEPT_ENCODING, CONTENT_ENCODING, GZIP};
use crate::outside::{gzip_encode, gzip_output, lowercase, to_lowercase};
use crate::strmap::{lookup_or_empty, StrMap};
use crate::text::{contains_str, find_chars, str_chars};

verus! {

/// The gzip encoding of `data`, or `data` itself where encoding fails.
pub open spec fn encoded(data: Seq<u8>, level: u32) -> Seq<u8> {
    match gzip_output(data, level) {
        Some(o) => o,
        None => data,
    }
}

/// Encodes `data` with gzip at compression `level`; where the encoder fails
/// the data is returned unchanged.
pub fn encoder(data: &Vec<u8>, level: u32) -> (r: Vec<u8>)
    requires
        level <= 10,
    ensures
        r@ == encoded(data@, level),
{
    match gzip_encode(data.as_slice(), level) {
        Some(v) => v,
        None => {
            let r = data.clone();
            assert(r@ =~= data@);
            r
        },
    }
}

/// `value`, lower-cased, mentions gzip.
pub open spec fn mentions_gzip(value: Seq<char>) -> bool {
    contains_str(lowercase(value), GZIP@)
}

/// Gzip is used when the client accepts it and the server's headers ask for it.
pub open spec fn gzip_wanted(client: crate::strmap::Entries, server: crate::strmap::Entries) -> bool {
    mentions_gzip(lookup_or_empty(client, ACCEPT_ENCODING@))
        && mentions_gzip(lookup_or_empty(server, CONTENT_ENCODING@))
}

fn mentions_gzip_exec(value: &str) -> (r: bool)
    ensures
        r == mentions_gzip(value@),
{
    let l = to_lowercase(value);
    let lc = str_chars(l.as_str());
    let g = str_chars(GZIP);
    find_chars(&lc, &g).is_some()
}

/// Whether to compress: the client's `accept-encoding` and the server's
/// `content-encoding` both mention gzip, case aside.
pub fn judge_need_open_gzip(client_header: &StrMap, server_header: &StrMap) -> (r: bool)
    ensures
        r == gzip_wanted(client_header@, server_header@),
{
    let c = client_header.get_or_empty(ACCEPT_ENCODING);
    let s = server_header.get_or_empty(CONTENT_ENCODING);
    mentions_gzip_exec(c.as_str()) && mentions_gzip_exec(s.as_str())
}

} // verus!
