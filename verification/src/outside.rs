//! The calls into outside code (std functions that vstd leaves unspecified,
//! and the outside crates), each with the contract that the rest of the
//! crate relies on.
use vstd::prelude::*;
use vstd::multiset::Multiset;
use vstd::utf8::{decode_utf8, encode_utf8, valid_utf8};
use rand::Rng;
use std::io::Write;

verus! {

/// Unicode lower-casing of `s`, as `str::to_lowercase` computes it.
pub uninterp spec fn lowercase(s: Seq<char>) -> Seq<char>;

/// `str::to_lowercase`: its result is the name `lowercase` of the argument.
/// The Unicode case tables themselves are not stated.
#[verifier::external_body]
pub(crate) fn to_lowercase(s: &str) -> (r: String)
    ensures
        r@ == lowercase(s@),
{
    s.to_lowercase()
}

/// `String::from_utf8`: the string decoded from `bytes` exactly when they are
/// valid UTF-8.
#[verifier::external_body]
pub(crate) fn utf8_to_string(bytes: &Vec<u8>) -> (r: Option<String>)
    ensures
        r is Some <==> valid_utf8(bytes@),
        r matches Some(s) ==> s@ == decode_utf8(bytes@),
{
    String::from_utf8(bytes.clone()).ok()
}

/// Whether `regex::Regex::new` accepts `pattern`.
pub uninterp spec fn regex_compiles(pattern: Seq<char>) -> bool;

/// Whether the regex compiled from `pattern` matches somewhere in `text`.
pub uninterp spec fn regex_matches(pattern: Seq<char>, text: Seq<char>) -> bool;

/// `regex::Regex::new(pattern)` followed by `Regex::is_match(text)`: `None`
/// where the pattern does not compile, else whether it matches. Both results
/// are names; the regex semantics are not stated.
#[verifier::external_body]
pub(crate) fn regex_match(pattern: &str, text: &str) -> (r: Option<bool>)
    ensures
        r is Some <==> regex_compiles(pattern@),
        r matches Some(b) ==> b == regex_matches(pattern@, text@),
{
    match regex::Regex::new(pattern) {
        Ok(re) => Some(re.is_match(text)),
        Err(_) => None,
    }
}

/// `rand::Rng::gen_range(0..n)` on the thread-local generator: some index
/// below `n`. Which one is chance.
#[verifier::external_body]
pub(crate) fn random_index(n: usize) -> (r: usize)
    requires
        n > 0,
    ensures
        r < n,
{
    rand::thread_rng().gen_range(0..n)
}

/// The parts of a URL as the `url` crate reads them.
pub struct UrlParts {
    pub scheme: String,
    pub host: Option<String>,
    pub port: Option<u16>,
    pub path: String,
}

/// The view of parsed URL parts: scheme, host, port (or the scheme's known
/// default), path.
pub open spec fn url_parts_view(p: Option<UrlParts>) -> Option<(Seq<char>, Option<Seq<char>>, Option<u16>, Seq<char>)> {
    match p {
        Some(p) => Some((
            p.scheme@,
            match p.host {
                Some(h) => Some(h@),
                None => None::<Seq<char>>,
            },
            p.port,
            p.path@,
        )),
        None => None,
    }
}

/// `url::Url::parse` of `url`: `None` where it fails, else its `scheme()`,
/// `host_str()`, `port_or_known_default()` and `path()`.
pub uninterp spec fn parsed_url(url: Seq<char>) -> Option<(Seq<char>, Option<Seq<char>>, Option<u16>, Seq<char>)>;

/// `url::Url::parse`, with the four parts read off the parsed URL. The result
/// is the name `parsed_url` of the argument; URL syntax is not stated.
#[verifier::external_body]
pub(crate) fn parse_url(url: &str) -> (r: Option<UrlParts>)
    ensures
        url_parts_view(r) == parsed_url(url@),
{
    match url::Url::parse(url) {
        Ok(u) => Some(UrlParts {
            scheme: u.scheme().to_owned(),
            host: u.host_str().map(|h| h.to_owned()),
            port: u.port_or_known_default(),
            path: u.path().to_owned(),
        }),
        Err(_) => None,
    }
}

/// `http::Uri::try_from` of `uri`: `None` where it fails, else its `host()`
/// and `port_u16()`.
pub uninterp spec fn parsed_uri(uri: Seq<char>) -> Option<(Option<Seq<char>>, Option<u16>)>;

/// `http::Uri::try_from`, with host and explicit port read off. The result is
/// the name `parsed_uri` of the argument; URI syntax is not stated.
#[verifier::external_body]
pub(crate) fn parse_uri(uri: &String) -> (r: Option<(Option<String>, Option<u16>)>)
    ensures
        parsed_uri(uri@) == (match r {
            Some((h, p)) => Some((
                match h {
                    Some(h) => Some(h@),
                    None => None::<Seq<char>>,
                },
                p,
            )),
            None => None,
        }),
{
    match ::http::Uri::try_from(uri.clone()) {
        Ok(u) => Some((u.host().map(|h| h.to_owned()), u.port_u16())),
        Err(_) => None,
    }
}

/// Whether `b` is an ASCII letter or digit.
pub open spec fn is_ascii_alnum(b: u8) -> bool {
    (0x30 <= b <= 0x39) || (0x41 <= b <= 0x5a) || (0x61 <= b <= 0x7a)
}

/// The upper-case hexadecimal digit for `d < 16`.
pub open spec fn hex_upper(d: u8) -> char {
    if d < 10 {
        ((d + 0x30) as u8) as char
    } else {
        ((d - 10 + 0x41) as u8) as char
    }
}

/// The lower-case hexadecimal digit for `d < 16`.
pub open spec fn hex_lower(d: u8) -> char {
    if d < 10 {
        ((d + 0x30) as u8) as char
    } else {
        ((d - 10 + 0x61) as u8) as char
    }
}

/// Percent-encoding of `bytes` where everything but ASCII letters and digits
/// is encoded, as `%XX` with upper-case hex digits.
pub open spec fn percent_encoded(bytes: Seq<u8>) -> Seq<char>
    decreases bytes.len(),
{
    if bytes.len() == 0 {
        Seq::empty()
    } else {
        let b = bytes[0];
        let head = if is_ascii_alnum(b) {
            seq![b as char]
        } else {
            seq!['%', hex_upper(b / 16), hex_upper(b % 16)]
        };
        head + percent_encoded(bytes.drop_first())
    }
}

/// `percent_encoding::percent_encode` with `NON_ALPHANUMERIC`, on the UTF-8
/// bytes of `s`, collected into a string.
#[verifier::external_body]
pub(crate) fn percent_encode_alnum(s: &str) -> (r: String)
    ensures
        r@ == percent_encoded(encode_utf8(s@)),
{
    percent_encoding::percent_encode(s.as_bytes(), percent_encoding::NON_ALPHANUMERIC).to_string()
}

/// The value of a hexadecimal digit byte, if it is one.
pub open spec fn hex_value(b: u8) -> Option<u8> {
    if 0x30 <= b <= 0x39 {
        Some((b - 0x30) as u8)
    } else if 0x41 <= b <= 0x46 {
        Some((b - 0x41 + 10) as u8)
    } else if 0x61 <= b <= 0x66 {
        Some((b - 0x61 + 10) as u8)
    } else {
        None
    }
}

/// Percent-decoding of `bytes`: each `%` followed by two hex digits becomes
/// the byte they spell; every other byte stays.
pub open spec fn percent_decoded_bytes(bytes: Seq<u8>) -> Seq<u8>
    decreases bytes.len(),
{
    if bytes.len() == 0 {
        Seq::empty()
    } else if bytes[0] == 0x25 && bytes.len() >= 3 && hex_value(bytes[1]) is Some && hex_value(
        bytes[2],
    ) is Some {
        seq![(hex_value(bytes[1]).unwrap() * 16 + hex_value(bytes[2]).unwrap()) as u8]
            + percent_decoded_bytes(bytes.skip(3))
    } else {
        seq![bytes[0]] + percent_decoded_bytes(bytes.drop_first())
    }
}

/// The string that `percent_decode_str(s).decode_utf8_lossy()` gives.
pub uninterp spec fn percent_decoded_lossy(s: Seq<char>) -> Seq<char>;

/// `percent_encoding::percent_decode_str(s).decode_utf8_lossy()`. Where the
/// decoded bytes are valid UTF-8 the result is their decoding; how invalid
/// sequences are replaced is not stated.
#[verifier::external_body]
pub(crate) fn percent_decode_lossy(s: &str) -> (r: String)
    ensures
        r@ == percent_decoded_lossy(s@),
        valid_utf8(percent_decoded_bytes(encode_utf8(s@))) ==> r@ == decode_utf8(
            percent_decoded_bytes(encode_utf8(s@)),
        ),
{
    percent_encoding::percent_decode_str(s).decode_utf8_lossy().to_string()
}

/// JSON escape of one character, as `serde_json` writes string contents.
pub open spec fn json_escape_char(c: char) -> Seq<char> {
    let v = c as u32;
    if c == '"' {
        seq!['\\', '"']
    } else if c == '\\' {
        seq!['\\', '\\']
    } else if v == 0x08 {
        seq!['\\', 'b']
    } else if v == 0x09 {
        seq!['\\', 't']
    } else if v == 0x0a {
        seq!['\\', 'n']
    } else if v == 0x0c {
        seq!['\\', 'f']
    } else if v == 0x0d {
        seq!['\\', 'r']
    } else if v < 0x20 {
        seq!['\\', 'u', '0', '0', hex_lower((v / 16) as u8), hex_lower((v % 16) as u8)]
    } else {
        seq![c]
    }
}

/// The escaped contents of a JSON string.
pub open spec fn json_escaped(s: Seq<char>) -> Seq<char>
    decreases s.len(),
{
    if s.len() == 0 {
        Seq::empty()
    } else {
        json_escape_char(s[0]) + json_escaped(s.drop_first())
    }
}

/// `s` as a JSON string literal.
pub open spec fn json_quoted(s: Seq<char>) -> Seq<char> {
    seq!['"'] + json_escaped(s) + seq!['"']
}

/// `serde_json::to_string` of a string. It succeeds (a string is written
/// into a `Vec`, which never fails), giving the quoted and escaped literal.
#[verifier::external_body]
pub(crate) fn json_string(s: &str) -> (r: Option<String>)
    ensures
        r is Some,
        r matches Some(q) ==> q@ == json_quoted(s@),
{
    serde_json::to_string(s).ok()
}

/// The gzip stream that `flate2::write::GzEncoder` produces for `data` at
/// compression `level`, or `None` where finishing the stream fails.
pub uninterp spec fn gzip_output(data: Seq<u8>, level: u32) -> Option<Seq<u8>>;

/// `flate2::write::GzEncoder::new(Vec::new(), Compression::new(level))`,
/// `write_all(data)` (its error ignored) and `finish()`. The result is the
/// name `gzip_output` of the arguments; a produced stream starts with the
/// gzip magic bytes. The compressed bytes themselves are not stated.
#[verifier::external_body]
pub(crate) fn gzip_encode(data: &[u8], level: u32) -> (r: Option<Vec<u8>>)
    requires
        level <= 10,
    ensures
        gzip_output(data@, level) == (match r {
            Some(v) => Some(v@),
            None => None::<Seq<u8>>,
        }),
        r matches Some(v) ==> v@.len() >= 2 && v@[0] == 0x1f && v@[1] == 0x8b,
{
    let mut encoder = flate2::write::GzEncoder::new(Vec::new(), flate2::Compression::new(level));
    let _ = encoder.write_all(data);
    encoder.finish().ok()
}

/// `http::HeaderMap`, carried as an opaque value.
#[verifier::external_type_specification]
#[verifier::external_body]
#[verifier::reject_recursive_types(T)]
pub struct ExHeaderMap<T>(::http::HeaderMap<T>);

/// `http::HeaderValue`, the value type of a header map, carried as an opaque
/// value.
#[verifier::external_type_specification]
#[verifier::external_body]
pub struct ExHeaderValue(::http::HeaderValue);

/// What a header map holds: one item per value, its name and its bytes.
pub uninterp spec fn header_map_items(m: ::http::HeaderMap) -> Multiset<(Seq<char>, Seq<u8>)>;

/// `HeaderMap::iter`, each item handed out as its name
/// (`HeaderName::as_str`) and its value's bytes (`HeaderValue::as_bytes`).
/// Together the items are what the map holds; their order is the map's
/// own, which its documentation leaves arbitrary, and is not stated.
#[verifier::external_body]
pub(crate) fn header_items(m: &::http::HeaderMap) -> (r: Vec<(String, Vec<u8>)>)
    ensures
        r@.map_values(|e: (String, Vec<u8>)| (e.0@, e.1@)).to_multiset() == header_map_items(*m),
{
    m.iter().map(|(k, v)| (k.as_str().to_owned(), v.as_bytes().to_vec())).collect()
}

} // verus!
