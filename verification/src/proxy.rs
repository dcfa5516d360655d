//! Forwarding a request to a proxy address: what is sent, and how the
//! answer is read back.
use vstd::prelude::*;
use vstd::utf8::encode_utf8;
use crate::config::{Server, ServerView};
use crate::file_safe::{check_source_full_path_safe, path_safe};
use crate::global::{
    APPLICATION_X_WWW_FORM_URLENCODED, CLOSE, CONNECTION, CONTENT_LENGTH, CONTENT_TYPE,
    DEFAULT_HTTP_PORT, HEADER_BR, HEADER_BR_DOUBLE, HOST, HTTPS_SCHEME, ORIGIN, POST, REFERER,
};
use crate::http::request::{
    http_base_ok, http_base_spec, http_data, query_entries, query_slice_ok, query_string,
    query_ok_exec, HttpRequest, HttpRequestView,
};
use crate::outside::{header_items, header_map_items, parse_uri, parsed_uri};
use crate::strmap::{
    extend_entries, insert_entry, keys_distinct, law_lookup_after_insert, law_lookup_after_remove,
    lookup, lookup_or_empty, remove_entry, Entries, StrMap,
};
use crate::text::{
    line_of_piece, text_lines,
    chars_to_bytes, chars_to_string, concat, copy_range, copy_suffix, decimal, find_chars,
    find_str, lemma_find_from, push_all, push_decimal, push_str, split_pieces, split_str,
    str_chars, vec_views,
};

verus! {

/// The address a request is forwarded to: the scheme, host and port of the
/// proxy address, then the request path.
pub open spec fn proxy_target(sv: ServerView, req: HttpRequestView, idx: int) -> Seq<char> {
    let b = http_base_spec(sv.proxy[idx]);
    b.0 + "://"@ + b.1 + b.2 + req.path
}

/// The parameters sent: those of the proxy address's query, then the
/// request's own, each set in turn.
pub open spec fn proxy_params(sv: ServerView, req: HttpRequestView, idx: int) -> Entries {
    extend_entries(query_entries(sv.proxy[idx]), req.body)
}

/// The query part of the forwarded address: the target address itself for a
/// `POST`, else the parameters as a query string.
pub open spec fn proxy_query(sv: ServerView, req: HttpRequestView, idx: int) -> Seq<char> {
    if req.method == POST@ {
        proxy_target(sv, req, idx)
    } else {
        query_string(proxy_params(sv, req, idx))
    }
}

/// The full forwarded address, query included.
pub open spec fn proxy_full_url(sv: ServerView, req: HttpRequestView, idx: int) -> Seq<char> {
    proxy_target(sv, req, idx) + seq!['?'] + proxy_query(sv, req, idx)
}

/// The body sent: the parameters encoded as the request's content type says.
pub open spec fn proxy_body(sv: ServerView, req: HttpRequestView, idx: int) -> Seq<char> {
    http_data(req.method, lookup_or_empty(req.headers, CONTENT_TYPE@), proxy_params(sv, req, idx))
}

/// The host that a parsed target names (empty where it names none).
pub open spec fn uri_host(u: (Option<Seq<char>>, Option<u16>)) -> Seq<char> {
    match u.0 {
        Some(h) => h,
        None => Seq::empty(),
    }
}

/// The port that a parsed target names (the HTTP port where it names none).
pub open spec fn uri_port(u: (Option<Seq<char>>, Option<u16>)) -> u16 {
    match u.1 {
        Some(p) => p,
        None => DEFAULT_HTTP_PORT,
    }
}

/// The headers sent: the request's own, with `host`, `origin`, `referer`,
/// the body's length and type (both removed for an empty body) and
/// `connection: close` set.
pub open spec fn forwarded_headers(
    headers: Entries,
    target: Seq<char>,
    full: Seq<char>,
    u: (Option<Seq<char>>, Option<u16>),
    body: Seq<char>,
) -> Entries {
    let h0 = insert_entry(headers, HOST@, uri_host(u) + seq![':'] + decimal(uri_port(u) as nat));
    let tb = http_base_spec(target);
    let h1 = insert_entry(h0, ORIGIN@, tb.0 + "://"@ + tb.1 + tb.2 + tb.3);
    let h2 = insert_entry(h1, REFERER@, target);
    let h3 = insert_entry(h2, HOST@, http_base_spec(full).1);
    let n = encode_utf8(body).len();
    let h4 = if n == 0 {
        remove_entry(remove_entry(h3, CONTENT_LENGTH@), CONTENT_TYPE@)
    } else {
        insert_entry(insert_entry(h3, CONTENT_LENGTH@, decimal(n)), CONTENT_TYPE@, APPLICATION_X_WWW_FORM_URLENCODED@)
    };
    insert_entry(h4, CONNECTION@, CLOSE@)
}

/// Each header as `name: value` and a line break.
pub open spec fn header_lines(es: Entries) -> Seq<char> {
    concat(es.map_values(|e: (Seq<char>, Seq<char>)| e.0 + seq![':', ' '] + e.1 + HEADER_BR@))
}

/// The text of a request: the request line, the headers, an empty line and
/// the body.
pub open spec fn request_text(method: Seq<char>, url: Seq<char>, headers: Entries, body: Seq<char>) -> Seq<char> {
    method + seq![' '] + url + " HTTP/1.1"@ + HEADER_BR@ + header_lines(headers) + HEADER_BR@ + body
}

/// The request can be prepared: the proxy address exists and parses, its
/// query can be read, and where the request would be sent, the target and
/// full addresses parse too.
pub open spec fn proxy_plan_ok(sv: ServerView, req: HttpRequestView, idx: int) -> bool {
    &&& 0 <= idx < sv.proxy.len()
    &&& http_base_ok(sv.proxy[idx])
    &&& query_slice_ok(sv.proxy[idx])
    &&& (path_safe(sv.hotlink_protection, proxy_full_url(sv, req, idx))
        && parsed_uri(proxy_target(sv, req, idx)) is Some) ==> http_base_ok(proxy_target(sv, req, idx))
        && http_base_ok(proxy_full_url(sv, req, idx))
}

/// A request ready to be forwarded: the full address, where to connect,
/// whether over TLS, the headers, and the whole text to write.
pub struct ProxyRequest {
    pub proxy_url: String,
    pub host: String,
    pub port: u16,
    pub tls: bool,
    pub headers: StrMap,
    pub text: String,
}

/// What forwarding a request comes to.
pub enum ProxyPlan {
    /// The full address is refused by the server's path rules; the answer is
    /// the not-found page, with no headers.
    Refused,
    /// The target address does not parse as a URI; nothing is sent.
    BadUri,
    /// The request to send.
    Send(ProxyRequest),
}

/// Each header as `name: value` and a line break, appended to `out`.
fn push_header_lines(out: &mut Vec<char>, m: &StrMap)
    ensures
        final(out)@ == old(out)@ + header_lines(m@),
{
    let ghost parts = m@.map_values(|e: (Seq<char>, Seq<char>)| e.0 + seq![':', ' '] + e.1 + HEADER_BR@);
    let mut i: usize = 0;
    let n = m.len();
    while i < n
        invariant
            i <= n,
            n == m@.len(),
            parts == m@.map_values(|e: (Seq<char>, Seq<char>)| e.0 + seq![':', ' '] + e.1 + HEADER_BR@),
            out@ == old(out)@ + concat(parts.take(i as int)),
        decreases n - i,
    {
        push_str(out, m.key_at(i).as_str());
        out.push(':');
        out.push(' ');
        push_str(out, m.value_at(i).as_str());
        push_str(out, HEADER_BR);
        assert(parts.take(i + 1).drop_last() =~= parts.take(i as int));
        assert(out@ =~= old(out)@ + concat(parts.take(i + 1)));
        i += 1;
    }
    assert(parts.take(n as int) =~= parts);
}

/// The decimal digits of `n`.
fn decimal_string(n: usize) -> (r: String)
    ensures
        r@ == decimal(n as nat),
{
    let mut v: Vec<char> = Vec::new();
    push_decimal(&mut v, n);
    assert(v@ =~= decimal(n as nat));
    chars_to_string(&v)
}

/// What forwarding `request` to the `idx`-th proxy address comes to, as
/// contents.
pub open spec fn plan_matches(sv: ServerView, req: HttpRequestView, idx: int, r: ProxyPlan) -> bool {
    let target = proxy_target(sv, req, idx);
    let full = proxy_full_url(sv, req, idx);
    if !path_safe(sv.hotlink_protection, full) {
        r is Refused
    } else {
        match parsed_uri(target) {
            None => r is BadUri,
            Some(u) => r matches ProxyPlan::Send(p) && {
                &&& p.proxy_url@ == full
                &&& p.host@ == uri_host(u)
                &&& p.port == uri_port(u)
                &&& p.tls == (http_base_spec(full).0 == HTTPS_SCHEME@)
                &&& p.headers@ == forwarded_headers(req.headers, target, full, u, proxy_body(sv, req, idx))
                &&& p.text@ == request_text(req.method, full, p.headers@, proxy_body(sv, req, idx))
            },
        }
    }
}

/// The target address, the full address and the parameters of forwarding
/// `request` to the `proxy_index`-th proxy address.
fn proxy_addresses(server: &Server, request: &HttpRequest, proxy_index: usize) -> (r: (String, String, StrMap))
    requires
        proxy_index < server@.proxy.len(),
        http_base_ok(server@.proxy[proxy_index as int]),
        query_slice_ok(server@.proxy[proxy_index as int]),
    ensures
        r.0@ == proxy_target(server@, request@, proxy_index as int),
        r.1@ == proxy_full_url(server@, request@, proxy_index as int),
        r.2@ == proxy_params(server@, request@, proxy_index as int),
{
    let ghost idx = proxy_index as int;
    let addr = &server.proxy[proxy_index];
    assert(addr@ == server@.proxy[idx]);
    let base = HttpRequest::get_url_without_path_query_hash(addr.as_str());
    let mut url_chars = str_chars(base.as_str());
    push_str(&mut url_chars, request.path.as_str());
    let url = chars_to_string(&url_chars);
    assert(url@ =~= proxy_target(server@, request@, idx));
    let mut params = HttpRequest::get_query_from_request_url(addr.as_str());
    params.extend(&request.body);
    let post = POST.to_owned();
    let query = if request.method == post {
        url.clone()
    } else {
        HttpRequest::generate_query_string(&params)
    };
    let mut full_chars = str_chars(url.as_str());
    full_chars.push('?');
    push_str(&mut full_chars, query.as_str());
    let full = chars_to_string(&full_chars);
    assert(full@ =~= proxy_full_url(server@, request@, idx));
    (url, full, params)
}

/// Prepares forwarding `request` to the `proxy_index`-th proxy address of
/// `server`: refused where the full address breaks the server's path rules,
/// not sent where the target does not parse as a URI, else the request to
/// send over TLS exactly when the full address is `https`.
pub fn send_sync_request(server: &Server, request: &HttpRequest, proxy_index: usize) -> (r: ProxyPlan)
    requires
        proxy_plan_ok(server@, request@, proxy_index as int),
    ensures
        plan_matches(server@, request@, proxy_index as int, r),
{
    let ghost idx = proxy_index as int;
    let (url, full, params) = proxy_addresses(server, request, proxy_index);
    if !check_source_full_path_safe(server, full.as_str()) {
        return ProxyPlan::Refused;
    }
    let content_type = request.headers.get_or_empty(CONTENT_TYPE);
    let body = HttpRequest::generate_http_data(request.method.as_str(), content_type.as_str(), &params);
    match parse_uri(&url) {
        None => ProxyPlan::BadUri,
        Some((h, p)) => {
            let ghost u = (
                match &h {
                    Some(x) => Some(x@),
                    None => None::<Seq<char>>,
                },
                p,
            );
            let host = match h {
                Some(x) => x,
                None => String::new(),
            };
            let port = match p {
                Some(x) => x,
                None => DEFAULT_HTTP_PORT,
            };
            let mut headers = request.headers.duplicate();
            let mut host_port = str_chars(host.as_str());
            host_port.push(':');
            push_decimal(&mut host_port, port as usize);
            assert(host_port@ =~= uri_host(u) + seq![':'] + decimal(uri_port(u) as nat));
            let ghost target = proxy_target(server@, request@, idx);
            let ghost fu = proxy_full_url(server@, request@, idx);
            headers.insert(HOST.to_owned(), chars_to_string(&host_port));
            let scheme = HttpRequest::get_scheme(full.as_str());
            let tls = scheme == HTTPS_SCHEME.to_owned();
            let origin = HttpRequest::get_url_without_query_hash(url.as_str());
            headers.insert(ORIGIN.to_owned(), origin);
            headers.insert(REFERER.to_owned(), url.clone());
            headers.insert(HOST.to_owned(), HttpRequest::get_ip_domain(full.as_str()));
            let body_len = body.as_str().as_bytes().len();
            if body_len == 0 {
                headers.remove(CONTENT_LENGTH);
                headers.remove(CONTENT_TYPE);
            } else {
                headers.insert(CONTENT_LENGTH.to_owned(), decimal_string(body_len));
                headers.insert(CONTENT_TYPE.to_owned(), APPLICATION_X_WWW_FORM_URLENCODED.to_owned());
            }
            headers.insert(CONNECTION.to_owned(), CLOSE.to_owned());
            let head = HttpRequest::get_http_request_protocol_head(full.as_str(), request.method.as_str());
            let mut text = str_chars(head.as_str());
            push_header_lines(&mut text, &headers);
            push_str(&mut text, HEADER_BR);
            push_str(&mut text, body.as_str());
            let text = chars_to_string(&text);
            assert(headers@ == forwarded_headers(request@.headers, target, fu, u, body@));
            ProxyPlan::Send(ProxyRequest { proxy_url: full, host, port, tls, headers, text })
        },
    }
}

/// `send_sync_request`, or `None` where the request cannot be prepared: the
/// proxy address is missing or does not parse, its query cannot be read, or
/// the addresses to send to do not parse.
pub fn try_send_sync_request(server: &Server, request: &HttpRequest, proxy_index: usize) -> (r: Option<ProxyPlan>)
    ensures
        r is Some <==> proxy_plan_ok(server@, request@, proxy_index as int),
        r matches Some(plan) ==> plan_matches(server@, request@, proxy_index as int, plan),
{
    if proxy_index >= server.proxy.len() {
        return None;
    }
    let addr = &server.proxy[proxy_index];
    if HttpRequest::try_get_http_base(addr.as_str()).is_none() {
        return None;
    }
    let addr_chars = str_chars(addr.as_str());
    if !query_ok_exec(&addr_chars) {
        return None;
    }
    let (url, full, _params) = proxy_addresses(server, request, proxy_index);
    if check_source_full_path_safe(server, full.as_str()) && parse_uri(&url).is_some() {
        if HttpRequest::try_get_http_base(url.as_str()).is_none()
            || HttpRequest::try_get_http_base(full.as_str()).is_none() {
            return None;
        }
    }
    Some(send_sync_request(server, request, proxy_index))
}

/// The name and value of a header line split at its first `: `.
pub open spec fn header_pair(line: Seq<char>) -> Option<(Seq<char>, Seq<char>)> {
    match find_str(line, seq![':', ' ']) {
        Some(i) => Some((line.take(i), line.skip(i + 2))),
        None => None,
    }
}

/// The headers of a list of lines, each line with a `: ` setting its name
/// to its value.
pub open spec fn headers_of_lines(lines: Seq<Seq<char>>) -> Entries
    decreases lines.len(),
{
    if lines.len() == 0 {
        Seq::empty()
    } else {
        let prev = headers_of_lines(lines.drop_last());
        match header_pair(lines.last()) {
            Some((k, v)) => insert_entry(prev, k, v),
            None => prev,
        }
    }
}

/// The headers and body of a proxied answer: split at the first empty line,
/// the headers read from the lines before it and the rest taken as the
/// body; nothing where there is no empty line.
pub open spec fn proxy_response_spec(text: Seq<char>) -> (Entries, Seq<u8>) {
    match find_str(text, HEADER_BR_DOUBLE@) {
        Some(i) => (headers_of_lines(text_lines(text.take(i))), encode_utf8(text.skip(i + 4))),
        None => (Seq::empty(), Seq::empty()),
    }
}

/// The headers and body of the answer text of a forwarded request.
pub fn parse_proxy_response(response: &str) -> (r: (StrMap, Vec<u8>))
    ensures
        (r.0@, r.1@) == proxy_response_spec(response@),
{
    let s = str_chars(response);
    let sep = str_chars(HEADER_BR_DOUBLE);
    proof {
        reveal_strlit("\r\n\r\n");
    }
    assert(sep@.len() == 4);
    match find_chars(&s, &sep) {
        None => (StrMap::new(), Vec::new()),
        Some(i) => {
            let head = copy_range(&s, 0, i);
            assert(head@ =~= s@.take(i as int));
            let n_all = s.len();
            assert(i + 4 <= n_all);
            let rest = copy_suffix(&s, i + 4);
            assert(rest@ =~= s@.skip(i + 4));
            let nl: Vec<char> = vec!['\n'];
            assert(nl@ =~= seq!['\n']);
            let pieces = split_pieces(&head, &nl);
            let ghost lines = text_lines(head@);
            let mut m = StrMap::new();
            let mut k: usize = 0;
            let n = pieces.len();
            let colon: Vec<char> = vec![':', ' '];
            assert(colon@ =~= seq![':', ' ']);
            while k < n
                invariant
                    k <= n,
                    n == pieces@.len(),
                    vec_views(pieces@) == split_str(head@, seq!['\n']),
                    lines == text_lines(head@),
                    colon@ == seq![':', ' '],
                    m@ == headers_of_lines(lines.take(k as int)),
                decreases n - k,
            {
                let piece = &pieces[k];
                assert(vec_views(pieces@)[k as int] == piece@);
                let line = line_of_piece(piece, k + 1 < n);
                assert(line@ =~= lines[k as int]);
                assert(lines.take(k + 1).drop_last() =~= lines.take(k as int));
                match find_chars(&line, &colon) {
                    Some(j) => {
                        let ll = line.len();
                        assert(j + 2 <= ll);
                        let key = copy_range(&line, 0, j);
                        let value = copy_suffix(&line, j + 2);
                        assert(key@ =~= line@.take(j as int));
                        assert(value@ =~= line@.skip(j + 2));
                        m.insert(chars_to_string(&key), chars_to_string(&value));
                    },
                    None => {},
                }
                k += 1;
            }
            assert(lines.take(n as int) =~= lines);
            (m, chars_to_bytes(&rest))
        },
    }
}

/// A forwarded request asks to close the connection, names the proxy
/// address's host and the target as referer, and declares the body's byte
/// length where the body is not empty (and no length where it is).
pub proof fn law_forwarded_headers(
    headers: Entries,
    target: Seq<char>,
    full: Seq<char>,
    u: (Option<Seq<char>>, Option<u16>),
    body: Seq<char>,
)
    requires
        keys_distinct(headers),
    ensures
        keys_distinct(forwarded_headers(headers, target, full, u, body)),
        lookup(forwarded_headers(headers, target, full, u, body), CONNECTION@) == Some(CLOSE@),
        lookup(forwarded_headers(headers, target, full, u, body), HOST@) == Some(http_base_spec(full).1),
        lookup(forwarded_headers(headers, target, full, u, body), REFERER@) == Some(target),
        encode_utf8(body).len() > 0 ==> lookup(forwarded_headers(headers, target, full, u, body), CONTENT_LENGTH@)
            == Some(decimal(encode_utf8(body).len())),
        encode_utf8(body).len() == 0 ==> lookup(forwarded_headers(headers, target, full, u, body), CONTENT_LENGTH@) is None,
{
    reveal_strlit("host");
    reveal_strlit("origin");
    reveal_strlit("referer");
    reveal_strlit("content-length");
    reveal_strlit("content-type");
    reveal_strlit("connection");
    assert(HOST@.len() != REFERER@.len());
    assert(HOST@.len() != CONTENT_LENGTH@.len() && HOST@.len() != CONTENT_TYPE@.len());
    assert(REFERER@.len() != CONTENT_LENGTH@.len() && REFERER@.len() != CONTENT_TYPE@.len());
    assert(CONNECTION@.len() != HOST@.len() && CONNECTION@.len() != REFERER@.len());
    assert(CONNECTION@.len() != CONTENT_LENGTH@.len());
    assert(CONTENT_LENGTH@.len() != CONTENT_TYPE@.len());
    let tb = http_base_spec(target);
    let hp = uri_host(u) + seq![':'] + decimal(uri_port(u) as nat);
    let h0 = insert_entry(headers, HOST@, hp);
    law_lookup_after_insert(headers, HOST@, hp, HOST@);
    let h1 = insert_entry(h0, ORIGIN@, tb.0 + "://"@ + tb.1 + tb.2 + tb.3);
    law_lookup_after_insert(h0, ORIGIN@, tb.0 + "://"@ + tb.1 + tb.2 + tb.3, HOST@);
    let h2 = insert_entry(h1, REFERER@, target);
    law_lookup_after_insert(h1, REFERER@, target, HOST@);
    let h3 = insert_entry(h2, HOST@, http_base_spec(full).1);
    law_lookup_after_insert(h2, HOST@, http_base_spec(full).1, REFERER@);
    let n = encode_utf8(body).len();
    let h4 = if n == 0 {
        remove_entry(remove_entry(h3, CONTENT_LENGTH@), CONTENT_TYPE@)
    } else {
        insert_entry(insert_entry(h3, CONTENT_LENGTH@, decimal(n)), CONTENT_TYPE@, APPLICATION_X_WWW_FORM_URLENCODED@)
    };
    if n == 0 {
        let r1 = remove_entry(h3, CONTENT_LENGTH@);
        law_lookup_after_remove(h3, CONTENT_LENGTH@, HOST@);
        law_lookup_after_remove(h3, CONTENT_LENGTH@, REFERER@);
        law_lookup_after_remove(r1, CONTENT_TYPE@, HOST@);
        law_lookup_after_remove(r1, CONTENT_TYPE@, REFERER@);
        law_lookup_after_remove(r1, CONTENT_TYPE@, CONTENT_LENGTH@);
    } else {
        let i1 = insert_entry(h3, CONTENT_LENGTH@, decimal(n));
        law_lookup_after_insert(h3, CONTENT_LENGTH@, decimal(n), HOST@);
        law_lookup_after_insert(h3, CONTENT_LENGTH@, decimal(n), REFERER@);
        law_lookup_after_insert(i1, CONTENT_TYPE@, APPLICATION_X_WWW_FORM_URLENCODED@, HOST@);
        law_lookup_after_insert(i1, CONTENT_TYPE@, APPLICATION_X_WWW_FORM_URLENCODED@, REFERER@);
        law_lookup_after_insert(i1, CONTENT_TYPE@, APPLICATION_X_WWW_FORM_URLENCODED@, CONTENT_LENGTH@);
    }
    law_lookup_after_insert(h4, CONNECTION@, CLOSE@, HOST@);
    law_lookup_after_insert(h4, CONNECTION@, CLOSE@, REFERER@);
    law_lookup_after_insert(h4, CONNECTION@, CLOSE@, CONTENT_LENGTH@);
}

/// A byte that a header value may hold as text: visible ASCII or a tab.
pub open spec fn visible_ascii(b: u8) -> bool {
    (32 <= b && b < 127) || b == 9
}

/// The text of a header value (`HeaderValue::to_str`): its bytes as
/// characters where all are visible ASCII, else none.
pub open spec fn header_value_text(bytes: Seq<u8>) -> Option<Seq<char>> {
    if forall|i: int| 0 <= i < bytes.len() ==> visible_ascii(#[trigger] bytes[i]) {
        Some(Seq::new(bytes.len(), |i: int| bytes[i] as char))
    } else {
        None
    }
}

/// The map of header items taken in order: each item whose value is text
/// sets its name to that text; the others are skipped.
pub open spec fn items_map(items: Seq<(Seq<char>, Seq<u8>)>) -> Entries
    decreases items.len(),
{
    if items.len() == 0 {
        Seq::empty()
    } else {
        let prev = items_map(items.drop_last());
        match header_value_text(items.last().1) {
            Some(t) => insert_entry(prev, items.last().0, t),
            None => prev,
        }
    }
}

/// The text of header value bytes, where all are visible ASCII.
fn value_text(bytes: &Vec<u8>) -> (r: Option<String>)
    ensures
        match r {
            Some(t) => header_value_text(bytes@) == Some(t@),
            None => header_value_text(bytes@) is None,
        },
{
    let mut out: Vec<char> = Vec::new();
    let mut i: usize = 0;
    while i < bytes.len()
        invariant
            i <= bytes@.len(),
            out@ == Seq::new(i as nat, |j: int| bytes@[j] as char),
            forall|j: int| 0 <= j < i ==> visible_ascii(#[trigger] bytes@[j]),
        decreases bytes.len() - i,
    {
        let b = bytes[i];
        if !((32 <= b && b < 127) || b == 9) {
            assert(!visible_ascii(bytes@[i as int]));
            return None;
        }
        out.push(b as char);
        assert(out@ =~= Seq::new((i + 1) as nat, |j: int| bytes@[j] as char));
        i += 1;
    }
    Some(chars_to_string(&out))
}

/// The map of a list of header items, taken in order.
pub fn headers_from_items(items: &Vec<(String, Vec<u8>)>) -> (r: StrMap)
    ensures
        r@ == items_map(items@.map_values(|e: (String, Vec<u8>)| (e.0@, e.1@))),
{
    let ghost iv = items@.map_values(|e: (String, Vec<u8>)| (e.0@, e.1@));
    let mut m = StrMap::new();
    let mut i: usize = 0;
    while i < items.len()
        invariant
            i <= items@.len(),
            iv == items@.map_values(|e: (String, Vec<u8>)| (e.0@, e.1@)),
            m@ == items_map(iv.take(i as int)),
        decreases items.len() - i,
    {
        assert(iv.take(i + 1).drop_last() =~= iv.take(i as int));
        assert(iv.take(i + 1).last() == (items@[i as int].0@, items@[i as int].1@));
        match value_text(&items[i].1) {
            Some(t) => m.insert(items[i].0.clone(), t),
            None => {},
        }
        i += 1;
    }
    assert(iv.take(items@.len() as int) =~= iv);
    m
}

/// The headers of a proxied answer as a map: each value that is text set
/// under its name, taken in the map's own order (which decides between
/// values that share a name).
pub fn convert_headers_to_hashmap(headers: &::http::HeaderMap) -> (r: StrMap)
    ensures
        exists|order: Seq<(Seq<char>, Seq<u8>)>|
            order.to_multiset() == header_map_items(*headers) && r@ == #[trigger] items_map(order),
{
    let items = header_items(headers);
    let r = headers_from_items(&items);
    let ghost order = items@.map_values(|e: (String, Vec<u8>)| (e.0@, e.1@));
    assert(order.to_multiset() == header_map_items(*headers) && r@ == items_map(order));
    r
}

} // verus!
