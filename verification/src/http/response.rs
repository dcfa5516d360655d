//! Assembling responses: status line, headers, optional gzip, body.
use vstd::prelude::*;
use vstd::utf8::encode_utf8;
use crate::config::{drop_leading_slash, root_dir, root_dir_chars, str_views, unix_chars, unix_path, Server, ServerView};
use crate::global::{
    ACCEPTED_TEXT, BAD_GATEWAY_TEXT, BAD_REQUEST_TEXT, CONTENT_ENCODING, CONTENT_LENGTH,
    CONTINUE_TEXT, CREATED_TEXT, DEFAULT_GZIP_LEVEL, FORBIDDEN_TEXT, FOUND_TEXT, GZIP,
    INTERNAL_SERVER_ERROR_TEXT, METHOD_NOT_ALLOWED_TEXT, MOVED_PERMANENTLY_TEXT, NOT_FOUND_TEXT,
    NOT_IMPLEMENTED_TEXT, NOT_MODIFIED_TEXT, NO_CONTENT_TEXT, OK_TEXT, REQUEST_TIMEOUT_TEXT,
    RESPONSE_HEADER_BR, SERVICE_UNAVAILABLE_TEXT, SWITCHING_PROTOCOLS_TEXT, UNAUTHORIZED_TEXT,
    UNKNOWN_STATUS_CODE,
};
use crate::gzip::{encoded, encoder, gzip_wanted, judge_need_open_gzip};
use crate::http::request::HttpRequest;
use crate::outside::{lowercase, to_lowercase};
use crate::strmap::{
    insert_entry, keys_distinct, law_lookup_after_remove, lemma_insert_distinct, lookup,
    lookup_or_empty, remove_entry, Entries, StrMap,
};
use crate::template::{error_html, get_error_html};
use crate::text::{split_str, text_lines, text_lines_of};
use crate::text::{
    chars_to_bytes, chars_to_string, concat, contains_str, decimal, find_chars, push_all,
    push_decimal, push_str, str_chars,
};
use crate::utils::tools::{
    hash_map_to_string, items_entries, map_text, pair_text, trim_spaces,
    parse_string_array_to_hashmap,
};

verus! {

/// The reason phrase of a status code.
pub open spec fn code_msg(code: usize) -> Seq<char> {
    if code == 100 { CONTINUE_TEXT@ }
    else if code == 101 { SWITCHING_PROTOCOLS_TEXT@ }
    else if code == 200 { OK_TEXT@ }
    else if code == 201 { CREATED_TEXT@ }
    else if code == 202 { ACCEPTED_TEXT@ }
    else if code == 204 { NO_CONTENT_TEXT@ }
    else if code == 301 { MOVED_PERMANENTLY_TEXT@ }
    else if code == 302 { FOUND_TEXT@ }
    else if code == 304 { NOT_MODIFIED_TEXT@ }
    else if code == 400 { BAD_REQUEST_TEXT@ }
    else if code == 401 { UNAUTHORIZED_TEXT@ }
    else if code == 403 { FORBIDDEN_TEXT@ }
    else if code == 404 { NOT_FOUND_TEXT@ }
    else if code == 405 { METHOD_NOT_ALLOWED_TEXT@ }
    else if code == 408 { REQUEST_TIMEOUT_TEXT@ }
    else if code == 500 { INTERNAL_SERVER_ERROR_TEXT@ }
    else if code == 501 { NOT_IMPLEMENTED_TEXT@ }
    else if code == 502 { BAD_GATEWAY_TEXT@ }
    else if code == 503 { SERVICE_UNAVAILABLE_TEXT@ }
    else { UNKNOWN_STATUS_CODE@ }
}

/// The reason phrase of a status code; unknown codes get a fixed text.
pub fn get_code_msg(code: usize) -> (r: String)
    ensures
        r@ == code_msg(code),
{
    let t: &str = if code == 100 { CONTINUE_TEXT }
    else if code == 101 { SWITCHING_PROTOCOLS_TEXT }
    else if code == 200 { OK_TEXT }
    else if code == 201 { CREATED_TEXT }
    else if code == 202 { ACCEPTED_TEXT }
    else if code == 204 { NO_CONTENT_TEXT }
    else if code == 301 { MOVED_PERMANENTLY_TEXT }
    else if code == 302 { FOUND_TEXT }
    else if code == 304 { NOT_MODIFIED_TEXT }
    else if code == 400 { BAD_REQUEST_TEXT }
    else if code == 401 { UNAUTHORIZED_TEXT }
    else if code == 403 { FORBIDDEN_TEXT }
    else if code == 404 { NOT_FOUND_TEXT }
    else if code == 405 { METHOD_NOT_ALLOWED_TEXT }
    else if code == 408 { REQUEST_TIMEOUT_TEXT }
    else if code == 500 { INTERNAL_SERVER_ERROR_TEXT }
    else if code == 501 { NOT_IMPLEMENTED_TEXT }
    else if code == 502 { BAD_GATEWAY_TEXT }
    else if code == 503 { SERVICE_UNAVAILABLE_TEXT }
    else { UNKNOWN_STATUS_CODE };
    t.to_owned()
}

/// The status line `HTTP/1.1 <code> <reason>`.
pub open spec fn status_line(code: usize) -> Seq<char> {
    "HTTP/1.1 "@ + decimal(code as nat) + seq![' '] + code_msg(code)
}

fn get_http_response_protocol_head(code: usize) -> (r: Vec<char>)
    ensures
        r@ == status_line(code),
{
    let mut v: Vec<char> = Vec::new();
    push_str(&mut v, "HTTP/1.1 ");
    push_decimal(&mut v, code);
    v.push(' ');
    let m = get_code_msg(code);
    push_str(&mut v, m.as_str());
    v
}

/// `es` with each entry of `more` set under its lower-cased name, in order.
pub open spec fn lower_into(es: Entries, more: Entries) -> Entries
    decreases more.len(),
{
    if more.len() == 0 {
        es
    } else {
        insert_entry(lower_into(es, more.drop_last()), lowercase(more.last().0), more.last().1)
    }
}

/// The lines of the configured header items: an item may hold several
/// header lines, each one a header of its own.
pub open spec fn item_lines(items: Seq<Seq<char>>) -> Seq<Seq<char>>
    decreases items.len(),
{
    if items.len() == 0 {
        Seq::empty()
    } else {
        item_lines(items.drop_last()) + text_lines(items.last())
    }
}

/// The response headers before the gzip decision: the server's configured
/// header lines and then the forwarded headers, names lower-cased, without
/// `content-length`.
pub open spec fn base_headers(sv: ServerView, proxy_header: Entries) -> Entries {
    remove_entry(
        lower_into(lower_into(Seq::empty(), items_entries(Seq::empty(), item_lines(sv.response_header_list))), proxy_header),
        CONTENT_LENGTH@,
    )
}

/// Each configured header item cut into its lines.
fn header_item_lines(items: &Vec<String>) -> (r: Vec<String>)
    ensures
        str_views(r@) == item_lines(str_views(items@)),
{
    let ghost iv = str_views(items@);
    let mut out: Vec<String> = Vec::new();
    let mut i: usize = 0;
    while i < items.len()
        invariant
            i <= items@.len(),
            iv == str_views(items@),
            str_views(out@) == item_lines(iv.take(i as int)),
        decreases items.len() - i,
    {
        let lines = text_lines_of(items[i].as_str());
        let ghost before = str_views(out@);
        let ghost lv = lines@.map_values(|x: String| x@);
        let mut j: usize = 0;
        while j < lines.len()
            invariant
                j <= lines@.len(),
                lv == lines@.map_values(|x: String| x@),
                str_views(out@) == before + lv.take(j as int),
            decreases lines.len() - j,
        {
            let ghost o = out@;
            out.push(lines[j].clone());
            assert(str_views(out@) =~= str_views(o).push(lv[j as int]));
            assert(lv.take(j + 1) =~= lv.take(j as int).push(lv[j as int]));
            j += 1;
        }
        assert(lv.take(lv.len() as int) =~= lv);
        assert(iv.take(i + 1).drop_last() =~= iv.take(i as int));
        assert(iv.take(i + 1).last() == items@[i as int]@);
        i += 1;
    }
    assert(iv.take(iv.len() as int) =~= iv);
    out
}

/// The forwarded headers say the body is gzip already.
pub open spec fn forwarded_gzip(proxy_header: Entries) -> bool {
    contains_str(lookup_or_empty(proxy_header, CONTENT_ENCODING@), GZIP@)
}

/// Whether the body is compressed here: the client and the headers ask for
/// it, and the forwarded headers do not say the body is gzip already.
pub open spec fn use_gzip(request_headers: Entries, proxy_header: Entries, headers: Entries) -> bool {
    gzip_wanted(request_headers, headers) && !forwarded_gzip(proxy_header)
}

/// The headers that are sent: `content-encoding` stays where the body is
/// compressed here or the forwarded body is gzip already (it is then passed
/// through as forwarded), and is removed otherwise.
pub open spec fn sent_headers(request_headers: Entries, proxy_header: Entries, sv: ServerView) -> Entries {
    let h = base_headers(sv, proxy_header);
    if use_gzip(request_headers, proxy_header, h) || forwarded_gzip(proxy_header) {
        h
    } else {
        remove_entry(h, CONTENT_ENCODING@)
    }
}

/// The body that is sent.
pub open spec fn sent_body(request_headers: Entries, proxy_header: Entries, sv: ServerView, content: Seq<u8>) -> Seq<u8> {
    if use_gzip(request_headers, proxy_header, base_headers(sv, proxy_header)) {
        encoded(content, DEFAULT_GZIP_LEVEL)
    } else {
        content
    }
}

/// The head of a response: status line, `content-length`, the other headers,
/// and the blank line.
pub open spec fn response_head(code: usize, body_len: nat, header_text: Seq<char>) -> Seq<char> {
    status_line(code) + RESPONSE_HEADER_BR@ + CONTENT_LENGTH@ + seq![':', ' '] + decimal(body_len)
        + RESPONSE_HEADER_BR@ + header_text + RESPONSE_HEADER_BR@ + RESPONSE_HEADER_BR@
}

/// The bytes of a whole response.
pub open spec fn response_bytes(
    sv: ServerView,
    request_headers: Entries,
    code: usize,
    proxy_header: Entries,
    content: Seq<u8>,
) -> Seq<u8> {
    let body = sent_body(request_headers, proxy_header, sv, content);
    encode_utf8(
        response_head(
            code,
            body.len(),
            map_text(sent_headers(request_headers, proxy_header, sv), RESPONSE_HEADER_BR@),
        ),
    ) + body
}

/// Each pair of `more` set in `m` under its lower-cased name.
fn insert_lowered(m: &mut StrMap, more: &StrMap)
    ensures
        final(m)@ == lower_into(old(m)@, more@),
{
    let mut i: usize = 0;
    let n = more.len();
    while i < n
        invariant
            i <= n,
            n == more@.len(),
            m@ == lower_into(old(m)@, more@.take(i as int)),
        decreases n - i,
    {
        let k = to_lowercase(more.key_at(i).as_str());
        let v = more.value_at(i).clone();
        m.insert(k, v);
        assert(more@.take(i + 1).drop_last() =~= more@.take(i as int));
        assert(more@.take(i + 1).last() == more@[i as int]);
        i += 1;
    }
    assert(more@.take(n as int) =~= more@);
}

/// The response for `code` with body `response_content`: the server's
/// response header lines (an item holding several lines gives one header
/// per line) with the forwarded `response_header` over them, names
/// lower-cased; `content-length` set to the length of the body that is sent;
/// the body gzip-compressed where the client accepts gzip, the headers'
/// `content-encoding` mentions it and the forwarded headers do not already
/// name gzip. `content-encoding` stays where the body is compressed here or
/// the forwarded body is gzip already, and is removed otherwise.
pub fn edit_response(
    server: &Server,
    http_request: &HttpRequest,
    code: usize,
    response_header: &StrMap,
    response_content: &Vec<u8>,
) -> (r: Vec<u8>)
    ensures
        r@ == response_bytes(server@, http_request.headers@, code, response_header@, response_content@),
{
    let lines = header_item_lines(&server.response_header_list);
    let parsed = parse_string_array_to_hashmap(&lines);
    let mut header = StrMap::new();
    insert_lowered(&mut header, &parsed);
    insert_lowered(&mut header, response_header);
    header.remove(CONTENT_LENGTH);
    let mut is_need_open_gzip = judge_need_open_gzip(&http_request.headers, &header);
    let encoding = response_header.get_or_empty(CONTENT_ENCODING);
    let enc = str_chars(encoding.as_str());
    let g = str_chars(GZIP);
    let already_gzip = find_chars(&enc, &g).is_some();
    if already_gzip {
        is_need_open_gzip = false;
    }
    if !is_need_open_gzip && !already_gzip {
        header.remove(CONTENT_ENCODING);
    }
    let header_text = hash_map_to_string(&header, RESPONSE_HEADER_BR);
    let res_content = if is_need_open_gzip {
        encoder(response_content, DEFAULT_GZIP_LEVEL)
    } else {
        let c = response_content.clone();
        assert(c@ =~= response_content@);
        c
    };
    let mut head = get_http_response_protocol_head(code);
    push_str(&mut head, RESPONSE_HEADER_BR);
    push_str(&mut head, CONTENT_LENGTH);
    head.push(':');
    head.push(' ');
    push_decimal(&mut head, res_content.len());
    push_str(&mut head, RESPONSE_HEADER_BR);
    push_str(&mut head, header_text.as_str());
    push_str(&mut head, RESPONSE_HEADER_BR);
    push_str(&mut head, RESPONSE_HEADER_BR);
    let mut out = chars_to_bytes(&head);
    let mut i: usize = 0;
    let ghost prefix = out@;
    while i < res_content.len()
        invariant
            i <= res_content@.len(),
            out@ == prefix + res_content@.take(i as int),
        decreases res_content.len() - i,
    {
        out.push(res_content[i]);
        assert(prefix + res_content@.take(i + 1) =~= (prefix + res_content@.take(i as int)).push(res_content@[i as int]));
        i += 1;
    }
    assert(res_content@.take(res_content@.len() as int) =~= res_content@);
    assert(head@ =~= response_head(code, res_content@.len(), header_text@));
    out
}


/// The path of the page for status `code`: `<code>.html` in the server's
/// root directory.
pub open spec fn error_page_path_spec(sv: ServerView, code: usize) -> Seq<char> {
    root_dir(sv.root_path) + seq!['/'] + drop_leading_slash(unix_path(decimal(code as nat) + ".html"@))
}

/// The path of the page for status `code` on `server`.
pub fn error_page_path(code: usize, server: &Server) -> (r: String)
    ensures
        r@ == error_page_path_spec(server@, code),
{
    let mut name: Vec<char> = Vec::new();
    push_decimal(&mut name, code);
    push_str(&mut name, ".html");
    let u = unix_chars(&name);
    let mut out = root_dir_chars(server.root_path.as_str());
    out.push('/');
    if u.len() > 0 && u[0] == '/' {
        let t = crate::text::copy_suffix(&u, 1);
        assert(t@ =~= u@.drop_first());
        push_all(&mut out, &t);
    } else {
        push_all(&mut out, &u);
    }
    chars_to_string(&out)
}

/// The page served in place of a missing resource: the try-files resource
/// with status 200 where it was found; else the page for `code` where it was
/// found, or the built-in error page, with status `code`.
pub open spec fn other_html(code: usize, try_files_data: Option<Seq<u8>>, code_page_data: Option<Seq<u8>>) -> (Seq<u8>, usize) {
    match try_files_data {
        Some(d) => (d, 200),
        None => (
            match code_page_data {
                Some(p) => p,
                None => encode_utf8(error_html(decimal(code as nat) + seq![' '] + NOT_FOUND_TEXT@)),
            },
            code,
        ),
    }
}

/// The view of optional bytes.
pub open spec fn opt_bytes(o: Option<Vec<u8>>) -> Option<Seq<u8>> {
    match o {
        Some(v) => Some(v@),
        None => None,
    }
}

/// The page served in place of a missing resource, given what was read from
/// the try-files path (`Config::get_full_try_files_path`) and, where that
/// failed, from the page path for `code` (`error_page_path`).
pub fn load_other_html(
    code: usize,
    server: &Server,
    try_files_data: Option<Vec<u8>>,
    code_page_data: Option<Vec<u8>>,
) -> (r: (Vec<u8>, usize))
    ensures
        (r.0@, r.1) == other_html(code, opt_bytes(try_files_data), opt_bytes(code_page_data)),
{
    if let Some(html_res) = try_files_data {
        return (html_res, 200);
    }
    let mut text: Vec<char> = Vec::new();
    push_decimal(&mut text, code);
    text.push(' ');
    push_str(&mut text, NOT_FOUND_TEXT);
    assert(text@ =~= decimal(code as nat) + seq![' '] + NOT_FOUND_TEXT@);
    let mut html = get_error_html(chars_to_string(&text).as_str());
    if let Some(html_res) = code_page_data {
        html = html_res;
    }
    (html, code)
}

/// What serving a resource produced.
pub enum LoadOutcome {
    /// The resource file was read.
    FileLoaded(Vec<u8>),
    /// The resource file could not be read.
    FileMissing,
    /// The proxied server answered with these headers and body.
    Proxied(StrMap, Vec<u8>),
    /// The proxied request failed.
    ProxyFailed,
}

/// The served page must be replaced by the page for a missing resource: the
/// request is not safe, or its file could not be read.
pub open spec fn needs_fallback(is_safe_request: bool, outcome: LoadOutcome) -> bool {
    !is_safe_request || outcome is FileMissing
}

/// The headers forwarded from a proxied answer.
pub open spec fn outcome_header(is_safe_request: bool, outcome: LoadOutcome) -> Entries {
    if is_safe_request {
        match outcome {
            LoadOutcome::Proxied(h, _) => h@,
            _ => Seq::empty(),
        }
    } else {
        Seq::empty()
    }
}

/// The body a safe request produced.
pub open spec fn outcome_content(outcome: LoadOutcome) -> Seq<u8> {
    match outcome {
        LoadOutcome::FileLoaded(d) => d@,
        LoadOutcome::Proxied(_, b) => b@,
        _ => Seq::empty(),
    }
}

/// Whether the served page must be replaced by the page for a missing
/// resource.
pub fn need_fallback(is_safe_request: bool, outcome: &LoadOutcome) -> (r: bool)
    ensures
        r == needs_fallback(is_safe_request, *outcome),
{
    !is_safe_request || matches!(outcome, LoadOutcome::FileMissing)
}

/// The final response: for a safe request whose resource was read or
/// proxied, status 200 with that body (an empty one where the proxy failed);
/// otherwise the not-found page (`load_other_html` for 404, from what was
/// read from the try-files path and from the page path for 404) with its
/// status.
pub fn get_res_response(
    server: &Server,
    http_request: &HttpRequest,
    is_safe_request: bool,
    file_path: &str,
    outcome: LoadOutcome,
    try_files_data: Option<Vec<u8>>,
    code_page_data: Option<Vec<u8>>,
) -> (r: Vec<u8>)
    ensures
        r@ == (if needs_fallback(is_safe_request, outcome) {
            response_bytes(
                server@,
                http_request.headers@,
                other_html(404, opt_bytes(try_files_data), opt_bytes(code_page_data)).1,
                outcome_header(is_safe_request, outcome),
                other_html(404, opt_bytes(try_files_data), opt_bytes(code_page_data)).0,
            )
        } else {
            response_bytes(
                server@,
                http_request.headers@,
                200,
                outcome_header(is_safe_request, outcome),
                outcome_content(outcome),
            )
        }),
{
    let empty = StrMap::new();
    if need_fallback(is_safe_request, &outcome) {
        let (contents, code) = load_other_html(404, server, try_files_data, code_page_data);
        let h = if is_safe_request {
            match outcome {
                LoadOutcome::Proxied(h, _) => h,
                _ => StrMap::new(),
            }
        } else {
            StrMap::new()
        };
        return edit_response(server, http_request, code, &h, &contents);
    }
    match outcome {
        LoadOutcome::FileLoaded(d) => edit_response(server, http_request, 200, &empty, &d),
        LoadOutcome::Proxied(h, b) => edit_response(server, http_request, 200, &h, &b),
        LoadOutcome::ProxyFailed => {
            let none: Vec<u8> = Vec::new();
            assert(none@ =~= Seq::<u8>::empty());
            edit_response(server, http_request, 200, &empty, &none)
        },
        LoadOutcome::FileMissing => edit_response(server, http_request, 200, &empty, &empty_bytes()),
    }
}

fn empty_bytes() -> (r: Vec<u8>)
    ensures
        r@ == Seq::<u8>::empty(),
{
    Vec::new()
}

/// Setting lower-cased names keeps keys distinct.
proof fn lemma_lower_into_distinct(es: Entries, more: Entries)
    requires
        keys_distinct(es),
    ensures
        keys_distinct(lower_into(es, more)),
    decreases more.len(),
{
    if more.len() > 0 {
        lemma_lower_into_distinct(es, more.drop_last());
        lemma_insert_distinct(lower_into(es, more.drop_last()), lowercase(more.last().0), more.last().1);
    }
}

/// The headers of a response have distinct names and never hold
/// `content-length`, which the head states once, as the length of the body
/// that follows it.
pub proof fn law_content_length_exact(
    sv: ServerView,
    request_headers: Entries,
    code: usize,
    proxy_header: Entries,
    content: Seq<u8>,
)
    ensures
        keys_distinct(sent_headers(request_headers, proxy_header, sv)),
        lookup(sent_headers(request_headers, proxy_header, sv), CONTENT_LENGTH@) is None,
        response_bytes(sv, request_headers, code, proxy_header, content) == encode_utf8(
            response_head(
                code,
                sent_body(request_headers, proxy_header, sv, content).len(),
                map_text(sent_headers(request_headers, proxy_header, sv), RESPONSE_HEADER_BR@),
            ),
        ) + sent_body(request_headers, proxy_header, sv, content),
{
    let l1 = lower_into(Seq::empty(), items_entries(Seq::empty(), item_lines(sv.response_header_list)));
    lemma_lower_into_distinct(Seq::empty(), items_entries(Seq::empty(), item_lines(sv.response_header_list)));
    lemma_lower_into_distinct(l1, proxy_header);
    let l2 = lower_into(l1, proxy_header);
    law_lookup_after_remove(l2, CONTENT_LENGTH@, CONTENT_LENGTH@);
    let h = base_headers(sv, proxy_header);
    reveal_strlit("content-length");
    reveal_strlit("content-encoding");
    law_lookup_after_remove(h, CONTENT_ENCODING@, CONTENT_LENGTH@);
}

/// A client whose `accept-encoding` does not mention gzip gets the body
/// unchanged, and, unless the forwarded body is gzip already, no
/// `content-encoding` header.
pub proof fn law_no_gzip_unless_accepted(
    sv: ServerView,
    request_headers: Entries,
    proxy_header: Entries,
    content: Seq<u8>,
)
    requires
        !crate::gzip::mentions_gzip(lookup_or_empty(request_headers, crate::global::ACCEPT_ENCODING@)),
    ensures
        sent_body(request_headers, proxy_header, sv, content) == content,
        !forwarded_gzip(proxy_header) ==> lookup(sent_headers(request_headers, proxy_header, sv), CONTENT_ENCODING@) is None,
{
    let l1 = lower_into(Seq::empty(), items_entries(Seq::empty(), item_lines(sv.response_header_list)));
    lemma_lower_into_distinct(Seq::empty(), items_entries(Seq::empty(), item_lines(sv.response_header_list)));
    lemma_lower_into_distinct(l1, proxy_header);
    let l2 = lower_into(l1, proxy_header);
    law_lookup_after_remove(l2, CONTENT_LENGTH@, CONTENT_LENGTH@);
    let h = base_headers(sv, proxy_header);
    law_lookup_after_remove(h, CONTENT_ENCODING@, CONTENT_ENCODING@);
}

/// A forwarded body that is gzip already is sent unchanged, and the merged
/// headers are sent as they are: the forwarded `content-encoding` is passed
/// through, only a second compression is skipped.
pub proof fn law_forwarded_gzip_passed_through(
    sv: ServerView,
    request_headers: Entries,
    proxy_header: Entries,
    content: Seq<u8>,
)
    requires
        forwarded_gzip(proxy_header),
    ensures
        sent_body(request_headers, proxy_header, sv, content) == content,
        sent_headers(request_headers, proxy_header, sv) == base_headers(sv, proxy_header),
        lookup(sent_headers(request_headers, proxy_header, sv), CONTENT_ENCODING@)
            == lookup(base_headers(sv, proxy_header), CONTENT_ENCODING@),
{
}

/// Each sent header is one line `name: value` of the header block, and no
/// line is named `content-length` (the head states the body's length once,
/// before them), nor `content-encoding` unless the body is compressed here
/// or arrived gzip already. This holds where the names and values hold no
/// line feed and the names start with no space.
pub proof fn law_sent_header_lines(
    sv: ServerView,
    request_headers: Entries,
    proxy_header: Entries,
)
    requires
        forall|i: int| 0 <= i < sent_headers(request_headers, proxy_header, sv).len() ==> {
            let e = #[trigger] sent_headers(request_headers, proxy_header, sv)[i];
            &&& forall|j: int| 0 <= j < e.0.len() ==> e.0[j] != '\n'
            &&& forall|j: int| 0 <= j < e.1.len() ==> e.1[j] != '\n'
            &&& (e.0.len() == 0 || e.0[0] != ' ')
        },
    ensures
        sent_headers(request_headers, proxy_header, sv).len() > 0 ==> split_str(
            map_text(sent_headers(request_headers, proxy_header, sv), RESPONSE_HEADER_BR@),
            RESPONSE_HEADER_BR@,
        ) == sent_headers(request_headers, proxy_header, sv).map_values(
            |e: (Seq<char>, Seq<char>)| e.0 + seq![':', ' '] + trim_spaces(e.1),
        ),
        forall|i: int| 0 <= i < sent_headers(request_headers, proxy_header, sv).len()
            ==> (#[trigger] sent_headers(request_headers, proxy_header, sv)[i]).0 != CONTENT_LENGTH@,
        forall|i: int| 0 <= i < sent_headers(request_headers, proxy_header, sv).len()
            && (#[trigger] sent_headers(request_headers, proxy_header, sv)[i]).0 == CONTENT_ENCODING@
            ==> use_gzip(request_headers, proxy_header, base_headers(sv, proxy_header)) || forwarded_gzip(proxy_header),
{
    let h = sent_headers(request_headers, proxy_header, sv);
    law_content_length_exact(sv, request_headers, 200, proxy_header, Seq::empty());
    assert forall|i: int| 0 <= i < h.len() implies (#[trigger] h[i]).0 != CONTENT_LENGTH@ by {
        if h[i].0 == CONTENT_LENGTH@ {
            assert(crate::strmap::has_key(h, CONTENT_LENGTH@));
        }
    }
    if !(use_gzip(request_headers, proxy_header, base_headers(sv, proxy_header)) || forwarded_gzip(proxy_header)) {
        lemma_no_encoding_removed(sv, request_headers, proxy_header);
        assert forall|i: int| 0 <= i < h.len() implies (#[trigger] h[i]).0 != CONTENT_ENCODING@ by {
            if h[i].0 == CONTENT_ENCODING@ {
                assert(crate::strmap::has_key(h, CONTENT_ENCODING@));
            }
        }
    }
    if h.len() > 0 {
        let parts = h.map_values(|e: (Seq<char>, Seq<char>)| pair_text(e));
        let lines = h.map_values(|e: (Seq<char>, Seq<char>)| e.0 + seq![':', ' '] + trim_spaces(e.1));
        assert forall|i: int| 0 <= i < h.len() implies #[trigger] parts[i] == lines[i] by {
            crate::utils::tools::lemma_trim_plain(h[i].0);
        }
        assert(parts =~= lines);
        assert forall|i: int, j: int| 0 <= i < parts.len() && 0 <= j < parts[i].len()
            implies #[trigger] parts[i][j] != '\n' by {
            let e = h[i];
            crate::utils::tools::lemma_trim_plain(e.0);
            crate::utils::tools::lemma_space_count_le(e.1);
            let c = crate::utils::tools::space_count(e.1) as int;
            assert(parts[i] == e.0 + seq![':', ' '] + e.1.skip(c));
            if j < e.0.len() {
                assert(parts[i][j] == e.0[j]);
            } else if j >= e.0.len() + 2 {
                assert(parts[i][j] == e.1[j - e.0.len() - 2 + c]);
            }
        }
        reveal_strlit("\r\n");
        assert(RESPONSE_HEADER_BR@ =~= seq!['\r', '\n']);
        crate::text::lemma_split_join_crlf(parts);
    }
}

/// Where the body is neither compressed here nor gzip already, the sent
/// headers hold no `content-encoding`.
proof fn lemma_no_encoding_removed(sv: ServerView, request_headers: Entries, proxy_header: Entries)
    requires
        !(use_gzip(request_headers, proxy_header, base_headers(sv, proxy_header)) || forwarded_gzip(proxy_header)),
    ensures
        lookup(sent_headers(request_headers, proxy_header, sv), CONTENT_ENCODING@) is None,
{
    let l1 = lower_into(Seq::empty(), items_entries(Seq::empty(), item_lines(sv.response_header_list)));
    lemma_lower_into_distinct(Seq::empty(), items_entries(Seq::empty(), item_lines(sv.response_header_list)));
    lemma_lower_into_distinct(l1, proxy_header);
    let l2 = lower_into(l1, proxy_header);
    law_lookup_after_remove(l2, CONTENT_LENGTH@, CONTENT_LENGTH@);
    let h = base_headers(sv, proxy_header);
    law_lookup_after_remove(h, CONTENT_ENCODING@, CONTENT_ENCODING@);
}

/// The reason phrase of each status code the server knows is its standard
/// text, and every other code reads "Unknown Status Code"; the status line
/// is `HTTP/1.1`, the code's digits and that phrase.
pub proof fn law_reason_phrases(code: usize)
    ensures
        code_msg(100) == "Continue"@,
        code_msg(101) == "Switching Protocols"@,
        code_msg(200) == "OK"@,
        code_msg(201) == "Created"@,
        code_msg(202) == "Accepted"@,
        code_msg(204) == "No Content"@,
        code_msg(301) == "Moved Permanently"@,
        code_msg(302) == "Found"@,
        code_msg(304) == "Not Modified"@,
        code_msg(400) == "Bad Request"@,
        code_msg(401) == "Unauthorized"@,
        code_msg(403) == "Forbidden"@,
        code_msg(404) == "Not Found"@,
        code_msg(405) == "Method Not Allowed"@,
        code_msg(408) == "Request Timeout"@,
        code_msg(500) == "Internal Server Error"@,
        code_msg(501) == "Not Implemented"@,
        code_msg(502) == "Bad Gateway"@,
        code_msg(503) == "Service Unavailable"@,
        (code != 100 && code != 101 && code != 200 && code != 201 && code != 202 && code != 204 && code != 301 && code != 302 && code != 304 && code != 400 && code != 401 && code != 403 && code != 404 && code != 405 && code != 408 && code != 500 && code != 501 && code != 502 && code != 503) ==> code_msg(code) == "Unknown Status Code"@,
        status_line(code) == "HTTP/1.1 "@ + decimal(code as nat) + seq![' '] + code_msg(code),
{
}

} // verus!
